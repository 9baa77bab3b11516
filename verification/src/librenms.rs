//! Talking to LibreNMS: addresses, and what to do with each reply.
use crate::error::{Error, ErrorView};
use crate::text;
use vstd::prelude::*;

verus! {

/// A bill as the list of bills shows it.
#[derive(Debug, Clone)]
pub struct BillSummary {
    pub id: i64,
    pub bill_name: Option<String>,
    pub bill_type: Option<String>,
    pub port_id: Option<i64>,
    pub customer_id: Option<i64>,
    pub period: Option<u32>,
    pub active: Option<u8>,
}

/// A port that a bill counts.
#[derive(Debug, Clone)]
pub struct BillPort {
    pub port_id: i64,
    pub label: Option<String>,
}

/// A server and the token to talk to it with.
#[derive(Clone)]
pub struct LibreNmsClient {
    base_url: String,
    token: String,
}

// ---------------------------------------------------------------------------
// Addresses
// ---------------------------------------------------------------------------

/// `s` without the slashes at its end.
pub open spec fn without_slashes(s: Seq<char>) -> Seq<char>
    decreases s.len(),
{
    if s.len() > 0 && s.last() == '/' {
        without_slashes(s.drop_last())
    } else {
        s
    }
}

/// The address of the list of bills.
pub open spec fn bills_address(base: Seq<char>) -> Seq<char> {
    base + "/api/v0/bills"@
}

/// The address of a bill.
pub open spec fn bill_address(base: Seq<char>, id: i64) -> Seq<char> {
    base + "/api/v0/bills/"@ + text::dec_int(id as int)
}

/// The address of the samples of a bill.
pub open spec fn history_address(base: Seq<char>, id: i64) -> Seq<char> {
    base + "/api/v0/bills/"@ + text::dec_int(id as int) + "/history"@
}

fn trim_slashes(s: &str) -> (r: String)
    ensures
        r@ == without_slashes(s@),
{
    let c = text::chars_of(s);
    let mut n: usize = c.len();
    assert(c@.take(n as int) =~= c@);
    while n > 0 && c[n - 1] == '/'
        invariant
            n <= c@.len(),
            c@ == s@,
            without_slashes(s@) == without_slashes(c@.take(n as int)),
        decreases n,
    {
        assert(c@.take(n as int).drop_last() =~= c@.take(n - 1));
        n = n - 1;
    }
    assert(c@.subrange(0, n as int) =~= c@.take(n as int));
    text::string_of(&text::cut(&c, 0, n))
}

impl LibreNmsClient {
    /// The address of the server.
    pub closed spec fn base(&self) -> Seq<char> {
        self.base_url@
    }

    /// The token.
    pub closed spec fn secret(&self) -> Seq<char> {
        self.token@
    }

    /// A client for the server at `base_url`; slashes at the end of the address do not matter.
    pub fn new(base_url: &str, token: &str) -> (r: LibreNmsClient)
        ensures
            r.base() == without_slashes(base_url@),
            r.secret() == token@,
    {
        LibreNmsClient { base_url: trim_slashes(base_url), token: token.to_owned() }
    }

    /// The address of the server.
    pub fn base_url(&self) -> (r: &str)
        ensures
            r@ == self.base(),
    {
        self.base_url.as_str()
    }

    /// The token, for the header `X-Auth-Token`.
    pub fn token(&self) -> (r: &str)
        ensures
            r@ == self.secret(),
    {
        self.token.as_str()
    }

    /// The address of the list of bills.
    pub fn bills_url(&self) -> (r: String)
        ensures
            r@ == bills_address(self.base()),
    {
        text::cat2(&self.base_url, "/api/v0/bills")
    }

    /// The address of a bill.
    pub fn bill_url(&self, id: i64) -> (r: String)
        ensures
            r@ == bill_address(self.base(), id),
    {
        let n = text::string_of(&text::number(id));
        text::cat3(&self.base_url, "/api/v0/bills/", &n)
    }

    /// The address of the samples of a bill.
    pub fn history_url(&self, id: i64) -> (r: String)
        ensures
            r@ == history_address(self.base(), id),
    {
        let n = text::string_of(&text::number(id));
        text::cat4(&self.base_url, "/api/v0/bills/", &n, "/history")
    }
}

// ---------------------------------------------------------------------------
// Replies
// ---------------------------------------------------------------------------

/// How often a request is repeated.
pub const MAX_RETRIES: u32 = 3;

/// What came back for a request.
pub enum Reply {
    /// A response: its status code, the code in words, the value of the header `Retry-After`, and
    /// the body.
    Status { code: u16, status: String, retry_after: Option<String>, body: String },
    /// No response.
    Transport(String),
}

/// The mathematical value of a `Reply`.
pub enum ReplyView {
    Status {
        code: u16,
        status: Seq<char>,
        retry_after: Option<Seq<char>>,
        body: Seq<char>,
    },
    Transport(Seq<char>),
}

impl View for Reply {
    type V = ReplyView;

    open spec fn view(&self) -> ReplyView {
        match self {
            Reply::Status { code, status, retry_after, body } => ReplyView::Status {
                code: *code,
                status: status@,
                retry_after: text::optional(*retry_after),
                body: body@,
            },
            Reply::Transport(m) => ReplyView::Transport(m@),
        }
    }
}

/// A pause, in seconds and milliseconds.
#[derive(Debug, Clone, Copy, PartialEq, Eq, Structural)]
pub struct Pause {
    pub seconds: u64,
    pub millis: u64,
}

/// What to do next.
pub enum Next {
    /// The response is what was asked for.
    Accept,
    /// Pause, then send the request again; this many repetitions have been used up then.
    Retry { pause: Pause, attempt: u32 },
    /// Pause, then give up.
    Fail { pause: Pause, error: Error },
}

/// The mathematical value of a `Next`.
pub enum NextView {
    Accept,
    Retry { pause: Pause, attempt: u32 },
    Fail { pause: Pause, error: ErrorView },
}

impl View for Next {
    type V = NextView;

    open spec fn view(&self) -> NextView {
        match self {
            Next::Accept => NextView::Accept,
            Next::Retry { pause, attempt } => NextView::Retry { pause: *pause, attempt: *attempt },
            Next::Fail { pause, error } => NextView::Fail { pause: *pause, error: error@ },
        }
    }
}

pub open spec fn no_pause() -> Pause {
    Pause { seconds: 0, millis: 0 }
}

/// How long to pause before the repetition number `attempt`, counted from one: half a second,
/// two seconds, eight seconds.
pub open spec fn backoff(attempt: int) -> Pause {
    if attempt <= 1 {
        Pause { seconds: 0, millis: 500 }
    } else if attempt == 2 {
        Pause { seconds: 0, millis: 2000 }
    } else {
        Pause { seconds: 0, millis: 8000 }
    }
}

/// How long a server asks to wait: the seconds in `Retry-After`, five where it gives none.
pub open spec fn asked_pause(retry_after: Option<Seq<char>>) -> Pause {
    let given = match retry_after {
        Some(t) => text::unsigned_up_to(t, u64::MAX as int),
        None => None,
    };
    match given {
        Some(n) => Pause { seconds: n as u64, millis: 0 },
        None => Pause { seconds: 5, millis: 0 },
    }
}

/// What to do after a reply, when `attempt` repetitions have been used up. A response in the 200s
/// is accepted. Being refused or sent away (401, 403, 404) is final. A server that asks to slow
/// down (429) is given the pause it asks for. Anything else is repeated after a growing pause.
/// There are three repetitions.
pub open spec fn next_step(attempt: u32, url: Seq<char>, reply: ReplyView) -> NextView {
    match reply {
        ReplyView::Status { code, status, retry_after, body } => if 200 <= code <= 299 {
            NextView::Accept
        } else if code == 401 || code == 403 {
            NextView::Fail {
                pause: no_pause(),
                error: ErrorView::LibreNms(
                    "auth failed ("@ + status + ") for "@ + url + ": "@ + body,
                ),
            }
        } else if code == 404 {
            NextView::Fail {
                pause: no_pause(),
                error: ErrorView::LibreNms("not found (404) for "@ + url),
            }
        } else if code == 429 {
            if attempt < MAX_RETRIES {
                NextView::Retry { pause: asked_pause(retry_after), attempt: (attempt + 1) as u32 }
            } else {
                NextView::Fail {
                    pause: asked_pause(retry_after),
                    error: ErrorView::LibreNms("429 retries exhausted for "@ + url),
                }
            }
        } else if attempt < MAX_RETRIES {
            NextView::Retry { pause: backoff(attempt + 1), attempt: (attempt + 1) as u32 }
        } else {
            NextView::Fail {
                pause: no_pause(),
                error: ErrorView::LibreNms(
                    "HTTP "@ + status + " after 3 retries for "@ + url + ": "@ + body,
                ),
            }
        },
        ReplyView::Transport(m) => if attempt < MAX_RETRIES {
            NextView::Retry { pause: backoff(attempt + 1), attempt: (attempt + 1) as u32 }
        } else {
            NextView::Fail {
                pause: no_pause(),
                error: ErrorView::LibreNms(
                    "transport error after 3 retries for "@ + url + ": "@ + m,
                ),
            }
        },
    }
}

fn pause_before(attempt: u32) -> (r: Pause)
    ensures
        r == backoff(attempt as int),
{
    if attempt <= 1 {
        Pause { seconds: 0, millis: 500 }
    } else if attempt == 2 {
        Pause { seconds: 0, millis: 2000 }
    } else {
        Pause { seconds: 0, millis: 8000 }
    }
}

fn pause_asked(retry_after: &Option<String>) -> (r: Pause)
    ensures
        r == asked_pause(text::optional(*retry_after)),
{
    match retry_after {
        Some(t) => match text::parse_unsigned(&text::chars_of(t), u64::MAX) {
            Some(n) => Pause { seconds: n, millis: 0 },
            None => Pause { seconds: 5, millis: 0 },
        },
        None => Pause { seconds: 5, millis: 0 },
    }
}

/// What to do after a reply, when `attempt` repetitions have been used up.
pub fn after_reply(attempt: u32, url: &str, reply: &Reply) -> (r: Next)
    ensures
        r@ == next_step(attempt, url@, reply@),
{
    let none = Pause { seconds: 0, millis: 0 };
    match reply {
        Reply::Status { code, status, retry_after, body } => {
            let code: u16 = *code;
            if 200 <= code && code <= 299 {
                Next::Accept
            } else if code == 401 || code == 403 {
                let head = text::cat4("auth failed (", status, ") for ", url);
                Next::Fail { pause: none, error: Error::LibreNms(text::cat3(&head, ": ", body)) }
            } else if code == 404 {
                Next::Fail {
                    pause: none,
                    error: Error::LibreNms(text::cat2("not found (404) for ", url)),
                }
            } else if code == 429 {
                let pause = pause_asked(retry_after);
                if attempt < MAX_RETRIES {
                    Next::Retry { pause, attempt: attempt + 1 }
                } else {
                    Next::Fail {
                        pause,
                        error: Error::LibreNms(text::cat2("429 retries exhausted for ", url)),
                    }
                }
            } else if attempt < MAX_RETRIES {
                Next::Retry { pause: pause_before(attempt + 1), attempt: attempt + 1 }
            } else {
                let head = text::cat4("HTTP ", status, " after 3 retries for ", url);
                Next::Fail { pause: none, error: Error::LibreNms(text::cat3(&head, ": ", body)) }
            }
        },
        Reply::Transport(m) => {
            if attempt < MAX_RETRIES {
                Next::Retry { pause: pause_before(attempt + 1), attempt: attempt + 1 }
            } else {
                Next::Fail {
                    pause: none,
                    error: Error::LibreNms(
                        text::cat4("transport error after 3 retries for ", url, ": ", m),
                    ),
                }
            }
        },
    }
}

/// A response that is not JSON.
pub fn decode_error(url: &str, why: &str) -> (r: Error)
    ensures
        r@ == ErrorView::LibreNms("decode JSON from "@ + url@ + ": "@ + why@),
{
    Error::LibreNms(text::cat4("decode JSON from ", url, ": ", why))
}

/// JSON that is not what was asked for.
pub fn parse_error(url: &str, why: &str) -> (r: Error)
    ensures
        r@ == ErrorView::LibreNms("parse JSON from "@ + url@ + ": "@ + why@),
{
    Error::LibreNms(text::cat4("parse JSON from ", url, ": ", why))
}

// ---------------------------------------------------------------------------
// Laws
// ---------------------------------------------------------------------------

/// How many requests are sent, given what would come back for each.
pub open spec fn requests_sent(attempt: u32, url: Seq<char>, replies: Seq<ReplyView>) -> nat
    decreases replies.len(),
{
    if replies.len() == 0 {
        0
    } else {
        match next_step(attempt, url, replies[0]) {
            NextView::Retry { pause, attempt } => 1 + requests_sent(
                attempt,
                url,
                replies.drop_first(),
            ),
            _ => 1,
        }
    }
}

/// Whatever comes back, at most four requests are sent.
pub proof fn law_requests_bounded(url: Seq<char>, replies: Seq<ReplyView>)
    ensures
        requests_sent(0, url, replies) <= 4,
{
    lemma_requests(0, url, replies);
}

proof fn lemma_requests(attempt: u32, url: Seq<char>, replies: Seq<ReplyView>)
    requires
        attempt <= MAX_RETRIES,
    ensures
        requests_sent(attempt, url, replies) <= 4 - attempt,
    decreases replies.len(),
{
    if replies.len() > 0 {
        match next_step(attempt, url, replies[0]) {
            NextView::Retry { pause, attempt: more } => {
                lemma_requests(more, url, replies.drop_first());
            },
            _ => {},
        }
    }
}

/// A reply that cannot get better is not asked for twice.
pub proof fn law_no_retry_when_refused(
    attempt: u32,
    url: Seq<char>,
    code: u16,
    status: Seq<char>,
    retry_after: Option<Seq<char>>,
    body: Seq<char>,
)
    requires
        code == 401 || code == 403 || code == 404,
    ensures
        next_step(attempt, url, ReplyView::Status { code, status, retry_after, body }) is Fail,
{
}

/// A response is accepted exactly in the 200s. It is asked for again exactly where it may get better
/// and fewer than three repetitions have been used up, and each repetition uses up one. What fails
/// says for which address.
pub proof fn law_what_comes_next(
    attempt: u32,
    url: Seq<char>,
    code: u16,
    status: Seq<char>,
    retry_after: Option<Seq<char>>,
    body: Seq<char>,
)
    ensures
        ({
            let next = next_step(
                attempt,
                url,
                ReplyView::Status { code, status, retry_after, body },
            );
            let fine = 200 <= code && code < 300;
            let hopeless = code == 401 || code == 403 || code == 404;
            &&& next is Accept <==> fine
            &&& next is Retry <==> !fine && !hopeless && attempt < 3
            &&& next is Fail <==> !fine && (hopeless || attempt >= 3)
            &&& next matches NextView::Retry { pause, attempt: used } ==> used == attempt + 1 && (
            if code == 429 {
                pause == asked_pause(retry_after)
            } else {
                pause == backoff(used as int)
            })
            &&& next matches NextView::Fail { pause, error } ==> (if code == 429 {
                pause == asked_pause(retry_after)
            } else {
                pause.seconds == 0 && pause.millis == 0
            })
            &&& code == 401 || code == 403 ==> next->error == ErrorView::LibreNms(
                "auth failed ("@ + status + ") for "@ + url + ": "@ + body,
            )
            &&& code == 404 ==> next->error == ErrorView::LibreNms("not found (404) for "@ + url)
            &&& code == 429 && attempt >= 3 ==> next->error == ErrorView::LibreNms(
                "429 retries exhausted for "@ + url,
            )
            &&& next is Fail && !hopeless && code != 429 ==> next->error == ErrorView::LibreNms(
                "HTTP "@ + status + " after 3 retries for "@ + url + ": "@ + body,
            )
        }),
{
}

/// Where no response comes, the request is sent again, up to three times, after growing pauses.
pub proof fn law_no_response(attempt: u32, url: Seq<char>, why: Seq<char>)
    ensures
        ({
            let next = next_step(attempt, url, ReplyView::Transport(why));
            &&& next is Retry <==> attempt < 3
            &&& next is Fail <==> attempt >= 3
            &&& next matches NextView::Retry { pause, attempt: used } ==> used == attempt + 1
                && pause == backoff(used as int)
            &&& next matches NextView::Fail { pause, error } ==> pause.seconds == 0 && pause.millis
                == 0 && error == ErrorView::LibreNms(
                "transport error after 3 retries for "@ + url + ": "@ + why,
            )
        }),
{
}

/// Each pause is four times the one before; the first is half a second.
pub proof fn law_pauses_grow(n: int)
    requires
        1 <= n < 3,
    ensures
        backoff(1).millis == 500 && backoff(1).seconds == 0,
        backoff(n + 1).millis == 4 * backoff(n).millis,
        backoff(n + 1).seconds == 0,
{
}

/// The pause is the number of seconds that the server gives, and five where it gives no number or
/// one that is too large.
pub proof fn law_asked_pause(t: Seq<char>, n: u64)
    ensures
        asked_pause(Some(text::dec(n as nat))) == (Pause { seconds: n, millis: 0 }),
        asked_pause(None) == (Pause { seconds: 5, millis: 0 }),
        text::unsigned(t) is None ==> asked_pause(Some(t)) == (Pause { seconds: 5, millis: 0 }),
        text::unsigned(t) matches Some(m) ==> m > u64::MAX ==> asked_pause(Some(t)) == (Pause {
            seconds: 5,
            millis: 0,
        }),
{
    text::law_decimal(n as nat);
}

/// An address that ends in slashes is the same without them, and nothing else of it goes.
pub proof fn law_slashes_do_not_matter(s: Seq<char>)
    ensures
        without_slashes(s.push('/')) == without_slashes(s),
        s.len() > 0 && s.last() != '/' ==> without_slashes(s) == s,
        without_slashes(s).len() > 0 ==> without_slashes(s).last() != '/',
        without_slashes(Seq::empty()) == Seq::<char>::empty(),
    decreases s.len(),
{
    assert(s.push('/').drop_last() =~= s);
    if s.len() > 0 && s.last() == '/' {
        law_slashes_do_not_matter(s.drop_last());
    }
}

/// Where bills are: each below the list, its samples below it.
pub proof fn law_addresses(base: Seq<char>, id: i64)
    ensures
        bills_address(base) == base + "/api/v0/bills"@,
        bill_address(base, id) == bills_address(base) + "/"@ + text::dec_int(id as int),
        history_address(base, id) == bill_address(base, id) + "/history"@,
{
    reveal_strlit("/api/v0/bills");
    reveal_strlit("/api/v0/bills/");
    reveal_strlit("/");
    assert("/api/v0/bills"@ + "/"@ =~= "/api/v0/bills/"@);
    assert(bill_address(base, id) =~= bills_address(base) + "/"@ + text::dec_int(id as int));
}

/// A reply and a next step are seen whole.
pub proof fn law_replies_are_seen_whole(
    code: u16,
    status: String,
    retry_after: Option<String>,
    body: String,
    pause: Pause,
    attempt: u32,
    error: Error,
)
    ensures
        (Reply::Status { code, status, retry_after, body })@ == (ReplyView::Status {
            code,
            status: status@,
            retry_after: text::optional(retry_after),
            body: body@,
        }),
        Reply::Transport(body)@ == ReplyView::Transport(body@),
        Next::Accept@ == NextView::Accept,
        (Next::Retry { pause, attempt })@ == (NextView::Retry { pause, attempt }),
        (Next::Fail { pause, error })@ == (NextView::Fail { pause, error: error@ }),
{
}

} // verus!
