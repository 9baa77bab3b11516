//! Reading back the record of what an invoice was made from.
//!
//! A reader takes the front of a text and gives what it stands for and the rest. What is read is
//! written again and held against the text, so that only a record counts as one.
use crate::render::fill;
use crate::render::fill::{PortLine, PortLineView};
use crate::runner;
use crate::template::digest;
use crate::text;
use vstd::prelude::*;

verus! {

/// What a record says.
pub struct Snapshot {
    pub customer_id: i64,
    pub key: String,
    pub ports: Vec<PortLine>,
    pub total_cents: i64,
    pub year: i64,
    pub month: i64,
}

/// The mathematical value of a `Snapshot`.
#[verifier::ext_equal]
pub struct SnapshotView {
    pub customer_id: i64,
    pub key: Seq<char>,
    pub ports: Seq<PortLineView>,
    pub total_cents: i64,
    pub year: i64,
    pub month: i64,
}

impl View for Snapshot {
    type V = SnapshotView;

    open spec fn view(&self) -> SnapshotView {
        SnapshotView {
            customer_id: self.customer_id,
            key: self.key@,
            ports: fill::line_views(self.ports@),
            total_cents: self.total_cents,
            year: self.year,
            month: self.month,
        }
    }
}

impl SnapshotView {
    /// The record as text.
    pub open spec fn written(self) -> Seq<char> {
        runner::snapshot_text(
            self.customer_id,
            self.key,
            self.ports,
            self.total_cents,
            self.year,
            self.month,
        )
    }
}

// ---------------------------------------------------------------------------
// Fixed words
// ---------------------------------------------------------------------------

/// What stands behind `w`.
spec fn behind(s: Seq<char>, w: Seq<char>) -> Option<Seq<char>> {
    if text::has_prefix(s, w) {
        Some(s.skip(w.len() as int))
    } else {
        None
    }
}

proof fn lemma_behind(w: Seq<char>, x: Seq<char>)
    ensures
        behind(w + x, w) == Some(x),
{
    assert((w + x).take(w.len() as int) =~= w);
    assert((w + x).skip(w.len() as int) =~= x);
}

proof fn lemma_joined(a: Seq<char>, b: Seq<char>, c: Seq<char>)
    ensures
        a + b + c == a + (b + c),
{
    assert(a + b + c =~= a + (b + c));
}

fn pass(s: &Vec<char>, at: usize, w: &str) -> (r: Option<usize>)
    requires
        at <= s@.len(),
    ensures
        match r {
            Some(p) => at <= p <= s@.len() && behind(s@.skip(at as int), w@) == Some(
                s@.skip(p as int),
            ),
            None => behind(s@.skip(at as int), w@) is None,
        },
{
    let v = text::chars_of(w);
    let rest = text::cut(s, at, s.len());
    assert(rest@ =~= s@.skip(at as int));
    if text::starts_with(&rest, &v) {
        assert(rest@.skip(v@.len() as int) =~= s@.skip(at + v@.len()));
        Some(at + v.len())
    } else {
        None
    }
}

// ---------------------------------------------------------------------------
// Strings
// ---------------------------------------------------------------------------

/// What a hexadecimal digit stands for.
spec fn hex_value(c: char) -> Option<int> {
    if '0' <= c <= '9' {
        Some(c as int - 48)
    } else if 'a' <= c <= 'f' {
        Some(c as int - 87)
    } else {
        None
    }
}

fn hex_value_of(c: char) -> (r: Option<u8>)
    ensures
        match r {
            Some(n) => hex_value(c) == Some(n as int) && n < 16,
            None => hex_value(c) is None,
        },
{
    if '0' <= c && c <= '9' {
        Some((c as u32 - 48) as u8)
    } else if 'a' <= c && c <= 'f' {
        Some((c as u32 - 87) as u8)
    } else {
        None
    }
}

/// The character that the front of a JSON string stands for, and how many it is written with.
spec fn front(s: Seq<char>) -> Option<(char, int)> {
    if s.len() == 0 {
        None
    } else if s[0] != '\\' {
        Some((s[0], 1))
    } else if s.len() == 1 {
        None
    } else if s[1] == '"' || s[1] == '\\' {
        Some((s[1], 2))
    } else if s[1] == 'b' {
        Some((8u8 as char, 2))
    } else if s[1] == 't' {
        Some((9u8 as char, 2))
    } else if s[1] == 'n' {
        Some((10u8 as char, 2))
    } else if s[1] == 'f' {
        Some((12u8 as char, 2))
    } else if s[1] == 'r' {
        Some((13u8 as char, 2))
    } else if s[1] == 'u' && s.len() >= 6 && s[2] == '0' && s[3] == '0' {
        match (hex_value(s[4]), hex_value(s[5])) {
            (Some(a), Some(b)) => Some((((16 * a + b) as u8) as char, 6)),
            _ => None,
        }
    } else {
        None
    }
}

fn front_of(s: &Vec<char>, at: usize) -> (r: Option<(char, usize)>)
    requires
        at <= s@.len(),
    ensures
        match r {
            Some((c, p)) => at < p <= s@.len() && front(s@.skip(at as int)) == Some((c, p - at)),
            None => front(s@.skip(at as int)) is None,
        },
{
    let n: usize = s.len() - at;
    let ghost t = s@.skip(at as int);
    assert(forall|k: int| 0 <= k < n ==> t[k] == s@[at + k]);
    if n == 0 {
        return None;
    }
    if s[at] != '\\' {
        return Some((s[at], at + 1));
    }
    if n == 1 {
        return None;
    }
    let c: char = s[at + 1];
    if c == '"' || c == '\\' {
        Some((c, at + 2))
    } else if c == 'b' {
        Some((8u8 as char, at + 2))
    } else if c == 't' {
        Some((9u8 as char, at + 2))
    } else if c == 'n' {
        Some((10u8 as char, at + 2))
    } else if c == 'f' {
        Some((12u8 as char, at + 2))
    } else if c == 'r' {
        Some((13u8 as char, at + 2))
    } else if c == 'u' && n >= 6 && s[at + 2] == '0' && s[at + 3] == '0' {
        match (hex_value_of(s[at + 4]), hex_value_of(s[at + 5])) {
            (Some(a), Some(b)) => Some(((16 * a + b) as char, at + 6)),
            _ => None,
        }
    } else {
        None
    }
}

/// The characters up to the closing quotation mark, and what stands behind it.
spec fn inside(s: Seq<char>) -> Option<(Seq<char>, Seq<char>)>
    decreases s.len(),
{
    if s.len() == 0 {
        None
    } else if s[0] == '"' {
        Some((Seq::empty(), s.skip(1)))
    } else {
        match front(s) {
            Some((c, n)) => if 0 < n <= s.len() {
                match inside(s.skip(n)) {
                    Some((t, x)) => Some((seq![c] + t, x)),
                    None => None,
                }
            } else {
                None
            },
            None => None,
        }
    }
}

/// The text that a JSON string stands for, and what stands behind it.
spec fn string_at(s: Seq<char>) -> Option<(Seq<char>, Seq<char>)> {
    if s.len() > 0 && s[0] == '"' {
        inside(s.skip(1))
    } else {
        None
    }
}

fn read_string(s: &Vec<char>, at: usize) -> (r: Option<(String, usize)>)
    requires
        at <= s@.len(),
    ensures
        match r {
            Some((t, p)) => at <= p <= s@.len() && string_at(s@.skip(at as int)) == Some(
                (t@, s@.skip(p as int)),
            ),
            None => string_at(s@.skip(at as int)) is None,
        },
{
    let n: usize = s.len();
    let ghost start = s@.skip(at as int);
    if at == n || s[at] != '"' {
        return None;
    }
    let mut out = String::new();
    let mut i: usize = at + 1;
    assert(start.skip(1) =~= s@.skip(at + 1));
    assert(forall|t: Seq<char>| out@ + t =~= t);
    while i < n
        invariant
            at < i <= n == s@.len(),
            start == s@.skip(at as int),
            string_at(start) == (match inside(s@.skip(i as int)) {
                Some((t, x)) => Some((out@ + t, x)),
                None => None,
            }),
        decreases n - i,
    {
        let ghost rest = s@.skip(i as int);
        assert(rest[0] == s@[i as int]);
        if s[i] == '"' {
            assert(rest.skip(1) =~= s@.skip(i + 1));
            assert(out@ + Seq::<char>::empty() =~= out@);
            return Some((out, i + 1));
        }
        match front_of(s, i) {
            Some((c, p)) => {
                let ghost held = out@;
                out.push(c);
                assert(rest.skip(p - i) =~= s@.skip(p as int));
                assert forall|t: Seq<char>| #[trigger] (held + (seq![c] + t)) == out@ + t by {
                    assert(held + (seq![c] + t) =~= out@ + t);
                }
                i = p;
            },
            None => return None,
        }
    }
    None
}

/// A text is written character by character.
proof fn lemma_escaped_first(s: Seq<char>)
    requires
        s.len() > 0,
    ensures
        runner::all_escaped(s) == runner::escaped(s[0]) + runner::all_escaped(s.drop_first()),
    decreases s.len(),
{
    if s.len() == 1 {
        assert(s.drop_last() =~= Seq::empty());
        assert(s.drop_first() =~= Seq::empty());
        assert(runner::all_escaped(s.drop_last()) + runner::escaped(s.last()) =~= runner::escaped(s[0]) + runner::all_escaped(
            s.drop_first(),
        ));
    } else {
        lemma_escaped_first(s.drop_last());
        assert(s.drop_last().drop_first() =~= s.drop_first().drop_last());
        assert(runner::all_escaped(s) =~= runner::escaped(s[0]) + runner::all_escaped(s.drop_first()));
    }
}

proof fn lemma_front(c: char, x: Seq<char>)
    ensures
        front(runner::escaped(c) + x) == Some((c, runner::escaped(c).len() as int)),
        (runner::escaped(c) + x)[0] != '"',
        (runner::escaped(c) + x).skip(runner::escaped(c).len() as int) == x,
        runner::escaped(c).len() > 0,
{
    let e = runner::escaped(c);
    let s = e + x;
    assert(forall|k: int| 0 <= k < e.len() ==> s[k] == e[k]);
    assert(s.skip(e.len() as int) =~= x);
    let n = c as u32 as int;
    if c != '"' && c != '\\' && n < 32 && n != 8 && n != 9 && n != 10 && n != 12 && n != 13 {
        assert(hex_value(digest::hex_digit(n / 16)) == Some(n / 16));
        assert(hex_value(digest::hex_digit(n % 16)) == Some(n % 16));
        assert(16 * (n / 16) + n % 16 == n);
        assert((n as u8) as char == c);
    }
}

proof fn lemma_inside(t: Seq<char>, x: Seq<char>)
    ensures
        inside(runner::all_escaped(t) + (seq!['"'] + x)) == Some((t, x)),
    decreases t.len(),
{
    let tail = seq!['"'] + x;
    if t.len() == 0 {
        assert(runner::all_escaped(t) + tail =~= tail);
        assert(tail.skip(1) =~= x);
        assert(t =~= Seq::empty());
    } else {
        let rest = runner::all_escaped(t.drop_first()) + tail;
        lemma_escaped_first(t);
        lemma_joined(runner::escaped(t[0]), runner::all_escaped(t.drop_first()), tail);
        lemma_front(t[0], rest);
        lemma_inside(t.drop_first(), x);
        assert(seq![t[0]] + t.drop_first() =~= t);
    }
}

proof fn lemma_string(t: Seq<char>, x: Seq<char>)
    ensures
        string_at(runner::quoted(t) + x) == Some((t, x)),
{
    let s = runner::quoted(t) + x;
    lemma_inside(t, x);
    assert(s.skip(1) =~= runner::all_escaped(t) + (seq!['"'] + x));
    assert(s[0] == '"');
}

// ---------------------------------------------------------------------------
// Numbers and flags
// ---------------------------------------------------------------------------

spec fn is_digit(c: char) -> bool {
    '0' <= c <= '9'
}

/// How many digits stand at the front, from `i` on.
spec fn run(s: Seq<char>, i: int) -> int
    decreases s.len() - i,
{
    if 0 <= i < s.len() && is_digit(s[i]) {
        run(s, i + 1)
    } else {
        i
    }
}

/// The number at the front, and what stands behind its digits.
spec fn number_at(s: Seq<char>) -> Option<(i64, Seq<char>)> {
    let from: int = if s.len() > 0 && s[0] == '-' {
        1
    } else {
        0
    };
    let to = run(s, from);
    let n = text::value_of(s.subrange(from, to));
    if to == from {
        None
    } else if from == 1 && n <= 0x8000_0000_0000_0000 {
        Some(((-n) as i64, s.skip(to)))
    } else if from == 0 && n <= i64::MAX {
        Some((n as i64, s.skip(to)))
    } else {
        None
    }
}

proof fn lemma_run(s: Seq<char>, i: int, k: int)
    requires
        0 <= i <= k <= s.len(),
        forall|j: int| i <= j < k ==> is_digit(#[trigger] s[j]),
        k < s.len() ==> !is_digit(s[k]),
    ensures
        run(s, i) == k,
    decreases k - i,
{
    if i < k {
        assert(is_digit(s[i]));
        lemma_run(s, i + 1, k);
    }
}

proof fn lemma_number(n: i64, x: Seq<char>)
    requires
        x.len() > 0,
        !is_digit(x[0]),
    ensures
        number_at(text::dec_int(n as int) + x) == Some((n, x)),
{
    let m: nat = if n < 0 {
        (-n) as nat
    } else {
        n as nat
    };
    let d = text::dec(m);
    text::lemma_dec_reads_back(m);
    let s = text::dec_int(n as int) + x;
    let from: int = if n < 0 {
        1
    } else {
        0
    };
    let to: int = from + d.len();
    assert(s.subrange(from, to) =~= d);
    assert(s.skip(to) =~= x);
    assert(s[to] == x[0]);
    assert forall|j: int| from <= j < to implies is_digit(#[trigger] s[j]) by {
        assert(s[j] == d[j - from]);
    }
    assert(s[from] == d[0]);
    lemma_run(s, from, to);
}

fn read_number(s: &Vec<char>, at: usize) -> (r: Option<(i64, usize)>)
    requires
        at <= s@.len(),
    ensures
        match r {
            Some((n, p)) => at <= p <= s@.len() && number_at(s@.skip(at as int)) == Some(
                (n, s@.skip(p as int)),
            ),
            None => number_at(s@.skip(at as int)) is None,
        },
{
    let n: usize = s.len();
    let ghost t = s@.skip(at as int);
    let negative: bool = at < n && s[at] == '-';
    let from: usize = if negative {
        at + 1
    } else {
        at
    };
    let mut to: usize = from;
    while to < n && '0' <= s[to] && s[to] <= '9'
        invariant
            at <= from <= to <= n == s@.len(),
            t == s@.skip(at as int),
            forall|j: int| from - at <= j < to - at ==> is_digit(#[trigger] t[j]),
        decreases n - to,
    {
        assert(t[to - at] == s@[to as int]);
        to = to + 1;
    }
    proof {
        if to < n {
            assert(t[to - at] == s@[to as int]);
        }
        lemma_run(t, from - at, to - at);
        assert(t.subrange(from - at, to - at) =~= s@.subrange(from as int, to as int));
        assert(t.skip(to - at) =~= s@.skip(to as int));
    }
    if to == from {
        return None;
    }
    let digits = text::cut(s, from, to);
    proof {
        assert forall|j: int| 0 <= j < digits@.len() implies '0' <= #[trigger] digits@[j] <= '9' by {
            assert(is_digit(t[from - at + j]));
        }
        assert(digits@[0] != '+');
    }
    let most: u64 = if negative {
        0x8000_0000_0000_0000
    } else {
        0x7fff_ffff_ffff_ffff
    };
    match text::parse_unsigned(&digits, most) {
        Some(v) => {
            let value: i64 = if negative {
                (-(v as i128)) as i64
            } else {
                v as i64
            };
            Some((value, to))
        },
        None => None,
    }
}

/// The number at the front, or none where it says so, and what stands behind it.
spec fn optional_at(s: Seq<char>) -> Option<(Option<i64>, Seq<char>)> {
    match behind(s, "null"@) {
        Some(x) => Some((None, x)),
        None => match number_at(s) {
            Some((n, x)) => Some((Some(n), x)),
            None => None,
        },
    }
}

proof fn lemma_optional(n: Option<i64>, x: Seq<char>)
    requires
        x.len() > 0,
        !is_digit(x[0]),
    ensures
        optional_at(runner::number_text(n) + x) == Some((n, x)),
{
    match n {
        None => {
            lemma_behind("null"@, x);
        },
        Some(n) => {
            lemma_number(n, x);
            let s = text::dec_int(n as int) + x;
            reveal_strlit("null");
            text::lemma_dec_reads_back(if n < 0 {
                (-n) as nat
            } else {
                n as nat
            });
            assert(s[0] == text::dec_int(n as int)[0]);
            assert("null"@[0] == 'n');
            if text::has_prefix(s, "null"@) {
                assert(s.take(4)[0] == s[0]);
            }
        },
    }
}

fn read_optional(s: &Vec<char>, at: usize) -> (r: Option<(Option<i64>, usize)>)
    requires
        at <= s@.len(),
    ensures
        match r {
            Some((n, p)) => at <= p <= s@.len() && optional_at(s@.skip(at as int)) == Some(
                (n, s@.skip(p as int)),
            ),
            None => optional_at(s@.skip(at as int)) is None,
        },
{
    match pass(s, at, "null") {
        Some(p) => Some((None, p)),
        None => match read_number(s, at) {
            Some((n, p)) => Some((Some(n), p)),
            None => None,
        },
    }
}

/// The truth value at the front, and what stands behind it.
spec fn flag_at(s: Seq<char>) -> Option<(bool, Seq<char>)> {
    match behind(s, "true"@) {
        Some(x) => Some((true, x)),
        None => match behind(s, "false"@) {
            Some(x) => Some((false, x)),
            None => None,
        },
    }
}

proof fn lemma_flag(b: bool, x: Seq<char>)
    ensures
        flag_at(runner::flag_text(b) + x) == Some((b, x)),
{
    lemma_behind(runner::flag_text(b), x);
    if !b {
        let s = "false"@ + x;
        reveal_strlit("true");
        reveal_strlit("false");
        assert(s[0] == 'f');
        assert(s.take(4)[0] == 'f');
        assert("true"@[0] == 't');
    }
}

fn read_flag(s: &Vec<char>, at: usize) -> (r: Option<(bool, usize)>)
    requires
        at <= s@.len(),
    ensures
        match r {
            Some((b, p)) => at <= p <= s@.len() && flag_at(s@.skip(at as int)) == Some(
                (b, s@.skip(p as int)),
            ),
            None => flag_at(s@.skip(at as int)) is None,
        },
{
    match pass(s, at, "true") {
        Some(p) => Some((true, p)),
        None => match pass(s, at, "false") {
            Some(p) => Some((false, p)),
            None => None,
        },
    }
}

// ---------------------------------------------------------------------------
// Ports
// ---------------------------------------------------------------------------

/// The port line at the front, and what stands behind it.
#[verifier::opaque]
spec fn port_at(s: Seq<char>) -> Option<(PortLineView, Seq<char>)> {
    match behind(s, "{\"label\":"@) {
        None => None,
        Some(a) => match string_at(a) {
            None => None,
            Some((label, b)) => match behind(b, ",\"machine_hosting\":"@) {
                None => None,
                Some(c) => match flag_at(c) {
                    None => None,
                    Some((machine_hosting, d)) => match behind(d, ",\"machine_rent\":"@) {
                        None => None,
                        Some(e) => match flag_at(e) {
                            None => None,
                            Some((machine_rent, f)) => match behind(f, ",\"mbps_95th\":"@) {
                                None => None,
                                Some(g) => match optional_at(g) {
                                    None => None,
                                    Some((mbps_95th, h)) => match behind(h, "}"@) {
                                        None => None,
                                        Some(x) => Some(
                                            (
                                                PortLineView {
                                                    label,
                                                    mbps_95th,
                                                    machine_rent,
                                                    machine_hosting,
                                                },
                                                x,
                                            ),
                                        ),
                                    },
                                },
                            },
                        },
                    },
                },
            },
        },
    }
}

proof fn lemma_port(p: PortLineView, x: Seq<char>)
    ensures
        port_at(runner::port_text(p) + x) == Some((p, x)),
        runner::port_text(p).len() > 0,
        runner::port_text(p)[0] == '{',
{
    reveal(port_at);
    let w1 = "{\"label\":"@;
    let w2 = ",\"machine_hosting\":"@;
    let w3 = ",\"machine_rent\":"@;
    let w4 = ",\"mbps_95th\":"@;
    let (t1, t2, t3, t4) = (
        runner::quoted(p.label),
        runner::flag_text(p.machine_hosting),
        runner::flag_text(p.machine_rent),
        runner::number_text(p.mbps_95th),
    );
    let x8 = "}"@ + x;
    let x7 = t4 + x8;
    let x6 = w4 + x7;
    let x5 = t3 + x6;
    let x4 = w3 + x5;
    let x3 = t2 + x4;
    let x2 = w2 + x3;
    let x1 = t1 + x2;
    reveal_strlit("}");
    reveal_strlit("{\"label\":");
    lemma_joined(w1 + t1 + w2 + t2 + w3 + t3 + w4 + t4, "}"@, x);
    lemma_joined(w1 + t1 + w2 + t2 + w3 + t3 + w4, t4, x8);
    lemma_joined(w1 + t1 + w2 + t2 + w3 + t3, w4, x7);
    lemma_joined(w1 + t1 + w2 + t2 + w3, t3, x6);
    lemma_joined(w1 + t1 + w2 + t2, w3, x5);
    lemma_joined(w1 + t1 + w2, t2, x4);
    lemma_joined(w1 + t1, w2, x3);
    lemma_joined(w1, t1, x2);
    lemma_behind(w1, x1);
    lemma_string(p.label, x2);
    lemma_behind(w2, x3);
    lemma_flag(p.machine_hosting, x4);
    lemma_behind(w3, x5);
    lemma_flag(p.machine_rent, x6);
    lemma_behind(w4, x7);
    assert(x8[0] == '}');
    lemma_optional(p.mbps_95th, x8);
    lemma_behind("}"@, x);
}

fn read_port(s: &Vec<char>, at: usize) -> (r: Option<(PortLine, usize)>)
    requires
        at <= s@.len(),
    ensures
        match r {
            Some((v, p)) => at <= p <= s@.len() && port_at(s@.skip(at as int)) == Some(
                (v@, s@.skip(p as int)),
            ),
            None => port_at(s@.skip(at as int)) is None,
        },
{
    reveal(port_at);
    let a: usize = match pass(s, at, "{\"label\":") {
        Some(p) => p,
        None => return None,
    };
    let (label, b) = match read_string(s, a) {
        Some(v) => v,
        None => return None,
    };
    let c: usize = match pass(s, b, ",\"machine_hosting\":") {
        Some(p) => p,
        None => return None,
    };
    let (machine_hosting, d) = match read_flag(s, c) {
        Some(v) => v,
        None => return None,
    };
    let e: usize = match pass(s, d, ",\"machine_rent\":") {
        Some(p) => p,
        None => return None,
    };
    let (machine_rent, f) = match read_flag(s, e) {
        Some(v) => v,
        None => return None,
    };
    let g: usize = match pass(s, f, ",\"mbps_95th\":") {
        Some(p) => p,
        None => return None,
    };
    let (mbps_95th, h) = match read_optional(s, g) {
        Some(v) => v,
        None => return None,
    };
    match pass(s, h, "}") {
        Some(p) => Some((PortLine { label, mbps_95th, machine_rent, machine_hosting }, p)),
        None => None,
    }
}

/// The port lines up to the closing bracket, and the text from there on.
spec fn ports_at(s: Seq<char>) -> Option<(Seq<PortLineView>, Seq<char>)>
    decreases s.len(),
{
    if s.len() > 0 && s[0] == ']' {
        Some((Seq::empty(), s))
    } else {
        match port_at(s) {
            None => None,
            Some((p, x)) => if x.len() > 0 && x[0] == ',' && x.len() <= s.len() {
                match ports_at(x.skip(1)) {
                    None => None,
                    Some((rest, y)) => Some((seq![p] + rest, y)),
                }
            } else {
                Some((seq![p], x))
            },
        }
    }
}

/// Port lines are written one after the other.
proof fn lemma_ports_first(ports: Seq<PortLineView>)
    requires
        ports.len() >= 2,
    ensures
        runner::ports_text(ports) == runner::port_text(ports[0]) + (","@ + runner::ports_text(
            ports.drop_first(),
        )),
    decreases ports.len(),
{
    let first = runner::port_text(ports[0]);
    let last = runner::port_text(ports.last());
    reveal_with_fuel(runner::ports_text, 2);
    assert(ports.drop_first().last() == ports.last());
    if ports.len() == 2 {
        assert(ports.drop_last()[0] == ports[0]);
        assert(ports.drop_first()[0] == ports.last());
        lemma_joined(first, ","@, last);
    } else {
        lemma_ports_first(ports.drop_last());
        let mid = runner::ports_text(ports.drop_last().drop_first());
        assert(ports.drop_last().drop_first() =~= ports.drop_first().drop_last());
        assert(first + (","@ + mid) + ","@ + last =~= first + (","@ + (mid + ","@ + last)));
    }
}

proof fn lemma_ports(ports: Seq<PortLineView>, x: Seq<char>)
    requires
        x.len() > 0,
        x[0] == ']',
    ensures
        ports_at(runner::ports_text(ports) + x) == Some((ports, x)),
    decreases ports.len(),
{
    let s = runner::ports_text(ports) + x;
    if ports.len() == 0 {
        assert(s =~= x);
        assert(ports =~= Seq::empty());
    } else {
        lemma_port(ports[0], x);
        assert(s[0] == '{') by {
            if ports.len() >= 2 {
                lemma_ports_first(ports);
                assert(runner::ports_text(ports)[0] == runner::port_text(ports[0])[0]);
            }
        }
        if ports.len() == 1 {
            assert(ports =~= seq![ports[0]]);
        } else {
            let more = runner::ports_text(ports.drop_first());
            lemma_ports_first(ports);
            lemma_joined(runner::port_text(ports[0]), ","@ + more, x);
            lemma_joined(","@, more, x);
            let y = ","@ + (more + x);
            lemma_port(ports[0], y);
            lemma_behind(","@, more + x);
            reveal_strlit(",");
            assert(y[0] == ',');
            lemma_ports(ports.drop_first(), x);
            assert(seq![ports[0]] + ports.drop_first() =~= ports);
        }
    }
}

fn read_ports(s: &Vec<char>, at: usize) -> (r: Option<(Vec<PortLine>, usize)>)
    requires
        at <= s@.len(),
    ensures
        match r {
            Some((v, p)) => at <= p <= s@.len() && ports_at(s@.skip(at as int)) == Some(
                (fill::line_views(v@), s@.skip(p as int)),
            ),
            None => ports_at(s@.skip(at as int)) is None,
        },
{
    let n: usize = s.len();
    let ghost start = s@.skip(at as int);
    let mut out: Vec<PortLine> = Vec::new();
    let mut i: usize = at;
    assert(fill::line_views(out@) =~= Seq::empty());
    assert(forall|t: Seq<PortLineView>| fill::line_views(out@) + t =~= t);
    loop
        invariant
            at <= i <= n == s@.len(),
            ports_at(start) == (match ports_at(s@.skip(i as int)) {
                Some((t, x)) => Some((fill::line_views(out@) + t, x)),
                None => None,
            }),
            start == s@.skip(at as int),
        decreases n - i,
    {
        let ghost rest = s@.skip(i as int);
        let ghost held = fill::line_views(out@);
        if i < n && s[i] == ']' {
            assert(rest[0] == ']');
            assert(held + Seq::<PortLineView>::empty() =~= held);
            return Some((out, i));
        }
        assert(i < n ==> rest[0] == s@[i as int]);
        let (line, p) = match read_port(s, i) {
            Some(v) => v,
            None => return None,
        };
        let ghost v = line@;
        out.push(line);
        assert(fill::line_views(out@) =~= held + seq![v]);
        if p < n && s[p] == ',' {
            assert(s@.skip(p as int)[0] == ',');
            assert(s@.skip(p as int).skip(1) =~= s@.skip(p + 1));
            assert forall|t: Seq<PortLineView>| #[trigger]
                (held + (seq![v] + t)) == fill::line_views(out@) + t by {
                assert(held + (seq![v] + t) =~= fill::line_views(out@) + t);
            }
            i = p + 1;
        } else {
            assert(p < n ==> s@.skip(p as int)[0] == s@[p as int]);
            return Some((out, p));
        }
    }
}

// ---------------------------------------------------------------------------
// Records
// ---------------------------------------------------------------------------

/// What a text says that is written like a record.
spec fn snapshot_at(s: Seq<char>) -> Option<SnapshotView> {
    match behind(s, "{\"customer\":"@) {
        None => None,
        Some(a) => match string_at(a) {
            None => None,
            Some((key, b)) => match behind(b, ",\"customer_id\":"@) {
                None => None,
                Some(c) => match number_at(c) {
                    None => None,
                    Some((customer_id, d)) => match behind(d, ",\"month\":"@) {
                        None => None,
                        Some(e) => match number_at(e) {
                            None => None,
                            Some((month, f)) => match behind(f, ",\"ports\":["@) {
                                None => None,
                                Some(g) => match ports_at(g) {
                                    None => None,
                                    Some((ports, h)) => match behind(h, "],\"total_cents\":"@) {
                                        None => None,
                                        Some(i) => match number_at(i) {
                                            None => None,
                                            Some((total_cents, j)) => match behind(
                                                j,
                                                ",\"year\":"@,
                                            ) {
                                                None => None,
                                                Some(k) => match number_at(k) {
                                                    None => None,
                                                    Some((year, x)) => Some(
                                                        SnapshotView {
                                                            customer_id,
                                                            key,
                                                            ports,
                                                            total_cents,
                                                            year,
                                                            month,
                                                        },
                                                    ),
                                                },
                                            },
                                        },
                                    },
                                },
                            },
                        },
                    },
                },
            },
        },
    }
}

proof fn lemma_snapshot(v: SnapshotView)
    ensures
        snapshot_at(v.written()) == Some(v),
{
    let w1 = "{\"customer\":"@;
    let w2 = ",\"customer_id\":"@;
    let w3 = ",\"month\":"@;
    let w4 = ",\"ports\":["@;
    let w5 = "],\"total_cents\":"@;
    let w6 = ",\"year\":"@;
    let t1 = runner::quoted(v.key);
    let t2 = text::dec_int(v.customer_id as int);
    let t3 = text::dec_int(v.month as int);
    let t4 = runner::ports_text(v.ports);
    let t5 = text::dec_int(v.total_cents as int);
    let t6 = text::dec_int(v.year as int);
    let end = "}"@;
    let y6 = t6 + end;
    let x6 = w6 + y6;
    let y5 = t5 + x6;
    let x5 = w5 + y5;
    let y4 = t4 + x5;
    let x4 = w4 + y4;
    let y3 = t3 + x4;
    let x3 = w3 + y3;
    let y2 = t2 + x3;
    let x2 = w2 + y2;
    let y1 = t1 + x2;
    let a1 = w1 + t1;
    let a2 = a1 + w2 + t2;
    let a3 = a2 + w3 + t3;
    let a4 = a3 + w4 + t4;
    let a5 = a4 + w5 + t5;
    lemma_joined(a5 + w6, t6, end);
    lemma_joined(a5, w6, y6);
    lemma_joined(a4 + w5, t5, x6);
    lemma_joined(a4, w5, y5);
    lemma_joined(a3 + w4, t4, x5);
    lemma_joined(a3, w4, y4);
    lemma_joined(a2 + w3, t3, x4);
    lemma_joined(a2, w3, y3);
    lemma_joined(a1 + w2, t2, x3);
    lemma_joined(a1, w2, y2);
    lemma_joined(w1, t1, x2);
    assert(v.written() == w1 + y1);
    reveal_strlit("}");
    reveal_strlit(",\"customer_id\":");
    reveal_strlit(",\"month\":");
    reveal_strlit(",\"ports\":[");
    reveal_strlit("],\"total_cents\":");
    reveal_strlit(",\"year\":");
    assert(x3[0] == ',' && x4[0] == ',' && x5[0] == ']' && x6[0] == ',' && end[0] == '}');
    lemma_behind(w1, y1);
    lemma_string(v.key, x2);
    lemma_behind(w2, y2);
    lemma_number(v.customer_id, x3);
    lemma_behind(w3, y3);
    lemma_number(v.month, x4);
    lemma_behind(w4, y4);
    lemma_ports(v.ports, x5);
    lemma_behind(w5, y5);
    lemma_number(v.total_cents, x6);
    lemma_behind(w6, y6);
    lemma_number(v.year, end);
}

fn read_parts(s: &Vec<char>) -> (r: Option<Snapshot>)
    ensures
        match r {
            Some(v) => snapshot_at(s@) == Some(v@),
            None => snapshot_at(s@) is None,
        },
{
    assert(s@.skip(0) =~= s@);
    let a: usize = match pass(s, 0, "{\"customer\":") {
        Some(p) => p,
        None => return None,
    };
    let (key, b) = match read_string(s, a) {
        Some(v) => v,
        None => return None,
    };
    let c: usize = match pass(s, b, ",\"customer_id\":") {
        Some(p) => p,
        None => return None,
    };
    let (customer_id, d) = match read_number(s, c) {
        Some(v) => v,
        None => return None,
    };
    let e: usize = match pass(s, d, ",\"month\":") {
        Some(p) => p,
        None => return None,
    };
    let (month, f) = match read_number(s, e) {
        Some(v) => v,
        None => return None,
    };
    let g: usize = match pass(s, f, ",\"ports\":[") {
        Some(p) => p,
        None => return None,
    };
    let (ports, h) = match read_ports(s, g) {
        Some(v) => v,
        None => return None,
    };
    let i: usize = match pass(s, h, "],\"total_cents\":") {
        Some(p) => p,
        None => return None,
    };
    let (total_cents, j) = match read_number(s, i) {
        Some(v) => v,
        None => return None,
    };
    let k: usize = match pass(s, j, ",\"year\":") {
        Some(p) => p,
        None => return None,
    };
    match read_number(s, k) {
        Some((year, p)) => Some(Snapshot { customer_id, key, ports, total_cents, year, month }),
        None => None,
    }
}

/// What a record says; nothing where the text is not a record.
pub fn read_snapshot(json: &str) -> (r: Option<Snapshot>)
    ensures
        r matches Some(v) ==> json@ == v@.written(),
        r is None ==> forall|v: SnapshotView| json@ != #[trigger] v.written(),
{
    proof {
        assert forall|v: SnapshotView| json@ == #[trigger] v.written() implies snapshot_at(json@)
            == Some(v) by {
            lemma_snapshot(v);
        }
    }
    match read_parts(&text::chars_of(json)) {
        Some(v) => {
            let again = runner::snapshot(
                v.customer_id,
                &v.key,
                &v.ports,
                v.total_cents,
                v.year,
                v.month,
            );
            if text::same(&again, json) {
                Some(v)
            } else {
                None
            }
        },
        None => None,
    }
}

// ---------------------------------------------------------------------------
// Laws
// ---------------------------------------------------------------------------

/// Different texts are written as different JSON strings, so that a record tells which it was.
pub proof fn law_quoted_apart(a: Seq<char>, b: Seq<char>)
    requires
        runner::quoted(a) == runner::quoted(b),
    ensures
        a == b,
{
    lemma_string(a, Seq::empty());
    lemma_string(b, Seq::empty());
}

/// A record tells all that it was made from: no two write the same text.
pub proof fn law_snapshot_reads_back(a: SnapshotView, b: SnapshotView)
    requires
        a.written() == b.written(),
    ensures
        a == b,
{
    lemma_snapshot(a);
    lemma_snapshot(b);
}

} // verus!
