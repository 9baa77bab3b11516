//! Where the pictures of a drawing stand: the cell anchors in its XML.
use crate::error::{Error, ErrorView, Result};
use crate::text;
use quick_xml::events::Event;
use quick_xml::reader::Reader;
use vstd::prelude::*;

verus! {

/// A pull parser over XML in memory.
#[verifier::external_type_specification]
#[verifier::external_body]
#[verifier::reject_recursive_types(R)]
pub struct ExReader<R>(quick_xml::reader::Reader<R>);

/// What a pull parser meets in a document, as far as an anchor is concerned.
#[derive(Debug, Clone)]
pub enum XmlEvent {
    /// An opening tag, with its name as written.
    Start(String),
    /// A closing tag, with its name as written.
    End(String),
    /// Text between tags, with its entities as written.
    Text(String),
    /// The end of the document.
    Eof,
    /// Anything else: a comment, a declaration, an empty element.
    Other,
}

/// The mathematical value of an `XmlEvent`.
pub enum XmlEventView {
    Start(Seq<char>),
    End(Seq<char>),
    Text(Seq<char>),
    Eof,
    Other,
}

impl View for XmlEvent {
    type V = XmlEventView;

    open spec fn view(&self) -> XmlEventView {
        match self {
            XmlEvent::Start(n) => XmlEventView::Start(n@),
            XmlEvent::End(n) => XmlEventView::End(n@),
            XmlEvent::Text(t) => XmlEventView::Text(t@),
            XmlEvent::Eof => XmlEventView::Eof,
            XmlEvent::Other => XmlEventView::Other,
        }
    }
}

/// The document that a parser was made from.
pub uninterp spec fn reader_document(r: quick_xml::reader::Reader<&[u8]>) -> Seq<char>;

/// How many events a parser has handed out.
pub uninterp spec fn reader_taken(r: quick_xml::reader::Reader<&[u8]>) -> nat;

/// How many bytes of the document a parser has not looked at yet.
pub uninterp spec fn reader_left(r: quick_xml::reader::Reader<&[u8]>) -> nat;

/// An event, or the error in words.
pub type XmlOutcome = core::result::Result<XmlEventView, Seq<char>>;

/// What `Reader::read_event_into` gives when it is called for the `n`-th time, counted from
/// zero, on a parser made from `document`.
pub uninterp spec fn xml_event(document: Seq<char>, n: nat) -> XmlOutcome;

/// The mathematical value of an outcome.
pub open spec fn outcome(r: core::result::Result<XmlEvent, String>) -> XmlOutcome {
    match r {
        Ok(e) => Ok(e@),
        Err(m) => Err(m@),
    }
}

/// `quick_xml::reader::Reader::from_str`: a parser at the start of `xml`.
#[verifier::external_body]
fn xml_reader(xml: &str) -> (r: quick_xml::reader::Reader<&[u8]>)
    ensures
        reader_document(r) == xml@,
        reader_taken(r) == 0,
{
    Reader::from_str(xml)
}

/// `quick_xml::reader::Reader::read_event_into`: the next event. An event that is not the end
/// of the document has used up at least one byte of it.
#[verifier::external_body]
fn next_event(reader: &mut quick_xml::reader::Reader<&[u8]>) -> (r: core::result::Result<
    XmlEvent,
    String,
>)
    ensures
        reader_document(*final(reader)) == reader_document(*old(reader)),
        reader_taken(*final(reader)) == reader_taken(*old(reader)) + 1,
        outcome(r) == xml_event(reader_document(*old(reader)), reader_taken(*old(reader))),
        r matches Ok(e) ==> e is Eof || reader_left(*final(reader)) < reader_left(*old(reader)),
{
    match reader.read_event_into(&mut Vec::new()) {
        Ok(Event::Start(e)) => Ok(
            XmlEvent::Start(String::from_utf8_lossy(e.name().as_ref()).into_owned()),
        ),
        Ok(Event::End(e)) => Ok(
            XmlEvent::End(String::from_utf8_lossy(e.name().as_ref()).into_owned()),
        ),
        Ok(Event::Text(e)) => Ok(XmlEvent::Text(String::from_utf8_lossy(&e).into_owned())),
        Ok(Event::Eof) => Ok(XmlEvent::Eof),
        Ok(_) => Ok(XmlEvent::Other),
        Err(e) => Err(e.to_string()),
    }
}

/// What `quick_xml::escape::unescape` makes of a text: the text with its entities replaced, or
/// nothing where one of them is unknown or unfinished.
pub uninterp spec fn entities_replaced(raw: Seq<char>) -> Option<Seq<char>>;

/// `quick_xml::escape::unescape`: `raw` with its entities replaced.
#[verifier::external_body]
fn replace_entities(raw: &str) -> (r: Option<String>)
    ensures
        text::optional(r) == entities_replaced(raw@),
{
    quick_xml::escape::unescape(raw).ok().map(|t| t.into_owned())
}

/// The text that `raw` stands for. Only an ampersand starts an entity; a text whose entities
/// cannot be replaced counts as empty.
pub open spec fn plain_text(raw: Seq<char>) -> Seq<char> {
    if text::next_char(raw, '&', 0) == raw.len() {
        raw
    } else {
        match entities_replaced(raw) {
            Some(t) => t,
            None => Seq::empty(),
        }
    }
}

fn unescaped(raw: &str) -> (r: String)
    ensures
        r@ == plain_text(raw@),
{
    let chars = text::chars_of(raw);
    if text::seek(&chars, '&', 0) == chars.len() {
        raw.to_owned()
    } else {
        match replace_entities(raw) {
            Some(t) => t,
            None => String::new(),
        }
    }
}

/// Where a picture is anchored: column and row of its corners, both counted from zero.
#[derive(Debug, Clone, Copy)]
pub struct Anchor {
    pub from: Option<(u32, u32)>,
    pub to: Option<(u32, u32)>,
}

/// How far a scan for anchors has come.
pub struct ScanView {
    /// The anchors that are complete.
    pub anchors: Seq<Anchor>,
    /// The anchor that is open.
    pub current: Option<Anchor>,
    /// Whether a corner is open.
    pub in_marker: bool,
    /// Column and row of the open corner, as far as they were given.
    pub col: Option<u32>,
    pub row: Option<u32>,
    /// The last text inside the open corner.
    pub text: Seq<char>,
}

/// A tag's name without its namespace prefix.
pub open spec fn local_name(raw: Seq<char>) -> Seq<char> {
    text::after_last(raw, ':')
}

pub open spec fn is_anchor_name(n: Seq<char>) -> bool {
    n == "twoCellAnchor"@ || n == "oneCellAnchor"@
}

pub open spec fn is_marker_name(n: Seq<char>) -> bool {
    n == "from"@ || n == "to"@
}

/// The coordinate that a text gives: a 32-bit number, white space around it aside.
pub open spec fn coordinate(t: Seq<char>) -> Option<u32> {
    match text::unsigned_up_to(text::trimmed(t), u32::MAX as int) {
        Some(n) => Some(n as u32),
        None => None,
    }
}

/// `a` with the corner that the tag `n` names, where column and row are both known.
pub open spec fn with_corner(a: Option<Anchor>, n: Seq<char>, col: Option<u32>, row: Option<u32>) -> Option<
    Anchor,
> {
    match (a, col, row) {
        (Some(a), Some(c), Some(r)) => if n == "from"@ {
            Some(Anchor { from: Some((c, r)), to: a.to })
        } else {
            Some(Anchor { from: a.from, to: Some((c, r)) })
        },
        _ => a,
    }
}

/// The scan before the first event.
pub open spec fn scan_start() -> ScanView {
    ScanView {
        anchors: Seq::empty(),
        current: None,
        in_marker: false,
        col: None,
        row: None,
        text: Seq::empty(),
    }
}

/// The scan after one more event: an anchor's tag opens and closes an anchor, a `from` or `to`
/// tag a corner of it, and the text before a closing `col` or `row` gives the coordinate.
pub open spec fn scan_step(s: ScanView, e: XmlEventView) -> ScanView {
    match e {
        XmlEventView::Start(raw) => {
            let n = local_name(raw);
            if is_anchor_name(n) {
                ScanView { current: Some(Anchor { from: None, to: None }), ..s }
            } else if is_marker_name(n) {
                ScanView { in_marker: true, col: None, row: None, ..s }
            } else {
                s
            }
        },
        XmlEventView::Text(raw) => if s.in_marker {
            ScanView { text: plain_text(raw), ..s }
        } else {
            s
        },
        XmlEventView::End(raw) => {
            let n = local_name(raw);
            if n == "col"@ {
                if s.in_marker {
                    ScanView { col: coordinate(s.text), ..s }
                } else {
                    s
                }
            } else if n == "row"@ {
                if s.in_marker {
                    ScanView { row: coordinate(s.text), ..s }
                } else {
                    s
                }
            } else if is_marker_name(n) {
                ScanView {
                    current: with_corner(s.current, n, s.col, s.row),
                    in_marker: false,
                    col: None,
                    row: None,
                    text: Seq::empty(),
                    ..s
                }
            } else if is_anchor_name(n) {
                match s.current {
                    Some(a) => ScanView { anchors: s.anchors.push(a), current: None, ..s },
                    None => s,
                }
            } else {
                s
            }
        },
        _ => s,
    }
}

/// The scan after all of `events`, from state `s`.
pub open spec fn scan_from(s: ScanView, events: Seq<XmlEventView>) -> ScanView
    decreases events.len(),
{
    if events.len() == 0 {
        s
    } else {
        scan_step(scan_from(s, events.drop_last()), events.last())
    }
}

/// The anchors that a sequence of events completes.
pub open spec fn anchors_in(events: Seq<XmlEventView>) -> Seq<Anchor> {
    scan_from(scan_start(), events).anchors
}

/// A scan for anchors.
struct Scan {
    anchors: Vec<Anchor>,
    current: Option<Anchor>,
    in_marker: bool,
    col: Option<u32>,
    row: Option<u32>,
    text: String,
}

impl View for Scan {
    type V = ScanView;

    closed spec fn view(&self) -> ScanView {
        ScanView {
            anchors: self.anchors@,
            current: self.current,
            in_marker: self.in_marker,
            col: self.col,
            row: self.row,
            text: self.text@,
        }
    }
}

fn local_of(raw: &String) -> (r: String)
    ensures
        r@ == local_name(raw@),
{
    text::string_of(&text::tail_after(&text::chars_of(raw), ':'))
}

fn coordinate_of(t: &String) -> (r: Option<u32>)
    ensures
        r == coordinate(t@),
{
    match text::parse_unsigned(&text::trim(&text::chars_of(t)), u32::MAX as u64) {
        Some(n) => Some(n as u32),
        None => None,
    }
}

impl Scan {
    fn new() -> (r: Scan)
        ensures
            r@ == scan_start(),
    {
        Scan {
            anchors: Vec::new(),
            current: None,
            in_marker: false,
            col: None,
            row: None,
            text: String::new(),
        }
    }

    fn open_tag(&mut self, raw: &String)
        ensures
            final(self)@ == scan_step(old(self)@, XmlEventView::Start(raw@)),
    {
        let n = local_of(raw);
        if text::same(&n, "twoCellAnchor") || text::same(&n, "oneCellAnchor") {
            self.current = Some(Anchor { from: None, to: None });
        } else if text::same(&n, "from") || text::same(&n, "to") {
            self.in_marker = true;
            self.col = None;
            self.row = None;
        }
    }

    fn close_tag(&mut self, raw: &String)
        ensures
            final(self)@ == scan_step(old(self)@, XmlEventView::End(raw@)),
    {
        let n = local_of(raw);
        if text::same(&n, "col") {
            if self.in_marker {
                self.col = coordinate_of(&self.text);
            }
        } else if text::same(&n, "row") {
            if self.in_marker {
                self.row = coordinate_of(&self.text);
            }
        } else if text::same(&n, "from") || text::same(&n, "to") {
            if let (Some(a), Some(c), Some(r)) = (self.current, self.col, self.row) {
                if text::same(&n, "from") {
                    self.current = Some(Anchor { from: Some((c, r)), to: a.to });
                } else {
                    self.current = Some(Anchor { from: a.from, to: Some((c, r)) });
                }
            }
            self.in_marker = false;
            self.col = None;
            self.row = None;
            self.text = String::new();
        } else if text::same(&n, "twoCellAnchor") || text::same(&n, "oneCellAnchor") {
            if let Some(a) = self.current {
                self.anchors.push(a);
                self.current = None;
            }
        }
    }

    fn step(&mut self, e: &XmlEvent)
        ensures
            final(self)@ == scan_step(old(self)@, e@),
    {
        match e {
            XmlEvent::Start(raw) => self.open_tag(raw),
            XmlEvent::End(raw) => self.close_tag(raw),
            XmlEvent::Text(raw) => {
                if self.in_marker {
                    self.text = unescaped(raw);
                }
            },
            XmlEvent::Eof => {},
            XmlEvent::Other => {},
        }
    }
}

/// The mathematical values of `events`.
pub open spec fn event_views(events: Seq<XmlEvent>) -> Seq<XmlEventView> {
    events.map_values(|e: XmlEvent| e@)
}

/// The anchors that the events of a drawing complete, in the order in which they end.
pub fn anchors_of(events: &Vec<XmlEvent>) -> (r: Vec<Anchor>)
    ensures
        r@ == anchors_in(event_views(events@)),
{
    let mut scan = Scan::new();
    let mut i: usize = 0;
    assert(event_views(events@).take(0) =~= Seq::<XmlEventView>::empty());
    while i < events.len()
        invariant
            i <= events@.len(),
            scan@ == scan_from(scan_start(), event_views(events@).take(i as int)),
        decreases events@.len() - i,
    {
        scan.step(&events[i]);
        assert(event_views(events@).take(i + 1).drop_last() =~= event_views(events@).take(
            i as int,
        ));
        i = i + 1;
    }
    assert(event_views(events@).take(i as int) =~= event_views(events@));
    scan.anchors
}

/// Whether the first `n` events of `document` come without an error, none of them its end.
pub open spec fn runs_for(document: Seq<char>, n: nat) -> bool {
    forall|k: nat|
        k < n ==> (#[trigger] xml_event(document, k) matches Ok(e) && e !is Eof)
}

/// The first `n` events of `document`.
pub open spec fn event_run(document: Seq<char>, n: nat) -> Seq<XmlEventView> {
    Seq::new(n, |k: int| xml_event(document, k as nat)->Ok_0)
}

/// Whether `document` ends with its `n`-th event, counted from zero.
pub open spec fn ends_at(document: Seq<char>, n: nat) -> bool {
    runs_for(document, n) && (xml_event(document, n) matches Ok(e) && e is Eof)
}

/// Whether reading `document` fails at its `n`-th event.
pub open spec fn breaks_at(document: Seq<char>, n: nat) -> bool {
    runs_for(document, n) && xml_event(document, n) is Err
}

/// A document that ends does not break, and has one end.
pub proof fn lemma_one_end(document: Seq<char>, n: nat, m: nat)
    requires
        ends_at(document, n),
    ensures
        !breaks_at(document, m),
        ends_at(document, m) ==> n == m,
{
    assert(xml_event(document, n) is Ok);
    assert(breaks_at(document, m) ==> xml_event(document, m) is Err);
}

/// A document breaks at one place.
pub proof fn lemma_one_break(document: Seq<char>, n: nat, m: nat)
    requires
        breaks_at(document, n),
        breaks_at(document, m),
    ensures
        n == m,
{
    assert(xml_event(document, n) is Err);
    assert(xml_event(document, m) is Err);
}

/// The anchors of a drawing. Reading stops at the end of the document, or fails at the first
/// thing in it that is not XML.
pub fn parse_drawing_anchors(xml: &str) -> (r: Result<Vec<Anchor>>)
    ensures
        r is Ok <==> exists|n: nat| ends_at(xml@, n),
        r matches Ok(v) ==> exists|n: nat| #[trigger]
            ends_at(xml@, n) && v@ == anchors_in(event_run(xml@, n)),
        r matches Err(e) ==> exists|n: nat| #[trigger]
            breaks_at(xml@, n) && e@ == ErrorView::Template(
                "drawing xml: "@ + xml_event(xml@, n)->Err_0,
            ),
{
    let mut reader = xml_reader(xml);
    let mut scan = Scan::new();
    assert(event_run(xml@, 0) =~= Seq::<XmlEventView>::empty());
    loop
        invariant
            reader_document(reader) == xml@,
            runs_for(xml@, reader_taken(reader)),
            scan@ == scan_from(scan_start(), event_run(xml@, reader_taken(reader))),
        decreases reader_left(reader),
    {
        let ghost n = reader_taken(reader);
        match next_event(&mut reader) {
            Ok(XmlEvent::Eof) => {
                assert(ends_at(xml@, n));
                return Ok(scan.anchors);
            },
            Ok(e) => {
                scan.step(&e);
                assert(event_run(xml@, n + 1).drop_last() =~= event_run(xml@, n));
            },
            Err(m) => {
                assert(breaks_at(xml@, n));
                proof {
                    assert forall|k: nat| !ends_at(xml@, k) by {
                        if ends_at(xml@, k) {
                            lemma_one_end(xml@, k, n);
                        }
                    }
                }
                return Err(Error::Template(text::cat2("drawing xml: ", &m)));
            },
        }
    }
}

// ---------------------------------------------------------------------------
// Reading back what was written
// ---------------------------------------------------------------------------

/// A tag's name with the namespace prefix that drawings use.
pub open spec fn qualified(n: Seq<char>) -> Seq<char> {
    "xdr:"@ + n
}

/// The events of one coordinate: a tag around a number.
pub open spec fn coordinate_events(n: Seq<char>, v: u32) -> Seq<XmlEventView> {
    seq![
        XmlEventView::Start(qualified(n)),
        XmlEventView::Text(text::dec(v as nat)),
        XmlEventView::End(qualified(n)),
    ]
}

/// The events of one corner, where there is one.
pub open spec fn corner_events(n: Seq<char>, corner: Option<(u32, u32)>) -> Seq<XmlEventView> {
    match corner {
        Some((c, r)) => seq![XmlEventView::Start(qualified(n))] + coordinate_events("col"@, c)
            + coordinate_events("row"@, r) + seq![XmlEventView::End(qualified(n))],
        None => Seq::empty(),
    }
}

/// The events of one anchor.
pub open spec fn anchor_events(a: Anchor) -> Seq<XmlEventView> {
    seq![XmlEventView::Start(qualified("twoCellAnchor"@))] + corner_events("from"@, a.from)
        + corner_events("to"@, a.to) + seq![XmlEventView::End(qualified("twoCellAnchor"@))]
}

/// The events of a drawing with these anchors.
pub open spec fn drawing_events(list: Seq<Anchor>) -> Seq<XmlEventView>
    decreases list.len(),
{
    if list.len() == 0 {
        Seq::empty()
    } else {
        drawing_events(list.drop_last()) + anchor_events(list.last())
    }
}

proof fn lemma_scan_append(s: ScanView, a: Seq<XmlEventView>, b: Seq<XmlEventView>)
    ensures
        scan_from(s, a + b) == scan_from(scan_from(s, a), b),
    decreases b.len(),
{
    if b.len() == 0 {
        assert(a + b =~= a);
    } else {
        lemma_scan_append(s, a, b.drop_last());
        assert((a + b).drop_last() =~= a + b.drop_last());
    }
}

proof fn lemma_scan_one(s: ScanView, e: XmlEventView)
    ensures
        scan_from(s, seq![e]) == scan_step(s, e),
{
    assert(seq![e].drop_last() =~= Seq::<XmlEventView>::empty());
    assert(scan_from(s, Seq::<XmlEventView>::empty()) == s);
}

proof fn lemma_local_name(p: Seq<char>, n: Seq<char>)
    requires
        p.len() > 0,
        p.last() == ':',
        forall|i: int| 0 <= i < n.len() ==> n[i] != ':',
    ensures
        local_name(p + n) == n,
    decreases n.len(),
{
    if n.len() == 0 {
        assert(p + n =~= p);
    } else {
        lemma_local_name(p, n.drop_last());
        assert((p + n).drop_last() =~= p + n.drop_last());
        assert(n.drop_last().push(n.last()) =~= n);
    }
}

proof fn lemma_names()
    ensures
        local_name(qualified("from"@)) == "from"@,
        local_name(qualified("to"@)) == "to"@,
        local_name(qualified("col"@)) == "col"@,
        local_name(qualified("row"@)) == "row"@,
        local_name(qualified("twoCellAnchor"@)) == "twoCellAnchor"@,
        !is_anchor_name("from"@) && !is_anchor_name("to"@),
        !is_anchor_name("col"@) && !is_anchor_name("row"@),
        !is_marker_name("col"@) && !is_marker_name("row"@),
        !is_marker_name("twoCellAnchor"@),
        "from"@ != "to"@ && "col"@ != "row"@,
        "twoCellAnchor"@ != "col"@ && "twoCellAnchor"@ != "row"@,
        "from"@ != "col"@ && "from"@ != "row"@ && "to"@ != "col"@ && "to"@ != "row"@,
{
    reveal_strlit("xdr:");
    reveal_strlit("from");
    reveal_strlit("to");
    reveal_strlit("col");
    reveal_strlit("row");
    reveal_strlit("twoCellAnchor");
    reveal_strlit("oneCellAnchor");
    lemma_local_name("xdr:"@, "from"@);
    lemma_local_name("xdr:"@, "to"@);
    lemma_local_name("xdr:"@, "col"@);
    lemma_local_name("xdr:"@, "row"@);
    lemma_local_name("xdr:"@, "twoCellAnchor"@);
    assert("from"@[0] == 'f' && "to"@[0] == 't' && "col"@[0] == 'c' && "row"@[0] == 'r');
    assert("twoCellAnchor"@.len() == 13 && "oneCellAnchor"@.len() == 13);
}

proof fn lemma_no_ampersand(s: Seq<char>, i: int)
    requires
        text::all_digits(s),
        0 <= i <= s.len(),
    ensures
        text::next_char(s, '&', i) == s.len(),
    decreases s.len() - i,
{
    if i < s.len() {
        assert('0' <= s[i] <= '9');
        lemma_no_ampersand(s, i + 1);
    }
}

proof fn lemma_number_text(v: u32)
    ensures
        plain_text(text::dec(v as nat)) == text::dec(v as nat),
        coordinate(text::dec(v as nat)) == Some(v),
{
    let t = text::dec(v as nat);
    text::lemma_dec_reads_back(v as nat);
    lemma_no_ampersand(t, 0);
    assert('0' <= t[0] <= '9');
    assert('0' <= t[t.len() - 1] <= '9');
    assert(text::trim_start(t) == t);
    assert(text::trim_end(t) == t);
}

proof fn lemma_coordinate(s: ScanView, v: u32)
    requires
        s.in_marker,
    ensures
        scan_from(s, coordinate_events("col"@, v)) == (ScanView {
            col: Some(v),
            text: text::dec(v as nat),
            ..s
        }),
        scan_from(s, coordinate_events("row"@, v)) == (ScanView {
            row: Some(v),
            text: text::dec(v as nat),
            ..s
        }),
{
    lemma_names();
    lemma_number_text(v);
    lemma_coordinate_steps(s, "col"@, v);
    lemma_coordinate_steps(s, "row"@, v);
}

proof fn lemma_coordinate_steps(s: ScanView, n: Seq<char>, v: u32)
    ensures
        scan_from(s, coordinate_events(n, v)) == scan_step(
            scan_step(
                scan_step(s, XmlEventView::Start(qualified(n))),
                XmlEventView::Text(text::dec(v as nat)),
            ),
            XmlEventView::End(qualified(n)),
        ),
{
    let e0 = XmlEventView::Start(qualified(n));
    let e1 = XmlEventView::Text(text::dec(v as nat));
    let e2 = XmlEventView::End(qualified(n));
    assert(coordinate_events(n, v) =~= seq![e0] + seq![e1] + seq![e2]);
    lemma_scan_append(s, seq![e0] + seq![e1], seq![e2]);
    lemma_scan_append(s, seq![e0], seq![e1]);
    lemma_scan_one(s, e0);
    lemma_scan_one(scan_step(s, e0), e1);
    lemma_scan_one(scan_step(scan_step(s, e0), e1), e2);
}

proof fn lemma_corner(s: ScanView, n: Seq<char>, corner: Option<(u32, u32)>)
    requires
        n == "from"@ || n == "to"@,
        s.current is Some,
        !s.in_marker,
        s.col is None,
        s.row is None,
        s.text.len() == 0,
    ensures
        scan_from(s, corner_events(n, corner)) == (ScanView {
            current: match corner {
                Some((c, r)) => with_corner(s.current, n, Some(c), Some(r)),
                None => s.current,
            },
            ..s
        }),
{
    lemma_names();
    match corner {
        Some((c, r)) => {
            let open = seq![XmlEventView::Start(qualified(n))];
            let cols = coordinate_events("col"@, c);
            let rows = coordinate_events("row"@, r);
            let close = seq![XmlEventView::End(qualified(n))];
            lemma_scan_append(s, open + cols + rows, close);
            lemma_scan_append(s, open + cols, rows);
            lemma_scan_append(s, open, cols);
            lemma_scan_one(s, XmlEventView::Start(qualified(n)));
            let s1 = scan_from(s, open);
            lemma_coordinate(s1, c);
            let s2 = scan_from(s1, cols);
            lemma_coordinate(s2, r);
            let s3 = scan_from(s2, rows);
            lemma_scan_one(s3, XmlEventView::End(qualified(n)));
            assert(s.text =~= Seq::empty());
        },
        None => {},
    }
}

proof fn lemma_anchor(s: ScanView, a: Anchor)
    requires
        s.current is None,
        !s.in_marker,
        s.col is None,
        s.row is None,
        s.text.len() == 0,
    ensures
        scan_from(s, anchor_events(a)) == (ScanView { anchors: s.anchors.push(a), ..s }),
{
    lemma_names();
    let open = seq![XmlEventView::Start(qualified("twoCellAnchor"@))];
    let first = corner_events("from"@, a.from);
    let second = corner_events("to"@, a.to);
    let close = seq![XmlEventView::End(qualified("twoCellAnchor"@))];
    lemma_scan_append(s, open + first + second, close);
    lemma_scan_append(s, open + first, second);
    lemma_scan_append(s, open, first);
    lemma_scan_one(s, XmlEventView::Start(qualified("twoCellAnchor"@)));
    let s1 = scan_from(s, open);
    lemma_corner(s1, "from"@, a.from);
    let s2 = scan_from(s1, first);
    lemma_corner(s2, "to"@, a.to);
    let s3 = scan_from(s2, second);
    lemma_scan_one(s3, XmlEventView::End(qualified("twoCellAnchor"@)));
}

proof fn lemma_drawing(list: Seq<Anchor>)
    ensures
        scan_from(scan_start(), drawing_events(list)) == (ScanView {
            anchors: list,
            ..scan_start()
        }),
    decreases list.len(),
{
    if list.len() == 0 {
        assert(list =~= Seq::empty());
    } else {
        lemma_drawing(list.drop_last());
        lemma_scan_append(scan_start(), drawing_events(list.drop_last()), anchor_events(list.last()));
        lemma_anchor(scan_from(scan_start(), drawing_events(list.drop_last())), list.last());
        assert(list.drop_last().push(list.last()) =~= list);
    }
}

/// The anchors of a drawing are found again: every one of them, with both corners, in order.
pub proof fn law_anchors_read_back(list: Seq<Anchor>)
    ensures
        anchors_in(drawing_events(list)) == list,
{
    lemma_drawing(list);
}

/// A coordinate is a number of 32 bits; white space around it does not matter, and with anything
/// else it is none.
pub proof fn law_coordinate(a: Seq<char>, n: u32, b: Seq<char>, t: Seq<char>)
    requires
        forall|i: int| 0 <= i < a.len() ==> text::is_white(#[trigger] a[i]),
        forall|i: int| 0 <= i < b.len() ==> text::is_white(#[trigger] b[i]),
    ensures
        coordinate(a + text::dec(n as nat) + b) == Some(n),
        coordinate(t) matches Some(m) ==> text::unsigned(text::trimmed(t)) == Some(m as nat),
        coordinate(t) is None ==> text::unsigned(text::trimmed(t)) is None || text::unsigned(
            text::trimmed(t),
        )->0 > u32::MAX,
{
    let d = text::dec(n as nat);
    text::law_decimal(n as nat);
    assert('0' <= d[0] <= '9');
    assert('0' <= d[d.len() - 1] <= '9');
    text::law_white_space(d[0]);
    text::law_white_space(d.last());
    text::law_trimmed(a, d, b);
}

/// A text without an ampersand stands for itself.
pub proof fn law_plain_text(raw: Seq<char>)
    ensures
        (forall|i: int| 0 <= i < raw.len() ==> raw[i] != '&') ==> plain_text(raw) == raw,
        (exists|i: int| 0 <= i < raw.len() && raw[i] == '&') ==> (match entities_replaced(raw) {
            Some(t) => plain_text(raw) == t,
            None => plain_text(raw).len() == 0,
        }),
{
    text::law_next_char(raw, '&', 0);
}

/// Which namespace prefix a tag has does not matter.
pub proof fn law_prefix_does_not_matter(s: ScanView, prefix: Seq<char>, n: Seq<char>)
    requires
        forall|i: int| 0 <= i < n.len() ==> n[i] != ':',
    ensures
        scan_step(s, XmlEventView::Start(prefix + seq![':'] + n)) == scan_step(
            s,
            XmlEventView::Start(n),
        ),
        scan_step(s, XmlEventView::End(prefix + seq![':'] + n)) == scan_step(
            s,
            XmlEventView::End(n),
        ),
{
    text::law_after_last(prefix, ':', n);
}

/// An anchor at one cell is opened and closed as one between two cells is; tags that belong to no
/// anchor change nothing, and neither does text outside of a corner.
pub proof fn law_other_events(s: ScanView, raw: Seq<char>)
    ensures
        scan_step(s, XmlEventView::Start("oneCellAnchor"@)) == scan_step(
            s,
            XmlEventView::Start("twoCellAnchor"@),
        ),
        scan_step(s, XmlEventView::End("oneCellAnchor"@)) == scan_step(
            s,
            XmlEventView::End("twoCellAnchor"@),
        ),
        ({
            let n = local_name(raw);
            let known = n == "twoCellAnchor"@ || n == "oneCellAnchor"@ || n == "from"@ || n == "to"@;
            &&& !known ==> scan_step(s, XmlEventView::Start(raw)) == s
            &&& !known && n != "col"@ && n != "row"@ ==> scan_step(s, XmlEventView::End(raw)) == s
        }),
        !s.in_marker ==> scan_step(s, XmlEventView::Text(raw)) == s,
        scan_step(s, XmlEventView::Other) == s,
        scan_step(s, XmlEventView::Eof) == s,
{
    reveal_strlit("oneCellAnchor");
    reveal_strlit("twoCellAnchor");
    reveal_strlit("col");
    reveal_strlit("row");
    reveal_strlit("from");
    reveal_strlit("to");
    text::law_after_last(Seq::empty(), ':', "oneCellAnchor"@);
    text::law_after_last(Seq::empty(), ':', "twoCellAnchor"@);
    assert("oneCellAnchor"@.len() == 13 && "twoCellAnchor"@.len() == 13);
}

/// A corner counts only with both of its coordinates, and only for the anchor that is open.
pub proof fn law_corner(a: Anchor, c: u32, r: u32, col: Option<u32>, row: Option<u32>, n: Seq<char>)
    ensures
        with_corner(Some(a), "from"@, Some(c), Some(r)) == Some(
            Anchor { from: Some((c, r)), to: a.to },
        ),
        with_corner(Some(a), "to"@, Some(c), Some(r)) == Some(
            Anchor { from: a.from, to: Some((c, r)) },
        ),
        col is None || row is None ==> with_corner(Some(a), n, col, row) == Some(a),
        with_corner(None, n, col, row) is None,
{
    reveal_strlit("from");
    reveal_strlit("to");
    assert("from"@.len() != "to"@.len());
}

/// A scan goes event by event: what came first is not looked at again.
pub proof fn law_scan(s: ScanView, a: Seq<XmlEventView>, b: Seq<XmlEventView>, e: XmlEventView)
    ensures
        scan_from(s, a + b) == scan_from(scan_from(s, a), b),
        scan_from(s, seq![e]) == scan_step(s, e),
        scan_from(s, Seq::empty()) == s,
        anchors_in(Seq::empty()).len() == 0,
{
    lemma_scan_append(s, a, b);
    lemma_scan_one(s, e);
}

/// The events of a document are those that the parser gives, up to its end.
pub proof fn law_events(document: Seq<char>, n: nat, k: int)
    requires
        ends_at(document, n),
        0 <= k < n,
    ensures
        event_run(document, n).len() == n,
        xml_event(document, k as nat) == XmlOutcome::Ok(event_run(document, n)[k]),
        event_run(document, n)[k] !is Eof,
        xml_event(document, n) matches Ok(e) && e is Eof,
{
    assert(xml_event(document, k as nat) is Ok);
}

} // verus!
