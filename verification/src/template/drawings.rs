//! The drawings of a package: which sheet they belong to and which cells they cover.
use crate::archive;
use crate::error::{Error, ErrorView, Result};
use crate::template::anchors;
use crate::template::anchors::Anchor;
use crate::template::inspect;
use crate::template::inspect::DrawingEntry;
use crate::text;
use vstd::prelude::*;
use vstd::utf8::{decode_utf8, valid_utf8};

verus! {

// ---------------------------------------------------------------------------
// Relationships of a sheet
// ---------------------------------------------------------------------------

/// The text between a prefix and a suffix that do not overlap.
pub open spec fn between(s: Seq<char>, p: Seq<char>, q: Seq<char>) -> Option<Seq<char>> {
    if text::has_prefix(s, p) && text::has_suffix(s.skip(p.len() as int), q) {
        Some(s.subrange(p.len() as int, s.len() - q.len()))
    } else {
        None
    }
}

/// The number of the sheet that a path such as `xl/worksheets/_rels/sheet3.xml.rels` belongs to.
pub open spec fn sheet_index(path: Seq<char>) -> Option<nat> {
    match between(text::after_last(path, '/'), "sheet"@, ".xml.rels"@) {
        Some(n) => text::unsigned_up_to(n, usize::MAX as int),
        None => None,
    }
}

/// The number of the sheet that a relationships file belongs to.
pub fn extract_sheet_index(rels_path: &str) -> (r: Option<usize>)
    ensures
        r is Some <==> sheet_index(rels_path@) is Some,
        r matches Some(n) ==> sheet_index(rels_path@) == Some(n as nat),
{
    let name = text::tail_after(&text::chars_of(rels_path), '/');
    let p = text::chars_of("sheet");
    let q = text::chars_of(".xml.rels");
    if !text::starts_with(&name, &p) {
        return None;
    }
    let rest = text::cut(&name, p.len(), name.len());
    assert(rest@ =~= name@.skip(p@.len() as int));
    if !text::ends_with(&rest, &q) {
        return None;
    }
    let digits = text::cut(&rest, 0, rest.len() - q.len());
    assert(digits@ =~= name@.subrange(p@.len() as int, name@.len() - q@.len()));
    match text::parse_unsigned(&digits, usize::MAX as u64) {
        Some(n) => Some(n as usize),
        None => None,
    }
}

/// Whether `c` is white space in XML.
pub open spec fn is_space(c: char) -> bool {
    c == ' ' || c == '\t' || c == '\r' || c == '\n'
}

/// Where the element ends that holds position `i` outside of its values: at the first `>` that does
/// not stand between quotation marks, else with the text.
pub open spec fn element_end(s: Seq<char>, i: int) -> int
    decreases s.len() - i,
{
    if i < 0 || i >= s.len() {
        s.len() as int
    } else if s[i] == '>' {
        i
    } else if s[i] == '"' || s[i] == '\'' {
        let q = text::next_char(s, s[i], i + 1);
        if i < q < s.len() {
            element_end(s, q + 1)
        } else {
            s.len() as int
        }
    } else {
        element_end(s, i + 1)
    }
}

/// Where the next `w` from `i` on ends, at its last character; with the text where there is none.
pub open spec fn mark_end(s: Seq<char>, w: Seq<char>, i: int) -> int {
    match text::find_from(s, w, i) {
        Some(k) => k + w.len() - 1,
        None => s.len() as int,
    }
}

/// Where the markup ends that begins at `i`, behind its `<`: comments, character data and
/// instructions have marks of their own, everything else ends like an element.
pub open spec fn markup_end(s: Seq<char>, i: int) -> int {
    if text::occurs_at(s, "!--"@, i) {
        mark_end(s, "-->"@, i + 3)
    } else if text::occurs_at(s, "![CDATA["@, i) {
        mark_end(s, "]]>"@, i + 8)
    } else if text::occurs_at(s, "?"@, i) {
        mark_end(s, "?>"@, i + 1)
    } else {
        element_end(s, i)
    }
}

/// What stands between each `<` from `at` on and the end of the markup that it begins, in order.
pub open spec fn tags_from(xml: Seq<char>, at: int) -> Seq<Seq<char>>
    decreases xml.len() - at,
{
    let i = text::next_char(xml, '<', at);
    let j = markup_end(xml, i + 1);
    if at < 0 || !(at <= i < xml.len()) {
        Seq::empty()
    } else if i < j < xml.len() {
        seq![xml.subrange(i + 1, j)] + tags_from(xml, j + 1)
    } else {
        seq![xml.skip(i + 1)]
    }
}

/// What stands between each `<` and the end of the markup that it begins, in order.
pub open spec fn tags(xml: Seq<char>) -> Seq<Seq<char>> {
    tags_from(xml, 0)
}

/// The value of an attribute, in what stands behind the name of an element: names and values by
/// turns, an equals sign between them and either kind of quotation mark around the values.
pub open spec fn attribute(s: Seq<char>, name: Seq<char>) -> Option<Seq<char>>
    decreases s.len(),
{
    let e = text::next_char(s, '=', 0);
    if 0 <= e < s.len() {
        let key = text::trimmed(s.take(e));
        let v = text::trim_start(s.skip(e + 1));
        if v.len() > 0 && (v[0] == '"' || v[0] == '\'') {
            let q = text::next_char(v, v[0], 1);
            if 0 <= q < v.len() {
                if key == name {
                    Some(v.subrange(1, q))
                } else {
                    proof {
                        text::lemma_trim_start(s.skip(e + 1));
                    }
                    attribute(v.skip(q + 1), name)
                }
            } else {
                None
            }
        } else {
            None
        }
    } else {
        None
    }
}

/// The target of a relationship whose type is that of a drawing.
pub open spec fn tag_target(tag: Seq<char>) -> Option<Seq<char>> {
    let n = "Relationship"@.len() as int;
    if text::has_prefix(tag, "Relationship"@) && n < tag.len() && is_space(tag[n]) {
        match attribute(tag.skip(n), "Type"@) {
            Some(t) => if text::has(t, "/drawing"@) {
                attribute(tag.skip(n), "Target"@)
            } else {
                None
            },
            None => None,
        }
    } else {
        None
    }
}

/// The first target that one of the tags gives.
pub open spec fn first_target(tags: Seq<Seq<char>>) -> Option<Seq<char>>
    decreases tags.len(),
{
    if tags.len() == 0 {
        None
    } else {
        match tag_target(tags[0]) {
            Some(t) => Some(t),
            None => first_target(tags.drop_first()),
        }
    }
}

/// The target of the first relationship in a file whose type contains `/drawing`.
pub open spec fn drawing_target(xml: Seq<char>) -> Option<Seq<char>> {
    first_target(tags(xml))
}

fn attribute_of(s: &Vec<char>, name: &str) -> (r: Option<String>)
    ensures
        text::optional(r) == attribute(s@, name@),
{
    let n: usize = s.len();
    let mut at: usize = 0;
    assert(s@.skip(0) =~= s@);
    loop
        invariant
            at <= n == s@.len(),
            attribute(s@, name@) == attribute(s@.skip(at as int), name@),
        decreases n - at,
    {
        let ghost rest = s@.skip(at as int);
        let e = text::seek(s, '=', at);
        proof {
            text::lemma_next_char_shift(s@, '=', at as int, at as int);
        }
        if e == n {
            return None;
        }
        let key = text::trim(&text::cut(s, at, e));
        assert(s@.subrange(at as int, e as int) =~= rest.take(e - at));
        let b = text::skip_white(s, e + 1);
        assert(rest.skip(e - at + 1) =~= s@.skip(e + 1));
        let ghost v = s@.skip(b as int);
        if b == n || (s[b] != '"' && s[b] != '\'') {
            return None;
        }
        let q = text::seek(s, s[b], b + 1);
        proof {
            text::lemma_next_char_shift(s@, s@[b as int], b as int, b + 1);
        }
        if q == n {
            return None;
        }
        if text::same(&text::string_of(&key), name) {
            let value = text::cut(s, b + 1, q);
            assert(value@ =~= v.subrange(1, q - b));
            return Some(text::string_of(&value));
        }
        assert(v.skip(q - b + 1) =~= s@.skip(q + 1));
        at = q + 1;
    }
}

fn space(c: char) -> (r: bool)
    ensures
        r == is_space(c),
{
    c == ' ' || c == '\t' || c == '\r' || c == '\n'
}

fn target_in(tag: &Vec<char>) -> (r: Option<String>)
    ensures
        text::optional(r) == tag_target(tag@),
{
    let name = text::chars_of("Relationship");
    let n: usize = name.len();
    if !text::starts_with(tag, &name) || n >= tag.len() || !space(tag[n]) {
        return None;
    }
    let rest = text::cut(tag, n, tag.len());
    assert(rest@ =~= tag@.skip(n as int));
    match attribute_of(&rest, "Type") {
        Some(t) => if text::find(&text::chars_of(&t), &text::chars_of("/drawing"), 0).is_some() {
            attribute_of(&rest, "Target")
        } else {
            None
        },
        None => None,
    }
}

fn end_of_element(s: &Vec<char>, from: usize) -> (r: usize)
    requires
        from <= s@.len(),
    ensures
        r == element_end(s@, from as int),
        from <= r <= s@.len(),
{
    let n: usize = s.len();
    let mut i: usize = from;
    while i < n && s[i] != '>'
        invariant
            from <= i <= n == s@.len(),
            element_end(s@, from as int) == element_end(s@, i as int),
        decreases n - i,
    {
        if s[i] == '"' || s[i] == '\'' {
            let q = text::seek(s, s[i], i + 1);
            if q == n {
                return n;
            }
            i = q + 1;
        } else {
            i = i + 1;
        }
    }
    i
}

fn end_of_mark(s: &Vec<char>, w: &str, from: usize) -> (r: usize)
    requires
        from <= s@.len(),
        w@.len() > 0,
    ensures
        r == mark_end(s@, w@, from as int),
        from <= r <= s@.len(),
{
    let n: usize = s.len();
    let v = text::chars_of(w);
    match text::find(s, &v, from) {
        Some(k) => k + (v.len() - 1),
        None => n,
    }
}

fn end_of_markup(s: &Vec<char>, from: usize) -> (r: usize)
    requires
        from <= s@.len(),
    ensures
        r == markup_end(s@, from as int),
        from <= r <= s@.len(),
{
    proof {
        reveal_strlit("!--");
        reveal_strlit("-->");
        reveal_strlit("![CDATA[");
        reveal_strlit("]]>");
        reveal_strlit("?");
        reveal_strlit("?>");
        assert(s.len() == s@.len());
    }
    if text::stands_at(s, &text::chars_of("!--"), from) {
        end_of_mark(s, "-->", from + 3)
    } else if text::stands_at(s, &text::chars_of("![CDATA["), from) {
        end_of_mark(s, "]]>", from + 8)
    } else if text::stands_at(s, &text::chars_of("?"), from) {
        end_of_mark(s, "?>", from + 1)
    } else {
        end_of_element(s, from)
    }
}

/// The target of the first relationship in a file whose type contains `/drawing`.
pub fn extract_drawing_target(rels_xml: &str) -> (r: Option<String>)
    ensures
        text::optional(r) == drawing_target(rels_xml@),
{
    let s = text::chars_of(rels_xml);
    let n: usize = s.len();
    let mut at: usize = 0;
    loop
        invariant
            at <= n == s@.len(),
            s@ == rels_xml@,
            first_target(tags(s@)) == first_target(tags_from(s@, at as int)),
        decreases n - at,
    {
        let i = text::seek(&s, '<', at);
        if i == n {
            return None;
        }
        let j = end_of_markup(&s, i + 1);
        let tag = text::cut(&s, i + 1, j);
        proof {
            if j == n {
                assert(tag@ =~= s@.skip(i + 1));
                let all = tags_from(s@, at as int);
                reveal_with_fuel(first_target, 2);
                assert(all.drop_first() =~= Seq::empty());
                assert(first_target(all) == tag_target(tag@));
            } else {
                assert(tags_from(s@, at as int).drop_first() =~= tags_from(s@, j + 1));
            }
        }
        match target_in(&tag) {
            Some(t) => return Some(t),
            None => {},
        }
        if j == n {
            return None;
        }
        at = j + 1;
    }
}

// ---------------------------------------------------------------------------
// Bytes as text
// ---------------------------------------------------------------------------

/// What `String::from_utf8_lossy` makes of `data`.
pub uninterp spec fn lossy(data: Seq<u8>) -> Seq<char>;

/// `String::from_utf8_lossy` of the standard library: `data` as UTF-8, with the replacement
/// character for whatever is not. Which of the other bytes share one replacement character is
/// left to the name.
#[verifier::external_body]
fn lossy_text(data: &Vec<u8>) -> (r: String)
    ensures
        r@ == lossy(data@),
        valid_utf8(data@) ==> r@ == decode_utf8(data@),
{
    String::from_utf8_lossy(data).into_owned()
}

// ---------------------------------------------------------------------------
// Anchors by drawing
// ---------------------------------------------------------------------------

/// The anchors of a drawing, or the first thing in it that is not XML.
pub type AnchorOutcome = core::result::Result<Seq<Anchor>, ErrorView>;

/// What the anchors of a document are, over the events that a parser meets in it.
pub open spec fn document_anchors(xml: Seq<char>) -> AnchorOutcome {
    if exists|n: nat| anchors::ends_at(xml, n) {
        Ok(anchors::anchors_in(anchors::event_run(xml, choose|n: nat| anchors::ends_at(xml, n))))
    } else {
        Err(
            ErrorView::Template(
                "drawing xml: "@ + anchors::xml_event(
                    xml,
                    choose|n: nat| anchors::breaks_at(xml, n),
                )->Err_0,
            ),
        )
    }
}

fn anchors_of_document(xml: &str) -> (r: Result<Vec<Anchor>>)
    ensures
        r matches Ok(v) ==> document_anchors(xml@) == AnchorOutcome::Ok(v@),
        r matches Err(e) ==> document_anchors(xml@) == AnchorOutcome::Err(e@),
{
    let r = anchors::parse_drawing_anchors(xml);
    proof {
        if r is Ok {
            let n = choose|n: nat| #[trigger]
                anchors::ends_at(xml@, n) && r->Ok_0@ == anchors::anchors_in(
                    anchors::event_run(xml@, n),
                );
            let m = choose|n: nat| anchors::ends_at(xml@, n);
            anchors::lemma_one_end(xml@, n, m);
        } else {
            let n = choose|n: nat| #[trigger]
                anchors::breaks_at(xml@, n) && r->Err_0@ == ErrorView::Template(
                    "drawing xml: "@ + anchors::xml_event(xml@, n)->Err_0,
                );
            let m = choose|n: nat| anchors::breaks_at(xml@, n);
            anchors::lemma_one_break(xml@, n, m);
        }
    }
    r
}

/// A drawing: its file name and its anchors.
pub struct Drawing {
    pub file: String,
    pub anchors: Vec<Anchor>,
}

/// The mathematical value of a `Drawing`.
pub type DrawingView = (Seq<char>, Seq<Anchor>);

impl View for Drawing {
    type V = DrawingView;

    open spec fn view(&self) -> DrawingView {
        (self.file@, self.anchors@)
    }
}

/// The mathematical values of drawings.
pub open spec fn drawings_view(v: Seq<Drawing>) -> Seq<DrawingView> {
    v.map_values(|d: Drawing| d@)
}

/// The anchors of the last drawing with this file name.
pub open spec fn anchors_for(list: Seq<DrawingView>, file: Seq<char>) -> Option<Seq<Anchor>>
    decreases list.len(),
{
    if list.len() == 0 {
        None
    } else if list.last().0 == file {
        Some(list.last().1)
    } else {
        anchors_for(list.drop_last(), file)
    }
}

/// Whether `n` names a drawing.
pub open spec fn is_drawing(n: Seq<char>) -> bool {
    text::has_prefix(n, "xl/drawings/drawing"@) && text::has_suffix(n, ".xml"@)
}

/// Whether `n` names the relationships of a sheet.
pub open spec fn is_sheet_rels(n: Seq<char>) -> bool {
    text::has_prefix(n, "xl/worksheets/_rels/sheet"@) && text::has_suffix(n, ".xml.rels"@)
}

/// The XML documents of drawings, each with its file name.
pub type DocumentOutcome = core::result::Result<Seq<(Seq<char>, Seq<char>)>, ErrorView>;

/// The drawings among the first `n` names of `data`, as file name and XML.
pub open spec fn documents_among(data: Seq<u8>, n: int) -> DocumentOutcome
    decreases n,
{
    if n <= 0 {
        Ok(Seq::empty())
    } else {
        let name = archive::names_in(data)[n - 1];
        match documents_among(data, n - 1) {
            Err(e) => Err(e),
            Ok(before) => if !is_drawing(name) {
                Ok(before)
            } else {
                match archive::named_result(data, name) {
                    Err(e) => Err(e),
                    Ok(v) => Ok(before.push((text::after_last(name, '/'), lossy(v)))),
                }
            },
        }
    }
}

/// The drawings, or the first thing that went wrong.
pub type DrawingListOutcome = core::result::Result<Seq<DrawingView>, ErrorView>;

/// The anchors of the first `n` documents.
pub open spec fn parsed(docs: Seq<(Seq<char>, Seq<char>)>, n: int) -> DrawingListOutcome
    decreases n,
{
    if n <= 0 {
        Ok(Seq::empty())
    } else {
        match parsed(docs, n - 1) {
            Err(e) => Err(e),
            Ok(before) => match document_anchors(docs[n - 1].1) {
                Err(e) => Err(e),
                Ok(a) => Ok(before.push((docs[n - 1].0, a))),
            },
        }
    }
}

/// Which sheet shows which drawing, or the first thing that went wrong.
pub type LinkOutcome = core::result::Result<Seq<(nat, Seq<char>)>, ErrorView>;

/// The links among the first `n` names of `data`: number of the sheet, file name of the drawing.
pub open spec fn links_among(data: Seq<u8>, n: int) -> LinkOutcome
    decreases n,
{
    if n <= 0 {
        Ok(Seq::empty())
    } else {
        let name = archive::names_in(data)[n - 1];
        match links_among(data, n - 1) {
            Err(e) => Err(e),
            Ok(before) => if !is_sheet_rels(name) {
                Ok(before)
            } else {
                match archive::named_result(data, name) {
                    Err(e) => Err(e),
                    Ok(v) => match drawing_target(lossy(v)) {
                        None => Ok(before),
                        Some(t) => Ok(
                            before.push(
                                (
                                    match sheet_index(name) {
                                        Some(k) => k,
                                        None => 0,
                                    },
                                    text::after_last(t, '/'),
                                ),
                            ),
                        ),
                    },
                }
            },
        }
    }
}

// ---------------------------------------------------------------------------
// Entries
// ---------------------------------------------------------------------------

/// The mathematical value of a drawing's record.
pub struct EntryView {
    pub sheet: Seq<char>,
    pub from_cell: Option<Seq<char>>,
    pub to_cell: Option<Seq<char>>,
}

impl View for DrawingEntry {
    type V = EntryView;

    open spec fn view(&self) -> EntryView {
        EntryView {
            sheet: self.sheet@,
            from_cell: text::optional(self.from_cell),
            to_cell: text::optional(self.to_cell),
        }
    }
}

/// The mathematical values of records.
pub open spec fn drawing_views(v: Seq<DrawingEntry>) -> Seq<EntryView> {
    v.map_values(|d: DrawingEntry| d@)
}

/// The address of a corner, where there is one.
pub open spec fn corner_address(c: Option<(u32, u32)>) -> Option<Seq<char>> {
    match c {
        Some((col, row)) => Some(inspect::address(col, row)),
        None => None,
    }
}

/// What is recorded of the anchors of one sheet.
pub open spec fn anchor_entries(sheet: Seq<char>, list: Seq<Anchor>) -> Seq<EntryView> {
    list.map_values(
        |a: Anchor|
            EntryView {
                sheet,
                from_cell: corner_address(a.from),
                to_cell: corner_address(a.to),
            },
    )
}

/// The name of sheet number `k`, counted from one; a number of zero means the first. Empty where
/// there is no such sheet.
pub open spec fn sheet_called(sheets: Seq<Seq<char>>, k: nat) -> Seq<char> {
    let i = if k == 0 {
        0int
    } else {
        k - 1
    };
    if i < sheets.len() {
        sheets[i]
    } else {
        Seq::empty()
    }
}

/// The records that the first `n` links give.
pub open spec fn linked(
    links: Seq<(nat, Seq<char>)>,
    drawings: Seq<DrawingView>,
    sheets: Seq<Seq<char>>,
    n: int,
) -> Seq<EntryView>
    decreases n,
{
    if n <= 0 {
        Seq::empty()
    } else {
        linked(links, drawings, sheets, n - 1) + match anchors_for(drawings, links[n - 1].1) {
            Some(list) => anchor_entries(sheet_called(sheets, links[n - 1].0), list),
            None => Seq::empty(),
        }
    }
}

/// The records of drawings, or the first thing that went wrong.
pub type DrawingOutcome = core::result::Result<Seq<EntryView>, ErrorView>;

/// The drawings of the package `data` whose sheets have these names. All drawings are read, then
/// parsed, then the relationships of the sheets are read.
pub open spec fn drawing_outcome(data: Seq<u8>, sheets: Seq<Seq<char>>) -> DrawingOutcome {
    match archive::zip_listing(data) {
        Err(m) => Err(ErrorView::Template(m)),
        Ok(names) => match archive::first_fault(data, 0) {
            Some(m) => Err(ErrorView::Template("list zip: "@ + m)),
            None => match documents_among(data, names.len() as int) {
                Err(e) => Err(e),
                Ok(docs) => match parsed(docs, docs.len() as int) {
                    Err(e) => Err(e),
                    Ok(drawings) => match links_among(data, names.len() as int) {
                        Err(e) => Err(e),
                        Ok(links) => Ok(linked(links, drawings, sheets, links.len() as int)),
                    },
                },
            },
        },
    }
}

/// The mathematical value of collected drawings.
pub open spec fn outcome_view(r: Result<Vec<DrawingEntry>>) -> DrawingOutcome {
    match r {
        Ok(v) => Ok(drawing_views(v@)),
        Err(e) => Err(e@),
    }
}

proof fn lemma_documents_error(data: Seq<u8>, k: int, n: int)
    requires
        0 <= k <= n,
        documents_among(data, k) is Err,
    ensures
        documents_among(data, n) == documents_among(data, k),
    decreases n - k,
{
    if k < n {
        lemma_documents_error(data, k, n - 1);
    }
}

proof fn lemma_parsed_error(docs: Seq<(Seq<char>, Seq<char>)>, k: int, n: int)
    requires
        0 <= k <= n,
        parsed(docs, k) is Err,
    ensures
        parsed(docs, n) == parsed(docs, k),
    decreases n - k,
{
    if k < n {
        lemma_parsed_error(docs, k, n - 1);
    }
}

proof fn lemma_links_error(data: Seq<u8>, k: int, n: int)
    requires
        0 <= k <= n,
        links_among(data, k) is Err,
    ensures
        links_among(data, n) == links_among(data, k),
    decreases n - k,
{
    if k < n {
        lemma_links_error(data, k, n - 1);
    }
}

/// The mathematical values of documents.
pub open spec fn document_views(v: Seq<(String, String)>) -> Seq<(Seq<char>, Seq<char>)> {
    v.map_values(|d: (String, String)| (d.0@, d.1@))
}

fn read_documents(zip: &mut archive::Package, names: &Vec<String>) -> (r: Result<
    Vec<(String, String)>,
>)
    requires
        archive::strings(names@) == archive::names_in(archive::archive_bytes(*old(zip))),
    ensures
        archive::archive_bytes(*final(zip)) == archive::archive_bytes(*old(zip)),
        r matches Ok(v) ==> documents_among(
            archive::archive_bytes(*old(zip)),
            names@.len() as int,
        ) == DocumentOutcome::Ok(document_views(v@)),
        r matches Err(e) ==> documents_among(
            archive::archive_bytes(*old(zip)),
            names@.len() as int,
        ) == DocumentOutcome::Err(e@),
{
    let ghost data = archive::archive_bytes(*zip);
    let p = text::chars_of("xl/drawings/drawing");
    let q = text::chars_of(".xml");
    let mut out: Vec<(String, String)> = Vec::new();
    let mut i: usize = 0;
    assert(document_views(out@) =~= Seq::<(Seq<char>, Seq<char>)>::empty());
    while i < names.len()
        invariant
            i <= names@.len(),
            archive::archive_bytes(*zip) == data,
            archive::archive_bytes(*old(zip)) == data,
            archive::strings(names@) == archive::names_in(data),
            p@ == "xl/drawings/drawing"@,
            q@ == ".xml"@,
            documents_among(data, i as int) == DocumentOutcome::Ok(document_views(out@)),
        decreases names@.len() - i,
    {
        assert(archive::names_in(data)[i as int] == archive::strings(names@)[i as int]);
        let name = text::chars_of(&names[i]);
        if text::starts_with(&name, &p) && text::ends_with(&name, &q) {
            match archive::read_zip_entry(zip, names, &names[i]) {
                Ok(v) => {
                    let file = text::string_of(&text::tail_after(&name, '/'));
                    let xml = lossy_text(&v);
                    let ghost held = out@;
                    out.push((file, xml));
                    assert(document_views(out@) =~= document_views(held).push((file@, xml@)));
                },
                Err(e) => {
                    proof {
                        lemma_documents_error(data, i + 1, names@.len() as int);
                    }
                    return Err(e);
                },
            }
        }
        i = i + 1;
    }
    Ok(out)
}

fn parse_documents(docs: &Vec<(String, String)>) -> (r: Result<Vec<Drawing>>)
    ensures
        r matches Ok(v) ==> parsed(document_views(docs@), docs@.len() as int)
            == DrawingListOutcome::Ok(drawings_view(v@)),
        r matches Err(e) ==> parsed(document_views(docs@), docs@.len() as int)
            == DrawingListOutcome::Err(e@),
{
    let ghost views = document_views(docs@);
    let mut out: Vec<Drawing> = Vec::new();
    let mut i: usize = 0;
    assert(drawings_view(out@) =~= Seq::<DrawingView>::empty());
    while i < docs.len()
        invariant
            i <= docs@.len(),
            views == document_views(docs@),
            parsed(views, i as int) == DrawingListOutcome::Ok(drawings_view(out@)),
        decreases docs@.len() - i,
    {
        assert(views[i as int] == (docs@[i as int].0@, docs@[i as int].1@));
        match anchors_of_document(&docs[i].1) {
            Ok(list) => {
                let d = Drawing { file: docs[i].0.clone(), anchors: list };
                let ghost held = out@;
                out.push(d);
                assert(drawings_view(out@) =~= drawings_view(held).push(d@));
            },
            Err(e) => {
                proof {
                    lemma_parsed_error(views, i + 1, docs@.len() as int);
                }
                return Err(e);
            },
        }
        i = i + 1;
    }
    Ok(out)
}

/// The mathematical values of links.
pub open spec fn link_views(v: Seq<(usize, String)>) -> Seq<(nat, Seq<char>)> {
    v.map_values(|l: (usize, String)| (l.0 as nat, l.1@))
}

fn read_links(zip: &mut archive::Package, names: &Vec<String>) -> (r: Result<Vec<(usize, String)>>)
    requires
        archive::strings(names@) == archive::names_in(archive::archive_bytes(*old(zip))),
    ensures
        archive::archive_bytes(*final(zip)) == archive::archive_bytes(*old(zip)),
        r matches Ok(v) ==> links_among(archive::archive_bytes(*old(zip)), names@.len() as int)
            == LinkOutcome::Ok(link_views(v@)),
        r matches Err(e) ==> links_among(archive::archive_bytes(*old(zip)), names@.len() as int)
            == LinkOutcome::Err(e@),
{
    let ghost data = archive::archive_bytes(*zip);
    let p = text::chars_of("xl/worksheets/_rels/sheet");
    let q = text::chars_of(".xml.rels");
    let mut out: Vec<(usize, String)> = Vec::new();
    let mut i: usize = 0;
    assert(link_views(out@) =~= Seq::<(nat, Seq<char>)>::empty());
    while i < names.len()
        invariant
            i <= names@.len(),
            archive::archive_bytes(*zip) == data,
            archive::archive_bytes(*old(zip)) == data,
            archive::strings(names@) == archive::names_in(data),
            p@ == "xl/worksheets/_rels/sheet"@,
            q@ == ".xml.rels"@,
            links_among(data, i as int) == LinkOutcome::Ok(link_views(out@)),
        decreases names@.len() - i,
    {
        assert(archive::names_in(data)[i as int] == archive::strings(names@)[i as int]);
        let name = text::chars_of(&names[i]);
        if text::starts_with(&name, &p) && text::ends_with(&name, &q) {
            match archive::read_zip_entry(zip, names, &names[i]) {
                Ok(v) => {
                    let index: usize = match extract_sheet_index(&names[i]) {
                        Some(k) => k,
                        None => 0,
                    };
                    match extract_drawing_target(&lossy_text(&v)) {
                        Some(t) => {
                            let file = text::string_of(
                                &text::tail_after(&text::chars_of(&t), '/'),
                            );
                            let ghost held = out@;
                            out.push((index, file));
                            assert(link_views(out@) =~= link_views(held).push(
                                (index as nat, file@),
                            ));
                        },
                        None => {},
                    }
                },
                Err(e) => {
                    proof {
                        lemma_links_error(data, i + 1, names@.len() as int);
                    }
                    return Err(e);
                },
            }
        }
        i = i + 1;
    }
    Ok(out)
}

fn find_anchors(list: &Vec<Drawing>, file: &str) -> (r: Option<usize>)
    ensures
        r is Some <==> anchors_for(drawings_view(list@), file@) is Some,
        r matches Some(k) ==> k < list@.len() && anchors_for(drawings_view(list@), file@) == Some(
            list@[k as int].anchors@,
        ),
{
    let ghost views = drawings_view(list@);
    let mut i: usize = list.len();
    assert(views.take(i as int) =~= views);
    while i > 0
        invariant
            i <= list@.len(),
            views == drawings_view(list@),
            anchors_for(views, file@) == anchors_for(views.take(i as int), file@),
        decreases i,
    {
        assert(views.take(i as int).last() == list@[i - 1]@);
        if text::same(&list[i - 1].file, file) {
            return Some(i - 1);
        }
        assert(views.take(i as int).drop_last() =~= views.take(i - 1));
        i = i - 1;
    }
    None
}

fn corner_text(c: Option<(u32, u32)>) -> (r: Option<String>)
    ensures
        text::optional(r) == corner_address(c),
{
    match c {
        Some((col, row)) => Some(inspect::address_of(col, row)),
        None => None,
    }
}

fn push_anchors(sheet: &String, list: &Vec<Anchor>, out: &mut Vec<DrawingEntry>)
    ensures
        drawing_views(final(out)@) == drawing_views(old(out)@) + anchor_entries(sheet@, list@),
{
    let ghost before = drawing_views(out@);
    let mut i: usize = 0;
    assert(before + anchor_entries(sheet@, list@).take(0) =~= before);
    while i < list.len()
        invariant
            i <= list@.len(),
            drawing_views(out@) == before + anchor_entries(sheet@, list@).take(i as int),
        decreases list@.len() - i,
    {
        let a = list[i];
        let entry = DrawingEntry {
            sheet: sheet.clone(),
            from_cell: corner_text(a.from),
            to_cell: corner_text(a.to),
        };
        let ghost held = out@;
        out.push(entry);
        assert(drawing_views(out@) =~= drawing_views(held).push(entry@));
        assert(anchor_entries(sheet@, list@).take(i + 1) =~= anchor_entries(sheet@, list@).take(
            i as int,
        ).push(entry@));
        assert(before + anchor_entries(sheet@, list@).take(i + 1) =~= drawing_views(out@));
        i = i + 1;
    }
    assert(anchor_entries(sheet@, list@).take(i as int) =~= anchor_entries(sheet@, list@));
}

fn name_of_sheet(sheets: &Vec<String>, k: usize) -> (r: String)
    ensures
        r@ == sheet_called(archive::strings(sheets@), k as nat),
{
    let i: usize = if k == 0 {
        0
    } else {
        k - 1
    };
    if i < sheets.len() {
        sheets[i].clone()
    } else {
        let empty = String::new();
        assert(empty@ =~= Seq::<char>::empty());
        empty
    }
}

/// The drawings of the package in `bytes`, sheet by sheet as the package lists their
/// relationships. `sheets` names the sheets in the order of the workbook.
pub fn collect_drawings(bytes: &Vec<u8>, sheets: &Vec<String>) -> (r: Result<Vec<DrawingEntry>>)
    ensures
        outcome_view(r) == drawing_outcome(bytes@, archive::strings(sheets@)),
{
    let mut zip = match archive::open(bytes) {
        Ok(a) => a,
        Err(m) => return Err(Error::Template(m)),
    };
    let names = match archive::names(&mut zip) {
        Ok(v) => v,
        Err(m) => return Err(Error::Template(text::cat2("list zip: ", &m))),
    };
    let docs = match read_documents(&mut zip, &names) {
        Ok(v) => v,
        Err(e) => return Err(e),
    };
    let drawings = match parse_documents(&docs) {
        Ok(v) => v,
        Err(e) => return Err(e),
    };
    let links = match read_links(&mut zip, &names) {
        Ok(v) => v,
        Err(e) => return Err(e),
    };
    let ghost lv = link_views(links@);
    let ghost dv = drawings_view(drawings@);
    let ghost sv = archive::strings(sheets@);
    let mut out: Vec<DrawingEntry> = Vec::new();
    let mut i: usize = 0;
    assert(drawing_views(out@) =~= Seq::<EntryView>::empty());
    while i < links.len()
        invariant
            i <= links@.len(),
            lv == link_views(links@),
            dv == drawings_view(drawings@),
            sv == archive::strings(sheets@),
            drawing_views(out@) == linked(lv, dv, sv, i as int),
        decreases links@.len() - i,
    {
        assert(lv[i as int] == (links@[i as int].0 as nat, links@[i as int].1@));
        let sheet = name_of_sheet(sheets, links[i].0);
        match find_anchors(&drawings, &links[i].1) {
            Some(k) => push_anchors(&sheet, &drawings[k].anchors, &mut out),
            None => {
                assert(linked(lv, dv, sv, i as int) + Seq::<EntryView>::empty() =~= linked(
                    lv,
                    dv,
                    sv,
                    i as int,
                ));
            },
        }
        i = i + 1;
    }
    Ok(out)
}

// ---------------------------------------------------------------------------
// Laws
// ---------------------------------------------------------------------------

/// What stands between a prefix and a suffix is what is left when both are taken away.
pub proof fn law_between(s: Seq<char>, p: Seq<char>, x: Seq<char>, q: Seq<char>)
    ensures
        between(p + x + q, p, q) == Some(x),
        between(s, p, q) matches Some(y) ==> s == p + y + q,
{
    let t = p + x + q;
    assert(t.take(p.len() as int) =~= p);
    assert(t.skip(p.len() as int) =~= x + q);
    assert((x + q).skip(x.len() as int) =~= q);
    assert(t.subrange(p.len() as int, t.len() - q.len()) =~= x);
    if let Some(y) = between(s, p, q) {
        let rest = s.skip(p.len() as int);
        assert(s =~= s.take(p.len() as int) + rest);
        assert(rest =~= y + rest.skip(rest.len() - q.len()));
        assert(s =~= p + y + q);
    }
}

/// The number of a sheet is the number in the name of its file, in whatever directory that is.
pub proof fn law_sheet_index(dir: Seq<char>, n: nat, path: Seq<char>)
    requires
        n <= usize::MAX,
    ensures
        sheet_index(dir + seq!['/'] + ("sheet"@ + text::dec(n) + ".xml.rels"@)) == Some(n),
        sheet_index(path) matches Some(k) ==> exists|t: Seq<char>|
            text::after_last(path, '/') == #[trigger] ("sheet"@ + t + ".xml.rels"@)
                && text::unsigned(t) == Some(k),
{
    reveal_strlit("sheet");
    reveal_strlit(".xml.rels");
    let name = "sheet"@ + text::dec(n) + ".xml.rels"@;
    text::law_decimal(n);
    assert forall|i: int| 0 <= i < name.len() implies name[i] != '/' by {
        let d = text::dec(n);
        if i < 5 {
            assert(name[i] == "sheet"@[i]);
        } else if i < 5 + d.len() {
            assert(name[i] == d[i - 5]);
        } else {
            assert(name[i] == ".xml.rels"@[i - 5 - d.len()]);
        }
    }
    text::law_after_last(dir, '/', name);
    law_between(name, "sheet"@, text::dec(n), ".xml.rels"@);
    let file = text::after_last(path, '/');
    law_between(file, "sheet"@, Seq::empty(), ".xml.rels"@);
    if let Some(k) = sheet_index(path) {
        let t = between(file, "sheet"@, ".xml.rels"@)->0;
        assert(file == "sheet"@ + t + ".xml.rels"@);
        assert(text::unsigned(t) == Some(k));
    }
}

/// An element ends with the first `>` that stands outside of its values, whichever quotation mark
/// they have.
pub proof fn law_element_end(s: Seq<char>, i: int, q: int)
    requires
        0 <= i < s.len(),
    ensures
        s[i] == '>' ==> element_end(s, i) == i,
        s[i] != '>' && s[i] != '"' && s[i] != '\'' ==> element_end(s, i) == element_end(s, i + 1),
        (s[i] == '"' || s[i] == '\'') && i < q < s.len() && s[q] == s[i] && (forall|k: int|
            i < k < q ==> s[k] != s[i]) ==> element_end(s, i) == element_end(s, q + 1),
        (s[i] == '"' || s[i] == '\'') && (forall|k: int| i < k < s.len() ==> s[k] != s[i])
            ==> element_end(s, i) == s.len(),
        element_end(s, s.len() as int) == s.len(),
{
    text::law_next_char(s, s[i], i + 1);
}

/// Markup that begins with `<` goes to its own end, and the next begins behind that; text between
/// does not count.
pub proof fn law_tags(xml: Seq<char>, i: int)
    requires
        0 <= i < xml.len(),
    ensures
        xml[i] != '<' ==> tags_from(xml, i) == tags_from(xml, i + 1),
        xml[i] == '<' && i < markup_end(xml, i + 1) < xml.len() ==> tags_from(xml, i) == seq![
            xml.subrange(i + 1, markup_end(xml, i + 1)),
        ] + tags_from(xml, markup_end(xml, i + 1) + 1),
        (forall|k: int| i <= k < xml.len() ==> xml[k] != '<') ==> tags_from(xml, i).len() == 0,
        tags(xml) == tags_from(xml, 0),
        tags_from(xml, xml.len() as int).len() == 0,
{
    text::law_next_char(xml, '<', i);
    text::law_next_char(xml, '<', i + 1);
    assert(xml[i] != '<' ==> text::next_char(xml, '<', i) == text::next_char(xml, '<', i + 1));
}

/// Comments, character data and instructions go to their own marks, whatever stands in them;
/// everything else ends like an element.
pub proof fn law_markup_end(s: Seq<char>, i: int, k: int)
    requires
        0 <= i <= k,
    ensures
        text::occurs_at(s, "!--"@, i) && k >= i + 3 && text::find_from(s, "-->"@, i + 3) == Some(k)
            ==> markup_end(s, i) == k + 2,
        text::occurs_at(s, "![CDATA["@, i) && k >= i + 8 && text::find_from(s, "]]>"@, i + 8)
            == Some(k) ==> markup_end(s, i) == k + 2,
        text::occurs_at(s, "?"@, i) && k >= i + 1 && text::find_from(s, "?>"@, i + 1) == Some(k)
            ==> markup_end(s, i) == k + 1,
        i < s.len() && s[i] != '!' && s[i] != '?' ==> markup_end(s, i) == element_end(s, i),
{
    reveal_strlit("!--");
    reveal_strlit("![CDATA[");
    reveal_strlit("?");
    reveal_strlit("-->");
    reveal_strlit("]]>");
    reveal_strlit("?>");
    if text::occurs_at(s, "!--"@, i) {
        assert(s.subrange(i, i + 3)[0] == '!');
        assert(s.subrange(i, i + 3)[1] == '-');
        assert(s[i] == '!' && s[i + 1] == '-');
    }
    if text::occurs_at(s, "![CDATA["@, i) {
        assert(s.subrange(i, i + 8)[0] == '!');
        assert(s.subrange(i, i + 8)[1] == '[');
        assert(s[i] == '!' && s[i + 1] == '[');
    }
    if text::occurs_at(s, "?"@, i) {
        assert(s.subrange(i, i + 1)[0] == '?');
        assert(s[i] == '?');
    }
}

/// An attribute has the value that stands behind its name, in either kind of quotation mark and with
/// white space around the equals sign or not; one with another name is passed over.
pub proof fn law_attribute(
    a: Seq<char>,
    b: Seq<char>,
    q: char,
    v: Seq<char>,
    rest: Seq<char>,
    name: Seq<char>,
)
    requires
        forall|i: int| 0 <= i < a.len() ==> a[i] != '=',
        forall|i: int| 0 <= i < b.len() ==> text::is_white(#[trigger] b[i]),
        q == '"' || q == '\'',
        forall|i: int| 0 <= i < v.len() ==> v[i] != q,
    ensures
        ({
            let s = a + seq!['='] + b + (seq![q] + v + seq![q] + rest);
            attribute(s, name) == if text::trimmed(a) == name {
                Some(v)
            } else {
                attribute(rest, name)
            }
        }),
        attribute(a, name) is None,
{
    let w = seq![q] + v + seq![q] + rest;
    let s = a + seq!['='] + b + w;
    let e = a.len() as int;
    text::law_next_char(s, '=', 0);
    assert(s[e] == '=');
    let f = text::next_char(s, '=', 0);
    if f < e {
        assert(s[f] == a[f]);
    }
    assert(f == e);
    assert(s.take(e) =~= a);
    assert(s.skip(e + 1) =~= b + w);
    assert(w[0] == q);
    text::law_white_space(q);
    text::law_trim_start(b, w);
    text::law_next_char(w, q, 1);
    let g = text::next_char(w, q, 1);
    assert(w[v.len() as int + 1] == q);
    if g < v.len() + 1 {
        assert(w[g] == v[g - 1]);
    }
    assert(g == v.len() + 1);
    assert(w.subrange(1, g) =~= v);
    assert(w.skip(g + 1) =~= rest);
    text::law_next_char(a, '=', 0);
}

/// The target counts of a relationship whose type names a drawing, and of nothing else.
pub proof fn law_tag_target(c: char, rest: Seq<char>, tag: Seq<char>)
    ensures
        ({
            let s = seq![c] + rest;
            let t = "Relationship"@ + s;
            &&& !is_space(c) ==> tag_target(t) is None
            &&& is_space(c) ==> match attribute(s, "Type"@) {
                Some(kind) => if text::find_from(kind, "/drawing"@, 0) is Some {
                    tag_target(t) == attribute(s, "Target"@)
                } else {
                    tag_target(t) is None
                },
                None => tag_target(t) is None,
            }
        }),
        !text::has_prefix(tag, "Relationship"@) ==> tag_target(tag) is None,
        is_space(c) <==> c == ' ' || c == '\t' || c == '\r' || c == '\n',
{
    reveal_strlit("Relationship");
    let s = seq![c] + rest;
    let t = "Relationship"@ + s;
    let n = "Relationship"@.len() as int;
    assert(t.take(n) =~= "Relationship"@);
    assert(t.skip(n) =~= s);
    assert(t[n] == c);
}

/// The first tag with a target decides.
pub proof fn law_first_target(before: Seq<Seq<char>>, tag: Seq<char>, behind: Seq<Seq<char>>)
    requires
        forall|i: int| 0 <= i < before.len() ==> tag_target(#[trigger] before[i]) is None,
    ensures
        first_target(before) is None,
        tag_target(tag) is Some ==> first_target(before + seq![tag] + behind) == tag_target(tag),
    decreases before.len(),
{
    let all = before + seq![tag] + behind;
    if before.len() == 0 {
        assert(all[0] == tag);
    } else {
        assert(all[0] == before[0]);
        let rest = before.drop_first();
        assert forall|i: int| 0 <= i < rest.len() implies tag_target(#[trigger] rest[i]) is None by {
            assert(rest[i] == before[i + 1]);
        }
        law_first_target(rest, tag, behind);
        assert(all.drop_first() =~= rest + seq![tag] + behind);
    }
}

/// Which entries are drawings, and which are the relationships of a sheet.
pub proof fn law_which_entries(x: Seq<char>, n: Seq<char>)
    ensures
        is_drawing("xl/drawings/drawing"@ + x + ".xml"@),
        is_drawing(n) <==> text::has_prefix(n, "xl/drawings/drawing"@) && text::has_suffix(
            n,
            ".xml"@,
        ),
        is_sheet_rels("xl/worksheets/_rels/sheet"@ + x + ".xml.rels"@),
        is_sheet_rels(n) <==> text::has_prefix(n, "xl/worksheets/_rels/sheet"@) && text::has_suffix(
            n,
            ".xml.rels"@,
        ),
{
    text::law_found_where_it_stands(
        "xl/drawings/drawing"@ + x,
        ".xml"@,
        Seq::empty(),
    );
    text::law_found_where_it_stands(Seq::empty(), "xl/drawings/drawing"@, x + ".xml"@);
    assert("xl/drawings/drawing"@ + (x + ".xml"@) =~= "xl/drawings/drawing"@ + x + ".xml"@);
    text::law_found_where_it_stands(
        "xl/worksheets/_rels/sheet"@ + x,
        ".xml.rels"@,
        Seq::empty(),
    );
    text::law_found_where_it_stands(Seq::empty(), "xl/worksheets/_rels/sheet"@, x + ".xml.rels"@);
    assert("xl/worksheets/_rels/sheet"@ + (x + ".xml.rels"@) =~= "xl/worksheets/_rels/sheet"@ + x
        + ".xml.rels"@);
}

/// Every drawing is read, under the name of its file, and nothing else is.
pub proof fn law_every_drawing_read(data: Seq<u8>, n: int, i: int)
    requires
        0 <= i < n,
        documents_among(data, n) is Ok,
    ensures
        ({
            let docs = documents_among(data, n)->Ok_0;
            let name = archive::names_in(data)[i];
            &&& is_drawing(name) ==> archive::named_result(data, name) is Ok && docs.contains(
                (text::after_last(name, '/'), lossy(archive::named_result(data, name)->Ok_0)),
            )
            &&& forall|k: int|
                0 <= k < docs.len() ==> exists|j: int|
                    0 <= j < n && is_drawing(#[trigger] archive::names_in(data)[j])
                        && (#[trigger] docs[k]).0 == text::after_last(
                        archive::names_in(data)[j],
                        '/',
                    )
            &&& docs.len() <= n
        }),
    decreases n,
{
    let docs = documents_among(data, n)->Ok_0;
    let before = documents_among(data, n - 1)->Ok_0;
    let last = archive::names_in(data)[n - 1];
    let name = archive::names_in(data)[i];
    if n > 1 {
        law_every_drawing_read(data, n - 1, if i < n - 1 { i } else { 0 });
    }
    assert forall|k: int| 0 <= k < docs.len() implies exists|j: int|
        0 <= j < n && is_drawing(#[trigger] archive::names_in(data)[j]) && (#[trigger] docs[k]).0
            == text::after_last(archive::names_in(data)[j], '/') by {
        if k < before.len() {
            assert(docs[k] == before[k]);
            let j = choose|j: int|
                0 <= j < n - 1 && is_drawing(#[trigger] archive::names_in(data)[j]) && before[k].0
                    == text::after_last(archive::names_in(data)[j], '/');
            assert(is_drawing(archive::names_in(data)[j]));
        } else {
            assert(is_drawing(archive::names_in(data)[n - 1]));
        }
    }
    if is_drawing(name) {
        let doc = (
            text::after_last(name, '/'),
            lossy(archive::named_result(data, name)->Ok_0),
        );
        if i == n - 1 {
            assert(docs[before.len() as int] == doc);
        } else {
            let k = choose|k: int| 0 <= k < before.len() && before[k] == doc;
            assert(docs[k] == doc);
        }
    }
}

/// Every sheet whose relationships name a drawing is linked to it, by its number and by the name of
/// the file.
pub proof fn law_every_sheet_linked(data: Seq<u8>, n: int, i: int)
    requires
        0 <= i < n,
        links_among(data, n) is Ok,
    ensures
        ({
            let links = links_among(data, n)->Ok_0;
            let name = archive::names_in(data)[i];
            &&& is_sheet_rels(name) ==> archive::named_result(data, name) is Ok
            &&& is_sheet_rels(name) && drawing_target(
                lossy(archive::named_result(data, name)->Ok_0),
            ) is Some ==> links.contains(
                (
                    match sheet_index(name) {
                        Some(k) => k,
                        None => 0nat,
                    },
                    text::after_last(
                        drawing_target(lossy(archive::named_result(data, name)->Ok_0))->0,
                        '/',
                    ),
                ),
            )
            &&& links.len() <= n
        }),
    decreases n,
{
    let links = links_among(data, n)->Ok_0;
    let before = links_among(data, n - 1)->Ok_0;
    let name = archive::names_in(data)[i];
    if n > 1 {
        law_every_sheet_linked(data, n - 1, if i < n - 1 { i } else { 0 });
    }
    let target = drawing_target(lossy(archive::named_result(data, name)->Ok_0));
    if is_sheet_rels(name) && target is Some {
        let link = (
            match sheet_index(name) {
                Some(k) => k,
                None => 0nat,
            },
            text::after_last(target->0, '/'),
        );
        if i == n - 1 {
            assert(links[before.len() as int] == link);
        } else {
            let k = choose|k: int| 0 <= k < before.len() && before[k] == link;
            assert(links[k] == link);
        }
    }
}

/// Each document gives a drawing with its name and its anchors, in order.
pub proof fn law_each_document_parsed(docs: Seq<(Seq<char>, Seq<char>)>, n: int, i: int)
    requires
        0 <= i < n,
        parsed(docs, n) is Ok,
    ensures
        parsed(docs, n)->Ok_0.len() == n,
        parsed(docs, n)->Ok_0[i].0 == docs[i].0,
        document_anchors(docs[i].1) == AnchorOutcome::Ok(parsed(docs, n)->Ok_0[i].1),
    decreases n,
{
    reveal_with_fuel(parsed, 2);
    if n > 1 {
        law_each_document_parsed(docs, n - 1, if i < n - 1 { i } else { 0 });
    }
}

/// The anchors of a document that ends are those of its events; one that breaks has none.
pub proof fn law_document_anchors(xml: Seq<char>, n: nat)
    ensures
        anchors::ends_at(xml, n) ==> document_anchors(xml) == AnchorOutcome::Ok(
            anchors::anchors_in(anchors::event_run(xml, n)),
        ),
        anchors::breaks_at(xml, n) ==> document_anchors(xml) == AnchorOutcome::Err(
            ErrorView::Template("drawing xml: "@ + anchors::xml_event(xml, n)->Err_0),
        ),
{
    if anchors::ends_at(xml, n) {
        let m = choose|m: nat| anchors::ends_at(xml, m);
        anchors::lemma_one_end(xml, n, m);
    }
    if anchors::breaks_at(xml, n) {
        if exists|m: nat| anchors::ends_at(xml, m) {
            let m = choose|m: nat| anchors::ends_at(xml, m);
            anchors::lemma_one_end(xml, m, n);
        }
        let m = choose|m: nat| anchors::breaks_at(xml, m);
        anchors::lemma_one_break(xml, n, m);
    }
}

/// The last drawing of a name counts.
pub proof fn law_anchors_for(list: Seq<DrawingView>, d: DrawingView, file: Seq<char>)
    ensures
        anchors_for(list.push(d), d.0) == Some(d.1),
        file != d.0 ==> anchors_for(list.push(d), file) == anchors_for(list, file),
        anchors_for(Seq::empty(), file) is None,
{
    assert(list.push(d).drop_last() =~= list);
}

/// Sheets are counted from one; a number that was not given means the first.
pub proof fn law_sheet_called(sheets: Seq<Seq<char>>, k: nat)
    ensures
        0 < k <= sheets.len() ==> sheet_called(sheets, k) == sheets[k - 1],
        sheets.len() > 0 ==> sheet_called(sheets, 0) == sheets[0],
        k > sheets.len() ==> sheet_called(sheets, k).len() == 0,
{
}

/// Every anchor of a drawing is recorded once, for the sheet that shows it, with the addresses of the
/// corners that it has.
pub proof fn law_anchor_entries(sheet: Seq<char>, list: Seq<Anchor>, i: int)
    requires
        0 <= i < list.len(),
    ensures
        ({
            let e = anchor_entries(sheet, list);
            &&& e.len() == list.len()
            &&& e[i].sheet == sheet
            &&& list[i].from matches Some(c) ==> e[i].from_cell == Some(
                inspect::address(c.0, c.1),
            )
            &&& list[i].from is None ==> e[i].from_cell is None
            &&& list[i].to matches Some(c) ==> e[i].to_cell == Some(inspect::address(c.0, c.1))
            &&& list[i].to is None ==> e[i].to_cell is None
        }),
{
}

/// A link records all anchors of its drawing behind those of the links before it, and one to a
/// drawing that is not there records nothing.
pub proof fn law_linked(
    links: Seq<(nat, Seq<char>)>,
    drawings: Seq<DrawingView>,
    sheets: Seq<Seq<char>>,
    n: int,
)
    requires
        0 <= n < links.len(),
    ensures
        linked(links, drawings, sheets, 0).len() == 0,
        anchors_for(drawings, links[n].1) is None ==> linked(links, drawings, sheets, n + 1)
            == linked(links, drawings, sheets, n),
        anchors_for(drawings, links[n].1) matches Some(list) ==> linked(
            links,
            drawings,
            sheets,
            n + 1,
        ) == linked(links, drawings, sheets, n) + anchor_entries(
            sheet_called(sheets, links[n].0),
            list,
        ),
{
    let before = linked(links, drawings, sheets, n);
    assert(before + Seq::<EntryView>::empty() =~= before);
}

/// What is no archive, or one with an entry that cannot be opened, has no drawings to show: the
/// error says why. Else reading, parsing and linking decide, in this order.
pub proof fn law_drawing_outcome(data: Seq<u8>, sheets: Seq<Seq<char>>)
    ensures
        archive::zip_listing(data) matches Err(m) ==> drawing_outcome(data, sheets)
            == DrawingOutcome::Err(ErrorView::Template(m)),
        archive::zip_listing(data) is Ok && archive::first_fault(data, 0) is Some
            ==> drawing_outcome(data, sheets) == DrawingOutcome::Err(
            ErrorView::Template("list zip: "@ + archive::first_fault(data, 0)->0),
        ),
        archive::zip_listing(data) is Ok && archive::first_fault(data, 0) is None ==> {
            let n = archive::names_in(data).len() as int;
            let docs = documents_among(data, n);
            let list = parsed(docs->Ok_0, docs->Ok_0.len() as int);
            let links = links_among(data, n);
            &&& docs is Err ==> drawing_outcome(data, sheets) == DrawingOutcome::Err(docs->Err_0)
            &&& docs is Ok && list is Err ==> drawing_outcome(data, sheets) == DrawingOutcome::Err(
                list->Err_0,
            )
            &&& docs is Ok && list is Ok && links is Err ==> drawing_outcome(data, sheets)
                == DrawingOutcome::Err(links->Err_0)
            &&& docs is Ok && list is Ok && links is Ok ==> drawing_outcome(data, sheets)
                == DrawingOutcome::Ok(
                linked(links->Ok_0, list->Ok_0, sheets, links->Ok_0.len() as int),
            )
        },
{
}

/// Records, documents and links keep their order and all that they hold.
pub proof fn law_records_as_given(
    d: Seq<DrawingEntry>,
    docs: Seq<(String, String)>,
    links: Seq<(usize, String)>,
    i: int,
)
    requires
        0 <= i,
    ensures
        drawing_views(d).len() == d.len() && document_views(docs).len() == docs.len() && link_views(
            links,
        ).len() == links.len(),
        i < d.len() ==> drawing_views(d)[i].sheet == d[i].sheet@ && drawing_views(d)[i].from_cell
            == text::optional(d[i].from_cell) && drawing_views(d)[i].to_cell == text::optional(
            d[i].to_cell,
        ),
        i < docs.len() ==> document_views(docs)[i] == (docs[i].0@, docs[i].1@),
        i < links.len() ==> link_views(links)[i] == (links[i].0 as nat, links[i].1@),
{
}

} // verus!
