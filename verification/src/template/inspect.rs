//! What is in a template: its sheets and cells, its drawings, its pictures.
use crate::archive;
use crate::error::Result;
use crate::template::digest;
use crate::template::drawings;
use crate::template::media;
use crate::text;
use vstd::prelude::*;

verus! {

/// Everything that is known of a template.
#[derive(Debug, Clone)]
pub struct TemplateAudit {
    pub template_name: String,
    pub sha256: String,
    pub bytes: u64,
    pub sheets: Vec<String>,
    pub cell_map: Vec<CellEntry>,
    pub drawings: Vec<DrawingEntry>,
    pub media: Vec<MediaEntry>,
}

/// A cell that holds something.
#[derive(Debug, Clone)]
pub struct CellEntry {
    pub sheet: String,
    /// The address, such as `A1`.
    pub cell: String,
    pub kind: CellKind,
    /// The data type as the file gives it: `s`, `str`, `inlineStr`, `n`, `b`.
    pub data_type: String,
    pub value: Option<String>,
    pub formula: Option<String>,
}

/// What a cell holds.
#[derive(Debug, Clone, Copy, PartialEq, Eq, Structural)]
pub enum CellKind {
    Text,
    Number,
    Formula,
    Boolean,
    Empty,
    Other,
}

/// Where a drawing stands on its sheet.
#[derive(Debug, Clone)]
pub struct DrawingEntry {
    pub sheet: String,
    pub from_cell: Option<String>,
    pub to_cell: Option<String>,
}

/// A picture in the package.
#[derive(Debug, Clone)]
pub struct MediaEntry {
    pub media_path: String,
    pub sha256: String,
    pub bytes: u64,
    pub width: Option<u32>,
    pub height: Option<u32>,
}

/// A cell as a spreadsheet reader hands it out: column and row counted from one, and the texts.
#[derive(Debug, Clone)]
pub struct RawCell {
    pub col: u32,
    pub row: u32,
    pub data_type: String,
    pub value: String,
    pub formula: String,
}

/// A sheet as a spreadsheet reader hands it out.
#[derive(Debug, Clone)]
pub struct RawSheet {
    pub name: String,
    pub cells: Vec<RawCell>,
}

// ---------------------------------------------------------------------------
// Addresses
// ---------------------------------------------------------------------------

/// The letter for `n`, counted from zero within the alphabet.
pub open spec fn letter(n: int) -> char {
    ((65 + n % 26) as u8) as char
}

/// The letters of the column `n`, counted from zero: `A` to `Z`, then `AA`, `AB` and so on.
pub open spec fn letters(n: int) -> Seq<char>
    decreases n,
{
    if n < 26 {
        seq![letter(n)]
    } else {
        letters(n / 26 - 1).push(letter(n))
    }
}

fn letter_char(n: i32) -> (r: char)
    ensures
        r == letter(n as int),
{
    let wide: i64 = n as i64;
    let m: i64 = if wide < 0 {
        (wide + 2147483648 * 26) % 26
    } else {
        wide % 26
    };
    assert((wide + 2147483648 * 26) % 26 == wide % 26);
    let b: u8 = 65u8 + m as u8;
    b as char
}

/// The letters of a column that is counted from zero.
pub fn column_letter(col_0: i32) -> (r: String)
    ensures
        r@ == letters(col_0 as int),
{
    text::string_of(&column_chars(col_0))
}

fn column_chars(col_0: i32) -> (r: Vec<char>)
    ensures
        r@ == letters(col_0 as int),
    decreases col_0,
{
    if col_0 < 26 {
        let mut out: Vec<char> = Vec::new();
        out.push(letter_char(col_0));
        assert(out@ =~= letters(col_0 as int));
        out
    } else {
        let mut out = column_chars(col_0 / 26 - 1);
        out.push(letter_char(col_0));
        out
    }
}

/// A column number of 32 bits, read as a signed one.
pub open spec fn signed(c: u32) -> int {
    if c <= i32::MAX {
        c as int
    } else {
        c - 0x1_0000_0000
    }
}

fn signed_of(c: u32) -> (r: i32)
    ensures
        r == signed(c),
{
    if c <= 0x7fff_ffff {
        c as i32
    } else {
        (c as i64 - 0x1_0000_0000) as i32
    }
}

/// The address of a cell whose column and row are counted from zero.
pub open spec fn address(col: u32, row: u32) -> Seq<char> {
    letters(signed(col)) + text::dec((row + 1) as nat)
}

pub(crate) fn address_of(col: u32, row: u32) -> (r: String)
    ensures
        r@ == address(col, row),
{
    let mut out = column_chars(signed_of(col));
    text::extend(&mut out, &text::digits(row as u64 + 1));
    text::string_of(&out)
}

/// The address of a cell whose column and row are counted from one.
pub open spec fn address_from_one(col: u32, row: u32) -> Seq<char> {
    letters(signed(((col + 0xffff_ffff) % 0x1_0000_0000) as u32)) + text::dec(row as nat)
}

pub(crate) fn address_from_one_of(col: u32, row: u32) -> (r: String)
    ensures
        r@ == address_from_one(col, row),
{
    let before: u32 = if col == 0 {
        0xffff_ffff
    } else {
        col - 1
    };
    let mut out = column_chars(signed_of(before));
    text::extend(&mut out, &text::digits(row as u64));
    text::string_of(&out)
}

// ---------------------------------------------------------------------------
// Cells
// ---------------------------------------------------------------------------

/// What a cell with this data type, value and formula holds.
pub open spec fn kind_of(dt: Seq<char>, value: Seq<char>, formula: Seq<char>) -> CellKind {
    if formula.len() > 0 {
        CellKind::Formula
    } else if dt == "s"@ || dt == "str"@ || dt == "inlineStr"@ {
        CellKind::Text
    } else if dt == "n"@ {
        CellKind::Number
    } else if dt == "b"@ {
        CellKind::Boolean
    } else if value.len() == 0 {
        CellKind::Empty
    } else {
        CellKind::Other
    }
}

/// What a cell holds: a formula above all, else what its data type says.
pub fn classify(dt: &str, value: &str, formula: &str) -> (r: CellKind)
    ensures
        r == kind_of(dt@, value@, formula@),
{
    if !blank(formula) {
        CellKind::Formula
    } else if text::same(dt, "s") || text::same(dt, "str") || text::same(dt, "inlineStr") {
        CellKind::Text
    } else if text::same(dt, "n") {
        CellKind::Number
    } else if text::same(dt, "b") {
        CellKind::Boolean
    } else if blank(value) {
        CellKind::Empty
    } else {
        CellKind::Other
    }
}

fn blank(s: &str) -> (r: bool)
    ensures
        r == (s@.len() == 0),
{
    text::chars_of(s).len() == 0
}

/// The mathematical value of a cell that holds something.
pub struct CellView {
    pub sheet: Seq<char>,
    pub cell: Seq<char>,
    pub kind: CellKind,
    pub data_type: Seq<char>,
    pub value: Option<Seq<char>>,
    pub formula: Option<Seq<char>>,
}

impl View for CellEntry {
    type V = CellView;

    open spec fn view(&self) -> CellView {
        CellView {
            sheet: self.sheet@,
            cell: self.cell@,
            kind: self.kind,
            data_type: self.data_type@,
            value: text::optional(self.value),
            formula: text::optional(self.formula),
        }
    }
}

/// A text where it is not empty.
pub open spec fn unless_empty(s: Seq<char>) -> Option<Seq<char>> {
    if s.len() == 0 {
        None
    } else {
        Some(s)
    }
}

/// What is recorded of a cell.
pub open spec fn cell_entry(sheet: Seq<char>, c: RawCell) -> CellView {
    CellView {
        sheet,
        cell: address_from_one(c.col, c.row),
        kind: kind_of(c.data_type@, c.value@, c.formula@),
        data_type: c.data_type@,
        value: unless_empty(c.value@),
        formula: unless_empty(c.formula@),
    }
}

/// What is recorded of the cells of a sheet: those that hold something, in the order given.
pub open spec fn cell_entries(sheet: Seq<char>, cells: Seq<RawCell>) -> Seq<CellView>
    decreases cells.len(),
{
    if cells.len() == 0 {
        Seq::empty()
    } else {
        let c = cells.last();
        let before = cell_entries(sheet, cells.drop_last());
        if kind_of(c.data_type@, c.value@, c.formula@) == CellKind::Empty {
            before
        } else {
            before.push(cell_entry(sheet, c))
        }
    }
}

/// What is recorded of the cells of all sheets.
pub open spec fn sheet_entries(sheets: Seq<RawSheet>) -> Seq<CellView>
    decreases sheets.len(),
{
    if sheets.len() == 0 {
        Seq::empty()
    } else {
        sheet_entries(sheets.drop_last()) + cell_entries(
            sheets.last().name@,
            sheets.last().cells@,
        )
    }
}

/// The mathematical values of recorded cells.
pub open spec fn cell_views(v: Seq<CellEntry>) -> Seq<CellView> {
    v.map_values(|c: CellEntry| c@)
}

fn some_text(s: &String) -> (r: Option<String>)
    ensures
        text::optional(r) == unless_empty(s@),
{
    if blank(s) {
        None
    } else {
        Some(s.clone())
    }
}

/// Appends what is recorded of the cells of one sheet.
pub fn collect_cells(sheet: &RawSheet, out: &mut Vec<CellEntry>)
    ensures
        cell_views(final(out)@) == cell_views(old(out)@) + cell_entries(
            sheet.name@,
            sheet.cells@,
        ),
{
    let ghost before = cell_views(out@);
    let mut i: usize = 0;
    assert(sheet.cells@.take(0) =~= Seq::<RawCell>::empty());
    assert(before + Seq::<CellView>::empty() =~= before);
    while i < sheet.cells.len()
        invariant
            i <= sheet.cells@.len(),
            cell_views(out@) == before + cell_entries(sheet.name@, sheet.cells@.take(i as int)),
        decreases sheet.cells@.len() - i,
    {
        let c = &sheet.cells[i];
        let kind = classify(&c.data_type, &c.value, &c.formula);
        assert(sheet.cells@.take(i + 1).drop_last() =~= sheet.cells@.take(i as int));
        if kind != CellKind::Empty {
            let entry = CellEntry {
                sheet: sheet.name.clone(),
                cell: address_from_one_of(c.col, c.row),
                kind,
                data_type: c.data_type.clone(),
                value: some_text(&c.value),
                formula: some_text(&c.formula),
            };
            let ghost held = out@;
            out.push(entry);
            assert(cell_views(out@) =~= cell_views(held).push(entry@));
            assert(before + cell_entries(sheet.name@, sheet.cells@.take(i as int)).push(entry@)
                =~= cell_views(out@));
        }
        i = i + 1;
    }
    assert(sheet.cells@.take(i as int) =~= sheet.cells@);
}

// ---------------------------------------------------------------------------
// The whole template
// ---------------------------------------------------------------------------

/// The names of the sheets, in order.
pub open spec fn sheet_names(sheets: Seq<RawSheet>) -> Seq<Seq<char>> {
    sheets.map_values(|s: RawSheet| s.name@)
}

/// The template in `bytes`, whose sheets a spreadsheet reader has handed out.
pub fn inspect(bytes: &Vec<u8>, template_name: &str, sheets: &Vec<RawSheet>) -> (r: Result<
    TemplateAudit,
>)
    ensures
        r is Ok <==> drawings::drawing_outcome(bytes@, sheet_names(sheets@)) is Ok
            && media::media_outcome(bytes@) is Ok,
        r matches Ok(a) ==> {
            &&& a.template_name@ == template_name@
            &&& a.sha256@ == digest::hex(digest::sha256(bytes@))
            &&& a.bytes == bytes@.len()
            &&& archive::strings(a.sheets@) == sheet_names(sheets@)
            &&& cell_views(a.cell_map@) == sheet_entries(sheets@)
            &&& drawings::drawing_outcome(bytes@, sheet_names(sheets@))
                == drawings::DrawingOutcome::Ok(drawings::drawing_views(a.drawings@))
            &&& media::media_outcome(bytes@) == media::MediaOutcome::Ok(
                media::media_views(a.media@),
            )
        },
        r matches Err(e) ==> match drawings::drawing_outcome(bytes@, sheet_names(sheets@)) {
            Err(d) => d == e@,
            Ok(_) => media::media_outcome(bytes@) == media::MediaOutcome::Err(e@),
        },
{
    let sha256 = digest::hex_sha256(bytes.as_slice());
    let mut names: Vec<String> = Vec::new();
    let mut cell_map: Vec<CellEntry> = Vec::new();
    let mut i: usize = 0;
    assert(sheets@.take(0) =~= Seq::<RawSheet>::empty());
    assert(cell_views(cell_map@) =~= Seq::<CellView>::empty());
    assert(archive::strings(names@) =~= sheet_names(sheets@.take(0)));
    while i < sheets.len()
        invariant
            i <= sheets@.len(),
            archive::strings(names@) == sheet_names(sheets@.take(i as int)),
            cell_views(cell_map@) == sheet_entries(sheets@.take(i as int)),
        decreases sheets@.len() - i,
    {
        assert(sheets@.take(i + 1).drop_last() =~= sheets@.take(i as int));
        let ghost held = names@;
        let name = sheets[i].name.clone();
        names.push(name);
        assert(archive::strings(names@) =~= archive::strings(held).push(name@));
        assert(archive::strings(names@) =~= sheet_names(sheets@.take(i + 1)));
        collect_cells(&sheets[i], &mut cell_map);
        i = i + 1;
    }
    assert(sheets@.take(i as int) =~= sheets@);
    let found = match drawings::collect_drawings(bytes, &names) {
        Ok(v) => v,
        Err(e) => return Err(e),
    };
    let pictures = match media::collect_media(bytes) {
        Ok(v) => v,
        Err(e) => return Err(e),
    };
    Ok(
        TemplateAudit {
            template_name: template_name.to_owned(),
            sha256,
            bytes: bytes.len() as u64,
            sheets: names,
            cell_map,
            drawings: found,
            media: pictures,
        },
    )
}

// ---------------------------------------------------------------------------
// Columns
// ---------------------------------------------------------------------------

/// The column that letters stand for, counted from one: `A` is one, `AA` twenty-seven.
pub open spec fn column_number(s: Seq<char>) -> int
    decreases s.len(),
{
    if s.len() == 0 {
        0
    } else {
        column_number(s.drop_last()) * 26 + (s.last() as int - 64)
    }
}

/// The letters of a column identify it.
pub proof fn law_column_reads_back(n: int)
    requires
        0 <= n,
    ensures
        column_number(letters(n)) == n + 1,
        letters(n).len() > 0,
        forall|i: int| 0 <= i < letters(n).len() ==> 'A' <= #[trigger] letters(n)[i] <= 'Z',
    decreases n,
{
    let c = letter(n);
    let b = (65 + n % 26) as u8;
    assert(b as char as u32 == b as u32);
    assert(c as int == 65 + n % 26);
    if n < 26 {
        assert(letters(n).drop_last() =~= Seq::<char>::empty());
        assert(letters(n).last() == c);
        assert(column_number(Seq::<char>::empty()) == 0);
    } else {
        law_column_reads_back(n / 26 - 1);
        assert(letters(n).drop_last() =~= letters(n / 26 - 1));
        assert(letters(n).last() == c);
    }
}

/// What a cell holds: a formula wherever there is one, else what the data type says, else nothing
/// exactly where there is no value.
pub proof fn law_kind(dt: Seq<char>, value: Seq<char>, formula: Seq<char>)
    ensures
        ({
            let k = kind_of(dt, value, formula);
            let text_type = dt == "s"@ || dt == "str"@ || dt == "inlineStr"@;
            &&& k == CellKind::Formula <==> formula.len() > 0
            &&& k == CellKind::Text <==> formula.len() == 0 && text_type
            &&& k == CellKind::Number <==> formula.len() == 0 && dt == "n"@
            &&& k == CellKind::Boolean <==> formula.len() == 0 && dt == "b"@
            &&& k == CellKind::Empty <==> formula.len() == 0 && !text_type && dt != "n"@ && dt != "b"@
                && value.len() == 0
        }),
{
    reveal_strlit("s");
    reveal_strlit("str");
    reveal_strlit("inlineStr");
    reveal_strlit("n");
    reveal_strlit("b");
    assert("s"@[0] == 's' && "n"@[0] == 'n' && "b"@[0] == 'b');
    assert("str"@.len() == 3 && "inlineStr"@.len() == 9 && "n"@.len() == 1 && "b"@.len() == 1);
}

/// Of the cells of a sheet all are recorded that hold something, in order, and no other.
pub proof fn law_cells_recorded(sheet: Seq<char>, a: Seq<RawCell>, b: Seq<RawCell>, c: RawCell)
    ensures
        cell_entries(sheet, a + b) == cell_entries(sheet, a) + cell_entries(sheet, b),
        kind_of(c.data_type@, c.value@, c.formula@) == CellKind::Empty ==> cell_entries(
            sheet,
            seq![c],
        ).len() == 0,
        kind_of(c.data_type@, c.value@, c.formula@) != CellKind::Empty ==> {
            let e = cell_entries(sheet, seq![c])[0];
            &&& cell_entries(sheet, seq![c]).len() == 1
            &&& e.sheet == sheet
            &&& e.cell == address_from_one(c.col, c.row)
            &&& e.kind == kind_of(c.data_type@, c.value@, c.formula@)
            &&& e.data_type == c.data_type@
            &&& e.value == if c.value@.len() == 0 {
                None
            } else {
                Some(c.value@)
            }
            &&& e.formula == if c.formula@.len() == 0 {
                None
            } else {
                Some(c.formula@)
            }
        },
    decreases b.len(),
{
    let one = seq![c];
    assert(one.drop_last() =~= Seq::empty());
    assert(cell_entries(sheet, one.drop_last()).len() == 0);
    if b.len() == 0 {
        assert(a + b =~= a);
        assert(cell_entries(sheet, a) + cell_entries(sheet, b) =~= cell_entries(sheet, a));
    } else {
        law_cells_recorded(sheet, a, b.drop_last(), c);
        assert((a + b).drop_last() =~= a + b.drop_last());
        assert((a + b).last() == b.last());
        assert(cell_entries(sheet, a + b) =~= cell_entries(sheet, a) + cell_entries(sheet, b));
    }
}

/// All sheets are recorded, one after the other, each under its name.
pub proof fn law_sheets_recorded(a: Seq<RawSheet>, b: Seq<RawSheet>, s: RawSheet, i: int)
    requires
        0 <= i < a.len(),
    ensures
        sheet_entries(a + b) == sheet_entries(a) + sheet_entries(b),
        sheet_entries(seq![s]) == cell_entries(s.name@, s.cells@),
        sheet_names(a).len() == a.len(),
        sheet_names(a)[i] == a[i].name@,
    decreases b.len(),
{
    let one = seq![s];
    assert(one.drop_last() =~= Seq::empty());
    assert(sheet_entries(one.drop_last()) =~= Seq::empty());
    assert(sheet_entries(one) =~= cell_entries(s.name@, s.cells@));
    if b.len() == 0 {
        assert(a + b =~= a);
        assert(sheet_entries(a) + sheet_entries(b) =~= sheet_entries(a));
    } else {
        law_sheets_recorded(a, b.drop_last(), s, i);
        assert((a + b).drop_last() =~= a + b.drop_last());
        assert((a + b).last() == b.last());
        assert(sheet_entries(a + b) =~= sheet_entries(a) + sheet_entries(b));
    }
}

/// The address of a cell is the letters of its column and the number of its row, counted from one,
/// however column and row are counted when asking.
pub proof fn law_address(col: u32, row: u32)
    requires
        col < i32::MAX,
        row < u32::MAX,
    ensures
        address(col, row) == letters(col as int) + text::dec((row + 1) as nat),
        address_from_one((col + 1) as u32, (row + 1) as u32) == address(col, row),
        column_number(letters(col as int)) == col + 1,
{
    law_column_reads_back(col as int);
    assert((col + 1 + 0xffff_ffff) % 0x1_0000_0000 == col);
}

/// Recorded cells keep their order and all that they hold.
pub proof fn law_cells_as_recorded(v: Seq<CellEntry>, i: int)
    requires
        0 <= i < v.len(),
    ensures
        cell_views(v).len() == v.len(),
        cell_views(v)[i].sheet == v[i].sheet@,
        cell_views(v)[i].cell == v[i].cell@,
        cell_views(v)[i].kind == v[i].kind,
        cell_views(v)[i].data_type == v[i].data_type@,
        cell_views(v)[i].value == text::optional(v[i].value),
        cell_views(v)[i].formula == text::optional(v[i].formula),
{
}

} // verus!
