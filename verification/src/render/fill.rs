//! Which cells of the template an invoice fills, and with what.
use crate::text;
use vstd::prelude::*;

verus! {

/// What is written into the template. The total is in cents.
#[derive(Debug, Clone)]
pub struct InvoiceData {
    pub invoice_no: String,
    pub customer_name: String,
    /// The month, such as `2026-08`.
    pub period_label: String,
    pub ports: Vec<PortLine>,
    pub total_cents: i64,
    pub currency: String,
}

/// One port on an invoice.
#[derive(Debug, Clone)]
pub struct PortLine {
    pub label: String,
    pub mbps_95th: Option<i64>,
    pub machine_rent: bool,
    pub machine_hosting: bool,
}

/// The mathematical value of a `PortLine`.
#[verifier::ext_equal]
pub struct PortLineView {
    pub label: Seq<char>,
    pub mbps_95th: Option<i64>,
    pub machine_rent: bool,
    pub machine_hosting: bool,
}

impl View for PortLine {
    type V = PortLineView;

    open spec fn view(&self) -> PortLineView {
        PortLineView {
            label: self.label@,
            mbps_95th: self.mbps_95th,
            machine_rent: self.machine_rent,
            machine_hosting: self.machine_hosting,
        }
    }
}

/// The mathematical values of port lines.
pub open spec fn line_views(v: Seq<PortLine>) -> Seq<PortLineView> {
    v.map_values(|p: PortLine| p@)
}

/// What a cell is set to.
#[derive(Debug, Clone)]
pub enum CellValue {
    Text(String),
    /// An amount in cents, shown in whole units of the currency.
    Cents(i64),
    Whole(i64),
    Flag(bool),
    Blank,
}

/// The mathematical value of a `CellValue`.
pub enum ValueView {
    Text(Seq<char>),
    Cents(i64),
    Whole(i64),
    Flag(bool),
    Blank,
}

impl View for CellValue {
    type V = ValueView;

    open spec fn view(&self) -> ValueView {
        match self {
            CellValue::Text(t) => ValueView::Text(t@),
            CellValue::Cents(n) => ValueView::Cents(*n),
            CellValue::Whole(n) => ValueView::Whole(*n),
            CellValue::Flag(b) => ValueView::Flag(*b),
            CellValue::Blank => ValueView::Blank,
        }
    }
}

/// A cell and what it is set to.
#[derive(Debug, Clone)]
pub struct CellWrite {
    pub cell: String,
    pub value: CellValue,
}

impl View for CellWrite {
    type V = (Seq<char>, ValueView);

    open spec fn view(&self) -> (Seq<char>, ValueView) {
        (self.cell@, self.value@)
    }
}

/// The mathematical values of writes.
pub open spec fn write_views(v: Seq<CellWrite>) -> Seq<(Seq<char>, ValueView)> {
    v.map_values(|w: CellWrite| w@)
}

/// The head of the invoice: number, customer, month, total and currency, one below the other.
pub open spec fn head_writes(d: InvoiceData) -> Seq<(Seq<char>, ValueView)> {
    seq![
        ("D2"@, ValueView::Text(d.invoice_no@)),
        ("D3"@, ValueView::Text(d.customer_name@)),
        ("D4"@, ValueView::Text(d.period_label@)),
        ("D5"@, ValueView::Cents(d.total_cents)),
        ("D6"@, ValueView::Text(d.currency@)),
    ]
}

/// The cell in column `c` of the row for port `i`, counted from zero: the first is row nine.
pub open spec fn port_cell(c: Seq<char>, i: int) -> Seq<char> {
    c + text::dec((9 + i) as nat)
}

/// The row of a port: label, traffic, two columns left blank, rent and hosting.
pub open spec fn port_writes(p: PortLineView, i: int) -> Seq<(Seq<char>, ValueView)> {
    seq![
        (port_cell("A"@, i), ValueView::Text(p.label)),
        (
            port_cell("B"@, i),
            match p.mbps_95th {
                Some(m) => ValueView::Whole(m),
                None => ValueView::Blank,
            },
        ),
        (port_cell("C"@, i), ValueView::Blank),
        (port_cell("D"@, i), ValueView::Blank),
        (port_cell("E"@, i), ValueView::Flag(p.machine_rent)),
        (port_cell("F"@, i), ValueView::Flag(p.machine_hosting)),
    ]
}

/// The rows of the first `n` ports.
pub open spec fn rows_writes(ports: Seq<PortLineView>, n: int) -> Seq<(Seq<char>, ValueView)>
    decreases n,
{
    if n <= 0 {
        Seq::empty()
    } else {
        rows_writes(ports, n - 1) + port_writes(ports[n - 1], n - 1)
    }
}

fn set(out: &mut Vec<CellWrite>, cell: String, value: CellValue)
    ensures
        write_views(final(out)@) == write_views(old(out)@).push((cell@, value@)),
{
    let w = CellWrite { cell, value };
    let ghost held = out@;
    out.push(w);
    assert(write_views(out@) =~= write_views(held).push(w@));
}

/// Appends the head of the invoice.
pub fn write_invoice_fields(out: &mut Vec<CellWrite>, data: &InvoiceData)
    ensures
        write_views(final(out)@) == write_views(old(out)@) + head_writes(*data),
{
    let ghost held = write_views(out@);
    set(out, "D2".to_owned(), CellValue::Text(data.invoice_no.clone()));
    set(out, "D3".to_owned(), CellValue::Text(data.customer_name.clone()));
    set(out, "D4".to_owned(), CellValue::Text(data.period_label.clone()));
    set(out, "D5".to_owned(), CellValue::Cents(data.total_cents));
    set(out, "D6".to_owned(), CellValue::Text(data.currency.clone()));
    assert(write_views(out@) =~= held + head_writes(*data));
}

fn cell_at(column: &str, i: usize) -> (r: String)
    requires
        i < usize::MAX - 9,
    ensures
        r@ == port_cell(column@, i as int),
{
    let n = text::string_of(&text::digits(i as u64 + 9));
    text::cat2(column, &n)
}

/// Appends the rows of the ports, from row nine on.
pub fn write_port_rows(out: &mut Vec<CellWrite>, ports: &Vec<PortLine>)
    requires
        ports@.len() < usize::MAX - 9,
    ensures
        write_views(final(out)@) == write_views(old(out)@) + rows_writes(
            line_views(ports@),
            ports@.len() as int,
        ),
{
    let ghost before = write_views(out@);
    let ghost lines = line_views(ports@);
    let mut i: usize = 0;
    assert(before + rows_writes(lines, 0) =~= before);
    while i < ports.len()
        invariant
            i <= ports@.len() < usize::MAX - 9,
            lines == line_views(ports@),
            write_views(out@) == before + rows_writes(lines, i as int),
        decreases ports@.len() - i,
    {
        let p = &ports[i];
        let ghost held = write_views(out@);
        assert(lines[i as int] == p@);
        set(out, cell_at("A", i), CellValue::Text(p.label.clone()));
        let traffic = match p.mbps_95th {
            Some(m) => CellValue::Whole(m),
            None => CellValue::Blank,
        };
        set(out, cell_at("B", i), traffic);
        set(out, cell_at("C", i), CellValue::Blank);
        set(out, cell_at("D", i), CellValue::Blank);
        set(out, cell_at("E", i), CellValue::Flag(p.machine_rent));
        set(out, cell_at("F", i), CellValue::Flag(p.machine_hosting));
        assert(write_views(out@) =~= held + port_writes(p@, i as int));
        assert(write_views(out@) =~= before + rows_writes(lines, i + 1));
        i = i + 1;
    }
}

/// Everything that is written into the template for an invoice.
pub fn fill_plan(data: &InvoiceData) -> (r: Vec<CellWrite>)
    requires
        data.ports@.len() < usize::MAX - 9,
    ensures
        write_views(r@) == head_writes(*data) + rows_writes(
            line_views(data.ports@),
            data.ports@.len() as int,
        ),
{
    let mut out: Vec<CellWrite> = Vec::new();
    assert(write_views(out@) =~= Seq::empty());
    write_invoice_fields(&mut out, data);
    write_port_rows(&mut out, &data.ports);
    assert(Seq::<(Seq<char>, ValueView)>::empty() + head_writes(*data) =~= head_writes(*data));
    out
}

// ---------------------------------------------------------------------------
// Law
// ---------------------------------------------------------------------------

/// The rows of different ports do not touch: the cell in a column is another for each port.
pub proof fn law_rows_apart(c: Seq<char>, i: int, j: int)
    requires
        0 <= i,
        0 <= j,
        port_cell(c, i) == port_cell(c, j),
    ensures
        i == j,
{
    let a = text::dec((9 + i) as nat);
    let b = text::dec((9 + j) as nat);
    assert(port_cell(c, i).skip(c.len() as int) =~= a);
    assert(port_cell(c, j).skip(c.len() as int) =~= b);
    text::lemma_dec_reads_back((9 + i) as nat);
    text::lemma_dec_reads_back((9 + j) as nat);
}

/// What the head of an invoice shows, and in which cells.
pub proof fn law_head(d: InvoiceData)
    ensures
        head_writes(d).len() == 5,
        head_writes(d)[0] == ("D2"@, ValueView::Text(d.invoice_no@)),
        head_writes(d)[1] == ("D3"@, ValueView::Text(d.customer_name@)),
        head_writes(d)[2] == ("D4"@, ValueView::Text(d.period_label@)),
        head_writes(d)[3] == ("D5"@, ValueView::Cents(d.total_cents)),
        head_writes(d)[4] == ("D6"@, ValueView::Text(d.currency@)),
{
}

/// Every port has a row of its own, from row nine on, in the order of the ports, and the row shows
/// that port.
pub proof fn law_each_port_in_its_row(ports: Seq<PortLineView>, n: int, i: int)
    requires
        0 <= i < n,
    ensures
        ({
            let w = rows_writes(ports, n);
            let row = text::dec((9 + i) as nat);
            &&& w.len() == 6 * n
            &&& w[6 * i] == ("A"@ + row, ValueView::Text(ports[i].label))
            &&& w[6 * i + 1].0 == "B"@ + row
            &&& ports[i].mbps_95th matches Some(m) ==> w[6 * i + 1].1 == ValueView::Whole(m)
            &&& ports[i].mbps_95th is None ==> w[6 * i + 1].1 == ValueView::Blank
            &&& w[6 * i + 2] == ("C"@ + row, ValueView::Blank)
            &&& w[6 * i + 3] == ("D"@ + row, ValueView::Blank)
            &&& w[6 * i + 4] == ("E"@ + row, ValueView::Flag(ports[i].machine_rent))
            &&& w[6 * i + 5] == ("F"@ + row, ValueView::Flag(ports[i].machine_hosting))
        }),
        rows_writes(ports, 0).len() == 0,
    decreases n,
{
    let before = rows_writes(ports, n - 1);
    if n > 1 {
        if i < n - 1 {
            law_each_port_in_its_row(ports, n - 1, i);
        } else {
            law_each_port_in_its_row(ports, n - 1, 0);
        }
    }
    assert(before.len() == 6 * (n - 1));
}

/// The value of a line shows every field of it, and lines keep their order.
pub proof fn law_lines_as_given(v: Seq<PortLine>, i: int)
    requires
        0 <= i < v.len(),
    ensures
        line_views(v).len() == v.len(),
        line_views(v)[i].label == v[i].label@,
        line_views(v)[i].mbps_95th == v[i].mbps_95th,
        line_views(v)[i].machine_rent == v[i].machine_rent,
        line_views(v)[i].machine_hosting == v[i].machine_hosting,
{
}

/// Writes keep their order, and each is of its cell and its value.
pub proof fn law_writes_as_given(v: Seq<CellWrite>, i: int, t: String, n: i64, b: bool)
    requires
        0 <= i < v.len(),
    ensures
        write_views(v).len() == v.len(),
        write_views(v)[i] == (v[i].cell@, v[i].value@),
        CellValue::Text(t)@ == ValueView::Text(t@),
        CellValue::Cents(n)@ == ValueView::Cents(n),
        CellValue::Whole(n)@ == ValueView::Whole(n),
        CellValue::Flag(b)@ == ValueView::Flag(b),
        CellValue::Blank@ == ValueView::Blank,
{
}

} // verus!
