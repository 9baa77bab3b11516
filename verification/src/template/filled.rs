//! What a filled template must not hold before it becomes a preview.
use crate::error::{Error, ErrorView, Result};
use crate::template::inspect;
use crate::template::inspect::{CellKind, RawCell, RawSheet};
use crate::text;
use vstd::prelude::*;

verus! {

/// The text that stands in a template where measured traffic goes.
pub const PLACEHOLDER: &'static str = "读取LNMS";

/// What a formula shows that cannot be computed.
pub const BROKEN_FORMULA: &'static str = "#VALUE!";

/// What is wrong with a cell: a text that was not replaced, or a formula that cannot be computed.
pub open spec fn cell_fault(c: RawCell) -> Option<Seq<char>> {
    if inspect::kind_of(c.data_type@, c.value@, c.formula@) == CellKind::Text && text::has(
        c.value@,
        PLACEHOLDER@,
    ) {
        Some(PLACEHOLDER@)
    } else if text::has(c.value@, BROKEN_FORMULA@) || text::has(c.formula@, BROKEN_FORMULA@) {
        Some(BROKEN_FORMULA@)
    } else {
        None
    }
}

/// Whether nothing is wrong with any cell of the sheets.
pub open spec fn sound(sheets: Seq<RawSheet>) -> bool {
    forall|i: int, j: int|
        0 <= i < sheets.len() && 0 <= j < sheets[i].cells@.len() ==> cell_fault(
            #[trigger] sheets[i].cells@[j],
        ) is None
}

/// The error for a cell: the sheet, the address and what is wrong.
pub open spec fn cell_error(sheet: Seq<char>, c: RawCell) -> ErrorView {
    ErrorView::Template(
        "cell "@ + sheet + "!"@ + inspect::address_from_one(c.col, c.row) + " holds "@ + cell_fault(
            c,
        )->0,
    )
}

/// Whether `e` is the error for the first cell with which something is wrong.
pub open spec fn first_error(sheets: Seq<RawSheet>, e: ErrorView) -> bool {
    exists|i: int, j: int|
        0 <= i < sheets.len() && 0 <= j < sheets[i].cells@.len() && cell_fault(
            #[trigger] sheets[i].cells@[j],
        ) is Some && e == cell_error(sheets[i].name@, sheets[i].cells@[j]) && sound(sheets.take(i))
            && forall|k: int|
            0 <= k < j ==> cell_fault(#[trigger] sheets[i].cells@[k]) is None
}

fn fault_of(c: &RawCell) -> (r: Option<&'static str>)
    ensures
        match r {
            Some(m) => cell_fault(*c) == Some(m@),
            None => cell_fault(*c) is None,
        },
{
    let value = text::chars_of(&c.value);
    let broken = text::chars_of(BROKEN_FORMULA);
    if inspect::classify(&c.data_type, &c.value, &c.formula) == CellKind::Text && text::find(
        &value,
        &text::chars_of(PLACEHOLDER),
        0,
    ).is_some() {
        Some(PLACEHOLDER)
    } else if text::find(&value, &broken, 0).is_some() || text::find(
        &text::chars_of(&c.formula),
        &broken,
        0,
    ).is_some() {
        Some(BROKEN_FORMULA)
    } else {
        None
    }
}

/// Holds a filled template against what it must not hold: a text that was not replaced, a formula
/// that cannot be computed.
pub fn check_filled(sheets: &Vec<RawSheet>) -> (r: Result<()>)
    ensures
        r is Ok <==> sound(sheets@),
        r matches Err(e) ==> first_error(sheets@, e@),
{
    let mut i: usize = 0;
    while i < sheets.len()
        invariant
            i <= sheets@.len(),
            sound(sheets@.take(i as int)),
        decreases sheets@.len() - i,
    {
        let s = &sheets[i];
        let mut j: usize = 0;
        while j < s.cells.len()
            invariant
                i < sheets@.len(),
                *s == sheets@[i as int],
                j <= s.cells@.len(),
                sound(sheets@.take(i as int)),
                forall|k: int| 0 <= k < j ==> cell_fault(#[trigger] s.cells@[k]) is None,
            decreases s.cells@.len() - j,
        {
            let c = &s.cells[j];
            if let Some(m) = fault_of(c) {
                let at = inspect::address_from_one_of(c.col, c.row);
                let head = text::cat4("cell ", &s.name, "!", &at);
                let e = Error::Template(text::cat3(&head, " holds ", m));
                assert(cell_fault(sheets@[i as int].cells@[j as int]) is Some);
                assert(e@ == cell_error(s.name@, *c));
                return Err(e);
            }
            j = j + 1;
        }
        assert forall|a: int, b: int|
            0 <= a < i + 1 && 0 <= b < sheets@.take(i + 1)[a].cells@.len() implies cell_fault(
            #[trigger] sheets@.take(i + 1)[a].cells@[b],
        ) is None by {
            if a < i {
                assert(sheets@.take(i as int)[a].cells@[b] == sheets@[a].cells@[b]);
            } else {
                assert(sheets@.take(i + 1)[a].cells@[b] == s.cells@[b]);
            }
        }
        i = i + 1;
    }
    assert(sheets@.take(i as int) =~= sheets@);
    Ok(())
}

// ---------------------------------------------------------------------------
// Laws
// ---------------------------------------------------------------------------

/// Something is wrong with a cell exactly where the text of one that holds text has the placeholder
/// in it, or a value or a formula has the mark of a formula that cannot be computed in it.
pub proof fn law_cell_fault(c: RawCell)
    ensures
        cell_fault(c) is Some <==> {
            ||| inspect::kind_of(c.data_type@, c.value@, c.formula@) == CellKind::Text
                && text::find_from(c.value@, "读取LNMS"@, 0) is Some
            ||| text::find_from(c.value@, "#VALUE!"@, 0) is Some
            ||| text::find_from(c.formula@, "#VALUE!"@, 0) is Some
        },
        cell_fault(c) is Some ==> cell_fault(c)->0 == "读取LNMS"@ || cell_fault(c)->0 == "#VALUE!"@,
{
}

/// A filled template is sound exactly where nothing is wrong with any of its cells; sheets do not
/// touch each other.
pub proof fn law_sound(a: Seq<RawSheet>, b: Seq<RawSheet>)
    ensures
        sound(a + b) <==> sound(a) && sound(b),
        sound(Seq::empty()),
{
    let ab = a + b;
    if sound(ab) {
        assert forall|i: int, j: int|
            0 <= i < a.len() && 0 <= j < a[i].cells@.len() implies cell_fault(
            #[trigger] a[i].cells@[j],
        ) is None by {
            assert(ab[i].cells@[j] == a[i].cells@[j]);
        }
        assert forall|i: int, j: int|
            0 <= i < b.len() && 0 <= j < b[i].cells@.len() implies cell_fault(
            #[trigger] b[i].cells@[j],
        ) is None by {
            assert(ab[i + a.len()].cells@[j] == b[i].cells@[j]);
        }
    }
    if sound(a) && sound(b) {
        assert forall|i: int, j: int|
            0 <= i < ab.len() && 0 <= j < ab[i].cells@.len() implies cell_fault(
            #[trigger] ab[i].cells@[j],
        ) is None by {
            if i < a.len() {
                assert(ab[i].cells@[j] == a[i].cells@[j]);
            } else {
                assert(ab[i].cells@[j] == b[i - a.len()].cells@[j]);
            }
        }
    }
}

/// One cell with which something is wrong makes its sheets unsound, and the error names the sheet,
/// the cell and what it holds.
pub proof fn law_one_bad_cell(sheets: Seq<RawSheet>, i: int, j: int, e: ErrorView)
    requires
        0 <= i < sheets.len(),
        0 <= j < sheets[i].cells@.len(),
        cell_fault(sheets[i].cells@[j]) is Some,
    ensures
        !sound(sheets),
        first_error(sheets, e) ==> exists|a: int, b: int|
            0 <= a <= i && 0 <= b < sheets[a].cells@.len() && (a == i ==> b <= j) && cell_fault(
                #[trigger] sheets[a].cells@[b],
            ) is Some && e == ErrorView::Template(
                "cell "@ + sheets[a].name@ + "!"@ + inspect::address_from_one(
                    sheets[a].cells@[b].col,
                    sheets[a].cells@[b].row,
                ) + " holds "@ + cell_fault(sheets[a].cells@[b])->0,
            ),
{
    if first_error(sheets, e) {
        let (a, b) = choose|a: int, b: int|
            0 <= a < sheets.len() && 0 <= b < sheets[a].cells@.len() && cell_fault(
                #[trigger] sheets[a].cells@[b],
            ) is Some && e == cell_error(sheets[a].name@, sheets[a].cells@[b]) && sound(
                sheets.take(a),
            ) && forall|k: int| 0 <= k < b ==> cell_fault(#[trigger] sheets[a].cells@[k]) is None;
        if i < a {
            assert(sheets.take(a)[i].cells@[j] == sheets[i].cells@[j]);
        }
        assert(cell_fault(sheets[a].cells@[b]) is Some);
    }
}

} // verus!
