//! Changes to the layout of the tables: which are due, and the statements they consist of.
use crate::archive;
use crate::error::{Error, ErrorView};
use crate::text;
use vstd::prelude::*;

verus! {

/// A line of SQL without its comment.
pub open spec fn uncommented(line: Seq<char>) -> Seq<char> {
    match text::find_from(line, "--"@, 0) {
        Some(i) => line.take(i),
        None => line,
    }
}

/// Lines, each but the last followed by a line feed.
pub open spec fn joined(lines: Seq<Seq<char>>) -> Seq<char>
    decreases lines.len(),
{
    if lines.len() == 0 {
        Seq::empty()
    } else if lines.len() == 1 {
        lines[0]
    } else {
        joined(lines.drop_last()).push('\n') + lines.last()
    }
}

/// SQL without its comments.
pub open spec fn stripped(sql: Seq<char>) -> Seq<char> {
    joined(text::lines_of(sql).map_values(|l: Seq<char>| uncommented(l)))
}

/// The pieces that hold more than white space, without the white space at their ends.
pub open spec fn filled(pieces: Seq<Seq<char>>) -> Seq<Seq<char>>
    decreases pieces.len(),
{
    if pieces.len() == 0 {
        Seq::empty()
    } else {
        let before = filled(pieces.drop_last());
        let t = text::trimmed(pieces.last());
        if t.len() == 0 {
            before
        } else {
            before.push(t)
        }
    }
}

/// The statements of SQL text: comments are taken out first, so that a semicolon in one ends
/// nothing.
pub open spec fn statements_of(sql: Seq<char>) -> Seq<Seq<char>> {
    filled(text::split_on(stripped(sql), ';'))
}

fn strip_line(line: &Vec<char>) -> (r: Vec<char>)
    ensures
        r@ == uncommented(line@),
{
    proof {
        text::lemma_find_from(line@, "--"@, 0);
    }
    match text::find(line, &text::chars_of("--"), 0) {
        Some(i) => {
            assert(line@.subrange(0, i as int) =~= line@.take(i as int));
            text::cut(line, 0, i)
        },
        None => {
            assert(line@.subrange(0, line@.len() as int) =~= line@);
            text::cut(line, 0, line.len())
        },
    }
}

fn strip(sql: &str) -> (r: Vec<char>)
    ensures
        r@ == stripped(sql@),
{
    let lines = text::lines(&text::chars_of(sql));
    let ghost bare = text::lines_of(sql@).map_values(|l: Seq<char>| uncommented(l));
    let mut out: Vec<char> = Vec::new();
    let mut i: usize = 0;
    assert(out@ =~= joined(bare.take(0)));
    while i < lines.len()
        invariant
            i <= lines@.len(),
            text::texts(lines@) == text::lines_of(sql@),
            bare == text::lines_of(sql@).map_values(|l: Seq<char>| uncommented(l)),
            out@ == joined(bare.take(i as int)),
        decreases lines@.len() - i,
    {
        assert(text::texts(lines@)[i as int] == lines@[i as int]@);
        assert(bare[i as int] == uncommented(lines@[i as int]@));
        assert(bare.take(i + 1).drop_last() =~= bare.take(i as int));
        if i > 0 {
            out.push('\n');
        }
        text::extend(&mut out, &strip_line(&lines[i]));
        if i == 0 {
            assert(bare.take(1)[0] == bare[0]);
            assert(out@ =~= bare[0]);
        }
        i = i + 1;
    }
    assert(bare.take(i as int) =~= bare);
    out
}

/// The statements of SQL text, in order.
pub fn statements(sql: &str) -> (r: Vec<String>)
    ensures
        archive::strings(r@) == statements_of(sql@),
{
    let pieces = text::split(&strip(sql), ';');
    let ghost all = text::texts(pieces@);
    let mut out: Vec<String> = Vec::new();
    let mut i: usize = 0;
    assert(archive::strings(out@) =~= filled(all.take(0)));
    while i < pieces.len()
        invariant
            i <= pieces@.len(),
            all == text::texts(pieces@),
            archive::strings(out@) == filled(all.take(i as int)),
        decreases pieces@.len() - i,
    {
        assert(all.take(i + 1).drop_last() =~= all.take(i as int));
        assert(all.take(i + 1).last() == pieces@[i as int]@);
        let t = text::trim(&pieces[i]);
        if t.len() > 0 {
            let s = text::string_of(&t);
            let ghost held = archive::strings(out@);
            out.push(s);
            assert(archive::strings(out@) =~= held.push(s@));
        }
        i = i + 1;
    }
    assert(all.take(i as int) =~= all);
    out
}

// ---------------------------------------------------------------------------
// Which are due
// ---------------------------------------------------------------------------

/// A change to the layout.
pub struct Migration {
    pub name: String,
    pub statements: Vec<String>,
}

/// The mathematical value of a `Migration`.
pub type MigrationView = (Seq<char>, Seq<Seq<char>>);

impl View for Migration {
    type V = MigrationView;

    open spec fn view(&self) -> MigrationView {
        (self.name@, archive::strings(self.statements@))
    }
}

/// The mathematical values of changes.
pub open spec fn migration_views(v: Seq<Migration>) -> Seq<MigrationView> {
    v.map_values(|m: Migration| m@)
}

/// Names and SQL texts of changes.
pub open spec fn scripts(v: Seq<(&str, &str)>) -> Seq<(Seq<char>, Seq<char>)> {
    v.map_values(|m: (&str, &str)| (m.0@, m.1@))
}

/// The changes among `all` that have not been made, in order.
pub open spec fn due(all: Seq<(Seq<char>, Seq<char>)>, applied: Seq<Seq<char>>) -> Seq<
    MigrationView,
>
    decreases all.len(),
{
    if all.len() == 0 {
        Seq::empty()
    } else {
        let before = due(all.drop_last(), applied);
        if applied.contains(all.last().0) {
            before
        } else {
            before.push((all.last().0, statements_of(all.last().1)))
        }
    }
}

fn is_applied(name: &str, applied: &Vec<String>) -> (r: bool)
    ensures
        r == archive::strings(applied@).contains(name@),
{
    let ghost names = archive::strings(applied@);
    let mut i: usize = 0;
    while i < applied.len()
        invariant
            i <= applied@.len(),
            names == archive::strings(applied@),
            forall|j: int| 0 <= j < i ==> names[j] != name@,
        decreases applied@.len() - i,
    {
        assert(names[i as int] == applied@[i as int]@);
        if text::same(&applied[i], name) {
            return true;
        }
        i = i + 1;
    }
    false
}

/// The changes that have not been made, in order, each as its statements.
pub fn pending(all: &Vec<(&str, &str)>, applied: &Vec<String>) -> (r: Vec<Migration>)
    ensures
        migration_views(r@) == due(scripts(all@), archive::strings(applied@)),
{
    let ghost views = scripts(all@);
    let ghost names = archive::strings(applied@);
    let mut out: Vec<Migration> = Vec::new();
    let mut i: usize = 0;
    assert(migration_views(out@) =~= due(views.take(0), names));
    while i < all.len()
        invariant
            i <= all@.len(),
            views == scripts(all@),
            names == archive::strings(applied@),
            migration_views(out@) == due(views.take(i as int), names),
        decreases all@.len() - i,
    {
        let (name, sql) = all[i];
        assert(views[i as int] == (name@, sql@));
        assert(views.take(i + 1).drop_last() =~= views.take(i as int));
        if !is_applied(name, applied) {
            let m = Migration { name: name.to_owned(), statements: statements(sql) };
            let ghost held = migration_views(out@);
            out.push(m);
            assert(migration_views(out@) =~= held.push(m@));
        }
        i = i + 1;
    }
    assert(views.take(i as int) =~= views);
    out
}

/// Why a change could not be made: its name, what went wrong, and the statement.
pub fn migration_error(name: &str, why: &str, statement: &str) -> (r: Error)
    ensures
        r@ == ErrorView::Database(
            "migration "@ + name@ + " failed: "@ + why@ + "\nstatement: "@ + statement@,
        ),
{
    let head = text::cat4("migration ", name, " failed: ", why);
    Error::Database(text::cat3(&head, "\nstatement: ", statement))
}

/// Once all changes that were due have been made, none is due.
pub proof fn law_migrations_once(
    all: Seq<(Seq<char>, Seq<char>)>,
    applied: Seq<Seq<char>>,
    later: Seq<Seq<char>>,
)
    requires
        forall|i: int| 0 <= i < applied.len() ==> later.contains(#[trigger] applied[i]),
        forall|i: int|
            0 <= i < due(all, applied).len() ==> later.contains(
                (#[trigger] due(all, applied)[i]).0,
            ),
    ensures
        due(all, later).len() == 0,
    decreases all.len(),
{
    if all.len() > 0 {
        let d = due(all, applied);
        let before = due(all.drop_last(), applied);
        let last = all.last();
        assert forall|i: int| 0 <= i < before.len() implies later.contains(
            (#[trigger] before[i]).0,
        ) by {
            assert(d[i] == before[i]);
        }
        law_migrations_once(all.drop_last(), applied, later);
        if applied.contains(last.0) {
            let i = choose|i: int| 0 <= i < applied.len() && applied[i] == last.0;
            assert(later.contains(applied[i]));
        } else {
            assert(d[before.len() as int].0 == last.0);
        }
    }
}

/// A change is due exactly where it has not been made, with the statements of its own text; the
/// changes that come later do not touch the ones before.
pub proof fn law_what_is_due(
    all: Seq<(Seq<char>, Seq<char>)>,
    more: Seq<(Seq<char>, Seq<char>)>,
    applied: Seq<Seq<char>>,
)
    ensures
        due(all + more, applied) == due(all, applied) + due(more, applied),
        forall|name: Seq<char>, sql: Seq<char>|
            due(#[trigger] seq![(name, sql)], applied) == if applied.contains(name) {
                Seq::<MigrationView>::empty()
            } else {
                seq![(name, statements_of(sql))]
            },
    decreases more.len(),
{
    assert forall|name: Seq<char>, sql: Seq<char>|
        due(#[trigger] seq![(name, sql)], applied) == if applied.contains(name) {
            Seq::<MigrationView>::empty()
        } else {
            seq![(name, statements_of(sql))]
        } by {
        let one = seq![(name, sql)];
        assert(one.drop_last() =~= Seq::empty());
        assert(due(one.drop_last(), applied) =~= Seq::empty());
        assert(one.last() == (name, sql));
        assert(Seq::<MigrationView>::empty().push((name, statements_of(sql))) =~= seq![
            (name, statements_of(sql)),
        ]);
    }
    if more.len() == 0 {
        assert(all + more =~= all);
        assert(due(all, applied) + due(more, applied) =~= due(all, applied));
    } else {
        law_what_is_due(all, more.drop_last(), applied);
        assert((all + more).drop_last() =~= all + more.drop_last());
        assert((all + more).last() == more.last());
        assert(due(all + more, applied) =~= due(all, applied) + due(more, applied));
    }
}

/// A comment goes from two dashes to the end of the line; a line without them stays.
pub proof fn law_comment(line: Seq<char>, rest: Seq<char>)
    requires
        forall|i: int| 0 <= i < line.len() ==> line[i] != '-',
    ensures
        uncommented(line) == line,
        uncommented(line + "--"@ + rest) == line,
{
    reveal_strlit("--");
    let whole = line + "--"@ + rest;
    text::lemma_find_from(line, "--"@, 0);
    if let Some(i) = text::find_from(line, "--"@, 0) {
        assert(line.subrange(i, i + 2)[0] == '-');
    }
    text::law_found_where_it_stands(line, "--"@, rest);
    text::lemma_find_from(whole, "--"@, 0);
    let i = text::find_from(whole, "--"@, 0)->0;
    if i < line.len() {
        assert(whole.subrange(i, i + 2)[0] == whole[i]);
        assert(whole[i] == line[i]);
    }
    assert(whole.subrange(line.len() as int, line.len() as int + 2) =~= "--"@);
    assert(text::occurs_at(whole, "--"@, line.len() as int));
    assert(i == line.len());
    assert(whole.take(i) =~= line);
}

/// Lines are put together with one line feed between any two of them.
pub proof fn law_joined(a: Seq<Seq<char>>, b: Seq<Seq<char>>, line: Seq<char>)
    requires
        a.len() > 0,
        b.len() > 0,
    ensures
        joined(a + b) == joined(a) + seq!['\n'] + joined(b),
        joined(seq![line]) == line,
        joined(Seq::empty()) == Seq::<char>::empty(),
    decreases b.len(),
{
    let ab = a + b;
    assert(ab.last() == b.last());
    assert(ab.drop_last() =~= a + b.drop_last());
    if b.len() == 1 {
        assert(ab.drop_last() =~= a);
        assert(joined(ab) =~= joined(a) + seq!['\n'] + joined(b));
    } else {
        law_joined(a, b.drop_last(), line);
        assert(joined(ab) =~= joined(a) + seq!['\n'] + joined(b));
    }
}

/// Of pieces those stay that hold more than white space, in order, each without the white space at
/// its ends.
pub proof fn law_filled(a: Seq<Seq<char>>, b: Seq<Seq<char>>, piece: Seq<char>)
    ensures
        filled(a + b) == filled(a) + filled(b),
        filled(seq![piece]) == if text::trimmed(piece).len() == 0 {
            Seq::<Seq<char>>::empty()
        } else {
            seq![text::trimmed(piece)]
        },
    decreases b.len(),
{
    let one = seq![piece];
    assert(one.drop_last() =~= Seq::empty());
    assert(filled(one.drop_last()) =~= Seq::empty());
    assert(Seq::<Seq<char>>::empty().push(text::trimmed(piece)) =~= seq![text::trimmed(piece)]);
    if b.len() == 0 {
        assert(a + b =~= a);
        assert(filled(a) + filled(b) =~= filled(a));
    } else {
        law_filled(a, b.drop_last(), piece);
        assert((a + b).drop_last() =~= a + b.drop_last());
        assert((a + b).last() == b.last());
        assert(filled(a + b) =~= filled(a) + filled(b));
    }
}

/// Statements stand between semicolons, once each line has lost its comment.
pub proof fn law_statements(sql: Seq<char>, i: int)
    requires
        0 <= i < text::lines_of(sql).len(),
    ensures
        ({
            let bare = Seq::new(
                text::lines_of(sql).len(),
                |k: int| uncommented(text::lines_of(sql)[k]),
            );
            statements_of(sql) == filled(text::split_on(joined(bare), ';'))
        }),
        forall|k: int|
            0 <= k < statements_of(sql).len() ==> (#[trigger] statements_of(sql)[k]).len() > 0,
{
    let bare = Seq::new(text::lines_of(sql).len(), |k: int| uncommented(text::lines_of(sql)[k]));
    assert(text::lines_of(sql).map_values(|l: Seq<char>| uncommented(l)) =~= bare);
    lemma_filled_holds(text::split_on(stripped(sql), ';'));
}

proof fn lemma_filled_holds(pieces: Seq<Seq<char>>)
    ensures
        forall|k: int| 0 <= k < filled(pieces).len() ==> (#[trigger] filled(pieces)[k]).len() > 0,
    decreases pieces.len(),
{
    if pieces.len() > 0 {
        let before = filled(pieces.drop_last());
        lemma_filled_holds(pieces.drop_last());
        assert forall|k: int| 0 <= k < filled(pieces).len() implies (
        #[trigger] filled(pieces)[k]).len() > 0 by {
            if k < before.len() {
                assert(filled(pieces)[k] == before[k]);
            }
        }
    }
}

/// Changes keep their order, their names and their statements.
pub proof fn law_changes_as_given(v: Seq<Migration>, all: Seq<(&str, &str)>, i: int)
    requires
        0 <= i,
    ensures
        migration_views(v).len() == v.len() && scripts(all).len() == all.len(),
        i < v.len() ==> migration_views(v)[i].0 == v[i].name@ && migration_views(v)[i].1
            == archive::strings(v[i].statements@),
        i < all.len() ==> scripts(all)[i] == (all[i].0@, all[i].1@),
{
}

} // verus!
