//! Rows of a table: looking them up, counting them, giving them numbers.
use vstd::prelude::*;

verus! {

/// A row that can be copied out of its table.
pub trait Record: View + Sized {
    fn copy(&self) -> (r: Self)
        ensures
            r@ == self@,
    ;
}

/// A row with a number of its own.
pub trait Row: Record {
    spec fn row_id(v: Self::V) -> i64;

    fn id(&self) -> (r: i64)
        ensures
            r == Self::row_id(self@),
    ;
}

/// The mathematical values of rows.
pub open spec fn views<T: View>(rows: Seq<T>) -> Seq<T::V> {
    rows.map_values(|t: T| t@)
}

/// The first row for which `p` holds.
pub open spec fn find_row<V>(rows: Seq<V>, p: spec_fn(V) -> bool) -> Option<int>
    decreases rows.len(),
{
    if rows.len() == 0 {
        None
    } else {
        match find_row(rows.drop_last(), p) {
            Some(i) => Some(i),
            None => if p(rows.last()) {
                Some(rows.len() - 1)
            } else {
                None
            },
        }
    }
}

/// What `find_row` gives back is the first match.
pub proof fn lemma_find_row<V>(rows: Seq<V>, p: spec_fn(V) -> bool)
    ensures
        find_row(rows, p) matches Some(i) ==> 0 <= i < rows.len() && p(rows[i]) && (forall|j: int|
            0 <= j < i ==> !p(#[trigger] rows[j])),
        find_row(rows, p) is None ==> (forall|j: int| 0 <= j < rows.len() ==> !p(#[trigger] rows[j])),
    decreases rows.len(),
{
    if rows.len() > 0 {
        lemma_find_row(rows.drop_last(), p);
        assert forall|j: int| 0 <= j < rows.len() - 1 implies rows.drop_last()[j] == rows[j] by {
        }
        if find_row(rows.drop_last(), p) is None {
            assert forall|j: int| 0 <= j < rows.len() - 1 implies !p(#[trigger] rows[j]) by {
                assert(!p(rows.drop_last()[j]));
            }
        } else {
            let i = find_row(rows.drop_last(), p)->0;
            assert forall|j: int| 0 <= j < i implies !p(#[trigger] rows[j]) by {
                assert(!p(rows.drop_last()[j]));
            }
        }
    }
}

/// The row at which a search ends is the one `find_row` gives.
pub proof fn lemma_found<V>(rows: Seq<V>, p: spec_fn(V) -> bool, i: int)
    requires
        0 <= i < rows.len(),
        p(rows[i]),
        forall|j: int| 0 <= j < i ==> !p(#[trigger] rows[j]),
    ensures
        find_row(rows, p) == Some(i),
{
    lemma_find_row(rows, p);
}

/// The first row for which `p` holds.
pub fn position<T: Record, F: Fn(&T) -> bool>(rows: &Vec<T>, f: F, Ghost(p): Ghost<
    spec_fn(T::V) -> bool,
>) -> (r: Option<usize>)
    requires
        forall|t: &T| call_requires(f, (t,)),
        forall|t: &T, b: bool| call_ensures(f, (t,), b) ==> b == p(t@),
    ensures
        r matches Some(i) ==> i < rows@.len() && find_row(views(rows@), p) == Some(i as int),
        r is None ==> find_row(views(rows@), p) is None,
{
    let ghost v = views(rows@);
    let mut i: usize = 0;
    while i < rows.len()
        invariant
            i <= rows@.len(),
            v == views(rows@),
            forall|t: &T| call_requires(f, (t,)),
            forall|t: &T, b: bool| call_ensures(f, (t,), b) ==> b == p(t@),
            forall|j: int| 0 <= j < i ==> !p(#[trigger] v[j]),
        decreases rows@.len() - i,
    {
        if f(&rows[i]) {
            proof {
                lemma_found(v, p, i as int);
            }
            return Some(i);
        }
        i = i + 1;
    }
    proof {
        lemma_find_row(v, p);
    }
    None
}

/// The rows for which `p` holds, in order.
pub fn select<T: Record, F: Fn(&T) -> bool>(rows: &Vec<T>, f: F, Ghost(p): Ghost<
    spec_fn(T::V) -> bool,
>) -> (r: Vec<T>)
    requires
        forall|t: &T| call_requires(f, (t,)),
        forall|t: &T, b: bool| call_ensures(f, (t,), b) ==> b == p(t@),
    ensures
        views(r@) == views(rows@).filter(p),
{
    let ghost v = views(rows@);
    let mut out: Vec<T> = Vec::new();
    let mut i: usize = 0;
    proof {
        reveal(Seq::filter);
        assert(views(out@) =~= v.take(0).filter(p));
    }
    while i < rows.len()
        invariant
            i <= rows@.len(),
            v == views(rows@),
            forall|t: &T| call_requires(f, (t,)),
            forall|t: &T, b: bool| call_ensures(f, (t,), b) ==> b == p(t@),
            views(out@) == v.take(i as int).filter(p),
        decreases rows@.len() - i,
    {
        proof {
            reveal(Seq::filter);
            assert(v.take(i + 1).drop_last() =~= v.take(i as int));
            assert(v.take(i + 1).last() == rows@[i as int]@);
        }
        if f(&rows[i]) {
            let ghost held = out@;
            out.push(rows[i].copy());
            assert(views(out@) =~= views(held).push(rows@[i as int]@));
        }
        i = i + 1;
    }
    assert(v.take(i as int) =~= v);
    out
}

/// How many rows there are for which `p` holds.
pub fn tally<T: Record, F: Fn(&T) -> bool>(rows: &Vec<T>, f: F, Ghost(p): Ghost<
    spec_fn(T::V) -> bool,
>) -> (r: usize)
    requires
        forall|t: &T| call_requires(f, (t,)),
        forall|t: &T, b: bool| call_ensures(f, (t,), b) ==> b == p(t@),
    ensures
        r == views(rows@).filter(p).len(),
{
    let ghost v = views(rows@);
    let mut n: usize = 0;
    let mut i: usize = 0;
    proof {
        reveal(Seq::filter);
        assert(v.take(0).filter(p).len() == 0);
    }
    while i < rows.len()
        invariant
            i <= rows@.len(),
            n <= i,
            v == views(rows@),
            forall|t: &T| call_requires(f, (t,)),
            forall|t: &T, b: bool| call_ensures(f, (t,), b) ==> b == p(t@),
            n == v.take(i as int).filter(p).len(),
        decreases rows@.len() - i,
    {
        proof {
            reveal(Seq::filter);
            assert(v.take(i + 1).drop_last() =~= v.take(i as int));
            assert(v.take(i + 1).last() == rows@[i as int]@);
        }
        if f(&rows[i]) {
            n = n + 1;
        }
        i = i + 1;
    }
    assert(v.take(i as int) =~= v);
    n
}

// ---------------------------------------------------------------------------
// Numbers
// ---------------------------------------------------------------------------

/// The numbers of rows.
pub open spec fn ids<T: Row>(rows: Seq<T::V>) -> Seq<i64> {
    rows.map_values(|v: T::V| T::row_id(v))
}

/// The largest of `s`, which is not empty.
pub open spec fn largest(s: Seq<i64>) -> i64
    decreases s.len(),
{
    if s.len() <= 1 {
        s[0]
    } else if largest(s.drop_last()) >= s.last() {
        largest(s.drop_last())
    } else {
        s.last()
    }
}

/// The number of the next row: one more than the largest, one in an empty table. There is none
/// once the largest number has been given out.
pub open spec fn next_id(s: Seq<i64>) -> Option<i64> {
    if s.len() == 0 {
        Some(1i64)
    } else if largest(s) == i64::MAX {
        None
    } else {
        Some((largest(s) + 1) as i64)
    }
}

/// The number of the next row.
pub fn fresh_id<T: Row>(rows: &Vec<T>) -> (r: Option<i64>)
    ensures
        r == next_id(ids::<T>(views(rows@))),
{
    if rows.len() == 0 {
        return Some(1);
    }
    let ghost v = ids::<T>(views(rows@));
    let mut best: i64 = rows[0].id();
    let mut i: usize = 1;
    assert(v.take(1)[0] == best);
    while i < rows.len()
        invariant
            1 <= i <= rows@.len(),
            v == ids::<T>(views(rows@)),
            best == largest(v.take(i as int)),
        decreases rows@.len() - i,
    {
        let k: i64 = rows[i].id();
        assert(v.take(i + 1).drop_last() =~= v.take(i as int));
        assert(v.take(i + 1).last() == k);
        if best < k {
            best = k;
        }
        i = i + 1;
    }
    assert(v.take(i as int) =~= v);
    if best == i64::MAX {
        None
    } else {
        Some(best + 1)
    }
}

pub proof fn lemma_largest(s: Seq<i64>)
    requires
        s.len() > 0,
    ensures
        forall|i: int| 0 <= i < s.len() ==> #[trigger] s[i] <= largest(s),
    decreases s.len(),
{
    if s.len() > 1 {
        lemma_largest(s.drop_last());
        assert forall|i: int| 0 <= i < s.len() implies #[trigger] s[i] <= largest(s) by {
            if i < s.len() - 1 {
                assert(s.drop_last()[i] <= largest(s.drop_last()));
            }
        }
    }
}

/// The row with this number.
pub open spec fn numbered<T: Row>(id: i64) -> spec_fn(T::V) -> bool {
    |v: T::V| T::row_id(v) == id
}

/// The row with this number.
pub fn position_of<T: Row>(rows: &Vec<T>, id: i64) -> (r: Option<usize>)
    ensures
        r matches Some(i) ==> i < rows@.len() && find_row(views(rows@), numbered::<T>(id)) == Some(
            i as int,
        ),
        r is None ==> find_row(views(rows@), numbered::<T>(id)) is None,
{
    let f = |t: &T| -> (b: bool)
        ensures
            b == (T::row_id(t@) == id),
    {
        t.id() == id
    };
    position(rows, f, Ghost(numbered::<T>(id)))
}

/// `rows` with `new` in place of the row at `i`.
pub proof fn lemma_views_set<T: View>(rows: Seq<T>, i: int, new: T)
    requires
        0 <= i < rows.len(),
    ensures
        views(rows.update(i, new)) == views(rows).update(i, new@),
{
    assert(views(rows.update(i, new)) =~= views(rows).update(i, new@));
}

/// `rows` with `new` behind the last of them.
pub proof fn lemma_views_push<T: View>(rows: Seq<T>, new: T)
    ensures
        views(rows.push(new)) == views(rows).push(new@),
{
    assert(views(rows.push(new)) =~= views(rows).push(new@));
}

/// `rows` without the row at `i`.
pub proof fn lemma_views_remove<T: View>(rows: Seq<T>, i: int)
    requires
        0 <= i < rows.len(),
    ensures
        views(rows.remove(i)) == views(rows).remove(i),
{
    assert(views(rows.remove(i)) =~= views(rows).remove(i));
}

// ---------------------------------------------------------------------------
// Order
// ---------------------------------------------------------------------------

/// Whether each row comes before the later ones or ties with them.
pub open spec fn ordered<V>(rows: Seq<V>, q: spec_fn(V, V) -> bool) -> bool {
    forall|i: int, j: int| #![trigger rows[i], rows[j]] 0 <= i < j < rows.len() ==> q(rows[i], rows[j])
}

/// The same rows, perhaps in another order.
pub open spec fn same_rows<V>(a: Seq<V>, b: Seq<V>) -> bool {
    a.to_multiset() == b.to_multiset()
}

/// The rows in the order `q`, which is total and transitive.
pub fn sorted<T: Record, F: Fn(&T, &T) -> bool>(rows: Vec<T>, f: F, Ghost(q): Ghost<
    spec_fn(T::V, T::V) -> bool,
>) -> (r: Vec<T>)
    requires
        forall|a: &T, b: &T| call_requires(f, (a, b)),
        forall|a: &T, b: &T, c: bool| call_ensures(f, (a, b), c) ==> c == q(a@, b@),
        forall|a: T::V, b: T::V| #[trigger] q(a, b) || q(b, a),
        forall|a: T::V, b: T::V, c: T::V| #[trigger] q(a, b) && #[trigger] q(b, c) ==> q(a, c),
    ensures
        ordered(views(r@), q),
        same_rows(views(r@), views(rows@)),
{
    let ghost v = views(rows@);
    let mut out: Vec<T> = Vec::new();
    let mut i: usize = 0;
    assert(views(out@) =~= v.take(0));
    while i < rows.len()
        invariant
            i <= rows@.len(),
            v == views(rows@),
            forall|a: &T, b: &T| call_requires(f, (a, b)),
            forall|a: &T, b: &T, c: bool| call_ensures(f, (a, b), c) ==> c == q(a@, b@),
            forall|a: T::V, b: T::V| #[trigger] q(a, b) || q(b, a),
            forall|a: T::V, b: T::V, c: T::V| #[trigger] q(a, b) && #[trigger] q(b, c) ==> q(a, c),
            out@.len() == i,
            ordered(views(out@), q),
            same_rows(views(out@), v.take(i as int)),
        decreases rows@.len() - i,
    {
        let x = rows[i].copy();
        let ghost held = views(out@);
        let mut k: usize = out.len();
        while k > 0 && !f(&out[k - 1], &x)
            invariant
                k <= out@.len(),
                held == views(out@),
                forall|a: &T, b: &T| call_requires(f, (a, b)),
                forall|a: &T, b: &T, c: bool| call_ensures(f, (a, b), c) ==> c == q(a@, b@),
                forall|j: int| k <= j < held.len() ==> !q(#[trigger] held[j], x@),
            decreases k,
        {
            k = k - 1;
        }
        out.insert(k, x);
        proof {
            let now = views(out@);
            assert(now =~= held.insert(k as int, x@));
            assert forall|a: int, b: int|
                #![trigger now[a], now[b]]
                0 <= a < b < now.len() implies q(now[a], now[b]) by {
                let a1 = if a < k {
                    a
                } else {
                    a - 1
                };
                let b1 = if b < k {
                    b
                } else {
                    b - 1
                };
                if a == k {
                    assert(now[b] == held[b1]);
                    assert(!q(held[b1], x@));
                } else if b == k {
                    assert(now[a] == held[a]);
                    if a < k - 1 {
                        assert(q(held[a], held[k - 1]));
                    }
                    assert(q(held[k - 1], x@));
                } else {
                    assert(now[a] == held[a1] && now[b] == held[b1]);
                }
            }
            vstd::seq_lib::to_multiset_insert(held, k as int, x@);
            assert(v.take(i + 1) =~= v.take(i as int).push(v[i as int]));
            v.take(i as int).to_multiset_ensures();
        }
        i = i + 1;
    }
    assert(v.take(i as int) =~= v);
    out
}

// ---------------------------------------------------------------------------
// References and distinctness
// ---------------------------------------------------------------------------

/// Whether `p` holds for one of the rows.
pub open spec fn any<V>(rows: Seq<V>, p: spec_fn(V) -> bool) -> bool {
    exists|i: int| 0 <= i < rows.len() && p(#[trigger] rows[i])
}

/// Whether `p` holds for one of the rows.
pub fn any_row<T: Record, F: Fn(&T) -> bool>(rows: &Vec<T>, f: F, Ghost(p): Ghost<
    spec_fn(T::V) -> bool,
>) -> (r: bool)
    requires
        forall|t: &T| call_requires(f, (t,)),
        forall|t: &T, b: bool| call_ensures(f, (t,), b) ==> b == p(t@),
    ensures
        r == any(views(rows@), p),
{
    proof {
        lemma_find_row(views(rows@), p);
    }
    position(rows, f, Ghost(p)).is_some()
}

/// Whether there is a row with this number.
pub open spec fn known<T: Row>(rows: Seq<T::V>, id: i64) -> bool {
    exists|i: int| 0 <= i < rows.len() && T::row_id(#[trigger] rows[i]) == id
}

/// Whether there is a row with this number.
pub fn is_known<T: Row>(rows: &Vec<T>, id: i64) -> (r: bool)
    ensures
        r == known::<T>(views(rows@), id),
{
    proof {
        lemma_find_row(views(rows@), numbered::<T>(id));
    }
    position_of(rows, id).is_some()
}

/// Whether the numbers grow from row to row.
pub open spec fn increasing<T: Row>(rows: Seq<T::V>) -> bool {
    forall|i: int, j: int|
        #![trigger rows[i], rows[j]]
        0 <= i < j < rows.len() ==> T::row_id(rows[i]) < T::row_id(rows[j])
}

/// A row behind the last with the next number: the numbers still grow, and none is forgotten.
pub proof fn lemma_push<T: Row>(rows: Seq<T::V>, v: T::V)
    ensures
        next_id(ids::<T>(rows)) == Some(T::row_id(v)) ==> forall|i: int|
            0 <= i < rows.len() ==> T::row_id(#[trigger] rows[i]) < T::row_id(v),
        increasing::<T>(rows) && next_id(ids::<T>(rows)) == Some(T::row_id(v)) ==> increasing::<T>(
            rows.push(v),
        ),
        forall|id: i64| known::<T>(rows, id) ==> #[trigger] known::<T>(rows.push(v), id),
        known::<T>(rows.push(v), T::row_id(v)),
{
    if rows.len() > 0 {
        lemma_largest(ids::<T>(rows));
        assert forall|i: int| 0 <= i < rows.len() implies T::row_id(#[trigger] rows[i]) <= largest(
            ids::<T>(rows),
        ) by {
            assert(ids::<T>(rows)[i] == T::row_id(rows[i]));
        }
    }
    assert forall|id: i64| known::<T>(rows, id) implies #[trigger] known::<T>(rows.push(v), id) by {
        let i = choose|i: int| 0 <= i < rows.len() && T::row_id(#[trigger] rows[i]) == id;
        assert(rows.push(v)[i] == rows[i]);
    }
    assert(rows.push(v)[rows.len() as int] == v);
}

/// A row in place of another with the same number.
pub proof fn lemma_update<T: Row>(rows: Seq<T::V>, i: int, v: T::V)
    requires
        0 <= i < rows.len(),
        T::row_id(v) == T::row_id(rows[i]),
    ensures
        increasing::<T>(rows) ==> increasing::<T>(rows.update(i, v)),
        forall|id: i64| known::<T>(rows, id) ==> #[trigger] known::<T>(rows.update(i, v), id),
{
    assert forall|id: i64| known::<T>(rows, id) implies #[trigger] known::<T>(
        rows.update(i, v),
        id,
    ) by {
        let k = choose|k: int| 0 <= k < rows.len() && T::row_id(#[trigger] rows[k]) == id;
        assert(T::row_id(rows.update(i, v)[k]) == id);
    }
}

/// The rows without one of them.
pub proof fn lemma_remove<T: Row>(rows: Seq<T::V>, i: int)
    requires
        0 <= i < rows.len(),
    ensures
        increasing::<T>(rows) ==> increasing::<T>(rows.remove(i)),
        forall|id: i64|
            known::<T>(rows, id) && id != T::row_id(rows[i]) ==> #[trigger] known::<T>(
                rows.remove(i),
                id,
            ),
{
    assert forall|id: i64| known::<T>(rows, id) && id != T::row_id(rows[i]) implies #[trigger] known::<
        T,
    >(rows.remove(i), id) by {
        let k = choose|k: int| 0 <= k < rows.len() && T::row_id(#[trigger] rows[k]) == id;
        if k < i {
            assert(rows.remove(i)[k] == rows[k]);
        } else {
            assert(rows.remove(i)[k - 1] == rows[k]);
        }
    }
}

/// The row that a search by number finds has that number.
pub proof fn lemma_numbered<T: Row>(rows: Seq<T::V>, id: i64)
    ensures
        find_row(rows, numbered::<T>(id)) matches Some(i) ==> 0 <= i < rows.len() && T::row_id(
            rows[i],
        ) == id,
        find_row(rows, numbered::<T>(id)) is Some <==> known::<T>(rows, id),
{
    lemma_find_row(rows, numbered::<T>(id));
    if let Some(i) = find_row(rows, numbered::<T>(id)) {
        assert(numbered::<T>(id)(rows[i]));
    } else {
        assert forall|i: int| 0 <= i < rows.len() implies T::row_id(#[trigger] rows[i]) != id by {
            assert(!numbered::<T>(id)(rows[i]));
        }
    }
}

// ---------------------------------------------------------------------------
// Copies
// ---------------------------------------------------------------------------

/// Whether `r` is the first row for which `p` holds, or there is none.
pub open spec fn found<T: Record>(r: Option<T>, rows: Seq<T::V>, p: spec_fn(T::V) -> bool) -> bool {
    match find_row(rows, p) {
        Some(i) => r matches Some(t) && t@ == rows[i],
        None => r is None,
    }
}

/// A copy of the row that a search has found.
pub fn at<T: Record>(rows: &Vec<T>, i: Option<usize>, Ghost(p): Ghost<spec_fn(T::V) -> bool>) -> (r:
    Option<T>)
    requires
        i matches Some(k) ==> k < rows@.len() && find_row(views(rows@), p) == Some(k as int),
        i is None ==> find_row(views(rows@), p) is None,
    ensures
        found(r, views(rows@), p),
{
    match i {
        Some(k) => Some(rows[k].copy()),
        None => None,
    }
}

/// Copies of all rows.
pub fn all<T: Record>(rows: &Vec<T>) -> (r: Vec<T>)
    ensures
        views(r@) == views(rows@),
{
    let mut out: Vec<T> = Vec::new();
    let mut i: usize = 0;
    assert(views(out@) =~= views(rows@).take(0));
    while i < rows.len()
        invariant
            i <= rows@.len(),
            views(out@) == views(rows@).take(i as int),
        decreases rows@.len() - i,
    {
        let ghost held = views(out@);
        out.push(rows[i].copy());
        assert(views(out@) =~= held.push(rows@[i as int]@));
        assert(views(rows@).take(i + 1) =~= views(rows@).take(i as int).push(rows@[i as int]@));
        i = i + 1;
    }
    assert(views(rows@).take(i as int) =~= views(rows@));
    out
}

/// Where none is counted, there is none.
pub proof fn lemma_none<V>(rows: Seq<V>, p: spec_fn(V) -> bool)
    ensures
        rows.filter(p).len() == 0 <==> !any(rows, p),
    decreases rows.len(),
{
    reveal(Seq::filter);
    if rows.len() > 0 {
        lemma_none(rows.drop_last(), p);
        if any(rows.drop_last(), p) {
            let i = choose|i: int| 0 <= i < rows.len() - 1 && p(#[trigger] rows.drop_last()[i]);
            assert(p(rows[i]));
        }
        if p(rows.last()) {
            assert(p(rows[rows.len() - 1]));
        }
        if any(rows, p) && !p(rows.last()) {
            let i = choose|i: int| 0 <= i < rows.len() && p(#[trigger] rows[i]);
            assert(p(rows.drop_last()[i]));
        }
    }
}

// ---------------------------------------------------------------------------
// Laws
// ---------------------------------------------------------------------------

/// The same rows are the same in number, and each is in both.
pub proof fn law_same_rows<V>(list: Seq<V>, rows: Seq<V>)
    requires
        same_rows(list, rows),
    ensures
        list.len() == rows.len(),
        forall|v: V| list.contains(v) <==> rows.contains(v),
{
    list.to_multiset_ensures();
    rows.to_multiset_ensures();
    assert forall|v: V| list.contains(v) <==> rows.contains(v) by {
        assert(list.contains(v) <==> list.to_multiset().count(v) > 0);
        assert(rows.contains(v) <==> rows.to_multiset().count(v) > 0);
    }
}

/// Of the rows for which `p` holds, none is missing and no other is among them.
pub proof fn law_selected_rows<V>(list: Seq<V>, rows: Seq<V>, p: spec_fn(V) -> bool)
    requires
        same_rows(list, rows.filter(p)),
    ensures
        list.len() == rows.filter(p).len(),
        list.len() <= rows.len(),
        forall|v: V| list.contains(v) <==> rows.contains(v) && p(v),
{
    law_same_rows(list, rows.filter(p));
    lemma_filter(rows, p);
}

proof fn lemma_filter<V>(rows: Seq<V>, p: spec_fn(V) -> bool)
    ensures
        rows.filter(p).len() <= rows.len(),
        forall|v: V| rows.filter(p).contains(v) <==> rows.contains(v) && p(v),
    decreases rows.len(),
{
    reveal(Seq::filter);
    if rows.len() > 0 {
        let before = rows.drop_last();
        let kept = before.filter(p);
        lemma_filter(before, p);
        assert forall|v: V| rows.filter(p).contains(v) <==> rows.contains(v) && p(v) by {
            assert(rows.contains(v) <==> before.contains(v) || v == rows.last()) by {
                if rows.contains(v) {
                    let i = choose|i: int| 0 <= i < rows.len() && rows[i] == v;
                    if i < rows.len() - 1 {
                        assert(before[i] == v);
                    }
                }
                if before.contains(v) {
                    let i = choose|i: int| 0 <= i < before.len() && before[i] == v;
                    assert(rows[i] == v);
                }
                assert(rows[rows.len() - 1] == rows.last());
            }
            if p(rows.last()) {
                let all = kept.push(rows.last());
                assert(all.contains(v) <==> kept.contains(v) || v == rows.last()) by {
                    if all.contains(v) {
                        let i = choose|i: int| 0 <= i < all.len() && all[i] == v;
                        if i < kept.len() {
                            assert(kept[i] == v);
                        }
                    }
                    if kept.contains(v) {
                        let i = choose|i: int| 0 <= i < kept.len() && kept[i] == v;
                        assert(all[i] == v);
                    }
                    assert(all[kept.len() as int] == rows.last());
                }
            }
        }
    }
}

/// In an ordered list no row stands behind one that it comes before.
pub proof fn law_ordered<V>(list: Seq<V>, q: spec_fn(V, V) -> bool, i: int, j: int)
    requires
        ordered(list, q),
        0 <= i < j < list.len(),
    ensures
        q(list[i], list[j]),
{
}

/// What is found is the first row for which `p` holds, and nothing is found only where there is
/// none.
pub proof fn law_found<T: Record>(r: Option<T>, rows: Seq<T::V>, p: spec_fn(T::V) -> bool)
    requires
        found(r, rows, p),
    ensures
        match r {
            Some(t) => p(t@) && exists|i: int|
                0 <= i < rows.len() && #[trigger] rows[i] == t@ && forall|j: int|
                    0 <= j < i ==> !p(#[trigger] rows[j]),
            None => forall|j: int| 0 <= j < rows.len() ==> !p(#[trigger] rows[j]),
        },
{
    lemma_find_row(rows, p);
    if let Some(i) = find_row(rows, p) {
        assert(rows[i] == rows[i]);
    }
}

proof fn lemma_largest_is_there(s: Seq<i64>)
    requires
        s.len() > 0,
    ensures
        s.contains(largest(s)),
    decreases s.len(),
{
    if s.len() > 1 {
        lemma_largest_is_there(s.drop_last());
        let i = choose|i: int| 0 <= i < s.len() - 1 && s.drop_last()[i] == largest(s.drop_last());
        assert(s[i] == largest(s.drop_last()));
        assert(s[s.len() - 1] == s.last());
    } else {
        assert(s[0] == largest(s));
    }
}

/// Rows are numbered from one on: a new number is one more than the largest in use.
pub proof fn law_next_number(s: Seq<i64>)
    ensures
        s.len() == 0 ==> next_id(s) == Some(1i64),
        next_id(s) matches Some(n) ==> (forall|i: int| 0 <= i < s.len() ==> #[trigger] s[i] < n),
        next_id(s) matches Some(n) ==> s.len() > 0 ==> s.contains((n - 1) as i64),
        next_id(s) is None ==> s.contains(i64::MAX),
{
    if s.len() > 0 {
        lemma_largest(s);
        lemma_largest_is_there(s);
    }
}

/// A number belongs to one row: the search for it ends there.
pub proof fn law_one_row_per_number<T: Row>(rows: Seq<T::V>, i: int)
    requires
        increasing::<T>(rows),
        0 <= i < rows.len(),
    ensures
        find_row(rows, numbered::<T>(T::row_id(rows[i]))) == Some(i),
        forall|k: int|
            0 <= k < rows.len() && k != i ==> T::row_id(#[trigger] rows[k]) != T::row_id(rows[i]),
{
    let id = T::row_id(rows[i]);
    assert(numbered::<T>(id)(rows[i]));
    assert forall|k: int| 0 <= k < rows.len() && k != i implies T::row_id(#[trigger] rows[k])
        != id by {
        if k < i {
            assert(T::row_id(rows[k]) < T::row_id(rows[i]));
        } else {
            assert(T::row_id(rows[i]) < T::row_id(rows[k]));
        }
    }
    lemma_find_row(rows, numbered::<T>(id));
    let k = find_row(rows, numbered::<T>(id))->0;
    assert(numbered::<T>(id)(rows[k]));
}

} // verus!
