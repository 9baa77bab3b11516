//! The 95th percentile of the traffic samples of a month.
//!
//! Samples are compared, never added: each stands for a rate by an integer that orders as the rate
//! does, zero for no traffic.
use vstd::prelude::*;

verus! {

/// A sample: the rate that was measured, and the rate that the counters give.
#[derive(Debug, Clone, Copy)]
pub struct Sample {
    pub total: Option<i64>,
    pub delta: Option<i64>,
}

/// The rate of a sample: the measured one, else what the counters give where there was traffic.
pub open spec fn rate_of(s: Sample) -> Option<i64> {
    match s.total {
        Some(t) => Some(t),
        None => match s.delta {
            Some(d) => if d > 0 {
                Some(d)
            } else {
                None
            },
            None => None,
        },
    }
}

/// The rates of the samples that have one.
pub open spec fn rates_of(s: Seq<Sample>) -> Seq<i64>
    decreases s.len(),
{
    if s.len() == 0 {
        Seq::empty()
    } else {
        match rate_of(s.last()) {
            Some(r) => rates_of(s.drop_last()).push(r),
            None => rates_of(s.drop_last()),
        }
    }
}

/// How many of `s` are less than `b`.
pub open spec fn below(s: Seq<i64>, b: int) -> nat
    decreases s.len(),
{
    if s.len() == 0 {
        0
    } else if s.last() < b {
        below(s.drop_last(), b) + 1
    } else {
        below(s.drop_last(), b)
    }
}

/// The place of the 95th percentile among `n` sorted values, counted from zero: nineteen
/// twentieths of the way, rounded up.
pub open spec fn rank(n: nat) -> int {
    (19 * n + 19) / 20 - 1
}

/// Whether `v` is the 95th percentile of `s`: sorted, the place `rank` would hold it.
pub open spec fn is_percentile(s: Seq<i64>, v: i64) -> bool {
    below(s, v as int) <= rank(s.len()) < below(s, v + 1)
}

/// Whether `s` does not descend.
pub open spec fn ascending(s: Seq<i64>) -> bool {
    forall|i: int, j: int| #![trigger s[i], s[j]] 0 <= i <= j < s.len() ==> s[i] <= s[j]
}

proof fn lemma_below_insert(s: Seq<i64>, k: int, x: i64, b: int)
    requires
        0 <= k <= s.len(),
    ensures
        below(s.insert(k, x), b) == below(s, b) + (if x < b {
            1nat
        } else {
            0
        }),
    decreases s.len() - k,
{
    let t = s.insert(k, x);
    if k == s.len() {
        assert(t.drop_last() =~= s);
    } else {
        assert(t.last() == s.last());
        assert(t.drop_last() =~= s.drop_last().insert(k, x));
        lemma_below_insert(s.drop_last(), k, x, b);
    }
}

proof fn lemma_below_bounds(s: Seq<i64>, b: int, k: int)
    requires
        ascending(s),
        0 <= k <= s.len(),
    ensures
        k < s.len() && s[k] >= b ==> below(s, b) <= k,
        k > 0 && s[k - 1] < b ==> below(s, b) >= k,
    decreases s.len(),
{
    if s.len() > 0 {
        let t = s.drop_last();
        if k < s.len() {
            lemma_below_bounds(t, b, k);
            if s[k] >= b {
                assert(s.last() >= s[k]);
                if k == t.len() {
                    lemma_below_most(t, b);
                }
            }
        } else {
            if s[k - 1] < b && t.len() > 0 {
                assert(t[t.len() - 1] <= s.last());
                lemma_below_bounds(t, b, t.len() as int);
            }
        }
    }
}

proof fn lemma_below_most(s: Seq<i64>, b: int)
    ensures
        below(s, b) <= s.len(),
    decreases s.len(),
{
    if s.len() > 0 {
        lemma_below_most(s.drop_last(), b);
    }
}

/// The values in ascending order.
fn sort(v: &Vec<i64>) -> (r: Vec<i64>)
    ensures
        ascending(r@),
        r@.len() == v@.len(),
        forall|b: int| #[trigger] below(r@, b) == below(v@, b),
{
    let mut out: Vec<i64> = Vec::new();
    let mut i: usize = 0;
    while i < v.len()
        invariant
            i <= v@.len(),
            out@.len() == i,
            ascending(out@),
            forall|b: int| #[trigger] below(out@, b) == below(v@.take(i as int), b),
        decreases v@.len() - i,
    {
        let x: i64 = v[i];
        let mut k: usize = out.len();
        while k > 0 && out[k - 1] > x
            invariant
                k <= out@.len(),
                forall|j: int| k <= j < out@.len() ==> out@[j] > x,
            decreases k,
        {
            k = k - 1;
        }
        let ghost held = out@;
        out.insert(k, x);
        proof {
            assert(out@ =~= held.insert(k as int, x));
            assert forall|a: int, b: int|
                #![trigger out@[a], out@[b]]
                0 <= a <= b < out@.len() implies out@[a] <= out@[b] by {
                if a < k && b > k {
                    assert(held[a] <= held[b - 1]);
                } else if a > k {
                    assert(held[a - 1] <= held[b - 1]);
                } else if b < k {
                    assert(held[a] <= held[b]);
                } else if a < k && b == k {
                    assert(held[a] <= held[k - 1]);
                } else if a == k && b > k {
                    assert(held[b - 1] > x);
                }
            }
            assert(v@.take(i + 1).drop_last() =~= v@.take(i as int));
            assert(v@.take(i + 1).last() == x);
            assert forall|b: int| #[trigger] below(out@, b) == below(v@.take(i + 1), b) by {
                lemma_below_insert(held, k as int, x, b);
                assert(below(held, b) == below(v@.take(i as int), b));
            }
        }
        i = i + 1;
    }
    assert(v@.take(i as int) =~= v@);
    out
}

/// The rates of the samples that have one.
fn collect(samples: &Vec<Sample>) -> (r: Vec<i64>)
    ensures
        r@ == rates_of(samples@),
        r@.len() <= samples@.len(),
{
    let mut out: Vec<i64> = Vec::new();
    let mut i: usize = 0;
    assert(out@ =~= rates_of(samples@.take(0)));
    while i < samples.len()
        invariant
            i <= samples@.len(),
            out@.len() <= i,
            out@ == rates_of(samples@.take(i as int)),
        decreases samples@.len() - i,
    {
        let s = samples[i];
        assert(samples@.take(i + 1).drop_last() =~= samples@.take(i as int));
        assert(samples@.take(i + 1).last() == s);
        match s.total {
            Some(t) => out.push(t),
            None => {
                if let Some(d) = s.delta {
                    if d > 0 {
                        out.push(d);
                    }
                }
            },
        }
        i = i + 1;
    }
    assert(samples@.take(i as int) =~= samples@);
    out
}

/// The 95th percentile of the samples; nothing where none of them has a rate.
pub fn percentile_95(samples: &Vec<Sample>) -> (r: Option<i64>)
    ensures
        r is Some <==> rates_of(samples@).len() > 0,
        r matches Some(v) ==> is_percentile(rates_of(samples@), v),
{
    let rates = collect(samples);
    let n: usize = rates.len();
    if n == 0 {
        return None;
    }
    let place: usize = n - 1 - n / 20;
    let s = sort(&rates);
    proof {
        assert(place == rank(n as nat));
        let v = s@[place as int];
        assert(below(s@, v as int) == below(rates@, v as int));
        assert(below(s@, v + 1) == below(rates@, v + 1));
        lemma_below_bounds(s@, v as int, place as int);
        lemma_below_bounds(s@, v + 1, place + 1);
    }
    Some(s[place])
}

// ---------------------------------------------------------------------------
// Laws
// ---------------------------------------------------------------------------

proof fn lemma_below_grows(s: Seq<i64>, a: int, b: int)
    requires
        a <= b,
    ensures
        below(s, a) <= below(s, b),
    decreases s.len(),
{
    if s.len() > 0 {
        lemma_below_grows(s.drop_last(), a, b);
    }
}

/// There is one 95th percentile.
pub proof fn law_percentile_unique(s: Seq<i64>, v: i64, w: i64)
    requires
        is_percentile(s, v),
        is_percentile(s, w),
    ensures
        v == w,
{
    if v < w {
        lemma_below_grows(s, v + 1, w as int);
    } else if w < v {
        lemma_below_grows(s, w + 1, v as int);
    }
}

/// At least nineteen of twenty samples do not exceed the 95th percentile, and it is one of them.
pub proof fn law_percentile_covers(s: Seq<i64>, v: i64)
    requires
        is_percentile(s, v),
    ensures
        20 * below(s, v + 1) >= 19 * s.len(),
        s.contains(v),
{
    lemma_between(s, v);
}

proof fn lemma_between(s: Seq<i64>, v: i64)
    requires
        below(s, v as int) < below(s, v + 1),
    ensures
        s.contains(v),
    decreases s.len(),
{
    if s.len() > 0 {
        if s.last() == v {
            assert(s[s.len() - 1] == v);
        } else {
            lemma_between(s.drop_last(), v);
            let i = choose|i: int| 0 <= i < s.len() - 1 && s.drop_last()[i] == v;
            assert(s[i] == v);
        }
    }
}

/// How many of the samples have a rate below `b`, and how many have one at all: every sample counts
/// once, by what was measured, else by what the counters give where that is above zero.
proof fn lemma_samples_counted(s: Seq<Sample>, b: int)
    ensures
        ({
            let lower = Set::<int>::new(
                |i: int|
                    0 <= i < s.len() && ((s[i].total matches Some(x) && x < b) || (s[i].total is None
                        && (s[i].delta matches Some(x) && 0 < x < b))),
            );
            let rated = Set::<int>::new(
                |i: int|
                    0 <= i < s.len() && (s[i].total is Some || (s[i].delta matches Some(x) && x
                        > 0)),
            );
            &&& lower.finite() && lower.len() == below(rates_of(s), b)
            &&& rated.finite() && rated.len() == rates_of(s).len()
        }),
    decreases s.len(),
{
    let lower = Set::<int>::new(
        |i: int|
            0 <= i < s.len() && ((s[i].total matches Some(x) && x < b) || (s[i].total is None && (
            s[i].delta matches Some(x) && 0 < x < b))),
    );
    let rated = Set::<int>::new(
        |i: int|
            0 <= i < s.len() && (s[i].total is Some || (s[i].delta matches Some(x) && x > 0)),
    );
    if s.len() == 0 {
        assert(lower =~= Set::empty());
        assert(rated =~= Set::empty());
    } else {
        let t = s.drop_last();
        let k = s.len() - 1;
        lemma_samples_counted(t, b);
        let lower_before = Set::<int>::new(
            |i: int|
                0 <= i < t.len() && ((t[i].total matches Some(x) && x < b) || (t[i].total is None
                    && (t[i].delta matches Some(x) && 0 < x < b))),
        );
        let rated_before = Set::<int>::new(
            |i: int|
                0 <= i < t.len() && (t[i].total is Some || (t[i].delta matches Some(x) && x > 0)),
        );
        assert(forall|i: int| 0 <= i < k ==> t[i] == s[i]);
        assert(!lower_before.contains(k) && !rated_before.contains(k));
        match rate_of(s.last()) {
            Some(r) => {
                assert(rated =~= rated_before.insert(k));
                assert(rates_of(s).drop_last() =~= rates_of(t));
                assert(rates_of(s).last() == r);
                if r < b {
                    assert(lower =~= lower_before.insert(k));
                } else {
                    assert(lower =~= lower_before);
                }
            },
            None => {
                assert(rated =~= rated_before);
                assert(lower =~= lower_before);
            },
        }
    }
}

/// The 95th percentile, counted over the samples themselves. Each sample that has a rate counts once:
/// the measured one, else what the counters give where that is above zero. At least nineteen of
/// twenty of them do not exceed the answer, fewer lie below it, and there is an answer exactly where
/// there is such a sample.
pub proof fn law_percentile_of_samples(s: Seq<Sample>, v: i64)
    ensures
        rates_of(s).len() > 0 <==> exists|i: int|
            0 <= i < s.len() && ((#[trigger] s[i]).total is Some || (s[i].delta matches Some(x) && x
                > 0)),
        is_percentile(rates_of(s), v) <==> ({
            let rated = Set::<int>::new(
                |i: int|
                    0 <= i < s.len() && (s[i].total is Some || (s[i].delta matches Some(x) && x
                        > 0)),
            );
            let lower = Set::<int>::new(
                |i: int|
                    0 <= i < s.len() && ((s[i].total matches Some(x) && x < v) || (s[i].total is None
                        && (s[i].delta matches Some(x) && 0 < x < v))),
            );
            let covered = Set::<int>::new(
                |i: int|
                    0 <= i < s.len() && ((s[i].total matches Some(x) && x < v + 1) || (s[i].total
                        is None && (s[i].delta matches Some(x) && 0 < x < v + 1))),
            );
            20 * covered.len() >= 19 * rated.len() && 20 * lower.len() < 19 * rated.len()
        }),
{
    lemma_samples_counted(s, v as int);
    lemma_samples_counted(s, v + 1);
    let rated = Set::<int>::new(
        |i: int|
            0 <= i < s.len() && (s[i].total is Some || (s[i].delta matches Some(x) && x > 0)),
    );
    if rated.len() > 0 {
        let i = rated.choose();
        assert(rated.contains(i));
        assert(s[i].total is Some || (s[i].delta matches Some(x) && x > 0));
    } else {
        assert(rated =~= Set::empty());
        assert forall|i: int| 0 <= i < s.len() implies !((#[trigger] s[i]).total is Some || (
        s[i].delta matches Some(x) && x > 0)) by {
            assert(!rated.contains(i));
        }
    }
}

} // verus!
