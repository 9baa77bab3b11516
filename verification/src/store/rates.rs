//! Rates: what a customer pays, and from which day to which.
use crate::dates;
use crate::error::Result;
use crate::store;
use crate::store::customers;
use crate::store::rows;
use crate::store::rows::{Customer, Rate, RateView};
use crate::store::table;
use crate::store::table::{Record, Row};
use crate::store::{Store, StoreView};
use crate::text;
use vstd::prelude::*;

verus! {

/// A rate to be added.
pub struct NewRate<'a> {
    pub customer_id: i64,
    pub effective_from: &'a str,
    pub effective_to: Option<&'a str>,
    pub mbps_unit_price_cents: i64,
    pub ip_unit_price_cents: i64,
    pub ip_quantity: i64,
    pub machine_rent_cents: i64,
    pub machine_hosting_cents: i64,
    pub currency: &'a str,
    pub librenms_bill_id: Option<i64>,
    pub business_label: Option<&'a str>,
    pub notes: &'a str,
}

impl NewRate<'_> {
    /// The row with this number.
    pub open spec fn row(self, id: i64) -> RateView {
        RateView {
            id,
            customer_id: self.customer_id,
            effective_from: self.effective_from@,
            effective_to: rows::borrowed(self.effective_to),
            mbps_unit_price_cents: self.mbps_unit_price_cents,
            ip_unit_price_cents: self.ip_unit_price_cents,
            ip_quantity: self.ip_quantity,
            machine_rent_cents: self.machine_rent_cents,
            machine_hosting_cents: self.machine_hosting_cents,
            currency: self.currency@,
            librenms_bill_id: self.librenms_bill_id,
            business_label: rows::borrowed(self.business_label),
            notes: self.notes@,
        }
    }
}

// ---------------------------------------------------------------------------
// Closing the rate that ran before
// ---------------------------------------------------------------------------

/// Whether a rate of `customer` has begun before the day `from` and has no end.
pub open spec fn runs_into(v: RateView, customer: i64, from: Seq<char>) -> bool {
    v.customer_id == customer && v.effective_to is None && text::precedes(v.effective_from, from)
}

/// A rate, ended on the day before `from` where it would run into it.
pub open spec fn closed_before(v: RateView, customer: i64, from: Seq<char>) -> RateView {
    match dates::day_before_text(from) {
        Some(d) if runs_into(v, customer, from) => RateView { effective_to: Some(d), ..v },
        _ => v,
    }
}

/// The rates after every one of `customer` that runs into the day `from` has been ended.
pub open spec fn all_closed_before(s: Seq<RateView>, customer: i64, from: Seq<char>) -> Seq<
    RateView,
> {
    s.map_values(|v: RateView| closed_before(v, customer, from))
}

/// A rate that would end no later than it begins if it were ended before `from`.
pub open spec fn too_short(customer: i64, from: Seq<char>) -> spec_fn(RateView) -> bool {
    |v: RateView|
        runs_into(v, customer, from) && {
            let c = closed_before(v, customer, from);
            !store::span_ok(c.effective_from, c.effective_to)
        }
}

/// Why `v` cannot be added, where it cannot.
pub open spec fn rate_fault(s: StoreView, v: RateView) -> Option<Seq<char>> {
    if !store::span_ok(v.effective_from, v.effective_to) || table::any(
        s.rates,
        too_short(v.customer_id, v.effective_from),
    ) {
        Some(store::check("effective_to IS NULL OR effective_to > effective_from"@))
    } else if !table::known::<Customer>(s.customers, v.customer_id) {
        Some(store::foreign())
    } else {
        None
    }
}

/// The store after a rate has been added: what ran into it ends on the day before it begins.
pub open spec fn with_rate(s: StoreView, v: RateView) -> StoreView {
    StoreView {
        rates: all_closed_before(s.rates, v.customer_id, v.effective_from).push(v),
        ..s
    }
}

/// The store after the rate `id` has been removed.
pub open spec fn rate_removed(s: StoreView, id: i64) -> StoreView {
    match table::find_row(s.rates, table::numbered::<Rate>(id)) {
        Some(i) => StoreView { rates: s.rates.remove(i), ..s },
        None => s,
    }
}

proof fn lemma_add_keeps(s: StoreView, v: RateView)
    requires
        s.wf(),
        table::next_id(table::ids::<Rate>(s.rates)) == Some(v.id),
        rate_fault(s, v) is None,
    ensures
        with_rate(s, v).wf(),
{
    table::lemma_push::<Rate>(s.rates, v);
    let c = all_closed_before(s.rates, v.customer_id, v.effective_from);
    let n = c.push(v);
    assert forall|i: int| 0 <= i < s.rates.len() implies (#[trigger] c[i]).id == s.rates[i].id
        && c[i].customer_id == s.rates[i].customer_id && store::span_ok(
        c[i].effective_from,
        c[i].effective_to,
    ) by {
        assert(!too_short(v.customer_id, v.effective_from)(s.rates[i]));
    }
    assert forall|i: int, j: int|
        #![trigger n[i], n[j]]
        0 <= i < j < n.len() implies n[i].id < n[j].id by {
        if j == s.rates.len() {
            assert(c[i].id == s.rates[i].id);
        } else {
            assert(c[i].id == s.rates[i].id && c[j].id == s.rates[j].id);
        }
    }
    assert forall|i: int|
        #![trigger n[i]]
        0 <= i < n.len() implies store::span_ok(n[i].effective_from, n[i].effective_to)
        && table::known::<Customer>(s.customers, n[i].customer_id) by {
        if i < s.rates.len() {
            assert(n[i] == c[i]);
            assert(table::known::<Customer>(s.customers, s.rates[i].customer_id));
        }
    }
}

// ---------------------------------------------------------------------------
// Looking up
// ---------------------------------------------------------------------------

/// Whether a rate of `customer` holds on the day `at`, its last day among them.
pub open spec fn holds_on(customer: i64, at: Seq<char>) -> spec_fn(RateView) -> bool {
    |v: RateView|
        v.customer_id == customer && !text::precedes(at, v.effective_from) && match v.effective_to {
            Some(t) => !text::precedes(t, at),
            None => true,
        }
}

/// The rate that holds on the day `at`: of several the one that began last, of those the one
/// added last.
pub open spec fn rate_at(s: Seq<RateView>, customer: i64, at: Seq<char>) -> Option<int>
    decreases s.len(),
{
    if s.len() == 0 {
        None
    } else {
        let best = rate_at(s.drop_last(), customer, at);
        if !holds_on(customer, at)(s.last()) {
            best
        } else {
            match best {
                Some(i) => if text::precedes(s.last().effective_from, s[i].effective_from) {
                    Some(i)
                } else {
                    Some(s.len() - 1)
                },
                None => Some(s.len() - 1),
            }
        }
    }
}

/// The order by beginning, the latest first.
pub open spec fn latest_first() -> spec_fn(RateView, RateView) -> bool {
    |a: RateView, b: RateView| !text::precedes(a.effective_from, b.effective_from)
}

/// The order by customer, then by beginning, the latest first.
pub open spec fn by_customer() -> spec_fn(RateView, RateView) -> bool {
    |a: RateView, b: RateView|
        a.customer_id < b.customer_id || (a.customer_id == b.customer_id && !text::precedes(
            a.effective_from,
            b.effective_from,
        ))
}

proof fn lemma_orders()
    ensures
        forall|a: RateView, b: RateView| #[trigger] latest_first()(a, b) || latest_first()(b, a),
        forall|a: RateView, b: RateView, c: RateView| #[trigger]
            latest_first()(a, b) && #[trigger] latest_first()(b, c) ==> latest_first()(a, c),
        forall|a: RateView, b: RateView| #[trigger] by_customer()(a, b) || by_customer()(b, a),
        forall|a: RateView, b: RateView, c: RateView| #[trigger]
            by_customer()(a, b) && #[trigger] by_customer()(b, c) ==> by_customer()(a, c),
{
    assert forall|a: RateView, b: RateView| #[trigger] latest_first()(a, b) || latest_first()(
        b,
        a,
    ) by {
        text::lemma_order_total(a.effective_from, b.effective_from);
    }
    assert forall|a: RateView, b: RateView, c: RateView| #[trigger]
        latest_first()(a, b) && #[trigger] latest_first()(b, c) implies latest_first()(a, c) by {
        lemma_not_before(a.effective_from, b.effective_from, c.effective_from);
    }
    assert forall|a: RateView, b: RateView| #[trigger] by_customer()(a, b) || by_customer()(b, a) by {
        text::lemma_order_total(a.effective_from, b.effective_from);
    }
    assert forall|a: RateView, b: RateView, c: RateView| #[trigger]
        by_customer()(a, b) && #[trigger] by_customer()(b, c) implies by_customer()(a, c) by {
        if a.customer_id == b.customer_id && b.customer_id == c.customer_id {
            lemma_not_before(a.effective_from, b.effective_from, c.effective_from);
        }
    }
}

proof fn lemma_not_before(a: Seq<char>, b: Seq<char>, c: Seq<char>)
    requires
        !text::precedes(a, b),
        !text::precedes(b, c),
    ensures
        !text::precedes(a, c),
{
    text::lemma_order_total(a, b);
    text::lemma_order_total(b, c);
    text::lemma_order_total(a, c);
    if text::precedes(a, c) {
        if text::precedes(c, b) {
            text::lemma_order_transitive(a, c, b);
        }
    }
}

fn ends_before(to: &Option<String>, at: &str) -> (r: bool)
    ensures
        r == (match text::optional(*to) {
            Some(t) => text::precedes(t, at@),
            None => false,
        }),
{
    match to {
        Some(t) => text::comes_before(t, at),
        None => false,
    }
}

fn holds(t: &Rate, customer: i64, at: &str) -> (b: bool)
    ensures
        b == holds_on(customer, at@)(t@),
{
    t.customer_id == customer && !text::comes_before(at, &t.effective_from) && !ends_before(
        &t.effective_to,
        at,
    )
}

impl Store {
    /// Adds a rate. A rate of the same customer that has begun before and has no end yet ends on
    /// the day before the new one begins.
    pub fn insert_rate(&mut self, r: &NewRate) -> (res: Result<i64>)
        ensures
            match rate_fault(old(self)@, r.row(0)) {
                Some(m) => (res matches Err(e) && e@ == store::refused("insert rates"@, m))
                    && final(self)@ == old(self)@,
                None => match table::next_id(table::ids::<Rate>(old(self)@.rates)) {
                    None => (res matches Err(e) && e@ == store::refused(
                        "insert rates"@,
                        store::full(),
                    )) && final(self)@ == old(self)@,
                    Some(id) => res == Result::<i64>::Ok(id) && final(self)@ == with_rate(
                        old(self)@,
                        r.row(id),
                    ),
                },
            },
            old(self)@.wf() ==> final(self)@.wf(),
    {
        let ghost from = r.effective_from@;
        let last = dates::day_before(r.effective_from);
        let condition = "effective_to IS NULL OR effective_to > effective_from";
        let fits: bool = match r.effective_to {
            Some(t) => text::comes_before(r.effective_from, t),
            None => true,
        };
        let f = |t: &Rate| -> (b: bool)
            ensures
                b == too_short(r.customer_id, r.effective_from@)(t@),
        {
            t.customer_id == r.customer_id && t.effective_to.is_none() && text::comes_before(
                &t.effective_from,
                r.effective_from,
            ) && match &last {
                Some(d) => !text::comes_before(&t.effective_from, d),
                None => false,
            }
        };
        if !fits || table::any_row(
            &self.rates,
            f,
            Ghost(too_short(r.customer_id, r.effective_from@)),
        ) {
            return Err(store::refuse("insert rates", &store::check_text(condition)));
        }
        if !table::is_known(&self.customers, r.customer_id) {
            return Err(store::refuse("insert rates", &store::foreign_text()));
        }
        let id: i64 = match table::fresh_id(&self.rates) {
            Some(id) => id,
            None => return Err(store::refuse("insert rates", &store::full_text())),
        };
        let ghost before = self@;
        let ghost target = all_closed_before(before.rates, r.customer_id, from);
        let mut i: usize = 0;
        while i < self.rates.len()
            invariant
                i <= self.rates@.len(),
                self.rates@.len() == before.rates.len(),
                from == r.effective_from@,
                text::optional(last) == dates::day_before_text(from),
                target == all_closed_before(before.rates, r.customer_id, from),
                forall|j: int| 0 <= j < i ==> (#[trigger] self.rates@[j])@ == target[j],
                forall|j: int|
                    i <= j < before.rates.len() ==> (#[trigger] self.rates@[j])@
                        == before.rates[j],
                self@ == (StoreView { rates: self@.rates, ..before }),
            decreases self.rates@.len() - i,
        {
            assert(self.rates@[i as int]@ == before.rates[i as int]);
            if self.rates[i].customer_id == r.customer_id && self.rates[i].effective_to.is_none()
                && text::comes_before(&self.rates[i].effective_from, r.effective_from) {
                if let Some(d) = &last {
                    let mut row = self.rates[i].copy();
                    row.effective_to = Some(d.clone());
                    assert(row@ =~= target[i as int]);
                    self.rates.set(i, row);
                }
            }
            i = i + 1;
        }
        assert(self@.rates =~= target);
        let row = Rate {
            id,
            customer_id: r.customer_id,
            effective_from: r.effective_from.to_owned(),
            effective_to: rows::own(r.effective_to),
            mbps_unit_price_cents: r.mbps_unit_price_cents,
            ip_unit_price_cents: r.ip_unit_price_cents,
            ip_quantity: r.ip_quantity,
            machine_rent_cents: r.machine_rent_cents,
            machine_hosting_cents: r.machine_hosting_cents,
            currency: r.currency.to_owned(),
            librenms_bill_id: r.librenms_bill_id,
            business_label: rows::own(r.business_label),
            notes: r.notes.to_owned(),
        };
        proof {
            table::lemma_views_push(self.rates@, row);
            if before.wf() {
                lemma_add_keeps(before, row@);
            }
        }
        self.rates.push(row);
        Ok(id)
    }

    /// The rate that holds for a customer on a day, such as the first of a month.
    pub fn find_rate_for_customer_at(&self, customer_id: i64, period_yyyymm: &str) -> (r: Option<
        Rate,
    >)
        ensures
            match rate_at(self@.rates, customer_id, period_yyyymm@) {
                Some(i) => r matches Some(t) && t@ == self@.rates[i],
                None => r is None,
            },
    {
        let ghost s = self@.rates;
        let mut best: Option<usize> = None;
        let mut i: usize = 0;
        assert(rate_at(s.take(0), customer_id, period_yyyymm@) is None);
        while i < self.rates.len()
            invariant
                i <= self.rates@.len(),
                s == self@.rates,
                best matches Some(k) ==> k < i && rate_at(
                    s.take(i as int),
                    customer_id,
                    period_yyyymm@,
                ) == Some(k as int),
                best is None ==> rate_at(s.take(i as int), customer_id, period_yyyymm@) is None,
            decreases self.rates@.len() - i,
        {
            assert(s.take(i + 1).drop_last() =~= s.take(i as int));
            assert(s.take(i + 1).last() == self.rates@[i as int]@);
            if holds(&self.rates[i], customer_id, period_yyyymm) {
                match best {
                    Some(k) => {
                        assert(s.take(i + 1)[k as int] == self.rates@[k as int]@);
                        if !text::comes_before(
                            &self.rates[i].effective_from,
                            &self.rates[k].effective_from,
                        ) {
                            best = Some(i);
                        }
                    },
                    None => {
                        best = Some(i);
                    },
                }
            }
            i = i + 1;
        }
        assert(s.take(i as int) =~= s);
        match best {
            Some(k) => Some(self.rates[k].copy()),
            None => None,
        }
    }

    /// The rates of a customer, the latest first.
    pub fn list_rates_for_customer(&self, customer_id: i64) -> (r: Vec<Rate>)
        ensures
            table::same_rows(
                table::views(r@),
                self@.rates.filter(customers::rate_of(customer_id)),
            ),
            table::ordered(table::views(r@), latest_first()),
    {
        let f = |t: &Rate| -> (b: bool)
            ensures
                b == customers::rate_of(customer_id)(t@),
        {
            t.customer_id == customer_id
        };
        let chosen = table::select(&self.rates, f, Ghost(customers::rate_of(customer_id)));
        let g = |a: &Rate, b: &Rate| -> (c: bool)
            ensures
                c == latest_first()(a@, b@),
        {
            !text::comes_before(&a.effective_from, &b.effective_from)
        };
        proof {
            lemma_orders();
        }
        table::sorted(chosen, g, Ghost(latest_first()))
    }

    /// All rates, by customer, the latest of each first.
    pub fn list_all_rates(&self) -> (r: Vec<Rate>)
        ensures
            table::same_rows(table::views(r@), self@.rates),
            table::ordered(table::views(r@), by_customer()),
    {
        let g = |a: &Rate, b: &Rate| -> (c: bool)
            ensures
                c == by_customer()(a@, b@),
        {
            a.customer_id < b.customer_id || (a.customer_id == b.customer_id
                && !text::comes_before(&a.effective_from, &b.effective_from))
        };
        proof {
            lemma_orders();
        }
        table::sorted(table::all(&self.rates), g, Ghost(by_customer()))
    }

    /// Removes a rate.
    pub fn delete_rate(&mut self, id: i64)
        ensures
            final(self)@ == rate_removed(old(self)@, id),
            old(self)@.wf() ==> final(self)@.wf(),
    {
        if let Some(i) = table::position_of(&self.rates, id) {
            proof {
                table::lemma_views_remove(self.rates@, i as int);
                table::lemma_remove::<Rate>(self@.rates, i as int);
            }
            self.rates.remove(i);
        }
    }
}

// ---------------------------------------------------------------------------
// Laws
// ---------------------------------------------------------------------------

/// Rates that begin on the same days and hold alike on a day give the same answer for it.
proof fn lemma_same_answer(a: Seq<RateView>, b: Seq<RateView>, customer: i64, at: Seq<char>)
    requires
        a.len() == b.len(),
        forall|i: int|
            0 <= i < a.len() ==> (#[trigger] a[i]).effective_from == b[i].effective_from
                && holds_on(customer, at)(a[i]) == holds_on(customer, at)(b[i]),
    ensures
        rate_at(a, customer, at) == rate_at(b, customer, at),
        rate_at(a, customer, at) matches Some(i) ==> 0 <= i < a.len(),
    decreases a.len(),
{
    if a.len() > 0 {
        assert forall|i: int| 0 <= i < a.len() - 1 implies (#[trigger] a.drop_last()[i])
            .effective_from == b.drop_last()[i].effective_from && holds_on(customer, at)(
            a.drop_last()[i],
        ) == holds_on(customer, at)(b.drop_last()[i]) by {
            assert(a[i].effective_from == b[i].effective_from);
        }
        lemma_same_answer(a.drop_last(), b.drop_last(), customer, at);
        assert(a[a.len() - 1].effective_from == b[a.len() - 1].effective_from);
    }
}

/// The answer is a rate that holds, and none that holds begins later.
pub proof fn law_rate_at(s: Seq<RateView>, customer: i64, at: Seq<char>)
    ensures
        rate_at(s, customer, at) matches Some(i) ==> 0 <= i < s.len() && holds_on(customer, at)(
            s[i],
        ) && (forall|j: int|
            0 <= j < s.len() && holds_on(customer, at)(#[trigger] s[j]) ==> !text::precedes(
                s[i].effective_from,
                s[j].effective_from,
            )),
        rate_at(s, customer, at) is None ==> (forall|j: int|
            0 <= j < s.len() ==> !holds_on(customer, at)(#[trigger] s[j])),
    decreases s.len(),
{
    if s.len() > 0 {
        let t = s.drop_last();
        law_rate_at(t, customer, at);
        assert(forall|j: int| 0 <= j < t.len() ==> t[j] == s[j]);
        let last = s.last();
        match rate_at(s, customer, at) {
            Some(i) => {
                assert forall|j: int| 0 <= j < s.len() && holds_on(customer, at)(
                    #[trigger] s[j],
                ) implies !text::precedes(s[i].effective_from, s[j].effective_from) by {
                    text::lemma_order_total(s[i].effective_from, s[j].effective_from);
                    if j < t.len() {
                        assert(holds_on(customer, at)(t[j]));
                        match rate_at(t, customer, at) {
                            Some(k) => {
                                assert(!text::precedes(t[k].effective_from, t[j].effective_from));
                                if i != k {
                                    lemma_not_before(
                                        last.effective_from,
                                        t[k].effective_from,
                                        t[j].effective_from,
                                    );
                                }
                            },
                            None => {},
                        }
                    } else {
                        text::lemma_order_total(last.effective_from, s[i].effective_from);
                    }
                }
            },
            None => {
                assert forall|j: int| 0 <= j < s.len() implies !holds_on(customer, at)(
                    #[trigger] s[j],
                ) by {
                    if j < t.len() {
                        assert(!holds_on(customer, at)(t[j]));
                    }
                }
            },
        }
    }
}

/// A new rate does not change what held on the days before it begins.
pub proof fn law_earlier_days_unchanged(s: StoreView, v: RateView, at: Seq<char>)
    requires
        dates::day_of(at) is Some,
        text::precedes(at, v.effective_from),
    ensures
        rate_at(with_rate(s, v).rates, v.customer_id, at) == rate_at(
            s.rates,
            v.customer_id,
            at,
        ),
{
    let from = v.effective_from;
    let c = all_closed_before(s.rates, v.customer_id, from);
    let n = c.push(v);
    if dates::day_before_text(from) is Some {
        dates::law_no_day_between(at, from);
    }
    assert forall|i: int| 0 <= i < s.rates.len() implies (#[trigger] s.rates[i]).effective_from
        == c[i].effective_from && holds_on(v.customer_id, at)(s.rates[i]) == holds_on(
        v.customer_id,
        at,
    )(c[i]) by {
    }
    lemma_same_answer(s.rates, c, v.customer_id, at);
    assert(n.drop_last() =~= c);
    assert(!holds_on(v.customer_id, at)(v));
}

/// From its first day on a new rate is the one that holds, as long as none that begins later
/// does.
pub proof fn law_new_rate_holds(s: StoreView, v: RateView, at: Seq<char>)
    requires
        holds_on(v.customer_id, at)(v),
        forall|i: int|
            0 <= i < s.rates.len() && (#[trigger] s.rates[i]).customer_id == v.customer_id
                ==> !text::precedes(v.effective_from, s.rates[i].effective_from),
    ensures
        rate_at(with_rate(s, v).rates, v.customer_id, at) == Some(s.rates.len() as int),
        with_rate(s, v).rates[s.rates.len() as int] == v,
{
    let c = all_closed_before(s.rates, v.customer_id, v.effective_from);
    let n = c.push(v);
    assert(n.drop_last() =~= c);
    law_rate_at(c, v.customer_id, at);
    match rate_at(c, v.customer_id, at) {
        Some(i) => {
            assert(c[i].effective_from == s.rates[i].effective_from);
            assert(c[i].customer_id == s.rates[i].customer_id);
            assert(holds_on(v.customer_id, at)(c[i]));
        },
        None => {},
    }
}

/// A new rate of one customer changes nothing for another.
pub proof fn law_other_customers_unchanged(s: StoreView, v: RateView, other: i64, at: Seq<char>)
    requires
        other != v.customer_id,
    ensures
        rate_at(with_rate(s, v).rates, other, at) == rate_at(s.rates, other, at),
{
    let c = all_closed_before(s.rates, v.customer_id, v.effective_from);
    assert forall|i: int| 0 <= i < s.rates.len() implies (#[trigger] s.rates[i]).effective_from
        == c[i].effective_from && holds_on(other, at)(s.rates[i]) == holds_on(other, at)(c[i]) by {
    }
    lemma_same_answer(s.rates, c, other, at);
    assert(c.push(v).drop_last() =~= c);
}

proof fn lemma_last_added(s: Seq<RateView>, customer: i64, at: Seq<char>, j: int)
    requires
        0 <= j < s.len(),
        holds_on(customer, at)(s[j]),
    ensures
        rate_at(s, customer, at) matches Some(i) && (s[i].effective_from == s[j].effective_from
            ==> j <= i),
    decreases s.len(),
{
    law_rate_at(s, customer, at);
    law_rate_at(s.drop_last(), customer, at);
    text::lemma_order_total(s[j].effective_from, s[j].effective_from);
    if j < s.len() - 1 {
        lemma_last_added(s.drop_last(), customer, at, j);
        let k = rate_at(s.drop_last(), customer, at)->0;
        let i = rate_at(s, customer, at)->0;
        assert(s.drop_last()[k] == s[k]);
        assert(s.drop_last()[j] == s[j]);
        if i != k {
            assert(i == s.len() - 1);
        }
    } else {
        match rate_at(s.drop_last(), customer, at) {
            Some(k) => {
                text::lemma_order_total(s[j].effective_from, s[k].effective_from);
            },
            None => {},
        }
    }
}

/// The rate of a customer on a day is one that has begun by then and has not ended before: the last
/// day counts. Where there is such a rate there is an answer. Of several, the one that began last
/// holds, and of those that began on one day the one added last.
pub proof fn law_rate_in_force(s: Seq<RateView>, customer: i64, at: Seq<char>, j: int)
    ensures
        rate_at(s, customer, at) matches Some(i) ==> 0 <= i < s.len() && s[i].customer_id == customer
            && (s[i].effective_from == at || text::precedes(s[i].effective_from, at)) && (
        s[i].effective_to matches Some(t) ==> t == at || text::precedes(at, t)),
        0 <= j < s.len() && s[j].customer_id == customer && (s[j].effective_from == at
            || text::precedes(s[j].effective_from, at)) && (s[j].effective_to matches Some(t) ==> t
            == at || text::precedes(at, t)) ==> (rate_at(s, customer, at) matches Some(i)
            && !text::precedes(s[i].effective_from, s[j].effective_from) && (s[i].effective_from
            == s[j].effective_from ==> j <= i)),
{
    law_rate_at(s, customer, at);
    if let Some(i) = rate_at(s, customer, at) {
        text::lemma_order_total(at, s[i].effective_from);
        if let Some(t) = s[i].effective_to {
            text::lemma_order_total(t, at);
        }
    }
    if 0 <= j < s.len() {
        text::lemma_order_total(at, s[j].effective_from);
        if let Some(t) = s[j].effective_to {
            text::lemma_order_total(t, at);
        }
        if holds_on(customer, at)(s[j]) {
            lemma_last_added(s, customer, at, j);
        }
    }
}

/// A new rate stands behind the others as it was given. A rate of the same customer that began
/// before it and has no end ends on the day before it begins; every other rate stays as it is, and
/// so does the rest of the store.
pub proof fn law_open_rate_closed(s: StoreView, v: RateView, i: int)
    requires
        0 <= i < s.rates.len(),
    ensures
        ({
            let t = with_rate(s, v);
            let before = s.rates[i];
            let after = t.rates[i];
            &&& t.rates.len() == s.rates.len() + 1
            &&& t.rates.last() == v
            &&& t.customers == s.customers && t.ports == s.ports && t.invoices == s.invoices
            &&& if before.customer_id == v.customer_id && before.effective_to is None
                && text::precedes(before.effective_from, v.effective_from)
                && dates::day_before_text(v.effective_from) is Some {
                after == (RateView {
                    effective_to: dates::day_before_text(v.effective_from),
                    ..before
                })
            } else {
                after == before
            }
        }),
{
}

/// A rate is refused where it ends no later than it begins, where ending one that runs into it would
/// leave that one no day, or where there is no such customer; and only then.
pub proof fn law_rate_refused(s: StoreView, v: RateView)
    ensures
        rate_fault(s, v) is None <==> {
            &&& v.effective_to matches Some(t) ==> text::precedes(v.effective_from, t)
            &&& exists|k: int| 0 <= k < s.customers.len() && (#[trigger] s.customers[k]).id
                == v.customer_id
            &&& forall|i: int|
                0 <= i < s.rates.len() && (#[trigger] s.rates[i]).customer_id == v.customer_id
                    && s.rates[i].effective_to is None && text::precedes(
                    s.rates[i].effective_from,
                    v.effective_from,
                ) ==> (dates::day_before_text(v.effective_from) matches Some(d) ==> text::precedes(
                    s.rates[i].effective_from,
                    d,
                ))
        },
{
    let p = too_short(v.customer_id, v.effective_from);
    if table::any(s.rates, p) {
        let i = choose|i: int| 0 <= i < s.rates.len() && p(#[trigger] s.rates[i]);
        assert(s.rates[i].customer_id == v.customer_id);
    } else {
        assert forall|i: int|
            0 <= i < s.rates.len() && (#[trigger] s.rates[i]).customer_id == v.customer_id
                && s.rates[i].effective_to is None && text::precedes(
                s.rates[i].effective_from,
                v.effective_from,
            ) implies (dates::day_before_text(v.effective_from) matches Some(d) ==> text::precedes(
            s.rates[i].effective_from,
            d,
        )) by {
            assert(!p(s.rates[i]));
        }
    }
}

/// A rate is kept as it was given.
pub proof fn law_rate_kept(r: NewRate, id: i64)
    ensures
        ({
            let v = r.row(id);
            &&& v.id == id && v.customer_id == r.customer_id
            &&& v.effective_from == r.effective_from@
            &&& v.effective_to == rows::borrowed(r.effective_to)
            &&& v.mbps_unit_price_cents == r.mbps_unit_price_cents
            &&& v.ip_unit_price_cents == r.ip_unit_price_cents
            &&& v.ip_quantity == r.ip_quantity
            &&& v.machine_rent_cents == r.machine_rent_cents
            &&& v.machine_hosting_cents == r.machine_hosting_cents
            &&& v.currency == r.currency@
            &&& v.librenms_bill_id == r.librenms_bill_id
            &&& v.business_label == rows::borrowed(r.business_label)
            &&& v.notes == r.notes@
        }),
{
}

/// A rate that is removed is gone, and it alone.
pub proof fn law_rate_gone(s: StoreView, id: i64, v: RateView)
    requires
        s.wf(),
    ensures
        rate_removed(s, id).rates.contains(v) <==> s.rates.contains(v) && v.id != id,
        rate_removed(s, id).customers == s.customers,
{
    table::lemma_numbered::<Rate>(s.rates, id);
    match table::find_row(s.rates, table::numbered::<Rate>(id)) {
        Some(i) => {
            let n = s.rates.remove(i);
            if n.contains(v) {
                let k = choose|k: int| 0 <= k < n.len() && n[k] == v;
                if k < i {
                    assert(s.rates[k] == v);
                    assert(s.rates[k].id < s.rates[i].id);
                } else {
                    assert(s.rates[k + 1] == v);
                    assert(s.rates[i].id < s.rates[k + 1].id);
                }
            }
            if s.rates.contains(v) && v.id != id {
                let k = choose|k: int| 0 <= k < s.rates.len() && s.rates[k] == v;
                if k < i {
                    assert(n[k] == v);
                } else {
                    assert(n[k - 1] == v);
                }
            }
        },
        None => {
            assert(forall|k: int| 0 <= k < s.rates.len() ==> Rate::row_id(#[trigger] s.rates[k]) != id);
        },
    }
}

/// The rates of a customer are listed with the one that begins last in front; all rates by customer,
/// then likewise.
pub proof fn law_rates_in_order(a: RateView, b: RateView)
    ensures
        latest_first()(a, b) <==> a.effective_from == b.effective_from || text::precedes(
            b.effective_from,
            a.effective_from,
        ),
        by_customer()(a, b) <==> a.customer_id < b.customer_id || (a.customer_id == b.customer_id
            && (a.effective_from == b.effective_from || text::precedes(
            b.effective_from,
            a.effective_from,
        ))),
{
    text::lemma_order_total(a.effective_from, b.effective_from);
}

/// Why a rate cannot be added: when it would end first, its customer then.
pub proof fn law_why_no_rate(s: StoreView, v: RateView)
    ensures
        v.effective_to matches Some(t) ==> !text::precedes(v.effective_from, t) ==> rate_fault(s, v)
            == Some(store::check("effective_to IS NULL OR effective_to > effective_from"@)),
        rate_fault(s, v) is Some ==> rate_fault(s, v) == Some(
            store::check("effective_to IS NULL OR effective_to > effective_from"@),
        ) || rate_fault(s, v) == Some(store::foreign()),
{
}

} // verus!
