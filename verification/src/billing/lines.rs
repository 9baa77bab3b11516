//! What a customer owes for a month.
use crate::render::fill;
use crate::render::fill::{PortLine, PortLineView};
use crate::store::rows::{Port, Rate};
use vstd::prelude::*;

verus! {

/// A port and its traffic in megabits per second, where that is known.
pub type PortTraffic = (Port, Option<i64>);

/// The traffic that is charged for: none where it is unknown or negative.
pub open spec fn charged(mbps: Option<i64>) -> int {
    match mbps {
        Some(m) => if m > 0 {
            m as int
        } else {
            0
        },
        None => 0,
    }
}

/// What the traffic of a port costs, in cents.
pub open spec fn traffic_cents(t: PortTraffic, rate: Rate) -> int {
    charged(t.1) * rate.mbps_unit_price_cents
}

/// What renting a machine costs for a port, in cents.
pub open spec fn rent_cents(t: PortTraffic, rate: Rate) -> int {
    if t.0.machine_rent {
        rate.machine_rent_cents as int
    } else {
        0
    }
}

/// What hosting a machine costs for a port, in cents.
pub open spec fn hosting_cents(t: PortTraffic, rate: Rate) -> int {
    if t.0.machine_hosting {
        rate.machine_hosting_cents as int
    } else {
        0
    }
}

/// What a port costs, in cents.
pub open spec fn port_cents(t: PortTraffic, rate: Rate) -> int {
    traffic_cents(t, rate) + rent_cents(t, rate) + hosting_cents(t, rate)
}

/// What the ports cost together, in cents.
pub open spec fn ports_cents(v: Seq<PortTraffic>, rate: Rate) -> int
    decreases v.len(),
{
    if v.len() == 0 {
        0
    } else {
        ports_cents(v.drop_last(), rate) + port_cents(v.last(), rate)
    }
}

/// What the addresses of a customer cost, in cents. The number of them stands in the rate.
pub open spec fn ip_cents(rate: Rate) -> int {
    (if rate.ip_quantity > 0 {
        rate.ip_quantity as int
    } else {
        0
    }) * rate.ip_unit_price_cents
}

/// What a customer owes, in cents.
pub open spec fn owed_cents(v: Seq<PortTraffic>, rate: Rate) -> int {
    ports_cents(v, rate) + ip_cents(rate)
}

/// Whether an amount can be held in 64 bits.
pub open spec fn in_range(n: int) -> bool {
    i64::MIN <= n <= i64::MAX
}

/// Whether every amount on the way to the sum of the ports can be held in 64 bits.
pub open spec fn ports_in_range(v: Seq<PortTraffic>, rate: Rate) -> bool
    decreases v.len(),
{
    v.len() == 0 || {
        &&& ports_in_range(v.drop_last(), rate)
        &&& in_range(traffic_cents(v.last(), rate))
        &&& in_range(traffic_cents(v.last(), rate) + rent_cents(v.last(), rate))
        &&& in_range(port_cents(v.last(), rate))
        &&& in_range(ports_cents(v, rate))
    }
}

/// Whether every amount on the way to what is owed can be held in 64 bits.
pub open spec fn owed_in_range(v: Seq<PortTraffic>, rate: Rate) -> bool {
    ports_in_range(v, rate) && in_range(ip_cents(rate)) && in_range(owed_cents(v, rate))
}

/// A line of the invoice.
pub open spec fn line_of(t: PortTraffic) -> PortLineView {
    PortLineView {
        label: t.0.port_label@,
        mbps_95th: t.1,
        machine_rent: t.0.machine_rent,
        machine_hosting: t.0.machine_hosting,
    }
}

/// The lines of the invoice, one for each port.
pub open spec fn lines_of(v: Seq<PortTraffic>) -> Seq<PortLineView> {
    v.map_values(|t: PortTraffic| line_of(t))
}

fn port_amount(t: &PortTraffic, rate: &Rate) -> (r: Option<i64>)
    ensures
        r is Some <==> in_range(traffic_cents(*t, *rate)) && in_range(
            traffic_cents(*t, *rate) + rent_cents(*t, *rate),
        ) && in_range(port_cents(*t, *rate)),
        r matches Some(n) ==> n == port_cents(*t, *rate),
{
    let mbps: i64 = match t.1 {
        Some(m) => if m > 0 {
            m
        } else {
            0
        },
        None => 0,
    };
    let traffic: i64 = match mbps.checked_mul(rate.mbps_unit_price_cents) {
        Some(n) => n,
        None => return None,
    };
    let rent: i64 = if t.0.machine_rent {
        rate.machine_rent_cents
    } else {
        0
    };
    let hosting: i64 = if t.0.machine_hosting {
        rate.machine_hosting_cents
    } else {
        0
    };
    match traffic.checked_add(rent) {
        Some(n) => n.checked_add(hosting),
        None => None,
    }
}

proof fn lemma_range_prefix(v: Seq<PortTraffic>, rate: Rate, k: int)
    requires
        0 <= k <= v.len(),
        ports_in_range(v, rate),
    ensures
        ports_in_range(v.take(k), rate),
    decreases v.len(),
{
    if k == v.len() {
        assert(v.take(k) =~= v);
    } else {
        lemma_range_prefix(v.drop_last(), rate, k);
        assert(v.drop_last().take(k) =~= v.take(k));
    }
}

/// What is owed goes by what the ports hold.
pub proof fn lemma_same_ports(a: Seq<PortTraffic>, b: Seq<PortTraffic>, rate: Rate)
    requires
        a.len() == b.len(),
        forall|i: int|
            #![trigger a[i], b[i]]
            0 <= i < a.len() ==> a[i].0@ == b[i].0@ && a[i].1 == b[i].1,
    ensures
        lines_of(a) == lines_of(b),
        owed_cents(a, rate) == owed_cents(b, rate),
        ports_cents(a, rate) == ports_cents(b, rate),
        ports_in_range(a, rate) == ports_in_range(b, rate),
        owed_in_range(a, rate) == owed_in_range(b, rate),
    decreases a.len(),
{
    assert forall|i: int| 0 <= i < a.len() implies line_of(#[trigger] a[i]) == line_of(b[i]) by {
        assert(a[i].0@ == b[i].0@ && a[i].1 == b[i].1);
    }
    assert(lines_of(a) =~= lines_of(b));
    if a.len() > 0 {
        let k = a.len() - 1;
        assert(a[k].0@ == b[k].0@ && a[k].1 == b[k].1);
        assert forall|i: int|
            #![trigger a.drop_last()[i], b.drop_last()[i]]
            0 <= i < a.drop_last().len() implies a.drop_last()[i].0@ == b.drop_last()[i].0@
            && a.drop_last()[i].1 == b.drop_last()[i].1 by {
            assert(a[i].0@ == b[i].0@ && a[i].1 == b[i].1);
        }
        lemma_same_ports(a.drop_last(), b.drop_last(), rate);
    }
}

/// The lines of the invoice and what is owed in cents; nothing where an amount does not fit into
/// 64 bits.
pub fn try_build_invoice_lines(port_95ths: &Vec<PortTraffic>, rate: &Rate) -> (r: Option<
    (Vec<PortLine>, i64),
>)
    ensures
        r is Some <==> owed_in_range(port_95ths@, *rate),
        r matches Some(o) ==> fill::line_views(o.0@) == lines_of(port_95ths@) && o.1 == owed_cents(
            port_95ths@,
            *rate,
        ),
{
    let ghost v = port_95ths@;
    let mut lines: Vec<PortLine> = Vec::new();
    let mut total: i64 = 0;
    let mut i: usize = 0;
    assert(fill::line_views(lines@) =~= lines_of(v.take(0)));
    while i < port_95ths.len()
        invariant
            i <= port_95ths@.len(),
            v == port_95ths@,
            fill::line_views(lines@) == lines_of(v.take(i as int)),
            ports_in_range(v.take(i as int), *rate),
            total == ports_cents(v.take(i as int), *rate),
        decreases port_95ths@.len() - i,
    {
        let t = &port_95ths[i];
        assert(v.take(i + 1).drop_last() =~= v.take(i as int));
        assert(v.take(i + 1).last() == *t);
        let sum: Option<i64> = match port_amount(t, rate) {
            Some(n) => total.checked_add(n),
            None => None,
        };
        match sum {
            Some(n) => {
                total = n;
            },
            None => {
                proof {
                    if ports_in_range(v, *rate) {
                        lemma_range_prefix(v, *rate, i + 1);
                    }
                }
                return None;
            },
        }
        let line = PortLine {
            label: t.0.port_label.clone(),
            mbps_95th: t.1,
            machine_rent: t.0.machine_rent,
            machine_hosting: t.0.machine_hosting,
        };
        let ghost held = lines@;
        lines.push(line);
        assert(fill::line_views(lines@) =~= fill::line_views(held).push(line@));
        assert(lines_of(v.take(i + 1)) =~= lines_of(v.take(i as int)).push(line_of(*t)));
        i = i + 1;
    }
    assert(v.take(i as int) =~= v);
    let quantity: i64 = if rate.ip_quantity > 0 {
        rate.ip_quantity
    } else {
        0
    };
    match quantity.checked_mul(rate.ip_unit_price_cents) {
        Some(ip) => match total.checked_add(ip) {
            Some(n) => Some((lines, n)),
            None => None,
        },
        None => None,
    }
}

/// The lines of the invoice and what is owed in cents: for each port its traffic, rent and
/// hosting, and once the addresses.
pub fn build_invoice_lines(port_95ths: &Vec<PortTraffic>, rate: &Rate) -> (r: (Vec<PortLine>, i64))
    requires
        owed_in_range(port_95ths@, *rate),
    ensures
        fill::line_views(r.0@) == lines_of(port_95ths@),
        r.1 == owed_cents(port_95ths@, *rate),
{
    try_build_invoice_lines(port_95ths, rate).unwrap()
}

// ---------------------------------------------------------------------------
// Laws
// ---------------------------------------------------------------------------

/// What is owed does not depend on the addresses counted at the ports, nor on their labels.
pub proof fn law_owed_ignores_port_addresses(
    v: Seq<PortTraffic>,
    w: Seq<PortTraffic>,
    rate: Rate,
)
    requires
        v.len() == w.len(),
        forall|i: int|
            #![trigger v[i]]
            0 <= i < v.len() ==> v[i].1 == w[i].1 && v[i].0.machine_rent == w[i].0.machine_rent
                && v[i].0.machine_hosting == w[i].0.machine_hosting,
    ensures
        owed_cents(v, rate) == owed_cents(w, rate),
    decreases v.len(),
{
    if v.len() > 0 {
        assert(v[v.len() - 1].1 == w[v.len() - 1].1);
        assert forall|i: int|
            #![trigger v.drop_last()[i]]
            0 <= i < v.len() - 1 implies v.drop_last()[i].1 == w.drop_last()[i].1
            && v.drop_last()[i].0.machine_rent == w.drop_last()[i].0.machine_rent
            && v.drop_last()[i].0.machine_hosting == w.drop_last()[i].0.machine_hosting by {
            assert(v[i].1 == w[i].1);
        }
        law_owed_ignores_port_addresses(v.drop_last(), w.drop_last(), rate);
    }
}

/// With prices that are not negative nothing that is owed is.
pub proof fn law_owed_not_negative(v: Seq<PortTraffic>, rate: Rate)
    requires
        rate.mbps_unit_price_cents >= 0,
        rate.ip_unit_price_cents >= 0,
        rate.machine_rent_cents >= 0,
        rate.machine_hosting_cents >= 0,
    ensures
        owed_cents(v, rate) >= 0,
        ports_cents(v, rate) >= 0,
    decreases v.len(),
{
    let q = if rate.ip_quantity > 0 {
        rate.ip_quantity as int
    } else {
        0
    };
    assert(q * rate.ip_unit_price_cents >= 0) by (nonlinear_arith)
        requires
            q >= 0,
            rate.ip_unit_price_cents >= 0,
    ;
    if v.len() > 0 {
        law_owed_not_negative(v.drop_last(), rate);
        let c = charged(v.last().1);
        assert(c * rate.mbps_unit_price_cents >= 0) by (nonlinear_arith)
            requires
                c >= 0,
                rate.mbps_unit_price_cents >= 0,
        ;
    }
}

/// Without ports only the addresses are owed: their number times the price of one. A port more costs
/// its traffic, and its rent and its hosting where it has them.
pub proof fn law_owed_port_by_port(v: Seq<PortTraffic>, t: PortTraffic, rate: Rate)
    ensures
        rate.ip_quantity > 0 ==> owed_cents(Seq::empty(), rate) == rate.ip_quantity
            * rate.ip_unit_price_cents,
        rate.ip_quantity <= 0 ==> owed_cents(Seq::empty(), rate) == 0,
        owed_cents(v.push(t), rate) - owed_cents(v, rate) == (if t.1 matches Some(m) && m > 0 {
            t.1->0 * rate.mbps_unit_price_cents
        } else {
            0
        }) + (if t.0.machine_rent {
            rate.machine_rent_cents as int
        } else {
            0
        }) + (if t.0.machine_hosting {
            rate.machine_hosting_cents as int
        } else {
            0
        }),
{
    assert(v.push(t).drop_last() =~= v);
    assert(0 * rate.mbps_unit_price_cents == 0) by (nonlinear_arith);
    assert(0 * rate.ip_unit_price_cents == 0) by (nonlinear_arith);
}

/// Another port in the place of one changes what is owed by the difference of the two.
pub proof fn law_owed_of_one_port(v: Seq<PortTraffic>, i: int, t: PortTraffic, rate: Rate)
    requires
        0 <= i < v.len(),
    ensures
        owed_cents(v.update(i, t), rate) - owed_cents(v, rate) == owed_cents(seq![t], rate)
            - owed_cents(seq![v[i]], rate),
    decreases v.len(),
{
    let none = Seq::<PortTraffic>::empty();
    assert(seq![t].drop_last() =~= none);
    assert(seq![v[i]].drop_last() =~= none);
    if i == v.len() - 1 {
        assert(v.update(i, t).drop_last() =~= v.drop_last());
    } else {
        law_owed_of_one_port(v.drop_last(), i, t, rate);
        assert(v.update(i, t).drop_last() =~= v.drop_last().update(i, t));
    }
}

/// The amount is linear in each part, whatever else is known of a port: a megabit more costs the
/// price of one, a rented machine the rent, a hosted machine the hosting.
pub proof fn law_owed_linear(v: Seq<PortTraffic>, i: int, m: i64, rate: Rate)
    requires
        0 <= i < v.len(),
        0 <= m < i64::MAX,
        v[i].1 == Some(m),
    ensures
        owed_cents(v.update(i, (v[i].0, Some((m + 1) as i64))), rate) == owed_cents(v, rate)
            + rate.mbps_unit_price_cents,
        !v[i].0.machine_rent ==> owed_cents(
            v.update(i, ((Port { machine_rent: true, ..v[i].0 }), v[i].1)),
            rate,
        ) == owed_cents(v, rate) + rate.machine_rent_cents,
        !v[i].0.machine_hosting ==> owed_cents(
            v.update(i, ((Port { machine_hosting: true, ..v[i].0 }), v[i].1)),
            rate,
        ) == owed_cents(v, rate) + rate.machine_hosting_cents,
{
    let none = Seq::<PortTraffic>::empty();
    let price = rate.mbps_unit_price_cents as int;
    let t = v[i];
    let a: PortTraffic = (t.0, Some((m + 1) as i64));
    let b: PortTraffic = ((Port { machine_rent: true, ..t.0 }), t.1);
    let c: PortTraffic = ((Port { machine_hosting: true, ..t.0 }), t.1);
    law_owed_of_one_port(v, i, a, rate);
    law_owed_of_one_port(v, i, b, rate);
    law_owed_of_one_port(v, i, c, rate);
    law_owed_port_by_port(none, t, rate);
    law_owed_port_by_port(none, a, rate);
    law_owed_port_by_port(none, b, rate);
    law_owed_port_by_port(none, c, rate);
    assert(none.push(t) =~= seq![t]);
    assert(none.push(a) =~= seq![a]);
    assert(none.push(b) =~= seq![b]);
    assert(none.push(c) =~= seq![c]);
    assert((m + 1) * price == m * price + price) by (nonlinear_arith);
    assert(0 * price == 0) by (nonlinear_arith);
}

/// Traffic that is unknown or not above zero costs nothing.
pub proof fn law_no_traffic_no_cost(v: Seq<PortTraffic>, i: int, m: Option<i64>, rate: Rate)
    requires
        0 <= i < v.len(),
        v[i].1 is None,
        m matches Some(n) ==> n <= 0,
    ensures
        owed_cents(v.update(i, (v[i].0, m)), rate) == owed_cents(v, rate),
{
    let none = Seq::<PortTraffic>::empty();
    let t: PortTraffic = (v[i].0, m);
    law_owed_of_one_port(v, i, t, rate);
    law_owed_port_by_port(none, t, rate);
    law_owed_port_by_port(none, v[i], rate);
    assert(none.push(t) =~= seq![t]);
    assert(none.push(v[i]) =~= seq![v[i]]);
}

/// An invoice has one line for each port, in their order, with label, traffic, rent and hosting.
pub proof fn law_one_line_per_port(v: Seq<PortTraffic>, i: int)
    requires
        0 <= i < v.len(),
    ensures
        lines_of(v).len() == v.len(),
        lines_of(v)[i].label == v[i].0.port_label@,
        lines_of(v)[i].mbps_95th == v[i].1,
        lines_of(v)[i].machine_rent == v[i].0.machine_rent,
        lines_of(v)[i].machine_hosting == v[i].0.machine_hosting,
{
}

/// An amount that is not refused fits into 64 bits; with prices that are not negative, one that
/// fits is not refused.
pub proof fn law_refused_only_where_too_large(v: Seq<PortTraffic>, rate: Rate)
    ensures
        owed_in_range(v, rate) ==> i64::MIN <= owed_cents(v, rate) <= i64::MAX,
        rate.mbps_unit_price_cents >= 0 && rate.ip_unit_price_cents >= 0 && rate.machine_rent_cents
            >= 0 && rate.machine_hosting_cents >= 0 && owed_cents(v, rate) <= i64::MAX
            ==> owed_in_range(v, rate),
{
    if rate.mbps_unit_price_cents >= 0 && rate.ip_unit_price_cents >= 0 && rate.machine_rent_cents
        >= 0 && rate.machine_hosting_cents >= 0 && owed_cents(v, rate) <= i64::MAX {
        law_owed_not_negative(Seq::empty(), rate);
        law_owed_not_negative(v, rate);
        lemma_parts_fit(v, rate);
    }
}

proof fn lemma_parts_fit(v: Seq<PortTraffic>, rate: Rate)
    requires
        rate.mbps_unit_price_cents >= 0,
        rate.ip_unit_price_cents >= 0,
        rate.machine_rent_cents >= 0,
        rate.machine_hosting_cents >= 0,
        ports_cents(v, rate) <= i64::MAX,
    ensures
        ports_in_range(v, rate),
    decreases v.len(),
{
    if v.len() > 0 {
        law_owed_not_negative(v, rate);
        law_owed_not_negative(v.drop_last(), rate);
        let c = charged(v.last().1);
        assert(c * rate.mbps_unit_price_cents >= 0) by (nonlinear_arith)
            requires
                c >= 0,
                rate.mbps_unit_price_cents >= 0,
        ;
        lemma_parts_fit(v.drop_last(), rate);
    }
}

} // verus!
