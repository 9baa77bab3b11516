//! Ports.
use crate::error::Result;
use crate::store;
use crate::store::customers;
use crate::store::rows;
use crate::store::rows::{Customer, Port, PortView};
use crate::store::table;
use crate::store::table::{Record, Row};
use crate::store::{Store, StoreView};
use crate::text;
use vstd::prelude::*;

verus! {

/// A port of this customer with this label, the one with the number `except` aside.
pub open spec fn label_taken(customer: i64, label: Seq<char>, except: Option<i64>) -> spec_fn(
    PortView,
) -> bool {
    |v: PortView| v.customer_id == customer && v.port_label == label && Some(v.id) != except
}

/// The order by number.
pub open spec fn by_id() -> spec_fn(PortView, PortView) -> bool {
    |a: PortView, b: PortView| a.id <= b.id
}

/// Why `v` cannot be added, where it cannot.
pub open spec fn port_fault(s: StoreView, v: PortView) -> Option<Seq<char>> {
    if table::any(s.ports, label_taken(v.customer_id, v.port_label, None)) {
        Some(store::unique("ports.customer_id, ports.port_label"@))
    } else if !table::known::<Customer>(s.customers, v.customer_id) {
        Some(store::foreign())
    } else {
        None
    }
}

/// The store after a port has been added.
pub open spec fn with_port(s: StoreView, v: PortView) -> StoreView {
    StoreView { ports: s.ports.push(v), ..s }
}

/// The store after the port at `i` has been changed.
pub open spec fn with_port_at(s: StoreView, i: int, v: PortView) -> StoreView {
    StoreView { ports: s.ports.update(i, v), ..s }
}

/// The store after the port `id` has been removed.
pub open spec fn port_removed(s: StoreView, id: i64) -> StoreView {
    match table::find_row(s.ports, table::numbered::<Port>(id)) {
        Some(i) => StoreView { ports: s.ports.remove(i), ..s },
        None => s,
    }
}

/// What adding a port does: `v` is the row but for its number.
pub open spec fn port_added(
    before: StoreView,
    after: StoreView,
    r: Result<i64>,
    what: Seq<char>,
    v: PortView,
) -> bool {
    match port_fault(before, v) {
        Some(m) => (r matches Err(e) && e@ == store::refused(what, m)) && after == before,
        None => match table::next_id(table::ids::<Port>(before.ports)) {
            None => (r matches Err(e) && e@ == store::refused(what, store::full())) && after
                == before,
            Some(id) => r == Result::<i64>::Ok(id) && after == with_port(
                before,
                PortView { id, ..v },
            ),
        },
    }
}

proof fn lemma_add_keeps(s: StoreView, v: PortView)
    requires
        s.wf(),
        table::next_id(table::ids::<Port>(s.ports)) == Some(v.id),
        port_fault(s, v) is None,
    ensures
        with_port(s, v).wf(),
{
    table::lemma_push::<Port>(s.ports, v);
    let n = s.ports.push(v);
    assert forall|i: int, j: int|
        #![trigger n[i], n[j]]
        0 <= i < j < n.len() implies !(n[i].customer_id == n[j].customer_id && n[i].port_label
        == n[j].port_label) by {
        if j == s.ports.len() {
            assert(!label_taken(v.customer_id, v.port_label, None)(s.ports[i]));
        } else {
            assert(!(s.ports[i].customer_id == s.ports[j].customer_id && s.ports[i].port_label
                == s.ports[j].port_label));
        }
    }
}

proof fn lemma_change_keeps(s: StoreView, i: int, v: PortView)
    requires
        s.wf(),
        0 <= i < s.ports.len(),
        v.id == s.ports[i].id,
        v.customer_id == s.ports[i].customer_id,
        !table::any(s.ports, label_taken(v.customer_id, v.port_label, Some(v.id))),
    ensures
        with_port_at(s, i, v).wf(),
{
    table::lemma_update::<Port>(s.ports, i, v);
    let n = s.ports.update(i, v);
    assert forall|a: int, b: int|
        #![trigger n[a], n[b]]
        0 <= a < b < n.len() implies !(n[a].customer_id == n[b].customer_id && n[a].port_label
        == n[b].port_label) by {
        assert(s.ports[a].id < s.ports[b].id);
        if a == i {
            assert(!label_taken(v.customer_id, v.port_label, Some(v.id))(s.ports[b]));
        } else if b == i {
            assert(!label_taken(v.customer_id, v.port_label, Some(v.id))(s.ports[a]));
        } else {
            assert(!(s.ports[a].customer_id == s.ports[b].customer_id && s.ports[a].port_label
                == s.ports[b].port_label));
        }
    }
}

impl Store {
    fn label_is_taken(&self, customer: i64, label: &str, except: Option<i64>) -> (r: bool)
        ensures
            r == table::any(self@.ports, label_taken(customer, label@, except)),
    {
        let f = |t: &Port| -> (b: bool)
            ensures
                b == label_taken(customer, label@, except)(t@),
        {
            t.customer_id == customer && text::same(&t.port_label, label) && match except {
                Some(e) => t.id != e,
                None => true,
            }
        };
        table::any_row(&self.ports, f, Ghost(label_taken(customer, label@, except)))
    }

    fn add_port(&mut self, port: Port, what: &str) -> (r: Result<i64>)
        ensures
            port_added(old(self)@, final(self)@, r, what@, port@),
            old(self)@.wf() ==> final(self)@.wf(),
    {
        if self.label_is_taken(port.customer_id, &port.port_label, None) {
            return Err(
                store::refuse(what, &store::unique_text("ports.customer_id, ports.port_label")),
            );
        }
        if !table::is_known(&self.customers, port.customer_id) {
            return Err(store::refuse(what, &store::foreign_text()));
        }
        let id: i64 = match table::fresh_id(&self.ports) {
            Some(id) => id,
            None => return Err(store::refuse(what, &store::full_text())),
        };
        let mut row = port.copy();
        row.id = id;
        proof {
            table::lemma_views_push(self.ports@, row);
            if self@.wf() {
                lemma_add_keeps(self@, row@);
            }
        }
        self.ports.push(row);
        Ok(id)
    }

    /// Adds a port that shares the bill of its customer.
    pub fn insert_port(
        &mut self,
        customer_id: i64,
        port_label: &str,
        ip_count_a: i64,
        ip_count_b: i64,
        machine_rent: bool,
        machine_hosting: bool,
        notes: Option<&str>,
    ) -> (r: Result<i64>)
        ensures
            port_added(
                old(self)@,
                final(self)@,
                r,
                "insert ports"@,
                PortView {
                    id: 0,
                    customer_id,
                    port_label: port_label@,
                    ip_count_a,
                    ip_count_b,
                    machine_rent,
                    machine_hosting,
                    librenms_bill_id: None,
                    notes: rows::borrowed(notes),
                },
            ),
            old(self)@.wf() ==> final(self)@.wf(),
    {
        self.add_port(
            Port {
                id: 0,
                customer_id,
                port_label: port_label.to_owned(),
                ip_count_a,
                ip_count_b,
                machine_rent,
                machine_hosting,
                librenms_bill_id: None,
                notes: rows::own(notes),
            },
            "insert ports",
        )
    }

    /// Adds a port, which may have a bill of its own.
    pub fn insert_port_with_bill(
        &mut self,
        customer_id: i64,
        port_label: &str,
        ip_count_a: i64,
        ip_count_b: i64,
        machine_rent: bool,
        machine_hosting: bool,
        librenms_bill_id: Option<i64>,
        notes: Option<&str>,
    ) -> (r: Result<i64>)
        ensures
            port_added(
                old(self)@,
                final(self)@,
                r,
                "insert ports (with bill)"@,
                PortView {
                    id: 0,
                    customer_id,
                    port_label: port_label@,
                    ip_count_a,
                    ip_count_b,
                    machine_rent,
                    machine_hosting,
                    librenms_bill_id,
                    notes: rows::borrowed(notes),
                },
            ),
            old(self)@.wf() ==> final(self)@.wf(),
    {
        self.add_port(
            Port {
                id: 0,
                customer_id,
                port_label: port_label.to_owned(),
                ip_count_a,
                ip_count_b,
                machine_rent,
                machine_hosting,
                librenms_bill_id,
                notes: rows::own(notes),
            },
            "insert ports (with bill)",
        )
    }

    /// The ports of a customer, by number.
    pub fn list_ports_for_customer(&self, customer_id: i64) -> (r: Vec<Port>)
        ensures
            table::same_rows(
                table::views(r@),
                self@.ports.filter(customers::port_of(customer_id)),
            ),
            table::ordered(table::views(r@), by_id()),
    {
        let f = |t: &Port| -> (b: bool)
            ensures
                b == customers::port_of(customer_id)(t@),
        {
            t.customer_id == customer_id
        };
        let chosen = table::select(&self.ports, f, Ghost(customers::port_of(customer_id)));
        let g = |a: &Port, b: &Port| -> (c: bool)
            ensures
                c == by_id()(a@, b@),
        {
            a.id <= b.id
        };
        table::sorted(chosen, g, Ghost(by_id()))
    }

    /// The port `id`.
    pub fn find_port_by_id(&self, id: i64) -> (r: Option<Port>)
        ensures
            table::found(r, self@.ports, table::numbered::<Port>(id)),
    {
        table::at(&self.ports, table::position_of(&self.ports, id), Ghost(
            table::numbered::<Port>(id),
        ))
    }

    /// Changes everything about a port but whose it is. Nothing happens where there is none.
    pub fn update_port(
        &mut self,
        id: i64,
        port_label: &str,
        ip_count_a: i64,
        ip_count_b: i64,
        machine_rent: bool,
        machine_hosting: bool,
        librenms_bill_id: Option<i64>,
        notes: Option<&str>,
    ) -> (r: Result<()>)
        ensures
            match table::find_row(old(self)@.ports, table::numbered::<Port>(id)) {
                None => r is Ok && final(self)@ == old(self)@,
                Some(i) => if table::any(
                    old(self)@.ports,
                    label_taken(old(self)@.ports[i].customer_id, port_label@, Some(id)),
                ) {
                    (r matches Err(e) && e@ == store::refused(
                        "update port"@,
                        store::unique("ports.customer_id, ports.port_label"@),
                    )) && final(self)@ == old(self)@
                } else {
                    r is Ok && final(self)@ == with_port_at(
                        old(self)@,
                        i,
                        PortView {
                            id: old(self)@.ports[i].id,
                            customer_id: old(self)@.ports[i].customer_id,
                            port_label: port_label@,
                            ip_count_a,
                            ip_count_b,
                            machine_rent,
                            machine_hosting,
                            librenms_bill_id,
                            notes: rows::borrowed(notes),
                        },
                    )
                },
            },
            old(self)@.wf() ==> final(self)@.wf(),
    {
        proof {
            table::lemma_numbered::<Port>(self@.ports, id);
        }
        match table::position_of(&self.ports, id) {
            None => Ok(()),
            Some(i) => {
                let customer_id: i64 = self.ports[i].customer_id;
                if self.label_is_taken(customer_id, port_label, Some(id)) {
                    return Err(
                        store::refuse(
                            "update port",
                            &store::unique_text("ports.customer_id, ports.port_label"),
                        ),
                    );
                }
                let row = Port {
                    id: self.ports[i].id,
                    customer_id,
                    port_label: port_label.to_owned(),
                    ip_count_a,
                    ip_count_b,
                    machine_rent,
                    machine_hosting,
                    librenms_bill_id,
                    notes: rows::own(notes),
                };
                proof {
                    table::lemma_views_set(self.ports@, i as int, row);
                    if self@.wf() {
                        lemma_change_keeps(self@, i as int, row@);
                    }
                }
                self.ports.set(i, row);
                Ok(())
            },
        }
    }

    /// Removes a port.
    pub fn delete_port(&mut self, id: i64)
        ensures
            final(self)@ == port_removed(old(self)@, id),
            old(self)@.wf() ==> final(self)@.wf(),
    {
        if let Some(i) = table::position_of(&self.ports, id) {
            proof {
                table::lemma_views_remove(self.ports@, i as int);
                table::lemma_remove::<Port>(self@.ports, i as int);
            }
            self.ports.remove(i);
        }
    }
}

// ---------------------------------------------------------------------------
// Laws
// ---------------------------------------------------------------------------

/// A port that has been added is listed behind the others of its customer and found by its number;
/// the ports of other customers are listed as before.
pub proof fn law_port_listed(
    before: StoreView,
    after: StoreView,
    r: Result<i64>,
    what: Seq<char>,
    v: PortView,
    other: i64,
)
    requires
        port_added(before, after, r, what, v),
        r is Ok,
        other != v.customer_id,
    ensures
        ({
            let row = PortView { id: r->Ok_0, ..v };
            &&& after.ports.filter(customers::port_of(v.customer_id)) == before.ports.filter(
                customers::port_of(v.customer_id),
            ).push(row)
            &&& table::find_row(after.ports, table::numbered::<Port>(r->Ok_0)) matches Some(i)
                && after.ports[i] == row
        }),
        after.ports.filter(customers::port_of(other)) == before.ports.filter(
            customers::port_of(other),
        ),
{
    reveal(Seq::filter);
    let row = PortView { id: r->Ok_0, ..v };
    table::lemma_push::<Port>(before.ports, row);
    assert(after.ports.drop_last() =~= before.ports);
    assert(after.ports.last() == row);
    let p = table::numbered::<Port>(row.id);
    assert forall|j: int| 0 <= j < before.ports.len() implies !p(#[trigger] after.ports[j]) by {
        assert(after.ports[j] == before.ports[j]);
    }
    assert(p(after.ports[before.ports.len() as int]));
    table::lemma_found(after.ports, p, before.ports.len() as int);
}

/// A port that has been removed is not found; every other one still is.
pub proof fn law_port_gone(s: StoreView, id: i64, other: i64)
    requires
        s.wf(),
        other != id,
    ensures
        !table::known::<Port>(port_removed(s, id).ports, id),
        table::known::<Port>(port_removed(s, id).ports, other) == table::known::<Port>(
            s.ports,
            other,
        ),
{
    table::lemma_numbered::<Port>(s.ports, id);
    if let Some(i) = table::find_row(s.ports, table::numbered::<Port>(id)) {
        table::lemma_remove::<Port>(s.ports, i);
        let n = s.ports.remove(i);
        assert forall|k: int| 0 <= k < n.len() implies (#[trigger] n[k]).id != id by {
            if k < i {
                assert(s.ports[k].id < s.ports[i].id);
            } else {
                assert(n[k] == s.ports[k + 1]);
                assert(s.ports[i].id < s.ports[k + 1].id);
            }
        }
        if table::known::<Port>(n, other) {
            let k = choose|k: int| 0 <= k < n.len() && Port::row_id(#[trigger] n[k]) == other;
            let j = if k < i {
                k
            } else {
                k + 1
            };
            assert(n[k] == s.ports[j]);
        }
    }
}

/// A port can be added exactly where its customer is there and has no port with its label.
pub proof fn law_port_refused(s: StoreView, v: PortView)
    ensures
        port_fault(s, v) is None <==> {
            &&& forall|i: int|
                0 <= i < s.ports.len() && (#[trigger] s.ports[i]).customer_id == v.customer_id
                    ==> s.ports[i].port_label != v.port_label
            &&& exists|i: int|
                0 <= i < s.customers.len() && (#[trigger] s.customers[i]).id == v.customer_id
        },
{
    let p = label_taken(v.customer_id, v.port_label, None);
    if table::any(s.ports, p) {
        let i = choose|i: int| 0 <= i < s.ports.len() && p(#[trigger] s.ports[i]);
        assert(s.ports[i].customer_id == v.customer_id);
    } else {
        assert forall|i: int|
            0 <= i < s.ports.len() && (#[trigger] s.ports[i]).customer_id == v.customer_id implies
        s.ports[i].port_label != v.port_label by {
            assert(!p(s.ports[i]));
        }
    }
    if table::known::<Customer>(s.customers, v.customer_id) {
        let i = choose|i: int|
            0 <= i < s.customers.len() && Customer::row_id(#[trigger] s.customers[i])
                == v.customer_id;
        assert(s.customers[i].id == v.customer_id);
    }
    if exists|i: int| 0 <= i < s.customers.len() && (#[trigger] s.customers[i]).id == v.customer_id {
        let i = choose|i: int|
            0 <= i < s.customers.len() && (#[trigger] s.customers[i]).id == v.customer_id;
        assert(Customer::row_id(s.customers[i]) == v.customer_id);
    }
}

/// A port is added behind the others as it was given, under a number of its own.
pub proof fn law_port_added(
    before: StoreView,
    after: StoreView,
    r: Result<i64>,
    what: Seq<char>,
    v: PortView,
)
    requires
        port_added(before, after, r, what, v),
    ensures
        r is Err ==> after == before,
        r matches Ok(id) ==> {
            let w = after.ports.last();
            &&& after.ports.len() == before.ports.len() + 1
            &&& after.ports.drop_last() == before.ports
            &&& w.id == id
            &&& w.customer_id == v.customer_id && w.port_label == v.port_label
            &&& w.ip_count_a == v.ip_count_a && w.ip_count_b == v.ip_count_b
            &&& w.machine_rent == v.machine_rent && w.machine_hosting == v.machine_hosting
            &&& w.librenms_bill_id == v.librenms_bill_id && w.notes == v.notes
            &&& after.customers == before.customers && after.rates == before.rates
                && after.invoices == before.invoices
            &&& forall|i: int| 0 <= i < before.ports.len() ==> (#[trigger] before.ports[i]).id != id
        },
{
    if let Ok(id) = r {
        assert(after.ports.drop_last() =~= before.ports);
        if before.ports.len() > 0 {
            let ids = table::ids::<Port>(before.ports);
            table::lemma_largest(ids);
            assert forall|i: int| 0 <= i < before.ports.len() implies (
            #[trigger] before.ports[i]).id != id by {
                assert(ids[i] == before.ports[i].id);
            }
        }
    }
}

/// A label is free for a port of a customer exactly where no other port of that customer has it.
pub proof fn law_label_free(s: StoreView, customer: i64, label: Seq<char>, id: i64)
    ensures
        !table::any(s.ports, label_taken(customer, label, Some(id))) <==> forall|i: int|
            0 <= i < s.ports.len() && (#[trigger] s.ports[i]).id != id ==> s.ports[i].customer_id
                != customer || s.ports[i].port_label != label,
{
    let p = label_taken(customer, label, Some(id));
    if table::any(s.ports, p) {
        let i = choose|i: int| 0 <= i < s.ports.len() && p(#[trigger] s.ports[i]);
        assert(s.ports[i].port_label == label);
    } else {
        assert forall|i: int| 0 <= i < s.ports.len() && (#[trigger] s.ports[i]).id != id implies
        s.ports[i].customer_id != customer || s.ports[i].port_label != label by {
            assert(!p(s.ports[i]));
        }
    }
}

/// All ports of a customer are listed and no other, and the numbers go up.
pub proof fn law_ports_listed(list: Seq<PortView>, s: StoreView, customer: i64, v: PortView)
    requires
        table::same_rows(list, s.ports.filter(customers::port_of(customer))),
        table::ordered(list, by_id()),
    ensures
        list.contains(v) <==> s.ports.contains(v) && v.customer_id == customer,
        forall|i: int, j: int|
            #![trigger list[i], list[j]]
            0 <= i < j < list.len() ==> list[i].id <= list[j].id,
{
    table::law_selected_rows(list, s.ports, customers::port_of(customer));
    assert forall|i: int, j: int|
        #![trigger list[i], list[j]]
        0 <= i < j < list.len() implies list[i].id <= list[j].id by {
        assert(by_id()(list[i], list[j]));
    }
}

/// Removing a port takes that port away and nothing else; changing one changes it alone.
pub proof fn law_port_removed(s: StoreView, i: int, id: i64, v: PortView)
    requires
        s.wf(),
        0 <= i < s.ports.len(),
        forall|k: int| 0 <= k < s.ports.len() ==> (#[trigger] s.ports[k]).id != id,
    ensures
        port_removed(s, s.ports[i].id) == (StoreView { ports: s.ports.remove(i), ..s }),
        port_removed(s, id) == s,
        with_port_at(s, i, v) == (StoreView { ports: s.ports.update(i, v), ..s }),
{
    assert(Port::row_id(s.ports[i]) == s.ports[i].id);
    table::law_one_row_per_number::<Port>(s.ports, i);
    table::lemma_numbered::<Port>(s.ports, id);
    if table::known::<Port>(s.ports, id) {
        let k = choose|k: int| 0 <= k < s.ports.len() && Port::row_id(#[trigger] s.ports[k]) == id;
        assert(s.ports[k].id == id);
    }
}

/// Why a port cannot be added: its label first, its customer then.
pub proof fn law_why_no_port(s: StoreView, v: PortView, i: int)
    ensures
        0 <= i < s.ports.len() && s.ports[i].customer_id == v.customer_id && s.ports[i].port_label
            == v.port_label ==> port_fault(s, v) == Some(
            store::unique("ports.customer_id, ports.port_label"@),
        ),
        port_fault(s, v) is Some ==> port_fault(s, v) == Some(
            store::unique("ports.customer_id, ports.port_label"@),
        ) || port_fault(s, v) == Some(store::foreign()),
{
    if 0 <= i < s.ports.len() && s.ports[i].customer_id == v.customer_id && s.ports[i].port_label
        == v.port_label {
        assert(label_taken(v.customer_id, v.port_label, None)(s.ports[i]));
    }
}

} // verus!
