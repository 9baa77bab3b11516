//! Customers.
use crate::error::{Error, ErrorView, Result};
use crate::store;
use crate::store::rows;
use crate::store::rows::{
    Customer, CustomerView, Invoice, InvoiceView, LibreNmsInstance, Port, PortView, Rate, RateView,
};
use crate::store::table;
use crate::store::table::{Record, Row};
use crate::store::{Store, StoreView};
use crate::text;
use vstd::prelude::*;

verus! {

/// A customer to be added, without a template.
pub struct NewCustomer<'a> {
    pub internal_key: &'a str,
    pub name: &'a str,
    pub currency: &'a str,
    pub librenms_instance_id: i64,
    pub librenms_bill_id: i64,
    pub timezone: &'a str,
    pub company_type: &'a str,
    pub company_info_json: &'a str,
    pub company_info_schema_version: i64,
    pub billing_address: Option<&'a str>,
    pub contact_email: Option<&'a str>,
}

/// A customer to be added, with everything.
pub struct NewCustomerFull<'a> {
    pub internal_key: &'a str,
    pub name: &'a str,
    pub currency: &'a str,
    pub librenms_instance_id: i64,
    pub librenms_bill_id: i64,
    pub timezone: &'a str,
    pub company_type: &'a str,
    pub company_info_json: &'a str,
    pub company_info_schema_version: i64,
    pub billing_address: Option<&'a str>,
    pub contact_email: Option<&'a str>,
    pub template_name: Option<&'a str>,
    pub is_active: bool,
}

/// What a customer is changed to.
pub struct CustomerFullUpdate<'a> {
    pub internal_key: &'a str,
    pub name: &'a str,
    pub currency: &'a str,
    pub librenms_instance_id: i64,
    pub librenms_bill_id: i64,
    pub timezone: &'a str,
    pub company_type: &'a str,
    pub company_info_json: &'a str,
    pub company_info_schema_version: i64,
    pub billing_address: Option<&'a str>,
    pub contact_email: Option<&'a str>,
    pub template_name: Option<&'a str>,
    pub is_active: bool,
}

impl NewCustomer<'_> {
    /// The row with this number, made at this time: in use, without a template.
    pub open spec fn row(self, id: i64, now: Seq<char>) -> CustomerView {
        CustomerView {
            id,
            internal_key: self.internal_key@,
            name: self.name@,
            currency: self.currency@,
            librenms_instance_id: self.librenms_instance_id,
            librenms_bill_id: self.librenms_bill_id,
            timezone: self.timezone@,
            company_type: self.company_type@,
            company_info_json: self.company_info_json@,
            company_info_schema_version: self.company_info_schema_version,
            billing_address: rows::borrowed(self.billing_address),
            contact_email: rows::borrowed(self.contact_email),
            template_name: None,
            is_active: true,
            created_at: now,
        }
    }
}

impl NewCustomerFull<'_> {
    /// The row with this number, made at this time.
    pub open spec fn row(self, id: i64, now: Seq<char>) -> CustomerView {
        CustomerView {
            id,
            internal_key: self.internal_key@,
            name: self.name@,
            currency: self.currency@,
            librenms_instance_id: self.librenms_instance_id,
            librenms_bill_id: self.librenms_bill_id,
            timezone: self.timezone@,
            company_type: self.company_type@,
            company_info_json: self.company_info_json@,
            company_info_schema_version: self.company_info_schema_version,
            billing_address: rows::borrowed(self.billing_address),
            contact_email: rows::borrowed(self.contact_email),
            template_name: rows::borrowed(self.template_name),
            is_active: self.is_active,
            created_at: now,
        }
    }

    fn to_row(&self, id: i64, now: &str) -> (r: Customer)
        ensures
            r@ == self.row(id, now@),
    {
        Customer {
            id,
            internal_key: self.internal_key.to_owned(),
            name: self.name.to_owned(),
            currency: self.currency.to_owned(),
            librenms_instance_id: self.librenms_instance_id,
            librenms_bill_id: self.librenms_bill_id,
            timezone: self.timezone.to_owned(),
            company_type: self.company_type.to_owned(),
            company_info_json: self.company_info_json.to_owned(),
            company_info_schema_version: self.company_info_schema_version,
            billing_address: rows::own(self.billing_address),
            contact_email: rows::own(self.contact_email),
            template_name: rows::own(self.template_name),
            is_active: self.is_active,
            created_at: now.to_owned(),
        }
    }
}

impl CustomerFullUpdate<'_> {
    /// The row that replaces `v`.
    pub open spec fn row(self, v: CustomerView) -> CustomerView {
        CustomerView {
            id: v.id,
            internal_key: self.internal_key@,
            name: self.name@,
            currency: self.currency@,
            librenms_instance_id: self.librenms_instance_id,
            librenms_bill_id: self.librenms_bill_id,
            timezone: self.timezone@,
            company_type: self.company_type@,
            company_info_json: self.company_info_json@,
            company_info_schema_version: self.company_info_schema_version,
            billing_address: rows::borrowed(self.billing_address),
            contact_email: rows::borrowed(self.contact_email),
            template_name: rows::borrowed(self.template_name),
            is_active: self.is_active,
            created_at: v.created_at,
        }
    }
}

// ---------------------------------------------------------------------------
// Which rows
// ---------------------------------------------------------------------------

/// A customer with this key, the one with the number `except` aside.
pub open spec fn key_taken(key: Seq<char>, except: Option<i64>) -> spec_fn(CustomerView) -> bool {
    |v: CustomerView| v.internal_key == key && Some(v.id) != except
}

/// A customer with this bill, the one with the number `except` aside.
pub open spec fn bill_taken(instance: i64, bill: i64, except: Option<i64>) -> spec_fn(
    CustomerView,
) -> bool {
    |v: CustomerView|
        v.librenms_instance_id == instance && v.librenms_bill_id == bill && Some(v.id) != except
}

/// The customer with this key.
pub open spec fn keyed(key: Seq<char>) -> spec_fn(CustomerView) -> bool {
    |v: CustomerView| v.internal_key == key
}

/// A customer who is billed.
pub open spec fn billed() -> spec_fn(CustomerView) -> bool {
    |v: CustomerView| v.is_active
}

/// A customer whose invoices use this template.
pub open spec fn using(template: Seq<char>) -> spec_fn(CustomerView) -> bool {
    |v: CustomerView| v.template_name == Some(template)
}

/// A port of this customer.
pub open spec fn port_of(id: i64) -> spec_fn(PortView) -> bool {
    |v: PortView| v.customer_id == id
}

/// A rate of this customer.
pub open spec fn rate_of(id: i64) -> spec_fn(RateView) -> bool {
    |v: RateView| v.customer_id == id
}

/// An invoice of this customer.
pub open spec fn invoice_of(id: i64) -> spec_fn(InvoiceView) -> bool {
    |v: InvoiceView| v.customer_id == id
}

/// The order by number.
pub open spec fn by_id() -> spec_fn(CustomerView, CustomerView) -> bool {
    |a: CustomerView, b: CustomerView| a.id <= b.id
}

/// Why `v` cannot be a customer, where it cannot; the row with the number `except` is the one
/// that it replaces.
pub open spec fn customer_fault(s: StoreView, v: CustomerView, except: Option<i64>) -> Option<
    Seq<char>,
> {
    if !store::is_currency(v.currency) {
        Some(store::check("currency IN ('CNY','HKD')"@))
    } else if !store::is_company_type(v.company_type) {
        Some(store::check("company_type IN ('domestic','hk')"@))
    } else if table::any(s.customers, key_taken(v.internal_key, except)) {
        Some(store::unique("customers.internal_key"@))
    } else if table::any(
        s.customers,
        bill_taken(v.librenms_instance_id, v.librenms_bill_id, except),
    ) {
        Some(store::unique("customers.librenms_instance_id, customers.librenms_bill_id"@))
    } else if !table::known::<LibreNmsInstance>(s.instances, v.librenms_instance_id) {
        Some(store::foreign())
    } else {
        None
    }
}

/// The store after a customer has been added.
pub open spec fn with_customer(s: StoreView, v: CustomerView) -> StoreView {
    StoreView { customers: s.customers.push(v), ..s }
}

/// The store after the customer at `i` has been changed.
pub open spec fn with_customer_at(s: StoreView, i: int, v: CustomerView) -> StoreView {
    StoreView { customers: s.customers.update(i, v), ..s }
}

/// The store after the customer `id` has been changed by `f`; as it was where there is none.
pub open spec fn customer_changed(
    s: StoreView,
    id: i64,
    f: spec_fn(CustomerView) -> CustomerView,
) -> StoreView {
    match table::find_row(s.customers, table::numbered::<Customer>(id)) {
        Some(i) => with_customer_at(s, i, f(s.customers[i])),
        None => s,
    }
}

/// The store after the customer `id` has been removed.
pub open spec fn customer_removed(s: StoreView, id: i64) -> StoreView {
    match table::find_row(s.customers, table::numbered::<Customer>(id)) {
        Some(i) => StoreView { customers: s.customers.remove(i), ..s },
        None => s,
    }
}

/// What adding a customer does: `row` gives the row for a number.
pub open spec fn customer_added(
    before: StoreView,
    after: StoreView,
    r: Result<i64>,
    what: Seq<char>,
    row: spec_fn(i64) -> CustomerView,
) -> bool {
    match table::next_id(table::ids::<Customer>(before.customers)) {
        None => {
            &&& after == before
            &&& r matches Err(e) && e@ == store::refused(
                what,
                match customer_fault(before, row(0), None) {
                    Some(m) => m,
                    None => store::full(),
                },
            )
        },
        Some(id) => match customer_fault(before, row(id), None) {
            Some(m) => (r matches Err(e) && e@ == store::refused(what, m)) && after == before,
            None => r == Result::<i64>::Ok(id) && after == with_customer(before, row(id)),
        },
    }
}

proof fn lemma_links(s: StoreView, n: Seq<CustomerView>)
    requires
        s.wf(),
        forall|id: i64| table::known::<Customer>(s.customers, id) ==> #[trigger] table::known::<
            Customer,
        >(n, id),
    ensures
        store::ports_linked(s.ports, n),
        store::rates_linked(s.rates, n),
        store::invoices_linked(s.invoices, n, s.users),
{
}

proof fn lemma_add_keeps(s: StoreView, v: CustomerView)
    requires
        s.wf(),
        table::next_id(table::ids::<Customer>(s.customers)) == Some(v.id),
        customer_fault(s, v, None) is None,
    ensures
        with_customer(s, v).wf(),
{
    table::lemma_push::<Customer>(s.customers, v);
    let n = s.customers.push(v);
    lemma_links(s, n);
    assert forall|i: int, j: int|
        #![trigger n[i], n[j]]
        0 <= i < j < n.len() implies n[i].internal_key != n[j].internal_key && !(
    n[i].librenms_instance_id == n[j].librenms_instance_id && n[i].librenms_bill_id
        == n[j].librenms_bill_id) by {
        if j == s.customers.len() {
            assert(!key_taken(v.internal_key, None)(s.customers[i]));
            assert(!bill_taken(v.librenms_instance_id, v.librenms_bill_id, None)(s.customers[i]));
        } else {
            assert(s.customers[i].internal_key != s.customers[j].internal_key);
        }
    }
}

proof fn lemma_change_keeps(s: StoreView, i: int, v: CustomerView)
    requires
        s.wf(),
        0 <= i < s.customers.len(),
        v.id == s.customers[i].id,
        customer_fault(s, v, Some(v.id)) is None,
    ensures
        with_customer_at(s, i, v).wf(),
{
    table::lemma_update::<Customer>(s.customers, i, v);
    let n = s.customers.update(i, v);
    lemma_links(s, n);
    assert forall|a: int, b: int|
        #![trigger n[a], n[b]]
        0 <= a < b < n.len() implies n[a].internal_key != n[b].internal_key && !(
    n[a].librenms_instance_id == n[b].librenms_instance_id && n[a].librenms_bill_id
        == n[b].librenms_bill_id) by {
        assert(s.customers[a].id < s.customers[b].id);
        if a == i {
            assert(!key_taken(v.internal_key, Some(v.id))(s.customers[b]));
            assert(!bill_taken(v.librenms_instance_id, v.librenms_bill_id, Some(v.id))(
                s.customers[b],
            ));
        } else if b == i {
            assert(!key_taken(v.internal_key, Some(v.id))(s.customers[a]));
            assert(!bill_taken(v.librenms_instance_id, v.librenms_bill_id, Some(v.id))(
                s.customers[a],
            ));
        } else {
            assert(s.customers[a].internal_key != s.customers[b].internal_key);
        }
    }
}

proof fn lemma_active_keeps(s: StoreView, i: int, active: bool)
    requires
        s.wf(),
        0 <= i < s.customers.len(),
    ensures
        with_customer_at(s, i, CustomerView { is_active: active, ..s.customers[i] }).wf(),
{
    let v = CustomerView { is_active: active, ..s.customers[i] };
    assert forall|k: int| 0 <= k < s.customers.len() implies !key_taken(
        v.internal_key,
        Some(v.id),
    )(#[trigger] s.customers[k]) && !bill_taken(
        v.librenms_instance_id,
        v.librenms_bill_id,
        Some(v.id),
    )(s.customers[k]) by {
        if k < i {
            assert(s.customers[k].internal_key != s.customers[i].internal_key);
        } else if k > i {
            assert(s.customers[i].internal_key != s.customers[k].internal_key);
        }
    }
    lemma_change_keeps(s, i, v);
}

proof fn lemma_remove_keeps(s: StoreView, i: int)
    requires
        s.wf(),
        0 <= i < s.customers.len(),
        !table::any(s.ports, port_of(s.customers[i].id)),
        !table::any(s.invoices, invoice_of(s.customers[i].id)),
        !table::any(s.rates, rate_of(s.customers[i].id)),
    ensures
        (StoreView { customers: s.customers.remove(i), ..s }).wf(),
{
    table::lemma_remove::<Customer>(s.customers, i);
    let n = s.customers.remove(i);
    let id = s.customers[i].id;
    assert forall|k: int|
        #![trigger s.ports[k]]
        0 <= k < s.ports.len() implies table::known::<Customer>(n, s.ports[k].customer_id) by {
        assert(!port_of(id)(s.ports[k]));
    }
    assert forall|k: int|
        #![trigger s.rates[k]]
        0 <= k < s.rates.len() implies table::known::<Customer>(n, s.rates[k].customer_id) by {
        assert(!rate_of(id)(s.rates[k]));
    }
    assert forall|k: int|
        #![trigger s.invoices[k]]
        0 <= k < s.invoices.len() implies table::known::<Customer>(n, s.invoices[k].customer_id) by {
        assert(!invoice_of(id)(s.invoices[k]));
    }
}

fn sorted_by_id(rows: Vec<Customer>) -> (r: Vec<Customer>)
    ensures
        table::same_rows(table::views(r@), table::views(rows@)),
        table::ordered(table::views(r@), by_id()),
{
    let f = |a: &Customer, b: &Customer| -> (c: bool)
        ensures
            c == by_id()(a@, b@),
    {
        a.id <= b.id
    };
    table::sorted(rows, f, Ghost(by_id()))
}

/// How many rows stop a customer from being removed, in words.
pub open spec fn still_used(id: i64, n: nat, rest: Seq<char>) -> ErrorView {
    ErrorView::Database(
        "customer "@ + text::dec_int(id as int) + " 仍被 "@ + text::dec(n) + rest,
    )
}

fn still_used_error(id: i64, n: usize, rest: &str) -> (r: Error)
    ensures
        r@ == still_used(id, n as nat, rest@),
{
    let a = text::string_of(&text::number(id));
    let b = text::string_of(&text::digits(n as u64));
    let head = text::cat4("customer ", &a, " 仍被 ", &b);
    Error::Database(text::cat2(&head, rest))
}

/// Why the customer `id` cannot be removed, where that is so: ports, invoices and rates hold on.
pub open spec fn removal_fault(s: StoreView, id: i64) -> Option<ErrorView> {
    let ports = s.ports.filter(port_of(id)).len();
    let invoices = s.invoices.filter(invoice_of(id)).len();
    if ports > 0 {
        Some(still_used(id, ports, " 个 ports 引用,先删除 ports"@))
    } else if invoices > 0 {
        Some(still_used(id, invoices, " 个 invoices 引用,不可删除(归档需要)"@))
    } else if table::known::<Customer>(s.customers, id) && table::any(s.rates, rate_of(id)) {
        Some(store::refused("delete customer"@, store::foreign()))
    } else {
        None
    }
}

impl Store {
    fn customer_row_fault(&self, v: &Customer, except: Option<i64>) -> (r: Option<String>)
        ensures
            text::optional(r) == customer_fault(self@, v@, except),
    {
        if !(text::same(&v.currency, "CNY") || text::same(&v.currency, "HKD")) {
            return Some(store::check_text("currency IN ('CNY','HKD')"));
        }
        if !(text::same(&v.company_type, "domestic") || text::same(&v.company_type, "hk")) {
            return Some(store::check_text("company_type IN ('domestic','hk')"));
        }
        let f = |t: &Customer| -> (b: bool)
            ensures
                b == key_taken(v@.internal_key, except)(t@),
        {
            text::same(&t.internal_key, &v.internal_key) && match except {
                Some(e) => t.id != e,
                None => true,
            }
        };
        if table::any_row(&self.customers, f, Ghost(key_taken(v@.internal_key, except))) {
            return Some(store::unique_text("customers.internal_key"));
        }
        let g = |t: &Customer| -> (b: bool)
            ensures
                b == bill_taken(v@.librenms_instance_id, v@.librenms_bill_id, except)(t@),
        {
            t.librenms_instance_id == v.librenms_instance_id && t.librenms_bill_id
                == v.librenms_bill_id && match except {
                Some(e) => t.id != e,
                None => true,
            }
        };
        if table::any_row(
            &self.customers,
            g,
            Ghost(bill_taken(v@.librenms_instance_id, v@.librenms_bill_id, except)),
        ) {
            return Some(
                store::unique_text("customers.librenms_instance_id, customers.librenms_bill_id"),
            );
        }
        if !table::is_known(&self.instances, v.librenms_instance_id) {
            return Some(store::foreign_text());
        }
        None
    }

    fn add_customer(&mut self, c: &NewCustomerFull, what: &str, now: &str) -> (r: Result<i64>)
        ensures
            customer_added(old(self)@, final(self)@, r, what@, |id: i64| c.row(id, now@)),
            old(self)@.wf() ==> final(self)@.wf(),
    {
        let id = table::fresh_id(&self.customers);
        let number: i64 = match id {
            Some(n) => n,
            None => 0,
        };
        let row = c.to_row(number, now);
        match self.customer_row_fault(&row, None) {
            Some(m) => return Err(store::refuse(what, &m)),
            None => {},
        }
        if id.is_none() {
            return Err(store::refuse(what, &store::full_text()));
        }
        proof {
            table::lemma_views_push(self.customers@, row);
            if self@.wf() {
                lemma_add_keeps(self@, row@);
            }
        }
        self.customers.push(row);
        Ok(number)
    }

    /// Adds a customer who is billed from the start and has no template.
    pub fn insert_customer(&mut self, c: &NewCustomer, now: &str) -> (r: Result<i64>)
        ensures
            customer_added(
                old(self)@,
                final(self)@,
                r,
                "insert customers"@,
                |id: i64| c.row(id, now@),
            ),
            old(self)@.wf() ==> final(self)@.wf(),
    {
        let whole = NewCustomerFull {
            internal_key: c.internal_key,
            name: c.name,
            currency: c.currency,
            librenms_instance_id: c.librenms_instance_id,
            librenms_bill_id: c.librenms_bill_id,
            timezone: c.timezone,
            company_type: c.company_type,
            company_info_json: c.company_info_json,
            company_info_schema_version: c.company_info_schema_version,
            billing_address: c.billing_address,
            contact_email: c.contact_email,
            template_name: None,
            is_active: true,
        };
        assert(forall|id: i64| whole.row(id, now@) =~= c.row(id, now@));
        self.add_customer(&whole, "insert customers", now)
    }

    /// Adds a customer with everything.
    pub fn insert_customer_full(&mut self, c: &NewCustomerFull, now: &str) -> (r: Result<i64>)
        ensures
            customer_added(
                old(self)@,
                final(self)@,
                r,
                "insert customers (full)"@,
                |id: i64| c.row(id, now@),
            ),
            old(self)@.wf() ==> final(self)@.wf(),
    {
        self.add_customer(c, "insert customers (full)", now)
    }

    /// The customer with this key.
    pub fn find_customer_by_internal_key(&self, key: &str) -> (r: Option<Customer>)
        ensures
            table::found(r, self@.customers, keyed(key@)),
    {
        let f = |t: &Customer| -> (b: bool)
            ensures
                b == keyed(key@)(t@),
        {
            text::same(&t.internal_key, key)
        };
        table::at(
            &self.customers,
            table::position(&self.customers, f, Ghost(keyed(key@))),
            Ghost(keyed(key@)),
        )
    }

    /// The customer `id`.
    pub fn find_customer_by_id(&self, id: i64) -> (r: Option<Customer>)
        ensures
            table::found(r, self@.customers, table::numbered::<Customer>(id)),
    {
        table::at(&self.customers, table::position_of(&self.customers, id), Ghost(
            table::numbered::<Customer>(id),
        ))
    }

    /// The customers who are billed, by number.
    pub fn list_active_customers(&self) -> (r: Vec<Customer>)
        ensures
            table::same_rows(table::views(r@), self@.customers.filter(billed())),
            table::ordered(table::views(r@), by_id()),
    {
        let f = |t: &Customer| -> (b: bool)
            ensures
                b == billed()(t@),
        {
            t.is_active
        };
        sorted_by_id(table::select(&self.customers, f, Ghost(billed())))
    }

    /// All customers, by number.
    pub fn list_all_customers(&self) -> (r: Vec<Customer>)
        ensures
            table::same_rows(table::views(r@), self@.customers),
            table::ordered(table::views(r@), by_id()),
    {
        sorted_by_id(table::all(&self.customers))
    }

    /// Bills a customer from now on, or no longer.
    pub fn set_customer_active(&mut self, id: i64, active: bool)
        ensures
            final(self)@ == customer_changed(
                old(self)@,
                id,
                |v: CustomerView| CustomerView { is_active: active, ..v },
            ),
            old(self)@.wf() ==> final(self)@.wf(),
    {
        proof {
            table::lemma_numbered::<Customer>(self@.customers, id);
        }
        if let Some(i) = table::position_of(&self.customers, id) {
            let mut row = self.customers[i].copy();
            row.is_active = active;
            proof {
                table::lemma_views_set(self.customers@, i as int, row);
                if self@.wf() {
                    lemma_active_keeps(self@, i as int, active);
                }
            }
            self.customers.set(i, row);
        }
    }

    /// Changes everything about a customer but when it was added. Nothing happens where there is
    /// no such customer.
    pub fn update_customer(&mut self, id: i64, c: &CustomerFullUpdate) -> (r: Result<()>)
        ensures
            match table::find_row(old(self)@.customers, table::numbered::<Customer>(id)) {
                None => r is Ok && final(self)@ == old(self)@,
                Some(i) => match customer_fault(
                    old(self)@,
                    c.row(old(self)@.customers[i]),
                    Some(id),
                ) {
                    Some(m) => r matches Err(e) && e@ == store::refused("update customers"@, m)
                        && final(self)@ == old(self)@,
                    None => r is Ok && final(self)@ == with_customer_at(
                        old(self)@,
                        i,
                        c.row(old(self)@.customers[i]),
                    ),
                },
            },
            old(self)@.wf() ==> final(self)@.wf(),
    {
        proof {
            table::lemma_numbered::<Customer>(self@.customers, id);
        }
        match table::position_of(&self.customers, id) {
            None => Ok(()),
            Some(i) => {
                let whole = NewCustomerFull {
                    internal_key: c.internal_key,
                    name: c.name,
                    currency: c.currency,
                    librenms_instance_id: c.librenms_instance_id,
                    librenms_bill_id: c.librenms_bill_id,
                    timezone: c.timezone,
                    company_type: c.company_type,
                    company_info_json: c.company_info_json,
                    company_info_schema_version: c.company_info_schema_version,
                    billing_address: c.billing_address,
                    contact_email: c.contact_email,
                    template_name: c.template_name,
                    is_active: c.is_active,
                };
                let row = whole.to_row(self.customers[i].id, &self.customers[i].created_at);
                assert(row@ =~= c.row(self@.customers[i as int]));
                match self.customer_row_fault(&row, Some(id)) {
                    Some(m) => return Err(store::refuse("update customers", &m)),
                    None => {},
                }
                proof {
                    table::lemma_views_set(self.customers@, i as int, row);
                    if self@.wf() {
                        lemma_change_keeps(self@, i as int, row@);
                    }
                }
                self.customers.set(i, row);
                Ok(())
            },
        }
    }

    /// Removes a customer, unless ports, invoices or rates hold on.
    pub fn delete_customer(&mut self, id: i64) -> (r: Result<()>)
        ensures
            match removal_fault(old(self)@, id) {
                Some(m) => r matches Err(e) && e@ == m && final(self)@ == old(self)@,
                None => r is Ok && final(self)@ == customer_removed(old(self)@, id),
            },
            old(self)@.wf() ==> final(self)@.wf(),
    {
        let f = |t: &Port| -> (b: bool)
            ensures
                b == port_of(id)(t@),
        {
            t.customer_id == id
        };
        let ports: usize = table::tally(&self.ports, f, Ghost(port_of(id)));
        if ports > 0 {
            return Err(still_used_error(id, ports, " 个 ports 引用,先删除 ports"));
        }
        let g = |t: &Invoice| -> (b: bool)
            ensures
                b == invoice_of(id)(t@),
        {
            t.customer_id == id
        };
        let invoices: usize = table::tally(&self.invoices, g, Ghost(invoice_of(id)));
        if invoices > 0 {
            return Err(still_used_error(id, invoices, " 个 invoices 引用,不可删除(归档需要)"));
        }
        proof {
            table::lemma_numbered::<Customer>(self@.customers, id);
            table::lemma_none(self@.ports, port_of(id));
            table::lemma_none(self@.invoices, invoice_of(id));
        }
        if let Some(i) = table::position_of(&self.customers, id) {
            let h = |t: &Rate| -> (b: bool)
                ensures
                    b == rate_of(id)(t@),
            {
                t.customer_id == id
            };
            if table::any_row(&self.rates, h, Ghost(rate_of(id))) {
                return Err(store::refuse("delete customer", &store::foreign_text()));
            }
            proof {
                table::lemma_views_remove(self.customers@, i as int);
                if self@.wf() {
                    lemma_remove_keeps(self@, i as int);
                }
            }
            self.customers.remove(i);
        }
        Ok(())
    }

    /// How many customers use a template.
    pub fn count_customers_using_template(&self, name: &str) -> (r: usize)
        ensures
            r == self@.customers.filter(using(name@)).len(),
    {
        let f = |t: &Customer| -> (b: bool)
            ensures
                b == using(name@)(t@),
        {
            match &t.template_name {
                Some(n) => text::same(n, name),
                None => false,
            }
        };
        table::tally(&self.customers, f, Ghost(using(name@)))
    }
}

// ---------------------------------------------------------------------------
// Laws
// ---------------------------------------------------------------------------

/// A customer who has been added is found by key, and so is every other as before.
pub proof fn law_customer_found(
    before: StoreView,
    after: StoreView,
    r: Result<i64>,
    what: Seq<char>,
    row: spec_fn(i64) -> CustomerView,
    other: Seq<char>,
)
    requires
        customer_added(before, after, r, what, row),
        r is Ok,
        other != row(r->Ok_0).internal_key,
    ensures
        table::find_row(after.customers, keyed(row(r->Ok_0).internal_key)) matches Some(i)
            && after.customers[i] == row(r->Ok_0),
        table::find_row(after.customers, keyed(other)) == table::find_row(
            before.customers,
            keyed(other),
        ),
        table::find_row(before.customers, keyed(other)) matches Some(i) ==> after.customers[i]
            == before.customers[i],
{
    let v = row(r->Ok_0);
    let p = keyed(v.internal_key);
    table::lemma_find_row(before.customers, p);
    table::lemma_find_row(before.customers, keyed(other));
    assert(after.customers.drop_last() =~= before.customers);
    assert(after.customers.last() == v);
    if let Some(i) = table::find_row(before.customers, p) {
        assert(p(before.customers[i]));
        assert(key_taken(v.internal_key, None)(before.customers[i]));
    }
    assert(p(after.customers.last()));
    assert(!keyed(other)(after.customers.last()));
}

/// Which customers there can be: the currency is one of two, the kind of company is one of two, no
/// other customer has the key or the bill, and the server is there.
pub proof fn law_customer_refused(s: StoreView, v: CustomerView, except: Option<i64>)
    ensures
        customer_fault(s, v, except) is None <==> {
            &&& v.currency == "CNY"@ || v.currency == "HKD"@
            &&& v.company_type == "domestic"@ || v.company_type == "hk"@
            &&& forall|i: int|
                0 <= i < s.customers.len() && Some((#[trigger] s.customers[i]).id) != except
                    ==> s.customers[i].internal_key != v.internal_key && (
                s.customers[i].librenms_instance_id != v.librenms_instance_id
                    || s.customers[i].librenms_bill_id != v.librenms_bill_id)
            &&& exists|i: int|
                0 <= i < s.instances.len() && (#[trigger] s.instances[i]).id
                    == v.librenms_instance_id
        },
{
    let p = key_taken(v.internal_key, except);
    let q = bill_taken(v.librenms_instance_id, v.librenms_bill_id, except);
    if table::any(s.customers, p) {
        let i = choose|i: int| 0 <= i < s.customers.len() && p(#[trigger] s.customers[i]);
        assert(s.customers[i].internal_key == v.internal_key);
    }
    if table::any(s.customers, q) {
        let i = choose|i: int| 0 <= i < s.customers.len() && q(#[trigger] s.customers[i]);
        assert(s.customers[i].librenms_bill_id == v.librenms_bill_id);
    }
    if !table::any(s.customers, p) && !table::any(s.customers, q) {
        assert forall|i: int|
            0 <= i < s.customers.len() && Some((#[trigger] s.customers[i]).id) != except implies
        s.customers[i].internal_key != v.internal_key && (s.customers[i].librenms_instance_id
            != v.librenms_instance_id || s.customers[i].librenms_bill_id != v.librenms_bill_id) by {
            assert(!p(s.customers[i]));
            assert(!q(s.customers[i]));
        }
    }
    if table::known::<LibreNmsInstance>(s.instances, v.librenms_instance_id) {
        let i = choose|i: int|
            0 <= i < s.instances.len() && LibreNmsInstance::row_id(#[trigger] s.instances[i])
                == v.librenms_instance_id;
        assert(s.instances[i].id == v.librenms_instance_id);
    }
    if exists|i: int|
        0 <= i < s.instances.len() && (#[trigger] s.instances[i]).id == v.librenms_instance_id {
        let i = choose|i: int|
            0 <= i < s.instances.len() && (#[trigger] s.instances[i]).id == v.librenms_instance_id;
        assert(LibreNmsInstance::row_id(s.instances[i]) == v.librenms_instance_id);
    }
}

/// A customer is kept as given, in the one form and in the other; one added without a template is
/// billed from the start, and a change keeps the number and the time of making.
pub proof fn law_customer_as_given(
    a: NewCustomer,
    b: NewCustomerFull,
    c: CustomerFullUpdate,
    v: CustomerView,
    id: i64,
    now: Seq<char>,
)
    ensures
        ({
            let r = a.row(id, now);
            &&& r.id == id && r.created_at == now && r.is_active && r.template_name is None
            &&& r.internal_key == a.internal_key@ && r.name == a.name@ && r.currency == a.currency@
            &&& r.librenms_instance_id == a.librenms_instance_id && r.librenms_bill_id
                == a.librenms_bill_id && r.timezone == a.timezone@
            &&& r.company_type == a.company_type@ && r.company_info_json == a.company_info_json@
                && r.company_info_schema_version == a.company_info_schema_version
            &&& a.billing_address matches Some(t) ==> r.billing_address == Some(t@)
            &&& a.billing_address is None ==> r.billing_address is None
            &&& a.contact_email matches Some(t) ==> r.contact_email == Some(t@)
            &&& a.contact_email is None ==> r.contact_email is None
        }),
        ({
            let r = b.row(id, now);
            &&& r.id == id && r.created_at == now && r.is_active == b.is_active
            &&& r.internal_key == b.internal_key@ && r.name == b.name@ && r.currency == b.currency@
            &&& r.librenms_instance_id == b.librenms_instance_id && r.librenms_bill_id
                == b.librenms_bill_id && r.timezone == b.timezone@
            &&& r.company_type == b.company_type@ && r.company_info_json == b.company_info_json@
                && r.company_info_schema_version == b.company_info_schema_version
            &&& b.billing_address matches Some(t) ==> r.billing_address == Some(t@)
            &&& b.billing_address is None ==> r.billing_address is None
            &&& b.contact_email matches Some(t) ==> r.contact_email == Some(t@)
            &&& b.contact_email is None ==> r.contact_email is None
            &&& b.template_name matches Some(t) ==> r.template_name == Some(t@)
            &&& b.template_name is None ==> r.template_name is None
        }),
        ({
            let r = c.row(v);
            &&& r.id == v.id && r.created_at == v.created_at && r.is_active == c.is_active
            &&& r.internal_key == c.internal_key@ && r.name == c.name@ && r.currency == c.currency@
            &&& r.librenms_instance_id == c.librenms_instance_id && r.librenms_bill_id
                == c.librenms_bill_id && r.timezone == c.timezone@
            &&& r.company_type == c.company_type@ && r.company_info_json == c.company_info_json@
                && r.company_info_schema_version == c.company_info_schema_version
            &&& c.billing_address matches Some(t) ==> r.billing_address == Some(t@)
            &&& c.billing_address is None ==> r.billing_address is None
            &&& c.contact_email matches Some(t) ==> r.contact_email == Some(t@)
            &&& c.contact_email is None ==> r.contact_email is None
            &&& c.template_name matches Some(t) ==> r.template_name == Some(t@)
            &&& c.template_name is None ==> r.template_name is None
        }),
{
}

/// A customer is added behind the others under a number that none had, and nothing else changes;
/// what is refused changes nothing.
pub proof fn law_customer_added(
    before: StoreView,
    after: StoreView,
    r: Result<i64>,
    what: Seq<char>,
    row: spec_fn(i64) -> CustomerView,
)
    requires
        customer_added(before, after, r, what, row),
    ensures
        r is Err ==> after == before,
        r matches Ok(id) ==> {
            &&& after.customers.len() == before.customers.len() + 1
            &&& after.customers.drop_last() == before.customers
            &&& after.customers.last() == row(id)
            &&& after.ports == before.ports && after.rates == before.rates && after.invoices
                == before.invoices && after.instances == before.instances && after.users
                == before.users
            &&& forall|i: int|
                0 <= i < before.customers.len() ==> (#[trigger] before.customers[i]).id != id
        },
{
    if let Ok(id) = r {
        assert(after.customers.drop_last() =~= before.customers);
        if before.customers.len() > 0 {
            let ids = table::ids::<Customer>(before.customers);
            table::lemma_largest(ids);
            assert forall|i: int| 0 <= i < before.customers.len() implies (
            #[trigger] before.customers[i]).id != id by {
                assert(ids[i] == before.customers[i].id);
            }
        }
    }
}

/// Whether a customer is billed can be set, and that alone changes, of that customer alone.
pub proof fn law_customer_switched(s: StoreView, i: int, active: bool, id: i64)
    requires
        s.wf(),
        0 <= i < s.customers.len(),
        forall|k: int| 0 <= k < s.customers.len() ==> (#[trigger] s.customers[k]).id != id,
    ensures
        customer_changed(
            s,
            s.customers[i].id,
            |v: CustomerView| CustomerView { is_active: active, ..v },
        ) == (StoreView {
            customers: s.customers.update(
                i,
                CustomerView { is_active: active, ..s.customers[i] },
            ),
            ..s
        }),
        customer_changed(s, id, |v: CustomerView| CustomerView { is_active: active, ..v }) == s,
{
    table::law_one_row_per_number::<Customer>(s.customers, i);
    table::lemma_numbered::<Customer>(s.customers, id);
    assert(Customer::row_id(s.customers[i]) == s.customers[i].id);
    if table::known::<Customer>(s.customers, id) {
        let k = choose|k: int|
            0 <= k < s.customers.len() && Customer::row_id(#[trigger] s.customers[k]) == id;
        assert(s.customers[k].id == id);
    }
}

/// A customer can be removed exactly where no port, no invoice and no rate is theirs. Then nobody
/// has the number any more, and everything else stays.
pub proof fn law_customer_removed(s: StoreView, i: int)
    requires
        s.wf(),
        0 <= i < s.customers.len(),
    ensures
        ({
            let id = s.customers[i].id;
            &&& removal_fault(s, id) is None <==> {
                &&& forall|k: int| 0 <= k < s.ports.len() ==> (#[trigger] s.ports[k]).customer_id != id
                &&& forall|k: int|
                    0 <= k < s.invoices.len() ==> (#[trigger] s.invoices[k]).customer_id != id
                &&& forall|k: int| 0 <= k < s.rates.len() ==> (#[trigger] s.rates[k]).customer_id != id
            }
            &&& customer_removed(s, id) == (StoreView { customers: s.customers.remove(i), ..s })
            &&& forall|k: int|
                0 <= k < customer_removed(s, id).customers.len() ==> (
                #[trigger] customer_removed(s, id).customers[k]).id != id
        }),
{
    let id = s.customers[i].id;
    assert(Customer::row_id(s.customers[i]) == id);
    table::law_one_row_per_number::<Customer>(s.customers, i);
    table::lemma_none(s.ports, port_of(id));
    table::lemma_none(s.invoices, invoice_of(id));
    assert(table::known::<Customer>(s.customers, id));
    if table::any(s.ports, port_of(id)) {
        let k = choose|k: int| 0 <= k < s.ports.len() && port_of(id)(#[trigger] s.ports[k]);
        assert(s.ports[k].customer_id == id);
    } else {
        assert forall|k: int| 0 <= k < s.ports.len() implies (#[trigger] s.ports[k]).customer_id
            != id by {
            assert(!port_of(id)(s.ports[k]));
        }
    }
    if table::any(s.invoices, invoice_of(id)) {
        let k = choose|k: int|
            0 <= k < s.invoices.len() && invoice_of(id)(#[trigger] s.invoices[k]);
        assert(s.invoices[k].customer_id == id);
    } else {
        assert forall|k: int| 0 <= k < s.invoices.len() implies (
        #[trigger] s.invoices[k]).customer_id != id by {
            assert(!invoice_of(id)(s.invoices[k]));
        }
    }
    if table::any(s.rates, rate_of(id)) {
        let k = choose|k: int| 0 <= k < s.rates.len() && rate_of(id)(#[trigger] s.rates[k]);
        assert(s.rates[k].customer_id == id);
    } else {
        assert forall|k: int| 0 <= k < s.rates.len() implies (#[trigger] s.rates[k]).customer_id
            != id by {
            assert(!rate_of(id)(s.rates[k]));
        }
    }
    let n = s.customers.remove(i);
    assert forall|k: int| 0 <= k < n.len() implies (#[trigger] n[k]).id != id by {
        let j = if k < i { k } else { k + 1 };
        assert(n[k] == s.customers[j]);
        assert(Customer::row_id(s.customers[j]) != id);
    }
}

/// Everybody who is billed is listed, nobody else is, and the numbers go up.
pub proof fn law_customers_listed(list: Seq<CustomerView>, s: StoreView, v: CustomerView)
    requires
        table::same_rows(list, s.customers.filter(billed())),
        table::ordered(list, by_id()),
    ensures
        list.contains(v) <==> s.customers.contains(v) && v.is_active,
        forall|i: int, j: int|
            #![trigger list[i], list[j]]
            0 <= i < j < list.len() ==> list[i].id <= list[j].id,
{
    table::law_selected_rows(list, s.customers, billed());
    assert forall|i: int, j: int|
        #![trigger list[i], list[j]]
        0 <= i < j < list.len() implies list[i].id <= list[j].id by {
        assert(by_id()(list[i], list[j]));
    }
}

/// One more customer with a template counts, one with another or none does not.
pub proof fn law_template_uses(rows: Seq<CustomerView>, v: CustomerView, template: Seq<char>)
    ensures
        rows.push(v).filter(using(template)).len() == rows.filter(using(template)).len() + (
        if v.template_name == Some(template) {
            1nat
        } else {
            0
        }),
        Seq::<CustomerView>::empty().filter(using(template)).len() == 0,
{
    reveal(Seq::filter);
    assert(rows.push(v).drop_last() =~= rows);
}

/// A key that is looked up finds the customer who has it.
pub proof fn law_customer_by_key(s: StoreView, i: int)
    requires
        s.wf(),
        0 <= i < s.customers.len(),
    ensures
        table::find_row(s.customers, keyed(s.customers[i].internal_key)) == Some(i),
{
    let p = keyed(s.customers[i].internal_key);
    table::lemma_find_row(s.customers, p);
    assert(p(s.customers[i]));
    let k = table::find_row(s.customers, p)->0;
    assert(p(s.customers[k]));
    if k < i {
        assert(s.customers[k].internal_key != s.customers[i].internal_key);
    } else if i < k {
        assert(s.customers[i].internal_key != s.customers[k].internal_key);
    }
}

/// Why there cannot be such a customer, in the order in which that is found out.
pub proof fn law_why_no_customer(s: StoreView, v: CustomerView, except: Option<i64>, i: int)
    ensures
        ({
            let f = customer_fault(s, v, except);
            let money = v.currency == "CNY"@ || v.currency == "HKD"@;
            let place = v.company_type == "domestic"@ || v.company_type == "hk"@;
            &&& !money ==> f == Some(store::check("currency IN ('CNY','HKD')"@))
            &&& money && !place ==> f == Some(store::check("company_type IN ('domestic','hk')"@))
            &&& money && place && 0 <= i < s.customers.len() && s.customers[i].internal_key
                == v.internal_key && Some(s.customers[i].id) != except ==> f == Some(
                store::unique("customers.internal_key"@),
            )
        }),
{
    if 0 <= i < s.customers.len() && s.customers[i].internal_key == v.internal_key && Some(
        s.customers[i].id,
    ) != except {
        assert(key_taken(v.internal_key, except)(s.customers[i]));
    }
}

/// Why a customer stays: the number of ports, or of invoices, that are theirs.
pub proof fn law_why_customer_stays(s: StoreView, id: i64)
    ensures
        ({
            let ports = s.ports.filter(port_of(id)).len();
            let invoices = s.invoices.filter(invoice_of(id)).len();
            &&& ports > 0 ==> removal_fault(s, id) == Some(
                ErrorView::Database(
                    "customer "@ + text::dec_int(id as int) + " 仍被 "@ + text::dec(ports)
                        + " 个 ports 引用,先删除 ports"@,
                ),
            )
            &&& ports == 0 && invoices > 0 ==> removal_fault(s, id) == Some(
                ErrorView::Database(
                    "customer "@ + text::dec_int(id as int) + " 仍被 "@ + text::dec(invoices)
                        + " 个 invoices 引用,不可删除(归档需要)"@,
                ),
            )
        }),
{
}

} // verus!
