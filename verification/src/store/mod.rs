//! What is kept: servers, customers, ports, rates, invoices, users, settings.
//!
//! A `Store` holds the rows of all tables. Every operation on it says which rows it reads and
//! which one it adds, changes or removes; a database keeps a copy of the rows.
pub mod customers;
pub mod instances;
pub mod invoices;
pub mod migrations;
pub mod ports;
pub mod rates;
pub mod rows;
pub mod runs;
pub mod settings;
pub mod table;
pub mod users;

use crate::error::{Error, ErrorView};
use crate::store::rows::{
    ActionRow, ActionView, CustomerView, InstanceView, InvoiceView, LoginRow, LoginView, PortView,
    RateView, RunRow, RunView, SequenceRow, SequenceView, SettingRow, SettingView, TemplateView, UserView,
};
use crate::text;
use crate::store::table::Row;
use vstd::prelude::*;

pub use crate::store::customers::{CustomerFullUpdate, NewCustomer, NewCustomerFull};
pub use crate::store::rates::NewRate;
pub use crate::store::rows::{
    Customer, Invoice, InvoiceStatus, LibreNmsInstance, Port, Rate, TemplateVersionRow, User,
};

verus! {

/// The rows of all tables.
pub struct Store {
    pub instances: Vec<LibreNmsInstance>,
    pub customers: Vec<Customer>,
    pub ports: Vec<Port>,
    pub rates: Vec<Rate>,
    pub users: Vec<User>,
    pub logins: Vec<LoginRow>,
    pub invoices: Vec<Invoice>,
    pub actions: Vec<ActionRow>,
    pub runs: Vec<RunRow>,
    pub settings: Vec<SettingRow>,
    pub sequences: Vec<SequenceRow>,
    pub templates: Vec<TemplateVersionRow>,
}

/// The mathematical value of a `Store`.
#[verifier::ext_equal]
pub struct StoreView {
    pub instances: Seq<InstanceView>,
    pub customers: Seq<CustomerView>,
    pub ports: Seq<PortView>,
    pub rates: Seq<RateView>,
    pub users: Seq<UserView>,
    pub logins: Seq<LoginView>,
    pub invoices: Seq<InvoiceView>,
    pub actions: Seq<ActionView>,
    pub runs: Seq<RunView>,
    pub settings: Seq<SettingView>,
    pub sequences: Seq<SequenceView>,
    pub templates: Seq<TemplateView>,
}

impl View for Store {
    type V = StoreView;

    open spec fn view(&self) -> StoreView {
        StoreView {
            instances: table::views(self.instances@),
            customers: table::views(self.customers@),
            ports: table::views(self.ports@),
            rates: table::views(self.rates@),
            users: table::views(self.users@),
            logins: table::views(self.logins@),
            invoices: table::views(self.invoices@),
            actions: table::views(self.actions@),
            runs: table::views(self.runs@),
            settings: table::views(self.settings@),
            sequences: table::views(self.sequences@),
            templates: table::views(self.templates@),
        }
    }
}

// ---------------------------------------------------------------------------
// What always holds
// ---------------------------------------------------------------------------

/// Servers: numbers grow, names differ.
pub open spec fn instances_ok(s: Seq<InstanceView>) -> bool {
    &&& table::increasing::<LibreNmsInstance>(s)
    &&& forall|i: int, j: int|
        #![trigger s[i], s[j]]
        0 <= i < j < s.len() ==> s[i].name != s[j].name
}

/// A currency that invoices can be written in.
pub open spec fn is_currency(c: Seq<char>) -> bool {
    c == "CNY"@ || c == "HKD"@
}

/// Where a company is registered.
pub open spec fn is_company_type(c: Seq<char>) -> bool {
    c == "domestic"@ || c == "hk"@
}

/// Customers: numbers grow, keys differ, no bill belongs to two, currencies and company types are
/// known ones.
pub open spec fn customers_ok(s: Seq<CustomerView>) -> bool {
    &&& table::increasing::<Customer>(s)
    &&& forall|i: int, j: int|
        #![trigger s[i], s[j]]
        0 <= i < j < s.len() ==> s[i].internal_key != s[j].internal_key && !(
        s[i].librenms_instance_id == s[j].librenms_instance_id && s[i].librenms_bill_id
            == s[j].librenms_bill_id)
    &&& forall|i: int|
        #![trigger s[i]]
        0 <= i < s.len() ==> is_currency(s[i].currency) && is_company_type(s[i].company_type)
}

/// Every customer belongs to a server.
pub open spec fn customers_linked(s: Seq<CustomerView>, instances: Seq<InstanceView>) -> bool {
    forall|i: int|
        #![trigger s[i]]
        0 <= i < s.len() ==> table::known::<LibreNmsInstance>(instances, s[i].librenms_instance_id)
}

/// Ports: numbers grow, a customer's labels differ.
pub open spec fn ports_ok(s: Seq<PortView>) -> bool {
    &&& table::increasing::<Port>(s)
    &&& forall|i: int, j: int|
        #![trigger s[i], s[j]]
        0 <= i < j < s.len() ==> !(s[i].customer_id == s[j].customer_id && s[i].port_label
            == s[j].port_label)
}

/// Every port belongs to a customer.
pub open spec fn ports_linked(s: Seq<PortView>, customers: Seq<CustomerView>) -> bool {
    forall|i: int|
        #![trigger s[i]]
        0 <= i < s.len() ==> table::known::<Customer>(customers, s[i].customer_id)
}

/// A rate that ends, ends after it has begun.
pub open spec fn span_ok(from: Seq<char>, to: Option<Seq<char>>) -> bool {
    match to {
        Some(t) => text::precedes(from, t),
        None => true,
    }
}

/// Rates: numbers grow, each ends after it begins.
pub open spec fn rates_ok(s: Seq<RateView>) -> bool {
    &&& table::increasing::<Rate>(s)
    &&& forall|i: int|
        #![trigger s[i]]
        0 <= i < s.len() ==> span_ok(s[i].effective_from, s[i].effective_to)
}

/// Every rate belongs to a customer.
pub open spec fn rates_linked(s: Seq<RateView>, customers: Seq<CustomerView>) -> bool {
    forall|i: int|
        #![trigger s[i]]
        0 <= i < s.len() ==> table::known::<Customer>(customers, s[i].customer_id)
}

/// What a user may do.
pub open spec fn is_role(r: Seq<char>) -> bool {
    r == "admin"@ || r == "operator"@ || r == "viewer"@
}

/// Users: numbers grow, names differ, roles are known ones.
pub open spec fn users_ok(s: Seq<UserView>) -> bool {
    &&& table::increasing::<User>(s)
    &&& forall|i: int, j: int|
        #![trigger s[i], s[j]]
        0 <= i < j < s.len() ==> s[i].username != s[j].username
    &&& forall|i: int| #![trigger s[i]] 0 <= i < s.len() ==> is_role(s[i].role)
}

/// Whether status and path of the final PDF agree: there is one exactly for a final invoice.
pub open spec fn final_ok(status: InvoiceStatus, path: Option<Seq<char>>) -> bool {
    status == InvoiceStatus::Final <==> path is Some
}

/// Whether two invoices are for the same customer and month.
pub open spec fn same_period(a: InvoiceView, b: InvoiceView) -> bool {
    a.customer_id == b.customer_id && a.period_year == b.period_year && a.period_month
        == b.period_month
}

/// Invoices: numbers grow, one for a customer and month, no invoice number twice, months exist,
/// and there is a final PDF exactly for the final ones.
pub open spec fn invoices_ok(s: Seq<InvoiceView>) -> bool {
    &&& table::increasing::<Invoice>(s)
    &&& forall|i: int, j: int|
        #![trigger s[i], s[j]]
        0 <= i < j < s.len() ==> !same_period(s[i], s[j]) && s[i].invoice_no != s[j].invoice_no
    &&& forall|i: int|
        #![trigger s[i]]
        0 <= i < s.len() ==> 1 <= s[i].period_month <= 12 && final_ok(
            s[i].status,
            s[i].pdf_path_final,
        )
}

/// Every invoice belongs to a customer, and who confirmed it is a user.
pub open spec fn invoices_linked(
    s: Seq<InvoiceView>,
    customers: Seq<CustomerView>,
    users: Seq<UserView>,
) -> bool {
    forall|i: int|
        #![trigger s[i]]
        0 <= i < s.len() ==> table::known::<Customer>(customers, s[i].customer_id) && (
        s[i].confirmed_by matches Some(u) ==> table::known::<User>(users, u))
}

/// Something that can be done to an invoice.
pub open spec fn is_action(a: Seq<char>) -> bool {
    a == "running"@ || a == "preview_generated"@ || a == "preview_regenerated"@ || a
        == "confirmed"@ || a == "rejected"@ || a == "failed"@
}

/// Whether an action must come with a reason.
pub open spec fn needs_reason(a: Seq<char>) -> bool {
    a == "rejected"@ || a == "failed"@
}

/// Whether a reason says anything.
pub open spec fn reasoned(reason: Option<Seq<char>>) -> bool {
    reason matches Some(t) && !text::is_blank(t)
}

/// Actions: numbers grow, known ones, with a reason where one is due.
pub open spec fn actions_ok(s: Seq<ActionView>) -> bool {
    &&& table::increasing::<ActionRow>(s)
    &&& forall|i: int|
        #![trigger s[i]]
        0 <= i < s.len() ==> is_action(s[i].action) && (needs_reason(s[i].action) ==> reasoned(
            s[i].reason,
        ))
}

/// Every action belongs to an invoice, and who did it is a user.
pub open spec fn actions_linked(
    s: Seq<ActionView>,
    invoices: Seq<InvoiceView>,
    users: Seq<UserView>,
) -> bool {
    forall|i: int|
        #![trigger s[i]]
        0 <= i < s.len() ==> table::known::<Invoice>(invoices, s[i].invoice_id) && (
        s[i].actor_user_id matches Some(u) ==> table::known::<User>(users, u))
}

/// Why a run was started.
pub open spec fn is_run_type(t: Seq<char>) -> bool {
    t == "scheduled"@ || t == "manual_replay"@ || t == "recovery"@
}

/// Runs: numbers grow, known reasons.
pub open spec fn runs_ok(s: Seq<RunView>) -> bool {
    &&& table::increasing::<RunRow>(s)
    &&& forall|i: int| #![trigger s[i]] 0 <= i < s.len() ==> is_run_type(s[i].run_type)
}

/// Settings: keys differ.
pub open spec fn settings_ok(s: Seq<SettingView>) -> bool {
    forall|i: int, j: int| #![trigger s[i], s[j]] 0 <= i < j < s.len() ==> s[i].key != s[j].key
}

/// Sequences: names differ.
pub open spec fn sequences_ok(s: Seq<SequenceView>) -> bool {
    forall|i: int, j: int| #![trigger s[i], s[j]] 0 <= i < j < s.len() ==> s[i].name != s[j].name
}

/// Templates: names differ.
pub open spec fn templates_ok(s: Seq<TemplateView>) -> bool {
    forall|i: int, j: int|
        #![trigger s[i], s[j]]
        0 <= i < j < s.len() ==> s[i].template_name != s[j].template_name
}

impl StoreView {
    /// What holds of the tables together.
    pub open spec fn wf(self) -> bool {
        &&& instances_ok(self.instances)
        &&& customers_ok(self.customers)
        &&& customers_linked(self.customers, self.instances)
        &&& ports_ok(self.ports)
        &&& ports_linked(self.ports, self.customers)
        &&& rates_ok(self.rates)
        &&& rates_linked(self.rates, self.customers)
        &&& users_ok(self.users)
        &&& invoices_ok(self.invoices)
        &&& invoices_linked(self.invoices, self.customers, self.users)
        &&& actions_ok(self.actions)
        &&& actions_linked(self.actions, self.invoices, self.users)
        &&& runs_ok(self.runs)
        &&& settings_ok(self.settings)
        &&& sequences_ok(self.sequences)
        &&& templates_ok(self.templates)
    }
}

impl Store {
    /// A store without rows.
    pub fn new() -> (r: Store)
        ensures
            r@ == store_empty(),
            r@.wf(),
    {
        let r = Store {
            instances: Vec::new(),
            customers: Vec::new(),
            ports: Vec::new(),
            rates: Vec::new(),
            users: Vec::new(),
            logins: Vec::new(),
            invoices: Vec::new(),
            actions: Vec::new(),
            runs: Vec::new(),
            settings: Vec::new(),
            sequences: Vec::new(),
            templates: Vec::new(),
        };
        assert(r@ =~= store_empty());
        r
    }
}

/// The store without rows.
pub open spec fn store_empty() -> StoreView {
    StoreView {
        instances: Seq::empty(),
        customers: Seq::empty(),
        ports: Seq::empty(),
        rates: Seq::empty(),
        users: Seq::empty(),
        logins: Seq::empty(),
        invoices: Seq::empty(),
        actions: Seq::empty(),
        runs: Seq::empty(),
        settings: Seq::empty(),
        sequences: Seq::empty(),
        templates: Seq::empty(),
    }
}

// ---------------------------------------------------------------------------
// Refusals
// ---------------------------------------------------------------------------

/// Two rows may not agree in these columns.
pub open spec fn unique(columns: Seq<char>) -> Seq<char> {
    "error returned from database: (code: 2067) UNIQUE constraint failed: "@ + columns
}

/// A row must meet this condition.
pub open spec fn check(condition: Seq<char>) -> Seq<char> {
    "error returned from database: (code: 275) CHECK constraint failed: "@ + condition
}

/// A row must refer to one that exists, and one that is referred to must stay.
pub open spec fn foreign() -> Seq<char> {
    "error returned from database: (code: 787) FOREIGN KEY constraint failed"@
}

/// The numbers are used up.
pub open spec fn full() -> Seq<char> {
    "error returned from database: (code: 13) database or disk is full"@
}

pub(crate) fn unique_text(columns: &str) -> (r: String)
    ensures
        r@ == unique(columns@),
{
    text::cat2("error returned from database: (code: 2067) UNIQUE constraint failed: ", columns)
}

pub(crate) fn check_text(condition: &str) -> (r: String)
    ensures
        r@ == check(condition@),
{
    text::cat2("error returned from database: (code: 275) CHECK constraint failed: ", condition)
}

pub(crate) fn foreign_text() -> (r: String)
    ensures
        r@ == foreign(),
{
    "error returned from database: (code: 787) FOREIGN KEY constraint failed".to_owned()
}

pub(crate) fn full_text() -> (r: String)
    ensures
        r@ == full(),
{
    "error returned from database: (code: 13) database or disk is full".to_owned()
}

/// A database error: what was tried, and why it was refused.
pub open spec fn refused(what: Seq<char>, why: Seq<char>) -> ErrorView {
    ErrorView::Database(what + ": "@ + why)
}

pub(crate) fn refuse(what: &str, why: &str) -> (r: Error)
    ensures
        r@ == refused(what@, why@),
{
    Error::Database(text::cat3(what, ": ", why))
}

// ---------------------------------------------------------------------------
// Laws
// ---------------------------------------------------------------------------

/// In a sound store no two rows share what must differ.
pub proof fn law_no_two_alike(s: StoreView, i: int, j: int)
    requires
        s.wf(),
        0 <= i < j,
    ensures
        j < s.instances.len() ==> s.instances[i].id < s.instances[j].id && s.instances[i].name
            != s.instances[j].name,
        j < s.customers.len() ==> s.customers[i].id < s.customers[j].id
            && s.customers[i].internal_key != s.customers[j].internal_key && (
        s.customers[i].librenms_instance_id != s.customers[j].librenms_instance_id
            || s.customers[i].librenms_bill_id != s.customers[j].librenms_bill_id),
        j < s.ports.len() ==> s.ports[i].id < s.ports[j].id && (s.ports[i].customer_id
            != s.ports[j].customer_id || s.ports[i].port_label != s.ports[j].port_label),
        j < s.rates.len() ==> s.rates[i].id < s.rates[j].id,
        j < s.users.len() ==> s.users[i].id < s.users[j].id && s.users[i].username
            != s.users[j].username,
        j < s.invoices.len() ==> s.invoices[i].id < s.invoices[j].id && s.invoices[i].invoice_no
            != s.invoices[j].invoice_no && (s.invoices[i].customer_id != s.invoices[j].customer_id
            || s.invoices[i].period_year != s.invoices[j].period_year
            || s.invoices[i].period_month != s.invoices[j].period_month),
        j < s.actions.len() ==> s.actions[i].id < s.actions[j].id,
        j < s.runs.len() ==> s.runs[i].id < s.runs[j].id,
        j < s.settings.len() ==> s.settings[i].key != s.settings[j].key,
        j < s.sequences.len() ==> s.sequences[i].name != s.sequences[j].name,
        j < s.templates.len() ==> s.templates[i].template_name != s.templates[j].template_name,
{
    if j < s.instances.len() {
        assert(LibreNmsInstance::row_id(s.instances[i]) < LibreNmsInstance::row_id(s.instances[j]));
    }
    if j < s.customers.len() {
        assert(Customer::row_id(s.customers[i]) < Customer::row_id(s.customers[j]));
    }
    if j < s.ports.len() {
        assert(Port::row_id(s.ports[i]) < Port::row_id(s.ports[j]));
    }
    if j < s.rates.len() {
        assert(Rate::row_id(s.rates[i]) < Rate::row_id(s.rates[j]));
    }
    if j < s.users.len() {
        assert(User::row_id(s.users[i]) < User::row_id(s.users[j]));
    }
    if j < s.invoices.len() {
        assert(Invoice::row_id(s.invoices[i]) < Invoice::row_id(s.invoices[j]));
    }
    if j < s.actions.len() {
        assert(ActionRow::row_id(s.actions[i]) < ActionRow::row_id(s.actions[j]));
    }
    if j < s.runs.len() {
        assert(RunRow::row_id(s.runs[i]) < RunRow::row_id(s.runs[j]));
    }
}

/// In a sound store every row refers to one that is there and holds only words that are known, every
/// rate ends after it begins, months exist, and there is a final PDF exactly for a final invoice.
pub proof fn law_every_row_is_sound(s: StoreView, i: int)
    requires
        s.wf(),
        0 <= i,
    ensures
        i < s.customers.len() ==> {
            let v = s.customers[i];
            &&& v.currency == "CNY"@ || v.currency == "HKD"@
            &&& v.company_type == "domestic"@ || v.company_type == "hk"@
            &&& exists|k: int|
                0 <= k < s.instances.len() && (#[trigger] s.instances[k]).id
                    == v.librenms_instance_id
        },
        i < s.ports.len() ==> exists|k: int|
            0 <= k < s.customers.len() && (#[trigger] s.customers[k]).id == s.ports[i].customer_id,
        i < s.rates.len() ==> {
            &&& exists|k: int|
                0 <= k < s.customers.len() && (#[trigger] s.customers[k]).id
                    == s.rates[i].customer_id
            &&& s.rates[i].effective_to matches Some(t) ==> text::precedes(
                s.rates[i].effective_from,
                t,
            )
        },
        i < s.users.len() ==> s.users[i].role == "admin"@ || s.users[i].role == "operator"@
            || s.users[i].role == "viewer"@,
        i < s.invoices.len() ==> {
            let v = s.invoices[i];
            &&& 1 <= v.period_month <= 12
            &&& v.status == InvoiceStatus::Final <==> v.pdf_path_final is Some
            &&& exists|k: int|
                0 <= k < s.customers.len() && (#[trigger] s.customers[k]).id == v.customer_id
        },
        i < s.actions.len() ==> {
            let v = s.actions[i];
            &&& v.action == "rejected"@ || v.action == "failed"@ ==> (v.reason matches Some(t)
                && !text::is_blank(t))
            &&& exists|k: int|
                0 <= k < s.invoices.len() && (#[trigger] s.invoices[k]).id == v.invoice_id
        },
{
    if i < s.customers.len() {
        let v = s.customers[i];
        let k = choose|k: int|
            0 <= k < s.instances.len() && LibreNmsInstance::row_id(#[trigger] s.instances[k])
                == v.librenms_instance_id;
        assert(s.instances[k].id == v.librenms_instance_id);
    }
    if i < s.ports.len() {
        lemma_customer_there(s, s.ports[i].customer_id);
    }
    if i < s.rates.len() {
        lemma_customer_there(s, s.rates[i].customer_id);
        assert(span_ok(s.rates[i].effective_from, s.rates[i].effective_to));
    }
    if i < s.users.len() {
        assert(is_role(s.users[i].role));
    }
    if i < s.invoices.len() {
        lemma_customer_there(s, s.invoices[i].customer_id);
        assert(final_ok(s.invoices[i].status, s.invoices[i].pdf_path_final));
    }
    if i < s.actions.len() {
        let v = s.actions[i];
        let k = choose|k: int|
            0 <= k < s.invoices.len() && Invoice::row_id(#[trigger] s.invoices[k]) == v.invoice_id;
        assert(s.invoices[k].id == v.invoice_id);
    }
}

proof fn lemma_customer_there(s: StoreView, id: i64)
    requires
        table::known::<Customer>(s.customers, id),
    ensures
        exists|k: int| 0 <= k < s.customers.len() && (#[trigger] s.customers[k]).id == id,
{
    let k = choose|k: int|
        0 <= k < s.customers.len() && Customer::row_id(#[trigger] s.customers[k]) == id;
    assert(s.customers[k].id == id);
}

/// A refusal says what was tried and then why.
pub proof fn law_refusal(what: Seq<char>, why: Seq<char>)
    ensures
        refused(what, why) == ErrorView::Database(what + ": "@ + why),
        unique(why) == "error returned from database: (code: 2067) UNIQUE constraint failed: "@
            + why,
        check(why) == "error returned from database: (code: 275) CHECK constraint failed: "@ + why,
        foreign() == "error returned from database: (code: 787) FOREIGN KEY constraint failed"@,
        full() == "error returned from database: (code: 13) database or disk is full"@,
{
}

} // verus!
