//! A billing run: which customers are billed, what is asked of LibreNMS for them, and how it is
//! counted.
use crate::billing::lines;
use crate::billing::lines::PortTraffic;
use crate::billing::schedule;
use crate::dates;
use crate::dates::Moment;
use crate::error::Result;
use crate::render::fill;
use crate::render::fill::PortLine;
use crate::store;
use crate::store::customers;
use crate::store::invoices;
use crate::store::invoices::Draft;
use crate::store::ports;
use crate::store::rates;
use crate::store::rows::{
    Customer, CustomerView, LibreNmsInstance, Port, PortView, Rate, RateView, RunRow, RunView,
};
use crate::store::runs;
use crate::store::runs::NewRun;
use crate::store::settings;
use crate::store::table;
use crate::store::table::{Record, Row};
use crate::store::{Store, StoreView};
use crate::text;
use vstd::prelude::*;
use vstd::utf8::*;

verus! {

// ---------------------------------------------------------------------------
// Planning
// ---------------------------------------------------------------------------

/// Why a customer is passed over.
#[derive(Debug, Clone, Copy, PartialEq, Eq, Structural)]
pub enum Skip {
    /// The server of the customer does not exist.
    NoInstance,
    /// There is an invoice for the month.
    AlreadyInvoiced,
    /// No rate holds at the beginning of the month.
    NoRate,
    /// The customer has no ports.
    NoPorts,
}

/// What is asked of LibreNMS for a customer, and what it is billed by.
pub struct Fetch {
    pub url: String,
    pub token: String,
    pub rate: Rate,
    pub ports: Vec<Port>,
    /// The bill of each port; nothing where none is known.
    pub bills: Vec<Option<i64>>,
}

/// What happens with a customer.
pub enum Plan {
    Skip(Skip),
    /// The token is not text.
    BadToken,
    Fetch(Fetch),
}

/// What happens with a customer, without the details.
#[derive(Debug, Clone, Copy, PartialEq, Eq, Structural)]
pub enum PlanKind {
    Skip(Skip),
    BadToken,
    Fetch,
}

/// The first day of a month as text.
pub open spec fn first_day_text(year: int, month: int) -> Seq<char> {
    schedule::month_text(year, month) + "-01"@
}

/// The place of the server of a customer.
pub open spec fn server_of(s: StoreView, c: CustomerView) -> Option<int> {
    table::find_row(s.instances, table::numbered::<LibreNmsInstance>(c.librenms_instance_id))
}

/// The place of the rate that a customer is billed by for a month.
pub open spec fn rate_for(s: StoreView, c: CustomerView, year: int, month: int) -> Option<int> {
    rates::rate_at(s.rates, c.id, first_day_text(year, month))
}

/// What happens with a customer for a month.
pub open spec fn plan_kind(s: StoreView, c: CustomerView, year: i64, month: u32) -> PlanKind {
    match server_of(s, c) {
        None => PlanKind::Skip(Skip::NoInstance),
        Some(i) => if !valid_utf8(s.instances[i].api_token_enc) {
            PlanKind::BadToken
        } else if invoices::invoiced(s, c.id, year, month as i64) {
            PlanKind::Skip(Skip::AlreadyInvoiced)
        } else if rate_for(s, c, year as int, month as int) is None {
            PlanKind::Skip(Skip::NoRate)
        } else if s.ports.filter(customers::port_of(c.id)).len() == 0 {
            PlanKind::Skip(Skip::NoPorts)
        } else {
            PlanKind::Fetch
        },
    }
}

/// The bill that a port is measured by: its own, else that of the rate, else that of the customer.
pub open spec fn bill_for(p: PortView, r: RateView, c: CustomerView) -> Option<i64> {
    let b = match p.librenms_bill_id {
        Some(b) => b,
        None => match r.librenms_bill_id {
            Some(b) => b,
            None => c.librenms_bill_id,
        },
    };
    if b <= 0 {
        None
    } else {
        Some(b)
    }
}

impl Fetch {
    /// Whether this is what is asked for a customer: the server's address and token, the rate, all
    /// ports by number, and the bill of each.
    pub open spec fn is_for(self, s: StoreView, c: CustomerView, year: i64, month: u32) -> bool {
        let server = s.instances[server_of(s, c)->0];
        let rate = s.rates[rate_for(s, c, year as int, month as int)->0];
        &&& self.url@ == server.url
        &&& self.token@ == decode_utf8(server.api_token_enc)
        &&& self.rate@ == rate
        &&& table::same_rows(
            table::views(self.ports@),
            s.ports.filter(customers::port_of(c.id)),
        )
        &&& table::ordered(table::views(self.ports@), ports::by_id())
        &&& self.bills@.len() == self.ports@.len()
        &&& forall|i: int|
            #![trigger self.bills@[i]]
            0 <= i < self.bills@.len() ==> self.bills@[i] == bill_for(self.ports@[i]@, rate, c)
    }
}

impl Plan {
    /// The plan without the details.
    pub open spec fn kind(self) -> PlanKind {
        match self {
            Plan::Skip(why) => PlanKind::Skip(why),
            Plan::BadToken => PlanKind::BadToken,
            Plan::Fetch(f) => PlanKind::Fetch,
        }
    }

    /// Whether this is what happens with a customer for a month.
    pub open spec fn is_for(self, s: StoreView, c: CustomerView, year: i64, month: u32) -> bool {
        &&& self.kind() == plan_kind(s, c, year, month)
        &&& self matches Plan::Fetch(f) ==> f.is_for(s, c, year, month)
    }
}

/// `String::from_utf8` of the standard library: the text that the bytes encode, where they are
/// UTF-8.
#[verifier::external_body]
fn utf8_text(bytes: &Vec<u8>) -> (r: Option<String>)
    ensures
        r is Some <==> valid_utf8(bytes@),
        r matches Some(t) ==> t@ == decode_utf8(bytes@),
{
    String::from_utf8(bytes.clone()).ok()
}

fn bill_of(p: &Port, r: &Rate, c: &Customer) -> (b: Option<i64>)
    ensures
        b == bill_for(p@, r@, c@),
{
    let b: i64 = match p.librenms_bill_id {
        Some(b) => b,
        None => match r.librenms_bill_id {
            Some(b) => b,
            None => c.librenms_bill_id,
        },
    };
    if b <= 0 {
        None
    } else {
        Some(b)
    }
}

proof fn lemma_same_length<V>(a: Seq<V>, b: Seq<V>)
    requires
        table::same_rows(a, b),
    ensures
        a.len() == b.len(),
{
    a.to_multiset_ensures();
    b.to_multiset_ensures();
}

/// What happens with a customer for a month.
pub fn plan_customer(store: &Store, customer: &Customer, year: i64, month: u32) -> (r: Plan)
    ensures
        r.is_for(store@, customer@, year, month),
{
    let server = match store.find_librenms_instance(customer.librenms_instance_id) {
        Some(s) => s,
        None => return Plan::Skip(Skip::NoInstance),
    };
    let token = match utf8_text(&server.api_token_enc) {
        Some(t) => t,
        None => return Plan::BadToken,
    };
    if store.has_invoice_for_period(customer.id, year, month) {
        return Plan::Skip(Skip::AlreadyInvoiced);
    }
    let rate = match store.find_rate_for_customer_at(
        customer.id,
        &schedule::first_day(year, month),
    ) {
        Some(r) => r,
        None => return Plan::Skip(Skip::NoRate),
    };
    let ports = store.list_ports_for_customer(customer.id);
    proof {
        lemma_same_length(
            table::views(ports@),
            store@.ports.filter(customers::port_of(customer@.id)),
        );
    }
    if ports.len() == 0 {
        return Plan::Skip(Skip::NoPorts);
    }
    let mut bills: Vec<Option<i64>> = Vec::new();
    let mut i: usize = 0;
    while i < ports.len()
        invariant
            i <= ports@.len(),
            bills@.len() == i,
            forall|j: int|
                #![trigger bills@[j]]
                0 <= j < i ==> bills@[j] == bill_for(ports@[j]@, rate@, customer@),
        decreases ports@.len() - i,
    {
        bills.push(bill_of(&ports[i], &rate, customer));
        i = i + 1;
    }
    Plan::Fetch(Fetch { url: server.url, token, rate, ports, bills })
}

// ---------------------------------------------------------------------------
// What came back
// ---------------------------------------------------------------------------

/// The traffic of a port: a number that orders as the rate does, zero for none, and the rate in
/// whole megabits per second.
#[derive(Debug, Clone, Copy, PartialEq, Eq, Structural)]
pub struct Reading {
    pub level: i64,
    pub mbps: i64,
}

/// What came back for a port.
#[derive(Debug, Clone, Copy, PartialEq, Eq, Structural)]
pub enum Fetched {
    /// Nothing was asked, for want of a bill.
    NotAsked,
    /// Asking failed.
    Failed,
    /// The samples came, and gave a reading or none.
    Got(Option<Reading>),
}

/// The reading of a port, where there is one.
pub open spec fn reading_of(f: Fetched) -> Option<Reading> {
    match f {
        Fetched::Got(r) => r,
        _ => None,
    }
}

/// The traffic of a port in whole megabits per second, where it is known.
pub open spec fn mbps_of(f: Fetched) -> Option<i64> {
    match reading_of(f) {
        Some(r) => Some(r.mbps),
        None => None,
    }
}

/// Whether nothing can be billed: asking failed somewhere, and no port has a reading.
pub open spec fn all_failed(results: Seq<Fetched>) -> bool {
    &&& exists|i: int| 0 <= i < results.len() && (#[trigger] results[i]) == Fetched::Failed
    &&& forall|i: int| 0 <= i < results.len() ==> reading_of(#[trigger] results[i]) is None
}

/// The highest level above zero.
pub open spec fn peak_of(results: Seq<Fetched>) -> i64
    decreases results.len(),
{
    if results.len() == 0 {
        0
    } else {
        let before = peak_of(results.drop_last());
        match reading_of(results.last()) {
            Some(r) => if r.level > before {
                r.level
            } else {
                before
            },
            None => before,
        }
    }
}

/// What a customer is billed for.
pub struct Settled {
    pub traffic: Vec<PortTraffic>,
    /// The highest level of all ports, zero where there was no traffic.
    pub peak: i64,
}

/// What a customer is billed for, given what came back for each port; nothing where all asking
/// was in vain.
pub fn settle(ports: &Vec<Port>, results: &Vec<Fetched>) -> (r: Option<Settled>)
    requires
        ports@.len() == results@.len(),
    ensures
        r is None <==> all_failed(results@),
        r matches Some(s) ==> {
            &&& s.peak == peak_of(results@)
            &&& s.traffic@.len() == ports@.len()
            &&& forall|i: int|
                #![trigger s.traffic@[i]]
                0 <= i < ports@.len() ==> s.traffic@[i].0@ == ports@[i]@ && s.traffic@[i].1
                    == mbps_of(results@[i])
        },
{
    let mut traffic: Vec<PortTraffic> = Vec::new();
    let mut peak: i64 = 0;
    let mut failed: bool = false;
    let mut known: bool = false;
    let mut i: usize = 0;
    assert(results@.take(0).len() == 0);
    while i < ports.len()
        invariant
            i <= ports@.len() == results@.len(),
            traffic@.len() == i,
            peak == peak_of(results@.take(i as int)),
            failed <==> exists|j: int| 0 <= j < i && (#[trigger] results@[j]) == Fetched::Failed,
            !known <==> forall|j: int| 0 <= j < i ==> reading_of(#[trigger] results@[j]) is None,
            forall|j: int|
                #![trigger traffic@[j]]
                0 <= j < i ==> traffic@[j].0@ == ports@[j]@ && traffic@[j].1 == mbps_of(
                    results@[j],
                ),
        decreases ports@.len() - i,
    {
        assert(results@.take(i + 1).drop_last() =~= results@.take(i as int));
        assert(results@.take(i + 1).last() == results@[i as int]);
        let mbps: Option<i64> = match results[i] {
            Fetched::Got(Some(r)) => {
                known = true;
                if r.level > peak {
                    peak = r.level;
                }
                Some(r.mbps)
            },
            Fetched::Got(None) => None,
            Fetched::Failed => {
                failed = true;
                None
            },
            Fetched::NotAsked => None,
        };
        traffic.push((ports[i].copy(), mbps));
        i = i + 1;
    }
    assert(results@.take(i as int) =~= results@);
    if failed && !known {
        None
    } else {
        Some(Settled { traffic, peak })
    }
}

/// The ports with their traffic, as it came back.
pub open spec fn settled_traffic(ports: Seq<Port>, results: Seq<Fetched>) -> Seq<PortTraffic> {
    Seq::new(ports.len(), |i: int| (ports[i], mbps_of(results[i])))
}

/// What goes onto the invoice of a customer.
pub struct Bill {
    pub lines: Vec<PortLine>,
    pub total_cents: i64,
    /// The level that the chart shows; nothing where there is no chart.
    pub chart: Option<i64>,
}

/// What goes onto the invoice of a customer, given what came back for each port: a line for each,
/// the amount, and a chart where there was traffic. There is no invoice where all asking was in
/// vain or the amount does not fit into 64 bits.
pub fn bill_from(fetch: &Fetch, results: &Vec<Fetched>) -> (r: Option<Bill>)
    requires
        fetch.ports@.len() == results@.len(),
    ensures
        ({
            let traffic = settled_traffic(fetch.ports@, results@);
            match r {
                None => all_failed(results@) || !lines::owed_in_range(traffic, fetch.rate),
                Some(b) => {
                    &&& !all_failed(results@) && lines::owed_in_range(traffic, fetch.rate)
                    &&& fill::line_views(b.lines@) == lines::lines_of(traffic)
                    &&& b.total_cents == lines::owed_cents(traffic, fetch.rate)
                    &&& b.chart == (if peak_of(results@) > 0 {
                        Some(peak_of(results@))
                    } else {
                        None
                    })
                },
            }
        }),
{
    let settled = match settle(&fetch.ports, results) {
        Some(s) => s,
        None => return None,
    };
    proof {
        lines::lemma_same_ports(
            settled.traffic@,
            settled_traffic(fetch.ports@, results@),
            fetch.rate,
        );
    }
    match lines::try_build_invoice_lines(&settled.traffic, &fetch.rate) {
        Some((lines, total_cents)) => {
            let chart = if settled.peak > 0 {
                Some(settled.peak)
            } else {
                None
            };
            Some(Bill { lines, total_cents, chart })
        },
        None => None,
    }
}

// ---------------------------------------------------------------------------
// Numbering
// ---------------------------------------------------------------------------

/// The running number of the next invoice of a customer for a month; zero once the sequence has
/// been used up.
pub open spec fn running_number(s: StoreView, key: Seq<char>, year: int, month: int) -> int {
    let n = settings::next_number(s, schedule::sequence_name(key, year, month), 1);
    if n <= i64::MAX {
        n
    } else {
        0
    }
}

/// Takes the next running number and writes the invoice number with it.
pub fn number_invoice(store: &mut Store, key: &str, year: i64, month: u32, pattern: &str) -> (r:
    String)
    ensures
        r@ == schedule::invoice_no(
            pattern@,
            key@,
            year as int,
            month as int,
            running_number(old(store)@, key@, year as int, month as int),
        ),
        ({
            let name = schedule::sequence_name(key@, year as int, month as int);
            let n = settings::next_number(old(store)@, name, 1);
            final(store)@ == (if n <= i64::MAX {
                settings::with_number(old(store)@, name, n as i64)
            } else {
                old(store)@
            })
        }),
        old(store)@.wf() ==> final(store)@.wf(),
{
    let n: i64 = match store.next_sequence(&schedule::invoice_sequence(key, year, month), 1) {
        Ok(n) => n,
        Err(_) => 0,
    };
    schedule::render_invoice_no(pattern, key, year, month, n)
}

// ---------------------------------------------------------------------------
// Counting
// ---------------------------------------------------------------------------

/// How it went, in numbers.
#[derive(Debug, Clone, Copy, PartialEq, Eq, Structural)]
pub struct Stats {
    pub ok: usize,
    pub failed: usize,
    pub skipped: usize,
}

/// How it went with one customer.
#[derive(Debug, Clone, Copy, PartialEq, Eq, Structural)]
pub enum Outcome {
    Invoiced,
    Failed,
    Skipped,
}

/// How it went with a customer for whom nothing is asked.
pub open spec fn plan_outcome(k: PlanKind) -> Option<Outcome> {
    match k {
        PlanKind::Skip(why) => Some(Outcome::Skipped),
        PlanKind::BadToken => Some(Outcome::Failed),
        PlanKind::Fetch => None,
    }
}

/// How it went with a customer, as far as the plan decides: one who is passed over is skipped, a
/// token that is not text is a failure.
pub fn outcome_of(p: &Plan) -> (r: Option<Outcome>)
    ensures
        r == plan_outcome(p.kind()),
{
    match p {
        Plan::Skip(_) => Some(Outcome::Skipped),
        Plan::BadToken => Some(Outcome::Failed),
        Plan::Fetch(_) => None,
    }
}

/// How it went with a customer for whom an invoice was to be made: `made` is what came of it,
/// nothing where there was no reading or the amount does not fit.
pub open spec fn made_outcome(made: Option<Result<i64>>) -> Outcome {
    match made {
        Some(Ok(id)) => Outcome::Invoiced,
        _ => Outcome::Failed,
    }
}

impl Stats {
    /// How many customers have been counted.
    pub open spec fn total(self) -> int {
        self.ok + self.failed + self.skipped
    }

    /// One customer more.
    pub open spec fn with(self, o: Outcome) -> Stats {
        match o {
            Outcome::Invoiced => Stats { ok: (self.ok + 1) as usize, ..self },
            Outcome::Failed => Stats { failed: (self.failed + 1) as usize, ..self },
            Outcome::Skipped => Stats { skipped: (self.skipped + 1) as usize, ..self },
        }
    }

    /// The status a run ends with: one where a customer failed, else zero.
    pub fn exit_code(&self) -> (r: u8)
        ensures
            r == (if self.failed > 0 {
                1u8
            } else {
                0
            }),
    {
        if self.failed > 0 {
            1
        } else {
            0
        }
    }
}

/// A run: the customers to be billed, the month, and how far it has come.
pub struct BillingRun {
    customers: Vec<Customer>,
    year: i64,
    month: u32,
    next: usize,
    asking: bool,
    stats: Stats,
}

impl BillingRun {
    /// The customers to be billed.
    pub closed spec fn people(&self) -> Seq<CustomerView> {
        table::views(self.customers@)
    }

    /// The month to be billed.
    pub closed spec fn period(&self) -> (i64, u32) {
        (self.year, self.month)
    }

    /// How many customers are done.
    pub closed spec fn done(&self) -> int {
        self.next as int
    }

    /// How it went so far.
    pub closed spec fn counted(&self) -> Stats {
        self.stats
    }

    /// Whether LibreNMS is being asked for the customer whose turn it is.
    pub closed spec fn is_asking(&self) -> bool {
        self.asking
    }

    /// Every customer that is done has been counted once.
    pub open spec fn wf(&self) -> bool {
        &&& 0 <= self.done() <= self.people().len()
        &&& self.is_asking() ==> self.done() < self.people().len()
        &&& self.counted().total() == self.done()
        &&& self.people().len() <= usize::MAX
    }

    /// Starts a run, at a moment on the clock of the office. It is for the month before. Unless it
    /// is forced, a run that is not due does not start.
    pub fn start(store: &Store, now: &Moment, force: bool) -> (r: Option<BillingRun>)
        requires
            1 <= now.month <= 12,
            now.year > i64::MIN,
        ensures
            r is Some <==> force || (now.day >= schedule::day_setting(
                settings::setting_value(store@, "billing_day"@),
            ) && now.hour >= schedule::hour_setting(
                settings::setting_value(store@, "billing_hour"@),
            )),
            r matches Some(b) ==> {
                &&& b.wf()
                &&& b.done() == 0
                &&& !b.is_asking()
                &&& b.counted() == (Stats { ok: 0, failed: 0, skipped: 0 })
                &&& (b.period().0 as int, b.period().1 as int) == schedule::month_before(
                    now.year as int,
                    now.month as int,
                )
                &&& table::same_rows(
                    b.people(),
                    store@.customers.filter(customers::billed()),
                )
                &&& table::ordered(b.people(), customers::by_id())
            },
    {
        if !force {
            let day: u32 = schedule::billing_day(store);
            let hour: u32 = schedule::billing_hour(store);
            if !schedule::is_due(now.day, now.hour, day, hour) {
                return None;
            }
        }
        let (year, month) = schedule::prev_month((now.year, now.month));
        let customers = store.list_active_customers();
        assert(customers.len() == customers@.len());
        Some(
            BillingRun {
                customers,
                year,
                month,
                next: 0,
                asking: false,
                stats: Stats { ok: 0, failed: 0, skipped: 0 },
            },
        )
    }

    /// The customer whose turn it is.
    pub fn current(&self) -> (r: Option<&Customer>)
        ensures
            r is Some <==> self.done() < self.people().len(),
            r matches Some(c) ==> c@ == self.people()[self.done()],
    {
        if self.next < self.customers.len() {
            Some(&self.customers[self.next])
        } else {
            None
        }
    }

    /// The month to be billed.
    pub fn billed_month(&self) -> (r: (i64, u32))
        ensures
            r == self.period(),
    {
        (self.year, self.month)
    }

    /// Plans the customer whose turn it is. One for whom nothing is asked is counted, and it is the
    /// turn of the next.
    pub fn plan(&mut self, store: &Store) -> (r: Plan)
        requires
            old(self).wf(),
            old(self).done() < old(self).people().len(),
            !old(self).is_asking(),
        ensures
            final(self).wf(),
            final(self).people() == old(self).people(),
            final(self).period() == old(self).period(),
            r.is_for(
                store@,
                old(self).people()[old(self).done()],
                old(self).period().0,
                old(self).period().1,
            ),
            match plan_outcome(r.kind()) {
                Some(o) => {
                    &&& final(self).done() == old(self).done() + 1
                    &&& final(self).counted() == old(self).counted().with(o)
                    &&& !final(self).is_asking()
                },
                None => {
                    &&& final(self).done() == old(self).done()
                    &&& final(self).counted() == old(self).counted()
                    &&& final(self).is_asking()
                },
            },
    {
        let plan = plan_customer(store, &self.customers[self.next], self.year, self.month);
        match outcome_of(&plan) {
            Some(o) => self.count(o),
            None => {
                self.asking = true;
            },
        }
        plan
    }

    /// Notes what came of the invoice of the customer for whom LibreNMS was asked: nothing where
    /// there was no reading or the amount does not fit. Only an invoice that was made counts as
    /// one.
    pub fn note(&mut self, made: &Option<Result<i64>>)
        requires
            old(self).wf(),
            old(self).is_asking(),
        ensures
            final(self).wf(),
            final(self).done() == old(self).done() + 1,
            final(self).people() == old(self).people(),
            final(self).period() == old(self).period(),
            final(self).counted() == old(self).counted().with(made_outcome(*made)),
            !final(self).is_asking(),
    {
        match made {
            Some(Ok(_)) => self.count(Outcome::Invoiced),
            _ => self.count(Outcome::Failed),
        }
    }

    fn count(&mut self, outcome: Outcome)
        requires
            old(self).wf(),
            old(self).done() < old(self).people().len(),
        ensures
            final(self).wf(),
            final(self).done() == old(self).done() + 1,
            final(self).people() == old(self).people(),
            final(self).period() == old(self).period(),
            final(self).counted() == old(self).counted().with(outcome),
            !final(self).is_asking(),
    {
        match outcome {
            Outcome::Invoiced => {
                self.stats.ok = self.stats.ok + 1;
            },
            Outcome::Failed => {
                self.stats.failed = self.stats.failed + 1;
            },
            Outcome::Skipped => {
                self.stats.skipped = self.stats.skipped + 1;
            },
        }
        self.asking = false;
        self.next = self.next + 1;
    }

    /// How it went so far.
    pub fn stats(&self) -> (r: Stats)
        ensures
            r == self.counted(),
    {
        self.stats
    }

    /// Records the run: why and when it was started, for which month, and how it went.
    pub fn record(&self, store: &mut Store, force: bool, started_at: &str, now: &str) -> (r: Result<
        i64,
    >)
        ensures
            match table::next_id(table::ids::<RunRow>(old(store)@.runs)) {
                None => (r matches Err(e) && e@ == store::refused(
                    "insert invoice run"@,
                    store::full(),
                )) && final(store)@ == old(store)@,
                Some(id) => r == Result::<i64>::Ok(id) && final(store)@ == runs::with_run(
                    old(store)@,
                    self.run_row(id, force, started_at@, now@),
                ),
            },
            old(store)@.wf() ==> final(store)@.wf(),
    {
        let run_type: &str = if force {
            "manual_replay"
        } else {
            "scheduled"
        };
        let month = schedule::month_label(self.year, self.month as i64);
        let run = NewRun {
            run_type,
            scheduled_for: month.as_str(),
            started_at,
            finished_at: Some(now),
            customers_total: self.customers.len() as u64,
            customers_succeeded: self.stats.ok as u64,
            customers_failed: self.stats.failed as u64,
            error_summary: None,
        };
        store.insert_invoice_run(&run)
    }

    /// The row for the run: a forced one is a replay.
    pub open spec fn run_row(
        &self,
        id: i64,
        force: bool,
        started_at: Seq<char>,
        now: Seq<char>,
    ) -> RunView {
        RunView {
            id,
            run_type: if force {
                "manual_replay"@
            } else {
                "scheduled"@
            },
            scheduled_for: schedule::month_text(self.period().0 as int, self.period().1 as int),
            started_at,
            finished_at: Some(now),
            customers_total: self.people().len() as u64,
            customers_succeeded: self.counted().ok as u64,
            customers_failed: self.counted().failed as u64,
            error_summary: None,
        }
    }
}

// ---------------------------------------------------------------------------
// Laws
// ---------------------------------------------------------------------------

/// A customer who has an invoice for the month is not billed again, however often a run starts.
pub proof fn law_no_second_invoice(s: StoreView, c: CustomerView, year: i64, month: u32)
    requires
        invoices::invoiced(s, c.id, year, month as i64),
    ensures
        plan_kind(s, c, year, month) != PlanKind::Fetch,
{
}

/// A customer who has an invoice for the month is counted right away, and not among those who were
/// invoiced.
pub proof fn law_invoiced_not_counted_again(
    s: StoreView,
    c: CustomerView,
    year: i64,
    month: u32,
    p: Plan,
    so_far: Stats,
)
    requires
        invoices::invoiced(s, c.id, year, month as i64),
        p.is_for(s, c, year, month),
    ensures
        plan_outcome(p.kind()) matches Some(o) && o != Outcome::Invoiced && so_far.with(o).ok
            == so_far.ok,
{
}

/// At the end of a run every active customer has been counted once.
pub proof fn law_everyone_counted(b: BillingRun)
    requires
        b.wf(),
        b.done() == b.people().len(),
    ensures
        b.counted().ok + b.counted().failed + b.counted().skipped == b.people().len(),
{
}

/// A customer for whom an invoice has been started is not billed again for that month, whatever
/// becomes of the invoice; what happens with everyone else stays the same.
pub proof fn law_billed_once(
    before: StoreView,
    after: StoreView,
    r: Result<i64>,
    d: Draft,
    c: CustomerView,
    other: CustomerView,
    year: i64,
    month: u32,
)
    requires
        invoices::generating(before, after, r, d),
        r is Ok,
        c.id == d.customer_id,
        year == d.period_year,
        month as i64 == d.period_month,
        other.id != c.id,
    ensures
        plan_kind(after, c, year, month) != PlanKind::Fetch,
        plan_kind(after, other, year, month) == plan_kind(before, other, year, month),
{
    invoices::law_invoiced_after_generating(
        before,
        after,
        r,
        d,
        other.id,
        year,
        month as i64,
    );
}

/// The bill that measures a port: its own where it has one, else that of the rate, else that of the
/// customer. A number that is not above zero is no bill.
pub proof fn law_own_bill_first(
    f: Fetch,
    s: StoreView,
    c: CustomerView,
    year: i64,
    month: u32,
    i: int,
)
    requires
        f.is_for(s, c, year, month),
        0 <= i < f.ports@.len(),
    ensures
        f.bills@.len() == f.ports@.len(),
        f.ports@[i].librenms_bill_id matches Some(b) ==> f.bills@[i] == (if b > 0 {
            Some(b)
        } else {
            None
        }),
        f.ports@[i].librenms_bill_id is None ==> (f.rate.librenms_bill_id matches Some(b)
            ==> f.bills@[i] == (if b > 0 {
            Some(b)
        } else {
            None
        })),
        f.ports@[i].librenms_bill_id is None && f.rate.librenms_bill_id is None ==> f.bills@[i] == (
        if c.librenms_bill_id > 0 {
            Some(c.librenms_bill_id)
        } else {
            None
        }),
{
    assert(f.bills@[i] == bill_for(f.ports@[i]@, f.rate@, c));
}

/// The first day of a month, as text, is that day.
pub proof fn law_first_day(year: int, month: int)
    requires
        0 <= year <= 9999,
        1 <= month <= 12,
    ensures
        dates::day_of(first_day_text(year, month)) == Some((year, month, 1int)),
{
    reveal_strlit("-");
    reveal_strlit("-01");
    let y = text::dec_padded(year, 4);
    let m = text::dec_padded(month, 2);
    schedule::lemma_padded_reads_back(year, 4);
    schedule::lemma_padded_reads_back(month, 2);
    reveal_with_fuel(text::dec, 5);
    assert(text::dec(year as nat).len() <= 4);
    assert(text::dec(month as nat).len() <= 2);
    assert(y.len() == 4 && m.len() == 2);
    reveal_with_fuel(text::value_of, 5);
    let s = first_day_text(year, month);
    assert(s =~= seq![y[0], y[1], y[2], y[3], '-', m[0], m[1], '-', '0', '1']);
    assert('0' <= y[0] <= '9' && '0' <= y[1] <= '9' && '0' <= y[2] <= '9' && '0' <= y[3] <= '9');
    assert('0' <= m[0] <= '9' && '0' <= m[1] <= '9');
    assert(y.drop_last().drop_last().drop_last().drop_last() =~= Seq::empty());
    assert(m.drop_last().drop_last() =~= Seq::empty());
    assert(text::value_of(y) == (y[0] as int - 48) * 1000 + (y[1] as int - 48) * 100 + (y[2] as int
        - 48) * 10 + (y[3] as int - 48));
    assert(text::value_of(m) == (m[0] as int - 48) * 10 + (m[1] as int - 48));
}

/// A customer is billed for a month exactly where its server is known and has a token that is text,
/// there is no invoice for the month yet, a rate is in force on the first day of the month, and
/// there is a port.
pub proof fn law_who_is_billed(s: StoreView, c: CustomerView, year: i64, month: u32, p: Plan)
    requires
        s.wf(),
        p.is_for(s, c, year, month),
    ensures
        p is Fetch <==> {
            &&& exists|i: int|
                0 <= i < s.instances.len() && (#[trigger] s.instances[i]).id
                    == c.librenms_instance_id && valid_utf8(s.instances[i].api_token_enc)
            &&& forall|i: int|
                0 <= i < s.invoices.len() ==> !((#[trigger] s.invoices[i]).customer_id == c.id
                    && s.invoices[i].period_year == year && s.invoices[i].period_month == month)
            &&& exists|i: int|
                0 <= i < s.rates.len() && (#[trigger] s.rates[i]).customer_id == c.id && (
                s.rates[i].effective_from == first_day_text(year as int, month as int)
                    || text::precedes(
                    s.rates[i].effective_from,
                    first_day_text(year as int, month as int),
                )) && (s.rates[i].effective_to matches Some(t) ==> t == first_day_text(
                    year as int,
                    month as int,
                ) || text::precedes(first_day_text(year as int, month as int), t))
            &&& exists|i: int|
                0 <= i < s.ports.len() && (#[trigger] s.ports[i]).customer_id == c.id
        },
{
    let id = c.librenms_instance_id;
    let day = first_day_text(year as int, month as int);
    table::lemma_numbered::<LibreNmsInstance>(s.instances, id);
    if let Some(k) = server_of(s, c) {
        assert forall|i: int| 0 <= i < s.instances.len() && (#[trigger] s.instances[i]).id
            == id implies i == k by {
            assert(s.instances[k].id == id);
            if i < k {
                assert(s.instances[i].id < s.instances[k].id);
            } else if k < i {
                assert(s.instances[k].id < s.instances[i].id);
            }
        }
    } else {
        assert forall|i: int| 0 <= i < s.instances.len() implies (#[trigger] s.instances[i]).id
            != id by {
            assert(LibreNmsInstance::row_id(s.instances[i]) != id);
        }
    }
    invoices::law_invoiced(s, c.id, year, month as i64);
    rates::law_rate_in_force(s.rates, c.id, day, 0);
    assert forall|i: int| 0 <= i < s.rates.len() && rate_for(s, c, year as int, month as int) is None
        implies !((#[trigger] s.rates[i]).customer_id == c.id && (s.rates[i].effective_from == day
        || text::precedes(s.rates[i].effective_from, day)) && (s.rates[i].effective_to matches Some(
        t,
    ) ==> t == day || text::precedes(day, t))) by {
        rates::law_rate_in_force(s.rates, c.id, day, i);
    }
    table::lemma_none(s.ports, customers::port_of(c.id));
    if s.ports.filter(customers::port_of(c.id)).len() == 0 {
        assert forall|i: int| 0 <= i < s.ports.len() implies (#[trigger] s.ports[i]).customer_id
            != c.id by {
            assert(!customers::port_of(c.id)(s.ports[i]));
        }
    } else {
        let i = choose|i: int|
            0 <= i < s.ports.len() && customers::port_of(c.id)(#[trigger] s.ports[i]);
        assert(s.ports[i].customer_id == c.id);
    }
}

/// Why a customer is not billed: the server comes first, then its token, then an invoice that is
/// there, then the rate, then the ports.
pub proof fn law_why_not_billed(s: StoreView, c: CustomerView, year: i64, month: u32, p: Plan)
    requires
        s.wf(),
        p.is_for(s, c, year, month),
    ensures
        p.kind() == PlanKind::Skip(Skip::NoInstance) <==> (forall|i: int|
            0 <= i < s.instances.len() ==> (#[trigger] s.instances[i]).id
                != c.librenms_instance_id),
        p.kind() == PlanKind::BadToken <==> (exists|i: int|
            0 <= i < s.instances.len() && (#[trigger] s.instances[i]).id == c.librenms_instance_id
                && !valid_utf8(s.instances[i].api_token_enc)),
        p.kind() == PlanKind::Skip(Skip::AlreadyInvoiced) ==> (exists|i: int|
            0 <= i < s.invoices.len() && (#[trigger] s.invoices[i]).customer_id == c.id
                && s.invoices[i].period_year == year && s.invoices[i].period_month == month),
        p.kind() == PlanKind::Skip(Skip::NoPorts) ==> (forall|i: int|
            0 <= i < s.ports.len() ==> (#[trigger] s.ports[i]).customer_id != c.id),
        p.kind() == PlanKind::Skip(Skip::NoRate) ==> (forall|i: int|
            0 <= i < s.rates.len() && (#[trigger] s.rates[i]).customer_id == c.id
                ==> text::precedes(
                first_day_text(year as int, month as int),
                s.rates[i].effective_from,
            ) || (s.rates[i].effective_to matches Some(t) && text::precedes(
                t,
                first_day_text(year as int, month as int),
            ))),
{
    law_who_is_billed(s, c, year, month, p);
    let id = c.librenms_instance_id;
    let day = first_day_text(year as int, month as int);
    table::lemma_numbered::<LibreNmsInstance>(s.instances, id);
    if let Some(k) = server_of(s, c) {
        assert(s.instances[k].id == id);
        assert forall|i: int| 0 <= i < s.instances.len() && (#[trigger] s.instances[i]).id
            == id implies i == k by {
            if i < k {
                assert(s.instances[i].id < s.instances[k].id);
            } else if k < i {
                assert(s.instances[k].id < s.instances[i].id);
            }
        }
    } else {
        assert forall|i: int| 0 <= i < s.instances.len() implies (#[trigger] s.instances[i]).id
            != id by {
            assert(LibreNmsInstance::row_id(s.instances[i]) != id);
        }
    }
    invoices::law_invoiced(s, c.id, year, month as i64);
    table::lemma_none(s.ports, customers::port_of(c.id));
    if s.ports.filter(customers::port_of(c.id)).len() == 0 {
        assert forall|i: int| 0 <= i < s.ports.len() implies (#[trigger] s.ports[i]).customer_id
            != c.id by {
            assert(!customers::port_of(c.id)(s.ports[i]));
        }
    }
    rates::law_rate_at(s.rates, c.id, day);
    if rate_for(s, c, year as int, month as int) is None {
        assert forall|i: int| 0 <= i < s.rates.len() && (#[trigger] s.rates[i]).customer_id == c.id
            implies text::precedes(day, s.rates[i].effective_from) || (
        s.rates[i].effective_to matches Some(t) && text::precedes(t, day)) by {
            assert(!rates::holds_on(c.id, day)(s.rates[i]));
        }
    }
}

/// What is asked for a customer: at the address and with the token of its server, for every port of
/// the customer and no other, by a rate of the customer that is in force on the first of the month.
pub proof fn law_what_is_asked(
    f: Fetch,
    s: StoreView,
    c: CustomerView,
    year: i64,
    month: u32,
    v: PortView,
)
    requires
        s.wf(),
        plan_kind(s, c, year, month) == PlanKind::Fetch,
        f.is_for(s, c, year, month),
    ensures
        exists|i: int|
            0 <= i < s.instances.len() && (#[trigger] s.instances[i]).id == c.librenms_instance_id
                && f.url@ == s.instances[i].url && encode_utf8(f.token@)
                == s.instances[i].api_token_enc,
        s.rates.contains(f.rate@),
        f.rate.customer_id == c.id,
        !text::precedes(first_day_text(year as int, month as int), f.rate.effective_from@),
        f.rate@.effective_to matches Some(t) ==> !text::precedes(
            t,
            first_day_text(year as int, month as int),
        ),
        table::views(f.ports@).contains(v) <==> s.ports.contains(v) && v.customer_id == c.id,
        forall|i: int, j: int|
            #![trigger f.ports@[i], f.ports@[j]]
            0 <= i < j < f.ports@.len() ==> f.ports@[i].id <= f.ports@[j].id,
{
    let day = first_day_text(year as int, month as int);
    table::lemma_numbered::<LibreNmsInstance>(s.instances, c.librenms_instance_id);
    let k = server_of(s, c)->0;
    decode_utf8_encode_utf8(s.instances[k].api_token_enc);
    assert(s.instances[k].id == c.librenms_instance_id);
    rates::law_rate_at(s.rates, c.id, day);
    let i = rate_for(s, c, year as int, month as int)->0;
    assert(s.rates[i] == f.rate@);
    assert(rates::holds_on(c.id, day)(s.rates[i]));
    table::law_selected_rows(table::views(f.ports@), s.ports, customers::port_of(c.id));
    assert forall|i: int, j: int|
        #![trigger f.ports@[i], f.ports@[j]]
        0 <= i < j < f.ports@.len() implies f.ports@[i].id <= f.ports@[j].id by {
        let w = table::views(f.ports@);
        assert(w[i] == f.ports@[i]@ && w[j] == f.ports@[j]@);
        assert(ports::by_id()(w[i], w[j]));
    }
}

/// The peak is the highest level that came back, and zero where none is above zero.
pub proof fn law_peak(results: Seq<Fetched>)
    ensures
        peak_of(results) >= 0,
        forall|i: int|
            0 <= i < results.len() ==> ((#[trigger] results[i]) matches Fetched::Got(Some(r))
                ==> r.level <= peak_of(results)),
        peak_of(results) > 0 ==> exists|i: int|
            0 <= i < results.len() && ((#[trigger] results[i]) matches Fetched::Got(Some(r))
                && r.level == peak_of(results)),
    decreases results.len(),
{
    if results.len() > 0 {
        let t = results.drop_last();
        law_peak(t);
        assert(forall|i: int| 0 <= i < t.len() ==> t[i] == results[i]);
        assert forall|i: int| 0 <= i < results.len() implies ((
        #[trigger] results[i]) matches Fetched::Got(Some(r)) ==> r.level <= peak_of(results)) by {
            if i < t.len() {
                assert(t[i] == results[i]);
            }
        }
        if peak_of(results) > 0 {
            if peak_of(results) == peak_of(t) {
                let i = choose|i: int|
                    0 <= i < t.len() && ((#[trigger] t[i]) matches Fetched::Got(Some(r)) && r.level
                        == peak_of(t));
                assert(results[i] == t[i]);
            } else {
                assert(results[results.len() - 1] == results.last());
            }
        }
    }
}

/// Each port is billed by what came back for it: the whole megabits of its reading, and nothing known
/// where there is no reading. There is no bill exactly where asking failed for a port and no port
/// has a reading.
pub proof fn law_traffic_by_port(ports: Seq<Port>, results: Seq<Fetched>, i: int)
    requires
        ports.len() == results.len(),
        0 <= i < ports.len(),
    ensures
        settled_traffic(ports, results).len() == ports.len(),
        settled_traffic(ports, results)[i].0 == ports[i],
        settled_traffic(ports, results)[i].1 == (match results[i] {
            Fetched::Got(Some(r)) => Some(r.mbps),
            _ => None,
        }),
        all_failed(results) <==> {
            &&& exists|k: int| 0 <= k < results.len() && (#[trigger] results[k]) is Failed
            &&& forall|k: int|
                0 <= k < results.len() ==> !((#[trigger] results[k]) matches Fetched::Got(Some(r)))
        },
{
    if all_failed(results) {
        assert forall|k: int| 0 <= k < results.len() implies !((
        #[trigger] results[k]) matches Fetched::Got(Some(r))) by {
            assert(reading_of(results[k]) is None);
        }
        let k = choose|k: int| 0 <= k < results.len() && (#[trigger] results[k]) == Fetched::Failed;
        assert(results[k] is Failed);
    }
    if (exists|k: int| 0 <= k < results.len() && (#[trigger] results[k]) is Failed) && (forall|k: int|
        0 <= k < results.len() ==> !((#[trigger] results[k]) matches Fetched::Got(Some(r)))) {
        let k = choose|k: int| 0 <= k < results.len() && (#[trigger] results[k]) is Failed;
        assert(results[k] == Fetched::Failed);
    }
}

/// The first invoice of a customer for a month has the running number one; a number is never given
/// out twice.
pub proof fn law_running_numbers(s: StoreView, key: Seq<char>, year: int, month: int)
    ensures
        (forall|i: int|
            0 <= i < s.sequences.len() ==> (#[trigger] s.sequences[i]).name
                != schedule::sequence_name(key, year, month)) ==> running_number(
            s,
            key,
            year,
            month,
        ) == 1,
        ({
            let name = schedule::sequence_name(key, year, month);
            let n = running_number(s, key, year, month);
            0 < n < i64::MAX ==> running_number(
                settings::with_number(s, name, n as i64),
                key,
                year,
                month,
            ) == n + 1
        }),
{
    let name = schedule::sequence_name(key, year, month);
    table::lemma_find_row(s.sequences, settings::sequence_named(name));
    if let Some(i) = table::find_row(s.sequences, settings::sequence_named(name)) {
        assert(s.sequences[i].name == name);
    }
    let n = running_number(s, key, year, month);
    let other = name.push('x');
    assert(other.len() != name.len());
    if 0 < n < i64::MAX {
        settings::law_sequence_counts(s, name, 1, 1, other, n as i64);
    }
}

/// Every customer is counted under one heading: passed over as skipped, a token that is no text and
/// an invoice that could not be made as failed, and only an invoice that was made as done.
pub proof fn law_counting(so_far: Stats, k: PlanKind, made: Option<Result<i64>>, o: Outcome)
    requires
        so_far.ok < usize::MAX && so_far.failed < usize::MAX && so_far.skipped < usize::MAX,
    ensures
        plan_outcome(k) == (match k {
            PlanKind::Skip(_) => Some(Outcome::Skipped),
            PlanKind::BadToken => Some(Outcome::Failed),
            PlanKind::Fetch => None,
        }),
        made_outcome(made) == Outcome::Invoiced <==> (made matches Some(r) && r is Ok),
        made_outcome(made) != Outcome::Skipped,
        so_far.with(o).ok == so_far.ok + (if o == Outcome::Invoiced {
            1int
        } else {
            0
        }),
        so_far.with(o).failed == so_far.failed + (if o == Outcome::Failed {
            1int
        } else {
            0
        }),
        so_far.with(o).skipped == so_far.skipped + (if o == Outcome::Skipped {
            1int
        } else {
            0
        }),
        so_far.with(o).total() == so_far.total() + 1,
{
}

/// The record of a run says why it was started, for which month, when, how many customers there
/// were, and with how many it went well and with how many not.
pub proof fn law_run_on_record(
    b: BillingRun,
    id: i64,
    force: bool,
    started_at: Seq<char>,
    now: Seq<char>,
)
    requires
        b.people().len() <= u64::MAX,
    ensures
        ({
            let v = b.run_row(id, force, started_at, now);
            &&& v.id == id
            &&& v.run_type == (if force {
                "manual_replay"@
            } else {
                "scheduled"@
            })
            &&& v.scheduled_for == schedule::month_text(b.period().0 as int, b.period().1 as int)
            &&& v.started_at == started_at && v.finished_at == Some(now)
            &&& v.customers_total == b.people().len()
            &&& v.customers_succeeded == b.counted().ok && v.customers_failed == b.counted().failed
        }),
{
}

/// The customers of a run are those who are billed: all of them, and nobody else, by number.
pub proof fn law_people_of_a_run(people: Seq<CustomerView>, s: StoreView, v: CustomerView)
    requires
        table::same_rows(people, s.customers.filter(customers::billed())),
        table::ordered(people, customers::by_id()),
    ensures
        people.contains(v) <==> s.customers.contains(v) && v.is_active,
        forall|i: int, j: int|
            #![trigger people[i], people[j]]
            0 <= i < j < people.len() ==> people[i].id <= people[j].id,
{
    table::law_selected_rows(people, s.customers, customers::billed());
    assert forall|i: int, j: int|
        #![trigger people[i], people[j]]
        0 <= i < j < people.len() implies people[i].id <= people[j].id by {
        assert(customers::by_id()(people[i], people[j]));
    }
}

} // verus!
