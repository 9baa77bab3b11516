//! Billing runs that have taken place.
use crate::error::Result;
use crate::store;
use crate::store::rows;
use crate::store::rows::{RunRow, RunView};
use crate::store::table;
use crate::store::{Store, StoreView};
use crate::text;
use vstd::prelude::*;

verus! {

/// A run to be recorded.
pub struct NewRun<'a> {
    pub run_type: &'a str,
    pub scheduled_for: &'a str,
    pub started_at: &'a str,
    pub finished_at: Option<&'a str>,
    pub customers_total: u64,
    pub customers_succeeded: u64,
    pub customers_failed: u64,
    pub error_summary: Option<&'a str>,
}

impl NewRun<'_> {
    /// The row with this number.
    pub open spec fn row(self, id: i64) -> RunView {
        RunView {
            id,
            run_type: self.run_type@,
            scheduled_for: self.scheduled_for@,
            started_at: self.started_at@,
            finished_at: rows::borrowed(self.finished_at),
            customers_total: self.customers_total,
            customers_succeeded: self.customers_succeeded,
            customers_failed: self.customers_failed,
            error_summary: rows::borrowed(self.error_summary),
        }
    }
}

/// Why a run cannot be recorded, where it cannot.
pub open spec fn run_fault(s: StoreView, run_type: Seq<char>) -> Option<Seq<char>> {
    if !store::is_run_type(run_type) {
        Some(store::check("run_type IN ('scheduled','manual_replay','recovery')"@))
    } else if table::next_id(table::ids::<RunRow>(s.runs)) is None {
        Some(store::full())
    } else {
        None
    }
}

/// The store after a run has been recorded.
pub open spec fn with_run(s: StoreView, v: RunView) -> StoreView {
    StoreView { runs: s.runs.push(v), ..s }
}

impl Store {
    /// Records a run and gives its number.
    pub fn insert_invoice_run(&mut self, run: &NewRun) -> (r: Result<i64>)
        ensures
            match run_fault(old(self)@, run.run_type@) {
                Some(m) => (r matches Err(e) && e@ == store::refused("insert invoice run"@, m))
                    && final(self)@ == old(self)@,
                None => r matches Ok(id) && Some(id) == table::next_id(
                    table::ids::<RunRow>(old(self)@.runs),
                ) && final(self)@ == with_run(old(self)@, run.row(id)),
            },
            old(self)@.wf() ==> final(self)@.wf(),
    {
        if !(text::same(run.run_type, "scheduled") || text::same(run.run_type, "manual_replay")
            || text::same(run.run_type, "recovery")) {
            return Err(
                store::refuse(
                    "insert invoice run",
                    &store::check_text("run_type IN ('scheduled','manual_replay','recovery')"),
                ),
            );
        }
        let id: i64 = match table::fresh_id(&self.runs) {
            Some(id) => id,
            None => return Err(store::refuse("insert invoice run", &store::full_text())),
        };
        let row = RunRow {
            id,
            run_type: run.run_type.to_owned(),
            scheduled_for: run.scheduled_for.to_owned(),
            started_at: run.started_at.to_owned(),
            finished_at: rows::own(run.finished_at),
            customers_total: run.customers_total,
            customers_succeeded: run.customers_succeeded,
            customers_failed: run.customers_failed,
            error_summary: rows::own(run.error_summary),
        };
        proof {
            table::lemma_views_push(self.runs@, row);
            table::lemma_push::<RunRow>(self@.runs, row@);
        }
        self.runs.push(row);
        Ok(id)
    }
}

// ---------------------------------------------------------------------------
// Laws
// ---------------------------------------------------------------------------

/// A run is of one of three kinds, and is recorded behind the others as it was given.
pub proof fn law_run_recorded(s: StoreView, run: NewRun, id: i64)
    requires
        table::next_id(table::ids::<RunRow>(s.runs)) is Some,
    ensures
        run_fault(s, run.run_type@) is None <==> run.run_type@ == "scheduled"@ || run.run_type@
            == "manual_replay"@ || run.run_type@ == "recovery"@,
        ({
            let t = with_run(s, run.row(id));
            let v = t.runs.last();
            &&& t.runs.len() == s.runs.len() + 1 && t.runs.drop_last() == s.runs
            &&& v.id == id && v.run_type == run.run_type@
            &&& v.scheduled_for == run.scheduled_for@ && v.started_at == run.started_at@
            &&& run.finished_at matches Some(x) ==> v.finished_at == Some(x@)
            &&& run.finished_at is None ==> v.finished_at is None
            &&& v.customers_total == run.customers_total
            &&& v.customers_succeeded == run.customers_succeeded
            &&& v.customers_failed == run.customers_failed
            &&& run.error_summary matches Some(x) ==> v.error_summary == Some(x@)
            &&& run.error_summary is None ==> v.error_summary is None
            &&& t.invoices == s.invoices && t.customers == s.customers
        }),
{
    assert(with_run(s, run.row(id)).runs.drop_last() =~= s.runs);
}

/// Why a run is not recorded.
pub proof fn law_why_no_run(s: StoreView, run_type: Seq<char>)
    ensures
        run_type != "scheduled"@ && run_type != "manual_replay"@ && run_type != "recovery"@
            ==> run_fault(s, run_type) == Some(
            store::check("run_type IN ('scheduled','manual_replay','recovery')"@),
        ),
        (run_type == "scheduled"@ || run_type == "manual_replay"@ || run_type == "recovery"@)
            && run_fault(s, run_type) is Some ==> run_fault(s, run_type) == Some(store::full()),
{
}

} // verus!
