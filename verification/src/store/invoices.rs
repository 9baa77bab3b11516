//! Invoices and what was done to them.
//!
//! An invoice is generated, shown as a preview and then confirmed or rejected; generating it may
//! fail. Once it is final it stays as it is.
use crate::error::{Error, ErrorView, Result};
use crate::store;
use crate::store::customers;
use crate::store::rows;
use crate::store::rows::{
    ActionRow, ActionView, Customer, Invoice, InvoiceStatus, InvoiceView, User,
};
use crate::store::table;
use crate::store::table::{Record, Row};
use crate::store::{Store, StoreView};
use crate::text;
use vstd::prelude::*;

verus! {

// ---------------------------------------------------------------------------
// Which rows
// ---------------------------------------------------------------------------

/// The invoice of a customer for a month.
pub open spec fn for_period(customer: i64, year: i64, month: i64) -> spec_fn(InvoiceView) -> bool {
    |v: InvoiceView|
        v.customer_id == customer && v.period_year == year && v.period_month == month
}

/// An invoice with this invoice number, the one with the number `except` aside.
pub open spec fn number_taken(no: Seq<char>, except: Option<i64>) -> spec_fn(InvoiceView) -> bool {
    |v: InvoiceView| v.invoice_no == no && Some(v.id) != except
}

/// The order by month, the latest first.
pub open spec fn latest_first() -> spec_fn(InvoiceView, InvoiceView) -> bool {
    |a: InvoiceView, b: InvoiceView|
        a.period_year > b.period_year || (a.period_year == b.period_year && a.period_month
            >= b.period_month)
}

/// Whether there is an invoice for a customer and month, in whatever state.
pub open spec fn invoiced(s: StoreView, customer: i64, year: i64, month: i64) -> bool {
    table::any(s.invoices, for_period(customer, year, month))
}

// ---------------------------------------------------------------------------
// Changes
// ---------------------------------------------------------------------------

/// The store after an invoice has been added.
pub open spec fn with_invoice(s: StoreView, v: InvoiceView) -> StoreView {
    StoreView { invoices: s.invoices.push(v), ..s }
}

/// The store after the invoice at `i` has been changed.
pub open spec fn with_invoice_at(s: StoreView, i: int, v: InvoiceView) -> StoreView {
    StoreView { invoices: s.invoices.update(i, v), ..s }
}

/// What an invoice is about when its generation starts.
pub struct Draft {
    pub customer_id: i64,
    pub period_year: i64,
    pub period_month: i64,
    pub invoice_no: Seq<char>,
    pub template_version: Seq<char>,
    pub source_snapshot_json: Seq<char>,
    pub currency: Seq<char>,
    pub created_at: Seq<char>,
}

/// A new invoice.
pub open spec fn drafted(d: Draft, id: i64) -> InvoiceView {
    InvoiceView {
        id,
        customer_id: d.customer_id,
        period_year: d.period_year,
        period_month: d.period_month,
        status: InvoiceStatus::Generating,
        invoice_no: d.invoice_no,
        template_version: d.template_version,
        source_snapshot_json: d.source_snapshot_json,
        total_cents: None,
        currency: d.currency,
        pdf_path_preview: None,
        pdf_path_final: None,
        created_at: d.created_at,
        confirmed_at: None,
        confirmed_by: None,
        rejected_reason: None,
    }
}

/// An invoice whose generation starts again.
pub open spec fn redrafted(v: InvoiceView, d: Draft) -> InvoiceView {
    InvoiceView {
        status: InvoiceStatus::Generating,
        invoice_no: d.invoice_no,
        template_version: d.template_version,
        source_snapshot_json: d.source_snapshot_json,
        currency: d.currency,
        created_at: d.created_at,
        ..v
    }
}

/// The condition that ties the final PDF to the final state, in words.
pub open spec fn final_condition() -> Seq<char> {
    "(status='final') = (pdf_path_final IS NOT NULL)"@
}

/// What starting to generate an invoice does: there is one for a customer and month, so where it
/// exists it starts again under its number.
pub open spec fn generating(
    before: StoreView,
    after: StoreView,
    r: Result<i64>,
    d: Draft,
) -> bool {
    let what = "upsert invoice generating"@;
    if !(1 <= d.period_month <= 12) {
        (r matches Err(e) && e@ == store::refused(
            what,
            store::check("period_month BETWEEN 1 AND 12"@),
        )) && after == before
    } else {
        match table::find_row(
            before.invoices,
            for_period(d.customer_id, d.period_year, d.period_month),
        ) {
            Some(i) => {
                let v = redrafted(before.invoices[i], d);
                if !store::final_ok(v.status, v.pdf_path_final) {
                    (r matches Err(e) && e@ == store::refused(
                        what,
                        store::check(final_condition()),
                    )) && after == before
                } else if table::any(before.invoices, number_taken(d.invoice_no, Some(v.id))) {
                    (r matches Err(e) && e@ == store::refused(
                        what,
                        store::unique("invoices.invoice_no"@),
                    )) && after == before
                } else {
                    r == Result::<i64>::Ok(v.id) && after == with_invoice_at(before, i, v)
                }
            },
            None => if table::any(before.invoices, number_taken(d.invoice_no, None)) {
                (r matches Err(e) && e@ == store::refused(
                    what,
                    store::unique("invoices.invoice_no"@),
                )) && after == before
            } else if !table::known::<Customer>(before.customers, d.customer_id) {
                (r matches Err(e) && e@ == store::refused(what, store::foreign())) && after
                    == before
            } else {
                match table::next_id(table::ids::<Invoice>(before.invoices)) {
                    None => (r matches Err(e) && e@ == store::refused(what, store::full()))
                        && after == before,
                    Some(id) => r == Result::<i64>::Ok(id) && after == with_invoice(
                        before,
                        drafted(d, id),
                    ),
                }
            },
        }
    }
}

/// The place of the invoice `id`.
pub open spec fn place_of(s: StoreView, id: i64) -> Option<int> {
    table::find_row(s.invoices, table::numbered::<Invoice>(id))
}

/// An invoice that is shown as a preview.
pub open spec fn previewed(v: InvoiceView, total: i64, path: Seq<char>) -> InvoiceView {
    InvoiceView {
        status: InvoiceStatus::Preview,
        total_cents: Some(total),
        pdf_path_preview: Some(path),
        ..v
    }
}

/// An invoice that is confirmed.
pub open spec fn confirmed(v: InvoiceView, path: Seq<char>, actor: i64, now: Seq<char>) -> InvoiceView {
    InvoiceView {
        status: InvoiceStatus::Final,
        pdf_path_final: Some(path),
        confirmed_at: Some(now),
        confirmed_by: Some(actor),
        ..v
    }
}

/// An invoice that is rejected.
pub open spec fn rejected(v: InvoiceView, reason: Seq<char>) -> InvoiceView {
    InvoiceView { status: InvoiceStatus::Rejected, rejected_reason: Some(reason), ..v }
}

/// An invoice that could not be generated.
pub open spec fn failed(v: InvoiceView) -> InvoiceView {
    InvoiceView { status: InvoiceStatus::Failed, ..v }
}

/// Makes an invoice a preview.
pub open spec fn to_preview(total: i64, path: Seq<char>) -> spec_fn(InvoiceView) -> InvoiceView {
    |v: InvoiceView| previewed(v, total, path)
}

/// Makes an invoice a rejected one.
pub open spec fn to_rejected(reason: Seq<char>) -> spec_fn(InvoiceView) -> InvoiceView {
    |v: InvoiceView| rejected(v, reason)
}

/// Makes an invoice a failed one.
pub open spec fn to_failed() -> spec_fn(InvoiceView) -> InvoiceView {
    |v: InvoiceView| failed(v)
}

/// Why the invoice `id` cannot be changed to `to`: a final one stays as it is.
pub open spec fn change_fault(
    s: StoreView,
    id: i64,
    what: Seq<char>,
    to: spec_fn(InvoiceView) -> InvoiceView,
) -> Option<ErrorView> {
    match place_of(s, id) {
        None => None,
        Some(i) => {
            let v = to(s.invoices[i]);
            if store::final_ok(v.status, v.pdf_path_final) {
                None
            } else {
                Some(store::refused(what, store::check(final_condition())))
            }
        },
    }
}

/// The store after the invoice `id` has been changed to `to`; as it was where there is none.
pub open spec fn after_change(
    s: StoreView,
    id: i64,
    to: spec_fn(InvoiceView) -> InvoiceView,
) -> StoreView {
    match place_of(s, id) {
        None => s,
        Some(i) => with_invoice_at(s, i, to(s.invoices[i])),
    }
}

/// What changing an invoice to `to` does.
pub open spec fn changed(
    before: StoreView,
    after: StoreView,
    r: Result<()>,
    id: i64,
    what: Seq<char>,
    to: spec_fn(InvoiceView) -> InvoiceView,
) -> bool {
    match change_fault(before, id, what, to) {
        Some(m) => (r matches Err(e) && e@ == m) && after == before,
        None => r is Ok && after == after_change(before, id, to),
    }
}

/// Why the invoice `id` cannot be moved out of its preview: it is not there, or not a preview.
pub open spec fn not_in_preview(s: StoreView, id: i64) -> Option<ErrorView> {
    match place_of(s, id) {
        Some(i) if s.invoices[i].status == InvoiceStatus::Preview => None,
        _ => Some(
            ErrorView::InvalidTransition(
                "invoice "@ + text::dec_int(id as int) + " is not in preview"@,
            ),
        ),
    }
}

// ---------------------------------------------------------------------------
// What stays true
// ---------------------------------------------------------------------------

proof fn lemma_add_keeps(s: StoreView, v: InvoiceView)
    requires
        s.wf(),
        table::next_id(table::ids::<Invoice>(s.invoices)) == Some(v.id),
        1 <= v.period_month <= 12,
        store::final_ok(v.status, v.pdf_path_final),
        !table::any(s.invoices, for_period(v.customer_id, v.period_year, v.period_month)),
        !table::any(s.invoices, number_taken(v.invoice_no, None)),
        table::known::<Customer>(s.customers, v.customer_id),
        v.confirmed_by is None,
    ensures
        with_invoice(s, v).wf(),
{
    table::lemma_push::<Invoice>(s.invoices, v);
    let n = s.invoices.push(v);
    assert forall|i: int, j: int|
        #![trigger n[i], n[j]]
        0 <= i < j < n.len() implies !store::same_period(n[i], n[j]) && n[i].invoice_no
        != n[j].invoice_no by {
        if j == s.invoices.len() {
            assert(!for_period(v.customer_id, v.period_year, v.period_month)(s.invoices[i]));
            assert(!number_taken(v.invoice_no, None)(s.invoices[i]));
        } else {
            assert(!store::same_period(s.invoices[i], s.invoices[j]));
        }
    }
    assert forall|i: int|
        #![trigger s.actions[i]]
        0 <= i < s.actions.len() implies table::known::<Invoice>(n, s.actions[i].invoice_id) by {
    }
}

proof fn lemma_change_keeps(s: StoreView, i: int, v: InvoiceView)
    requires
        s.wf(),
        0 <= i < s.invoices.len(),
        v.id == s.invoices[i].id,
        store::same_period(v, s.invoices[i]),
        store::final_ok(v.status, v.pdf_path_final),
        !table::any(s.invoices, number_taken(v.invoice_no, Some(v.id))),
        v.confirmed_by == s.invoices[i].confirmed_by || (v.confirmed_by matches Some(u)
            && table::known::<User>(s.users, u)),
    ensures
        with_invoice_at(s, i, v).wf(),
{
    table::lemma_update::<Invoice>(s.invoices, i, v);
    let n = s.invoices.update(i, v);
    assert forall|a: int, b: int|
        #![trigger n[a], n[b]]
        0 <= a < b < n.len() implies !store::same_period(n[a], n[b]) && n[a].invoice_no
        != n[b].invoice_no by {
        assert(s.invoices[a].id < s.invoices[b].id);
        assert(!store::same_period(s.invoices[a], s.invoices[b]));
        if a == i {
            assert(!number_taken(v.invoice_no, Some(v.id))(s.invoices[b]));
        } else if b == i {
            assert(!number_taken(v.invoice_no, Some(v.id))(s.invoices[a]));
        }
    }
    assert forall|k: int|
        #![trigger s.actions[k]]
        0 <= k < s.actions.len() implies table::known::<Invoice>(n, s.actions[k].invoice_id) by {
    }
}

/// The number of an invoice is its own.
proof fn lemma_number_own(s: StoreView, i: int)
    requires
        s.wf(),
        0 <= i < s.invoices.len(),
    ensures
        !table::any(
            s.invoices,
            number_taken(s.invoices[i].invoice_no, Some(s.invoices[i].id)),
        ),
{
    assert forall|k: int| 0 <= k < s.invoices.len() implies !number_taken(
        s.invoices[i].invoice_no,
        Some(s.invoices[i].id),
    )(#[trigger] s.invoices[k]) by {
        if k < i {
            assert(s.invoices[k].invoice_no != s.invoices[i].invoice_no);
        } else if k > i {
            assert(s.invoices[i].invoice_no != s.invoices[k].invoice_no);
        }
    }
}

// ---------------------------------------------------------------------------
// Operations
// ---------------------------------------------------------------------------

impl Store {
    fn invoice_number_taken(&self, no: &str, except: Option<i64>) -> (r: bool)
        ensures
            r == table::any(self@.invoices, number_taken(no@, except)),
    {
        let f = |t: &Invoice| -> (b: bool)
            ensures
                b == number_taken(no@, except)(t@),
        {
            text::same(&t.invoice_no, no) && match except {
                Some(e) => t.id != e,
                None => true,
            }
        };
        table::any_row(&self.invoices, f, Ghost(number_taken(no@, except)))
    }

    fn place_for_period(&self, customer: i64, year: i64, month: i64) -> (r: Option<usize>)
        ensures
            r matches Some(i) ==> i < self.invoices@.len() && table::find_row(
                self@.invoices,
                for_period(customer, year, month),
            ) == Some(i as int),
            r is None ==> table::find_row(
                self@.invoices,
                for_period(customer, year, month),
            ) is None,
    {
        let f = |t: &Invoice| -> (b: bool)
            ensures
                b == for_period(customer, year, month)(t@),
        {
            t.customer_id == customer && t.period_year == year && t.period_month == month
        };
        table::position(&self.invoices, f, Ghost(for_period(customer, year, month)))
    }

    /// Starts to generate the invoice of a customer for a month. Where there is one already it
    /// starts again under its number, unless it is final.
    pub fn upsert_invoice_generating(
        &mut self,
        customer_id: i64,
        period_year: i64,
        period_month: i64,
        invoice_no: &str,
        template_version: &str,
        source_snapshot_json: &str,
        currency: &str,
        now: &str,
    ) -> (r: Result<i64>)
        ensures
            generating(
                old(self)@,
                final(self)@,
                r,
                Draft {
                    customer_id,
                    period_year,
                    period_month,
                    invoice_no: invoice_no@,
                    template_version: template_version@,
                    source_snapshot_json: source_snapshot_json@,
                    currency: currency@,
                    created_at: now@,
                },
            ),
            old(self)@.wf() ==> final(self)@.wf(),
    {
        let what = "upsert invoice generating";
        if period_month < 1 || period_month > 12 {
            return Err(store::refuse(what, &store::check_text("period_month BETWEEN 1 AND 12")));
        }
        proof {
            table::lemma_find_row(
                self@.invoices,
                for_period(customer_id, period_year, period_month),
            );
        }
        match self.place_for_period(customer_id, period_year, period_month) {
            Some(i) => {
                if self.invoices[i].pdf_path_final.is_some() {
                    return Err(
                        store::refuse(
                            what,
                            &store::check_text("(status='final') = (pdf_path_final IS NOT NULL)"),
                        ),
                    );
                }
                let id: i64 = self.invoices[i].id;
                if self.invoice_number_taken(invoice_no, Some(id)) {
                    return Err(store::refuse(what, &store::unique_text("invoices.invoice_no")));
                }
                let mut row = self.invoices[i].copy();
                row.status = InvoiceStatus::Generating;
                row.invoice_no = invoice_no.to_owned();
                row.template_version = template_version.to_owned();
                row.source_snapshot_json = source_snapshot_json.to_owned();
                row.currency = currency.to_owned();
                row.created_at = now.to_owned();
                proof {
                    table::lemma_views_set(self.invoices@, i as int, row);
                    if self@.wf() {
                        lemma_change_keeps(self@, i as int, row@);
                    }
                }
                self.invoices.set(i, row);
                Ok(id)
            },
            None => {
                if self.invoice_number_taken(invoice_no, None) {
                    return Err(store::refuse(what, &store::unique_text("invoices.invoice_no")));
                }
                if !table::is_known(&self.customers, customer_id) {
                    return Err(store::refuse(what, &store::foreign_text()));
                }
                let id: i64 = match table::fresh_id(&self.invoices) {
                    Some(id) => id,
                    None => return Err(store::refuse(what, &store::full_text())),
                };
                let row = Invoice {
                    id,
                    customer_id,
                    period_year,
                    period_month,
                    status: InvoiceStatus::Generating,
                    invoice_no: invoice_no.to_owned(),
                    template_version: template_version.to_owned(),
                    source_snapshot_json: source_snapshot_json.to_owned(),
                    total_cents: None,
                    currency: currency.to_owned(),
                    pdf_path_preview: None,
                    pdf_path_final: None,
                    created_at: now.to_owned(),
                    confirmed_at: None,
                    confirmed_by: None,
                    rejected_reason: None,
                };
                proof {
                    table::lemma_views_push(self.invoices@, row);
                    if self@.wf() {
                        lemma_add_keeps(self@, row@);
                    }
                }
                self.invoices.push(row);
                Ok(id)
            },
        }
    }

    /// Shows an invoice as a preview, with its total.
    pub fn update_invoice_preview(&mut self, id: i64, total_cents: i64, pdf_path_preview: &str) -> (r:
        Result<()>)
        ensures
            changed(
                old(self)@,
                final(self)@,
                r,
                id,
                "update invoice preview"@,
                to_preview(total_cents, pdf_path_preview@),
            ),
            old(self)@.wf() ==> final(self)@.wf(),
    {
        proof {
            table::lemma_numbered::<Invoice>(self@.invoices, id);
        }
        if let Some(i) = table::position_of(&self.invoices, id) {
            if self.invoices[i].pdf_path_final.is_some() {
                return Err(
                    store::refuse(
                        "update invoice preview",
                        &store::check_text("(status='final') = (pdf_path_final IS NOT NULL)"),
                    ),
                );
            }
            let mut row = self.invoices[i].copy();
            row.status = InvoiceStatus::Preview;
            row.total_cents = Some(total_cents);
            row.pdf_path_preview = Some(pdf_path_preview.to_owned());
            proof {
                table::lemma_views_set(self.invoices@, i as int, row);
                if self@.wf() {
                    lemma_number_own(self@, i as int);
                    lemma_change_keeps(self@, i as int, row@);
                }
            }
            self.invoices.set(i, row);
        }
        Ok(())
    }

    /// Makes a preview final. Whoever confirms must be a user.
    pub fn update_invoice_confirmed(
        &mut self,
        id: i64,
        pdf_path_final: &str,
        actor_user_id: i64,
        now: &str,
    ) -> (r: Result<()>)
        ensures
            confirming(old(self)@, final(self)@, r, id, pdf_path_final@, actor_user_id, now@),
            old(self)@.wf() ==> final(self)@.wf(),
    {
        proof {
            table::lemma_numbered::<Invoice>(self@.invoices, id);
        }
        match table::position_of(&self.invoices, id) {
            Some(i) => {
                if self.invoices[i].status != InvoiceStatus::Preview {
                    return Err(no_preview(id));
                }
                if !table::is_known(&self.users, actor_user_id) {
                    return Err(store::refuse("update invoice final", &store::foreign_text()));
                }
                let mut row = self.invoices[i].copy();
                row.status = InvoiceStatus::Final;
                row.pdf_path_final = Some(pdf_path_final.to_owned());
                row.confirmed_at = Some(now.to_owned());
                row.confirmed_by = Some(actor_user_id);
                proof {
                    table::lemma_views_set(self.invoices@, i as int, row);
                    if self@.wf() {
                        lemma_number_own(self@, i as int);
                        lemma_change_keeps(self@, i as int, row@);
                    }
                }
                self.invoices.set(i, row);
                Ok(())
            },
            None => Err(no_preview(id)),
        }
    }

    /// Rejects a preview, with the reason, which must say something.
    pub fn update_invoice_rejected(&mut self, id: i64, reason: &str) -> (r: Result<()>)
        ensures
            match not_in_preview(old(self)@, id) {
                Some(m) => (r matches Err(e) && e@ == m) && final(self)@ == old(self)@,
                None => if text::is_blank(reason@) {
                    (r matches Err(e) && e@ == no_reason()) && final(self)@ == old(self)@
                } else {
                    changed(
                        old(self)@,
                        final(self)@,
                        r,
                        id,
                        "update invoice rejected"@,
                        to_rejected(reason@),
                    )
                },
            },
            old(self)@.wf() ==> final(self)@.wf(),
    {
        proof {
            table::lemma_numbered::<Invoice>(self@.invoices, id);
        }
        match table::position_of(&self.invoices, id) {
            Some(i) => {
                if self.invoices[i].status != InvoiceStatus::Preview {
                    return Err(no_preview(id));
                }
                if text::blank(reason) {
                    return Err(
                        store::refuse(
                            "update invoice rejected",
                            &store::check_text("reason is given for rejected and failed"),
                        ),
                    );
                }
                if self.invoices[i].pdf_path_final.is_some() {
                    return Err(
                        store::refuse(
                            "update invoice rejected",
                            &store::check_text("(status='final') = (pdf_path_final IS NOT NULL)"),
                        ),
                    );
                }
                let mut row = self.invoices[i].copy();
                row.status = InvoiceStatus::Rejected;
                row.rejected_reason = Some(reason.to_owned());
                proof {
                    table::lemma_views_set(self.invoices@, i as int, row);
                    if self@.wf() {
                        lemma_number_own(self@, i as int);
                        lemma_change_keeps(self@, i as int, row@);
                    }
                }
                self.invoices.set(i, row);
                Ok(())
            },
            None => Err(no_preview(id)),
        }
    }

    /// Notes that an invoice could not be generated. A preview that exists stays on record.
    pub fn update_invoice_failed(&mut self, id: i64) -> (r: Result<()>)
        ensures
            changed(
                old(self)@,
                final(self)@,
                r,
                id,
                "update invoice failed"@,
                to_failed(),
            ),
            old(self)@.wf() ==> final(self)@.wf(),
    {
        proof {
            table::lemma_numbered::<Invoice>(self@.invoices, id);
        }
        if let Some(i) = table::position_of(&self.invoices, id) {
            if self.invoices[i].pdf_path_final.is_some() {
                return Err(
                    store::refuse(
                        "update invoice failed",
                        &store::check_text("(status='final') = (pdf_path_final IS NOT NULL)"),
                    ),
                );
            }
            let mut row = self.invoices[i].copy();
            row.status = InvoiceStatus::Failed;
            proof {
                table::lemma_views_set(self.invoices@, i as int, row);
                if self@.wf() {
                    lemma_number_own(self@, i as int);
                    lemma_change_keeps(self@, i as int, row@);
                }
            }
            self.invoices.set(i, row);
        }
        Ok(())
    }

    /// The invoice `id`.
    pub fn find_invoice(&self, id: i64) -> (r: Option<Invoice>)
        ensures
            table::found(r, self@.invoices, table::numbered::<Invoice>(id)),
    {
        table::at(&self.invoices, table::position_of(&self.invoices, id), Ghost(
            table::numbered::<Invoice>(id),
        ))
    }

    /// The invoice of a customer for a month.
    pub fn find_invoice_for_customer_month(&self, customer_id: i64, year: i64, month: i64) -> (r:
        Option<Invoice>)
        ensures
            table::found(r, self@.invoices, for_period(customer_id, year, month)),
    {
        table::at(&self.invoices, self.place_for_period(customer_id, year, month), Ghost(
            for_period(customer_id, year, month),
        ))
    }

    /// The invoices of a customer, the latest month first.
    pub fn list_invoices_for_customer(&self, customer_id: i64) -> (r: Vec<Invoice>)
        ensures
            table::same_rows(
                table::views(r@),
                self@.invoices.filter(customers::invoice_of(customer_id)),
            ),
            table::ordered(table::views(r@), latest_first()),
    {
        let f = |t: &Invoice| -> (b: bool)
            ensures
                b == customers::invoice_of(customer_id)(t@),
        {
            t.customer_id == customer_id
        };
        let chosen = table::select(&self.invoices, f, Ghost(customers::invoice_of(customer_id)));
        let g = |a: &Invoice, b: &Invoice| -> (c: bool)
            ensures
                c == latest_first()(a@, b@),
        {
            a.period_year > b.period_year || (a.period_year == b.period_year && a.period_month
                >= b.period_month)
        };
        table::sorted(chosen, g, Ghost(latest_first()))
    }

    /// Whether there is an invoice for a customer and month, in whatever state.
    pub fn has_invoice_for_period(&self, customer_id: i64, period_year: i64, period_month: u32) -> (r:
        bool)
        ensures
            r == invoiced(self@, customer_id, period_year, period_month as i64),
    {
        proof {
            table::lemma_find_row(
                self@.invoices,
                for_period(customer_id, period_year, period_month as i64),
            );
        }
        self.place_for_period(customer_id, period_year, period_month as i64).is_some()
    }

    /// Records what was done to an invoice, by whom and why. A rejection and a failure need a
    /// reason.
    pub fn record_action(
        &mut self,
        invoice_id: i64,
        action: &str,
        actor_user_id: Option<i64>,
        reason: Option<&str>,
        now: &str,
    ) -> (r: Result<()>)
        ensures
            match action_fault(
                old(self)@,
                invoice_id,
                action@,
                actor_user_id,
                rows::borrowed(reason),
            ) {
                Some(m) => (r matches Err(e) && e@ == store::refused("record action"@, m))
                    && final(self)@ == old(self)@,
                None => r is Ok && final(self)@ == with_action(
                    old(self)@,
                    invoice_id,
                    action@,
                    actor_user_id,
                    rows::borrowed(reason),
                    now@,
                ),
            },
            old(self)@.wf() ==> final(self)@.wf(),
    {
        let rejection: bool = text::same(action, "rejected");
        let failure: bool = text::same(action, "failed");
        if !(rejection || failure || text::same(action, "running") || text::same(
            action,
            "preview_generated",
        ) || text::same(action, "preview_regenerated") || text::same(action, "confirmed")) {
            return Err(
                store::refuse("record action", &store::check_text("action is a known one")),
            );
        }
        let reasoned: bool = match reason {
            Some(t) => !text::blank(t),
            None => false,
        };
        if (rejection || failure) && !reasoned {
            return Err(
                store::refuse(
                    "record action",
                    &store::check_text("reason is given for rejected and failed"),
                ),
            );
        }
        if !table::is_known(&self.invoices, invoice_id) {
            return Err(store::refuse("record action", &store::foreign_text()));
        }
        if let Some(u) = actor_user_id {
            if !table::is_known(&self.users, u) {
                return Err(store::refuse("record action", &store::foreign_text()));
            }
        }
        let id: i64 = match table::fresh_id(&self.actions) {
            Some(id) => id,
            None => return Err(store::refuse("record action", &store::full_text())),
        };
        let row = ActionRow {
            id,
            invoice_id,
            action: action.to_owned(),
            actor_user_id,
            reason: rows::own(reason),
            at: now.to_owned(),
        };
        proof {
            table::lemma_views_push(self.actions@, row);
            table::lemma_push::<ActionRow>(self@.actions, row@);
        }
        self.actions.push(row);
        Ok(())
    }
}

fn no_preview(id: i64) -> (r: Error)
    ensures
        r@ == ErrorView::InvalidTransition(
            "invoice "@ + text::dec_int(id as int) + " is not in preview"@,
        ),
{
    let n = text::string_of(&text::number(id));
    Error::InvalidTransition(text::cat3("invoice ", &n, " is not in preview"))
}

/// What confirming an invoice does: a preview becomes final where who confirms it is a user.
pub open spec fn confirming(
    before: StoreView,
    after: StoreView,
    r: Result<()>,
    id: i64,
    path: Seq<char>,
    actor: i64,
    now: Seq<char>,
) -> bool {
    match not_in_preview(before, id) {
        Some(m) => (r matches Err(e) && e@ == m) && after == before,
        None => if !table::known::<User>(before.users, actor) {
            (r matches Err(e) && e@ == store::refused("update invoice final"@, store::foreign()))
                && after == before
        } else {
            let i = place_of(before, id)->0;
            r is Ok && after == with_invoice_at(
                before,
                i,
                confirmed(before.invoices[i], path, actor, now),
            )
        },
    }
}

/// The error for a rejection without a reason.
pub open spec fn no_reason() -> ErrorView {
    store::refused(
        "update invoice rejected"@,
        store::check("reason is given for rejected and failed"@),
    )
}

/// Why an action cannot be recorded, where it cannot.
pub open spec fn action_fault(
    s: StoreView,
    invoice: i64,
    action: Seq<char>,
    actor: Option<i64>,
    reason: Option<Seq<char>>,
) -> Option<Seq<char>> {
    if !store::is_action(action) {
        Some(store::check("action is a known one"@))
    } else if store::needs_reason(action) && !store::reasoned(reason) {
        Some(store::check("reason is given for rejected and failed"@))
    } else if !table::known::<Invoice>(s.invoices, invoice) {
        Some(store::foreign())
    } else if actor matches Some(u) && !table::known::<User>(s.users, u) {
        Some(store::foreign())
    } else if table::next_id(table::ids::<ActionRow>(s.actions)) is None {
        Some(store::full())
    } else {
        None
    }
}

/// The store after an action has been recorded.
pub open spec fn with_action(
    s: StoreView,
    invoice_id: i64,
    action: Seq<char>,
    actor_user_id: Option<i64>,
    reason: Option<Seq<char>>,
    at: Seq<char>,
) -> StoreView {
    let id = table::next_id(table::ids::<ActionRow>(s.actions))->0;
    let row = ActionView { id, invoice_id, action, actor_user_id, reason, at };
    StoreView { actions: s.actions.push(row), ..s }
}

// ---------------------------------------------------------------------------
// Laws
// ---------------------------------------------------------------------------

/// There is at most one invoice for a customer and month.
pub proof fn law_one_invoice_per_period(s: StoreView, i: int, j: int)
    requires
        s.wf(),
        0 <= i < s.invoices.len(),
        0 <= j < s.invoices.len(),
        store::same_period(s.invoices[i], s.invoices[j]),
    ensures
        i == j,
{
    if i < j {
        assert(!store::same_period(s.invoices[i], s.invoices[j]));
    } else if j < i {
        assert(!store::same_period(s.invoices[j], s.invoices[i]));
    }
}

/// Once generating an invoice has been started there is one for that customer and month, and
/// for every other customer and month there is one exactly where there was.
pub proof fn law_invoiced_after_generating(
    before: StoreView,
    after: StoreView,
    r: Result<i64>,
    d: Draft,
    customer: i64,
    year: i64,
    month: i64,
)
    requires
        generating(before, after, r, d),
        r is Ok,
    ensures
        invoiced(after, d.customer_id, d.period_year, d.period_month),
        !(customer == d.customer_id && year == d.period_year && month == d.period_month) ==> (
        invoiced(after, customer, year, month) <==> invoiced(before, customer, year, month)),
{
    let p = for_period(d.customer_id, d.period_year, d.period_month);
    let q = for_period(customer, year, month);
    table::lemma_find_row(before.invoices, p);
    let k = match table::find_row(before.invoices, p) {
        Some(i) => i,
        None => before.invoices.len() as int,
    };
    assert(p(after.invoices[k]));
    if !(customer == d.customer_id && year == d.period_year && month == d.period_month) {
        assert(!q(after.invoices[k]));
        if k < before.invoices.len() {
            assert(p(before.invoices[k]));
            assert(!q(before.invoices[k]));
        }
        if invoiced(before, customer, year, month) {
            let i = choose|i: int| 0 <= i < before.invoices.len() && q(
                #[trigger] before.invoices[i],
            );
            assert(after.invoices[i] == before.invoices[i]);
        }
        if invoiced(after, customer, year, month) {
            let i = choose|i: int| 0 <= i < after.invoices.len() && q(
                #[trigger] after.invoices[i],
            );
            assert(i != k);
            assert(after.invoices[i] == before.invoices[i]);
        }
    }
}

/// Generating again keeps the invoice's number, and what is stored is what was given last.
pub proof fn law_generating_again(
    s0: StoreView,
    s1: StoreView,
    s2: StoreView,
    r1: Result<i64>,
    r2: Result<i64>,
    d1: Draft,
    d2: Draft,
)
    requires
        s0.wf(),
        generating(s0, s1, r1, d1),
        generating(s1, s2, r2, d2),
        r1 is Ok,
        r2 is Ok,
        d1.customer_id == d2.customer_id,
        d1.period_year == d2.period_year,
        d1.period_month == d2.period_month,
    ensures
        r1 == r2,
        s2.invoices.len() == s1.invoices.len(),
        ({
            let p = for_period(d2.customer_id, d2.period_year, d2.period_month);
            table::find_row(s2.invoices, p) matches Some(i) && s2.invoices[i].id == r1->Ok_0
                && s2.invoices[i].invoice_no == d2.invoice_no
                && s2.invoices[i].source_snapshot_json == d2.source_snapshot_json
        }),
{
    let p = for_period(d1.customer_id, d1.period_year, d1.period_month);
    table::lemma_find_row(s0.invoices, p);
    let k = match table::find_row(s0.invoices, p) {
        Some(i) => i,
        None => s0.invoices.len() as int,
    };
    assert(p(s1.invoices[k]));
    assert forall|j: int| 0 <= j < k implies !p(#[trigger] s1.invoices[j]) by {
        assert(!p(s0.invoices[j]));
    }
    table::lemma_found(s1.invoices, p, k);
    assert(p(s2.invoices[k]));
    assert forall|j: int| 0 <= j < k implies !p(#[trigger] s2.invoices[j]) by {
        assert(!p(s1.invoices[j]));
    }
    table::lemma_found(s2.invoices, p, k);
}

/// A final invoice stays as it is: whatever is done to invoices leaves its row alone, and it is
/// not confirmed again.
pub proof fn law_final_stays(
    before: StoreView,
    after: StoreView,
    k: int,
    r: Result<i64>,
    d: Draft,
    u: Result<()>,
    id: i64,
    what: Seq<char>,
    total: i64,
    path: Seq<char>,
    reason: Seq<char>,
    actor: i64,
    now: Seq<char>,
)
    requires
        before.wf(),
        0 <= k < before.invoices.len(),
        before.invoices[k].status == InvoiceStatus::Final,
        generating(before, after, r, d) || changed(
            before,
            after,
            u,
            id,
            what,
            to_preview(total, path),
        ) || changed(before, after, u, id, what, to_rejected(reason)) || changed(
            before,
            after,
            u,
            id,
            what,
            to_failed(),
        ) || confirming(before, after, u, id, path, actor, now),
    ensures
        confirming(before, after, u, id, path, actor, now) && id == before.invoices[k].id ==> u
            is Err,
        k < after.invoices.len(),
        after.invoices[k] == before.invoices[k],
{
    assert(before.invoices[k].pdf_path_final is Some);
    let p = for_period(d.customer_id, d.period_year, d.period_month);
    table::lemma_find_row(before.invoices, p);
    table::lemma_numbered::<Invoice>(before.invoices, id);
}

/// A customer is invoiced for a month exactly where there is an invoice for both, in whatever state.
pub proof fn law_invoiced(s: StoreView, customer: i64, year: i64, month: i64)
    ensures
        invoiced(s, customer, year, month) <==> exists|i: int|
            0 <= i < s.invoices.len() && (#[trigger] s.invoices[i]).customer_id == customer
                && s.invoices[i].period_year == year && s.invoices[i].period_month == month,
{
    let p = for_period(customer, year, month);
    table::lemma_find_row(s.invoices, p);
    if invoiced(s, customer, year, month) {
        let i = choose|i: int| 0 <= i < s.invoices.len() && p(#[trigger] s.invoices[i]);
        assert(s.invoices[i].customer_id == customer);
    }
    if exists|i: int|
        0 <= i < s.invoices.len() && (#[trigger] s.invoices[i]).customer_id == customer
            && s.invoices[i].period_year == year && s.invoices[i].period_month == month {
        let i = choose|i: int|
            0 <= i < s.invoices.len() && (#[trigger] s.invoices[i]).customer_id == customer
                && s.invoices[i].period_year == year && s.invoices[i].period_month == month;
        assert(p(s.invoices[i]));
    }
}

/// An invoice can be started for a month that exists, under a number that no other invoice has, for a
/// customer who is known; one that exists starts again unless there is a final PDF. Nothing else
/// stands in the way but that the numbers of the rows run out, and what is refused changes nothing.
pub proof fn law_generating_refused(before: StoreView, after: StoreView, r: Result<i64>, d: Draft)
    requires
        before.wf(),
        generating(before, after, r, d),
        table::next_id(table::ids::<Invoice>(before.invoices)) is Some,
    ensures
        r is Err ==> after == before,
        r is Ok <==> {
            &&& 1 <= d.period_month <= 12
            &&& forall|i: int|
                0 <= i < before.invoices.len() && (#[trigger] before.invoices[i]).invoice_no
                    == d.invoice_no ==> before.invoices[i].customer_id == d.customer_id
                    && before.invoices[i].period_year == d.period_year
                    && before.invoices[i].period_month == d.period_month
            &&& forall|i: int|
                0 <= i < before.invoices.len() && (#[trigger] before.invoices[i]).customer_id
                    == d.customer_id && before.invoices[i].period_year == d.period_year
                    && before.invoices[i].period_month == d.period_month
                    ==> before.invoices[i].status != InvoiceStatus::Final
            &&& exists|k: int|
                0 <= k < before.customers.len() && (#[trigger] before.customers[k]).id
                    == d.customer_id
        },
{
    let p = for_period(d.customer_id, d.period_year, d.period_month);
    table::lemma_find_row(before.invoices, p);
    match table::find_row(before.invoices, p) {
        Some(i) => {
            let v = before.invoices[i];
            let q = number_taken(d.invoice_no, Some(v.id));
            assert(p(v));
            assert(table::known::<Customer>(before.customers, v.customer_id));
            assert(store::final_ok(v.status, v.pdf_path_final));
            assert forall|k: int|
                0 <= k < before.invoices.len() && (#[trigger] before.invoices[k]).customer_id
                    == d.customer_id && before.invoices[k].period_year == d.period_year
                    && before.invoices[k].period_month == d.period_month implies k == i by {
                if k < i {
                    assert(!store::same_period(before.invoices[k], before.invoices[i]));
                } else if i < k {
                    assert(!store::same_period(before.invoices[i], before.invoices[k]));
                }
            }
            if table::any(before.invoices, q) {
                let k = choose|k: int| 0 <= k < before.invoices.len() && q(#[trigger] before.invoices[k]);
                assert(before.invoices[k].invoice_no == d.invoice_no);
                assert(k != i);
            } else {
                assert forall|k: int|
                    0 <= k < before.invoices.len() && (#[trigger] before.invoices[k]).invoice_no
                        == d.invoice_no implies before.invoices[k].customer_id == d.customer_id
                    && before.invoices[k].period_year == d.period_year
                    && before.invoices[k].period_month == d.period_month by {
                    assert(!q(before.invoices[k]));
                    if k < i {
                        assert(before.invoices[k].id < before.invoices[i].id);
                    } else if i < k {
                        assert(before.invoices[i].id < before.invoices[k].id);
                    }
                }
            }
        },
        None => {
            let q = number_taken(d.invoice_no, None);
            assert forall|k: int|
                0 <= k < before.invoices.len() implies !((
            #[trigger] before.invoices[k]).customer_id == d.customer_id
                && before.invoices[k].period_year == d.period_year
                && before.invoices[k].period_month == d.period_month) by {
                assert(!p(before.invoices[k]));
            }
            if table::any(before.invoices, q) {
                let k = choose|k: int| 0 <= k < before.invoices.len() && q(#[trigger] before.invoices[k]);
                assert(before.invoices[k].invoice_no == d.invoice_no);
            } else {
                assert forall|k: int|
                    0 <= k < before.invoices.len() implies (
                #[trigger] before.invoices[k]).invoice_no != d.invoice_no by {
                    assert(!q(before.invoices[k]));
                }
            }
        },
    }
}

/// Once an invoice has been started its row says so, and holds what it is made from as it was given.
/// What a preview left in it stays; every other invoice stays as it was, and so does the rest of the
/// store.
pub proof fn law_generating_row(
    before: StoreView,
    after: StoreView,
    r: Result<i64>,
    d: Draft,
    k: int,
)
    requires
        before.wf(),
        generating(before, after, r, d),
        r is Ok,
        0 <= k < after.invoices.len(),
    ensures
        ({
            let v = after.invoices[k];
            if v.id == r->Ok_0 {
                &&& v.status == InvoiceStatus::Generating
                &&& v.customer_id == d.customer_id
                &&& v.period_year == d.period_year && v.period_month == d.period_month
                &&& v.invoice_no == d.invoice_no
                &&& v.template_version == d.template_version
                &&& v.source_snapshot_json == d.source_snapshot_json
                &&& v.currency == d.currency
                &&& v.created_at == d.created_at
                &&& k < before.invoices.len() ==> v.pdf_path_preview
                    == before.invoices[k].pdf_path_preview && v.total_cents
                    == before.invoices[k].total_cents
                &&& k == before.invoices.len() ==> v.pdf_path_preview is None && v.total_cents
                    is None && v.pdf_path_final is None && v.confirmed_at is None
                    && v.confirmed_by is None && v.rejected_reason is None
            } else {
                k < before.invoices.len() && v == before.invoices[k]
            }
        }),
        table::known::<Invoice>(after.invoices, r->Ok_0),
        after.customers == before.customers && after.actions == before.actions && after.rates
            == before.rates && after.ports == before.ports && after.sequences == before.sequences,
{
    let p = for_period(d.customer_id, d.period_year, d.period_month);
    table::lemma_find_row(before.invoices, p);
    match table::find_row(before.invoices, p) {
        Some(i) => {
            assert(p(before.invoices[i]));
            assert(after.invoices[i].id == r->Ok_0);
            if k < i {
                assert(before.invoices[k].id < before.invoices[i].id);
            } else if i < k {
                assert(before.invoices[i].id < before.invoices[k].id);
            }
        },
        None => {
            table::lemma_push::<Invoice>(before.invoices, after.invoices.last());
            assert(after.invoices[before.invoices.len() as int].id == r->Ok_0);
            if k < before.invoices.len() {
                assert(Invoice::row_id(before.invoices[k]) < r->Ok_0);
            }
        },
    }
}

/// A preview carries its amount and its PDF, a rejected invoice the reason, a failed one neither
/// more nor less than before; a final invoice is changed by none of this. Only the one row changes.
pub proof fn law_one_row_changes(
    before: StoreView,
    after: StoreView,
    r: Result<()>,
    what: Seq<char>,
    i: int,
    total: i64,
    path: Seq<char>,
    reason: Seq<char>,
)
    requires
        before.wf(),
        0 <= i < before.invoices.len(),
    ensures
        ({
            let v = before.invoices[i];
            let final_one = v.status == InvoiceStatus::Final;
            &&& changed(before, after, r, v.id, what, to_preview(total, path)) ==> (r is Ok
                <==> !final_one) && after.invoices == (if final_one {
                before.invoices
            } else {
                before.invoices.update(
                    i,
                    InvoiceView {
                        status: InvoiceStatus::Preview,
                        total_cents: Some(total),
                        pdf_path_preview: Some(path),
                        ..v
                    },
                )
            })
            &&& changed(before, after, r, v.id, what, to_rejected(reason)) ==> (r is Ok
                <==> !final_one) && after.invoices == (if final_one {
                before.invoices
            } else {
                before.invoices.update(
                    i,
                    InvoiceView {
                        status: InvoiceStatus::Rejected,
                        rejected_reason: Some(reason),
                        ..v
                    },
                )
            })
            &&& changed(before, after, r, v.id, what, to_failed()) ==> (r is Ok <==> !final_one)
                && after.invoices == (if final_one {
                before.invoices
            } else {
                before.invoices.update(i, InvoiceView { status: InvoiceStatus::Failed, ..v })
            })
        }),
{
    lemma_place(before, i);
}

proof fn lemma_place(s: StoreView, i: int)
    requires
        s.wf(),
        0 <= i < s.invoices.len(),
    ensures
        place_of(s, s.invoices[i].id) == Some(i),
        store::final_ok(s.invoices[i].status, s.invoices[i].pdf_path_final),
{
    let id = s.invoices[i].id;
    table::lemma_numbered::<Invoice>(s.invoices, id);
    assert(Invoice::row_id(s.invoices[i]) == id);
    let k = place_of(s, id)->0;
    if k < i {
        assert(s.invoices[k].id < s.invoices[i].id);
    } else if i < k {
        assert(s.invoices[i].id < s.invoices[k].id);
    }
}

/// Confirming makes a preview final, with the path of the PDF, who confirmed it and when. Anything
/// but a preview is not confirmed, and nobody but a user confirms.
pub proof fn law_confirming(
    before: StoreView,
    after: StoreView,
    r: Result<()>,
    i: int,
    path: Seq<char>,
    actor: i64,
    now: Seq<char>,
)
    requires
        before.wf(),
        0 <= i < before.invoices.len(),
        confirming(before, after, r, before.invoices[i].id, path, actor, now),
    ensures
        r is Ok <==> before.invoices[i].status == InvoiceStatus::Preview && exists|k: int|
            0 <= k < before.users.len() && (#[trigger] before.users[k]).id == actor,
        r is Ok ==> after.invoices == before.invoices.update(
            i,
            InvoiceView {
                status: InvoiceStatus::Final,
                pdf_path_final: Some(path),
                confirmed_at: Some(now),
                confirmed_by: Some(actor),
                ..before.invoices[i]
            },
        ),
        r is Err ==> after == before,
{
    lemma_place(before, i);
    if exists|k: int| 0 <= k < before.users.len() && (#[trigger] before.users[k]).id == actor {
        let k = choose|k: int|
            0 <= k < before.users.len() && (#[trigger] before.users[k]).id == actor;
        assert(User::row_id(before.users[k]) == actor);
    }
    if table::known::<User>(before.users, actor) {
        let k = choose|k: int|
            0 <= k < before.users.len() && User::row_id(#[trigger] before.users[k]) == actor;
        assert(before.users[k].id == actor);
    }
}

/// Only what can be done to an invoice is recorded, of an invoice that is there, by a user or by
/// nobody, and a rejection or a failure only with a reason that says something.
pub proof fn law_action_refused(
    s: StoreView,
    invoice: i64,
    action: Seq<char>,
    actor: Option<i64>,
    reason: Option<Seq<char>>,
)
    requires
        table::next_id(table::ids::<ActionRow>(s.actions)) is Some,
    ensures
        action_fault(s, invoice, action, actor, reason) is None <==> {
            &&& action == "running"@ || action == "preview_generated"@ || action
                == "preview_regenerated"@ || action == "confirmed"@ || action == "rejected"@
                || action == "failed"@
            &&& action == "rejected"@ || action == "failed"@ ==> (reason matches Some(t)
                && text::trimmed(t).len() > 0)
            &&& exists|k: int| 0 <= k < s.invoices.len() && (#[trigger] s.invoices[k]).id == invoice
            &&& actor matches Some(u) ==> exists|k: int|
                0 <= k < s.users.len() && (#[trigger] s.users[k]).id == u
        },
{
    assert(table::known::<Invoice>(s.invoices, invoice) <==> exists|k: int|
        0 <= k < s.invoices.len() && (#[trigger] s.invoices[k]).id == invoice) by {
        if table::known::<Invoice>(s.invoices, invoice) {
            let k = choose|k: int|
                0 <= k < s.invoices.len() && Invoice::row_id(#[trigger] s.invoices[k]) == invoice;
            assert(s.invoices[k].id == invoice);
        }
        if exists|k: int| 0 <= k < s.invoices.len() && (#[trigger] s.invoices[k]).id == invoice {
            let k = choose|k: int|
                0 <= k < s.invoices.len() && (#[trigger] s.invoices[k]).id == invoice;
            assert(Invoice::row_id(s.invoices[k]) == invoice);
        }
    }
    if let Some(u) = actor {
        if table::known::<User>(s.users, u) {
            let k = choose|k: int|
                0 <= k < s.users.len() && User::row_id(#[trigger] s.users[k]) == u;
            assert(s.users[k].id == u);
        }
        if exists|k: int| 0 <= k < s.users.len() && (#[trigger] s.users[k]).id == u {
            let k = choose|k: int| 0 <= k < s.users.len() && (#[trigger] s.users[k]).id == u;
            assert(User::row_id(s.users[k]) == u);
        }
    }
}

/// An action is recorded behind the others, with the invoice, what was done, by whom, why and when;
/// nothing else changes.
pub proof fn law_action_on_record(
    s: StoreView,
    invoice: i64,
    action: Seq<char>,
    actor: Option<i64>,
    reason: Option<Seq<char>>,
    at: Seq<char>,
)
    ensures
        ({
            let t = with_action(s, invoice, action, actor, reason, at);
            let a = t.actions.last();
            &&& t.actions == s.actions.push(a)
            &&& a.invoice_id == invoice && a.action == action && a.actor_user_id == actor && a.reason
                == reason && a.at == at
            &&& t.invoices == s.invoices && t.customers == s.customers && t.users == s.users
                && t.sequences == s.sequences && t.settings == s.settings
        }),
{
}

/// The invoices of a customer are all of them and no other, the latest month in front.
pub proof fn law_invoices_listed(list: Seq<InvoiceView>, s: StoreView, customer: i64, v: InvoiceView)
    requires
        table::same_rows(list, s.invoices.filter(customers::invoice_of(customer))),
        table::ordered(list, latest_first()),
    ensures
        list.contains(v) <==> s.invoices.contains(v) && v.customer_id == customer,
        forall|i: int, j: int|
            #![trigger list[i], list[j]]
            0 <= i < j < list.len() ==> 12 * list[i].period_year + list[i].period_month >= 12
                * list[j].period_year + list[j].period_month || list[i].period_month > 12
                || list[j].period_month > 12 || list[i].period_month < 1 || list[j].period_month < 1,
{
    table::law_selected_rows(list, s.invoices, customers::invoice_of(customer));
    assert forall|i: int, j: int|
        #![trigger list[i], list[j]]
        0 <= i < j < list.len() implies 12 * list[i].period_year + list[i].period_month >= 12
        * list[j].period_year + list[j].period_month || list[i].period_month > 12
        || list[j].period_month > 12 || list[i].period_month < 1 || list[j].period_month < 1 by {
        assert(latest_first()(list[i], list[j]));
    }
}

/// An invoice that is started again keeps all that is not given anew: its number, its customer and
/// month, its amount, its PDFs, who confirmed it and why it was rejected.
pub proof fn law_started_again_keeps(
    before: StoreView,
    after: StoreView,
    r: Result<i64>,
    d: Draft,
    i: int,
)
    requires
        before.wf(),
        generating(before, after, r, d),
        r is Ok,
        0 <= i < before.invoices.len(),
        before.invoices[i].customer_id == d.customer_id,
        before.invoices[i].period_year == d.period_year,
        before.invoices[i].period_month == d.period_month,
    ensures
        r == Result::<i64>::Ok(before.invoices[i].id),
        after.invoices.len() == before.invoices.len(),
        ({
            let v = before.invoices[i];
            let w = after.invoices[i];
            &&& w.id == v.id && w.customer_id == v.customer_id && w.period_year == v.period_year
                && w.period_month == v.period_month
            &&& w.total_cents == v.total_cents
            &&& w.pdf_path_preview == v.pdf_path_preview && w.pdf_path_final == v.pdf_path_final
            &&& w.confirmed_at == v.confirmed_at && w.confirmed_by == v.confirmed_by
            &&& w.rejected_reason == v.rejected_reason
        }),
{
    let p = for_period(d.customer_id, d.period_year, d.period_month);
    table::lemma_find_row(before.invoices, p);
    assert(p(before.invoices[i]));
    let k = table::find_row(before.invoices, p)->0;
    assert(p(before.invoices[k]));
    if k < i {
        assert(!store::same_period(before.invoices[k], before.invoices[i]));
    } else if i < k {
        assert(!store::same_period(before.invoices[i], before.invoices[k]));
    }
}

/// Why an invoice is not started, in the order in which that is found out.
pub proof fn law_why_not_started(
    before: StoreView,
    after: StoreView,
    r: Result<i64>,
    d: Draft,
    i: int,
)
    requires
        before.wf(),
        generating(before, after, r, d),
    ensures
        !(1 <= d.period_month <= 12) ==> (r matches Err(e) && e@ == store::refused(
            "upsert invoice generating"@,
            store::check("period_month BETWEEN 1 AND 12"@),
        )),
        0 <= i < before.invoices.len() && before.invoices[i].customer_id == d.customer_id
            && before.invoices[i].period_year == d.period_year && before.invoices[i].period_month
            == d.period_month && before.invoices[i].status == InvoiceStatus::Final ==> (r matches Err(
            e,
        ) && e@ == store::refused(
            "upsert invoice generating"@,
            store::check("(status='final') = (pdf_path_final IS NOT NULL)"@),
        )),
{
    let p = for_period(d.customer_id, d.period_year, d.period_month);
    table::lemma_find_row(before.invoices, p);
    if 0 <= i < before.invoices.len() && before.invoices[i].customer_id == d.customer_id
        && before.invoices[i].period_year == d.period_year && before.invoices[i].period_month
        == d.period_month {
        assert(p(before.invoices[i]));
        let k = table::find_row(before.invoices, p)->0;
        assert(p(before.invoices[k]));
        if k < i {
            assert(!store::same_period(before.invoices[k], before.invoices[i]));
        } else if i < k {
            assert(!store::same_period(before.invoices[i], before.invoices[k]));
        }
        assert(store::final_ok(before.invoices[i].status, before.invoices[i].pdf_path_final));
    }
}

/// A change to a number that no invoice has changes nothing, and a final invoice is refused with the
/// condition that it would break.
pub proof fn law_change_refused(
    s: StoreView,
    i: int,
    id: i64,
    what: Seq<char>,
    total: i64,
    path: Seq<char>,
)
    requires
        s.wf(),
        0 <= i < s.invoices.len(),
        forall|k: int| 0 <= k < s.invoices.len() ==> (#[trigger] s.invoices[k]).id != id,
    ensures
        s.invoices[i].status == InvoiceStatus::Final ==> change_fault(
            s,
            s.invoices[i].id,
            what,
            to_preview(total, path),
        ) == Some(
            ErrorView::Database(
                what + ": "@
                    + "error returned from database: (code: 275) CHECK constraint failed: "@
                    + "(status='final') = (pdf_path_final IS NOT NULL)"@,
            ),
        ),
        after_change(s, id, to_preview(total, path)) == s,
        after_change(s, id, to_failed()) == s,
        not_in_preview(s, id) is Some,
        not_in_preview(s, s.invoices[i].id) is None <==> s.invoices[i].status
            == InvoiceStatus::Preview,
{
    lemma_place(s, i);
    table::lemma_numbered::<Invoice>(s.invoices, id);
    if let Some(k) = place_of(s, id) {
        assert(s.invoices[k].id == id);
    }
    let m = "error returned from database: (code: 275) CHECK constraint failed: "@;
    let c = "(status='final') = (pdf_path_final IS NOT NULL)"@;
    assert(what + ": "@ + (m + c) =~= what + ": "@ + m + c);
}

/// Why an action is not recorded.
pub proof fn law_why_not_recorded(
    s: StoreView,
    invoice: i64,
    action: Seq<char>,
    actor: Option<i64>,
    reason: Option<Seq<char>>,
)
    ensures
        action != "running"@ && action != "preview_generated"@ && action != "preview_regenerated"@
            && action != "confirmed"@ && action != "rejected"@ && action != "failed"@ ==> action_fault(
            s,
            invoice,
            action,
            actor,
            reason,
        ) == Some(store::check("action is a known one"@)),
        (action == "rejected"@ || action == "failed"@) && reason is None ==> action_fault(
            s,
            invoice,
            action,
            actor,
            reason,
        ) == Some(store::check("reason is given for rejected and failed"@)),
{
}

} // verus!
