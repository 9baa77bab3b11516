//! The life of an invoice: generated, previewed, confirmed or rejected.
//!
//! What touches files happens between the steps: a step says what to do, and takes what came of it.
use crate::billing::schedule;
use crate::chart;
use crate::error;
use crate::error::{Error, ErrorView, Result};
use crate::recall;
use crate::recall::SnapshotView;
use crate::render::fill;
use crate::render::fill::{InvoiceData, PortLine, PortLineView};
use crate::render::pdf;
use crate::store;
use crate::store::invoices;
use crate::store::invoices::Draft;
use crate::store::rows;
use crate::store::rows::{
    ActionRow, Customer, CustomerView, Invoice, InvoiceStatus, InvoiceView, User,
};
use crate::store::table;
use crate::store::table::Row;
use crate::store::{Store, StoreView};
use crate::template::digest;
use crate::template::filled;
use crate::template::inspect::RawSheet;
use crate::text;
use vstd::prelude::*;

verus! {

/// Who generates invoices, and where.
pub struct InvoiceService {
    pub store: Store,
    pub template_root: String,
    pub output_root: String,
    pub soffice_profile: String,
}

// ---------------------------------------------------------------------------
// Paths
// ---------------------------------------------------------------------------

/// A path below a directory. A path that starts at the root stays as it is.
pub open spec fn joined_path(dir: Seq<char>, path: Seq<char>) -> Seq<char> {
    if path.len() > 0 && path[0] == '/' {
        path
    } else if dir.len() == 0 || dir.last() == '/' {
        dir + path
    } else {
        dir + "/"@ + path
    }
}

/// A path below a directory.
pub fn join_path(dir: &str, path: &str) -> (r: String)
    ensures
        r@ == joined_path(dir@, path@),
{
    let d = text::chars_of(dir);
    let p = text::chars_of(path);
    if p.len() > 0 && p[0] == '/' {
        path.to_owned()
    } else if d.len() == 0 || d[d.len() - 1] == '/' {
        text::cat2(dir, path)
    } else {
        text::cat3(dir, "/", path)
    }
}

/// The directory of a month below that of the output.
pub open spec fn month_dir_of(root: Seq<char>, year: i64, month: i64) -> Seq<char> {
    joined_path(
        joined_path(root, text::dec_padded(year as int, 4)),
        text::dec_padded(month as int, 2),
    )
}

/// Where the preview for a customer and month is: year, month and customer make the path.
pub open spec fn preview_path_of(root: Seq<char>, customer_id: i64, year: i64, month: i64) -> Seq<
    char,
> {
    joined_path(
        joined_path(month_dir_of(root, year, month), "preview"@),
        text::dec_int(customer_id as int) + ".pdf"@,
    )
}

fn month_dir(root: &str, year: i64, month: i64) -> (r: String)
    ensures
        r@ == month_dir_of(root@, year, month),
{
    let y = text::string_of(&text::padded(year, 4));
    let m = text::string_of(&text::padded(month, 2));
    join_path(&join_path(root, &y), &m)
}

// ---------------------------------------------------------------------------
// The record of what an invoice was made from
// ---------------------------------------------------------------------------

/// How a character is written inside a JSON string.
pub open spec fn escaped(c: char) -> Seq<char> {
    let n = c as u32;
    if c == '"' {
        seq!['\\', '"']
    } else if c == '\\' {
        seq!['\\', '\\']
    } else if n == 8 {
        seq!['\\', 'b']
    } else if n == 9 {
        seq!['\\', 't']
    } else if n == 10 {
        seq!['\\', 'n']
    } else if n == 12 {
        seq!['\\', 'f']
    } else if n == 13 {
        seq!['\\', 'r']
    } else if n < 32 {
        seq![
            '\\',
            'u',
            '0',
            '0',
            digest::hex_digit(n as int / 16),
            digest::hex_digit(n as int % 16),
        ]
    } else {
        seq![c]
    }
}

/// The characters of a text as they are written inside a JSON string.
pub open spec fn all_escaped(s: Seq<char>) -> Seq<char>
    decreases s.len(),
{
    if s.len() == 0 {
        Seq::empty()
    } else {
        all_escaped(s.drop_last()) + escaped(s.last())
    }
}

/// A text as a JSON string.
pub open spec fn quoted(s: Seq<char>) -> Seq<char> {
    seq!['"'] + all_escaped(s) + seq!['"']
}

/// `serde_json::to_string` of a text: a JSON string, with quotation marks, backslashes and control
/// characters escaped.
#[verifier::external_body]
fn quote(s: &str) -> (r: String)
    ensures
        r@ == quoted(s@),
{
    serde_json::to_string(s).unwrap_or_default()
}

/// A truth value as JSON.
pub open spec fn flag_text(b: bool) -> Seq<char> {
    if b {
        "true"@
    } else {
        "false"@
    }
}

/// A number that may be missing as JSON.
pub open spec fn number_text(n: Option<i64>) -> Seq<char> {
    match n {
        Some(n) => text::dec_int(n as int),
        None => "null"@,
    }
}

/// A port line as JSON, its members in the order of their names.
pub open spec fn port_text(p: PortLineView) -> Seq<char> {
    "{\"label\":"@ + quoted(p.label) + ",\"machine_hosting\":"@ + flag_text(p.machine_hosting)
        + ",\"machine_rent\":"@ + flag_text(p.machine_rent) + ",\"mbps_95th\":"@ + number_text(
        p.mbps_95th,
    ) + "}"@
}

/// Port lines as JSON, a comma between them.
pub open spec fn ports_text(ports: Seq<PortLineView>) -> Seq<char>
    decreases ports.len(),
{
    if ports.len() == 0 {
        Seq::empty()
    } else if ports.len() == 1 {
        port_text(ports[0])
    } else {
        ports_text(ports.drop_last()) + ","@ + port_text(ports.last())
    }
}

/// What an invoice was made from, as JSON, its members in the order of their names.
pub open spec fn snapshot_text(
    customer_id: i64,
    key: Seq<char>,
    ports: Seq<PortLineView>,
    total_cents: i64,
    year: i64,
    month: i64,
) -> Seq<char> {
    "{\"customer\":"@ + quoted(key) + ",\"customer_id\":"@ + text::dec_int(customer_id as int)
        + ",\"month\":"@ + text::dec_int(month as int) + ",\"ports\":["@ + ports_text(ports)
        + "],\"total_cents\":"@ + text::dec_int(total_cents as int) + ",\"year\":"@ + text::dec_int(
        year as int,
    ) + "}"@
}

fn flag(b: bool) -> (r: &'static str)
    ensures
        r@ == flag_text(b),
{
    if b {
        "true"
    } else {
        "false"
    }
}

fn whole(n: i64) -> (r: String)
    ensures
        r@ == text::dec_int(n as int),
{
    text::string_of(&text::number(n))
}

fn port_json(p: &PortLine) -> (r: String)
    ensures
        r@ == port_text(p@),
{
    let label = quote(&p.label);
    let mbps = match p.mbps_95th {
        Some(n) => whole(n),
        None => "null".to_owned(),
    };
    let a = text::cat4("{\"label\":", &label, ",\"machine_hosting\":", flag(p.machine_hosting));
    let b = text::cat4(&a, ",\"machine_rent\":", flag(p.machine_rent), ",\"mbps_95th\":");
    text::cat3(&b, &mbps, "}")
}

fn ports_json(ports: &Vec<PortLine>) -> (r: String)
    ensures
        r@ == ports_text(fill::line_views(ports@)),
{
    let ghost v = fill::line_views(ports@);
    let mut out = String::new();
    let mut i: usize = 0;
    assert(out@ =~= ports_text(v.take(0)));
    while i < ports.len()
        invariant
            i <= ports@.len(),
            v == fill::line_views(ports@),
            out@ == ports_text(v.take(i as int)),
        decreases ports@.len() - i,
    {
        let p = port_json(&ports[i]);
        assert(v.take(i + 1).last() == ports@[i as int]@);
        assert(v.take(i + 1).drop_last() =~= v.take(i as int));
        if i == 0 {
            out = p;
        } else {
            out = text::cat3(&out, ",", &p);
        }
        i = i + 1;
    }
    assert(v.take(i as int) =~= v);
    out
}

/// What an invoice was made from, as JSON.
pub fn snapshot(
    customer_id: i64,
    key: &str,
    ports: &Vec<PortLine>,
    total_cents: i64,
    year: i64,
    month: i64,
) -> (r: String)
    ensures
        r@ == snapshot_text(
            customer_id,
            key@,
            fill::line_views(ports@),
            total_cents,
            year,
            month,
        ),
{
    let name = quote(key);
    let id = whole(customer_id);
    let m = whole(month);
    let lines = ports_json(ports);
    let total = whole(total_cents);
    let y = whole(year);
    let a = text::cat4("{\"customer\":", &name, ",\"customer_id\":", &id);
    let b = text::cat4(&a, ",\"month\":", &m, ",\"ports\":[");
    let c = text::cat4(&b, &lines, "],\"total_cents\":", &total);
    text::cat4(&c, ",\"year\":", &y, "}")
}

// ---------------------------------------------------------------------------
// Steps
// ---------------------------------------------------------------------------

/// An invoice whose generation has started: its number, what goes into the template, and where
/// the PDF belongs.
pub struct Started {
    pub invoice_id: i64,
    pub preview_path: String,
    pub data: InvoiceData,
}

/// The number of an invoice whose generation has started.
pub open spec fn started_id(r: Result<Started>) -> Result<i64> {
    match r {
        Ok(s) => Ok(s.invoice_id),
        Err(e) => Err(e),
    }
}

/// What the invoice of a customer is about.
pub open spec fn draft_for(
    c: CustomerView,
    year: i64,
    month: i64,
    invoice_no: Seq<char>,
    template_name: Seq<char>,
    ports: Seq<PortLineView>,
    total_cents: i64,
    now: Seq<char>,
) -> Draft {
    Draft {
        customer_id: c.id,
        period_year: year,
        period_month: month,
        invoice_no,
        template_version: "file:"@ + template_name,
        source_snapshot_json: snapshot_text(
            c.id,
            c.internal_key,
            ports,
            total_cents,
            year,
            month,
        ),
        currency: c.currency,
        created_at: now,
    }
}

/// Whether `d` is what goes into the template.
pub open spec fn data_for(
    d: InvoiceData,
    c: CustomerView,
    year: i64,
    month: i64,
    invoice_no: Seq<char>,
    ports: Seq<PortLineView>,
    total_cents: i64,
) -> bool {
    &&& d.invoice_no@ == invoice_no
    &&& d.customer_name@ == c.name
    &&& d.period_label@ == schedule::month_text(year as int, month as int)
    &&& fill::line_views(d.ports@) == ports
    &&& d.total_cents == total_cents
    &&& d.currency@ == c.currency
}

/// Where the preview of an invoice is; nothing where there is no such invoice.
pub open spec fn preview_of(s: StoreView, root: Seq<char>, id: i64) -> Seq<char> {
    match invoices::place_of(s, id) {
        Some(i) => preview_path_of(
            root,
            s.invoices[i].customer_id,
            s.invoices[i].period_year,
            s.invoices[i].period_month,
        ),
        None => Seq::empty(),
    }
}

/// What finishing a preview does where the PDF was made.
pub open spec fn preview_done(
    before: StoreView,
    after: StoreView,
    r: Result<i64>,
    id: i64,
    total: i64,
    path: Seq<char>,
    now: Seq<char>,
) -> bool {
    match invoices::change_fault(
        before,
        id,
        "update invoice preview"@,
        invoices::to_preview(total, path),
    ) {
        Some(m) => (r matches Err(e) && e@ == m) && after == before,
        None => recorded(
            invoices::after_change(before, id, invoices::to_preview(total, path)),
            after,
            id,
            "preview_generated"@,
            None,
            None,
            now,
            match r {
                Ok(n) => None,
                Err(e) => Some(e@),
            },
        ) && (r matches Ok(n) ==> n == id),
    }
}

/// What recording an action does; `fault` is what went wrong, where something did.
pub open spec fn recorded(
    before: StoreView,
    after: StoreView,
    id: i64,
    action: Seq<char>,
    actor: Option<i64>,
    reason: Option<Seq<char>>,
    now: Seq<char>,
    fault: Option<ErrorView>,
) -> bool {
    match invoices::action_fault(before, id, action, actor, reason) {
        Some(m) => fault == Some(store::refused("record action"@, m)) && after == before,
        None => fault is None && after == invoices::with_action(
            before,
            id,
            action,
            actor,
            reason,
            now,
        ),
    }
}

/// The store after a failure has been noted as far as possible.
pub open spec fn failure_noted(s: StoreView, id: i64, why: Seq<char>, now: Seq<char>) -> StoreView {
    let mid = if invoices::change_fault(
        s,
        id,
        "update invoice failed"@,
        invoices::to_failed(),
    ) is None {
        invoices::after_change(s, id, invoices::to_failed())
    } else {
        s
    };
    if invoices::action_fault(mid, id, "failed"@, None, Some(why)) is None {
        invoices::with_action(mid, id, "failed"@, None, Some(why), now)
    } else {
        mid
    }
}

/// The error for a thing that is not there.
pub open spec fn missing(what: Seq<char>, id: i64) -> ErrorView {
    ErrorView::NotFound(what + text::dec_int(id as int))
}

fn missing_error(what: &str, id: i64) -> (r: Error)
    ensures
        r@ == missing(what@, id),
{
    let n = text::string_of(&text::number(id));
    Error::NotFound(text::cat2(what, &n))
}

/// Why an invoice cannot be confirmed or rejected: it is not there, or not a preview.
pub open spec fn settle_fault(s: StoreView, id: i64, what: Seq<char>) -> Option<ErrorView> {
    match invoices::place_of(s, id) {
        None => Some(missing("invoice "@, id)),
        Some(i) => if s.invoices[i].status != InvoiceStatus::Preview {
            Some(
                ErrorView::InvalidTransition(
                    what + " from "@ + rows::status_word(s.invoices[i].status)
                        + " not allowed"@,
                ),
            )
        } else {
            None
        },
    }
}

fn not_allowed(what: &str, from: &InvoiceStatus) -> (r: Error)
    ensures
        r@ == ErrorView::InvalidTransition(
            what@ + " from "@ + rows::status_word(*from) + " not allowed"@,
        ),
{
    Error::InvalidTransition(text::cat4(what, " from ", from.as_str(), " not allowed"))
}

/// Which PDF is to be moved where.
pub struct ConfirmPlan {
    /// The PDF of the preview.
    pub preview: String,
    /// Where the final PDF goes; nothing where the preview has no file name.
    pub target: Option<String>,
}

/// Where the final PDF of a month goes: the name stays.
pub open spec fn final_target(root: Seq<char>, year: i64, month: i64, preview: Seq<char>) -> Option<
    Seq<char>,
> {
    match pdf::pdf_name_of(preview) {
        Some(n) => Some(joined_path(joined_path(month_dir_of(root, year, month), "final"@), n)),
        None => None,
    }
}

/// Why an invoice cannot be confirmed, where it cannot.
pub open spec fn confirm_fault(s: StoreView, id: i64) -> Option<ErrorView> {
    match settle_fault(s, id, "confirm"@) {
        Some(e) => Some(e),
        None => if s.invoices[invoices::place_of(s, id)->0].pdf_path_preview is None {
            Some(ErrorView::InvalidTransition("preview PDF missing"@))
        } else {
            None
        },
    }
}

/// Why a PDF cannot be moved, given whether the preview and the target exist: the preview must be
/// there, have a name, and what is final is never overwritten.
pub open spec fn move_fault(
    preview: Seq<char>,
    target: Option<Seq<char>>,
    preview_exists: bool,
    target_exists: bool,
) -> Option<ErrorView> {
    if !preview_exists {
        Some(ErrorView::NotFound("preview pdf "@ + preview))
    } else {
        match target {
            None => Some(ErrorView::Internal("bad preview filename"@)),
            Some(t) => if target_exists {
                Some(ErrorView::AlreadyExists("final pdf "@ + t))
            } else {
                None
            },
        }
    }
}

impl ConfirmPlan {
    /// Where the PDF is to be moved, given whether the preview and the target exist.
    pub fn approve(&self, preview_exists: bool, target_exists: bool) -> (r: Result<String>)
        ensures
            match move_fault(
                self.preview@,
                text::optional(self.target),
                preview_exists,
                target_exists,
            ) {
                Some(m) => r matches Err(e) && e@ == m,
                None => r matches Ok(t) && Some(t@) == text::optional(self.target),
            },
    {
        if !preview_exists {
            return Err(Error::NotFound(text::cat2("preview pdf ", &self.preview)));
        }
        match &self.target {
            None => Err(Error::Internal("bad preview filename".to_owned())),
            Some(t) => if target_exists {
                Err(Error::AlreadyExists(text::cat2("final pdf ", t)))
            } else {
                Ok(t.clone())
            },
        }
    }
}

/// An invoice that is to be generated again.
pub struct Again {
    pub customer_id: i64,
    pub year: i64,
    pub month: i64,
    pub invoice_no: String,
    pub template_name: String,
    pub ports: Vec<PortLine>,
    pub total_cents: i64,
    /// What the chart shows, in megabits per second; nothing where there is no chart.
    pub chart: Option<i64>,
}

/// Whether `ports` are those that an invoice was made from: what the record says, and none where
/// `json` is not a record.
pub open spec fn ports_recorded(json: Seq<char>, ports: Seq<PortLineView>) -> bool {
    &&& forall|
        customer_id: i64,
        key: Seq<char>,
        listed: Seq<PortLineView>,
        total_cents: i64,
        year: i64,
        month: i64,
    |
        json == #[trigger] snapshot_text(customer_id, key, listed, total_cents, year, month)
            ==> ports == listed
    &&& (forall|
        customer_id: i64,
        key: Seq<char>,
        listed: Seq<PortLineView>,
        total_cents: i64,
        year: i64,
        month: i64,
    |
        json != #[trigger] snapshot_text(customer_id, key, listed, total_cents, year, month))
        ==> ports.len() == 0
}

fn recorded_ports(json: &str) -> (r: Vec<PortLine>)
    ensures
        ports_recorded(json@, fill::line_views(r@)),
{
    let read = recall::read_snapshot(json);
    proof {
        assert forall|
            customer_id: i64,
            key: Seq<char>,
            listed: Seq<PortLineView>,
            total_cents: i64,
            year: i64,
            month: i64,
        |
            json@ == #[trigger] snapshot_text(
                customer_id,
                key,
                listed,
                total_cents,
                year,
                month,
            ) implies read matches Some(v) && v@.ports == listed by {
            let a = SnapshotView { customer_id, key, ports: listed, total_cents, year, month };
            assert(json@ == a.written());
            if let Some(v) = read {
                recall::law_snapshot_reads_back(a, v@);
            }
        }
    }
    match read {
        Some(v) => {
            assert(json@ == snapshot_text(
                v@.customer_id,
                v@.key,
                v@.ports,
                v@.total_cents,
                v@.year,
                v@.month,
            ));
            v.ports
        },
        None => Vec::new(),
    }
}

/// The template that a version was made with.
pub open spec fn template_of(version: Seq<char>) -> Seq<char> {
    if text::has_prefix(version, "file:"@) {
        version.skip("file:"@.len() as int)
    } else {
        "模板.xlsx"@
    }
}

/// Whether an invoice in this state can be generated again.
pub open spec fn can_regenerate(s: InvoiceStatus) -> bool {
    s == InvoiceStatus::Preview || s == InvoiceStatus::Rejected || s == InvoiceStatus::Failed
}

/// Why an invoice cannot be generated again, where it cannot.
pub open spec fn regenerate_fault(s: StoreView, id: i64) -> Option<ErrorView> {
    match invoices::place_of(s, id) {
        None => Some(missing("invoice "@, id)),
        Some(i) => if !can_regenerate(s.invoices[i].status) {
            Some(
                ErrorView::InvalidTransition(
                    "regenerate"@ + " from "@ + rows::status_word(s.invoices[i].status)
                        + " not allowed"@,
                ),
            )
        } else {
            None
        },
    }
}

/// Whether `a` is the invoice to be generated again.
pub open spec fn again_for(a: Again, v: InvoiceView) -> bool {
    &&& a.customer_id == v.customer_id
    &&& a.year == v.period_year
    &&& a.month == v.period_month
    &&& a.invoice_no@ == v.invoice_no
    &&& a.template_name@ == template_of(v.template_version)
    &&& ports_recorded(v.source_snapshot_json, fill::line_views(a.ports@))
    &&& chart::is_load(fill::line_views(a.ports@), a.chart)
    &&& a.total_cents == (match v.total_cents {
        Some(n) => n,
        None => 0i64,
    })
}

fn copy_lines(ports: &Vec<PortLine>) -> (r: Vec<PortLine>)
    ensures
        fill::line_views(r@) == fill::line_views(ports@),
{
    let mut out: Vec<PortLine> = Vec::new();
    let mut i: usize = 0;
    assert(fill::line_views(out@) =~= fill::line_views(ports@).take(0));
    while i < ports.len()
        invariant
            i <= ports@.len(),
            fill::line_views(out@) == fill::line_views(ports@).take(i as int),
        decreases ports@.len() - i,
    {
        let p = &ports[i];
        let line = PortLine {
            label: p.label.clone(),
            mbps_95th: p.mbps_95th,
            machine_rent: p.machine_rent,
            machine_hosting: p.machine_hosting,
        };
        let ghost held = fill::line_views(out@);
        out.push(line);
        assert(fill::line_views(out@) =~= held.push(line@));
        assert(fill::line_views(ports@).take(i + 1) =~= fill::line_views(ports@).take(
            i as int,
        ).push(p@));
        i = i + 1;
    }
    assert(fill::line_views(ports@).take(i as int) =~= fill::line_views(ports@));
    out
}

impl InvoiceService {
    /// A service over a store and three directories.
    pub fn new(store: Store, template_root: String, output_root: String, soffice_profile: String) -> (r:
        InvoiceService)
        ensures
            r.store@ == store@,
            r.template_root@ == template_root@,
            r.output_root@ == output_root@,
            r.soffice_profile@ == soffice_profile@,
    {
        InvoiceService { store, template_root, output_root, soffice_profile }
    }

    /// The store.
    pub fn store(&self) -> (r: &Store)
        ensures
            r@ == self.store@,
    {
        &self.store
    }

    /// The directory of the templates.
    pub fn template_root(&self) -> (r: &str)
        ensures
            r@ == self.template_root@,
    {
        self.template_root.as_str()
    }

    /// Where a template is.
    pub fn template_path(&self, template_name: &str) -> (r: String)
        ensures
            r@ == joined_path(self.template_root@, template_name@),
    {
        join_path(&self.template_root, template_name)
    }

    /// Where an invoice is worked on.
    pub fn work_dir(&self, invoice_no: &str) -> (r: String)
        ensures
            r@ == joined_path(joined_path(self.output_root@, "work"@), invoice_no@),
    {
        join_path(&join_path(&self.output_root, "work"), invoice_no)
    }

    /// Where the preview for a customer and month is.
    pub fn preview_path(&self, customer_id: i64, year: i64, month: i64) -> (r: String)
        ensures
            r@ == preview_path_of(self.output_root@, customer_id, year, month),
    {
        let n = whole(customer_id);
        let dir = join_path(&month_dir(&self.output_root, year, month), "preview");
        join_path(&dir, &text::cat2(&n, ".pdf"))
    }

    /// Starts to generate the invoice of a customer for a month: records what it is made from, and
    /// says what goes into the template.
    pub fn generate_preview(
        &mut self,
        customer_id: i64,
        year: i64,
        month: i64,
        invoice_no: &str,
        template_name: &str,
        ports: &Vec<PortLine>,
        total_cents: i64,
        now: &str,
    ) -> (r: Result<Started>)
        ensures
            match table::find_row(old(self).store@.customers, table::numbered::<Customer>(customer_id)) {
                None => (r matches Err(e) && e@ == missing("customer "@, customer_id))
                    && final(self).store@ == old(self).store@,
                Some(i) => {
                    let c = old(self).store@.customers[i];
                    &&& invoices::generating(
                        old(self).store@,
                        final(self).store@,
                        started_id(r),
                        draft_for(
                            c,
                            year,
                            month,
                            invoice_no@,
                            template_name@,
                            fill::line_views(ports@),
                            total_cents,
                            now@,
                        ),
                    )
                    &&& r matches Ok(s) ==> data_for(
                        s.data,
                        c,
                        year,
                        month,
                        invoice_no@,
                        fill::line_views(ports@),
                        total_cents,
                    ) && s.preview_path@ == preview_path_of(
                        old(self).output_root@,
                        customer_id,
                        year,
                        month,
                    )
                },
            },
            old(self).store@.wf() ==> final(self).store@.wf(),
            final(self).output_root == old(self).output_root,
            final(self).template_root == old(self).template_root,
            final(self).soffice_profile == old(self).soffice_profile,
    {
        proof {
            table::lemma_numbered::<Customer>(self.store@.customers, customer_id);
        }
        let customer = match self.store.find_customer_by_id(customer_id) {
            Some(c) => c,
            None => return Err(missing_error("customer ", customer_id)),
        };
        let record = snapshot(
            customer_id,
            &customer.internal_key,
            ports,
            total_cents,
            year,
            month,
        );
        let version = text::cat2("file:", template_name);
        let started = self.store.upsert_invoice_generating(
            customer_id,
            year,
            month,
            invoice_no,
            &version,
            &record,
            &customer.currency,
            now,
        );
        match started {
            Ok(invoice_id) => {
                let data = InvoiceData {
                    invoice_no: invoice_no.to_owned(),
                    customer_name: customer.name,
                    period_label: schedule::month_label(year, month),
                    ports: copy_lines(ports),
                    total_cents,
                    currency: customer.currency,
                };
                let preview_path = self.preview_path(customer_id, year, month);
                Ok(Started { invoice_id, preview_path, data })
            },
            Err(e) => Err(e),
        }
    }

    /// Finishes a preview whose PDF is in its place, given what the filled sheets hold, or with what
    /// went wrong. The PDF is recorded by the path for the customer and month of the invoice. Sheets
    /// that hold what they must not are a failure, and a failure is noted as far as possible and
    /// handed on.
    pub fn finish_preview(
        &mut self,
        invoice_id: i64,
        total_cents: i64,
        rendered: Result<Vec<RawSheet>>,
        now: &str,
    ) -> (r: Result<i64>)
        ensures
            match rendered {
                Ok(sheets) => if filled::sound(sheets@) {
                    preview_done(
                        old(self).store@,
                        final(self).store@,
                        r,
                        invoice_id,
                        total_cents,
                        preview_of(old(self).store@, old(self).output_root@, invoice_id),
                        now@,
                    )
                } else {
                    r matches Err(e) && filled::first_error(sheets@, e@) && final(self).store@
                        == failure_noted(old(self).store@, invoice_id, e@.message(), now@)
                },
                Err(why) => r == Result::<i64>::Err(why) && final(self).store@ == failure_noted(
                    old(self).store@,
                    invoice_id,
                    why@.message(),
                    now@,
                ),
            },
            old(self).store@.wf() ==> final(self).store@.wf(),
            final(self).output_root == old(self).output_root,
            final(self).template_root == old(self).template_root,
            final(self).soffice_profile == old(self).soffice_profile,
    {
        let checked = match rendered {
            Ok(sheets) => filled::check_filled(&sheets),
            Err(why) => Err(why),
        };
        match checked {
            Ok(()) => {
                let path = match self.store.find_invoice(invoice_id) {
                    Some(v) => self.preview_path(v.customer_id, v.period_year, v.period_month),
                    None => String::new(),
                };
                match self.store.update_invoice_preview(invoice_id, total_cents, &path) {
                    Ok(()) => {},
                    Err(e) => return Err(e),
                }
                match self.store.record_action(invoice_id, "preview_generated", None, None, now) {
                    Ok(()) => Ok(invoice_id),
                    Err(e) => Err(e),
                }
            },
            Err(why) => {
                let noted = self.store.update_invoice_failed(invoice_id);
                let message = why.message();
                let logged = self.store.record_action(
                    invoice_id,
                    "failed",
                    None,
                    Some(message.as_str()),
                    now,
                );
                Err(why)
            },
        }
    }

    /// Which PDF is to be moved where to confirm an invoice.
    pub fn plan_confirm(&self, invoice_id: i64) -> (r: Result<ConfirmPlan>)
        ensures
            match confirm_fault(self.store@, invoice_id) {
                Some(m) => r matches Err(e) && e@ == m,
                None => r matches Ok(p) && {
                    let v = self.store@.invoices[invoices::place_of(self.store@, invoice_id)->0];
                    Some(p.preview@) == v.pdf_path_preview && text::optional(p.target)
                        == final_target(
                        self.output_root@,
                        v.period_year,
                        v.period_month,
                        p.preview@,
                    )
                },
            },
    {
        let inv = match self.store.find_invoice(invoice_id) {
            Some(v) => v,
            None => return Err(missing_error("invoice ", invoice_id)),
        };
        if inv.status != InvoiceStatus::Preview {
            return Err(not_allowed("confirm", &inv.status));
        }
        match inv.pdf_path_preview {
            None => Err(Error::InvalidTransition("preview PDF missing".to_owned())),
            Some(preview) => {
                let month = month_dir(&self.output_root, inv.period_year, inv.period_month);
                let target = match pdf::pdf_name(&preview) {
                    Some(n) => Some(join_path(&join_path(&month, "final"), &n)),
                    None => None,
                };
                Ok(ConfirmPlan { preview, target })
            },
        }
    }

    /// Confirms an invoice whose PDF has been moved to `final_path`.
    pub fn confirm(&mut self, invoice_id: i64, final_path: &str, actor_user_id: i64, now: &str) -> (r:
        Result<()>)
        ensures
            match invoices::not_in_preview(old(self).store@, invoice_id) {
                Some(m) => (r matches Err(e) && e@ == m) && final(self).store@
                    == old(self).store@,
                None => if !table::known::<User>(
                    old(self).store@.users,
                    actor_user_id,
                ) {
                    (r matches Err(e) && e@ == store::refused(
                        "update invoice final"@,
                        store::foreign(),
                    )) && final(self).store@ == old(self).store@
                } else {
                    let i = invoices::place_of(old(self).store@, invoice_id)->0;
                    recorded(
                        invoices::with_invoice_at(
                            old(self).store@,
                            i,
                            invoices::confirmed(
                                old(self).store@.invoices[i],
                                final_path@,
                                actor_user_id,
                                now@,
                            ),
                        ),
                        final(self).store@,
                        invoice_id,
                        "confirmed"@,
                        Some(actor_user_id),
                        None,
                        now@,
                        fault_of(r),
                    )
                },
            },
            old(self).store@.wf() ==> final(self).store@.wf(),
    {
        match self.store.update_invoice_confirmed(invoice_id, final_path, actor_user_id, now) {
            Ok(()) => {},
            Err(e) => return Err(e),
        }
        self.store.record_action(invoice_id, "confirmed", Some(actor_user_id), None, now)
    }

    /// Rejects an invoice that is shown as a preview, with the reason, which must say something.
    pub fn reject(&mut self, invoice_id: i64, actor_user_id: i64, reason: &str, now: &str) -> (r:
        Result<()>)
        ensures
            match settle_fault(old(self).store@, invoice_id, "reject"@) {
                Some(m) => (r matches Err(e) && e@ == m) && final(self).store@
                    == old(self).store@,
                None => if text::is_blank(reason@) {
                    (r matches Err(e) && e@ == invoices::no_reason()) && final(self).store@
                        == old(self).store@
                } else {
                    match invoices::change_fault(
                        old(self).store@,
                        invoice_id,
                        "update invoice rejected"@,
                        invoices::to_rejected(reason@),
                    ) {
                        Some(m) => (r matches Err(e) && e@ == m) && final(self).store@
                            == old(self).store@,
                        None => recorded(
                            invoices::after_change(
                                old(self).store@,
                                invoice_id,
                                invoices::to_rejected(reason@),
                            ),
                            final(self).store@,
                            invoice_id,
                            "rejected"@,
                            Some(actor_user_id),
                            Some(reason@),
                            now@,
                            fault_of(r),
                        ),
                    }
                },
            },
            old(self).store@.wf() ==> final(self).store@.wf(),
    {
        let inv = match self.store.find_invoice(invoice_id) {
            Some(v) => v,
            None => return Err(missing_error("invoice ", invoice_id)),
        };
        if inv.status != InvoiceStatus::Preview {
            return Err(not_allowed("reject", &inv.status));
        }
        match self.store.update_invoice_rejected(invoice_id, reason) {
            Ok(()) => {},
            Err(e) => return Err(e),
        }
        self.store.record_action(invoice_id, "rejected", Some(actor_user_id), Some(reason), now)
    }

    /// Starts to generate an invoice again: records that, and says what to generate, with the ports
    /// that the invoice was made from and the chart of their loads. A preview, a rejected and a
    /// failed invoice can be generated again.
    pub fn regenerate(&mut self, invoice_id: i64, now: &str) -> (r: Result<Again>)
        ensures
            match regenerate_fault(old(self).store@, invoice_id) {
                Some(m) => (r matches Err(e) && e@ == m) && final(self).store@
                    == old(self).store@,
                None => {
                    let v = old(self).store@.invoices[invoices::place_of(
                        old(self).store@,
                        invoice_id,
                    )->0];
                    &&& r matches Ok(a) ==> again_for(a, v)
                    &&& recorded(
                        old(self).store@,
                        final(self).store@,
                        invoice_id,
                        "preview_regenerated"@,
                        None,
                        None,
                        now@,
                        match r {
                            Ok(a) => None,
                            Err(e) => Some(e@),
                        },
                    )
                },
            },
            old(self).store@.wf() ==> final(self).store@.wf(),
    {
        let inv = match self.store.find_invoice(invoice_id) {
            Some(v) => v,
            None => return Err(missing_error("invoice ", invoice_id)),
        };
        if inv.status != InvoiceStatus::Preview && inv.status != InvoiceStatus::Rejected
            && inv.status != InvoiceStatus::Failed {
            return Err(not_allowed("regenerate", &inv.status));
        }
        match self.store.record_action(invoice_id, "preview_regenerated", None, None, now) {
            Ok(()) => {},
            Err(e) => return Err(e),
        }
        let version = text::chars_of(&inv.template_version);
        let mark = text::chars_of("file:");
        let template_name = if text::starts_with(&version, &mark) {
            let rest = text::cut(&version, mark.len(), version.len());
            assert(rest@ =~= version@.skip(mark@.len() as int));
            text::string_of(&rest)
        } else {
            "模板.xlsx".to_owned()
        };
        let total_cents: i64 = match inv.total_cents {
            Some(n) => n,
            None => 0,
        };
        let ports = recorded_ports(&inv.source_snapshot_json);
        let chart = chart::chart_load(&ports);
        Ok(
            Again {
                customer_id: inv.customer_id,
                year: inv.period_year,
                month: inv.period_month,
                invoice_no: inv.invoice_no,
                template_name,
                ports,
                total_cents,
                chart,
            },
        )
    }
}

/// What went wrong, where something did.
pub open spec fn fault_of(r: Result<()>) -> Option<ErrorView> {
    match r {
        Ok(u) => None,
        Err(e) => Some(e@),
    }
}

// ---------------------------------------------------------------------------
// Laws
// ---------------------------------------------------------------------------

/// Only a preview can be confirmed or rejected.
pub proof fn law_only_previews_are_settled(s: StoreView, id: i64, what: Seq<char>)
    ensures
        settle_fault(s, id, what) is None <==> (invoices::place_of(s, id) matches Some(i)
            && s.invoices[i].status == InvoiceStatus::Preview),
        confirm_fault(s, id) is None ==> invoices::not_in_preview(s, id) is None,
{
}

/// A PDF is never moved onto one that exists.
pub proof fn law_final_never_overwritten(
    preview: Seq<char>,
    target: Option<Seq<char>>,
    preview_exists: bool,
)
    ensures
        move_fault(preview, target, preview_exists, true) is Some,
{
}

/// A template that an invoice was generated with is the one it is generated with again.
pub proof fn law_template_kept(name: Seq<char>)
    ensures
        template_of("file:"@ + name) == name,
{
    assert(("file:"@ + name).take("file:"@.len() as int) =~= "file:"@);
    assert(("file:"@ + name).skip("file:"@.len() as int) =~= name);
}

/// A failure changes the state of one invoice at most: the preview of every invoice stays on
/// record.
pub proof fn law_failure_keeps_previews(
    s: StoreView,
    id: i64,
    why: Seq<char>,
    now: Seq<char>,
    k: int,
)
    requires
        0 <= k < s.invoices.len(),
    ensures
        failure_noted(s, id, why, now).invoices.len() == s.invoices.len(),
        ({
            let v = failure_noted(s, id, why, now).invoices[k];
            v == s.invoices[k] || v == invoices::failed(s.invoices[k])
        }),
        failure_noted(s, id, why, now).invoices[k].pdf_path_preview
            == s.invoices[k].pdf_path_preview,
{
    table::lemma_numbered::<Invoice>(s.invoices, id);
}

/// A failure to make an invoice is put on record, with its reason.
pub proof fn law_failure_recorded(s: StoreView, id: i64, why: ErrorView, now: Seq<char>)
    requires
        invoices::place_of(s, id) is Some,
        table::next_id(table::ids::<ActionRow>(s.actions)) is Some,
    ensures
        ({
            let t = failure_noted(s, id, why.message(), now);
            t.actions.len() == s.actions.len() + 1 && t.actions.last().invoice_id == id
                && t.actions.last().action == "failed"@ && t.actions.last().reason == Some(
                why.message(),
            )
        }),
{
    error::law_message_says_something(why);
    table::lemma_numbered::<Invoice>(s.invoices, id);
    let i = invoices::place_of(s, id)->0;
    let mid = invoices::after_change(s, id, invoices::to_failed());
    assert(mid.invoices[i].id == id);
    assert(s.invoices[i].id == id);
}

/// An invoice that is generated again as it was made leaves the same record.
pub proof fn law_record_kept(
    a: Again,
    v: InvoiceView,
    c: CustomerView,
    ports: Seq<PortLineView>,
    total_cents: i64,
    now: Seq<char>,
)
    requires
        again_for(a, v),
        c.id == v.customer_id,
        v.total_cents == Some(total_cents),
        v.source_snapshot_json == snapshot_text(
            c.id,
            c.internal_key,
            ports,
            total_cents,
            v.period_year,
            v.period_month,
        ),
    ensures
        fill::line_views(a.ports@) == ports,
        ({
            let d = draft_for(
                c,
                a.year,
                a.month,
                a.invoice_no@,
                a.template_name@,
                fill::line_views(a.ports@),
                a.total_cents,
                now,
            );
            d.source_snapshot_json == v.source_snapshot_json && d.customer_id == v.customer_id
                && d.period_year == v.period_year && d.period_month == v.period_month
                && d.invoice_no == v.invoice_no
        }),
{
}

/// What the path of a month's directory begins with.
spec fn base_of(root: Seq<char>) -> Seq<char> {
    if root.len() == 0 || root.last() == '/' {
        root
    } else {
        root + "/"@
    }
}

/// A file in a directory of a month, piece by piece.
proof fn lemma_month_file(root: Seq<char>, year: i64, month: i64, dir: Seq<char>, name: Seq<char>)
    requires
        dir.len() > 0,
        forall|i: int| 0 <= i < dir.len() ==> dir[i] != '/',
        name.len() > 0,
        forall|i: int| 0 <= i < name.len() ==> name[i] != '/',
    ensures
        joined_path(joined_path(month_dir_of(root, year, month), dir), name) == ((base_of(root)
            + text::dec_padded(year as int, 4)).push('/') + text::dec_padded(month as int, 2)).push(
            '/',
        ) + dir + "/"@ + name,
{
    reveal_strlit("/");
    let y = text::dec_padded(year as int, 4);
    let m = text::dec_padded(month as int, 2);
    schedule::lemma_padded_apart(year as int, year as int, 4);
    schedule::lemma_padded_apart(month as int, month as int, 2);
    assert(y[0] != '/' && m[0] != '/' && dir[0] != '/' && name[0] != '/');
    let a = joined_path(root, y);
    assert(a =~= base_of(root) + y);
    assert(a.last() == y.last());
    let b = joined_path(a, m);
    assert(b =~= a.push('/') + m);
    assert(b.last() == m.last());
    let c = joined_path(b, dir);
    assert(c =~= b.push('/') + dir);
    assert(c.last() == dir[dir.len() - 1]);
}

proof fn lemma_month_files_apart(
    root: Seq<char>,
    dir: Seq<char>,
    y1: i64,
    m1: i64,
    n1: Seq<char>,
    y2: i64,
    m2: i64,
    n2: Seq<char>,
)
    requires
        dir.len() > 0,
        forall|i: int| 0 <= i < dir.len() ==> dir[i] != '/',
        n1.len() > 0 && n2.len() > 0,
        forall|i: int| 0 <= i < n1.len() ==> n1[i] != '/',
        forall|i: int| 0 <= i < n2.len() ==> n2[i] != '/',
        joined_path(joined_path(month_dir_of(root, y1, m1), dir), n1) == joined_path(
            joined_path(month_dir_of(root, y2, m2), dir),
            n2,
        ),
    ensures
        y1 == y2 && m1 == m2 && n1 == n2,
{
    reveal_strlit("/");
    lemma_month_file(root, y1, m1, dir, n1);
    lemma_month_file(root, y2, m2, dir, n2);
    schedule::lemma_padded_apart(y1 as int, y2 as int, 4);
    schedule::lemma_padded_apart(y2 as int, y1 as int, 4);
    schedule::lemma_padded_apart(m1 as int, m2 as int, 2);
    schedule::lemma_padded_apart(m2 as int, m1 as int, 2);
    let a1 = base_of(root) + text::dec_padded(y1 as int, 4);
    let a2 = base_of(root) + text::dec_padded(y2 as int, 4);
    let b1 = a1.push('/') + text::dec_padded(m1 as int, 2);
    let b2 = a2.push('/') + text::dec_padded(m2 as int, 2);
    let c1 = b1.push('/') + dir;
    let c2 = b2.push('/') + dir;
    assert(c1 + "/"@ =~= c1.push('/'));
    assert(c2 + "/"@ =~= c2.push('/'));
    schedule::lemma_last_part(c1, n1, c2, n2, '/');
    schedule::lemma_last_part(b1, dir, b2, dir, '/');
    schedule::lemma_last_part(
        a1,
        text::dec_padded(m1 as int, 2),
        a2,
        text::dec_padded(m2 as int, 2),
        '/',
    );
    let k = base_of(root).len() as int;
    assert(a1.skip(k) =~= text::dec_padded(y1 as int, 4));
    assert(a2.skip(k) =~= text::dec_padded(y2 as int, 4));
}

/// The name of a preview tells the customer.
proof fn lemma_preview_name(c1: i64, c2: i64)
    ensures
        text::dec_int(c1 as int).len() > 0,
        forall|i: int|
            0 <= i < text::dec_int(c1 as int).len() ==> text::dec_int(c1 as int)[i] != '/',
        forall|i: int|
            0 <= i < (text::dec_int(c1 as int) + ".pdf"@).len() ==> (text::dec_int(c1 as int)
                + ".pdf"@)[i] != '/',
        text::dec_int(c1 as int) + ".pdf"@ == text::dec_int(c2 as int) + ".pdf"@ ==> c1 == c2,
{
    reveal_strlit(".pdf");
    let a = text::dec_int(c1 as int);
    let b = text::dec_int(c2 as int);
    text::lemma_dec_reads_back(if c1 < 0 {
        (-c1) as nat
    } else {
        c1 as nat
    });
    text::lemma_dec_reads_back(if c2 < 0 {
        (-c2) as nat
    } else {
        c2 as nat
    });
    assert(a =~= text::dec_padded(c1 as int, 1));
    assert(b =~= text::dec_padded(c2 as int, 1));
    schedule::lemma_padded_apart(c1 as int, c2 as int, 1);
    assert forall|i: int| 0 <= i < a.len() implies a[i] != '/' by {
        assert(text::dec_padded(c1 as int, 1)[i] == a[i]);
    }
    assert forall|i: int| 0 <= i < (a + ".pdf"@).len() implies (a + ".pdf"@)[i] != '/' by {
        if i < a.len() {
            assert((a + ".pdf"@)[i] == a[i]);
        } else {
            assert((a + ".pdf"@)[i] == ".pdf"@[i - a.len()]);
        }
    }
    assert((a + ".pdf"@).take((a + ".pdf"@).len() - 4) =~= a);
    assert((b + ".pdf"@).take((b + ".pdf"@).len() - 4) =~= b);
}

/// Every customer and month has a preview of its own.
pub proof fn law_previews_apart(
    root: Seq<char>,
    c1: i64,
    y1: i64,
    m1: i64,
    c2: i64,
    y2: i64,
    m2: i64,
)
    requires
        preview_path_of(root, c1, y1, m1) == preview_path_of(root, c2, y2, m2),
    ensures
        c1 == c2 && y1 == y2 && m1 == m2,
{
    reveal_strlit("preview");
    lemma_preview_name(c1, c2);
    lemma_preview_name(c2, c1);
    lemma_month_files_apart(
        root,
        "preview"@,
        y1,
        m1,
        text::dec_int(c1 as int) + ".pdf"@,
        y2,
        m2,
        text::dec_int(c2 as int) + ".pdf"@,
    );
}

/// The previews of two invoices are never the same file.
pub proof fn law_invoices_have_their_own_preview(s: StoreView, root: Seq<char>, a: i64, b: i64)
    requires
        s.wf(),
        invoices::place_of(s, a) is Some,
        invoices::place_of(s, b) is Some,
        a != b,
    ensures
        preview_of(s, root, a) != preview_of(s, root, b),
{
    table::lemma_numbered::<Invoice>(s.invoices, a);
    table::lemma_numbered::<Invoice>(s.invoices, b);
    let i = invoices::place_of(s, a)->0;
    let j = invoices::place_of(s, b)->0;
    let (v, w) = (s.invoices[i], s.invoices[j]);
    assert(v.id == a && w.id == b);
    if preview_of(s, root, a) == preview_of(s, root, b) {
        law_previews_apart(
            root,
            v.customer_id,
            v.period_year,
            v.period_month,
            w.customer_id,
            w.period_year,
            w.period_month,
        );
    }
}

/// The preview of a customer and month becomes the final PDF of that customer and month, which is
/// that of no other.
pub proof fn law_finals_apart(
    root: Seq<char>,
    c1: i64,
    y1: i64,
    m1: i64,
    c2: i64,
    y2: i64,
    m2: i64,
)
    ensures
        final_target(root, y1, m1, preview_path_of(root, c1, y1, m1)) is Some,
        final_target(root, y1, m1, preview_path_of(root, c1, y1, m1)) == final_target(
            root,
            y2,
            m2,
            preview_path_of(root, c2, y2, m2),
        ) ==> c1 == c2 && y1 == y2 && m1 == m2,
{
    reveal_strlit("preview");
    reveal_strlit("final");
    reveal_strlit("/");
    lemma_preview_name(c1, c2);
    lemma_preview_name(c2, c1);
    let n1 = text::dec_int(c1 as int);
    let n2 = text::dec_int(c2 as int);
    lemma_month_file(root, y1, m1, "preview"@, n1 + ".pdf"@);
    lemma_month_file(root, y2, m2, "preview"@, n2 + ".pdf"@);
    let d1 = ((base_of(root) + text::dec_padded(y1 as int, 4)).push('/') + text::dec_padded(
        m1 as int,
        2,
    )).push('/') + "preview"@;
    let d2 = ((base_of(root) + text::dec_padded(y2 as int, 4)).push('/') + text::dec_padded(
        m2 as int,
        2,
    )).push('/') + "preview"@;
    assert(d1 + "/"@ =~= d1.push('/'));
    assert(d2 + "/"@ =~= d2.push('/'));
    pdf::lemma_pdf_name(d1, n1);
    pdf::lemma_pdf_name(d2, n2);
    if final_target(root, y1, m1, preview_path_of(root, c1, y1, m1)) == final_target(
        root,
        y2,
        m2,
        preview_path_of(root, c2, y2, m2),
    ) {
        lemma_month_files_apart(
            root,
            "final"@,
            y1,
            m1,
            n1 + ".pdf"@,
            y2,
            m2,
            n2 + ".pdf"@,
        );
    }
}

/// An invoice can be generated again exactly where it is there and is a preview, rejected or failed.
pub proof fn law_who_can_be_generated_again(s: StoreView, id: i64)
    ensures
        regenerate_fault(s, id) is None <==> (invoices::place_of(s, id) matches Some(i) && (
        s.invoices[i].status == InvoiceStatus::Preview || s.invoices[i].status
            == InvoiceStatus::Rejected || s.invoices[i].status == InvoiceStatus::Failed)),
{
}

/// An invoice whose generation failed is marked as failed and can be generated again; the other
/// invoices stay as they were.
pub proof fn law_failed_can_be_generated_again(
    s: StoreView,
    i: int,
    why: ErrorView,
    now: Seq<char>,
)
    requires
        s.wf(),
        0 <= i < s.invoices.len(),
        s.invoices[i].status != InvoiceStatus::Final,
    ensures
        ({
            let id = s.invoices[i].id;
            let t = failure_noted(s, id, why.message(), now);
            &&& t.invoices == s.invoices.update(
                i,
                InvoiceView { status: InvoiceStatus::Failed, ..s.invoices[i] },
            )
            &&& regenerate_fault(t, id) is None
        }),
{
    let id = s.invoices[i].id;
    lemma_invoice_place(s, i);
    let t = failure_noted(s, id, why.message(), now);
    let mid = invoices::after_change(s, id, invoices::to_failed());
    assert(t.invoices == mid.invoices);
    table::lemma_numbered::<Invoice>(t.invoices, id);
    assert(Invoice::row_id(t.invoices[i]) == id);
    let k = invoices::place_of(t, id)->0;
    if k < i {
        assert(s.invoices[k].id < s.invoices[i].id);
    } else if i < k {
        assert(s.invoices[i].id < s.invoices[k].id);
    }
}

proof fn lemma_invoice_place(s: StoreView, i: int)
    requires
        s.wf(),
        0 <= i < s.invoices.len(),
    ensures
        invoices::place_of(s, s.invoices[i].id) == Some(i),
        store::final_ok(s.invoices[i].status, s.invoices[i].pdf_path_final),
{
    let id = s.invoices[i].id;
    table::lemma_numbered::<Invoice>(s.invoices, id);
    assert(Invoice::row_id(s.invoices[i]) == id);
    let k = invoices::place_of(s, id)->0;
    if k < i {
        assert(s.invoices[k].id < s.invoices[i].id);
    } else if i < k {
        assert(s.invoices[i].id < s.invoices[k].id);
    }
}

/// An invoice can be confirmed exactly where it is a preview and has a PDF, and rejected exactly
/// where it is a preview; the PDF can be moved exactly where it is there, has a name, and nothing is
/// in its way.
pub proof fn law_what_can_be_settled(
    s: StoreView,
    id: i64,
    what: Seq<char>,
    preview: Seq<char>,
    target: Option<Seq<char>>,
    preview_exists: bool,
    target_exists: bool,
)
    ensures
        settle_fault(s, id, what) is None <==> (invoices::place_of(s, id) matches Some(i)
            && s.invoices[i].status == InvoiceStatus::Preview),
        confirm_fault(s, id) is None <==> (invoices::place_of(s, id) matches Some(i)
            && s.invoices[i].status == InvoiceStatus::Preview && s.invoices[i].pdf_path_preview
            is Some),
        move_fault(preview, target, preview_exists, target_exists) is None <==> preview_exists
            && target is Some && !target_exists,
{
}

/// A finished preview is shown with its amount at its own path, and that is put on record; the other
/// invoices stay as they were.
pub proof fn law_preview_finished(
    before: StoreView,
    after: StoreView,
    r: Result<i64>,
    i: int,
    total: i64,
    path: Seq<char>,
    now: Seq<char>,
)
    requires
        before.wf(),
        0 <= i < before.invoices.len(),
        preview_done(before, after, r, before.invoices[i].id, total, path, now),
        table::next_id(table::ids::<ActionRow>(before.actions)) is Some,
    ensures
        before.invoices[i].status == InvoiceStatus::Final ==> r is Err && after == before,
        before.invoices[i].status != InvoiceStatus::Final ==> {
            &&& r == Result::<i64>::Ok(before.invoices[i].id)
            &&& after.invoices == before.invoices.update(
                i,
                InvoiceView {
                    status: InvoiceStatus::Preview,
                    total_cents: Some(total),
                    pdf_path_preview: Some(path),
                    ..before.invoices[i]
                },
            )
            &&& after.actions.len() == before.actions.len() + 1
            &&& after.actions.last().invoice_id == before.invoices[i].id
            &&& after.actions.last().action == "preview_generated"@
            &&& after.actions.last().actor_user_id is None
            &&& after.actions.last().at == now
        },
{
    lemma_invoice_place(before, i);
    let id = before.invoices[i].id;
    let mid = invoices::after_change(before, id, invoices::to_preview(total, path));
    if before.invoices[i].status != InvoiceStatus::Final {
        assert(Invoice::row_id(mid.invoices[i]) == id);
        invoices::law_action_refused(mid, id, "preview_generated"@, None, None);
        assert(mid.invoices[i].id == id);
        reveal_strlit("preview_generated");
        reveal_strlit("rejected");
        reveal_strlit("failed");
        assert("preview_generated"@.len() != "rejected"@.len());
        assert("preview_generated"@.len() != "failed"@.len());
    }
}

/// What an action leaves behind: where it is refused nothing, else one more record of it.
pub proof fn law_recorded(
    before: StoreView,
    after: StoreView,
    id: i64,
    action: Seq<char>,
    actor: Option<i64>,
    reason: Option<Seq<char>>,
    now: Seq<char>,
    fault: Option<ErrorView>,
)
    requires
        recorded(before, after, id, action, actor, reason, now, fault),
    ensures
        fault is Some <==> invoices::action_fault(before, id, action, actor, reason) is Some,
        fault is Some ==> after == before,
        fault is None ==> {
            &&& after.invoices == before.invoices
            &&& after.actions.len() == before.actions.len() + 1
            &&& after.actions.drop_last() == before.actions
            &&& after.actions.last().invoice_id == id && after.actions.last().action == action
                && after.actions.last().actor_user_id == actor && after.actions.last().reason
                == reason && after.actions.last().at == now
        },
{
    if fault is None {
        assert(after.actions.drop_last() =~= before.actions);
    }
}

/// What an invoice is started with: the customer, the month, the number, the template by its name,
/// the currency of the customer, and a record of customer, ports, amount and month.
pub proof fn law_what_an_invoice_is_made_from(
    c: CustomerView,
    year: i64,
    month: i64,
    invoice_no: Seq<char>,
    template_name: Seq<char>,
    ports: Seq<PortLineView>,
    total_cents: i64,
    now: Seq<char>,
    d: InvoiceData,
)
    ensures
        ({
            let e = draft_for(c, year, month, invoice_no, template_name, ports, total_cents, now);
            &&& e.customer_id == c.id
            &&& e.period_year == year && e.period_month == month
            &&& e.invoice_no == invoice_no
            &&& e.template_version == "file:"@ + template_name
            &&& e.currency == c.currency
            &&& e.created_at == now
            &&& e.source_snapshot_json == (SnapshotView {
                customer_id: c.id,
                key: c.internal_key,
                ports,
                total_cents,
                year,
                month,
            }).written()
        }),
        data_for(d, c, year, month, invoice_no, ports, total_cents) ==> {
            &&& d.invoice_no@ == invoice_no && d.customer_name@ == c.name && d.currency@
                == c.currency
            &&& d.period_label@ == text::dec_padded(year as int, 4) + "-"@ + text::dec_padded(
                month as int,
                2,
            )
            &&& fill::line_views(d.ports@) == ports && d.total_cents == total_cents
        },
{
}

/// An invoice is generated again for the same customer and month, under its number, with its
/// template where that is known by name and the usual one else, and with its amount.
pub proof fn law_generated_again_alike(a: Again, v: InvoiceView)
    requires
        again_for(a, v),
    ensures
        a.customer_id == v.customer_id && a.year == v.period_year && a.month == v.period_month,
        a.invoice_no@ == v.invoice_no,
        text::has_prefix(v.template_version, "file:"@) ==> v.template_version == "file:"@
            + a.template_name@,
        !text::has_prefix(v.template_version, "file:"@) ==> a.template_name@ == "模板.xlsx"@,
        v.total_cents matches Some(n) ==> a.total_cents == n,
        v.total_cents is None ==> a.total_cents == 0,
        a.chart matches Some(m) ==> m > 0 && exists|i: int|
            0 <= i < a.ports@.len() && (#[trigger] a.ports@[i]).mbps_95th == Some(m),
        forall|i: int|
            0 <= i < a.ports@.len() && (#[trigger] a.ports@[i]).mbps_95th is Some
                && a.ports@[i].mbps_95th->0 > 0 ==> a.chart is Some && a.ports@[i].mbps_95th->0
                <= a.chart->0,
{
    if text::has_prefix(v.template_version, "file:"@) {
        let n = "file:"@.len() as int;
        assert(v.template_version =~= v.template_version.take(n) + v.template_version.skip(n));
    }
    let w = fill::line_views(a.ports@);
    assert forall|i: int|
        0 <= i < a.ports@.len() && (#[trigger] a.ports@[i]).mbps_95th is Some
            && a.ports@[i].mbps_95th->0 > 0 implies a.chart is Some && a.ports@[i].mbps_95th->0
        <= a.chart->0 by {
        assert(w[i].mbps_95th == a.ports@[i].mbps_95th);
    }
    if let Some(m) = a.chart {
        let i = choose|i: int| 0 <= i < w.len() && (#[trigger] w[i]).mbps_95th == Some(m);
        assert(a.ports@[i].mbps_95th == Some(m));
    }
}

/// A path below a directory: the directory, one slash, and the path; a path that starts at the root
/// stays as it is.
pub proof fn law_joined_path(dir: Seq<char>, path: Seq<char>)
    ensures
        joined_path(dir, seq!['/'] + path) == seq!['/'] + path,
        path.len() > 0 && path[0] != '/' ==> joined_path(dir + seq!['/'], path) == dir + seq!['/']
            + path,
        path.len() > 0 && path[0] != '/' && dir.len() > 0 && dir.last() != '/' ==> joined_path(
            dir,
            path,
        ) == dir + seq!['/'] + path,
        path.len() > 0 && path[0] != '/' ==> joined_path(Seq::empty(), path) == path,
{
    reveal_strlit("/");
    assert("/"@ =~= seq!['/']);
    assert((seq!['/'] + path)[0] == '/');
    assert((dir + seq!['/']).last() == '/');
    assert(Seq::<char>::empty() + path =~= path);
}

/// Where files are: the preview of a month below year and month under the number of the customer,
/// the final PDF beside the previews of its month under the name of the preview.
pub proof fn law_where_files_are(root: Seq<char>, customer_id: i64, year: i64, month: i64)
    requires
        root.len() > 0,
        root.last() != '/',
    ensures
        preview_path_of(root, customer_id, year, month) == root + "/"@ + text::dec_padded(
            year as int,
            4,
        ) + "/"@ + text::dec_padded(month as int, 2) + "/preview/"@ + text::dec_int(
            customer_id as int,
        ) + ".pdf"@,
        final_target(root, year, month, preview_path_of(root, customer_id, year, month)) == Some(
            root + "/"@ + text::dec_padded(year as int, 4) + "/"@ + text::dec_padded(month as int, 2)
                + "/final/"@ + text::dec_int(customer_id as int) + ".pdf"@,
        ),
{
    reveal_strlit("/");
    reveal_strlit("preview");
    reveal_strlit("final");
    reveal_strlit("/preview/");
    reveal_strlit("/final/");
    lemma_preview_name(customer_id, customer_id);
    let n = text::dec_int(customer_id as int);
    let y = text::dec_padded(year as int, 4);
    let m = text::dec_padded(month as int, 2);
    lemma_month_file(root, year, month, "preview"@, n + ".pdf"@);
    lemma_month_file(root, year, month, "final"@, n + ".pdf"@);
    let d = ((base_of(root) + y).push('/') + m).push('/') + "preview"@;
    assert(d + "/"@ =~= d.push('/'));
    pdf::lemma_pdf_name(d, n);
    assert(preview_path_of(root, customer_id, year, month) =~= root + "/"@ + y + "/"@ + m
        + "/preview/"@ + n + ".pdf"@);
    assert(joined_path(joined_path(month_dir_of(root, year, month), "final"@), n + ".pdf"@) =~= root
        + "/"@ + y + "/"@ + m + "/final/"@ + n + ".pdf"@);
}

/// An invoice with this number that is there can be generated again exactly where it is a preview,
/// rejected or failed; a number that no invoice has is refused as unknown.
pub proof fn law_generated_again_by_number(s: StoreView, i: int, id: i64)
    requires
        s.wf(),
        0 <= i < s.invoices.len(),
        forall|k: int| 0 <= k < s.invoices.len() ==> (#[trigger] s.invoices[k]).id != id,
    ensures
        regenerate_fault(s, s.invoices[i].id) is None <==> s.invoices[i].status
            == InvoiceStatus::Preview || s.invoices[i].status == InvoiceStatus::Rejected
            || s.invoices[i].status == InvoiceStatus::Failed,
        regenerate_fault(s, s.invoices[i].id) is Some ==> regenerate_fault(
            s,
            s.invoices[i].id,
        ) == Some(
            ErrorView::InvalidTransition(
                "regenerate"@ + " from "@ + rows::status_word(s.invoices[i].status)
                    + " not allowed"@,
            ),
        ),
        regenerate_fault(s, id) == Some(
            ErrorView::NotFound("invoice "@ + text::dec_int(id as int)),
        ),
        forall|st: InvoiceStatus| #[trigger]
            can_regenerate(st) <==> st != InvoiceStatus::Generating && st
                != InvoiceStatus::Confirming && st != InvoiceStatus::Final,
{
    lemma_invoice_place(s, i);
    lemma_nowhere(s, id);
}

proof fn lemma_nowhere(s: StoreView, id: i64)
    requires
        forall|k: int| 0 <= k < s.invoices.len() ==> (#[trigger] s.invoices[k]).id != id,
    ensures
        invoices::place_of(s, id) is None,
{
    table::lemma_numbered::<Invoice>(s.invoices, id);
    if let Some(k) = invoices::place_of(s, id) {
        assert(s.invoices[k].id == id);
    }
}

/// An invoice can be rejected exactly where it is a preview, and confirmed where it has a PDF too;
/// the refusal says what it is instead.
pub proof fn law_settled_by_number(s: StoreView, i: int, id: i64, what: Seq<char>)
    requires
        s.wf(),
        0 <= i < s.invoices.len(),
        forall|k: int| 0 <= k < s.invoices.len() ==> (#[trigger] s.invoices[k]).id != id,
    ensures
        ({
            let v = s.invoices[i];
            &&& settle_fault(s, v.id, what) is None <==> v.status == InvoiceStatus::Preview
            &&& v.status != InvoiceStatus::Preview ==> settle_fault(s, v.id, what) == Some(
                ErrorView::InvalidTransition(
                    what + " from "@ + rows::status_word(v.status) + " not allowed"@,
                ),
            )
            &&& confirm_fault(s, v.id) is None <==> v.status == InvoiceStatus::Preview
                && v.pdf_path_preview is Some
            &&& v.status == InvoiceStatus::Preview && v.pdf_path_preview is None ==> confirm_fault(
                s,
                v.id,
            ) == Some(ErrorView::InvalidTransition("preview PDF missing"@))
        }),
        settle_fault(s, id, what) == Some(
            ErrorView::NotFound("invoice "@ + text::dec_int(id as int)),
        ),
        confirm_fault(s, id) == Some(ErrorView::NotFound("invoice "@ + text::dec_int(id as int))),
{
    lemma_invoice_place(s, i);
    lemma_nowhere(s, id);
}

/// Why a PDF cannot be moved.
pub proof fn law_move_refused(preview: Seq<char>, target: Seq<char>, there: bool)
    ensures
        move_fault(preview, Some(target), false, there) == Some(
            ErrorView::NotFound("preview pdf "@ + preview),
        ),
        move_fault(preview, None, true, there) == Some(
            ErrorView::Internal("bad preview filename"@),
        ),
        move_fault(preview, Some(target), true, true) == Some(
            ErrorView::AlreadyExists("final pdf "@ + target),
        ),
        move_fault(preview, Some(target), true, false) is None,
{
}

/// A failure never touches a final invoice, nor anything of the others.
pub proof fn law_failure_of_a_final(s: StoreView, i: int, why: Seq<char>, now: Seq<char>)
    requires
        s.wf(),
        0 <= i < s.invoices.len(),
        s.invoices[i].status == InvoiceStatus::Final,
    ensures
        failure_noted(s, s.invoices[i].id, why, now).invoices == s.invoices,
        failure_noted(s, s.invoices[i].id, why, now).customers == s.customers,
{
    lemma_invoice_place(s, i);
}

/// The preview of an invoice is where its customer and month say, whatever it was before.
pub proof fn law_preview_of(s: StoreView, root: Seq<char>, i: int)
    requires
        s.wf(),
        0 <= i < s.invoices.len(),
    ensures
        preview_of(s, root, s.invoices[i].id) == preview_path_of(
            root,
            s.invoices[i].customer_id,
            s.invoices[i].period_year,
            s.invoices[i].period_month,
        ),
{
    lemma_invoice_place(s, i);
}

/// How a record is written: members in the order of their names, as JSON.
pub proof fn law_record_text(
    customer_id: i64,
    key: Seq<char>,
    ports: Seq<PortLineView>,
    total_cents: i64,
    year: i64,
    month: i64,
    p: PortLineView,
)
    ensures
        snapshot_text(customer_id, key, ports, total_cents, year, month) == "{\"customer\":"@
            + quoted(key) + ",\"customer_id\":"@ + text::dec_int(customer_id as int)
            + ",\"month\":"@ + text::dec_int(month as int) + ",\"ports\":["@ + ports_text(ports)
            + "],\"total_cents\":"@ + text::dec_int(total_cents as int) + ",\"year\":"@
            + text::dec_int(year as int) + "}"@,
        port_text(p) == "{\"label\":"@ + quoted(p.label) + ",\"machine_hosting\":"@ + (
        if p.machine_hosting {
            "true"@
        } else {
            "false"@
        }) + ",\"machine_rent\":"@ + (if p.machine_rent {
            "true"@
        } else {
            "false"@
        }) + ",\"mbps_95th\":"@ + (match p.mbps_95th {
            Some(n) => text::dec_int(n as int),
            None => "null"@,
        }) + "}"@,
{
}

/// Port lines are written one after the other with one comma between any two.
pub proof fn law_ports_text(a: Seq<PortLineView>, b: Seq<PortLineView>, p: PortLineView)
    requires
        a.len() > 0,
        b.len() > 0,
    ensures
        ports_text(a + b) == ports_text(a) + ","@ + ports_text(b),
        ports_text(seq![p]) == port_text(p),
        ports_text(Seq::empty()) == Seq::<char>::empty(),
    decreases b.len(),
{
    let ab = a + b;
    assert(ab.drop_last() =~= a + b.drop_last());
    assert(ab.last() == b.last());
    if b.len() == 1 {
        assert(ab.drop_last() =~= a);
        assert(ports_text(ab) =~= ports_text(a) + ","@ + ports_text(b));
    } else {
        law_ports_text(a, b.drop_last(), p);
        assert(ports_text(ab) =~= ports_text(a) + ","@ + ports_text(b));
    }
}

/// A text is written between quotation marks, character by character; what is neither a quotation
/// mark nor a backslash nor a control character stays.
pub proof fn law_quoted(a: Seq<char>, b: Seq<char>, c: char)
    ensures
        all_escaped(a + b) == all_escaped(a) + all_escaped(b),
        all_escaped(seq![c]) == escaped(c),
        quoted(a) == seq!['"'] + all_escaped(a) + seq!['"'],
        c as u32 >= 32 && c != '"' && c != '\\' ==> escaped(c) == seq![c],
        escaped('"') == seq!['\\', '"'],
        escaped('\\') == seq!['\\', '\\'],
        escaped('\n') == seq!['\\', 'n'],
        escaped('\t') == seq!['\\', 't'],
        escaped('\r') == seq!['\\', 'r'],
        (c as u32) < 32 ==> escaped(c).len() >= 2 && escaped(c)[0] == '\\',
    decreases b.len(),
{
    let one = seq![c];
    assert(one.drop_last() =~= Seq::empty());
    assert(all_escaped(one.drop_last()) =~= Seq::empty());
    assert(all_escaped(one) =~= escaped(c));
    if b.len() == 0 {
        assert(a + b =~= a);
        assert(all_escaped(a) + all_escaped(b) =~= all_escaped(a));
    } else {
        law_quoted(a, b.drop_last(), c);
        assert((a + b).drop_last() =~= a + b.drop_last());
        assert((a + b).last() == b.last());
        assert(all_escaped(a + b) =~= all_escaped(a) + all_escaped(b));
    }
}

/// An invoice is generated again with the ports that its record lists, and with none where it has no
/// record.
pub proof fn law_ports_of_the_record(
    a: Again,
    v: InvoiceView,
    customer_id: i64,
    key: Seq<char>,
    listed: Seq<PortLineView>,
    total_cents: i64,
    year: i64,
    month: i64,
)
    requires
        again_for(a, v),
    ensures
        v.source_snapshot_json == snapshot_text(customer_id, key, listed, total_cents, year, month)
            ==> fill::line_views(a.ports@) == listed,
        v.source_snapshot_json.len() == 0 ==> a.ports@.len() == 0,
{
    if v.source_snapshot_json.len() == 0 {
        reveal_strlit("{\"customer\":");
        assert forall|
            c: i64,
            k: Seq<char>,
            l: Seq<PortLineView>,
            t: i64,
            y: i64,
            m: i64,
        | v.source_snapshot_json != #[trigger] snapshot_text(c, k, l, t, y, m) by {
            assert(snapshot_text(c, k, l, t, y, m).len() >= "{\"customer\":"@.len());
        }
        assert(fill::line_views(a.ports@).len() == a.ports@.len());
    }
}

} // verus!
