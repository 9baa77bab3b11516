//! The rows of the tables and their mathematical values.
use crate::error::{Error, ErrorView, Result};
use crate::store::table::{Record, Row};
use crate::text;
use vstd::prelude::*;

verus! {

/// How far an invoice has come.
#[derive(Debug, Clone, Copy, PartialEq, Eq, Structural)]
pub enum InvoiceStatus {
    Generating,
    Preview,
    Confirming,
    Final,
    Failed,
    Rejected,
}

/// The word for a status.
pub open spec fn status_word(s: InvoiceStatus) -> Seq<char> {
    match s {
        InvoiceStatus::Generating => "generating"@,
        InvoiceStatus::Preview => "preview"@,
        InvoiceStatus::Confirming => "confirming"@,
        InvoiceStatus::Final => "final"@,
        InvoiceStatus::Failed => "failed"@,
        InvoiceStatus::Rejected => "rejected"@,
    }
}

/// The words for the statuses differ.
proof fn lemma_status_words(a: InvoiceStatus, b: InvoiceStatus)
    requires
        status_word(a) == status_word(b),
    ensures
        a == b,
{
    reveal_strlit("generating");
    reveal_strlit("preview");
    reveal_strlit("confirming");
    reveal_strlit("final");
    reveal_strlit("failed");
    reveal_strlit("rejected");
    assert("generating"@[0] == 'g' && "preview"@[0] == 'p' && "confirming"@[0] == 'c');
    assert("final"@.len() == 5 && "failed"@.len() == 6 && "rejected"@[0] == 'r');
    assert("final"@[0] == 'f' && "failed"@[0] == 'f');
}

impl InvoiceStatus {
    /// The word for this status.
    pub fn as_str(&self) -> (r: &'static str)
        ensures
            r@ == status_word(*self),
    {
        match self {
            InvoiceStatus::Generating => "generating",
            InvoiceStatus::Preview => "preview",
            InvoiceStatus::Confirming => "confirming",
            InvoiceStatus::Final => "final",
            InvoiceStatus::Failed => "failed",
            InvoiceStatus::Rejected => "rejected",
        }
    }

    /// The status that a word stands for.
    pub fn parse(s: &str) -> (r: Result<InvoiceStatus>)
        ensures
            r is Ok <==> exists|t: InvoiceStatus| s@ == #[trigger] status_word(t),
            r matches Ok(t) ==> s@ == status_word(t),
            r matches Err(e) ==> e@ == ErrorView::Database("unknown invoice status: "@ + s@),
    {
        if text::same(s, "generating") {
            assert(s@ == status_word(InvoiceStatus::Generating));
            Ok(InvoiceStatus::Generating)
        } else if text::same(s, "preview") {
            assert(s@ == status_word(InvoiceStatus::Preview));
            Ok(InvoiceStatus::Preview)
        } else if text::same(s, "confirming") {
            assert(s@ == status_word(InvoiceStatus::Confirming));
            Ok(InvoiceStatus::Confirming)
        } else if text::same(s, "final") {
            assert(s@ == status_word(InvoiceStatus::Final));
            Ok(InvoiceStatus::Final)
        } else if text::same(s, "failed") {
            assert(s@ == status_word(InvoiceStatus::Failed));
            Ok(InvoiceStatus::Failed)
        } else if text::same(s, "rejected") {
            assert(s@ == status_word(InvoiceStatus::Rejected));
            Ok(InvoiceStatus::Rejected)
        } else {
            Err(Error::Database(text::cat2("unknown invoice status: ", s)))
        }
    }
}

/// A status is read back from its word, and no word stands for two.
pub proof fn law_status_reads_back(a: InvoiceStatus, b: InvoiceStatus)
    ensures
        status_word(a) == status_word(b) <==> a == b,
{
    if status_word(a) == status_word(b) {
        lemma_status_words(a, b);
    }
}

/// A copy of an optional text.
pub(crate) fn copy_text(t: &Option<String>) -> (r: Option<String>)
    ensures
        text::optional(r) == text::optional(*t),
{
    match t {
        Some(t) => Some(t.clone()),
        None => None,
    }
}

/// A copy of bytes.
pub(crate) fn copy_bytes(b: &Vec<u8>) -> (r: Vec<u8>)
    ensures
        r@ == b@,
{
    let mut out: Vec<u8> = Vec::new();
    let mut i: usize = 0;
    while i < b.len()
        invariant
            i <= b@.len(),
            out@ == b@.take(i as int),
        decreases b@.len() - i,
    {
        out.push(b[i]);
        i = i + 1;
    }
    assert(b@.take(i as int) =~= b@);
    out
}

/// The characters of an optional borrowed text.
pub open spec fn borrowed(t: Option<&str>) -> Option<Seq<char>> {
    match t {
        Some(t) => Some(t@),
        None => None,
    }
}

/// An optional borrowed text, owned.
pub(crate) fn own(t: Option<&str>) -> (r: Option<String>)
    ensures
        text::optional(r) == borrowed(t),
{
    match t {
        Some(t) => Some(t.to_owned()),
        None => None,
    }
}

/// A LibreNMS server.
#[derive(Debug, Clone)]
pub struct LibreNmsInstance {
    pub id: i64,
    pub name: String,
    pub url: String,
    pub api_token_enc: Vec<u8>,
    pub is_active: bool,
    pub created_at: String,
}

/// The mathematical value of a `LibreNmsInstance`.
#[verifier::ext_equal]
pub struct InstanceView {
    pub id: i64,
    pub name: Seq<char>,
    pub url: Seq<char>,
    pub api_token_enc: Seq<u8>,
    pub is_active: bool,
    pub created_at: Seq<char>,
}

impl View for LibreNmsInstance {
    type V = InstanceView;

    open spec fn view(&self) -> InstanceView {
        InstanceView {
            id: self.id,
            name: self.name@,
            url: self.url@,
            api_token_enc: self.api_token_enc@,
            is_active: self.is_active,
            created_at: self.created_at@,
        }
    }
}

impl Row for LibreNmsInstance {
    open spec fn row_id(v: InstanceView) -> i64 {
        v.id
    }

    fn id(&self) -> i64 {
        self.id
    }
}

impl Record for LibreNmsInstance {
    fn copy(&self) -> LibreNmsInstance {
        LibreNmsInstance {
            id: self.id,
            name: self.name.clone(),
            url: self.url.clone(),
            api_token_enc: copy_bytes(&self.api_token_enc),
            is_active: self.is_active,
            created_at: self.created_at.clone(),
        }
    }
}

/// A customer.
#[derive(Debug, Clone)]
pub struct Customer {
    pub id: i64,
    pub internal_key: String,
    pub name: String,
    pub currency: String,
    pub librenms_instance_id: i64,
    pub librenms_bill_id: i64,
    pub timezone: String,
    pub company_type: String,
    pub company_info_json: String,
    pub company_info_schema_version: i64,
    pub billing_address: Option<String>,
    pub contact_email: Option<String>,
    pub template_name: Option<String>,
    pub is_active: bool,
    pub created_at: String,
}

/// The mathematical value of a `Customer`.
#[verifier::ext_equal]
pub struct CustomerView {
    pub id: i64,
    pub internal_key: Seq<char>,
    pub name: Seq<char>,
    pub currency: Seq<char>,
    pub librenms_instance_id: i64,
    pub librenms_bill_id: i64,
    pub timezone: Seq<char>,
    pub company_type: Seq<char>,
    pub company_info_json: Seq<char>,
    pub company_info_schema_version: i64,
    pub billing_address: Option<Seq<char>>,
    pub contact_email: Option<Seq<char>>,
    pub template_name: Option<Seq<char>>,
    pub is_active: bool,
    pub created_at: Seq<char>,
}

impl View for Customer {
    type V = CustomerView;

    open spec fn view(&self) -> CustomerView {
        CustomerView {
            id: self.id,
            internal_key: self.internal_key@,
            name: self.name@,
            currency: self.currency@,
            librenms_instance_id: self.librenms_instance_id,
            librenms_bill_id: self.librenms_bill_id,
            timezone: self.timezone@,
            company_type: self.company_type@,
            company_info_json: self.company_info_json@,
            company_info_schema_version: self.company_info_schema_version,
            billing_address: text::optional(self.billing_address),
            contact_email: text::optional(self.contact_email),
            template_name: text::optional(self.template_name),
            is_active: self.is_active,
            created_at: self.created_at@,
        }
    }
}

impl Row for Customer {
    open spec fn row_id(v: CustomerView) -> i64 {
        v.id
    }

    fn id(&self) -> i64 {
        self.id
    }
}

impl Record for Customer {
    fn copy(&self) -> Customer {
        Customer {
            id: self.id,
            internal_key: self.internal_key.clone(),
            name: self.name.clone(),
            currency: self.currency.clone(),
            librenms_instance_id: self.librenms_instance_id,
            librenms_bill_id: self.librenms_bill_id,
            timezone: self.timezone.clone(),
            company_type: self.company_type.clone(),
            company_info_json: self.company_info_json.clone(),
            company_info_schema_version: self.company_info_schema_version,
            billing_address: copy_text(&self.billing_address),
            contact_email: copy_text(&self.contact_email),
            template_name: copy_text(&self.template_name),
            is_active: self.is_active,
            created_at: self.created_at.clone(),
        }
    }
}

/// A port that a customer pays for.
#[derive(Debug, Clone)]
pub struct Port {
    pub id: i64,
    pub customer_id: i64,
    pub port_label: String,
    pub ip_count_a: i64,
    pub ip_count_b: i64,
    pub machine_rent: bool,
    pub machine_hosting: bool,
    pub librenms_bill_id: Option<i64>,
    pub notes: Option<String>,
}

/// The mathematical value of a `Port`.
#[verifier::ext_equal]
pub struct PortView {
    pub id: i64,
    pub customer_id: i64,
    pub port_label: Seq<char>,
    pub ip_count_a: i64,
    pub ip_count_b: i64,
    pub machine_rent: bool,
    pub machine_hosting: bool,
    pub librenms_bill_id: Option<i64>,
    pub notes: Option<Seq<char>>,
}

impl View for Port {
    type V = PortView;

    open spec fn view(&self) -> PortView {
        PortView {
            id: self.id,
            customer_id: self.customer_id,
            port_label: self.port_label@,
            ip_count_a: self.ip_count_a,
            ip_count_b: self.ip_count_b,
            machine_rent: self.machine_rent,
            machine_hosting: self.machine_hosting,
            librenms_bill_id: self.librenms_bill_id,
            notes: text::optional(self.notes),
        }
    }
}

impl Row for Port {
    open spec fn row_id(v: PortView) -> i64 {
        v.id
    }

    fn id(&self) -> i64 {
        self.id
    }
}

impl Record for Port {
    fn copy(&self) -> Port {
        Port {
            id: self.id,
            customer_id: self.customer_id,
            port_label: self.port_label.clone(),
            ip_count_a: self.ip_count_a,
            ip_count_b: self.ip_count_b,
            machine_rent: self.machine_rent,
            machine_hosting: self.machine_hosting,
            librenms_bill_id: self.librenms_bill_id,
            notes: copy_text(&self.notes),
        }
    }
}

/// What a customer pays from a day on. Amounts are in cents, days are texts such as `2026-08-01`.
#[derive(Debug, Clone)]
pub struct Rate {
    pub id: i64,
    pub customer_id: i64,
    pub effective_from: String,
    pub effective_to: Option<String>,
    pub mbps_unit_price_cents: i64,
    pub ip_unit_price_cents: i64,
    pub ip_quantity: i64,
    pub machine_rent_cents: i64,
    pub machine_hosting_cents: i64,
    pub currency: String,
    pub librenms_bill_id: Option<i64>,
    pub business_label: Option<String>,
    pub notes: String,
}

/// The mathematical value of a `Rate`.
#[verifier::ext_equal]
pub struct RateView {
    pub id: i64,
    pub customer_id: i64,
    pub effective_from: Seq<char>,
    pub effective_to: Option<Seq<char>>,
    pub mbps_unit_price_cents: i64,
    pub ip_unit_price_cents: i64,
    pub ip_quantity: i64,
    pub machine_rent_cents: i64,
    pub machine_hosting_cents: i64,
    pub currency: Seq<char>,
    pub librenms_bill_id: Option<i64>,
    pub business_label: Option<Seq<char>>,
    pub notes: Seq<char>,
}

impl View for Rate {
    type V = RateView;

    open spec fn view(&self) -> RateView {
        RateView {
            id: self.id,
            customer_id: self.customer_id,
            effective_from: self.effective_from@,
            effective_to: text::optional(self.effective_to),
            mbps_unit_price_cents: self.mbps_unit_price_cents,
            ip_unit_price_cents: self.ip_unit_price_cents,
            ip_quantity: self.ip_quantity,
            machine_rent_cents: self.machine_rent_cents,
            machine_hosting_cents: self.machine_hosting_cents,
            currency: self.currency@,
            librenms_bill_id: self.librenms_bill_id,
            business_label: text::optional(self.business_label),
            notes: self.notes@,
        }
    }
}

impl Row for Rate {
    open spec fn row_id(v: RateView) -> i64 {
        v.id
    }

    fn id(&self) -> i64 {
        self.id
    }
}

impl Record for Rate {
    fn copy(&self) -> Rate {
        Rate {
            id: self.id,
            customer_id: self.customer_id,
            effective_from: self.effective_from.clone(),
            effective_to: copy_text(&self.effective_to),
            mbps_unit_price_cents: self.mbps_unit_price_cents,
            ip_unit_price_cents: self.ip_unit_price_cents,
            ip_quantity: self.ip_quantity,
            machine_rent_cents: self.machine_rent_cents,
            machine_hosting_cents: self.machine_hosting_cents,
            currency: self.currency.clone(),
            librenms_bill_id: self.librenms_bill_id,
            business_label: copy_text(&self.business_label),
            notes: self.notes.clone(),
        }
    }
}

/// An invoice for one customer and one month.
#[derive(Debug, Clone)]
pub struct Invoice {
    pub id: i64,
    pub customer_id: i64,
    pub period_year: i64,
    pub period_month: i64,
    pub status: InvoiceStatus,
    pub invoice_no: String,
    pub template_version: String,
    pub source_snapshot_json: String,
    pub total_cents: Option<i64>,
    pub currency: String,
    pub pdf_path_preview: Option<String>,
    pub pdf_path_final: Option<String>,
    pub created_at: String,
    pub confirmed_at: Option<String>,
    pub confirmed_by: Option<i64>,
    pub rejected_reason: Option<String>,
}

/// The mathematical value of a `Invoice`.
#[verifier::ext_equal]
pub struct InvoiceView {
    pub id: i64,
    pub customer_id: i64,
    pub period_year: i64,
    pub period_month: i64,
    pub status: InvoiceStatus,
    pub invoice_no: Seq<char>,
    pub template_version: Seq<char>,
    pub source_snapshot_json: Seq<char>,
    pub total_cents: Option<i64>,
    pub currency: Seq<char>,
    pub pdf_path_preview: Option<Seq<char>>,
    pub pdf_path_final: Option<Seq<char>>,
    pub created_at: Seq<char>,
    pub confirmed_at: Option<Seq<char>>,
    pub confirmed_by: Option<i64>,
    pub rejected_reason: Option<Seq<char>>,
}

impl View for Invoice {
    type V = InvoiceView;

    open spec fn view(&self) -> InvoiceView {
        InvoiceView {
            id: self.id,
            customer_id: self.customer_id,
            period_year: self.period_year,
            period_month: self.period_month,
            status: self.status,
            invoice_no: self.invoice_no@,
            template_version: self.template_version@,
            source_snapshot_json: self.source_snapshot_json@,
            total_cents: self.total_cents,
            currency: self.currency@,
            pdf_path_preview: text::optional(self.pdf_path_preview),
            pdf_path_final: text::optional(self.pdf_path_final),
            created_at: self.created_at@,
            confirmed_at: text::optional(self.confirmed_at),
            confirmed_by: self.confirmed_by,
            rejected_reason: text::optional(self.rejected_reason),
        }
    }
}

impl Row for Invoice {
    open spec fn row_id(v: InvoiceView) -> i64 {
        v.id
    }

    fn id(&self) -> i64 {
        self.id
    }
}

impl Record for Invoice {
    fn copy(&self) -> Invoice {
        Invoice {
            id: self.id,
            customer_id: self.customer_id,
            period_year: self.period_year,
            period_month: self.period_month,
            status: self.status,
            invoice_no: self.invoice_no.clone(),
            template_version: self.template_version.clone(),
            source_snapshot_json: self.source_snapshot_json.clone(),
            total_cents: self.total_cents,
            currency: self.currency.clone(),
            pdf_path_preview: copy_text(&self.pdf_path_preview),
            pdf_path_final: copy_text(&self.pdf_path_final),
            created_at: self.created_at.clone(),
            confirmed_at: copy_text(&self.confirmed_at),
            confirmed_by: self.confirmed_by,
            rejected_reason: copy_text(&self.rejected_reason),
        }
    }
}

/// Something that was done to an invoice.
#[derive(Debug, Clone)]
pub struct ActionRow {
    pub id: i64,
    pub invoice_id: i64,
    pub action: String,
    pub actor_user_id: Option<i64>,
    pub reason: Option<String>,
    pub at: String,
}

/// The mathematical value of a `ActionRow`.
#[verifier::ext_equal]
pub struct ActionView {
    pub id: i64,
    pub invoice_id: i64,
    pub action: Seq<char>,
    pub actor_user_id: Option<i64>,
    pub reason: Option<Seq<char>>,
    pub at: Seq<char>,
}

impl View for ActionRow {
    type V = ActionView;

    open spec fn view(&self) -> ActionView {
        ActionView {
            id: self.id,
            invoice_id: self.invoice_id,
            action: self.action@,
            actor_user_id: self.actor_user_id,
            reason: text::optional(self.reason),
            at: self.at@,
        }
    }
}

impl Row for ActionRow {
    open spec fn row_id(v: ActionView) -> i64 {
        v.id
    }

    fn id(&self) -> i64 {
        self.id
    }
}

impl Record for ActionRow {
    fn copy(&self) -> ActionRow {
        ActionRow {
            id: self.id,
            invoice_id: self.invoice_id,
            action: self.action.clone(),
            actor_user_id: self.actor_user_id,
            reason: copy_text(&self.reason),
            at: self.at.clone(),
        }
    }
}

/// A billing run: when it ran, for which month, and how it went.
#[derive(Debug, Clone)]
pub struct RunRow {
    pub id: i64,
    pub run_type: String,
    pub scheduled_for: String,
    pub started_at: String,
    pub finished_at: Option<String>,
    pub customers_total: u64,
    pub customers_succeeded: u64,
    pub customers_failed: u64,
    pub error_summary: Option<String>,
}

/// The mathematical value of a `RunRow`.
#[verifier::ext_equal]
pub struct RunView {
    pub id: i64,
    pub run_type: Seq<char>,
    pub scheduled_for: Seq<char>,
    pub started_at: Seq<char>,
    pub finished_at: Option<Seq<char>>,
    pub customers_total: u64,
    pub customers_succeeded: u64,
    pub customers_failed: u64,
    pub error_summary: Option<Seq<char>>,
}

impl View for RunRow {
    type V = RunView;

    open spec fn view(&self) -> RunView {
        RunView {
            id: self.id,
            run_type: self.run_type@,
            scheduled_for: self.scheduled_for@,
            started_at: self.started_at@,
            finished_at: text::optional(self.finished_at),
            customers_total: self.customers_total,
            customers_succeeded: self.customers_succeeded,
            customers_failed: self.customers_failed,
            error_summary: text::optional(self.error_summary),
        }
    }
}

impl Row for RunRow {
    open spec fn row_id(v: RunView) -> i64 {
        v.id
    }

    fn id(&self) -> i64 {
        self.id
    }
}

impl Record for RunRow {
    fn copy(&self) -> RunRow {
        RunRow {
            id: self.id,
            run_type: self.run_type.clone(),
            scheduled_for: self.scheduled_for.clone(),
            started_at: self.started_at.clone(),
            finished_at: copy_text(&self.finished_at),
            customers_total: self.customers_total,
            customers_succeeded: self.customers_succeeded,
            customers_failed: self.customers_failed,
            error_summary: copy_text(&self.error_summary),
        }
    }
}

/// Someone who may log in.
#[derive(Debug, Clone)]
pub struct User {
    pub id: i64,
    pub username: String,
    pub password_hash: String,
    pub role: String,
    pub is_active: bool,
}

/// The mathematical value of a `User`.
#[verifier::ext_equal]
pub struct UserView {
    pub id: i64,
    pub username: Seq<char>,
    pub password_hash: Seq<char>,
    pub role: Seq<char>,
    pub is_active: bool,
}

impl View for User {
    type V = UserView;

    open spec fn view(&self) -> UserView {
        UserView {
            id: self.id,
            username: self.username@,
            password_hash: self.password_hash@,
            role: self.role@,
            is_active: self.is_active,
        }
    }
}

impl Row for User {
    open spec fn row_id(v: UserView) -> i64 {
        v.id
    }

    fn id(&self) -> i64 {
        self.id
    }
}

impl Record for User {
    fn copy(&self) -> User {
        User {
            id: self.id,
            username: self.username.clone(),
            password_hash: self.password_hash.clone(),
            role: self.role.clone(),
            is_active: self.is_active,
        }
    }
}

/// When a user was created and last seen.
#[derive(Debug, Clone)]
pub struct LoginRow {
    pub user_id: i64,
    pub created_at: String,
    pub last_login_at: Option<String>,
}

/// The mathematical value of a `LoginRow`.
#[verifier::ext_equal]
pub struct LoginView {
    pub user_id: i64,
    pub created_at: Seq<char>,
    pub last_login_at: Option<Seq<char>>,
}

impl View for LoginRow {
    type V = LoginView;

    open spec fn view(&self) -> LoginView {
        LoginView {
            user_id: self.user_id,
            created_at: self.created_at@,
            last_login_at: text::optional(self.last_login_at),
        }
    }
}

impl Row for LoginRow {
    open spec fn row_id(v: LoginView) -> i64 {
        v.user_id
    }

    fn id(&self) -> i64 {
        self.user_id
    }
}

impl Record for LoginRow {
    fn copy(&self) -> LoginRow {
        LoginRow {
            user_id: self.user_id,
            created_at: self.created_at.clone(),
            last_login_at: copy_text(&self.last_login_at),
        }
    }
}

/// A setting.
#[derive(Debug, Clone)]
pub struct SettingRow {
    pub key: String,
    pub value: String,
    pub updated_at: String,
}

/// The mathematical value of a `SettingRow`.
#[verifier::ext_equal]
pub struct SettingView {
    pub key: Seq<char>,
    pub value: Seq<char>,
    pub updated_at: Seq<char>,
}

impl View for SettingRow {
    type V = SettingView;

    open spec fn view(&self) -> SettingView {
        SettingView {
            key: self.key@,
            value: self.value@,
            updated_at: self.updated_at@,
        }
    }
}

impl Record for SettingRow {
    fn copy(&self) -> SettingRow {
        SettingRow {
            key: self.key.clone(),
            value: self.value.clone(),
            updated_at: self.updated_at.clone(),
        }
    }
}

/// The last number that a sequence has given out.
#[derive(Debug, Clone)]
pub struct SequenceRow {
    pub name: String,
    pub next_value: i64,
}

/// The mathematical value of a `SequenceRow`.
#[verifier::ext_equal]
pub struct SequenceView {
    pub name: Seq<char>,
    pub next_value: i64,
}

impl View for SequenceRow {
    type V = SequenceView;

    open spec fn view(&self) -> SequenceView {
        SequenceView {
            name: self.name@,
            next_value: self.next_value,
        }
    }
}

impl Record for SequenceRow {
    fn copy(&self) -> SequenceRow {
        SequenceRow {
            name: self.name.clone(),
            next_value: self.next_value,
        }
    }
}

/// What was found in a template when it was last inspected.
#[derive(Debug, Clone)]
pub struct TemplateVersionRow {
    pub template_name: String,
    pub template_sha256: String,
    pub cell_map_json: String,
    pub drawing_anchors_json: String,
    pub last_validated_at: String,
    pub notes: Option<String>,
}

/// The mathematical value of a `TemplateVersionRow`.
#[verifier::ext_equal]
pub struct TemplateView {
    pub template_name: Seq<char>,
    pub template_sha256: Seq<char>,
    pub cell_map_json: Seq<char>,
    pub drawing_anchors_json: Seq<char>,
    pub last_validated_at: Seq<char>,
    pub notes: Option<Seq<char>>,
}

impl View for TemplateVersionRow {
    type V = TemplateView;

    open spec fn view(&self) -> TemplateView {
        TemplateView {
            template_name: self.template_name@,
            template_sha256: self.template_sha256@,
            cell_map_json: self.cell_map_json@,
            drawing_anchors_json: self.drawing_anchors_json@,
            last_validated_at: self.last_validated_at@,
            notes: text::optional(self.notes),
        }
    }
}

impl Record for TemplateVersionRow {
    fn copy(&self) -> TemplateVersionRow {
        TemplateVersionRow {
            template_name: self.template_name.clone(),
            template_sha256: self.template_sha256.clone(),
            cell_map_json: self.cell_map_json.clone(),
            drawing_anchors_json: self.drawing_anchors_json.clone(),
            last_validated_at: self.last_validated_at.clone(),
            notes: copy_text(&self.notes),
        }
    }
}

impl Customer {
    /// The billing address, empty where there is none.
    pub fn billing_address_or(&self) -> (r: &str)
        ensures
            r@ == (match self@.billing_address {
                Some(t) => t,
                None => ""@,
            }),
    {
        match &self.billing_address {
            Some(t) => t.as_str(),
            None => "",
        }
    }

    /// The e-mail address, empty where there is none.
    pub fn contact_email_or(&self) -> (r: &str)
        ensures
            r@ == (match self@.contact_email {
                Some(t) => t,
                None => ""@,
            }),
    {
        match &self.contact_email {
            Some(t) => t.as_str(),
            None => "",
        }
    }

    /// The name of the template, empty where there is none.
    pub fn template_name_or(&self) -> (r: &str)
        ensures
            r@ == (match self@.template_name {
                Some(t) => t,
                None => ""@,
            }),
    {
        match &self.template_name {
            Some(t) => t.as_str(),
            None => "",
        }
    }

    /// What is known of the company, an empty object where nothing is.
    pub fn company_info_json_or(&self) -> (r: &str)
        ensures
            r@ == (if self.company_info_json@.len() == 0 {
                "{}"@
            } else {
                self.company_info_json@
            }),
    {
        if text::chars_of(&self.company_info_json).len() == 0 {
            "{}"
        } else {
            self.company_info_json.as_str()
        }
    }
}

/// The word for each status.
pub proof fn law_status_words()
    ensures
        status_word(InvoiceStatus::Generating) == "generating"@,
        status_word(InvoiceStatus::Preview) == "preview"@,
        status_word(InvoiceStatus::Confirming) == "confirming"@,
        status_word(InvoiceStatus::Final) == "final"@,
        status_word(InvoiceStatus::Failed) == "failed"@,
        status_word(InvoiceStatus::Rejected) == "rejected"@,
{
}

/// A borrowed text is kept as it is, and no text stays none.
pub proof fn law_borrowed(t: Option<&str>)
    ensures
        t matches Some(x) ==> borrowed(t) == Some(x@),
        t is None ==> borrowed(t) is None,
{
}

/// Every field of a row shows in its value.
pub proof fn law_rows_are_seen_whole(
    server: LibreNmsInstance,
    customer: Customer,
    port: Port,
    rate: Rate,
    invoice: Invoice,
    action: ActionRow,
    run: RunRow,
    user: User,
    login: LoginRow,
    setting: SettingRow,
    sequence: SequenceRow,
    template: TemplateVersionRow,
)
    ensures
        server@.id == server.id,
        server@.name == server.name@,
        server@.url == server.url@,
        server@.api_token_enc == server.api_token_enc@,
        server@.is_active == server.is_active,
        server@.created_at == server.created_at@,
        customer@.id == customer.id,
        customer@.internal_key == customer.internal_key@,
        customer@.name == customer.name@,
        customer@.currency == customer.currency@,
        customer@.librenms_instance_id == customer.librenms_instance_id,
        customer@.librenms_bill_id == customer.librenms_bill_id,
        customer@.timezone == customer.timezone@,
        customer@.company_type == customer.company_type@,
        customer@.company_info_json == customer.company_info_json@,
        customer@.company_info_schema_version == customer.company_info_schema_version,
        customer.billing_address matches Some(t) ==> customer@.billing_address == Some(t@),
        customer.billing_address is None ==> customer@.billing_address is None,
        customer.contact_email matches Some(t) ==> customer@.contact_email == Some(t@),
        customer.contact_email is None ==> customer@.contact_email is None,
        customer.template_name matches Some(t) ==> customer@.template_name == Some(t@),
        customer.template_name is None ==> customer@.template_name is None,
        customer@.is_active == customer.is_active,
        customer@.created_at == customer.created_at@,
        port@.id == port.id,
        port@.customer_id == port.customer_id,
        port@.port_label == port.port_label@,
        port@.ip_count_a == port.ip_count_a,
        port@.ip_count_b == port.ip_count_b,
        port@.machine_rent == port.machine_rent,
        port@.machine_hosting == port.machine_hosting,
        port@.librenms_bill_id == port.librenms_bill_id,
        port.notes matches Some(t) ==> port@.notes == Some(t@),
        port.notes is None ==> port@.notes is None,
        rate@.id == rate.id,
        rate@.customer_id == rate.customer_id,
        rate@.effective_from == rate.effective_from@,
        rate.effective_to matches Some(t) ==> rate@.effective_to == Some(t@),
        rate.effective_to is None ==> rate@.effective_to is None,
        rate@.mbps_unit_price_cents == rate.mbps_unit_price_cents,
        rate@.ip_unit_price_cents == rate.ip_unit_price_cents,
        rate@.ip_quantity == rate.ip_quantity,
        rate@.machine_rent_cents == rate.machine_rent_cents,
        rate@.machine_hosting_cents == rate.machine_hosting_cents,
        rate@.currency == rate.currency@,
        rate@.librenms_bill_id == rate.librenms_bill_id,
        rate.business_label matches Some(t) ==> rate@.business_label == Some(t@),
        rate.business_label is None ==> rate@.business_label is None,
        rate@.notes == rate.notes@,
        invoice@.id == invoice.id,
        invoice@.customer_id == invoice.customer_id,
        invoice@.period_year == invoice.period_year,
        invoice@.period_month == invoice.period_month,
        invoice@.status == invoice.status,
        invoice@.invoice_no == invoice.invoice_no@,
        invoice@.template_version == invoice.template_version@,
        invoice@.source_snapshot_json == invoice.source_snapshot_json@,
        invoice@.total_cents == invoice.total_cents,
        invoice@.currency == invoice.currency@,
        invoice.pdf_path_preview matches Some(t) ==> invoice@.pdf_path_preview == Some(t@),
        invoice.pdf_path_preview is None ==> invoice@.pdf_path_preview is None,
        invoice.pdf_path_final matches Some(t) ==> invoice@.pdf_path_final == Some(t@),
        invoice.pdf_path_final is None ==> invoice@.pdf_path_final is None,
        invoice@.created_at == invoice.created_at@,
        invoice.confirmed_at matches Some(t) ==> invoice@.confirmed_at == Some(t@),
        invoice.confirmed_at is None ==> invoice@.confirmed_at is None,
        invoice@.confirmed_by == invoice.confirmed_by,
        invoice.rejected_reason matches Some(t) ==> invoice@.rejected_reason == Some(t@),
        invoice.rejected_reason is None ==> invoice@.rejected_reason is None,
        action@.id == action.id,
        action@.invoice_id == action.invoice_id,
        action@.action == action.action@,
        action@.actor_user_id == action.actor_user_id,
        action.reason matches Some(t) ==> action@.reason == Some(t@),
        action.reason is None ==> action@.reason is None,
        action@.at == action.at@,
        run@.id == run.id,
        run@.run_type == run.run_type@,
        run@.scheduled_for == run.scheduled_for@,
        run@.started_at == run.started_at@,
        run.finished_at matches Some(t) ==> run@.finished_at == Some(t@),
        run.finished_at is None ==> run@.finished_at is None,
        run@.customers_total == run.customers_total,
        run@.customers_succeeded == run.customers_succeeded,
        run@.customers_failed == run.customers_failed,
        run.error_summary matches Some(t) ==> run@.error_summary == Some(t@),
        run.error_summary is None ==> run@.error_summary is None,
        user@.id == user.id,
        user@.username == user.username@,
        user@.password_hash == user.password_hash@,
        user@.role == user.role@,
        user@.is_active == user.is_active,
        login@.user_id == login.user_id,
        login@.created_at == login.created_at@,
        login.last_login_at matches Some(t) ==> login@.last_login_at == Some(t@),
        login.last_login_at is None ==> login@.last_login_at is None,
        setting@.key == setting.key@,
        setting@.value == setting.value@,
        setting@.updated_at == setting.updated_at@,
        sequence@.name == sequence.name@,
        sequence@.next_value == sequence.next_value,
        template@.template_name == template.template_name@,
        template@.template_sha256 == template.template_sha256@,
        template@.cell_map_json == template.cell_map_json@,
        template@.drawing_anchors_json == template.drawing_anchors_json@,
        template@.last_validated_at == template.last_validated_at@,
        template.notes matches Some(t) ==> template@.notes == Some(t@),
        template.notes is None ==> template@.notes is None,
{
}

} // verus!
