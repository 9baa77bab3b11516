//! Users, invoices and what becomes of them.
use lnms_invoice::store::{InvoiceStatus, NewCustomer, Store};

fn make_customer(store: &mut Store, key: &str) -> i64 {
    let inst_id =
        store.insert_libre_nms_instance("inst1", "https://nms.example/", &[0u8], "now").unwrap();
    store
        .insert_customer(
            &NewCustomer {
                internal_key: key,
                name: &format!("{key} 客户"),
                currency: "CNY",
                librenms_instance_id: inst_id,
                librenms_bill_id: 1,
                timezone: "Asia/Shanghai",
                company_type: "domestic",
                company_info_json: "{}",
                company_info_schema_version: 1,
                billing_address: None,
                contact_email: None,
            },
            "now",
        )
        .unwrap()
}

#[test]
fn test_user_insert_and_lookup() {
    let mut store = Store::new();
    let id = store.insert_user("admin", "$argon2id$dummy", "admin", "now").unwrap();
    let u = store.find_user_by_username("admin").unwrap();
    assert_eq!(u.id, id);
    assert_eq!(u.username, "admin");
    assert_eq!(u.role, "admin");
    assert!(u.is_active);

    assert!(store.find_user_by_username("nope").is_none());
}

#[test]
fn test_user_last_login() {
    let mut store = Store::new();
    let id = store.insert_user("ops", "hash", "operator", "now").unwrap();
    store.update_user_last_login(id, "later");
    assert_eq!(store.logins[0].last_login_at.as_deref(), Some("later"));
    assert_eq!(store.logins[0].created_at, "now");
}

#[test]
fn users_that_do_not_fit_are_refused() {
    let mut store = Store::new();
    let id = store.insert_user("a", "h", "viewer", "now").unwrap();
    assert!(store.insert_user("a", "h", "viewer", "now").is_err());
    assert!(store.insert_user("b", "h", "root", "now").is_err());
    assert_eq!(store.count_users(), 1);
    assert_eq!(store.find_user_by_id(id).unwrap().password_hash, "h");
    assert!(store.find_user_by_id(id + 1).is_none());
}

#[test]
fn test_invoice_lifecycle_happy_path() {
    let mut store = Store::new();
    let cust = make_customer(&mut store, "A");
    let user_id = store.insert_user("admin", "hash", "admin", "now").unwrap();
    let id = store
        .upsert_invoice_generating(
            cust,
            2026,
            8,
            "INV-A-2026-08-0001",
            "v0.4",
            r#"{"customer":"A","total":12700}"#,
            "CNY",
            "now",
        )
        .unwrap();

    store.update_invoice_preview(id, 1270000, "/tmp/preview.pdf").unwrap();

    let inv = store.find_invoice(id).unwrap();
    assert_eq!(inv.status, InvoiceStatus::Preview);
    assert_eq!(inv.total_cents, Some(1270000));
    assert_eq!(inv.pdf_path_preview.as_deref(), Some("/tmp/preview.pdf"));
    assert!(inv.pdf_path_final.is_none());
    assert!(inv.confirmed_at.is_none());

    store.record_action(id, "preview_generated", None, None, "now").unwrap();

    store.update_invoice_confirmed(id, "/tmp/final.pdf", user_id, "then").unwrap();

    let inv = store.find_invoice(id).unwrap();
    assert_eq!(inv.status, InvoiceStatus::Final);
    assert_eq!(inv.pdf_path_final.as_deref(), Some("/tmp/final.pdf"));
    assert_eq!(inv.confirmed_by, Some(user_id));
    assert!(inv.confirmed_at.is_some());

    store.record_action(id, "confirmed", Some(user_id), None, "now").unwrap();
    assert_eq!(store.actions.len(), 2);
}

#[test]
fn test_invoice_rejected_branch() {
    let mut store = Store::new();
    let cust = make_customer(&mut store, "B");
    let user_id = store.insert_user("ops", "hash", "operator", "now").unwrap();
    let id = store
        .upsert_invoice_generating(
            cust,
            2026,
            8,
            "INV-B-2026-08-0002",
            "v0.4",
            "{}",
            "CNY",
            "now",
        )
        .unwrap();
    store.update_invoice_preview(id, 100, "/tmp/p.pdf").unwrap();
    store.update_invoice_rejected(id, "金额对不上").unwrap();
    store.record_action(id, "rejected", Some(user_id), Some("金额对不上"), "now").unwrap();

    let inv = store.find_invoice(id).unwrap();
    assert_eq!(inv.status, InvoiceStatus::Rejected);
    assert_eq!(inv.rejected_reason.as_deref(), Some("金额对不上"));
}

#[test]
fn test_invoice_failed_branch() {
    let mut store = Store::new();
    let cust = make_customer(&mut store, "C");
    let id = store
        .upsert_invoice_generating(cust, 2026, 8, "INV-2026-08-0003", "v0.4", "{}", "CNY", "now")
        .unwrap();
    store.update_invoice_failed(id).unwrap();
    let inv = store.find_invoice(id).unwrap();
    assert_eq!(inv.status, InvoiceStatus::Failed);
}

#[test]
fn test_invoice_upsert_same_month_overwrites() {
    let mut store = Store::new();
    let cust = make_customer(&mut store, "D");
    let id1 = store
        .upsert_invoice_generating(
            cust,
            2026,
            8,
            "INV-2026-08-OVERWRITE",
            "v0.4",
            "{\"first\":true}",
            "CNY",
            "now",
        )
        .unwrap();
    let id2 = store
        .upsert_invoice_generating(
            cust,
            2026,
            8,
            "INV-2026-08-OVERWRITE-V2",
            "v0.4",
            "{\"second\":true}",
            "CNY",
            "now",
        )
        .unwrap();
    assert_eq!(id1, id2, "同 customer+月应覆盖而非新建");

    let fetched = store.find_invoice_for_customer_month(cust, 2026, 8).unwrap();
    assert_eq!(fetched.invoice_no, "INV-2026-08-OVERWRITE-V2");
    assert!(fetched.source_snapshot_json.contains("second"));
}

#[test]
fn test_invoice_list_ordering_desc() {
    let mut store = Store::new();
    let cust = make_customer(&mut store, "E");
    store.upsert_invoice_generating(cust, 2026, 6, "x-6", "v", "{}", "CNY", "now").unwrap();
    store.upsert_invoice_generating(cust, 2026, 8, "x-8", "v", "{}", "CNY", "now").unwrap();
    store.upsert_invoice_generating(cust, 2026, 7, "x-7", "v", "{}", "CNY", "now").unwrap();
    let list = store.list_invoices_for_customer(cust);
    assert_eq!(list.len(), 3);
    assert_eq!((list[0].period_year, list[0].period_month), (2026, 8));
    assert_eq!((list[1].period_year, list[1].period_month), (2026, 7));
    assert_eq!((list[2].period_year, list[2].period_month), (2026, 6));
}

#[test]
fn test_invoice_status_parse_roundtrip() {
    for s in [
        InvoiceStatus::Generating,
        InvoiceStatus::Preview,
        InvoiceStatus::Confirming,
        InvoiceStatus::Final,
        InvoiceStatus::Failed,
        InvoiceStatus::Rejected,
    ] {
        let parsed = InvoiceStatus::parse(s.as_str()).unwrap();
        assert_eq!(parsed, s);
    }
    assert!(InvoiceStatus::parse("nope").is_err());
    assert_eq!(
        InvoiceStatus::parse("nope").unwrap_err().message(),
        "database error: unknown invoice status: nope"
    );
}

#[test]
fn only_a_preview_is_confirmed_or_rejected() {
    let mut store = Store::new();
    let cust = make_customer(&mut store, "F");
    let user = store.insert_user("a", "h", "admin", "now").unwrap();
    let id = store
        .upsert_invoice_generating(cust, 2026, 8, "n-1", "v", "{}", "CNY", "now")
        .unwrap();
    assert!(store.update_invoice_confirmed(id, "/f", user, "now").is_err());
    assert!(store.update_invoice_rejected(id, "why").is_err());
    store.update_invoice_preview(id, 1, "/p").unwrap();
    assert!(store.update_invoice_confirmed(id, "/f", user + 1, "now").is_err());
    store.update_invoice_confirmed(id, "/f", user, "now").unwrap();
    assert_eq!(
        store.update_invoice_confirmed(id, "/g", user, "now").unwrap_err().message(),
        "invalid state transition: invoice 1 is not in preview"
    );
    assert_eq!(store.find_invoice(id).unwrap().pdf_path_final.as_deref(), Some("/f"));
}

#[test]
fn invoices_that_do_not_fit_are_refused() {
    let mut store = Store::new();
    let cust = make_customer(&mut store, "G");
    let up = |s: &mut Store, c: i64, m: i64, no: &str| {
        s.upsert_invoice_generating(c, 2026, m, no, "v", "{}", "CNY", "now")
    };
    up(&mut store, cust, 1, "n-1").unwrap();
    assert!(up(&mut store, cust, 0, "n-0").is_err());
    assert!(up(&mut store, cust, 13, "n-13").is_err());
    assert!(up(&mut store, cust, 2, "n-1").is_err());
    assert!(up(&mut store, cust + 1, 2, "n-2").is_err());
    assert_eq!(store.list_invoices_for_customer(cust).len(), 1);
}

#[test]
fn actions_that_do_not_fit_are_refused() {
    let mut store = Store::new();
    let cust = make_customer(&mut store, "H");
    let id = store
        .upsert_invoice_generating(cust, 2026, 8, "n-1", "v", "{}", "CNY", "now")
        .unwrap();
    assert!(store.record_action(id, "shredded", None, None, "now").is_err());
    assert!(store.record_action(id, "failed", None, None, "now").is_err());
    assert!(store.record_action(id + 1, "running", None, None, "now").is_err());
    assert!(store.record_action(id, "running", Some(9), None, "now").is_err());
    assert!(store.record_action(id, "failed", None, Some("why"), "now").is_ok());
    assert_eq!(store.actions[0].reason.as_deref(), Some("why"));
}
