//! The tables: what is kept and what is refused.
use lnms_invoice::store::migrations::{migration_error, pending, statements};
use lnms_invoice::store::runs::NewRun;
use lnms_invoice::store::settings::{after_failed_number, is_transient, SequenceStep};
use lnms_invoice::store::{
    CustomerFullUpdate, NewCustomer, NewCustomerFull, NewRate, Rate, Store,
};
use lnms_invoice::Error;

fn new_customer<'a>(key: &'a str, name: &'a str, instance: i64, bill: i64) -> NewCustomer<'a> {
    NewCustomer {
        internal_key: key,
        name,
        currency: "CNY",
        librenms_instance_id: instance,
        librenms_bill_id: bill,
        timezone: "Asia/Shanghai",
        company_type: "domestic",
        company_info_json: "{}",
        company_info_schema_version: 1,
        billing_address: None,
        contact_email: None,
    }
}

fn new_rate<'a>(cid: i64, from: &'a str, to: Option<&'a str>, mbps: i64) -> NewRate<'a> {
    NewRate {
        customer_id: cid,
        effective_from: from,
        effective_to: to,
        mbps_unit_price_cents: mbps,
        ip_unit_price_cents: 0,
        ip_quantity: 0,
        machine_rent_cents: 0,
        machine_hosting_cents: 0,
        currency: "CNY",
        librenms_bill_id: None,
        business_label: None,
        notes: "",
    }
}

fn with_customer(key: &str) -> (Store, i64) {
    let mut store = Store::new();
    let lnms_id = store.insert_libre_nms_instance("main", "https://x", b"t", "now").unwrap();
    let cid = store.insert_customer(&new_customer(key, "AC", lnms_id, 1), "now").unwrap();
    (store, cid)
}

#[test]
fn test_libre_nms_instance_crud() {
    let mut store = Store::new();
    let id = store
        .insert_libre_nms_instance("main", "https://lnms.example.com", b"encrypted-token", "now")
        .unwrap();

    let list = store.list_active_libre_nms_instances();
    assert_eq!(list.len(), 1);
    assert_eq!(list[0].id, id);
    assert_eq!(list[0].name, "main");
    assert!(list[0].is_active);
    assert_eq!(list[0].api_token_enc, b"encrypted-token");
}

#[test]
fn servers_change_and_go() {
    let mut store = Store::new();
    let a = store.insert_libre_nms_instance("a", "https://a", b"", "t0").unwrap();
    let b = store.insert_libre_nms_instance("b", "https://b", b"x", "t0").unwrap();
    assert_eq!((a, b), (1, 2));
    assert_eq!(
        store.insert_libre_nms_instance("a", "", b"", "t0").unwrap_err().message(),
        "database error: insert librenms_instances: error returned from database: (code: 2067) UNIQUE constraint failed: librenms_instances.name"
    );

    store.update_librenms_instance(a, "c", "https://c", false).unwrap();
    assert!(store.update_librenms_instance(a, "b", "", true).is_err());
    let c = store.find_librenms_instance(a).unwrap();
    assert_eq!((c.name.as_str(), c.url.as_str(), c.is_active), ("c", "https://c", false));
    assert_eq!(c.created_at, "t0");

    assert_eq!(store.list_active_libre_nms_instances().len(), 1);
    assert_eq!(store.list_all_libre_nms_instances().len(), 2);
    store.set_librenms_instance_active(a, true);
    assert_eq!(store.list_active_libre_nms_instances().len(), 2);

    store.insert_customer(&new_customer("k", "K", b, 1), "now").unwrap();
    assert!(store.delete_librenms_instance(b).is_err());
    assert!(store.delete_librenms_instance(a).is_ok());
    assert!(store.find_librenms_instance(a).is_none());
    assert!(store.find_librenms_instance(b).is_some());
}

#[test]
fn a_token_is_set_by_value_or_by_variable() {
    let mut store = Store::new();
    let id = store.insert_libre_nms_instance("a", "https://a", b"", "now").unwrap();
    let none: Vec<String> = vec![];
    let set: Vec<String> = vec!["HOME".to_string(), "LNMS_TOKEN".to_string()];
    assert!(!store.librenms_instance_token_set(id, &set));
    store.update_librenms_instance_token(id, b"secret");
    assert!(store.librenms_instance_token_set(id, &none));
    store.update_librenms_instance_token(id, b"env:LNMS_TOKEN");
    assert!(store.librenms_instance_token_set(id, &set));
    assert!(!store.librenms_instance_token_set(id, &none));
    assert!(!store.librenms_instance_token_set(99, &set));
}

#[test]
fn test_customer_crud_and_internal_key_unique() {
    let mut store = Store::new();
    let lnms_id = store.insert_libre_nms_instance("main", "https://x", b"t", "now").unwrap();

    let new = NewCustomer {
        internal_key: "c-hunan-xx",
        name: "湖南XX网络",
        currency: "CNY",
        librenms_instance_id: lnms_id,
        librenms_bill_id: 42,
        timezone: "Asia/Shanghai",
        company_type: "domestic",
        company_info_json: r#"{"tax_id":"91430111MABPNXXXX"}"#,
        company_info_schema_version: 1,
        billing_address: Some("长沙市开福区"),
        contact_email: Some("ops@example.com"),
    };
    let id = store.insert_customer(&new, "now").unwrap();
    assert!(id > 0);

    let found = store.find_customer_by_internal_key("c-hunan-xx").expect("客户应存在");
    assert_eq!(found.id, id);
    assert_eq!(found.currency, "CNY");
    assert_eq!(found.librenms_bill_id, 42);
    assert_eq!(found.billing_address_or(), "长沙市开福区");
    assert_eq!(found.contact_email_or(), "ops@example.com");
    assert_eq!(found.template_name_or(), "");
    assert_eq!(found.company_info_json_or(), r#"{"tax_id":"91430111MABPNXXXX"}"#);
    assert!(found.is_active);

    let dup = store.insert_customer(&new, "now");
    assert!(dup.is_err(), "internal_key 唯一约束应生效");
}

#[test]
fn customers_that_do_not_fit_are_refused() {
    let (mut store, cid) = with_customer("a");
    let inst = store.find_customer_by_id(cid).unwrap().librenms_instance_id;
    let mut dollars = new_customer("b", "B", inst, 2);
    dollars.currency = "USD";
    assert!(store.insert_customer(&dollars, "now").is_err());
    let mut abroad = new_customer("b", "B", inst, 2);
    abroad.company_type = "us";
    assert!(store.insert_customer(&abroad, "now").is_err());
    assert!(store.insert_customer(&new_customer("b", "B", 77, 2), "now").is_err());
    assert!(store.insert_customer(&new_customer("b", "B", inst, 1), "now").is_err());
    assert_eq!(store.list_all_customers().len(), 1);
    assert!(store.insert_customer(&new_customer("b", "B", inst, 2), "now").is_ok());
}

#[test]
fn customers_change_and_go() {
    let (mut store, cid) = with_customer("a");
    let inst = store.find_customer_by_id(cid).unwrap().librenms_instance_id;
    let full = NewCustomerFull {
        internal_key: "b",
        name: "B",
        currency: "HKD",
        librenms_instance_id: inst,
        librenms_bill_id: 2,
        timezone: "Asia/Hong_Kong",
        company_type: "hk",
        company_info_json: "",
        company_info_schema_version: 1,
        billing_address: None,
        contact_email: None,
        template_name: Some("hk.xlsx"),
        is_active: false,
    };
    let b = store.insert_customer_full(&full, "now").unwrap();
    let row = store.find_customer_by_id(b).unwrap();
    assert_eq!(row.template_name_or(), "hk.xlsx");
    assert_eq!(row.company_info_json_or(), "{}");
    assert_eq!(store.count_customers_using_template("hk.xlsx"), 1);
    assert_eq!(store.count_customers_using_template("other.xlsx"), 0);
    assert_eq!(store.list_active_customers().len(), 1);
    store.set_customer_active(b, true);
    assert_eq!(store.list_active_customers().len(), 2);

    let change = CustomerFullUpdate {
        internal_key: "c",
        name: "C",
        currency: "CNY",
        librenms_instance_id: inst,
        librenms_bill_id: 3,
        timezone: "Asia/Shanghai",
        company_type: "domestic",
        company_info_json: "{}",
        company_info_schema_version: 2,
        billing_address: Some("x"),
        contact_email: None,
        template_name: None,
        is_active: true,
    };
    store.update_customer(b, &change).unwrap();
    assert!(store.find_customer_by_internal_key("b").is_none());
    assert_eq!(store.find_customer_by_internal_key("c").unwrap().id, b);
    assert!(store.update_customer(cid, &change).is_err());

    store.insert_port(b, "p", 0, 0, false, false, None).unwrap();
    store.insert_rate(&new_rate(b, "2026-01-01", None, 1)).unwrap();
    store.upsert_invoice_generating(cid, 2026, 8, "n", "v", "{}", "CNY", "now").unwrap();
    assert_eq!(
        store.delete_customer(cid).unwrap_err().message(),
        "database error: customer 1 仍被 1 个 invoices 引用,不可删除(归档需要)"
    );
    assert_eq!(
        store.delete_customer(b).unwrap_err().message(),
        "database error: customer 2 仍被 1 个 ports 引用,先删除 ports"
    );
    let port = store.list_ports_for_customer(b)[0].id;
    store.delete_port(port);
    assert!(store.delete_customer(b).is_err());
    let rate = store.list_rates_for_customer(b)[0].id;
    store.delete_rate(rate);
    store.delete_customer(b).unwrap();
    assert!(store.find_customer_by_id(b).is_none());
    assert!(store.find_customer_by_id(cid).is_some());
}

#[test]
fn test_port_crud() {
    let mut store = Store::new();
    let lnms_id = store.insert_libre_nms_instance("main", "https://x", b"t", "now").unwrap();
    let cid = store.insert_customer(&new_customer("c-1", "X", lnms_id, 1), "now").unwrap();

    let pid = store
        .insert_port_with_bill(cid, "华为BGP 3段", 8, 0, false, true, None, Some("备注"))
        .unwrap();

    let ports = store.list_ports_for_customer(cid);
    assert_eq!(ports.len(), 1);
    assert_eq!(ports[0].id, pid);
    assert_eq!(ports[0].port_label, "华为BGP 3段");
    assert_eq!(ports[0].ip_count_a, 8);
    assert!(!ports[0].machine_rent);
    assert!(ports[0].machine_hosting);
    assert_eq!(ports[0].notes.as_deref(), Some("备注"));
}

#[test]
fn ports_change_and_go() {
    let (mut store, cid) = with_customer("a");
    let p = store.insert_port(cid, "one", 1, 2, true, false, Some("n")).unwrap();
    let q = store.insert_port(cid, "two", 0, 0, false, false, None).unwrap();
    assert!(store.insert_port(cid, "one", 0, 0, false, false, None).is_err());
    assert!(store.insert_port(99, "x", 0, 0, false, false, None).is_err());
    assert!(store.update_port(q, "one", 0, 0, false, false, None, None).is_err());
    store.update_port(p, "uno", 3, 4, false, true, Some(9), None).unwrap();
    let row = store.find_port_by_id(p).unwrap();
    assert_eq!((row.port_label.as_str(), row.ip_count_a, row.ip_count_b), ("uno", 3, 4));
    assert_eq!((row.machine_rent, row.machine_hosting), (false, true));
    assert_eq!((row.librenms_bill_id, row.notes), (Some(9), None));
    store.delete_port(p);
    assert!(store.find_port_by_id(p).is_none());
    assert_eq!(store.list_ports_for_customer(cid).len(), 1);
}

#[test]
fn test_rate_lookup_at_period() {
    let mut store = Store::new();
    let lnms_id = store.insert_libre_nms_instance("main", "https://x", b"t", "now").unwrap();
    let cid = store.insert_customer(&new_customer("c-2", "Y", lnms_id, 1), "now").unwrap();

    store
        .insert_rate(&NewRate {
            customer_id: cid,
            effective_from: "2026-01-01",
            effective_to: Some("2026-06-30"),
            mbps_unit_price_cents: 4350,
            ip_unit_price_cents: 5000,
            ip_quantity: 0,
            machine_rent_cents: 0,
            machine_hosting_cents: 10000,
            currency: "CNY",
            librenms_bill_id: None,
            business_label: None,
            notes: "",
        })
        .unwrap();
    store
        .insert_rate(&NewRate {
            customer_id: cid,
            effective_from: "2026-07-01",
            effective_to: None,
            mbps_unit_price_cents: 5000,
            ip_unit_price_cents: 5000,
            ip_quantity: 0,
            machine_rent_cents: 0,
            machine_hosting_cents: 10000,
            currency: "CNY",
            librenms_bill_id: None,
            business_label: None,
            notes: "",
        })
        .unwrap();

    let r1 = store.find_rate_for_customer_at(cid, "2026-05-01").expect("5 月应找到费率");
    assert_eq!(r1.mbps_unit_price_cents, 4350);

    let r2 = store.find_rate_for_customer_at(cid, "2026-08-01").expect("8 月应找到费率");
    assert_eq!(r2.mbps_unit_price_cents, 5000);

    let r3 = store.find_rate_for_customer_at(cid, "2019-01-01");
    assert!(r3.is_none());
}

#[test]
fn test_next_sequence_atomic() {
    let mut store = Store::new();
    let a = store.next_sequence("invoice_no_2026_08", 1).unwrap();
    let b = store.next_sequence("invoice_no_2026_08", 1).unwrap();
    let c = store.next_sequence("invoice_no_2026_08", 1).unwrap();
    assert_eq!((a, b, c), (1, 2, 3));

    let d = store.next_sequence("other", 100).unwrap();
    assert_eq!(d, 100);
    let e = store.next_sequence("other", 100).unwrap();
    assert_eq!(e, 101);
}

#[test]
fn test_concurrent_sequence_increments() {
    let mut store = Store::new();
    let mut results: Vec<i64> = Vec::new();
    for _ in 0..50 {
        results.push(store.next_sequence("concurrent", 1).unwrap());
    }
    results.sort();
    let unique: std::collections::HashSet<i64> = results.iter().copied().collect();
    assert_eq!(unique.len(), 50, "并发取号应全部唯一,实际: {results:?}");
    assert_eq!(results[0], 1);
    assert_eq!(results[49], 50);
}

#[test]
fn a_sequence_can_be_used_up() {
    let mut store = Store::new();
    assert_eq!(store.next_sequence("s", i64::MAX).unwrap(), i64::MAX);
    assert!(store.next_sequence("s", 1).is_err());
    assert_eq!(store.next_sequence("t", 1).unwrap(), 1);
}

#[test]
fn busy_databases_are_waited_for() {
    let locked = || Error::Database("upsert sequence: database is locked".to_string());
    let broken = || Error::Database("disk on fire".to_string());
    assert!(is_transient(&locked()));
    assert!(is_transient(&Error::Database("(code: 14) unable to open".to_string())));
    assert!(!is_transient(&broken()));
    assert!(matches!(after_failed_number("n", 0, locked()), SequenceStep::Again(50)));
    assert!(matches!(after_failed_number("n", 48, locked()), SequenceStep::Again(50)));
    match after_failed_number("n", 49, locked()) {
        SequenceStep::Stop(e) => assert_eq!(
            e.message(),
            "database error: next_sequence(n): exhausted 50 retries on transient errors"
        ),
        _ => panic!("expected the end"),
    }
    match after_failed_number("n", 0, broken()) {
        SequenceStep::Stop(e) => assert_eq!(e.message(), "database error: disk on fire"),
        _ => panic!("expected the end"),
    }
}

#[test]
fn test_setting_get_returns_none_when_absent() {
    let store = Store::new();
    let v = store.get_setting("billing_day");
    assert!(v.is_none(), "未设置时应返回 None");
}

#[test]
fn test_setting_set_then_get_roundtrip() {
    let mut store = Store::new();
    store.set_setting("billing_day", "5", "now");
    let v = store.get_setting("billing_day");
    assert_eq!(v.as_deref(), Some("5"));

    store.set_setting("billing_day", "10", "now");
    let v2 = store.get_setting("billing_day");
    assert_eq!(v2.as_deref(), Some("10"));
}

#[test]
fn test_setting_keys_are_independent() {
    let mut store = Store::new();
    store.set_setting("billing_day", "3", "now");
    store.set_setting("billing_hour", "14", "now");
    store.set_setting("invoice_no_template", "INV-{KEY}-{YYYY}-{MM}-{SEQ}", "now");
    assert_eq!(store.get_setting("billing_day").as_deref(), Some("3"));
    assert_eq!(store.get_setting("billing_hour").as_deref(), Some("14"));
    assert_eq!(
        store.get_setting("invoice_no_template").as_deref(),
        Some("INV-{KEY}-{YYYY}-{MM}-{SEQ}")
    );
    assert!(store.get_setting("not_a_thing").is_none());
}

#[test]
fn test_has_invoice_for_period_false_when_no_invoices() {
    let store = Store::new();
    let has = store.has_invoice_for_period(/* customer_id = */ 1, 2026, 8);
    assert!(!has, "无发票时必须返回 false(否则会重复出账)");
}

#[test]
fn test_has_invoice_for_period_true_after_insert() {
    let mut store = Store::new();
    let lnms_id = store.insert_libre_nms_instance("main", "https://x", b"t", "now").unwrap();
    let customer_id =
        store.insert_customer(&new_customer("c-1", "C", lnms_id, 42), "now").unwrap();
    let other = store.insert_customer(&new_customer("c-2", "C2", lnms_id, 43), "now").unwrap();

    store
        .upsert_invoice_generating(
            customer_id,
            2026,
            8,
            "INV-c-1-2026-08-0001",
            "stub",
            "{}",
            "CNY",
            "now",
        )
        .unwrap();

    assert!(
        store.has_invoice_for_period(customer_id, 2026, 8),
        "已插发票必须返回 true"
    );
    assert!(!store.has_invoice_for_period(customer_id, 2026, 7));
    assert!(!store.has_invoice_for_period(other, 2026, 8));
}

fn starting<'a>(rates: &'a [Rate], from: &str) -> &'a Rate {
    rates.iter().find(|r| r.effective_from == from).unwrap()
}

#[test]
fn test_insert_rate_closes_overlapping_open_prev() {
    let (mut store, cid) = with_customer("auto-close");
    store.insert_rate(&new_rate(cid, "2026-01-01", None, 1000)).unwrap();
    store.insert_rate(&new_rate(cid, "2026-08-15", None, 2000)).unwrap();

    let rates = store.list_rates_for_customer(cid);
    assert_eq!(rates.len(), 2, "应有 2 条费率");
    let prev = starting(&rates, "2026-01-01");
    assert_eq!(
        prev.effective_to.as_deref(),
        Some("2026-08-14"),
        "上一条 open-ended 应收尾为新 effective_from - 1 天"
    );
    let newer = starting(&rates, "2026-08-15");
    assert_eq!(newer.effective_to, None, "新插入那条 effective_to 不变");

    let r_aug = store.find_rate_for_customer_at(cid, "2026-08-15").unwrap();
    assert_eq!(r_aug.mbps_unit_price_cents, 2000);
    let r_jul = store.find_rate_for_customer_at(cid, "2026-07-01").unwrap();
    assert_eq!(r_jul.mbps_unit_price_cents, 1000);
    let r_13 = store.find_rate_for_customer_at(cid, "2026-08-13").unwrap();
    assert_eq!(r_13.mbps_unit_price_cents, 1000);
    let r_14 = store.find_rate_for_customer_at(cid, "2026-08-14").unwrap();
    assert_eq!(r_14.mbps_unit_price_cents, 1000);
}

#[test]
fn test_insert_rate_skips_when_prev_already_closed() {
    let (mut store, cid) = with_customer("already-closed");
    store.insert_rate(&new_rate(cid, "2026-01-01", Some("2026-06-30"), 1000)).unwrap();
    store.insert_rate(&new_rate(cid, "2026-07-01", None, 2000)).unwrap();

    let rates = store.list_rates_for_customer(cid);
    let prev = starting(&rates, "2026-01-01");
    assert_eq!(
        prev.effective_to.as_deref(),
        Some("2026-06-30"),
        "已明确收尾的不应被覆盖"
    );
}

#[test]
fn a_rate_of_one_customer_leaves_others_alone() {
    let (mut store, a) = with_customer("a");
    let inst = store.find_customer_by_id(a).unwrap().librenms_instance_id;
    let b = store.insert_customer(&new_customer("b", "B", inst, 2), "now").unwrap();
    store.insert_rate(&new_rate(a, "2026-01-01", None, 1)).unwrap();
    store.insert_rate(&new_rate(b, "2026-03-01", None, 2)).unwrap();
    assert_eq!(store.list_rates_for_customer(a)[0].effective_to, None);
    assert_eq!(store.list_all_rates().len(), 2);
    assert_eq!(store.find_rate_for_customer_at(a, "2026-04-01").unwrap().mbps_unit_price_cents, 1);
    let id = store.find_rate_for_customer_at(b, "2026-04-01").unwrap().id;
    store.delete_rate(id);
    assert!(store.find_rate_for_customer_at(b, "2026-04-01").is_none());
}

#[test]
fn rates_that_do_not_fit_are_refused() {
    let (mut store, cid) = with_customer("a");
    assert!(store.insert_rate(&new_rate(99, "2026-01-01", None, 1)).is_err());
    assert!(store.insert_rate(&new_rate(cid, "2026-01-02", Some("2026-01-01"), 1)).is_err());
    store.insert_rate(&new_rate(cid, "2026-01-01", None, 1)).unwrap();
    assert!(store.insert_rate(&new_rate(cid, "2026-01-02", None, 2)).is_err());
    let rates = store.list_rates_for_customer(cid);
    assert_eq!(rates.len(), 1);
    assert_eq!(rates[0].effective_to, None);
}

#[test]
fn runs_are_recorded_with_a_known_reason() {
    let mut store = Store::new();
    let run = |t: &'static str| NewRun {
        run_type: t,
        scheduled_for: "2026-08",
        started_at: "a",
        finished_at: None,
        customers_total: 3,
        customers_succeeded: 0,
        customers_failed: 0,
        error_summary: Some("none"),
    };
    assert_eq!(store.insert_invoice_run(&run("recovery")).unwrap(), 1);
    assert_eq!(
        store.insert_invoice_run(&run("whim")).unwrap_err().message(),
        "database error: insert invoice run: error returned from database: (code: 275) CHECK constraint failed: run_type IN ('scheduled','manual_replay','recovery')"
    );
    assert_eq!(store.runs[0].error_summary.as_deref(), Some("none"));
}

#[test]
fn numbers_can_run_out() {
    let mut store = Store::new();
    let id = store.insert_libre_nms_instance("a", "u", b"", "now").unwrap();
    assert_eq!(id, 1);
    store.instances[0].id = i64::MAX;
    assert_eq!(
        store.insert_libre_nms_instance("b", "u", b"", "now").unwrap_err().message(),
        "database error: insert librenms_instances: error returned from database: (code: 13) database or disk is full"
    );
}

#[test]
fn scripts_fall_into_statements() {
    assert_eq!(
        statements("-- head; not a statement\nCREATE TABLE a (x);\n\nINSERT INTO a\nVALUES (1);"),
        vec!["CREATE TABLE a (x)".to_string(), "INSERT INTO a\nVALUES (1)".to_string()]
    );
    assert!(statements("  \n-- only words\n").is_empty());
}

#[test]
fn each_change_is_made_once() {
    let all = vec![("0001", "A;"), ("0002", "B; C;")];
    let first = pending(&all, &vec![]);
    assert_eq!(first.len(), 2);
    assert_eq!(first[1].statements, vec!["B".to_string(), "C".to_string()]);
    let second = pending(&all, &vec!["0001".to_string()]);
    assert_eq!(second.len(), 1);
    assert_eq!(second[0].name, "0002");
    assert!(pending(&all, &vec!["0002".to_string(), "0001".to_string()]).is_empty());
    assert_eq!(
        migration_error("0001", "no", "A").message(),
        "database error: migration 0001 failed: no\nstatement: A"
    );
}
