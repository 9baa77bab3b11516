//! The life of an invoice.
use lnms_invoice::recall::read_snapshot;
use lnms_invoice::render::PortLine;
use lnms_invoice::runner::{join_path, snapshot, InvoiceService};
use lnms_invoice::store::{InvoiceStatus, NewCustomer, Store};
use lnms_invoice::template::filled::check_filled;
use lnms_invoice::template::inspect::{RawCell, RawSheet};
use lnms_invoice::Error;

fn service() -> (InvoiceService, i64, i64) {
    let mut store = Store::new();
    let inst = store.insert_libre_nms_instance("main", "https://x", b"t", "now").unwrap();
    let cid = store
        .insert_customer(
            &NewCustomer {
                internal_key: "a",
                name: "客户 A",
                currency: "CNY",
                librenms_instance_id: inst,
                librenms_bill_id: 1,
                timezone: "Asia/Shanghai",
                company_type: "domestic",
                company_info_json: "{}",
                company_info_schema_version: 1,
                billing_address: None,
                contact_email: None,
            },
            "now",
        )
        .unwrap();
    let user = store.insert_user("admin", "h", "admin", "now").unwrap();
    let svc = InvoiceService::new(
        store,
        "/templates".to_string(),
        "/out".to_string(),
        "/profile".to_string(),
    );
    (svc, cid, user)
}

fn lines() -> Vec<PortLine> {
    vec![PortLine {
        label: "A \"1\"".to_string(),
        mbps_95th: Some(85),
        machine_rent: false,
        machine_hosting: true,
    }]
}

fn previewed() -> (InvoiceService, i64, i64) {
    let (mut svc, cid, user) = service();
    let started =
        svc.generate_preview(cid, 2026, 8, "INV-1", "t.xlsx", &lines(), 1150, "t1").unwrap();
    let id = svc
        .finish_preview(started.invoice_id, 1150, Ok(vec![]), "t2")
        .unwrap();
    (svc, id, user)
}

#[test]
fn paths_of_a_service() {
    let (svc, _, _) = service();
    assert_eq!(svc.template_root(), "/templates");
    assert_eq!(svc.template_path("t.xlsx"), "/templates/t.xlsx");
    assert_eq!(svc.work_dir("INV-1"), "/out/work/INV-1");
    assert_eq!(svc.preview_path(7, 2026, 8), "/out/2026/08/preview/7.pdf");
    assert_eq!(join_path("a/", "b"), "a/b");
    assert_eq!(join_path("a", "/b"), "/b");
    assert_eq!(join_path("", "b"), "b");
}

#[test]
fn what_an_invoice_was_made_from() {
    let text = snapshot(7, "k\\e\ny\u{1}", &lines(), 1150, 2026, 8);
    assert_eq!(
        text,
        "{\"customer\":\"k\\\\e\\ny\\u0001\",\"customer_id\":7,\"month\":8,\"ports\":[{\"label\":\"A \\\"1\\\"\",\"machine_hosting\":true,\"machine_rent\":false,\"mbps_95th\":85}],\"total_cents\":1150,\"year\":2026}"
    );
    let v: serde_json::Value = serde_json::from_str(&text).unwrap();
    assert_eq!(v["customer"], "k\\e\ny\u{1}");
    assert_eq!(v["ports"][0]["label"], "A \"1\"");
    assert_eq!(v["ports"][0]["mbps_95th"], 85);
    assert_eq!(v.to_string(), text);
}

#[test]
fn keys_that_differ_are_written_apart() {
    let keys = ["", "a", "\\", "\\\\", "\"", "\\\"", "\n", "\\n", "\u{1}", "\\u0001", "\u{7f}", "客"];
    for i in 0..keys.len() {
        let text = snapshot(1, keys[i], &vec![], 0, 2026, 8);
        let v: serde_json::Value = serde_json::from_str(&text).unwrap();
        assert_eq!(v["customer"], keys[i]);
        for j in 0..i {
            assert_ne!(text, snapshot(1, keys[j], &vec![], 0, 2026, 8));
        }
    }
}

#[test]
fn a_failure_leaves_the_last_preview_in_place() {
    let (mut svc, id, _) = previewed();
    let started = svc
        .generate_preview(
            svc.store().find_invoice(id).unwrap().customer_id,
            2026,
            8,
            "INV-1",
            "t.xlsx",
            &lines(),
            1150,
            "t3",
        )
        .unwrap();
    assert_eq!(started.invoice_id, id);
    let held = svc.store().find_invoice(id).unwrap().pdf_path_preview;
    let why = Error::Template("no paper".to_string());
    assert!(svc.finish_preview(id, 1150, Err(why), "t4").is_err());
    let inv = svc.store().find_invoice(id).unwrap();
    assert_eq!(inv.status, InvoiceStatus::Failed);
    assert_eq!(inv.pdf_path_preview, held);
    assert_eq!(inv.pdf_path_preview.as_deref(), Some("/out/2026/08/preview/1.pdf"));
}

#[test]
fn an_unknown_load_is_null() {
    let mut two = lines();
    two[0].mbps_95th = None;
    two.push(lines().remove(0));
    let v: serde_json::Value =
        serde_json::from_str(&snapshot(-1, "k", &two, -5, 2026, 12)).unwrap();
    assert!(v["ports"][0]["mbps_95th"].is_null());
    assert_eq!(v["ports"].as_array().unwrap().len(), 2);
    assert_eq!(v["total_cents"], -5);
    assert_eq!(snapshot(1, "k", &vec![], 0, 1, 1).contains("\"ports\":[]"), true);
}

#[test]
fn generating_starts_with_a_record() {
    let (mut svc, cid, _) = service();
    let started =
        svc.generate_preview(cid, 2026, 8, "INV-1", "t.xlsx", &lines(), 1150, "t1").unwrap();
    assert_eq!(started.data.invoice_no, "INV-1");
    assert_eq!(started.data.customer_name, "客户 A");
    assert_eq!(started.data.period_label, "2026-08");
    assert_eq!(started.data.total_cents, 1150);
    assert_eq!(started.data.currency, "CNY");
    assert_eq!(started.data.ports[0].label, "A \"1\"");
    let inv = svc.store().find_invoice(started.invoice_id).unwrap();
    assert_eq!(inv.status, InvoiceStatus::Generating);
    assert_eq!(inv.template_version, "file:t.xlsx");
    assert_eq!(inv.source_snapshot_json, snapshot(cid, "a", &lines(), 1150, 2026, 8));
    match svc.generate_preview(cid + 1, 2026, 8, "INV-2", "t.xlsx", &lines(), 1, "t1") {
        Err(e) => assert_eq!(e.message(), "not found: customer 2"),
        Ok(_) => panic!("expected no such customer"),
    }
}

#[test]
fn a_finished_preview_is_recorded() {
    let (svc, id, _) = previewed();
    let inv = svc.store().find_invoice(id).unwrap();
    assert_eq!(inv.status, InvoiceStatus::Preview);
    assert_eq!(inv.total_cents, Some(1150));
    assert_eq!(inv.pdf_path_preview.as_deref(), Some("/out/2026/08/preview/1.pdf"));
    assert_eq!(svc.store().actions.len(), 1);
    assert_eq!(svc.store().actions[0].action, "preview_generated");
}

#[test]
fn a_failed_preview_is_recorded_and_handed_on() {
    let (mut svc, cid, _) = service();
    let started =
        svc.generate_preview(cid, 2026, 8, "INV-1", "t.xlsx", &lines(), 1150, "t1").unwrap();
    let e = svc
        .finish_preview(
            started.invoice_id,
            1150,
            Err(Error::Template("no paper".to_string())),
            "t2",
        )
        .unwrap_err();
    assert_eq!(e.message(), "template error: no paper");
    assert_eq!(
        svc.store().find_invoice(started.invoice_id).unwrap().status,
        InvoiceStatus::Failed
    );
    assert_eq!(svc.store().actions[0].action, "failed");
    assert_eq!(svc.store().actions[0].reason.as_deref(), Some("template error: no paper"));
}

#[test]
fn confirming_moves_the_pdf_once() {
    let (mut svc, id, user) = previewed();
    let plan = svc.plan_confirm(id).unwrap();
    assert_eq!(plan.preview, "/out/2026/08/preview/1.pdf");
    assert_eq!(plan.target.as_deref(), Some("/out/2026/08/final/1.pdf"));
    assert_eq!(
        plan.approve(false, false).unwrap_err().message(),
        "not found: preview pdf /out/2026/08/preview/1.pdf"
    );
    assert_eq!(
        plan.approve(true, true).unwrap_err().message(),
        "already exists: final pdf /out/2026/08/final/1.pdf"
    );
    let target = plan.approve(true, false).unwrap();
    svc.confirm(id, &target, user, "t3").unwrap();
    let inv = svc.store().find_invoice(id).unwrap();
    assert_eq!(inv.status, InvoiceStatus::Final);
    assert_eq!(inv.confirmed_at.as_deref(), Some("t3"));
    match svc.plan_confirm(id) {
        Err(e) => assert_eq!(
            e.message(),
            "invalid state transition: confirm from final not allowed"
        ),
        Ok(_) => panic!("expected a refusal"),
    }
    assert_eq!(
        svc.confirm(id, &target, user, "t4").unwrap_err().message(),
        "invalid state transition: invoice 1 is not in preview"
    );
    assert_eq!(
        svc.reject(id, user, "late", "t4").unwrap_err().message(),
        "invalid state transition: reject from final not allowed"
    );
    match svc.regenerate(id, "t4") {
        Err(e) => assert_eq!(
            e.message(),
            "invalid state transition: regenerate from final not allowed"
        ),
        Ok(_) => panic!("expected a refusal"),
    }
}

#[test]
fn a_preview_without_a_name_cannot_be_moved() {
    let (mut svc, cid, _) = service();
    let id = svc
        .generate_preview(cid, 2026, 8, "INV-1", "t.xlsx", &lines(), 1, "t1")
        .unwrap()
        .invoice_id;
    svc.store.update_invoice_preview(id, 1, "/").unwrap();
    let plan = svc.plan_confirm(id).unwrap();
    assert_eq!(
        plan.approve(true, false).unwrap_err().message(),
        "internal: bad preview filename"
    );
}

#[test]
fn rejecting_needs_a_preview() {
    let (mut svc, id, user) = previewed();
    assert_eq!(svc.reject(id + 9, user, "x", "t3").unwrap_err().message(), "not found: invoice 10");
    svc.reject(id, user, "金额对不上", "t3").unwrap();
    let inv = svc.store().find_invoice(id).unwrap();
    assert_eq!(inv.status, InvoiceStatus::Rejected);
    assert_eq!(inv.rejected_reason.as_deref(), Some("金额对不上"));
    assert_eq!(svc.store().actions[1].reason.as_deref(), Some("金额对不上"));
}

#[test]
fn generating_again_keeps_number_and_template() {
    let (mut svc, id, user) = previewed();
    svc.reject(id, user, "x", "t3").unwrap();
    let before = svc.store().find_invoice(id).unwrap().source_snapshot_json;
    let again = svc.regenerate(id, "t4").unwrap();
    assert_eq!(again.ports.len(), 1);
    assert_eq!(again.ports[0].label, "A \"1\"");
    assert_eq!(again.ports[0].mbps_95th, Some(85));
    assert_eq!((again.ports[0].machine_rent, again.ports[0].machine_hosting), (false, true));
    assert_eq!(again.chart, Some(85));
    assert_eq!(again.invoice_no, "INV-1");
    assert_eq!(again.template_name, "t.xlsx");
    assert_eq!((again.year, again.month, again.total_cents), (2026, 8, 1150));
    assert_eq!(svc.store().actions[2].action, "preview_regenerated");
    let started = svc
        .generate_preview(
            again.customer_id,
            again.year,
            again.month,
            &again.invoice_no,
            &again.template_name,
            &again.ports,
            again.total_cents,
            "t5",
        )
        .unwrap();
    assert_eq!(started.invoice_id, id);
    assert_eq!(svc.store().find_invoice(id).unwrap().source_snapshot_json, before);
    assert_eq!(started.data.ports[0].label, "A \"1\"");
}

#[test]
fn a_record_that_cannot_be_read_gives_no_ports() {
    let (mut svc, id, _) = previewed();
    svc.store.invoices[0].source_snapshot_json = "{}".to_string();
    let again = svc.regenerate(id, "t3").unwrap();
    assert!(again.ports.is_empty());
    assert_eq!(again.chart, None);
}

#[test]
fn records_are_read_back() {
    let mut ports = lines();
    ports.push(PortLine {
        label: "\u{1}\u{1f}\t\n\r\u{8}\u{c}\\\"客 ],[".to_string(),
        mbps_95th: None,
        machine_rent: true,
        machine_hosting: false,
    });
    ports.push(PortLine {
        label: String::new(),
        mbps_95th: Some(i64::MIN),
        machine_rent: true,
        machine_hosting: true,
    });
    for n in 0..=ports.len() {
        let some: Vec<PortLine> = ports[..n].to_vec();
        let text = snapshot(-3, "k\"e\\y", &some, i64::MAX, i64::MIN, 12);
        let read = read_snapshot(&text).unwrap();
        assert_eq!((read.customer_id, read.key.as_str()), (-3, "k\"e\\y"));
        assert_eq!((read.total_cents, read.year, read.month), (i64::MAX, i64::MIN, 12));
        assert_eq!(read.ports.len(), n);
        for i in 0..n {
            assert_eq!(read.ports[i].label, some[i].label);
            assert_eq!(read.ports[i].mbps_95th, some[i].mbps_95th);
            assert_eq!(read.ports[i].machine_rent, some[i].machine_rent);
            assert_eq!(read.ports[i].machine_hosting, some[i].machine_hosting);
        }
        assert!(read_snapshot(&text[1..]).is_none());
        assert!(read_snapshot(&format!("{text} ")).is_none());
        assert!(read_snapshot(&text.replace("\"month\":12", "\"month\":012")).is_none());
    }
    assert!(read_snapshot("").is_none());
}

#[test]
fn a_rejection_must_say_why() {
    let (mut svc, id, user) = previewed();
    for reason in ["", "  ", "\t\n", "\u{3000}"] {
        assert!(svc.reject(id, user, reason, "t3").is_err());
        assert!(svc.store.update_invoice_rejected(id, reason).is_err());
        assert!(svc.store.record_action(id, "rejected", None, Some(reason), "t3").is_err());
    }
    assert_eq!(svc.store().find_invoice(id).unwrap().status, InvoiceStatus::Preview);
    assert_eq!(svc.store().actions.len(), 1);
    assert_eq!(svc.reject(id + 9, user, "", "t3").unwrap_err().message(), "not found: invoice 10");
    svc.reject(id, user, " no ", "t3").unwrap();
    assert_eq!(
        svc.reject(id, user, "", "t4").unwrap_err().message(),
        "invalid state transition: reject from rejected not allowed"
    );
}

#[test]
fn previews_and_final_files_stay_apart() {
    let (svc, _, _) = service();
    let mut paths: Vec<String> = Vec::new();
    for customer in [1, 2, 12, -1] {
        for (year, month) in [(2026, 8), (2026, 9), (2027, 8), (12026, 8)] {
            paths.push(svc.preview_path(customer, year, month));
        }
    }
    for i in 0..paths.len() {
        for j in 0..i {
            assert_ne!(paths[i], paths[j]);
        }
    }

    let (mut svc, first, user) = previewed();
    let cid = svc.store().find_invoice(first).unwrap().customer_id;
    let started =
        svc.generate_preview(cid, 2026, 9, "INV-2", "t.xlsx", &lines(), 1, "t3").unwrap();
    assert_eq!(started.preview_path, "/out/2026/09/preview/1.pdf");
    let second = svc.finish_preview(started.invoice_id, 1, Ok(vec![]), "t4").unwrap();
    let a = svc.plan_confirm(first).unwrap();
    let b = svc.plan_confirm(second).unwrap();
    assert_ne!(a.preview, b.preview);
    assert_eq!(b.target.as_deref(), Some("/out/2026/09/final/1.pdf"));
    assert_ne!(a.target, b.target);
    svc.confirm(first, "/out/2026/08/final/1.pdf", user, "t5").unwrap();
    svc.confirm(second, "/out/2026/09/final/1.pdf", user, "t5").unwrap();
    assert!(svc.store.update_invoice_confirmed(first, "/elsewhere.pdf", user, "t6").is_err());
    assert_eq!(
        svc.store().find_invoice(first).unwrap().pdf_path_final.as_deref(),
        Some("/out/2026/08/final/1.pdf")
    );
}

fn cell(col: u32, row: u32, data_type: &str, value: &str, formula: &str) -> RawCell {
    RawCell {
        col,
        row,
        data_type: data_type.to_string(),
        value: value.to_string(),
        formula: formula.to_string(),
    }
}

#[test]
fn sheets_that_are_not_filled_never_become_a_preview() {
    let good = RawSheet {
        name: "Invoice".to_string(),
        cells: vec![cell(1, 1, "s", "读取", ""), cell(2, 1, "n", "12", "A1+1"), cell(3, 1, "", "", "")],
    };
    let faulty = [
        (cell(5, 3, "s", "读取LNMS", ""), "cell Data!E3 holds 读取LNMS"),
        (cell(5, 4, "inlineStr", " 读取LNMS ", ""), "cell Data!E4 holds 读取LNMS"),
        (cell(15, 3, "e", "#VALUE!", "E3*F3"), "cell Data!O3 holds #VALUE!"),
        (cell(15, 4, "n", "0", "#VALUE!*2"), "cell Data!O4 holds #VALUE!"),
    ];
    assert!(check_filled(&vec![]).is_ok());
    assert!(check_filled(&vec![good.clone()]).is_ok());
    for (c, words) in faulty {
        let bad = RawSheet { name: "Data".to_string(), cells: vec![cell(1, 1, "n", "1", ""), c] };
        let sheets = vec![good.clone(), bad];
        let wanted = format!("template error: {words}");
        assert_eq!(check_filled(&sheets).unwrap_err().message(), wanted);

        let (mut svc, cid, _) = service();
        let id = svc
            .generate_preview(cid, 2026, 8, "INV-1", "t.xlsx", &lines(), 1150, "t1")
            .unwrap()
            .invoice_id;
        let e = svc.finish_preview(id, 1150, Ok(sheets), "t2").unwrap_err();
        assert_eq!(e.message(), wanted);
        let inv = svc.store().find_invoice(id).unwrap();
        assert_eq!(inv.status, InvoiceStatus::Failed);
        assert_eq!(inv.pdf_path_preview, None);
        assert_eq!(svc.store().actions[0].action, "failed");
        assert_eq!(svc.store().actions[0].reason, Some(wanted));
    }
    // Only a text is a placeholder.
    let shown = RawSheet { name: "x".to_string(), cells: vec![cell(1, 1, "n", "读取LNMS", "")] };
    assert!(check_filled(&vec![shown]).is_ok());
}
