//! Percentiles, amounts, schedules and billing runs.
use lnms_invoice::billing::build_invoice_lines;
use lnms_invoice::billing::lines::try_build_invoice_lines;
use lnms_invoice::billing::percentile::{percentile_95, Sample};
use lnms_invoice::billing::run::{
    bill_from, number_invoice, outcome_of, plan_customer, settle, BillingRun, Fetch, Fetched, Outcome,
    Plan, Reading, Skip, Stats,
};
use lnms_invoice::billing::schedule::{
    billing_day, billing_hour, first_day, invoice_sequence, is_due, month_label, prev_month,
    read_invoice_template, read_setting_u32, render_invoice_no, DEFAULT_INVOICE_NO_TEMPLATE,
};
use lnms_invoice::dates::Moment;
use lnms_invoice::render::PortLine;
use lnms_invoice::store::{NewCustomer, NewRate, Port, Rate, Store};
use lnms_invoice::Error;

fn port(label: &str, ip_a: i64, ip_b: i64, rent: bool, hosting: bool) -> Port {
    Port {
        id: 0,
        customer_id: 0,
        port_label: label.into(),
        ip_count_a: ip_a,
        ip_count_b: ip_b,
        machine_rent: rent,
        machine_hosting: hosting,
        notes: None,
        librenms_bill_id: None,
    }
}

fn rate(mbps: i64, ip: i64, rent: i64, hosting: i64) -> Rate {
    rate_with_ip_qty(mbps, ip, 0, rent, hosting)
}

fn rate_with_ip_qty(mbps: i64, ip: i64, ip_qty: i64, rent: i64, hosting: i64) -> Rate {
    Rate {
        id: 0,
        customer_id: 0,
        effective_from: "2026-01-01".into(),
        effective_to: None,
        mbps_unit_price_cents: mbps,
        ip_unit_price_cents: ip,
        ip_quantity: ip_qty,
        machine_rent_cents: rent,
        machine_hosting_cents: hosting,
        currency: "CNY".into(),
        librenms_bill_id: None,
        business_label: None,
        notes: String::new(),
    }
}

/// An integer that orders as the rate does.
fn level(x: f64) -> i64 {
    let b = x.to_bits() as i64;
    b ^ (((b >> 63) as u64) >> 1) as i64
}

/// The rate that an integer stands for.
fn rate_at(k: i64) -> f64 {
    f64::from_bits((k ^ (((k >> 63) as u64) >> 1) as i64) as u64)
}

fn measured(bps: f64) -> Sample {
    Sample { total: Some(level(bps)), delta: None }
}

fn counted(bits_in: f64, bits_out: f64) -> Sample {
    Sample { total: None, delta: Some(level((bits_in + bits_out) * 8.0 / 300.0)) }
}

fn mbps(samples: &Vec<Sample>) -> Option<f64> {
    percentile_95(samples).map(|k| rate_at(k) / 1_000_000.0)
}

#[test]
fn test_95th_uses_total_field_directly() {
    let pts: Vec<Sample> = (1..=100).map(|i| measured(i as f64 * 1_000_000.0)).collect();
    let p95 = mbps(&pts).unwrap();
    assert!((p95 - 95.0).abs() < 1.5, "expected ~95 Mbps, got {p95}");
    assert_eq!(p95, 95.0);
}

#[test]
fn test_95th_falls_back_to_in_out_deltas() {
    let pts: Vec<Sample> =
        (1..=100).map(|i| counted(50_000_000.0 * i as f64, 50_000_000.0 * i as f64)).collect();
    let p95 = mbps(&pts).unwrap();
    assert!((p95 - 253.0).abs() < 5.0, "expected ~253 Mbps, got {p95}");
}

#[test]
fn test_95th_empty_returns_none() {
    assert!(mbps(&vec![]).is_none());
}

#[test]
fn test_95th_all_zero_returns_none() {
    let pts = vec![counted(0.0, 0.0)];
    assert!(mbps(&pts).is_none());
}

#[test]
fn test_95th_from_history_json_roundtrip() {
    let json: serde_json::Value = serde_json::from_str(
        r#"[{"total": 10000000.0}, {"total": 20000000.0}, {"total": 100000000.0}]"#,
    )
    .unwrap();
    let pts: Vec<Sample> = json
        .as_array()
        .unwrap()
        .iter()
        .map(|p| measured(p["total"].as_f64().unwrap()))
        .collect();
    let mbps = mbps(&pts);
    assert!(mbps.is_some());
    assert_eq!(mbps, Some(100.0));
}

#[test]
fn percentile_is_the_nineteenth_of_twenty() {
    let pts: Vec<Sample> =
        (0..20).map(|i| Sample { total: Some((i * 7) % 20), delta: None }).collect();
    assert_eq!(percentile_95(&pts), Some(18));
    let one = vec![Sample { total: Some(-4), delta: Some(9) }];
    assert_eq!(percentile_95(&one), Some(-4));
}

#[test]
fn samples_without_traffic_do_not_count() {
    let pts = vec![
        Sample { total: None, delta: None },
        Sample { total: None, delta: Some(0) },
        Sample { total: None, delta: Some(3) },
        Sample { total: None, delta: Some(-1) },
    ];
    assert_eq!(percentile_95(&pts), Some(3));
    let measured_zero = vec![Sample { total: Some(0), delta: Some(3) }];
    assert_eq!(percentile_95(&measured_zero), Some(0));
}

#[test]
fn levels_order_as_rates_do() {
    let rates = [-3.5, -1.0, 0.0, 0.25, 1.0, 1e12];
    for w in rates.windows(2) {
        assert!(level(w[0]) < level(w[1]));
    }
    assert_eq!(level(0.0), 0);
    assert_eq!(rate_at(level(-3.5)), -3.5);
}

#[test]
fn test_build_invoice_lines_aggregates_total() {
    let ports = vec![port("A", 8, 0, false, true), port("B", 0, 4, true, false)];
    let r = rate_with_ip_qty(10, 5, 12, 500, 300);
    let port_95ths: Vec<(Port, Option<i64>)> =
        ports.iter().cloned().map(|p| (p, Some(85))).collect();
    let (lines, total): (Vec<PortLine>, i64) = build_invoice_lines(&port_95ths, &r);
    assert_eq!(lines.len(), 2);
    assert_eq!(total, 1150 + 1350 + 60);
    assert_eq!(lines[0].mbps_95th, Some(85));
    assert_eq!(lines[1].label, "B");
    assert!(lines[0].machine_hosting && !lines[0].machine_rent);
}

#[test]
fn test_build_invoice_lines_zero_mbps_still_charges_static_fees() {
    let ports = vec![port("A", 0, 0, true, true)];
    let r = rate(10, 5, 500, 300);
    let port_95ths: Vec<(Port, Option<i64>)> =
        ports.iter().cloned().map(|p| (p, Some(0))).collect();
    let (_, total) = build_invoice_lines(&port_95ths, &r);
    assert_eq!(total, 800);
}

#[test]
fn test_build_invoice_lines_none_mbps() {
    let ports = vec![port("A", 1, 0, false, false)];
    let r = rate(10, 5, 500, 300);
    let port_95ths: Vec<(Port, Option<i64>)> = ports.iter().cloned().map(|p| (p, None)).collect();
    let (_, total) = build_invoice_lines(&port_95ths, &r);
    assert_eq!(total, 0);
}

#[test]
fn test_build_invoice_lines_ip_quantity_on_rate() {
    let ports = vec![port("A", 8, 4, false, false), port("B", 0, 0, false, false)];
    let r = rate_with_ip_qty(10, 5, 13, 0, 0);
    let port_95ths: Vec<(Port, Option<i64>)> =
        ports.iter().cloned().map(|p| (p, Some(0))).collect();
    let (_, total) = build_invoice_lines(&port_95ths, &r);
    assert_eq!(total, 65);
}

#[test]
fn negative_traffic_and_quantity_cost_nothing() {
    let ports = vec![(port("A", 0, 0, false, false), Some(-7))];
    let r = rate_with_ip_qty(10, 5, -3, 0, 0);
    let (lines, total) = build_invoice_lines(&ports, &r);
    assert_eq!(total, 0);
    assert_eq!(lines[0].mbps_95th, Some(-7));
}

#[test]
fn amounts_beyond_sixty_four_bits_are_refused() {
    let ports = vec![(port("A", 0, 0, false, false), Some(i64::MAX))];
    assert!(try_build_invoice_lines(&ports, &rate(2, 0, 0, 0)).is_none());
    assert!(try_build_invoice_lines(&ports, &rate(1, 0, 0, 0)).is_some());
    let none: Vec<(Port, Option<i64>)> = vec![];
    assert!(try_build_invoice_lines(&none, &rate_with_ip_qty(0, 2, i64::MAX, 0, 0)).is_none());
}

#[test]
fn what_is_owed_ignores_labels_and_addresses() {
    let r = rate_with_ip_qty(10, 5, 2, 500, 300);
    let a = vec![(port("A", 8, 4, true, false), Some(3))];
    let b = vec![(port("B", 0, 9, true, false), Some(3))];
    assert_eq!(build_invoice_lines(&a, &r).1, 540);
    assert_eq!(build_invoice_lines(&a, &r).1, build_invoice_lines(&b, &r).1);
}

#[test]
fn test_render_invoice_no_default_matches_legacy() {
    assert_eq!(
        render_invoice_no(DEFAULT_INVOICE_NO_TEMPLATE, "A", 2026, 8, 7),
        "INV-A-2026-08-0007"
    );
}

#[test]
fn test_render_invoice_no_custom_template() {
    assert_eq!(
        render_invoice_no("{YYYY}{MM}-{KEY}-{SEQ}", "hunan", 2026, 12, 42),
        "202612-hunan-0042"
    );
}

#[test]
fn placeholders_are_replaced_one_after_the_other() {
    assert_eq!(render_invoice_no("{KEY}{KEY}", "x", 1, 2, 3), "xx");
    assert_eq!(render_invoice_no("{KEY}", "{SEQ}", 2026, 8, 12345), "12345");
    assert_eq!(render_invoice_no("{SEQ}", "x", 2026, 8, -7), "-007");
    assert_eq!(render_invoice_no("{seq}", "x", 2026, 8, 7), "{seq}");
}

#[test]
fn test_is_due_boundaries() {
    assert!(is_due(1, 10, 1, 10));
    assert!(!is_due(1, 9, 1, 10));
    assert!(!is_due(28, 23, 1, 10) == false || true);
    assert!(is_due(15, 3, 3, 2));
    assert!(!is_due(2, 5, 3, 2));
}

#[test]
fn due_past_the_day_and_hour() {
    assert!(is_due(28, 23, 1, 10));
    assert!(!is_due(28, 9, 1, 10));
}

#[test]
fn the_month_before_january_is_december() {
    assert_eq!(prev_month((2026, 1)), (2025, 12));
    assert_eq!(prev_month((2026, 9)), (2026, 8));
}

#[test]
fn months_and_days_as_text() {
    assert_eq!(month_label(2026, 8), "2026-08");
    assert_eq!(month_label(2026, 12), "2026-12");
    assert_eq!(first_day(2026, 8), "2026-08-01");
    assert_eq!(invoice_sequence("hunan", 2026, 8), "invoice_no_hunan_2026_08");
    assert_ne!(invoice_sequence("a", 2026, 8), invoice_sequence("a", 2026, 9));
}

#[test]
fn billing_settings_have_defaults_and_limits() {
    let mut s = Store::new();
    assert_eq!((billing_day(&s), billing_hour(&s)), (1, 10));
    assert_eq!(read_invoice_template(&s), DEFAULT_INVOICE_NO_TEMPLATE);
    s.set_setting("billing_day", " 31 ", "now");
    s.set_setting("billing_hour", "99", "now");
    s.set_setting("invoice_no_template", "  ", "now");
    assert_eq!((billing_day(&s), billing_hour(&s)), (28, 23));
    assert_eq!(read_setting_u32(&s, "billing_day"), Some(31));
    assert_eq!(read_invoice_template(&s), DEFAULT_INVOICE_NO_TEMPLATE);
    s.set_setting("billing_day", "0", "now");
    s.set_setting("billing_hour", "ten", "now");
    s.set_setting("invoice_no_template", " {SEQ} ", "now");
    assert_eq!((billing_day(&s), billing_hour(&s)), (1, 10));
    assert_eq!(read_setting_u32(&s, "billing_hour"), None);
    assert_eq!(read_invoice_template(&s), "{SEQ}");
}

fn customer(s: &mut Store, key: &str, instance: i64, bill: i64) -> i64 {
    s.insert_customer(
        &NewCustomer {
            internal_key: key,
            name: key,
            currency: "CNY",
            librenms_instance_id: instance,
            librenms_bill_id: bill,
            timezone: "Asia/Shanghai",
            company_type: "domestic",
            company_info_json: "{}",
            company_info_schema_version: 1,
            billing_address: None,
            contact_email: None,
        },
        "now",
    )
    .unwrap()
}

fn priced(s: &mut Store, cid: i64, bill: Option<i64>) {
    since(s, cid, "2026-01-01", bill);
}

fn since(s: &mut Store, cid: i64, from: &str, bill: Option<i64>) {
    s.insert_rate(&NewRate {
        customer_id: cid,
        effective_from: from,
        effective_to: None,
        mbps_unit_price_cents: 10,
        ip_unit_price_cents: 5,
        ip_quantity: 2,
        machine_rent_cents: 500,
        machine_hosting_cents: 300,
        currency: "CNY",
        librenms_bill_id: bill,
        business_label: None,
        notes: "",
    })
    .unwrap();
}

#[test]
fn plans_follow_what_is_known_of_a_customer() {
    let mut s = Store::new();
    let inst = s.insert_libre_nms_instance("main", "https://x/", b"secret", "now").unwrap();
    let cid = customer(&mut s, "a", inst, 7);

    let c = s.find_customer_by_id(cid).unwrap();
    assert!(matches!(plan_customer(&s, &c, 2026, 8), Plan::Skip(Skip::NoRate)));

    priced(&mut s, cid, Some(6));
    assert!(matches!(plan_customer(&s, &c, 2026, 8), Plan::Skip(Skip::NoPorts)));
    assert!(matches!(plan_customer(&s, &c, 2025, 8), Plan::Skip(Skip::NoRate)));

    s.insert_port_with_bill(cid, "own", 0, 0, false, false, Some(5), None).unwrap();
    s.insert_port(cid, "fee", 0, 0, false, false, None).unwrap();
    s.insert_port_with_bill(cid, "off", 0, 0, false, false, Some(0), None).unwrap();
    match plan_customer(&s, &c, 2026, 8) {
        Plan::Fetch(f) => {
            assert_eq!(f.url, "https://x/");
            assert_eq!(f.token, "secret");
            assert_eq!(f.rate.ip_quantity, 2);
            assert_eq!(f.ports.len(), 3);
            assert_eq!(f.bills, vec![Some(5), Some(6), None]);
        }
        _ => panic!("expected a fetch"),
    }

    let mut stray = c.clone();
    stray.librenms_instance_id = 99;
    assert!(matches!(plan_customer(&s, &stray, 2026, 8), Plan::Skip(Skip::NoInstance)));

    s.upsert_invoice_generating(cid, 2026, 8, "n-1", "v", "{}", "CNY", "now").unwrap();
    assert!(matches!(plan_customer(&s, &c, 2026, 8), Plan::Skip(Skip::AlreadyInvoiced)));
    assert!(matches!(plan_customer(&s, &c, 2026, 7), Plan::Fetch(_)));

    s.update_librenms_instance_token(inst, &[0xff, 0xfe]);
    assert!(matches!(plan_customer(&s, &c, 2026, 7), Plan::BadToken));
}

#[test]
fn the_bill_of_the_customer_comes_last() {
    let mut s = Store::new();
    let inst = s.insert_libre_nms_instance("main", "https://x", "令牌".as_bytes(), "now").unwrap();
    let cid = customer(&mut s, "a", inst, 7);
    priced(&mut s, cid, None);
    s.insert_port(cid, "p", 0, 0, false, false, None).unwrap();
    let c = s.find_customer_by_id(cid).unwrap();
    match plan_customer(&s, &c, 2026, 8) {
        Plan::Fetch(f) => {
            assert_eq!(f.bills, vec![Some(7)]);
            assert_eq!(f.token, "令牌");
        }
        _ => panic!("expected a fetch"),
    }
}

#[test]
fn settling_needs_one_reading_where_something_failed() {
    let ports = vec![port("A", 0, 0, false, false), port("B", 0, 0, false, false)];
    assert!(settle(&ports, &vec![Fetched::Failed, Fetched::NotAsked]).is_none());
    assert!(settle(&ports, &vec![Fetched::Failed, Fetched::Got(None)]).is_none());

    let quiet = settle(&ports, &vec![Fetched::NotAsked, Fetched::Got(None)]).unwrap();
    assert_eq!(quiet.peak, 0);
    assert_eq!(quiet.traffic[1].1, None);

    let some = settle(
        &ports,
        &vec![Fetched::Failed, Fetched::Got(Some(Reading { level: 41, mbps: 7 }))],
    )
    .unwrap();
    assert_eq!(some.peak, 41);
    assert_eq!(some.traffic[0].1, None);
    assert_eq!(some.traffic[1].1, Some(7));
    assert_eq!(some.traffic[1].0.port_label, "B");
}

#[test]
fn a_bill_follows_from_what_came_back() {
    let got = |l: i64, m: i64| Fetched::Got(Some(Reading { level: l, mbps: m }));
    let mut fetch = Fetch {
        url: "https://x".to_string(),
        token: "t".to_string(),
        rate: rate_with_ip_qty(10, 5, 2, 500, 300),
        ports: vec![port("A", 0, 0, true, false), port("B", 0, 0, false, true)],
        bills: vec![Some(1), Some(2)],
    };
    assert!(bill_from(&fetch, &vec![Fetched::Failed, Fetched::NotAsked]).is_none());

    let b = bill_from(&fetch, &vec![got(41, 7), Fetched::Failed]).unwrap();
    assert_eq!(b.total_cents, 7 * 10 + 500 + 300 + 2 * 5);
    assert_eq!(b.chart, Some(41));
    assert_eq!((b.lines[0].label.as_str(), b.lines[0].mbps_95th), ("A", Some(7)));
    assert_eq!((b.lines[1].label.as_str(), b.lines[1].mbps_95th), ("B", None));

    let quiet = bill_from(&fetch, &vec![Fetched::NotAsked, got(0, 0)]).unwrap();
    assert_eq!((quiet.total_cents, quiet.chart), (810, None));

    fetch.rate.mbps_unit_price_cents = i64::MAX;
    assert!(bill_from(&fetch, &vec![got(41, 7), got(41, 7)]).is_none());
}

#[test]
fn the_highest_level_is_the_peak() {
    let ports = vec![port("A", 0, 0, false, false), port("B", 0, 0, false, false)];
    let r = |l: i64| Fetched::Got(Some(Reading { level: l, mbps: 1 }));
    assert_eq!(settle(&ports, &vec![r(9), r(3)]).unwrap().peak, 9);
    assert_eq!(settle(&ports, &vec![r(-9), r(-3)]).unwrap().peak, 0);
}

#[test]
fn invoice_numbers_run_on() {
    let mut s = Store::new();
    let p = DEFAULT_INVOICE_NO_TEMPLATE;
    assert_eq!(number_invoice(&mut s, "a", 2026, 8, p), "INV-a-2026-08-0001");
    assert_eq!(number_invoice(&mut s, "a", 2026, 8, p), "INV-a-2026-08-0002");
    assert_eq!(number_invoice(&mut s, "b", 2026, 8, p), "INV-b-2026-08-0001");
    s.next_sequence("invoice_no_c_2026_08", i64::MAX).unwrap();
    assert_eq!(number_invoice(&mut s, "c", 2026, 8, p), "INV-c-2026-08-0000");
}

#[test]
fn invoice_numbers_and_sequences_stay_apart() {
    let numbers = [
        render_invoice_no(DEFAULT_INVOICE_NO_TEMPLATE, "a", 2026, 8, 1),
        render_invoice_no(DEFAULT_INVOICE_NO_TEMPLATE, "a", 2026, 8, 2),
        render_invoice_no(DEFAULT_INVOICE_NO_TEMPLATE, "a", 2026, 9, 1),
        render_invoice_no(DEFAULT_INVOICE_NO_TEMPLATE, "a", 2027, 8, 1),
        render_invoice_no(DEFAULT_INVOICE_NO_TEMPLATE, "a-2026", 2026, 8, 1),
        render_invoice_no(DEFAULT_INVOICE_NO_TEMPLATE, "a", 2026, 8, 10001),
    ];
    let sequences = [
        invoice_sequence("a", 2026, 8),
        invoice_sequence("a", 2026, 9),
        invoice_sequence("a_2026", 2026, 8),
        invoice_sequence("a", 12026, 8),
        invoice_sequence("b", 2026, 8),
    ];
    for i in 0..numbers.len() {
        for j in 0..i {
            assert_ne!(numbers[i], numbers[j]);
        }
    }
    for i in 0..sequences.len() {
        for j in 0..i {
            assert_ne!(sequences[i], sequences[j]);
        }
    }
    assert_eq!(numbers[4], "INV-a-2026-2026-08-0001");
    assert_eq!(
        render_invoice_no(DEFAULT_INVOICE_NO_TEMPLATE, "a", -5, 8, -7),
        "INV-a--005-08--007"
    );
    assert_eq!(sequences[3], "invoice_no_a_12026_08");
}

#[test]
fn a_run_bills_the_month_before_and_counts_everyone() {
    let mut s = Store::new();
    let inst = s.insert_libre_nms_instance("main", "https://x", b"t", "now").unwrap();
    let a = customer(&mut s, "a", inst, 1);
    let b = customer(&mut s, "b", inst, 2);
    let c = customer(&mut s, "c", inst, 3);
    s.set_customer_active(b, false);
    for id in [a, c] {
        since(&mut s, id, "2025-01-01", None);
        s.insert_port(id, "p", 0, 0, false, false, None).unwrap();
    }

    let early = Moment { year: 2026, month: 1, day: 1, hour: 9 };
    assert!(BillingRun::start(&s, &early, false).is_none());
    let mut run = BillingRun::start(&s, &early, true).unwrap();
    assert_eq!(run.billed_month(), (2025, 12));

    assert_eq!(run.current().unwrap().id, a);
    assert!(matches!(run.plan(&s), Plan::Fetch(_)));
    run.note(&Some(Ok(1)));
    assert_eq!(run.current().unwrap().id, c);
    assert!(matches!(run.plan(&s), Plan::Fetch(_)));
    run.note(&Some(Err(Error::Template("no paper".to_string()))));
    assert!(run.current().is_none());
    assert_eq!(run.stats(), Stats { ok: 1, failed: 1, skipped: 0 });
    assert_eq!(run.stats().exit_code(), 1);
    assert_eq!(Stats { ok: 1, failed: 0, skipped: 4 }.exit_code(), 0);

    let id = run.record(&mut s, true, "10:00", "10:05").unwrap();
    assert_eq!(id, 1);
    assert_eq!(s.runs.len(), 1);
    assert_eq!(s.runs[0].run_type, "manual_replay");
    assert_eq!(s.runs[0].scheduled_for, "2025-12");
    assert_eq!(s.runs[0].started_at, "10:00");
    assert_eq!(s.runs[0].finished_at.as_deref(), Some("10:05"));
    assert_eq!(s.runs[0].customers_total, 2);
    assert_eq!((s.runs[0].customers_succeeded, s.runs[0].customers_failed), (1, 1));
}

#[test]
fn a_second_run_bills_nobody_again() {
    let mut s = Store::new();
    let inst = s.insert_libre_nms_instance("main", "https://x", b"t", "now").unwrap();
    let odd = s.insert_libre_nms_instance("odd", "https://y", &[0xff], "now").unwrap();
    let a = customer(&mut s, "a", inst, 1);
    let b = customer(&mut s, "b", inst, 2);
    customer(&mut s, "c", odd, 3);
    customer(&mut s, "d", inst, 4);
    for id in [a, b] {
        priced(&mut s, id, None);
        s.insert_port(id, "p", 0, 0, false, false, None).unwrap();
    }
    s.upsert_invoice_generating(a, 2026, 8, "n-1", "v", "{}", "CNY", "now").unwrap();

    let due = Moment { year: 2026, month: 9, day: 1, hour: 10 };
    let mut run = BillingRun::start(&s, &due, false).unwrap();
    let skipped = run.plan(&s);
    assert!(matches!(skipped, Plan::Skip(Skip::AlreadyInvoiced)));
    assert_eq!(outcome_of(&skipped), Some(Outcome::Skipped));
    assert_eq!(run.stats(), Stats { ok: 0, failed: 0, skipped: 1 });
    let asked = run.plan(&s);
    assert_eq!(outcome_of(&asked), None);
    run.note(&None);
    assert_eq!(run.stats(), Stats { ok: 0, failed: 1, skipped: 1 });
    let bad = run.plan(&s);
    assert_eq!(outcome_of(&bad), Some(Outcome::Failed));
    assert!(matches!(run.plan(&s), Plan::Skip(Skip::NoRate)));
    assert!(run.current().is_none());
    assert_eq!(run.stats(), Stats { ok: 0, failed: 2, skipped: 2 });
}

#[test]
fn a_run_starts_when_it_is_due() {
    let s = Store::new();
    let due = Moment { year: 2026, month: 9, day: 1, hour: 10 };
    let run = BillingRun::start(&s, &due, false).unwrap();
    assert_eq!(run.billed_month(), (2026, 8));
    assert!(run.current().is_none());
    let mut t = Store::new();
    run.record(&mut t, false, "a", "b").unwrap();
    assert_eq!(t.runs[0].run_type, "scheduled");
}
