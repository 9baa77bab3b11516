//! The size and the axes of the chart.
use lnms_invoice::chart::{axis_end, chart_load, check_size, CHART_HEIGHT, CHART_WIDTH};
use lnms_invoice::render::PortLine;

#[test]
fn test_zero_size_rejected() {
    let res = check_size(0, 100);
    assert!(res.is_err());
    let res = check_size(100, 0);
    assert!(res.is_err());
}

#[test]
fn a_chart_with_a_size_is_drawn() {
    assert!(check_size(CHART_WIDTH, CHART_HEIGHT).is_ok());
    assert!(check_size(1, 1).is_ok());
    assert_eq!(
        check_size(0, 100).unwrap_err().message(),
        "template error: chart size must be > 0: 0x100"
    );
}

#[test]
fn the_time_axis_is_never_empty() {
    assert_eq!(axis_end(0), 1);
    assert_eq!(axis_end(30), 30);
}

#[test]
fn the_chart_shows_the_highest_load() {
    let ports = |loads: &[Option<i64>]| -> Vec<PortLine> {
        loads
            .iter()
            .map(|m| PortLine {
                label: "p".to_string(),
                mbps_95th: *m,
                machine_rent: false,
                machine_hosting: false,
            })
            .collect()
    };
    assert_eq!(chart_load(&ports(&[Some(3), None, Some(9), Some(4)])), Some(9));
    assert_eq!(chart_load(&ports(&[None, Some(0), Some(-2)])), None);
    assert_eq!(chart_load(&ports(&[])), None);
}
