use fluvio_core::cluster::{CheckStatus, StartStatus, UserChartLocation};

#[test]
fn start_status_reports_address_and_port() {
    let status = StartStatus::new("localhost:9003".to_string(), 9003, None);
    assert_eq!(status.address(), "localhost:9003");
    assert_eq!(status.port(), 9003);
    assert!(status.checks().is_none());
}

#[test]
fn start_status_keeps_check_outcomes_in_order() {
    let checks = vec![CheckStatus::Pass, CheckStatus::Fail];
    let status = StartStatus::new("10.0.0.1:9003".to_string(), 9003, Some(checks));
    assert_eq!(status.checks(), Some(&vec![CheckStatus::Pass, CheckStatus::Fail]));
}

#[test]
fn chart_location_tells_local_from_remote() {
    let local = UserChartLocation::Local(std::path::PathBuf::from("./charts"));
    let remote = UserChartLocation::Remote("https://charts.example.com".to_string());
    assert!(local.is_local());
    assert!(!remote.is_local());
}
