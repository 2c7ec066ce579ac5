use gaming_tunnel::config::{FecParseError, FecRatio, Mode, RunArgs};

fn run_args() -> RunArgs {
    RunArgs {
        listen: "0.0.0.0:0".to_string(),
        remote: None,
        tun_name: "gtun0".to_string(),
        tun_addr: "10.10.0.1/24".to_string(),
        mtu: 1400,
        fec: "10:3".to_string(),
        obfs: true,
        key: "changeme".to_string(),
        mux: 1,
        jitter: 8,
        jitter_ms: 30,
        pace_mbps: 0,
        workers: 2,
        reverse: false,
        reconnect_ms: 2000,
    }
}

#[test]
fn parse_default_ratio() {
    let f = FecRatio::parse("10:3").unwrap();
    assert_eq!(f.data, 10);
    assert_eq!(f.parity, 3);
    assert!(f.enabled());
    assert_eq!(f.total(), 13);
}

#[test]
fn parse_zero_ratio_disables_fec() {
    let f = FecRatio::parse("0:0").unwrap();
    assert_eq!((f.data, f.parity), (0, 0));
    assert!(!f.enabled());
    assert_eq!(f.total(), 0);
}

#[test]
fn enabled_needs_both_counts() {
    assert!(!FecRatio::parse("4:0").unwrap().enabled());
    assert!(!FecRatio::parse("0:4").unwrap().enabled());
    assert!(FecRatio::parse("1:1").unwrap().enabled());
}

#[test]
fn parse_accepts_plus_sign_like_from_str() {
    let f = FecRatio::parse("+5:+2").unwrap();
    assert_eq!((f.data, f.parity), (5, 2));
    let f = FecRatio::parse("007:02").unwrap();
    assert_eq!((f.data, f.parity), (7, 2));
}

#[test]
fn parse_missing_separator() {
    assert_eq!(FecRatio::parse("10").unwrap_err(), FecParseError::MissingSeparator);
    assert_eq!(FecRatio::parse("").unwrap_err(), FecParseError::MissingSeparator);
}

#[test]
fn parse_invalid_data_side() {
    assert_eq!(FecRatio::parse(":3").unwrap_err(), FecParseError::InvalidData);
    assert_eq!(FecRatio::parse("a:3").unwrap_err(), FecParseError::InvalidData);
    assert_eq!(FecRatio::parse("-1:3").unwrap_err(), FecParseError::InvalidData);
    assert_eq!(FecRatio::parse("+:3").unwrap_err(), FecParseError::InvalidData);
    assert_eq!(FecRatio::parse(" 1:3").unwrap_err(), FecParseError::InvalidData);
    assert_eq!(
        FecRatio::parse("99999999999999999999999:1").unwrap_err(),
        FecParseError::InvalidData
    );
}

#[test]
fn parse_invalid_parity_side() {
    assert_eq!(FecRatio::parse("10:").unwrap_err(), FecParseError::InvalidParity);
    assert_eq!(FecRatio::parse("10:x").unwrap_err(), FecParseError::InvalidParity);
    assert_eq!(FecRatio::parse("1:2:3").unwrap_err(), FecParseError::InvalidParity);
    assert_eq!(FecRatio::parse("1:2 ").unwrap_err(), FecParseError::InvalidParity);
}

#[test]
fn parse_data_error_comes_first() {
    assert_eq!(FecRatio::parse("x:y").unwrap_err(), FecParseError::InvalidData);
}

#[test]
fn parse_usize_max() {
    let text = format!("{}:1", usize::MAX);
    let f = FecRatio::parse(&text).unwrap();
    assert_eq!(f.data, usize::MAX);
    assert_eq!(f.parity, 1);
}

#[test]
fn parse_reads_back_what_is_written() {
    for (d, p) in [(0usize, 0usize), (1, 1), (10, 3), (255, 1), (12345, 678)] {
        let f = FecRatio::parse(&format!("{}:{}", d, p)).unwrap();
        assert_eq!((f.data, f.parity), (d, p));
    }
}

#[test]
fn mode_gives_role_and_args() {
    let server = Mode::Server(run_args());
    let client = Mode::Client(run_args());
    assert!(server.is_server());
    assert!(!client.is_server());
    assert_eq!(server.run_args().mtu, 1400);
    assert_eq!(client.run_args().fec, "10:3");
}
