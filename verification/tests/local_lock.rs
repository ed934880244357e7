use std::time::Duration;

use procmail::config::parse;
use procmail::config::variables::MAX_LOCK_TIMEOUT_SECONDS;
use procmail::delivery::local_lock::{
    lock_timeout_from_config, parse_lock_timeout, LockMethod, DEFAULT_LOCK_TIMEOUT,
};

#[test]
fn parses_lock_method_and_defaults_to_flock() {
    let default = parse(":0\nmaildir:inbox\n")
        .unwrap()
        .expand(&[])
        .unwrap();
    assert_eq!(
        LockMethod::from_config(&default).unwrap(),
        LockMethod::Flock
    );

    for (value, expected) in [
        ("flock", LockMethod::Flock),
        ("dotlock", LockMethod::Dotlock),
    ] {
        let config = parse(&format!("LOCKMETHOD={value}\n"))
            .unwrap()
            .expand(&[])
            .unwrap();
        assert_eq!(LockMethod::from_config(&config).unwrap(), expected);
    }

    let invalid = parse("LOCKMETHOD=other\n")
        .unwrap()
        .expand(&[])
        .unwrap();
    assert_eq!(
        LockMethod::from_config(&invalid).unwrap_err(),
        "line 1: LOCKMETHOD must be 'flock' or 'dotlock'"
    );
}

#[test]
fn parses_lock_timeout_at_supported_boundaries() {
    assert_eq!(
        Duration::from_secs(parse_lock_timeout("1").unwrap()),
        Duration::from_secs(1)
    );
    assert_eq!(
        Duration::from_secs(parse_lock_timeout(&MAX_LOCK_TIMEOUT_SECONDS.to_string()).unwrap()),
        Duration::from_secs(MAX_LOCK_TIMEOUT_SECONDS)
    );
    for value in ["", "0", "1s", "86401", "18446744073709551616"] {
        assert!(parse_lock_timeout(value).is_err(), "accepted {value:?}");
    }

    let default = parse("").unwrap().expand(&[]).unwrap();
    assert_eq!(
        lock_timeout_from_config(&default).unwrap(),
        DEFAULT_LOCK_TIMEOUT
    );
    let repeated = parse("LOCKTIMEOUT=1\nLOCKTIMEOUT=2\n")
        .unwrap()
        .expand(&[])
        .unwrap();
    assert_eq!(
        Duration::from_secs(lock_timeout_from_config(&repeated).unwrap()),
        Duration::from_secs(2)
    );
}
