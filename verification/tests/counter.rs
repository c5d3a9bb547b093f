use std::str::FromStr;

use lwk_wollet::{Counter, IntErrorKind, WolletError};

#[test]
fn test_counter() {
    let c = Counter::default();
    assert_eq!(c.to_string(), "000000000000");
    assert_eq!(usize::from(c), 0);
    assert_eq!(Counter::from(100).to_string(), "000000000100");
}

#[test]
fn counter_names_round_trip() {
    for n in [0usize, 1, 9, 10, 99, 100, 123456789, 999_999_999_999] {
        let name = Counter::from(n).to_string();
        assert_eq!(name.len(), 12);
        assert_eq!(Counter::from_str(&name).unwrap(), Counter::from(n));
        let parsed: Counter = name.parse().unwrap();
        assert_eq!(parsed.to_string(), name);
    }
}

#[test]
fn counter_longer_than_the_width_is_not_cut() {
    assert_eq!(Counter::from(1_000_000_000_000).to_string(), "1000000000000");
    match Counter::from_str("1000000000000") {
        Err(WolletError::Generic(m)) if m == "Not 12 chars" => {}
        other => panic!("unexpected: {:?}", other),
    }
}

#[test]
fn counter_parse_errors() {
    match Counter::from_str("12345") {
        Err(WolletError::Generic(m)) if m == "Not 12 chars" => {}
        other => panic!("unexpected: {:?}", other),
    }
    match Counter::from_str("") {
        Err(WolletError::Generic(m)) if m == "Not 12 chars" => {}
        other => panic!("unexpected: {:?}", other),
    }
    match Counter::from_str("00000000000a") {
        Err(WolletError::ParseInt(IntErrorKind::InvalidDigit)) => {}
        other => panic!("unexpected: {:?}", other),
    }
    match Counter::from_str("-00000000001") {
        Err(WolletError::ParseInt(IntErrorKind::InvalidDigit)) => {}
        other => panic!("unexpected: {:?}", other),
    }
    // Twelve bytes, but only eleven characters.
    match Counter::from_str("0000000000é") {
        Err(WolletError::ParseInt(IntErrorKind::InvalidDigit)) => {}
        other => panic!("unexpected: {:?}", other),
    }
    // Only the names that counters are written as are read back: no sign.
    match Counter::from_str("+00000000042") {
        Err(WolletError::ParseInt(IntErrorKind::InvalidDigit)) => {}
        other => panic!("unexpected: {:?}", other),
    }
}

#[test]
fn counter_conversions_and_addition() {
    let c = Counter::from(41);
    assert_eq!(usize::from(&c), 41);
    let d = c.clone() + 1;
    assert_eq!(usize::from(d), 42);
}
