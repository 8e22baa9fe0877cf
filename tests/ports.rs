use script_router::ports::parse_ports;
use script_router::ports::PortListError;

#[test]
fn single_port() {
    assert_eq!(parse_ports("7070"), Ok(vec![7070]));
}

#[test]
fn list_and_ranges() {
    assert_eq!(parse_ports("80, 443,8000-8003"), Ok(vec![80, 443, 8000, 8001, 8002, 8003]));
    assert_eq!(parse_ports(" 1 - 3 ,,5,"), Ok(vec![1, 2, 3, 5]));
    assert_eq!(parse_ports("10,10"), Ok(vec![10, 10]));
}

#[test]
fn empty_and_blank_lists() {
    assert_eq!(parse_ports(""), Ok(vec![]));
    assert_eq!(parse_ports(" , \t,"), Ok(vec![]));
}

#[test]
fn reversed_range_is_empty() {
    assert_eq!(parse_ports("5-3"), Ok(vec![]));
}

#[test]
fn extra_dash_parts_are_ignored() {
    assert_eq!(parse_ports("1-2-3"), Ok(vec![1, 2]));
}

#[test]
fn bounds_of_port_numbers() {
    assert_eq!(parse_ports("0,65535,+80"), Ok(vec![0, 65535, 80]));
    assert_eq!(parse_ports("65534-65535"), Ok(vec![65534, 65535]));
    assert_eq!(parse_ports("65536"), Err(PortListError::InvalidPort));
    assert_eq!(parse_ports("99999999999"), Err(PortListError::InvalidPort));
}

#[test]
fn malformed_fields_are_rejected() {
    assert_eq!(parse_ports("abc"), Err(PortListError::InvalidPort));
    assert_eq!(parse_ports("80,x"), Err(PortListError::InvalidPort));
    assert_eq!(parse_ports("-5"), Err(PortListError::InvalidPort));
    assert_eq!(parse_ports("1-"), Err(PortListError::InvalidPort));
    assert_eq!(parse_ports("+"), Err(PortListError::InvalidPort));
    assert_eq!(parse_ports("8 0"), Err(PortListError::InvalidPort));
}

#[test]
fn unicode_white_space_is_trimmed() {
    assert_eq!(parse_ports("\u{3000}81\u{a0}"), Ok(vec![81]));
}
