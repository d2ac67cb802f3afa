use port_hawk::args::parser::{parse_port_range, PortRange};

#[test]
fn test_parse_port_range_single_port() {
    // Single port
    let result = parse_port_range("8080".to_string());
    assert_eq!(result, Ok(PortRange::Single(8080)));
}

#[test]
fn test_parse_port_range_invalid_single_port() {
    // Invalid single port
    let result = parse_port_range("abc".to_string());
    assert_eq!(result, Err("Invalid port: abc".to_string()));
}

#[test]
fn test_parse_port_invalid_start_port() {
    let result: Result<PortRange, String> = parse_port_range("a-1000".to_string());
    assert_eq!(result, Err("Invalid start port: a".to_string()));
}

#[test]
fn test_parse_port_invalid_end_port() {
    let result: Result<PortRange, String> = parse_port_range("1000-b".to_string());
    assert_eq!(result, Err("Invalid end port: b".to_string()));
}

#[test]
fn test_parse_port_range_range_ports() {
    // Range ports
    let result = parse_port_range("8000-8080".to_string());
    assert_eq!(result, Ok(PortRange::Range(vec![(8000, 8080)])));
}

#[test]
fn test_parse_port_range_invalid_range_ports() {
    // Invalid range ports
    let result = parse_port_range("8000-9000-10000".to_string());
    assert_eq!(
        result,
        Err("Invalid port range: 8000-9000-10000".to_string())
    );
}

#[test]
fn test_parse_port_range_start_greater_than_end() {
    // Start port greater than end port
    let result = parse_port_range("8080-8000".to_string());
    assert_eq!(
        result,
        Err("Start port is greater than end port: 8080-8000".to_string())
    );
}

#[test]
fn test_parse_port_range_multiple_ranges() {
    // Multiple ranges
    let result = parse_port_range("8000-8080,9000-9090".to_string());
    assert_eq!(
        result,
        Ok(PortRange::Range(vec![(8000, 8080), (9000, 9090)]))
    );
}
