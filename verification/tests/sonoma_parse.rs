use fbc_host::sonoma_parse::{parse_hex_value, run_outcome};

#[test]
fn test_parse_hex_value() {
    assert_eq!(parse_hex_value("0x00010000").unwrap(), 0x00010000);
    assert_eq!(parse_hex_value("DEADBEEF").unwrap(), 0xDEADBEEF);
    assert_eq!(parse_hex_value("42").unwrap(), 42);
}

#[test]
fn test_parse_hex_empty() {
    assert!(parse_hex_value("").is_err());
}

#[test]
fn parse_hex_value_messages() {
    assert_eq!(parse_hex_value("   ").unwrap_err(), "Empty rwmem output");
    assert_eq!(
        parse_hex_value("0xZZ").unwrap_err(),
        "Failed to parse hex '0xZZ': invalid digit found in string"
    );
    assert_eq!(
        parse_hex_value("0x").unwrap_err(),
        "Failed to parse hex '0x': cannot parse integer from empty string"
    );
    assert_eq!(
        parse_hex_value("99999999999").unwrap_err(),
        "Failed to parse value '99999999999': number too large to fit in target type"
    );
    assert_eq!(parse_hex_value(" 0X1f ").unwrap(), 31);
}

#[test]
fn run_outcome_pass_and_fail() {
    assert_eq!(run_outcome("Loading vectors...\nRunning...\nDone.\n"), (true, 0));
    assert_eq!(run_outcome("VECTOR FAILED: error_count=5\nVector# = 42 Cycle# = 100\n"), (false, 5));
    assert_eq!(run_outcome("VECTOR FAILED\n"), (false, 0));
}
