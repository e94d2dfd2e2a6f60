use fbc_host::vector::format::{PinType, Vector};
use fbc_host::vector::fvec::{FvecError, FvecProgram};

#[test]
fn test_parse_basic() {
    let fvec = r#"
            # Test file
            CLOCK 50_000_000

            PIN 0 INPUT
            PIN 1-7 OUTPUT

            ZERO
            ONES REPEAT 10
        "#;

    let program = FvecProgram::from_str(fvec).unwrap();
    assert_eq!(program.clock_hz, 50_000_000);
    assert_eq!(program.pin_config.types[0], PinType::Input);
    assert_eq!(program.pin_config.types[1], PinType::Output);
    assert_eq!(program.pin_config.types[7], PinType::Output);
    assert_eq!(program.vectors.len(), 2);
    assert_eq!(program.vectors[0].vector, Vector::zero());
    assert_eq!(program.vectors[0].repeat, 1);
    assert_eq!(program.vectors[1].vector, Vector::ones());
    assert_eq!(program.vectors[1].repeat, 10);
}

#[test]
fn test_parse_toggle() {
    let fvec = r#"
            ZERO
            TOGGLE 0 1 2
            TOGGLE 0
        "#;

    let program = FvecProgram::from_str(fvec).unwrap();
    assert_eq!(program.vectors.len(), 3);

    assert!(!program.vectors[0].vector.get_bit(0));

    assert!(program.vectors[1].vector.get_bit(0));
    assert!(program.vectors[1].vector.get_bit(1));
    assert!(program.vectors[1].vector.get_bit(2));
    assert!(!program.vectors[1].vector.get_bit(3));

    assert!(!program.vectors[2].vector.get_bit(0));
    assert!(program.vectors[2].vector.get_bit(1));
    assert!(program.vectors[2].vector.get_bit(2));
}

#[test]
fn test_parse_binary() {
    let pattern: String = (0..160).map(|i| if i % 2 == 0 { '1' } else { '0' }).collect();
    let fvec = format!("{} REPEAT 5", pattern);

    let program = FvecProgram::from_str(&fvec).unwrap();
    assert_eq!(program.vectors.len(), 1);
    assert_eq!(program.vectors[0].repeat, 5);
    assert!(program.vectors[0].vector.get_bit(0));
    assert!(!program.vectors[0].vector.get_bit(1));
}

#[test]
fn test_parse_hex() {
    let fvec = "0x0102030405060708090a0b0c0d0e0f1011121314";
    let program = FvecProgram::from_str(fvec).unwrap();
    assert_eq!(program.vectors.len(), 1);
    assert_eq!(program.vectors[0].vector.data[0], 0x01);
    assert_eq!(program.vectors[0].vector.data[19], 0x14);
}

#[test]
fn test_total_vectors() {
    let fvec = r#"
            ZERO REPEAT 100
            ONES REPEAT 200
            ZERO REPEAT 50
        "#;

    let program = FvecProgram::from_str(fvec).unwrap();
    assert_eq!(program.total_vectors(), 350);
}

#[test]
fn fvec_parse_errors_name_the_line() {
    match FvecProgram::from_str("ZERO\nBOGUS LINE\n") {
        Err(FvecError::Parse { line, .. }) => assert_eq!(line, 2),
        other => panic!("unexpected {:?}", other),
    }
    assert!(FvecProgram::from_str("ZERO REPEAT x").is_err());
    assert!(FvecProgram::from_str("TOGGLE 200").is_err());
}

#[test]
fn fvec_label_and_default_clock() {
    let program = FvecProgram::from_str("LABEL start\nONES\n").unwrap();
    assert_eq!(program.vectors.len(), 1);
    assert_eq!(program.vectors[0].label.as_deref(), Some("start"));
}

#[test]
fn directives_are_upper_cased_as_unicode_text() {
    // U+0131 (dotless i) upper-cases to `I`, so this line is a PIN line.
    let program = FvecProgram::from_str("p\u{131}n 5 output\nzero repeat 2\n").unwrap();
    assert_eq!(program.pin_config.types[5], PinType::Output);
    assert_eq!(program.vectors.len(), 1);
    assert_eq!(program.vectors[0].repeat, 2);
}

fn parse_error(text: &str) -> (usize, String) {
    match FvecProgram::from_str(text) {
        Err(FvecError::Parse { line, msg }) => (line, msg),
        Ok(_) => panic!("accepted {:?}", text),
    }
}

#[test]
fn parse_errors_say_what_is_wrong() {
    assert_eq!(parse_error("CLOCK"), (1, "CLOCK requires frequency value".to_string()));
    assert_eq!(parse_error("CLOCK 5x"), (1, "Invalid clock frequency: invalid digit found in string".to_string()));
    assert_eq!(parse_error("ZERO\nPIN 1"), (2, "PIN requires pin number/range and type".to_string()));
    assert_eq!(parse_error("PIN 1 WHAT"), (1, "Unknown pin type: WHAT".to_string()));
    assert_eq!(parse_error("PIN 1-2-3 IN"), (1, "Invalid pin range: 1-2-3".to_string()));
    assert_eq!(parse_error("PIN a-2 IN"), (1, "Invalid pin number: invalid digit found in string".to_string()));
    assert_eq!(parse_error("PIN 200 IN"), (1, "Pin number out of range (0-159)".to_string()));
    assert_eq!(parse_error("ZERO REPEAT"), (1, "REPEAT requires a count".to_string()));
    assert_eq!(
        parse_error("ONES REPEAT 99999999999"),
        (1, "Invalid repeat count: number too large to fit in target type".to_string())
    );
    assert_eq!(parse_error("TOGGLE"), (1, "TOGGLE requires at least one pin number".to_string()));
    assert_eq!(parse_error("TOGGLE 3 x"), (1, "Invalid pin number 'x': invalid digit found in string".to_string()));
    assert_eq!(parse_error("TOGGLE 3 170"), (1, "Pin 170 out of range (0-159)".to_string()));
    assert_eq!(parse_error("LABEL"), (1, "LABEL requires a name".to_string()));
    assert_eq!(parse_error("0x1234"), (1, "Expected 40 hex chars, got 4".to_string()));
    assert_eq!(parse_error("0101"), (1, "Expected 160 binary chars, got 4".to_string()));
    assert_eq!(parse_error("# comment\nFROB"), (2, "Unknown directive: FROB".to_string()));
}

#[test]
fn toggle_line_ignores_trailing_comment() {
    let p = FvecProgram::from_str("ZERO\nTOGGLE 0 5 10 15   # Toggle pins 0, 5, 10, 15").unwrap();
    assert_eq!(p.vectors.len(), 2);
    assert_eq!(p.vectors[1].vector, Vector::from_indices(&[0, 5, 10, 15]));
    assert_eq!(p.vectors[1].repeat, 1);
    let r = FvecProgram::from_str("ZERO\nTOGGLE 7 REPEAT 3 # three times").unwrap();
    assert_eq!(r.vectors[1].vector, Vector::from_indices(&[7]));
    assert_eq!(r.vectors[1].repeat, 3);
}
