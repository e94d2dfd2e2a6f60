use fbc_host::cli_args::{
    escape_output, fleet_board_ips, parse_enable_flag, parse_hex_data, parse_pll_states,
    parse_pmbus_addr, parse_power_voltages, run_finished,
};
use fbc_host::cli_args::{check_vicor_core, parse_vicor_mask, wait_round};
use fbc_host::text::IntErrorKind;
use fbc_host::cli_args::parse_system_type;
use fbc_host::types::{ControllerState, SystemType};

#[test]
fn power_voltages_accepted() {
    assert_eq!(
        parse_power_voltages("1000, 1200,0 ,5000,500,3300"),
        Ok([1000, 1200, 0, 5000, 500, 3300])
    );
}

#[test]
fn power_voltages_wrong_count() {
    assert_eq!(parse_power_voltages("1000,1000"), Err("Expected 6 voltages, got 2".to_string()));
}

#[test]
fn power_voltages_bad_number() {
    assert_eq!(
        parse_power_voltages("1000,abc,1,1,1,1"),
        Err("invalid digit found in string".to_string())
    );
    assert_eq!(
        parse_power_voltages("1000,,1,1,1,1"),
        Err("cannot parse integer from empty string".to_string())
    );
    assert_eq!(
        parse_power_voltages("70000,1,1,1,1,1"),
        Err("number too large to fit in target type".to_string())
    );
}

#[test]
fn power_voltages_out_of_range() {
    assert_eq!(
        parse_power_voltages("1000,1000,400,6000,1000,1000"),
        Err("Core 2: VICOR voltage 400mV out of range (500-5000mV)".to_string())
    );
}

#[test]
fn pmbus_addresses() {
    assert_eq!(parse_pmbus_addr("0x40"), Ok(0x40));
    assert_eq!(parse_pmbus_addr("0XfF"), Ok(0xff));
    assert_eq!(parse_pmbus_addr("64"), Ok(64));
    assert_eq!(parse_pmbus_addr("256"), Err(IntErrorKind::PosOverflow));
    assert_eq!(parse_pmbus_addr("0x"), Err(IntErrorKind::Empty));
    assert_eq!(parse_pmbus_addr("0x4g"), Err(IntErrorKind::InvalidDigit));
}

#[test]
fn enable_flags() {
    assert_eq!(parse_enable_flag("TRUE"), Some(true));
    assert_eq!(parse_enable_flag("1"), Some(true));
    assert_eq!(parse_enable_flag("False"), Some(false));
    assert_eq!(parse_enable_flag("0"), Some(false));
    assert_eq!(parse_enable_flag("yes"), None);
}

#[test]
fn hex_data() {
    assert_eq!(parse_hex_data("0xDEADbeef"), Ok(vec![0xde, 0xad, 0xbe, 0xef]));
    assert_eq!(parse_hex_data("0102"), Ok(vec![1, 2]));
    assert_eq!(parse_hex_data(""), Ok(vec![]));
    assert_eq!(parse_hex_data("01zz03"), Err(2));
}

#[test]
fn pll_states() {
    assert_eq!(parse_pll_states("1, 0,1 ,x"), Some([true, false, true, false]));
    assert_eq!(parse_pll_states("1,1,1"), None);
}

#[test]
fn fleet_ips() {
    assert_eq!(
        fleet_board_ips("101, 10.0.0.5 ,7"),
        vec!["172.16.0.101".to_string(), "10.0.0.5".to_string(), "172.16.0.7".to_string()]
    );
}

#[test]
fn escaped_output() {
    assert_eq!(escape_output("a\\b\"c\nd"), "a\\\\b\\\"c\\nd".to_string());
}

#[test]
fn finished_states() {
    assert!(run_finished(ControllerState::Done));
    assert!(run_finished(ControllerState::Error));
    assert!(run_finished(ControllerState::Idle));
    assert!(!run_finished(ControllerState::Running));
}

#[test]
fn system_names() {
    assert_eq!(parse_system_type("FBC"), Some(SystemType::Fbc));
    assert_eq!(parse_system_type("Xp-160"), Some(SystemType::Xp160));
    assert_eq!(parse_system_type("xp160"), Some(SystemType::Xp160));
    assert_eq!(parse_system_type("Shasta"), Some(SystemType::Shasta));
    assert_eq!(parse_system_type("other"), None);
}

#[test]
fn vicor_mask_is_checked_whole() {
    assert_eq!(parse_vicor_mask("0x3F"), Ok(63));
    assert_eq!(parse_vicor_mask(" 5 "), Ok(5));
    assert_eq!(parse_vicor_mask("0x140"), Err("Mask must be 0-63 (6 bits for 6 cores)".to_string()));
    assert_eq!(parse_vicor_mask("64"), Err("Mask must be 0-63 (6 bits for 6 cores)".to_string()));
    assert_eq!(parse_vicor_mask("0xZZ"), Err("invalid digit found in string".to_string()));
    assert_eq!(parse_vicor_mask(""), Err("cannot parse integer from empty string".to_string()));
}

#[test]
fn vicor_core_range() {
    assert_eq!(check_vicor_core(0, 6), Ok(()));
    assert_eq!(check_vicor_core(5, 6), Ok(()));
    assert_eq!(check_vicor_core(6, 6), Err("Core must be 0-5".to_string()));
    assert_eq!(check_vicor_core(255, 1), Err("Core must be 0-0".to_string()));
}

#[test]
fn waiting_rounds_for_started_boards() {
    let (done, running) = wait_round(
        &[false, false, false, true],
        &[Some(ControllerState::Running), Some(ControllerState::Done), None, None],
    );
    assert_eq!(done, vec![false, true, false, true]);
    assert!(running);
    let (done, running) = wait_round(&done, &[Some(ControllerState::Error), None, None, None]);
    assert_eq!(done, vec![true, true, false, true]);
    // The board that never answered is neither finished nor running.
    assert!(!running);
    let (done, running) = wait_round(&[false], &[Some(ControllerState::Idle)]);
    assert_eq!(done, vec![true]);
    assert!(!running);
}
