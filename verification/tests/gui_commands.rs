use fbc_host::gui::commands::{
    compile_device_config_text, extract_gpio_num, extract_xml_attr, fbc_firmware, linux_firmware, looks_like_ip,
    pattern_errors, pattern_stats,
};
use fbc_host::gui::fbc::{VectorEngineStatus, VectorState};

const BIM: &str = "<Bim>\n  <Device name=\"XC7Z020\" vendor=\"x\"/>\n  <BimType type=\"42\"/>\n  <Pin id=\"1\" type=\"Signal\">CLK</Pin>\n  <Pin id=\"2\" type=\"Power\">VCC</Pin>\n  <Pin id=\"3\" type=\"Signal\">DATA0</Pin>\n  <Pin id=\"4\" type=\"Signal\">DATA1</Pin>\n</Bim>\n";

#[test]
fn xml_attribute_of_first_matching_line() {
    assert_eq!(extract_xml_attr(BIM, "Device", "name"), Some("XC7Z020".to_string()));
    assert_eq!(extract_xml_attr(BIM, "BimType", "type"), Some("42".to_string()));
    assert_eq!(extract_xml_attr(BIM, "Device", "missing"), None);
    assert_eq!(extract_xml_attr(BIM, "Nothing", "name"), None);
    // An unterminated value gives nothing.
    assert_eq!(extract_xml_attr("<Device name=\"abc", "Device", "name"), None);
    // The first line that has the value wins.
    assert_eq!(
        extract_xml_attr("<Device id=\"1\"/>\n<Device name=\"b\"/>\n<Device name=\"c\"/>", "Device", "name"),
        Some("b".to_string())
    );
}

#[test]
fn gpio_numbers_from_pin_names() {
    assert_eq!(extract_gpio_num("B13_GPIO25"), Some(25));
    assert_eq!(extract_gpio_num("gpio_7x"), Some(7));
    assert_eq!(extract_gpio_num("GPIO__12"), Some(12));
    assert_eq!(extract_gpio_num("GPIO"), None);
    assert_eq!(extract_gpio_num("B13_IO25"), None);
    assert_eq!(extract_gpio_num("B34_GPIOx"), None);
}

#[test]
fn device_config_from_bim_only() {
    let r = compile_device_config_text(BIM, None, None);
    assert_eq!(r.name, "XC7Z020");
    assert_eq!(r.device_type, 42);
    assert_eq!(r.version, 1);
    assert!(r.loaded);
    assert_eq!(r.pins.len(), 3);
    assert_eq!(r.pins[0].pin, 0);
    assert_eq!(r.pins[0].name, "CLK");
    assert_eq!(r.pins[0].pin_type, "bidi");
    assert_eq!(r.pins[0].bank, 0);
    assert_eq!(r.pins[0].group, "Bank 0");
    assert_eq!(r.pins[2].name, "DATA1");
    assert_eq!(r.timing.setup_ns, 10);
    assert_eq!(r.timing.hold_ns, 10);
    assert_eq!(r.timing.strobe_ns, 50);
    assert_eq!(r.timing.period_ns, 100);
}

#[test]
fn device_config_defaults_without_attributes() {
    let r = compile_device_config_text("<Bim>\n<BimType type=\"x\"/>\n</Bim>", None, None);
    assert_eq!(r.name, "Unknown");
    assert_eq!(r.device_type, 0);
    assert!(r.pins.is_empty());
}

#[test]
fn device_config_with_map_and_tim() {
    let map: Vec<String> = vec![
        "# comment".to_string(),
        "B13_GPIO1 RENAMED;".to_string(),
        "B33_GPIO40 EXTRA".to_string(),
        "B34_GPIO200 TOO_HIGH".to_string(),
        "B13_GPIO5".to_string(),
        "".to_string(),
    ];
    let tim = "pintype 1 input\npintype 40 OC\npintype 0 weird\npintype 9 OUT\nfreq_sel 2\n";
    let r = compile_device_config_text(BIM, Some(&map), Some(tim));
    assert_eq!(r.pins.len(), 4);
    let numbers: Vec<usize> = r.pins.iter().map(|p| p.pin).collect();
    assert_eq!(numbers, vec![0, 1, 2, 40]);
    assert_eq!(r.pins[0].name, "CLK");
    assert_eq!(r.pins[0].pin_type, "bidi");
    assert_eq!(r.pins[1].name, "RENAMED");
    assert_eq!(r.pins[1].pin_type, "input");
    assert_eq!(r.pins[3].name, "EXTRA");
    assert_eq!(r.pins[3].pin_type, "open_c");
    assert_eq!(r.pins[3].bank, 1);
    assert_eq!(r.pins[3].group, "Bank 1");
    assert_eq!(r.timing.period_ns, 40);
}

#[test]
fn device_config_frequency_selection() {
    let cases = [("freq_sel 0", 200), ("freq_sel 1", 100), ("freq_sel 3", 20), ("freq_sel 4", 10), ("freq_sel 9", 100), ("freq_sel 300", 100)];
    for (line, period) in cases.iter() {
        let r = compile_device_config_text("", None, Some(line));
        assert_eq!(r.timing.period_ns, *period, "{}", line);
    }
    let r = compile_device_config_text("", None, Some("freq_sel 4\nfreq_sel bad"));
    assert_eq!(r.timing.period_ns, 10);
}

fn status(errors: u32, first_fail: u32) -> VectorEngineStatus {
    VectorEngineStatus {
        state: VectorState::from(3u8),
        current_address: 0,
        total_vectors: 1000,
        loop_count: 0,
        target_loops: 0,
        error_count: errors,
        first_fail_addr: first_fail,
        run_time_ms: 0,
    }
}

#[test]
fn pattern_statistics() {
    let s = pattern_stats(&status(0, 0));
    assert_eq!(s.total_vectors, 1000);
    assert_eq!(s.total_cycles, 1000);
    assert_eq!(s.first_error_vector, -1);
    assert!(s.error_pins.is_empty());
    let s = pattern_stats(&status(11, 40));
    assert_eq!(s.first_error_vector, 40);
    assert_eq!(s.first_error_cycle, 40);
    assert_eq!(s.error_pins, vec![0, 1, 7, 15, 42]);
    assert_eq!(pattern_stats(&status(51, 1)).error_pins, vec![0, 1, 7, 15, 42, 63, 128]);
    assert_eq!(pattern_stats(&status(3, 1)).error_pins, vec![0, 1]);
}

#[test]
fn pattern_error_entries() {
    let e = pattern_errors(&status(11, 100), 10, 5000);
    assert_eq!(e.len(), 3);
    assert_eq!((e[0].vector, e[0].cycle, e[0].first_fail_pin, e[0].timestamp), (100, 100, 0, 4000));
    assert_eq!(e[0].error_mask, vec![0, 1]);
    assert_eq!((e[1].vector, e[1].first_fail_pin, e[1].timestamp), (110, 7, 4500));
    assert_eq!((e[2].vector, e[2].error_mask.clone(), e[2].timestamp), (125, vec![15, 42], 4800));
    assert_eq!(pattern_errors(&status(11, 100), 2, 5000).len(), 2);
    assert_eq!(pattern_errors(&status(6, 100), 10, 5000).len(), 2);
    assert!(pattern_errors(&status(6, 0), 10, 5000).is_empty());
    assert!(pattern_errors(&status(0, 9), 10, 5000).is_empty());
}

#[test]
fn firmware_kinds() {
    assert!(looks_like_ip("172.16.0.101"));
    assert!(!looks_like_ip("00:0A:35:00:00:01"));
    let l = linux_firmware("172.16.0.5", b"sonoma-05\n");
    assert_eq!(l.board_type, "linux");
    assert_eq!(l.version, "sonoma-05");
    assert_eq!(l.ip_address, Some("172.16.0.5".to_string()));
    assert_eq!(l.mac_address, "");
    let f = fbc_firmware("00:0A:35:00:00:01");
    assert_eq!(f.board_type, "fbc");
    assert_eq!(f.version, "bare-metal");
    assert!(f.ip_address.is_none());
    assert_eq!(f.mac_address, "00:0A:35:00:00:01");
}
