use fbc_host::gui::switch::{board_positions, normalize_mac, parse_mac_table, SwitchConfig};

#[test]
fn test_parse_mac_table() {
    let output = r#"
Vlan    Mac Address       Type        Ports
----    -----------       --------    -----
   1    0050.5645.0001    DYNAMIC     Gi0/1
   1    0050.5645.0002    DYNAMIC     Gi0/2
   1    0050.5645.0003    DYNAMIC     Gi0/5
All    0100.0ccc.cccc    STATIC      CPU
"#;

    let entries = parse_mac_table(output);
    assert_eq!(entries.len(), 3);
    assert_eq!(entries[0].mac, "0050.5645.0001");
    assert_eq!(entries[0].port, "Gi0/1");
}

#[test]
fn test_normalize_mac() {
    assert_eq!(normalize_mac("0050.5645.0001"), "00:50:56:45:00:01");
    assert_eq!(normalize_mac("aabb.ccdd.eeff"), "AA:BB:CC:DD:EE:FF");
}

#[test]
fn normalize_mac_keeps_other_text_upper_cased() {
    assert_eq!(normalize_mac("cpu"), "CPU");
    assert_eq!(normalize_mac("straße"), "STRASSE");
}

#[test]
fn default_wiring_and_positions() {
    let config = SwitchConfig::default();
    assert_eq!(config.serial_port, "COM4");
    assert_eq!(config.baud_rate, 9600);
    assert_eq!(config.port_mappings.len(), 44);
    assert_eq!(config.port_mappings[0].port, "Gi0/1");
    assert_eq!(config.port_mappings[0].position.shelf, 11);
    assert_eq!(config.port_mappings[2].position.tray, "back");
    assert_eq!(config.port_mappings[43].port, "Gi0/44");
    assert_eq!(config.port_mappings[43].position.shelf, 1);
    assert_eq!(config.port_mappings[43].position.slot, 2);

    let entries = parse_mac_table("  1  0050.5645.0001  DYNAMIC  Gi0/5\n  1  0050.5645.0002  DYNAMIC  Gi0/47\n");
    let found = board_positions(&config, &entries);
    assert_eq!(found.len(), 1);
    assert_eq!(found[0].0, "00:50:56:45:00:01");
    assert_eq!(found[0].1.shelf, 10);
    assert_eq!(found[0].1.tray, "front");
    assert_eq!(found[0].1.slot, 1);
}
