use fbc_host::types::{
    format_mac, parse_mac, ControllerState, PatternFormat, SystemType, Transport, VectorState,
};

#[test]
fn system_profiles() {
    assert_eq!(SystemType::from_u8(5), Some(SystemType::Fbc));
    assert_eq!(SystemType::from_u8(6), None);
    let fbc = SystemType::Fbc.profile();
    assert_eq!(fbc.total_channels, 160);
    assert_eq!(fbc.bim_range(), 0..128);
    assert_eq!(fbc.fast_range(), 128..160);
    assert_eq!(fbc.transport, Transport::RawEthernet);
    assert_eq!(fbc.pattern_format, PatternFormat::Fbc);
    assert_eq!(SystemType::Sonoma.total_channels(), 128);
    assert_eq!(SystemType::Shasta.profile_name(), "xp160");
    assert_eq!(SystemType::Mcc.profile().transport, Transport::ModbusTcp);
    assert!(SystemType::Hx.profile().fast_range().is_empty());
}

#[test]
fn voltage_limits() {
    let limits = SystemType::Fbc.profile().voltage_limits;
    assert_eq!(limits.validate_vicor(0), Ok(()));
    assert_eq!(limits.validate_vicor(1200), Ok(()));
    assert_eq!(
        limits.validate_vicor(6000),
        Err("VICOR voltage 6000mV out of range (500-5000mV)".to_string())
    );
    assert_eq!(
        limits.validate_pmbus(700),
        Err("PMBus voltage 700mV out of range (800-3600mV)".to_string())
    );
}

#[test]
fn states_from_codes() {
    assert_eq!(ControllerState::from_u8(1), ControllerState::Running);
    assert_eq!(ControllerState::from_u8(9), ControllerState::Error);
    assert_eq!(VectorState::from_u8(3), VectorState::Paused);
    assert_eq!(VectorState::from_u8(200), VectorState::Error);
}

#[test]
fn mac_helpers() {
    assert_eq!(format_mac(&[0xAA, 0xBB, 0xCC, 0xDD, 0xEE, 0xFF]), "AA:BB:CC:DD:EE:FF");
    assert_eq!(parse_mac("AA:BB:CC:DD:EE:FF"), Some([0xAA, 0xBB, 0xCC, 0xDD, 0xEE, 0xFF]));
    assert_eq!(parse_mac(""), None);
}

#[test]
fn mac_text_reads_back() {
    for mac in [[0u8; 6], [0xFF; 6], [0x00, 0x0A, 0x35, 0xC6, 0xB4, 0x2A]] {
        assert_eq!(parse_mac(&format_mac(&mac)), Some(mac));
    }
}
