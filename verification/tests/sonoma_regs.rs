use fbc_host::sonoma_regs::{
    measure_frequency, FreqControlReg, FreqCounter, FreqState, FreqStatusReg, IoTable, PinSelect,
    PinType, PulseCtrl, VectorStatus, AXI_FREQ_COUNTER_BASE,
};

#[test]
fn test_pin_type_conversion() {
    assert_eq!(PinType::from(0), PinType::Bidi);
    assert_eq!(PinType::from(4), PinType::Pulse);
    assert_eq!(PinType::from(15), PinType::Bidi);
}

#[test]
fn test_freq_control_reg() {
    let ctrl = FreqControlReg { enable: true, irq_enable: false, signal_select: 0x10, trigger_select: 0xFE };
    let val = ctrl.to_u32();
    let ctrl2 = FreqControlReg::from_u32(val);
    assert_eq!(ctrl.enable, ctrl2.enable);
    assert_eq!(ctrl.signal_select, ctrl2.signal_select);
    assert_eq!(ctrl.trigger_select, ctrl2.trigger_select);
}

#[test]
fn control_word_layout() {
    let ctrl = FreqControlReg { enable: true, irq_enable: true, signal_select: 0x10, trigger_select: 0xFE };
    assert_eq!(ctrl.to_u32(), 0x01FE_1003);
    assert_eq!(FreqControlReg::from_u32(0x01FE_1003), ctrl);
    assert_eq!(PinType::from(0x13), PinType::OpenCollector);
}

#[test]
fn pin_select_codes() {
    assert_eq!(PinSelect::VectorPin(200).to_u8(), 127);
    assert_eq!(PinSelect::ExtraGpio(40).to_u8(), 159);
    assert_eq!(PinSelect::Immediate.to_u8(), 0xFE);
    assert_eq!(PinSelect::Disabled.to_u8(), 0xFF);
    assert!(matches!(PinSelect::from_u8(130), PinSelect::ExtraGpio(2)));
    assert!(matches!(PinSelect::from_u8(200), PinSelect::Disabled));
}

#[test]
fn status_words_and_addresses() {
    let s = FreqStatusReg::from_u32(0x0000_0088);
    assert!(s.timeout && s.running);
    assert_eq!(s.state(), FreqState::Running);
    assert_eq!(measure_frequency(0, s, 10, 20), None);
    let ok = FreqStatusReg::from_u32(0x0000_0001);
    assert_eq!(ok.state(), FreqState::Done);
    assert_eq!(measure_frequency(7, ok, 10, 20), Some((10, 20)));
    assert_eq!(FreqCounter::counter_base(3), AXI_FREQ_COUNTER_BASE + 0x60);
    let io = IoTable::new();
    assert_eq!(io.pin_type_slot(9), Some((0x4004_0004, 4)));
    assert_eq!(io.pin_type_slot(128), None);
    let reg = IoTable::set_pin_type_value(0xFFFF_FFFF, 4, PinType::Pulse);
    assert_eq!(reg, 0xFFFF_FF4F);
    assert_eq!(IoTable::pin_type_value(reg, 4), PinType::Pulse);
    assert_eq!(PulseCtrl::new().register_addr(64), None);
    assert!(VectorStatus::is_done(1) && VectorStatus::has_errors(2));
}

#[test]
fn set_all_pins_fills_every_field() {
    let words = fbc_host::sonoma_regs::set_all_pins(PinType::Output);
    assert_eq!(words.len(), 16);
    for w in &words {
        assert_eq!(*w, 0x2222_2222);
        for shift in (0..32).step_by(4) {
            assert_eq!(IoTable::pin_type_value(*w, shift), PinType::Output);
        }
    }
    let words = fbc_host::sonoma_regs::set_all_pins(PinType::Bidi);
    assert!(words.iter().all(|w| *w == 0));
    let words = fbc_host::sonoma_regs::set_all_pins(PinType::VecClkEn);
    assert!(words.iter().all(|w| *w == 0x8888_8888));
}

#[test]
fn frequency_counter_words() {
    let on = FreqCounter::enable(PinSelect::from_u8(0x10), PinSelect::from_u8(0xFE), true);
    assert!(on.enable && on.irq_enable);
    let off = FreqCounter::disable(on);
    assert!(!off.enable && off.irq_enable);
    assert_eq!(off.signal_select, on.signal_select);
    assert_eq!(measure_frequency(8, FreqStatusReg::from_u32(1), 10, 20), None);
}
