use fbc_host::vector::format::{
    FbcFile, FbcHeader, PinConfig, PinType, Vector, OP_END, OP_VECTOR_ONES, OP_VECTOR_RUN, OP_VECTOR_SPARSE,
    OP_VECTOR_ZERO,
};

#[test]
fn test_vector_bits() {
    let mut v = Vector::zero();
    assert!(!v.get_bit(0));
    assert!(!v.get_bit(159));

    v.set_bit(0, true);
    v.set_bit(159, true);
    assert!(v.get_bit(0));
    assert!(v.get_bit(159));
    assert!(!v.get_bit(1));

    assert_eq!(v.popcount(), 2);
}

#[test]
fn test_vector_hex() {
    let hex = "0102030405060708090a0b0c0d0e0f1011121314";
    let v = Vector::from_hex(hex).unwrap();
    assert_eq!(v.to_hex(), hex);
}

#[test]
fn test_vector_binary() {
    let mut bin = String::new();
    for i in 0..160 {
        bin.push(if i % 2 == 0 { '1' } else { '0' });
    }
    let v = Vector::from_binary(&bin).unwrap();
    assert_eq!(v.to_binary(), bin);
}

#[test]
fn test_hamming_distance() {
    let a = Vector::zero();
    let b = Vector::ones();
    assert_eq!(a.hamming_distance(&b), 160);

    let mut c = Vector::zero();
    c.set_bit(0, true);
    c.set_bit(1, true);
    assert_eq!(a.hamming_distance(&c), 2);
}

#[test]
fn test_pin_config_roundtrip() {
    let mut config = PinConfig::default();
    config.types[0] = PinType::Input;
    config.types[1] = PinType::Output;
    config.types[159] = PinType::Pulse;

    let bytes = config.to_bytes();
    let config2 = PinConfig::from_bytes(&bytes);

    assert_eq!(config.types[0], config2.types[0]);
    assert_eq!(config.types[1], config2.types[1]);
    assert_eq!(config.types[159], config2.types[159]);
}

#[test]
fn vector_xor_and_indices() {
    let mut a = Vector::zero();
    a.set_bit(3, true);
    a.set_bit(100, true);
    let b = Vector::ones();
    let x = a.xor(&b);
    assert_eq!(x.popcount(), 158);
    assert!(!x.get_bit(3));
    assert_eq!(a.ones_indices(), vec![3u8, 100u8]);
    let c = Vector::from_indices(&[3, 100]);
    assert_eq!(c, a);
}

#[test]
fn vector_hex_errors() {
    assert!(Vector::from_hex("0102").is_err());
    assert!(Vector::from_hex("zz02030405060708090a0b0c0d0e0f1011121314").is_err());
    let v = Vector::from_hex("  FF02030405060708090a0b0c0d0e0f1011121314  ").unwrap();
    assert_eq!(v.data[0], 0xFF);
    assert!(Vector::from_binary("0101").is_err());
}

#[test]
fn opcode_counts_walk_instructions() {
    let data = vec![
        OP_VECTOR_ZERO,
        OP_VECTOR_RUN, 0, 0, 0, 5,
        OP_VECTOR_SPARSE, 2, 1, 3,
        OP_VECTOR_ONES,
        OP_END,
    ];
    let fbc = FbcFile { header: FbcHeader::default(), pin_config: PinConfig::default(), data };
    assert_eq!(fbc.opcode_counts(), [0, 0, 1, 1, 1, 1, 0, 1]);
}

#[test]
fn vector_text_forms_read_back() {
    let mut v = Vector::zero();
    for p in [0usize, 7, 8, 63, 100, 159] {
        v.set_bit(p, true);
    }
    let back = Vector::from_hex(&v.to_hex()).unwrap();
    assert_eq!(back.to_hex(), v.to_hex());
    assert!(back.same(&v));
    let back = Vector::from_binary(&v.to_binary()).unwrap();
    assert!(back.same(&v));
    assert_eq!(back.to_binary(), v.to_binary());
}

#[test]
fn vector_text_errors_name_the_fault() {
    assert_eq!(Vector::from_hex("0102").unwrap_err(), "Expected 40 hex chars, got 4");
    let bad = "01020304050607080g0a0b0c0d0e0f1011121314";
    assert_eq!(Vector::from_hex(bad).unwrap_err(), "Invalid hex at position 16: invalid digit found in string");
    assert_eq!(Vector::from_binary("0101").unwrap_err(), "Expected 160 binary chars, got 4");
    let mut bin = "0".repeat(160);
    bin.replace_range(7..8, "q");
    assert_eq!(Vector::from_binary(&bin).unwrap_err(), "Invalid binary char 'q' at position 7");
}

#[test]
fn pin_lists_and_hex_read_back() {
    let v = Vector::from_indices(&[159, 3, 3, 200, 0, 77]);
    let idx = v.ones_indices();
    assert_eq!(idx, vec![0, 3, 77, 159]);
    assert_eq!(idx.len(), v.popcount());
    assert!(idx.windows(2).all(|w| w[0] < w[1]));
    for p in 0..160usize {
        assert_eq!(idx.contains(&(p as u8)), v.get_bit(p));
    }
    assert_eq!(Vector::from_indices(&idx), v);
    assert_eq!(Vector::from_indices(&[3, 3, 200]), Vector::from_indices(&[3]));
    assert_eq!(Vector::from_hex(&v.to_hex()).unwrap(), v);
    assert_eq!(Vector::from_hex(&Vector::ones().to_hex()).unwrap(), Vector::ones());
}
