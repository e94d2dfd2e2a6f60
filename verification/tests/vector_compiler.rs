use fbc_host::vector::compiler::{compile_fvec, CompilerConfig, VectorCompiler, VectorDecompiler};
use fbc_host::vector::format::{
    FbcFile, ThermalPowerLevel, Vector, FBC_MAGIC, OP_VECTOR_ONES, OP_VECTOR_SPARSE, OP_VECTOR_ZERO,
};
use fbc_host::vector::fvec::FvecProgram;

#[test]
fn test_compile_empty() {
    let program = FvecProgram::default();
    let fbc = compile_fvec(&program);

    assert_eq!(fbc.header.magic, FBC_MAGIC);
    assert_eq!(fbc.header.num_vectors, 0);
    assert!(fbc.data.len() >= 1);
}

#[test]
fn test_compile_zero_ones() {
    let program = FvecProgram::from_str(
        r#"
            ZERO
            ONES
            ZERO
        "#,
    )
    .unwrap();

    let fbc = compile_fvec(&program);
    assert_eq!(fbc.header.num_vectors, 3);

    assert!(fbc.data.contains(&OP_VECTOR_ZERO));
    assert!(fbc.data.contains(&OP_VECTOR_ONES));
}

#[test]
fn test_compile_run() {
    let program = FvecProgram::from_str(
        r#"
            ZERO REPEAT 1000
        "#,
    )
    .unwrap();

    let fbc = compile_fvec(&program);
    assert_eq!(fbc.header.num_vectors, 1000);
    assert!(fbc.data.len() < 20);
}

#[test]
fn test_compile_sparse() {
    let program = FvecProgram::from_str(
        r#"
            ZERO
            TOGGLE 0 1 2
            TOGGLE 0
        "#,
    )
    .unwrap();

    let fbc = compile_fvec(&program);
    assert_eq!(fbc.header.num_vectors, 3);
    assert!(fbc.data.contains(&OP_VECTOR_SPARSE));
}

#[test]
fn test_roundtrip() {
    let program = FvecProgram::from_str(
        r#"
            ZERO
            ONES
            ZERO REPEAT 5
            TOGGLE 0 10 20
            TOGGLE 0
        "#,
    )
    .unwrap();

    let fbc = compile_fvec(&program);

    let mut decomp = VectorDecompiler::new(&fbc);
    let vectors = decomp.to_vec();

    assert_eq!(vectors.len(), 9);

    assert_eq!(vectors[0], Vector::zero());
    assert_eq!(vectors[1], Vector::ones());
    assert_eq!(vectors[2], Vector::zero());
    assert_eq!(vectors[6], Vector::zero());

    assert!(vectors[7].get_bit(0));
    assert!(vectors[7].get_bit(10));
    assert!(vectors[7].get_bit(20));
    assert!(!vectors[7].get_bit(1));

    assert!(!vectors[8].get_bit(0));
    assert!(vectors[8].get_bit(10));
    assert!(vectors[8].get_bit(20));
}

#[test]
fn test_crc() {
    let program = FvecProgram::from_str("ZERO REPEAT 100").unwrap();
    let fbc = compile_fvec(&program);

    assert!(fbc.validate_crc());
}

#[test]
fn test_thermal_profile() {
    let program = FvecProgram::from_str(
        r#"
            ZERO REPEAT 2048
            ONES REPEAT 2048
        "#,
    )
    .unwrap();

    let fbc = compile_fvec(&program);

    assert!(fbc.has_thermal_profile());
    assert_eq!(fbc.thermal_segment_count(), 4);

    let profile = fbc.thermal_profile().unwrap();
    assert_eq!(profile.segments.len(), 4);

    assert_eq!(profile.segments[0].vector_offset, 0);
    assert_eq!(profile.segments[0].avg_toggle_rate, 0);
    assert_eq!(profile.segments[0].avg_active_pins, 0);
    assert_eq!(profile.segments[0].power_level, ThermalPowerLevel::Low);

    assert_eq!(profile.segments[1].vector_offset, 1024);

    assert_eq!(profile.segments[2].vector_offset, 2048);
    assert_eq!(profile.segments[2].avg_active_pins, 160);

    assert_eq!(profile.segments[3].vector_offset, 3072);
    assert_eq!(profile.segments[3].avg_active_pins, 160);

    assert!(fbc.validate_crc());
}

#[test]
fn test_thermal_profile_small() {
    let program = FvecProgram::from_str("ZERO REPEAT 100").unwrap();
    let fbc = compile_fvec(&program);

    assert!(fbc.has_thermal_profile());
    assert_eq!(fbc.thermal_segment_count(), 1);

    let profile = fbc.thermal_profile().unwrap();
    assert_eq!(profile.segments[0].vector_offset, 0);
    assert_eq!(profile.segments[0].avg_toggle_rate, 0);
    assert_eq!(profile.segments[0].power_level, ThermalPowerLevel::Low);
}

#[test]
fn compiled_file_reads_back_after_writing() {
    let program = FvecProgram::from_str("ZERO\nTOGGLE 5 6\nONES REPEAT 3\n").unwrap();
    let fbc = compile_fvec(&program);
    let mut bytes = Vec::new();
    fbc.write_to(&mut bytes);
    let back = FbcFile::read_from(&bytes).unwrap();
    assert_eq!(back.data, fbc.data);
    assert_eq!(bytes.len(), 112 + fbc.data.len());
    assert_eq!(&bytes[20..24], &fbc.header.crc32.to_le_bytes());
    assert_eq!(back.header.crc32, fbc.header.crc32);
    assert!(back.validate_crc());
    assert_eq!(back.calculate_crc(), fbc.header.crc32);
    let mut decomp = VectorDecompiler::new(&back);
    let vs = decomp.to_vec();
    assert_eq!(vs.len(), 5);
    assert!(vs[1].get_bit(5) && vs[1].get_bit(6));
    assert_eq!(vs[4], Vector::ones());
}

#[test]
fn compiler_without_runs_repeats_vectors() {
    let program = FvecProgram::from_str("ONES REPEAT 3\n").unwrap();
    let compiler = VectorCompiler::with_config(CompilerConfig {
        min_run_length: 10,
        sparse_crossover: 20,
        enable_xor: false,
    });
    let fbc = compiler.compile(&program);
    let mut decomp = VectorDecompiler::new(&fbc);
    assert_eq!(decomp.to_vec().len(), 3);
    // Without a run the three copies take one byte each.
    assert_eq!(&fbc.data[0..4], &[fbc.data[0], fbc.data[0], fbc.data[0], 0x07]);
    let runs = VectorCompiler::new().compile(&program);
    assert_eq!(VectorDecompiler::new(&runs).to_vec().len(), 3);
}

#[test]
fn repeated_vectors_do_not_toggle() {
    let program = FvecProgram::from_str("ZERO REPEAT 2048\nONES REPEAT 2048").unwrap();
    let fbc = compile_fvec(&program);
    let profile = fbc.thermal_profile().unwrap();
    assert_eq!(profile.segments.len(), 4);
    assert_eq!(profile.segments[2].avg_toggle_rate, 0);
    assert_eq!(profile.segments[3].avg_toggle_rate, 0);
    assert_eq!(profile.segments[2].avg_active_pins, 160);
    // One ONES vector after 1023 ZEROs: 160 toggles over 1024 vectors.
    let short = FvecProgram::from_str("ZERO REPEAT 1023\nONES REPEAT 4").unwrap();
    let p2 = compile_fvec(&short).thermal_profile().unwrap();
    assert_eq!(p2.segments[0].avg_toggle_rate, 0);
    assert_eq!(p2.segments[1].avg_toggle_rate, 0);
    assert_eq!(p2.segments[1].avg_active_pins, 160);
    let single = FvecProgram::from_str("ONES\nZERO").unwrap();
    let p3 = compile_fvec(&single).thermal_profile().unwrap();
    assert_eq!(p3.segments[0].avg_toggle_rate, 160);
}

#[test]
fn sparse_toggle_of_high_pin_roundtrips() {
    let program = FvecProgram::from_str("ZERO\nTOGGLE 130\nTOGGLE 159 3\n").unwrap();
    let fbc = compile_fvec(&program);
    let vs = VectorDecompiler::new(&fbc).to_vec();
    assert_eq!(vs.len(), 3);
    assert_eq!(vs[1], Vector::from_indices(&[130]));
    assert_eq!(vs[2], Vector::from_indices(&[3, 130, 159]));
    for (i, e) in program.vectors.iter().enumerate() {
        assert_eq!(vs[i], e.vector);
    }
}
