use fbc_host::sonoma::{
    expand_ip_range, load_vectors_command, locked_command, pll_on_off_command, read_mem_command, run_vector_debug_command,
    run_vectors_command, set_frequency_command, set_pin_type_command, set_pulse_delays_command, toggle_mio_command,
    vicor_map, write_mem_command,
};

#[test]
fn board_commands() {
    assert_eq!(locked_command("echo ok"), "flock -x /tmp/LockBit echo ok");
    assert_eq!(load_vectors_command("a.seq", "a.hex"), "/mnt/bin/linux_load_vectors.elf a.seq a.hex");
    assert_eq!(run_vectors_command("t.seq", 60, true), "/mnt/bin/RunSuperVector.elf t.seq 60 1");
    assert_eq!(run_vectors_command("t.seq", 0, false), "/mnt/bin/RunSuperVector.elf t.seq 0 0");
    assert_eq!(run_vector_debug_command(3, 1, "tst", false), "/mnt/bin/linux_run_vector.elf 3 1 tst 0 0 0");
    assert_eq!(set_frequency_command(1, 50000000, 50), "/mnt/bin/linux_xpll_frequency.elf 1 50000000 0 50");
    assert_eq!(pll_on_off_command([true, false, true, true]), "/mnt/bin/linux_xpll_off_on.elf 1 0 1 1");
    assert_eq!(set_pin_type_command(12, 4), "/mnt/bin/linux_pin_type.elf 12 4");
    assert_eq!(set_pulse_delays_command(1, 4, 10, 20, 100), "/mnt/bin/linux_Pulse_Delays.elf 1 4 10 20 100");
    assert_eq!(toggle_mio_command(39, 1), "/mnt/bin/ToggleMio.elf 39 1");
    assert_eq!(read_mem_command(0x4000_00AB), "/mnt/rwmem.elf 0x400000AB");
    assert_eq!(write_mem_command(0x10, 0xDEADBEEF), "/mnt/rwmem.elf 0x00000010 0xDEADBEEF");
}

#[test]
fn host_vicor_and_ranges() {
    assert_eq!(vicor_map(3), Ok((7, 47)));
    assert_eq!(vicor_map(9), Err("Invalid VICOR core 9, must be 1-6".to_string()));
    assert_eq!(expand_ip_range("101-103"), Ok(vec!["172.16.0.101".to_string(), "172.16.0.102".to_string(), "172.16.0.103".to_string()]));
    assert!(expand_ip_range("5").is_err());
}
