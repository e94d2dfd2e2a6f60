//! Sonoma board helpers: the VICOR core wiring, board address ranges and
//! the shell commands that drive a board's tools.

use vstd::prelude::*;
use crate::text::{
    chars_of, dec_chars, hex2_upper, parse_dec_max, parse_unsigned, push_decimal, push_hex2_upper, push_str, split,
    split_chars, string_from_chars,
};

verus! {

/// The (DAC channel, MIO pin) that drive VICOR core `core` (1-6).
pub open spec fn vicor_wiring(core: int) -> (u8, u8) {
    if core == 1 {
        (9, 0)
    } else if core == 2 {
        (3, 39)
    } else if core == 3 {
        (7, 47)
    } else if core == 4 {
        (8, 8)
    } else if core == 5 {
        (4, 38)
    } else {
        (2, 37)
    }
}

/// The message for a core number outside 1-6.
pub open spec fn bad_core_message(core: u8) -> Seq<char> {
    "Invalid VICOR core "@ + dec_chars(core as nat) + ", must be 1-6"@
}

/// The DAC channel and MIO pin of a VICOR core (1-6).
pub fn vicor_map(core: u8) -> (r: Result<(u8, u8), String>)
    ensures
        1 <= core <= 6 ==> r == Ok::<(u8, u8), String>(vicor_wiring(core as int)),
        !(1 <= core <= 6) ==> (r matches Err(m) && m@ == bad_core_message(core)),
{
    if core < 1 || core > 6 {
        let mut out: Vec<char> = Vec::new();
        push_str(&mut out, "Invalid VICOR core ");
        push_decimal(&mut out, core as u64);
        push_str(&mut out, ", must be 1-6");
        return Err(string_from_chars(out.as_slice()));
    }
    let r: (u8, u8) = if core == 1 {
        (9, 0)
    } else if core == 2 {
        (3, 39)
    } else if core == 3 {
        (7, 47)
    } else if core == 4 {
        (8, 8)
    } else if core == 5 {
        (4, 38)
    } else {
        (2, 37)
    };
    Ok(r)
}

/// `172.16.0.{i}`.
pub open spec fn board_ip(i: int) -> Seq<char> {
    "172.16.0."@ + dec_chars(i as nat)
}

fn ip_of(i: u8) -> (r: String)
    ensures
        r@ == board_ip(i as int),
{
    let mut out: Vec<char> = Vec::new();
    push_str(&mut out, "172.16.0.");
    push_decimal(&mut out, i as u64);
    string_from_chars(out.as_slice())
}

/// The board addresses `172.16.0.start` to `172.16.0.end`, or the message
/// for a reversed range.
pub fn ip_range(start: u8, end: u8) -> (r: Result<Vec<String>, String>)
    ensures
        start <= end ==> (r matches Ok(v) && v@.len() == end - start + 1 && forall|k: int|
            0 <= k < v@.len() ==> (#[trigger] v@[k])@ == board_ip(start + k)),
        start > end ==> (r matches Err(m) && m@ == "Start "@ + dec_chars(start as nat) + " > end "@
            + dec_chars(end as nat) + " in range"@),
{
    if start > end {
        let mut out: Vec<char> = Vec::new();
        push_str(&mut out, "Start ");
        push_decimal(&mut out, start as u64);
        push_str(&mut out, " > end ");
        push_decimal(&mut out, end as u64);
        push_str(&mut out, " in range");
        return Err(string_from_chars(out.as_slice()));
    }
    let mut v: Vec<String> = Vec::new();
    let mut i: u8 = start;
    loop
        invariant_except_break
            v@.len() == i - start,
        invariant
            start <= i <= end,
            forall|k: int| 0 <= k < v@.len() ==> (#[trigger] v@[k])@ == board_ip(start + k),
        ensures
            v@.len() == end - start + 1,
        decreases end - i,
    {
        v.push(ip_of(i));
        if i == end {
            break;
        }
        i = i + 1;
    }
    Ok(v)
}

/// What a range text `START-END` gives: each bound what `u8` parsing
/// accepts.
pub open spec fn range_bounds(s: Seq<char>) -> Result<(u8, u8), Seq<char>> {
    let parts = split(s, '-');
    if parts.len() != 2 {
        Err("Invalid range '"@ + s + "', expected START-END (e.g., 101-144)"@)
    } else {
        match parse_unsigned(parts[0], 255) {
            None => Err("Invalid start '"@ + parts[0] + "' in range"@),
            Some(a) => match parse_unsigned(parts[1], 255) {
                None => Err("Invalid end '"@ + parts[1] + "' in range"@),
                Some(b) => Ok((a as u8, b as u8)),
            },
        }
    }
}

fn quoted_error(prefix: &str, text: &[char], suffix: &str) -> (r: String)
    ensures
        r@ == prefix@ + text@ + suffix@,
{
    let mut out: Vec<char> = Vec::new();
    push_str(&mut out, prefix);
    let mut i: usize = 0;
    while i < text.len()
        invariant
            i <= text@.len(),
            out@ == prefix@ + text@.take(i as int),
        decreases text.len() - i,
    {
        out.push(text[i]);
        assert(text@.take(i + 1) =~= text@.take(i as int).push(text@[i as int]));
        i = i + 1;
    }
    assert(text@.take(text@.len() as int) =~= text@);
    push_str(&mut out, suffix);
    assert(out@ =~= prefix@ + text@ + suffix@);
    string_from_chars(out.as_slice())
}

/// Expand a range text such as `101-104` to the board addresses
/// `172.16.0.101` to `172.16.0.104`.
pub fn expand_ip_range(range: &str) -> (r: Result<Vec<String>, String>)
    ensures
        match range_bounds(range@) {
            Err(m) => r matches Err(e) && e@ == m,
            Ok((a, b)) => a <= b ==> (r matches Ok(v) && v@.len() == b - a + 1 && forall|k: int|
                0 <= k < v@.len() ==> (#[trigger] v@[k])@ == board_ip(a + k)),
        },
        match range_bounds(range@) {
            Err(_) => true,
            Ok((a, b)) => a > b ==> (r matches Err(e) && e@ == "Start "@ + dec_chars(a as nat)
                + " > end "@ + dec_chars(b as nat) + " in range"@),
        },
{
    let v = chars_of(range);
    let parts = split_chars(v.as_slice(), '-');
    if parts.len() != 2 {
        return Err(quoted_error("Invalid range '", v.as_slice(), "', expected START-END (e.g., 101-144)"));
    }
    let start = match parse_dec_max(parts[0].as_slice(), 255) {
        Some(x) => x as u8,
        None => return Err(quoted_error("Invalid start '", parts[0].as_slice(), "' in range")),
    };
    let end = match parse_dec_max(parts[1].as_slice(), 255) {
        Some(x) => x as u8,
        None => return Err(quoted_error("Invalid end '", parts[1].as_slice(), "' in range")),
    };
    ip_range(start, end)
}

// -----------------------------------------------------------------------------
// Board commands
// -----------------------------------------------------------------------------

/// A command run under the board's hardware lock.
pub fn locked_command(cmd: &str) -> (r: String)
    ensures
        r@ == "flock -x /tmp/LockBit "@ + cmd@,
{
    let mut m: Vec<char> = Vec::new();
    push_str(&mut m, "flock -x /tmp/LockBit ");
    push_str(&mut m, cmd);
    string_from_chars(m.as_slice())
}

/// `{:08X}`: eight upper-case hexadecimal digits.
pub open spec fn hex8_upper(x: u32) -> Seq<char> {
    hex2_upper((x / 0x1000000) as u8) + hex2_upper(((x / 0x10000) % 0x100) as u8) + hex2_upper(
        ((x / 0x100) % 0x100) as u8,
    ) + hex2_upper((x % 0x100) as u8)
}

pub(crate) fn push_hex8_upper(out: &mut Vec<char>, x: u32)
    ensures
        final(out)@ == old(out)@ + hex8_upper(x),
{
    push_hex2_upper(out, (x / 0x1000000) as u8);
    push_hex2_upper(out, ((x / 0x10000) % 0x100) as u8);
    push_hex2_upper(out, ((x / 0x100) % 0x100) as u8);
    push_hex2_upper(out, (x % 0x100) as u8);
    assert(final(out)@ =~= old(out)@ + hex8_upper(x));
}

/// Loading vector files already on the board.
pub fn load_vectors_command(seq: &str, hex: &str) -> (r: String)
    ensures
        r@ == "/mnt/bin/linux_load_vectors.elf "@ + seq@ + " "@ + hex@,
{
    let mut m: Vec<char> = Vec::new();
    push_str(&mut m, "/mnt/bin/linux_load_vectors.elf ");
    push_str(&mut m, seq);
    push_str(&mut m, " ");
    push_str(&mut m, hex);
    string_from_chars(m.as_slice())
}

/// Running vectors for `time_s` seconds (debug flag 1 or 0).
pub fn run_vectors_command(seq: &str, time_s: u32, debug: bool) -> (r: String)
    ensures
        r@ == "/mnt/bin/RunSuperVector.elf "@ + seq@ + " "@ + dec_chars(time_s as nat) + " "@ + (if debug {
            "1"@
        } else {
            "0"@
        }),
{
    let mut m: Vec<char> = Vec::new();
    push_str(&mut m, "/mnt/bin/RunSuperVector.elf ");
    push_str(&mut m, seq);
    push_str(&mut m, " ");
    push_decimal(&mut m, time_s as u64);
    push_str(&mut m, " ");
    if debug {
        push_str(&mut m, "1");
    } else {
        push_str(&mut m, "0");
    }
    string_from_chars(m.as_slice())
}

/// Running one vector pattern in debug mode.
pub fn run_vector_debug_command(pattern: u8, freq_en: u8, test_name: &str, log_data: bool) -> (r: String)
    ensures
        r@ == "/mnt/bin/linux_run_vector.elf "@ + dec_chars(pattern as nat) + " "@ + dec_chars(freq_en as nat) + " "@
            + test_name@ + " "@ + (if log_data { "1"@ } else { "0"@ }) + " 0 0"@,
{
    let mut m: Vec<char> = Vec::new();
    push_str(&mut m, "/mnt/bin/linux_run_vector.elf ");
    push_decimal(&mut m, pattern as u64);
    push_str(&mut m, " ");
    push_decimal(&mut m, freq_en as u64);
    push_str(&mut m, " ");
    push_str(&mut m, test_name);
    push_str(&mut m, " ");
    if log_data {
        push_str(&mut m, "1");
    } else {
        push_str(&mut m, "0");
    }
    push_str(&mut m, " 0 0");
    string_from_chars(m.as_slice())
}

/// Setting a PLL's frequency and duty cycle.
pub fn set_frequency_command(pll: u8, freq_hz: u32, duty_cycle: u8) -> (r: String)
    ensures
        r@ == "/mnt/bin/linux_xpll_frequency.elf "@ + dec_chars(pll as nat) + " "@ + dec_chars(freq_hz as nat) + " 0 "@
            + dec_chars(duty_cycle as nat),
{
    let mut m: Vec<char> = Vec::new();
    push_str(&mut m, "/mnt/bin/linux_xpll_frequency.elf ");
    push_decimal(&mut m, pll as u64);
    push_str(&mut m, " ");
    push_decimal(&mut m, freq_hz as u64);
    push_str(&mut m, " 0 ");
    push_decimal(&mut m, duty_cycle as u64);
    string_from_chars(m.as_slice())
}

pub open spec fn flag_text(b: bool) -> Seq<char> {
    if b { "1"@ } else { "0"@ }
}

/// Turning the four PLLs on or off.
pub fn pll_on_off_command(states: [bool; 4]) -> (r: String)
    ensures
        r@ == "/mnt/bin/linux_xpll_off_on.elf "@ + flag_text(states[0]) + " "@ + flag_text(states[1]) + " "@
            + flag_text(states[2]) + " "@ + flag_text(states[3]),
{
    let mut m: Vec<char> = Vec::new();
    push_str(&mut m, "/mnt/bin/linux_xpll_off_on.elf ");
    let mut i: usize = 0;
    let ghost head = m@;
    while i < 4
        invariant
            i <= 4,
            m@ == head + (if i >= 1 { flag_text(states[0]) } else { Seq::<char>::empty() }) + (if i >= 2 {
                " "@ + flag_text(states[1])
            } else {
                Seq::<char>::empty()
            }) + (if i >= 3 { " "@ + flag_text(states[2]) } else { Seq::<char>::empty() }) + (if i >= 4 {
                " "@ + flag_text(states[3])
            } else {
                Seq::<char>::empty()
            }),
        decreases 4 - i,
    {
        if i > 0 {
            push_str(&mut m, " ");
        }
        if states[i] {
            push_str(&mut m, "1");
        } else {
            push_str(&mut m, "0");
        }
        proof {
            if i == 0 {
                assert(m@ =~= head + flag_text(states[0]) + Seq::<char>::empty() + Seq::<char>::empty()
                    + Seq::<char>::empty());
            } else if i == 1 {
                assert(m@ =~= head + flag_text(states[0]) + (" "@ + flag_text(states[1])) + Seq::<char>::empty()
                    + Seq::<char>::empty());
            } else if i == 2 {
                assert(m@ =~= head + flag_text(states[0]) + (" "@ + flag_text(states[1])) + (" "@ + flag_text(
                    states[2],
                )) + Seq::<char>::empty());
            } else {
                assert(m@ =~= head + flag_text(states[0]) + (" "@ + flag_text(states[1])) + (" "@ + flag_text(
                    states[2],
                )) + (" "@ + flag_text(states[3])));
            }
        }
        i = i + 1;
    }
    assert(m@ =~= "/mnt/bin/linux_xpll_off_on.elf "@ + flag_text(states[0]) + " "@ + flag_text(states[1]) + " "@
        + flag_text(states[2]) + " "@ + flag_text(states[3]));
    string_from_chars(m.as_slice())
}

/// Setting a pin's type.
pub fn set_pin_type_command(pin: u8, pin_type: u8) -> (r: String)
    ensures
        r@ == "/mnt/bin/linux_pin_type.elf "@ + dec_chars(pin as nat) + " "@ + dec_chars(pin_type as nat),
{
    let mut m: Vec<char> = Vec::new();
    push_str(&mut m, "/mnt/bin/linux_pin_type.elf ");
    push_decimal(&mut m, pin as u64);
    push_str(&mut m, " ");
    push_decimal(&mut m, pin_type as u64);
    string_from_chars(m.as_slice())
}

/// Setting a pin's pulse delays.
pub fn set_pulse_delays_command(pin: u8, ptype: u8, rise: u32, fall: u32, period: u32) -> (r: String)
    ensures
        r@ == "/mnt/bin/linux_Pulse_Delays.elf "@ + dec_chars(pin as nat) + " "@ + dec_chars(ptype as nat) + " "@
            + dec_chars(rise as nat) + " "@ + dec_chars(fall as nat) + " "@ + dec_chars(period as nat),
{
    let mut m: Vec<char> = Vec::new();
    push_str(&mut m, "/mnt/bin/linux_Pulse_Delays.elf ");
    push_decimal(&mut m, pin as u64);
    push_str(&mut m, " ");
    push_decimal(&mut m, ptype as u64);
    push_str(&mut m, " ");
    push_decimal(&mut m, rise as u64);
    push_str(&mut m, " ");
    push_decimal(&mut m, fall as u64);
    push_str(&mut m, " ");
    push_decimal(&mut m, period as u64);
    string_from_chars(m.as_slice())
}

/// Setting an MIO pin.
pub fn toggle_mio_command(pin: u8, value: u8) -> (r: String)
    ensures
        r@ == "/mnt/bin/ToggleMio.elf "@ + dec_chars(pin as nat) + " "@ + dec_chars(value as nat),
{
    let mut m: Vec<char> = Vec::new();
    push_str(&mut m, "/mnt/bin/ToggleMio.elf ");
    push_decimal(&mut m, pin as u64);
    push_str(&mut m, " ");
    push_decimal(&mut m, value as u64);
    string_from_chars(m.as_slice())
}

/// Reading a memory word.
pub fn read_mem_command(addr: u32) -> (r: String)
    ensures
        r@ == "/mnt/rwmem.elf 0x"@ + hex8_upper(addr),
{
    let mut m: Vec<char> = Vec::new();
    push_str(&mut m, "/mnt/rwmem.elf 0x");
    push_hex8_upper(&mut m, addr);
    string_from_chars(m.as_slice())
}

/// Writing a memory word.
pub fn write_mem_command(addr: u32, value: u32) -> (r: String)
    ensures
        r@ == "/mnt/rwmem.elf 0x"@ + hex8_upper(addr) + " 0x"@ + hex8_upper(value),
{
    let mut m: Vec<char> = Vec::new();
    push_str(&mut m, "/mnt/rwmem.elf 0x");
    push_hex8_upper(&mut m, addr);
    push_str(&mut m, " 0x");
    push_hex8_upper(&mut m, value);
    string_from_chars(m.as_slice())
}

} // verus!
