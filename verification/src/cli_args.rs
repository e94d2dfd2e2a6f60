//! Arguments of the host tool's subcommands: power-on voltages, PMBus
//! addresses and switches, EEPROM data, PLL states and fleet board lists.

use vstd::prelude::*;
use crate::text::{
    all_ascii, chars_of, dec_chars, eq_str, int_error_message, int_error_text, parse_uint_radix,
    push_chars, push_decimal, push_str, slice_range, split, split_chars, str_to_lowercase,
    string_from_chars, to_lowercase_string, trim, trimmed, uint_parse, IntErrorKind,
};
use crate::types::{range_message, voltage_ok, ControllerState, SystemType};

verus! {

/// The `u16` values of pieces, each trimmed, as `str::parse` reads them,
/// or the error of the first piece that is none.
pub open spec fn u16_values(ps: Seq<Seq<char>>) -> Result<Seq<u16>, IntErrorKind>
    decreases ps.len(),
{
    if ps.len() == 0 {
        Ok(seq![])
    } else {
        match u16_values(ps.drop_last()) {
            Err(e) => Err(e),
            Ok(v) => match uint_parse(trim(ps.last()), 10, 0xffff) {
                Ok(x) => Ok(v.push(x as u16)),
                Err(e) => Err(e),
            },
        }
    }
}

/// The index of the first voltage that the limits refuse.
pub open spec fn first_refused(v: Seq<u16>, min: u16, max: u16) -> Option<int>
    decreases v.len(),
{
    if v.len() == 0 {
        None
    } else {
        match first_refused(v.drop_last(), min, max) {
            Some(i) => Some(i),
            None => if voltage_ok(v.last(), min, max) {
                None
            } else {
                Some(v.len() - 1)
            },
        }
    }
}

/// What a power-on argument gives: six comma-separated millivolt values,
/// each 0 or within the FBC profile's VICOR limits; else the message of
/// the first failure.
pub open spec fn power_voltages_of(s: Seq<char>) -> Result<Seq<u16>, Seq<char>> {
    let lim = SystemType::Fbc.profile_spec().voltage_limits;
    match u16_values(split(s, ',')) {
        Err(e) => Err(int_error_text(e)),
        Ok(v) => if v.len() != 6 {
            Err("Expected 6 voltages, got "@ + dec_chars(v.len()))
        } else {
            match first_refused(v, lim.vicor_min_mv, lim.vicor_max_mv) {
                Some(i) => Err(
                    "Core "@ + dec_chars(i as nat) + ": "@ + range_message(
                        "VICOR"@,
                        v[i],
                        lim.vicor_min_mv,
                        lim.vicor_max_mv,
                    ),
                ),
                None => Ok(v),
            }
        },
    }
}

proof fn lemma_u16_values_err_prefix(ps: Seq<Seq<char>>, j: int)
    requires
        0 <= j <= ps.len(),
        u16_values(ps.take(j)) is Err,
    ensures
        u16_values(ps) == u16_values(ps.take(j)),
    decreases ps.len(),
{
    if j < ps.len() {
        assert(ps.drop_last().take(j) =~= ps.take(j));
        lemma_u16_values_err_prefix(ps.drop_last(), j);
    } else {
        assert(ps.take(j) =~= ps);
    }
}

proof fn lemma_first_refused_prefix(v: Seq<u16>, j: int, min: u16, max: u16)
    requires
        0 <= j <= v.len(),
        first_refused(v.take(j), min, max) is Some,
    ensures
        first_refused(v, min, max) == first_refused(v.take(j), min, max),
    decreases v.len(),
{
    if j < v.len() {
        assert(v.drop_last().take(j) =~= v.take(j));
        lemma_first_refused_prefix(v.drop_last(), j, min, max);
    } else {
        assert(v.take(j) =~= v);
    }
}

fn text_of(s: &str) -> (r: String)
    ensures
        r@ == s@,
{
    let mut out: Vec<char> = Vec::new();
    push_str(&mut out, s);
    string_from_chars(out.as_slice())
}

/// Parse the power-on voltages: six comma-separated millivolt values,
/// each checked against the FBC profile's VICOR limits.
pub fn parse_power_voltages(voltages: &str) -> (r: Result<[u16; 6], String>)
    ensures
        match power_voltages_of(voltages@) {
            Ok(v) => r matches Ok(a) && a@ == v,
            Err(e) => r matches Err(m) && m@ == e,
        },
{
    let chars = chars_of(voltages);
    let pieces = split_chars(chars.as_slice(), ',');
    let ghost ps = split(voltages@, ',');
    let mut v: Vec<u16> = Vec::new();
    let mut k: usize = 0;
    assert(ps.take(0) =~= Seq::<Seq<char>>::empty());
    while k < pieces.len()
        invariant
            chars@ == voltages@,
            ps == split(voltages@, ','),
            pieces@.len() == ps.len(),
            forall|i: int| 0 <= i < pieces@.len() ==> #[trigger] pieces@[i]@ == ps[i],
            k <= pieces@.len(),
            u16_values(ps.take(k as int)) == Ok::<Seq<u16>, IntErrorKind>(v@),
        decreases pieces.len() - k,
    {
        assert(ps.take(k + 1).drop_last() =~= ps.take(k as int));
        assert(ps.take(k + 1).last() == pieces@[k as int]@);
        let t = trimmed(pieces[k].as_slice());
        match parse_uint_radix(t.as_slice(), 10, 0xffff) {
            Ok(x) => {
                v.push(x as u16);
            },
            Err(e) => {
                proof {
                    lemma_u16_values_err_prefix(ps, k + 1);
                }
                return Err(text_of(int_error_message(e)));
            },
        }
        k = k + 1;
    }
    assert(ps.take(ps.len() as int) =~= ps);
    if v.len() != 6 {
        let mut m: Vec<char> = Vec::new();
        push_str(&mut m, "Expected 6 voltages, got ");
        push_decimal(&mut m, v.len() as u64);
        return Err(string_from_chars(m.as_slice()));
    }
    let profile = SystemType::Fbc.profile();
    let ghost lim = profile.voltage_limits;
    let mut i: usize = 0;
    assert(v@.take(0) =~= Seq::<u16>::empty());
    while i < 6
        invariant
            v@.len() == 6,
            lim == profile.voltage_limits,
            profile == SystemType::Fbc.profile_spec(),
            u16_values(split(voltages@, ',')) == Ok::<Seq<u16>, IntErrorKind>(v@),
            i <= 6,
            first_refused(v@.take(i as int), lim.vicor_min_mv, lim.vicor_max_mv) is None,
        decreases 6 - i,
    {
        assert(v@.take(i + 1).drop_last() =~= v@.take(i as int));
        assert(v@.take(i + 1).last() == v@[i as int]);
        match profile.voltage_limits.validate_vicor(v[i]) {
            Ok(()) => {},
            Err(e) => {
                proof {
                    lemma_first_refused_prefix(v@, i + 1, lim.vicor_min_mv, lim.vicor_max_mv);
                }
                let mut m: Vec<char> = Vec::new();
                push_str(&mut m, "Core ");
                push_decimal(&mut m, i as u64);
                push_str(&mut m, ": ");
                let ec = chars_of(e.as_str());
                push_chars(&mut m, ec.as_slice());
                return Err(string_from_chars(m.as_slice()));
            },
        }
        i = i + 1;
    }
    assert(v@.take(6) =~= v@);
    let a: [u16; 6] = [v[0], v[1], v[2], v[3], v[4], v[5]];
    assert(a@ =~= v@);
    Ok(a)
}

/// What a PMBus address argument denotes: `0x` or `0X` then hex digits,
/// else decimal, as `u8` parsing reads them.
pub open spec fn pmbus_addr_of(s: Seq<char>) -> Result<int, IntErrorKind> {
    if s.len() >= 2 && s[0] == '0' && (s[1] == 'x' || s[1] == 'X') {
        uint_parse(s.skip(2), 16, 0xff)
    } else {
        uint_parse(s, 10, 0xff)
    }
}

/// Parse a PMBus device address (hex with a `0x` prefix, else decimal).
pub fn parse_pmbus_addr(addr: &str) -> (r: Result<u8, IntErrorKind>)
    ensures
        match pmbus_addr_of(addr@) {
            Ok(x) => r == Ok::<u8, IntErrorKind>(x as u8),
            Err(e) => r == Err::<u8, IntErrorKind>(e),
        },
{
    let v = chars_of(addr);
    let n = v.len();
    if n >= 2 && v[0] == '0' && (v[1] == 'x' || v[1] == 'X') {
        let digits = slice_range(v.as_slice(), 2, n);
        assert(digits@ =~= addr@.skip(2));
        match parse_uint_radix(digits.as_slice(), 16, 0xff) {
            Ok(x) => Ok(x as u8),
            Err(e) => Err(e),
        }
    } else {
        match parse_uint_radix(v.as_slice(), 10, 0xff) {
            Ok(x) => Ok(x as u8),
            Err(e) => Err(e),
        }
    }
}

/// What an on/off argument denotes once lowercased: `true` or `1` is on,
/// `false` or `0` is off, anything else is refused.
pub open spec fn enable_flag_of(s: Seq<char>) -> Option<bool> {
    let l = str_to_lowercase(s);
    if l == "true"@ || l == "1"@ {
        Some(true)
    } else if l == "false"@ || l == "0"@ {
        Some(false)
    } else {
        None
    }
}

/// Parse an on/off argument (`true`/`false` in any case, or `1`/`0`).
pub fn parse_enable_flag(enable: &str) -> (r: Option<bool>)
    ensures
        r == enable_flag_of(enable@),
{
    let l = to_lowercase_string(enable);
    let lc = chars_of(l.as_str());
    if eq_str(lc.as_slice(), "true") || eq_str(lc.as_slice(), "1") {
        Some(true)
    } else if eq_str(lc.as_slice(), "false") || eq_str(lc.as_slice(), "0") {
        Some(false)
    } else {
        None
    }
}

/// The hex digits of an EEPROM data argument: the text after one `0x`
/// prefix, if it has one.
pub open spec fn hex_data_body(s: Seq<char>) -> Seq<char> {
    if s.len() >= 2 && s[0] == '0' && s[1] == 'x' {
        s.skip(2)
    } else {
        s
    }
}

/// The bytes of hex text read two digits at a time, or the position of
/// the first pair that is no byte.
pub open spec fn hex_pairs(d: Seq<char>) -> Result<Seq<u8>, int>
    decreases d.len(),
{
    if d.len() < 2 {
        Ok(seq![])
    } else {
        let n = d.len() - 2;
        match hex_pairs(d.take(n)) {
            Err(i) => Err(i),
            Ok(v) => match uint_parse(d.subrange(n, n + 2), 16, 0xff) {
                Ok(x) => Ok(v.push(x as u8)),
                Err(_) => Err(n),
            },
        }
    }
}

proof fn lemma_hex_pairs_err_prefix(d: Seq<char>, j: int)
    requires
        0 <= j <= d.len(),
        j % 2 == 0,
        d.len() % 2 == 0,
        hex_pairs(d.take(j)) is Err,
    ensures
        hex_pairs(d) == hex_pairs(d.take(j)),
    decreases d.len(),
{
    if j < d.len() {
        let n = d.len() - 2;
        assert(d.take(n).take(j) =~= d.take(j));
        lemma_hex_pairs_err_prefix(d.take(n), j);
    } else {
        assert(d.take(j) =~= d);
    }
}

/// Parse EEPROM data given as hex text (an optional `0x` prefix, then two
/// digits per byte); the error is the position of the first bad pair.
pub fn parse_hex_data(data: &str) -> (r: Result<Vec<u8>, usize>)
    requires
        all_ascii(data@),
        hex_data_body(data@).len() % 2 == 0,
    ensures
        match hex_pairs(hex_data_body(data@)) {
            Ok(v) => r matches Ok(b) && b@ == v,
            Err(i) => r == Err::<Vec<u8>, usize>(i as usize),
        },
{
    let v = chars_of(data);
    let n = v.len();
    let body = if n >= 2 && v[0] == '0' && v[1] == 'x' {
        slice_range(v.as_slice(), 2, n)
    } else {
        slice_range(v.as_slice(), 0, n)
    };
    let ghost d = hex_data_body(data@);
    assert(body@ =~= d);
    let mut out: Vec<u8> = Vec::new();
    let mut i: usize = 0;
    assert(d.take(0) =~= Seq::<char>::empty());
    while i < body.len()
        invariant
            body@ == d,
            d == hex_data_body(data@),
            d.len() % 2 == 0,
            i <= d.len(),
            i % 2 == 0,
            hex_pairs(d.take(i as int)) == Ok::<Seq<u8>, int>(out@),
        decreases body.len() - i,
    {
        let pair = slice_range(body.as_slice(), i, i + 2);
        let ghost t = d.take(i + 2);
        assert(t.take(i as int) =~= d.take(i as int));
        assert(t.subrange(i as int, i + 2) =~= pair@);
        match parse_uint_radix(pair.as_slice(), 16, 0xff) {
            Ok(x) => {
                out.push(x as u8);
            },
            Err(_) => {
                proof {
                    assert(t.len() == i + 2);
                    assert(hex_pairs(t) == Err::<Seq<u8>, int>(i as int));
                    lemma_hex_pairs_err_prefix(d, i + 2);
                }
                return Err(i);
            },
        }
        i = i + 2;
    }
    assert(d.take(d.len() as int) =~= d);
    Ok(out)
}

/// What a PLL on/off argument gives: four comma-separated states, each
/// on exactly when its trimmed text is `1`.
pub open spec fn pll_states_of(s: Seq<char>) -> Option<Seq<bool>> {
    let ps = split(s, ',');
    if ps.len() != 4 {
        None
    } else {
        Some(Seq::new(4, |i: int| trim(ps[i]) == "1"@))
    }
}

/// Parse the four PLL on/off states (`None` unless there are four).
pub fn parse_pll_states(states: &str) -> (r: Option<[bool; 4]>)
    ensures
        match pll_states_of(states@) {
            Some(v) => r matches Some(a) && a@ == v,
            None => r is None,
        },
{
    let chars = chars_of(states);
    let pieces = split_chars(chars.as_slice(), ',');
    if pieces.len() != 4 {
        return None;
    }
    let ghost ps = split(states@, ',');
    let t0 = trimmed(pieces[0].as_slice());
    let t1 = trimmed(pieces[1].as_slice());
    let t2 = trimmed(pieces[2].as_slice());
    let t3 = trimmed(pieces[3].as_slice());
    let a: [bool; 4] = [
        eq_str(t0.as_slice(), "1"),
        eq_str(t1.as_slice(), "1"),
        eq_str(t2.as_slice(), "1"),
        eq_str(t3.as_slice(), "1"),
    ];
    assert(a@ =~= Seq::new(4, |i: int| trim(ps[i]) == "1"@));
    Some(a)
}

/// The address of one board of a fleet list: the trimmed text when it has
/// a dot, else the last octet of an address on the boards' subnet.
pub open spec fn board_ip(p: Seq<char>) -> Seq<char> {
    let t = trim(p);
    if t.contains('.') {
        t
    } else {
        "172.16.0."@ + t
    }
}

/// The addresses of a comma-separated fleet board list.
pub fn fleet_board_ips(boards: &str) -> (r: Vec<String>)
    ensures
        r@.len() == split(boards@, ',').len(),
        forall|i: int| 0 <= i < r@.len() ==> #[trigger] r@[i]@ == board_ip(split(boards@, ',')[i]),
{
    let chars = chars_of(boards);
    let pieces = split_chars(chars.as_slice(), ',');
    let ghost ps = split(boards@, ',');
    let mut out: Vec<String> = Vec::new();
    let mut k: usize = 0;
    while k < pieces.len()
        invariant
            ps == split(boards@, ','),
            pieces@.len() == ps.len(),
            forall|i: int| 0 <= i < pieces@.len() ==> #[trigger] pieces@[i]@ == ps[i],
            k <= pieces@.len(),
            out@.len() == k,
            forall|i: int| 0 <= i < k ==> #[trigger] out@[i]@ == board_ip(ps[i]),
        decreases pieces.len() - k,
    {
        let t = trimmed(pieces[k].as_slice());
        let mut has_dot = false;
        let mut j: usize = 0;
        while j < t.len()
            invariant
                j <= t@.len(),
                has_dot == t@.take(j as int).contains('.'),
            decreases t.len() - j,
        {
            assert(t@.take(j + 1) =~= t@.take(j as int).push(t@[j as int]));
            if t[j] == '.' {
                assert(t@.take(j + 1)[j as int] == '.');
                has_dot = true;
            }
            j = j + 1;
        }
        assert(t@.take(t@.len() as int) =~= t@);
        let mut m: Vec<char> = Vec::new();
        if !has_dot {
            push_str(&mut m, "172.16.0.");
        }
        push_chars(&mut m, t.as_slice());
        let ip = string_from_chars(m.as_slice());
        out.push(ip);
        k = k + 1;
    }
    out
}

/// A character of command output as it is written inside a JSON string:
/// backslash, double quote and newline are escaped.
pub open spec fn escaped_char(c: char) -> Seq<char> {
    if c == '\\' {
        seq!['\\', '\\']
    } else if c == '"' {
        seq!['\\', '"']
    } else if c == '\n' {
        seq!['\\', 'n']
    } else {
        seq![c]
    }
}

/// Text with each character escaped for a JSON string.
pub open spec fn escaped_text(s: Seq<char>) -> Seq<char>
    decreases s.len(),
{
    if s.len() == 0 {
        seq![]
    } else {
        escaped_text(s.drop_last()) + escaped_char(s.last())
    }
}

/// Escape command output for a JSON string value.
pub fn escape_output(text: &str) -> (r: String)
    ensures
        r@ == escaped_text(text@),
{
    let v = chars_of(text);
    let mut out: Vec<char> = Vec::new();
    let mut i: usize = 0;
    assert(v@.take(0) =~= Seq::<char>::empty());
    while i < v.len()
        invariant
            v@ == text@,
            i <= v@.len(),
            out@ == escaped_text(v@.take(i as int)),
        decreases v.len() - i,
    {
        let c = v[i];
        assert(v@.take(i + 1).drop_last() =~= v@.take(i as int));
        assert(v@.take(i + 1).last() == c);
        let ghost before = out@;
        if c == '\\' {
            out.push('\\');
            out.push('\\');
        } else if c == '"' {
            out.push('\\');
            out.push('"');
        } else if c == '\n' {
            out.push('\\');
            out.push('n');
        } else {
            out.push(c);
        }
        assert(out@ =~= before + escaped_char(c));
        i = i + 1;
    }
    assert(v@.take(v@.len() as int) =~= v@);
    string_from_chars(out.as_slice())
}

/// The VICOR enable mask an argument gives: a numeric argument (`0x` hex or
/// decimal, see `hex_arg_value`) of at most 63, one bit for each of the six
/// cores; else the message why not.
pub open spec fn vicor_mask_of(s: Seq<char>) -> Result<int, Seq<char>> {
    match crate::cli::hex_arg_value(s) {
        Err(e) => Err(int_error_text(e)),
        Ok(x) => if x <= 63 {
            Ok(x)
        } else {
            Err("Mask must be 0-63 (6 bits for 6 cores)"@)
        },
    }
}

/// Parse a VICOR enable mask; a value above 63 is refused, whatever its
/// low bits.
pub fn parse_vicor_mask(mask: &str) -> (r: Result<u8, String>)
    ensures
        match vicor_mask_of(mask@) {
            Ok(x) => r == Ok::<u8, String>(x as u8),
            Err(m) => r matches Err(e) && e@ == m,
        },
{
    proof {
        crate::cli::lemma_hex_arg_bound(mask@);
    }
    match crate::cli::parse_hex_arg(mask) {
        Err(e) => Err(int_error_message(e).to_owned()),
        Ok(x) => if x <= 63 {
            Ok(x as u8)
        } else {
            Err("Mask must be 0-63 (6 bits for 6 cores)".to_owned())
        },
    }
}

/// Check a VICOR core number against the number of cores (at least one):
/// the message names the valid range when it is out of it.
pub fn check_vicor_core(core: u8, cores: u8) -> (r: Result<(), String>)
    requires
        cores > 0,
    ensures
        core < cores ==> r is Ok,
        core >= cores ==> (r matches Err(m) && m@ == "Core must be 0-"@ + dec_chars((cores - 1) as nat)),
{
    if core < cores {
        return Ok(());
    }
    let mut m: Vec<char> = Vec::new();
    push_str(&mut m, "Core must be 0-");
    push_decimal(&mut m, (cores - 1) as u64);
    Err(string_from_chars(m.as_slice()))
}

/// Whether a board that was started has finished running: it is done,
/// failed, or back to idle.
pub fn run_finished(state: ControllerState) -> (r: bool)
    ensures
        r <==> (state is Done || state is Error || state is Idle),
{
    match state {
        ControllerState::Done | ControllerState::Error | ControllerState::Idle => true,
        ControllerState::Running => false,
    }
}

/// Whether a poll shows a started board finished: done, failed or idle.
pub open spec fn poll_finished(p: Option<ControllerState>) -> bool {
    p matches Some(s) && (s is Done || s is Error || s is Idle)
}

/// Whether a poll shows a started board still running.
pub open spec fn poll_running(p: Option<ControllerState>) -> bool {
    p matches Some(s) && !(s is Done || s is Error || s is Idle)
}

/// Which boards are finished after a round of polls: those finished
/// before, and those whose poll shows them finished.
pub open spec fn after_round(done: Seq<bool>, polled: Seq<Option<ControllerState>>) -> Seq<bool> {
    Seq::new(done.len(), |i: int| done[i] || poll_finished(polled[i]))
}

/// Whether a round of polls shows a board not yet finished still running
/// (a board that did not answer counts as neither).
pub open spec fn round_running(done: Seq<bool>, polled: Seq<Option<ControllerState>>) -> bool {
    exists|i: int| 0 <= i < done.len() && !done[i] && #[trigger] poll_running(polled[i])
}

/// One round of waiting for started boards to finish, from which were
/// finished before and what each poll showed (`None` for no answer): the
/// boards finished after it, and whether to poll again.
pub fn wait_round(done: &[bool], polled: &[Option<ControllerState>]) -> (r: (Vec<bool>, bool))
    requires
        done@.len() == polled@.len(),
    ensures
        r.0@ == after_round(done@, polled@),
        r.1 == round_running(done@, polled@),
{
    let mut next: Vec<bool> = Vec::new();
    let mut running = false;
    let mut i: usize = 0;
    while i < done.len()
        invariant
            i <= done@.len() == polled@.len(),
            next@ == after_round(done@, polled@).take(i as int),
            running == exists|k: int| 0 <= k < i && !done@[k] && #[trigger] poll_running(polled@[k]),
        decreases done.len() - i,
    {
        let fin = match polled[i] {
            Some(s) => run_finished(s),
            None => false,
        };
        let run = match polled[i] {
            Some(s) => !run_finished(s),
            None => false,
        };
        assert(fin == poll_finished(polled@[i as int]));
        assert(run == poll_running(polled@[i as int]));
        next.push(done[i] || fin);
        if !done[i] && run {
            running = true;
        }
        assert(next@ =~= after_round(done@, polled@).take(i + 1));
        i = i + 1;
    }
    assert(after_round(done@, polled@).take(done@.len() as int) =~= after_round(done@, polled@));
    (next, running)
}

/// The system a profile name denotes once lowercased: `fbc`, `sonoma`,
/// `hx`, `xp160` or `xp-160`, `mcc`, `shasta`.
pub open spec fn system_named(s: Seq<char>) -> Option<SystemType> {
    let l = str_to_lowercase(s);
    if l == "fbc"@ {
        Some(SystemType::Fbc)
    } else if l == "sonoma"@ {
        Some(SystemType::Sonoma)
    } else if l == "hx"@ {
        Some(SystemType::Hx)
    } else if l == "xp160"@ || l == "xp-160"@ {
        Some(SystemType::Xp160)
    } else if l == "mcc"@ {
        Some(SystemType::Mcc)
    } else if l == "shasta"@ {
        Some(SystemType::Shasta)
    } else {
        None
    }
}

/// The system type a profile name denotes, in any case.
pub fn parse_system_type(system: &str) -> (r: Option<SystemType>)
    ensures
        r == system_named(system@),
{
    let l = to_lowercase_string(system);
    let v = chars_of(l.as_str());
    if eq_str(v.as_slice(), "fbc") {
        Some(SystemType::Fbc)
    } else if eq_str(v.as_slice(), "sonoma") {
        Some(SystemType::Sonoma)
    } else if eq_str(v.as_slice(), "hx") {
        Some(SystemType::Hx)
    } else if eq_str(v.as_slice(), "xp160") || eq_str(v.as_slice(), "xp-160") {
        Some(SystemType::Xp160)
    } else if eq_str(v.as_slice(), "mcc") {
        Some(SystemType::Mcc)
    } else if eq_str(v.as_slice(), "shasta") {
        Some(SystemType::Shasta)
    } else {
        None
    }
}

} // verus!
