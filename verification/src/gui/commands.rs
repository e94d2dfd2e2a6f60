//! Records the front end's commands return, what they compute from a
//! board's answers, and the compilation of a device configuration from the
//! Sonoma BIM, MAP and TIM files.

use vstd::prelude::*;
use crate::gui::switch::has_prefix;
use crate::text::{
    chars_of, dec_chars, find_chars, find_sub, occurs_at, leading_digits, lines, parse_uint_radix, push_decimal,
    push_str, rfind_chars, rfind_sub, slice_range, split_lines, split_words, starts_with,
    str_to_uppercase, string_from_chars, take_digits, to_upper, to_uppercase_string, trim,
    trim_end_char, trim_end_chars, trim_start_char, trim_start_chars, trimmed, uint_parse, upper,
    upper_seq, words, IntErrorKind,
};

verus! {

/// A pin of a compiled device configuration.
#[derive(Debug)]
pub struct DeviceConfigPin {
    pub pin: usize,
    pub name: String,
    pub pin_type: String,
    pub bank: usize,
    pub group: String,
}

/// Timing of a compiled device configuration.
#[derive(Debug, Clone, Copy, PartialEq, Eq, Structural)]
pub struct DeviceConfigTiming {
    pub setup_ns: u32,
    pub hold_ns: u32,
    pub strobe_ns: u32,
    pub period_ns: u32,
}

/// A compiled device configuration.
#[derive(Debug)]
pub struct DeviceConfigResult {
    pub name: String,
    pub device_type: u16,
    pub version: u8,
    pub pins: Vec<DeviceConfigPin>,
    pub timing: DeviceConfigTiming,
    pub loaded: bool,
}

/// Firmware type detection result.
#[derive(Debug)]
pub struct FirmwareInfo {
    /// `linux` or `fbc`.
    pub board_type: String,
    pub version: String,
    pub ip_address: Option<String>,
    pub mac_address: String,
}

/// Firmware update progress.
#[derive(Debug)]
pub struct UpdateProgress {
    /// connecting, uploading, rebooting, done or error.
    pub stage: String,
    pub percent: u8,
    pub message: String,
}

/// Firmware info of a bare-metal board.
#[derive(Debug)]
pub struct FbcFirmwareInfo {
    pub version: String,
    pub build_date: String,
    pub board_serial: u32,
    pub hw_revision: u8,
    pub sd_present: bool,
    pub update_in_progress: bool,
}

/// Pattern statistics for display.
#[derive(Debug)]
pub struct PatternStats {
    pub total_vectors: u32,
    pub total_cycles: u32,
    pub total_errors: u32,
    /// -1 when there are no errors.
    pub first_error_vector: i32,
    pub first_error_cycle: i32,
    pub error_pins: Vec<u8>,
}

/// One error of the error log, for display.
#[derive(Debug)]
pub struct ErrorInfo {
    pub vector: u32,
    pub cycle: u32,
    pub first_fail_pin: u8,
    pub error_mask: Vec<u8>,
    pub timestamp: i64,
}

// -----------------------------------------------------------------------------
// XML attributes and GPIO numbers
// -----------------------------------------------------------------------------

/// The value of `attr="..."` on a line that mentions `<element`.
#[verifier::opaque]
pub open spec fn attr_on_line(line: Seq<char>, element: Seq<char>, attr: Seq<char>) -> Option<Seq<char>> {
    let pat = attr + seq!['=', '"'];
    if find_sub(line, seq!['<'] + element) is Some {
        match find_sub(line, pat) {
            Some(start) => {
                let rest = line.skip(start + pat.len());
                match find_sub(rest, seq!['"']) {
                    Some(end) => Some(rest.take(end)),
                    None => None,
                }
            },
            None => None,
        }
    } else {
        None
    }
}

/// The first line that gives the attribute.
pub open spec fn attr_in_lines(ls: Seq<Seq<char>>, element: Seq<char>, attr: Seq<char>) -> Option<Seq<char>>
    decreases ls.len(),
{
    if ls.len() == 0 {
        None
    } else {
        match attr_on_line(ls[0], element, attr) {
            Some(v) => Some(v),
            None => attr_in_lines(ls.drop_first(), element, attr),
        }
    }
}

fn attr_on_line_exec(line: &[char], el_pat: &[char], attr_pat: &[char]) -> (r: Option<Vec<char>>)
    requires
        el_pat@.len() >= 1 && el_pat@[0] == '<',
        attr_pat@.len() >= 2 && attr_pat@[attr_pat@.len() - 2] == '=' && attr_pat@[attr_pat@.len() - 1] == '"',
    ensures
        match attr_on_line(line@, el_pat@.drop_first(), attr_pat@.drop_last().drop_last()) {
            Some(v) => r matches Some(x) && x@ == v,
            None => r is None,
        },
{
    reveal(attr_on_line);
    let ghost element = el_pat@.drop_first();
    let ghost attr = attr_pat@.drop_last().drop_last();
    assert(seq!['<'] + element =~= el_pat@);
    assert(attr + seq!['=', '"'] =~= attr_pat@);
    if find_chars(line, el_pat).is_none() {
        return None;
    }
    match find_chars(line, attr_pat) {
        Some(start) => {
            let ll = line.len();
            let pl = attr_pat.len();
            assert(start + pl <= ll);
            let rest = slice_range(line, start + pl, ll);
            assert(rest@ =~= line@.skip(start + pl));
            let quote: Vec<char> = vec!['"'];
            assert(quote@ =~= seq!['"']);
            match find_chars(rest.as_slice(), quote.as_slice()) {
                Some(end) => {
                    let v = slice_range(rest.as_slice(), 0, end);
                    assert(v@ =~= rest@.take(end as int));
                    Some(v)
                },
                None => None,
            }
        },
        None => None,
    }
}

proof fn lemma_attr_step(lv: Seq<Seq<char>>, i: int, element: Seq<char>, attr: Seq<char>)
    requires
        0 <= i < lv.len(),
    ensures
        attr_in_lines(lv.skip(i), element, attr) == (match attr_on_line(lv[i], element, attr) {
            Some(v) => Some(v),
            None => attr_in_lines(lv.skip(i + 1), element, attr),
        }),
{
    assert(lv.skip(i)[0] == lv[i]);
    assert(lv.skip(i).drop_first() =~= lv.skip(i + 1));
}

/// The value of the attribute `attr` on the first line of `content` that
/// mentions `<element` and carries `attr="..."`.
pub fn extract_xml_attr(content: &str, element: &str, attr: &str) -> (r: Option<String>)
    ensures
        match attr_in_lines(lines(content@), element@, attr@) {
            Some(v) => r matches Some(x) && x@ == v,
            None => r is None,
        },
{
    let mut el_pat: Vec<char> = Vec::new();
    el_pat.push('<');
    push_str(&mut el_pat, element);
    let mut attr_pat: Vec<char> = Vec::new();
    push_str(&mut attr_pat, attr);
    attr_pat.push('=');
    attr_pat.push('"');
    assert(el_pat@.drop_first() =~= element@);
    assert(attr_pat@.drop_last().drop_last() =~= attr@);
    let v = chars_of(content);
    let ls = split_lines(v.as_slice());
    let ghost lv = lines(content@);
    let mut i: usize = 0;
    assert(lv.skip(0) =~= lv);
    while i < ls.len()
        invariant
            lv == lines(content@),
            ls@.len() == lv.len(),
            forall|k: int| 0 <= k < ls@.len() ==> (#[trigger] ls@[k])@ == lv[k],
            el_pat@.drop_first() == element@,
            attr_pat@.drop_last().drop_last() == attr@,
            el_pat@.len() >= 1 && el_pat@[0] == '<',
            attr_pat@.len() >= 2 && attr_pat@[attr_pat@.len() - 2] == '=' && attr_pat@[attr_pat@.len() - 1] == '"',
            i <= ls@.len(),
            attr_in_lines(lv, element@, attr@) == attr_in_lines(lv.skip(i as int), element@, attr@),
        decreases ls.len() - i,
    {
        proof {
            lemma_attr_step(lv, i as int, element@, attr@);
            assert(ls@[i as int]@ == lv[i as int]);
        }
        match attr_on_line_exec(ls[i].as_slice(), el_pat.as_slice(), attr_pat.as_slice()) {
            Some(x) => {
                assert(attr_on_line(lv[i as int], element@, attr@) == Some(x@));
                assert(attr_in_lines(lv.skip(i as int), element@, attr@) == Some(x@));
                let res = string_from_chars(x.as_slice());
                assert(attr_in_lines(lines(content@), element@, attr@) == Some(res@));
                return Some(res);
            },
            None => {},
        }
        i = i + 1;
    }
    assert(lv.skip(ls@.len() as int) =~= Seq::<Seq<char>>::empty());
    None
}

/// The GPIO number in a pin name such as `B13_GPIO25`: the digits after
/// the first `GPIO` (found without regard to ASCII case) and any
/// underscores.
pub open spec fn gpio_of(name: Seq<char>) -> Option<int> {
    match find_sub(upper_seq(name), "GPIO"@) {
        None => None,
        Some(p) => {
            let digits = take_digits(trim_start_char(name.skip(p + "GPIO"@.len()), '_'));
            match uint_parse(digits, 10, usize::MAX as int) {
                Ok(v) => Some(v),
                Err(_) => None,
            }
        },
    }
}

/// The GPIO number in a pin name such as `B13_GPIO25`.
pub fn extract_gpio_num(name: &str) -> (r: Option<usize>)
    ensures
        match gpio_of(name@) {
            Some(v) => r == Some(v as usize) && 0 <= v <= usize::MAX,
            None => r is None,
        },
{
    let v = chars_of(name);
    let mut up: Vec<char> = Vec::new();
    let mut i: usize = 0;
    while i < v.len()
        invariant
            i <= v@.len(),
            up@ == upper_seq(v@.take(i as int)),
        decreases v.len() - i,
    {
        up.push(to_upper(v[i]));
        assert(upper_seq(v@.take(i + 1)) =~= upper_seq(v@.take(i as int)).push(upper(v@[i as int])));
        i = i + 1;
    }
    assert(v@.take(v@.len() as int) =~= v@);
    let pat = chars_of("GPIO");
    match find_chars(up.as_slice(), pat.as_slice()) {
        None => None,
        Some(p) => {
            assert(up@.len() == v@.len());
            let ul = up.len();
            let pl = pat.len();
            assert(p + pl <= ul);
            let after = slice_range(v.as_slice(), p + pl, v.len());
            assert(after@ =~= v@.skip(p + pl));
            let num = trim_start_chars(after.as_slice(), '_');
            let digits = leading_digits(num.as_slice());
            match parse_uint_radix(digits.as_slice(), 10, usize::MAX as u64) {
                Ok(x) => Some(x as usize),
                Err(_) => None,
            }
        },
    }
}

// -----------------------------------------------------------------------------
// Device configuration
// -----------------------------------------------------------------------------

/// A pin as values: number, name, type, bank and group.
pub type PinView = (usize, Seq<char>, Seq<char>, usize, Seq<char>);

impl DeviceConfigPin {
    pub open spec fn view_tuple(&self) -> PinView {
        (self.pin, self.name@, self.pin_type@, self.bank, self.group@)
    }
}

/// `Bank {n / 32}`.
pub open spec fn bank_group(n: usize) -> Seq<char> {
    "Bank "@ + dec_chars((n / 32) as nat)
}

/// A new bidirectional pin.
pub open spec fn new_pin(n: usize, name: Seq<char>) -> PinView {
    (n, name, "bidi"@, n / 32, bank_group(n))
}

/// The signal pin a BIM line declares: a trimmed line starting `<Pin` with
/// `type="Signal"`, whose name lies between the first `>` and the last
/// `</Pin>`.
#[verifier::opaque]
pub open spec fn bim_pin_name(line: Seq<char>) -> Option<Seq<char>> {
    let t = trim(line);
    if has_prefix(t, "<Pin"@) && find_sub(t, "type=\"Signal\""@) is Some {
        match (find_sub(t, seq!['>']), rfind_sub(t, "</Pin>"@)) {
            (Some(s), Some(e)) => Some(t.subrange(s + 1, e)),
            _ => None,
        }
    } else {
        None
    }
}

/// Whether a BIM line can be read: when it declares a signal pin, its
/// name's end does not come before its start.
#[verifier::opaque]
pub open spec fn bim_line_ok(line: Seq<char>) -> bool {
    let t = trim(line);
    has_prefix(t, "<Pin"@) && find_sub(t, "type=\"Signal\""@) is Some && find_sub(t, seq!['>']) is Some
        && rfind_sub(t, "</Pin>"@) is Some ==> find_sub(t, seq!['>'])->0 + 1 <= rfind_sub(t, "</Pin>"@)->0
}

/// The signal pins of the BIM lines, numbered from 0.
pub open spec fn bim_pins(ls: Seq<Seq<char>>) -> Seq<PinView>
    decreases ls.len(),
{
    if ls.len() == 0 {
        seq![]
    } else {
        let prev = bim_pins(ls.drop_last());
        match bim_pin_name(ls.last()) {
            Some(nm) => prev.push(new_pin(prev.len() as usize, nm)),
            None => prev,
        }
    }
}

/// The first index of the pin numbered `n`.
pub open spec fn pin_index(pins: Seq<PinView>, n: usize) -> Option<int>
    decreases pins.len(),
{
    if pins.len() == 0 {
        None
    } else {
        match pin_index(pins.drop_last(), n) {
            Some(k) => Some(k),
            None => if pins.last().0 == n { Some(pins.len() - 1) } else { None },
        }
    }
}

/// The GPIO name and signal name of a MAP line: trimmed, trailing `;`
/// removed, not empty or a `#` comment, at least two words.
pub open spec fn map_line_fields(line: Seq<char>) -> Option<(Seq<char>, Seq<char>)> {
    let t = trim_end_char(trim(line), ';');
    let w = words(t);
    if t.len() == 0 || t[0] == '#' || w.len() < 2 {
        None
    } else {
        Some((w[0], w[1]))
    }
}

/// One MAP line: renames the pin of its GPIO (below 160), or adds it.
#[verifier::opaque]
pub open spec fn apply_map_line(pins: Seq<PinView>, line: Seq<char>) -> Seq<PinView> {
    match map_line_fields(line) {
        Some((g, name)) => match gpio_of(g) {
            Some(n) => if n < 160 {
                rename_or_add(pins, n as usize, name)
            } else {
                pins
            },
            None => pins,
        },
        None => pins,
    }
}

/// The MAP lines applied in order.
pub open spec fn apply_map(pins: Seq<PinView>, ls: Seq<Seq<char>>) -> Seq<PinView>
    decreases ls.len(),
{
    if ls.len() == 0 {
        pins
    } else {
        apply_map_line(apply_map(pins, ls.drop_last()), ls.last())
    }
}

/// The pin type a TIM type word names (compared upper-cased).
pub open spec fn tim_pin_type(word: Seq<char>) -> Seq<char> {
    let u = str_to_uppercase(word);
    if u == "INPUT"@ || u == "IN"@ {
        "input"@
    } else if u == "OUTPUT"@ || u == "OUT"@ {
        "output"@
    } else if u == "OPEN_C"@ || u == "OC"@ {
        "open_c"@
    } else if u == "PULSE"@ {
        "pulse"@
    } else if u == "NPULSE"@ {
        "npulse"@
    } else {
        "bidi"@
    }
}

/// The vector period a `freq_sel` value selects (ns).
pub open spec fn period_of(f: int) -> u32 {
    if f == 0 {
        200
    } else if f == 1 {
        100
    } else if f == 2 {
        40
    } else if f == 3 {
        20
    } else if f == 4 {
        10
    } else {
        100
    }
}

/// One TIM line: `pintype N TYPE` sets a pin's type, `freq_sel F` the
/// period.
#[verifier::opaque]
pub open spec fn apply_tim_line(st: (Seq<PinView>, u32), line: Seq<char>) -> (Seq<PinView>, u32) {
    let t = trim(line);
    let w = words(t);
    let pins = st.0;
    let pins2 = if has_prefix(t, "pintype "@) && w.len() >= 3 {
        match uint_parse(w[1], 10, usize::MAX as int) {
            Ok(n) => set_type(pins, n as usize, tim_pin_type(w[2])),
            Err(_) => pins,
        }
    } else {
        pins
    };
    let period = if has_prefix(t, "freq_sel "@) && w.len() >= 2 {
        match uint_parse(w[1], 10, 255) {
            Ok(f) => period_of(f),
            Err(_) => st.1,
        }
    } else {
        st.1
    };
    (pins2, period)
}

/// The TIM lines applied in order.
pub open spec fn apply_tim(st: (Seq<PinView>, u32), ls: Seq<Seq<char>>) -> (Seq<PinView>, u32)
    decreases ls.len(),
{
    if ls.len() == 0 {
        st
    } else {
        apply_tim_line(apply_tim(st, ls.drop_last()), ls.last())
    }
}

/// `x` inserted into `s` after every pin numbered at most `x`'s number.
pub open spec fn insert_by_pin(s: Seq<PinView>, x: PinView) -> Seq<PinView>
    decreases s.len(),
{
    if s.len() == 0 {
        seq![x]
    } else if s.last().0 <= x.0 {
        s.push(x)
    } else {
        insert_by_pin(s.drop_last(), x).push(s.last())
    }
}

/// The pins sorted by number, keeping the order of equal numbers.
pub open spec fn sort_by_pin(s: Seq<PinView>) -> Seq<PinView>
    decreases s.len(),
{
    if s.len() == 0 {
        seq![]
    } else {
        insert_by_pin(sort_by_pin(s.drop_last()), s.last())
    }
}

/// The pins of a device configuration before sorting.
pub open spec fn config_pins(bim: Seq<char>, map: Option<Seq<Seq<char>>>, tim: Option<Seq<char>>) -> (Seq<PinView>, u32) {
    let p1 = bim_pins(lines(bim));
    let p2 = match map {
        Some(ls) => apply_map(p1, ls),
        None => p1,
    };
    match tim {
        Some(t) => apply_tim((p2, 100), lines(t)),
        None => (p2, 100),
    }
}

fn copy_pin(p: &DeviceConfigPin) -> (r: DeviceConfigPin)
    ensures
        r.view_tuple() == p.view_tuple(),
{
    DeviceConfigPin { pin: p.pin, name: p.name.clone(), pin_type: p.pin_type.clone(), bank: p.bank, group: p.group.clone() }
}

fn make_pin(n: usize, name: &[char]) -> (r: DeviceConfigPin)
    ensures
        r.view_tuple() == new_pin(n, name@),
{
    let mut g: Vec<char> = Vec::new();
    push_str(&mut g, "Bank ");
    push_decimal(&mut g, (n / 32) as u64);
    DeviceConfigPin {
        pin: n,
        name: string_from_chars(name),
        pin_type: "bidi".to_owned(),
        bank: n / 32,
        group: string_from_chars(g.as_slice()),
    }
}

pub open spec fn views(v: Seq<DeviceConfigPin>) -> Seq<PinView> {
    Seq::new(v.len(), |i: int| v[i].view_tuple())
}

proof fn lemma_pin_index_bound(s: Seq<PinView>, n: usize)
    ensures
        pin_index(s, n) matches Some(k) ==> 0 <= k < s.len() && s[k].0 == n,
    decreases s.len(),
{
    if s.len() > 0 {
        lemma_pin_index_bound(s.drop_last(), n);
    }
}

fn find_pin(pins: &Vec<DeviceConfigPin>, n: usize) -> (r: Option<usize>)
    ensures
        match r {
            Some(k) => pin_index(views(pins@), n) == Some(k as int) && k < pins@.len(),
            None => pin_index(views(pins@), n) is None,
        },
{
    proof {
        lemma_pin_index_bound(views(pins@), n);
    }
    let mut i: usize = 0;
    while i < pins.len()
        invariant
            i <= pins@.len(),
            pin_index(views(pins@).take(i as int), n) is None,
        decreases pins.len() - i,
    {
        assert(views(pins@).take(i + 1).drop_last() =~= views(pins@).take(i as int));
        if pins[i].pin == n {
            proof {
                lemma_pin_index_prefix(views(pins@), i + 1, n);
            }
            return Some(i);
        }
        i = i + 1;
    }
    assert(views(pins@).take(pins@.len() as int) =~= views(pins@));
    None
}

proof fn lemma_pin_index_prefix(s: Seq<PinView>, k: int, n: usize)
    requires
        0 <= k <= s.len(),
        pin_index(s.take(k), n) is Some,
    ensures
        pin_index(s, n) == pin_index(s.take(k), n),
    decreases s.len(),
{
    if k < s.len() {
        assert(s.drop_last().take(k) =~= s.take(k));
        lemma_pin_index_prefix(s.drop_last(), k, n);
    } else {
        assert(s.take(k) =~= s);
    }
}

fn bim_line(line: &[char]) -> (r: Option<Vec<char>>)
    requires
        bim_line_ok(line@),
    ensures
        match bim_pin_name(line@) {
            Some(nm) => r matches Some(x) && x@ == nm,
            None => r is None,
        },
{
    reveal(bim_pin_name);
    reveal(bim_line_ok);
    let t = trimmed(line);
    let sig = chars_of("type=\"Signal\"");
    if !(starts_with(t.as_slice(), "<Pin") && find_chars(t.as_slice(), sig.as_slice()).is_some()) {
        return None;
    }
    let gt: Vec<char> = vec!['>'];
    assert(gt@ =~= seq!['>']);
    let close = chars_of("</Pin>");
    assert(has_prefix(t@, "<Pin"@));
    assert(find_sub(t@, "type=\"Signal\""@) is Some);
    match find_chars(t.as_slice(), gt.as_slice()) {
        Some(s) => match rfind_chars(t.as_slice(), close.as_slice()) {
            Some(e) => {
                assert(find_sub(t@, seq!['>']) == Some(s as int));
                assert(rfind_sub(t@, "</Pin>"@) == Some(e as int));
                assert(bim_line_ok(line@));
                assert(s + 1 <= e);
                assert(occurs_at(t@, close@, e as int));
                let nm = slice_range(t.as_slice(), s + 1, e);
                Some(nm)
            },
            None => None,
        },
        None => None,
    }
}

fn map_fields(line: &[char]) -> (r: Option<(Vec<char>, Vec<char>)>)
    ensures
        match map_line_fields(line@) {
            Some((a, b)) => r matches Some((x, y)) && x@ == a && y@ == b,
            None => r is None,
        },
{
    let t0 = trimmed(line);
    let t = trim_end_chars(t0.as_slice(), ';');
    if t.len() == 0 || t[0] == '#' {
        return None;
    }
    let w = split_words(t.as_slice());
    if w.len() < 2 {
        return None;
    }
    let a = slice_range(w[0].as_slice(), 0, w[0].len());
    let b = slice_range(w[1].as_slice(), 0, w[1].len());
    assert(a@ =~= w@[0]@);
    assert(b@ =~= w@[1]@);
    Some((a, b))
}

fn tim_type_of(word: &[char]) -> (r: &'static str)
    ensures
        r@ == tim_pin_type(word@),
{
    let s = string_from_chars(word);
    let u = to_uppercase_string(s.as_str());
    let uv = chars_of(u.as_str());
    if crate::text::eq_str(uv.as_slice(), "INPUT") || crate::text::eq_str(uv.as_slice(), "IN") {
        "input"
    } else if crate::text::eq_str(uv.as_slice(), "OUTPUT") || crate::text::eq_str(uv.as_slice(), "OUT") {
        "output"
    } else if crate::text::eq_str(uv.as_slice(), "OPEN_C") || crate::text::eq_str(uv.as_slice(), "OC") {
        "open_c"
    } else if crate::text::eq_str(uv.as_slice(), "PULSE") {
        "pulse"
    } else if crate::text::eq_str(uv.as_slice(), "NPULSE") {
        "npulse"
    } else {
        "bidi"
    }
}

/// Insert `x` after every pin numbered at most its number, in a list
/// sorted by number.
fn insert_sorted(v: &mut Vec<DeviceConfigPin>, x: DeviceConfigPin)
    ensures
        views(final(v)@) == insert_by_pin(views(old(v)@), x.view_tuple()),
{
    let ghost s = views(v@);
    let mut k = v.len();
    assert(s.take(k as int) =~= s);
    while k > 0 && v[k - 1].pin > x.pin
        invariant
            k <= v@.len(),
            s == views(v@),
            insert_by_pin(s, x.view_tuple()) == insert_by_pin(s.take(k as int), x.view_tuple()) + s.skip(k as int),
        decreases k,
    {
        proof {
            let t = s.take(k as int);
            assert(t.last() == s[k - 1]);
            assert(t.drop_last() =~= s.take(k - 1));
            assert(insert_by_pin(t, x.view_tuple()) == insert_by_pin(s.take(k - 1), x.view_tuple()).push(s[k - 1]));
            assert(insert_by_pin(s.take(k - 1), x.view_tuple()).push(s[k - 1]) + s.skip(k as int)
                =~= insert_by_pin(s.take(k - 1), x.view_tuple()) + s.skip(k - 1));
        }
        k = k - 1;
    }
    proof {
        let t = s.take(k as int);
        if k > 0 {
            assert(t.last() == s[k - 1]);
            assert(insert_by_pin(t, x.view_tuple()) == t.push(x.view_tuple()));
        } else {
            assert(t =~= Seq::<PinView>::empty());
            assert(insert_by_pin(t, x.view_tuple()) == seq![x.view_tuple()]);
        }
    }
    let ghost xv = x.view_tuple();
    v.insert(k, x);
    assert(views(v@) =~= s.take(k as int).push(xv) + s.skip(k as int));
}

/// Rename the pin of a GPIO, or add it.
pub open spec fn rename_or_add(pins: Seq<PinView>, n: usize, name: Seq<char>) -> Seq<PinView> {
    match pin_index(pins, n) {
        Some(k) => pins.update(k, (pins[k].0, name, pins[k].2, pins[k].3, pins[k].4)),
        None => pins.push(new_pin(n, name)),
    }
}

fn rename_or_add_pin(pins: &mut Vec<DeviceConfigPin>, n: usize, name: &[char])
    ensures
        views(final(pins)@) == rename_or_add(views(old(pins)@), n, name@),
{
    let ghost before = views(pins@);
    let found = find_pin(pins, n);
    assert(before == views(old(pins)@));
    match found {
        Some(k) => {
            let cur = copy_pin(&pins[k]);
            let np = DeviceConfigPin {
                pin: cur.pin,
                name: string_from_chars(name),
                pin_type: cur.pin_type,
                bank: cur.bank,
                group: cur.group,
            };
            let ghost nv = np.view_tuple();
            let ghost ov = views(old(pins)@)[k as int];
            assert(ov == old(pins)@[k as int].view_tuple());
            assert(nv == (ov.0, name@, ov.2, ov.3, ov.4));
            pins.set(k, np);
            assert(views(pins@) =~= views(old(pins)@).update(k as int, nv));
            assert(pin_index(before, n) == Some(k as int));
            assert(views(pins@) == rename_or_add(views(old(pins)@), n, name@));
        },
        None => {
            let np = make_pin(n, name);
            pins.push(np);
            assert(views(pins@) =~= views(old(pins)@).push(new_pin(n, name@)));
            assert(views(pins@) == rename_or_add(views(old(pins)@), n, name@));
        },
    }
}

/// Apply one MAP line to the pins.
fn map_step(pins: &mut Vec<DeviceConfigPin>, line: &str)
    ensures
        views(final(pins)@) == apply_map_line(views(old(pins)@), line@),
{
    reveal(apply_map_line);
    let lc = chars_of(line);
    match map_fields(lc.as_slice()) {
        Some((g, name)) => {
            let gs = string_from_chars(g.as_slice());
            match extract_gpio_num(gs.as_str()) {
                Some(n) => {
                    if n < 160 {
                        rename_or_add_pin(pins, n, name.as_slice());
                    }
                },
                None => {},
            }
        },
        None => {},
    }
}

/// Set the type of pin `n`, if there is one.
pub open spec fn set_type(pins: Seq<PinView>, n: usize, t: Seq<char>) -> Seq<PinView> {
    match pin_index(pins, n) {
        Some(k) => pins.update(k, (pins[k].0, pins[k].1, t, pins[k].3, pins[k].4)),
        None => pins,
    }
}

fn set_pin_type(pins: &mut Vec<DeviceConfigPin>, n: usize, t: &str)
    ensures
        views(final(pins)@) == set_type(views(old(pins)@), n, t@),
{
    let ghost before = views(pins@);
    let found = find_pin(pins, n);
    assert(before == views(old(pins)@));
    match found {
        Some(k) => {
            let cur = copy_pin(&pins[k]);
            let np = DeviceConfigPin {
                pin: cur.pin,
                name: cur.name,
                pin_type: t.to_owned(),
                bank: cur.bank,
                group: cur.group,
            };
            let ghost nv = np.view_tuple();
            assert(pin_index(before, n) == Some(k as int));
            pins.set(k, np);
            assert(views(pins@) =~= before.update(k as int, nv));
        },
        None => {
            assert(pin_index(before, n) is None);
        },
    }
}

/// Apply one TIM line to the pins and the period.
fn tim_step(pins: &mut Vec<DeviceConfigPin>, period: &mut u32, line: &[char])
    ensures
        (views(final(pins)@), *final(period)) == apply_tim_line((views(old(pins)@), *old(period)), line@),
{
    reveal(apply_tim_line);
    let tt = trimmed(line);
    let w = split_words(tt.as_slice());
    let ghost t = trim(line@);
    let ghost ws = words(t);
    if starts_with(tt.as_slice(), "pintype ") && w.len() >= 3 {
        assert(w@[1]@ == ws[1] && w@[2]@ == ws[2]);
        match parse_uint_radix(w[1].as_slice(), 10, usize::MAX as u64) {
            Ok(n) => {
                let ty = tim_type_of(w[2].as_slice());
                set_pin_type(pins, n as usize, ty);
            },
            Err(_) => {},
        }
    }
    if starts_with(tt.as_slice(), "freq_sel ") && w.len() >= 2 {
        assert(w@[1]@ == ws[1]);
        match parse_uint_radix(w[1].as_slice(), 10, 255) {
            Ok(f) => {
                *period = if f == 0 {
                    200
                } else if f == 1 {
                    100
                } else if f == 2 {
                    40
                } else if f == 3 {
                    20
                } else if f == 4 {
                    10
                } else {
                    100
                };
            },
            Err(_) => {},
        }
    }
}

/// The signal pins of a BIM text, numbered from 0.
fn bim_signal_pins(bim: &str) -> (r: Vec<DeviceConfigPin>)
    requires
        forall|i: int| 0 <= i < lines(bim@).len() ==> bim_line_ok(#[trigger] lines(bim@)[i]),
    ensures
        views(r@) == bim_pins(lines(bim@)),
{
    let bv = chars_of(bim);
    let bl = split_lines(bv.as_slice());
    let ghost blv = lines(bim@);
    let mut pins: Vec<DeviceConfigPin> = Vec::new();
    let mut i: usize = 0;
    while i < bl.len()
        invariant
            bl@.len() == blv.len(),
            forall|k: int| 0 <= k < bl@.len() ==> (#[trigger] bl@[k])@ == blv[k],
            forall|k: int| 0 <= k < blv.len() ==> bim_line_ok(#[trigger] blv[k]),
            i <= bl@.len(),
            views(pins@) == bim_pins(blv.take(i as int)),
            pins@.len() <= i,
        decreases bl.len() - i,
    {
        assert(blv.take(i + 1).drop_last() =~= blv.take(i as int));
        assert(blv.take(i + 1).last() == blv[i as int]);
        match bim_line(bl[i].as_slice()) {
            Some(nm) => {
                let p = make_pin(pins.len(), nm.as_slice());
                pins.push(p);
                assert(views(pins@) =~= bim_pins(blv.take(i + 1)));
            },
            None => {},
        }
        i = i + 1;
    }
    assert(blv.take(bl@.len() as int) =~= blv);
    pins
}

/// The MAP lines applied in order.
fn apply_map_lines(pins: &mut Vec<DeviceConfigPin>, m: &Vec<String>)
    ensures
        views(final(pins)@) == apply_map(views(old(pins)@), Seq::new(m@.len(), |i: int| m@[i]@)),
{
    let ghost p1 = views(pins@);
    let ghost ms = Seq::new(m@.len(), |i: int| m@[i]@);
    let mut j: usize = 0;
    while j < m.len()
        invariant
            ms == Seq::new(m@.len(), |i: int| m@[i]@),
            j <= m@.len(),
            views(pins@) == apply_map(p1, ms.take(j as int)),
        decreases m.len() - j,
    {
        assert(ms.take(j + 1).drop_last() =~= ms.take(j as int));
        assert(ms.take(j + 1).last() == m@[j as int]@);
        map_step(pins, m[j].as_str());
        j = j + 1;
    }
    assert(ms.take(m@.len() as int) =~= ms);
}

/// The TIM lines applied in order.
fn apply_tim_text(pins: &mut Vec<DeviceConfigPin>, period: &mut u32, t: &str)
    ensures
        (views(final(pins)@), *final(period)) == apply_tim((views(old(pins)@), *old(period)), lines(t@)),
{
    let ghost st0 = (views(pins@), *period);
    let tv = chars_of(t);
    let tl = split_lines(tv.as_slice());
    let ghost tlv = lines(t@);
    let mut j: usize = 0;
    while j < tl.len()
        invariant
            tl@.len() == tlv.len(),
            forall|k: int| 0 <= k < tl@.len() ==> (#[trigger] tl@[k])@ == tlv[k],
            j <= tl@.len(),
            (views(pins@), *period) == apply_tim(st0, tlv.take(j as int)),
        decreases tl.len() - j,
    {
        assert(tlv.take(j + 1).drop_last() =~= tlv.take(j as int));
        assert(tlv.take(j + 1).last() == tlv[j as int]);
        tim_step(pins, period, tl[j].as_slice());
        j = j + 1;
    }
    assert(tlv.take(tl@.len() as int) =~= tlv);
}

/// The pins sorted by number, keeping the order of equal numbers.
fn sorted_by_pin(pins: &Vec<DeviceConfigPin>) -> (r: Vec<DeviceConfigPin>)
    ensures
        views(r@) == sort_by_pin(views(pins@)),
{
    let ghost unsorted = views(pins@);
    let mut sorted: Vec<DeviceConfigPin> = Vec::new();
    let mut k: usize = 0;
    while k < pins.len()
        invariant
            unsorted == views(pins@),
            k <= pins@.len(),
            views(sorted@) == sort_by_pin(unsorted.take(k as int)),
        decreases pins.len() - k,
    {
        assert(unsorted.take(k + 1).drop_last() =~= unsorted.take(k as int));
        assert(unsorted.take(k + 1).last() == pins@[k as int].view_tuple());
        let p = copy_pin(&pins[k]);
        insert_sorted(&mut sorted, p);
        k = k + 1;
    }
    assert(unsorted.take(pins@.len() as int) =~= unsorted);
    sorted
}

/// Compile a device configuration from the text of a BIM file and,
/// optionally, the lines of a MAP file and the text of a TIM file.
///
/// The device name and type come from the BIM `Device name` and `BimType
/// type` attributes (`Unknown` and 0 by default); the BIM's signal pins are
/// numbered from 0; each MAP line `GPIO SIGNAL` renames or adds the pin of
/// its GPIO; TIM `pintype` lines set pin types and `freq_sel` the period;
/// the pins come out sorted by number.
pub fn compile_device_config_text(
    bim: &str,
    map_lines: Option<&Vec<String>>,
    tim: Option<&str>,
) -> (r: DeviceConfigResult)
    requires
        forall|i: int| 0 <= i < lines(bim@).len() ==> bim_line_ok(#[trigger] lines(bim@)[i]),
    ensures
        r.name@ == (match attr_in_lines(lines(bim@), "Device"@, "name"@) {
            Some(v) => v,
            None => "Unknown"@,
        }),
        r.device_type == (match attr_in_lines(lines(bim@), "BimType"@, "type"@) {
            Some(v) => match uint_parse(v, 10, 65535) {
                Ok(x) => x as u16,
                Err(_) => 0u16,
            },
            None => 0u16,
        }),
        r.version == 1,
        r.loaded,
        views(r.pins@) == sort_by_pin(config_pins(
            bim@,
            match map_lines {
                Some(m) => Some(Seq::new(m@.len(), |i: int| m@[i]@)),
                None => None,
            },
            match tim {
                Some(t) => Some(t@),
                None => None,
            },
        ).0),
        r.timing == (DeviceConfigTiming {
            setup_ns: 10,
            hold_ns: 10,
            strobe_ns: 50,
            period_ns: config_pins(
                bim@,
                match map_lines {
                    Some(m) => Some(Seq::new(m@.len(), |i: int| m@[i]@)),
                    None => None,
                },
                match tim {
                    Some(t) => Some(t@),
                    None => None,
                },
            ).1,
        }),
{
    let device_name = match extract_xml_attr(bim, "Device", "name") {
        Some(s) => s,
        None => "Unknown".to_owned(),
    };
    let bim_type: u16 = match extract_xml_attr(bim, "BimType", "type") {
        Some(s) => match parse_uint_radix(chars_of(s.as_str()).as_slice(), 10, 65535) {
            Ok(x) => x as u16,
            Err(_) => 0,
        },
        None => 0,
    };
    let pins0 = bim_signal_pins(bim);
    let mut pins = pins0;
    match map_lines {
        Some(m) => apply_map_lines(&mut pins, m),
        None => {},
    }
    let mut period: u32 = 100;
    match tim {
        Some(t) => apply_tim_text(&mut pins, &mut period, t),
        None => {},
    }
    let sorted = sorted_by_pin(&pins);
    DeviceConfigResult {
        name: device_name,
        device_type: bim_type,
        version: 1,
        pins: sorted,
        timing: DeviceConfigTiming { setup_ns: 10, hold_ns: 10, strobe_ns: 50, period_ns: period },
        loaded: true,
    }
}

// -----------------------------------------------------------------------------
// Pattern statistics and errors
// -----------------------------------------------------------------------------

/// The pins listed as failing for an error count (placeholder data until
/// the error counter's memory is read): 0 and 1 for any error, then 7 above
/// 5 errors, 15 and 42 above 10, 63 and 128 above 50.
pub open spec fn error_pins_for(count: u32) -> Seq<u8> {
    if count == 0 {
        seq![]
    } else {
        seq![0u8, 1u8] + (if count > 5 { seq![7u8] } else { seq![] }) + (if count > 10 {
            seq![15u8, 42u8]
        } else {
            seq![]
        }) + (if count > 50 { seq![63u8, 128u8] } else { seq![] })
    }
}

/// Pattern statistics from a vector engine status: totals, the first
/// failing address (or -1 when it is 0), and the failing pins.
pub fn pattern_stats(status: &crate::gui::fbc::VectorEngineStatus) -> (r: PatternStats)
    ensures
        r.total_vectors == status.total_vectors,
        r.total_cycles == status.total_vectors,
        r.total_errors == status.error_count,
        r.first_error_vector == (if status.first_fail_addr > 0 { status.first_fail_addr as i32 } else { -1i32 }),
        r.first_error_cycle == r.first_error_vector,
        r.error_pins@ == error_pins_for(status.error_count),
{
    let mut error_pins: Vec<u8> = Vec::new();
    let n = status.error_count;
    if n > 0 {
        error_pins.push(0);
        error_pins.push(1);
        if n > 5 {
            error_pins.push(7);
        }
        if n > 10 {
            error_pins.push(15);
            error_pins.push(42);
        }
        if n > 50 {
            error_pins.push(63);
            error_pins.push(128);
        }
    }
    assert(error_pins@ =~= error_pins_for(n));
    let first: i32 = if status.first_fail_addr > 0 {
        #[verifier::truncate] (status.first_fail_addr as i32)
    } else {
        -1
    };
    PatternStats {
        total_vectors: status.total_vectors,
        total_cycles: status.total_vectors,
        total_errors: status.error_count,
        first_error_vector: first,
        first_error_cycle: first,
        error_pins,
    }
}

/// An error entry as values: vector, cycle, first failing pin, error mask,
/// time stamp.
pub type ErrorView = (u32, u32, u8, Seq<u8>, i64);

/// The error entries shown for a status (placeholder data until the error
/// memories are read), before the limit: the first failing address a
/// second before `now`, then +10 half a second before when there are more
/// than 5 errors, then +25 0.2 s before when more than 10.
pub open spec fn error_entries_for(status: crate::gui::fbc::VectorEngineStatus, now: i64) -> Seq<ErrorView> {
    let a = status.first_fail_addr;
    let n = status.error_count;
    if n > 0 && a > 0 {
        seq![(a, a, 0u8, seq![0u8, 1u8], (now - 1000) as i64)] + (if n > 5 {
            seq![((a + 10) as u32, (a + 10) as u32, 7u8, seq![7u8], (now - 500) as i64)]
        } else {
            seq![]
        }) + (if n > 10 {
            seq![((a + 25) as u32, (a + 25) as u32, 15u8, seq![15u8, 42u8], (now - 200) as i64)]
        } else {
            seq![]
        })
    } else {
        seq![]
    }
}

impl ErrorInfo {
    pub open spec fn view_tuple(&self) -> ErrorView {
        (self.vector, self.cycle, self.first_fail_pin, self.error_mask@, self.timestamp)
    }
}

pub open spec fn errors_view(v: Seq<ErrorInfo>) -> Seq<ErrorView> {
    v.map_values(|e: ErrorInfo| e.view_tuple())
}

/// The error entries for a status at time `now_ms`, at most `limit` of them.
pub fn pattern_errors(status: &crate::gui::fbc::VectorEngineStatus, limit: u32, now_ms: i64) -> (r: Vec<ErrorInfo>)
    requires
        now_ms >= i64::MIN + 1000,
        status.first_fail_addr <= u32::MAX - 25,
    ensures
        errors_view(r@) == error_entries_for(*status, now_ms).take(
            if (limit as int) < error_entries_for(*status, now_ms).len() {
                limit as int
            } else {
                error_entries_for(*status, now_ms).len() as int
            },
        ),
{
    let a = status.first_fail_addr;
    let n = status.error_count;
    let mut errors: Vec<ErrorInfo> = Vec::new();
    let ghost all = error_entries_for(*status, now_ms);
    if n > 0 && a > 0 {
        let m0: Vec<u8> = vec![0, 1];
        assert(m0@ =~= seq![0u8, 1u8]);
        let e0 = ErrorInfo { vector: a, cycle: a, first_fail_pin: 0, error_mask: m0, timestamp: now_ms - 1000 };
        let ghost v0 = e0.view_tuple();
        errors.push(e0);
        let ghost s1 = seq![v0];
        assert(errors_view(errors@) =~= s1);
        let ghost mut acc = s1;
        if n > 5 {
            let m1: Vec<u8> = vec![7];
            assert(m1@ =~= seq![7u8]);
            let e1 = ErrorInfo { vector: a + 10, cycle: a + 10, first_fail_pin: 7, error_mask: m1, timestamp: now_ms - 500 };
            let ghost v1 = e1.view_tuple();
            let ghost before = errors@;
            errors.push(e1);
            proof {
                assert(errors_view(errors@) =~= errors_view(before).push(v1));
                acc = acc.push(v1);
            }
        }
        if n > 10 {
            let m2: Vec<u8> = vec![15, 42];
            assert(m2@ =~= seq![15u8, 42u8]);
            let e2 = ErrorInfo { vector: a + 25, cycle: a + 25, first_fail_pin: 15, error_mask: m2, timestamp: now_ms - 200 };
            let ghost v2 = e2.view_tuple();
            let ghost before = errors@;
            errors.push(e2);
            proof {
                assert(errors_view(errors@) =~= errors_view(before).push(v2));
                acc = acc.push(v2);
            }
        }
        assert(errors_view(errors@) == acc);
        assert(acc =~= all);
    } else {
        assert(errors_view(errors@) =~= all);
    }
    let keep: usize = if (limit as usize) < errors.len() { limit as usize } else { errors.len() };
    errors.truncate(keep);
    assert(errors_view(errors@) =~= all.take(keep as int));
    errors
}

// -----------------------------------------------------------------------------
// Firmware type
// -----------------------------------------------------------------------------

/// Whether a board address looks like an IP address (it has a `.`), and so
/// is tried over SSH.
pub fn looks_like_ip(ip_or_mac: &str) -> (r: bool)
    ensures
        r == ip_or_mac@.contains('.'),
{
    crate::text::contains_char(chars_of(ip_or_mac).as_slice(), '.')
}

/// A board that answered over SSH with its host name: a Linux board.
pub fn linux_firmware(ip: &str, hostname_output: &[u8]) -> (r: FirmwareInfo)
    ensures
        r.board_type@ == "linux"@,
        r.version@ == trim(crate::text::utf8_lossy_text(hostname_output@)),
        r.ip_address matches Some(x) && x@ == ip@,
        r.mac_address@ == Seq::<char>::empty(),
{
    let text = crate::text::utf8_lossy(hostname_output);
    let tv = chars_of(text.as_str());
    let t = trimmed(tv.as_slice());
    FirmwareInfo {
        board_type: "linux".to_owned(),
        version: string_from_chars(t.as_slice()),
        ip_address: Some(ip.to_owned()),
        mac_address: String::new(),
    }
}

/// A board that did not answer over SSH: a bare-metal board addressed by
/// its MAC.
pub fn fbc_firmware(ip_or_mac: &str) -> (r: FirmwareInfo)
    ensures
        r.board_type@ == "fbc"@,
        r.version@ == "bare-metal"@,
        r.ip_address is None,
        r.mac_address@ == ip_or_mac@,
{
    FirmwareInfo {
        board_type: "fbc".to_owned(),
        version: "bare-metal".to_owned(),
        ip_address: None,
        mac_address: ip_or_mac.to_owned(),
    }
}

} // verus!
