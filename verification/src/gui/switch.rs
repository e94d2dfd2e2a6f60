//! Switch MAC tables: the default port wiring of a rack, the parser of a
//! Cisco `show mac address-table` listing, MAC text normalisation and the
//! mapping of boards to rack positions.

use vstd::prelude::*;
use crate::text::{
    chars_of, eq_str, is_hex_digit, lines, parse_dec_max, parse_unsigned, push_decimal, push_str,
    split_lines, split_words, starts_with, string_from_chars, to_uppercase_string, trim, trimmed,
    upper_seq, words, dec_chars, str_to_uppercase, to_upper, upper,
};

verus! {

/// Physical position in the rack.
#[derive(Debug)]
pub struct RackPosition {
    /// Shelf 1-11.
    pub shelf: u8,
    /// `front` or `back`.
    pub tray: String,
    /// 1 (A) or 2 (B).
    pub slot: u8,
}

/// A switch port wired to a rack position.
#[derive(Debug)]
pub struct PortMapping {
    /// For example `Gi0/1`.
    pub port: String,
    pub position: RackPosition,
}

/// Switch configuration.
#[derive(Debug)]
pub struct SwitchConfig {
    /// For example `COM4`.
    pub serial_port: String,
    pub baud_rate: u32,
    pub port_mappings: Vec<PortMapping>,
}

/// One entry of the switch's MAC address table.
#[derive(Debug)]
pub struct MacTableEntry {
    pub mac: String,
    pub vlan: u16,
    pub port: String,
}

impl RackPosition {
    pub open spec fn view_tuple(&self) -> (u8, Seq<char>, u8) {
        (self.shelf, self.tray@, self.slot)
    }
}

/// The default mapping with index `i` (0-43): ports 1-4 are shelf 11
/// (front A, front B, back A, back B), ports 5-8 shelf 10, and so on.
pub open spec fn default_mapping(i: int) -> (Seq<char>, (u8, Seq<char>, u8)) {
    (
        "Gi0/"@ + dec_chars((i + 1) as nat),
        ((11 - i / 4) as u8, if i % 4 < 2 { "front"@ } else { "back"@ }, (i % 2 + 1) as u8),
    )
}

fn copy_position(p: &RackPosition) -> (r: RackPosition)
    ensures
        r.view_tuple() == p.view_tuple(),
{
    RackPosition { shelf: p.shelf, tray: p.tray.clone(), slot: p.slot }
}

fn port_name(n: u64) -> (r: String)
    ensures
        r@ == "Gi0/"@ + dec_chars(n as nat),
{
    let mut out: Vec<char> = Vec::new();
    push_str(&mut out, "Gi0/");
    push_decimal(&mut out, n);
    string_from_chars(out.as_slice())
}

impl Default for SwitchConfig {
    /// The wiring of a 48-port switch with ports mapped sequentially.
    fn default() -> (r: Self)
        ensures
            r.serial_port@ == "COM4"@,
            r.baud_rate == 9600,
            r.port_mappings@.len() == 44,
            forall|i: int| 0 <= i < 44 ==> (#[trigger] r.port_mappings@[i]).port@ == default_mapping(i).0
                && r.port_mappings@[i].position.view_tuple() == default_mapping(i).1,
    {
        let mut mappings: Vec<PortMapping> = Vec::new();
        let mut shelf: u8 = 11;
        while shelf >= 1
            invariant
                0 <= shelf <= 11,
                mappings@.len() == (11 - shelf) * 4,
                forall|i: int| 0 <= i < mappings@.len() ==> (#[trigger] mappings@[i]).port@ == default_mapping(i).0
                    && mappings@[i].position.view_tuple() == default_mapping(i).1,
            decreases shelf,
        {
            let base_port: u64 = ((11 - shelf) as u64) * 4 + 1;
            let ghost b = mappings@.len() as int;
            mappings.push(PortMapping {
                port: port_name(base_port),
                position: RackPosition { shelf, tray: "front".to_owned(), slot: 1 },
            });
            mappings.push(PortMapping {
                port: port_name(base_port + 1),
                position: RackPosition { shelf, tray: "front".to_owned(), slot: 2 },
            });
            mappings.push(PortMapping {
                port: port_name(base_port + 2),
                position: RackPosition { shelf, tray: "back".to_owned(), slot: 1 },
            });
            mappings.push(PortMapping {
                port: port_name(base_port + 3),
                position: RackPosition { shelf, tray: "back".to_owned(), slot: 2 },
            });
            assert forall|i: int| 0 <= i < mappings@.len() implies (#[trigger] mappings@[i]).port@ == default_mapping(i).0
                && mappings@[i].position.view_tuple() == default_mapping(i).1 by {
                if i >= b {
                    assert(i / 4 == 11 - shelf);
                    assert(i % 4 == i - b);
                    assert(i % 2 == (i - b) % 2);
                }
            }
            shelf = shelf - 1;
        }
        SwitchConfig { serial_port: "COM4".to_owned(), baud_rate: 9600, port_mappings: mappings }
    }
}

/// Whether `s` starts with `p`.
pub open spec fn has_prefix(s: Seq<char>, p: Seq<char>) -> bool {
    p.len() <= s.len() && s.take(p.len() as int) == p
}

/// One MAC-table line: after trimming, not empty and not a header
/// (`Vlan...`, `----...`), at least four words, the first a VLAN number; the
/// entry is kept when its port (fourth word) is a `Gi` or `Fa` port.
pub open spec fn entry_of_line(line: Seq<char>) -> Option<(Seq<char>, u16, Seq<char>)> {
    let t = trim(line);
    let w = words(t);
    if t.len() == 0 || has_prefix(t, "Vlan"@) || has_prefix(t, "----"@) {
        None
    } else if w.len() >= 4 && parse_unsigned(w[0], 65535) is Some && (has_prefix(w[3], "Gi"@)
        || has_prefix(w[3], "Fa"@)) {
        Some((w[1], parse_unsigned(w[0], 65535)->0 as u16, w[3]))
    } else {
        None
    }
}

/// The entries of the listed lines, in order.
pub open spec fn entries_of(ls: Seq<Seq<char>>) -> Seq<(Seq<char>, u16, Seq<char>)>
    decreases ls.len(),
{
    if ls.len() == 0 {
        seq![]
    } else {
        let rest = entries_of(ls.drop_last());
        match entry_of_line(ls.last()) {
            Some(e) => rest.push(e),
            None => rest,
        }
    }
}

impl MacTableEntry {
    pub open spec fn view_tuple(&self) -> (Seq<char>, u16, Seq<char>) {
        (self.mac@, self.vlan, self.port@)
    }
}

fn parse_entry(line: &[char]) -> (r: Option<MacTableEntry>)
    ensures
        match entry_of_line(line@) {
            Some(e) => r matches Some(x) && x.view_tuple() == e,
            None => r is None,
        },
{
    let t = trimmed(line);
    if t.len() == 0 || starts_with(t.as_slice(), "Vlan") || starts_with(t.as_slice(), "----") {
        return None;
    }
    let parts = split_words(t.as_slice());
    if parts.len() >= 4 {
        match parse_dec_max(parts[0].as_slice(), 65535) {
            Some(vlan) => {
                let port = &parts[3];
                if starts_with(port.as_slice(), "Gi") || starts_with(port.as_slice(), "Fa") {
                    return Some(
                        MacTableEntry {
                            mac: string_from_chars(parts[1].as_slice()),
                            vlan: vlan as u16,
                            port: string_from_chars(port.as_slice()),
                        },
                    );
                }
                None
            },
            None => None,
        }
    } else {
        None
    }
}

/// Parse Cisco `show mac address-table` output: the dynamic entries on
/// `Gi` and `Fa` ports, in order.
pub fn parse_mac_table(output: &str) -> (r: Vec<MacTableEntry>)
    ensures
        r@.len() == entries_of(lines(output@)).len(),
        forall|i: int| 0 <= i < r@.len() ==> (#[trigger] r@[i]).view_tuple() == entries_of(lines(output@))[i],
{
    let v = chars_of(output);
    let ls = split_lines(v.as_slice());
    let ghost lv = lines(output@);
    let mut entries: Vec<MacTableEntry> = Vec::new();
    let mut i: usize = 0;
    while i < ls.len()
        invariant
            ls@.len() == lv.len(),
            forall|k: int| 0 <= k < ls@.len() ==> (#[trigger] ls@[k])@ == lv[k],
            i <= ls@.len(),
            entries@.len() == entries_of(lv.take(i as int)).len(),
            forall|k: int| 0 <= k < entries@.len() ==> (#[trigger] entries@[k]).view_tuple() == entries_of(lv.take(i as int))[k],
        decreases ls.len() - i,
    {
        assert(lv.take(i + 1).drop_last() =~= lv.take(i as int));
        assert(lv.take(i + 1).last() == lv[i as int]);
        match parse_entry(ls[i].as_slice()) {
            Some(e) => {
                entries.push(e);
            },
            None => {},
        }
        i = i + 1;
    }
    assert(lv.take(ls@.len() as int) =~= lv);
    entries
}

/// The hexadecimal digits of `s`, in order.
pub open spec fn hex_only(s: Seq<char>) -> Seq<char>
    decreases s.len(),
{
    if s.len() == 0 {
        s
    } else if is_hex_digit(s.last()) {
        hex_only(s.drop_last()).push(s.last())
    } else {
        hex_only(s.drop_last())
    }
}

/// Twelve characters as six `:`-separated pairs.
pub open spec fn colon_pairs(c: Seq<char>) -> Seq<char> {
    c.subrange(0, 2) + seq![':'] + c.subrange(2, 4) + seq![':'] + c.subrange(4, 6) + seq![':']
        + c.subrange(6, 8) + seq![':'] + c.subrange(8, 10) + seq![':'] + c.subrange(10, 12)
}

/// A MAC in switch notation (`0050.5645.0001`) in the standard notation
/// (`00:50:56:45:00:01`): when it holds exactly twelve hex digits, those as
/// upper-case pairs; otherwise the text upper-cased.
pub open spec fn normalized_mac(s: Seq<char>) -> Seq<char> {
    let clean = hex_only(s);
    if clean.len() == 12 {
        upper_seq(colon_pairs(clean))
    } else {
        str_to_uppercase(s)
    }
}

/// Convert a MAC in switch notation to the standard notation.
pub fn normalize_mac(cisco_mac: &str) -> (r: String)
    ensures
        r@ == normalized_mac(cisco_mac@),
{
    let v = chars_of(cisco_mac);
    let mut clean: Vec<char> = Vec::new();
    let mut i: usize = 0;
    while i < v.len()
        invariant
            v@ == cisco_mac@,
            i <= v@.len(),
            clean@ == hex_only(v@.take(i as int)),
        decreases v.len() - i,
    {
        assert(v@.take(i + 1).drop_last() =~= v@.take(i as int));
        let c = v[i];
        if ('0' <= c && c <= '9') || ('a' <= c && c <= 'f') || ('A' <= c && c <= 'F') {
            clean.push(c);
        }
        i = i + 1;
    }
    assert(v@.take(v@.len() as int) =~= v@);
    if clean.len() == 12 {
        let mut out: Vec<char> = Vec::new();
        let mut k: usize = 0;
        while k < 12
            invariant
                clean@.len() == 12,
                k <= 12,
                k % 2 == 0,
                k > 0 ==> out@ == upper_seq(colon_pairs(clean@)).take(k + k / 2 - 1),
                k == 0 ==> out@.len() == 0,
            decreases 12 - k,
        {
            if k > 0 {
                out.push(':');
            }
            let a = to_upper(clean[k]);
            let b = to_upper(clean[k + 1]);
            out.push(a);
            out.push(b);
            proof {
                let full = upper_seq(colon_pairs(clean@));
                assert(colon_pairs(clean@).len() == 17);
                assert(out@ =~= full.take(k + 2 + (k + 2) / 2 - 1));
            }
            k = k + 2;
        }
        assert(out@ =~= upper_seq(colon_pairs(clean@)));
        string_from_chars(out.as_slice())
    } else {
        to_uppercase_string(cisco_mac)
    }
}

/// The position wired to `port`: that of the last mapping of the port.
pub open spec fn position_of_port(maps: Seq<(Seq<char>, (u8, Seq<char>, u8))>, port: Seq<char>) -> Option<(u8, Seq<char>, u8)>
    decreases maps.len(),
{
    if maps.len() == 0 {
        None
    } else if maps.last().0 == port {
        Some(maps.last().1)
    } else {
        position_of_port(maps.drop_last(), port)
    }
}

impl SwitchConfig {
    pub open spec fn mappings_view(&self) -> Seq<(Seq<char>, (u8, Seq<char>, u8))> {
        Seq::new(self.port_mappings@.len(), |i: int| (self.port_mappings@[i].port@, self.port_mappings@[i].position.view_tuple()))
    }

    /// The position wired to `port`, if any (the last mapping of the port).
    pub fn position_for_port(&self, port: &str) -> (r: Option<RackPosition>)
        ensures
            match position_of_port(self.mappings_view(), port@) {
                Some(p) => r matches Some(x) && x.view_tuple() == p,
                None => r is None,
            },
    {
        let mut i: usize = self.port_mappings.len();
        assert(self.mappings_view().take(i as int) =~= self.mappings_view());
        while i > 0
            invariant
                i <= self.port_mappings@.len(),
                position_of_port(self.mappings_view(), port@) == position_of_port(self.mappings_view().take(i as int), port@),
            decreases i,
        {
            let m = &self.port_mappings[i - 1];
            assert(self.mappings_view().take(i as int).drop_last() =~= self.mappings_view().take(i - 1));
            if eq_str(chars_of(m.port.as_str()).as_slice(), port) {
                return Some(copy_position(&m.position));
            }
            i = i - 1;
        }
        None
    }
}

/// The boards found on mapped ports, in table order: each entry's MAC in
/// standard notation with the position of its port.
pub open spec fn board_positions_spec(
    maps: Seq<(Seq<char>, (u8, Seq<char>, u8))>,
    entries: Seq<(Seq<char>, u16, Seq<char>)>,
) -> Seq<(Seq<char>, (u8, Seq<char>, u8))>
    decreases entries.len(),
{
    if entries.len() == 0 {
        seq![]
    } else {
        let rest = board_positions_spec(maps, entries.drop_last());
        match position_of_port(maps, entries.last().2) {
            Some(p) => rest.push((normalized_mac(entries.last().0), p)),
            None => rest,
        }
    }
}

/// Map the entries of a MAC table to rack positions through the port
/// wiring; a map built by inserting the pairs in order gives each board its
/// position.
pub fn board_positions(config: &SwitchConfig, entries: &[MacTableEntry]) -> (r: Vec<(String, RackPosition)>)
    ensures
        r@.len() == board_positions_spec(config.mappings_view(), Seq::new(entries@.len(), |i: int| entries@[i].view_tuple())).len(),
        forall|i: int| 0 <= i < r@.len() ==> (#[trigger] r@[i]).0@ == board_positions_spec(
            config.mappings_view(),
            Seq::new(entries@.len(), |i: int| entries@[i].view_tuple()),
        )[i].0 && r@[i].1.view_tuple() == board_positions_spec(
            config.mappings_view(),
            Seq::new(entries@.len(), |i: int| entries@[i].view_tuple()),
        )[i].1,
{
    let ghost es = Seq::new(entries@.len(), |i: int| entries@[i].view_tuple());
    let ghost maps = config.mappings_view();
    let mut out: Vec<(String, RackPosition)> = Vec::new();
    let mut i: usize = 0;
    while i < entries.len()
        invariant
            es == Seq::new(entries@.len(), |i: int| entries@[i].view_tuple()),
            maps == config.mappings_view(),
            i <= entries@.len(),
            out@.len() == board_positions_spec(maps, es.take(i as int)).len(),
            forall|k: int| 0 <= k < out@.len() ==> (#[trigger] out@[k]).0@ == board_positions_spec(maps, es.take(i as int))[k].0
                && out@[k].1.view_tuple() == board_positions_spec(maps, es.take(i as int))[k].1,
        decreases entries.len() - i,
    {
        assert(es.take(i + 1).drop_last() =~= es.take(i as int));
        assert(es.take(i + 1).last() == entries@[i as int].view_tuple());
        let e = &entries[i];
        match config.position_for_port(e.port.as_str()) {
            Some(pos) => {
                let mac = normalize_mac(e.mac.as_str());
                out.push((mac, pos));
            },
            None => {},
        }
        i = i + 1;
    }
    assert(es.take(entries@.len() as int) =~= es);
    out
}

} // verus!
