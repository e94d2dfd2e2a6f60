//! Board position identifiers: `S{shelf}-C{chamber}-T{tray}-{position}{slot}`
//! (for example `S1-C1-T1-FRONTA`).

use vstd::prelude::*;
use crate::text::{
    chars_of, dec_chars, int_chars, lemma_dec_chars_digits, lemma_split_join, lemma_split_single, parse_i32,
    parse_signed, push_int, push_str, slice_range, split, split_chars, string_from_chars, unsigned_digits,
};

verus! {

/// A board position.
#[derive(Debug)]
pub struct PositionIdentifier {
    pub shelf: i32,
    pub chamber: i32,
    pub tray: i32,
    pub slot: i32,
    /// `FRONT` or `REAR`.
    pub position_label: String,
    /// `A` or `B`.
    pub slot_label: String,
}

/// The text of a position.
pub open spec fn position_text(shelf: i32, chamber: i32, tray: i32, pos: Seq<char>, slot: Seq<char>) -> Seq<char> {
    seq!['S'] + int_chars(shelf as int) + seq!['-', 'C'] + int_chars(chamber as int) + seq!['-', 'T']
        + int_chars(tray as int) + seq!['-'] + pos + slot
}

/// A number field: the prefix letter, then an `i32`.
pub open spec fn prefixed_number(part: Seq<char>, prefix: char) -> Option<int> {
    if part.len() > 0 && part[0] == prefix {
        parse_signed(part.drop_first(), i32::MIN as int, i32::MAX as int)
    } else {
        None
    }
}

/// The last field split into position and slot labels: a final `A` or `B`
/// is the slot label.
pub open spec fn split_labels(pos: Seq<char>) -> (Seq<char>, Seq<char>) {
    if pos.len() > 0 && (pos.last() == 'A' || pos.last() == 'B') {
        (pos.drop_last(), seq![pos.last()])
    } else {
        (pos, seq![])
    }
}

/// What a position text denotes: shelf, chamber, tray, position label and
/// slot label.
pub open spec fn position_of_text(s: Seq<char>) -> Option<(int, int, int, Seq<char>, Seq<char>)> {
    let parts = split(s, '-');
    if parts.len() != 4 {
        None
    } else {
        match (prefixed_number(parts[0], 'S'), prefixed_number(parts[1], 'C'), prefixed_number(parts[2], 'T')) {
            (Some(a), Some(b), Some(c)) => Some((a, b, c, split_labels(parts[3]).0, split_labels(parts[3]).1)),
            _ => None,
        }
    }
}

fn parse_prefixed(part: &[char], prefix: char) -> (r: Option<i32>)
    ensures
        match prefixed_number(part@, prefix) {
            Some(x) => r == Some(x as i32) && i32::MIN <= x <= i32::MAX,
            None => r is None,
        },
{
    if part.len() > 0 && part[0] == prefix {
        let rest = slice_range(part, 1, part.len());
        assert(rest@ =~= part@.drop_first());
        parse_i32(rest.as_slice())
    } else {
        None
    }
}

impl PositionIdentifier {
    pub fn new(shelf: i32, chamber: i32, tray: i32, slot: i32, position_label: &str, slot_label: &str) -> (r: Self)
        ensures
            r.shelf == shelf,
            r.chamber == chamber,
            r.tray == tray,
            r.slot == slot,
            r.position_label@ == position_label@,
            r.slot_label@ == slot_label@,
    {
        PositionIdentifier {
            shelf,
            chamber,
            tray,
            slot,
            position_label: position_label.to_owned(),
            slot_label: slot_label.to_owned(),
        }
    }

    /// `S{shelf}-C{chamber}-T{tray}-{position_label}{slot_label}`.
    pub fn to_string(&self) -> (r: String)
        ensures
            r@ == position_text(self.shelf, self.chamber, self.tray, self.position_label@, self.slot_label@),
    {
        let mut out: Vec<char> = Vec::new();
        out.push('S');
        push_int(&mut out, self.shelf as i64);
        out.push('-');
        out.push('C');
        push_int(&mut out, self.chamber as i64);
        out.push('-');
        out.push('T');
        push_int(&mut out, self.tray as i64);
        out.push('-');
        push_str(&mut out, self.position_label.as_str());
        push_str(&mut out, self.slot_label.as_str());
        assert(out@ =~= position_text(self.shelf, self.chamber, self.tray, self.position_label@, self.slot_label@));
        string_from_chars(out.as_slice())
    }

    /// Parse `S1-C1-T1-FRONTA`; the slot number is not part of the text
    /// and reads as 0.
    pub fn from_string(s: &str) -> (r: Option<Self>)
        ensures
            match position_of_text(s@) {
                Some((a, b, c, p, l)) => r matches Some(x) && x.shelf == a && x.chamber == b
                    && x.tray == c && x.slot == 0 && x.position_label@ == p && x.slot_label@ == l,
                None => r is None,
            },
    {
        let v = chars_of(s);
        let parts = split_chars(v.as_slice(), '-');
        if parts.len() != 4 {
            return None;
        }
        let shelf = match parse_prefixed(parts[0].as_slice(), 'S') {
            Some(x) => x,
            None => return None,
        };
        let chamber = match parse_prefixed(parts[1].as_slice(), 'C') {
            Some(x) => x,
            None => return None,
        };
        let tray = match parse_prefixed(parts[2].as_slice(), 'T') {
            Some(x) => x,
            None => return None,
        };
        let pos = &parts[3];
        let n = pos.len();
        let (label, slot) = if n > 0 && (pos[n - 1] == 'A' || pos[n - 1] == 'B') {
            let a = slice_range(pos.as_slice(), 0, n - 1);
            let b = slice_range(pos.as_slice(), n - 1, n);
            assert(a@ =~= pos@.drop_last());
            assert(b@ =~= seq![pos@.last()]);
            (a, b)
        } else {
            let a = slice_range(pos.as_slice(), 0, n);
            let b: Vec<char> = Vec::new();
            assert(a@ =~= pos@);
            assert(b@ =~= Seq::<char>::empty());
            (a, b)
        };
        Some(
            PositionIdentifier {
                shelf,
                chamber,
                tray,
                slot: 0,
                position_label: string_from_chars(label.as_slice()),
                slot_label: string_from_chars(slot.as_slice()),
            },
        )
    }
}

proof fn lemma_number_field(n: i32, prefix: char)
    requires
        n >= 0,
    ensures
        prefix != '-' ==> !(seq![prefix] + int_chars(n as int)).contains('-'),
        prefixed_number(seq![prefix] + int_chars(n as int), prefix) == Some(n as int),
{
    let d = dec_chars(n as nat);
    lemma_dec_chars_digits(n as nat);
    let f = seq![prefix] + d;
    assert(f.drop_first() =~= d);
    assert(int_chars(n as int) == d);
    assert(unsigned_digits(d) == d) by {
        assert(crate::text::is_digit(d[0]));
    }
    assert(!(d.len() > 0 && d[0] == '-')) by {
        assert(crate::text::is_digit(d[0]));
    }
    if prefix != '-' {
        assert(!f.contains('-')) by {
            if f.contains('-') {
                let k = choose|k: int| 0 <= k < f.len() && f[k] == '-';
                if k > 0 {
                    assert(f[k] == d[k - 1]);
                    assert(crate::text::is_digit(d[k - 1]));
                }
            }
        }
    }
}

/// A position with non-negative numbers and a position label without `-`
/// reads back from its text with the same numbers and labels (and slot
/// number 0), when its slot label is `A` or `B`, or is empty and the
/// position label does not end in `A` or `B`.
pub proof fn lemma_position_text_roundtrip(shelf: i32, chamber: i32, tray: i32, pos: Seq<char>, slot: Seq<char>)
    requires
        shelf >= 0,
        chamber >= 0,
        tray >= 0,
        !pos.contains('-'),
        slot == seq!['A'] || slot == seq!['B'] || (slot.len() == 0 && !(pos.len() > 0 && (pos.last() == 'A'
            || pos.last() == 'B'))),
    ensures
        position_of_text(position_text(shelf, chamber, tray, pos, slot)) == Some(
            (shelf as int, chamber as int, tray as int, pos, slot),
        ),
{
    let a = seq!['S'] + int_chars(shelf as int);
    let b = seq!['C'] + int_chars(chamber as int);
    let c = seq!['T'] + int_chars(tray as int);
    let d = pos + slot;
    lemma_number_field(shelf, 'S');
    lemma_number_field(chamber, 'C');
    lemma_number_field(tray, 'T');
    assert(!d.contains('-')) by {
        if d.contains('-') {
            let k = choose|k: int| 0 <= k < d.len() && d[k] == '-';
            if k < pos.len() {
                assert(pos[k] == d[k]);
            } else {
                assert(slot[k - pos.len()] == d[k]);
            }
        }
    }
    let t = position_text(shelf, chamber, tray, pos, slot);
    assert(t =~= ((a + seq!['-'] + b) + seq!['-'] + c) + seq!['-'] + d);
    lemma_split_single(a, '-');
    lemma_split_join(a, b, '-');
    lemma_split_join(a + seq!['-'] + b, c, '-');
    lemma_split_join((a + seq!['-'] + b) + seq!['-'] + c, d, '-');
    let parts = split(t, '-');
    assert(parts =~= seq![a, b, c, d]);
    if slot.len() == 0 {
        assert(d =~= pos);
    } else {
        assert(d.drop_last() =~= pos);
        assert(d.last() == slot[0]);
        assert(seq![d.last()] =~= slot);
    }
}

} // verus!
