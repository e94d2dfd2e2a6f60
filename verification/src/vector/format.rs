//! FBC binary vector format: a 32-byte header, an 80-byte pin
//! configuration (160 pins x 4 bits) and the compressed opcode stream.

use vstd::prelude::*;
use crate::text::{
    chars_of, dec_chars, hex_val, hex_value, int_error_message, int_error_text, lemma_parse_hex_agrees, parse_hex,
    parse_hex_max, parse_uint_radix, push_decimal, push_str, slice_range, string_from_chars, trim, trimmed,
    uint_parse, unsigned_digits,
};

verus! {

broadcast use vstd::array::group_array_axioms;

/// Magic number: "FBC\0" in little endian.
pub const FBC_MAGIC: u32 = 0x00434246;

/// Current format version.
pub const FBC_VERSION: u16 = 1;

/// Number of DUT pins.
pub const PIN_COUNT: usize = 160;

/// Bytes per raw vector (160 bits).
pub const VECTOR_BYTES: usize = 20;

/// Sparse encoding crossover: above this many toggles the full encoding is used.
pub const SPARSE_CROSSOVER: usize = 15;

pub const OP_NOP: u8 = 0x00;
pub const OP_VECTOR_FULL: u8 = 0x01;
pub const OP_VECTOR_SPARSE: u8 = 0x02;
pub const OP_VECTOR_RUN: u8 = 0x03;
pub const OP_VECTOR_ZERO: u8 = 0x04;
pub const OP_VECTOR_ONES: u8 = 0x05;
pub const OP_VECTOR_XOR: u8 = 0x06;
pub const OP_END: u8 = 0x07;

/// Header flag: a thermal profile follows `OP_END` in the data section.
pub const FLAG_THERMAL_PROFILE: u8 = 0x01;

/// Vectors per thermal profile segment.
pub const THERMAL_SEGMENT_SIZE: u32 = 1024;

/// Bytes per encoded thermal segment.
pub const THERMAL_SEGMENT_BYTES: usize = 8;

/// Pin types (4-bit codes).
#[derive(Debug, Clone, Copy, PartialEq, Eq, Default)]
pub enum PinType {
    #[default]
    Bidi,
    Input,
    Output,
    OpenCollector,
    Pulse,
    NPulse,
    ErrorTrig,
    VecClk,
    VecClkEn,
}

impl PinType {
    /// The 4-bit code of the pin type.
    pub open spec fn code(self) -> u8 {
        match self {
            PinType::Bidi => 0,
            PinType::Input => 1,
            PinType::Output => 2,
            PinType::OpenCollector => 3,
            PinType::Pulse => 4,
            PinType::NPulse => 5,
            PinType::ErrorTrig => 6,
            PinType::VecClk => 7,
            PinType::VecClkEn => 8,
        }
    }

    /// The pin type with code `v`; unknown codes are `Bidi`.
    pub open spec fn from_code(v: u8) -> PinType {
        if v == 1 {
            PinType::Input
        } else if v == 2 {
            PinType::Output
        } else if v == 3 {
            PinType::OpenCollector
        } else if v == 4 {
            PinType::Pulse
        } else if v == 5 {
            PinType::NPulse
        } else if v == 6 {
            PinType::ErrorTrig
        } else if v == 7 {
            PinType::VecClk
        } else if v == 8 {
            PinType::VecClkEn
        } else {
            PinType::Bidi
        }
    }

    pub fn to_u8(self) -> (r: u8)
        ensures
            r == self.code(),
            r <= 8,
    {
        match self {
            PinType::Bidi => 0,
            PinType::Input => 1,
            PinType::Output => 2,
            PinType::OpenCollector => 3,
            PinType::Pulse => 4,
            PinType::NPulse => 5,
            PinType::ErrorTrig => 6,
            PinType::VecClk => 7,
            PinType::VecClkEn => 8,
        }
    }
}

impl From<u8> for PinType {
    fn from(val: u8) -> (r: PinType) {
        match val {
            1 => PinType::Input,
            2 => PinType::Output,
            3 => PinType::OpenCollector,
            4 => PinType::Pulse,
            5 => PinType::NPulse,
            6 => PinType::ErrorTrig,
            7 => PinType::VecClk,
            8 => PinType::VecClkEn,
            _ => PinType::Bidi,
        }
    }
}

impl vstd::std_specs::convert::FromSpecImpl<u8> for PinType {
    open spec fn obeys_from_spec() -> bool {
        true
    }

    open spec fn from_spec(v: u8) -> PinType {
        PinType::from_code(v)
    }
}

/// Decoding a pin type's code gives the pin type back.
pub proof fn lemma_pin_type_code_roundtrip(t: PinType)
    ensures
        PinType::from_code(t.code()) == t,
        t.code() < 16,
{
}

// -----------------------------------------------------------------------------
// Vector
// -----------------------------------------------------------------------------

/// Bit `k` (0 = least significant) of byte `b`.
pub open spec fn byte_bit(b: u8, k: u8) -> bool {
    (b >> k) & 1u8 == 1u8
}

proof fn lemma_bit_or(b: u8, j: u8, k: u8)
    requires
        j < 8,
        k < 8,
    ensures
        byte_bit(b | (1u8 << j), k) == (k == j || byte_bit(b, k)),
{
    assert(((b | (1u8 << j)) >> k) & 1u8 == 1u8 <==> (k == j || (b >> k) & 1u8 == 1u8))
        by (bit_vector)
        requires j < 8, k < 8;
}

proof fn lemma_bit_clear(b: u8, j: u8, k: u8)
    requires
        j < 8,
        k < 8,
    ensures
        byte_bit(b & !(1u8 << j), k) == (k != j && byte_bit(b, k)),
{
    assert(((b & !(1u8 << j)) >> k) & 1u8 == 1u8 <==> (k != j && (b >> k) & 1u8 == 1u8))
        by (bit_vector)
        requires j < 8, k < 8;
}

proof fn lemma_bit_xor(a: u8, b: u8, k: u8)
    requires
        k < 8,
    ensures
        byte_bit(a ^ b, k) == (byte_bit(a, k) != byte_bit(b, k)),
{
    assert((((a ^ b) >> k) & 1u8 == 1u8) <==> (((a >> k) & 1u8 == 1u8) != ((b >> k) & 1u8
        == 1u8))) by (bit_vector)
        requires k < 8;
}

proof fn lemma_bit_const(k: u8)
    requires
        k < 8,
    ensures
        !byte_bit(0u8, k),
        byte_bit(0xffu8, k),
{
    assert(((0u8 >> k) & 1u8 != 1u8) && ((0xffu8 >> k) & 1u8 == 1u8)) by (bit_vector)
        requires k < 8;
}

proof fn lemma_bits_determine_byte(a: u8, b: u8)
    requires
        forall|k: u8| k < 8 ==> byte_bit(a, k) == byte_bit(b, k),
    ensures
        a == b,
{
    assert(byte_bit(a, 0) == byte_bit(b, 0));
    assert(byte_bit(a, 1) == byte_bit(b, 1));
    assert(byte_bit(a, 2) == byte_bit(b, 2));
    assert(byte_bit(a, 3) == byte_bit(b, 3));
    assert(byte_bit(a, 4) == byte_bit(b, 4));
    assert(byte_bit(a, 5) == byte_bit(b, 5));
    assert(byte_bit(a, 6) == byte_bit(b, 6));
    assert(byte_bit(a, 7) == byte_bit(b, 7));
    assert(a == b) by (bit_vector)
        requires
            (a >> 0u8) & 1u8 == 1u8 <==> (b >> 0u8) & 1u8 == 1u8,
            (a >> 1u8) & 1u8 == 1u8 <==> (b >> 1u8) & 1u8 == 1u8,
            (a >> 2u8) & 1u8 == 1u8 <==> (b >> 2u8) & 1u8 == 1u8,
            (a >> 3u8) & 1u8 == 1u8 <==> (b >> 3u8) & 1u8 == 1u8,
            (a >> 4u8) & 1u8 == 1u8 <==> (b >> 4u8) & 1u8 == 1u8,
            (a >> 5u8) & 1u8 == 1u8 <==> (b >> 5u8) & 1u8 == 1u8,
            (a >> 6u8) & 1u8 == 1u8 <==> (b >> 6u8) & 1u8 == 1u8,
            (a >> 7u8) & 1u8 == 1u8 <==> (b >> 7u8) & 1u8 == 1u8,
    ;
}

/// Number of `true` entries of `s`.
pub open spec fn count_true(s: Seq<bool>) -> nat
    decreases s.len(),
{
    if s.len() == 0 {
        0
    } else {
        count_true(s.drop_last()) + if s.last() {
            1nat
        } else {
            0nat
        }
    }
}

/// The positions of the `true` entries of `s`, in increasing order.
pub open spec fn true_positions(s: Seq<bool>) -> Seq<int>
    decreases s.len(),
{
    if s.len() == 0 {
        seq![]
    } else if s.last() {
        true_positions(s.drop_last()).push(s.len() - 1)
    } else {
        true_positions(s.drop_last())
    }
}

pub proof fn lemma_count_true_bound(s: Seq<bool>)
    ensures
        count_true(s) <= s.len(),
        true_positions(s).len() == count_true(s),
        forall|i: int| 0 <= i < true_positions(s).len() ==> 0 <= #[trigger] true_positions(s)[i] < s.len() && s[true_positions(s)[i]],
        forall|i: int, j: int| 0 <= i < j < true_positions(s).len() ==> true_positions(s)[i] < true_positions(s)[j],
    decreases s.len(),
{
    if s.len() > 0 {
        lemma_count_true_bound(s.drop_last());
    }
}

/// A single vector (160 bits).
#[derive(Debug, Clone, Copy, PartialEq, Eq, Default)]
pub struct Vector {
    pub data: [u8; 20],
}

impl View for Vector {
    type V = Seq<bool>;

    /// Pin `p` is bit `p % 8` of byte `p / 8`.
    open spec fn view(&self) -> Seq<bool> {
        Seq::new(160, |p: int| byte_bit(self.data[p / 8], (p % 8) as u8))
    }
}

/// The all-zero vector.
pub open spec fn zero_vector() -> Vector {
    Vector { data: vstd::array::spec_array_fill_for_copy_type::<u8, 20>(0u8) }
}

/// The all-zero bit pattern.
pub open spec fn zero_bits() -> Seq<bool> {
    Seq::new(160, |p: int| false)
}

/// The all-one bit pattern.
pub open spec fn ones_bits() -> Seq<bool> {
    Seq::new(160, |p: int| true)
}

/// Pin-wise exclusive or.
pub open spec fn xor_bits(a: Seq<bool>, b: Seq<bool>) -> Seq<bool> {
    Seq::new(160, |p: int| a[p] != b[p])
}

impl Vector {
    /// Two vectors with the same bits are the same vector.
    pub proof fn lemma_view_injective(a: Vector, b: Vector)
        requires
            a@ == b@,
        ensures
            a == b,
    {
        assert forall|i: int| 0 <= i < 20 implies a.data[i] == b.data[i] by {
            assert forall|k: u8| k < 8 implies byte_bit(a.data[i], k) == byte_bit(b.data[i], k) by {
                let p = i * 8 + k;
                assert(p / 8 == i && p % 8 == k);
                assert(a@[p] == byte_bit(a.data[i], k));
                assert(b@[p] == byte_bit(b.data[i], k));
            }
            lemma_bits_determine_byte(a.data[i], b.data[i]);
        }
        assert(a.data@ =~= b.data@);
        assert(a.data == b.data);
    }

    /// The all-zero vector has no pin set.
    pub proof fn lemma_zero_vector_bits()
        ensures
            zero_vector()@ == zero_bits(),
    {
        let z = zero_vector();
        assert forall|p: int| 0 <= p < 160 implies !z@[p] by {
            lemma_bit_const((p % 8) as u8);
        }
        assert(z@ =~= zero_bits());
    }

    /// All zeros.
    pub fn zero() -> (r: Vector)
        ensures
            r@ == zero_bits(),
            r == zero_vector(),
    {
        let r = Vector { data: [0u8; 20] };
        assert(r.data =~= zero_vector().data);
        assert forall|p: int| 0 <= p < 160 implies !r@[p] by {
            lemma_bit_const((p % 8) as u8);
        }
        assert(r@ =~= zero_bits());
        r
    }

    /// All ones.
    pub fn ones() -> (r: Vector)
        ensures
            r@ == ones_bits(),
    {
        let r = Vector { data: [0xFFu8; 20] };
        assert forall|p: int| 0 <= p < 160 implies r@[p] by {
            lemma_bit_const((p % 8) as u8);
        }
        assert(r@ =~= ones_bits());
        r
    }

    /// Whether two vectors hold the same bits.
    pub fn same(&self, other: &Vector) -> (r: bool)
        ensures
            r == (self@ == other@),
            r == (*self == *other),
    {
        let mut i: usize = 0;
        while i < 20
            invariant
                i <= 20,
                forall|k: int| 0 <= k < i ==> self.data[k] == other.data[k],
            decreases 20 - i,
        {
            if self.data[i] != other.data[i] {
                proof {
                    if self@ == other@ {
                        Self::lemma_view_injective(*self, *other);
                    }
                }
                return false;
            }
            i = i + 1;
        }
        assert(self.data@ =~= other.data@);
        assert(self.data == other.data);
        true
    }

    /// Get bit at position (0-159).
    pub fn get_bit(&self, pos: usize) -> (r: bool)
        requires
            pos < 160,
        ensures
            r == self@[pos as int],
    {
        let byte_idx = pos / 8;
        let bit_idx = (pos % 8) as u8;
        (self.data[byte_idx] >> bit_idx) & 1 == 1
    }

    /// Set bit at position (0-159).
    pub fn set_bit(&mut self, pos: usize, value: bool)
        requires
            pos < 160,
        ensures
            final(self)@ == old(self)@.update(pos as int, value),
    {
        let byte_idx = pos / 8;
        let bit_idx = (pos % 8) as u8;
        let old_byte = self.data[byte_idx];
        if value {
            self.data[byte_idx] = old_byte | (1u8 << bit_idx);
        } else {
            self.data[byte_idx] = old_byte & !(1u8 << bit_idx);
        }
        proof {
            assert forall|p: int| 0 <= p < 160 implies self@[p] == old(self)@.update(
                pos as int,
                value,
            )[p] by {
                if p / 8 == byte_idx {
                    if value {
                        lemma_bit_or(old_byte, bit_idx, (p % 8) as u8);
                    } else {
                        lemma_bit_clear(old_byte, bit_idx, (p % 8) as u8);
                    }
                }
            }
            assert(self@ =~= old(self)@.update(pos as int, value));
        }
    }

    /// Count number of 1 bits.
    pub fn popcount(&self) -> (r: usize)
        ensures
            r == count_true(self@),
            r <= 160,
    {
        let mut n: usize = 0;
        let mut p: usize = 0;
        while p < 160
            invariant
                p <= 160,
                n == count_true(self@.take(p as int)),
                n <= p,
            decreases 160 - p,
        {
            assert(self@.take(p + 1).drop_last() =~= self@.take(p as int));
            if self.get_bit(p) {
                n = n + 1;
            }
            p = p + 1;
        }
        assert(self@.take(160) =~= self@);
        n
    }

    /// XOR with another vector.
    pub fn xor(&self, other: &Vector) -> (r: Vector)
        ensures
            r@ == xor_bits(self@, other@),
    {
        let mut result = Vector::zero();
        let mut i: usize = 0;
        while i < 20
            invariant
                i <= 20,
                forall|k: int| 0 <= k < i ==> result.data[k] == self.data[k] ^ other.data[k],
            decreases 20 - i,
        {
            result.data[i] = self.data[i] ^ other.data[i];
            i = i + 1;
        }
        proof {
            assert forall|p: int| 0 <= p < 160 implies result@[p] == xor_bits(self@, other@)[p] by {
                lemma_bit_xor(self.data[p / 8], other.data[p / 8], (p % 8) as u8);
            }
            assert(result@ =~= xor_bits(self@, other@));
        }
        result
    }

    /// Count bits that differ from another vector.
    pub fn hamming_distance(&self, other: &Vector) -> (r: usize)
        ensures
            r == count_true(xor_bits(self@, other@)),
            r <= 160,
    {
        self.xor(other).popcount()
    }

    /// Get indices of bits that are 1, in increasing order.
    pub fn ones_indices(&self) -> (r: Vec<u8>)
        ensures
            r@.len() == true_positions(self@).len(),
            forall|i: int| 0 <= i < r@.len() ==> r@[i] as int == #[trigger] true_positions(self@)[i],
    {
        let mut indices: Vec<u8> = Vec::new();
        let mut p: usize = 0;
        while p < 160
            invariant
                p <= 160,
                indices@.len() == true_positions(self@.take(p as int)).len(),
                forall|i: int| 0 <= i < indices@.len() ==> indices@[i] as int == #[trigger] true_positions(self@.take(p as int))[i],
            decreases 160 - p,
        {
            assert(self@.take(p + 1).drop_last() =~= self@.take(p as int));
            if self.get_bit(p) {
                indices.push(p as u8);
            }
            p = p + 1;
        }
        assert(self@.take(160) =~= self@);
        indices
    }

    /// Create from indices of bits that should be 1 (indices >= 160 are ignored).
    pub fn from_indices(indices: &[u8]) -> (r: Vector)
        ensures
            forall|p: int| 0 <= p < 160 ==> r@[p] == exists|i: int| 0 <= i < indices@.len() && #[trigger] indices@[i] == p,
    {
        let mut v = Vector::zero();
        let mut k: usize = 0;
        while k < indices.len()
            invariant
                k <= indices@.len(),
                forall|p: int| 0 <= p < 160 ==> v@[p] == exists|i: int| 0 <= i < k && #[trigger] indices@[i] == p,
            decreases indices.len() - k,
        {
            let idx = indices[k];
            if (idx as usize) < 160 {
                v.set_bit(idx as usize, true);
            }
            proof {
                assert forall|p: int| 0 <= p < 160 implies v@[p] == exists|i: int| 0 <= i < k + 1 && #[trigger] indices@[i] == p by {
                    if indices@[k as int] == p {
                        assert(0 <= k < k + 1 && indices@[k as int] == p);
                    }
                }
            }
            k = k + 1;
        }
        v
    }

    /// Parse from hex string (40 hex digits, two per byte); the error
    /// names the length or the first pair that is no byte.
    pub fn from_hex(s: &str) -> (r: Result<Self, String>)
        ensures
            match r {
                Ok(v) => hex_vector_ok(trim(s@)) && forall|i: int| 0 <= i < 20 ==> v.data[i] as int == hex_pair_value(trim(s@), i),
                Err(m) => !hex_vector_ok(trim(s@)) && m@ == hex_error_message(trim(s@)),
            },
    {
        let all = chars_of(s);
        let t = trimmed(&all);
        if t.len() != 40 {
            let mut m: Vec<char> = Vec::new();
            push_str(&mut m, "Expected 40 hex chars, got ");
            push_decimal(&mut m, t.len() as u64);
            return Err(string_from_chars(&m));
        }
        let mut data = [0u8; 20];
        let mut i: usize = 0;
        while i < 20
            invariant
                i <= 20,
                t@ == trim(s@),
                t@.len() == 40,
                forall|k: int| 0 <= k < i ==> parse_hex(#[trigger] t@.subrange(2 * k, 2 * k + 2), 255) is Some,
                forall|k: int| 0 <= k < i ==> data[k] as int == hex_pair_value(t@, k),
            decreases 20 - i,
        {
            let pair = slice_range(&t, 2 * i, 2 * i + 2);
            assert(pair@ == t@.subrange(2 * i as int, 2 * i as int + 2));
            match parse_hex_max(&pair, 255) {
                Some(x) => {
                    assert(x as int == hex_pair_value(t@, i as int));
                    let ghost old_data = data;
                    data[i] = x as u8;
                    assert(forall|k: int| 0 <= k < i ==> data[k] == old_data[k]);
                    assert(data[i as int] as int == hex_pair_value(t@, i as int));
                }
                None => {
                    proof {
                        lemma_parse_hex_agrees(pair@, 255);
                        lemma_first_bad_pair(t@, i as int, 20);
                    }
                    let kind = match parse_uint_radix(&pair, 16, 255) {
                        Ok(_) => {
                            assert(false);
                            crate::text::IntErrorKind::InvalidDigit
                        },
                        Err(k) => k,
                    };
                    let mut m: Vec<char> = Vec::new();
                    push_str(&mut m, "Invalid hex at position ");
                    push_decimal(&mut m, (2 * i) as u64);
                    push_str(&mut m, ": ");
                    push_str(&mut m, int_error_message(kind));
                    return Err(string_from_chars(&m));
                }
            }
            i = i + 1;
        }
        Ok(Vector { data })
    }

    /// Format as hex string (40 lower-case hex digits).
    pub fn to_hex(&self) -> (r: String)
        ensures
            r@.len() == 40,
            forall|i: int| 0 <= i < 20 ==> #[trigger] hex_pair_value(r@, i) == self.data[i] as int,
            forall|i: int| 0 <= i < 40 ==> is_lower_hex_digit(#[trigger] r@[i]),
    {
        let mut out: Vec<char> = Vec::new();
        let mut i: usize = 0;
        while i < 20
            invariant
                i <= 20,
                out@.len() == 2 * i,
                forall|k: int| 0 <= k < i ==> #[trigger] hex_pair_value(out@, k) == self.data[k] as int,
                forall|k: int| 0 <= k < 2 * i ==> is_lower_hex_digit(#[trigger] out@[k]),
            decreases 20 - i,
        {
            let b = self.data[i];
            let hi = hex_digit_char(b / 16);
            let lo = hex_digit_char(b % 16);
            let ghost before = out@;
            out.push(hi);
            out.push(lo);
            proof {
                assert forall|k: int| 0 <= k < i + 1 implies #[trigger] hex_pair_value(out@, k) == self.data[k] as int by {
                    if k < i {
                        assert(out@.subrange(2 * k, 2 * k + 2) =~= before.subrange(2 * k, 2 * k + 2));
                        assert(hex_pair_value(before, k) == self.data[k] as int);
                    } else {
                        assert(k == i);
                        assert(out@.subrange(2 * k, 2 * k + 2) =~= seq![hi, lo]);
                        assert(seq![hi, lo].drop_last() =~= seq![hi]);
                        assert(seq![hi].drop_last() =~= Seq::<char>::empty());
                        assert(unsigned_digits(seq![hi, lo]) =~= seq![hi, lo]);
                        assert(hex_value(seq![hi]) == hex_value(Seq::<char>::empty()) * 16 + hex_val(hi));
                        assert(hex_value(seq![hi, lo]) == hex_value(seq![hi]) * 16 + hex_val(lo));
                        assert(hex_value(seq![hi, lo]) == b as int);
                        assert(parse_hex(seq![hi, lo], 255) == Some(b as int));
                        assert(hex_pair_value(out@, k) == b as int);
                    }
                }
            }
            i = i + 1;
        }
        string_from_chars(&out)
    }

    /// Parse from binary string (160 characters of 0/1/H/L/X/Z/-; X, Z and
    /// - read as 0); the error names the length or the first bad character.
    pub fn from_binary(s: &str) -> (r: Result<Self, String>)
        ensures
            match r {
                Ok(v) => binary_vector_ok(trim(s@)) && forall|p: int| 0 <= p < 160 ==> v@[p] == is_one_char(#[trigger] trim(s@)[p]),
                Err(m) => !binary_vector_ok(trim(s@)) && m@ == binary_error_message(trim(s@)),
            },
    {
        let all = chars_of(s);
        let t = trimmed(&all);
        if t.len() != 160 {
            let mut m: Vec<char> = Vec::new();
            push_str(&mut m, "Expected 160 binary chars, got ");
            push_decimal(&mut m, t.len() as u64);
            return Err(string_from_chars(&m));
        }
        let mut v = Vector::zero();
        let mut i: usize = 0;
        while i < 160
            invariant
                i <= 160,
                t@ == trim(s@),
                t@.len() == 160,
                forall|k: int| 0 <= k < i ==> is_binary_char(#[trigger] t@[k]),
                forall|k: int| 0 <= k < i ==> v@[k] == is_one_char(#[trigger] t@[k]),
                forall|k: int| i <= k < 160 ==> !v@[k],
            decreases 160 - i,
        {
            let c = t[i];
            if c == '1' || c == 'H' {
                v.set_bit(i, true);
            } else if c == '0' || c == 'L' {
                v.set_bit(i, false);
            } else if c == 'X' || c == 'Z' || c == '-' {
            } else {
                proof {
                    lemma_first_bad_char(t@, i as int, 160);
                }
                let mut m: Vec<char> = Vec::new();
                push_str(&mut m, "Invalid binary char '");
                m.push(c);
                push_str(&mut m, "' at position ");
                push_decimal(&mut m, i as u64);
                return Err(string_from_chars(&m));
            }
            i = i + 1;
        }
        Ok(v)
    }

    /// Format as binary string (160 characters of 0/1).
    pub fn to_binary(&self) -> (r: String)
        ensures
            r@.len() == 160,
            forall|p: int| 0 <= p < 160 ==> #[trigger] r@[p] == if self@[p] { '1' } else { '0' },
    {
        let mut out: Vec<char> = Vec::new();
        let mut p: usize = 0;
        while p < 160
            invariant
                p <= 160,
                out@.len() == p,
                forall|k: int| 0 <= k < p ==> #[trigger] out@[k] == if self@[k] { '1' } else { '0' },
            decreases 160 - p,
        {
            if self.get_bit(p) {
                out.push('1');
            } else {
                out.push('0');
            }
            p = p + 1;
        }
        string_from_chars(&out)
    }
}

/// The index of the first of the first `n` pairs of hex digits of `t`
/// that is no byte.
pub open spec fn first_bad_pair(t: Seq<char>, n: int) -> Option<int>
    decreases n,
{
    if n <= 0 {
        None
    } else {
        match first_bad_pair(t, n - 1) {
            Some(k) => Some(k),
            None => if parse_hex(t.subrange(2 * (n - 1), 2 * (n - 1) + 2), 255) is None {
                Some(n - 1)
            } else {
                None
            },
        }
    }
}

proof fn lemma_first_bad_pair(t: Seq<char>, i: int, n: int)
    requires
        0 <= i < n,
        forall|k: int| 0 <= k < i ==> parse_hex(#[trigger] t.subrange(2 * k, 2 * k + 2), 255) is Some,
        parse_hex(t.subrange(2 * i, 2 * i + 2), 255) is None,
    ensures
        first_bad_pair(t, n) == Some(i),
    decreases n,
{
    if n - 1 > i {
        lemma_first_bad_pair(t, i, n - 1);
    } else {
        lemma_no_bad_pair(t, i);
    }
}

proof fn lemma_no_bad_pair(t: Seq<char>, n: int)
    requires
        0 <= n,
        forall|k: int| 0 <= k < n ==> parse_hex(#[trigger] t.subrange(2 * k, 2 * k + 2), 255) is Some,
    ensures
        first_bad_pair(t, n) is None,
    decreases n,
{
    if n > 0 {
        lemma_no_bad_pair(t, n - 1);
        assert(parse_hex(t.subrange(2 * (n - 1), 2 * (n - 1) + 2), 255) is Some);
    }
}

/// What `from_hex` says of trimmed text that is no vector: its length when
/// it is not 40, else the position of the first pair that is no byte and
/// why.
pub open spec fn hex_error_message(t: Seq<char>) -> Seq<char> {
    if t.len() != 40 {
        "Expected 40 hex chars, got "@ + dec_chars(t.len())
    } else {
        let k = match first_bad_pair(t, 20) {
            Some(k) => k,
            None => 0,
        };
        let why = match uint_parse(t.subrange(2 * k, 2 * k + 2), 16, 255) {
            Err(e) => int_error_text(e),
            Ok(_) => seq![],
        };
        "Invalid hex at position "@ + dec_chars((2 * k) as nat) + ": "@ + why
    }
}

/// The index of the first of the first `n` characters of `t` that is no
/// pin character.
pub open spec fn first_bad_char(t: Seq<char>, n: int) -> Option<int>
    decreases n,
{
    if n <= 0 {
        None
    } else {
        match first_bad_char(t, n - 1) {
            Some(k) => Some(k),
            None => if !is_binary_char(t[n - 1]) {
                Some(n - 1)
            } else {
                None
            },
        }
    }
}

proof fn lemma_first_bad_char(t: Seq<char>, i: int, n: int)
    requires
        0 <= i < n,
        forall|k: int| 0 <= k < i ==> is_binary_char(#[trigger] t[k]),
        !is_binary_char(t[i]),
    ensures
        first_bad_char(t, n) == Some(i),
    decreases n,
{
    if n - 1 > i {
        lemma_first_bad_char(t, i, n - 1);
    } else {
        lemma_no_bad_char(t, i);
    }
}

proof fn lemma_no_bad_char(t: Seq<char>, n: int)
    requires
        0 <= n,
        forall|k: int| 0 <= k < n ==> is_binary_char(#[trigger] t[k]),
    ensures
        first_bad_char(t, n) is None,
    decreases n,
{
    if n > 0 {
        lemma_no_bad_char(t, n - 1);
        assert(is_binary_char(t[n - 1]));
    }
}

/// What `from_binary` says of trimmed text that is no vector: its length
/// when it is not 160, else the first character that is no pin character
/// and its position.
pub open spec fn binary_error_message(t: Seq<char>) -> Seq<char> {
    if t.len() != 160 {
        "Expected 160 binary chars, got "@ + dec_chars(t.len())
    } else {
        let k = match first_bad_char(t, 160) {
            Some(k) => k,
            None => 0,
        };
        "Invalid binary char '"@ + seq![t[k]] + "' at position "@ + dec_chars(k as nat)
    }
}

/// Value of the `i`-th pair of hex digits of `t`.
pub open spec fn hex_pair_value(t: Seq<char>, i: int) -> int {
    match parse_hex(t.subrange(2 * i, 2 * i + 2), 255) {
        Some(x) => x,
        None => -1,
    }
}

/// Whether `t` spells 20 bytes as 40 hexadecimal characters (each pair as
/// `u8::from_str_radix(.., 16)` accepts it).
pub open spec fn hex_vector_ok(t: Seq<char>) -> bool {
    t.len() == 40 && forall|i: int| 0 <= i < 20 ==> parse_hex(#[trigger] t.subrange(2 * i, 2 * i + 2), 255) is Some
}

pub open spec fn is_lower_hex_digit(c: char) -> bool {
    ('0' <= c && c <= '9') || ('a' <= c && c <= 'f')
}

pub open spec fn is_binary_char(c: char) -> bool {
    c == '1' || c == 'H' || c == '0' || c == 'L' || c == 'X' || c == 'Z' || c == '-'
}

pub open spec fn is_one_char(c: char) -> bool {
    c == '1' || c == 'H'
}

/// Whether `t` is 160 pin characters.
pub open spec fn binary_vector_ok(t: Seq<char>) -> bool {
    t.len() == 160 && forall|i: int| 0 <= i < 160 ==> is_binary_char(#[trigger] t[i])
}

fn hex_digit_char(d: u8) -> (c: char)
    requires
        d < 16,
    ensures
        is_lower_hex_digit(c),
        hex_val(c) == d as int,
{
    match d {
        0 => '0',
        1 => '1',
        2 => '2',
        3 => '3',
        4 => '4',
        5 => '5',
        6 => '6',
        7 => '7',
        8 => '8',
        9 => '9',
        10 => 'a',
        11 => 'b',
        12 => 'c',
        13 => 'd',
        14 => 'e',
        _ => 'f',
    }
}

} // verus!

verus! {

// -----------------------------------------------------------------------------
// Pin configuration
// -----------------------------------------------------------------------------

/// Pin configuration (160 pins, 4 bits each on the wire).
#[derive(Debug, Clone)]
pub struct PinConfig {
    pub types: [PinType; 160],
}

impl Default for PinConfig {
    fn default() -> (r: PinConfig)
        ensures
            forall|p: int| 0 <= p < 160 ==> r.types[p] == PinType::Bidi,
    {
        PinConfig { types: [PinType::Bidi; 160] }
    }
}

/// Byte `i` of the packed pin configuration: pin `2i` in the low nibble,
/// pin `2i + 1` in the high nibble.
pub open spec fn packed_pin_byte(types: Seq<PinType>, i: int) -> int {
    types[2 * i].code() + 16 * types[2 * i + 1].code()
}

/// The pin type stored for pin `p` in the packed bytes `b`.
pub open spec fn unpacked_pin(b: Seq<u8>, p: int) -> PinType {
    if p % 2 == 0 {
        PinType::from_code(b[p / 2] % 16)
    } else {
        PinType::from_code(b[p / 2] / 16)
    }
}

impl PinConfig {
    /// Pack 160 4-bit pin types into 80 bytes.
    pub fn to_bytes(&self) -> (r: [u8; 80])
        ensures
            forall|i: int| 0 <= i < 80 ==> r[i] as int == #[trigger] packed_pin_byte(self.types@, i),
    {
        let mut bytes = [0u8; 80];
        let mut i: usize = 0;
        while i < 80
            invariant
                i <= 80,
                forall|k: int| 0 <= k < i ==> bytes[k] as int == #[trigger] packed_pin_byte(self.types@, k),
            decreases 80 - i,
        {
            let lo = self.types[i * 2].to_u8();
            let hi = self.types[i * 2 + 1].to_u8();
            let b = lo | (hi << 4);
            assert(b == lo + 16 * hi) by (bit_vector)
                requires lo <= 8, hi <= 8, b == lo | (hi << 4);
            bytes[i] = b;
            i = i + 1;
        }
        bytes
    }

    /// Unpack 80 bytes into 160 4-bit pin types.
    pub fn from_bytes(bytes: &[u8; 80]) -> (r: Self)
        ensures
            forall|p: int| 0 <= p < 160 ==> r.types[p] == #[trigger] unpacked_pin(bytes@, p),
    {
        let mut types = [PinType::Bidi; 160];
        let mut i: usize = 0;
        while i < 80
            invariant
                i <= 80,
                forall|p: int| 0 <= p < 2 * i ==> types[p] == #[trigger] unpacked_pin(bytes@, p),
            decreases 80 - i,
        {
            let b = bytes[i];
            let lo = b & 0x0F;
            let hi = b >> 4;
            assert(lo == b % 16 && hi == b / 16) by (bit_vector)
                requires lo == b & 0x0F, hi == b >> 4;
            types[i * 2] = PinType::from(lo);
            types[i * 2 + 1] = PinType::from(hi);
            i = i + 1;
        }
        PinConfig { types }
    }
}

/// Unpacking the packed pin configuration gives the configuration back.
pub proof fn lemma_pin_config_roundtrip(types: Seq<PinType>, b: Seq<u8>)
    requires
        types.len() == 160,
        b.len() == 80,
        forall|i: int| 0 <= i < 80 ==> b[i] as int == #[trigger] packed_pin_byte(types, i),
    ensures
        forall|p: int| 0 <= p < 160 ==> #[trigger] unpacked_pin(b, p) == types[p],
{
    assert forall|p: int| 0 <= p < 160 implies #[trigger] unpacked_pin(b, p) == types[p] by {
        let i = p / 2;
        assert(b[i] as int == packed_pin_byte(types, i));
        lemma_pin_type_code_roundtrip(types[2 * i]);
        lemma_pin_type_code_roundtrip(types[2 * i + 1]);
    }
}

// -----------------------------------------------------------------------------
// Header and file
// -----------------------------------------------------------------------------

/// Errors while reading the binary format.
#[derive(Debug, Clone, Copy, PartialEq, Eq)]
pub enum FbcReadError {
    /// The input ended before the structure was complete.
    UnexpectedEof,
    /// The header does not start with `FBC_MAGIC`; the value found.
    InvalidMagic(u32),
}

/// FBC file header (32 bytes, little endian).
#[derive(Debug, Clone, Copy)]
pub struct FbcHeader {
    pub magic: u32,
    pub version: u16,
    pub pin_count: u8,
    pub flags: u8,
    pub num_vectors: u32,
    pub compressed_size: u32,
    pub vec_clock_hz: u32,
    pub crc32: u32,
    pub _reserved: [u8; 8],
}

impl Default for FbcHeader {
    fn default() -> (r: FbcHeader)
        ensures
            r.magic == FBC_MAGIC,
            r.version == FBC_VERSION,
            r.pin_count == 160,
            r.flags == 0,
            r.num_vectors == 0,
            r.compressed_size == 0,
            r.vec_clock_hz == 100_000_000,
            r.crc32 == 0,
            forall|i: int| 0 <= i < 8 ==> r._reserved[i] == 0,
    {
        FbcHeader {
            magic: FBC_MAGIC,
            version: FBC_VERSION,
            pin_count: 160,
            flags: 0,
            num_vectors: 0,
            compressed_size: 0,
            vec_clock_hz: 100_000_000,
            crc32: 0,
            _reserved: [0u8; 8],
        }
    }
}

impl FbcHeader {
    /// The 32 bytes of the header.
    pub open spec fn spec_bytes(self) -> Seq<u8> {
        crate::codec::le32_bytes(self.magic) + crate::codec::le16_bytes(self.version) + seq![
            self.pin_count,
            self.flags,
        ] + crate::codec::le32_bytes(self.num_vectors) + crate::codec::le32_bytes(
            self.compressed_size,
        ) + crate::codec::le32_bytes(self.vec_clock_hz) + crate::codec::le32_bytes(self.crc32)
            + self._reserved@
    }

    /// Whether this header is the one stored in the first 32 bytes of `b`.
    pub open spec fn parsed_from(self, b: Seq<u8>) -> bool {
        &&& self.magic == crate::codec::le32(b.subrange(0, 4))
        &&& self.version == crate::codec::le16(b.subrange(4, 6))
        &&& self.pin_count == b[6]
        &&& self.flags == b[7]
        &&& self.num_vectors == crate::codec::le32(b.subrange(8, 12))
        &&& self.compressed_size == crate::codec::le32(b.subrange(12, 16))
        &&& self.vec_clock_hz == crate::codec::le32(b.subrange(16, 20))
        &&& self.crc32 == crate::codec::le32(b.subrange(20, 24))
        &&& self._reserved@ == b.subrange(24, 32)
    }

    /// Append the 32 header bytes.
    pub fn write_to(&self, w: &mut Vec<u8>)
        ensures
            final(w)@ == old(w)@ + self.spec_bytes(),
    {
        crate::codec::push_u32_le(w, self.magic);
        crate::codec::push_u16_le(w, self.version);
        w.push(self.pin_count);
        w.push(self.flags);
        crate::codec::push_u32_le(w, self.num_vectors);
        crate::codec::push_u32_le(w, self.compressed_size);
        crate::codec::push_u32_le(w, self.vec_clock_hz);
        crate::codec::push_u32_le(w, self.crc32);
        crate::codec::push_all(w, &self._reserved);
        assert(w@ =~= old(w)@ + self.spec_bytes());
    }
}


impl FbcHeader {
    /// This header with its CRC field set to `crc`.
    pub open spec fn with_crc(self, crc: u32) -> FbcHeader {
        FbcHeader { crc32: crc, ..self }
    }

    /// Read a header from the start of `r`.
    pub fn read_from(r: &[u8]) -> (res: Result<Self, FbcReadError>)
        ensures
            header_read_result(r@, res),
    {
        if r.len() < 4 {
            return Err(FbcReadError::UnexpectedEof);
        }
        let magic = crate::codec::read_u32_le(r, 0);
        if magic != FBC_MAGIC {
            return Err(FbcReadError::InvalidMagic(magic));
        }
        if r.len() < 32 {
            return Err(FbcReadError::UnexpectedEof);
        }
        let version = crate::codec::read_u16_le(r, 4);
        let pin_count = r[6];
        let flags = r[7];
        let num_vectors = crate::codec::read_u32_le(r, 8);
        let compressed_size = crate::codec::read_u32_le(r, 12);
        let vec_clock_hz = crate::codec::read_u32_le(r, 16);
        let crc32 = crate::codec::read_u32_le(r, 20);
        let mut reserved = [0u8; 8];
        let mut i: usize = 0;
        while i < 8
            invariant
                i <= 8,
                32 <= r@.len(),
                forall|k: int| 0 <= k < i ==> reserved[k] == r@[24 + k],
            decreases 8 - i,
        {
            reserved[i] = r[24 + i];
            i = i + 1;
        }
        assert(reserved@ =~= r@.subrange(24, 32));
        Ok(FbcHeader {
            magic,
            version,
            pin_count,
            flags,
            num_vectors,
            compressed_size,
            vec_clock_hz,
            crc32,
            _reserved: reserved,
        })
    }
}

/// What reading a header from `b` gives.
pub open spec fn header_read_result(b: Seq<u8>, res: Result<FbcHeader, FbcReadError>) -> bool {
    if b.len() < 4 {
        res == Err::<FbcHeader, FbcReadError>(FbcReadError::UnexpectedEof)
    } else if crate::codec::le32(b.subrange(0, 4)) != FBC_MAGIC {
        res == Err::<FbcHeader, FbcReadError>(
            FbcReadError::InvalidMagic(crate::codec::le32(b.subrange(0, 4)) as u32),
        )
    } else if b.len() < 32 {
        res == Err::<FbcHeader, FbcReadError>(FbcReadError::UnexpectedEof)
    } else {
        res matches Ok(h) && h.parsed_from(b)
    }
}

/// The bytes of a header parse back to that header, and only to it.
pub proof fn lemma_header_roundtrip(h: FbcHeader, h2: FbcHeader, rest: Seq<u8>)
    ensures
        h.spec_bytes().len() == 32,
        h.parsed_from(h.spec_bytes() + rest),
        h2.parsed_from(h.spec_bytes() + rest) ==> h2 == h,
{
    let b = h.spec_bytes() + rest;
    crate::codec::lemma_roundtrip_32(h.magic);
    crate::codec::lemma_roundtrip_16(h.version);
    crate::codec::lemma_roundtrip_32(h.num_vectors);
    crate::codec::lemma_roundtrip_32(h.compressed_size);
    crate::codec::lemma_roundtrip_32(h.vec_clock_hz);
    crate::codec::lemma_roundtrip_32(h.crc32);
    assert(b.subrange(0, 4) =~= crate::codec::le32_bytes(h.magic));
    assert(b.subrange(4, 6) =~= crate::codec::le16_bytes(h.version));
    assert(b.subrange(8, 12) =~= crate::codec::le32_bytes(h.num_vectors));
    assert(b.subrange(12, 16) =~= crate::codec::le32_bytes(h.compressed_size));
    assert(b.subrange(16, 20) =~= crate::codec::le32_bytes(h.vec_clock_hz));
    assert(b.subrange(20, 24) =~= crate::codec::le32_bytes(h.crc32));
    assert(b.subrange(24, 32) =~= h._reserved@);
    if h2.parsed_from(b) {
        assert(h2._reserved@ =~= h._reserved@);
        assert(h2._reserved == h._reserved);
    }
}

/// The 80 packed pin-configuration bytes.
pub open spec fn packed_pins(types: Seq<PinType>) -> Seq<u8> {
    Seq::new(80, |i: int| packed_pin_byte(types, i) as u8)
}

/// Complete FBC vector file.
#[derive(Debug, Clone)]
pub struct FbcFile {
    pub header: FbcHeader,
    pub pin_config: PinConfig,
    pub data: Vec<u8>,
}

/// Size of the header plus the pin configuration.
pub const FBC_PREAMBLE_BYTES: usize = 112;

impl FbcFile {
    /// The bytes of the file as written: the header (its CRC field
    /// included), the packed pin configuration, then the compressed data.
    pub open spec fn spec_bytes(self) -> Seq<u8> {
        self.header.spec_bytes() + packed_pins(self.pin_config.types@) + self.data@
    }

    /// The bytes the CRC covers: the file bytes with the header's CRC field
    /// zeroed.
    pub open spec fn crc_bytes(self) -> Seq<u8> {
        self.header.with_crc(0).spec_bytes() + packed_pins(self.pin_config.types@) + self.data@
    }

    /// Append the file bytes.
    pub fn write_to(&self, w: &mut Vec<u8>)
        ensures
            final(w)@ == old(w)@ + self.spec_bytes(),
    {
        self.header.write_to(w);
        let pins = self.pin_config.to_bytes();
        crate::codec::push_all(w, &pins);
        crate::codec::push_all(w, self.data.as_slice());
        assert(pins@ =~= packed_pins(self.pin_config.types@));
        assert(w@ =~= old(w)@ + self.spec_bytes());
    }

    /// Read a file: header, pin configuration, then `compressed_size` data bytes.
    pub fn read_from(r: &[u8]) -> (res: Result<Self, FbcReadError>)
        ensures
            file_read_result(r@, res),
    {
        let header = match FbcHeader::read_from(r) {
            Ok(h) => h,
            Err(e) => {
                return Err(e);
            },
        };
        if r.len() < FBC_PREAMBLE_BYTES {
            return Err(FbcReadError::UnexpectedEof);
        }
        let mut pin_bytes = [0u8; 80];
        let mut i: usize = 0;
        while i < 80
            invariant
                i <= 80,
                112 <= r@.len(),
                forall|k: int| 0 <= k < i ==> pin_bytes[k] == r@[32 + k],
            decreases 80 - i,
        {
            pin_bytes[i] = r[32 + i];
            i = i + 1;
        }
        assert(pin_bytes@ =~= r@.subrange(32, 112));
        let pin_config = PinConfig::from_bytes(&pin_bytes);
        let size = header.compressed_size as usize;
        if r.len() - FBC_PREAMBLE_BYTES < size {
            return Err(FbcReadError::UnexpectedEof);
        }
        let data = crate::codec::copy_range(r, FBC_PREAMBLE_BYTES, FBC_PREAMBLE_BYTES + size);
        Ok(FbcFile { header, pin_config, data })
    }

    /// CRC-32 of the file bytes with the header's CRC field zeroed.
    pub fn calculate_crc(&self) -> (r: u32)
        ensures
            r == crate::crc::crc32(self.crc_bytes()),
    {
        let mut bytes: Vec<u8> = Vec::new();
        let mut header = self.header;
        header.crc32 = 0;
        header.write_to(&mut bytes);
        let pins = self.pin_config.to_bytes();
        crate::codec::push_all(&mut bytes, &pins);
        crate::codec::push_all(&mut bytes, self.data.as_slice());
        assert(pins@ =~= packed_pins(self.pin_config.types@));
        assert(header == self.header.with_crc(0));
        assert(bytes@ =~= self.crc_bytes());
        crate::crc::crc32fast_hash(bytes.as_slice())
    }

    /// Whether the stored CRC matches the file contents.
    pub fn validate_crc(&self) -> (r: bool)
        ensures
            r == (self.header.crc32 == crate::crc::crc32(self.crc_bytes())),
    {
        self.header.crc32 == self.calculate_crc()
    }
}

/// What reading a file from `b` gives.
pub open spec fn file_read_result(b: Seq<u8>, res: Result<FbcFile, FbcReadError>) -> bool {
    if b.len() < 4 {
        res == Err::<FbcFile, FbcReadError>(FbcReadError::UnexpectedEof)
    } else if crate::codec::le32(b.subrange(0, 4)) != FBC_MAGIC {
        res == Err::<FbcFile, FbcReadError>(
            FbcReadError::InvalidMagic(crate::codec::le32(b.subrange(0, 4)) as u32),
        )
    } else if b.len() < 112 || b.len() - 112 < crate::codec::le32(b.subrange(12, 16)) {
        res == Err::<FbcFile, FbcReadError>(FbcReadError::UnexpectedEof)
    } else {
        res matches Ok(f) && f.header.parsed_from(b) && (forall|p: int|
            0 <= p < 160 ==> f.pin_config.types[p] == #[trigger] unpacked_pin(
                b.subrange(32, 112),
                p,
            )) && f.data@ == b.subrange(112, 112 + f.header.compressed_size)
    }
}

/// Reading back the bytes written for a file gives the same file, its
/// stored CRC included, provided the header has the right magic and records
/// the data length; so the file read back validates exactly when the
/// original does.
pub proof fn lemma_file_roundtrip(f: FbcFile, res: Result<FbcFile, FbcReadError>)
    requires
        f.header.magic == FBC_MAGIC,
        f.header.compressed_size == f.data@.len(),
        file_read_result(f.spec_bytes(), res),
    ensures
        res matches Ok(g) && g.header == f.header && g.pin_config.types@ == f.pin_config.types@
            && g.data@ == f.data@ && g.crc_bytes() == f.crc_bytes(),
{
    let h = f.header;
    let b = f.spec_bytes();
    let rest = packed_pins(f.pin_config.types@) + f.data@;
    assert(b =~= h.spec_bytes() + rest);
    if let Ok(g) = res {
        lemma_header_roundtrip(h, g.header, rest);
    } else {
        lemma_header_roundtrip(h, h, rest);
    }
    assert(b.subrange(0, 4) =~= crate::codec::le32_bytes(h.magic));
    crate::codec::lemma_roundtrip_32(h.magic);
    assert(b.subrange(12, 16) =~= crate::codec::le32_bytes(h.compressed_size));
    crate::codec::lemma_roundtrip_32(h.compressed_size);
    assert(b.subrange(32, 112) =~= packed_pins(f.pin_config.types@));
    assert(b.subrange(112, 112 + f.data@.len() as int) =~= f.data@);
    lemma_pin_config_roundtrip(f.pin_config.types@, packed_pins(f.pin_config.types@));
    assert(b.len() == 112 + f.data@.len());
    assert(crate::codec::le32(b.subrange(0, 4)) == FBC_MAGIC);
    assert(crate::codec::le32(b.subrange(12, 16)) == f.data@.len());
    assert(res is Ok);
    let g = res->Ok_0;
    assert(g.header == h);
    assert forall|p: int| 0 <= p < 160 implies g.pin_config.types[p] == f.pin_config.types[p] by {
        assert(g.pin_config.types[p] == unpacked_pin(b.subrange(32, 112), p));
        assert(unpacked_pin(packed_pins(f.pin_config.types@), p) == f.pin_config.types@[p]);
    }
    assert(g.pin_config.types@ =~= f.pin_config.types@);
    assert(g.data@ == f.data@);
    assert(g.crc_bytes() =~= f.crc_bytes());
}


// -----------------------------------------------------------------------------
// Thermal profile
// -----------------------------------------------------------------------------

/// Estimated power level of a profile segment.
#[derive(Debug, Clone, Copy, PartialEq, Eq, Structural)]
pub enum ThermalPowerLevel {
    Low,
    Medium,
    High,
}

impl ThermalPowerLevel {
    pub open spec fn code(self) -> u8 {
        match self {
            ThermalPowerLevel::Low => 0,
            ThermalPowerLevel::Medium => 1,
            ThermalPowerLevel::High => 2,
        }
    }

    pub fn to_u8(self) -> (r: u8)
        ensures
            r == self.code(),
    {
        match self {
            ThermalPowerLevel::Low => 0,
            ThermalPowerLevel::Medium => 1,
            ThermalPowerLevel::High => 2,
        }
    }

    /// The level with code `v`, if any.
    pub fn from_u8(v: u8) -> (r: Option<ThermalPowerLevel>)
        ensures
            match r {
                Some(l) => l.code() == v,
                None => v > 2,
            },
    {
        match v {
            0 => Some(ThermalPowerLevel::Low),
            1 => Some(ThermalPowerLevel::Medium),
            2 => Some(ThermalPowerLevel::High),
            _ => None,
        }
    }
}

/// Thermal summary of up to `THERMAL_SEGMENT_SIZE` consecutive vectors.
#[derive(Debug, Clone, Copy, PartialEq, Eq, Structural)]
pub struct ThermalSegment {
    /// Index of the first vector of the segment.
    pub vector_offset: u32,
    /// Average number of pins toggling per vector.
    pub avg_toggle_rate: u8,
    /// Average number of pins driven high per vector.
    pub avg_active_pins: u8,
    pub power_level: ThermalPowerLevel,
    pub _reserved: u8,
}

/// The 8 bytes of a segment: offset (u32 LE), toggle rate, active pins, level, reserved.
pub open spec fn segment_bytes(s: ThermalSegment) -> Seq<u8> {
    crate::codec::le32_bytes(s.vector_offset) + seq![
        s.avg_toggle_rate,
        s.avg_active_pins,
        s.power_level.code(),
        s._reserved,
    ]
}

/// The bytes of a list of segments.
pub open spec fn profile_bytes(segs: Seq<ThermalSegment>) -> Seq<u8> {
    Seq::new(8 * segs.len(), |i: int| segment_bytes(segs[i / 8])[i % 8])
}

/// Whether `s` is the segment stored in the 8 bytes `b`.
pub open spec fn segment_parsed_from(s: ThermalSegment, b: Seq<u8>) -> bool {
    &&& s.vector_offset == crate::codec::le32(b.subrange(0, 4))
    &&& s.avg_toggle_rate == b[4]
    &&& s.avg_active_pins == b[5]
    &&& s.power_level.code() == b[6]
    &&& s._reserved == b[7]
}

/// Per-segment thermal estimates stored after `OP_END`.
#[derive(Debug, Clone)]
pub struct ThermalProfile {
    pub segments: Vec<ThermalSegment>,
}

impl ThermalProfile {
    /// Serialize the segments, 8 bytes each.
    pub fn to_bytes(&self) -> (r: Vec<u8>)
        ensures
            r@ == profile_bytes(self.segments@),
    {
        let mut out: Vec<u8> = Vec::new();
        let mut k: usize = 0;
        while k < self.segments.len()
            invariant
                k <= self.segments@.len(),
                out@ == profile_bytes(self.segments@.take(k as int)),
            decreases self.segments.len() - k,
        {
            let s = self.segments[k];
            let ghost before = out@;
            crate::codec::push_u32_le(&mut out, s.vector_offset);
            out.push(s.avg_toggle_rate);
            out.push(s.avg_active_pins);
            out.push(s.power_level.to_u8());
            out.push(s._reserved);
            proof {
                assert(out@ =~= before + segment_bytes(s));
                assert(profile_bytes(self.segments@.take(k + 1)) =~= profile_bytes(
                    self.segments@.take(k as int),
                ) + segment_bytes(s));
            }
            k = k + 1;
        }
        assert(self.segments@.take(self.segments@.len() as int) =~= self.segments@);
        out
    }
}

/// Every segment's 8 bytes parse back to it.
pub proof fn lemma_segment_roundtrip(segs: Seq<ThermalSegment>, k: int)
    requires
        0 <= k < segs.len(),
    ensures
        profile_bytes(segs).subrange(8 * k, 8 * k + 8) == segment_bytes(segs[k]),
        segment_parsed_from(segs[k], segment_bytes(segs[k])),
        forall|t: ThermalSegment| #[trigger] segment_parsed_from(t, segment_bytes(segs[k])) ==> t == segs[k],
{
    assert(profile_bytes(segs).subrange(8 * k, 8 * k + 8) =~= segment_bytes(segs[k])) by {
        assert forall|i: int| 0 <= i < 8 implies profile_bytes(segs)[8 * k + i] == segment_bytes(segs[k])[i] by {
            assert((8 * k + i) / 8 == k);
            assert((8 * k + i) % 8 == i);
        }
    }
    crate::codec::lemma_roundtrip_32(segs[k].vector_offset);
    assert(segment_bytes(segs[k]).subrange(0, 4) =~= crate::codec::le32_bytes(segs[k].vector_offset));
}

impl FbcFile {
    /// Whether the header flags a thermal profile.
    pub fn has_thermal_profile(&self) -> (r: bool)
        ensures
            r == (self.header.flags & FLAG_THERMAL_PROFILE != 0),
    {
        self.header.flags & FLAG_THERMAL_PROFILE != 0
    }

    /// Number of thermal segments recorded in the first 4 reserved header bytes.
    pub fn thermal_segment_count(&self) -> (r: u32)
        ensures
            r == crate::codec::le32(self.header._reserved@.subrange(0, 4)),
    {
        crate::codec::read_u32_le(&self.header._reserved, 0)
    }

    /// The thermal profile stored at the end of the data section, if the
    /// header flags one and the data holds that many valid segments.
    pub fn thermal_profile(&self) -> (r: Option<ThermalProfile>)
        ensures
            match r {
                Some(p) => thermal_profile_present(*self) && p.segments@.len() == thermal_count(*self)
                    && forall|k: int| 0 <= k < p.segments@.len() ==> segment_parsed_from(
                    #[trigger] p.segments@[k],
                    thermal_segment_slice(*self, k),
                ),
                None => !thermal_profile_present(*self),
            },
    {
        if !self.has_thermal_profile() {
            return None;
        }
        let count = self.thermal_segment_count() as usize;
        let dl = self.data.len();
        let need = match count.checked_mul(8) {
            Some(n) => n,
            None => {
                return None;
            },
        };
        if self.data.len() < need {
            return None;
        }
        let start = self.data.len() - need;
        let mut segments: Vec<ThermalSegment> = Vec::new();
        let mut k: usize = 0;
        while k < count
            invariant
                k <= count,
                count == thermal_count(*self),
                need == 8 * count,
                start + need == self.data@.len(),
                dl == self.data@.len(),
                segments@.len() == k,
                forall|j: int| 0 <= j < k ==> segment_parsed_from(#[trigger] segments@[j], thermal_segment_slice(*self, j)),
                forall|j: int| 0 <= j < k ==> (thermal_segment_slice(*self, j)[6] <= 2),
            decreases count - k,
        {
            assert(8 * k + 8 <= need);
            let at = start + 8 * k;
            assert(thermal_segment_slice(*self, k as int) =~= self.data@.subrange(at as int, at + 8));
            let offset = crate::codec::read_u32_le(self.data.as_slice(), at);
            let level = match ThermalPowerLevel::from_u8(self.data[at + 6]) {
                Some(l) => l,
                None => {
                    return None;
                },
            };
            let seg = ThermalSegment {
                vector_offset: offset,
                avg_toggle_rate: self.data[at + 4],
                avg_active_pins: self.data[at + 5],
                power_level: level,
                _reserved: self.data[at + 7],
            };
            segments.push(seg);
            proof {
                let sl = thermal_segment_slice(*self, k as int);
                assert(sl.subrange(0, 4) =~= self.data@.subrange(at as int, at + 4));
            }
            k = k + 1;
        }
        Some(ThermalProfile { segments })
    }
}

/// Segment count recorded in the header.
pub open spec fn thermal_count(f: FbcFile) -> int {
    crate::codec::le32(f.header._reserved@.subrange(0, 4))
}

/// The 8 data bytes of segment `k` of the profile at the end of the data.
pub open spec fn thermal_segment_slice(f: FbcFile, k: int) -> Seq<u8> {
    let start = f.data@.len() - 8 * thermal_count(f);
    f.data@.subrange(start + 8 * k, start + 8 * k + 8)
}

/// Whether the file flags a profile whose segments fit in the data and
/// carry valid power levels.
pub open spec fn thermal_profile_present(f: FbcFile) -> bool {
    &&& f.header.flags & FLAG_THERMAL_PROFILE != 0
    &&& 8 * thermal_count(f) <= f.data@.len()
    &&& forall|k: int| 0 <= k < thermal_count(f) ==> (#[trigger] thermal_segment_slice(f, k))[6] <= 2
}

} // verus!
