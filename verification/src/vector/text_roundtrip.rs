//! The text forms of a vector read back: hex text and pin-character text
//! written by `Vector::to_hex` and `Vector::to_binary` parse back, with
//! `Vector::from_hex` and `Vector::from_binary`, to the vector they came
//! from, and the text read from a well-formed text is written back as it
//! was.

use vstd::prelude::*;
use crate::text::{hex_val, hex_value, is_ws, lead_ws, parse_hex, trail_ws, trim, unsigned_digits};
use crate::vector::format::{binary_vector_ok, hex_pair_value, hex_vector_ok, is_binary_char, is_lower_hex_digit, is_one_char};

verus! {

/// Text whose first and last characters are no whitespace is its own trim.
proof fn lemma_trim_unchanged(t: Seq<char>)
    requires
        t.len() > 0,
        !is_ws(t[0]),
        !is_ws(t.last()),
    ensures
        trim(t) == t,
{
    assert(lead_ws(t) == 0);
    assert(t.skip(0) =~= t);
    assert(trail_ws(t) == 0);
    assert(t.take(t.len() as int) =~= t);
}

/// The value of a pair of lower-case hex digits.
proof fn lemma_hex_pair(t: Seq<char>, i: int)
    requires
        0 <= i < 20,
        t.len() == 40,
        forall|k: int| 0 <= k < 40 ==> is_lower_hex_digit(#[trigger] t[k]),
    ensures
        hex_pair_value(t, i) == hex_val(t[2 * i]) * 16 + hex_val(t[2 * i + 1]),
        0 <= hex_val(t[2 * i]) < 16,
        0 <= hex_val(t[2 * i + 1]) < 16,
{
    let p = t.subrange(2 * i, 2 * i + 2);
    let c0 = t[2 * i];
    let c1 = t[2 * i + 1];
    assert(is_lower_hex_digit(c0));
    assert(is_lower_hex_digit(c1));
    assert(p[0] == c0 && p[1] == c1);
    assert(unsigned_digits(p) == p);
    assert(p.drop_last() =~= seq![c0]);
    assert(seq![c0].drop_last() =~= Seq::<char>::empty());
    assert(hex_value(seq![c0]) == hex_value(Seq::<char>::empty()) * 16 + hex_val(c0));
    assert(hex_value(p) == hex_value(p.drop_last()) * 16 + hex_val(p.last()));
    assert(parse_hex(p, 255) == Some(hex_val(c0) * 16 + hex_val(c1)));
}

/// Reading back the hex text of a vector gives its bytes: text of 40
/// lower-case hex digits whose pairs hold `data` is accepted by the hex
/// reader (trimmed as it trims), and its pairs are `data`.
pub proof fn lemma_hex_text_reads_back(t: Seq<char>, data: [u8; 20])
    requires
        t.len() == 40,
        forall|i: int| 0 <= i < 40 ==> is_lower_hex_digit(#[trigger] t[i]),
        forall|i: int| 0 <= i < 20 ==> #[trigger] hex_pair_value(t, i) == data[i] as int,
    ensures
        hex_vector_ok(trim(t)),
        forall|i: int| 0 <= i < 20 ==> #[trigger] hex_pair_value(trim(t), i) == data[i] as int,
{
    assert(is_lower_hex_digit(t[0]));
    assert(is_lower_hex_digit(t[39]));
    lemma_trim_unchanged(t);
    assert forall|i: int| 0 <= i < 20 implies parse_hex(#[trigger] t.subrange(2 * i, 2 * i + 2), 255) is Some by {
        assert(hex_pair_value(t, i) == data[i] as int);
    }
}

/// Hex text is written back as read: two texts of 40 lower-case hex
/// digits whose pairs hold the same bytes are the same text.
pub proof fn lemma_hex_text_unique(a: Seq<char>, b: Seq<char>)
    requires
        a.len() == 40,
        b.len() == 40,
        forall|i: int| 0 <= i < 40 ==> is_lower_hex_digit(#[trigger] a[i]),
        forall|i: int| 0 <= i < 40 ==> is_lower_hex_digit(#[trigger] b[i]),
        forall|i: int| 0 <= i < 20 ==> #[trigger] hex_pair_value(a, i) == hex_pair_value(b, i),
    ensures
        a == b,
{
    assert forall|k: int| 0 <= k < 40 implies a[k] == b[k] by {
        let i = k / 2;
        assert(hex_pair_value(a, i) == hex_pair_value(b, i));
        lemma_hex_pair(a, i);
        lemma_hex_pair(b, i);
        let x0 = hex_val(a[2 * i]);
        let x1 = hex_val(a[2 * i + 1]);
        let y0 = hex_val(b[2 * i]);
        let y1 = hex_val(b[2 * i + 1]);
        assert(x0 == y0 && x1 == y1) by (nonlinear_arith)
            requires
                x0 * 16 + x1 == y0 * 16 + y1,
                0 <= x0 < 16,
                0 <= x1 < 16,
                0 <= y0 < 16,
                0 <= y1 < 16,
        ;
        assert(is_lower_hex_digit(a[k]) && is_lower_hex_digit(b[k]));
        assert(k == 2 * i || k == 2 * i + 1);
    }
    assert(a =~= b);
}

/// Reading back the pin text of a vector gives its bits: 160 characters,
/// `1` for a set bit and `0` for a clear one, are accepted by the pin
/// reader, which reads each as the bit it came from.
pub proof fn lemma_binary_text_reads_back(t: Seq<char>, bits: Seq<bool>)
    requires
        t.len() == 160,
        bits.len() == 160,
        forall|p: int| 0 <= p < 160 ==> #[trigger] t[p] == if bits[p] { '1' } else { '0' },
    ensures
        binary_vector_ok(trim(t)),
        forall|p: int| 0 <= p < 160 ==> is_one_char(#[trigger] trim(t)[p]) == bits[p],
{
    assert(t[0] == '1' || t[0] == '0');
    assert(t[159] == '1' || t[159] == '0');
    assert(t.last() == t[159]);
    lemma_trim_unchanged(t);
    assert forall|p: int| 0 <= p < 160 implies is_binary_char(#[trigger] t[p]) by {
        assert(t[p] == if bits[p] { '1' } else { '0' });
    }
    assert forall|p: int| 0 <= p < 160 implies is_one_char(#[trigger] trim(t)[p]) == bits[p] by {
        assert(t[p] == if bits[p] { '1' } else { '0' });
    }
}

/// Pin text of `0` and `1` is written back as read: writing `1` for every
/// character the reader reads as a set bit and `0` otherwise gives the
/// text again.
pub proof fn lemma_binary_text_unique(t: Seq<char>, r: Seq<char>, bits: Seq<bool>)
    requires
        t.len() == 160,
        r.len() == 160,
        bits.len() == 160,
        forall|p: int| 0 <= p < 160 ==> #[trigger] t[p] == '0' || t[p] == '1',
        forall|p: int| 0 <= p < 160 ==> #[trigger] bits[p] == is_one_char(t[p]),
        forall|p: int| 0 <= p < 160 ==> #[trigger] r[p] == if bits[p] { '1' } else { '0' },
    ensures
        r == t,
{
    assert forall|p: int| 0 <= p < 160 implies r[p] == t[p] by {
        assert(t[p] == '0' || t[p] == '1');
        assert(bits[p] == is_one_char(t[p]));
    }
    assert(r =~= t);
}

} // verus!
