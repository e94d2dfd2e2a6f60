//! Laws of a vector's pin lists and hex text: `Vector::ones_indices`
//! lists the set pins in increasing order, `Vector::from_indices` of that
//! list gives the vector back, and `Vector::from_hex` of `Vector::to_hex`
//! gives the vector back.

use vstd::prelude::*;
use crate::vector::format::{count_true, hex_error_message, hex_pair_value, hex_vector_ok, is_lower_hex_digit, true_positions, Vector};
use crate::text::trim;

verus! {

/// The positions of the true entries of `s` increase strictly, lie inside
/// `s`, are exactly its true entries, and are as many as they.
pub proof fn lemma_true_positions(s: Seq<bool>)
    ensures
        forall|i: int, j: int|
            0 <= i < j < true_positions(s).len() ==> true_positions(s)[i] < true_positions(s)[j],
        forall|i: int| 0 <= i < true_positions(s).len() ==> 0 <= #[trigger] true_positions(s)[i] < s.len(),
        forall|p: int| 0 <= p < s.len() ==> (#[trigger] true_positions(s).contains(p) <==> s[p]),
        true_positions(s).len() == count_true(s),
    decreases s.len(),
{
    if s.len() > 0 {
        let d = s.drop_last();
        lemma_true_positions(d);
        let t0 = true_positions(d);
        let t = true_positions(s);
        assert forall|p: int| 0 <= p < s.len() implies (#[trigger] t.contains(p) <==> s[p]) by {
            if p < s.len() - 1 {
                assert(d[p] == s[p]);
                if t0.contains(p) {
                    let k = choose|k: int| 0 <= k < t0.len() && t0[k] == p;
                    assert(t[k] == p);
                }
                if t.contains(p) {
                    let k = choose|k: int| 0 <= k < t.len() && t[k] == p;
                    if k < t0.len() {
                        assert(t[k] == t0[k]);
                    }
                }
            } else {
                if s.last() {
                    assert(t[t.len() - 1] == p);
                } else {
                    if t.contains(p) {
                        let k = choose|k: int| 0 <= k < t.len() && t[k] == p;
                        assert(t[k] == t0[k]);
                    }
                }
            }
        }
    }
}

/// What `ones_indices` returns for `v` is strictly increasing, below 160,
/// holds pin `p` exactly when `v` sets it, and is as long as the count of
/// set pins.
pub proof fn lemma_ones_indices_law(v: Vector, r: Seq<u8>)
    requires
        r.len() == true_positions(v@).len(),
        forall|i: int| 0 <= i < r.len() ==> r[i] as int == #[trigger] true_positions(v@)[i],
    ensures
        forall|i: int, j: int| 0 <= i < j < r.len() ==> r[i] < r[j],
        forall|i: int| 0 <= i < r.len() ==> (#[trigger] r[i]) < 160,
        forall|p: int| 0 <= p < 160 ==> (r.contains(p as u8) <==> #[trigger] v@[p]),
        r.len() == count_true(v@),
{
    lemma_true_positions(v@);
    let t = true_positions(v@);
    assert forall|i: int, j: int| 0 <= i < j < r.len() implies r[i] < r[j] by {
        assert(r[i] as int == t[i] && r[j] as int == t[j]);
    }
    assert forall|i: int| 0 <= i < r.len() implies (#[trigger] r[i]) < 160 by {
        assert(r[i] as int == t[i]);
    }
    assert forall|p: int| 0 <= p < 160 implies (r.contains(p as u8) <==> #[trigger] v@[p]) by {
        if r.contains(p as u8) {
            let k = choose|k: int| 0 <= k < r.len() && r[k] == p as u8;
            assert(t[k] == r[k] as int);
            assert(t.contains(p));
        }
        if v@[p] {
            assert(t.contains(p));
            let k = choose|k: int| 0 <= k < t.len() && t[k] == p;
            assert(r[k] as int == t[k]);
            assert(r[k] == p as u8);
        }
    }
}

/// Building a vector from the pin list of `v` gives `v` back.
pub proof fn lemma_indices_rebuild(v: Vector, r: Seq<u8>, u: Vector)
    requires
        r.len() == true_positions(v@).len(),
        forall|i: int| 0 <= i < r.len() ==> r[i] as int == #[trigger] true_positions(v@)[i],
        forall|p: int| 0 <= p < 160 ==> u@[p] == exists|i: int| 0 <= i < r.len() && #[trigger] r[i] == p,
    ensures
        u == v,
{
    lemma_true_positions(v@);
    let t = true_positions(v@);
    assert forall|p: int| 0 <= p < 160 implies u@[p] == v@[p] by {
        if v@[p] {
            assert(t.contains(p));
            let k = choose|k: int| 0 <= k < t.len() && t[k] == p;
            assert(r[k] as int == t[k]);
        }
        if exists|i: int| 0 <= i < r.len() && #[trigger] r[i] == p {
            let k = choose|i: int| 0 <= i < r.len() && #[trigger] r[i] == p;
            assert(r[k] as int == t[k]);
            assert(t.contains(p));
        }
    }
    assert(u@ =~= v@);
    Vector::lemma_view_injective(u, v);
}

/// Reading back the hex text of a vector gives the vector: text as
/// `to_hex` writes it for `w`, read as `from_hex` reads, is `Ok(w)`.
pub proof fn lemma_hex_roundtrip(w: Vector, t: Seq<char>, r: Result<Vector, String>)
    requires
        t.len() == 40,
        forall|i: int| 0 <= i < 20 ==> #[trigger] hex_pair_value(t, i) == w.data[i] as int,
        forall|i: int| 0 <= i < 40 ==> is_lower_hex_digit(#[trigger] t[i]),
        match r {
            Ok(v) => hex_vector_ok(trim(t)) && forall|i: int| 0 <= i < 20 ==> v.data[i] as int == hex_pair_value(trim(t), i),
            Err(m) => !hex_vector_ok(trim(t)) && m@ == hex_error_message(trim(t)),
        },
    ensures
        r == Ok::<Vector, String>(w),
{
    crate::vector::text_roundtrip::lemma_hex_text_reads_back(t, w.data);
    let v = r->Ok_0;
    assert forall|i: int| 0 <= i < 20 implies v.data[i] == w.data[i] by {
        assert(hex_pair_value(trim(t), i) == w.data[i] as int);
    }
    assert(v.data@ =~= w.data@);
    assert(v.data == w.data);
    assert(v == w);
}

} // verus!
