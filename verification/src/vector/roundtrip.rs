//! Decompiling a compiled program gives back its vectors.

use vstd::prelude::*;
use crate::codec::{le32, le32_bytes, lemma_roundtrip_32};
use crate::vector::compiler::{
    apply_sparse, bits_of_bytes, compilable, high_pins_same, compile_state, compiled_data, compiled_ops,
    decode_all, dstep, encode_repeats, encode_run, encode_vector, repeat_bits, run_op, sparse_byte,
    CompilerConfig,
};
use crate::vector::format::{
    count_true, lemma_count_true_bound, ones_bits, true_positions, xor_bits, zero_bits,
    zero_vector, Vector, OP_END, OP_VECTOR_FULL, OP_VECTOR_ONES, OP_VECTOR_RUN,
    OP_VECTOR_SPARSE, OP_VECTOR_ZERO,
};
use crate::vector::compiler::{lemma_total_repeats_mono, lemma_total_repeats_step, CompileState, compile_step};
use crate::vector::fvec::{total_repeats, FvecVector};

verus! {

broadcast use vstd::array::group_array_axioms;

/// The vectors a program describes, each entry repeated `repeat` times.
pub open spec fn expand(vs: Seq<FvecVector>) -> Seq<Seq<bool>>
    decreases vs.len(),
{
    if vs.len() == 0 {
        seq![]
    } else {
        expand(vs.drop_last()) + repeat_bits(vs.last().vector@, vs.last().repeat as nat)
    }
}

/// The last vector of `e`, or the all-zero vector.
pub open spec fn last_or_zero(e: Seq<Seq<bool>>) -> Seq<bool> {
    if e.len() == 0 {
        zero_bits()
    } else {
        e.last()
    }
}

proof fn lemma_repeat_bits_len(v: Seq<bool>, n: nat)
    ensures
        repeat_bits(v, n).len() == n,
        forall|i: int| 0 <= i < n ==> #[trigger] repeat_bits(v, n)[i] == v,
    decreases n,
{
    if n > 0 {
        lemma_repeat_bits_len(v, (n - 1) as nat);
    }
}

proof fn lemma_repeat_bits_add(v: Seq<bool>, a: nat, b: nat)
    ensures
        repeat_bits(v, a) + repeat_bits(v, b) == repeat_bits(v, a + b),
    decreases b,
{
    if b == 0 {
        assert(repeat_bits(v, a) + repeat_bits(v, 0) =~= repeat_bits(v, a));
    } else {
        lemma_repeat_bits_add(v, a, (b - 1) as nat);
        assert(repeat_bits(v, a) + repeat_bits(v, b) =~= (repeat_bits(v, a) + repeat_bits(v, (b - 1) as nat)).push(v));
    }
}

proof fn lemma_true_positions_complete(s: Seq<bool>, q: int)
    requires
        0 <= q < s.len(),
        s[q],
    ensures
        exists|j: int| 0 <= j < true_positions(s).len() && true_positions(s)[j] == q,
    decreases s.len(),
{
    lemma_count_true_bound(s);
    if q == s.len() - 1 {
        let j = true_positions(s).len() - 1;
        assert(true_positions(s)[j] == q);
    } else {
        lemma_true_positions_complete(s.drop_last(), q);
        let j = choose|j: int| 0 <= j < true_positions(s.drop_last()).len() && true_positions(s.drop_last())[j] == q;
        assert(true_positions(s)[j] == q);
    }
}

/// Applying sparse entries for a list of pins below 128.
proof fn lemma_apply_sparse_prefix(v: Vector, p: Seq<bool>, tp: Seq<int>, k: int)
    requires
        p.len() == 160,
        0 <= k <= tp.len(),
        forall|j: int| 0 <= j < tp.len() ==> 0 <= #[trigger] tp[j] < 128,
    ensures
        apply_sparse(p, Seq::new(k as nat, |j: int| sparse_byte(v, tp[j]))) == Seq::new(
            160,
            |q: int| if exists|j: int| 0 <= j < k && tp[j] == q { v@[q] } else { p[q] },
        ),
    decreases k,
{
    let entries = Seq::new(k as nat, |j: int| sparse_byte(v, tp[j]));
    let target = Seq::new(160, |q: int| if exists|j: int| 0 <= j < k && tp[j] == q { v@[q] } else { p[q] });
    if k == 0 {
        assert(apply_sparse(p, entries) =~= target);
    } else {
        lemma_apply_sparse_prefix(v, p, tp, k - 1);
        let prior = Seq::new((k - 1) as nat, |j: int| sparse_byte(v, tp[j]));
        assert(entries.drop_last() =~= prior);
        let e = entries.last();
        let pin = tp[k - 1];
        assert(e == sparse_byte(v, pin));
        let bit: int = if v@[pin] { 1 } else { 0 };
        assert((2 * pin) % 256 == 2 * pin);
        assert(e == 2 * pin + bit);
        assert(e / 2 == pin);
        assert(e % 2 == bit);
        let prev_target = Seq::new(160, |q: int| if exists|j: int| 0 <= j < k - 1 && tp[j] == q { v@[q] } else { p[q] });
        assert forall|q: int| 0 <= q < 160 implies apply_sparse(p, entries)[q] == target[q] by {
            if q == pin {
                assert(0 <= k - 1 < k && tp[k - 1] == q);
            } else {
                if exists|j: int| 0 <= j < k && tp[j] == q {
                    let j = choose|j: int| 0 <= j < k && tp[j] == q;
                    assert(j < k - 1);
                }
            }
        }
        assert(apply_sparse(p, entries) =~= target);
    }
}

proof fn lemma_sparse_decodes(v: Vector, p: Seq<bool>)
    requires
        p.len() == 160,
        forall|q: int| 128 <= q < 160 ==> v@[q] == p[q],
    ensures
        apply_sparse(
            p,
            Seq::new(count_true(xor_bits(v@, p)), |j: int| sparse_byte(v, true_positions(xor_bits(v@, p))[j])),
        ) == v@,
{
    let d = xor_bits(v@, p);
    let tp = true_positions(d);
    lemma_count_true_bound(d);
    assert forall|j: int| 0 <= j < tp.len() implies 0 <= #[trigger] tp[j] < 128 by {
        let q = tp[j];
        assert(d[q]);
    }
    lemma_apply_sparse_prefix(v, p, tp, tp.len() as int);
    assert(Seq::new(count_true(d), |j: int| sparse_byte(v, tp[j])) =~= Seq::new(tp.len(), |j: int| sparse_byte(v, tp[j])));
    assert forall|q: int| 0 <= q < 160 implies (if exists|j: int| 0 <= j < tp.len() && tp[j] == q { v@[q] } else { p[q] }) == v@[q] by {
        if v@[q] != p[q] {
            assert(d[q]);
            lemma_true_positions_complete(d, q);
        }
    }
    assert(Seq::new(160, |q: int| if exists|j: int| 0 <= j < tp.len() && tp[j] == q { v@[q] } else { p[q] }) =~= v@);
}

/// A window of `d` that equals `c` agrees with `c` on every sub-window.
proof fn lemma_window(d: Seq<u8>, k: int, c: Seq<u8>, a: int, b: int)
    requires
        0 <= k,
        k + c.len() <= d.len(),
        d.subrange(k, k + c.len()) == c,
        0 <= a <= b <= c.len(),
    ensures
        d.subrange(k + a, k + b) == c.subrange(a, b),
        a < c.len() ==> d[k + a] == c[a],
{
    assert forall|i: int| 0 <= i < b - a implies d.subrange(k + a, k + b)[i] == c.subrange(a, b)[i] by {
        assert(d.subrange(k, k + c.len())[a + i] == d[k + a + i]);
    }
    assert(d.subrange(k + a, k + b) =~= c.subrange(a, b));
    if a < c.len() {
        assert(d.subrange(k, k + c.len())[a] == d[k + a]);
    }
}

/// Decoding `RUN n` at `k`.
proof fn lemma_decode_run(d: Seq<u8>, k: int, p: Seq<bool>, n: u32)
    requires
        0 <= k,
        k + 5 <= d.len(),
        d.subrange(k, k + 5) == run_op(n),
    ensures
        decode_all(d, k, p) == repeat_bits(p, n as nat) + decode_all(d, k + 5, p),
{
    lemma_window(d, k, run_op(n), 0, 5);
    lemma_window(d, k, run_op(n), 1, 5);
    assert(run_op(n).subrange(1, 5) =~= le32_bytes(n));
    assert(d[k] == OP_VECTOR_RUN);
    lemma_roundtrip_32(n);
}

/// Decoding one vector encoding at `k`.
proof fn lemma_decode_vector(d: Seq<u8>, k: int, v: Vector, p: Vector, cross: int)
    requires
        0 <= k,
        k + encode_vector(v, p, cross).len() <= d.len(),
        d.subrange(k, k + encode_vector(v, p, cross).len()) == encode_vector(v, p, cross),
    ensures
        decode_all(d, k, p@) == seq![v@] + decode_all(d, k + encode_vector(v, p, cross).len(), v@),
{
    let enc = encode_vector(v, p, cross);
    lemma_window(d, k, enc, 0, enc.len() as int);
    if v@ == zero_bits() {
    } else if v@ == ones_bits() {
    } else {
        let x = xor_bits(v@, p@);
        let t = count_true(x) as int;
        lemma_count_true_bound(x);
        if t == 0 {
            assert forall|q: int| 0 <= q < 160 implies v@[q] == p@[q] by {
                if v@[q] != p@[q] {
                    lemma_true_positions_complete(x, q);
                }
            }
            assert(v@ =~= p@);
            lemma_decode_run(d, k, p@, 1);
            assert(repeat_bits(p@, 0) =~= Seq::<Seq<bool>>::empty());
            assert(repeat_bits(p@, 1) =~= seq![p@]);
        } else if t <= cross && high_pins_same(v@, p@) {
            assert(t <= 160);
            let entries = Seq::new(t as nat, |j: int| sparse_byte(v, true_positions(x)[j]));
            lemma_window(d, k, enc, 1, 2 + t);
            lemma_window(d, k, enc, 2, 2 + t);
            assert(enc.subrange(2, 2 + t) =~= entries);
            assert(d[k + 1] == t as u8);
            lemma_sparse_decodes(v, p@);
            assert(dstep(d, k, p@) == (Some(v@), k + 2 + t, v@));
        } else {
            lemma_window(d, k, enc, 1, 21);
            assert(enc.subrange(1, 21) =~= v.data@);
            assert(bits_of_bytes(v.data@) =~= v@);
            assert(dstep(d, k, p@) == (Some(v@), k + 21, v@));
        }
    }
}

/// Decoding `n` encodings of `v` (the first after `p`).
proof fn lemma_decode_repeats(d: Seq<u8>, k: int, v: Vector, p: Vector, n: nat, cross: int)
    requires
        0 <= k,
        k + encode_repeats(v, p, n, cross).len() <= d.len(),
        d.subrange(k, k + encode_repeats(v, p, n, cross).len()) == encode_repeats(v, p, n, cross),
    ensures
        decode_all(d, k, p@) == repeat_bits(v@, n) + decode_all(
            d,
            k + encode_repeats(v, p, n, cross).len(),
            if n > 0 { v@ } else { p@ },
        ),
    decreases n,
{
    if n == 0 {
        assert(repeat_bits(v@, 0) + decode_all(d, k, p@) =~= decode_all(d, k, p@));
    } else {
        let prior = encode_repeats(v, p, (n - 1) as nat, cross);
        let q = if n == 1 { p } else { v };
        let last = encode_vector(v, q, cross);
        assert(encode_repeats(v, p, n, cross) == prior + last);
        let whole = encode_repeats(v, p, n, cross);
        lemma_window(d, k, whole, 0, prior.len() as int);
        assert(whole.subrange(0, prior.len() as int) =~= prior);
        lemma_decode_repeats(d, k, v, p, (n - 1) as nat, cross);
        lemma_window(d, k, whole, prior.len() as int, whole.len() as int);
        assert(whole.subrange(prior.len() as int, whole.len() as int) =~= last);
        if n > 1 {
        }
        lemma_decode_vector(d, k + prior.len(), v, q, cross);
        assert(repeat_bits(v@, n) =~= repeat_bits(v@, (n - 1) as nat) + seq![v@]);
    }
}

proof fn lemma_count_all_false(s: Seq<bool>)
    requires
        forall|i: int| 0 <= i < s.len() ==> !s[i],
    ensures
        count_true(s) == 0,
    decreases s.len(),
{
    if s.len() > 0 {
        lemma_count_all_false(s.drop_last());
    }
}

/// Decoding a run of `count` copies of `v` after `p`.
proof fn lemma_decode_encoded_run(d: Seq<u8>, k: int, v: Vector, count: int, p: Vector, cross: int)
    requires
        0 <= k,
        count >= 1,
        count <= u32::MAX,
        k + encode_run(v, count, p, cross).len() <= d.len(),
        d.subrange(k, k + encode_run(v, count, p, cross).len()) == encode_run(v, count, p, cross),
    ensures
        decode_all(d, k, p@) == repeat_bits(v@, count as nat) + decode_all(
            d,
            k + encode_run(v, count, p, cross).len(),
            v@,
        ),
{
    let enc = encode_run(v, count, p, cross);
    if v != p {
        let first = encode_vector(v, p, cross);
        lemma_window(d, k, enc, 0, first.len() as int);
        assert(enc.subrange(0, first.len() as int) =~= first);
        lemma_decode_vector(d, k, v, p, cross);
        if count - 1 > 0 {
            lemma_window(d, k, enc, first.len() as int, (first.len() + 5) as int);
            assert(enc.subrange(first.len() as int, (first.len() + 5) as int) =~= run_op((count - 1) as u32));
            lemma_decode_run(d, k + first.len(), v@, (count - 1) as u32);
            lemma_repeat_bits_add(v@, 1, (count - 1) as nat);
            assert(repeat_bits(v@, 0) =~= Seq::<Seq<bool>>::empty());
            assert(repeat_bits(v@, 1) =~= seq![v@]);
        } else {
            assert(repeat_bits(v@, 0) =~= Seq::<Seq<bool>>::empty());
            assert(repeat_bits(v@, 1) =~= seq![v@]);
        }
    } else {
        lemma_decode_run(d, k, p@, count as u32);
    }
}


/// The length of a pending run (0 when there is none).
pub open spec fn pending_len(st: CompileState) -> int {
    match st.pending {
        Some((_, rc)) => rc,
        None => 0,
    }
}

proof fn lemma_expand_len(vs: Seq<FvecVector>)
    ensures
        expand(vs).len() == total_repeats(vs),
    decreases vs.len(),
{
    if vs.len() > 0 {
        lemma_expand_len(vs.drop_last());
        lemma_repeat_bits_len(vs.last().vector@, vs.last().repeat as nat);
    }
}

proof fn lemma_expand_step(vs: Seq<FvecVector>, i: int)
    requires
        0 <= i < vs.len(),
    ensures
        expand(vs.take(i + 1)) == expand(vs.take(i)) + repeat_bits(vs[i].vector@, vs[i].repeat as nat),
{
    assert(vs.take(i + 1).drop_last() =~= vs.take(i));
}

/// The expansion of a prefix is a prefix of the expansion.
proof fn lemma_expand_prefix(vs: Seq<FvecVector>, i: int)
    requires
        0 <= i <= vs.len(),
    ensures
        expand(vs.take(i)).len() <= expand(vs).len(),
        expand(vs).subrange(0, expand(vs.take(i)).len() as int) == expand(vs.take(i)),
    decreases vs.len() - i,
{
    if i == vs.len() {
        assert(vs.take(i) =~= vs);
        assert(expand(vs).subrange(0, expand(vs).len() as int) =~= expand(vs));
    } else {
        lemma_expand_prefix(vs, i + 1);
        lemma_expand_step(vs, i);
        let a = expand(vs.take(i));
        let b = expand(vs.take(i + 1));
        assert(expand(vs).subrange(0, a.len() as int) =~= b.subrange(0, a.len() as int));
        assert(b.subrange(0, a.len() as int) =~= a);
    }
}

/// The bytes emitted after a prefix of the entries are a prefix of the
/// opcode stream.
proof fn lemma_bytes_prefix(vs: Seq<FvecVector>, cfg: CompilerConfig, i: int)
    requires
        0 <= i <= vs.len(),
    ensures
        compile_state(vs.take(i), cfg).bytes.len() <= compiled_ops(vs, cfg).len(),
        compiled_ops(vs, cfg).subrange(0, compile_state(vs.take(i), cfg).bytes.len() as int)
            == compile_state(vs.take(i), cfg).bytes,
    decreases vs.len() - i,
{
    let ops = compiled_ops(vs, cfg);
    let b = compile_state(vs.take(i), cfg).bytes;
    if i == vs.len() {
        assert(vs.take(i) =~= vs);
        assert(ops.subrange(0, b.len() as int) =~= b);
    } else {
        lemma_bytes_prefix(vs, cfg, i + 1);
        assert(vs.take(i + 1).drop_last() =~= vs.take(i));
        let b2 = compile_state(vs.take(i + 1), cfg).bytes;
        assert(b2.subrange(0, b.len() as int) =~= b);
        assert(ops.subrange(0, b.len() as int) =~= b2.subrange(0, b.len() as int));
    }
}

/// Decoding `d` from the start has produced `x` up to the pending run of
/// `st`, and goes on from where `st` stopped emitting.
pub open spec fn progress_at(d: Seq<u8>, st: CompileState, x: Seq<Seq<bool>>) -> bool {
    let m = x.len() - pending_len(st);
    &&& 0 <= m <= x.len()
    &&& decode_all(d, 0, zero_bits()) == x.take(m) + decode_all(d, st.bytes.len() as int, st.prev@)
    &&& st.prev@ == last_or_zero(x.take(m))
    &&& match st.pending {
        Some((rv, rc)) => 1 <= rc <= u32::MAX && x.subrange(m, x.len() as int) == repeat_bits(rv@, rc as nat),
        None => true,
    }
}

/// What decoding the compiled data looks like after the first `i` entries.
pub open spec fn decode_progress(vs: Seq<FvecVector>, cfg: CompilerConfig, i: int) -> bool {
    progress_at(compiled_data(vs, cfg), compile_state(vs.take(i), cfg), expand(vs.take(i)))
}

/// Flushing a pending run: the decoder yields the whole run.
proof fn lemma_flush(
    d: Seq<u8>,
    st: CompileState,
    x: Seq<Seq<bool>>,
    m: int,
    rv: Vector,
    rc: int,
    cross: int,
)
    requires
        st.pending == Some((rv, rc)),
        0 <= m <= x.len(),
        1 <= rc <= u32::MAX,
        x.subrange(m, x.len() as int) == repeat_bits(rv@, rc as nat),
        st.prev@ == last_or_zero(x.take(m)),
        st.bytes.len() + encode_run(rv, rc, st.prev, cross).len() <= d.len(),
        d.subrange(st.bytes.len() as int, (st.bytes.len() + encode_run(rv, rc, st.prev, cross).len()) as int)
            == encode_run(rv, rc, st.prev, cross),
    ensures
        decode_all(d, st.bytes.len() as int, st.prev@) == x.subrange(m, x.len() as int) + decode_all(
            d,
            (st.bytes.len() + encode_run(rv, rc, st.prev, cross).len()) as int,
            rv@,
        ),
        x.len() > 0,
        x.last() == rv@,
{
    lemma_repeat_bits_len(rv@, rc as nat);
    assert(x.subrange(m, x.len() as int)[0] == x[m]);
    assert(x[m] == rv@);
    if m > 0 {
        assert(x.take(m).last() == x[m - 1]);
    }
    assert(x.subrange(m, x.len() as int)[rc - 1] == x[x.len() - 1]);
    lemma_decode_encoded_run(d, st.bytes.len() as int, rv, rc, st.prev, cross);
}


/// The state once a pending run has been emitted.
pub open spec fn flushed(st: CompileState, cross: int) -> CompileState {
    match st.pending {
        Some((rv, rc)) => CompileState {
            bytes: st.bytes + encode_run(rv, rc, st.prev, cross),
            prev: rv,
            pending: None,
        },
        None => st,
    }
}

/// What an entry that does not extend the pending run adds after the flush.
pub open spec fn emit_entry(f: CompileState, e: FvecVector, cfg: CompilerConfig) -> CompileState {
    if e.repeat >= cfg.min_run_length {
        CompileState { pending: Some((e.vector, e.repeat as int)), ..f }
    } else {
        CompileState {
            bytes: f.bytes + encode_repeats(e.vector, f.prev, e.repeat as nat, cfg.sparse_crossover as int),
            prev: if e.repeat > 0 { e.vector } else { f.prev },
            ..f
        }
    }
}

proof fn lemma_state_step(vs: Seq<FvecVector>, cfg: CompilerConfig, j: int)
    requires
        0 <= j < vs.len(),
    ensures
        compile_state(vs.take(j + 1), cfg) == compile_step(compile_state(vs.take(j), cfg), vs[j], cfg),
{
    assert(vs.take(j + 1).drop_last() =~= vs.take(j));
}

proof fn lemma_step_shape(st: CompileState, e: FvecVector, cfg: CompilerConfig)
    requires
        !(st.pending matches Some((rv, _)) && e.vector == rv),
    ensures
        compile_step(st, e, cfg) == emit_entry(flushed(st, cfg.sparse_crossover as int), e, cfg),
{
}

/// After flushing, the decoder has produced everything expanded so far.
proof fn lemma_step_flush(d: Seq<u8>, st: CompileState, x: Seq<Seq<bool>>, cross: int)
    requires
        progress_at(d, st, x),
        flushed(st, cross).bytes.len() <= d.len(),
        d.subrange(0, flushed(st, cross).bytes.len() as int) == flushed(st, cross).bytes,
    ensures
        decode_all(d, 0, zero_bits()) == x + decode_all(
            d,
            flushed(st, cross).bytes.len() as int,
            flushed(st, cross).prev@,
        ),
        flushed(st, cross).prev@ == last_or_zero(x),
{
    let m = x.len() - pending_len(st);
    match st.pending {
        Some((rv, rc)) => {
            let enc = encode_run(rv, rc, st.prev, cross);
            let b1 = flushed(st, cross).bytes;
            assert(d.subrange(st.bytes.len() as int, (st.bytes.len() + enc.len()) as int) =~= enc) by {
                assert(d.subrange(st.bytes.len() as int, (st.bytes.len() + enc.len()) as int)
                    =~= b1.subrange(st.bytes.len() as int, b1.len() as int));
            }
            lemma_flush(d, st, x, m, rv, rc, cross);
            assert(x.take(m) + x.subrange(m, x.len() as int) =~= x);
        },
        None => {
            assert(x.take(m) =~= x);
        },
    }
}

/// Decoding the single encodings of an entry emitted after the flush.
proof fn lemma_emit_repeats(
    d: Seq<u8>,
    f: CompileState,
    e: FvecVector,
    cross: int,
    x: Seq<Seq<bool>>,
    x2: Seq<Seq<bool>>,
)
    requires
        decode_all(d, 0, zero_bits()) == x + decode_all(d, f.bytes.len() as int, f.prev@),
        f.prev@ == last_or_zero(x),
        x2 == x + repeat_bits(e.vector@, e.repeat as nat),
        f.bytes.len() + encode_repeats(e.vector, f.prev, e.repeat as nat, cross).len() <= d.len(),
        d.subrange(
            f.bytes.len() as int,
            (f.bytes.len() + encode_repeats(e.vector, f.prev, e.repeat as nat, cross).len()) as int,
        ) == encode_repeats(e.vector, f.prev, e.repeat as nat, cross),
    ensures
        decode_all(d, 0, zero_bits()) == x2 + decode_all(
            d,
            (f.bytes.len() + encode_repeats(e.vector, f.prev, e.repeat as nat, cross).len()) as int,
            if e.repeat > 0 { e.vector@ } else { f.prev@ },
        ),
        (if e.repeat > 0 { e.vector@ } else { f.prev@ }) == last_or_zero(x2),
{
    lemma_repeat_bits_len(e.vector@, e.repeat as nat);
    if e.repeat > 0 {
        assert(x2[x.len() as int] == e.vector@);
        if x.len() > 0 {
            assert(x2[x.len() - 1] == x.last());
        }
        assert(x2.last() == e.vector@);
    } else {
        assert(x2 =~= x);
    }
    lemma_decode_repeats(d, f.bytes.len() as int, e.vector, f.prev, e.repeat as nat, cross);
}

/// After the flush, the entry itself keeps the decoding invariant.
proof fn lemma_emit_tail(
    d: Seq<u8>,
    f: CompileState,
    e: FvecVector,
    cfg: CompilerConfig,
    x: Seq<Seq<bool>>,
    x2: Seq<Seq<bool>>,
)
    requires
        f.pending is None,
        decode_all(d, 0, zero_bits()) == x + decode_all(d, f.bytes.len() as int, f.prev@),
        f.prev@ == last_or_zero(x),
        x2 == x + repeat_bits(e.vector@, e.repeat as nat),
        emit_entry(f, e, cfg).bytes.len() <= d.len(),
        d.subrange(0, emit_entry(f, e, cfg).bytes.len() as int) == emit_entry(f, e, cfg).bytes,
        e.repeat >= cfg.min_run_length ==> e.repeat >= 1,
    ensures
        progress_at(d, emit_entry(f, e, cfg), x2),
{
    let cross = cfg.sparse_crossover as int;
    let st2 = emit_entry(f, e, cfg);
    lemma_repeat_bits_len(e.vector@, e.repeat as nat);
    if e.repeat >= cfg.min_run_length {
        assert(x2.take(x.len() as int) =~= x);
        assert(x2.subrange(x.len() as int, x2.len() as int) =~= repeat_bits(e.vector@, e.repeat as nat));
    } else {
        let enc = encode_repeats(e.vector, f.prev, e.repeat as nat, cross);
        let b2 = st2.bytes;
        assert(b2 == f.bytes + enc);
        assert(d.subrange(f.bytes.len() as int, (f.bytes.len() + enc.len()) as int) =~= enc) by {
            assert(d.subrange(f.bytes.len() as int, (f.bytes.len() + enc.len()) as int)
                =~= d.subrange(0, b2.len() as int).subrange(f.bytes.len() as int, b2.len() as int));
        }
        lemma_emit_repeats(d, f, e, cross, x, x2);
        assert(x2.take(x2.len() as int) =~= x2);
    }
}

/// A new entry equal to the pending run extends it.
proof fn lemma_step_extend(vs: Seq<FvecVector>, cfg: CompilerConfig, j: int)
    requires
        0 <= j < vs.len(),
        compilable(vs, cfg),
        decode_progress(vs, cfg, j),
        compile_state(vs.take(j), cfg).pending matches Some((rv, _)) && vs[j].vector == rv,
    ensures
        decode_progress(vs, cfg, j + 1),
{
    let st = compile_state(vs.take(j), cfg);
    let e = vs[j];
    lemma_state_step(vs, cfg, j);
    let x = expand(vs.take(j));
    let x2 = expand(vs.take(j + 1));
    lemma_expand_step(vs, j);
    lemma_repeat_bits_len(e.vector@, e.repeat as nat);
    lemma_expand_len(vs.take(j + 1));
    lemma_expand_len(vs.take(j));
    lemma_total_repeats_step(vs, j);
    let m = x.len() - pending_len(st);
    let (rv, rc) = st.pending.unwrap();
    lemma_repeat_bits_add(rv@, rc as nat, e.repeat as nat);
    assert(x2.take(m) =~= x.take(m));
    assert(x2.subrange(m, x2.len() as int) =~= x.subrange(m, x.len() as int) + repeat_bits(
        e.vector@,
        e.repeat as nat,
    ));
    assert(rc <= x.len());
}

/// Any other entry flushes the pending run, then starts a run or is
/// emitted.
proof fn lemma_step_emit(vs: Seq<FvecVector>, cfg: CompilerConfig, j: int)
    requires
        0 <= j < vs.len(),
        compilable(vs, cfg),
        decode_progress(vs, cfg, j),
        !(compile_state(vs.take(j), cfg).pending matches Some((rv, _)) && vs[j].vector == rv),
    ensures
        decode_progress(vs, cfg, j + 1),
{
    let d = compiled_data(vs, cfg);
    let cross = cfg.sparse_crossover as int;
    let i = j + 1;
    let st = compile_state(vs.take(j), cfg);
    let e = vs[j];
    lemma_state_step(vs, cfg, j);
    lemma_step_shape(st, e, cfg);
    let f = flushed(st, cross);
    let st2 = compile_state(vs.take(i), cfg);
    assert(st2 == emit_entry(f, e, cfg));
    let x = expand(vs.take(j));
    let x2 = expand(vs.take(i));
    lemma_expand_step(vs, j);
    lemma_expand_prefix(vs, i);
    lemma_repeat_bits_len(e.vector@, e.repeat as nat);
    assert(x2.subrange(0, x.len() as int) =~= x);
    lemma_bytes_prefix(vs, cfg, i);
    let ops = compiled_ops(vs, cfg);
    assert(d.subrange(0, ops.len() as int) =~= ops);
    let b2 = st2.bytes;
    assert(d.subrange(0, b2.len() as int) =~= b2) by {
        assert(d.subrange(0, b2.len() as int) =~= ops.subrange(0, b2.len() as int));
    }
    assert(b2.subrange(0, f.bytes.len() as int) =~= f.bytes);
    assert(d.subrange(0, f.bytes.len() as int) =~= f.bytes) by {
        assert(d.subrange(0, f.bytes.len() as int) =~= b2.subrange(0, f.bytes.len() as int));
    }
    lemma_step_flush(d, st, x, cross);
    lemma_emit_tail(d, f, e, cfg, x, x2);
}

/// The decoding invariant holds after every prefix of the entries.
proof fn lemma_decode_progress(vs: Seq<FvecVector>, cfg: CompilerConfig, i: int)
    requires
        0 <= i <= vs.len(),
        compilable(vs, cfg),
    ensures
        decode_progress(vs, cfg, i),
    decreases i,
{
    if i == 0 {
        let d = compiled_data(vs, cfg);
        assert(vs.take(0) =~= Seq::<FvecVector>::empty());
        Vector::lemma_zero_vector_bits();
        let x = expand(vs.take(0));
        assert(x.take(0) =~= Seq::<Seq<bool>>::empty());
        assert(x.take(0) + decode_all(d, 0, zero_bits()) =~= decode_all(d, 0, zero_bits()));
    } else {
        lemma_decode_progress(vs, cfg, i - 1);
        if compile_state(vs.take(i - 1), cfg).pending matches Some((rv, _)) && vs[i - 1].vector == rv {
            lemma_step_extend(vs, cfg, i - 1);
        } else {
            lemma_step_emit(vs, cfg, i - 1);
        }
    }
}

/// Decompiling what the compiler emits gives back the program's vectors,
/// each entry repeated as often as it says: for every compilable program
/// the data section decodes to the expanded program.
pub proof fn lemma_compile_roundtrip(vs: Seq<FvecVector>, cfg: CompilerConfig)
    requires
        compilable(vs, cfg),
    ensures
        decode_all(compiled_data(vs, cfg), 0, zero_bits()) == expand(vs),
{
    let n = vs.len() as int;
    let cross = cfg.sparse_crossover as int;
    let d = compiled_data(vs, cfg);
    lemma_decode_progress(vs, cfg, n);
    assert(vs.take(n) =~= vs);
    let st = compile_state(vs, cfg);
    let x = expand(vs);
    let ops = compiled_ops(vs, cfg);
    assert(d.subrange(0, ops.len() as int) =~= ops);
    assert(d[ops.len() as int] == OP_END);
    let f = flushed(st, cross);
    assert(f.bytes == ops);
    lemma_step_flush(d, st, x, cross);
    assert(decode_all(d, ops.len() as int, f.prev@) =~= Seq::<Seq<bool>>::empty());
    assert(x + Seq::<Seq<bool>>::empty() =~= x);
}

} // verus!
