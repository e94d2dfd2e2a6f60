//! Compiler from `.fvec` programs to the `.fbc` opcode stream, and the
//! decompiler back to vectors.
//!
//! Each vector takes the smallest encoding: `VECTOR_ZERO` / `VECTOR_ONES`
//! for the all-0 / all-1 vectors, a run count for repeats, `VECTOR_SPARSE`
//! (changed pins relative to the previous vector) up to the sparse
//! crossover, `VECTOR_FULL` otherwise.

use vstd::prelude::*;
use crate::codec::{le32, le32_bytes, lemma_roundtrip_32, push_u32_le, read_u32_le};
use crate::vector::fvec::{FvecProgram, FvecVector, total_repeats};
use crate::vector::format::{
    profile_bytes, PinConfig, FbcHeader, ThermalPowerLevel, ThermalProfile, ThermalSegment,
    FBC_MAGIC, FBC_VERSION, FLAG_THERMAL_PROFILE, SPARSE_CROSSOVER, THERMAL_SEGMENT_SIZE,
    byte_bit, count_true, zero_vector, lemma_count_true_bound, ones_bits, true_positions, xor_bits, zero_bits,
    FbcFile, Vector, OP_END, OP_NOP, OP_VECTOR_FULL, OP_VECTOR_ONES, OP_VECTOR_RUN,
    OP_VECTOR_SPARSE, OP_VECTOR_XOR, OP_VECTOR_ZERO,
};

verus! {

broadcast use vstd::array::group_array_axioms;

// -----------------------------------------------------------------------------
// Decoding
// -----------------------------------------------------------------------------

/// The bits of 20 raw vector bytes.
pub open spec fn bits_of_bytes(b: Seq<u8>) -> Seq<bool> {
    Seq::new(160, |p: int| byte_bit(b[p / 8], (p % 8) as u8))
}

/// `prev` with the sparse entries applied in order: entry `e` sets pin
/// `e >> 1` (when below 160) to bit 0 of `e`.
pub open spec fn apply_sparse(prev: Seq<bool>, entries: Seq<u8>) -> Seq<bool>
    decreases entries.len(),
{
    if entries.len() == 0 {
        prev
    } else {
        let bits = apply_sparse(prev, entries.drop_last());
        let e = entries.last();
        let pin = e / 2;
        if pin < 160 {
            bits.update(pin as int, e % 2 == 1)
        } else {
            bits
        }
    }
}

/// One decoding step from `pos` with previous vector `prev`: the vector
/// produced (if any), the next position and the new previous vector.
/// `NOP` and unknown opcodes are skipped; `RUN` yields the previous vector
/// once; `END` and truncated payloads yield nothing.
pub open spec fn dstep(data: Seq<u8>, pos: int, prev: Seq<bool>) -> (Option<Seq<bool>>, int, Seq<bool>)
    decreases data.len() - pos,
{
    if pos < 0 || pos >= data.len() {
        (None, pos, prev)
    } else {
        let op = data[pos];
        let p = pos + 1;
        if op == OP_VECTOR_FULL {
            if p + 20 > data.len() {
                (None, p, prev)
            } else {
                let v = bits_of_bytes(data.subrange(p, p + 20));
                (Some(v), p + 20, v)
            }
        } else if op == OP_VECTOR_SPARSE {
            if p >= data.len() {
                (None, p, prev)
            } else {
                let count = data[p] as int;
                let q = p + 1;
                if q + count > data.len() {
                    (None, q, prev)
                } else {
                    let v = apply_sparse(prev, data.subrange(q, q + count));
                    (Some(v), q + count, v)
                }
            }
        } else if op == OP_VECTOR_RUN {
            if p + 4 > data.len() {
                (None, p, prev)
            } else {
                (Some(prev), p + 4, prev)
            }
        } else if op == OP_VECTOR_ZERO {
            (Some(zero_bits()), p, zero_bits())
        } else if op == OP_VECTOR_ONES {
            (Some(ones_bits()), p, ones_bits())
        } else if op == OP_VECTOR_XOR {
            if p + 20 > data.len() {
                (None, p, prev)
            } else {
                let v = xor_bits(prev, bits_of_bytes(data.subrange(p, p + 20)));
                (Some(v), p + 20, v)
            }
        } else if op == OP_END {
            (None, p, prev)
        } else {
            dstep(data, p, prev)
        }
    }
}

/// `n` copies of `v`.
pub open spec fn repeat_bits(v: Seq<bool>, n: nat) -> Seq<Seq<bool>>
    decreases n,
{
    if n == 0 {
        seq![]
    } else {
        repeat_bits(v, (n - 1) as nat).push(v)
    }
}

/// All vectors decoded from `pos` up to `END` or the end of the data, with
/// each `RUN n` expanded to `n` copies of the previous vector.
pub open spec fn decode_all(data: Seq<u8>, pos: int, prev: Seq<bool>) -> Seq<Seq<bool>>
    decreases data.len() - pos,
{
    if pos < 0 || pos >= data.len() || data[pos] == OP_END {
        seq![]
    } else if data[pos] == OP_VECTOR_RUN {
        if pos + 5 > data.len() {
            seq![]
        } else {
            repeat_bits(prev, le32(data.subrange(pos + 1, pos + 5)) as nat) + decode_all(
                data,
                pos + 5,
                prev,
            )
        }
    } else {
        let (r, p2, prev2) = dstep(data, pos, prev);
        match r {
            Some(v) => if p2 > pos && p2 <= data.len() {
                seq![v] + decode_all(data, p2, prev2)
            } else {
                seq![]
            },
            None => seq![],
        }
    }
}

/// A produced vector always comes with progress.
pub proof fn lemma_dstep_progress(data: Seq<u8>, pos: int, prev: Seq<bool>)
    ensures
        dstep(data, pos, prev).0 is Some ==> dstep(data, pos, prev).1 > pos,
        dstep(data, pos, prev).1 >= pos,
        0 <= pos < data.len() ==> dstep(data, pos, prev).1 <= data.len(),
    decreases data.len() - pos,
{
    if 0 <= pos < data.len() {
        let op = data[pos];
        if !(op == OP_VECTOR_FULL || op == OP_VECTOR_SPARSE || op == OP_VECTOR_RUN || op
            == OP_VECTOR_ZERO || op == OP_VECTOR_ONES || op == OP_VECTOR_XOR || op == OP_END) {
            lemma_dstep_progress(data, pos + 1, prev);
        }
    }
}

/// Decompiler: FBC opcode stream to individual vectors.
pub struct VectorDecompiler<'a> {
    data: &'a [u8],
    pos: usize,
    prev: Vector,
}

impl<'a> VectorDecompiler<'a> {
    pub closed spec fn data_view(&self) -> Seq<u8> {
        self.data@
    }

    pub closed spec fn pos_view(&self) -> int {
        self.pos as int
    }

    pub closed spec fn prev_view(&self) -> Seq<bool> {
        self.prev@
    }

    /// Create a new decompiler at the start of the file's data.
    pub fn new(fbc: &'a FbcFile) -> (r: Self)
        ensures
            r.data_view() == fbc.data@,
            r.pos_view() == 0,
            r.prev_view() == zero_bits(),
    {
        VectorDecompiler { data: fbc.data.as_slice(), pos: 0, prev: Vector::zero() }
    }

    /// Get the next vector (`None` at `END`, at the end of the data or on a
    /// truncated payload).
    pub fn next(&mut self) -> (r: Option<Vector>)
        ensures
            final(self).data_view() == old(self).data_view(),
            dstep(old(self).data_view(), old(self).pos_view(), old(self).prev_view()) == (
                match r {
                    Some(v) => Some(v@),
                    None => None::<Seq<bool>>,
                },
                final(self).pos_view(),
                final(self).prev_view(),
            ),
    {
        let n = self.data.len();
        loop
            invariant
                self.data@ == old(self).data@,
                n == self.data@.len(),
                dstep(old(self).data@, old(self).pos as int, old(self).prev@) == dstep(
                    self.data@,
                    self.pos as int,
                    self.prev@,
                ),
            decreases n - self.pos,
        {
            if self.pos >= n {
                return None;
            }
            let op = self.data[self.pos];
            self.pos = self.pos + 1;
            if op == OP_VECTOR_FULL {
                if self.pos > n || n - self.pos < 20 {
                    return None;
                }
                let mut vec = Vector::zero();
                let mut i: usize = 0;
                while i < 20
                    invariant
                        i <= 20,
                        self.pos + 20 <= n == self.data@.len(),
                        forall|k: int| 0 <= k < i ==> vec.data[k] == self.data@[self.pos + k],
                    decreases 20 - i,
                {
                    vec.data[i] = self.data[self.pos + i];
                    i = i + 1;
                }
                assert(vec@ =~= bits_of_bytes(self.data@.subrange(self.pos as int, self.pos + 20)));
                self.pos = self.pos + 20;
                self.prev = vec;
                return Some(vec);
            } else if op == OP_VECTOR_SPARSE {
                if self.pos >= n {
                    return None;
                }
                let count = self.data[self.pos] as usize;
                self.pos = self.pos + 1;
                if self.pos > n || n - self.pos < count {
                    return None;
                }
                let mut vec = self.prev;
                let mut i: usize = 0;
                while i < count
                    invariant
                        i <= count,
                        self.pos + count <= n == self.data@.len(),
                        vec@ == apply_sparse(self.prev@, self.data@.subrange(self.pos as int, self.pos + i)),
                    decreases count - i,
                {
                    let encoded = self.data[self.pos + i];
                    let pin = (encoded >> 1) as usize;
                    let value = (encoded & 1) != 0;
                    assert(pin == encoded / 2 && value == (encoded % 2 == 1)) by (bit_vector)
                        requires pin == (encoded >> 1) as usize, value == ((encoded & 1) != 0);
                    assert(self.data@.subrange(self.pos as int, self.pos + i + 1).drop_last()
                        =~= self.data@.subrange(self.pos as int, self.pos + i));
                    if pin < 160 {
                        vec.set_bit(pin, value);
                    }
                    i = i + 1;
                }
                self.pos = self.pos + count;
                self.prev = vec;
                return Some(vec);
            } else if op == OP_VECTOR_RUN {
                if self.pos > n || n - self.pos < 4 {
                    return None;
                }
                self.pos = self.pos + 4;
                return Some(self.prev);
            } else if op == OP_VECTOR_ZERO {
                self.prev = Vector::zero();
                return Some(Vector::zero());
            } else if op == OP_VECTOR_ONES {
                self.prev = Vector::ones();
                return Some(Vector::ones());
            } else if op == OP_VECTOR_XOR {
                if self.pos > n || n - self.pos < 20 {
                    return None;
                }
                let mut xor_data = Vector::zero();
                let mut i: usize = 0;
                while i < 20
                    invariant
                        i <= 20,
                        self.pos + 20 <= n == self.data@.len(),
                        forall|k: int| 0 <= k < i ==> xor_data.data[k] == self.data@[self.pos + k],
                    decreases 20 - i,
                {
                    xor_data.data[i] = self.data[self.pos + i];
                    i = i + 1;
                }
                assert(xor_data@ =~= bits_of_bytes(self.data@.subrange(self.pos as int, self.pos + 20)));
                self.pos = self.pos + 20;
                let vec = self.prev.xor(&xor_data);
                self.prev = vec;
                return Some(vec);
            } else if op == OP_END {
                return None;
            }
        }
    }

    /// Get all vectors (expanding runs), up to `END` or the end of the data.
    pub fn to_vec(&mut self) -> (r: Vec<Vector>)
        ensures
            r@.map_values(|v: Vector| v@) == decode_all(old(self).data_view(), old(self).pos_view(), old(self).prev_view()),
    {
        let ghost total = decode_all(self.data@, self.pos as int, self.prev@);
        let mut vectors: Vec<Vector> = Vec::new();
        let mut run_remaining: u32 = 0;
        let mut run_vector = Vector::zero();
        let n = self.data.len();
        loop
            invariant_except_break
                total == vectors@.map_values(|v: Vector| v@) + repeat_bits(run_vector@, run_remaining as nat)
                    + decode_all(self.data@, self.pos as int, self.prev@),
            invariant
                n == self.data@.len(),
                self.data@ == old(self).data@,
                total == decode_all(old(self).data@, old(self).pos as int, old(self).prev@),
            ensures
                total == vectors@.map_values(|v: Vector| v@),
            decreases n - self.pos, run_remaining,
        {
            if run_remaining > 0 {
                let ghost before = vectors@;
                vectors.push(run_vector);
                proof {
                    lemma_repeat_bits_front(run_vector@, run_remaining as nat);
                    assert(vectors@.map_values(|v: Vector| v@) =~= before.map_values(|v: Vector| v@).push(run_vector@));
                }
                run_remaining = run_remaining - 1;
                continue;
            }
            assert(repeat_bits(run_vector@, 0) =~= Seq::<Seq<bool>>::empty());
            if self.pos >= n {
                assert(total =~= vectors@.map_values(|v: Vector| v@));
                break;
            }
            let op = self.data[self.pos];
            if op == OP_END {
                assert(total =~= vectors@.map_values(|v: Vector| v@));
                break;
            }
            if op == OP_VECTOR_RUN {
                if n < 5 || self.pos > n - 5 {
                    proof {
                        assert(decode_all(self.data@, self.pos as int, self.prev@) == Seq::<Seq<bool>>::empty());
                    }
                    self.pos = self.pos + 1;
                    assert(total =~= vectors@.map_values(|v: Vector| v@));
                    break;
                }
                let count = read_u32_le(self.data, self.pos + 1);
                self.pos = self.pos + 5;
                run_remaining = count;
                run_vector = self.prev;
                continue;
            }
            let ghost (p0, prev0) = (self.pos as int, self.prev@);
            proof {
                lemma_dstep_progress(self.data@, p0, prev0);
            }
            match self.next() {
                Some(vec) => {
                    let ghost before = vectors@;
                    vectors.push(vec);
                    assert(vectors@.map_values(|v: Vector| v@) =~= before.map_values(|v: Vector| v@).push(vec@));
                },
                None => {
                    assert(total =~= vectors@.map_values(|v: Vector| v@));
                    break;
                },
            }
        }
        vectors
    }
}

proof fn lemma_repeat_bits_front(v: Seq<bool>, n: nat)
    requires
        n > 0,
    ensures
        repeat_bits(v, n) == seq![v] + repeat_bits(v, (n - 1) as nat),
    decreases n,
{
    if n > 1 {
        lemma_repeat_bits_front(v, (n - 1) as nat);
        assert(repeat_bits(v, n) =~= seq![v] + repeat_bits(v, (n - 1) as nat));
    } else {
        assert(repeat_bits(v, 0) =~= Seq::<Seq<bool>>::empty());
        assert(repeat_bits(v, 1) =~= seq![v]);
    }
}


// -----------------------------------------------------------------------------
// Thermal profiling
// -----------------------------------------------------------------------------

/// Sum of the toggle counts of `s`.
pub open spec fn sum_toggles(s: Seq<(int, int)>) -> int
    decreases s.len(),
{
    if s.len() == 0 {
        0
    } else {
        sum_toggles(s.drop_last()) + s.last().0
    }
}

/// Sum of the active-pin counts of `s`.
pub open spec fn sum_active(s: Seq<(int, int)>) -> int
    decreases s.len(),
{
    if s.len() == 0 {
        0
    } else {
        sum_active(s.drop_last()) + s.last().1
    }
}

/// Power level from average toggles and active pins.
pub open spec fn power_level_of(t: int, a: int) -> ThermalPowerLevel {
    if t > 40 && a > 60 {
        ThermalPowerLevel::High
    } else if t > 20 || a > 40 {
        ThermalPowerLevel::Medium
    } else {
        ThermalPowerLevel::Low
    }
}

/// The segment summarizing `chunk` (non-empty), starting at vector `offset`.
pub open spec fn segment_of(chunk: Seq<(int, int)>, offset: int) -> ThermalSegment {
    let t = sum_toggles(chunk) / (chunk.len() as int);
    let a = sum_active(chunk) / (chunk.len() as int);
    ThermalSegment {
        vector_offset: offset as u32,
        avg_toggle_rate: t as u8,
        avg_active_pins: a as u8,
        power_level: power_level_of(t, a),
        _reserved: 0,
    }
}

/// The first `k` full segments of `s`.
pub open spec fn full_segments(s: Seq<(int, int)>, k: int) -> Seq<ThermalSegment> {
    Seq::new(k as nat, |j: int| segment_of(s.subrange(1024 * j, 1024 * j + 1024), 1024 * j))
}

/// Segments of 1024 vectors each, the last one possibly shorter.
pub open spec fn thermal_segments(s: Seq<(int, int)>) -> Seq<ThermalSegment> {
    let n = s.len() as int;
    let full = full_segments(s, n / 1024);
    if n % 1024 != 0 {
        full.push(segment_of(s.subrange(n - n % 1024, n), n - n % 1024))
    } else {
        full
    }
}

/// `n` copies of the pair `x`.
pub open spec fn repeat_pair(x: (int, int), n: nat) -> Seq<(int, int)>
    decreases n,
{
    if n == 0 {
        seq![]
    } else {
        repeat_pair(x, (n - 1) as nat).push(x)
    }
}

proof fn lemma_repeat_pair_len(x: (int, int), n: nat)
    ensures
        repeat_pair(x, n).len() == n,
        forall|i: int| 0 <= i < n ==> #[trigger] repeat_pair(x, n)[i] == x,
    decreases n,
{
    if n > 0 {
        lemma_repeat_pair_len(x, (n - 1) as nat);
    }
}

/// The (toggles, active pins) pairs of one entry repeated `r` times: the
/// first vector toggles `t` pins, the repeats after it toggle none, and every
/// one of them holds `a` pins high.
pub open spec fn entry_pairs(t: int, a: int, r: nat) -> Seq<(int, int)> {
    if r == 0 {
        seq![]
    } else {
        repeat_pair((t, a), 1) + repeat_pair((0, a), (r - 1) as nat)
    }
}

/// Per-vector (toggles, active pins) of a program: each entry contributes
/// `entry_pairs` of (pins differing from the previous entry's vector, pins
/// high), the first entry compared with the all-zero vector.
pub open spec fn thermal_stream(vs: Seq<FvecVector>) -> Seq<(int, int)>
    decreases vs.len(),
{
    if vs.len() == 0 {
        seq![]
    } else {
        let e = vs.last();
        let prev = if vs.len() == 1 { zero_bits() } else { vs[vs.len() - 2].vector@ };
        thermal_stream(vs.drop_last()) + entry_pairs(
            count_true(xor_bits(e.vector@, prev)) as int,
            count_true(e.vector@) as int,
            e.repeat as nat,
        )
    }
}

proof fn lemma_sum_bounds(s: Seq<(int, int)>)
    requires
        forall|i: int| 0 <= i < s.len() ==> 0 <= (#[trigger] s[i]).0 <= 160 && 0 <= s[i].1 <= 160,
    ensures
        0 <= sum_toggles(s) <= 160 * s.len(),
        0 <= sum_active(s) <= 160 * s.len(),
    decreases s.len(),
{
    if s.len() > 0 {
        lemma_sum_bounds(s.drop_last());
    }
}

proof fn lemma_avg_bound(t: int, n: int)
    requires
        0 < n,
        0 <= t <= 160 * n,
    ensures
        0 <= t / n <= 160,
{
    assert(t / n <= 160) by (nonlinear_arith)
        requires 0 < n, 0 <= t <= 160 * n;
    assert(t / n >= 0) by (nonlinear_arith)
        requires 0 < n, 0 <= t;
}

/// A thermal segment's power level agrees with the averages it reports:
/// it is High exactly when the average toggle rate exceeds 40 and the
/// average active pin count exceeds 60, Low exactly when the toggle rate
/// is at most 20 and the active count at most 40, and Medium otherwise.
pub proof fn lemma_segment_power_level(chunk: Seq<(int, int)>, offset: int)
    requires
        chunk.len() > 0,
        forall|i: int| 0 <= i < chunk.len() ==> 0 <= (#[trigger] chunk[i]).0 <= 160 && 0 <= chunk[i].1 <= 160,
    ensures
        ({
            let seg = segment_of(chunk, offset);
            &&& (seg.power_level == ThermalPowerLevel::High) == (seg.avg_toggle_rate > 40 && seg.avg_active_pins > 60)
            &&& (seg.power_level == ThermalPowerLevel::Low) == (seg.avg_toggle_rate <= 20 && seg.avg_active_pins <= 40)
            &&& (seg.avg_toggle_rate <= 40 ==> seg.power_level != ThermalPowerLevel::High)
        }),
{
    lemma_sum_bounds(chunk);
    let n = chunk.len() as int;
    lemma_avg_bound(sum_toggles(chunk), n);
    lemma_avg_bound(sum_active(chunk), n);
}

/// Thermal accumulator for compile-time profiling.
struct ThermalAccum {
    total_toggles: u64,
    total_active: u64,
    vectors_in_segment: u32,
    segment_start: u32,
    segments: Vec<ThermalSegment>,
    stream: Ghost<Seq<(int, int)>>,
}

impl ThermalAccum {
    /// Consistent state, possibly with a full segment not yet flushed.
    spec fn pre(&self) -> bool {
        let s = self.stream@;
        let n = s.len() as int;
        &&& n <= u32::MAX
        &&& self.segment_start <= n
        &&& n - self.segment_start <= 1024
        &&& self.vectors_in_segment == n - self.segment_start
        &&& self.segment_start % 1024 == 0
        &&& self.segments@ == full_segments(s, self.segment_start as int / 1024)
        &&& self.total_toggles == sum_toggles(s.subrange(self.segment_start as int, n))
        &&& self.total_active == sum_active(s.subrange(self.segment_start as int, n))
        &&& forall|i: int| 0 <= i < n ==> 0 <= (#[trigger] s[i]).0 <= 160 && 0 <= s[i].1 <= 160
    }

    /// Consistent state with every full segment flushed.
    spec fn wf(&self) -> bool {
        self.pre() && self.vectors_in_segment < 1024
    }

    fn new() -> (r: Self)
        ensures
            r.wf(),
            r.stream@ == Seq::<(int, int)>::empty(),
    {
        let r = ThermalAccum {
            total_toggles: 0,
            total_active: 0,
            vectors_in_segment: 0,
            segment_start: 0,
            segments: Vec::new(),
            stream: Ghost(Seq::empty()),
        };
        assert(r.segments@ =~= full_segments(r.stream@, 0));
        assert(r.stream@.subrange(0, 0) =~= Seq::<(int, int)>::empty());
        r
    }

    fn add(&mut self, toggles: usize, active_pins: usize, repeat: u32)
        requires
            old(self).wf(),
            toggles <= 160,
            active_pins <= 160,
            old(self).stream@.len() + repeat <= u32::MAX,
        ensures
            final(self).wf(),
            final(self).stream@ == old(self).stream@ + repeat_pair(
                (toggles as int, active_pins as int),
                repeat as nat,
            ),
    {
        let ghost x = (toggles as int, active_pins as int);
        let ghost s0 = self.stream@;
        let mut k: u32 = 0;
        while k < repeat
            invariant
                k <= repeat,
                self.wf(),
                self.stream@ == s0 + repeat_pair(x, k as nat),
                s0.len() + repeat <= u32::MAX,
                x == (toggles as int, active_pins as int),
                toggles <= 160,
                active_pins <= 160,
            decreases repeat - k,
        {
            let ghost s = self.stream@;
            let ghost n = s.len() as int;
            proof {
                let start = self.segment_start as int;
                lemma_sum_bounds(s.subrange(start, n));
                assert(s.push(x).subrange(start, n + 1).drop_last() =~= s.subrange(start, n));
                assert(full_segments(s.push(x), start / 1024) =~= full_segments(s, start / 1024)) by {
                    assert forall|j: int| 0 <= j < start / 1024 implies #[trigger] full_segments(s.push(x), start / 1024)[j] == full_segments(s, start / 1024)[j] by {
                        assert(1024 * j + 1024 <= start);
                        assert(s.push(x).subrange(1024 * j, 1024 * j + 1024) =~= s.subrange(1024 * j, 1024 * j + 1024));
                    }
                }
            }
            self.total_toggles = self.total_toggles + toggles as u64;
            self.total_active = self.total_active + active_pins as u64;
            self.vectors_in_segment = self.vectors_in_segment + 1;
            self.stream = Ghost(s.push(x));
            proof {
                assert(s0 + repeat_pair(x, (k + 1) as nat) =~= (s0 + repeat_pair(x, k as nat)).push(x));
                lemma_repeat_pair_len(x, k as nat);
                let st = s.push(x);
                assert forall|i: int| 0 <= i < st.len() implies 0 <= (#[trigger] st[i]).0 <= 160 && 0 <= st[i].1 <= 160 by {
                    if i < n {
                        assert(st[i] == s[i]);
                    }
                }
                assert(self.pre());
            }
            if self.vectors_in_segment >= THERMAL_SEGMENT_SIZE {
                self.flush_segment();
                proof {
                    let st = self.stream@;
                    let start = self.segment_start as int;
                    assert(self.segments@ =~= full_segments(st, start / 1024));
                    assert(st.subrange(start, start) =~= Seq::<(int, int)>::empty());
                }
            }
            k = k + 1;
        }
    }

    fn flush_segment(&mut self)
        requires
            old(self).pre(),
        ensures
            final(self).stream@ == old(self).stream@,
            old(self).vectors_in_segment == 0 ==> *final(self) == *old(self),
            old(self).vectors_in_segment > 0 ==> {
                &&& final(self).segments@ == old(self).segments@.push(
                    segment_of(
                        old(self).stream@.subrange(old(self).segment_start as int, old(self).stream@.len() as int),
                        old(self).segment_start as int,
                    ),
                )
                &&& final(self).segment_start == old(self).stream@.len()
                &&& final(self).vectors_in_segment == 0
                &&& final(self).total_toggles == 0
                &&& final(self).total_active == 0
            },
    {
        if self.vectors_in_segment == 0 {
            return;
        }
        let ghost s = self.stream@;
        let ghost chunk = s.subrange(self.segment_start as int, s.len() as int);
        proof {
            lemma_sum_bounds(chunk);
            lemma_avg_bound(self.total_toggles as int, self.vectors_in_segment as int);
            lemma_avg_bound(self.total_active as int, self.vectors_in_segment as int);
        }
        let at = self.total_toggles / (self.vectors_in_segment as u64);
        let aa = self.total_active / (self.vectors_in_segment as u64);
        let avg_toggles = at as u8;
        let avg_active = aa as u8;
        let power_level = if avg_toggles > 40 && avg_active > 60 {
            ThermalPowerLevel::High
        } else if avg_toggles > 20 || avg_active > 40 {
            ThermalPowerLevel::Medium
        } else {
            ThermalPowerLevel::Low
        };
        let seg = ThermalSegment {
            vector_offset: self.segment_start,
            avg_toggle_rate: if avg_toggles > 160 { 160 } else { avg_toggles },
            avg_active_pins: if avg_active > 160 { 160 } else { avg_active },
            power_level,
            _reserved: 0,
        };
        assert(seg == segment_of(chunk, self.segment_start as int));
        self.segments.push(seg);
        self.segment_start = self.segment_start + self.vectors_in_segment;
        self.total_toggles = 0;
        self.total_active = 0;
        self.vectors_in_segment = 0;
    }

    fn finish(self) -> (r: Vec<ThermalSegment>)
        requires
            self.wf(),
        ensures
            r@ == thermal_segments(self.stream@),
    {
        let mut me = self;
        let ghost s = me.stream@;
        let ghost n = s.len() as int;
        let ghost full = me.segments@;
        me.flush_segment();
        proof {
            assert(n / 1024 == (n - n % 1024) / 1024);
            if n % 1024 == 0 {
                assert(me.segments@ =~= thermal_segments(s));
            } else {
                assert(me.segments@ =~= thermal_segments(s));
            }
        }
        me.segments
    }
}


// -----------------------------------------------------------------------------
// Encoding
// -----------------------------------------------------------------------------

/// Compiler configuration.
#[derive(Debug, Clone, Copy)]
pub struct CompilerConfig {
    /// Minimum repeat count that starts a run (default 2).
    pub min_run_length: u32,
    /// Largest number of toggled pins encoded sparsely (default 15).
    pub sparse_crossover: usize,
    /// Reserved for XOR encoding (not used).
    pub enable_xor: bool,
}

impl Default for CompilerConfig {
    fn default() -> (r: CompilerConfig)
        ensures
            r.min_run_length == 2,
            r.sparse_crossover == SPARSE_CROSSOVER,
            !r.enable_xor,
    {
        CompilerConfig { min_run_length: 2, sparse_crossover: SPARSE_CROSSOVER, enable_xor: false }
    }
}

/// A `RUN n` instruction.
pub open spec fn run_op(n: u32) -> Seq<u8> {
    seq![OP_VECTOR_RUN] + le32_bytes(n)
}

/// Whether two vectors agree on pins 128-159, the pins a sparse entry
/// cannot name (it holds `pin << 1` in one byte).
pub open spec fn high_pins_same(v: Seq<bool>, p: Seq<bool>) -> bool {
    forall|q: int| 128 <= q < 160 ==> v[q] == p[q]
}

/// Sparse entry for pin `p` of `v`: `(p << 1) | v[p]` in a byte.
pub open spec fn sparse_byte(v: Vector, p: int) -> u8 {
    ((2 * p) % 256 + if v@[p] { 1int } else { 0int }) as u8
}

/// The encoding of one vector after `prev`: `ZERO`, `ONES`, `RUN 1` when
/// equal to `prev`, `SPARSE` with the changed pins up to `cross` toggles
/// when all of them are below 128, `FULL` otherwise.
pub open spec fn encode_vector(v: Vector, prev: Vector, cross: int) -> Seq<u8> {
    if v@ == zero_bits() {
        seq![OP_VECTOR_ZERO]
    } else if v@ == ones_bits() {
        seq![OP_VECTOR_ONES]
    } else {
        let d = xor_bits(v@, prev@);
        let t = count_true(d) as int;
        if t == 0 {
            run_op(1)
        } else if t <= cross && high_pins_same(v@, prev@) {
            seq![OP_VECTOR_SPARSE, t as u8] + Seq::new(t as nat, |j: int| sparse_byte(v, true_positions(d)[j]))
        } else {
            seq![OP_VECTOR_FULL] + v.data@
        }
    }
}

/// `n` single encodings of `v`, the first after `prev`.
pub open spec fn encode_repeats(v: Vector, prev: Vector, n: nat, cross: int) -> Seq<u8>
    decreases n,
{
    if n == 0 {
        seq![]
    } else {
        encode_repeats(v, prev, (n - 1) as nat, cross) + encode_vector(
            v,
            if n == 1 { prev } else { v },
            cross,
        )
    }
}

/// A run of `count` copies of `v` after `prev`: `v` itself if it differs
/// from `prev`, then `RUN` with the remaining count (if any).
pub open spec fn encode_run(v: Vector, count: int, prev: Vector, cross: int) -> Seq<u8> {
    if v != prev {
        encode_vector(v, prev, cross) + if count - 1 > 0 {
            run_op((count - 1) as u32)
        } else {
            seq![]
        }
    } else if count > 0 {
        run_op(count as u32)
    } else {
        seq![]
    }
}

/// Compiler state: bytes emitted, last emitted vector, pending run.
pub struct CompileState {
    pub bytes: Seq<u8>,
    pub prev: Vector,
    pub pending: Option<(Vector, int)>,
}

/// The state after one more program entry.
pub open spec fn compile_step(st: CompileState, e: FvecVector, cfg: CompilerConfig) -> CompileState {
    let cross = cfg.sparse_crossover as int;
    match st.pending {
        Some((rv, rc)) if e.vector == rv => CompileState {
            pending: Some((rv, rc + e.repeat)),
            ..st
        },
        _ => {
            let st1 = match st.pending {
                Some((rv, rc)) => CompileState {
                    bytes: st.bytes + encode_run(rv, rc, st.prev, cross),
                    prev: rv,
                    pending: None,
                },
                None => st,
            };
            if e.repeat >= cfg.min_run_length {
                CompileState { pending: Some((e.vector, e.repeat as int)), ..st1 }
            } else {
                CompileState {
                    bytes: st1.bytes + encode_repeats(e.vector, st1.prev, e.repeat as nat, cross),
                    prev: if e.repeat > 0 { e.vector } else { st1.prev },
                    ..st1
                }
            }
        },
    }
}

/// The state after the entries `vs`.
pub open spec fn compile_state(vs: Seq<FvecVector>, cfg: CompilerConfig) -> CompileState
    decreases vs.len(),
{
    if vs.len() == 0 {
        CompileState { bytes: seq![], prev: zero_vector(), pending: None }
    } else {
        compile_step(compile_state(vs.drop_last(), cfg), vs.last(), cfg)
    }
}

/// The opcode stream for `vs` (before `END`).
pub open spec fn compiled_ops(vs: Seq<FvecVector>, cfg: CompilerConfig) -> Seq<u8> {
    let st = compile_state(vs, cfg);
    match st.pending {
        Some((rv, rc)) => st.bytes + encode_run(rv, rc, st.prev, cfg.sparse_crossover as int),
        None => st.bytes,
    }
}

/// The data section for `vs`: opcodes, `END`, then the thermal profile.
pub open spec fn compiled_data(vs: Seq<FvecVector>, cfg: CompilerConfig) -> Seq<u8> {
    compiled_ops(vs, cfg) + seq![OP_END] + profile_bytes(thermal_segments(thermal_stream(vs)))
}

/// Whether a pending run in the executed compiler matches the model.
pub open spec fn pending_matches(x: Option<(Vector, u32)>, y: Option<(Vector, int)>) -> bool {
    match (x, y) {
        (Some((a, n)), Some((b, m))) => a == b && n == m,
        (None, None) => true,
        _ => false,
    }
}

/// The default configuration.
pub open spec fn default_config() -> CompilerConfig {
    CompilerConfig { min_run_length: 2, sparse_crossover: SPARSE_CROSSOVER, enable_xor: false }
}

/// Vector compiler.
pub struct VectorCompiler {
    config: CompilerConfig,
}

impl Default for VectorCompiler {
    fn default() -> (r: VectorCompiler)
        ensures
            r.config_view() == default_config(),
    {
        Self::new()
    }
}

impl VectorCompiler {
    pub closed spec fn config_view(&self) -> CompilerConfig {
        self.config
    }

    /// Create a new compiler with default settings.
    pub fn new() -> (r: Self)
        ensures
            r.config_view() == default_config(),
    {
        VectorCompiler { config: CompilerConfig::default() }
    }

    /// Create a compiler with a custom configuration.
    pub fn with_config(config: CompilerConfig) -> (r: Self)
        ensures
            r.config_view() == config,
    {
        VectorCompiler { config }
    }

    /// Emit a single vector using the smallest encoding.
    fn emit_vector(&self, data: &mut Vec<u8>, vec: Vector, prev: &mut Vector)
        ensures
            final(data)@ == old(data)@ + encode_vector(vec, *old(prev), self.config.sparse_crossover as int),
            *final(prev) == vec,
    {
        let cross = self.config.sparse_crossover;
        if vec.same(&Vector::zero()) {
            data.push(OP_VECTOR_ZERO);
            *prev = vec;
            return;
        }
        if vec.same(&Vector::ones()) {
            data.push(OP_VECTOR_ONES);
            *prev = vec;
            return;
        }
        let diff = vec.xor(prev);
        let toggles = diff.popcount();
        if toggles == 0 {
            proof {
                assert forall|p: int| 0 <= p < 160 implies vec@[p] == prev@[p] by {
                    if vec@[p] != prev@[p] {
                        lemma_count_positive(diff@, p);
                    }
                }
                assert(vec@ =~= prev@);
                Vector::lemma_view_injective(vec, *prev);
            }
            data.push(OP_VECTOR_RUN);
            push_u32_le(data, 1);
            assert(data@ =~= old(data)@ + encode_vector(vec, *old(prev), cross as int));
            return;
        }
        let mut high_same = true;
        let mut q: usize = 128;
        while q < 160
            invariant
                128 <= q <= 160,
                diff@ == xor_bits(vec@, old(prev)@),
                high_same <==> (forall|r: int| 128 <= r < q ==> vec@[r] == old(prev)@[r]),
            decreases 160 - q,
        {
            if diff.get_bit(q) {
                high_same = false;
            }
            q = q + 1;
        }
        if toggles <= cross && high_same {
            let indices = diff.ones_indices();
            proof {
                lemma_count_true_bound(diff@);
            }
            let ghost before = data@;
            data.push(OP_VECTOR_SPARSE);
            data.push(indices.len() as u8);
            let mut k: usize = 0;
            while k < indices.len()
                invariant
                    k <= indices@.len() == count_true(diff@) == toggles,
                    true_positions(diff@).len() == indices@.len(),
                    toggles <= 160,
                    diff@ == xor_bits(vec@, old(prev)@),
                    forall|i: int| 0 <= i < indices@.len() ==> indices@[i] as int == #[trigger] true_positions(diff@)[i],
                    forall|i: int| 0 <= i < true_positions(diff@).len() ==> 0 <= #[trigger] true_positions(diff@)[i] < 160,
                    data@ == before + seq![OP_VECTOR_SPARSE, toggles as u8] + Seq::new(k as nat, |j: int| sparse_byte(vec, true_positions(diff@)[j])),
                decreases indices.len() - k,
            {
                let idx = indices[k];
                assert(idx as int == true_positions(diff@)[k as int]);
                let new_value: u8 = if vec.get_bit(idx as usize) { 1 } else { 0 };
                let b = (idx << 1) | new_value;
                assert(b == ((2 * idx) % 256 + new_value) as u8) by (bit_vector)
                    requires b == (idx << 1) | new_value, new_value <= 1;
                data.push(b);
                proof {
                    let tp = true_positions(diff@);
                    assert(Seq::new((k + 1) as nat, |j: int| sparse_byte(vec, tp[j])) =~= Seq::new(k as nat, |j: int| sparse_byte(vec, tp[j])).push(sparse_byte(vec, tp[k as int])));
                }
                k = k + 1;
            }
            *prev = vec;
            assert(data@ =~= old(data)@ + encode_vector(vec, *old(prev), cross as int));
            return;
        }
        let ghost before = data@;
        data.push(OP_VECTOR_FULL);
        crate::codec::push_all(data, &vec.data);
        *prev = vec;
        assert(data@ =~= old(data)@ + encode_vector(vec, *old(prev), cross as int));
    }

    /// Emit a run of `count` identical vectors.
    fn emit_run(&self, data: &mut Vec<u8>, vec: Vector, count: u32, prev: &mut Vector)
        requires
            vec != *old(prev) ==> count >= 1,
        ensures
            final(data)@ == old(data)@ + encode_run(vec, count as int, *old(prev), self.config.sparse_crossover as int),
            *final(prev) == vec,
    {
        let emitted = if !vec.same(prev) {
            self.emit_vector(data, vec, prev);
            true
        } else {
            false
        };
        let run_count = if emitted { count - 1 } else { count };
        if run_count > 0 {
            data.push(OP_VECTOR_RUN);
            push_u32_le(data, run_count);
        }
        assert(data@ =~= old(data)@ + encode_run(vec, count as int, *old(prev), self.config.sparse_crossover as int));
    }
}

proof fn lemma_count_positive(s: Seq<bool>, p: int)
    requires
        0 <= p < s.len(),
        s[p],
    ensures
        count_true(s) > 0,
    decreases s.len(),
{
    if p < s.len() - 1 {
        lemma_count_positive(s.drop_last(), p);
    }
}


/// Whether a program can be compiled with `cfg`: at most `u32::MAX`
/// vectors (the thermal segment offsets and the count of a run merged from
/// several entries are `u32`, and would overflow past that), and no
/// zero-length run (which only `min_run_length == 0` with a zero repeat
/// count could start).
pub open spec fn compilable(vs: Seq<FvecVector>, cfg: CompilerConfig) -> bool {
    &&& total_repeats(vs) <= u32::MAX
    &&& (cfg.min_run_length > 0 || forall|i: int| 0 <= i < vs.len() ==> (#[trigger] vs[i]).repeat > 0)
}

/// The thermal segments of a program.
pub open spec fn program_segments(vs: Seq<FvecVector>) -> Seq<ThermalSegment> {
    thermal_segments(thermal_stream(vs))
}

/// What compiling `program` with `cfg` gives.
pub open spec fn compile_result(program: FvecProgram, cfg: CompilerConfig, f: FbcFile) -> bool {
    let vs = program.vectors@;
    let segs = program_segments(vs);
    &&& f.header.magic == FBC_MAGIC
    &&& f.header.version == FBC_VERSION
    &&& f.header.pin_count == 160
    &&& f.header.flags == (if segs.len() > 0 { FLAG_THERMAL_PROFILE } else { 0u8 })
    &&& f.header.num_vectors == total_repeats(vs)
    &&& f.header.compressed_size == f.data@.len() as u32
    &&& f.header.vec_clock_hz == program.clock_hz
    &&& f.header._reserved@ == le32_bytes(segs.len() as u32) + seq![0u8, 0u8, 0u8, 0u8]
    &&& f.header.crc32 == crate::crc::crc32(f.crc_bytes())
    &&& f.pin_config.types@ == program.pin_config.types@
    &&& f.data@ == compiled_data(vs, cfg)
}

pub(crate) proof fn lemma_total_repeats_step(vs: Seq<FvecVector>, i: int)
    requires
        0 <= i < vs.len(),
    ensures
        total_repeats(vs.take(i + 1)) == total_repeats(vs.take(i)) + vs[i].repeat,
        total_repeats(vs.take(i)) >= 0,
        total_repeats(vs.take(i + 1)) <= total_repeats(vs),
{
    assert(vs.take(i + 1).drop_last() =~= vs.take(i));
    lemma_total_repeats_mono(vs, i + 1);
    lemma_total_repeats_mono(vs, i);
}

pub(crate) proof fn lemma_total_repeats_mono(vs: Seq<FvecVector>, k: int)
    requires
        0 <= k <= vs.len(),
    ensures
        0 <= total_repeats(vs.take(k)) <= total_repeats(vs),
    decreases vs.len(),
{
    if k < vs.len() {
        assert(vs.drop_last().take(k) =~= vs.take(k));
        lemma_total_repeats_mono(vs.drop_last(), k);
    } else {
        assert(vs.take(k) =~= vs);
        if vs.len() > 0 {
            lemma_total_repeats_mono(vs.drop_last(), vs.len() - 1);
            assert(vs.drop_last().take(vs.len() - 1) =~= vs.drop_last());
        }
    }
}

proof fn lemma_thermal_stream_len(vs: Seq<FvecVector>)
    ensures
        thermal_stream(vs).len() == total_repeats(vs),
    decreases vs.len(),
{
    if vs.len() > 0 {
        lemma_thermal_stream_len(vs.drop_last());
        let e = vs.last();
        let prev = if vs.len() == 1 { zero_bits() } else { vs[vs.len() - 2].vector@ };
        let t = count_true(xor_bits(e.vector@, prev)) as int;
        let a = count_true(e.vector@) as int;
        if e.repeat > 0 {
            lemma_repeat_pair_len((t, a), 1);
            lemma_repeat_pair_len((0, a), (e.repeat - 1) as nat);
        }
    }
}

impl VectorCompiler {
    /// Compile an FVEC program to an FBC file.
    pub fn compile(&self, program: &FvecProgram) -> (r: FbcFile)
        requires
            compilable(program.vectors@, self.config_view()),
        ensures
            compile_result(*program, self.config_view(), r),
    {
        let ghost vs = program.vectors@;
        let ghost cfg = self.config;
        let mut data: Vec<u8> = Vec::new();
        let mut total_vectors: u64 = 0;
        let mut prev_vector = Vector::zero();
        let mut thermal_prev = Vector::zero();
        let mut thermal = ThermalAccum::new();
        let mut pending_run: Option<(Vector, u32)> = None;
        let mut i: usize = 0;
        while i < program.vectors.len()
            invariant
                i <= vs.len(),
                vs == program.vectors@,
                cfg == self.config,
                compilable(vs, cfg),
                data@ == compile_state(vs.take(i as int), cfg).bytes,
                prev_vector == compile_state(vs.take(i as int), cfg).prev,
                pending_matches(pending_run, compile_state(vs.take(i as int), cfg).pending),
                pending_run matches Some((rv, rc)) ==> rc <= total_vectors && rc >= 1,
                total_vectors == total_repeats(vs.take(i as int)),
                thermal.wf(),
                thermal.stream@ == thermal_stream(vs.take(i as int)),
                thermal_prev@ == if i == 0 { zero_bits() } else { vs[i - 1].vector@ },
            decreases program.vectors.len() - i,
        {
            let entry = &program.vectors[i];
            let vec = entry.vector;
            let repeat = entry.repeat;
            proof {
                lemma_total_repeats_step(vs, i as int);
                lemma_thermal_stream_len(vs.take(i as int));
                assert(vs.take(i + 1).drop_last() =~= vs.take(i as int));
                assert(vs.take(i + 1).last() == vs[i as int]);
                if i > 0 {
                    assert(vs.take(i + 1)[i - 1] == vs[i - 1]);
                }
            }
            let diff = vec.xor(&thermal_prev);
            let toggles = diff.popcount();
            let active = vec.popcount();
            if repeat > 0 {
                let ghost s_before = thermal.stream@;
                thermal.add(toggles, active, 1);
                proof {
                    lemma_repeat_pair_len((toggles as int, active as int), 1);
                }
                thermal.add(0, active, repeat - 1);
                proof {
                    let ghost t = toggles as int;
                    let ghost a = active as int;
                    assert(thermal.stream@ =~= s_before + entry_pairs(t, a, repeat as nat));
                }
            } else {
                assert(entry_pairs(toggles as int, active as int, 0) =~= Seq::<(int, int)>::empty());
                assert(thermal.stream@ + entry_pairs(toggles as int, active as int, 0) =~= thermal.stream@);
            }
            thermal_prev = vec;
            let ghost st0 = compile_state(vs.take(i as int), cfg);
            let mut merged = false;
            match pending_run {
                Some((run_vec, run_count)) => {
                    if vec.same(&run_vec) {
                        pending_run = Some((run_vec, run_count + repeat));
                        total_vectors = total_vectors + repeat as u64;
                        merged = true;
                    } else {
                        self.emit_run(&mut data, run_vec, run_count, &mut prev_vector);
                        pending_run = None;
                    }
                },
                None => {},
            }
            if !merged {
                if repeat >= self.config.min_run_length {
                    pending_run = Some((vec, repeat));
                    total_vectors = total_vectors + repeat as u64;
                    proof {
                        if repeat == 0 {
                            assert(vs[i as int].repeat > 0);
                        }
                    }
                } else {
                    let ghost before = data@;
                    let ghost p0 = prev_vector;
                    let mut k: u32 = 0;
                    while k < repeat
                        invariant
                            k <= repeat,
                            data@ == before + encode_repeats(vec, p0, k as nat, cfg.sparse_crossover as int),
                            prev_vector == if k == 0 { p0 } else { vec },
                            cfg == self.config,
                        decreases repeat - k,
                    {
                        self.emit_vector(&mut data, vec, &mut prev_vector);
                        k = k + 1;
                    }
                    total_vectors = total_vectors + repeat as u64;
                }
            }
            i = i + 1;
        }
        let ghost st = compile_state(vs, cfg);
        assert(vs.take(vs.len() as int) =~= vs);
        if let Some((run_vec, run_count)) = pending_run {
            self.emit_run(&mut data, run_vec, run_count, &mut prev_vector);
        }
        assert(data@ == compiled_ops(vs, cfg));
        data.push(OP_END);
        let thermal_segments_v = thermal.finish();
        let profile = ThermalProfile { segments: thermal_segments_v };
        let profile_bytes_v = profile.to_bytes();
        crate::codec::push_all(&mut data, profile_bytes_v.as_slice());
        assert(data@ =~= compiled_data(vs, cfg));
        let seg_count = profile.segments.len() as u32;
        let mut reserved = [0u8; 8];
        let mut seg_bytes: Vec<u8> = Vec::new();
        push_u32_le(&mut seg_bytes, seg_count);
        reserved[0] = seg_bytes[0];
        reserved[1] = seg_bytes[1];
        reserved[2] = seg_bytes[2];
        reserved[3] = seg_bytes[3];
        assert(reserved@ =~= le32_bytes(seg_count) + seq![0u8, 0u8, 0u8, 0u8]);
        let flags = if profile.segments.len() > 0 { FLAG_THERMAL_PROFILE } else { 0 };
        let num_vectors: u32 = if total_vectors > 0xFFFF_FFFF { 0xFFFF_FFFF } else { total_vectors as u32 };
        let compressed_size = data.len() as u32;
        let header = FbcHeader {
            magic: FBC_MAGIC,
            version: FBC_VERSION,
            pin_count: 160,
            flags,
            num_vectors,
            compressed_size,
            vec_clock_hz: program.clock_hz,
            crc32: 0,
            _reserved: reserved,
        };
        let mut fbc = FbcFile {
            header,
            pin_config: PinConfig { types: program.pin_config.types },
            data,
        };
        let crc = fbc.calculate_crc();
        fbc.header.crc32 = crc;
        assert(fbc.header.with_crc(0) == header.with_crc(0));
        fbc
    }
}

/// Compile an FVEC program with the default configuration.
pub fn compile_fvec(program: &FvecProgram) -> (r: FbcFile)
    requires
        compilable(program.vectors@, default_config()),
    ensures
        compile_result(*program, default_config(), r),
{
    VectorCompiler::new().compile(program)
}

} // verus!
