//! Statistics of a compressed vector stream: how often each opcode is
//! used.

use vstd::prelude::*;
use crate::vector::format::{FbcFile, OP_VECTOR_FULL, OP_VECTOR_RUN, OP_VECTOR_SPARSE, OP_VECTOR_XOR, VECTOR_BYTES};

verus! {

/// How many bytes the instruction at `i` takes: one for the single-byte
/// opcodes and unknown bytes, a vector for FULL and XOR, a count and that
/// many indices for SPARSE (one when the count is missing), a repeat
/// count for RUN.
pub open spec fn op_size(data: Seq<u8>, i: int) -> int {
    let op = data[i];
    if op == OP_VECTOR_FULL || op == OP_VECTOR_XOR {
        1 + VECTOR_BYTES
    } else if op == OP_VECTOR_SPARSE {
        if i + 1 < data.len() {
            2 + data[i + 1]
        } else {
            1
        }
    } else if op == OP_VECTOR_RUN {
        5
    } else {
        1
    }
}

/// How often each of the eight opcodes starts an instruction in the
/// stream from `i` on, stepping over each instruction's payload.
pub open spec fn op_counts_from(data: Seq<u8>, i: int) -> Seq<int>
    decreases (if 0 <= i <= data.len() { data.len() - i } else { 0 }),
{
    if i < 0 || i >= data.len() {
        Seq::new(8, |k: int| 0)
    } else {
        let rest = op_counts_from(data, i + op_size(data, i));
        if data[i] < 8 {
            rest.update(data[i] as int, rest[data[i] as int] + 1)
        } else {
            rest
        }
    }
}

proof fn lemma_op_counts_bound(data: Seq<u8>, i: int)
    requires
        0 <= i,
    ensures
        op_counts_from(data, i).len() == 8,
        forall|k: int| 0 <= k < 8 ==> 0 <= #[trigger] op_counts_from(data, i)[k] <= if i < data.len() { data.len() - i } else { 0 },
    decreases (if 0 <= i <= data.len() { data.len() - i } else { 0 }),
{
    if i < data.len() {
        lemma_op_counts_bound(data, i + op_size(data, i));
    }
}

impl FbcFile {
    /// How often each opcode occurs in the compressed data, walking it
    /// instruction by instruction.
    pub fn opcode_counts(&self) -> (r: [usize; 8])
        ensures
            forall|k: int| 0 <= k < 8 ==> r@[k] == op_counts_from(self.data@, 0)[k],
    {
        let data = self.data.as_slice();
        let n = data.len();
        let mut counts = [0usize; 8];
        let mut i: usize = 0;
        proof {
            lemma_op_counts_bound(data@, 0);
        }
        while i < n
            invariant
                n == data@.len(),
                data@ == self.data@,
                forall|k: int| 0 <= k < 8 ==> #[trigger] op_counts_from(data@, 0)[k] == counts@[k] + op_counts_from(data@, i as int)[k],
                forall|k: int| 0 <= k < 8 ==> counts@[k] <= i,
            decreases n - i,
        {
            proof {
                lemma_op_counts_bound(data@, i as int);
            }
            let op = data[i];
            let step: usize = if op == OP_VECTOR_FULL || op == OP_VECTOR_XOR {
                1 + VECTOR_BYTES
            } else if op == OP_VECTOR_SPARSE {
                if i + 1 < n {
                    2 + data[i + 1] as usize
                } else {
                    1
                }
            } else if op == OP_VECTOR_RUN {
                5
            } else {
                1
            };
            assert(step == op_size(data@, i as int));
            let ghost before = counts@;
            if op < 8 {
                counts.set(op as usize, counts[op as usize] + 1);
            }
            proof {
                lemma_op_counts_bound(data@, i + step);
                assert forall|k: int| 0 <= k < 8 implies #[trigger] op_counts_from(data@, 0)[k] == counts@[k]
                    + op_counts_from(data@, i + step)[k] by {
                    assert(op_counts_from(data@, i as int)[k] == op_counts_from(data@, i + step)[k] + (if op < 8 && k == op as int { 1int } else { 0 }));
                }
            }
            if n - i <= step {
                i = n;
                proof {
                    assert forall|k: int| 0 <= k < 8 implies #[trigger] op_counts_from(data@, 0)[k] == counts@[k]
                        + op_counts_from(data@, i as int)[k] by {
                        assert(op_counts_from(data@, i + step)[k] == 0);
                    }
                }
            } else {
                i = i + step;
            }
        }
        counts
    }
}


} // verus!
