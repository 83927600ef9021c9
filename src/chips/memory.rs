//! The memory chip: proves that a log of byte reads and writes, sorted by
//! address and then timestamp, with no key repeated, is consistent. The gap
//! between consecutive keys is split into three byte limbs, each range
//! checked.

use vstd::prelude::*;
use crate::field::{fe, from_u32, is_canonical, fadd, fsub, fmul, P};
use crate::interaction::{Interaction, VirtualPairCol, is_single_main};
use crate::trace::{Trace, is_next_pow2, next_power_of_two, zero_row, MAX_POW2_ARG};

verus! {

/// Buses of the memory log and of the byte range check.
#[derive(Clone, Debug)]
pub struct MemoryChip {
    pub bus_memory: usize,
    pub bus_range_8: usize,
}

/// Whether an access reads or writes.
#[derive(Clone, Copy, Debug, PartialEq, Eq, Structural)]
pub enum OperationKind {
    Read,
    Write,
}

/// One access to one byte of memory.
#[derive(Clone, Copy, Debug)]
pub struct MemoryOp {
    pub addr: u32,
    pub timestamp: u32,
    pub value: u8,
    pub kind: OperationKind,
}

/// Column positions of the memory layout.
pub const COL_ADDR: usize = 0;
pub const COL_TIMESTAMP: usize = 1;
pub const COL_VALUE: usize = 2;
pub const COL_IS_READ: usize = 3;
pub const COL_IS_WRITE: usize = 4;
pub const COL_ADDR_UNCHANGED: usize = 5;
pub const COL_DIFF_LIMB_LO: usize = 6;
pub const COL_DIFF_LIMB_MD: usize = 7;
pub const COL_DIFF_LIMB_HI: usize = 8;
/// Number of columns.
pub const NUM_MEMORY_COLS: usize = 9;

/// `a - b` modulo `2^32`.
pub open spec fn wrapping_diff(a: int, b: int) -> nat {
    ((a - b) % 0x1_0000_0000) as nat
}

/// The gap between the key of access `i` and the one before it: the time
/// elapsed at the same address, or the addresses skipped, modulo `2^32`.
pub open spec fn key_gap(ops: Seq<MemoryOp>, i: int) -> nat {
    if i == 0 {
        0
    } else if ops[i].addr == ops[i - 1].addr {
        wrapping_diff(ops[i].timestamp as int, ops[i - 1].timestamp as int)
    } else {
        wrapping_diff(ops[i].addr as int, ops[i - 1].addr + 1)
    }
}

/// Column `c` of row `r` of the trace generated for `ops`; rows past them are zero.
pub open spec fn memory_trace_cell(ops: Seq<MemoryOp>, r: int, c: int) -> u32 {
    if r >= ops.len() {
        0
    } else {
        let op = ops[r];
        let gap = key_gap(ops, r);
        if c == 0 {
            fe(op.addr as int) as u32
        } else if c == 1 {
            fe(op.timestamp as int) as u32
        } else if c == 2 {
            op.value as u32
        } else if c == 3 {
            if op.kind == OperationKind::Read { 1 } else { 0 }
        } else if c == 4 {
            if op.kind == OperationKind::Write { 1 } else { 0 }
        } else if c == 5 {
            if r > 0 && op.addr == ops[r - 1].addr { 1 } else { 0 }
        } else if c == 6 {
            (gap % 256) as u32
        } else if c == 7 {
            ((gap / 256) % 256) as u32
        } else {
            ((gap / 65536) % 256) as u32
        }
    }
}

impl MemoryChip {
    /// Appends one row per access.
    pub fn populate_rows_for_ops(trace: &mut Trace, ops: &Vec<MemoryOp>)
        requires
            old(trace).width == NUM_MEMORY_COLS,
            old(trace).height() == 0,
            old(trace).values@.len() == 0,
            ops@.len() * NUM_MEMORY_COLS <= usize::MAX,
        ensures
            final(trace).width == NUM_MEMORY_COLS,
            final(trace).height() == ops@.len(),
            final(trace).values@.len() == final(trace).height() * final(trace).width,
            forall|r: int, c: int| 0 <= r < ops@.len() && 0 <= c < NUM_MEMORY_COLS ==>
                #[trigger] final(trace).cell(r, c) == memory_trace_cell(ops@, r, c),
    {
        let mut i: usize = 0;
        while i < ops.len()
            invariant
                i <= ops@.len(),
                ops@.len() * NUM_MEMORY_COLS <= usize::MAX,
                trace.width == NUM_MEMORY_COLS,
                trace.height() == i,
                trace.values@.len() == trace.height() * trace.width,
                forall|r: int, c: int| 0 <= r < i && 0 <= c < NUM_MEMORY_COLS ==>
                    #[trigger] trace.cell(r, c) == memory_trace_cell(ops@, r, c),
            decreases ops@.len() - i,
        {
            let op = ops[i];
            let mut addr_unchanged: u32 = 0;
            let mut diff: u32 = 0;
            if i > 0 {
                let prev = ops[i - 1];
                if op.addr == prev.addr {
                    addr_unchanged = 1;
                    diff = if op.timestamp >= prev.timestamp {
                        op.timestamp - prev.timestamp
                    } else {
                        (op.timestamp as u64 + 0x1_0000_0000 - prev.timestamp as u64) as u32
                    };
                    proof {
                        let x = op.timestamp - prev.timestamp;
                        if op.timestamp < prev.timestamp {
                            vstd::arithmetic::div_mod::lemma_fundamental_div_mod_converse(x, 0x1_0000_0000, -1, x + 0x1_0000_0000);
                        } else {
                            vstd::arithmetic::div_mod::lemma_small_mod(x as nat, 0x1_0000_0000);
                        }
                    }
                } else {
                    diff = if op.addr > prev.addr {
                        op.addr - prev.addr - 1
                    } else {
                        (op.addr as u64 + 0x1_0000_0000 - prev.addr as u64 - 1) as u32
                    };
                    proof {
                        let x = op.addr - (prev.addr + 1);
                        if op.addr <= prev.addr {
                            vstd::arithmetic::div_mod::lemma_fundamental_div_mod_converse(x, 0x1_0000_0000, -1, x + 0x1_0000_0000);
                        } else {
                            vstd::arithmetic::div_mod::lemma_small_mod(x as nat, 0x1_0000_0000);
                        }
                    }
                }
            }
            assert(diff as nat == key_gap(ops@, i as int));
            let row: Vec<u32> = vec![
                from_u32(op.addr),
                from_u32(op.timestamp),
                op.value as u32,
                match op.kind { OperationKind::Read => 1, OperationKind::Write => 0 },
                match op.kind { OperationKind::Read => 0, OperationKind::Write => 1 },
                addr_unchanged,
                diff % 256,
                (diff / 256) % 256,
                (diff / 65536) % 256,
            ];
            proof {
                assert((i + 1) * NUM_MEMORY_COLS <= ops@.len() * NUM_MEMORY_COLS) by (nonlinear_arith)
                    requires
                        i < ops@.len(),
                ;
                assert(i * NUM_MEMORY_COLS + NUM_MEMORY_COLS == (i + 1) * NUM_MEMORY_COLS) by (nonlinear_arith);
            }
            trace.push_row(&row);
            proof {
                assert forall|c: int| 0 <= c < NUM_MEMORY_COLS implies #[trigger] trace.cell(i as int, c) == memory_trace_cell(ops@, i as int, c) by {
                    assert(row@[c] == memory_trace_cell(ops@, i as int, c));
                }
            }
            i = i + 1;
        }
    }

    /// Generates the trace of `operations`: one row each, then all-zero
    /// padding rows up to the next power of two.
    pub fn generate_trace(operations: Vec<MemoryOp>) -> (t: Trace)
        requires
            operations@.len() <= MAX_POW2_ARG,
            (2 * operations@.len() + 1) * NUM_MEMORY_COLS <= usize::MAX,
        ensures
            t.wf(),
            t.width == NUM_MEMORY_COLS,
            is_next_pow2(t.height(), operations@.len()),
            forall|r: int, c: int| 0 <= r < t.height() && 0 <= c < NUM_MEMORY_COLS ==>
                #[trigger] t.cell(r, c) == memory_trace_cell(operations@, r, c),
    {
        let n = operations.len();
        let num_rows = next_power_of_two(n);
        let mut trace = Trace::empty(NUM_MEMORY_COLS);
        proof {
            assert(n * NUM_MEMORY_COLS <= (2 * n + 1) * NUM_MEMORY_COLS) by (nonlinear_arith);
        }
        Self::populate_rows_for_ops(&mut trace, &operations);
        let zero = zero_row(NUM_MEMORY_COLS);
        let mut r: usize = n;
        while r < num_rows
            invariant
                n == operations@.len(),
                n <= r <= num_rows,
                is_next_pow2(num_rows as nat, n as nat),
                (2 * n + 1) * NUM_MEMORY_COLS <= usize::MAX,
                zero@.len() == NUM_MEMORY_COLS,
                forall|c: int| 0 <= c < NUM_MEMORY_COLS ==> zero@[c] == 0,
                trace.width == NUM_MEMORY_COLS,
                trace.height() == r,
                trace.values@.len() == trace.height() * trace.width,
                forall|rr: int, c: int| 0 <= rr < r && 0 <= c < NUM_MEMORY_COLS ==>
                    #[trigger] trace.cell(rr, c) == memory_trace_cell(operations@, rr, c),
            decreases num_rows - r,
        {
            proof {
                assert((r + 1) * NUM_MEMORY_COLS <= (2 * n + 1) * NUM_MEMORY_COLS) by (nonlinear_arith)
                    requires
                        r < num_rows,
                        num_rows == 1 || num_rows / 2 < n,
                ;
                assert(r * NUM_MEMORY_COLS + NUM_MEMORY_COLS == (r + 1) * NUM_MEMORY_COLS) by (nonlinear_arith);
            }
            trace.push_row(&zero);
            r = r + 1;
        }
        trace
    }
}


/// `row[c]` is 0 or 1 in the field.
pub open spec fn is_bool_at(row: Seq<u32>, c: int) -> bool {
    fe(row[c] * row[c]) == fe(row[c] as int)
}

/// The identities on one row: the flags are boolean and a row is at most one
/// of a read and a write.
pub open spec fn memory_row_constraints(row: Seq<u32>) -> bool {
    &&& is_bool_at(row, COL_IS_READ as int)
    &&& is_bool_at(row, COL_IS_WRITE as int)
    &&& is_bool_at(row, COL_ADDR_UNCHANGED as int)
    &&& fe((row[3] + row[4]) * (row[3] + row[4])) == fe(row[3] + row[4])
}

/// The value the three limbs of a row spell.
pub open spec fn limbs_value(row: Seq<u32>) -> int {
    row[6] + 256 * row[7] + 65536 * row[8]
}

/// The gap the limbs of `next` must spell: the time elapsed at an unchanged
/// address, or the addresses skipped.
pub open spec fn expected_gap(local: Seq<u32>, next: Seq<u32>) -> int {
    next[5] * (next[1] - local[1]) + (1 - next[5]) * (next[0] - local[0] - 1)
}

/// The identities between a row and the next, enforced when the next row is
/// an access: an unchanged address is equal, and the limbs spell the gap.
pub open spec fn memory_transition_constraints(local: Seq<u32>, next: Seq<u32>) -> bool {
    let live = next[3] + next[4];
    &&& fe(live * next[5] * next[0]) == fe(live * next[5] * local[0])
    &&& fe(live * limbs_value(next)) == fe(live * expected_gap(local, next))
}

/// The keys of the log strictly increase, ordered by address then timestamp.
pub open spec fn sorted_unique(ops: Seq<MemoryOp>) -> bool {
    forall|i: int| 0 < i < ops.len() ==> #[trigger] ops[i].addr > ops[i - 1].addr || (ops[i].addr
        == ops[i - 1].addr && ops[i].timestamp > ops[i - 1].timestamp)
}

/// Addresses and timestamps lie below `2^30`, and consecutive keys are less
/// than `2^24` apart.
pub open spec fn keys_in_range(ops: Seq<MemoryOp>) -> bool {
    &&& forall|i: int| 0 <= i < ops.len() ==> #[trigger] ops[i].addr < 0x4000_0000 && ops[i].timestamp < 0x4000_0000
    &&& forall|i: int| 0 <= i < ops.len() ==> #[trigger] key_gap(ops, i) < 0x100_0000
}

/// Three bytes spell any value below `2^24`.
proof fn lemma_limbs(g: u32)
    requires
        g < 0x100_0000,
    ensures
        g % 256 + 256 * ((g / 256) % 256) + 65536 * ((g / 65536) % 256) == g,
        g % 256 < 256,
        (g / 256) % 256 < 256,
        (g / 65536) % 256 < 256,
{
    assert(g < 0x100_0000 ==> g % 256 + 256 * ((g / 256) % 256) + 65536 * ((g / 65536) % 256) == g) by (bit_vector);
}

/// On a log sorted by key without repeats, every row of the generated trace
/// satisfies the row identities, every pair of consecutive rows the
/// transition identities, and every gap limb passes the byte range check.
pub proof fn lemma_memory_sorted_log(ops: Seq<MemoryOp>, t: Trace)
    requires
        sorted_unique(ops),
        keys_in_range(ops),
        t.width == NUM_MEMORY_COLS,
        forall|r: int, c: int| 0 <= r < t.height() && 0 <= c < NUM_MEMORY_COLS ==>
            #[trigger] t.cell(r, c) == memory_trace_cell(ops, r, c),
    ensures
        forall|r: int| 0 <= r < t.height() ==> memory_row_constraints(#[trigger] t.row(r)),
        forall|r: int| 0 <= r < t.height() - 1 ==> memory_transition_constraints(#[trigger] t.row(r), t.row(r + 1)),
        forall|r: int, c: int| 0 <= r < t.height() && COL_DIFF_LIMB_LO <= c <= COL_DIFF_LIMB_HI ==> #[trigger] t.cell(r, c) < 256,
{
    assert forall|r: int| 0 <= r < t.height() implies memory_row_constraints(#[trigger] t.row(r)) by {
        let row = t.row(r);
        assert(row[3] == t.cell(r, 3) && row[4] == t.cell(r, 4) && row[5] == t.cell(r, 5));
        assert(row[3] == 0 || row[3] == 1);
        assert(row[4] == 0 || row[4] == 1);
        assert(row[5] == 0 || row[5] == 1);
        assert(row[3] + row[4] == 0 || row[3] + row[4] == 1);
        assert(row[3] * row[3] == row[3] as int) by (nonlinear_arith)
            requires
                row[3] == 0 || row[3] == 1,
        ;
        assert(row[4] * row[4] == row[4] as int) by (nonlinear_arith)
            requires
                row[4] == 0 || row[4] == 1,
        ;
        assert(row[5] * row[5] == row[5] as int) by (nonlinear_arith)
            requires
                row[5] == 0 || row[5] == 1,
        ;
        assert((row[3] + row[4]) * (row[3] + row[4]) == row[3] + row[4]) by (nonlinear_arith)
            requires
                row[3] + row[4] == 0 || row[3] + row[4] == 1,
        ;
    }
    assert forall|r: int, c: int| 0 <= r < t.height() && COL_DIFF_LIMB_LO <= c <= COL_DIFF_LIMB_HI implies #[trigger] t.cell(r, c) < 256 by {
        if r < ops.len() {
            let g = key_gap(ops, r);
            lemma_limbs(g as u32);
        }
    }
    assert forall|r: int| 0 <= r < t.height() - 1 implies memory_transition_constraints(#[trigger] t.row(r), t.row(r + 1)) by {
        let local = t.row(r);
        let next = t.row(r + 1);
        let live = next[3] + next[4];
        if r + 1 < ops.len() {
            let i = r + 1;
            let g = key_gap(ops, i);
            lemma_limbs(g as u32);
            assert(next[6] == t.cell(i, 6) && next[7] == t.cell(i, 7) && next[8] == t.cell(i, 8));
            assert(limbs_value(next) == g);
            assert(next[0] == t.cell(i, 0) && next[1] == t.cell(i, 1) && next[5] == t.cell(i, 5));
            assert(local[0] == t.cell(r, 0) && local[1] == t.cell(r, 1));
            crate::field::lemma_fe_small(ops[i].addr as int);
            crate::field::lemma_fe_small(ops[r].addr as int);
            crate::field::lemma_fe_small(ops[i].timestamp as int);
            crate::field::lemma_fe_small(ops[r].timestamp as int);
            assert(ops[i].addr > ops[r].addr || (ops[i].addr == ops[r].addr && ops[i].timestamp > ops[r].timestamp));
            if ops[i].addr == ops[r].addr {
                vstd::arithmetic::div_mod::lemma_small_mod((ops[i].timestamp - ops[r].timestamp) as nat, 0x1_0000_0000);
                assert(g == ops[i].timestamp - ops[r].timestamp);
                assert(next[5] == 1);
                assert(expected_gap(local, next) == next[1] - local[1]) by (nonlinear_arith)
                    requires
                        next[5] == 1,
                ;
                assert(expected_gap(local, next) == g);
                assert(live * next[5] * next[0] == live * next[5] * local[0]) by (nonlinear_arith)
                    requires
                        next[0] == local[0],
                ;
            } else {
                vstd::arithmetic::div_mod::lemma_small_mod((ops[i].addr - ops[r].addr - 1) as nat, 0x1_0000_0000);
                assert(g == ops[i].addr - ops[r].addr - 1);
                assert(next[5] == 0);
                assert(expected_gap(local, next) == next[0] - local[0] - 1) by (nonlinear_arith)
                    requires
                        next[5] == 0,
                ;
                assert(expected_gap(local, next) == g);
                assert(live * next[5] * next[0] == 0 && live * next[5] * local[0] == 0) by (nonlinear_arith)
                    requires
                        next[5] == 0,
                ;
            }
        } else {
            assert(next[3] == t.cell(r + 1, 3) && next[4] == t.cell(r + 1, 4));
            assert(live == 0);
            let (a, b, c, d, e) = (next[5] as int, next[0] as int, local[0] as int, limbs_value(next), expected_gap(local, next));
            assert(live * a * b == 0 && live * a * c == 0 && live * d == 0 && live * e == 0) by (nonlinear_arith)
                requires
                    live == 0,
            ;
        }
    }
}

/// A key that does not increase cannot be spelled by byte limbs: when the
/// next row accesses the same address at an earlier time, or an address not
/// above the current one, no limbs below 256 satisfy the gap identity.
pub proof fn lemma_memory_out_of_order(local: Seq<u32>, next: Seq<u32>)
    requires
        local.len() == NUM_MEMORY_COLS,
        next.len() == NUM_MEMORY_COLS,
        next[3] + next[4] == 1,
        next[5] == 0 || next[5] == 1,
        local[0] < 0x4000_0000 && local[1] < 0x4000_0000,
        next[0] < 0x4000_0000 && next[1] < 0x4000_0000,
        next[6] < 256 && next[7] < 256 && next[8] < 256,
        next[5] == 1 ==> next[1] < local[1],
        next[5] == 0 ==> next[0] <= local[0],
    ensures
        !memory_transition_constraints(local, next),
{
    let x = expected_gap(local, next);
    let (a, d1, d2) = (next[5] as int, next[1] - local[1], next[0] - local[0] - 1);
    assert(x == a * d1 + (1 - a) * d2);
    if a == 1 {
        assert(a * d1 + (1 - a) * d2 == d1) by (nonlinear_arith)
            requires
                a == 1,
        ;
    } else {
        assert(a * d1 + (1 - a) * d2 == d2) by (nonlinear_arith)
            requires
                a == 0,
        ;
    }
    assert(-0x4000_0000 <= x < 0);
    assert(next[3] + next[4] == 1);
    vstd::arithmetic::div_mod::lemma_fundamental_div_mod_converse(x, P as int, -1, x + P);
    crate::field::lemma_fe_small(limbs_value(next));
    assert(fe(x) == x + P);
}

/// In the generated table, a key that does not increase (a strictly smaller
/// address, or the same address at a strictly earlier time) breaks the gap
/// identity between its row and the one before: no byte limbs spell it.
pub proof fn lemma_memory_trace_out_of_order(ops: Seq<MemoryOp>, t: Trace, i: int)
    requires
        0 < i < ops.len(),
        i < t.height(),
        t.width == NUM_MEMORY_COLS,
        forall|r: int, c: int| 0 <= r < t.height() && 0 <= c < NUM_MEMORY_COLS ==>
            #[trigger] t.cell(r, c) == memory_trace_cell(ops, r, c),
        ops[i].addr < 0x4000_0000 && ops[i].timestamp < 0x4000_0000,
        ops[i - 1].addr < 0x4000_0000 && ops[i - 1].timestamp < 0x4000_0000,
        ops[i].addr < ops[i - 1].addr || (ops[i].addr == ops[i - 1].addr && ops[i].timestamp < ops[i - 1].timestamp),
    ensures
        !memory_transition_constraints(t.row(i - 1), t.row(i)),
{
    let local = t.row(i - 1);
    let next = t.row(i);
    assert forall|c: int| 0 <= c < NUM_MEMORY_COLS implies local[c] == memory_trace_cell(ops, i - 1, c) && next[c] == memory_trace_cell(ops, i, c) by {
        assert(t.cell(i - 1, c) == memory_trace_cell(ops, i - 1, c));
        assert(t.cell(i, c) == memory_trace_cell(ops, i, c));
    }
    crate::field::lemma_fe_small(ops[i].addr as int);
    crate::field::lemma_fe_small(ops[i].timestamp as int);
    crate::field::lemma_fe_small(ops[i - 1].addr as int);
    crate::field::lemma_fe_small(ops[i - 1].timestamp as int);
    let g = key_gap(ops, i);
    assert(next[6] < 256 && next[7] < 256 && next[8] < 256);
    lemma_memory_out_of_order(local, next);
}

/// Access `op` writes to `addr`.
pub open spec fn writes_to(op: MemoryOp, addr: u32) -> bool {
    op.kind == OperationKind::Write && op.addr == addr
}

/// Access `j` is the latest write to the address of access `i` before it,
/// and wrote the value `i` reads.
pub open spec fn latest_write_for(ops: Seq<MemoryOp>, i: int, j: int) -> bool {
    &&& 0 <= j < i
    &&& writes_to(ops[j], ops[i].addr)
    &&& ops[j].value == ops[i].value
    &&& forall|k: int| j < k < i ==> !writes_to(#[trigger] ops[k], ops[i].addr)
}

/// Each read returns the value of the latest earlier write to its address.
pub open spec fn reads_see_writes(ops: Seq<MemoryOp>) -> bool {
    forall|i: int| 0 <= i < ops.len() && (#[trigger] ops[i]).kind == OperationKind::Read ==>
        exists|j: int| #[trigger] latest_write_for(ops, i, j)
}

/// Row `j` is flagged as a write to the address of row `i`, holds the value
/// row `i` holds, and no row between them is flagged as a write to it.
pub open spec fn latest_write_row(ops: Seq<MemoryOp>, t: Trace, i: int, j: int) -> bool {
    &&& 0 <= j < i
    &&& t.cell(j, COL_IS_WRITE as int) == 1
    &&& t.cell(j, COL_ADDR as int) == t.cell(i, COL_ADDR as int)
    &&& t.cell(j, COL_VALUE as int) == t.cell(i, COL_VALUE as int)
    &&& forall|k: int| j < k < i ==> !(#[trigger] t.cell(k, COL_IS_WRITE as int) == 1 && ops[k].addr == ops[i].addr)
}

/// On a log in which each read returns the latest earlier write to its
/// address, every row flagged as a read holds the value of the latest earlier
/// row flagged as a write at the same address.
pub proof fn lemma_memory_reads_see_writes(ops: Seq<MemoryOp>, t: Trace)
    requires
        reads_see_writes(ops),
        t.width == NUM_MEMORY_COLS,
        ops.len() <= t.height(),
        forall|r: int, c: int| 0 <= r < t.height() && 0 <= c < NUM_MEMORY_COLS ==>
            #[trigger] t.cell(r, c) == memory_trace_cell(ops, r, c),
    ensures
        forall|i: int| 0 <= i < ops.len() && #[trigger] t.cell(i, COL_IS_READ as int) == 1 ==>
            exists|j: int| latest_write_row(ops, t, i, j),
{
    assert forall|i: int| 0 <= i < ops.len() && #[trigger] t.cell(i, COL_IS_READ as int) == 1 implies
        exists|j: int| latest_write_row(ops, t, i, j) by {
        assert(t.cell(i, 3) == memory_trace_cell(ops, i, 3));
        assert(ops[i].kind == OperationKind::Read);
        let j = choose|j: int| latest_write_for(ops, i, j);
        assert(latest_write_for(ops, i, j));
        assert(t.cell(j, 4) == memory_trace_cell(ops, j, 4));
        assert(t.cell(j, 0) == memory_trace_cell(ops, j, 0));
        assert(t.cell(i, 0) == memory_trace_cell(ops, i, 0));
        assert(t.cell(j, 2) == memory_trace_cell(ops, j, 2));
        assert(t.cell(i, 2) == memory_trace_cell(ops, i, 2));
        assert forall|k: int| j < k < i implies !(#[trigger] t.cell(k, COL_IS_WRITE as int) == 1 && ops[k].addr == ops[i].addr) by {
            assert(t.cell(k, 4) == memory_trace_cell(ops, k, 4));
            assert(!writes_to(ops[k], ops[i].addr));
        }
        assert(latest_write_row(ops, t, i, j));
    }
}

impl MemoryChip {
    /// Receives reads on the memory bus.
    pub fn receives_from_indices(&self, preprocessed_indices: &Vec<usize>, main_indices: &Vec<usize>) -> (r: Vec<Interaction>)
        requires
            main_indices@.len() == NUM_MEMORY_COLS,
        ensures
            r@.len() == 1,
            r@[0].argument_index == self.bus_memory,
            is_single_main(r@[0].count, main_indices@[COL_IS_READ as int]),
            r@[0].fields@.len() == 3,
            is_single_main(r@[0].fields@[0], main_indices@[COL_TIMESTAMP as int]),
            is_single_main(r@[0].fields@[1], main_indices@[COL_ADDR as int]),
            is_single_main(r@[0].fields@[2], main_indices@[COL_VALUE as int]),
    {
        let fields = vec![
            VirtualPairCol::single_main(main_indices[COL_TIMESTAMP]),
            VirtualPairCol::single_main(main_indices[COL_ADDR]),
            VirtualPairCol::single_main(main_indices[COL_VALUE]),
        ];
        let count = VirtualPairCol::single_main(main_indices[COL_IS_READ]);
        vec![Interaction { fields, count, argument_index: self.bus_memory }]
    }

    /// Sends writes on the memory bus, and each gap limb of every access on
    /// the range-check bus.
    pub fn sends_from_indices(&self, preprocessed_indices: &Vec<usize>, main_indices: &Vec<usize>) -> (r: Vec<Interaction>)
        requires
            main_indices@.len() == NUM_MEMORY_COLS,
        ensures
            r@.len() == 4,
            r@[0].argument_index == self.bus_memory,
            is_single_main(r@[0].count, main_indices@[COL_IS_WRITE as int]),
            r@[0].fields@.len() == 3,
            is_single_main(r@[0].fields@[0], main_indices@[COL_TIMESTAMP as int]),
            is_single_main(r@[0].fields@[1], main_indices@[COL_ADDR as int]),
            is_single_main(r@[0].fields@[2], main_indices@[COL_VALUE as int]),
            forall|k: int| 1 <= k < 4 ==> (#[trigger] r@[k]).argument_index == self.bus_range_8
                && crate::interaction::is_sum_of_two(r@[k].count, main_indices@[COL_IS_READ as int], main_indices@[COL_IS_WRITE as int])
                && r@[k].fields@.len() == 1
                && is_single_main(r@[k].fields@[0], main_indices@[COL_DIFF_LIMB_LO + k - 1]),
    {
        let fields = vec![
            VirtualPairCol::single_main(main_indices[COL_TIMESTAMP]),
            VirtualPairCol::single_main(main_indices[COL_ADDR]),
            VirtualPairCol::single_main(main_indices[COL_VALUE]),
        ];
        let count = VirtualPairCol::single_main(main_indices[COL_IS_WRITE]);
        let mut r = vec![Interaction { fields, count, argument_index: self.bus_memory }];
        let mut k: usize = 0;
        while k < 3
            invariant
                k <= 3,
                main_indices@.len() == NUM_MEMORY_COLS,
                r@.len() == 1 + k,
                r@[0].argument_index == self.bus_memory,
                is_single_main(r@[0].count, main_indices@[COL_IS_WRITE as int]),
                r@[0].fields@.len() == 3,
                is_single_main(r@[0].fields@[0], main_indices@[COL_TIMESTAMP as int]),
                is_single_main(r@[0].fields@[1], main_indices@[COL_ADDR as int]),
                is_single_main(r@[0].fields@[2], main_indices@[COL_VALUE as int]),
                forall|j: int| 1 <= j < 1 + k ==> (#[trigger] r@[j]).argument_index == self.bus_range_8
                    && crate::interaction::is_sum_of_two(r@[j].count, main_indices@[COL_IS_READ as int], main_indices@[COL_IS_WRITE as int])
                    && r@[j].fields@.len() == 1
                    && is_single_main(r@[j].fields@[0], main_indices@[COL_DIFF_LIMB_LO + j - 1]),
            decreases 3 - k,
        {
            let f = VirtualPairCol::single_main(main_indices[COL_DIFF_LIMB_LO + k]);
            let count = crate::interaction::sum_of_two(main_indices[COL_IS_READ], main_indices[COL_IS_WRITE]);
            r.push(Interaction { fields: vec![f], count, argument_index: self.bus_range_8 });
            k = k + 1;
        }
        r
    }
}

impl MemoryChip {
    /// The interactions received, over the chip's own columns.
    pub fn receives(&self) -> (r: Vec<Interaction>)
        ensures
            r@.len() == 1,
            r@[0].argument_index == self.bus_memory,
            is_single_main(r@[0].count, crate::interaction::identity_seq(NUM_MEMORY_COLS as int)[COL_IS_READ as int]),
            r@[0].fields@.len() == 3,
            is_single_main(r@[0].fields@[0], crate::interaction::identity_seq(NUM_MEMORY_COLS as int)[COL_TIMESTAMP as int]),
            is_single_main(r@[0].fields@[1], crate::interaction::identity_seq(NUM_MEMORY_COLS as int)[COL_ADDR as int]),
            is_single_main(r@[0].fields@[2], crate::interaction::identity_seq(NUM_MEMORY_COLS as int)[COL_VALUE as int]),
    {
        let idx = crate::interaction::identity_indices(NUM_MEMORY_COLS);
        self.receives_from_indices(&Vec::new(), &idx)
    }

    /// The interactions sent, over the chip's own columns.
    pub fn sends(&self) -> (r: Vec<Interaction>)
        ensures
            r@.len() == 4,
            r@[0].argument_index == self.bus_memory,
            is_single_main(r@[0].count, crate::interaction::identity_seq(NUM_MEMORY_COLS as int)[COL_IS_WRITE as int]),
            r@[0].fields@.len() == 3,
            is_single_main(r@[0].fields@[0], crate::interaction::identity_seq(NUM_MEMORY_COLS as int)[COL_TIMESTAMP as int]),
            is_single_main(r@[0].fields@[1], crate::interaction::identity_seq(NUM_MEMORY_COLS as int)[COL_ADDR as int]),
            is_single_main(r@[0].fields@[2], crate::interaction::identity_seq(NUM_MEMORY_COLS as int)[COL_VALUE as int]),
            forall|k: int| 1 <= k < 4 ==> (#[trigger] r@[k]).argument_index == self.bus_range_8
                && crate::interaction::is_sum_of_two(r@[k].count, crate::interaction::identity_seq(NUM_MEMORY_COLS as int)[COL_IS_READ as int], crate::interaction::identity_seq(NUM_MEMORY_COLS as int)[COL_IS_WRITE as int])
                && r@[k].fields@.len() == 1
                && is_single_main(r@[k].fields@[0], crate::interaction::identity_seq(NUM_MEMORY_COLS as int)[COL_DIFF_LIMB_LO + k - 1]),
    {
        let idx = crate::interaction::identity_indices(NUM_MEMORY_COLS);
        self.sends_from_indices(&Vec::new(), &idx)
    }
}


/// `fe(a * b)` from reduced factors.
proof fn lemma_fe_mul(a: int, b: int)
    ensures
        fe(fe(a) * fe(b)) == fe(a * b),
{
    crate::interaction::lemma_fe_mul_reduced(a, b);
}

/// `fe(a + b)` from reduced summands.
proof fn lemma_fe_add(a: int, b: int)
    ensures
        fe(fe(a) + fe(b)) == fe(a + b),
{
    crate::interaction::lemma_fe_add_reduced(a, b);
}

/// `fe(a - b)` from reduced operands.
proof fn lemma_fe_sub(a: int, b: int)
    ensures
        fe(fe(a) - fe(b)) == fe(a - b),
{
    vstd::arithmetic::div_mod::lemma_sub_mod_noop(a, b, P as int);
}

impl MemoryChip {
    /// Evaluates the identities of one row of canonical field elements.
    pub fn eval_row(&self, local: &Vec<u32>) -> (ok: bool)
        requires
            local@.len() == NUM_MEMORY_COLS,
            forall|k: int| 0 <= k < local@.len() ==> is_canonical(#[trigger] local@[k] as int),
        ensures
            ok == memory_row_constraints(local@),
    {
        let r = local[COL_IS_READ];
        let w = local[COL_IS_WRITE];
        let a = local[COL_ADDR_UNCHANGED];
        let s = fadd(r, w);
        proof {
            crate::field::lemma_fe_small(r as int);
            crate::field::lemma_fe_small(w as int);
            crate::field::lemma_fe_small(a as int);
            lemma_fe_mul(r as int, r as int);
            lemma_fe_mul(w as int, w as int);
            lemma_fe_mul(a as int, a as int);
            lemma_fe_mul(r + w, r + w);
            crate::field::lemma_fe_small(s as int);
        }
        fmul(r, r) == r && fmul(w, w) == w && fmul(a, a) == a && fmul(s, s) == s
    }

    /// Evaluates the identities between a row and the next, both of
    /// canonical field elements.
    pub fn eval_transition(&self, local: &Vec<u32>, next: &Vec<u32>) -> (ok: bool)
        requires
            local@.len() == NUM_MEMORY_COLS,
            next@.len() == NUM_MEMORY_COLS,
            forall|k: int| 0 <= k < local@.len() ==> is_canonical(#[trigger] local@[k] as int),
            forall|k: int| 0 <= k < next@.len() ==> is_canonical(#[trigger] next@[k] as int),
        ensures
            ok == memory_transition_constraints(local@, next@),
    {
        let ghost (l, n) = (local@, next@);
        let live = fadd(next[COL_IS_READ], next[COL_IS_WRITE]);
        let au = next[COL_ADDR_UNCHANGED];
        let gate = fmul(live, au);
        let lhs1 = fmul(gate, next[COL_ADDR]);
        let rhs1 = fmul(gate, local[COL_ADDR]);
        let limbs = fadd(fadd(next[COL_DIFF_LIMB_LO], fmul(256, next[COL_DIFF_LIMB_MD])), fmul(65536, next[COL_DIFF_LIMB_HI]));
        let dt = fsub(next[COL_TIMESTAMP], local[COL_TIMESTAMP]);
        let da = fsub(fsub(next[COL_ADDR], local[COL_ADDR]), 1);
        let gap = fadd(fmul(au, dt), fmul(fsub(1, au), da));
        proof {
            let lv = n[3] + n[4];
            let x = n[6] + 256 * n[7];
            let y = x + 65536 * n[8];
            assert(forall|k: int| 0 <= k < 9 ==> is_canonical(#[trigger] l[k] as int) && is_canonical(n[k] as int));
            assert(fe(n[5] as int) == n[5]) by { crate::field::lemma_fe_small(n[5] as int); }
            assert(fe(n[0] as int) == n[0]) by { crate::field::lemma_fe_small(n[0] as int); }
            assert(fe(l[0] as int) == l[0]) by { crate::field::lemma_fe_small(l[0] as int); }
            assert(live as int == fe(lv));
            assert(gate as int == fe(lv * n[5])) by {
                lemma_fe_mul(lv, n[5] as int);
            }
            assert(lhs1 as int == fe(lv * n[5] * n[0])) by {
                lemma_fe_mul(lv * n[5], n[0] as int);
            }
            assert(rhs1 as int == fe(lv * n[5] * l[0])) by {
                lemma_fe_mul(lv * n[5], l[0] as int);
            }
            assert(limbs as int == fe(y)) by {
                crate::field::lemma_fe_small(256);
                crate::field::lemma_fe_small(65536);
                crate::field::lemma_fe_small(n[6] as int);
                crate::field::lemma_fe_small(n[7] as int);
                crate::field::lemma_fe_small(n[8] as int);
                lemma_fe_mul(256, n[7] as int);
                lemma_fe_add(n[6] as int, 256 * n[7]);
                lemma_fe_mul(65536, n[8] as int);
                lemma_fe_add(x, 65536 * n[8]);
            }
            assert(dt as int == fe(n[1] - l[1]));
            assert(da as int == fe(n[0] - l[0] - 1)) by {
                crate::field::lemma_fe_small(1);
                lemma_fe_sub(n[0] - l[0], 1);
            }
            assert(gap as int == fe(expected_gap(l, n))) by {
                crate::field::lemma_fe_small(1);
                lemma_fe_mul(n[5] as int, n[1] - l[1]);
                lemma_fe_mul(1 - n[5], n[0] - l[0] - 1);
                lemma_fe_add(n[5] * (n[1] - l[1]), (1 - n[5]) * (n[0] - l[0] - 1));
            }
            assert(fe(live * limbs) == fe(lv * y)) by {
                lemma_fe_mul(lv, y);
            }
            assert(fe(live * gap) == fe(lv * expected_gap(l, n))) by {
                lemma_fe_mul(lv, expected_gap(l, n));
            }
        }
        lhs1 == rhs1 && fmul(live, limbs) == fmul(live, gap)
    }
}


/// Column positions of the memory layout.
#[derive(Clone, Copy, Debug)]
pub struct MemoryCols {
    pub addr: usize,
    pub timestamp: usize,
    pub value: usize,
    pub is_read: usize,
    pub is_write: usize,
    pub addr_unchanged: usize,
    /// The gap to the previous key, in three byte limbs.
    pub diff_limb_lo: usize,
    pub diff_limb_md: usize,
    pub diff_limb_hi: usize,
}

impl MemoryCols {
    /// The layout rebased onto `indices`.
    pub fn from_slice(indices: &Vec<usize>) -> (r: Self)
        requires
            indices@.len() == NUM_MEMORY_COLS,
        ensures
            r.addr == indices@[0] && r.timestamp == indices@[1] && r.value == indices@[2],
            r.is_read == indices@[3] && r.is_write == indices@[4] && r.addr_unchanged == indices@[5],
            r.diff_limb_lo == indices@[6] && r.diff_limb_md == indices@[7] && r.diff_limb_hi == indices@[8],
    {
        MemoryCols {
            addr: indices[0],
            timestamp: indices[1],
            value: indices[2],
            is_read: indices[3],
            is_write: indices[4],
            addr_unchanged: indices[5],
            diff_limb_lo: indices[6],
            diff_limb_md: indices[7],
            diff_limb_hi: indices[8],
        }
    }

    /// The canonical layout, at offset zero.
    pub fn col_map() -> (r: Self)
        ensures
            r.addr == 0 && r.timestamp == 1 && r.value == 2 && r.is_read == 3 && r.is_write == 4,
            r.addr_unchanged == 5 && r.diff_limb_lo == 6 && r.diff_limb_md == 7 && r.diff_limb_hi == 8,
    {
        Self::from_slice(&crate::interaction::identity_indices(NUM_MEMORY_COLS))
    }
}

} // verus!
