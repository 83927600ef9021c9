//! The Keccak permutation chip: embeds the fixed 24-row-per-call Keccak-f
//! core and flags its real calls, their first and last rounds.

use vstd::prelude::*;
use p3_field::PrimeField32;
use crate::field::{fe, is_canonical, fmul};
use crate::interaction::{Interaction, VirtualPairCol, is_single_main};
use crate::trace::{Trace, is_next_pow2, next_power_of_two, MAX_POW2_ARG};

verus! {

/// Number of rounds, hence of rows, of one permutation.
pub const NUM_ROUNDS: usize = 24;
/// Number of columns of the embedded permutation core.
pub const NUM_KECCAK_COLS: usize = 2633;
/// First of the core's 100 preimage limbs, ordered by `y`, `x`, limb.
pub const COL_PREIMAGE: usize = 25;
/// First of the core's limbs of `A''`, ordered by `y`, `x`, limb.
pub const COL_A_PRIME_PRIME: usize = 2465;
/// First of the core's four limbs of `A'''[0][0]`.
pub const COL_A_PRIME_PRIME_PRIME_0_0_LIMBS: usize = 2629;
/// Column of the flag of real permutations.
pub const COL_IS_REAL: usize = 2633;
/// Column of the flag of the first round of a real permutation.
pub const COL_IS_REAL_INPUT: usize = 2634;
/// Column of the flag of the last round of a real permutation.
pub const COL_IS_REAL_OUTPUT: usize = 2635;
/// Number of columns.
pub const NUM_KECCAK_PERMUTE_COLS: usize = 2636;

/// Buses of the permutation's preimages and images.
#[derive(Clone, Debug)]
pub struct KeccakPermuteChip {
    pub bus_input: usize,
    pub bus_output: usize,
}

/// One call of the permutation, on 25 lanes.
#[derive(Clone, Copy, Debug)]
pub struct KeccakPermuteOp {
    pub input: [u64; 25],
}

/// The rows of the permutation core for the given calls, flattened row by
/// row, padded with calls on the zero state.
pub uninterp spec fn keccak_core_trace(inputs: Seq<[u64; 25]>) -> Seq<u32>;

/// Relies on `p3_keccak_air::generate_trace_rows` over BabyBear: one block of
/// 24 rows of `NUM_KECCAK_COLS` canonical elements per call, padded to the
/// next power of two rows.
#[verifier::external_body]
fn keccak_core_rows(inputs: &Vec<[u64; 25]>) -> (r: Vec<u32>)
    requires
        inputs@.len() * NUM_ROUNDS <= MAX_POW2_ARG,
    ensures
        r@ == keccak_core_trace(inputs@),
        r@.len() % (NUM_KECCAK_COLS as nat) == 0,
        is_next_pow2((r@.len() / NUM_KECCAK_COLS as nat) as nat, (inputs@.len() * NUM_ROUNDS) as nat),
        forall|i: int| 0 <= i < r@.len() ==> is_canonical(#[trigger] r@[i] as int),
{
    let m = p3_keccak_air::generate_trace_rows::<p3_baby_bear::BabyBear>(inputs.clone(), 0);
    m.values.iter().map(|x| x.as_canonical_u32()).collect()
}

/// Column `c` of row `r` of the trace generated for `n` calls whose core
/// rows are `core`.
pub open spec fn permute_trace_cell(core: Seq<u32>, n: int, r: int, c: int) -> u32 {
    let live = r < n * 24;
    if c < 2633 {
        core[r * 2633 + c]
    } else if c == 2633 {
        if live { 1 } else { 0 }
    } else if c == 2634 {
        if live && r % 24 == 0 { 1 } else { 0 }
    } else {
        if live && r % 24 == 23 { 1 } else { 0 }
    }
}

impl KeccakPermuteChip {
    /// Number of main columns.
    pub fn width(&self) -> (r: usize)
        ensures
            r == NUM_KECCAK_PERMUTE_COLS,
    {
        NUM_KECCAK_PERMUTE_COLS
    }

    /// Generates the trace of `ops`: 24 rows per call, then calls on the zero
    /// state, not flagged real, up to the next power of two.
    pub fn generate_trace(ops: Vec<KeccakPermuteOp>) -> (t: Trace)
        requires
            ops@.len() * NUM_ROUNDS <= MAX_POW2_ARG,
            (2 * ops@.len() * NUM_ROUNDS + 1) * NUM_KECCAK_PERMUTE_COLS <= usize::MAX,
        ensures
            t.wf(),
            t.width == NUM_KECCAK_PERMUTE_COLS,
            is_next_pow2(t.height(), (ops@.len() * NUM_ROUNDS) as nat),
            forall|r: int, c: int| 0 <= r < t.height() && 0 <= c < NUM_KECCAK_PERMUTE_COLS ==>
                #[trigger] t.cell(r, c) == permute_trace_cell(
                    keccak_core_trace(Seq::new(ops@.len(), |i: int| ops@[i].input)), ops@.len() as int, r, c),
    {
        let n = ops.len();
        let mut inputs: Vec<[u64; 25]> = Vec::new();
        let mut i: usize = 0;
        while i < n
            invariant
                i <= n,
                n == ops@.len(),
                inputs@.len() == i,
                forall|k: int| 0 <= k < i ==> inputs@[k] == ops@[k].input,
            decreases n - i,
        {
            inputs.push(ops[i].input);
            i = i + 1;
        }
        assert(inputs@ =~= Seq::new(ops@.len(), |i: int| ops@[i].input));
        let num_real_rows = n * NUM_ROUNDS;
        let num_rows = next_power_of_two(num_real_rows);
        let core = keccak_core_rows(&inputs);
        proof {
            let h = (core@.len() / NUM_KECCAK_COLS as nat) as nat;
            crate::trace::lemma_next_pow2_unique(h, num_rows as nat, num_real_rows as nat);
            vstd::arithmetic::div_mod::lemma_fundamental_div_mod(core@.len() as int, NUM_KECCAK_COLS as int);
        }
        let mut trace = Trace::empty(NUM_KECCAK_PERMUTE_COLS);
        proof {
            assert(n * 24 <= num_rows);
            assert(n * 24 * NUM_KECCAK_COLS <= num_rows * NUM_KECCAK_COLS) by (nonlinear_arith)
                requires
                    n * 24 <= num_rows,
            ;
            assert(n * 24 * NUM_KECCAK_PERMUTE_COLS <= (2 * n * 24 + 1) * NUM_KECCAK_PERMUTE_COLS) by (nonlinear_arith);
        }
        Self::populate_rows_for_ops(&mut trace, &core, n);
        let mut r: usize = num_real_rows;
        while r < num_rows
            invariant
                num_real_rows <= r <= num_rows,
                n == ops@.len(),
                num_real_rows == n * 24,
                is_next_pow2(num_rows as nat, num_real_rows as nat),
                (2 * n * 24 + 1) * NUM_KECCAK_PERMUTE_COLS <= usize::MAX,
                core@.len() == num_rows * NUM_KECCAK_COLS,
                inputs@ == Seq::new(ops@.len(), |i: int| ops@[i].input),
                core@ == keccak_core_trace(inputs@),
                trace.width == NUM_KECCAK_PERMUTE_COLS,
                trace.height() == r,
                trace.values@.len() == trace.height() * trace.width,
                forall|rr: int, c: int| 0 <= rr < r && 0 <= c < NUM_KECCAK_PERMUTE_COLS ==>
                    #[trigger] trace.cell(rr, c) == permute_trace_cell(core@, n as int, rr, c),
            decreases num_rows - r,
        {
            proof {
                assert((r + 1) * NUM_KECCAK_COLS <= num_rows * NUM_KECCAK_COLS) by (nonlinear_arith)
                    requires
                        r < num_rows,
                ;
                assert((r + 1) * NUM_KECCAK_PERMUTE_COLS <= (2 * n * 24 + 1) * NUM_KECCAK_PERMUTE_COLS) by (nonlinear_arith)
                    requires
                        r < num_rows,
                        num_rows == 1 || num_rows / 2 < n * 24,
                ;
            }
            push_permute_row(&mut trace, &core, r, n);
            r = r + 1;
        }
        trace
    }

    /// Appends the 24 rows of call `k` of `num_ops`, whose core rows are in `core`.
    pub fn populate_rows_for_op(trace: &mut Trace, core: &Vec<u32>, k: usize, num_ops: usize)
        requires
            k < num_ops,
            old(trace).width == NUM_KECCAK_PERMUTE_COLS,
            old(trace).height() == 24 * k,
            old(trace).values@.len() == old(trace).height() * old(trace).width,
            24 * num_ops * NUM_KECCAK_COLS <= core@.len(),
            24 * num_ops * NUM_KECCAK_PERMUTE_COLS <= usize::MAX,
        ensures
            final(trace).width == NUM_KECCAK_PERMUTE_COLS,
            final(trace).height() == 24 * (k + 1),
            final(trace).values@.len() == final(trace).height() * final(trace).width,
            forall|r: int, c: int| 24 * k <= r < 24 * (k + 1) && 0 <= c < NUM_KECCAK_PERMUTE_COLS ==>
                #[trigger] final(trace).cell(r, c) == permute_trace_cell(core@, num_ops as int, r, c),
            forall|r: int, c: int| 0 <= r < 24 * k && 0 <= c < NUM_KECCAK_PERMUTE_COLS ==>
                #[trigger] final(trace).cell(r, c) == old(trace).cell(r, c),
    {
        let ghost t0 = *trace;
        let mut i: usize = 0;
        while i < NUM_ROUNDS
            invariant
                i <= 24,
                k < num_ops,
                24 * num_ops * NUM_KECCAK_COLS <= core@.len(),
                24 * num_ops * NUM_KECCAK_PERMUTE_COLS <= usize::MAX,
                trace.width == NUM_KECCAK_PERMUTE_COLS,
                trace.height() == 24 * k + i,
                trace.values@.len() == trace.height() * trace.width,
                forall|r: int, c: int| 0 <= r < 24 * k && 0 <= c < NUM_KECCAK_PERMUTE_COLS ==>
                    #[trigger] trace.cell(r, c) == t0.cell(r, c),
                forall|r: int, c: int| 24 * k <= r < 24 * k + i && 0 <= c < NUM_KECCAK_PERMUTE_COLS ==>
                    #[trigger] trace.cell(r, c) == permute_trace_cell(core@, num_ops as int, r, c),
            decreases 24 - i,
        {
            proof {
                assert((24 * k + i + 1) * NUM_KECCAK_COLS <= 24 * num_ops * NUM_KECCAK_COLS) by (nonlinear_arith)
                    requires
                        k < num_ops,
                        i < 24,
                ;
                assert((24 * k + i + 1) * NUM_KECCAK_PERMUTE_COLS <= 24 * num_ops * NUM_KECCAK_PERMUTE_COLS) by (nonlinear_arith)
                    requires
                        k < num_ops,
                        i < 24,
                ;
            }
            push_permute_row(trace, core, 24 * k + i, num_ops);
            i = i + 1;
        }
    }

    /// Appends the rows of every call, in order.
    pub fn populate_rows_for_ops(trace: &mut Trace, core: &Vec<u32>, num_ops: usize)
        requires
            old(trace).width == NUM_KECCAK_PERMUTE_COLS,
            old(trace).height() == 0,
            old(trace).values@.len() == 0,
            24 * num_ops * NUM_KECCAK_COLS <= core@.len(),
            24 * num_ops * NUM_KECCAK_PERMUTE_COLS <= usize::MAX,
        ensures
            final(trace).width == NUM_KECCAK_PERMUTE_COLS,
            final(trace).height() == 24 * num_ops,
            final(trace).values@.len() == final(trace).height() * final(trace).width,
            forall|r: int, c: int| 0 <= r < 24 * num_ops && 0 <= c < NUM_KECCAK_PERMUTE_COLS ==>
                #[trigger] final(trace).cell(r, c) == permute_trace_cell(core@, num_ops as int, r, c),
    {
        let mut k: usize = 0;
        while k < num_ops
            invariant
                k <= num_ops,
                24 * num_ops * NUM_KECCAK_COLS <= core@.len(),
                24 * num_ops * NUM_KECCAK_PERMUTE_COLS <= usize::MAX,
                trace.width == NUM_KECCAK_PERMUTE_COLS,
                trace.height() == 24 * k,
                trace.values@.len() == trace.height() * trace.width,
                forall|r: int, c: int| 0 <= r < 24 * k && 0 <= c < NUM_KECCAK_PERMUTE_COLS ==>
                    #[trigger] trace.cell(r, c) == permute_trace_cell(core@, num_ops as int, r, c),
            decreases num_ops - k,
        {
            let ghost t0 = *trace;
            Self::populate_rows_for_op(trace, core, k, num_ops);
            proof {
                assert forall|r: int, c: int| 0 <= r < 24 * (k + 1) && 0 <= c < NUM_KECCAK_PERMUTE_COLS implies
                    #[trigger] trace.cell(r, c) == permute_trace_cell(core@, num_ops as int, r, c) by {
                    if r < 24 * k {
                        assert(trace.cell(r, c) == t0.cell(r, c));
                    }
                }
            }
            k = k + 1;
        }
    }
}

/// Appends row `r`: the core's row `r` and the flags of `num_ops` real calls.
fn push_permute_row(trace: &mut Trace, core: &Vec<u32>, r: usize, num_ops: usize)
    requires
        old(trace).width == NUM_KECCAK_PERMUTE_COLS,
        old(trace).height() == r,
        old(trace).values@.len() == old(trace).height() * old(trace).width,
        (r + 1) * NUM_KECCAK_COLS <= core@.len(),
        (r + 1) * NUM_KECCAK_PERMUTE_COLS <= usize::MAX,
    ensures
        final(trace).width == NUM_KECCAK_PERMUTE_COLS,
        final(trace).height() == r + 1,
        final(trace).values@.len() == final(trace).height() * final(trace).width,
        forall|rr: int, c: int| 0 <= rr < r && 0 <= c < NUM_KECCAK_PERMUTE_COLS ==>
            #[trigger] final(trace).cell(rr, c) == old(trace).cell(rr, c),
        forall|c: int| 0 <= c < NUM_KECCAK_PERMUTE_COLS ==>
            #[trigger] final(trace).cell(r as int, c) == permute_trace_cell(core@, num_ops as int, r as int, c),
{
    let core_len = core.len();
    let base = r * NUM_KECCAK_COLS;
    let mut row: Vec<u32> = Vec::new();
    let mut c: usize = 0;
    while c < NUM_KECCAK_COLS
        invariant
            c <= NUM_KECCAK_COLS,
            base == r * NUM_KECCAK_COLS,
            base + NUM_KECCAK_COLS <= core@.len(),
            core_len == core@.len(),
            row@.len() == c,
            forall|k: int| 0 <= k < c ==> #[trigger] row@[k] == core@[r * 2633 + k],
        decreases NUM_KECCAK_COLS - c,
    {
        row.push(core[base + c]);
        c = c + 1;
    }
    let live = r / 24 < num_ops;
    proof {
        assert(live == (r < num_ops * 24)) by {
            vstd::arithmetic::div_mod::lemma_fundamental_div_mod(r as int, 24);
        }
    }
    row.push(if live { 1 } else { 0 });
    row.push(if live && r % 24 == 0 { 1 } else { 0 });
    row.push(if live && r % 24 == 23 { 1 } else { 0 });
    proof {
        assert(r * NUM_KECCAK_PERMUTE_COLS + NUM_KECCAK_PERMUTE_COLS == (r + 1) * NUM_KECCAK_PERMUTE_COLS) by (nonlinear_arith);
    }
    trace.push_row(&row);
    proof {
        assert forall|c: int| 0 <= c < NUM_KECCAK_PERMUTE_COLS implies #[trigger] trace.cell(r as int, c) == permute_trace_cell(core@, num_ops as int, r as int, c) by {
            assert(trace.cell(r as int, c) == row@[c]);
        }
    }
}

impl KeccakPermuteChip {
    /// Receives the preimage limbs on the input bus, at the first round of
    /// real calls.
    pub fn receives_from_indices(&self, preprocessed_indices: &Vec<usize>, main_indices: &Vec<usize>) -> (r: Vec<Interaction>)
        requires
            main_indices@.len() == NUM_KECCAK_PERMUTE_COLS,
        ensures
            r@.len() == 1,
            r@[0].argument_index == self.bus_input,
            is_single_main(r@[0].count, main_indices@[COL_IS_REAL_INPUT as int]),
            r@[0].fields@.len() == 100,
            forall|i: int| 0 <= i < 100 ==> is_single_main(#[trigger] r@[0].fields@[i], main_indices@[COL_PREIMAGE + i]),
    {
        let mut fields: Vec<VirtualPairCol> = Vec::new();
        let mut i: usize = 0;
        while i < 100
            invariant
                i <= 100,
                main_indices@.len() == NUM_KECCAK_PERMUTE_COLS,
                fields@.len() == i,
                forall|j: int| 0 <= j < i ==> is_single_main(#[trigger] fields@[j], main_indices@[COL_PREIMAGE + j]),
            decreases 100 - i,
        {
            fields.push(VirtualPairCol::single_main(main_indices[COL_PREIMAGE + i]));
            i = i + 1;
        }
        let count = VirtualPairCol::single_main(main_indices[COL_IS_REAL_INPUT]);
        vec![Interaction { fields, count, argument_index: self.bus_input }]
    }

    /// Sends the image limbs on the output bus, at the last round of real calls.
    pub fn sends_from_indices(&self, preprocessed_indices: &Vec<usize>, main_indices: &Vec<usize>) -> (r: Vec<Interaction>)
        requires
            main_indices@.len() == NUM_KECCAK_PERMUTE_COLS,
        ensures
            r@.len() == 1,
            r@[0].argument_index == self.bus_output,
            is_single_main(r@[0].count, main_indices@[COL_IS_REAL_OUTPUT as int]),
            r@[0].fields@.len() == 100,
            forall|i: int| 0 <= i < 4 ==> is_single_main(#[trigger] r@[0].fields@[i], main_indices@[COL_A_PRIME_PRIME_PRIME_0_0_LIMBS + i]),
            forall|i: int| 4 <= i < 100 ==> is_single_main(#[trigger] r@[0].fields@[i], main_indices@[COL_A_PRIME_PRIME + i]),
    {
        let mut fields: Vec<VirtualPairCol> = Vec::new();
        let mut i: usize = 0;
        while i < 100
            invariant
                i <= 100,
                main_indices@.len() == NUM_KECCAK_PERMUTE_COLS,
                fields@.len() == i,
                forall|j: int| 0 <= j < i && j < 4 ==> is_single_main(#[trigger] fields@[j], main_indices@[COL_A_PRIME_PRIME_PRIME_0_0_LIMBS + j]),
                forall|j: int| 4 <= j < i ==> is_single_main(#[trigger] fields@[j], main_indices@[COL_A_PRIME_PRIME + j]),
            decreases 100 - i,
        {
            if i < 4 {
                fields.push(VirtualPairCol::single_main(main_indices[COL_A_PRIME_PRIME_PRIME_0_0_LIMBS + i]));
            } else {
                fields.push(VirtualPairCol::single_main(main_indices[COL_A_PRIME_PRIME + i]));
            }
            i = i + 1;
        }
        let count = VirtualPairCol::single_main(main_indices[COL_IS_REAL_OUTPUT]);
        vec![Interaction { fields, count, argument_index: self.bus_output }]
    }
}

impl KeccakPermuteChip {
    /// The interactions received, over the chip's own columns.
    pub fn receives(&self) -> (r: Vec<Interaction>)
        ensures
            r@.len() == 1,
            r@[0].argument_index == self.bus_input,
            is_single_main(r@[0].count, crate::interaction::identity_seq(NUM_KECCAK_PERMUTE_COLS as int)[COL_IS_REAL_INPUT as int]),
            r@[0].fields@.len() == 100,
            forall|i: int| 0 <= i < 100 ==> is_single_main(#[trigger] r@[0].fields@[i], crate::interaction::identity_seq(NUM_KECCAK_PERMUTE_COLS as int)[COL_PREIMAGE + i]),
    {
        let idx = crate::interaction::identity_indices(NUM_KECCAK_PERMUTE_COLS);
        self.receives_from_indices(&Vec::new(), &idx)
    }

    /// The interactions sent, over the chip's own columns.
    pub fn sends(&self) -> (r: Vec<Interaction>)
        ensures
            r@.len() == 1,
            r@[0].argument_index == self.bus_output,
            is_single_main(r@[0].count, crate::interaction::identity_seq(NUM_KECCAK_PERMUTE_COLS as int)[COL_IS_REAL_OUTPUT as int]),
            r@[0].fields@.len() == 100,
            forall|i: int| 0 <= i < 4 ==> is_single_main(#[trigger] r@[0].fields@[i], crate::interaction::identity_seq(NUM_KECCAK_PERMUTE_COLS as int)[COL_A_PRIME_PRIME_PRIME_0_0_LIMBS + i]),
            forall|i: int| 4 <= i < 100 ==> is_single_main(#[trigger] r@[0].fields@[i], crate::interaction::identity_seq(NUM_KECCAK_PERMUTE_COLS as int)[COL_A_PRIME_PRIME + i]),
    {
        let idx = crate::interaction::identity_indices(NUM_KECCAK_PERMUTE_COLS);
        self.sends_from_indices(&Vec::new(), &idx)
    }
}


/// Column positions of the permutation layout.
#[derive(Clone, Debug)]
pub struct KeccakPermuteCols {
    /// The columns of the embedded permutation core.
    pub keccak: Vec<usize>,
    pub is_real: usize,
    pub is_real_input: usize,
    pub is_real_output: usize,
}

impl KeccakPermuteCols {
    /// The layout rebased onto `indices`.
    pub fn from_slice(indices: &Vec<usize>) -> (r: Self)
        requires
            indices@.len() == NUM_KECCAK_PERMUTE_COLS,
        ensures
            r.keccak@ == indices@.subrange(0, NUM_KECCAK_COLS as int),
            r.is_real == indices@[COL_IS_REAL as int],
            r.is_real_input == indices@[COL_IS_REAL_INPUT as int],
            r.is_real_output == indices@[COL_IS_REAL_OUTPUT as int],
    {
        KeccakPermuteCols {
            keccak: crate::interaction::index_range(indices, 0, NUM_KECCAK_COLS),
            is_real: indices[COL_IS_REAL],
            is_real_input: indices[COL_IS_REAL_INPUT],
            is_real_output: indices[COL_IS_REAL_OUTPUT],
        }
    }
}

/// The identities the chip adds around the core: `is_real` is boolean, and
/// the input and output flags are `is_real` at the first and last round.
pub open spec fn permute_flag_constraints(row: Seq<u32>) -> bool {
    let live = row[COL_IS_REAL as int] as int;
    &&& fe(live * live) == fe(live)
    &&& fe(row[COL_IS_REAL_INPUT as int] as int) == fe(live * row[0])
    &&& fe(row[COL_IS_REAL_OUTPUT as int] as int) == fe(live * row[NUM_ROUNDS - 1])
}

impl KeccakPermuteChip {
    /// Evaluates the chip's own identities on a row of canonical elements;
    /// those of the core are the core's.
    pub fn eval(&self, local: &Vec<u32>) -> (ok: bool)
        requires
            local@.len() == NUM_KECCAK_PERMUTE_COLS,
            forall|k: int| 0 <= k < local@.len() ==> is_canonical(#[trigger] local@[k] as int),
        ensures
            ok == permute_flag_constraints(local@),
    {
        let live = local[COL_IS_REAL];
        let input = local[COL_IS_REAL_INPUT];
        let output = local[COL_IS_REAL_OUTPUT];
        proof {
            crate::field::lemma_fe_small(live as int);
            crate::field::lemma_fe_small(input as int);
            crate::field::lemma_fe_small(output as int);
            crate::field::lemma_fe_small(local@[0] as int);
            crate::field::lemma_fe_small(local@[23] as int);
            crate::interaction::lemma_fe_mul_reduced(live as int, live as int);
            crate::interaction::lemma_fe_mul_reduced(live as int, local@[0] as int);
            crate::interaction::lemma_fe_mul_reduced(live as int, local@[23] as int);
        }
        fmul(live, live) == live && input == fmul(live, local[0]) && output == fmul(live, local[23])
    }
}

} // verus!
