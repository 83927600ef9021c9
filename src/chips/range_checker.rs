//! The range checker: a lookup table of the values `0 .. MAX`, each with the
//! number of times the machine asked for it.

use vstd::prelude::*;
use std::collections::BTreeMap;
use crate::field::{fe, from_u32};
use crate::interaction::{Interaction, VirtualPairCol, PairCol, is_single_main};
use crate::trace::{Trace, is_next_pow2, next_power_of_two, MAX_POW2_ARG};

verus! {

/// Checks that values lie in `[0, MAX)`.
#[derive(Clone, Debug)]
pub struct RangeCheckerChip<const MAX: u32> {
    pub bus_range_8: usize,
}

/// Main columns: the multiplicity of the row's value.
#[derive(Clone, Copy, Debug)]
pub struct RangeCols {
    pub mult: usize,
}

/// Preprocessed columns: the value itself.
#[derive(Clone, Copy, Debug)]
pub struct RangePreprocessedCols {
    pub counter: usize,
}

/// The multiplicity in row `r`: how often `r` was asked for, as a field
/// element, for the `max` values of the table; zero past them.
pub open spec fn mult_cell(count: Map<u32, u32>, max: int, r: int) -> u32 {
    if r < max && count.contains_key(r as u32) { fe(count[r as u32] as int) as u32 } else { 0 }
}

impl<const MAX: u32> RangeCheckerChip<MAX> {
    /// Number of main columns.
    pub fn width(&self) -> (r: usize)
        ensures
            r == 1,
    {
        1
    }

    /// Number of preprocessed columns.
    pub fn preprocessed_width(&self) -> (r: usize)
        ensures
            r == 1,
    {
        1
    }

    /// Writes `mult[v] = count(v)` for every value of the table.
    pub fn populate_rows_for_counts(trace: &mut Trace, count: &BTreeMap<u32, u32>)
        requires
            old(trace).width == 1,
            old(trace).height() == 0,
            old(trace).values@.len() == 0,
            MAX as int <= usize::MAX,
        ensures
            final(trace).width == 1,
            final(trace).height() == MAX as nat,
            final(trace).values@.len() == MAX as nat,
            forall|r: int| 0 <= r < MAX ==> #[trigger] final(trace).cell(r, 0) == mult_cell(count@, MAX as int, r),
    {
        broadcast use vstd::std_specs::btree::group_btree_axioms, vstd::laws_cmp::group_laws_cmp;
        let mut n: u32 = 0;
        while n < MAX
            invariant
                n <= MAX,
                MAX as int <= usize::MAX,
                trace.width == 1,
                trace.height() == n as nat,
                trace.values@.len() == n as nat,
                forall|r: int| 0 <= r < n ==> #[trigger] trace.cell(r, 0) == mult_cell(count@, MAX as int, r),
            decreases MAX - n,
        {
            let m: u32 = match count.get(&n) {
                Some(c) => from_u32(*c),
                None => 0,
            };
            let row: Vec<u32> = vec![m];
            trace.push_row(&row);
            assert(trace.cell(n as int, 0) == row@[0]);
            n = n + 1;
        }
    }

    /// Generates the multiplicity column, padded with zeros to a power of two.
    pub fn generate_trace(count: BTreeMap<u32, u32>) -> (t: Trace)
        requires
            MAX as int <= MAX_POW2_ARG,
        ensures
            t.wf(),
            t.width == 1,
            is_next_pow2(t.height(), MAX as nat),
            forall|r: int| 0 <= r < t.height() ==> #[trigger] t.cell(r, 0) == mult_cell(count@, MAX as int, r),
    {
        let num_real_rows = MAX as usize;
        let num_rows = next_power_of_two(num_real_rows);
        let mut trace = Trace::empty(1);
        Self::populate_rows_for_counts(&mut trace, &count);
        let zero: Vec<u32> = vec![0];
        let mut r: usize = num_real_rows;
        while r < num_rows
            invariant
                num_real_rows == MAX as usize,
                num_real_rows <= r <= num_rows,
                is_next_pow2(num_rows as nat, num_real_rows as nat),
                MAX as int <= MAX_POW2_ARG,
                zero@ == seq![0u32],
                trace.width == 1,
                trace.height() == r,
                trace.values@.len() == r,
                forall|rr: int| 0 <= rr < r ==> #[trigger] trace.cell(rr, 0) == mult_cell(count@, MAX as int, rr),
            decreases num_rows - r,
        {
            trace.push_row(&zero);
            assert(trace.cell(r as int, 0) == 0);
            r = r + 1;
        }
        trace
    }

    /// The preprocessed counter column: `0, 1, ..., MAX - 1`, then zeros up
    /// to a power of two.
    pub fn generate_preprocessed_trace() -> (t: Trace)
        requires
            MAX as int <= MAX_POW2_ARG,
        ensures
            t.wf(),
            t.width == 1,
            is_next_pow2(t.height(), MAX as nat),
            forall|r: int| 0 <= r < t.height() ==> #[trigger] t.cell(r, 0) == if r < MAX { r as u32 } else { 0 },
    {
        let num_rows = next_power_of_two(MAX as usize);
        let mut trace = Trace::empty(1);
        let mut r: usize = 0;
        while r < num_rows
            invariant
                r <= num_rows,
                is_next_pow2(num_rows as nat, MAX as nat),
                MAX as int <= MAX_POW2_ARG,
                trace.width == 1,
                trace.height() == r,
                trace.values@.len() == r,
                forall|rr: int| 0 <= rr < r ==> #[trigger] trace.cell(rr, 0) == if rr < MAX { rr as u32 } else { 0 },
            decreases num_rows - r,
        {
            let v: u32 = if r < MAX as usize { r as u32 } else { 0 };
            let row: Vec<u32> = vec![v];
            trace.push_row(&row);
            assert(trace.cell(r as int, 0) == row@[0]);
            r = r + 1;
        }
        trace
    }

    /// Receives each value of the table, weighted by its multiplicity, on
    /// the range-check bus.
    pub fn receives_from_indices(&self, preprocessed_indices: &Vec<usize>, main_indices: &Vec<usize>) -> (r: Vec<Interaction>)
        requires
            preprocessed_indices@.len() == 1,
            main_indices@.len() == 1,
        ensures
            r@.len() == 1,
            r@[0].argument_index == self.bus_range_8,
            is_single_main(r@[0].count, main_indices@[0]),
            r@[0].fields@.len() == 1,
            r@[0].fields@[0].constant == 0,
            r@[0].fields@[0].column_weights@ == seq![(PairCol::Preprocessed(preprocessed_indices@[0]), 1u32)],
    {
        let pre = RangePreprocessedCols { counter: preprocessed_indices[0] };
        let main = RangeCols { mult: main_indices[0] };
        let fields = vec![VirtualPairCol::single_preprocessed(pre.counter)];
        let count = VirtualPairCol::single_main(main.mult);
        vec![Interaction { fields, count, argument_index: self.bus_range_8 }]
    }

    /// The interactions received, over the chip's own columns.
    pub fn receives(&self) -> (r: Vec<Interaction>)
        ensures
            r@.len() == 1,
            r@[0].argument_index == self.bus_range_8,
            is_single_main(r@[0].count, 0),
            r@[0].fields@.len() == 1,
            r@[0].fields@[0].column_weights@ == seq![(PairCol::Preprocessed(0), 1u32)],
    {
        self.receives_from_indices(&vec![0], &vec![0])
    }
}

} // verus!
