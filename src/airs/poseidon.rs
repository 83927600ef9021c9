//! The Poseidon permutation AIR: its parameters and row layout.

use vstd::prelude::*;

verus! {

/// A Poseidon AIR over a state of `WIDTH` elements, with S-box exponent
/// `ALPHA` and `N_ROUNDS` rounds: full rounds, then partial rounds, then
/// full rounds again.
pub struct PoseidonAir<F, Mds, const WIDTH: usize, const ALPHA: u64, const N_ROUNDS: usize> {
    pub half_num_full_rounds: usize,
    pub num_partial_rounds: usize,
    pub round_constants: Vec<F>,
    pub mds: Mds,
}

/// Column positions of one round of the Poseidon layout.
#[derive(Clone, Debug)]
pub struct PoseidonCols {
    /// Column `i` is set when the row is round `i`.
    pub round_flags: Vec<usize>,
    /// Set in partial rounds.
    pub partial_round: usize,
    pub start_of_round: Vec<usize>,
    pub after_constants: Vec<usize>,
    pub after_sbox: Vec<usize>,
    pub after_mds: Vec<usize>,
}

impl<F, Mds, const WIDTH: usize, const ALPHA: u64, const N_ROUNDS: usize> PoseidonAir<F, Mds, WIDTH, ALPHA, N_ROUNDS> {
    /// An AIR with the given round counts, one constant per state element
    /// per round, and the MDS layer.
    pub fn new(half_num_full_rounds: usize, num_partial_rounds: usize, round_constants: Vec<F>, mds: Mds) -> (r: Self)
        requires
            2 * half_num_full_rounds + num_partial_rounds == N_ROUNDS,
            round_constants@.len() == WIDTH * N_ROUNDS,
        ensures
            r.half_num_full_rounds == half_num_full_rounds,
            r.num_partial_rounds == num_partial_rounds,
            r.round_constants@ == round_constants@,
            r.mds == mds,
    {
        PoseidonAir { half_num_full_rounds, num_partial_rounds, round_constants, mds }
    }

    /// Number of main columns: the round flags, the partial-round flag, and
    /// four states.
    pub fn width(&self) -> (r: usize)
        requires
            N_ROUNDS + 1 + 4 * WIDTH <= usize::MAX,
        ensures
            r == N_ROUNDS + 1 + 4 * WIDTH,
    {
        N_ROUNDS + 1 + 4 * WIDTH
    }
}

} // verus!
