//! The buses of the Keccak machine.

use vstd::prelude::*;

verus! {

/// The buses the chips of the machine exchange values on.
#[derive(Clone, Copy, Debug, PartialEq, Eq, Structural)]
pub enum KeccakMachineBus {
    KeccakPermuteInput,
    KeccakPermuteOutput,
    KeccakSpongeInput,
    KeccakSpongeOutput,
    XorInput,
    XorOutput,
}

impl KeccakMachineBus {
    /// The bus id, numbered in declaration order.
    pub open spec fn spec_id(&self) -> usize {
        match self {
            KeccakMachineBus::KeccakPermuteInput => 0,
            KeccakMachineBus::KeccakPermuteOutput => 1,
            KeccakMachineBus::KeccakSpongeInput => 2,
            KeccakMachineBus::KeccakSpongeOutput => 3,
            KeccakMachineBus::XorInput => 4,
            KeccakMachineBus::XorOutput => 5,
        }
    }

    /// The bus id, numbered in declaration order.
    pub fn id(&self) -> (r: usize)
        ensures
            r == self.spec_id(),
    {
        match self {
            KeccakMachineBus::KeccakPermuteInput => 0,
            KeccakMachineBus::KeccakPermuteOutput => 1,
            KeccakMachineBus::KeccakSpongeInput => 2,
            KeccakMachineBus::KeccakSpongeOutput => 3,
            KeccakMachineBus::XorInput => 4,
            KeccakMachineBus::XorOutput => 5,
        }
    }
}

} // verus!
