//! The chips of the machine and the constants they share.

pub mod keccak_permute;
pub mod keccak_sponge;
pub mod memory;
pub mod merkle_root;
pub mod range_checker;
pub mod xor;

use vstd::prelude::*;
use self::keccak_permute::{KeccakPermuteChip, NUM_KECCAK_PERMUTE_COLS};
use self::keccak_sponge::{KeccakSpongeChip, NUM_KECCAK_SPONGE_COLS};
use self::memory::{MemoryChip, NUM_MEMORY_COLS};
use self::merkle_root::{MerkleRootChip, merkle_width};
use self::range_checker::RangeCheckerChip;
use self::xor::{XorChip, xor_width};

verus! {

/// Number of levels of the Merkle tree the machine verifies.
pub const MERKLE_TREE_DEPTH: usize = 8;
/// Number of bytes of a digest.
pub const DIGEST_WIDTH: usize = 32;
/// Size of the byte range checked by the range checker.
pub const MAX_U8: u32 = 256;
/// Number of bytes of an XOR operand.
pub const NUM_BYTES: usize = 2;


/// The chip kinds of the machine, each with its own bus wiring.
#[derive(Clone, Debug)]
pub enum KeccakMachineChip {
    KeccakPermute(KeccakPermuteChip),
    KeccakSponge(KeccakSpongeChip),
    MerkleRoot(MerkleRootChip<MERKLE_TREE_DEPTH, DIGEST_WIDTH>),
    Range8(RangeCheckerChip<MAX_U8>),
    Xor(XorChip<NUM_BYTES>),
    Memory(MemoryChip),
}

impl KeccakMachineChip {
    /// Number of main columns of the chip.
    pub fn width(&self) -> (r: usize)
        ensures
            r == match self {
                KeccakMachineChip::KeccakPermute(_) => NUM_KECCAK_PERMUTE_COLS as int,
                KeccakMachineChip::KeccakSponge(_) => NUM_KECCAK_SPONGE_COLS as int,
                KeccakMachineChip::MerkleRoot(_) => merkle_width(MERKLE_TREE_DEPTH as int, DIGEST_WIDTH as int),
                KeccakMachineChip::Range8(_) => 1,
                KeccakMachineChip::Xor(_) => xor_width(NUM_BYTES as int),
                KeccakMachineChip::Memory(_) => NUM_MEMORY_COLS as int,
            },
    {
        match self {
            KeccakMachineChip::KeccakPermute(c) => c.width(),
            KeccakMachineChip::KeccakSponge(_) => NUM_KECCAK_SPONGE_COLS,
            KeccakMachineChip::MerkleRoot(c) => c.width(),
            KeccakMachineChip::Range8(c) => c.width(),
            KeccakMachineChip::Xor(c) => c.width(),
            KeccakMachineChip::Memory(_) => NUM_MEMORY_COLS,
        }
    }
}

} // verus!
