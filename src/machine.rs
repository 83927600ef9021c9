//! The Keccak machine: the fixed list of chips with their buses wired, and
//! the generation of all their traces for one Merkle path.

use vstd::prelude::*;
use crate::bus::KeccakMachineBus;
use crate::chips::{KeccakMachineChip, DIGEST_WIDTH, MERKLE_TREE_DEPTH, NUM_BYTES};
use crate::chips::keccak_permute::{KeccakPermuteChip, KeccakPermuteOp, NUM_KECCAK_PERMUTE_COLS, permute_trace_cell, keccak_core_trace};
use crate::chips::keccak_sponge::{
    KeccakSpongeChip, KeccakSpongeOp, NUM_KECCAK_SPONGE_COLS, sponge_trace_cell, sponge_op_cell, total_rows, num_blocks,
    COL_XORED_RATE_U16S, COL_BLOCK_BYTES, COL_ORIGINAL_RATE_U16S, COL_IS_PADDING_BYTE, COL_IS_FULL_INPUT_BLOCK,
    block_u16, xor_rate, state_before, block_of, pad_block,
};
use crate::chips::merkle_root::{MerkleRootChip, MerkleRootOp, merkle_width, merkle_path_cell, zeros, siblings_of, node_at, compress, index_bit, hasher_input_constant, col_left_node, col_right_node};
use crate::chips::xor::{XorChip, XorOp, xor_width, xor_trace_cell, xor_cell, byte_of, col_output, col_input1, col_input2};
use crate::trace::Trace;
use vstd::arithmetic::power2::pow2;

verus! {

/// The machine proving a Keccak Merkle path.
#[derive(Clone, Copy, Debug)]
pub struct KeccakMachine;

impl KeccakMachine {
    /// The chips of the machine: the Merkle path hashes through the sponge,
    /// which XORs through the XOR chip and permutes through the permutation chip.
    pub fn chips(&self) -> (r: Vec<KeccakMachineChip>)
        ensures
            r@.len() == 4,
            r@[0] matches KeccakMachineChip::MerkleRoot(c) && c.bus_hasher_input == 2 && c.bus_hasher_output == 3,
            r@[1] matches KeccakMachineChip::KeccakSponge(c) && c.bus_input == 2 && c.bus_output == 3
                && c.bus_permute_input == 0 && c.bus_permute_output == 1 && c.bus_xor_input == 4 && c.bus_xor_output == 5,
            r@[2] matches KeccakMachineChip::Xor(c) && c.bus_input == 4 && c.bus_output == 5,
            r@[3] matches KeccakMachineChip::KeccakPermute(c) && c.bus_input == 0 && c.bus_output == 1,
    {
        let merkle_tree_chip = MerkleRootChip::<MERKLE_TREE_DEPTH, DIGEST_WIDTH> {
            bus_hasher_input: KeccakMachineBus::KeccakSpongeInput.id(),
            bus_hasher_output: KeccakMachineBus::KeccakSpongeOutput.id(),
        };
        let keccak_sponge_chip = KeccakSpongeChip {
            bus_input: KeccakMachineBus::KeccakSpongeInput.id(),
            bus_output: KeccakMachineBus::KeccakSpongeOutput.id(),
            bus_permute_input: KeccakMachineBus::KeccakPermuteInput.id(),
            bus_permute_output: KeccakMachineBus::KeccakPermuteOutput.id(),
            bus_xor_input: KeccakMachineBus::XorInput.id(),
            bus_xor_output: KeccakMachineBus::XorOutput.id(),
        };
        let xor_chip = XorChip::<NUM_BYTES> {
            bus_input: KeccakMachineBus::XorInput.id(),
            bus_output: KeccakMachineBus::XorOutput.id(),
        };
        let keccak_permute_chip = KeccakPermuteChip {
            bus_input: KeccakMachineBus::KeccakPermuteInput.id(),
            bus_output: KeccakMachineBus::KeccakPermuteOutput.id(),
        };
        vec![
            KeccakMachineChip::MerkleRoot(merkle_tree_chip),
            KeccakMachineChip::KeccakSponge(keccak_sponge_chip),
            KeccakMachineChip::Xor(xor_chip),
            KeccakMachineChip::KeccakPermute(keccak_permute_chip),
        ]
    }
}

/// The node index at level `i` of the path of a leaf.
pub open spec fn level_index(leaf_index: usize, i: nat) -> nat {
    (leaf_index as nat) / pow2(i)
}

/// The index of the sibling of node `idx`.
pub open spec fn sibling_index(idx: nat) -> nat {
    if idx % 2 == 0 { idx + 1 } else { (idx - 1) as nat }
}

/// The levels of digests hold the path of the leaf: the node and its
/// sibling at each of the lowest `MERKLE_TREE_DEPTH` levels.
pub open spec fn digests_cover(leaf_index: usize, digests: Seq<Vec<[u8; 32]>>) -> bool {
    &&& digests.len() >= MERKLE_TREE_DEPTH
    &&& forall|i: int| 0 <= i < MERKLE_TREE_DEPTH ==>
        2 * (level_index(leaf_index, i as nat) / 2) + 1 < (#[trigger] digests[i])@.len()
}

/// The digest at position `j` of level `i`.
pub open spec fn digest_at(digests: Seq<Vec<[u8; 32]>>, i: int, j: int) -> Seq<u8> {
    digests[i]@[j]@
}

/// The siblings along the path of the leaf.
pub open spec fn path_siblings(leaf_index: usize, digests: Seq<Vec<[u8; 32]>>) -> Seq<Seq<u8>> {
    Seq::new(MERKLE_TREE_DEPTH as nat, |i: int| digest_at(digests, i, sibling_index(level_index(leaf_index, i as nat)) as int))
}

/// The 64-byte message hashed at level `i`: the left node, then the right one.
pub open spec fn level_message(leaf_index: usize, digests: Seq<Vec<[u8; 32]>>, i: int) -> Seq<u8> {
    let idx = level_index(leaf_index, i as nat);
    let node = digest_at(digests, i, idx as int);
    let sibling = digest_at(digests, i, sibling_index(idx) as int);
    if idx % 2 == 0 { node + sibling } else { sibling + node }
}

/// The 200-byte sponge state absorbing a 64-byte message in one block:
/// the message, pad10*1, and a zero capacity.
pub open spec fn padded_state(msg: Seq<u8>) -> Seq<u8> {
    Seq::new(200, |k: int| if k < 64 { msg[k] } else if k == 64 { 1u8 } else if k == 135 { 0x80u8 } else { 0u8 })
}

/// Lane `j` of a byte state, little-endian.
pub open spec fn lane_at(bytes: Seq<u8>, j: int) -> u64 {
    (bytes[8 * j] as int + bytes[8 * j + 1] as int * 0x100 + bytes[8 * j + 2] as int * 0x1_0000
        + bytes[8 * j + 3] as int * 0x100_0000 + bytes[8 * j + 4] as int * 0x1_0000_0000
        + bytes[8 * j + 5] as int * 0x100_0000_0000 + bytes[8 * j + 6] as int * 0x1_0000_0000_0000
        + bytes[8 * j + 7] as int * 0x100_0000_0000_0000) as u64
}

/// The XOR operation for limb `k` of the block of level `i`: the block limb
/// against a zero rate limb.
pub open spec fn machine_xor_op(leaf_index: usize, digests: Seq<Vec<[u8; 32]>>, i: int, k: int) -> XorOp {
    let b = padded_state(level_message(leaf_index, digests, i));
    XorOp { input1: (b[2 * k] as int + 256 * b[2 * k + 1] as int) as u16, input2: 0 }
}

/// All XOR operations: 68 per level, level by level.
pub open spec fn machine_xor_ops(leaf_index: usize, digests: Seq<Vec<[u8; 32]>>) -> Seq<XorOp> {
    Seq::new((MERKLE_TREE_DEPTH * 68) as nat, |n: int| machine_xor_op(leaf_index, digests, n / 68, n % 68))
}


/// The lanes of the state permuted at level `i`.
pub open spec fn machine_lanes(leaf_index: usize, digests: Seq<Vec<[u8; 32]>>, i: int) -> Seq<u64> {
    Seq::new(25, |j: int| lane_at(padded_state(level_message(leaf_index, digests, i)), j))
}

/// Operations whose inputs are all shorter than one block take one row each.
pub proof fn lemma_short_inputs_rows(ops: Seq<KeccakSpongeOp>)
    requires
        forall|i: int| 0 <= i < ops.len() ==> (#[trigger] ops[i]).input@.len() < 136,
    ensures
        total_rows(ops) == ops.len(),
    decreases ops.len(),
{
    if ops.len() > 0 {
        assert forall|i: int| 0 <= i < ops.drop_last().len() implies (#[trigger] ops.drop_last()[i]).input@.len() < 136 by {
            assert(ops.drop_last()[i] == ops[i]);
        }
        lemma_short_inputs_rows(ops.drop_last());
        assert(ops.last() == ops[ops.len() - 1]);
    }
}

/// A copy of a 32-byte digest.
fn digest_to_vec(d: &[u8; 32]) -> (r: Vec<u8>)
    ensures
        r@ == d@,
{
    let mut r: Vec<u8> = Vec::new();
    let mut k: usize = 0;
    while k < 32
        invariant
            k <= 32,
            d@.len() == 32,
            r@ == d@.subrange(0, k as int),
        decreases 32 - k,
    {
        r.push(d[k]);
        k = k + 1;
        assert(r@ =~= d@.subrange(0, k as int));
    }
    assert(r@ =~= d@);
    r
}

/// Generates the traces of the Merkle, sponge, XOR and permutation chips for
/// the path of the leaf at `leaf_index`, given every level of digests of the
/// tree, leaves first. The Merkle chip recomputes the path; each level's
/// ordered pair is one sponge input, whose single padded block is XOR-ed
/// limb by limb into a zero state and permuted once.
pub fn generate_machine_trace(leaf_index: usize, digests: &Vec<Vec<[u8; 32]>>) -> (r: Vec<Option<Trace>>)
    requires
        digests_cover(leaf_index, digests@),
    ensures
        r@.len() == 4,
        r@[0] matches Some(t) && t.wf() && t.width == merkle_width(MERKLE_TREE_DEPTH as int, 32)
            && crate::trace::is_next_pow2(t.height(), MERKLE_TREE_DEPTH as nat)
            && forall|row: int, c: int| 0 <= row < MERKLE_TREE_DEPTH && 0 <= c < t.width ==>
                #[trigger] t.cell(row, c) == merkle_path_cell(MERKLE_TREE_DEPTH as int, 32, true, leaf_index,
                    digest_at(digests@, 0, leaf_index as int), path_siblings(leaf_index, digests@), row, c),
        r@[1] matches Some(t) && t.wf() && t.width == NUM_KECCAK_SPONGE_COLS
            && crate::trace::is_next_pow2(t.height(), MERKLE_TREE_DEPTH as nat)
            && exists|ops: Seq<KeccakSpongeOp>| {
                &&& ops.len() == MERKLE_TREE_DEPTH
                &&& forall|i: int| 0 <= i < MERKLE_TREE_DEPTH ==> (#[trigger] ops[i]).timestamp == 0 && ops[i].addr == 0
                    && ops[i].input@ == level_message(leaf_index, digests@, i)
                &&& forall|row: int, c: int| 0 <= row < t.height() && 0 <= c < NUM_KECCAK_SPONGE_COLS ==>
                    #[trigger] t.cell(row, c) == sponge_trace_cell(ops, row, c)
            },
        r@[2] matches Some(t) && t.wf() && t.width == xor_width(NUM_BYTES as int)
            && crate::trace::is_next_pow2(t.height(), (MERKLE_TREE_DEPTH * 68) as nat)
            && forall|row: int, c: int| 0 <= row < t.height() && 0 <= c < t.width ==>
                #[trigger] t.cell(row, c) == xor_trace_cell(machine_xor_ops(leaf_index, digests@), NUM_BYTES as int, row, c),
        r@[3] matches Some(t) && t.wf() && t.width == NUM_KECCAK_PERMUTE_COLS
            && crate::trace::is_next_pow2(t.height(), (MERKLE_TREE_DEPTH * 24) as nat)
            && exists|inputs: Seq<[u64; 25]>| {
                &&& inputs.len() == MERKLE_TREE_DEPTH
                &&& forall|i: int| 0 <= i < MERKLE_TREE_DEPTH ==> (#[trigger] inputs[i])@ == machine_lanes(leaf_index, digests@, i)
                &&& forall|row: int, c: int| 0 <= row < t.height() && 0 <= c < NUM_KECCAK_PERMUTE_COLS ==>
                    #[trigger] t.cell(row, c) == permute_trace_cell(keccak_core_trace(inputs), MERKLE_TREE_DEPTH as int, row, c)
            },
{
    let ghost dv = digests@;
    proof {
        vstd::arithmetic::power2::lemma2_to64();
        assert(level_index(leaf_index, 0) == leaf_index);
        assert(2 * (level_index(leaf_index, 0) / 2) + 1 < dv[0]@.len());
    }
    let leaf_hash = digest_to_vec(&digests[0][leaf_index]);
    let mut siblings: Vec<Vec<u8>> = Vec::new();
    let mut sponge_ops: Vec<KeccakSpongeOp> = Vec::new();
    let mut xor_ops: Vec<XorOp> = Vec::new();
    let mut permute_ops: Vec<KeccakPermuteOp> = Vec::new();
    let mut pw: usize = 1;
    let mut i: usize = 0;
    proof {
        vstd::arithmetic::power2::lemma2_to64();
        assert(leaf_index as nat / pow2(0) == leaf_index);
    }
    while i < MERKLE_TREE_DEPTH
        invariant
            i <= MERKLE_TREE_DEPTH,
            dv == digests@,
            digests_cover(leaf_index, dv),
            pw as nat == pow2(i as nat),
            pw <= 256,
            siblings@.len() == i,
            forall|k: int| 0 <= k < i ==> (#[trigger] siblings@[k])@ == path_siblings(leaf_index, dv)[k],
            sponge_ops@.len() == i,
            forall|k: int| 0 <= k < i ==> (#[trigger] sponge_ops@[k]).timestamp == 0 && sponge_ops@[k].addr == 0
                && sponge_ops@[k].input@ == level_message(leaf_index, dv, k),
            xor_ops@.len() == 68 * i,
            forall|n: int| 0 <= n < 68 * i ==> #[trigger] xor_ops@[n] == machine_xor_op(leaf_index, dv, n / 68, n % 68),
            permute_ops@.len() == i,
            forall|k: int| 0 <= k < i ==> (#[trigger] permute_ops@[k]).input@ == machine_lanes(leaf_index, dv, k),
        decreases MERKLE_TREE_DEPTH - i,
    {
        proof {
            vstd::arithmetic::power2::lemma2_to64();
            vstd::arithmetic::power2::lemma_pow2_unfold((i + 1) as nat);
        }
        let idx = leaf_index / pw;
        let sib = if idx % 2 == 0 { idx + 1 } else { idx - 1 };
        assert(2 * (level_index(leaf_index, i as nat) / 2) + 1 < dv[i as int]@.len());
        let node = digest_to_vec(&digests[i][idx]);
        let sibling = digest_to_vec(&digests[i][sib]);
        let mut message: Vec<u8> = Vec::new();
        let (left, right) = if idx % 2 == 0 { (&node, &sibling) } else { (&sibling, &node) };
        let mut k: usize = 0;
        while k < 64
            invariant
                k <= 64,
                left@.len() == 32,
                right@.len() == 32,
                message@ == (left@ + right@).subrange(0, k as int),
            decreases 64 - k,
        {
            if k < 32 {
                message.push(left[k]);
            } else {
                message.push(right[k - 32]);
            }
            k = k + 1;
            assert(message@ =~= (left@ + right@).subrange(0, k as int));
        }
        assert(message@ =~= level_message(leaf_index, dv, i as int));
        let mut state: Vec<u8> = Vec::new();
        let mut k: usize = 0;
        while k < 200
            invariant
                k <= 200,
                message@.len() == 64,
                state@.len() == k,
                forall|j: int| 0 <= j < k ==> state@[j] == padded_state(message@)[j],
            decreases 200 - k,
        {
            let b: u8 = if k < 64 { message[k] } else if k == 64 { 1 } else if k == 135 { 0x80 } else { 0 };
            state.push(b);
            k = k + 1;
        }
        assert(state@ =~= padded_state(message@));
        let mut k: usize = 0;
        while k < 68
            invariant
                k <= 68,
                i < MERKLE_TREE_DEPTH,
                state@ == padded_state(level_message(leaf_index, dv, i as int)),
                xor_ops@.len() == 68 * i + k,
                forall|n: int| 0 <= n < 68 * i + k ==> #[trigger] xor_ops@[n] == machine_xor_op(leaf_index, dv, n / 68, n % 68),
            decreases 68 - k,
        {
            let limb: u16 = state[2 * k] as u16 + 256 * (state[2 * k + 1] as u16);
            xor_ops.push(XorOp { input1: limb, input2: 0 });
            proof {
                let n = 68 * i + k;
                assert(n / 68 == i && n % 68 == k);
            }
            k = k + 1;
        }
        let mut lanes: [u64; 25] = [0u64; 25];
        let mut j: usize = 0;
        while j < 25
            invariant
                j <= 25,
                state@.len() == 200,
                lanes@.len() == 25,
                forall|t: int| 0 <= t < j ==> lanes@[t] == lane_at(state@, t),
            decreases 25 - j,
        {
            let b = 8 * j;
            let lane: u64 = state[b] as u64 + state[b + 1] as u64 * 0x100 + state[b + 2] as u64 * 0x1_0000
                + state[b + 3] as u64 * 0x100_0000 + state[b + 4] as u64 * 0x1_0000_0000
                + state[b + 5] as u64 * 0x100_0000_0000 + state[b + 6] as u64 * 0x1_0000_0000_0000
                + state[b + 7] as u64 * 0x100_0000_0000_0000;
            lanes[j] = lane;
            j = j + 1;
        }
        assert(lanes@ =~= machine_lanes(leaf_index, dv, i as int));
        permute_ops.push(KeccakPermuteOp { input: lanes });
        sponge_ops.push(KeccakSpongeOp { timestamp: 0, addr: 0, input: message });
        siblings.push(sibling);
        pw = pw * 2;
        i = i + 1;
    }
    let op = MerkleRootOp { leaf_index, leaf_hash, siblings };
    assert(siblings_of(op) =~= path_siblings(leaf_index, dv));
    let ghost merkle_op = op;
    let merkle_ops = vec![op];
    assert(merkle_ops@.len() == 1);
    assert(MERKLE_TREE_DEPTH == 8);
    assert(merkle_width(MERKLE_TREE_DEPTH as int, 32) == 171);
    assert(2 * merkle_ops@.len() * MERKLE_TREE_DEPTH + 1 == 17);
    assert((2 * merkle_ops@.len() * MERKLE_TREE_DEPTH + 1) * merkle_width(MERKLE_TREE_DEPTH as int, 32) == 2907);
    let merkle_tree_trace = MerkleRootChip::<MERKLE_TREE_DEPTH, DIGEST_WIDTH>::generate_trace(merkle_ops);
    proof {
        lemma_short_inputs_rows(sponge_ops@);
    }
    let ghost sponge_view = sponge_ops@;
    let keccak_sponge_trace = KeccakSpongeChip::generate_trace(sponge_ops);
    let ghost permute_view = Seq::new(permute_ops@.len(), |k: int| permute_ops@[k].input);
    let keccak_permute_trace = KeccakPermuteChip::generate_trace(permute_ops);
    assert(xor_ops@ =~= machine_xor_ops(leaf_index, dv));
    assert(xor_ops@.len() == 544);
    assert(xor_width(NUM_BYTES as int) == 39);
    assert((2 * xor_ops@.len() + 1) * xor_width(NUM_BYTES as int) == 42471);
    let xor_trace = XorChip::<NUM_BYTES>::generate_trace(xor_ops);
    proof {
        assert(merkle_op.leaf_hash@ == digest_at(dv, 0, leaf_index as int));
        assert forall|row: int, c: int| 0 <= row < MERKLE_TREE_DEPTH && 0 <= c < merkle_tree_trace.width implies
            #[trigger] merkle_tree_trace.cell(row, c) == merkle_path_cell(MERKLE_TREE_DEPTH as int, 32, true, leaf_index,
                digest_at(dv, 0, leaf_index as int), path_siblings(leaf_index, dv), row, c) by {
            assert(row / 8 == 0 && row % 8 == row);
            assert(merkle_tree_trace.cell(row, c) == crate::chips::merkle_root::merkle_trace_cell(seq![merkle_op], 8, 32, row, c));
        }
        assert(forall|i: int| 0 <= i < MERKLE_TREE_DEPTH ==> (#[trigger] permute_view[i])@ == machine_lanes(leaf_index, dv, i));
        assert(permute_view.len() == MERKLE_TREE_DEPTH);
        assert(forall|row: int, c: int| 0 <= row < keccak_permute_trace.height() && 0 <= c < NUM_KECCAK_PERMUTE_COLS ==>
            #[trigger] keccak_permute_trace.cell(row, c) == permute_trace_cell(keccak_core_trace(permute_view), MERKLE_TREE_DEPTH as int, row, c));
    }
    vec![Some(merkle_tree_trace), Some(keccak_sponge_trace), Some(xor_trace), Some(keccak_permute_trace)]
}


/// Sponge row `r` is live, XOR row `68 r + i` is live, and the two rows
/// carry the same tuples on the XOR buses as limb `i`: the sponge's packed
/// block limb and rate limb against the XOR row's packed operands, and the
/// XOR row's packed output against the sponge's XOR-ed limb.
pub open spec fn xor_bus_rows_match(leaf_index: usize, digests: Seq<Vec<[u8; 32]>>, ops: Seq<KeccakSpongeOp>, r: int, i: int) -> bool {
    let xops = machine_xor_ops(leaf_index, digests);
    let n = 68 * r + i;
    &&& sponge_trace_cell(ops, r, COL_IS_PADDING_BYTE + 135) + sponge_trace_cell(ops, r, COL_IS_FULL_INPUT_BLOCK as int) == 1
    &&& xor_trace_cell(xops, 2, n, 0) == 1
    &&& sponge_trace_cell(ops, r, COL_BLOCK_BYTES + 2 * i) + 256 * sponge_trace_cell(ops, r, COL_BLOCK_BYTES + 2 * i + 1)
        == xor_trace_cell(xops, 2, n, col_input1(2, 0)) + 256 * xor_trace_cell(xops, 2, n, col_input1(2, 1))
    &&& sponge_trace_cell(ops, r, COL_ORIGINAL_RATE_U16S + i)
        == xor_trace_cell(xops, 2, n, col_input2(2, 0)) + 256 * xor_trace_cell(xops, 2, n, col_input2(2, 1))
    &&& sponge_trace_cell(ops, r, COL_XORED_RATE_U16S + i)
        == xor_trace_cell(xops, 2, n, col_output(2, 0)) + 256 * xor_trace_cell(xops, 2, n, col_output(2, 1))
}

/// With every input shorter than a block, row `r` of the sponge trace is
/// the single row of input `r`.
proof fn lemma_one_row_per_input(ops: Seq<KeccakSpongeOp>, r: int, c: int)
    requires
        0 <= r < ops.len(),
        forall|i: int| 0 <= i < ops.len() ==> (#[trigger] ops[i]).input@.len() < 136,
    ensures
        sponge_trace_cell(ops, r, c) == sponge_op_cell(ops[r].timestamp, ops[r].addr, ops[r].input@, 0, c),
    decreases ops.len(),
{
    lemma_short_inputs_rows(ops);
    assert forall|i: int| 0 <= i < ops.drop_last().len() implies (#[trigger] ops.drop_last()[i]).input@.len() < 136 by {
        assert(ops.drop_last()[i] == ops[i]);
    }
    lemma_short_inputs_rows(ops.drop_last());
    if r < ops.len() - 1 {
        lemma_one_row_per_input(ops.drop_last(), r, c);
    }
}

/// The two bytes of a 16-bit value spell it, and XOR with zero keeps it.
proof fn lemma_u16_bytes(x: u16)
    ensures
        byte_of(x, 0) as int + 256 * byte_of(x, 1) as int == x as int,
        (byte_of(x, 0) ^ byte_of(0u16, 0)) == byte_of(x, 0),
        (byte_of(x, 1) ^ byte_of(0u16, 1)) == byte_of(x, 1),
        byte_of(0u16, 0) == 0 && byte_of(0u16, 1) == 0,
        (0u16 ^ x) == x,
{
    assert(((x & 0xff) as u8) as int + 256 * ((x >> 8u16) as u8) as int == x as int) by (bit_vector);
    assert(((x & 0xff) as u8 ^ 0u8) == (x & 0xff) as u8) by (bit_vector);
    assert(((x >> 8u16) as u8 ^ 0u8) == (x >> 8u16) as u8) by (bit_vector);
    assert((0u16 ^ x) == x) by (bit_vector);
    assert((0u16 & 0xff) as u8 == 0u8 && (0u16 >> 8u16) as u8 == 0u8) by (bit_vector);
}

/// In the tables of the machine, the XOR buses match row for row: sponge
/// row `r` (each one live) sends on the XOR input bus, as its limb `i`, the
/// pair that XOR row `68 r + i` (live) receives, and receives on the XOR
/// output bus the limb that XOR row sends; XOR rows past the `68 * 8` live
/// ones are not live.
pub proof fn lemma_machine_xor_buses_match(leaf_index: usize, digests: Seq<Vec<[u8; 32]>>, ops: Seq<KeccakSpongeOp>, xor_rows: int)
    requires
        ops.len() == MERKLE_TREE_DEPTH,
        forall|i: int| 0 <= i < MERKLE_TREE_DEPTH ==> (#[trigger] ops[i]).timestamp == 0 && ops[i].addr == 0
            && ops[i].input@ == level_message(leaf_index, digests, i),
        digests_cover(leaf_index, digests),
    ensures
        forall|r: int, i: int| 0 <= r < MERKLE_TREE_DEPTH && 0 <= i < 68 ==> #[trigger] xor_bus_rows_match(leaf_index, digests, ops, r, i),
        forall|n: int, c: int| 68 * MERKLE_TREE_DEPTH <= n ==> #[trigger] xor_trace_cell(machine_xor_ops(leaf_index, digests), NUM_BYTES as int, n, c) == 0,
{
    assert forall|i: int| 0 <= i < ops.len() implies (#[trigger] ops[i]).input@.len() < 136 by {
        let idx = level_index(leaf_index, i as nat);
        assert(digest_at(digests, i, idx as int).len() == 32);
        assert(digest_at(digests, i, sibling_index(idx) as int).len() == 32);
    }
    assert forall|r: int, i: int| 0 <= r < MERKLE_TREE_DEPTH && 0 <= i < 68 implies #[trigger] xor_bus_rows_match(leaf_index, digests, ops, r, i) by {
        let xops = machine_xor_ops(leaf_index, digests);
        let n = 68 * r + i;
        assert(n / 68 == r && n % 68 == i);
        let op = xops[n];
        assert(op == machine_xor_op(leaf_index, digests, r, i));
        let input = ops[r].input@;
        let msg = level_message(leaf_index, digests, r);
        assert(input == msg);
        let idx = level_index(leaf_index, r as nat);
        assert(digest_at(digests, r, idx as int).len() == 32);
        assert(digest_at(digests, r, sibling_index(idx) as int).len() == 32);
        assert(msg.len() == 64);
        let block = block_of(input, 0);
        assert(block == pad_block(input.subrange(0, 64)));
        assert(input.subrange(0, 64) =~= input);
        let b = padded_state(msg);
        assert forall|k: int| 0 <= k < 136 implies #[trigger] block[k] == b[k] by {}
        assert(block_u16(block, i) == op.input1);
        let st = state_before(input, 0);
        assert(st[i] == 0u16);
        lemma_u16_bytes(op.input1);
        assert(xor_rate(st, block)[i] == (0u16 ^ op.input1));
        lemma_one_row_per_input(ops, r, COL_XORED_RATE_U16S + i);
        lemma_one_row_per_input(ops, r, COL_BLOCK_BYTES + 2 * i);
        lemma_one_row_per_input(ops, r, COL_BLOCK_BYTES + 2 * i + 1);
        lemma_one_row_per_input(ops, r, COL_ORIGINAL_RATE_U16S + i);
        lemma_one_row_per_input(ops, r, COL_IS_PADDING_BYTE + 135);
        lemma_one_row_per_input(ops, r, COL_IS_FULL_INPUT_BLOCK as int);
        assert(xor_trace_cell(xops, 2, n, col_output(2, 0)) == xor_cell(op, 2, col_output(2, 0)));
        assert(xor_trace_cell(xops, 2, n, col_output(2, 1)) == xor_cell(op, 2, col_output(2, 1)));
    }
}


/// The digests form a tree up to the levels the path visits: each node of
/// level `i` compresses its two children of level `i - 1`.
pub open spec fn tree_consistent(digests: Seq<Vec<[u8; 32]>>) -> bool {
    forall|i: int, j: int| 1 <= i < MERKLE_TREE_DEPTH && 0 <= j < digests[i]@.len() && 2 * j + 1 < digests[i - 1]@.len()
        ==> #[trigger] digest_at(digests, i, j) == compress(digest_at(digests, i - 1, 2 * j), digest_at(digests, i - 1, 2 * j + 1))
}

/// On a consistent tree, the node the Merkle chip holds at level `k` is the
/// digest on the path at that level.
proof fn lemma_path_nodes(leaf_index: usize, digests: Seq<Vec<[u8; 32]>>, k: nat)
    requires
        digests_cover(leaf_index, digests),
        tree_consistent(digests),
        k < MERKLE_TREE_DEPTH,
    ensures
        node_at(digest_at(digests, 0, leaf_index as int), path_siblings(leaf_index, digests), leaf_index, k)
            == digest_at(digests, k as int, level_index(leaf_index, k) as int),
    decreases k,
{
    vstd::arithmetic::power2::lemma2_to64();
    if k == 0 {
        vstd::arithmetic::div_mod::lemma_div_basics(leaf_index as int);
    } else {
        let p = (k - 1) as nat;
        lemma_path_nodes(leaf_index, digests, p);
        let idx = level_index(leaf_index, p);
        vstd::arithmetic::power2::lemma_pow2_unfold(k);
        vstd::arithmetic::power2::lemma_pow2_pos(p);
        vstd::arithmetic::div_mod::lemma_div_denominator(leaf_index as int, vstd::arithmetic::power2::pow2(p) as int, 2);
        assert(level_index(leaf_index, k) == idx / 2);
        assert(index_bit(leaf_index, p) == idx % 2);
        let j = (idx / 2) as int;
        assert(2 * (level_index(leaf_index, k) / 2) + 1 < digests[k as int]@.len());
        assert(2 * (idx / 2) + 1 < digests[p as int]@.len());
        assert(digest_at(digests, k as int, j) == compress(digest_at(digests, p as int, 2 * j), digest_at(digests, p as int, 2 * j + 1)));
    }
}

/// Merkle row `r` and sponge row `r` carry the same tuple on the sponge's
/// input bus: the Merkle row is live and sends a zero flag, its left and
/// right nodes and the pad10*1 bytes; the sponge row is live, not a full
/// block, and absorbs exactly those bytes.
pub open spec fn hasher_input_rows_match(leaf_index: usize, digests: Seq<Vec<[u8; 32]>>, ops: Seq<KeccakSpongeOp>, r: int) -> bool {
    let leaf = digest_at(digests, 0, leaf_index as int);
    let sibs = path_siblings(leaf_index, digests);
    &&& merkle_path_cell(MERKLE_TREE_DEPTH as int, 32, true, leaf_index, leaf, sibs, r, 0) == 1
    &&& sponge_trace_cell(ops, r, COL_IS_PADDING_BYTE + 135) + sponge_trace_cell(ops, r, COL_IS_FULL_INPUT_BLOCK as int) == 1
    &&& sponge_trace_cell(ops, r, COL_IS_FULL_INPUT_BLOCK as int) == 0
    &&& forall|j: int| 0 <= j < 32 ==> #[trigger] sponge_trace_cell(ops, r, COL_BLOCK_BYTES + j)
        == merkle_path_cell(MERKLE_TREE_DEPTH as int, 32, true, leaf_index, leaf, sibs, r, col_left_node(MERKLE_TREE_DEPTH as int, 32, j))
    &&& forall|j: int| 0 <= j < 32 ==> #[trigger] sponge_trace_cell(ops, r, COL_BLOCK_BYTES + 32 + j)
        == merkle_path_cell(MERKLE_TREE_DEPTH as int, 32, true, leaf_index, leaf, sibs, r, col_right_node(MERKLE_TREE_DEPTH as int, 32, j))
    &&& forall|k: int| 64 <= k < 136 ==> #[trigger] sponge_trace_cell(ops, r, COL_BLOCK_BYTES + k) == hasher_input_constant(k)
}

/// When the digests form a Keccak tree, the Merkle chip's requests on the
/// sponge's input bus match, row for row, what the sponge absorbs.
pub proof fn lemma_machine_hasher_input_matches(leaf_index: usize, digests: Seq<Vec<[u8; 32]>>, ops: Seq<KeccakSpongeOp>)
    requires
        digests_cover(leaf_index, digests),
        tree_consistent(digests),
        ops.len() == MERKLE_TREE_DEPTH,
        forall|i: int| 0 <= i < MERKLE_TREE_DEPTH ==> (#[trigger] ops[i]).timestamp == 0 && ops[i].addr == 0
            && ops[i].input@ == level_message(leaf_index, digests, i),
    ensures
        forall|r: int| 0 <= r < MERKLE_TREE_DEPTH ==> #[trigger] hasher_input_rows_match(leaf_index, digests, ops, r),
{
    assert forall|i: int| 0 <= i < ops.len() implies (#[trigger] ops[i]).input@.len() < 136 by {
        let idx = level_index(leaf_index, i as nat);
        assert(digest_at(digests, i, idx as int).len() == 32);
        assert(digest_at(digests, i, sibling_index(idx) as int).len() == 32);
    }
    assert forall|r: int| 0 <= r < MERKLE_TREE_DEPTH implies #[trigger] hasher_input_rows_match(leaf_index, digests, ops, r) by {
        let leaf = digest_at(digests, 0, leaf_index as int);
        let sibs = path_siblings(leaf_index, digests);
        let idx = level_index(leaf_index, r as nat);
        lemma_path_nodes(leaf_index, digests, r as nat);
        let node = digest_at(digests, r, idx as int);
        let sib = digest_at(digests, r, sibling_index(idx) as int);
        assert(node.len() == 32 && sib.len() == 32);
        assert(node_at(leaf, sibs, leaf_index, r as nat) == node);
        assert(sibs[r] == sib);
        assert(index_bit(leaf_index, r as nat) == idx % 2);
        let input = ops[r].input@;
        assert(input == level_message(leaf_index, digests, r));
        assert(input.len() == 64);
        let block = block_of(input, 0);
        assert(input.subrange(0, 64) =~= input);
        assert(block == pad_block(input));
        lemma_one_row_per_input(ops, r, COL_IS_PADDING_BYTE + 135);
        lemma_one_row_per_input(ops, r, COL_IS_FULL_INPUT_BLOCK as int);
        assert forall|j: int| 0 <= j < 32 implies #[trigger] sponge_trace_cell(ops, r, COL_BLOCK_BYTES + j)
            == merkle_path_cell(MERKLE_TREE_DEPTH as int, 32, true, leaf_index, leaf, sibs, r, col_left_node(MERKLE_TREE_DEPTH as int, 32, j)) by {
            lemma_one_row_per_input(ops, r, COL_BLOCK_BYTES + j);
        }
        assert forall|j: int| 0 <= j < 32 implies #[trigger] sponge_trace_cell(ops, r, COL_BLOCK_BYTES + 32 + j)
            == merkle_path_cell(MERKLE_TREE_DEPTH as int, 32, true, leaf_index, leaf, sibs, r, col_right_node(MERKLE_TREE_DEPTH as int, 32, j)) by {
            lemma_one_row_per_input(ops, r, COL_BLOCK_BYTES + 32 + j);
        }
        assert forall|k: int| 64 <= k < 136 implies #[trigger] sponge_trace_cell(ops, r, COL_BLOCK_BYTES + k) == hasher_input_constant(k) by {
            lemma_one_row_per_input(ops, r, COL_BLOCK_BYTES + k);
        }
    }
}

} // verus!
