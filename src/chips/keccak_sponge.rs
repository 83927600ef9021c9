//! The Keccak sponge chip: absorbs a byte string in 136-byte blocks, one row
//! per block, applying pad10*1 on the final block, and exposes the 256-bit
//! digest from the first 32 bytes of the final state.

use vstd::prelude::*;
use crate::field::{fe, from_u32, is_canonical, fadd, fsub, fmul, P};
use crate::trace::{Trace, is_next_pow2, next_power_of_two, zero_row, MAX_POW2_ARG};
use crate::interaction::{
    Interaction, VirtualPairCol, is_single_main, is_limb_of_bytes, is_sum_of_two, limb_of_bytes,
    sum_of_two,
};

verus! {

/// Total number of sponge bytes: rate bytes plus capacity bytes.
pub const KECCAK_WIDTH_BYTES: usize = 200;
/// Total number of 16-bit limbs in the sponge.
pub const KECCAK_WIDTH_U16S: usize = 100;
/// Number of non-digest limbs.
pub const KECCAK_WIDTH_MINUS_DIGEST_U16S: usize = 84;
/// Number of rate bytes.
pub const KECCAK_RATE_BYTES: usize = 136;
/// Number of 16-bit rate limbs.
pub const KECCAK_RATE_U16S: usize = 68;
/// Number of capacity bytes.
pub const KECCAK_CAPACITY_BYTES: usize = 64;
/// Number of 16-bit capacity limbs.
pub const KECCAK_CAPACITY_U16S: usize = 32;
/// Number of output digest bytes.
pub const KECCAK_DIGEST_BYTES: usize = 32;
/// Number of 16-bit digest limbs.
pub const KECCAK_DIGEST_U16S: usize = 16;

/// Column of the timestamp.
pub const COL_TIMESTAMP: usize = 0;
/// Column of the base address.
pub const COL_BASE_ADDR: usize = 1;
/// Column of the full-input-block flag.
pub const COL_IS_FULL_INPUT_BLOCK: usize = 2;
/// Column of the number of bytes absorbed before this block.
pub const COL_ALREADY_ABSORBED_BYTES: usize = 3;
/// First of the 136 padding-byte flags.
pub const COL_IS_PADDING_BYTE: usize = 4;
/// First of the 68 rate limbs before the block is absorbed.
pub const COL_ORIGINAL_RATE_U16S: usize = 140;
/// First of the 32 capacity limbs before the block is absorbed.
pub const COL_ORIGINAL_CAPACITY_U16S: usize = 208;
/// First of the 136 block bytes.
pub const COL_BLOCK_BYTES: usize = 240;
/// First of the 68 rate limbs after the block is XOR-ed in.
pub const COL_XORED_RATE_U16S: usize = 376;
/// First of the 84 non-digest limbs of the permuted state.
pub const COL_PARTIAL_UPDATED_STATE_U16S: usize = 444;
/// First of the 32 digest bytes of the permuted state.
pub const COL_UPDATED_DIGEST_STATE_BYTES: usize = 528;
/// Number of columns.
pub const NUM_KECCAK_SPONGE_COLS: usize = 560;

/// Buses the sponge talks on.
#[derive(Clone, Debug)]
pub struct KeccakSpongeChip {
    pub bus_input: usize,
    pub bus_output: usize,
    pub bus_xor_input: usize,
    pub bus_xor_output: usize,
    pub bus_permute_input: usize,
    pub bus_permute_output: usize,
}

/// One byte string to hash.
#[derive(Clone, Debug)]
pub struct KeccakSpongeOp {
    pub timestamp: u32,
    pub addr: u32,
    pub input: Vec<u8>,
}

/// Column positions of the sponge layout, as indices into a list of columns.
#[derive(Clone, Debug)]
pub struct KeccakSpongeCols {
    pub timestamp: usize,
    pub base_addr: usize,
    pub is_full_input_block: usize,
    pub already_absorbed_bytes: usize,
    pub is_padding_byte: Vec<usize>,
    pub original_rate_u16s: Vec<usize>,
    pub original_capacity_u16s: Vec<usize>,
    pub block_bytes: Vec<usize>,
    pub xored_rate_u16s: Vec<usize>,
    pub partial_updated_state_u16s: Vec<usize>,
    pub updated_digest_state_bytes: Vec<usize>,
}

/// The result of the Keccak-f[1600] permutation on 25 lanes.
pub uninterp spec fn keccak_f(state: Seq<u64>) -> Seq<u64>;

/// Relies on `tiny_keccak::keccakf`: applies Keccak-f[1600] in place to an
/// array of 25 lanes, which keeps its length.
#[verifier::external_body]
fn keccakf_lanes(lanes: &Vec<u64>) -> (r: Vec<u64>)
    requires
        lanes@.len() == 25,
    ensures
        r@ == keccak_f(lanes@),
        r@.len() == 25,
{
    let mut state: [u64; 25] = [0u64; 25];
    state.copy_from_slice(lanes.as_slice());
    tiny_keccak::keccakf(&mut state);
    state.to_vec()
}

/// Lane `i` assembled from limbs `4i .. 4i + 4`, least significant first.
pub open spec fn lane_of(s: Seq<u16>, i: int) -> u64 {
    (s[4 * i] as int + s[4 * i + 1] as int * 0x1_0000 + s[4 * i + 2] as int * 0x1_0000_0000
        + s[4 * i + 3] as int * 0x1_0000_0000_0000) as u64
}

/// 100 limbs packed into 25 lanes.
pub open spec fn u16s_to_u64s(s: Seq<u16>) -> Seq<u64> {
    Seq::new(25, |i: int| lane_of(s, i))
}

/// Limb `k` (of four) of a lane.
pub open spec fn limb_of(w: u64, k: int) -> u16 {
    if k == 0 {
        (w % 0x1_0000) as u16
    } else if k == 1 {
        ((w / 0x1_0000) % 0x1_0000) as u16
    } else if k == 2 {
        ((w / 0x1_0000_0000) % 0x1_0000) as u16
    } else {
        (w / 0x1_0000_0000_0000) as u16
    }
}

/// 25 lanes split into 100 limbs.
pub open spec fn u64s_to_u16s(w: Seq<u64>) -> Seq<u16> {
    Seq::new(100, |i: int| limb_of(w[i / 4], i % 4))
}

/// The permutation on a state of 100 limbs.
pub open spec fn keccak_f_u16s(s: Seq<u16>) -> Seq<u16> {
    u64s_to_u16s(keccak_f(u16s_to_u64s(s)))
}

/// Like `keccakf`, on 100 limbs of 16 bits instead of 25 lanes of 64.
pub fn keccakf_u16s(state: &Vec<u16>) -> (r: Vec<u16>)
    requires
        state@.len() == KECCAK_WIDTH_U16S,
    ensures
        r@ == keccak_f_u16s(state@),
{
    let mut lanes: Vec<u64> = Vec::new();
    let mut i: usize = 0;
    while i < 25
        invariant
            i <= 25,
            state@.len() == 100,
            lanes@.len() == i,
            forall|k: int| 0 <= k < i ==> lanes@[k] == lane_of(state@, k),
        decreases 25 - i,
    {
        let l = state[4 * i] as u64 + state[4 * i + 1] as u64 * 0x1_0000 + state[4 * i + 2] as u64
            * 0x1_0000_0000 + state[4 * i + 3] as u64 * 0x1_0000_0000_0000;
        lanes.push(l);
        i = i + 1;
    }
    assert(lanes@ =~= u16s_to_u64s(state@));
    let permuted = keccakf_lanes(&lanes);
    let mut r: Vec<u16> = Vec::new();
    let mut i: usize = 0;
    while i < 100
        invariant
            i <= 100,
            permuted@.len() == 25,
            permuted@ == keccak_f(u16s_to_u64s(state@)),
            r@.len() == i,
            forall|k: int| 0 <= k < i ==> r@[k] == limb_of(permuted@[k / 4], k % 4),
        decreases 100 - i,
    {
        let w = permuted[i / 4];
        let k = i % 4;
        let limb: u16 = if k == 0 {
            (w % 0x1_0000) as u16
        } else if k == 1 {
            ((w / 0x1_0000) % 0x1_0000) as u16
        } else if k == 2 {
            ((w / 0x1_0000_0000) % 0x1_0000) as u16
        } else {
            (w / 0x1_0000_0000_0000) as u16
        };
        r.push(limb);
        i = i + 1;
    }
    assert(r@ =~= keccak_f_u16s(state@));
    r
}


/// Rate limb `i` of a block: bytes `2i` and `2i + 1`, little-endian.
pub open spec fn block_u16(block: Seq<u8>, i: int) -> u16 {
    (block[2 * i] as int + 256 * block[2 * i + 1] as int) as u16
}

/// The state with the block XOR-ed into its rate limbs.
pub open spec fn xor_rate(state: Seq<u16>, block: Seq<u8>) -> Seq<u16> {
    Seq::new(100, |i: int| if i < 68 { state[i] ^ block_u16(block, i) } else { state[i] })
}

/// One absorption: XOR the block into the rate, then permute.
pub open spec fn absorb(state: Seq<u16>, block: Seq<u8>) -> Seq<u16> {
    keccak_f_u16s(xor_rate(state, block))
}

/// Byte `k` of a state seen as little-endian bytes.
pub open spec fn state_byte(s: Seq<u16>, k: int) -> u32 {
    if k % 2 == 0 { (s[k / 2] % 256) as u32 } else { (s[k / 2] / 256) as u32 }
}

/// The final block: the remaining input bytes, then pad10*1.
pub open spec fn pad_block(rem: Seq<u8>) -> Seq<u8> {
    Seq::new(136, |k: int|
        if k < rem.len() {
            rem[k]
        } else if k == rem.len() {
            if rem.len() == 135 { 0x81u8 } else { 0x01u8 }
        } else if k == 135 {
            0x80u8
        } else {
            0u8
        })
}

/// Number of rows an input of `len` bytes takes: its full blocks and one final block.
pub open spec fn num_blocks(len: nat) -> nat {
    len / 136 + 1
}

/// The block absorbed in row `b` of an input.
pub open spec fn block_of(input: Seq<u8>, b: int) -> Seq<u8> {
    if b < input.len() / 136 {
        input.subrange(b * 136, b * 136 + 136)
    } else {
        pad_block(input.subrange(b * 136, input.len() as int))
    }
}

/// The sponge state before row `b` of an input.
pub open spec fn state_before(input: Seq<u8>, b: nat) -> Seq<u16>
    decreases b,
{
    if b == 0 {
        Seq::new(100, |i: int| 0u16)
    } else {
        absorb(state_before(input, (b - 1) as nat), block_of(input, b - 1))
    }
}

/// The value of column `c` in a row absorbing `block` into `state`, where
/// bytes from `pad_from` on are padding unless the block is full.
pub open spec fn sponge_row_cell(
    ts: u32,
    addr: u32,
    already: int,
    state: Seq<u16>,
    block: Seq<u8>,
    is_full: bool,
    pad_from: int,
    c: int,
) -> u32 {
    let xored = xor_rate(state, block);
    let after = keccak_f_u16s(xored);
    if c == 0 {
        fe(ts as int) as u32
    } else if c == 1 {
        fe(addr as int) as u32
    } else if c == 2 {
        if is_full { 1 } else { 0 }
    } else if c == 3 {
        fe(already) as u32
    } else if c < 140 {
        if !is_full && c - 4 >= pad_from { 1 } else { 0 }
    } else if c < 240 {
        state[c - 140] as u32
    } else if c < 376 {
        block[c - 240] as u32
    } else if c < 444 {
        xored[c - 376] as u32
    } else if c < 528 {
        after[16 + c - 444] as u32
    } else {
        state_byte(after, c - 528)
    }
}

/// Column `c` of row `b` of the rows generated for one input.
pub open spec fn sponge_op_cell(ts: u32, addr: u32, input: Seq<u8>, b: int, c: int) -> u32 {
    let full = b < input.len() / 136;
    sponge_row_cell(
        ts,
        addr,
        b * 136,
        state_before(input, b as nat),
        block_of(input, b),
        full,
        if full { 136 } else { input.len() - b * 136 },
        c,
    )
}

/// Builds a row absorbing `block` into `sponge_state`, and returns it with
/// the state after the permutation.
pub fn generate_common_fields(
    op: &KeccakSpongeOp,
    already_absorbed_bytes: usize,
    sponge_state: &Vec<u16>,
    block: &Vec<u8>,
    is_full: bool,
    pad_from: usize,
) -> (r: (Vec<u32>, Vec<u16>))
    requires
        sponge_state@.len() == 100,
        block@.len() == 136,
        already_absorbed_bytes <= u32::MAX,
    ensures
        r.0@.len() == NUM_KECCAK_SPONGE_COLS,
        forall|c: int| 0 <= c < NUM_KECCAK_SPONGE_COLS ==> #[trigger] r.0@[c] == sponge_row_cell(
            op.timestamp,
            op.addr,
            already_absorbed_bytes as int,
            sponge_state@,
            block@,
            is_full,
            pad_from as int,
            c,
        ),
        r.1@ == absorb(sponge_state@, block@),
{
    let mut xored: Vec<u16> = Vec::new();
    let mut i: usize = 0;
    while i < 100
        invariant
            i <= 100,
            sponge_state@.len() == 100,
            block@.len() == 136,
            xored@.len() == i,
            forall|k: int| 0 <= k < i ==> xored@[k] == xor_rate(sponge_state@, block@)[k],
        decreases 100 - i,
    {
        if i < 68 {
            let limb = (block[2 * i] as u16) + 256 * (block[2 * i + 1] as u16);
            xored.push(sponge_state[i] ^ limb);
        } else {
            xored.push(sponge_state[i]);
        }
        i = i + 1;
    }
    assert(xored@ =~= xor_rate(sponge_state@, block@));
    let after = keccakf_u16s(&xored);
    let mut row: Vec<u32> = Vec::new();
    row.push(from_u32(op.timestamp));
    row.push(from_u32(op.addr));
    row.push(if is_full { 1 } else { 0 });
    row.push(from_u32(already_absorbed_bytes as u32));
    let mut k: usize = 0;
    while k < 136
        invariant
            k <= 136,
            row@.len() == 4 + k,
            forall|c: int| 0 <= c < 4 + k ==> #[trigger] row@[c] == sponge_row_cell(op.timestamp, op.addr, already_absorbed_bytes as int, sponge_state@, block@, is_full, pad_from as int, c),
            xored@ == xor_rate(sponge_state@, block@),
            after@ == keccak_f_u16s(xored@),
            sponge_state@.len() == 100,
            block@.len() == 136,
            already_absorbed_bytes <= u32::MAX,
        decreases 136 - k,
    {
        row.push(if !is_full && k >= pad_from { 1 } else { 0 });
        assert(row@[4 + k as int] == sponge_row_cell(op.timestamp, op.addr, already_absorbed_bytes as int, sponge_state@, block@, is_full, pad_from as int, 4 + k as int));
        k = k + 1;
    }
    let mut k: usize = 0;
    while k < 100
        invariant
            k <= 100,
            sponge_state@.len() == 100,
            row@.len() == 140 + k,
            forall|c: int| 0 <= c < 140 + k ==> #[trigger] row@[c] == sponge_row_cell(op.timestamp, op.addr, already_absorbed_bytes as int, sponge_state@, block@, is_full, pad_from as int, c),
            xored@ == xor_rate(sponge_state@, block@),
            after@ == keccak_f_u16s(xored@),
            sponge_state@.len() == 100,
            block@.len() == 136,
            already_absorbed_bytes <= u32::MAX,
        decreases 100 - k,
    {
        row.push(sponge_state[k] as u32);
        assert(row@[140 + k as int] == sponge_row_cell(op.timestamp, op.addr, already_absorbed_bytes as int, sponge_state@, block@, is_full, pad_from as int, 140 + k as int));
        k = k + 1;
    }
    let mut k: usize = 0;
    while k < 136
        invariant
            k <= 136,
            block@.len() == 136,
            row@.len() == 240 + k,
            forall|c: int| 0 <= c < 240 + k ==> #[trigger] row@[c] == sponge_row_cell(op.timestamp, op.addr, already_absorbed_bytes as int, sponge_state@, block@, is_full, pad_from as int, c),
            xored@ == xor_rate(sponge_state@, block@),
            after@ == keccak_f_u16s(xored@),
            sponge_state@.len() == 100,
            block@.len() == 136,
            already_absorbed_bytes <= u32::MAX,
        decreases 136 - k,
    {
        row.push(block[k] as u32);
        assert(row@[240 + k as int] == sponge_row_cell(op.timestamp, op.addr, already_absorbed_bytes as int, sponge_state@, block@, is_full, pad_from as int, 240 + k as int));
        k = k + 1;
    }
    let mut k: usize = 0;
    while k < 68
        invariant
            k <= 68,
            xored@ == xor_rate(sponge_state@, block@),
            row@.len() == 376 + k,
            forall|c: int| 0 <= c < 376 + k ==> #[trigger] row@[c] == sponge_row_cell(op.timestamp, op.addr, already_absorbed_bytes as int, sponge_state@, block@, is_full, pad_from as int, c),
            xored@ == xor_rate(sponge_state@, block@),
            after@ == keccak_f_u16s(xored@),
            sponge_state@.len() == 100,
            block@.len() == 136,
            already_absorbed_bytes <= u32::MAX,
        decreases 68 - k,
    {
        row.push(xored[k] as u32);
        assert(row@[376 + k as int] == sponge_row_cell(op.timestamp, op.addr, already_absorbed_bytes as int, sponge_state@, block@, is_full, pad_from as int, 376 + k as int));
        k = k + 1;
    }
    let mut k: usize = 0;
    while k < 84
        invariant
            k <= 84,
            xored@ == xor_rate(sponge_state@, block@),
            after@ == keccak_f_u16s(xored@),
            row@.len() == 444 + k,
            forall|c: int| 0 <= c < 444 + k ==> #[trigger] row@[c] == sponge_row_cell(op.timestamp, op.addr, already_absorbed_bytes as int, sponge_state@, block@, is_full, pad_from as int, c),
            xored@ == xor_rate(sponge_state@, block@),
            after@ == keccak_f_u16s(xored@),
            sponge_state@.len() == 100,
            block@.len() == 136,
            already_absorbed_bytes <= u32::MAX,
        decreases 84 - k,
    {
        row.push(after[16 + k] as u32);
        assert(row@[444 + k as int] == sponge_row_cell(op.timestamp, op.addr, already_absorbed_bytes as int, sponge_state@, block@, is_full, pad_from as int, 444 + k as int));
        k = k + 1;
    }
    let mut k: usize = 0;
    while k < 32
        invariant
            k <= 32,
            xored@ == xor_rate(sponge_state@, block@),
            after@ == keccak_f_u16s(xored@),
            row@.len() == 528 + k,
            forall|c: int| 0 <= c < 528 + k ==> #[trigger] row@[c] == sponge_row_cell(op.timestamp, op.addr, already_absorbed_bytes as int, sponge_state@, block@, is_full, pad_from as int, c),
            xored@ == xor_rate(sponge_state@, block@),
            after@ == keccak_f_u16s(xored@),
            sponge_state@.len() == 100,
            block@.len() == 136,
            already_absorbed_bytes <= u32::MAX,
        decreases 32 - k,
    {
        let limb = after[k / 2];
        row.push(if k % 2 == 0 { (limb % 256) as u32 } else { (limb / 256) as u32 });
        assert(row@[528 + k as int] == sponge_row_cell(op.timestamp, op.addr, already_absorbed_bytes as int, sponge_state@, block@, is_full, pad_from as int, 528 + k as int));
        k = k + 1;
    }
    (row, after)
}


/// Generates a row where all bytes are input bytes, not padding bytes, and
/// returns it with the updated sponge state.
pub fn generate_full_input_row(
    op: &KeccakSpongeOp,
    already_absorbed_bytes: usize,
    sponge_state: &Vec<u16>,
    block: &Vec<u8>,
) -> (r: (Vec<u32>, Vec<u16>))
    requires
        sponge_state@.len() == 100,
        block@.len() == 136,
        already_absorbed_bytes <= u32::MAX,
    ensures
        r.0@.len() == NUM_KECCAK_SPONGE_COLS,
        forall|c: int| 0 <= c < NUM_KECCAK_SPONGE_COLS ==> #[trigger] r.0@[c] == sponge_row_cell(
            op.timestamp,
            op.addr,
            already_absorbed_bytes as int,
            sponge_state@,
            block@,
            true,
            136,
            c,
        ),
        r.1@ == absorb(sponge_state@, block@),
{
    generate_common_fields(op, already_absorbed_bytes, sponge_state, block, true, 136)
}

/// Generates the row containing the last input bytes, padded by pad10*1.
pub fn generate_final_row(
    op: &KeccakSpongeOp,
    already_absorbed_bytes: usize,
    sponge_state: &Vec<u16>,
    final_inputs: &Vec<u8>,
) -> (row: Vec<u32>)
    requires
        sponge_state@.len() == 100,
        final_inputs@.len() < 136,
        already_absorbed_bytes <= u32::MAX,
        already_absorbed_bytes + final_inputs@.len() == op.input@.len(),
    ensures
        row@.len() == NUM_KECCAK_SPONGE_COLS,
        forall|c: int| 0 <= c < NUM_KECCAK_SPONGE_COLS ==> #[trigger] row@[c] == sponge_row_cell(
            op.timestamp,
            op.addr,
            already_absorbed_bytes as int,
            sponge_state@,
            pad_block(final_inputs@),
            false,
            final_inputs@.len() as int,
            c,
        ),
{
    let len = final_inputs.len();
    let mut block: Vec<u8> = Vec::new();
    let mut k: usize = 0;
    while k < 136
        invariant
            k <= 136,
            len == final_inputs@.len(),
            len < 136,
            block@.len() == k,
            forall|j: int| 0 <= j < k ==> block@[j] == pad_block(final_inputs@)[j],
        decreases 136 - k,
    {
        let byte: u8 = if k < len {
            final_inputs[k]
        } else if k == len {
            if len == 135 { 0x81 } else { 0x01 }
        } else if k == 135 {
            0x80
        } else {
            0
        };
        block.push(byte);
        k = k + 1;
    }
    assert(block@ =~= pad_block(final_inputs@));
    let (row, _next) = generate_common_fields(op, already_absorbed_bytes, sponge_state, &block, false, len);
    row
}

/// The bytes `input[from .. to]`.
fn copy_range(input: &Vec<u8>, from: usize, to: usize) -> (r: Vec<u8>)
    requires
        from <= to <= input@.len(),
    ensures
        r@ == input@.subrange(from as int, to as int),
{
    let mut r: Vec<u8> = Vec::new();
    let mut k: usize = from;
    while k < to
        invariant
            from <= k <= to,
            to <= input@.len(),
            r@ == input@.subrange(from as int, k as int),
        decreases to - k,
    {
        r.push(input[k]);
        k = k + 1;
        assert(r@ =~= input@.subrange(from as int, k as int));
    }
    r
}

impl KeccakSpongeChip {
    /// Appends the rows of one operation: one per full block, then the final
    /// padded block.
    pub fn populate_rows_for_op(trace: &mut Trace, op: &KeccakSpongeOp)
        requires
            old(trace).width == NUM_KECCAK_SPONGE_COLS,
            old(trace).values@.len() == old(trace).height() * old(trace).width,
            op.input@.len() <= u32::MAX,
            (old(trace).height() + num_blocks(op.input@.len())) * NUM_KECCAK_SPONGE_COLS <= usize::MAX,
        ensures
            final(trace).width == NUM_KECCAK_SPONGE_COLS,
            final(trace).height() == old(trace).height() + num_blocks(op.input@.len()),
            final(trace).values@.len() == final(trace).height() * final(trace).width,
            forall|r: int, c: int| 0 <= r < old(trace).height() && 0 <= c < NUM_KECCAK_SPONGE_COLS ==>
                #[trigger] final(trace).cell(r, c) == old(trace).cell(r, c),
            forall|b: int, c: int| 0 <= b < num_blocks(op.input@.len()) && 0 <= c < NUM_KECCAK_SPONGE_COLS ==>
                #[trigger] final(trace).cell(old(trace).height() + b, c)
                    == sponge_op_cell(op.timestamp, op.addr, op.input@, b, c),
    {
        let ghost h0 = trace.height();
        let ghost t0 = *trace;
        let len = op.input.len();
        let nfull = len / 136;
        let mut state: Vec<u16> = Vec::new();
        let mut i: usize = 0;
        while i < 100
            invariant
                i <= 100,
                state@.len() == i,
                forall|k: int| 0 <= k < i ==> state@[k] == 0u16,
            decreases 100 - i,
        {
            state.push(0);
            i = i + 1;
        }
        assert(state@ =~= state_before(op.input@, 0));
        let mut b: usize = 0;
        while b < nfull
            invariant
                b <= nfull,
                nfull == op.input@.len() / 136,
                len == op.input@.len(),
                len <= u32::MAX,
                state@ == state_before(op.input@, b as nat),
                state@.len() == 100,
                trace.width == NUM_KECCAK_SPONGE_COLS,
                trace.height() == h0 + b,
                trace.values@.len() == trace.height() * trace.width,
                (h0 + num_blocks(len as nat)) * NUM_KECCAK_SPONGE_COLS <= usize::MAX,
                forall|r: int, c: int| 0 <= r < h0 && 0 <= c < NUM_KECCAK_SPONGE_COLS ==>
                    #[trigger] trace.cell(r, c) == t0.cell(r, c),
                forall|bb: int, c: int| 0 <= bb < b && 0 <= c < NUM_KECCAK_SPONGE_COLS ==>
                    #[trigger] trace.cell(h0 + bb, c) == sponge_op_cell(op.timestamp, op.addr, op.input@, bb, c),
            decreases nfull - b,
        {
            let block = copy_range(&op.input, b * 136, b * 136 + 136);
            let (row, next) = generate_full_input_row(op, b * 136, &state, &block);
            proof {
                assert(block@ == block_of(op.input@, b as int));
                assert forall|c: int| 0 <= c < NUM_KECCAK_SPONGE_COLS implies row@[c] == sponge_op_cell(op.timestamp, op.addr, op.input@, b as int, c) by {
                }
                assert((trace.height() + 1) * NUM_KECCAK_SPONGE_COLS <= (h0 + num_blocks(len as nat)) * NUM_KECCAK_SPONGE_COLS) by (nonlinear_arith)
                    requires
                        trace.height() + 1 <= h0 + num_blocks(len as nat),
                ;
                assert(trace.height() * NUM_KECCAK_SPONGE_COLS + NUM_KECCAK_SPONGE_COLS == (trace.height() + 1) * NUM_KECCAK_SPONGE_COLS) by (nonlinear_arith);
            }
            trace.push_row(&row);
            state = next;
            b = b + 1;
        }
        let rem = copy_range(&op.input, nfull * 136, len);
        let row = generate_final_row(op, nfull * 136, &state, &rem);
        proof {
            assert(pad_block(rem@) == block_of(op.input@, nfull as int));
            assert forall|c: int| 0 <= c < NUM_KECCAK_SPONGE_COLS implies row@[c] == sponge_op_cell(op.timestamp, op.addr, op.input@, nfull as int, c) by {
            }
            assert(trace.height() * NUM_KECCAK_SPONGE_COLS + NUM_KECCAK_SPONGE_COLS == (trace.height() + 1) * NUM_KECCAK_SPONGE_COLS) by (nonlinear_arith);
        }
        trace.push_row(&row);
    }
}


/// Number of rows the operations take before padding.
pub open spec fn total_rows(ops: Seq<KeccakSpongeOp>) -> nat
    decreases ops.len(),
{
    if ops.len() == 0 {
        0
    } else {
        total_rows(ops.drop_last()) + num_blocks(ops.last().input@.len())
    }
}

/// Column `c` of a padding row: padding rows are idle, all zero, so that
/// neither the full-block flag nor the last padding flag selects them.
pub open spec fn sponge_padding_cell(c: int) -> u32 {
    0
}

/// Column `c` of row `r` of the trace generated for `ops`.
pub open spec fn sponge_trace_cell(ops: Seq<KeccakSpongeOp>, r: int, c: int) -> u32
    decreases ops.len(),
{
    if ops.len() == 0 {
        sponge_padding_cell(c)
    } else {
        let prev = total_rows(ops.drop_last());
        if r < prev {
            sponge_trace_cell(ops.drop_last(), r, c)
        } else if r < total_rows(ops) {
            sponge_op_cell(ops.last().timestamp, ops.last().addr, ops.last().input@, r - prev, c)
        } else {
            sponge_padding_cell(c)
        }
    }
}

/// The rows of a prefix of the operations are no more than those of all of them.
pub proof fn lemma_total_rows_prefix(ops: Seq<KeccakSpongeOp>, k: int)
    requires
        0 <= k <= ops.len(),
    ensures
        total_rows(ops.take(k)) <= total_rows(ops),
    decreases ops.len(),
{
    if k < ops.len() {
        assert(ops.drop_last().take(k) =~= ops.take(k));
        lemma_total_rows_prefix(ops.drop_last(), k);
    } else {
        assert(ops.take(k) =~= ops);
    }
}

/// Every input fits the layout: its length fits a field element.
pub open spec fn inputs_fit(ops: Seq<KeccakSpongeOp>) -> bool {
    forall|i: int| 0 <= i < ops.len() ==> #[trigger] ops[i].input@.len() <= u32::MAX
}

impl KeccakSpongeChip {
    /// Appends the rows of each operation in turn.
    pub fn populate_rows_for_ops(trace: &mut Trace, ops: &Vec<KeccakSpongeOp>)
        requires
            old(trace).width == NUM_KECCAK_SPONGE_COLS,
            old(trace).height() == 0,
            old(trace).values@.len() == 0,
            inputs_fit(ops@),
            total_rows(ops@) * NUM_KECCAK_SPONGE_COLS <= usize::MAX,
        ensures
            final(trace).width == NUM_KECCAK_SPONGE_COLS,
            final(trace).height() == total_rows(ops@),
            final(trace).values@.len() == final(trace).height() * final(trace).width,
            forall|r: int, c: int| 0 <= r < total_rows(ops@) && 0 <= c < NUM_KECCAK_SPONGE_COLS ==>
                #[trigger] final(trace).cell(r, c) == sponge_trace_cell(ops@, r, c),
    {
        let mut k: usize = 0;
        assert(ops@.take(0) =~= Seq::<KeccakSpongeOp>::empty());
        while k < ops.len()
            invariant
                k <= ops@.len(),
                inputs_fit(ops@),
                total_rows(ops@) * NUM_KECCAK_SPONGE_COLS <= usize::MAX,
                trace.width == NUM_KECCAK_SPONGE_COLS,
                trace.height() == total_rows(ops@.take(k as int)),
                trace.values@.len() == trace.height() * trace.width,
                forall|r: int, c: int| 0 <= r < trace.height() && 0 <= c < NUM_KECCAK_SPONGE_COLS ==>
                    #[trigger] trace.cell(r, c) == sponge_trace_cell(ops@.take(k as int), r, c),
            decreases ops@.len() - k,
        {
            let ghost before = ops@.take(k as int);
            let ghost after = ops@.take(k + 1);
            proof {
                assert(after.drop_last() =~= before);
                assert(after.last() == ops@[k as int]);
                lemma_total_rows_prefix(ops@, k + 1);
                assert(total_rows(after) * NUM_KECCAK_SPONGE_COLS <= total_rows(ops@) * NUM_KECCAK_SPONGE_COLS) by (nonlinear_arith)
                    requires
                        total_rows(after) <= total_rows(ops@),
                ;
            }
            Self::populate_rows_for_op(trace, &ops[k]);
            k = k + 1;
            proof {
                assert forall|r: int, c: int| 0 <= r < trace.height() && 0 <= c < NUM_KECCAK_SPONGE_COLS implies
                    #[trigger] trace.cell(r, c) == sponge_trace_cell(after, r, c) by {
                    if r >= total_rows(before) {
                        let b = r - total_rows(before);
                        assert(trace.cell(total_rows(before) + b, c) == sponge_op_cell(ops@[k - 1].timestamp, ops@[k - 1].addr, ops@[k - 1].input@, b, c));
                    }
                }
            }
        }
        assert(ops@.take(ops@.len() as int) =~= ops@);
    }

    /// Generates the trace of `inputs`, padded to a power of two with rows
    /// of an empty input.
    pub fn generate_trace(inputs: Vec<KeccakSpongeOp>) -> (t: Trace)
        requires
            inputs_fit(inputs@),
            total_rows(inputs@) <= MAX_POW2_ARG,
            (2 * total_rows(inputs@) + 1) * NUM_KECCAK_SPONGE_COLS <= usize::MAX,
        ensures
            t.wf(),
            t.width == NUM_KECCAK_SPONGE_COLS,
            is_next_pow2(t.height(), total_rows(inputs@)),
            forall|r: int, c: int| 0 <= r < t.height() && 0 <= c < NUM_KECCAK_SPONGE_COLS ==>
                #[trigger] t.cell(r, c) == sponge_trace_cell(inputs@, r, c),
            forall|r: int, c: int| total_rows(inputs@) <= r < t.height() && 0 <= c < NUM_KECCAK_SPONGE_COLS ==>
                #[trigger] t.cell(r, c) == 0,
            forall|r: int| total_rows(inputs@) <= r < t.height() ==>
                #[trigger] t.cell(r, COL_IS_PADDING_BYTE + 135) + t.cell(r, COL_IS_FULL_INPUT_BLOCK as int) == 0,
    {
        let mut num_real_rows: usize = 0;
        let mut k: usize = 0;
        while k < inputs.len()
            invariant
                k <= inputs@.len(),
                total_rows(inputs@) <= MAX_POW2_ARG,
                num_real_rows == total_rows(inputs@.take(k as int)),
            decreases inputs@.len() - k,
        {
            proof {
                assert(inputs@.take(k + 1).drop_last() =~= inputs@.take(k as int));
                lemma_total_rows_prefix(inputs@, k + 1);
            }
            num_real_rows = num_real_rows + inputs[k].input.len() / 136 + 1;
            k = k + 1;
        }
        assert(inputs@.take(inputs@.len() as int) =~= inputs@);
        let num_rows = next_power_of_two(num_real_rows);
        let mut trace = Trace::empty(NUM_KECCAK_SPONGE_COLS);
        proof {
            assert(total_rows(inputs@) * NUM_KECCAK_SPONGE_COLS <= (2 * total_rows(inputs@) + 1) * NUM_KECCAK_SPONGE_COLS) by (nonlinear_arith);
        }
        Self::populate_rows_for_ops(&mut trace, &inputs);
        let zero = zero_row(NUM_KECCAK_SPONGE_COLS);
        let mut r: usize = num_real_rows;
        while r < num_rows
            invariant
                num_real_rows <= r <= num_rows,
                num_real_rows == total_rows(inputs@),
                is_next_pow2(num_rows as nat, num_real_rows as nat),
                (2 * total_rows(inputs@) + 1) * NUM_KECCAK_SPONGE_COLS <= usize::MAX,
                zero@.len() == NUM_KECCAK_SPONGE_COLS,
                forall|c: int| 0 <= c < NUM_KECCAK_SPONGE_COLS ==> zero@[c] == 0,
                trace.width == NUM_KECCAK_SPONGE_COLS,
                trace.height() == r,
                trace.values@.len() == trace.height() * trace.width,
                forall|rr: int, c: int| 0 <= rr < r && 0 <= c < NUM_KECCAK_SPONGE_COLS ==>
                    #[trigger] trace.cell(rr, c) == sponge_trace_cell(inputs@, rr, c),
            decreases num_rows - r,
        {
            proof {
                assert((r + 1) * NUM_KECCAK_SPONGE_COLS <= (2 * total_rows(inputs@) + 1) * NUM_KECCAK_SPONGE_COLS) by (nonlinear_arith)
                    requires
                        r < num_rows,
                        num_rows == 1 || num_rows / 2 < num_real_rows,
                        num_real_rows == total_rows(inputs@),
                ;
                lemma_trace_cell_padding(inputs@, r as int);
            }
            proof {
                assert(r * NUM_KECCAK_SPONGE_COLS + NUM_KECCAK_SPONGE_COLS == (r + 1) * NUM_KECCAK_SPONGE_COLS) by (nonlinear_arith);
            }
            trace.push_row(&zero);
            r = r + 1;
        }
        proof {
            assert forall|rr: int, c: int| total_rows(inputs@) <= rr < trace.height() && 0 <= c < NUM_KECCAK_SPONGE_COLS implies
                #[trigger] trace.cell(rr, c) == 0 by {
                lemma_trace_cell_padding(inputs@, rr);
            }
            assert forall|rr: int| total_rows(inputs@) <= rr < trace.height() implies
                #[trigger] trace.cell(rr, COL_IS_PADDING_BYTE + 135) + trace.cell(rr, COL_IS_FULL_INPUT_BLOCK as int) == 0 by {
                lemma_trace_cell_padding(inputs@, rr);
            }
        }
        trace
    }
}

/// Past the operations' rows, every row is the padding row.
pub proof fn lemma_trace_cell_padding(ops: Seq<KeccakSpongeOp>, r: int)
    requires
        r >= total_rows(ops),
    ensures
        forall|c: int| #[trigger] sponge_trace_cell(ops, r, c) == sponge_padding_cell(c),
    decreases ops.len(),
{
}


/// An input takes one row per full 136-byte block plus one final row; only
/// the rows of full blocks are flagged full. An input whose length is a
/// multiple of 136 ends in a row made entirely of padding (`0x01`, zeros,
/// `0x80`); one of length 135 modulo 136 ends in a row whose last block byte
/// is `0x81`.
pub proof fn lemma_sponge_block_shape(ts: u32, addr: u32, input: Seq<u8>)
    ensures
        num_blocks(input.len()) == input.len() / 136 + 1,
        forall|b: int| 0 <= b < num_blocks(input.len()) ==>
            #[trigger] sponge_op_cell(ts, addr, input, b, COL_IS_FULL_INPUT_BLOCK as int)
                == if b < input.len() / 136 { 1u32 } else { 0u32 },
        input.len() % 136 == 0 ==> {
            let last = (input.len() / 136) as int;
            &&& forall|k: int| 0 <= k < 136 ==>
                #[trigger] sponge_op_cell(ts, addr, input, last, COL_IS_PADDING_BYTE + k) == 1
            &&& sponge_op_cell(ts, addr, input, last, COL_BLOCK_BYTES as int) == 0x01
            &&& sponge_op_cell(ts, addr, input, last, COL_BLOCK_BYTES + 135) == 0x80
        },
        input.len() % 136 == 135 ==> sponge_op_cell(
            ts,
            addr,
            input,
            (input.len() / 136) as int,
            COL_BLOCK_BYTES + 135,
        ) == 0x81,
{
    let last = (input.len() / 136) as int;
    let rem = input.subrange(last * 136, input.len() as int);
    assert(rem.len() == input.len() % 136);
    if input.len() % 136 == 0 {
        assert(pad_block(rem)[0] == 0x01u8);
        assert(pad_block(rem)[135] == 0x80u8);
    }
    if input.len() % 136 == 135 {
        assert(pad_block(rem)[135] == 0x81u8);
    }
}


/// A row takes part in the buses when it is a full block or the final one:
/// the sum of the full-block flag and the last padding flag.
pub open spec fn sponge_is_real(vc: VirtualPairCol, idx: Seq<usize>) -> bool {
    is_sum_of_two(vc, idx[COL_IS_PADDING_BYTE + 135], idx[COL_IS_FULL_INPUT_BLOCK as int])
}

impl KeccakSpongeChip {
    /// Receives the block on the input bus, the XOR-ed rate limbs on the XOR
    /// output bus, and the permuted state on the permutation output bus.
    pub fn receives_from_indices(&self, preprocessed_indices: &Vec<usize>, main_indices: &Vec<usize>) -> (r: Vec<Interaction>)
        requires
            main_indices@.len() == NUM_KECCAK_SPONGE_COLS,
        ensures
            r@.len() == 70,
            forall|i: int| 0 <= i < 70 ==> sponge_is_real(#[trigger] r@[i].count, main_indices@),
            r@[0].argument_index == self.bus_input,
            r@[0].fields@.len() == 137,
            is_single_main(r@[0].fields@[0], main_indices@[COL_IS_FULL_INPUT_BLOCK as int]),
            forall|k: int| 0 <= k < 136 ==> is_single_main(#[trigger] r@[0].fields@[1 + k], main_indices@[COL_BLOCK_BYTES + k]),
            forall|i: int| 0 <= i < 68 ==> (#[trigger] r@[1 + i]).argument_index == self.bus_xor_output
                && r@[1 + i].fields@.len() == 1
                && is_single_main(r@[1 + i].fields@[0], main_indices@[COL_XORED_RATE_U16S + i]),
            r@[69].argument_index == self.bus_permute_output,
            r@[69].fields@.len() == 100,
            forall|i: int| 0 <= i < 16 ==> is_limb_of_bytes(#[trigger] r@[69].fields@[i],
                main_indices@[COL_UPDATED_DIGEST_STATE_BYTES + 2 * i],
                main_indices@[COL_UPDATED_DIGEST_STATE_BYTES + 2 * i + 1]),
            forall|i: int| 0 <= i < 84 ==> is_single_main(#[trigger] r@[69].fields@[16 + i],
                main_indices@[COL_PARTIAL_UPDATED_STATE_U16S + i]),
    {
        let idx = main_indices;
        let mut r: Vec<Interaction> = Vec::new();
        let mut fields: Vec<VirtualPairCol> = Vec::new();
        fields.push(VirtualPairCol::single_main(idx[COL_IS_FULL_INPUT_BLOCK]));
        let mut k: usize = 0;
        while k < 136
            invariant
                k <= 136,
                idx@.len() == NUM_KECCAK_SPONGE_COLS,
                fields@.len() == 1 + k,
                is_single_main(fields@[0], idx@[COL_IS_FULL_INPUT_BLOCK as int]),
                forall|j: int| 0 <= j < k ==> is_single_main(#[trigger] fields@[1 + j], idx@[COL_BLOCK_BYTES + j]),
            decreases 136 - k,
        {
            fields.push(VirtualPairCol::single_main(idx[COL_BLOCK_BYTES + k]));
            k = k + 1;
        }
        let count = sum_of_two(idx[COL_IS_PADDING_BYTE + 135], idx[COL_IS_FULL_INPUT_BLOCK]);
        r.push(Interaction { fields, count, argument_index: self.bus_input });
        let mut i: usize = 0;
        while i < 68
            invariant
                i <= 68,
                idx@.len() == NUM_KECCAK_SPONGE_COLS,
                r@.len() == 1 + i,
                forall|j: int| 0 <= j < r@.len() ==> sponge_is_real(#[trigger] r@[j].count, idx@),
                r@[0].argument_index == self.bus_input,
                r@[0].fields@.len() == 137,
                is_single_main(r@[0].fields@[0], idx@[COL_IS_FULL_INPUT_BLOCK as int]),
                forall|k: int| 0 <= k < 136 ==> is_single_main(#[trigger] r@[0].fields@[1 + k], idx@[COL_BLOCK_BYTES + k]),
                forall|j: int| 0 <= j < i ==> (#[trigger] r@[1 + j]).argument_index == self.bus_xor_output
                    && r@[1 + j].fields@.len() == 1
                    && is_single_main(r@[1 + j].fields@[0], idx@[COL_XORED_RATE_U16S + j]),
            decreases 68 - i,
        {
            let count = sum_of_two(idx[COL_IS_PADDING_BYTE + 135], idx[COL_IS_FULL_INPUT_BLOCK]);
            let f = VirtualPairCol::single_main(idx[COL_XORED_RATE_U16S + i]);
            r.push(Interaction { fields: vec![f], count, argument_index: self.bus_xor_output });
            i = i + 1;
        }
        let mut state: Vec<VirtualPairCol> = Vec::new();
        let mut i: usize = 0;
        while i < 16
            invariant
                i <= 16,
                idx@.len() == NUM_KECCAK_SPONGE_COLS,
                state@.len() == i,
                forall|j: int| 0 <= j < i ==> is_limb_of_bytes(#[trigger] state@[j],
                    idx@[COL_UPDATED_DIGEST_STATE_BYTES + 2 * j],
                    idx@[COL_UPDATED_DIGEST_STATE_BYTES + 2 * j + 1]),
            decreases 16 - i,
        {
            state.push(limb_of_bytes(idx[COL_UPDATED_DIGEST_STATE_BYTES + 2 * i], idx[COL_UPDATED_DIGEST_STATE_BYTES + 2 * i + 1]));
            i = i + 1;
        }
        let mut i: usize = 0;
        while i < 84
            invariant
                i <= 84,
                idx@.len() == NUM_KECCAK_SPONGE_COLS,
                state@.len() == 16 + i,
                forall|j: int| 0 <= j < 16 ==> is_limb_of_bytes(#[trigger] state@[j],
                    idx@[COL_UPDATED_DIGEST_STATE_BYTES + 2 * j],
                    idx@[COL_UPDATED_DIGEST_STATE_BYTES + 2 * j + 1]),
                forall|j: int| 0 <= j < i ==> is_single_main(#[trigger] state@[16 + j],
                    idx@[COL_PARTIAL_UPDATED_STATE_U16S + j]),
            decreases 84 - i,
        {
            state.push(VirtualPairCol::single_main(idx[COL_PARTIAL_UPDATED_STATE_U16S + i]));
            i = i + 1;
        }
        let count = sum_of_two(idx[COL_IS_PADDING_BYTE + 135], idx[COL_IS_FULL_INPUT_BLOCK]);
        r.push(Interaction { fields: state, count, argument_index: self.bus_permute_output });
        r
    }

    /// Sends the block limbs and rate limbs to the XOR input bus and the state
    /// before the permutation to the permutation input bus, for live rows,
    /// and the digest bytes to the output bus for the block holding the end
    /// of the input only.
    pub fn sends_from_indices(&self, preprocessed_indices: &Vec<usize>, main_indices: &Vec<usize>) -> (r: Vec<Interaction>)
        requires
            main_indices@.len() == NUM_KECCAK_SPONGE_COLS,
        ensures
            r@.len() == 70,
            forall|i: int| 0 <= i < 69 ==> sponge_is_real(#[trigger] r@[i].count, main_indices@),
            is_single_main(r@[69].count, main_indices@[COL_IS_PADDING_BYTE + 135]),
            forall|i: int| 0 <= i < 68 ==> (#[trigger] r@[i]).argument_index == self.bus_xor_input
                && r@[i].fields@.len() == 2
                && is_limb_of_bytes(r@[i].fields@[0], main_indices@[COL_BLOCK_BYTES + 2 * i], main_indices@[COL_BLOCK_BYTES + 2 * i + 1])
                && is_single_main(r@[i].fields@[1], main_indices@[COL_ORIGINAL_RATE_U16S + i]),
            r@[68].argument_index == self.bus_permute_input,
            r@[68].fields@.len() == 100,
            forall|i: int| 0 <= i < 68 ==> is_single_main(#[trigger] r@[68].fields@[i], main_indices@[COL_XORED_RATE_U16S + i]),
            forall|i: int| 0 <= i < 32 ==> is_single_main(#[trigger] r@[68].fields@[68 + i], main_indices@[COL_ORIGINAL_CAPACITY_U16S + i]),
            r@[69].argument_index == self.bus_output,
            r@[69].fields@.len() == 32,
            forall|i: int| 0 <= i < 32 ==> is_single_main(#[trigger] r@[69].fields@[i], main_indices@[COL_UPDATED_DIGEST_STATE_BYTES + i]),
    {
        let idx = main_indices;
        let mut r: Vec<Interaction> = Vec::new();
        let mut i: usize = 0;
        while i < 68
            invariant
                i <= 68,
                idx@.len() == NUM_KECCAK_SPONGE_COLS,
                r@.len() == i,
                forall|j: int| 0 <= j < r@.len() ==> sponge_is_real(#[trigger] r@[j].count, idx@),
                forall|j: int| 0 <= j < i ==> (#[trigger] r@[j]).argument_index == self.bus_xor_input
                    && r@[j].fields@.len() == 2
                    && is_limb_of_bytes(r@[j].fields@[0], idx@[COL_BLOCK_BYTES + 2 * j], idx@[COL_BLOCK_BYTES + 2 * j + 1])
                    && is_single_main(r@[j].fields@[1], idx@[COL_ORIGINAL_RATE_U16S + j]),
            decreases 68 - i,
        {
            let f0 = limb_of_bytes(idx[COL_BLOCK_BYTES + 2 * i], idx[COL_BLOCK_BYTES + 2 * i + 1]);
            let f1 = VirtualPairCol::single_main(idx[COL_ORIGINAL_RATE_U16S + i]);
            let count = sum_of_two(idx[COL_IS_PADDING_BYTE + 135], idx[COL_IS_FULL_INPUT_BLOCK]);
            r.push(Interaction { fields: vec![f0, f1], count, argument_index: self.bus_xor_input });
            i = i + 1;
        }
        let mut state: Vec<VirtualPairCol> = Vec::new();
        let mut i: usize = 0;
        while i < 100
            invariant
                i <= 100,
                idx@.len() == NUM_KECCAK_SPONGE_COLS,
                state@.len() == i,
                forall|j: int| 0 <= j < i && j < 68 ==> is_single_main(#[trigger] state@[j], idx@[COL_XORED_RATE_U16S + j]),
                forall|j: int| 68 <= j < i ==> is_single_main(#[trigger] state@[j], idx@[COL_ORIGINAL_CAPACITY_U16S + j - 68]),
            decreases 100 - i,
        {
            if i < 68 {
                state.push(VirtualPairCol::single_main(idx[COL_XORED_RATE_U16S + i]));
            } else {
                state.push(VirtualPairCol::single_main(idx[COL_ORIGINAL_CAPACITY_U16S + i - 68]));
            }
            i = i + 1;
        }
        let count = sum_of_two(idx[COL_IS_PADDING_BYTE + 135], idx[COL_IS_FULL_INPUT_BLOCK]);
        r.push(Interaction { fields: state, count, argument_index: self.bus_permute_input });
        let mut digest: Vec<VirtualPairCol> = Vec::new();
        let mut i: usize = 0;
        while i < 32
            invariant
                i <= 32,
                idx@.len() == NUM_KECCAK_SPONGE_COLS,
                digest@.len() == i,
                forall|j: int| 0 <= j < i ==> is_single_main(#[trigger] digest@[j], idx@[COL_UPDATED_DIGEST_STATE_BYTES + j]),
            decreases 32 - i,
        {
            digest.push(VirtualPairCol::single_main(idx[COL_UPDATED_DIGEST_STATE_BYTES + i]));
            i = i + 1;
        }
        let count = VirtualPairCol::single_main(idx[COL_IS_PADDING_BYTE + 135]);
        r.push(Interaction { fields: digest, count, argument_index: self.bus_output });
        proof {
            assert forall|i: int| 68 <= i < 100 implies is_single_main(#[trigger] r@[68].fields@[i], main_indices@[COL_ORIGINAL_CAPACITY_U16S + i - 68]) by {}
        }
        r
    }
}

impl KeccakSpongeChip {
    /// The interactions received, over the chip's own columns.
    pub fn receives(&self) -> (r: Vec<Interaction>)
        ensures
            r@.len() == 70,
            forall|i: int| 0 <= i < 70 ==> sponge_is_real(#[trigger] r@[i].count, crate::interaction::identity_seq(NUM_KECCAK_SPONGE_COLS as int)),
            r@[0].argument_index == self.bus_input,
            r@[0].fields@.len() == 137,
            is_single_main(r@[0].fields@[0], crate::interaction::identity_seq(NUM_KECCAK_SPONGE_COLS as int)[COL_IS_FULL_INPUT_BLOCK as int]),
            forall|k: int| 0 <= k < 136 ==> is_single_main(#[trigger] r@[0].fields@[1 + k], crate::interaction::identity_seq(NUM_KECCAK_SPONGE_COLS as int)[COL_BLOCK_BYTES + k]),
            forall|i: int| 0 <= i < 68 ==> (#[trigger] r@[1 + i]).argument_index == self.bus_xor_output
                && r@[1 + i].fields@.len() == 1
                && is_single_main(r@[1 + i].fields@[0], crate::interaction::identity_seq(NUM_KECCAK_SPONGE_COLS as int)[COL_XORED_RATE_U16S + i]),
            r@[69].argument_index == self.bus_permute_output,
            r@[69].fields@.len() == 100,
            forall|i: int| 0 <= i < 16 ==> is_limb_of_bytes(#[trigger] r@[69].fields@[i],
                crate::interaction::identity_seq(NUM_KECCAK_SPONGE_COLS as int)[COL_UPDATED_DIGEST_STATE_BYTES + 2 * i],
                crate::interaction::identity_seq(NUM_KECCAK_SPONGE_COLS as int)[COL_UPDATED_DIGEST_STATE_BYTES + 2 * i + 1]),
            forall|i: int| 0 <= i < 84 ==> is_single_main(#[trigger] r@[69].fields@[16 + i],
                crate::interaction::identity_seq(NUM_KECCAK_SPONGE_COLS as int)[COL_PARTIAL_UPDATED_STATE_U16S + i]),
    {
        let idx = crate::interaction::identity_indices(NUM_KECCAK_SPONGE_COLS);
        self.receives_from_indices(&Vec::new(), &idx)
    }

    /// The interactions sent, over the chip's own columns.
    pub fn sends(&self) -> (r: Vec<Interaction>)
        ensures
            r@.len() == 70,
            forall|i: int| 0 <= i < 69 ==> sponge_is_real(#[trigger] r@[i].count, crate::interaction::identity_seq(NUM_KECCAK_SPONGE_COLS as int)),
            is_single_main(r@[69].count, crate::interaction::identity_seq(NUM_KECCAK_SPONGE_COLS as int)[COL_IS_PADDING_BYTE + 135]),
            forall|i: int| 0 <= i < 68 ==> (#[trigger] r@[i]).argument_index == self.bus_xor_input
                && r@[i].fields@.len() == 2
                && is_limb_of_bytes(r@[i].fields@[0], crate::interaction::identity_seq(NUM_KECCAK_SPONGE_COLS as int)[COL_BLOCK_BYTES + 2 * i], crate::interaction::identity_seq(NUM_KECCAK_SPONGE_COLS as int)[COL_BLOCK_BYTES + 2 * i + 1])
                && is_single_main(r@[i].fields@[1], crate::interaction::identity_seq(NUM_KECCAK_SPONGE_COLS as int)[COL_ORIGINAL_RATE_U16S + i]),
            r@[68].argument_index == self.bus_permute_input,
            r@[68].fields@.len() == 100,
            forall|i: int| 0 <= i < 68 ==> is_single_main(#[trigger] r@[68].fields@[i], crate::interaction::identity_seq(NUM_KECCAK_SPONGE_COLS as int)[COL_XORED_RATE_U16S + i]),
            forall|i: int| 0 <= i < 32 ==> is_single_main(#[trigger] r@[68].fields@[68 + i], crate::interaction::identity_seq(NUM_KECCAK_SPONGE_COLS as int)[COL_ORIGINAL_CAPACITY_U16S + i]),
            r@[69].argument_index == self.bus_output,
            r@[69].fields@.len() == 32,
            forall|i: int| 0 <= i < 32 ==> is_single_main(#[trigger] r@[69].fields@[i], crate::interaction::identity_seq(NUM_KECCAK_SPONGE_COLS as int)[COL_UPDATED_DIGEST_STATE_BYTES + i]),
    {
        let idx = crate::interaction::identity_indices(NUM_KECCAK_SPONGE_COLS);
        self.sends_from_indices(&Vec::new(), &idx)
    }
}


impl KeccakSpongeCols {
    /// The layout rebased onto `indices`.
    pub fn from_slice(indices: &Vec<usize>) -> (r: Self)
        requires
            indices@.len() == NUM_KECCAK_SPONGE_COLS,
        ensures
            r.timestamp == indices@[COL_TIMESTAMP as int],
            r.base_addr == indices@[COL_BASE_ADDR as int],
            r.is_full_input_block == indices@[COL_IS_FULL_INPUT_BLOCK as int],
            r.already_absorbed_bytes == indices@[COL_ALREADY_ABSORBED_BYTES as int],
            r.is_padding_byte@ == indices@.subrange(COL_IS_PADDING_BYTE as int, COL_ORIGINAL_RATE_U16S as int),
            r.original_rate_u16s@ == indices@.subrange(COL_ORIGINAL_RATE_U16S as int, COL_ORIGINAL_CAPACITY_U16S as int),
            r.original_capacity_u16s@ == indices@.subrange(COL_ORIGINAL_CAPACITY_U16S as int, COL_BLOCK_BYTES as int),
            r.block_bytes@ == indices@.subrange(COL_BLOCK_BYTES as int, COL_XORED_RATE_U16S as int),
            r.xored_rate_u16s@ == indices@.subrange(COL_XORED_RATE_U16S as int, COL_PARTIAL_UPDATED_STATE_U16S as int),
            r.partial_updated_state_u16s@ == indices@.subrange(COL_PARTIAL_UPDATED_STATE_U16S as int, COL_UPDATED_DIGEST_STATE_BYTES as int),
            r.updated_digest_state_bytes@ == indices@.subrange(COL_UPDATED_DIGEST_STATE_BYTES as int, NUM_KECCAK_SPONGE_COLS as int),
    {
        KeccakSpongeCols {
            timestamp: indices[COL_TIMESTAMP],
            base_addr: indices[COL_BASE_ADDR],
            is_full_input_block: indices[COL_IS_FULL_INPUT_BLOCK],
            already_absorbed_bytes: indices[COL_ALREADY_ABSORBED_BYTES],
            is_padding_byte: crate::interaction::index_range(indices, COL_IS_PADDING_BYTE, KECCAK_RATE_BYTES),
            original_rate_u16s: crate::interaction::index_range(indices, COL_ORIGINAL_RATE_U16S, KECCAK_RATE_U16S),
            original_capacity_u16s: crate::interaction::index_range(indices, COL_ORIGINAL_CAPACITY_U16S, KECCAK_CAPACITY_U16S),
            block_bytes: crate::interaction::index_range(indices, COL_BLOCK_BYTES, KECCAK_RATE_BYTES),
            xored_rate_u16s: crate::interaction::index_range(indices, COL_XORED_RATE_U16S, KECCAK_RATE_U16S),
            partial_updated_state_u16s: crate::interaction::index_range(indices, COL_PARTIAL_UPDATED_STATE_U16S, KECCAK_WIDTH_MINUS_DIGEST_U16S),
            updated_digest_state_bytes: crate::interaction::index_range(indices, COL_UPDATED_DIGEST_STATE_BYTES, KECCAK_DIGEST_BYTES),
        }
    }
}


/// Whether padding starts at byte `k`: its flag is set and the previous one is not.
pub open spec fn pad_start(row: Seq<u32>, k: int) -> int {
    if k == 0 { row[COL_IS_PADDING_BYTE as int] as int } else { row[COL_IS_PADDING_BYTE + k] - row[COL_IS_PADDING_BYTE + k - 1] }
}

/// The identities on byte `k` of a block: its padding flag is boolean, unset
/// in a full block, stays set once set, and a padding byte is `0x01` where
/// padding starts, `0x80` at the end of the block (`0x81` when both), and
/// zero elsewhere.
pub open spec fn sponge_byte_constraints(row: Seq<u32>, k: int) -> bool {
    let p = row[COL_IS_PADDING_BYTE + k] as int;
    let full = row[COL_IS_FULL_INPUT_BLOCK as int] as int;
    let last = if k == 135 { 0x80int } else { 0int };
    &&& fe(p * p) == fe(p)
    &&& fe(full * p) == 0
    &&& (k < 135 ==> fe(p * (1 - row[COL_IS_PADDING_BYTE + k + 1])) == 0)
    &&& fe(p * (row[COL_BLOCK_BYTES + k] - last - pad_start(row, k))) == 0
}

/// The identities of one sponge row: the full-block flag is boolean, a row
/// is not both a full block and a final block (so their sum, which selects
/// the live rows, is boolean), and each byte meets its identities.
pub open spec fn sponge_row_constraints(row: Seq<u32>) -> bool {
    let full = row[COL_IS_FULL_INPUT_BLOCK as int] as int;
    &&& fe(full * full) == fe(full)
    &&& fe(full * row[COL_IS_PADDING_BYTE + 135]) == 0
    &&& forall|k: int| 0 <= k < 136 ==> #[trigger] sponge_byte_constraints(row, k)
}

/// `fe(a * b)` from reduced factors.
proof fn lemma_fe_mul(a: int, b: int)
    ensures
        fe(fe(a) * fe(b)) == fe(a * b),
{
    crate::interaction::lemma_fe_mul_reduced(a, b);
}

/// `fe(a - b)` from reduced operands.
proof fn lemma_fe_sub(a: int, b: int)
    ensures
        fe(fe(a) - fe(b)) == fe(a - b),
{
    vstd::arithmetic::div_mod::lemma_sub_mod_noop(a, b, P as int);
}

impl KeccakSpongeChip {
    /// Evaluates the identities of one row of canonical field elements.
    pub fn eval(&self, local: &Vec<u32>) -> (ok: bool)
        requires
            local@.len() == NUM_KECCAK_SPONGE_COLS,
            forall|k: int| 0 <= k < local@.len() ==> is_canonical(#[trigger] local@[k] as int),
        ensures
            ok == sponge_row_constraints(local@),
    {
        let ghost l = local@;
        let full = local[COL_IS_FULL_INPUT_BLOCK];
        let last_pad = local[COL_IS_PADDING_BYTE + 135];
        proof {
            crate::field::lemma_fe_small(full as int);
            crate::field::lemma_fe_small(last_pad as int);
            crate::field::lemma_fe_small(1);
            lemma_fe_mul(full as int, full as int);
            lemma_fe_mul(full as int, last_pad as int);
        }
        if fmul(full, full) != full || fmul(full, last_pad) != 0 {
            return false;
        }
        let mut k: usize = 0;
        while k < 136
            invariant
                k <= 136,
                l == local@,
                local@.len() == NUM_KECCAK_SPONGE_COLS,
                forall|j: int| 0 <= j < local@.len() ==> is_canonical(#[trigger] local@[j] as int),
                full == l[COL_IS_FULL_INPUT_BLOCK as int],
                forall|j: int| 0 <= j < k ==> #[trigger] sponge_byte_constraints(l, j),
            decreases 136 - k,
        {
            let p = local[COL_IS_PADDING_BYTE + k];
            let byte = local[COL_BLOCK_BYTES + k];
            let start = if k == 0 { p } else { fsub(p, local[COL_IS_PADDING_BYTE + k - 1]) };
            let last: u32 = if k == 135 { 0x80 } else { 0 };
            let following: u32 = if k < 135 { local[COL_IS_PADDING_BYTE + k + 1] } else { 0 };
            let target = fsub(fsub(byte, last), start);
            proof {
                let kk = k as int;
                crate::field::lemma_fe_small(p as int);
                crate::field::lemma_fe_small(byte as int);
                crate::field::lemma_fe_small(last as int);
                crate::field::lemma_fe_small(following as int);
                crate::field::lemma_fe_small(1);
                crate::field::lemma_fe_small(start as int);
                if k > 0 {
                    crate::field::lemma_fe_small(l[COL_IS_PADDING_BYTE + kk - 1] as int);
                    lemma_fe_sub(p as int, l[COL_IS_PADDING_BYTE + kk - 1] as int);
                }
                assert(start as int == fe(pad_start(l, kk)));
                lemma_fe_sub(byte as int, last as int);
                lemma_fe_sub(byte - last, pad_start(l, kk));
                assert(target as int == fe(byte - last - pad_start(l, kk)));
                lemma_fe_mul(p as int, byte - last - pad_start(l, kk));
                lemma_fe_mul(p as int, p as int);
                lemma_fe_mul(full as int, p as int);
                lemma_fe_sub(1, following as int);
                lemma_fe_mul(p as int, 1 - following);
            }
            if fmul(p, p) != p || fmul(full, p) != 0 || (k < 135 && fmul(p, fsub(1, following)) != 0)
                || fmul(p, target) != 0 {
                proof {
                    assert(!sponge_byte_constraints(l, k as int));
                }
                return false;
            }
            proof {
                assert(sponge_byte_constraints(l, k as int));
            }
            k = k + 1;
        }
        true
    }
}


/// The padding byte at position `k` of a block whose input ends at `from`.
pub open spec fn padding_byte(from: int, k: int) -> int {
    if k == from {
        if from == 135 { 0x81 } else { 0x01 }
    } else if k == 135 {
        0x80
    } else {
        0
    }
}

/// A row absorbing a full block, or a final block whose bytes from
/// `pad_from` on follow pad10*1, satisfies every row identity.
pub proof fn lemma_sponge_row_constraints(
    ts: u32,
    addr: u32,
    already: int,
    state: Seq<u16>,
    block: Seq<u8>,
    full: bool,
    pad_from: int,
)
    requires
        block.len() == 136,
        full ==> pad_from == 136,
        !full ==> 0 <= pad_from < 136 && forall|k: int| pad_from <= k < 136 ==> #[trigger] block[k] as int == padding_byte(pad_from, k),
    ensures
        sponge_row_constraints(Seq::new(NUM_KECCAK_SPONGE_COLS as nat, |c: int| sponge_row_cell(ts, addr, already, state, block, full, pad_from, c))),
{
    let row = Seq::new(NUM_KECCAK_SPONGE_COLS as nat, |c: int| sponge_row_cell(ts, addr, already, state, block, full, pad_from, c));
    let f = row[COL_IS_FULL_INPUT_BLOCK as int] as int;
    assert(f == if full { 1int } else { 0int });
    assert(f * f == f) by (nonlinear_arith)
        requires
            f == 0 || f == 1,
    ;
    let q = row[COL_IS_PADDING_BYTE + 135] as int;
    assert(q == if full { 0int } else { 1int });
    assert(f * q == 0) by (nonlinear_arith)
        requires
            (f == 1 && q == 0) || (f == 0 && q == 1),
    ;
    assert forall|k: int| 0 <= k < 136 implies #[trigger] sponge_byte_constraints(row, k) by {
        let p = row[COL_IS_PADDING_BYTE + k] as int;
        assert(p == if !full && k >= pad_from { 1int } else { 0int });
        assert(p * p == p) by (nonlinear_arith)
            requires
                p == 0 || p == 1,
        ;
        assert(f * p == 0) by (nonlinear_arith)
            requires
                f == 0 || p == 0,
        ;
        if k < 135 {
            let next_flag = row[COL_IS_PADDING_BYTE + k + 1] as int;
            assert(next_flag == if !full && k + 1 >= pad_from { 1int } else { 0int });
            assert(p * (1 - next_flag) == 0) by (nonlinear_arith)
                requires
                    p == 0 || next_flag == 1,
            ;
        }
        let last = if k == 135 { 0x80int } else { 0int };
        let e = row[COL_BLOCK_BYTES + k] - last - pad_start(row, k);
        if p == 1 {
            assert(row[COL_BLOCK_BYTES + k] == block[k] as u32);
            assert(block[k] as int == padding_byte(pad_from, k));
            if k > 0 {
                assert(row[COL_IS_PADDING_BYTE + k - 1] == if !full && k - 1 >= pad_from { 1u32 } else { 0u32 });
            }
            assert(e == 0);
        }
        assert(p * e == 0) by (nonlinear_arith)
            requires
                p == 0 || e == 0,
        ;
    }
}

/// Every row of a generated sponge trace, real or padding, satisfies every
/// row identity of the chip.
pub proof fn lemma_sponge_trace_constraints(ops: Seq<KeccakSpongeOp>, r: int)
    requires
        r >= 0,
    ensures
        sponge_row_constraints(Seq::new(NUM_KECCAK_SPONGE_COLS as nat, |c: int| sponge_trace_cell(ops, r, c))),
    decreases ops.len(),
{
    let row = Seq::new(NUM_KECCAK_SPONGE_COLS as nat, |c: int| sponge_trace_cell(ops, r, c));
    if ops.len() > 0 && r < total_rows(ops.drop_last()) {
        lemma_sponge_trace_constraints(ops.drop_last(), r);
        assert(row =~= Seq::new(NUM_KECCAK_SPONGE_COLS as nat, |c: int| sponge_trace_cell(ops.drop_last(), r, c)));
    } else if ops.len() > 0 && r < total_rows(ops) {
        let op = ops.last();
        let b = r - total_rows(ops.drop_last());
        lemma_sponge_op_row(op.timestamp, op.addr, op.input@, b);
        assert(row =~= Seq::new(NUM_KECCAK_SPONGE_COLS as nat, |c: int| sponge_op_cell(op.timestamp, op.addr, op.input@, b, c)));
    } else {
        assert forall|c: int| 0 <= c < NUM_KECCAK_SPONGE_COLS implies row[c] == 0 by {
            lemma_trace_cell_padding(ops, r);
        }
        assert forall|k: int| 0 <= k < 136 implies #[trigger] sponge_byte_constraints(row, k) by {
            assert(row[COL_IS_PADDING_BYTE + k] == 0);
        }
    }
}

/// Each row generated for one input satisfies every row identity.
proof fn lemma_sponge_op_row(ts: u32, addr: u32, input: Seq<u8>, b: int)
    requires
        0 <= b < num_blocks(input.len()),
    ensures
        sponge_row_constraints(Seq::new(NUM_KECCAK_SPONGE_COLS as nat, |c: int| sponge_op_cell(ts, addr, input, b, c))),
{
    let full = b < input.len() / 136;
    let block = block_of(input, b);
    let pad_from = if full { 136 } else { input.len() - b * 136 };
    if !full {
        assert(b == input.len() / 136);
        let rem = input.subrange(b * 136, input.len() as int);
        assert(rem.len() == input.len() % 136);
        assert forall|k: int| pad_from <= k < 136 implies #[trigger] block[k] as int == padding_byte(pad_from, k) by {}
    }
    lemma_sponge_row_constraints(ts, addr, b * 136, state_before(input, b as nat), block, full, pad_from);
    assert(Seq::new(NUM_KECCAK_SPONGE_COLS as nat, |c: int| sponge_op_cell(ts, addr, input, b, c))
        =~= Seq::new(NUM_KECCAK_SPONGE_COLS as nat, |c: int| sponge_row_cell(ts, addr, b * 136, state_before(input, b as nat), block, full, pad_from, c)));
}


/// Every row of a table holding a generated sponge trace satisfies every row
/// identity of the chip.
pub proof fn lemma_sponge_table_constraints(ops: Seq<KeccakSpongeOp>, t: Trace)
    requires
        t.width == NUM_KECCAK_SPONGE_COLS,
        forall|r: int, c: int| 0 <= r < t.height() && 0 <= c < NUM_KECCAK_SPONGE_COLS ==>
            #[trigger] t.cell(r, c) == sponge_trace_cell(ops, r, c),
    ensures
        forall|r: int| 0 <= r < t.height() ==> sponge_row_constraints(#[trigger] t.row(r)),
{
    assert forall|r: int| 0 <= r < t.height() implies sponge_row_constraints(#[trigger] t.row(r)) by {
        lemma_sponge_trace_constraints(ops, r);
        assert forall|c: int| 0 <= c < NUM_KECCAK_SPONGE_COLS implies t.row(r)[c] == sponge_trace_cell(ops, r, c) by {
            assert(t.cell(r, c) == sponge_trace_cell(ops, r, c));
        }
        assert(t.row(r) =~= Seq::new(NUM_KECCAK_SPONGE_COLS as nat, |c: int| sponge_trace_cell(ops, r, c)));
    }
}

} // verus!
