//! The Merkle root chip: recomputes a root from a leaf and its siblings, one
//! tree level per row, selecting the order of each pair by a bit of the leaf
//! index.

use vstd::prelude::*;
use tiny_keccak::Hasher;
use crate::field::{fe, from_u32, is_canonical, fadd, fsub, fmul, P};
use crate::trace::{Trace, is_next_pow2, next_power_of_two, MAX_POW2_ARG};
use crate::interaction::{Interaction, VirtualPairCol, is_single_main};

verus! {

/// Recomputes roots of trees of depth `DEPTH` with `DIGEST_WIDTH`-byte digests.
#[derive(Clone, Debug)]
pub struct MerkleRootChip<const DEPTH: usize, const DIGEST_WIDTH: usize> {
    pub bus_hasher_input: usize,
    pub bus_hasher_output: usize,
}

/// One path: a leaf, its index, and the sibling at each level, lowest first.
#[derive(Clone, Debug)]
pub struct MerkleRootOp {
    pub leaf_index: usize,
    pub leaf_hash: Vec<u8>,
    pub siblings: Vec<Vec<u8>>,
}

/// The Keccak-256 digest of a byte string.
pub uninterp spec fn keccak256(input: Seq<u8>) -> Seq<u8>;

/// Relies on `tiny_keccak::Keccak::v256`: the Keccak-256 digest of the
/// bytes, 32 bytes long.
#[verifier::external_body]
fn keccak256_digest(input: &Vec<u8>) -> (r: Vec<u8>)
    ensures
        r@ == keccak256(input@),
        r@.len() == 32,
{
    let mut hasher = tiny_keccak::Keccak::v256();
    hasher.update(input.as_slice());
    let mut out = [0u8; 32];
    hasher.finalize(&mut out);
    out.to_vec()
}

/// The parent of two nodes: Keccak-256 of their concatenation.
pub open spec fn compress(left: Seq<u8>, right: Seq<u8>) -> Seq<u8> {
    keccak256(left + right)
}

/// The 2-to-1 compression of two 32-byte nodes.
pub fn compress_nodes(left: &Vec<u8>, right: &Vec<u8>) -> (r: Vec<u8>)
    ensures
        r@ == compress(left@, right@),
        r@.len() == 32,
{
    let mut input: Vec<u8> = Vec::new();
    let mut k: usize = 0;
    while k < left.len()
        invariant
            k <= left@.len(),
            input@ == left@.subrange(0, k as int),
        decreases left@.len() - k,
    {
        input.push(left[k]);
        k = k + 1;
        assert(input@ =~= left@.subrange(0, k as int));
    }
    let mut k: usize = 0;
    while k < right.len()
        invariant
            k <= right@.len(),
            input@ == left@ + right@.subrange(0, k as int),
        decreases right@.len() - k,
    {
        input.push(right[k]);
        k = k + 1;
        assert(input@ =~= left@ + right@.subrange(0, k as int));
    }
    assert(input@ =~= left@ + right@);
    keccak256_digest(&input)
}

/// Bit `k` of the leaf index: whether the node is a right child at level `k`.
pub open spec fn index_bit(leaf_index: usize, k: nat) -> nat {
    ((leaf_index as nat) / vstd::arithmetic::power2::pow2(k)) % 2
}

/// The node at level `k` of the path: the leaf, then each computed parent.
pub open spec fn node_at(leaf: Seq<u8>, siblings: Seq<Seq<u8>>, leaf_index: usize, k: nat) -> Seq<u8>
    decreases k,
{
    if k == 0 {
        leaf
    } else {
        output_at(node_at(leaf, siblings, leaf_index, (k - 1) as nat), siblings[k - 1], index_bit(leaf_index, (k - 1) as nat))
    }
}

/// The parent of `node` and `sibling`, ordered by `bit`.
pub open spec fn output_at(node: Seq<u8>, sibling: Seq<u8>, bit: nat) -> Seq<u8> {
    if bit == 0 { compress(node, sibling) } else { compress(sibling, node) }
}

/// The root reached from a leaf along a path of `depth` levels.
pub open spec fn merkle_root(leaf: Seq<u8>, siblings: Seq<Seq<u8>>, leaf_index: usize, depth: nat) -> Seq<u8> {
    node_at(leaf, siblings, leaf_index, depth)
}

/// The views of the siblings of an operation.
pub open spec fn siblings_of(op: MerkleRootOp) -> Seq<Seq<u8>> {
    Seq::new(op.siblings@.len(), |k: int| op.siblings@[k]@)
}

/// Column layout, for depth `d` and width `w`.
pub open spec fn col_step_flags(k: int) -> int { 1 + k }
pub open spec fn col_node(d: int, i: int) -> int { 1 + d + i }
pub open spec fn col_sibling(d: int, w: int, i: int) -> int { 1 + d + w + i }
pub open spec fn col_is_right_child(d: int, w: int) -> int { 1 + d + 2 * w }
pub open spec fn col_accumulated_index(d: int, w: int) -> int { 2 + d + 2 * w }
pub open spec fn col_left_node(d: int, w: int, i: int) -> int { 3 + d + 2 * w + i }
pub open spec fn col_right_node(d: int, w: int, i: int) -> int { 3 + d + 3 * w + i }
pub open spec fn col_output(d: int, w: int, i: int) -> int { 3 + d + 4 * w + i }
pub open spec fn merkle_width(d: int, w: int) -> int { 3 + d + 5 * w }

/// Column `c` of the row at level `round`, given the node entering it, the
/// index bit of the level and the index accumulated so far.
pub open spec fn merkle_row_cell(
    d: int,
    w: int,
    is_real: bool,
    round: int,
    bit: nat,
    acc: nat,
    node: Seq<u8>,
    sibling: Seq<u8>,
    c: int,
) -> u32 {
    let left = if bit == 0 { node } else { sibling };
    let right = if bit == 0 { sibling } else { node };
    let out = output_at(node, sibling, bit);
    if c == 0 {
        if is_real { 1 } else { 0 }
    } else if c < 1 + d {
        if c - 1 == round { 1 } else { 0 }
    } else if c < 1 + d + w {
        node[c - 1 - d] as u32
    } else if c < 1 + d + 2 * w {
        sibling[c - 1 - d - w] as u32
    } else if c == 1 + d + 2 * w {
        bit as u32
    } else if c == 2 + d + 2 * w {
        fe(acc as int) as u32
    } else if c < 3 + d + 3 * w {
        left[c - 3 - d - 2 * w] as u32
    } else if c < 3 + d + 4 * w {
        right[c - 3 - d - 3 * w] as u32
    } else {
        out[c - 3 - d - 4 * w] as u32
    }
}

/// The index accumulated up to level `round`: the low `round + 1` bits.
pub open spec fn accumulated(leaf_index: usize, round: nat) -> nat {
    (leaf_index as nat) % vstd::arithmetic::power2::pow2(round + 1)
}

/// Column `c` of the row at level `round` of a path.
pub open spec fn merkle_path_cell(
    d: int,
    w: int,
    is_real: bool,
    leaf_index: usize,
    leaf: Seq<u8>,
    siblings: Seq<Seq<u8>>,
    round: int,
    c: int,
) -> u32 {
    merkle_row_cell(
        d,
        w,
        is_real,
        round,
        index_bit(leaf_index, round as nat),
        accumulated(leaf_index, round as nat),
        node_at(leaf, siblings, leaf_index, round as nat),
        siblings[round],
        c,
    )
}

/// `n` zero bytes.
pub open spec fn zeros(n: int) -> Seq<u8> {
    Seq::new(n as nat, |i: int| 0u8)
}

/// Column `c` of row `r` of the trace generated for `ops`: `d` rows per
/// path, then padding rows of the all-zero path, not flagged real.
pub open spec fn merkle_trace_cell(ops: Seq<MerkleRootOp>, d: int, w: int, r: int, c: int) -> u32 {
    if r / d < ops.len() {
        let op = ops[r / d];
        merkle_path_cell(d, w, true, op.leaf_index, op.leaf_hash@, siblings_of(op), r % d, c)
    } else {
        merkle_path_cell(d, w, false, 0, zeros(w), Seq::new(d as nat, |k: int| zeros(w)), r % d, c)
    }
}

/// The operation is well formed: a leaf and `d` siblings of `w` bytes each.
pub open spec fn op_wf(op: MerkleRootOp, d: int, w: int) -> bool {
    &&& op.leaf_hash@.len() == w
    &&& op.siblings@.len() == d
    &&& forall|k: int| 0 <= k < d ==> (#[trigger] op.siblings@[k])@.len() == w
}

/// Builds the row of one level and returns it with the level's output.
pub fn generate_trace_row_for_round<const DEPTH: usize, const DIGEST_WIDTH: usize>(
    is_real: bool,
    round: usize,
    accumulated_index: usize,
    is_right_child: usize,
    node: &Vec<u8>,
    sibling: &Vec<u8>,
) -> (r: (Vec<u32>, Vec<u8>))
    requires
        DIGEST_WIDTH == 32,
        DEPTH <= 31,
        round < DEPTH,
        is_right_child < 2,
        accumulated_index <= u32::MAX,
        node@.len() == 32,
        sibling@.len() == 32,
    ensures
        r.0@.len() == merkle_width(DEPTH as int, 32),
        forall|c: int| 0 <= c < merkle_width(DEPTH as int, 32) ==> #[trigger] r.0@[c] == merkle_row_cell(
            DEPTH as int,
            32,
            is_real,
            round as int,
            is_right_child as nat,
            accumulated_index as nat,
            node@,
            sibling@,
            c,
        ),
        r.1@ == output_at(node@, sibling@, is_right_child as nat),
        r.1@.len() == 32,
{
    let d = DEPTH;
    let (left, right) = if is_right_child == 0 { (node, sibling) } else { (sibling, node) };
    let output = compress_nodes(left, right);
    let mut row: Vec<u32> = Vec::new();
    row.push(if is_real { 1 } else { 0 });
    let mut k: usize = 0;
    while k < d
        invariant
            k <= d,
            d == DEPTH,
            d <= 31,
            row@.len() == 1 + k,
            forall|c: int| 0 <= c < 1 + k ==> #[trigger] row@[c] == merkle_row_cell(d as int, 32, is_real, round as int, is_right_child as nat, accumulated_index as nat, node@, sibling@, c),
        decreases d - k,
    {
        row.push(if k == round { 1 } else { 0 });
        k = k + 1;
    }
    let mut k: usize = 0;
    while k < 32
        invariant
            k <= 32,
            d == DEPTH,
            d <= 31,
            node@.len() == 32,
            row@.len() == 1 + d + k,
            forall|c: int| 0 <= c < 1 + d + k ==> #[trigger] row@[c] == merkle_row_cell(d as int, 32, is_real, round as int, is_right_child as nat, accumulated_index as nat, node@, sibling@, c),
        decreases 32 - k,
    {
        row.push(node[k] as u32);
        k = k + 1;
    }
    let mut k: usize = 0;
    while k < 32
        invariant
            k <= 32,
            d == DEPTH,
            d <= 31,
            sibling@.len() == 32,
            row@.len() == 33 + d + k,
            forall|c: int| 0 <= c < 33 + d + k ==> #[trigger] row@[c] == merkle_row_cell(d as int, 32, is_real, round as int, is_right_child as nat, accumulated_index as nat, node@, sibling@, c),
        decreases 32 - k,
    {
        row.push(sibling[k] as u32);
        k = k + 1;
    }
    row.push(is_right_child as u32);
    row.push(from_u32(accumulated_index as u32));
    let mut k: usize = 0;
    while k < 32
        invariant
            k <= 32,
            d == DEPTH,
            d <= 31,
            is_right_child < 2,
            left@.len() == 32,
            left@ == (if is_right_child == 0 { node@ } else { sibling@ }),
            row@.len() == 67 + d + k,
            forall|c: int| 0 <= c < 67 + d + k ==> #[trigger] row@[c] == merkle_row_cell(d as int, 32, is_real, round as int, is_right_child as nat, accumulated_index as nat, node@, sibling@, c),
        decreases 32 - k,
    {
        row.push(left[k] as u32);
        k = k + 1;
    }
    let mut k: usize = 0;
    while k < 32
        invariant
            k <= 32,
            d == DEPTH,
            d <= 31,
            is_right_child < 2,
            right@.len() == 32,
            right@ == (if is_right_child == 0 { sibling@ } else { node@ }),
            row@.len() == 99 + d + k,
            forall|c: int| 0 <= c < 99 + d + k ==> #[trigger] row@[c] == merkle_row_cell(d as int, 32, is_real, round as int, is_right_child as nat, accumulated_index as nat, node@, sibling@, c),
        decreases 32 - k,
    {
        row.push(right[k] as u32);
        k = k + 1;
    }
    let mut k: usize = 0;
    while k < 32
        invariant
            k <= 32,
            d == DEPTH,
            d <= 31,
            is_right_child < 2,
            output@.len() == 32,
            output@ == output_at(node@, sibling@, is_right_child as nat),
            row@.len() == 131 + d + k,
            forall|c: int| 0 <= c < 131 + d + k ==> #[trigger] row@[c] == merkle_row_cell(d as int, 32, is_real, round as int, is_right_child as nat, accumulated_index as nat, node@, sibling@, c),
        decreases 32 - k,
    {
        row.push(output[k] as u32);
        k = k + 1;
    }
    (row, output)
}


/// Row `m * d + k` of a table of `d`-row blocks is row `k` of block `m`.
pub proof fn lemma_block_row(m: int, d: int, k: int)
    requires
        m >= 0,
        d > 0,
        0 <= k < d,
    ensures
        (m * d + k) / d == m,
        (m * d + k) % d == k,
{
    vstd::arithmetic::div_mod::lemma_fundamental_div_mod_converse(m * d + k, d, m, k);
}

impl<const DEPTH: usize, const DIGEST_WIDTH: usize> MerkleRootChip<DEPTH, DIGEST_WIDTH> {
    /// The layout's parameters are those this chip supports: 32-byte digests
    /// and depths whose indices fit a field element.
    pub open spec fn supported() -> bool {
        &&& DIGEST_WIDTH == 32
        &&& 1 <= DEPTH <= 31
    }

    /// Number of main columns.
    pub fn width(&self) -> (r: usize)
        requires
            Self::supported(),
        ensures
            r == merkle_width(DEPTH as int, DIGEST_WIDTH as int),
    {
        3 + DEPTH + 5 * DIGEST_WIDTH
    }

    /// Appends the first `num_rows` levels of the path of `op`.
    pub fn generate_trace_rows_for_op(trace: &mut Trace, op: &MerkleRootOp, is_real: bool, num_rows: usize)
        requires
            Self::supported(),
            op_wf(*op, DEPTH as int, 32),
            num_rows <= DEPTH,
            old(trace).width == merkle_width(DEPTH as int, 32),
            old(trace).values@.len() == old(trace).height() * old(trace).width,
            (old(trace).height() + num_rows) * old(trace).width <= usize::MAX,
        ensures
            final(trace).width == old(trace).width,
            final(trace).height() == old(trace).height() + num_rows,
            final(trace).values@.len() == final(trace).height() * final(trace).width,
            forall|r: int, c: int| 0 <= r < old(trace).height() && 0 <= c < old(trace).width ==>
                #[trigger] final(trace).cell(r, c) == old(trace).cell(r, c),
            forall|k: int, c: int| 0 <= k < num_rows && 0 <= c < old(trace).width ==>
                #[trigger] final(trace).cell(old(trace).height() + k, c) == merkle_path_cell(
                    DEPTH as int, 32, is_real, op.leaf_index, op.leaf_hash@, siblings_of(*op), k, c),
    {
        let ghost h0 = trace.height();
        let ghost t0 = *trace;
        let ghost sibs = siblings_of(*op);
        let width = 3 + DEPTH + 5 * DIGEST_WIDTH;
        let mut node: Vec<u8> = op.leaf_hash.clone();
        assert(node@ == op.leaf_hash@);
        let mut pw: usize = 1;
        let mut round: usize = 0;
        proof {
            vstd::arithmetic::power2::lemma2_to64();
        }
        while round < num_rows
            invariant
                Self::supported(),
                op_wf(*op, DEPTH as int, 32),
                sibs == siblings_of(*op),
                num_rows <= DEPTH,
                round <= num_rows,
                width == merkle_width(DEPTH as int, 32),
                pw as nat == vstd::arithmetic::power2::pow2(round as nat),
                node@ == node_at(op.leaf_hash@, sibs, op.leaf_index, round as nat),
                node@.len() == 32,
                trace.width == width,
                trace.height() == h0 + round,
                trace.values@.len() == trace.height() * trace.width,
                (h0 + num_rows) * width <= usize::MAX,
                forall|r: int, c: int| 0 <= r < h0 && 0 <= c < width ==>
                    #[trigger] trace.cell(r, c) == t0.cell(r, c),
                forall|k: int, c: int| 0 <= k < round && 0 <= c < width ==>
                    #[trigger] trace.cell(h0 + k, c) == merkle_path_cell(
                        DEPTH as int, 32, is_real, op.leaf_index, op.leaf_hash@, sibs, k, c),
            decreases num_rows - round,
        {
            proof {
                vstd::arithmetic::power2::lemma_pow2_unfold((round + 1) as nat);
                if round + 1 < 31 {
                    vstd::arithmetic::power2::lemma_pow2_strictly_increases((round + 1) as nat, 31);
                }
                vstd::arithmetic::power2::lemma2_to64();
            }
            let is_right_child = (op.leaf_index / pw) % 2;
            let accumulated_index = op.leaf_index % (2 * pw);
            let sibling = &op.siblings[round];
            assert(sibling@ == sibs[round as int]);
            let (row, output) = Self::row_for_round(is_real, round, accumulated_index, is_right_child, &node, sibling);
            proof {
                assert((trace.height() + 1) * width <= (h0 + num_rows) * width) by (nonlinear_arith)
                    requires
                        trace.height() + 1 <= h0 + num_rows,
                ;
                assert(trace.height() * width + width == (trace.height() + 1) * width) by (nonlinear_arith);
            }
            trace.push_row(&row);
            node = output;
            pw = 2 * pw;
            round = round + 1;
        }
    }

    /// The row of one level, through the layout of this chip.
    fn row_for_round(
        is_real: bool,
        round: usize,
        accumulated_index: usize,
        is_right_child: usize,
        node: &Vec<u8>,
        sibling: &Vec<u8>,
    ) -> (r: (Vec<u32>, Vec<u8>))
        requires
            Self::supported(),
            round < DEPTH,
            is_right_child < 2,
            accumulated_index <= u32::MAX,
            node@.len() == 32,
            sibling@.len() == 32,
        ensures
            r.0@.len() == merkle_width(DEPTH as int, 32),
            forall|c: int| 0 <= c < merkle_width(DEPTH as int, 32) ==> #[trigger] r.0@[c] == merkle_row_cell(
                DEPTH as int, 32, is_real, round as int, is_right_child as nat, accumulated_index as nat,
                node@, sibling@, c),
            r.1@ == output_at(node@, sibling@, is_right_child as nat),
            r.1@.len() == 32,
    {
        let (row, output) = generate_trace_row_for_round::<DEPTH, DIGEST_WIDTH>(
            is_real, round, accumulated_index, is_right_child, node, sibling);
        proof {
            assert(output@ == output_at(node@, sibling@, is_right_child as nat));
        }
        (row, output)
    }
}


/// Every operation is well formed.
pub open spec fn ops_wf(ops: Seq<MerkleRootOp>, d: int, w: int) -> bool {
    forall|i: int| 0 <= i < ops.len() ==> op_wf(#[trigger] ops[i], d, w)
}

/// `n` zero bytes.
fn zero_bytes(n: usize) -> (r: Vec<u8>)
    ensures
        r@ == zeros(n as int),
{
    let mut r: Vec<u8> = Vec::new();
    let mut k: usize = 0;
    while k < n
        invariant
            k <= n,
            r@.len() == k,
            forall|j: int| 0 <= j < k ==> r@[j] == 0u8,
        decreases n - k,
    {
        r.push(0);
        k = k + 1;
    }
    assert(r@ =~= zeros(n as int));
    r
}

impl<const DEPTH: usize, const DIGEST_WIDTH: usize> MerkleRootChip<DEPTH, DIGEST_WIDTH> {
    /// The all-zero path at index zero, used for padding.
    pub fn default_op() -> (op: MerkleRootOp)
        requires
            Self::supported(),
        ensures
            op_wf(op, DEPTH as int, 32),
            op.leaf_index == 0,
            op.leaf_hash@ == zeros(32),
            siblings_of(op) == Seq::new(DEPTH as nat, |k: int| zeros(32)),
    {
        let leaf_hash = zero_bytes(32);
        let mut siblings: Vec<Vec<u8>> = Vec::new();
        let mut k: usize = 0;
        while k < DEPTH
            invariant
                k <= DEPTH,
                siblings@.len() == k,
                forall|j: int| 0 <= j < k ==> (#[trigger] siblings@[j])@ == zeros(32),
            decreases DEPTH - k,
        {
            siblings.push(zero_bytes(32));
            k = k + 1;
        }
        let op = MerkleRootOp { leaf_index: 0, leaf_hash, siblings };
        assert(siblings_of(op) =~= Seq::new(DEPTH as nat, |k: int| zeros(32)));
        op
    }

    /// Generates the trace of `operations`: `DEPTH` rows per path, then the
    /// all-zero path, not flagged real, up to the next power of two.
    pub fn generate_trace(operations: Vec<MerkleRootOp>) -> (t: Trace)
        requires
            Self::supported(),
            ops_wf(operations@, DEPTH as int, 32),
            operations@.len() * DEPTH <= MAX_POW2_ARG,
            (2 * operations@.len() * DEPTH + 1) * merkle_width(DEPTH as int, 32) <= usize::MAX,
        ensures
            t.wf(),
            t.width == merkle_width(DEPTH as int, 32),
            is_next_pow2(t.height(), (operations@.len() * DEPTH) as nat),
            forall|r: int, c: int| 0 <= r < t.height() && 0 <= c < t.width ==>
                #[trigger] t.cell(r, c) == merkle_trace_cell(operations@, DEPTH as int, 32, r, c),
    {
        let d = DEPTH;
        let width = 3 + DEPTH + 5 * DIGEST_WIDTH;
        let n = operations.len();
        let num_real_rows = n * d;
        let num_rows = next_power_of_two(num_real_rows);
        let mut trace = Trace::empty(width);
        let mut i: usize = 0;
        while i < n
            invariant
                Self::supported(),
                d == DEPTH,
                n == operations@.len(),
                i <= n,
                num_real_rows == n * d,
                ops_wf(operations@, d as int, 32),
                width == merkle_width(d as int, 32),
                (2 * n * d + 1) * width <= usize::MAX,
                trace.width == width,
                trace.height() == i * d,
                trace.values@.len() == trace.height() * trace.width,
                forall|r: int, c: int| 0 <= r < trace.height() && 0 <= c < width ==>
                    #[trigger] trace.cell(r, c) == merkle_trace_cell(operations@, d as int, 32, r, c),
            decreases n - i,
        {
            proof {
                assert((i * d + d) * width <= (2 * n * d + 1) * width) by (nonlinear_arith)
                    requires
                        i < n,
                        d >= 1,
                ;
                assert(i * d + d == (i + 1) * d) by (nonlinear_arith);
            }
            let ghost h0 = trace.height();
            Self::generate_trace_rows_for_op(&mut trace, &operations[i], true, d);
            proof {
                assert forall|r: int, c: int| 0 <= r < trace.height() && 0 <= c < width implies
                    #[trigger] trace.cell(r, c) == merkle_trace_cell(operations@, d as int, 32, r, c) by {
                    if r >= h0 {
                        let k = r - h0;
                        lemma_block_row(i as int, d as int, k);
                        assert(trace.cell(h0 + k, c) == merkle_path_cell(d as int, 32, true, operations@[i as int].leaf_index, operations@[i as int].leaf_hash@, siblings_of(operations@[i as int]), k, c));
                    }
                }
            }
            i = i + 1;
        }
        let padding = Self::default_op();
        let mut m: usize = n;
        while m * d < num_rows
            invariant
                Self::supported(),
                d == DEPTH,
                n == operations@.len(),
                n <= m,
                num_real_rows == n * d,
                is_next_pow2(num_rows as nat, num_real_rows as nat),
                m * d <= num_rows,
                width == merkle_width(d as int, 32),
                (2 * n * d + 1) * width <= usize::MAX,
                op_wf(padding, d as int, 32),
                padding.leaf_index == 0,
                padding.leaf_hash@ == zeros(32),
                siblings_of(padding) == Seq::new(d as nat, |k: int| zeros(32)),
                trace.width == width,
                trace.height() == m * d,
                trace.values@.len() == trace.height() * trace.width,
                forall|r: int, c: int| 0 <= r < trace.height() && 0 <= c < width ==>
                    #[trigger] trace.cell(r, c) == merkle_trace_cell(operations@, d as int, 32, r, c),
            decreases num_rows - m * d,
        {
            let remaining = num_rows - m * d;
            let rows = if remaining < d { remaining } else { d };
            proof {
                assert((m * d + rows) * width <= (2 * n * d + 1) * width) by (nonlinear_arith)
                    requires
                        m * d + rows <= num_rows,
                        num_rows == 1 || num_rows / 2 < n * d,
                ;
            }
            let ghost h0 = trace.height();
            Self::generate_trace_rows_for_op(&mut trace, &padding, false, rows);
            proof {
                assert forall|r: int, c: int| 0 <= r < trace.height() && 0 <= c < width implies
                    #[trigger] trace.cell(r, c) == merkle_trace_cell(operations@, d as int, 32, r, c) by {
                    if r >= h0 {
                        let k = r - h0;
                        lemma_block_row(m as int, d as int, k);
                        assert(trace.cell(h0 + k, c) == merkle_path_cell(d as int, 32, false, 0, zeros(32), siblings_of(padding), k, c));
                    }
                }
                if rows < d {
                    assert(m * d + rows == num_rows);
                }
            }
            if rows < d {
                proof {
                    assert(trace.height() == num_rows);
                }
                return trace;
            }
            proof {
                assert(m * d + d == (m + 1) * d) by (nonlinear_arith);
                assert(m <= m * d) by (nonlinear_arith)
                    requires
                        d >= 1,
                ;
            }
            m = m + 1;
        }
        proof {
            assert(m * d == num_rows);
        }
        trace
    }
}


/// The last row of a path holds, in its output columns, the root obtained by
/// compressing level by level, each pair ordered by a bit of the leaf index;
/// its accumulated index is the leaf index reduced to `depth` bits, so the
/// leaf index itself whenever it is below `2^depth`.
pub proof fn lemma_merkle_final_row(is_real: bool, leaf_index: usize, leaf: Seq<u8>, siblings: Seq<Seq<u8>>, depth: int)
    requires
        1 <= depth <= 31,
    ensures
        forall|i: int| 0 <= i < 32 ==> #[trigger] merkle_path_cell(depth, 32, is_real, leaf_index, leaf, siblings, depth - 1, col_output(depth, 32, i))
            == merkle_root(leaf, siblings, leaf_index, depth as nat)[i] as u32,
        merkle_path_cell(depth, 32, is_real, leaf_index, leaf, siblings, depth - 1, col_accumulated_index(depth, 32))
            == fe((leaf_index as nat % vstd::arithmetic::power2::pow2(depth as nat)) as int) as u32,
        (leaf_index as nat) < vstd::arithmetic::power2::pow2(depth as nat) ==>
            merkle_path_cell(depth, 32, is_real, leaf_index, leaf, siblings, depth - 1, col_accumulated_index(depth, 32))
                == fe(leaf_index as int) as u32,
{
    let last = (depth - 1) as nat;
    assert(node_at(leaf, siblings, leaf_index, depth as nat) == output_at(node_at(leaf, siblings, leaf_index, last), siblings[last as int], index_bit(leaf_index, last)));
    if (leaf_index as nat) < vstd::arithmetic::power2::pow2(depth as nat) {
        vstd::arithmetic::div_mod::lemma_small_mod(leaf_index as nat, vstd::arithmetic::power2::pow2(depth as nat));
    }
}

/// The tuple a Merkle row sends to the hasher: a zero flag, the two nodes,
/// then the pad10*1 bytes of a 64-byte message.
pub open spec fn hasher_input_constant(k: int) -> u32 {
    if k == 64 { 1 } else if k == 135 { 0x80 } else { 0 }
}

impl<const DEPTH: usize, const DIGEST_WIDTH: usize> MerkleRootChip<DEPTH, DIGEST_WIDTH> {
    /// Receives each level's output from the hasher's output bus, for real rows.
    pub fn receives_from_indices(&self, preprocessed_indices: &Vec<usize>, main_indices: &Vec<usize>) -> (r: Vec<Interaction>)
        requires
            Self::supported(),
            main_indices@.len() == merkle_width(DEPTH as int, 32),
        ensures
            r@.len() == 1,
            r@[0].argument_index == self.bus_hasher_output,
            is_single_main(r@[0].count, main_indices@[0]),
            r@[0].fields@.len() == 32,
            forall|i: int| 0 <= i < 32 ==> is_single_main(#[trigger] r@[0].fields@[i], main_indices@[col_output(DEPTH as int, 32, i)]),
    {
        let base = 3 + DEPTH + 4 * DIGEST_WIDTH;
        let mut fields: Vec<VirtualPairCol> = Vec::new();
        let mut i: usize = 0;
        while i < 32
            invariant
                Self::supported(),
                i <= 32,
                base == col_output(DEPTH as int, 32, 0),
                main_indices@.len() == merkle_width(DEPTH as int, 32),
                fields@.len() == i,
                forall|j: int| 0 <= j < i ==> is_single_main(#[trigger] fields@[j], main_indices@[col_output(DEPTH as int, 32, j)]),
            decreases 32 - i,
        {
            fields.push(VirtualPairCol::single_main(main_indices[base + i]));
            i = i + 1;
        }
        let count = VirtualPairCol::single_main(main_indices[0]);
        vec![Interaction { fields, count, argument_index: self.bus_hasher_output }]
    }

    /// Sends each level's ordered pair, padded into one sponge block, to the
    /// hasher's input bus, for real rows.
    pub fn sends_from_indices(&self, preprocessed_indices: &Vec<usize>, main_indices: &Vec<usize>) -> (r: Vec<Interaction>)
        requires
            Self::supported(),
            main_indices@.len() == merkle_width(DEPTH as int, 32),
        ensures
            r@.len() == 1,
            r@[0].argument_index == self.bus_hasher_input,
            is_single_main(r@[0].count, main_indices@[0]),
            r@[0].fields@.len() == 137,
            r@[0].fields@[0].constant == 0 && r@[0].fields@[0].column_weights@.len() == 0,
            forall|i: int| 0 <= i < 32 ==> is_single_main(#[trigger] r@[0].fields@[1 + i], main_indices@[col_left_node(DEPTH as int, 32, i)]),
            forall|i: int| 0 <= i < 32 ==> is_single_main(#[trigger] r@[0].fields@[33 + i], main_indices@[col_right_node(DEPTH as int, 32, i)]),
            forall|k: int| 64 <= k < 136 ==> (#[trigger] r@[0].fields@[1 + k]).constant == hasher_input_constant(k)
                && r@[0].fields@[1 + k].column_weights@.len() == 0,
    {
        let left = 3 + DEPTH + 2 * DIGEST_WIDTH;
        let mut fields: Vec<VirtualPairCol> = Vec::new();
        fields.push(VirtualPairCol::constant(0));
        let mut i: usize = 0;
        while i < 64
            invariant
                Self::supported(),
                i <= 64,
                left == col_left_node(DEPTH as int, 32, 0),
                main_indices@.len() == merkle_width(DEPTH as int, 32),
                fields@.len() == 1 + i,
                fields@[0].constant == 0 && fields@[0].column_weights@.len() == 0,
                forall|j: int| 0 <= j < i ==> is_single_main(#[trigger] fields@[1 + j], main_indices@[left + j]),
            decreases 64 - i,
        {
            fields.push(VirtualPairCol::single_main(main_indices[left + i]));
            i = i + 1;
        }
        let mut k: usize = 64;
        while k < 136
            invariant
                Self::supported(),
                64 <= k <= 136,
                left == col_left_node(DEPTH as int, 32, 0),
                main_indices@.len() == merkle_width(DEPTH as int, 32),
                fields@.len() == 1 + k,
                fields@[0].constant == 0 && fields@[0].column_weights@.len() == 0,
                forall|j: int| 0 <= j < 64 ==> is_single_main(#[trigger] fields@[1 + j], main_indices@[left + j]),
                forall|j: int| 64 <= j < k ==> (#[trigger] fields@[1 + j]).constant == hasher_input_constant(j)
                    && fields@[1 + j].column_weights@.len() == 0,
            decreases 136 - k,
        {
            let v: u32 = if k == 64 { 1 } else if k == 135 { 0x80 } else { 0 };
            fields.push(VirtualPairCol::constant(v));
            k = k + 1;
        }
        proof {
            assert forall|i: int| 0 <= i < 32 implies is_single_main(#[trigger] fields@[33 + i], main_indices@[col_right_node(DEPTH as int, 32, i)]) by {
                assert(fields@[1 + (32 + i)] == fields@[33 + i]);
            }
        }
        let count = VirtualPairCol::single_main(main_indices[0]);
        vec![Interaction { fields, count, argument_index: self.bus_hasher_input }]
    }
}

impl<const DEPTH: usize, const DIGEST_WIDTH: usize> MerkleRootChip<DEPTH, DIGEST_WIDTH> {
    /// The interactions received, over the chip's own columns.
    pub fn receives(&self) -> (r: Vec<Interaction>)
        requires
            Self::supported(),
        ensures
            r@.len() == 1,
            r@[0].argument_index == self.bus_hasher_output,
            is_single_main(r@[0].count, crate::interaction::identity_seq(merkle_width(DEPTH as int, 32))[0]),
            r@[0].fields@.len() == 32,
            forall|i: int| 0 <= i < 32 ==> is_single_main(#[trigger] r@[0].fields@[i], crate::interaction::identity_seq(merkle_width(DEPTH as int, 32))[col_output(DEPTH as int, 32, i)]),
    {
        let idx = crate::interaction::identity_indices(3 + DEPTH + 5 * DIGEST_WIDTH);
        self.receives_from_indices(&Vec::new(), &idx)
    }

    /// The interactions sent, over the chip's own columns.
    pub fn sends(&self) -> (r: Vec<Interaction>)
        requires
            Self::supported(),
        ensures
            r@.len() == 1,
            r@[0].argument_index == self.bus_hasher_input,
            is_single_main(r@[0].count, crate::interaction::identity_seq(merkle_width(DEPTH as int, 32))[0]),
            r@[0].fields@.len() == 137,
            r@[0].fields@[0].constant == 0 && r@[0].fields@[0].column_weights@.len() == 0,
            forall|i: int| 0 <= i < 32 ==> is_single_main(#[trigger] r@[0].fields@[1 + i], crate::interaction::identity_seq(merkle_width(DEPTH as int, 32))[col_left_node(DEPTH as int, 32, i)]),
            forall|i: int| 0 <= i < 32 ==> is_single_main(#[trigger] r@[0].fields@[33 + i], crate::interaction::identity_seq(merkle_width(DEPTH as int, 32))[col_right_node(DEPTH as int, 32, i)]),
            forall|k: int| 64 <= k < 136 ==> (#[trigger] r@[0].fields@[1 + k]).constant == hasher_input_constant(k)
                && r@[0].fields@[1 + k].column_weights@.len() == 0,
    {
        let idx = crate::interaction::identity_indices(3 + DEPTH + 5 * DIGEST_WIDTH);
        self.sends_from_indices(&Vec::new(), &idx)
    }
}


/// `sum(next.flags[i] * 2^i) * next.is_right_child`: the weight of the next
/// level's index bit.
pub open spec fn bit_factor(next: Seq<u32>, d: int, k: int) -> int
    decreases k,
{
    if k <= 0 {
        0
    } else {
        bit_factor(next, d, k - 1) + next[col_step_flags(k - 1)] * vstd::arithmetic::power2::pow2((k - 1) as nat)
    }
}

/// The identities of the chip on a row and the next, over the field, in
/// the order the chip asserts them; the step flags' own identities are those
/// of the step-flags AIR on columns `1 ..= d`.
pub open spec fn merkle_constraints(local: Seq<u32>, next: Seq<u32>, d: int, w: int) -> bool {
    let first = local[col_step_flags(0)] as int;
    let not_final = 1 - local[col_step_flags(d - 1)];
    let bit = local[col_is_right_child(d, w)] as int;
    &&& forall|i: int| 0 <= i < d ==> #[trigger] next[col_step_flags((i + 1) % d)] == local[col_step_flags(i)]
    &&& fe(local[0] * local[0]) == fe(local[0] as int)
    &&& fe(bit * bit) == fe(bit)
    &&& fe(first * (local[col_accumulated_index(d, w)] - bit)) == 0
    &&& fe(not_final * (next[col_accumulated_index(d, w)] - (bit_factor(next, d, d) * next[col_is_right_child(d, w)]
        + local[col_accumulated_index(d, w)]))) == 0
    &&& forall|i: int| 0 <= i < w ==> #[trigger] merkle_node_constraints(local, next, d, w, i)
}

/// The identities on byte `i` of the nodes: left and right are the node and
/// the sibling, swapped when the node is a right child, and the output is the
/// next row's node unless this is the last level.
pub open spec fn merkle_node_constraints(local: Seq<u32>, next: Seq<u32>, d: int, w: int, i: int) -> bool {
    let not_final = 1 - local[col_step_flags(d - 1)];
    let bit = local[col_is_right_child(d, w)] as int;
    &&& fe(local[col_left_node(d, w, i)] as int) == fe(
        local[col_node(d, i)] - bit * (local[col_node(d, i)] - local[col_sibling(d, w, i)]))
    &&& fe(local[col_right_node(d, w, i)] as int) == fe(
        local[col_sibling(d, w, i)] + bit * (local[col_node(d, i)] - local[col_sibling(d, w, i)]))
    &&& fe(not_final * (local[col_output(d, w, i)] - next[col_node(d, i)])) == 0
}

/// The identities of the first row: the step flags start at the first phase.
pub open spec fn merkle_first_row_constraints(local: Seq<u32>, d: int) -> bool {
    crate::airs::step_flags::step_flags_first_row(local.subrange(1, 1 + d), d)
}

/// `fe(a * b)` from reduced factors.
proof fn lemma_fe_mul(a: int, b: int)
    ensures
        fe(fe(a) * fe(b)) == fe(a * b),
{
    crate::interaction::lemma_fe_mul_reduced(a, b);
}

/// `fe(a + b)` from reduced summands.
proof fn lemma_fe_add(a: int, b: int)
    ensures
        fe(fe(a) + fe(b)) == fe(a + b),
{
    crate::interaction::lemma_fe_add_reduced(a, b);
}

/// `fe(a - b)` from reduced operands.
proof fn lemma_fe_sub(a: int, b: int)
    ensures
        fe(fe(a) - fe(b)) == fe(a - b),
{
    vstd::arithmetic::div_mod::lemma_sub_mod_noop(a, b, P as int);
}

/// A canonical element is its own reduction.
proof fn lemma_fe_canonical(a: u32)
    requires
        is_canonical(a as int),
    ensures
        fe(a as int) == a,
{
    crate::field::lemma_fe_small(a as int);
}

impl<const DEPTH: usize, const DIGEST_WIDTH: usize> MerkleRootChip<DEPTH, DIGEST_WIDTH> {
    /// Evaluates the identities the chip asserts on a row and the next row;
    /// on the first row of a table the step flags' start is checked too.
    pub fn eval(&self, local: &Vec<u32>, next: &Vec<u32>, is_first_row: bool) -> (ok: bool)
        requires
            Self::supported(),
            local@.len() == merkle_width(DEPTH as int, 32),
            next@.len() == merkle_width(DEPTH as int, 32),
            forall|k: int| 0 <= k < local@.len() ==> is_canonical(#[trigger] local@[k] as int),
            forall|k: int| 0 <= k < next@.len() ==> is_canonical(#[trigger] next@[k] as int),
        ensures
            ok == (merkle_constraints(local@, next@, DEPTH as int, 32)
                && (is_first_row ==> merkle_first_row_constraints(local@, DEPTH as int))),
    {
        let d = DEPTH;
        let ghost (l, n) = (local@, next@);
        let lflags = copy_cols(local, 1, d);
        let nflags = copy_cols(next, 1, d);
        assert(lflags@ =~= l.subrange(1, 1 + d as int));
        let flags_air = crate::airs::step_flags::StepFlagsAir::<DEPTH>;
        if is_first_row && !flags_air.eval_first_row(&lflags) {
            return false;
        }
        if !flags_air.eval_transition(&lflags, &nflags) {
            proof {
                assert(!merkle_constraints(l, n, d as int, 32)) by {
                    if merkle_constraints(l, n, d as int, 32) {
                        assert forall|i: int| 0 <= i < d implies #[trigger] nflags@[(i + 1) % (d as int)] == lflags@[i] by {
                            vstd::arithmetic::div_mod::lemma_mod_bound(i + 1, d as int);
                            assert(n[col_step_flags((i + 1) % (d as int))] == l[col_step_flags(i)]);
                        }
                    }
                }
            }
            return false;
        }
        proof {
            assert forall|i: int| 0 <= i < d implies #[trigger] n[col_step_flags((i + 1) % (d as int))] == l[col_step_flags(i)] by {
                vstd::arithmetic::div_mod::lemma_mod_bound(i + 1, d as int);
                assert(nflags@[(i + 1) % (d as int)] == lflags@[i]);
            }
        }
        let is_real = local[0];
        let bit = local[1 + d + 64];
        let acc = local[2 + d + 64];
        let first = local[1];
        let not_final = fsub(1, local[d]);
        proof {
            lemma_fe_mul(is_real as int, is_real as int);
            lemma_fe_mul(bit as int, bit as int);
            lemma_fe_canonical(is_real);
            lemma_fe_canonical(bit);
            lemma_fe_canonical(acc);
            lemma_fe_canonical(first);
            lemma_fe_canonical(1);
            lemma_fe_canonical(local@[d as int]);
        }
        if fmul(is_real, is_real) != is_real || fmul(bit, bit) != bit {
            return false;
        }
        proof {
            lemma_fe_sub(acc as int, bit as int);
            lemma_fe_mul(first as int, acc - bit);
        }
        if fmul(first, fsub(acc, bit)) != 0 {
            return false;
        }
        let mut factor: u32 = 0;
        let mut pw: u32 = 1;
        let mut i: usize = 0;
        proof {
            vstd::arithmetic::power2::lemma2_to64();
        }
        while i < d
            invariant
                Self::supported(),
                d == DEPTH,
                i <= d,
                n == next@,
                next@.len() == merkle_width(DEPTH as int, 32),
                forall|k: int| 0 <= k < next@.len() ==> is_canonical(#[trigger] next@[k] as int),
                is_canonical(factor as int),
                factor as int == fe(bit_factor(n, d as int, i as int)),
                pw as int == fe(vstd::arithmetic::power2::pow2(i as nat) as int),
                is_canonical(pw as int),
            decreases d - i,
        {
            let term = fmul(next[1 + i], pw);
            proof {
                lemma_fe_canonical(next@[1 + i]);
                lemma_fe_mul(n[1 + i] as int, vstd::arithmetic::power2::pow2(i as nat) as int);
                lemma_fe_add(bit_factor(n, d as int, i as int), n[1 + i] * vstd::arithmetic::power2::pow2(i as nat));
                vstd::arithmetic::power2::lemma_pow2_unfold((i + 1) as nat);
                lemma_fe_mul(vstd::arithmetic::power2::pow2(i as nat) as int, 2);
                lemma_fe_canonical(2);
            }
            factor = fadd(factor, term);
            pw = fmul(pw, 2);
            i = i + 1;
        }
        let next_bit = next[1 + d + 64];
        let next_acc = next[2 + d + 64];
        let expected = fadd(fmul(factor, next_bit), acc);
        let diff = fsub(next_acc, expected);
        proof {
            let bf = bit_factor(n, d as int, d as int);
            lemma_fe_canonical(next_bit);
            lemma_fe_canonical(next_acc);
            lemma_fe_mul(bf, next_bit as int);
            lemma_fe_add(bf * next_bit, acc as int);
            lemma_fe_sub(next_acc as int, bf * next_bit + acc);
            lemma_fe_sub(1, l[d as int] as int);
            lemma_fe_mul(1 - l[d as int], next_acc - (bf * next_bit + acc));
        }
        if fmul(not_final, diff) != 0 {
            return false;
        }
        let mut k: usize = 0;
        while k < 32
            invariant
                Self::supported(),
                d == DEPTH,
                k <= 32,
                l == local@,
                n == next@,
                local@.len() == merkle_width(DEPTH as int, 32),
                next@.len() == merkle_width(DEPTH as int, 32),
                forall|j: int| 0 <= j < local@.len() ==> is_canonical(#[trigger] local@[j] as int),
                forall|j: int| 0 <= j < next@.len() ==> is_canonical(#[trigger] next@[j] as int),
                bit == l[col_is_right_child(d as int, 32)],
                not_final as int == fe(1 - l[col_step_flags(d - 1)]),
                forall|j: int| 0 <= j < k ==> #[trigger] merkle_node_constraints(l, n, d as int, 32, j),
            decreases 32 - k,
        {
            let node = local[1 + d + k];
            let sibling = local[33 + d + k];
            let left = local[67 + d + k];
            let right = local[99 + d + k];
            let output = local[131 + d + k];
            let next_node = next[1 + d + k];
            let delta = fsub(node, sibling);
            let sel = fmul(bit, delta);
            proof {
                lemma_fe_canonical(node);
                lemma_fe_canonical(sibling);
                lemma_fe_canonical(left);
                lemma_fe_canonical(right);
                lemma_fe_canonical(output);
                lemma_fe_canonical(next_node);
                lemma_fe_canonical(bit);
                lemma_fe_sub(node as int, sibling as int);
                lemma_fe_mul(bit as int, node - sibling);
                lemma_fe_sub(node as int, bit * (node - sibling));
                lemma_fe_add(sibling as int, bit * (node - sibling));
                lemma_fe_sub(output as int, next_node as int);
                lemma_fe_canonical(not_final);
                lemma_fe_mul(not_final as int, output - next_node);
                lemma_fe_mul(1 - l[col_step_flags(d - 1)], output - next_node);
            }
            if left != fsub(node, sel) || right != fadd(sibling, sel) || fmul(not_final, fsub(output, next_node)) != 0 {
                proof {
                    lemma_fe_sub(1, l[col_step_flags(d - 1)] as int);
                    let kk = k as int;
                    lemma_fe_mul(1 - l[col_step_flags(d - 1)], output - next_node);
                    lemma_fe_mul(not_final as int, output - next_node);
                    assert(!merkle_node_constraints(l, n, d as int, 32, kk));
                }
                return false;
            }
            proof {
                let kk = k as int;
                let y = bit * (node - sibling);
                assert(delta as int == fe(node - sibling));
                assert(sel as int == fe(y));
                assert(left as int == fe(node - y));
                assert(right as int == fe(sibling + y));
                assert(fe(not_final * (output - next_node)) == 0);
                lemma_fe_mul(1 - l[col_step_flags(d - 1)], output - next_node);
                lemma_fe_mul(not_final as int, output - next_node);
                assert(l[col_node(d as int, kk)] == node && l[col_sibling(d as int, 32, kk)] == sibling);
                assert(l[col_left_node(d as int, 32, kk)] == left && l[col_right_node(d as int, 32, kk)] == right);
                assert(l[col_output(d as int, 32, kk)] == output && n[col_node(d as int, kk)] == next_node);
                assert(merkle_node_constraints(l, n, d as int, 32, kk));
            }
            k = k + 1;
        }
        proof {
            lemma_fe_sub(1, l[col_step_flags(d - 1)] as int);
            assert(forall|i: int| 0 <= i < 32 ==> #[trigger] merkle_node_constraints(l, n, d as int, 32, i));
        }
        true
    }
}

/// The cells `v[from .. from + n]`.
fn copy_cols(v: &Vec<u32>, from: usize, n: usize) -> (r: Vec<u32>)
    requires
        from + n <= v@.len(),
    ensures
        r@ == v@.subrange(from as int, from + n),
{
    let len = v.len();
    let mut r: Vec<u32> = Vec::new();
    let mut k: usize = 0;
    while k < n
        invariant
            k <= n,
            len == v@.len(),
            from + n <= v@.len(),
            r@ == v@.subrange(from as int, from + k),
        decreases n - k,
    {
        r.push(v[from + k]);
        k = k + 1;
        assert(r@ =~= v@.subrange(from as int, from + k));
    }
    r
}


/// The row at level `k` of a path, as a sequence.
pub open spec fn path_row(d: int, live: bool, leaf_index: usize, leaf: Seq<u8>, siblings: Seq<Seq<u8>>, k: int) -> Seq<u32> {
    Seq::new(merkle_width(d, 32) as nat, |c: int| merkle_path_cell(d, 32, live, leaf_index, leaf, siblings, k, c))
}

/// With a single flag set, at `k`, the weighted flags sum to `2^k` once past it.
proof fn lemma_bit_factor_one_hot(next: Seq<u32>, d: int, k: int, j: int)
    requires
        0 <= k < d,
        0 <= j <= d,
        forall|i: int| 0 <= i < d ==> #[trigger] next[col_step_flags(i)] == if i == k { 1u32 } else { 0u32 },
    ensures
        bit_factor(next, d, j) == if j > k { vstd::arithmetic::power2::pow2(k as nat) as int } else { 0 },
    decreases j,
{
    if j > 0 {
        lemma_bit_factor_one_hot(next, d, k, j - 1);
        assert(next[col_step_flags(j - 1)] == if j - 1 == k { 1u32 } else { 0u32 });
    }
}

/// The index bit of a level is 0 or 1.
proof fn lemma_index_bit_bool(leaf_index: usize, k: nat)
    ensures
        index_bit(leaf_index, k) == 0 || index_bit(leaf_index, k) == 1,
{
    vstd::arithmetic::power2::lemma_pow2_pos(k);
}

/// Consecutive levels of one path, or the last level of a path followed by
/// the first of another, satisfy every identity of the chip.
pub proof fn lemma_merkle_row_pair(
    d: int,
    live1: bool,
    idx1: usize,
    leaf1: Seq<u8>,
    sibs1: Seq<Seq<u8>>,
    k1: int,
    live2: bool,
    idx2: usize,
    leaf2: Seq<u8>,
    sibs2: Seq<Seq<u8>>,
    k2: int,
)
    requires
        1 <= d <= 31,
        0 <= k1 < d,
        0 <= k2 < d,
        k1 < d - 1 ==> k2 == k1 + 1 && live2 == live1 && idx2 == idx1 && leaf2 == leaf1 && sibs2 == sibs1,
        k1 == d - 1 ==> k2 == 0,
    ensures
        merkle_constraints(path_row(d, live1, idx1, leaf1, sibs1, k1), path_row(d, live2, idx2, leaf2, sibs2, k2), d, 32),
{
    let local = path_row(d, live1, idx1, leaf1, sibs1, k1);
    let next = path_row(d, live2, idx2, leaf2, sibs2, k2);
    let w = 32int;
    lemma_index_bit_bool(idx1, k1 as nat);
    lemma_index_bit_bool(idx2, k2 as nat);
    let bit = index_bit(idx1, k1 as nat);
    assert forall|i: int| 0 <= i < d implies #[trigger] next[col_step_flags((i + 1) % d)] == local[col_step_flags(i)] by {
        vstd::arithmetic::div_mod::lemma_mod_bound(i + 1, d);
        if i + 1 == d {
            vstd::arithmetic::div_mod::lemma_mod_self_0(d);
        } else {
            vstd::arithmetic::div_mod::lemma_small_mod((i + 1) as nat, d as nat);
        }
    }
    assert(local[0] == 0 || local[0] == 1);
    assert(fe(local[0] * local[0]) == fe(local[0] as int)) by {
        if local[0] == 1 { assert(local[0] * local[0] == 1); } else { assert(local[0] * local[0] == 0); }
    }
    let b = local[col_is_right_child(d, w)] as int;
    assert(b == bit);
    assert(fe(b * b) == fe(b)) by {
        if b == 1 { assert(b * b == 1); } else { assert(b * b == 0); }
    }
    vstd::arithmetic::power2::lemma2_to64();
    let acc_col = col_accumulated_index(d, w);
    let first = local[col_step_flags(0)] as int;
    if k1 == 0 {
        assert(first == 1);
        vstd::arithmetic::div_mod::lemma_div_basics(idx1 as int);
        assert(idx1 as nat / vstd::arithmetic::power2::pow2(0) == idx1 as nat);
        assert(accumulated(idx1, 0) == bit);
        crate::field::lemma_fe_small(bit as int);
        assert(local[acc_col] as int == bit);
        assert(first * (local[acc_col] - b) == 0);
    } else {
        assert(first == 0);
        assert(first * (local[acc_col] - b) == 0);
    }
    let not_final = 1 - local[col_step_flags(d - 1)];
    if k1 == d - 1 {
        assert(not_final == 0);
        assert(fe(not_final * (next[acc_col] - (bit_factor(next, d, d) * next[col_is_right_child(d, w)] + local[acc_col]))) == 0);
    } else {
        assert(not_final == 1);
        let step = vstd::arithmetic::power2::pow2((k1 + 1) as nat) as int;
        assert forall|i: int| 0 <= i < d implies #[trigger] next[col_step_flags(i)] == if i == k1 + 1 { 1u32 } else { 0u32 } by {}
        lemma_bit_factor_one_hot(next, d, k1 + 1, d);
        let nb = next[col_is_right_child(d, w)] as int;
        assert(nb == index_bit(idx1, (k1 + 1) as nat));
        vstd::arithmetic::power2::lemma_pow2_pos((k1 + 1) as nat);
        vstd::arithmetic::power2::lemma_pow2_unfold((k1 + 2) as nat);
        vstd::arithmetic::div_mod::lemma_mod_breakdown(idx1 as int, step, 2);
        let a1 = accumulated(idx1, k1 as nat) as int;
        let a2 = accumulated(idx1, (k1 + 1) as nat) as int;
        assert(step * 2 == vstd::arithmetic::power2::pow2((k1 + 2) as nat));
        assert(a2 == step * nb + a1);
        assert(next[acc_col] as int == fe(a2));
        assert(local[acc_col] as int == fe(a1));
        crate::interaction::lemma_fe_add_reduced(step * nb, a1);
        vstd::arithmetic::div_mod::lemma_sub_mod_noop(a2, step * nb + a1, P as int);
        crate::interaction::lemma_fe_add_reduced(step * nb, fe(a1));
        vstd::arithmetic::div_mod::lemma_sub_mod_noop(a2, step * nb + fe(a1), P as int);
        vstd::arithmetic::div_mod::lemma_mod_twice(a1, P as int);
        vstd::arithmetic::div_mod::lemma_mod_twice(a2, P as int);
        assert(fe(next[acc_col] - (step * nb + local[acc_col])) == 0);
        assert(bit_factor(next, d, d) * next[col_is_right_child(d, w)] == step * nb);
    }
    assert forall|i: int| 0 <= i < w implies #[trigger] merkle_node_constraints(local, next, d, w, i) by {
        let node = local[col_node(d, i)] as int;
        let sib = local[col_sibling(d, w, i)] as int;
        if b == 0 {
            assert(node - b * (node - sib) == node);
            assert(sib + b * (node - sib) == sib);
        } else {
            assert(node - b * (node - sib) == sib);
            assert(sib + b * (node - sib) == node);
        }
        if k1 < d - 1 {
            assert(node_at(leaf1, sibs1, idx1, (k1 + 1) as nat) == output_at(node_at(leaf1, sibs1, idx1, k1 as nat), sibs1[k1], bit));
            assert(local[col_output(d, w, i)] == next[col_node(d, i)]);
        }
    }
}

/// Every pair of consecutive rows of a generated Merkle trace, real or
/// padding, satisfies every identity of the chip, and its first row starts
/// the step flags.
pub proof fn lemma_merkle_trace_constraints(ops: Seq<MerkleRootOp>, d: int, t: Trace)
    requires
        1 <= d <= 31,
        t.width == merkle_width(d, 32),
        t.height() >= 1,
        forall|r: int, c: int| 0 <= r < t.height() && 0 <= c < t.width ==>
            #[trigger] t.cell(r, c) == merkle_trace_cell(ops, d, 32, r, c),
    ensures
        merkle_first_row_constraints(t.row(0), d),
        forall|r: int| 0 <= r < t.height() - 1 ==> merkle_constraints(#[trigger] t.row(r), t.row(r + 1), d, 32),
{
    let zl = zeros(32);
    let zs = Seq::new(d as nat, |k: int| zeros(32));
    assert forall|r: int| 0 <= r < t.height() implies #[trigger] t.row(r) == (if r / d < ops.len() {
        path_row(d, true, ops[r / d].leaf_index, ops[r / d].leaf_hash@, siblings_of(ops[r / d]), r % d)
    } else {
        path_row(d, false, 0, zl, zs, r % d)
    }) by {
        let expected = if r / d < ops.len() {
            path_row(d, true, ops[r / d].leaf_index, ops[r / d].leaf_hash@, siblings_of(ops[r / d]), r % d)
        } else {
            path_row(d, false, 0, zl, zs, r % d)
        };
        assert forall|c: int| 0 <= c < t.width implies t.row(r)[c] == expected[c] by {
            assert(t.cell(r, c) == merkle_trace_cell(ops, d, 32, r, c));
        }
        assert(t.row(r) =~= expected);
    }
    assert forall|r: int| 0 <= r < t.height() - 1 implies merkle_constraints(#[trigger] t.row(r), t.row(r + 1), d, 32) by {
        let q = r / d;
        let k = r % d;
        vstd::arithmetic::div_mod::lemma_fundamental_div_mod(r, d);
        vstd::arithmetic::div_mod::lemma_mod_bound(r, d);
        if k < d - 1 {
            lemma_block_row(q, d, k + 1);
            assert(r + 1 == q * d + (k + 1));
        } else {
            lemma_block_row(q + 1, d, 0);
            assert(r + 1 == (q + 1) * d + 0) by (nonlinear_arith)
                requires
                    r == d * q + k,
                    k == d - 1,
            ;
        }
        let q2 = (r + 1) / d;
        let k2 = (r + 1) % d;
        if q < ops.len() {
            if q2 < ops.len() {
                lemma_merkle_row_pair(d, true, ops[q].leaf_index, ops[q].leaf_hash@, siblings_of(ops[q]), k,
                    true, ops[q2].leaf_index, ops[q2].leaf_hash@, siblings_of(ops[q2]), k2);
            } else {
                lemma_merkle_row_pair(d, true, ops[q].leaf_index, ops[q].leaf_hash@, siblings_of(ops[q]), k,
                    false, 0, zl, zs, k2);
            }
        } else {
            lemma_merkle_row_pair(d, false, 0, zl, zs, k, false, 0, zl, zs, k2);
        }
    }
    let row0 = t.row(0);
    assert(0int / d == 0 && 0int % d == 0);
    assert forall|i: int| 1 <= i < d implies #[trigger] row0.subrange(1, 1 + d)[i] == 0 by {}
}


/// Column positions of the Merkle layout.
#[derive(Clone, Debug)]
pub struct MerkleRootCols<const DEPTH: usize, const DIGEST_WIDTH: usize> {
    pub is_real: usize,
    pub step_flags: crate::airs::step_flags::StepFlagsCols,
    pub node: Vec<usize>,
    pub sibling: Vec<usize>,
    pub is_right_child: usize,
    pub accumulated_index: usize,
    pub left_node: Vec<usize>,
    pub right_node: Vec<usize>,
    pub output: Vec<usize>,
}

impl<const DEPTH: usize, const DIGEST_WIDTH: usize> MerkleRootCols<DEPTH, DIGEST_WIDTH> {
    /// The layout rebased onto `indices`.
    pub fn from_slice(indices: &Vec<usize>) -> (r: Self)
        requires
            MerkleRootChip::<DEPTH, DIGEST_WIDTH>::supported(),
            indices@.len() == merkle_width(DEPTH as int, 32),
        ensures
            r.is_real == indices@[0],
            r.step_flags.flags@ == indices@.subrange(1, 1 + DEPTH),
            r.node@ == indices@.subrange(col_node(DEPTH as int, 0), col_node(DEPTH as int, 32)),
            r.sibling@ == indices@.subrange(col_sibling(DEPTH as int, 32, 0), col_sibling(DEPTH as int, 32, 32)),
            r.is_right_child == indices@[col_is_right_child(DEPTH as int, 32)],
            r.accumulated_index == indices@[col_accumulated_index(DEPTH as int, 32)],
            r.left_node@ == indices@.subrange(col_left_node(DEPTH as int, 32, 0), col_left_node(DEPTH as int, 32, 32)),
            r.right_node@ == indices@.subrange(col_right_node(DEPTH as int, 32, 0), col_right_node(DEPTH as int, 32, 32)),
            r.output@ == indices@.subrange(col_output(DEPTH as int, 32, 0), col_output(DEPTH as int, 32, 32)),
    {
        let d = DEPTH;
        MerkleRootCols {
            is_real: indices[0],
            step_flags: crate::airs::step_flags::StepFlagsCols { flags: crate::interaction::index_range(indices, 1, d) },
            node: crate::interaction::index_range(indices, 1 + d, 32),
            sibling: crate::interaction::index_range(indices, 33 + d, 32),
            is_right_child: indices[65 + d],
            accumulated_index: indices[66 + d],
            left_node: crate::interaction::index_range(indices, 67 + d, 32),
            right_node: crate::interaction::index_range(indices, 99 + d, 32),
            output: crate::interaction::index_range(indices, 131 + d, 32),
        }
    }
}

} // verus!
