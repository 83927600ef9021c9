//! The XOR chip: proves `output = input1 ^ input2` byte by byte through a bit
//! decomposition of both operands.

use vstd::prelude::*;
use crate::field::{fe, is_canonical, P};
use crate::interaction::{Interaction, VirtualPairCol, identity_indices, identity_seq};
use crate::trace::{Trace, is_next_pow2, next_power_of_two, zero_row, MAX_POW2_ARG};

verus! {

/// Byte-wise XOR of `NUM_BYTES`-byte operands.
#[derive(Clone, Debug)]
pub struct XorChip<const NUM_BYTES: usize> {
    pub bus_input: usize,
    pub bus_output: usize,
}

/// One XOR of two 16-bit operands.
#[derive(Clone, Copy, Debug)]
pub struct XorOp {
    pub input1: u16,
    pub input2: u16,
}

/// Little-endian byte `i` of a 16-bit value; zero past its two bytes.
pub open spec fn byte_of(x: u16, i: int) -> u8 {
    if i == 0 {
        #[verifier::truncate] ((x & 0xff) as u8)
    } else if i == 1 {
        #[verifier::truncate] ((x >> 8u16) as u8)
    } else {
        0
    }
}

/// Bit `j` of a byte.
pub open spec fn bit_of(b: u8, j: u8) -> u32 {
    ((b >> j) & 1u8) as u32
}

/// Column of `input1[i]`.
pub open spec fn col_input1(n: int, i: int) -> int { 1 + i }
/// Column of `input2[i]`.
pub open spec fn col_input2(n: int, i: int) -> int { 1 + n + i }
/// Column of bit `j` of `input1[i]`.
pub open spec fn col_bits1(n: int, i: int, j: int) -> int { 1 + 2 * n + 8 * i + j }
/// Column of bit `j` of `input2[i]`.
pub open spec fn col_bits2(n: int, i: int, j: int) -> int { 1 + 10 * n + 8 * i + j }
/// Column of `output[i]`.
pub open spec fn col_output(n: int, i: int) -> int { 1 + 18 * n + i }
/// Number of columns.
pub open spec fn xor_width(n: int) -> int { 1 + 19 * n }

/// The value of column `c` in the row of `op`.
pub open spec fn xor_cell(op: XorOp, n: int, c: int) -> u32 {
    if c == 0 {
        1
    } else if c < 1 + n {
        byte_of(op.input1, c - 1) as u32
    } else if c < 1 + 2 * n {
        byte_of(op.input2, c - 1 - n) as u32
    } else if c < 1 + 10 * n {
        bit_of(byte_of(op.input1, (c - 1 - 2 * n) / 8), ((c - 1 - 2 * n) % 8) as u8)
    } else if c < 1 + 18 * n {
        bit_of(byte_of(op.input2, (c - 1 - 10 * n) / 8), ((c - 1 - 10 * n) % 8) as u8)
    } else {
        (byte_of(op.input1, c - 1 - 18 * n) ^ byte_of(op.input2, c - 1 - 18 * n)) as u32
    }
}

/// `sum(row[base + j] * 2^j)` over the eight bits of a byte.
pub open spec fn bits_value(row: Seq<u32>, base: int) -> int {
    row[base] as int + 2 * row[base + 1] + 4 * row[base + 2] + 8 * row[base + 3]
        + 16 * row[base + 4] + 32 * row[base + 5] + 64 * row[base + 6] + 128 * row[base + 7]
}

/// `sum(row[b1 + j] * row[b2 + j] * 2^j)`: the AND of two decomposed bytes.
pub open spec fn and_value(row: Seq<u32>, b1: int, b2: int) -> int {
    row[b1] as int * row[b2] as int + 2 * (row[b1 + 1] * row[b2 + 1]) + 4 * (row[b1 + 2]
        * row[b2 + 2]) + 8 * (row[b1 + 3] * row[b2 + 3]) + 16 * (row[b1 + 4] * row[b2 + 4]) + 32
        * (row[b1 + 5] * row[b2 + 5]) + 64 * (row[b1 + 6] * row[b2 + 6]) + 128 * (row[b1 + 7]
        * row[b2 + 7])
}

/// The identities the chip asserts on byte `i` of a row, over the field.
pub open spec fn xor_byte_constraints(row: Seq<u32>, n: int, i: int) -> bool {
    let b1 = col_bits1(n, i, 0);
    let b2 = col_bits2(n, i, 0);
    &&& fe(row[col_input1(n, i)] as int) == fe(bits_value(row, b1))
    &&& fe(row[col_input2(n, i)] as int) == fe(bits_value(row, b2))
    &&& fe(bits_value(row, b1) + bits_value(row, b2)) == fe(
        row[col_output(n, i)] + 2 * and_value(row, b1, b2),
    )
    &&& bits_are_bool(row, b1, b2)
}

/// The eight cells from `b1` and the eight from `b2` each hold 0 or 1.
pub open spec fn bits_are_bool(row: Seq<u32>, b1: int, b2: int) -> bool {
    forall|j: int| #![trigger is_bool_cell(row, b1 + j)] #![trigger is_bool_cell(row, b2 + j)]
        0 <= j < 8 ==> is_bool_cell(row, b1 + j) && is_bool_cell(row, b2 + j)
}

/// `row[c] * row[c] == row[c]` in the field: the cell holds 0 or 1.
pub open spec fn is_bool_cell(row: Seq<u32>, c: int) -> bool {
    fe(row[c] * row[c]) == fe(row[c] as int)
}

/// All identities of the chip hold on a row.
pub open spec fn xor_constraints(row: Seq<u32>, n: int) -> bool {
    forall|i: int| 0 <= i < n ==> #[trigger] xor_byte_constraints(row, n, i)
}

/// The cell at row `r`, column `c` of the trace generated for `ops`.
pub open spec fn xor_trace_cell(ops: Seq<XorOp>, n: int, r: int, c: int) -> u32 {
    if r < ops.len() { xor_cell(ops[r], n, c) } else { 0 }
}

/// `256^i`, reduced into the field: the weight of byte `i` in a packed value.
pub open spec fn byte_weight(i: nat) -> int
    decreases i,
{
    if i == 0 { 1 } else { fe(byte_weight((i - 1) as nat) * 256) }
}

/// The field weights of the first `n` bytes of a packed value.
pub fn byte_weights(n: usize) -> (r: Vec<u32>)
    ensures
        r@.len() == n,
        forall|i: int| 0 <= i < n ==> r@[i] as int == byte_weight(i as nat),
        forall|i: int| 0 <= i < n ==> is_canonical(#[trigger] r@[i] as int),
{
    let mut r: Vec<u32> = Vec::new();
    let mut w: u32 = 1;
    let mut i: usize = 0;
    while i < n
        invariant
            i <= n,
            r@.len() == i,
            w as int == byte_weight(i as nat),
            is_canonical(w as int),
            forall|k: int| 0 <= k < i ==> r@[k] as int == byte_weight(k as nat),
            forall|k: int| 0 <= k < i ==> is_canonical(#[trigger] r@[k] as int),
        decreases n - i,
    {
        r.push(w);
        w = crate::field::fmul(w, 256);
        i = i + 1;
    }
    r
}

/// The weighted columns `(indices[base + i], byte_weight(i))` for `i < n`.
pub fn packed_bytes(indices: &Vec<usize>, base: usize, n: usize) -> (r: VirtualPairCol)
    requires
        base + n <= indices@.len(),
    ensures
        r.constant == 0,
        r.column_weights@.len() == n,
        forall|i: int| 0 <= i < n ==> #[trigger] r.column_weights@[i] == (
            crate::interaction::PairCol::Main(indices@[base + i]),
            byte_weight(i as nat) as u32,
        ),
{
    let weights = byte_weights(n);
    let len = indices.len();
    let mut cw: Vec<(usize, u32)> = Vec::new();
    let mut i: usize = 0;
    while i < n
        invariant
            base + n <= indices@.len(),
            len == indices@.len(),
            i <= n,
            weights@.len() == n,
            forall|k: int| 0 <= k < n ==> weights@[k] as int == byte_weight(k as nat),
            cw@.len() == i,
            forall|k: int| 0 <= k < i ==> #[trigger] cw@[k] == (indices@[base + k], byte_weight(k as nat) as u32),
        decreases n - i,
    {
        cw.push((indices[base + i], weights[i]));
        i = i + 1;
    }
    VirtualPairCol::new_main(cw, 0)
}

/// `row[base + j]` for the eight bits of a byte, weighted by `2^j`, summed exactly.
fn bits_value_exec(row: &Vec<u32>, base: usize) -> (r: u64)
    requires
        base + 8 <= row@.len(),
        forall|k: int| 0 <= k < row@.len() ==> is_canonical(#[trigger] row@[k] as int),
    ensures
        r as int == bits_value(row@, base as int),
{
    let _len = row.len();
    let a0 = row[base] as u64;
    let a1 = row[base + 1] as u64;
    let a2 = row[base + 2] as u64;
    let a3 = row[base + 3] as u64;
    let a4 = row[base + 4] as u64;
    let a5 = row[base + 5] as u64;
    let a6 = row[base + 6] as u64;
    let a7 = row[base + 7] as u64;
    a0 + 2 * a1 + 4 * a2 + 8 * a3 + 16 * a4 + 32 * a5 + 64 * a6 + 128 * a7
}

/// An upper bound on the product of two canonical elements.
proof fn lemma_product_bound(a: int, b: int)
    requires
        0 <= a < 0x8000_0000,
        0 <= b < 0x8000_0000,
    ensures
        0 <= a * b < 0x4000_0000_0000_0000,
{
    assert(0 <= a * b < 0x4000_0000_0000_0000) by (nonlinear_arith)
        requires
            0 <= a < 0x8000_0000,
            0 <= b < 0x8000_0000,
    ;
}

/// The AND value of two decomposed bytes, computed exactly.
fn and_value_exec(row: &Vec<u32>, b1: usize, b2: usize) -> (r: u128)
    requires
        b1 + 8 <= row@.len(),
        b2 + 8 <= row@.len(),
        forall|k: int| 0 <= k < row@.len() ==> is_canonical(#[trigger] row@[k] as int),
    ensures
        r as int == and_value(row@, b1 as int, b2 as int),
        r as int <= 255 * 0x4000_0000_0000_0000,
{
    let len = row.len();
    proof {
        vstd::arithmetic::power2::lemma2_to64();
    }
    let mut acc: u128 = 0;
    let mut weight: u128 = 1;
    let mut j: usize = 0;
    let ghost s = row@;
    while j < 8
        invariant
            j <= 8,
            row@ == s,
            len == s.len(),
            b1 + 8 <= s.len(),
            b2 + 8 <= s.len(),
            forall|k: int| 0 <= k < s.len() ==> is_canonical(#[trigger] s[k] as int),
            acc as int == and_partial(s, b1 as int, b2 as int, j as int),
            weight as int == vstd::arithmetic::power2::pow2(j as nat),
            acc as int <= (vstd::arithmetic::power2::pow2(j as nat) - 1) * 0x4000_0000_0000_0000,
        decreases 8 - j,
    {
        let x = row[b1 + j] as u128;
        let y = row[b2 + j] as u128;
        proof {
            lemma_product_bound(x as int, y as int);
            vstd::arithmetic::power2::lemma2_to64();
        }
        proof {
            vstd::arithmetic::power2::lemma_pow2_unfold((j + 1) as nat);
            assert(weight as int * (x * y) <= weight as int * 0x4000_0000_0000_0000) by (nonlinear_arith)
                requires
                    0 <= x * y < 0x4000_0000_0000_0000,
                    weight >= 0,
            ;
        }
        acc = acc + weight * (x * y);
        weight = weight * 2;
        j = j + 1;
    }
    proof {
        vstd::arithmetic::power2::lemma2_to64();
        vstd::arithmetic::power2::lemma2_to64();
        let (col1, col2) = (b1 as int, b2 as int);
        assert(and_partial(s, col1, col2, 0) == 0);
        assert(vstd::arithmetic::power2::pow2(0) == 1);
        assert(and_partial(s, col1, col2, 1) == and_partial(s, col1, col2, 0) + vstd::arithmetic::power2::pow2(0) * (s[col1] * s[col2]));
        assert(and_partial(s, col1, col2, 1) == s[col1] * s[col2]);
        assert(and_partial(s, col1, col2, 2) == s[col1] * s[col2] + 2 * (s[col1 + 1] * s[col2 + 1]));
        assert(and_partial(s, col1, col2, 3) == and_partial(s, col1, col2, 2) + 4 * (s[col1 + 2] * s[col2 + 2]));
        assert(and_partial(s, col1, col2, 4) == and_partial(s, col1, col2, 3) + 8 * (s[col1 + 3] * s[col2 + 3]));
        assert(and_partial(s, col1, col2, 5) == and_partial(s, col1, col2, 4) + 16 * (s[col1 + 4] * s[col2 + 4]));
        assert(and_partial(s, col1, col2, 6) == and_partial(s, col1, col2, 5) + 32 * (s[col1 + 5] * s[col2 + 5]));
        assert(and_partial(s, col1, col2, 7) == and_partial(s, col1, col2, 6) + 64 * (s[col1 + 6] * s[col2 + 6]));
        assert(and_partial(s, col1, col2, 8) == and_partial(s, col1, col2, 7) + 128 * (s[col1 + 7] * s[col2 + 7]));
    }
    acc
}

/// The AND value over the first `j` bits.
pub open spec fn and_partial(row: Seq<u32>, b1: int, b2: int, j: int) -> int
    decreases j,
{
    if j <= 0 {
        0
    } else {
        and_partial(row, b1, b2, j - 1) + vstd::arithmetic::power2::pow2((j - 1) as nat) * (
        row[b1 + j - 1] * row[b2 + j - 1])
    }
}

impl<const NUM_BYTES: usize> XorChip<NUM_BYTES> {
    /// The layout fits in memory.
    pub open spec fn fits() -> bool {
        19 * NUM_BYTES + 1 <= usize::MAX
    }

    /// Number of main columns.
    pub fn width(&self) -> (r: usize)
        requires
            Self::fits(),
        ensures
            r == xor_width(NUM_BYTES as int),
    {
        1 + 19 * NUM_BYTES
    }

    /// Fills one row, given as a fresh vector, for one operation.
    pub fn populate_row_for_op(row: &mut Vec<u32>, op: &XorOp)
        requires
            Self::fits(),
            old(row)@.len() == 0,
        ensures
            final(row)@.len() == xor_width(NUM_BYTES as int),
            forall|c: int| 0 <= c < xor_width(NUM_BYTES as int) ==>
                #[trigger] final(row)@[c] == xor_cell(*op, NUM_BYTES as int, c),
    {
        let n = NUM_BYTES;
        let b1: [u8; 2] = [
            #[verifier::truncate] ((op.input1 & 0xff) as u8),
            #[verifier::truncate] ((op.input1 >> 8u16) as u8),
        ];
        let b2: [u8; 2] = [
            #[verifier::truncate] ((op.input2 & 0xff) as u8),
            #[verifier::truncate] ((op.input2 >> 8u16) as u8),
        ];
        assert(b1@[0] == byte_of(op.input1, 0) && b1@[1] == byte_of(op.input1, 1));
        assert(b2@[0] == byte_of(op.input2, 0) && b2@[1] == byte_of(op.input2, 1));
        row.push(1);
        let mut i: usize = 0;
        while i < n
            invariant
                Self::fits(),
                n == NUM_BYTES,
                b1@[0] == byte_of(op.input1, 0) && b1@[1] == byte_of(op.input1, 1),
                b2@[0] == byte_of(op.input2, 0) && b2@[1] == byte_of(op.input2, 1),
                i <= n,
                row@.len() == 1 + i,
                forall|c: int| 0 <= c < 1 + i ==> #[trigger] row@[c] == xor_cell(*op, n as int, c),
            decreases n - i,
        {
            let v: u8 = if i < 2 { b1[i] } else { 0 };
            assert(v == byte_of(op.input1, i as int));
            row.push(v as u32);
            assert(row@[1 + i as int] == xor_cell(*op, n as int, 1 + i as int));
            i = i + 1;
        }
        let mut i: usize = 0;
        while i < n
            invariant
                Self::fits(),
                n == NUM_BYTES,
                b1@[0] == byte_of(op.input1, 0) && b1@[1] == byte_of(op.input1, 1),
                b2@[0] == byte_of(op.input2, 0) && b2@[1] == byte_of(op.input2, 1),
                i <= n,
                row@.len() == 1 + n + i,
                forall|c: int| 0 <= c < 1 + n + i ==> #[trigger] row@[c] == xor_cell(*op, n as int, c),
            decreases n - i,
        {
            let v: u8 = if i < 2 { b2[i] } else { 0 };
            assert(v == byte_of(op.input2, i as int));
            row.push(v as u32);
            assert(row@[1 + n + i as int] == xor_cell(*op, n as int, 1 + n + i as int));
            i = i + 1;
        }
        let mut k: usize = 0;
        while k < 8 * n
            invariant
                Self::fits(),
                n == NUM_BYTES,
                b1@[0] == byte_of(op.input1, 0) && b1@[1] == byte_of(op.input1, 1),
                b2@[0] == byte_of(op.input2, 0) && b2@[1] == byte_of(op.input2, 1),
                k <= 8 * n,
                row@.len() == 1 + 2 * n + k,
                forall|c: int| 0 <= c < 1 + 2 * n + k ==> #[trigger] row@[c] == xor_cell(*op, n as int, c),
            decreases 8 * n - k,
        {
            let i = k / 8;
            let v: u8 = if i < 2 { b1[i] } else { 0 };
            assert(v == byte_of(op.input1, i as int));
            row.push(((v >> ((k % 8) as u8)) & 1u8) as u32);
            assert(row@[1 + 2 * n + k as int] == xor_cell(*op, n as int, 1 + 2 * n + k as int));
            k = k + 1;
        }
        let mut k: usize = 0;
        while k < 8 * n
            invariant
                Self::fits(),
                n == NUM_BYTES,
                b1@[0] == byte_of(op.input1, 0) && b1@[1] == byte_of(op.input1, 1),
                b2@[0] == byte_of(op.input2, 0) && b2@[1] == byte_of(op.input2, 1),
                k <= 8 * n,
                row@.len() == 1 + 10 * n + k,
                forall|c: int| 0 <= c < 1 + 10 * n + k ==> #[trigger] row@[c] == xor_cell(*op, n as int, c),
            decreases 8 * n - k,
        {
            let i = k / 8;
            let v: u8 = if i < 2 { b2[i] } else { 0 };
            assert(v == byte_of(op.input2, i as int));
            row.push(((v >> ((k % 8) as u8)) & 1u8) as u32);
            assert(row@[1 + 10 * n + k as int] == xor_cell(*op, n as int, 1 + 10 * n + k as int));
            k = k + 1;
        }
        let mut i: usize = 0;
        while i < n
            invariant
                Self::fits(),
                n == NUM_BYTES,
                b1@[0] == byte_of(op.input1, 0) && b1@[1] == byte_of(op.input1, 1),
                b2@[0] == byte_of(op.input2, 0) && b2@[1] == byte_of(op.input2, 1),
                i <= n,
                row@.len() == 1 + 18 * n + i,
                forall|c: int| 0 <= c < 1 + 18 * n + i ==> #[trigger] row@[c] == xor_cell(*op, n as int, c),
            decreases n - i,
        {
            let v1: u8 = if i < 2 { b1[i] } else { 0 };
            let v2: u8 = if i < 2 { b2[i] } else { 0 };
            assert(v1 == byte_of(op.input1, i as int) && v2 == byte_of(op.input2, i as int));
            row.push((v1 ^ v2) as u32);
            assert(row@[1 + 18 * n + i as int] == xor_cell(*op, n as int, 1 + 18 * n + i as int));
            i = i + 1;
        }
    }
}


impl<const NUM_BYTES: usize> XorChip<NUM_BYTES> {
    /// Evaluates every identity of the chip on one row of field elements.
    pub fn eval(&self, local: &Vec<u32>) -> (ok: bool)
        requires
            Self::fits(),
            local@.len() == xor_width(NUM_BYTES as int),
            forall|k: int| 0 <= k < local@.len() ==> is_canonical(#[trigger] local@[k] as int),
        ensures
            ok == xor_constraints(local@, NUM_BYTES as int),
    {
        let n = NUM_BYTES;
        let len = local.len();
        let mut i: usize = 0;
        while i < n
            invariant
                Self::fits(),
                n == NUM_BYTES,
                i <= n,
                len == local@.len(),
                local@.len() == xor_width(n as int),
                forall|k: int| 0 <= k < local@.len() ==> is_canonical(#[trigger] local@[k] as int),
                forall|k: int| 0 <= k < i ==> #[trigger] xor_byte_constraints(local@, n as int, k),
            decreases n - i,
        {
            let b1 = 1 + 2 * n + 8 * i;
            let b2 = 1 + 10 * n + 8 * i;
            let p = P as u128;
            let mut j: usize = 0;
            while j < 8
                invariant
                    j <= 8,
                    p == P as u128,
                    len == local@.len(),
                    i < n,
                    n == NUM_BYTES,
                    b1 == col_bits1(n as int, i as int, 0),
                    b2 == col_bits2(n as int, i as int, 0),
                    b1 + 8 <= local@.len(),
                    b2 + 8 <= local@.len(),
                    forall|k: int| 0 <= k < local@.len() ==> is_canonical(#[trigger] local@[k] as int),
                    forall|k: int| 0 <= k < j ==> #[trigger] is_bool_cell(local@, b1 + k) && is_bool_cell(local@, b2 + k),
                decreases 8 - j,
            {
                let x = local[b1 + j] as u128;
                let y = local[b2 + j] as u128;
                proof {
                    lemma_product_bound(x as int, y as int);
                    lemma_product_bound(x as int, x as int);
                    lemma_product_bound(y as int, y as int);
                }
                if (x * x) % p != x % p || (y * y) % p != y % p {
                    let ghost jj = j as int;
                    let ghost (c1, c2) = (b1 as int, b2 as int);
                    assert(!is_bool_cell(local@, c1 + jj) || !is_bool_cell(local@, c2 + jj));
                    proof {
                        if bits_are_bool(local@, c1, c2) {
                            assert(is_bool_cell(local@, c1 + jj) && is_bool_cell(local@, c2 + jj));
                        }
                    }
                    assert(!xor_byte_constraints(local@, n as int, i as int));
                    return false;
                }
                j = j + 1;
            }
            let byte1 = bits_value_exec(local, b1);
            let byte2 = bits_value_exec(local, b2);
            let and = and_value_exec(local, b1, b2);
            let in1 = local[1 + i] as u128;
            let in2 = local[1 + n + i] as u128;
            let out = local[1 + 18 * n + i] as u128;
            if in1 % p != (byte1 as u128) % p {
                assert(!xor_byte_constraints(local@, n as int, i as int));
                return false;
            }
            if in2 % p != (byte2 as u128) % p {
                assert(!xor_byte_constraints(local@, n as int, i as int));
                return false;
            }
            if ((byte1 as u128) + (byte2 as u128)) % p != (out + 2 * and) % p {
                assert(!xor_byte_constraints(local@, n as int, i as int));
                return false;
            }
            assert(xor_byte_constraints(local@, n as int, i as int));
            i = i + 1;
        }
        true
    }

    /// Appends one row per operation.
    pub fn populate_rows_for_ops(trace: &mut Trace, ops: &Vec<XorOp>)
        requires
            Self::fits(),
            old(trace).width == xor_width(NUM_BYTES as int),
            old(trace).height() == 0,
            old(trace).values@.len() == 0,
            ops@.len() * xor_width(NUM_BYTES as int) <= usize::MAX,
        ensures
            final(trace).width == old(trace).width,
            final(trace).height() == ops@.len(),
            final(trace).values@.len() == final(trace).height() * final(trace).width,
            forall|r: int, c: int| 0 <= r < ops@.len() && 0 <= c < final(trace).width ==>
                #[trigger] final(trace).cell(r, c) == xor_cell(ops@[r], NUM_BYTES as int, c),
    {
        let width: usize = 1 + 19 * NUM_BYTES;
        let mut r: usize = 0;
        while r < ops.len()
            invariant
                Self::fits(),
                width == xor_width(NUM_BYTES as int),
                r <= ops@.len(),
                ops@.len() * width <= usize::MAX,
                trace.width == width,
                trace.height() == r,
                trace.values@.len() == r * width,
                forall|rr: int, c: int| 0 <= rr < r && 0 <= c < width ==>
                    #[trigger] trace.cell(rr, c) == xor_cell(ops@[rr], NUM_BYTES as int, c),
            decreases ops@.len() - r,
        {
            proof {
                assert((r + 1) * width <= ops@.len() * width) by (nonlinear_arith)
                    requires
                        r < ops@.len(),
                ;
                assert(r * width + width == (r + 1) * width) by (nonlinear_arith);
            }
            let mut row: Vec<u32> = Vec::new();
            Self::populate_row_for_op(&mut row, &ops[r]);
            trace.push_row(&row);
            r = r + 1;
        }
    }

    /// Generates the trace of `operations`: one row each, then all-zero
    /// padding rows up to the next power of two.
    pub fn generate_trace(operations: Vec<XorOp>) -> (t: Trace)
        requires
            Self::fits(),
            operations@.len() <= MAX_POW2_ARG,
            (2 * operations@.len() + 1) * xor_width(NUM_BYTES as int) <= usize::MAX,
        ensures
            t.wf(),
            t.width == xor_width(NUM_BYTES as int),
            is_next_pow2(t.height(), operations@.len()),
            forall|r: int, c: int| 0 <= r < t.height() && 0 <= c < t.width ==>
                #[trigger] t.cell(r, c) == xor_trace_cell(operations@, NUM_BYTES as int, r, c),
    {
        let width: usize = 1 + 19 * NUM_BYTES;
        let n = operations.len();
        let num_rows = next_power_of_two(n);
        let mut trace = Trace::empty(width);
        proof {
            assert(n * width <= (2 * n + 1) * width) by (nonlinear_arith);
        }
        Self::populate_rows_for_ops(&mut trace, &operations);
        let zero = zero_row(width);
        let mut r: usize = n;
        while r < num_rows
            invariant
                Self::fits(),
                width == xor_width(NUM_BYTES as int),
                n == operations@.len(),
                is_next_pow2(num_rows as nat, n as nat),
                (2 * n + 1) * width <= usize::MAX,
                zero@.len() == width,
                forall|c: int| 0 <= c < width ==> zero@[c] == 0,
                n <= r <= num_rows,
                trace.width == width,
                trace.height() == r,
                trace.values@.len() == r * width,
                forall|rr: int, c: int| 0 <= rr < r && 0 <= c < width ==>
                    #[trigger] trace.cell(rr, c) == xor_trace_cell(operations@, NUM_BYTES as int, rr, c),
            decreases num_rows - r,
        {
            proof {
                assert((r + 1) * width <= (2 * n + 1) * width) by (nonlinear_arith)
                    requires
                        r < num_rows,
                        num_rows == 1 || num_rows / 2 < n,
                ;
                assert(r * width + width == (r + 1) * width) by (nonlinear_arith);
            }
            trace.push_row(&zero);
            r = r + 1;
        }
        trace
    }

    /// Receives both packed operands on the input bus, for real rows.
    pub fn receives_from_indices(&self, preprocessed_indices: &Vec<usize>, main_indices: &Vec<usize>) -> (r: Vec<Interaction>)
        requires
            Self::fits(),
            main_indices@.len() == xor_width(NUM_BYTES as int),
        ensures
            r@.len() == 1,
            r@[0].argument_index == self.bus_input,
            r@[0].count.constant == 0,
            r@[0].count.column_weights@ == seq![(crate::interaction::PairCol::Main(main_indices@[0]), 1u32)],
            r@[0].fields@.len() == 2,
            packs_bytes(r@[0].fields@[0], main_indices@, 1, NUM_BYTES as int),
            packs_bytes(r@[0].fields@[1], main_indices@, 1 + NUM_BYTES, NUM_BYTES as int),
    {
        let n = NUM_BYTES;
        let vc1 = packed_bytes(main_indices, 1, n);
        let vc2 = packed_bytes(main_indices, 1 + n, n);
        let count = VirtualPairCol::single_main(main_indices[0]);
        let fields = vec![vc1, vc2];
        vec![Interaction { fields, count, argument_index: self.bus_input }]
    }

    /// Sends the packed output on the output bus, for real rows.
    pub fn sends_from_indices(&self, preprocessed_indices: &Vec<usize>, main_indices: &Vec<usize>) -> (r: Vec<Interaction>)
        requires
            Self::fits(),
            main_indices@.len() == xor_width(NUM_BYTES as int),
        ensures
            r@.len() == 1,
            r@[0].argument_index == self.bus_output,
            r@[0].count.constant == 0,
            r@[0].count.column_weights@ == seq![(crate::interaction::PairCol::Main(main_indices@[0]), 1u32)],
            r@[0].fields@.len() == 1,
            packs_bytes(r@[0].fields@[0], main_indices@, 1 + 18 * NUM_BYTES, NUM_BYTES as int),
    {
        let n = NUM_BYTES;
        let vc = packed_bytes(main_indices, 1 + 18 * n, n);
        let count = VirtualPairCol::single_main(main_indices[0]);
        vec![Interaction { fields: vec![vc], count, argument_index: self.bus_output }]
    }

    /// The interactions received, over the chip's own columns.
    pub fn receives(&self) -> (r: Vec<Interaction>)
        requires
            Self::fits(),
        ensures
            r@.len() == 1,
            r@[0].argument_index == self.bus_input,
            r@[0].count.column_weights@ == seq![(crate::interaction::PairCol::Main(0), 1u32)],
            r@[0].fields@.len() == 2,
            packs_bytes(r@[0].fields@[0], identity_seq(xor_width(NUM_BYTES as int)), 1, NUM_BYTES as int),
            packs_bytes(r@[0].fields@[1], identity_seq(xor_width(NUM_BYTES as int)), 1 + NUM_BYTES, NUM_BYTES as int),
    {
        let idx = identity_indices(1 + 19 * NUM_BYTES);
        self.receives_from_indices(&Vec::new(), &idx)
    }

    /// The interactions sent, over the chip's own columns.
    pub fn sends(&self) -> (r: Vec<Interaction>)
        requires
            Self::fits(),
        ensures
            r@.len() == 1,
            r@[0].argument_index == self.bus_output,
            r@[0].count.column_weights@ == seq![(crate::interaction::PairCol::Main(0), 1u32)],
            r@[0].fields@.len() == 1,
            packs_bytes(r@[0].fields@[0], identity_seq(xor_width(NUM_BYTES as int)), 1 + 18 * NUM_BYTES, NUM_BYTES as int),
    {
        let idx = identity_indices(1 + 19 * NUM_BYTES);
        self.sends_from_indices(&Vec::new(), &idx)
    }
}

/// `vc` is `sum(indices[base + i] * 256^i)` for `i < n`.
pub open spec fn packs_bytes(vc: VirtualPairCol, indices: Seq<usize>, base: int, n: int) -> bool {
    &&& vc.constant == 0
    &&& vc.column_weights@.len() == n
    &&& forall|i: int| 0 <= i < n ==> #[trigger] vc.column_weights@[i] == (
        crate::interaction::PairCol::Main(indices[base + i]),
        byte_weight(i as nat) as u32,
    )
}

/// Bits of a byte, reconstructed: the facts behind the XOR identities.
proof fn lemma_byte_facts(a: u8, b: u8)
    ensures
        a as int == bit_of(a, 0) + 2 * bit_of(a, 1) + 4 * bit_of(a, 2) + 8 * bit_of(a, 3) + 16 * bit_of(a, 4)
            + 32 * bit_of(a, 5) + 64 * bit_of(a, 6) + 128 * bit_of(a, 7),
        (a & b) as int == bit_of(a, 0) * bit_of(b, 0) + 2 * (bit_of(a, 1) * bit_of(b, 1)) + 4 * (bit_of(a, 2)
            * bit_of(b, 2)) + 8 * (bit_of(a, 3) * bit_of(b, 3)) + 16 * (bit_of(a, 4) * bit_of(b, 4)) + 32
            * (bit_of(a, 5) * bit_of(b, 5)) + 64 * (bit_of(a, 6) * bit_of(b, 6)) + 128 * (bit_of(a, 7)
            * bit_of(b, 7)),
        a as int + b as int == (a ^ b) as int + 2 * (a & b) as int,
        forall|j: u8| j < 8 ==> #[trigger] bit_of(a, j) <= 1,
{
    assert(a == ((a >> 0u8) & 1u8) + 2 * ((a >> 1u8) & 1u8) + 4 * ((a >> 2u8) & 1u8) + 8 * ((a >> 3u8) & 1u8) + 16 * ((a >> 4u8) & 1u8)
            + 32 * ((a >> 5u8) & 1u8) + 64 * ((a >> 6u8) & 1u8) + 128 * ((a >> 7u8) & 1u8)) by (bit_vector);
    assert((a & b) == ((a >> 0u8) & 1u8) * ((b >> 0u8) & 1u8) + 2 * (((a >> 1u8) & 1u8) * ((b >> 1u8) & 1u8)) + 4 * (((a >> 2u8) & 1u8)
            * ((b >> 2u8) & 1u8)) + 8 * (((a >> 3u8) & 1u8) * ((b >> 3u8) & 1u8)) + 16 * (((a >> 4u8) & 1u8) * ((b >> 4u8) & 1u8)) + 32
            * (((a >> 5u8) & 1u8) * ((b >> 5u8) & 1u8)) + 64 * (((a >> 6u8) & 1u8) * ((b >> 6u8) & 1u8)) + 128 * (((a >> 7u8) & 1u8)
            * ((b >> 7u8) & 1u8))) by (bit_vector);
    assert(a + b == (a ^ b) + 2 * (a & b)) by (bit_vector);
    assert forall|j: u8| j < 8 implies #[trigger] bit_of(a, j) <= 1 by {
        assert((a >> j) & 1u8 <= 1) by (bit_vector);
    }
}

/// Every identity of the XOR chip holds on the row generated for an
/// operation: each output byte is the XOR of the input bytes, and each bit
/// column holds one bit of its byte.
pub proof fn lemma_xor_row_constraints(op: XorOp, n: int, row: Seq<u32>)
    requires
        n >= 0,
        row.len() == xor_width(n),
        forall|c: int| 0 <= c < xor_width(n) ==> #[trigger] row[c] == xor_cell(op, n, c),
    ensures
        xor_constraints(row, n),
        forall|i: int| 0 <= i < n ==> #[trigger] row[col_output(n, i)] == (byte_of(op.input1, i) ^ byte_of(op.input2, i)) as u32,
{
    assert forall|i: int| 0 <= i < n implies #[trigger] xor_byte_constraints(row, n, i) by {
        let a = byte_of(op.input1, i);
        let b = byte_of(op.input2, i);
        let b1 = col_bits1(n, i, 0);
        let b2 = col_bits2(n, i, 0);
        lemma_byte_facts(a, b);
        lemma_byte_facts(b, a);
        assert forall|j: int| 0 <= j < 8 implies #[trigger] row[b1 + j] == bit_of(a, j as u8) && row[b2 + j] == bit_of(b, j as u8) by {
            assert(row[b1 + j] == xor_cell(op, n, b1 + j));
            assert(row[b2 + j] == xor_cell(op, n, b2 + j));
            assert((b1 + j - 1 - 2 * n) / 8 == i);
            assert((b2 + j - 1 - 10 * n) / 8 == i);
        }
        assert(row[col_input1(n, i)] == xor_cell(op, n, col_input1(n, i)));
        assert(row[col_input2(n, i)] == xor_cell(op, n, col_input2(n, i)));
        assert(row[col_output(n, i)] == xor_cell(op, n, col_output(n, i)));
        assert(bits_value(row, b1) == a as int);
        assert(bits_value(row, b2) == b as int);
        assert(and_value(row, b1, b2) == (a & b) as int);
        assert forall|j: int| #![trigger is_bool_cell(row, b1 + j)] #![trigger is_bool_cell(row, b2 + j)]
            0 <= j < 8 implies is_bool_cell(row, b1 + j) && is_bool_cell(row, b2 + j) by {
            assert(bit_of(a, j as u8) <= 1);
            assert(bit_of(b, j as u8) <= 1);
            let x = row[b1 + j];
            let y = row[b2 + j];
            assert(x == 0 || x == 1);
            assert(y == 0 || y == 1);
            if x == 1 { assert(x * x == 1); } else { assert(x * x == 0); }
            if y == 1 { assert(y * y == 1); } else { assert(y * y == 0); }
        }
        assert(bits_are_bool(row, b1, b2));
        assert(fe(row[col_input1(n, i)] as int) == fe(bits_value(row, b1)));
        assert(fe(row[col_input2(n, i)] as int) == fe(bits_value(row, b2)));
        assert(bits_value(row, b1) + bits_value(row, b2) == row[col_output(n, i)] + 2 * and_value(row, b1, b2));
    }
    assert forall|i: int| 0 <= i < n implies #[trigger] row[col_output(n, i)] == (byte_of(op.input1, i) ^ byte_of(op.input2, i)) as u32 by {
        assert(row[col_output(n, i)] == xor_cell(op, n, col_output(n, i)));
    }
}

/// Every row of a generated XOR trace, real or padding, satisfies every
/// identity of the chip.
pub proof fn lemma_xor_trace_constraints(ops: Seq<XorOp>, n: int, t: Trace)
    requires
        n >= 0,
        t.width == xor_width(n),
        forall|r: int, c: int| 0 <= r < t.height() && 0 <= c < t.width ==>
            #[trigger] t.cell(r, c) == xor_trace_cell(ops, n, r, c),
    ensures
        forall|r: int| 0 <= r < t.height() ==> xor_constraints(#[trigger] t.row(r), n),
{
    assert forall|r: int| 0 <= r < t.height() implies xor_constraints(#[trigger] t.row(r), n) by {
        let row = t.row(r);
        if r < ops.len() {
            assert forall|c: int| 0 <= c < xor_width(n) implies #[trigger] row[c] == xor_cell(ops[r], n, c) by {
                assert(t.cell(r, c) == xor_trace_cell(ops, n, r, c));
            }
            lemma_xor_row_constraints(ops[r], n, row);
        } else {
            assert forall|c: int| 0 <= c < xor_width(n) implies #[trigger] row[c] == 0 by {
                assert(t.cell(r, c) == xor_trace_cell(ops, n, r, c));
            }
            assert forall|i: int| 0 <= i < n implies #[trigger] xor_byte_constraints(row, n, i) by {
                let b1 = col_bits1(n, i, 0);
                let b2 = col_bits2(n, i, 0);
                assert forall|j: int| #![trigger is_bool_cell(row, b1 + j)] #![trigger is_bool_cell(row, b2 + j)]
                    0 <= j < 8 implies is_bool_cell(row, b1 + j) && is_bool_cell(row, b2 + j) by {
                    assert(row[b1 + j] == 0);
                    assert(row[b2 + j] == 0);
                }
                assert(bits_are_bool(row, b1, b2));
                assert(row[col_input1(n, i)] == 0);
                assert(row[col_input2(n, i)] == 0);
                assert(row[col_output(n, i)] == 0);
                assert(bits_value(row, b1) == 0);
                assert(bits_value(row, b2) == 0);
                assert(and_value(row, b1, b2) == 0);
            }
        }
    }
}


/// Column positions of the XOR layout; bit `j` of byte `i` is entry `8i + j`
/// of `bits1` and `bits2`.
#[derive(Clone, Debug)]
pub struct XorCols<const NUM_BYTES: usize> {
    pub is_real: usize,
    pub input1: Vec<usize>,
    pub input2: Vec<usize>,
    pub bits1: Vec<usize>,
    pub bits2: Vec<usize>,
    pub output: Vec<usize>,
}

impl<const NUM_BYTES: usize> XorCols<NUM_BYTES> {
    /// The layout rebased onto `indices`: each field names the entry of
    /// `indices` at its canonical position.
    pub fn from_slice(indices: &Vec<usize>) -> (r: Self)
        requires
            XorChip::<NUM_BYTES>::fits(),
            indices@.len() == xor_width(NUM_BYTES as int),
        ensures
            r.is_real == indices@[0],
            r.input1@ == indices@.subrange(1, col_input2(NUM_BYTES as int, 0)),
            r.input2@ == indices@.subrange(col_input2(NUM_BYTES as int, 0), col_bits1(NUM_BYTES as int, 0, 0)),
            r.bits1@ == indices@.subrange(col_bits1(NUM_BYTES as int, 0, 0), col_bits2(NUM_BYTES as int, 0, 0)),
            r.bits2@ == indices@.subrange(col_bits2(NUM_BYTES as int, 0, 0), col_output(NUM_BYTES as int, 0)),
            r.output@ == indices@.subrange(col_output(NUM_BYTES as int, 0), xor_width(NUM_BYTES as int)),
    {
        let n = NUM_BYTES;
        XorCols {
            is_real: indices[0],
            input1: crate::interaction::index_range(indices, 1, n),
            input2: crate::interaction::index_range(indices, 1 + n, n),
            bits1: crate::interaction::index_range(indices, 1 + 2 * n, 8 * n),
            bits2: crate::interaction::index_range(indices, 1 + 10 * n, 8 * n),
            output: crate::interaction::index_range(indices, 1 + 18 * n, n),
        }
    }

    /// The canonical layout, at offset zero.
    pub fn col_map() -> (r: Self)
        requires
            XorChip::<NUM_BYTES>::fits(),
        ensures
            r.is_real == 0,
            r.input1@ == identity_seq(xor_width(NUM_BYTES as int)).subrange(1, col_input2(NUM_BYTES as int, 0)),
            r.input2@ == identity_seq(xor_width(NUM_BYTES as int)).subrange(col_input2(NUM_BYTES as int, 0), col_bits1(NUM_BYTES as int, 0, 0)),
            r.bits1@ == identity_seq(xor_width(NUM_BYTES as int)).subrange(col_bits1(NUM_BYTES as int, 0, 0), col_bits2(NUM_BYTES as int, 0, 0)),
            r.bits2@ == identity_seq(xor_width(NUM_BYTES as int)).subrange(col_bits2(NUM_BYTES as int, 0, 0), col_output(NUM_BYTES as int, 0)),
            r.output@ == identity_seq(xor_width(NUM_BYTES as int)).subrange(col_output(NUM_BYTES as int, 0), xor_width(NUM_BYTES as int)),
    {
        Self::from_slice(&identity_indices(1 + 19 * NUM_BYTES))
    }
}

} // verus!
