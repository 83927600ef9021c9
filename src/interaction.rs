//! Interactions: the tuples a chip sends to or receives from a bus, each an
//! affine combination of its columns, weighted by a count expression.

use vstd::prelude::*;
use crate::field::{fe, is_canonical, fadd, fmul, from_u32, P};

verus! {

/// A column of the preprocessed or of the main trace.
#[derive(Clone, Copy, PartialEq, Eq, Structural, Debug)]
pub enum PairCol {
    Preprocessed(usize),
    Main(usize),
}

/// An affine expression `constant + sum(weight * column)`.
#[derive(Clone, Debug)]
pub struct VirtualPairCol {
    pub column_weights: Vec<(PairCol, u32)>,
    pub constant: u32,
}

/// `count` copies of the tuple `fields` on bus `argument_index`.
#[derive(Clone, Debug)]
pub struct Interaction {
    pub fields: Vec<VirtualPairCol>,
    pub count: VirtualPairCol,
    pub argument_index: usize,
}

/// `vc` is the main column `col` itself.
pub open spec fn is_single_main(vc: VirtualPairCol, col: usize) -> bool {
    &&& vc.constant == 0
    &&& vc.column_weights@ == seq![(PairCol::Main(col), 1u32)]
}

/// `vc` is `lo + 256 * hi` over two main columns: a 16-bit limb from its bytes.
pub open spec fn is_limb_of_bytes(vc: VirtualPairCol, lo: usize, hi: usize) -> bool {
    &&& vc.constant == 0
    &&& vc.column_weights@ == seq![(PairCol::Main(lo), 1u32), (PairCol::Main(hi), 256u32)]
}

/// `vc` is the sum of two main columns.
pub open spec fn is_sum_of_two(vc: VirtualPairCol, a: usize, b: usize) -> bool {
    &&& vc.constant == 0
    &&& vc.column_weights@ == seq![(PairCol::Main(a), 1u32), (PairCol::Main(b), 1u32)]
}

/// The limb `lo + 256 * hi` of two main columns.
pub fn limb_of_bytes(lo: usize, hi: usize) -> (r: VirtualPairCol)
    ensures
        is_limb_of_bytes(r, lo, hi),
{
    VirtualPairCol { column_weights: vec![(PairCol::Main(lo), 1u32), (PairCol::Main(hi), 256u32)], constant: 0 }
}

/// The sum of two main columns.
pub fn sum_of_two(a: usize, b: usize) -> (r: VirtualPairCol)
    ensures
        is_sum_of_two(r, a, b),
{
    VirtualPairCol { column_weights: vec![(PairCol::Main(a), 1u32), (PairCol::Main(b), 1u32)], constant: 0 }
}

/// The value a column takes in the given rows.
pub open spec fn pair_col_value(c: PairCol, pre: Seq<u32>, main: Seq<u32>) -> int {
    match c {
        PairCol::Preprocessed(i) => if i < pre.len() { pre[i as int] as int } else { 0 },
        PairCol::Main(i) => if i < main.len() { main[i as int] as int } else { 0 },
    }
}

/// The integer sum of `weight * column` over the first `n` weighted columns.
pub open spec fn weighted_sum(cw: Seq<(PairCol, u32)>, n: nat, pre: Seq<u32>, main: Seq<u32>) -> int
    decreases n,
{
    if n == 0 {
        0
    } else {
        weighted_sum(cw, (n - 1) as nat, pre, main) + cw[n - 1].1 as int * pair_col_value(cw[n - 1].0, pre, main)
    }
}

impl VirtualPairCol {
    /// The field element the expression takes on the given rows.
    pub open spec fn value(&self, pre: Seq<u32>, main: Seq<u32>) -> int {
        fe(self.constant as int + weighted_sum(self.column_weights@, self.column_weights@.len(), pre, main))
    }

    /// `constant + sum(weight * main column)`.
    pub fn new_main(column_weights: Vec<(usize, u32)>, constant: u32) -> (r: VirtualPairCol)
        ensures
            r.constant == constant,
            r.column_weights@.len() == column_weights@.len(),
            forall|i: int| 0 <= i < column_weights@.len() ==>
                r.column_weights@[i] == (PairCol::Main(column_weights@[i].0), column_weights@[i].1),
    {
        let mut cw: Vec<(PairCol, u32)> = Vec::new();
        let mut i: usize = 0;
        while i < column_weights.len()
            invariant
                i <= column_weights@.len(),
                cw@.len() == i,
                forall|k: int| 0 <= k < i ==>
                    cw@[k] == (PairCol::Main(column_weights@[k].0), column_weights@[k].1),
            decreases column_weights@.len() - i,
        {
            let (c, w) = column_weights[i];
            cw.push((PairCol::Main(c), w));
            i = i + 1;
        }
        VirtualPairCol { column_weights: cw, constant }
    }

    /// The main column `column` itself.
    pub fn single_main(column: usize) -> (r: VirtualPairCol)
        ensures
            r.constant == 0,
            r.column_weights@ == seq![(PairCol::Main(column), 1u32)],
    {
        VirtualPairCol { column_weights: vec![(PairCol::Main(column), 1u32)], constant: 0 }
    }

    /// The preprocessed column `column` itself.
    pub fn single_preprocessed(column: usize) -> (r: VirtualPairCol)
        ensures
            r.constant == 0,
            r.column_weights@ == seq![(PairCol::Preprocessed(column), 1u32)],
    {
        VirtualPairCol { column_weights: vec![(PairCol::Preprocessed(column), 1u32)], constant: 0 }
    }

    /// The sum of the given main columns.
    pub fn sum_main(columns: Vec<usize>) -> (r: VirtualPairCol)
        ensures
            r.constant == 0,
            r.column_weights@.len() == columns@.len(),
            forall|i: int| 0 <= i < columns@.len() ==>
                r.column_weights@[i] == (PairCol::Main(columns@[i]), 1u32),
    {
        let mut cw: Vec<(PairCol, u32)> = Vec::new();
        let mut i: usize = 0;
        while i < columns.len()
            invariant
                i <= columns@.len(),
                cw@.len() == i,
                forall|k: int| 0 <= k < i ==> cw@[k] == (PairCol::Main(columns@[k]), 1u32),
            decreases columns@.len() - i,
        {
            cw.push((PairCol::Main(columns[i]), 1u32));
            i = i + 1;
        }
        VirtualPairCol { column_weights: cw, constant: 0 }
    }

    /// The constant `value`.
    pub fn constant(value: u32) -> (r: VirtualPairCol)
        ensures
            r.constant == value,
            r.column_weights@.len() == 0,
    {
        VirtualPairCol { column_weights: Vec::new(), constant: value }
    }

    /// Evaluates the expression on a preprocessed row and a main row.
    pub fn apply(&self, pre: &Vec<u32>, main: &Vec<u32>) -> (r: u32)
        ensures
            r as int == self.value(pre@, main@),
            is_canonical(r as int),
    {
        let mut acc: u32 = from_u32(self.constant);
        let mut i: usize = 0;
        while i < self.column_weights.len()
            invariant
                i <= self.column_weights@.len(),
                is_canonical(acc as int),
                acc as int == fe(self.constant as int + weighted_sum(self.column_weights@, i as nat, pre@, main@)),
            decreases self.column_weights@.len() - i,
        {
            let (c, w) = self.column_weights[i];
            let v: u32 = match c {
                PairCol::Preprocessed(j) => if j < pre.len() { pre[j] } else { 0 },
                PairCol::Main(j) => if j < main.len() { main[j] } else { 0 },
            };
            let term = fmul(from_u32(w), from_u32(v));
            let ghost prev = self.constant as int + weighted_sum(self.column_weights@, i as nat, pre@, main@);
            proof {
                lemma_fe_mul_reduced(w as int, v as int);
                lemma_fe_add_reduced(prev, w as int * v as int);
            }
            acc = fadd(acc, term);
            i = i + 1;
        }
        acc
    }
}

/// Reducing the factors does not change a product.
pub proof fn lemma_fe_mul_reduced(a: int, b: int)
    ensures
        fe(fe(a) * fe(b)) == fe(a * b),
{
    vstd::arithmetic::div_mod::lemma_mul_mod_noop(a, b, P as int);
}

/// Reducing the summands does not change a sum.
pub proof fn lemma_fe_add_reduced(a: int, b: int)
    ensures
        fe(fe(a) + fe(b)) == fe(a + b),
{
    vstd::arithmetic::div_mod::lemma_add_mod_noop(a, b, P as int);
}

/// The sequence `0, 1, ..., n - 1`.
pub open spec fn identity_seq(n: int) -> Seq<usize> {
    Seq::new(n as nat, |i: int| i as usize)
}

/// The column indices `0, 1, ..., n - 1`: the canonical layout.
pub fn identity_indices(n: usize) -> (r: Vec<usize>)
    ensures
        r@ == identity_seq(n as int),
{
    let mut r: Vec<usize> = Vec::new();
    let mut i: usize = 0;
    while i < n
        invariant
            i <= n,
            r@.len() == i,
            forall|k: int| 0 <= k < i ==> r@[k] == k as usize,
        decreases n - i,
    {
        r.push(i);
        i = i + 1;
    }
    assert(r@ =~= identity_seq(n as int));
    r
}


/// The indices `indices[from .. from + len]`: a field of a layout rebased
/// onto a list of columns.
pub fn index_range(indices: &Vec<usize>, from: usize, len: usize) -> (r: Vec<usize>)
    requires
        from + len <= indices@.len(),
    ensures
        r@ == indices@.subrange(from as int, from + len),
{
    let n = indices.len();
    let mut r: Vec<usize> = Vec::new();
    let mut k: usize = 0;
    while k < len
        invariant
            k <= len,
            n == indices@.len(),
            from + len <= n,
            r@ == indices@.subrange(from as int, from + k),
        decreases len - k,
    {
        r.push(indices[from + k]);
        k = k + 1;
        assert(r@ =~= indices@.subrange(from as int, from + k));
    }
    r
}

} // verus!
