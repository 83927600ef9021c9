//! Trace tables: dense row-major tables of canonical field elements whose
//! height is a power of two.

use vstd::prelude::*;

verus! {

/// `n` is a power of two.
pub open spec fn is_pow2(n: nat) -> bool
    decreases n,
{
    if n == 1 {
        true
    } else if n < 2 || n % 2 != 0 {
        false
    } else {
        is_pow2(n / 2)
    }
}

/// `h` is the least power of two that is at least `n`.
pub open spec fn is_next_pow2(h: nat, n: nat) -> bool {
    &&& is_pow2(h)
    &&& h >= n
    &&& (h == 1 || h / 2 < n)
}

/// The largest argument for which the next power of two is computed.
pub const MAX_POW2_ARG: usize = 0x4000_0000;

/// The least power of two that is at least `n` (one for zero).
pub fn next_power_of_two(n: usize) -> (r: usize)
    requires
        n <= MAX_POW2_ARG,
    ensures
        is_next_pow2(r as nat, n as nat),
{
    let mut p: usize = 1;
    while p < n
        invariant
            is_pow2(p as nat),
            p == 1 || p <= 2 * n,
            p == 1 || p / 2 < n,
            n <= MAX_POW2_ARG,
        decreases 2 * n - p,
    {
        assert(is_pow2((2 * p) as nat)) by {
            assert((2 * p) as nat / 2 == p as nat);
        }
        p = p * 2;
    }
    p
}

/// Of two powers of two, the smaller one divides the larger, so doubling it
/// stays at most the larger.
pub proof fn lemma_pow2_double_le(a: nat, b: nat)
    requires
        is_pow2(a),
        is_pow2(b),
        a < b,
    ensures
        2 * a <= b,
    decreases b,
{
    if a == 1 {
        assert(b >= 2);
    } else {
        assert(b >= 2 && b % 2 == 0 && a % 2 == 0);
        lemma_pow2_double_le(a / 2, b / 2);
    }
}

/// There is one least power of two at least `n`.
pub proof fn lemma_next_pow2_unique(a: nat, b: nat, n: nat)
    requires
        is_next_pow2(a, n),
        is_next_pow2(b, n),
    ensures
        a == b,
{
    if a < b {
        lemma_pow2_double_le(a, b);
    } else if b < a {
        lemma_pow2_double_le(b, a);
    }
}

/// A table of `values.len() / width` rows of `width` field elements each.
pub struct Trace {
    pub values: Vec<u32>,
    pub width: usize,
}

impl Trace {
    pub open spec fn height(&self) -> nat {
        if self.width == 0 { 0 } else { self.values@.len() / (self.width as nat) }
    }

    /// The element at row `r`, column `c`.
    pub open spec fn cell(&self, r: int, c: int) -> u32 {
        self.values@[r * self.width + c]
    }

    /// Row `r`, as a sequence of `width` elements.
    pub open spec fn row(&self, r: int) -> Seq<u32> {
        Seq::new(self.width as nat, |c: int| self.cell(r, c))
    }

    /// The table is rectangular and its height is a power of two.
    pub open spec fn wf(&self) -> bool {
        &&& self.width > 0
        &&& self.values@.len() == self.height() * self.width
        &&& is_pow2(self.height())
    }

    /// A table of `rows` rows and `cols` columns, filled with zeros.
    pub fn new_zeroed(rows: usize, cols: usize) -> (t: Trace)
        requires
            cols > 0,
            rows * cols <= usize::MAX,
        ensures
            t.width == cols,
            t.values@.len() == rows * cols,
            t.height() == rows,
            forall|i: int| 0 <= i < t.values@.len() ==> t.values@[i] == 0,
    {
        let n: usize = rows * cols;
        let mut values: Vec<u32> = Vec::with_capacity(n);
        let mut i: usize = 0;
        while i < n
            invariant
                i <= n,
                values@.len() == i,
                forall|j: int| 0 <= j < i ==> values@[j] == 0,
            decreases n - i,
        {
            values.push(0);
            i = i + 1;
        }
        let t = Trace { values, width: cols };
        assert(t.height() == rows) by {
            assert(rows * cols == cols * rows) by (nonlinear_arith);
            vstd::arithmetic::div_mod::lemma_div_multiples_vanish(rows as int, cols as int);
        }
        t
    }

    /// Reads row `r`, column `c`.
    pub fn get(&self, r: usize, c: usize) -> (v: u32)
        requires
            c < self.width,
            r < self.height(),
            self.values@.len() == self.height() * self.width,
        ensures
            v == self.cell(r as int, c as int),
    {
        let _len = self.values.len();
        proof { lemma_cell_index(r as int, c as int, self.width as int, self.height() as int); }
        self.values[r * self.width + c]
    }

    /// Writes `v` at row `r`, column `c`.
    pub fn set(&mut self, r: usize, c: usize, v: u32)
        requires
            c < old(self).width,
            r < old(self).height(),
            old(self).values@.len() == old(self).height() * old(self).width,
        ensures
            final(self).width == old(self).width,
            final(self).values@ == old(self).values@.update(r * old(self).width + c, v),
            final(self).height() == old(self).height(),
    {
        let _len = self.values.len();
        proof { lemma_cell_index(r as int, c as int, self.width as int, self.height() as int); }
        let w = self.width;
        self.values.set(r * w + c, v);
    }
}

impl Trace {
    /// An empty table of the given width.
    pub fn empty(width: usize) -> (t: Trace)
        requires
            width > 0,
        ensures
            t.width == width,
            t.values@.len() == 0,
            t.height() == 0,
    {
        Trace { values: Vec::new(), width }
    }

    /// Appends one row below the last.
    pub fn push_row(&mut self, row: &Vec<u32>)
        requires
            old(self).width > 0,
            row@.len() == old(self).width,
            old(self).values@.len() == old(self).height() * old(self).width,
            old(self).values@.len() + row@.len() <= usize::MAX,
        ensures
            final(self).width == old(self).width,
            final(self).height() == old(self).height() + 1,
            final(self).values@.len() == final(self).height() * final(self).width,
            forall|r: int, c: int| 0 <= r < old(self).height() && 0 <= c < old(self).width ==>
                #[trigger] final(self).cell(r, c) == old(self).cell(r, c),
            forall|c: int| 0 <= c < old(self).width ==>
                #[trigger] final(self).cell(old(self).height() as int, c) == row@[c],
    {
        let ghost h = self.height();
        let ghost w = self.width as int;
        let ghost old_values = self.values@;
        let mut j: usize = 0;
        while j < row.len()
            invariant
                j <= row@.len(),
                row@.len() == w,
                self.width == w,
                old_values.len() == h * w,
                old_values.len() + row@.len() <= usize::MAX,
                self.values@.len() == h * w + j,
                forall|k: int| 0 <= k < h * w ==> self.values@[k] == old_values[k],
                forall|k: int| 0 <= k < j ==> self.values@[h * w + k] == row@[k],
            decreases row@.len() - j,
        {
            self.values.push(row[j]);
            j = j + 1;
        }
        proof {
            assert(h * w + w == (h + 1) * w) by (nonlinear_arith);
            vstd::arithmetic::div_mod::lemma_div_multiples_vanish((h + 1) as int, w);
            assert(w * (h + 1) == (h + 1) * w) by (nonlinear_arith);
            assert forall|r: int, c: int| 0 <= r < h && 0 <= c < w implies
                #[trigger] self.cell(r, c) == old_values[r * w + c] by {
                lemma_cell_index(r, c, w, h as int);
            }
        }
    }
}

/// A row of `width` zeros.
pub fn zero_row(width: usize) -> (row: Vec<u32>)
    ensures
        row@.len() == width,
        forall|c: int| 0 <= c < width ==> row@[c] == 0,
{
    let mut row: Vec<u32> = Vec::new();
    let mut j: usize = 0;
    while j < width
        invariant
            j <= width,
            row@.len() == j,
            forall|c: int| 0 <= c < j ==> row@[c] == 0,
        decreases width - j,
    {
        row.push(0);
        j = j + 1;
    }
    row
}

/// The flat index of a cell lies within the table, and differs from that of
/// every other cell.
pub proof fn lemma_cell_index(r: int, c: int, w: int, h: int)
    requires
        0 <= r < h,
        0 <= c < w,
    ensures
        0 <= r * w + c < h * w,
        (r + 1) * w <= h * w,
{
    assert((r + 1) * w <= h * w) by (nonlinear_arith)
        requires
            0 <= r < h,
            0 <= c < w,
    ;
    assert(r * w + w == (r + 1) * w) by (nonlinear_arith);
    assert(0 <= r * w) by (nonlinear_arith)
        requires
            0 <= r,
            0 <= c < w,
    ;
}

} // verus!
