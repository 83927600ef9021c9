//! Step flags: a one-hot vector of `N` flags, set at the first flag on the
//! first row and rotated by one position per row.

use vstd::prelude::*;

verus! {

/// The cyclic one-hot phase selector of `N` phases.
#[derive(Clone, Copy, Debug)]
pub struct StepFlagsAir<const N: usize>;

/// Column positions of the flags.
#[derive(Clone, Debug)]
pub struct StepFlagsCols {
    pub flags: Vec<usize>,
}

/// On the first row the first flag is one and the others zero.
pub open spec fn step_flags_first_row(local: Seq<u32>, n: int) -> bool {
    &&& local[0] == 1
    &&& forall|i: int| 1 <= i < n ==> #[trigger] local[i] == 0
}

/// Each flag moves one position forward, wrapping around, from a row to the next.
pub open spec fn step_flags_transition(local: Seq<u32>, next: Seq<u32>, n: int) -> bool {
    forall|i: int| 0 <= i < n ==> #[trigger] next[(i + 1) % n] == local[i]
}

impl<const N: usize> StepFlagsAir<N> {
    /// Number of main columns.
    pub fn width(&self) -> (r: usize)
        ensures
            r == N,
    {
        N
    }

    /// Evaluates the first-row identities on canonical field elements.
    pub fn eval_first_row(&self, local: &Vec<u32>) -> (ok: bool)
        requires
            N >= 1,
            local@.len() == N,
        ensures
            ok == step_flags_first_row(local@, N as int),
    {
        if local[0] != 1 {
            return false;
        }
        let mut i: usize = 1;
        while i < N
            invariant
                1 <= i <= N,
                local@.len() == N,
                local@[0] == 1,
                forall|k: int| 1 <= k < i ==> #[trigger] local@[k] == 0,
            decreases N - i,
        {
            if local[i] != 0 {
                return false;
            }
            i = i + 1;
        }
        true
    }

    /// Evaluates the transition identities between two rows of canonical
    /// field elements.
    pub fn eval_transition(&self, local: &Vec<u32>, next: &Vec<u32>) -> (ok: bool)
        requires
            N >= 1,
            local@.len() == N,
            next@.len() == N,
        ensures
            ok == step_flags_transition(local@, next@, N as int),
    {
        let mut i: usize = 0;
        while i < N
            invariant
                i <= N,
                N >= 1,
                local@.len() == N,
                next@.len() == N,
                forall|k: int| 0 <= k < i ==> #[trigger] next@[(k + 1) % (N as int)] == local@[k],
            decreases N - i,
        {
            let j = if i + 1 == N { 0 } else { i + 1 };
            proof {
                if i + 1 == N {
                    vstd::arithmetic::div_mod::lemma_mod_self_0(N as int);
                } else {
                    vstd::arithmetic::div_mod::lemma_small_mod((i + 1) as nat, N as nat);
                }
            }
            assert(j as int == (i + 1) % (N as int));
            if next[j] != local[i] {
                return false;
            }
            i = i + 1;
        }
        true
    }
}

/// Flags of row `r` of a table whose blocks of `n` rows each start at phase zero.
pub open spec fn step_flags_row(n: int, r: int) -> Seq<u32> {
    Seq::new(n as nat, |i: int| if i == r % n { 1u32 } else { 0u32 })
}

/// The flags of consecutive rows satisfy the transition identities, and the
/// first row satisfies the first-row identities.
pub proof fn lemma_step_flags_rows(n: int, r: int)
    requires
        n >= 1,
        r >= 0,
    ensures
        step_flags_first_row(step_flags_row(n, 0), n),
        step_flags_transition(step_flags_row(n, r), step_flags_row(n, r + 1), n),
{
    assert(0int % n == 0);
    assert forall|i: int| 0 <= i < n implies #[trigger] step_flags_row(n, r + 1)[(i + 1) % n] == step_flags_row(n, r)[i] by {
        let a = r % n;
        vstd::arithmetic::div_mod::lemma_mod_bound(r, n);
        vstd::arithmetic::div_mod::lemma_add_mod_noop(r, 1, n);
        if n == 1 {
            assert(i == 0 && a == 0);
            assert((i + 1) % n == 0 && (r + 1) % n == 0);
        } else {
            vstd::arithmetic::div_mod::lemma_small_mod(1, n as nat);
            lemma_succ_mod(i, n);
            lemma_succ_mod(a, n);
            vstd::arithmetic::div_mod::lemma_mod_bound(i + 1, n);
        }
    }
}

/// `(i + 1) % n` is `i + 1`, or zero at the end of the cycle.
proof fn lemma_succ_mod(i: int, n: int)
    requires
        0 <= i < n,
    ensures
        (i + 1) % n == if i + 1 == n { 0 } else { i + 1 },
{
    if i + 1 == n {
        vstd::arithmetic::div_mod::lemma_mod_self_0(n);
    } else {
        vstd::arithmetic::div_mod::lemma_small_mod((i + 1) as nat, n as nat);
    }
}

} // verus!
