//! Arithmetic in the BabyBear prime field, on canonical `u32` representatives.

use vstd::prelude::*;

verus! {

/// The BabyBear modulus `15 * 2^27 + 1`.
pub const P: u32 = 2013265921;

/// A value is a canonical field element when it lies in `[0, P)`.
pub open spec fn is_canonical(x: int) -> bool {
    0 <= x < P as int
}

/// The field element that an integer denotes.
pub open spec fn fe(x: int) -> int {
    x % (P as int)
}

/// Reduces a `u32` to its canonical field element.
pub fn from_u32(x: u32) -> (r: u32)
    ensures
        r as int == fe(x as int),
        is_canonical(r as int),
{
    x % P
}

/// Field addition.
pub fn fadd(a: u32, b: u32) -> (r: u32)
    requires
        is_canonical(a as int),
        is_canonical(b as int),
    ensures
        r as int == fe(a + b),
        is_canonical(r as int),
{
    ((a as u64 + b as u64) % (P as u64)) as u32
}

/// Field subtraction.
pub fn fsub(a: u32, b: u32) -> (r: u32)
    requires
        is_canonical(a as int),
        is_canonical(b as int),
    ensures
        r as int == fe(a - b),
        is_canonical(r as int),
{
    let r = ((a as u64 + P as u64 - b as u64) % (P as u64)) as u32;
    assert(fe(a - b) == fe(a + P - b)) by {
        lemma_fe_add_p(a - b);
    }
    r
}

/// Field multiplication.
pub fn fmul(a: u32, b: u32) -> (r: u32)
    requires
        is_canonical(a as int),
        is_canonical(b as int),
    ensures
        r as int == fe(a * b),
        is_canonical(r as int),
{
    assert(a as int * b as int <= (P as int) * (P as int)) by (nonlinear_arith)
        requires
            0 <= a < P,
            0 <= b < P,
    ;
    ((a as u64 * b as u64) % (P as u64)) as u32
}

/// Adding the modulus does not change the element.
pub proof fn lemma_fe_add_p(x: int)
    ensures
        fe(x + P) == fe(x),
{
    vstd::arithmetic::div_mod::lemma_mod_add_multiples_vanish(x, P as int);
}

/// A small non-negative integer is its own field element.
pub proof fn lemma_fe_small(x: int)
    requires
        0 <= x < P,
    ensures
        fe(x) == x,
{
    vstd::arithmetic::div_mod::lemma_small_mod(x as nat, P as nat);
}

} // verus!
