//! Small integer helpers and their meaning.
use vstd::prelude::*;

verus! {

/// `a / b` rounded up.
pub open spec fn ceil_div(a: nat, b: nat) -> nat {
    ((a + b - 1) / b as int) as nat
}

pub open spec fn max_nat(a: nat, b: nat) -> nat {
    if a >= b { a } else { b }
}

pub open spec fn min_nat(a: nat, b: nat) -> nat {
    if a <= b { a } else { b }
}

pub fn div_ceil(a: usize, b: usize) -> (q: usize)
    requires
        b > 0,
    ensures
        q == ceil_div(a as nat, b as nat),
        q <= a,
{
    let q: usize = a / b;
    let r: usize = a % b;
    proof {
        lemma_ceil_div(a as nat, b as nat);
    }
    if r > 0 {
        q + 1
    } else {
        q
    }
}

pub proof fn lemma_ceil_div(a: nat, b: nat)
    requires
        b > 0,
    ensures
        ceil_div(a, b) == a / b + if a % b > 0 { 1nat } else { 0nat },
        ceil_div(a, b) <= a,
        a / b <= a,
        a <= ceil_div(a, b) * b,
        a > 0 ==> (ceil_div(a, b) - 1) * b < a,
        a > 0 ==> ceil_div(a, b) > 0,
        a % b > 0 ==> a / b < a,
{
    let q = a as int / b as int;
    let r = a as int % b as int;
    let c = (a + b - 1) / b as int;
    let s = (a + b - 1) % b as int;
    vstd::arithmetic::div_mod::lemma_fundamental_div_mod(a as int, b as int);
    vstd::arithmetic::div_mod::lemma_fundamental_div_mod(a + b - 1, b as int);
    assert(q >= 0 && q <= a && c >= 0 && c == q + if r > 0 { 1int } else { 0int } && c <= a && a
        <= c * b && (a > 0 ==> (c - 1) * b < a) && (a > 0 ==> c > 0) && (r > 0 ==> q < a))
        by (nonlinear_arith)
        requires
            b > 0,
            a >= 0,
            a == b * q + r,
            0 <= r < b,
            a + b - 1 == b * c + s,
            0 <= s < b,
    ;
}

pub fn max_usize(a: usize, b: usize) -> (m: usize)
    ensures
        m == max_nat(a as nat, b as nat),
{
    if a >= b { a } else { b }
}

pub fn min_usize(a: usize, b: usize) -> (m: usize)
    ensures
        m == min_nat(a as nat, b as nat),
{
    if a <= b { a } else { b }
}

/// A number, or the largest that fits.
pub open spec fn saturated_usize(n: nat) -> nat {
    if n > usize::MAX {
        usize::MAX as nat
    } else {
        n
    }
}

/// A product, or the largest number that fits.
pub fn mul_saturating(a: usize, b: usize) -> (p: usize)
    ensures
        p == saturated_usize(a as nat * b as nat),
{
    match a.checked_mul(b) {
        Some(p) => p,
        None => usize::MAX,
    }
}

/// A count as `i32`, or the largest that fits.
pub fn to_i32_saturating(n: usize) -> (r: i32)
    ensures
        r == if n > i32::MAX {
            i32::MAX as int
        } else {
            n as int
        },
{
    if n as u64 > 0x7fff_ffffu64 {
        i32::MAX
    } else {
        n as i32
    }
}

} // verus!
