//! Arithmetic helpers: factorial, Fibonacci numbers, and addition.
//!
//! All three operate on `u64` and wrap on overflow: each result is the
//! mathematical value reduced modulo 2^64, which the contracts state
//! exactly.

use vstd::arithmetic::div_mod::lemma_add_mod_noop;
use vstd::arithmetic::div_mod::lemma_mod_multiples_vanish;
use vstd::arithmetic::div_mod::lemma_mul_mod_noop_left;
use vstd::arithmetic::div_mod::lemma_small_mod;
use vstd::prelude::*;

verus! {

/// The mathematical factorial: `1` for `0` and `1`, otherwise
/// `n * spec_factorial(n - 1)`.
pub open spec fn spec_factorial(n: nat) -> nat
    decreases n,
{
    if n <= 1 {
        1
    } else {
        n * spec_factorial((n - 1) as nat)
    }
}

/// The mathematical Fibonacci sequence: `0`, `1`, and then the sum of
/// the two preceding values.
pub open spec fn spec_fibonacci(n: nat) -> nat
    decreases n,
{
    if n == 0 {
        0
    } else if n == 1 {
        1
    } else {
        spec_fibonacci((n - 2) as nat) + spec_fibonacci((n - 1) as nat)
    }
}

/// Calculate the factorial of a number, wrapping on overflow.
pub fn factorial(n: u64) -> (r: u64)
    ensures
        r as int == spec_factorial(n as nat) % 0x1_0000_0000_0000_0000,
{
    let mut acc: u64 = 1;
    let mut i: u64 = 1;
    proof {
        lemma_small_mod(1, 0x1_0000_0000_0000_0000);
    }
    while i < n
        invariant
            1 <= i,
            n > 1 ==> i <= n,
            n <= 1 ==> i == 1,
            acc as int == spec_factorial(i as nat) % 0x1_0000_0000_0000_0000,
        decreases n - i,
    {
        i = i + 1;
        let ghost prev = spec_factorial((i - 1) as nat);
        acc = acc.wrapping_mul(i);
        proof {
            lemma_mul_mod_noop_left(prev as int, i as int, 0x1_0000_0000_0000_0000);
            assert(spec_factorial(i as nat) == i * prev);
        }
    }
    proof {
        if n <= 1 {
            assert(spec_factorial(n as nat) == spec_factorial(1nat));
        }
    }
    acc
}

/// Calculate the nth Fibonacci number, wrapping on overflow.
pub fn fibonacci(n: u64) -> (r: u64)
    ensures
        r as int == spec_fibonacci(n as nat) % 0x1_0000_0000_0000_0000,
{
    let mut a: u64 = 0;
    let mut b: u64 = 1;
    let mut i: u64 = 0;
    proof {
        lemma_small_mod(0, 0x1_0000_0000_0000_0000);
        lemma_small_mod(1, 0x1_0000_0000_0000_0000);
    }
    while i < n
        invariant
            i <= n || i == 0,
            a as int == spec_fibonacci(i as nat) % 0x1_0000_0000_0000_0000,
            b as int == spec_fibonacci((i + 1) as nat) % 0x1_0000_0000_0000_0000,
        decreases n - i,
    {
        let ghost fa = spec_fibonacci(i as nat);
        let ghost fb = spec_fibonacci((i + 1) as nat);
        let t = a.wrapping_add(b);
        proof {
            lemma_add_mod_noop(fa as int, fb as int, 0x1_0000_0000_0000_0000);
            if a + b > u64::MAX {
                lemma_mod_multiples_vanish(-1, a + b, 0x1_0000_0000_0000_0000);
                lemma_small_mod((a + b - 0x1_0000_0000_0000_0000) as nat, 0x1_0000_0000_0000_0000);
            } else {
                lemma_small_mod((a + b) as nat, 0x1_0000_0000_0000_0000);
            }
            assert(spec_fibonacci((i + 2) as nat) == fa + fb);
        }
        a = b;
        b = t;
        i = i + 1;
    }
    a
}

/// Add two numbers, wrapping on overflow.
pub fn add(left: u64, right: u64) -> (r: u64)
    ensures
        r as int == (left + right) % 0x1_0000_0000_0000_0000,
{
    let r = left.wrapping_add(right);
    proof {
        if left + right > u64::MAX {
            lemma_mod_multiples_vanish(-1, left + right, 0x1_0000_0000_0000_0000);
            lemma_small_mod((left + right - 0x1_0000_0000_0000_0000) as nat, 0x1_0000_0000_0000_0000);
        } else {
            lemma_small_mod((left + right) as nat, 0x1_0000_0000_0000_0000);
        }
    }
    r
}

} // verus!
