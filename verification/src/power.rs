//! Integer powers with an explicit answer on overflow.

use vstd::arithmetic::power::{lemma_pow0, lemma_pow_increases, pow};
use vstd::prelude::*;

verus! {

/// `pow(base, exp + 1)` is `pow(base, exp)` times `base`.
pub proof fn lemma_pow_step(base: int, exp: nat)
    ensures
        pow(base, exp + 1) == pow(base, exp) * base,
{
    reveal(pow);
    assert(pow(base, exp + 1) == base * pow(base, exp));
    assert(base * pow(base, exp) == pow(base, exp) * base) by (nonlinear_arith);
}

/// The powers of ten up to `10^10`, the first one past a `u32`.
pub proof fn lemma_pow_values()
    ensures
        pow(10, 0) == 1,
        pow(10, 1) == 10,
        pow(10, 2) == 100,
        pow(10, 3) == 1000,
        pow(10, 4) == 10000,
        pow(10, 5) == 100000,
        pow(10, 6) == 1000000,
        pow(10, 7) == 10000000,
        pow(10, 8) == 100000000,
        pow(10, 9) == 1000000000,
        pow(10, 10) == 10000000000,
{
    lemma_pow0(10);
    lemma_pow_step(10, 0);
    lemma_pow_step(10, 1);
    lemma_pow_step(10, 2);
    lemma_pow_step(10, 3);
    lemma_pow_step(10, 4);
    lemma_pow_step(10, 5);
    lemma_pow_step(10, 6);
    lemma_pow_step(10, 7);
    lemma_pow_step(10, 8);
    lemma_pow_step(10, 9);
}

/// `base` raised to `exp`, or `None` when the power does not fit in a `u32`.
pub fn checked_pow(base: u32, exp: u32) -> (r: Option<u32>)
    ensures
        match r {
            Some(power) => power == pow(base as int, exp as nat),
            None => pow(base as int, exp as nat) > u32::MAX,
        },
{
    let mut acc: u32 = 1;
    let mut done: u32 = 0;
    proof {
        lemma_pow0(base as int);
    }
    while done < exp
        invariant
            done <= exp,
            acc == pow(base as int, done as nat),
        decreases exp - done,
    {
        proof {
            lemma_pow_step(base as int, done as nat);
        }
        match acc.checked_mul(base) {
            Some(next) => {
                acc = next;
            },
            None => {
                proof {
                    // The product overflowed, so `base` is not zero, and every
                    // later power is at least as large as this one.
                    assert(base >= 1) by (nonlinear_arith)
                        requires
                            acc * base > u32::MAX,
                            acc <= u32::MAX,
                            base >= 0,
                    ;
                    lemma_pow_increases(base as nat, (done + 1) as nat, exp as nat);
                }
                return None;
            },
        }
        done = done + 1;
    }
    Some(acc)
}

} // verus!
