//! Lane vectors and the operations applied to every lane at once.
//!
//! A lane vector is a fixed array of `LANE_WIDTH` unsigned 32-bit lanes. Every
//! operation here treats the lanes independently and wraps on overflow, as
//! fixed-width unsigned arithmetic does.

use crate::power::{checked_pow, lemma_pow_values};
use vstd::arithmetic::power::{lemma_pow_increases, pow};
use vstd::prelude::*;

verus! {

/// Number of lanes in one vector.
pub const LANE_WIDTH: usize = 8;

/// ASCII code of the digit zero.
pub const ZERO_CODE: u32 = 0x30;

/// Number of values a lane can hold; lane arithmetic is taken modulo this.
pub const LANE_MODULUS: u64 = 0x1_0000_0000;

/// The pattern that turns a lane of ASCII digit codes into digit values when
/// it is xor-ed onto the lane.
pub const CTOI_TABLE: [u32; LANE_WIDTH] = [0x30, 0x30, 0x30, 0x30, 0x30, 0x30, 0x30, 0x30];

/// The positional weight of every lane inside its block, most significant
/// lane first.
pub const TIMES_TABLE: [u32; LANE_WIDTH] = [
    10000000,
    1000000,
    100000,
    10000,
    1000,
    100,
    10,
    1,
];

/// Positional weight of lane `j` in a vector of `len` lanes: ten to the number
/// of lanes that follow it.
pub open spec fn lane_weight(len: int, j: int) -> int {
    pow(10, (len - 1 - j) as nat)
}

/// Sum of the first `n` lanes of `lanes`, without wrapping.
pub open spec fn lanes_total(lanes: Seq<u32>, n: nat) -> int
    decreases n,
{
    if n == 0 {
        0
    } else {
        lanes_total(lanes, (n - 1) as nat) + lanes[n - 1]
    }
}

/// `TIMES_TABLE` holds the positional weights of a vector of `LANE_WIDTH`
/// lanes, so it is the table that `create_times_table` builds for that width.
pub proof fn lemma_times_table_holds_weights()
    ensures
        forall|j: int|
            0 <= j < LANE_WIDTH ==> #[trigger] TIMES_TABLE[j] == lane_weight(LANE_WIDTH as int, j),
{
    lemma_pow_values();
}

/// Builds the table of positional weights for vectors of `LEN` lanes.
///
/// The largest weight is `10^(LEN - 1)`, which fits a lane for `LEN` up to 10.
pub fn create_times_table<const LEN: usize>() -> (t: [u32; LEN])
    requires
        LEN <= 10,
    ensures
        forall|i: int| 0 <= i < LEN ==> t[i] == lane_weight(LEN as int, i),
{
    let mut t = [10u32; LEN];
    let mut p: usize = 0;
    while p < LEN
        invariant
            p <= LEN <= 10,
            forall|i: int| 0 <= i < p ==> t[i] == lane_weight(LEN as int, i),
        decreases LEN - p,
    {
        proof {
            lemma_pow_values();
            lemma_pow_increases(10, (LEN - p - 1) as nat, 9);
        }
        let weight = checked_pow(10, (LEN - p - 1) as u32);
        t[p] = weight.unwrap();
        p = p + 1;
    }
    t
}

/// A vector with `value` in every lane.
pub fn splat(value: u32) -> (r: [u32; LANE_WIDTH])
    ensures
        forall|j: int| 0 <= j < LANE_WIDTH ==> r[j] == value,
{
    [value; LANE_WIDTH]
}

/// Lane-wise exclusive or.
pub fn lanes_xor(a: &[u32; LANE_WIDTH], b: &[u32; LANE_WIDTH]) -> (r: [u32; LANE_WIDTH])
    ensures
        forall|j: int| 0 <= j < LANE_WIDTH ==> r[j] == a[j] ^ b[j],
{
    let mut r = [0u32; LANE_WIDTH];
    let mut j: usize = 0;
    while j < LANE_WIDTH
        invariant
            j <= LANE_WIDTH,
            forall|k: int| 0 <= k < j ==> r[k] == a[k] ^ b[k],
        decreases LANE_WIDTH - j,
    {
        r[j] = a[j] ^ b[j];
        j = j + 1;
    }
    r
}

/// Lane-wise product, each lane wrapping at `LANE_MODULUS`.
pub fn lanes_mul(a: &[u32; LANE_WIDTH], b: &[u32; LANE_WIDTH]) -> (r: [u32; LANE_WIDTH])
    ensures
        forall|j: int| 0 <= j < LANE_WIDTH ==> r[j] == (a[j] * b[j]) % (LANE_MODULUS as int),
{
    let mut r = [0u32; LANE_WIDTH];
    let mut j: usize = 0;
    while j < LANE_WIDTH
        invariant
            j <= LANE_WIDTH,
            forall|k: int| 0 <= k < j ==> r[k] == (a[k] * b[k]) % (LANE_MODULUS as int),
        decreases LANE_WIDTH - j,
    {
        r[j] = a[j].wrapping_mul(b[j]);
        j = j + 1;
    }
    r
}

/// Lane-wise sum, each lane wrapping at `LANE_MODULUS`.
pub fn lanes_add(a: &[u32; LANE_WIDTH], b: &[u32; LANE_WIDTH]) -> (r: [u32; LANE_WIDTH])
    ensures
        forall|j: int| 0 <= j < LANE_WIDTH ==> r[j] == (a[j] + b[j]) % (LANE_MODULUS as int),
{
    let mut r = [0u32; LANE_WIDTH];
    let mut j: usize = 0;
    while j < LANE_WIDTH
        invariant
            j <= LANE_WIDTH,
            forall|k: int| 0 <= k < j ==> r[k] == (a[k] + b[k]) % (LANE_MODULUS as int),
        decreases LANE_WIDTH - j,
    {
        r[j] = a[j].wrapping_add(b[j]);
        j = j + 1;
    }
    r
}

/// Sum of all lanes of `a`, wrapping at `LANE_MODULUS`.
pub fn lanes_sum(a: &[u32; LANE_WIDTH]) -> (r: u32)
    ensures
        r == lanes_total(a@, LANE_WIDTH as nat) % (LANE_MODULUS as int),
{
    let mut r: u32 = 0;
    let mut j: usize = 0;
    while j < LANE_WIDTH
        invariant
            j <= LANE_WIDTH,
            r == lanes_total(a@, j as nat) % (LANE_MODULUS as int),
        decreases LANE_WIDTH - j,
    {
        proof {
            vstd::arithmetic::div_mod::lemma_add_mod_noop(
                lanes_total(a@, j as nat),
                a[j as int] as int,
                LANE_MODULUS as int,
            );
        }
        r = r.wrapping_add(a[j]);
        j = j + 1;
    }
    r
}

} // verus!
