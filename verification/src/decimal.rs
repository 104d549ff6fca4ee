//! What the conversion means for well-formed input: the number that a string
//! of decimal digits writes, and the proof that the lane-parallel sum is that
//! number whenever it fits.

use crate::blocks::{padded, MAX_BLOCKS, MAX_DIGITS};
use crate::convert::{
    atoi_value, block_scale, block_total, decoded, grid_total, lemma_block_scale_values,
};
use crate::lanes::{LANE_WIDTH, ZERO_CODE};
use crate::power::lemma_pow_values;
use vstd::prelude::*;

verus! {

/// Whether `byte` is the ASCII code of a decimal digit.
pub open spec fn is_digit(byte: u8) -> bool {
    0x30 <= byte <= 0x39
}

/// Whether every byte of `bytes` is the ASCII code of a decimal digit.
pub open spec fn all_digits(bytes: Seq<u8>) -> bool {
    forall|i: int| 0 <= i < bytes.len() ==> is_digit(#[trigger] bytes[i])
}

/// The number written by the decimal digits `bytes`, most significant first.
/// The empty string writes zero.
pub open spec fn decimal_value(bytes: Seq<u8>) -> nat
    decreases bytes.len(),
{
    if bytes.len() == 0 {
        0
    } else {
        10 * decimal_value(bytes.drop_last()) + (bytes.last() - 0x30) as nat
    }
}

/// The number written by the first `n` lanes of `codes`, each decoded, most
/// significant first.
spec fn positional(codes: Seq<u32>, n: nat) -> int
    decreases n,
{
    if n == 0 {
        0
    } else {
        10 * positional(codes, (n - 1) as nat) + decoded(codes[n - 1])
    }
}

/// The number written by the `LANE_WIDTH` lanes of `codes` that start at `at`.
spec fn chunk_value(codes: Seq<u32>, at: int) -> int {
    decoded(codes[at]) * 10000000 + decoded(codes[at + 1]) * 1000000 + decoded(codes[at + 2])
        * 100000 + decoded(codes[at + 3]) * 10000 + decoded(codes[at + 4]) * 1000 + decoded(
        codes[at + 5],
    ) * 100 + decoded(codes[at + 6]) * 10 + decoded(codes[at + 7])
}

/// Decoding the code of a digit gives the digit; the code of zero gives zero.
proof fn lemma_decoded_digit(byte: u8)
    requires
        is_digit(byte),
    ensures
        decoded(byte as u32) == byte - 0x30,
        decoded(ZERO_CODE) == 0,
{
    let code = byte as u32;
    assert((code ^ 0x30u32) + 0x30u32 == code) by (bit_vector)
        requires
            0x30u32 <= code <= 0x39u32,
    ;
    assert(0x30u32 ^ 0x30u32 == 0u32) by (bit_vector);
}

/// `positional` reads only the lanes it counts.
proof fn lemma_positional_agrees(a: Seq<u32>, b: Seq<u32>, n: nat)
    requires
        forall|k: int| 0 <= k < n ==> a[k] == b[k],
    ensures
        positional(a, n) == positional(b, n),
    decreases n,
{
    if n > 0 {
        lemma_positional_agrees(a, b, (n - 1) as nat);
    }
}

/// `positional` is never negative.
proof fn lemma_positional_nonnegative(codes: Seq<u32>, n: nat)
    ensures
        positional(codes, n) >= 0,
    decreases n,
{
    if n > 0 {
        lemma_positional_nonnegative(codes, (n - 1) as nat);
    }
}

/// Right-aligning a digit string in `width` lanes keeps the number it writes:
/// the padding in front decodes to zeros.
proof fn lemma_positional_of_padded(bytes: Seq<u8>, width: nat)
    requires
        all_digits(bytes),
        bytes.len() <= width,
    ensures
        positional(padded(bytes, width), width) == decimal_value(bytes),
    decreases width,
{
    if width > 0 {
        let codes = padded(bytes, width);
        let shorter = (width - 1) as nat;
        lemma_decoded_digit(0x30);
        if bytes.len() == 0 {
            lemma_positional_of_padded(bytes, shorter);
            lemma_positional_agrees(codes, padded(bytes, shorter), shorter);
        } else {
            let front = bytes.drop_last();
            assert(is_digit(bytes[bytes.len() - 1]));
            lemma_decoded_digit(bytes.last());
            lemma_positional_of_padded(front, shorter);
            lemma_positional_agrees(codes, padded(front, shorter), shorter);
        }
    }
}

/// Reading `LANE_WIDTH` more lanes shifts what was read by that many places
/// and adds the number written by the new lanes.
proof fn lemma_positional_take_chunk(codes: Seq<u32>, n: nat)
    ensures
        positional(codes, n + 8) == positional(codes, n) * 100000000 + chunk_value(codes, n as int),
{
    reveal_with_fuel(positional, 9);
}

/// A block adds the number that its lanes write, times the block's scale.
proof fn lemma_block_total(codes: Seq<u32>, b: int)
    requires
        0 <= b < MAX_BLOCKS,
    ensures
        block_total(codes, b, LANE_WIDTH as nat) == chunk_value(codes, b * LANE_WIDTH)
            * block_scale(b),
{
    lemma_pow_values();
    lemma_block_scale_values(b);
    reveal_with_fuel(block_total, 9);
}

/// For a string of at most `MAX_DIGITS` decimal digits whose number fits in a
/// `u32`, the conversion yields exactly that number.
pub proof fn lemma_atoi_value_is_decimal_value(bytes: Seq<u8>)
    requires
        all_digits(bytes),
        bytes.len() <= MAX_DIGITS,
        decimal_value(bytes) <= u32::MAX,
    ensures
        atoi_value(bytes) == decimal_value(bytes),
{
    let codes = padded(bytes, MAX_DIGITS as nat);
    lemma_positional_of_padded(bytes, MAX_DIGITS as nat);
    lemma_positional_take_chunk(codes, 48);
    lemma_positional_take_chunk(codes, 56);
    lemma_positional_nonnegative(codes, 48);
    lemma_block_total(codes, 0);
    lemma_block_total(codes, 1);
    lemma_block_total(codes, 2);
    lemma_block_total(codes, 3);
    lemma_block_total(codes, 4);
    lemma_block_total(codes, 5);
    lemma_block_total(codes, 6);
    lemma_block_total(codes, 7);
    // Only the last two blocks have a scale other than zero.
    lemma_block_scale_values(0);
    lemma_block_scale_values(1);
    lemma_block_scale_values(2);
    lemma_block_scale_values(3);
    lemma_block_scale_values(4);
    lemma_block_scale_values(5);
    lemma_block_scale_values(6);
    lemma_block_scale_values(7);
    assert(grid_total(codes, 8) == chunk_value(codes, 48) * 100000000 + chunk_value(codes, 56))
        by {
        reveal_with_fuel(grid_total, 9);
    }
    // Anything written in front of them would alone exceed a `u32`.
    assert(positional(codes, 48) == 0);
}

} // verus!
