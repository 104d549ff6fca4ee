//! The conversion itself: decode, weight, scale, accumulate, reduce.

use crate::blocks::{
    bytes_to_vectors, lemma_padded_ignores_leading_zeros, padded, zeros, MAX_BLOCKS, MAX_DIGITS,
};
use crate::decimal::{all_digits, decimal_value, lemma_atoi_value_is_decimal_value};
use crate::lanes::{
    lane_weight, lanes_add, lanes_mul, lanes_sum, lanes_total, lanes_xor,
    lemma_times_table_holds_weights, splat, CTOI_TABLE, LANE_MODULUS, LANE_WIDTH, TIMES_TABLE,
    ZERO_CODE,
};
use crate::power::{checked_pow, lemma_pow_values};
use vstd::arithmetic::div_mod::{
    lemma_add_mod_noop, lemma_mod_twice, lemma_mul_mod_noop_left, lemma_small_mod,
};
use vstd::arithmetic::power::{lemma_pow_increases, pow};
use vstd::prelude::*;
use vstd::string::StringSliceAdditionalSpecFns;

verus! {

/// Value that a lane holding `code` stands for: the code xor the code of zero.
/// For the codes of `'0'` to `'9'` this is the digit.
pub open spec fn decoded(code: u32) -> u32 {
    code ^ ZERO_CODE
}

/// Factor applied to every lane of block `b`: ten to the number of lanes in
/// the blocks behind it, or zero when that power does not fit a lane.
pub open spec fn block_scale(b: int) -> int {
    let power = pow(10, (LANE_WIDTH * (MAX_BLOCKS - 1 - b)) as nat);
    if power <= u32::MAX {
        power
    } else {
        0
    }
}

/// Only the last two blocks count: the scale of the last block is one, that
/// of the block before it is ten to the lane width, and the scale of every
/// block further to the front does not fit a lane and is zero.
pub proof fn lemma_block_scale_values(b: int)
    requires
        0 <= b < MAX_BLOCKS,
    ensures
        block_scale(b) == if b == MAX_BLOCKS - 1 {
            1int
        } else if b == MAX_BLOCKS - 2 {
            100000000int
        } else {
            0int
        },
{
    lemma_pow_values();
    if b < MAX_BLOCKS - 2 {
        lemma_pow_increases(10, 10, (LANE_WIDTH * (MAX_BLOCKS - 1 - b)) as nat);
    }
}

/// What lane `j` of block `b` adds to the result, before any wrapping.
pub open spec fn lane_term(codes: Seq<u32>, b: int, j: int) -> int {
    decoded(codes[b * LANE_WIDTH + j]) * lane_weight(LANE_WIDTH as int, j) * block_scale(b)
}

/// What the first `lanes` lanes of block `b` add to the result.
pub open spec fn block_total(codes: Seq<u32>, b: int, lanes: nat) -> int
    decreases lanes,
{
    if lanes == 0 {
        0
    } else {
        block_total(codes, b, (lanes - 1) as nat) + lane_term(codes, b, lanes - 1)
    }
}

/// What the first `blocks` blocks add to the result.
pub open spec fn grid_total(codes: Seq<u32>, blocks: nat) -> int
    decreases blocks,
{
    if blocks == 0 {
        0
    } else {
        grid_total(codes, (blocks - 1) as nat) + block_total(
            codes,
            blocks - 1,
            LANE_WIDTH as nat,
        )
    }
}

/// The number that the conversion yields for `bytes`: every lane of the grid
/// decoded, weighted and scaled, all of them summed, and the sum taken modulo
/// `LANE_MODULUS`.
pub open spec fn atoi_value(bytes: Seq<u8>) -> u32 {
    (grid_total(padded(bytes, MAX_DIGITS as nat), MAX_BLOCKS as nat) % (LANE_MODULUS as int)) as u32
}

/// What lane `j` has gathered from the first `blocks` blocks.
spec fn column_total(codes: Seq<u32>, j: int, blocks: nat) -> int
    decreases blocks,
{
    if blocks == 0 {
        0
    } else {
        column_total(codes, j, (blocks - 1) as nat) + lane_term(codes, blocks - 1, j)
    }
}

/// What the first `lanes` lanes have gathered from the first `blocks` blocks.
spec fn columns_total(codes: Seq<u32>, lanes: nat, blocks: nat) -> int
    decreases lanes,
{
    if lanes == 0 {
        0
    } else {
        columns_total(codes, (lanes - 1) as nat, blocks) + column_total(codes, lanes - 1, blocks)
    }
}

/// Taking one more block into every lane adds that block's lanes.
proof fn lemma_columns_take_block(codes: Seq<u32>, lanes: nat, blocks: nat)
    ensures
        columns_total(codes, lanes, blocks + 1) == columns_total(codes, lanes, blocks)
            + block_total(codes, blocks as int, lanes),
    decreases lanes,
{
    if lanes > 0 {
        lemma_columns_take_block(codes, (lanes - 1) as nat, blocks);
    }
}

/// Summing lane by lane and summing block by block give the same total.
proof fn lemma_columns_total_is_grid_total(codes: Seq<u32>, blocks: nat)
    ensures
        columns_total(codes, LANE_WIDTH as nat, blocks) == grid_total(codes, blocks),
    decreases blocks,
{
    if blocks == 0 {
        lemma_columns_of_nothing(codes, LANE_WIDTH as nat);
    } else {
        lemma_columns_total_is_grid_total(codes, (blocks - 1) as nat);
        lemma_columns_take_block(codes, LANE_WIDTH as nat, (blocks - 1) as nat);
    }
}

/// Lanes that have gathered no block hold nothing.
proof fn lemma_columns_of_nothing(codes: Seq<u32>, lanes: nat)
    ensures
        columns_total(codes, lanes, 0) == 0,
    decreases lanes,
{
    if lanes > 0 {
        lemma_columns_of_nothing(codes, (lanes - 1) as nat);
    }
}

/// Lanes that each hold a column's total modulo `LANE_MODULUS` sum to the
/// columns' total modulo `LANE_MODULUS`.
proof fn lemma_wrapped_lanes_total(acc: Seq<u32>, codes: Seq<u32>, lanes: nat, blocks: nat)
    requires
        lanes <= acc.len(),
        forall|j: int|
            0 <= j < lanes ==> acc[j] == column_total(codes, j, blocks) % (LANE_MODULUS as int),
    ensures
        lanes_total(acc, lanes) % (LANE_MODULUS as int) == columns_total(codes, lanes, blocks) % (
        LANE_MODULUS as int),
    decreases lanes,
{
    if lanes > 0 {
        let m = LANE_MODULUS as int;
        let rest = (lanes - 1) as nat;
        lemma_wrapped_lanes_total(acc, codes, rest, blocks);
        lemma_add_mod_noop(lanes_total(acc, rest), acc[lanes - 1] as int, m);
        lemma_add_mod_noop(
            columns_total(codes, rest, blocks),
            column_total(codes, lanes - 1, blocks),
            m,
        );
        lemma_small_mod(acc[lanes - 1] as nat, m as nat);
        lemma_mod_twice(column_total(codes, lanes - 1, blocks), m);
    }
}

/// One step of one lane: decoding, weighting and scaling with wrapping
/// products, then adding with a wrapping sum, keeps the lane equal to its
/// column's total modulo `LANE_MODULUS`.
proof fn lemma_lane_step(before: int, column: int, digit: int, weight: int, scale: int)
    requires
        before == column % (LANE_MODULUS as int),
    ensures
        (before + (((digit * weight) % (LANE_MODULUS as int)) * scale) % (LANE_MODULUS as int)) % (
        LANE_MODULUS as int) == (column + digit * weight * scale) % (LANE_MODULUS as int),
{
    let m = LANE_MODULUS as int;
    lemma_mul_mod_noop_left(digit * weight, scale, m);
    lemma_add_mod_noop(column, digit * weight * scale, m);
    lemma_add_mod_noop(before, (((digit * weight) % m) * scale) % m, m);
    lemma_small_mod(before as nat, m as nat);
    lemma_mod_twice(((digit * weight) % m) * scale, m);
}

/// Leading zeros are insignificant: zeros written in front of the input, as
/// long as the whole still fits the grid, leave the result as it was. This
/// holds of every input, digits or not.
pub proof fn lemma_leading_zeros_are_insignificant(bytes: Seq<u8>, count: nat)
    requires
        count + bytes.len() <= MAX_DIGITS,
    ensures
        atoi_value(zeros(count) + bytes) == atoi_value(bytes),
{
    lemma_padded_ignores_leading_zeros(bytes, count, MAX_DIGITS as nat);
}

/// The conversion is a function of the input bytes and of nothing else: two
/// inputs that hold the same bytes are laid out in the same grid and convert
/// to the same number.
pub proof fn lemma_same_input_same_result(first: Seq<u8>, second: Seq<u8>)
    requires
        first.len() == second.len(),
        forall|i: int| 0 <= i < first.len() ==> first[i] == second[i],
    ensures
        padded(first, MAX_DIGITS as nat) == padded(second, MAX_DIGITS as nat),
        atoi_value(first) == atoi_value(second),
{
    assert(first =~= second);
}

/// Why a conversion was refused.
#[derive(Debug, Clone, Copy, PartialEq, Eq, Structural)]
pub enum AtoiError {
    /// The input is longer than `MAX_DIGITS` bytes.
    InputTooLong,
}

/// Converts a string of ASCII decimal digits, at most `MAX_DIGITS` bytes long,
/// to the number it writes.
///
/// Nothing is validated and nothing is reported: a byte that is no digit is
/// decoded like one, a block whose scale does not fit a lane counts for
/// nothing, and lanes wrap. The result is `atoi_value` of the bytes, whatever
/// they are.
pub fn atoi(s: &str) -> (r: u32)
    requires
        s.spec_bytes().len() <= MAX_DIGITS,
    ensures
        r == atoi_value(s.spec_bytes()),
        all_digits(s.spec_bytes()) && decimal_value(s.spec_bytes()) <= u32::MAX ==> r
            == decimal_value(s.spec_bytes()),
{
    let v = s.as_bytes();
    let blocks = bytes_to_vectors(v);
    let ghost codes = padded(v@, MAX_DIGITS as nat);
    let mut result = splat(0);
    let mut index: usize = 0;
    while index < MAX_BLOCKS
        invariant
            index <= MAX_BLOCKS,
            codes.len() == MAX_DIGITS,
            forall|b: int, j: int|
                0 <= b < MAX_BLOCKS && 0 <= j < LANE_WIDTH ==> blocks[b][j] == codes[b * LANE_WIDTH
                    + j],
            forall|j: int|
                0 <= j < LANE_WIDTH ==> result[j] == column_total(codes, j, index as nat) % (
                LANE_MODULUS as int),
        decreases MAX_BLOCKS - index,
    {
        let base = MAX_BLOCKS - index - 1;
        let times = checked_pow(10, (base * LANE_WIDTH) as u32).unwrap_or(0);
        let digits = lanes_xor(&blocks[index], &CTOI_TABLE);
        let weighted = lanes_mul(&digits, &TIMES_TABLE);
        let scaled = lanes_mul(&weighted, &splat(times));
        let gathered = lanes_add(&result, &scaled);
        proof {
            lemma_times_table_holds_weights();
            assert forall|j: int| 0 <= j < LANE_WIDTH implies gathered[j] == column_total(
                codes,
                j,
                (index + 1) as nat,
            ) % (LANE_MODULUS as int) by {
                assert(digits[j] == decoded(codes[index * LANE_WIDTH + j]));
                assert(TIMES_TABLE[j] == lane_weight(LANE_WIDTH as int, j));
                assert(times == block_scale(index as int));
                lemma_lane_step(
                    result[j] as int,
                    column_total(codes, j, index as nat),
                    digits[j] as int,
                    TIMES_TABLE[j] as int,
                    times as int,
                );
            }
        }
        result = gathered;
        index = index + 1;
    }
    proof {
        lemma_wrapped_lanes_total(result@, codes, LANE_WIDTH as nat, MAX_BLOCKS as nat);
        lemma_columns_total_is_grid_total(codes, MAX_BLOCKS as nat);
        if all_digits(v@) && decimal_value(v@) <= u32::MAX {
            lemma_atoi_value_is_decimal_value(v@);
        }
    }
    lanes_sum(&result)
}

/// Converts like [`atoi`], but takes input of any length: input longer than
/// `MAX_DIGITS` bytes is refused with `AtoiError::InputTooLong`, and nothing
/// of it is read.
pub fn try_atoi(s: &str) -> (r: Result<u32, AtoiError>)
    ensures
        s.spec_bytes().len() <= MAX_DIGITS ==> r == Ok::<u32, AtoiError>(
            atoi_value(s.spec_bytes()),
        ),
        s.spec_bytes().len() > MAX_DIGITS ==> r == Err::<u32, AtoiError>(AtoiError::InputTooLong),
{
    if s.as_bytes().len() > MAX_DIGITS {
        Err(AtoiError::InputTooLong)
    } else {
        Ok(atoi(s))
    }
}

} // verus!
