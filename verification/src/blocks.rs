//! Laying out input bytes in lane vectors and in the block grid.
//!
//! Input is always right-aligned: its last byte lands in the last lane, and
//! whatever is left in front is filled with the code of the digit zero, which
//! decodes to the value zero.

use crate::lanes::{LANE_WIDTH, ZERO_CODE};
use vstd::prelude::*;
use vstd::slice::slice_subrange;

verus! {

/// Longest input that the block grid can hold.
pub const MAX_DIGITS: usize = 64;

/// Number of blocks in the grid.
pub const MAX_BLOCKS: usize = MAX_DIGITS / LANE_WIDTH;

/// The codes of `bytes` right-aligned in `width` lanes: lane `i` holds the
/// byte that stands `width - i` places from the end of `bytes`, or the code of
/// zero where `bytes` does not reach that far.
pub open spec fn padded(bytes: Seq<u8>, width: nat) -> Seq<u32> {
    Seq::new(
        width,
        |i: int|
            if i + bytes.len() < width {
                ZERO_CODE
            } else {
                bytes[i + bytes.len() - width] as u32
            },
    )
}

/// The chunk of `bytes` that block `b` of the grid holds: `bytes` is cut into
/// chunks of `LANE_WIDTH` bytes from its end, the last block takes the last
/// chunk, and a block in front of the input takes nothing.
pub open spec fn chunk(bytes: Seq<u8>, b: int) -> Seq<u8> {
    let behind = (MAX_BLOCKS - 1 - b) * LANE_WIDTH;
    let end = if bytes.len() >= behind {
        bytes.len() - behind
    } else {
        0
    };
    let start = if end >= LANE_WIDTH {
        end - LANE_WIDTH
    } else {
        0
    };
    bytes.subrange(start, end)
}

/// Block `b` of the grid is the lane vector of the chunk it holds: the row of
/// the padded input and the padded chunk are the same lanes.
pub proof fn lemma_block_is_vector_of_chunk(bytes: Seq<u8>, b: int)
    requires
        bytes.len() <= MAX_DIGITS,
        0 <= b < MAX_BLOCKS,
    ensures
        padded(bytes, MAX_DIGITS as nat).subrange(b * LANE_WIDTH, (b + 1) * LANE_WIDTH) == padded(
            chunk(bytes, b),
            LANE_WIDTH as nat,
        ),
{
    assert(padded(bytes, MAX_DIGITS as nat).subrange(b * LANE_WIDTH, (b + 1) * LANE_WIDTH)
        =~= padded(chunk(bytes, b), LANE_WIDTH as nat));
}

/// `count` bytes, each the code of the digit zero.
pub open spec fn zeros(count: nat) -> Seq<u8> {
    Seq::new(count, |i: int| 0x30u8)
}

/// Zeros written in front of the input are laid out exactly like the padding
/// they take the place of.
pub proof fn lemma_padded_ignores_leading_zeros(bytes: Seq<u8>, count: nat, width: nat)
    requires
        count + bytes.len() <= width,
    ensures
        padded(zeros(count) + bytes, width) == padded(bytes, width),
{
    assert(padded(zeros(count) + bytes, width) =~= padded(bytes, width));
}

/// Places at most `LANE_WIDTH` bytes in one lane vector, right-aligned and
/// padded in front with the code of zero.
pub fn bytes_to_vector(s: &[u8]) -> (r: [u32; LANE_WIDTH])
    requires
        s@.len() <= LANE_WIDTH,
    ensures
        r@ == padded(s@, LANE_WIDTH as nat),
{
    let mut result = [ZERO_CODE; LANE_WIDTH];
    let len = s.len();
    let mut i: usize = 0;
    while i < len
        invariant
            i <= len == s@.len() <= LANE_WIDTH,
            forall|k: int|
                0 <= k < LANE_WIDTH - len + i ==> result[k] == padded(s@, LANE_WIDTH as nat)[k],
            forall|k: int| LANE_WIDTH - len + i <= k < LANE_WIDTH ==> result[k] == ZERO_CODE,
        decreases len - i,
    {
        result[LANE_WIDTH - len + i] = s[i] as u32;
        i = i + 1;
    }
    result
}

/// Splits at most `MAX_DIGITS` bytes into the grid of `MAX_BLOCKS` lane
/// vectors, most significant block first.
///
/// The input is cut into chunks of `LANE_WIDTH` bytes from its end; the
/// foremost chunk may be shorter and is padded inside its block. Blocks in
/// front of the input hold the code of zero in every lane. Read row by row,
/// the grid is the input right-aligned in `MAX_DIGITS` lanes.
pub fn bytes_to_vectors(v: &[u8]) -> (r: [[u32; LANE_WIDTH]; MAX_BLOCKS])
    requires
        v@.len() <= MAX_DIGITS,
    ensures
        forall|b: int, j: int|
            0 <= b < MAX_BLOCKS && 0 <= j < LANE_WIDTH ==> r[b][j] == padded(
                v@,
                MAX_DIGITS as nat,
            )[b * LANE_WIDTH + j],
        forall|b: int|
            0 <= b < MAX_BLOCKS ==> (#[trigger] r[b])@ == padded(chunk(v@, b), LANE_WIDTH as nat),
{
    let mut result = [[ZERO_CODE; LANE_WIDTH]; MAX_BLOCKS];
    let mut end: usize = v.len();
    let mut i: usize = 0;
    while end > 0
        invariant
            v@.len() <= MAX_DIGITS,
            i <= MAX_BLOCKS,
            end + i * LANE_WIDTH == v@.len() || (end == 0 && i * LANE_WIDTH >= v@.len()),
            end > 0 ==> i < MAX_BLOCKS,
            forall|b: int, j: int|
                0 <= b < MAX_BLOCKS - i && 0 <= j < LANE_WIDTH ==> result[b][j] == ZERO_CODE,
            forall|b: int, j: int|
                MAX_BLOCKS - i <= b < MAX_BLOCKS && 0 <= j < LANE_WIDTH ==> result[b][j] == padded(
                    v@,
                    MAX_DIGITS as nat,
                )[b * LANE_WIDTH + j],
        decreases end,
    {
        let start: usize = if end > LANE_WIDTH {
            end - LANE_WIDTH
        } else {
            0
        };
        let chunk = slice_subrange(v, start, end);
        result[MAX_BLOCKS - i - 1] = bytes_to_vector(chunk);
        end = start;
        i = i + 1;
    }
    result
}

} // verus!
