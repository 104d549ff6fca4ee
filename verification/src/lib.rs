//! Lane-parallel conversion of ASCII decimal digits to an unsigned 32-bit
//! integer.
//!
//! The input is laid out right-aligned in a fixed grid of blocks, each block a
//! vector of lanes. Every lane is decoded, weighted by its place inside the
//! block and scaled by the place of its block; the blocks are gathered lane by
//! lane, and the lanes are summed at the end.
//!
//! * [`lanes`] holds the lane vectors, the table of weights and the lane-wise
//!   operations.
//! * [`blocks`] lays bytes out in one vector and in the whole grid.
//! * [`convert`] is the conversion and says what number it yields for every
//!   input.
//! * [`decimal`] says what a digit string means and proves that the
//!   conversion agrees with it.
//! * [`power`] computes integer powers with an explicit answer on overflow.

pub mod blocks;
pub mod convert;
pub mod decimal;
pub mod lanes;
pub mod power;

pub use blocks::{bytes_to_vector, bytes_to_vectors, MAX_BLOCKS, MAX_DIGITS};
pub use convert::{atoi, try_atoi, AtoiError};
pub use lanes::{
    create_times_table, lanes_add, lanes_mul, lanes_sum, lanes_xor, splat, CTOI_TABLE, LANE_WIDTH,
    TIMES_TABLE, ZERO_CODE,
};
pub use power::checked_pow;
