//! Building blocks of a vector distance engine: a compact validity bitmap,
//! the classification of half-precision bit patterns, and the choice of
//! kernel tier for a distance computation.

pub mod bitmap;
pub mod dispatch;
pub mod half_bits;
pub mod text;
