//! A verified 32-bit Mersenne Twister (MT19937) pseudo-random number
//! generator: deterministic seeding, the block twist, tempered 32-bit and
//! 64-bit extraction, and an unbiased bounded integer draw built on
//! rejection sampling.

pub mod dataset;
pub mod engine;
pub mod laws;
pub mod model;
