//! A store of one two-dimensional array of 64-bit floats with its metadata,
//! and of one buffer holding its last encoding, for hosts that can pass only
//! primitive values. Each of the two is held in a slot whose lock is never
//! waited on.

pub mod array;
pub mod slot;
pub mod wire;
