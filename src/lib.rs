//! A proof-of-work miner for a coin whose blocks are solved by a three-way
//! collision on the low bits of a SHA-256 digest.

pub mod hash;
pub mod block;
pub mod template;
pub mod memo;
pub mod order;
pub mod random;
pub mod chains;
pub mod cycle;
pub mod queue;
