//! Verified discrete core of a suite of partially observed decision
//! experiments: seeded integer draws, history windows, the Tiger and
//! RockSample(4,4) worlds, particle bookkeeping, enumeration of
//! history-conditioned policies, and parsing of experiment method names.

pub mod rng;
pub mod window;
pub mod rocksample;
pub mod tiger;
pub mod particles;
pub mod policy_tree;
pub mod methods;
