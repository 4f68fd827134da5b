//! A genetic-algorithm-guided multi-armed bandit over integer vectors.
//!
//! The library keeps the candidate memory, the sorted mean index, the genetic
//! operators and the bandit's decisions. Real-valued quantities (rewards, means,
//! UCB scores) reach it as the bit patterns of IEEE-754 doubles and as order keys
//! built from them by [`key::order_key`].
pub mod key;
pub mod sorted_multi_map;
pub mod vector;
mod random;
pub mod genetic;
pub mod arm;
pub mod memory;
pub mod bandit;
pub mod gmab;

pub use arm::Arm;
pub use bandit::find_best_ucb;
pub use gmab::{Gmab, GmabError, Phase, Step};
pub use sorted_multi_map::SortedMultiMap;
