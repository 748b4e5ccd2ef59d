//! Verified core of a byte-record update benchmark: the sampler that picks
//! the offsets to change, the update plan and the two update strategies, and
//! the trial loop that times them.

pub mod bench;
pub mod rnd;
pub mod update_column;
