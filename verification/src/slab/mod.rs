//! Per-core slab shards and the NUMA layout they follow.

pub mod numa;
pub mod sharded;

pub use numa::NumaInfo;
pub use sharded::{ShardedSlabManager, SlabShard};
