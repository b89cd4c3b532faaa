//! Concrete price book implementations.

mod btree;
mod dash_skip;
mod level_maps;
mod pool_level;

pub use btree::BTreeOrderBook;
pub use dash_skip::DashSkipOrderBook;
pub use pool_level::PoolLevelOrderBook;
