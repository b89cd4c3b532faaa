//! Concrete order store implementations.

mod dense;
mod hash_map;

pub use dense::DenseOrderStore;
pub use hash_map::HashMapOrderStore;
