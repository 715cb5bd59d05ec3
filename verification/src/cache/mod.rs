//! Resource caches: an LRU engine with count and byte budgets, and a
//! shareable handle around it.

pub mod lru;
pub mod shared;
pub mod budgets;
