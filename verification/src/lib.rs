//! Layered scope maps: ordered stacks of key-value frames where lookups
//! search from the newest frame back to the oldest, so that a newer frame's
//! binding shadows an older one, while writes can still target a specific
//! frame by index.

mod chain;
mod chain_map;
mod chain_set;
mod error;
mod frame;
mod imutable;

pub use chain::count_pushes;
pub use chain::highest_index_of;
pub use chain::lemma_len_at_least_one;
pub use chain::lemma_len_formula;
pub use chain::lemma_lookup_highest;
pub use chain::lemma_shadowing;
pub use chain::lemma_split_append_round_trip;
pub use chain::len_after;
pub use chain::len_after_op;
pub use chain::lookup;
pub use chain::lookup_before;
pub use chain::pops_covered;
pub use chain_map::ChainMap;
pub use chain_set::member;
pub use chain_set::ChainSet;
pub use chain_set::SetFrame;
pub use error::Error;
pub use frame::Frame;
pub use imutable::LockedChainMap;
