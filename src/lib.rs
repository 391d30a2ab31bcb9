use vstd::prelude::*;

pub mod catalog;
pub mod filter;
pub mod nodders;
pub mod nods;
pub mod selection;

pub use catalog::{Quest, QuestChain, QuestInfo};
pub use nodders::{Nodders, PersistedState};
pub use nods::NodCounters;

verus! {

} // verus!
