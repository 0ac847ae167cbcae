//! Observations, hypotheses over items, the structural key and mutual
//! exclusion.
//!
//! An item occupies a fixed set of named slots and the structural key is one
//! multiset per slot. How many slots there are, what they are called and what
//! a slot value stands for is declared by whoever instantiates the model.
use vstd::prelude::*;

pub mod hypothesis;
pub mod id;
pub mod item;
pub mod observation;
pub mod order;
pub mod refusal;

pub use hypothesis::{Hypothesis, SlotMultiset, StructuralKey};
pub use id::{ChannelId, GroupId, ObservationId, SlotValue, SourceId};
pub use item::{Item, SlotLayout};
pub use observation::{Claim, HypothesisSet, Observation};
pub use refusal::Refused;

verus! {

} // verus!
