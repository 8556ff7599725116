//! A semi-sorted list of voters, grouped into weight bands ("bags").
//!
//! Iteration visits bands from the heaviest to the lightest, and the voters of
//! one band in the order in which they joined it.
use vstd::prelude::*;

pub mod bands;
pub mod voter_list;
pub mod pallet;

pub use bands::notional_bag_for;
pub use pallet::{DispatchError, Event, Origin, Pallet};
pub use voter_list::{Bag, Node, SanityError, VoterList, VoterType};

verus! {

/// The weight of a vote.
pub type VoteWeight = u64;

/// The identity of a voter (its stash account).
pub type AccountId = u64;

} // verus!
