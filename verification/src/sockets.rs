//! What is announced to the observers at the end of a generation.

use vstd::prelude::*;
use crate::family_tree::FamilyTree;
use crate::population::Bot;

verus! {

/// The number of snapshots that the channel to the observers holds before an observer
/// that has fallen behind is dropped.
pub const CHANNEL_CAPACITY: usize = 16;

/// The address on which observers are accepted where none is given.
pub const DEFAULT_ADDRESS: &'static str = "127.0.0.1:8080";

/// The snapshot of a generation: its best bot, the family tree, and its number.
#[derive(Debug, Clone)]
pub struct TrainingProgressAnnouncement {
    pub best_bot: Bot,
    pub species: FamilyTree,
    pub iteration_number: usize,
}

} // verus!
