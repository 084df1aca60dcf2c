//! Achievements.

use vstd::prelude::*;

verus! {

/// The stage that an achievement has reached.
#[derive(Debug, Clone, Copy, PartialEq, Eq, PartialOrd, Ord, Structural)]
pub enum AchievementLevel {
    /// The first stage.
    Bronze,
    /// The second stage.
    Silver,
    /// The last stage.
    Gold,
}

/// A milestone that a learner can reach.
#[derive(Debug, Clone, PartialEq, Eq, PartialOrd, Ord)]
pub struct Achievement {
    /// The identifier of the achievement.
    pub id: String,
    /// The name to show.
    pub name: String,
    /// What the achievement is given for.
    pub description: String,
    /// The stage that was reached.
    pub unlocked_level: AchievementLevel,
    /// When the stage was reached, in milliseconds.
    pub unlocked_at_ms: u64,
}

} // verus!
