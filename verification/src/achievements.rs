//! Data carried by the achievement-tracking collaborator: what an
//! achievement is, what a user has earned, and the per-user activity
//! statistics its unlock conditions are checked against.
//!
//! The task engine itself never reads these; they travel over the
//! collaborator callbacks alongside task events.

use vstd::prelude::*;

verus! {

/// What kind of activity an achievement rewards.
#[derive(Clone, Copy, PartialEq, Eq, Debug, Structural)]
pub enum AchievementType {
    /// Completing tasks.
    TaskCompletion,
    /// Reaching reputation marks.
    Reputation,
    /// Contributing to the community.
    Community,
    /// Special events.
    Special,
}

/// How hard an achievement is to earn.
#[derive(Clone, Copy, PartialEq, Eq, Debug, Structural)]
pub enum AchievementRarity {
    Common,
    Rare,
    Epic,
    Legendary,
}

/// The condition that unlocks an achievement.
#[derive(Clone, Copy, PartialEq, Eq, Debug, Structural)]
pub enum AchievementCondition {
    /// Complete this many tasks.
    CompleteTasksCount(u32),
    /// Reach this reputation score.
    ReachReputationScore(u32),
    /// Complete this many tasks in a row, with none cancelled in between.
    ConsecutiveTaskCompletion(u32),
    /// Hold this average rating, in tenths (45 stands for 4.5).
    AverageRating(u8),
    /// Take part in this many community verifications.
    CommunityVerificationCount(u32),
    /// Create this many tasks.
    CreateTasksCount(u32),
    /// Complete a task within this many hours.
    CompleteTaskInTime(u32),
}

/// An achievement on offer: its unlock condition and the collectible it
/// mints.
#[derive(PartialEq, Eq, Debug)]
pub struct Achievement {
    pub id: u32,
    /// Length-bounded name text.
    pub name: Vec<u8>,
    /// Length-bounded description text.
    pub description: Vec<u8>,
    pub achievement_type: AchievementType,
    pub rarity: AchievementRarity,
    pub condition: AchievementCondition,
    /// The collection the earned collectible is minted in.
    pub collection_id: u32,
    /// Where the collectible's metadata lives.
    pub metadata_uri: Vec<u8>,
    /// Deactivated achievements can no longer be earned.
    pub is_active: bool,
}

/// One achievement a user has earned.
#[derive(Clone, Copy, PartialEq, Eq, Debug, Structural)]
pub struct UserAchievement {
    pub achievement_id: u32,
    /// Moment the achievement was earned.
    pub earned_at: u64,
    /// The collectible minted for it, if one was.
    pub nft_item_id: Option<u32>,
    /// The account it was minted to.
    pub owner: u64,
}

/// How far a user has come towards one achievement.
#[derive(Clone, Copy, PartialEq, Eq, Debug, Structural)]
pub struct AchievementProgress {
    pub achievement_id: u32,
    pub current_progress: u32,
    pub target_progress: u32,
    /// Whole percent of the target reached.
    pub completion_percentage: u8,
}

/// Per-user activity statistics the unlock conditions are checked against.
#[derive(Clone, Copy, PartialEq, Eq, Debug, Structural)]
pub struct UserStats {
    pub tasks_completed: u32,
    pub tasks_created: u32,
    /// Current streak of completions with no cancellation in between.
    pub consecutive_completions: u32,
    pub community_verifications: u32,
    /// Sum of all ratings received, in whole stars.
    pub total_rating_points: u32,
    pub rating_count: u32,
    /// Moment of the latest recorded activity.
    pub last_activity: u64,
    /// Quickest completion so far, in hours.
    pub fastest_completion: Option<u32>,
}

impl Default for UserStats {
    /// A user with no recorded activity.
    fn default() -> (r: Self)
        ensures
            r == (UserStats {
                tasks_completed: 0,
                tasks_created: 0,
                consecutive_completions: 0,
                community_verifications: 0,
                total_rating_points: 0,
                rating_count: 0,
                last_activity: 0,
                fastest_completion: None,
            }),
    {
        UserStats {
            tasks_completed: 0,
            tasks_created: 0,
            consecutive_completions: 0,
            community_verifications: 0,
            total_rating_points: 0,
            rating_count: 0,
            last_activity: 0,
            fastest_completion: None,
        }
    }
}

impl UserStats {
    /// The user's average rating in tenths of a star (45 stands for 4.5),
    /// rounded down; zero while the user has no ratings.  The result is
    /// reduced to the byte range.
    pub fn average_rating(&self) -> (r: u8)
        ensures
            self.rating_count == 0 ==> r == 0,
            self.rating_count != 0 ==> r as int == ((self.total_rating_points as int * 10) / (
            self.rating_count as int)) % 256,
    {
        if self.rating_count == 0 {
            0
        } else {
            let tenths: u64 = (self.total_rating_points as u64) * 10 / (self.rating_count as u64);
            (tenths % 256) as u8
        }
    }
}

} // verus!
