//! The typed errors every operation of the engine reports.

use vstd::prelude::*;

verus! {

/// Why an operation was rejected.  Every failing operation returns one of
/// these synchronously and leaves the engine unchanged.
#[derive(Clone, Copy, PartialEq, Eq, Debug, Structural)]
pub enum Error {
    /// No task with the given id exists.
    TaskNotFound,
    /// The caller lacks the required relationship to the task.
    NotAuthorized,
    /// The title exceeds the configured maximum length.
    TitleTooLong,
    /// The description exceeds the configured maximum length.
    DescriptionTooLong,
    /// A bounded collection (ids, a user's tasks, a status, priority or
    /// deadline bucket, a round's voters) is at capacity.
    TooManyTasks,
    /// The priority is outside 1..=4.
    InvalidPriority,
    /// The difficulty is outside 1..=10.
    InvalidDifficulty,
    /// The requested status change is not a legal transition.
    InvalidStatusTransition,
    /// The task already has an assignee.
    TaskAlreadyAssigned,
    /// The task has no assignee.
    TaskNotAssigned,
    /// A task cannot be assigned to its own creator.
    CannotAssignToSelf,
    /// The task's deadline is not in the future.
    TaskExpired,
    /// The account cannot cover the required reservation.
    InsufficientBalance,
    /// The reward must be greater than zero.
    InvalidReward,
    /// The transfer leg of a settlement could not complete.
    RewardTransferFailed,
    /// The task is not awaiting community verification.
    TaskNotPendingVerification,
    /// The verification window is still open.
    VerificationPeriodNotEnded,
    /// The verification window has closed.
    VerificationPeriodEnded,
    /// The voter has already voted in this round.
    AlreadyVoted,
    /// The task's creator and assignee may not vote on it.
    CannotVoteOwnTask,
    /// The round has not yet collected the minimum number of votes.
    InsufficientVerificationVotes,
    /// The voter's reputation does not meet the bar for verification votes.
    InsufficientReputationToVote,
}

} // verus!
