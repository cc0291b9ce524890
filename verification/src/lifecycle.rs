//! The lifecycle state machine: task statuses, priorities, and the single
//! authority on which status transitions are legal.

use vstd::prelude::*;
use crate::errors::Error;

verus! {

/// The lifecycle states of a task.
#[derive(Clone, Copy, PartialEq, Eq, Debug, Structural)]
pub enum TaskStatus {
    Pending,
    InProgress,
    Completed,
    Cancelled,
    PendingVerification,
}

/// The numeric code of a status on the wire.
pub open spec fn status_code(s: TaskStatus) -> u8 {
    match s {
        TaskStatus::Pending => 0,
        TaskStatus::InProgress => 1,
        TaskStatus::Completed => 2,
        TaskStatus::Cancelled => 3,
        TaskStatus::PendingVerification => 4,
    }
}

/// The status a numeric code denotes; unknown codes fall back to `Pending`.
pub open spec fn status_from_code(v: u8) -> TaskStatus {
    if v == 0 {
        TaskStatus::Pending
    } else if v == 1 {
        TaskStatus::InProgress
    } else if v == 2 {
        TaskStatus::Completed
    } else if v == 3 {
        TaskStatus::Cancelled
    } else if v == 4 {
        TaskStatus::PendingVerification
    } else {
        TaskStatus::Pending
    }
}

/// Terminal states admit no outgoing transition.
pub open spec fn is_terminal(s: TaskStatus) -> bool {
    s == TaskStatus::Completed || s == TaskStatus::Cancelled
}

/// The transition table.  A same-state change is always permitted as a no-op;
/// otherwise only the listed edges are legal.  A task that should be
/// abandoned while still `Pending` is deleted, not cancelled.
pub open spec fn transition_allowed(from: TaskStatus, to: TaskStatus) -> bool {
    ||| from == to
    ||| (from == TaskStatus::Pending && to == TaskStatus::InProgress)
    ||| (from == TaskStatus::InProgress && (to == TaskStatus::Completed || to
        == TaskStatus::Cancelled || to == TaskStatus::PendingVerification))
    ||| (from == TaskStatus::PendingVerification && (to == TaskStatus::Completed || to
        == TaskStatus::InProgress))
}

impl From<u8> for TaskStatus {
    fn from(value: u8) -> (r: Self) {
        match value {
            0 => TaskStatus::Pending,
            1 => TaskStatus::InProgress,
            2 => TaskStatus::Completed,
            3 => TaskStatus::Cancelled,
            4 => TaskStatus::PendingVerification,
            _ => TaskStatus::Pending,
        }
    }
}

impl vstd::std_specs::convert::FromSpecImpl<u8> for TaskStatus {
    open spec fn obeys_from_spec() -> bool {
        true
    }

    open spec fn from_spec(v: u8) -> Self {
        status_from_code(v)
    }
}

impl From<TaskStatus> for u8 {
    fn from(status: TaskStatus) -> (r: u8) {
        match status {
            TaskStatus::Pending => 0,
            TaskStatus::InProgress => 1,
            TaskStatus::Completed => 2,
            TaskStatus::Cancelled => 3,
            TaskStatus::PendingVerification => 4,
        }
    }
}

impl vstd::std_specs::convert::FromSpecImpl<TaskStatus> for u8 {
    open spec fn obeys_from_spec() -> bool {
        true
    }

    open spec fn from_spec(v: TaskStatus) -> Self {
        status_code(v)
    }
}

/// Checks a requested transition against the transition table.
pub fn validate_status_transition(old_status: TaskStatus, new_status: TaskStatus) -> (r: Result<
    (),
    Error,
>)
    ensures
        r is Ok <==> transition_allowed(old_status, new_status),
        r is Err ==> r == Err::<(), Error>(Error::InvalidStatusTransition),
{
    if old_status == new_status {
        return Ok(());
    }
    match (old_status, new_status) {
        (TaskStatus::Pending, TaskStatus::InProgress) => Ok(()),
        (TaskStatus::InProgress, TaskStatus::Completed) => Ok(()),
        (TaskStatus::InProgress, TaskStatus::Cancelled) => Ok(()),
        (TaskStatus::InProgress, TaskStatus::PendingVerification) => Ok(()),
        (TaskStatus::PendingVerification, TaskStatus::Completed) => Ok(()),
        (TaskStatus::PendingVerification, TaskStatus::InProgress) => Ok(()),
        _ => Err(Error::InvalidStatusTransition),
    }
}

/// `Completed` is reachable only through `InProgress`.
///
/// Any transition that enters `Completed` starts at `InProgress` or at
/// `PendingVerification`, and `PendingVerification` itself is entered only
/// from `InProgress`; since every task starts at `Pending`, every path that
/// ends in `Completed` passes through `InProgress`.  Terminal states admit no
/// outgoing edge at all.
pub proof fn lemma_completed_requires_in_progress(from: TaskStatus, to: TaskStatus)
    ensures
        transition_allowed(from, TaskStatus::Completed) && from != TaskStatus::Completed ==> (from
            == TaskStatus::InProgress || from == TaskStatus::PendingVerification),
        transition_allowed(from, TaskStatus::PendingVerification) && from
            != TaskStatus::PendingVerification ==> from == TaskStatus::InProgress,
        is_terminal(from) && transition_allowed(from, to) ==> to == from,
{
}

/// The urgency classes of a task.
#[derive(Clone, Copy, PartialEq, Eq, Debug, Structural)]
pub enum Priority {
    Low,
    Medium,
    High,
    Urgent,
}

/// The numeric code of a priority on the wire.
pub open spec fn priority_code(p: Priority) -> u8 {
    match p {
        Priority::Low => 1,
        Priority::Medium => 2,
        Priority::High => 3,
        Priority::Urgent => 4,
    }
}

/// The priority a numeric code denotes; unknown codes fall back to `Medium`.
pub open spec fn priority_from_code(v: u8) -> Priority {
    if v == 1 {
        Priority::Low
    } else if v == 2 {
        Priority::Medium
    } else if v == 3 {
        Priority::High
    } else if v == 4 {
        Priority::Urgent
    } else {
        Priority::Medium
    }
}

impl From<u8> for Priority {
    fn from(value: u8) -> (r: Self) {
        match value {
            1 => Priority::Low,
            2 => Priority::Medium,
            3 => Priority::High,
            4 => Priority::Urgent,
            _ => Priority::Medium,
        }
    }
}

impl vstd::std_specs::convert::FromSpecImpl<u8> for Priority {
    open spec fn obeys_from_spec() -> bool {
        true
    }

    open spec fn from_spec(v: u8) -> Self {
        priority_from_code(v)
    }
}

impl From<Priority> for u8 {
    fn from(priority: Priority) -> (r: u8) {
        match priority {
            Priority::Low => 1,
            Priority::Medium => 2,
            Priority::High => 3,
            Priority::Urgent => 4,
        }
    }
}

impl vstd::std_specs::convert::FromSpecImpl<Priority> for u8 {
    open spec fn obeys_from_spec() -> bool {
        true
    }

    open spec fn from_spec(v: Priority) -> Self {
        priority_code(v)
    }
}

} // verus!
