//! The task record and the value types of the query surface.

use vstd::prelude::*;
use crate::lifecycle::{is_terminal, Priority, TaskStatus};

verus! {

/// The mathematical content of a [`Task`].
pub ghost struct TaskView {
    pub id: u32,
    pub creator: u64,
    pub assignee: Option<u64>,
    pub title: Seq<u8>,
    pub description: Seq<u8>,
    pub status: TaskStatus,
    pub priority: u8,
    pub difficulty: u8,
    pub reward: u128,
    pub created_at: u64,
    pub updated_at: u64,
    pub deadline: Option<u64>,
}

/// A work item of the ledger.
///
/// Accounts are `u64` identities, moments are monotonic `u64` time units, and
/// balances are `u128` amounts.  Title and description are length-bounded
/// byte strings.
#[derive(PartialEq, Eq, Debug)]
pub struct Task {
    /// Identity; assigned monotonically, never reused.
    pub id: u32,
    /// The account that created the task and escrowed its reward.
    pub creator: u64,
    /// The account the task is assigned to, if any.
    pub assignee: Option<u64>,
    /// Length-bounded title text.
    pub title: Vec<u8>,
    /// Length-bounded description text.
    pub description: Vec<u8>,
    /// Where the task stands in its lifecycle.
    pub status: TaskStatus,
    /// Urgency class, 1 through 4.
    pub priority: u8,
    /// Difficulty grade, 1 through 10.
    pub difficulty: u8,
    /// The reward escrowed for completing the task; always positive.
    pub reward: u128,
    /// Moment of creation.
    pub created_at: u64,
    /// Moment of the latest mutation.
    pub updated_at: u64,
    /// Moment the task falls due, if any; strictly future at creation.
    pub deadline: Option<u64>,
}

impl View for Task {
    type V = TaskView;

    open spec fn view(&self) -> TaskView {
        TaskView {
            id: self.id,
            creator: self.creator,
            assignee: self.assignee,
            title: self.title@,
            description: self.description@,
            status: self.status,
            priority: self.priority,
            difficulty: self.difficulty,
            reward: self.reward,
            created_at: self.created_at,
            updated_at: self.updated_at,
            deadline: self.deadline,
        }
    }
}

/// Byte-for-byte copy of a byte string.
pub fn clone_bytes(v: &Vec<u8>) -> (r: Vec<u8>)
    ensures
        r@ == v@,
{
    let mut out: Vec<u8> = Vec::new();
    let n = v.len();
    let mut i: usize = 0;
    while i < n
        invariant
            n == v@.len(),
            i <= n,
            out@ == v@.subrange(0, i as int),
        decreases n - i,
    {
        out.push(v[i]);
        proof {
            assert(out@ =~= v@.subrange(0, i + 1 as int));
        }
        i = i + 1;
    }
    proof {
        assert(out@ =~= v@);
    }
    out
}

impl Clone for Task {
    fn clone(&self) -> (r: Self)
        ensures
            r@ == self@,
    {
        Task {
            id: self.id,
            creator: self.creator,
            assignee: self.assignee,
            title: clone_bytes(&self.title),
            description: clone_bytes(&self.description),
            status: self.status,
            priority: self.priority,
            difficulty: self.difficulty,
            reward: self.reward,
            created_at: self.created_at,
            updated_at: self.updated_at,
            deadline: self.deadline,
        }
    }
}

/// A task is past its deadline at `current_time`.
pub open spec fn expired_at(t: TaskView, current_time: u64) -> bool {
    match t.deadline {
        Some(d) => d <= current_time,
        None => false,
    }
}

impl Task {
    /// A fresh record: pending, unassigned, with equal creation and update
    /// moments.
    pub fn new(
        id: u32,
        creator: u64,
        title: Vec<u8>,
        description: Vec<u8>,
        priority: u8,
        difficulty: u8,
        reward: u128,
        created_at: u64,
        deadline: Option<u64>,
    ) -> (r: Self)
        ensures
            r@ == (TaskView {
                id,
                creator,
                assignee: None,
                title: title@,
                description: description@,
                status: TaskStatus::Pending,
                priority,
                difficulty,
                reward,
                created_at,
                updated_at: created_at,
                deadline,
            }),
    {
        Task {
            id,
            creator,
            assignee: None,
            title,
            description,
            status: TaskStatus::Pending,
            priority,
            difficulty,
            reward,
            created_at,
            updated_at: created_at,
            deadline,
        }
    }

    /// Only the creator may modify, assign or delete the task.
    pub fn can_be_modified_by(&self, account: u64) -> (r: bool)
        ensures
            r == (self@.creator == account),
    {
        self.creator == account
    }

    /// The creator and the current assignee may operate on the task's status.
    pub fn can_be_operated_by(&self, account: u64) -> (r: bool)
        ensures
            r == (self@.creator == account || self@.assignee == Some(account)),
    {
        self.creator == account || self.assignee == Some(account)
    }

    pub fn is_assigned(&self) -> (r: bool)
        ensures
            r == (self@.assignee is Some),
    {
        self.assignee.is_some()
    }

    /// The task is in a terminal state (`Completed` or `Cancelled`).
    pub fn is_final_state(&self) -> (r: bool)
        ensures
            r == is_terminal(self@.status),
    {
        self.status == TaskStatus::Completed || self.status == TaskStatus::Cancelled
    }

    /// The task has a deadline that is not in the future of `current_time`.
    pub fn is_expired(&self, current_time: u64) -> (r: bool)
        ensures
            r == expired_at(self@, current_time),
    {
        match self.deadline {
            Some(d) => d <= current_time,
            None => false,
        }
    }

    /// The deadline falls within `threshold` time units after `current_time`.
    pub fn is_expiring_soon(&self, current_time: u64, threshold: u64) -> (r: bool)
        requires
            current_time + threshold <= u64::MAX,
        ensures
            r == match self@.deadline {
                Some(d) => d > current_time && d <= current_time + threshold,
                None => false,
            },
    {
        match self.deadline {
            Some(d) => d > current_time && d <= current_time + threshold,
            None => false,
        }
    }

    pub fn status_string(&self) -> (r: &'static str)
        ensures
            self@.status == TaskStatus::Pending ==> r@ == "Pending"@,
            self@.status == TaskStatus::InProgress ==> r@ == "InProgress"@,
            self@.status == TaskStatus::Completed ==> r@ == "Completed"@,
            self@.status == TaskStatus::Cancelled ==> r@ == "Cancelled"@,
            self@.status == TaskStatus::PendingVerification ==> r@ == "PendingVerification"@,
    {
        match self.status {
            TaskStatus::Pending => "Pending",
            TaskStatus::InProgress => "InProgress",
            TaskStatus::Completed => "Completed",
            TaskStatus::Cancelled => "Cancelled",
            TaskStatus::PendingVerification => "PendingVerification",
        }
    }

    pub fn priority_string(&self) -> (r: &'static str)
        ensures
            crate::lifecycle::priority_from_code(self@.priority) == Priority::Low ==> r@ == "Low"@,
            crate::lifecycle::priority_from_code(self@.priority) == Priority::Medium ==> r@
                == "Medium"@,
            crate::lifecycle::priority_from_code(self@.priority) == Priority::High ==> r@
                == "High"@,
            crate::lifecycle::priority_from_code(self@.priority) == Priority::Urgent ==> r@
                == "Urgent"@,
    {
        let p: Priority = Priority::from(self.priority);
        match p {
            Priority::Low => "Low",
            Priority::Medium => "Medium",
            Priority::High => "High",
            Priority::Urgent => "Urgent",
        }
    }

    /// The task is pending and has someone to carry it out.
    pub fn can_start(&self) -> (r: bool)
        ensures
            r == (self@.status == TaskStatus::Pending && self@.assignee is Some),
    {
        self.status == TaskStatus::Pending && self.assignee.is_some()
    }

    /// Only a task in progress can be completed.
    pub fn can_complete(&self) -> (r: bool)
        ensures
            r == (self@.status == TaskStatus::InProgress),
    {
        self.status == TaskStatus::InProgress
    }

    /// The task awaits community verification.
    pub fn needs_verification(&self) -> (r: bool)
        ensures
            r == (self@.status == TaskStatus::PendingVerification),
    {
        self.status == TaskStatus::PendingVerification
    }
}

/// The key a search sorts its results by.
#[derive(Clone, Copy, PartialEq, Eq, Debug, Structural)]
pub enum TaskSortBy {
    CreatedAt,
    UpdatedAt,
    Deadline,
    Reward,
    Difficulty,
    Priority,
}

impl Default for TaskSortBy {
    fn default() -> (r: Self)
        ensures
            r == TaskSortBy::CreatedAt,
    {
        TaskSortBy::CreatedAt
    }
}

/// The mathematical content of [`TaskSearchParams`].
pub ghost struct SearchParamsView {
    pub keyword: Seq<u8>,
    pub status: Option<u8>,
    pub priority: Option<u8>,
    pub difficulty_range: Option<(u8, u8)>,
    pub reward_range: Option<(u128, u128)>,
    pub creator: Option<u64>,
    pub assignee: Option<u64>,
    pub deadline_range: Option<(u64, u64)>,
    pub created_time_range: Option<(u64, u64)>,
    pub has_deadline: bool,
    pub unassigned_only: bool,
    pub sort_by: TaskSortBy,
    pub sort_desc: bool,
    pub page: u32,
    pub page_size: u32,
}

/// Filters, sort key and pagination of one search over the registry.
#[derive(Clone, PartialEq, Eq, Debug)]
pub struct TaskSearchParams {
    /// Case-insensitive keyword matched against title and description;
    /// empty means no keyword filter.
    pub keyword: Vec<u8>,
    /// Keep only tasks whose status carries this code.
    pub status: Option<u8>,
    /// Keep only tasks with this priority.
    pub priority: Option<u8>,
    /// Inclusive difficulty range.
    pub difficulty_range: Option<(u8, u8)>,
    /// Inclusive reward range.
    pub reward_range: Option<(u128, u128)>,
    /// Keep only tasks created by this account.
    pub creator: Option<u64>,
    /// Keep only tasks assigned to this account.
    pub assignee: Option<u64>,
    /// Inclusive deadline range; tasks without a deadline never match.
    pub deadline_range: Option<(u64, u64)>,
    /// Inclusive creation-time range.
    pub created_time_range: Option<(u64, u64)>,
    /// Keep only tasks that have a deadline.
    pub has_deadline: bool,
    /// Keep only tasks without an assignee.
    pub unassigned_only: bool,
    /// Sort key for the result order.
    pub sort_by: TaskSortBy,
    /// Sort descending instead of ascending.
    pub sort_desc: bool,
    /// Page number, starting at 0.
    pub page: u32,
    /// Number of results per page.
    pub page_size: u32,
}

impl View for TaskSearchParams {
    type V = SearchParamsView;

    open spec fn view(&self) -> SearchParamsView {
        SearchParamsView {
            keyword: self.keyword@,
            status: self.status,
            priority: self.priority,
            difficulty_range: self.difficulty_range,
            reward_range: self.reward_range,
            creator: self.creator,
            assignee: self.assignee,
            deadline_range: self.deadline_range,
            created_time_range: self.created_time_range,
            has_deadline: self.has_deadline,
            unassigned_only: self.unassigned_only,
            sort_by: self.sort_by,
            sort_desc: self.sort_desc,
            page: self.page,
            page_size: self.page_size,
        }
    }
}

impl Default for TaskSearchParams {
    /// No filters, newest first, first page of ten.
    fn default() -> (r: Self)
        ensures
            r@ == (SearchParamsView {
                keyword: Seq::<u8>::empty(),
                status: None,
                priority: None,
                difficulty_range: None,
                reward_range: None,
                creator: None,
                assignee: None,
                deadline_range: None,
                created_time_range: None,
                has_deadline: false,
                unassigned_only: false,
                sort_by: TaskSortBy::CreatedAt,
                sort_desc: true,
                page: 0,
                page_size: 10,
            }),
    {
        TaskSearchParams {
            keyword: Vec::new(),
            status: None,
            priority: None,
            difficulty_range: None,
            reward_range: None,
            creator: None,
            assignee: None,
            deadline_range: None,
            created_time_range: None,
            has_deadline: false,
            unassigned_only: false,
            sort_by: TaskSortBy::CreatedAt,
            sort_desc: true,
            page: 0,
            page_size: 10,
        }
    }
}

/// A snapshot of counts and aggregates over the whole registry.
#[derive(Clone, Copy, PartialEq, Eq, Debug, Structural)]
pub struct TaskStatistics {
    pub total_tasks: u32,
    pub pending_count: u32,
    pub in_progress_count: u32,
    pub completed_count: u32,
    pub cancelled_count: u32,
    pub pending_verification_count: u32,
    /// Sum of all rewards, saturating at the largest balance.
    pub total_reward: u128,
    /// Mean difficulty, rounded down; zero when there are no tasks.
    pub avg_difficulty: u32,
    /// Tasks past their deadline that are not yet settled or cancelled.
    pub overdue_count: u32,
}

} // verus!
