//! The small pieces: task helpers, status and priority codes, the escrow
//! ledger on its own, and the user statistics record.

use task_ledger::achievements::UserStats;
use task_ledger::errors::Error;
use task_ledger::ledger::Ledger;
use task_ledger::lifecycle::{validate_status_transition, Priority, TaskStatus};
use task_ledger::task::Task;

#[test]
fn status_codes_round_trip() {
    assert_eq!(u8::from(TaskStatus::Pending), 0);
    assert_eq!(u8::from(TaskStatus::InProgress), 1);
    assert_eq!(u8::from(TaskStatus::Completed), 2);
    assert_eq!(u8::from(TaskStatus::Cancelled), 3);
    assert_eq!(u8::from(TaskStatus::PendingVerification), 4);
    for code in 0u8..5u8 {
        assert_eq!(u8::from(TaskStatus::from(code)), code);
    }
    // Unknown codes fall back to Pending.
    assert_eq!(TaskStatus::from(9), TaskStatus::Pending);
}

#[test]
fn priority_codes_round_trip() {
    assert_eq!(u8::from(Priority::Low), 1);
    assert_eq!(u8::from(Priority::Medium), 2);
    assert_eq!(u8::from(Priority::High), 3);
    assert_eq!(u8::from(Priority::Urgent), 4);
    for code in 1u8..5u8 {
        assert_eq!(u8::from(Priority::from(code)), code);
    }
    // Unknown codes fall back to Medium.
    assert_eq!(Priority::from(0), Priority::Medium);
    assert_eq!(Priority::from(7), Priority::Medium);
}

#[test]
fn transition_table_matches_the_lifecycle() {
    let legal = [
        (TaskStatus::Pending, TaskStatus::InProgress),
        (TaskStatus::InProgress, TaskStatus::Completed),
        (TaskStatus::InProgress, TaskStatus::Cancelled),
        (TaskStatus::InProgress, TaskStatus::PendingVerification),
        (TaskStatus::PendingVerification, TaskStatus::Completed),
        (TaskStatus::PendingVerification, TaskStatus::InProgress),
    ];
    let all = [
        TaskStatus::Pending,
        TaskStatus::InProgress,
        TaskStatus::Completed,
        TaskStatus::Cancelled,
        TaskStatus::PendingVerification,
    ];
    for &from in &all {
        for &to in &all {
            let expected = from == to || legal.contains(&(from, to));
            assert_eq!(validate_status_transition(from, to).is_ok(), expected);
        }
    }
    // Terminal states admit no outgoing transition at all.
    for &to in &all {
        assert_eq!(
            validate_status_transition(TaskStatus::Completed, to).is_ok(),
            to == TaskStatus::Completed
        );
        assert_eq!(
            validate_status_transition(TaskStatus::Cancelled, to).is_ok(),
            to == TaskStatus::Cancelled
        );
    }
}

#[test]
fn task_helpers_reflect_the_record() {
    let mut task = Task::new(7, 1, b"Title".to_vec(), b"Words".to_vec(), 3, 6, 400, 10, Some(100));
    assert_eq!(task.id, 7);
    assert_eq!(task.created_at, 10);
    assert_eq!(task.updated_at, 10);
    assert!(task.can_be_modified_by(1));
    assert!(!task.can_be_modified_by(2));
    assert!(task.can_be_operated_by(1));
    assert!(!task.can_be_operated_by(2));
    assert!(!task.is_assigned());
    assert!(!task.is_final_state());
    assert!(!task.can_start());
    assert!(!task.can_complete());
    assert!(!task.needs_verification());
    assert_eq!(task.status_string(), "Pending");
    assert_eq!(task.priority_string(), "High");

    assert!(!task.is_expired(99));
    assert!(task.is_expired(100));
    assert!(task.is_expiring_soon(50, 60));
    assert!(!task.is_expiring_soon(50, 40));
    assert!(!task.is_expiring_soon(100, 60));

    task.assignee = Some(2);
    assert!(task.can_be_operated_by(2));
    assert!(task.is_assigned());
    assert!(task.can_start());

    task.status = TaskStatus::InProgress;
    assert!(task.can_complete());
    assert_eq!(task.status_string(), "InProgress");

    task.status = TaskStatus::PendingVerification;
    assert!(task.needs_verification());
    assert_eq!(task.status_string(), "PendingVerification");

    task.status = TaskStatus::Completed;
    assert!(task.is_final_state());
    assert_eq!(task.status_string(), "Completed");

    task.status = TaskStatus::Cancelled;
    assert!(task.is_final_state());
    assert_eq!(task.status_string(), "Cancelled");
}

#[test]
fn ledger_moves_balances_exactly() {
    let mut ledger = Ledger::new();
    ledger.deposit(1, 500);
    assert_eq!(ledger.free_balance(1), 500);
    assert_eq!(ledger.reserved_balance(1), 0);
    assert_eq!(ledger.free_balance(9), 0);

    assert!(ledger.can_reserve(1, 500));
    assert!(!ledger.can_reserve(1, 501));
    assert_eq!(ledger.reserve(1, 501), Err(Error::InsufficientBalance));
    assert!(ledger.reserve(1, 300).is_ok());
    assert_eq!(ledger.free_balance(1), 200);
    assert_eq!(ledger.reserved_balance(1), 300);

    // A release is capped by what is actually reserved.
    assert_eq!(ledger.unreserve(1, 100), 100);
    assert_eq!(ledger.unreserve(1, 999), 200);
    assert_eq!(ledger.free_balance(1), 500);
    assert_eq!(ledger.reserved_balance(1), 0);
}

#[test]
fn ledger_settlement_is_atomic() {
    let mut ledger = Ledger::new();
    ledger.deposit(1, 500);
    assert!(ledger.reserve(1, 300).is_ok());

    assert!(ledger.settle(1, 2, 300).is_ok());
    assert_eq!(ledger.reserved_balance(1), 0);
    assert_eq!(ledger.free_balance(1), 200);
    assert_eq!(ledger.free_balance(2), 300);

    // A transfer that cannot land leaves everything untouched.
    ledger.deposit(3, u128::MAX - 100);
    assert!(ledger.reserve(1, 200).is_ok());
    assert_eq!(ledger.settle(1, 3, 200), Err(Error::RewardTransferFailed));
    assert_eq!(ledger.reserved_balance(1), 200);
    assert_eq!(ledger.free_balance(3), u128::MAX - 100);
}

#[test]
fn user_stats_average_rating() {
    let empty = UserStats::default();
    assert_eq!(empty.average_rating(), 0);

    let stats = UserStats { total_rating_points: 9, rating_count: 2, ..UserStats::default() };
    assert_eq!(stats.average_rating(), 45);

    let stats = UserStats { total_rating_points: 14, rating_count: 3, ..UserStats::default() };
    assert_eq!(stats.average_rating(), 46);

    let stats = UserStats { total_rating_points: 5, rating_count: 1, ..UserStats::default() };
    assert_eq!(stats.average_rating(), 50);
}
