//! The community-verification protocol and the escrow flows around it.

use task_ledger::errors::Error;
use task_ledger::ledger::Ledger;
use task_ledger::lifecycle::TaskStatus;
use task_ledger::pallet::{Config, Pallet};

fn test_config() -> Config {
    Config {
        max_title_length: 100,
        max_description_length: 1000,
        max_tasks_per_user: 100,
        max_tasks_per_status: 1000,
        max_tasks_per_priority: 1000,
        max_tasks_per_deadline: 1000,
        min_verification_votes: 3,
        min_approval_percentage: 60,
        verification_period: 100,
    }
}

fn new_engine() -> Pallet {
    let mut ledger = Ledger::new();
    ledger.deposit(1, 1000);
    ledger.deposit(2, 1000);
    ledger.deposit(3, 1000);
    let mut engine = Pallet::new(test_config(), ledger);
    engine.advance_time(1);
    engine
}

/// A task by account 1, assigned to account 2, moved into verification.
fn engine_with_round() -> Pallet {
    let mut engine = new_engine();
    assert!(engine
        .create_task(1, b"Job".to_vec(), b"Do the job".to_vec(), 2, 5, 100, None)
        .is_ok());
    assert!(engine.assign_task(1, 0, 2).is_ok());
    assert!(engine.change_task_status(2, 0, TaskStatus::InProgress).is_ok());
    assert!(engine.change_task_status(2, 0, TaskStatus::PendingVerification).is_ok());
    engine
}

#[test]
fn entering_verification_opens_a_round() {
    let engine = engine_with_round();
    // Window end is the entry moment plus the configured period.
    assert_eq!(engine.get_verification_status(0), Some((101, 0, 0)));
    assert_eq!(engine.get_verification_voters(0), Vec::<u64>::new());
    assert_eq!(engine.get_task(0).unwrap().status, TaskStatus::PendingVerification);
}

#[test]
fn approved_round_completes_and_settles() {
    // Quorum 3 and minimum approval 60%: approve, approve, reject gives
    // 66% >= 60%, so the task completes and the reward settles.
    let mut engine = engine_with_round();
    assert!(engine.submit_verification_vote(3, 0, true).is_ok());
    assert!(engine.submit_verification_vote(4, 0, true).is_ok());
    assert_eq!(engine.get_verification_status(0), Some((101, 2, 0)));
    assert!(engine.submit_verification_vote(5, 0, false).is_ok());

    let task = engine.get_task(0).unwrap();
    assert_eq!(task.status, TaskStatus::Completed);
    assert_eq!(engine.get_verification_status(0), None);
    assert_eq!(engine.free_balance(2), 1100);
    assert_eq!(engine.free_balance(1), 900);
    assert_eq!(engine.reserved_balance(1), 0);
}

#[test]
fn rejected_round_reverts_without_settlement() {
    // approve, reject, reject gives 33% < 60%: back to InProgress, no pay.
    let mut engine = engine_with_round();
    assert!(engine.submit_verification_vote(3, 0, true).is_ok());
    assert!(engine.submit_verification_vote(4, 0, false).is_ok());
    assert!(engine.submit_verification_vote(5, 0, false).is_ok());

    let task = engine.get_task(0).unwrap();
    assert_eq!(task.status, TaskStatus::InProgress);
    assert_eq!(engine.get_verification_status(0), None);
    assert_eq!(engine.get_verification_voters(0), Vec::<u64>::new());
    assert_eq!(engine.free_balance(2), 1000);
    assert_eq!(engine.reserved_balance(1), 100);
}

#[test]
fn approval_percentage_ties_count_as_approved() {
    // With quorum 5, three approvals out of five are exactly 60%.
    let mut ledger = Ledger::new();
    ledger.deposit(1, 1000);
    let config = Config { min_verification_votes: 5, ..test_config() };
    let mut engine = Pallet::new(config, ledger);
    engine.advance_time(1);
    assert!(engine
        .create_task(1, b"Job".to_vec(), b"Do the job".to_vec(), 2, 5, 100, None)
        .is_ok());
    assert!(engine.assign_task(1, 0, 2).is_ok());
    assert!(engine.change_task_status(2, 0, TaskStatus::InProgress).is_ok());
    assert!(engine.change_task_status(2, 0, TaskStatus::PendingVerification).is_ok());
    assert!(engine.submit_verification_vote(3, 0, true).is_ok());
    assert!(engine.submit_verification_vote(4, 0, true).is_ok());
    assert!(engine.submit_verification_vote(5, 0, false).is_ok());
    assert!(engine.submit_verification_vote(6, 0, false).is_ok());
    assert!(engine.submit_verification_vote(7, 0, true).is_ok());
    assert_eq!(engine.get_task(0).unwrap().status, TaskStatus::Completed);
    assert_eq!(engine.free_balance(2), 100);
}

#[test]
fn expired_round_reverts_and_clears() {
    // Only one vote arrives before the window closes; the expiry path
    // reverts the task and clears the round with no settlement.
    let mut engine = engine_with_round();
    assert!(engine.submit_verification_vote(3, 0, true).is_ok());
    assert_eq!(engine.handle_verification_expired(0), Err(Error::VerificationPeriodNotEnded));
    engine.advance_time(102);
    assert!(engine.handle_verification_expired(0).is_ok());

    let task = engine.get_task(0).unwrap();
    assert_eq!(task.status, TaskStatus::InProgress);
    assert_eq!(engine.get_verification_status(0), None);
    assert_eq!(engine.free_balance(2), 1000);
    assert_eq!(engine.reserved_balance(1), 100);
}

#[test]
fn voting_rules_are_enforced() {
    let mut engine = engine_with_round();
    // Nobody can vote on a task that is not awaiting verification.
    assert!(engine
        .create_task(1, b"Other".to_vec(), b"Task".to_vec(), 2, 5, 100, None)
        .is_ok());
    assert_eq!(engine.submit_verification_vote(3, 1, true), Err(Error::TaskNotPendingVerification));
    assert_eq!(engine.submit_verification_vote(3, 9, true), Err(Error::TaskNotFound));

    // Creator and assignee may not vote on their own task.
    assert_eq!(engine.submit_verification_vote(1, 0, true), Err(Error::CannotVoteOwnTask));
    assert_eq!(engine.submit_verification_vote(2, 0, true), Err(Error::CannotVoteOwnTask));

    // One vote per voter per round.
    assert!(engine.submit_verification_vote(3, 0, true).is_ok());
    assert_eq!(engine.submit_verification_vote(3, 0, false), Err(Error::AlreadyVoted));
    assert!(engine.has_voted(0, 3));
    assert!(!engine.has_voted(0, 4));
    assert_eq!(engine.get_vote(0, 3), Some(true));
    assert_eq!(engine.get_vote(0, 4), None);
    assert_eq!(engine.get_verification_voters(0), vec![3]);

    // No votes once the window has closed.
    engine.advance_time(200);
    assert_eq!(engine.submit_verification_vote(4, 0, true), Err(Error::VerificationPeriodEnded));
}

#[test]
fn complete_verification_needs_quorum() {
    let mut engine = engine_with_round();
    assert_eq!(engine.complete_verification(1, 9), Err(Error::TaskNotPendingVerification));
    assert!(engine.submit_verification_vote(3, 0, true).is_ok());
    assert_eq!(engine.complete_verification(1, 0), Err(Error::InsufficientVerificationVotes));
    assert_eq!(engine.get_task(0).unwrap().status, TaskStatus::PendingVerification);
}

#[test]
fn failing_settlement_rolls_the_whole_vote_back() {
    // The assignee's balance cannot take the reward, so the vote that would
    // finalize the round fails and leaves no trace.
    let mut ledger = Ledger::new();
    ledger.deposit(1, 1000);
    ledger.deposit(2, u128::MAX);
    let mut engine = Pallet::new(test_config(), ledger);
    engine.advance_time(1);
    assert!(engine
        .create_task(1, b"Job".to_vec(), b"Do the job".to_vec(), 2, 5, 100, None)
        .is_ok());
    assert!(engine.assign_task(1, 0, 2).is_ok());
    assert!(engine.change_task_status(2, 0, TaskStatus::InProgress).is_ok());
    assert!(engine.change_task_status(2, 0, TaskStatus::PendingVerification).is_ok());
    assert!(engine.submit_verification_vote(3, 0, true).is_ok());
    assert!(engine.submit_verification_vote(4, 0, true).is_ok());
    assert_eq!(engine.submit_verification_vote(5, 0, true), Err(Error::RewardTransferFailed));
    // The round is still live with the two recorded votes.
    assert_eq!(engine.get_verification_status(0), Some((101, 2, 0)));
    assert_eq!(engine.get_task(0).unwrap().status, TaskStatus::PendingVerification);
    assert_eq!(engine.reserved_balance(1), 100);
}

#[test]
fn completing_directly_settles_too() {
    // Scenario: create a 100-unit task, assign it to another account, and
    // complete it; the assignee gains 100 and the creator's lock is gone.
    let mut engine = new_engine();
    assert!(engine
        .create_task(1, b"Job".to_vec(), b"Do the job".to_vec(), 2, 5, 100, None)
        .is_ok());
    assert!(engine.assign_task(1, 0, 2).is_ok());
    assert!(engine.change_task_status(2, 0, TaskStatus::InProgress).is_ok());
    assert_eq!(engine.reserved_balance(1), 100);
    assert!(engine.change_task_status(2, 0, TaskStatus::Completed).is_ok());
    assert_eq!(engine.free_balance(2), 1100);
    assert_eq!(engine.reserved_balance(1), 0);
    assert_eq!(engine.free_balance(1), 900);
}

#[test]
fn completing_fails_cleanly_when_transfer_cannot_land() {
    let mut ledger = Ledger::new();
    ledger.deposit(1, 1000);
    ledger.deposit(2, u128::MAX);
    let mut engine = Pallet::new(test_config(), ledger);
    engine.advance_time(1);
    assert!(engine
        .create_task(1, b"Job".to_vec(), b"Do the job".to_vec(), 2, 5, 100, None)
        .is_ok());
    assert!(engine.assign_task(1, 0, 2).is_ok());
    assert!(engine.change_task_status(2, 0, TaskStatus::InProgress).is_ok());
    assert_eq!(
        engine.change_task_status(2, 0, TaskStatus::Completed),
        Err(Error::RewardTransferFailed)
    );
    assert_eq!(engine.get_task(0).unwrap().status, TaskStatus::InProgress);
    assert_eq!(engine.reserved_balance(1), 100);
}

#[test]
fn create_then_delete_restores_balance() {
    // Round trip: creating a task with reward 250 and deleting it right
    // away restores the creator's spendable balance by exactly 250.
    let mut engine = new_engine();
    let free_before = engine.free_balance(1);
    assert!(engine
        .create_task(1, b"Job".to_vec(), b"Do the job".to_vec(), 2, 5, 250, None)
        .is_ok());
    assert_eq!(engine.free_balance(1), free_before - 250);
    assert!(engine.delete_task(1, 0).is_ok());
    assert_eq!(engine.free_balance(1), free_before);
    assert_eq!(engine.reserved_balance(1), 0);
}

#[test]
fn cancelling_releases_the_reward() {
    let mut engine = new_engine();
    assert!(engine
        .create_task(1, b"Job".to_vec(), b"Do the job".to_vec(), 2, 5, 100, None)
        .is_ok());
    // Cancelling a task that never left Pending is not a legal transition;
    // abandoning it goes through deletion instead.
    assert_eq!(
        engine.change_task_status(1, 0, TaskStatus::Cancelled),
        Err(Error::InvalidStatusTransition)
    );
    assert!(engine.change_task_status(1, 0, TaskStatus::InProgress).is_ok());
    assert!(engine.change_task_status(1, 0, TaskStatus::Cancelled).is_ok());
    assert_eq!(engine.free_balance(1), 1000);
    assert_eq!(engine.reserved_balance(1), 0);
    // Deleting a cancelled task releases nothing twice.
    assert!(engine.delete_task(1, 0).is_ok());
    assert_eq!(engine.free_balance(1), 1000);
}

#[test]
fn noop_transition_changes_nothing_but_the_moment() {
    // Re-applying the same status is permitted, refreshes the update
    // moment like a real transition would, and never touches escrow.
    let mut engine = new_engine();
    assert!(engine
        .create_task(1, b"Job".to_vec(), b"Do the job".to_vec(), 2, 5, 100, None)
        .is_ok());
    assert!(engine.assign_task(1, 0, 2).is_ok());
    assert!(engine.change_task_status(2, 0, TaskStatus::InProgress).is_ok());
    assert!(engine.change_task_status(2, 0, TaskStatus::Completed).is_ok());
    let free_1 = engine.free_balance(1);
    let free_2 = engine.free_balance(2);
    let reserved_1 = engine.reserved_balance(1);

    engine.advance_time(9);
    assert!(engine.change_task_status(2, 0, TaskStatus::Completed).is_ok());
    let task = engine.get_task(0).unwrap();
    assert_eq!(task.status, TaskStatus::Completed);
    assert_eq!(task.updated_at, 9);
    // No double settlement, no double release.
    assert_eq!(engine.free_balance(1), free_1);
    assert_eq!(engine.free_balance(2), free_2);
    assert_eq!(engine.reserved_balance(1), reserved_1);
}

#[test]
fn deleting_a_task_under_verification_clears_its_round() {
    let mut engine = engine_with_round();
    assert!(engine.submit_verification_vote(3, 0, true).is_ok());
    assert!(engine.delete_task(1, 0).is_ok());
    assert!(engine.get_task(0).is_none());
    assert_eq!(engine.get_verification_status(0), None);
    assert!(!engine.has_voted(0, 3));
    // The escrowed reward came back to the creator.
    assert_eq!(engine.free_balance(1), 1000);
}
