//! The task registry's command surface: creation, update, assignment,
//! status changes and deletion.

use task_ledger::errors::Error;
use task_ledger::ledger::Ledger;
use task_ledger::lifecycle::{Priority, TaskStatus};
use task_ledger::pallet::{Config, Pallet};

fn test_config() -> Config {
    Config {
        max_title_length: 100,
        max_description_length: 1000,
        max_tasks_per_user: 100,
        max_tasks_per_status: 1000,
        max_tasks_per_priority: 1000,
        max_tasks_per_deadline: 1000,
        min_verification_votes: 3,
        min_approval_percentage: 60,
        verification_period: 100,
    }
}

/// Accounts 1, 2 and 3 start with 1000 spendable each, at time 1.
fn new_engine() -> Pallet {
    let mut ledger = Ledger::new();
    ledger.deposit(1, 1000);
    ledger.deposit(2, 1000);
    ledger.deposit(3, 1000);
    let mut engine = Pallet::new(test_config(), ledger);
    engine.advance_time(1);
    engine
}

#[test]
fn test_create_task() {
    let mut engine = new_engine();
    assert!(engine
        .create_task(
            1,
            b"Test Task".to_vec(),
            b"Test Description".to_vec(),
            u8::from(Priority::Medium),
            5,
            100,
            None,
        )
        .is_ok());

    let task = engine.get_task(0).unwrap();
    assert_eq!(task.creator, 1);
    assert_eq!(task.title, b"Test Task".to_vec());
    assert_eq!(task.description, b"Test Description".to_vec());
    assert_eq!(task.status, TaskStatus::Pending);
    assert_eq!(task.priority, u8::from(Priority::Medium));
    assert_eq!(task.difficulty, 5);
    assert_eq!(task.reward, 100);
    assert_eq!(task.assignee, None);
}

#[test]
fn test_create_task_with_invalid_difficulty() {
    let mut engine = new_engine();
    assert_eq!(
        engine.create_task(
            1,
            b"Test Task".to_vec(),
            b"Test Description".to_vec(),
            u8::from(Priority::Medium),
            0,
            100,
            None,
        ),
        Err(Error::InvalidDifficulty)
    );
    assert_eq!(
        engine.create_task(
            1,
            b"Test Task".to_vec(),
            b"Test Description".to_vec(),
            u8::from(Priority::Medium),
            11,
            100,
            None,
        ),
        Err(Error::InvalidDifficulty)
    );
}

#[test]
fn test_update_task() {
    let mut engine = new_engine();
    assert!(engine
        .create_task(
            1,
            b"Test Task".to_vec(),
            b"Test Description".to_vec(),
            u8::from(Priority::Medium),
            5,
            100,
            None,
        )
        .is_ok());

    assert!(engine
        .update_task(
            1,
            0,
            Some(b"Updated Task".to_vec()),
            Some(b"Updated Description".to_vec()),
            Some(u8::from(Priority::High)),
            Some(7),
            Some(200),
            Some(Some(100)),
        )
        .is_ok());

    let task = engine.get_task(0).unwrap();
    assert_eq!(task.title, b"Updated Task".to_vec());
    assert_eq!(task.description, b"Updated Description".to_vec());
    assert_eq!(task.priority, u8::from(Priority::High));
    assert_eq!(task.difficulty, 7);
    assert_eq!(task.reward, 200);
    assert_eq!(task.deadline, Some(100));
}

#[test]
fn test_update_task_unauthorized() {
    let mut engine = new_engine();
    assert!(engine
        .create_task(
            1,
            b"Test Task".to_vec(),
            b"Test Description".to_vec(),
            u8::from(Priority::Medium),
            5,
            100,
            None,
        )
        .is_ok());

    assert_eq!(
        engine.update_task(2, 0, Some(b"Updated Task".to_vec()), None, None, None, None, None),
        Err(Error::NotAuthorized)
    );
}

#[test]
fn test_change_task_status() {
    let mut engine = new_engine();
    assert!(engine
        .create_task(
            1,
            b"Test Task".to_vec(),
            b"Test Description".to_vec(),
            u8::from(Priority::Medium),
            5,
            100,
            None,
        )
        .is_ok());
    assert!(engine.assign_task(1, 0, 2).is_ok());
    assert!(engine.change_task_status(2, 0, TaskStatus::InProgress).is_ok());

    let task = engine.get_task(0).unwrap();
    assert_eq!(task.status, TaskStatus::InProgress);
}

#[test]
fn test_invalid_status_transition() {
    let mut engine = new_engine();
    assert!(engine
        .create_task(
            1,
            b"Test Task".to_vec(),
            b"Test Description".to_vec(),
            u8::from(Priority::Medium),
            5,
            100,
            None,
        )
        .is_ok());

    // Straight from Pending to Completed is illegal, and nothing changes.
    assert_eq!(
        engine.change_task_status(1, 0, TaskStatus::Completed),
        Err(Error::InvalidStatusTransition)
    );
    let task = engine.get_task(0).unwrap();
    assert_eq!(task.status, TaskStatus::Pending);
    assert_eq!(engine.free_balance(1), 900);
    assert_eq!(engine.reserved_balance(1), 100);
}

#[test]
fn test_assign_task() {
    let mut engine = new_engine();
    assert!(engine
        .create_task(
            1,
            b"Test Task".to_vec(),
            b"Test Description".to_vec(),
            u8::from(Priority::Medium),
            5,
            100,
            None,
        )
        .is_ok());
    assert!(engine.assign_task(1, 0, 2).is_ok());

    let task = engine.get_task(0).unwrap();
    assert_eq!(task.assignee, Some(2));
}

#[test]
fn test_assign_task_to_self() {
    let mut engine = new_engine();
    assert!(engine
        .create_task(
            1,
            b"Test Task".to_vec(),
            b"Test Description".to_vec(),
            u8::from(Priority::Medium),
            5,
            100,
            None,
        )
        .is_ok());
    assert_eq!(engine.assign_task(1, 0, 1), Err(Error::CannotAssignToSelf));
}

#[test]
fn test_unassign_task() {
    let mut engine = new_engine();
    assert!(engine
        .create_task(
            1,
            b"Test Task".to_vec(),
            b"Test Description".to_vec(),
            u8::from(Priority::Medium),
            5,
            100,
            None,
        )
        .is_ok());
    assert!(engine.assign_task(1, 0, 2).is_ok());
    assert!(engine.unassign_task(1, 0).is_ok());

    let task = engine.get_task(0).unwrap();
    assert_eq!(task.assignee, None);
    assert_eq!(task.status, TaskStatus::Pending);
}

#[test]
fn test_delete_task() {
    let mut engine = new_engine();
    assert!(engine
        .create_task(
            1,
            b"Test Task".to_vec(),
            b"Test Description".to_vec(),
            u8::from(Priority::Medium),
            5,
            100,
            None,
        )
        .is_ok());
    assert!(engine.delete_task(1, 0).is_ok());
    assert!(engine.get_task(0).is_none());
}

#[test]
fn test_task_queries() {
    let mut engine = new_engine();
    assert!(engine
        .create_task(
            1,
            b"High Priority Task".to_vec(),
            b"Description".to_vec(),
            u8::from(Priority::High),
            5,
            100,
            None,
        )
        .is_ok());
    assert!(engine
        .create_task(
            1,
            b"Medium Priority Task".to_vec(),
            b"Description".to_vec(),
            u8::from(Priority::Medium),
            3,
            50,
            None,
        )
        .is_ok());

    let pending_tasks = engine.get_tasks_by_status(u8::from(TaskStatus::Pending));
    assert_eq!(pending_tasks.len(), 2);

    let high_priority_tasks = engine.get_tasks_by_priority(u8::from(Priority::High));
    assert_eq!(high_priority_tasks.len(), 1);
    assert_eq!(high_priority_tasks[0].priority, u8::from(Priority::High));
}

#[test]
fn test_task_helper_methods() {
    let mut engine = new_engine();
    assert!(engine
        .create_task(
            1,
            b"Test Task".to_vec(),
            b"Test Description".to_vec(),
            u8::from(Priority::Medium),
            5,
            100,
            None,
        )
        .is_ok());

    let task = engine.get_task(0).unwrap();
    assert_eq!(task.creator, 1);
    assert_eq!(task.status, TaskStatus::Pending);

    assert!(engine.assign_task(1, 0, 2).is_ok());
    let task = engine.get_task(0).unwrap();
    assert_eq!(task.assignee, Some(2));
}

#[test]
fn create_task_works() {
    let mut engine = new_engine();
    let title = b"Test Task".to_vec();
    let description = b"Test Description".to_vec();
    let priority = 2;
    let difficulty = 5;
    let reward = 100;
    let deadline = Some(1000);

    assert!(engine
        .create_task(1, title.clone(), description.clone(), priority, difficulty, reward, deadline)
        .is_ok());

    let task = engine.get_task(0).unwrap();
    assert_eq!(task.title, title);
    assert_eq!(task.description, description);
    assert_eq!(task.priority, priority);
    assert_eq!(task.difficulty, difficulty);
    assert_eq!(task.reward, reward);
    assert_eq!(task.deadline, deadline);
}

#[test]
fn create_rejects_bad_input() {
    let mut engine = new_engine();
    let t = b"T".to_vec();
    let d = b"D".to_vec();
    assert_eq!(
        engine.create_task(1, t.clone(), d.clone(), 2, 5, 0, None),
        Err(Error::InvalidReward)
    );
    assert_eq!(
        engine.create_task(1, t.clone(), d.clone(), 2, 5, 5000, None),
        Err(Error::InsufficientBalance)
    );
    assert_eq!(
        engine.create_task(1, t.clone(), d.clone(), 0, 5, 100, None),
        Err(Error::InvalidPriority)
    );
    assert_eq!(
        engine.create_task(1, t.clone(), d.clone(), 5, 5, 100, None),
        Err(Error::InvalidPriority)
    );
    // A deadline that is not in the future is rejected.
    assert_eq!(
        engine.create_task(1, t.clone(), d.clone(), 2, 5, 100, Some(1)),
        Err(Error::TaskExpired)
    );
    let long_title = vec![b'x'; 101];
    assert_eq!(
        engine.create_task(1, long_title, d.clone(), 2, 5, 100, None),
        Err(Error::TitleTooLong)
    );
    let long_description = vec![b'x'; 1001];
    assert_eq!(
        engine.create_task(1, t.clone(), long_description, 2, 5, 100, None),
        Err(Error::DescriptionTooLong)
    );
    // Nothing was created or charged along the way.
    assert_eq!(engine.next_task_id(), 0);
    assert_eq!(engine.free_balance(1), 1000);
}

#[test]
fn assign_and_unassign_errors() {
    let mut engine = new_engine();
    assert_eq!(engine.assign_task(1, 7, 2), Err(Error::TaskNotFound));
    assert_eq!(engine.unassign_task(1, 7), Err(Error::TaskNotFound));
    assert_eq!(engine.delete_task(1, 7), Err(Error::TaskNotFound));
    assert_eq!(
        engine.update_task(1, 7, None, None, None, None, None, None),
        Err(Error::TaskNotFound)
    );

    assert!(engine
        .create_task(1, b"T".to_vec(), b"D".to_vec(), 2, 5, 100, Some(50))
        .is_ok());
    assert_eq!(engine.unassign_task(1, 0), Err(Error::TaskNotAssigned));
    assert_eq!(engine.assign_task(2, 0, 3), Err(Error::NotAuthorized));
    assert!(engine.assign_task(1, 0, 2).is_ok());
    assert_eq!(engine.assign_task(1, 0, 3), Err(Error::TaskAlreadyAssigned));
    assert_eq!(engine.delete_task(2, 0), Err(Error::NotAuthorized));

    // Once the deadline has passed, assignment is refused.
    assert!(engine.unassign_task(1, 0).is_ok());
    engine.advance_time(50);
    assert_eq!(engine.assign_task(1, 0, 2), Err(Error::TaskExpired));
}

#[test]
fn assign_requires_pending() {
    let mut engine = new_engine();
    assert!(engine
        .create_task(1, b"T".to_vec(), b"D".to_vec(), 2, 5, 100, None)
        .is_ok());
    assert!(engine.assign_task(1, 0, 2).is_ok());
    assert!(engine.change_task_status(2, 0, TaskStatus::InProgress).is_ok());
    assert!(engine.unassign_task(1, 0).is_ok());
    // Unassigning resets the task to Pending even from InProgress.
    assert_eq!(engine.get_task(0).unwrap().status, TaskStatus::Pending);
    assert!(engine.assign_task(1, 0, 3).is_ok());
}

#[test]
fn unassign_refused_in_terminal_state() {
    let mut engine = new_engine();
    assert!(engine
        .create_task(1, b"T".to_vec(), b"D".to_vec(), 2, 5, 100, None)
        .is_ok());
    assert!(engine.assign_task(1, 0, 2).is_ok());
    assert!(engine.change_task_status(2, 0, TaskStatus::InProgress).is_ok());
    assert!(engine.change_task_status(2, 0, TaskStatus::Completed).is_ok());
    assert_eq!(engine.unassign_task(1, 0), Err(Error::InvalidStatusTransition));
}

#[test]
fn update_reward_moves_escrow() {
    let mut engine = new_engine();
    assert!(engine
        .create_task(1, b"T".to_vec(), b"D".to_vec(), 2, 5, 100, None)
        .is_ok());
    assert_eq!(engine.free_balance(1), 900);
    assert_eq!(engine.reserved_balance(1), 100);

    // Raising the reward reserves the difference.
    assert!(engine.update_task(1, 0, None, None, None, None, Some(250), None).is_ok());
    assert_eq!(engine.free_balance(1), 750);
    assert_eq!(engine.reserved_balance(1), 250);

    // Lowering it releases the difference.
    assert!(engine.update_task(1, 0, None, None, None, None, Some(50), None).is_ok());
    assert_eq!(engine.free_balance(1), 950);
    assert_eq!(engine.reserved_balance(1), 50);

    // A raise the creator cannot cover is refused without effect.
    assert_eq!(
        engine.update_task(1, 0, None, None, None, None, Some(2000), None),
        Err(Error::InsufficientBalance)
    );
    assert_eq!(engine.free_balance(1), 950);
    assert_eq!(engine.get_task(0).unwrap().reward, 50);

    assert_eq!(
        engine.update_task(1, 0, None, None, None, None, Some(0), None),
        Err(Error::InvalidReward)
    );
}

#[test]
fn update_reward_refused_once_terminal() {
    let mut engine = new_engine();
    assert!(engine
        .create_task(1, b"T".to_vec(), b"D".to_vec(), 2, 5, 100, None)
        .is_ok());
    assert!(engine.change_task_status(1, 0, TaskStatus::InProgress).is_ok());
    assert!(engine.change_task_status(1, 0, TaskStatus::Cancelled).is_ok());
    assert_eq!(
        engine.update_task(1, 0, None, None, None, None, Some(200), None),
        Err(Error::InvalidStatusTransition)
    );
    // Other fields may still be edited.
    assert!(engine
        .update_task(1, 0, Some(b"Renamed".to_vec()), None, None, None, None, None)
        .is_ok());
    assert_eq!(engine.get_task(0).unwrap().title, b"Renamed".to_vec());
}

#[test]
fn per_user_capacity_is_enforced() {
    let mut ledger = Ledger::new();
    ledger.deposit(1, 1000);
    ledger.deposit(3, 1000);
    let config = Config {
        max_title_length: 100,
        max_description_length: 1000,
        max_tasks_per_user: 1,
        max_tasks_per_status: 1000,
        max_tasks_per_priority: 1000,
        max_tasks_per_deadline: 1000,
        min_verification_votes: 3,
        min_approval_percentage: 60,
        verification_period: 100,
    };
    let mut engine = Pallet::new(config, ledger);
    engine.advance_time(1);
    assert!(engine
        .create_task(1, b"A".to_vec(), b"D".to_vec(), 2, 5, 100, None)
        .is_ok());
    assert_eq!(
        engine.create_task(1, b"B".to_vec(), b"D".to_vec(), 2, 5, 100, None),
        Err(Error::TooManyTasks)
    );
    // Another user still has room, but may be assigned at most one task.
    assert!(engine
        .create_task(3, b"C".to_vec(), b"D".to_vec(), 2, 5, 100, None)
        .is_ok());
    assert!(engine.assign_task(1, 0, 2).is_ok());
    assert_eq!(engine.assign_task(3, 1, 2), Err(Error::TooManyTasks));
}

#[test]
fn per_status_capacity_is_enforced() {
    let mut ledger = Ledger::new();
    ledger.deposit(1, 1000);
    let config = Config {
        max_title_length: 100,
        max_description_length: 1000,
        max_tasks_per_user: 100,
        max_tasks_per_status: 1,
        max_tasks_per_priority: 1000,
        max_tasks_per_deadline: 1000,
        min_verification_votes: 3,
        min_approval_percentage: 60,
        verification_period: 100,
    };
    let mut engine = Pallet::new(config, ledger);
    engine.advance_time(1);
    assert!(engine
        .create_task(1, b"A".to_vec(), b"D".to_vec(), 2, 5, 100, None)
        .is_ok());
    assert_eq!(
        engine.create_task(1, b"B".to_vec(), b"D".to_vec(), 2, 5, 100, None),
        Err(Error::TooManyTasks)
    );
}

#[test]
fn update_can_clear_the_deadline() {
    let mut engine = new_engine();
    assert!(engine
        .create_task(1, b"T".to_vec(), b"D".to_vec(), 2, 5, 100, Some(500))
        .is_ok());
    engine.advance_time(5);
    assert!(engine.update_task(1, 0, None, None, None, None, None, Some(None)).is_ok());
    let task = engine.get_task(0).unwrap();
    assert_eq!(task.deadline, None);
    assert_eq!(task.updated_at, 5);
    // A new deadline must lie in the future.
    assert_eq!(
        engine.update_task(1, 0, None, None, None, None, None, Some(Some(5))),
        Err(Error::TaskExpired)
    );
    assert!(engine.update_task(1, 0, None, None, None, None, None, Some(Some(50))).is_ok());
    assert_eq!(engine.get_task(0).unwrap().deadline, Some(50));
}
