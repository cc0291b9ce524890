//! The query engine: filtering, sorting, pagination, counting, statistics.

use task_ledger::ledger::Ledger;
use task_ledger::lifecycle::TaskStatus;
use task_ledger::pallet::{Config, Pallet};
use task_ledger::task::{TaskSearchParams, TaskSortBy};

fn test_config() -> Config {
    Config {
        max_title_length: 100,
        max_description_length: 1000,
        max_tasks_per_user: 100,
        max_tasks_per_status: 1000,
        max_tasks_per_priority: 1000,
        max_tasks_per_deadline: 1000,
        min_verification_votes: 3,
        min_approval_percentage: 60,
        verification_period: 100,
    }
}

fn new_engine() -> Pallet {
    let mut ledger = Ledger::new();
    ledger.deposit(1, 10000);
    ledger.deposit(2, 10000);
    ledger.deposit(3, 10000);
    let mut engine = Pallet::new(test_config(), ledger);
    engine.advance_time(1);
    engine
}

#[test]
fn search_tasks_by_keyword_works() {
    let mut engine = new_engine();
    assert!(engine
        .create_task(
            1,
            b"Frontend Development".to_vec(),
            b"Build React components".to_vec(),
            2,
            5,
            100,
            Some(1000),
        )
        .is_ok());
    assert!(engine
        .create_task(
            2,
            b"Backend API".to_vec(),
            b"Create REST endpoints".to_vec(),
            3,
            7,
            200,
            Some(2000),
        )
        .is_ok());
    assert!(engine
        .create_task(
            1,
            b"Database Design".to_vec(),
            b"Design schema for React app".to_vec(),
            1,
            4,
            150,
            Some(1500),
        )
        .is_ok());

    let search_params = TaskSearchParams { keyword: b"React".to_vec(), ..Default::default() };
    let results = engine.search_tasks(search_params);
    assert_eq!(results.len(), 2);
    assert!(results.iter().any(|task| task.title == b"Frontend Development".to_vec()));
    assert!(results.iter().any(|task| task.title == b"Database Design".to_vec()));
}

#[test]
fn search_tasks_by_status_works() {
    let mut engine = new_engine();
    assert!(engine
        .create_task(1, b"Task 1".to_vec(), b"Description 1".to_vec(), 2, 5, 100, Some(1000))
        .is_ok());
    assert!(engine
        .create_task(2, b"Task 2".to_vec(), b"Description 2".to_vec(), 3, 7, 200, Some(2000))
        .is_ok());
    assert!(engine.change_task_status(2, 1, TaskStatus::InProgress).is_ok());

    let search_params = TaskSearchParams { status: Some(0), ..Default::default() };
    let results = engine.search_tasks(search_params);
    assert_eq!(results.len(), 1);
    assert_eq!(results[0].id, 0);
    assert_eq!(results[0].status, TaskStatus::Pending);

    let search_params = TaskSearchParams { status: Some(1), ..Default::default() };
    let results = engine.search_tasks(search_params);
    assert_eq!(results.len(), 1);
    assert_eq!(results[0].id, 1);
    assert_eq!(results[0].status, TaskStatus::InProgress);
}

#[test]
fn search_tasks_by_difficulty_range_works() {
    let mut engine = new_engine();
    assert!(engine
        .create_task(1, b"Easy Task".to_vec(), b"Simple task".to_vec(), 1, 2, 50, Some(1000))
        .is_ok());
    assert!(engine
        .create_task(1, b"Medium Task".to_vec(), b"Medium difficulty".to_vec(), 2, 5, 100, Some(
            1000
        ))
        .is_ok());
    assert!(engine
        .create_task(1, b"Hard Task".to_vec(), b"Challenging task".to_vec(), 3, 8, 200, Some(1000))
        .is_ok());

    let search_params = TaskSearchParams { difficulty_range: Some((3, 6)), ..Default::default() };
    let results = engine.search_tasks(search_params);
    assert_eq!(results.len(), 1);
    assert_eq!(results[0].difficulty, 5);
}

#[test]
fn search_tasks_by_reward_range_works() {
    let mut engine = new_engine();
    assert!(engine
        .create_task(1, b"Low Reward Task".to_vec(), b"Small reward".to_vec(), 1, 3, 50, Some(
            1000
        ))
        .is_ok());
    assert!(engine
        .create_task(1, b"High Reward Task".to_vec(), b"Big reward".to_vec(), 3, 7, 500, Some(
            1000
        ))
        .is_ok());

    let search_params = TaskSearchParams { reward_range: Some((100, 1000)), ..Default::default() };
    let results = engine.search_tasks(search_params);
    assert_eq!(results.len(), 1);
    assert_eq!(results[0].reward, 500);
}

#[test]
fn search_tasks_by_creator_works() {
    let mut engine = new_engine();
    assert!(engine
        .create_task(1, b"Task by User 1".to_vec(), b"Created by user 1".to_vec(), 2, 5, 100, Some(
            1000
        ))
        .is_ok());
    assert!(engine
        .create_task(2, b"Task by User 2".to_vec(), b"Created by user 2".to_vec(), 3, 6, 150, Some(
            1000
        ))
        .is_ok());

    let search_params = TaskSearchParams { creator: Some(1), ..Default::default() };
    let results = engine.search_tasks(search_params);
    assert_eq!(results.len(), 1);
    assert_eq!(results[0].creator, 1);
}

#[test]
fn search_tasks_with_sorting_works() {
    let mut engine = new_engine();
    assert!(engine
        .create_task(1, b"Task A".to_vec(), b"Description A".to_vec(), 1, 3, 50, Some(1000))
        .is_ok());
    engine.advance_time(2);
    assert!(engine
        .create_task(1, b"Task B".to_vec(), b"Description B".to_vec(), 2, 5, 150, Some(1000))
        .is_ok());
    engine.advance_time(3);
    assert!(engine
        .create_task(1, b"Task C".to_vec(), b"Description C".to_vec(), 3, 7, 100, Some(1000))
        .is_ok());

    let search_params = TaskSearchParams {
        sort_by: TaskSortBy::Reward,
        sort_desc: true,
        ..Default::default()
    };
    let results = engine.search_tasks(search_params);
    assert_eq!(results.len(), 3);
    assert_eq!(results[0].reward, 150);
    assert_eq!(results[1].reward, 100);
    assert_eq!(results[2].reward, 50);

    let search_params = TaskSearchParams {
        sort_by: TaskSortBy::Difficulty,
        sort_desc: false,
        ..Default::default()
    };
    let results = engine.search_tasks(search_params);
    assert_eq!(results[0].difficulty, 3);
    assert_eq!(results[1].difficulty, 5);
    assert_eq!(results[2].difficulty, 7);
}

#[test]
fn search_tasks_with_pagination_works() {
    let mut engine = new_engine();
    for i in 1..=5 {
        assert!(engine
            .create_task(
                1,
                format!("Task {}", i).into_bytes(),
                b"Description".to_vec(),
                1,
                3,
                100,
                Some(1000),
            )
            .is_ok());
    }

    let search_params = TaskSearchParams { page: 0, page_size: 2, ..Default::default() };
    let results = engine.search_tasks(search_params);
    assert_eq!(results.len(), 2);

    let search_params = TaskSearchParams { page: 1, page_size: 2, ..Default::default() };
    let results = engine.search_tasks(search_params);
    assert_eq!(results.len(), 2);

    let search_params = TaskSearchParams::default();
    let total = engine.count_search_results(search_params);
    assert_eq!(total, 5);
}

#[test]
fn quick_search_works() {
    let mut engine = new_engine();
    assert!(engine
        .create_task(1, b"React Development".to_vec(), b"Build UI components".to_vec(), 2, 5, 100, Some(
            1000
        ))
        .is_ok());
    assert!(engine
        .create_task(2, b"Backend Service".to_vec(), b"React API integration".to_vec(), 3, 6, 150, Some(
            1000
        ))
        .is_ok());

    let results = engine.quick_search(b"React".to_vec());
    assert_eq!(results.len(), 2);

    let results = engine.quick_search(b"".to_vec());
    assert_eq!(results.len(), 0);
}

#[test]
fn get_task_statistics_works() {
    let mut engine = new_engine();
    assert!(engine
        .create_task(1, b"Task 1".to_vec(), b"Description 1".to_vec(), 2, 5, 100, Some(1000))
        .is_ok());
    assert!(engine
        .create_task(1, b"Task 2".to_vec(), b"Description 2".to_vec(), 3, 7, 200, Some(1000))
        .is_ok());
    assert!(engine.change_task_status(1, 1, TaskStatus::InProgress).is_ok());
    assert!(engine.change_task_status(1, 1, TaskStatus::Completed).is_ok());

    let stats = engine.get_task_statistics();
    assert_eq!(stats.total_tasks, 2);
    assert_eq!(stats.pending_count, 1);
    assert_eq!(stats.completed_count, 1);
    assert_eq!(stats.in_progress_count, 0);
    assert_eq!(stats.cancelled_count, 0);
    assert_eq!(stats.pending_verification_count, 0);
    assert_eq!(stats.total_reward, 300);
    assert_eq!(stats.avg_difficulty, 6);
    assert_eq!(stats.overdue_count, 0);
}

#[test]
fn statistics_count_overdue_tasks() {
    let mut engine = new_engine();
    assert!(engine
        .create_task(1, b"Soon due".to_vec(), b"Deadline ahead".to_vec(), 2, 4, 100, Some(10))
        .is_ok());
    assert!(engine
        .create_task(1, b"No deadline".to_vec(), b"Runs forever".to_vec(), 2, 6, 100, None)
        .is_ok());
    engine.advance_time(20);
    let stats = engine.get_task_statistics();
    assert_eq!(stats.overdue_count, 1);
    assert_eq!(stats.avg_difficulty, 5);
}

#[test]
fn search_tasks_combined_filters_works() {
    let mut engine = new_engine();
    assert!(engine
        .create_task(
            1,
            b"Frontend React Task".to_vec(),
            b"Build React components".to_vec(),
            2,
            5,
            100,
            Some(1000),
        )
        .is_ok());
    assert!(engine
        .create_task(
            1,
            b"Backend API Task".to_vec(),
            b"Create React integration".to_vec(),
            3,
            7,
            200,
            Some(2000),
        )
        .is_ok());
    assert!(engine
        .create_task(
            2,
            b"React Mobile App".to_vec(),
            b"Mobile React Native".to_vec(),
            2,
            6,
            150,
            Some(1500),
        )
        .is_ok());

    let search_params = TaskSearchParams {
        keyword: b"React".to_vec(),
        priority: Some(2),
        difficulty_range: Some((4, 6)),
        ..Default::default()
    };
    let results = engine.search_tasks(search_params);
    assert_eq!(results.len(), 2);

    for task in results {
        assert!(task.priority == 2);
        assert!(task.difficulty >= 4 && task.difficulty <= 6);
        let title_match =
            std::str::from_utf8(&task.title).unwrap().to_lowercase().contains("react");
        let desc_match =
            std::str::from_utf8(&task.description).unwrap().to_lowercase().contains("react");
        assert!(title_match || desc_match);
    }
}

#[test]
fn search_tasks_unassigned_only_works() {
    let mut engine = new_engine();
    assert!(engine
        .create_task(1, b"Unassigned Task".to_vec(), b"No one assigned".to_vec(), 2, 5, 100, Some(
            1000
        ))
        .is_ok());
    assert!(engine
        .create_task(1, b"To Be Assigned".to_vec(), b"Will assign later".to_vec(), 3, 6, 150, Some(
            1000
        ))
        .is_ok());
    assert!(engine.assign_task(1, 1, 2).is_ok());

    let search_params = TaskSearchParams { unassigned_only: true, ..Default::default() };
    let results = engine.search_tasks(search_params);
    assert_eq!(results.len(), 1);
    assert_eq!(results[0].id, 0);
    assert!(results[0].assignee.is_none());
}

#[test]
fn keyword_matching_ignores_ascii_case() {
    let mut engine = new_engine();
    assert!(engine
        .create_task(1, b"SHOUTING TITLE".to_vec(), b"quiet words".to_vec(), 2, 5, 100, None)
        .is_ok());
    assert_eq!(engine.quick_search(b"shouting".to_vec()).len(), 1);
    assert_eq!(engine.quick_search(b"QUIET".to_vec()).len(), 1);
    assert_eq!(engine.quick_search(b"missing".to_vec()).len(), 0);
}

#[test]
fn index_getters_follow_field_values() {
    let mut engine = new_engine();
    assert!(engine
        .create_task(1, b"A".to_vec(), b"D".to_vec(), 2, 5, 100, Some(500))
        .is_ok());
    assert!(engine
        .create_task(2, b"B".to_vec(), b"D".to_vec(), 3, 5, 100, None)
        .is_ok());
    assert!(engine.assign_task(1, 0, 3).is_ok());

    assert_eq!(engine.get_tasks_by_deadline(500).len(), 1);
    assert_eq!(engine.get_tasks_by_deadline(600).len(), 0);
    assert_eq!(engine.get_user_created_tasks(1).len(), 1);
    assert_eq!(engine.get_user_created_tasks(2).len(), 1);
    assert_eq!(engine.get_user_assigned_tasks(3).len(), 1);
    assert_eq!(engine.get_user_assigned_tasks(2).len(), 0);
    assert_eq!(engine.get_pending_tasks().len(), 2);
    assert_eq!(engine.get_in_progress_tasks().len(), 0);
    assert_eq!(engine.get_completed_tasks().len(), 0);

    // Indices follow a status change at once.
    assert!(engine.change_task_status(3, 0, TaskStatus::InProgress).is_ok());
    assert_eq!(engine.get_pending_tasks().len(), 1);
    assert_eq!(engine.get_in_progress_tasks().len(), 1);
}

#[test]
fn expiring_tasks_fall_in_the_window() {
    let mut engine = new_engine();
    assert!(engine
        .create_task(1, b"Near".to_vec(), b"D".to_vec(), 2, 5, 100, Some(10))
        .is_ok());
    assert!(engine
        .create_task(1, b"Far".to_vec(), b"D".to_vec(), 2, 5, 100, Some(900))
        .is_ok());
    assert!(engine
        .create_task(1, b"Never".to_vec(), b"D".to_vec(), 2, 5, 100, None)
        .is_ok());
    let expiring = engine.get_expiring_tasks(50);
    assert_eq!(expiring.len(), 1);
    assert_eq!(expiring[0].title, b"Near".to_vec());
}

#[test]
fn search_tasks_remaining_filters_work() {
    let mut engine = new_engine();
    assert!(engine
        .create_task(1, b"Early".to_vec(), b"D".to_vec(), 2, 5, 100, Some(400))
        .is_ok());
    engine.advance_time(10);
    assert!(engine
        .create_task(1, b"Late".to_vec(), b"D".to_vec(), 2, 5, 100, Some(800))
        .is_ok());
    assert!(engine
        .create_task(1, b"Open".to_vec(), b"D".to_vec(), 2, 5, 100, None)
        .is_ok());
    assert!(engine.assign_task(1, 1, 2).is_ok());

    // Tasks without a deadline never match a deadline range.
    let params = TaskSearchParams { deadline_range: Some((500, 900)), ..Default::default() };
    let results = engine.search_tasks(params);
    assert_eq!(results.len(), 1);
    assert_eq!(results[0].title, b"Late".to_vec());

    let params = TaskSearchParams { has_deadline: true, ..Default::default() };
    assert_eq!(engine.search_tasks(params).len(), 2);

    let params = TaskSearchParams { created_time_range: Some((0, 5)), ..Default::default() };
    let results = engine.search_tasks(params);
    assert_eq!(results.len(), 1);
    assert_eq!(results[0].title, b"Early".to_vec());

    let params = TaskSearchParams { assignee: Some(2), ..Default::default() };
    let results = engine.search_tasks(params);
    assert_eq!(results.len(), 1);
    assert_eq!(results[0].title, b"Late".to_vec());
}
