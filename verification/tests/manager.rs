use lynn_sundial::calendar::CronSchedule;
use lynn_sundial::task::{RepeatModel, Task, TaskOrderType, TaskStatus};
use lynn_sundial::task_actor::TaskActor;
use lynn_sundial::task_manager::TaskManager;

fn every_second() -> CronSchedule {
    CronSchedule::parse("0/1 * * * * ?").unwrap()
}

fn gone_by() -> CronSchedule {
    CronSchedule::parse("0 0 0 1 1 ? 2000").unwrap()
}

fn manager_with_one_task(target: i64) -> (TaskManager, usize) {
    let mut manager = TaskManager::new();
    let id = manager.get_new_id().unwrap();
    manager.insert_new_task(id, TaskActor::new(every_second(), RepeatModel::Repetition, target));
    (manager, id)
}

#[test]
fn ids_start_at_one_and_rise_by_one() {
    let mut manager = TaskManager::new();
    assert_eq!(manager.last_id(), 0);
    assert_eq!(manager.get_new_id(), Some(1));
    assert_eq!(manager.get_new_id(), Some(2));
    assert_eq!(manager.get_new_id(), Some(3));
    assert_eq!(manager.last_id(), 3);
}

#[test]
fn ids_never_repeat() {
    let mut manager = TaskManager::new();
    let mut seen = Vec::new();
    for _ in 0..1000 {
        let id = manager.get_new_id().unwrap();
        assert!(!seen.contains(&id));
        seen.push(id);
    }
}

#[test]
fn ids_run_out_at_the_ceiling() {
    let mut manager = TaskManager::with_last_id(usize::MAX - 1);
    assert_eq!(manager.get_new_id(), Some(usize::MAX));
    assert_eq!(manager.get_new_id(), None);
    assert_eq!(manager.get_new_id(), None);
    assert_eq!(manager.last_id(), usize::MAX);
}

#[test]
fn new_task_is_live() {
    let (manager, id) = manager_with_one_task(500);
    assert!(manager.knows(id));
    assert!(!manager.is_parked(id));
    assert_eq!(manager.get_target_date_time(id), Some(500));
    assert_eq!(manager.get_repeat_model(id), Some(RepeatModel::Repetition));
}

#[test]
fn unknown_task_gives_no_answers() {
    let (mut manager, _) = manager_with_one_task(500);
    assert!(!manager.knows(7));
    assert_eq!(manager.get_target_date_time(7), None);
    assert_eq!(manager.get_repeat_model(7), None);
    assert_eq!(manager.get_next_datetime(7), None);
    assert_eq!(manager.tick_repeat_model(7), None);
    manager.set_target_date_time(7, 1);
    assert!(!manager.knows(7));
}

#[test]
fn pause_parks_a_live_task_and_leaves_a_notice() {
    let (mut manager, id) = manager_with_one_task(500);
    assert!(manager.update_task_status_by_id(id, TaskStatus::Pause));
    assert!(manager.is_parked(id));
    assert!(manager.knows(id));
    assert_eq!(manager.drain_notice_list(), vec![(id, TaskStatus::Pause)]);
    assert_eq!(manager.get_target_date_time(id), Some(500));
}

#[test]
fn pause_of_a_parked_task_succeeds_without_a_notice() {
    let (mut manager, id) = manager_with_one_task(500);
    assert!(manager.update_task_status_by_id(id, TaskStatus::Pause));
    assert!(manager.update_task_status_by_id(id, TaskStatus::Pause));
    assert_eq!(manager.drain_notice_list(), vec![(id, TaskStatus::Pause)]);
}

#[test]
fn restart_of_a_parked_task_makes_it_live() {
    let (mut manager, id) = manager_with_one_task(500);
    manager.update_task_status_by_id(id, TaskStatus::Pause);
    assert!(manager.update_task_status_by_id(id, TaskStatus::Running));
    assert!(!manager.is_parked(id));
    assert!(manager.knows(id));
    assert_eq!(
        manager.drain_notice_list(),
        vec![(id, TaskStatus::Pause), (id, TaskStatus::Running)]
    );
}

#[test]
fn restart_of_a_live_task_fails() {
    let (mut manager, id) = manager_with_one_task(500);
    assert!(!manager.update_task_status_by_id(id, TaskStatus::Running));
    assert!(manager.drain_notice_list().is_empty());
}

#[test]
fn destroy_forgets_a_live_task() {
    let (mut manager, id) = manager_with_one_task(500);
    assert!(manager.update_task_status_by_id(id, TaskStatus::Destory));
    assert!(!manager.knows(id));
    assert_eq!(manager.drain_notice_list(), vec![(id, TaskStatus::Destory)]);
}

#[test]
fn destroy_forgets_a_parked_task() {
    let (mut manager, id) = manager_with_one_task(500);
    manager.update_task_status_by_id(id, TaskStatus::Pause);
    assert!(manager.update_task_status_by_id(id, TaskStatus::Destory));
    assert!(!manager.knows(id));
    assert!(!manager.is_parked(id));
}

#[test]
fn control_of_a_destroyed_task_fails() {
    let (mut manager, id) = manager_with_one_task(500);
    manager.update_task_status_by_id(id, TaskStatus::Destory);
    manager.drain_notice_list();
    assert!(!manager.update_task_status_by_id(id, TaskStatus::Pause));
    assert!(!manager.update_task_status_by_id(id, TaskStatus::Running));
    assert!(!manager.update_task_status_by_id(id, TaskStatus::Destory));
    assert!(!manager.update_cron_by_id(id, every_second()));
    assert!(manager.drain_notice_list().is_empty());
}

#[test]
fn control_of_an_unknown_task_fails() {
    let mut manager = TaskManager::new();
    assert!(!manager.update_task_status_by_id(1, TaskStatus::Pause));
    assert!(!manager.update_task_status_by_id(1, TaskStatus::Running));
    assert!(!manager.update_task_status_by_id(1, TaskStatus::Destory));
    assert!(!manager.retune_task(1, every_second(), Some(3)));
}

#[test]
fn drained_notices_are_gone() {
    let (mut manager, id) = manager_with_one_task(500);
    manager.update_task_status_by_id(id, TaskStatus::Pause);
    assert_eq!(manager.drain_notice_list().len(), 1);
    assert!(manager.drain_notice_list().is_empty());
}

#[test]
fn retune_gives_the_task_the_next_instant_of_the_new_schedule() {
    let (mut manager, id) = manager_with_one_task(500);
    assert!(manager.retune_task(id, gone_by(), Some(8_000)));
    assert_eq!(manager.get_target_date_time(id), Some(8_000));
    assert_eq!(manager.get_next_datetime(id), None);
}

#[test]
fn retune_reaches_a_parked_task() {
    let (mut manager, id) = manager_with_one_task(500);
    manager.update_task_status_by_id(id, TaskStatus::Pause);
    assert!(manager.retune_task(id, gone_by(), None));
    assert_eq!(manager.get_target_date_time(id), Some(500));
    assert_eq!(manager.get_next_datetime(id), None);
    assert!(manager.is_parked(id));
}

#[test]
fn update_cron_takes_the_next_instant_from_the_schedule() {
    let (mut manager, id) = manager_with_one_task(500);
    assert!(manager.update_cron_by_id(id, every_second()));
    let target = manager.get_target_date_time(id).unwrap();
    assert_eq!(target % 1000, 0);
    assert!(target > 500);
    assert!(manager.update_cron_by_id(id, gone_by()));
    assert_eq!(manager.get_target_date_time(id), Some(target));
}

#[test]
fn firings_are_counted_per_task() {
    let mut manager = TaskManager::new();
    let a = manager.get_new_id().unwrap();
    manager.insert_new_task(a, TaskActor::new(every_second(), RepeatModel::Times(2), 0));
    let b = manager.get_new_id().unwrap();
    manager.insert_new_task(b, TaskActor::new(every_second(), RepeatModel::Once, 0));
    assert_eq!(manager.tick_repeat_model(a), Some(true));
    assert_eq!(manager.tick_repeat_model(b), Some(false));
    assert_eq!(manager.tick_repeat_model(a), Some(false));
    assert_eq!(manager.get_repeat_model(a), Some(RepeatModel::Times(0)));
    assert_eq!(manager.get_repeat_model(b), Some(RepeatModel::Once));
}

#[test]
fn next_instants_are_asked_for_each_task() {
    let mut manager = TaskManager::new();
    let a = manager.get_new_id().unwrap();
    manager.insert_new_task(a, TaskActor::new(every_second(), RepeatModel::Once, 0));
    let b = manager.get_new_id().unwrap();
    manager.insert_new_task(b, TaskActor::new(gone_by(), RepeatModel::Once, 0));
    let tasks = vec![
        Task::new(TaskOrderType::Order, a),
        Task::new(TaskOrderType::Order, b),
        Task::new(TaskOrderType::Order, 99),
    ];
    let nexts = manager.get_next_datetimes(&tasks);
    assert_eq!(nexts.len(), 3);
    assert!(nexts[0].is_some());
    assert_eq!(nexts[1], None);
    assert_eq!(nexts[2], None);
}

#[test]
fn known_task_is_asked_and_names_a_whole_second() {
    let (mut manager, id) = manager_with_one_task(500);
    let live = manager.get_next_datetime(id).expect("an instant to come");
    assert_eq!(live % 1000, 0);
    manager.update_task_status_by_id(id, TaskStatus::Pause);
    let parked = manager.get_next_datetime(id).expect("an instant to come");
    assert_eq!(parked % 1000, 0);
}
