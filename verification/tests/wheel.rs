use lynn_sundial::calendar::CronSchedule;
use lynn_sundial::task::{RepeatModel, Task, TaskOrderType, TaskStatus};
use lynn_sundial::task_actor::TaskActor;
use lynn_sundial::task_manager::TaskManager;
use lynn_sundial::time_wheel::{delay, status_for, Dispatch, Tier, TierTimeWheel, TimeWheel};

const TIERS: [Tier; 4] = [Tier::Millisecond, Tier::Second, Tier::Minute, Tier::Hour];

fn every_second() -> CronSchedule {
    CronSchedule::parse("0/1 * * * * ?").unwrap()
}

fn order_task(id: usize) -> Task {
    Task::new(TaskOrderType::Order, id)
}

/// Where the wheel holds the tasks: tier, bucket and task, ring by ring.
fn contents(wheel: &TierTimeWheel) -> Vec<(Tier, usize, Task)> {
    let mut found = Vec::new();
    for tier in TIERS {
        let ring = wheel.wheel(tier);
        for index in 0..ring.slot_count() {
            for task in ring.bucket(index) {
                found.push((tier, index, task));
            }
        }
    }
    found
}

fn placed_at(milliseconds: i64) -> (Tier, usize) {
    let mut wheel = TierTimeWheel::new();
    wheel.push_T_to_time_wheel(order_task(1), milliseconds);
    let found = contents(&wheel);
    assert_eq!(found.len(), 1);
    assert_eq!(found[0].2, order_task(1));
    (found[0].0, found[0].1)
}

fn manager_with(repeat: RepeatModel, target: i64) -> (TaskManager, usize) {
    let mut manager = TaskManager::new();
    let id = manager.get_new_id().unwrap();
    manager.insert_new_task(id, TaskActor::new(every_second(), repeat, target));
    (manager, id)
}

#[test]
fn ring_starts_empty_with_pointer_on_first_slot() {
    let wheel = TimeWheel::new(10, 100);
    assert_eq!(wheel.pointer(), 0);
    assert_eq!(wheel.slot_count(), 10);
    assert_eq!(wheel.interval(), 100);
    for index in 0..10 {
        assert!(wheel.bucket(index).is_empty());
    }
    assert!(wheel.bucket(10).is_empty());
}

#[test]
fn ring_countdown_falls_and_stops_at_zero() {
    let mut wheel = TimeWheel::new(10, 100);
    wheel.tick(30);
    assert_eq!(wheel.interval(), 70);
    assert!(!wheel.interval_finished());
    assert_eq!(wheel.interval(), 70);
    wheel.tick(500);
    assert_eq!(wheel.interval(), 0);
    assert!(wheel.interval_finished());
    assert_eq!(wheel.interval(), 100);
    assert!(!wheel.interval_finished());
}

#[test]
fn ring_harvest_empties_the_bucket_in_order_and_moves_the_pointer_round() {
    let mut wheel = TimeWheel::new(3, 100);
    wheel.push_at(0, order_task(1));
    wheel.push_at(0, order_task(2));
    wheel.push_at(1, order_task(3));
    assert_eq!(wheel.check(), vec![order_task(1), order_task(2)]);
    assert_eq!(wheel.pointer(), 1);
    assert!(wheel.bucket(0).is_empty());
    assert_eq!(wheel.check(), vec![order_task(3)]);
    assert_eq!(wheel.pointer(), 2);
    assert!(wheel.check().is_empty());
    assert_eq!(wheel.pointer(), 0);
}

#[test]
fn tiered_wheel_has_the_four_rings() {
    let wheel = TierTimeWheel::new();
    assert_eq!(wheel.wheel(Tier::Millisecond).slot_count(), 10);
    assert_eq!(wheel.wheel(Tier::Millisecond).interval(), 100);
    assert_eq!(wheel.wheel(Tier::Second).slot_count(), 60);
    assert_eq!(wheel.wheel(Tier::Second).interval(), 1000);
    assert_eq!(wheel.wheel(Tier::Minute).slot_count(), 60);
    assert_eq!(wheel.wheel(Tier::Minute).interval(), 60_000);
    assert_eq!(wheel.wheel(Tier::Hour).slot_count(), 24);
    assert_eq!(wheel.wheel(Tier::Hour).interval(), 3_600_000);
    assert!(contents(&wheel).is_empty());
}

#[test]
fn delay_up_to_a_second_goes_to_the_millisecond_wheel() {
    assert_eq!(placed_at(0), (Tier::Millisecond, 0));
    assert_eq!(placed_at(99), (Tier::Millisecond, 0));
    assert_eq!(placed_at(100), (Tier::Millisecond, 1));
    assert_eq!(placed_at(250), (Tier::Millisecond, 2));
    assert_eq!(placed_at(999), (Tier::Millisecond, 9));
    assert_eq!(placed_at(1000), (Tier::Millisecond, 0));
}

#[test]
fn delay_that_is_over_goes_under_the_pointer() {
    assert_eq!(placed_at(-1), (Tier::Millisecond, 0));
    assert_eq!(placed_at(-250), (Tier::Millisecond, 0));
    assert_eq!(placed_at(i64::MIN), (Tier::Millisecond, 0));
}

#[test]
fn delay_up_to_a_minute_goes_to_the_second_wheel() {
    assert_eq!(placed_at(1001), (Tier::Second, 1));
    assert_eq!(placed_at(1999), (Tier::Second, 1));
    assert_eq!(placed_at(2000), (Tier::Second, 2));
    assert_eq!(placed_at(59_999), (Tier::Second, 59));
    assert_eq!(placed_at(60_000), (Tier::Second, 0));
}

#[test]
fn delay_up_to_an_hour_goes_to_the_minute_wheel() {
    assert_eq!(placed_at(60_001), (Tier::Minute, 1));
    assert_eq!(placed_at(90_000), (Tier::Minute, 1));
    assert_eq!(placed_at(120_000), (Tier::Minute, 2));
    assert_eq!(placed_at(3_599_999), (Tier::Minute, 59));
    assert_eq!(placed_at(3_600_000), (Tier::Minute, 0));
}

#[test]
fn delay_beyond_an_hour_goes_to_the_hour_wheel() {
    assert_eq!(placed_at(3_600_001), (Tier::Hour, 1));
    assert_eq!(placed_at(7_200_000), (Tier::Hour, 2));
    assert_eq!(placed_at(23 * 3_600_000), (Tier::Hour, 23));
}

#[test]
fn delay_beyond_the_hour_wheel_is_parked_in_its_last_bucket() {
    assert_eq!(placed_at(24 * 3_600_000), (Tier::Hour, 23));
    assert_eq!(placed_at(1000 * 3_600_000), (Tier::Hour, 23));
    assert_eq!(placed_at(i64::MAX), (Tier::Hour, 23));
}

#[test]
fn offsets_count_from_the_pointer_round_the_ring() {
    let mut wheel = TierTimeWheel::new();
    wheel.advance(100);
    assert_eq!(wheel.harvest_due(Tier::Millisecond), Some(vec![]));
    wheel.advance(100);
    assert_eq!(wheel.harvest_due(Tier::Millisecond), Some(vec![]));
    assert_eq!(wheel.wheel(Tier::Millisecond).pointer(), 2);
    wheel.push_T_to_time_wheel(order_task(1), 50);
    wheel.push_T_to_time_wheel(order_task(2), 950);
    assert_eq!(
        contents(&wheel),
        vec![(Tier::Millisecond, 1, order_task(2)), (Tier::Millisecond, 2, order_task(1))]
    );
}

#[test]
fn hour_wheel_counts_from_the_pointer_round_the_ring() {
    let mut wheel = TierTimeWheel::new();
    for _ in 0..5 {
        wheel.advance(3_600_000);
        assert_eq!(wheel.harvest_due(Tier::Hour), Some(vec![]));
    }
    assert_eq!(wheel.wheel(Tier::Hour).pointer(), 5);
    wheel.push_T_to_time_wheel(order_task(1), 2 * 3_600_000 + 1);
    wheel.push_T_to_time_wheel(order_task(2), 20 * 3_600_000);
    assert_eq!(
        contents(&wheel),
        vec![(Tier::Hour, 1, order_task(2)), (Tier::Hour, 7, order_task(1))]
    );
}

#[test]
fn hour_wheel_parks_what_lies_beyond_its_horizon_in_the_farthest_slot() {
    let mut wheel = TierTimeWheel::new();
    for _ in 0..5 {
        wheel.advance(3_600_000);
        assert_eq!(wheel.harvest_due(Tier::Hour), Some(vec![]));
    }
    wheel.push_T_to_time_wheel(order_task(1), 23 * 3_600_000);
    wheel.push_T_to_time_wheel(order_task(2), 24 * 3_600_000);
    wheel.push_T_to_time_wheel(order_task(3), 1000 * 3_600_000);
    wheel.push_T_to_time_wheel(order_task(4), i64::MAX);
    assert_eq!(
        wheel.wheel(Tier::Hour).bucket(4),
        vec![order_task(1), order_task(2), order_task(3), order_task(4)]
    );
    assert_eq!(contents(&wheel).len(), 4);
}

#[test]
fn hour_wheel_with_its_pointer_on_the_last_slot_places_an_hour_ahead_in_the_first() {
    let mut wheel = TierTimeWheel::new();
    for _ in 0..23 {
        wheel.advance(3_600_000);
        assert_eq!(wheel.harvest_due(Tier::Hour), Some(vec![]));
    }
    assert_eq!(wheel.wheel(Tier::Hour).pointer(), 23);
    wheel.push_T_to_time_wheel(order_task(1), 3_600_001);
    assert_eq!(contents(&wheel), vec![(Tier::Hour, 0, order_task(1))]);
    wheel.push_T_to_time_wheel(order_task(2), i64::MAX);
    assert_eq!(wheel.wheel(Tier::Hour).bucket(22), vec![order_task(2)]);
}

#[test]
fn bucket_keeps_the_order_of_arrival() {
    let mut wheel = TierTimeWheel::new();
    wheel.push_T_to_time_wheel(order_task(3), 10);
    wheel.push_T_to_time_wheel(order_task(1), 20);
    wheel.push_T_to_time_wheel(order_task(2), 30);
    assert_eq!(
        wheel.wheel(Tier::Millisecond).bucket(0),
        vec![order_task(3), order_task(1), order_task(2)]
    );
}

#[test]
fn harvest_waits_for_the_countdown() {
    let mut wheel = TierTimeWheel::new();
    wheel.push_T_to_time_wheel(order_task(1), 10);
    assert_eq!(wheel.harvest_due(Tier::Millisecond), None);
    wheel.advance(99);
    assert_eq!(wheel.harvest_due(Tier::Millisecond), None);
    wheel.advance(1);
    assert_eq!(wheel.harvest_due(Tier::Millisecond), Some(vec![order_task(1)]));
    assert_eq!(wheel.harvest_due(Tier::Millisecond), None);
    assert_eq!(wheel.harvest_due(Tier::Second), None);
    assert_eq!(wheel.wheel(Tier::Millisecond).pointer(), 1);
    assert_eq!(wheel.wheel(Tier::Millisecond).interval(), 100);
    assert_eq!(wheel.wheel(Tier::Second).interval(), 900);
}

#[test]
fn delay_is_the_difference_kept_in_range() {
    assert_eq!(delay(1500, 1000), 500);
    assert_eq!(delay(1000, 1500), -500);
    assert_eq!(delay(i64::MAX, -1), i64::MAX);
    assert_eq!(delay(i64::MIN, 1), i64::MIN);
    assert_eq!(delay(i64::MAX, i64::MAX), 0);
    assert_eq!(delay(-5, -3), -2);
}

#[test]
fn last_notice_for_a_task_decides_its_status() {
    let notices = vec![
        (1, TaskStatus::Pause),
        (2, TaskStatus::Destory),
        (1, TaskStatus::Running),
        (3, TaskStatus::Pause),
    ];
    assert_eq!(status_for(&notices, 1, TaskStatus::Pause), TaskStatus::Running);
    assert_eq!(status_for(&notices, 2, TaskStatus::Running), TaskStatus::Destory);
    assert_eq!(status_for(&notices, 3, TaskStatus::Running), TaskStatus::Pause);
    assert_eq!(status_for(&notices, 4, TaskStatus::Running), TaskStatus::Running);
    assert_eq!(status_for(&Vec::new(), 1, TaskStatus::Pause), TaskStatus::Pause);
}

#[test]
fn notices_reach_every_record_of_their_task_and_no_other() {
    let mut wheel = TierTimeWheel::new();
    wheel.push_T_to_time_wheel(order_task(1), 50);
    wheel.push_T_to_time_wheel(order_task(2), 50);
    wheel.push_T_to_time_wheel(order_task(1), 5_000);
    wheel.push_T_to_time_wheel(order_task(3), 90_000);
    wheel.push_T_to_time_wheel(order_task(1), 4_000_000);
    wheel.apply_notices(&vec![(1, TaskStatus::Pause), (3, TaskStatus::Destory)]);
    let paused = Task { task_status: TaskStatus::Pause, ..order_task(1) };
    let destroyed = Task { task_status: TaskStatus::Destory, ..order_task(3) };
    assert_eq!(
        contents(&wheel),
        vec![
            (Tier::Millisecond, 0, paused),
            (Tier::Millisecond, 0, order_task(2)),
            (Tier::Second, 5, paused),
            (Tier::Minute, 1, destroyed),
            (Tier::Hour, 1, paused),
        ]
    );
    wheel.apply_notices(&Vec::new());
    assert_eq!(contents(&wheel).len(), 5);
}

#[test]
fn due_task_fires_and_moves_on_to_its_next_instant() {
    let (mut manager, id) = manager_with(RepeatModel::Repetition, 10_000);
    let mut wheel = TierTimeWheel::new();
    let mut fired = Vec::new();
    wheel.harvest_task(order_task(id), Some(11_000), &mut fired, &mut manager, 9_950);
    assert_eq!(fired, vec![Dispatch { task_id: id, task_order_type: TaskOrderType::Order }]);
    assert_eq!(manager.get_target_date_time(id), Some(11_000));
    assert_eq!(contents(&wheel), vec![(Tier::Second, 1, order_task(id))]);
}

#[test]
fn task_is_due_up_to_the_slack_ahead() {
    let (mut manager, id) = manager_with(RepeatModel::Repetition, 10_000);
    let mut wheel = TierTimeWheel::new();
    let mut fired = Vec::new();
    wheel.harvest_task(order_task(id), Some(11_000), &mut fired, &mut manager, 9_899);
    assert!(fired.is_empty());
    assert_eq!(manager.get_target_date_time(id), Some(10_000));
    assert_eq!(contents(&wheel), vec![(Tier::Millisecond, 1, order_task(id))]);
    let mut wheel = TierTimeWheel::new();
    wheel.harvest_task(order_task(id), Some(11_000), &mut fired, &mut manager, 9_900);
    assert_eq!(fired.len(), 1);
}

#[test]
fn overdue_task_fires_once() {
    let (mut manager, id) = manager_with(RepeatModel::Repetition, 10_000);
    let mut wheel = TierTimeWheel::new();
    let mut fired = Vec::new();
    wheel.harvest_task(order_task(id), Some(16_000), &mut fired, &mut manager, 15_500);
    assert_eq!(fired.len(), 1);
    assert_eq!(manager.get_target_date_time(id), Some(16_000));
    assert_eq!(contents(&wheel), vec![(Tier::Millisecond, 5, order_task(id))]);
}

#[test]
fn task_not_yet_due_cascades_by_its_lag() {
    let (mut manager, id) = manager_with(RepeatModel::Repetition, 100_000);
    let mut wheel = TierTimeWheel::new();
    let mut fired = Vec::new();
    wheel.harvest_task(order_task(id), Some(1), &mut fired, &mut manager, 70_000);
    assert!(fired.is_empty());
    assert_eq!(manager.get_target_date_time(id), Some(100_000));
    assert_eq!(manager.get_repeat_model(id), Some(RepeatModel::Repetition));
    assert_eq!(contents(&wheel), vec![(Tier::Second, 30, order_task(id))]);
}

#[test]
fn once_task_fires_and_is_dropped() {
    let (mut manager, id) = manager_with(RepeatModel::Once, 10_000);
    let mut wheel = TierTimeWheel::new();
    let mut fired = Vec::new();
    wheel.harvest_task(order_task(id), Some(11_000), &mut fired, &mut manager, 10_000);
    assert_eq!(fired.len(), 1);
    assert!(contents(&wheel).is_empty());
    assert_eq!(manager.get_target_date_time(id), Some(10_000));
}

#[test]
fn counted_task_is_dropped_after_its_last_firing() {
    let (mut manager, id) = manager_with(RepeatModel::Times(2), 10_000);
    let mut wheel = TierTimeWheel::new();
    let mut fired = Vec::new();
    wheel.harvest_task(order_task(id), Some(11_000), &mut fired, &mut manager, 10_000);
    assert_eq!(manager.get_repeat_model(id), Some(RepeatModel::Times(1)));
    assert_eq!(contents(&wheel).len(), 1);
    let mut wheel = TierTimeWheel::new();
    wheel.harvest_task(order_task(id), Some(12_000), &mut fired, &mut manager, 11_000);
    assert_eq!(manager.get_repeat_model(id), Some(RepeatModel::Times(0)));
    assert!(contents(&wheel).is_empty());
    assert_eq!(fired.len(), 2);
}

#[test]
fn exhausted_schedule_drops_the_task_after_its_firing() {
    let (mut manager, id) = manager_with(RepeatModel::Repetition, 10_000);
    let mut wheel = TierTimeWheel::new();
    let mut fired = Vec::new();
    wheel.harvest_task(order_task(id), None, &mut fired, &mut manager, 10_000);
    assert_eq!(fired.len(), 1);
    assert!(contents(&wheel).is_empty());
}

#[test]
fn paused_task_does_not_fire_and_moves_on() {
    let (mut manager, id) = manager_with(RepeatModel::Times(3), 10_000);
    let mut wheel = TierTimeWheel::new();
    let mut fired = Vec::new();
    let paused = Task { task_status: TaskStatus::Pause, ..order_task(id) };
    wheel.harvest_task(paused, Some(11_000), &mut fired, &mut manager, 10_000);
    assert!(fired.is_empty());
    assert_eq!(manager.get_target_date_time(id), Some(11_000));
    assert_eq!(manager.get_repeat_model(id), Some(RepeatModel::Times(3)));
    assert_eq!(contents(&wheel), vec![(Tier::Millisecond, 0, paused)]);
}

#[test]
fn paused_task_without_a_next_instant_is_dropped() {
    let (mut manager, id) = manager_with(RepeatModel::Repetition, 10_000);
    let mut wheel = TierTimeWheel::new();
    let mut fired = Vec::new();
    let paused = Task { task_status: TaskStatus::Pause, ..order_task(id) };
    wheel.harvest_task(paused, None, &mut fired, &mut manager, 10_000);
    assert!(fired.is_empty());
    assert!(contents(&wheel).is_empty());
}

#[test]
fn destroyed_task_is_dropped() {
    let (mut manager, id) = manager_with(RepeatModel::Repetition, 10_000);
    let mut wheel = TierTimeWheel::new();
    let mut fired = Vec::new();
    let destroyed = Task { task_status: TaskStatus::Destory, ..order_task(id) };
    wheel.harvest_task(destroyed, Some(11_000), &mut fired, &mut manager, 10_000);
    assert!(fired.is_empty());
    assert!(contents(&wheel).is_empty());
    assert_eq!(manager.get_target_date_time(id), Some(10_000));
}

#[test]
fn task_without_state_is_dropped() {
    let mut manager = TaskManager::new();
    let mut wheel = TierTimeWheel::new();
    let mut fired = Vec::new();
    wheel.harvest_task(order_task(5), Some(11_000), &mut fired, &mut manager, 10_000);
    let paused = Task { task_status: TaskStatus::Pause, ..order_task(5) };
    wheel.harvest_task(paused, Some(11_000), &mut fired, &mut manager, 10_000);
    assert!(fired.is_empty());
    assert!(contents(&wheel).is_empty());
}

#[test]
fn bucket_is_harvested_from_its_last_task_to_its_first() {
    let mut manager = TaskManager::new();
    let a = manager.get_new_id().unwrap();
    manager.insert_new_task(a, TaskActor::new(every_second(), RepeatModel::Once, 1_000));
    let b = manager.get_new_id().unwrap();
    manager.insert_new_task(b, TaskActor::new(every_second(), RepeatModel::Repetition, 1_000));
    let c = manager.get_new_id().unwrap();
    manager.insert_new_task(c, TaskActor::new(every_second(), RepeatModel::Repetition, 9_000));
    let mut wheel = TierTimeWheel::new();
    let mut fired = Vec::new();
    let tasks = vec![order_task(a), Task::new(TaskOrderType::Disorder, b), order_task(c)];
    let nexts = vec![Some(2_000), Some(2_000), Some(2_000)];
    wheel.check_time_wheel_result(tasks, &nexts, &mut fired, &mut manager, 1_000);
    assert_eq!(
        fired,
        vec![
            Dispatch { task_id: b, task_order_type: TaskOrderType::Disorder },
            Dispatch { task_id: a, task_order_type: TaskOrderType::Order },
        ]
    );
    assert_eq!(
        contents(&wheel),
        vec![
            (Tier::Millisecond, 0, Task::new(TaskOrderType::Disorder, b)),
            (Tier::Second, 8, order_task(c)),
        ]
    );
}

#[test]
fn tick_harvests_the_rings_whose_countdown_has_run_out() {
    let now = chrono::Local::now().timestamp_millis();
    let (mut manager, id) = manager_with(RepeatModel::Repetition, now + 50);
    let mut wheel = TierTimeWheel::new();
    wheel.push_T_to_time_wheel(order_task(id), 50);
    assert!(wheel.tick(60, &mut manager, now).is_empty());
    assert_eq!(manager.get_target_date_time(id), Some(now + 50));
    let fired = wheel.tick(40, &mut manager, now);
    assert_eq!(fired, vec![Dispatch { task_id: id, task_order_type: TaskOrderType::Order }]);
    let target = manager.get_target_date_time(id).unwrap();
    assert_eq!(target % 1000, 0);
    assert!(target > now - 1000 && target <= now + 2000);
    assert_eq!(contents(&wheel).len(), 1);
    assert_eq!(wheel.wheel(Tier::Millisecond).pointer(), 1);
    assert_eq!(wheel.wheel(Tier::Second).interval(), 900);
}

#[test]
fn record_comes_up_after_as_many_harvests_as_it_lies_ahead() {
    for (milliseconds, tier, width) in [
        (350, Tier::Millisecond, 100),
        (7_500, Tier::Second, 1000),
        (10 * 60_000 + 1, Tier::Minute, 60_000),
        (3 * 3_600_000 + 1, Tier::Hour, 3_600_000),
    ] {
        let mut wheel = TierTimeWheel::new();
        wheel.push_T_to_time_wheel(order_task(1), milliseconds);
        let ahead = (milliseconds / width) as usize;
        for _ in 0..ahead {
            wheel.advance(width as u64);
            assert_eq!(wheel.harvest_due(tier), Some(vec![]));
        }
        wheel.advance(width as u64);
        assert_eq!(wheel.harvest_due(tier), Some(vec![order_task(1)]));
    }
}

#[test]
fn two_ticks_let_pass_what_one_tick_of_their_sum_lets_pass() {
    let mut split = TierTimeWheel::new();
    split.advance(40);
    split.advance(35);
    let mut whole = TierTimeWheel::new();
    whole.advance(75);
    for tier in TIERS {
        assert_eq!(split.wheel(tier).interval(), whole.wheel(tier).interval());
    }
    assert_eq!(whole.wheel(Tier::Millisecond).interval(), 25);
    assert_eq!(whole.wheel(Tier::Hour).interval(), 3_599_925);
}

#[test]
fn each_task_of_a_bucket_is_harvested_as_if_it_were_alone() {
    let mut manager = TaskManager::new();
    let mut ids = Vec::new();
    for (repeat, target) in [
        (RepeatModel::Repetition, 1_000),
        (RepeatModel::Once, 1_050),
        (RepeatModel::Times(2), 1_100),
        (RepeatModel::Repetition, 5_000),
        (RepeatModel::Repetition, 1_000),
    ] {
        let id = manager.get_new_id().unwrap();
        manager.insert_new_task(id, TaskActor::new(every_second(), repeat, target));
        ids.push(id);
    }
    let paused = Task { task_status: TaskStatus::Pause, ..order_task(ids[4]) };
    let tasks = vec![
        order_task(ids[0]),
        Task::new(TaskOrderType::Disorder, ids[1]),
        order_task(ids[2]),
        order_task(ids[3]),
        paused,
        order_task(77),
    ];
    let nexts = vec![Some(2_000), Some(2_000), None, Some(2_000), Some(3_000), Some(2_000)];
    let mut wheel = TierTimeWheel::new();
    let mut fired = Vec::new();
    wheel.check_time_wheel_result(tasks, &nexts, &mut fired, &mut manager, 1_000);
    assert_eq!(
        fired,
        vec![
            Dispatch { task_id: ids[2], task_order_type: TaskOrderType::Order },
            Dispatch { task_id: ids[1], task_order_type: TaskOrderType::Disorder },
            Dispatch { task_id: ids[0], task_order_type: TaskOrderType::Order },
        ]
    );
    assert_eq!(manager.get_target_date_time(ids[0]), Some(2_000));
    assert_eq!(manager.get_target_date_time(ids[1]), Some(1_050));
    assert_eq!(manager.get_repeat_model(ids[2]), Some(RepeatModel::Times(1)));
    assert_eq!(manager.get_target_date_time(ids[2]), Some(1_100));
    assert_eq!(manager.get_target_date_time(ids[3]), Some(5_000));
    assert_eq!(manager.get_target_date_time(ids[4]), Some(3_000));
    assert_eq!(
        contents(&wheel),
        vec![
            (Tier::Millisecond, 0, order_task(ids[0])),
            (Tier::Second, 2, paused),
            (Tier::Second, 4, order_task(ids[3])),
        ]
    );
}
