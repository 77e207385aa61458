use lynn_sundial::task::{RepeatModel, Task, TaskOrderType, TaskStatus};

#[test]
fn once_is_not_followed_by_another_firing() {
    assert_eq!(RepeatModel::Once.tick(), (RepeatModel::Once, false));
}

#[test]
fn repetition_is_always_followed_by_another_firing() {
    let mut repeat = RepeatModel::Repetition;
    for _ in 0..100 {
        let (after, again) = repeat.tick();
        assert!(again);
        repeat = after;
    }
    assert_eq!(repeat, RepeatModel::Repetition);
}

#[test]
fn times_counts_down_and_stops_after_the_last() {
    assert_eq!(RepeatModel::Times(3).tick(), (RepeatModel::Times(2), true));
    assert_eq!(RepeatModel::Times(2).tick(), (RepeatModel::Times(1), true));
    assert_eq!(RepeatModel::Times(1).tick(), (RepeatModel::Times(0), false));
}

#[test]
fn times_fires_exactly_as_often_as_it_says() {
    for n in 1..20usize {
        let mut repeat = RepeatModel::Times(n);
        let mut firings = 0;
        loop {
            firings += 1;
            let (after, again) = repeat.tick();
            repeat = after;
            if !again {
                break;
            }
        }
        assert_eq!(firings, n);
    }
}

#[test]
fn times_zero_stays_at_zero() {
    assert_eq!(RepeatModel::Times(0).tick(), (RepeatModel::Times(0), false));
}

#[test]
fn new_task_is_running() {
    let task = Task::new(TaskOrderType::Disorder, 9);
    assert_eq!(task.task_id, 9);
    assert_eq!(task.task_order_type, TaskOrderType::Disorder);
    assert_eq!(task.task_status, TaskStatus::Running);
    assert!(task.is_running());
}

#[test]
fn paused_and_destroyed_tasks_are_not_running() {
    let mut task = Task::new(TaskOrderType::Order, 1);
    task.task_status = TaskStatus::Pause;
    assert!(!task.is_running());
    task.task_status = TaskStatus::Destory;
    assert!(!task.is_running());
}
