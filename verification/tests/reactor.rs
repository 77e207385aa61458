use lynn_sundial::core_reactor::{elapsed_millis, CoreReactor};
use lynn_sundial::task::TaskOrderType;
use lynn_sundial::task_reactor::TasksManager;
use lynn_sundial::time_wheel::Dispatch;

#[test]
fn elapsed_is_the_difference() {
    assert_eq!(elapsed_millis(1_000, 1_025), 25);
    assert_eq!(elapsed_millis(-10, 15), 25);
    assert_eq!(elapsed_millis(-30, -5), 25);
    assert_eq!(elapsed_millis(7, 7), 0);
}

#[test]
fn elapsed_is_nothing_when_the_clock_went_back() {
    assert_eq!(elapsed_millis(1_025, 1_000), 0);
    assert_eq!(elapsed_millis(i64::MAX, i64::MIN), 0);
}

#[test]
fn elapsed_spans_the_whole_range() {
    assert_eq!(elapsed_millis(i64::MIN, i64::MAX), u64::MAX);
    assert_eq!(elapsed_millis(i64::MIN, 0), 1u64 << 63);
    assert_eq!(elapsed_millis(-1, i64::MAX), 1u64 << 63);
}

#[test]
fn first_tick_lets_one_tick_time_pass() {
    assert_eq!(CoreReactor::new().tick_delta(), 25);
}

#[test]
fn reactor_keeps_the_time_that_a_turn_took() {
    let mut reactor = CoreReactor::new();
    reactor.measure(5_000, 5_031);
    assert_eq!(reactor.tick_delta(), 31);
    reactor.measure(5_000, 4_000);
    assert_eq!(reactor.tick_delta(), 0);
}

#[test]
fn firings_are_routed_by_their_kind() {
    let mut pool = TasksManager::new();
    pool.start();
    let fired = vec![
        Dispatch { task_id: 4, task_order_type: TaskOrderType::Disorder },
        Dispatch { task_id: 1, task_order_type: TaskOrderType::Order },
        Dispatch { task_id: 9, task_order_type: TaskOrderType::Disorder },
        Dispatch { task_id: 2, task_order_type: TaskOrderType::Order },
        Dispatch { task_id: 1, task_order_type: TaskOrderType::Order },
    ];
    let ordered = CoreReactor::route(&fired, &mut pool);
    assert_eq!(ordered, vec![1, 2, 1]);
    let mut queued = Vec::new();
    let mut misses = 0;
    while misses < 100 {
        match pool.get_task(0) {
            Some(job) => queued.push(job),
            None => misses += 1,
        }
    }
    assert_eq!(queued, vec![4, 9]);
}

#[test]
fn nothing_fired_nothing_routed() {
    let mut pool = TasksManager::new();
    pool.start();
    assert!(CoreReactor::route(&Vec::new(), &mut pool).is_empty());
    assert_eq!(pool.get_task(0), None);
}
