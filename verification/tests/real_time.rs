use lynn_sundial::scheduler::Scheduler;
use lynn_sundial::task::RepeatModel;

fn clock() -> i64 {
    chrono::Local::now().timestamp_millis()
}

/// Turns the reactor every 25 ms for `milliseconds`; gives the ordered
/// firings with the times at which they were handed out.
fn run(scheduler: &mut Scheduler, milliseconds: i64) -> Vec<(i64, usize)> {
    let end = clock() + milliseconds;
    let mut firings = Vec::new();
    while clock() < end {
        let start = clock();
        while clock() < start + 25 {
            std::hint::spin_loop();
        }
        for id in scheduler.turn(start) {
            firings.push((clock(), id));
        }
    }
    firings
}

fn drain(scheduler: &mut Scheduler) -> Vec<usize> {
    let mut jobs = Vec::new();
    let mut misses = 0;
    while misses < 100 {
        match scheduler.get_task(jobs.len() % 12) {
            Some(job) => jobs.push(job),
            None => misses += 1,
        }
    }
    jobs
}

#[test]
fn ordered_task_for_two_firings_fires_twice_by_the_clock() {
    let mut scheduler = Scheduler::new();
    let id = scheduler.push_order_task("0/1 * * * * ?", RepeatModel::Times(2)).unwrap();
    let firings = run(&mut scheduler, 3400);
    assert_eq!(firings.len(), 2);
    assert!(firings.iter().all(|&(_, fired)| fired == id));
    assert!(firings[1].0 - firings[0].0 >= 700);
    assert!(drain(&mut scheduler).is_empty());
}

#[test]
fn disordered_task_reaches_the_run_queue_by_the_clock() {
    let mut scheduler = Scheduler::new();
    let id = scheduler.push_disorder_task("0/1 * * * * ?", RepeatModel::Repetition).unwrap();
    let ordered = run(&mut scheduler, 2400);
    assert!(ordered.is_empty());
    let jobs = drain(&mut scheduler);
    assert!(jobs.len() >= 2 && jobs.len() <= 3);
    assert!(jobs.iter().all(|&job| job == id));
}

#[test]
fn parked_task_is_silent_by_the_clock() {
    let mut scheduler = Scheduler::new();
    let id = scheduler.push_order_task("0/1 * * * * ?", RepeatModel::Repetition).unwrap();
    assert!(scheduler.pause_task_by_id(id));
    assert!(run(&mut scheduler, 2300).is_empty());
    assert!(scheduler.restart_task_by_id(id));
    let firings = run(&mut scheduler, 1400);
    assert!(!firings.is_empty());
}
