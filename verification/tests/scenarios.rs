use lynn_sundial::calendar::CronSchedule;
use lynn_sundial::core_reactor::CoreReactor;
use lynn_sundial::task::{RepeatModel, Task, TaskOrderType, TaskStatus};
use lynn_sundial::task_actor::TaskActor;
use lynn_sundial::task_manager::TaskManager;
use lynn_sundial::task_reactor::TasksManager;
use lynn_sundial::time_wheel::{delay, Dispatch, Tier, TierTimeWheel};

const TIERS: [Tier; 4] = [Tier::Millisecond, Tier::Second, Tier::Minute, Tier::Hour];
const TICK: u64 = 25;

/// A scheduler driven by a clock of its own, with schedules that name every
/// whole second.
struct Simulation {
    wheel: TierTimeWheel,
    manager: TaskManager,
    now: i64,
}

fn next_second(now: i64) -> i64 {
    (now.div_euclid(1000) + 1) * 1000
}

impl Simulation {
    fn new() -> Simulation {
        Simulation { wheel: TierTimeWheel::new(), manager: TaskManager::new(), now: 0 }
    }

    fn register(&mut self, repeat: RepeatModel, order: TaskOrderType, target: i64) -> usize {
        let id = self.manager.get_new_id().unwrap();
        let schedule = CronSchedule::parse("0/1 * * * * ?").unwrap();
        self.manager.insert_new_task(id, TaskActor::new(schedule, repeat, target));
        self.wheel.push_T_to_time_wheel(Task::new(order, id), delay(target, self.now));
        id
    }

    /// One turn of the reactor, a tick time after the last.
    fn turn(&mut self) -> Vec<Dispatch> {
        self.now += TICK as i64;
        let notices = self.manager.drain_notice_list();
        self.wheel.apply_notices(&notices);
        self.wheel.advance(TICK);
        let mut fired = Vec::new();
        for tier in TIERS {
            if let Some(tasks) = self.wheel.harvest_due(tier) {
                let nexts = tasks.iter().map(|_| Some(next_second(self.now))).collect();
                let now = self.now;
                self.wheel.check_time_wheel_result(tasks, &nexts, &mut fired, &mut self.manager, now);
            }
        }
        fired
    }

    /// Turns until the clock reads `until`; gives the firings with their times.
    fn run(&mut self, until: i64) -> Vec<(i64, Dispatch)> {
        let mut firings = Vec::new();
        while self.now < until {
            for dispatch in self.turn() {
                firings.push((self.now, dispatch));
            }
        }
        firings
    }

    fn residence(&self, id: usize) -> Vec<(Tier, usize)> {
        let mut found = Vec::new();
        for tier in TIERS {
            let ring = self.wheel.wheel(tier);
            for index in 0..ring.slot_count() {
                for task in ring.bucket(index) {
                    if task.task_id == id {
                        found.push((tier, index));
                    }
                }
            }
        }
        found
    }
}

fn near_a_whole_second(time: i64) -> bool {
    let off = time.rem_euclid(1000);
    off <= 200 || off >= 800
}

#[test]
fn ordered_task_fires_once_a_second() {
    let mut simulation = Simulation::new();
    let id = simulation.register(RepeatModel::Repetition, TaskOrderType::Order, 1000);
    let firings = simulation.run(3200);
    assert_eq!(firings.len(), 3);
    for (time, dispatch) in &firings {
        assert_eq!(*dispatch, Dispatch { task_id: id, task_order_type: TaskOrderType::Order });
        assert!(near_a_whole_second(*time));
    }
    assert!(firings[1].0 - firings[0].0 >= 900);
    assert!(firings[2].0 - firings[1].0 >= 900);
}

#[test]
fn disordered_firings_queue_up_without_waiting_for_one_another() {
    let mut simulation = Simulation::new();
    let id = simulation.register(RepeatModel::Repetition, TaskOrderType::Disorder, 1000);
    let mut pool = TasksManager::new();
    pool.start();
    while simulation.now < 5000 {
        let fired = simulation.turn();
        assert!(CoreReactor::route(&fired, &mut pool).is_empty());
    }
    let mut queued = Vec::new();
    let mut misses = 0;
    while misses < 100 {
        match pool.get_task(0) {
            Some(job) => queued.push(job),
            None => misses += 1,
        }
    }
    assert!(queued.len() >= 3);
    assert!(queued.iter().all(|&job| job == id));
}

#[test]
fn task_registered_for_two_firings_fires_twice() {
    let mut simulation = Simulation::new();
    simulation.register(RepeatModel::Times(2), TaskOrderType::Order, 1000);
    let firings = simulation.run(5000);
    assert_eq!(firings.len(), 2);
    assert!(simulation.residence(1).is_empty());
}

#[test]
fn task_registered_for_one_firing_fires_once() {
    let mut simulation = Simulation::new();
    simulation.register(RepeatModel::Once, TaskOrderType::Order, 1000);
    assert_eq!(simulation.run(5000).len(), 1);
    let mut simulation = Simulation::new();
    simulation.register(RepeatModel::Times(1), TaskOrderType::Disorder, 1000);
    assert_eq!(simulation.run(5000).len(), 1);
}

#[test]
fn task_registered_for_five_firings_is_cut_short_by_the_end_of_the_run() {
    let mut simulation = Simulation::new();
    simulation.register(RepeatModel::Times(5), TaskOrderType::Order, 1000);
    assert_eq!(simulation.run(3200).len(), 3);
}

#[test]
fn paused_task_does_not_fire_until_it_is_restarted() {
    let mut simulation = Simulation::new();
    let id = simulation.register(RepeatModel::Repetition, TaskOrderType::Order, 1000);
    let mut firings = simulation.run(2500);
    assert!(simulation.manager.update_task_status_by_id(id, TaskStatus::Pause));
    let while_paused = simulation.run(5500);
    assert!(while_paused.is_empty());
    assert!(simulation.manager.update_task_status_by_id(id, TaskStatus::Running));
    firings.extend(simulation.run(8200));
    let seconds: Vec<i64> = firings.iter().map(|(time, _)| (time + 500) / 1000).collect();
    assert_eq!(seconds, vec![1, 2, 6, 7, 8]);
    assert!(firings.iter().all(|(time, _)| near_a_whole_second(*time)));
}

#[test]
fn paused_task_stays_in_the_wheel() {
    let mut simulation = Simulation::new();
    let id = simulation.register(RepeatModel::Repetition, TaskOrderType::Order, 1000);
    simulation.manager.update_task_status_by_id(id, TaskStatus::Pause);
    assert!(simulation.run(10_000).is_empty());
    assert_eq!(simulation.residence(id).len(), 1);
    assert_eq!(simulation.manager.get_repeat_model(id), Some(RepeatModel::Repetition));
}

#[test]
fn destroyed_task_fires_no_more_and_leaves_the_wheel() {
    let mut simulation = Simulation::new();
    let id = simulation.register(RepeatModel::Repetition, TaskOrderType::Order, 1000);
    assert_eq!(simulation.run(2500).len(), 2);
    assert!(simulation.manager.update_task_status_by_id(id, TaskStatus::Destory));
    assert!(simulation.run(6000).is_empty());
    assert!(simulation.residence(id).is_empty());
}

#[test]
fn task_a_minute_and_a_half_away_descends_from_the_minute_wheel() {
    let mut simulation = Simulation::new();
    simulation.run(50_000);
    let target = simulation.now + 90_000;
    let id = simulation.register(RepeatModel::Once, TaskOrderType::Order, target);
    let pointer = simulation.wheel.wheel(Tier::Minute).pointer();
    assert_eq!(simulation.residence(id), vec![(Tier::Minute, pointer + 1)]);
    let mut firings = Vec::new();
    while simulation.residence(id)[0].0 == Tier::Minute {
        assert!(target - simulation.now > 0);
        firings.extend(simulation.turn());
    }
    assert!(firings.is_empty());
    let lag = target - simulation.now;
    assert!(lag < 60_000 && lag > 1000);
    assert_eq!(simulation.residence(id), vec![(Tier::Second, (lag / 1000) as usize)]);
    let firings = simulation.run(target + 1200);
    assert_eq!(firings.len(), 1);
    assert!(firings[0].0 >= target - 100 && firings[0].0 <= target + 1000);
    assert!(simulation.residence(id).is_empty());
}

#[test]
fn task_in_the_second_wheel_descends_to_the_millisecond_wheel_when_it_comes_up_early() {
    let mut simulation = Simulation::new();
    simulation.run(600);
    let target = simulation.now + 2_700;
    let id = simulation.register(RepeatModel::Once, TaskOrderType::Order, target);
    assert_eq!(simulation.residence(id), vec![(Tier::Second, 2)]);
    while simulation.residence(id)[0].0 == Tier::Second {
        assert!(simulation.turn().is_empty());
    }
    assert_eq!(simulation.residence(id)[0].0, Tier::Millisecond);
    let lag = target - simulation.now;
    assert!(lag > 100 && lag <= 1000);
    let firings = simulation.run(target + 200);
    assert_eq!(firings.len(), 1);
    assert!((firings[0].0 - target).abs() <= 100);
}

#[test]
fn a_thousand_disordered_tasks_each_fire_once_a_second() {
    let mut simulation = Simulation::new();
    for _ in 0..1000 {
        simulation.register(RepeatModel::Repetition, TaskOrderType::Disorder, 1000);
    }
    let firings = simulation.run(3200);
    assert_eq!(firings.len(), 3000);
    let mut per_task = vec![0; 1001];
    for (_, dispatch) in &firings {
        per_task[dispatch.task_id] += 1;
    }
    assert!(per_task[1..].iter().all(|&count| count == 3));
}

#[test]
fn update_of_the_firing_instant_is_taken_up_at_the_next_harvest() {
    let mut simulation = Simulation::new();
    let id = simulation.register(RepeatModel::Repetition, TaskOrderType::Order, 1000);
    let minute = CronSchedule::parse("0 0/1 * * * ?").unwrap();
    assert!(simulation.manager.retune_task(id, minute, Some(60_000)));
    assert!(simulation.run(59_800).is_empty());
    let firings = simulation.run(60_200);
    assert_eq!(firings.len(), 1);
}

#[test]
fn no_task_fires_twice_in_a_tick_that_turns_every_ring() {
    let mut simulation = Simulation::new();
    for target in [0, 50, 100, 900, 1_500, 59_000, 61_000, 3_599_000, 3_700_000] {
        simulation.register(RepeatModel::Repetition, TaskOrderType::Order, target);
    }
    simulation.now = 3_600_000 - TICK as i64;
    simulation.wheel.advance(3_600_000);
    let fired = simulation.turn();
    let mut per_task = vec![0; 10];
    for dispatch in &fired {
        per_task[dispatch.task_id] += 1;
    }
    assert!(per_task.iter().all(|&count| count <= 1));
    for id in 1..=9 {
        assert_eq!(simulation.residence(id).len(), 1);
    }
}

#[test]
fn task_without_a_record_never_fires() {
    let mut simulation = Simulation::new();
    let id = simulation.register(RepeatModel::Once, TaskOrderType::Order, 1000);
    assert_eq!(simulation.run(1200).len(), 1);
    assert!(simulation.residence(id).is_empty());
    assert!(simulation.manager.knows(id));
    assert!(simulation.run(10_000).is_empty());
}
