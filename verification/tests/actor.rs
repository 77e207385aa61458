use lynn_sundial::calendar::CronSchedule;
use lynn_sundial::task::RepeatModel;
use lynn_sundial::task_actor::{SignalReply, TaskActor, TaskSignal};

fn every_second() -> CronSchedule {
    CronSchedule::parse("0/1 * * * * ?").unwrap()
}

fn gone_by() -> CronSchedule {
    CronSchedule::parse("0 0 0 1 1 ? 2000").unwrap()
}

#[test]
fn actor_keeps_what_it_was_made_with() {
    let actor = TaskActor::new(every_second(), RepeatModel::Times(4), 12_000);
    assert_eq!(actor.get_target_date_time(), 12_000);
    assert_eq!(actor.get_repeat_model(), RepeatModel::Times(4));
}

#[test]
fn actor_counts_firings() {
    let mut actor = TaskActor::new(every_second(), RepeatModel::Times(2), 0);
    assert!(actor.tick_repeat_model());
    assert_eq!(actor.get_repeat_model(), RepeatModel::Times(1));
    assert!(!actor.tick_repeat_model());
    assert_eq!(actor.get_repeat_model(), RepeatModel::Times(0));
}

#[test]
fn actor_takes_a_new_target() {
    let mut actor = TaskActor::new(every_second(), RepeatModel::Once, 5);
    actor.set_target_date_time(77);
    assert_eq!(actor.get_target_date_time(), 77);
}

#[test]
fn retune_moves_the_target_to_the_next_instant() {
    let mut actor = TaskActor::new(every_second(), RepeatModel::Repetition, 5);
    actor.retune(gone_by(), Some(9_000));
    assert_eq!(actor.get_target_date_time(), 9_000);
    assert_eq!(actor.get_repeat_model(), RepeatModel::Repetition);
}

#[test]
fn retune_without_a_next_instant_keeps_the_target() {
    let mut actor = TaskActor::new(every_second(), RepeatModel::Repetition, 5);
    actor.retune(gone_by(), None);
    assert_eq!(actor.get_target_date_time(), 5);
    assert_eq!(actor.get_next_datetime(), None);
}

#[test]
fn signal_get_handle_asks_for_the_handler() {
    let mut actor = TaskActor::new(every_second(), RepeatModel::Once, 5);
    assert!(matches!(actor.handle_signal(TaskSignal::GetHandle), SignalReply::Handle));
}

#[test]
fn signal_run_handle_asks_for_a_run() {
    let mut actor = TaskActor::new(every_second(), RepeatModel::Once, 5);
    assert!(matches!(actor.handle_signal(TaskSignal::RunHandle), SignalReply::Run));
    assert_eq!(actor.get_repeat_model(), RepeatModel::Once);
    assert_eq!(actor.get_target_date_time(), 5);
}

#[test]
fn signal_get_next_datetime_answers_from_the_schedule() {
    let mut actor = TaskActor::new(every_second(), RepeatModel::Once, 5);
    assert!(matches!(
        actor.handle_signal(TaskSignal::GetNextDatetime),
        SignalReply::NextDatetime(Some(_))
    ));
    let mut exhausted = TaskActor::new(gone_by(), RepeatModel::Once, 5);
    assert!(matches!(
        exhausted.handle_signal(TaskSignal::GetNextDatetime),
        SignalReply::NextDatetime(None)
    ));
}

#[test]
fn signal_tick_repeat_model_counts_a_firing() {
    let mut actor = TaskActor::new(every_second(), RepeatModel::Times(2), 5);
    assert!(matches!(actor.handle_signal(TaskSignal::TickRepeatModel), SignalReply::Repeat(true)));
    assert!(matches!(actor.handle_signal(TaskSignal::TickRepeatModel), SignalReply::Repeat(false)));
}

#[test]
fn signal_set_and_get_target() {
    let mut actor = TaskActor::new(every_second(), RepeatModel::Once, 5);
    assert!(matches!(actor.handle_signal(TaskSignal::SetTargetDateTime(42)), SignalReply::Done));
    assert!(matches!(actor.handle_signal(TaskSignal::GetTargetDateTime), SignalReply::Target(42)));
}

#[test]
fn signal_destroy_and_pause_end_the_loop() {
    let mut actor = TaskActor::new(every_second(), RepeatModel::Once, 5);
    assert!(matches!(actor.handle_signal(TaskSignal::Pause), SignalReply::Parked));
    assert!(matches!(actor.handle_signal(TaskSignal::Destory), SignalReply::Stopped));
    assert_eq!(actor.get_target_date_time(), 5);
}

#[test]
fn signal_update_cron_replaces_the_schedule() {
    let mut actor = TaskActor::new(every_second(), RepeatModel::Repetition, 5);
    assert!(matches!(actor.handle_signal(TaskSignal::UpdateCron(gone_by())), SignalReply::Done));
    assert_eq!(actor.get_next_datetime(), None);
    assert_eq!(actor.get_target_date_time(), 5);
    assert!(matches!(
        actor.handle_signal(TaskSignal::UpdateCron(every_second())),
        SignalReply::Done
    ));
    assert_eq!(actor.get_target_date_time() % 1000, 0);
    assert!(actor.get_target_date_time() > 5);
}

#[test]
fn actor_names_whole_seconds() {
    for expression in ["0/1 * * * * ?", "0 0/1 * * * ?", "30 15 10 * * ?"] {
        let schedule = CronSchedule::parse(expression).unwrap();
        let actor = TaskActor::new(schedule, RepeatModel::Repetition, 0);
        let next = actor.get_next_datetime().expect("an instant to come");
        assert_eq!(next % 1000, 0);
    }
}
