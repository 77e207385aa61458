use lynn_sundial::calendar::CronSchedule;
use lynn_sundial::error::SchedulerError;

#[test]
fn every_second_expression_is_accepted() {
    assert!(CronSchedule::parse("0/1 * * * * ?").is_ok());
}

#[test]
fn every_minute_expression_is_accepted() {
    assert!(CronSchedule::parse("0 0/1 * * * ?").is_ok());
}

#[test]
fn seven_field_expression_is_accepted() {
    assert!(CronSchedule::parse("0 30 9 * * Mon-Fri *").is_ok());
}

#[test]
fn text_that_is_no_expression_is_refused() {
    assert_eq!(CronSchedule::parse("not a cron").err(), Some(SchedulerError::CronParse));
}

#[test]
fn empty_text_is_refused() {
    assert_eq!(CronSchedule::parse("").err(), Some(SchedulerError::CronParse));
}

#[test]
fn field_out_of_range_is_refused() {
    assert_eq!(CronSchedule::parse("61 * * * * ?").err(), Some(SchedulerError::CronParse));
}

#[test]
fn every_second_schedule_names_an_instant_within_the_next_second() {
    let schedule = CronSchedule::parse("0/1 * * * * ?").unwrap();
    let before = chrono::Local::now().timestamp_millis();
    let next = schedule.upcoming().expect("an instant to come");
    let after = chrono::Local::now().timestamp_millis();
    assert_eq!(next % 1000, 0);
    assert!(next > before - 1000);
    assert!(next <= after + 1000);
}

#[test]
fn schedule_of_a_year_gone_by_names_no_instant() {
    let schedule = CronSchedule::parse("0 0 0 1 1 ? 2000").unwrap();
    assert_eq!(schedule.upcoming(), None);
}
