//! The cron calendar and the wall clock.
//!
//! Parsing an expression and asking a schedule for its next instant are the
//! cron parser's work, reading the time is the clock's. The items marked
//! `external_body` here are believed, not proved.
use crate::error::SchedulerError;
use vstd::prelude::*;

verus! {

/// `cron::Schedule`, a parsed cron expression. Nothing is known of what is
/// inside it.
#[verifier::external_type_specification]
#[verifier::external_body]
pub struct ExSchedule(cron::Schedule);

/// `cron::error::Error`, what the cron parser fails with. Nothing is known
/// of what is inside it.
#[verifier::external_type_specification]
#[verifier::external_body]
pub struct ExCronError(cron::error::Error);

/// Whether the cron parser accepts `expression`.
pub uninterp spec fn cron_accepts(expression: Seq<char>) -> bool;

/// The expression that a schedule was parsed from: what
/// `cron::Schedule::source` gives.
pub uninterp spec fn schedule_text(schedule: cron::Schedule) -> Seq<char>;

/// Calls `cron::Schedule::from_str`. The parser's verdict depends on the text
/// alone, so it has a name: the call succeeds exactly on the expressions that
/// `cron_accepts` holds of. The schedule that comes back keeps the expression
/// as its source, letter for letter.
#[verifier::external_body]
fn parse_expression(expression: &str) -> (parsed: Result<cron::Schedule, cron::error::Error>)
    ensures
        parsed is Ok <==> cron_accepts(expression@),
        parsed matches Ok(schedule) ==> schedule_text(schedule) == expression@,
{
    std::str::FromStr::from_str(expression)
}

/// Whether an answer of a schedule, if it names an instant, names a whole
/// second: a cron expression has no finer field than that of the seconds.
pub open spec fn on_the_second(next: Option<i64>) -> bool {
    next matches Some(instant) ==> instant % 1000 == 0
}

/// Whether each of the answers names a whole second, if it names an instant.
pub open spec fn all_on_the_second(nexts: Seq<Option<i64>>) -> bool {
    forall|i: int| 0 <= i < nexts.len() ==> on_the_second(#[trigger] nexts[i])
}

/// Calls `cron::Schedule::upcoming` with the local time zone and takes the
/// first instant of the iterator, in milliseconds since the Unix epoch.
///
/// Which instant comes, and whether one comes, depends on the clock and on
/// the machine's time zone, so that has no name and is not claimed. What is
/// claimed holds of every answer: the parser builds each instant from a
/// year, a month, a day, an hour, a minute and a second, with no fraction,
/// so an instant that is named is a whole second. The call reads the clock
/// as `now_millis` does.
#[verifier::external_body]
fn first_upcoming(schedule: &cron::Schedule) -> (next: Option<i64>)
    ensures
        on_the_second(next),
{
    match schedule.upcoming(chrono::Local).next() {
        Some(instant) => Some(instant.timestamp_millis()),
        None => None,
    }
}

/// Calls `chrono::Local::now` and gives the instant in milliseconds since the
/// Unix epoch. Nothing is claimed of a clock reading. The call takes no
/// argument, so no argument can make it fail; it does not return on a
/// machine whose clock is set to a time before the epoch.
#[verifier::external_body]
pub(crate) fn now_millis() -> (now: i64) {
    chrono::Local::now().timestamp_millis()
}

/// A parsed cron expression.
pub struct CronSchedule {
    schedule: cron::Schedule,
}

impl View for CronSchedule {
    type V = Seq<char>;

    /// The expression that the schedule was parsed from.
    closed spec fn view(&self) -> Seq<char> {
        schedule_text(self.schedule)
    }
}

impl CronSchedule {
    /// Parses `expression`. Fails with `CronParse` exactly when the cron
    /// parser does not accept it.
    pub fn parse(expression: &str) -> (parsed: Result<CronSchedule, SchedulerError>)
        ensures
            cron_accepts(expression@) ==> parsed is Ok && parsed->Ok_0@ == expression@,
            !cron_accepts(expression@) ==> parsed == Err::<CronSchedule, SchedulerError>(
                SchedulerError::CronParse,
            ),
    {
        match parse_expression(expression) {
            Ok(schedule) => Ok(CronSchedule { schedule }),
            Err(_) => Err(SchedulerError::CronParse),
        }
    }

    /// The first instant of the schedule after the present moment, if it has
    /// one. Two calls may differ: the clock moves between them. Whatever the
    /// clock reads, an instant that is named is a whole second.
    pub fn upcoming(&self) -> (next: Option<i64>)
        ensures
            on_the_second(next),
    {
        first_upcoming(&self.schedule)
    }
}

} // verus!
