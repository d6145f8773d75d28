//! The lines in which the client shows the statistics of a day.

use vstd::prelude::*;
use crate::activity::Activity;
use crate::stats::{Interval, Total};

verus! {

/// The text that `SignedDuration` of the crate `jiff` shows for `seconds`
/// whole seconds in its friendly format, the one that `{:#}` asks for.
pub uninterp spec fn friendly_text(seconds: int) -> Seq<char>;

/// Formats `SignedDuration::new(seconds, 0)` of the crate `jiff` with
/// `{:#}`. Taken on trust: the text depends on the number alone.
#[verifier::external_body]
fn friendly_duration(seconds: i64) -> (text: String)
    ensures
        text@ == friendly_text(seconds as int),
{
    format!("{:#}", jiff::SignedDuration::new(seconds, 0))
}

/// What stands above the intervals.
pub const INTERVALS_HEADING: &'static str = "Activities today:";

/// What stands above the totals, after an empty line.
pub const TOTALS_HEADING: &'static str = "Activity totals for today:";

/// The line of a total: the identifier, a tab, and how long it lasted.
pub open spec fn total_text(name: Seq<char>, lasted: Seq<char>) -> Seq<char> {
    name + seq!['\t'] + lasted
}

/// The line of an interval: when it began, ` - `, when it ended, then after
/// a tab each the identifier and how long it lasted.
pub open spec fn interval_text(
    from: Seq<char>,
    to: Seq<char>,
    name: Seq<char>,
    lasted: Seq<char>,
) -> Seq<char> {
    from + seq![' ', '-', ' '] + to + seq!['\t'] + total_text(name, lasted)
}

/// The line of a total, from the text of its duration.
pub fn total_line_with(activity: &Activity, lasted: &str) -> (line: String)
    ensures
        line@ == total_text(activity@, lasted@),
{
    let mut line = activity.to_string();
    line.push('\t');
    line.append(lasted);
    proof {
        assert(line@ =~= total_text(activity@, lasted@));
    }
    line
}

/// The line of an interval, from the times of day at which it began and
/// ended and the text of its duration.
pub fn interval_line_with(from: &str, to: &str, activity: &Activity, lasted: &str) -> (line:
    String)
    ensures
        line@ == interval_text(from@, to@, activity@, lasted@),
{
    let mut line = String::from_str(from);
    line.append(" - ");
    line.append(to);
    line.push('\t');
    line.append(total_line_with(activity, lasted).as_str());
    proof {
        reveal_strlit(" - ");
        assert(" - "@ =~= seq![' ', '-', ' ']);
        assert(line@ =~= interval_text(from@, to@, activity@, lasted@));
    }
    line
}

/// The line that shows a total, with its duration in the friendly format.
pub fn total_line(total: &Total) -> (line: String)
    ensures
        line@ == total_text(total.activity@, friendly_text(total.seconds as int)),
{
    let lasted = friendly_duration(total.seconds);
    total_line_with(&total.activity, lasted.as_str())
}

/// The line that shows an interval that began at the time of day `from`
/// and ended at the time of day `to`, with its duration in the friendly
/// format.
pub fn interval_line(from: &str, to: &str, interval: &Interval) -> (line: String)
    ensures
        line@ == interval_text(
            from@,
            to@,
            interval.activity@,
            friendly_text(interval.duration as int),
        ),
{
    let lasted = friendly_duration(interval.duration);
    interval_line_with(from, to, &interval.activity, lasted.as_str())
}

} // verus!
