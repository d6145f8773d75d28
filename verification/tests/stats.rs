use ttd::log::replay;
use ttd::stats::aggregate;
use ttd::{Event, TimedEvent};

#[test]
fn one_closed_interval_and_one_left_open() {
    let events = replay("100 P on\n200 A work\n260 A break\n9999999 P off\n").unwrap();
    let stats = aggregate(&events, 0, 10000000).unwrap();
    assert_eq!(stats.intervals.len(), 1);
    let i = &stats.intervals[0];
    assert_eq!((i.start, i.end, i.activity.as_str(), i.duration), (200, 260, "work", 60));
    assert_eq!(stats.totals.len(), 1);
    assert_eq!(stats.totals[0].activity.as_str(), "work");
    assert_eq!(stats.totals[0].seconds, 60);
}

#[test]
fn power_off_forgets_the_running_activity() {
    let events = replay("10 A work\n20 P off\n30 A work\n40 A break\n").unwrap();
    let stats = aggregate(&events, 0, 86399).unwrap();
    assert_eq!(stats.intervals.len(), 1);
    let i = &stats.intervals[0];
    assert_eq!((i.start, i.end, i.activity.as_str(), i.duration), (30, 40, "work", 10));
    assert_eq!(stats.totals.len(), 1);
    assert_eq!(stats.totals[0].activity.as_str(), "work");
    assert_eq!(stats.totals[0].seconds, 10);
}

#[test]
fn power_on_keeps_the_running_activity() {
    let events = replay("10 A work\n20 P on\n30 A -\n").unwrap();
    let stats = aggregate(&events, 0, 100).unwrap();
    assert_eq!(stats.intervals.len(), 1);
    assert_eq!(stats.intervals[0].duration, 20);
}

#[test]
fn events_outside_the_window_are_passed_over() {
    let events = replay("10 A work\n100 A play\n150 A -\n200 A work\n300 A -\n").unwrap();
    let stats = aggregate(&events, 100, 200).unwrap();
    assert_eq!(stats.intervals.len(), 1);
    let i = &stats.intervals[0];
    assert_eq!((i.start, i.end, i.activity.as_str(), i.duration), (100, 150, "play", 50));
    assert_eq!(stats.totals.len(), 1);
    let inclusive = aggregate(&events, 10, 100).unwrap();
    assert_eq!(inclusive.intervals.len(), 1);
    assert_eq!(inclusive.intervals[0].duration, 90);
}

#[test]
fn switch_to_none_opens_nothing() {
    let events = replay("10 A -\n20 A work\n30 A -\n40 A work\n").unwrap();
    let stats = aggregate(&events, 0, 100).unwrap();
    assert_eq!(stats.intervals.len(), 1);
    assert_eq!(stats.intervals[0].start, 20);
    assert_eq!(stats.intervals[0].end, 30);
}

#[test]
fn totals_add_up_and_stand_in_order_of_identifier() {
    let events =
        replay("0 A work\n10 A break\n15 A work\n35 A admin\n36 A Zeta\n40 A -\n").unwrap();
    let stats = aggregate(&events, 0, 100).unwrap();
    assert_eq!(stats.intervals.len(), 5);
    let totals: Vec<(&str, i64)> =
        stats.totals.iter().map(|t| (t.activity.as_str(), t.seconds)).collect();
    assert_eq!(totals, vec![("Zeta", 4), ("admin", 1), ("break", 5), ("work", 30)]);
}

#[test]
fn a_clock_set_back_gives_a_negative_duration() {
    let events = replay("100 A work\n40 A -\n").unwrap();
    let stats = aggregate(&events, 0, 200).unwrap();
    assert_eq!(stats.intervals[0].duration, -60);
    assert_eq!(stats.totals[0].seconds, -60);
}

#[test]
fn no_events_no_stats() {
    let stats = aggregate(&Vec::new(), 0, 100).unwrap();
    assert!(stats.intervals.is_empty());
    assert!(stats.totals.is_empty());
}

#[test]
fn a_duration_out_of_range_stops_the_replay() {
    let work = ttd::Activity::new("work".to_string()).unwrap();
    let events = vec![
        TimedEvent { timestamp: i64::MIN, event: Event::SwitchActivity(Some(work)) },
        TimedEvent { timestamp: 0, event: Event::Power(true) },
        TimedEvent { timestamp: i64::MAX, event: Event::SwitchActivity(None) },
    ];
    let err = aggregate(&events, i64::MIN, i64::MAX).unwrap_err();
    assert_eq!(err.index, 2);
}

#[test]
fn a_total_out_of_range_stops_the_replay() {
    let events = replay(
        "0 A work\n9223372036854775807 A -\n0 A work\n9223372036854775807 A -\n",
    )
    .unwrap();
    let err = aggregate(&events, 0, i64::MAX).unwrap_err();
    assert_eq!(err.index, 3);
}

#[test]
fn lines_of_the_report() {
    let events = replay("0 A work\n3725 A break\n3785 A -\n").unwrap();
    let stats = aggregate(&events, 0, 86399).unwrap();
    assert_eq!(
        ttd::report::interval_line("00:00:00", "01:02:05", &stats.intervals[0]),
        "00:00:00 - 01:02:05\twork\t1h 2m 5s"
    );
    assert_eq!(ttd::report::total_line(&stats.totals[0]), "break\t1m");
    assert_eq!(ttd::report::total_line(&stats.totals[1]), "work\t1h 2m 5s");
    let work = ttd::Activity::new("work".to_string()).unwrap();
    assert_eq!(ttd::report::total_line_with(&work, "long"), "work\tlong");
    assert_eq!(
        ttd::report::interval_line_with("a", "b", &work, "long"),
        "a - b\twork\tlong"
    );
    assert_eq!(ttd::report::INTERVALS_HEADING, "Activities today:");
    assert_eq!(ttd::report::TOTALS_HEADING, "Activity totals for today:");
}

#[test]
fn a_negative_duration_is_shown_as_past() {
    let events = replay("100 A work\n40 A -\n").unwrap();
    let stats = aggregate(&events, 0, 200).unwrap();
    assert_eq!(ttd::report::total_line(&stats.totals[0]), "work\t1m ago");
}
