use ttd::event::{Event, ParseError, TimedEvent};
use ttd::log::{record_line, replay, ActivityLog, ActivityRead, ReplayError};
use ttd::Activity;

fn activity(name: &str) -> Activity {
    Activity::new(name.to_string()).unwrap()
}

#[test]
fn record_line_ends_with_line_feed() {
    assert_eq!(record_line(100, &Event::Power(true)), "100 P on\n");
    assert_eq!(record_line(0, &Event::SwitchActivity(None)), "0 A -\n");
    assert_eq!(
        record_line(u64::MAX, &Event::SwitchActivity(Some(activity("work")))),
        "18446744073709551615 A work\n"
    );
}

#[test]
fn log_opens_with_power_on_and_closes_with_power_off_once() {
    let (mut log, first) = ActivityLog::load(7);
    assert_eq!(first, "7 P on\n");
    assert!(!log.closed());
    let line = log.log(&Event::SwitchActivity(Some(activity("work"))), 8);
    assert_eq!(line, Some("8 A work\n".to_string()));
    assert_eq!(log.close(9), Some("9 P off\n".to_string()));
    assert!(log.closed());
    assert_eq!(log.close(10), None);
    assert_eq!(log.log(&Event::Power(true), 11), None);
}

#[test]
fn replay_reads_every_line_in_order() {
    let events = replay("100 P on\n200 A work\n260 A -\n300 P off\n").unwrap();
    assert_eq!(events.len(), 4);
    assert!(events[0] == TimedEvent { timestamp: 100, event: Event::Power(true) });
    assert!(
        events[1]
            == TimedEvent { timestamp: 200, event: Event::SwitchActivity(Some(activity("work"))) }
    );
    assert!(events[2] == TimedEvent { timestamp: 260, event: Event::SwitchActivity(None) });
    assert!(events[3] == TimedEvent { timestamp: 300, event: Event::Power(false) });
}

#[test]
fn replay_of_nothing_is_empty() {
    assert_eq!(replay("").unwrap().len(), 0);
}

#[test]
fn replay_takes_a_last_line_without_line_feed() {
    let events = replay("1 P on\n2 P off").unwrap();
    assert_eq!(events.len(), 2);
    assert!(events[1] == TimedEvent { timestamp: 2, event: Event::Power(false) });
}

#[test]
fn replay_drops_carriage_return_before_line_feed_only() {
    let events = replay("1 P on\r\n2 A work\r\n").unwrap();
    assert_eq!(events.len(), 2);
    assert!(
        events[1]
            == TimedEvent { timestamp: 2, event: Event::SwitchActivity(Some(activity("work"))) }
    );
    assert_eq!(
        replay("1 P on\r").unwrap_err(),
        ReplayError { line: 1, error: ParseError::InvalidPowerState }
    );
}

#[test]
fn replay_names_the_first_line_it_cannot_read() {
    assert_eq!(
        replay("1 P on\n2 A work\nnonsense\n4 X y\n").unwrap_err(),
        ReplayError { line: 3, error: ParseError::MissingEvent }
    );
    assert_eq!(
        replay("1 P on\n\n3 P off\n").unwrap_err(),
        ReplayError { line: 2, error: ParseError::MissingEvent }
    );
    assert_eq!(
        replay("1 P on\n2 A two words\n").unwrap_err(),
        ReplayError { line: 2, error: ParseError::InvalidActivity }
    );
}

#[test]
fn what_was_logged_replays() {
    let (mut log, first) = ActivityLog::load(100);
    let mut text = first;
    text.push_str(&log.log(&Event::SwitchActivity(Some(activity("work"))), 200).unwrap());
    text.push_str(&log.log(&Event::SwitchActivity(None), 260).unwrap());
    text.push_str(&log.close(300).unwrap());
    assert_eq!(text, "100 P on\n200 A work\n260 A -\n300 P off\n");
    let events = ActivityRead::load(text).read().unwrap();
    assert_eq!(events.len(), 4);
    assert!(events[3] == TimedEvent { timestamp: 300, event: Event::Power(false) });
}

#[test]
fn switch_to_the_activity_named_dash_reads_as_switch_to_none() {
    let dash = activity("-");
    let text = Event::SwitchActivity(Some(dash)).to_string();
    assert_eq!(text, "A -");
    assert!(Event::from_str(&text).unwrap() == Event::SwitchActivity(None));
}

#[test]
fn timestamps_take_a_sign_and_leading_zeros() {
    assert_eq!(TimedEvent::from_str("+5 P on").unwrap().timestamp, 5);
    assert_eq!(TimedEvent::from_str("-0 P on").unwrap().timestamp, 0);
    assert_eq!(TimedEvent::from_str("007 P on").unwrap().timestamp, 7);
    assert_eq!(
        TimedEvent::from_str("9223372036854775807 P on").unwrap().timestamp,
        i64::MAX
    );
    assert_eq!(
        TimedEvent::from_str("-9223372036854775808 P on").unwrap().timestamp,
        i64::MIN
    );
    assert_eq!(
        TimedEvent::from_str("-9223372036854775809 P on").unwrap_err(),
        ParseError::InvalidTimestamp
    );
    assert_eq!(TimedEvent::from_str("- P on").unwrap_err(), ParseError::InvalidTimestamp);
    assert_eq!(TimedEvent::from_str(" P on").unwrap_err(), ParseError::InvalidTimestamp);
    assert_eq!(TimedEvent::from_str("1_0 P on").unwrap_err(), ParseError::InvalidTimestamp);
}
