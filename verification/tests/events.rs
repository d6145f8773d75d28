use ttd::activity::Activity;
use ttd::event::{Event, ParseError, TimedEvent};

#[test]
fn activity_accepts_allowed_characters() {
    assert!(Activity::new("work".to_string()).is_ok());
    assert!(Activity::new("deep_work-2:home".to_string()).is_ok());
    assert!(Activity::new("caf\u{e9}".to_string()).is_ok());
    assert!(Activity::new("\u{663}".to_string()).is_ok());
    assert!(Activity::new("-".to_string()).is_ok());
    assert_eq!(Activity::new("a:b".to_string()).unwrap().as_str(), "a:b");
}

#[test]
fn activity_rejects_other_characters() {
    assert!(Activity::new(String::new()).is_err());
    assert!(Activity::new("two words".to_string()).is_err());
    assert!(Activity::new("a/b".to_string()).is_err());
    assert!(Activity::new("line\nbreak".to_string()).is_err());
    assert!(Activity::new("\u{1f49d}".to_string()).is_err());
    let err = Activity::new("a b".to_string()).unwrap_err();
    assert_eq!(err.key, "a b");
}

#[test]
fn event_text_of_each_shape() {
    assert_eq!(Event::Power(true).to_string(), "P on");
    assert_eq!(Event::Power(false).to_string(), "P off");
    assert_eq!(Event::SwitchActivity(None).to_string(), "A -");
    let work = Activity::new("work".to_string()).unwrap();
    assert_eq!(Event::SwitchActivity(Some(work)).to_string(), "A work");
}

#[test]
fn event_round_trip_of_each_shape() {
    let work = Activity::new("work".to_string()).unwrap();
    let shapes = vec![
        Event::Power(true),
        Event::Power(false),
        Event::SwitchActivity(None),
        Event::SwitchActivity(Some(work)),
    ];
    for e in shapes {
        let back = Event::from_str(&e.to_string()).unwrap();
        assert!(back == e);
    }
}

#[test]
fn record_round_trip() {
    let work = Activity::new("work".to_string()).unwrap();
    let t = TimedEvent { timestamp: -42, event: Event::SwitchActivity(Some(work)) };
    assert_eq!(t.to_string(), "-42 A work");
    let back = TimedEvent::from_str("-42 A work").unwrap();
    assert!(back == t);
    let min = TimedEvent { timestamp: i64::MIN, event: Event::Power(true) };
    assert_eq!(min.to_string(), "-9223372036854775808 P on");
    assert!(TimedEvent::from_str(&min.to_string()).unwrap() == min);
}

#[test]
fn record_errors() {
    assert_eq!(TimedEvent::from_str("100").unwrap_err(), ParseError::MissingEvent);
    assert_eq!(TimedEvent::from_str("x P on").unwrap_err(), ParseError::InvalidTimestamp);
    assert_eq!(
        TimedEvent::from_str("9223372036854775808 P on").unwrap_err(),
        ParseError::InvalidTimestamp
    );
    assert_eq!(TimedEvent::from_str("100 P").unwrap_err(), ParseError::MissingData);
    assert_eq!(TimedEvent::from_str("100 P up").unwrap_err(), ParseError::InvalidPowerState);
    assert_eq!(TimedEvent::from_str("100 A a b").unwrap_err(), ParseError::InvalidActivity);
    assert_eq!(TimedEvent::from_str("100 X on").unwrap_err(), ParseError::InvalidKind);
}
