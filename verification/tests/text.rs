use ttd::activity::{char_allowed, clone_all, contains, same_all, Activity};
use ttd::event::{clone_option, parse_event_in, parse_record_in, same_option, Event, ParseError};
use ttd::ipc::{IpcRequest, IpcResponse, Status};
use ttd::text::{
    digit_of, digit_to_char, find, parse_i64, push_decimal, push_signed, spells, to_chars,
    to_string,
};

fn activity(name: &str) -> Activity {
    Activity::new(name.to_string()).unwrap()
}

#[test]
fn characters_of_a_string_and_back() {
    let chars = to_chars("a\u{e9}\u{4eac}!");
    assert_eq!(chars, vec!['a', '\u{e9}', '\u{4eac}', '!']);
    assert_eq!(to_string(&chars, 0, 4), "a\u{e9}\u{4eac}!");
    assert_eq!(to_string(&chars, 1, 3), "\u{e9}\u{4eac}");
    assert_eq!(to_string(&chars, 2, 2), "");
    assert!(to_chars("").is_empty());
}

#[test]
fn digits() {
    assert_eq!(digit_of('0'), Some(0));
    assert_eq!(digit_of('9'), Some(9));
    assert_eq!(digit_of('/'), None);
    assert_eq!(digit_of(':'), None);
    assert_eq!(digit_of('\u{663}'), None);
    assert_eq!(digit_to_char(0), '0');
    assert_eq!(digit_to_char(7), '7');
    assert_eq!(digit_to_char(9), '9');
}

#[test]
fn numbers_in_decimal() {
    let mut out = String::from("n=");
    push_decimal(&mut out, 0);
    out.push(',');
    push_decimal(&mut out, 1234567890);
    out.push(',');
    push_decimal(&mut out, u64::MAX);
    assert_eq!(out, "n=0,1234567890,18446744073709551615");
    let mut signed = String::new();
    push_signed(&mut signed, -1);
    signed.push(' ');
    push_signed(&mut signed, i64::MIN);
    signed.push(' ');
    push_signed(&mut signed, i64::MAX);
    assert_eq!(signed, "-1 -9223372036854775808 9223372036854775807");
}

#[test]
fn numbers_read_from_a_range() {
    let chars = to_chars("ab-120cd");
    assert_eq!(parse_i64(&chars, 2, 6), Some(-120));
    assert_eq!(parse_i64(&chars, 3, 6), Some(120));
    assert_eq!(parse_i64(&chars, 2, 3), None);
    assert_eq!(parse_i64(&chars, 3, 3), None);
    assert_eq!(parse_i64(&chars, 1, 6), None);
    assert_eq!(parse_i64(&chars, 3, 7), None);
    let long = to_chars("00000000000000000000000000042");
    assert_eq!(parse_i64(&long, 0, long.len()), Some(42));
    let big = to_chars("92233720368547758070");
    assert_eq!(parse_i64(&big, 0, big.len()), None);
}

#[test]
fn first_occurrence_and_spelling() {
    let chars = to_chars("12 A work");
    assert_eq!(find(&chars, 0, chars.len(), ' '), 2);
    assert_eq!(find(&chars, 3, chars.len(), ' '), 4);
    assert_eq!(find(&chars, 5, chars.len(), ' '), chars.len());
    assert_eq!(find(&chars, 0, 2, ' '), 2);
    assert!(spells(&chars, 5, 9, "work"));
    assert!(!spells(&chars, 5, 9, "worm"));
    assert!(!spells(&chars, 5, 8, "work"));
    assert!(spells(&chars, 4, 4, ""));
}

#[test]
fn characters_of_an_identifier() {
    assert!(char_allowed('x', true));
    assert!(char_allowed('_', false));
    assert!(char_allowed('-', false));
    assert!(char_allowed(':', false));
    assert!(!char_allowed(' ', false));
    assert!(!char_allowed('.', false));
}

#[test]
fn order_of_identifiers() {
    assert!(activity("a").precedes(&activity("b")));
    assert!(!activity("b").precedes(&activity("a")));
    assert!(!activity("a").precedes(&activity("a")));
    assert!(activity("a").precedes(&activity("ab")));
    assert!(!activity("ab").precedes(&activity("a")));
    assert!(activity("Z").precedes(&activity("a")));
    assert!(activity("z").precedes(&activity("\u{e9}")));
    assert!(activity("ab").precedes(&activity("b")));
}

#[test]
fn lists_of_activities() {
    let list = vec![activity("work"), activity("break")];
    let copy = clone_all(&list);
    assert!(same_all(&list, &copy));
    assert!(!same_all(&list, &vec![activity("work")]));
    assert!(!same_all(&list, &vec![activity("break"), activity("work")]));
    assert!(contains(&list, &activity("break")));
    assert!(!contains(&list, &activity("golf")));
    assert!(!contains(&Vec::new(), &activity("work")));
}

#[test]
fn optional_activities() {
    let some = Some(activity("work"));
    assert!(same_option(&some, &clone_option(&some)));
    assert!(same_option(&None, &clone_option(&None)));
    assert!(!same_option(&some, &None));
    assert!(!same_option(&some, &Some(activity("break"))));
}

#[test]
fn events_read_from_a_range() {
    let chars = to_chars("[12 A work]");
    assert!(
        parse_event_in(&chars, 4, 10).unwrap() == Event::SwitchActivity(Some(activity("work")))
    );
    assert_eq!(parse_event_in(&chars, 4, 5).unwrap_err(), ParseError::MissingData);
    let record = parse_record_in(&chars, 1, 10).unwrap();
    assert_eq!(record.timestamp, 12);
    assert!(record.event == Event::SwitchActivity(Some(activity("work"))));
    assert_eq!(parse_record_in(&chars, 0, 10).unwrap_err(), ParseError::InvalidTimestamp);
    assert_eq!(parse_record_in(&chars, 1, 11).unwrap_err(), ParseError::InvalidActivity);
}

#[test]
fn copies_are_equal() {
    let request = IpcRequest::Switch(Some(activity("work")));
    assert!(request.clone() == request);
    assert!(request != IpcRequest::Switch(None));
    assert!(IpcRequest::Status != IpcRequest::GetActivities);
    let response = IpcResponse::Activities(vec![activity("work")]);
    assert!(response.clone() == response);
    assert!(response != IpcResponse::Empty);
    let status = Status::new(Some(activity("work")), 5);
    assert!(status.clone() == status);
    assert!(status != Status::new(Some(activity("work")), 6));
    assert!(status != Status::new(None, 5));
    let event = Event::SwitchActivity(Some(activity("work")));
    assert!(event.clone() == event);
    assert!(event != Event::Power(true));
}
