use ttd::client::{output_for, request_for, Command, Output};
use ttd::ipc::{format_duration, IpcRequest, IpcResponse, Status};
use ttd::paths::{activity_daemon_socket, socket_path, ACTIVITY_DAEMON_NAME, APP_NAME};
use ttd::presence::{classify, is_input_device, InputEvent, InputKind, Presence};
use ttd::{Activity, ActivityMessage};

fn activity(name: &str) -> Activity {
    Activity::new(name.to_string()).unwrap()
}

fn lines(out: Output) -> Vec<String> {
    match out {
        Output::Lines(lines) => lines,
        other => panic!("lines expected, not {:?}", other),
    }
}

fn duration(seconds: u64) -> String {
    let mut out = String::new();
    format_duration(&mut out, seconds);
    out
}

#[test]
fn duration_text() {
    assert_eq!(duration(0), "00:00");
    assert_eq!(duration(59), "00:59");
    assert_eq!(duration(60), "01:00");
    assert_eq!(duration(3599), "59:59");
    assert_eq!(duration(3600), "01:00:00");
    assert_eq!(duration(86399), "23:59:59");
    assert_eq!(duration(86400), "1d 00:00");
    assert_eq!(duration(86400 + 3600 * 4 + 60 * 5 + 6), "1d 04:05:06");
    assert_eq!(duration(86400 * 12 + 61), "12d 01:01");
    assert_eq!(duration(u64::MAX), "213503982334601d 07:00:15");
}

#[test]
fn duration_is_appended() {
    let mut out = String::from("for ");
    format_duration(&mut out, 75);
    assert_eq!(out, "for 01:15");
}

#[test]
fn status_text() {
    assert_eq!(Status::new(Some(activity("work")), 3723).to_string(), "work 01:02:03");
    assert_eq!(Status::new(None, 5).to_string(), "(no activity) 00:05");
    let status = Status::new(Some(activity("work")), 9);
    assert!(*status.activity() == Some(activity("work")));
    assert_eq!(status.duration(), 9);
}

#[test]
fn request_of_each_command() {
    assert!(request_for(Command::Status).unwrap() == Some(IpcRequest::Status));
    assert!(request_for(Command::List).unwrap() == Some(IpcRequest::GetActivities));
    assert!(request_for(Command::Stop).unwrap() == Some(IpcRequest::Switch(None)));
    assert!(request_for(Command::Stats).unwrap().is_none());
    assert!(
        request_for(Command::Switch { activity: "work".to_string() }).unwrap()
            == Some(IpcRequest::Switch(Some(activity("work"))))
    );
}

#[test]
fn switch_to_invalid_identifier_is_refused() {
    let err = request_for(Command::Switch { activity: "no good".to_string() }).unwrap_err();
    assert_eq!(err.key, "no good");
    assert!(request_for(Command::Switch { activity: String::new() }).is_err());
}

#[test]
fn output_of_each_answer() {
    let list = IpcResponse::Activities(vec![activity("work"), activity("break")]);
    assert_eq!(lines(output_for(&Command::List, &list)), vec!["work", "break"]);
    let status = IpcResponse::Status(Status::new(Some(activity("work")), 61));
    assert_eq!(lines(output_for(&Command::Status, &status)), vec!["work 01:01"]);
    assert!(matches!(output_for(&Command::Stop, &IpcResponse::Empty), Output::Nothing));
    assert!(matches!(output_for(&Command::Stop, &status), Output::Unexpected));
    let switch = Command::Switch { activity: "work".to_string() };
    assert!(matches!(output_for(&switch, &IpcResponse::Empty), Output::Nothing));
    assert!(matches!(output_for(&switch, &list), Output::Unexpected));
    assert!(matches!(output_for(&Command::List, &IpcResponse::Empty), Output::Nothing));
    assert!(matches!(output_for(&Command::Status, &IpcResponse::Empty), Output::Nothing));
    assert!(matches!(output_for(&Command::Stats, &IpcResponse::Empty), Output::Nothing));
}

#[test]
fn socket_paths() {
    assert_eq!(APP_NAME, "ttd");
    assert_eq!(ACTIVITY_DAEMON_NAME, "actived");
    assert_eq!(activity_daemon_socket(), "/run/ttd/actived.sock");
    assert_eq!(socket_path("/run/user/1000"), "/run/user/1000/ttd/ttd.sock");
}

#[test]
fn input_that_counts() {
    assert_eq!(classify(InputKind::Key), Some(InputEvent::Keyboard));
    assert_eq!(classify(InputKind::Relative), Some(InputEvent::Mouse));
    assert_eq!(classify(InputKind::Absolute), Some(InputEvent::Mouse));
    assert_eq!(classify(InputKind::Other), None);
    assert!(is_input_device(true, false, false));
    assert!(is_input_device(false, true, false));
    assert!(is_input_device(false, false, true));
    assert!(!is_input_device(false, false, false));
}

#[test]
fn presence_follows_input() {
    let mut p = Presence::new(10);
    assert_eq!(p.message(), ActivityMessage { last_active: 10 });
    assert_eq!(p.observe(InputKind::Other, 20), None);
    assert_eq!(p.message(), ActivityMessage { last_active: 10 });
    assert_eq!(p.observe(InputKind::Key, 30), Some(ActivityMessage { last_active: 30 }));
    assert_eq!(p.observe(InputKind::Relative, 25), Some(ActivityMessage { last_active: 25 }));
    assert_eq!(p.last_input, 25);
}
