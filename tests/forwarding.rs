use logship::canon::{batch_events, RawLogRecord};
use logship::event::CanonicalEvent;
use logship::forwarder::{Action, Forwarder, Input, Mode};

fn event(t: i64) -> CanonicalEvent {
    CanonicalEvent::new(t, "function")
}

fn line(t: i64) -> String {
    format!("{{\"t\":{},\"type\":\"function\"}}\n", t)
}

#[test]
fn connected_forwarder_writes_to_socket_in_order_then_shuts_down() {
    let mut f = Forwarder::new();
    assert_eq!(f.mode, Mode::Connecting);
    assert_eq!(f.step(Input::Connected), Action::Idle);
    assert_eq!(f.mode, Mode::Socket);
    for t in 1..4 {
        assert_eq!(f.step(Input::Event(event(t))), Action::WriteSocket(line(t)));
    }
    assert_eq!(f.step(Input::QueueClosed), Action::ShutdownSocket);
    assert!(f.is_closed());
}

#[test]
fn write_failure_is_reported_and_streaming_goes_on() {
    let mut f = Forwarder::new();
    f.step(Input::Connected);
    assert_eq!(f.step(Input::Event(event(1))), Action::WriteSocket(line(1)));
    assert_eq!(f.step(Input::WriteFailed), Action::ReportWriteFailure);
    assert_eq!(f.mode, Mode::Socket);
    assert_eq!(f.step(Input::Event(event(2))), Action::WriteSocket(line(2)));
}

#[test]
fn failed_connection_falls_back_to_stdout_for_good() {
    let mut f = Forwarder::new();
    assert_eq!(f.step(Input::ConnectFailed), Action::AnnounceFallback);
    assert_eq!(f.mode, Mode::Stdout);
    for t in 0..3 {
        assert_eq!(f.step(Input::Event(event(t))), Action::WriteStdout(line(t)));
        assert!(!f.is_closed());
    }
    assert_eq!(f.step(Input::Connected), Action::Idle);
    assert_eq!(f.mode, Mode::Stdout);
    assert_eq!(f.step(Input::QueueClosed), Action::Finish);
    assert!(f.is_closed());
}

#[test]
fn queued_events_are_all_written_before_the_end() {
    let batch = vec![
        RawLogRecord::FunctionLog { timestamp: 1, payload: "a".to_string() },
        RawLogRecord::FunctionLog { timestamp: 2, payload: "b".to_string() },
        RawLogRecord::FunctionLog { timestamp: 3, payload: "c".to_string() },
    ];
    let mut f = Forwarder::new();
    f.step(Input::ConnectFailed);
    let mut written = Vec::new();
    for ev in batch_events(&batch) {
        if let Action::WriteStdout(l) = f.step(Input::Event(ev)) {
            written.push(l);
        }
    }
    assert_eq!(f.step(Input::QueueClosed), Action::Finish);
    assert_eq!(
        written,
        vec![
            "{\"t\":1,\"type\":\"function\",\"record\":\"a\"}\n",
            "{\"t\":2,\"type\":\"function\",\"record\":\"b\"}\n",
            "{\"t\":3,\"type\":\"function\",\"record\":\"c\"}\n",
        ]
    );
}

#[test]
fn closed_forwarder_does_nothing() {
    let mut f = Forwarder::new();
    assert_eq!(f.step(Input::QueueClosed), Action::Finish);
    assert_eq!(f.step(Input::Event(event(1))), Action::Idle);
    assert!(f.is_closed());
}
