use ntrft::cli::{decimal_of, Args};
use ntrft::error::{HttpError, INTERNAL_SERVER_ERROR};
use ntrft::frame::{decode_frame, frame_of};
use ntrft::pipe::{pipe_step, PipeAction, PipeEvent, PipeState};

#[test]
fn frame_layout() {
    assert_eq!(frame_of("a", "1"), "event: a\ndata: 1\n");
    assert_eq!(frame_of("", ""), "event: \ndata: \n");
}

#[test]
fn decode_round_trip() {
    let f = frame_of("tick", "{\"n\":[1,2]}");
    assert_eq!(
        decode_frame(&f),
        Some(("tick".to_string(), "{\"n\":[1,2]}".to_string()))
    );
    assert_eq!(decode_frame("event: \ndata: \n"), Some((String::new(), String::new())));
}

#[test]
fn decode_rejects_malformed() {
    assert_eq!(decode_frame(""), None);
    assert_eq!(decode_frame("event: a\ndata: 1"), None);
    assert_eq!(decode_frame("event: a\ndata: 1\n\n"), None);
    assert_eq!(decode_frame("event: a\ndate: 1\n"), None);
    assert_eq!(decode_frame("evnt: a\ndata: 1\n"), None);
    assert_eq!(decode_frame("event: a"), None);
}

#[test]
fn decimal_formatting() {
    assert_eq!(decimal_of(0), "0");
    assert_eq!(decimal_of(80), "80");
    assert_eq!(decimal_of(-123), "-123");
    assert_eq!(decimal_of(i32::MAX), "2147483647");
    assert_eq!(decimal_of(i32::MIN), "-2147483648");
}

#[test]
fn default_bind_address() {
    let args = Args::default();
    assert_eq!(args.ip_address, "0.0.0.0");
    assert_eq!(args.port, 80);
    assert_eq!(args.bind_address(), "0.0.0.0:80");
    let custom = Args { ip_address: "127.0.0.1".to_string(), port: 8080 };
    assert_eq!(custom.bind_address(), "127.0.0.1:8080");
}

#[test]
fn pipe_transitions() {
    let (r, f) = (PipeState::Relaying, PipeState::Finished);
    assert_eq!(pipe_step(r, PipeEvent::Received), (r, PipeAction::Forward));
    assert_eq!(pipe_step(r, PipeEvent::SourceEnded), (f, PipeAction::Stop));
    assert_eq!(pipe_step(r, PipeEvent::SendFailed), (f, PipeAction::CloseBoth));
    assert_eq!(pipe_step(f, PipeEvent::Received), (f, PipeAction::Stop));
    assert_eq!(pipe_step(f, PipeEvent::SendFailed), (f, PipeAction::Stop));
}

#[test]
fn internal_error_status() {
    let e = HttpError::internal("Unable to send the message".to_string());
    assert_eq!(e.status, INTERNAL_SERVER_ERROR);
    assert_eq!(e.status, 500);
    assert_eq!(e.msg, "Unable to send the message");
}
