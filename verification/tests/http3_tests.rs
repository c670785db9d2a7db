use auth_gateway::http3::{
    alpn_h3, http3_response, stream_step, within_read_limit, StreamEvent, StreamPhase,
    MAX_REQUEST_SIZE,
};

#[test]
fn stream_walks_its_ordinary_path() {
    let p0 = StreamPhase::Opened;
    let p1 = stream_step(p0, StreamEvent::BeginRead);
    assert_eq!(p1, StreamPhase::Reading);
    let p2 = stream_step(p1, StreamEvent::ReadDone);
    assert_eq!(p2, StreamPhase::Dispatched);
    let p3 = stream_step(p2, StreamEvent::DispatchDone);
    assert_eq!(p3, StreamPhase::Writing);
    let p4 = stream_step(p3, StreamEvent::WriteDone);
    assert_eq!(p4, StreamPhase::Finished);
}

#[test]
fn io_error_finishes_any_phase() {
    for phase in [
        StreamPhase::Opened,
        StreamPhase::Reading,
        StreamPhase::Dispatched,
        StreamPhase::Writing,
        StreamPhase::Finished,
    ] {
        assert_eq!(stream_step(phase, StreamEvent::IoError), StreamPhase::Finished);
    }
}

#[test]
fn mismatched_events_leave_the_phase() {
    assert_eq!(
        stream_step(StreamPhase::Opened, StreamEvent::WriteDone),
        StreamPhase::Opened
    );
    assert_eq!(
        stream_step(StreamPhase::Finished, StreamEvent::BeginRead),
        StreamPhase::Finished
    );
}

#[test]
fn read_limit_is_one_mebibyte() {
    assert_eq!(MAX_REQUEST_SIZE, 1_048_576);
    assert!(within_read_limit(0, MAX_REQUEST_SIZE));
    assert!(within_read_limit(MAX_REQUEST_SIZE - 1, 1));
    assert!(!within_read_limit(MAX_REQUEST_SIZE, 1));
    assert!(!within_read_limit(1, MAX_REQUEST_SIZE));
}

#[test]
fn stub_reply_bytes() {
    assert_eq!(http3_response(b"whatever"), b"HTTP/3 response".to_vec());
}

#[test]
fn h3_alpn_token() {
    assert_eq!(alpn_h3(), b"h3".to_vec());
}
