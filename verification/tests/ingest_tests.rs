use chatcore::codec::{encode, FRAME_WIDTH};
use chatcore::ingest::{ingest_poll, IngestAction, IngestEvent};

fn bytes(s: &str) -> Vec<u8> {
    s.as_bytes().to_vec()
}

#[test]
fn ingest_forwards_decoded_frames() {
    let frame = encode(&bytes("hello router"));
    match ingest_poll(IngestEvent::Frame(frame)) {
        IngestAction::Forward(text) => assert_eq!(text, bytes("hello router")),
        _ => panic!("expected the text to be forwarded"),
    }
}

#[test]
fn ingest_closes_on_framing_violation() {
    let mut frame = vec![0u8; FRAME_WIDTH];
    frame[0] = 0xff;
    assert!(matches!(
        ingest_poll(IngestEvent::Frame(frame)),
        IngestAction::Close
    ));
}

#[test]
fn ingest_retries_when_no_data() {
    assert!(matches!(ingest_poll(IngestEvent::NoData), IngestAction::Retry));
}

#[test]
fn ingest_closes_on_read_error() {
    assert!(matches!(ingest_poll(IngestEvent::ReadError), IngestAction::Close));
}
