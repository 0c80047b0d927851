//! Connection ingestor: the per-connection reading side. Each poll of the
//! socket yields an event — a full frame, no data yet, or a read error —
//! and the ingestor decides whether to forward decoded text to the
//! router, retry later, or close the connection for good.
use crate::codec::{decode, spec_unpad};
use vstd::prelude::*;
use vstd::utf8::valid_utf8;

verus! {

/// What one non-blocking poll of the connection produced.
pub enum IngestEvent {
    /// A full frame was read.
    Frame(Vec<u8>),
    /// Nothing to read yet.
    NoData,
    /// The peer reset or the read failed: terminal.
    ReadError,
}

/// What the ingestor does next.
pub enum IngestAction {
    /// Push this decoded text onto the inbound queue.
    Forward(Vec<u8>),
    /// Sleep briefly and poll again.
    Retry,
    /// Stop reading; the connection is gone or violated the protocol.
    Close,
}

/// Decide the ingestor's next step from one poll result: a decodable
/// frame is forwarded as text, a frame that is not valid UTF-8 closes the
/// connection (framing errors are fatal, never resynchronized), no data
/// means retry, and a read error closes.
pub fn ingest_poll(event: IngestEvent) -> (r: IngestAction)
    ensures
        match event {
            IngestEvent::Frame(frame) => {
                if valid_utf8(spec_unpad(frame@)) {
                    r is Forward && r->0@ == spec_unpad(frame@)
                } else {
                    r is Close
                }
            },
            IngestEvent::NoData => r is Retry,
            IngestEvent::ReadError => r is Close,
        },
{
    match event {
        IngestEvent::Frame(frame) => match decode(&frame) {
            Ok(text) => IngestAction::Forward(text),
            Err(_) => IngestAction::Close,
        },
        IngestEvent::NoData => IngestAction::Retry,
        IngestEvent::ReadError => IngestAction::Close,
    }
}

} // verus!
