//! The HTTP/3 (QUIC) surface's per-stream logic: the bounded read
//! ceiling, the stream lifecycle, and the stub reply that stands in for
//! the still-open wire framing.

use vstd::prelude::*;

verus! {

use vstd::utf8::encode_utf8;
use crate::text::push_bytes;

/// The ceiling on one stream's buffered request payload: 1 MiB.
pub const MAX_REQUEST_SIZE: usize = 1024 * 1024;

/// The lifecycle of one bidirectional stream.
#[derive(Debug, Clone, Copy, PartialEq, Eq)]
pub enum StreamPhase {
    Opened,
    Reading,
    Dispatched,
    Writing,
    Finished,
}

/// What the transport reports about one stream.
#[derive(Debug, Clone, Copy, PartialEq, Eq)]
pub enum StreamEvent {
    BeginRead,
    ReadDone,
    DispatchDone,
    WriteDone,
    IoError,
}

/// Advances one stream's phase: the ordinary path walks
/// `Opened → Reading → Dispatched → Writing → Finished`, an I/O error
/// moves straight to `Finished` from any phase, and an event that does
/// not belong to the current phase leaves it unchanged.
pub fn stream_step(phase: StreamPhase, event: StreamEvent) -> (next: StreamPhase)
    ensures
        event == StreamEvent::IoError ==> next == StreamPhase::Finished,
        phase == StreamPhase::Opened && event == StreamEvent::BeginRead ==> next
            == StreamPhase::Reading,
        phase == StreamPhase::Reading && event == StreamEvent::ReadDone ==> next
            == StreamPhase::Dispatched,
        phase == StreamPhase::Dispatched && event == StreamEvent::DispatchDone ==> next
            == StreamPhase::Writing,
        phase == StreamPhase::Writing && event == StreamEvent::WriteDone ==> next
            == StreamPhase::Finished,
        event != StreamEvent::IoError && !(phase == StreamPhase::Opened && event
            == StreamEvent::BeginRead) && !(phase == StreamPhase::Reading && event
            == StreamEvent::ReadDone) && !(phase == StreamPhase::Dispatched && event
            == StreamEvent::DispatchDone) && !(phase == StreamPhase::Writing && event
            == StreamEvent::WriteDone) ==> next == phase,
{
    match (phase, event) {
        (_, StreamEvent::IoError) => StreamPhase::Finished,
        (StreamPhase::Opened, StreamEvent::BeginRead) => StreamPhase::Reading,
        (StreamPhase::Reading, StreamEvent::ReadDone) => StreamPhase::Dispatched,
        (StreamPhase::Dispatched, StreamEvent::DispatchDone) => StreamPhase::Writing,
        (StreamPhase::Writing, StreamEvent::WriteDone) => StreamPhase::Finished,
        (p, _) => p,
    }
}

/// True when one more chunk of `n` bytes may still be buffered for a
/// stream that already holds `total` bytes.
pub fn within_read_limit(total: usize, n: usize) -> (r: bool)
    ensures
        r == (total + n <= MAX_REQUEST_SIZE),
{
    n <= MAX_REQUEST_SIZE && total <= MAX_REQUEST_SIZE - n
}

/// The reply written back on every stream; the concrete wire framing of
/// this surface is an open integration point, so the payload is not
/// decoded yet.
pub fn http3_response(request: &[u8]) -> (r: Vec<u8>)
    ensures
        r@ == encode_utf8("HTTP/3 response"@),
{
    let mut r: Vec<u8> = Vec::new();
    push_bytes(&mut r, "HTTP/3 response".as_bytes());
    r
}

/// The ALPN protocol identifier the QUIC listener advertises.
pub fn alpn_h3() -> (v: Vec<u8>)
    ensures
        v@ == encode_utf8("h3"@),
{
    let mut v: Vec<u8> = Vec::new();
    push_bytes(&mut v, "h3".as_bytes());
    v
}

} // verus!
