//! The enrollment protocol between a new node and an authority.
//!
//! ```text
//! Layer 0: transport (formation secret -> endpoint)
//! Layer 1: peat/enroll/1 <- this protocol (no certificate required)
//! Layer 2: cap/automerge/1 (certificate required)
//!
//! Client -> Server:  [request_len:4 LE][EnrollmentRequest bytes]
//! Server -> Client:  [response_len:4 LE][EnrollmentResponse bytes]
//! ```
//!
//! Streams are the caller's: this module frames what goes out and decides on what
//! comes in.

use vstd::prelude::*;
use vstd::string::*;

use crate::bytes;
use crate::bytes::{push_bytes, push_le};
use crate::security::enrollment;
use crate::security::enrollment::{
    EnrollmentRequest, EnrollmentResponse, EnrollmentService, EnrollmentStatus, ResponseView, StatusView,
};
use crate::security::error;
use crate::security::error::{joined, joined3, SecurityError, SecurityErrorView};
use crate::text;
use crate::text::decimal_string;
use crate::transport::wire::read_u32;

pub use crate::clock::now_ms;

verus! {

/// ALPN protocol identifier of mesh enrollment: `peat/enroll/1`.
pub const CAP_ENROLLMENT_ALPN: [u8; 13] = [
    0x70, 0x65, 0x61, 0x74, 0x2f, 0x65, 0x6e, 0x72, 0x6f, 0x6c, 0x6c, 0x2f, 0x31,
];

/// Maximum enrollment request size (64 KiB): the channel is not authenticated.
pub const MAX_REQUEST_SIZE: usize = 65536;

/// Maximum enrollment response size (64 KiB).
pub const MAX_RESPONSE_SIZE: usize = 65536;

/// Bytes behind their length, which wraps at 32 bits.
pub open spec fn framed(payload: Seq<u8>) -> Seq<u8> {
    bytes::le_bytes((payload.len() % 0x1_0000_0000) as nat, 4) + payload
}

/// Puts the length of bytes in front of them.
pub fn frame(payload: &[u8]) -> (r: Vec<u8>)
    ensures
        r@ == framed(payload@),
{
    let mut out: Vec<u8> = Vec::new();
    push_le(&mut out, payload.len() as u64 % 0x1_0000_0000, 4);
    push_bytes(&mut out, payload);
    assert(out@ =~= framed(payload@));
    out
}

/// The length that four bytes announce.
pub open spec fn announced(len_buf: Seq<u8>) -> u32 {
    bytes::le_value(len_buf.subrange(0, 4)) as u32
}

/// What a frame announces is the length of what follows, as long as that fits 32
/// bits.
pub proof fn law_frame(payload: Seq<u8>)
    requires
        payload.len() < 0x1_0000_0000,
    ensures
        framed(payload).len() == payload.len() + 4,
        announced(framed(payload)) == payload.len(),
        framed(payload).skip(4) == payload,
{
    bytes::lemma_le_bytes_len(payload.len(), 4);
    bytes::lemma_pow256_values();
    bytes::lemma_le_value_of_bytes(payload.len(), 4);
    assert(framed(payload).subrange(0, 4) =~= bytes::le_bytes(payload.len(), 4));
    assert(framed(payload).skip(4) =~= payload);
}

/// What to do once a request was announced.
pub enum RequestHead {
    /// Read a request of this length.
    Read(usize),
    /// Answer with a refusal and close.
    Refuse(EnrollmentResponse),
}

/// What to do once a request was announced: one that is too large is refused.
pub fn on_request_length(len_buf: &[u8; 4], now_ms: u64) -> (r: RequestHead)
    ensures
        match r {
            RequestHead::Read(n) => n == announced(len_buf@) && n <= 65536,
            RequestHead::Refuse(resp) => announced(len_buf@) > 65536 && resp@ == enrollment::denied_view(
                "request too large: "@ + text::decimal(announced(len_buf@) as nat) + " bytes (max 65536)"@,
                now_ms,
            ),
        },
{
    let req_len: u32 = read_u32(len_buf.as_slice(), 0);
    if req_len as usize > MAX_REQUEST_SIZE {
        let told = decimal_string(req_len as u64);
        let reason = joined3("request too large: ", told.as_str(), " bytes (max 65536)");
        RequestHead::Refuse(EnrollmentResponse::denied(reason, now_ms))
    } else {
        RequestHead::Read(req_len as usize)
    }
}

/// The answer to a request that the service decided on.
pub open spec fn answer_to(outcome: Result<ResponseView, SecurityErrorView>, now_ms: u64) -> ResponseView {
    match outcome {
        Ok(response) => response,
        Err(e) => enrollment::denied_view("enrollment error: "@ + e.text(), now_ms),
    }
}

/// The answer to a request that the service decided on: an error is answered with a
/// refusal.
pub fn answer(outcome: Result<EnrollmentResponse, SecurityError>, now_ms: u64) -> (r: EnrollmentResponse)
    ensures
        r@ == answer_to(error::outcome(outcome), now_ms),
{
    match outcome {
        Ok(response) => response,
        Err(e) => EnrollmentResponse::denied(joined("enrollment error: ", e.text().as_str()), now_ms),
    }
}

fn is_approved(status: &EnrollmentStatus) -> (r: bool)
    ensures
        r == (status@ is Approved),
{
    match status {
        EnrollmentStatus::Approved => true,
        _ => false,
    }
}

/// The authority's side of the protocol.
#[derive(Debug, Clone, Copy)]
pub struct EnrollmentProtocolHandler;

impl EnrollmentProtocolHandler {
    /// Answers a request that was read. Returns the answer and whether the enrollment
    /// was approved. A request that does not decode is refused and not handed to the
    /// service; another is answered as the service decides.
    pub fn handle_enrollment<S: EnrollmentService>(&self, service: &S, request: &[u8], now_ms: u64) -> (r: (
        EnrollmentResponse,
        bool,
    ))
        ensures
            r.1 == (r.0@.status is Approved),
            enrollment::parse_request(request@) matches Err(e) ==> r.0@ == enrollment::denied_view(
                "malformed request: "@ + e.text(),
                now_ms,
            ),
            enrollment::parse_request(request@) matches Ok(view) ==> exists|req: EnrollmentRequest, outcome: Result<
                EnrollmentResponse,
                SecurityError,
            >|
                req@ == view && #[trigger] call_ensures(S::process_request, (service, &req), outcome) && r.0@
                    == answer_to(error::outcome(outcome), now_ms),
    {
        match EnrollmentRequest::decode(request) {
            Ok(req) => {
                let outcome = service.process_request(&req);
                let response = answer(outcome, now_ms);
                let approved = is_approved(&response.status);
                (response, approved)
            },
            Err(e) => {
                let reason = joined("malformed request: ", e.text().as_str());
                (EnrollmentResponse::denied(reason, now_ms), false)
            },
        }
    }

    /// The frame of an encoded answer; one that is too large is not sent.
    pub fn frame_response(&self, response: &[u8]) -> (r: Result<Vec<u8>, String>)
        ensures
            match r {
                Ok(f) => response@.len() <= 65536 && f@ == framed(response@),
                Err(e) => response@.len() > 65536 && e@ == "response too large: "@ + text::decimal(response@.len())
                    + " bytes (max 65536)"@,
            },
    {
        if response.len() > MAX_RESPONSE_SIZE {
            let told = decimal_string(response.len() as u64);
            return Err(joined3("response too large: ", told.as_str(), " bytes (max 65536)"));
        }
        Ok(frame(response))
    }
}

/// The frame of a request.
pub fn frame_request(request: &EnrollmentRequest) -> (r: Vec<u8>)
    ensures
        r@ == framed(request@.wire()),
{
    let encoded = request.encode();
    frame(encoded.as_slice())
}

/// How much to read once an answer was announced; one that is too large is not read.
pub fn on_response_length(len_buf: &[u8; 4]) -> (r: Result<usize, String>)
    ensures
        match r {
            Ok(n) => n == announced(len_buf@) && n <= 65536,
            Err(e) => announced(len_buf@) > 65536 && e@ == "response too large: "@ + text::decimal(
                announced(len_buf@) as nat,
            ) + " bytes (max 65536)"@,
        },
{
    let resp_len: u32 = read_u32(len_buf.as_slice(), 0);
    if resp_len as usize > MAX_RESPONSE_SIZE {
        let told = decimal_string(resp_len as u64);
        return Err(joined3("response too large: ", told.as_str(), " bytes (max 65536)"));
    }
    Ok(resp_len as usize)
}

/// A request that is framed and read back is the request that was sent.
pub proof fn law_request_arrives(request: enrollment::RequestView)
    requires
        request.fits_wire(),
        request.wire().len() < 0x1_0000_0000,
    ensures
        announced(framed(request.wire())) == request.wire().len(),
        enrollment::parse_request(framed(request.wire()).skip(4)) == Ok::<enrollment::RequestView, SecurityErrorView>(
            request,
        ),
{
    law_frame(request.wire());
    enrollment::law_request_decode_of_encode(request, Seq::empty());
    assert(request.wire() + Seq::<u8>::empty() =~= request.wire());
}

} // verus!
