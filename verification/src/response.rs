//! The compute side of the response pipeline: the status-code gate of the
//! headers stage, the content-encoding test, and the decode stage that
//! turns a buffered body into a timeline (inflating gzip bodies first).
//!
//! The stages that suspend — sending, awaiting headers, collecting the
//! body — live with the caller; each hands its plain result to these
//! functions for the decision.

use vstd::prelude::*;

use crate::api::Tweet;
use crate::json::{parse_timeline, spec_parse_timeline};

verus! {

/// Why one poll cycle's response was discarded. All variants are terminal
/// for the cycle and harmless for the process; none calls for a
/// reconnect, which only a transport failure (the caller's concern) does.
#[derive(Clone, Copy, Debug, PartialEq, Eq, Structural)]
pub enum ResponseError {
    /// Protocol error: the endpoint answered with a status other than
    /// 200 OK.
    Protocol(u16),
    /// Format error: the body announced gzip encoding but was not a
    /// well-formed gzip stream.
    Gzip,
    /// Format error: the (inflated) payload did not match the expected
    /// array shape, or trailing content followed the array.
    Format,
}

/// What an inflated gzip stream holds, as a function of the compressed
/// bytes, and on which inputs inflation succeeds at all. Named here and
/// pinned down by [`gunzip`]; what is done with the inflated bytes is the
/// verified [`parse_timeline`].
pub uninterp spec fn gunzip_ok(z: Seq<u8>) -> bool;

/// See [`gunzip_ok`].
pub uninterp spec fn gunzip_of(z: Seq<u8>) -> Seq<u8>;

/// Relies on flate2's `bufread::GzDecoder`, driven to the end of its one
/// gzip member by `read_to_end`: inflation is a function of the input
/// bytes alone, and fails exactly where the input is not a well-formed
/// gzip stream.
#[verifier::external_body]
fn gunzip(z: &[u8]) -> (r: Result<Vec<u8>, ()>)
    ensures
        r is Ok <==> gunzip_ok(z@),
        r matches Ok(out) ==> out@ == gunzip_of(z@),
{
    let mut dec = flate2::bufread::GzDecoder::new(z);
    let mut out = Vec::new();
    match std::io::Read::read_to_end(&mut dec, &mut out) {
        Ok(_) => Ok(out),
        Err(_) => Err(()),
    }
}

/// The headers-stage gate: any status other than 200 OK ends the cycle as
/// a protocol error.
pub fn check_status(status: u16) -> (r: Result<(), ResponseError>)
    ensures
        status == 200 ==> r is Ok,
        status != 200 ==> r == Err::<(), ResponseError>(ResponseError::Protocol(status)),
{
    if status == 200 {
        Ok(())
    } else {
        Err(ResponseError::Protocol(status))
    }
}

/// Whether a `Content-Encoding` header value announces gzip (the exact
/// bytes `gzip`; anything else is taken as identity encoding).
pub fn is_gzip_encoding(value: &[u8]) -> (r: bool)
    ensures
        r == (value@ == seq![0x67u8, 0x7Au8, 0x69u8, 0x70u8]),
{
    if value.len() == 4 && value[0] == 0x67 && value[1] == 0x7A && value[2] == 0x69 && value[3]
        == 0x70 {
        proof {
            assert(value@ =~= seq![0x67u8, 0x7Au8, 0x69u8, 0x70u8]);
        }
        true
    } else {
        proof {
            if value@ == seq![0x67u8, 0x7Au8, 0x69u8, 0x70u8] {
                assert(value@.len() == 4);
                assert(value@[0] == 0x67 && value@[1] == 0x7A && value@[2] == 0x69 && value@[3]
                    == 0x70);
            }
        }
        false
    }
}

/// The decode stage: inflates the body if it was gzip-encoded, then
/// parses it as the payload grammar into the reusable timeline buffer.
/// The buffer is cleared first, so the outcome depends on the body bytes
/// and the encoding flag alone — re-running the stage on the same body
/// yields the same timeline, with no residue from a prior cycle.
pub fn decode_body(gzip: bool, body: &[u8], timeline: &mut Vec<Tweet>) -> (r: Result<
    (),
    ResponseError,
>)
    ensures
        gzip && !gunzip_ok(body@) ==> r == Err::<(), ResponseError>(ResponseError::Gzip)
            && final(timeline)@ == old(timeline)@,
        gzip && gunzip_ok(body@) ==> decoded_to(gunzip_of(body@), r, final(timeline)@),
        !gzip ==> decoded_to(body@, r, final(timeline)@),
{
    if gzip {
        match gunzip(body) {
            Err(_) => Err(ResponseError::Gzip),
            Ok(plain) => {
                if parse_timeline(plain.as_slice(), timeline) {
                    Ok(())
                } else {
                    Err(ResponseError::Format)
                }
            },
        }
    } else {
        if parse_timeline(body, timeline) {
            Ok(())
        } else {
            Err(ResponseError::Format)
        }
    }
}

/// How the decode stage's outcome relates to the plain payload bytes:
/// success exactly on grammar conformance, the buffer holding the parsed
/// timeline; a format error leaves the buffer empty.
pub open spec fn decoded_to(
    plain: Seq<u8>,
    r: Result<(), ResponseError>,
    timeline: Seq<Tweet>,
) -> bool {
    match spec_parse_timeline(plain) {
        Some(tws) => r is Ok && timeline == tws,
        None => r == Err::<(), ResponseError>(ResponseError::Format) && timeline.len() == 0,
    }
}

/// Idempotence of the decode stage: two runs over the same payload bytes
/// agree in verdict and in the resulting timeline, whatever either buffer
/// held before — re-running the stage on a reused, cleared buffer gives
/// the same timeline as a fresh one, with no residue.
pub proof fn lemma_decode_stage_deterministic(
    plain: Seq<u8>,
    r1: Result<(), ResponseError>,
    t1: Seq<Tweet>,
    r2: Result<(), ResponseError>,
    t2: Seq<Tweet>,
)
    requires
        decoded_to(plain, r1, t1),
        decoded_to(plain, r2, t2),
    ensures
        r1 is Ok <==> r2 is Ok,
        r1 is Err ==> r1 == r2,
        t1 == t2,
{
    match spec_parse_timeline(plain) {
        Some(tws) => {},
        None => {
            assert(t1 =~= t2);
        },
    }
}

} // verus!
