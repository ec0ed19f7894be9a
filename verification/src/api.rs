//! The checks and answers of the requests that open a publishing or subscribing session.
use vstd::prelude::*;
use vstd::utf8::{valid_utf8, decode_utf8};
use crate::api_error::APIError;
use crate::text::utf8_text;

verus! {

/// Whether a session publishes media into a room or subscribes to it.
#[derive(Clone, Copy, Debug, PartialEq, Eq, Structural)]
pub enum PeerRole {
    Publisher,
    Subscriber,
}

pub open spec fn duplicate_text(role: PeerRole) -> Seq<char> {
    match role {
        PeerRole::Publisher => "duplicate publisher"@,
        PeerRole::Subscriber => "duplicate subscriber"@,
    }
}

pub open spec fn check_error_text(role: PeerRole) -> Seq<char> {
    match role {
        PeerRole::Publisher => "publisher check error"@,
        PeerRole::Subscriber => "subscriber check error"@,
    }
}

pub open spec fn custom_error_is(r: APIError, text: Seq<char>) -> bool {
    r matches APIError::Custom(s) && s@ == text
}

/// Checks a session request before it starts: `registered` is whether a session of the
/// same user is already registered in the room (`None` when that could not be found out),
/// `sdp` the body carrying the browser's SDP offer. Gives the offer's text.
pub fn prepare_session(role: PeerRole, registered: Option<bool>, sdp: &[u8]) -> (r: Result<String, APIError>)
    ensures
        registered == Some(true) ==> (r matches Err(e) && custom_error_is(e, duplicate_text(role))),
        registered is None ==> (r matches Err(e) && custom_error_is(e, check_error_text(role))),
        registered == Some(false) && !valid_utf8(sdp@) ==> (r matches Err(e) && custom_error_is(e, "bad sdp"@)),
        registered == Some(false) && valid_utf8(sdp@) ==> (r matches Ok(s) && s@ == decode_utf8(sdp@)),
{
    match registered {
        Some(true) => {
            let t = match role {
                PeerRole::Publisher => "duplicate publisher",
                PeerRole::Subscriber => "duplicate subscriber",
            };
            Err(APIError::Custom(t.to_owned()))
        },
        None => {
            let t = match role {
                PeerRole::Publisher => "publisher check error",
                PeerRole::Subscriber => "subscriber check error",
            };
            Err(APIError::Custom(t.to_owned()))
        },
        Some(false) => match utf8_text(sdp) {
            Some(s) => Ok(s),
            None => Err(APIError::Custom("bad sdp".to_owned())),
        },
    }
}

/// The id that tags a session's task in the logs: the time in units of 10 ms, cut to 16 bits.
pub fn task_id(micros: u128) -> (r: u16)
    ensures
        r as int == (micros / 10000) % 65536,
{
    let q = micros / 10000;
    let r = q as u16;
    assert(r == q % 65536) by (bit_vector)
        requires
            r == q as u16;
    r
}

/// The "sdp" field of the reply to a session request. A subscriber is answered with the
/// text "sdp_answer" in place of the answer.
pub fn answer_field(role: PeerRole, answer: &str) -> (r: String)
    ensures
        r@ == match role {
            PeerRole::Publisher => answer@,
            PeerRole::Subscriber => "sdp_answer"@,
        },
{
    match role {
        PeerRole::Publisher => answer.to_owned(),
        PeerRole::Subscriber => "sdp_answer".to_owned(),
    }
}

}
