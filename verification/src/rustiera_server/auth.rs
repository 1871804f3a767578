//! Authentication with a fixed token.

use crate::auth::{auth_answer, authenticate};
use crate::h3::{frame_views, header_views, Header, OutboundFrame};
use crate::text::str_eq;
use vstd::prelude::*;

verus! {

/// The token that clients have to send, which is also the padding of the welcome.
pub const FIXED_TOKEN: &'static str = "8964";

/// Decides on a request by its headers. There is an answer to every request.
pub fn auth(headers: Vec<Header>) -> (answer: (bool, Vec<OutboundFrame>))
    ensures
        (answer.0, frame_views(answer.1@)) == auth_answer(
            header_views(headers@),
            "8964"@,
            "8964"@,
        ),
{
    authenticate(headers.as_slice(), FIXED_TOKEN, FIXED_TOKEN)
}

/// Whether the token that a client sent is the fixed one.
pub fn verify(token: &str) -> (verified: bool)
    ensures
        verified == (token@ == "8964"@),
{
    str_eq(token, FIXED_TOKEN)
}

} // verus!
