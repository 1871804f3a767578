//! Authentication with the token of the server's configuration.

use crate::auth::{auth_answer, authenticate};
use crate::h3::{frame_views, header_views, Header, OutboundFrame};
use vstd::prelude::*;

verus! {

/// Decides on a request by its headers; the token to meet is `auth_token`. There is an answer to
/// every request.
pub fn auth(headers: Vec<Header>, auth_token: &str) -> (answer: (bool, Vec<OutboundFrame>))
    ensures
        (answer.0, frame_views(answer.1@)) == auth_answer(
            header_views(headers@),
            auth_token@,
            "padding"@,
        ),
{
    authenticate(headers.as_slice(), auth_token, "padding")
}

} // verus!
