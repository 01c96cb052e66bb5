//! What can go wrong while a request is served.

use crate::http_response::{fresh_response, is_stamp, stamp_of, HttpResponse};
use vstd::prelude::*;

verus! {

/// `std::io::Error`: an error of the transport. It is carried through as it
/// is; no contract speaks of what it holds.
#[verifier::external_type_specification]
#[verifier::external_body]
pub struct ExIoError(std::io::Error);

/// A failure met while serving one connection.
#[derive(Debug)]
pub enum HttpError {
    /// The peer sent something that is not a request.
    BadRequest { message: String },
    /// The transport failed while reading or writing.
    IoError(std::io::Error),
}

/// `std::io::Error` rendered by its `Display` impl. The text depends on the
/// platform, so nothing is claimed of it.
#[verifier::external_body]
fn io_error_text(error: &std::io::Error) -> (r: String) {
    format!("{error}")
}

impl HttpError {
    /// The status that a failure of this kind is answered with: 400 for a
    /// bad request, 500 for a failure of the transport.
    pub open spec fn status(&self) -> u16 {
        match self {
            HttpError::BadRequest { .. } => 400,
            HttpError::IoError(_) => 500,
        }
    }

    /// The response that tells the peer of the failure: a new response
    /// without body whose status goes by the kind of failure.
    pub fn as_response(&self) -> (r: HttpResponse)
        ensures
            r@ == fresh_response(self.status(), None, stamp_of(r@.headers)),
            is_stamp(stamp_of(r@.headers)),
    {
        match self {
            HttpError::BadRequest { .. } => HttpResponse::new(400, None),
            HttpError::IoError(_) => HttpResponse::new(500, None),
        }
    }

    /// A malformed-request error that carries `message`.
    pub fn bad_request(message: &str) -> (r: HttpError)
        ensures
            r matches HttpError::BadRequest { message: m } && m@ == message@,
    {
        HttpError::BadRequest { message: message.to_owned() }
    }

    /// The text that describes the failure: the message of a bad request,
    /// or the transport's own description of its error.
    pub fn to_string(&self) -> (r: String)
        ensures
            self matches HttpError::BadRequest { message } ==> r@ == message@,
    {
        match self {
            HttpError::BadRequest { message } => message.clone(),
            HttpError::IoError(error) => io_error_text(error),
        }
    }
}

} // verus!
