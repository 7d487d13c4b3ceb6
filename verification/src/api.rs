//! What the query layer answers: listings of the index, and the error that stands
//! for a request that was turned down.
pub mod error;
pub mod file;

use crate::api::error::{Error, ErrorView};
use vstd::prelude::*;

verus! {

/// The status of a request whose query cannot be read.
pub const BAD_REQUEST: u16 = 400;

/// The status of a request for something that is not there.
pub const NOT_FOUND: u16 = 404;

/// The status of a request that failed for a reason of the server's own.
pub const INTERNAL_SERVER_ERROR: u16 = 500;

/// Why a request was turned down.
#[derive(Debug)]
pub enum Rejection {
    /// No route matches the request.
    NotFound,
    /// A handler turned the request down with this error.
    Api(Error),
    /// Anything else.
    Unhandled,
}

/// The line that names the service and its version.
pub fn version() -> (banner: &'static str)
    ensures
        banner@ == "rfidx v0.1.0\n"@,
{
    "rfidx v0.1.0\n"
}

/// The error to reply with when a request was turned down: `Not found` with status
/// 404 where no route matched, the handler's own error where it gave one, and
/// `Internal server error` with status 500 otherwise.
pub fn handle_rejection(rejection: &Rejection) -> (reply: Error)
    ensures
        reply@ == match *rejection {
            Rejection::NotFound => ErrorView { status_code: NOT_FOUND, message: "Not found"@ },
            Rejection::Api(error) => error@,
            Rejection::Unhandled => ErrorView {
                status_code: INTERNAL_SERVER_ERROR,
                message: "Internal server error"@,
            },
        },
{
    match rejection {
        Rejection::NotFound => Error::new(NOT_FOUND, "Not found"),
        Rejection::Api(error) => Error::new(error.status_code(), error.message().as_str()),
        Rejection::Unhandled => Error::new(INTERNAL_SERVER_ERROR, "Internal server error"),
    }
}

} // verus!
