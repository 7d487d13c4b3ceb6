//! The error that a reply carries.
use vstd::prelude::*;

verus! {

/// An error as the query layer reports it: a status code and a message.
#[derive(Debug)]
pub struct Error {
    status_code: u16,
    message: String,
}

/// What an `Error` holds.
pub struct ErrorView {
    pub status_code: u16,
    pub message: Seq<char>,
}

impl View for Error {
    type V = ErrorView;

    closed spec fn view(&self) -> ErrorView {
        ErrorView { status_code: self.status_code, message: self.message@ }
    }
}

impl Error {
    /// An error with the given status code and message.
    pub fn new(status_code: u16, message: &str) -> (error: Self)
        ensures
            error@ == (ErrorView { status_code, message: message@ }),
    {
        Error { status_code, message: message.to_owned() }
    }

    /// The status code.
    pub fn status_code(&self) -> (status_code: u16)
        ensures
            status_code == self@.status_code,
    {
        self.status_code
    }

    /// The message.
    pub fn message(&self) -> (message: &String)
        ensures
            message@ == self@.message,
    {
        &self.message
    }
}

} // verus!
