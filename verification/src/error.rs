//! The ways in which parsing a request can fail, and what each one means for
//! the response.

use vstd::prelude::*;

verus! {

/// An error that occurred when trying to parse the request.
#[derive(Debug, PartialEq, Eq)]
pub enum ParseError {
    /// The stream ended in the middle of the request. The connection is
    /// closed and no response is sent.
    EOF,
    /// A byte that the grammar does not allow at its place.
    IllegalCharacter,
    /// Any other failure, with the response code chosen by whoever raised it.
    Generic { err: String, http_response: u16 },
}

impl ParseError {
    /// The response code that this error calls for, `None` where the
    /// connection is to be closed without a response.
    pub open spec fn status(self) -> Option<u16> {
        match self {
            ParseError::EOF => None,
            ParseError::IllegalCharacter => Some(400),
            ParseError::Generic { http_response, .. } => Some(http_response),
        }
    }

    /// The text that describes this error.
    pub open spec fn text(self) -> Seq<char> {
        match self {
            ParseError::EOF => "End of file reached while parsing headers"@,
            ParseError::IllegalCharacter => "Illegal character encountered while parsing headers"@,
            ParseError::Generic { err, .. } => err@,
        }
    }

    /// Create a new generic error with the cause `err` and the HTTP response
    /// code that should be sent.
    pub fn new_generic(err: &str, http_response: u16) -> (e: ParseError)
        ensures
            e matches ParseError::Generic { err: cause, http_response: code } && cause@ == err@
                && code == http_response,
    {
        ParseError::Generic { err: err.to_owned(), http_response }
    }

    /// Create a new generic error with the cause `err` that returns error
    /// 400 Bad Request to the client.
    pub fn new_bad_request(err: &str) -> (e: ParseError)
        ensures
            e matches ParseError::Generic { err: cause, http_response: code } && cause@ == err@
                && code == 400,
    {
        ParseError::new_generic(err, 400)
    }

    /// Get the HTTP response code that should be sent to the client.
    ///
    /// Returns `None` if the connection should be closed with no response
    /// sent.
    pub fn http_response_code(&self) -> (code: Option<u16>)
        ensures
            code == self.status(),
    {
        match self {
            ParseError::EOF => None,
            ParseError::IllegalCharacter => Some(400),
            ParseError::Generic { http_response, .. } => Some(*http_response),
        }
    }

    /// A short description of the error.
    pub fn description(&self) -> (s: &str)
        ensures
            s@ == self.text(),
    {
        match self {
            ParseError::EOF => "End of file reached while parsing headers",
            ParseError::IllegalCharacter => "Illegal character encountered while parsing headers",
            ParseError::Generic { err, .. } => err.as_str(),
        }
    }
}

} // verus!
