//! What can go wrong with a cassette.

use vstd::prelude::*;
use crate::record::VcrRequest;

verus! {

/// Why a cassette could not be read: which of its documents is at fault,
/// counted from 0, and what was found wrong with it.
#[derive(Debug)]
pub struct ParseError {
    pub document: usize,
    pub message: String,
}

/// An error of the recorder.
#[derive(Debug)]
pub enum VcrError {
    /// The cassette's file could not be opened, read or written.
    File(String),
    /// A document of the cassette is not a recorded pair.
    Parse(ParseError),
    /// No recorded request is the same as the one that was made.
    Lookup(VcrRequest),
}

impl VcrError {
    /// The error as a line of text.
    pub open spec fn text(&self) -> Seq<char> {
        match self {
            VcrError::File(message) => message@,
            VcrError::Parse(error) => error.message@,
            VcrError::Lookup(request) => "Request not found at "@ + request.url@ + ": "@
                + request.parts().text(),
        }
    }

    /// The error as a line of text: the message of a file or parse error,
    /// and for a request that was not found the URL that was asked for, a
    /// colon, and the request itself.
    pub fn to_string(&self) -> (r: String)
        ensures
            r@ == self.text(),
    {
        match self {
            VcrError::File(message) => message.clone(),
            VcrError::Parse(error) => error.message.clone(),
            VcrError::Lookup(request) => {
                let mut text = "Request not found at ".to_owned();
                text.append(request.url.as_str());
                text.append(": ");
                text.append(request.describe().as_str());
                text
            },
        }
    }
}

} // verus!
