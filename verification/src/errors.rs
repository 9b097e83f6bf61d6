use vstd::prelude::*;

verus! {

#[verifier::external_type_specification]
#[verifier::external_body]
pub struct ExIoError(std::io::Error);

#[verifier::external_type_specification]
#[verifier::external_body]
pub struct ExUtf8Error(std::str::Utf8Error);

/// An input that cannot be parsed.
#[derive(Debug, Clone, Copy, PartialEq, Eq, Structural)]
pub struct ParseError;

impl ParseError {
    /// The text that describes the error.
    pub fn message(&self) -> (text: &'static str)
        ensures
            text@ == "Cannot parse input"@,
    {
        "Cannot parse input"
    }
}

/// Why a connection stopped.
#[derive(Debug)]
pub enum ConnectionError {
    IO(std::io::Error),
    Parse(ParseError),
    Receive(ReceiveStringError),
}

/// Why a line of text could not be received.
#[derive(Debug)]
pub enum ReceiveStringError {
    IO(std::io::Error),
    Utf8(std::str::Utf8Error),
}

} // verus!
