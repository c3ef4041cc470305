//! The errors of an encoding session.

use vstd::prelude::*;

verus! {

/// `std::io::Error`, carried through as it is: nothing is said of what it
/// holds.
#[verifier::external_type_specification]
#[verifier::external_body]
pub struct ExIoError(std::io::Error);

/// What can go wrong while a value is encoded: the value itself refuses,
/// with a message, or the sink fails.
#[derive(Debug)]
#[non_exhaustive]
pub enum Error {
    /// A message from the value that was being encoded.
    Custom(String),
    /// A failure of the sink.
    IO(std::io::Error),
}

impl Error {
    /// The text that describes the error: the message itself, or `IO error`
    /// for every failure of the sink.
    pub open spec fn description(self) -> Seq<char> {
        match self {
            Error::Custom(message) => message@,
            Error::IO(_) => "IO error"@,
        }
    }

    /// An error that carries `message`.
    pub fn custom(message: &str) -> (r: Error)
        ensures
            r matches Error::Custom(m) && m@ == message@,
    {
        Error::Custom(message.to_owned())
    }

    /// The text that describes the error.
    pub fn message(&self) -> (r: String)
        ensures
            r@ == self.description(),
    {
        match self {
            Error::Custom(message) => message.clone(),
            Error::IO(_) => "IO error".to_owned(),
        }
    }
}

impl vstd::std_specs::convert::FromSpecImpl<std::io::Error> for Error {
    open spec fn obeys_from_spec() -> bool {
        true
    }

    open spec fn from_spec(e: std::io::Error) -> Error {
        Error::IO(e)
    }
}

impl From<std::io::Error> for Error {
    fn from(e: std::io::Error) -> (r: Error) {
        Error::IO(e)
    }
}

/// The result of encoding: what was asked for, or an error.
pub type Result<T = (), E = Error> = std::result::Result<T, E>;

} // verus!
