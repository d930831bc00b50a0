//! The failures a command can end in.

use vstd::prelude::*;
use serde_json::Error as JsonError;

verus! {

/// The error type of the JSON codec, carried inside [`Error::Json`].
#[verifier::external_type_specification]
#[verifier::external_body]
pub struct ExJsonError(JsonError);

/// The error type of integer parsing, carried inside [`Error::ParseIntError`].
#[verifier::external_type_specification]
#[verifier::external_body]
pub struct ExParseIntError(core::num::ParseIntError);

/// Why a command was not carried out.
#[derive(Debug)]
pub enum Error {
    /// A dynamic value could not be read, or did not fit the typed field,
    /// argument or key it was meant for.
    Json(JsonError),
    /// A textual index is not a non-negative integer.
    ParseIntError(core::num::ParseIntError),
    /// A callable refused its arguments for a reason of its own.
    Command(String),
    /// The text ran out before all arguments were read, or a callable was
    /// given the wrong number of them.
    WrongArgumentCount,
    /// No child exists for the element, index or key of a path.
    PathError,
    /// The text is not a command, or names a callable that does not exist.
    InvalidCommand,
    /// The command is well formed but means nothing on this node.
    IncompatibleCommand,
    /// The transport closed before the initial value arrived.
    ConnectionDropped,
}

/// What contracts say about an [`Error`]: its variant, and the message of a
/// callable's own error. The payloads of the codec and of integer parsing are
/// opaque and do not appear.
pub enum ErrorKind {
    Json,
    ParseIntError,
    Command(Seq<char>),
    WrongArgumentCount,
    PathError,
    InvalidCommand,
    IncompatibleCommand,
    ConnectionDropped,
}

/// How a command ended, as contracts see it.
pub type Outcome = Result<(), ErrorKind>;

impl View for Error {
    type V = ErrorKind;

    open spec fn view(&self) -> ErrorKind {
        match self {
            Error::Json(_) => ErrorKind::Json,
            Error::ParseIntError(_) => ErrorKind::ParseIntError,
            Error::Command(message) => ErrorKind::Command(message@),
            Error::WrongArgumentCount => ErrorKind::WrongArgumentCount,
            Error::PathError => ErrorKind::PathError,
            Error::InvalidCommand => ErrorKind::InvalidCommand,
            Error::IncompatibleCommand => ErrorKind::IncompatibleCommand,
            Error::ConnectionDropped => ErrorKind::ConnectionDropped,
        }
    }
}

/// The outcome that a result of the library stands for.
pub open spec fn outcome<T>(result: Result<T, Error>) -> Outcome {
    match result {
        Ok(_) => Ok(()),
        Err(error) => Err(error@),
    }
}

impl From<JsonError> for Error {
    fn from(err: JsonError) -> (error: Self)
    {
        Error::Json(err)
    }
}

impl vstd::std_specs::convert::FromSpecImpl<JsonError> for Error {
    open spec fn obeys_from_spec() -> bool {
        true
    }

    open spec fn from_spec(err: JsonError) -> Self {
        Error::Json(err)
    }
}

impl From<core::num::ParseIntError> for Error {
    fn from(err: core::num::ParseIntError) -> (error: Self)
    {
        Error::ParseIntError(err)
    }
}

impl vstd::std_specs::convert::FromSpecImpl<core::num::ParseIntError> for Error {
    open spec fn obeys_from_spec() -> bool {
        true
    }

    open spec fn from_spec(err: core::num::ParseIntError) -> Self {
        Error::ParseIntError(err)
    }
}

} // verus!
