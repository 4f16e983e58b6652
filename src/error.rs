use vstd::prelude::*;

use crate::decode::DecodeError;
use crate::value::Value;

verus! {

/// An argument that a call cannot use: which one, and why.
#[derive(Debug, PartialEq)]
pub struct InvalidArgument {
    pub key: String,
    pub value: String,
}

/// Every way a call of this library can fail.
#[derive(Debug, PartialEq)]
pub enum TreasureDataError {
    /// A JSON document did not have the expected shape.
    JsonDecodeError(String),
    /// A response body was not JSON.
    JsonParseError(String),
    /// A MessagePack stream was malformed or cut inside a value.
    MsgpackDecodeError(DecodeError),
    /// A result row was not a MessagePack array.
    MsgpackUnexpectedValueError(Value),
    /// A timestamp could not be read.
    TimeStampParseError(String),
    /// The HTTP transport failed.
    HttpError(String),
    /// The service answered with this status and message.
    ApiError(u16, String),
    /// A response could not be used as it came: its declared length is missing or unreadable.
    TransportError(String),
    InvalidArgumentError(InvalidArgument),
    /// Reading or writing bytes failed.
    IoError(String),
}

impl From<InvalidArgument> for TreasureDataError {
    fn from(err: InvalidArgument) -> (r: TreasureDataError)
        ensures
            r == TreasureDataError::InvalidArgumentError(err),
    {
        TreasureDataError::InvalidArgumentError(err)
    }
}

impl vstd::std_specs::convert::FromSpecImpl<InvalidArgument> for TreasureDataError {
    open spec fn obeys_from_spec() -> bool {
        true
    }

    open spec fn from_spec(err: InvalidArgument) -> TreasureDataError {
        TreasureDataError::InvalidArgumentError(err)
    }
}

} // verus!
