//! What can go wrong between sound and packets.
use crate::audio_codec::CodecError;
use crate::packet::PacketError;
use vstd::prelude::*;

verus! {

/// Why sound cannot be packed or unpacked.
#[derive(Debug)]
pub enum Error {
    Codec(CodecError),
    Packet(PacketError),
    NotImplemented,
}

impl Error {
    /// The error as text.
    pub open spec fn text(&self) -> Seq<char> {
        match self {
            Error::Codec(error) => error.text(),
            Error::Packet(error) => error@.text(),
            Error::NotImplemented => "operation is not implemented yet"@,
        }
    }

    /// The error as text.
    pub fn message(&self) -> (text: String)
        ensures
            text@ == self.text(),
    {
        match self {
            Error::Codec(error) => error.message(),
            Error::Packet(error) => error.message(),
            Error::NotImplemented => "operation is not implemented yet".to_owned(),
        }
    }
}

impl From<CodecError> for Error {
    fn from(error: CodecError) -> (wrapped: Error) {
        Error::Codec(error)
    }
}

impl vstd::std_specs::convert::FromSpecImpl<CodecError> for Error {
    open spec fn obeys_from_spec() -> bool {
        true
    }

    open spec fn from_spec(error: CodecError) -> Error {
        Error::Codec(error)
    }
}

impl From<PacketError> for Error {
    fn from(error: PacketError) -> (wrapped: Error) {
        Error::Packet(error)
    }
}

impl vstd::std_specs::convert::FromSpecImpl<PacketError> for Error {
    open spec fn obeys_from_spec() -> bool {
        true
    }

    open spec fn from_spec(error: PacketError) -> Error {
        Error::Packet(error)
    }
}

} // verus!
