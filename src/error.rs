use vstd::prelude::*;

verus! {

#[verifier::external_type_specification]
#[verifier::external_body]
pub struct ExFromUtf8Error(std::string::FromUtf8Error);

#[verifier::external_type_specification]
#[verifier::external_body]
pub struct ExParseIntError(std::num::ParseIntError);

#[verifier::external_type_specification]
#[verifier::external_body]
pub struct ExIoError(std::io::Error);

/// Everything that can go wrong while talking to a server.
#[derive(Debug)]
pub enum Error {
    /// The server rejected the password.
    AuthenticationFailure,
    /// The peer closed the connection in the middle of a frame.
    Disconnected,
    EmptyPacketBody,
    /// A packet body was not valid UTF-8.
    FromUtf8Error(std::string::FromUtf8Error),
    /// The underlying transport failed.
    IoError(std::io::Error),
    /// A numeric field that has no default could not be read.
    ParseIntError(std::num::ParseIntError),
    /// A malformed frame, or a packet that the protocol did not allow here.
    ProtocolError,
    /// A line of a reply matched none of the expected grammars.
    SquadParsingError,
}

} // verus!
