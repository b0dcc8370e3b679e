use vstd::prelude::*;

verus! {

/// std's `io::Error`, carried as an opaque value in `ZmodemError::IoError`;
/// nothing about its contents is relied on.
#[verifier::external_type_specification]
#[verifier::external_body]
pub struct ExIoError(std::io::Error);

/// Violations of the wire protocol.
#[derive(Debug, PartialEq, Eq, Structural, Clone, Copy)]
pub enum ProtocolError {
    /// A ZDLE escape introduced a byte that is neither an escape nor a terminator.
    UnexpectedByteError(u8),
}

/// Errors surfaced by a session.
#[derive(Debug)]
pub enum ZmodemError {
    IoError(std::io::Error),
    ProtocolError(ProtocolError),
}

impl From<std::io::Error> for ZmodemError {
    fn from(e: std::io::Error) -> (r: ZmodemError) {
        ZmodemError::IoError(e)
    }
}

impl vstd::std_specs::convert::FromSpecImpl<std::io::Error> for ZmodemError {
    open spec fn obeys_from_spec() -> bool {
        true
    }

    open spec fn from_spec(e: std::io::Error) -> ZmodemError {
        ZmodemError::IoError(e)
    }
}

impl From<ProtocolError> for ZmodemError {
    fn from(e: ProtocolError) -> (r: ZmodemError) {
        ZmodemError::ProtocolError(e)
    }
}

impl vstd::std_specs::convert::FromSpecImpl<ProtocolError> for ZmodemError {
    open spec fn obeys_from_spec() -> bool {
        true
    }

    open spec fn from_spec(e: ProtocolError) -> ZmodemError {
        ZmodemError::ProtocolError(e)
    }
}

pub type Result<T> = core::result::Result<T, ZmodemError>;

} // verus!
