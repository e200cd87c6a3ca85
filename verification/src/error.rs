//! Errors of the client's connection handling, and their conversion from and
//! into `std::io::Error`.
use vstd::prelude::*;
use vstd::string::StringExecFns;
use vstd::string::to_string_from_display_ensures;

verus! {

#[verifier::external_type_specification]
#[verifier::external_body]
pub struct ExIoError(std::io::Error);

/// The kinds of I/O error that the client turns its own errors into.
#[derive(Debug, Clone, Copy, PartialEq, Eq, Structural)]
pub enum IoErrorKind {
    ConnectionAborted,
    InvalidData,
}

/// The I/O error that `std::io::Error::new` builds from a kind and a message.
pub uninterp spec fn io_error(kind: IoErrorKind, message: Seq<char>) -> std::io::Error;

/// Calls `std::io::Error::new` with the `std::io::ErrorKind` of the same name as
/// `kind`. Trusted: the result is taken to be determined by the kind and the
/// message alone.
#[verifier::external_body]
pub(crate) fn new_io_error(kind: IoErrorKind, message: String) -> (error: std::io::Error)
    ensures
        error == io_error(kind, message@),
{
    let kind = match kind {
        IoErrorKind::ConnectionAborted => std::io::ErrorKind::ConnectionAborted,
        IoErrorKind::InvalidData => std::io::ErrorKind::InvalidData,
    };
    std::io::Error::new(kind, message)
}

/// An error of the connection with the broker.
#[derive(Debug)]
pub enum MqttError {
    /// The broker closed the connection.
    ConnectionClosed,
    /// A packet did not fit in the receive buffer.
    PacketTooLarge,
    /// A packet could not be read.
    InvalidPacket(String),
    /// An error of the underlying stream.
    IoError(std::io::Error),
}

impl MqttError {
    /// The text that describes the error.
    pub fn message(&self) -> (text: String)
        ensures
            *self matches MqttError::ConnectionClosed ==> text@ == "Broker closed the connection"@,
            *self matches MqttError::PacketTooLarge ==> text@
                == "Received packet exceeds maximum size"@,
            *self matches MqttError::InvalidPacket(msg) ==> text@ == "Invalid packet: "@ + msg@,
            *self matches MqttError::IoError(e) ==> exists|shown: String|
                to_string_from_display_ensures::<std::io::Error>(&e, shown) && text@ == "IO error: "@
                    + shown@,
    {
        match self {
            MqttError::ConnectionClosed => String::from_str("Broker closed the connection"),
            MqttError::PacketTooLarge => String::from_str("Received packet exceeds maximum size"),
            MqttError::InvalidPacket(msg) => String::from_str("Invalid packet: ").concat(
                msg.as_str(),
            ),
            MqttError::IoError(e) => {
                let shown = e.to_string();
                String::from_str("IO error: ").concat(shown.as_str())
            },
        }
    }
}

impl From<std::io::Error> for MqttError {
    fn from(error: std::io::Error) -> (r: Self) {
        MqttError::IoError(error)
    }
}

impl vstd::std_specs::convert::FromSpecImpl<std::io::Error> for MqttError {
    open spec fn obeys_from_spec() -> bool {
        true
    }

    open spec fn from_spec(v: std::io::Error) -> Self {
        MqttError::IoError(v)
    }
}

impl From<MqttError> for std::io::Error {
    fn from(error: MqttError) -> (r: Self) {
        match error {
            MqttError::ConnectionClosed => new_io_error(
                IoErrorKind::ConnectionAborted,
                String::from_str("Connection closed by broker"),
            ),
            MqttError::InvalidPacket(msg) => new_io_error(IoErrorKind::InvalidData, msg),
            MqttError::PacketTooLarge => new_io_error(
                IoErrorKind::InvalidData,
                String::from_str("Packet too large"),
            ),
            MqttError::IoError(error) => error,
        }
    }
}

impl vstd::std_specs::convert::FromSpecImpl<MqttError> for std::io::Error {
    open spec fn obeys_from_spec() -> bool {
        true
    }

    /// A closed connection becomes `ConnectionAborted`, an invalid or too
    /// large packet becomes `InvalidData`, and an I/O error is handed back.
    open spec fn from_spec(v: MqttError) -> Self {
        match v {
            MqttError::ConnectionClosed => io_error(
                IoErrorKind::ConnectionAborted,
                "Connection closed by broker"@,
            ),
            MqttError::InvalidPacket(msg) => io_error(IoErrorKind::InvalidData, msg@),
            MqttError::PacketTooLarge => io_error(IoErrorKind::InvalidData, "Packet too large"@),
            MqttError::IoError(error) => error,
        }
    }
}

/// Wrapping an I/O error as an `MqttError` and converting it back into an I/O
/// error gives the same error.
pub proof fn lemma_io_error_round_trip(error: std::io::Error)
    ensures
        <std::io::Error as vstd::std_specs::convert::FromSpec<MqttError>>::from_spec(
            <MqttError as vstd::std_specs::convert::FromSpec<std::io::Error>>::from_spec(error),
        ) == error,
{
}

} // verus!
