//! The error taxonomy of the peer network. Every failure is scoped to one
//! connection or one operation; none aborts the process.

use vstd::prelude::*;
use vstd::string::StringExecFns;

verus! {

#[derive(Debug, PartialEq, Eq)]
pub enum NetworkError {
    /// Failed to establish a connection.
    ConnectionFailed(String),
    /// Failed to send a message.
    SendFailed(String),
    /// Failed to receive a message.
    ReceiveFailed(String),
    /// Addressed a peer absent from the registry.
    PeerNotFound(String),
    /// A protocol violation, such as a first message that is not a Join.
    InvalidMessage(String),
    /// A payload that could not be decoded.
    SerializationError(String),
}

impl Clone for NetworkError {
    fn clone(&self) -> (r: Self)
        ensures
            r == *self,
    {
        match self {
            NetworkError::ConnectionFailed(m) => NetworkError::ConnectionFailed(m.clone()),
            NetworkError::SendFailed(m) => NetworkError::SendFailed(m.clone()),
            NetworkError::ReceiveFailed(m) => NetworkError::ReceiveFailed(m.clone()),
            NetworkError::PeerNotFound(m) => NetworkError::PeerNotFound(m.clone()),
            NetworkError::InvalidMessage(m) => NetworkError::InvalidMessage(m.clone()),
            NetworkError::SerializationError(m) => NetworkError::SerializationError(m.clone()),
        }
    }
}

impl NetworkError {
    /// A human-readable rendering, in place of a `Display` implementation.
    pub fn message(&self) -> (r: String)
        ensures
            match self {
                NetworkError::ConnectionFailed(m) => r@ == "Connection failed: "@ + m@,
                NetworkError::SendFailed(m) => r@ == "Send failed: "@ + m@,
                NetworkError::ReceiveFailed(m) => r@ == "Receive failed: "@ + m@,
                NetworkError::PeerNotFound(m) => r@ == "Peer not found: "@ + m@,
                NetworkError::InvalidMessage(m) => r@ == "Invalid message: "@ + m@,
                NetworkError::SerializationError(m) => r@ == "Serialization error: "@ + m@,
            },
    {
        let (mut out, detail) = match self {
            NetworkError::ConnectionFailed(m) => ("Connection failed: ".to_owned(), m),
            NetworkError::SendFailed(m) => ("Send failed: ".to_owned(), m),
            NetworkError::ReceiveFailed(m) => ("Receive failed: ".to_owned(), m),
            NetworkError::PeerNotFound(m) => ("Peer not found: ".to_owned(), m),
            NetworkError::InvalidMessage(m) => ("Invalid message: ".to_owned(), m),
            NetworkError::SerializationError(m) => ("Serialization error: ".to_owned(), m),
        };
        out.append(detail.as_str());
        out
    }
}

} // verus!
