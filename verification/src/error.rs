//! Error taxonomy of the relay core. Every error ends at most one connection
//! or one routing request; none is fatal to a server.

use vstd::prelude::*;

verus! {

/// Failures of a [`crate::session::CryptoSession`].
#[derive(Clone, Copy, Debug, PartialEq, Eq, Structural)]
pub enum CryptoError {
    /// The key or the initialization vector does not have the length the cipher needs.
    InvalidKeyMaterial,
    /// The cipher could not produce a ciphertext for the given input.
    EncryptFailure,
    /// The input is not a ciphertext of this session (bad padding, bad length, cipher error).
    DecryptFailure,
}

/// Failures of the handshake decoder.
#[derive(Clone, Copy, Debug, PartialEq, Eq, Structural)]
pub enum HandshakeError {
    /// The frame could not be decrypted under the server-wide shared secret.
    BadSecret,
    /// The decrypted payload has fewer than three space-separated fields.
    MalformedPayload,
    /// The username field is not valid UTF-8.
    InvalidUsername,
    /// The session key or initialization vector has the wrong length.
    BadSessionKey,
    /// The peer closed the connection before sending anything.
    ConnectionClosed,
}

/// Failures of the client registry.
#[derive(Clone, Copy, Debug, PartialEq, Eq, Structural)]
pub enum RegistryError {
    /// A live client already uses this username.
    UsernameTaken,
    /// A live client already uses this connection identity.
    IdentityTaken,
}

/// Failures of the router.
#[derive(Clone, Copy, Debug, PartialEq, Eq, Structural)]
pub enum RoutingError {
    /// A unicast named a username that is not connected.
    UnknownRecipient,
    /// At least one recipient of a delivery could not be served.
    PartialDeliveryFailure,
}

/// Failures of the wire framing.
#[derive(Clone, Copy, Debug, PartialEq, Eq, Structural)]
pub enum FrameError {
    /// The body is longer than the limit in force.
    TooLarge,
}

} // verus!
