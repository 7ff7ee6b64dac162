use vstd::prelude::*;

verus! {

/// The failures that the library reports to its callers.
#[derive(Clone, Copy, Debug, PartialEq, Eq, Structural)]
pub enum OtpError {
    /// A secret given as base32 text could not be decoded.
    InvalidSecretEncoding,
    /// A key is too long for HMAC-SHA1 to take (2^61 bytes or near it).
    KeyTooLong,
    /// A TOTP engine was to be built without a secret.
    MissingSecret,
    /// No vault line holds a credential of the requested name.
    CredentialNotFound,
    /// Incrementing the HOTP counter would wrap around.
    CounterOverflow,
}

} // verus!
