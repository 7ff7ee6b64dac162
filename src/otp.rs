//! Secrets: how a key reaches an engine, and how base32 text is decoded.
use vstd::prelude::*;

use crate::crypto::{
    base32_decode, base32_decode_of, is_base32_text, trailing_pads, MAX_INPUT_LEN,
};
use crate::text::has_char;
use crate::error::OtpError;

verus! {

/// A secret as a caller supplies it.
#[derive(Debug, Clone)]
pub enum Secret {
    /// Unpadded RFC 4648 base32 text.
    Base32(String),
    /// The key bytes themselves.
    Raw(Vec<u8>),
}

impl Secret {
    /// The key bytes this secret stands for, or `None` when base32 text holds
    /// a padding `=` or does not decode.
    pub open spec fn key_of(&self) -> Option<Seq<u8>> {
        match self {
            Secret::Base32(text) => if text@.contains('=') {
                None
            } else {
                base32_decode_of(text@)
            },
            Secret::Raw(bytes) => Some(bytes@),
        }
    }
}

/// What resolving `secret` gives: its key, `InvalidSecretEncoding` when
/// base32 text does not decode, `KeyTooLong` when the key is too long for HMAC.
pub open spec fn resolved_key(secret: Secret) -> Result<Seq<u8>, OtpError> {
    match secret.key_of() {
        None => Err(OtpError::InvalidSecretEncoding),
        Some(k) => if k.len() <= MAX_INPUT_LEN {
            Ok(k)
        } else {
            Err(OtpError::KeyTooLong)
        },
    }
}

/// Decodes unpadded base32 `text` strictly: text that holds a padding `=` or
/// is not base32 is an error, never taken as raw bytes.
pub fn decode_secret(text: &str) -> (r: Result<Vec<u8>, OtpError>)
    ensures
        match r {
            Ok(v) => !text@.contains('=') && base32_decode_of(text@) == Some(v@),
            Err(e) => (text@.contains('=') || base32_decode_of(text@).is_none()) && e
                == OtpError::InvalidSecretEncoding,
        },
        r.is_ok() <==> is_base32_text(text@) && !text@.contains('='),
        r matches Ok(v) ==> v@.len() == text@.len() * 5 / 8,
{
    if has_char(text, '=') {
        return Err(OtpError::InvalidSecretEncoding);
    }
    proof {
        assert(trailing_pads(text@) == 0) by {
            if text@.len() > 0 {
                assert(text@.last() != '=');
            }
        }
    }
    match base32_decode(text) {
        Some(v) => Ok(v),
        None => Err(OtpError::InvalidSecretEncoding),
    }
}

/// The key bytes for an engine, from a secret.
pub fn resolve_key(secret: Secret) -> (r: Result<Vec<u8>, OtpError>)
    ensures
        match r {
            Ok(v) => resolved_key(secret) == Ok::<Seq<u8>, OtpError>(v@),
            Err(e) => resolved_key(secret) == Err::<Seq<u8>, OtpError>(e),
        },
{
    let key = match secret {
        Secret::Base32(text) => decode_secret(text.as_str())?,
        Secret::Raw(bytes) => bytes,
    };
    if key.len() as u64 > MAX_INPUT_LEN {
        Err(OtpError::KeyTooLong)
    } else {
        Ok(key)
    }
}

} // verus!
