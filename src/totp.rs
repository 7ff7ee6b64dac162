//! Time-based one-time passwords (RFC 6238): HOTP with the counter taken from
//! the clock.
use vstd::prelude::*;

use crate::crypto::{unix_time_now, MAX_INPUT_LEN};
use crate::error::OtpError;
use crate::hotp::{hotp_code, is_six_digit_code, Hotp};
use crate::otp::{resolve_key, resolved_key, Secret};

verus! {

/// Length of a time step, in seconds.
pub const TOTP_PERIOD: u64 = 30;

/// The code for `key` at `unix_secs` seconds after the Unix epoch.
pub open spec fn totp_code(key: Seq<u8>, unix_secs: u64) -> Seq<char> {
    hotp_code(key, (unix_secs / TOTP_PERIOD) as u64)
}

/// Two instants in the same time step give the same code.
pub proof fn lemma_same_period_same_code(key: Seq<u8>, t1: u64, t2: u64)
    requires
        t1 / TOTP_PERIOD == t2 / TOTP_PERIOD,
    ensures
        totp_code(key, t1) == totp_code(key, t2),
{
}

/// A TOTP engine: a key.
#[derive(Debug)]
pub struct TOTP {
    key: Vec<u8>,
}

impl TOTP {
    #[verifier::type_invariant]
    spec fn key_fits(&self) -> bool {
        self.key@.len() <= MAX_INPUT_LEN
    }

    /// The key bytes.
    pub closed spec fn key_bytes(&self) -> Seq<u8> {
        self.key@
    }

    /// The code at `unix_secs` seconds after the Unix epoch.
    pub fn generate_at(&self, unix_secs: u64) -> (r: String)
        ensures
            r@ == totp_code(self.key_bytes(), unix_secs),
            is_six_digit_code(r@),
    {
        proof {
            use_type_invariant(self);
        }
        let hotp = Hotp::with_key(self.key.clone(), unix_secs / TOTP_PERIOD);
        hotp.generate()
    }

    /// The code for the current time, or `None` when the clock reads earlier
    /// than the Unix epoch.
    pub fn generate(&self) -> (r: Option<String>)
        ensures
            r matches Some(code) ==> is_six_digit_code(code@) && exists|t: u64|
                code@ == #[trigger] totp_code(self.key_bytes(), t),
    {
        match unix_time_now() {
            Some(t) => Some(self.generate_at(t)),
            None => None,
        }
    }
}

/// The settings from which a TOTP engine is built: the secret, which must be
/// set before building.
#[derive(Debug, Clone)]
pub struct TOTPBuilder {
    pub secret: Option<Secret>,
}

impl TOTPBuilder {
    /// Settings with no secret.
    pub fn new() -> (r: Self)
        ensures
            r.secret.is_none(),
    {
        TOTPBuilder { secret: None }
    }

    /// These settings with the secret set to the raw `key`.
    pub fn key(self, key: Vec<u8>) -> (r: Self)
        ensures
            r.secret == Some(Secret::Raw(key)),
    {
        TOTPBuilder { secret: Some(Secret::Raw(key)) }
    }

    /// These settings with the secret set to base32 `text`.
    pub fn base32_secret(self, text: &str) -> (r: Self)
        ensures
            r.secret matches Some(Secret::Base32(t)) && t@ == text@,
    {
        TOTPBuilder { secret: Some(Secret::Base32(text.to_owned())) }
    }

    /// The engine these settings describe; fails when no secret is set, the
    /// secret does not decode, or the key is too long.
    pub fn build(self) -> (r: Result<TOTP, OtpError>)
        ensures
            match self.secret {
                None => r == Err::<TOTP, OtpError>(OtpError::MissingSecret),
                Some(s) => match resolved_key(s) {
                    Ok(k) => r matches Ok(t) && t.key_bytes() == k,
                    Err(e) => r == Err::<TOTP, OtpError>(e),
                },
            },
    {
        match self.secret {
            Some(secret) => {
                let key = resolve_key(secret)?;
                Ok(TOTP { key })
            },
            None => Err(OtpError::MissingSecret),
        }
    }
}

} // verus!
