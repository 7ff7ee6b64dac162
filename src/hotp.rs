//! HMAC-based one-time passwords (RFC 4226).
use vstd::prelude::*;
use vstd::utf8::{decode_utf8, encode_utf8, is_ascii_chars};

use crate::crypto::{constant_time_eq, hmac_sha1, hmac_sha1_of, MAX_INPUT_LEN};
use crate::error::OtpError;
use crate::otp::{resolve_key, resolved_key, Secret};
use crate::text::{digit_char, is_ascii_digit, push_digit};

verus! {

/// Number of digits in a code.
pub const OTP_DIGITS: usize = 6;

/// The counter as eight big-endian bytes.
pub open spec fn counter_bytes(c: u64) -> Seq<u8> {
    seq![
        (c / 0x100_0000_0000_0000 % 256) as u8,
        (c / 0x1_0000_0000_0000 % 256) as u8,
        (c / 0x100_0000_0000 % 256) as u8,
        (c / 0x1_0000_0000 % 256) as u8,
        (c / 0x100_0000 % 256) as u8,
        (c / 0x1_0000 % 256) as u8,
        (c / 0x100 % 256) as u8,
        (c % 256) as u8,
    ]
}

/// Dynamic truncation of a 20-byte tag: the low four bits of the last byte
/// give an offset, and the four bytes from there, with the top bit of the
/// first one cleared, are read as a big-endian integer.
pub open spec fn dynamic_truncation(tag: Seq<u8>) -> int {
    let offset = (tag[19] % 16) as int;
    (tag[offset] % 128) * 0x100_0000 + tag[offset + 1] * 0x1_0000 + tag[offset + 2] * 0x100
        + tag[offset + 3]
}

/// The numeric HOTP value of `key` at `counter`, below 10^6.
pub open spec fn hotp_value(key: Seq<u8>, counter: u64) -> int {
    dynamic_truncation(hmac_sha1_of(key, counter_bytes(counter))) % 1_000_000
}

/// `n` written with exactly six decimal digits, zero-padded on the left.
pub open spec fn six_digits(n: int) -> Seq<char> {
    seq![
        digit_char(n / 100_000 % 10),
        digit_char(n / 10_000 % 10),
        digit_char(n / 1_000 % 10),
        digit_char(n / 100 % 10),
        digit_char(n / 10 % 10),
        digit_char(n % 10),
    ]
}

/// The code that an engine holding `key` and `counter` generates.
pub open spec fn hotp_code(key: Seq<u8>, counter: u64) -> Seq<char> {
    six_digits(hotp_value(key, counter))
}

/// Whether `s` consists of exactly six ASCII decimal digits.
pub open spec fn is_six_digit_code(s: Seq<char>) -> bool {
    s.len() == OTP_DIGITS && forall|i: int| 0 <= i < s.len() ==> is_ascii_digit(#[trigger] s[i])
}

/// Every key and counter give a code of exactly six ASCII decimal digits.
pub proof fn lemma_code_is_six_digits(key: Seq<u8>, counter: u64)
    ensures
        is_six_digit_code(hotp_code(key, counter)),
{
}

/// Two engines with the same key and counter generate the same code: the
/// code depends on nothing else, and generating changes neither.
pub proof fn lemma_generate_deterministic(a: &Hotp, b: &Hotp)
    requires
        a.key_bytes() == b.key_bytes(),
        a.counter_value() == b.counter_value(),
    ensures
        hotp_code(a.key_bytes(), a.counter_value()) == hotp_code(b.key_bytes(), b.counter_value()),
{
}

/// A six-digit code is ASCII, so it takes six bytes.
proof fn lemma_six_digit_code_bytes(s: Seq<char>)
    requires
        is_six_digit_code(s),
    ensures
        encode_utf8(s).len() == OTP_DIGITS,
{
    broadcast use vstd::utf8::is_ascii_chars_encode_utf8;

    assert(is_ascii_chars(s));
}

/// The counter as the message that is signed.
fn counter_to_bytes(c: u64) -> (r: Vec<u8>)
    ensures
        r@ == counter_bytes(c),
{
    let mut r: Vec<u8> = Vec::new();
    r.push((c / 0x100_0000_0000_0000 % 256) as u8);
    r.push((c / 0x1_0000_0000_0000 % 256) as u8);
    r.push((c / 0x100_0000_0000 % 256) as u8);
    r.push((c / 0x1_0000_0000 % 256) as u8);
    r.push((c / 0x100_0000 % 256) as u8);
    r.push((c / 0x1_0000 % 256) as u8);
    r.push((c / 0x100 % 256) as u8);
    r.push((c % 256) as u8);
    assert(r@ =~= counter_bytes(c));
    r
}

/// Dynamic truncation of `tag`, reduced to six decimal digits.
fn truncate_tag(tag: &Vec<u8>) -> (r: u32)
    requires
        tag@.len() == 20,
    ensures
        r == dynamic_truncation(tag@) % 1_000_000,
{
    let offset = (tag[19] % 16) as usize;
    let b0 = (tag[offset] % 128) as u32;
    let b1 = tag[offset + 1] as u32;
    let b2 = tag[offset + 2] as u32;
    let b3 = tag[offset + 3] as u32;
    let bin_code: u32 = b0 * 0x100_0000 + b1 * 0x1_0000 + b2 * 0x100 + b3;
    bin_code % 1_000_000
}

/// `n` as a six-digit decimal string.
fn render_code(n: u32) -> (r: String)
    requires
        n < 1_000_000,
    ensures
        r@ == six_digits(n as int),
        is_six_digit_code(r@),
{
    let mut s = String::new();
    push_digit(&mut s, (n / 100_000 % 10) as u64);
    push_digit(&mut s, (n / 10_000 % 10) as u64);
    push_digit(&mut s, (n / 1_000 % 10) as u64);
    push_digit(&mut s, (n / 100 % 10) as u64);
    push_digit(&mut s, (n / 10 % 10) as u64);
    push_digit(&mut s, (n % 10) as u64);
    assert(s@ =~= six_digits(n as int));
    s
}

/// An HOTP engine: a key and a counter.
#[derive(Debug)]
pub struct Hotp {
    counter: u64,
    key: Vec<u8>,
}

impl Hotp {
    #[verifier::type_invariant]
    spec fn key_fits(&self) -> bool {
        self.key@.len() <= MAX_INPUT_LEN
    }

    /// The key bytes.
    pub closed spec fn key_bytes(&self) -> Seq<u8> {
        self.key@
    }

    /// The current counter.
    pub closed spec fn counter_value(&self) -> u64 {
        self.counter
    }

    /// An engine with `key`, which fits, and `counter`.
    pub(crate) fn with_key(key: Vec<u8>, counter: u64) -> (r: Hotp)
        requires
            key@.len() <= MAX_INPUT_LEN,
        ensures
            r.key_bytes() == key@,
            r.counter_value() == counter,
    {
        Hotp { counter, key }
    }

    /// An engine with `key` and `counter`; fails when the key is too long
    /// for HMAC.
    pub fn from_key(key: Vec<u8>, counter: u64) -> (r: Result<Hotp, OtpError>)
        ensures
            key@.len() <= MAX_INPUT_LEN <==> r.is_ok(),
            r matches Ok(h) ==> h.key_bytes() == key@ && h.counter_value() == counter,
            r matches Err(e) ==> e == OtpError::KeyTooLong,
    {
        if key.len() as u64 > MAX_INPUT_LEN {
            Err(OtpError::KeyTooLong)
        } else {
            Ok(Hotp::with_key(key, counter))
        }
    }

    /// Adds one to the counter and returns the new value; at `u64::MAX` the
    /// counter is left as it is and `CounterOverflow` is returned.
    pub fn increment_counter(&mut self) -> (r: Result<u64, OtpError>)
        ensures
            final(self).key_bytes() == old(self).key_bytes(),
            old(self).counter_value() < u64::MAX ==> final(self).counter_value()
                == old(self).counter_value() + 1 && r == Ok::<u64, OtpError>(
                final(self).counter_value(),
            ),
            old(self).counter_value() == u64::MAX ==> final(self).counter_value()
                == old(self).counter_value() && r == Err::<u64, OtpError>(
                OtpError::CounterOverflow,
            ),
    {
        proof {
            use_type_invariant(&*self);
        }
        if self.counter == u64::MAX {
            Err(OtpError::CounterOverflow)
        } else {
            self.counter = self.counter + 1;
            Ok(self.counter)
        }
    }

    /// The current counter.
    pub fn get_counter(&self) -> (r: u64)
        ensures
            r == self.counter_value(),
    {
        self.counter
    }

    /// The six-digit code for the current key and counter.
    pub fn generate(&self) -> (r: String)
        ensures
            r@ == hotp_code(self.key_bytes(), self.counter_value()),
            is_six_digit_code(r@),
    {
        proof {
            use_type_invariant(self);
        }
        let msg = counter_to_bytes(self.counter);
        let tag = hmac_sha1(self.key.as_slice(), msg.as_slice());
        let code = truncate_tag(&tag);
        render_code(code)
    }

    /// Whether `code` is the code that `generate` gives now; a string whose
    /// length is not six is refused at once; otherwise the two codes are
    /// compared with `ring`'s constant-time slice comparison.
    pub fn validate(&self, code: &str) -> (r: bool)
        ensures
            r == (code@ == hotp_code(self.key_bytes(), self.counter_value())),
            code@.len() != OTP_DIGITS ==> !r,
    {
        if code.len() != OTP_DIGITS {
            proof {
                if code@ == hotp_code(self.key_bytes(), self.counter_value()) {
                    lemma_six_digit_code_bytes(code@);
                }
            }
            return false;
        }
        let reference = self.generate();
        let r = constant_time_eq(code.as_bytes(), reference.as_str().as_bytes());
        proof {
            broadcast use vstd::utf8::encode_utf8_decode_utf8;

            assert(decode_utf8(encode_utf8(code@)) == code@);
            assert(decode_utf8(encode_utf8(reference@)) == reference@);
        }
        r
    }
}

/// Another name for [`Hotp`].
pub type HOTP = Hotp;

/// The settings from which an HOTP engine is built: an optional counter
/// (zero when absent) and an optional secret (the empty key when absent).
#[derive(Debug, Clone)]
pub struct HotpBuilder {
    pub counter: Option<u64>,
    pub secret: Option<Secret>,
}

impl HotpBuilder {
    /// Settings with no counter and no secret.
    pub fn new() -> (r: Self)
        ensures
            r.counter.is_none(),
            r.secret.is_none(),
    {
        HotpBuilder { counter: None, secret: None }
    }

    /// These settings with the counter set to `counter`.
    pub fn counter(self, counter: u64) -> (r: Self)
        ensures
            r.counter == Some(counter),
            r.secret == self.secret,
    {
        HotpBuilder { counter: Some(counter), secret: self.secret }
    }

    /// These settings with the secret set to the raw `key`.
    pub fn key(self, key: Vec<u8>) -> (r: Self)
        ensures
            r.counter == self.counter,
            r.secret == Some(Secret::Raw(key)),
    {
        HotpBuilder { counter: self.counter, secret: Some(Secret::Raw(key)) }
    }

    /// These settings with the secret set to base32 `text`.
    pub fn base32_secret(self, text: &str) -> (r: Self)
        ensures
            r.counter == self.counter,
            r.secret matches Some(Secret::Base32(t)) && t@ == text@,
    {
        HotpBuilder { counter: self.counter, secret: Some(Secret::Base32(text.to_owned())) }
    }

    /// The engine these settings describe, with the empty key when no secret
    /// is set; fails when the secret does not decode or the key is too long.
    pub fn build(self) -> (r: Result<Hotp, OtpError>)
        ensures
            ({
                let counter = match self.counter {
                    Some(c) => c,
                    None => 0,
                };
                match self.secret {
                    None => r matches Ok(h) && h.key_bytes() == Seq::<u8>::empty()
                        && h.counter_value() == counter,
                    Some(s) => match resolved_key(s) {
                        Ok(k) => r matches Ok(h) && h.key_bytes() == k && h.counter_value()
                            == counter,
                        Err(e) => r == Err::<Hotp, OtpError>(e),
                    },
                }
            }),
    {
        let counter = match self.counter {
            Some(c) => c,
            None => 0,
        };
        let key = match self.secret {
            Some(secret) => resolve_key(secret)?,
            None => Vec::new(),
        };
        Hotp::from_key(key, counter)
    }
}

} // verus!
