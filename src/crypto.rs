//! The outside primitives that the library relies on: HMAC-SHA1 and the
//! constant-time comparison of `ring`, the base32 decoder of `base32`, and the
//! system clock.
use vstd::prelude::*;

verus! {

/// The longest key or message, in bytes, that the library hands to HMAC-SHA1.
/// `ring` counts the bits of what it hashes in a `u64`, so it cannot take
/// 2^61 bytes; a message follows one 64-byte block of key material.
pub const MAX_INPUT_LEN: u64 = 0x1fff_ffff_ffff_ff80;

/// The 20-byte HMAC-SHA1 tag of `msg` under `key`.
pub uninterp spec fn hmac_sha1_of(key: Seq<u8>, msg: Seq<u8>) -> Seq<u8>;

/// What `base32::decode` with the RFC 4648 alphabet makes of `text`, if
/// anything.
pub uninterp spec fn base32_decode_of(text: Seq<char>) -> Option<Seq<u8>>;

/// Whether `c` is one that the base32 decoder takes: a letter of either case,
/// a digit from 2 to 7, or `=` (read as zero bits wherever it stands).
pub open spec fn is_base32_char(c: char) -> bool {
    ('A' <= c && c <= 'Z') || ('a' <= c && c <= 'z') || ('2' <= c && c <= '7') || c == '='
}

/// Whether every character of `text` is one that the base32 decoder takes.
pub open spec fn is_base32_text(text: Seq<char>) -> bool {
    forall|i: int| 0 <= i < text.len() ==> is_base32_char(#[trigger] text[i])
}

/// How many `=` end `text`.
pub open spec fn trailing_pads(text: Seq<char>) -> nat
    decreases text.len(),
{
    if text.len() > 0 && text.last() == '=' {
        1 + trailing_pads(text.drop_last())
    } else {
        0
    }
}

/// How many bytes the base32 decoder makes of `text`: five bits for each
/// character, leaving out up to six trailing `=`.
pub open spec fn base32_decoded_len(text: Seq<char>) -> int {
    let pads = if trailing_pads(text) < 6 {
        trailing_pads(text) as int
    } else {
        6
    };
    (text.len() - pads) * 5 / 8
}

/// Relies on `ring::hmac::Key::new` and `ring::hmac::sign` with
/// `HMAC_SHA1_FOR_LEGACY_USE_ONLY`: the tag depends on key and message alone,
/// and is as long as a SHA-1 digest. `ring` panics only on inputs of 2^61
/// bytes and more, which `requires` leaves out.
#[verifier::external_body]
pub fn hmac_sha1(key: &[u8], msg: &[u8]) -> (r: Vec<u8>)
    requires
        key@.len() <= MAX_INPUT_LEN,
        msg@.len() <= MAX_INPUT_LEN,
    ensures
        r@ == hmac_sha1_of(key@, msg@),
        r@.len() == 20,
{
    let k = ring::hmac::Key::new(ring::hmac::HMAC_SHA1_FOR_LEGACY_USE_ONLY, key);
    ring::hmac::sign(&k, msg).as_ref().to_vec()
}

/// Relies on `ring::constant_time::verify_slices_are_equal`: `Ok` exactly when
/// both slices have the same length and the same bytes. `ring` makes no
/// promise about its timing.
#[verifier::external_body]
pub fn constant_time_eq(a: &[u8], b: &[u8]) -> (r: bool)
    ensures
        r == (a@ == b@),
{
    #[allow(deprecated)]
    let res = ring::constant_time::verify_slices_are_equal(a, b);
    res.is_ok()
}

/// Relies on `base32::decode` with `Alphabet::RFC4648 { padding: false }`:
/// `None` when the text holds a character that `is_base32_char` refuses
/// (any non-ASCII text among them), else the decoded bytes, as many as
/// `base32_decoded_len` says; the result depends on the text alone.
#[verifier::external_body]
pub fn base32_decode(text: &str) -> (r: Option<Vec<u8>>)
    ensures
        match r {
            Some(v) => base32_decode_of(text@) == Some(v@),
            None => base32_decode_of(text@).is_none(),
        },
        r.is_some() <==> is_base32_text(text@),
        r matches Some(v) ==> v@.len() == base32_decoded_len(text@),
{
    base32::decode(base32::Alphabet::RFC4648 { padding: false }, text)
}

/// Relies on `std::time::SystemTime::elapsed` from `UNIX_EPOCH`: the whole
/// seconds since the Unix epoch by the system clock, or `None` when the clock
/// reads earlier than the epoch. Nothing is promised of the value.
#[verifier::external_body]
pub fn unix_time_now() -> (r: Option<u64>) {
    match std::time::UNIX_EPOCH.elapsed() {
        Ok(d) => Some(d.as_secs()),
        Err(_) => None,
    }
}

} // verus!
