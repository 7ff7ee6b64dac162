//! One-time password generation (HOTP, RFC 4226; TOTP, RFC 6238) and a
//! line-oriented vault of named credentials.
pub mod commons;
mod crypto;
pub mod error;
pub mod hotp;
pub mod key;
pub mod key_chains;
pub mod otp;
mod text;
pub mod totp;

pub use commons::ClientType;
pub use error::OtpError;
pub use hotp::{Hotp, HotpBuilder, HOTP};
pub use key::Key;
pub use key_chains::KeyChains;
pub use otp::{decode_secret, Secret};
pub use totp::{TOTPBuilder, TOTP};
