use otps::{OtpError, TOTPBuilder, TOTP};

fn rfc_totp() -> TOTP {
    TOTPBuilder::new()
        .key(b"12345678901234567890".to_vec())
        .build()
        .unwrap()
}

#[test]
fn rfc6238_vectors_last_six_digits() {
    let t = rfc_totp();
    assert_eq!(t.generate_at(59), "287082");
    assert_eq!(t.generate_at(1111111109), "081804");
    assert_eq!(t.generate_at(1111111111), "050471");
    assert_eq!(t.generate_at(1234567890), "005924");
    assert_eq!(t.generate_at(2000000000), "279037");
}

#[test]
fn same_period_same_code() {
    let t = rfc_totp();
    assert_eq!(t.generate_at(0), t.generate_at(29));
    assert_eq!(t.generate_at(30), t.generate_at(59));
    assert_ne!(t.generate_at(29), t.generate_at(30));
}

#[test]
fn totp_generate_now_is_six_digits() {
    let t = TOTPBuilder::new()
        .base32_secret("GEZDGNBVGY3TQOJQGEZDGNBVGY3TQOJQ")
        .build()
        .unwrap();
    let code = t.generate().expect("clock after the epoch");
    assert_eq!(code.len(), 6);
    assert!(code.bytes().all(|b| b.is_ascii_digit()));
    assert_eq!(t.generate_at(59), "287082");
}

#[test]
fn totp_invalid_base32_is_refused() {
    let r = TOTPBuilder::new().base32_secret("0189").build();
    assert!(matches!(r, Err(OtpError::InvalidSecretEncoding)));
}

#[test]
fn totp_needs_a_secret() {
    assert!(matches!(TOTPBuilder::new().build(), Err(OtpError::MissingSecret)));
}
