use otps::{decode_secret, HotpBuilder, OtpError, HOTP};

#[test]
fn hotp_test_generate() {
    let mut hotp = HotpBuilder::new()
        .base32_secret("ABCDEFGHIJKLMNOPQRSTUVWXYZ")
        .build()
        .unwrap();

    for _ in 0..2 {
        assert_eq!(hotp.generate(), "679988")
    }

    assert!(!hotp.validate("123456"));
    assert!(hotp.validate("679988"));

    let _ = hotp.increment_counter();

    for _ in 0..2 {
        assert_ne!(hotp.generate(), "679988");
        assert_eq!(hotp.generate(), "983918");
    }

    for mut hotp in [
        HotpBuilder::new()
            .key("12345678901234567890".as_bytes().to_owned())
            .build()
            .expect("failed to initialize HOTP client"),
        HotpBuilder::new()
            .base32_secret("GEZDGNBVGY3TQOJQGEZDGNBVGY3TQOJQ")
            .build()
            .expect("failed to initialize HOTP client"),
    ] {
        for _ in 0..2 {
            assert_eq!(hotp.generate(), "755224");
        }

        let _ = hotp.increment_counter();

        for _ in 0..2 {
            assert_eq!(hotp.generate(), "287082");
        }
    }
}

fn rfc_engine(counter: u64) -> HOTP {
    HotpBuilder::new()
        .key(b"12345678901234567890".to_vec())
        .counter(counter)
        .build()
        .unwrap()
}

#[test]
fn rfc4226_vectors() {
    let expected = [
        "755224", "287082", "359152", "969429", "338314", "254676", "287922", "162583", "399871",
        "520489",
    ];
    for (c, code) in expected.iter().enumerate() {
        assert_eq!(rfc_engine(c as u64).generate(), *code);
    }
}

#[test]
fn codes_are_six_ascii_digits() {
    for c in [0u64, 1, 7, 1000, u64::MAX - 1, u64::MAX] {
        let code = rfc_engine(c).generate();
        assert_eq!(code.len(), 6);
        assert!(code.bytes().all(|b| b.is_ascii_digit()));
    }
    let empty = HotpBuilder::new().build().unwrap();
    let code = empty.generate();
    assert_eq!(code.len(), 6);
    assert!(code.bytes().all(|b| b.is_ascii_digit()));
}

#[test]
fn increment_adds_one_and_returns_it() {
    let mut h = rfc_engine(41);
    assert_eq!(h.get_counter(), 41);
    assert_eq!(h.increment_counter(), Ok(42));
    assert_eq!(h.get_counter(), 42);
    assert_eq!(h.generate(), rfc_engine(42).generate());
}

#[test]
fn increment_at_max_is_an_error() {
    let mut h = rfc_engine(u64::MAX);
    assert_eq!(h.increment_counter(), Err(OtpError::CounterOverflow));
    assert_eq!(h.get_counter(), u64::MAX);
}

#[test]
fn validate_matches_generate_only() {
    let h = rfc_engine(0);
    assert!(h.validate("755224"));
    assert!(!h.validate("755225"));
    assert!(!h.validate("287082"));
    assert!(!h.validate("75522"));
    assert!(!h.validate("7552244"));
    assert!(!h.validate(""));
    assert!(!h.validate("７55224"));
    assert_eq!(h.get_counter(), 0);
}

#[test]
fn invalid_base32_is_refused() {
    let r = HotpBuilder::new().base32_secret("not base32!").build();
    assert!(matches!(r, Err(OtpError::InvalidSecretEncoding)));
    assert_eq!(decode_secret("1"), Err(OtpError::InvalidSecretEncoding));
    assert_eq!(decode_secret("é"), Err(OtpError::InvalidSecretEncoding));
}

#[test]
fn base32_decodes_to_key_bytes() {
    assert_eq!(decode_secret("GEZDGNBV").unwrap(), b"12345".to_vec());
    assert_eq!(decode_secret("").unwrap(), Vec::<u8>::new());
    assert_ne!(decode_secret("MFRGG").unwrap(), b"MFRGG".to_vec());
}

#[test]
fn counter_defaults_to_zero() {
    let h = HotpBuilder::new().key(b"12345678901234567890".to_vec()).build().unwrap();
    assert_eq!(h.get_counter(), 0);
    assert_eq!(h.generate(), "755224");
}

#[test]
fn base32_acceptance_and_length() {
    assert_eq!(decode_secret("gezdgnbv").unwrap(), b"12345".to_vec());
    assert_eq!(decode_secret("GEZDGNBVGY").unwrap(), b"123456".to_vec());
    assert_eq!(decode_secret("GEZDGNBVGY======"), Err(OtpError::InvalidSecretEncoding));
    assert_eq!(decode_secret("ABCDEFGHIJKLMNOPQRSTUVWXYZ").unwrap().len(), 16);
    assert_eq!(decode_secret("AB=D"), Err(OtpError::InvalidSecretEncoding));
    assert!(matches!(
        HotpBuilder::new().base32_secret("AB=D").build(),
        Err(OtpError::InvalidSecretEncoding)
    ));
    assert_eq!(decode_secret("AB8D"), Err(OtpError::InvalidSecretEncoding));
}
