use otps::{ClientType, Key, KeyChains, OtpError};

#[test]
fn test_key_chains() {
    let mut key_chains = KeyChains::new(String::new());
    key_chains.set(
        vec![
            "github 6 this_is_github_secret totp",
            "google 6 this_is_google_secret totp",
            "meta 6 this_is_meta_secret totp",
            "twitter 6 this_is_meta_secret totp",
        ]
        .iter()
        .map(|v| v.to_string())
        .collect::<Vec<String>>()
        .join("\n"),
    );

    key_chains.alter("google".to_owned(), "google 6 1234 totp".to_owned());

    assert!(!key_chains.content().is_empty(), "Target file shouldn't be empty");

    let ret = key_chains.query("google");
    assert!(ret.is_ok(), "Should return `google` result");

    let key = key_chains.query("google").unwrap();
    assert!(
        key.get_counter().is_none(),
        "Should return None in `counter` field"
    );
    assert_eq!(
        key.get_client_type(),
        &ClientType::Totp,
        "Should be TOTP client type"
    );
    assert_eq!(key.get_secret(), "1234", "Should be TOTP code ")
}

#[test]
fn vault_round_trip() {
    let mut v = KeyChains::new("github 6 ABC123 totp\ngoogle 6 XYZ789 totp\n".to_string());
    v.alter("google".to_string(), "google 6 NEWSECRET totp\n".to_string());
    assert_eq!(v.content(), "github 6 ABC123 totp\ngoogle 6 NEWSECRET totp\n");
    assert_eq!(v.query("google").unwrap().get_secret(), "NEWSECRET");
    assert!(matches!(v.query("nosuchname"), Err(OtpError::CredentialNotFound)));
    assert_eq!(v.get_endpoint_names(), vec!["github".to_string(), "google".to_string()]);
}

#[test]
fn alter_keeps_foreign_and_malformed_lines() {
    let mut v = KeyChains::new("# note\nbad\n\ngoogle  6 X totp\nx 6 Y weird\n".to_string());
    v.alter("google".to_string(), "google 6 1 hotp 3".to_string());
    assert_eq!(v.content(), "# note\nbad\n\ngoogle 6 1 hotp 3\nx 6 Y weird\n");
    let k = v.query("google").unwrap();
    assert_eq!(k.get_client_type(), &ClientType::Hotp);
    assert_eq!(k.get_counter(), Some(3));
}

#[test]
fn alter_without_match_changes_nothing_but_endings() {
    let mut v = KeyChains::new("a 6 S totp\nb 6 T totp".to_string());
    v.alter("zzz".to_string(), "zzz 6 Q totp\n".to_string());
    assert_eq!(v.content(), "a 6 S totp\nb 6 T totp\n");
}

#[test]
fn alter_replaces_every_line_with_that_name() {
    let mut v = KeyChains::new("a 6 S totp\nb 6 T totp\na 6 U totp\n".to_string());
    v.alter("a".to_string(), "a 6 V totp".to_string());
    assert_eq!(v.content(), "a 6 V totp\nb 6 T totp\na 6 V totp\n");
}

#[test]
fn query_skips_malformed_and_takes_first() {
    let v = KeyChains::new(
        "dup 6 totp\ndup 6 S weird\ndup 6 S hotp\ndup\t6  FIRST   totp\ndup 6 SECOND totp\n"
            .to_string(),
    );
    assert_eq!(v.query("dup").unwrap().get_secret(), "FIRST");
    assert_eq!(v.get_endpoint_names(), vec!["dup".to_string(); 4]);
}

#[test]
fn empty_vault_has_no_names() {
    let v = KeyChains::new(String::new());
    assert!(v.get_endpoint_names().is_empty());
    assert!(matches!(v.query("a"), Err(OtpError::CredentialNotFound)));
}

#[test]
fn hotp_counter_is_read() {
    let v = KeyChains::new(
        "h 6 S hotp 17\nbig 6 S hotp 18446744073709551616\nneg 6 S hotp -1\nmax 6 S hotp 18446744073709551615\n"
            .to_string(),
    );
    assert_eq!(v.query("h").unwrap().get_counter(), Some(17));
    assert!(matches!(v.query("big"), Err(OtpError::CredentialNotFound)));
    assert!(matches!(v.query("neg"), Err(OtpError::CredentialNotFound)));
    assert_eq!(v.query("max").unwrap().get_counter(), Some(u64::MAX));
}

#[test]
fn record_lines_round_trip() {
    let k = Key::new("bank".to_string(), ClientType::Hotp, "JBSWY3DP".to_string(), Some(907));
    assert_eq!(k.to_line(), "bank 6 JBSWY3DP hotp 907\n");
    let back = Key::parse(&k.to_line()).unwrap();
    assert_eq!(back.get_name(), "bank");
    assert_eq!(back.get_secret(), "JBSWY3DP");
    assert_eq!(back.get_counter(), Some(907));
    let t = Key::new("mail".to_string(), ClientType::Totp, "S".to_string(), None);
    assert_eq!(t.to_line(), "mail 6 S totp\n");
}

#[test]
fn client_type_tokens() {
    assert_eq!(ClientType::parse("hotp"), Some(ClientType::Hotp));
    assert_eq!(ClientType::parse("totp"), Some(ClientType::Totp));
    assert_eq!(ClientType::parse("TOTP"), None);
    assert_eq!(ClientType::Hotp.as_str(), "hotp");
    assert_eq!(ClientType::Totp.as_str(), "totp");
}

#[test]
fn line_without_fields_is_no_record() {
    assert!(Key::parse("").is_none());
    assert!(Key::parse("a 6 S").is_none());
    assert!(Key::parse("a 6 S hotp").is_none());
    assert!(Key::parse("\u{3000}a\u{a0}6 S totp").is_some());
}

#[test]
fn garbled_counter_holds_no_credential() {
    assert!(Key::parse("a 6 S hotp xyz").is_none());
    assert!(Key::parse("a 6 S hotp ++5").is_none());
    assert!(Key::parse("a 6 S hotp +").is_none());
    assert_eq!(Key::parse("a 6 S hotp +5").unwrap().get_counter(), Some(5));
    let v = KeyChains::new("a 6 S hotp xyz\n".to_string());
    assert!(matches!(v.query("a"), Err(OtpError::CredentialNotFound)));
    assert_eq!(v.get_endpoint_names(), vec!["a".to_string()]);
}

#[test]
fn list_takes_any_kind_token() {
    let v = KeyChains::new("x 6 Y weird\na 6 S hotp\nb 6 T\n 6  \n".to_string());
    assert_eq!(v.get_endpoint_names(), vec!["x".to_string(), "a".to_string()]);
}

#[test]
fn alter_or_append_adds_a_new_name() {
    let mut v = KeyChains::new("a 6 S totp".to_string());
    v.alter_or_append("b".to_string(), "b 6 T totp\n".to_string());
    assert_eq!(v.content(), "a 6 S totp\nb 6 T totp\n");
    v.alter_or_append("a".to_string(), "a 6 U hotp 2".to_string());
    assert_eq!(v.content(), "a 6 U hotp 2\nb 6 T totp\n");
    assert_eq!(v.query("a").unwrap().get_counter(), Some(2));
}
