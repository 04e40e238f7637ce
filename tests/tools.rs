use magicbox::error::ApiError;
use magicbox::tools::{
    base64_transform, compute_digest, default_action, default_algorithm, default_indent,
    format_offset, hash_text, normalize_local_datetime, Base64Action, HashAlgorithm,
};

#[test]
fn digests_are_lowercase_hex() {
    assert_eq!(compute_digest(HashAlgorithm::Md5, "hello"), "5d41402abc4b2a76b9719d911017c592");
    assert_eq!(
        compute_digest(HashAlgorithm::Sha256, "hello"),
        "2cf24dba5fb0a30e26e83b2ac5b9e29e1b161e5c1fa7425e73043362938b9824"
    );
    assert_eq!(compute_digest(HashAlgorithm::Md5, ""), "d41d8cd98f00b204e9800998ecf8427e");
}

#[test]
fn algorithm_names_ignore_case_and_spaces() {
    assert_eq!(HashAlgorithm::from_name("SHA256"), Some(HashAlgorithm::Sha256));
    assert_eq!(HashAlgorithm::from_name("Md5"), Some(HashAlgorithm::Md5));
    assert_eq!(HashAlgorithm::from_name("sha1"), None);
    let (a, d) = hash_text("  sha256 ", "hello").unwrap();
    assert_eq!(a, HashAlgorithm::Sha256);
    assert_eq!(a.as_str(), "sha256");
    assert_eq!(d, "2cf24dba5fb0a30e26e83b2ac5b9e29e1b161e5c1fa7425e73043362938b9824");
    match hash_text(" crc32 ", "hello") {
        Err(ApiError::BadRequest(m)) => assert_eq!(m, "unsupported algorithm: crc32"),
        _ => panic!("expected a bad request"),
    }
}

#[test]
fn base64_round_trip() {
    let enc = base64_transform(Base64Action::Encode, "hello 世界").unwrap();
    assert_eq!(enc, "aGVsbG8g5LiW55WM");
    assert_eq!(base64_transform(Base64Action::Decode, &enc).unwrap(), "hello 世界");
}

#[test]
fn base64_decode_errors() {
    match base64_transform(Base64Action::Decode, "not base64!") {
        Err(ApiError::BadRequest(m)) => assert!(m.starts_with("invalid base64: ")),
        _ => panic!("expected a bad request"),
    }
    match base64_transform(Base64Action::Decode, "/w==") {
        Err(ApiError::BadRequest(m)) => assert_eq!(m, "decoded bytes are not valid UTF-8"),
        _ => panic!("expected a bad request"),
    }
}

#[test]
fn base64_actions() {
    assert_eq!(Base64Action::from_text("DECODE"), Base64Action::Decode);
    assert_eq!(Base64Action::from_text("encode"), Base64Action::Encode);
    assert_eq!(Base64Action::from_text("other"), Base64Action::Encode);
    assert_eq!(Base64Action::Decode.as_str(), "decode");
    assert_eq!(default_action(), "encode");
    assert_eq!(default_algorithm(), "md5");
    assert_eq!(default_indent(), 2);
}

#[test]
fn local_datetime_is_normalized() {
    assert_eq!(normalize_local_datetime("2024-01-02T03:04"), "2024-01-02 03:04:00");
    assert_eq!(normalize_local_datetime("2024-01-02 03:04:05"), "2024-01-02 03:04:05");
    assert_eq!(normalize_local_datetime(""), "");
}

#[test]
fn offsets_are_formatted() {
    assert_eq!(format_offset(0), "+00:00");
    assert_eq!(format_offset(480), "+08:00");
    assert_eq!(format_offset(-330), "-05:30");
    assert_eq!(format_offset(345), "+05:45");
    assert_eq!(format_offset(-30), "+00:30");
    assert_eq!(format_offset(1500), "+25:00");
}
