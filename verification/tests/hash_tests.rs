use coreos_installer::errors::ErrorKind;
use coreos_installer::hash::IgnitionHash;

#[test]
fn test_ignition_hash_cli_parse() {
    let err_cases = vec!["", "foo-bar", "-bar", "sha512", "sha512-", "sha512-00"];
    for arg in err_cases {
        IgnitionHash::try_parse(arg).expect_err(&format!("input: {}", arg));
    }

    let null_digest = "sha512-cf83e1357eefb8bdf1542850d66d8007d620e4050b5715dc83f4a921d36ce9ce47d0d13c5d85f2b0ff8318d2877eec2f63b931bd47417a81a538327af927da3e";
    IgnitionHash::try_parse(null_digest).unwrap();
}

#[test]
fn test_ignition_hash_validate() {
    let input = vec![b'a', b'b', b'c'];
    let hash_arg = "sha512-ddaf35a193617abacc417349ae20413112e6fa4e89a97ea20a9eeee64b55d39a2192992a274fc1a836ba3c23a3feebbd454d4423643ce80e2a9ac94fa54ca49f";
    let hasher = IgnitionHash::try_parse(hash_arg).unwrap();
    hasher.validate(&input).unwrap();
}

#[test]
fn test_parse_error_kinds() {
    let e = IgnitionHash::try_parse("").unwrap_err();
    assert!(matches!(e.kind, ErrorKind::MalformedDigest));

    let e = IgnitionHash::try_parse("foo-bar").unwrap_err();
    assert!(matches!(e.kind, ErrorKind::UnsupportedAlgorithm));

    let e = IgnitionHash::try_parse("-bar").unwrap_err();
    assert!(matches!(e.kind, ErrorKind::UnsupportedAlgorithm));

    let e = IgnitionHash::try_parse("sha512").unwrap_err();
    assert!(matches!(e.kind, ErrorKind::MalformedDigest));

    let e = IgnitionHash::try_parse("sha512-zz").unwrap_err();
    assert!(matches!(e.kind, ErrorKind::MalformedDigest));

    let e = IgnitionHash::try_parse("sha512-0").unwrap_err();
    assert!(matches!(e.kind, ErrorKind::MalformedDigest));

    let e = IgnitionHash::try_parse("sha512-00").unwrap_err();
    match e.kind {
        ErrorKind::WrongDigestLength { bits } => assert_eq!(bits, 8),
        _ => panic!("expected WrongDigestLength"),
    }
    assert_eq!(e.message(), "wrong digest length (8)");

    let e = IgnitionHash::try_parse("sha512-").unwrap_err();
    match e.kind {
        ErrorKind::WrongDigestLength { bits } => assert_eq!(bits, 0),
        _ => panic!("expected WrongDigestLength"),
    }
}

#[test]
fn test_validate_altered_content_fails() {
    let hash_arg = "sha512-ddaf35a193617abacc417349ae20413112e6fa4e89a97ea20a9eeee64b55d39a2192992a274fc1a836ba3c23a3feebbd454d4423643ce80e2a9ac94fa54ca49f";
    let hasher = IgnitionHash::try_parse(hash_arg).unwrap();
    // Each single-byte alteration of "abc" must fail validation.
    for altered in [b"abd".to_vec(), b"xbc".to_vec(), b"aac".to_vec()] {
        let e = hasher.validate(&altered).unwrap_err();
        assert!(matches!(e.kind, ErrorKind::HashMismatch { .. }));
    }
}

#[test]
fn test_hash_mismatch_message_carries_both_digests() {
    let abc_hex = "ddaf35a193617abacc417349ae20413112e6fa4e89a97ea20a9eeee64b55d39a2192992a274fc1a836ba3c23a3feebbd454d4423643ce80e2a9ac94fa54ca49f";
    // Digest of the empty input; the computed side when no bytes flow.
    let empty_hex = "cf83e1357eefb8bdf1542850d66d8007d620e4050b5715dc83f4a921d36ce9ce47d0d13c5d85f2b0ff8318d2877eec2f63b931bd47417a81a538327af927da3e";
    let hasher = IgnitionHash::try_parse(&format!("sha512-{}", abc_hex)).unwrap();
    let e = hasher.validate(&[]).unwrap_err();
    assert_eq!(
        e.message(),
        format!("hash mismatch, computed '{}' but expected '{}'", empty_hex, abc_hex)
    );
}

#[test]
fn test_error_chain_rendering() {
    let e = coreos_installer::errors::InstallError::new(ErrorKind::MalformedDigest)
        .with_context("decoding hex digest".to_string())
        .with_context("parsing digest argument".to_string());
    assert_eq!(e.message(), "malformed hex digest");
    assert_eq!(
        e.render_chain(),
        "parsing digest argument: decoding hex digest: malformed hex digest"
    );
}
