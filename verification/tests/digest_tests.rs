use hash_cracker::algo::detect_algo;
use hash_cracker::algo::Algo;
use hash_cracker::algo::ConfigError;
use hash_cracker::digest::bytes_equal;
use hash_cracker::digest::hex_digest;
use hash_cracker::digest::to_hex_lower;
use hash_cracker::digest::word_matches;

#[test]
fn length_32_is_md5() {
    assert_eq!(detect_algo("5d7845ac6ee7cfffafc5fe5f35cf666d"), Ok(Algo::MD5));
}

#[test]
fn length_40_is_sha1() {
    assert_eq!(detect_algo("a9993e364706816aba3e25717850c26c9cd0d89d"), Ok(Algo::SHA1));
}

#[test]
fn length_64_is_sha256() {
    assert_eq!(
        detect_algo("ba7816bf8f01cfea414140de5dae2223b00361a396177a9cb410ff61f20015ad"),
        Ok(Algo::SHA256)
    );
}

#[test]
fn other_lengths_are_rejected_with_the_length() {
    assert_eq!(detect_algo(""), Err(ConfigError::UnsupportedHashLength(0)));
    assert_eq!(detect_algo("abc"), Err(ConfigError::UnsupportedHashLength(3)));
    let s31 = "a".repeat(31);
    let s33 = "a".repeat(33);
    let s41 = "a".repeat(41);
    let s63 = "a".repeat(63);
    let s65 = "a".repeat(65);
    let s128 = "a".repeat(128);
    assert_eq!(detect_algo(&s31), Err(ConfigError::UnsupportedHashLength(31)));
    assert_eq!(detect_algo(&s33), Err(ConfigError::UnsupportedHashLength(33)));
    assert_eq!(detect_algo(&s41), Err(ConfigError::UnsupportedHashLength(41)));
    assert_eq!(detect_algo(&s63), Err(ConfigError::UnsupportedHashLength(63)));
    assert_eq!(detect_algo(&s65), Err(ConfigError::UnsupportedHashLength(65)));
    assert_eq!(detect_algo(&s128), Err(ConfigError::UnsupportedHashLength(128)));
}

#[test]
fn length_is_counted_in_bytes() {
    let sixteen_two_byte_letters = "é".repeat(16);
    assert_eq!(detect_algo(&sixteen_two_byte_letters), Ok(Algo::MD5));
}

#[test]
fn detection_looks_at_the_length_only() {
    let not_hex = "z".repeat(40);
    assert_eq!(detect_algo(&not_hex), Ok(Algo::SHA1));
}

#[test]
fn hex_of_bytes_is_lower_case_and_two_digits_each() {
    assert_eq!(to_hex_lower(&[0x00, 0x0f, 0xa0, 0xff, 0x9a]), b"000fa0ff9a".to_vec());
    assert_eq!(to_hex_lower(&[]), Vec::<u8>::new());
}

#[test]
fn hex_covers_every_byte_value() {
    let all: Vec<u8> = (0..=255u8).collect();
    let text = to_hex_lower(&all);
    let expected: String = all.iter().map(|b| format!("{:02x}", b)).collect();
    assert_eq!(text, expected.into_bytes());
}

#[test]
fn md5_of_known_inputs() {
    assert_eq!(hex_digest(Algo::MD5, b""), b"d41d8cd98f00b204e9800998ecf8427e".to_vec());
    assert_eq!(hex_digest(Algo::MD5, b"abc"), b"900150983cd24fb0d6963f7d28e17f72".to_vec());
    assert_eq!(
        hex_digest(Algo::MD5, b"secret123"),
        b"5d7845ac6ee7cfffafc5fe5f35cf666d".to_vec()
    );
}

#[test]
fn sha1_of_known_inputs() {
    assert_eq!(
        hex_digest(Algo::SHA1, b""),
        b"da39a3ee5e6b4b0d3255bfef95601890afd80709".to_vec()
    );
    assert_eq!(
        hex_digest(Algo::SHA1, b"abc"),
        b"a9993e364706816aba3e25717850c26c9cd0d89d".to_vec()
    );
}

#[test]
fn sha256_of_known_inputs() {
    assert_eq!(
        hex_digest(Algo::SHA256, b""),
        b"e3b0c44298fc1c149afbf4c8996fb92427ae41e4649b934ca495991b7852b855".to_vec()
    );
    assert_eq!(
        hex_digest(Algo::SHA256, b"abc"),
        b"ba7816bf8f01cfea414140de5dae2223b00361a396177a9cb410ff61f20015ad".to_vec()
    );
}

#[test]
fn digest_length_agrees_with_detection() {
    for (algo, word) in [(Algo::MD5, "x"), (Algo::SHA1, "y"), (Algo::SHA256, "z")] {
        let text = String::from_utf8(hex_digest(algo, word.as_bytes())).unwrap();
        assert_eq!(detect_algo(&text), Ok(algo));
    }
}

#[test]
fn bytes_equal_compares_content_and_length() {
    assert!(bytes_equal(b"", b""));
    assert!(bytes_equal(b"abc", b"abc"));
    assert!(!bytes_equal(b"abc", b"abd"));
    assert!(!bytes_equal(b"abc", b"ab"));
    assert!(!bytes_equal(b"ab", b"abc"));
}

#[test]
fn word_matches_its_own_digest_only() {
    assert!(word_matches(Algo::MD5, "secret123", "5d7845ac6ee7cfffafc5fe5f35cf666d"));
    assert!(!word_matches(Algo::MD5, "secret124", "5d7845ac6ee7cfffafc5fe5f35cf666d"));
    assert!(word_matches(Algo::SHA1, "bob", "48181acd22b3edaebc8a447868a7df7ce629920a"));
    assert!(word_matches(
        Algo::SHA256,
        "alice",
        "2bd806c97f0e00af1a1fc3328fa763a9269723c8db8fac4f93af71db186d6e90"
    ));
}

#[test]
fn upper_case_target_does_not_match() {
    assert!(!word_matches(Algo::MD5, "secret123", "5D7845AC6EE7CFFFAFC5FE5F35CF666D"));
}

#[test]
fn digest_of_another_algorithm_does_not_match() {
    assert!(!word_matches(Algo::SHA1, "secret123", "5d7845ac6ee7cfffafc5fe5f35cf666d"));
}
