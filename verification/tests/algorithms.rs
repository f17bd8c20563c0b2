use checksums::Algorithm;

#[test]
fn algorithms_from_str() {
    for p in &[
        ("sha1", Algorithm::SHA1),
        ("sha2", Algorithm::SHA2512),
        ("sha2-224", Algorithm::SHA2224),
        ("sha2-256", Algorithm::SHA2256),
        ("sha2-384", Algorithm::SHA2384),
        ("sha2-512", Algorithm::SHA2512),
        ("sha2256", Algorithm::SHA2256),
        ("sha2512", Algorithm::SHA2512),
        ("sha3", Algorithm::SHA3512),
        ("sha3-256", Algorithm::SHA3256),
        ("sha3-512", Algorithm::SHA3512),
        ("sha3256", Algorithm::SHA3256),
        ("sha3512", Algorithm::SHA3512),
        ("blake", Algorithm::BLAKE),
        ("blake2", Algorithm::BLAKE2),
        ("crc64", Algorithm::CRC64),
        ("crc32c", Algorithm::CRC32C),
        ("crc32", Algorithm::CRC32),
        ("crc16", Algorithm::CRC16),
        ("crc8", Algorithm::CRC8),
        ("md5", Algorithm::MD5),
        ("md6-128", Algorithm::MD6128),
        ("md6-256", Algorithm::MD6256),
        ("md6-512", Algorithm::MD6512),
    ] {
        assert_eq!(Algorithm::from_str(p.0).unwrap(), p.1);
    }
}

#[test]
fn algorithms_from_str_bad() {
    for s in &["asdf2", "sha123", "bla", "crc", "31234"] {
        Algorithm::from_str(s).unwrap_err();
    }
}

#[test]
fn algorithms_from_str_case_and_separators() {
    assert_eq!(Algorithm::from_str("SHA-1").unwrap(), Algorithm::SHA1);
    assert_eq!(Algorithm::from_str("SHA_2_256").unwrap(), Algorithm::SHA2256);
    assert_eq!(Algorithm::from_str("Blake2B").unwrap(), Algorithm::BLAKE2B);
    assert_eq!(Algorithm::from_str("XOR8").unwrap(), Algorithm::XOR8);
    // The Kelvin sign is the one character beyond ASCII whose lowercase
    // form is an ASCII letter.
    assert_eq!(Algorithm::from_str("BLA\u{212A}E").unwrap(), Algorithm::BLAKE);
}

#[test]
fn algorithms_from_str_message() {
    let e = Algorithm::from_str("nope").unwrap_err();
    assert_eq!(e, "\"nope\" is not a recognised hashing algorithm");
}

#[test]
fn algorithms_hexlen() {
    assert_eq!(Algorithm::XOR8.hexlen(), 2);
    assert_eq!(Algorithm::CRC8.hexlen(), 2);
    assert_eq!(Algorithm::CRC16.hexlen(), 4);
    assert_eq!(Algorithm::CRC32.hexlen(), 8);
    assert_eq!(Algorithm::CRC32C.hexlen(), 8);
    assert_eq!(Algorithm::CRC64.hexlen(), 16);
    assert_eq!(Algorithm::SHA2224.hexlen(), 28);
    assert_eq!(Algorithm::MD5.hexlen(), 32);
    assert_eq!(Algorithm::MD6128.hexlen(), 32);
    assert_eq!(Algorithm::SHA1.hexlen(), 40);
    assert_eq!(Algorithm::SHA2384.hexlen(), 48);
    assert_eq!(Algorithm::SHA2256.hexlen(), 64);
    assert_eq!(Algorithm::SHA3256.hexlen(), 64);
    assert_eq!(Algorithm::BLAKE2S.hexlen(), 64);
    assert_eq!(Algorithm::BLAKE3.hexlen(), 64);
    assert_eq!(Algorithm::MD6256.hexlen(), 64);
    assert_eq!(Algorithm::SHA2512.hexlen(), 128);
    assert_eq!(Algorithm::SHA3512.hexlen(), 128);
    assert_eq!(Algorithm::BLAKE.hexlen(), 128);
    assert_eq!(Algorithm::BLAKE2B.hexlen(), 128);
    assert_eq!(Algorithm::MD6512.hexlen(), 128);
}
