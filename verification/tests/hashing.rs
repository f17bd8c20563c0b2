use checksums::{hash_reader, hash_string, Algorithm};

#[test]
fn hash_string_bytes() {
    assert_eq!(hash_string(&[0x99, 0xAA, 0xBB, 0xCC]), "99AABBCC".to_string());
    assert_eq!(hash_string(&[0x09, 0x0A]), "090A".to_string());
    assert_eq!(hash_string(&[]), "".to_string());
}

#[test]
fn xor8_values() {
    // 'a' + 'b' + 'c' = 294; truncated to 38; negated to 0xDA.
    assert_eq!(hash_reader(b"abc", Algorithm::XOR8), "DA");
    assert_eq!(hash_reader(b"", Algorithm::XOR8), "00");
    assert_eq!(hash_reader(&[0xFF, 0x01], Algorithm::XOR8), "00");
}

#[test]
fn md5_vector() {
    assert_eq!(hash_reader(b"abc", Algorithm::MD5), "900150983CD24FB0D6963F7D28E17F72");
    assert_eq!(hash_reader(b"", Algorithm::MD5), "D41D8CD98F00B204E9800998ECF8427E");
}

#[test]
fn sha1_vector() {
    assert_eq!(hash_reader(b"abc", Algorithm::SHA1), "A9993E364706816ABA3E25717850C26C9CD0D89D");
}

#[test]
fn sha2_vectors() {
    assert_eq!(
        hash_reader(b"abc", Algorithm::SHA2224),
        "23097D223405D8228642A477BDA255B32AADBCE4BDA0B3F7E36C9DA7"
    );
    assert_eq!(
        hash_reader(b"abc", Algorithm::SHA2256),
        "BA7816BF8F01CFEA414140DE5DAE2223B00361A396177A9CB410FF61F20015AD"
    );
    assert_eq!(
        hash_reader(b"abc", Algorithm::SHA2384),
        "CB00753F45A35E8BB5A03D699AC65007272C32AB0EDED1631A8B605A43FF5BED8086072BA1E7CC2358BAECA134C825A7"
    );
    assert_eq!(
        hash_reader(b"abc", Algorithm::SHA2512),
        "DDAF35A193617ABACC417349AE20413112E6FA4E89A97EA20A9EEEE64B55D39A2192992A274FC1A836BA3C23A3FEEBBD454D4423643CE80E2A9AC94FA54CA49F"
    );
}

#[test]
fn sha3_vectors() {
    assert_eq!(
        hash_reader(b"abc", Algorithm::SHA3256),
        "3A985DA74FE225B2045C172D6BD390BD855F086E3E9D525B46BFE24511431532"
    );
    assert_eq!(
        hash_reader(b"abc", Algorithm::SHA3512),
        "B751850B1A57168A5693CD924B6B096E08F621827444F70D884F5D0240D2712E10E116E9192AF3C91A7EC57647E3934057340B4CF408D5A56592F8274EEC53F0"
    );
}

#[test]
fn blake2_vectors() {
    assert_eq!(
        hash_reader(b"abc", Algorithm::BLAKE2B),
        "BA80A53F981C4D0D6A2797B69F12F6E94C212F14685AC4B74B12BB6FDBFFA2D17D87C5392AAB792DC252D5DE4533CC9518D38AA8DBF1925AB92386EDD4009923"
    );
    assert_eq!(
        hash_reader(b"abc", Algorithm::BLAKE2S),
        "508C5E8C327C14E2E1A72BA34EEB452F37458B209ED63A294D999B4C86675982"
    );
}

#[test]
fn crc_vectors() {
    assert_eq!(hash_reader(b"123456789", Algorithm::CRC32), "CBF43926");
    assert_eq!(hash_reader(b"123456789", Algorithm::CRC32C), "E3069283");
    assert_eq!(hash_reader(b"123456789", Algorithm::CRC16), "BB3D");
    assert_eq!(hash_reader(b"123456789", Algorithm::CRC64), "B90956C775A41001");
}

fn is_upper_hex(s: &str) -> bool {
    s.chars().all(|c| c.is_ascii_digit() || ('A'..='F').contains(&c))
}

#[test]
fn remaining_algorithms_digest_properly() {
    // For these the digest value is taken from the implementing crate;
    // the output must still be a hex string of the right width that
    // depends on the data.
    for (algo, len) in &[
        (Algorithm::BLAKE, 128),
        (Algorithm::BLAKE3, 64),
        (Algorithm::MD6128, 32),
        (Algorithm::MD6256, 64),
        (Algorithm::MD6512, 128),
        (Algorithm::CRC8, 2),
    ] {
        let h1 = hash_reader(b"abc", *algo);
        let h2 = hash_reader(b"abd", *algo);
        assert_eq!(h1.len(), *len);
        assert_eq!(h2.len(), *len);
        assert!(is_upper_hex(&h1));
        assert!(is_upper_hex(&h2));
        assert_ne!(h1, h2);
    }
}

#[test]
fn sha2_224_and_384_emit_two_chars_per_digest_byte() {
    assert_eq!(hash_reader(b"abc", Algorithm::SHA2224).len(), 56);
    assert_eq!(hash_reader(b"abc", Algorithm::SHA2384).len(), 96);
}
