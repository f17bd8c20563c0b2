//! Hashing of byte data: the canonical byte-to-hex mapping, the XOR8
//! longitudinal check computed here, and the dispatch over the algorithm
//! table.  The digests themselves come from the crates that implement
//! them, each behind one wrapper that names its result.

use vstd::prelude::*;
use crate::algorithms::{spec_hexlen, Algorithm};
use md5::Digest as _;
use shaman::digest::Digest as _;
use tiny_keccak::Hasher as _;

verus! {

/// The uppercase hex character of a value below sixteen.
pub open spec fn spec_hex_char(n: u8) -> char {
    if n == 0 { '0' } else if n == 1 { '1' } else if n == 2 { '2' }
    else if n == 3 { '3' } else if n == 4 { '4' } else if n == 5 { '5' }
    else if n == 6 { '6' } else if n == 7 { '7' } else if n == 8 { '8' }
    else if n == 9 { '9' } else if n == 10 { 'A' } else if n == 11 { 'B' }
    else if n == 12 { 'C' } else if n == 13 { 'D' } else if n == 14 { 'E' }
    else { 'F' }
}

/// Each byte as exactly two uppercase hex digits, in order.
pub open spec fn uhex_of(data: Seq<u8>) -> Seq<char>
    decreases data.len(),
{
    if data.len() == 0 {
        Seq::empty()
    } else {
        uhex_of(data.drop_last()) + seq![
            spec_hex_char(data.last() / 16),
            spec_hex_char(data.last() % 16),
        ]
    }
}

fn hex_str(n: u8) -> (r: &'static str)
    requires
        n < 16,
    ensures
        r@ == seq![spec_hex_char(n)],
{
    let r = match n {
        0 => "0", 1 => "1", 2 => "2", 3 => "3", 4 => "4", 5 => "5", 6 => "6", 7 => "7",
        8 => "8", 9 => "9", 10 => "A", 11 => "B", 12 => "C", 13 => "D", 14 => "E", _ => "F",
    };
    proof {
        reveal_strlit("0"); reveal_strlit("1"); reveal_strlit("2"); reveal_strlit("3");
        reveal_strlit("4"); reveal_strlit("5"); reveal_strlit("6"); reveal_strlit("7");
        reveal_strlit("8"); reveal_strlit("9"); reveal_strlit("A"); reveal_strlit("B");
        reveal_strlit("C"); reveal_strlit("D"); reveal_strlit("E"); reveal_strlit("F");
        assert(r@ =~= seq![spec_hex_char(n)]);
    }
    r
}

/// Create a hash string out of its raw bytes.
pub fn hash_string(bytes: &[u8]) -> (r: String)
    ensures
        r@ == uhex_of(bytes@),
        r@.len() == 2 * bytes@.len(),
{
    let mut r = String::new();
    let n = bytes.len();
    proof {
        lemma_uhex_len(bytes@);
    }
    for i in 0..n
        invariant
            n == bytes@.len(),
            r@ == uhex_of(bytes@.take(i as int)),
            r@.len() == 2 * i,
    {
        let b = bytes[i];
        r.append(hex_str(b / 16));
        r.append(hex_str(b % 16));
        proof {
            assert(bytes@.take(i + 1).drop_last() =~= bytes@.take(i as int));
            assert(bytes@.take(i + 1).last() == bytes@[i as int]);
            lemma_uhex_len(bytes@.take(i + 1));
        }
    }
    proof {
        assert(bytes@.take(n as int) =~= bytes@);
    }
    r
}

/// The hex form of a byte string is twice as long.
pub proof fn lemma_uhex_len(data: Seq<u8>)
    ensures
        uhex_of(data).len() == 2 * data.len(),
    decreases data.len(),
{
    if data.len() > 0 {
        lemma_uhex_len(data.drop_last());
    }
}

/// The running XOR8 accumulator: a byte-wide sum of all bytes.
pub open spec fn spec_lrc_sum(data: Seq<u8>) -> u16
    decreases data.len(),
{
    if data.len() == 0 {
        0u16
    } else {
        ((spec_lrc_sum(data.drop_last()) + data.last()) as u16) & 0xFF
    }
}

/// The XOR8 longitudinal redundancy check of a byte string.
pub open spec fn spec_xor8(data: Seq<u8>) -> u8 {
    (((((spec_lrc_sum(data) ^ 0xFF) + 1) as u16) & 0xFF) as u8)
}

proof fn lemma_lrc_sum_bound(data: Seq<u8>)
    ensures
        spec_lrc_sum(data) <= 0xFF,
    decreases data.len(),
{
    if data.len() == 0 {
    } else {
        lemma_lrc_sum_bound(data.drop_last());
        let x: u16 = (spec_lrc_sum(data.drop_last()) + data.last()) as u16;
        assert(x & 0xFF <= 0xFF) by (bit_vector);
    }
}

/// The XOR8 check, computed here byte by byte.
fn xor8_hash(data: &[u8]) -> (r: u8)
    ensures
        r == spec_xor8(data@),
{
    let mut lrc: u16 = 0;
    let n = data.len();
    proof {
        assert(data@.take(0) =~= Seq::<u8>::empty());
    }
    for i in 0..n
        invariant
            n == data@.len(),
            lrc == spec_lrc_sum(data@.take(i as int)),
            lrc <= 0xFF,
    {
        let b = data[i];
        proof {
            assert(data@.take(i + 1).drop_last() =~= data@.take(i as int));
            assert(data@.take(i + 1).last() == data@[i as int]);
            let x: u16 = (lrc + b) as u16;
            assert(x & 0xFF <= 0xFF) by (bit_vector);
        }
        lrc = (lrc + b as u16) & 0xFF;
    }
    proof {
        assert(data@.take(n as int) =~= data@);
        assert(lrc ^ 0xFF <= 0xFF) by (bit_vector)
            requires
                lrc <= 0xFF,
        ;
    }
    let flipped: u16 = lrc ^ 0xFF;
    let bumped: u16 = flipped + 1;
    (bumped & 0xFF) as u8
}

/// The big-endian bytes of a 16-bit word.
pub open spec fn spec_u16_be(x: u16) -> Seq<u8> {
    seq![(x >> 8) as u8, x as u8]
}

/// The big-endian bytes of a 32-bit word.
pub open spec fn spec_u32_be(x: u32) -> Seq<u8> {
    seq![(x >> 24) as u8, (x >> 16) as u8, (x >> 8) as u8, x as u8]
}

/// The big-endian bytes of a 64-bit word.
pub open spec fn spec_u64_be(x: u64) -> Seq<u8> {
    seq![
        (x >> 56) as u8,
        (x >> 48) as u8,
        (x >> 40) as u8,
        (x >> 32) as u8,
        (x >> 24) as u8,
        (x >> 16) as u8,
        (x >> 8) as u8,
        x as u8,
    ]
}

fn u16_be(x: u16) -> (r: Vec<u8>)
    ensures
        r@ == spec_u16_be(x),
{
    let mut r: Vec<u8> = Vec::new();
    r.push((x >> 8) as u8);
    r.push(x as u8);
    proof {
        assert(r@ =~= spec_u16_be(x));
    }
    r
}

fn u32_be(x: u32) -> (r: Vec<u8>)
    ensures
        r@ == spec_u32_be(x),
{
    let mut r: Vec<u8> = Vec::new();
    r.push((x >> 24) as u8);
    r.push((x >> 16) as u8);
    r.push((x >> 8) as u8);
    r.push(x as u8);
    proof {
        assert(r@ =~= spec_u32_be(x));
    }
    r
}

fn u64_be(x: u64) -> (r: Vec<u8>)
    ensures
        r@ == spec_u64_be(x),
{
    let mut r: Vec<u8> = Vec::new();
    r.push((x >> 56) as u8);
    r.push((x >> 48) as u8);
    r.push((x >> 40) as u8);
    r.push((x >> 32) as u8);
    r.push((x >> 24) as u8);
    r.push((x >> 16) as u8);
    r.push((x >> 8) as u8);
    r.push(x as u8);
    proof {
        assert(r@ =~= spec_u64_be(x));
    }
    r
}

pub uninterp spec fn sha1_of(data: Seq<u8>) -> Seq<u8>;

pub uninterp spec fn sha2_224_of(data: Seq<u8>) -> Seq<u8>;

pub uninterp spec fn sha2_256_of(data: Seq<u8>) -> Seq<u8>;

pub uninterp spec fn sha2_384_of(data: Seq<u8>) -> Seq<u8>;

pub uninterp spec fn sha2_512_of(data: Seq<u8>) -> Seq<u8>;

pub uninterp spec fn sha3_256_of(data: Seq<u8>) -> Seq<u8>;

pub uninterp spec fn sha3_512_of(data: Seq<u8>) -> Seq<u8>;

pub uninterp spec fn blake_of(data: Seq<u8>) -> Seq<u8>;

pub uninterp spec fn blake2b_of(data: Seq<u8>) -> Seq<u8>;

pub uninterp spec fn blake2s_of(data: Seq<u8>) -> Seq<u8>;

pub uninterp spec fn blake3_of(data: Seq<u8>) -> Seq<u8>;

pub uninterp spec fn md5_of(data: Seq<u8>) -> Seq<u8>;

pub uninterp spec fn md6_128_of(data: Seq<u8>) -> Seq<u8>;

pub uninterp spec fn md6_256_of(data: Seq<u8>) -> Seq<u8>;

pub uninterp spec fn md6_512_of(data: Seq<u8>) -> Seq<u8>;

pub uninterp spec fn crc64_of(data: Seq<u8>) -> u64;

pub uninterp spec fn crc32_of(data: Seq<u8>) -> u32;

pub uninterp spec fn crc32c_of(data: Seq<u8>) -> u32;

pub uninterp spec fn crc16_of(data: Seq<u8>) -> u16;

pub uninterp spec fn crc8_of(data: Seq<u8>) -> u8;

/// Relies on shaman's Sha1: a 160-bit digest of the data alone.
#[verifier::external_body]
fn sha1_digest(data: &[u8]) -> (r: Vec<u8>)
    ensures
        r@ == sha1_of(data@),
        r@.len() == 20,
{
    let mut h = shaman::sha1::Sha1::new();
    h.input(data);
    let mut out = vec![0u8; 20];
    h.result(&mut out);
    out
}

/// Relies on shaman's Sha224: a 224-bit digest of the data alone.
#[verifier::external_body]
fn sha2_224_digest(data: &[u8]) -> (r: Vec<u8>)
    ensures
        r@ == sha2_224_of(data@),
        r@.len() == 28,
{
    let mut h = shaman::sha2::Sha224::new();
    h.input(data);
    let mut out = vec![0u8; 28];
    h.result(&mut out);
    out
}

/// Relies on shaman's Sha256: a 256-bit digest of the data alone.
#[verifier::external_body]
fn sha2_256_digest(data: &[u8]) -> (r: Vec<u8>)
    ensures
        r@ == sha2_256_of(data@),
        r@.len() == 32,
{
    let mut h = shaman::sha2::Sha256::new();
    h.input(data);
    let mut out = vec![0u8; 32];
    h.result(&mut out);
    out
}

/// Relies on shaman's Sha384: a 384-bit digest of the data alone.
#[verifier::external_body]
fn sha2_384_digest(data: &[u8]) -> (r: Vec<u8>)
    ensures
        r@ == sha2_384_of(data@),
        r@.len() == 48,
{
    let mut h = shaman::sha2::Sha384::new();
    h.input(data);
    let mut out = vec![0u8; 48];
    h.result(&mut out);
    out
}

/// Relies on shaman's Sha512: a 512-bit digest of the data alone.
#[verifier::external_body]
fn sha2_512_digest(data: &[u8]) -> (r: Vec<u8>)
    ensures
        r@ == sha2_512_of(data@),
        r@.len() == 64,
{
    let mut h = shaman::sha2::Sha512::new();
    h.input(data);
    let mut out = vec![0u8; 64];
    h.result(&mut out);
    out
}

/// Relies on tiny-keccak's Sha3::v256: a 256-bit digest of the data alone.
#[verifier::external_body]
fn sha3_256_digest(data: &[u8]) -> (r: Vec<u8>)
    ensures
        r@ == sha3_256_of(data@),
        r@.len() == 32,
{
    let mut h = tiny_keccak::Sha3::v256();
    h.update(data);
    let mut out = vec![0u8; 32];
    h.finalize(&mut out);
    out
}

/// Relies on tiny-keccak's Sha3::v512: a 512-bit digest of the data alone.
#[verifier::external_body]
fn sha3_512_digest(data: &[u8]) -> (r: Vec<u8>)
    ensures
        r@ == sha3_512_of(data@),
        r@.len() == 64,
{
    let mut h = tiny_keccak::Sha3::v512();
    h.update(data);
    let mut out = vec![0u8; 64];
    h.finalize(&mut out);
    out
}

/// Relies on blake's 512-bit mode: a digest of the data alone; 512 is an
/// output length its source accepts.
#[verifier::external_body]
fn blake_digest(data: &[u8]) -> (r: Vec<u8>)
    ensures
        r@ == blake_of(data@),
        r@.len() == 64,
{
    let mut out = vec![0u8; 64];
    blake::hash(512, data, &mut out).unwrap();
    out
}

/// Relies on blake2-rfc's Blake2b with 64-byte output: a digest of the
/// data alone.
#[verifier::external_body]
fn blake2b_digest(data: &[u8]) -> (r: Vec<u8>)
    ensures
        r@ == blake2b_of(data@),
        r@.len() == 64,
{
    let mut h = blake2_rfc::blake2b::Blake2b::new(64);
    h.update(data);
    h.finalize().as_bytes().to_vec()
}

/// Relies on blake2-rfc's Blake2s with 32-byte output: a digest of the
/// data alone.
#[verifier::external_body]
fn blake2s_digest(data: &[u8]) -> (r: Vec<u8>)
    ensures
        r@ == blake2s_of(data@),
        r@.len() == 32,
{
    let mut h = blake2_rfc::blake2s::Blake2s::new(32);
    h.update(data);
    h.finalize().as_bytes().to_vec()
}

/// Relies on blake3::hash: a 256-bit digest of the data alone.
#[verifier::external_body]
fn blake3_digest(data: &[u8]) -> (r: Vec<u8>)
    ensures
        r@ == blake3_of(data@),
        r@.len() == 32,
{
    blake3::hash(data).as_bytes().to_vec()
}

/// Relies on md-5's Md5: a 128-bit digest of the data alone.
#[verifier::external_body]
fn md5_digest(data: &[u8]) -> (r: Vec<u8>)
    ensures
        r@ == md5_of(data@),
        r@.len() == 16,
{
    let mut h = md5::Md5::new();
    h.update(data);
    h.finalize().to_vec()
}

/// Relies on md6::hash in 128-bit mode: a digest of the data alone; 128
/// is an output length its source accepts.
#[verifier::external_body]
fn md6_128_digest(data: &[u8]) -> (r: Vec<u8>)
    ensures
        r@ == md6_128_of(data@),
        r@.len() == 16,
{
    let mut out = vec![0u8; 16];
    md6::hash(128, data, &mut out).unwrap();
    out
}

/// Relies on md6::hash in 256-bit mode: a digest of the data alone.
#[verifier::external_body]
fn md6_256_digest(data: &[u8]) -> (r: Vec<u8>)
    ensures
        r@ == md6_256_of(data@),
        r@.len() == 32,
{
    let mut out = vec![0u8; 32];
    md6::hash(256, data, &mut out).unwrap();
    out
}

/// Relies on md6::hash in 512-bit mode: a digest of the data alone.
#[verifier::external_body]
fn md6_512_digest(data: &[u8]) -> (r: Vec<u8>)
    ensures
        r@ == md6_512_of(data@),
        r@.len() == 64,
{
    let mut out = vec![0u8; 64];
    md6::hash(512, data, &mut out).unwrap();
    out
}

/// Relies on crc's CRC-64/GO-ISO parameters: a checksum of the data alone.
#[verifier::external_body]
fn crc64_sum(data: &[u8]) -> (r: u64)
    ensures
        r == crc64_of(data@),
{
    crc::Crc::<u64>::new(&crc::CRC_64_GO_ISO).checksum(data)
}

/// Relies on crc's CRC-32/ISO-HDLC (IEEE) parameters: a checksum of the
/// data alone.
#[verifier::external_body]
fn crc32_sum(data: &[u8]) -> (r: u32)
    ensures
        r == crc32_of(data@),
{
    crc::Crc::<u32>::new(&crc::CRC_32_ISO_HDLC).checksum(data)
}

/// Relies on crc32c::crc32c: the Castagnoli checksum of the data alone.
#[verifier::external_body]
fn crc32c_sum(data: &[u8]) -> (r: u32)
    ensures
        r == crc32c_of(data@),
{
    crc32c::crc32c(data)
}

/// Relies on crc16's ARC mode: a checksum of the data alone.
#[verifier::external_body]
fn crc16_sum(data: &[u8]) -> (r: u16)
    ensures
        r == crc16_of(data@),
{
    crc16::State::<crc16::ARC>::calculate(data)
}

/// Relies on crc8 with the 0x9B polynomial, least-significant-bit first,
/// from a zero start: a checksum of the data alone.  Its length argument
/// is an `i32`, so longer data is left out.
#[verifier::external_body]
fn crc8_sum(data: &[u8]) -> (r: u8)
    requires
        data@.len() <= i32::MAX,
    ensures
        r == crc8_of(data@),
{
    let mut c = crc8::Crc8::create_lsb(0x9b);
    c.calc(data, data.len() as i32, 0)
}

/// How many characters `hash_reader` really emits.  For most algorithms
/// this is the table's `hexlen`; for SHA2-224 and SHA2-384 the table
/// records the digest's byte count instead, while the emitted hex string
/// has two characters per digest byte.
pub open spec fn spec_hash_len(algo: Algorithm) -> nat {
    match algo {
        Algorithm::SHA2224 => 56,
        Algorithm::SHA2384 => 96,
        _ => spec_hexlen(algo),
    }
}

/// The hash string that `algo` gives to `data`: the digest bytes, or the
/// checksum word in big-endian bytes, as uppercase hex.
pub open spec fn spec_hash_reader(data: Seq<u8>, algo: Algorithm) -> Seq<char> {
    match algo {
        Algorithm::SHA1 => uhex_of(sha1_of(data)),
        Algorithm::SHA2224 => uhex_of(sha2_224_of(data)),
        Algorithm::SHA2256 => uhex_of(sha2_256_of(data)),
        Algorithm::SHA2384 => uhex_of(sha2_384_of(data)),
        Algorithm::SHA2512 => uhex_of(sha2_512_of(data)),
        Algorithm::SHA3256 => uhex_of(sha3_256_of(data)),
        Algorithm::SHA3512 => uhex_of(sha3_512_of(data)),
        Algorithm::BLAKE => uhex_of(blake_of(data)),
        Algorithm::BLAKE2B => uhex_of(blake2b_of(data)),
        Algorithm::BLAKE2S => uhex_of(blake2s_of(data)),
        Algorithm::BLAKE3 => uhex_of(blake3_of(data)),
        Algorithm::CRC64 => uhex_of(spec_u64_be(crc64_of(data))),
        Algorithm::CRC32 => uhex_of(spec_u32_be(crc32_of(data))),
        Algorithm::CRC32C => uhex_of(spec_u32_be(crc32c_of(data))),
        Algorithm::CRC16 => uhex_of(spec_u16_be(crc16_of(data))),
        Algorithm::CRC8 => uhex_of(seq![crc8_of(data)]),
        Algorithm::MD5 => uhex_of(md5_of(data)),
        Algorithm::MD6128 => uhex_of(md6_128_of(data)),
        Algorithm::MD6256 => uhex_of(md6_256_of(data)),
        Algorithm::MD6512 => uhex_of(md6_512_of(data)),
        Algorithm::XOR8 => uhex_of(seq![spec_xor8(data)]),
    }
}

/// Hash the given bytes using the given hashing algorithm.  The CRC8
/// backend measures its input with an `i32`, so longer data is left out
/// for that algorithm alone.
pub fn hash_reader(data: &[u8], algo: Algorithm) -> (r: String)
    requires
        algo == Algorithm::CRC8 ==> data@.len() <= i32::MAX,
    ensures
        r@ == spec_hash_reader(data@, algo),
        r@.len() == spec_hash_len(algo),
{
    match algo {
        Algorithm::SHA1 => hash_string(sha1_digest(data).as_slice()),
        Algorithm::SHA2224 => hash_string(sha2_224_digest(data).as_slice()),
        Algorithm::SHA2256 => hash_string(sha2_256_digest(data).as_slice()),
        Algorithm::SHA2384 => hash_string(sha2_384_digest(data).as_slice()),
        Algorithm::SHA2512 => hash_string(sha2_512_digest(data).as_slice()),
        Algorithm::SHA3256 => hash_string(sha3_256_digest(data).as_slice()),
        Algorithm::SHA3512 => hash_string(sha3_512_digest(data).as_slice()),
        Algorithm::BLAKE => hash_string(blake_digest(data).as_slice()),
        Algorithm::BLAKE2B => hash_string(blake2b_digest(data).as_slice()),
        Algorithm::BLAKE2S => hash_string(blake2s_digest(data).as_slice()),
        Algorithm::BLAKE3 => hash_string(blake3_digest(data).as_slice()),
        Algorithm::CRC64 => hash_string(u64_be(crc64_sum(data)).as_slice()),
        Algorithm::CRC32 => hash_string(u32_be(crc32_sum(data)).as_slice()),
        Algorithm::CRC32C => hash_string(u32_be(crc32c_sum(data)).as_slice()),
        Algorithm::CRC16 => hash_string(u16_be(crc16_sum(data)).as_slice()),
        Algorithm::CRC8 => {
            let mut b: Vec<u8> = Vec::new();
            b.push(crc8_sum(data));
            proof {
                assert(b@ =~= seq![crc8_of(data@)]);
            }
            hash_string(b.as_slice())
        },
        Algorithm::MD5 => hash_string(md5_digest(data).as_slice()),
        Algorithm::MD6128 => hash_string(md6_128_digest(data).as_slice()),
        Algorithm::MD6256 => hash_string(md6_256_digest(data).as_slice()),
        Algorithm::MD6512 => hash_string(md6_512_digest(data).as_slice()),
        Algorithm::XOR8 => {
            let mut b: Vec<u8> = Vec::new();
            b.push(xor8_hash(data));
            proof {
                assert(b@ =~= seq![spec_xor8(data@)]);
            }
            hash_string(b.as_slice())
        },
    }
}

} // verus!
