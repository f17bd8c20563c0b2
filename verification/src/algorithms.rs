//! The table of supported hashing algorithms: the identifier of each, the
//! length of its uppercase-hex output, and the parsing of an identifier
//! from user-supplied text.

use vstd::prelude::*;

verus! {

/// A hashing algorithm.
#[derive(Debug, Clone, Copy, Hash, PartialEq, Eq, Structural)]
pub enum Algorithm {
    SHA1,
    /// SHA2-224
    SHA2224,
    /// SHA2-256
    SHA2256,
    /// SHA2-384
    SHA2384,
    /// SHA2-512
    SHA2512,
    /// SHA3-256
    SHA3256,
    /// SHA3-512
    SHA3512,
    BLAKE,
    BLAKE2B,
    BLAKE2S,
    BLAKE3,
    CRC64,
    CRC32,
    /// CRC-32-Castagnoli
    CRC32C,
    CRC16,
    CRC8,
    MD5,
    /// MD6-128
    MD6128,
    /// MD6-256
    MD6256,
    /// MD6-512
    MD6512,
    XOR8,
}

impl Algorithm {
    /// Compatibility alias.
    pub const BLAKE2: Algorithm = Algorithm::BLAKE2B;
}

/// Length, in characters, of the hex string that `algo` produces.
pub open spec fn spec_hexlen(algo: Algorithm) -> nat {
    match algo {
        Algorithm::XOR8 | Algorithm::CRC8 => 2,
        Algorithm::CRC16 => 4,
        Algorithm::CRC32C | Algorithm::CRC32 => 8,
        Algorithm::CRC64 => 16,
        Algorithm::SHA2224 => 28,
        Algorithm::MD5 | Algorithm::MD6128 => 32,
        Algorithm::SHA1 => 40,
        Algorithm::SHA2384 => 48,
        Algorithm::SHA2256
        | Algorithm::SHA3256
        | Algorithm::BLAKE2S
        | Algorithm::BLAKE3
        | Algorithm::MD6256 => 64,
        Algorithm::SHA2512
        | Algorithm::SHA3512
        | Algorithm::BLAKE
        | Algorithm::BLAKE2B
        | Algorithm::MD6512 => 128,
    }
}

impl Algorithm {
    /// Length, in bytes, of the algorithm's output hex string.
    pub fn hexlen(&self) -> (r: usize)
        ensures
            r == spec_hexlen(*self),
            1 <= r <= 128,
    {
        match *self {
            Algorithm::XOR8 | Algorithm::CRC8 => 2,
            Algorithm::CRC16 => 4,
            Algorithm::CRC32C | Algorithm::CRC32 => 8,
            Algorithm::CRC64 => 16,
            Algorithm::SHA2224 => 28,
            Algorithm::MD5 | Algorithm::MD6128 => 32,
            Algorithm::SHA1 => 40,
            Algorithm::SHA2384 => 48,
            Algorithm::SHA2256
            | Algorithm::SHA3256
            | Algorithm::BLAKE2S
            | Algorithm::BLAKE3
            | Algorithm::MD6256 => 64,
            Algorithm::SHA2512
            | Algorithm::SHA3512
            | Algorithm::BLAKE
            | Algorithm::BLAKE2B
            | Algorithm::MD6512 => 128,
        }
    }
}

/// One character of an algorithm identifier, normalised: ASCII uppercase
/// letters are lowered, `_` becomes `-`, and the Kelvin sign (the one
/// Unicode character whose lowercase form is an ASCII letter) becomes `k`.
pub open spec fn spec_norm_char(c: char) -> char {
    if c == '_' {
        '-'
    } else if c == '\u{212A}' {
        'k'
    } else if 'A' <= c && c <= 'Z' {
        spec_lower_char(c)
    } else {
        c
    }
}

/// The lowercase form of an ASCII uppercase letter.
pub open spec fn spec_lower_char(c: char) -> char {
    if c == 'A' { 'a' } else if c == 'B' { 'b' } else if c == 'C' { 'c' }
    else if c == 'D' { 'd' } else if c == 'E' { 'e' } else if c == 'F' { 'f' }
    else if c == 'G' { 'g' } else if c == 'H' { 'h' } else if c == 'I' { 'i' }
    else if c == 'J' { 'j' } else if c == 'K' { 'k' } else if c == 'L' { 'l' }
    else if c == 'M' { 'm' } else if c == 'N' { 'n' } else if c == 'O' { 'o' }
    else if c == 'P' { 'p' } else if c == 'Q' { 'q' } else if c == 'R' { 'r' }
    else if c == 'S' { 's' } else if c == 'T' { 't' } else if c == 'U' { 'u' }
    else if c == 'V' { 'v' } else if c == 'W' { 'w' } else if c == 'X' { 'x' }
    else if c == 'Y' { 'y' } else if c == 'Z' { 'z' } else { c }
}

/// An identifier normalised character by character.
pub open spec fn spec_norm(s: Seq<char>) -> Seq<char> {
    s.map_values(|c: char| spec_norm_char(c))
}

fn norm_char(c: char) -> (r: char)
    ensures
        r == spec_norm_char(c),
{
    match c {
        '_' => '-',
        '\u{212A}' => 'k',
        'A' => 'a', 'B' => 'b', 'C' => 'c', 'D' => 'd', 'E' => 'e', 'F' => 'f',
        'G' => 'g', 'H' => 'h', 'I' => 'i', 'J' => 'j', 'K' => 'k', 'L' => 'l',
        'M' => 'm', 'N' => 'n', 'O' => 'o', 'P' => 'p', 'Q' => 'q', 'R' => 'r',
        'S' => 's', 'T' => 't', 'U' => 'u', 'V' => 'v', 'W' => 'w', 'X' => 'x',
        'Y' => 'y', 'Z' => 'z',
        _ => c,
    }
}

/// Normalise a whole identifier into a vector of characters.
fn normalize(s: &str) -> (r: Vec<char>)
    ensures
        r@ == spec_norm(s@),
{
    let n = s.unicode_len();
    let mut r: Vec<char> = Vec::new();
    for i in 0..n
        invariant
            n == s@.len(),
            r@ == spec_norm(s@.take(i as int)),
    {
        let c = s.get_char(i);
        r.push(norm_char(c));
        assert(r@ =~= spec_norm(s@.take(i + 1)));
    }
    assert(s@.take(n as int) =~= s@);
    r
}

/// True when the characters in `v` spell exactly the string `lit`.
fn chars_eq_str(v: &Vec<char>, lit: &str) -> (r: bool)
    ensures
        r == (v@ == lit@),
{
    let n = lit.unicode_len();
    if v.len() != n {
        proof {
            assert(v@.len() != lit@.len());
        }
        return false;
    }
    for i in 0..n
        invariant
            n == lit@.len(),
            n == v@.len(),
            forall|j: int| 0 <= j < i ==> v@[j] == lit@[j],
    {
        if v[i] != lit.get_char(i) {
            return false;
        }
    }
    proof {
        assert(v@ =~= lit@);
    }
    true
}

/// Which algorithm, if any, an identifier names once normalised.
pub open spec fn spec_parse_algorithm(s: Seq<char>) -> Option<Algorithm> {
    let n = spec_norm(s);
    if n == "sha-1"@ || n == "sha1"@ {
        Some(Algorithm::SHA1)
    } else if n == "sha2256"@ || n == "sha2-256"@ || n == "sha-2-256"@ {
        Some(Algorithm::SHA2256)
    } else if n == "sha2224"@ || n == "sha2-224"@ || n == "sha-2-224"@ {
        Some(Algorithm::SHA2224)
    } else if n == "sha2384"@ || n == "sha2-384"@ || n == "sha-2-384"@ {
        Some(Algorithm::SHA2384)
    } else if n == "sha2"@ || n == "sha-2"@ || n == "sha2512"@ || n == "sha2-512"@
        || n == "sha-2-512"@ {
        Some(Algorithm::SHA2512)
    } else if n == "sha3256"@ || n == "sha3-256"@ || n == "sha-3-256"@ {
        Some(Algorithm::SHA3256)
    } else if n == "sha3"@ || n == "sha-3"@ || n == "sha3512"@ || n == "sha3-512"@
        || n == "sha-3-512"@ {
        Some(Algorithm::SHA3512)
    } else if n == "blake"@ {
        Some(Algorithm::BLAKE)
    } else if n == "blake2"@ || n == "blake2b"@ {
        Some(Algorithm::BLAKE2B)
    } else if n == "blake2s"@ {
        Some(Algorithm::BLAKE2S)
    } else if n == "blake3"@ {
        Some(Algorithm::BLAKE3)
    } else if n == "crc64"@ {
        Some(Algorithm::CRC64)
    } else if n == "crc32c"@ || n == "crc32-c"@ || n == "crc32castagnoli"@
        || n == "crc32-castagnoli"@ {
        Some(Algorithm::CRC32C)
    } else if n == "crc32"@ {
        Some(Algorithm::CRC32)
    } else if n == "crc16"@ {
        Some(Algorithm::CRC16)
    } else if n == "crc8"@ {
        Some(Algorithm::CRC8)
    } else if n == "md5"@ {
        Some(Algorithm::MD5)
    } else if n == "md6128"@ || n == "md6-128"@ {
        Some(Algorithm::MD6128)
    } else if n == "md6256"@ || n == "md6-256"@ {
        Some(Algorithm::MD6256)
    } else if n == "md6512"@ || n == "md6-512"@ {
        Some(Algorithm::MD6512)
    } else if n == "xor8"@ {
        Some(Algorithm::XOR8)
    } else {
        None
    }
}

/// The message reported for an identifier that names no algorithm.
pub open spec fn spec_bad_algorithm_message(s: Seq<char>) -> Seq<char> {
    "\""@ + s + "\" is not a recognised hashing algorithm"@
}

impl Algorithm {
    /// Parse an algorithm identifier, ignoring case and treating `_` as `-`.
    pub fn from_str(s: &str) -> (r: Result<Algorithm, String>)
        ensures
            match spec_parse_algorithm(s@) {
                Some(a) => r == Ok::<Algorithm, String>(a),
                None => r is Err && r->Err_0@ == spec_bad_algorithm_message(s@),
            },
    {
        let n = normalize(s);
        if chars_eq_str(&n, "sha-1") || chars_eq_str(&n, "sha1") {
            Ok(Algorithm::SHA1)
        } else if chars_eq_str(&n, "sha2256") || chars_eq_str(&n, "sha2-256")
            || chars_eq_str(&n, "sha-2-256") {
            Ok(Algorithm::SHA2256)
        } else if chars_eq_str(&n, "sha2224") || chars_eq_str(&n, "sha2-224")
            || chars_eq_str(&n, "sha-2-224") {
            Ok(Algorithm::SHA2224)
        } else if chars_eq_str(&n, "sha2384") || chars_eq_str(&n, "sha2-384")
            || chars_eq_str(&n, "sha-2-384") {
            Ok(Algorithm::SHA2384)
        } else if chars_eq_str(&n, "sha2") || chars_eq_str(&n, "sha-2")
            || chars_eq_str(&n, "sha2512") || chars_eq_str(&n, "sha2-512")
            || chars_eq_str(&n, "sha-2-512") {
            Ok(Algorithm::SHA2512)
        } else if chars_eq_str(&n, "sha3256") || chars_eq_str(&n, "sha3-256")
            || chars_eq_str(&n, "sha-3-256") {
            Ok(Algorithm::SHA3256)
        } else if chars_eq_str(&n, "sha3") || chars_eq_str(&n, "sha-3")
            || chars_eq_str(&n, "sha3512") || chars_eq_str(&n, "sha3-512")
            || chars_eq_str(&n, "sha-3-512") {
            Ok(Algorithm::SHA3512)
        } else if chars_eq_str(&n, "blake") {
            Ok(Algorithm::BLAKE)
        } else if chars_eq_str(&n, "blake2") || chars_eq_str(&n, "blake2b") {
            Ok(Algorithm::BLAKE2B)
        } else if chars_eq_str(&n, "blake2s") {
            Ok(Algorithm::BLAKE2S)
        } else if chars_eq_str(&n, "blake3") {
            Ok(Algorithm::BLAKE3)
        } else if chars_eq_str(&n, "crc64") {
            Ok(Algorithm::CRC64)
        } else if chars_eq_str(&n, "crc32c") || chars_eq_str(&n, "crc32-c")
            || chars_eq_str(&n, "crc32castagnoli") || chars_eq_str(&n, "crc32-castagnoli") {
            Ok(Algorithm::CRC32C)
        } else if chars_eq_str(&n, "crc32") {
            Ok(Algorithm::CRC32)
        } else if chars_eq_str(&n, "crc16") {
            Ok(Algorithm::CRC16)
        } else if chars_eq_str(&n, "crc8") {
            Ok(Algorithm::CRC8)
        } else if chars_eq_str(&n, "md5") {
            Ok(Algorithm::MD5)
        } else if chars_eq_str(&n, "md6128") || chars_eq_str(&n, "md6-128") {
            Ok(Algorithm::MD6128)
        } else if chars_eq_str(&n, "md6256") || chars_eq_str(&n, "md6-256") {
            Ok(Algorithm::MD6256)
        } else if chars_eq_str(&n, "md6512") || chars_eq_str(&n, "md6-512") {
            Ok(Algorithm::MD6512)
        } else if chars_eq_str(&n, "xor8") {
            Ok(Algorithm::XOR8)
        } else {
            let mut msg = String::new();
            msg.append("\"");
            msg.append(s);
            msg.append("\" is not a recognised hashing algorithm");
            Err(msg)
        }
    }
}

impl core::str::FromStr for Algorithm {
    type Err = String;

    fn from_str(s: &str) -> Result<Self, Self::Err> {
        Algorithm::from_str(s)
    }
}

} // verus!
