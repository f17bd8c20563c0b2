//! The configurable values of a run and their validation: the recursion
//! budget of the directory walk, and the checks applied to user-supplied
//! algorithm, depth and job-count arguments.

use vstd::prelude::*;
use crate::algorithms::{spec_parse_algorithm, Algorithm};

verus! {

/// Recursion budget of the directory walk: unbounded, this level only,
/// or a positive number of further levels.
#[derive(Debug, Clone, Copy, Hash, PartialEq, Eq, Structural)]
pub enum DepthSetting {
    /// Recurse without bound.
    Infinite,
    /// Hash the direct children only; recurse no further.
    LastLevel,
    /// This many more levels may be entered.
    NRemaining(u64),
}

impl DepthSetting {
    /// Whether a subdirectory may be entered at all at this budget.
    pub fn can_recurse(&self) -> (r: bool)
        ensures
            r == !(*self is LastLevel),
    {
        match *self {
            DepthSetting::LastLevel => false,
            _ => true,
        }
    }

    /// The budget that a subdirectory receives: unchanged when infinite,
    /// counted down otherwise, collapsing to `LastLevel` at zero; from
    /// `LastLevel` there is no next level.
    pub fn next_level(&self) -> (r: Option<DepthSetting>)
        ensures
            *self is Infinite ==> r == Some(DepthSetting::Infinite),
            *self is LastLevel ==> r is None,
            *self matches DepthSetting::NRemaining(n) ==> r == Some(
                if n <= 1 {
                    DepthSetting::LastLevel
                } else {
                    DepthSetting::NRemaining((n - 1) as u64)
                },
            ),
    {
        match *self {
            DepthSetting::Infinite => Some(DepthSetting::Infinite),
            DepthSetting::LastLevel => None,
            DepthSetting::NRemaining(n) => Some(
                if n <= 1 {
                    DepthSetting::LastLevel
                } else {
                    DepthSetting::NRemaining(n - 1)
                },
            ),
        }
    }
}

/// An ASCII decimal digit.
pub open spec fn is_digit(c: char) -> bool {
    '0' <= c && c <= '9'
}

/// The numeric value of a digit.
pub open spec fn digit_val(c: char) -> int {
    c as int - '0' as int
}

/// Every character of `s` is a digit.
pub open spec fn all_digits(s: Seq<char>) -> bool {
    forall|i: int| 0 <= i < s.len() ==> is_digit(s[i])
}

/// The value of a digit string, most significant first.
pub open spec fn digits_val(s: Seq<char>) -> int
    decreases s.len(),
{
    if s.len() == 0 {
        0
    } else {
        digits_val(s.drop_last()) * 10 + digit_val(s.last())
    }
}

/// The value of a signed decimal literal, when the text is one and the
/// value fits in an `i64`; `None` otherwise.
pub open spec fn spec_parse_i64(s: Seq<char>) -> Option<int> {
    let signed = s.len() > 0 && (s[0] == '-' || s[0] == '+');
    let neg = s.len() > 0 && s[0] == '-';
    let digits = if signed {
        s.skip(1)
    } else {
        s
    };
    if digits.len() >= 1 && all_digits(digits) {
        let v = if neg {
            -digits_val(digits)
        } else {
            digits_val(digits)
        };
        if i64::MIN <= v <= i64::MAX {
            Some(v)
        } else {
            None
        }
    } else {
        None
    }
}

proof fn lemma_digits_val_nonneg(s: Seq<char>)
    requires
        all_digits(s),
    ensures
        digits_val(s) >= 0,
    decreases s.len(),
{
    if s.len() > 0 {
        lemma_digits_val_nonneg(s.drop_last());
    }
}

proof fn lemma_digits_val_step(s: Seq<char>, i: int)
    requires
        0 <= i < s.len(),
    ensures
        digits_val(s.take(i + 1)) == digits_val(s.take(i)) * 10 + digit_val(s[i]),
{
    assert(s.take(i + 1).drop_last() =~= s.take(i));
    assert(s.take(i + 1).last() == s[i]);
}

/// A longer digit string is worth at least as much as its prefix.
proof fn lemma_digits_val_prefix_le(s: Seq<char>, i: int)
    requires
        all_digits(s),
        0 <= i <= s.len(),
    ensures
        digits_val(s.take(i)) <= digits_val(s),
    decreases s.len() - i,
{
    if i == s.len() {
        assert(s.take(i) =~= s);
    } else {
        lemma_digits_val_step(s, i);
        assert(all_digits(s.take(i))) by {
            assert(forall|j: int| 0 <= j < i ==> s.take(i)[j] == s[j]);
        }
        lemma_digits_val_nonneg(s.take(i));
        lemma_digits_val_prefix_le(s, i + 1);
    }
}

/// Parse a signed 64-bit decimal literal.
pub fn parse_i64(s: &str) -> (r: Option<i64>)
    ensures
        match spec_parse_i64(s@) {
            Some(v) => r is Some && r->0 == v,
            None => r is None,
        },
{
    let n = s.unicode_len();
    if n == 0 {
        return None;
    }
    let first = s.get_char(0);
    let neg = first == '-';
    let start: usize = if first == '-' || first == '+' {
        1
    } else {
        0
    };
    if start == n {
        return None;
    }
    let ghost digits = if start == 1 {
        s@.skip(1)
    } else {
        s@
    };
    // Largest magnitude that still fits: one more for the negative side.
    let limit: u64 = if neg {
        9223372036854775808
    } else {
        9223372036854775807
    };
    let mut mag: u64 = 0;
    let mut i: usize = start;
    while i < n
        invariant
            n == s@.len(),
            start <= i <= n,
            start == 0 || start == 1,
            start == 1 <==> (s@[0] == '-' || s@[0] == '+'),
            neg <==> s@[0] == '-',
            digits == if start == 1 {
                s@.skip(1)
            } else {
                s@
            },
            digits.len() == n - start,
            all_digits(digits.take(i - start)),
            mag == digits_val(digits.take(i - start)),
            mag <= limit,
            limit == if neg {
                9223372036854775808u64
            } else {
                9223372036854775807u64
            },
        decreases n - i,
    {
        let c = s.get_char(i);
        proof {
            assert(digits[i - start] == s@[i as int]);
        }
        if c < '0' || c > '9' {
            proof {
                assert(!all_digits(digits));
                assert(spec_parse_i64(s@) is None);
            }
            return None;
        }
        let d: u64 = (c as u32 - '0' as u32) as u64;
        proof {
            assert(d == digit_val(c));
            lemma_digits_val_step(digits, i - start);
        }
        if mag > (limit - d) / 10 {
            // The value no longer fits; nothing that follows can shrink it.
            proof {
                assert(mag * 10 + d > limit) by (nonlinear_arith)
                    requires
                        mag > (limit - d) / 10,
                        0 <= d <= 9,
                        limit >= 9,
                ;
                if all_digits(digits) {
                    lemma_digits_val_prefix_le(digits, i - start + 1);
                    assert(digits_val(digits.take(i - start + 1)) > limit);
                    assert(digits_val(digits) > limit);
                }
                assert(spec_parse_i64(s@) is None);
            }
            return None;
        }
        proof {
            assert(mag * 10 + d <= limit) by (nonlinear_arith)
                requires
                    mag <= (limit - d) / 10,
                    0 <= d <= 9,
                    limit >= 9,
            ;
            assert(all_digits(digits.take(i - start + 1))) by {
                assert(forall|j: int|
                    0 <= j < i - start + 1 ==> digits.take(i - start + 1)[j] == digits[j]);
            }
        }
        mag = mag * 10 + d;
        i = i + 1;
    }
    proof {
        assert(digits.take(n - start) =~= digits);
    }
    if neg {
        if mag >= 9223372036854775808 {
            Some(i64::MIN)
        } else {
            Some(-(mag as i64))
        }
    } else {
        Some(mag as i64)
    }
}

/// The depth that a decimal argument denotes: negative means unbounded,
/// zero means the last level, positive counts remaining levels.
pub open spec fn spec_parse_depth(s: Seq<char>) -> Option<DepthSetting> {
    match spec_parse_i64(s) {
        Some(v) => Some(
            if v == 0 {
                DepthSetting::LastLevel
            } else if v < 0 {
                DepthSetting::Infinite
            } else {
                DepthSetting::NRemaining(v as u64)
            },
        ),
        None => None,
    }
}

impl DepthSetting {
    /// Parse a depth argument.
    pub fn from_str(s: &str) -> (r: Result<DepthSetting, String>)
        ensures
            match spec_parse_depth(s@) {
                Some(d) => r == Ok::<DepthSetting, String>(d),
                None => r is Err,
            },
    {
        match parse_i64(s) {
            Some(v) => Ok(
                if v == 0 {
                    DepthSetting::LastLevel
                } else if v < 0 {
                    DepthSetting::Infinite
                } else {
                    DepthSetting::NRemaining(v as u64)
                },
            ),
            None => Err(String::from_str("not a valid recursion depth")),
        }
    }
}

impl core::str::FromStr for DepthSetting {
    type Err = String;

    fn from_str(s: &str) -> Result<Self, Self::Err> {
        DepthSetting::from_str(s)
    }
}

/// Representation of the application's all configurable values.
#[derive(Debug)]
pub struct Options {
    /// Directory to hash/verify.
    pub dir: String,
    /// Hashing algorithm to use.
    pub algorithm: Algorithm,
    /// Whether to verify or create checksums.
    pub verify: bool,
    /// Max recursion depth.
    pub depth: DepthSetting,
    /// In-/Output file name and its full path.
    pub file: (String, String),
    /// Whether to recurse down symlinks.
    pub follow_symlinks: bool,
    /// Files/directories to ignore.
    pub ignored_files: Vec<String>,
    /// Amount of threads used for hashing; `u32::MAX` means unbounded.
    pub jobs: u32,
}

impl Options {
    /// Accept exactly the identifiers that name an algorithm.
    pub fn algorithm_validator(s: String) -> (r: Result<(), String>)
        ensures
            r is Ok <==> spec_parse_algorithm(s@) is Some,
    {
        match Algorithm::from_str(s.as_str()) {
            Ok(_) => Ok(()),
            Err(e) => Err(e),
        }
    }

    /// Accept exactly the decimal literals that denote a depth.
    pub fn depth_validator(s: String) -> (r: Result<(), String>)
        ensures
            r is Ok <==> spec_parse_depth(s@) is Some,
    {
        match DepthSetting::from_str(s.as_str()) {
            Ok(_) => Ok(()),
            Err(e) => Err(e),
        }
    }

    /// Accept an empty job count, or a 32-bit count that is `-1` or positive.
    pub fn jobs_validator(s: String) -> (r: Result<(), String>)
        ensures
            r is Ok <==> (s@.len() == 0 || (match spec_parse_i64(s@) {
                Some(v) => i32::MIN <= v <= i32::MAX && (v == -1 || v >= 1),
                None => false,
            })),
    {
        if s.as_str().unicode_len() == 0 {
            return Ok(());
        }
        match parse_i64(s.as_str()) {
            Some(v) => {
                if v < i32::MIN as i64 || v > i32::MAX as i64 {
                    Err(String::from_str("jobs: number too large"))
                } else if v == 0 {
                    Err(String::from_str("cannot execute 0 jobs"))
                } else if v < -1 {
                    Err(String::from_str("cannot execute a negative amount of jobs"))
                } else {
                    Ok(())
                }
            },
            None => Err(String::from_str("jobs: not a number")),
        }
    }
}

} // verus!
