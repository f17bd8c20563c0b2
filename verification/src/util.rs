//! Small helpers shared by the other modules: vector merging, string
//! repetition, comparison and assembly of strings character by
//! character, and turning an absolute path into a name relative to a
//! root.

use vstd::prelude::*;

verus! {

/// `what` repeated `n` times, as a sequence of characters.
pub open spec fn str_repeat(what: Seq<char>, n: nat) -> Seq<char>
    decreases n,
{
    if n == 0 {
        Seq::empty()
    } else {
        str_repeat(what, (n - 1) as nat) + what
    }
}

/// Repetition multiplies the length.
pub proof fn lemma_str_repeat_len(what: Seq<char>, n: nat)
    ensures
        str_repeat(what, n).len() == n * what.len(),
    decreases n,
{
    if n == 0 {
        assert(n * what.len() == 0) by (nonlinear_arith)
            requires
                n == 0,
        ;
    } else {
        lemma_str_repeat_len(what, (n - 1) as nat);
        assert(str_repeat(what, n).len() == str_repeat(what, (n - 1) as nat).len() + what.len());
        assert(((n - 1) as nat) * what.len() + what.len() == n * what.len()) by (nonlinear_arith)
            requires
                n >= 1,
        ;
    }
}

/// The all-dash sentinel of a given length: the placeholder hash of an
/// ignored file.
pub open spec fn dashes(n: nat) -> Seq<char> {
    Seq::new(n, |i: int| '-')
}

/// Repeating the one-dash string gives the sentinel.
pub proof fn lemma_str_repeat_dashes(n: nat)
    ensures
        str_repeat("-"@, n) == dashes(n),
    decreases n,
{
    reveal_strlit("-");
    if n == 0 {
        assert(str_repeat("-"@, 0) =~= dashes(0));
    } else {
        lemma_str_repeat_dashes((n - 1) as nat);
        assert(str_repeat("-"@, n) =~= dashes(n));
    }
}

/// Lexicographic order on character sequences: the order in which the
/// records of a hash store are kept and written out.
pub open spec fn seq_lt(a: Seq<char>, b: Seq<char>) -> bool
    decreases a.len(),
{
    if b.len() == 0 {
        false
    } else if a.len() == 0 {
        true
    } else if a[0] as int != b[0] as int {
        (a[0] as int) < (b[0] as int)
    } else {
        seq_lt(a.skip(1), b.skip(1))
    }
}

pub proof fn lemma_seq_lt_irrefl(a: Seq<char>)
    ensures
        !seq_lt(a, a),
    decreases a.len(),
{
    if a.len() > 0 {
        lemma_seq_lt_irrefl(a.skip(1));
    }
}

/// Two distinct sequences are ordered one way or the other.
pub proof fn lemma_seq_lt_connected(a: Seq<char>, b: Seq<char>)
    requires
        a != b,
    ensures
        seq_lt(a, b) || seq_lt(b, a),
    decreases a.len(),
{
    if a.len() == 0 {
        if b.len() == 0 {
            assert(a =~= b);
        }
    } else if b.len() == 0 {
    } else if a[0] as int == b[0] as int {
        assert(a[0] == b[0]);
        if a.skip(1) == b.skip(1) {
            assert(a =~= b) by {
                assert(a.skip(1).len() == b.skip(1).len());
                assert(a.len() == b.len());
                assert forall|j: int| 0 <= j < a.len() implies a[j] == b[j] by {
                    if j > 0 {
                        assert(a.skip(1)[j - 1] == a[j]);
                        assert(b.skip(1)[j - 1] == b[j]);
                    }
                }
            }
        } else {
            lemma_seq_lt_connected(a.skip(1), b.skip(1));
        }
    }
}

pub proof fn lemma_seq_lt_asym(a: Seq<char>, b: Seq<char>)
    requires
        seq_lt(a, b),
    ensures
        !seq_lt(b, a),
        a != b,
    decreases a.len(),
{
    lemma_seq_lt_irrefl(a);
    if a.len() > 0 && b.len() > 0 && a[0] as int == b[0] as int {
        lemma_seq_lt_asym(a.skip(1), b.skip(1));
        assert(a != b) by {
            if a == b {
                lemma_seq_lt_irrefl(a);
            }
        }
    }
}

pub proof fn lemma_seq_lt_trans(a: Seq<char>, b: Seq<char>, c: Seq<char>)
    requires
        seq_lt(a, b),
        seq_lt(b, c),
    ensures
        seq_lt(a, c),
    decreases a.len(),
{
    if b.len() > 0 && c.len() > 0 && a.len() > 0 {
        if a[0] as int == b[0] as int && b[0] as int == c[0] as int {
            lemma_seq_lt_trans(a.skip(1), b.skip(1), c.skip(1));
        }
    }
}

/// When the first `i` characters agree, the order is decided by the rest.
proof fn lemma_seq_lt_skip_step(a: Seq<char>, b: Seq<char>, i: int)
    requires
        0 <= i < a.len(),
        0 <= i < b.len(),
        a[i] == b[i],
    ensures
        seq_lt(a.skip(i), b.skip(i)) == seq_lt(a.skip(i + 1), b.skip(i + 1)),
{
    assert(a.skip(i).len() == a.len() - i);
    assert(b.skip(i).len() == b.len() - i);
    assert(a.skip(i)[0] == a[i]);
    assert(b.skip(i)[0] == b[i]);
    assert(a.skip(i).skip(1) =~= a.skip(i + 1));
    assert(b.skip(i).skip(1) =~= b.skip(i + 1));
}

/// Whether `a` sorts strictly before `b`.
pub fn str_lt(a: &str, b: &str) -> (r: bool)
    ensures
        r == seq_lt(a@, b@),
{
    let an = a.unicode_len();
    let bn = b.unicode_len();
    let mut i: usize = 0;
    proof {
        assert(a@.skip(0) =~= a@);
        assert(b@.skip(0) =~= b@);
    }
    loop
        invariant
            an == a@.len(),
            bn == b@.len(),
            0 <= i <= an,
            0 <= i <= bn,
            seq_lt(a@, b@) == seq_lt(a@.skip(i as int), b@.skip(i as int)),
        decreases an - i,
    {
        if i >= an || i >= bn {
            proof {
                assert(a@.skip(i as int).len() == an - i);
                assert(b@.skip(i as int).len() == bn - i);
            }
            return i >= an && i < bn;
        }
        let ca = a.get_char(i);
        let cb = b.get_char(i);
        proof {
            assert(a@.skip(i as int)[0] == a@[i as int]);
            assert(b@.skip(i as int)[0] == b@[i as int]);
        }
        if ca != cb {
            return (ca as u32) < (cb as u32);
        }
        proof {
            lemma_seq_lt_skip_step(a@, b@, i as int);
        }
        i = i + 1;
    }
}

/// Whether `a` and `b` spell the same characters.
pub fn str_eq(a: &str, b: &str) -> (r: bool)
    ensures
        r == (a@ == b@),
{
    let an = a.unicode_len();
    let bn = b.unicode_len();
    if an != bn {
        return false;
    }
    for i in 0..an
        invariant
            an == a@.len(),
            an == b@.len(),
            forall|j: int| 0 <= j < i ==> a@[j] == b@[j],
    {
        if a.get_char(i) != b.get_char(i) {
            return false;
        }
    }
    proof {
        assert(a@ =~= b@);
    }
    true
}

/// Merges two `Vec`s: the second is appended to the first.
pub fn vec_merge<T>(lhs: Vec<T>, rhs: Vec<T>) -> (r: Vec<T>)
    ensures
        r@ == lhs@ + rhs@,
{
    let mut lhs = lhs;
    let mut rhs = rhs;
    lhs.append(&mut rhs);
    lhs
}

/// Create a string consisting of `n` repetitions of `what`.
pub fn mul_str(what: &str, n: usize) -> (r: String)
    ensures
        r@ == str_repeat(what@, n as nat),
        r@.len() == n * what@.len(),
{
    proof {
        lemma_str_repeat_len(what@, n as nat);
    }
    let mut r = String::new();
    for i in 0..n
        invariant
            r@ == str_repeat(what@, i as nat),
    {
        r.append(what);
        assert(str_repeat(what@, (i + 1) as nat) == str_repeat(what@, i as nat) + what@);
    }
    r
}


/// Relies on String::push: appends exactly the given character.
#[verifier::external_body]
pub(crate) fn push_char(s: &mut String, c: char)
    ensures
        final(s)@ == old(s)@.push(c),
{
    s.push(c);
}

/// The characters of a string, one by one.
pub fn chars_of(s: &str) -> (r: Vec<char>)
    ensures
        r@ == s@,
{
    let n = s.unicode_len();
    let mut r: Vec<char> = Vec::new();
    for i in 0..n
        invariant
            n == s@.len(),
            r@ == s@.take(i as int),
    {
        r.push(s.get_char(i));
        proof {
            assert(r@ =~= s@.take(i + 1));
        }
    }
    proof {
        assert(s@.take(n as int) =~= s@);
    }
    r
}

/// The string spelt by a range of a character vector.
pub fn string_from_range(cs: &Vec<char>, a: usize, b: usize) -> (r: String)
    requires
        a <= b <= cs@.len(),
    ensures
        r@ == cs@.subrange(a as int, b as int),
{
    let mut r = String::new();
    proof {
        assert(r@ =~= cs@.subrange(a as int, a as int));
    }
    let mut k = a;
    while k < b
        invariant
            a <= k <= b <= cs@.len(),
            r@ == cs@.subrange(a as int, k as int),
        decreases b - k,
    {
        push_char(&mut r, cs[k]);
        proof {
            assert(r@ =~= cs@.subrange(a as int, k + 1));
        }
        k = k + 1;
    }
    r
}

/// A run of spaces of a given length.
pub open spec fn spaces(n: nat) -> Seq<char> {
    Seq::new(n, |i: int| ' ')
}

/// Repeating the one-space string gives such a run.
pub proof fn lemma_str_repeat_spaces(n: nat)
    ensures
        str_repeat(" "@, n) == spaces(n),
    decreases n,
{
    reveal_strlit(" ");
    if n == 0 {
        assert(str_repeat(" "@, 0) =~= spaces(0));
    } else {
        lemma_str_repeat_spaces((n - 1) as nat);
        assert(str_repeat(" "@, n) =~= spaces(n));
    }
}


/// Path separators normalised: every backslash becomes a forward slash.
pub open spec fn slashes_of(s: Seq<char>) -> Seq<char> {
    s.map_values(|c: char| if c == '\\' { '/' } else { c })
}

/// The remainder of a path under a prefix, with one leading separator
/// dropped.
pub open spec fn spec_relative_name(prefix: Seq<char>, what: Seq<char>) -> Seq<char> {
    let rest = what.skip(prefix.len() as int);
    slashes_of(
        if rest.len() > 0 && rest[0] == '/' {
            rest.skip(1)
        } else {
            rest
        },
    )
}

/// Create a user-usable path to `what` from `prefix`: the part of
/// `what` below `prefix`, written with forward slashes.
pub fn relative_name(prefix: &str, what: &str) -> (r: String)
    requires
        prefix@.len() <= what@.len(),
        what@.take(prefix@.len() as int) == prefix@,
    ensures
        r@ == spec_relative_name(prefix@, what@),
{
    let plen = prefix.unicode_len();
    let wlen = what.unicode_len();
    let start: usize = if plen < wlen && what.get_char(plen) == '/' {
        plen + 1
    } else {
        plen
    };
    let mut out: Vec<char> = Vec::new();
    let ghost rest = spec_relative_name(prefix@, what@);
    proof {
        if plen < wlen && what@[plen as int] == '/' {
            assert(what@.skip(plen as int)[0] == what@[plen as int]);
            assert(what@.skip(plen as int).skip(1) =~= what@.skip(plen + 1));
        }
        assert(rest.len() == wlen - start);
        assert forall|j: int| start <= j < wlen implies rest[j - start] == (if what@[j] == '\\' {
            '/'
        } else {
            what@[j]
        }) by {
            if plen < wlen && what@[plen as int] == '/' {
                assert(what@.skip(plen as int).skip(1)[j - start] == what@[j]);
            } else {
                assert(what@.skip(plen as int)[j - start] == what@[j]);
            }
        }
    }
    let mut i = start;
    while i < wlen
        invariant
            plen == prefix@.len(),
            wlen == what@.len(),
            start <= i <= wlen,
            rest == spec_relative_name(prefix@, what@),
            rest.len() == wlen - start,
            forall|j: int| start <= j < wlen ==> rest[j - start] == (if #[trigger] what@[j]
                == '\\' {
                '/'
            } else {
                what@[j]
            }),
            out@ == rest.take(i - start),
        decreases wlen - i,
    {
        let c = what.get_char(i);
        proof {
            assert(rest[i - start] == (if what@[i as int] == '\\' {
                '/'
            } else {
                what@[i as int]
            }));
        }
        if c == '\\' {
            out.push('/');
        } else {
            out.push(c);
        }
        proof {
            assert(out@ =~= rest.take(i + 1 - start));
        }
        i = i + 1;
    }
    proof {
        assert(rest.take(wlen - start) =~= rest);
    }
    string_from_range(&out, 0, out.len())
}

} // verus!
