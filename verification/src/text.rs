//! Character-sequence utilities: conversions between `&str`/`String` and
//! `Vec<char>`, substring search, and literal replacement. All contracts
//! speak about `Seq<char>` views.

use vstd::prelude::*;

verus! {

/// Collect the characters of a string slice into a vector.
pub fn str_to_chars(s: &str) -> (r: Vec<char>)
    ensures
        r@ == s@,
{
    let n: usize = s.unicode_len();
    let mut r: Vec<char> = Vec::new();
    let mut i: usize = 0;
    while i < n
        invariant
            n == s@.len(),
            i <= n,
            r@ == s@.subrange(0, i as int),
        decreases n - i,
    {
        r.push(s.get_char(i));
        i = i + 1;
        proof {
            assert(r@ =~= s@.subrange(0, i as int));
        }
    }
    proof {
        assert(r@ =~= s@);
    }
    r
}

/// Relies on `String`'s `FromIterator<&char>` impl: collecting the
/// characters of a vector yields the string with exactly those characters.
#[verifier::external_body]
pub fn chars_to_string(v: &Vec<char>) -> (r: String)
    ensures
        r@ == v@,
{
    v.iter().collect()
}

/// Character-wise equality of two string slices.
pub fn str_eq(a: &str, b: &str) -> (r: bool)
    ensures
        r == (a@ == b@),
{
    let na: usize = a.unicode_len();
    let nb: usize = b.unicode_len();
    if na != nb {
        return false;
    }
    let mut i: usize = 0;
    while i < na
        invariant
            na == a@.len(),
            na == b@.len(),
            i <= na,
            forall|j: int| 0 <= j < i ==> a@[j] == b@[j],
        decreases na - i,
    {
        if a.get_char(i) != b.get_char(i) {
            return false;
        }
        i = i + 1;
    }
    proof {
        assert(a@ =~= b@);
    }
    true
}

/// True when `n` occurs as a contiguous subsequence of `h`.
pub open spec fn contains_seq(h: Seq<char>, n: Seq<char>) -> bool {
    exists|i: int|
        0 <= i && i + n.len() <= h.len() && #[trigger] h.subrange(i, i + n.len() as int) == n
}

/// True when the character `c` occurs in `s`.
pub open spec fn contains_char(s: Seq<char>, c: char) -> bool {
    exists|i: int| 0 <= i < s.len() && s[i] == c
}

/// Whether `pat` occurs in `s` starting at index `at`.
pub fn match_at(s: &Vec<char>, at: usize, pat: &Vec<char>) -> (r: bool)
    requires
        at + pat@.len() <= s@.len(),
    ensures
        r == (s@.subrange(at as int, at + pat@.len() as int) == pat@),
{
    let sn: usize = s.len();
    let m: usize = pat.len();
    let mut j: usize = 0;
    while j < m
        invariant
            sn == s@.len(),
            m == pat@.len(),
            at + m <= sn,
            j <= m,
            forall|k: int| 0 <= k < j ==> s@[at + k] == pat@[k],
        decreases m - j,
    {
        if s[at + j] != pat[j] {
            proof {
                assert(s@.subrange(at as int, at + pat@.len() as int)[j as int] == s@[at + j]);
            }
            return false;
        }
        j = j + 1;
    }
    proof {
        assert(s@.subrange(at as int, at + pat@.len() as int) =~= pat@);
    }
    true
}

/// Substring search over character vectors.
pub fn chars_contain(h: &Vec<char>, n: &Vec<char>) -> (r: bool)
    ensures
        r == contains_seq(h@, n@),
{
    let hn: usize = h.len();
    let m: usize = n.len();
    if m > hn {
        proof {
            assert(!contains_seq(h@, n@));
        }
        return false;
    }
    if m == 0 {
        proof {
            assert(h@.subrange(0, 0 + n@.len() as int) =~= n@);
        }
        return true;
    }
    let mut i: usize = 0;
    while i <= hn - m
        invariant
            hn == h@.len(),
            m == n@.len(),
            1 <= m <= hn,
            i <= hn - m + 1,
            forall|j: int|
                0 <= j < i ==> #[trigger] h@.subrange(j, j + n@.len() as int) != n@,
        decreases hn - i,
    {
        if match_at(h, i, n) {
            return true;
        }
        i = i + 1;
    }
    proof {
        assert(!contains_seq(h@, n@));
    }
    false
}

/// True when the string slice `h` contains the string slice `n`.
pub fn str_contains(h: &str, n: &str) -> (r: bool)
    ensures
        r == contains_seq(h@, n@),
{
    let hv = str_to_chars(h);
    let nv = str_to_chars(n);
    chars_contain(&hv, &nv)
}

/// Whether the character `c` occurs in `s`.
pub fn chars_contain_char(s: &Vec<char>, c: char) -> (r: bool)
    ensures
        r == contains_char(s@, c),
{
    let n: usize = s.len();
    let mut i: usize = 0;
    while i < n
        invariant
            n == s@.len(),
            i <= n,
            forall|j: int| 0 <= j < i ==> s@[j] != c,
        decreases n - i,
    {
        if s[i] == c {
            return true;
        }
        i = i + 1;
    }
    false
}

/// Append all characters of `src` to `dst`.
pub fn push_all(dst: &mut Vec<char>, src: &Vec<char>)
    ensures
        final(dst)@ == old(dst)@ + src@,
{
    let n: usize = src.len();
    let mut i: usize = 0;
    while i < n
        invariant
            n == src@.len(),
            i <= n,
            dst@ == old(dst)@ + src@.subrange(0, i as int),
        decreases n - i,
    {
        dst.push(src[i]);
        i = i + 1;
        proof {
            assert(old(dst)@ + src@.subrange(0, i - 1) + seq![src@[i - 1]]
                =~= old(dst)@ + src@.subrange(0, i as int));
        }
    }
    proof {
        assert(old(dst)@ + src@.subrange(0, n as int) =~= old(dst)@ + src@);
    }
}

/// Replacement of every non-overlapping occurrence of `pat` in `s` by
/// `repl`, scanning left to right; substituted text is not rescanned.
pub open spec fn replace_seq(s: Seq<char>, pat: Seq<char>, repl: Seq<char>) -> Seq<char>
    decreases s.len(),
{
    if s.len() == 0 || pat.len() == 0 {
        s
    } else if s.len() >= pat.len() && s.subrange(0, pat.len() as int) == pat {
        repl + replace_seq(s.skip(pat.len() as int), pat, repl)
    } else {
        seq![s[0]] + replace_seq(s.skip(1), pat, repl)
    }
}

/// Replace every occurrence of `pat` in `s` by `repl`, as `str::replace`
/// does.
pub fn replace_chars(s: &Vec<char>, pat: &Vec<char>, repl: &Vec<char>) -> (r: Vec<char>)
    requires
        pat@.len() >= 1,
    ensures
        r@ == replace_seq(s@, pat@, repl@),
{
    let n: usize = s.len();
    let m: usize = pat.len();
    let mut out: Vec<char> = Vec::new();
    let mut i: usize = 0;
    proof {
        assert(s@.skip(0) =~= s@);
        assert(out@ + replace_seq(s@.skip(0), pat@, repl@) =~= replace_seq(s@, pat@, repl@));
    }
    while i < n
        invariant
            n == s@.len(),
            m == pat@.len(),
            m >= 1,
            i <= n,
            replace_seq(s@, pat@, repl@) == out@ + replace_seq(s@.skip(i as int), pat@, repl@),
        decreases n - i,
    {
        if m <= n - i && match_at(s, i, pat) {
            proof {
                assert(s@.skip(i as int).subrange(0, pat@.len() as int)
                    =~= s@.subrange(i as int, i + pat@.len() as int));
                assert(s@.skip(i as int).skip(pat@.len() as int)
                    =~= s@.skip(i + pat@.len() as int));
            }
            push_all(&mut out, repl);
            i = i + m;
        } else {
            proof {
                assert(s@.skip(i as int).len() > 0);
                assert(s@.skip(i as int)[0] == s@[i as int]);
                if s@.skip(i as int).len() >= pat@.len()
                    && s@.skip(i as int).subrange(0, pat@.len() as int) == pat@ {
                    assert(s@.skip(i as int).subrange(0, pat@.len() as int)
                        =~= s@.subrange(i as int, i + pat@.len() as int));
                    assert(false);
                }
                assert(s@.skip(i as int).skip(1) =~= s@.skip(i + 1));
            }
            out.push(s[i]);
            i = i + 1;
        }
    }
    proof {
        assert(s@.skip(n as int) =~= Seq::<char>::empty());
        assert(out@ + replace_seq(s@.skip(n as int), pat@, repl@) =~= out@);
    }
    out
}

/// The decimal digit character of `d`.
pub open spec fn spec_digit_char(d: int) -> char {
    if d == 0 { '0' } else if d == 1 { '1' } else if d == 2 { '2' } else if d == 3 { '3' }
    else if d == 4 { '4' } else if d == 5 { '5' } else if d == 6 { '6' } else if d == 7 { '7' }
    else if d == 8 { '8' } else { '9' }
}

/// The decimal digits of `n`, most significant first.
pub open spec fn spec_dec_digits(n: int) -> Seq<char>
    decreases n,
{
    if n < 10 {
        seq![spec_digit_char(n)]
    } else {
        spec_dec_digits(n / 10).push(spec_digit_char(n % 10))
    }
}

/// The decimal digit character of `d`.
fn digit_char(d: u64) -> (c: char)
    requires
        d < 10,
    ensures
        c == spec_digit_char(d as int),
{
    match d {
        0 => '0',
        1 => '1',
        2 => '2',
        3 => '3',
        4 => '4',
        5 => '5',
        6 => '6',
        7 => '7',
        8 => '8',
        _ => '9',
    }
}

/// Append the decimal digits of `n`.
fn push_dec(out: &mut Vec<char>, n: u64)
    ensures
        final(out)@ == old(out)@ + spec_dec_digits(n as int),
    decreases n,
{
    if n >= 10 {
        push_dec(out, n / 10);
        out.push(digit_char(n % 10));
        proof {
            assert(out@ =~= old(out)@ + spec_dec_digits(n as int));
        }
    } else {
        out.push(digit_char(n));
        proof {
            assert(out@ =~= old(out)@ + spec_dec_digits(n as int));
        }
    }
}

/// Render an unsigned number in decimal.
pub fn u64_to_string(n: u64) -> (r: String)
    ensures
        r@ == spec_dec_digits(n as int),
{
    let mut out: Vec<char> = Vec::new();
    push_dec(&mut out, n);
    proof {
        assert(out@ =~= spec_dec_digits(n as int));
    }
    chars_to_string(&out)
}

/// `pat` occurs in `h` exactly at index `i`.
pub open spec fn occ_at(h: Seq<char>, i: int, pat: Seq<char>) -> bool {
    0 <= i && i + pat.len() <= h.len() && h.subrange(i, i + pat.len() as int) == pat
}

/// Replacement leaves a string without any occurrence of the pattern
/// unchanged.
pub proof fn lemma_replace_unchanged(s: Seq<char>, pat: Seq<char>, repl: Seq<char>)
    requires
        pat.len() >= 1,
        forall|i: int| !occ_at(s, i, #[trigger] pat.subrange(0, pat.len() as int)),
    ensures
        replace_seq(s, pat, repl) == s,
    decreases s.len(),
{
    assert(pat.subrange(0, pat.len() as int) =~= pat);
    if s.len() > 0 {
        if s.len() >= pat.len() && s.subrange(0, pat.len() as int) == pat {
            assert(occ_at(s, 0, pat));
            assert(false);
        }
        assert forall|i: int| !occ_at(s.skip(1), i, #[trigger] pat.subrange(0, pat.len() as int))
        by {
            if occ_at(s.skip(1), i, pat) {
                assert(s.skip(1).subrange(i, i + pat.len() as int) =~= s.subrange(
                    i + 1,
                    i + 1 + pat.len() as int,
                ));
                assert(occ_at(s, i + 1, pat));
            }
        }
        lemma_replace_unchanged(s.skip(1), pat, repl);
        assert(replace_seq(s, pat, repl) =~= s);
    }
}

/// Replacement passes over a prefix in which no occurrence of the
/// pattern starts.
pub proof fn lemma_replace_append(a: Seq<char>, b: Seq<char>, pat: Seq<char>, repl: Seq<char>)
    requires
        pat.len() >= 1,
        forall|i: int| 0 <= i < a.len() ==> !occ_at(a + b, i, #[trigger] pat.subrange(0, pat.len() as int)),
    ensures
        replace_seq(a + b, pat, repl) == a + replace_seq(b, pat, repl),
    decreases a.len(),
{
    assert(pat.subrange(0, pat.len() as int) =~= pat);
    if a.len() == 0 {
        assert(a + b =~= b);
        assert(a + replace_seq(b, pat, repl) =~= replace_seq(b, pat, repl));
    } else {
        let s = a + b;
        if s.len() >= pat.len() && s.subrange(0, pat.len() as int) == pat {
            assert(occ_at(s, 0, pat));
            assert(false);
        }
        assert(s.skip(1) =~= a.skip(1) + b);
        assert forall|i: int|
            0 <= i < a.skip(1).len() ==> !occ_at(
                a.skip(1) + b,
                i,
                #[trigger] pat.subrange(0, pat.len() as int),
            ) by {
            if 0 <= i < a.skip(1).len() && occ_at(a.skip(1) + b, i, pat) {
                assert((a.skip(1) + b).subrange(i, i + pat.len() as int) =~= s.subrange(
                    i + 1,
                    i + 1 + pat.len() as int,
                ));
                assert(occ_at(s, i + 1, pat));
            }
        }
        lemma_replace_append(a.skip(1), b, pat, repl);
        assert(seq![s[0]] + (a.skip(1) + replace_seq(b, pat, repl)) =~= a + replace_seq(
            b,
            pat,
            repl,
        ));
    }
}

/// Replacement substitutes a pattern standing at the head.
pub proof fn lemma_replace_head(b: Seq<char>, pat: Seq<char>, repl: Seq<char>)
    requires
        pat.len() >= 1,
    ensures
        replace_seq(pat + b, pat, repl) == repl + replace_seq(b, pat, repl),
{
    let s = pat + b;
    assert(s.subrange(0, pat.len() as int) =~= pat);
    assert(s.skip(pat.len() as int) =~= b);
}

} // verus!
