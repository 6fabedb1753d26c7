//! Verified text handling: searching, with and without case folding,
//! string equality, and whitespace trimming. Unit detection and discovery
//! parsing are built on these.

use vstd::prelude::*;

verus! {

/// The character code of `c` with an ASCII upper-case letter folded to
/// lower case.
pub open spec fn lower_code(c: char) -> u32 {
    if 'A' as u32 <= c as u32 && c as u32 <= 'Z' as u32 {
        (c as u32 + 32) as u32
    } else {
        c as u32
    }
}

/// `pat` occurs at position `i` of `s` once `s` is folded to lower case
/// (`pat` itself already lower case).
pub open spec fn lower_match_at(s: Seq<char>, pat: Seq<char>, i: int) -> bool {
    forall|j: int| 0 <= j < pat.len() ==> lower_code(s[i + j]) == (pat[j] as u32)
}

/// `s`, folded to lower case, contains `pat`.
pub open spec fn contains_lowered(s: Seq<char>, pat: Seq<char>) -> bool {
    exists|i: int| 0 <= i && i + pat.len() <= s.len() && lower_match_at(s, pat, i)
}

/// `pat` occurs at position `i` of `s`.
pub open spec fn match_at(s: Seq<char>, pat: Seq<char>, i: int) -> bool {
    forall|j: int| 0 <= j < pat.len() ==> s[i + j] == pat[j]
}

/// `s` contains `pat`.
pub open spec fn contains_seq(s: Seq<char>, pat: Seq<char>) -> bool {
    exists|i: int| 0 <= i && i + pat.len() <= s.len() && match_at(s, pat, i)
}

/// Whether `c`, folded to lower case, is the character `p`.
fn char_lower_eq(c: char, p: char) -> (r: bool)
    ensures
        r == (lower_code(c) == (p as u32)),
{
    let cu = c as u32;
    let pu = p as u32;
    if 65 <= cu && cu <= 90 {
        cu + 32 == pu
    } else {
        cu == pu
    }
}

/// Case-folding search: does `hay`, lower-cased, contain `pat`?
pub fn contains_lowered_str(hay: &str, pat: &str) -> (r: bool)
    ensures
        r == contains_lowered(hay@, pat@),
{
    let n = hay.unicode_len();
    let m = pat.unicode_len();
    if m > n {
        return false;
    }
    let mut i: usize = 0;
    while i <= n - m
        invariant
            m <= n,
            n == hay@.len(),
            m == pat@.len(),
            0 <= i <= n - m + 1,
            forall|k: int| 0 <= k < i ==> !lower_match_at(hay@, pat@, k),
        decreases n - m - i + 1,
    {
        let mut j: usize = 0;
        let mut matched = true;
        while j < m
            invariant
                0 <= j <= m,
                m <= n,
                n == hay@.len(),
                m == pat@.len(),
                0 <= i <= n - m,
                matched ==> forall|l: int| 0 <= l < j
                    ==> lower_code(hay@[i + l]) == (pat@[l] as u32),
                !matched ==> !lower_match_at(hay@, pat@, i as int),
            decreases m - j,
        {
            if !char_lower_eq(hay.get_char(i + j), pat.get_char(j)) {
                proof {
                    assert(!lower_match_at(hay@, pat@, i as int)) by {
                        assert(lower_code(hay@[i + j]) != (pat@[j as int] as u32));
                    }
                }
                matched = false;
                j = m;
            } else {
                j += 1;
            }
        }
        if matched {
            proof {
                assert(lower_match_at(hay@, pat@, i as int));
            }
            return true;
        }
        i += 1;
    }
    false
}

/// Exact search: does `hay` contain `pat`?
pub fn contains_str(hay: &str, pat: &str) -> (r: bool)
    ensures
        r == contains_seq(hay@, pat@),
{
    let n = hay.unicode_len();
    let m = pat.unicode_len();
    if m > n {
        return false;
    }
    let mut i: usize = 0;
    while i <= n - m
        invariant
            m <= n,
            n == hay@.len(),
            m == pat@.len(),
            0 <= i <= n - m + 1,
            forall|k: int| 0 <= k < i ==> !match_at(hay@, pat@, k),
        decreases n - m - i + 1,
    {
        let mut j: usize = 0;
        let mut matched = true;
        while j < m
            invariant
                0 <= j <= m,
                m <= n,
                n == hay@.len(),
                m == pat@.len(),
                0 <= i <= n - m,
                matched ==> forall|l: int| 0 <= l < j ==> hay@[i + l] == pat@[l],
                !matched ==> !match_at(hay@, pat@, i as int),
            decreases m - j,
        {
            if hay.get_char(i + j) != pat.get_char(j) {
                proof {
                    assert(!match_at(hay@, pat@, i as int)) by {
                        assert(hay@[i + j] != pat@[j as int]);
                    }
                }
                matched = false;
                j = m;
            } else {
                j += 1;
            }
        }
        if matched {
            proof {
                assert(match_at(hay@, pat@, i as int));
            }
            return true;
        }
        i += 1;
    }
    false
}

/// Character-by-character string equality.
pub fn str_eq(a: &str, b: &str) -> (r: bool)
    ensures
        r == (a@ == b@),
{
    let alen = a.unicode_len();
    let blen = b.unicode_len();
    if alen != blen {
        return false;
    }
    let mut i: usize = 0;
    while i < alen
        invariant
            0 <= i <= alen,
            alen == a@.len(),
            blen == b@.len(),
            alen == blen,
            forall|j: int| 0 <= j < i ==> a@[j] == b@[j],
        decreases alen - i,
    {
        if a.get_char(i) != b.get_char(i) {
            return false;
        }
        i += 1;
    }
    proof {
        assert(a@ =~= b@);
    }
    true
}

/// Whether `c` carries the Unicode white-space property: the characters
/// `str::trim` strips.
pub open spec fn is_space(c: char) -> bool {
    let u = c as u32;
    (9 <= u && u <= 13) || u == 0x20 || u == 0x85 || u == 0xA0 || u == 0x1680 || (0x2000 <= u
        && u <= 0x200A) || u == 0x2028 || u == 0x2029 || u == 0x202F || u == 0x205F || u == 0x3000
}

/// `s` without leading whitespace.
pub open spec fn trim_start(s: Seq<char>) -> Seq<char>
    decreases s.len(),
{
    if s.len() > 0 && is_space(s[0]) {
        trim_start(s.drop_first())
    } else {
        s
    }
}

/// `s` without trailing whitespace.
pub open spec fn trim_end(s: Seq<char>) -> Seq<char>
    decreases s.len(),
{
    if s.len() > 0 && is_space(s.last()) {
        trim_end(s.drop_last())
    } else {
        s
    }
}

/// `s` without leading and trailing whitespace.
pub open spec fn trim(s: Seq<char>) -> Seq<char> {
    trim_end(trim_start(s))
}

/// Whether `c` carries the Unicode white-space property.
fn char_is_space(c: char) -> (r: bool)
    ensures
        r == is_space(c),
{
    let u = c as u32;
    (9 <= u && u <= 13) || u == 0x20 || u == 0x85 || u == 0xA0 || u == 0x1680 || (0x2000 <= u
        && u <= 0x200A) || u == 0x2028 || u == 0x2029 || u == 0x202F || u == 0x205F || u == 0x3000
}

/// The window `[lo, hi)` of `s`, shrunk to exclude leading and trailing
/// whitespace.
pub(crate) fn trim_window(s: &str, lo: usize, hi: usize) -> (r: (usize, usize))
    requires
        lo <= hi <= s@.len(),
    ensures
        lo <= r.0 <= r.1 <= hi,
        s@.subrange(r.0 as int, r.1 as int) == trim(s@.subrange(lo as int, hi as int)),
{
    let mut a = lo;
    while a < hi && char_is_space(s.get_char(a))
        invariant
            lo <= a <= hi <= s@.len(),
            trim_start(s@.subrange(a as int, hi as int)) == trim_start(
                s@.subrange(lo as int, hi as int),
            ),
        decreases hi - a,
    {
        proof {
            assert(s@.subrange(a as int, hi as int).drop_first() =~= s@.subrange(
                a + 1,
                hi as int,
            ));
        }
        a += 1;
    }
    let ghost ts = trim_start(s@.subrange(lo as int, hi as int));
    proof {
        assert(s@.subrange(a as int, hi as int) == ts);
    }
    let mut b = hi;
    while b > a && char_is_space(s.get_char(b - 1))
        invariant
            lo <= a <= b <= hi <= s@.len(),
            ts == trim_start(s@.subrange(lo as int, hi as int)),
            trim_end(s@.subrange(a as int, b as int)) == trim_end(ts),
        decreases b - a,
    {
        proof {
            assert(s@.subrange(a as int, b as int).last() == s@[b - 1]);
            assert(s@.subrange(a as int, b as int).drop_last() =~= s@.subrange(a as int, b - 1));
        }
        b -= 1;
    }
    proof {
        if b > a {
            assert(s@.subrange(a as int, b as int).last() == s@[b - 1]);
        }
    }
    (a, b)
}

/// `s` with its leading and trailing ASCII whitespace removed.
pub fn trim_str<'a>(s: &'a str) -> (r: &'a str)
    ensures
        r@ == trim(s@),
{
    let n = s.unicode_len();
    let (a, b) = trim_window(s, 0, n);
    proof {
        assert(s@.subrange(0, n as int) =~= s@);
    }
    s.substring_char(a, b)
}

/// The index of the first occurrence of `c` in `s`, or the length of `s`.
pub open spec fn find_char(s: Seq<char>, c: char) -> int
    decreases s.len(),
{
    if s.len() == 0 {
        0
    } else if s[0] == c {
        0
    } else {
        1 + find_char(s.drop_first(), c)
    }
}

/// What `find_char` finds: the first occurrence, within bounds.
pub proof fn lemma_find_char(s: Seq<char>, c: char)
    ensures
        0 <= find_char(s, c) <= s.len(),
        find_char(s, c) < s.len() ==> s[find_char(s, c)] == c,
        forall|j: int| 0 <= j < find_char(s, c) ==> s[j] != c,
    decreases s.len(),
{
    if s.len() > 0 && s[0] != c {
        lemma_find_char(s.drop_first(), c);
        assert forall|j: int| 0 <= j < find_char(s, c) implies s[j] != c by {
            if j > 0 {
                assert(s.drop_first()[j - 1] == s[j]);
            }
        }
    }
}

/// The first position of `c` in `s` at or after `from`; the length of `s`
/// when there is none.
pub(crate) fn find_char_from(s: &str, from: usize, c: char) -> (k: usize)
    requires
        from <= s@.len(),
    ensures
        from <= k <= s@.len(),
        k < s@.len() ==> s@[k as int] == c,
        forall|j: int| from <= j < k ==> s@[j] != c,
{
    let n = s.unicode_len();
    let mut k = from;
    while k < n
        invariant
            from <= k <= n,
            n == s@.len(),
            forall|j: int| from <= j < k ==> s@[j] != c,
        decreases n - k,
    {
        if s.get_char(k) == c {
            return k;
        }
        k += 1;
    }
    k
}

} // verus!
