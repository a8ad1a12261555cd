//! Character scanning over string views, shared by the identifier validator
//! and the manifest codec.

use vstd::prelude::*;

verus! {

/// Index of the first occurrence of `c` in `s` at or after `i`, or `s.len()`
/// if there is none.
pub open spec fn find_char_from(s: Seq<char>, i: int, c: char) -> int
    decreases s.len() - i when 0 <= i <= s.len()
{
    if i >= s.len() {
        s.len() as int
    } else if s[i] == c {
        i
    } else {
        find_char_from(s, i + 1, c)
    }
}

pub proof fn lemma_find_char_from(s: Seq<char>, i: int, c: char)
    requires
        0 <= i <= s.len(),
    ensures
        i <= find_char_from(s, i, c) <= s.len(),
        find_char_from(s, i, c) < s.len() ==> s[find_char_from(s, i, c)] == c,
        forall|j: int| i <= j < find_char_from(s, i, c) ==> s[j] != c,
    decreases s.len() - i,
{
    if i < s.len() && s[i] != c {
        lemma_find_char_from(s, i + 1, c);
    }
}

/// Pins down `find_char_from` when the caller already knows where the first
/// occurrence lies (`p == s.len()` means there is none).
pub proof fn lemma_find_char_at(s: Seq<char>, i: int, c: char, p: int)
    requires
        0 <= i <= p <= s.len(),
        forall|j: int| i <= j < p ==> s[j] != c,
        p < s.len() ==> s[p] == c,
    ensures
        find_char_from(s, i, c) == p,
{
    lemma_find_char_from(s, i, c);
    let f = find_char_from(s, i, c);
    if f < p {
        assert(s[f] != c);
    }
}

/// Index of the first occurrence of `c1` or `c2` at or after `i`, or
/// `s.len()` if there is none.
pub open spec fn find_either_from(s: Seq<char>, i: int, c1: char, c2: char) -> int
    decreases s.len() - i when 0 <= i <= s.len()
{
    if i >= s.len() {
        s.len() as int
    } else if s[i] == c1 || s[i] == c2 {
        i
    } else {
        find_either_from(s, i + 1, c1, c2)
    }
}

pub proof fn lemma_find_either_from(s: Seq<char>, i: int, c1: char, c2: char)
    requires
        0 <= i <= s.len(),
    ensures
        i <= find_either_from(s, i, c1, c2) <= s.len(),
        find_either_from(s, i, c1, c2) < s.len() ==> (s[find_either_from(s, i, c1, c2)] == c1
            || s[find_either_from(s, i, c1, c2)] == c2),
        forall|j: int| i <= j < find_either_from(s, i, c1, c2) ==> (s[j] != c1 && s[j] != c2),
    decreases s.len() - i,
{
    if i < s.len() && s[i] != c1 && s[i] != c2 {
        lemma_find_either_from(s, i + 1, c1, c2);
    }
}

pub proof fn lemma_find_either_at(s: Seq<char>, i: int, c1: char, c2: char, p: int)
    requires
        0 <= i <= p <= s.len(),
        forall|j: int| i <= j < p ==> (s[j] != c1 && s[j] != c2),
        p < s.len() ==> (s[p] == c1 || s[p] == c2),
    ensures
        find_either_from(s, i, c1, c2) == p,
{
    lemma_find_either_from(s, i, c1, c2);
    let f = find_either_from(s, i, c1, c2);
    if f < p {
        assert(s[f] != c1 && s[f] != c2);
    }
}

/// First index at or after `i` whose character differs from `c`, or `s.len()`.
pub open spec fn skip_char_from(s: Seq<char>, i: int, c: char) -> int
    decreases s.len() - i when 0 <= i <= s.len()
{
    if i >= s.len() {
        s.len() as int
    } else if s[i] != c {
        i
    } else {
        skip_char_from(s, i + 1, c)
    }
}

pub proof fn lemma_skip_char_from(s: Seq<char>, i: int, c: char)
    requires
        0 <= i <= s.len(),
    ensures
        i <= skip_char_from(s, i, c) <= s.len(),
        skip_char_from(s, i, c) < s.len() ==> s[skip_char_from(s, i, c)] != c,
        forall|j: int| i <= j < skip_char_from(s, i, c) ==> s[j] == c,
    decreases s.len() - i,
{
    if i < s.len() && s[i] == c {
        lemma_skip_char_from(s, i + 1, c);
    }
}

/// Finds the first occurrence of `c` at or after `from`, as
/// `find_char_from` describes.
pub fn find_char(s: &str, n: usize, from: usize, c: char) -> (r: usize)
    requires
        n == s@.len(),
        from <= n,
    ensures
        r == find_char_from(s@, from as int, c),
{
    let mut i: usize = from;
    while i < n
        invariant
            from <= i <= n,
            n == s@.len(),
            find_char_from(s@, from as int, c) == find_char_from(s@, i as int, c),
        decreases n - i,
    {
        if s.get_char(i) == c {
            return i;
        }
        i = i + 1;
    }
    i
}

/// Finds the first occurrence of `c1` or `c2` at or after `from`, as
/// `find_either_from` describes.
pub fn find_either(s: &str, n: usize, from: usize, c1: char, c2: char) -> (r: usize)
    requires
        n == s@.len(),
        from <= n,
    ensures
        r == find_either_from(s@, from as int, c1, c2),
{
    let mut i: usize = from;
    while i < n
        invariant
            from <= i <= n,
            n == s@.len(),
            find_either_from(s@, from as int, c1, c2) == find_either_from(s@, i as int, c1, c2),
        decreases n - i,
    {
        let ch = s.get_char(i);
        if ch == c1 || ch == c2 {
            return i;
        }
        i = i + 1;
    }
    i
}

/// Character-for-character string equality.
pub fn str_eq(a: &str, b: &str) -> (r: bool)
    ensures
        r == (a@ == b@),
{
    let n = a.unicode_len();
    if n != b.unicode_len() {
        proof {
            assert(a@ != b@);
        }
        return false;
    }
    let mut i: usize = 0;
    while i < n
        invariant
            i <= n,
            n == a@.len() == b@.len(),
            forall|j: int| 0 <= j < i ==> a@[j] == b@[j],
        decreases n - i,
    {
        if a.get_char(i) != b.get_char(i) {
            return false;
        }
        i = i + 1;
    }
    proof {
        assert(a@ =~= b@);
    }
    true
}

/// Skips over a run of `c` starting at `from`, as `skip_char_from` describes.
pub fn skip_char(s: &str, n: usize, from: usize, c: char) -> (r: usize)
    requires
        n == s@.len(),
        from <= n,
    ensures
        r == skip_char_from(s@, from as int, c),
{
    let mut i: usize = from;
    while i < n
        invariant
            from <= i <= n,
            n == s@.len(),
            skip_char_from(s@, from as int, c) == skip_char_from(s@, i as int, c),
        decreases n - i,
    {
        if s.get_char(i) != c {
            return i;
        }
        i = i + 1;
    }
    i
}

} // verus!
