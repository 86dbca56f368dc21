//! Byte-level scanning primitives shared by the extractor, the response
//! splitter and the rewriter: whitespace runs, word runs, prefix tests,
//! substring search, range copies and trimming.

use vstd::prelude::*;

verus! {

/// Whitespace, as the extraction grammar understands it: space, tab, line
/// feed, vertical tab, form feed, carriage return.
pub open spec fn is_space(b: u8) -> bool {
    b == 32 || b == 9 || b == 10 || b == 11 || b == 12 || b == 13
}

/// A word byte: ASCII letter, digit or underscore.
pub open spec fn is_word_byte(b: u8) -> bool {
    (97 <= b && b <= 122) || (65 <= b && b <= 90) || (48 <= b && b <= 57) || b == 95
}

pub fn byte_is_space(b: u8) -> (r: bool)
    ensures
        r == is_space(b),
{
    b == 32 || b == 9 || b == 10 || b == 11 || b == 12 || b == 13
}

pub fn byte_is_word(b: u8) -> (r: bool)
    ensures
        r == is_word_byte(b),
{
    (97 <= b && b <= 122) || (65 <= b && b <= 90) || (48 <= b && b <= 57) || b == 95
}

/// Index of the first byte at or after `i` that is not whitespace.
pub open spec fn skip_spaces(s: Seq<u8>, i: int) -> int
    decreases s.len() - i,
{
    if i < 0 || i >= s.len() || !is_space(s[i]) {
        i
    } else {
        skip_spaces(s, i + 1)
    }
}

pub proof fn lemma_skip_spaces_bounds(s: Seq<u8>, i: int)
    requires
        0 <= i <= s.len(),
    ensures
        i <= skip_spaces(s, i) <= s.len(),
        skip_spaces(s, i) < s.len() ==> !is_space(s[skip_spaces(s, i)]),
        forall|m: int| i <= m < skip_spaces(s, i) ==> is_space(s[m]),
    decreases s.len() - i,
{
    if i < s.len() && is_space(s[i]) {
        lemma_skip_spaces_bounds(s, i + 1);
    }
}

pub fn skip_spaces_from(s: &Vec<u8>, i: usize) -> (r: usize)
    requires
        i <= s.len(),
    ensures
        r as int == skip_spaces(s@, i as int),
        i <= r <= s@.len(),
        r < s@.len() ==> !is_space(s@[r as int]),
{
    let mut j: usize = i;
    while j < s.len() && byte_is_space(s[j])
        invariant
            i <= j <= s@.len(),
            skip_spaces(s@, i as int) == skip_spaces(s@, j as int),
        decreases s@.len() - j,
    {
        j = j + 1;
    }
    j
}

/// Index of the first byte at or after `i` that is not a word byte.
pub open spec fn skip_word(s: Seq<u8>, i: int) -> int
    decreases s.len() - i,
{
    if i < 0 || i >= s.len() || !is_word_byte(s[i]) {
        i
    } else {
        skip_word(s, i + 1)
    }
}

pub proof fn lemma_skip_word_bounds(s: Seq<u8>, i: int)
    requires
        0 <= i <= s.len(),
    ensures
        i <= skip_word(s, i) <= s.len(),
    decreases s.len() - i,
{
    if i < s.len() && is_word_byte(s[i]) {
        lemma_skip_word_bounds(s, i + 1);
    }
}

pub fn skip_word_from(s: &Vec<u8>, i: usize) -> (r: usize)
    requires
        i <= s.len(),
    ensures
        r as int == skip_word(s@, i as int),
        i <= r <= s@.len(),
{
    let mut j: usize = i;
    while j < s.len() && byte_is_word(s[j])
        invariant
            i <= j <= s@.len(),
            skip_word(s@, i as int) == skip_word(s@, j as int),
        decreases s@.len() - j,
    {
        j = j + 1;
    }
    j
}

/// `pat` occurs in `s` starting exactly at index `i`.
pub open spec fn starts_with_at(s: Seq<u8>, i: int, pat: Seq<u8>) -> bool {
    0 <= i && i + pat.len() <= s.len() && s.subrange(i, i + pat.len()) == pat
}

pub fn has_prefix_at(s: &Vec<u8>, i: usize, pat: &Vec<u8>) -> (r: bool)
    ensures
        r == starts_with_at(s@, i as int, pat@),
{
    if i > s.len() || pat.len() > s.len() - i {
        return false;
    }
    let mut k: usize = 0;
    while k < pat.len()
        invariant
            0 <= k <= pat@.len(),
            i + pat@.len() <= s@.len(),
            s@.len() <= usize::MAX,
            forall|m: int| 0 <= m < k ==> s@[i + m] == pat@[m],
        decreases pat@.len() - k,
    {
        proof {
            assert(i + k < s@.len());
        }
        if s[i + k] != pat[k] {
            proof {
                assert(s@.subrange(i as int, i + pat@.len())[k as int] == s@[i + k]);
            }
            return false;
        }
        k = k + 1;
    }
    proof {
        assert(s@.subrange(i as int, i + pat@.len()) =~= pat@);
    }
    true
}

/// Index of the first occurrence of `pat` in `s` at or after `i`, if any.
pub open spec fn find_from(s: Seq<u8>, i: int, pat: Seq<u8>) -> Option<int>
    decreases s.len() + 1 - i,
{
    if i < 0 || i + pat.len() > s.len() {
        None
    } else if starts_with_at(s, i, pat) {
        Some(i)
    } else {
        find_from(s, i + 1, pat)
    }
}

pub proof fn lemma_find_from(s: Seq<u8>, i: int, pat: Seq<u8>)
    requires
        0 <= i,
    ensures
        find_from(s, i, pat) matches Some(k) ==> i <= k && k + pat.len() <= s.len()
            && starts_with_at(s, k, pat),
    decreases s.len() + 1 - i,
{
    if i + pat.len() <= s.len() && !starts_with_at(s, i, pat) {
        lemma_find_from(s, i + 1, pat);
    }
}

pub fn find_pattern(s: &Vec<u8>, i: usize, pat: &Vec<u8>) -> (r: Option<usize>)
    requires
        i <= s.len(),
    ensures
        match r {
            Some(k) => find_from(s@, i as int, pat@) == Some(k as int),
            None => find_from(s@, i as int, pat@) is None,
        },
{
    if pat.len() > s.len() {
        return None;
    }
    if pat.len() == 0 {
        proof {
            assert(s@.subrange(i as int, i as int) =~= pat@);
        }
        return Some(i);
    }
    let bound: usize = s.len() - pat.len();
    let mut j: usize = i;
    while j <= bound
        invariant
            i <= j,
            1 <= pat@.len() <= s@.len(),
            s@.len() <= usize::MAX,
            bound == s@.len() - pat@.len(),
            find_from(s@, i as int, pat@) == find_from(s@, j as int, pat@),
        decreases s@.len() + 1 - j,
    {
        if has_prefix_at(s, j, pat) {
            return Some(j);
        }
        j = j + 1;
    }
    None
}

pub fn copy_range(s: &Vec<u8>, a: usize, b: usize) -> (v: Vec<u8>)
    requires
        a <= b <= s.len(),
    ensures
        v@ == s@.subrange(a as int, b as int),
{
    let mut v: Vec<u8> = Vec::new();
    let mut k: usize = a;
    while k < b
        invariant
            a <= k <= b <= s@.len(),
            v@ == s@.subrange(a as int, k as int),
        decreases b - k,
    {
        v.push(s[k]);
        proof {
            assert(v@ =~= s@.subrange(a as int, k + 1 as int));
        }
        k = k + 1;
    }
    v
}

pub fn append_range(out: &mut Vec<u8>, s: &Vec<u8>, a: usize, b: usize)
    requires
        a <= b <= s.len(),
    ensures
        final(out)@ == old(out)@ + s@.subrange(a as int, b as int),
{
    let mut k: usize = a;
    while k < b
        invariant
            a <= k <= b <= s@.len(),
            out@ == old(out)@ + s@.subrange(a as int, k as int),
        decreases b - k,
    {
        out.push(s[k]);
        proof {
            assert(out@ =~= old(out)@ + s@.subrange(a as int, k + 1 as int));
        }
        k = k + 1;
    }
}

pub fn append_all(out: &mut Vec<u8>, s: &Vec<u8>)
    ensures
        final(out)@ == old(out)@ + s@,
{
    append_range(out, s, 0, s.len());
    proof {
        assert(s@.subrange(0, s@.len() as int) =~= s@);
    }
}

/// One past the last byte before `j` that is not whitespace (0 when all of
/// `s.subrange(0, j)` is whitespace).
pub open spec fn rskip_spaces(s: Seq<u8>, j: int) -> int
    decreases j,
{
    if j <= 0 {
        0
    } else if is_space(s[j - 1]) {
        rskip_spaces(s, j - 1)
    } else {
        j
    }
}

pub proof fn lemma_rskip_spaces_past_nonspace(s: Seq<u8>, j: int, a: int)
    requires
        0 <= a < j <= s.len(),
        !is_space(s[a]),
    ensures
        rskip_spaces(s, j) >= a + 1,
    decreases j,
{
    if j - 1 > a && is_space(s[j - 1]) {
        lemma_rskip_spaces_past_nonspace(s, j - 1, a);
    }
}

/// `s` with leading and trailing whitespace removed.
pub open spec fn trim_spec(s: Seq<u8>) -> Seq<u8> {
    let a = skip_spaces(s, 0);
    if a == s.len() {
        Seq::empty()
    } else {
        s.subrange(a, rskip_spaces(s, s.len() as int))
    }
}

pub fn trim_bytes(s: &Vec<u8>) -> (v: Vec<u8>)
    ensures
        v@ == trim_spec(s@),
{
    let a: usize = skip_spaces_from(s, 0);
    if a == s.len() {
        let v: Vec<u8> = Vec::new();
        proof {
            assert(v@ =~= trim_spec(s@));
        }
        v
    } else {
        let mut b: usize = s.len();
        while b > 0 && byte_is_space(s[b - 1])
            invariant
                b <= s@.len(),
                rskip_spaces(s@, s@.len() as int) == rskip_spaces(s@, b as int),
            decreases b,
        {
            b = b - 1;
        }
        proof {
            lemma_rskip_spaces_past_nonspace(s@, s@.len() as int, a as int);
        }
        copy_range(s, a, b)
    }
}

} // verus!
