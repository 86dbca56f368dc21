//! The extractor: scans source text and produces the ordered list of method
//! records, with byte offsets into the original buffer.
//!
//! The grammar is pattern based and best effort by design, not a
//! brace-depth-balanced parse: a match is an optional `/** ... */` docblock,
//! an optional visibility keyword (public when absent), the keyword
//! `function`, an identifier, a parenthesized parameter text ending at the
//! first closing parenthesis, and a body that ends at the first closing brace
//! standing alone on its own line (a newline followed, across whitespace
//! only, by `}`). A body whose control structures place such a lone closing
//! brace before the method's true end is therefore truncated early, and a
//! layout that never puts a closing brace alone on a line is never matched.
//! That approximation is an accepted limitation of the extraction model, not
//! a defect: callers get best-effort extraction, never a guaranteed complete
//! parse. Text the grammar cannot match is skipped silently; an empty result
//! is a valid outcome, not an error.

use vstd::prelude::*;

use crate::bytes::{
    byte_is_space, copy_range, find_from, find_pattern, has_prefix_at, is_space, lemma_find_from,
    lemma_skip_spaces_bounds, lemma_skip_word_bounds, skip_spaces, skip_spaces_from, skip_word,
    skip_word_from, starts_with_at, trim_bytes, trim_spec,
};
use crate::method::{lemma_method_views_push, method_views, Method, MethodView, Visibility};

verus! {

/// `/**`, the docblock opener.
pub open spec fn doc_open() -> Seq<u8> {
    seq![47u8, 42u8, 42u8]
}

/// `*/`, the docblock terminator.
pub open spec fn doc_close() -> Seq<u8> {
    seq![42u8, 47u8]
}

/// `function`.
pub open spec fn kw_function() -> Seq<u8> {
    seq![102u8, 117u8, 110u8, 99u8, 116u8, 105u8, 111u8, 110u8]
}

/// `public`.
pub open spec fn kw_public() -> Seq<u8> {
    seq![112u8, 117u8, 98u8, 108u8, 105u8, 99u8]
}

/// `protected`.
pub open spec fn kw_protected() -> Seq<u8> {
    seq![112u8, 114u8, 111u8, 116u8, 101u8, 99u8, 116u8, 101u8, 100u8]
}

/// `private`.
pub open spec fn kw_private() -> Seq<u8> {
    seq![112u8, 114u8, 105u8, 118u8, 97u8, 116u8, 101u8]
}

/// `)`.
pub open spec fn close_paren() -> Seq<u8> {
    seq![41u8]
}

pub fn doc_open_vec() -> (v: Vec<u8>)
    ensures
        v@ == doc_open(),
{
    let mut v: Vec<u8> = Vec::new();
    v.push(47);
    v.push(42);
    v.push(42);
    proof {
        assert(v@ =~= doc_open());
    }
    v
}

pub fn doc_close_vec() -> (v: Vec<u8>)
    ensures
        v@ == doc_close(),
{
    let mut v: Vec<u8> = Vec::new();
    v.push(42);
    v.push(47);
    proof {
        assert(v@ =~= doc_close());
    }
    v
}

pub fn kw_function_vec() -> (v: Vec<u8>)
    ensures
        v@ == kw_function(),
{
    let mut v: Vec<u8> = Vec::new();
    v.push(102);
    v.push(117);
    v.push(110);
    v.push(99);
    v.push(116);
    v.push(105);
    v.push(111);
    v.push(110);
    proof {
        assert(v@ =~= kw_function());
    }
    v
}

pub fn kw_public_vec() -> (v: Vec<u8>)
    ensures
        v@ == kw_public(),
{
    let mut v: Vec<u8> = Vec::new();
    v.push(112);
    v.push(117);
    v.push(98);
    v.push(108);
    v.push(105);
    v.push(99);
    proof {
        assert(v@ =~= kw_public());
    }
    v
}

pub fn kw_protected_vec() -> (v: Vec<u8>)
    ensures
        v@ == kw_protected(),
{
    let mut v: Vec<u8> = Vec::new();
    v.push(112);
    v.push(114);
    v.push(111);
    v.push(116);
    v.push(101);
    v.push(99);
    v.push(116);
    v.push(101);
    v.push(100);
    proof {
        assert(v@ =~= kw_protected());
    }
    v
}

pub fn kw_private_vec() -> (v: Vec<u8>)
    ensures
        v@ == kw_private(),
{
    let mut v: Vec<u8> = Vec::new();
    v.push(112);
    v.push(114);
    v.push(105);
    v.push(118);
    v.push(97);
    v.push(116);
    v.push(101);
    proof {
        assert(v@ =~= kw_private());
    }
    v
}

pub fn close_paren_vec() -> (v: Vec<u8>)
    ensures
        v@ == close_paren(),
{
    let mut v: Vec<u8> = Vec::new();
    v.push(41);
    proof {
        assert(v@ =~= close_paren());
    }
    v
}

/// A newline at `t` that is followed, across whitespace only, by a closing
/// brace: the grammar's body terminator ("a `}` alone on its own line").
pub open spec fn lone_close_after(s: Seq<u8>, t: int) -> bool {
    skip_spaces(s, t + 1) < s.len() && s[skip_spaces(s, t + 1)] == 125
}

/// First offset at or after `i` where the body terminator begins.
pub open spec fn find_body_end(s: Seq<u8>, i: int) -> Option<int>
    decreases s.len() - i,
{
    if i < 0 || i >= s.len() {
        None
    } else if s[i] == 10 && lone_close_after(s, i) {
        Some(i)
    } else {
        find_body_end(s, i + 1)
    }
}

pub proof fn lemma_find_body_end(s: Seq<u8>, i: int)
    requires
        0 <= i,
    ensures
        find_body_end(s, i) matches Some(t) ==> i <= t < s.len() && s[t] == 10
            && lone_close_after(s, t),
    decreases s.len() - i,
{
    if 0 <= i && i < s.len() && !(s[i] == 10 && lone_close_after(s, i)) {
        lemma_find_body_end(s, i + 1);
    }
}

pub fn find_body_end_from(s: &Vec<u8>, i: usize) -> (r: Option<usize>)
    requires
        i <= s.len(),
    ensures
        match r {
            Some(t) => find_body_end(s@, i as int) == Some(t as int) && i <= t < s@.len(),
            None => find_body_end(s@, i as int) is None,
        },
{
    let mut j: usize = i;
    while j < s.len()
        invariant
            i <= j <= s@.len(),
            find_body_end(s@, i as int) == find_body_end(s@, j as int),
        decreases s@.len() - j,
    {
        if s[j] == 10 {
            let w: usize = skip_spaces_from(s, j + 1);
            if w < s.len() && s[w] == 125 {
                return Some(j);
            }
        }
        j = j + 1;
    }
    None
}

/// The grammar, after an optional docblock and an optional visibility
/// keyword have been consumed: `function`, whitespace, an identifier,
/// `( parameters )`, `{`, and a body ending at the first lone closing brace.
/// `pos` is where the whole construct began, `p` where the keyword must
/// stand.
pub open spec fn match_after_vis(
    s: Seq<u8>,
    pos: int,
    db: Option<Seq<u8>>,
    vis: Visibility,
    p: int,
) -> Option<MethodView> {
    if starts_with_at(s, p, kw_function()) && p + 8 < s.len() && is_space(s[p + 8]) {
        let n0 = skip_spaces(s, p + 8);
        let n1 = skip_word(s, n0);
        if n1 > n0 {
            let q = skip_spaces(s, n1);
            if q < s.len() && s[q] == 40 {
                match find_from(s, q + 1, close_paren()) {
                    Some(rp) => {
                        let ob = skip_spaces(s, rp + 1);
                        if ob < s.len() && s[ob] == 123 {
                            match find_body_end(s, ob + 1) {
                                Some(t) => Some(
                                    MethodView {
                                        visibility: vis,
                                        name: s.subrange(n0, n1),
                                        parameters: s.subrange(q + 1, rp),
                                        body: trim_spec(s.subrange(ob + 1, t)),
                                        docblock: db,
                                        start_position: pos,
                                        match_len: skip_spaces(s, t + 1) + 1 - pos,
                                    },
                                ),
                                None => None,
                            }
                        } else {
                            None
                        }
                    },
                    None => None,
                }
            } else {
                None
            }
        } else {
            None
        }
    } else {
        None
    }
}

/// The grammar after the optional docblock: an optional visibility keyword
/// (public when absent), whitespace, then the rest of the construct.
pub open spec fn match_after_doc(
    s: Seq<u8>,
    pos: int,
    db: Option<Seq<u8>>,
    p: int,
) -> Option<MethodView> {
    if starts_with_at(s, p, kw_public()) {
        match_after_vis(s, pos, db, Visibility::Public, skip_spaces(s, p + 6))
    } else if starts_with_at(s, p, kw_protected()) {
        match_after_vis(s, pos, db, Visibility::Protected, skip_spaces(s, p + 9))
    } else if starts_with_at(s, p, kw_private()) {
        match_after_vis(s, pos, db, Visibility::Private, skip_spaces(s, p + 7))
    } else {
        match_after_vis(s, pos, db, Visibility::Public, p)
    }
}

/// Whether a method construct matches at exactly offset `pos`, and the
/// record it yields: an optional `/** ... */` docblock (a construct whose
/// docblock never terminates does not match), then the visibility and the
/// definition itself.
pub open spec fn match_at(s: Seq<u8>, pos: int) -> Option<MethodView> {
    if starts_with_at(s, pos, doc_open()) {
        match find_from(s, pos + 3, doc_close()) {
            Some(c) => match_after_doc(
                s,
                pos,
                Some(s.subrange(pos, c + 2)),
                skip_spaces(s, c + 2),
            ),
            None => None,
        }
    } else {
        match_after_doc(s, pos, None, pos)
    }
}

/// The ordered method list of `s` from offset `pos` on: try each offset in
/// turn; on a match, emit it and continue past the matched construct.
pub open spec fn scan(s: Seq<u8>, pos: int) -> Seq<MethodView>
    decreases s.len() - pos,
{
    if pos < 0 || pos >= s.len() {
        Seq::empty()
    } else {
        match match_at(s, pos) {
            Some(m) => {
                // A real match always has 1 <= match_len and ends inside the
                // buffer (see `try_match_at`); the guard keeps the recursion
                // well founded without appealing to that fact.
                if 1 <= m.match_len && pos + m.match_len <= s.len() {
                    seq![m] + scan(s, pos + m.match_len)
                } else {
                    seq![m] + scan(s, pos + 1)
                }
            },
            None => scan(s, pos + 1),
        }
    }
}

/// Tries the grammar at exactly `pos`, returning the record on a match.
#[verifier::rlimit(60)]
pub fn try_match_at(s: &Vec<u8>, pos: usize) -> (r: Option<Method>)
    requires
        pos < s.len(),
    ensures
        match r {
            Some(m) => match_at(s@, pos as int) == Some(m@) && m.start_position == pos
                && 1 <= m.match_len && pos + m.match_len <= s@.len(),
            None => match_at(s@, pos as int) is None,
        },
{
    let doc_open_pat = doc_open_vec();
    let (db, p1): (Option<Vec<u8>>, usize) = if has_prefix_at(s, pos, &doc_open_pat) {
        let doc_close_pat = doc_close_vec();
        match find_pattern(s, pos + 3, &doc_close_pat) {
            Some(c) => {
                proof {
                    lemma_find_from(s@, pos + 3, doc_close());
                }
                let dbv = copy_range(s, pos, c + 2);
                (Some(dbv), skip_spaces_from(s, c + 2))
            },
            None => {
                return None;
            },
        }
    } else {
        (None, pos)
    };
    let kw_pub = kw_public_vec();
    let kw_prot = kw_protected_vec();
    let kw_priv = kw_private_vec();
    let (vis, p2): (Visibility, usize) = if has_prefix_at(s, p1, &kw_pub) {
        (Visibility::Public, skip_spaces_from(s, p1 + 6))
    } else if has_prefix_at(s, p1, &kw_prot) {
        (Visibility::Protected, skip_spaces_from(s, p1 + 9))
    } else if has_prefix_at(s, p1, &kw_priv) {
        (Visibility::Private, skip_spaces_from(s, p1 + 7))
    } else {
        (Visibility::Public, p1)
    };
    let kw_fn = kw_function_vec();
    if !has_prefix_at(s, p2, &kw_fn) {
        return None;
    }
    if p2 + 8 >= s.len() {
        return None;
    }
    if !byte_is_space(s[p2 + 8]) {
        return None;
    }
    let n0: usize = skip_spaces_from(s, p2 + 8);
    let n1: usize = skip_word_from(s, n0);
    if n1 == n0 {
        return None;
    }
    let q: usize = skip_spaces_from(s, n1);
    if q >= s.len() {
        return None;
    }
    if s[q] != 40 {
        return None;
    }
    let paren_pat = close_paren_vec();
    let rp: usize = match find_pattern(s, q + 1, &paren_pat) {
        Some(rp) => rp,
        None => {
            return None;
        },
    };
    proof {
        lemma_find_from(s@, q + 1, close_paren());
    }
    let ob: usize = skip_spaces_from(s, rp + 1);
    if ob >= s.len() {
        return None;
    }
    if s[ob] != 123 {
        return None;
    }
    let t: usize = match find_body_end_from(s, ob + 1) {
        Some(t) => t,
        None => {
            return None;
        },
    };
    proof {
        lemma_find_body_end(s@, ob + 1);
    }
    let w: usize = skip_spaces_from(s, t + 1);
    proof {
        assert(w < s@.len());
    }
    let name = copy_range(s, n0, n1);
    let parameters = copy_range(s, q + 1, rp);
    let raw_body = copy_range(s, ob + 1, t);
    let body = trim_bytes(&raw_body);
    let m = Method {
        visibility: vis,
        name,
        parameters,
        body,
        docblock: db,
        start_position: pos,
        match_len: w + 1 - pos,
    };
    Some(m)
}

/// Extracts every method definition the grammar matches, in ascending start
/// position order. Extraction is a pure function of the text: the result is
/// exactly `scan(source, 0)`. Unmatched text is skipped, and an empty result
/// is valid.
pub fn extract_methods(source: &Vec<u8>) -> (r: Vec<Method>)
    ensures
        method_views(r@) == scan(source@, 0),
{
    let mut r: Vec<Method> = Vec::new();
    let mut pos: usize = 0;
    while pos < source.len()
        invariant
            pos <= source@.len(),
            scan(source@, 0) == method_views(r@) + scan(source@, pos as int),
        decreases source@.len() - pos,
    {
        match try_match_at(source, pos) {
            Some(m) => {
                let step: usize = m.match_len;
                proof {
                    lemma_method_views_push(r@, m);
                    assert(scan(source@, pos as int) == seq![m@] + scan(
                        source@,
                        pos + m@.match_len,
                    ));
                    assert(method_views(r@).push(m@) + scan(source@, pos + m@.match_len)
                        =~= method_views(r@) + scan(source@, pos as int));
                }
                r.push(m);
                pos = pos + step;
            },
            None => {
                proof {
                    assert(scan(source@, pos as int) == scan(source@, pos + 1));
                }
                pos = pos + 1;
            },
        }
    }
    proof {
        assert(method_views(r@) + scan(source@, pos as int) =~= method_views(r@));
    }
    r
}

/// Determinism: extraction is a function of the unmodified text alone, so
/// two extractions from the same buffer yield identical ordered method
/// lists.
pub proof fn lemma_extract_deterministic(s: Seq<u8>, r1: Seq<MethodView>, r2: Seq<MethodView>)
    requires
        r1 == scan(s, 0),
        r2 == scan(s, 0),
    ensures
        r1 == r2,
{
}

/// Offset fidelity: every extracted method's recorded start position
/// locates, in the original unmodified buffer, exactly the construct the
/// grammar matched there. Re-matching at `start_position` reproduces the
/// record, and the matched extent `[start_position, start_position +
/// match_len)` lies within the buffer.
pub proof fn lemma_offset_fidelity(s: Seq<u8>, pos: int, i: int)
    requires
        0 <= pos <= s.len(),
        0 <= i < scan(s, pos).len(),
    ensures
        ({
            let m = scan(s, pos)[i];
            &&& match_at(s, m.start_position) == Some(m)
            &&& pos <= m.start_position
            &&& m.start_position + m.match_len <= s.len()
            &&& 1 <= m.match_len
        }),
    decreases s.len() - pos,
{
    lemma_match_at_props(s, pos);
    if pos < s.len() {
        match match_at(s, pos) {
            Some(m0) => {
                let next = if 1 <= m0.match_len && pos + m0.match_len <= s.len() {
                    pos + m0.match_len
                } else {
                    pos + 1
                };
                if i == 0 {
                    assert(scan(s, pos)[0] == m0);
                } else {
                    lemma_offset_fidelity(s, next, i - 1);
                    assert(scan(s, pos)[i] == scan(s, next)[i - 1]);
                }
            },
            None => {
                lemma_offset_fidelity(s, pos + 1, i);
            },
        }
    }
}

/// A match found at `pos` starts at `pos`, has positive length, and ends
/// inside the buffer.
pub proof fn lemma_match_at_props(s: Seq<u8>, pos: int)
    requires
        0 <= pos <= s.len(),
    ensures
        match_at(s, pos) matches Some(m) ==> m.start_position == pos && 1 <= m.match_len
            && pos + m.match_len <= s.len(),
{
    if starts_with_at(s, pos, doc_open()) {
        match find_from(s, pos + 3, doc_close()) {
            Some(c) => {
                lemma_find_from(s, pos + 3, doc_close());
                lemma_skip_spaces_bounds(s, c + 2);
                lemma_match_after_doc_props(s, pos, Some(s.subrange(pos, c + 2)), skip_spaces(s, c + 2));
            },
            None => {},
        }
    } else {
        lemma_match_after_doc_props(s, pos, None, pos);
    }
}

proof fn lemma_match_after_doc_props(s: Seq<u8>, pos: int, db: Option<Seq<u8>>, p: int)
    requires
        0 <= pos <= p <= s.len(),
    ensures
        match_after_doc(s, pos, db, p) matches Some(m) ==> m.start_position == pos
            && 1 <= m.match_len && pos + m.match_len <= s.len(),
{
    if starts_with_at(s, p, kw_public()) {
        lemma_skip_spaces_bounds(s, p + 6);
        lemma_match_after_vis_props(s, pos, db, Visibility::Public, skip_spaces(s, p + 6));
    } else if starts_with_at(s, p, kw_protected()) {
        lemma_skip_spaces_bounds(s, p + 9);
        lemma_match_after_vis_props(s, pos, db, Visibility::Protected, skip_spaces(s, p + 9));
    } else if starts_with_at(s, p, kw_private()) {
        lemma_skip_spaces_bounds(s, p + 7);
        lemma_match_after_vis_props(s, pos, db, Visibility::Private, skip_spaces(s, p + 7));
    } else {
        lemma_match_after_vis_props(s, pos, db, Visibility::Public, p);
    }
}

proof fn lemma_match_after_vis_props(
    s: Seq<u8>,
    pos: int,
    db: Option<Seq<u8>>,
    vis: Visibility,
    p: int,
)
    requires
        0 <= pos <= p <= s.len(),
    ensures
        match_after_vis(s, pos, db, vis, p) matches Some(m) ==> m.start_position == pos
            && 1 <= m.match_len && pos + m.match_len <= s.len(),
{
    if starts_with_at(s, p, kw_function()) && p + 8 < s.len() && is_space(s[p + 8]) {
        lemma_skip_spaces_bounds(s, p + 8);
        let n0 = skip_spaces(s, p + 8);
        lemma_skip_word_bounds(s, n0);
        let n1 = skip_word(s, n0);
        if n1 > n0 {
            lemma_skip_spaces_bounds(s, n1);
            let q = skip_spaces(s, n1);
            if q < s.len() && s[q] == 40 {
                lemma_find_from(s, q + 1, close_paren());
                match find_from(s, q + 1, close_paren()) {
                    Some(rp) => {
                        lemma_skip_spaces_bounds(s, rp + 1);
                        let ob = skip_spaces(s, rp + 1);
                        if ob < s.len() && s[ob] == 123 {
                            lemma_find_body_end(s, ob + 1);
                            match find_body_end(s, ob + 1) {
                                Some(t) => {
                                    lemma_skip_spaces_bounds(s, t + 1);
                                },
                                None => {},
                            }
                        }
                    },
                    None => {},
                }
            }
        }
    }
}

} // verus!
