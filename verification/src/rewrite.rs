//! The rewriter: inserts finished annotations back into the original buffer.
//!
//! The canonical strategy is offset-tracked insertion: methods are processed
//! strictly in ascending original `start_position` order, and each insertion
//! shifts every later position by the inserted length. `rewrite_from` states
//! the result directly: the decoration of each method stands immediately
//! before the text that began at its original offset, whatever the other
//! annotations' lengths are. An alternate, name-based strategy re-locates a
//! single method in the current buffer instead of trusting a remembered
//! offset (see [`annotate_by_signature`]).

use vstd::prelude::*;

use crate::bytes::{append_all, append_range, find_from, find_pattern, lemma_find_from};
use crate::extract::{lemma_match_at_props, match_at, scan};
use crate::method::{method_views, Method, MethodView};

verus! {

/// The bytes actually inserted for one method: the annotation framed by a
/// leading and a trailing newline, or nothing when no annotation was
/// produced (a failed generation leaves the buffer unchanged there).
pub open spec fn decoration(m: MethodView) -> Seq<u8> {
    match m.docblock {
        Some(d) => seq![10u8] + d + seq![10u8],
        None => Seq::empty(),
    }
}

pub open spec fn inserted_len(m: MethodView) -> int {
    decoration(m).len() as int
}

/// Offsets ascend and stay inside a buffer of length `n`, from `lo` on: the
/// shape extraction guarantees and insertion relies on.
pub open spec fn well_placed(ms: Seq<MethodView>, lo: int, n: int) -> bool {
    &&& forall|i: int| 0 <= i < ms.len() ==> lo <= #[trigger] ms[i].start_position <= n
    &&& forall|i: int, j: int|
        0 <= i < j < ms.len() ==> #[trigger] ms[i].start_position
            <= #[trigger] ms[j].start_position
}

/// The rewritten buffer from offset `from` on: each method's decoration, in
/// order, immediately before the original text that begins at its offset.
pub open spec fn rewrite_from(buf: Seq<u8>, ms: Seq<MethodView>, from: int) -> Seq<u8>
    decreases ms.len(),
{
    if ms.len() == 0 {
        buf.subrange(from, buf.len() as int)
    } else {
        buf.subrange(from, ms[0].start_position) + decoration(ms[0]) + rewrite_from(
            buf,
            ms.drop_first(),
            ms[0].start_position,
        )
    }
}

/// The whole rewritten buffer.
pub open spec fn rewrite_spec(buf: Seq<u8>, ms: Seq<MethodView>) -> Seq<u8> {
    rewrite_from(buf, ms, 0)
}

proof fn lemma_well_placed_tail(ms: Seq<MethodView>, lo: int, n: int)
    requires
        well_placed(ms, lo, n),
        ms.len() > 0,
    ensures
        well_placed(ms.drop_first(), ms[0].start_position, n),
{
    assert forall|i: int| 0 <= i < ms.drop_first().len() implies ms[0].start_position
        <= #[trigger] ms.drop_first()[i].start_position <= n by {
        assert(ms.drop_first()[i] == ms[i + 1]);
    }
    assert forall|i: int, j: int| 0 <= i < j < ms.drop_first().len()
        implies #[trigger] ms.drop_first()[i].start_position
            <= #[trigger] ms.drop_first()[j].start_position by {
        assert(ms.drop_first()[i] == ms[i + 1]);
        assert(ms.drop_first()[j] == ms[j + 1]);
    }
}

/// What extraction guarantees is exactly what offset-tracked insertion
/// relies on: the scanned method list has ascending start positions, all
/// inside the buffer.
pub proof fn lemma_scan_well_placed(s: Seq<u8>, pos: int)
    requires
        0 <= pos <= s.len(),
    ensures
        well_placed(scan(s, pos), pos, s.len() as int),
    decreases s.len() - pos,
{
    if pos < s.len() {
        lemma_match_at_props(s, pos);
        match match_at(s, pos) {
            Some(m) => {
                let next = if 1 <= m.match_len && pos + m.match_len <= s.len() {
                    pos + m.match_len
                } else {
                    pos + 1
                };
                lemma_scan_well_placed(s, next);
                let r = scan(s, pos);
                let t = scan(s, next);
                assert(r == seq![m] + t);
                assert forall|i: int| 0 <= i < r.len() implies pos <= (#[trigger] r[
                    i
                ]).start_position <= s.len() by {
                    if i == 0 {
                        assert(r[0] == m);
                    } else {
                        assert(r[i] == t[i - 1]);
                    }
                }
                assert forall|i: int, j: int| 0 <= i < j < r.len() implies (#[trigger] r[
                    i
                ]).start_position <= (#[trigger] r[j]).start_position by {
                    assert(r[j] == t[j - 1]);
                    if i == 0 {
                        assert(r[0] == m);
                    } else {
                        assert(r[i] == t[i - 1]);
                    }
                }
            },
            None => {
                lemma_scan_well_placed(s, pos + 1);
            },
        }
    }
}

/// Offset-tracked insertion, the canonical rewrite: processes methods in
/// ascending original-offset order and places each non-empty annotation,
/// framed by newlines, immediately before its method's original text.
/// Methods without an annotation are skipped and their text is untouched.
pub fn apply_annotations(buf: &Vec<u8>, methods: &Vec<Method>) -> (out: Vec<u8>)
    requires
        well_placed(method_views(methods@), 0, buf@.len() as int),
    ensures
        out@ == rewrite_spec(buf@, method_views(methods@)),
{
    let ghost msv = method_views(methods@);
    let mut out: Vec<u8> = Vec::new();
    let mut prev: usize = 0;
    let mut i: usize = 0;
    proof {
        assert(msv.skip(0) =~= msv);
        assert(out@ + rewrite_from(buf@, msv, 0) =~= rewrite_from(buf@, msv, 0));
    }
    while i < methods.len()
        invariant
            i <= methods@.len(),
            prev <= buf@.len(),
            msv == method_views(methods@),
            msv.len() == methods@.len(),
            well_placed(msv, 0, buf@.len() as int),
            i < msv.len() ==> prev <= msv[i as int].start_position,
            rewrite_spec(buf@, msv) == out@ + rewrite_from(buf@, msv.skip(i as int), prev as int),
        decreases methods@.len() - i,
    {
        let m = &methods[i];
        let start: usize = m.start_position;
        proof {
            assert(msv[i as int] == methods@[i as int]@);
            assert(start as int == msv[i as int].start_position);
            assert(start <= buf@.len());
        }
        let ghost out_before = out@;
        append_range(&mut out, buf, prev, start);
        match &m.docblock {
            Some(d) => {
                out.push(10);
                append_all(&mut out, d);
                out.push(10);
                proof {
                    assert(decoration(msv[i as int]) == seq![10u8] + d@ + seq![10u8]);
                    assert(out@ =~= out_before + buf@.subrange(prev as int, start as int)
                        + decoration(msv[i as int]));
                }
            },
            None => {
                proof {
                    assert(decoration(msv[i as int]) =~= Seq::<u8>::empty());
                    assert(out@ =~= out_before + buf@.subrange(prev as int, start as int)
                        + decoration(msv[i as int]));
                }
            },
        }
        proof {
            assert(msv.skip(i as int).len() > 0);
            assert(msv.skip(i as int)[0] == msv[i as int]);
            assert(msv.skip(i as int).drop_first() =~= msv.skip(i + 1));
            assert(rewrite_from(buf@, msv.skip(i as int), prev as int) == buf@.subrange(
                prev as int,
                start as int,
            ) + decoration(msv[i as int]) + rewrite_from(buf@, msv.skip(i + 1), start as int));
            assert(out_before + (buf@.subrange(prev as int, start as int) + decoration(
                msv[i as int],
            ) + rewrite_from(buf@, msv.skip(i + 1), start as int)) =~= out@ + rewrite_from(
                buf@,
                msv.skip(i + 1),
                start as int,
            ));
            if i + 1 < msv.len() {
                assert(msv[i as int].start_position <= msv[i + 1].start_position);
            }
        }
        prev = start;
        i = i + 1;
    }
    proof {
        assert(msv.skip(i as int) =~= Seq::<MethodView>::empty());
    }
    let ghost out_before = out@;
    append_range(&mut out, buf, prev, buf.len());
    proof {
        assert(rewrite_from(buf@, msv.skip(i as int), prev as int) == buf@.subrange(
            prev as int,
            buf@.len() as int,
        ));
        assert(out@ == out_before + buf@.subrange(prev as int, buf@.len() as int));
    }
    out
}

/// No-op rewrite: with every method's docblock unset, the rewritten buffer
/// is byte-for-byte the input buffer.
pub proof fn lemma_noop_rewrite(buf: Seq<u8>, ms: Seq<MethodView>)
    requires
        well_placed(ms, 0, buf.len() as int),
        forall|i: int| 0 <= i < ms.len() ==> ms[i].docblock is None,
    ensures
        rewrite_spec(buf, ms) == buf,
{
    lemma_noop_rewrite_from(buf, ms, 0);
    assert(buf.subrange(0, buf.len() as int) =~= buf);
}

proof fn lemma_noop_rewrite_from(buf: Seq<u8>, ms: Seq<MethodView>, from: int)
    requires
        well_placed(ms, from, buf.len() as int),
        0 <= from <= buf.len(),
        forall|i: int| 0 <= i < ms.len() ==> ms[i].docblock is None,
    ensures
        rewrite_from(buf, ms, from) == buf.subrange(from, buf.len() as int),
    decreases ms.len(),
{
    if ms.len() > 0 {
        let s0 = ms[0].start_position;
        lemma_well_placed_tail(ms, from, buf.len() as int);
        assert forall|i: int| 0 <= i < ms.drop_first().len() implies (#[trigger] ms.drop_first()[
            i
        ].docblock) is None by {
            assert(ms.drop_first()[i] == ms[i + 1]);
        }
        lemma_noop_rewrite_from(buf, ms.drop_first(), s0);
        assert(decoration(ms[0]) =~= Seq::<u8>::empty());
        assert(buf.subrange(from, s0) + decoration(ms[0]) + buf.subrange(s0, buf.len() as int)
            =~= buf.subrange(from, buf.len() as int));
    }
}

/// Total length inserted for the first `i` methods: the running adjustment
/// counter of offset-tracked insertion, before method `i` is placed.
pub open spec fn adjustment(ms: Seq<MethodView>, i: int) -> int
    decreases i,
{
    if i <= 0 {
        0
    } else {
        adjustment(ms, i - 1) + inserted_len(ms[i - 1])
    }
}

proof fn lemma_adjustment_nonneg(ms: Seq<MethodView>, i: int)
    ensures
        adjustment(ms, i) >= 0,
    decreases i,
{
    if i > 0 {
        lemma_adjustment_nonneg(ms, i - 1);
    }
}

proof fn lemma_adjustment_shift(ms: Seq<MethodView>, i: int)
    requires
        1 <= i <= ms.len(),
    ensures
        adjustment(ms, i) == inserted_len(ms[0]) + adjustment(ms.drop_first(), i - 1),
    decreases i,
{
    if i > 1 {
        lemma_adjustment_shift(ms, i - 1);
        assert(ms.drop_first()[i - 2] == ms[i - 1]);
    } else {
        assert(adjustment(ms, 0) == 0);
        assert(adjustment(ms.drop_first(), 0) == 0);
    }
}

pub proof fn lemma_rewrite_len(buf: Seq<u8>, ms: Seq<MethodView>, from: int)
    requires
        well_placed(ms, from, buf.len() as int),
        0 <= from <= buf.len(),
    ensures
        rewrite_from(buf, ms, from).len() == buf.len() - from + adjustment(ms, ms.len() as int),
    decreases ms.len(),
{
    if ms.len() > 0 {
        lemma_well_placed_tail(ms, from, buf.len() as int);
        lemma_rewrite_len(buf, ms.drop_first(), ms[0].start_position);
        lemma_adjustment_shift(ms, ms.len() as int);
    }
}

/// Insertion-order independence from annotation length: in the rewritten
/// buffer, the decoration of method `i` begins at `start_position +
/// adjustment(ms, i)` — its original offset shifted only by the lengths
/// inserted before it — and is followed immediately by the original text
/// from its offset up to the next method's offset (or the buffer's end),
/// for arbitrary annotation lengths.
pub proof fn lemma_annotation_placement(buf: Seq<u8>, ms: Seq<MethodView>, i: int)
    requires
        well_placed(ms, 0, buf.len() as int),
        0 <= i < ms.len(),
    ensures
        ({
            let r = rewrite_spec(buf, ms);
            let p = ms[i].start_position + adjustment(ms, i);
            let nxt = if i + 1 < ms.len() {
                ms[i + 1].start_position
            } else {
                buf.len() as int
            };
            &&& 0 <= p
            &&& p + inserted_len(ms[i]) + (nxt - ms[i].start_position) <= r.len()
            &&& r.subrange(p, p + inserted_len(ms[i])) == decoration(ms[i])
            &&& r.subrange(
                p + inserted_len(ms[i]),
                p + inserted_len(ms[i]) + (nxt - ms[i].start_position),
            ) == buf.subrange(ms[i].start_position, nxt)
        }),
{
    lemma_annotation_placement_from(buf, ms, 0, i);
}

proof fn lemma_annotation_placement_from(buf: Seq<u8>, ms: Seq<MethodView>, from: int, i: int)
    requires
        well_placed(ms, from, buf.len() as int),
        0 <= from <= buf.len(),
        0 <= i < ms.len(),
    ensures
        ({
            let r = rewrite_from(buf, ms, from);
            let p = (ms[i].start_position - from) + adjustment(ms, i);
            let nxt = if i + 1 < ms.len() {
                ms[i + 1].start_position
            } else {
                buf.len() as int
            };
            &&& 0 <= p
            &&& p + inserted_len(ms[i]) + (nxt - ms[i].start_position) <= r.len()
            &&& r.subrange(p, p + inserted_len(ms[i])) == decoration(ms[i])
            &&& r.subrange(
                p + inserted_len(ms[i]),
                p + inserted_len(ms[i]) + (nxt - ms[i].start_position),
            ) == buf.subrange(ms[i].start_position, nxt)
        }),
    decreases i,
{
    let r = rewrite_from(buf, ms, from);
    let s0 = ms[0].start_position;
    let tail = ms.drop_first();
    lemma_well_placed_tail(ms, from, buf.len() as int);
    lemma_rewrite_len(buf, ms, from);
    lemma_rewrite_len(buf, tail, s0);
    lemma_adjustment_nonneg(ms, i);
    lemma_adjustment_nonneg(tail, tail.len() as int);
    lemma_adjustment_nonneg(tail, i - 1);
    let rt = rewrite_from(buf, tail, s0);
    assert(r == buf.subrange(from, s0) + decoration(ms[0]) + rt);
    if i == 0 {
        let p = (s0 - from) + 0;
        let nxt = if 1 < ms.len() {
            ms[1].start_position
        } else {
            buf.len() as int
        };
        assert(r.subrange(p, p + inserted_len(ms[0])) =~= decoration(ms[0]));
        if 1 < ms.len() {
            assert(tail[0] == ms[1]);
            assert(rt == buf.subrange(s0, nxt) + decoration(tail[0]) + rewrite_from(
                buf,
                tail.drop_first(),
                nxt,
            ));
            assert(r.subrange(
                p + inserted_len(ms[0]),
                p + inserted_len(ms[0]) + (nxt - s0),
            ) =~= buf.subrange(s0, nxt));
        } else {
            assert(rt == buf.subrange(s0, buf.len() as int));
            assert(r.subrange(
                p + inserted_len(ms[0]),
                p + inserted_len(ms[0]) + (nxt - s0),
            ) =~= buf.subrange(s0, nxt));
        }
    } else {
        lemma_annotation_placement_from(buf, tail, s0, i - 1);
        lemma_adjustment_shift(ms, i);
        assert(tail[i - 1] == ms[i]);
        let nxt = if i + 1 < ms.len() {
            ms[i + 1].start_position
        } else {
            buf.len() as int
        };
        let nxt_t = if i < tail.len() {
            tail[i].start_position
        } else {
            buf.len() as int
        };
        assert(i < tail.len() ==> tail[i] == ms[i + 1]);
        assert(nxt_t == nxt);
        let pt = (ms[i].start_position - s0) + adjustment(tail, i - 1);
        let off = (s0 - from) + inserted_len(ms[0]);
        let p = (ms[i].start_position - from) + adjustment(ms, i);
        assert(p == off + pt);
        assert(rt.subrange(pt, pt + inserted_len(ms[i])) == decoration(ms[i]));
        assert(rt.subrange(
            pt + inserted_len(ms[i]),
            pt + inserted_len(ms[i]) + (nxt - ms[i].start_position),
        ) == buf.subrange(ms[i].start_position, nxt));
        assert(r.subrange(p, p + inserted_len(ms[i])) =~= rt.subrange(
            pt,
            pt + inserted_len(ms[i]),
        ));
        assert(r.subrange(
            p + inserted_len(ms[i]),
            p + inserted_len(ms[i]) + (nxt - ms[i].start_position),
        ) =~= rt.subrange(
            pt + inserted_len(ms[i]),
            pt + inserted_len(ms[i]) + (nxt - ms[i].start_position),
        ));
    }
}

/// Name-based replacement, the alternate single-method strategy: re-locates
/// the method's signature in the current buffer (not by remembered offset)
/// and places the annotation and a newline immediately before the first
/// occurrence. Returns the buffer unchanged when the signature is absent.
/// With duplicate signatures the first occurrence is chosen, which may be
/// the wrong one — the documented correctness risk of this strategy.
pub fn annotate_by_signature(buf: &Vec<u8>, signature: &Vec<u8>, annotation: &Vec<u8>) -> (out:
    Vec<u8>)
    ensures
        match find_from(buf@, 0, signature@) {
            Some(k) => out@ == buf@.subrange(0, k) + annotation@ + seq![10u8] + buf@.subrange(
                k,
                buf@.len() as int,
            ),
            None => out@ == buf@,
        },
{
    match find_pattern(buf, 0, signature) {
        Some(k) => {
            proof {
                lemma_find_from(buf@, 0, signature@);
            }
            let mut out: Vec<u8> = Vec::new();
            append_range(&mut out, buf, 0, k);
            append_all(&mut out, annotation);
            out.push(10);
            let ghost mid = out@;
            append_range(&mut out, buf, k, buf.len());
            proof {
                assert(out@ =~= buf@.subrange(0, k as int) + annotation@ + seq![10u8]
                    + buf@.subrange(k as int, buf@.len() as int));
            }
            out
        },
        None => {
            let mut out: Vec<u8> = Vec::new();
            append_all(&mut out, buf);
            proof {
                assert(out@ =~= buf@);
            }
            out
        },
    }
}

} // verus!
