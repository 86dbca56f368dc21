//! The reconciler: forces a variable-count bulk answer to align with the
//! fixed count of input methods.
//!
//! The external service's output cannot be size-verified before the fact, so
//! a mismatch between requested and returned counts is a robustness boundary,
//! not an error: equal counts pass through unchanged (segment `i` belongs to
//! method `i`), short answers are padded at the tail with a fixed placeholder
//! annotation, long answers are truncated to the first N segments.
//! Reconciliation always succeeds and always returns exactly N items; the
//! caller is expected to surface a diagnostic when the counts differ.

use vstd::prelude::*;

use crate::method::seq_views;

verus! {

/// `/** Generated docblock */`, the placeholder annotation used to pad a
/// short answer.
pub open spec fn placeholder_spec() -> Seq<u8> {
    seq![
        47u8, 42u8, 42u8, 32u8, 71u8, 101u8, 110u8, 101u8, 114u8, 97u8, 116u8, 101u8, 100u8,
        32u8, 100u8, 111u8, 99u8, 98u8, 108u8, 111u8, 99u8, 107u8, 32u8, 42u8, 47u8,
    ]
}

pub fn placeholder() -> (v: Vec<u8>)
    ensures
        v@ == placeholder_spec(),
{
    let mut v: Vec<u8> = Vec::new();
    v.push(47);
    v.push(42);
    v.push(42);
    v.push(32);
    v.push(71);
    v.push(101);
    v.push(110);
    v.push(101);
    v.push(114);
    v.push(97);
    v.push(116);
    v.push(101);
    v.push(100);
    v.push(32);
    v.push(100);
    v.push(111);
    v.push(99);
    v.push(98);
    v.push(108);
    v.push(111);
    v.push(99);
    v.push(107);
    v.push(32);
    v.push(42);
    v.push(47);
    proof {
        assert(v@ =~= placeholder_spec());
    }
    v
}

/// K segments aligned to N methods: pass through, pad with the placeholder,
/// or truncate.
pub open spec fn reconcile_spec(segs: Seq<Seq<u8>>, n: int) -> Seq<Seq<u8>> {
    if segs.len() >= n {
        segs.take(n)
    } else {
        segs + Seq::new((n - segs.len()) as nat, |i: int| placeholder_spec())
    }
}

/// Reconciliation total count: for any K >= 0 returned segments and any
/// N >= 0 requested, the reconciled output has exactly N items.
pub proof fn lemma_reconciliation_total_count(segs: Seq<Seq<u8>>, n: int)
    requires
        n >= 0,
    ensures
        reconcile_spec(segs, n).len() == n,
{
}

/// Aligns the bulk answer's segments with the `n` input methods; never
/// fails, and the result always has exactly `n` items.
pub fn reconcile(segments: Vec<Vec<u8>>, n: usize) -> (r: Vec<Vec<u8>>)
    ensures
        r@.len() == n,
        seq_views(r@) == reconcile_spec(seq_views(segments@), n as int),
{
    let ghost original = segments@;
    let mut r = segments;
    if r.len() >= n {
        r.truncate(n);
        proof {
            assert(seq_views(r@) =~= reconcile_spec(seq_views(original), n as int));
        }
    } else {
        while r.len() < n
            invariant
                original.len() <= r@.len() <= n,
                forall|i: int| 0 <= i < original.len() ==> r@[i] == original[i],
                forall|i: int|
                    original.len() <= i < r@.len() ==> (#[trigger] r@[i])@ == placeholder_spec(),
            decreases n - r@.len(),
        {
            r.push(placeholder());
        }
        proof {
            assert(seq_views(r@) =~= reconcile_spec(seq_views(original), n as int));
        }
    }
    r
}

} // verus!
