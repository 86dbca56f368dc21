//! The annotation generator's decision logic: classifying service answers,
//! splitting a bulk answer into per-method segments, aligning them with the
//! methods, and the sequential mode's retry policy with exponential backoff.
//!
//! Two operating modes exist, mutually exclusive per run. Bulk mode sends one
//! request for all methods and treats any failure as fatal for the whole
//! batch. Sequential mode sends one request per method, retries rate-limited
//! answers with exponentially growing delays up to a fixed cap, fails a
//! method immediately on any other non-success status, and isolates failures
//! to the one method — the run proceeds with the rest. The caller performs
//! the actual transport and sleeping; everything decided here is a pure
//! function of status, text and retry state.

use vstd::prelude::*;

use crate::bytes::{copy_range, find_from, find_pattern, lemma_find_from, trim_bytes, trim_spec};
use crate::method::{lemma_seq_views_push, seq_views};
use crate::reconcile::{reconcile, reconcile_spec};

verus! {

/// How the pipeline classifies one HTTP answer: success is any 2xx status,
/// 429 is retryable (in sequential mode only), anything else is fatal for
/// the enclosing request.
#[derive(Clone, Copy, PartialEq, Eq, Debug, Structural)]
pub enum StatusClass {
    Success,
    RateLimited,
    Fatal,
}

pub open spec fn classify_spec(status: u16) -> StatusClass {
    if 200 <= status && status <= 299 {
        StatusClass::Success
    } else if status == 429 {
        StatusClass::RateLimited
    } else {
        StatusClass::Fatal
    }
}

pub fn classify_status(status: u16) -> (c: StatusClass)
    ensures
        c == classify_spec(status),
{
    if 200 <= status && status <= 299 {
        StatusClass::Success
    } else if status == 429 {
        StatusClass::RateLimited
    } else {
        StatusClass::Fatal
    }
}

/// `---`, the fixed delimiter the service is asked to separate per-method
/// annotations with.
pub open spec fn delim() -> Seq<u8> {
    seq![45u8, 45u8, 45u8]
}

pub fn delim_vec() -> (v: Vec<u8>)
    ensures
        v@ == delim(),
{
    let mut v: Vec<u8> = Vec::new();
    v.push(45);
    v.push(45);
    v.push(45);
    proof {
        assert(v@ =~= delim());
    }
    v
}

/// The raw segments of `s` from offset `i` on, split at each occurrence of
/// the delimiter.
pub open spec fn split_segments(s: Seq<u8>, i: int) -> Seq<Seq<u8>>
    decreases s.len() - i,
{
    if !(0 <= i && i <= s.len()) {
        Seq::empty()
    } else {
        match find_from(s, i, delim()) {
            Some(k) => if i <= k && k + 3 <= s.len() {
                seq![s.subrange(i, k)] + split_segments(s, k + 3)
            } else {
                seq![s.subrange(i, s.len() as int)]
            },
            None => seq![s.subrange(i, s.len() as int)],
        }
    }
}

/// Raw segments, trimmed, with empty ones discarded.
pub open spec fn clean_segments(raw: Seq<Seq<u8>>) -> Seq<Seq<u8>>
    decreases raw.len(),
{
    if raw.len() == 0 {
        Seq::empty()
    } else {
        let t = trim_spec(raw[0]);
        let rest = clean_segments(raw.drop_first());
        if t.len() == 0 {
            rest
        } else {
            seq![t] + rest
        }
    }
}

proof fn lemma_clean_segments_cons(head: Seq<u8>, rest: Seq<Seq<u8>>)
    ensures
        clean_segments(seq![head] + rest) == if trim_spec(head).len() == 0 {
            clean_segments(rest)
        } else {
            seq![trim_spec(head)] + clean_segments(rest)
        },
{
    let c = seq![head] + rest;
    assert(c[0] == head);
    assert(c.drop_first() =~= rest);
}

/// The per-method segments of a bulk answer: split at the delimiter, each
/// segment trimmed, empty segments dropped.
pub open spec fn split_response_spec(s: Seq<u8>) -> Seq<Seq<u8>> {
    clean_segments(split_segments(s, 0))
}

pub fn split_response(content: &Vec<u8>) -> (r: Vec<Vec<u8>>)
    ensures
        seq_views(r@) == split_response_spec(content@),
{
    let d = delim_vec();
    let mut r: Vec<Vec<u8>> = Vec::new();
    let mut i: usize = 0;
    proof {
        assert(seq_views(r@) + clean_segments(split_segments(content@, 0)) =~= clean_segments(
            split_segments(content@, 0),
        ));
    }
    loop
        invariant
            i <= content@.len(),
            d@ == delim(),
            split_response_spec(content@) == seq_views(r@) + clean_segments(
                split_segments(content@, i as int),
            ),
        decreases content@.len() - i,
    {
        let ghost r_before = r@;
        match find_pattern(content, i, &d) {
            Some(k) => {
                proof {
                    lemma_find_from(content@, i as int, delim());
                }
                let piece = copy_range(content, i, k);
                let t = trim_bytes(&piece);
                proof {
                    assert(split_segments(content@, i as int) == seq![content@.subrange(
                        i as int,
                        k as int,
                    )] + split_segments(content@, k + 3));
                    lemma_clean_segments_cons(
                        content@.subrange(i as int, k as int),
                        split_segments(content@, k + 3),
                    );
                }
                if t.len() > 0 {
                    proof {
                        lemma_seq_views_push(r@, t);
                    }
                    r.push(t);
                    proof {
                        assert(seq_views(r_before) + (seq![t@] + clean_segments(
                            split_segments(content@, k + 3),
                        )) =~= seq_views(r@) + clean_segments(split_segments(content@, k + 3)));
                    }
                }
                i = k + 3;
            },
            None => {
                let piece = copy_range(content, i, content.len());
                let t = trim_bytes(&piece);
                proof {
                    assert(split_segments(content@, i as int) == seq![content@.subrange(
                        i as int,
                        content@.len() as int,
                    )]);
                    assert(seq![content@.subrange(i as int, content@.len() as int)]
                        =~= seq![content@.subrange(i as int, content@.len() as int)]
                        + Seq::<Seq<u8>>::empty());
                    lemma_clean_segments_cons(
                        content@.subrange(i as int, content@.len() as int),
                        Seq::<Seq<u8>>::empty(),
                    );
                }
                if t.len() > 0 {
                    proof {
                        lemma_seq_views_push(r@, t);
                    }
                    r.push(t);
                    proof {
                        assert(seq_views(r_before) + (seq![t@] + Seq::<Seq<u8>>::empty())
                            =~= seq_views(r@));
                    }
                } else {
                    proof {
                        assert(seq_views(r@) + Seq::<Seq<u8>>::empty() =~= seq_views(r@));
                    }
                }
                return r;
            },
        }
    }
}

/// Why a bulk request failed: a non-success HTTP status, or an answer in
/// which the expected text field could not be located.
#[derive(Clone, Copy, PartialEq, Eq, Debug, Structural)]
pub enum BulkError {
    FailedStatus(u16),
    MalformedResponse,
}

/// A successful bulk outcome: exactly one annotation per method, plus the
/// count of segments the service actually returned, so the caller can emit
/// a diagnostic when it differs from the method count.
#[derive(Debug)]
pub struct BulkOutcome {
    pub annotations: Vec<Vec<u8>>,
    pub received: usize,
}

/// Turns one bulk answer into exactly one annotation per method.
///
/// `text` is the extracted text field of the service's answer, `None` when
/// the caller could not locate it. Any non-2xx status is fatal for the whole
/// batch (a rate limit is retryable in sequential mode only); a 2xx answer
/// without a text field is malformed; otherwise the text is split at the
/// delimiter, trimmed, purged of empty segments and reconciled to exactly
/// `n` items.
pub fn handle_bulk_response(status: u16, text: Option<Vec<u8>>, n: usize) -> (r: Result<
    BulkOutcome,
    BulkError,
>)
    ensures
        classify_spec(status) != StatusClass::Success ==> r == Result::<
            BulkOutcome,
            BulkError,
        >::Err(BulkError::FailedStatus(status)),
        classify_spec(status) == StatusClass::Success && text is None ==> r == Result::<
            BulkOutcome,
            BulkError,
        >::Err(BulkError::MalformedResponse),
        classify_spec(status) == StatusClass::Success ==> (text matches Some(t) ==> (r matches Ok(o)
            && o.received == split_response_spec(t@).len() && o.annotations@.len() == n
            && seq_views(o.annotations@) == reconcile_spec(split_response_spec(t@), n as int))),
{
    match classify_status(status) {
        StatusClass::Success => match text {
            Some(t) => {
                let segments = split_response(&t);
                let received = segments.len();
                let annotations = reconcile(segments, n);
                Ok(BulkOutcome { annotations, received })
            },
            None => Err(BulkError::MalformedResponse),
        },
        StatusClass::RateLimited => Err(BulkError::FailedStatus(status)),
        StatusClass::Fatal => Err(BulkError::FailedStatus(status)),
    }
}

/// Powers of two, for the backoff schedule.
pub open spec fn pow2(n: nat) -> nat
    decreases n,
{
    if n == 0 {
        1
    } else {
        2 * pow2((n - 1) as nat)
    }
}

pub proof fn lemma_pow2_mono(a: nat, b: nat)
    requires
        a <= b,
    ensures
        pow2(a) <= pow2(b),
    decreases b,
{
    if a < b {
        lemma_pow2_mono(a, (b - 1) as nat);
    }
}

/// Sequential mode's pacing and retry configuration: the first retry waits
/// `base_delay`, each further retry doubles it, at most `max_retries`
/// retries are granted per method, and `pacing_delay` is enforced between
/// methods regardless of outcome.
pub struct RetryPolicy {
    pub base_delay: u64,
    pub max_retries: u32,
    pub pacing_delay: u64,
}

/// Every delay of the schedule fits the delay type.
pub open spec fn policy_wf(p: RetryPolicy) -> bool {
    p.base_delay * pow2(p.max_retries as nat) <= u64::MAX
}

/// Per-method retry state: how many retries have been granted so far.
pub struct RetryState {
    pub attempts: u32,
}

/// `base * 2^attempt`, the delay before retry number `attempt`.
pub fn backoff_delay(base: u64, attempt: u32) -> (d: u64)
    requires
        base * pow2(attempt as nat) <= u64::MAX,
    ensures
        d == base * pow2(attempt as nat),
{
    let mut d: u64 = base;
    let mut k: u32 = 0;
    proof {
        assert(pow2(0) == 1);
    }
    while k < attempt
        invariant
            k <= attempt,
            d == base * pow2(k as nat),
            base * pow2(attempt as nat) <= u64::MAX,
        decreases attempt - k,
    {
        proof {
            lemma_pow2_mono((k + 1) as nat, attempt as nat);
            assert(pow2((k + 1) as nat) == 2 * pow2(k as nat));
            assert(base as int * (2 * pow2(k as nat)) <= base as int * pow2(attempt as nat))
                by (nonlinear_arith)
                requires
                    2 * pow2(k as nat) <= pow2(attempt as nat),
                    base as int >= 0,
            ;
            assert(2 * (base as int * pow2(k as nat)) == base as int * (2 * pow2(k as nat)))
                by (nonlinear_arith);
        }
        d = d * 2;
        k = k + 1;
    }
    d
}

/// The delay sequential mode grants after a rate-limited answer, given how
/// many retries were already granted — `None` past the cap.
pub open spec fn rate_limited_delay(policy: RetryPolicy, attempts: nat) -> Option<int> {
    if attempts < policy.max_retries {
        Some(policy.base_delay * pow2(attempts))
    } else {
        None
    }
}

/// What sequential mode does with one method after one service answer.
#[derive(Debug, PartialEq, Eq)]
pub enum SeqAction {
    /// The trimmed annotation; attach it and move on.
    Accept(Vec<u8>),
    /// A success whose text trims to nothing: a failure for this method.
    RejectEmpty,
    /// Rate limited: sleep this long, then send the same request again.
    RetryAfter(u64),
    /// Rate limited with the retry cap exhausted: fail this method.
    GiveUpExhausted,
    /// Any other non-success status: fail this method immediately.
    GiveUpFatal,
}

/// Decides sequential mode's reaction to one answer for one method. Failures
/// are isolated: every non-`Accept` action concerns this method only and the
/// run proceeds with the remaining methods.
pub fn sequential_step(policy: &RetryPolicy, st: &mut RetryState, status: u16, text: &Vec<u8>) -> (a:
    SeqAction)
    requires
        policy_wf(*policy),
        old(st).attempts <= policy.max_retries,
    ensures
        final(st).attempts <= policy.max_retries,
        classify_spec(status) == StatusClass::Success ==> *final(st) == *old(st) && (if trim_spec(
            text@,
        ).len() == 0 {
            a is RejectEmpty
        } else {
            a matches SeqAction::Accept(t) && t@ == trim_spec(text@)
        }),
        classify_spec(status) == StatusClass::RateLimited && old(st).attempts
            < policy.max_retries ==> (a matches SeqAction::RetryAfter(d) && rate_limited_delay(
            *policy,
            old(st).attempts as nat,
        ) == Some(d as int) && final(st).attempts == old(st).attempts + 1),
        classify_spec(status) == StatusClass::RateLimited && old(st).attempts
            == policy.max_retries ==> a is GiveUpExhausted && *final(st) == *old(st)
            && rate_limited_delay(*policy, old(st).attempts as nat) is None,
        classify_spec(status) == StatusClass::Fatal ==> a is GiveUpFatal && *final(st) == *old(st),
{
    match classify_status(status) {
        StatusClass::Success => {
            let t = trim_bytes(text);
            if t.len() == 0 {
                SeqAction::RejectEmpty
            } else {
                SeqAction::Accept(t)
            }
        },
        StatusClass::RateLimited => {
            if st.attempts < policy.max_retries {
                proof {
                    lemma_pow2_mono(st.attempts as nat, policy.max_retries as nat);
                    assert(policy.base_delay as int * pow2(st.attempts as nat) <= policy.base_delay
                        as int * pow2(policy.max_retries as nat)) by (nonlinear_arith)
                        requires
                            pow2(st.attempts as nat) <= pow2(policy.max_retries as nat),
                            policy.base_delay as int >= 0,
                    ;
                }
                let d = backoff_delay(policy.base_delay, st.attempts);
                st.attempts = st.attempts + 1;
                SeqAction::RetryAfter(d)
            } else {
                SeqAction::GiveUpExhausted
            }
        },
        StatusClass::Fatal => SeqAction::GiveUpFatal,
    }
}

/// The delays granted to one method that is rate limited `k` times in a row
/// from a fresh state.
pub open spec fn emitted_delays(policy: RetryPolicy, k: nat) -> Seq<int>
    decreases k,
{
    if k == 0 {
        Seq::empty()
    } else {
        match rate_limited_delay(policy, (k - 1) as nat) {
            Some(d) => emitted_delays(policy, (k - 1) as nat).push(d),
            None => emitted_delays(policy, (k - 1) as nat),
        }
    }
}

/// Backoff sequence: the retry delays are base·2^0, base·2^1, ... for
/// exactly the configured retry cap, and past the cap no further delay is
/// ever granted — the method fails retry-exhausted instead.
pub proof fn lemma_backoff_sequence(policy: RetryPolicy, k: nat)
    requires
        k <= policy.max_retries,
    ensures
        emitted_delays(policy, k).len() == k,
        forall|i: int|
            0 <= i < k ==> emitted_delays(policy, k)[i] == policy.base_delay * pow2(i as nat),
        rate_limited_delay(policy, policy.max_retries as nat) is None,
    decreases k,
{
    if k > 0 {
        lemma_backoff_sequence(policy, (k - 1) as nat);
    }
}

} // verus!
