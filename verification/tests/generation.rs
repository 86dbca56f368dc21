//! Status classification, bulk answer handling, the prompt text, and the
//! sequential mode's backoff schedule.

use docsync::{
    backoff_delay, build_bulk_prompt, classify_status, extract_methods, handle_bulk_response,
    sequential_step, split_response, BulkError, Method, RetryPolicy, RetryState, SeqAction,
    StatusClass, Visibility,
};

fn bv(s: &str) -> Vec<u8> {
    s.as_bytes().to_vec()
}

fn policy() -> RetryPolicy {
    RetryPolicy { base_delay: 100, max_retries: 3, pacing_delay: 250 }
}

#[test]
fn statuses_classify_as_documented() {
    assert_eq!(classify_status(200), StatusClass::Success);
    assert_eq!(classify_status(204), StatusClass::Success);
    assert_eq!(classify_status(299), StatusClass::Success);
    assert_eq!(classify_status(429), StatusClass::RateLimited);
    assert_eq!(classify_status(300), StatusClass::Fatal);
    assert_eq!(classify_status(404), StatusClass::Fatal);
    assert_eq!(classify_status(500), StatusClass::Fatal);
    assert_eq!(classify_status(100), StatusClass::Fatal);
}

#[test]
fn split_trims_segments_and_drops_empty_ones() {
    let out = split_response(&bv("  alpha  ---\nbeta\n---   ---gamma"));
    assert_eq!(out, vec![bv("alpha"), bv("beta"), bv("gamma")]);
}

#[test]
fn split_without_delimiter_yields_one_segment() {
    let out = split_response(&bv("  only one  "));
    assert_eq!(out, vec![bv("only one")]);
}

#[test]
fn split_of_whitespace_yields_nothing() {
    let out = split_response(&bv("   \n  "));
    assert_eq!(out.len(), 0);
}

#[test]
fn bulk_mismatch_pads_four_methods_from_two_segments() {
    // Four methods, an answer that splits into two segments: the reconciled
    // output has four items, the first two the trimmed segments, the last
    // two the placeholder.
    let outcome = handle_bulk_response(200, Some(bv(" one --- two ")), 4).unwrap();
    assert_eq!(outcome.received, 2);
    assert_eq!(outcome.annotations.len(), 4);
    assert_eq!(outcome.annotations[0], bv("one"));
    assert_eq!(outcome.annotations[1], bv("two"));
    assert_eq!(outcome.annotations[2], bv("/** Generated docblock */"));
    assert_eq!(outcome.annotations[3], bv("/** Generated docblock */"));
}

#[test]
fn bulk_equal_counts_report_no_mismatch() {
    let outcome = handle_bulk_response(200, Some(bv("one---two")), 2).unwrap();
    assert_eq!(outcome.received, 2);
    assert_eq!(outcome.annotations, vec![bv("one"), bv("two")]);
}

#[test]
fn bulk_non_success_status_is_fatal_for_the_batch() {
    let r = handle_bulk_response(500, Some(bv("ignored")), 1);
    assert_eq!(r.unwrap_err(), BulkError::FailedStatus(500));
}

#[test]
fn bulk_rate_limit_is_fatal_in_bulk_mode() {
    let r = handle_bulk_response(429, None, 1);
    assert_eq!(r.unwrap_err(), BulkError::FailedStatus(429));
}

#[test]
fn bulk_success_without_text_field_is_malformed() {
    let r = handle_bulk_response(200, None, 1);
    assert_eq!(r.unwrap_err(), BulkError::MalformedResponse);
}

#[test]
fn backoff_delay_doubles_from_base() {
    assert_eq!(backoff_delay(100, 0), 100);
    assert_eq!(backoff_delay(100, 1), 200);
    assert_eq!(backoff_delay(100, 2), 400);
    assert_eq!(backoff_delay(7, 5), 224);
}

#[test]
fn rate_limits_retry_with_doubling_delays_then_exhaust() {
    // base 100, cap 3: delays 100, 200, 400, then retry-exhausted and no
    // further attempts.
    let p = policy();
    let mut st = RetryState { attempts: 0 };
    let empty = bv("");
    assert_eq!(sequential_step(&p, &mut st, 429, &empty), SeqAction::RetryAfter(100));
    assert_eq!(sequential_step(&p, &mut st, 429, &empty), SeqAction::RetryAfter(200));
    assert_eq!(sequential_step(&p, &mut st, 429, &empty), SeqAction::RetryAfter(400));
    assert_eq!(sequential_step(&p, &mut st, 429, &empty), SeqAction::GiveUpExhausted);
    assert_eq!(st.attempts, 3);
}

#[test]
fn sequential_success_accepts_trimmed_text() {
    let p = policy();
    let mut st = RetryState { attempts: 0 };
    let a = sequential_step(&p, &mut st, 200, &bv("  documented  \n"));
    assert_eq!(a, SeqAction::Accept(bv("documented")));
    assert_eq!(st.attempts, 0);
}

#[test]
fn sequential_empty_success_is_a_failure_for_that_method() {
    let p = policy();
    let mut st = RetryState { attempts: 0 };
    let a = sequential_step(&p, &mut st, 200, &bv("   \n  "));
    assert_eq!(a, SeqAction::RejectEmpty);
}

#[test]
fn sequential_other_failures_give_up_immediately() {
    let p = policy();
    let mut st = RetryState { attempts: 0 };
    assert_eq!(sequential_step(&p, &mut st, 503, &bv("")), SeqAction::GiveUpFatal);
    assert_eq!(st.attempts, 0);
}

#[test]
fn bulk_prompt_enumerates_methods_with_counts_and_joiner() {
    let src = bv(
        "/** Old */\npublic function add($a, $b) {\n    return $a + $b;\n}\n\nprivate function id($x) {\n    return $x;\n}\n",
    );
    let methods = extract_methods(&src);
    assert_eq!(methods.len(), 2);
    let prompt = build_bulk_prompt(&methods);
    let expected = format!(
        "Generate PHP docblocks for the following {} methods. For each method, provide a concise description, @param tags for each parameter, and @return tag if applicable. If there's an existing docblock, improve it if it's vague or incomplete. Separate each docblock with '---'.\n\n{}",
        2,
        "Method 1:\nVisibility: public\nName: add\nParameters: $a, $b\nBody:\nreturn $a + $b;\nExisting docblock (if any):\n/** Old */\n\n---\nMethod 2:\nVisibility: private\nName: id\nParameters: $x\nBody:\nreturn $x;\nExisting docblock (if any):\nNone\n",
    );
    assert_eq!(String::from_utf8(prompt).unwrap(), expected);
}

#[test]
fn bulk_prompt_for_no_methods_is_just_the_header() {
    let methods: Vec<Method> = Vec::new();
    let prompt = build_bulk_prompt(&methods);
    let text = String::from_utf8(prompt).unwrap();
    assert!(text.starts_with("Generate PHP docblocks for the following 0 methods."));
    assert!(text.ends_with("'---'.\n\n"));
}

#[test]
fn prompt_index_is_one_based_and_decimal() {
    let mut methods: Vec<Method> = Vec::new();
    for i in 0..12usize {
        methods.push(Method {
            visibility: Visibility::Public,
            name: bv(&format!("m{}", i)),
            parameters: bv(""),
            body: bv(""),
            docblock: None,
            start_position: i,
            match_len: 1,
        });
    }
    let prompt = String::from_utf8(build_bulk_prompt(&methods)).unwrap();
    assert!(prompt.contains("Method 1:\nVisibility"));
    assert!(prompt.contains("Method 10:\nVisibility"));
    assert!(prompt.contains("Method 12:\nVisibility"));
    assert!(prompt.contains("following 12 methods"));
}
