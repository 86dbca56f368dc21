//! Extraction, rewriting, reconciliation and attachment, exercised end to
//! end on concrete buffers.

use docsync::{
    annotate_by_signature, apply_annotations, attach_docblocks, extract_methods, reconcile,
    Method, Visibility,
};

fn bv(s: &str) -> Vec<u8> {
    s.as_bytes().to_vec()
}

fn sample_source() -> String {
    String::from(
        "<?php\nclass Greeter {\n    /** Old docs */\n    public function greet($name, $greeting) {\n        return $greeting . $name;\n    }\n\n    private function hidden() {\n        $x = 1;\n        return $x;\n    }\n\n    function plain($a) {\n        return $a;\n    }\n}\n",
    )
}

fn mk_method(start: usize, doc: Option<&str>) -> Method {
    Method {
        visibility: Visibility::Public,
        name: bv("m"),
        parameters: bv(""),
        body: bv(""),
        docblock: doc.map(bv),
        start_position: start,
        match_len: 1,
    }
}

#[test]
fn extracts_methods_in_order_with_fields() {
    let src = sample_source();
    let methods = extract_methods(&bv(&src));
    assert_eq!(methods.len(), 3);

    assert_eq!(methods[0].name, bv("greet"));
    assert_eq!(methods[0].visibility, Visibility::Public);
    assert_eq!(methods[0].parameters, bv("$name, $greeting"));
    assert_eq!(methods[0].body, bv("return $greeting . $name;"));
    assert_eq!(methods[0].docblock, Some(bv("/** Old docs */")));
    assert_eq!(methods[0].start_position, src.find("/**").unwrap());

    assert_eq!(methods[1].name, bv("hidden"));
    assert_eq!(methods[1].visibility, Visibility::Private);
    assert_eq!(methods[1].parameters, bv(""));
    assert_eq!(methods[1].body, bv("$x = 1;\n        return $x;"));
    assert_eq!(methods[1].docblock, None);
    assert_eq!(methods[1].start_position, src.find("private").unwrap());

    assert_eq!(methods[2].name, bv("plain"));
    assert_eq!(methods[2].visibility, Visibility::Public);
    assert_eq!(methods[2].start_position, src.find("function plain").unwrap());

    assert!(methods[0].start_position < methods[1].start_position);
    assert!(methods[1].start_position < methods[2].start_position);
}

#[test]
fn extraction_is_deterministic() {
    let src = bv(&sample_source());
    let first = extract_methods(&src);
    let second = extract_methods(&src);
    assert_eq!(first, second);
}

#[test]
fn extracted_offsets_locate_the_matched_construct() {
    let src = sample_source();
    let bytes = bv(&src);
    let methods = extract_methods(&bytes);
    assert!(!methods.is_empty());
    for m in &methods {
        assert!(m.start_position + m.match_len <= bytes.len());
        let construct = &bytes[m.start_position..m.start_position + m.match_len];
        // the construct re-extracts to the same record, relocated to zero
        let again = extract_methods(&construct.to_vec());
        assert_eq!(again.len(), 1);
        assert_eq!(again[0].name, m.name);
        assert_eq!(again[0].parameters, m.parameters);
        assert_eq!(again[0].body, m.body);
        assert_eq!(again[0].docblock, m.docblock);
        assert_eq!(again[0].start_position, 0);
        assert_eq!(again[0].match_len, m.match_len);
    }
    // the first construct is exactly the text from the docblock to the brace
    let c0 =
        &src[methods[0].start_position..methods[0].start_position + methods[0].match_len];
    assert!(c0.starts_with("/** Old docs */"));
    assert!(c0.ends_with("}"));
}

#[test]
fn declarations_without_body_are_not_matched() {
    let src = bv("<?php\ninterface I {\n    public function sign($data);\n}\n");
    let methods = extract_methods(&src);
    assert_eq!(methods.len(), 0);
}

#[test]
fn empty_source_yields_empty_list() {
    let methods = extract_methods(&bv(""));
    assert_eq!(methods.len(), 0);
}

#[test]
fn body_truncates_at_first_lone_closing_brace() {
    // The documented best-effort limitation: the body terminator is the
    // first closing brace alone on its own line, not a brace-balanced match.
    let src = bv(
        "public function outer($a) {\n    if ($a) {\n        echo 1;\n    }\n    return $a;\n}\n",
    );
    let methods = extract_methods(&src);
    assert_eq!(methods.len(), 1);
    assert_eq!(methods[0].body, bv("if ($a) {\n        echo 1;"));
}

#[test]
fn unterminated_docblock_is_not_captured() {
    // The opener never terminates, so no docblock is captured; the method
    // itself still matches, starting at its visibility keyword.
    let src = bv("/** never closed\npublic function gone() {\n    return 1;\n}\n");
    let methods = extract_methods(&src);
    assert_eq!(methods.len(), 1);
    assert_eq!(methods[0].name, bv("gone"));
    assert_eq!(methods[0].docblock, None);
    assert_eq!(methods[0].start_position, src.iter().position(|&b| b == b'p').unwrap());
}

#[test]
fn rewrite_with_no_docblocks_is_a_noop() {
    let buf = bv(&sample_source());
    let mut methods = extract_methods(&buf);
    for m in &mut methods {
        m.docblock = None;
    }
    let out = apply_annotations(&buf, &methods);
    assert_eq!(out, buf);
}

#[test]
fn two_methods_insert_at_ten_and_fiftythree() {
    // Methods at offsets 10 and 50, annotations "A" and "B", two newline
    // bytes around each: the first insertion lands at 10 unshifted, the
    // second at 50 + (1 + 2) = 53.
    let buf = bv("0123456789abcdefghijklmnopqrstuvwxyzABCDEFGHIJKLMNOPQRSTUVWX");
    assert!(buf.len() > 50);
    let methods = vec![mk_method(10, Some("A")), mk_method(50, Some("B"))];
    let out = apply_annotations(&buf, &methods);
    assert_eq!(&out[10..13], b"\nA\n");
    assert_eq!(&out[53..56], b"\nB\n");
    let mut expected = Vec::new();
    expected.extend_from_slice(&buf[..10]);
    expected.extend_from_slice(b"\nA\n");
    expected.extend_from_slice(&buf[10..50]);
    expected.extend_from_slice(b"\nB\n");
    expected.extend_from_slice(&buf[50..]);
    assert_eq!(out, expected);
}

#[test]
fn methods_without_annotation_are_skipped_in_rewrite() {
    let buf = bv("0123456789abcdefghijklmnopqrstuvwxyz");
    let methods = vec![mk_method(5, None), mk_method(20, Some("doc"))];
    let out = apply_annotations(&buf, &methods);
    let mut expected = Vec::new();
    expected.extend_from_slice(&buf[..20]);
    expected.extend_from_slice(b"\ndoc\n");
    expected.extend_from_slice(&buf[20..]);
    assert_eq!(out, expected);
}

#[test]
fn annotation_lengths_do_not_disturb_later_placement() {
    // Same offsets, very different annotation lengths: each annotation still
    // stands immediately before its method's original text.
    let buf = bv("AAAAABBBBBCCCCC");
    let long = "a long annotation much bigger than the gap between offsets";
    let methods = vec![mk_method(5, Some(long)), mk_method(10, Some("s"))];
    let out = apply_annotations(&buf, &methods);
    let mut expected = Vec::new();
    expected.extend_from_slice(b"AAAAA");
    expected.extend_from_slice(format!("\n{}\n", long).as_bytes());
    expected.extend_from_slice(b"BBBBB");
    expected.extend_from_slice(b"\ns\n");
    expected.extend_from_slice(b"CCCCC");
    assert_eq!(out, expected);
}

#[test]
fn reconcile_passes_equal_counts_through() {
    let segs = vec![bv("one"), bv("two")];
    let out = reconcile(segs.clone(), 2);
    assert_eq!(out, segs);
}

#[test]
fn reconcile_pads_short_answers_with_placeholder() {
    let segs = vec![bv("one")];
    let out = reconcile(segs, 3);
    assert_eq!(out.len(), 3);
    assert_eq!(out[0], bv("one"));
    assert_eq!(out[1], bv("/** Generated docblock */"));
    assert_eq!(out[2], bv("/** Generated docblock */"));
}

#[test]
fn reconcile_truncates_long_answers() {
    let segs = vec![bv("one"), bv("two"), bv("three")];
    let out = reconcile(segs, 1);
    assert_eq!(out, vec![bv("one")]);
}

#[test]
fn reconcile_always_returns_exactly_n_items() {
    for n in 0..6usize {
        for k in 0..6usize {
            let segs: Vec<Vec<u8>> = (0..k).map(|i| bv(&format!("seg{}", i))).collect();
            let out = reconcile(segs, n);
            assert_eq!(out.len(), n);
        }
    }
}

#[test]
fn attach_docblocks_correlates_by_index() {
    let src = bv(&sample_source());
    let methods = extract_methods(&src);
    let names: Vec<Vec<u8>> = methods.iter().map(|m| m.name.clone()).collect();
    let docs = vec![bv("first"), bv("second"), bv("third")];
    let updated = attach_docblocks(methods, docs);
    assert_eq!(updated.len(), 3);
    assert_eq!(updated[0].docblock, Some(bv("first")));
    assert_eq!(updated[1].docblock, Some(bv("second")));
    assert_eq!(updated[2].docblock, Some(bv("third")));
    for (m, n) in updated.iter().zip(names.iter()) {
        assert_eq!(&m.name, n);
    }
}

#[test]
fn annotate_by_signature_inserts_before_first_occurrence() {
    let buf = bv("<?php\n    public function twice($x) {\n        return $x;\n    }\n");
    let signature = bv("public function twice($x)");
    let out = annotate_by_signature(&buf, &signature, &bv("/** doc */"));
    let expected = bv(
        "<?php\n    /** doc */\npublic function twice($x) {\n        return $x;\n    }\n",
    );
    assert_eq!(out, expected);
}

#[test]
fn annotate_by_signature_leaves_buffer_unchanged_when_absent() {
    let buf = bv("nothing to see");
    let out = annotate_by_signature(&buf, &bv("public function gone()"), &bv("/** d */"));
    assert_eq!(out, buf);
}
