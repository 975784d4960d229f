use sfc_linter::{
    apply_fix_list, collect_fixes, sort_fixes_desc, Diagnostic, Fix, Linter, LinterConfig, Span,
};

fn fix(start: u32, end: u32, replacement: &[u8]) -> Fix {
    Fix { span: Span::new(start, end), replacement: replacement.to_vec() }
}

#[test]
fn fixes_apply_right_to_left_so_offsets_stay_valid() {
    let text = b"abcdef".to_vec();
    let fixes = vec![fix(0, 1, b"X"), fix(2, 3, b"YY"), fix(5, 6, b"Z")];
    let sorted = sort_fixes_desc(fixes);
    let (out, count) = apply_fix_list(&text, &sorted);
    assert_eq!(count, 3);
    assert_eq!(out, b"XbYYdeZ".to_vec());
}

#[test]
fn non_overlapping_fixes_give_the_same_text_in_any_input_order() {
    let text = b"abcdef".to_vec();
    let one = vec![fix(0, 1, b"X"), fix(2, 3, b"YY"), fix(5, 6, b"Z")];
    let two = vec![fix(5, 6, b"Z"), fix(0, 1, b"X"), fix(2, 3, b"YY")];
    let (out1, _) = apply_fix_list(&text, &sort_fixes_desc(one));
    let (out2, _) = apply_fix_list(&text, &sort_fixes_desc(two));
    assert_eq!(out1, out2);
    assert_eq!(out1, b"XbYYdeZ".to_vec());
}

#[test]
fn out_of_range_fix_is_skipped_without_aborting_the_batch() {
    let text = b"hello".to_vec();
    let fixes = vec![fix(10, 20, b"nope"), fix(0, 1, b"J")];
    let sorted = sort_fixes_desc(fixes);
    let (out, count) = apply_fix_list(&text, &sorted);
    assert_eq!(count, 1);
    assert_eq!(out, b"Jello".to_vec());
}

#[test]
fn overlapping_fixes_both_apply_in_descending_start_order() {
    let text = b"abcd".to_vec();
    let fixes = vec![fix(0, 3, b"Z"), fix(2, 4, b"W")];
    let (out, count) = apply_fix_list(&text, &sort_fixes_desc(fixes));
    assert_eq!(count, 2);
    assert_eq!(out, b"Z".to_vec());
}

#[test]
fn diagnostics_without_fixes_change_nothing() {
    let sf = sfc_linter::SourceFile {
        path: "p.vue".to_string(),
        original_content: b"keep me".to_vec(),
        script_content: Vec::new(),
        script_start_offset: 0,
        template_content: Vec::new(),
        template_start_offset: 0,
    };
    let diags = vec![Diagnostic {
        message: "note".to_string(),
        span: Span::new(0, 4),
        fix: None,
    }];
    let linter = Linter::new(LinterConfig { rules: vec![] });
    let (out, count) = linter.apply_fixes(&sf, &diags);
    assert_eq!(count, 0);
    assert_eq!(out, b"keep me".to_vec());
}

#[test]
fn lint_without_applicable_fixes_offers_nothing_to_persist() {
    let sf = sfc_linter::SourceFile {
        path: "p.vue".to_string(),
        original_content: b"plain".to_vec(),
        script_content: Vec::new(),
        script_start_offset: 0,
        template_content: Vec::new(),
        template_start_offset: 0,
    };
    let ctx = sfc_linter::Context::new(
        sf,
        sfc_linter::Program { body: vec![] },
        None,
    ).unwrap();
    let mut linter = Linter::new(LinterConfig { rules: vec![] });
    linter.add_rule(sfc_linter::RegisteredRule::NoConsole(sfc_linter::NoConsole));
    let (result, to_write) = linter.lint_source(&ctx, true);
    assert_eq!(result.fixed_count, 0);
    assert!(to_write.is_none());
    assert!(result.diagnostics.is_empty());
}

#[test]
fn collected_fixes_keep_diagnostic_order() {
    let d1 = Diagnostic { message: "a".to_string(), span: Span::new(0, 1), fix: Some(fix(0, 1, b"A")) };
    let d2 = Diagnostic { message: "b".to_string(), span: Span::new(2, 3), fix: None };
    let d3 = Diagnostic { message: "c".to_string(), span: Span::new(4, 5), fix: Some(fix(4, 5, b"C")) };
    let fixes = collect_fixes(&vec![d1, d2, d3]);
    assert_eq!(fixes.len(), 2);
    assert_eq!(fixes[0].span.start, 0);
    assert_eq!(fixes[1].span.start, 4);
}

#[test]
fn inconsistent_analysis_inputs_are_rejected() {
    let sf = sfc_linter::SourceFile {
        path: "bad.vue".to_string(),
        original_content: b"tiny".to_vec(),
        script_content: b"much longer than the original".to_vec(),
        script_start_offset: 100,
        template_content: Vec::new(),
        template_start_offset: 0,
    };
    let ctx = sfc_linter::Context::new(sf, sfc_linter::Program { body: vec![] }, None);
    assert!(ctx.is_none());
}
