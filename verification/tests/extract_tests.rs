use sfc_linter::{extract_source, get_line_col, RuleConfig};

#[test]
fn extracts_script_and_template_blocks() {
    let doc = b"<template><div>hi</div></template>\n<script>let x = 1;</script>\n".to_vec();
    let sf = extract_source("a.vue".to_string(), doc.clone());
    assert_eq!(sf.template_start_offset, 10);
    assert_eq!(sf.template_content, b"<div>hi</div>".to_vec());
    assert_eq!(sf.script_start_offset, 43);
    assert_eq!(sf.script_content, b"let x = 1;".to_vec());
}

#[test]
fn sub_documents_read_back_out_of_the_original() {
    let doc = b"<template><p>{{ a }}</p></template><script setup>let a = 1;</script>".to_vec();
    let sf = extract_source("b.vue".to_string(), doc.clone());
    let s = sf.script_start_offset;
    assert_eq!(&doc[s..s + sf.script_content.len()], &sf.script_content[..]);
    let t = sf.template_start_offset;
    assert_eq!(&doc[t..t + sf.template_content.len()], &sf.template_content[..]);
}

#[test]
fn absent_blocks_are_empty_with_zero_anchor() {
    let doc = b"just some text".to_vec();
    let sf = extract_source("c.vue".to_string(), doc);
    assert_eq!(sf.script_content, Vec::<u8>::new());
    assert_eq!(sf.script_start_offset, 0);
    assert_eq!(sf.template_content, Vec::<u8>::new());
    assert_eq!(sf.template_start_offset, 0);
}

#[test]
fn unclosed_script_block_counts_as_absent() {
    let doc = b"<script>let x = 1;".to_vec();
    let sf = extract_source("d.vue".to_string(), doc);
    assert_eq!(sf.script_content, Vec::<u8>::new());
    assert_eq!(sf.script_start_offset, 0);
}

#[test]
fn script_opening_tag_with_attributes() {
    let doc = b"<script lang=\"ts\">const n: number = 2;</script>".to_vec();
    let sf = extract_source("e.vue".to_string(), doc);
    assert_eq!(sf.script_start_offset, 18);
    assert_eq!(sf.script_content, b"const n: number = 2;".to_vec());
}

#[test]
fn line_and_column_are_one_based_and_reset_at_line_breaks() {
    let content = b"ab\ncd".to_vec();
    assert_eq!(get_line_col(&content, 0), (1, 1));
    assert_eq!(get_line_col(&content, 1), (1, 2));
    assert_eq!(get_line_col(&content, 2), (1, 3));
    assert_eq!(get_line_col(&content, 3), (2, 1));
    assert_eq!(get_line_col(&content, 4), (2, 2));
}

#[test]
fn columns_count_decoded_characters_not_bytes() {
    // "é" is two bytes; the column after it advances by one character.
    let content = "é\nx".as_bytes().to_vec();
    assert_eq!(get_line_col(&content, 2), (1, 2));
    assert_eq!(get_line_col(&content, 3), (2, 1));
}

#[test]
fn rule_state_off_disables_and_other_states_enable() {
    assert!(!RuleConfig::State("off".to_string()).is_enabled());
    assert!(RuleConfig::State("warn".to_string()).is_enabled());
    assert!(RuleConfig::State("error".to_string()).is_enabled());
    assert!(<RuleConfig as Default>::default().is_enabled());
}
