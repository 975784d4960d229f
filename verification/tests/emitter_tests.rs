use sfc_linter::{SpannedEmitter, TemplateToken};

#[test]
fn tag_span_correction_points_at_the_angle_bracket() {
    // Template "<li>": the engine surfaces the name "li" at offset 1 and
    // consumes the "<" silently, so the reconstructed span starts at 0.
    let mut e = SpannedEmitter::new(4);
    e.init_start_tag();
    e.update_span(1, 2);
    e.push_tag_name(b"li");
    e.emit_current_tag();
    let tokens = e.finish();
    assert_eq!(tokens.len(), 1);
    match &tokens[0] {
        TemplateToken::StartTag { name, span, self_closing, .. } => {
            assert_eq!(name, &b"li".to_vec());
            assert_eq!(span.start, 0);
            assert_eq!(span.end, 3);
            assert!(!self_closing);
        },
        _ => panic!("expected a start tag"),
    }
}

#[test]
fn tag_at_sub_document_start_is_floored_at_zero() {
    let mut e = SpannedEmitter::new(8);
    e.init_start_tag();
    e.update_span(0, 2);
    e.push_tag_name(b"li");
    e.emit_current_tag();
    match &e.finish()[0] {
        TemplateToken::StartTag { span, .. } => {
            assert_eq!(span.start, 0);
            assert_eq!(span.end, 2);
        },
        _ => panic!("expected a start tag"),
    }
}

#[test]
fn token_without_observed_slices_collapses_to_zero() {
    let mut e = SpannedEmitter::new(16);
    e.init_start_tag();
    e.push_tag_name(b"p");
    e.emit_current_tag();
    match &e.finish()[0] {
        TemplateToken::StartTag { span, .. } => {
            assert_eq!((span.start, span.end), (0, 0));
        },
        _ => panic!("expected a start tag"),
    }
}

#[test]
fn out_of_range_slices_are_excluded_from_accumulation() {
    let mut e = SpannedEmitter::new(10);
    e.init_start_tag();
    e.update_span(100, 50);
    e.update_span(3, 2);
    e.push_tag_name(b"em");
    e.emit_current_tag();
    match &e.finish()[0] {
        TemplateToken::StartTag { span, .. } => {
            assert_eq!(span.start, 2);
            assert_eq!(span.end, 5);
        },
        _ => panic!("expected a start tag"),
    }
}

#[test]
fn token_spans_stay_within_the_template_text() {
    let mut e = SpannedEmitter::new(10);
    e.init_start_tag();
    e.update_span(1, 3);
    e.update_span(6, 4);
    e.push_tag_name(b"div");
    e.emit_current_tag();
    e.update_span(4, 2);
    e.emit_string(b"ab".to_vec());
    e.emit_eof();
    for t in e.finish() {
        match t {
            TemplateToken::StartTag { span, .. }
            | TemplateToken::EndTag { span, .. }
            | TemplateToken::String { span, .. }
            | TemplateToken::Comment { span, .. } => {
                assert!(span.start <= span.end);
                assert!(span.end <= 10);
            },
            TemplateToken::Eof => {},
        }
    }
}

#[test]
fn duplicate_attribute_keeps_last_value_and_first_position() {
    let mut e = SpannedEmitter::new(32);
    e.init_start_tag();
    e.push_tag_name(b"a");
    e.init_attribute();
    e.push_attribute_name(b"x");
    e.push_attribute_value(b"1");
    e.init_attribute();
    e.push_attribute_name(b"y");
    e.push_attribute_value(b"2");
    e.init_attribute();
    e.push_attribute_name(b"x");
    e.push_attribute_value(b"3");
    e.emit_current_tag();
    match &e.finish()[0] {
        TemplateToken::StartTag { attributes, .. } => {
            assert_eq!(attributes.len(), 2);
            assert_eq!(attributes[0].name, b"x".to_vec());
            assert_eq!(attributes[0].value, b"3".to_vec());
            assert_eq!(attributes[1].name, b"y".to_vec());
            assert_eq!(attributes[1].value, b"2".to_vec());
        },
        _ => panic!("expected a start tag"),
    }
}

#[test]
fn end_tags_and_comments_are_emitted_in_order() {
    let mut e = SpannedEmitter::new(64);
    e.init_end_tag();
    e.update_span(2, 3);
    e.push_tag_name(b"div");
    e.emit_current_tag();
    e.init_comment();
    e.update_span(10, 4);
    e.push_comment(b"note");
    e.emit_current_comment();
    e.emit_eof();
    let tokens = e.finish();
    assert!(matches!(&tokens[0], TemplateToken::EndTag { name, .. } if name == &b"div".to_vec()));
    assert!(
        matches!(&tokens[1], TemplateToken::Comment { content, .. } if content == &b"note".to_vec())
    );
    assert!(matches!(&tokens[2], TemplateToken::Eof));
}

#[test]
fn pop_token_hands_out_tokens_front_first() {
    let mut e = SpannedEmitter::new(8);
    e.update_span(0, 2);
    e.emit_string(b"ab".to_vec());
    e.emit_eof();
    assert!(matches!(e.pop_token(), Some(TemplateToken::String { .. })));
    assert!(matches!(e.pop_token(), Some(TemplateToken::Eof)));
    assert!(e.pop_token().is_none());
}

#[test]
fn self_closing_flag_is_carried() {
    let mut e = SpannedEmitter::new(8);
    e.init_start_tag();
    e.update_span(1, 2);
    e.push_tag_name(b"br");
    e.set_self_closing();
    e.emit_current_tag();
    match &e.finish()[0] {
        TemplateToken::StartTag { self_closing, .. } => assert!(*self_closing),
        _ => panic!("expected a start tag"),
    }
}
