use sfc_linter::{
    Attribute, Context, Declarator, Expression, Linter, LinterConfig, MustacheInterpolationSpacing,
    NoConsole, NoProcessEnv, NoVHtml, PreferImportMeta, Program, RegisteredRule, RequireVForKey,
    RuleConfig, Rule, SourceFile, Span, Statement, TemplateToken,
};

fn script_context(script: &[u8], off: usize, body: Vec<Statement>) -> Context {
    let mut original = vec![b'.'; off];
    original.extend_from_slice(script);
    let sf = SourceFile {
        path: "t.vue".to_string(),
        original_content: original,
        script_content: script.to_vec(),
        script_start_offset: off,
        template_content: Vec::new(),
        template_start_offset: 0,
    };
    Context::new(sf, Program { body }, None).expect("context should validate")
}

fn template_context(template: &[u8], tokens: Vec<TemplateToken>) -> Context {
    let sf = SourceFile {
        path: "t.vue".to_string(),
        original_content: template.to_vec(),
        script_content: Vec::new(),
        script_start_offset: 0,
        template_content: template.to_vec(),
        template_start_offset: 0,
    };
    Context::new(sf, Program { body: Vec::new() }, Some(tokens)).expect(
        "context should validate",
    )
}

fn console_log_statement() -> Statement {
    Statement::ExpressionStatement {
        span: Span::new(0, 17),
        expression: Expression::CallExpression {
            callee: Box::new(Expression::StaticMemberExpression {
                span: Span::new(0, 11),
                object: Box::new(Expression::Identifier { name: "console".to_string() }),
                property: "log".to_string(),
            }),
            arguments: vec![],
        },
    }
}

#[test]
fn console_call_in_script_block_at_offset_fifty() {
    let ctx = script_context(b"console.log('x');", 50, vec![console_log_statement()]);
    let diags = NoConsole.run(&ctx);
    assert_eq!(diags.len(), 1);
    assert_eq!((diags[0].span.start, diags[0].span.end), (50, 67));
    assert_eq!(diags[0].message, "Unexpected console statement: console.log");
    let fix = diags[0].fix.as_ref().expect("a fix is offered");
    assert_eq!((fix.span.start, fix.span.end), (50, 67));
    assert_eq!(fix.replacement, b"/* console.log */".to_vec());

    let linter = Linter::new(LinterConfig { rules: vec![] });
    let (fixed, count) = linter.apply_fixes(&ctx.source_file, &diags);
    assert_eq!(count, 1);
    let mut expected = vec![b'.'; 50];
    expected.extend_from_slice(b"/* console.log */");
    assert_eq!(fixed, expected);
}

#[test]
fn non_console_calls_are_left_alone() {
    let stmt = Statement::ExpressionStatement {
        span: Span::new(0, 10),
        expression: Expression::CallExpression {
            callee: Box::new(Expression::Identifier { name: "setup".to_string() }),
            arguments: vec![],
        },
    };
    let ctx = script_context(b"setup();..", 0, vec![stmt]);
    assert!(NoConsole.run(&ctx).is_empty());
}

#[test]
fn process_env_read_is_reported_with_replacement() {
    let stmt = Statement::VariableDeclaration {
        declarations: vec![Declarator {
            init: Some(Expression::StaticMemberExpression {
                span: Span::new(8, 19),
                object: Box::new(Expression::Identifier { name: "process".to_string() }),
                property: "env".to_string(),
            }),
        }],
    };
    let ctx = script_context(b"let e = process.env;", 3, vec![stmt]);
    let diags = NoProcessEnv.run(&ctx);
    assert_eq!(diags.len(), 1);
    assert_eq!((diags[0].span.start, diags[0].span.end), (11, 22));
    assert_eq!(diags[0].message, "Use `import.meta.env` instead of `process.env`.");
    assert_eq!(diags[0].fix.as_ref().unwrap().replacement, b"import.meta.env".to_vec());
}

#[test]
fn process_client_inside_if_test_is_reported() {
    let stmt = Statement::IfStatement {
        test: Expression::StaticMemberExpression {
            span: Span::new(4, 18),
            object: Box::new(Expression::Identifier { name: "process".to_string() }),
            property: "client".to_string(),
        },
        consequent: Box::new(Statement::BlockStatement { body: vec![] }),
        alternate: None,
    };
    let ctx = script_context(b"if (process.client) {}", 0, vec![stmt]);
    let diags = PreferImportMeta.run(&ctx);
    assert_eq!(diags.len(), 1);
    assert_eq!(
        diags[0].message,
        "Use `import.meta.client` instead of `process.client`."
    );
    assert_eq!(diags[0].fix.as_ref().unwrap().replacement, b"import.meta.client".to_vec());
}

#[test]
fn v_html_attribute_is_flagged_without_fix() {
    let template = b"<p v-html=\"raw\"></p>";
    let tokens = vec![TemplateToken::StartTag {
        name: b"p".to_vec(),
        attributes: vec![Attribute { name: b"v-html".to_vec(), value: b"raw".to_vec() }],
        self_closing: false,
        span: Span::new(0, 15),
    }];
    let ctx = template_context(template, tokens);
    let diags = NoVHtml.run(&ctx);
    assert_eq!(diags.len(), 1);
    assert!(diags[0].fix.is_none());
    assert_eq!(diags[0].message, "Do not use `v-html` to prevent XSS.");
}

#[test]
fn v_for_without_key_yields_one_fixless_diagnostic_spanning_the_tag() {
    let template = b"<li v-for=\"i in items\">";
    let mut e = sfc_linter::SpannedEmitter::new(template.len());
    e.init_start_tag();
    e.update_span(1, 2);
    e.push_tag_name(b"li");
    e.init_attribute();
    e.update_span(4, 5);
    e.push_attribute_name(b"v-for");
    e.update_span(11, 10);
    e.push_attribute_value(b"i in items");
    e.emit_current_tag();
    let tokens = e.finish();
    let ctx = template_context(template, tokens);
    let diags = RequireVForKey.run(&ctx);
    assert_eq!(diags.len(), 1);
    assert!(diags[0].fix.is_none());
    assert_eq!(diags[0].span.start, 0);
    assert_eq!(diags[0].span.end, 21);
}

#[test]
fn v_for_with_bound_key_is_accepted() {
    let template = b"<li v-for=\"i in items\" :key=\"i\">";
    let tokens = vec![TemplateToken::StartTag {
        name: b"li".to_vec(),
        attributes: vec![
            Attribute { name: b"v-for".to_vec(), value: b"i in items".to_vec() },
            Attribute { name: b":key".to_vec(), value: b"i".to_vec() },
        ],
        self_closing: false,
        span: Span::new(0, 31),
    }];
    let ctx = template_context(template, tokens);
    assert!(RequireVForKey.run(&ctx).is_empty());
}

#[test]
fn unspaced_mustache_is_respaced() {
    let template = b"{{name}}";
    let tokens = vec![TemplateToken::String {
        content: template.to_vec(),
        span: Span::new(0, 8),
    }];
    let ctx = template_context(template, tokens);
    let diags = MustacheInterpolationSpacing.run(&ctx);
    assert_eq!(diags.len(), 1);
    assert_eq!((diags[0].span.start, diags[0].span.end), (0, 8));
    let fix = diags[0].fix.as_ref().unwrap();
    assert_eq!(fix.replacement, b"{{ name }}".to_vec());

    let linter = Linter::new(LinterConfig { rules: vec![] });
    let (fixed, count) = linter.apply_fixes(&ctx.source_file, &diags);
    assert_eq!(count, 1);
    assert_eq!(fixed, b"{{ name }}".to_vec());
}

#[test]
fn properly_spaced_mustache_is_accepted() {
    let template = b"{{ name }}";
    let tokens = vec![TemplateToken::String {
        content: template.to_vec(),
        span: Span::new(0, 10),
    }];
    let ctx = template_context(template, tokens);
    assert!(MustacheInterpolationSpacing.run(&ctx).is_empty());
}

#[test]
fn empty_mustache_is_ignored_and_scanning_continues() {
    let template = b"{{   }} then {{x}}";
    let tokens = vec![TemplateToken::String {
        content: template.to_vec(),
        span: Span::new(0, 18),
    }];
    let ctx = template_context(template, tokens);
    let diags = MustacheInterpolationSpacing.run(&ctx);
    assert_eq!(diags.len(), 1);
    assert_eq!((diags[0].span.start, diags[0].span.end), (13, 18));
}

fn console_then_env_body() -> Vec<Statement> {
    vec![
        console_log_statement(),
        Statement::ExpressionStatement {
            span: Span::new(18, 30),
            expression: Expression::StaticMemberExpression {
                span: Span::new(18, 29),
                object: Box::new(Expression::Identifier { name: "process".to_string() }),
                property: "env".to_string(),
            },
        },
    ]
}

#[test]
fn disabling_a_rule_silences_it_and_leaves_others_alone() {
    let script = b"console.log('x'); process.env;";

    let mut on = Linter::new(LinterConfig { rules: vec![] });
    on.add_rule(RegisteredRule::NoConsole(NoConsole));
    on.add_rule(RegisteredRule::NoProcessEnv(NoProcessEnv));
    let ctx = script_context(script, 0, console_then_env_body());
    let (both, _) = on.lint_source(&ctx, false);
    assert_eq!(both.diagnostics.len(), 2);

    let mut off = Linter::new(LinterConfig {
        rules: vec![("no-console".to_string(), RuleConfig::State("off".to_string()))],
    });
    off.add_rule(RegisteredRule::NoConsole(NoConsole));
    off.add_rule(RegisteredRule::NoProcessEnv(NoProcessEnv));
    let ctx2 = script_context(script, 0, console_then_env_body());
    let (only_env, _) = off.lint_source(&ctx2, false);
    assert_eq!(only_env.diagnostics.len(), 1);
    assert_eq!(only_env.diagnostics[0].message, both.diagnostics[1].message);
    assert_eq!(only_env.diagnostics[0].start_line, both.diagnostics[1].start_line);
    assert_eq!(only_env.diagnostics[0].start_column, both.diagnostics[1].start_column);
}

#[test]
fn lint_with_fix_hands_back_the_patched_text() {
    let template = b"{{name}}";
    let tokens = vec![TemplateToken::String {
        content: template.to_vec(),
        span: Span::new(0, 8),
    }];
    let ctx = template_context(template, tokens);
    let mut linter = Linter::new(LinterConfig { rules: vec![] });
    linter.add_rule(RegisteredRule::MustacheInterpolationSpacing(MustacheInterpolationSpacing));
    let (result, to_write) = linter.lint_source(&ctx, true);
    assert_eq!(result.fixed_count, 1);
    assert_eq!(to_write, Some(b"{{ name }}".to_vec()));
    assert_eq!(result.diagnostics.len(), 1);
    assert!(result.diagnostics[0].fix_available);
    assert_eq!(result.diagnostics[0].start_line, 1);
    assert_eq!(result.diagnostics[0].start_column, 1);
}
