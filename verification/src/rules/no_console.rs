//! Flags top-level expression statements that call a method on `console`,
//! and offers to comment them out.

use vstd::prelude::*;
use vstd::string::*;
use vstd::utf8::encode_utf8;
use crate::ast::{stmt_wf, Expression, Statement};
use crate::bytes::push_bytes;
use crate::linter::{str_eq, Context, DiagModel, Diagnostic, Fix, FixModel, Rule};
use crate::span::Span;

verus! {

pub struct NoConsole;

/// The method name when `e` is a call of `console.<property>(…)`.
pub open spec fn spec_console_property(e: Expression) -> Option<Seq<char>> {
    match e {
        Expression::CallExpression { callee, .. } => match *callee {
            Expression::StaticMemberExpression { object, property, .. } => match *object {
                Expression::Identifier { name } => if name@ == "console"@ {
                    Some(property@)
                } else {
                    None
                },
                _ => None,
            },
            _ => None,
        },
        _ => None,
    }
}

/// The finding for one `console.<prop>(…)` statement spanning `span`,
/// shifted into absolute coordinates by the script anchor `off`; its fix
/// replaces the statement with a comment placeholder.
pub open spec fn spec_console_diag(span: Span, prop: Seq<char>, off: int) -> DiagModel {
    let abs = Span { start: (span.start + off) as u32, end: (span.end + off) as u32 };
    DiagModel {
        message: "Unexpected console statement: console."@ + prop,
        span: abs,
        fix: Some(
            FixModel {
                span: abs,
                replacement: "/* console.".spec_bytes() + encode_utf8(prop)
                    + " */".spec_bytes(),
            },
        ),
    }
}

/// The findings this analysis reports for one top-level statement.
pub open spec fn spec_console_stmt_diags(s: Statement, off: int) -> Seq<DiagModel> {
    match s {
        Statement::ExpressionStatement { span, expression } => match spec_console_property(
            expression,
        ) {
            Some(prop) => seq![spec_console_diag(span, prop, off)],
            None => Seq::empty(),
        },
        _ => Seq::empty(),
    }
}

/// The findings for the statement sequence, in source order.
pub open spec fn spec_console_diags(ss: Seq<Statement>, off: int) -> Seq<DiagModel>
    decreases ss.len(),
{
    if ss.len() == 0 {
        Seq::empty()
    } else {
        spec_console_stmt_diags(ss[0], off) + spec_console_diags(ss.drop_first(), off)
    }
}

impl Rule for NoConsole {
    open spec fn spec_name(&self) -> Seq<char> {
        "no-console"@
    }

    open spec fn spec_diags(&self, ctx: &Context) -> Seq<DiagModel> {
        spec_console_diags(ctx.program.body@, ctx.source_file.script_start_offset as int)
    }

    fn name(&self) -> (r: &'static str) {
        "no-console"
    }

    #[verifier::loop_isolation(false)]
    fn run(&self, ctx: &Context) -> (r: Vec<Diagnostic>) {
        let mut diagnostics: Vec<Diagnostic> = Vec::new();
        let body = &ctx.program.body;
        let ghost all = body@;
        let ghost off = ctx.source_file.script_start_offset as int;
        proof {
            crate::ast::lemma_stmts_wf_upto(all, ctx.source_file.script_content@.len());
            assert(diagnostics.deep_view() =~= Seq::<DiagModel>::empty());
            assert(all.subrange(0, all.len() as int) =~= all);
            assert(diagnostics.deep_view() + spec_console_diags(all, off) =~= spec_console_diags(
                all,
                off,
            ));
        }
        let mut i: usize = 0;
        while i < body.len()
            invariant
                i <= all.len(),
                spec_console_diags(all, off) == diagnostics.deep_view() + spec_console_diags(
                    all.subrange(i as int, all.len() as int),
                    off,
                ),
            decreases all.len() - i,
        {
            proof {
                assert(all.subrange(i as int, all.len() as int).drop_first() =~= all.subrange(
                    i + 1,
                    all.len() as int,
                ));
                assert(all.subrange(i as int, all.len() as int)[0] == all[i as int]);
                assert(stmt_wf(all[i as int], ctx.source_file.script_content@.len()));
            }
            let ghost mut emitted: Seq<DiagModel> = Seq::empty();
            match &body[i] {
                Statement::ExpressionStatement { span, expression } => {
                    match expression {
                        Expression::CallExpression { callee, .. } => {
                            match &**callee {
                                Expression::StaticMemberExpression { object, property, .. } => {
                                    match &**object {
                                        Expression::Identifier { name } => {
                                            if str_eq(name.as_str(), "console") {
                                                let o: u32 =
                                                    ctx.source_file.script_start_offset as u32;
                                                let abs = Span {
                                                    start: span.start + o,
                                                    end: span.end + o,
                                                };
                                                let message = String::from_str(
                                                    "Unexpected console statement: console.",
                                                ).concat(property.as_str());
                                                let mut replacement: Vec<u8> = Vec::new();
                                                push_bytes(
                                                    &mut replacement,
                                                    "/* console.".as_bytes(),
                                                );
                                                push_bytes(
                                                    &mut replacement,
                                                    property.as_str().as_bytes(),
                                                );
                                                push_bytes(&mut replacement, " */".as_bytes());
                                                let d = Diagnostic {
                                                    message,
                                                    span: abs,
                                                    fix: Some(Fix { span: abs, replacement }),
                                                };
                                                let ghost before = diagnostics.deep_view();
                                                diagnostics.push(d);
                                                proof {
                                                    emitted = seq![d@];
                                                    assert(d@.fix->0.replacement
                                                        =~= spec_console_diag(
                                                        *span,
                                                        property@,
                                                        off,
                                                    ).fix->0.replacement);
                                                    assert(d@ =~~= spec_console_diag(
                                                        *span,
                                                        property@,
                                                        off,
                                                    ));
                                                    assert(diagnostics.deep_view() =~= before
                                                        + emitted);
                                                }
                                            } else {
                                                proof {
                                                    assert(diagnostics.deep_view() + emitted
                                                        =~= diagnostics.deep_view());
                                                }
                                            }
                                        },
                                        _ => {
                                            proof {
                                                assert(diagnostics.deep_view() + emitted
                                                    =~= diagnostics.deep_view());
                                            }
                                        },
                                    }
                                },
                                _ => {
                                    proof {
                                        assert(diagnostics.deep_view() + emitted
                                            =~= diagnostics.deep_view());
                                    }
                                },
                            }
                        },
                        _ => {
                            proof {
                                assert(diagnostics.deep_view() + emitted
                                    =~= diagnostics.deep_view());
                            }
                        },
                    }
                },
                _ => {
                    proof {
                        assert(diagnostics.deep_view() + emitted =~= diagnostics.deep_view());
                    }
                },
            }
            proof {
                assert(spec_console_stmt_diags(all[i as int], off) =~= emitted);
            }
            i = i + 1;
        }
        proof {
            assert(all.subrange(all.len() as int, all.len() as int) =~= Seq::<Statement>::empty());
            assert(diagnostics.deep_view() + Seq::<DiagModel>::empty()
                =~= diagnostics.deep_view());
        }
        diagnostics
    }
}

} // verus!
