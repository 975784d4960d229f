//! Flags reads of `process.client` and `process.server` and offers the
//! `import.meta` equivalents, traversing expression statements, variable
//! initializers, blocks and conditionals.

use vstd::prelude::*;
use vstd::string::*;
use vstd::utf8::encode_utf8;
use crate::ast::{
    expr_height, expr_wf, stmt_height, stmt_wf, Declarator, Expression, Statement,
};
use crate::bytes::push_bytes;
use crate::linter::{str_eq, Context, DiagModel, Diagnostic, Fix, FixModel, Rule};
use crate::span::Span;

verus! {

pub struct PreferImportMeta;

/// The property name when `e` reads `process.client` or `process.server`.
pub open spec fn spec_meta_property(e: Expression) -> Option<Seq<char>> {
    match e {
        Expression::StaticMemberExpression { object, property, .. } => match *object {
            Expression::Identifier { name } => if name@ == "process"@ && (property@ == "client"@
                || property@ == "server"@) {
                Some(property@)
            } else {
                None
            },
            _ => None,
        },
        _ => None,
    }
}

/// The finding for one `process.<prop>` read spanning `span`, shifted into
/// absolute coordinates by the script anchor `off`; its fix substitutes
/// `import.meta.<prop>`.
pub open spec fn spec_meta_diag(span: Span, prop: Seq<char>, off: int) -> DiagModel {
    let abs = Span { start: (span.start + off) as u32, end: (span.end + off) as u32 };
    DiagModel {
        message: "Use `import.meta."@ + prop + "` instead of `process."@ + prop + "`."@,
        span: abs,
        fix: Some(
            FixModel { span: abs, replacement: "import.meta.".spec_bytes() + encode_utf8(prop) },
        ),
    }
}

/// The findings inside one expression, in traversal order.
pub open spec fn spec_meta_expr_diags(e: Expression, off: int) -> Seq<DiagModel>
    decreases e,
{
    match e {
        Expression::StaticMemberExpression { span, object, .. } => (match spec_meta_property(e) {
            Some(prop) => seq![spec_meta_diag(span, prop, off)],
            None => Seq::empty(),
        }) + spec_meta_expr_diags(*object, off),
        Expression::CallExpression { callee, arguments } => spec_meta_expr_diags(*callee, off)
            + spec_meta_args_diags(arguments@, off),
        _ => Seq::empty(),
    }
}

/// The findings inside each argument expression, left to right.
pub open spec fn spec_meta_args_diags(es: Seq<Expression>, off: int) -> Seq<DiagModel>
    decreases es,
{
    if es.len() == 0 {
        Seq::empty()
    } else {
        spec_meta_expr_diags(es[0], off) + spec_meta_args_diags(es.drop_first(), off)
    }
}

/// The findings inside one statement: expression statements, variable
/// initializers, blocks and conditionals are traversed.
pub open spec fn spec_meta_stmt_diags(s: Statement, off: int) -> Seq<DiagModel>
    decreases s,
{
    match s {
        Statement::ExpressionStatement { expression, .. } => spec_meta_expr_diags(expression, off),
        Statement::VariableDeclaration { declarations } => spec_meta_decls_diags(
            declarations@,
            off,
        ),
        Statement::BlockStatement { body } => spec_meta_stmts_diags(body@, off),
        Statement::IfStatement { test, consequent, alternate } => spec_meta_expr_diags(test, off)
            + spec_meta_stmt_diags(*consequent, off) + (match alternate {
            Some(a) => spec_meta_stmt_diags(*a, off),
            None => Seq::empty(),
        }),
        Statement::Other => Seq::empty(),
    }
}

/// The findings inside each declarator's initializer, in order.
pub open spec fn spec_meta_decls_diags(ds: Seq<Declarator>, off: int) -> Seq<DiagModel>
    decreases ds,
{
    if ds.len() == 0 {
        Seq::empty()
    } else {
        (match ds[0].init {
            Some(e) => spec_meta_expr_diags(e, off),
            None => Seq::empty(),
        }) + spec_meta_decls_diags(ds.drop_first(), off)
    }
}

/// The findings for a statement sequence, in source order.
pub open spec fn spec_meta_stmts_diags(ss: Seq<Statement>, off: int) -> Seq<DiagModel>
    decreases ss,
{
    if ss.len() == 0 {
        Seq::empty()
    } else {
        spec_meta_stmt_diags(ss[0], off) + spec_meta_stmts_diags(ss.drop_first(), off)
    }
}

/// Visit one statement, appending its findings in traversal order.
#[verifier::loop_isolation(false)]
fn check_statement(stmt: &Statement, diagnostics: &mut Vec<Diagnostic>, ctx: &Context)
    requires
        ctx.wf(),
        stmt_wf(*stmt, ctx.source_file.script_content@.len()),
    ensures
        final(diagnostics).deep_view() == old(diagnostics).deep_view() + spec_meta_stmt_diags(
            *stmt,
            ctx.source_file.script_start_offset as int,
        ),
    decreases stmt_height(*stmt),
{
    let ghost off = ctx.source_file.script_start_offset as int;
    match stmt {
        Statement::ExpressionStatement { expression, .. } => {
            check_expression(expression, diagnostics, ctx);
        },
        Statement::VariableDeclaration { declarations } => {
            let ghost all = declarations@;
            proof {
                assert(all.subrange(0, all.len() as int) =~= all);
            }
            let mut i: usize = 0;
            while i < declarations.len()
                invariant
                    i <= all.len(),
                    old(diagnostics).deep_view() + spec_meta_decls_diags(all, off)
                        == diagnostics.deep_view() + spec_meta_decls_diags(
                        all.subrange(i as int, all.len() as int),
                        off,
                    ),
                decreases all.len() - i,
            {
                proof {
                    assert(all.subrange(i as int, all.len() as int).drop_first() =~= all.subrange(
                        i + 1,
                        all.len() as int,
                    ));
                    assert(all.subrange(i as int, all.len() as int)[0] == all[i as int]);
                    crate::ast::lemma_decls_wf_upto(all, ctx.source_file.script_content@.len());
                }
                let ghost mid = diagnostics.deep_view();
                match &declarations[i].init {
                    Some(e) => {
                        proof {
                            crate::ast::lemma_decls_height(all, i as int);
                            assert(all[i as int].init == Some(*e));
                            assert(expr_height(*e) < stmt_height(*stmt));
                        }
                        check_expression(e, diagnostics, ctx);
                        proof {
                            assert(diagnostics.deep_view() =~= mid + spec_meta_expr_diags(
                                *e,
                                off,
                            ));
                        }
                    },
                    None => {
                        proof {
                            assert(diagnostics.deep_view() + Seq::<DiagModel>::empty()
                                =~= diagnostics.deep_view());
                        }
                    },
                }
                i = i + 1;
            }
            proof {
                assert(all.subrange(all.len() as int, all.len() as int)
                    =~= Seq::<Declarator>::empty());
                assert(diagnostics.deep_view() + Seq::<DiagModel>::empty()
                    =~= diagnostics.deep_view());
            }
        },
        Statement::BlockStatement { body } => {
            let ghost all = body@;
            proof {
                assert(all.subrange(0, all.len() as int) =~= all);
            }
            let mut i: usize = 0;
            while i < body.len()
                invariant
                    i <= all.len(),
                    old(diagnostics).deep_view() + spec_meta_stmts_diags(all, off)
                        == diagnostics.deep_view() + spec_meta_stmts_diags(
                        all.subrange(i as int, all.len() as int),
                        off,
                    ),
                decreases all.len() - i,
            {
                proof {
                    assert(all.subrange(i as int, all.len() as int).drop_first() =~= all.subrange(
                        i + 1,
                        all.len() as int,
                    ));
                    assert(all.subrange(i as int, all.len() as int)[0] == all[i as int]);
                    crate::ast::lemma_stmts_wf_upto(all, ctx.source_file.script_content@.len());
                    crate::ast::lemma_stmts_height(all, i as int);
                    assert(stmt_height(all[i as int]) < stmt_height(*stmt));
                }
                let ghost mid = diagnostics.deep_view();
                check_statement(&body[i], diagnostics, ctx);
                proof {
                    assert(diagnostics.deep_view() =~= mid + spec_meta_stmt_diags(
                        all[i as int],
                        off,
                    ));
                }
                i = i + 1;
            }
            proof {
                assert(all.subrange(all.len() as int, all.len() as int)
                    =~= Seq::<Statement>::empty());
                assert(diagnostics.deep_view() + Seq::<DiagModel>::empty()
                    =~= diagnostics.deep_view());
            }
        },
        Statement::IfStatement { test, consequent, alternate } => {
            check_expression(test, diagnostics, ctx);
            check_statement(consequent, diagnostics, ctx);
            match alternate {
                Some(a) => {
                    check_statement(a, diagnostics, ctx);
                    proof {
                        assert(diagnostics.deep_view() =~= old(diagnostics).deep_view()
                            + spec_meta_stmt_diags(*stmt, off));
                    }
                },
                None => {
                    proof {
                        assert(diagnostics.deep_view() =~= old(diagnostics).deep_view()
                            + spec_meta_stmt_diags(*stmt, off));
                    }
                },
            }
        },
        _ => {
            proof {
                assert(old(diagnostics).deep_view() + Seq::<DiagModel>::empty()
                    =~= old(diagnostics).deep_view());
            }
        },
    }
}

/// Visit one expression, appending its findings in traversal order.
#[verifier::loop_isolation(false)]
fn check_expression(expr: &Expression, diagnostics: &mut Vec<Diagnostic>, ctx: &Context)
    requires
        ctx.wf(),
        expr_wf(*expr, ctx.source_file.script_content@.len()),
    ensures
        final(diagnostics).deep_view() == old(diagnostics).deep_view() + spec_meta_expr_diags(
            *expr,
            ctx.source_file.script_start_offset as int,
        ),
    decreases expr_height(*expr),
{
    let ghost off = ctx.source_file.script_start_offset as int;
    match expr {
        Expression::StaticMemberExpression { span, object, property } => {
            let ghost head: Seq<DiagModel> = Seq::empty();
            let is_meta = match &**object {
                Expression::Identifier { name } => str_eq(name.as_str(), "process") && (str_eq(
                    property.as_str(),
                    "client",
                ) || str_eq(property.as_str(), "server")),
                _ => false,
            };
            if is_meta {
                let o: u32 = ctx.source_file.script_start_offset as u32;
                let abs = Span { start: span.start + o, end: span.end + o };
                let message = String::from_str("Use `import.meta.").concat(
                    property.as_str(),
                ).concat("` instead of `process.").concat(property.as_str()).concat("`.");
                let mut replacement: Vec<u8> = Vec::new();
                push_bytes(&mut replacement, "import.meta.".as_bytes());
                push_bytes(&mut replacement, property.as_str().as_bytes());
                let d = Diagnostic { message, span: abs, fix: Some(Fix { span: abs, replacement }) };
                let ghost before = diagnostics.deep_view();
                diagnostics.push(d);
                proof {
                    assert(d@ =~~= spec_meta_diag(*span, property@, off));
                    head = seq![d@];
                    assert(diagnostics.deep_view() =~= before + head);
                }
            }
            check_expression(object, diagnostics, ctx);
            proof {
                assert(diagnostics.deep_view() =~= old(diagnostics).deep_view() + (head
                    + spec_meta_expr_diags(*(*object), off)));
            }
        },
        Expression::CallExpression { callee, arguments } => {
            check_expression(callee, diagnostics, ctx);
            let ghost after_callee = diagnostics.deep_view();
            let ghost all = arguments@;
            proof {
                assert(all.subrange(0, all.len() as int) =~= all);
            }
            let mut i: usize = 0;
            while i < arguments.len()
                invariant
                    i <= all.len(),
                    after_callee + spec_meta_args_diags(all, off) == diagnostics.deep_view()
                        + spec_meta_args_diags(all.subrange(i as int, all.len() as int), off),
                decreases all.len() - i,
            {
                proof {
                    assert(all.subrange(i as int, all.len() as int).drop_first() =~= all.subrange(
                        i + 1,
                        all.len() as int,
                    ));
                    assert(all.subrange(i as int, all.len() as int)[0] == all[i as int]);
                    crate::ast::lemma_exprs_wf_upto(all, ctx.source_file.script_content@.len());
                    crate::ast::lemma_exprs_height(all, i as int);
                    assert(expr_height(all[i as int]) < expr_height(*expr));
                }
                let ghost mid = diagnostics.deep_view();
                check_expression(&arguments[i], diagnostics, ctx);
                proof {
                    assert(diagnostics.deep_view() =~= mid + spec_meta_expr_diags(
                        all[i as int],
                        off,
                    ));
                }
                i = i + 1;
            }
            proof {
                assert(all.subrange(all.len() as int, all.len() as int)
                    =~= Seq::<Expression>::empty());
                assert(diagnostics.deep_view() + Seq::<DiagModel>::empty()
                    =~= diagnostics.deep_view());
                assert(diagnostics.deep_view() =~= old(diagnostics).deep_view() + (
                spec_meta_expr_diags(*(*callee), off) + spec_meta_args_diags(all, off)));
            }
        },
        _ => {
            proof {
                assert(old(diagnostics).deep_view() + Seq::<DiagModel>::empty()
                    =~= old(diagnostics).deep_view());
            }
        },
    }
}

impl Rule for PreferImportMeta {
    open spec fn spec_name(&self) -> Seq<char> {
        "nuxt/prefer-import-meta"@
    }

    open spec fn spec_diags(&self, ctx: &Context) -> Seq<DiagModel> {
        spec_meta_stmts_diags(ctx.program.body@, ctx.source_file.script_start_offset as int)
    }

    fn name(&self) -> (r: &'static str) {
        "nuxt/prefer-import-meta"
    }

    #[verifier::loop_isolation(false)]
    fn run(&self, ctx: &Context) -> (r: Vec<Diagnostic>) {
        let mut diagnostics: Vec<Diagnostic> = Vec::new();
        let body = &ctx.program.body;
        let ghost all = body@;
        let ghost off = ctx.source_file.script_start_offset as int;
        proof {
            crate::ast::lemma_stmts_wf_upto(all, ctx.source_file.script_content@.len());
            assert(diagnostics.deep_view() =~= Seq::<DiagModel>::empty());
            assert(all.subrange(0, all.len() as int) =~= all);
            assert(diagnostics.deep_view() + spec_meta_stmts_diags(all, off)
                =~= spec_meta_stmts_diags(all, off));
        }
        let mut i: usize = 0;
        while i < body.len()
            invariant
                i <= all.len(),
                spec_meta_stmts_diags(all, off) == diagnostics.deep_view() + spec_meta_stmts_diags(
                    all.subrange(i as int, all.len() as int),
                    off,
                ),
            decreases all.len() - i,
        {
            proof {
                assert(all.subrange(i as int, all.len() as int).drop_first() =~= all.subrange(
                    i + 1,
                    all.len() as int,
                ));
                assert(all.subrange(i as int, all.len() as int)[0] == all[i as int]);
            }
            let ghost mid = diagnostics.deep_view();
            check_statement(&body[i], &mut diagnostics, ctx);
            proof {
                assert(diagnostics.deep_view() =~= mid + spec_meta_stmt_diags(all[i as int], off));
            }
            i = i + 1;
        }
        proof {
            assert(all.subrange(all.len() as int, all.len() as int) =~= Seq::<Statement>::empty());
            assert(diagnostics.deep_view() + Seq::<DiagModel>::empty() =~= diagnostics.deep_view());
        }
        diagnostics
    }
}

} // verus!
