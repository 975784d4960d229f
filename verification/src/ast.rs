//! The shapes of the script sub-document's syntax tree that the analyses
//! read: expression statements, variable declarations, blocks, conditionals,
//! calls, member accesses and identifiers, each with byte spans relative to
//! the script sub-document's own text.
//!
//! The tree is produced outside the library by the script-language parser;
//! the analyses only consume it.

use vstd::prelude::*;
use crate::span::Span;

verus! {

broadcast use
    vstd::std_specs::vec::axiom_vec_decreases_to_view,
    vstd::seq::axiom_seq_index_decreases,
    vstd::seq::axiom_seq_subrange_decreases;


/// A parsed script: its top-level statements in source order.
pub struct Program {
    pub body: Vec<Statement>,
}

/// One variable declarator; only its initializer is read.
pub struct Declarator {
    pub init: Option<Expression>,
}

/// A statement shape, keeping only what the analyses inspect.
pub enum Statement {
    ExpressionStatement { span: Span, expression: Expression },
    VariableDeclaration { declarations: Vec<Declarator> },
    BlockStatement { body: Vec<Statement> },
    IfStatement { test: Expression, consequent: Box<Statement>, alternate: Option<Box<Statement>> },
    Other,
}

/// An expression shape, keeping only what the analyses inspect.
pub enum Expression {
    Identifier { name: String },
    StaticMemberExpression { span: Span, object: Box<Expression>, property: String },
    CallExpression { callee: Box<Expression>, arguments: Vec<Expression> },
    Other,
}

/// Every span in the expression lies within a script text of length `len`.
pub open spec fn expr_wf(e: Expression, len: nat) -> bool
    decreases e,
{
    match e {
        Expression::Identifier { .. } => true,
        Expression::StaticMemberExpression { span, object, .. } => span.spec_within(len)
            && expr_wf(*object, len),
        Expression::CallExpression { callee, arguments } => expr_wf(*callee, len) && exprs_wf(
            arguments@,
            len,
        ),
        Expression::Other => true,
    }
}

/// Every span in each expression lies within a script text of length `len`.
pub open spec fn exprs_wf(es: Seq<Expression>, len: nat) -> bool
    decreases es,
{
    if es.len() == 0 {
        true
    } else {
        expr_wf(es[0], len) && exprs_wf(es.drop_first(), len)
    }
}

/// Every span in the statement lies within a script text of length `len`.
pub open spec fn stmt_wf(s: Statement, len: nat) -> bool
    decreases s,
{
    match s {
        Statement::ExpressionStatement { span, expression } => span.spec_within(len) && expr_wf(
            expression,
            len,
        ),
        Statement::VariableDeclaration { declarations } => decls_wf(declarations@, len),
        Statement::BlockStatement { body } => stmts_wf(body@, len),
        Statement::IfStatement { test, consequent, alternate } => expr_wf(test, len) && stmt_wf(
            *consequent,
            len,
        ) && match alternate {
            Some(a) => stmt_wf(*a, len),
            None => true,
        },
        Statement::Other => true,
    }
}

/// Every span in each declarator lies within a script text of length `len`.
pub open spec fn decls_wf(ds: Seq<Declarator>, len: nat) -> bool
    decreases ds,
{
    if ds.len() == 0 {
        true
    } else {
        (match ds[0].init {
            Some(e) => expr_wf(e, len),
            None => true,
        }) && decls_wf(ds.drop_first(), len)
    }
}

/// Every span in each statement lies within a script text of length `len`.
pub open spec fn stmts_wf(ss: Seq<Statement>, len: nat) -> bool
    decreases ss,
{
    if ss.len() == 0 {
        true
    } else {
        stmt_wf(ss[0], len) && stmts_wf(ss.drop_first(), len)
    }
}

/// Every span in the program lies within a script text of length `len`.
pub open spec fn program_wf(p: Program, len: nat) -> bool {
    stmts_wf(p.body@, len)
}

/// The larger of two naturals.
pub open spec fn spec_max(a: nat, b: nat) -> nat {
    if a > b {
        a
    } else {
        b
    }
}

/// Structural height of an expression, the measure the traversals recurse on.
pub open spec fn expr_height(e: Expression) -> nat
    decreases e,
{
    match e {
        Expression::Identifier { .. } => 0,
        Expression::StaticMemberExpression { object, .. } => expr_height(*object) + 1,
        Expression::CallExpression { callee, arguments } => spec_max(
            expr_height(*callee),
            exprs_height(arguments@),
        ) + 1,
        Expression::Other => 0,
    }
}

/// The greatest height among the expressions.
pub open spec fn exprs_height(es: Seq<Expression>) -> nat
    decreases es,
{
    if es.len() == 0 {
        0
    } else {
        spec_max(expr_height(es[0]), exprs_height(es.drop_first()))
    }
}

/// Each expression is at most as high as the sequence's height.
pub proof fn lemma_exprs_height(es: Seq<Expression>, i: int)
    requires
        0 <= i < es.len(),
    ensures
        expr_height(es[i]) <= exprs_height(es),
    decreases es.len(),
{
    if i > 0 {
        lemma_exprs_height(es.drop_first(), i - 1);
        assert(es.drop_first()[i - 1] == es[i]);
    }
}

/// Structural height of a declarator.
pub open spec fn decl_height(d: Declarator) -> nat {
    match d.init {
        Some(e) => expr_height(e) + 1,
        None => 0,
    }
}

/// The greatest height among the declarators.
pub open spec fn decls_height(ds: Seq<Declarator>) -> nat
    decreases ds,
{
    if ds.len() == 0 {
        0
    } else {
        spec_max(decl_height(ds[0]), decls_height(ds.drop_first()))
    }
}

/// Each declarator is at most as high as the sequence's height.
pub proof fn lemma_decls_height(ds: Seq<Declarator>, i: int)
    requires
        0 <= i < ds.len(),
    ensures
        decl_height(ds[i]) <= decls_height(ds),
    decreases ds.len(),
{
    if i > 0 {
        lemma_decls_height(ds.drop_first(), i - 1);
        assert(ds.drop_first()[i - 1] == ds[i]);
    }
}

/// Structural height of a statement, the measure the traversals recurse on.
pub open spec fn stmt_height(s: Statement) -> nat
    decreases s,
{
    match s {
        Statement::ExpressionStatement { expression, .. } => expr_height(expression) + 1,
        Statement::VariableDeclaration { declarations } => decls_height(declarations@) + 1,
        Statement::BlockStatement { body } => stmts_height(body@) + 1,
        Statement::IfStatement { test, consequent, alternate } => spec_max(
            spec_max(expr_height(test), stmt_height(*consequent)),
            match alternate {
                Some(a) => stmt_height(*a),
                None => 0,
            },
        ) + 1,
        Statement::Other => 0,
    }
}

/// The greatest height among the statements.
pub open spec fn stmts_height(ss: Seq<Statement>) -> nat
    decreases ss,
{
    if ss.len() == 0 {
        0
    } else {
        spec_max(stmt_height(ss[0]), stmts_height(ss.drop_first()))
    }
}

/// Each statement is at most as high as the sequence's height.
pub proof fn lemma_stmts_height(ss: Seq<Statement>, i: int)
    requires
        0 <= i < ss.len(),
    ensures
        stmt_height(ss[i]) <= stmts_height(ss),
    decreases ss.len(),
{
    if i > 0 {
        lemma_stmts_height(ss.drop_first(), i - 1);
        assert(ss.drop_first()[i - 1] == ss[i]);
    }
}

/// Decide [`expr_wf`] for a concrete tree.
#[verifier::loop_isolation(false)]
pub fn check_expr(e: &Expression, len: u32) -> (r: bool)
    ensures
        r == expr_wf(*e, len as nat),
    decreases *e,
{
    match e {
        Expression::Identifier { .. } => true,
        Expression::StaticMemberExpression { span, object, .. } => span.start <= span.end
            && span.end <= len && check_expr(object, len),
        Expression::CallExpression { callee, arguments } => {
            if !check_expr(callee, len) {
                return false;
            }
            let mut i: usize = 0;
            let mut ok: bool = true;
            while i < arguments.len()
                invariant
                    i <= arguments@.len(),
                    ok == exprs_wf_upto(arguments@, len as nat, i as int),
                decreases arguments@.len() - i,
            {
                proof {
                    assert(*e is CallExpression);
                    assert(decreases_to!(*e => (*e)->CallExpression_arguments));
                    assert((*e)->CallExpression_arguments == *arguments);
                    assert(decreases_to!(*arguments => arguments@));
                    assert(decreases_to!(arguments@ => arguments@[i as int]));
                }
                if !check_expr(&arguments[i], len) {
                    ok = false;
                }
                i = i + 1;
            }
            proof {
                lemma_exprs_wf_upto(arguments@, len as nat);
            }
            ok
        },
        Expression::Other => true,
    }
}

/// The conjunction of [`expr_wf`] over the first `n` expressions.
pub open spec fn exprs_wf_upto(es: Seq<Expression>, len: nat, n: int) -> bool {
    forall|j: int| 0 <= j < n ==> expr_wf(#[trigger] es[j], len)
}

/// The element-wise reading of [`exprs_wf`].
pub proof fn lemma_exprs_wf_upto(es: Seq<Expression>, len: nat)
    ensures
        exprs_wf(es, len) == exprs_wf_upto(es, len, es.len() as int),
    decreases es.len(),
{
    if es.len() > 0 {
        lemma_exprs_wf_upto(es.drop_first(), len);
        assert forall|j: int| 0 <= j < es.len() - 1 implies es.drop_first()[j] == es[j + 1] by {}
        if expr_wf(es[0], len) && exprs_wf_upto(es.drop_first(), len, es.len() - 1) {
            assert forall|j: int| 0 <= j < es.len() implies expr_wf(#[trigger] es[j], len) by {
                if j > 0 {
                    assert(expr_wf(es.drop_first()[j - 1], len));
                }
            }
        }
        if exprs_wf_upto(es, len, es.len() as int) {
            assert forall|j: int| 0 <= j < es.len() - 1 implies expr_wf(
                #[trigger] es.drop_first()[j],
                len,
            ) by {
                assert(expr_wf(es[j + 1], len));
            }
        }
    }
}

/// The conjunction of [`stmt_wf`] over the first `n` statements.
pub open spec fn stmts_wf_upto(ss: Seq<Statement>, len: nat, n: int) -> bool {
    forall|j: int| 0 <= j < n ==> stmt_wf(#[trigger] ss[j], len)
}

/// The element-wise reading of [`stmts_wf`].
pub proof fn lemma_stmts_wf_upto(ss: Seq<Statement>, len: nat)
    ensures
        stmts_wf(ss, len) == stmts_wf_upto(ss, len, ss.len() as int),
    decreases ss.len(),
{
    if ss.len() > 0 {
        lemma_stmts_wf_upto(ss.drop_first(), len);
        if stmt_wf(ss[0], len) && stmts_wf_upto(ss.drop_first(), len, ss.len() - 1) {
            assert forall|j: int| 0 <= j < ss.len() implies stmt_wf(#[trigger] ss[j], len) by {
                if j > 0 {
                    assert(stmt_wf(ss.drop_first()[j - 1], len));
                }
            }
        }
        if stmts_wf_upto(ss, len, ss.len() as int) {
            assert forall|j: int| 0 <= j < ss.len() - 1 implies stmt_wf(
                #[trigger] ss.drop_first()[j],
                len,
            ) by {
                assert(stmt_wf(ss[j + 1], len));
            }
        }
    }
}

/// The conjunction of [`decls_wf`]'s condition over the first `n` declarators.
pub open spec fn decls_wf_upto(ds: Seq<Declarator>, len: nat, n: int) -> bool {
    forall|j: int|
        0 <= j < n ==> (match (#[trigger] ds[j]).init {
            Some(e) => expr_wf(e, len),
            None => true,
        })
}

/// The element-wise reading of [`decls_wf`].
pub proof fn lemma_decls_wf_upto(ds: Seq<Declarator>, len: nat)
    ensures
        decls_wf(ds, len) == decls_wf_upto(ds, len, ds.len() as int),
    decreases ds.len(),
{
    if ds.len() > 0 {
        lemma_decls_wf_upto(ds.drop_first(), len);
        if decls_wf(ds, len) {
            assert forall|j: int|
                0 <= j < ds.len() implies (match (#[trigger] ds[j]).init {
                Some(e) => expr_wf(e, len),
                None => true,
            }) by {
                if j > 0 {
                    assert(ds.drop_first()[j - 1] == ds[j]);
                }
            }
        }
        if decls_wf_upto(ds, len, ds.len() as int) {
            assert forall|j: int|
                0 <= j < ds.len() - 1 implies (match (#[trigger] ds.drop_first()[j]).init {
                Some(e) => expr_wf(e, len),
                None => true,
            }) by {
                assert(ds.drop_first()[j] == ds[j + 1]);
            }
        }
    }
}

/// Decide [`stmt_wf`] for a concrete tree.
#[verifier::loop_isolation(false)]
pub fn check_stmt(s: &Statement, len: u32) -> (r: bool)
    ensures
        r == stmt_wf(*s, len as nat),
    decreases *s,
{
    match s {
        Statement::ExpressionStatement { span, expression } => span.start <= span.end && span.end
            <= len && check_expr(expression, len),
        Statement::VariableDeclaration { declarations } => {
            let mut i: usize = 0;
            let mut ok: bool = true;
            while i < declarations.len()
                invariant
                    i <= declarations@.len(),
                    ok == decls_wf_upto(declarations@, len as nat, i as int),
                decreases declarations@.len() - i,
            {
                let d = &declarations[i];
                match &d.init {
                    Some(e) => {
                        if !check_expr(e, len) {
                            ok = false;
                        }
                    },
                    None => {},
                }
                i = i + 1;
            }
            proof {
                lemma_decls_wf_upto(declarations@, len as nat);
            }
            ok
        },
        Statement::BlockStatement { body } => {
            let mut i: usize = 0;
            let mut ok: bool = true;
            while i < body.len()
                invariant
                    i <= body@.len(),
                    ok == stmts_wf_upto(body@, len as nat, i as int),
                decreases body@.len() - i,
            {
                proof {
                    assert(*s is BlockStatement);
                    assert(decreases_to!(*s => (*s)->BlockStatement_body));
                    assert((*s)->BlockStatement_body == *body);
                    assert(decreases_to!(*body => body@));
                    assert(decreases_to!(body@ => body@[i as int]));
                }
                if !check_stmt(&body[i], len) {
                    ok = false;
                }
                i = i + 1;
            }
            proof {
                lemma_stmts_wf_upto(body@, len as nat);
            }
            ok
        },
        Statement::IfStatement { test, consequent, alternate } => {
            let mut ok = check_expr(test, len);
            if !check_stmt(consequent, len) {
                ok = false;
            }
            match alternate {
                Some(a) => {
                    if !check_stmt(a, len) {
                        ok = false;
                    }
                },
                None => {},
            }
            ok
        },
        Statement::Other => true,
    }
}

/// Decide [`program_wf`] for a concrete tree.
pub fn check_program(p: &Program, len: u32) -> (r: bool)
    ensures
        r == program_wf(*p, len as nat),
{
    let mut i: usize = 0;
    let mut ok: bool = true;
    while i < p.body.len()
        invariant
            i <= p.body@.len(),
            ok == stmts_wf_upto(p.body@, len as nat, i as int),
        decreases p.body@.len() - i,
    {
        if !check_stmt(&p.body[i], len) {
            ok = false;
        }
        i = i + 1;
    }
    proof {
        lemma_stmts_wf_upto(p.body@, len as nat);
    }
    ok
}

} // verus!
