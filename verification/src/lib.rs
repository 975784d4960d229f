//! A span-correlated analysis pipeline for component source files that
//! interleave a markup template and a script block in one document.
//!
//! The library decomposes a document into anchored sub-documents, rebuilds
//! byte-accurate token positions for the template, runs a configurable set of
//! rules over a shared context, translates findings into absolute coordinates,
//! and applies textual fixes to the original text.

use vstd::prelude::*;

mod ast;
mod bytes;
mod cli;
mod extract;
mod linter;
mod patch;
mod rules;
mod span;
mod template_parser;

pub use ast::{Declarator, Expression, Program, Statement};
pub use cli::Args;
pub use extract::{extract_block, extract_source, SourceFile};
pub use linter::{spec_linted_diags, spec_without_rule, lemma_rule_off, Context, Linter, RegisteredRule, DiagLocModel, DiagModel, Diagnostic, DiagnosticWithLocation, Fix, FixModel, LintResult, LinterConfig, Rule, RuleConfig, get_line_col, str_eq};
pub use rules::no_console::NoConsole;
pub use rules::no_process_env::NoProcessEnv;
pub use rules::mustache_interpolation_spacing::MustacheInterpolationSpacing;
pub use rules::no_v_html::NoVHtml;
pub use rules::prefer_import_meta::PreferImportMeta;
pub use rules::require_v_for_key::RequireVForKey;
pub use patch::{apply_fix_list, collect_fixes, lemma_fix_order_irrelevant, lemma_no_fixes_no_change, sort_fixes_desc};
pub use span::Span;
pub use template_parser::{Attribute, AttributeModel, SpannedEmitter, TemplateToken, TokenModel};

verus! {

} // verus!
