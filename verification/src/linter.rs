//! Rule protocol, configuration, diagnostics and the shared per-file context.

use vstd::prelude::*;
use vstd::string::*;
use crate::ast::{program_wf, Program};
use crate::extract::SourceFile;
use crate::span::Span;
use crate::template_parser::{token_wf, TemplateToken, TokenModel};

verus! {

/// Equality of two string slices, decided character by character.
pub fn str_eq(a: &str, b: &str) -> (r: bool)
    ensures
        r == (a@ == b@),
{
    let an = a.unicode_len();
    let bn = b.unicode_len();
    if an != bn {
        return false;
    }
    let mut i: usize = 0;
    while i < an
        invariant
            i <= an,
            an == a@.len(),
            an == b@.len(),
            forall|j: int| 0 <= j < i ==> a@[j] == b@[j],
        decreases an - i,
    {
        if a.get_char(i) != b.get_char(i) {
            return false;
        }
        i = i + 1;
    }
    proof {
        assert(a@ =~= b@);
    }
    true
}

/// The configured state of one rule: `"off"` disables it; any other state
/// (`"warn"`, `"error"`, …) leaves it enabled.
pub enum RuleConfig {
    State(String),
}

impl RuleConfig {
    /// A rule is enabled unless its state is the literal `off`.
    pub open spec fn spec_is_enabled(&self) -> bool {
        match self {
            RuleConfig::State(s) => s@ != "off"@,
        }
    }

    pub fn is_enabled(&self) -> (r: bool)
        ensures
            r == self.spec_is_enabled(),
    {
        match self {
            RuleConfig::State(s) => !str_eq(s.as_str(), "off"),
        }
    }
}

impl Default for RuleConfig {
    /// A rule without explicit configuration reports at the `error` state.
    fn default() -> (r: Self)
        ensures
            match r {
                RuleConfig::State(s) => s@ == "error"@,
            },
    {
        RuleConfig::State(String::from_str("error"))
    }
}

/// Per-run rule configuration: rule identifier to state, first entry wins;
/// a rule with no entry is enabled.  Loaded once, read-only thereafter.
pub struct LinterConfig {
    pub rules: Vec<(String, RuleConfig)>,
}

/// The configuration entry for `name`, if any: the first pair with that key.
pub open spec fn spec_lookup(rules: Seq<(String, RuleConfig)>, name: Seq<char>) -> Option<
    RuleConfig,
>
    decreases rules.len(),
{
    if rules.len() == 0 {
        None
    } else if rules[0].0@ == name {
        Some(rules[0].1)
    } else {
        spec_lookup(rules.drop_first(), name)
    }
}

impl LinterConfig {
    /// Whether the rule named `name` runs under this configuration:
    /// enabled by default, disabled exactly by an `off` entry.
    pub open spec fn spec_rule_enabled(&self, name: Seq<char>) -> bool {
        match spec_lookup(self.rules@, name) {
            None => true,
            Some(rc) => rc.spec_is_enabled(),
        }
    }

    pub fn rule_enabled(&self, name: &str) -> (r: bool)
        ensures
            r == self.spec_rule_enabled(name@),
    {
        proof {
            assert(self.rules@.subrange(0, self.rules@.len() as int) =~= self.rules@);
        }
        let mut i: usize = 0;
        while i < self.rules.len()
            invariant
                i <= self.rules@.len(),
                spec_lookup(self.rules@, name@) == spec_lookup(
                    self.rules@.subrange(i as int, self.rules@.len() as int),
                    name@,
                ),
            decreases self.rules@.len() - i,
        {
            proof {
                assert(self.rules@.subrange(i as int, self.rules@.len() as int).drop_first()
                    =~= self.rules@.subrange(i + 1, self.rules@.len() as int));
            }
            let entry = &self.rules[i];
            if str_eq(entry.0.as_str(), name) {
                return entry.1.is_enabled();
            }
            i = i + 1;
        }
        true
    }
}

impl Default for LinterConfig {
    /// No configuration: every rule is enabled.
    fn default() -> (r: Self)
        ensures
            r.rules@.len() == 0,
    {
        LinterConfig { rules: Vec::new() }
    }
}

/// A proposed text replacement attached to a diagnostic, in absolute
/// original-document coordinates.
pub struct Fix {
    pub span: Span,
    pub replacement: Vec<u8>,
}

/// Mathematical model of a [`Fix`].
#[verifier::ext_equal]
pub struct FixModel {
    pub span: Span,
    pub replacement: Seq<u8>,
}

impl View for Fix {
    type V = FixModel;

    open spec fn view(&self) -> FixModel {
        FixModel { span: self.span, replacement: self.replacement@ }
    }
}

impl DeepView for Fix {
    type V = FixModel;

    open spec fn deep_view(&self) -> FixModel {
        self.view()
    }
}

/// A reported finding: message, absolute span, optional repair.  Immutable
/// once produced; ownership passes from rule to aggregator to patch engine.
pub struct Diagnostic {
    pub message: String,
    pub span: Span,
    pub fix: Option<Fix>,
}

/// Mathematical model of a [`Diagnostic`].
#[verifier::ext_equal]
pub struct DiagModel {
    pub message: Seq<char>,
    pub span: Span,
    pub fix: Option<FixModel>,
}

impl View for Diagnostic {
    type V = DiagModel;

    open spec fn view(&self) -> DiagModel {
        DiagModel {
            message: self.message@,
            span: self.span,
            fix: match self.fix {
                Some(f) => Some(f@),
                None => None,
            },
        }
    }
}

impl DeepView for Diagnostic {
    type V = DiagModel;

    open spec fn deep_view(&self) -> DiagModel {
        self.view()
    }
}

/// A diagnostic normalized for the report surface: 1-based line/column
/// endpoints and whether a repair was available.
pub struct DiagnosticWithLocation {
    pub message: String,
    pub start_line: usize,
    pub start_column: usize,
    pub end_line: usize,
    pub end_column: usize,
    pub fix_available: bool,
}

/// Mathematical model of a [`DiagnosticWithLocation`].
#[verifier::ext_equal]
pub struct DiagLocModel {
    pub message: Seq<char>,
    pub start_line: int,
    pub start_column: int,
    pub end_line: int,
    pub end_column: int,
    pub fix_available: bool,
}

impl View for DiagnosticWithLocation {
    type V = DiagLocModel;

    open spec fn view(&self) -> DiagLocModel {
        DiagLocModel {
            message: self.message@,
            start_line: self.start_line as int,
            start_column: self.start_column as int,
            end_line: self.end_line as int,
            end_column: self.end_column as int,
            fix_available: self.fix_available,
        }
    }
}

impl DeepView for DiagnosticWithLocation {
    type V = DiagLocModel;

    open spec fn deep_view(&self) -> DiagLocModel {
        self.view()
    }
}

/// The outcome for one file: its path, the findings in report order, and how
/// many fixes were actually applied.
pub struct LintResult {
    pub path: String,
    pub diagnostics: Vec<DiagnosticWithLocation>,
    pub fixed_count: usize,
}

/// A byte is a UTF-8 continuation byte, which does not begin a character.
pub open spec fn spec_is_continuation(b: u8) -> bool {
    0x80 <= b < 0xC0
}

/// Line and column after scanning the first `end` bytes of `content`:
/// both 1-based, a line break resets the column, and a decoded character
/// (any non-continuation byte) advances it.
pub open spec fn spec_scan_line_col(content: Seq<u8>, end: int) -> (int, int)
    decreases end,
{
    if end <= 0 {
        (1, 1)
    } else {
        let prev = spec_scan_line_col(content, end - 1);
        if content[end - 1] == 10 {
            (prev.0 + 1, 1)
        } else if spec_is_continuation(content[end - 1]) {
            prev
        } else {
            (prev.0, prev.1 + 1)
        }
    }
}

/// Where the scan for `offset` stops: at `offset` when it is a character
/// boundary inside the text, else at the end of the text — an offset past
/// the end, or inside a multi-byte character, is never reached when walking
/// the text character by character.
pub open spec fn spec_line_col_stop(content: Seq<u8>, offset: int) -> int {
    if offset < content.len() && !spec_is_continuation(content[offset]) {
        offset
    } else {
        content.len() as int
    }
}

/// The 1-based line and column of byte `offset` in `content`.
pub open spec fn spec_line_col(content: Seq<u8>, offset: int) -> (int, int) {
    spec_scan_line_col(content, spec_line_col_stop(content, offset))
}

/// Derive the 1-based line and column of byte `offset`, scanning from the
/// first character and counting by decoded character.
pub fn get_line_col(content: &Vec<u8>, offset: usize) -> (r: (usize, usize))
    requires
        content@.len() < usize::MAX,
    ensures
        (r.0 as int, r.1 as int) == spec_line_col(content@, offset as int),
{
    let stop: usize = if offset < content.len() {
        let b = content[offset];
        if b >= 0x80 && b < 0xC0 {
            content.len()
        } else {
            offset
        }
    } else {
        content.len()
    };
    let mut line: usize = 1;
    let mut col: usize = 1;
    let mut i: usize = 0;
    while i < stop
        invariant
            0 <= i <= stop <= content@.len() < usize::MAX,
            1 <= line <= i + 1,
            1 <= col <= i + 1,
            (line as int, col as int) == spec_scan_line_col(content@, i as int),
        decreases stop - i,
    {
        let b = content[i];
        if b == 10 {
            line = line + 1;
            col = 1;
        } else if b >= 0x80 && b < 0xC0 {
        } else {
            col = col + 1;
        }
        i = i + 1;
    }
    (line, col)
}

/// All token spans — and for text runs, also span start plus content length —
/// stay within a template text of length `len`.
pub open spec fn tokens_wf(ts: Seq<TokenModel>, len: nat) -> bool {
    forall|i: int|
        0 <= i < ts.len() ==> (token_wf(#[trigger] ts[i], len) && (ts[i] matches TokenModel::String {
            content,
            span,
        } ==> span.start + content.len() <= len))
}

/// The read-only per-file aggregate every rule runs against: the document,
/// its script syntax tree, and the template tokens when a template exists.
/// Never mutated during a file's analysis.
pub struct Context {
    pub source_file: SourceFile,
    pub program: Program,
    pub template_tokens: Option<Vec<TemplateToken>>,
}

impl Context {
    /// Everything a rule's coordinate arithmetic relies on: the document's
    /// bounds, the script tree's spans and the template tokens' spans.
    pub open spec fn wf(self) -> bool {
        &&& self.source_file.wf()
        &&& program_wf(self.program, self.source_file.script_content@.len())
        &&& match self.template_tokens {
            Some(ts) => tokens_wf(ts.deep_view(), self.source_file.template_content@.len()),
            None => true,
        }
    }

    /// Assemble a context after checking every bound the rules rely on;
    /// `None` when the pieces do not fit the document.
    pub fn new(source_file: SourceFile, program: Program, template_tokens: Option<
        Vec<TemplateToken>,
    >) -> (r: Option<Context>)
        ensures
            match r {
                Some(ctx) => ctx.wf() && ctx.source_file == source_file && ctx.program == program
                    && ctx.template_tokens == template_tokens,
                None => !(Context {
                    source_file,
                    program,
                    template_tokens,
                }).wf(),
            },
    {
        let ctx = Context { source_file, program, template_tokens };
        if !check_source_file(&ctx.source_file) {
            return None;
        }
        if ctx.source_file.script_content.len() > u32::MAX as usize {
            proof {
                assert(!ctx.source_file.wf());
            }
            return None;
        }
        if !crate::ast::check_program(&ctx.program, ctx.source_file.script_content.len() as u32) {
            return None;
        }
        match &ctx.template_tokens {
            Some(ts) => {
                if !check_tokens(ts, ctx.source_file.template_content.len()) {
                    return None;
                }
            },
            None => {},
        }
        Some(ctx)
    }
}

/// Decide [`SourceFile::wf`] for a concrete document.
pub fn check_source_file(sf: &SourceFile) -> (r: bool)
    ensures
        r == sf.wf(),
{
    if sf.original_content.len() > u32::MAX as usize {
        return false;
    }
    if sf.script_start_offset > sf.original_content.len() {
        return false;
    }
    if sf.script_content.len() > sf.original_content.len() - sf.script_start_offset {
        return false;
    }
    if sf.template_start_offset > sf.original_content.len() {
        return false;
    }
    if sf.template_content.len() > sf.original_content.len() - sf.template_start_offset {
        return false;
    }
    let script_ok = range_matches(
        &sf.original_content,
        sf.script_start_offset,
        &sf.script_content,
    );
    let template_ok = range_matches(
        &sf.original_content,
        sf.template_start_offset,
        &sf.template_content,
    );
    script_ok && template_ok
}

/// `orig[at .. at + part.len()) == part`.
fn range_matches(orig: &Vec<u8>, at: usize, part: &Vec<u8>) -> (r: bool)
    requires
        at + part@.len() <= orig@.len(),
    ensures
        r == (orig@.subrange(at as int, at + part@.len()) == part@),
{
    let ol: usize = orig.len();
    let mut i: usize = 0;
    while i < part.len()
        invariant
            i <= part@.len(),
            ol == orig@.len(),
            at + part@.len() <= orig@.len(),
            forall|j: int| 0 <= j < i ==> orig@[at + j] == part@[j],
        decreases part@.len() - i,
    {
        if orig[at + i] != part[i] {
            proof {
                assert(orig@.subrange(at as int, at + part@.len())[i as int] == orig@[at + i]);
            }
            return false;
        }
        i = i + 1;
    }
    proof {
        assert(orig@.subrange(at as int, at + part@.len()) =~= part@);
    }
    true
}

/// Decide [`tokens_wf`] for a concrete token list.
fn check_tokens(ts: &Vec<TemplateToken>, len: usize) -> (r: bool)
    ensures
        r == tokens_wf(ts.deep_view(), len as nat),
{
    let mut i: usize = 0;
    while i < ts.len()
        invariant
            i <= ts@.len(),
            forall|j: int|
                0 <= j < i ==> (token_wf(#[trigger] ts.deep_view()[j], len as nat) && (
                ts.deep_view()[j] matches TokenModel::String { content, span } ==> span.start
                    + content.len() <= len)),
        decreases ts@.len() - i,
    {
        let ok = match &ts[i] {
            TemplateToken::StartTag { span, .. } => span.start <= span.end && span.end as usize
                <= len,
            TemplateToken::EndTag { span, .. } => span.start <= span.end && span.end as usize
                <= len,
            TemplateToken::String { content, span } => span.start <= span.end && span.end as usize
                <= len && content.len() <= len && span.start as usize <= len - content.len(),
            TemplateToken::Comment { span, .. } => span.start <= span.end && span.end as usize
                <= len,
            TemplateToken::Eof => true,
        };
        proof {
            assert(ts.deep_view()[i as int] == ts@[i as int]@);
        }
        if !ok {
            return false;
        }
        i = i + 1;
    }
    true
}

/// A pluggable analysis: a stable identifier for configuration lookup, and a
/// run over the shared context yielding this analysis's findings, pinned by
/// the analysis's own specification [`Rule::spec_diags`].
pub trait Rule: Sized {
    /// The identifier used for configuration lookup.
    spec fn spec_name(&self) -> Seq<char>;

    /// Exactly the findings this analysis reports on `ctx`, in emission
    /// order, with spans already absolute.
    spec fn spec_diags(&self, ctx: &Context) -> Seq<DiagModel>;

    fn name(&self) -> (r: &'static str)
        ensures
            r@ == self.spec_name(),
    ;

    fn run(&self, ctx: &Context) -> (r: Vec<Diagnostic>)
        requires
            ctx.wf(),
        ensures
            r.deep_view() == self.spec_diags(ctx),
    ;
}

/// One registered analysis: the closed set of built-in rules the registry
/// dispatches over.
pub enum RegisteredRule {
    NoConsole(crate::rules::no_console::NoConsole),
    NoProcessEnv(crate::rules::no_process_env::NoProcessEnv),
    NoVHtml(crate::rules::no_v_html::NoVHtml),
    RequireVForKey(crate::rules::require_v_for_key::RequireVForKey),
    MustacheInterpolationSpacing(
        crate::rules::mustache_interpolation_spacing::MustacheInterpolationSpacing,
    ),
    PreferImportMeta(crate::rules::prefer_import_meta::PreferImportMeta),
}

impl RegisteredRule {
    /// The identifier of the underlying analysis.
    pub open spec fn spec_name(&self) -> Seq<char> {
        match self {
            RegisteredRule::NoConsole(r) => r.spec_name(),
            RegisteredRule::NoProcessEnv(r) => r.spec_name(),
            RegisteredRule::NoVHtml(r) => r.spec_name(),
            RegisteredRule::RequireVForKey(r) => r.spec_name(),
            RegisteredRule::MustacheInterpolationSpacing(r) => r.spec_name(),
            RegisteredRule::PreferImportMeta(r) => r.spec_name(),
        }
    }

    /// The findings of the underlying analysis on `ctx`.
    pub open spec fn spec_diags(&self, ctx: &Context) -> Seq<DiagModel> {
        match self {
            RegisteredRule::NoConsole(r) => r.spec_diags(ctx),
            RegisteredRule::NoProcessEnv(r) => r.spec_diags(ctx),
            RegisteredRule::NoVHtml(r) => r.spec_diags(ctx),
            RegisteredRule::RequireVForKey(r) => r.spec_diags(ctx),
            RegisteredRule::MustacheInterpolationSpacing(r) => r.spec_diags(ctx),
            RegisteredRule::PreferImportMeta(r) => r.spec_diags(ctx),
        }
    }

    pub fn name(&self) -> (r: &'static str)
        ensures
            r@ == self.spec_name(),
    {
        match self {
            RegisteredRule::NoConsole(r) => r.name(),
            RegisteredRule::NoProcessEnv(r) => r.name(),
            RegisteredRule::NoVHtml(r) => r.name(),
            RegisteredRule::RequireVForKey(r) => r.name(),
            RegisteredRule::MustacheInterpolationSpacing(r) => r.name(),
            RegisteredRule::PreferImportMeta(r) => r.name(),
        }
    }

    pub fn run(&self, ctx: &Context) -> (r: Vec<Diagnostic>)
        requires
            ctx.wf(),
        ensures
            r.deep_view() == self.spec_diags(ctx),
    {
        match self {
            RegisteredRule::NoConsole(r) => r.run(ctx),
            RegisteredRule::NoProcessEnv(r) => r.run(ctx),
            RegisteredRule::NoVHtml(r) => r.run(ctx),
            RegisteredRule::RequireVForKey(r) => r.run(ctx),
            RegisteredRule::MustacheInterpolationSpacing(r) => r.run(ctx),
            RegisteredRule::PreferImportMeta(r) => r.run(ctx),
        }
    }
}

/// The diagnostics one analysis pass reports: each enabled rule's findings in
/// registration order, rule-internal emission order kept.
pub open spec fn spec_linted_diags(
    rules: Seq<RegisteredRule>,
    cfg: LinterConfig,
    ctx: &Context,
) -> Seq<DiagModel>
    decreases rules.len(),
{
    if rules.len() == 0 {
        Seq::empty()
    } else {
        (if cfg.spec_rule_enabled(rules[0].spec_name()) {
            rules[0].spec_diags(ctx)
        } else {
            Seq::empty()
        }) + spec_linted_diags(rules.drop_first(), cfg, ctx)
    }
}

/// The registered rules with those named `name` taken out.
pub open spec fn spec_without_rule(rules: Seq<RegisteredRule>, name: Seq<char>) -> Seq<
    RegisteredRule,
>
    decreases rules.len(),
{
    if rules.len() == 0 {
        rules
    } else if rules[0].spec_name() == name {
        spec_without_rule(rules.drop_first(), name)
    } else {
        seq![rules[0]] + spec_without_rule(rules.drop_first(), name)
    }
}

/// Disabling one rule by configuration yields exactly the diagnostics of a
/// run without that rule, under the original configuration: the disabled
/// rule contributes nothing and every other rule's findings are untouched.
pub proof fn lemma_rule_off(
    rules: Seq<RegisteredRule>,
    cfg1: LinterConfig,
    cfg2: LinterConfig,
    ctx: &Context,
    name: Seq<char>,
)
    requires
        !cfg2.spec_rule_enabled(name),
        forall|n: Seq<char>|
            n != name ==> #[trigger] cfg1.spec_rule_enabled(n) == cfg2.spec_rule_enabled(n),
    ensures
        spec_linted_diags(rules, cfg2, ctx) == spec_linted_diags(
            spec_without_rule(rules, name),
            cfg1,
            ctx,
        ),
    decreases rules.len(),
{
    if rules.len() == 0 {
    } else {
        lemma_rule_off(rules.drop_first(), cfg1, cfg2, ctx, name);
        if rules[0].spec_name() == name {
            assert(Seq::<DiagModel>::empty() + spec_linted_diags(rules.drop_first(), cfg2, ctx)
                =~= spec_linted_diags(rules.drop_first(), cfg2, ctx));
        } else {
            let rest = spec_without_rule(rules.drop_first(), name);
            assert((seq![rules[0]] + rest).drop_first() =~= rest);
            assert((seq![rules[0]] + rest)[0] == rules[0]);
            assert(cfg1.spec_rule_enabled(rules[0].spec_name()) == cfg2.spec_rule_enabled(
                rules[0].spec_name(),
            ));
        }
    }
}

/// A diagnostic normalized for the report: line/column endpoints derived
/// from the original text, and whether a fix was attached.
pub open spec fn spec_enrich(content: Seq<u8>, d: DiagModel) -> DiagLocModel {
    DiagLocModel {
        message: d.message,
        start_line: spec_line_col(content, d.span.start as int).0,
        start_column: spec_line_col(content, d.span.start as int).1,
        end_line: spec_line_col(content, d.span.end as int).0,
        end_column: spec_line_col(content, d.span.end as int).1,
        fix_available: d.fix is Some,
    }
}

/// The report form of each diagnostic, in order.
pub open spec fn spec_enrich_all(content: Seq<u8>, ds: Seq<DiagModel>) -> Seq<DiagLocModel>
    decreases ds.len(),
{
    if ds.len() == 0 {
        Seq::empty()
    } else {
        seq![spec_enrich(content, ds[0])] + spec_enrich_all(content, ds.drop_first())
    }
}

/// The linter engine: an ordered rule registry and the run's configuration.
pub struct Linter {
    pub rules: Vec<RegisteredRule>,
    pub config: LinterConfig,
}

impl Linter {
    /// An engine with no rules registered yet.
    pub fn new(config: LinterConfig) -> (r: Linter)
        ensures
            r.rules@.len() == 0,
            r.config == config,
    {
        Linter { rules: Vec::new(), config }
    }

    /// Register one rule; rules run in registration order.
    pub fn add_rule(&mut self, rule: RegisteredRule)
        ensures
            final(self).rules@ == old(self).rules@.push(rule),
            final(self).config == old(self).config,
    {
        self.rules.push(rule);
    }

    /// Apply the fixes carried by `diagnostics` to the original text, by
    /// descending start offset: the patched text and the count of fixes
    /// actually applied.
    pub fn apply_fixes(&self, source_file: &SourceFile, diagnostics: &Vec<Diagnostic>) -> (r: (
        Vec<u8>,
        usize,
    ))
        ensures
            r.0@ == crate::patch::spec_apply_sorted(
                source_file.original_content@,
                crate::patch::spec_sort_desc(
                    crate::patch::spec_fixes_of(diagnostics.deep_view()),
                ),
            ),
            r.1 as int == crate::patch::spec_count_applied(
                source_file.original_content@,
                crate::patch::spec_sort_desc(
                    crate::patch::spec_fixes_of(diagnostics.deep_view()),
                ),
            ),
    {
        let fixes = crate::patch::collect_fixes(diagnostics);
        let sorted = crate::patch::sort_fixes_desc(fixes);
        crate::patch::apply_fix_list(&source_file.original_content, &sorted)
    }

    /// One full analysis pass over a prepared context: run every enabled
    /// rule, optionally apply the collected fixes, and normalize the
    /// findings for the report.  Returns the result and, when fixing
    /// applied at least one fix, the patched text to persist; with nothing
    /// applied there is nothing to write back.
    #[verifier::loop_isolation(false)]
    pub fn lint_source(&self, ctx: &Context, fix: bool) -> (r: (LintResult, Option<Vec<u8>>))
        requires
            ctx.wf(),
            ctx.source_file.original_content@.len() < usize::MAX,
        ensures
            r.0.path@ == ctx.source_file.path@,
            r.0.diagnostics.deep_view() == spec_enrich_all(
                ctx.source_file.original_content@,
                spec_linted_diags(self.rules@, self.config, ctx),
            ),
            ({
                let fs = crate::patch::spec_sort_desc(
                    crate::patch::spec_fixes_of(
                        spec_linted_diags(self.rules@, self.config, ctx),
                    ),
                );
                let applied = crate::patch::spec_count_applied(
                    ctx.source_file.original_content@,
                    fs,
                );
                &&& r.0.fixed_count as int == (if fix {
                    applied
                } else {
                    0int
                })
                &&& (match r.1 {
                    Some(c) => fix && applied > 0 && c@ == crate::patch::spec_apply_sorted(
                        ctx.source_file.original_content@,
                        fs,
                    ),
                    None => !fix || applied == 0,
                })
            }),
    {
        let ghost all = self.rules@;
        let mut diagnostics: Vec<Diagnostic> = Vec::new();
        proof {
            assert(diagnostics.deep_view() =~= Seq::<DiagModel>::empty());
            assert(all.subrange(0, all.len() as int) =~= all);
            assert(diagnostics.deep_view() + spec_linted_diags(all, self.config, ctx)
                =~= spec_linted_diags(all, self.config, ctx));
        }
        let mut i: usize = 0;
        while i < self.rules.len()
            invariant
                i <= all.len(),
                spec_linted_diags(all, self.config, ctx) == diagnostics.deep_view()
                    + spec_linted_diags(
                    all.subrange(i as int, all.len() as int),
                    self.config,
                    ctx,
                ),
            decreases all.len() - i,
        {
            proof {
                assert(all.subrange(i as int, all.len() as int).drop_first() =~= all.subrange(
                    i + 1,
                    all.len() as int,
                ));
                assert(all.subrange(i as int, all.len() as int)[0] == all[i as int]);
            }
            let rule = &self.rules[i];
            let rule_name = rule.name();
            let enabled = self.config.rule_enabled(rule_name);
            if enabled {
                let mut found = rule.run(ctx);
                let ghost before = diagnostics.deep_view();
                let ghost found_model = found.deep_view();
                diagnostics.append(&mut found);
                proof {
                    assert(diagnostics.deep_view() =~= before + found_model);
                }
            } else {
                proof {
                    assert(diagnostics.deep_view() + Seq::<DiagModel>::empty()
                        =~= diagnostics.deep_view());
                }
            }
            i = i + 1;
        }
        proof {
            assert(all.subrange(all.len() as int, all.len() as int)
                =~= Seq::<RegisteredRule>::empty());
            assert(diagnostics.deep_view() + Seq::<DiagModel>::empty()
                =~= diagnostics.deep_view());
        }
        let mut fixed_count: usize = 0;
        let mut new_content: Option<Vec<u8>> = None;
        if fix {
            let (content, count) = self.apply_fixes(&ctx.source_file, &diagnostics);
            fixed_count = count;
            if count > 0 {
                new_content = Some(content);
            }
        }
        let ghost dv = diagnostics.deep_view();
        let mut enriched: Vec<DiagnosticWithLocation> = Vec::new();
        proof {
            assert(enriched.deep_view() =~= Seq::<DiagLocModel>::empty());
            assert(dv.subrange(0, dv.len() as int) =~= dv);
            assert(enriched.deep_view() + spec_enrich_all(ctx.source_file.original_content@, dv)
                =~= spec_enrich_all(ctx.source_file.original_content@, dv));
        }
        let mut j: usize = 0;
        while j < diagnostics.len()
            invariant
                j <= dv.len(),
                spec_enrich_all(ctx.source_file.original_content@, dv) == enriched.deep_view()
                    + spec_enrich_all(
                    ctx.source_file.original_content@,
                    dv.subrange(j as int, dv.len() as int),
                ),
            decreases dv.len() - j,
        {
            proof {
                assert(dv.subrange(j as int, dv.len() as int).drop_first() =~= dv.subrange(
                    j + 1,
                    dv.len() as int,
                ));
                assert(dv.subrange(j as int, dv.len() as int)[0] == dv[j as int]);
            }
            let d = &diagnostics[j];
            let (start_line, start_column) = get_line_col(
                &ctx.source_file.original_content,
                d.span.start as usize,
            );
            let (end_line, end_column) = get_line_col(
                &ctx.source_file.original_content,
                d.span.end as usize,
            );
            let fix_available = match &d.fix {
                Some(_) => true,
                None => false,
            };
            let e = DiagnosticWithLocation {
                message: d.message.clone(),
                start_line,
                start_column,
                end_line,
                end_column,
                fix_available,
            };
            let ghost before = enriched.deep_view();
            enriched.push(e);
            proof {
                assert(e@ =~~= spec_enrich(ctx.source_file.original_content@, dv[j as int]));
                assert(enriched.deep_view() =~= before + seq![e@]);
            }
            j = j + 1;
        }
        proof {
            assert(dv.subrange(dv.len() as int, dv.len() as int) =~= Seq::<DiagModel>::empty());
            assert(enriched.deep_view() + Seq::<DiagLocModel>::empty() =~= enriched.deep_view());
        }
        let result = LintResult {
            path: ctx.source_file.path.clone(),
            diagnostics: enriched,
            fixed_count,
        };
        (result, new_content)
    }
}


} // verus!
