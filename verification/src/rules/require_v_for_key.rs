//! Flags start tags that iterate with `v-for` but bind no `:key` or
//! `v-bind:key` attribute.

use vstd::prelude::*;
use vstd::string::*;
use crate::linter::{Context, DiagModel, Diagnostic, Rule};
use crate::span::Span;
use crate::template_parser::{attrs_contains, has_attr, TemplateToken, TokenModel};

verus! {

pub struct RequireVForKey;

/// A start tag needs a key when it has `v-for` and neither `:key` nor
/// `v-bind:key`.
pub open spec fn spec_needs_key(attributes: Seq<crate::template_parser::AttributeModel>) -> bool {
    has_attr(attributes, "v-for".spec_bytes()) && !has_attr(attributes, ":key".spec_bytes())
        && !has_attr(attributes, "v-bind:key".spec_bytes())
}

/// The findings this analysis reports for one token.
pub open spec fn spec_vfor_token_diags(t: TokenModel, off: int) -> Seq<DiagModel> {
    match t {
        TokenModel::StartTag { attributes, span, .. } => if spec_needs_key(attributes) {
            seq![
                DiagModel {
                    message: "Elements in iteration expect to have 'v-bind:key' directives."@,
                    span: Span { start: (span.start + off) as u32, end: (span.end + off) as u32 },
                    fix: None,
                },
            ]
        } else {
            Seq::empty()
        },
        _ => Seq::empty(),
    }
}

/// The findings for a token sequence, in emission order.
pub open spec fn spec_vfor_diags(ts: Seq<TokenModel>, off: int) -> Seq<DiagModel>
    decreases ts.len(),
{
    if ts.len() == 0 {
        Seq::empty()
    } else {
        spec_vfor_token_diags(ts[0], off) + spec_vfor_diags(ts.drop_first(), off)
    }
}

impl Rule for RequireVForKey {
    open spec fn spec_name(&self) -> Seq<char> {
        "vue/require-v-for-key"@
    }

    open spec fn spec_diags(&self, ctx: &Context) -> Seq<DiagModel> {
        match ctx.template_tokens {
            Some(ts) => spec_vfor_diags(
                ts.deep_view(),
                ctx.source_file.template_start_offset as int,
            ),
            None => Seq::empty(),
        }
    }

    fn name(&self) -> (r: &'static str) {
        "vue/require-v-for-key"
    }

    #[verifier::loop_isolation(false)]
    fn run(&self, ctx: &Context) -> (r: Vec<Diagnostic>) {
        let mut diagnostics: Vec<Diagnostic> = Vec::new();
        proof {
            assert(diagnostics.deep_view() =~= Seq::<DiagModel>::empty());
        }
        match &ctx.template_tokens {
            Some(tokens) => {
                let ghost all = tokens.deep_view();
                let ghost off = ctx.source_file.template_start_offset as int;
                proof {
                    assert(all.subrange(0, all.len() as int) =~= all);
                    assert(diagnostics.deep_view() + spec_vfor_diags(all, off) =~= spec_vfor_diags(
                        all,
                        off,
                    ));
                }
                let mut i: usize = 0;
                while i < tokens.len()
                    invariant
                        i <= all.len(),
                        spec_vfor_diags(all, off) == diagnostics.deep_view() + spec_vfor_diags(
                            all.subrange(i as int, all.len() as int),
                            off,
                        ),
                    decreases all.len() - i,
                {
                    proof {
                        assert(all.subrange(i as int, all.len() as int).drop_first()
                            =~= all.subrange(i + 1, all.len() as int));
                        assert(all.subrange(i as int, all.len() as int)[0] == all[i as int]);
                    }
                    match &tokens[i] {
                        TemplateToken::StartTag { attributes, span, .. } => {
                            let has_v_for = attrs_contains(attributes, "v-for".as_bytes());
                            let has_key = attrs_contains(attributes, ":key".as_bytes())
                                || attrs_contains(attributes, "v-bind:key".as_bytes());
                            if has_v_for && !has_key {
                                let o: u32 = ctx.source_file.template_start_offset as u32;
                                let d = Diagnostic {
                                    message: String::from_str(
                                        "Elements in iteration expect to have 'v-bind:key' directives.",
                                    ),
                                    span: Span { start: span.start + o, end: span.end + o },
                                    fix: None,
                                };
                                let ghost before = diagnostics.deep_view();
                                diagnostics.push(d);
                                proof {
                                    assert(diagnostics.deep_view() =~= before.push(d@));
                                    assert(spec_vfor_token_diags(all[i as int], off) =~= seq![d@]);
                                    assert(before.push(d@) =~= before + seq![d@]);
                                }
                            } else {
                                proof {
                                    assert(spec_vfor_token_diags(all[i as int], off)
                                        =~= Seq::<DiagModel>::empty());
                                    assert(diagnostics.deep_view() + Seq::<DiagModel>::empty()
                                        =~= diagnostics.deep_view());
                                }
                            }
                        },
                        _ => {
                            proof {
                                assert(spec_vfor_token_diags(all[i as int], off)
                                    =~= Seq::<DiagModel>::empty());
                                assert(diagnostics.deep_view() + Seq::<DiagModel>::empty()
                                    =~= diagnostics.deep_view());
                            }
                        },
                    }
                    i = i + 1;
                }
                proof {
                    assert(all.subrange(all.len() as int, all.len() as int)
                        =~= Seq::<TokenModel>::empty());
                    assert(diagnostics.deep_view() + Seq::<DiagModel>::empty()
                        =~= diagnostics.deep_view());
                }
            },
            None => {},
        }
        diagnostics
    }
}

} // verus!
