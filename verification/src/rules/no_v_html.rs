//! Flags start tags carrying a `v-html` attribute, which can inject markup.

use vstd::prelude::*;
use vstd::string::*;
use crate::linter::{Context, DiagModel, Diagnostic, Rule};
use crate::span::Span;
use crate::template_parser::{attrs_contains, has_attr, TokenModel};

verus! {

pub struct NoVHtml;

/// The findings this analysis reports for one token.
pub open spec fn spec_vhtml_token_diags(t: TokenModel, off: int) -> Seq<DiagModel> {
    match t {
        TokenModel::StartTag { attributes, span, .. } => if has_attr(
            attributes,
            "v-html".spec_bytes(),
        ) {
            seq![
                DiagModel {
                    message: "Do not use `v-html` to prevent XSS."@,
                    span: Span { start: (span.start + off) as u32, end: (span.end + off) as u32 },
                    fix: None,
                },
            ]
        } else {
            Seq::empty()
        },
        _ => Seq::empty(),
    }
}

/// The findings for a token sequence, in emission order.
pub open spec fn spec_vhtml_diags(ts: Seq<TokenModel>, off: int) -> Seq<DiagModel>
    decreases ts.len(),
{
    if ts.len() == 0 {
        Seq::empty()
    } else {
        spec_vhtml_token_diags(ts[0], off) + spec_vhtml_diags(ts.drop_first(), off)
    }
}

impl Rule for NoVHtml {
    open spec fn spec_name(&self) -> Seq<char> {
        "vue/no-v-html"@
    }

    open spec fn spec_diags(&self, ctx: &Context) -> Seq<DiagModel> {
        match ctx.template_tokens {
            Some(ts) => spec_vhtml_diags(
                ts.deep_view(),
                ctx.source_file.template_start_offset as int,
            ),
            None => Seq::empty(),
        }
    }

    fn name(&self) -> (r: &'static str) {
        "vue/no-v-html"
    }

    #[verifier::loop_isolation(false)]
    fn run(&self, ctx: &Context) -> (r: Vec<Diagnostic>) {
        let mut diagnostics: Vec<Diagnostic> = Vec::new();
        proof {
            assert(diagnostics.deep_view() =~= Seq::<DiagModel>::empty());
        }
        match &ctx.template_tokens {
            Some(tokens) => {
                let ghost all = tokens.deep_view();
                let ghost off = ctx.source_file.template_start_offset as int;
                proof {
                    assert(all.subrange(0, all.len() as int) =~= all);
                    assert(diagnostics.deep_view() + spec_vhtml_diags(all, off) =~= spec_vhtml_diags(
                        all,
                        off,
                    ));
                }
                let mut i: usize = 0;
                while i < tokens.len()
                    invariant
                        i <= all.len(),
                        spec_vhtml_diags(all, off) == diagnostics.deep_view() + spec_vhtml_diags(
                            all.subrange(i as int, all.len() as int),
                            off,
                        ),
                    decreases all.len() - i,
                {
                    proof {
                        assert(all.subrange(i as int, all.len() as int).drop_first()
                            =~= all.subrange(i + 1, all.len() as int));
                        assert(all.subrange(i as int, all.len() as int)[0] == all[i as int]);
                    }
                    match &tokens[i] {
                        crate::template_parser::TemplateToken::StartTag {
                            attributes,
                            span,
                            ..
                        } => {
                            if attrs_contains(attributes, "v-html".as_bytes()) {
                                let o: u32 = ctx.source_file.template_start_offset as u32;
                                let d = Diagnostic {
                                    message: String::from_str("Do not use `v-html` to prevent XSS."),
                                    span: Span { start: span.start + o, end: span.end + o },
                                    fix: None,
                                };
                                let ghost before = diagnostics.deep_view();
                                diagnostics.push(d);
                                proof {
                                    assert(diagnostics.deep_view() =~= before.push(d@));
                                    assert(spec_vhtml_token_diags(all[i as int], off) =~= seq![d@]);
                                    assert(before.push(d@) =~= before + seq![d@]);
                                }
                            } else {
                                proof {
                                    assert(spec_vhtml_token_diags(all[i as int], off)
                                        =~= Seq::<DiagModel>::empty());
                                    assert(diagnostics.deep_view() + Seq::<DiagModel>::empty()
                                        =~= diagnostics.deep_view());
                                }
                            }
                        },
                        _ => {
                            proof {
                                assert(spec_vhtml_token_diags(all[i as int], off)
                                    =~= Seq::<DiagModel>::empty());
                                assert(diagnostics.deep_view() + Seq::<DiagModel>::empty()
                                    =~= diagnostics.deep_view());
                            }
                        },
                    }
                    i = i + 1;
                }
                proof {
                    assert(all.subrange(all.len() as int, all.len() as int)
                        =~= Seq::<TokenModel>::empty());
                    assert(diagnostics.deep_view() + Seq::<DiagModel>::empty()
                        =~= diagnostics.deep_view());
                }
            },
            None => {},
        }
        diagnostics
    }
}

} // verus!
