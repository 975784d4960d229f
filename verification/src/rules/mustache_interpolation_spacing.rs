//! Flags `{{…}}` interpolations in template text runs whose inner text is not
//! exactly one space, the trimmed expression, and one space, and offers the
//! respaced form.
//!
//! A match is a `{{`, the shortest following run of non-newline bytes, and a
//! `}}`; scanning resumes after each match, so matches never overlap.

use vstd::prelude::*;
use vstd::string::*;
use crate::bytes::{bytes_eq, push_bytes};
use crate::extract::copy_range;
use crate::linter::{Context, DiagModel, Diagnostic, Fix, FixModel, Rule};
use crate::span::Span;
use crate::template_parser::{TemplateToken, TokenModel};

verus! {

/// An ASCII whitespace byte, the class trimming removes.
pub open spec fn spec_is_ws(b: u8) -> bool {
    b == 32 || b == 9 || b == 10 || b == 11 || b == 12 || b == 13
}

/// `s` without its leading whitespace.
pub open spec fn spec_trim_start(s: Seq<u8>) -> Seq<u8>
    decreases s.len(),
{
    if s.len() > 0 && spec_is_ws(s[0]) {
        spec_trim_start(s.drop_first())
    } else {
        s
    }
}

/// `s` without its trailing whitespace.
pub open spec fn spec_trim_end(s: Seq<u8>) -> Seq<u8>
    decreases s.len(),
{
    if s.len() > 0 && spec_is_ws(s.last()) {
        spec_trim_end(s.drop_last())
    } else {
        s
    }
}

/// `s` without leading and trailing whitespace.
pub open spec fn spec_trim(s: Seq<u8>) -> Seq<u8> {
    spec_trim_end(spec_trim_start(s))
}

/// `t` framed by exactly one space on each side.
pub open spec fn spec_spaced(t: Seq<u8>) -> Seq<u8> {
    seq![32u8] + t + seq![32u8]
}

/// The least inner length `kk >= k` such that `}}` follows the inner text at
/// `p + 2 + kk`, every inner byte being non-newline; `None` when a newline or
/// the end of the text intervenes.
pub open spec fn spec_scan_close(s: Seq<u8>, p: int, k: int) -> Option<int>
    decreases s.len() - (p + k),
{
    if p + k + 4 > s.len() {
        None
    } else if s[p + 2 + k] == 125 && s[p + 3 + k] == 125 {
        Some(k)
    } else if s[p + 2 + k] == 10 {
        None
    } else {
        spec_scan_close(s, p, k + 1)
    }
}

/// What a found inner length guarantees.
pub proof fn lemma_scan_close_props(s: Seq<u8>, p: int, k: int)
    ensures
        match spec_scan_close(s, p, k) {
            Some(kk) => k <= kk && p + kk + 4 <= s.len(),
            None => true,
        },
    decreases s.len() - (p + k),
{
    if p + k + 4 > s.len() {
    } else if s[p + 2 + k] == 125 && s[p + 3 + k] == 125 {
    } else if s[p + 2 + k] == 10 {
    } else {
        lemma_scan_close_props(s, p, k + 1);
    }
}

/// The finding for one badly spaced interpolation: the match begins at byte
/// `p` of a text run anchored at `tstart` in the template, whose anchor in
/// the original document is `off`; the inner text has length `k` and trims
/// to `t`.
pub open spec fn spec_mustache_diag(tstart: int, p: int, k: int, t: Seq<u8>, off: int) -> DiagModel {
    let abs = Span {
        start: (tstart + p + off) as u32,
        end: (tstart + p + k + 4 + off) as u32,
    };
    DiagModel {
        message: "Mustache interpolation should have spacing."@,
        span: abs,
        fix: Some(
            FixModel { span: abs, replacement: "{{ ".spec_bytes() + t + " }}".spec_bytes() },
        ),
    }
}

/// The findings inside one text run from byte `i` on: each match whose inner
/// text trims non-empty and is not exactly single-space-framed is reported;
/// scanning resumes after the match either way.
pub open spec fn spec_mustache_content_diags(s: Seq<u8>, tstart: int, off: int, i: int) -> Seq<
    DiagModel,
>
    decreases s.len() - i,
    when 0 <= i
    via spec_mustache_content_diags_dec
{
    if i + 4 > s.len() {
        Seq::empty()
    } else if s[i] == 123 && s[i + 1] == 123 && spec_scan_close(s, i, 0) is Some {
        let k = spec_scan_close(s, i, 0)->0;
        let inner = s.subrange(i + 2, i + 2 + k);
        let t = spec_trim(inner);
        (if t.len() > 0 && inner != spec_spaced(t) {
            seq![spec_mustache_diag(tstart, i, k, t, off)]
        } else {
            Seq::empty()
        }) + spec_mustache_content_diags(s, tstart, off, i + k + 4)
    } else {
        spec_mustache_content_diags(s, tstart, off, i + 1)
    }
}

#[via_fn]
proof fn spec_mustache_content_diags_dec(s: Seq<u8>, tstart: int, off: int, i: int) {
    lemma_scan_close_props(s, i, 0);
}

/// The findings this analysis reports for one token.
pub open spec fn spec_mustache_token_diags(t: TokenModel, off: int) -> Seq<DiagModel> {
    match t {
        TokenModel::String { content, span } => spec_mustache_content_diags(
            content,
            span.start as int,
            off,
            0,
        ),
        _ => Seq::empty(),
    }
}

/// The findings for a token sequence, in emission order.
pub open spec fn spec_mustache_diags(ts: Seq<TokenModel>, off: int) -> Seq<DiagModel>
    decreases ts.len(),
{
    if ts.len() == 0 {
        Seq::empty()
    } else {
        spec_mustache_token_diags(ts[0], off) + spec_mustache_diags(ts.drop_first(), off)
    }
}

/// The least inner length closing a match that begins at `p`, as
/// [`spec_scan_close`] describes it.
fn scan_close(s: &Vec<u8>, p: usize) -> (r: Option<usize>)
    requires
        p <= s@.len(),
    ensures
        match r {
            Some(k) => Some(k as int) == spec_scan_close(s@, p as int, 0) && p + k + 4 <= s@.len(),
            None => spec_scan_close(s@, p as int, 0) is None,
        },
{
    let mut k: usize = 0;
    loop
        invariant
            p + k <= s@.len(),
            spec_scan_close(s@, p as int, 0) == spec_scan_close(s@, p as int, k as int),
        decreases s@.len() - (p + k),
    {
        if s.len() - p - k < 4 {
            assert(spec_scan_close(s@, p as int, k as int) is None);
            return None;
        }
        let b2 = s[p + 2 + k];
        let b3 = s[p + 3 + k];
        if b2 == 125 && b3 == 125 {
            return Some(k);
        }
        if b2 == 10 {
            assert(spec_scan_close(s@, p as int, k as int) is None);
            return None;
        }
        proof {
            assert(spec_scan_close(s@, p as int, k as int) == spec_scan_close(
                s@,
                p as int,
                k + 1,
            ));
        }
        k = k + 1;
    }
}

/// Whether `b` is ASCII whitespace.
fn is_ws_byte(b: u8) -> (r: bool)
    ensures
        r == spec_is_ws(b),
{
    b == 32 || b == 9 || b == 10 || b == 11 || b == 12 || b == 13
}

/// Trimming bounds: `v[r.0 .. r.1)` is `v` without its leading and trailing
/// whitespace.
fn trim_bounds(v: &Vec<u8>) -> (r: (usize, usize))
    ensures
        r.0 <= r.1 <= v@.len(),
        spec_trim(v@) == v@.subrange(r.0 as int, r.1 as int),
{
    let mut lo: usize = 0;
    while lo < v.len() && is_ws_byte(v[lo])
        invariant
            lo <= v@.len(),
            forall|j: int| 0 <= j < lo ==> spec_is_ws(v@[j]),
        decreases v@.len() - lo,
    {
        lo = lo + 1;
    }
    let mut hi: usize = v.len();
    while hi > lo && is_ws_byte(v[hi - 1])
        invariant
            lo <= hi <= v@.len(),
            forall|j: int| 0 <= j < lo ==> spec_is_ws(v@[j]),
            forall|j: int| hi <= j < v@.len() ==> spec_is_ws(v@[j]),
        decreases hi,
    {
        hi = hi - 1;
    }
    proof {
        lemma_trim_start_at(v@, lo as int);
        let stripped = v@.subrange(lo as int, v@.len() as int);
        lemma_trim_end_at(stripped, hi - lo);
        assert(stripped.subrange(0, hi - lo) =~= v@.subrange(lo as int, hi as int));
    }
    (lo, hi)
}

/// When the first `lo` bytes are whitespace and byte `lo` (if any) is not,
/// trimming the start keeps exactly the bytes from `lo` on.
proof fn lemma_trim_start_at(s: Seq<u8>, lo: int)
    requires
        0 <= lo <= s.len(),
        forall|j: int| 0 <= j < lo ==> spec_is_ws(s[j]),
        lo < s.len() ==> !spec_is_ws(s[lo]),
    ensures
        spec_trim_start(s) == s.subrange(lo, s.len() as int),
    decreases lo,
{
    if lo == 0 {
        if s.len() > 0 && spec_is_ws(s[0]) {
            assert(false);
        }
        assert(s.subrange(0, s.len() as int) =~= s);
    } else {
        lemma_trim_start_at(s.drop_first(), lo - 1);
        assert(s.drop_first().subrange(lo - 1, s.drop_first().len() as int) =~= s.subrange(
            lo,
            s.len() as int,
        ));
    }
}

/// When every byte from `hi` on is whitespace and byte `hi - 1` (if any) is
/// not, trimming the end keeps exactly the first `hi` bytes.
proof fn lemma_trim_end_at(s: Seq<u8>, hi: int)
    requires
        0 <= hi <= s.len(),
        forall|j: int| hi <= j < s.len() ==> spec_is_ws(s[j]),
        hi > 0 ==> !spec_is_ws(s[hi - 1]),
    ensures
        spec_trim_end(s) == s.subrange(0, hi),
    decreases s.len() - hi,
{
    if hi == s.len() {
        if s.len() > 0 && spec_is_ws(s.last()) {
            assert(false);
        }
        assert(s.subrange(0, s.len() as int) =~= s);
    } else {
        lemma_trim_end_at(s.drop_last(), hi);
        assert(s.drop_last().subrange(0, hi) =~= s.subrange(0, hi));
    }
}

pub struct MustacheInterpolationSpacing;

impl Rule for MustacheInterpolationSpacing {
    open spec fn spec_name(&self) -> Seq<char> {
        "vue/mustache-interpolation-spacing"@
    }

    open spec fn spec_diags(&self, ctx: &Context) -> Seq<DiagModel> {
        match ctx.template_tokens {
            Some(ts) => spec_mustache_diags(
                ts.deep_view(),
                ctx.source_file.template_start_offset as int,
            ),
            None => Seq::empty(),
        }
    }

    fn name(&self) -> (r: &'static str) {
        "vue/mustache-interpolation-spacing"
    }

    #[verifier::loop_isolation(false)]
    fn run(&self, ctx: &Context) -> (r: Vec<Diagnostic>) {
        let mut diagnostics: Vec<Diagnostic> = Vec::new();
        proof {
            assert(diagnostics.deep_view() =~= Seq::<DiagModel>::empty());
        }
        match &ctx.template_tokens {
            Some(tokens) => {
                let ghost all = tokens.deep_view();
                let ghost off = ctx.source_file.template_start_offset as int;
                proof {
                    assert(all.subrange(0, all.len() as int) =~= all);
                    assert(diagnostics.deep_view() + spec_mustache_diags(all, off)
                        =~= spec_mustache_diags(all, off));
                }
                let mut ti: usize = 0;
                while ti < tokens.len()
                    invariant
                        ti <= all.len(),
                        spec_mustache_diags(all, off) == diagnostics.deep_view()
                            + spec_mustache_diags(
                            all.subrange(ti as int, all.len() as int),
                            off,
                        ),
                    decreases all.len() - ti,
                {
                    proof {
                        assert(all.subrange(ti as int, all.len() as int).drop_first()
                            =~= all.subrange(ti + 1, all.len() as int));
                        assert(all.subrange(ti as int, all.len() as int)[0] == all[ti as int]);
                    }
                    match &tokens[ti] {
                        TemplateToken::String { content, span } => {
                            let ghost target = spec_mustache_token_diags(all[ti as int], off);
                            let ghost base = diagnostics.deep_view();
                            let ghost tstart = span.start as int;
                            proof {
                                assert(all[ti as int] == tokens@[ti as int]@);
                                assert(crate::template_parser::token_wf(
                                    all[ti as int],
                                    ctx.source_file.template_content@.len() as nat,
                                ));
                                assert(span.start + content@.len()
                                    <= ctx.source_file.template_content@.len());
                            }
                            let mut i: usize = 0;
                            while content.len() >= 4 && i <= content.len() - 4
                                invariant
                                    i <= content@.len(),
                                    base + spec_mustache_content_diags(content@, tstart, off, 0)
                                        == diagnostics.deep_view()
                                        + spec_mustache_content_diags(
                                        content@,
                                        tstart,
                                        off,
                                        i as int,
                                    ),
                                decreases content@.len() - i,
                            {
                                if content[i] == 123 && content[i + 1] == 123 {
                                    match scan_close(content, i) {
                                        Some(k) => {
                                            let inner = copy_range(content, i + 2, i + 2 + k);
                                            let (lo, hi) = trim_bounds(&inner);
                                            let trimmed = copy_range(&inner, lo, hi);
                                            let ghost mid = diagnostics.deep_view();
                                            if hi > lo {
                                                let mut expected: Vec<u8> = Vec::new();
                                                expected.push(32);
                                                push_bytes(&mut expected, trimmed.as_slice());
                                                expected.push(32);
                                                proof {
                                                    assert(expected@ =~= spec_spaced(trimmed@));
                                                }
                                                if !bytes_eq(
                                                    inner.as_slice(),
                                                    expected.as_slice(),
                                                ) {
                                                    let o: u32 =
                                                        ctx.source_file.template_start_offset
                                                        as u32;
                                                    let abs = Span {
                                                        start: span.start + (i as u32) + o,
                                                        end: span.start + ((i + k + 4) as u32)
                                                            + o,
                                                    };
                                                    let mut replacement: Vec<u8> = Vec::new();
                                                    push_bytes(&mut replacement, "{{ ".as_bytes());
                                                    push_bytes(
                                                        &mut replacement,
                                                        trimmed.as_slice(),
                                                    );
                                                    push_bytes(&mut replacement, " }}".as_bytes());
                                                    let d = Diagnostic {
                                                        message: String::from_str(
                                                            "Mustache interpolation should have spacing.",
                                                        ),
                                                        span: abs,
                                                        fix: Some(
                                                            Fix { span: abs, replacement },
                                                        ),
                                                    };
                                                    diagnostics.push(d);
                                                    proof {
                                                        assert(d@ =~~= spec_mustache_diag(
                                                            tstart,
                                                            i as int,
                                                            k as int,
                                                            trimmed@,
                                                            off,
                                                        ));
                                                        assert(diagnostics.deep_view() =~= mid
                                                            + seq![d@]);
                                                    }
                                                } else {
                                                    proof {
                                                        assert(diagnostics.deep_view()
                                                            + Seq::<DiagModel>::empty()
                                                            =~= diagnostics.deep_view());
                                                    }
                                                }
                                            } else {
                                                proof {
                                                    assert(spec_trim(inner@).len() == 0);
                                                    assert(diagnostics.deep_view()
                                                        + Seq::<DiagModel>::empty()
                                                        =~= diagnostics.deep_view());
                                                }
                                            }
                                            i = i + k + 4;
                                        },
                                        None => {
                                            i = i + 1;
                                        },
                                    }
                                } else {
                                    i = i + 1;
                                }
                            }
                            proof {
                                assert(spec_mustache_content_diags(content@, tstart, off, i as int)
                                    =~= Seq::<DiagModel>::empty());
                                assert(diagnostics.deep_view() + Seq::<DiagModel>::empty()
                                    =~= diagnostics.deep_view());
                                assert(diagnostics.deep_view() =~= base + target);
                            }
                        },
                        _ => {
                            proof {
                                assert(spec_mustache_token_diags(all[ti as int], off)
                                    =~= Seq::<DiagModel>::empty());
                                assert(diagnostics.deep_view() + Seq::<DiagModel>::empty()
                                    =~= diagnostics.deep_view());
                            }
                        },
                    }
                    ti = ti + 1;
                }
                proof {
                    assert(all.subrange(all.len() as int, all.len() as int)
                        =~= Seq::<TokenModel>::empty());
                    assert(diagnostics.deep_view() + Seq::<DiagModel>::empty()
                        =~= diagnostics.deep_view());
                }
            },
            None => {},
        }
        diagnostics
    }
}

} // verus!
