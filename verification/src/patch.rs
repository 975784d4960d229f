//! Patch engine: collect the fixes the diagnostics carry, order them by
//! descending start offset, and apply them right to left against one copy of
//! the original text, so that the offsets of fixes not yet applied stay
//! valid while the text changes length.

use vstd::prelude::*;
use vstd::multiset::Multiset;
use crate::bytes::push_bytes;
use crate::extract::copy_range;
use crate::linter::{DiagModel, Diagnostic, Fix, FixModel};

verus! {

broadcast use vstd::seq_lib::group_to_multiset_ensures;

/// The fixes the diagnostics carry, in diagnostic order.
pub open spec fn spec_fixes_of(ds: Seq<DiagModel>) -> Seq<FixModel>
    decreases ds.len(),
{
    if ds.len() == 0 {
        Seq::empty()
    } else {
        (match ds[0].fix {
            Some(f) => seq![f],
            None => Seq::empty(),
        }) + spec_fixes_of(ds.drop_first())
    }
}

/// Ordered by non-increasing start offset.
pub open spec fn spec_sorted_desc(fs: Seq<FixModel>) -> bool {
    forall|i: int, j: int| 0 <= i < j < fs.len() ==> fs[i].span.start >= fs[j].span.start
}

/// Insert `f` into the descending-sorted `s`, before the first entry whose
/// start does not exceed `f`'s.
pub open spec fn spec_insert_desc(f: FixModel, s: Seq<FixModel>) -> Seq<FixModel>
    decreases s.len(),
{
    if s.len() == 0 {
        seq![f]
    } else if f.span.start >= s[0].span.start {
        seq![f] + s
    } else {
        seq![s[0]] + spec_insert_desc(f, s.drop_first())
    }
}

/// Sort by descending start offset.  The order of entries with equal starts
/// is deterministic but arbitrary.
pub open spec fn spec_sort_desc(s: Seq<FixModel>) -> Seq<FixModel>
    decreases s.len(),
{
    if s.len() == 0 {
        s
    } else {
        spec_insert_desc(s[0], spec_sort_desc(s.drop_first()))
    }
}

/// The fix's range lies inside a text of length `len`.  A fix whose span is
/// inverted or reaches past the end is out of range and skipped.
pub open spec fn spec_fix_applies(f: FixModel, len: nat) -> bool {
    f.span.start <= f.span.end && f.span.end <= len
}

/// One replace-range operation: the bytes of `f.span` give way to
/// `f.replacement`; an out-of-range fix leaves the text unchanged.
pub open spec fn spec_apply_one(text: Seq<u8>, f: FixModel) -> Seq<u8> {
    if spec_fix_applies(f, text.len()) {
        text.subrange(0, f.span.start as int) + f.replacement + text.subrange(
            f.span.end as int,
            text.len() as int,
        )
    } else {
        text
    }
}

/// Apply the fixes front to back, each against the text the earlier ones
/// produced.
pub open spec fn spec_apply_sorted(text: Seq<u8>, fs: Seq<FixModel>) -> Seq<u8>
    decreases fs.len(),
{
    if fs.len() == 0 {
        text
    } else {
        spec_apply_sorted(spec_apply_one(text, fs[0]), fs.drop_first())
    }
}

/// How many of the fixes were in range when their turn came.
pub open spec fn spec_count_applied(text: Seq<u8>, fs: Seq<FixModel>) -> int
    decreases fs.len(),
{
    if fs.len() == 0 {
        0int
    } else {
        (if spec_fix_applies(fs[0], text.len()) {
            1int
        } else {
            0int
        }) + spec_count_applied(spec_apply_one(text, fs[0]), fs.drop_first())
    }
}

/// Appending one fix to the schedule applies it last.
pub proof fn lemma_apply_snoc(text: Seq<u8>, s: Seq<FixModel>, f: FixModel)
    ensures
        spec_apply_sorted(text, s.push(f)) == spec_apply_one(spec_apply_sorted(text, s), f),
        spec_count_applied(text, s.push(f)) == spec_count_applied(text, s) + (
        if spec_fix_applies(f, spec_apply_sorted(text, s).len()) {
            1int
        } else {
            0int
        }),
    decreases s.len(),
{
    let p = s.push(f);
    assert(p.len() == s.len() + 1);
    if s.len() == 0 {
        assert(p[0] == f);
        assert(p.drop_first() =~= Seq::<FixModel>::empty());
        assert(spec_apply_sorted(text, p) == spec_apply_sorted(spec_apply_one(text, f), p.drop_first()));
        assert(spec_apply_sorted(spec_apply_one(text, f), p.drop_first()) == spec_apply_one(text, f));
        assert(spec_apply_sorted(text, s) == text);
        assert(spec_count_applied(text, p) == (if spec_fix_applies(f, text.len()) { 1int } else { 0int }) + spec_count_applied(spec_apply_one(text, f), p.drop_first()));
        assert(spec_count_applied(spec_apply_one(text, f), p.drop_first()) == 0);
        assert(spec_count_applied(text, s) == 0);
    } else {
        let text1 = spec_apply_one(text, s[0]);
        lemma_apply_snoc(text1, s.drop_first(), f);
        assert(p[0] == s[0]);
        assert(p.drop_first() =~= s.drop_first().push(f));
        assert(spec_apply_sorted(text, p) == spec_apply_sorted(text1, p.drop_first()));
        assert(spec_apply_sorted(text1, s.drop_first().push(f)) == spec_apply_one(
            spec_apply_sorted(text1, s.drop_first()),
            f,
        ));
        assert(spec_apply_sorted(text, s) == spec_apply_sorted(text1, s.drop_first()));
        assert(spec_count_applied(text, p) == (if spec_fix_applies(s[0], text.len()) { 1int } else { 0int }) + spec_count_applied(text1, p.drop_first()));
        assert(spec_count_applied(text, s) == (if spec_fix_applies(s[0], text.len()) { 1int } else { 0int }) + spec_count_applied(text1, s.drop_first()));
    }
}

/// Cloning a fix preserves its model.
fn clone_fix(f: &Fix) -> (r: Fix)
    ensures
        r@ == f@,
{
    Fix {
        span: f.span,
        replacement: copy_range(&f.replacement, 0, f.replacement.len()),
    }
}

/// Collect the fixes the diagnostics carry, in diagnostic order.
#[verifier::loop_isolation(false)]
pub fn collect_fixes(diagnostics: &Vec<Diagnostic>) -> (r: Vec<Fix>)
    ensures
        r.deep_view() == spec_fixes_of(diagnostics.deep_view()),
{
    let mut r: Vec<Fix> = Vec::new();
    let ghost all = diagnostics.deep_view();
    proof {
        assert(r.deep_view() =~= Seq::<FixModel>::empty());
        assert(all.subrange(0, all.len() as int) =~= all);
        assert(r.deep_view() + spec_fixes_of(all) =~= spec_fixes_of(all));
    }
    let mut i: usize = 0;
    while i < diagnostics.len()
        invariant
            i <= all.len(),
            spec_fixes_of(all) == r.deep_view() + spec_fixes_of(
                all.subrange(i as int, all.len() as int),
            ),
        decreases all.len() - i,
    {
        proof {
            assert(all.subrange(i as int, all.len() as int).drop_first() =~= all.subrange(
                i + 1,
                all.len() as int,
            ));
            assert(all.subrange(i as int, all.len() as int)[0] == all[i as int]);
        }
        match &diagnostics[i].fix {
            Some(f) => {
                let ghost before = r.deep_view();
                let c = clone_fix(f);
                r.push(c);
                proof {
                    assert(all[i as int].fix == Some(f@));
                    assert(r.deep_view() =~= before + seq![f@]);
                }
            },
            None => {
                proof {
                    assert(all[i as int].fix is None);
                    assert(r.deep_view() + Seq::<FixModel>::empty() =~= r.deep_view());
                }
            },
        }
        i = i + 1;
    }
    proof {
        assert(all.subrange(all.len() as int, all.len() as int) =~= Seq::<DiagModel>::empty());
        assert(r.deep_view() + Seq::<FixModel>::empty() =~= r.deep_view());
    }
    r
}

/// When the first `idx` entries start strictly above `f` and entry `idx`
/// (if any) does not, inserting `f` lands exactly at `idx`.
proof fn lemma_insert_desc_at(f: FixModel, s: Seq<FixModel>, idx: int)
    requires
        0 <= idx <= s.len(),
        forall|j: int| 0 <= j < idx ==> s[j].span.start > f.span.start,
        idx < s.len() ==> f.span.start >= s[idx].span.start,
    ensures
        spec_insert_desc(f, s) == s.subrange(0, idx).push(f) + s.subrange(idx, s.len() as int),
    decreases idx,
{
    if idx == 0 {
        if s.len() == 0 {
            assert(spec_insert_desc(f, s) =~= s.subrange(0, 0).push(f) + s.subrange(
                0,
                s.len() as int,
            ));
        } else {
            assert(seq![f] + s =~= s.subrange(0, 0).push(f) + s.subrange(0, s.len() as int));
        }
    } else {
        lemma_insert_desc_at(f, s.drop_first(), idx - 1);
        assert(s.drop_first().subrange(0, idx - 1) =~= s.subrange(1, idx));
        assert(s.drop_first().subrange(idx - 1, s.drop_first().len() as int) =~= s.subrange(
            idx,
            s.len() as int,
        ));
        assert(seq![s[0]] + (s.subrange(1, idx).push(f) + s.subrange(idx, s.len() as int))
            =~= s.subrange(0, idx).push(f) + s.subrange(idx, s.len() as int));
    }
}

/// Insert one fix into a vector ordered by descending start offset.
#[verifier::loop_isolation(false)]
fn insert_fix_desc(f: Fix, sorted: &mut Vec<Fix>)
    ensures
        final(sorted).deep_view() == spec_insert_desc(f@, old(sorted).deep_view()),
{
    let ghost s = sorted.deep_view();
    let mut idx: usize = 0;
    while idx < sorted.len() && sorted[idx].span.start > f.span.start
        invariant
            idx <= s.len(),
            sorted.deep_view() == s,
            forall|j: int| 0 <= j < idx ==> s[j].span.start > f@.span.start,
        decreases s.len() - idx,
    {
        idx = idx + 1;
    }
    proof {
        lemma_insert_desc_at(f@, s, idx as int);
    }
    sorted.insert(idx, f);
    proof {
        assert(sorted.deep_view() =~= s.subrange(0, idx as int).push(f@) + s.subrange(
            idx as int,
            s.len() as int,
        ));
    }
}

/// Order the fixes by descending start offset; entries with equal starts
/// keep a deterministic order.
#[verifier::loop_isolation(false)]
pub fn sort_fixes_desc(fixes: Vec<Fix>) -> (r: Vec<Fix>)
    ensures
        r.deep_view() == spec_sort_desc(fixes.deep_view()),
{
    let ghost orig = fixes.deep_view();
    let mut source = fixes;
    let mut acc: Vec<Fix> = Vec::new();
    proof {
        assert(orig.subrange(orig.len() as int, orig.len() as int) =~= Seq::<FixModel>::empty());
        assert(acc.deep_view() =~= spec_sort_desc(
            orig.subrange(orig.len() as int, orig.len() as int),
        ));
    }
    loop
        invariant
            source.deep_view() == orig.subrange(0, source.deep_view().len() as int),
            source.deep_view().len() <= orig.len(),
            acc.deep_view() == spec_sort_desc(
                orig.subrange(source.deep_view().len() as int, orig.len() as int),
            ),
        decreases source.deep_view().len(),
    {
        let ghost n = source.deep_view().len() as int;
        match source.pop() {
            Some(f) => {
                proof {
                    assert(f@ == orig[n - 1]);
                    assert(source.deep_view() =~= orig.subrange(0, n - 1));
                    assert(orig.subrange(n - 1, orig.len() as int).drop_first() =~= orig.subrange(
                        n,
                        orig.len() as int,
                    ));
                    assert(orig.subrange(n - 1, orig.len() as int)[0] == orig[n - 1]);
                }
                insert_fix_desc(f, &mut acc);
            },
            None => {
                proof {
                    assert(orig.subrange(0, 0) =~= Seq::<FixModel>::empty());
                    assert(orig.subrange(0, orig.len() as int) =~= orig);
                }
                return acc;
            },
        }
    }
}

/// Apply the ordered fixes front to back against one mutable copy of the
/// original text; out-of-range fixes are skipped without aborting the batch.
/// Returns the patched text and the count of fixes actually applied.
#[verifier::loop_isolation(false)]
pub fn apply_fix_list(original: &Vec<u8>, fixes: &Vec<Fix>) -> (r: (Vec<u8>, usize))
    ensures
        r.0@ == spec_apply_sorted(original@, fixes.deep_view()),
        r.1 as int == spec_count_applied(original@, fixes.deep_view()),
        r.1 <= fixes.deep_view().len(),
{
    let ghost all = fixes.deep_view();
    let mut content = copy_range(original, 0, original.len());
    let mut count: usize = 0;
    proof {
        assert(content@ =~= original@.subrange(0, original@.len() as int));
        assert(original@.subrange(0, original@.len() as int) =~= original@);
        assert(all.subrange(0, 0) =~= Seq::<FixModel>::empty());
    }
    let mut i: usize = 0;
    while i < fixes.len()
        invariant
            i <= all.len(),
            count <= i,
            content@ == spec_apply_sorted(original@, all.subrange(0, i as int)),
            count as int == spec_count_applied(original@, all.subrange(0, i as int)),
        decreases all.len() - i,
    {
        let f = &fixes[i];
        proof {
            assert(all.subrange(0, i + 1) =~= all.subrange(0, i as int).push(all[i as int]));
            lemma_apply_snoc(original@, all.subrange(0, i as int), all[i as int]);
            assert(f@ == all[i as int]);
        }
        let start = f.span.start as usize;
        let end = f.span.end as usize;
        if start <= end && end <= content.len() {
            let mut next = copy_range(&content, 0, start);
            push_bytes(&mut next, f.replacement.as_slice());
            let tail = copy_range(&content, end, content.len());
            push_bytes(&mut next, tail.as_slice());
            proof {
                assert(next@ =~= spec_apply_one(content@, f@));
            }
            content = next;
            count = count + 1;
        } else {
            proof {
                assert(!spec_fix_applies(f@, content@.len()));
                assert(spec_apply_one(content@, f@) == content@);
            }
        }
        i = i + 1;
    }
    proof {
        assert(all.subrange(0, all.len() as int) =~= all);
    }
    (content, count)
}

/// Diagnostics carrying no fix leave the text exactly as it was: applying
/// zero fixes changes nothing.
pub proof fn lemma_no_fixes_no_change(text: Seq<u8>, ds: Seq<DiagModel>)
    requires
        forall|i: int| 0 <= i < ds.len() ==> (#[trigger] ds[i]).fix is None,
    ensures
        spec_fixes_of(ds).len() == 0,
        spec_apply_sorted(text, spec_sort_desc(spec_fixes_of(ds))) == text,
    decreases ds.len(),
{
    if ds.len() > 0 {
        lemma_no_fixes_no_change(text, ds.drop_first());
        assert(forall|i: int|
            0 <= i < ds.drop_first().len() ==> (#[trigger] ds.drop_first()[i]).fix is None);
        assert(Seq::<FixModel>::empty() + spec_fixes_of(ds.drop_first()) =~= spec_fixes_of(
            ds.drop_first(),
        ));
    }
}

/// Inserting keeps the multiset of fixes.
proof fn lemma_insert_desc_multiset(f: FixModel, s: Seq<FixModel>)
    ensures
        spec_insert_desc(f, s).to_multiset() == s.to_multiset().insert(f),
    decreases s.len(),
{
    if s.len() == 0 {
        assert(seq![f] =~= Seq::<FixModel>::empty().push(f));
        assert(Seq::<FixModel>::empty().push(f).to_multiset() =~= Multiset::empty().insert(f));
        assert(s.to_multiset() =~= Multiset::<FixModel>::empty());
    } else if f.span.start >= s[0].span.start {
        assert((seq![f] + s) =~= s.insert(0, f));
        lemma_insert_multiset(s, 0, f);
    } else {
        lemma_insert_desc_multiset(f, s.drop_first());
        assert(seq![s[0]] + spec_insert_desc(f, s.drop_first()) =~= spec_insert_desc(
            f,
            s.drop_first(),
        ).insert(0, s[0]));
        lemma_insert_multiset(spec_insert_desc(f, s.drop_first()), 0, s[0]);
        assert(s =~= s.drop_first().insert(0, s[0]));
        lemma_insert_multiset(s.drop_first(), 0, s[0]);
        assert(spec_insert_desc(f, s).to_multiset() =~= s.to_multiset().insert(f));
    }
}

/// `Seq::insert` adds one occurrence to the multiset.
proof fn lemma_insert_multiset(s: Seq<FixModel>, i: int, f: FixModel)
    requires
        0 <= i <= s.len(),
    ensures
        s.insert(i, f).to_multiset() == s.to_multiset().insert(f),
{
    let t = s.insert(i, f);
    assert(t.remove(i) =~= s);
    assert(t.remove(i).to_multiset() =~= t.to_multiset().remove(t[i]));
    assert(t[i] == f);
    assert(t.to_multiset().count(f) >= 1) by {
        assert(t.contains(f));
    }
    assert(s.to_multiset().insert(f) =~= t.to_multiset().remove(f).insert(f));
    assert(t.to_multiset().remove(f).insert(f) =~= t.to_multiset());
}

/// Sorting keeps the multiset of fixes.
proof fn lemma_sort_desc_multiset(s: Seq<FixModel>)
    ensures
        spec_sort_desc(s).to_multiset() == s.to_multiset(),
    decreases s.len(),
{
    if s.len() > 0 {
        lemma_sort_desc_multiset(s.drop_first());
        lemma_insert_desc_multiset(s[0], spec_sort_desc(s.drop_first()));
        assert(s =~= s.drop_first().insert(0, s[0]));
        lemma_insert_multiset(s.drop_first(), 0, s[0]);
    }
}

/// Inserting into a descending-sorted sequence keeps it sorted.
proof fn lemma_insert_desc_sorted(f: FixModel, s: Seq<FixModel>)
    requires
        spec_sorted_desc(s),
    ensures
        spec_sorted_desc(spec_insert_desc(f, s)),
    decreases s.len(),
{
    if s.len() == 0 {
    } else if f.span.start >= s[0].span.start {
        let t = seq![f] + s;
        assert forall|i: int, j: int| 0 <= i < j < t.len() implies t[i].span.start
            >= t[j].span.start by {
            if i > 0 {
                assert(t[i] == s[i - 1]);
                assert(t[j] == s[j - 1]);
            } else if j > 0 {
                assert(t[j] == s[j - 1]);
                if j - 1 > 0 {
                    assert(s[0].span.start >= s[j - 1].span.start);
                }
            }
        }
    } else {
        assert(spec_sorted_desc(s.drop_first()));
        lemma_insert_desc_sorted(f, s.drop_first());
        let u = spec_insert_desc(f, s.drop_first());
        lemma_insert_desc_multiset(f, s.drop_first());
        let t = seq![s[0]] + u;
        assert forall|i: int, j: int| 0 <= i < j < t.len() implies t[i].span.start
            >= t[j].span.start by {
            if i > 0 {
                assert(t[i] == u[i - 1]);
                assert(t[j] == u[j - 1]);
            } else {
                assert(t[j] == u[j - 1]);
                assert(u.to_multiset().count(u[j - 1]) > 0);
                assert(u.contains(u[j - 1]));
                assert(s.drop_first().to_multiset().insert(f).count(u[j - 1]) > 0);
                if u[j - 1] == f {
                    assert(s[0].span.start >= f.span.start || f.span.start < s[0].span.start);
                    assert(t[i].span.start >= t[j].span.start);
                } else {
                    assert(s.drop_first().to_multiset().count(u[j - 1]) > 0);
                    assert(s.drop_first().contains(u[j - 1]));
                    let w = choose|w: int|
                        0 <= w < s.drop_first().len() && s.drop_first()[w] == u[j - 1];
                    assert(s[w + 1] == u[j - 1]);
                    assert(s[0].span.start >= s[w + 1].span.start);
                }
            }
        }
    }
}

/// The sort's result is sorted.
proof fn lemma_sort_desc_sorted(s: Seq<FixModel>)
    ensures
        spec_sorted_desc(spec_sort_desc(s)),
    decreases s.len(),
{
    if s.len() > 0 {
        lemma_sort_desc_sorted(s.drop_first());
        lemma_insert_desc_sorted(s[0], spec_sort_desc(s.drop_first()));
    }
}

/// All starts in the sequence are distinct.
pub open spec fn spec_distinct_starts(fs: Seq<FixModel>) -> bool {
    forall|i: int, j: int|
        0 <= i < j < fs.len() ==> (#[trigger] fs[i]).span.start != (#[trigger] fs[j]).span.start
}

/// Two descending-sorted sequences with the same multiset of fixes and
/// pairwise-distinct starts are equal.
proof fn lemma_sorted_desc_unique(s1: Seq<FixModel>, s2: Seq<FixModel>)
    requires
        spec_sorted_desc(s1),
        spec_sorted_desc(s2),
        spec_distinct_starts(s1),
        s1.to_multiset() == s2.to_multiset(),
    ensures
        s1 == s2,
    decreases s1.len(),
{
    assert(s1.len() == s1.to_multiset().len());
    assert(s2.len() == s2.to_multiset().len());
    if s1.len() == 0 {
        assert(s1 =~= s2);
    } else {
        assert(s1.to_multiset().count(s1[0]) > 0);
        assert(s2.to_multiset().count(s1[0]) > 0);
        assert(s2.contains(s1[0]));
        let j = choose|j: int| 0 <= j < s2.len() && s2[j] == s1[0];
        assert(s2.to_multiset().count(s2[0]) > 0);
        assert(s1.to_multiset().count(s2[0]) > 0);
        assert(s1.contains(s2[0]));
        let m = choose|m: int| 0 <= m < s1.len() && s1[m] == s2[0];
        assert(s1[0].span.start >= s1[m].span.start);
        assert(s2[0].span.start >= s2[j].span.start);
        assert(s1[0].span.start == s2[0].span.start);
        if m != 0 {
            assert(s1[0].span.start != s1[m].span.start);
            assert(false);
        }
        assert(s1[0] == s2[0]);
        let t1 = s1.drop_first();
        let t2 = s2.drop_first();
        assert(t1 =~= s1.remove(0));
        assert(t2 =~= s2.remove(0));
        assert(s1.remove(0).to_multiset() =~= s1.to_multiset().remove(s1[0]));
        assert(s2.remove(0).to_multiset() =~= s2.to_multiset().remove(s2[0]));
        assert(spec_sorted_desc(t1));
        assert(spec_sorted_desc(t2));
        assert(spec_distinct_starts(t1));
        lemma_sorted_desc_unique(t1, t2);
        assert(forall|i: int| 1 <= i < s1.len() ==> #[trigger] s1[i] == t1[i - 1]);
        assert(forall|i: int| 1 <= i < s2.len() ==> #[trigger] s2[i] == t2[i - 1]);
        assert(s1 =~= s2);
    }
}

/// The sort keeps distinct starts distinct.
proof fn lemma_sort_desc_distinct(s: Seq<FixModel>)
    requires
        spec_distinct_starts(s),
    ensures
        spec_distinct_starts(spec_sort_desc(s)),
{
    lemma_sort_desc_multiset(s);
    let t = spec_sort_desc(s);
    assert(t.len() == t.to_multiset().len());
    assert(s.len() == s.to_multiset().len());
    assert forall|i: int, j: int|
        0 <= i < j < t.len() implies (#[trigger] t[i]).span.start != (
    #[trigger] t[j]).span.start by {
        lemma_two_positions_distinct(s, t, i, j);
    }
}

/// Two distinct positions of the sorted sequence come from distinct
/// positions of the source, so their starts differ.
proof fn lemma_two_positions_distinct(s: Seq<FixModel>, t: Seq<FixModel>, i: int, j: int)
    requires
        spec_distinct_starts(s),
        t.to_multiset() == s.to_multiset(),
        0 <= i < j < t.len(),
        t.len() == s.len(),
    ensures
        t[i].span.start != t[j].span.start,
{
    if t[i].span.start == t[j].span.start {
        if t[i] == t[j] {
            assert(t.remove(j).to_multiset() =~= t.to_multiset().remove(t[j]));
            assert(t.remove(j)[i] == t[i]);
            assert(t.remove(j).contains(t[i]));
            assert(t.remove(j).to_multiset().count(t[i]) > 0);
            assert(t.to_multiset().count(t[i]) >= 2);
            assert(s.to_multiset().count(t[i]) >= 2);
            lemma_count_at_most_one(s, t[i]);
        } else {
            assert(t.contains(t[i]));
            assert(s.to_multiset().count(t[i]) > 0);
            assert(s.contains(t[i]));
            let a = choose|a: int| 0 <= a < s.len() && s[a] == t[i];
            assert(t.contains(t[j]));
            assert(s.to_multiset().count(t[j]) > 0);
            assert(s.contains(t[j]));
            let b = choose|b: int| 0 <= b < s.len() && s[b] == t[j];
            assert(a != b);
            assert(s[a].span.start != s[b].span.start);
        }
    }
}

/// With pairwise-distinct starts, no fix occurs twice: a second occurrence
/// would occupy a second position with the same start.
proof fn lemma_count_at_most_one(s: Seq<FixModel>, x: FixModel)
    requires
        spec_distinct_starts(s),
    ensures
        s.to_multiset().count(x) <= 1,
{
    if s.to_multiset().count(x) < 2 {
        return;
    }
    assert(s.to_multiset().count(x) > 0);
    assert(s.contains(x));
    let a = choose|a: int| 0 <= a < s.len() && s[a] == x;
    assert(s.remove(a).to_multiset() =~= s.to_multiset().remove(s[a]));
    assert(s.remove(a).to_multiset().count(x) >= 1);
    assert(s.remove(a).contains(x));
    let b = choose|b: int| 0 <= b < s.remove(a).len() && s.remove(a)[b] == x;
    if b < a {
        assert(s[b] == x);
        assert(s[a].span.start != s[b].span.start);
    } else {
        assert(s[b + 1] == x);
        assert(s[a].span.start != s[b + 1].span.start);
    }
}


/// Applying a set of fixes with pairwise-distinct start offsets through the
/// descending-start schedule yields one text, whatever order the fixes were
/// handed in: the two schedules are the same sequence.  In particular,
/// non-overlapping fixes whose starts differ may be supplied in any order.
pub proof fn lemma_fix_order_irrelevant(text: Seq<u8>, f1: Seq<FixModel>, f2: Seq<FixModel>)
    requires
        f1.to_multiset() == f2.to_multiset(),
        spec_distinct_starts(f1),
    ensures
        spec_sort_desc(f1) == spec_sort_desc(f2),
        spec_apply_sorted(text, spec_sort_desc(f1)) == spec_apply_sorted(
            text,
            spec_sort_desc(f2),
        ),
{
    lemma_sort_desc_multiset(f1);
    lemma_sort_desc_multiset(f2);
    lemma_sort_desc_sorted(f1);
    lemma_sort_desc_sorted(f2);
    lemma_sort_desc_distinct(f1);
    lemma_sorted_desc_unique(spec_sort_desc(f1), spec_sort_desc(f2));
}

} // verus!
