//! Sub-document extraction: locating the script and template blocks of a
//! composite document and anchoring each to the original text.

use vstd::prelude::*;
use crate::bytes::{find_from, spec_find};
use vstd::string::StringSliceAdditionalSpecFns;

verus! {

/// A loaded document together with its two extracted sub-documents.
///
/// When a block is present, its start offset points at the first byte of the
/// block's content inside the original text.  When a block is absent, its
/// content is empty and its offset is `0`; an empty-but-present block is
/// distinguishable from an absent one only by its emptiness.
pub struct SourceFile {
    pub path: String,
    pub original_content: Vec<u8>,
    pub script_content: Vec<u8>,
    pub script_start_offset: usize,
    pub template_content: Vec<u8>,
    pub template_start_offset: usize,
}

impl SourceFile {
    /// Each sub-document sits inside the original text at its anchor, and the
    /// whole text fits the 32-bit span coordinate space.
    pub open spec fn wf(self) -> bool {
        &&& self.original_content@.len() <= u32::MAX
        &&& self.script_start_offset + self.script_content@.len()
            <= self.original_content@.len()
        &&& self.original_content@.subrange(
            self.script_start_offset as int,
            self.script_start_offset + self.script_content@.len(),
        ) == self.script_content@
        &&& self.template_start_offset + self.template_content@.len()
            <= self.original_content@.len()
        &&& self.original_content@.subrange(
            self.template_start_offset as int,
            self.template_start_offset + self.template_content@.len(),
        ) == self.template_content@
    }
}

/// The content and anchor of the first block delimited by `open_tag … >` and
/// `close_tag`: the text strictly between the first `>` at or after the first
/// occurrence of `open_tag`, and the first occurrence of `close_tag` after
/// that.  `(empty, 0)` when any of the three marks is missing.
pub open spec fn spec_extract_block(orig: Seq<u8>, open_tag: Seq<u8>, close_tag: Seq<u8>) -> (
    Seq<u8>,
    int,
) {
    match spec_find(orig, open_tag, 0) {
        None => (Seq::empty(), 0),
        Some(t) => match spec_find(orig, ">".spec_bytes(), t) {
            None => (Seq::empty(), 0),
            Some(g) => match spec_find(orig, close_tag, g + 1) {
                None => (Seq::empty(), 0),
                Some(e) => (orig.subrange(g + 1, e), g + 1),
            },
        },
    }
}

/// Copy `orig[start .. end)` into a fresh vector.
pub(crate) fn copy_range(orig: &Vec<u8>, start: usize, end: usize) -> (r: Vec<u8>)
    requires
        start <= end <= orig@.len(),
    ensures
        r@ == orig@.subrange(start as int, end as int),
{
    let mut r: Vec<u8> = Vec::new();
    let mut i: usize = start;
    while i < end
        invariant
            start <= i <= end <= orig@.len(),
            r@ == orig@.subrange(start as int, i as int),
        decreases end - i,
    {
        r.push(orig[i]);
        proof {
            assert(r@ =~= orig@.subrange(start as int, i + 1));
        }
        i = i + 1;
    }
    r
}

/// First-match, non-nested scan for one delimited block, as
/// [`spec_extract_block`] describes it.
pub fn extract_block(orig: &Vec<u8>, open_tag: &[u8], close_tag: &[u8]) -> (r: (Vec<u8>, usize))
    ensures
        (r.0@, r.1 as int) == spec_extract_block(orig@, open_tag@, close_tag@),
        r.1 + r.0@.len() <= orig@.len(),
        orig@.subrange(r.1 as int, r.1 + r.0@.len()) == r.0@,
{
    let empty_result: (Vec<u8>, usize) = (Vec::new(), 0);
    proof {
        assert(orig@.subrange(0, 0) =~= empty_result.0@);
    }
    let t = match find_from(orig.as_slice(), open_tag, 0) {
        Some(t) => t,
        None => {
            return empty_result;
        },
    };
    proof {
        crate::bytes::lemma_spec_find_first(orig@, open_tag@, 0);
    }
    let g = match find_from(orig.as_slice(), ">".as_bytes(), t) {
        Some(g) => g,
        None => {
            return empty_result;
        },
    };
    proof {
        crate::bytes::lemma_spec_find_first(orig@, ">".spec_bytes(), t as int);
    }
    if g >= orig.len() {
        proof {
            assert(spec_find(orig@, close_tag@, g + 1) is None);
        }
        return empty_result;
    }
    let e = match find_from(orig.as_slice(), close_tag, g + 1) {
        Some(e) => e,
        None => {
            return empty_result;
        },
    };
    proof {
        crate::bytes::lemma_spec_find_first(orig@, close_tag@, g + 1);
    }
    let content = copy_range(orig, g + 1, e);
    (content, g + 1)
}

/// Split one original document into its script and template sub-documents,
/// each anchored at the offset of its first content byte.
///
/// Every extracted sub-document reads back out of the original text at its
/// anchor: `original[offset .. offset + content.len()] == content`.
pub fn extract_source(path: String, original_content: Vec<u8>) -> (sf: SourceFile)
    requires
        original_content@.len() <= u32::MAX,
    ensures
        sf.wf(),
        sf.path == path,
        sf.original_content == original_content,
        (sf.script_content@, sf.script_start_offset as int) == spec_extract_block(
            original_content@,
            "<script".spec_bytes(),
            "</script>".spec_bytes(),
        ),
        (sf.template_content@, sf.template_start_offset as int) == spec_extract_block(
            original_content@,
            "<template".spec_bytes(),
            "</template>".spec_bytes(),
        ),
{
    let (script_content, script_start_offset) = extract_block(
        &original_content,
        "<script".as_bytes(),
        "</script>".as_bytes(),
    );
    let (template_content, template_start_offset) = extract_block(
        &original_content,
        "<template".as_bytes(),
        "</template>".as_bytes(),
    );
    SourceFile {
        path,
        original_content,
        script_content,
        script_start_offset,
        template_content,
        template_start_offset,
    }
}

} // verus!
