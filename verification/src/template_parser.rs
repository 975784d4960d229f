//! Positional tokenizer adapter.
//!
//! A byte-stream tokenizing engine hands back raw sub-slices of the template
//! text with no position metadata.  This adapter reconstructs, for every
//! emitted token, the minimal byte span that was consumed to produce it: the
//! driving loop threads each sub-slice's offset within the template text into
//! [`SpannedEmitter::update_span`], which folds the interval into a running
//! min-start/max-end accumulator; token completion finalizes the accumulator
//! into the token's span.  Sub-slices that do not originate from the template
//! text (transient copies) are excluded from accumulation.

use vstd::prelude::*;
use vstd::pervasive::VecAdditionalExecFns;
use crate::span::Span;

verus! {

/// Move a vector out of a field, leaving an empty one behind.
fn take_vec<T>(v: &mut Vec<T>) -> (r: Vec<T>)
    ensures
        r == *old(v),
        final(v)@ == Seq::<T>::empty(),
{
    let mut tmp: Vec<T> = Vec::new();
    core::mem::swap(&mut tmp, v);
    tmp
}

/// One attribute of a start tag.
pub struct Attribute {
    pub name: Vec<u8>,
    pub value: Vec<u8>,
}

/// Mathematical model of an [`Attribute`].
#[verifier::ext_equal]
pub struct AttributeModel {
    pub name: Seq<u8>,
    pub value: Seq<u8>,
}

impl View for Attribute {
    type V = AttributeModel;

    open spec fn view(&self) -> AttributeModel {
        AttributeModel { name: self.name@, value: self.value@ }
    }
}

impl DeepView for Attribute {
    type V = AttributeModel;

    open spec fn deep_view(&self) -> AttributeModel {
        self.view()
    }
}

/// One token of the template sub-document, with its reconstructed span in
/// template-local byte coordinates.
pub enum TemplateToken {
    StartTag { name: Vec<u8>, attributes: Vec<Attribute>, self_closing: bool, span: Span },
    EndTag { name: Vec<u8>, span: Span },
    String { content: Vec<u8>, span: Span },
    Comment { content: Vec<u8>, span: Span },
    Eof,
}

/// Mathematical model of a [`TemplateToken`].
#[verifier::ext_equal]
pub enum TokenModel {
    StartTag { name: Seq<u8>, attributes: Seq<AttributeModel>, self_closing: bool, span: Span },
    EndTag { name: Seq<u8>, span: Span },
    String { content: Seq<u8>, span: Span },
    Comment { content: Seq<u8>, span: Span },
    Eof,
}

impl View for TemplateToken {
    type V = TokenModel;

    open spec fn view(&self) -> TokenModel {
        match self {
            TemplateToken::StartTag { name, attributes, self_closing, span } =>
                TokenModel::StartTag {
                    name: name@,
                    attributes: attributes.deep_view(),
                    self_closing: *self_closing,
                    span: *span,
                },
            TemplateToken::EndTag { name, span } => TokenModel::EndTag {
                name: name@,
                span: *span,
            },
            TemplateToken::String { content, span } => TokenModel::String {
                content: content@,
                span: *span,
            },
            TemplateToken::Comment { content, span } => TokenModel::Comment {
                content: content@,
                span: *span,
            },
            TemplateToken::Eof => TokenModel::Eof,
        }
    }
}

impl DeepView for TemplateToken {
    type V = TokenModel;

    open spec fn deep_view(&self) -> TokenModel {
        self.view()
    }
}

/// A token's span stays inside a text of length `len`.
pub open spec fn token_wf(t: TokenModel, len: nat) -> bool {
    match t {
        TokenModel::StartTag { span, .. } => span.spec_within(len),
        TokenModel::EndTag { span, .. } => span.spec_within(len),
        TokenModel::String { span, .. } => span.spec_within(len),
        TokenModel::Comment { span, .. } => span.spec_within(len),
        TokenModel::Eof => true,
    }
}

/// Replace the value of the attribute named `name`, or append a new one:
/// last value wins, first position is kept.
pub open spec fn spec_upsert(attrs: Seq<AttributeModel>, name: Seq<u8>, value: Seq<u8>) -> Seq<
    AttributeModel,
>
    decreases attrs.len(),
{
    if attrs.len() == 0 {
        seq![AttributeModel { name, value }]
    } else if attrs[0].name == name {
        seq![AttributeModel { name, value }] + attrs.drop_first()
    } else {
        seq![attrs[0]] + spec_upsert(attrs.drop_first(), name, value)
    }
}

/// Assembles spanned tokens from the callbacks of a byte-stream tokenizing
/// engine, given only each sub-slice's offset within the template text.
pub struct SpannedEmitter {
    /// Byte length of the template sub-document being tokenized.
    pub base_len: usize,
    /// Least template offset touched while assembling the current token;
    /// `usize::MAX` while no sub-slice has been observed.
    pub current_token_start: usize,
    /// Greatest template end offset touched while assembling the current token.
    pub current_token_end: usize,
    /// Whether the tag being assembled is an end tag.
    pub current_is_end_tag: bool,
    /// Name of the tag being assembled; comments reuse this buffer.
    pub current_tag_name: Vec<u8>,
    /// Attributes already finalized on the tag being assembled.
    pub current_attributes: Vec<Attribute>,
    /// Name of the attribute being assembled.
    pub current_attr_name: Vec<u8>,
    /// Value of the attribute being assembled.
    pub current_attr_value: Vec<u8>,
    /// Self-closing flag of the tag being assembled.
    pub self_closing: bool,
    /// Completed tokens in emission order, consumed from the front.
    pub emitted_tokens: Vec<TemplateToken>,
}

impl SpannedEmitter {
    /// The accumulator stays inside the template text and every completed
    /// token's span does too.
    pub open spec fn wf(self) -> bool {
        &&& self.base_len <= u32::MAX
        &&& self.current_token_end <= self.base_len
        &&& (self.current_token_start == usize::MAX || self.current_token_start
            <= self.current_token_end)
        &&& forall|i: int|
            0 <= i < self.emitted_tokens@.len() ==> token_wf(
                #[trigger] self.emitted_tokens@[i]@,
                self.base_len as nat,
            )
    }

    /// Everything but the token-assembly state and the queue.
    pub open spec fn same_base(self, other: SpannedEmitter) -> bool {
        self.base_len == other.base_len
    }

    /// The accumulator and assembly buffers are in their reset state.
    pub open spec fn assembly_reset(self) -> bool {
        &&& self.current_token_start == usize::MAX
        &&& self.current_token_end == 0
        &&& self.current_is_end_tag == false
        &&& self.current_tag_name@.len() == 0
        &&& self.current_attributes.deep_view().len() == 0
        &&& self.current_attr_name@.len() == 0
        &&& self.current_attr_value@.len() == 0
        &&& self.self_closing == false
    }

    /// The token-assembly state of `self` and `other` agree.
    pub open spec fn assembly_unchanged(self, other: SpannedEmitter) -> bool {
        &&& self.current_token_start == other.current_token_start
        &&& self.current_token_end == other.current_token_end
        &&& self.current_is_end_tag == other.current_is_end_tag
        &&& self.current_tag_name@ == other.current_tag_name@
        &&& self.current_attributes.deep_view() == other.current_attributes.deep_view()
        &&& self.current_attr_name@ == other.current_attr_name@
        &&& self.current_attr_value@ == other.current_attr_value@
        &&& self.self_closing == other.self_closing
    }

    /// The span the accumulator denotes right now.  A token that never saw a
    /// sub-slice collapses to `[0, 0)`, meaning "unknown position".  Tag spans
    /// are corrected one byte leftward (floored at the sub-document start):
    /// the engine consumes the `<` delimiter without surfacing it, so the
    /// first accumulated byte is the tag name, not the `<`.
    pub open spec fn spec_current_span(self, is_tag: bool) -> Span {
        let s0: int = if self.current_token_start == usize::MAX {
            0
        } else {
            self.current_token_start as int
        };
        let e0: int = if s0 > self.current_token_end {
            s0
        } else {
            self.current_token_end as int
        };
        let s1: int = if is_tag && s0 > 0 {
            s0 - 1
        } else {
            s0
        };
        Span { start: s1 as u32, end: e0 as u32 }
    }

    /// The pending attribute folded into the finalized attribute list.
    pub open spec fn spec_flushed_attrs(self) -> Seq<AttributeModel> {
        if self.current_attr_name@.len() == 0 {
            self.current_attributes.deep_view()
        } else {
            spec_upsert(
                self.current_attributes.deep_view(),
                self.current_attr_name@,
                self.current_attr_value@,
            )
        }
    }

    /// The tag token the current assembly state completes into.
    pub open spec fn spec_tag_token(self) -> TokenModel {
        if self.current_is_end_tag {
            TokenModel::EndTag { name: self.current_tag_name@, span: self.spec_current_span(true) }
        } else {
            TokenModel::StartTag {
                name: self.current_tag_name@,
                attributes: self.spec_flushed_attrs(),
                self_closing: self.self_closing,
                span: self.spec_current_span(true),
            }
        }
    }

    /// A fresh adapter for a template text of `base_len` bytes.
    pub fn new(base_len: usize) -> (e: SpannedEmitter)
        requires
            base_len <= u32::MAX,
        ensures
            e.wf(),
            e.base_len == base_len,
            e.assembly_reset(),
            e.emitted_tokens.deep_view() == Seq::<TokenModel>::empty(),
    {
        let e = SpannedEmitter {
            base_len,
            current_token_start: usize::MAX,
            current_token_end: 0,
            current_is_end_tag: false,
            current_tag_name: Vec::new(),
            current_attributes: Vec::new(),
            current_attr_name: Vec::new(),
            current_attr_value: Vec::new(),
            self_closing: false,
            emitted_tokens: Vec::new(),
        };
        proof {
            assert(e.emitted_tokens.deep_view() =~= Seq::<TokenModel>::empty());
            assert(e.current_attributes.deep_view() =~= Seq::<AttributeModel>::empty());
        }
        e
    }

    /// Fold one observed sub-slice interval `[start, start + len)` of the
    /// template text into the accumulator.  An interval that does not lie
    /// inside the template text is excluded: the sub-slice then came from a
    /// transient copy, not from the template buffer.
    pub fn update_span(&mut self, start: usize, len: usize)
        requires
            old(self).wf(),
        ensures
            final(self).wf(),
            final(self).same_base(*old(self)),
            final(self).emitted_tokens == old(self).emitted_tokens,
            final(self).current_is_end_tag == old(self).current_is_end_tag,
            final(self).current_tag_name == old(self).current_tag_name,
            final(self).current_attributes == old(self).current_attributes,
            final(self).current_attr_name == old(self).current_attr_name,
            final(self).current_attr_value == old(self).current_attr_value,
            final(self).self_closing == old(self).self_closing,
            if start < old(self).base_len && start + len <= old(self).base_len {
                &&& final(self).current_token_start == (if start < old(self).current_token_start {
                    start as int
                } else {
                    old(self).current_token_start as int
                })
                &&& final(self).current_token_end == (if start + len > old(self).current_token_end {
                    start + len
                } else {
                    old(self).current_token_end as int
                })
            } else {
                &&& final(self).current_token_start == old(self).current_token_start
                &&& final(self).current_token_end == old(self).current_token_end
            },
    {
        if start < self.base_len && len <= self.base_len - start {
            let end = start + len;
            if start < self.current_token_start {
                self.current_token_start = start;
            }
            if end > self.current_token_end {
                self.current_token_end = end;
            }
        }
    }

    /// Clear the accumulator and all assembly buffers for the next token.
    pub fn reset_current(&mut self)
        requires
            old(self).wf(),
        ensures
            final(self).wf(),
            final(self).same_base(*old(self)),
            final(self).emitted_tokens == old(self).emitted_tokens,
            final(self).assembly_reset(),
    {
        self.current_token_start = usize::MAX;
        self.current_token_end = 0;
        self.current_is_end_tag = false;
        self.current_tag_name = Vec::new();
        self.current_attributes = Vec::new();
        self.current_attr_name = Vec::new();
        self.current_attr_value = Vec::new();
        self.self_closing = false;
        proof {
            assert(self.current_attributes.deep_view() =~= Seq::<AttributeModel>::empty());
        }
    }

    /// Finalize the accumulator into a span, one byte left-corrected for tags.
    pub fn create_span(&self, is_tag: bool) -> (s: Span)
        requires
            self.wf(),
        ensures
            s == self.spec_current_span(is_tag),
            s.spec_within(self.base_len as nat),
    {
        let start: usize = if self.current_token_start == usize::MAX {
            0
        } else {
            self.current_token_start
        };
        let end: usize = if start > self.current_token_end {
            start
        } else {
            self.current_token_end
        };
        let effective_start: usize = if is_tag && start > 0 {
            start - 1
        } else {
            start
        };
        Span { start: effective_start as u32, end: end as u32 }
    }

    /// A tag span whose accumulator saw its first byte at a positive offset
    /// starts one byte before that offset: at the `<` delimiter the engine
    /// consumed silently.
    pub proof fn lemma_tag_span_correction(self)
        requires
            self.wf(),
            self.current_token_start != usize::MAX,
            0 < self.current_token_start,
        ensures
            self.spec_current_span(true).start == self.current_token_start - 1,
    {
    }

    /// Emit a text run carrying the given decoded content, spanned by the
    /// current accumulator, then reset for the next token.
    pub fn emit_string(&mut self, content: Vec<u8>)
        requires
            old(self).wf(),
        ensures
            final(self).wf(),
            final(self).same_base(*old(self)),
            final(self).assembly_reset(),
            final(self).emitted_tokens.deep_view() == old(self).emitted_tokens.deep_view().push(
                TokenModel::String {
                    content: content@,
                    span: old(self).spec_current_span(false),
                },
            ),
    {
        let span = self.create_span(false);
        self.emitted_tokens.push(TemplateToken::String { content, span });
        self.reset_current();
    }

    /// Emit the end-of-stream marker.
    pub fn emit_eof(&mut self)
        requires
            old(self).wf(),
        ensures
            final(self).wf(),
            final(self).same_base(*old(self)),
            final(self).assembly_unchanged(*old(self)),
            final(self).emitted_tokens.deep_view() == old(self).emitted_tokens.deep_view().push(
                TokenModel::Eof,
            ),
    {
        self.emitted_tokens.push(TemplateToken::Eof);
    }

    /// Hand out the oldest completed token, if any.
    pub fn pop_token(&mut self) -> (r: Option<TemplateToken>)
        requires
            old(self).wf(),
        ensures
            final(self).wf(),
            final(self).same_base(*old(self)),
            final(self).assembly_unchanged(*old(self)),
            match r {
                Some(t) => old(self).emitted_tokens.deep_view().len() > 0 && t@ == old(
                    self,
                ).emitted_tokens.deep_view()[0] && final(self).emitted_tokens.deep_view() == old(
                    self,
                ).emitted_tokens.deep_view().drop_first(),
                None => old(self).emitted_tokens.deep_view().len() == 0
                    && final(self).emitted_tokens.deep_view() == old(self).emitted_tokens.deep_view(),
            },
    {
        if self.emitted_tokens.len() == 0 {
            None
        } else {
            let t = self.emitted_tokens.remove(0);
            proof {
                assert(self.emitted_tokens.deep_view() =~= old(
                    self,
                ).emitted_tokens.deep_view().drop_first());
            }
            Some(t)
        }
    }

    /// All completed tokens, in emission order; consumes the adapter.
    ///
    /// Every token whose accumulator saw at least one sub-slice — and the
    /// degenerate `[0, 0)` ones too — carries a span within
    /// `[0, template length]`.
    pub fn finish(self) -> (r: Vec<TemplateToken>)
        requires
            self.wf(),
        ensures
            r.deep_view() == self.emitted_tokens.deep_view(),
            forall|i: int|
                0 <= i < r.deep_view().len() ==> token_wf(
                    #[trigger] r.deep_view()[i],
                    self.base_len as nat,
                ),
    {
        self.emitted_tokens
    }

    /// Begin assembling a start tag.
    pub fn init_start_tag(&mut self)
        requires
            old(self).wf(),
        ensures
            final(self).wf(),
            final(self).same_base(*old(self)),
            final(self).emitted_tokens == old(self).emitted_tokens,
            final(self).assembly_reset(),
    {
        self.reset_current();
    }

    /// Begin assembling an end tag.
    pub fn init_end_tag(&mut self)
        requires
            old(self).wf(),
        ensures
            final(self).wf(),
            final(self).same_base(*old(self)),
            final(self).emitted_tokens == old(self).emitted_tokens,
            final(self).current_token_start == usize::MAX,
            final(self).current_token_end == 0,
            final(self).current_is_end_tag == true,
            final(self).current_tag_name@.len() == 0,
            final(self).current_attributes.deep_view().len() == 0,
            final(self).current_attr_name@.len() == 0,
            final(self).current_attr_value@.len() == 0,
            final(self).self_closing == false,
    {
        self.reset_current();
        self.current_is_end_tag = true;
    }

    /// Begin assembling a comment.
    pub fn init_comment(&mut self)
        requires
            old(self).wf(),
        ensures
            final(self).wf(),
            final(self).same_base(*old(self)),
            final(self).emitted_tokens == old(self).emitted_tokens,
            final(self).assembly_reset(),
    {
        self.reset_current();
    }

    /// Complete the tag being assembled: flush the pending attribute, span it
    /// with the one-byte tag correction, queue it, and reset.
    pub fn emit_current_tag(&mut self)
        requires
            old(self).wf(),
        ensures
            final(self).wf(),
            final(self).same_base(*old(self)),
            final(self).assembly_reset(),
            final(self).emitted_tokens.deep_view() == old(self).emitted_tokens.deep_view().push(
                old(self).spec_tag_token(),
            ),
    {
        if self.current_attr_name.len() > 0 {
            let name = take_vec(&mut self.current_attr_name);
            let value = take_vec(&mut self.current_attr_value);
            upsert_attribute(&mut self.current_attributes, name, value);
        }
        let span = self.create_span(true);
        let name = take_vec(&mut self.current_tag_name);
        if self.current_is_end_tag {
            self.emitted_tokens.push(TemplateToken::EndTag { name, span });
        } else {
            let attributes = take_vec(&mut self.current_attributes);
            self.emitted_tokens.push(
                TemplateToken::StartTag {
                    name,
                    attributes,
                    self_closing: self.self_closing,
                    span,
                },
            );
        }
        self.reset_current();
    }

    /// Complete the comment being assembled, spanned by the accumulator
    /// without tag correction, then reset.
    pub fn emit_current_comment(&mut self)
        requires
            old(self).wf(),
        ensures
            final(self).wf(),
            final(self).same_base(*old(self)),
            final(self).assembly_reset(),
            final(self).emitted_tokens.deep_view() == old(self).emitted_tokens.deep_view().push(
                TokenModel::Comment {
                    content: old(self).current_tag_name@,
                    span: old(self).spec_current_span(false),
                },
            ),
    {
        let span = self.create_span(false);
        let content = take_vec(&mut self.current_tag_name);
        self.emitted_tokens.push(TemplateToken::Comment { content, span });
        self.reset_current();
    }

    /// A doctype is not represented: discard the assembly state.
    pub fn emit_current_doctype(&mut self)
        requires
            old(self).wf(),
        ensures
            final(self).wf(),
            final(self).same_base(*old(self)),
            final(self).emitted_tokens == old(self).emitted_tokens,
            final(self).assembly_reset(),
    {
        self.reset_current();
    }

    /// Mark the tag being assembled as self-closing.
    pub fn set_self_closing(&mut self)
        requires
            old(self).wf(),
        ensures
            final(self).wf(),
            final(self).same_base(*old(self)),
            final(self).emitted_tokens == old(self).emitted_tokens,
            final(self).self_closing == true,
            final(self).current_token_start == old(self).current_token_start,
            final(self).current_token_end == old(self).current_token_end,
            final(self).current_is_end_tag == old(self).current_is_end_tag,
            final(self).current_tag_name@ == old(self).current_tag_name@,
            final(self).current_attributes.deep_view() == old(self).current_attributes.deep_view(),
            final(self).current_attr_name@ == old(self).current_attr_name@,
            final(self).current_attr_value@ == old(self).current_attr_value@,
    {
        self.self_closing = true;
    }

    /// Append a fragment to the tag name being assembled.
    pub fn push_tag_name(&mut self, s: &[u8])
        requires
            old(self).wf(),
        ensures
            final(self).wf(),
            final(self).same_base(*old(self)),
            final(self).emitted_tokens == old(self).emitted_tokens,
            final(self).current_tag_name@ == old(self).current_tag_name@ + s@,
            final(self).current_token_start == old(self).current_token_start,
            final(self).current_token_end == old(self).current_token_end,
            final(self).current_is_end_tag == old(self).current_is_end_tag,
            final(self).current_attributes.deep_view() == old(self).current_attributes.deep_view(),
            final(self).current_attr_name@ == old(self).current_attr_name@,
            final(self).current_attr_value@ == old(self).current_attr_value@,
            final(self).self_closing == old(self).self_closing,
    {
        self.current_tag_name.extend_from_slice(s);
    }

    /// Append a fragment to the comment being assembled; comments reuse the
    /// tag-name buffer.
    pub fn push_comment(&mut self, s: &[u8])
        requires
            old(self).wf(),
        ensures
            final(self).wf(),
            final(self).same_base(*old(self)),
            final(self).emitted_tokens == old(self).emitted_tokens,
            final(self).current_tag_name@ == old(self).current_tag_name@ + s@,
    {
        self.current_tag_name.extend_from_slice(s);
    }

    /// Finalize the pending attribute into the attribute list — last value
    /// wins for a duplicate name — and start a fresh one.
    pub fn init_attribute(&mut self)
        requires
            old(self).wf(),
        ensures
            final(self).wf(),
            final(self).same_base(*old(self)),
            final(self).emitted_tokens == old(self).emitted_tokens,
            final(self).current_attributes.deep_view() == old(self).spec_flushed_attrs(),
            final(self).current_attr_name@.len() == 0,
            final(self).current_attr_value@ == (if old(self).current_attr_name@.len() == 0 {
                old(self).current_attr_value@
            } else {
                Seq::<u8>::empty()
            }),
            final(self).current_token_start == old(self).current_token_start,
            final(self).current_token_end == old(self).current_token_end,
            final(self).current_is_end_tag == old(self).current_is_end_tag,
            final(self).current_tag_name@ == old(self).current_tag_name@,
            final(self).self_closing == old(self).self_closing,
    {
        if self.current_attr_name.len() > 0 {
            let name = take_vec(&mut self.current_attr_name);
            let value = take_vec(&mut self.current_attr_value);
            upsert_attribute(&mut self.current_attributes, name, value);
        }
    }

    /// Append a fragment to the pending attribute's name.
    pub fn push_attribute_name(&mut self, s: &[u8])
        requires
            old(self).wf(),
        ensures
            final(self).wf(),
            final(self).same_base(*old(self)),
            final(self).emitted_tokens == old(self).emitted_tokens,
            final(self).current_attr_name@ == old(self).current_attr_name@ + s@,
            final(self).current_token_start == old(self).current_token_start,
            final(self).current_token_end == old(self).current_token_end,
            final(self).current_is_end_tag == old(self).current_is_end_tag,
            final(self).current_tag_name@ == old(self).current_tag_name@,
            final(self).current_attributes.deep_view() == old(self).current_attributes.deep_view(),
            final(self).current_attr_value@ == old(self).current_attr_value@,
            final(self).self_closing == old(self).self_closing,
    {
        self.current_attr_name.extend_from_slice(s);
    }

    /// Append a fragment to the pending attribute's value.  A value observed
    /// before any name is buffered here all the same and flushed when a new
    /// attribute begins or the tag completes.
    pub fn push_attribute_value(&mut self, s: &[u8])
        requires
            old(self).wf(),
        ensures
            final(self).wf(),
            final(self).same_base(*old(self)),
            final(self).emitted_tokens == old(self).emitted_tokens,
            final(self).current_attr_value@ == old(self).current_attr_value@ + s@,
            final(self).current_token_start == old(self).current_token_start,
            final(self).current_token_end == old(self).current_token_end,
            final(self).current_is_end_tag == old(self).current_is_end_tag,
            final(self).current_tag_name@ == old(self).current_tag_name@,
            final(self).current_attributes.deep_view() == old(self).current_attributes.deep_view(),
            final(self).current_attr_name@ == old(self).current_attr_name@,
            final(self).self_closing == old(self).self_closing,
    {
        self.current_attr_value.extend_from_slice(s);
    }

    /// The engine asks this to decide state transitions; this adapter never
    /// treats a tag as an appropriate end tag, as the source it serves only
    /// inspects token shapes.
    pub fn current_is_appropriate_end_tag_token(&self) -> (r: bool)
        ensures
            r == false,
    {
        false
    }
}

/// Some attribute in the list bears the name `key`.
pub open spec fn has_attr(attrs: Seq<AttributeModel>, key: Seq<u8>) -> bool {
    exists|i: int| 0 <= i < attrs.len() && attrs[i].name == key
}

/// Whether the attribute list contains an attribute named `key`.
pub fn attrs_contains(attrs: &Vec<Attribute>, key: &[u8]) -> (r: bool)
    ensures
        r == has_attr(attrs.deep_view(), key@),
{
    let mut i: usize = 0;
    while i < attrs.len()
        invariant
            i <= attrs@.len(),
            forall|j: int| 0 <= j < i ==> attrs.deep_view()[j].name != key@,
        decreases attrs@.len() - i,
    {
        if crate::bytes::bytes_eq(attrs[i].name.as_slice(), key) {
            assert(attrs.deep_view()[i as int].name == key@);
            return true;
        }
        i = i + 1;
    }
    false
}

/// Replace the value of the attribute named `name` in place, or append it.
fn upsert_attribute(attrs: &mut Vec<Attribute>, name: Vec<u8>, value: Vec<u8>)
    ensures
        final(attrs).deep_view() == spec_upsert(old(attrs).deep_view(), name@, value@),
{
    let mut i: usize = 0;
    while i < attrs.len()
        invariant
            i <= attrs@.len(),
            *attrs == *old(attrs),
            forall|j: int| 0 <= j < i ==> attrs.deep_view()[j].name != name@,
        decreases attrs@.len() - i,
    {
        if crate::bytes::bytes_eq(attrs[i].name.as_slice(), name.as_slice()) {
            let a = Attribute { name, value };
            attrs.set(i, a);
            proof {
                lemma_upsert_found(old(attrs).deep_view(), attrs.deep_view(), i as int);
            }
            return;
        }
        i = i + 1;
    }
    attrs.push(Attribute { name, value });
    proof {
        lemma_upsert_append(old(attrs).deep_view(), attrs.deep_view()[attrs.deep_view().len() - 1]);
        assert(attrs.deep_view() =~= old(attrs).deep_view().push(
            attrs.deep_view()[attrs.deep_view().len() - 1],
        ));
    }
}

/// When index `i` holds the first attribute named `new[i].name`, replacing it
/// in place is what `spec_upsert` produces.
proof fn lemma_upsert_found(olds: Seq<AttributeModel>, news: Seq<AttributeModel>, i: int)
    requires
        0 <= i < olds.len(),
        news.len() == olds.len(),
        forall|j: int| 0 <= j < olds.len() && j != i ==> news[j] == olds[j],
        forall|j: int| 0 <= j < i ==> olds[j].name != news[i].name,
        olds[i].name == news[i].name,
    ensures
        news == spec_upsert(olds, news[i].name, news[i].value),
    decreases i,
{
    if i == 0 {
        assert(news =~= seq![
            AttributeModel { name: news[0].name, value: news[0].value },
        ] + olds.drop_first());
        assert(news[0] == AttributeModel { name: news[0].name, value: news[0].value });
    } else {
        lemma_upsert_found(olds.drop_first(), news.drop_first(), i - 1);
        assert(news.drop_first()[i - 1] == news[i]);
        assert(news =~= seq![olds[0]] + news.drop_first());
    }
}

/// When no attribute is named `a.name`, appending `a` is what `spec_upsert`
/// produces.
proof fn lemma_upsert_append(olds: Seq<AttributeModel>, a: AttributeModel)
    requires
        forall|j: int| 0 <= j < olds.len() ==> olds[j].name != a.name,
    ensures
        olds.push(a) == spec_upsert(olds, a.name, a.value),
    decreases olds.len(),
{
    if olds.len() == 0 {
        assert(olds.push(a) =~= seq![a]);
        assert(a == AttributeModel { name: a.name, value: a.value });
    } else {
        lemma_upsert_append(olds.drop_first(), a);
        assert(olds.push(a) =~= seq![olds[0]] + olds.drop_first().push(a));
    }
}

} // verus!
