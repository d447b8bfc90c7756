//! The block model: a sequence of items plus optional leading inner
//! attributes, an empty-block layout policy, and the span of the whole
//! block; and the leading-use grouper that recognises import runs.

use crate::span::{span_wf, SourceSpan};
use vstd::prelude::*;

verus! {

/// Whether an empty block may collapse onto the line of its opening brace.
#[derive(Clone, Copy, Debug, PartialEq, Eq, Structural)]
pub enum EmptyBlockStyle {
    /// Allow putting an empty block on a single line.
    SingleLine,
    /// Forbid putting an empty block on a single line.
    MultiLine,
}

/// Which syntactic sort an item is.  The engine treats both sorts alike;
/// the sort records where the item came from.
#[derive(Clone, Copy, Debug, PartialEq, Eq, Structural)]
pub enum ItemKind {
    /// A statement of a brace-delimited body.
    Statement,
    /// An item of an inline module.
    ModuleEntry,
}

/// The mathematical form of an item.
pub struct ItemV {
    pub kind: ItemKind,
    pub lo: int,
    pub hi: int,
    pub formatted: Seq<u8>,
    pub requires_sep: bool,
    pub is_import: bool,
}

/// One item of a block, as the engine reads it: its span in the source,
/// the text the item-level formatter produced for it, whether it needs a
/// trailing separator under the active style, and whether it is an
/// import-like declaration eligible for leading-group reordering.
pub struct Item {
    pub kind: ItemKind,
    pub span: SourceSpan,
    pub formatted: Vec<u8>,
    pub requires_sep: bool,
    pub is_import: bool,
}

impl View for Item {
    type V = ItemV;

    open spec fn view(&self) -> ItemV {
        ItemV {
            kind: self.kind,
            lo: self.span.lo as int,
            hi: self.span.hi as int,
            formatted: self.formatted@,
            requires_sep: self.requires_sep,
            is_import: self.is_import,
        }
    }
}

impl Item {
    /// Whether this item must be followed by a separator when it closes a
    /// block, under the active style configuration.  The item-level
    /// formatter decides this when it builds the item.
    pub fn requires_semicolon(&self) -> (r: bool)
        ensures
            r == self@.requires_sep,
    {
        self.requires_sep
    }

    /// Whether this item is an import-like declaration.
    pub fn is_import_like(&self) -> (r: bool)
        ensures
            r == self@.is_import,
    {
        self.is_import
    }
}

/// The mathematical form of an attribute.
pub struct AttrV {
    pub lo: int,
    pub hi: int,
    pub formatted: Seq<u8>,
}

/// An inner attribute of a block: its span and its formatted text.
pub struct Attr {
    pub span: SourceSpan,
    pub formatted: Vec<u8>,
}

impl View for Attr {
    type V = AttrV;

    open spec fn view(&self) -> AttrV {
        AttrV { lo: self.span.lo as int, hi: self.span.hi as int, formatted: self.formatted@ }
    }
}

/// The mathematical form of a block.
pub struct BlockV {
    pub items: Seq<ItemV>,
    pub inner_attrs: Option<Seq<AttrV>>,
    pub empty_block_style: EmptyBlockStyle,
    pub lo: int,
    pub hi: int,
}

/// A block (`{ ... }`): its items, optional leading inner attributes, the
/// empty-block layout policy, and the span of the whole block including
/// both braces.
pub struct Block {
    pub items: Vec<Item>,
    pub inner_attrs: Option<Vec<Attr>>,
    pub empty_block_style: EmptyBlockStyle,
    pub span: SourceSpan,
}

impl View for Block {
    type V = BlockV;

    open spec fn view(&self) -> BlockV {
        BlockV {
            items: self.items.deep_view(),
            inner_attrs: match self.inner_attrs {
                Some(a) => Some(a.deep_view()),
                None => None,
            },
            empty_block_style: self.empty_block_style,
            lo: self.span.lo as int,
            hi: self.span.hi as int,
        }
    }
}

impl DeepView for Item {
    type V = ItemV;

    open spec fn deep_view(&self) -> ItemV {
        self.view()
    }
}

impl DeepView for Attr {
    type V = AttrV;

    open spec fn deep_view(&self) -> AttrV {
        self.view()
    }
}

/// A block is well formed when its span holds both braces, its attributes
/// precede its items, and attributes and items sit in order strictly
/// inside the braces.
pub open spec fn block_wf(b: BlockV) -> bool {
    &&& b.lo + 2 <= b.hi
    &&& forall|k: int|
        0 <= k < b.items.len() ==> b.lo + 1 <= (#[trigger] b.items[k]).lo <= b.items[k].hi <= b.hi
            - 1
    &&& forall|k: int| 0 <= k < b.items.len() - 1 ==> (#[trigger] b.items[k]).hi <= b.items[k
        + 1].lo
    &&& (match b.inner_attrs {
        Some(attrs) => {
            &&& forall|k: int|
                0 <= k < attrs.len() ==> b.lo + 1 <= (#[trigger] attrs[k]).lo <= attrs[k].hi
                    <= b.hi - 1
            &&& forall|k: int| 0 <= k < attrs.len() - 1 ==> (#[trigger] attrs[k]).hi <= attrs[k
                + 1].lo
            &&& (attrs.len() > 0 && b.items.len() > 0 ==> attrs[attrs.len() - 1].hi
                <= b.items[0].lo)
        },
        None => true,
    })
}

impl Block {
    /// A block from a function-body-like brace sequence: the parsed
    /// statements, the block's inner attributes if the caller has any, the
    /// empty-block policy, and the span of the braces.
    pub fn from_ast_block(
        items: Vec<Item>,
        inner_attrs: Option<Vec<Attr>>,
        empty_block_style: EmptyBlockStyle,
        span: SourceSpan,
    ) -> (b: Block)
        requires
            span_wf(span),
        ensures
            b@.items == items.deep_view(),
            b@.inner_attrs == (match inner_attrs {
                Some(a) => Some(a.deep_view()),
                None => None::<Seq<AttrV>>,
            }),
            b@.empty_block_style == empty_block_style,
            b@.lo == span.lo as int,
            b@.hi == span.hi as int,
    {
        Block { items, inner_attrs, empty_block_style, span }
    }

    /// A block from an inline module: the module's items, its inner
    /// attributes (an empty list counts as none), the empty-block policy,
    /// and the span between the module's braces.
    pub fn from_ast_module(
        items: Vec<Item>,
        inner_attrs: Vec<Attr>,
        empty_block_style: EmptyBlockStyle,
        span: SourceSpan,
    ) -> (b: Block)
        requires
            span_wf(span),
        ensures
            b@.items == items.deep_view(),
            b@.inner_attrs == (if inner_attrs.deep_view().len() == 0 {
                None::<Seq<AttrV>>
            } else {
                Some(inner_attrs.deep_view())
            }),
            b@.empty_block_style == empty_block_style,
            b@.lo == span.lo as int,
            b@.hi == span.hi as int,
    {
        let attrs = if inner_attrs.len() == 0 {
            None
        } else {
            Some(inner_attrs)
        };
        Block { items, inner_attrs: attrs, empty_block_style, span }
    }
}

/// The length of the maximal run of import-like items starting at `start`.
pub open spec fn leading_import_run(items: Seq<ItemV>, start: int) -> int
    decreases items.len() - start when 0 <= start <= items.len()
{
    if start >= items.len() || !items[start].is_import {
        0
    } else {
        1 + leading_import_run(items, start + 1)
    }
}

/// The leading-use grouping boundary: the grouper consumes exactly the
/// maximal leading run of import-like items — every item of the run is
/// import-like, and the first item after the run, when there is one, is
/// not, so a later import is never merged into the group.
pub proof fn lemma_leading_import_run_boundary(items: Seq<ItemV>, start: int)
    requires
        0 <= start <= items.len(),
    ensures
        ({
            let n = leading_import_run(items, start);
            &&& 0 <= n
            &&& start + n <= items.len()
            &&& forall|j: int| start <= j < start + n ==> (#[trigger] items[j]).is_import
            &&& (start + n < items.len() ==> !items[start + n].is_import)
        }),
    decreases items.len() - start,
{
    if start >= items.len() || !items[start].is_import {
    } else {
        lemma_leading_import_run_boundary(items, start + 1);
    }
}

/// Count the leading run of import-like items at `start`; what the grouper
/// consumes and hands off as one unit.
pub fn leading_use_run(items: &Vec<Item>, start: usize) -> (n: usize)
    requires
        start <= items@.len(),
    ensures
        n as int == leading_import_run(items.deep_view(), start as int),
        start + n <= items@.len(),
{
    let ghost iv = items.deep_view();
    let mut i = start;
    while i < items.len()
        invariant
            start <= i <= items@.len(),
            iv == items.deep_view(),
            iv.len() == items@.len(),
            leading_import_run(iv, start as int) == i - start + leading_import_run(iv, i as int),
        decreases items@.len() - i,
    {
        if !items[i].is_import {
            assert(!iv[i as int].is_import);
            assert(leading_import_run(iv, i as int) == 0);
            return i - start;
        }
        assert(iv[i as int].is_import);
        i = i + 1;
    }
    assert(leading_import_run(iv, i as int) == 0);
    i - start
}

} // verus!
