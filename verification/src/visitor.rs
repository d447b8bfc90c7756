//! The block visitor and the closing reconstructor: the orchestrator that
//! emits a block's delimiters, dispatches its items, and re-interleaves the
//! preserved comments of the gap before the closing brace.

use crate::block::{block_wf, leading_use_run, Attr, AttrV, Block, BlockV, EmptyBlockStyle, Item, ItemV};
use crate::comment::{
    comment_code_slices, contains_comment, contains_newline, count_newlines, has_newline,
    is_comment_start,
    is_skippable, last_line_width, lemma_scan_partition, rewrite_comment, rewritten_or_raw,
    scan_from, spec_contains_comment, spec_count_newlines, spec_last_line_width, spec_skippable,
    spec_trimmed, subvec, trim_bounds, CodeCharKind, CodeSlice,
};
use crate::options::Config;
use crate::shape::{indent_newline, Indent};
use crate::span::{mk_sp, span_wf, SourceSpan};
use vstd::prelude::*;

verus! {

/// The formatter state of one file's pass: the immutable source buffer,
/// the append-only output buffer, the cursor of the last processed source
/// position, the indentation tracker, the style configuration, and the
/// conditional-chain flag of the block being visited.
pub struct FmtVisitor {
    pub source: Vec<u8>,
    pub buffer: Vec<u8>,
    pub last_pos: usize,
    pub block_indent: Indent,
    pub config: Config,
    pub is_if_else_block: bool,
}

/// The walking state of the closing reconstructor.
pub struct CloseState {
    pub buf: Seq<u8>,
    pub indent: int,
    pub last_hi: int,
    pub unindented: bool,
    pub prev_ends_nl: bool,
    pub extra_newline: bool,
}

/// The reconstructor's state on entry: the buffer so far, the block's
/// inner indentation, and a cursor at the start of the gap.
pub open spec fn close_init(buf: Seq<u8>, width: int) -> CloseState {
    CloseState {
        buf,
        indent: width,
        last_hi: 0,
        unindented: false,
        prev_ends_nl: false,
        extra_newline: false,
    }
}

/// One step of the closing reconstructor over one slice of the gap.
///
/// A comment is kept: on the same output line when nothing since the cursor
/// held a newline and the trailing width (maximum width minus the current
/// line width minus one space) is nonzero; otherwise on a fresh indented
/// line, preceded by one blank line exactly when the source gap held two or
/// more newlines or the previous blank filler spanned one.  Blank or
/// semicolon-only filler is dropped, but remembered for that blank-line
/// decision.  Any other code is emitted trimmed on a fresh indented line.
pub open spec fn close_step(
    st: CloseState,
    sl: (bool, int, int),
    src: Seq<u8>,
    max_width: int,
    tab: int,
    unindent_comment: bool,
) -> CloseState {
    let text = src.subrange(sl.1, sl.1 + sl.2);
    if sl.0 {
        let indent1 = if !st.unindented && unindent_comment {
            st.indent - tab
        } else {
            st.indent
        };
        let gap = src.subrange(st.last_hi, sl.1);
        let avail = max_width - spec_last_line_width(st.buf) - 1;
        let same_line = !has_newline(gap) && avail > 0;
        let out = rewritten_or_raw(text);
        let buf1 = if same_line {
            st.buf + seq![32u8] + out
        } else {
            st.buf + (if spec_count_newlines(gap) >= 2 || st.extra_newline {
                seq![10u8]
            } else {
                Seq::<u8>::empty()
            }) + indent_newline(indent1) + out
        };
        CloseState {
            buf: buf1,
            indent: indent1,
            last_hi: sl.1 + sl.2,
            unindented: st.unindented || unindent_comment,
            prev_ends_nl: text.len() > 0 && text[text.len() - 1] == 10u8,
            extra_newline: false,
        }
    } else if spec_skippable(text) {
        CloseState {
            buf: st.buf,
            indent: st.indent,
            last_hi: st.last_hi,
            unindented: st.unindented,
            prev_ends_nl: st.prev_ends_nl,
            extra_newline: st.prev_ends_nl && has_newline(text),
        }
    } else {
        CloseState {
            buf: st.buf + indent_newline(st.indent) + spec_trimmed(text),
            indent: st.indent,
            last_hi: sl.1 + sl.2,
            unindented: st.unindented,
            prev_ends_nl: text.len() > 0 && text[text.len() - 1] == 10u8,
            extra_newline: false,
        }
    }
}

/// The reconstructor's state after the first `n` slices of the gap.
pub open spec fn close_fold(
    st0: CloseState,
    slices: Seq<(bool, int, int)>,
    n: int,
    src: Seq<u8>,
    max_width: int,
    tab: int,
    unindent_comment: bool,
) -> CloseState
    decreases n,
{
    if n <= 0 {
        st0
    } else {
        close_step(
            close_fold(st0, slices, n - 1, src, max_width, tab, unindent_comment),
            slices[n - 1],
            src,
            max_width,
            tab,
            unindent_comment,
        )
    }
}

/// The whole buffer after closing a block over the gap `snip`: the walked
/// slices, then a newline at the enclosing level and the closing brace.
pub open spec fn close_block_buf(
    buf0: Seq<u8>,
    width: int,
    snip: Seq<u8>,
    max_width: int,
    tab: int,
    unindent_comment: bool,
) -> Seq<u8> {
    let ss = scan_from(snip, 0);
    close_fold(close_init(buf0, width), ss, ss.len() as int, snip, max_width, tab,
        unindent_comment).buf + indent_newline(width - tab) + seq![125u8]
}

impl FmtVisitor {
    /// The state invariant of one pass: the cursor stays inside the source.
    pub open spec fn wf(self) -> bool {
        &&& self.last_pos <= self.source@.len()
        &&& self.source@.len() < usize::MAX
    }

    /// A fresh pass over `source` under `config`.
    pub fn from_source(source: Vec<u8>, config: Config) -> (v: FmtVisitor)
        requires
            source@.len() < usize::MAX,
        ensures
            v.wf(),
            v.source@ == source@,
            v.buffer@ == Seq::<u8>::empty(),
            v.last_pos == 0,
            v.block_indent.width == 0,
            v.config == config,
            !v.is_if_else_block,
    {
        FmtVisitor {
            source,
            buffer: Vec::new(),
            last_pos: 0,
            block_indent: Indent { width: 0 },
            config,
            is_if_else_block: false,
        }
    }

    /// Everything but the output buffer is unchanged.
    pub open spec fn same_but_buffer(self, other: FmtVisitor) -> bool {
        &&& other.source == self.source
        &&& other.last_pos == self.last_pos
        &&& other.block_indent == self.block_indent
        &&& other.config == self.config
        &&& other.is_if_else_block == self.is_if_else_block
    }

    /// Append one byte to the output.
    fn push_byte(&mut self, b: u8)
        ensures
            final(self).buffer@ == old(self).buffer@ + seq![b],
            old(self).same_but_buffer(*final(self)),
    {
        self.buffer.push(b);
        proof {
            assert(self.buffer@ =~= old(self).buffer@ + seq![b]);
        }
    }

    /// Append raw bytes to the output.
    pub fn push_str(&mut self, s: &Vec<u8>)
        ensures
            final(self).buffer@ == old(self).buffer@ + s@,
            old(self).same_but_buffer(*final(self)),
    {
        let mut i: usize = 0;
        while i < s.len()
            invariant
                i <= s@.len(),
                self.buffer@ == old(self).buffer@ + s@.subrange(0, i as int),
                old(self).same_but_buffer(*self),
            decreases s@.len() - i,
        {
            self.buffer.push(s[i]);
            proof {
                assert(old(self).buffer@ + s@.subrange(0, i as int) + seq![s@[i as int]]
                    =~= old(self).buffer@ + s@.subrange(0, i + 1));
            }
            i = i + 1;
        }
        proof {
            assert(s@.subrange(0, s@.len() as int) =~= s@);
        }
    }

    /// Append a newline and the blank prefix of the current level.
    fn push_indent_newline(&mut self)
        ensures
            final(self).buffer@ == old(self).buffer@ + indent_newline(
                old(self).block_indent.width as int,
            ),
            old(self).same_but_buffer(*final(self)),
    {
        let s = self.block_indent.to_string_with_newline(&self.config);
        self.push_str(&s);
    }

    /// The verbatim text of a span of the source.
    pub fn snippet(&self, span: SourceSpan) -> (r: Vec<u8>)
        requires
            span_wf(span),
            span.hi <= self.source@.len(),
        ensures
            r@ == self.source@.subrange(span.lo as int, span.hi as int),
    {
        subvec(&self.source, span.lo, span.hi)
    }

    /// A block is empty when it has no items, no inner attributes, and no
    /// comment anywhere between its braces.
    pub fn is_empty_block(&self, b: &Block) -> (r: bool)
        requires
            span_wf(b.span),
            b.span.hi <= self.source@.len(),
        ensures
            r == spec_is_empty_block(self.source@, b@),
    {
        if b.items.len() > 0 {
            assert(b@.items.len() > 0);
            return false;
        }
        let no_attrs = match &b.inner_attrs {
            Some(attrs) => attrs.len() == 0,
            None => true,
        };
        if !no_attrs {
            return false;
        }
        let snip = self.snippet(b.span);
        !contains_comment(&snip)
    }

    /// The conditional-chain rule: the trailing comment before the closing
    /// brace of a non-empty `if` body with an `else` continuation is
    /// unindented one level.
    pub fn unindent_comment_on_closing_brace(&self, b: &Block) -> (r: bool)
        ensures
            r == (self.is_if_else_block && b@.items.len() > 0),
    {
        self.is_if_else_block && b.items.len() > 0
    }

    /// Whether a span lies entirely outside the configured line-range
    /// filter, and is therefore copied verbatim rather than reconstructed.
    #[verifier::loop_isolation(false)]
    pub fn out_of_file_lines_range(&self, span: SourceSpan) -> (r: bool)
        requires
            span_wf(span),
            span.hi <= self.source@.len(),
            self.source@.len() < usize::MAX,
        ensures
            r == spec_out_of_range(self.config, self.source@, span.lo as int, span.hi as int),
    {
        match &self.config.file_lines {
            None => false,
            Some(ranges) => {
                proof {
                    assert(self.config.file_lines == Some(*ranges));
                }
                let lo_prefix = subvec(&self.source, 0, span.lo);
                let hi_prefix = subvec(&self.source, 0, span.hi);
                proof {
                    crate::comment::lemma_count_nl_bound(lo_prefix@);
                    crate::comment::lemma_count_nl_bound(hi_prefix@);
                }
                let nl_lo = count_newlines(&lo_prefix);
                let nl_hi = count_newlines(&hi_prefix);
                let line_lo = 1 + nl_lo;
                let line_hi = 1 + nl_hi;
                let mut i: usize = 0;
                while i < ranges.len()
                    invariant
                        i <= ranges@.len(),
                        line_lo as int == spec_line_of(self.source@, span.lo as int),
                        line_hi as int == spec_line_of(self.source@, span.hi as int),
                        forall|k: int|
                            0 <= k < i ==> !((#[trigger] ranges@[k]).lo <= line_hi && line_lo
                                <= ranges@[k].hi),
                    decreases ranges@.len() - i,
                {
                    let r = ranges[i];
                    if r.lo <= line_hi && line_lo <= r.hi {
                        assert(ranges@[i as int].lo <= spec_line_of(self.source@, span.hi as int)
                            && spec_line_of(self.source@, span.lo as int) <= ranges@[i as int].hi);
                        return false;
                    }
                    i = i + 1;
                }
                true
            },
        }
    }

    /// Reconstruct the gap between the last formatted construct and the
    /// closing brace: walk its comment and code slices, keep every comment
    /// (re-wrapped when the re-flow layer accepts it), normalize blank
    /// lines, drop blank and semicolon filler, then emit the closing brace
    /// on its own line one level out.
    #[verifier::loop_isolation(false)]
    pub fn close_block(&mut self, span: SourceSpan, unindent_comment: bool)
        requires
            old(self).wf(),
            span_wf(span),
            span.hi <= old(self).source@.len(),
            old(self).config.tab_spaces <= old(self).block_indent.width,
        ensures
            final(self).wf(),
            final(self).source == old(self).source,
            final(self).config == old(self).config,
            final(self).last_pos == old(self).last_pos,
            final(self).is_if_else_block == old(self).is_if_else_block,
            final(self).block_indent.width == old(self).block_indent.width - old(
                self,
            ).config.tab_spaces,
            final(self).buffer@ == close_block_buf(
                old(self).buffer@,
                old(self).block_indent.width as int,
                old(self).source@.subrange(span.lo as int, span.hi as int),
                old(self).config.max_width as int,
                old(self).config.tab_spaces as int,
                unindent_comment,
            ),
    {
        let ghost w0 = old(self).block_indent.width as int;
        let ghost tab = old(self).config.tab_spaces as int;
        let ghost maxw = old(self).config.max_width as int;
        let snip = self.snippet(span);
        let ghost t = snip@;
        let slices = comment_code_slices(&snip);
        let ghost ss = scan_from(t, 0);
        let ghost st0 = close_init(old(self).buffer@, w0);
        proof {
            lemma_scan_partition(t, 0);
        }
        let mut last_hi: usize = 0;
        let mut unindented = false;
        let mut prev_ends_with_newline = false;
        let mut extra_newline = false;
        let mut idx: usize = 0;
        while idx < slices.len()
            invariant
                old(self).wf(),
                self.source == old(self).source,
                self.config == old(self).config,
                self.last_pos == old(self).last_pos,
                self.is_if_else_block == old(self).is_if_else_block,
                t == old(self).source@.subrange(span.lo as int, span.hi as int),
                t == snip@,
                ss == scan_from(t, 0),
                slices@.map_values(|s: CodeSlice| s.model()) == ss,
                idx <= slices@.len(),
                ss.len() == slices@.len(),
                ({
                    let st = close_fold(st0, ss, idx as int, t, maxw, tab, unindent_comment);
                    &&& st.buf == self.buffer@
                    &&& st.indent == self.block_indent.width as int
                    &&& st.last_hi == last_hi as int
                    &&& st.unindented == unindented
                    &&& st.prev_ends_nl == prev_ends_with_newline
                    &&& st.extra_newline == extra_newline
                }),
                unindented ==> self.block_indent.width as int == w0 - tab,
                !unindented ==> self.block_indent.width as int == w0,
                tab <= w0,
                last_hi as int <= (if (idx as int) < ss.len() {
                    ss[idx as int].1
                } else {
                    t.len() as int
                }),
                forall|k: int|
                    0 <= k < ss.len() ==> (#[trigger] ss[k]).2 > 0 && ss[k].1 + ss[k].2
                        <= t.len(),
                forall|k: int| 0 <= k < ss.len() - 1 ==> (#[trigger] ss[k + 1]).1 == ss[k].1
                    + ss[k].2,
            decreases slices@.len() - idx,
        {
            let ghost st_pre = close_fold(st0, ss, idx as int, t, maxw, tab, unindent_comment);
            let sl = slices[idx];
            proof {
                assert(slices@.map_values(|s: CodeSlice| s.model())[idx as int] == slices@[
                    idx as int].model());
                assert(ss[idx as int] == sl.model());
            }
            let off = sl.offset;
            let len = sl.len;
            let text = subvec(&snip, off, off + len);
            let is_comment = match sl.kind {
                CodeCharKind::Comment => true,
                CodeCharKind::Normal => false,
            };
            if is_comment {
                if !unindented && unindent_comment {
                    assert(self.block_indent.width as int == w0);
                    self.block_indent = self.block_indent.block_unindent(&self.config);
                    unindented = true;
                }
                let gap = subvec(&snip, last_hi, off);
                let same0 = !contains_newline(&gap);
                let llw = last_line_width(&self.buffer);
                let same_line = same0 && self.config.max_width > llw && self.config.max_width
                    - llw > 1;
                proof {
                    let avail = maxw - spec_last_line_width(st_pre.buf) - 1;
                    assert(same_line == (!has_newline(gap@) && avail > 0));
                }
                let ends_nl = text.len() > 0 && text[text.len() - 1] == 10u8;
                let out = match rewrite_comment(&text) {
                    Some(v) => v,
                    None => text,
                };
                if same_line {
                    self.push_byte(32u8);
                    self.push_str(&out);
                } else {
                    if count_newlines(&gap) >= 2 || extra_newline {
                        self.push_byte(10u8);
                    }
                    self.push_indent_newline();
                    self.push_str(&out);
                }
                prev_ends_with_newline = ends_nl;
                extra_newline = false;
                last_hi = off + len;
                proof {
                    let st_post = close_step(st_pre, ss[idx as int], t, maxw, tab,
                        unindent_comment);
                    assert(self.buffer@ =~= st_post.buf);
                }
            } else {
                if is_skippable(&text) {
                    extra_newline = prev_ends_with_newline && contains_newline(&text);
                } else {
                    self.push_indent_newline();
                    proof {
                        crate::comment::lemma_trim_idx(text@);
                    }
                    let (a, bnd) = trim_bounds(&text);
                    if a < bnd {
                        let tr = subvec(&text, a, bnd);
                        self.push_str(&tr);
                    }
                    let ends_nl = text.len() > 0 && text[text.len() - 1] == 10u8;
                    prev_ends_with_newline = ends_nl;
                    extra_newline = false;
                    last_hi = off + len;
                    proof {
                        let st_post = close_step(st_pre, ss[idx as int], t, maxw, tab,
                            unindent_comment);
                        assert(self.buffer@ =~= st_post.buf);
                    }
                }
            }
            proof {
                assert(close_fold(st0, ss, idx + 1, t, maxw, tab, unindent_comment)
                    == close_step(st_pre, ss[idx as int], t, maxw, tab, unindent_comment));
            }
            idx = idx + 1;
        }
        if unindented {
            self.block_indent = self.block_indent.block_indent(&self.config);
        }
        self.block_indent = self.block_indent.block_unindent(&self.config);
        self.push_indent_newline();
        self.push_byte(125u8);
        proof {
            assert(final(self).buffer@ =~= close_block_buf(
                old(self).buffer@,
                w0,
                t,
                maxw,
                tab,
                unindent_comment,
            ));
        }
    }

    /// Emit one item: the item-level formatter's text for it on a fresh
    /// line at the current indentation, advancing the cursor past its span.
    #[verifier::loop_isolation(false)]
    pub fn visit_stmt(&mut self, item: &Item)
        requires
            old(self).wf(),
            item.span.hi <= old(self).source@.len(),
        ensures
            final(self).wf(),
            final(self).buffer@ == old(self).buffer@ + indent_newline(
                old(self).block_indent.width as int,
            ) + item@.formatted,
            final(self).last_pos == item.span.hi,
            final(self).source == old(self).source,
            final(self).config == old(self).config,
            final(self).block_indent == old(self).block_indent,
            final(self).is_if_else_block == old(self).is_if_else_block,
    {
        self.push_indent_newline();
        self.push_str(&item.formatted);
        self.last_pos = item.span.hi;
    }

    /// Emit a leading run of import-like items as one unit.  Their relative
    /// order inside the unit belongs to the import-normalizing collaborator;
    /// this engine hands the run off atomically and emits it in the order
    /// given.
    #[verifier::loop_isolation(false)]
    pub fn visit_items_with_reordering(&mut self, items: &Vec<Item>, start: usize, count: usize)
        requires
            old(self).wf(),
            count >= 1,
            start + count <= items@.len(),
            forall|k: int|
                0 <= k < items@.len() ==> (#[trigger] items.deep_view()[k]).hi <= old(
                    self,
                ).source@.len(),
        ensures
            final(self).wf(),
            final(self).buffer@ == old(self).buffer@ + items_emission(
                items.deep_view(),
                old(self).block_indent.width as int,
                start as int,
                start + count,
            ),
            final(self).last_pos as int == items.deep_view()[start + count - 1].hi,
            final(self).source == old(self).source,
            final(self).config == old(self).config,
            final(self).block_indent == old(self).block_indent,
            final(self).is_if_else_block == old(self).is_if_else_block,
    {
        let ghost iv = items.deep_view();
        let ghost w = old(self).block_indent.width as int;
        let n = items.len();
        let end = start + count;
        let mut i = start;
        while i < end
            invariant
                end == start + count <= items@.len(),
                start <= i <= end,
                i > start ==> self.last_pos as int == iv[i - 1].hi,
                self.buffer@ == old(self).buffer@ + items_emission(iv, w, start as int, i as int),
                self.source == old(self).source,
                self.config == old(self).config,
                self.block_indent == old(self).block_indent,
                self.is_if_else_block == old(self).is_if_else_block,
                self.wf(),
            decreases end - i,
        {
            proof {
                assert(iv[i as int].hi == items@[i as int]@.hi);
            }
            self.visit_stmt(&items[i]);
            proof {
                assert(self.buffer@ =~= old(self).buffer@ + items_emission(
                    iv,
                    w,
                    start as int,
                    i + 1,
                ));
            }
            i = i + 1;
        }
    }

    /// Walk a statement sequence: a maximal leading run of import-like
    /// items at the cursor is handed to the grouper as one unit, any other
    /// item is visited singly, and the scan repeats on the remainder.
    #[verifier::loop_isolation(false)]
    pub fn walk_stmts(&mut self, stmts: &Vec<Item>)
        requires
            old(self).wf(),
            forall|k: int|
                0 <= k < stmts@.len() ==> (#[trigger] stmts.deep_view()[k]).hi <= old(
                    self,
                ).source@.len(),
        ensures
            final(self).wf(),
            final(self).buffer@ == old(self).buffer@ + items_emission(
                stmts.deep_view(),
                old(self).block_indent.width as int,
                0,
                stmts@.len() as int,
            ),
            stmts@.len() > 0 ==> final(self).last_pos as int == stmts.deep_view()[stmts@.len()
                - 1].hi,
            stmts@.len() == 0 ==> final(self).last_pos == old(self).last_pos,
            final(self).source == old(self).source,
            final(self).config == old(self).config,
            final(self).block_indent == old(self).block_indent,
            final(self).is_if_else_block == old(self).is_if_else_block,
    {
        let ghost iv = stmts.deep_view();
        let ghost w = old(self).block_indent.width as int;
        let mut i: usize = 0;
        while i < stmts.len()
            invariant
                i <= stmts@.len(),
                i > 0 ==> self.last_pos as int == iv[i - 1].hi,
                i == 0 ==> self.last_pos == old(self).last_pos,
                self.buffer@ == old(self).buffer@ + items_emission(iv, w, 0, i as int),
                self.source == old(self).source,
                self.config == old(self).config,
                self.block_indent == old(self).block_indent,
                self.is_if_else_block == old(self).is_if_else_block,
                self.wf(),
            decreases stmts@.len() - i,
        {
            let n = leading_use_run(stmts, i);
            if n == 0 {
                proof {
                    assert(iv[i as int].hi == stmts@[i as int]@.hi);
                }
                self.visit_stmt(&stmts[i]);
                proof {
                    lemma_items_emission_concat(iv, w, 0, i as int, i + 1);
                    assert(items_emission(iv, w, i as int, i as int) =~= Seq::<u8>::empty());
                    assert(items_emission(iv, w, i as int, i + 1) =~= indent_newline(w)
                        + iv[i as int].formatted);
                    assert(self.buffer@ =~= old(self).buffer@ + items_emission(iv, w, 0, i + 1));
                }
                i = i + 1;
            } else {
                self.visit_items_with_reordering(stmts, i, n);
                proof {
                    lemma_items_emission_concat(iv, w, 0, i as int, i + n);
                }
                i = i + n;
            }
        }
    }

    /// Walk the statements of a block body.
    pub fn walk_block_stmts(&mut self, stmts: &Vec<Item>)
        requires
            old(self).wf(),
            forall|k: int|
                0 <= k < stmts@.len() ==> (#[trigger] stmts.deep_view()[k]).hi <= old(
                    self,
                ).source@.len(),
        ensures
            final(self).wf(),
            final(self).buffer@ == old(self).buffer@ + items_emission(
                stmts.deep_view(),
                old(self).block_indent.width as int,
                0,
                stmts@.len() as int,
            ),
            stmts@.len() > 0 ==> final(self).last_pos as int == stmts.deep_view()[stmts@.len()
                - 1].hi,
            stmts@.len() == 0 ==> final(self).last_pos == old(self).last_pos,
            final(self).source == old(self).source,
            final(self).config == old(self).config,
            final(self).block_indent == old(self).block_indent,
            final(self).is_if_else_block == old(self).is_if_else_block,
    {
        self.walk_stmts(stmts)
    }

    /// Emit the block's inner attributes, each on a fresh line at the
    /// current indentation, advancing the cursor past the last one.
    #[verifier::loop_isolation(false)]
    pub fn visit_attrs(&mut self, attrs: &Vec<Attr>)
        requires
            old(self).wf(),
            forall|k: int|
                0 <= k < attrs@.len() ==> (#[trigger] attrs.deep_view()[k]).hi <= old(
                    self,
                ).source@.len(),
        ensures
            final(self).wf(),
            final(self).buffer@ == old(self).buffer@ + attrs_emission(
                attrs.deep_view(),
                old(self).block_indent.width as int,
                0,
                attrs@.len() as int,
            ),
            attrs@.len() > 0 ==> final(self).last_pos as int == attrs.deep_view()[attrs@.len()
                - 1].hi,
            attrs@.len() == 0 ==> final(self).last_pos == old(self).last_pos,
            final(self).source == old(self).source,
            final(self).config == old(self).config,
            final(self).block_indent == old(self).block_indent,
            final(self).is_if_else_block == old(self).is_if_else_block,
    {
        let ghost av = attrs.deep_view();
        let ghost w = old(self).block_indent.width as int;
        let mut i: usize = 0;
        while i < attrs.len()
            invariant
                i <= attrs@.len(),
                i > 0 ==> self.last_pos as int == av[i - 1].hi,
                i == 0 ==> self.last_pos == old(self).last_pos,
                self.buffer@ == old(self).buffer@ + attrs_emission(av, w, 0, i as int),
                self.source == old(self).source,
                self.config == old(self).config,
                self.block_indent == old(self).block_indent,
                self.is_if_else_block == old(self).is_if_else_block,
                self.wf(),
            decreases attrs@.len() - i,
        {
            proof {
                assert(av[i as int].hi == attrs@[i as int]@.hi);
            }
            self.push_indent_newline();
            self.push_str(&attrs[i].formatted);
            self.last_pos = attrs[i].span.hi;
            proof {
                assert(self.buffer@ =~= old(self).buffer@ + attrs_emission(av, w, 0, i + 1));
            }
            i = i + 1;
        }
    }

    /// Remove the blank run between the opening brace and the block's first
    /// real content by advancing the cursor to its last newline, so that
    /// the source's blank lines there do not survive into the output.
    #[verifier::loop_isolation(false)]
    pub fn trim_spaces_after_opening_brace(&mut self, b: &Block)
        requires
            old(self).wf(),
            block_wf(b@),
            b.span.hi <= old(self).source@.len(),
            old(self).last_pos as int == b@.lo + 1,
        ensures
            final(self).wf(),
            final(self).buffer == old(self).buffer,
            final(self).source == old(self).source,
            final(self).config == old(self).config,
            final(self).block_indent == old(self).block_indent,
            final(self).is_if_else_block == old(self).is_if_else_block,
            b@.items.len() == 0 ==> final(self).last_pos == old(self).last_pos,
            b@.items.len() > 0 ==> final(self).last_pos as int == old(self).last_pos
                + trim_advance(
                old(self).source@.subrange(b@.lo + 1, spec_first_content_hi(b@)),
            ),
    {
        if b.items.len() == 0 {
            return ;
        }
        assert(b@.items.len() > 0);
        let hi: usize = match &b.inner_attrs {
            Some(attrs) => {
                if attrs.len() > 0 {
                    proof {
                        assert(b@.inner_attrs == Some(attrs.deep_view()));
                        assert(attrs.deep_view()[0] == attrs@[0]@);
                    }
                    attrs[0].span.lo
                } else {
                    proof {
                        assert(b.items.deep_view()[0] == b.items@[0]@);
                    }
                    b.items[0].span.lo
                }
            },
            None => {
                proof {
                    assert(b.items.deep_view()[0] == b.items@[0]@);
                }
                b.items[0].span.lo
            },
        };
        assert(hi as int == spec_first_content_hi(b@));
        assert(old(self).last_pos <= hi <= old(self).source@.len());
        let gap = self.snippet(mk_sp(self.last_pos, hi));
        let ghost g = gap@;
        let slices = comment_code_slices(&gap);
        proof {
            lemma_scan_partition(g, 0);
        }
        let ghost ss = scan_from(g, 0);
        if slices.len() > 0 {
            let first = slices[0];
            proof {
                assert(slices@.map_values(|s: CodeSlice| s.model())[0] == slices@[0].model());
                assert(ss[0] == first.model());
                assert(ss[0].1 == 0 && ss[0].2 > 0 && ss[0].1 + ss[0].2 <= g.len());
            }
            let is_normal = match first.kind {
                CodeCharKind::Normal => true,
                CodeCharKind::Comment => false,
            };
            if is_normal {
                let text = subvec(&gap, 0, first.len);
                match rfind_newline(&text) {
                    Some(adv) => {
                        proof {
                            assert(adv < g.len());
                            assert(self.last_pos + adv < hi);
                            assert(trim_advance(g) == adv as int);
                        }
                        self.last_pos = self.last_pos + adv;
                    },
                    None => {
                        proof {
                            assert(trim_advance(g) == 0);
                        }
                    },
                }
            } else {
                proof {
                    assert(ss[0].0);
                    assert(trim_advance(g) == 0);
                }
            }
        } else {
            proof {
                assert(ss.len() == 0);
                assert(trim_advance(g) == 0);
            }
        }
    }

    /// Visit one block: emit its opening brace one level in, collapse it if
    /// it is empty, else trim the gap after the brace, emit the inner
    /// attributes and the items, a trailing separator when the last item
    /// demands one, and reconstruct or copy the rest up to the closing
    /// brace; the cursor ends past the block.
    #[verifier::loop_isolation(false)]
    #[verifier::rlimit(60)]
    pub fn visit_block(&mut self, b: &Block)
        requires
            old(self).wf(),
            block_wf(b@),
            b.span.hi <= old(self).source@.len(),
            old(self).last_pos == b.span.lo,
            old(self).block_indent.width + old(self).config.tab_spaces <= usize::MAX,
        ensures
            final(self).wf(),
            final(self).source == old(self).source,
            final(self).config == old(self).config,
            final(self).is_if_else_block == old(self).is_if_else_block,
            final(self).block_indent == old(self).block_indent,
            final(self).last_pos == b.span.hi,
            final(self).buffer@ == visit_block_buf(
                old(self).source@,
                old(self).buffer@,
                old(self).block_indent.width as int,
                old(self).config,
                old(self).is_if_else_block,
                b@,
            ),
    {
        let ghost w0 = old(self).block_indent.width as int;
        self.last_pos = self.last_pos + 1;
        self.block_indent = self.block_indent.block_indent(&self.config);
        self.push_byte(123u8);
        if self.is_empty_block(b) {
            self.block_indent = self.block_indent.block_unindent(&self.config);
            let llw = last_line_width(&self.buffer);
            let single = match b.empty_block_style {
                EmptyBlockStyle::SingleLine => true,
                EmptyBlockStyle::MultiLine => false,
            };
            if single && llw < self.config.max_width {
                self.push_byte(125u8);
            } else {
                self.push_indent_newline();
                self.push_byte(125u8);
            }
            self.last_pos = b.span.hi;
            proof {
                assert(final(self).buffer@ =~= visit_block_buf(
                    old(self).source@,
                    old(self).buffer@,
                    w0,
                    old(self).config,
                    old(self).is_if_else_block,
                    b@,
                ));
            }
            return ;
        }
        self.trim_spaces_after_opening_brace(b);
        let ghost attrs_v = spec_attrs_of(b@);
        proof {
            assert forall|k: int| 0 <= k < b.items@.len() implies (
            #[trigger] b.items.deep_view()[k]).hi <= self.source@.len() by {
                assert(b.items.deep_view()[k] == b@.items[k]);
            }
        }
        match &b.inner_attrs {
            Some(attrs) => {
                proof {
                    assert(attrs.deep_view() == attrs_v);
                    assert forall|k: int| 0 <= k < attrs@.len() implies (
                    #[trigger] attrs.deep_view()[k]).hi <= self.source@.len() by {
                        assert(attrs.deep_view()[k] == attrs_v[k]);
                    }
                }
                self.visit_attrs(attrs);
            },
            None => {},
        }
        self.walk_stmts(&b.items);
        if b.items.len() > 0 {
            proof {
                assert(b.items.deep_view()[b.items@.len() - 1] == b.items@[b.items@.len() - 1]@);
            }
            if b.items[b.items.len() - 1].requires_semicolon() {
                self.push_byte(59u8);
            }
        }
        let ghost buf2 = old(self).buffer@ + seq![123u8] + attrs_emission(
            attrs_v,
            w0 + old(self).config.tab_spaces as int,
            0,
            attrs_v.len() as int,
        ) + items_emission(
            b@.items,
            w0 + old(self).config.tab_spaces as int,
            0,
            b@.items.len() as int,
        ) + spec_sep(b@);
        proof {
            assert(self.buffer@ =~= buf2);
            assert(self.last_pos as int == spec_pos_mid(b@));
            assert(self.last_pos as int <= b@.hi - 1);
        }
        let rest_lo = self.last_pos;
        let rest_span = mk_sp(rest_lo, b.span.hi);
        if self.out_of_file_lines_range(rest_span) {
            let snip = self.snippet(rest_span);
            self.push_str(&snip);
            self.block_indent = self.block_indent.block_unindent(&self.config);
        } else {
            let missing_span = mk_sp(rest_lo, b.span.hi - 1);
            let unindent = self.unindent_comment_on_closing_brace(b);
            self.close_block(missing_span, unindent);
        }
        self.last_pos = b.span.hi;
        proof {
            assert(final(self).buffer@ =~= visit_block_buf(
                old(self).source@,
                old(self).buffer@,
                w0,
                old(self).config,
                old(self).is_if_else_block,
                b@,
            ));
        }
    }
}

/// The text the item dispatch emits for items `[a, b)`: each item on a
/// fresh line at the block's inner indentation, in original order.
pub open spec fn items_emission(items: Seq<ItemV>, width: int, a: int, b: int) -> Seq<u8>
    decreases b - a,
{
    if b <= a {
        Seq::empty()
    } else {
        items_emission(items, width, a, b - 1) + indent_newline(width) + items[b - 1].formatted
    }
}

pub proof fn lemma_items_emission_concat(items: Seq<ItemV>, width: int, a: int, b: int, c: int)
    requires
        a <= b <= c,
    ensures
        items_emission(items, width, a, c) == items_emission(items, width, a, b)
            + items_emission(items, width, b, c),
    decreases c - b,
{
    if c == b {
        assert(items_emission(items, width, a, b) + items_emission(items, width, b, c)
            =~= items_emission(items, width, a, c));
    } else {
        lemma_items_emission_concat(items, width, a, b, c - 1);
        assert(items_emission(items, width, a, b) + items_emission(items, width, b, c)
            =~= items_emission(items, width, a, c));
    }
}

/// The text emitted for the inner attributes `[a, b)`.
pub open spec fn attrs_emission(attrs: Seq<AttrV>, width: int, a: int, b: int) -> Seq<u8>
    decreases b - a,
{
    if b <= a {
        Seq::empty()
    } else {
        attrs_emission(attrs, width, a, b - 1) + indent_newline(width) + attrs[b - 1].formatted
    }
}

/// The block's inner attributes, an absent list reading as empty.
pub open spec fn spec_attrs_of(b: BlockV) -> Seq<AttrV> {
    match b.inner_attrs {
        Some(a) => a,
        None => Seq::<AttrV>::empty(),
    }
}

/// Where the cursor stands after the last formatted construct of a
/// non-empty block: after the last item, else after the last inner
/// attribute, else just past the opening brace.
pub open spec fn spec_pos_mid(b: BlockV) -> int {
    if b.items.len() > 0 {
        b.items[b.items.len() - 1].hi
    } else if spec_attrs_of(b).len() > 0 {
        spec_attrs_of(b)[spec_attrs_of(b).len() - 1].hi
    } else {
        b.lo + 1
    }
}

/// The separator emitted after the last item when the active style demands
/// one.
pub open spec fn spec_sep(b: BlockV) -> Seq<u8> {
    if b.items.len() > 0 && b.items[b.items.len() - 1].requires_sep {
        seq![59u8]
    } else {
        Seq::<u8>::empty()
    }
}

/// The index of the last newline of `t`; meaningful only when `t` holds
/// one.
pub open spec fn spec_rfind_nl(t: Seq<u8>) -> int
    decreases t.len(),
{
    if t.len() == 0 {
        0
    } else if t[t.len() - 1] == 10u8 {
        t.len() - 1
    } else {
        spec_rfind_nl(t.drop_last())
    }
}

proof fn lemma_rfind_at(t: Seq<u8>, j: int)
    requires
        0 <= j < t.len(),
        t[j] == 10u8,
        forall|k: int| j < k < t.len() ==> t[k] != 10u8,
    ensures
        spec_rfind_nl(t) == j,
    decreases t.len(),
{
    if j == t.len() - 1 {
    } else {
        assert(t[t.len() - 1] != 10u8);
        lemma_rfind_at(t.drop_last(), j);
    }
}

/// The start of the block's first real content: the first inner attribute
/// when there is one, else the first item.
pub open spec fn spec_first_content_hi(b: BlockV) -> int
    recommends
        b.items.len() > 0,
{
    match b.inner_attrs {
        Some(a) => if a.len() > 0 {
            a[0].lo
        } else {
            b.items[0].lo
        },
        None => b.items[0].lo,
    }
}

/// How far the whitespace-only gap after the opening brace advances the
/// cursor: to the last newline of the gap's first ordinary slice, so that
/// the source's blank run there does not produce a spurious blank line.
pub open spec fn trim_advance(gap: Seq<u8>) -> int {
    let ss = scan_from(gap, 0);
    if ss.len() > 0 && !ss[0].0 {
        let text = gap.subrange(0, ss[0].2);
        if has_newline(text) {
            spec_rfind_nl(text)
        } else {
            0
        }
    } else {
        0
    }
}

/// The index of the last newline, or `None` when there is none.
fn rfind_newline(t: &Vec<u8>) -> (r: Option<usize>)
    ensures
        (match r {
            Some(v) => has_newline(t@) && v as int == spec_rfind_nl(t@) && v < t@.len(),
            None => !has_newline(t@),
        }),
{
    let mut j: usize = t.len();
    while j > 0
        invariant
            j <= t@.len(),
            forall|k: int| j <= k < t@.len() ==> t@[k] != 10u8,
        decreases j,
    {
        if t[j - 1] == 10u8 {
            proof {
                lemma_rfind_at(t@, j - 1);
            }
            return Some(j - 1);
        }
        j = j - 1;
    }
    None
}

/// The whole output buffer after one block's visit.
///
/// An empty block collapses to `{}` exactly when its style allows a single
/// line and the current output line is under the maximum width; otherwise
/// its braces sit on separate lines.  A non-empty block opens with its
/// brace, emits its inner attributes and then its items each on a fresh
/// line one level in, a trailing separator when the last item demands one,
/// and closes by copying the rest verbatim when the line-range filter
/// excludes it, else by reconstructing the remaining gap and the brace.
pub open spec fn visit_block_buf(
    src: Seq<u8>,
    buf0: Seq<u8>,
    width0: int,
    cfg: Config,
    if_else: bool,
    b: BlockV,
) -> Seq<u8> {
    let tab = cfg.tab_spaces as int;
    let wid = width0 + tab;
    let buf1 = buf0 + seq![123u8];
    if spec_is_empty_block(src, b) {
        if b.empty_block_style == EmptyBlockStyle::SingleLine && spec_last_line_width(buf1)
            < cfg.max_width {
            buf1 + seq![125u8]
        } else {
            buf1 + indent_newline(width0) + seq![125u8]
        }
    } else {
        let attrs = spec_attrs_of(b);
        let buf2 = buf1 + attrs_emission(attrs, wid, 0, attrs.len() as int) + items_emission(
            b.items,
            wid,
            0,
            b.items.len() as int,
        ) + spec_sep(b);
        let mid = spec_pos_mid(b);
        if spec_out_of_range(cfg, src, mid, b.hi) {
            buf2 + src.subrange(mid, b.hi)
        } else {
            close_block_buf(
                buf2,
                wid,
                src.subrange(mid, b.hi - 1),
                cfg.max_width as int,
                tab,
                if_else && b.items.len() > 0,
            )
        }
    }
}


/// Round-trip comment preservation: one step of the closing reconstructor
/// never drops what is already emitted, and a comment slice contributes its
/// own (possibly re-wrapped) text exactly once — the buffer after its step
/// ends with that text and holds the previous buffer as a prefix.  Blank or
/// semicolon filler contributes nothing; other code contributes its trimmed
/// text on a fresh line and no comment text.
pub proof fn lemma_close_preserves_comments(
    st0: CloseState,
    slices: Seq<(bool, int, int)>,
    n: int,
    src: Seq<u8>,
    max_width: int,
    tab: int,
    unindent_comment: bool,
)
    requires
        0 <= n <= slices.len(),
    ensures
        forall|k: int|
            0 <= k < n ==> ({
                let before = close_fold(st0, slices, k, src, max_width, tab, unindent_comment).buf;
                let after = close_fold(
                    st0,
                    slices,
                    k + 1,
                    src,
                    max_width,
                    tab,
                    unindent_comment,
                ).buf;
                &&& before.len() <= after.len()
                &&& after.subrange(0, before.len() as int) == before
                &&& ((#[trigger] slices[k]).0 ==> ({
                    let text = rewritten_or_raw(
                        src.subrange(slices[k].1, slices[k].1 + slices[k].2),
                    );
                    &&& after.len() >= before.len() + text.len() + 1
                    &&& after.subrange(after.len() - text.len(), after.len() as int) == text
                }))
                &&& (!slices[k].0 && spec_skippable(
                    src.subrange(slices[k].1, slices[k].1 + slices[k].2),
                ) ==> after == before)
            }),
{
    assert forall|k: int| 0 <= k < n implies ({
        let before = close_fold(st0, slices, k, src, max_width, tab, unindent_comment).buf;
        let after = close_fold(st0, slices, k + 1, src, max_width, tab, unindent_comment).buf;
        &&& before.len() <= after.len()
        &&& after.subrange(0, before.len() as int) == before
        &&& ((#[trigger] slices[k]).0 ==> ({
            let text = rewritten_or_raw(src.subrange(slices[k].1, slices[k].1 + slices[k].2));
            &&& after.len() >= before.len() + text.len() + 1
            &&& after.subrange(after.len() - text.len(), after.len() as int) == text
        }))
        &&& (!slices[k].0 && spec_skippable(src.subrange(slices[k].1, slices[k].1 + slices[k].2))
            ==> after == before)
    }) by {
        let st = close_fold(st0, slices, k, src, max_width, tab, unindent_comment);
        let before = st.buf;
        let after = close_fold(st0, slices, k + 1, src, max_width, tab, unindent_comment).buf;
        assert(close_fold(st0, slices, k + 1, src, max_width, tab, unindent_comment)
            == close_step(st, slices[k], src, max_width, tab, unindent_comment));
        let sl = slices[k];
        let raw = src.subrange(sl.1, sl.1 + sl.2);
        if sl.0 {
            let text = rewritten_or_raw(raw);
            let indent1 = if !st.unindented && unindent_comment {
                st.indent - tab
            } else {
                st.indent
            };
            let gap = src.subrange(st.last_hi, sl.1);
            let avail = max_width - spec_last_line_width(st.buf) - 1;
            if !has_newline(gap) && avail > 0 {
                assert(after =~= before + seq![32u8] + text);
                assert(after.subrange(0, before.len() as int) =~= before);
                assert(after.subrange(after.len() - text.len(), after.len() as int) =~= text);
            } else {
                let blank: Seq<u8> = if spec_count_newlines(gap) >= 2 || st.extra_newline {
                    seq![10u8]
                } else {
                    Seq::<u8>::empty()
                };
                assert(after =~= before + blank + indent_newline(indent1) + text);
                assert(indent_newline(indent1).len() >= 1);
                assert(after.subrange(0, before.len() as int) =~= before);
                assert(after.subrange(after.len() - text.len(), after.len() as int) =~= text);
            }
        } else if spec_skippable(raw) {
            assert(after == before);
            assert(after.subrange(0, before.len() as int) =~= before);
        } else {
            assert(after =~= before + indent_newline(st.indent) + spec_trimmed(raw));
            assert(after.subrange(0, before.len() as int) =~= before);
        }
    }
}

/// Blank-line normalization between two comments: when two comments are
/// separated by one run of blank filler, the second is emitted on a fresh
/// indented line preceded by exactly one blank line when the filler held
/// two or more newlines, and by none when it held fewer.  The first
/// comment's text must not end in a newline (a slice of the scanner never
/// does), and the filler holds at least one newline, so the second comment
/// cannot stay on the same line.
pub proof fn lemma_blank_line_normalization(
    st0: CloseState,
    slices: Seq<(bool, int, int)>,
    src: Seq<u8>,
    max_width: int,
    tab: int,
    unindent_comment: bool,
    k: int,
)
    requires
        0 <= k,
        k + 2 < slices.len(),
        slices[k].0,
        !slices[k + 1].0,
        slices[k + 2].0,
        slices[k + 1].1 == slices[k].1 + slices[k].2,
        slices[k + 2].1 == slices[k + 1].1 + slices[k + 1].2,
        spec_skippable(src.subrange(slices[k + 1].1, slices[k + 1].1 + slices[k + 1].2)),
        has_newline(src.subrange(slices[k + 1].1, slices[k + 1].1 + slices[k + 1].2)),
        ({
            let t = src.subrange(slices[k].1, slices[k].1 + slices[k].2);
            t.len() == 0 || t[t.len() - 1] != 10u8
        }),
    ensures
        ({
            let st2 = close_fold(st0, slices, k + 2, src, max_width, tab, unindent_comment);
            let st3 = close_fold(st0, slices, k + 3, src, max_width, tab, unindent_comment);
            let gap = src.subrange(slices[k + 1].1, slices[k + 1].1 + slices[k + 1].2);
            let out = rewritten_or_raw(
                src.subrange(slices[k + 2].1, slices[k + 2].1 + slices[k + 2].2),
            );
            st3.buf == st2.buf + (if spec_count_newlines(gap) >= 2 {
                seq![10u8]
            } else {
                Seq::<u8>::empty()
            }) + indent_newline(st2.indent) + out
        }),
{
    let st1 = close_fold(st0, slices, k + 1, src, max_width, tab, unindent_comment);
    let st2 = close_fold(st0, slices, k + 2, src, max_width, tab, unindent_comment);
    let st3 = close_fold(st0, slices, k + 3, src, max_width, tab, unindent_comment);
    assert(st2 == close_step(st1, slices[k + 1], src, max_width, tab, unindent_comment));
    assert(st3 == close_step(st2, slices[k + 2], src, max_width, tab, unindent_comment));
    let tk = src.subrange(slices[k].1, slices[k].1 + slices[k].2);
    assert(st1 == close_step(
        close_fold(st0, slices, k, src, max_width, tab, unindent_comment),
        slices[k],
        src,
        max_width,
        tab,
        unindent_comment,
    ));
    assert(!st1.prev_ends_nl);
    assert(!st2.extra_newline);
    assert(st2.last_hi == slices[k + 1].1);
    assert(st2.unindented == st1.unindented);
    let gap = src.subrange(st2.last_hi, slices[k + 2].1);
    assert(gap =~= src.subrange(slices[k + 1].1, slices[k + 1].1 + slices[k + 1].2));
    assert(has_newline(gap));
    assert(st2.indent == st1.indent);
    assert(st1.unindented == (close_fold(
        st0,
        slices,
        k,
        src,
        max_width,
        tab,
        unindent_comment,
    ).unindented || unindent_comment));
}

/// Empty-block collapsing: an empty block with the single-line style and an
/// opening line under the maximum width renders as `{}` on that line; with
/// the multi-line style, or at or over the width, its closing brace stands
/// alone on the next line at the enclosing indentation.
pub proof fn lemma_empty_block_collapsing(
    src: Seq<u8>,
    buf0: Seq<u8>,
    width0: int,
    cfg: Config,
    if_else: bool,
    b: BlockV,
)
    requires
        spec_is_empty_block(src, b),
    ensures
        b.empty_block_style == EmptyBlockStyle::SingleLine && spec_last_line_width(
            buf0 + seq![123u8],
        ) < cfg.max_width ==> visit_block_buf(src, buf0, width0, cfg, if_else, b) == buf0 + seq![
            123u8,
            125u8,
        ],
        !(b.empty_block_style == EmptyBlockStyle::SingleLine && spec_last_line_width(
            buf0 + seq![123u8],
        ) < cfg.max_width) ==> visit_block_buf(src, buf0, width0, cfg, if_else, b) == buf0 + seq![
            123u8,
        ] + indent_newline(width0) + seq![125u8],
{
    if b.empty_block_style == EmptyBlockStyle::SingleLine && spec_last_line_width(
        buf0 + seq![123u8],
    ) < cfg.max_width {
        assert(visit_block_buf(src, buf0, width0, cfg, if_else, b) =~= buf0 + seq![123u8, 125u8]);
    } else {
        assert(visit_block_buf(src, buf0, width0, cfg, if_else, b) =~= buf0 + seq![123u8]
            + indent_newline(width0) + seq![125u8]);
    }
}


/// One piece of idempotence: the collapsed `{}` that an empty single-line
/// block renders to, read back as a block of a new source with no items
/// and no attributes, is again an empty block and renders to the same two
/// bytes in the same line context under the same configuration.
pub proof fn lemma_empty_block_fixed_point(
    buf0: Seq<u8>,
    width0: int,
    cfg: Config,
    if_else: bool,
    src: Seq<u8>,
    b: BlockV,
    src2: Seq<u8>,
    b2: BlockV,
)
    requires
        spec_is_empty_block(src, b),
        b.empty_block_style == EmptyBlockStyle::SingleLine,
        spec_last_line_width(buf0 + seq![123u8]) < cfg.max_width,
        b2.items.len() == 0,
        b2.inner_attrs is None,
        b2.empty_block_style == EmptyBlockStyle::SingleLine,
        0 <= b2.lo,
        b2.hi <= src2.len(),
        src2.subrange(b2.lo, b2.hi) == seq![123u8, 125u8],
    ensures
        visit_block_buf(src, buf0, width0, cfg, if_else, b) == buf0 + seq![123u8, 125u8],
        visit_block_buf(src2, buf0, width0, cfg, if_else, b2) == visit_block_buf(
            src,
            buf0,
            width0,
            cfg,
            if_else,
            b,
        ),
{
    lemma_empty_block_collapsing(src, buf0, width0, cfg, if_else, b);
    let out = src2.subrange(b2.lo, b2.hi);
    assert forall|i: int| !is_comment_start(out, i) by {
        if 0 <= i && i + 1 < out.len() {
            assert(out[i] != 47u8);
        }
    }
    assert(spec_is_empty_block(src2, b2));
    lemma_empty_block_collapsing(src2, buf0, width0, cfg, if_else, b2);
}

/// A block is empty when it has no items, no inner attributes, and no
/// comment anywhere between its braces.
pub open spec fn spec_is_empty_block(src: Seq<u8>, b: BlockV) -> bool {
    &&& b.items.len() == 0
    &&& (match b.inner_attrs {
        Some(a) => a.len() == 0,
        None => true,
    })
    &&& !spec_contains_comment(src.subrange(b.lo, b.hi))
}

/// The one-based line number of byte position `pos`.
pub open spec fn spec_line_of(src: Seq<u8>, pos: int) -> int {
    1 + spec_count_newlines(src.subrange(0, pos))
}

/// A span is out of the configured line ranges: a filter is set and no
/// range of it touches the span's lines.
pub open spec fn spec_out_of_range(cfg: Config, src: Seq<u8>, lo: int, hi: int) -> bool {
    match cfg.file_lines {
        None => false,
        Some(ranges) => !(exists|k: int|
            0 <= k < ranges@.len() && (#[trigger] ranges@[k]).lo <= spec_line_of(src, hi)
                && spec_line_of(src, lo) <= ranges@[k].hi),
    }
}

} // verus!
