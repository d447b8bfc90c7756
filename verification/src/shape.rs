//! The indentation tracker: the nesting state a block's visit pushes on
//! entry and pops on exit, and the shape handed to the comment re-flow
//! layer.

use crate::options::Config;
use vstd::prelude::*;

verus! {

/// The current indentation, as a column width.  One block level adds
/// `tab_spaces` columns.
#[derive(Clone, Copy, Debug, PartialEq, Eq, Structural)]
pub struct Indent {
    pub width: usize,
}

/// The bytes `to_string_with_newline` produces: a newline and the blank
/// prefix of the current level.
pub open spec fn indent_newline(width: int) -> Seq<u8> {
    seq![10u8] + Seq::new(width as nat, |i: int| 32u8)
}

impl Indent {
    /// The outermost indentation.
    pub fn root() -> (r: Indent)
        ensures
            r.width == 0,
    {
        Indent { width: 0 }
    }

    /// One level deeper.  The owner of the previous state is responsible
    /// for the matching `block_unindent`.
    pub fn block_indent(self, config: &Config) -> (r: Indent)
        requires
            self.width + config.tab_spaces <= usize::MAX,
        ensures
            r.width == self.width + config.tab_spaces,
    {
        Indent { width: self.width + config.tab_spaces }
    }

    /// One level shallower; reverses `block_indent`.
    pub fn block_unindent(self, config: &Config) -> (r: Indent)
        requires
            config.tab_spaces <= self.width,
        ensures
            r.width == self.width - config.tab_spaces,
    {
        Indent { width: self.width - config.tab_spaces }
    }

    /// A newline followed by the exact blank prefix of this level.
    pub fn to_string_with_newline(&self, _config: &Config) -> (r: Vec<u8>)
        ensures
            r@ == indent_newline(self.width as int),
    {
        let mut r: Vec<u8> = Vec::new();
        r.push(10u8);
        let mut i: usize = 0;
        while i < self.width
            invariant
                i <= self.width,
                r@.len() == 1 + i,
                r@[0] == 10u8,
                forall|j: int| 1 <= j < r@.len() ==> r@[j] == 32u8,
            decreases self.width - i,
        {
            r.push(32u8);
            i = i + 1;
        }
        proof {
            assert(r@ =~= indent_newline(self.width as int));
        }
        r
    }
}

/// The space an emitted fragment may occupy: a width budget at an
/// indentation.
#[derive(Clone, Copy, Debug, PartialEq, Eq, Structural)]
pub struct Shape {
    pub width: usize,
    pub indent: Indent,
}

impl Shape {
    /// The shape filling the rest of a line at `indent` under the
    /// configured maximum width.
    pub fn indented(indent: Indent, config: &Config) -> (r: Shape)
        ensures
            r.indent == indent,
            r.width as int == (if config.max_width >= indent.width {
                config.max_width - indent.width
            } else {
                0int
            }),
    {
        let w = if config.max_width >= indent.width {
            config.max_width - indent.width
        } else {
            0
        };
        Shape { width: w, indent }
    }
}

} // verus!
