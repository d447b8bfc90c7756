//! Style options that configure the formatting engine, and the small helpers
//! that belong to them.

use vstd::prelude::*;
use vstd::string::StrSliceExecFns;

verus! {

/// Which line ending the emitted text uses.
#[derive(Clone, Copy, Debug, PartialEq, Eq, Structural)]
pub enum NewlineStyle {
    /// Detect the line ending from the raw input text.
    Auto,
    /// `\r\n`.
    Windows,
    /// `\n`.
    Unix,
    /// The platform's own line ending; this build targets platforms whose
    /// native ending is `\n`.
    Native,
}

/// The first index at or after `i` that holds a newline, or the length of
/// `s` when no newline follows.
pub open spec fn find_newline(s: Seq<char>, i: int) -> int
    recommends
        0 <= i <= s.len(),
    decreases s.len() - i when 0 <= i <= s.len()
{
    if i >= s.len() {
        s.len() as int
    } else if s[i] == '\n' {
        i
    } else {
        find_newline(s, i + 1)
    }
}

pub proof fn lemma_find_newline(s: Seq<char>, i: int)
    requires
        0 <= i <= s.len(),
    ensures
        i <= find_newline(s, i) <= s.len(),
        forall|j: int| i <= j < find_newline(s, i) ==> s[j] != '\n',
        find_newline(s, i) < s.len() ==> s[find_newline(s, i)] == '\n',
    decreases s.len() - i,
{
    if i >= s.len() {
    } else if s[i] == '\n' {
    } else {
        lemma_find_newline(s, i + 1);
    }
}

/// The line ending detected from raw text: the style of the first newline,
/// or `Native` when the text has none.
pub open spec fn auto_detect_spec(s: Seq<char>) -> NewlineStyle {
    let p = find_newline(s, 0);
    if p == s.len() {
        NewlineStyle::Native
    } else if (if p > 0 {
        s[p - 1]
    } else {
        s[0]
    }) == '\r' {
        NewlineStyle::Windows
    } else {
        NewlineStyle::Unix
    }
}

/// The text with every line break written `\r\n`: each `\n` becomes `\r\n`
/// and every bare `\r` is dropped.
pub open spec fn crlf_of(s: Seq<char>) -> Seq<char>
    decreases s.len(),
{
    if s.len() == 0 {
        Seq::empty()
    } else if s[0] == '\n' {
        seq!['\r', '\n'] + crlf_of(s.drop_first())
    } else if s[0] == '\r' {
        crlf_of(s.drop_first())
    } else {
        seq![s[0]] + crlf_of(s.drop_first())
    }
}

proof fn lemma_crlf_push(s: Seq<char>, c: char)
    ensures
        crlf_of(s.push(c)) == crlf_of(s) + (if c == '\n' {
            seq!['\r', '\n']
        } else if c == '\r' {
            Seq::<char>::empty()
        } else {
            seq![c]
        }),
    decreases s.len(),
{
    let tail = (if c == '\n' {
        seq!['\r', '\n']
    } else if c == '\r' {
        Seq::<char>::empty()
    } else {
        seq![c]
    });
    if s.len() == 0 {
        assert(s.push(c)[0] == c);
        assert(s.push(c).drop_first() =~= Seq::<char>::empty());
        assert(crlf_of(Seq::<char>::empty()) =~= Seq::<char>::empty());
        assert(crlf_of(s.push(c)) =~= crlf_of(s) + tail);
    } else {
        assert(s.push(c)[0] == s[0]);
        assert(s.push(c).drop_first() =~= s.drop_first().push(c));
        lemma_crlf_push(s.drop_first(), c);
        assert(crlf_of(s.push(c)) =~= crlf_of(s) + tail);
    }
}

/// The style that `apply` acts with: `Auto` detects from the raw input, and
/// `Native` resolves to the platform ending, `\n` on the platforms this
/// build targets.
pub open spec fn resolved_style(style: NewlineStyle, raw: Seq<char>) -> NewlineStyle {
    let s1 = if style == NewlineStyle::Auto {
        auto_detect_spec(raw)
    } else {
        style
    };
    if s1 == NewlineStyle::Native {
        NewlineStyle::Unix
    } else {
        s1
    }
}

/// What applying a newline style leaves in the buffer.
pub open spec fn apply_spec(style: NewlineStyle, text: Seq<char>, raw: Seq<char>) -> Seq<char> {
    if resolved_style(style, raw) == NewlineStyle::Windows {
        crlf_of(text)
    } else {
        text
    }
}

/// Relies on String's FromIterator impl: collecting characters yields a
/// string of exactly those characters.
#[verifier::external_body]
pub(crate) fn chars_to_string(v: &Vec<char>) -> (s: String)
    ensures
        s@ == v@,
{
    v.iter().collect()
}

impl NewlineStyle {
    /// The line ending used by the first line of the raw text, or `Native`
    /// when the text is a single line.
    pub fn auto_detect(raw_input_text: &str) -> (r: NewlineStyle)
        ensures
            r == auto_detect_spec(raw_input_text@),
    {
        let ghost s = raw_input_text@;
        let n = raw_input_text.unicode_len();
        let mut i: usize = 0;
        while i < n
            invariant
                n == s.len(),
                i <= n,
                s == raw_input_text@,
                find_newline(s, 0) == find_newline(s, i as int),
        decreases n - i,
        {
            let c = raw_input_text.get_char(i);
            if c == '\n' {
                assert(find_newline(s, 0) == i);
                let q = if i > 0 {
                    i - 1
                } else {
                    0
                };
                let cq = raw_input_text.get_char(q);
                if cq == '\r' {
                    return NewlineStyle::Windows;
                } else {
                    return NewlineStyle::Unix;
                }
            }
            i = i + 1;
        }
        assert(find_newline(s, 0) == s.len());
        NewlineStyle::Native
    }

    /// The platform's own line ending; `\n` on the platforms this build
    /// targets.
    pub fn native() -> (r: NewlineStyle)
        ensures
            r == NewlineStyle::Unix,
    {
        NewlineStyle::Unix
    }

    /// Apply this newline style to the formatted text.  When the style is
    /// `Auto`, the raw input text is used to detect the existing line
    /// endings; if it contains no newline the native style is used.
    pub fn apply(self, formatted_text: &mut String, raw_input_text: &str)
        ensures
            final(formatted_text)@ == apply_spec(self, old(formatted_text)@, raw_input_text@),
    {
        let mut style = self;
        if style == NewlineStyle::Auto {
            style = Self::auto_detect(raw_input_text);
        }
        if style == NewlineStyle::Native {
            style = Self::native();
        }
        if style == NewlineStyle::Windows {
            let ghost text = formatted_text@;
            let n = formatted_text.as_str().unicode_len();
            let mut out: Vec<char> = Vec::new();
            let mut i: usize = 0;
            while i < n
                invariant
                    n == text.len(),
                    text == formatted_text@,
                    i <= n,
                    out@ == crlf_of(text.take(i as int)),
                decreases n - i,
            {
                let c = formatted_text.as_str().get_char(i);
                proof {
                    lemma_crlf_push(text.take(i as int), c);
                    assert(text.take(i as int).push(c) =~= text.take(i + 1));
                }
                if c == '\n' {
                    out.push('\r');
                    out.push('\n');
                } else if c == '\r' {
                } else {
                    out.push(c);
                }
                proof {
                    assert(out@ =~= crlf_of(text.take(i + 1)));
                }
                i = i + 1;
            }
            proof {
                assert(text.take(n as int) =~= text);
            }
            *formatted_text = chars_to_string(&out);
        }
    }
}

/// Where an opening brace of an item is placed.
#[derive(Clone, Copy, Debug, PartialEq, Eq, Structural)]
pub enum BraceStyle {
    AlwaysNextLine,
    PreferSameLine,
    /// Prefer the same line except where there is a where-clause, in which
    /// case force the brace to the next line.
    SameLineWhere,
}

/// Where the brace of a control-flow construct is placed.
#[derive(Clone, Copy, Debug, PartialEq, Eq, Structural)]
pub enum ControlBraceStyle {
    /// K&R style, the community default.
    AlwaysSameLine,
    /// Stroustrup style.
    ClosingNextLine,
    /// Allman style.
    AlwaysNextLine,
}

/// How a wrapped construct is indented.
#[derive(Clone, Copy, Debug, PartialEq, Eq, Structural)]
pub enum IndentStyle {
    /// First line on the same line as the opening bracket, all lines aligned
    /// with the first line.
    Visual,
    /// First line on a new line and all lines aligned with the block indent.
    Block,
}

/// How tightly a list is packed.
#[derive(Clone, Copy, Debug, PartialEq, Eq, Structural)]
pub enum Density {
    /// Fit as much on one line as possible.
    Compressed,
    /// Use more lines.
    Tall,
    /// Place every item on a separate line.
    Vertical,
}

/// Spacing around type-level operators.
#[derive(Clone, Copy, Debug, PartialEq, Eq, Structural)]
pub enum TypeDensity {
    /// No spaces around `=` and `+`.
    Compressed,
    /// Spaces around `=` and `+`.
    Wide,
}

/// Which set of width heuristics is active.
#[derive(Clone, Copy, Debug, PartialEq, Eq, Structural)]
pub enum Heuristics {
    /// Turn off any heuristics.
    Off,
    /// Turn on the maximal heuristics.
    Max,
    /// Use the default heuristics.
    Default,
}

/// The layout tactic chosen for a list of items.
#[derive(Clone, Copy, Debug, PartialEq, Eq, Structural)]
pub enum ListTactic {
    /// One item per line.
    Vertical,
    /// All items on one line.
    Horizontal,
    /// Try one line; fall back to vertical.
    HorizontalVertical,
    /// Pack as many items per line as fit.
    Mixed,
}

impl Density {
    /// The list tactic that this density asks for, given the number of items.
    pub fn to_list_tactic(self, len: usize) -> (r: ListTactic)
        ensures
            r == (match self {
                Density::Compressed => ListTactic::Mixed,
                Density::Tall => ListTactic::HorizontalVertical,
                Density::Vertical => if len == 1 {
                    ListTactic::Horizontal
                } else {
                    ListTactic::Vertical
                },
            }),
    {
        match self {
            Density::Compressed => ListTactic::Mixed,
            Density::Tall => ListTactic::HorizontalVertical,
            Density::Vertical => {
                if len == 1 {
                    ListTactic::Horizontal
                } else {
                    ListTactic::Vertical
                }
            }
        }
    }
}

/// How findings are reported.
#[derive(Clone, Copy, Debug, PartialEq, Eq, Structural)]
pub enum ReportTactic {
    Always,
    Unnumbered,
    Never,
}

/// What the formatter emits.
#[derive(Clone, Copy, Debug, PartialEq, Eq, Structural)]
pub enum EmitMode {
    /// Emit to files.
    Files,
    /// Write the output to standard output.
    Stdout,
    /// Display how much of the input was processed.
    Coverage,
    /// Machine-readable standard output.
    Checkstyle,
    /// Output the changed lines only.
    ModifiedLines,
    /// Check whether a diff can be generated, and emit it if so.
    Diff,
}

impl Default for EmitMode {
    fn default() -> (r: EmitMode)
        ensures
            r == EmitMode::Files,
    {
        EmitMode::Files
    }
}

/// Client preference for coloured output.
#[derive(Clone, Copy, Debug, PartialEq, Eq, Structural)]
pub enum Color {
    /// Always use colour, whether output is piped or a terminal.
    Always,
    /// Never use colour.
    Never,
    /// Use colour if the terminal supports it.
    Auto,
}

/// Relies on atty::is(atty::Stream::Stdout): whether standard output is a
/// terminal.  The answer depends on the process environment, so nothing is
/// promised of it.
#[verifier::external_body]
fn stdout_is_tty() -> bool {
    atty::is(atty::Stream::Stdout)
}

impl Color {
    /// The colour decision once the terminal answer is known: `Always` and
    /// `Never` ignore it, `Auto` follows it.
    pub fn use_colored_tty_given(self, stdout_tty: bool) -> (r: bool)
        ensures
            r == (match self {
                Color::Always => true,
                Color::Never => false,
                Color::Auto => stdout_tty,
            }),
    {
        match self {
            Color::Always => true,
            Color::Never => false,
            Color::Auto => stdout_tty,
        }
    }

    /// Whether a coloured terminal should be used.  `Auto` asks the process
    /// environment, so only the fixed choices are pinned down here.
    pub fn use_colored_tty(self) -> (r: bool)
        ensures
            self == Color::Always ==> r,
            self == Color::Never ==> !r,
    {
        let tty = match self {
            Color::Auto => stdout_is_tty(),
            _ => false,
        };
        self.use_colored_tty_given(tty)
    }
}

/// Formatter version, for behaviour that changed between major releases.
#[derive(Clone, Copy, Debug, PartialEq, Eq, Structural)]
pub enum Version {
    /// 1.x.y.
    One,
    /// 2.x.y.
    Two,
}

/// How chatty the formatter is.
#[derive(Clone, Copy, Debug, PartialEq, Eq, Structural)]
pub enum Verbosity {
    /// Emit more.
    Verbose,
    Normal,
    /// Emit as little as possible.
    Quiet,
}

/// The rounding ratio used by the scaled width heuristics: the width relative
/// to the default maximum of 100, in tenths, rounded to the nearest tenth.
pub open spec fn ratio_tenths(max_width: int) -> int {
    if max_width > 100 {
        (max_width + 5) / 10
    } else {
        10
    }
}

/// One scaled width: `base` columns at ratio 1.0, scaled by the rounded
/// ratio, rounded to the nearest column and capped at the machine limit.
pub open spec fn scaled_value(base: int, max_width: int) -> int {
    let v = (base * ratio_tenths(max_width) + 5) / 10;
    if v > usize::MAX {
        usize::MAX as int
    } else {
        v
    }
}

/// Width thresholds under which constructs stay on a single line.
#[derive(Clone, Copy, Debug, PartialEq, Eq, Structural)]
pub struct WidthHeuristics {
    /// Maximum width of the arguments of a function call before falling back
    /// to vertical formatting.
    pub fn_call_width: usize,
    /// Maximum width of the arguments of a function-like attribute before
    /// falling back to vertical formatting.
    pub attr_fn_like_width: usize,
    /// Maximum width in the body of a struct literal before falling back to
    /// vertical formatting.
    pub struct_lit_width: usize,
    /// Maximum width in the body of a struct variant before falling back to
    /// vertical formatting.
    pub struct_variant_width: usize,
    /// Maximum width of an array literal before falling back to vertical
    /// formatting.
    pub array_width: usize,
    /// Maximum length of a chain to fit on a single line.
    pub chain_width: usize,
    /// Maximum line length for single-line if-else expressions.  Zero means
    /// if-else expressions always break.
    pub single_line_if_else_max_width: usize,
}

/// One scaled dimension: `(base * tenths + 5) / 10`, capped at the machine
/// limit.
fn scale_dim(base: u128, tenths: u128) -> (r: usize)
    requires
        base <= 100,
        tenths <= 0x4000_0000_0000_0000,
    ensures
        r as int == ({
            let v = (base as int * tenths as int + 5) / 10;
            if v > usize::MAX {
                usize::MAX as int
            } else {
                v
            }
        }),
{
    assert(base * tenths <= 100 * tenths) by (nonlinear_arith)
        requires
            base <= 100,
    ;
    let v: u128 = (base * tenths + 5) / 10;
    if v > usize::MAX as u128 {
        usize::MAX
    } else {
        v as usize
    }
}

impl WidthHeuristics {
    /// The heuristics that switch every threshold off.
    pub fn null() -> (r: WidthHeuristics)
        ensures
            r.fn_call_width == usize::MAX,
            r.attr_fn_like_width == usize::MAX,
            r.struct_lit_width == 0,
            r.struct_variant_width == 0,
            r.array_width == usize::MAX,
            r.chain_width == usize::MAX,
            r.single_line_if_else_max_width == 0,
    {
        WidthHeuristics {
            fn_call_width: usize::MAX,
            attr_fn_like_width: usize::MAX,
            struct_lit_width: 0,
            struct_variant_width: 0,
            array_width: usize::MAX,
            chain_width: usize::MAX,
            single_line_if_else_max_width: 0,
        }
    }

    /// The heuristics that set every threshold to the same width.
    pub fn set(max_width: usize) -> (r: WidthHeuristics)
        ensures
            r.fn_call_width == max_width,
            r.attr_fn_like_width == max_width,
            r.struct_lit_width == max_width,
            r.struct_variant_width == max_width,
            r.array_width == max_width,
            r.chain_width == max_width,
            r.single_line_if_else_max_width == max_width,
    {
        WidthHeuristics {
            fn_call_width: max_width,
            attr_fn_like_width: max_width,
            struct_lit_width: max_width,
            struct_variant_width: max_width,
            array_width: max_width,
            chain_width: max_width,
            single_line_if_else_max_width: max_width,
        }
    }

    /// The default heuristics scaled according to the maximum width: each
    /// threshold is its default share of 100 columns, scaled by the width
    /// ratio rounded to the nearest tenth.
    pub fn scaled(max_width: usize) -> (r: WidthHeuristics)
        ensures
            r.fn_call_width as int == scaled_value(60, max_width as int),
            r.attr_fn_like_width as int == scaled_value(70, max_width as int),
            r.struct_lit_width as int == scaled_value(18, max_width as int),
            r.struct_variant_width as int == scaled_value(35, max_width as int),
            r.array_width as int == scaled_value(60, max_width as int),
            r.chain_width as int == scaled_value(60, max_width as int),
            r.single_line_if_else_max_width as int == scaled_value(50, max_width as int),
    {
        let tenths: u128 = if max_width > 100 {
            (max_width as u128 + 5) / 10
        } else {
            10
        };
        assert(tenths as int == ratio_tenths(max_width as int));
        assert(tenths <= 0x4000_0000_0000_0000);
        WidthHeuristics {
            fn_call_width: scale_dim(60, tenths),
            attr_fn_like_width: scale_dim(70, tenths),
            struct_lit_width: scale_dim(18, tenths),
            struct_variant_width: scale_dim(35, tenths),
            array_width: scale_dim(60, tenths),
            chain_width: scale_dim(60, tenths),
            single_line_if_else_max_width: scale_dim(50, tenths),
        }
    }
}

impl core::str::FromStr for WidthHeuristics {
    type Err = &'static str;

    fn from_str(_s: &str) -> Result<Self, Self::Err> {
        Err("WidthHeuristics is not parsable")
    }
}

/// The view of a [`ConfigPath`]: an absolute flag and the path components.
pub struct PathV {
    pub absolute: bool,
    pub components: Seq<Seq<char>>,
}

/// A file-system path as the ignore logic reads it: whether it is rooted, and
/// its components in order.  The process that walks real paths converts them
/// to and from this form.
pub struct ConfigPath {
    pub absolute: bool,
    pub components: Vec<String>,
}

impl View for ConfigPath {
    type V = PathV;

    open spec fn view(&self) -> PathV {
        PathV { absolute: self.absolute, components: self.components.deep_view() }
    }
}

/// `p` names a file or directory that contains everything under `q`:
/// the two are equally rooted and `p`'s components lead `q`'s.
pub open spec fn path_is_prefix(p: PathV, q: PathV) -> bool {
    &&& p.absolute == q.absolute
    &&& p.components.len() <= q.components.len()
    &&& p.components == q.components.subrange(0, p.components.len() as int)
}

/// Prefixing a relative path with a directory; an absolute path is left
/// alone.
pub open spec fn spec_add_prefix(dir: PathV, p: PathV) -> PathV {
    if p.absolute {
        p
    } else {
        PathV { absolute: dir.absolute, components: dir.components + p.components }
    }
}

/// A name under which input reaches the formatter.
pub enum FileName {
    /// A real path on disk.
    Real(ConfigPath),
    /// The standard input.
    Stdin,
}

impl View for FileName {
    type V = Option<PathV>;

    open spec fn view(&self) -> Option<PathV> {
        match self {
            FileName::Real(p) => Some(p@),
            FileName::Stdin => None,
        }
    }
}

fn clone_string_vec(v: &Vec<String>) -> (r: Vec<String>)
    ensures
        r.deep_view() == v.deep_view(),
{
    let mut r: Vec<String> = Vec::new();
    let mut i: usize = 0;
    while i < v.len()
        invariant
            i <= v.len(),
            r@.len() == i,
            forall|j: int| 0 <= j < i ==> (#[trigger] r@[j])@ == v@[j]@,
        decreases v.len() - i,
    {
        let x = v[i].clone();
        r.push(x);
        i = i + 1;
    }
    proof {
        assert forall|j: int| 0 <= j < v@.len() implies r.deep_view()[j] == v.deep_view()[j] by {
            assert(r.deep_view()[j] == r@[j]@);
            assert(v.deep_view()[j] == v@[j]@);
        }
        assert(r.deep_view() =~~= v.deep_view());
    }
    r
}

fn clone_path(p: &ConfigPath) -> (r: ConfigPath)
    ensures
        r@ == p@,
{
    ConfigPath { absolute: p.absolute, components: clone_string_vec(&p.components) }
}

/// Whether `prefix` is a component-wise prefix of `file`.
fn path_starts_with(file: &ConfigPath, prefix: &ConfigPath) -> (r: bool)
    ensures
        r == path_is_prefix(prefix@, file@),
{
    if file.absolute != prefix.absolute {
        return false;
    }
    if prefix.components.len() > file.components.len() {
        return false;
    }
    let n = prefix.components.len();
    let mut i: usize = 0;
    while i < n
        invariant
            n == prefix.components.len() <= file.components.len(),
            i <= n,
            forall|j: int|
                0 <= j < i ==> prefix.components.deep_view()[j] == file.components.deep_view()[j],
        decreases n - i,
    {
        if !(prefix.components[i] == file.components[i]) {
            assert(!path_is_prefix(prefix@, file@)) by {
                let j = i as int;
                assert(prefix.components.deep_view()[j] != file.components.deep_view()[j]);
            }
            return false;
        }
        i = i + 1;
    }
    proof {
        assert(prefix.components.deep_view() =~= file.components.deep_view().subrange(
            0,
            prefix.components.len() as int,
        ));
    }
    true
}

/// A set of directories, files and modules that the formatter should ignore.
pub struct IgnoreList(pub Vec<ConfigPath>);

impl IgnoreList {
    /// Root every relative entry at `dir`; absolute entries stay as they are.
    pub fn add_prefix(&mut self, dir: &ConfigPath)
        ensures
            final(self).0@.len() == old(self).0@.len(),
            forall|i: int|
                0 <= i < old(self).0@.len() ==> (#[trigger] final(self).0@[i])@ == spec_add_prefix(
                    dir@,
                    old(self).0@[i]@,
                ),
    {
        let n = self.0.len();
        let mut out: Vec<ConfigPath> = Vec::new();
        let mut i: usize = 0;
        while i < n
            invariant
                n == self.0@.len(),
                i <= n,
                out@.len() == i,
                forall|j: int|
                    0 <= j < i ==> (#[trigger] out@[j])@ == spec_add_prefix(dir@, self.0@[j]@),
        decreases n - i,
        {
            let p = &self.0[i];
            if p.absolute {
                out.push(clone_path(p));
            } else {
                let mut components = clone_string_vec(&dir.components);
                let tail = clone_string_vec(&p.components);
                let ghost dn = dir.components@.len() as int;
                proof {
                    assert(components.deep_view().len() == components@.len());
                    assert(dir.components.deep_view().len() == dir.components@.len());
                    assert(tail.deep_view().len() == tail@.len());
                    assert(p.components.deep_view().len() == p.components@.len());
                    assert forall|j: int| 0 <= j < components@.len() implies (
                    #[trigger] components@[j])@ == dir.components.deep_view()[j] by {
                        assert(components.deep_view()[j] == components@[j]@);
                    }
                }
                let mut k: usize = 0;
                let tn = tail.len();
                while k < tn
                    invariant
                        tn == tail@.len(),
                        k <= tn,
                        components@.len() == dn + k,
                        dn == dir.components@.len(),
                        forall|j: int|
                            0 <= j < dn ==> (#[trigger] components@[j])@
                                == dir.components.deep_view()[j],
                        forall|j: int|
                            0 <= j < k ==> (#[trigger] components@[dn + j])@ == tail@[j]@,
                    decreases tn - k,
                {
                    let x = tail[k].clone();
                    components.push(x);
                    k = k + 1;
                }
                let np = ConfigPath { absolute: dir.absolute, components };
                proof {
                    
                    assert forall|j: int| 0 <= j < np@.components.len() implies np@.components[j]
                        == (dir.components.deep_view() + tail.deep_view())[j] by {
                        assert(np@.components[j] == np.components@[j]@);
                        if j < dn {
                        } else {
                            let j2 = j - dn;
                            assert(np.components@[dn + j2]@ == tail@[j2]@);
                            assert(tail.deep_view()[j2] == tail@[j2]@);
                        }
                    }
                    assert(np@.components =~~= dir.components.deep_view() + tail.deep_view());
                    assert(np@ == spec_add_prefix(dir@, p@));
                }
                out.push(np);
            }
            i = i + 1;
        }
        self.0 = out;
    }

    /// Whether some entry of the list covers `file`.
    pub fn skip_file_inner(&self, file: &ConfigPath) -> (r: bool)
        ensures
            r == (exists|i: int|
                0 <= i < self.0@.len() && path_is_prefix((#[trigger] self.0@[i])@, file@)),
    {
        let n = self.0.len();
        let mut i: usize = 0;
        while i < n
            invariant
                n == self.0@.len(),
                i <= n,
                forall|j: int| 0 <= j < i ==> !path_is_prefix((#[trigger] self.0@[j])@, file@),
            decreases n - i,
        {
            if path_starts_with(file, &self.0[i]) {
                return true;
            }
            i = i + 1;
        }
        false
    }

    /// Whether `file` should be skipped: a real file covered by some entry.
    /// Standard input is never skipped.
    pub fn skip_file(&self, file: &FileName) -> (r: bool)
        ensures
            r == (match file@ {
                Some(p) => exists|i: int|
                    0 <= i < self.0@.len() && path_is_prefix((#[trigger] self.0@[i])@, p),
                None => false,
            }),
    {
        match file {
            FileName::Real(path) => self.skip_file_inner(path),
            FileName::Stdin => false,
        }
    }
}

impl core::str::FromStr for IgnoreList {
    type Err = &'static str;

    fn from_str(_s: &str) -> Result<Self, Self::Err> {
        Err("IgnoreList is not parsable")
    }
}

/// An inclusive range of one-based line numbers, for partial-file
/// formatting.
#[derive(Clone, Copy, Debug, PartialEq, Eq, Structural)]
pub struct LineRange {
    pub lo: usize,
    pub hi: usize,
}

/// The style configuration that the engine reads.
pub struct Config {
    /// Maximum width of an output line.
    pub max_width: usize,
    /// Number of columns one indent level adds.
    pub tab_spaces: usize,
    /// Which line ending the output uses.
    pub newline_style: NewlineStyle,
    /// How wrapped constructs are indented.
    pub indent_style: IndentStyle,
    /// When present, only spans touching these line ranges are reformatted;
    /// everything else is copied verbatim.
    pub file_lines: Option<Vec<LineRange>>,
}

impl Default for Config {
    fn default() -> (c: Config)
        ensures
            c.max_width == 100,
            c.tab_spaces == 4,
            c.newline_style == NewlineStyle::Auto,
            c.indent_style == IndentStyle::Block,
            c.file_lines is None,
    {
        Config {
            max_width: 100,
            tab_spaces: 4,
            newline_style: NewlineStyle::Auto,
            indent_style: IndentStyle::Block,
            file_lines: None,
        }
    }
}

/// Maps client-supplied options onto the configuration, mostly overriding
/// values in a config with values from the command line.  Implemented by the
/// surrounding tool's option types.
pub trait CliOptions: Sized {
    fn apply_to(self, config: &mut Config);

    fn config_path(&self) -> Option<&ConfigPath>;
}

/// The edition of the language being formatted.
#[derive(Clone, Copy, Debug, PartialEq, Eq, Structural)]
pub enum Edition {
    Edition2015,
    Edition2018,
}

impl Default for Edition {
    fn default() -> (r: Edition)
        ensures
            r == Edition::Edition2015,
    {
        Edition::Edition2015
    }
}

} // verus!
