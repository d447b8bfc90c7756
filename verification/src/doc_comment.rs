//! The doc-comment normalizer of the configuration-schema generator that
//! lives beside the engine: it filters the doc text out of a field's
//! attributes and parses it into a description and a worked example.

use crate::options::{chars_to_string, find_newline, lemma_find_newline};
use vstd::prelude::*;
use vstd::string::StrSliceExecFns;
use vstd::string::StringExecFns;

verus! {

/// A character the trimming of the description treats as blank.
pub open spec fn is_blank_char(c: char) -> bool {
    c == ' ' || c == '\t' || c == '\n' || c == '\r' || c == '\u{B}' || c == '\u{C}'
}

/// The first non-blank index at or after `i`.
pub open spec fn ltrim_idx(s: Seq<char>, i: int) -> int
    decreases s.len() - i when 0 <= i <= s.len()
{
    if i >= s.len() {
        s.len() as int
    } else if is_blank_char(s[i]) {
        ltrim_idx(s, i + 1)
    } else {
        i
    }
}

/// One past the last non-blank index strictly before `j`, or zero.
pub open spec fn rtrim_idx(s: Seq<char>, j: int) -> int
    decreases j when 0 <= j <= s.len()
{
    if j <= 0 {
        0
    } else if is_blank_char(s[j - 1]) {
        rtrim_idx(s, j - 1)
    } else {
        j
    }
}

/// `s` without leading and trailing blanks.
pub open spec fn trim_chars(s: Seq<char>) -> Seq<char> {
    let a = ltrim_idx(s, 0);
    let b = rtrim_idx(s, s.len() as int);
    if a >= b {
        Seq::empty()
    } else {
        s.subrange(a, b)
    }
}

proof fn lemma_trim_chars_idx(s: Seq<char>, i: int, j: int)
    requires
        0 <= i <= s.len(),
        0 <= j <= s.len(),
    ensures
        i <= ltrim_idx(s, i) <= s.len(),
        0 <= rtrim_idx(s, j) <= j,
    decreases s.len() - i + j,
{
    if i < s.len() && is_blank_char(s[i]) {
        lemma_trim_chars_idx(s, i + 1, j);
    } else if j > 0 && is_blank_char(s[j - 1]) {
        lemma_trim_chars_idx(s, i, j - 1);
    }
}

/// The lines of `s`, split at `\n` with a `\r` directly before a split
/// stripped, a trailing line ending producing no final empty line.
pub open spec fn split_lines_from(s: Seq<char>, pos: int) -> Seq<Seq<char>>
    decreases s.len() - pos when 0 <= pos <= s.len()
{
    if pos >= s.len() {
        Seq::empty()
    } else {
        let p0 = find_newline(s, pos);
        let p = if p0 < pos {
            pos
        } else if p0 > s.len() {
            s.len() as int
        } else {
            p0
        };
        if p >= s.len() {
            seq![s.subrange(pos, s.len() as int)]
        } else {
            let line_end = if p > pos && s[p - 1] == '\r' {
                p - 1
            } else {
                p
            };
            seq![s.subrange(pos, line_end)] + split_lines_from(s, p + 1)
        }
    }
}

/// The lines of a doc text.
pub open spec fn spec_lines(s: Seq<char>) -> Seq<Seq<char>> {
    split_lines_from(s, 0)
}

/// The parts joined with single newlines.
pub open spec fn join_nl(parts: Seq<Seq<char>>) -> Seq<char>
    decreases parts.len(),
{
    if parts.len() == 0 {
        Seq::empty()
    } else if parts.len() == 1 {
        parts[0]
    } else {
        join_nl(parts.drop_last()) + seq!['\n'] + parts.last()
    }
}

/// The line opens a markdown header.
pub open spec fn starts_hash(l: Seq<char>) -> bool {
    l.len() > 0 && l[0] == '#'
}

/// The line opens or closes a fenced code block.
pub open spec fn starts_ticks(l: Seq<char>) -> bool {
    l.len() >= 3 && l[0] == '`' && l[1] == '`' && l[2] == '`'
}

/// The line opens an option-value section.
pub open spec fn starts_value_header(l: Seq<char>) -> bool {
    l.len() >= 6 && l[0] == '#' && l[1] == '#' && l[2] == '#' && l[3] == '#' && l[4] == '#'
        && l[5] == ' '
}

/// The line with every repetition of the option-value marker removed.
pub open spec fn strip_value_header(l: Seq<char>) -> Seq<char>
    decreases l.len(),
{
    if starts_value_header(l) {
        strip_value_header(l.skip(6))
    } else {
        l
    }
}

/// The first header line at or after `i`, or the length.
pub open spec fn find_hash(lines: Seq<Seq<char>>, i: int) -> int
    decreases lines.len() - i when 0 <= i <= lines.len()
{
    if i >= lines.len() {
        lines.len() as int
    } else if starts_hash(lines[i]) {
        i
    } else {
        find_hash(lines, i + 1)
    }
}

proof fn lemma_find_hash(lines: Seq<Seq<char>>, i: int)
    requires
        0 <= i <= lines.len(),
    ensures
        i <= find_hash(lines, i) <= lines.len(),
    decreases lines.len() - i,
{
    if i < lines.len() && !starts_hash(lines[i]) {
        lemma_find_hash(lines, i + 1);
    }
}

/// The first code-fence line at or after `i`, or the length.
pub open spec fn find_ticks(lines: Seq<Seq<char>>, i: int) -> int
    decreases lines.len() - i when 0 <= i <= lines.len()
{
    if i >= lines.len() {
        lines.len() as int
    } else if starts_ticks(lines[i]) {
        i
    } else {
        find_ticks(lines, i + 1)
    }
}

proof fn lemma_find_ticks(lines: Seq<Seq<char>>, i: int)
    requires
        0 <= i <= lines.len(),
    ensures
        i <= find_ticks(lines, i) <= lines.len(),
    decreases lines.len() - i,
{
    if i < lines.len() && !starts_ticks(lines[i]) {
        lemma_find_ticks(lines, i + 1);
    }
}

/// Clamp a position into `[lo, hi]`.
pub open spec fn clamp_pos(v: int, lo: int, hi: int) -> int {
    if v < lo {
        lo
    } else if v > hi {
        hi
    } else {
        v
    }
}

/// The mathematical form of a parse failure.
pub enum DocErrV {
    MissingDescription,
    MissingExample,
    MissingInput,
    MissingOutput,
    MissingCodeBlock,
    InvalidFormat(Seq<char>, Seq<char>),
}

/// Why a doc comment failed to parse.
#[derive(Debug)]
pub enum ParseDocCommentError {
    /// The doc comment has no brief description of the option.
    MissingDescription,
    /// The doc comment has no example section.
    MissingExample,
    /// The doc comment has no input section in its example.
    MissingInput,
    /// The doc comment has no output section in its example.
    MissingOutput,
    /// A section has no fenced code block.
    MissingCodeBlock,
    /// A line does not match the expected marker: what was expected, and
    /// the line found.
    InvalidFormat(&'static str, String),
}

impl View for ParseDocCommentError {
    type V = DocErrV;

    open spec fn view(&self) -> DocErrV {
        match self {
            ParseDocCommentError::MissingDescription => DocErrV::MissingDescription,
            ParseDocCommentError::MissingExample => DocErrV::MissingExample,
            ParseDocCommentError::MissingInput => DocErrV::MissingInput,
            ParseDocCommentError::MissingOutput => DocErrV::MissingOutput,
            ParseDocCommentError::MissingCodeBlock => DocErrV::MissingCodeBlock,
            ParseDocCommentError::InvalidFormat(a, b) => DocErrV::InvalidFormat(a@, b@),
        }
    }
}

/// The fenced code block at or after `c`: its joined content and the
/// position after its closing fence, or a failure when no fence opens.
pub open spec fn spec_code_block(lines: Seq<Seq<char>>, c: int) -> (Result<Seq<char>, DocErrV>, int)
    recommends
        0 <= c <= lines.len(),
{
    let len = lines.len() as int;
    let t1 = clamp_pos(find_ticks(lines, c), c, len);
    if t1 >= len {
        (Err(DocErrV::MissingCodeBlock), len)
    } else {
        let t2 = clamp_pos(find_ticks(lines, t1 + 1), t1 + 1, len);
        (Ok(join_nl(lines.subrange(t1 + 1, t2))), if t2 < len {
            t2 + 1
        } else {
            len
        })
    }
}

/// The option-value sections from `c` on: each `##### ` header with its
/// code block, in order.
pub open spec fn spec_parse_outputs(lines: Seq<Seq<char>>, c: int) -> Result<
    Seq<(Seq<char>, Seq<char>)>,
    DocErrV,
>
    decreases lines.len() - c when 0 <= c <= lines.len()
{
    let len = lines.len() as int;
    if c >= len {
        Ok(Seq::empty())
    } else if !starts_value_header(lines[c]) {
        Err(DocErrV::InvalidFormat("`##### `"@, lines[c]))
    } else {
        let value = strip_value_header(lines[c]);
        let cb = spec_code_block(lines, c + 1);
        match cb.0 {
            Err(e) => Err(e),
            Ok(content) => {
                let e1 = clamp_pos(cb.1, c + 1, len);
                let c2 = clamp_pos(find_hash(lines, e1), e1, len);
                match spec_parse_outputs(lines, c2) {
                    Err(e) => Err(e),
                    Ok(rest) => Ok(seq![(value, content)] + rest),
                }
            },
        }
    }
}

/// The mathematical form of a parsed doc comment.
pub struct DocV {
    pub description: Seq<char>,
    pub input: Seq<char>,
    pub output: Seq<(Seq<char>, Seq<char>)>,
}

/// A parsed doc comment over its lines: the description is everything up
/// to the first header, trimmed; the `### Example` header must follow it;
/// the `#### Input` header opens the input code block; the `#### Output`
/// header opens the option-value sections, of which there must be at least
/// one.  Each failure names the stage that broke.
pub open spec fn spec_parse_doc(lines: Seq<Seq<char>>) -> Result<DocV, DocErrV> {
    let len = lines.len() as int;
    let d_end = clamp_pos(find_hash(lines, 0), 0, len);
    let description = trim_chars(join_nl(lines.subrange(0, d_end)));
    if d_end >= len {
        Err(DocErrV::MissingExample)
    } else if lines[d_end] != "### Example"@ {
        Err(DocErrV::InvalidFormat("`### Example`"@, lines[d_end]))
    } else if description.len() == 0 {
        Err(DocErrV::MissingDescription)
    } else {
        let c1 = clamp_pos(find_hash(lines, d_end + 1), d_end + 1, len);
        if c1 >= len {
            Err(DocErrV::MissingInput)
        } else if lines[c1] != "#### Input"@ {
            Err(DocErrV::InvalidFormat("`#### Input`"@, lines[c1]))
        } else {
            let cb = spec_code_block(lines, c1 + 1);
            match cb.0 {
                Err(e) => Err(e),
                Ok(input) => {
                    let e1 = clamp_pos(cb.1, 0, len);
                    let c3 = clamp_pos(find_hash(lines, e1), e1, len);
                    if c3 >= len {
                        Err(DocErrV::MissingOutput)
                    } else if lines[c3] != "#### Output"@ {
                        Err(DocErrV::MissingOutput)
                    } else {
                        let c4 = clamp_pos(find_hash(lines, c3 + 1), c3 + 1, len);
                        match spec_parse_outputs(lines, c4) {
                            Err(e) => Err(e),
                            Ok(output) => {
                                if output.len() == 0 {
                                    Err(DocErrV::MissingOutput)
                                } else {
                                    Ok(DocV { description, input, output })
                                }
                            },
                        }
                    }
                },
            }
        }
    }
}

/// The worked example of a config option: the input code and, per option
/// value, the output code.
pub struct ConfigOptionExample {
    pub input: String,
    pub output: Vec<(String, String)>,
}

/// The view of an example.
pub struct ExampleV {
    pub input: Seq<char>,
    pub output: Seq<(Seq<char>, Seq<char>)>,
}

impl View for ConfigOptionExample {
    type V = ExampleV;

    open spec fn view(&self) -> ExampleV {
        ExampleV { input: self.input@, output: pairs_view(self.output@) }
    }
}

impl ConfigOptionExample {
    /// The example's input code.
    pub fn input(&self) -> (r: &str)
        ensures
            r@ == self@.input,
    {
        self.input.as_str()
    }

    /// The example's outputs: one code block per option value.
    pub fn output(&self) -> (r: &Vec<(String, String)>)
        ensures
            Seq::new(r@.len(), |i: int| (r@[i].0@, r@[i].1@)) == self@.output,
    {
        &self.output
    }
}

/// The normalized form of a field's doc comment.
pub struct DocComment {
    pub description: String,
    pub example: ConfigOptionExample,
}

impl View for DocComment {
    type V = DocV;

    open spec fn view(&self) -> DocV {
        DocV {
            description: self.description@,
            input: self.example@.input,
            output: self.example@.output,
        }
    }
}


/// The pairs of a value/code table, viewed mathematically.
pub open spec fn pairs_view(v: Seq<(String, String)>) -> Seq<(Seq<char>, Seq<char>)> {
    Seq::new(v.len(), |i: int| (v[i].0@, v[i].1@))
}

#[verifier::loop_isolation(false)]
fn find_newline_exec(s: &str, from: usize, n: usize) -> (r: usize)
    requires
        n == s@.len(),
        from <= n,
    ensures
        r as int == find_newline(s@, from as int),
        from <= r <= n,
{
    proof {
        lemma_find_newline(s@, from as int);
    }
    let mut i = from;
    while i < n
        invariant
            from <= i <= n,
            find_newline(s@, from as int) == find_newline(s@, i as int),
        decreases n - i,
    {
        if s.get_char(i) == '\n' {
            return i;
        }
        i = i + 1;
    }
    i
}

/// The characters `[a, b)` of `s` as an owned string.
#[verifier::loop_isolation(false)]
fn string_from_range(s: &str, a: usize, b: usize) -> (r: String)
    requires
        a <= b <= s@.len(),
    ensures
        r@ == s@.subrange(a as int, b as int),
{
    let mut out: Vec<char> = Vec::new();
    let mut i = a;
    while i < b
        invariant
            a <= i <= b,
            out@ == s@.subrange(a as int, i as int),
        decreases b - i,
    {
        out.push(s.get_char(i));
        proof {
            assert(out@ =~= s@.subrange(a as int, i + 1));
        }
        i = i + 1;
    }
    chars_to_string(&out)
}

/// Split a doc text into its lines.
#[verifier::loop_isolation(false)]
fn split_lines(s: &str) -> (r: Vec<String>)
    ensures
        r.deep_view() == spec_lines(s@),
{
    let n = s.unicode_len();
    let mut r: Vec<String> = Vec::new();
    let mut pos: usize = 0;
    while pos < n
        invariant
            pos <= n,
            n == s@.len(),
            spec_lines(s@) == r.deep_view() + split_lines_from(s@, pos as int),
        decreases n - pos,
    {
        let ghost old_rv = r@;
        let ghost old_dv = r.deep_view();
        let p = find_newline_exec(s, pos, n);
        let line_end = if p < n && p > pos && s.get_char(p - 1) == '\r' {
            p - 1
        } else {
            p
        };
        let line = string_from_range(s, pos, line_end);
        r.push(line);
        proof {
            assert forall|j: int| 0 <= j < r.deep_view().len() implies r.deep_view()[j] == (
            old_dv.push(r@[r@.len() - 1]@))[j] by {
                assert(r.deep_view()[j] == r@[j]@);
                if j < old_rv.len() {
                    assert(r@[j] == old_rv[j]);
                    assert(old_dv[j] == old_rv[j]@);
                }
            }
            assert(r.deep_view() =~~= old_dv.push(line@));
            if p >= n {
                assert(split_lines_from(s@, pos as int) =~= seq![line@]);
                assert(old_dv + (seq![line@] + Seq::<Seq<char>>::empty()) =~~= old_dv.push(line@));
                assert(split_lines_from(s@, n as int) =~= Seq::<Seq<char>>::empty());
                assert(old_dv + split_lines_from(s@, pos as int) =~~= r.deep_view()
                    + split_lines_from(s@, n as int));
            } else {
                assert(split_lines_from(s@, pos as int) =~= seq![line@] + split_lines_from(
                    s@,
                    p + 1,
                ));
                assert(old_dv + (seq![line@] + split_lines_from(s@, p + 1)) =~~= old_dv.push(
                    line@,
                ) + split_lines_from(s@, p + 1));
            }
        }
        pos = if p < n {
            p + 1
        } else {
            n
        };
    }
    proof {
        assert(split_lines_from(s@, pos as int) =~= Seq::<Seq<char>>::empty());
        assert(r.deep_view() + Seq::<Seq<char>>::empty() =~~= r.deep_view());
    }
    r
}

#[verifier::loop_isolation(false)]
fn line_starts_hash(l: &String) -> (r: bool)
    ensures
        r == starts_hash(l@),
{
    let n = l.as_str().unicode_len();
    n > 0 && l.as_str().get_char(0) == '#'
}

#[verifier::loop_isolation(false)]
fn line_starts_ticks(l: &String) -> (r: bool)
    ensures
        r == starts_ticks(l@),
{
    let n = l.as_str().unicode_len();
    n >= 3 && l.as_str().get_char(0) == '`' && l.as_str().get_char(1) == '`'
        && l.as_str().get_char(2) == '`'
}

#[verifier::loop_isolation(false)]
fn line_starts_value_header(l: &String) -> (r: bool)
    ensures
        r == starts_value_header(l@),
{
    let n = l.as_str().unicode_len();
    n >= 6 && l.as_str().get_char(0) == '#' && l.as_str().get_char(1) == '#'
        && l.as_str().get_char(2) == '#' && l.as_str().get_char(3) == '#' && l.as_str().get_char(
        4,
    ) == '#' && l.as_str().get_char(5) == ' '
}

#[verifier::loop_isolation(false)]
fn strip_value_header_exec(l: &String) -> (r: String)
    ensures
        r@ == strip_value_header(l@),
{
    let mut s = l.clone();
    while line_starts_value_header(&s)
        invariant
            strip_value_header(l@) == strip_value_header(s@),
        decreases s@.len(),
    {
        let n = s.as_str().unicode_len();
        let t = s.as_str().substring_char(6, n).to_owned();
        proof {
            assert(t@ =~= s@.skip(6));
        }
        s = t;
    }
    s
}

/// Advance the cursor to the next header line, or past the end.
#[verifier::loop_isolation(false)]
pub fn skip_until_next_header(lines: &Vec<String>, i: usize) -> (r: usize)
    requires
        i <= lines@.len(),
    ensures
        r as int == find_hash(lines.deep_view(), i as int),
        i <= r <= lines@.len(),
{
    let ghost lv = lines.deep_view();
    proof {
        lemma_find_hash(lv, i as int);
        assert(lv.len() == lines@.len());
    }
    let mut j = i;
    while j < lines.len()
        invariant
            i <= j <= lines@.len(),
            find_hash(lv, i as int) == find_hash(lv, j as int),
        decreases lines@.len() - j,
    {
        proof {
            assert(lv[j as int] == lines@[j as int]@);
        }
        if line_starts_hash(&lines[j]) {
            return j;
        }
        j = j + 1;
    }
    j
}

#[verifier::loop_isolation(false)]
fn find_ticks_exec(lines: &Vec<String>, i: usize) -> (r: usize)
    requires
        i <= lines@.len(),
    ensures
        r as int == find_ticks(lines.deep_view(), i as int),
        i <= r <= lines@.len(),
{
    let ghost lv = lines.deep_view();
    proof {
        lemma_find_ticks(lv, i as int);
        assert(lv.len() == lines@.len());
    }
    let mut j = i;
    while j < lines.len()
        invariant
            i <= j <= lines@.len(),
            find_ticks(lv, i as int) == find_ticks(lv, j as int),
        decreases lines@.len() - j,
    {
        proof {
            assert(lv[j as int] == lines@[j as int]@);
        }
        if line_starts_ticks(&lines[j]) {
            return j;
        }
        j = j + 1;
    }
    j
}

/// The lines `[a, b)` joined with single newlines.
#[verifier::loop_isolation(false)]
fn join_range(lines: &Vec<String>, a: usize, b: usize) -> (r: String)
    requires
        a <= b <= lines@.len(),
    ensures
        r@ == join_nl(lines.deep_view().subrange(a as int, b as int)),
{
    let ghost lv = lines.deep_view();
    let mut out: Vec<char> = Vec::new();
    let mut i = a;
    while i < b
        invariant
            a <= i <= b,
            out@ == join_nl(lv.subrange(a as int, i as int)),
        decreases b - i,
    {
        let ghost pre = out@;
        if i > a {
            out.push('\n');
        }
        let ghost base = out@;
        let line = &lines[i];
        let n = line.as_str().unicode_len();
        let mut j: usize = 0;
        while j < n
            invariant
                j <= n,
                n == line@.len(),
                out@ == base + line@.subrange(0, j as int),
            decreases n - j,
        {
            out.push(line.as_str().get_char(j));
            proof {
                assert(out@ =~= base + line@.subrange(0, j + 1));
            }
            j = j + 1;
        }
        proof {
            assert(line@.subrange(0, n as int) =~= line@);
            assert(lv[i as int] == lines@[i as int]@);
            let sub1 = lv.subrange(a as int, i + 1);
            assert(sub1.drop_last() =~= lv.subrange(a as int, i as int));
            assert(sub1.last() == lv[i as int]);
            assert(out@ =~= join_nl(sub1));
        }
        i = i + 1;
    }
    chars_to_string(&out)
}

/// The string without leading and trailing blanks.
#[verifier::loop_isolation(false)]
fn trim_string(s: &String) -> (r: String)
    ensures
        r@ == trim_chars(s@),
{
    let n = s.as_str().unicode_len();
    proof {
        lemma_trim_chars_idx(s@, 0, s@.len() as int);
    }
    let mut a: usize = 0;
    while a < n
        invariant
            a <= n,
            n == s@.len(),
            ltrim_idx(s@, 0) == ltrim_idx(s@, a as int),
        decreases n - a,
    {
        let c = s.as_str().get_char(a);
        if !(c == ' ' || c == '\t' || c == '\n' || c == '\r' || c == '\u{B}' || c == '\u{C}') {
            break;
        }
        a = a + 1;
    }
    proof {
        if a < n {
            assert(!is_blank_char(s@[a as int]));
        }
        assert(a as int == ltrim_idx(s@, 0));
    }
    let mut b: usize = n;
    while b > 0
        invariant
            b <= n,
            n == s@.len(),
            rtrim_idx(s@, n as int) == rtrim_idx(s@, b as int),
        decreases b,
    {
        let c = s.as_str().get_char(b - 1);
        if !(c == ' ' || c == '\t' || c == '\n' || c == '\r' || c == '\u{B}' || c == '\u{C}') {
            break;
        }
        b = b - 1;
    }
    proof {
        if b > 0 {
            assert(!is_blank_char(s@[b - 1]));
        }
        assert(b as int == rtrim_idx(s@, n as int));
    }
    if a >= b {
        String::new()
    } else {
        s.as_str().substring_char(a, b).to_owned()
    }
}

/// The fenced code block at or after `i`: its content joined with
/// newlines, and the cursor just past its closing fence.  The walk up to
/// the opening fence skips anything that is not a fence; a missing opening
/// fence is the failure, an unterminated block runs to the end.
#[verifier::loop_isolation(false)]
pub fn take_code_block(lines: &Vec<String>, i: usize) -> (r: (
    Result<String, ParseDocCommentError>,
    usize,
))
    requires
        i <= lines@.len(),
    ensures
        ({
            let sp = spec_code_block(lines.deep_view(), i as int);
            &&& (match r.0 {
                Ok(s) => sp.0 == Ok::<Seq<char>, DocErrV>(s@),
                Err(e) => sp.0 == Err::<Seq<char>, DocErrV>(e@),
            })
            &&& r.1 as int == sp.1
            &&& i <= r.1 <= lines@.len()
        }),
{
    let ghost lv = lines.deep_view();
    proof {
        assert(lv.len() == lines@.len());
    }
    let t1 = find_ticks_exec(lines, i);
    if t1 >= lines.len() {
        return (Err(ParseDocCommentError::MissingCodeBlock), lines.len());
    }
    let t2 = find_ticks_exec(lines, t1 + 1);
    let content = join_range(lines, t1 + 1, t2);
    let end = if t2 < lines.len() {
        t2 + 1
    } else {
        lines.len()
    };
    (Ok(content), end)
}

/// The option-value sections from `start` on.
#[verifier::loop_isolation(false)]
fn parse_outputs(lines: &Vec<String>, start: usize) -> (r: Result<
    Vec<(String, String)>,
    ParseDocCommentError,
>)
    requires
        start <= lines@.len(),
    ensures
        ({
            let sp = spec_parse_outputs(lines.deep_view(), start as int);
            match r {
                Ok(v) => sp == Ok::<Seq<(Seq<char>, Seq<char>)>, DocErrV>(pairs_view(v@)),
                Err(e) => sp == Err::<Seq<(Seq<char>, Seq<char>)>, DocErrV>(e@),
            }
        }),
{
    let ghost lv = lines.deep_view();
    proof {
        assert(lv.len() == lines@.len());
    }
    let mut acc: Vec<(String, String)> = Vec::new();
    let mut c = start;
    while c < lines.len()
        invariant
            start <= c <= lines@.len(),
            spec_parse_outputs(lv, start as int) == (match spec_parse_outputs(lv, c as int) {
                Ok(rest) => Ok::<Seq<(Seq<char>, Seq<char>)>, DocErrV>(pairs_view(acc@) + rest),
                Err(e) => Err::<Seq<(Seq<char>, Seq<char>)>, DocErrV>(e),
            }),
        decreases lines@.len() - c,
    {
        let ghost old_accv = acc@;
        proof {
            assert(lv[c as int] == lines@[c as int]@);
        }
        if !line_starts_value_header(&lines[c]) {
            return Err(ParseDocCommentError::InvalidFormat("`##### `", lines[c].clone()));
        }
        let value = strip_value_header_exec(&lines[c]);
        let cb = take_code_block(lines, c + 1);
        let content = match cb.0 {
            Ok(s) => s,
            Err(e) => {
                return Err(e);
            },
        };
        let e1 = cb.1;
        let c2 = skip_until_next_header(lines, e1);
        acc.push((value, content));
        proof {
            assert(pairs_view(acc@) =~~= pairs_view(old_accv).push(
                (acc@[acc@.len() - 1].0@, acc@[acc@.len() - 1].1@),
            ));
            match spec_parse_outputs(lv, c2 as int) {
                Ok(rest) => {
                    assert(pairs_view(old_accv) + (seq![
                        (acc@[acc@.len() - 1].0@, acc@[acc@.len() - 1].1@),
                    ] + rest) =~~= pairs_view(acc@) + rest);
                },
                Err(_) => {},
            }
        }
        c = c2;
    }
    proof {
        assert(spec_parse_outputs(lv, c as int) == Ok::<Seq<(Seq<char>, Seq<char>)>, DocErrV>(
            Seq::empty(),
        ));
        assert(pairs_view(acc@) + Seq::<(Seq<char>, Seq<char>)>::empty() =~~= pairs_view(acc@));
    }
    Ok(acc)
}

impl DocComment {
    /// The brief description of the config option.
    pub fn description(&self) -> (r: &str)
        ensures
            r@ == self@.description,
    {
        self.description.as_str()
    }

    /// The worked example of the config option.
    pub fn example(&self) -> (r: &ConfigOptionExample)
        ensures
            r@.input == self@.input,
            r@.output == self@.output,
    {
        &self.example
    }

    /// Parse a doc text into its normalized form; exactly the result of
    /// [`spec_parse_doc`] over the text's lines.
    #[verifier::loop_isolation(false)]
    pub fn from_str(s: &str) -> (r: Result<DocComment, ParseDocCommentError>)
        ensures
            (match r {
                Ok(d) => spec_parse_doc(spec_lines(s@)) == Ok::<DocV, DocErrV>(d@),
                Err(e) => spec_parse_doc(spec_lines(s@)) == Err::<DocV, DocErrV>(e@),
            }),
    {
        let lines = split_lines(s);
        let ghost lv = lines.deep_view();
        proof {
            assert(lv.len() == lines@.len());
        }
        let d_end = skip_until_next_header(&lines, 0);
        let joined = join_range(&lines, 0, d_end);
        let description = trim_string(&joined);
        if d_end >= lines.len() {
            return Err(ParseDocCommentError::MissingExample);
        }
        proof {
            assert(lv[d_end as int] == lines@[d_end as int]@);
        }
        let ex_header = String::from_str("### Example");
        if !(lines[d_end] == ex_header) {
            return Err(
                ParseDocCommentError::InvalidFormat("`### Example`", lines[d_end].clone()),
            );
        }
        if description.as_str().unicode_len() == 0 {
            return Err(ParseDocCommentError::MissingDescription);
        }
        let c1 = skip_until_next_header(&lines, d_end + 1);
        if c1 >= lines.len() {
            return Err(ParseDocCommentError::MissingInput);
        }
        proof {
            assert(lv[c1 as int] == lines@[c1 as int]@);
        }
        let in_header = String::from_str("#### Input");
        if !(lines[c1] == in_header) {
            return Err(ParseDocCommentError::InvalidFormat("`#### Input`", lines[c1].clone()));
        }
        let cb = take_code_block(&lines, c1 + 1);
        let input = match cb.0 {
            Ok(sv) => sv,
            Err(e) => {
                return Err(e);
            },
        };
        let c3 = skip_until_next_header(&lines, cb.1);
        if c3 >= lines.len() {
            return Err(ParseDocCommentError::MissingOutput);
        }
        proof {
            assert(lv[c3 as int] == lines@[c3 as int]@);
        }
        let out_header = String::from_str("#### Output");
        if !(lines[c3] == out_header) {
            return Err(ParseDocCommentError::MissingOutput);
        }
        let c4 = skip_until_next_header(&lines, c3 + 1);
        let output = match parse_outputs(&lines, c4) {
            Ok(v) => v,
            Err(e) => {
                return Err(e);
            },
        };
        if output.len() == 0 {
            proof {
                assert(pairs_view(output@).len() == 0);
            }
            return Err(ParseDocCommentError::MissingOutput);
        }
        proof {
            assert(pairs_view(output@).len() > 0);
        }
        Ok(DocComment { description, example: ConfigOptionExample { input, output } })
    }
}

/// An attribute of a struct field, as the doc filter reads it: a `doc`
/// name-value attribute carries its text, any other attribute carries
/// nothing.  The surrounding tool converts real parsed attributes to this
/// form.
pub enum FieldAttr {
    Doc(String),
    Other,
}

impl View for FieldAttr {
    type V = Option<Seq<char>>;

    open spec fn view(&self) -> Option<Seq<char>> {
        match self {
            FieldAttr::Doc(s) => Some(s@),
            FieldAttr::Other => None,
        }
    }
}

impl DeepView for FieldAttr {
    type V = Option<Seq<char>>;

    open spec fn deep_view(&self) -> Option<Seq<char>> {
        self.view()
    }
}

/// One leading space removed, when there is one.
pub open spec fn strip_one_space(s: Seq<char>) -> Seq<char> {
    if s.len() > 0 && s[0] == ' ' {
        s.skip(1)
    } else {
        s
    }
}

/// The doc texts among the attributes, in order, each with one leading
/// space removed.
pub open spec fn doc_texts(attrs: Seq<Option<Seq<char>>>) -> Seq<Seq<char>>
    decreases attrs.len(),
{
    if attrs.len() == 0 {
        Seq::empty()
    } else {
        doc_texts(attrs.drop_last()) + (match attrs.last() {
            Some(s) => seq![strip_one_space(s)],
            None => Seq::<Seq<char>>::empty(),
        })
    }
}

/// The documentation text of an attribute, when it is a doc attribute,
/// with one leading space removed.
#[verifier::loop_isolation(false)]
pub fn attr_to_doc_text(attr: &FieldAttr) -> (r: Option<String>)
    ensures
        (match attr@ {
            Some(s) => (match r {
                Some(t) => t@ == strip_one_space(s),
                None => false,
            }),
            None => r is None,
        }),
{
    match attr {
        FieldAttr::Doc(s) => {
            let n = s.as_str().unicode_len();
            if n > 0 && s.as_str().get_char(0) == ' ' {
                let t = s.as_str().substring_char(1, n).to_owned();
                proof {
                    assert(t@ =~= s@.skip(1));
                }
                Some(t)
            } else {
                Some(s.clone())
            }
        },
        FieldAttr::Other => None,
    }
}

/// Extract the doc comments out of a field's attributes, joined as one
/// text with single newlines between the lines.
#[verifier::loop_isolation(false)]
pub fn filter_doc_comments(attrs: &Vec<FieldAttr>) -> (r: String)
    ensures
        r@ == join_nl(doc_texts(attrs.deep_view())),
{
    let ghost av = attrs.deep_view();
    proof {
        assert(av.len() == attrs@.len());
    }
    let mut parts: Vec<String> = Vec::new();
    let mut i: usize = 0;
    while i < attrs.len()
        invariant
            i <= attrs@.len(),
            parts.deep_view() == doc_texts(av.subrange(0, i as int)),
        decreases attrs@.len() - i,
    {
        let ghost old_pv = parts@;
        let ghost old_dv = parts.deep_view();
        proof {
            assert(av[i as int] == attrs@[i as int]@);
            assert(av.subrange(0, i + 1).drop_last() =~= av.subrange(0, i as int));
            assert(av.subrange(0, i + 1).last() == av[i as int]);
        }
        match attr_to_doc_text(&attrs[i]) {
            Some(t) => {
                parts.push(t);
                proof {
                    let new_dv = parts.deep_view();
                    assert forall|j: int| 0 <= j < new_dv.len() implies new_dv[j] == (old_dv.push(
                        parts@[parts@.len() - 1]@,
                    ))[j] by {
                        assert(new_dv[j] == parts@[j]@);
                        if j < old_pv.len() {
                            assert(parts@[j] == old_pv[j]);
                            assert(old_dv[j] == old_pv[j]@);
                        }
                    }
                    assert(parts.deep_view() =~~= doc_texts(av.subrange(0, i + 1)));
                }
            },
            None => {
                proof {
                    assert(doc_texts(av.subrange(0, i + 1)) =~~= old_dv);
                }
            },
        }
        i = i + 1;
    }
    proof {
        assert(av.subrange(0, attrs@.len() as int) =~= av);
        assert(parts.deep_view().subrange(0, parts@.len() as int) =~~= parts.deep_view());
    }
    join_range(&parts, 0, parts.len())
}

/// Parse and normalize the doc comment carried by a field's attributes.
pub fn parse_doc_comment(attrs: &Vec<FieldAttr>) -> (r: Result<DocComment, ParseDocCommentError>)
    ensures
        (match r {
            Ok(d) => spec_parse_doc(spec_lines(join_nl(doc_texts(attrs.deep_view())))) == Ok::<
                DocV,
                DocErrV,
            >(d@),
            Err(e) => spec_parse_doc(spec_lines(join_nl(doc_texts(attrs.deep_view())))) == Err::<
                DocV,
                DocErrV,
            >(e@),
        }),
{
    let doc = filter_doc_comments(attrs);
    DocComment::from_str(doc.as_str())
}

} // verus!
