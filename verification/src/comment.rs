//! The comment/code slicer: splits a span of source bytes into an
//! alternating run of comment and ordinary-code slices, together with the
//! byte-level helpers the reconstruction engine shares.

use vstd::prelude::*;

verus! {

/// Classification of one slice of a span.
#[derive(Clone, Copy, Debug, PartialEq, Eq, Structural)]
pub enum CodeCharKind {
    Comment,
    Normal,
}

/// One slice of a span: its classification and its half-open byte range
/// `[offset, offset + len)` relative to the span's start.
#[derive(Clone, Copy, Debug, PartialEq, Eq, Structural)]
pub struct CodeSlice {
    pub kind: CodeCharKind,
    pub offset: usize,
    pub len: usize,
}

impl CodeSlice {
    /// The mathematical form of a slice: a comment flag and the range.
    pub open spec fn model(self) -> (bool, int, int) {
        (self.kind == CodeCharKind::Comment, self.offset as int, self.len as int)
    }
}

/// A comment opens at `i`: `//` or `/*`.
pub open spec fn is_comment_start(t: Seq<u8>, i: int) -> bool {
    &&& 0 <= i
    &&& i + 1 < t.len()
    &&& t[i] == 47u8
    &&& (t[i + 1] == 47u8 || t[i + 1] == 42u8)
}

/// The first index at or after `i` that holds byte `b`, or the length.
pub open spec fn find_byte(t: Seq<u8>, b: u8, i: int) -> int
    decreases t.len() - i when 0 <= i <= t.len()
{
    if i >= t.len() {
        t.len() as int
    } else if t[i] == b {
        i
    } else {
        find_byte(t, b, i + 1)
    }
}

pub proof fn lemma_find_byte(t: Seq<u8>, b: u8, i: int)
    requires
        0 <= i <= t.len(),
    ensures
        i <= find_byte(t, b, i) <= t.len(),
        forall|j: int| i <= j < find_byte(t, b, i) ==> t[j] != b,
        find_byte(t, b, i) < t.len() ==> t[find_byte(t, b, i)] == b,
    decreases t.len() - i,
{
    if i >= t.len() {
    } else if t[i] == b {
    } else {
        lemma_find_byte(t, b, i + 1);
    }
}

/// The first comment opener at or after `i`, or the length.
pub open spec fn find_comment_start(t: Seq<u8>, i: int) -> int
    decreases t.len() - i when 0 <= i <= t.len()
{
    if i >= t.len() {
        t.len() as int
    } else if is_comment_start(t, i) {
        i
    } else {
        find_comment_start(t, i + 1)
    }
}

pub proof fn lemma_find_comment_start(t: Seq<u8>, i: int)
    requires
        0 <= i <= t.len(),
    ensures
        i <= find_comment_start(t, i) <= t.len(),
        forall|j: int| i <= j < find_comment_start(t, i) ==> !is_comment_start(t, j),
        find_comment_start(t, i) < t.len() ==> is_comment_start(t, find_comment_start(t, i)),
    decreases t.len() - i,
{
    if i >= t.len() {
    } else if is_comment_start(t, i) {
    } else {
        lemma_find_comment_start(t, i + 1);
    }
}

/// The end (exclusive) of a block comment body scanned from `i` at nesting
/// `depth`, or the length when the comment is unterminated.
pub open spec fn block_comment_end(t: Seq<u8>, i: int, depth: int) -> int
    decreases t.len() - i when 0 <= i <= t.len()
{
    if i + 1 >= t.len() {
        t.len() as int
    } else if t[i] == 42u8 && t[i + 1] == 47u8 {
        if depth <= 1 {
            i + 2
        } else {
            block_comment_end(t, i + 2, depth - 1)
        }
    } else if t[i] == 47u8 && t[i + 1] == 42u8 {
        block_comment_end(t, i + 2, depth + 1)
    } else {
        block_comment_end(t, i + 1, depth)
    }
}

pub proof fn lemma_block_comment_end(t: Seq<u8>, i: int, depth: int)
    requires
        0 <= i <= t.len(),
    ensures
        i <= block_comment_end(t, i, depth) <= t.len(),
    decreases t.len() - i,
{
    if i + 1 >= t.len() {
    } else if t[i] == 42u8 && t[i + 1] == 47u8 {
        if depth <= 1 {
        } else {
            lemma_block_comment_end(t, i + 2, depth - 1);
        }
    } else if t[i] == 47u8 && t[i + 1] == 42u8 {
        lemma_block_comment_end(t, i + 2, depth + 1);
    } else {
        lemma_block_comment_end(t, i + 1, depth);
    }
}

/// The end (exclusive) of the comment opened at `i`: the end of the line
/// for a line comment (the newline itself is not part of the comment), the
/// matching closer for a block comment, or the end of input.
pub open spec fn comment_end(t: Seq<u8>, i: int) -> int
    recommends
        is_comment_start(t, i),
{
    if t[i + 1] == 47u8 {
        find_byte(t, 10u8, i + 2)
    } else {
        block_comment_end(t, i + 2, 1)
    }
}

pub proof fn lemma_comment_end(t: Seq<u8>, i: int)
    requires
        is_comment_start(t, i),
    ensures
        i + 2 <= comment_end(t, i) <= t.len(),
{
    if t[i + 1] == 47u8 {
        lemma_find_byte(t, 10u8, i + 2);
    } else {
        lemma_block_comment_end(t, i + 2, 1);
    }
}

/// The slices of `t` from `pos` on: maximal comment runs and the ordinary
/// code between them, in order.  Concatenating the ranges in order covers
/// `[pos, t.len())` exactly, so the slices reconstruct the input.
pub open spec fn scan_from(t: Seq<u8>, pos: int) -> Seq<(bool, int, int)>
    decreases t.len() - pos when 0 <= pos <= t.len()
{
    if pos >= t.len() {
        Seq::empty()
    } else if is_comment_start(t, pos) {
        let e0 = comment_end(t, pos);
        let e = if e0 <= pos {
            pos + 1
        } else if e0 > t.len() {
            t.len() as int
        } else {
            e0
        };
        seq![(true, pos, e - pos)] + scan_from(t, e)
    } else {
        let f0 = find_comment_start(t, pos + 1);
        let f = if f0 <= pos {
            pos + 1
        } else if f0 > t.len() {
            t.len() as int
        } else {
            f0
        };
        seq![(false, pos, f - pos)] + scan_from(t, f)
    }
}

/// The slicer's covering contract: slices are nonempty, consecutive, start
/// at `pos`, end at the length, comment slices open with a comment token,
/// and no two ordinary slices are adjacent.
pub proof fn lemma_scan_partition(t: Seq<u8>, pos: int)
    requires
        0 <= pos <= t.len(),
    ensures
        ({
            let ss = scan_from(t, pos);
            &&& (ss.len() == 0 <==> pos == t.len())
            &&& (ss.len() > 0 ==> ss[0].1 == pos)
            &&& (forall|k: int|
                0 <= k < ss.len() ==> (#[trigger] ss[k]).2 > 0 && ss[k].1 + ss[k].2 <= t.len())
            &&& (forall|k: int| 0 <= k < ss.len() - 1 ==> (#[trigger] ss[k + 1]).1 == ss[k].1 + ss[k].2)
            &&& (ss.len() > 0 ==> ss[ss.len() - 1].1 + ss[ss.len() - 1].2 == t.len())
            &&& (forall|k: int|
                0 <= k < ss.len() && (#[trigger] ss[k]).0 ==> is_comment_start(t, ss[k].1))
            &&& (forall|k: int| 0 <= k < ss.len() - 1 && !(#[trigger] ss[k]).0 ==> ss[k + 1].0)
        }),
    decreases t.len() - pos,
{
    if pos >= t.len() {
    } else if is_comment_start(t, pos) {
        lemma_comment_end(t, pos);
        let e0 = comment_end(t, pos);
        let e = if e0 <= pos {
            pos + 1
        } else if e0 > t.len() {
            t.len() as int
        } else {
            e0
        };
        lemma_scan_partition(t, e);
        let ss = scan_from(t, pos);
        let tail = scan_from(t, e);
        assert(ss == seq![(true, pos, e - pos)] + tail);
        assert(ss[0] == (true, pos, e - pos));
        assert forall|k: int| 1 <= k < ss.len() implies #[trigger] ss[k] == tail[k - 1] by {
            assert(ss[k] == (seq![(true, pos, e - pos)] + tail)[k]);
        }
        if tail.len() > 0 {
            assert(ss[ss.len() - 1] == tail[tail.len() - 1]);
            assert(ss[1] == tail[0]);
        }
        assert forall|k: int| 0 <= k < ss.len() - 1 implies (#[trigger] ss[k + 1]).1 == ss[k].1
            + ss[k].2 by {
            if k == 0 {
                assert(ss[1] == tail[0]);
                assert(tail[0].1 == e);
            } else {
                assert(ss[k] == tail[k - 1]);
                assert(ss[k + 1] == tail[k]);
                assert(tail[(k - 1) + 1].1 == tail[k - 1].1 + tail[k - 1].2);
            }
        }
    } else {
        lemma_find_comment_start(t, pos + 1);
        let f0 = find_comment_start(t, pos + 1);
        let f = if f0 <= pos {
            pos + 1
        } else if f0 > t.len() {
            t.len() as int
        } else {
            f0
        };
        lemma_scan_partition(t, f);
        let ss = scan_from(t, pos);
        let tail = scan_from(t, f);
        assert(ss == seq![(false, pos, f - pos)] + tail);
        assert(ss[0] == (false, pos, f - pos));
        assert forall|k: int| 1 <= k < ss.len() implies #[trigger] ss[k] == tail[k - 1] by {
            assert(ss[k] == (seq![(false, pos, f - pos)] + tail)[k]);
        }
        if tail.len() > 0 {
            assert(ss[ss.len() - 1] == tail[tail.len() - 1]);
            assert(ss[1] == tail[0]);
        }
        if f < t.len() {
            assert(is_comment_start(t, f));
            assert(scan_from(t, f)[0].0 == true);
        }
        assert forall|k: int| 0 <= k < ss.len() - 1 implies (#[trigger] ss[k + 1]).1 == ss[k].1
            + ss[k].2 by {
            if k == 0 {
                assert(ss[1] == tail[0]);
                assert(tail[0].1 == f);
            } else {
                assert(ss[k] == tail[k - 1]);
                assert(ss[k + 1] == tail[k]);
                assert(tail[(k - 1) + 1].1 == tail[k - 1].1 + tail[k - 1].2);
            }
        }
        assert forall|k: int| 0 <= k < ss.len() - 1 && !(#[trigger] ss[k]).0 implies ss[k + 1].0 by {
            if k == 0 {
                assert(ss[1] == tail[0]);
            } else {
                assert(ss[k] == tail[k - 1]);
                assert(ss[k + 1] == tail[k]);
            }
        }
    }
}

/// Whether a comment opens anywhere in `t`; exactly when some slice of the
/// scan is a comment.
pub open spec fn spec_contains_comment(t: Seq<u8>) -> bool {
    exists|i: int| is_comment_start(t, i)
}

fn find_byte_from(t: &Vec<u8>, b: u8, from: usize) -> (r: usize)
    requires
        from <= t@.len(),
    ensures
        r as int == find_byte(t@, b, from as int),
{
    let mut i = from;
    while i < t.len()
        invariant
            from <= i <= t@.len(),
            find_byte(t@, b, from as int) == find_byte(t@, b, i as int),
        decreases t@.len() - i,
    {
        if t[i] == b {
            return i;
        }
        i = i + 1;
    }
    i
}

fn find_comment_start_from(t: &Vec<u8>, from: usize) -> (r: usize)
    requires
        from <= t@.len(),
    ensures
        r as int == find_comment_start(t@, from as int),
{
    let mut i = from;
    while i < t.len()
        invariant
            from <= i <= t@.len(),
            find_comment_start(t@, from as int) == find_comment_start(t@, i as int),
        decreases t@.len() - i,
    {
        if i + 1 < t.len() && t[i] == 47u8 && (t[i + 1] == 47u8 || t[i + 1] == 42u8) {
            assert(is_comment_start(t@, i as int));
            return i;
        }
        assert(!is_comment_start(t@, i as int));
        i = i + 1;
    }
    i
}

fn block_comment_end_from(t: &Vec<u8>, from: usize) -> (r: usize)
    requires
        from <= t@.len(),
    ensures
        r as int == block_comment_end(t@, from as int, 1),
{
    let mut i = from;
    let mut depth: usize = 1;
    loop
        invariant
            from <= i <= t@.len(),
            1 <= depth,
            2 * depth <= i + 2,
            block_comment_end(t@, from as int, 1) == block_comment_end(t@, i as int, depth as int),
        decreases t@.len() - i,
    {
        if i >= t.len() || i + 1 >= t.len() {
            return t.len();
        }
        if t[i] == 42u8 && t[i + 1] == 47u8 {
            if depth <= 1 {
                return i + 2;
            }
            depth = depth - 1;
            i = i + 2;
        } else if t[i] == 47u8 && t[i + 1] == 42u8 {
            depth = depth + 1;
            i = i + 2;
        } else {
            i = i + 1;
        }
    }
}

/// Split a span of source bytes into its comment and ordinary-code slices.
/// The slices partition the input in order (see [`lemma_scan_partition`]);
/// a comment slice runs from a `//` to the end of its line, the newline
/// excluded, or from a `/*` to its matching closer.
pub fn comment_code_slices(text: &Vec<u8>) -> (r: Vec<CodeSlice>)
    ensures
        r@.map_values(|s: CodeSlice| s.model()) == scan_from(text@, 0),
{
    let ghost t = text@;
    let mut r: Vec<CodeSlice> = Vec::new();
    let mut pos: usize = 0;
    while pos < text.len()
        invariant
            pos <= t.len(),
            t == text@,
            scan_from(t, 0) == r@.map_values(|s: CodeSlice| s.model()) + scan_from(t, pos as int),
        decreases t.len() - pos,
    {
        let ghost old_map = r@.map_values(|s: CodeSlice| s.model());
        if pos + 1 < text.len() && text[pos] == 47u8 && (text[pos + 1] == 47u8 || text[pos + 1]
            == 42u8) {
            assert(is_comment_start(t, pos as int));
            let e = if text[pos + 1] == 47u8 {
                find_byte_from(text, 10u8, pos + 2)
            } else {
                block_comment_end_from(text, pos + 2)
            };
            proof {
                lemma_comment_end(t, pos as int);
                assert(e as int == comment_end(t, pos as int));
            }
            r.push(CodeSlice { kind: CodeCharKind::Comment, offset: pos, len: e - pos });
            proof {
                assert(r@.map_values(|s: CodeSlice| s.model()) =~= old_map.push(
                    (true, pos as int, e - pos as int),
                ));
                assert(old_map.push((true, pos as int, e - pos as int)) + scan_from(t, e as int)
                    =~= old_map + scan_from(t, pos as int));
            }
            pos = e;
        } else {
            assert(!is_comment_start(t, pos as int));
            let f = find_comment_start_from(text, pos + 1);
            proof {
                lemma_find_comment_start(t, pos + 1);
            }
            r.push(CodeSlice { kind: CodeCharKind::Normal, offset: pos, len: f - pos });
            proof {
                assert(r@.map_values(|s: CodeSlice| s.model()) =~= old_map.push(
                    (false, pos as int, f - pos as int),
                ));
                assert(old_map.push((false, pos as int, f - pos as int)) + scan_from(t, f as int)
                    =~= old_map + scan_from(t, pos as int));
            }
            pos = f;
        }
    }
    proof {
        assert(scan_from(t, pos as int) =~= Seq::<(bool, int, int)>::empty());
        assert(r@.map_values(|s: CodeSlice| s.model()) + Seq::<(bool, int, int)>::empty()
            =~= r@.map_values(|s: CodeSlice| s.model()));
    }
    r
}

/// Whether the span holds a comment.
pub fn contains_comment(text: &Vec<u8>) -> (r: bool)
    ensures
        r == spec_contains_comment(text@),
{
    let mut i: usize = 0;
    while i < text.len()
        invariant
            i <= text@.len(),
            forall|j: int| 0 <= j < i ==> !is_comment_start(text@, j),
        decreases text@.len() - i,
    {
        if i + 1 < text.len() && text[i] == 47u8 && (text[i + 1] == 47u8 || text[i + 1] == 42u8) {
            assert(is_comment_start(text@, i as int));
            return true;
        }
        assert(!is_comment_start(text@, i as int));
        i = i + 1;
    }
    assert forall|j: int| !is_comment_start(text@, j) by {
        if 0 <= j && j + 1 < text@.len() {
            assert(j < i);
        }
    }
    false
}

/// A byte the trimming helpers treat as blank.
pub open spec fn is_ws(b: u8) -> bool {
    b == 32u8 || b == 9u8 || b == 10u8 || b == 13u8 || b == 11u8 || b == 12u8
}

/// The first non-blank index at or after `i`, or the length.
pub open spec fn trim_start_idx(s: Seq<u8>, i: int) -> int
    decreases s.len() - i when 0 <= i <= s.len()
{
    if i >= s.len() {
        s.len() as int
    } else if is_ws(s[i]) {
        trim_start_idx(s, i + 1)
    } else {
        i
    }
}

/// One past the last non-blank index strictly before `j`, or zero.
pub open spec fn trim_end_idx(s: Seq<u8>, j: int) -> int
    decreases j when 0 <= j <= s.len()
{
    if j <= 0 {
        0
    } else if is_ws(s[j - 1]) {
        trim_end_idx(s, j - 1)
    } else {
        j
    }
}

/// `s` with leading and trailing blanks removed.
pub open spec fn spec_trimmed(s: Seq<u8>) -> Seq<u8> {
    let a = trim_start_idx(s, 0);
    let b = trim_end_idx(s, s.len() as int);
    if a >= b {
        Seq::empty()
    } else {
        s.subrange(a, b)
    }
}

/// A slice the closing reconstructor may drop: blank, or lone semicolons
/// with nothing else between them.
pub open spec fn spec_skippable(s: Seq<u8>) -> bool {
    forall|i: int| 0 <= i < spec_trimmed(s).len() ==> spec_trimmed(s)[i] == 59u8
}

pub proof fn lemma_trim_idx(s: Seq<u8>)
    ensures
        0 <= trim_start_idx(s, 0) <= s.len(),
        0 <= trim_end_idx(s, s.len() as int) <= s.len(),
    decreases s.len(),
{
    lemma_trim_start_idx(s, 0);
    lemma_trim_end_idx(s, s.len() as int);
}

proof fn lemma_trim_start_idx(s: Seq<u8>, i: int)
    requires
        0 <= i <= s.len(),
    ensures
        i <= trim_start_idx(s, i) <= s.len(),
    decreases s.len() - i,
{
    if i >= s.len() {
    } else if is_ws(s[i]) {
        lemma_trim_start_idx(s, i + 1);
    }
}

proof fn lemma_trim_end_idx(s: Seq<u8>, j: int)
    requires
        0 <= j <= s.len(),
    ensures
        0 <= trim_end_idx(s, j) <= j,
    decreases j,
{
    if j <= 0 {
    } else if is_ws(s[j - 1]) {
        lemma_trim_end_idx(s, j - 1);
    }
}

fn exec_is_ws(b: u8) -> (r: bool)
    ensures
        r == is_ws(b),
{
    b == 32u8 || b == 9u8 || b == 10u8 || b == 13u8 || b == 11u8 || b == 12u8
}

/// The bounds of the trimmed middle of `t`: the first and one past the last
/// non-blank byte.
pub fn trim_bounds(t: &Vec<u8>) -> (r: (usize, usize))
    ensures
        r.0 as int == trim_start_idx(t@, 0),
        r.1 as int == trim_end_idx(t@, t@.len() as int),
{
    let mut a: usize = 0;
    while a < t.len() && (t[a] == 32u8 || t[a] == 9u8 || t[a] == 10u8 || t[a] == 13u8 || t[a]
        == 11u8 || t[a] == 12u8)
        invariant
            a <= t@.len(),
            trim_start_idx(t@, 0) == trim_start_idx(t@, a as int),
        decreases t@.len() - a,
    {
        a = a + 1;
    }
    let mut b: usize = t.len();
    while b > 0 && (t[b - 1] == 32u8 || t[b - 1] == 9u8 || t[b - 1] == 10u8 || t[b - 1] == 13u8
        || t[b - 1] == 11u8 || t[b - 1] == 12u8)
        invariant
            b <= t@.len(),
            trim_end_idx(t@, t@.len() as int) == trim_end_idx(t@, b as int),
        decreases b,
    {
        b = b - 1;
    }
    (a, b)
}

/// Whether the closing reconstructor may drop this slice.
pub fn is_skippable(t: &Vec<u8>) -> (r: bool)
    ensures
        r == spec_skippable(t@),
{
    proof {
        lemma_trim_idx(t@);
    }
    let (a, b) = trim_bounds(t);
    if a >= b {
        assert(spec_trimmed(t@) =~= Seq::<u8>::empty());
        return true;
    }
    let ghost tr = spec_trimmed(t@);
    let mut i = a;
    while i < b
        invariant
            a <= i <= b <= t@.len(),
            a as int == trim_start_idx(t@, 0),
            b as int == trim_end_idx(t@, t@.len() as int),
            a < b,
            tr == spec_trimmed(t@),
            forall|j: int| 0 <= j < i - a ==> tr[j] == 59u8,
        decreases b - i,
    {
        if t[i] != 59u8 {
            assert(tr[i - a as int] == t@[i as int]);
            return false;
        }
        assert(tr[i - a as int] == 59u8);
        i = i + 1;
    }
    true
}

/// The number of newline bytes at or after `i`.
pub open spec fn count_nl_from(s: Seq<u8>, i: int) -> int
    decreases s.len() - i when 0 <= i <= s.len()
{
    if i >= s.len() {
        0
    } else {
        (if s[i] == 10u8 {
            1int
        } else {
            0int
        }) + count_nl_from(s, i + 1)
    }
}

/// The number of newline bytes in `s`.
pub open spec fn spec_count_newlines(s: Seq<u8>) -> int {
    count_nl_from(s, 0)
}

proof fn lemma_count_nl_from_bound(s: Seq<u8>, i: int)
    requires
        0 <= i <= s.len(),
    ensures
        0 <= count_nl_from(s, i) <= s.len() - i,
    decreases s.len() - i,
{
    if i >= s.len() {
    } else {
        lemma_count_nl_from_bound(s, i + 1);
    }
}

pub proof fn lemma_count_nl_bound(s: Seq<u8>)
    ensures
        0 <= spec_count_newlines(s) <= s.len(),
{
    lemma_count_nl_from_bound(s, 0);
}

/// Count the newline bytes of a span.
pub fn count_newlines(t: &Vec<u8>) -> (r: usize)
    ensures
        r as int == spec_count_newlines(t@),
{
    let n = t.len();
    let mut i: usize = n;
    let mut c: usize = 0;
    while i > 0
        invariant
            n == t@.len(),
            i <= n,
            c as int == count_nl_from(t@, i as int),
            c <= n - i,
        decreases i,
    {
        i = i - 1;
        if t[i] == 10u8 {
            c = c + 1;
        }
    }
    c
}

/// Whether the span holds a newline.
pub open spec fn has_newline(s: Seq<u8>) -> bool {
    exists|i: int| 0 <= i < s.len() && s[i] == 10u8
}

pub fn contains_newline(t: &Vec<u8>) -> (r: bool)
    ensures
        r == has_newline(t@),
{
    let mut i: usize = 0;
    while i < t.len()
        invariant
            i <= t@.len(),
            forall|j: int| 0 <= j < i ==> t@[j] != 10u8,
        decreases t@.len() - i,
    {
        if t[i] == 10u8 {
            return true;
        }
        i = i + 1;
    }
    false
}

/// The width of the text after its last newline; the whole width when it
/// has none.
pub open spec fn spec_last_line_width(s: Seq<u8>) -> int
    decreases s.len(),
{
    if s.len() == 0 {
        0
    } else if s[s.len() - 1] == 10u8 {
        0
    } else {
        1 + spec_last_line_width(s.drop_last())
    }
}

proof fn lemma_llw_at(s: Seq<u8>, j: int)
    requires
        0 <= j <= s.len(),
        forall|k: int| j <= k < s.len() ==> s[k] != 10u8,
        j > 0 ==> s[j - 1] == 10u8,
    ensures
        spec_last_line_width(s) == s.len() - j,
    decreases s.len(),
{
    if s.len() == j {
        if j > 0 {
            assert(s[s.len() - 1] == 10u8);
        }
    } else {
        assert(s[s.len() - 1] != 10u8);
        lemma_llw_at(s.drop_last(), j);
    }
}

/// The width of the last line of the buffer.
pub fn last_line_width(t: &Vec<u8>) -> (r: usize)
    ensures
        r as int == spec_last_line_width(t@),
{
    let mut j: usize = t.len();
    while j > 0 && t[j - 1] != 10u8
        invariant
            j <= t@.len(),
            forall|k: int| j <= k < t@.len() ==> t@[k] != 10u8,
        decreases j,
    {
        j = j - 1;
    }
    proof {
        lemma_llw_at(t@, j as int);
    }
    t.len() - j
}

/// What the comment re-flow layer hands back for a comment: this stand-in
/// for the text-layout boundary trims trailing blanks from a one-line
/// comment and declines (`None`, leave unmodified) on anything else.
pub open spec fn spec_rewrite_comment(text: Seq<u8>) -> Option<Seq<u8>> {
    if has_newline(text) {
        None
    } else {
        Some(text.subrange(0, trim_end_idx(text, text.len() as int)))
    }
}

/// The comment text as it is emitted: re-wrapped when the re-flow layer
/// accepts it, byte-for-byte otherwise.
pub open spec fn rewritten_or_raw(text: Seq<u8>) -> Seq<u8> {
    match spec_rewrite_comment(text) {
        Some(t) => t,
        None => text,
    }
}

/// Re-flow one comment.  This is the boundary with the expression-layout
/// subsystem; the engine only relies on `None` meaning "emit unmodified".
/// This implementation trims trailing blanks from single-line comments and
/// leaves multi-line comments alone.
pub fn rewrite_comment(text: &Vec<u8>) -> (r: Option<Vec<u8>>)
    ensures
        (match r {
            Some(v) => spec_rewrite_comment(text@) == Some(v@),
            None => spec_rewrite_comment(text@) is None,
        }),
{
    if contains_newline(text) {
        return None;
    }
    proof {
        lemma_trim_end_idx(text@, text@.len() as int);
    }
    let mut b: usize = text.len();
    while b > 0 && (text[b - 1] == 32u8 || text[b - 1] == 9u8 || text[b - 1] == 10u8 || text[b
        - 1] == 13u8 || text[b - 1] == 11u8 || text[b - 1] == 12u8)
        invariant
            b <= text@.len(),
            trim_end_idx(text@, text@.len() as int) == trim_end_idx(text@, b as int),
        decreases b,
    {
        b = b - 1;
    }
    let mut out: Vec<u8> = Vec::new();
    let mut i: usize = 0;
    while i < b
        invariant
            i <= b <= text@.len(),
            out@ == text@.subrange(0, i as int),
        decreases b - i,
    {
        out.push(text[i]);
        proof {
            assert(out@ =~= text@.subrange(0, i + 1));
        }
        i = i + 1;
    }
    Some(out)
}

/// A copy of `v[a..b]`.
pub fn subvec(v: &Vec<u8>, a: usize, b: usize) -> (r: Vec<u8>)
    requires
        a <= b <= v@.len(),
    ensures
        r@ == v@.subrange(a as int, b as int),
{
    let mut r: Vec<u8> = Vec::new();
    let mut i = a;
    while i < b
        invariant
            a <= i <= b <= v@.len(),
            r@ == v@.subrange(a as int, i as int),
        decreases b - i,
    {
        r.push(v[i]);
        proof {
            assert(r@ =~= v@.subrange(a as int, i + 1));
        }
        i = i + 1;
    }
    r
}

} // verus!
