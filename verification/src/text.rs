//! Character-level text primitives.
//!
//! Texts are handled as sequences of `char`; every function here is stated over
//! `Seq<char>` and implemented on `&[char]`.

use vstd::prelude::*;
use vstd::slice::slice_subrange;

verus! {

/// The characters with the Unicode `White_Space` property.
pub open spec fn is_space(c: char) -> bool {
    let n = c as u32;
    (0x09 <= n && n <= 0x0D) || n == 0x20 || n == 0x85 || n == 0xA0 || n == 0x1680 || (0x2000 <= n
        && n <= 0x200A) || n == 0x2028 || n == 0x2029 || n == 0x202F || n == 0x205F || n == 0x3000
}

/// Whether `c` is white space.
pub fn char_is_space(c: char) -> (r: bool)
    ensures
        r == is_space(c),
{
    let n: u32 = c as u32;
    (0x09 <= n && n <= 0x0D) || n == 0x20 || n == 0x85 || n == 0xA0 || n == 0x1680 || (0x2000 <= n
        && n <= 0x200A) || n == 0x2028 || n == 0x2029 || n == 0x202F || n == 0x205F || n == 0x3000
}

/// Index of the first character at or after `i` that is not white space
/// (`s.len()` when there is none).
pub open spec fn skip_spaces(s: Seq<char>, i: int) -> int
    decreases s.len() - i,
{
    if 0 <= i < s.len() && is_space(s[i]) {
        skip_spaces(s, i + 1)
    } else {
        i
    }
}

/// One past the index of the last character in `lo..j` that is not white space
/// (`lo` when there is none).
pub open spec fn skip_spaces_back(s: Seq<char>, lo: int, j: int) -> int
    decreases j,
{
    if 0 <= lo < j <= s.len() && is_space(s[j - 1]) {
        skip_spaces_back(s, lo, j - 1)
    } else {
        j
    }
}

/// `s` without its leading and trailing white space.
pub open spec fn trimmed(s: Seq<char>) -> Seq<char> {
    let a = skip_spaces(s, 0);
    let b = skip_spaces_back(s, a, s.len() as int);
    s.subrange(a, b)
}

/// Every character of `s` is white space.
pub open spec fn is_blank(s: Seq<char>) -> bool {
    forall|i: int| 0 <= i < s.len() ==> is_space(#[trigger] s[i])
}

/// Between `i` and where skipping stops there is only white space, and
/// skipping stops at a character that is none.
pub proof fn lemma_skip_spaces_bounds(s: Seq<char>, i: int)
    requires
        0 <= i <= s.len(),
    ensures
        i <= skip_spaces(s, i) <= s.len(),
        forall|k: int| i <= k < skip_spaces(s, i) ==> is_space(#[trigger] s[k]),
        skip_spaces(s, i) < s.len() ==> !is_space(s[skip_spaces(s, i)]),
    decreases s.len() - i,
{
    if i < s.len() && is_space(s[i]) {
        lemma_skip_spaces_bounds(s, i + 1);
    }
}

/// Between where skipping backwards stops and `j` there is only white space,
/// and skipping stops behind a character that is none.
pub proof fn lemma_skip_spaces_back_bounds(s: Seq<char>, lo: int, j: int)
    requires
        0 <= lo <= j <= s.len(),
    ensures
        lo <= skip_spaces_back(s, lo, j) <= j,
        forall|k: int| skip_spaces_back(s, lo, j) <= k < j ==> is_space(#[trigger] s[k]),
        lo < skip_spaces_back(s, lo, j) ==> !is_space(s[skip_spaces_back(s, lo, j) - 1]),
    decreases j,
{
    if lo < j && is_space(s[j - 1]) {
        lemma_skip_spaces_back_bounds(s, lo, j - 1);
    }
}

/// A trimmed text neither starts nor ends with white space, and trimming a
/// text a second time changes nothing.
pub proof fn lemma_trimmed_edges(s: Seq<char>)
    ensures
        trimmed(s).len() <= s.len(),
        trimmed(s).len() > 0 ==> !is_space(trimmed(s)[0]) && !is_space(trimmed(s).last()),
        trimmed(trimmed(s)) == trimmed(s),
        is_blank(s) <==> trimmed(s).len() == 0,
{
    let a = skip_spaces(s, 0);
    lemma_skip_spaces_bounds(s, 0);
    let b = skip_spaces_back(s, a, s.len() as int);
    lemma_skip_spaces_back_bounds(s, a, s.len() as int);
    let t = trimmed(s);
    if t.len() > 0 {
        assert(t[0] == s[a]);
        assert(t.last() == s[b - 1]);
        assert(skip_spaces(t, 0) == 0);
        assert(skip_spaces_back(t, 0, t.len() as int) == t.len());
        assert(t.subrange(0, t.len() as int) == t);
    } else {
        assert(skip_spaces(t, 0) == 0);
        assert(skip_spaces_back(t, 0, 0) == 0);
        assert(t.subrange(0, 0) == t);
        if a < s.len() {
            assert(b > a) by {
                if b == a {
                    assert(is_space(s[a]));
                }
            }
        }
    }
    if is_blank(s) {
        if a < s.len() {
            assert(is_space(s[a]));
        }
    }
}

/// Removes leading and trailing white space.
pub fn trim<'a>(s: &'a [char]) -> (r: &'a [char])
    ensures
        r@ == trimmed(s@),
{
    let n: usize = s.len();
    let mut a: usize = 0;
    while a < n && char_is_space(s[a])
        invariant
            n == s@.len(),
            a <= n,
            skip_spaces(s@, 0) == skip_spaces(s@, a as int),
        decreases n - a,
    {
        a += 1;
    }
    let mut b: usize = n;
    while a < b && char_is_space(s[b - 1])
        invariant
            n == s@.len(),
            a <= b <= n,
            skip_spaces_back(s@, a as int, n as int) == skip_spaces_back(s@, a as int, b as int),
        decreases b,
    {
        b -= 1;
    }
    slice_subrange(s, a, b)
}

/// Whether two texts hold the same characters.
pub fn same_text(a: &[char], b: &[char]) -> (r: bool)
    ensures
        r == (a@ == b@),
{
    if a.len() != b.len() {
        return false;
    }
    let mut i: usize = 0;
    while i < a.len()
        invariant
            a@.len() == b@.len(),
            i <= a@.len(),
            a@.take(i as int) == b@.take(i as int),
        decreases a.len() - i,
    {
        if a[i] != b[i] {
            return false;
        }
        proof {
            assert(a@.take(i + 1) == a@.take(i as int).push(a@[i as int]));
            assert(b@.take(i + 1) == b@.take(i as int).push(b@[i as int]));
        }
        i += 1;
    }
    proof {
        assert(a@.take(a@.len() as int) == a@);
        assert(b@.take(b@.len() as int) == b@);
    }
    true
}

/// `needle` stands in `s` at index `i`.
pub open spec fn occurs_at(s: Seq<char>, needle: Seq<char>, i: int) -> bool {
    0 <= i && i + needle.len() <= s.len() && s.subrange(i, i + needle.len()) == needle
}

/// `s` begins with `prefix`.
pub open spec fn has_prefix(s: Seq<char>, prefix: Seq<char>) -> bool {
    occurs_at(s, prefix, 0)
}

/// `needle` stands somewhere in `s`.
pub open spec fn has_infix(s: Seq<char>, needle: Seq<char>) -> bool {
    exists|i: int| occurs_at(s, needle, i)
}

/// Whether `needle` stands in `s` at index `i`.
pub fn matches_at(s: &[char], needle: &[char], i: usize) -> (r: bool)
    ensures
        r == occurs_at(s@, needle@, i as int),
{
    if i > s.len() || needle.len() > s.len() - i {
        return false;
    }
    same_text(slice_subrange(s, i, i + needle.len()), needle)
}

/// Whether `s` begins with `prefix`.
pub fn starts_with(s: &[char], prefix: &[char]) -> (r: bool)
    ensures
        r == has_prefix(s@, prefix@),
{
    matches_at(s, prefix, 0)
}

/// Whether `needle` stands somewhere in `s`.
pub fn contains(s: &[char], needle: &[char]) -> (r: bool)
    ensures
        r == has_infix(s@, needle@),
{
    if needle.len() > s.len() {
        return false;
    }
    let last: usize = s.len() - needle.len();
    let mut i: usize = 0;
    while i < last
        invariant
            last == s@.len() - needle@.len(),
            i <= last,
            forall|k: int| 0 <= k < i ==> !occurs_at(s@, needle@, k),
        decreases last - i,
    {
        if matches_at(s, needle, i) {
            return true;
        }
        i += 1;
    }
    matches_at(s, needle, last)
}

/// Whether `c` occurs in `s`.
pub fn contains_char(s: &[char], c: char) -> (r: bool)
    ensures
        r == s@.contains(c),
{
    let mut i: usize = 0;
    while i < s.len()
        invariant
            i <= s@.len(),
            forall|k: int| 0 <= k < i ==> s@[k] != c,
        decreases s.len() - i,
    {
        if s[i] == c {
            return true;
        }
        i += 1;
    }
    false
}

/// The characters of a string, in order.
pub fn to_chars(s: &str) -> (v: Vec<char>)
    ensures
        v@ == s@,
{
    let mut v: Vec<char> = Vec::new();
    for c in it: s.chars()
        invariant
            v@ == it.seq().take(it.index() as int),
            it.seq() == s@,
    {
        v.push(c);
    }
    v
}

/// `String::push`: the character is appended to the characters of the string.
pub assume_specification[ String::push ](s: &mut String, c: char)
    ensures
        final(s)@ == old(s)@.push(c),
;

/// The string made of the given characters.
pub fn to_text(v: &[char]) -> (s: String)
    ensures
        s@ == v@,
{
    let mut s = String::new();
    let mut i: usize = 0;
    while i < v.len()
        invariant
            i <= v@.len(),
            s@ == v@.take(i as int),
        decreases v.len() - i,
    {
        s.push(v[i]);
        proof {
            assert(v@.take(i + 1) == v@.take(i as int).push(v@[i as int]));
        }
        i += 1;
    }
    proof {
        assert(v@.take(v@.len() as int) == v@);
    }
    s
}

/// Appends the characters of `s` to `out`.
pub fn push_chars(out: &mut Vec<char>, s: &[char])
    ensures
        final(out)@ == old(out)@ + s@,
{
    let mut i: usize = 0;
    while i < s.len()
        invariant
            i <= s@.len(),
            out@ == old(out)@ + s@.take(i as int),
        decreases s.len() - i,
    {
        out.push(s[i]);
        proof {
            assert(s@.take(i + 1) == s@.take(i as int).push(s@[i as int]));
        }
        i += 1;
    }
    proof {
        assert(s@.take(s@.len() as int) == s@);
    }
}

/// Appends the characters of the string `s` to `out`.
pub fn push_str(out: &mut Vec<char>, s: &str)
    ensures
        final(out)@ == old(out)@ + s@,
{
    let v = to_chars(s);
    push_chars(out, v.as_slice());
}

/// Index of the first line feed at or after `pos` (`t.len()` when there is none).
pub open spec fn newline_at(t: Seq<char>, pos: int) -> int
    decreases t.len() - pos,
{
    if pos < 0 || pos >= t.len() {
        t.len() as int
    } else if t[pos] == '\n' {
        pos
    } else {
        newline_at(t, pos + 1)
    }
}

/// Where the line that begins at `pos` stops: before its line feed, and before
/// the carriage return in front of that line feed if there is one. A carriage
/// return that no line feed follows belongs to the line.
pub open spec fn line_stop(t: Seq<char>, pos: int) -> int {
    let nl = newline_at(t, pos);
    if pos < nl < t.len() && t[nl - 1] == '\r' {
        nl - 1
    } else {
        nl
    }
}

/// Where the line after the one that begins at `pos` begins.
pub open spec fn line_next(t: Seq<char>, pos: int) -> int {
    let nl = newline_at(t, pos);
    if nl < t.len() {
        nl + 1
    } else {
        nl
    }
}

/// The first line feed at or after `pos` lies in the text or at its end, and
/// no line feed stands in front of it.
pub proof fn lemma_newline_at(t: Seq<char>, pos: int)
    requires
        0 <= pos <= t.len(),
    ensures
        pos <= newline_at(t, pos) <= t.len(),
        newline_at(t, pos) < t.len() ==> t[newline_at(t, pos)] == '\n',
        forall|k: int| pos <= k < newline_at(t, pos) ==> #[trigger] t[k] != '\n',
    decreases t.len() - pos,
{
    if pos < t.len() && t[pos] != '\n' {
        lemma_newline_at(t, pos + 1);
    }
}

/// A line of a text: its characters, and the terminator that follows them
/// (`"\n"`, `"\r\n"`, or nothing at the end of the text).
pub ghost struct LineView {
    pub content: Seq<char>,
    pub ending: Seq<char>,
}

impl LineView {
    /// The line with its terminator.
    pub open spec fn raw(self) -> Seq<char> {
        self.content + self.ending
    }
}

/// The line of `t` that begins at `pos`.
pub open spec fn line_view(t: Seq<char>, pos: int) -> LineView {
    LineView {
        content: t.subrange(pos, line_stop(t, pos)),
        ending: t.subrange(line_stop(t, pos), line_next(t, pos)),
    }
}

/// The lines of `t` from the one that begins at `pos` on.
pub open spec fn lines_from(t: Seq<char>, pos: int) -> Seq<LineView>
    decreases t.len() - pos,
    via lines_from_decreases
{
    if pos < 0 || pos >= t.len() {
        Seq::empty()
    } else {
        seq![line_view(t, pos)] + lines_from(t, line_next(t, pos))
    }
}

#[via_fn]
proof fn lines_from_decreases(t: Seq<char>, pos: int) {
    if 0 <= pos < t.len() {
        lemma_newline_at(t, pos);
    }
}

/// The lines of `t`. A text that ends with a line feed has no empty line
/// behind it; the empty text has no lines.
pub open spec fn lines_of(t: Seq<char>) -> Seq<LineView> {
    lines_from(t, 0)
}

/// The text that `lines` make up.
pub open spec fn join_lines(lines: Seq<LineView>) -> Seq<char>
    decreases lines.len(),
{
    if lines.len() == 0 {
        Seq::empty()
    } else {
        lines[0].raw() + join_lines(lines.drop_first())
    }
}

/// The first line and the lines behind it.
pub proof fn lemma_lines_from_step(t: Seq<char>, pos: int)
    requires
        0 <= pos < t.len(),
    ensures
        pos <= line_stop(t, pos) <= line_next(t, pos) <= t.len(),
        pos < line_next(t, pos),
        lines_from(t, pos).len() > 0,
        lines_from(t, pos)[0] == line_view(t, pos),
        lines_from(t, pos).drop_first() == lines_from(t, line_next(t, pos)),
{
    lemma_newline_at(t, pos);
    let rest = lines_from(t, line_next(t, pos));
    assert((seq![line_view(t, pos)] + rest).drop_first() == rest);
}

/// The lines of a text make up the text.
pub proof fn lemma_join_lines_from(t: Seq<char>, pos: int)
    requires
        0 <= pos <= t.len(),
    ensures
        join_lines(lines_from(t, pos)) == t.subrange(pos, t.len() as int),
    decreases t.len() - pos,
{
    if pos < t.len() {
        lemma_lines_from_step(t, pos);
        let next = line_next(t, pos);
        lemma_join_lines_from(t, next);
        assert(line_view(t, pos).raw() + t.subrange(next, t.len() as int) == t.subrange(
            pos,
            t.len() as int,
        ));
    } else {
        assert(t.subrange(pos, t.len() as int) == Seq::<char>::empty());
    }
}

/// `s` holds no line feed.
pub open spec fn no_line_feed(s: Seq<char>) -> bool {
    forall|i: int| 0 <= i < s.len() ==> #[trigger] s[i] != '\n'
}

/// `e` is a line terminator: a line feed, with or without a carriage return
/// in front of it.
pub open spec fn is_line_ending(e: Seq<char>) -> bool {
    e == seq!['\n'] || e == seq!['\r', '\n']
}

/// `c` followed by the terminator `e` is read as the line `c`: `c` holds no
/// line feed, and it does not end in a carriage return that would be taken
/// for a part of the terminator.
pub open spec fn reads_as_line(c: Seq<char>, e: Seq<char>) -> bool {
    &&& no_line_feed(c)
    &&& is_line_ending(e)
    &&& (e == seq!['\n'] ==> c.len() == 0 || c.last() != '\r')
}

/// The first line feed at or after `pos` is the first one at or after `k`
/// when there is none between the two.
pub proof fn lemma_newline_at_skip(t: Seq<char>, pos: int, k: int)
    requires
        0 <= pos <= k <= t.len(),
        forall|j: int| pos <= j < k ==> #[trigger] t[j] != '\n',
    ensures
        newline_at(t, pos) == newline_at(t, k),
    decreases k - pos,
{
    if pos < k {
        lemma_newline_at_skip(t, pos + 1, k);
    }
}

/// Text in front of a text moves its line feeds by its length.
pub proof fn lemma_newline_at_shift(a: Seq<char>, r: Seq<char>, p: int)
    requires
        0 <= p <= r.len(),
    ensures
        newline_at(a + r, a.len() + p) == a.len() + newline_at(r, p),
    decreases r.len() - p,
{
    let t = a + r;
    if p < r.len() {
        assert(t[a.len() + p] == r[p]);
        if r[p] != '\n' {
            lemma_newline_at_shift(a, r, p + 1);
        }
    }
}

/// Text in front of a text does not change the lines of that text.
pub proof fn lemma_lines_from_shift(a: Seq<char>, r: Seq<char>, p: int)
    requires
        0 <= p <= r.len(),
    ensures
        lines_from(a + r, a.len() + p) == lines_from(r, p),
    decreases r.len() - p,
{
    let t = a + r;
    if p < r.len() {
        lemma_newline_at_shift(a, r, p);
        lemma_newline_at(r, p);
        let nl = newline_at(r, p);
        if p < nl {
            assert(t[a.len() + nl - 1] == r[nl - 1]);
        }
        assert(line_stop(t, a.len() + p) == a.len() + line_stop(r, p));
        assert(line_next(t, a.len() + p) == a.len() + line_next(r, p));
        assert(t.subrange(a.len() + p, a.len() + line_stop(r, p)) == r.subrange(
            p,
            line_stop(r, p),
        ));
        assert(t.subrange(a.len() + line_stop(r, p), a.len() + line_next(r, p)) == r.subrange(
            line_stop(r, p),
            line_next(r, p),
        ));
        assert(line_view(t, a.len() + p) == line_view(r, p));
        lemma_lines_from_shift(a, r, line_next(r, p));
    }
}

/// A text that begins with a line and its terminator has that line as its
/// first line, and behind it the lines of the rest.
pub proof fn lemma_lines_of_first(c: Seq<char>, e: Seq<char>, r: Seq<char>)
    requires
        reads_as_line(c, e),
    ensures
        lines_of(c + e + r) == seq![LineView { content: c, ending: e }] + lines_of(r),
{
    let t = c + e + r;
    let n = c.len() as int;
    let nl = n + e.len() - 1;
    assert forall|j: int| 0 <= j < nl implies #[trigger] t[j] != '\n' by {
        if j < n {
            assert(t[j] == c[j]);
        } else {
            assert(t[j] == e[j - n]);
        }
    }
    assert(t[nl] == e[e.len() - 1]);
    lemma_newline_at_skip(t, 0, nl);
    assert(newline_at(t, nl) == nl);
    if e.len() == 2 {
        assert(t[nl - 1] == e[0]);
    } else if n > 0 {
        assert(t[nl - 1] == c[n - 1]);
    }
    assert(line_stop(t, 0) == n);
    assert(line_next(t, 0) == nl + 1);
    assert(t.subrange(0, n) == c);
    assert(t.subrange(n, nl + 1) == e);
    assert(t == (c + e) + r);
    lemma_lines_from_shift(c + e, r, 0);
}

/// A text without a line feed and without a terminator is one line, or none
/// when it is empty.
pub proof fn lemma_lines_of_last(c: Seq<char>)
    requires
        no_line_feed(c),
    ensures
        lines_of(c) == if c.len() == 0 {
            Seq::<LineView>::empty()
        } else {
            seq![LineView { content: c, ending: Seq::empty() }]
        },
{
    if c.len() > 0 {
        lemma_newline_at_skip(c, 0, c.len() as int);
        assert(newline_at(c, c.len() as int) == c.len());
        assert(c.subrange(0, c.len() as int) == c);
        assert(c.subrange(c.len() as int, c.len() as int) == Seq::<char>::empty());
        assert(lines_from(c, c.len() as int) == Seq::<LineView>::empty());
    }
}

/// The part `a..b` of `s` is what trimming leaves of `s` when it begins and
/// ends with a character that is no white space and has only white space
/// around it.
pub proof fn lemma_trimmed_core(s: Seq<char>, a: int, b: int)
    requires
        0 <= a < b <= s.len(),
        forall|i: int| 0 <= i < a ==> is_space(#[trigger] s[i]),
        forall|i: int| b <= i < s.len() ==> is_space(#[trigger] s[i]),
        !is_space(s[a]),
        !is_space(s[b - 1]),
    ensures
        trimmed(s) == s.subrange(a, b),
{
    lemma_skip_spaces_bounds(s, 0);
    let x = skip_spaces(s, 0);
    if x < a {
        assert(is_space(s[x]));
    }
    if x > a {
        assert(is_space(s[a]));
    }
    lemma_skip_spaces_back_bounds(s, a, s.len() as int);
    let y = skip_spaces_back(s, a, s.len() as int);
    if y > b {
        assert(is_space(s[y - 1]));
    }
    if y < b {
        assert(is_space(s[b - 1]));
    }
}

/// A line of a text: `start..end` holds its characters without the line
/// terminator, and the next line begins at `next`.
#[derive(Clone, Copy, Debug)]
pub struct Line {
    pub start: usize,
    pub end: usize,
    pub next: usize,
}

impl Line {
    /// `self` is the line of `t` that begins at `pos`.
    pub open spec fn is_line_at(self, t: Seq<char>, pos: int) -> bool {
        &&& 0 <= pos < t.len()
        &&& self.start == pos
        &&& self.end == line_stop(t, pos)
        &&& self.next == line_next(t, pos)
    }
}

/// The line of `t` that begins at `pos`.
pub fn line_at(t: &[char], pos: usize) -> (line: Line)
    requires
        pos < t@.len(),
    ensures
        line.is_line_at(t@, pos as int),
        pos <= line.end <= line.next <= t@.len(),
        pos < line.next,
{
    let n: usize = t.len();
    let mut nl: usize = pos;
    while nl < n && t[nl] != '\n'
        invariant
            n == t@.len(),
            pos <= nl <= n,
            newline_at(t@, pos as int) == newline_at(t@, nl as int),
        decreases n - nl,
    {
        nl += 1;
    }
    if nl < n {
        if pos < nl && t[nl - 1] == '\r' {
            Line { start: pos, end: nl - 1, next: nl + 1 }
        } else {
            Line { start: pos, end: nl, next: nl + 1 }
        }
    } else {
        Line { start: pos, end: nl, next: nl }
    }
}

/// The position in `haystack` at which `line` begins.
pub fn offset(haystack: &[char], line: &Line) -> (at: usize)
    requires
        line.is_line_at(haystack@, line.start as int),
    ensures
        at == line.start,
        at < haystack@.len(),
        haystack@.subrange(at as int, line.end as int) == haystack@.subrange(
            line.start as int,
            line_stop(haystack@, line.start as int),
        ),
{
    line.start
}

} // verus!
