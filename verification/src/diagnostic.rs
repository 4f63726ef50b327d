//! Rustc-style rendering of diagnostics for the CLI.
use crate::span::{lemma_on_boundary, on_boundary, Span};
use crate::text::{chars_of, decimal, push_char, push_decimal, push_spaces, spaces};
use vstd::prelude::*;
use vstd::string::{StringExecFns, StringSliceAdditionalSpecFns};
use unicode_width::UnicodeWidthChar;

verus! {

/// The display width `unicode_width::UnicodeWidthChar::width` gives `c`.
pub uninterp spec fn unicode_width(c: char) -> Option<usize>;

/// `unicode_width::UnicodeWidthChar::width`: the character's displayed
/// width in columns, or `None` for a control character.
///
/// Trusted: the result is `unicode_width(c)`, a function of `c` alone read
/// from static tables. The crate's source answers `Some(1)` for printable
/// ASCII (`' '` to `'~'`), `None` for the control codes below `' '` and from
/// U+007F to U+009F, and a width of at most 3 otherwise.
#[verifier::external_body]
pub(crate) fn char_width(c: char) -> (w: Option<usize>)
    ensures
        w == unicode_width(c),
        (' ' <= c && c <= '~') ==> w == Some(1usize),
        (c < ' ' || ('\x7f' <= c && c < '\u{a0}')) ==> w is None,
        w matches Some(x) ==> x <= 3,
{
    UnicodeWidthChar::width(c)
}

/// The columns a character takes: four for a tab, its display width
/// otherwise (none for a control character).
pub open spec fn char_cols(c: char) -> nat {
    if c == '\t' {
        4
    } else {
        match unicode_width(c) {
            Some(w) => w as nat,
            None => 0,
        }
    }
}

/// The display width of `s`.
pub open spec fn display_width(s: Seq<char>) -> nat
    decreases s.len(),
{
    if s.len() == 0 {
        0
    } else {
        display_width(s.drop_last()) + char_cols(s.last())
    }
}

/// `s` with each tab replaced by four spaces.
pub open spec fn expand_tabs(s: Seq<char>) -> Seq<char>
    decreases s.len(),
{
    if s.len() == 0 {
        s
    } else {
        expand_tabs(s.drop_last()) + if s.last() == '\t' { spaces(4) } else { seq![s.last()] }
    }
}

/// The display width of `s`; see [`display_width`].
pub fn width_of(s: &str) -> (w: usize)
    requires
        4 * s@.len() <= usize::MAX,
    ensures
        w as nat == display_width(s@),
        w <= 4 * s@.len(),
{
    let v = chars_of(s);
    let mut w: usize = 0;
    let mut i: usize = 0;
    while i < v.len()
        invariant
            v@ == s@,
            4 * s@.len() <= usize::MAX,
            i <= v@.len(),
            w as nat == display_width(v@.subrange(0, i as int)),
            w <= 4 * i,
        decreases v@.len() - i,
    {
        let c = v[i];
        let add: usize = if c == '\t' {
            4
        } else {
            match char_width(c) {
                Some(x) => x,
                None => 0,
            }
        };
        assert(v@.subrange(0, i + 1).drop_last() =~= v@.subrange(0, i as int));
        w = w + add;
        i += 1;
    }
    assert(v@.subrange(0, v@.len() as int) =~= v@);
    w
}

/// Appends `s` with tabs expanded; see [`expand_tabs`].
pub fn push_expanded(out: &mut String, s: &str)
    ensures
        final(out)@ == old(out)@ + expand_tabs(s@),
{
    let v = chars_of(s);
    let ghost start = out@;
    let mut i: usize = 0;
    while i < v.len()
        invariant
            v@ == s@,
            i <= v@.len(),
            out@ == start + expand_tabs(v@.subrange(0, i as int)),
        decreases v@.len() - i,
    {
        assert(v@.subrange(0, i + 1).drop_last() =~= v@.subrange(0, i as int));
        if v[i] == '\t' {
            push_spaces(out, 4);
        } else {
            push_char(out, v[i]);
        }
        i += 1;
        assert(out@ =~= start + expand_tabs(v@.subrange(0, i as int)));
    }
    assert(v@.subrange(0, v@.len() as int) =~= v@);
}

/// The byte offsets where the lines of `bytes[..n]` start: 0, and one past
/// each line feed.
pub open spec fn starts_upto(bytes: Seq<u8>, n: int) -> Seq<usize>
    decreases n,
{
    if n <= 0 {
        seq![0usize]
    } else if bytes[n - 1] == 10u8 {
        starts_upto(bytes, n - 1).push(n as usize)
    } else {
        starts_upto(bytes, n - 1)
    }
}

/// Maps byte offsets in a source text to line / column positions.
#[derive(Debug)]
pub struct LineIndex {
    /// Byte offset of the start of each line.
    pub starts: Vec<usize>,
}

/// The number of leading line starts at or before `off`.
pub open spec fn lines_upto(starts: Seq<usize>, off: int, k: int) -> int
    decreases starts.len() - k,
{
    if k < 0 || k >= starts.len() || starts[k] > off {
        k
    } else {
        lines_upto(starts, off, k + 1)
    }
}

/// `lines_upto` counts a leading run of starts at or before `off`.
pub proof fn lemma_lines_upto(starts: Seq<usize>, off: int, k: int)
    requires
        0 <= k <= starts.len(),
    ensures
        k <= lines_upto(starts, off, k) <= starts.len(),
        forall|j: int| k <= j < lines_upto(starts, off, k) ==> starts[j] <= off,
        lines_upto(starts, off, k) < starts.len() ==> starts[lines_upto(starts, off, k)] > off,
    decreases starts.len() - k,
{
    if k < starts.len() && starts[k] <= off {
        lemma_lines_upto(starts, off, k + 1);
    }
}

/// The UTF-8 bytes of a text.
pub open spec fn bytes_of(text: Seq<char>) -> Seq<u8> {
    vstd::utf8::encode_utf8(text)
}

/// The characters of `bytes[a..b]`.
pub open spec fn chars_in(bytes: Seq<u8>, a: int, b: int) -> Seq<char> {
    vstd::utf8::decode_utf8(bytes.subrange(a, b))
}

/// The 0-based line and the 1-based display column of `offset` (clamped to
/// the text's end), given the text's line starts.
pub open spec fn spec_line_col(text: Seq<char>, starts: Seq<usize>, offset: usize) -> (int, int) {
    let bytes = bytes_of(text);
    let off = if offset <= bytes.len() { offset as int } else { bytes.len() as int };
    let n = lines_upto(starts, off, 0);
    let idx = if n >= 1 { n - 1 } else { 0 };
    (idx, display_width(chars_in(bytes, starts[idx] as int, off)) as int + 1)
}

/// Every line start lies on a character boundary of `bytes` and starts
/// are strictly increasing.
pub proof fn lemma_starts(bytes: Seq<u8>, n: int)
    requires
        0 <= n <= bytes.len(),
        bytes.len() <= usize::MAX,
        vstd::utf8::valid_utf8(bytes),
    ensures
        starts_upto(bytes, n).len() >= 1,
        starts_upto(bytes, n)[0] == 0,
        forall|k: int| 0 <= k < starts_upto(bytes, n).len() ==> #[trigger] starts_upto(bytes, n)[k] <= n,
        forall|k: int| 0 <= k < starts_upto(bytes, n).len() ==> on_boundary(bytes, #[trigger] starts_upto(bytes, n)[k] as int),
        forall|j: int, k: int| 0 <= j < k < starts_upto(bytes, n).len() ==> starts_upto(bytes, n)[j] < starts_upto(bytes, n)[k],
        forall|k: int| 1 <= k < starts_upto(bytes, n).len() ==> bytes[#[trigger] starts_upto(bytes, n)[k] - 1] == 10u8,
    decreases n,
{
    if n > 0 {
        lemma_starts(bytes, n - 1);
        let prev = starts_upto(bytes, n - 1);
        if bytes[n - 1] == 10u8 {
            lemma_newline_boundary(bytes, n);
            let cur = starts_upto(bytes, n);
            assert(cur == prev.push(n as usize));
            assert(forall|k: int| 0 <= k < prev.len() ==> #[trigger] prev[k] <= n - 1);
            assert forall|j: int, k: int| 0 <= j < k < cur.len() implies cur[j] < cur[k] by {
                assert(cur[j] == prev[j]);
                if k == cur.len() - 1 {
                    assert(cur[k] == n);
                } else {
                    assert(cur[k] == prev[k]);
                }
            }
            assert forall|k: int| 0 <= k < cur.len() implies on_boundary(bytes, #[trigger] cur[k] as int) by {
                if k < prev.len() {
                    assert(cur[k] == prev[k]);
                }
            }
        }
    }
}

/// In valid UTF-8, the position after an ASCII byte that starts a
/// character is a character boundary.
pub proof fn lemma_boundary_after_ascii(bytes: Seq<u8>, i: int)
    requires
        vstd::utf8::valid_utf8(bytes),
        vstd::utf8::is_char_boundary(bytes, i),
        0 <= i < bytes.len(),
        bytes[i] < 0x80u8,
    ensures
        vstd::utf8::is_char_boundary(bytes, i + 1),
    decreases bytes.len(),
{
    let l = vstd::utf8::length_of_first_scalar(bytes);
    let rest = vstd::utf8::pop_first_scalar(bytes);
    assert(vstd::utf8::valid_first_scalar(bytes));
    assert(vstd::utf8::valid_utf8(rest));
    if i == 0 {
        assert(l == 1);
        assert(vstd::utf8::is_char_boundary(rest, 0));
    } else {
        assert(vstd::utf8::is_char_boundary(rest, i - l));
        assert(i - l >= 0);
        assert(rest[i - l] == bytes[i]);
        lemma_boundary_after_ascii(rest, i - l);
    }
}

/// The position after a line feed is a character boundary.
pub proof fn lemma_newline_boundary(bytes: Seq<u8>, n: int)
    requires
        0 < n <= bytes.len(),
        bytes[n - 1] == 10u8,
        vstd::utf8::valid_utf8(bytes),
    ensures
        on_boundary(bytes, n),
{
    if n < bytes.len() {
        vstd::utf8::is_char_boundary_iff_is_leading_byte(bytes, n - 1);
        lemma_boundary_after_ascii(bytes, n - 1);
        lemma_on_boundary(bytes, n);
    }
}

/// The number of line feeds in `bytes[..n]`.
pub open spec fn newlines_before(bytes: Seq<u8>, n: int) -> nat
    decreases n,
{
    if n <= 0 {
        0
    } else {
        newlines_before(bytes, n - 1) + if bytes[n - 1] == 10u8 { 1nat } else { 0nat }
    }
}

/// There is one more line start than there are line feeds.
proof fn lemma_starts_len(bytes: Seq<u8>, n: int)
    requires
        0 <= n <= bytes.len(),
    ensures
        starts_upto(bytes, n).len() == newlines_before(bytes, n) + 1,
    decreases n,
{
    if n > 0 {
        lemma_starts_len(bytes, n - 1);
    }
}

/// The line starts of a prefix begin the line starts of a longer prefix,
/// whose other starts lie past the shorter one.
proof fn lemma_starts_prefix(bytes: Seq<u8>, n: int, m: int)
    requires
        0 <= n <= m <= bytes.len(),
        bytes.len() <= usize::MAX,
    ensures
        starts_upto(bytes, n).len() <= starts_upto(bytes, m).len(),
        forall|j: int| 0 <= j < starts_upto(bytes, n).len() ==> #[trigger] starts_upto(bytes, m)[j] == starts_upto(bytes, n)[j],
        forall|j: int| starts_upto(bytes, n).len() <= j < starts_upto(bytes, m).len() ==> #[trigger] starts_upto(bytes, m)[j] > n,
    decreases m - n,
{
    if m > n {
        lemma_starts_prefix(bytes, n, m - 1);
        let prev = starts_upto(bytes, m - 1);
        let cur = starts_upto(bytes, m);
        if bytes[m - 1] == 10u8 {
            assert(cur == prev.push(m as usize));
            assert forall|j: int| 0 <= j < starts_upto(bytes, n).len() implies #[trigger] cur[j] == starts_upto(bytes, n)[j] by {
                assert(cur[j] == prev[j]);
            }
            assert forall|j: int| starts_upto(bytes, n).len() <= j < cur.len() implies #[trigger] cur[j] > n by {
                if j < prev.len() {
                    assert(cur[j] == prev[j]);
                }
            }
        } else {
            assert(cur == prev);
        }
    }
}

/// Every line feed in `bytes[..n]` is followed by a line start.
proof fn lemma_starts_complete(bytes: Seq<u8>, n: int, p: int)
    requires
        0 <= p < n <= bytes.len(),
        bytes.len() <= usize::MAX,
        bytes[p] == 10u8,
    ensures
        exists|j: int| 0 <= j < starts_upto(bytes, n).len() && #[trigger] starts_upto(bytes, n)[j] == p + 1,
    decreases n,
{
    if p < n - 1 {
        lemma_starts_complete(bytes, n - 1, p);
        let j = choose|j: int| 0 <= j < starts_upto(bytes, n - 1).len() && #[trigger] starts_upto(bytes, n - 1)[j] == p + 1;
        assert(starts_upto(bytes, n)[j] == p + 1);
    } else {
        let s = starts_upto(bytes, n);
        assert(s == starts_upto(bytes, n - 1).push(n as usize));
        assert(s[s.len() - 1] == p + 1);
    }
}

/// `lines_upto` counts the leading starts at or before `off` when those are
/// exactly the first `p`.
proof fn lemma_lines_upto_prefix(starts: Seq<usize>, off: int, p: int, k: int)
    requires
        0 <= k <= p <= starts.len(),
        forall|j: int| 0 <= j < p ==> starts[j] <= off,
        p < starts.len() ==> starts[p] > off,
    ensures
        lines_upto(starts, off, k) == p,
    decreases p - k,
{
    if k < p {
        lemma_lines_upto_prefix(starts, off, p, k + 1);
    }
}

/// Lines are what splitting the text at its line feeds gives: the first
/// line starts at 0, every other line starts right after a line feed,
/// every line but the last ends at one, there is one more line than there
/// are line feeds, and no line holds a line feed.
pub proof fn law_lines_split_at_newlines(text: Seq<char>)
    requires
        bytes_of(text).len() <= usize::MAX,
    ensures
        starts_upto(bytes_of(text), bytes_of(text).len() as int)[0] == 0,
        forall|k: int| 1 <= k < starts_upto(bytes_of(text), bytes_of(text).len() as int).len()
            ==> bytes_of(text)[#[trigger] starts_upto(bytes_of(text), bytes_of(text).len() as int)[k] - 1] == 10u8,
        starts_upto(bytes_of(text), bytes_of(text).len() as int).len() == newlines_before(bytes_of(text), bytes_of(text).len() as int) + 1,
        forall|line: int| 0 <= line && line + 1 < starts_upto(bytes_of(text), bytes_of(text).len() as int).len()
            ==> bytes_of(text)[#[trigger] line_bounds(starts_upto(bytes_of(text), bytes_of(text).len() as int), bytes_of(text).len() as int, line).1] == 10u8,
        forall|line: int, p: int|
            #![trigger line_bounds(starts_upto(bytes_of(text), bytes_of(text).len() as int), bytes_of(text).len() as int, line), bytes_of(text)[p]]
            0 <= line < starts_upto(bytes_of(text), bytes_of(text).len() as int).len()
            && line_bounds(starts_upto(bytes_of(text), bytes_of(text).len() as int), bytes_of(text).len() as int, line).0 <= p
            && p < line_bounds(starts_upto(bytes_of(text), bytes_of(text).len() as int), bytes_of(text).len() as int, line).1
            ==> bytes_of(text)[p] != 10u8,
{
    let bytes = bytes_of(text);
    let n = bytes.len() as int;
    let starts = starts_upto(bytes, n);
    vstd::utf8::encode_utf8_valid_utf8(text);
    lemma_starts(bytes, n);
    lemma_starts_len(bytes, n);
    assert forall|line: int, p: int|
        #![trigger line_bounds(starts, n, line), bytes[p]]
        0 <= line < starts.len() && line_bounds(starts, n, line).0 <= p && p < line_bounds(starts, n, line).1
        implies bytes[p] != 10u8 by {
        if bytes[p] == 10u8 {
            lemma_starts_complete(bytes, n, p);
            let j = choose|j: int| 0 <= j < starts.len() && #[trigger] starts[j] == p + 1;
            if j <= line {
                if j < line {
                    assert(starts[j] < starts[line]);
                }
            } else if line + 1 < starts.len() {
                if j > line + 1 {
                    assert(starts[line + 1] < starts[j]);
                }
            }
        }
    }
}

/// The 0-based line of an offset is the number of line feeds before it
/// (the offset clamped to the text's end).
pub proof fn law_line_is_newlines_before(text: Seq<char>, offset: usize)
    requires
        bytes_of(text).len() <= usize::MAX,
    ensures
        spec_line_col(text, starts_upto(bytes_of(text), bytes_of(text).len() as int), offset).0
            == newlines_before(bytes_of(text), if offset <= bytes_of(text).len() { offset as int } else { bytes_of(text).len() as int }),
{
    let bytes = bytes_of(text);
    let n = bytes.len() as int;
    let o = if offset <= n { offset as int } else { n };
    vstd::utf8::encode_utf8_valid_utf8(text);
    lemma_starts(bytes, o);
    lemma_starts_len(bytes, o);
    lemma_starts_prefix(bytes, o, n);
    let pre = starts_upto(bytes, o);
    let all = starts_upto(bytes, n);
    assert forall|j: int| 0 <= j < pre.len() implies all[j] <= o by {
        assert(all[j] == pre[j]);
    }
    lemma_lines_upto_prefix(all, o, pre.len() as int, 0);
}

impl LineIndex {
    /// Whether this index lists the line starts of `text`.
    pub open spec fn indexes(&self, text: Seq<char>) -> bool {
        self.starts@ == starts_upto(bytes_of(text), bytes_of(text).len() as int)
    }

    /// Builds an index from `text`.
    pub fn new(text: &str) -> (ix: LineIndex)
        ensures
            ix.indexes(text@),
    {
        let bytes = text.as_bytes();
        let mut starts: Vec<usize> = Vec::new();
        starts.push(0);
        let mut i: usize = 0;
        while i < bytes.len()
            invariant
                bytes@ == text.spec_bytes(),
                i <= bytes@.len(),
                starts@ == starts_upto(bytes@, i as int),
            decreases bytes@.len() - i,
        {
            if bytes[i] == 10u8 {
                starts.push(i + 1);
            }
            i += 1;
        }
        LineIndex { starts }
    }

    /// Returns the 1-based line number and 1-based display column of
    /// `offset`.
    pub fn line_col(&self, text: &str, offset: usize) -> (r: (usize, usize))
        requires
            self.indexes(text@),
            on_boundary(text.spec_bytes(), if offset <= text.spec_bytes().len() { offset as int } else { text.spec_bytes().len() as int }),
            4 * text.spec_bytes().len() + 1 <= usize::MAX,
        ensures
            r.0 as int == spec_line_col(text@, self.starts@, offset).0 + 1,
            r.1 as int == spec_line_col(text@, self.starts@, offset).1,
            1 <= r.0 <= self.starts@.len(),
            self.starts@[r.0 - 1] <= (if offset <= text.spec_bytes().len() { offset as int } else { text.spec_bytes().len() as int }),
            r.0 < self.starts@.len() ==> self.starts@[r.0 as int] > (if offset <= text.spec_bytes().len() { offset as int } else { text.spec_bytes().len() as int }),
    {
        let ghost bytes = text.spec_bytes();
        let n = text.as_bytes().len();
        assert(bytes.len() == n);
        let off = if offset <= n { offset } else { n };
        proof {
            vstd::utf8::encode_utf8_valid_utf8(text@);
            lemma_starts(bytes, bytes.len() as int);
        }
        proof {
            lemma_lines_upto(self.starts@, off as int, 0);
        }
        let mut k: usize = 0;
        while k < self.starts.len() && self.starts[k] <= off
            invariant
                k <= self.starts@.len(),
                forall|j: int| 0 <= j < k ==> self.starts@[j] <= off,
                lines_upto(self.starts@, off as int, 0) == lines_upto(self.starts@, off as int, k as int),
            decreases self.starts@.len() - k,
        {
            k += 1;
        }
        let idx = if k >= 1 { k - 1 } else { 0 };
        let start = self.starts[idx];
        let s = Span::new(start, off);
        let t = s.text(text);
        proof {
            vstd::utf8::encode_utf8_decode_utf8(t@);
            vstd::utf8::encode_utf8_valid_utf8(t@);
            assert(t@.len() <= bytes.len()) by {
                lemma_chars_le_bytes(t@);
            }
        }
        let w = width_of(t);
        (idx + 1, w + 1)
    }

    /// Returns the 1-based line number of `offset` (clamped to the text's
    /// end).
    pub fn line_of(&self, text: &str, offset: usize) -> (r: usize)
        requires
            self.indexes(text@),
        ensures
            r as int == spec_line_col(text@, self.starts@, offset).0 + 1,
            1 <= r <= self.starts@.len(),
            self.starts@[r - 1] <= (if offset <= text.spec_bytes().len() { offset as int } else { text.spec_bytes().len() as int }),
            r < self.starts@.len() ==> self.starts@[r as int] > (if offset <= text.spec_bytes().len() { offset as int } else { text.spec_bytes().len() as int }),
    {
        let ghost bytes = text.spec_bytes();
        let n = text.as_bytes().len();
        let off = if offset <= n { offset } else { n };
        proof {
            vstd::utf8::encode_utf8_valid_utf8(text@);
            lemma_starts(bytes, bytes.len() as int);
            lemma_lines_upto(self.starts@, off as int, 0);
        }
        let mut k: usize = 0;
        while k < self.starts.len() && self.starts[k] <= off
            invariant
                k <= self.starts@.len(),
                forall|j: int| 0 <= j < k ==> self.starts@[j] <= off,
                lines_upto(self.starts@, off as int, 0) == lines_upto(self.starts@, off as int, k as int),
            decreases self.starts@.len() - k,
        {
            k += 1;
        }
        if k >= 1 { k } else { 1 }
    }

    /// Byte range `[start, end)` of the 0-based `line`, excluding the
    /// trailing newline.
    pub fn line_range(&self, text: &str, line: usize) -> (r: (usize, usize))
        requires
            self.indexes(text@),
            line < self.starts@.len(),
        ensures
            r.0 == self.starts@[line as int],
            r.1 == if line + 1 < self.starts@.len() { self.starts@[line + 1] - 1 } else { text.spec_bytes().len() as int },
    {
        let start = self.starts[line];
        let len = self.starts.len();
        let end = if line + 1 < len {
            let n = text.as_bytes().len();
            proof {
                vstd::utf8::encode_utf8_valid_utf8(text@);
                lemma_starts(text.spec_bytes(), text.spec_bytes().len() as int);
                assert(self.starts@[0] < self.starts@[line + 1]);
            }
            self.starts[line + 1] - 1
        } else {
            text.as_bytes().len()
        };
        (start, end)
    }
}

/// A text has at least as many bytes as characters.
pub proof fn lemma_chars_le_bytes(s: Seq<char>)
    ensures
        s.len() <= vstd::utf8::encode_utf8(s).len(),
    decreases s.len(),
{
    if s.len() > 0 {
        lemma_chars_le_bytes(s.drop_first());
        vstd::utf8::encode_utf8_first_scalar(s);
    }
}

/// A source file plus its [`LineIndex`], ready for diagnostic rendering.
#[derive(Debug)]
pub struct Source<'a> {
    /// Path shown in the location line.
    pub path: &'a str,
    /// The file's text.
    pub text: &'a str,
    /// Line starts of `text`.
    pub index: LineIndex,
}

impl<'a> Source<'a> {
    /// Builds a renderable source from a file path and its text.
    pub fn new(path: &'a str, text: &'a str) -> (s: Source<'a>)
        ensures
            s.path == path,
            s.text == text,
            s.index.indexes(text@),
    {
        Source { path, text, index: LineIndex::new(text) }
    }
}

/// Controls whether ANSI color codes are emitted.
#[derive(Debug, Clone, Copy)]
pub struct Color {
    /// Whether colors are emitted.
    pub enabled: bool,
}

/// `s` wrapped in the ANSI code `code` when colors are enabled.
pub open spec fn painted(enabled: bool, code: Seq<char>, s: Seq<char>) -> Seq<char> {
    if enabled {
        "\x1b["@ + code + "m"@ + s + "\x1b[0m"@
    } else {
        s
    }
}

impl Color {
    /// Wraps `s` in the ANSI code `code` when enabled.
    fn paint(self, code: &str, s: &str) -> (r: String)
        ensures
            r@ == painted(self.enabled, code@, s@),
    {
        if self.enabled {
            let mut r = String::from_str("\x1b[");
            r.append(code);
            r.append("m");
            r.append(s);
            r.append("\x1b[0m");
            r
        } else {
            String::from_str(s)
        }
    }

    /// Bold red `error` label.
    pub fn error(self, s: &str) -> (r: String)
        ensures
            r@ == painted(self.enabled, "1;31"@, s@),
    {
        self.paint("1;31", s)
    }

    /// Cyan code (`[rule]`).
    pub fn code(self, s: &str) -> (r: String)
        ensures
            r@ == painted(self.enabled, "36"@, s@),
    {
        self.paint("36", s)
    }

    /// Blue `-->` arrow.
    pub fn arrow(self, s: &str) -> (r: String)
        ensures
            r@ == painted(self.enabled, "34"@, s@),
    {
        self.paint("34", s)
    }

    /// Blue `note:` label.
    pub fn note(self, s: &str) -> (r: String)
        ensures
            r@ == painted(self.enabled, "34"@, s@),
    {
        self.paint("34", s)
    }

    /// Bold cyan line number.
    pub fn line_number(self, s: &str) -> (r: String)
        ensures
            r@ == painted(self.enabled, "1;36"@, s@),
    {
        self.paint("1;36", s)
    }

    /// Bold red caret.
    pub fn caret(self, s: &str) -> (r: String)
        ensures
            r@ == painted(self.enabled, "1;31"@, s@),
    {
        self.paint("1;31", s)
    }
}

/// `n` carets.
pub open spec fn carets(n: nat) -> Seq<char> {
    Seq::new(n, |i: int| '^')
}

/// The byte range of the 0-based `line`, without its line feed.
pub open spec fn line_bounds(starts: Seq<usize>, len: int, line: int) -> (int, int) {
    (starts[line] as int, if line + 1 < starts.len() { starts[line + 1] - 1 } else { len })
}

/// The header line: `error[code]: message` or `error: message`.
pub open spec fn spec_header(enabled: bool, code: Option<Seq<char>>, message: Seq<char>) -> Seq<char> {
    match code {
        Some(c) => painted(enabled, "1;31"@, "error"@) + "["@ + painted(enabled, "36"@, c) + "]: "@ + message,
        None => painted(enabled, "1;31"@, "error"@) + ": "@ + message,
    }
}

/// The location: `path:line:col`, and the enclosing function when known.
pub open spec fn spec_location(enabled: bool, path: Seq<char>, line: nat, column: nat, enclosing: Option<Seq<char>>) -> Seq<char> {
    let loc = path + ":"@ + decimal(line) + ":"@ + decimal(column);
    match enclosing {
        Some(n) => loc + " (in "@ + painted(enabled, "34"@, n) + ")"@,
        None => loc,
    }
}

/// The context line: the preceding line, when there is one and it is not
/// empty, behind the gutter.
pub open spec fn spec_prev(text: Seq<char>, starts: Seq<usize>, line: int, width: nat) -> Seq<char> {
    let bytes = bytes_of(text);
    if line > 1 {
        let (ps, pe) = line_bounds(starts, bytes.len() as int, line - 2);
        let pt = chars_in(bytes, ps, pe);
        if pt.len() > 0 { spaces(width) + " | "@ + expand_tabs(pt) + "\n"@ } else { Seq::empty() }
    } else {
        Seq::empty()
    }
}

/// The first position in `[a, b)` of `bytes` that is not a space or a tab,
/// or `b`.
pub open spec fn skip_blanks(bytes: Seq<u8>, a: int, b: int) -> int
    decreases b - a,
{
    if a < b && 0 <= a < bytes.len() && (bytes[a] == 32u8 || bytes[a] == 9u8) {
        skip_blanks(bytes, a + 1, b)
    } else {
        a
    }
}

/// The 1-based `line`, its number right-aligned to `width`, and the caret
/// line under it, marking `[from, to)` clipped to the line's end.
pub open spec fn spec_marked_line(enabled: bool, text: Seq<char>, starts: Seq<usize>, line: int, from: int, to: int, width: nat) -> Seq<char> {
    let bytes = bytes_of(text);
    let (ls, le) = line_bounds(starts, bytes.len() as int, line - 1);
    let end = if to <= le { to } else { le };
    let visual = display_width(chars_in(bytes, ls, from));
    let cw = display_width(chars_in(bytes, from, end));
    let caret_len = if cw >= 1 { cw } else { 1 };
    let num = decimal(line as nat);
    painted(enabled, "1;36"@, spaces((width - num.len()) as nat) + num) + " | "@ + expand_tabs(chars_in(bytes, ls, le)) + "\n"@
        + spaces(width) + " | "@ + spaces(visual) + painted(enabled, "1;31"@, carets(caret_len)) + "\n"@
}

/// The reported line with the carets under the span's part on it; when the
/// span's last byte lies on a later line `last`, that line too, marked from
/// its first non-blank character to the span's end; then the closing bar.
pub open spec fn spec_body(enabled: bool, text: Seq<char>, starts: Seq<usize>, line: int, last: int, span: Span, width: nat) -> Seq<char> {
    let bytes = bytes_of(text);
    let (ls2, le2) = line_bounds(starts, bytes.len() as int, last - 1);
    let end2 = if span.end <= le2 { span.end as int } else { le2 };
    spec_marked_line(enabled, text, starts, line, span.start as int, span.end as int, width)
        + (if last > line {
            spec_marked_line(enabled, text, starts, last, skip_blanks(bytes, ls2, end2), span.end as int, width)
        } else {
            Seq::empty()
        })
        + spaces(width) + " |"@ + "\n"@
}

/// The 1-based line that holds the last byte of `span` (that of its start
/// for an empty span).
pub open spec fn spec_last_line(text: Seq<char>, starts: Seq<usize>, span: Span) -> int {
    if span.end > span.start {
        spec_line_col(text, starts, (span.end - 1) as usize).0 + 1
    } else {
        spec_line_col(text, starts, span.start).0 + 1
    }
}

/// The note line, when there is a note.
pub open spec fn spec_note(enabled: bool, note: Option<Seq<char>>) -> Seq<char> {
    match note {
        Some(n) => painted(enabled, "34"@, "note:"@) + " "@ + n + "\n"@,
        None => Seq::empty(),
    }
}

/// The rendered diagnostic block; see [`render`].
pub open spec fn spec_render(
    enabled: bool,
    path: Seq<char>,
    text: Seq<char>,
    starts: Seq<usize>,
    code: Option<Seq<char>>,
    message: Seq<char>,
    span: Span,
    enclosing: Option<Seq<char>>,
    note: Option<Seq<char>>,
) -> Seq<char> {
    let (idx, column) = spec_line_col(text, starts, span.start);
    let line = idx + 1;
    let last = spec_last_line(text, starts, span);
    let width = decimal(last as nat).len();
    spec_header(enabled, code, message) + "\n"@ + spaces(width) + painted(enabled, "34"@, "-->"@) + " "@
        + spec_location(enabled, path, line as nat, column as nat, enclosing) + "\n"@ + spaces(width) + " |"@ + "\n"@
        + spec_prev(text, starts, line, width)
        + spec_body(enabled, text, starts, line, last, span, width)
        + spec_note(enabled, note)
}

/// Whether `span` can be rendered against `text`: its start lies in the
/// text on a character boundary, and its end does not precede the start
/// and lies on a character boundary unless past the text's end.
pub open spec fn renderable(text: Seq<char>, span: Span) -> bool {
    let bytes = bytes_of(text);
    &&& span.start <= span.end
    &&& span.start <= bytes.len()
    &&& on_boundary(bytes, span.start as int)
    &&& (span.end >= bytes.len() || on_boundary(bytes, span.end as int))
    &&& 4 * bytes.len() + 1 <= usize::MAX
}

/// Whether `span` can be rendered against `text`; see [`renderable`].
pub fn is_renderable(text: &str, span: Span) -> (b: bool)
    ensures
        b == renderable(text@, span),
{
    proof {
        vstd::utf8::encode_utf8_valid_utf8(text@);
        assert(text.spec_bytes() == bytes_of(text@));
    }
    let n = text.as_bytes().len();
    if !(span.start <= span.end && span.start <= n && n <= (usize::MAX - 1) / 4) {
        return false;
    }
    proof {
        lemma_on_boundary(text.spec_bytes(), span.start as int);
    }
    let a = text.is_char_boundary(span.start);
    assert(a == on_boundary(text.spec_bytes(), span.start as int));
    if span.end >= n {
        return a;
    }
    proof {
        lemma_on_boundary(text.spec_bytes(), span.end as int);
    }
    let b = text.is_char_boundary(span.end);
    assert(b == on_boundary(text.spec_bytes(), span.end as int));
    a && b
}

/// Appends the UTF-8 bytes of `s` to `w`.
pub fn push_bytes(w: &mut Vec<u8>, s: &str)
    ensures
        final(w)@ == old(w)@ + s.spec_bytes(),
{
    let b = s.as_bytes();
    let ghost start = w@;
    let mut i: usize = 0;
    while i < b.len()
        invariant
            b@ == s.spec_bytes(),
            i <= b@.len(),
            w@ == start + b@.subrange(0, i as int),
        decreases b@.len() - i,
    {
        w.push(b[i]);
        i += 1;
        assert(w@ =~= start + b@.subrange(0, i as int));
    }
    assert(b@.subrange(0, b@.len() as int) =~= b@);
}

/// Appends `n` carets to `out`.
fn push_carets(out: &mut String, n: usize)
    ensures
        final(out)@ == old(out)@ + carets(n as nat),
{
    let ghost start = out@;
    let mut i: usize = 0;
    while i < n
        invariant
            i <= n,
            out@ == start + carets(i as nat),
        decreases n - i,
    {
        proof {
            reveal_strlit("^");
        }
        out.append("^");
        i += 1;
        assert(start + carets(i as nat) =~= start + carets((i - 1) as nat) + seq!['^']);
    }
}

/// The text of `bytes[a..b]` as a string slice of `text`.
fn slice<'t>(text: &'t str, a: usize, b: usize) -> (t: &'t str)
    requires
        a <= b <= text.spec_bytes().len(),
        on_boundary(text.spec_bytes(), a as int),
        on_boundary(text.spec_bytes(), b as int),
    ensures
        t@ == chars_in(text.spec_bytes(), a as int, b as int),
        t.spec_bytes() == text.spec_bytes().subrange(a as int, b as int),
        t@.len() <= b - a,
{
    let t = Span::new(a, b).text(text);
    proof {
        vstd::utf8::encode_utf8_decode_utf8(t@);
        lemma_chars_le_bytes(t@);
    }
    t
}

/// Appends `s` to `out`.
fn push_str(out: &mut String, s: &str)
    ensures
        final(out)@ == old(out)@ + s@,
{
    out.append(s);
}

/// The header line; see [`spec_header`].
fn render_header(color: Color, code: Option<&str>, message: &str) -> (r: String)
    ensures
        r@ == spec_header(color.enabled, match code { Some(c) => Some(c@), None => None }, message@),
{
    let mut header = color.error("error");
    match code {
        Some(c) => {
            header.append("[");
            header.append(color.code(c).as_str());
            header.append("]: ");
        },
        None => {
            header.append(": ");
        },
    }
    header.append(message);
    header
}

/// The location; see [`spec_location`].
fn render_location(color: Color, path: &str, line: u64, column: u64, enclosing: Option<&str>) -> (r: String)
    ensures
        r@ == spec_location(color.enabled, path@, line as nat, column as nat, match enclosing { Some(n) => Some(n@), None => None }),
{
    let mut loc = String::from_str(path);
    loc.append(":");
    push_decimal(&mut loc, line);
    loc.append(":");
    push_decimal(&mut loc, column);
    if let Some(name) = enclosing {
        loc.append(" (in ");
        loc.append(color.note(name).as_str());
        loc.append(")");
    }
    loc
}

/// The context line; see [`spec_prev`].
fn render_prev(source: &Source<'_>, line: usize, width: usize) -> (r: String)
    requires
        source.index.indexes(source.text@),
        1 <= line <= source.index.starts@.len(),
    ensures
        r@ == spec_prev(source.text@, source.index.starts@, line as int, width as nat),
{
    let text = source.text;
    let n = text.as_bytes().len();
    assert(text.spec_bytes().len() == n);
    proof {
        vstd::utf8::encode_utf8_valid_utf8(text@);
        lemma_starts(text.spec_bytes(), text.spec_bytes().len() as int);
    }
    let mut r = String::new();
    if line > 1 {
        let (ps, pe) = source.index.line_range(text, line - 2);
        let prev = slice(text, ps, pe);
        if prev.unicode_len() > 0 {
            push_spaces(&mut r, width);
            r.append(" | ");
            push_expanded(&mut r, prev);
            r.append("\n");
        }
    }
    r
}

/// The position after the spaces and tabs that start `[a, b)`; see
/// [`skip_blanks`].
fn skip_blanks_at(text: &str, a: usize, b: usize) -> (k: usize)
    requires
        a <= b <= text.spec_bytes().len(),
        on_boundary(text.spec_bytes(), a as int),
    ensures
        k as int == skip_blanks(text.spec_bytes(), a as int, b as int),
        a <= k <= b,
        on_boundary(text.spec_bytes(), k as int),
{
    let bytes = text.as_bytes();
    let ghost bs = text.spec_bytes();
    proof {
        vstd::utf8::encode_utf8_valid_utf8(text@);
    }
    let mut k = a;
    while k < b && (bytes[k] == 32u8 || bytes[k] == 9u8)
        invariant
            bytes@ == bs,
            vstd::utf8::valid_utf8(bs),
            a <= k <= b <= bs.len(),
            on_boundary(bs, k as int),
            skip_blanks(bs, a as int, b as int) == skip_blanks(bs, k as int, b as int),
        decreases b - k,
    {
        proof {
            lemma_on_boundary(bs, k as int);
            lemma_boundary_after_ascii(bs, k as int);
            lemma_on_boundary(bs, k + 1);
        }
        k += 1;
    }
    k
}

/// One source line and its caret line; see [`spec_marked_line`].
fn render_marked_line(color: Color, source: &Source<'_>, line: usize, from: usize, to: usize, width: usize) -> (r: String)
    requires
        source.index.indexes(source.text@),
        4 * source.text.spec_bytes().len() + 1 <= usize::MAX,
        1 <= line <= source.index.starts@.len(),
        source.index.starts@[line - 1] <= from <= to,
        from <= line_bounds(source.index.starts@, source.text.spec_bytes().len() as int, line - 1).1,
        on_boundary(source.text.spec_bytes(), from as int),
        to <= line_bounds(source.index.starts@, source.text.spec_bytes().len() as int, line - 1).1
            ==> on_boundary(source.text.spec_bytes(), to as int),
        decimal(line as nat).len() <= width,
    ensures
        r@ == spec_marked_line(color.enabled, source.text@, source.index.starts@, line as int, from as int, to as int, width as nat),
{
    let text = source.text;
    proof {
        vstd::utf8::encode_utf8_valid_utf8(text@);
        lemma_starts(text.spec_bytes(), text.spec_bytes().len() as int);
        assert(text.spec_bytes() == bytes_of(text@));
    }
    let num = crate::text::decimal_string(line as u64);
    let (ls, le) = source.index.line_range(text, line - 1);
    let mut padded = String::new();
    push_spaces(&mut padded, width - num.as_str().unicode_len());
    padded.append(num.as_str());
    let mut body = color.line_number(padded.as_str());
    body.append(" | ");
    push_expanded(&mut body, slice(text, ls, le));
    body.append("\n");
    let end = if to <= le { to } else { le };
    let visual = width_of(slice(text, ls, from));
    let cw = width_of(slice(text, from, end));
    let caret_len = if cw >= 1 { cw } else { 1 };
    push_spaces(&mut body, width);
    body.append(" | ");
    push_spaces(&mut body, visual);
    let mut caret = String::new();
    push_carets(&mut caret, caret_len);
    body.append(color.caret(caret.as_str()).as_str());
    body.append("\n");
    body
}

/// The reported lines and their carets; see [`spec_body`].
fn render_body(color: Color, source: &Source<'_>, line: usize, last: usize, span: Span, width: usize) -> (r: String)
    requires
        source.index.indexes(source.text@),
        renderable(source.text@, span),
        1 <= line <= last <= source.index.starts@.len(),
        source.index.starts@[line - 1] <= span.start,
        line < source.index.starts@.len() ==> source.index.starts@[line as int] > span.start,
        last > line ==> source.index.starts@[last - 1] < span.end,
        last < source.index.starts@.len() ==> source.index.starts@[last as int] >= span.end,
        decimal(last as nat).len() <= width,
    ensures
        r@ == spec_body(color.enabled, source.text@, source.index.starts@, line as int, last as int, span, width as nat),
{
    let text = source.text;
    let ghost bytes = text.spec_bytes();
    proof {
        vstd::utf8::encode_utf8_valid_utf8(text@);
        lemma_starts(bytes, bytes.len() as int);
        assert(bytes == bytes_of(text@));
        crate::text::lemma_decimal_len_mono(line as nat, last as nat);
    }
    let mut body = render_marked_line(color, source, line, span.start, span.end, width);
    if last > line {
        let (ls2, le2) = source.index.line_range(text, last - 1);
        let end2 = if span.end <= le2 { span.end } else { le2 };
        let k = skip_blanks_at(text, ls2, end2);
        let second = render_marked_line(color, source, last, k, span.end, width);
        body.append(second.as_str());
    }
    push_spaces(&mut body, width);
    body.append(" |");
    body.append("\n");
    body
}

/// The note line; see [`spec_note`].
fn render_note(color: Color, note: Option<&str>) -> (r: String)
    ensures
        r@ == spec_note(color.enabled, match note { Some(n) => Some(n@), None => None }),
{
    let mut tail = String::new();
    if let Some(n) = note {
        tail.append(color.note("note:").as_str());
        tail.append(" ");
        tail.append(n);
        tail.append("\n");
    }
    tail
}

/// Renders one rustc-style diagnostic block:
///
/// ```text
/// error[code]: message
///   --> path:line:col (in foo/2)
///    |
///    | previous line, shown as context when it exists
/// 10 |     element(1, T)
///    |     ^^^^^^^^^^^^
///    |
/// note: a follow-up line when provided
/// ```
///
/// The caret spans `span` within the first line it touches. When the span
/// crosses lines, the line holding its last byte is shown too, with a caret
/// from that line's first non-blank character to the span's end, and line
/// numbers are right-aligned to the wider of the two. When the
/// reported line is not the first line, the immediately preceding line is
/// shown without a line number as context (an empty preceding line is
/// omitted). `enclosing`, when present, is the enclosing function name
/// appended to the location. Tabs are expanded to four columns in the
/// source and caret lines so the caret stays aligned.
pub fn render(
    w: &mut Vec<u8>,
    color: Color,
    source: &Source<'_>,
    code: Option<&str>,
    message: &str,
    span: Span,
    enclosing: Option<&str>,
    note: Option<&str>,
)
    requires
        source.index.indexes(source.text@),
        renderable(source.text@, span),
    ensures
        final(w)@ == old(w)@ + bytes_of(spec_render(
            color.enabled,
            source.path@,
            source.text@,
            source.index.starts@,
            match code { Some(c) => Some(c@), None => None },
            message@,
            span,
            match enclosing { Some(n) => Some(n@), None => None },
            match note { Some(n) => Some(n@), None => None },
        )),
{
    let text = source.text;
    proof {
        vstd::utf8::encode_utf8_valid_utf8(text@);
        lemma_starts(text.spec_bytes(), text.spec_bytes().len() as int);
    }
    let (line, column) = source.index.line_col(text, span.start);
    let last = if span.end > span.start { source.index.line_of(text, span.end - 1) } else { line };
    let num = crate::text::decimal_string(last as u64);
    let width = num.as_str().unicode_len();
    let mut out = render_header(color, code, message);
    push_str(&mut out, "\n");
    push_spaces(&mut out, width);
    let arrow = color.arrow("-->");
    push_str(&mut out, arrow.as_str());
    push_str(&mut out, " ");
    let loc = render_location(color, source.path, line as u64, column as u64, enclosing);
    push_str(&mut out, loc.as_str());
    push_str(&mut out, "\n");
    push_spaces(&mut out, width);
    push_str(&mut out, " |");
    push_str(&mut out, "\n");
    let prev = render_prev(source, line, width);
    push_str(&mut out, prev.as_str());
    let body = render_body(color, source, line, last, span, width);
    push_str(&mut out, body.as_str());
    let tail = render_note(color, note);
    push_str(&mut out, tail.as_str());
    push_bytes(w, out.as_str());
}

} // verus!
