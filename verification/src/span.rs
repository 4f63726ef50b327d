//! Byte range in the original source file.
use vstd::prelude::*;
use vstd::string::StringSliceAdditionalSpecFns;
use vstd::utf8::{is_char_boundary, is_continuation_byte, valid_utf8};

verus! {

/// Whether `index` is a character boundary of the UTF-8 bytes `bytes`: the
/// end of the sequence, or a position whose byte does not continue a
/// multi-byte character.
pub open spec fn on_boundary(bytes: Seq<u8>, index: int) -> bool {
    index == bytes.len() || (0 <= index < bytes.len() && !is_continuation_byte(bytes[index]))
}

/// For valid UTF-8, [`on_boundary`] agrees with vstd's character boundaries.
pub proof fn lemma_on_boundary(bytes: Seq<u8>, index: int)
    requires
        valid_utf8(bytes),
        0 <= index <= bytes.len(),
    ensures
        on_boundary(bytes, index) <==> is_char_boundary(bytes, index),
{
    if index == bytes.len() {
        vstd::utf8::is_char_boundary_start_end_of_seq(bytes);
    } else {
        vstd::utf8::is_char_boundary_iff_not_is_continuation_byte(bytes, index);
    }
}

/// Half-open byte range `[start, end)` in the original source text.
#[derive(Debug, Clone, Copy, PartialEq, Eq, Structural)]
pub struct Span {
    /// Inclusive start byte offset.
    pub start: usize,
    /// Exclusive end byte offset.
    pub end: usize,
}

impl Span {
    /// A range that does not point at any source location.
    pub fn zero() -> (s: Span)
        ensures
            s.start == 0 && s.end == 0,
    {
        Span { start: 0, end: 0 }
    }

    /// Creates a half-open range.
    pub fn new(start: usize, end: usize) -> (s: Span)
        ensures
            s.start == start && s.end == end,
    {
        Span { start, end }
    }

    /// Whether this range lies inside `bytes` and starts and ends on
    /// character boundaries, so that [`Span::text`] can slice it.
    pub open spec fn fits(self, bytes: Seq<u8>) -> bool {
        &&& self.start <= self.end <= bytes.len()
        &&& on_boundary(bytes, self.start as int)
        &&& on_boundary(bytes, self.end as int)
    }

    /// Whether this range lies inside `text` on character boundaries.
    pub fn fits_in(&self, text: &str) -> (b: bool)
        ensures
            b == self.fits(text.spec_bytes()),
    {
        proof {
            vstd::utf8::encode_utf8_valid_utf8(text@);
        }
        let n = text.as_bytes().len();
        if self.start <= self.end && self.end <= n {
            proof {
                lemma_on_boundary(text.spec_bytes(), self.start as int);
                lemma_on_boundary(text.spec_bytes(), self.end as int);
            }
            let a = text.is_char_boundary(self.start);
            let b = text.is_char_boundary(self.end);
            assert(a == on_boundary(text.spec_bytes(), self.start as int));
            assert(b == on_boundary(text.spec_bytes(), self.end as int));
            a && b
        } else {
            false
        }
    }

    /// Returns the slice of `full_text` covered by this range.
    pub fn text(self, full_text: &str) -> (t: &str)
        requires
            self.fits(full_text.spec_bytes()),
        ensures
            t.spec_bytes() == full_text.spec_bytes().subrange(self.start as int, self.end as int),
    {
        let ghost bytes = full_text.spec_bytes();
        proof {
            vstd::utf8::encode_utf8_valid_utf8(full_text@);
            lemma_on_boundary(bytes, self.end as int);
            lemma_slice_boundary(bytes, self.start as int, self.end as int);
        }
        let (head, _) = full_text.split_at(self.end);
        proof {
            vstd::utf8::encode_utf8_valid_utf8(head@);
            lemma_on_boundary(head.spec_bytes(), self.start as int);
        }
        let (_, t) = head.split_at(self.start);
        assert(t.spec_bytes() =~= bytes.subrange(self.start as int, self.end as int));
        t
    }

    /// Returns whether `other` lies entirely inside this range.
    pub fn contains(self, other: Span) -> (b: bool)
        ensures
            b == (self.start <= other.start && other.end <= self.end),
    {
        self.start <= other.start && other.end <= self.end
    }
}

/// A boundary of `bytes` below `end` stays a boundary of the prefix `bytes[..end]`.
pub proof fn lemma_slice_boundary(bytes: Seq<u8>, i: int, end: int)
    requires
        0 <= i <= end <= bytes.len(),
        on_boundary(bytes, i),
    ensures
        on_boundary(bytes.subrange(0, end), i),
{
}

/// A lint finding: a byte range plus the syntax node it originates from,
/// by its preorder index in the branch's parse forest.
#[derive(Debug, Clone, Copy, PartialEq, Eq, Structural)]
pub struct Finding {
    /// Byte range in the original source file.
    pub span: Span,
    /// The syntax node the finding originates from.
    pub node: usize,
}

/// The findings an optional finding contributes: none or one.
pub open spec fn opt_seq(o: Option<Finding>) -> Seq<Finding> {
    match o {
        Some(f) => seq![f],
        None => Seq::empty(),
    }
}

} // verus!
