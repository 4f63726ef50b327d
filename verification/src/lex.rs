//! Plain-value model of Erlang tokens, and the scanner that produces them.
use crate::span::{on_boundary, Span};
use erl_tokenize::TokenValue as V;
use vstd::prelude::*;
use vstd::string::StringSliceAdditionalSpecFns;

verus! {

/// The decoded value of a token, for the classes whose value the linter reads.
#[derive(Debug, Clone)]
pub enum TokValue {
    /// Atom name, quotes and escapes resolved.
    Atom(String),
    /// Integer value, `None` when it does not fit in 64 bits.
    Integer(Option<u64>),
    /// String contents, escapes resolved.
    Str(String),
    /// A variable; its name is its spelling.
    Var,
    /// Any other class.
    Other,
}

/// One scanned token.
#[derive(Debug, Clone)]
pub struct Tok {
    /// Whether the token takes part in the grammar (it is neither a comment
    /// nor whitespace).
    pub lexical: bool,
    /// Spelling, as written in the scanned text. A keyword or a symbol is
    /// told apart by its spelling alone.
    pub text: String,
    /// Decoded value.
    pub value: TokValue,
    /// Inclusive start byte offset in the scanned text.
    pub start: usize,
    /// Exclusive end byte offset in the scanned text.
    pub end: usize,
}

impl Tok {
    /// The byte range of the token in the text it was scanned from.
    pub open spec fn span(self) -> Span {
        Span { start: self.start, end: self.end }
    }
}

/// A lexical error: where it was found and what it says.
#[derive(Debug, Clone)]
pub struct LexError {
    /// Byte offset of the error in the scanned text.
    pub offset: usize,
    /// Human-readable description.
    pub message: String,
}

/// What `erl_tokenize::scan_tokens` yields for a text, every token converted
/// to a [`Tok`].
pub uninterp spec fn erl_scan(text: Seq<char>) -> Result<Seq<Tok>, LexError>;

/// Whether `toks` tile the UTF-8 bytes `bytes`: the first token starts at 0,
/// each starts where the previous one ends, the last ends at the end of the
/// bytes, and every offset is a character boundary.
pub open spec fn tiles(toks: Seq<Tok>, bytes: Seq<u8>) -> bool {
    &&& forall|i: int| 0 <= i < toks.len() ==> (#[trigger] toks[i]).start <= toks[i].end
    &&& forall|i: int| 0 <= i < toks.len() ==> (#[trigger] toks[i]).span().fits(bytes)
    &&& forall|i: int| 0 <= i < toks.len() - 1 ==> (#[trigger] toks[i]).end == toks[i + 1].start
    &&& toks.len() == 0 ==> bytes.len() == 0
    &&& toks.len() > 0 ==> toks[0].start == 0 && toks.last().end == bytes.len()
}

/// Whether `toks` tile `text`; see [`tiles`].
pub fn check_tiles(toks: &Vec<Tok>, text: &str) -> (b: bool)
    ensures
        b == tiles(toks@, text.spec_bytes()),
{
    let n = toks.len();
    if n == 0 {
        return text.as_bytes().len() == 0;
    }
    if toks[0].start != 0 || toks[n - 1].end != text.as_bytes().len() {
        return false;
    }
    let mut i: usize = 0;
    while i < n
        invariant
            n == toks@.len(),
            n > 0,
            toks@[0].start == 0 && toks@.last().end == text.spec_bytes().len(),
            i <= n,
            forall|a: int| 0 <= a < i ==> (#[trigger] toks@[a]).start <= toks@[a].end,
            forall|a: int| 0 <= a < i ==> (#[trigger] toks@[a]).span().fits(text.spec_bytes()),
            forall|a: int| 0 <= a < i && a < n - 1 ==> (#[trigger] toks@[a]).end == toks@[a + 1].start,
        decreases n - i,
    {
        let t = &toks[i];
        let sp = Span::new(t.start, t.end);
        if !sp.fits_in(text) {
            return false;
        }
        if i + 1 < n && t.end != toks[i + 1].start {
            return false;
        }
        i += 1;
    }
    true
}

/// Calls `erl_tokenize::scan_tokens` on `text` and converts every token.
///
/// Trusted: the result is `erl_scan(text@)`, a function of the text alone.
/// The crate's loop starts at offset 0 and scans each token from where the
/// previous one ended until the end of the text, at character boundaries,
/// so on success the tokens tile the text.
#[verifier::external_body]
pub(crate) fn scan_tokens(text: &str) -> (res: Result<Vec<Tok>, LexError>)
    ensures
        res is Ok <==> erl_scan(text@) is Ok,
        res matches Ok(v) ==> erl_scan(text@)->Ok_0 == v@,
        res matches Err(e) ==> erl_scan(text@)->Err_0 == e,
        res matches Ok(v) ==> tiles(v@, text.spec_bytes()),
{
    let mut out = Vec::new();
    for t in erl_tokenize::scan_tokens(text).map_err(|e| LexError { offset: e.position.offset(), message: e.to_string() })? {
        let value = match t.value(text) {
            V::Atom(a) => TokValue::Atom(a.into_owned()), V::Integer(n) => TokValue::Integer(n),
            V::String(s) => TokValue::Str(s.into_owned()), V::Variable(_) => TokValue::Var, _ => TokValue::Other,
        };
        out.push(Tok { lexical: t.kind().is_lexical(), text: t.text(text).into(), value, start: t.start().offset(), end: t.end().offset() });
    }
    Ok(out)
}

/// The lexical tokens of `toks`, in order.
pub open spec fn lexicals(toks: Seq<Tok>) -> Seq<Tok>
    decreases toks.len(),
{
    if toks.len() == 0 {
        Seq::empty()
    } else if toks.last().lexical {
        lexicals(toks.drop_last()).push(toks.last())
    } else {
        lexicals(toks.drop_last())
    }
}

/// The lexical tokens of `toks` as the sequence `idx` of their indices.
pub open spec fn lex_view(toks: Seq<Tok>, idx: Seq<usize>) -> Seq<Tok> {
    idx.map_values(|k: usize| toks[k as int])
}

/// The indices of the lexical tokens of `toks`; see [`lexicals`].
pub fn lexical_indices(toks: &Vec<Tok>) -> (idx: Vec<usize>)
    ensures
        lex_view(toks@, idx@) == lexicals(toks@),
        forall|m: int| 0 <= m < idx@.len() ==> #[trigger] idx@[m] < toks@.len(),
{
    let mut idx: Vec<usize> = Vec::new();
    let mut i: usize = 0;
    while i < toks.len()
        invariant
            i <= toks@.len(),
            lex_view(toks@, idx@) == lexicals(toks@.subrange(0, i as int)),
            forall|m: int| 0 <= m < idx@.len() ==> #[trigger] idx@[m] < i,
        decreases toks@.len() - i,
    {
        assert(toks@.subrange(0, i + 1).drop_last() =~= toks@.subrange(0, i as int));
        assert(toks@.subrange(0, i + 1).last() == toks@[i as int]);
        if toks[i].lexical {
            idx.push(i);
            assert(lex_view(toks@, idx@) =~= lex_view(toks@, idx@.drop_last()).push(toks@[i as int]));
        }
        i += 1;
        assert(lex_view(toks@, idx@) =~= lexicals(toks@.subrange(0, i as int)));
    }
    assert(toks@.subrange(0, toks@.len() as int) =~= toks@);
    idx
}

} // verus!
