//! Grammar tokens of the item parser: scanned tokens without whitespace,
//! classified for the parser.
use crate::item::Span;
use crate::lex::{scan_tokens, tiles, LexError, Tok, TokValue};
use crate::text::str_eq;
use vstd::prelude::*;
use vstd::string::StringSliceAdditionalSpecFns;

verus! {

/// One grammar token: its class and byte range.
#[derive(Debug, Clone, Copy, PartialEq, Eq, Structural)]
pub struct Token {
    pub kind: TokenKind,
    pub span: Span,
}

/// Token classes.
#[derive(Debug, Clone, Copy, PartialEq, Eq, Structural)]
pub enum TokenKind {
    Atom,
    Variable,
    Integer,
    Float,
    Char,
    String,
    SigilString,
    Keyword,
    Symbol,
    Comment,
}

/// The class of a non-whitespace scanned token: from its value, and for
/// the other tokens from the first character of its spelling (`%` starts a
/// comment, `$` a character, `~` a sigil string, a digit a float, a letter
/// a keyword; anything else is a symbol).
pub open spec fn spec_class(t: Tok) -> TokenKind {
    match t.value {
        TokValue::Atom(_) => TokenKind::Atom,
        TokValue::Integer(_) => TokenKind::Integer,
        TokValue::Str(_) => TokenKind::String,
        TokValue::Var => TokenKind::Variable,
        TokValue::Other => {
            let s = t.text@;
            if s.len() == 0 {
                TokenKind::Symbol
            } else if !t.lexical || s[0] == '%' {
                TokenKind::Comment
            } else if s[0] == '$' {
                TokenKind::Char
            } else if s[0] == '~' {
                TokenKind::SigilString
            } else if '0' <= s[0] && s[0] <= '9' {
                TokenKind::Float
            } else if ('a' <= s[0] && s[0] <= 'z') || ('A' <= s[0] && s[0] <= 'Z') {
                TokenKind::Keyword
            } else {
                TokenKind::Symbol
            }
        },
    }
}

/// Whether a scanned token is whitespace (not lexical and not a comment).
pub open spec fn is_space(t: Tok) -> bool {
    !t.lexical && !(t.text@.len() > 0 && t.text@[0] == '%')
}

/// The grammar tokens of `toks`: every token but whitespace, classified.
pub open spec fn grammar_tokens(toks: Seq<Tok>) -> Seq<Token>
    decreases toks.len(),
{
    if toks.len() == 0 {
        Seq::empty()
    } else {
        let rest = grammar_tokens(toks.drop_last());
        let t = toks.last();
        if is_space(t) {
            rest
        } else {
            rest.push(Token { kind: spec_class(t), span: Span { start: t.start, end: t.end } })
        }
    }
}

/// The class of one scanned token; see [`spec_class`].
fn class_of(t: &Tok) -> (k: TokenKind)
    ensures
        k == spec_class(*t),
{
    match &t.value {
        TokValue::Atom(_) => TokenKind::Atom,
        TokValue::Integer(_) => TokenKind::Integer,
        TokValue::Str(_) => TokenKind::String,
        TokValue::Var => TokenKind::Variable,
        TokValue::Other => {
            let v = crate::text::chars_of(t.text.as_str());
            if v.len() == 0 {
                TokenKind::Symbol
            } else if !t.lexical || v[0] == '%' {
                TokenKind::Comment
            } else if v[0] == '$' {
                TokenKind::Char
            } else if v[0] == '~' {
                TokenKind::SigilString
            } else if '0' <= v[0] && v[0] <= '9' {
                TokenKind::Float
            } else if ('a' <= v[0] && v[0] <= 'z') || ('A' <= v[0] && v[0] <= 'Z') {
                TokenKind::Keyword
            } else {
                TokenKind::Symbol
            }
        },
    }
}

/// Whether the grammar tokens lie in text of `len` bytes in order.
pub open spec fn ordered(tokens: Seq<Token>, bytes: Seq<u8>) -> bool {
    &&& forall|k: int| 0 <= k < tokens.len() ==> crate::span::Span { start: (#[trigger] tokens[k]).span.start, end: tokens[k].span.end }.fits(bytes)
    &&& forall|j: int, k: int| 0 <= j < k < tokens.len() ==> (#[trigger] tokens[j]).span.end <= (#[trigger] tokens[k]).span.start
}

/// What tokenizing `text` gives, the scanner's output taken as it comes.
pub open spec fn spec_tokenize(text: Seq<char>) -> Result<Seq<Token>, LexError> {
    match crate::lex::erl_scan(text) {
        Ok(toks) => Ok(grammar_tokens(toks)),
        Err(e) => Err(e),
    }
}

/// The grammar tokens of scanned tokens; see [`grammar_tokens`].
pub fn classify_tokens(toks: &Vec<Tok>) -> (r: Vec<Token>)
    ensures
        r@ == grammar_tokens(toks@),
{
    let mut out: Vec<Token> = Vec::new();
    let mut i: usize = 0;
    while i < toks.len()
        invariant
            i <= toks@.len(),
            out@ == grammar_tokens(toks@.subrange(0, i as int)),
        decreases toks@.len() - i,
    {
        let t = &toks[i];
        assert(toks@.subrange(0, i + 1).drop_last() =~= toks@.subrange(0, i as int));
        let space = !t.lexical && !(t.text.as_str().unicode_len() > 0 && crate::text::chars_of(t.text.as_str())[0] == '%');
        if !space {
            out.push(Token { kind: class_of(t), span: Span { start: t.start, end: t.end } });
        }
        i += 1;
        assert(out@ =~= grammar_tokens(toks@.subrange(0, i as int)));
    }
    assert(toks@.subrange(0, toks@.len() as int) =~= toks@);
    out
}

/// Tiled tokens give ordered grammar tokens.
pub proof fn lemma_grammar_ordered(toks: Seq<Tok>, bytes: Seq<u8>, n: int)
    requires
        tiles(toks, bytes),
        0 <= n <= toks.len(),
    ensures
        ordered(grammar_tokens(toks.subrange(0, n)), bytes),
        forall|k: int| 0 <= k < grammar_tokens(toks.subrange(0, n)).len() ==> (#[trigger] grammar_tokens(toks.subrange(0, n))[k]).span.end <= (if n == 0 { 0 } else { toks[n - 1].end as int }),
    decreases n,
{
    if n > 0 {
        lemma_grammar_ordered(toks, bytes, n - 1);
        assert(toks.subrange(0, n).drop_last() =~= toks.subrange(0, n - 1));
        if n >= 2 {
            assert(toks[n - 2].end == toks[n - 1].start);
        }
        assert(toks[n - 1].span().fits(bytes));
    }
}

/// Scans `text` and keeps its grammar tokens.
pub fn tokenize(text: &str) -> (r: Result<Vec<Token>, LexError>)
    ensures
        r is Ok <==> spec_tokenize(text@) is Ok,
        r matches Ok(v) ==> v@ == spec_tokenize(text@)->Ok_0 && ordered(v@, text.spec_bytes()),
        r matches Err(e) ==> e == spec_tokenize(text@)->Err_0,
{
    match scan_tokens(text) {
        Ok(toks) => {
            proof {
                lemma_grammar_ordered(toks@, text.spec_bytes(), toks@.len() as int);
                assert(toks@.subrange(0, toks@.len() as int) =~= toks@);
            }
            Ok(classify_tokens(&toks))
        },
        Err(e) => Err(e),
    }
}

impl Token {
    /// The token's spelling.
    pub fn text(self, full_text: &str) -> (t: &str)
        requires
            self.span.fits(full_text),
        ensures
            t@ == self.span.spec_text(full_text),
    {
        self.span.text(full_text)
    }

    /// Whether the token is a binary operator.
    pub fn is_binary_op(self, full_text: &str) -> (b: bool)
        requires
            self.span.fits(full_text),
        ensures
            b == ((self.kind == TokenKind::Symbol || self.kind == TokenKind::Keyword) && is_binary_op_text(self.span.spec_text(full_text))),
    {
        if self.kind != TokenKind::Symbol && self.kind != TokenKind::Keyword {
            return false;
        }
        let t = self.text(full_text);
        str_eq(t, "+") || str_eq(t, "-") || str_eq(t, "*") || str_eq(t, "/") || str_eq(t, "div") || str_eq(t, "rem")
            || str_eq(t, "band") || str_eq(t, "bor") || str_eq(t, "bxor") || str_eq(t, "bsl") || str_eq(t, "bsr")
            || str_eq(t, "and") || str_eq(t, "or") || str_eq(t, "xor") || str_eq(t, "andalso") || str_eq(t, "orelse")
            || str_eq(t, "==") || str_eq(t, "/=") || str_eq(t, "=<") || str_eq(t, "<") || str_eq(t, ">=") || str_eq(t, ">")
            || str_eq(t, "=:=") || str_eq(t, "=/=") || str_eq(t, "++") || str_eq(t, "--") || str_eq(t, "!")
    }
}

/// The binary operators of Erlang expressions.
pub open spec fn is_binary_op_text(t: Seq<char>) -> bool {
    ||| t == "+"@ || t == "-"@ || t == "*"@ || t == "/"@ || t == "div"@ || t == "rem"@
    ||| t == "band"@ || t == "bor"@ || t == "bxor"@ || t == "bsl"@ || t == "bsr"@
    ||| t == "and"@ || t == "or"@ || t == "xor"@ || t == "andalso"@ || t == "orelse"@
    ||| t == "=="@ || t == "/="@ || t == "=<"@ || t == "<"@ || t == ">="@ || t == ">"@
    ||| t == "=:="@ || t == "=/="@ || t == "++"@ || t == "--"@ || t == "!"@
}

} // verus!
