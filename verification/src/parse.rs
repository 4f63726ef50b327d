//! Recursive-descent parser producing preorder item lists.
//!
//! Each `parse_*` step reads tokens from `token_i` on and appends the items
//! it builds; the item of a node is inserted in front of the items of its
//! parts, so that the list is in preorder.
use crate::grammar::{
    hull, leaf_kind, node, p_arg_list, p_args, p_base, p_body, p_case, p_clause, p_clauses, p_elem_tail, p_elems, p_expr,
    p_forms, p_fun_clause, p_fun_clauses_rest, p_fun_decl, p_guard, p_item, p_maybe, p_more_body, p_more_clauses,
    p_ops, p_tuple, after, binop_at, lemma_insert_node1, lemma_insert_node2, lemma_insert_node3, lemma_insert_node4, lemma_insert_then, g_args, g_arg_list, g_attr, g_attr_rest, g_base, g_binary, g_binary_rest, g_body, g_case, g_clause, g_clauses,
    g_elems, g_expr, g_forms, g_fun_clause, g_fun_clauses_rest, g_fun_decl, g_guard, g_item, g_maybe, g_more_body,
    g_more_clauses, g_ops, g_remote, g_tuple, sym,
};
use crate::item::{Item, ItemKind, Span};
use crate::text::str_eq;
use crate::token::{Token, TokenKind};
use vstd::prelude::*;
use vstd::string::{StringExecFns, StringSliceAdditionalSpecFns};

verus! {

/// A parse error: where, and why.
#[derive(Debug)]
pub struct ParseError {
    pub span: Span,
    pub reason: String,
}

impl ParseError {
    /// Builds an error.
    pub fn new(span: Span, reason: String) -> (e: ParseError)
        ensures
            e.span == span && e.reason@ == reason@,
    {
        ParseError { span, reason }
    }
}

/// Whether every token lies inside `text` on character boundaries.
pub open spec fn tokens_fit(tokens: Seq<Token>, text: &str) -> bool {
    forall|k: int| 0 <= k < tokens.len() ==> (#[trigger] tokens[k]).span.fits(text)
}

/// The tokens of `ts` that are not comments, in order.
pub open spec fn non_comments(ts: Seq<Token>) -> Seq<Token>
    decreases ts.len(),
{
    if ts.len() == 0 {
        Seq::empty()
    } else if ts.last().kind == TokenKind::Comment {
        non_comments(ts.drop_last())
    } else {
        non_comments(ts.drop_last()).push(ts.last())
    }
}

/// A comment item for each comment token of `ts`, in order.
pub open spec fn comment_items(ts: Seq<Token>) -> Seq<Item>
    decreases ts.len(),
{
    if ts.len() == 0 {
        Seq::empty()
    } else if ts.last().kind == TokenKind::Comment {
        comment_items(ts.drop_last()).push(Item { kind: ItemKind::Comment, span: ts.last().span })
    } else {
        comment_items(ts.drop_last())
    }
}

/// What [`non_comments`] keeps fits wherever the tokens fit, and holds no
/// comment.
pub proof fn lemma_non_comments(ts: Seq<Token>, text: &str)
    ensures
        tokens_fit(ts, text) ==> tokens_fit(non_comments(ts), text),
        forall|k: int| 0 <= k < non_comments(ts).len() ==> (#[trigger] non_comments(ts)[k]).kind != TokenKind::Comment,
    decreases ts.len(),
{
    if ts.len() > 0 {
        lemma_non_comments(ts.drop_last(), text);
        if tokens_fit(ts, text) {
            assert(ts.last() == ts[ts.len() - 1]);
            assert forall|k: int| 0 <= k < ts.drop_last().len() implies (#[trigger] ts.drop_last()[k]).span.fits(text) by {
                assert(ts.drop_last()[k] == ts[k]);
            }
        }
    }
}

/// The message of a symbol or keyword that is not the one expected.
pub open spec fn expected_reason(what: Seq<char>, name: Seq<char>, got: Seq<char>) -> Seq<char> {
    "expected "@ + what + " '"@ + name + "', got '"@ + got + "'"@
}

/// Builds [`expected_reason`].
fn expected_message(what: &str, name: &str, got: &str) -> (s: String)
    ensures
        s@ == expected_reason(what@, name@, got@),
{
    let mut s = String::from_str("expected ");
    s.append(what);
    s.append(" '");
    s.append(name);
    s.append("', got '");
    s.append(got);
    s.append("'");
    proof {
        reveal_strlit("expected ");
        reveal_strlit(" '");
        reveal_strlit("', got '");
        reveal_strlit("'");
    }
    assert(s@ =~= expected_reason(what@, name@, got@));
    s
}

/// Whether every character of `s` is printable ASCII other than a double
/// quote and a backslash.
pub open spec fn plain_ascii(s: Seq<char>) -> bool {
    forall|k: int| 0 <= k < s.len() ==> ' ' <= #[trigger] s[k] <= '~' && s[k] != '"' && s[k] != '\\'
}

/// The text of an unsupported construct.
pub open spec fn todo_reason(quoted: Seq<char>) -> Seq<char> {
    "TODO: "@ + quoted
}

/// `format!("{:?}", s)`, std's `Debug` for `str`: the text in double
/// quotes, each character escaped by `char::escape_debug`. Stated only for
/// text in which no character needs escaping; the escapes of other
/// characters are left unsaid.
#[verifier::external_body]
fn debug_str(s: &str) -> (r: String)
    ensures
        plain_ascii(s@) ==> r@ == seq!['"'] + s@ + seq!['"'],
{
    format!("{:?}", s)
}

/// The message of an unsupported construct whose first token reads `t`.
fn todo_message(t: &str) -> (s: String)
    ensures
        plain_ascii(t@) ==> s@ == todo_reason(seq!['"'] + t@ + seq!['"']),
{
    let q = debug_str(t);
    let mut s = String::from_str("TODO: ");
    s.append(q.as_str());
    proof {
        reveal_strlit("TODO: ");
    }
    s
}

/// A step succeeded exactly when the grammar reads `g` from where the
/// cursor stood, and then the cursor stands after what it read.
pub open spec fn reads(g: Option<int>, ok: bool, ti: usize) -> bool {
    &&& (ok <==> g is Some)
    &&& (ok ==> ti == g->Some_0)
}

/// A recursive-descent parser over the tokens of `text`.
#[derive(Debug)]
pub struct Parser<'text> {
    pub text: &'text str,
    pub items: Vec<Item>,
    pub comments: Vec<Item>,
    pub tokens: Vec<Token>,
    pub token_i: usize,
}

impl<'text> Parser<'text> {
    /// The parser's invariant: the cursor is inside the token list, every
    /// token lies in the text, and comments have been taken out.
    pub open spec fn wf(self) -> bool {
        &&& self.token_i <= self.tokens@.len() <= usize::MAX
        &&& tokens_fit(self.tokens@, self.text)
        &&& forall|k: int| 0 <= k < self.tokens@.len() ==> (#[trigger] self.tokens@[k]).kind != TokenKind::Comment
    }

    /// `other` is a later state of this parser: same text, tokens and
    /// comments, a cursor that did not move back, and the first `m` items
    /// unchanged.
    pub open spec fn keeps_upto(self, other: Self, m: int) -> bool {
        &&& other.text == self.text
        &&& other.tokens@ == self.tokens@
        &&& other.comments@ == self.comments@
        &&& self.token_i <= other.token_i <= other.tokens@.len()
        &&& self.items@.len() <= other.items@.len()
        &&& forall|k: int| 0 <= k < m ==> #[trigger] other.items@[k] == self.items@[k]
    }

    /// `other` is a later state that kept every item of this one.
    pub open spec fn keeps(self, other: Self) -> bool {
        self.keeps_upto(other, self.items@.len() as int)
    }

    /// The range from the start of token `a` to the end of token `b - 1`.
    pub open spec fn token_hull(self, a: int, b: int) -> Span {
        Span { start: self.tokens@[a].span.start, end: self.tokens@[b - 1].span.end }
    }

    /// Going from this state to `other` consumed at least one token and
    /// built a node: the item at this state's item count spans exactly
    /// the consumed tokens.
    pub open spec fn built(self, other: Self) -> bool {
        &&& self.token_i < other.token_i
        &&& self.items@.len() < other.items@.len()
        &&& other.items@[self.items@.len() as int].span == self.token_hull(self.token_i as int, other.token_i as int)
    }

    /// Token `k` exists, has kind `kind` and reads `name`.
    pub open spec fn tok_is(self, k: int, kind: TokenKind, name: Seq<char>) -> bool {
        &&& 0 <= k < self.tokens@.len()
        &&& self.tokens@[k].kind == kind
        &&& self.tokens@[k].span.spec_text(self.text) == name
    }

    /// The range [`Parser::last_span`] gives.
    pub open spec fn spec_last_span(self) -> Span {
        if 1 <= self.token_i <= self.tokens@.len() {
            self.tokens@[self.token_i - 1].span
        } else {
            Span { start: 0, end: 0 }
        }
    }

    /// The range [`Parser::next_span`] gives.
    pub open spec fn spec_next_span(self) -> Span {
        if self.token_i < self.tokens@.len() {
            self.tokens@[self.token_i as int].span
        } else {
            Span { start: self.text.spec_bytes().len() as usize, end: self.text.spec_bytes().len() as usize }
        }
    }

    /// The empty range at the end of `text`.
    pub open spec fn eof_span(self) -> Span {
        Span { start: self.text.spec_bytes().len() as usize, end: self.text.spec_bytes().len() as usize }
    }

    /// A parser over `tokens`: comment tokens become comment items and
    /// leave the token list.
    pub fn new(text: &'text str, tokens: Vec<Token>) -> (p: Self)
        ensures
            p.text == text,
            p.tokens@ == non_comments(tokens@),
            p.comments@ == comment_items(tokens@),
            p.items@.len() == 0,
            p.token_i == 0,
            tokens_fit(tokens@, text) ==> p.wf(),
    {
        let mut comments: Vec<Item> = Vec::new();
        let mut kept: Vec<Token> = Vec::new();
        let mut i: usize = 0;
        while i < tokens.len()
            invariant
                i <= tokens@.len(),
                kept@.len() <= i,
                kept@ == non_comments(tokens@.subrange(0, i as int)),
                comments@ == comment_items(tokens@.subrange(0, i as int)),
            decreases tokens@.len() - i,
        {
            let t = tokens[i];
            assert(tokens@.subrange(0, i + 1).drop_last() =~= tokens@.subrange(0, i as int));
            if t.kind == TokenKind::Comment {
                comments.push(Item::new(ItemKind::Comment, t.span));
            } else {
                kept.push(t);
            }
            i += 1;
        }
        assert(tokens@.subrange(0, tokens@.len() as int) =~= tokens@);
        proof {
            lemma_non_comments(tokens@, text);
        }
        Parser { text, items: Vec::new(), comments, tokens: kept, token_i: 0 }
    }

    /// The range of the last consumed token, or `0..0` before the first.
    pub fn last_span(&self) -> (s: Span)
        ensures
            s == self.spec_last_span(),
    {
        if self.token_i >= 1 && self.token_i - 1 < self.tokens.len() {
            self.tokens[self.token_i - 1].span
        } else {
            Span { start: 0, end: 0 }
        }
    }

    /// The range of the next token, or the empty range at the end of the
    /// text.
    pub fn next_span(&self) -> (s: Span)
        ensures
            s == self.spec_next_span(),
    {
        if self.token_i < self.tokens.len() {
            self.tokens[self.token_i].span
        } else {
            let n = self.text.as_bytes().len();
            Span { start: n, end: n }
        }
    }

    /// The empty range where the next token starts.
    fn next_empty_span(&self) -> (s: Span)
        ensures
            s == (Span { start: self.spec_next_span().start, end: self.spec_next_span().start }),
    {
        let start = self.next_span().start;
        Span::new(start, start)
    }

    /// Consumes and returns the next token.
    pub fn next_token(&mut self) -> (r: Result<Token, ParseError>)
        requires
            old(self).wf(),
        ensures
            final(self).text == old(self).text,
            final(self).tokens@ == old(self).tokens@,
            final(self).comments@ == old(self).comments@,
            final(self).items@ == old(self).items@,
            r is Ok <==> old(self).token_i < old(self).tokens@.len(),
            r matches Ok(t) ==> t == old(self).tokens@[old(self).token_i as int] && final(self).token_i == old(self).token_i + 1,
            r matches Err(e) ==> e.span == old(self).eof_span() && e.reason@ == "unexpected EOF"@ && final(self).token_i == old(self).token_i,
            final(self).wf(),
    {
        let t = self.token()?;
        self.token_i += 1;
        Ok(t)
    }

    /// The next token, without consuming it.
    pub fn peek_token(&self) -> (r: Option<Token>)
        ensures
            r is Some <==> self.token_i < self.tokens@.len(),
            r matches Some(t) ==> t == self.tokens@[self.token_i as int],
    {
        if self.token_i < self.tokens.len() {
            Some(self.tokens[self.token_i])
        } else {
            None
        }
    }

    /// The next token, or an error at the end of the input.
    pub fn token(&self) -> (r: Result<Token, ParseError>)
        ensures
            r is Ok <==> self.token_i < self.tokens@.len(),
            r matches Ok(t) ==> t == self.tokens@[self.token_i as int],
            r matches Err(e) ==> e.span == self.eof_span() && e.reason@ == "unexpected EOF"@,
    {
        if self.token_i < self.tokens.len() {
            Ok(self.tokens[self.token_i])
        } else {
            let n = self.text.as_bytes().len();
            let span = Span { start: n, end: n };
            proof {
                reveal_strlit("unexpected EOF");
            }
            Err(ParseError::new(span, String::from_str("unexpected EOF")))
        }
    }

    /// Whether every token has been consumed.
    pub fn is_eof(&self) -> (b: bool)
        ensures
            b == (self.token_i == self.tokens@.len()),
    {
        self.token_i == self.tokens.len()
    }

    /// The item count and the start of the next token: where a node
    /// begins.
    fn span_start(&self) -> (r: (usize, usize))
        ensures
            r.0 == self.items@.len(),
            r.1 == self.spec_next_span().start,
    {
        (self.items.len(), self.next_span().start)
    }

    /// The range from `start` to the end of the last consumed token.
    fn span_finish(&self, start: usize) -> (s: Span)
        ensures
            s == (Span { start, end: self.spec_last_span().end }),
    {
        Span::new(start, self.last_span().end)
    }

    /// Appends an item.
    fn push_item(&mut self, kind: ItemKind, span: Span)
        ensures
            final(self).items@ == old(self).items@.push(Item { kind, span }),
            final(self).text == old(self).text,
            final(self).tokens@ == old(self).tokens@,
            final(self).comments@ == old(self).comments@,
            final(self).token_i == old(self).token_i,
    {
        self.items.push(Item::new(kind, span));
    }

    /// Inserts an item at index `i`.
    fn insert_item(&mut self, i: usize, kind: ItemKind, span: Span)
        requires
            i <= old(self).items@.len(),
        ensures
            final(self).items@ == old(self).items@.insert(i as int, Item { kind, span }),
            final(self).text == old(self).text,
            final(self).tokens@ == old(self).tokens@,
            final(self).comments@ == old(self).comments@,
            final(self).token_i == old(self).token_i,
    {
        self.items.insert(i, Item::new(kind, span));
    }

    /// Inserts at `i` an item of kind `kind` from the start of item `i` to
    /// the end of the last consumed token.
    fn insert_item2(&mut self, i: usize, kind: ItemKind)
        requires
            i < old(self).items@.len(),
        ensures
            final(self).items@ == old(self).items@.insert(
                i as int,
                Item { kind, span: Span { start: old(self).items@[i as int].span.start, end: old(self).spec_last_span().end } },
            ),
            final(self).text == old(self).text,
            final(self).tokens@ == old(self).tokens@,
            final(self).comments@ == old(self).comments@,
            final(self).token_i == old(self).token_i,
    {
        let start = self.items[i].span.start;
        let span = self.span_finish(start);
        self.items.insert(i, Item::new(kind, span));
    }

    /// Whether the next token is the symbol `name`.
    fn is_next_symbol(&self, name: &str) -> (b: bool)
        requires
            self.wf(),
        ensures
            b == self.tok_is(self.token_i as int, TokenKind::Symbol, name@),
    {
        match self.peek_token() {
            Some(t) => t.kind == TokenKind::Symbol && str_eq(t.text(self.text), name),
            None => false,
        }
    }

    /// Whether the next token is the keyword `name`.
    fn is_next_keyword(&self, name: &str) -> (b: bool)
        requires
            self.wf(),
        ensures
            b == self.tok_is(self.token_i as int, TokenKind::Keyword, name@),
    {
        match self.peek_token() {
            Some(t) => t.kind == TokenKind::Keyword && str_eq(t.text(self.text), name),
            None => false,
        }
    }

    /// Consumes the next token if it is the symbol `name`.
    fn expect_optional_symbol(&mut self, name: &str) -> (b: bool)
        requires
            old(self).wf(),
        ensures
            b == old(self).tok_is(old(self).token_i as int, TokenKind::Symbol, name@),
            final(self).token_i == (if b { old(self).token_i + 1 } else { old(self).token_i as int }),
            final(self).items@ == old(self).items@,
            old(self).keeps(*final(self)),
    {
        if self.is_next_symbol(name) {
            self.token_i += 1;
            true
        } else {
            false
        }
    }

    /// Consumes the next token if it is the keyword `name`.
    fn expect_optional_keyword(&mut self, name: &str) -> (b: bool)
        requires
            old(self).wf(),
        ensures
            b == old(self).tok_is(old(self).token_i as int, TokenKind::Keyword, name@),
            final(self).token_i == (if b { old(self).token_i + 1 } else { old(self).token_i as int }),
            final(self).items@ == old(self).items@,
            old(self).keeps(*final(self)),
    {
        if self.is_next_keyword(name) {
            self.token_i += 1;
            true
        } else {
            false
        }
    }

    /// Consumes the next token, which must be the symbol `name`; gives its
    /// range.
    fn expect_symbol(&mut self, name: &str) -> (r: Result<Span, ParseError>)
        requires
            old(self).wf(),
        ensures
            old(self).keeps(*final(self)),
            final(self).items@ == old(self).items@,
            final(self).token_i == (if old(self).token_i < old(self).tokens@.len() { old(self).token_i + 1 } else { old(self).token_i as int }),
            r is Ok <==> old(self).tok_is(old(self).token_i as int, TokenKind::Symbol, name@),
            r matches Ok(s) ==> s == old(self).tokens@[old(self).token_i as int].span,
            r matches Err(e) ==> (if old(self).token_i < old(self).tokens@.len() {
                e.span == old(self).tokens@[old(self).token_i as int].span
                    && e.reason@ == expected_reason("symbol"@, name@, old(self).tokens@[old(self).token_i as int].span.spec_text(old(self).text))
            } else {
                e.span == old(self).eof_span() && e.reason@ == "unexpected EOF"@
            }),
    {
        let t = self.next_token()?;
        let got = t.text(self.text);
        if t.kind == TokenKind::Symbol && str_eq(got, name) {
            Ok(t.span)
        } else {
            proof {
                reveal_strlit("symbol");
            }
            Err(ParseError::new(t.span, expected_message("symbol", name, got)))
        }
    }

    /// Consumes the next token, which must be the keyword `name`; gives
    /// its range.
    fn expect_keyword(&mut self, name: &str) -> (r: Result<Span, ParseError>)
        requires
            old(self).wf(),
        ensures
            old(self).keeps(*final(self)),
            final(self).items@ == old(self).items@,
            final(self).token_i == (if old(self).token_i < old(self).tokens@.len() { old(self).token_i + 1 } else { old(self).token_i as int }),
            r is Ok <==> old(self).tok_is(old(self).token_i as int, TokenKind::Keyword, name@),
            r matches Ok(s) ==> s == old(self).tokens@[old(self).token_i as int].span,
            r matches Err(e) ==> (if old(self).token_i < old(self).tokens@.len() {
                e.span == old(self).tokens@[old(self).token_i as int].span
                    && e.reason@ == expected_reason("keyword"@, name@, old(self).tokens@[old(self).token_i as int].span.spec_text(old(self).text))
            } else {
                e.span == old(self).eof_span() && e.reason@ == "unexpected EOF"@
            }),
    {
        let t = self.next_token()?;
        let got = t.text(self.text);
        if t.kind == TokenKind::Keyword && str_eq(got, name) {
            Ok(t.span)
        } else {
            proof {
                reveal_strlit("keyword");
            }
            Err(ParseError::new(t.span, expected_message("keyword", name, got)))
        }
    }

    /// Parses a module: attributes (`-` ... `.`) and function
    /// declarations up to the end of the input, then puts a `Module` item
    /// over the whole text in front.
    #[verifier::rlimit(60)]
    #[verifier::spinoff_prover]
    pub fn parse_module(&mut self) -> (r: Result<(), ParseError>)
        requires
            old(self).wf(),
        ensures
            r is Ok <==> g_forms(old(self).tokens@, old(self).text@, old(self).token_i as int),
            final(self).wf(),
            final(self).text == old(self).text,
            final(self).tokens@ == old(self).tokens@,
            final(self).comments@ == old(self).comments@,
            old(self).token_i <= final(self).token_i,
            r is Ok ==> final(self).token_i == final(self).tokens@.len()
                && final(self).items@.len() > old(self).items@.len()
                && final(self).items@[0] == (Item { kind: ItemKind::Module, span: Span { start: 0, end: old(self).eof_span().end } })
                && forall|k: int| 0 <= k < old(self).items@.len() ==> #[trigger] final(self).items@[k + 1] == old(self).items@[k],
            r is Ok ==> final(self).items@ == seq![final(self).items@[0]] + old(self).items@ + p_forms(old(self).tokens@, old(self).text@, old(self).token_i as int),
            r is Err ==> old(self).keeps(*final(self)),
    {
        let ghost a = *self;
        while !self.is_eof()
            invariant
                g_forms(a.tokens@, a.text@, a.token_i as int) == g_forms(self.tokens@, self.text@, self.token_i as int),
                self.items@ + p_forms(self.tokens@, self.text@, self.token_i as int) == a.items@ + p_forms(a.tokens@, a.text@, a.token_i as int),
                self.wf(),
                a == *old(self),
                a.keeps(*self),
            decreases self.tokens@.len() - self.token_i,
        {
            let ghost b = *self;
            let ghost m = self.token_i as int;
            if self.is_next_symbol("-") {
                self.parse_attr()?;
                assert(b.items@ + p_forms(b.tokens@, b.text@, m) =~= self.items@ + p_forms(self.tokens@, self.text@, self.token_i as int));
            } else {
                self.parse_fun_decl()?;
                assert(b.items@ + p_forms(b.tokens@, b.text@, m) =~= self.items@ + p_forms(self.tokens@, self.text@, self.token_i as int));
            }
            assert(b.built(*self));
        }
        let span = Span::new(0, self.text.as_bytes().len());
        let ghost c = *self;
        assert(c.items@ =~= a.items@ + p_forms(a.tokens@, a.text@, a.token_i as int));
        self.insert_item(0, ItemKind::Module, span);
        assert forall|k: int| 0 <= k < a.items@.len() implies #[trigger] self.items@[k + 1] == a.items@[k] by {
            assert(self.items@[k + 1] == c.items@[k]);
        }
        assert(self.items@ =~= seq![self.items@[0]] + a.items@ + p_forms(a.tokens@, a.text@, a.token_i as int));
        Ok(())
    }

    /// Parses an attribute: `-` and every token up to and including the
    /// next `.`.
    pub fn parse_attr(&mut self) -> (r: Result<(), ParseError>)
        requires
            old(self).wf(),
        ensures
            reads(g_attr(old(self).tokens@, old(self).text@, old(self).token_i as int), r is Ok, final(self).token_i),
            old(self).keeps(*final(self)),
            r is Ok ==> old(self).built(*final(self))
                && final(self).items@ == old(self).items@.push(Item { kind: ItemKind::Attr, span: old(self).token_hull(old(self).token_i as int, final(self).token_i as int) }),
    {
        let ghost a = *self;
        let (_i, start) = self.span_start();
        self.expect_symbol("-")?;
        loop
            invariant_except_break
                g_attr(a.tokens@, a.text@, a.token_i as int) == g_attr_rest(self.tokens@, self.text@, self.token_i as int),
            invariant
                self.wf(),
                a == *old(self),
                a.keeps(*self),
                self.items@ == a.items@,
                self.token_i > a.token_i,
                start == a.tokens@[a.token_i as int].span.start,
            ensures
                g_attr(a.tokens@, a.text@, a.token_i as int) == Some(self.token_i as int),
            decreases self.tokens@.len() - self.token_i,
        {
            if self.expect_optional_symbol(".") {
                break;
            }
            self.next_token()?;
        }
        let span = self.span_finish(start);
        self.push_item(ItemKind::Attr, span);
        Ok(())
    }

    /// Parses a function declaration: clauses separated by `;`, ended by
    /// `.`.
    #[verifier::rlimit(60)]
    #[verifier::spinoff_prover]
    pub fn parse_fun_decl(&mut self) -> (r: Result<(), ParseError>)
        requires
            old(self).wf(),
        ensures
            reads(g_fun_decl(old(self).tokens@, old(self).text@, old(self).token_i as int), r is Ok, final(self).token_i),
            old(self).keeps(*final(self)),
            r is Ok ==> old(self).built(*final(self)) && final(self).items@[old(self).items@.len() as int].kind == ItemKind::FunDecl,
            r is Ok ==> final(self).items@ == old(self).items@ + p_fun_decl(old(self).tokens@, old(self).text@, old(self).token_i as int),
    {
        let ghost a = *self;
        let (i, start) = self.span_start();
        self.parse_fun_clause()?;
        let ghost c1 = self.token_i as int;
        while self.is_next_symbol(";")
            invariant
                g_fun_decl(a.tokens@, a.text@, a.token_i as int) == g_fun_clauses_rest(self.tokens@, self.text@, self.token_i as int),
                c1 == g_fun_clause(a.tokens@, a.text@, a.token_i as int)->Some_0,
                after(a.tokens@, a.token_i as int, g_fun_clause(a.tokens@, a.text@, a.token_i as int)),
                self.items@ + p_fun_clauses_rest(self.tokens@, self.text@, self.token_i as int)
                    == a.items@ + p_fun_clause(a.tokens@, a.text@, a.token_i as int) + p_fun_clauses_rest(a.tokens@, a.text@, c1),
                self.wf(),
                a == *old(self),
                a.keeps(*self),
                self.token_i > a.token_i,
                i == a.items@.len(),
                start == a.tokens@[a.token_i as int].span.start,
            decreases self.tokens@.len() - self.token_i,
        {
            let ghost b = *self;
            self.expect_symbol(";")?;
            self.parse_fun_clause()?;
            assert(b.items@ + p_fun_clauses_rest(b.tokens@, b.text@, b.token_i as int)
                =~= self.items@ + p_fun_clauses_rest(self.tokens@, self.text@, self.token_i as int));
        }
        let ghost c = *self;
        let end = self.expect_symbol(".")?.end;
        let span = Span::new(start, end);
        self.insert_item(i, ItemKind::FunDecl, span);
        proof {
            let p1 = p_fun_clause(a.tokens@, a.text@, a.token_i as int);
            let p2 = p_fun_clauses_rest(a.tokens@, a.text@, c1);
            assert(p_fun_clauses_rest(c.tokens@, c.text@, c.token_i as int) == Seq::<Item>::empty());
            assert(c.items@ =~= a.items@ + p1 + p2);
            lemma_insert_node2(a.items@, p1, p2, Item { kind: ItemKind::FunDecl, span });
            assert(span == hull(a.tokens@, a.token_i as int, self.token_i as int));
            assert(p_fun_decl(a.tokens@, a.text@, a.token_i as int) == node(a.tokens@, ItemKind::FunDecl, a.token_i as int, self.token_i as int) + p1 + p2);
        }
        Ok(())
    }

    /// Parses a body: expressions separated by `,`.
    pub fn parse_body(&mut self) -> (r: Result<(), ParseError>)
        requires
            old(self).wf(),
        ensures
            reads(g_body(old(self).tokens@, old(self).text@, old(self).token_i as int), r is Ok, final(self).token_i),
            old(self).keeps(*final(self)),
            r is Ok ==> old(self).built(*final(self)) && final(self).items@[old(self).items@.len() as int].kind == ItemKind::Body,
            r is Ok ==> final(self).items@ == old(self).items@ + p_body(old(self).tokens@, old(self).text@, old(self).token_i as int),
        decreases old(self).tokens@.len() - old(self).token_i, 4int,
    {
        let ghost a = *self;
        let (i, start) = self.span_start();
        self.parse_expr()?;
        let ghost c1 = self.token_i as int;
        while self.is_next_symbol(",")
            invariant
                g_body(a.tokens@, a.text@, a.token_i as int) == g_more_body(self.tokens@, self.text@, self.token_i as int),
                c1 == g_expr(a.tokens@, a.text@, a.token_i as int)->Some_0,
                after(a.tokens@, a.token_i as int, g_expr(a.tokens@, a.text@, a.token_i as int)),
                self.items@ + p_more_body(self.tokens@, self.text@, self.token_i as int)
                    == a.items@ + p_expr(a.tokens@, a.text@, a.token_i as int) + p_more_body(a.tokens@, a.text@, c1),
                self.wf(),
                a == *old(self),
                a.keeps(*self),
                self.token_i > a.token_i,
                i == a.items@.len(),
                start == a.tokens@[a.token_i as int].span.start,
            decreases self.tokens@.len() - self.token_i,
        {
            let ghost b = *self;
            let _ = self.next_token();
            self.parse_expr()?;
            assert(b.items@ + p_more_body(b.tokens@, b.text@, b.token_i as int)
                =~= self.items@ + p_more_body(self.tokens@, self.text@, self.token_i as int));
        }
        let ghost c = *self;
        let span = self.span_finish(start);
        self.insert_item(i, ItemKind::Body, span);
        assert(c.items@ =~= a.items@ + p_expr(a.tokens@, a.text@, a.token_i as int) + p_more_body(a.tokens@, a.text@, c1));
        assert(self.items@ =~= a.items@ + p_body(a.tokens@, a.text@, a.token_i as int));
        Ok(())
    }

    /// Parses a guard: `when` and a body, or nothing, which gives an
    /// empty `Guard` item where the next token starts.
    pub fn parse_guard(&mut self) -> (r: Result<(), ParseError>)
        requires
            old(self).wf(),
        ensures
            reads(g_guard(old(self).tokens@, old(self).text@, old(self).token_i as int), r is Ok, final(self).token_i),
            old(self).keeps(*final(self)),
            r is Ok ==> final(self).items@.len() > old(self).items@.len()
                && final(self).items@[old(self).items@.len() as int].kind == ItemKind::Guard,
            r is Ok && final(self).token_i == old(self).token_i ==> final(self).items@[old(self).items@.len() as int].span
                == (Span { start: old(self).spec_next_span().start, end: old(self).spec_next_span().start }),
            r is Ok && final(self).token_i > old(self).token_i ==> old(self).built(*final(self)),
            !old(self).tok_is(old(self).token_i as int, TokenKind::Keyword, "when"@) ==> r is Ok && final(self).token_i == old(self).token_i,
            r is Ok && old(self).token_i < old(self).tokens@.len() ==> final(self).items@ == old(self).items@ + p_guard(old(self).tokens@, old(self).text@, old(self).token_i as int),
    {
        let ghost a = *self;
        let (i, start) = self.span_start();
        if !self.expect_optional_keyword("when") {
            let span = self.next_empty_span();
            self.push_item(ItemKind::Guard, span);
            return Ok(());
        }
        self.parse_body()?;
        let ghost c = *self;
        let span = self.span_finish(start);
        self.insert_item(i, ItemKind::Guard, span);
        assert(self.items@ =~= a.items@ + p_guard(a.tokens@, a.text@, a.token_i as int));
        Ok(())
    }

    /// Parses a function clause: name, arguments, guard, `->` and body.
    pub fn parse_fun_clause(&mut self) -> (r: Result<(), ParseError>)
        requires
            old(self).wf(),
        ensures
            reads(g_fun_clause(old(self).tokens@, old(self).text@, old(self).token_i as int), r is Ok, final(self).token_i),
            old(self).keeps(*final(self)),
            r is Ok ==> old(self).built(*final(self)) && final(self).items@[old(self).items@.len() as int].kind == ItemKind::FunClause,
            r is Ok ==> final(self).items@ == old(self).items@ + p_fun_clause(old(self).tokens@, old(self).text@, old(self).token_i as int),
    {
        let ghost a = *self;
        let i = self.items.len();
        let start = self.parse_atom()?.start;
        self.parse_args()?;
        let ghost e1 = self.token_i as int;
        let ghost b = *self;
        self.parse_guard()?;
        let ghost g = *self;
        self.expect_symbol("->")?;
        assert(e1 < b.tokens@.len());
        self.parse_body()?;
        let ghost c = *self;
        let span = self.span_finish(start);
        self.insert_item(i, ItemKind::FunClause, span);
        proof {
            let pa = seq![Item { kind: ItemKind::Atom, span: a.tokens@[a.token_i as int].span }];
            let pr = p_args(a.tokens@, a.text@, a.token_i + 1);
            let pg = p_guard(a.tokens@, a.text@, e1);
            let pb = p_body(a.tokens@, a.text@, g.token_i + 1);
            assert(c.items@ == a.items@ + pa + pr + pg + pb);
            lemma_insert_node4(a.items@, pa, pr, pg, pb, Item { kind: ItemKind::FunClause, span });
            assert(span == hull(a.tokens@, a.token_i as int, c.token_i as int));
            assert(p_fun_clause(a.tokens@, a.text@, a.token_i as int) == node(a.tokens@, ItemKind::FunClause, a.token_i as int, c.token_i as int) + pa + pr + pg + pb);
        }
        Ok(())
    }

    /// Parses an atom token.
    pub fn parse_atom(&mut self) -> (r: Result<Span, ParseError>)
        requires
            old(self).wf(),
        ensures
            old(self).keeps(*final(self)),
            r is Ok <==> old(self).token_i < old(self).tokens@.len() && old(self).tokens@[old(self).token_i as int].kind == TokenKind::Atom,
            r matches Ok(s) ==> s == old(self).tokens@[old(self).token_i as int].span
                && final(self).token_i == old(self).token_i + 1
                && final(self).items@ == old(self).items@.push(Item { kind: ItemKind::Atom, span: s }),
            r matches Err(e) ==> final(self).items@ == old(self).items@ && (if old(self).token_i < old(self).tokens@.len() {
                e.span == old(self).tokens@[old(self).token_i as int].span && e.reason@ == "not an atom token"@
            } else {
                e.span == old(self).eof_span() && e.reason@ == "unexpected EOF"@
            }),
    {
        let t = self.next_token()?;
        if t.kind != TokenKind::Atom {
            proof {
                reveal_strlit("not an atom token");
            }
            return Err(ParseError::new(t.span, String::from_str("not an atom token")));
        }
        self.push_item(ItemKind::Atom, t.span);
        Ok(t.span)
    }

    /// Parses an expression: operands separated by binary operators; with
    /// an operator, a `BinaryOpExprs` item covers them all.
    #[verifier::rlimit(60)]
    #[verifier::spinoff_prover]
    pub fn parse_expr(&mut self) -> (r: Result<(), ParseError>)
        requires
            old(self).wf(),
        ensures
            reads(g_expr(old(self).tokens@, old(self).text@, old(self).token_i as int), r is Ok, final(self).token_i),
            old(self).keeps(*final(self)),
            r is Ok ==> old(self).built(*final(self)),
            r is Ok ==> final(self).items@ == old(self).items@ + p_expr(old(self).tokens@, old(self).text@, old(self).token_i as int),
        decreases old(self).tokens@.len() - old(self).token_i, 3int,
    {
        let ghost a = *self;
        let i = self.items.len();
        self.parse_expr_item()?;
        let ghost e1 = self.token_i as int;
        let mut has_binary_op = false;
        loop
            invariant
                e1 == g_item(a.tokens@, a.text@, a.token_i as int)->Some_0,
                after(a.tokens@, a.token_i as int, g_item(a.tokens@, a.text@, a.token_i as int)),
                self.items@ + p_ops(self.tokens@, self.text@, self.token_i as int)
                    == a.items@ + p_item(a.tokens@, a.text@, a.token_i as int) + p_ops(a.tokens@, a.text@, e1),
                has_binary_op ==> binop_at(a.tokens@, a.text@, e1),
                !has_binary_op ==> self.token_i == e1,
                self.wf(),
                a == *old(self),
                a.keeps(*self),
                i == a.items@.len(),
                self.token_i > a.token_i,
                self.items@.len() > a.items@.len(),
                self.items@[i as int].span.start == a.tokens@[a.token_i as int].span.start,
                !has_binary_op ==> a.built(*self),
                g_expr(a.tokens@, a.text@, a.token_i as int) == g_ops(self.tokens@, self.text@, self.token_i as int),
            ensures
                g_expr(a.tokens@, a.text@, a.token_i as int) == Some(self.token_i as int),
                !binop_at(self.tokens@, self.text@, self.token_i as int),
            decreases self.tokens@.len() - self.token_i,
        {
            let ghost k = self.token_i as int;
            let go = match self.peek_token() {
                Some(t) => t.is_binary_op(self.text),
                None => false,
            };
            assert(go == binop_at(self.tokens@, self.text@, k));
            if !go {
                break;
            }
            let ghost b0 = *self;
            self.parse_binary_op_item()?;
            let ghost b = *self;
            self.parse_expr_item()?;
            assert(b.built(*self));
            assert(g_ops(self.tokens@, self.text@, k) == g_ops(self.tokens@, self.text@, self.token_i as int));
            assert(b0.items@ + p_ops(b0.tokens@, b0.text@, k) =~= self.items@ + p_ops(self.tokens@, self.text@, self.token_i as int));
            has_binary_op = true;
        }
        let ghost c = *self;
        let ghost p1 = p_item(a.tokens@, a.text@, a.token_i as int);
        let ghost p2 = p_ops(a.tokens@, a.text@, e1);
        assert(p_ops(c.tokens@, c.text@, c.token_i as int) == Seq::<Item>::empty());
        assert(c.items@ =~= a.items@ + p1 + p2);
        if has_binary_op {
            let start = self.items[i].span.start;
            let end = self.last_span().end;
            let span = Span::new(start, end);
            self.insert_item(i, ItemKind::BinaryOpExprs, span);
            proof {
                lemma_insert_node2(a.items@, p1, p2, Item { kind: ItemKind::BinaryOpExprs, span });
                assert(p_expr(a.tokens@, a.text@, a.token_i as int) == node(a.tokens@, ItemKind::BinaryOpExprs, a.token_i as int, c.token_i as int) + p1 + p2);
            }
        } else {
            assert(p_expr(a.tokens@, a.text@, a.token_i as int) == p1 + p2);
        }
        Ok(())
    }

    /// Parses a binary operator token.
    fn parse_binary_op_item(&mut self) -> (r: Result<(), ParseError>)
        requires
            old(self).wf(),
        ensures
            r is Ok ==> final(self).token_i == old(self).token_i + 1,
            r is Ok <==> binop_at(old(self).tokens@, old(self).text@, old(self).token_i as int),
            old(self).keeps(*final(self)),
            r is Ok ==> old(self).built(*final(self))
                && final(self).items@ == old(self).items@.push(Item { kind: ItemKind::BinaryOp, span: old(self).tokens@[old(self).token_i as int].span }),
    {
        let t = self.next_token()?;
        if !t.is_binary_op(self.text) {
            proof {
                reveal_strlit("expected binary operator");
            }
            return Err(ParseError::new(t.span, String::from_str("expected binary operator")));
        }
        self.push_item(ItemKind::BinaryOp, t.span);
        Ok(())
    }

    /// Parses an operand: a base expression, followed by a remote call
    /// (`:`), a call (`(`), a match (`=`) or a maybe-match (`?=`) whose item
    /// is put in front of it.
    #[verifier::rlimit(60)]
    #[verifier::spinoff_prover]
    fn parse_expr_item(&mut self) -> (r: Result<(), ParseError>)
        requires
            old(self).wf(),
        ensures
            reads(g_item(old(self).tokens@, old(self).text@, old(self).token_i as int), r is Ok, final(self).token_i),
            old(self).keeps(*final(self)),
            r is Ok ==> old(self).built(*final(self)),
            r is Ok ==> final(self).items@ == old(self).items@ + p_item(old(self).tokens@, old(self).text@, old(self).token_i as int),
        decreases old(self).tokens@.len() - old(self).token_i, 2int,
    {
        let ghost a = *self;
        let ghost t = a.tokens@;
        let ghost x = a.text@;
        let ghost k = a.token_i as int;
        let i = self.items.len();
        self.parse_base_expr_item()?;
        let ghost b = *self;
        let ghost e = b.token_i as int;
        assert(a.built(b));
        assert(b.items@[i as int].span.start == t[k].span.start);
        if self.is_next_symbol(":") {
            let r = self.parse_module_fun_call(i);
            proof {
                if r is Ok {
                    let rest = (p_base(t, x, e + 1) + p_args(t, x, g_base(t, x, e + 1)->Some_0));
                    lemma_insert_then(a.items@, p_base(t, x, k), rest, self.items@[i as int]);
                    assert(p_item(t, x, k) == node(t, ItemKind::ModuleFunCall, k, self.token_i as int) + p_base(t, x, k) + rest);
                }
            }
            r
        } else if self.is_next_symbol("(") {
            let r = self.parse_fun_call(i);
            proof {
                if r is Ok {
                    let rest = p_args(t, x, e);
                    lemma_insert_then(a.items@, p_base(t, x, k), rest, self.items@[i as int]);
                    assert(p_item(t, x, k) == node(t, ItemKind::FunCall, k, self.token_i as int) + p_base(t, x, k) + rest);
                }
            }
            r
        } else if self.is_next_symbol("=") {
            let r = self.parse_match(i);
            proof {
                if r is Ok {
                    let rest = p_expr(t, x, e + 1);
                    lemma_insert_then(a.items@, p_base(t, x, k), rest, self.items@[i as int]);
                    assert(p_item(t, x, k) == node(t, ItemKind::Match, k, self.token_i as int) + p_base(t, x, k) + rest);
                }
            }
            r
        } else if self.is_next_symbol("?=") {
            let r = self.parse_maybe_match(i);
            proof {
                if r is Ok {
                    let rest = p_expr(t, x, e + 1);
                    lemma_insert_then(a.items@, p_base(t, x, k), rest, self.items@[i as int]);
                    assert(p_item(t, x, k) == node(t, ItemKind::MaybeMatch, k, self.token_i as int) + p_base(t, x, k) + rest);
                }
            }
            r
        } else {
            Ok(())
        }
    }

    /// Parses an argument list: `(`, expressions separated by `,`, `)`;
    /// gives the range of the `)`.
    fn parse_args(&mut self) -> (r: Result<Span, ParseError>)
        requires
            old(self).wf(),
        ensures
            reads(g_args(old(self).tokens@, old(self).text@, old(self).token_i as int), r is Ok, final(self).token_i),
            old(self).keeps(*final(self)),
            r is Ok ==> old(self).built(*final(self)) && final(self).items@[old(self).items@.len() as int].kind == ItemKind::Args,
            r matches Ok(s) ==> s == final(self).tokens@[final(self).token_i - 1].span,
            r is Ok ==> final(self).items@ == old(self).items@ + p_args(old(self).tokens@, old(self).text@, old(self).token_i as int),
        decreases old(self).tokens@.len() - old(self).token_i, 0int,
    {
        let ghost a = *self;
        let (i, start) = self.span_start();
        self.expect_symbol("(")?;
        if !self.is_next_symbol(")") {
            loop
                invariant_except_break
                    g_args(a.tokens@, a.text@, a.token_i as int) == g_arg_list(self.tokens@, self.text@, self.token_i as int),
                    self.items@ + p_arg_list(self.tokens@, self.text@, self.token_i as int) == a.items@ + p_arg_list(a.tokens@, a.text@, a.token_i + 1),
                invariant
                    self.wf(),
                    a == *old(self),
                    a.keeps(*self),
                    self.token_i > a.token_i,
                    i == a.items@.len(),
                    start == a.tokens@[a.token_i as int].span.start,
                ensures
                    g_args(a.tokens@, a.text@, a.token_i as int) == (if sym(self.tokens@, self.text@, self.token_i as int, ")"@) { Some(self.token_i + 1) } else { None::<int> }),
                    self.items@ == a.items@ + p_arg_list(a.tokens@, a.text@, a.token_i + 1),
                decreases self.tokens@.len() - self.token_i,
            {
                let ghost b = *self;
                self.parse_expr()?;
                if !self.is_next_symbol(",") {
                    assert(b.items@ + p_arg_list(b.tokens@, b.text@, b.token_i as int) =~= self.items@);
                    break;
                }
                let _ = self.next_token()?;
                assert(b.items@ + p_arg_list(b.tokens@, b.text@, b.token_i as int)
                    =~= self.items@ + p_arg_list(self.tokens@, self.text@, self.token_i as int));
            }
        } else {
            assert(self.items@ =~= a.items@);
        }
        let ghost c = *self;
        let last = self.expect_symbol(")")?;
        let span = self.span_finish(start);
        self.insert_item(i, ItemKind::Args, span);
        assert(self.items@ =~= a.items@ + p_args(a.tokens@, a.text@, a.token_i as int));
        Ok(last)
    }

    /// Parses a binary literal `<<` ... `>>`, its nested `<<` `>>` pairs
    /// included, as one item.
    fn parse_binary(&mut self) -> (r: Result<(), ParseError>)
        requires
            old(self).wf(),
        ensures
            reads(g_binary(old(self).tokens@, old(self).text@, old(self).token_i as int), r is Ok, final(self).token_i),
            old(self).keeps(*final(self)),
            r is Ok ==> old(self).built(*final(self))
                && final(self).items@ == old(self).items@.push(Item { kind: ItemKind::Binary, span: old(self).token_hull(old(self).token_i as int, final(self).token_i as int) }),
    {
        let ghost a = *self;
        let n = self.tokens.len();
        let (_i, start) = self.span_start();
        self.expect_symbol("<<")?;
        let mut level: usize = 1;
        while level > 0
            invariant
                g_binary(a.tokens@, a.text@, a.token_i as int) == g_binary_rest(self.tokens@, self.text@, self.token_i as int, level as nat),
                self.wf(),
                a == *old(self),
                a.keeps(*self),
                self.items@ == a.items@,
                n == self.tokens@.len(),
                self.token_i > a.token_i,
                start == a.tokens@[a.token_i as int].span.start,
                level <= self.token_i - a.token_i,
            decreases self.tokens@.len() - self.token_i,
        {
            if self.is_next_symbol("<<") {
                level += 1;
            } else if self.is_next_symbol(">>") {
                level -= 1;
            }
            self.next_token()?;
        }
        let span = self.span_finish(start);
        self.push_item(ItemKind::Binary, span);
        Ok(())
    }

    /// Parses a tuple: `{`, expressions separated by `,`, `}`.
    fn parse_tuple(&mut self) -> (r: Result<(), ParseError>)
        requires
            old(self).wf(),
        ensures
            reads(g_tuple(old(self).tokens@, old(self).text@, old(self).token_i as int), r is Ok, final(self).token_i),
            old(self).keeps(*final(self)),
            r is Ok ==> old(self).built(*final(self)) && final(self).items@[old(self).items@.len() as int].kind == ItemKind::Tuple,
            r is Ok ==> final(self).items@ == old(self).items@ + p_tuple(old(self).tokens@, old(self).text@, old(self).token_i as int),
        decreases old(self).tokens@.len() - old(self).token_i, 0int,
    {
        let ghost a = *self;
        let (i, start) = self.span_start();
        self.expect_symbol("{")?;
        while !self.is_next_symbol("}")
            invariant_except_break
                g_tuple(a.tokens@, a.text@, a.token_i as int) == g_elems(self.tokens@, self.text@, self.token_i as int, "}"@),
                self.items@ + p_elems(self.tokens@, self.text@, self.token_i as int, "}"@) == a.items@ + p_elems(a.tokens@, a.text@, a.token_i + 1, "}"@),
            invariant
                self.wf(),
                a == *old(self),
                a.keeps(*self),
                self.token_i > a.token_i,
                i == a.items@.len(),
                start == a.tokens@[a.token_i as int].span.start,
            ensures
                g_tuple(a.tokens@, a.text@, a.token_i as int) == (if sym(self.tokens@, self.text@, self.token_i as int, "}"@) { Some(self.token_i + 1) } else { None::<int> }),
                self.items@ == a.items@ + p_elems(a.tokens@, a.text@, a.token_i + 1, "}"@),
            decreases self.tokens@.len() - self.token_i,
        {
            let ghost b = *self;
            self.parse_expr()?;
            if !self.expect_optional_symbol(",") {
                assert(b.items@ + p_elems(b.tokens@, b.text@, b.token_i as int, "}"@) =~= self.items@);
                break;
            }
            assert(b.items@ + p_elems(b.tokens@, b.text@, b.token_i as int, "}"@)
                =~= self.items@ + p_elems(self.tokens@, self.text@, self.token_i as int, "}"@));
        }
        self.expect_symbol("}")?;
        let span = self.span_finish(start);
        self.insert_item(i, ItemKind::Tuple, span);
        assert(self.items@ =~= a.items@ + p_tuple(a.tokens@, a.text@, a.token_i as int));
        Ok(())
    }

    /// After the operand at item `mi`: `:`, a function name and an
    /// argument list, with a `ModuleFunCall` item over them all at `mi`.
    fn parse_module_fun_call(&mut self, mi: usize) -> (r: Result<(), ParseError>)
        requires
            old(self).wf(),
            mi < old(self).items@.len(),
        ensures
            reads(g_remote(old(self).tokens@, old(self).text@, old(self).token_i as int), r is Ok, final(self).token_i),
            old(self).keeps_upto(*final(self), mi as int),
            r is Ok ==> old(self).token_i < final(self).token_i
                && final(self).items@[mi as int] == (Item { kind: ItemKind::ModuleFunCall, span: Span {
                    start: old(self).items@[mi as int].span.start,
                    end: final(self).tokens@[final(self).token_i - 1].span.end,
                } }),
            r is Ok ==> final(self).items@ == old(self).items@.insert(mi as int, final(self).items@[mi as int])
                + p_base(old(self).tokens@, old(self).text@, old(self).token_i + 1)
                + p_args(old(self).tokens@, old(self).text@, g_base(old(self).tokens@, old(self).text@, old(self).token_i + 1)->Some_0),
        decreases old(self).tokens@.len() - old(self).token_i, 0int,
    {
        let ghost a = *self;
        let _ = self.next_token()?;
        self.parse_base_expr_item()?;
        let last = self.parse_args()?;
        let ghost c = *self;
        let start = self.items[mi].span.start;
        let span = Span::new(start, last.end);
        self.insert_item(mi, ItemKind::ModuleFunCall, span);
        assert(self.items@ =~= a.items@.insert(mi as int, self.items@[mi as int])
            + p_base(a.tokens@, a.text@, a.token_i + 1) + p_args(a.tokens@, a.text@, g_base(a.tokens@, a.text@, a.token_i + 1)->Some_0));
        Ok(())
    }

    /// After the operand at item `i`: an argument list, with a `FunCall`
    /// item over both at `i`.
    fn parse_fun_call(&mut self, i: usize) -> (r: Result<(), ParseError>)
        requires
            old(self).wf(),
            i < old(self).items@.len(),
        ensures
            reads(g_args(old(self).tokens@, old(self).text@, old(self).token_i as int), r is Ok, final(self).token_i),
            old(self).keeps_upto(*final(self), i as int),
            r is Ok ==> old(self).token_i < final(self).token_i
                && final(self).items@[i as int] == (Item { kind: ItemKind::FunCall, span: Span {
                    start: old(self).items@[i as int].span.start,
                    end: final(self).tokens@[final(self).token_i - 1].span.end,
                } }),
            r is Ok ==> final(self).items@ == old(self).items@.insert(i as int, final(self).items@[i as int])
                + p_args(old(self).tokens@, old(self).text@, old(self).token_i as int),
        decreases old(self).tokens@.len() - old(self).token_i, 1int,
    {
        let ghost a = *self;
        self.parse_args()?;
        self.insert_item2(i, ItemKind::FunCall);
        assert(self.items@ =~= a.items@.insert(i as int, self.items@[i as int]) + p_args(a.tokens@, a.text@, a.token_i as int));
        Ok(())
    }

    /// After the operand at item `i`: `?=` and an expression, with a
    /// `MaybeMatch` item over both at `i`.
    fn parse_maybe_match(&mut self, i: usize) -> (r: Result<(), ParseError>)
        requires
            old(self).wf(),
            i < old(self).items@.len(),
        ensures
            reads(if old(self).token_i < old(self).tokens@.len() { g_expr(old(self).tokens@, old(self).text@, old(self).token_i + 1) } else { None }, r is Ok, final(self).token_i),
            old(self).keeps_upto(*final(self), i as int),
            r is Ok ==> old(self).token_i < final(self).token_i
                && final(self).items@[i as int] == (Item { kind: ItemKind::MaybeMatch, span: Span {
                    start: old(self).items@[i as int].span.start,
                    end: final(self).tokens@[final(self).token_i - 1].span.end,
                } }),
            r is Ok ==> final(self).items@ == old(self).items@.insert(i as int, final(self).items@[i as int])
                + p_expr(old(self).tokens@, old(self).text@, old(self).token_i + 1),
        decreases old(self).tokens@.len() - old(self).token_i, 0int,
    {
        let ghost a = *self;
        let _ = self.next_token()?;
        self.parse_expr()?;
        self.insert_item2(i, ItemKind::MaybeMatch);
        assert(self.items@ =~= a.items@.insert(i as int, self.items@[i as int]) + p_expr(a.tokens@, a.text@, a.token_i + 1));
        Ok(())
    }

    /// After the operand at item `i`: `=` and an expression, with a
    /// `Match` item over both at `i`.
    fn parse_match(&mut self, i: usize) -> (r: Result<(), ParseError>)
        requires
            old(self).wf(),
            i < old(self).items@.len(),
        ensures
            reads(if old(self).token_i < old(self).tokens@.len() { g_expr(old(self).tokens@, old(self).text@, old(self).token_i + 1) } else { None }, r is Ok, final(self).token_i),
            old(self).keeps_upto(*final(self), i as int),
            r is Ok ==> old(self).token_i < final(self).token_i
                && final(self).items@[i as int] == (Item { kind: ItemKind::Match, span: Span {
                    start: old(self).items@[i as int].span.start,
                    end: final(self).tokens@[final(self).token_i - 1].span.end,
                } }),
            r is Ok ==> final(self).items@ == old(self).items@.insert(i as int, final(self).items@[i as int])
                + p_expr(old(self).tokens@, old(self).text@, old(self).token_i + 1),
        decreases old(self).tokens@.len() - old(self).token_i, 0int,
    {
        let ghost a = *self;
        let _ = self.next_token()?;
        self.parse_expr()?;
        self.insert_item2(i, ItemKind::Match);
        assert(self.items@ =~= a.items@.insert(i as int, self.items@[i as int]) + p_expr(a.tokens@, a.text@, a.token_i + 1));
        Ok(())
    }

    /// Parses `maybe` body [`else` clauses] `end`.
    #[verifier::rlimit(60)]
    #[verifier::spinoff_prover]
    fn parse_maybe_expr(&mut self) -> (r: Result<(), ParseError>)
        requires
            old(self).wf(),
        ensures
            reads(g_maybe(old(self).tokens@, old(self).text@, old(self).token_i as int), r is Ok, final(self).token_i),
            old(self).keeps(*final(self)),
            r is Ok ==> old(self).built(*final(self)) && final(self).items@[old(self).items@.len() as int].kind == ItemKind::MaybeExpr,
            r is Ok ==> final(self).items@ == old(self).items@ + p_maybe(old(self).tokens@, old(self).text@, old(self).token_i as int),
        decreases old(self).tokens@.len() - old(self).token_i, 0int,
    {
        let ghost a = *self;
        let (i, start) = self.span_start();
        self.expect_keyword("maybe")?;
        self.parse_body()?;
        let ghost e1 = self.token_i as int;
        let ghost pb = p_body(a.tokens@, a.text@, a.token_i + 1);
        let has_else = !self.is_next_keyword("end");
        if has_else {
            self.expect_keyword("else")?;
            self.parse_else_clauses()?;
        }
        self.expect_keyword("end")?;
        let ghost c = *self;
        let span = self.span_finish(start);
        self.insert_item(i, ItemKind::MaybeExpr, span);
        proof {
            let x = Item { kind: ItemKind::MaybeExpr, span };
            assert(span == hull(a.tokens@, a.token_i as int, c.token_i as int));
            if has_else {
                let pc = p_clauses(a.tokens@, a.text@, e1 + 1, true);
                lemma_insert_node2(a.items@, pb, pc, x);
                assert(p_maybe(a.tokens@, a.text@, a.token_i as int) == node(a.tokens@, ItemKind::MaybeExpr, a.token_i as int, c.token_i as int) + pb + pc);
            } else {
                lemma_insert_node1(a.items@, pb, x);
                assert(p_maybe(a.tokens@, a.text@, a.token_i as int) == node(a.tokens@, ItemKind::MaybeExpr, a.token_i as int, c.token_i as int) + pb);
            }
        }
        Ok(())
    }

    /// Parses `else` clauses separated by `;`.
    #[verifier::rlimit(60)]
    #[verifier::spinoff_prover]
    fn parse_else_clauses(&mut self) -> (r: Result<(), ParseError>)
        requires
            old(self).wf(),
        ensures
            reads(g_clauses(old(self).tokens@, old(self).text@, old(self).token_i as int), r is Ok, final(self).token_i),
            old(self).keeps(*final(self)),
            r is Ok ==> old(self).built(*final(self)) && final(self).items@[old(self).items@.len() as int].kind == ItemKind::Clauses,
            r is Ok ==> final(self).items@ == old(self).items@ + p_clauses(old(self).tokens@, old(self).text@, old(self).token_i as int, true),
        decreases old(self).tokens@.len() - old(self).token_i, 6int,
    {
        let ghost a = *self;
        let (i, start) = self.span_start();
        self.parse_else_clause()?;
        let ghost c1 = self.token_i as int;
        while self.is_next_symbol(";")
            invariant
                g_clauses(a.tokens@, a.text@, a.token_i as int) == g_more_clauses(self.tokens@, self.text@, self.token_i as int),
                c1 == g_clause(a.tokens@, a.text@, a.token_i as int)->Some_0,
                after(a.tokens@, a.token_i as int, g_clause(a.tokens@, a.text@, a.token_i as int)),
                self.items@ + p_more_clauses(self.tokens@, self.text@, self.token_i as int, true)
                    == a.items@ + p_clause(a.tokens@, a.text@, a.token_i as int, true) + p_more_clauses(a.tokens@, a.text@, c1, true),
                self.wf(),
                a == *old(self),
                a.keeps(*self),
                self.token_i > a.token_i,
                i == a.items@.len(),
                start == a.tokens@[a.token_i as int].span.start,
            decreases self.tokens@.len() - self.token_i,
        {
            let ghost b = *self;
            let _ = self.next_token()?;
            self.parse_else_clause()?;
            assert(b.items@ + p_more_clauses(b.tokens@, b.text@, b.token_i as int, true)
                =~= self.items@ + p_more_clauses(self.tokens@, self.text@, self.token_i as int, true));
        }
        let ghost c = *self;
        let span = self.span_finish(start);
        self.insert_item(i, ItemKind::Clauses, span);
        proof {
            let p1 = p_clause(a.tokens@, a.text@, a.token_i as int, true);
            let p2 = p_more_clauses(a.tokens@, a.text@, c1, true);
            assert(p_more_clauses(c.tokens@, c.text@, c.token_i as int, true) == Seq::<Item>::empty());
            assert(c.items@ =~= a.items@ + p1 + p2);
            lemma_insert_node2(a.items@, p1, p2, Item { kind: ItemKind::Clauses, span });
            assert(span == hull(a.tokens@, a.token_i as int, c.token_i as int));
            assert(p_clauses(a.tokens@, a.text@, a.token_i as int, true) == node(a.tokens@, ItemKind::Clauses, a.token_i as int, c.token_i as int) + p1 + p2);
        }
        Ok(())
    }

    /// Parses an `else` clause: pattern, an empty guard, `->` and body.
    fn parse_else_clause(&mut self) -> (r: Result<(), ParseError>)
        requires
            old(self).wf(),
        ensures
            reads(g_clause(old(self).tokens@, old(self).text@, old(self).token_i as int), r is Ok, final(self).token_i),
            old(self).keeps(*final(self)),
            r is Ok ==> old(self).built(*final(self)) && final(self).items@[old(self).items@.len() as int].kind == ItemKind::ElseClause,
            r is Ok ==> final(self).items@ == old(self).items@ + p_clause(old(self).tokens@, old(self).text@, old(self).token_i as int, true),
        decreases old(self).tokens@.len() - old(self).token_i, 5int,
    {
        let ghost a = *self;
        let (i, start) = self.span_start();
        self.parse_pattern()?;
        let ghost e = self.token_i as int;
        let sp = self.next_empty_span();
        self.push_item(ItemKind::Guard, sp);
        self.expect_symbol("->")?;
        self.parse_body()?;
        let ghost c = *self;
        let span = self.span_finish(start);
        self.insert_item(i, ItemKind::ElseClause, span);
        proof {
            let pe = p_expr(a.tokens@, a.text@, a.token_i as int);
            let pg = seq![Item { kind: ItemKind::Guard, span: sp }];
            let pb = p_body(a.tokens@, a.text@, e + 1);
            lemma_insert_node3(a.items@, pe, pg, pb, Item { kind: ItemKind::ElseClause, span });
            assert(span == hull(a.tokens@, a.token_i as int, c.token_i as int));
            assert(p_clause(a.tokens@, a.text@, a.token_i as int, true) == node(a.tokens@, ItemKind::ElseClause, a.token_i as int, c.token_i as int) + pe + pg + pb);
        }
        Ok(())
    }

    /// Parses `case` expression `of` clauses `end`.
    #[verifier::rlimit(60)]
    #[verifier::spinoff_prover]
    fn parse_case(&mut self) -> (r: Result<(), ParseError>)
        requires
            old(self).wf(),
        ensures
            reads(g_case(old(self).tokens@, old(self).text@, old(self).token_i as int), r is Ok, final(self).token_i),
            old(self).keeps(*final(self)),
            r is Ok ==> old(self).built(*final(self)) && final(self).items@[old(self).items@.len() as int].kind == ItemKind::Case,
            r is Ok ==> final(self).items@ == old(self).items@ + p_case(old(self).tokens@, old(self).text@, old(self).token_i as int),
        decreases old(self).tokens@.len() - old(self).token_i, 0int,
    {
        let ghost a = *self;
        let (i, start) = self.span_start();
        self.expect_keyword("case")?;
        self.parse_expr()?;
        let ghost e1 = self.token_i as int;
        self.expect_keyword("of")?;
        self.parse_case_clauses()?;
        self.expect_keyword("end")?;
        let ghost c = *self;
        let span = self.span_finish(start);
        self.insert_item(i, ItemKind::Case, span);
        proof {
            let pe = p_expr(a.tokens@, a.text@, a.token_i + 1);
            let pc = p_clauses(a.tokens@, a.text@, e1 + 1, false);
            lemma_insert_node2(a.items@, pe, pc, Item { kind: ItemKind::Case, span });
            assert(span == hull(a.tokens@, a.token_i as int, c.token_i as int));
            assert(p_case(a.tokens@, a.text@, a.token_i as int) == node(a.tokens@, ItemKind::Case, a.token_i as int, c.token_i as int) + pe + pc);
        }
        Ok(())
    }

    /// Parses case clauses separated by `;`.
    #[verifier::rlimit(60)]
    #[verifier::spinoff_prover]
    fn parse_case_clauses(&mut self) -> (r: Result<(), ParseError>)
        requires
            old(self).wf(),
        ensures
            reads(g_clauses(old(self).tokens@, old(self).text@, old(self).token_i as int), r is Ok, final(self).token_i),
            old(self).keeps(*final(self)),
            r is Ok ==> old(self).built(*final(self)) && final(self).items@[old(self).items@.len() as int].kind == ItemKind::CaseClauses,
            r is Ok ==> final(self).items@ == old(self).items@ + p_clauses(old(self).tokens@, old(self).text@, old(self).token_i as int, false),
        decreases old(self).tokens@.len() - old(self).token_i, 6int,
    {
        let ghost a = *self;
        let (i, start) = self.span_start();
        self.parse_case_clause()?;
        let ghost c1 = self.token_i as int;
        while self.is_next_symbol(";")
            invariant
                g_clauses(a.tokens@, a.text@, a.token_i as int) == g_more_clauses(self.tokens@, self.text@, self.token_i as int),
                c1 == g_clause(a.tokens@, a.text@, a.token_i as int)->Some_0,
                after(a.tokens@, a.token_i as int, g_clause(a.tokens@, a.text@, a.token_i as int)),
                self.items@ + p_more_clauses(self.tokens@, self.text@, self.token_i as int, false)
                    == a.items@ + p_clause(a.tokens@, a.text@, a.token_i as int, false) + p_more_clauses(a.tokens@, a.text@, c1, false),
                self.wf(),
                a == *old(self),
                a.keeps(*self),
                self.token_i > a.token_i,
                i == a.items@.len(),
                start == a.tokens@[a.token_i as int].span.start,
            decreases self.tokens@.len() - self.token_i,
        {
            let ghost b = *self;
            let _ = self.next_token()?;
            self.parse_case_clause()?;
            assert(b.items@ + p_more_clauses(b.tokens@, b.text@, b.token_i as int, false)
                =~= self.items@ + p_more_clauses(self.tokens@, self.text@, self.token_i as int, false));
        }
        let ghost c = *self;
        let span = self.span_finish(start);
        self.insert_item(i, ItemKind::CaseClauses, span);
        proof {
            let p1 = p_clause(a.tokens@, a.text@, a.token_i as int, false);
            let p2 = p_more_clauses(a.tokens@, a.text@, c1, false);
            assert(p_more_clauses(c.tokens@, c.text@, c.token_i as int, false) == Seq::<Item>::empty());
            assert(c.items@ =~= a.items@ + p1 + p2);
            lemma_insert_node2(a.items@, p1, p2, Item { kind: ItemKind::CaseClauses, span });
            assert(span == hull(a.tokens@, a.token_i as int, c.token_i as int));
            assert(p_clauses(a.tokens@, a.text@, a.token_i as int, false) == node(a.tokens@, ItemKind::CaseClauses, a.token_i as int, c.token_i as int) + p1 + p2);
        }
        Ok(())
    }

    /// Parses a pattern, read as an expression.
    fn parse_pattern(&mut self) -> (r: Result<(), ParseError>)
        requires
            old(self).wf(),
        ensures
            reads(g_expr(old(self).tokens@, old(self).text@, old(self).token_i as int), r is Ok, final(self).token_i),
            old(self).keeps(*final(self)),
            r is Ok ==> old(self).built(*final(self)),
            r is Ok ==> final(self).items@ == old(self).items@ + p_expr(old(self).tokens@, old(self).text@, old(self).token_i as int),
        decreases old(self).tokens@.len() - old(self).token_i, 4int,
    {
        self.parse_expr()
    }

    /// Parses a case clause: pattern, an empty guard, `->` and body.
    fn parse_case_clause(&mut self) -> (r: Result<(), ParseError>)
        requires
            old(self).wf(),
        ensures
            reads(g_clause(old(self).tokens@, old(self).text@, old(self).token_i as int), r is Ok, final(self).token_i),
            old(self).keeps(*final(self)),
            r is Ok ==> old(self).built(*final(self)) && final(self).items@[old(self).items@.len() as int].kind == ItemKind::CaseClause,
            r is Ok ==> final(self).items@ == old(self).items@ + p_clause(old(self).tokens@, old(self).text@, old(self).token_i as int, false),
        decreases old(self).tokens@.len() - old(self).token_i, 5int,
    {
        let ghost a = *self;
        let (i, start) = self.span_start();
        self.parse_pattern()?;
        let ghost e = self.token_i as int;
        let sp = self.next_empty_span();
        self.push_item(ItemKind::Guard, sp);
        self.expect_symbol("->")?;
        self.parse_body()?;
        let ghost c = *self;
        let span = self.span_finish(start);
        self.insert_item(i, ItemKind::CaseClause, span);
        proof {
            let pe = p_expr(a.tokens@, a.text@, a.token_i as int);
            let pg = seq![Item { kind: ItemKind::Guard, span: sp }];
            let pb = p_body(a.tokens@, a.text@, e + 1);
            lemma_insert_node3(a.items@, pe, pg, pb, Item { kind: ItemKind::CaseClause, span });
            assert(span == hull(a.tokens@, a.token_i as int, c.token_i as int));
            assert(p_clause(a.tokens@, a.text@, a.token_i as int, false) == node(a.tokens@, ItemKind::CaseClause, a.token_i as int, c.token_i as int) + pe + pg + pb);
        }
        Ok(())
    }

    /// Parses a base expression: a literal, variable or atom token, or a
    /// `case`, `maybe`, tuple or binary.
    fn parse_base_expr_item(&mut self) -> (r: Result<(), ParseError>)
        requires
            old(self).wf(),
        ensures
            reads(g_base(old(self).tokens@, old(self).text@, old(self).token_i as int), r is Ok, final(self).token_i),
            old(self).keeps(*final(self)),
            r is Ok ==> old(self).built(*final(self)),
            r is Ok ==> final(self).items@ == old(self).items@ + p_base(old(self).tokens@, old(self).text@, old(self).token_i as int),
        decreases old(self).tokens@.len() - old(self).token_i, 1int,
    {
        let ghost a = *self;
        let t = self.next_token()?;
        match t.kind {
            TokenKind::Comment => {
                assert(false);
                return Ok(());
            },
            TokenKind::Integer => self.push_item(ItemKind::Integer, t.span),
            TokenKind::Atom => self.push_item(ItemKind::Atom, t.span),
            TokenKind::Variable => self.push_item(ItemKind::Variable, t.span),
            TokenKind::Float => self.push_item(ItemKind::Float, t.span),
            TokenKind::Char => self.push_item(ItemKind::Char, t.span),
            TokenKind::String => self.push_item(ItemKind::String, t.span),
            TokenKind::SigilString => self.push_item(ItemKind::SigilString, t.span),
            TokenKind::Keyword => {
                self.token_i -= 1;
                let word = t.text(self.text);
                if str_eq(word, "case") {
                    self.parse_case()?;
                } else if str_eq(word, "maybe") {
                    self.parse_maybe_expr()?;
                } else {
                    return Err(ParseError::new(self.next_span(), todo_message(word)));
                }
            },
            TokenKind::Symbol => {
                self.token_i -= 1;
                let sym = t.text(self.text);
                if str_eq(sym, "{") {
                    self.parse_tuple()?;
                } else if str_eq(sym, "<<") {
                    self.parse_binary()?;
                } else {
                    return Err(ParseError::new(self.next_span(), todo_message(sym)));
                }
            },
        }
        Ok(())
    }
}

} // verus!
