//! The token sequences the item parser accepts.
//!
//! Each `g_*` function reads the grammar token by token from position `k`
//! of `t`, whose spellings lie in the text `x`, choosing alternatives by the next
//! token as the parser does; it gives the position after what it read, or
//! `None` where the tokens do not fit. Every step reads at least one token
//! before it reads another construct at a later position.
//!
//! Each `p_*` function gives, for the same step, the items the parser
//! builds, in preorder: a node's item, then the items of its parts.
use crate::item::{Item, ItemKind, Span};
use crate::token::{is_binary_op_text, Token, TokenKind};
use vstd::prelude::*;

verus! {

/// The characters of the text `x` in the byte range `s`.
pub open spec fn span_chars(s: Span, x: Seq<char>) -> Seq<char> {
    vstd::utf8::decode_utf8(vstd::utf8::encode_utf8(x).subrange(s.start as int, s.end as int))
}

/// Token `k` exists, has kind `kind` and reads `name`.
pub open spec fn is_tok(t: Seq<Token>, x: Seq<char>, k: int, kind: TokenKind, name: Seq<char>) -> bool {
    &&& 0 <= k < t.len()
    &&& t[k].kind == kind
    &&& span_chars(t[k].span, x) == name
}

/// Token `k` is the symbol `name`.
pub open spec fn sym(t: Seq<Token>, x: Seq<char>, k: int, name: Seq<char>) -> bool {
    is_tok(t, x, k, TokenKind::Symbol, name)
}

/// Token `k` is the keyword `name`.
pub open spec fn kw(t: Seq<Token>, x: Seq<char>, k: int, name: Seq<char>) -> bool {
    is_tok(t, x, k, TokenKind::Keyword, name)
}

/// Token `k` is a binary operator.
pub open spec fn binop_at(t: Seq<Token>, x: Seq<char>, k: int) -> bool {
    &&& 0 <= k < t.len()
    &&& (t[k].kind == TokenKind::Symbol || t[k].kind == TokenKind::Keyword)
    &&& is_binary_op_text(span_chars(t[k].span, x))
}

/// `r` is a position after `k` inside the tokens.
pub open spec fn after(t: Seq<Token>, k: int, r: Option<int>) -> bool {
    r matches Some(e) && k < e <= t.len()
}

/// An expression: operands separated by binary operators.
pub open spec fn g_expr(t: Seq<Token>, x: Seq<char>, k: int) -> Option<int>
    decreases t.len() - k, 10int,
{
    if k < 0 || k >= t.len() {
        None
    } else if after(t, k, g_item(t, x, k)) {
        g_ops(t, x, g_item(t, x, k)->Some_0)
    } else {
        None
    }
}

/// More operators and operands, from `k` on.
pub open spec fn g_ops(t: Seq<Token>, x: Seq<char>, k: int) -> Option<int>
    decreases t.len() - k, 0int,
{
    if k < 0 || k > t.len() {
        None
    } else if binop_at(t, x, k) {
        if after(t, k + 1, g_item(t, x, k + 1)) {
            g_ops(t, x, g_item(t, x, k + 1)->Some_0)
        } else {
            None
        }
    } else {
        Some(k)
    }
}

/// An operand: a base expression, then a remote call, a call, a match or
/// a maybe-match.
pub open spec fn g_item(t: Seq<Token>, x: Seq<char>, k: int) -> Option<int>
    decreases t.len() - k, 9int,
{
    if k < 0 || k >= t.len() {
        None
    } else if after(t, k, g_base(t, x, k)) {
        let e = g_base(t, x, k)->Some_0;
        if sym(t, x, e, ":"@) {
            g_remote(t, x, e)
        } else if sym(t, x, e, "("@) {
            g_args(t, x, e)
        } else if sym(t, x, e, "="@) || sym(t, x, e, "?="@) {
            g_expr(t, x, e + 1)
        } else {
            Some(e)
        }
    } else {
        None
    }
}

/// `:` (token `k`), a function name and arguments.
pub open spec fn g_remote(t: Seq<Token>, x: Seq<char>, k: int) -> Option<int>
    decreases t.len() - k, 0int,
{
    if k < 0 || k >= t.len() {
        None
    } else if after(t, k + 1, g_base(t, x, k + 1)) {
        g_args(t, x, g_base(t, x, k + 1)->Some_0)
    } else {
        None
    }
}

/// A base expression: a literal, variable or atom token, a `case`, a
/// `maybe`, a tuple or a binary.
pub open spec fn g_base(t: Seq<Token>, x: Seq<char>, k: int) -> Option<int>
    decreases t.len() - k, 8int,
{
    if k < 0 || k >= t.len() {
        None
    } else {
        match t[k].kind {
            TokenKind::Comment => None,
            TokenKind::Keyword => if kw(t, x, k, "case"@) {
                g_case(t, x, k)
            } else if kw(t, x, k, "maybe"@) {
                g_maybe(t, x, k)
            } else {
                None
            },
            TokenKind::Symbol => if sym(t, x, k, "{"@) {
                g_tuple(t, x, k)
            } else if sym(t, x, k, "<<"@) {
                g_binary(t, x, k)
            } else {
                None
            },
            _ => Some(k + 1),
        }
    }
}

/// `case` expression `of` clauses `end`.
pub open spec fn g_case(t: Seq<Token>, x: Seq<char>, k: int) -> Option<int>
    decreases t.len() - k, 0int,
{
    if !kw(t, x, k, "case"@) || !after(t, k + 1, g_expr(t, x, k + 1)) {
        None
    } else {
        let e1 = g_expr(t, x, k + 1)->Some_0;
        if !kw(t, x, e1, "of"@) || !after(t, e1 + 1, g_clauses(t, x, e1 + 1)) {
            None
        } else {
            let e2 = g_clauses(t, x, e1 + 1)->Some_0;
            if kw(t, x, e2, "end"@) {
                Some(e2 + 1)
            } else {
                None
            }
        }
    }
}

/// Clauses separated by `;`.
pub open spec fn g_clauses(t: Seq<Token>, x: Seq<char>, k: int) -> Option<int>
    decreases t.len() - k, 13int,
{
    if k < 0 || k >= t.len() {
        None
    } else if after(t, k, g_clause(t, x, k)) {
        g_more_clauses(t, x, g_clause(t, x, k)->Some_0)
    } else {
        None
    }
}

/// More `;`-separated clauses, from `k` on.
pub open spec fn g_more_clauses(t: Seq<Token>, x: Seq<char>, k: int) -> Option<int>
    decreases t.len() - k, 0int,
{
    if k < 0 || k > t.len() {
        None
    } else if sym(t, x, k, ";"@) {
        if after(t, k + 1, g_clause(t, x, k + 1)) {
            g_more_clauses(t, x, g_clause(t, x, k + 1)->Some_0)
        } else {
            None
        }
    } else {
        Some(k)
    }
}

/// A clause: pattern, `->` and body.
pub open spec fn g_clause(t: Seq<Token>, x: Seq<char>, k: int) -> Option<int>
    decreases t.len() - k, 12int,
{
    if k < 0 || k >= t.len() || !after(t, k, g_expr(t, x, k)) {
        None
    } else {
        let e = g_expr(t, x, k)->Some_0;
        if sym(t, x, e, "->"@) {
            g_body(t, x, e + 1)
        } else {
            None
        }
    }
}

/// A body: expressions separated by `,`.
pub open spec fn g_body(t: Seq<Token>, x: Seq<char>, k: int) -> Option<int>
    decreases t.len() - k, 11int,
{
    if k < 0 || k >= t.len() {
        None
    } else if after(t, k, g_expr(t, x, k)) {
        g_more_body(t, x, g_expr(t, x, k)->Some_0)
    } else {
        None
    }
}

/// More `,`-separated expressions, from `k` on.
pub open spec fn g_more_body(t: Seq<Token>, x: Seq<char>, k: int) -> Option<int>
    decreases t.len() - k, 0int,
{
    if k < 0 || k > t.len() {
        None
    } else if sym(t, x, k, ","@) {
        if after(t, k + 1, g_expr(t, x, k + 1)) {
            g_more_body(t, x, g_expr(t, x, k + 1)->Some_0)
        } else {
            None
        }
    } else {
        Some(k)
    }
}

/// `maybe` body [`else` clauses] `end`.
pub open spec fn g_maybe(t: Seq<Token>, x: Seq<char>, k: int) -> Option<int>
    decreases t.len() - k, 0int,
{
    if !kw(t, x, k, "maybe"@) || !after(t, k + 1, g_body(t, x, k + 1)) {
        None
    } else {
        let e1 = g_body(t, x, k + 1)->Some_0;
        if kw(t, x, e1, "end"@) {
            Some(e1 + 1)
        } else if !kw(t, x, e1, "else"@) || !after(t, e1 + 1, g_clauses(t, x, e1 + 1)) {
            None
        } else {
            let e2 = g_clauses(t, x, e1 + 1)->Some_0;
            if kw(t, x, e2, "end"@) {
                Some(e2 + 1)
            } else {
                None
            }
        }
    }
}

/// `{`, expressions separated by `,`, `}`.
pub open spec fn g_tuple(t: Seq<Token>, x: Seq<char>, k: int) -> Option<int>
    decreases t.len() - k, 0int,
{
    if sym(t, x, k, "{"@) {
        g_elems(t, x, k + 1, "}"@)
    } else {
        None
    }
}

/// Elements up to the closing `close`, from `k` on, a `,` after each but
/// the last: none, when `close` comes first.
pub open spec fn g_elems(t: Seq<Token>, x: Seq<char>, k: int, close: Seq<char>) -> Option<int>
    decreases t.len() - k, 11int,
{
    if k < 0 || k >= t.len() {
        None
    } else if sym(t, x, k, close) {
        Some(k + 1)
    } else if after(t, k, g_expr(t, x, k)) {
        g_elem_tail(t, x, g_expr(t, x, k)->Some_0, close)
    } else {
        None
    }
}

/// After an element: `,` and more elements, or the closing `close`.
pub open spec fn g_elem_tail(t: Seq<Token>, x: Seq<char>, k: int, close: Seq<char>) -> Option<int>
    decreases t.len() - k, 0int,
{
    if k < 0 || k >= t.len() {
        None
    } else if sym(t, x, k, ","@) {
        g_elems(t, x, k + 1, close)
    } else if sym(t, x, k, close) {
        Some(k + 1)
    } else {
        None
    }
}

/// `(`, expressions separated by `,`, `)`.
pub open spec fn g_args(t: Seq<Token>, x: Seq<char>, k: int) -> Option<int>
    decreases t.len() - k, 0int,
{
    if !sym(t, x, k, "("@) {
        None
    } else if sym(t, x, k + 1, ")"@) {
        Some(k + 2)
    } else {
        g_arg_list(t, x, k + 1)
    }
}

/// Arguments from `k` on, a `,` after each but the last, then `)`.
pub open spec fn g_arg_list(t: Seq<Token>, x: Seq<char>, k: int) -> Option<int>
    decreases t.len() - k, 11int,
{
    if k < 0 || k >= t.len() || !after(t, k, g_expr(t, x, k)) {
        None
    } else {
        let e = g_expr(t, x, k)->Some_0;
        if sym(t, x, e, ","@) {
            g_arg_list(t, x, e + 1)
        } else if sym(t, x, e, ")"@) {
            Some(e + 1)
        } else {
            None
        }
    }
}

/// `<<` (token `k`) and every token up to the `>>` that closes it, nested
/// `<<` `>>` pairs included.
pub open spec fn g_binary(t: Seq<Token>, x: Seq<char>, k: int) -> Option<int> {
    if sym(t, x, k, "<<"@) {
        g_binary_rest(t, x, k + 1, 1)
    } else {
        None
    }
}

/// The tokens from `k` on of a binary with `level` pairs open.
pub open spec fn g_binary_rest(t: Seq<Token>, x: Seq<char>, k: int, level: nat) -> Option<int>
    decreases t.len() - k,
{
    if level == 0 {
        Some(k)
    } else if k < 0 || k >= t.len() {
        None
    } else if sym(t, x, k, "<<"@) {
        g_binary_rest(t, x, k + 1, level + 1)
    } else if sym(t, x, k, ">>"@) {
        g_binary_rest(t, x, k + 1, (level - 1) as nat)
    } else {
        g_binary_rest(t, x, k + 1, level)
    }
}

/// An attribute: `-` and every token up to and including the next `.`.
pub open spec fn g_attr(t: Seq<Token>, x: Seq<char>, k: int) -> Option<int> {
    if sym(t, x, k, "-"@) {
        g_attr_rest(t, x, k + 1)
    } else {
        None
    }
}

/// The tokens of an attribute from `k` on, up to and including `.`.
pub open spec fn g_attr_rest(t: Seq<Token>, x: Seq<char>, k: int) -> Option<int>
    decreases t.len() - k,
{
    if k < 0 || k >= t.len() {
        None
    } else if sym(t, x, k, "."@) {
        Some(k + 1)
    } else {
        g_attr_rest(t, x, k + 1)
    }
}

/// A guard: `when` and a body, or nothing.
pub open spec fn g_guard(t: Seq<Token>, x: Seq<char>, k: int) -> Option<int> {
    if kw(t, x, k, "when"@) {
        g_body(t, x, k + 1)
    } else {
        Some(k)
    }
}

/// A function clause: name atom, arguments, guard, `->` and body.
pub open spec fn g_fun_clause(t: Seq<Token>, x: Seq<char>, k: int) -> Option<int> {
    if !(0 <= k < t.len() && t[k].kind == TokenKind::Atom) || !after(t, k + 1, g_args(t, x, k + 1)) {
        None
    } else {
        let e1 = g_args(t, x, k + 1)->Some_0;
        match g_guard(t, x, e1) {
            Some(e2) => if sym(t, x, e2, "->"@) {
                g_body(t, x, e2 + 1)
            } else {
                None
            },
            None => None,
        }
    }
}

/// More `;`-separated function clauses from `k` on, then `.`.
pub open spec fn g_fun_clauses_rest(t: Seq<Token>, x: Seq<char>, k: int) -> Option<int>
    decreases t.len() - k,
{
    if k < 0 || k >= t.len() {
        None
    } else if sym(t, x, k, ";"@) {
        if after(t, k + 1, g_fun_clause(t, x, k + 1)) {
            g_fun_clauses_rest(t, x, g_fun_clause(t, x, k + 1)->Some_0)
        } else {
            None
        }
    } else if sym(t, x, k, "."@) {
        Some(k + 1)
    } else {
        None
    }
}

/// A function declaration: clauses separated by `;`, then `.`.
pub open spec fn g_fun_decl(t: Seq<Token>, x: Seq<char>, k: int) -> Option<int> {
    if after(t, k, g_fun_clause(t, x, k)) {
        g_fun_clauses_rest(t, x, g_fun_clause(t, x, k)->Some_0)
    } else {
        None
    }
}

/// Forms from `k` to the end: attributes and function declarations.
pub open spec fn g_forms(t: Seq<Token>, x: Seq<char>, k: int) -> bool
    decreases t.len() - k,
{
    if k < 0 || k > t.len() {
        false
    } else if k == t.len() {
        true
    } else if sym(t, x, k, "-"@) {
        after(t, k, g_attr(t, x, k)) && g_forms(t, x, g_attr(t, x, k)->Some_0)
    } else {
        after(t, k, g_fun_decl(t, x, k)) && g_forms(t, x, g_fun_decl(t, x, k)->Some_0)
    }
}

/// The range from the start of token `a` to the end of token `b - 1`.
pub open spec fn hull(t: Seq<Token>, a: int, b: int) -> Span {
    Span { start: t[a].span.start, end: t[b - 1].span.end }
}

/// A node item of kind `kind` over tokens `a` to `b - 1`.
pub open spec fn node(t: Seq<Token>, kind: ItemKind, a: int, b: int) -> Seq<Item> {
    seq![Item { kind, span: hull(t, a, b) }]
}

/// The item kind of a literal, variable or atom token.
pub open spec fn leaf_kind(k: TokenKind) -> ItemKind {
    match k {
        TokenKind::Integer => ItemKind::Integer,
        TokenKind::Atom => ItemKind::Atom,
        TokenKind::Variable => ItemKind::Variable,
        TokenKind::Float => ItemKind::Float,
        TokenKind::Char => ItemKind::Char,
        TokenKind::String => ItemKind::String,
        _ => ItemKind::SigilString,
    }
}

/// The items of an expression: its operands and operators, under a
/// `BinaryOpExprs` item when there is an operator.
pub open spec fn p_expr(t: Seq<Token>, x: Seq<char>, k: int) -> Seq<Item>
    decreases t.len() - k, 10int,
{
    if k < 0 || k >= t.len() {
        Seq::empty()
    } else if after(t, k, g_item(t, x, k)) {
        let e1 = g_item(t, x, k)->Some_0;
        let flat = p_item(t, x, k) + p_ops(t, x, e1);
        if binop_at(t, x, e1) {
            node(t, ItemKind::BinaryOpExprs, k, g_expr(t, x, k)->Some_0) + flat
        } else {
            flat
        }
    } else {
        Seq::empty()
    }
}

/// The items of the operators and operands from `k` on.
pub open spec fn p_ops(t: Seq<Token>, x: Seq<char>, k: int) -> Seq<Item>
    decreases t.len() - k, 0int,
{
    if k < 0 || k > t.len() {
        Seq::empty()
    } else if binop_at(t, x, k) && after(t, k + 1, g_item(t, x, k + 1)) {
        seq![Item { kind: ItemKind::BinaryOp, span: t[k].span }] + p_item(t, x, k + 1) + p_ops(t, x, g_item(t, x, k + 1)->Some_0)
    } else {
        Seq::empty()
    }
}

/// The items of an operand: a remote call, call, match or maybe-match item
/// in front of the base expression's items and those of what follows it.
pub open spec fn p_item(t: Seq<Token>, x: Seq<char>, k: int) -> Seq<Item>
    decreases t.len() - k, 9int,
{
    if k < 0 || k >= t.len() {
        Seq::empty()
    } else if after(t, k, g_base(t, x, k)) {
        let e = g_base(t, x, k)->Some_0;
        let end = g_item(t, x, k)->Some_0;
        if sym(t, x, e, ":"@) {
            if after(t, e + 1, g_base(t, x, e + 1)) {
                node(t, ItemKind::ModuleFunCall, k, end) + p_base(t, x, k) + p_base(t, x, e + 1)
                    + p_args(t, x, g_base(t, x, e + 1)->Some_0)
            } else {
                Seq::empty()
            }
        } else if sym(t, x, e, "("@) {
            node(t, ItemKind::FunCall, k, end) + p_base(t, x, k) + p_args(t, x, e)
        } else if sym(t, x, e, "="@) {
            node(t, ItemKind::Match, k, end) + p_base(t, x, k) + p_expr(t, x, e + 1)
        } else if sym(t, x, e, "?="@) {
            node(t, ItemKind::MaybeMatch, k, end) + p_base(t, x, k) + p_expr(t, x, e + 1)
        } else {
            p_base(t, x, k)
        }
    } else {
        Seq::empty()
    }
}

/// The items of a base expression: one item for a literal, variable or atom
/// token or a binary; a `case`, `maybe` or tuple node's items otherwise.
pub open spec fn p_base(t: Seq<Token>, x: Seq<char>, k: int) -> Seq<Item>
    decreases t.len() - k, 8int,
{
    if k < 0 || k >= t.len() {
        Seq::empty()
    } else {
        match t[k].kind {
            TokenKind::Comment => Seq::empty(),
            TokenKind::Keyword => if kw(t, x, k, "case"@) {
                p_case(t, x, k)
            } else if kw(t, x, k, "maybe"@) {
                p_maybe(t, x, k)
            } else {
                Seq::empty()
            },
            TokenKind::Symbol => if sym(t, x, k, "{"@) {
                p_tuple(t, x, k)
            } else if sym(t, x, k, "<<"@) {
                node(t, ItemKind::Binary, k, g_binary(t, x, k)->Some_0)
            } else {
                Seq::empty()
            },
            _ => seq![Item { kind: leaf_kind(t[k].kind), span: t[k].span }],
        }
    }
}

/// The items of a `case` expression.
pub open spec fn p_case(t: Seq<Token>, x: Seq<char>, k: int) -> Seq<Item>
    decreases t.len() - k, 0int,
{
    if !kw(t, x, k, "case"@) || !after(t, k + 1, g_expr(t, x, k + 1)) {
        Seq::empty()
    } else {
        let e1 = g_expr(t, x, k + 1)->Some_0;
        if !kw(t, x, e1, "of"@) || !after(t, e1 + 1, g_clauses(t, x, e1 + 1)) {
            Seq::empty()
        } else {
            let e2 = g_clauses(t, x, e1 + 1)->Some_0;
            if kw(t, x, e2, "end"@) {
                node(t, ItemKind::Case, k, e2 + 1) + p_expr(t, x, k + 1) + p_clauses(t, x, e1 + 1, false)
            } else {
                Seq::empty()
            }
        }
    }
}

/// The items of clauses: `Clauses` over `else` clauses when `alt`,
/// `CaseClauses` over case clauses otherwise.
pub open spec fn p_clauses(t: Seq<Token>, x: Seq<char>, k: int, alt: bool) -> Seq<Item>
    decreases t.len() - k, 13int,
{
    if k < 0 || k >= t.len() {
        Seq::empty()
    } else if after(t, k, g_clause(t, x, k)) {
        node(t, if alt { ItemKind::Clauses } else { ItemKind::CaseClauses }, k, g_clauses(t, x, k)->Some_0)
            + p_clause(t, x, k, alt) + p_more_clauses(t, x, g_clause(t, x, k)->Some_0, alt)
    } else {
        Seq::empty()
    }
}

/// The items of the further `;`-separated clauses from `k` on.
pub open spec fn p_more_clauses(t: Seq<Token>, x: Seq<char>, k: int, alt: bool) -> Seq<Item>
    decreases t.len() - k, 0int,
{
    if k < 0 || k > t.len() {
        Seq::empty()
    } else if sym(t, x, k, ";"@) && after(t, k + 1, g_clause(t, x, k + 1)) {
        p_clause(t, x, k + 1, alt) + p_more_clauses(t, x, g_clause(t, x, k + 1)->Some_0, alt)
    } else {
        Seq::empty()
    }
}

/// The items of a clause: the clause item, the pattern's items, an empty
/// `Guard` where `->` starts, and the body's items.
pub open spec fn p_clause(t: Seq<Token>, x: Seq<char>, k: int, alt: bool) -> Seq<Item>
    decreases t.len() - k, 12int,
{
    if k < 0 || k >= t.len() || !after(t, k, g_expr(t, x, k)) {
        Seq::empty()
    } else {
        let e = g_expr(t, x, k)->Some_0;
        if sym(t, x, e, "->"@) {
            node(t, if alt { ItemKind::ElseClause } else { ItemKind::CaseClause }, k, g_clause(t, x, k)->Some_0)
                + p_expr(t, x, k)
                + seq![Item { kind: ItemKind::Guard, span: Span { start: t[e].span.start, end: t[e].span.start } }]
                + p_body(t, x, e + 1)
        } else {
            Seq::empty()
        }
    }
}

/// The items of a body: the `Body` item and those of its expressions.
pub open spec fn p_body(t: Seq<Token>, x: Seq<char>, k: int) -> Seq<Item>
    decreases t.len() - k, 11int,
{
    if k < 0 || k >= t.len() {
        Seq::empty()
    } else if after(t, k, g_expr(t, x, k)) {
        node(t, ItemKind::Body, k, g_body(t, x, k)->Some_0) + p_expr(t, x, k) + p_more_body(t, x, g_expr(t, x, k)->Some_0)
    } else {
        Seq::empty()
    }
}

/// The items of the further `,`-separated expressions from `k` on.
pub open spec fn p_more_body(t: Seq<Token>, x: Seq<char>, k: int) -> Seq<Item>
    decreases t.len() - k, 0int,
{
    if k < 0 || k > t.len() {
        Seq::empty()
    } else if sym(t, x, k, ","@) && after(t, k + 1, g_expr(t, x, k + 1)) {
        p_expr(t, x, k + 1) + p_more_body(t, x, g_expr(t, x, k + 1)->Some_0)
    } else {
        Seq::empty()
    }
}

/// The items of a `maybe` expression.
pub open spec fn p_maybe(t: Seq<Token>, x: Seq<char>, k: int) -> Seq<Item>
    decreases t.len() - k, 0int,
{
    if !kw(t, x, k, "maybe"@) || !after(t, k + 1, g_body(t, x, k + 1)) {
        Seq::empty()
    } else {
        let e1 = g_body(t, x, k + 1)->Some_0;
        if kw(t, x, e1, "end"@) {
            node(t, ItemKind::MaybeExpr, k, e1 + 1) + p_body(t, x, k + 1)
        } else if !kw(t, x, e1, "else"@) || !after(t, e1 + 1, g_clauses(t, x, e1 + 1)) {
            Seq::empty()
        } else {
            let e2 = g_clauses(t, x, e1 + 1)->Some_0;
            if kw(t, x, e2, "end"@) {
                node(t, ItemKind::MaybeExpr, k, e2 + 1) + p_body(t, x, k + 1) + p_clauses(t, x, e1 + 1, true)
            } else {
                Seq::empty()
            }
        }
    }
}

/// The items of a tuple.
pub open spec fn p_tuple(t: Seq<Token>, x: Seq<char>, k: int) -> Seq<Item>
    decreases t.len() - k, 0int,
{
    if sym(t, x, k, "{"@) {
        node(t, ItemKind::Tuple, k, g_tuple(t, x, k)->Some_0) + p_elems(t, x, k + 1, "}"@)
    } else {
        Seq::empty()
    }
}

/// The items of the elements from `k` on.
pub open spec fn p_elems(t: Seq<Token>, x: Seq<char>, k: int, close: Seq<char>) -> Seq<Item>
    decreases t.len() - k, 11int,
{
    if k < 0 || k >= t.len() || sym(t, x, k, close) {
        Seq::empty()
    } else if after(t, k, g_expr(t, x, k)) {
        p_expr(t, x, k) + p_elem_tail(t, x, g_expr(t, x, k)->Some_0, close)
    } else {
        Seq::empty()
    }
}

/// The items of the elements after a `,` at `k`.
pub open spec fn p_elem_tail(t: Seq<Token>, x: Seq<char>, k: int, close: Seq<char>) -> Seq<Item>
    decreases t.len() - k, 0int,
{
    if k < 0 || k >= t.len() {
        Seq::empty()
    } else if sym(t, x, k, ","@) {
        p_elems(t, x, k + 1, close)
    } else {
        Seq::empty()
    }
}

/// The items of an argument list: the `Args` item and those of the
/// arguments.
pub open spec fn p_args(t: Seq<Token>, x: Seq<char>, k: int) -> Seq<Item>
    decreases t.len() - k, 0int,
{
    if !sym(t, x, k, "("@) {
        Seq::empty()
    } else {
        node(t, ItemKind::Args, k, g_args(t, x, k)->Some_0) + if sym(t, x, k + 1, ")"@) {
            Seq::empty()
        } else {
            p_arg_list(t, x, k + 1)
        }
    }
}

/// The items of the arguments from `k` on.
pub open spec fn p_arg_list(t: Seq<Token>, x: Seq<char>, k: int) -> Seq<Item>
    decreases t.len() - k, 11int,
{
    if k < 0 || k >= t.len() || !after(t, k, g_expr(t, x, k)) {
        Seq::empty()
    } else {
        let e = g_expr(t, x, k)->Some_0;
        if sym(t, x, e, ","@) {
            p_expr(t, x, k) + p_arg_list(t, x, e + 1)
        } else {
            p_expr(t, x, k)
        }
    }
}

/// The items of a guard that starts at token `k`: a `Guard` item over
/// `when` and its body, or an empty `Guard` where token `k` starts.
pub open spec fn p_guard(t: Seq<Token>, x: Seq<char>, k: int) -> Seq<Item> {
    if kw(t, x, k, "when"@) {
        node(t, ItemKind::Guard, k, g_guard(t, x, k)->Some_0) + p_body(t, x, k + 1)
    } else {
        seq![Item { kind: ItemKind::Guard, span: Span { start: t[k].span.start, end: t[k].span.start } }]
    }
}

/// The items of a function clause: the clause item, the name atom, the
/// arguments, the guard and the body.
pub open spec fn p_fun_clause(t: Seq<Token>, x: Seq<char>, k: int) -> Seq<Item> {
    if !(0 <= k < t.len() && t[k].kind == TokenKind::Atom) || !after(t, k + 1, g_args(t, x, k + 1)) {
        Seq::empty()
    } else {
        let e1 = g_args(t, x, k + 1)->Some_0;
        node(t, ItemKind::FunClause, k, g_fun_clause(t, x, k)->Some_0)
            + seq![Item { kind: ItemKind::Atom, span: t[k].span }]
            + p_args(t, x, k + 1) + p_guard(t, x, e1) + p_body(t, x, g_guard(t, x, e1)->Some_0 + 1)
    }
}

/// The items of the further function clauses from `k` on.
pub open spec fn p_fun_clauses_rest(t: Seq<Token>, x: Seq<char>, k: int) -> Seq<Item>
    decreases t.len() - k,
{
    if k < 0 || k >= t.len() {
        Seq::empty()
    } else if sym(t, x, k, ";"@) && after(t, k + 1, g_fun_clause(t, x, k + 1)) {
        p_fun_clause(t, x, k + 1) + p_fun_clauses_rest(t, x, g_fun_clause(t, x, k + 1)->Some_0)
    } else {
        Seq::empty()
    }
}

/// The items of a function declaration: the `FunDecl` item and those of
/// its clauses.
pub open spec fn p_fun_decl(t: Seq<Token>, x: Seq<char>, k: int) -> Seq<Item> {
    if after(t, k, g_fun_clause(t, x, k)) {
        node(t, ItemKind::FunDecl, k, g_fun_decl(t, x, k)->Some_0) + p_fun_clause(t, x, k)
            + p_fun_clauses_rest(t, x, g_fun_clause(t, x, k)->Some_0)
    } else {
        Seq::empty()
    }
}

/// The items of the forms from `k` to the end.
pub open spec fn p_forms(t: Seq<Token>, x: Seq<char>, k: int) -> Seq<Item>
    decreases t.len() - k,
{
    if k < 0 || k >= t.len() {
        Seq::empty()
    } else if sym(t, x, k, "-"@) {
        if after(t, k, g_attr(t, x, k)) {
            node(t, ItemKind::Attr, k, g_attr(t, x, k)->Some_0) + p_forms(t, x, g_attr(t, x, k)->Some_0)
        } else {
            Seq::empty()
        }
    } else if after(t, k, g_fun_decl(t, x, k)) {
        p_fun_decl(t, x, k) + p_forms(t, x, g_fun_decl(t, x, k)->Some_0)
    } else {
        Seq::empty()
    }
}

/// Inserting `x` where the items after `a` start puts it in front of them.
pub proof fn lemma_insert_node1(a: Seq<Item>, b: Seq<Item>, x: Item)
    ensures
        (a + b).insert(a.len() as int, x) == a + (seq![x] + b),
{
    assert((a + b).insert(a.len() as int, x) =~= a + (seq![x] + b));
}

/// See [`lemma_insert_node1`], with the items after `a` in two parts.
pub proof fn lemma_insert_node2(a: Seq<Item>, b: Seq<Item>, c: Seq<Item>, x: Item)
    ensures
        (a + b + c).insert(a.len() as int, x) == a + (seq![x] + b + c),
{
    assert((a + b + c).insert(a.len() as int, x) =~= a + (seq![x] + b + c));
}

/// See [`lemma_insert_node1`], with the items after `a` in three parts.
pub proof fn lemma_insert_node3(a: Seq<Item>, b: Seq<Item>, c: Seq<Item>, d: Seq<Item>, x: Item)
    ensures
        (a + b + c + d).insert(a.len() as int, x) == a + (seq![x] + b + c + d),
{
    assert((a + b + c + d).insert(a.len() as int, x) =~= a + (seq![x] + b + c + d));
}

/// See [`lemma_insert_node1`], with the items after `a` in four parts.
pub proof fn lemma_insert_node4(a: Seq<Item>, b: Seq<Item>, c: Seq<Item>, d: Seq<Item>, e: Seq<Item>, x: Item)
    ensures
        (a + b + c + d + e).insert(a.len() as int, x) == a + (seq![x] + b + c + d + e),
{
    assert((a + b + c + d + e).insert(a.len() as int, x) =~= a + (seq![x] + b + c + d + e));
}

/// Inserting `x` where `b` starts, then appending `c`.
pub proof fn lemma_insert_then(a: Seq<Item>, b: Seq<Item>, c: Seq<Item>, x: Item)
    ensures
        (a + b).insert(a.len() as int, x) + c == a + (seq![x] + b + c),
{
    assert((a + b).insert(a.len() as int, x) + c =~= a + (seq![x] + b + c));
}

} // verus!
