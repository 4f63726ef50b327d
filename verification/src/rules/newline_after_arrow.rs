//! `newline_after_arrow` lint: require a newline after clause `->`.
use crate::context::{
    first_child_of_kind, has_newline, lemma_hull_fits, newline_in, range_span, spans_fit, tok_span,
    BranchContext, Context,
};
use crate::span::{opt_seq, Finding};
use crate::syntax::{
    children_of, lemma_jump, lemma_node, lemma_reached_here, lemma_step, reached, skips_closed,
    SyntaxKind, SyntaxNode, TokenRange,
};
use vstd::prelude::*;
use vstd::string::StringSliceAdditionalSpecFns;

verus! {

/// The original file's bytes.
pub open spec fn text_bytes(ctx: Context) -> Seq<u8> {
    vstd::utf8::encode_utf8(ctx.text@)
}

/// A `fun` expression written on one line is not entered.
pub open spec fn skip(ctx: Context, b: BranchContext) -> spec_fn(int) -> bool {
    |k: int| {
        let n = b.tree.nodes@[k];
        &&& (n.kind == SyntaxKind::AnonymousFun || n.kind == SyntaxKind::NamedFun)
        &&& range_span(b.source_tokens@, TokenRange { start: n.start, end: n.end }) matches Some(s)
        &&& !has_newline(text_bytes(ctx), s.start as int, s.end as int)
    }
}

/// The kinds of clause whose `->` is checked.
pub open spec fn is_clause_kind(k: SyntaxKind) -> bool {
    ||| k == SyntaxKind::FunctionClause || k == SyntaxKind::Clause || k == SyntaxKind::IfClause
    ||| k == SyntaxKind::CatchClause || k == SyntaxKind::ReceiveAfterSection
}

/// The finding for node `j`: a clause whose body follows its `->` on the
/// same line, the `->` written in the file itself; reported at the `->`.
pub open spec fn finding_at(ctx: Context, b: BranchContext, j: int) -> Option<Finding> {
    let nodes = b.tree.nodes@;
    let toks = b.source_tokens@;
    let cs = children_of(nodes, j);
    let k = first_child_of_kind(nodes, cs, SyntaxKind::Body, 0);
    if reached(nodes, skip(ctx, b), j) && is_clause_kind(nodes[j].kind) && k < cs.len() {
        let body = nodes[cs[k]];
        let first = body.start as int;
        let arrow = first - 1;
        if first < body.end && first < toks.len() && first > 0 && toks[arrow].text@ == "->"@
            && toks[arrow].from_source {
            match (tok_span(toks, arrow), tok_span(toks, first)) {
                (Some(a), Some(bs)) => if bs.start >= a.end && !has_newline(text_bytes(ctx), a.end as int, bs.start as int) {
                    Some(Finding { span: a, node: j as usize })
                } else {
                    None
                },
                _ => None,
            }
        } else {
            None
        }
    } else {
        None
    }
}

/// The findings for the first `n` nodes, in preorder.
pub open spec fn findings(ctx: Context, b: BranchContext, n: int) -> Seq<Finding>
    decreases n,
{
    if n <= 0 {
        Seq::empty()
    } else {
        findings(ctx, b, n - 1) + opt_seq(finding_at(ctx, b, n - 1))
    }
}

/// Nodes that are not reached add no findings.
proof fn lemma_unreached(ctx: Context, b: BranchContext, i: int, e: int)
    requires
        0 <= i <= e,
        forall|j: int| i <= j < e ==> !#[trigger] reached(b.tree.nodes@, skip(ctx, b), j),
    ensures
        findings(ctx, b, e) == findings(ctx, b, i),
    decreases e - i,
{
    if e > i {
        lemma_unreached(ctx, b, i, e - 1);
        assert(!reached(b.tree.nodes@, skip(ctx, b), e - 1));
        assert(findings(ctx, b, e) =~= findings(ctx, b, e - 1));
    }
}

/// Whether node `i` is a `fun` written on one line; see [`skip`].
fn one_line_fun(ctx: &Context, branch: &BranchContext, i: usize) -> (r: bool)
    requires
        i < branch.tree.nodes@.len(),
        spans_fit(branch.source_tokens@, text_bytes(*ctx)),
    ensures
        r == skip(*ctx, *branch)(i as int),
{
    let n = branch.tree.nodes[i];
    if n.kind != SyntaxKind::AnonymousFun && n.kind != SyntaxKind::NamedFun {
        return false;
    }
    match branch.span_of_range(TokenRange { start: n.start, end: n.end }) {
        None => false,
        Some(s) => {
            proof {
                if n.end > n.start {
                    lemma_hull_fits(branch.source_tokens@, n.start as int, n.end as int, text_bytes(*ctx));
                } else if n.start > 0 {
                    assert(crate::context::opt_fits(tok_span(branch.source_tokens@, n.start - 1), text_bytes(*ctx)));
                }
            }
            !newline_in(ctx.text.as_str(), s.start, s.end)
        },
    }
}

/// The finding for a reached node `j`; see [`finding_at`].
fn check_node(ctx: &Context, branch: &BranchContext, j: usize) -> (f: Option<Finding>)
    requires
        ctx.branch_ok(*branch),
        j < branch.tree.nodes@.len(),
        reached(branch.tree.nodes@, skip(*ctx, *branch), j as int),
    ensures
        f == finding_at(*ctx, *branch, j as int),
{
    let nodes = &branch.tree.nodes;
    let ghost n_tokens = branch.source_tokens@.len();
    let toks = &branch.source_tokens;
    let kind = nodes[j].kind;
    if !(kind == SyntaxKind::FunctionClause || kind == SyntaxKind::Clause || kind == SyntaxKind::IfClause
        || kind == SyntaxKind::CatchClause || kind == SyntaxKind::ReceiveAfterSection) {
        return None;
    }
    let cs = branch.tree.children(j, Ghost(n_tokens));
    proof {
        lemma_node(nodes@, n_tokens, j as int);
    }
    let mut k: usize = 0;
    while k < cs.len() && nodes[cs[k]].kind != SyntaxKind::Body
        invariant
            k <= cs@.len(),
            nodes == &branch.tree.nodes,
            forall|m: int| 0 <= m < cs@.len() ==> j < #[trigger] cs@[m] < nodes@[j as int].subtree_end,
            nodes@[j as int].subtree_end <= nodes@.len(),
            first_child_of_kind(nodes@, children_of(nodes@, j as int), SyntaxKind::Body, 0)
                == first_child_of_kind(nodes@, children_of(nodes@, j as int), SyntaxKind::Body, k as int),
            cs@.map_values(|c: usize| c as int) == children_of(nodes@, j as int),
        decreases cs@.len() - k,
    {
        assert(cs@[k as int] as int == children_of(nodes@, j as int)[k as int]);
        k += 1;
    }
    if k >= cs.len() {
        return None;
    }
    assert(cs@[k as int] as int == children_of(nodes@, j as int)[k as int]);
    let body = nodes[cs[k]];
    let first = body.start;
    if !(first < body.end && first < toks.len() && first > 0) {
        return None;
    }
    let arrow = first - 1;
    if !crate::text::str_eq(toks[arrow].text.as_str(), "->") || !toks[arrow].from_source {
        return None;
    }
    let a = match branch.span_of_token(arrow) {
        Some(a) => a,
        None => return None,
    };
    let bs = match branch.span_of_token(first) {
        Some(bs) => bs,
        None => return None,
    };
    if bs.start < a.end {
        return None;
    }
    proof {
        assert(crate::context::opt_fits(tok_span(toks@, arrow as int), text_bytes(*ctx)));
        assert(crate::context::opt_fits(tok_span(toks@, first as int), text_bytes(*ctx)));
    }
    if newline_in(ctx.text.as_str(), a.end, bs.start) {
        None
    } else {
        Some(Finding { span: a, node: j })
    }
}

/// Flags a clause `->` with no newline before the body.
pub fn check(ctx: &Context, branch: &BranchContext) -> (fs: Vec<Finding>)
    requires
        ctx.branch_ok(*branch),
    ensures
        fs@ == findings(*ctx, *branch, branch.tree.nodes@.len() as int),
{
    let nodes = &branch.tree.nodes;
    let ghost n_tokens = branch.source_tokens@.len();
    let ghost sk = skip(*ctx, *branch);
    let mut errors: Vec<Finding> = Vec::new();
    let mut i: usize = 0;
    while i < nodes.len()
        invariant
            ctx.branch_ok(*branch),
            nodes == &branch.tree.nodes,
            n_tokens == branch.source_tokens@.len(),
            sk == skip(*ctx, *branch),
            i <= nodes@.len(),
            skips_closed(nodes@, sk, i as int),
            errors@ == findings(*ctx, *branch, i as int),
        decreases nodes@.len() - i,
    {
        proof {
            lemma_node(nodes@, n_tokens, i as int);
            lemma_reached_here(nodes@, n_tokens, sk, i as int);
        }
        if one_line_fun(ctx, branch, i) {
            proof {
                lemma_jump(nodes@, n_tokens, sk, i as int);
                lemma_unreached(*ctx, *branch, i as int, nodes@[i as int].subtree_end as int);
            }
            i = nodes[i].subtree_end;
        } else {
            if let Some(x) = check_node(ctx, branch, i) {
                errors.push(x);
            }
            proof {
                lemma_step(nodes@, sk, i as int);
            }
            i += 1;
            assert(errors@ =~= findings(*ctx, *branch, i as int));
        }
    }
    errors
}

/// The rule's description.
pub const TEXT: &'static str = "# `newline_after_arrow`

Require a newline immediately after `->` in clause bodies.

## What it does

This rule reports a `->` that introduces a clause body when the original
source between that arrow and the first lexical token of the body contains
no newline.

It applies to:

- function clauses
- `case` / `receive` / `fun` / `maybe else` / pattern-only `try catch` clauses
- `if` clauses
- class-qualified `try catch` clauses
- `receive after` sections

It does not report:

- a `->` that already has a newline before the body (including `-> % note`
  followed by a newline, \x74hen the body)
- `->` in `-spec` / `-callback` payloads or other attribute payloads
- type `fun((...) -> ...)` arrows
- map `=>` and `maybe` `?=`
- `->` tokens that did not originate in the source file (macro expansion)
- a `->` in an anonymous or named `fun` whose entire `fun ... end` expression
  is on a single line

## Why restrict this?

Putting the body on the same line as `->` leaves a choice between inline and
wrapped form. Wrapping later, or lining up body columns, churns diffs.
Requiring a newline after `->` removes that choice.

## Example

```erlang
-module(example).

first({X, _, _}) -> X.
```

Use instead:

```erlang
-module(example).

first({X, _, _}) ->
    X.
```
";

} // verus!
