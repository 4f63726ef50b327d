//! `deep_case_nesting` lint: flag case nested three or more levels deep.
use crate::context::{first_spelled, first_spelled_in, range_span, BranchContext, Context};
use crate::rules::token_span;
use crate::span::{opt_seq, Finding};
use crate::syntax::{SyntaxKind, SyntaxNode, TokenRange};
use vstd::prelude::*;

verus! {

/// Expressions that break a run of consecutive `case`s. The `maybe` rewrite
/// is no longer straightforward across them, so the depth starts over.
pub open spec fn is_depth_break(k: SyntaxKind) -> bool {
    ||| k == SyntaxKind::AnonymousFun || k == SyntaxKind::NamedFun || k == SyntaxKind::TryExpr
    ||| k == SyntaxKind::ReceiveExpr || k == SyntaxKind::BeginExpr || k == SyntaxKind::MaybeExpr
    ||| k == SyntaxKind::ListExpr || k == SyntaxKind::TupleExpr || k == SyntaxKind::MapExpr
    ||| k == SyntaxKind::BitstringExpr || k == SyntaxKind::ListComprehension
    ||| k == SyntaxKind::MapComprehension || k == SyntaxKind::BinaryComprehension
}

/// Whether `k` breaks a run of `case`s; see [`is_depth_break`].
pub fn depth_break(k: SyntaxKind) -> (b: bool)
    ensures
        b == is_depth_break(k),
{
    matches!(
        k,
        SyntaxKind::AnonymousFun | SyntaxKind::NamedFun | SyntaxKind::TryExpr | SyntaxKind::ReceiveExpr
            | SyntaxKind::BeginExpr | SyntaxKind::MaybeExpr | SyntaxKind::ListExpr | SyntaxKind::TupleExpr
            | SyntaxKind::MapExpr | SyntaxKind::BitstringExpr | SyntaxKind::ListComprehension
            | SyntaxKind::MapComprehension | SyntaxKind::BinaryComprehension
    )
}

/// The `case` depth of node `j` counted over its ancestors below index `i`:
/// the `case` expressions enclosing it up to the nearest enclosing
/// run-breaking expression.
pub open spec fn depth_above(nodes: Seq<SyntaxNode>, i: int, j: int) -> nat
    decreases i,
{
    if i <= 0 {
        0
    } else if i - 1 < j && j < nodes[i - 1].subtree_end {
        if is_depth_break(nodes[i - 1].kind) {
            0
        } else if nodes[i - 1].kind == SyntaxKind::CaseExpr {
            1 + depth_above(nodes, i - 1, j)
        } else {
            depth_above(nodes, i - 1, j)
        }
    } else {
        depth_above(nodes, i - 1, j)
    }
}

/// The finding for node `j`: a `case` with two or more enclosing `case`s
/// in the same run, reported at its `case` keyword.
pub open spec fn finding_at(b: BranchContext, j: int) -> Option<Finding> {
    let nodes = b.tree.nodes@;
    let n = nodes[j];
    let k = first_spelled(b.source_tokens@, "case"@, n.start as int, n.end as int);
    if n.kind == SyntaxKind::CaseExpr && depth_above(nodes, j, j) + 1 >= 3 && k < n.end {
        match range_span(b.source_tokens@, TokenRange { start: k as usize, end: (k + 1) as usize }) {
            Some(span) => Some(Finding { span, node: j as usize }),
            None => None,
        }
    } else {
        None
    }
}

/// The findings for the first `n` nodes, in preorder.
pub open spec fn findings(b: BranchContext, n: int) -> Seq<Finding>
    decreases n,
{
    if n <= 0 {
        Seq::empty()
    } else {
        findings(b, n - 1) + opt_seq(finding_at(b, n - 1))
    }
}

/// The number of `case` expressions among nodes `lo..hi` whose subtree
/// holds node `j`.
pub open spec fn enclosing_cases(nodes: Seq<SyntaxNode>, lo: int, hi: int, j: int) -> nat
    decreases hi - lo,
{
    if hi <= lo {
        0
    } else {
        enclosing_cases(nodes, lo, hi - 1, j) + if hi - 1 < j < nodes[hi - 1].subtree_end && nodes[hi - 1].kind == SyntaxKind::CaseExpr {
            1nat
        } else {
            0nat
        }
    }
}

/// The depth counted over the ancestors below `idx` is at most the
/// enclosing `case`s among `lo..idx` plus the depth counted below `lo`.
proof fn lemma_depth_bounded(nodes: Seq<SyntaxNode>, lo: int, idx: int, j: int)
    requires
        0 <= lo <= idx,
    ensures
        depth_above(nodes, idx, j) <= enclosing_cases(nodes, lo, idx, j) + depth_above(nodes, lo, j),
    decreases idx - lo,
{
    if idx > lo {
        lemma_depth_bounded(nodes, lo, idx - 1, j);
    }
}

/// Without a run-breaking ancestor, the depth counts every enclosing
/// `case`.
proof fn lemma_depth_counts(nodes: Seq<SyntaxNode>, idx: int, j: int)
    requires
        0 <= idx,
        forall|m: int| 0 <= m < idx && m < j < nodes[m].subtree_end ==> !is_depth_break(#[trigger] nodes[m].kind),
    ensures
        depth_above(nodes, idx, j) == enclosing_cases(nodes, 0, idx, j),
    decreases idx,
{
    if idx > 0 {
        lemma_depth_counts(nodes, idx - 1, j);
    }
}

/// An enclosing `fun`, `try`, `receive`, `begin`, `maybe`, list, tuple,
/// map, bitstring or comprehension starts the count over: a `case` inside
/// one is reported only when two more `case`s inside that expression
/// enclose it.
pub proof fn law_case_depth_restarts(b: BranchContext, i: int, j: int)
    requires
        0 <= i < j < b.tree.nodes@.len(),
        j < b.tree.nodes@[i].subtree_end,
        ({
            let k = b.tree.nodes@[i].kind;
            k == SyntaxKind::AnonymousFun || k == SyntaxKind::NamedFun || k == SyntaxKind::TryExpr
                || k == SyntaxKind::ReceiveExpr || k == SyntaxKind::BeginExpr || k == SyntaxKind::MaybeExpr
                || k == SyntaxKind::ListExpr || k == SyntaxKind::TupleExpr || k == SyntaxKind::MapExpr
                || k == SyntaxKind::BitstringExpr || k == SyntaxKind::ListComprehension
                || k == SyntaxKind::MapComprehension || k == SyntaxKind::BinaryComprehension
        }),
    ensures
        depth_above(b.tree.nodes@, j, j) <= enclosing_cases(b.tree.nodes@, i + 1, j, j),
        finding_at(b, j) is Some ==> enclosing_cases(b.tree.nodes@, i + 1, j, j) >= 2,
{
    let nodes = b.tree.nodes@;
    lemma_depth_bounded(nodes, i + 1, j, j);
    assert(depth_above(nodes, i + 1, j) == 0);
}

/// Where no such expression encloses a `case`, its depth counts every
/// `case` that encloses it, and it is reported exactly when at least two
/// do (at its `case` keyword, when that maps into the file).
pub proof fn law_case_depth_counts_enclosing_cases(b: BranchContext, j: int)
    requires
        0 <= j < b.tree.nodes@.len(),
        forall|m: int| 0 <= m < j && m < j < b.tree.nodes@[m].subtree_end ==> {
            let k = #[trigger] b.tree.nodes@[m].kind;
            !(k == SyntaxKind::AnonymousFun || k == SyntaxKind::NamedFun || k == SyntaxKind::TryExpr
                || k == SyntaxKind::ReceiveExpr || k == SyntaxKind::BeginExpr || k == SyntaxKind::MaybeExpr
                || k == SyntaxKind::ListExpr || k == SyntaxKind::TupleExpr || k == SyntaxKind::MapExpr
                || k == SyntaxKind::BitstringExpr || k == SyntaxKind::ListComprehension
                || k == SyntaxKind::MapComprehension || k == SyntaxKind::BinaryComprehension)
        },
    ensures
        depth_above(b.tree.nodes@, j, j) == enclosing_cases(b.tree.nodes@, 0, j, j),
        finding_at(b, j) is Some ==> enclosing_cases(b.tree.nodes@, 0, j, j) >= 2,
        ({
            let n = b.tree.nodes@[j];
            let k = first_spelled(b.source_tokens@, "case"@, n.start as int, n.end as int);
            n.kind == SyntaxKind::CaseExpr && enclosing_cases(b.tree.nodes@, 0, j, j) >= 2 && k < n.end
                && range_span(b.source_tokens@, TokenRange { start: k as usize, end: (k + 1) as usize }) is Some
                ==> finding_at(b, j) is Some
        }),
{
    lemma_depth_counts(b.tree.nodes@, j, j);
}

/// The `case` depth of node `j`; see [`depth_above`].
fn case_depth(nodes: &Vec<SyntaxNode>, j: usize) -> (d: usize)
    requires
        j < nodes@.len(),
    ensures
        d as nat == depth_above(nodes@, j as int, j as int),
{
    let mut i = j;
    let mut d: usize = 0;
    let mut stopped = false;
    while i > 0 && !stopped
        invariant
            i <= j < nodes@.len(),
            d <= j - i,
            !stopped ==> depth_above(nodes@, j as int, j as int) == d + depth_above(nodes@, i as int, j as int),
            stopped ==> depth_above(nodes@, j as int, j as int) == d,
        decreases i + (if stopped { 0int } else { 1int }),
    {
        let a = &nodes[i - 1];
        if i - 1 < j && j < a.subtree_end {
            if depth_break(a.kind) {
                stopped = true;
            } else {
                if a.kind == SyntaxKind::CaseExpr {
                    d += 1;
                }
                i -= 1;
            }
        } else {
            i -= 1;
        }
    }
    d
}

/// Flags `case` expressions nested three or more levels deep.
pub fn check(_ctx: &Context, branch: &BranchContext) -> (fs: Vec<Finding>)
    requires
        branch.wf(),
    ensures
        fs@ == findings(*branch, branch.tree.nodes@.len() as int),
{
    let nodes = &branch.tree.nodes;
    let mut errors: Vec<Finding> = Vec::new();
    let mut j: usize = 0;
    while j < nodes.len()
        invariant
            branch.wf(),
            nodes == &branch.tree.nodes,
            j <= nodes@.len(),
            errors@ == findings(*branch, j as int),
        decreases nodes@.len() - j,
    {
        let n = nodes[j];
        proof {
            crate::syntax::lemma_node(nodes@, branch.source_tokens@.len(), j as int);
        }
        let mut f: Option<Finding> = None;
        if n.kind == SyntaxKind::CaseExpr && case_depth(nodes, j) >= 2 {
            let k = first_spelled_in(branch, "case", n.start, n.end);
            if k < n.end {
                if let Some(span) = token_span(branch, k) {
                    f = Some(Finding { span, node: j });
                }
            }
        }
        assert(f == finding_at(*branch, j as int));
        if let Some(x) = f {
            errors.push(x);
        }
        j += 1;
        assert(errors@ =~= findings(*branch, j as int));
    }
    errors
}

/// The rule's description.
pub const TEXT: &'static str = "# `deep_case_nesting`

Flag case nested three or more levels deep; consider maybe or splitting the function.

## What it does

This rule reports a `case` that is nested three or more levels deep. The depth
counts consecutive `case` expressions; an intervening `fun`, `try`, `receive`,
`begin`, `maybe`, container literal (list / tuple / map / bitstring), or
comprehension resets the depth to zero.

It does not report:

- a `case` nested fewer than three levels deep
- a `case` whose run of `case` expressions was broken by one of the
  expressions above

## Why restrict this?

Deeply nested `case` expressions are hard to follow: each level adds another
axis along which the flow can diverge, and the outer branches sit far from the
inner logic they control. `maybe` or splitting the function into smaller ones
flattens the flow and makes the branches easier to reason about.

## Example

```erlang
-module(example).

handle(A, B, C) ->
    case A of
        a ->
            case B of
                b ->
                    case C of
                        c ->
                            ok;
                        _ ->
                            error
                    end;
                _ ->
                    error
            end;
        _ ->
            error
    end.
```

Use instead:

```erlang
-module(example).

handle(A, B, C) ->
    maybe
        a ?= A,
        b ?= B,
        c ?= C,
        ok
    else
        _ ->
            error
    end.
```
";

} // verus!
