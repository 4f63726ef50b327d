//! `case_over_if` lint: prefer case over if.
use crate::context::{first_spelled, first_spelled_in, range_span, BranchContext, Context};
use crate::rules::token_span;
use crate::span::{opt_seq, Finding};
use crate::syntax::{SyntaxKind, TokenRange};
use vstd::prelude::*;

verus! {

/// The finding for node `i`: an `if` expression, reported at its `if`
/// keyword.
pub open spec fn finding_at(b: BranchContext, i: int) -> Option<Finding> {
    let n = b.tree.nodes@[i];
    let k = first_spelled(b.source_tokens@, "if"@, n.start as int, n.end as int);
    if n.kind == SyntaxKind::IfExpr && k < n.end {
        match range_span(b.source_tokens@, TokenRange { start: k as usize, end: (k + 1) as usize }) {
            Some(span) => Some(Finding { span, node: i as usize }),
            None => None,
        }
    } else {
        None
    }
}

/// The findings for the first `n` nodes, in preorder.
pub open spec fn findings(b: BranchContext, n: int) -> Seq<Finding>
    decreases n,
{
    if n <= 0 {
        Seq::empty()
    } else {
        findings(b, n - 1) + opt_seq(finding_at(b, n - 1))
    }
}

/// Flags every `if` expression.
pub fn check(_ctx: &Context, branch: &BranchContext) -> (fs: Vec<Finding>)
    requires
        branch.wf(),
    ensures
        fs@ == findings(*branch, branch.tree.nodes@.len() as int),
{
    let nodes = &branch.tree.nodes;
    let mut errors: Vec<Finding> = Vec::new();
    let mut i: usize = 0;
    while i < nodes.len()
        invariant
            branch.wf(),
            nodes == &branch.tree.nodes,
            i <= nodes@.len(),
            errors@ == findings(*branch, i as int),
        decreases nodes@.len() - i,
    {
        let n = nodes[i];
        proof {
            crate::syntax::lemma_node(nodes@, branch.source_tokens@.len(), i as int);
        }
        let mut f: Option<Finding> = None;
        if n.kind == SyntaxKind::IfExpr {
            let k = first_spelled_in(branch, "if", n.start, n.end);
            if k < n.end {
                if let Some(span) = token_span(branch, k) {
                    f = Some(Finding { span, node: i });
                }
            }
        }
        assert(f == finding_at(*branch, i as int));
        if let Some(x) = f {
            errors.push(x);
        }
        i += 1;
        assert(errors@ =~= findings(*branch, i as int));
    }
    errors
}

/// The rule's description.
pub const TEXT: &'static str = "# `case_over_if`

Prefer case over if.

## What it does

This rule reports every `if` expression.

It does not report `case` expressions or any other construct.

## Why restrict this?

An `if` branch can only contain a guard, so it cannot match a pattern or bind
a value. Every `if` can be rewritten as a `case` (typically `case true of
true when Guard -> ... end`), which is more expressive and the conventional
choice.

## Example

```erlang
-module(example).

classify(N) ->
    if
        N < 0 ->
            negative;
        N > 0 ->
            positive;
        true ->
            zero
    end.
```

Use instead:

```erlang
-module(example).

classify(N) ->
    case N of
        0 ->
            zero;
        _ when N > 0 ->
            positive;
        _ ->
            negative
    end.
```
";

} // verus!
