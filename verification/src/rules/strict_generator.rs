//! `strict_generator` lint: require strict comprehension generators.
use crate::context::{first_spelled, first_spelled_in, range_span, BranchContext, Context};
use crate::rules::token_span;
use crate::span::{opt_seq, Finding};
use crate::syntax::{lemma_jump, lemma_node, lemma_reached_here, lemma_step, reached, skips_closed, SyntaxKind, SyntaxNode, TokenRange};
use vstd::prelude::*;

verus! {

/// Zip qualifiers are not entered: their generators are not reported.
pub open spec fn skip(nodes: Seq<SyntaxNode>) -> spec_fn(int) -> bool {
    |k: int| nodes[k].kind == SyntaxKind::ZipQualifier
}

/// The arrow a relaxed generator of kind `k` uses, if `k` is one.
pub open spec fn relaxed_arrow(k: SyntaxKind) -> Option<Seq<char>> {
    if k == SyntaxKind::Generator || k == SyntaxKind::MapGenerator {
        Some("<-"@)
    } else if k == SyntaxKind::BitstringGenerator {
        Some("<="@)
    } else {
        None
    }
}

/// The finding for node `j`: a relaxed generator outside any zip
/// qualifier, reported at its arrow.
pub open spec fn finding_at(b: BranchContext, j: int) -> Option<Finding> {
    let nodes = b.tree.nodes@;
    let n = nodes[j];
    match relaxed_arrow(n.kind) {
        Some(arrow) => {
            let k = first_spelled(b.source_tokens@, arrow, n.start as int, n.end as int);
            if reached(nodes, skip(nodes), j) && k < n.end {
                match range_span(b.source_tokens@, TokenRange { start: k as usize, end: (k + 1) as usize }) {
                    Some(span) => Some(Finding { span, node: j as usize }),
                    None => None,
                }
            } else {
                None
            }
        },
        None => None,
    }
}

/// The findings for the first `n` nodes, in preorder.
pub open spec fn findings(b: BranchContext, n: int) -> Seq<Finding>
    decreases n,
{
    if n <= 0 {
        Seq::empty()
    } else {
        findings(b, n - 1) + opt_seq(finding_at(b, n - 1))
    }
}

/// Nodes that are not reached add no findings.
proof fn lemma_unreached(b: BranchContext, i: int, e: int)
    requires
        0 <= i <= e,
        forall|j: int| i <= j < e ==> !#[trigger] reached(b.tree.nodes@, skip(b.tree.nodes@), j),
    ensures
        findings(b, e) == findings(b, i),
    decreases e - i,
{
    if e > i {
        lemma_unreached(b, i, e - 1);
        assert(!reached(b.tree.nodes@, skip(b.tree.nodes@), e - 1));
        assert(findings(b, e) =~= findings(b, e - 1));
    }
}

/// Flags relaxed generators (`<-`, `<=`), except inside zip qualifiers.
pub fn check(_ctx: &Context, branch: &BranchContext) -> (fs: Vec<Finding>)
    requires
        branch.wf(),
    ensures
        fs@ == findings(*branch, branch.tree.nodes@.len() as int),
{
    let nodes = &branch.tree.nodes;
    let ghost n_tokens = branch.source_tokens@.len();
    let ghost sk = skip(nodes@);
    let mut errors: Vec<Finding> = Vec::new();
    let mut i: usize = 0;
    while i < nodes.len()
        invariant
            branch.wf(),
            nodes == &branch.tree.nodes,
            n_tokens == branch.source_tokens@.len(),
            sk == skip(nodes@),
            i <= nodes@.len(),
            skips_closed(nodes@, sk, i as int),
            errors@ == findings(*branch, i as int),
        decreases nodes@.len() - i,
    {
        let n = nodes[i];
        proof {
            lemma_node(nodes@, n_tokens, i as int);
            lemma_reached_here(nodes@, n_tokens, sk, i as int);
        }
        if n.kind == SyntaxKind::ZipQualifier {
            proof {
                lemma_jump(nodes@, n_tokens, sk, i as int);
                lemma_unreached(*branch, i as int, n.subtree_end as int);
            }
            i = n.subtree_end;
        } else {
            let arrow: Option<&str> = if n.kind == SyntaxKind::Generator || n.kind == SyntaxKind::MapGenerator {
                Some("<-")
            } else if n.kind == SyntaxKind::BitstringGenerator {
                Some("<=")
            } else {
                None
            };
            let mut f: Option<Finding> = None;
            if let Some(a) = arrow {
                let k = first_spelled_in(branch, a, n.start, n.end);
                if k < n.end {
                    if let Some(span) = token_span(branch, k) {
                        f = Some(Finding { span, node: i });
                    }
                }
            }
            assert(f == finding_at(*branch, i as int));
            if let Some(x) = f {
                errors.push(x);
            }
            proof {
                lemma_step(nodes@, sk, i as int);
            }
            i += 1;
            assert(errors@ =~= findings(*branch, i as int));
        }
    }
    errors
}

/// The rule's description.
pub const TEXT: &'static str = "# `strict_generator`

Require strict comprehension generators (<:- / <:=) instead of <- / <=.

## What it does

This rule reports the relaxed list generator `<-`, the relaxed bit string
generator `<=`, and the relaxed map generator `<-` inside a comprehension, and
suggests the strict variants `<:-` and `<:=`.

It does not report:

- generators that already use the strict arrows `<:-` / `<:=`
- generators inside a zip generator (`&&`)

## Why restrict this?

A relaxed generator silently drops elements that do not match its pattern,
hiding unexpected input. A strict generator raises `badmatch` on the same
mismatch, so incorrect input becomes visible instead of quietly disappearing.
The intent is also clearer with a strict generator: a relaxed generator can be
either a generator or an accidental filter, and the code alone does not tell
which it is (EEP-0070).

## Example

```erlang
-module(example).

names() ->
    [X || {X, _} <- pairs()].
```

Use instead:

```erlang
-module(example).

names() ->
    [X || {X, _} <:- pairs()].
```

## Caution: a relaxed generator may be a filter

A relaxed generator silently drops elements that do not match its pattern, so
in existing code it is often used as a filter as well as a generator. Replacing
such a generator with a strict one is not equivalent: the first non-matching
element now raises `badmatch` instead of being skipped, so the rewrite changes
behavior and can crash the program. Only replace a relaxed generator with a
strict one when every element of the source is expected to match the pattern.

When the relaxed generator filters, make the filtering explicit. If the
matching shapes share a pattern, bind the discriminating field and add a
filter:

```erlang
% before
[V*V || #foo{flag=true, value=V} <- List]
% after
[V*V || #foo{flag=Flag, value=V} <:- List, Flag =:= true]
```

The filter must compare with `=:= true`; a bare `Flag` would also pass values
such as `undefined` that the original pattern match rejected.

When the source mixes shapes with no common pattern, no direct rewrite exists.
For example, if `List` is `[{ok, term()} | error]`, the strict generator
`{ok, V} <:- List` raises `badmatch` on every `error` element. When performance
is not critical, filter first and \x74hen use a strict generator:

```erlang
[V*V || {ok, V} <:- lists:filter(fun ({ok, _}) -> true; (error) -> false end, List)]
```

This materializes an intermediate list that the relaxed generator avoided, so
it is a performance trade-off.

## Known limitations

A relaxed generator used intentionally as a filter is still reported. When the
relaxed form is noticeably simpler or faster than any strict equivalent,
keeping it is reasonable. Declare the intent with an `-elint_expect` attribute
(see `elint --explain elint_expect_attr`), and add a comment next to the
generator if the reason is not obvious:

```erlang
-elint_expect(strict_generator, {function, foo, 1}, \"filters ok/error pairs; strict would raise badmatch\").
```
";

} // verus!
