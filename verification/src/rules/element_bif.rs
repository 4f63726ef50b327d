//! `element_bif` lint: flag `element/2` and `erlang:element/2` with a literal index.
use crate::context::{range_span, BranchContext, BranchToken, Context};
use crate::lex::TokValue;
use crate::span::{opt_seq, Finding};
use crate::syntax::{children_of, SyntaxKind, SyntaxNode, TokenRange};
use vstd::prelude::*;

verus! {

/// Whether a token in `[start, end)` is the atom `name`.
pub open spec fn has_atom(toks: Seq<BranchToken>, start: int, end: int, name: Seq<char>) -> bool {
    exists|k: int| start <= k < end && k < toks.len() && #[trigger] toks[k].value is Atom && toks[k].value->Atom_0@ == name
}

/// Whether node `c` is the atom `name`, judged by the atoms among its tokens.
pub open spec fn atom_eq(b: BranchContext, c: int, name: Seq<char>) -> bool {
    has_atom(b.source_tokens@, b.tree.nodes@[c].start as int, b.tree.nodes@[c].end as int, name)
}

/// Whether the callee `c` is `element` or `erlang:element`.
pub open spec fn is_element_callee(b: BranchContext, c: int) -> bool {
    let nodes = b.tree.nodes@;
    if nodes[c].kind == SyntaxKind::AtomExpr {
        atom_eq(b, c, "element"@)
    } else if nodes[c].kind == SyntaxKind::RemoteExpr {
        let cs = children_of(nodes, c);
        cs.len() >= 2 && atom_eq(b, cs[0], "erlang"@) && atom_eq(b, cs[1], "element"@)
    } else {
        false
    }
}

/// The finding for node `i`: a call of `element/2` or `erlang:element/2`
/// whose first argument is an integer literal, reported over the call.
pub open spec fn finding_at(b: BranchContext, i: int) -> Option<Finding> {
    let nodes = b.tree.nodes@;
    let n = nodes[i];
    let cs = children_of(nodes, i);
    if n.kind == SyntaxKind::CallExpr && cs.len() >= 2 && nodes[cs[1]].kind == SyntaxKind::ArgumentList
        && is_element_callee(b, cs[0]) && children_of(nodes, cs[1]).len() == 2
        && nodes[children_of(nodes, cs[1])[0]].kind == SyntaxKind::IntegerExpr {
        match range_span(b.source_tokens@, TokenRange { start: n.start, end: n.end }) {
            Some(span) => Some(Finding { span, node: i as usize }),
            None => None,
        }
    } else {
        None
    }
}

/// The findings for the first `n` nodes, in preorder.
pub open spec fn findings(b: BranchContext, n: int) -> Seq<Finding>
    decreases n,
{
    if n <= 0 {
        Seq::empty()
    } else {
        findings(b, n - 1) + opt_seq(finding_at(b, n - 1))
    }
}

/// A call is reported exactly when its callee is the atom `element`, or a
/// remote callee whose module is the atom `erlang` and whose function is
/// the atom `element`, and it has two arguments, the first an integer
/// literal (and the call maps into the file).
pub proof fn law_reported_calls_are_element(b: BranchContext, i: int)
    requires
        0 <= i < b.tree.nodes@.len(),
    ensures
        finding_at(b, i) is Some <==> {
            let nodes = b.tree.nodes@;
            let cs = children_of(nodes, i);
            &&& nodes[i].kind == SyntaxKind::CallExpr
            &&& cs.len() >= 2
            &&& nodes[cs[1]].kind == SyntaxKind::ArgumentList
            &&& children_of(nodes, cs[1]).len() == 2
            &&& nodes[children_of(nodes, cs[1])[0]].kind == SyntaxKind::IntegerExpr
            &&& range_span(b.source_tokens@, TokenRange { start: nodes[i].start, end: nodes[i].end }) is Some
            &&& ((nodes[cs[0]].kind == SyntaxKind::AtomExpr && atom_eq(b, cs[0], "element"@))
                || (nodes[cs[0]].kind == SyntaxKind::RemoteExpr && children_of(nodes, cs[0]).len() >= 2
                    && atom_eq(b, children_of(nodes, cs[0])[0], "erlang"@)
                    && atom_eq(b, children_of(nodes, cs[0])[1], "element"@)))
        },
{
}

/// Whether node `c`'s tokens hold the atom `name`.
pub fn atom_in(branch: &BranchContext, c: usize, name: &str) -> (r: bool)
    requires
        branch.wf(),
        c < branch.tree.nodes@.len(),
    ensures
        r == atom_eq(*branch, c as int, name@),
{
    let n = branch.tree.nodes[c];
    let toks = &branch.source_tokens;
    let mut k = n.start;
    while k < n.end && k < toks.len()
        invariant
            toks == &branch.source_tokens,
            n == branch.tree.nodes@[c as int],
            n.start <= k,
            forall|j: int| n.start <= j < k ==> !(#[trigger] toks@[j].value is Atom && toks@[j].value->Atom_0@ == name@),
        decreases n.end - k,
    {
        if let TokValue::Atom(a) = &toks[k].value {
            if crate::text::str_eq(a.as_str(), name) {
                return true;
            }
        }
        k += 1;
    }
    false
}

/// Whether node `c` is `element` or `erlang:element`.
fn element_callee(branch: &BranchContext, c: usize) -> (r: bool)
    requires
        branch.wf(),
        c < branch.tree.nodes@.len(),
    ensures
        r == is_element_callee(*branch, c as int),
{
    let nodes = &branch.tree.nodes;
    if nodes[c].kind == SyntaxKind::AtomExpr {
        atom_in(branch, c, "element")
    } else if nodes[c].kind == SyntaxKind::RemoteExpr {
        let cs = branch.tree.children(c, Ghost(branch.source_tokens@.len()));
        proof {
            crate::syntax::lemma_node(nodes@, branch.source_tokens@.len(), c as int);
        }
        if cs.len() < 2 {
            return false;
        }
        assert(cs@[0] as int == children_of(nodes@, c as int)[0]);
        assert(cs@[1] as int == children_of(nodes@, c as int)[1]);
        atom_in(branch, cs[0], "erlang") && atom_in(branch, cs[1], "element")
    } else {
        false
    }
}

/// The finding for node `i`; see [`finding_at`].
fn check_node(branch: &BranchContext, i: usize) -> (f: Option<Finding>)
    requires
        branch.wf(),
        i < branch.tree.nodes@.len(),
    ensures
        f == finding_at(*branch, i as int),
{
    let nodes = &branch.tree.nodes;
    let ghost n_tokens = branch.source_tokens@.len();
    let n = nodes[i];
    if n.kind != SyntaxKind::CallExpr {
        return None;
    }
    let cs = branch.tree.children(i, Ghost(n_tokens));
    proof {
        crate::syntax::lemma_node(nodes@, n_tokens, i as int);
    }
    if cs.len() < 2 {
        return None;
    }
    assert(cs@[0] as int == children_of(nodes@, i as int)[0]);
    assert(cs@[1] as int == children_of(nodes@, i as int)[1]);
    let args = cs[1];
    if nodes[args].kind != SyntaxKind::ArgumentList {
        return None;
    }
    if !element_callee(branch, cs[0]) {
        return None;
    }
    let arg_list = branch.tree.children(args, Ghost(n_tokens));
    proof {
        crate::syntax::lemma_node(nodes@, n_tokens, args as int);
    }
    if arg_list.len() != 2 {
        assert(arg_list@.map_values(|c: usize| c as int).len() == arg_list@.len());
        return None;
    }
    assert(arg_list@[0] as int == children_of(nodes@, args as int)[0]);
    if nodes[arg_list[0]].kind != SyntaxKind::IntegerExpr {
        return None;
    }
    match branch.span_of_range(TokenRange { start: n.start, end: n.end }) {
        Some(span) => Some(Finding { span, node: i }),
        None => None,
    }
}

/// Flags `element/2` calls with a literal index.
pub fn check(_ctx: &Context, branch: &BranchContext) -> (fs: Vec<Finding>)
    requires
        branch.wf(),
    ensures
        fs@ == findings(*branch, branch.tree.nodes@.len() as int),
{
    let mut errors: Vec<Finding> = Vec::new();
    let mut i: usize = 0;
    while i < branch.tree.nodes.len()
        invariant
            branch.wf(),
            i <= branch.tree.nodes@.len(),
            errors@ == findings(*branch, i as int),
        decreases branch.tree.nodes@.len() - i,
    {
        if let Some(f) = check_node(branch, i) {
            errors.push(f);
        }
        i += 1;
        assert(errors@ =~= findings(*branch, i as int));
    }
    errors
}

/// The rule's description.
pub const TEXT: &'static str = "# `element_bif`

Disallow `element/2` with a literal index; use pattern matching instead.

## What it does

This rule reports unqualified `element/2` and `erlang:element/2` when the first
argument is an integer literal.

It does not report:

- a non-literal (dynamic) index
- a remote call whose module is not `erlang`
- a call whose arity is not 2

## Why restrict this?

A literal index hides the expected tuple shape and the meaning of each field.
Pattern matching makes that contract visible at the call site.

## Example

```erlang
-module(example).

first(Tuple) ->
    element(1, Tuple).
```

Use instead:

```erlang
-module(example).

first({X, _, _}) ->
    X.
```

## Known limitations

The rule does not decide whether the tuple shape is fixed. A literal index into
a tuple of unknown size is still reported. Suppress the finding if that use is
intentional.

The rule does not resolve callees. An unqualified `element/2` that is no longer
the BIF because of `no_auto_import` and a local definition is still reported.
Suppress the finding if that use is intentional.
";

} // verus!
