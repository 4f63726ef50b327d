//! Per-file analysis: scanning, the preprocessing driver that explores every
//! conditional arm, and the mapping of branch tokens back to the file.
use crate::lex::{erl_scan, scan_tokens, LexError, Tok, TokValue};
use crate::pp::{
    event_class, event_directive_span, event_error_detail, event_error_kind, event_error_span,
    event_token, event_token_sites, pp_accepts_branch, pp_accepts_include, pp_accepts_macro, pp_clone, pp_event,
    pp_expand_macro, pp_new, pp_resume_conditional, pp_skip_include, pp_step, EventClass, PpEventView, PpInput, PpMachine,
    PpErrorKind,
};
use crate::span::{lemma_on_boundary, Span};
use crate::syntax::{children_of, SyntaxKind, SyntaxTree, TokenRange};
use crate::text::{decimal, push_decimal};
use vstd::prelude::*;
use vstd::string::{StringExecFns, StringSliceAdditionalSpecFns};

verus! {

/// Diagnostic recorded while driving the preprocessor.
#[derive(Debug, Clone)]
pub struct PreprocessDiagnostic {
    /// Location reported by the preprocessor.
    pub span: Span,
    /// Human-readable description.
    pub message: String,
}

/// One token of a branch's preprocessed stream.
#[derive(Debug, Clone)]
pub struct BranchToken {
    /// Spelling.
    pub text: String,
    /// Decoded value.
    pub value: TokValue,
    /// Byte range in the original file, when the token maps into it.
    pub span: Option<Span>,
    /// Whether the token was written in the file itself rather than
    /// produced by a macro expansion.
    pub from_source: bool,
}

/// A directive that pulls in another file (plain or `_lib` form), or a `-define`, that the
/// preprocessor consumed, located by the name atom after its `-`.
#[derive(Debug, Clone, Copy, PartialEq, Eq, Structural)]
pub struct SkippedDirective {
    /// Whether this is `-include_lib`.
    pub is_lib: bool,
    /// Byte range of the directive's name atom in the original file.
    pub name_span: Span,
}

/// One explored conditional-arm path through the file.
#[derive(Debug, Clone)]
pub struct BranchContext {
    /// The preprocessed token stream; the parse forest indexes into it.
    pub source_tokens: Vec<BranchToken>,
    /// Parse forest for the preprocessed token stream.
    pub tree: SyntaxTree,
    /// Preprocessor diagnostics (input errors).
    pub preprocess_diagnostics: Vec<PreprocessDiagnostic>,
    /// Include directives the preprocessor consumed on this path.
    pub skipped_includes: Vec<SkippedDirective>,
    /// Define directives the preprocessor consumed on this path.
    pub skipped_defines: Vec<SkippedDirective>,
}

/// Analyzed Erlang file: original source and one analysis per explored
/// conditional-arm path.
#[derive(Debug, Clone)]
pub struct Context {
    /// Path used as the preprocessor display name (and for CLI output).
    pub path: String,
    /// Original file text.
    pub text: String,
    /// Tokens scanned from the text, including comments and whitespace.
    pub original_tokens: Vec<Tok>,
    /// Per-branch analyses. `branches[0]` is the mainline (the first arm
    /// taken at every conditional).
    pub branches: Vec<BranchContext>,
}

/// The original-file range of branch token `i`, if it has one.
pub open spec fn tok_span(toks: Seq<BranchToken>, i: int) -> Option<Span> {
    if 0 <= i < toks.len() {
        toks[i].span
    } else {
        None
    }
}

/// The smallest range covering the original-file ranges of the tokens in
/// `[s, e)` that have one.
pub open spec fn hull(toks: Seq<BranchToken>, s: int, e: int) -> Option<Span>
    decreases e - s,
{
    if e <= s {
        None
    } else {
        let acc = hull(toks, s, e - 1);
        match tok_span(toks, e - 1) {
            None => acc,
            Some(sp) => match acc {
                None => Some(sp),
                Some(a) => Some(
                    Span {
                        start: if a.start <= sp.start { a.start } else { sp.start },
                        end: if a.end >= sp.end { a.end } else { sp.end },
                    },
                ),
            },
        }
    }
}

/// Where a token range lies in the original file: the hull of its tokens'
/// ranges; an empty range maps to the end of the token before it, or to
/// offset 0 at the start of the stream.
pub open spec fn range_span(toks: Seq<BranchToken>, r: TokenRange) -> Option<Span> {
    if r.end <= r.start {
        if r.start == 0 {
            Some(Span { start: 0, end: 0 })
        } else {
            match tok_span(toks, r.start - 1) {
                Some(s) => Some(Span { start: s.end, end: s.end }),
                None => None,
            }
        }
    } else {
        hull(toks, r.start as int, r.end as int)
    }
}

/// The first index at or after `k` of an atom token in `[k, end)`, or `end`.
pub open spec fn first_atom(toks: Seq<BranchToken>, k: int, end: int) -> int
    decreases end - k,
{
    if k >= end || k >= toks.len() || k < 0 {
        end
    } else if toks[k].value is Atom {
        k
    } else {
        first_atom(toks, k + 1, end)
    }
}

/// The node index of the nearest `FunctionDecl` strictly enclosing node
/// `j`, searching the candidates below `i`.
pub open spec fn decl_above(nodes: Seq<crate::syntax::SyntaxNode>, i: int, j: int) -> int
    decreases i,
{
    if i <= 0 {
        -1
    } else if nodes[i - 1].kind == SyntaxKind::FunctionDecl && j < nodes[i - 1].subtree_end {
        i - 1
    } else {
        decl_above(nodes, i - 1, j)
    }
}

/// The first child of node `i` of kind `kind`, as a position in its child
/// list, or the number of children.
pub open spec fn first_child_of_kind(nodes: Seq<crate::syntax::SyntaxNode>, cs: Seq<int>, kind: SyntaxKind, k: int) -> int
    decreases cs.len() - k,
{
    if k >= cs.len() || k < 0 {
        cs.len() as int
    } else if nodes[cs[k]].kind == kind {
        k
    } else {
        first_child_of_kind(nodes, cs, kind, k + 1)
    }
}

/// The name atom of function clause `c`: the first atom token in its range.
pub open spec fn spec_clause_name(b: BranchContext, c: int) -> Option<Seq<char>> {
    let n = b.tree.nodes@[c];
    let k = first_atom(b.source_tokens@, n.start as int, n.end as int);
    if k < n.end && k < b.source_tokens@.len() {
        Some(b.source_tokens@[k].value->Atom_0@)
    } else {
        None
    }
}

/// The arity of function clause `c`: the child count of its first
/// `ArgumentList` child.
pub open spec fn spec_clause_arity(b: BranchContext, c: int) -> Option<nat> {
    let nodes = b.tree.nodes@;
    let cs = children_of(nodes, c);
    let k = first_child_of_kind(nodes, cs, SyntaxKind::ArgumentList, 0);
    if k < cs.len() {
        Some(children_of(nodes, cs[k]).len())
    } else {
        None
    }
}

/// `Name/Arity` of the function enclosing node `j`.
pub open spec fn spec_enclosing_name(b: BranchContext, j: int) -> Option<Seq<char>> {
    let nodes = b.tree.nodes@;
    let d = decl_above(nodes, j, j);
    if d < 0 {
        None
    } else {
        let cs = children_of(nodes, d);
        let k = first_child_of_kind(nodes, cs, SyntaxKind::FunctionClause, 0);
        if k >= cs.len() {
            None
        } else {
            match (spec_clause_name(b, cs[k]), spec_clause_arity(b, cs[k])) {
                (Some(name), Some(arity)) => Some(name + seq!['/'] + decimal(arity)),
                _ => None,
            }
        }
    }
}

impl BranchContext {
    /// The forest is well formed over this branch's tokens.
    pub open spec fn wf(&self) -> bool {
        self.tree.wf(self.source_tokens@.len())
    }

    /// Maps a token-buffer range to a byte range in the original file.
    ///
    /// Empty ranges (missing tokens / EOF) map to the end of the preceding
    /// token, or to offset 0 when there is no preceding token.
    pub fn span_of_range(&self, range: TokenRange) -> (r: Option<Span>)
        ensures
            r == range_span(self.source_tokens@, range),
    {
        if range.end <= range.start {
            if range.start == 0 {
                return Some(Span::new(0, 0));
            }
            return match self.span_of_token(range.start - 1) {
                Some(s) => Some(Span::new(s.end, s.end)),
                None => None,
            };
        }
        let mut acc: Option<Span> = None;
        let mut i = range.start;
        while i < range.end
            invariant
                range.start <= i <= range.end,
                acc == hull(self.source_tokens@, range.start as int, i as int),
            decreases range.end - i,
        {
            let next = match self.span_of_token(i) {
                None => acc,
                Some(sp) => match acc {
                    None => Some(sp),
                    Some(a) => Some(
                        Span {
                            start: if a.start <= sp.start { a.start } else { sp.start },
                            end: if a.end >= sp.end { a.end } else { sp.end },
                        },
                    ),
                },
            };
            acc = next;
            i += 1;
        }
        acc
    }

    /// The original-file range of token `index`.
    pub fn span_of_token(&self, index: usize) -> (r: Option<Span>)
        ensures
            r == tok_span(self.source_tokens@, index as int),
    {
        if index < self.source_tokens.len() {
            self.source_tokens[index].span
        } else {
            None
        }
    }

    /// Returns the `Name/Arity` of the function enclosing `node`, e.g.
    /// `foo/2`, when the node lies inside a `FunctionDecl`.
    ///
    /// Finds the nearest enclosing `FunctionDecl`, reads the name atom and
    /// argument-list arity of its first `FunctionClause`, and returns `None`
    /// when there is no enclosing function or the name cannot be resolved.
    pub fn enclosing_function_name(&self, node: usize) -> (r: Option<String>)
        requires
            self.wf(),
            node < self.tree.nodes@.len(),
        ensures
            r is Some == spec_enclosing_name(*self, node as int) is Some,
            r matches Some(s) ==> s@ == spec_enclosing_name(*self, node as int)->Some_0,
    {
        let nodes = &self.tree.nodes;
        let ghost n_tokens = self.source_tokens@.len();
        let mut i = node;
        let mut found = false;
        while i > 0 && !found
            invariant
                i <= node < nodes@.len(),
                found ==> i > 0 && decl_above(nodes@, node as int, node as int) == i - 1,
                !found ==> decl_above(nodes@, node as int, node as int) == decl_above(nodes@, i as int, node as int),
            decreases i + (if found { 0int } else { 1int }),
        {
            if nodes[i - 1].kind == SyntaxKind::FunctionDecl && node < nodes[i - 1].subtree_end {
                found = true;
            } else {
                i -= 1;
            }
        }
        if !found {
            return None;
        }
        let decl = i - 1;
        let cs = self.tree.children(decl, Ghost(n_tokens));
        let k = first_child_index(&self.tree, &cs, SyntaxKind::FunctionClause, Ghost(n_tokens));
        if k >= cs.len() {
            return None;
        }
        proof {
            crate::syntax::lemma_sib_chain_bounds(nodes@, decl + 1, nodes@[decl as int].subtree_end as int);
            assert(cs@[k as int] as int == children_of(nodes@, decl as int)[k as int]);
        }
        let clause = cs[k];
        let name = match clause_name(self, clause) {
            Some(n) => n,
            None => return None,
        };
        let arity = match clause_arity(self, clause) {
            Some(a) => a,
            None => return None,
        };
        let mut out = name;
        proof {
            reveal_strlit("/");
        }
        out.append("/");
        push_decimal(&mut out, arity);
        Some(out)
    }
}

/// The position in `cs` of the first child of kind `kind`, or `cs.len()`.
fn first_child_index(tree: &SyntaxTree, cs: &Vec<usize>, kind: SyntaxKind, Ghost(n_tokens): Ghost<nat>) -> (k: usize)
    requires
        tree.wf(n_tokens),
        forall|m: int| 0 <= m < cs@.len() ==> (#[trigger] cs@[m]) < tree.nodes@.len(),
    ensures
        k as int == first_child_of_kind(tree.nodes@, cs@.map_values(|c: usize| c as int), kind, 0),
{
    let ghost ci = cs@.map_values(|c: usize| c as int);
    let mut k: usize = 0;
    while k < cs.len()
        invariant
            k <= cs@.len(),
            ci == cs@.map_values(|c: usize| c as int),
            forall|m: int| 0 <= m < cs@.len() ==> (#[trigger] cs@[m]) < tree.nodes@.len(),
            first_child_of_kind(tree.nodes@, ci, kind, 0) == first_child_of_kind(tree.nodes@, ci, kind, k as int),
        decreases cs@.len() - k,
    {
        if tree.nodes[cs[k]].kind == kind {
            return k;
        }
        k += 1;
    }
    k
}

/// Reads the name atom of a function clause: the first atom token in its
/// range.
pub fn clause_name(branch: &BranchContext, node: usize) -> (r: Option<String>)
    requires
        branch.wf(),
        node < branch.tree.nodes@.len(),
    ensures
        r is Some == spec_clause_name(*branch, node as int) is Some,
        r matches Some(s) ==> s@ == spec_clause_name(*branch, node as int)->Some_0,
{
    let n = branch.tree.nodes[node];
    let toks = &branch.source_tokens;
    let mut k = n.start;
    while k < n.end && k < toks.len()
        invariant
            n == branch.tree.nodes@[node as int],
            toks == &branch.source_tokens,
            n.start <= k,
            first_atom(toks@, n.start as int, n.end as int) == first_atom(toks@, k as int, n.end as int),
        decreases n.end - k,
    {
        if let TokValue::Atom(a) = &toks[k].value {
            return Some(a.clone());
        }
        k += 1;
    }
    None
}

/// Counts the arguments of a function clause's `ArgumentList`.
pub fn clause_arity(branch: &BranchContext, node: usize) -> (r: Option<u64>)
    requires
        branch.wf(),
        node < branch.tree.nodes@.len(),
    ensures
        r is Some == spec_clause_arity(*branch, node as int) is Some,
        r matches Some(a) ==> a as nat == spec_clause_arity(*branch, node as int)->Some_0,
{
    let ghost n_tokens = branch.source_tokens@.len();
    let nodes = &branch.tree.nodes;
    let cs = branch.tree.children(node, Ghost(n_tokens));
    proof {
        crate::syntax::lemma_sib_chain_bounds(nodes@, node + 1, nodes@[node as int].subtree_end as int);
    }
    let k = first_child_index(&branch.tree, &cs, SyntaxKind::ArgumentList, Ghost(n_tokens));
    if k >= cs.len() {
        return None;
    }
    assert(cs@[k as int] as int == children_of(nodes@, node as int)[k as int]);
    let args = branch.tree.children(cs[k], Ghost(n_tokens));
    assert(args@.len() == args@.map_values(|c: usize| c as int).len());
    Some(args.len() as u64)
}


/// Depth bookkeeping of one exploration fork: how many conditionals are
/// open, and for a fork that took the second arm of a conditional, the
/// depth at which it stops (the `-endif` closing that conditional).
#[derive(Debug, Clone, Copy, PartialEq, Eq, Structural)]
pub struct ForkDepth {
    pub depth: usize,
    pub stop_depth: Option<usize>,
}

/// The two forks at a conditional: the one that takes its first arm and
/// continues, and the one that takes the other arm and stops at the
/// conditional's `-endif`. An opening directive (`-ifdef`, `-ifndef`,
/// `-if`) opens one more level; `-elif` stays at the open level.
pub open spec fn spec_split(d: ForkDepth, opens: bool) -> (ForkDepth, ForkDepth) {
    let base = if opens { d.depth as int } else if d.depth > 0 { d.depth - 1 } else { 0 };
    let next = if opens { d.depth + 1 } else { d.depth as int };
    (
        ForkDepth { depth: next as usize, stop_depth: d.stop_depth },
        ForkDepth { depth: next as usize, stop_depth: Some(base as usize) },
    )
}

/// The forks at a conditional; see [`spec_split`].
pub fn split_at_conditional(d: ForkDepth, opens: bool) -> (r: (ForkDepth, ForkDepth))
    requires
        d.depth < usize::MAX,
    ensures
        r == spec_split(d, opens),
{
    let base = if opens { d.depth } else if d.depth > 0 { d.depth - 1 } else { 0 };
    let next = if opens { d.depth + 1 } else { d.depth };
    (ForkDepth { depth: next, stop_depth: d.stop_depth }, ForkDepth { depth: next, stop_depth: Some(base) })
}

/// The depth after an `-endif`, and whether the fork stops there.
pub open spec fn spec_endif(d: ForkDepth) -> (ForkDepth, bool) {
    let depth = if d.depth > 0 { d.depth - 1 } else { 0 };
    (
        ForkDepth { depth: depth as usize, stop_depth: d.stop_depth },
        match d.stop_depth {
            Some(stop) => depth <= stop,
            None => false,
        },
    )
}

/// The depth after an `-endif`, and whether the fork stops there; see
/// [`spec_endif`].
pub fn close_at_endif(d: ForkDepth) -> (r: (ForkDepth, bool))
    ensures
        r == spec_endif(d),
{
    let depth = if d.depth > 0 { d.depth - 1 } else { 0 };
    let stop = match d.stop_depth {
        Some(stop) => depth <= stop,
        None => false,
    };
    (ForkDepth { depth, stop_depth: d.stop_depth }, stop)
}

/// A conditional directive as a fork meets it: one that opens a level
/// (`-ifdef`, `-ifndef`, `-if`), an `-elif`, or an `-endif`.
#[derive(Debug, Clone, Copy, PartialEq, Eq, Structural)]
pub enum DirectiveEvent {
    Open,
    Elif,
    Endif,
}

/// What one directive does to a fork that goes on through it: its depth
/// after the directive, and whether it stops there.
pub open spec fn step_fork(d: ForkDepth, e: DirectiveEvent) -> (ForkDepth, bool) {
    match e {
        DirectiveEvent::Open => (spec_split(d, true).0, false),
        DirectiveEvent::Elif => (spec_split(d, false).0, false),
        DirectiveEvent::Endif => spec_endif(d),
    }
}

/// The index in `evs`, from `k` on, of the directive at which fork `d`
/// stops, if it stops.
pub open spec fn stop_index(d: ForkDepth, evs: Seq<DirectiveEvent>, k: int) -> Option<int>
    decreases evs.len() - k,
{
    if k < 0 || k >= evs.len() {
        None
    } else if step_fork(d, evs[k]).1 {
        Some(k)
    } else {
        stop_index(step_fork(d, evs[k]).0, evs, k + 1)
    }
}

/// The index in `evs`, from `k` on, of the `-endif` that closes a
/// conditional with `open` more conditionals still open inside it: each
/// opening directive opens one, each `-endif` closes one.
pub open spec fn matching_endif(evs: Seq<DirectiveEvent>, k: int, open: nat) -> Option<int>
    decreases evs.len() - k,
{
    if k < 0 || k >= evs.len() {
        None
    } else {
        match evs[k] {
            DirectiveEvent::Open => matching_endif(evs, k + 1, open + 1),
            DirectiveEvent::Elif => matching_endif(evs, k + 1, open),
            DirectiveEvent::Endif => if open == 0 {
                Some(k)
            } else {
                matching_endif(evs, k + 1, (open - 1) as nat)
            },
        }
    }
}

/// A fork that stops at depth `stop`, with `open` levels open above that,
/// stops at the matching `-endif`.
proof fn lemma_stop_index(d: ForkDepth, evs: Seq<DirectiveEvent>, k: int, open: nat)
    requires
        0 <= k <= evs.len(),
        d.stop_depth matches Some(s) && d.depth == s + 1 + open,
        d.depth + (evs.len() - k) < usize::MAX,
    ensures
        stop_index(d, evs, k) == matching_endif(evs, k, open),
    decreases evs.len() - k,
{
    if k < evs.len() {
        match evs[k] {
            DirectiveEvent::Open => lemma_stop_index(step_fork(d, evs[k]).0, evs, k + 1, open + 1),
            DirectiveEvent::Elif => lemma_stop_index(step_fork(d, evs[k]).0, evs, k + 1, open),
            DirectiveEvent::Endif => if open > 0 {
                lemma_stop_index(step_fork(d, evs[k]).0, evs, k + 1, (open - 1) as nat);
            },
        }
    }
}

/// Each source region is scanned by exactly one fork: the fork that takes
/// the other arm of a conditional, forked at an opening directive, or at
/// an `-elif` inside an open conditional, runs through the directives that
/// follow and stops exactly at the `-endif` that closes that conditional,
/// never before it and never past it; the fork that goes on never stops.
pub proof fn law_fork_stops_at_matching_endif(d: ForkDepth, opens: bool, evs: Seq<DirectiveEvent>)
    requires
        opens || d.depth > 0,
        d.depth + 1 + evs.len() < usize::MAX,
    ensures
        stop_index(spec_split(d, opens).1, evs, 0) == matching_endif(evs, 0, 0),
        d.stop_depth is None ==> stop_index(spec_split(d, opens).0, evs, 0) is None,
{
    lemma_stop_index(spec_split(d, opens).1, evs, 0, 0);
    if d.stop_depth is None {
        lemma_never_stops(spec_split(d, opens).0, evs, 0);
    }
}

/// A fork without a stop depth never stops.
proof fn lemma_never_stops(d: ForkDepth, evs: Seq<DirectiveEvent>, k: int)
    requires
        d.stop_depth is None,
        0 <= k <= evs.len(),
    ensures
        stop_index(d, evs, k) is None,
    decreases evs.len() - k,
{
    if k < evs.len() {
        lemma_never_stops(step_fork(d, evs[k]).0, evs, k + 1);
    }
}

/// What a fork does after an event, besides recording tokens, errors and
/// skipped directives.
#[derive(Debug, Clone, Copy, PartialEq, Eq, Structural)]
pub enum ForkAction {
    /// Step again.
    Continue,
    /// The fork is finished.
    Stop,
    /// Answer the include with an empty file, then step again.
    SkipInclude,
    /// Answer the macro with [`dummy_macro_atom`], then step again.
    ExpandMacro,
    /// Take the first arm here and hand the other arm to a new fork at
    /// depth `side`.
    Split { side: ForkDepth },
}

/// The directive event a fork meets in an event of class `c`, if any.
pub open spec fn directive_of(c: EventClass) -> Option<DirectiveEvent> {
    match c {
        EventClass::AwaitingIfdef | EventClass::AwaitingIfndef | EventClass::AwaitingIf => Some(DirectiveEvent::Open),
        EventClass::AwaitingElif => Some(DirectiveEvent::Elif),
        EventClass::Endif => Some(DirectiveEvent::Endif),
        _ => None,
    }
}

/// The depth of fork `d` after an event of class `c`, and what it does:
/// at a conditional it splits (it stops where no deeper level can be
/// counted); at an `-endif` it closes a level and stops when that ends the
/// conditional it was forked from; it stops at the end of the input, skips
/// includes and expands unknown macros.
pub open spec fn spec_fork_step(d: ForkDepth, c: EventClass) -> (ForkDepth, ForkAction) {
    match c {
        EventClass::AwaitingIfdef | EventClass::AwaitingIfndef | EventClass::AwaitingIf | EventClass::AwaitingElif => {
            if d.depth == usize::MAX {
                (d, ForkAction::Stop)
            } else {
                let opens = c != EventClass::AwaitingElif;
                (spec_split(d, opens).0, ForkAction::Split { side: spec_split(d, opens).1 })
            }
        },
        EventClass::Endif => (spec_endif(d).0, if spec_endif(d).1 { ForkAction::Stop } else { ForkAction::Continue }),
        EventClass::Complete => (d, ForkAction::Stop),
        EventClass::AwaitingInclude | EventClass::AwaitingIncludeLib => (d, ForkAction::SkipInclude),
        EventClass::AwaitingMacroExpansion => (d, ForkAction::ExpandMacro),
        _ => (d, ForkAction::Continue),
    }
}

/// The depth and the action of fork `d` after an event of class `c`; see
/// [`spec_fork_step`].
pub fn fork_step(d: ForkDepth, c: EventClass) -> (r: (ForkDepth, ForkAction))
    ensures
        r == spec_fork_step(d, c),
{
    match c {
        EventClass::AwaitingIfdef | EventClass::AwaitingIfndef | EventClass::AwaitingIf | EventClass::AwaitingElif => {
            if d.depth == usize::MAX {
                (d, ForkAction::Stop)
            } else {
                let opens = !matches!(c, EventClass::AwaitingElif);
                let (main, side) = split_at_conditional(d, opens);
                (main, ForkAction::Split { side })
            }
        },
        EventClass::Endif => {
            let (next, stop) = close_at_endif(d);
            (next, if stop { ForkAction::Stop } else { ForkAction::Continue })
        },
        EventClass::Complete => (d, ForkAction::Stop),
        EventClass::AwaitingInclude | EventClass::AwaitingIncludeLib => (d, ForkAction::SkipInclude),
        EventClass::AwaitingMacroExpansion => (d, ForkAction::ExpandMacro),
        _ => (d, ForkAction::Continue),
    }
}

/// The fork driver follows the directive model: at an event that is a
/// directive, a fork's depth and whether it stops are those [`step_fork`]
/// gives, and at a conditional the new fork starts at the depth
/// [`spec_split`] gives it; any other event leaves the depth alone and
/// stops the fork only at the end of the input. With
/// [`law_fork_stops_at_matching_endif`], a fork handed the other arm of a
/// conditional stops exactly at the `-endif` that closes it.
pub proof fn law_fork_step_follows_directives(d: ForkDepth, c: EventClass)
    requires
        d.depth < usize::MAX,
    ensures
        directive_of(c) matches Some(e) ==> spec_fork_step(d, c).0 == step_fork(d, e).0
            && (spec_fork_step(d, c).1 == ForkAction::Stop) == step_fork(d, e).1,
        match directive_of(c) {
            Some(DirectiveEvent::Open) => spec_fork_step(d, c).1 == (ForkAction::Split { side: spec_split(d, true).1 }),
            Some(DirectiveEvent::Elif) => spec_fork_step(d, c).1 == (ForkAction::Split { side: spec_split(d, false).1 }),
            _ => true,
        },
        directive_of(c) is None ==> spec_fork_step(d, c).0 == d
            && (spec_fork_step(d, c).1 == ForkAction::Stop) == (c == EventClass::Complete),
{
}

/// The message of a preprocessing error of kind `kind` whose text field
/// (expected form or macro name) is `detail`.
pub open spec fn pp_error_message(kind: PpErrorKind, detail: Seq<char>) -> Seq<char> {
    match kind {
        PpErrorKind::ParseUnexpectedToken => "unexpected token in directive; expected "@ + detail,
        PpErrorKind::ParseUnexpectedEof => "unexpected end of file in directive; expected "@ + detail,
        PpErrorKind::DuplicateParameter => "duplicate macro parameter: "@ + detail,
        PpErrorKind::ArityMismatch => "macro arity mismatch: "@ + detail,
        PpErrorKind::UnclosedArgument => "unclosed macro argument"@,
        PpErrorKind::LeadingEmptyArgument => "leading empty macro argument"@,
        PpErrorKind::TrailingEmptyArgument => "trailing empty macro argument"@,
        PpErrorKind::InvalidStringificationTarget => "invalid stringification target"@,
        PpErrorKind::CircularExpansion => "circular macro expansion: "@ + detail,
        PpErrorKind::StrayElse => "stray -else"@,
        PpErrorKind::StrayEndif => "stray -endif"@,
        PpErrorKind::DoubleElse => "double -else"@,
        PpErrorKind::UnclosedConditional => "unclosed conditional"@,
        PpErrorKind::StrayElif => "stray -elif"@,
        PpErrorKind::ElifAfterElse => "-elif after -else"@,
    }
}

/// Human-readable description of a preprocessor structural error.
pub fn preprocess_error_message(kind: PpErrorKind, detail: &str) -> (m: String)
    ensures
        m@ == pp_error_message(kind, detail@),
{
    let (prefix, with_detail) = match kind {
        PpErrorKind::ParseUnexpectedToken => ("unexpected token in directive; expected ", true),
        PpErrorKind::ParseUnexpectedEof => ("unexpected end of file in directive; expected ", true),
        PpErrorKind::DuplicateParameter => ("duplicate macro parameter: ", true),
        PpErrorKind::ArityMismatch => ("macro arity mismatch: ", true),
        PpErrorKind::UnclosedArgument => ("unclosed macro argument", false),
        PpErrorKind::LeadingEmptyArgument => ("leading empty macro argument", false),
        PpErrorKind::TrailingEmptyArgument => ("trailing empty macro argument", false),
        PpErrorKind::InvalidStringificationTarget => ("invalid stringification target", false),
        PpErrorKind::CircularExpansion => ("circular macro expansion: ", true),
        PpErrorKind::StrayElse => ("stray -else", false),
        PpErrorKind::StrayEndif => ("stray -endif", false),
        PpErrorKind::DoubleElse => ("double -else", false),
        PpErrorKind::UnclosedConditional => ("unclosed conditional", false),
        PpErrorKind::StrayElif => ("stray -elif", false),
        PpErrorKind::ElifAfterElse => ("-elif after -else", false),
    };
    let mut m = String::from_str(prefix);
    if with_detail {
        m.append(detail);
    }
    m
}

/// The first index at or after `k` of a token starting at `off`, or the
/// number of tokens.
pub open spec fn index_at(toks: Seq<Tok>, off: usize, k: int) -> int
    decreases toks.len() - k,
{
    if k < 0 || k >= toks.len() {
        toks.len() as int
    } else if toks[k].start == off {
        k
    } else {
        index_at(toks, off, k + 1)
    }
}

/// The first index at or after `k` of a lexical token, or the number of
/// tokens.
pub open spec fn next_lexical(toks: Seq<Tok>, k: int) -> int
    decreases toks.len() - k,
{
    if k < 0 || k >= toks.len() {
        toks.len() as int
    } else if toks[k].lexical {
        k
    } else {
        next_lexical(toks, k + 1)
    }
}

/// The range of a directive's name: the first lexical token after the
/// token (the `-`) that starts at `off`.
pub open spec fn spec_directive_name(toks: Seq<Tok>, off: usize) -> Option<Span> {
    let h = index_at(toks, off, 0);
    if h >= toks.len() {
        None
    } else {
        let m = next_lexical(toks, h + 1);
        if m < toks.len() {
            Some(toks[m].span())
        } else {
            None
        }
    }
}

/// Locates a directive's name atom in the original tokens.
pub fn directive_name_span(toks: &Vec<Tok>, off: usize) -> (r: Option<Span>)
    ensures
        r == spec_directive_name(toks@, off),
{
    let mut h: usize = 0;
    while h < toks.len() && toks[h].start != off
        invariant
            h <= toks@.len(),
            index_at(toks@, off, 0) == index_at(toks@, off, h as int),
        decreases toks@.len() - h,
    {
        h += 1;
    }
    if h >= toks.len() {
        return None;
    }
    let mut m = h + 1;
    while m < toks.len() && !toks[m].lexical
        invariant
            h < m <= toks@.len(),
            next_lexical(toks@, h + 1) == next_lexical(toks@, m as int),
        decreases toks@.len() - m,
    {
        m += 1;
    }
    if m < toks.len() {
        Some(Span::new(toks[m].start, toks[m].end))
    } else {
        None
    }
}

/// One in-progress exploration fork of the preprocessor.
struct Fork {
    m: PpMachine,
    d: ForkDepth,
    tokens: Vec<BranchToken>,
    diagnostics: Vec<PreprocessDiagnostic>,
    includes: Vec<SkippedDirective>,
    defines: Vec<SkippedDirective>,
}

/// Whether a token's original-file range, when it has one, lies in `text`.
pub open spec fn opt_fits(o: Option<Span>, text: Seq<u8>) -> bool {
    match o {
        Some(s) => s.fits(text),
        None => true,
    }
}

/// Whether every token's original-file range lies in `text`.
pub open spec fn spans_fit(toks: Seq<BranchToken>, text: Seq<u8>) -> bool {
    forall|i: int| 0 <= i < toks.len() ==> opt_fits((#[trigger] toks[i]).span, text)
}

/// Whether a diagnostic reports a preprocessing error: its message is
/// the message of some error kind.
pub open spec fn reports_pp_error(d: PreprocessDiagnostic) -> bool {
    exists|k: PpErrorKind, detail: Seq<char>| #[trigger] pp_error_message(k, detail) == d.message@
}

/// Whether every diagnostic reports a preprocessing error.
pub open spec fn all_pp_errors(ds: Seq<PreprocessDiagnostic>) -> bool {
    forall|i: int| 0 <= i < ds.len() ==> reports_pp_error(#[trigger] ds[i])
}

/// What a finished fork contributes: a branch without a parse forest yet,
/// whose diagnostics all report preprocessing errors.
pub open spec fn fork_result_ok(b: BranchContext, text: Seq<u8>) -> bool {
    &&& b.tree.nodes@.len() == 0
    &&& b.tree.diagnostics@.len() == 0
    &&& spans_fit(b.source_tokens@, text)
    &&& all_pp_errors(b.preprocess_diagnostics@)
}

/// The atom an unknown macro expands to, so the file still parses.
/// Lowercase so it scans as an atom, valid wherever a macro's value could
/// appear.
pub fn dummy_macro_atom() -> (s: &'static str)
    ensures
        s@ == "elint_dummy"@,
{
    "elint_dummy"
}

/// The site in the original file of a token read at `own` in its own
/// source and reached through the origin `sites`: `own` for a token of the
/// file itself, else the last site of the chain.
pub open spec fn token_site(own: Span, sites: Seq<Span>) -> Span {
    if sites.len() == 0 {
        own
    } else {
        sites.last()
    }
}

/// The branch token of a token spelled `spelling` with value `value`,
/// read at `own` and reached through `sites`: it keeps its spelling and
/// value, it was written in the file itself when no site leads to it, and
/// its range is its site in the original file where that lies in `text`.
pub fn token_of(spelling: String, value: TokValue, own: Span, sites: &Vec<Span>, text: &str) -> (t: BranchToken)
    ensures
        t.text@ == spelling@,
        t.value == value,
        t.from_source == (sites@.len() == 0),
        t.span == (if token_site(own, sites@).fits(text.spec_bytes()) { Some(token_site(own, sites@)) } else { None::<Span> }),
{
    let from_source = sites.len() == 0;
    let at = if from_source { own } else { sites[sites.len() - 1] };
    let span = if at.fits_in(text) { Some(at) } else { None };
    BranchToken { text: spelling, value, span, from_source }
}

/// A branch token as plain values: spelling, value, original-file range,
/// and whether it was written in the file itself.
pub open spec fn token_view(t: BranchToken) -> (Seq<char>, TokValue, Option<Span>, bool) {
    (t.text@, t.value, t.span, t.from_source)
}

/// What one branch holds, as plain values.
#[verifier::ext_equal]
pub struct BranchView {
    pub tokens: Seq<(Seq<char>, TokValue, Option<Span>, bool)>,
    pub diagnostics: Seq<(Span, Seq<char>)>,
    pub includes: Seq<SkippedDirective>,
    pub defines: Seq<SkippedDirective>,
}

/// A diagnostic as plain values.
pub open spec fn diagnostic_view(d: PreprocessDiagnostic) -> (Span, Seq<char>) {
    (d.span, d.message@)
}

/// The preprocessed content of a branch as plain values.
pub open spec fn branch_view(b: BranchContext) -> BranchView {
    BranchView {
        tokens: b.source_tokens@.map_values(|t: BranchToken| token_view(t)),
        diagnostics: b.preprocess_diagnostics@.map_values(|d: PreprocessDiagnostic| diagnostic_view(d)),
        includes: b.skipped_includes@,
        defines: b.skipped_defines@,
    }
}

/// A branch that holds nothing yet.
pub open spec fn empty_log() -> BranchView {
    BranchView { tokens: Seq::empty(), diagnostics: Seq::empty(), includes: Seq::empty(), defines: Seq::empty() }
}

/// A fork being explored: the inputs its preprocessor was given, its depth
/// and what it has recorded.
#[verifier::ext_equal]
pub struct ForkView {
    pub inputs: Seq<PpInput>,
    pub d: ForkDepth,
    pub log: BranchView,
}

/// The branch token of a token read at `own`, reached through `sites`;
/// see [`token_of`].
pub open spec fn token_entry(s: Seq<char>, v: TokValue, own: Span, sites: Seq<Span>, bytes: Seq<u8>) -> (Seq<char>, TokValue, Option<Span>, bool) {
    (s, v, if token_site(own, sites).fits(bytes) { Some(token_site(own, sites)) } else { None }, sites.len() == 0)
}

/// What a fork records of event `ev`: the token of a `Token` event, the
/// directive name of an include or a `-define` where the original tokens
/// locate it, and the message of a preprocessing error; nothing else.
pub open spec fn record(log: BranchView, ev: PpEventView, bytes: Seq<u8>, original: Seq<Tok>) -> BranchView {
    match ev.class {
        EventClass::Token => match ev.token {
            Some((s, v, own)) => BranchView { tokens: log.tokens.push(token_entry(s, v, own, ev.sites, bytes)), ..log },
            None => log,
        },
        EventClass::AwaitingInclude | EventClass::AwaitingIncludeLib => match ev.directive {
            Some(d) => match spec_directive_name(original, d.start) {
                Some(ns) => BranchView {
                    includes: log.includes.push(SkippedDirective { is_lib: ev.class == EventClass::AwaitingIncludeLib, name_span: ns }),
                    ..log
                },
                None => log,
            },
            None => log,
        },
        EventClass::MacroDefined => match ev.directive {
            Some(d) => match spec_directive_name(original, d.start) {
                Some(ns) => BranchView { defines: log.defines.push(SkippedDirective { is_lib: false, name_span: ns }), ..log },
                None => log,
            },
            None => log,
        },
        EventClass::PreprocessError => match (ev.error_kind, ev.error_span) {
            (Some(k), Some(sp)) => BranchView { diagnostics: log.diagnostics.push((sp, pp_error_message(k, ev.error_detail))), ..log },
            _ => log,
        },
        _ => log,
    }
}

/// The name of the empty file that answers an include.
pub open spec fn skipped_source() -> Seq<char> {
    "<skipped-\x69nclude>"@
}

/// The name of the source that answers an unknown macro.
pub open spec fn dummy_source() -> Seq<char> {
    "<elint-dummy-macro>"@
}

/// Fork `f` runs with `fuel` steps left while `pend` waits: each step
/// gives the preprocessor a step, records the event, and does what
/// [`spec_fork_step`] decides, answering includes with an empty file,
/// unknown macros with [`dummy_macro_atom`], and a conditional by taking
/// its first arm and handing its other arm to a new fork pushed on `pend`.
/// Gives the fork, the forks waiting and the fuel left when it stops.
pub open spec fn fork_run(path: Seq<char>, text: Seq<char>, original: Seq<Tok>, f: ForkView, pend: Seq<ForkView>, fuel: nat) -> (ForkView, Seq<ForkView>, nat)
    decreases fuel,
{
    if fuel == 0 {
        (f, pend, 0)
    } else {
        let fuel1 = (fuel - 1) as nat;
        let h1 = f.inputs.push(PpInput::Step);
        match pp_event(path, text, h1) {
            None => (ForkView { inputs: h1, d: f.d, log: f.log }, pend, fuel1),
            Some(ev) => {
                let d1 = spec_fork_step(f.d, ev.class).0;
                let f1 = ForkView { inputs: h1, d: d1, log: record(f.log, ev, vstd::utf8::encode_utf8(text), original) };
                match spec_fork_step(f.d, ev.class).1 {
                    ForkAction::Continue => fork_run(path, text, original, f1, pend, fuel1),
                    ForkAction::Stop => (f1, pend, fuel1),
                    ForkAction::SkipInclude => {
                        let f2 = ForkView { inputs: h1.push(PpInput::SkipInclude(skipped_source())), ..f1 };
                        if pp_accepts_include(path, text, f2.inputs) {
                            fork_run(path, text, original, f2, pend, fuel1)
                        } else {
                            (f2, pend, fuel1)
                        }
                    },
                    ForkAction::ExpandMacro => {
                        let f2 = ForkView { inputs: h1.push(PpInput::Expand(dummy_source(), "elint_dummy"@)), ..f1 };
                        if pp_accepts_macro(path, text, f2.inputs) {
                            fork_run(path, text, original, f2, pend, fuel1)
                        } else {
                            (f2, pend, fuel1)
                        }
                    },
                    ForkAction::Split { side } => {
                        let hm = h1.push(PpInput::Resume(true));
                        let hs = h1.push(PpInput::Resume(false));
                        if pp_accepts_branch(path, text, hm) && pp_accepts_branch(path, text, hs) {
                            fork_run(
                                path, text, original,
                                ForkView { inputs: hm, ..f1 },
                                pend.push(ForkView { inputs: hs, d: side, log: empty_log() }),
                                fuel1,
                            )
                        } else {
                            (f1, pend, fuel1)
                        }
                    },
                }
            },
        }
    }
}

/// The branches of exploring the forks `pend`, the last first, after the
/// branches `done`, with `fuel` steps left: each fork runs until it stops
/// and gives one branch.
pub open spec fn explore(path: Seq<char>, text: Seq<char>, original: Seq<Tok>, pend: Seq<ForkView>, done: Seq<BranchView>, fuel: nat) -> Seq<BranchView>
    decreases fuel,
{
    if pend.len() == 0 || fuel == 0 {
        done
    } else {
        let cap = (fuel - 1) as nat;
        let r = fork_run(path, text, original, pend.last(), pend.drop_last(), cap);
        explore(path, text, original, r.1, done.push(r.0.log), if r.2 <= cap { r.2 } else { cap })
    }
}

/// The fork the exploration starts with: a fresh preprocessor at depth 0
/// that never stops at an `-endif`.
pub open spec fn root_fork() -> ForkView {
    ForkView { inputs: Seq::empty(), d: ForkDepth { depth: 0, stop_depth: None }, log: empty_log() }
}

/// The branches of a file named `path` with text `text`, whose scanned
/// tokens are `original`: the mainline first, then one branch per other
/// arm of each conditional met on the way.
pub open spec fn spec_branches(path: Seq<char>, text: Seq<char>, original: Seq<Tok>) -> Seq<BranchView> {
    explore(path, text, original, seq![root_fork()], Seq::empty(), u64::MAX as nat)
}

/// No input of `inputs` from position `from` on takes the other arm of a
/// conditional.
pub open spec fn takes_first_arms(inputs: Seq<PpInput>, from: int) -> bool {
    forall|j: int| from <= j < inputs.len() ==> #[trigger] inputs[j] != PpInput::Resume(false)
}

/// The inputs of the fork that takes the other arm of the conditional
/// answered at position `j` of `main`.
pub open spec fn other_arm(main: Seq<PpInput>, j: int) -> Seq<PpInput> {
    main.subrange(0, j).push(PpInput::Resume(false))
}

/// What a fork's run does to the inputs and to the waiting forks: the
/// fork's inputs only grow and take first arms, and the forks it adds
/// correspond one to one to the conditionals it answered, each a new
/// empty fork given the same inputs up to that conditional and then its
/// other arm.
pub open spec fn run_shape(f: ForkView, pend: Seq<ForkView>, r: (ForkView, Seq<ForkView>, nat)) -> bool {
    &&& f.inputs.len() <= r.0.inputs.len()
    &&& r.0.inputs.subrange(0, f.inputs.len() as int) == f.inputs
    &&& takes_first_arms(r.0.inputs, f.inputs.len() as int)
    &&& pend.len() <= r.1.len()
    &&& r.1.subrange(0, pend.len() as int) == pend
    &&& forall|k: int| pend.len() <= k < r.1.len() ==> (#[trigger] r.1[k]).log == empty_log()
        && exists|j: int| f.inputs.len() <= j < r.0.inputs.len() && r.0.inputs[j] == PpInput::Resume(true)
            && r.1[k].inputs == #[trigger] other_arm(r.0.inputs, j)
    &&& forall|j: int| f.inputs.len() <= j < r.0.inputs.len() && #[trigger] r.0.inputs[j] == PpInput::Resume(true)
        ==> exists|k: int| pend.len() <= k < r.1.len() && (#[trigger] r.1[k]).inputs == other_arm(r.0.inputs, j)
}

/// A fork's run has the shape [`run_shape`] states.
#[verifier::rlimit(60)]
#[verifier::spinoff_prover]
pub proof fn law_fork_run_shape(path: Seq<char>, text: Seq<char>, original: Seq<Tok>, f: ForkView, pend: Seq<ForkView>, fuel: nat)
    ensures
        run_shape(f, pend, fork_run(path, text, original, f, pend, fuel)),
    decreases fuel,
{
    let r = fork_run(path, text, original, f, pend, fuel);
    if fuel == 0 {
        assert(r.0.inputs.subrange(0, f.inputs.len() as int) =~= f.inputs);
        assert(r.1.subrange(0, pend.len() as int) =~= pend);
        return;
    }
    let fuel1 = (fuel - 1) as nat;
    let h1 = f.inputs.push(PpInput::Step);
    match pp_event(path, text, h1) {
        None => {
            assert(r.0.inputs.subrange(0, f.inputs.len() as int) =~= f.inputs);
            assert(r.1.subrange(0, pend.len() as int) =~= pend);
        },
        Some(ev) => {
            let d1 = spec_fork_step(f.d, ev.class).0;
            let f1 = ForkView { inputs: h1, d: d1, log: record(f.log, ev, vstd::utf8::encode_utf8(text), original) };
            match spec_fork_step(f.d, ev.class).1 {
                ForkAction::Continue => {
                    law_fork_run_shape(path, text, original, f1, pend, fuel1);
                    assert(f1.inputs.subrange(0, f.inputs.len() as int) =~= f.inputs);
                    lemma_shape_extend(f, f1, pend, pend, r);
                },
                ForkAction::Stop => {
                    assert(r.0.inputs.subrange(0, f.inputs.len() as int) =~= f.inputs);
                    assert(r.1.subrange(0, pend.len() as int) =~= pend);
                },
                ForkAction::SkipInclude => {
                    let f2 = ForkView { inputs: h1.push(PpInput::SkipInclude(skipped_source())), ..f1 };
                    if pp_accepts_include(path, text, f2.inputs) {
                        law_fork_run_shape(path, text, original, f2, pend, fuel1);
                        assert(f2.inputs.subrange(0, f.inputs.len() as int) =~= f.inputs);
                        lemma_shape_extend(f, f2, pend, pend, r);
                    } else {
                        assert(r.0.inputs.subrange(0, f.inputs.len() as int) =~= f.inputs);
                        assert(r.1.subrange(0, pend.len() as int) =~= pend);
                    }
                },
                ForkAction::ExpandMacro => {
                    let f2 = ForkView { inputs: h1.push(PpInput::Expand(dummy_source(), "elint_dummy"@)), ..f1 };
                    if pp_accepts_macro(path, text, f2.inputs) {
                        law_fork_run_shape(path, text, original, f2, pend, fuel1);
                        assert(f2.inputs.subrange(0, f.inputs.len() as int) =~= f.inputs);
                        lemma_shape_extend(f, f2, pend, pend, r);
                    } else {
                        assert(r.0.inputs.subrange(0, f.inputs.len() as int) =~= f.inputs);
                        assert(r.1.subrange(0, pend.len() as int) =~= pend);
                    }
                },
                ForkAction::Split { side } => {
                    let hm = h1.push(PpInput::Resume(true));
                    let hs = h1.push(PpInput::Resume(false));
                    if pp_accepts_branch(path, text, hm) && pp_accepts_branch(path, text, hs) {
                        let fm = ForkView { inputs: hm, ..f1 };
                        let sf = ForkView { inputs: hs, d: side, log: empty_log() };
                        let pend2 = pend.push(sf);
                        law_fork_run_shape(path, text, original, fm, pend2, fuel1);
                        lemma_shape_split(f, fm, sf, pend, r);
                    } else {
                        assert(r.0.inputs.subrange(0, f.inputs.len() as int) =~= f.inputs);
                        assert(r.1.subrange(0, pend.len() as int) =~= pend);
                    }
                },
            }
        },
    }
}

/// A run that goes on from `g`, whose inputs extend `f`'s without taking
/// another arm, with the same waiting forks, keeps the shape from `f`.
#[verifier::rlimit(60)]
#[verifier::spinoff_prover]
proof fn lemma_shape_extend(f: ForkView, g: ForkView, pend: Seq<ForkView>, pend2: Seq<ForkView>, r: (ForkView, Seq<ForkView>, nat))
    requires
        pend2 == pend,
        f.inputs.len() < g.inputs.len(),
        g.inputs.subrange(0, f.inputs.len() as int) == f.inputs,
        forall|j: int| f.inputs.len() <= j < g.inputs.len() ==> (#[trigger] g.inputs[j]) != PpInput::Resume(false)
            && g.inputs[j] != PpInput::Resume(true),
        run_shape(g, pend2, r),
    ensures
        run_shape(f, pend, r),
{
    assert(r.0.inputs.subrange(0, f.inputs.len() as int) =~= f.inputs) by {
        assert forall|j: int| 0 <= j < f.inputs.len() implies r.0.inputs[j] == f.inputs[j] by {
            assert(r.0.inputs.subrange(0, g.inputs.len() as int)[j] == g.inputs[j]);
            assert(g.inputs.subrange(0, f.inputs.len() as int)[j] == f.inputs[j]);
        }
    }
    assert forall|j: int| f.inputs.len() <= j < r.0.inputs.len() implies #[trigger] r.0.inputs[j] != PpInput::Resume(false) by {
        if j < g.inputs.len() {
            assert(r.0.inputs.subrange(0, g.inputs.len() as int)[j] == g.inputs[j]);
        }
    }
    assert forall|k: int| pend.len() <= k < r.1.len() implies (#[trigger] r.1[k]).log == empty_log()
        && exists|j: int| f.inputs.len() <= j < r.0.inputs.len() && r.0.inputs[j] == PpInput::Resume(true)
            && r.1[k].inputs == #[trigger] other_arm(r.0.inputs, j) by {
        let j = choose|j: int| g.inputs.len() <= j < r.0.inputs.len() && r.0.inputs[j] == PpInput::Resume(true)
            && r.1[k].inputs == #[trigger] other_arm(r.0.inputs, j);
        assert(f.inputs.len() <= j);
    }
    assert forall|j: int| f.inputs.len() <= j < r.0.inputs.len() && #[trigger] r.0.inputs[j] == PpInput::Resume(true)
        implies exists|k: int| pend.len() <= k < r.1.len() && (#[trigger] r.1[k]).inputs == other_arm(r.0.inputs, j) by {
        if j < g.inputs.len() {
            assert(r.0.inputs.subrange(0, g.inputs.len() as int)[j] == g.inputs[j]);
        }
    }
}

/// A run that goes on from `fm`, which took the first arm of a
/// conditional whose other arm went to the new fork `sf`, keeps the shape
/// from `f`.
#[verifier::rlimit(60)]
#[verifier::spinoff_prover]
proof fn lemma_shape_split(f: ForkView, fm: ForkView, sf: ForkView, pend: Seq<ForkView>, r: (ForkView, Seq<ForkView>, nat))
    requires
        fm.inputs == f.inputs.push(PpInput::Step).push(PpInput::Resume(true)),
        sf.inputs == f.inputs.push(PpInput::Step).push(PpInput::Resume(false)),
        sf.log == empty_log(),
        run_shape(fm, pend.push(sf), r),
    ensures
        run_shape(f, pend, r),
{
    let n = f.inputs.len() as int;
    let j0 = n + 1;
    let pend2 = pend.push(sf);
    assert(r.0.inputs.subrange(0, fm.inputs.len() as int)[j0] == fm.inputs[j0]);
    assert(r.0.inputs[j0] == PpInput::Resume(true));
    assert(r.0.inputs.subrange(0, j0) =~= f.inputs.push(PpInput::Step)) by {
        assert forall|j: int| 0 <= j < j0 implies r.0.inputs[j] == f.inputs.push(PpInput::Step)[j] by {
            assert(r.0.inputs.subrange(0, fm.inputs.len() as int)[j] == fm.inputs[j]);
        }
    }
    assert(other_arm(r.0.inputs, j0) =~= sf.inputs);
    assert(r.1[pend.len() as int] == r.1.subrange(0, pend2.len() as int)[pend.len() as int]);
    assert(r.1[pend.len() as int] == sf);
    assert(r.0.inputs.subrange(0, n) =~= f.inputs) by {
        assert forall|j: int| 0 <= j < n implies r.0.inputs[j] == f.inputs[j] by {
            assert(r.0.inputs.subrange(0, fm.inputs.len() as int)[j] == fm.inputs[j]);
        }
    }
    assert forall|j: int| n <= j < r.0.inputs.len() implies #[trigger] r.0.inputs[j] != PpInput::Resume(false) by {
        if j < fm.inputs.len() {
            assert(r.0.inputs.subrange(0, fm.inputs.len() as int)[j] == fm.inputs[j]);
        }
    }
    assert(r.1.subrange(0, pend.len() as int) =~= pend) by {
        assert forall|k: int| 0 <= k < pend.len() implies r.1[k] == pend[k] by {
            assert(r.1.subrange(0, pend2.len() as int)[k] == pend2[k]);
        }
    }
    assert forall|k: int| pend.len() <= k < r.1.len() implies (#[trigger] r.1[k]).log == empty_log()
        && exists|j: int| n <= j < r.0.inputs.len() && r.0.inputs[j] == PpInput::Resume(true)
            && r.1[k].inputs == #[trigger] other_arm(r.0.inputs, j) by {
        if k == pend.len() {
            assert(r.1[k].inputs == other_arm(r.0.inputs, j0));
        } else {
            let j = choose|j: int| fm.inputs.len() <= j < r.0.inputs.len() && r.0.inputs[j] == PpInput::Resume(true)
                && r.1[k].inputs == #[trigger] other_arm(r.0.inputs, j);
            assert(n <= j);
        }
    }
    assert forall|j: int| n <= j < r.0.inputs.len() && #[trigger] r.0.inputs[j] == PpInput::Resume(true)
        implies exists|k: int| pend.len() <= k < r.1.len() && (#[trigger] r.1[k]).inputs == other_arm(r.0.inputs, j) by {
        if j == j0 {
            assert(r.1[pend.len() as int].inputs == other_arm(r.0.inputs, j));
        } else if j < fm.inputs.len() {
            assert(r.0.inputs.subrange(0, fm.inputs.len() as int)[j] == fm.inputs[j]);
        }
    }
}

/// Exploring keeps the branches already done in front.
proof fn lemma_explore_keeps_done(path: Seq<char>, text: Seq<char>, original: Seq<Tok>, pend: Seq<ForkView>, done: Seq<BranchView>, fuel: nat)
    ensures
        done.len() <= explore(path, text, original, pend, done, fuel).len(),
        forall|i: int| 0 <= i < done.len() ==> #[trigger] explore(path, text, original, pend, done, fuel)[i] == done[i],
    decreases fuel,
{
    if !(pend.len() == 0 || fuel == 0) {
        let cap = (fuel - 1) as nat;
        let r = fork_run(path, text, original, pend.last(), pend.drop_last(), cap);
        let done2 = done.push(r.0.log);
        lemma_explore_keeps_done(path, text, original, r.1, done2, if r.2 <= cap { r.2 } else { cap });
        assert forall|i: int| 0 <= i < done.len() implies #[trigger] explore(path, text, original, pend, done, fuel)[i] == done[i] by {
            assert(done2[i] == done[i]);
        }
    }
}

/// The mainline comes first: the first branch is what the first fork
/// records, and that fork takes the first arm of every conditional it
/// meets. Every other arm it answers goes to a fork of its own (see
/// [`law_fork_run_shape`]).
pub proof fn law_mainline_takes_first_arms(path: Seq<char>, text: Seq<char>, original: Seq<Tok>)
    ensures
        spec_branches(path, text, original).len() >= 1,
        spec_branches(path, text, original)[0]
            == fork_run(path, text, original, root_fork(), Seq::empty(), (u64::MAX - 1) as nat).0.log,
        takes_first_arms(fork_run(path, text, original, root_fork(), Seq::empty(), (u64::MAX - 1) as nat).0.inputs, 0),
        run_shape(root_fork(), Seq::empty(), fork_run(path, text, original, root_fork(), Seq::empty(), (u64::MAX - 1) as nat)),
{
    let cap = (u64::MAX - 1) as nat;
    let pend = seq![root_fork()];
    assert(pend.last() == root_fork());
    assert(pend.drop_last() =~= Seq::<ForkView>::empty());
    let r = fork_run(path, text, original, root_fork(), Seq::empty(), cap);
    let done = Seq::<BranchView>::empty().push(r.0.log);
    lemma_explore_keeps_done(path, text, original, r.1, done, if r.2 <= cap { r.2 } else { cap });
    law_fork_run_shape(path, text, original, root_fork(), Seq::empty(), cap);
}

/// An exploration fork as plain values.
spec fn fork_view(f: Fork) -> ForkView {
    ForkView {
        inputs: f.m.inputs(),
        d: f.d,
        log: BranchView {
            tokens: f.tokens@.map_values(|t: BranchToken| token_view(t)),
            diagnostics: f.diagnostics@.map_values(|d: PreprocessDiagnostic| diagnostic_view(d)),
            includes: f.includes@,
            defines: f.defines@,
        },
    }
}

/// The forks as plain values.
spec fn forks_view(fs: Seq<Fork>) -> Seq<ForkView> {
    fs.map_values(|f: Fork| fork_view(f))
}

/// The branches as plain values.
pub open spec fn branches_view(bs: Seq<BranchContext>) -> Seq<BranchView> {
    bs.map_values(|b: BranchContext| branch_view(b))
}

/// Records the last event of the fork's machine, of kind `class`; see
/// [`record`].
fn record_event(fork: &mut Fork, class: EventClass, text: &str, original: &Vec<Tok>)
    requires
        old(fork).m.stepped(),
        class == old(fork).m.event().class,
        spans_fit(old(fork).tokens@, text.spec_bytes()),
        all_pp_errors(old(fork).diagnostics@),
    ensures
        final(fork).m == old(fork).m,
        final(fork).d == old(fork).d,
        fork_view(*final(fork)) == (ForkView {
            log: record(fork_view(*old(fork)).log, old(fork).m.event(), text.spec_bytes(), original@),
            ..fork_view(*old(fork))
        }),
        spans_fit(final(fork).tokens@, text.spec_bytes()),
        all_pp_errors(final(fork).diagnostics@),
{
    let ghost f0 = fork_view(*fork);
    let ghost ev = fork.m.event();
    match class {
        EventClass::Token => {
            if let Some((spelling, value, own)) = event_token(&fork.m) {
                let sites = event_token_sites(&fork.m);
                let t = token_of(spelling, value, own, &sites, text);
                fork.tokens.push(t);
                assert(fork.tokens@.map_values(|t: BranchToken| token_view(t)) =~= f0.log.tokens.push(token_entry(ev.token->Some_0.0, ev.token->Some_0.1, own, ev.sites, text.spec_bytes())));
            }
        },
        EventClass::AwaitingInclude | EventClass::AwaitingIncludeLib => {
            if let Some(d) = event_directive_span(&fork.m) {
                if let Some(name_span) = directive_name_span(original, d.start) {
                    let is_lib = matches!(class, EventClass::AwaitingIncludeLib);
                    fork.includes.push(SkippedDirective { is_lib, name_span });
                }
            }
        },
        EventClass::MacroDefined => {
            if let Some(d) = event_directive_span(&fork.m) {
                if let Some(name_span) = directive_name_span(original, d.start) {
                    fork.defines.push(SkippedDirective { is_lib: false, name_span });
                }
            }
        },
        EventClass::PreprocessError => {
            let kind = event_error_kind(&fork.m);
            let span = event_error_span(&fork.m);
            if let (Some(kind), Some(span)) = (kind, span) {
                let detail = event_error_detail(&fork.m);
                let message = preprocess_error_message(kind, detail.as_str());
                let ghost before = fork.diagnostics@;
                fork.diagnostics.push(PreprocessDiagnostic { span, message });
                proof {
                    assert(reports_pp_error(fork.diagnostics@[before.len() as int]));
                    assert(forall|i: int| 0 <= i < before.len() ==> fork.diagnostics@[i] == before[i]);
                    assert(fork.diagnostics@.map_values(|d: PreprocessDiagnostic| diagnostic_view(d))
                        =~= f0.log.diagnostics.push((span, pp_error_message(kind, ev.error_detail))));
                }
            }
        },
        _ => {},
    }
    assert(fork_view(*fork).log =~= record(f0.log, ev, text.spec_bytes(), original@));
}

/// Drives the preprocessor across every conditional arm.
///
/// What each event does to a fork is [`fork_step`]'s decision. At a
/// conditional the fork is cloned into a side that takes
/// the first arm and continues, and a side that takes the other arm. The
/// first continues past the `-endif`; the others stop at the `-endif`
/// that closes the conditional they were forked from, tracked with
/// [`ForkDepth`]. Each source region is therefore scanned by exactly one
/// fork and work stays linear in the input size. Includes are skipped,
/// unknown macros expand to [`dummy_macro_atom`], and `-error` /
/// `-warning` directives are ignored: every arm is scanned, so they would
/// always be hit, and judging them is the compiler's job.
pub fn preprocess(path: &str, text: &str, original: &Vec<Tok>) -> (branches: Vec<BranchContext>)
    requires
        erl_scan(text@) is Ok,
    ensures
        branches_view(branches@) == spec_branches(path@, text@, original@),
        branches@.len() >= 1,
        forall|i: int| 0 <= i < branches@.len() ==> fork_result_ok(#[trigger] branches@[i], text.spec_bytes()),
{
    let ghost target = spec_branches(path@, text@, original@);
    let m = match pp_new(path, text) {
        Some(m) => m,
        None => return Vec::new(),
    };
    let mut pending: Vec<Fork> = Vec::new();
    pending.push(Fork {
        m,
        d: ForkDepth { depth: 0, stop_depth: None },
        tokens: Vec::new(),
        diagnostics: Vec::new(),
        includes: Vec::new(),
        defines: Vec::new(),
    });
    let mut done: Vec<BranchContext> = Vec::new();
    let mut fuel: u64 = u64::MAX;
    assert(fork_view(pending@[0]) =~~= root_fork());
    assert(forks_view(pending@) =~= seq![root_fork()]);
    assert(branches_view(done@) =~= Seq::<BranchView>::empty());
    while pending.len() > 0 && fuel > 0
        invariant
            fuel == u64::MAX ==> pending@.len() == 1 && done@.len() == 0,
            fuel < u64::MAX ==> done@.len() >= 1,
            forall|i: int| 0 <= i < done@.len() ==> fork_result_ok(#[trigger] done@[i], text.spec_bytes()),
            forall|i: int| 0 <= i < pending@.len() ==> spans_fit((#[trigger] pending@[i]).tokens@, text.spec_bytes()),
            forall|i: int| 0 <= i < pending@.len() ==> all_pp_errors((#[trigger] pending@[i]).diagnostics@),
            forall|i: int| 0 <= i < pending@.len() ==> (#[trigger] pending@[i]).m.path() == path@ && pending@[i].m.text() == text@,
            explore(path@, text@, original@, forks_view(pending@), branches_view(done@), fuel as nat) == target,
        decreases fuel,
    {
        let ghost fuel0 = fuel;
        let ghost pv0 = forks_view(pending@);
        let ghost dv0 = branches_view(done@);
        let mut fork = pending.pop().unwrap();
        fuel -= 1;
        proof {
            assert(pv0.last() == fork_view(fork));
            assert(pv0.drop_last() =~= forks_view(pending@));
        }
        let ghost r = fork_run(path@, text@, original@, fork_view(fork), forks_view(pending@), fuel as nat);
        let mut running = true;
        while running && fuel > 0
            invariant
                fuel < fuel0,
                spans_fit(fork.tokens@, text.spec_bytes()),
                all_pp_errors(fork.diagnostics@),
                fork.m.path() == path@ && fork.m.text() == text@,
                forall|i: int| 0 <= i < pending@.len() ==> spans_fit((#[trigger] pending@[i]).tokens@, text.spec_bytes()),
                forall|i: int| 0 <= i < pending@.len() ==> all_pp_errors((#[trigger] pending@[i]).diagnostics@),
                forall|i: int| 0 <= i < pending@.len() ==> (#[trigger] pending@[i]).m.path() == path@ && pending@[i].m.text() == text@,
                running ==> fork_run(path@, text@, original@, fork_view(fork), forks_view(pending@), fuel as nat) == r,
                !running ==> r == (fork_view(fork), forks_view(pending@), fuel as nat),
            decreases fuel,
        {
            let ghost f0 = fork_view(fork);
            let ghost p0 = forks_view(pending@);
            fuel -= 1;
            if !pp_step(&mut fork.m) {
                running = false;
                assert(fork_view(fork) =~= (ForkView { inputs: f0.inputs.push(PpInput::Step), ..f0 }));
                continue;
            }
            let class = event_class(&fork.m);
            let ghost ev = fork.m.event();
            record_event(&mut fork, class, text, original);
            let (next_d, action) = fork_step(fork.d, class);
            fork.d = next_d;
            let ghost f1 = fork_view(fork);
            assert(f1 =~= (ForkView {
                inputs: f0.inputs.push(PpInput::Step),
                d: spec_fork_step(f0.d, ev.class).0,
                log: record(f0.log, ev, text.spec_bytes(), original@),
            }));
            match action {
                ForkAction::Continue => {},
                ForkAction::Stop => {
                    running = false;
                },
                ForkAction::SkipInclude => {
                    running = pp_skip_include(&mut fork.m, "<skipped-\x69nclude>");
                    assert(fork_view(fork) =~= (ForkView { inputs: f1.inputs.push(PpInput::SkipInclude(skipped_source())), ..f1 }));
                },
                ForkAction::ExpandMacro => {
                    running = pp_expand_macro(&mut fork.m, "<elint-dummy-macro>", dummy_macro_atom());
                    assert(fork_view(fork) =~= (ForkView { inputs: f1.inputs.push(PpInput::Expand(dummy_source(), "elint_dummy"@)), ..f1 }));
                },
                ForkAction::Split { side: side_d } => {
                    let mut main = pp_clone(&fork.m);
                    let mut side = pp_clone(&fork.m);
                    if pp_resume_conditional(&mut main, true) && pp_resume_conditional(&mut side, false) {
                        fork.m = main;
                        let ghost before = pending@;
                        pending.push(Fork {
                            m: side,
                            d: side_d,
                            tokens: Vec::new(),
                            diagnostics: Vec::new(),
                            includes: Vec::new(),
                            defines: Vec::new(),
                        });
                        assert(fork_view(fork) =~= (ForkView { inputs: f1.inputs.push(PpInput::Resume(true)), ..f1 }));
                        assert(fork_view(pending@.last()) =~~= (ForkView { inputs: f1.inputs.push(PpInput::Resume(false)), d: side_d, log: empty_log() }));
                        assert(forks_view(pending@) =~= p0.push(ForkView { inputs: f1.inputs.push(PpInput::Resume(false)), d: side_d, log: empty_log() }));
                    } else {
                        running = false;
                    }
                },
            }
        }
        let ghost fv = fork_view(fork);
        done.push(BranchContext {
            source_tokens: fork.tokens,
            tree: SyntaxTree::empty(),
            preprocess_diagnostics: fork.diagnostics,
            skipped_includes: fork.includes,
            skipped_defines: fork.defines,
        });
        assert(branches_view(done@) =~= dv0.push(fv.log));
    }
    done
}

impl Context {
    /// Tokenizes and preprocesses `text`, exploring every conditional arm.
    /// The branches' parse forests are left empty, to be filled by the
    /// parser.
    ///
    /// Fails, with the scanner's error, exactly when the text cannot be
    /// scanned.
    pub fn analyze(path: &str, text: String) -> (r: Result<Context, LexError>)
        ensures
            r is Err <==> erl_scan(text@) is Err,
            r matches Err(e) ==> erl_scan(text@)->Err_0 == e,
            r matches Ok(ctx) ==> {
                &&& ctx.path@ == path@
                &&& ctx.text@ == text@
                &&& ctx.original_tokens@ == erl_scan(text@)->Ok_0
                &&& branches_view(ctx.branches@) == spec_branches(path@, text@, erl_scan(text@)->Ok_0)
                &&& ctx.branches@.len() >= 1
                &&& forall|i: int| 0 <= i < ctx.branches@.len() ==> fork_result_ok(#[trigger] ctx.branches@[i], vstd::utf8::encode_utf8(text@))
            },
    {
        let original_tokens = match scan_tokens(text.as_str()) {
            Ok(t) => t,
            Err(e) => return Err(e),
        };
        let branches = preprocess(path, text.as_str(), &original_tokens);
        Ok(Context { path: String::from_str(path), text, original_tokens, branches })
    }
}
impl Context {
    /// Whether `b` can be checked against this file: its forest is well
    /// formed over its tokens, and every range it holds lies in the text,
    /// as do the original tokens, which tile it.
    pub open spec fn branch_ok(&self, b: BranchContext) -> bool {
        let bytes = vstd::utf8::encode_utf8(self.text@);
        &&& b.wf()
        &&& spans_fit(b.source_tokens@, bytes)
        &&& crate::lex::tiles(self.original_tokens@, bytes)
        &&& forall|i: int| 0 <= i < b.skipped_includes@.len() ==> (#[trigger] b.skipped_includes@[i]).name_span.fits(bytes)
        &&& forall|i: int| 0 <= i < b.skipped_defines@.len() ==> (#[trigger] b.skipped_defines@[i]).name_span.fits(bytes)
    }

    /// Whether every branch can be checked against this file; see
    /// [`Context::branch_ok`]. A parser that fills the branches' forests
    /// is held to this before the rules run.
    pub fn is_ready(&self) -> (b: bool)
        ensures
            b == (self.branches@.len() >= 1 && forall|i: int| 0 <= i < self.branches@.len() ==> self.branch_ok(#[trigger] self.branches@[i])),
    {
        let text = self.text.as_str();
        proof {
            assert(text.spec_bytes() == vstd::utf8::encode_utf8(self.text@));
        }
        if self.branches.len() == 0 || !crate::lex::check_tiles(&self.original_tokens, text) {
            proof {
                if self.branches@.len() > 0 {
                    assert(!self.branch_ok(self.branches@[0]));
                }
            }
            return false;
        }
        let mut i: usize = 0;
        while i < self.branches.len()
            invariant
                i <= self.branches@.len(),
                self.branches@.len() >= 1,
                text.spec_bytes() == vstd::utf8::encode_utf8(self.text@),
                crate::lex::tiles(self.original_tokens@, text.spec_bytes()),
                forall|a: int| 0 <= a < i ==> self.branch_ok(#[trigger] self.branches@[a]),
            decreases self.branches@.len() - i,
        {
            let b = &self.branches[i];
            if !b.tree.is_wf(b.source_tokens.len()) {
                assert(!self.branch_ok(self.branches@[i as int]));
                return false;
            }
            if !branch_fits(b, text) {
                assert(!self.branch_ok(self.branches@[i as int]));
                return false;
            }
            i += 1;
        }
        true
    }
}

/// Whether every range that `b` holds lies in `text`: its tokens' original
/// ranges and its skipped directives' name ranges.
fn branch_fits(b: &BranchContext, text: &str) -> (r: bool)
    ensures
        r == (spans_fit(b.source_tokens@, text.spec_bytes())
            && (forall|i: int| 0 <= i < b.skipped_includes@.len() ==> (#[trigger] b.skipped_includes@[i]).name_span.fits(text.spec_bytes()))
            && (forall|i: int| 0 <= i < b.skipped_defines@.len() ==> (#[trigger] b.skipped_defines@[i]).name_span.fits(text.spec_bytes()))),
{
    let mut k: usize = 0;
    while k < b.source_tokens.len()
        invariant
            k <= b.source_tokens@.len(),
            forall|a: int| 0 <= a < k ==> opt_fits((#[trigger] b.source_tokens@[a]).span, text.spec_bytes()),
        decreases b.source_tokens@.len() - k,
    {
        if let Some(sp) = b.source_tokens[k].span {
            if !sp.fits_in(text) {
                assert(!opt_fits(b.source_tokens@[k as int].span, text.spec_bytes()));
                return false;
            }
        }
        k += 1;
    }
    let mut k: usize = 0;
    while k < b.skipped_includes.len()
        invariant
            k <= b.skipped_includes@.len(),
            forall|a: int| 0 <= a < k ==> (#[trigger] b.skipped_includes@[a]).name_span.fits(text.spec_bytes()),
        decreases b.skipped_includes@.len() - k,
    {
        if !b.skipped_includes[k].name_span.fits_in(text) {
            return false;
        }
        k += 1;
    }
    let mut k: usize = 0;
    while k < b.skipped_defines.len()
        invariant
            k <= b.skipped_defines@.len(),
            forall|a: int| 0 <= a < k ==> (#[trigger] b.skipped_defines@[a]).name_span.fits(text.spec_bytes()),
        decreases b.skipped_defines@.len() - k,
    {
        if !b.skipped_defines[k].name_span.fits_in(text) {
            return false;
        }
        k += 1;
    }
    true
}

/// The first index in `[k, end)` of a token spelled `word`, or `end`.
pub open spec fn first_spelled(toks: Seq<BranchToken>, word: Seq<char>, k: int, end: int) -> int
    decreases end - k,
{
    if k >= end || k < 0 || k >= toks.len() {
        end
    } else if toks[k].text@ == word {
        k
    } else {
        first_spelled(toks, word, k + 1, end)
    }
}

/// The first index in `[start, end)` of a token spelled `word`, or `end`.
pub fn first_spelled_in(branch: &BranchContext, word: &str, start: usize, end: usize) -> (k: usize)
    requires
        start <= end,
    ensures
        k as int == first_spelled(branch.source_tokens@, word@, start as int, end as int),
        start <= k <= end,
{
    let toks = &branch.source_tokens;
    let mut k = start;
    while k < end && k < toks.len() && !crate::text::str_eq(toks[k].text.as_str(), word)
        invariant
            start <= k <= end,
            first_spelled(toks@, word@, start as int, end as int) == first_spelled(toks@, word@, k as int, end as int),
        decreases end - k,
    {
        k += 1;
    }
    if k < end && k < toks.len() { k } else { end }
}

/// The hull of token ranges that lie in `text` lies in `text`.
pub proof fn lemma_hull_fits(toks: Seq<BranchToken>, s: int, e: int, text: Seq<u8>)
    requires
        spans_fit(toks, text),
    ensures
        opt_fits(hull(toks, s, e), text),
    decreases e - s,
{
    if e > s {
        lemma_hull_fits(toks, s, e - 1, text);
        if 0 <= e - 1 < toks.len() {
            assert(opt_fits(toks[e - 1].span, text));
        }
    }
}

/// Whether `text[a..b]` holds a line feed.
pub open spec fn has_newline(text: Seq<u8>, a: int, b: int) -> bool {
    exists|k: int| a <= k < b && #[trigger] text[k] == 10u8
}

/// Whether `text[a..b]` holds a line feed; see [`has_newline`].
pub fn newline_in(text: &str, a: usize, b: usize) -> (r: bool)
    requires
        a <= b <= text.spec_bytes().len(),
    ensures
        r == has_newline(text.spec_bytes(), a as int, b as int),
{
    let bytes = text.as_bytes();
    let mut k = a;
    while k < b
        invariant
            bytes@ == text.spec_bytes(),
            a <= k <= b <= bytes@.len(),
            forall|j: int| a <= j < k ==> bytes@[j] != 10u8,
        decreases b - k,
    {
        if bytes[k] == 10u8 {
            return true;
        }
        k += 1;
    }
    false
}

} // verus!
