//! Plain-value model of an Erlang parse forest: nodes in preorder, each
//! covering a range of the branch's token buffer.
use vstd::prelude::*;

verus! {

/// Syntax node kinds of the Erlang grammar.
#[derive(Debug, Clone, Copy, PartialEq, Eq, Structural)]
pub enum SyntaxKind {
    Error,
    AtomExpr,
    VarExpr,
    IntegerExpr,
    FloatExpr,
    CharExpr,
    StringExpr,
    SigilStringExpr,
    TupleExpr,
    ListExpr,
    ConsExpr,
    ParenExpr,
    BitstringExpr,
    MapExpr,
    MapUpdateExpr,
    RecordExpr,
    RecordUpdateExpr,
    RecordFieldAccessExpr,
    RecordIndexExpr,
    BinaryOpExpr,
    UnaryOpExpr,
    MatchExpr,
    SendExpr,
    MaybeMatchExpr,
    CallExpr,
    RemoteExpr,
    BeginExpr,
    CatchExpr,
    CaseExpr,
    IfExpr,
    ReceiveExpr,
    ReceiveAfterSection,
    TryExpr,
    TryOfSection,
    TryCatchSection,
    TryAfterSection,
    MaybeExpr,
    MaybeElseSection,
    AnonymousFun,
    NamedFun,
    LocalFunRef,
    RemoteFunRef,
    ListComprehension,
    MapComprehension,
    BinaryComprehension,
    Generator,
    BitstringGenerator,
    MapGenerator,
    StrictGenerator,
    StrictBitstringGenerator,
    StrictMapGenerator,
    ZipQualifier,
    Filter,
    Body,
    Clause,
    IfClause,
    CatchClause,
    Guard,
    GuardSequence,
    ArgumentList,
    RecordField,
    MapField,
    BitstringElement,
    /// A node of the type language, which no rule tells apart.
    TypeNode,
    Attribute,
    AttributeName,
    AttributePayload,
    FunctionDecl,
    FunctionClause,
}

/// One node: its kind, the token range `[start, end)` it covers, and the
/// preorder index one past its last descendant.
#[derive(Debug, Clone, Copy, PartialEq, Eq, Structural)]
pub struct SyntaxNode {
    pub kind: SyntaxKind,
    pub start: usize,
    pub end: usize,
    pub subtree_end: usize,
}

/// A half-open range `[start, end)` of token indices.
#[derive(Debug, Clone, Copy, PartialEq, Eq, Structural)]
pub struct TokenRange {
    pub start: usize,
    pub end: usize,
}

impl TokenRange {
    /// The range of the single token at `index`.
    pub fn single(index: usize) -> (r: TokenRange)
        requires
            index < usize::MAX,
        ensures
            r.start == index && r.end == index + 1,
    {
        TokenRange { start: index, end: index + 1 }
    }
}

/// What a parse diagnostic reports.
#[derive(Debug, Clone, Copy, PartialEq, Eq, Structural)]
pub enum ParseDiagnosticKind {
    UnexpectedToken,
    UnexpectedEof,
    SkippedToken,
    MissingToken,
    NestingDepthExceeded,
}

/// What the parser expected where it reported a diagnostic, spelled as
/// the parser spells it.
#[derive(Debug, Clone)]
pub enum Expected {
    /// A category of syntax, such as an expression.
    Category(String),
    /// A token kind.
    TokenKind(String),
    /// Nothing in particular.
    Unspecified,
}

/// A parse diagnostic over a token range `[start, end)`.
#[derive(Debug, Clone)]
pub struct ParseDiagnostic {
    pub kind: ParseDiagnosticKind,
    pub expected: Expected,
    pub start: usize,
    pub end: usize,
}

/// A parse forest in preorder, with the diagnostics the parser reported.
#[derive(Debug, Clone)]
pub struct SyntaxTree {
    pub nodes: Vec<SyntaxNode>,
    pub diagnostics: Vec<ParseDiagnostic>,
}

/// Whether `nodes` is a preorder forest over `n_tokens` tokens: every
/// subtree is a nonempty run of the sequence, subtrees nest, and a node's
/// token range lies inside its ancestors'.
pub open spec fn forest_wf(nodes: Seq<SyntaxNode>, n_tokens: nat) -> bool {
    &&& forall|i: int|
        0 <= i < nodes.len() ==> i < (#[trigger] nodes[i]).subtree_end <= nodes.len()
    &&& forall|i: int|
        0 <= i < nodes.len() ==> (#[trigger] nodes[i]).start <= nodes[i].end <= n_tokens
    &&& forall|i: int, j: int|
        0 <= i < nodes.len() && i < j < nodes[i].subtree_end ==> #[trigger] nodes[j].subtree_end <= #[trigger] nodes[i].subtree_end
    &&& forall|i: int, j: int|
        0 <= i < nodes.len() && i < j < nodes[i].subtree_end ==> (#[trigger] nodes[i]).start <= (#[trigger] nodes[j]).start
            && nodes[j].end <= nodes[i].end
}

/// The facts a well-formed forest gives about node `i`.
pub proof fn lemma_node(nodes: Seq<SyntaxNode>, n_tokens: nat, i: int)
    requires
        forest_wf(nodes, n_tokens),
        0 <= i < nodes.len(),
    ensures
        i < nodes[i].subtree_end <= nodes.len(),
        nodes[i].start <= nodes[i].end <= n_tokens,
{
}

/// The sibling chain that starts at `cursor` and stays below `end`: each
/// next sibling starts where the previous subtree ends.
pub open spec fn sib_chain(nodes: Seq<SyntaxNode>, cursor: int, end: int) -> Seq<int>
    decreases end - cursor,
{
    if cursor < 0 || cursor >= end || cursor >= nodes.len() {
        Seq::empty()
    } else if nodes[cursor].subtree_end <= cursor || nodes[cursor].subtree_end >= end {
        seq![cursor]
    } else {
        seq![cursor] + sib_chain(nodes, nodes[cursor].subtree_end as int, end)
    }
}

/// The children of node `i`, in order.
pub open spec fn children_of(nodes: Seq<SyntaxNode>, i: int) -> Seq<int> {
    sib_chain(nodes, i + 1, nodes[i].subtree_end as int)
}

/// The roots of the forest, in order.
pub open spec fn roots_of(nodes: Seq<SyntaxNode>) -> Seq<int> {
    sib_chain(nodes, 0, nodes.len() as int)
}

/// Every element of a sibling chain lies in `[cursor, end)`.
pub proof fn lemma_sib_chain_bounds(nodes: Seq<SyntaxNode>, cursor: int, end: int)
    ensures
        forall|k: int|
            0 <= k < sib_chain(nodes, cursor, end).len() ==> cursor <= #[trigger] sib_chain(
                nodes,
                cursor,
                end,
            )[k] < end && sib_chain(nodes, cursor, end)[k] < nodes.len(),
    decreases end - cursor,
{
    if cursor < 0 || cursor >= end || cursor >= nodes.len() {
    } else if nodes[cursor].subtree_end <= cursor || nodes[cursor].subtree_end >= end {
    } else {
        let next = nodes[cursor].subtree_end as int;
        lemma_sib_chain_bounds(nodes, next, end);
        let chain = sib_chain(nodes, cursor, end);
        let rest = sib_chain(nodes, next, end);
        assert forall|k: int| 0 <= k < chain.len() implies cursor <= #[trigger] chain[k] < end
            && chain[k] < nodes.len() by {
            if k > 0 {
                assert(chain[k] == rest[k - 1]);
            }
        }
    }
}

/// Whether node `j` lies in the subtree of (or is) a node at an index
/// below `i` that `skip` selects.
pub open spec fn covered(nodes: Seq<SyntaxNode>, skip: spec_fn(int) -> bool, i: int, j: int) -> bool {
    exists|k: int| 0 <= k < i && k <= j && #[trigger] skip(k) && j < nodes[k].subtree_end
}

/// Whether a walk that does not enter the subtrees `skip` selects reaches
/// node `j`.
pub open spec fn reached(nodes: Seq<SyntaxNode>, skip: spec_fn(int) -> bool, j: int) -> bool {
    !covered(nodes, skip, j + 1, j)
}

/// Whether the selected subtrees that start below `i` all end by `i`: the
/// state of a preorder walk at `i` that jumps over each selected subtree.
pub open spec fn skips_closed(nodes: Seq<SyntaxNode>, skip: spec_fn(int) -> bool, i: int) -> bool {
    forall|k: int| 0 <= k < i && #[trigger] skip(k) ==> nodes[k].subtree_end <= i
}

/// A walk at `i` with closed skips reaches `i` exactly when `i` is not
/// itself skipped.
pub proof fn lemma_reached_here(nodes: Seq<SyntaxNode>, n_tokens: nat, skip: spec_fn(int) -> bool, i: int)
    requires
        forest_wf(nodes, n_tokens),
        0 <= i < nodes.len(),
        skips_closed(nodes, skip, i),
    ensures
        reached(nodes, skip, i) == !skip(i),
{
    if skip(i) {
        assert(skip(i) && i <= i && i < nodes[i].subtree_end);
    } else {
        if covered(nodes, skip, i + 1, i) {
            let k = choose|k: int| 0 <= k < i + 1 && k <= i && #[trigger] skip(k) && i < nodes[k].subtree_end;
            assert(nodes[k].subtree_end <= i);
        }
    }
}

/// Jumping over a skipped subtree keeps the skips closed, and no node of
/// the jumped-over subtree is reached.
pub proof fn lemma_jump(nodes: Seq<SyntaxNode>, n_tokens: nat, skip: spec_fn(int) -> bool, i: int)
    requires
        forest_wf(nodes, n_tokens),
        0 <= i < nodes.len(),
        skip(i),
        skips_closed(nodes, skip, i),
    ensures
        skips_closed(nodes, skip, nodes[i].subtree_end as int),
        forall|j: int| i <= j < nodes[i].subtree_end ==> !#[trigger] reached(nodes, skip, j),
{
    let e = nodes[i].subtree_end as int;
    assert forall|k: int| 0 <= k < e && #[trigger] skip(k) implies nodes[k].subtree_end <= e by {
        if k > i {
            assert(nodes[k].subtree_end <= nodes[i].subtree_end);
        }
    }
    assert forall|j: int| i <= j < e implies !#[trigger] reached(nodes, skip, j) by {
        assert(skip(i) && i <= j && j < nodes[i].subtree_end);
    }
}

/// Stepping past a node that is not skipped keeps the skips closed.
pub proof fn lemma_step(nodes: Seq<SyntaxNode>, skip: spec_fn(int) -> bool, i: int)
    requires
        0 <= i < nodes.len(),
        !skip(i),
        skips_closed(nodes, skip, i),
    ensures
        skips_closed(nodes, skip, i + 1),
{
}

impl SyntaxTree {
    /// A forest with no nodes and no diagnostics.
    pub fn empty() -> (t: SyntaxTree)
        ensures
            t.nodes@.len() == 0,
            t.diagnostics@.len() == 0,
    {
        SyntaxTree { nodes: Vec::new(), diagnostics: Vec::new() }
    }

    /// Whether the forest is well formed over `n_tokens` tokens.
    pub open spec fn wf(&self, n_tokens: nat) -> bool {
        forest_wf(self.nodes@, n_tokens)
    }

    /// Whether the forest is well formed over `n_tokens` tokens; see
    /// [`forest_wf`].
    pub fn is_wf(&self, n_tokens: usize) -> (b: bool)
        ensures
            b == self.wf(n_tokens as nat),
    {
        let nodes = &self.nodes;
        let n = nodes.len();
        let mut i: usize = 0;
        while i < n
            invariant
                n == nodes@.len(),
                nodes == &self.nodes,
                i <= n,
                forall|a: int| 0 <= a < i ==> a < (#[trigger] nodes@[a]).subtree_end <= n,
                forall|a: int| 0 <= a < i ==> (#[trigger] nodes@[a]).start <= nodes@[a].end <= n_tokens,
                forall|a: int, c: int| 0 <= a < i && a < c < nodes@[a].subtree_end ==> #[trigger] nodes@[c].subtree_end <= #[trigger] nodes@[a].subtree_end,
                forall|a: int, c: int| 0 <= a < i && a < c < nodes@[a].subtree_end ==> (#[trigger] nodes@[a]).start <= (#[trigger] nodes@[c]).start
                    && nodes@[c].end <= nodes@[a].end,
            decreases n - i,
        {
            let x = nodes[i];
            if !(i < x.subtree_end && x.subtree_end <= n && x.start <= x.end && x.end <= n_tokens) {
                return false;
            }
            let mut j = i + 1;
            while j < x.subtree_end
                invariant
                    n == nodes@.len(),
                    nodes == &self.nodes,
                    i < j <= x.subtree_end <= n,
                    x == nodes@[i as int],
                    forall|c: int| i < c < j ==> #[trigger] nodes@[c].subtree_end <= x.subtree_end,
                    forall|c: int| i < c < j ==> x.start <= (#[trigger] nodes@[c]).start && nodes@[c].end <= x.end,
                decreases x.subtree_end - j,
            {
                let y = nodes[j];
                if !(y.subtree_end <= x.subtree_end && x.start <= y.start && y.end <= x.end) {
                    assert(self.nodes@[j as int] == y && self.nodes@[i as int] == x);
                    if !(y.subtree_end <= x.subtree_end) {
                        assert(!(self.nodes@[j as int].subtree_end <= self.nodes@[i as int].subtree_end));
                    } else {
                        assert(!(self.nodes@[i as int].start <= self.nodes@[j as int].start && self.nodes@[j as int].end <= self.nodes@[i as int].end));
                    }
                    return false;
                }
                j += 1;
            }
            i += 1;
        }
        true
    }

    /// The indices of the children of node `i`, in order.
    pub fn children(&self, i: usize, Ghost(n_tokens): Ghost<nat>) -> (cs: Vec<usize>)
        requires
            self.wf(n_tokens),
            i < self.nodes@.len(),
        ensures
            cs@.map_values(|c: usize| c as int) == children_of(self.nodes@, i as int),
            forall|m: int| 0 <= m < cs@.len() ==> i < #[trigger] cs@[m] < self.nodes@[i as int].subtree_end,
    {
        self.sibling_run(i + 1, self.nodes[i].subtree_end, Ghost(n_tokens))
    }

    /// The indices of the roots, in order.
    pub fn roots(&self, Ghost(n_tokens): Ghost<nat>) -> (rs: Vec<usize>)
        requires
            self.wf(n_tokens),
        ensures
            rs@.map_values(|c: usize| c as int) == roots_of(self.nodes@),
            forall|m: int| 0 <= m < rs@.len() ==> #[trigger] rs@[m] < self.nodes@.len(),
    {
        self.sibling_run(0, self.nodes.len(), Ghost(n_tokens))
    }

    /// The sibling chain from `cursor` below `end`.
    fn sibling_run(&self, cursor: usize, end: usize, Ghost(n_tokens): Ghost<nat>) -> (cs: Vec<usize>)
        requires
            self.wf(n_tokens),
            end <= self.nodes@.len(),
        ensures
            cs@.map_values(|c: usize| c as int) == sib_chain(self.nodes@, cursor as int, end as int),
            forall|m: int| 0 <= m < cs@.len() ==> cursor <= #[trigger] cs@[m] < end,
    {
        proof {
            lemma_sib_chain_bounds(self.nodes@, cursor as int, end as int);
        }
        let mut out: Vec<usize> = Vec::new();
        let mut cur = cursor;
        while cur < end
            invariant
                self.wf(n_tokens),
                end <= self.nodes@.len(),
                forall|k: int|
                    0 <= k < sib_chain(self.nodes@, cursor as int, end as int).len() ==> cursor
                        <= #[trigger] sib_chain(self.nodes@, cursor as int, end as int)[k] < end,
                out@.map_values(|c: usize| c as int) + sib_chain(self.nodes@, cur as int, end as int)
                    == sib_chain(self.nodes@, cursor as int, end as int),
            decreases self.nodes@.len() - cur,
        {
            let next = self.nodes[cur].subtree_end;
            proof {
                assert(cur < self.nodes@[cur as int].subtree_end);
                if next < end {
                    assert(sib_chain(self.nodes@, cur as int, end as int) == seq![cur as int]
                        + sib_chain(self.nodes@, next as int, end as int));
                } else {
                    assert(sib_chain(self.nodes@, cur as int, end as int) == seq![cur as int]);
                    assert(sib_chain(self.nodes@, next as int, end as int) =~= Seq::<int>::empty());
                }
                assert(out@.push(cur).map_values(|c: usize| c as int) =~= out@.map_values(
                    |c: usize| c as int,
                ).push(cur as int));
            }
            out.push(cur);
            cur = next;
        }
        assert(sib_chain(self.nodes@, cur as int, end as int) =~= Seq::<int>::empty());
        assert forall|m: int| 0 <= m < out@.len() implies cursor <= #[trigger] out@[m] < end by {
            assert(out@.map_values(|c: usize| c as int)[m] == out@[m] as int);
        }
        out
    }
}

} // verus!
