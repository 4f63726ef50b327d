//! `attr_order` lint: conventional module-attribute order and placement.
use crate::context::{
    clause_name, first_child_of_kind, range_span, spans_fit, spec_clause_name, BranchContext, Context, SkippedDirective,
};
use crate::lex::{lex_view, lexical_indices, lexicals, Tok, TokValue};
use crate::span::{Finding, Span};
use crate::syntax::{children_of, roots_of, SyntaxKind, SyntaxNode, TokenRange};
use crate::text::str_eq;
use vstd::prelude::*;
use vstd::string::StringSliceAdditionalSpecFns;

verus! {

/// A conditional directive the region scanner recognizes.
#[derive(Debug, Clone, Copy, PartialEq, Eq, Structural)]
pub enum DirectiveKind {
    /// `-ifdef(TEST).`
    IfdefTest,
    /// Any other opening directive: `-ifdef`, `-ifndef`, `-if`, `-elif`.
    OpenOther,
    /// `-else.`
    Else,
    /// `-endif.`
    Endif,
}

/// An open conditional while scanning for test regions.
#[derive(Debug, Clone, Copy, PartialEq, Eq, Structural)]
pub enum CondFrame {
    /// The first arm of an `-ifdef(TEST)`, whose body starts at `body_start`.
    TestThen { body_start: usize },
    /// Any other arm.
    Other,
}

/// Whether a token is spelled `s`.
pub open spec fn spelled(t: Tok, s: Seq<char>) -> bool {
    t.text@ == s
}

/// The index of the `.` that ends a parenthesized directive argument list
/// scanned from `j` with `depth` open parentheses.
pub open spec fn dot_at_depth0(lex: Seq<Tok>, j: int, depth: int) -> Option<int>
    decreases lex.len() - j,
{
    if j < 0 || j >= lex.len() {
        None
    } else if spelled(lex[j], "("@) {
        dot_at_depth0(lex, j + 1, depth + 1)
    } else if spelled(lex[j], ")"@) {
        dot_at_depth0(lex, j + 1, depth - 1)
    } else if spelled(lex[j], "."@) && depth == 0 {
        Some(j)
    } else {
        dot_at_depth0(lex, j + 1, depth)
    }
}

/// Reads the directive whose `-` is at `h`: its kind and the index of its
/// final `.`.
pub open spec fn spec_directive_kind(lex: Seq<Tok>, h: int) -> Option<(DirectiveKind, int)> {
    let n = h + 1;
    if n < 0 || n >= lex.len() || !(lex[n].value is Atom) {
        None
    } else {
        let name = lex[n].value->Atom_0@;
        if name == "else"@ || name == "endif"@ {
            if n + 1 < lex.len() && spelled(lex[n + 1], "."@) {
                Some((if name == "else"@ { DirectiveKind::Else } else { DirectiveKind::Endif }, n + 1))
            } else {
                None
            }
        } else if name == "ifdef"@ {
            if n + 4 < lex.len() && spelled(lex[n + 1], "("@) && spelled(lex[n + 3], ")"@)
                && spelled(lex[n + 4], "."@) {
                let m = lex[n + 2];
                let is_test = (m.value is Var && m.text@ == "TEST"@) || (m.value is Atom
                    && m.value->Atom_0@ == "TEST"@);
                Some((if is_test { DirectiveKind::IfdefTest } else { DirectiveKind::OpenOther }, n + 4))
            } else {
                None
            }
        } else if name == "ifndef"@ || name == "if"@ || name == "elif"@ {
            match dot_at_depth0(lex, n + 1, 0) {
                Some(j) => Some((DirectiveKind::OpenOther, j)),
                None => None,
            }
        } else {
            None
        }
    }
}

/// One step of the region scanner at a recognized directive spanning
/// `[ds, de)`: the stack and regions after it.
pub open spec fn apply_directive(
    kind: DirectiveKind,
    ds: usize,
    de: usize,
    stack: Seq<CondFrame>,
    regions: Seq<Span>,
) -> (Seq<CondFrame>, Seq<Span>) {
    match kind {
        DirectiveKind::IfdefTest => (stack.push(CondFrame::TestThen { body_start: de }), regions),
        DirectiveKind::OpenOther => (stack.push(CondFrame::Other), regions),
        DirectiveKind::Else => if stack.len() > 0 {
            match stack.last() {
                CondFrame::TestThen { body_start } => (
                    stack.update(stack.len() - 1, CondFrame::Other),
                    if body_start <= ds { regions.push(Span { start: body_start, end: ds }) } else { regions },
                ),
                CondFrame::Other => (stack, regions),
            }
        } else {
            (stack, regions)
        },
        DirectiveKind::Endif => if stack.len() > 0 {
            match stack.last() {
                CondFrame::TestThen { body_start } => (
                    stack.drop_last(),
                    if body_start <= ds { regions.push(Span { start: body_start, end: ds }) } else { regions },
                ),
                CondFrame::Other => (stack.drop_last(), regions),
            }
        } else {
            (stack, regions)
        },
    }
}

/// The test regions found scanning `lex` from `i` with an open-conditional
/// `stack` and the `regions` found so far.
pub open spec fn regions_from(lex: Seq<Tok>, i: int, stack: Seq<CondFrame>, regions: Seq<Span>) -> Seq<Span>
    decreases lex.len() - i,
{
    if i < 0 || i >= lex.len() {
        regions
    } else if !spelled(lex[i], "-"@) {
        regions_from(lex, i + 1, stack, regions)
    } else {
        match spec_directive_kind(lex, i) {
            None => regions_from(lex, i + 1, stack, regions),
            Some((kind, e)) => if e <= i || e >= lex.len() {
                regions
            } else {
                let (s2, r2) = apply_directive(kind, lex[i].start, lex[e].end, stack, regions);
                regions_from(lex, e + 1, s2, r2)
            },
        }
    }
}

/// Source ranges of `-ifdef(TEST).` first arms (up to `-else` / `-endif`):
/// the test regions of the file.
pub open spec fn spec_test_regions(toks: Seq<Tok>) -> Seq<Span> {
    regions_from(lexicals(toks), 0, Seq::empty(), Seq::empty())
}

/// The index of the `.` that closes a directive's argument list, scanning
/// from `from`; see [`dot_at_depth0`].
fn dot_index(toks: &Vec<Tok>, idx: &Vec<usize>, from: usize) -> (r: Option<usize>)
    requires
        forall|m: int| 0 <= m < idx@.len() ==> #[trigger] idx@[m] < toks@.len(),
    ensures
        r matches Some(j) ==> dot_at_depth0(lex_view(toks@, idx@), from as int, 0) == Some(j as int),
        r is None ==> dot_at_depth0(lex_view(toks@, idx@), from as int, 0) is None,
{
    let ghost lex = lex_view(toks@, idx@);
    let mut opens: usize = 0;
    let mut closes: usize = 0;
    let mut j = from;
    while j < idx.len()
        invariant
            lex == lex_view(toks@, idx@),
            forall|m: int| 0 <= m < idx@.len() ==> #[trigger] idx@[m] < toks@.len(),
            from <= j,
            opens + closes <= j - from,
            dot_at_depth0(lex, from as int, 0) == dot_at_depth0(lex, j as int, opens - closes),
        decreases idx@.len() - j,
    {
        let t = &toks[idx[j]];
        assert(lex[j as int] == toks@[idx@[j as int] as int]);
        if str_eq(t.text.as_str(), "(") {
            opens += 1;
        } else if str_eq(t.text.as_str(), ")") {
            closes += 1;
        } else if str_eq(t.text.as_str(), ".") && opens == closes {
            return Some(j);
        }
        j += 1;
    }
    None
}

/// Reads the directive whose `-` is at `h`; see [`spec_directive_kind`].
fn directive_kind(toks: &Vec<Tok>, idx: &Vec<usize>, h: usize) -> (r: Option<(DirectiveKind, usize)>)
    requires
        h < idx@.len(),
        forall|m: int| 0 <= m < idx@.len() ==> #[trigger] idx@[m] < toks@.len(),
    ensures
        r matches Some(p) ==> spec_directive_kind(lex_view(toks@, idx@), h as int) == Some((p.0, p.1 as int)),
        r is None ==> spec_directive_kind(lex_view(toks@, idx@), h as int) is None,
{
    let ghost lex = lex_view(toks@, idx@);
    let len = idx.len();
    if h + 1 >= len {
        return None;
    }
    let n = h + 1;
    assert(lex[n as int] == toks@[idx@[n as int] as int]);
    let name = match &toks[idx[n]].value {
        TokValue::Atom(a) => a,
        _ => return None,
    };
    if str_eq(name.as_str(), "else") || str_eq(name.as_str(), "endif") {
        if n + 1 < len {
            assert(lex[n + 1] == toks@[idx@[n + 1] as int]);
            if str_eq(toks[idx[n + 1]].text.as_str(), ".") {
                let kind = if str_eq(name.as_str(), "else") { DirectiveKind::Else } else { DirectiveKind::Endif };
                return Some((kind, n + 1));
            }
        }
        return None;
    }
    if str_eq(name.as_str(), "ifdef") {
        if len >= 5 && n < len - 4 {
            assert(lex[n + 1] == toks@[idx@[n + 1] as int]);
            assert(lex[n + 2] == toks@[idx@[n + 2] as int]);
            assert(lex[n + 3] == toks@[idx@[n + 3] as int]);
            assert(lex[n + 4] == toks@[idx@[n + 4] as int]);
            if str_eq(toks[idx[n + 1]].text.as_str(), "(") && str_eq(toks[idx[n + 3]].text.as_str(), ")")
                && str_eq(toks[idx[n + 4]].text.as_str(), ".") {
                let m = &toks[idx[n + 2]];
                let is_test = match &m.value {
                    TokValue::Var => str_eq(m.text.as_str(), "TEST"),
                    TokValue::Atom(a) => str_eq(a.as_str(), "TEST"),
                    _ => false,
                };
                let kind = if is_test { DirectiveKind::IfdefTest } else { DirectiveKind::OpenOther };
                return Some((kind, n + 4));
            }
        }
        return None;
    }
    if str_eq(name.as_str(), "ifndef") || str_eq(name.as_str(), "if") || str_eq(name.as_str(), "elif") {
        return match dot_index(toks, idx, n + 1) {
            Some(j) => Some((DirectiveKind::OpenOther, j)),
            None => None,
        };
    }
    None
}

/// The stack and regions after a directive; see [`apply_directive`].
fn apply(kind: DirectiveKind, ds: usize, de: usize, stack: &mut Vec<CondFrame>, regions: &mut Vec<Span>)
    ensures
        (final(stack)@, final(regions)@) == apply_directive(kind, ds, de, old(stack)@, old(regions)@),
{
    match kind {
        DirectiveKind::IfdefTest => stack.push(CondFrame::TestThen { body_start: de }),
        DirectiveKind::OpenOther => stack.push(CondFrame::Other),
        DirectiveKind::Else => {
            let n = stack.len();
            if n > 0 {
                if let CondFrame::TestThen { body_start } = stack[n - 1] {
                    if body_start <= ds {
                        regions.push(Span::new(body_start, ds));
                    }
                    stack.set(n - 1, CondFrame::Other);
                }
            }
        },
        DirectiveKind::Endif => {
            if let Some(frame) = stack.pop() {
                if let CondFrame::TestThen { body_start } = frame {
                    if body_start <= ds {
                        regions.push(Span::new(body_start, ds));
                    }
                }
            }
        },
    }
}

/// Source ranges of `-ifdef(TEST).` first arms (up to `-else` / `-endif`).
///
/// Nested non-`TEST` conditionals stay inside the outer TEST region. A
/// malformed or exotic conditional form simply yields fewer regions rather
/// than aborting the rule. Macro names in `-ifdef` are uppercase variables
/// in the token stream (`TEST`), not atoms.
pub fn test_ifdef_regions(toks: &Vec<Tok>) -> (regions: Vec<Span>)
    ensures
        regions@ == spec_test_regions(toks@),
{
    let idx = lexical_indices(toks);
    let ghost lex = lex_view(toks@, idx@);
    let mut regions: Vec<Span> = Vec::new();
    let mut stack: Vec<CondFrame> = Vec::new();
    let mut i: usize = 0;
    while i < idx.len()
        invariant
            i <= idx@.len(),
            lex == lex_view(toks@, idx@),
            lex == lexicals(toks@),
            forall|m: int| 0 <= m < idx@.len() ==> #[trigger] idx@[m] < toks@.len(),
            spec_test_regions(toks@) == regions_from(lex, i as int, stack@, regions@),
        decreases idx@.len() - i,
    {
        assert(lex[i as int] == toks@[idx@[i as int] as int]);
        if !str_eq(toks[idx[i]].text.as_str(), "-") {
            i += 1;
        } else {
            match directive_kind(toks, &idx, i) {
                None => {
                    i += 1;
                },
                Some((kind, e)) => {
                    if e <= i || e >= idx.len() {
                        return regions;
                    }
                    assert(lex[e as int] == toks@[idx@[e as int] as int]);
                    let ds = toks[idx[i]].start;
                    let de = toks[idx[e]].end;
                    apply(kind, ds, de, &mut stack, &mut regions);
                    i = e + 1;
                },
            }
        }
    }
    regions
}

/// Ordered attribute classes. A lower rank must appear before a higher
/// one; the last class covers `-record` / `-type` / `-opaque` / `-define`
/// with free order inside the group.
#[derive(Debug, Clone, Copy, PartialEq, Eq, Structural)]
pub enum AttrClass {
    Module,
    Behaviour,
    Export,
    FileInclusion,
    DefineTypeRecord,
}

/// The rank of an attribute class, from 1 to 5.
pub open spec fn spec_rank(c: AttrClass) -> u8 {
    match c {
        AttrClass::Module => 1,
        AttrClass::Behaviour => 2,
        AttrClass::Export => 3,
        AttrClass::FileInclusion => 4,
        AttrClass::DefineTypeRecord => 5,
    }
}

/// The rank of an attribute class; see [`spec_rank`].
pub fn rank(c: AttrClass) -> (r: u8)
    ensures
        r == spec_rank(c),
{
    match c {
        AttrClass::Module => 1,
        AttrClass::Behaviour => 2,
        AttrClass::Export => 3,
        AttrClass::FileInclusion => 4,
        AttrClass::DefineTypeRecord => 5,
    }
}

/// The attribute names the rule classifies (`-behavior` is read as
/// `-behaviour`).
#[derive(Debug, Clone, Copy, PartialEq, Eq, Structural)]
pub enum AttrName {
    Module,
    Behaviour,
    Export,
    ExportType,
    Incl,
    InclLib,
    Record,
    Type,
    Opaque,
    Define,
}

impl AttrName {
    /// The attribute's spelling.
    pub open spec fn spec_spelling(self) -> Seq<char> {
        match self {
            AttrName::Module => "module"@,
            AttrName::Behaviour => "behaviour"@,
            AttrName::Export => "export"@,
            AttrName::ExportType => "export_type"@,
            AttrName::Incl => "\x69nclude"@,
            AttrName::InclLib => "\x69nclude_lib"@,
            AttrName::Record => "record"@,
            AttrName::Type => "type"@,
            AttrName::Opaque => "opaque"@,
            AttrName::Define => "define"@,
        }
    }

    /// The attribute's spelling.
    pub fn spelling(self) -> (s: &'static str)
        ensures
            s@ == self.spec_spelling(),
    {
        match self {
            AttrName::Module => "module",
            AttrName::Behaviour => "behaviour",
            AttrName::Export => "export",
            AttrName::ExportType => "export_type",
            AttrName::Incl => "\x69nclude",
            AttrName::InclLib => "\x69nclude_lib",
            AttrName::Record => "record",
            AttrName::Type => "type",
            AttrName::Opaque => "opaque",
            AttrName::Define => "define",
        }
    }
}

/// One attribute occurrence the rule checks.
#[derive(Debug, Clone, Copy, PartialEq, Eq, Structural)]
pub struct AttrSite {
    pub class: AttrClass,
    /// Attribute name.
    pub name: AttrName,
    /// Range of the attribute's name.
    pub span: Span,
    /// The attribute's node when it survived preprocessing; otherwise a
    /// fallback root, used only for enclosing-function lookup.
    pub node: usize,
}

/// The class and name of an attribute spelled `name`, if the rule
/// classifies it.
pub open spec fn spec_classify(name: Seq<char>) -> Option<(AttrClass, AttrName)> {
    if name == "module"@ {
        Some((AttrClass::Module, AttrName::Module))
    } else if name == "behaviour"@ || name == "behavior"@ {
        Some((AttrClass::Behaviour, AttrName::Behaviour))
    } else if name == "export"@ {
        Some((AttrClass::Export, AttrName::Export))
    } else if name == "export_type"@ {
        Some((AttrClass::Export, AttrName::ExportType))
    } else if name == "\x69nclude"@ {
        Some((AttrClass::FileInclusion, AttrName::Incl))
    } else if name == "\x69nclude_lib"@ {
        Some((AttrClass::FileInclusion, AttrName::InclLib))
    } else if name == "record"@ {
        Some((AttrClass::DefineTypeRecord, AttrName::Record))
    } else if name == "type"@ {
        Some((AttrClass::DefineTypeRecord, AttrName::Type))
    } else if name == "opaque"@ {
        Some((AttrClass::DefineTypeRecord, AttrName::Opaque))
    } else if name == "define"@ {
        Some((AttrClass::DefineTypeRecord, AttrName::Define))
    } else {
        None
    }
}

/// Classifies an attribute name; see [`spec_classify`].
pub fn classify(name: &str) -> (r: Option<(AttrClass, AttrName)>)
    ensures
        r == spec_classify(name@),
{
    if str_eq(name, "module") {
        Some((AttrClass::Module, AttrName::Module))
    } else if str_eq(name, "behaviour") || str_eq(name, "behavior") {
        Some((AttrClass::Behaviour, AttrName::Behaviour))
    } else if str_eq(name, "export") {
        Some((AttrClass::Export, AttrName::Export))
    } else if str_eq(name, "export_type") {
        Some((AttrClass::Export, AttrName::ExportType))
    } else if str_eq(name, "\x69nclude") {
        Some((AttrClass::FileInclusion, AttrName::Incl))
    } else if str_eq(name, "\x69nclude_lib") {
        Some((AttrClass::FileInclusion, AttrName::InclLib))
    } else if str_eq(name, "record") {
        Some((AttrClass::DefineTypeRecord, AttrName::Record))
    } else if str_eq(name, "type") {
        Some((AttrClass::DefineTypeRecord, AttrName::Type))
    } else if str_eq(name, "opaque") {
        Some((AttrClass::DefineTypeRecord, AttrName::Opaque))
    } else if str_eq(name, "define") {
        Some((AttrClass::DefineTypeRecord, AttrName::Define))
    } else {
        None
    }
}

/// The site of root `r`, if it is an attribute the rule classifies: its
/// name read from the first atom of its `AttributeName` child.
pub open spec fn root_site(b: BranchContext, r: int) -> Option<AttrSite> {
    let nodes = b.tree.nodes@;
    let cs = children_of(nodes, r);
    let k = first_child_of_kind(nodes, cs, SyntaxKind::AttributeName, 0);
    if nodes[r].kind != SyntaxKind::Attribute || k >= cs.len() {
        None
    } else {
        let nn = nodes[cs[k]];
        match spec_clause_name(b, cs[k]) {
            None => None,
            Some(name) => match spec_classify(name) {
                None => None,
                Some((class, an)) => match range_span(b.source_tokens@, TokenRange { start: nn.start, end: nn.end }) {
                    None => None,
                    Some(span) => Some(AttrSite { class, name: an, span, node: r as usize }),
                },
            },
        }
    }
}

/// The sites of the first `n` roots in `roots`.
pub open spec fn tree_sites(b: BranchContext, roots: Seq<int>, n: int) -> Seq<AttrSite>
    decreases n,
{
    if n <= 0 {
        Seq::empty()
    } else {
        tree_sites(b, roots, n - 1) + match root_site(b, roots[n - 1]) {
            Some(x) => seq![x],
            None => Seq::empty(),
        }
    }
}

/// The characters of the original file in `s`.
pub open spec fn text_at(ctx: Context, s: Span) -> Seq<char> {
    vstd::utf8::decode_utf8(vstd::utf8::encode_utf8(ctx.text@).subrange(s.start as int, s.end as int))
}

/// The site of a consumed directive `d` of name `name`, if its name atom
/// reads as that name.
pub open spec fn directive_site(ctx: Context, d: SkippedDirective, class: AttrClass, name: AttrName, fallback: int) -> Option<AttrSite> {
    if text_at(ctx, d.name_span) == name.spec_spelling() {
        Some(AttrSite { class, name, span: d.name_span, node: fallback as usize })
    } else {
        None
    }
}

/// The name of a consumed file-inclusion directive.
pub open spec fn incl_name(d: SkippedDirective) -> AttrName {
    if d.is_lib { AttrName::InclLib } else { AttrName::Incl }
}

/// The sites of the first `n` consumed file-inclusion directives.
pub open spec fn incl_sites(ctx: Context, ds: Seq<SkippedDirective>, fallback: int, n: int) -> Seq<AttrSite>
    decreases n,
{
    if n <= 0 {
        Seq::empty()
    } else {
        incl_sites(ctx, ds, fallback, n - 1) + match directive_site(ctx, ds[n - 1], AttrClass::FileInclusion, incl_name(ds[n - 1]), fallback) {
            Some(x) => seq![x],
            None => Seq::empty(),
        }
    }
}

/// The sites of the first `n` consumed `-define` directives.
pub open spec fn define_sites(ctx: Context, ds: Seq<SkippedDirective>, fallback: int, n: int) -> Seq<AttrSite>
    decreases n,
{
    if n <= 0 {
        Seq::empty()
    } else {
        define_sites(ctx, ds, fallback, n - 1) + match directive_site(ctx, ds[n - 1], AttrClass::DefineTypeRecord, AttrName::Define, fallback) {
            Some(x) => seq![x],
            None => Seq::empty(),
        }
    }
}

/// Where `x` goes among `sorted` (ordered by start): after every site that
/// does not start later, so that equal starts keep their order.
pub open spec fn insert_pos(sorted: Seq<AttrSite>, x: AttrSite, p: int) -> int
    decreases sorted.len() - p,
{
    if p < 0 || p >= sorted.len() {
        sorted.len() as int
    } else if sorted[p].span.start > x.span.start {
        p
    } else {
        insert_pos(sorted, x, p + 1)
    }
}

/// `s` sorted by start, stably.
pub open spec fn sort_sites(s: Seq<AttrSite>) -> Seq<AttrSite>
    decreases s.len(),
{
    if s.len() == 0 {
        s
    } else {
        let r = sort_sites(s.drop_last());
        r.insert(insert_pos(r, s.last(), 0), s.last())
    }
}

/// All sites of a branch, in file order: attributes that survived
/// preprocessing, then the consumed directives, sorted stably by start.
pub open spec fn spec_sites(ctx: Context, b: BranchContext, fallback: int) -> Seq<AttrSite> {
    let roots = roots_of(b.tree.nodes@);
    sort_sites(
        tree_sites(b, roots, roots.len() as int)
            + incl_sites(ctx, b.skipped_includes@, fallback, b.skipped_includes@.len() as int)
            + define_sites(ctx, b.skipped_defines@, fallback, b.skipped_defines@.len() as int),
    )
}

/// The start of the first function, in root order: the first
/// `FunctionDecl` root whose range maps into the file.
pub open spec fn ffs_from(b: BranchContext, roots: Seq<int>, k: int) -> Option<usize>
    decreases roots.len() - k,
{
    if k < 0 || k >= roots.len() {
        None
    } else {
        let n = b.tree.nodes@[roots[k]];
        if n.kind == SyntaxKind::FunctionDecl {
            match range_span(b.source_tokens@, TokenRange { start: n.start, end: n.end }) {
                Some(s) => Some(s.start),
                None => ffs_from(b, roots, k + 1),
            }
        } else {
            ffs_from(b, roots, k + 1)
        }
    }
}

/// Header order: before the first function, the first occurrence of each
/// class must not come after a later class; scanning from site `i` with
/// the highest rank seen so far and the ranks seen.
pub open spec fn header_from(sites: Seq<AttrSite>, ffs: Option<usize>, i: int, max_rank: u8, seen: Seq<bool>) -> Seq<Finding>
    decreases sites.len() - i,
{
    if i < 0 || i >= sites.len() {
        Seq::empty()
    } else if ffs matches Some(st) && sites[i].span.start >= st {
        Seq::empty()
    } else {
        let r = spec_rank(sites[i].class);
        if seen[r as int] {
            header_from(sites, ffs, i + 1, max_rank, seen)
        } else {
            (if r < max_rank { seq![Finding { span: sites[i].span, node: sites[i].node }] } else { Seq::empty() })
                + header_from(sites, ffs, i + 1, if max_rank >= r { max_rank } else { r }, seen.update(r as int, true))
        }
    }
}

/// Whether `span` lies inside one of `regions`.
pub open spec fn in_any_region(span: Span, regions: Seq<Span>) -> bool {
    exists|k: int| 0 <= k < regions.len() && #[trigger] regions[k].start <= span.start && span.end <= regions[k].end
}

/// Placement after the first function (starting at `fs`): type-level
/// attributes and exports are never allowed there; `-define` and file
/// inclusion only inside a test region.
pub open spec fn placement_at(x: AttrSite, fs: usize, regions: Seq<Span>) -> Option<Finding> {
    let f = Finding { span: x.span, node: x.node };
    if x.span.start < fs {
        None
    } else if x.name == AttrName::Type || x.name == AttrName::Opaque || x.name == AttrName::Record
        || x.name == AttrName::Export || x.name == AttrName::ExportType {
        Some(f)
    } else if x.name == AttrName::Define || x.name == AttrName::Incl || x.name == AttrName::InclLib {
        if in_any_region(x.span, regions) { None } else { Some(f) }
    } else {
        None
    }
}

/// The placement findings among the first `n` sites.
pub open spec fn placement(sites: Seq<AttrSite>, fs: usize, regions: Seq<Span>, n: int) -> Seq<Finding>
    decreases n,
{
    if n <= 0 {
        Seq::empty()
    } else {
        placement(sites, fs, regions, n - 1) + match placement_at(sites[n - 1], fs, regions) {
            Some(f) => seq![f],
            None => Seq::empty(),
        }
    }
}

/// The rule's findings for a branch: header order, then placement.
pub open spec fn findings(ctx: Context, b: BranchContext) -> Seq<Finding> {
    let roots = roots_of(b.tree.nodes@);
    if roots.len() == 0 {
        Seq::empty()
    } else {
        let sites = spec_sites(ctx, b, roots[0]);
        let ffs = ffs_from(b, roots, 0);
        header_from(sites, ffs, 0, 0, seq![false, false, false, false, false, false]) + match ffs {
            Some(fs) => placement(sites, fs, spec_test_regions(ctx.original_tokens@), sites.len() as int),
            None => Seq::empty(),
        }
    }
}

/// Every finding of the first `n` sites' placement is kept in order.
proof fn lemma_placement_has(sites: Seq<AttrSite>, fs: usize, regions: Seq<Span>, n: int, k: int)
    requires
        0 <= k < n <= sites.len(),
        placement_at(sites[k], fs, regions) is Some,
    ensures
        placement(sites, fs, regions, n).contains(placement_at(sites[k], fs, regions)->Some_0),
    decreases n,
{
    let f = placement_at(sites[k], fs, regions)->Some_0;
    if k < n - 1 {
        lemma_placement_has(sites, fs, regions, n - 1, k);
        let prev = placement(sites, fs, regions, n - 1);
        let j = choose|j: int| 0 <= j < prev.len() && prev[j] == f;
        assert(placement(sites, fs, regions, n)[j] == f);
    } else {
        let prev = placement(sites, fs, regions, n - 1);
        assert(placement(sites, fs, regions, n)[prev.len() as int] == f);
    }
}

/// Exports, types, opaques and records are never allowed after the
/// functions start: every `-export`, `-export_type`, `-type`, `-opaque` or
/// `-record` site that starts at or after the first function's start is
/// reported, at its name.
pub proof fn law_late_exports_and_types_reported(ctx: Context, b: BranchContext, k: int)
    requires
        roots_of(b.tree.nodes@).len() > 0,
        0 <= k < spec_sites(ctx, b, roots_of(b.tree.nodes@)[0]).len(),
        ffs_from(b, roots_of(b.tree.nodes@), 0) matches Some(fs)
            && spec_sites(ctx, b, roots_of(b.tree.nodes@)[0])[k].span.start >= fs,
        ({
            let x = spec_sites(ctx, b, roots_of(b.tree.nodes@)[0])[k];
            x.name == AttrName::Export || x.name == AttrName::ExportType || x.name == AttrName::Type
                || x.name == AttrName::Opaque || x.name == AttrName::Record
        }),
    ensures
        findings(ctx, b).contains(Finding {
            span: spec_sites(ctx, b, roots_of(b.tree.nodes@)[0])[k].span,
            node: spec_sites(ctx, b, roots_of(b.tree.nodes@)[0])[k].node,
        }),
{
    let roots = roots_of(b.tree.nodes@);
    let sites = spec_sites(ctx, b, roots[0]);
    let fs = ffs_from(b, roots, 0)->Some_0;
    let regions = spec_test_regions(ctx.original_tokens@);
    let f = Finding { span: sites[k].span, node: sites[k].node };
    assert(placement_at(sites[k], fs, regions) == Some(f));
    lemma_placement_has(sites, fs, regions, sites.len() as int, k);
    let h = header_from(sites, Some(fs), 0, 0, seq![false, false, false, false, false, false]);
    let p = placement(sites, fs, regions, sites.len() as int);
    let j = choose|j: int| 0 <= j < p.len() && p[j] == f;
    assert(findings(ctx, b) == h + p);
    assert(findings(ctx, b)[h.len() + j] == f);
}

/// After the functions start, a `-define` or a file inclusion is allowed
/// only inside a test region: one at or after the first function's start
/// that lies in no test region is reported, at its name.
pub proof fn law_late_defines_outside_tests_reported(ctx: Context, b: BranchContext, k: int)
    requires
        roots_of(b.tree.nodes@).len() > 0,
        0 <= k < spec_sites(ctx, b, roots_of(b.tree.nodes@)[0]).len(),
        ffs_from(b, roots_of(b.tree.nodes@), 0) matches Some(fs)
            && spec_sites(ctx, b, roots_of(b.tree.nodes@)[0])[k].span.start >= fs,
        ({
            let x = spec_sites(ctx, b, roots_of(b.tree.nodes@)[0])[k];
            (x.name == AttrName::Define || x.name == AttrName::Incl || x.name == AttrName::InclLib)
                && !(exists|m: int| 0 <= m < spec_test_regions(ctx.original_tokens@).len()
                    && #[trigger] spec_test_regions(ctx.original_tokens@)[m].start <= x.span.start
                    && x.span.end <= spec_test_regions(ctx.original_tokens@)[m].end)
        }),
    ensures
        findings(ctx, b).contains(Finding {
            span: spec_sites(ctx, b, roots_of(b.tree.nodes@)[0])[k].span,
            node: spec_sites(ctx, b, roots_of(b.tree.nodes@)[0])[k].node,
        }),
{
    let roots = roots_of(b.tree.nodes@);
    let sites = spec_sites(ctx, b, roots[0]);
    let fs = ffs_from(b, roots, 0)->Some_0;
    let regions = spec_test_regions(ctx.original_tokens@);
    let f = Finding { span: sites[k].span, node: sites[k].node };
    assert(!in_any_region(sites[k].span, regions));
    assert(placement_at(sites[k], fs, regions) == Some(f));
    lemma_placement_has(sites, fs, regions, sites.len() as int, k);
    let h = header_from(sites, Some(fs), 0, 0, seq![false, false, false, false, false, false]);
    let p = placement(sites, fs, regions, sites.len() as int);
    let j = choose|j: int| 0 <= j < p.len() && p[j] == f;
    assert(findings(ctx, b) == h + p);
    assert(findings(ctx, b)[h.len() + j] == f);
}

/// The site of root `r`; see [`root_site`].
fn site_of_root(branch: &BranchContext, r: usize) -> (x: Option<AttrSite>)
    requires
        branch.wf(),
        r < branch.tree.nodes@.len(),
    ensures
        x == root_site(*branch, r as int),
{
    let nodes = &branch.tree.nodes;
    let ghost n_tokens = branch.source_tokens@.len();
    if nodes[r].kind != SyntaxKind::Attribute {
        return None;
    }
    let cs = branch.tree.children(r, Ghost(n_tokens));
    let mut k: usize = 0;
    while k < cs.len() && nodes[cs[k]].kind != SyntaxKind::AttributeName
        invariant
            k <= cs@.len(),
            nodes == &branch.tree.nodes,
            branch.wf(),
            n_tokens == branch.source_tokens@.len(),
            forall|m: int| 0 <= m < cs@.len() ==> r < #[trigger] cs@[m] < nodes@[r as int].subtree_end,
            cs@.map_values(|c: usize| c as int) == children_of(nodes@, r as int),
            first_child_of_kind(nodes@, children_of(nodes@, r as int), SyntaxKind::AttributeName, 0)
                == first_child_of_kind(nodes@, children_of(nodes@, r as int), SyntaxKind::AttributeName, k as int),
        decreases cs@.len() - k,
    {
        proof {
            crate::syntax::lemma_node(nodes@, n_tokens, r as int);
        }
        assert(cs@[k as int] as int == children_of(nodes@, r as int)[k as int]);
        k += 1;
    }
    if k >= cs.len() {
        return None;
    }
    proof {
        crate::syntax::lemma_node(nodes@, n_tokens, r as int);
    }
    assert(cs@[k as int] as int == children_of(nodes@, r as int)[k as int]);
    let nn = nodes[cs[k]];
    let name = match clause_name(branch, cs[k]) {
        Some(n) => n,
        None => return None,
    };
    let (class, an) = match classify(name.as_str()) {
        Some(p) => p,
        None => return None,
    };
    match branch.span_of_range(TokenRange { start: nn.start, end: nn.end }) {
        Some(span) => Some(AttrSite { class, name: an, span, node: r }),
        None => None,
    }
}

/// The site of a consumed directive; see [`directive_site`].
fn site_of_directive(ctx: &Context, d: SkippedDirective, class: AttrClass, name: AttrName, fallback: usize) -> (x: Option<AttrSite>)
    requires
        d.name_span.fits(vstd::utf8::encode_utf8(ctx.text@)),
    ensures
        x == directive_site(*ctx, d, class, name, fallback as int),
{
    let t = d.name_span.text(ctx.text.as_str());
    proof {
        vstd::utf8::encode_utf8_decode_utf8(t@);
    }
    if str_eq(t, name.spelling()) {
        Some(AttrSite { class, name, span: d.name_span, node: fallback })
    } else {
        None
    }
}

/// Inserts `x` among the start-ordered `sorted`; see [`insert_pos`].
fn insert_site(sorted: &mut Vec<AttrSite>, x: AttrSite)
    ensures
        final(sorted)@ == old(sorted)@.insert(insert_pos(old(sorted)@, x, 0), x),
{
    let mut p: usize = 0;
    while p < sorted.len() && sorted[p].span.start <= x.span.start
        invariant
            p <= sorted@.len(),
            sorted@ == old(sorted)@,
            insert_pos(sorted@, x, 0) == insert_pos(sorted@, x, p as int),
        decreases sorted@.len() - p,
    {
        p += 1;
    }
    sorted.insert(p, x);
}

/// All sites of a branch in file order; see [`spec_sites`].
fn collect_sites(ctx: &Context, branch: &BranchContext, fallback: usize) -> (sites: Vec<AttrSite>)
    requires
        ctx.branch_ok(*branch),
    ensures
        sites@ == spec_sites(*ctx, *branch, fallback as int),
{
    let ghost n_tokens = branch.source_tokens@.len();
    let roots = branch.tree.roots(Ghost(n_tokens));
    let ghost rs = roots@.map_values(|c: usize| c as int);
    let ghost all = tree_sites(*branch, rs, rs.len() as int)
        + incl_sites(*ctx, branch.skipped_includes@, fallback as int, branch.skipped_includes@.len() as int)
        + define_sites(*ctx, branch.skipped_defines@, fallback as int, branch.skipped_defines@.len() as int);
    let ghost unsorted: Seq<AttrSite> = Seq::empty();
    let mut sorted: Vec<AttrSite> = Vec::new();
    let mut i: usize = 0;
    while i < roots.len()
        invariant
            ctx.branch_ok(*branch),
            rs == roots@.map_values(|c: usize| c as int),
            forall|m: int| 0 <= m < roots@.len() ==> #[trigger] roots@[m] < branch.tree.nodes@.len(),
            i <= roots@.len(),
            unsorted == tree_sites(*branch, rs, i as int),
            sorted@ == sort_sites(unsorted),
        decreases roots@.len() - i,
    {
        assert(rs[i as int] == roots@[i as int] as int);
        let x = site_of_root(branch, roots[i]);
        if let Some(site) = x {
            proof {
                assert(unsorted.push(site).drop_last() =~= unsorted);
                unsorted = unsorted.push(site);
            }
            insert_site(&mut sorted, site);
        }
        i += 1;
        assert(unsorted =~= tree_sites(*branch, rs, i as int));
    }
    let ghost base = unsorted;
    let mut i: usize = 0;
    while i < branch.skipped_includes.len()
        invariant
            ctx.branch_ok(*branch),
            i <= branch.skipped_includes@.len(),
            unsorted == base + incl_sites(*ctx, branch.skipped_includes@, fallback as int, i as int),
            sorted@ == sort_sites(unsorted),
        decreases branch.skipped_includes@.len() - i,
    {
        let d = branch.skipped_includes[i];
        let name = if d.is_lib { AttrName::InclLib } else { AttrName::Incl };
        let x = site_of_directive(ctx, d, AttrClass::FileInclusion, name, fallback);
        if let Some(site) = x {
            proof {
                assert(unsorted.push(site).drop_last() =~= unsorted);
                unsorted = unsorted.push(site);
            }
            insert_site(&mut sorted, site);
        }
        i += 1;
        assert(unsorted =~= base + incl_sites(*ctx, branch.skipped_includes@, fallback as int, i as int));
    }
    let ghost base = unsorted;
    let mut i: usize = 0;
    while i < branch.skipped_defines.len()
        invariant
            ctx.branch_ok(*branch),
            i <= branch.skipped_defines@.len(),
            unsorted == base + define_sites(*ctx, branch.skipped_defines@, fallback as int, i as int),
            sorted@ == sort_sites(unsorted),
        decreases branch.skipped_defines@.len() - i,
    {
        let d = branch.skipped_defines[i];
        let x = site_of_directive(ctx, d, AttrClass::DefineTypeRecord, AttrName::Define, fallback);
        if let Some(site) = x {
            proof {
                assert(unsorted.push(site).drop_last() =~= unsorted);
                unsorted = unsorted.push(site);
            }
            insert_site(&mut sorted, site);
        }
        i += 1;
        assert(unsorted =~= base + define_sites(*ctx, branch.skipped_defines@, fallback as int, i as int));
    }
    assert(unsorted =~= all);
    sorted
}

/// The start of the first function; see [`ffs_from`].
fn first_function_start(branch: &BranchContext, roots: &Vec<usize>) -> (r: Option<usize>)
    requires
        branch.wf(),
        forall|m: int| 0 <= m < roots@.len() ==> #[trigger] roots@[m] < branch.tree.nodes@.len(),
    ensures
        r == ffs_from(*branch, roots@.map_values(|c: usize| c as int), 0),
{
    let ghost rs = roots@.map_values(|c: usize| c as int);
    let mut k: usize = 0;
    while k < roots.len()
        invariant
            rs == roots@.map_values(|c: usize| c as int),
            forall|m: int| 0 <= m < roots@.len() ==> #[trigger] roots@[m] < branch.tree.nodes@.len(),
            k <= roots@.len(),
            ffs_from(*branch, rs, 0) == ffs_from(*branch, rs, k as int),
        decreases roots@.len() - k,
    {
        assert(rs[k as int] == roots@[k as int] as int);
        let n = branch.tree.nodes[roots[k]];
        if n.kind == SyntaxKind::FunctionDecl {
            if let Some(s) = branch.span_of_range(TokenRange { start: n.start, end: n.end }) {
                return Some(s.start);
            }
        }
        k += 1;
    }
    None
}

/// Header-order findings; see [`header_from`].
fn check_header_order(sites: &Vec<AttrSite>, ffs: Option<usize>) -> (fs: Vec<Finding>)
    ensures
        fs@ == header_from(sites@, ffs, 0, 0, seq![false, false, false, false, false, false]),
{
    let mut errors: Vec<Finding> = Vec::new();
    let mut max_rank: u8 = 0;
    let mut seen: Vec<bool> = vec![false, false, false, false, false, false];
    let mut i: usize = 0;
    while i < sites.len()
        invariant
            i <= sites@.len(),
            seen@.len() == 6,
            errors@ + header_from(sites@, ffs, i as int, max_rank, seen@)
                == header_from(sites@, ffs, 0, 0, seq![false, false, false, false, false, false]),
        decreases sites@.len() - i,
    {
        let site = sites[i];
        if let Some(st) = ffs {
            if site.span.start >= st {
                assert(header_from(sites@, ffs, i as int, max_rank, seen@) =~= Seq::<Finding>::empty());
                assert(errors@ + Seq::<Finding>::empty() =~= errors@);
                return errors;
            }
        }
        let r = rank(site.class);
        if !seen[r as usize] {
            seen.set(r as usize, true);
            if r < max_rank {
                errors.push(Finding { span: site.span, node: site.node });
            }
            if max_rank < r {
                max_rank = r;
            }
        }
        i += 1;
    }
    assert(header_from(sites@, ffs, i as int, max_rank, seen@) =~= Seq::<Finding>::empty());
    assert(errors@ + Seq::<Finding>::empty() =~= errors@);
    errors
}

/// Whether `span` lies inside one of `regions`; see [`in_any_region`].
fn in_region(span: Span, regions: &Vec<Span>) -> (b: bool)
    ensures
        b == in_any_region(span, regions@),
{
    let mut k: usize = 0;
    while k < regions.len()
        invariant
            k <= regions@.len(),
            forall|j: int| 0 <= j < k ==> !(#[trigger] regions@[j].start <= span.start && span.end <= regions@[j].end),
        decreases regions@.len() - k,
    {
        if regions[k].start <= span.start && span.end <= regions[k].end {
            return true;
        }
        k += 1;
    }
    false
}

/// Placement findings after the first function; see [`placement`].
fn check_after_function_placement(sites: &Vec<AttrSite>, fs: usize, regions: &Vec<Span>) -> (out: Vec<Finding>)
    ensures
        out@ == placement(sites@, fs, regions@, sites@.len() as int),
{
    let mut errors: Vec<Finding> = Vec::new();
    let mut i: usize = 0;
    while i < sites.len()
        invariant
            i <= sites@.len(),
            errors@ == placement(sites@, fs, regions@, i as int),
        decreases sites@.len() - i,
    {
        let x = sites[i];
        let f = Finding { span: x.span, node: x.node };
        let r: Option<Finding> = if x.span.start < fs {
            None
        } else if x.name == AttrName::Type || x.name == AttrName::Opaque || x.name == AttrName::Record
            || x.name == AttrName::Export || x.name == AttrName::ExportType {
            Some(f)
        } else if x.name == AttrName::Define || x.name == AttrName::Incl || x.name == AttrName::InclLib {
            if in_region(x.span, regions) { None } else { Some(f) }
        } else {
            None
        };
        assert(r == placement_at(x, fs, regions@));
        if let Some(f) = r {
            errors.push(f);
        }
        i += 1;
        assert(errors@ =~= placement(sites@, fs, regions@, i as int));
    }
    errors
}

/// Checks module-attribute order and placement.
pub fn check(ctx: &Context, branch: &BranchContext) -> (fs: Vec<Finding>)
    requires
        ctx.branch_ok(*branch),
    ensures
        fs@ == findings(*ctx, *branch),
{
    let ghost n_tokens = branch.source_tokens@.len();
    let roots = branch.tree.roots(Ghost(n_tokens));
    if roots.len() == 0 {
        assert(roots@.map_values(|c: usize| c as int).len() == 0);
        return Vec::new();
    }
    let ghost rs = roots@.map_values(|c: usize| c as int);
    assert(rs[0] == roots@[0] as int);
    let fallback = roots[0];
    let ffs = first_function_start(branch, &roots);
    let regions = test_ifdef_regions(&ctx.original_tokens);
    let sites = collect_sites(ctx, branch, fallback);
    let mut errors = check_header_order(&sites, ffs);
    if let Some(fs) = ffs {
        let mut more = check_after_function_placement(&sites, fs, &regions);
        errors.append(&mut more);
    }
    errors
}

/// The rule's description.
pub const TEXT: &'static str = "# `attr_order`

Keep module attributes in conventional header order; do not place exports, types, or records after functions.

## What it does

This rule reports two kinds of violations:

1. **Header order.** Before the first function clause, the first occurrence of
   each attribute class must follow this order:
   - `-module`
   - `-behaviour` / `-behavior`
   - `-export` / `-export_type`
   - `-\x69nclude` / `-\x69nclude_lib`
   - `-record` / `-type` / `-opaque` / `-define` (any order within this group)

   A later class that appears before an earlier class is reported (for example
   `-export` after `-\x69nclude`, or `-\x69nclude` after `-type`).

2. **Placement after functions.** After the first function clause:
   - `-type` / `-opaque` / `-record` / `-export` / `-export_type` are always
     reported
   - `-define` / `-\x69nclude` / `-\x69nclude_lib` are reported unless they lie inside
     an `-ifdef(TEST).` ... `-endif.` \x74hen-arm (up to a possible `-else`)

It does not report:

- `-spec` / `-callback` next to functions
- Unclassified attributes such as `-compile`, `-doc`, or `-elint_expect`
- Relative order among `-record`, `-type`, `-opaque`, and `-define`
- `-define` / `-\x69nclude` / `-\x69nclude_lib` inside `-ifdef(TEST)` after functions

`-\x69nclude` / `-\x69nclude_lib` are skipped by preprocessing and do not remain in
the parse tree. This rule recovers those directive sites from the preprocessor
so their order and placement can still be checked.

## Why restrict this?

Module headers are easiest to read when exports, \x69ncludes, and type-level
declarations stay at the top in a stable order. Attributes that sit between
function clauses split the module's surface and make the header an incomplete
summary. Test-only macros and eunit \x69ncludes conventionally live under
`-ifdef(TEST)`, so that placement remains allowed.

## Example

```erlang
-module(example).

-\x69nclude(\"example.hrl\").

-export([f/0]).

f() ->
    ok.

-type t() :: ok.
```

Use instead:

```erlang
-module(example).

-export([f/0]).

-\x69nclude(\"example.hrl\").

-type t() :: ok.

f() ->
    ok.

-ifdef(TEST).
-\x69nclude_lib(\"eunit/\x69nclude/eunit.hrl\").
-endif.
```

## Known limitations

Only `-ifdef(TEST)` \x74hen-arms are recognized as test regions. `-ifndef(TEST)`,
`-if(...)`, and other macros are not treated as exemptions.
";

} // verus!
