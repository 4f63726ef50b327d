//! `-elint_expect` attributes that suppress matching findings.
use crate::context::{
    clause_arity, clause_name, range_span, spec_clause_arity, spec_clause_name, BranchContext,
    Context,
};
use crate::error::Error;
use crate::lex::{erl_scan, scan_tokens, Tok, TokValue};
use crate::span::Span;
use crate::syntax::{children_of, roots_of, SyntaxKind, TokenRange};
use crate::text::{decimal, push_decimal, str_eq};
use vstd::prelude::*;
use vstd::string::{StringExecFns, StringSliceAdditionalSpecFns};

verus! {

/// Whether a token is spelled `s`.
pub open spec fn spelled(t: Tok, s: Seq<char>) -> bool {
    t.text@ == s
}

/// The index after a run of string tokens starting at `i`.
pub open spec fn str_run_end(lex: Seq<Tok>, i: int) -> int
    decreases lex.len() - i,
{
    if i < 0 || i >= lex.len() || !(lex[i].value is Str) {
        i
    } else {
        str_run_end(lex, i + 1)
    }
}

/// The index after the term that starts at `i`, if a term starts there. A
/// term is an atom, an integer, a variable, a run of adjacent strings, or
/// a tuple, list or binary of terms.
pub open spec fn term_end(lex: Seq<Tok>, i: int) -> Option<int>
    decreases lex.len() - i, 1int,
{
    if i < 0 || i >= lex.len() {
        None
    } else if lex[i].value is Str {
        Some(str_run_end(lex, i + 1))
    } else if lex[i].value is Atom || lex[i].value is Integer || lex[i].value is Var {
        Some(i + 1)
    } else if spelled(lex[i], "{"@) {
        match elems(lex, i + 1, "}"@) {
            Some((_, e)) => Some(e),
            None => None,
        }
    } else if spelled(lex[i], "["@) {
        match elems(lex, i + 1, "]"@) {
            Some((_, e)) => Some(e),
            None => None,
        }
    } else if spelled(lex[i], "<<"@) {
        match elems(lex, i + 1, ">>"@) {
            Some((_, e)) => Some(e),
            None => None,
        }
    } else {
        None
    }
}

/// The comma-separated terms from `i` up to the `close` token: their start
/// indices, and the index after `close`.
pub open spec fn elems(lex: Seq<Tok>, i: int, close: Seq<char>) -> Option<(Seq<int>, int)>
    decreases lex.len() - i, 3int,
{
    if i < 0 || i >= lex.len() {
        None
    } else if spelled(lex[i], close) {
        Some((Seq::empty(), i + 1))
    } else {
        more_elems(lex, i, close)
    }
}

/// The terms from `i`, which must start one, up to `close`.
pub open spec fn more_elems(lex: Seq<Tok>, i: int, close: Seq<char>) -> Option<(Seq<int>, int)>
    decreases lex.len() - i, 2int,
{
    if i < 0 || i >= lex.len() {
        None
    } else {
        match term_end(lex, i) {
            None => None,
            Some(e) => if e <= i || e >= lex.len() {
                None
            } else if spelled(lex[e], ","@) {
                match more_elems(lex, e + 1, close) {
                    Some((starts, end)) => Some((seq![i].add(starts), end)),
                    None => None,
                }
            } else if spelled(lex[e], close) {
                Some((seq![i], e + 1))
            } else {
                None
            },
        }
    }
}

/// The atom of the term at `s`, when it is a single atom.
pub open spec fn single_atom(lex: Seq<Tok>, s: int) -> Option<Seq<char>> {
    if 0 <= s < lex.len() && lex[s].value is Atom {
        Some(lex[s].value->Atom_0@)
    } else {
        None
    }
}

/// The target term at `s`: `module` (`Some(None)`), `{function, Name,
/// Arity}` (`Some(Some((Name, Arity)))`), or neither (`None`).
pub open spec fn read_target(lex: Seq<Tok>, s: int) -> Option<Option<(Seq<char>, u64)>> {
    if 0 <= s < lex.len() && spelled(lex[s], "{"@) {
        tuple_target(lex, s)
    } else if single_atom(lex, s) == Some("module"@) {
        Some(None)
    } else {
        None
    }
}

/// Decodes the lexical tokens of `{Payload}.`: the rule name, the target
/// (`None` for `module`) and the reason. The error is `None` when no rule
/// name can be read from the payload, `Some((rule, true))` when only the
/// reason is missing or is not a string, and `Some((rule, false))` when the
/// rule name reads but the rest of the payload is malformed.
pub open spec fn spec_payload(lex: Seq<Tok>) -> Result<(Seq<char>, Option<(Seq<char>, u64)>, Seq<char>), Option<(Seq<char>, bool)>> {
    if lex.len() == 0 || !spelled(lex[0], "{"@) {
        Err(None)
    } else {
        match elems(lex, 1, "}"@) {
            None => Err(None),
            Some((starts, e)) => if !(e + 1 == lex.len() && spelled(lex[e], "."@)) || starts.len() < 1 {
                Err(None)
            } else {
                match single_atom(lex, starts[0]) {
                    None => Err(None),
                    Some(rule) => if starts.len() < 2 {
                        Err(Some((rule, false)))
                    } else {
                        match read_target(lex, starts[1]) {
                            None => Err(Some((rule, false))),
                            Some(target) => if starts.len() == 2 {
                                Err(Some((rule, true)))
                            } else if starts.len() > 3 {
                                Err(Some((rule, false)))
                            } else if 0 <= starts[2] < lex.len() && lex[starts[2]].value is Str {
                                Ok((rule, target, lex[starts[2]].value->Str_0@))
                            } else {
                                Err(Some((rule, true)))
                            },
                        }
                    },
                }
            },
        }
    }
}

/// The target of an `-elint_expect` expectation.
#[derive(Debug, Clone)]
pub enum ExpectTarget {
    /// Findings inside any clause of `Name/Arity` are suppressed.
    Function(String, u64),
    /// Findings anywhere in the current module are suppressed.
    Module,
}

/// A decoded payload.
pub struct ParsedExpect {
    pub rule: String,
    pub target: ExpectTarget,
    pub reason: String,
}

/// Why a payload could not be decoded.
pub enum PayloadError {
    /// No rule name can be read from the payload.
    Invalid,
    /// The rule name reads, but the payload is not
    /// `{Rule, {function, Name, Arity} | module, Reason}`; carries the rule
    /// name so a caller can decide whether to report it.
    Malformed { rule: String },
    /// The reason is missing or is not a string; carries the rule name so a
    /// caller can decide whether to report it.
    MissingReason { rule: String },
}

/// The target as plain values: `None` for `module`.
pub open spec fn target_view(t: ExpectTarget) -> Option<(Seq<char>, u64)> {
    match t {
        ExpectTarget::Function(name, arity) => Some((name@, arity)),
        ExpectTarget::Module => None,
    }
}

/// A payload result as plain values; see [`spec_payload`].
pub open spec fn payload_view(r: Result<ParsedExpect, PayloadError>) -> Result<(Seq<char>, Option<(Seq<char>, u64)>, Seq<char>), Option<(Seq<char>, bool)>> {
    match r {
        Ok(p) => Ok((p.rule@, target_view(p.target), p.reason@)),
        Err(PayloadError::Invalid) => Err(None),
        Err(PayloadError::Malformed { rule }) => Err(Some((rule@, false))),
        Err(PayloadError::MissingReason { rule }) => Err(Some((rule@, true))),
    }
}

/// The lexical token at position `i` of the index list.
pub open spec fn at(toks: Seq<Tok>, idx: Seq<usize>, i: int) -> Tok {
    toks[idx[i] as int]
}

/// Whether every index is a token index.
pub open spec fn idx_ok(toks: Seq<Tok>, idx: Seq<usize>) -> bool {
    forall|m: int| 0 <= m < idx.len() ==> #[trigger] idx[m] < toks.len()
}

/// The index after a run of strings; see [`str_run_end`].
fn str_run_end_at(toks: &Vec<Tok>, idx: &Vec<usize>, i: usize) -> (e: usize)
    requires
        idx_ok(toks@, idx@),
    ensures
        e as int == str_run_end(crate::lex::lex_view(toks@, idx@), i as int),
{
    let ghost lex = crate::lex::lex_view(toks@, idx@);
    let mut e = i;
    while e < idx.len() && matches!(toks[idx[e]].value, TokValue::Str(_))
        invariant
            idx_ok(toks@, idx@),
            lex == crate::lex::lex_view(toks@, idx@),
            i <= e,
            str_run_end(lex, i as int) == str_run_end(lex, e as int),
        decreases idx@.len() - e,
    {
        assert(lex[e as int] == toks@[idx@[e as int] as int]);
        e += 1;
    }
    if e < idx.len() {
        assert(lex[e as int] == toks@[idx@[e as int] as int]);
    }
    e
}

/// The index after the term at `i`; see [`term_end`].
fn term_end_at(toks: &Vec<Tok>, idx: &Vec<usize>, i: usize) -> (r: Option<usize>)
    requires
        idx_ok(toks@, idx@),
    ensures
        r matches Some(e) ==> term_end(crate::lex::lex_view(toks@, idx@), i as int) == Some(e as int),
        r is None ==> term_end(crate::lex::lex_view(toks@, idx@), i as int) is None,
    decreases idx@.len() - i, 1int,
{
    let ghost lex = crate::lex::lex_view(toks@, idx@);
    if i >= idx.len() {
        return None;
    }
    assert(lex[i as int] == toks@[idx@[i as int] as int]);
    let t = &toks[idx[i]];
    match &t.value {
        TokValue::Str(_) => Some(str_run_end_at(toks, idx, i + 1)),
        TokValue::Atom(_) | TokValue::Integer(_) | TokValue::Var => Some(i + 1),
        TokValue::Other => {
            if str_eq(t.text.as_str(), "{") {
                match elems_at(toks, idx, i + 1, "}") {
                    Some((_, e)) => Some(e),
                    None => None,
                }
            } else if str_eq(t.text.as_str(), "[") {
                match elems_at(toks, idx, i + 1, "]") {
                    Some((_, e)) => Some(e),
                    None => None,
                }
            } else if str_eq(t.text.as_str(), "<<") {
                match elems_at(toks, idx, i + 1, ">>") {
                    Some((_, e)) => Some(e),
                    None => None,
                }
            } else {
                None
            }
        },
    }
}

/// The terms up to `close`; see [`elems`].
fn elems_at(toks: &Vec<Tok>, idx: &Vec<usize>, i: usize, close: &str) -> (r: Option<(Vec<usize>, usize)>)
    requires
        idx_ok(toks@, idx@),
    ensures
        r matches Some((v, e)) ==> elems(crate::lex::lex_view(toks@, idx@), i as int, close@) == Some((v@.map_values(|k: usize| k as int), e as int)),
        r is None ==> elems(crate::lex::lex_view(toks@, idx@), i as int, close@) is None,
    decreases idx@.len() - i, 3int,
{
    let ghost lex = crate::lex::lex_view(toks@, idx@);
    if i >= idx.len() {
        return None;
    }
    assert(lex[i as int] == toks@[idx@[i as int] as int]);
    if str_eq(toks[idx[i]].text.as_str(), close) {
        assert(Seq::<usize>::empty().map_values(|k: usize| k as int) =~= Seq::<int>::empty());
        return Some((Vec::new(), i + 1));
    }
    more_elems_at(toks, idx, i, close)
}

/// The terms from `i` up to `close`; see [`more_elems`].
fn more_elems_at(toks: &Vec<Tok>, idx: &Vec<usize>, i: usize, close: &str) -> (r: Option<(Vec<usize>, usize)>)
    requires
        idx_ok(toks@, idx@),
    ensures
        r matches Some((v, e)) ==> more_elems(crate::lex::lex_view(toks@, idx@), i as int, close@) == Some((v@.map_values(|k: usize| k as int), e as int)),
        r is None ==> more_elems(crate::lex::lex_view(toks@, idx@), i as int, close@) is None,
    decreases idx@.len() - i, 2int,
{
    let ghost lex = crate::lex::lex_view(toks@, idx@);
    if i >= idx.len() {
        return None;
    }
    let e = match term_end_at(toks, idx, i) {
        Some(e) => e,
        None => return None,
    };
    if e <= i || e >= idx.len() {
        return None;
    }
    assert(lex[e as int] == toks@[idx@[e as int] as int]);
    if str_eq(toks[idx[e]].text.as_str(), ",") {
        match more_elems_at(toks, idx, e + 1, close) {
            Some((rest, end)) => {
                let mut starts: Vec<usize> = Vec::new();
                starts.push(i);
                let mut rest = rest;
                let ghost rv = rest@;
                starts.append(&mut rest);
                assert(starts@.map_values(|k: usize| k as int) =~= seq![i as int].add(rv.map_values(|k: usize| k as int)));
                Some((starts, end))
            },
            None => None,
        }
    } else if str_eq(toks[idx[e]].text.as_str(), close) {
        let mut starts: Vec<usize> = Vec::new();
        starts.push(i);
        assert(starts@.map_values(|k: usize| k as int) =~= seq![i as int]);
        Some((starts, e + 1))
    } else {
        None
    }
}

/// The atom of the single-atom term at position `s`; see [`single_atom`].
fn atom_at(toks: &Vec<Tok>, idx: &Vec<usize>, s: usize) -> (r: Option<String>)
    requires
        idx_ok(toks@, idx@),
    ensures
        r matches Some(a) ==> single_atom(crate::lex::lex_view(toks@, idx@), s as int) == Some(a@),
        r is None ==> single_atom(crate::lex::lex_view(toks@, idx@), s as int) is None,
{
    if s >= idx.len() {
        return None;
    }
    assert(crate::lex::lex_view(toks@, idx@)[s as int] == toks@[idx@[s as int] as int]);
    match &toks[idx[s]].value {
        TokValue::Atom(a) => Some(a.clone()),
        _ => None,
    }
}

/// The target of a tuple term: `{function, Name, Arity}` or nothing.
pub open spec fn tuple_target(lex: Seq<Tok>, s: int) -> Option<Option<(Seq<char>, u64)>> {
    match elems(lex, s + 1, "}"@) {
        Some((ts, _)) => if ts.len() == 3 && single_atom(lex, ts[0]) == Some("function"@)
            && single_atom(lex, ts[1]) is Some && 0 <= ts[2] < lex.len()
            && lex[ts[2]].value matches TokValue::Integer(Some(n)) {
            Some(Some((single_atom(lex, ts[1])->Some_0, lex[ts[2]].value->Integer_0->Some_0)))
        } else {
            None
        },
        None => None,
    }
}

/// Reads a `{function, Name, Arity}` target at position `s`; see
/// [`tuple_target`].
fn function_target(toks: &Vec<Tok>, idx: &Vec<usize>, s: usize) -> (r: Option<ExpectTarget>)
    requires
        idx_ok(toks@, idx@),
        s < usize::MAX,
    ensures
        r matches Some(t) ==> tuple_target(crate::lex::lex_view(toks@, idx@), s as int) == Some(target_view(t)),
        r is None ==> tuple_target(crate::lex::lex_view(toks@, idx@), s as int) is None,
{
    let ghost lex = crate::lex::lex_view(toks@, idx@);
    let ts = match elems_at(toks, idx, s + 1, "}") {
        Some((ts, _)) => ts,
        None => return None,
    };
    let ghost tsv = ts@.map_values(|k: usize| k as int);
    if ts.len() != 3 {
        assert(tsv.len() == ts@.len());
        return None;
    }
    assert(tsv[0] == ts@[0] as int);
    assert(tsv[1] == ts@[1] as int);
    assert(tsv[2] == ts@[2] as int);
    let tag = match atom_at(toks, idx, ts[0]) {
        Some(a) => a,
        None => return None,
    };
    if !str_eq(tag.as_str(), "function") {
        return None;
    }
    let name = match atom_at(toks, idx, ts[1]) {
        Some(a) => a,
        None => return None,
    };
    if ts[2] >= idx.len() {
        return None;
    }
    assert(lex[ts@[2] as int] == toks@[idx@[ts@[2] as int] as int]);
    match toks[idx[ts[2]]].value {
        TokValue::Integer(Some(n)) => Some(ExpectTarget::Function(name, n)),
        _ => None,
    }
}

/// Reads the target term at position `s`; see [`read_target`].
fn target_at(toks: &Vec<Tok>, idx: &Vec<usize>, s: usize) -> (r: Option<ExpectTarget>)
    requires
        idx_ok(toks@, idx@),
    ensures
        r matches Some(t) ==> read_target(crate::lex::lex_view(toks@, idx@), s as int) == Some(target_view(t)),
        r is None ==> read_target(crate::lex::lex_view(toks@, idx@), s as int) is None,
{
    let ghost lex = crate::lex::lex_view(toks@, idx@);
    if s < idx.len() {
        assert(lex[s as int] == toks@[idx@[s as int] as int]);
        if str_eq(toks[idx[s]].text.as_str(), "{") {
            return function_target(toks, idx, s);
        }
    }
    match atom_at(toks, idx, s) {
        Some(a) => if str_eq(a.as_str(), "module") { Some(ExpectTarget::Module) } else { None },
        None => None,
    }
}

/// Decodes the scanned tokens of `{Payload}.`; see [`spec_payload`].
pub fn decode_payload(toks: &Vec<Tok>) -> (r: Result<ParsedExpect, PayloadError>)
    ensures
        payload_view(r) == spec_payload(crate::lex::lexicals(toks@)),
{
    let idx = crate::lex::lexical_indices(toks);
    let ghost lex = crate::lex::lex_view(toks@, idx@);
    if idx.len() == 0 {
        return Err(PayloadError::Invalid);
    }
    assert(lex[0] == toks@[idx@[0] as int]);
    if !str_eq(toks[idx[0]].text.as_str(), "{") {
        return Err(PayloadError::Invalid);
    }
    let (starts, e) = match elems_at(toks, &idx, 1, "}") {
        Some(p) => p,
        None => return Err(PayloadError::Invalid),
    };
    let ghost sv = starts@.map_values(|k: usize| k as int);
    assert(sv.len() == starts@.len());
    if e >= idx.len() || e + 1 != idx.len() {
        return Err(PayloadError::Invalid);
    }
    assert(lex[e as int] == toks@[idx@[e as int] as int]);
    if !str_eq(toks[idx[e]].text.as_str(), ".") || starts.len() < 1 {
        return Err(PayloadError::Invalid);
    }
    assert(sv[0] == starts@[0] as int);
    let rule = match atom_at(toks, &idx, starts[0]) {
        Some(a) => a,
        None => return Err(PayloadError::Invalid),
    };
    if starts.len() < 2 {
        return Err(PayloadError::Malformed { rule });
    }
    assert(sv[1] == starts@[1] as int);
    let target = match target_at(toks, &idx, starts[1]) {
        Some(t) => t,
        None => return Err(PayloadError::Malformed { rule }),
    };
    if starts.len() == 2 {
        return Err(PayloadError::MissingReason { rule });
    }
    if starts.len() > 3 {
        return Err(PayloadError::Malformed { rule });
    }
    assert(sv[2] == starts@[2] as int);
    if starts[2] >= idx.len() {
        return Err(PayloadError::MissingReason { rule });
    }
    assert(lex[starts@[2] as int] == toks@[idx@[starts@[2] as int] as int]);
    match &toks[idx[starts[2]]].value {
        TokValue::Str(reason) => Ok(ParsedExpect { rule, target, reason: reason.clone() }),
        _ => Err(PayloadError::MissingReason { rule }),
    }
}

/// What decoding the payload text `source` gives, the scanner's output on
/// `{source}.` taken as it comes.
pub open spec fn spec_parse_payload(source: Seq<char>) -> Result<(Seq<char>, Option<(Seq<char>, u64)>, Seq<char>), Option<(Seq<char>, bool)>> {
    match erl_scan("{"@ + source + "}."@) {
        Err(_) => Err(None),
        Ok(toks) => spec_payload(crate::lex::lexicals(toks)),
    }
}

/// Interprets the payload body (between the attribute's parentheses) by
/// wrapping it in braces and scanning it as a term.
pub fn parse_expect_payload(source: &str) -> (r: Result<ParsedExpect, PayloadError>)
    ensures
        payload_view(r) == spec_parse_payload(source@),
{
    let mut wrapped = String::from_str("{");
    wrapped.append(source);
    wrapped.append("}.");
    match scan_tokens(wrapped.as_str()) {
        Ok(toks) => decode_payload(&toks),
        Err(_) => Err(PayloadError::Invalid),
    }
}

/// One `-elint_expect` entry.
#[derive(Debug)]
pub struct ExpectRule {
    /// Canonical rule name.
    pub name: &'static str,
    /// Span of the attribute form that declared the expectation.
    pub span: Span,
    /// Suppression target.
    pub target: ExpectTarget,
    /// Required suppression reason.
    pub reason: String,
    /// Original-file spans that scope the expectation (the target function's
    /// clauses, or the whole file for a module target).
    pub scope_spans: Vec<Span>,
    /// Whether a finding with this rule name landed inside a scope span.
    pub matched: bool,
}

/// Parsed `-elint_expect` entries collected from the mainline tree.
#[derive(Debug)]
pub struct ExpectRules {
    /// Individual expectations.
    pub rules: Vec<ExpectRule>,
}

/// An expectation as plain values: rule name, attribute span, target,
/// reason and scope spans.
pub open spec fn rule_view(r: ExpectRule) -> (Seq<char>, Span, Option<(Seq<char>, u64)>, Seq<char>, Seq<Span>) {
    (r.name@, r.span, target_view(r.target), r.reason@, r.scope_spans@)
}

impl ExpectTarget {
    /// Human-readable description, e.g. `foo/1` or `module`.
    pub fn describe(&self) -> (s: String)
        ensures
            s@ == match target_view(*self) {
                Some((name, arity)) => name + "/"@ + decimal(arity as nat),
                None => "module"@,
            },
    {
        match self {
            ExpectTarget::Function(name, arity) => {
                let mut s = name.clone();
                s.append("/");
                push_decimal(&mut s, *arity);
                s
            },
            ExpectTarget::Module => String::from_str("module"),
        }
    }
}

/// The names of the registered rules.
pub open spec fn is_rule_name(name: Seq<char>) -> bool {
    ||| name == "attr_order"@ || name == "case_over_if"@ || name == "deep_case_nesting"@
    ||| name == "element_bif"@ || name == "newline_after_arrow"@ || name == "strict_generator"@
}

/// Whether `rule` is linted under the filter `names` (everything when the
/// filter is empty).
pub open spec fn wanted(rule: Seq<char>, names: Seq<String>) -> bool {
    names.len() == 0 || exists|k: int| 0 <= k < names.len() && #[trigger] names[k]@ == rule
}

/// The spans of the clauses named `name` with arity `arity` among the
/// first `n` nodes, in preorder.
pub open spec fn clause_spans(b: BranchContext, name: Seq<char>, arity: u64, n: int) -> Seq<Span>
    decreases n,
{
    if n <= 0 {
        Seq::empty()
    } else {
        let j = n - 1;
        let node = b.tree.nodes@[j];
        clause_spans(b, name, arity, j) + if node.kind == SyntaxKind::FunctionClause
            && spec_clause_name(b, j) == Some(name) && spec_clause_arity(b, j) == Some(arity as nat) {
            match range_span(b.source_tokens@, TokenRange { start: node.start, end: node.end }) {
                Some(s) => seq![s],
                None => Seq::empty(),
            }
        } else {
            Seq::empty()
        }
    }
}

/// The characters of the original file in `s`.
pub open spec fn text_in(ctx: Context, s: Span) -> Seq<char> {
    vstd::utf8::decode_utf8(vstd::utf8::encode_utf8(ctx.text@).subrange(s.start as int, s.end as int))
}

/// The message of a payload without its parentheses.
pub open spec fn msg_paren() -> Seq<char> {
    "invalid -elint_expect payload (expected (Rule, {function, Name, Arity} | module, Reason))"@
}

/// The message of a payload that does not decode.
pub open spec fn msg_invalid() -> Seq<char> {
    "invalid -elint_expect payload (expected {Rule, {function, Name, Arity} | module, Reason})"@
}

/// What mainline root `r` contributes: nothing (`None`), an expectation,
/// or an error with its span and message.
pub open spec fn attr_outcome(ctx: Context, names: Seq<String>, r: int) -> Option<Result<(Seq<char>, Span, Option<(Seq<char>, u64)>, Seq<char>, Seq<Span>), (Span, Seq<char>)>> {
    let b = ctx.branches@[0];
    let nodes = b.tree.nodes@;
    let n = nodes[r];
    let cs = children_of(nodes, r);
    if n.kind != SyntaxKind::Attribute || cs.len() == 0 || nodes[cs[0]].kind != SyntaxKind::AttributeName
        || !crate::rules::element_bif::atom_eq(b, cs[0], "elint_expect"@) {
        None
    } else {
        match range_span(b.source_tokens@, TokenRange { start: n.start, end: n.end }) {
            None => None,
            Some(attr_span) => if cs.len() < 2 {
                Some(Err((attr_span, "missing -elint_expect payload"@)))
            } else {
                let p = nodes[cs[1]];
                match range_span(b.source_tokens@, TokenRange { start: p.start, end: p.end }) {
                    None => Some(Err((attr_span, "missing -elint_expect payload"@))),
                    Some(ps) => {
                        let t = text_in(ctx, ps);
                        if !(t.len() >= 2 && t[0] == '(' && t.last() == ')') {
                            Some(Err((attr_span, msg_paren())))
                        } else {
                            match spec_parse_payload(t.subrange(1, t.len() - 1)) {
                                Err(None) => Some(Err((attr_span, msg_invalid()))),
                                Err(Some((rule, missing_reason))) => if !wanted(rule, names) {
                                    None
                                } else if missing_reason {
                                    Some(Err((attr_span, "missing reason in -elint_expect"@)))
                                } else {
                                    Some(Err((attr_span, msg_invalid())))
                                },
                                Ok((rule, target, reason)) => if !wanted(rule, names) {
                                    None
                                } else if !is_rule_name(rule) {
                                    Some(Err((attr_span, "unknown rule: "@ + rule)))
                                } else {
                                    match target {
                                        Some((fname, arity)) => {
                                            let sp = clause_spans(b, fname, arity, nodes.len() as int);
                                            if sp.len() == 0 {
                                                Some(Err((attr_span, "unknown function: "@ + fname + "/"@ + decimal(arity as nat))))
                                            } else {
                                                Some(Ok((rule, attr_span, target, reason, sp)))
                                            }
                                        },
                                        None => Some(Ok((rule, attr_span, target, reason, seq![Span { start: 0, end: vstd::utf8::encode_utf8(ctx.text@).len() as usize }]))),
                                    }
                                },
                            }
                        }
                    },
                }
            },
        }
    }
}

/// The range of mainline root `r` and the text between its payload's
/// parentheses, when `r` is an `-elint_expect` attribute with such a
/// payload.
pub open spec fn payload_of(ctx: Context, r: int) -> Option<(Span, Seq<char>)> {
    let b = ctx.branches@[0];
    let nodes = b.tree.nodes@;
    let n = nodes[r];
    let cs = children_of(nodes, r);
    if n.kind != SyntaxKind::Attribute || cs.len() < 2 || nodes[cs[0]].kind != SyntaxKind::AttributeName
        || !crate::rules::element_bif::atom_eq(b, cs[0], "elint_expect"@) {
        None
    } else {
        let p = nodes[cs[1]];
        match (range_span(b.source_tokens@, TokenRange { start: n.start, end: n.end }), range_span(b.source_tokens@, TokenRange { start: p.start, end: p.end })) {
            (Some(attr_span), Some(ps)) => {
                let t = text_in(ctx, ps);
                if t.len() >= 2 && t[0] == '(' && t.last() == ')' {
                    Some((attr_span, t.subrange(1, t.len() - 1)))
                } else {
                    None
                }
            },
            _ => None,
        }
    }
}

/// The rule name a payload reads, if one can be read from it.
pub open spec fn payload_rule(p: Seq<char>) -> Option<Seq<char>> {
    match spec_parse_payload(p) {
        Ok((rule, _, _)) => Some(rule),
        Err(Some((rule, _))) => Some(rule),
        Err(None) => None,
    }
}

/// Under `--lint`, an `-elint_expect` attribute whose rule name reads but
/// is not linted is ignored whatever the rest of its payload holds, and
/// one whose rule name cannot be read is an invalid payload whatever is
/// linted.
pub proof fn law_expectation_filter(ctx: Context, names: Seq<String>, r: int)
    ensures
        match payload_of(ctx, r) {
            Some((sp, p)) => match payload_rule(p) {
                Some(rule) => !wanted(rule, names) ==> attr_outcome(ctx, names, r) is None,
                None => attr_outcome(ctx, names, r) == Some(
                    Err::<(Seq<char>, Span, Option<(Seq<char>, u64)>, Seq<char>, Seq<Span>), (Span, Seq<char>)>((sp, msg_invalid())),
                ),
            },
            None => true,
        },
{
}

/// Whether node `j` of branch `b` is a function clause named `name` that
/// takes `arity` arguments and maps into the file.
pub open spec fn is_target_clause(b: BranchContext, j: int, name: Seq<char>, arity: u64) -> bool {
    &&& 0 <= j < b.tree.nodes@.len()
    &&& b.tree.nodes@[j].kind == SyntaxKind::FunctionClause
    &&& spec_clause_name(b, j) == Some(name)
    &&& spec_clause_arity(b, j) == Some(arity as nat)
    &&& clause_range(b, j) is Some
}

/// The range in the file of node `j` of branch `b`.
pub open spec fn clause_range(b: BranchContext, j: int) -> Option<Span> {
    range_span(b.source_tokens@, TokenRange { start: b.tree.nodes@[j].start, end: b.tree.nodes@[j].end })
}

/// Whether node `j` is a clause named `name` with `arity` arguments whose
/// range in the file is `sp`.
pub open spec fn clause_at(b: BranchContext, j: int, name: Seq<char>, arity: u64, sp: Span) -> bool {
    is_target_clause(b, j, name, arity) && clause_range(b, j) == Some(sp)
}

/// The node the `k`-th clause range collected among the first `n` nodes
/// comes from.
pub open spec fn clause_source(b: BranchContext, name: Seq<char>, arity: u64, n: int, k: int) -> int
    decreases n,
{
    if n <= 0 {
        0
    } else if k < clause_spans(b, name, arity, n - 1).len() {
        clause_source(b, name, arity, n - 1, k)
    } else {
        n - 1
    }
}

/// The place among the clause ranges collected below `n` of the range of
/// node `j`.
pub open spec fn clause_place(b: BranchContext, name: Seq<char>, arity: u64, n: int, j: int) -> int
    decreases n,
{
    if n <= 0 {
        0
    } else if j < n - 1 {
        clause_place(b, name, arity, n - 1, j)
    } else {
        clause_spans(b, name, arity, n - 1).len() as int
    }
}

/// The `k`-th clause range collected among the first `n` nodes is the
/// range of a clause with that name and argument count.
proof fn lemma_clause_source(b: BranchContext, name: Seq<char>, arity: u64, n: int, k: int)
    requires
        0 <= n <= b.tree.nodes@.len(),
        0 <= k < clause_spans(b, name, arity, n).len(),
    ensures
        0 <= clause_source(b, name, arity, n, k) < n,
        clause_at(b, clause_source(b, name, arity, n, k), name, arity, clause_spans(b, name, arity, n)[k]),
    decreases n,
{
    let prev = clause_spans(b, name, arity, n - 1);
    if is_target_clause(b, n - 1, name, arity) {
        assert(clause_spans(b, name, arity, n) == prev.push(clause_range(b, n - 1)->Some_0));
    } else {
        assert(clause_spans(b, name, arity, n) == prev);
    }
    if k < prev.len() {
        lemma_clause_source(b, name, arity, n - 1, k);
    }
}

/// The range of every clause below `n` with that name and argument count
/// is collected.
proof fn lemma_clause_place(b: BranchContext, name: Seq<char>, arity: u64, n: int, j: int)
    requires
        0 <= j < n <= b.tree.nodes@.len(),
        is_target_clause(b, j, name, arity),
    ensures
        0 <= clause_place(b, name, arity, n, j) < clause_spans(b, name, arity, n).len(),
        clause_at(b, j, name, arity, clause_spans(b, name, arity, n)[clause_place(b, name, arity, n, j)]),
    decreases n,
{
    let prev = clause_spans(b, name, arity, n - 1);
    if is_target_clause(b, n - 1, name, arity) {
        assert(clause_spans(b, name, arity, n) == prev.push(clause_range(b, n - 1)->Some_0));
    } else {
        assert(clause_spans(b, name, arity, n) == prev);
    }
    if j < n - 1 {
        lemma_clause_place(b, name, arity, n - 1, j);
    }
}

/// An `-elint_expect` target `{function, Name, Arity}` resolves to exactly
/// the mainline clauses named `Name` with `Arity` arguments: an accepted
/// expectation with such a target is scoped to the ranges of those clauses
/// and of no other, at least one of them; with no such clause the
/// attribute is not accepted (it is an `unknown function` error).
pub proof fn law_function_target_resolves(ctx: Context, names: Seq<String>, r: int)
    ensures
        match attr_outcome(ctx, names, r) {
            Some(Ok((_, _, Some((fname, arity)), _, scopes))) => {
                &&& scopes.len() >= 1
                &&& forall|k: int| 0 <= k < scopes.len() ==> clause_at(
                    ctx.branches@[0],
                    clause_source(ctx.branches@[0], fname, arity, ctx.branches@[0].tree.nodes@.len() as int, k),
                    fname,
                    arity,
                    #[trigger] scopes[k],
                )
                &&& forall|j: int| #[trigger] is_target_clause(ctx.branches@[0], j, fname, arity) ==>
                    0 <= clause_place(ctx.branches@[0], fname, arity, ctx.branches@[0].tree.nodes@.len() as int, j) < scopes.len()
                    && clause_at(ctx.branches@[0], j, fname, arity, scopes[clause_place(ctx.branches@[0], fname, arity, ctx.branches@[0].tree.nodes@.len() as int, j)])
            },
            _ => true,
        },
{
    let b = ctx.branches@[0];
    match attr_outcome(ctx, names, r) {
        Some(Ok((rule, sp, Some((fname, arity)), reason, scopes))) => {
            assert(scopes == clause_spans(b, fname, arity, b.tree.nodes@.len() as int));
            lemma_scopes_resolve(b, fname, arity, scopes);
        },
        _ => {},
    }
}

/// The clause ranges of a target are the ranges of exactly its clauses.
proof fn lemma_scopes_resolve(b: BranchContext, fname: Seq<char>, arity: u64, scopes: Seq<Span>)
    requires
        scopes == clause_spans(b, fname, arity, b.tree.nodes@.len() as int),
    ensures
        forall|k: int| 0 <= k < scopes.len() ==>
            clause_at(b, clause_source(b, fname, arity, b.tree.nodes@.len() as int, k), fname, arity, #[trigger] scopes[k]),
        forall|j: int| #[trigger] is_target_clause(b, j, fname, arity) ==>
            0 <= clause_place(b, fname, arity, b.tree.nodes@.len() as int, j) < scopes.len()
            && clause_at(b, j, fname, arity, scopes[clause_place(b, fname, arity, b.tree.nodes@.len() as int, j)]),
{
    let n = b.tree.nodes@.len() as int;
    assert forall|k: int| 0 <= k < scopes.len() implies
        clause_at(b, clause_source(b, fname, arity, n, k), fname, arity, #[trigger] scopes[k]) by {
        lemma_clause_source(b, fname, arity, n, k);
    }
    assert forall|j: int| #[trigger] is_target_clause(b, j, fname, arity) implies
        0 <= clause_place(b, fname, arity, n, j) < scopes.len()
        && clause_at(b, j, fname, arity, scopes[clause_place(b, fname, arity, n, j)]) by {
        lemma_clause_place(b, fname, arity, n, j);
    }
}

/// The expectations of the mainline roots from position `k` on, or the
/// first error.
pub open spec fn collect(ctx: Context, names: Seq<String>, roots: Seq<int>, k: int) -> Result<Seq<(Seq<char>, Span, Option<(Seq<char>, u64)>, Seq<char>, Seq<Span>)>, (Span, Seq<char>)>
    decreases roots.len() - k,
{
    if k < 0 || k >= roots.len() {
        Ok(Seq::empty())
    } else {
        match attr_outcome(ctx, names, roots[k]) {
            None => collect(ctx, names, roots, k + 1),
            Some(Err(e)) => Err(e),
            Some(Ok(v)) => match collect(ctx, names, roots, k + 1) {
                Ok(rest) => Ok(seq![v] + rest),
                Err(e) => Err(e),
            },
        }
    }
}

/// What reading a file's expectations gives.
pub open spec fn spec_expect(ctx: Context, names: Seq<String>) -> Result<Seq<(Seq<char>, Span, Option<(Seq<char>, u64)>, Seq<char>, Seq<Span>)>, (Span, Seq<char>)> {
    collect(ctx, names, roots_of(ctx.branches@[0].tree.nodes@), 0)
}

/// Every expectation from position `k` on names a registered rule that
/// the run selects.
proof fn lemma_collect_wanted(ctx: Context, names: Seq<String>, roots: Seq<int>, k: int)
    ensures
        collect(ctx, names, roots, k) matches Ok(vs) ==> forall|j: int| 0 <= j < vs.len() ==> wanted((#[trigger] vs[j]).0, names) && is_rule_name(vs[j].0),
    decreases roots.len() - k,
{
    if !(k < 0 || k >= roots.len()) {
        lemma_collect_wanted(ctx, names, roots, k + 1);
        match attr_outcome(ctx, names, roots[k]) {
            Some(Ok(v)) => {
                match collect(ctx, names, roots, k + 1) {
                    Ok(rest) => {
                        let vs = seq![v] + rest;
                        assert forall|j: int| 0 <= j < vs.len() implies wanted((#[trigger] vs[j]).0, names) && is_rule_name(vs[j].0) by {
                            if j > 0 {
                                assert(vs[j] == rest[j - 1]);
                            }
                        }
                    },
                    Err(_) => {},
                }
            },
            _ => {},
        }
    }
}

/// When `--lint` names rules, only expectations for those rules are
/// registered; and every registered expectation names a registered rule.
pub proof fn law_expectations_are_selected(ctx: Context, names: Seq<String>)
    ensures
        spec_expect(ctx, names) matches Ok(vs) ==> forall|j: int| 0 <= j < vs.len() ==> wanted((#[trigger] vs[j]).0, names) && is_rule_name(vs[j].0),
{
    lemma_collect_wanted(ctx, names, roots_of(ctx.branches@[0].tree.nodes@), 0);
}

/// Whether mainline root `r` is an `-elint_expect` attribute in error.
pub open spec fn in_error(ctx: Context, names: Seq<String>, r: int) -> bool {
    attr_outcome(ctx, names, r) matches Some(Err(_))
}

/// From position `k` on, collecting fails exactly at the first root in
/// error, with its error.
proof fn lemma_collect_error(ctx: Context, names: Seq<String>, roots: Seq<int>, k: int)
    requires
        0 <= k <= roots.len(),
    ensures
        collect(ctx, names, roots, k) is Err <==> exists|j: int| k <= j < roots.len() && #[trigger] in_error(ctx, names, roots[j]),
        collect(ctx, names, roots, k) matches Err(e) ==> exists|j: int| k <= j < roots.len()
            && attr_outcome(ctx, names, roots[j]) == Some(Err::<(Seq<char>, Span, Option<(Seq<char>, u64)>, Seq<char>, Seq<Span>), (Span, Seq<char>)>(e))
            && forall|m: int| k <= m < j ==> !#[trigger] in_error(ctx, names, roots[m]),
    decreases roots.len() - k,
{
    if k < roots.len() {
        lemma_collect_error(ctx, names, roots, k + 1);
        if in_error(ctx, names, roots[k]) {
            assert(exists|j: int| k <= j < roots.len() && #[trigger] in_error(ctx, names, roots[j]));
        } else {
            if exists|j: int| k <= j < roots.len() && #[trigger] in_error(ctx, names, roots[j]) {
                let j = choose|j: int| k <= j < roots.len() && #[trigger] in_error(ctx, names, roots[j]);
                assert(j != k);
                assert(k + 1 <= j);
            }
            match collect(ctx, names, roots, k + 1) {
                Err(e) => {
                    let j = choose|j: int| k + 1 <= j < roots.len()
                        && attr_outcome(ctx, names, roots[j]) == Some(Err::<(Seq<char>, Span, Option<(Seq<char>, u64)>, Seq<char>, Seq<Span>), (Span, Seq<char>)>(e))
                        && forall|m: int| k + 1 <= m < j ==> !#[trigger] in_error(ctx, names, roots[m]);
                    assert(forall|m: int| k <= m < j ==> !#[trigger] in_error(ctx, names, roots[m]));
                },
                Ok(_) => {},
            }
        }
    }
}

/// Reading a file's expectations fails exactly when one of its mainline
/// `-elint_expect` attributes is in error, and then with the error of the
/// first of them.
pub proof fn law_expectation_error_is_first_bad_attribute(ctx: Context, names: Seq<String>)
    ensures
        spec_expect(ctx, names) is Err <==> exists|j: int| 0 <= j < roots_of(ctx.branches@[0].tree.nodes@).len()
            && #[trigger] in_error(ctx, names, roots_of(ctx.branches@[0].tree.nodes@)[j]),
        spec_expect(ctx, names) matches Err(e) ==> exists|j: int| 0 <= j < roots_of(ctx.branches@[0].tree.nodes@).len()
            && attr_outcome(ctx, names, roots_of(ctx.branches@[0].tree.nodes@)[j])
                == Some(Err::<(Seq<char>, Span, Option<(Seq<char>, u64)>, Seq<char>, Seq<Span>), (Span, Seq<char>)>(e))
            && forall|m: int| 0 <= m < j ==> !#[trigger] in_error(ctx, names, roots_of(ctx.branches@[0].tree.nodes@)[m]),
{
    lemma_collect_error(ctx, names, roots_of(ctx.branches@[0].tree.nodes@), 0);
}

/// Expectations from position `k` on are read from the mainline branch
/// and the text alone.
proof fn lemma_collect_mainline(c1: Context, c2: Context, names: Seq<String>, roots: Seq<int>, k: int)
    requires
        c1.text@ == c2.text@,
        c1.branches@.len() >= 1 && c2.branches@.len() >= 1,
        c1.branches@[0] == c2.branches@[0],
    ensures
        collect(c1, names, roots, k) == collect(c2, names, roots, k),
    decreases roots.len() - k,
{
    if !(k < 0 || k >= roots.len()) {
        lemma_collect_mainline(c1, c2, names, roots, k + 1);
        assert(attr_outcome(c1, names, roots[k]) == attr_outcome(c2, names, roots[k]));
    }
}

/// Expectations are read from the mainline branch only: two analyses of
/// the same text with the same mainline read the same expectations,
/// whatever their other branches hold.
pub proof fn law_expectations_read_from_mainline(c1: Context, c2: Context, names: Seq<String>)
    requires
        c1.text@ == c2.text@,
        c1.branches@.len() >= 1 && c2.branches@.len() >= 1,
        c1.branches@[0] == c2.branches@[0],
    ensures
        spec_expect(c1, names) == spec_expect(c2, names),
{
    lemma_collect_mainline(c1, c2, names, roots_of(c1.branches@[0].tree.nodes@), 0);
}

/// The registered rule named `name`, as the `'static` name.
fn registered_name(name: &str) -> (r: Option<&'static str>)
    ensures
        r is Some <==> is_rule_name(name@),
        r matches Some(n) ==> n@ == name@,
{
    let rs = crate::rules::rules();
    let mut k: usize = 0;
    while k < rs.len()
        invariant
            k <= rs@.len(),
            rs@.len() == 6,
            rs@[0].name@ == "attr_order"@,
            rs@[1].name@ == "case_over_if"@,
            rs@[2].name@ == "deep_case_nesting"@,
            rs@[3].name@ == "element_bif"@,
            rs@[4].name@ == "newline_after_arrow"@,
            rs@[5].name@ == "strict_generator"@,
            forall|j: int| 0 <= j < k ==> rs@[j].name@ != name@,
        decreases rs@.len() - k,
    {
        if str_eq(rs[k].name, name) {
            return Some(rs[k].name);
        }
        k += 1;
    }
    None
}

/// Whether `rule` is linted under the filter `names`; see [`wanted`].
fn is_wanted(rule: &str, names: &[String]) -> (b: bool)
    ensures
        b == wanted(rule@, names@),
{
    if names.len() == 0 {
        return true;
    }
    let mut k: usize = 0;
    while k < names.len()
        invariant
            k <= names@.len(),
            forall|j: int| 0 <= j < k ==> names@[j]@ != rule@,
        decreases names@.len() - k,
    {
        if str_eq(names[k].as_str(), rule) {
            return true;
        }
        k += 1;
    }
    false
}

/// The clause spans of `name/arity`; see [`clause_spans`].
fn function_spans(branch: &BranchContext, name: &str, arity: u64) -> (sp: Vec<Span>)
    requires
        branch.wf(),
    ensures
        sp@ == clause_spans(*branch, name@, arity, branch.tree.nodes@.len() as int),
{
    let nodes = &branch.tree.nodes;
    let mut out: Vec<Span> = Vec::new();
    let mut j: usize = 0;
    while j < nodes.len()
        invariant
            branch.wf(),
            nodes == &branch.tree.nodes,
            j <= nodes@.len(),
            out@ == clause_spans(*branch, name@, arity, j as int),
        decreases nodes@.len() - j,
    {
        let n = nodes[j];
        let ghost before = out@;
        if n.kind == SyntaxKind::FunctionClause {
            if let Some(cn) = clause_name(branch, j) {
                if str_eq(cn.as_str(), name) {
                    if let Some(a) = clause_arity(branch, j) {
                        if a == arity {
                            if let Some(s) = branch.span_of_range(TokenRange { start: n.start, end: n.end }) {
                                out.push(s);
                            }
                        }
                    }
                }
            }
        }
        j += 1;
        assert(out@ =~= clause_spans(*branch, name@, arity, j as int));
    }
    out
}

/// Strips the parentheses around an attribute payload text, if it has them.
fn strip_parens(t: &str) -> (r: Option<String>)
    ensures
        r is Some <==> (t@.len() >= 2 && t@[0] == '(' && t@.last() == ')'),
        r matches Some(inner) ==> inner@ == t@.subrange(1, t@.len() - 1),
{
    let v = crate::text::chars_of(t);
    if v.len() < 2 || v[0] != '(' || v[v.len() - 1] != ')' {
        return None;
    }
    let mut inner = String::new();
    crate::text::push_chars(&mut inner, &v, 1, v.len() - 1);
    Some(inner)
}

/// What mainline root `r` contributes; see [`attr_outcome`].
fn outcome(ctx: &Context, names: &[String], r: usize) -> (o: Option<Result<ExpectRule, Error>>)
    requires
        ctx.branches@.len() >= 1,
        ctx.branch_ok(ctx.branches@[0]),
        r < ctx.branches@[0].tree.nodes@.len(),
    ensures
        match (o, attr_outcome(*ctx, names@, r as int)) {
            (None, None) => true,
            (Some(Ok(x)), Some(Ok(v))) => rule_view(x) == v && !x.matched,
            (Some(Err(e)), Some(Err((sp, msg)))) => e.span == sp && e.reason@ == msg,
            _ => false,
        },
{
    let branch = &ctx.branches[0];
    let nodes = &branch.tree.nodes;
    let ghost n_tokens = branch.source_tokens@.len();
    let n = nodes[r];
    if n.kind != SyntaxKind::Attribute {
        return None;
    }
    let cs = branch.tree.children(r, Ghost(n_tokens));
    proof {
        crate::syntax::lemma_node(nodes@, n_tokens, r as int);
    }
    if cs.len() == 0 {
        assert(cs@.map_values(|c: usize| c as int).len() == 0);
        return None;
    }
    assert(cs@.map_values(|c: usize| c as int)[0] == cs@[0] as int);
    if nodes[cs[0]].kind != SyntaxKind::AttributeName || !crate::rules::element_bif::atom_in(branch, cs[0], "elint_expect") {
        return None;
    }
    let attr_span = match branch.span_of_range(TokenRange { start: n.start, end: n.end }) {
        Some(s) => s,
        None => return None,
    };
    if cs.len() < 2 {
        return Some(Err(Error::new(attr_span, String::from_str("missing -elint_expect payload"))));
    }
    assert(cs@.map_values(|c: usize| c as int)[1] == cs@[1] as int);
    let p = nodes[cs[1]];
    proof {
        crate::syntax::lemma_node(nodes@, n_tokens, cs@[1] as int);
    }
    let ps = match branch.span_of_range(TokenRange { start: p.start, end: p.end }) {
        Some(s) => s,
        None => return Some(Err(Error::new(attr_span, String::from_str("missing -elint_expect payload")))),
    };
    proof {
        let bytes = vstd::utf8::encode_utf8(ctx.text@);
        if p.end > p.start {
            crate::context::lemma_hull_fits(branch.source_tokens@, p.start as int, p.end as int, bytes);
        } else if p.start > 0 {
            assert(crate::context::opt_fits(crate::context::tok_span(branch.source_tokens@, p.start - 1), bytes));
        }
    }
    let t = ps.text(ctx.text.as_str());
    proof {
        vstd::utf8::encode_utf8_decode_utf8(t@);
    }
    let inner = match strip_parens(t) {
        Some(i) => i,
        None => return Some(Err(Error::new(attr_span, String::from_str("invalid -elint_expect payload (expected (Rule, {function, Name, Arity} | module, Reason))")))),
    };
    let parsed = match parse_expect_payload(inner.as_str()) {
        Ok(parsed) => parsed,
        Err(PayloadError::Invalid) => return Some(Err(Error::new(attr_span, String::from_str("invalid -elint_expect payload (expected {Rule, {function, Name, Arity} | module, Reason})")))),
        Err(PayloadError::Malformed { rule }) => {
            if !is_wanted(rule.as_str(), names) {
                return None;
            }
            return Some(Err(Error::new(attr_span, String::from_str("invalid -elint_expect payload (expected {Rule, {function, Name, Arity} | module, Reason})"))));
        },
        Err(PayloadError::MissingReason { rule }) => {
            if !is_wanted(rule.as_str(), names) {
                return None;
            }
            return Some(Err(Error::new(attr_span, String::from_str("missing reason in -elint_expect"))));
        },
    };
    if !is_wanted(parsed.rule.as_str(), names) {
        return None;
    }
    let name = match registered_name(parsed.rule.as_str()) {
        Some(n) => n,
        None => {
            let mut m = String::from_str("unknown rule: ");
            m.append(parsed.rule.as_str());
            return Some(Err(Error::new(attr_span, m)));
        },
    };
    let scope_spans = match &parsed.target {
        ExpectTarget::Function(fname, arity) => {
            let sp = function_spans(branch, fname.as_str(), *arity);
            if sp.len() == 0 {
                let mut m = String::from_str("unknown function: ");
                m.append(fname.as_str());
                m.append("/");
                push_decimal(&mut m, *arity);
                return Some(Err(Error::new(attr_span, m)));
            }
            sp
        },
        ExpectTarget::Module => {
            let mut sp = Vec::new();
            sp.push(Span::new(0, ctx.text.as_str().as_bytes().len()));
            sp
        },
    };
    Some(Ok(ExpectRule { name, span: attr_span, target: parsed.target, reason: parsed.reason, scope_spans, matched: false }))
}

/// `Ok(prefix + rest)` for `Ok(rest)`, the error otherwise.
pub open spec fn prepend<T, E>(prefix: Seq<T>, r: Result<Seq<T>, E>) -> Result<Seq<T>, E> {
    match r {
        Ok(rest) => Ok(prefix + rest),
        Err(e) => Err(e),
    }
}

/// Whether expectation `r` scopes `span` for `lint_name`.
pub open spec fn hits(r: ExpectRule, lint_name: Seq<char>, span: Span) -> bool {
    r.name@ == lint_name && exists|k: int| 0 <= k < r.scope_spans@.len() && #[trigger] r.scope_spans@[k].start <= span.start
        && span.end <= r.scope_spans@[k].end
}

/// `after` is `before` with the expectations that a finding of rule
/// `lint_name` at `span` hits marked matched, and nothing else changed.
pub open spec fn marks(before: Seq<ExpectRule>, after: Seq<ExpectRule>, lint_name: Seq<char>, span: Span) -> bool {
    &&& after.len() == before.len()
    &&& forall|k: int| 0 <= k < before.len() ==> rule_view(#[trigger] after[k]) == rule_view(before[k])
        && after[k].matched == (before[k].matched || hits(before[k], lint_name, span))
}

/// Handling a run's findings one after another marks exactly the
/// expectations that one of them hits: after the findings `lints[i]` at
/// `spans[i]`, an expectation is matched when it was before or some finding
/// of its rule lies in one of its scope spans, and it is otherwise
/// unchanged. So an expectation is reported unmet exactly when no finding
/// of the run hit it.
pub proof fn law_matched_by_findings(states: Seq<Seq<ExpectRule>>, lints: Seq<Seq<char>>, spans: Seq<Span>)
    requires
        states.len() == lints.len() + 1,
        spans.len() == lints.len(),
        forall|i: int| 0 <= i < lints.len() ==> marks(#[trigger] states[i], states[i + 1], lints[i], spans[i]),
    ensures
        states.last().len() == states[0].len(),
        forall|k: int| 0 <= k < states[0].len() ==> rule_view(#[trigger] states.last()[k]) == rule_view(states[0][k])
            && states.last()[k].matched == (states[0][k].matched
                || exists|i: int| 0 <= i < lints.len() && #[trigger] hits(states[0][k], lints[i], spans[i])),
    decreases lints.len(),
{
    let n = lints.len();
    if n > 0 {
        let s2 = states.drop_last();
        let l2 = lints.drop_last();
        let p2 = spans.drop_last();
        assert forall|i: int| 0 <= i < l2.len() implies marks(#[trigger] s2[i], s2[i + 1], l2[i], p2[i]) by {
            assert(marks(states[i], states[i + 1], lints[i], spans[i]));
        }
        law_matched_by_findings(s2, l2, p2);
        assert(s2.last() == states[n - 1]);
        assert(marks(states[n - 1], states[n as int], lints[n - 1], spans[n - 1]));
        assert forall|k: int| 0 <= k < states[0].len() implies rule_view(#[trigger] states.last()[k]) == rule_view(states[0][k])
            && states.last()[k].matched == (states[0][k].matched
                || exists|i: int| 0 <= i < lints.len() && #[trigger] hits(states[0][k], lints[i], spans[i])) by {
            let r0 = states[0][k];
            let rm = states[n - 1][k];
            assert(hits(rm, lints[n - 1], spans[n - 1]) == hits(r0, lints[n - 1], spans[n - 1]));
            if exists|i: int| 0 <= i < lints.len() && #[trigger] hits(r0, lints[i], spans[i]) {
                let i = choose|i: int| 0 <= i < lints.len() && #[trigger] hits(r0, lints[i], spans[i]);
                if i < n - 1 {
                    assert(hits(r0, l2[i], p2[i]));
                }
            }
            if exists|i: int| 0 <= i < l2.len() && #[trigger] hits(r0, l2[i], p2[i]) {
                let i = choose|i: int| 0 <= i < l2.len() && #[trigger] hits(r0, l2[i], p2[i]);
                assert(hits(r0, lints[i], spans[i]));
            }
        }
    }
}

impl ExpectRules {
    /// Reads `-elint_expect(Rule, {function, Name, Arity} | module, Reason)`
    /// forms from the mainline tree and resolves each target.
    ///
    /// When `target_lint_names` is non-empty, only expectations whose rule
    /// is listed are validated and registered; the others are ignored. A
    /// payload whose rule name cannot be read is still an error. Payload
    /// terms are atoms, integers, variables, strings, tuples, lists and
    /// binaries.
    pub fn new(ctx: &Context, target_lint_names: &[String]) -> (r: Result<ExpectRules, Error>)
        requires
            ctx.branches@.len() >= 1,
            ctx.branch_ok(ctx.branches@[0]),
        ensures
            r is Ok <==> spec_expect(*ctx, target_lint_names@) is Ok,
            r matches Ok(x) ==> x.rules@.map_values(|e: ExpectRule| rule_view(e)) == spec_expect(*ctx, target_lint_names@)->Ok_0
                && forall|k: int| 0 <= k < x.rules@.len() ==> !(#[trigger] x.rules@[k]).matched,
            r matches Err(e) ==> (e.span, e.reason@) == spec_expect(*ctx, target_lint_names@)->Err_0,
    {
        let branch = &ctx.branches[0];
        let roots = branch.tree.roots(Ghost(branch.source_tokens@.len()));
        let ghost rs = roots@.map_values(|c: usize| c as int);
        let mut rules: Vec<ExpectRule> = Vec::new();
        let mut k: usize = 0;
        while k < roots.len()
            invariant
                ctx.branches@.len() >= 1,
                ctx.branch_ok(ctx.branches@[0]),
                branch == &ctx.branches@[0],
                rs == roots@.map_values(|c: usize| c as int),
                rs == roots_of(ctx.branches@[0].tree.nodes@),
                forall|m: int| 0 <= m < roots@.len() ==> #[trigger] roots@[m] < branch.tree.nodes@.len(),
                k <= roots@.len(),
                spec_expect(*ctx, target_lint_names@) == prepend(rules@.map_values(|e: ExpectRule| rule_view(e)), collect(*ctx, target_lint_names@, rs, k as int)),
                forall|j: int| 0 <= j < rules@.len() ==> !(#[trigger] rules@[j]).matched,
            decreases roots@.len() - k,
        {
            assert(rs[k as int] == roots@[k as int] as int);
            match outcome(ctx, target_lint_names, roots[k]) {
                None => {},
                Some(Err(e)) => {
                    return Err(e);
                },
                Some(Ok(x)) => {
                    let ghost before = rules@;
                    proof {
                        let bv = before.map_values(|e: ExpectRule| rule_view(e));
                        let v = rule_view(x);
                        match collect(*ctx, target_lint_names@, rs, k + 1) {
                            Ok(rest) => {
                                assert((bv + seq![v]) + rest =~= bv + (seq![v] + rest));
                            },
                            Err(_) => {},
                        }
                    }
                    rules.push(x);
                    assert(rules@.map_values(|e: ExpectRule| rule_view(e)) =~= before.map_values(|e: ExpectRule| rule_view(e)) + seq![rule_view(x)]);
                },
            }
            k += 1;
        }
        assert(rules@.map_values(|e: ExpectRule| rule_view(e)) + Seq::empty() =~= rules@.map_values(|e: ExpectRule| rule_view(e)));
        Ok(ExpectRules { rules })
    }

    /// Marks matching expectations. Returns whether `span` was expected for
    /// `lint_name`: whether some expectation for that rule has a scope span
    /// containing it. Exactly those expectations become matched.
    pub fn handle_error(&mut self, lint_name: &str, span: Span) -> (expected: bool)
        ensures
            final(self).rules@.len() == old(self).rules@.len(),
            forall|k: int| 0 <= k < old(self).rules@.len() ==> {
                let o = #[trigger] old(self).rules@[k];
                let f = final(self).rules@[k];
                &&& rule_view(f) == rule_view(o)
                &&& f.matched == (o.matched || hits(o, lint_name@, span))
            },
            expected == exists|k: int| 0 <= k < old(self).rules@.len() && hits(#[trigger] old(self).rules@[k], lint_name@, span),
            marks(old(self).rules@, final(self).rules@, lint_name@, span),
    {
        let mut expected = false;
        let mut i: usize = 0;
        while i < self.rules.len()
            invariant
                i <= self.rules@.len(),
                self.rules@.len() == old(self).rules@.len(),
                forall|k: int| 0 <= k < old(self).rules@.len() ==> {
                    let o = #[trigger] old(self).rules@[k];
                    let f = self.rules@[k];
                    &&& rule_view(f) == rule_view(o)
                    &&& f.matched == if k < i { o.matched || hits(o, lint_name@, span) } else { o.matched }
                },
                expected == exists|k: int| 0 <= k < i && hits(#[trigger] old(self).rules@[k], lint_name@, span),
            decreases self.rules@.len() - i,
        {
            let mut hit = false;
            if str_eq(self.rules[i].name, lint_name) {
                let sp = &self.rules[i].scope_spans;
                let mut j: usize = 0;
                while j < sp.len() && !hit
                    invariant
                        j <= sp@.len(),
                        sp == &self.rules@[i as int].scope_spans,
                        hit ==> exists|m: int| 0 <= m < sp@.len() && #[trigger] sp@[m].start <= span.start && span.end <= sp@[m].end,
                        !hit ==> forall|m: int| 0 <= m < j ==> !(#[trigger] sp@[m].start <= span.start && span.end <= sp@[m].end),
                    decreases sp@.len() - j + (if hit { 0int } else { 1int }),
                {
                    if sp[j].contains(span) {
                        hit = true;
                    } else {
                        j += 1;
                    }
                }
            }
            assert(hit == hits(old(self).rules@[i as int], lint_name@, span));
            if hit {
                let mut rule = self.rules.remove(i);
                rule.matched = true;
                self.rules.insert(i, rule);
                expected = true;
            }
            i += 1;
        }
        expected
    }

    /// Expectations that never matched a finding, in order.
    pub fn unmatched_expectations(&self) -> (out: Vec<&ExpectRule>)
        ensures
            out@.map_values(|r: &ExpectRule| *r) == self.rules@.filter(|r: ExpectRule| !r.matched),
    {
        let mut out: Vec<&ExpectRule> = Vec::new();
        let mut i: usize = 0;
        while i < self.rules.len()
            invariant
                i <= self.rules@.len(),
                out@.map_values(|r: &ExpectRule| *r) == self.rules@.subrange(0, i as int).filter(|r: ExpectRule| !r.matched),
            decreases self.rules@.len() - i,
        {
            proof {
                let pre = self.rules@.subrange(0, i as int);
                let nxt = self.rules@.subrange(0, i + 1);
                assert(nxt.drop_last() =~= pre);
                assert(nxt.last() == self.rules@[i as int]);
                reveal(Seq::filter);
                assert(nxt.filter(|r: ExpectRule| !r.matched) == if !self.rules@[i as int].matched {
                    pre.filter(|r: ExpectRule| !r.matched).push(self.rules@[i as int])
                } else {
                    pre.filter(|r: ExpectRule| !r.matched)
                });
            }
            let ghost before = out@;
            if !self.rules[i].matched {
                out.push(&self.rules[i]);
                assert(out@.map_values(|r: &ExpectRule| *r) =~= before.map_values(|r: &ExpectRule| *r).push(self.rules@[i as int]));
            }
            i += 1;
        }
        assert(self.rules@.subrange(0, self.rules@.len() as int) =~= self.rules@);
        out
    }
}

} // verus!
