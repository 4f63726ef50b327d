//! Lint rules.
use crate::context::{range_span, spans_fit, BranchContext, Context};
use crate::span::{Finding, Span};
use crate::syntax::TokenRange;
use vstd::prelude::*;
use crate::text::{chars_of, push_chars};
use vstd::string::{StringExecFns, StringSliceAdditionalSpecFns};

pub mod attr_order;
pub mod case_over_if;
pub mod deep_case_nesting;
pub mod element_bif;
pub mod newline_after_arrow;
pub mod strict_generator;

verus! {

/// Which check a rule runs.
#[derive(Debug, Clone, Copy, PartialEq, Eq, Structural)]
pub enum RuleId {
    AttrOrder,
    CaseOverIf,
    DeepCaseNesting,
    ElementBif,
    NewlineAfterArrow,
    StrictGenerator,
}

/// One lint: a name, the markdown description, and the check it runs.
#[derive(Debug, Clone, Copy)]
pub struct Rule {
    /// Canonical name used in CLI output and `-elint_expect`.
    pub name: &'static str,
    /// Markdown text describing the rule.
    pub text: &'static str,
    /// The check the rule runs.
    pub id: RuleId,
}

/// Whether `c` is a Unicode `White_Space` character, as `char::is_whitespace`
/// decides.
pub open spec fn is_white(c: char) -> bool {
    ||| c == '\t' || c == '\n' || c == '\x0b' || c == '\x0c' || c == '\r' || c == ' '
    ||| c == '\u{85}' || c == '\u{a0}' || c == '\u{1680}'
    ||| ('\u{2000}' <= c && c <= '\u{200a}')
    ||| c == '\u{2028}' || c == '\u{2029}' || c == '\u{202f}' || c == '\u{205f}' || c == '\u{3000}'
}

/// Whether `s` holds only whitespace.
pub open spec fn is_blank(s: Seq<char>) -> bool {
    forall|i: int| 0 <= i < s.len() ==> is_white(#[trigger] s[i])
}

/// The line of `s` that starts at character `start`: up to the next `\n`,
/// without it and without one `\r` before it, as `str::lines` yields.
pub open spec fn line_end(s: Seq<char>, start: int) -> int
    decreases s.len() - start,
{
    if start < 0 || start >= s.len() {
        s.len() as int
    } else if s[start] == '\n' {
        start
    } else {
        line_end(s, start + 1)
    }
}

/// The text of the line starting at `start`, without its line ending.
pub open spec fn line_at(s: Seq<char>, start: int) -> Seq<char> {
    let e = line_end(s, start);
    let t = s.subrange(start, e);
    if t.len() > 0 && t.last() == '\r' { t.drop_last() } else { t }
}

/// The first non-blank line of `s` at or after character `start`, if any.
pub open spec fn first_nonblank_line(s: Seq<char>, start: int) -> Option<Seq<char>>
    decreases s.len() - start,
{
    if start < 0 || start >= s.len() {
        None
    } else if !is_blank(line_at(s, start)) {
        Some(line_at(s, start))
    } else if line_end(s, start) < start || line_end(s, start) >= s.len() {
        None
    } else {
        first_nonblank_line(s, line_end(s, start) + 1)
    }
}

/// The summary of a rule text: the first non-blank line after the title
/// line, or `name` when there is none.
pub open spec fn spec_summary(text: Seq<char>, name: Seq<char>) -> Seq<char> {
    match first_nonblank_line(text, line_end(text, 0) + 1) {
        Some(l) => l,
        None => name,
    }
}

impl Rule {
    /// Builds a [`Rule`].
    pub fn new(name: &'static str, text: &'static str, id: RuleId) -> (r: Rule)
        ensures
            r.name == name && r.text == text && r.id == id,
    {
        Rule { name, text, id }
    }

    /// One-line summary: the first non-blank line of [`Rule::text`] after
    /// the markdown title.
    pub fn summary(&self) -> (s: String)
        ensures
            s@ == spec_summary(self.text@, self.name@),
    {
        crate::rules::summary_of(self.text, self.name)
    }

    /// Returns the findings that violate the rule in one branch.
    pub fn check(&self, ctx: &Context, branch: &BranchContext) -> (fs: Vec<Finding>)
        requires
            ctx.branch_ok(*branch),
        ensures
            self.id == RuleId::CaseOverIf ==> fs@ == case_over_if::findings(*branch, branch.tree.nodes@.len() as int),
            self.id == RuleId::ElementBif ==> fs@ == element_bif::findings(*branch, branch.tree.nodes@.len() as int),
            self.id == RuleId::DeepCaseNesting ==> fs@ == deep_case_nesting::findings(*branch, branch.tree.nodes@.len() as int),
            self.id == RuleId::StrictGenerator ==> fs@ == strict_generator::findings(*branch, branch.tree.nodes@.len() as int),
            self.id == RuleId::NewlineAfterArrow ==> fs@ == newline_after_arrow::findings(*ctx, *branch, branch.tree.nodes@.len() as int),
            self.id == RuleId::AttrOrder ==> fs@ == attr_order::findings(*ctx, *branch),
    {
        match self.id {
            RuleId::AttrOrder => attr_order::check(ctx, branch),
            RuleId::CaseOverIf => case_over_if::check(ctx, branch),
            RuleId::DeepCaseNesting => deep_case_nesting::check(ctx, branch),
            RuleId::ElementBif => element_bif::check(ctx, branch),
            RuleId::NewlineAfterArrow => newline_after_arrow::check(ctx, branch),
            RuleId::StrictGenerator => strict_generator::check(ctx, branch),
        }
    }
}

/// The registered lint rules, in name order.
pub fn rules() -> (rs: Vec<Rule>)
    ensures
        rs@.len() == 6,
        rs@[0].name@ == "attr_order"@ && rs@[0].id == RuleId::AttrOrder && rs@[0].text@ == attr_order::TEXT@,
        rs@[1].name@ == "case_over_if"@ && rs@[1].id == RuleId::CaseOverIf && rs@[1].text@ == case_over_if::TEXT@,
        rs@[2].name@ == "deep_case_nesting"@ && rs@[2].id == RuleId::DeepCaseNesting && rs@[2].text@ == deep_case_nesting::TEXT@,
        rs@[3].name@ == "element_bif"@ && rs@[3].id == RuleId::ElementBif && rs@[3].text@ == element_bif::TEXT@,
        rs@[4].name@ == "newline_after_arrow"@ && rs@[4].id == RuleId::NewlineAfterArrow && rs@[4].text@ == newline_after_arrow::TEXT@,
        rs@[5].name@ == "strict_generator"@ && rs@[5].id == RuleId::StrictGenerator && rs@[5].text@ == strict_generator::TEXT@,
{
    let mut rs = Vec::new();
    rs.push(Rule::new("attr_order", attr_order::TEXT, RuleId::AttrOrder));
    rs.push(Rule::new("case_over_if", case_over_if::TEXT, RuleId::CaseOverIf));
    rs.push(Rule::new("deep_case_nesting", deep_case_nesting::TEXT, RuleId::DeepCaseNesting));
    rs.push(Rule::new("element_bif", element_bif::TEXT, RuleId::ElementBif));
    rs.push(Rule::new("newline_after_arrow", newline_after_arrow::TEXT, RuleId::NewlineAfterArrow));
    rs.push(Rule::new("strict_generator", strict_generator::TEXT, RuleId::StrictGenerator));
    rs
}

/// Returns the span of the single token at `index`.
pub fn token_span(branch: &BranchContext, index: usize) -> (r: Option<Span>)
    requires
        index < usize::MAX,
    ensures
        r == range_span(branch.source_tokens@, TokenRange { start: index, end: (index + 1) as usize }),
{
    branch.span_of_range(TokenRange::single(index))
}

/// Whether `c` is whitespace; see [`is_white`].
pub fn white(c: char) -> (b: bool)
    ensures
        b == is_white(c),
{
    c == '\t' || c == '\n' || c == '\x0b' || c == '\x0c' || c == '\r' || c == ' ' || c == '\u{85}'
        || c == '\u{a0}' || c == '\u{1680}' || ('\u{2000}' <= c && c <= '\u{200a}') || c == '\u{2028}'
        || c == '\u{2029}' || c == '\u{202f}' || c == '\u{205f}' || c == '\u{3000}'
}

/// The end of the line of `v` that starts at `start`; see [`line_end`].
fn line_end_of(v: &Vec<char>, start: usize) -> (e: usize)
    ensures
        e as int == line_end(v@, start as int),
        start <= v@.len() ==> start <= e <= v@.len(),
{
    let mut e = start;
    while e < v.len() && v[e] != '\n'
        invariant
            start <= e,
            line_end(v@, start as int) == line_end(v@, e as int),
            start <= v@.len() ==> e <= v@.len(),
        decreases v@.len() - e,
    {
        e += 1;
    }
    if e < v.len() { e } else { v.len() }
}

/// Whether `v[a..b]` is blank.
fn blank_range(v: &Vec<char>, a: usize, b: usize) -> (r: bool)
    requires
        a <= b <= v@.len(),
    ensures
        r == is_blank(v@.subrange(a as int, b as int)),
{
    let mut i = a;
    while i < b
        invariant
            a <= i <= b <= v@.len(),
            forall|j: int| a <= j < i ==> is_white(#[trigger] v@[j]),
        decreases b - i,
    {
        if !white(v[i]) {
            assert(!is_white(v@.subrange(a as int, b as int)[i - a]));
            return false;
        }
        i += 1;
    }
    assert forall|j: int| 0 <= j < b - a implies is_white(#[trigger] v@.subrange(a as int, b as int)[j]) by {
        assert(v@.subrange(a as int, b as int)[j] == v@[a + j]);
    }
    true
}

/// The summary of `text` (see [`spec_summary`]), falling back to `name`.
fn summary_of(text: &str, name: &str) -> (s: String)
    ensures
        s@ == spec_summary(text@, name@),
{
    let v = chars_of(text);
    let e0 = line_end_of(&v, 0);
    if e0 >= v.len() {
        return String::from_str(name);
    }
    let mut k = e0 + 1;
    assert(spec_summary(text@, name@) == match first_nonblank_line(v@, k as int) {
        Some(l) => l,
        None => name@,
    });
    while k < v.len()
        invariant
            v@ == text@,
            spec_summary(text@, name@) == match first_nonblank_line(v@, k as int) {
                Some(l) => l,
                None => name@,
            },
        decreases v@.len() - k,
    {
        let e = line_end_of(&v, k);
        let b = if e > k && v[e - 1] == '\r' { e - 1 } else { e };
        assert(line_at(v@, k as int) =~= v@.subrange(k as int, b as int));
        if !blank_range(&v, k, b) {
            let mut out = String::new();
            push_chars(&mut out, &v, k, b);
            assert(out@ =~= v@.subrange(k as int, b as int));
            return out;
        }
        if e >= v.len() {
            return String::from_str(name);
        }
        k = e + 1;
    }
    String::from_str(name)
}

} // verus!
