//! One lint run over an analyzed file: which rules run, which findings an
//! expectation absorbs, and the reports that remain, in the order they are
//! shown; and the explanations that `--explain` and `--list` print.
use crate::context::{range_span, spec_enclosing_name, BranchContext, Context, PreprocessDiagnostic};
use crate::expect::{rule_view, spec_expect, target_view, ExpectRules};
use crate::lex::LexError;
use crate::rules::{
    attr_order, case_over_if, deep_case_nesting, element_bif, newline_after_arrow, rules, spec_summary, strict_generator, Rule,
    RuleId,
};
use crate::span::{Finding, Span};
use crate::syntax::{Expected, ParseDiagnostic, ParseDiagnosticKind, TokenRange};
use crate::text::{decimal, str_eq};
use vstd::prelude::*;
use vstd::string::StringExecFns;

verus! {

/// An expectation as plain values; see [`rule_view`].
pub type ExpectView = (Seq<char>, Span, Option<(Seq<char>, u64)>, Seq<char>, Seq<Span>);

/// A report as plain values: code, message, range, enclosing function and
/// note.
pub type ReportView = (Option<Seq<char>>, Seq<char>, Span, Option<Seq<char>>, Option<Seq<char>>);

/// The matched flags of the expectations, the rules reported so far, and
/// the reports so far.
pub type LintState = (Seq<bool>, Seq<RuleId>, Seq<ReportView>);

/// One diagnostic to show: `error[code]: message` at `span`.
#[derive(Debug, Clone)]
pub struct Report {
    /// The rule that reported it, if a rule did.
    pub code: Option<&'static str>,
    /// What is wrong.
    pub message: String,
    /// Where, in the original file.
    pub span: Span,
    /// The function the finding lies in, as `name/arity`.
    pub enclosing: Option<String>,
    /// A follow-up line.
    pub note: Option<String>,
}

/// The plain value of an optional string.
pub open spec fn opt_view(o: Option<String>) -> Option<Seq<char>> {
    match o {
        Some(s) => Some(s@),
        None => None,
    }
}

/// A report as plain values.
pub open spec fn report_view(r: Report) -> ReportView {
    (match r.code {
        Some(c) => Some(c@),
        None => None,
    }, r.message@, r.span, opt_view(r.enclosing), opt_view(r.note))
}

/// The note that points at the explanation of `-elint_expect`.
pub open spec fn expect_note() -> Seq<char> {
    "run `elint --explain elint_expect_attr` for details"@
}

/// The note that points at the explanation of rule `name`.
pub open spec fn rule_note(name: Seq<char>) -> Seq<char> {
    "run `elint --explain "@ + name + "` for details"@
}

/// The name of a rule.
pub open spec fn rule_name(id: RuleId) -> Seq<char> {
    match id {
        RuleId::AttrOrder => "attr_order"@,
        RuleId::CaseOverIf => "case_over_if"@,
        RuleId::DeepCaseNesting => "deep_case_nesting"@,
        RuleId::ElementBif => "element_bif"@,
        RuleId::NewlineAfterArrow => "newline_after_arrow"@,
        RuleId::StrictGenerator => "strict_generator"@,
    }
}

/// The markdown text of a rule.
pub open spec fn rule_text(id: RuleId) -> Seq<char> {
    match id {
        RuleId::AttrOrder => attr_order::TEXT@,
        RuleId::CaseOverIf => case_over_if::TEXT@,
        RuleId::DeepCaseNesting => deep_case_nesting::TEXT@,
        RuleId::ElementBif => element_bif::TEXT@,
        RuleId::NewlineAfterArrow => newline_after_arrow::TEXT@,
        RuleId::StrictGenerator => strict_generator::TEXT@,
    }
}

/// The findings of a rule in one branch.
pub open spec fn rule_findings(ctx: Context, b: BranchContext, id: RuleId) -> Seq<Finding> {
    let n = b.tree.nodes@.len() as int;
    match id {
        RuleId::AttrOrder => attr_order::findings(ctx, b),
        RuleId::CaseOverIf => case_over_if::findings(b, n),
        RuleId::DeepCaseNesting => deep_case_nesting::findings(b, n),
        RuleId::ElementBif => element_bif::findings(b, n),
        RuleId::NewlineAfterArrow => newline_after_arrow::findings(ctx, b, n),
        RuleId::StrictGenerator => strict_generator::findings(b, n),
    }
}

/// The rules in the order they run: by name.
pub open spec fn rule_order() -> Seq<RuleId> {
    seq![
        RuleId::AttrOrder,
        RuleId::CaseOverIf,
        RuleId::DeepCaseNesting,
        RuleId::ElementBif,
        RuleId::NewlineAfterArrow,
        RuleId::StrictGenerator,
    ]
}

/// Whether rule `name` runs: every rule runs when no rule is named.
pub open spec fn selected(targets: Seq<String>, name: Seq<char>) -> bool {
    targets.len() == 0 || exists|j: int| 0 <= j < targets.len() && (#[trigger] targets[j])@ == name
}

/// The findings of the first `n` rules that run, each with its rule.
pub open spec fn checks_upto(targets: Seq<String>, ctx: Context, b: BranchContext, n: int) -> Seq<(RuleId, Finding)>
    decreases n,
{
    if n <= 0 {
        Seq::empty()
    } else {
        let id = rule_order()[n - 1];
        let part = if selected(targets, rule_name(id)) {
            rule_findings(ctx, b, id).map_values(|f: Finding| (id, f))
        } else {
            Seq::empty()
        };
        checks_upto(targets, ctx, b, n - 1) + part
    }
}

/// The findings of every rule that runs on branch `b`, each with its rule.
pub open spec fn spec_checks(targets: Seq<String>, ctx: Context, b: BranchContext) -> Seq<(RuleId, Finding)> {
    checks_upto(targets, ctx, b, 6)
}

/// Whether `name` is among `targets`, or `targets` is empty.
fn is_selected(targets: &[String], name: &str) -> (b: bool)
    ensures
        b == selected(targets@, name@),
{
    if targets.len() == 0 {
        return true;
    }
    let mut j: usize = 0;
    while j < targets.len()
        invariant
            j <= targets@.len(),
            targets@.len() > 0,
            forall|m: int| 0 <= m < j ==> (#[trigger] targets@[m])@ != name@,
        decreases targets@.len() - j,
    {
        if str_eq(targets[j].as_str(), name) {
            return true;
        }
        j += 1;
    }
    false
}

/// Runs every rule that `targets` selects (all of them when it is empty)
/// on `branch`, in name order; gives each finding with its rule.
pub fn check(targets: &[String], ctx: &Context, branch: &BranchContext) -> (out: Vec<(Rule, Finding)>)
    requires
        ctx.branch_ok(*branch),
    ensures
        out@.map_values(|p: (Rule, Finding)| (p.0.id, p.1)) == spec_checks(targets@, *ctx, *branch),
        forall|k: int| 0 <= k < out@.len() ==> (#[trigger] out@[k]).0.name@ == rule_name(out@[k].0.id)
            && out@[k].0.text@ == rule_text(out@[k].0.id),
{
    let rs = rules();
    let mut out: Vec<(Rule, Finding)> = Vec::new();
    let mut k: usize = 0;
    while k < rs.len()
        invariant
            ctx.branch_ok(*branch),
            rs@.len() == 6,
            forall|m: int| 0 <= m < 6 ==> (#[trigger] rs@[m]).id == rule_order()[m] && rs@[m].name@ == rule_name(rs@[m].id)
                && rs@[m].text@ == rule_text(rs@[m].id),
            k <= 6,
            out@.map_values(|p: (Rule, Finding)| (p.0.id, p.1)) == checks_upto(targets@, *ctx, *branch, k as int),
            forall|m: int| 0 <= m < out@.len() ==> (#[trigger] out@[m]).0.name@ == rule_name(out@[m].0.id)
                && out@[m].0.text@ == rule_text(out@[m].0.id),
        decreases 6 - k,
    {
        let rule = rs[k];
        if is_selected(targets, rule.name) {
            let fs = rule.check(ctx, branch);
            assert(fs@ == rule_findings(*ctx, *branch, rule.id));
            let ghost before = out@;
            let mut j: usize = 0;
            while j < fs.len()
                invariant
                    j <= fs@.len(),
                    out@.len() == before.len() + j,
                    forall|m: int| 0 <= m < before.len() ==> #[trigger] out@[m] == before[m],
                    forall|m: int| 0 <= m < j ==> #[trigger] out@[before.len() + m] == (rule, fs@[m]),
                    forall|m: int| 0 <= m < before.len() ==> (#[trigger] before[m]).0.name@ == rule_name(before[m].0.id)
                        && before[m].0.text@ == rule_text(before[m].0.id),
                    rule.name@ == rule_name(rule.id) && rule.text@ == rule_text(rule.id),
                    forall|m: int| 0 <= m < out@.len() ==> (#[trigger] out@[m]).0.name@ == rule_name(out@[m].0.id)
                        && out@[m].0.text@ == rule_text(out@[m].0.id),
                decreases fs@.len() - j,
            {
                out.push((rule, fs[j]));
                j += 1;
            }
            proof {
                let lhs = out@.map_values(|p: (Rule, Finding)| (p.0.id, p.1));
                let bm = before.map_values(|p: (Rule, Finding)| (p.0.id, p.1));
                let fm = rule_findings(*ctx, *branch, rule.id).map_values(|f: Finding| (rule.id, f));
                assert forall|m: int| 0 <= m < lhs.len() implies #[trigger] lhs[m] == (bm + fm)[m] by {
                    if m >= before.len() {
                        assert(out@[before.len() + (m - before.len())] == (rule, fs@[m - before.len()]));
                    }
                }
                assert(lhs =~= bm + fm);
            }
        } else {
            assert(out@.map_values(|p: (Rule, Finding)| (p.0.id, p.1)) =~= checks_upto(targets@, *ctx, *branch, k as int) + Seq::empty());
        }
        k += 1;
    }
    out
}

/// The words of a parse diagnostic's kind.
pub open spec fn kind_words(k: ParseDiagnosticKind) -> Seq<char> {
    match k {
        ParseDiagnosticKind::UnexpectedToken => "unexpected token"@,
        ParseDiagnosticKind::UnexpectedEof => "unexpected end of file"@,
        ParseDiagnosticKind::SkippedToken => "skipped token"@,
        ParseDiagnosticKind::MissingToken => "missing token"@,
        ParseDiagnosticKind::NestingDepthExceeded => "nesting depth exceeded"@,
    }
}

/// The message of a parse diagnostic: its kind, and what was expected.
pub open spec fn spec_parse_message(d: ParseDiagnostic) -> Seq<char> {
    match d.expected {
        Expected::Category(c) => kind_words(d.kind) + "; expected "@ + c@,
        Expected::TokenKind(t) => kind_words(d.kind) + "; expected "@ + t@,
        Expected::Unspecified => kind_words(d.kind),
    }
}

/// Human-readable message for one parse diagnostic.
pub fn parse_diagnostic_message(diagnostic: &ParseDiagnostic) -> (s: String)
    ensures
        s@ == spec_parse_message(*diagnostic),
{
    let kind = match diagnostic.kind {
        ParseDiagnosticKind::UnexpectedToken => "unexpected token",
        ParseDiagnosticKind::UnexpectedEof => "unexpected end of file",
        ParseDiagnosticKind::SkippedToken => "skipped token",
        ParseDiagnosticKind::MissingToken => "missing token",
        ParseDiagnosticKind::NestingDepthExceeded => "nesting depth exceeded",
    };
    proof {
        reveal_strlit("unexpected token");
        reveal_strlit("unexpected end of file");
        reveal_strlit("skipped token");
        reveal_strlit("missing token");
        reveal_strlit("nesting depth exceeded");
        reveal_strlit("; expected ");
    }
    let mut s = String::from_str(kind);
    match &diagnostic.expected {
        Expected::Category(c) => {
            s.append("; expected ");
            s.append(c.as_str());
        },
        Expected::TokenKind(t) => {
            s.append("; expected ");
            s.append(t.as_str());
        },
        Expected::Unspecified => {},
    }
    s
}

/// The report of a file that cannot be scanned: the scanner's message at
/// its offset.
pub fn scan_error_report(e: &LexError) -> (r: Report)
    ensures
        report_view(r) == (None::<Seq<char>>, e.message@, Span { start: e.offset, end: e.offset }, None::<Seq<char>>, None::<Seq<char>>),
{
    Report { code: None, message: e.message.clone(), span: Span::new(e.offset, e.offset), enclosing: None, note: None }
}

/// Whether `views[k]` scopes `span` for rule `name`.
pub open spec fn hits_view(v: ExpectView, name: Seq<char>, span: Span) -> bool {
    v.0 == name && exists|k: int| 0 <= k < v.4.len() && #[trigger] v.4[k].start <= span.start && span.end <= v.4[k].end
}

/// [`hits_view`] reads [`crate::expect::hits`] off the view.
pub proof fn lemma_hits_view(r: crate::expect::ExpectRule, name: Seq<char>, span: Span)
    ensures
        crate::expect::hits(r, name, span) == hits_view(rule_view(r), name, span),
{
    let v = rule_view(r);
    assert(v.4 == r.scope_spans@);
    if crate::expect::hits(r, name, span) {
        let j = choose|j: int| 0 <= j < r.scope_spans@.len() && #[trigger] r.scope_spans@[j].start <= span.start && span.end <= r.scope_spans@[j].end;
        assert(v.4[j].start <= span.start);
    }
    if hits_view(v, name, span) {
        let j = choose|j: int| 0 <= j < v.4.len() && #[trigger] v.4[j].start <= span.start && span.end <= v.4[j].end;
        assert(r.scope_spans@[j].start <= span.start);
    }
}

/// Whether some expectation scopes `span` for rule `name`.
pub open spec fn any_hit(views: Seq<ExpectView>, name: Seq<char>, span: Span) -> bool {
    exists|k: int| 0 <= k < views.len() && hits_view(#[trigger] views[k], name, span)
}

/// The matched flags after a finding of rule `name` at `span` is absorbed.
pub open spec fn mark(views: Seq<ExpectView>, m: Seq<bool>, name: Seq<char>, span: Span) -> Seq<bool> {
    Seq::new(m.len(), |k: int| m[k] || hits_view(views[k], name, span))
}

/// The function that a finding at node `node` lies in.
pub open spec fn enclosing_of(b: BranchContext, node: usize) -> Option<Seq<char>> {
    if node < b.tree.nodes@.len() {
        spec_enclosing_name(b, node as int)
    } else {
        None
    }
}

/// One finding: absorbed by the expectations that scope it, or reported,
/// with a note the first time its rule is reported.
pub open spec fn finding_step(views: Seq<ExpectView>, st: LintState, b: BranchContext, c: (RuleId, Finding)) -> LintState {
    let name = rule_name(c.0);
    if any_hit(views, name, c.1.span) {
        (mark(views, st.0, name, c.1.span), st.1, st.2)
    } else {
        let seen = st.1.contains(c.0);
        let note = if seen { None } else { Some(rule_note(name)) };
        let known = if seen { st.1 } else { st.1.push(c.0) };
        (st.0, known, st.2.push((Some(name), spec_summary(rule_text(c.0), name), c.1.span, enclosing_of(b, c.1.node), note)))
    }
}

/// The first `n` findings of `cs`, one after the other.
pub open spec fn fold_findings(views: Seq<ExpectView>, st: LintState, b: BranchContext, cs: Seq<(RuleId, Finding)>, n: int) -> LintState
    decreases n,
{
    if n <= 0 {
        st
    } else {
        finding_step(views, fold_findings(views, st, b, cs, n - 1), b, cs[n - 1])
    }
}

/// The report of a preprocessor diagnostic.
pub open spec fn preprocess_report(d: PreprocessDiagnostic) -> ReportView {
    (None, d.message@, d.span, None, None)
}

/// The range of a parse diagnostic in the original file, or the zero
/// range.
pub open spec fn diagnostic_span(b: BranchContext, d: ParseDiagnostic) -> Span {
    match range_span(b.source_tokens@, TokenRange { start: d.start, end: d.end }) {
        Some(s) => s,
        None => Span { start: 0, end: 0 },
    }
}

/// The report of a parse diagnostic.
pub open spec fn parse_report(b: BranchContext, d: ParseDiagnostic) -> ReportView {
    (None, spec_parse_message(d), diagnostic_span(b, d), None, None)
}

/// One branch: its preprocessor diagnostics, then its parse diagnostics
/// when it has any, or else the findings of the rules that run.
pub open spec fn branch_step(views: Seq<ExpectView>, st: LintState, ctx: Context, targets: Seq<String>, b: BranchContext) -> LintState {
    let out = st.2 + b.preprocess_diagnostics@.map_values(|d: PreprocessDiagnostic| preprocess_report(d));
    if b.tree.diagnostics@.len() > 0 {
        (st.0, st.1, out + b.tree.diagnostics@.map_values(|d: ParseDiagnostic| parse_report(b, d)))
    } else {
        let cs = spec_checks(targets, ctx, b);
        fold_findings(views, (st.0, st.1, out), b, cs, cs.len() as int)
    }
}

/// The first `n` branches, one after the other.
pub open spec fn fold_branches(views: Seq<ExpectView>, st: LintState, ctx: Context, targets: Seq<String>, n: int) -> LintState
    decreases n,
{
    if n <= 0 {
        st
    } else {
        branch_step(views, fold_branches(views, st, ctx, targets, n - 1), ctx, targets, ctx.branches@[n - 1])
    }
}

/// How an expectation's target reads.
pub open spec fn describe_view(t: Option<(Seq<char>, u64)>) -> Seq<char> {
    match t {
        Some((name, arity)) => name + "/"@ + decimal(arity as nat),
        None => "module"@,
    }
}

/// The report of an expectation that no finding matched.
pub open spec fn unmatched_report(v: ExpectView) -> ReportView {
    (None, "Lint Expectation Not Met: "@ + v.0 + " ("@ + describe_view(v.2) + "): "@ + v.3, v.1, None, Some(expect_note()))
}

/// The reports of the first `n` expectations that stayed unmatched.
pub open spec fn unmatched_reports(views: Seq<ExpectView>, m: Seq<bool>, n: int) -> Seq<ReportView>
    decreases n,
{
    if n <= 0 {
        Seq::empty()
    } else if m[n - 1] {
        unmatched_reports(views, m, n - 1)
    } else {
        unmatched_reports(views, m, n - 1).push(unmatched_report(views[n - 1]))
    }
}

/// What one lint run reports for a file, and the rules reported so far
/// after it: an error in the expectations is the one report; else every
/// branch in order, then the expectations that matched nothing.
pub open spec fn spec_lint(ctx: Context, targets: Seq<String>, known: Seq<RuleId>) -> (Seq<ReportView>, Seq<RuleId>) {
    match spec_expect(ctx, targets) {
        Err((span, reason)) => (seq![(None, reason, span, None, Some(expect_note()))], known),
        Ok(views) => {
            let st = fold_branches(views, (Seq::new(views.len(), |k: int| false), known, Seq::empty()), ctx, targets, ctx.branches@.len() as int);
            (st.2 + unmatched_reports(views, st.0, views.len() as int), st.1)
        },
    }
}

/// The matched flags of expectations.
pub open spec fn matched_of(rules: Seq<crate::expect::ExpectRule>) -> Seq<bool> {
    rules.map_values(|e: crate::expect::ExpectRule| e.matched)
}

/// The views of expectations.
pub open spec fn views_of(rules: Seq<crate::expect::ExpectRule>) -> Seq<ExpectView> {
    rules.map_values(|e: crate::expect::ExpectRule| rule_view(e))
}

/// The reports as plain values.
pub open spec fn reports_view(rs: Seq<Report>) -> Seq<ReportView> {
    rs.map_values(|r: Report| report_view(r))
}

/// The note that points at a rule's explanation.
fn rule_note_text(name: &str) -> (s: String)
    ensures
        s@ == rule_note(name@),
{
    let mut s = String::from_str("run `elint --explain ");
    s.append(name);
    s.append("` for details");
    proof {
        reveal_strlit("run `elint --explain ");
        reveal_strlit("` for details");
    }
    s
}

/// The note that points at the explanation of `-elint_expect`.
fn expect_note_text() -> (s: String)
    ensures
        s@ == expect_note(),
{
    proof {
        reveal_strlit("run `elint --explain elint_expect_attr` for details");
    }
    String::from_str("run `elint --explain elint_expect_attr` for details")
}

/// Whether `id` is among `known`.
fn known_contains(known: &Vec<RuleId>, id: RuleId) -> (b: bool)
    ensures
        b == known@.contains(id),
{
    let mut j: usize = 0;
    while j < known.len()
        invariant
            j <= known@.len(),
            forall|m: int| 0 <= m < j ==> known@[m] != id,
        decreases known@.len() - j,
    {
        if known[j] == id {
            return true;
        }
        j += 1;
    }
    false
}

/// Handles one finding; see [`finding_step`].
fn lint_finding(
    branch: &BranchContext,
    rule: Rule,
    f: Finding,
    expect: &mut ExpectRules,
    known: &mut Vec<RuleId>,
    out: &mut Vec<Report>,
)
    requires
        branch.wf(),
        rule.name@ == rule_name(rule.id),
        rule.text@ == rule_text(rule.id),
    ensures
        views_of(final(expect).rules@) == views_of(old(expect).rules@),
        (matched_of(final(expect).rules@), final(known)@, reports_view(final(out)@)) == finding_step(
            views_of(old(expect).rules@),
            (matched_of(old(expect).rules@), old(known)@, reports_view(old(out)@)),
            *branch,
            (rule.id, f),
        ),
{
    let ghost views = views_of(expect.rules@);
    let ghost m0 = matched_of(expect.rules@);
    let ghost r0 = expect.rules@;
    let hit = expect.handle_error(rule.name, f.span);
    proof {
        assert forall|k: int| 0 <= k < r0.len() implies #[trigger] crate::expect::hits(r0[k], rule.name@, f.span) == hits_view(views[k], rule.name@, f.span) by {
            assert(views[k] == rule_view(r0[k]));
            lemma_hits_view(r0[k], rule.name@, f.span);
        }
        assert(hit == any_hit(views, rule_name(rule.id), f.span)) by {
            if hit {
                let k = choose|k: int| 0 <= k < r0.len() && crate::expect::hits(#[trigger] r0[k], rule.name@, f.span);
                assert(hits_view(views[k], rule.name@, f.span));
            }
            if any_hit(views, rule_name(rule.id), f.span) {
                let k = choose|k: int| 0 <= k < views.len() && hits_view(#[trigger] views[k], rule_name(rule.id), f.span);
                assert(crate::expect::hits(r0[k], rule.name@, f.span));
            }
        }
        assert(views_of(expect.rules@) =~= views);
    }
    if hit {
        proof {
            assert(matched_of(expect.rules@) =~= mark(views, m0, rule.name@, f.span));
        }
        return;
    }
    proof {
        assert(matched_of(expect.rules@) =~= m0) by {
            assert forall|k: int| 0 <= k < r0.len() implies expect.rules@[k].matched == r0[k].matched by {
                assert(!crate::expect::hits(r0[k], rule.name@, f.span));
            }
        }
    }
    let seen = known_contains(known, rule.id);
    let note = if seen {
        None
    } else {
        Some(rule_note_text(rule.name))
    };
    let enclosing = if f.node < branch.tree.nodes.len() {
        branch.enclosing_function_name(f.node)
    } else {
        None
    };
    let ghost before = out@;
    out.push(Report { code: Some(rule.name), message: rule.summary(), span: f.span, enclosing, note });
    assert(reports_view(out@) =~= reports_view(before).push(report_view(out@[out@.len() - 1])));
    if !seen {
        known.push(rule.id);
    }
}

/// Handles one branch; see [`branch_step`].
fn lint_branch(
    ctx: &Context,
    targets: &[String],
    branch: &BranchContext,
    expect: &mut ExpectRules,
    known: &mut Vec<RuleId>,
    out: &mut Vec<Report>,
)
    requires
        ctx.branch_ok(*branch),
    ensures
        views_of(final(expect).rules@) == views_of(old(expect).rules@),
        (matched_of(final(expect).rules@), final(known)@, reports_view(final(out)@)) == branch_step(
            views_of(old(expect).rules@),
            (matched_of(old(expect).rules@), old(known)@, reports_view(old(out)@)),
            *ctx,
            targets@,
            *branch,
        ),
{
    let ghost views = views_of(expect.rules@);
    let ghost out0 = reports_view(out@);
    let ds = &branch.preprocess_diagnostics;
    let mut i: usize = 0;
    while i < ds.len()
        invariant
            i <= ds@.len(),
            reports_view(out@) == out0 + ds@.subrange(0, i as int).map_values(|d: PreprocessDiagnostic| preprocess_report(d)),
        decreases ds@.len() - i,
    {
        let ghost before = reports_view(out@);
        out.push(Report { code: None, message: ds[i].message.clone(), span: ds[i].span, enclosing: None, note: None });
        assert(ds@.subrange(0, i + 1).map_values(|d: PreprocessDiagnostic| preprocess_report(d)) =~= ds@.subrange(0, i as int).map_values(
            |d: PreprocessDiagnostic| preprocess_report(d),
        ).push(preprocess_report(ds@[i as int])));
        assert(reports_view(out@) =~= before.push(report_view(out@[out@.len() - 1])));
        i += 1;
    }
    assert(ds@.subrange(0, ds@.len() as int) =~= ds@);
    let ghost out1 = reports_view(out@);
    let pd = &branch.tree.diagnostics;
    if pd.len() > 0 {
        let mut i: usize = 0;
        while i < pd.len()
            invariant
                i <= pd@.len(),
                pd == &branch.tree.diagnostics,
                reports_view(out@) == out1 + pd@.subrange(0, i as int).map_values(|d: ParseDiagnostic| parse_report(*branch, d)),
            decreases pd@.len() - i,
        {
            let d = &pd[i];
            let span = match branch.span_of_range(TokenRange { start: d.start, end: d.end }) {
                Some(s) => s,
                None => Span::zero(),
            };
            let ghost before = reports_view(out@);
            out.push(Report { code: None, message: parse_diagnostic_message(d), span, enclosing: None, note: None });
            assert(pd@.subrange(0, i + 1).map_values(|d: ParseDiagnostic| parse_report(*branch, d)) =~= pd@.subrange(0, i as int).map_values(
                |d: ParseDiagnostic| parse_report(*branch, d),
            ).push(parse_report(*branch, pd@[i as int])));
            assert(reports_view(out@) =~= before.push(report_view(out@[out@.len() - 1])));
            i += 1;
        }
        assert(pd@.subrange(0, pd@.len() as int) =~= pd@);
        return;
    }
    let cs = check(targets, ctx, branch);
    let ghost csv = cs@.map_values(|p: (Rule, Finding)| (p.0.id, p.1));
    let ghost st1: LintState = (matched_of(expect.rules@), known@, out1);
    let mut k: usize = 0;
    while k < cs.len()
        invariant
            ctx.branch_ok(*branch),
            k <= cs@.len(),
            csv == cs@.map_values(|p: (Rule, Finding)| (p.0.id, p.1)),
            forall|m: int| 0 <= m < cs@.len() ==> (#[trigger] cs@[m]).0.name@ == rule_name(cs@[m].0.id)
                && cs@[m].0.text@ == rule_text(cs@[m].0.id),
            views_of(expect.rules@) == views,
            (matched_of(expect.rules@), known@, reports_view(out@)) == fold_findings(views, st1, *branch, csv, k as int),
        decreases cs@.len() - k,
    {
        let (rule, f) = cs[k];
        assert(csv[k as int] == (rule.id, f));
        lint_finding(branch, rule, f, expect, known, out);
        k += 1;
    }
}

/// Lints an analyzed file: the reports to show, in order, given the rules
/// that `known` says were reported before (a rule's first report carries
/// a note that points at its explanation). `known` gains the rules
/// reported now.
pub fn lint_reports(ctx: &Context, targets: &[String], known: &mut Vec<RuleId>) -> (out: Vec<Report>)
    requires
        old(known)@.no_duplicates(),
        ctx.branches@.len() >= 1,
        forall|i: int| 0 <= i < ctx.branches@.len() ==> ctx.branch_ok(#[trigger] ctx.branches@[i]),
    ensures
        reports_view(out@) == spec_lint(*ctx, targets@, old(known)@).0,
        final(known)@ == spec_lint(*ctx, targets@, old(known)@).1,
{
    let mut out: Vec<Report> = Vec::new();
    let mut expect = match ExpectRules::new(ctx, targets) {
        Ok(e) => e,
        Err(e) => {
            out.push(Report { code: None, message: e.reason, span: e.span, enclosing: None, note: Some(expect_note_text()) });
            assert(reports_view(out@) =~= seq![report_view(out@[0])]);
            return out;
        },
    };
    let ghost views = views_of(expect.rules@);
    proof {
        assert(views =~= spec_expect(*ctx, targets@)->Ok_0);
        assert(matched_of(expect.rules@) =~= Seq::new(views.len(), |k: int| false));
    }
    let ghost st0: LintState = (matched_of(expect.rules@), known@, Seq::empty());
    let mut i: usize = 0;
    while i < ctx.branches.len()
        invariant
            i <= ctx.branches@.len(),
            forall|j: int| 0 <= j < ctx.branches@.len() ==> ctx.branch_ok(#[trigger] ctx.branches@[j]),
            views_of(expect.rules@) == views,
            (matched_of(expect.rules@), known@, reports_view(out@)) == fold_branches(views, st0, *ctx, targets@, i as int),
        decreases ctx.branches@.len() - i,
    {
        lint_branch(ctx, targets, &ctx.branches[i], &mut expect, known, &mut out);
        i += 1;
    }
    let ghost out1 = reports_view(out@);
    let ghost m = matched_of(expect.rules@);
    let mut k: usize = 0;
    while k < expect.rules.len()
        invariant
            k <= expect.rules@.len(),
            views_of(expect.rules@) == views,
            matched_of(expect.rules@) == m,
            reports_view(out@) == out1 + unmatched_reports(views, m, k as int),
        decreases expect.rules@.len() - k,
    {
        let r = &expect.rules[k];
        if !r.matched {
            let mut message = String::from_str("Lint Expectation Not Met: ");
            message.append(r.name);
            message.append(" (");
            let d = r.target.describe();
            message.append(d.as_str());
            message.append("): ");
            message.append(r.reason.as_str());
            proof {
                reveal_strlit("Lint Expectation Not Met: ");
                reveal_strlit(" (");
                reveal_strlit("): ");
                assert(views[k as int] == rule_view(expect.rules@[k as int]));
            }
            let ghost before = reports_view(out@);
            out.push(Report { code: None, message, span: r.span, enclosing: None, note: Some(expect_note_text()) });
            assert(reports_view(out@) =~= before.push(report_view(out@[out@.len() - 1])));
        }
        k += 1;
    }
    out
}

/// The rule named `c`.
pub open spec fn id_of(c: Seq<char>) -> RuleId {
    if c == "attr_order"@ {
        RuleId::AttrOrder
    } else if c == "case_over_if"@ {
        RuleId::CaseOverIf
    } else if c == "deep_case_nesting"@ {
        RuleId::DeepCaseNesting
    } else if c == "element_bif"@ {
        RuleId::ElementBif
    } else if c == "newline_after_arrow"@ {
        RuleId::NewlineAfterArrow
    } else {
        RuleId::StrictGenerator
    }
}

/// A rule is found again from its name.
pub proof fn lemma_id_of(id: RuleId)
    ensures
        id_of(rule_name(id)) == id,
{
    reveal_strlit("attr_order");
    reveal_strlit("case_over_if");
    reveal_strlit("deep_case_nesting");
    reveal_strlit("element_bif");
    reveal_strlit("newline_after_arrow");
    reveal_strlit("strict_generator");
    assert("attr_order"@.len() == 10 && "case_over_if"@.len() == 12 && "deep_case_nesting"@.len() == 17);
    assert("element_bif"@.len() == 11 && "newline_after_arrow"@.len() == 19 && "strict_generator"@.len() == 16);
}

/// The reports `out` hold the rule-report facts, given the rules `known0`
/// reported before the run and the rules `known` reported by now: a report
/// with a code is a finding of the rule of that name, with its summary and
/// at most the note that points at its explanation, and that rule is
/// known; only the first report of a rule, and only of a rule not reported
/// before, carries the note.
pub open spec fn rule_reports_ok(out: Seq<ReportView>, known: Seq<RuleId>, known0: Seq<RuleId>) -> bool {
    &&& forall|i: int| 0 <= i < out.len() && (#[trigger] out[i]).0 is Some ==> {
        let c = out[i].0->Some_0;
        &&& known.contains(id_of(c))
        &&& c == rule_name(id_of(c))
        &&& out[i].1 == spec_summary(rule_text(id_of(c)), c)
        &&& (out[i].4 is None || out[i].4 == Some(rule_note(c)))
        &&& (known0.contains(id_of(c)) ==> out[i].4 is None)
    }
    &&& forall|i: int, j: int| 0 <= i < j < out.len() && (#[trigger] out[i]).0 is Some && out[i].0 == (#[trigger] out[j]).0 ==> out[j].4 is None
    &&& forall|id: RuleId| known0.contains(id) ==> known.contains(id)
}

/// Reports without a code keep the facts.
proof fn lemma_append_uncoded(out: Seq<ReportView>, extra: Seq<ReportView>, known: Seq<RuleId>, known0: Seq<RuleId>)
    requires
        rule_reports_ok(out, known, known0),
        forall|i: int| 0 <= i < extra.len() ==> (#[trigger] extra[i]).0 is None,
    ensures
        rule_reports_ok(out + extra, known, known0),
{
    let all = out + extra;
    assert forall|i: int| 0 <= i < all.len() && (#[trigger] all[i]).0 is Some implies all[i] == out[i] by {
        if i >= out.len() {
            assert(all[i] == extra[i - out.len()]);
        }
    }
    assert forall|i: int, j: int| 0 <= i < j < all.len() && (#[trigger] all[i]).0 is Some && all[i].0 == (#[trigger] all[j]).0 implies all[j].4 is None by {
        assert(all[i] == out[i]);
        if j >= out.len() {
            assert(all[j] == extra[j - out.len()]);
        } else {
            assert(all[j] == out[j]);
        }
    }
}

/// One finding keeps the facts.
proof fn lemma_finding_step(views: Seq<ExpectView>, st: LintState, b: BranchContext, c: (RuleId, Finding), known0: Seq<RuleId>)
    requires
        rule_reports_ok(st.2, st.1, known0),
    ensures
        rule_reports_ok(finding_step(views, st, b, c).2, finding_step(views, st, b, c).1, known0),
{
    let name = rule_name(c.0);
    lemma_id_of(c.0);
    if !any_hit(views, name, c.1.span) {
        let seen = st.1.contains(c.0);
        let r = finding_step(views, st, b, c);
        let out = r.2;
        let known = r.1;
        assert(out == st.2.push(out[st.2.len() as int]));
        assert forall|id: RuleId| st.1.contains(id) implies known.contains(id) by {
            if !seen {
                let k = choose|k: int| 0 <= k < st.1.len() && st.1[k] == id;
                assert(known[k] == id);
            }
        }
        assert(known.contains(c.0)) by {
            if !seen {
                assert(known[st.1.len() as int] == c.0);
            }
        }
        assert forall|i: int| 0 <= i < out.len() && (#[trigger] out[i]).0 is Some implies {
            let cc = out[i].0->Some_0;
            &&& known.contains(id_of(cc))
            &&& cc == rule_name(id_of(cc))
            &&& out[i].1 == spec_summary(rule_text(id_of(cc)), cc)
            &&& (out[i].4 is None || out[i].4 == Some(rule_note(cc)))
            &&& (known0.contains(id_of(cc)) ==> out[i].4 is None)
        } by {
            if i < st.2.len() {
                assert(out[i] == st.2[i]);
            }
        }
        assert forall|i: int, j: int| 0 <= i < j < out.len() && (#[trigger] out[i]).0 is Some && out[i].0 == (#[trigger] out[j]).0 implies out[j].4 is None by {
            assert(out[i] == st.2[i]);
            if j < st.2.len() {
                assert(out[j] == st.2[j]);
            }
        }
    }
}

/// Findings one after the other keep the facts.
proof fn lemma_fold_findings(views: Seq<ExpectView>, st: LintState, b: BranchContext, cs: Seq<(RuleId, Finding)>, n: int, known0: Seq<RuleId>)
    requires
        rule_reports_ok(st.2, st.1, known0),
        n <= cs.len(),
    ensures
        rule_reports_ok(fold_findings(views, st, b, cs, n).2, fold_findings(views, st, b, cs, n).1, known0),
    decreases n,
{
    if n > 0 {
        lemma_fold_findings(views, st, b, cs, n - 1, known0);
        lemma_finding_step(views, fold_findings(views, st, b, cs, n - 1), b, cs[n - 1], known0);
    }
}

/// Branches one after the other keep the facts.
proof fn lemma_fold_branches(views: Seq<ExpectView>, st: LintState, ctx: Context, targets: Seq<String>, n: int, known0: Seq<RuleId>)
    requires
        rule_reports_ok(st.2, st.1, known0),
        n <= ctx.branches@.len(),
    ensures
        rule_reports_ok(fold_branches(views, st, ctx, targets, n).2, fold_branches(views, st, ctx, targets, n).1, known0),
    decreases n,
{
    if n > 0 {
        lemma_fold_branches(views, st, ctx, targets, n - 1, known0);
        let s0 = fold_branches(views, st, ctx, targets, n - 1);
        let b = ctx.branches@[n - 1];
        let pre = b.preprocess_diagnostics@.map_values(|d: PreprocessDiagnostic| preprocess_report(d));
        lemma_append_uncoded(s0.2, pre, s0.1, known0);
        if b.tree.diagnostics@.len() > 0 {
            let pr = b.tree.diagnostics@.map_values(|d: ParseDiagnostic| parse_report(b, d));
            lemma_append_uncoded(s0.2 + pre, pr, s0.1, known0);
        } else {
            let cs = spec_checks(targets, ctx, b);
            lemma_fold_findings(views, (s0.0, s0.1, s0.2 + pre), b, cs, cs.len() as int, known0);
        }
    }
}

/// The reports of unmatched expectations carry no code.
proof fn lemma_unmatched_uncoded(views: Seq<ExpectView>, m: Seq<bool>, n: int)
    ensures
        forall|i: int| 0 <= i < unmatched_reports(views, m, n).len() ==> (#[trigger] unmatched_reports(views, m, n)[i]).0 is None,
    decreases n,
{
    if n > 0 {
        lemma_unmatched_uncoded(views, m, n - 1);
    }
}

/// Lint findings carry the name of their rule as their code, and every
/// other report carries none: a report with a code is a finding of a
/// registered rule, with that rule's summary as its message. The first
/// report of each rule in a run points at the rule's explanation, unless
/// the rule was reported before the run (`known`); no later report of the
/// rule does.
pub proof fn law_rule_reports(ctx: Context, targets: Seq<String>, known: Seq<RuleId>)
    requires
        ctx.branches@.len() >= 1,
    ensures
        forall|i: int| 0 <= i < spec_lint(ctx, targets, known).0.len() && (#[trigger] spec_lint(ctx, targets, known).0[i]).0 is Some ==> {
            let r = spec_lint(ctx, targets, known).0[i];
            let c = r.0->Some_0;
            &&& c == rule_name(id_of(c))
            &&& r.1 == spec_summary(rule_text(id_of(c)), c)
            &&& (r.4 is None || r.4 == Some(rule_note(c)))
            &&& (known.contains(id_of(c)) ==> r.4 is None)
        },
        forall|i: int, j: int| 0 <= i < j < spec_lint(ctx, targets, known).0.len()
            && (#[trigger] spec_lint(ctx, targets, known).0[i]).0 is Some
            && spec_lint(ctx, targets, known).0[i].0 == (#[trigger] spec_lint(ctx, targets, known).0[j]).0
            ==> spec_lint(ctx, targets, known).0[j].4 is None,
{
    match spec_expect(ctx, targets) {
        Err(_) => {},
        Ok(views) => {
            let st0: LintState = (Seq::new(views.len(), |k: int| false), known, Seq::empty());
            lemma_fold_branches(views, st0, ctx, targets, ctx.branches@.len() as int, known);
            let st = fold_branches(views, st0, ctx, targets, ctx.branches@.len() as int);
            lemma_unmatched_uncoded(views, st.0, views.len() as int);
            lemma_append_uncoded(st.2, unmatched_reports(views, st.0, views.len() as int), st.1, known);
        },
    }
}

/// A finding that lies in the scope of an expectation for its rule is
/// absorbed: it is not reported, and every expectation for the rule that
/// scopes it becomes matched. Any other finding is reported, and leaves
/// the expectations as they were.
pub proof fn law_expectation_absorbs_finding(views: Seq<ExpectView>, st: LintState, b: BranchContext, c: (RuleId, Finding))
    ensures
        any_hit(views, rule_name(c.0), c.1.span) ==> finding_step(views, st, b, c).2 == st.2
            && finding_step(views, st, b, c).0 == mark(views, st.0, rule_name(c.0), c.1.span),
        !any_hit(views, rule_name(c.0), c.1.span) ==> finding_step(views, st, b, c).2.len() == st.2.len() + 1
            && finding_step(views, st, b, c).2.last().2 == c.1.span
            && finding_step(views, st, b, c).0 == st.0,
{
}

/// A branch whose parse reported diagnostics runs no rule: it reports
/// its preprocessor and parse diagnostics, and leaves the expectations and
/// the reported rules as they were.
pub proof fn law_parse_error_skips_branch(views: Seq<ExpectView>, st: LintState, ctx: Context, targets: Seq<String>, b: BranchContext)
    requires
        b.tree.diagnostics@.len() > 0,
    ensures
        branch_step(views, st, ctx, targets, b) == (
            st.0,
            st.1,
            st.2 + b.preprocess_diagnostics@.map_values(|d: PreprocessDiagnostic| preprocess_report(d))
                + b.tree.diagnostics@.map_values(|d: ParseDiagnostic| parse_report(b, d)),
        ),
{
}

/// No shared explanation has the name of a lint rule, so `--explain`
/// reaches each of them.
pub proof fn law_explanation_names_distinct()
    ensures
        forall|k: int| 0 <= k < 6 ==> #[trigger] rule_names()[k] != "elint_expect_attr"@,
{
    reveal_strlit("attr_order");
    reveal_strlit("case_over_if");
    reveal_strlit("deep_case_nesting");
    reveal_strlit("element_bif");
    reveal_strlit("newline_after_arrow");
    reveal_strlit("strict_generator");
    reveal_strlit("elint_expect_attr");
    assert("elint_expect_attr"@[0] != "deep_case_nesting"@[0]);
    assert("element_bif"@.len() == 11);
}

/// `--explain` on the name of a registered rule gives that rule's own
/// description, the text [`crate::rules::rules`] registers it with.
pub proof fn law_explain_gives_the_rule_text(id: RuleId)
    ensures
        spec_find_explanation(rule_name(id)) == Some(rule_text(id)),
{
    reveal_strlit("attr_order");
    reveal_strlit("case_over_if");
    reveal_strlit("deep_case_nesting");
    reveal_strlit("element_bif");
    reveal_strlit("newline_after_arrow");
    reveal_strlit("strict_generator");
    assert("case_over_if"@[0] != "attr_order"@[0]);
    assert("deep_case_nesting"@[0] != "attr_order"@[0] && "deep_case_nesting"@[1] != "case_over_if"@[1]);
    assert("element_bif"@[0] != "attr_order"@[0] && "element_bif"@[0] != "case_over_if"@[0]
        && "element_bif"@[0] != "deep_case_nesting"@[0]);
    assert("newline_after_arrow"@[0] != "attr_order"@[0] && "newline_after_arrow"@[0] != "case_over_if"@[0]
        && "newline_after_arrow"@[0] != "deep_case_nesting"@[0] && "newline_after_arrow"@[0] != "element_bif"@[0]);
    assert("strict_generator"@[0] != "attr_order"@[0] && "strict_generator"@[0] != "case_over_if"@[0]
        && "strict_generator"@[0] != "deep_case_nesting"@[0] && "strict_generator"@[0] != "element_bif"@[0]
        && "strict_generator"@[0] != "newline_after_arrow"@[0]);
}

/// `--explain` knows exactly the registered rules and the shared
/// `elint_expect_attr` explanation, which gives the attribute's text.
pub proof fn law_explain_knows_exactly_the_registered_names(name: Seq<char>)
    ensures
        spec_find_explanation(name) is Some <==> (name == "elint_expect_attr"@ || exists|k: int|
            0 <= k < 6 && #[trigger] rule_name(rule_order()[k]) == name),
        name == "elint_expect_attr"@ ==> spec_find_explanation(name) == Some(EXPECT_ATTR_TEXT@),
{
    law_explanation_names_distinct();
    if spec_find_explanation(name) is Some && name != "elint_expect_attr"@ {
        if name == "attr_order"@ {
            assert(rule_name(rule_order()[0]) == name);
        } else if name == "case_over_if"@ {
            assert(rule_name(rule_order()[1]) == name);
        } else if name == "deep_case_nesting"@ {
            assert(rule_name(rule_order()[2]) == name);
        } else if name == "element_bif"@ {
            assert(rule_name(rule_order()[3]) == name);
        } else if name == "newline_after_arrow"@ {
            assert(rule_name(rule_order()[4]) == name);
        } else {
            assert(rule_name(rule_order()[5]) == name);
        }
    }
    if name == "elint_expect_attr"@ {
        assert(rule_names()[0] != "elint_expect_attr"@);
        assert(rule_names()[1] != "elint_expect_attr"@);
        assert(rule_names()[2] != "elint_expect_attr"@);
        assert(rule_names()[3] != "elint_expect_attr"@);
        assert(rule_names()[4] != "elint_expect_attr"@);
        assert(rule_names()[5] != "elint_expect_attr"@);
    }
}

/// What `find_explanation` gives for each registered rule is that rule's
/// registered text: looking a rule up by its name never yields another
/// rule's description.
pub proof fn law_explain_matches_registry(rs: Seq<crate::rules::Rule>, k: int)
    requires
        0 <= k < rs.len(),
        forall|m: int| 0 <= m < rs.len() ==> (#[trigger] rs[m]).name@ == rule_name(rs[m].id) && rs[m].text@ == rule_text(rs[m].id),
    ensures
        spec_find_explanation(rs[k].name@) == Some(rs[k].text@),
{
    law_explain_gives_the_rule_text(rs[k].id);
}

/// The text of the `-elint_expect` explanation.
pub const EXPECT_ATTR_TEXT: &'static str = "# The `-elint_expect` attribute

An `-elint_expect` attribute declares that a lint finding is intentional.
elint suppresses findings that match an expectation, and reports an
expectation that never matched a finding as `Lint Expectation Not Met`.

```erlang
-elint_expect(element_bif, {function, foo, 1}, \"dynamic tuple shape\").
```

The payload is a tuple `{Rule, Target, Reason}`:

- `Rule` is the atom name of a registered lint rule.
- `Target` selects the scope:
  - `{function, Name, Arity}` suppresses findings inside every clause of
    `Name/Arity`;
  - the bare atom `module` suppresses findings anywhere in the current file.
- `Reason` is a required string explaining why the finding is acceptable.

A declaration without a reason is an error, as are an unknown rule name, a
function that does not exist in the file, and any other malformed payload.

One attribute covers one rule and one target. Write several attributes to
suppress several rules, or several targets, in the same file.

When `elint --lint RULE` restricts linting to a rule, only expectations for
that rule are validated and reported; `-elint_expect` declarations for other
rules are ignored entirely. An expectation whose rule name cannot be read is
an error regardless of `--lint`.

Expectations are read from the mainline branch only (the branch that takes
`Branch::\x54hen` at every conditional), while findings from every branch are
matched against them. Matching is done on the original-file byte span, so an
expectation also covers findings that a non-mainline conditional arm would
produce inside the target function.
";

/// The shared explanations, by `--explain` name: each name, with its
/// markdown text.
pub fn explains() -> (v: Vec<(&'static str, &'static str)>)
    ensures
        v@.len() == 1,
        v@[0].0@ == "elint_expect_attr"@,
        v@[0].1@ == EXPECT_ATTR_TEXT@,
{
    let mut v = Vec::new();
    v.push(("elint_expect_attr", EXPECT_ATTR_TEXT));
    v
}

/// The markdown text for `name`: a lint rule's first, then a shared
/// explanation's.
pub open spec fn spec_find_explanation(name: Seq<char>) -> Option<Seq<char>> {
    if name == "attr_order"@ {
        Some(attr_order::TEXT@)
    } else if name == "case_over_if"@ {
        Some(case_over_if::TEXT@)
    } else if name == "deep_case_nesting"@ {
        Some(deep_case_nesting::TEXT@)
    } else if name == "element_bif"@ {
        Some(element_bif::TEXT@)
    } else if name == "newline_after_arrow"@ {
        Some(newline_after_arrow::TEXT@)
    } else if name == "strict_generator"@ {
        Some(strict_generator::TEXT@)
    } else if name == "elint_expect_attr"@ {
        Some(EXPECT_ATTR_TEXT@)
    } else {
        None
    }
}

/// Returns the markdown text for `name`, looking first for a lint rule and
/// then for a shared explanation.
pub fn find_explanation(name: &str) -> (r: Option<&'static str>)
    ensures
        r is Some <==> spec_find_explanation(name@) is Some,
        r matches Some(t) ==> t@ == spec_find_explanation(name@)->Some_0,
{
    proof {
        reveal_strlit("attr_order");
        reveal_strlit("case_over_if");
        reveal_strlit("deep_case_nesting");
        reveal_strlit("element_bif");
        reveal_strlit("newline_after_arrow");
        reveal_strlit("strict_generator");
        reveal_strlit("elint_expect_attr");
    }
    let rs = rules();
    let mut k: usize = 0;
    while k < rs.len()
        invariant
            rs@.len() == 6,
            forall|m: int| 0 <= m < 6 ==> (#[trigger] rs@[m]).id == rule_order()[m] && rs@[m].name@ == rule_name(rs@[m].id)
                && rs@[m].text@ == rule_text(rs@[m].id),
            k <= 6,
            forall|m: int| 0 <= m < k ==> (#[trigger] rs@[m]).name@ != name@,
        decreases 6 - k,
    {
        if str_eq(rs[k].name, name) {
            proof {
                reveal_strlit("attr_order");
                reveal_strlit("case_over_if");
                reveal_strlit("deep_case_nesting");
                reveal_strlit("element_bif");
                reveal_strlit("newline_after_arrow");
                reveal_strlit("strict_generator");
            }
            return Some(rs[k].text);
        }
        k += 1;
    }
    assert(rs@[0].name@ != name@ && rs@[1].name@ != name@ && rs@[2].name@ != name@);
    assert(rs@[3].name@ != name@ && rs@[4].name@ != name@ && rs@[5].name@ != name@);
    let ex = explains();
    let mut k: usize = 0;
    while k < ex.len()
        invariant
            ex@.len() == 1,
            ex@[0].0@ == "elint_expect_attr"@,
            ex@[0].1@ == EXPECT_ATTR_TEXT@,
            k <= 1,
            forall|m: int| 0 <= m < k ==> (#[trigger] ex@[m]).0@ != name@,
        decreases 1 - k,
    {
        if str_eq(ex[k].0, name) {
            proof {
                reveal_strlit("attr_order");
                reveal_strlit("case_over_if");
                reveal_strlit("deep_case_nesting");
                reveal_strlit("element_bif");
                reveal_strlit("newline_after_arrow");
                reveal_strlit("strict_generator");
                reveal_strlit("elint_expect_attr");
                assert(k == 0);
                assert("elint_expect_attr"@[0] != "deep_case_nesting"@[0]);
                assert("element_bif"@.len() == 11);
            }
            return Some(ex[k].1);
        }
        k += 1;
    }
    None
}

/// The names of the rules, in name order.
pub open spec fn rule_names() -> Seq<Seq<char>> {
    seq!["attr_order"@, "case_over_if"@, "deep_case_nesting"@, "element_bif"@, "newline_after_arrow"@, "strict_generator"@]
}

/// The `--list` output: `Lint rules:`, the rule names, `Additional
/// explanations:`, the shared explanation names, each name on a line of
/// its own indented by two spaces, then a usage hint.
pub open spec fn spec_explanation_list() -> Seq<char> {
    list_prefix(rule_names(), 6) + "\nAdditional explanations:\n"@ + "  "@ + "elint_expect_attr"@ + "\n"@
        + "\nRun `elint --explain <name>` to print one.\n"@
}

/// Renders the `--list` output: lint rules and shared explanations in name
/// order, with a usage hint at the end.
pub fn explanation_list() -> (s: String)
    ensures
        s@ == spec_explanation_list(),
{
    let mut out = String::from_str("Lint rules:\n");
    let rs = rules();
    let mut k: usize = 0;
    while k < rs.len()
        invariant
            rs@.len() == 6,
            forall|m: int| 0 <= m < 6 ==> (#[trigger] rs@[m]).id == rule_order()[m] && rs@[m].name@ == rule_name(rs@[m].id),
            k <= 6,
            out@ == list_prefix(rule_names(), k as int),
        decreases 6 - k,
    {
        out.append("  ");
        out.append(rs[k].name);
        out.append("\n");
        assert(rs@[k as int].name@ == rule_names()[k as int]);
        k += 1;
    }
    out.append("\nAdditional explanations:\n");
    let ex = explains();
    let mut k: usize = 0;
    let ghost mid = out@;
    while k < ex.len()
        invariant
            ex@.len() == 1,
            ex@[0].0@ == "elint_expect_attr"@,
            k <= 1,
            out@ == (if k == 0 { mid } else { mid + "  "@ + "elint_expect_attr"@ + "\n"@ }),
        decreases 1 - k,
    {
        out.append("  ");
        out.append(ex[k].0);
        out.append("\n");
        k += 1;
    }
    out.append("\nRun `elint --explain <name>` to print one.\n");
    out
}

/// `Lint rules:\n` and a line for each of the first `k` names.
pub open spec fn list_prefix(names: Seq<Seq<char>>, k: int) -> Seq<char>
    decreases k,
{
    if k <= 0 {
        "Lint rules:\n"@
    } else {
        list_prefix(names, k - 1) + "  "@ + names[k - 1] + "\n"@
    }
}

} // verus!
