use elint::context::{close_at_endif, split_at_conditional, ForkDepth};
use elint::error::Error;
use elint::lint::{explains, explanation_list, find_explanation, parse_diagnostic_message, scan_error_report};
use elint::lex::{LexError, TokValue};
use elint::rules::rules;
use elint::span::Span;
use elint::syntax::{Expected, ParseDiagnostic, ParseDiagnosticKind};

#[test]
fn explanation_list_lists_every_rule_and_shared_explanation() {
    let out = explanation_list();
    for rule in rules() {
        assert!(out.contains(&format!("  {}\n", rule.name)), "{out:?}");
    }
    for (name, _) in explains() {
        assert!(out.contains(&format!("  {name}\n")), "{out:?}");
    }
    assert!(out.starts_with("Lint rules:\n"), "{out:?}");
    assert!(out.contains("\nAdditional explanations:\n"), "{out:?}");
    assert!(out.ends_with("\nRun `elint --explain <name>` to print one.\n"), "{out:?}");
}

#[test]
fn explanation_list_is_sorted_by_name() {
    let out = explanation_list();
    let rules: Vec<&str> = out
        .split("\nAdditional explanations:\n")
        .next()
        .expect("Additional explanations section")
        .lines()
        .skip(1)
        .map(str::trim)
        .filter(|line| !line.is_empty())
        .collect();
    let mut sorted = rules.clone();
    sorted.sort_unstable();
    assert_eq!(rules, sorted, "{out:?}");
}

#[test]
fn find_explanation_returns_rule_then_shared_text() {
    let rule = rules().into_iter().find(|rule| rule.name == "element_bif").expect("element_bif rule");
    assert_eq!(find_explanation("element_bif"), Some(rule.text));
    let (_, text) = explains()
        .into_iter()
        .find(|(name, _)| *name == "elint_expect_attr")
        .expect("elint_expect_attr explanation");
    assert_eq!(find_explanation("elint_expect_attr"), Some(text));
}

#[test]
fn find_explanation_rejects_unknown_names() {
    assert_eq!(find_explanation("README"), None);
    assert_eq!(find_explanation("no_such_name"), None);
}

#[test]
fn explanation_names_do_not_overlap_rule_names() {
    for (name, _) in explains() {
        assert!(
            !rules().iter().any(|rule| rule.name == name),
            "shared explanation name collides with a lint rule: {name}"
        );
    }
}

#[test]
fn explanation_list_does_not_mention_readme() {
    assert!(!explanation_list().contains("README"));
}

#[test]
fn explanation_list_is_exact() {
    assert_eq!(
        explanation_list(),
        "Lint rules:\n  attr_order\n  case_over_if\n  deep_case_nesting\n  element_bif\n  newline_after_arrow\n  strict_generator\n\nAdditional explanations:\n  elint_expect_attr\n\nRun `elint --explain <name>` to print one.\n"
    );
}

#[test]
fn expect_attr_explanation_starts_with_its_title() {
    let text = find_explanation("elint_expect_attr").expect("shared explanation");
    assert!(text.starts_with("# The `-elint_expect` attribute\n"));
    assert!(text.contains("Branch::Then"));
}

#[test]
fn parse_diagnostic_messages_name_kind_and_expectation() {
    let d = ParseDiagnostic {
        kind: ParseDiagnosticKind::UnexpectedToken,
        expected: Expected::Category("expression".to_string()),
        start: 0,
        end: 1,
    };
    assert_eq!(parse_diagnostic_message(&d), "unexpected token; expected expression");
    let d = ParseDiagnostic { kind: ParseDiagnosticKind::MissingToken, expected: Expected::TokenKind("Dot".to_string()), start: 0, end: 0 };
    assert_eq!(parse_diagnostic_message(&d), "missing token; expected Dot");
    let d = ParseDiagnostic { kind: ParseDiagnosticKind::NestingDepthExceeded, expected: Expected::Unspecified, start: 0, end: 0 };
    assert_eq!(parse_diagnostic_message(&d), "nesting depth exceeded");
    let d = ParseDiagnostic { kind: ParseDiagnosticKind::UnexpectedEof, expected: Expected::Unspecified, start: 0, end: 0 };
    assert_eq!(parse_diagnostic_message(&d), "unexpected end of file");
    let d = ParseDiagnostic { kind: ParseDiagnosticKind::SkippedToken, expected: Expected::Unspecified, start: 0, end: 0 };
    assert_eq!(parse_diagnostic_message(&d), "skipped token");
}

#[test]
fn scan_error_is_reported_at_its_offset() {
    let e = LexError { offset: 7, message: "unterminated string".to_string() };
    let r = scan_error_report(&e);
    assert_eq!(r.code, None);
    assert_eq!(r.message, "unterminated string");
    assert_eq!(r.span, Span::new(7, 7));
    assert!(r.enclosing.is_none() && r.note.is_none());
}

#[test]
fn with_context_adds_prefix() {
    let err = Error::new(Span::zero(), "inner reason".to_string()).with_context("outer context");
    assert_eq!(err.reason, "outer context: inner reason");
}

#[test]
fn side_fork_stops_at_the_endif_of_its_conditional() {
    // Forked at an `-ifdef` at depth 0, then: -ifdef, -endif, -elif, -endif, -endif.
    let (main, side) = split_at_conditional(ForkDepth { depth: 0, stop_depth: None }, true);
    assert_eq!(main.stop_depth, None);
    assert_eq!(side.stop_depth, Some(0));
    let (side, _) = split_at_conditional(side, true);
    let (side, stop) = close_at_endif(side);
    assert!(!stop);
    let (side, _) = split_at_conditional(side, false);
    let (_, stop) = close_at_endif(side);
    assert!(stop);
    // The fork that goes on never stops.
    let (main, stop) = close_at_endif(main);
    assert!(!stop);
    assert_eq!(main.depth, 0);
}

#[test]
fn token_of_maps_macro_tokens_to_their_call_site() {
    let text = "-define(X, ok).\nf() -> ?X.\n";
    let own = Span::new(11, 13);
    let t = elint::context::token_of("ok".to_string(), TokValue::Other, own, &Vec::new(), text);
    assert!(t.from_source);
    assert_eq!(t.span, Some(own));
    let call = Span::new(23, 25);
    let t = elint::context::token_of("ok".to_string(), TokValue::Other, own, &vec![Span::new(0, 1), call], text);
    assert!(!t.from_source);
    assert_eq!(t.span, Some(call));
    let t = elint::context::token_of("ok".to_string(), TokValue::Other, Span::new(5, 99), &Vec::new(), text);
    assert_eq!(t.span, None);
    assert_eq!(t.text, "ok");
}

#[test]
fn fork_step_follows_the_directive_model() {
    let top = ForkDepth { depth: 0, stop_depth: None };
    let (main, action) = elint::context::fork_step(top, elint::pp::EventClass::AwaitingIfdef);
    assert_eq!(main, ForkDepth { depth: 1, stop_depth: None });
    assert_eq!(action, elint::context::ForkAction::Split { side: ForkDepth { depth: 1, stop_depth: Some(0) } });
    let (after, action) = elint::context::fork_step(ForkDepth { depth: 1, stop_depth: Some(0) }, elint::pp::EventClass::Endif);
    assert_eq!(after, ForkDepth { depth: 0, stop_depth: Some(0) });
    assert_eq!(action, elint::context::ForkAction::Stop);
    let (same, action) = elint::context::fork_step(main, elint::pp::EventClass::AwaitingElif);
    assert_eq!(same, ForkDepth { depth: 1, stop_depth: None });
    assert_eq!(action, elint::context::ForkAction::Split { side: ForkDepth { depth: 1, stop_depth: Some(0) } });
    let (kept, action) = elint::context::fork_step(main, elint::pp::EventClass::AwaitingIncludeLib);
    assert_eq!(kept, main);
    assert_eq!(action, elint::context::ForkAction::SkipInclude);
    let (kept, action) = elint::context::fork_step(main, elint::pp::EventClass::Complete);
    assert_eq!(kept, main);
    assert_eq!(action, elint::context::ForkAction::Stop);
}
