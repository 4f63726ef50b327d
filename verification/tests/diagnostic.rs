use elint::diagnostic::{render, Color, Source};
use elint::span::Span;

fn render_to_string(
    text: &str,
    span: Span,
    code: Option<&str>,
    message: &str,
    note: Option<&str>,
) -> String {
    let source = Source::new("t.erl", text);
    let mut out = Vec::new();
    render(
        &mut out,
        Color { enabled: false },
        &source,
        code,
        message,
        span,
        None,
        note,
    );
    String::from_utf8(out).expect("utf8")
}

#[test]
fn renders_single_line_span() {
    let text = "-module(t).\nfoo() -> ok.\n";
    let start = text.find("ok.").expect("finding");
    let out = render_to_string(
        text,
        Span::new(start, start + 2),
        Some("newline_after_arrow"),
        "summary",
        None,
    );
    assert_eq!(
        out,
        "\
error[newline_after_arrow]: summary
 --> t.erl:2:10
  |
  | -module(t).
2 | foo() -> ok.
  |          ^^
  |
"
    );
}

#[test]
fn pads_line_numbers_to_width() {
    let text = "a\nb\nc\nd\ne\nf\ng\nh\ni\nj\nfoo() -> ok.\n";
    let start = text.find("ok.").expect("finding");
    let out = render_to_string(text, Span::new(start, start + 2), None, "message", None);
    assert_eq!(
        out,
        "\
error: message
  --> t.erl:11:10
   |
   | j
11 | foo() -> ok.
   |          ^^
   |
"
    );
}

#[test]
fn expands_tabs_in_caret_alignment() {
    let text = "foo() ->\n\tok.\n";
    let start = text.find("ok.").expect("finding");
    let out = render_to_string(text, Span::new(start, start + 2), None, "message", None);
    // Tab becomes four columns, so the caret sits at column 5.
    assert_eq!(
        out,
        "\
error: message
 --> t.erl:2:5
  |
  | foo() ->
2 |     ok.
  |     ^^
  |
"
    );
}

#[test]
fn expands_tabs_in_preceding_line() {
    let text = "\tpre\n\tok.\n";
    let start = text.find("ok.").expect("finding");
    let out = render_to_string(text, Span::new(start, start + 2), None, "message", None);
    // The tab in the preceding line expands to four columns, matching
    // the error line's gutter alignment.
    assert_eq!(
        out,
        "\
error: message
 --> t.erl:2:5
  |
  |     pre
2 |     ok.
  |     ^^
  |
"
    );
}

#[test]
fn omits_empty_preceding_line() {
    let text = "a\n\nfoo() -> ok.\n";
    let start = text.find("ok.").expect("finding");
    let out = render_to_string(text, Span::new(start, start + 2), None, "message", None);
    // The blank line before the error line contributes no context.
    assert_eq!(
        out,
        "\
error: message
 --> t.erl:3:10
  |
3 | foo() -> ok.
  |          ^^
  |
"
    );
}

#[test]
fn first_line_error_shows_no_preceding_line() {
    let text = "foo() -> ok.\n";
    let start = text.find("ok.").expect("finding");
    let out = render_to_string(text, Span::new(start, start + 2), None, "message", None);
    assert_eq!(
        out,
        "\
error: message
 --> t.erl:1:10
  |
1 | foo() -> ok.
  |          ^^
  |
"
    );
}

#[test]
fn aligns_caret_after_wide_characters() {
    let text = "foo(\"おはよう\", X)\n";
    let start = text.find('X').expect("finding");
    let out = render_to_string(text, Span::new(start, start + 1), None, "message", None);
    // `おはよう` is four wide characters (8 columns), so the caret is
    // at display column 17.
    assert_eq!(
        out,
        "\
error: message
 --> t.erl:1:17
  |
1 | foo(\"おはよう\", X)
  |                 ^
  |
"
    );
}

#[test]
fn aligns_caret_after_combining_characters() {
    let text = "caf\u{301} X\n";
    let start = text.find('X').expect("finding");
    let out = render_to_string(text, Span::new(start, start + 1), None, "message", None);
    // The combining acute accent has display width 0, so the caret is
    // at display column 5.
    assert_eq!(
        out,
        "\
error: message
 --> t.erl:1:5
  |
1 | caf\u{301} X
  |     ^
  |
"
    );
}

#[test]
fn aligns_caret_with_tab_and_wide_characters() {
    let text = "\tおX\n";
    let start = text.find('X').expect("finding");
    let out = render_to_string(text, Span::new(start, start + 1), None, "message", None);
    // Tab expands to four columns and `お` is two columns wide, so the
    // caret is at display column 7.
    assert_eq!(
        out,
        "\
error: message
 --> t.erl:1:7
  |
1 |     おX
  |       ^
  |
"
    );
}

#[test]
fn clamps_empty_span_to_one_caret() {
    let text = "-module(t).\n";
    let out = render_to_string(text, Span::new(0, 0), None, "message", None);
    assert!(out.contains("^\n"), "{out:?}");
}

#[test]
fn renders_note_after_block() {
    let text = "foo() -> ok.\n";
    let start = text.find("ok.").expect("finding");
    let out = render_to_string(
        text,
        Span::new(start, start + 1),
        Some("r"),
        "m",
        Some("see `elint explain r`"),
    );
    assert_eq!(
        out,
        "\
error[r]: m
 --> t.erl:1:10
  |
1 | foo() -> ok.
  |          ^
  |
note: see `elint explain r`
"
    );
}

#[test]
fn shows_enclosing_function_name() {
    let text = "foo() -> ok.\n";
    let start = text.find("ok.").expect("finding");
    let source = Source::new("t.erl", text);
    let mut out = Vec::new();
    render(
        &mut out,
        Color { enabled: false },
        &source,
        None,
        "message",
        Span::new(start, start + 2),
        Some("foo/0"),
        None,
    );
    let out = String::from_utf8(out).expect("utf8");
    assert_eq!(
        out,
        "\
error: message
 --> t.erl:1:10 (in foo/0)
  |
1 | foo() -> ok.
  |          ^^
  |
"
    );
}

#[test]
fn color_codes_are_emitted_when_enabled() {
    let text = "foo() -> ok.\n";
    let start = text.find("ok.").expect("finding");
    let source = Source::new("t.erl", text);
    let mut out = Vec::new();
    render(
        &mut out,
        Color { enabled: true },
        &source,
        Some("r"),
        "m",
        Span::new(start, start + 1),
        None,
        Some("note"),
    );
    let out = String::from_utf8(out).expect("utf8");
    assert!(out.contains("\x1b[1;31merror\x1b[0m"), "{out:?}");
    assert!(out.contains("\x1b[36mr\x1b[0m"), "{out:?}");
    assert!(out.contains("\x1b[34mnote:\x1b[0m"), "{out:?}");
}

#[test]
fn shows_first_and_last_line_of_a_multi_line_span() {
    let text = "-module(t).\nfoo() ->\n    bar(),\n    ok.\n";
    let start = text.find("foo()").expect("start");
    let end = text.find("ok.").expect("end") + 2;
    let out = render_to_string(text, Span::new(start, end), None, "message", None);
    assert_eq!(
        out,
        "\
error: message
 --> t.erl:2:1
  |
  | -module(t).
2 | foo() ->
  | ^^^^^^^^
4 |     ok.
  |     ^^
  |
"
    );
}

#[test]
fn multi_line_span_widens_the_gutter_to_the_last_line() {
    let text = "a\nb\nc\nd\ne\nf\ng\nh\nfoo(\n  X)\n";
    let start = text.find("foo(").expect("start");
    let end = text.find("X)").expect("end") + 2;
    let out = render_to_string(text, Span::new(start, end), None, "message", None);
    assert_eq!(
        out,
        "\
error: message
  --> t.erl:9:1
   |
   | h
 9 | foo(
   | ^^^^
10 |   X)
   |   ^^
   |
"
    );
}

#[test]
fn lines_start_after_each_line_feed() {
    let text = "a\nbc\n\nd";
    let index = elint::diagnostic::LineIndex::new(text);
    assert_eq!(index.starts, vec![0, 2, 5, 6]);
    assert_eq!(index.line_col(text, 3).0, 2);
    assert_eq!(index.line_col(text, 5).0, 3);
    assert_eq!(index.line_of(text, 100), 4);
    assert_eq!(index.line_range(text, 1), (2, 4));
    assert_eq!(index.line_range(text, 2), (5, 5));
}
