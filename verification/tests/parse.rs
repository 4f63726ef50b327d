use elint::item::{
    BinaryOpExprsView, CaseView, FunDeclView, Item, ItemKind, ItemView, MaybeExprView, ModuleFunCallView,
};
use elint::parse::{ParseError, Parser};
use elint::token::tokenize;

fn parse(text: &str) -> Result<Vec<Item>, ParseError> {
    let tokens = tokenize(text).expect("tokenization failed");
    let mut parser = Parser::new(text, tokens);
    while !parser.is_eof() {
        parser.parse_expr()?;
    }
    Ok(parser.items)
}

#[test]
fn parse_integers() {
    let input = " 42 ";
    let items = parse(input).expect("parse failed");
    assert_eq!(items.len(), 1);
    assert_eq!(items[0].kind, ItemKind::Integer);
    assert_eq!(items[0].text(input), "42");
}

#[test]
fn parse_binary_op_exprs() {
    let input = "1 + 2 * 3";
    let items = parse(input).expect("parse failed");
    assert_eq!(items.len(), 6);

    assert_eq!(items[0].kind, ItemKind::BinaryOpExprs);
    assert_eq!(items[0].text(input), input);

    assert_eq!(items[1].kind, ItemKind::Integer);
    assert_eq!(items[1].text(input), "1");

    assert_eq!(items[2].kind, ItemKind::BinaryOp);
    assert_eq!(items[2].text(input), "+");

    assert_eq!(items[3].kind, ItemKind::Integer);
    assert_eq!(items[3].text(input), "2");

    assert_eq!(items[4].kind, ItemKind::BinaryOp);
    assert_eq!(items[4].text(input), "*");

    assert_eq!(items[5].kind, ItemKind::Integer);
    assert_eq!(items[5].text(input), "3");

    let view = BinaryOpExprsView::new(ItemView::new(&items, 0)).expect("bug");
    assert_eq!(view.exprs().len(), 3);
    assert_eq!(view.ops().len(), 2);
}

#[test]
fn parse_module_fun_call() {
    let input = "foo:bar()";
    let items = parse(input).expect("parse failed");

    assert_eq!(items.len(), 4);
    assert_eq!(items[0].kind, ItemKind::ModuleFunCall);
    assert_eq!(items[0].text(input), "foo:bar()");
    assert_eq!(items[1].kind, ItemKind::Atom);
    assert_eq!(items[1].text(input), "foo");
    assert_eq!(items[2].kind, ItemKind::Atom);
    assert_eq!(items[2].text(input), "bar");
    assert_eq!(items[3].kind, ItemKind::Args);
    assert_eq!(items[3].text(input), "()");

    let view = ModuleFunCallView::new(ItemView::new(&items, 0)).expect("bug");
    assert_eq!(view.module_name().kind(), ItemKind::Atom);
    assert_eq!(view.module_name().text(input), "foo");
    assert_eq!(view.function_name().kind(), ItemKind::Atom);
    assert_eq!(view.function_name().text(input), "bar");
    assert_eq!(view.args().count(), 0);

    let input = "foo:bar(42, X)";
    let items = parse(input).expect("parse failed");
    let view = ModuleFunCallView::new(ItemView::new(&items, 0)).expect("bug");
    assert_eq!(view.module_name().text(input), "foo");
    assert_eq!(view.function_name().text(input), "bar");

    let args: Vec<_> = view.args().to_vec();
    assert_eq!(args.len(), 2);
    assert_eq!(args[0].kind(), ItemKind::Integer);
    assert_eq!(args[0].text(input), "42");
    assert_eq!(args[1].kind(), ItemKind::Variable);
    assert_eq!(args[1].text(input), "X");
}

#[test]
fn parse_fun_decl() {
    let input = "foo(X) -> X.";
    let tokens = tokenize(input).expect("tokenization failed");
    let mut parser = Parser::new(input, tokens);
    parser.parse_fun_decl().expect("parse failed");

    let items = &parser.items;
    assert!(!items.is_empty());
    assert_eq!(items[0].kind, ItemKind::FunDecl);
    assert_eq!(items[0].text(input), input);

    let view = FunDeclView::new(ItemView::new(items, 0)).expect("bug");
    let clauses: Vec<_> = view.clauses();
    assert_eq!(clauses.len(), 1);

    assert_eq!(clauses[0].name().text(input), "foo");
    assert_eq!(clauses[0].args().count(), 1);
    assert_eq!(clauses[0].body().count(), 1);
}

#[test]
fn parse_case_expr() {
    let input = "case X of 42 -> ok; _ -> error end";
    let items = parse(input).expect("parse failed");

    assert!(!items.is_empty());
    assert_eq!(items[0].kind, ItemKind::Case);
    assert_eq!(items[0].text(input), input);

    let view = CaseView::new(ItemView::new(&items, 0)).expect("bug");

    // Check the expression being matched
    assert_eq!(view.expr().kind(), ItemKind::Variable);
    assert_eq!(view.expr().text(input), "X");

    // Check the case clauses
    let clauses: Vec<_> = view.clauses();
    assert_eq!(clauses.len(), 2);

    // First clause: 42 -> ok
    assert_eq!(clauses[0].pattern().kind(), ItemKind::Integer);
    assert_eq!(clauses[0].pattern().text(input), "42");
    assert_eq!(clauses[0].body().count(), 1);

    // Second clause: _ -> error
    assert_eq!(clauses[1].pattern().kind(), ItemKind::Variable);
    assert_eq!(clauses[1].pattern().text(input), "_");
    assert_eq!(clauses[1].body().count(), 1);
}

#[test]
fn parse_maybe_expr() {
    let input = "maybe X else _ -> error end";
    let items = parse(input).expect("parse failed");

    assert!(!items.is_empty());
    assert_eq!(items[0].kind, ItemKind::MaybeExpr);
    assert_eq!(items[0].text(input), input);

    let view = MaybeExprView::new(ItemView::new(&items, 0)).expect("bug");

    // Check the body
    let body_items: Vec<_> = view.body().to_vec();
    assert_eq!(body_items.len(), 1);
    assert_eq!(body_items[0].kind(), ItemKind::Variable);
    assert_eq!(body_items[0].text(input), "X");

    // Check the else clauses
    let clauses: Vec<_> = view.clauses();
    assert_eq!(clauses.len(), 1);

    // First clause: _ -> error
    assert_eq!(clauses[0].pattern().kind(), ItemKind::Variable);
    assert_eq!(clauses[0].pattern().text(input), "_");
    assert_eq!(clauses[0].body().count(), 1);
}

#[test]
fn parse_tuple() {
    let input = "{42, X, ok}";
    let items = parse(input).expect("parse failed");

    assert!(!items.is_empty());
    assert_eq!(items[0].kind, ItemKind::Tuple);
    assert_eq!(items[0].text(input), input);

    let view = ItemView::new(&items, 0);
    let tuple_items: Vec<_> = view.children().to_vec();
    assert_eq!(tuple_items.len(), 3);

    assert_eq!(tuple_items[0].kind(), ItemKind::Integer);
    assert_eq!(tuple_items[0].text(input), "42");

    assert_eq!(tuple_items[1].kind(), ItemKind::Variable);
    assert_eq!(tuple_items[1].text(input), "X");

    assert_eq!(tuple_items[2].kind(), ItemKind::Atom);
    assert_eq!(tuple_items[2].text(input), "ok");
}

#[test]
fn parse_module_puts_module_item_first() {
    let input = "-module(t).\nfoo(X) -> X.\n";
    let tokens = tokenize(input).expect("tokenization failed");
    let mut parser = Parser::new(input, tokens);
    parser.parse_module().expect("parse failed");
    let items = &parser.items;
    assert_eq!(items[0].kind, ItemKind::Module);
    assert_eq!(items[0].text(input), input);
    assert_eq!(items[1].kind, ItemKind::Attr);
    assert_eq!(items[1].text(input), "-module(t).");
    assert_eq!(items[2].kind, ItemKind::FunDecl);
    assert_eq!(items[2].text(input), "foo(X) -> X.");
    assert!(parser.is_eof());
}

#[test]
fn parse_guard_without_when_is_empty() {
    let input = "foo(X) -> X.";
    let tokens = tokenize(input).expect("tokenization failed");
    let mut parser = Parser::new(input, tokens);
    parser.parse_fun_decl().expect("parse failed");
    let items = &parser.items;
    let guard = items.iter().find(|i| i.kind == ItemKind::Guard).expect("guard");
    let arrow = input.find("->").unwrap();
    assert_eq!(guard.span, elint::item::Span::new(arrow, arrow));
}

#[test]
fn parse_errors_name_what_was_expected() {
    let input = "foo(X) X.";
    let tokens = tokenize(input).expect("tokenization failed");
    let mut parser = Parser::new(input, tokens);
    let err = parser.parse_fun_decl().expect_err("must fail");
    assert_eq!(err.reason, "expected symbol '->', got 'X'");
    assert_eq!(err.span, elint::item::Span::new(7, 8));

    let input = "foo(";
    let tokens = tokenize(input).expect("tokenization failed");
    let mut parser = Parser::new(input, tokens);
    let err = parser.parse_fun_decl().expect_err("must fail");
    assert_eq!(err.reason, "unexpected EOF");
    assert_eq!(err.span, elint::item::Span::new(4, 4));

    let input = "if";
    let err = parse(input).expect_err("must fail");
    assert_eq!(err.reason, "TODO: \"if\"");
}

#[test]
fn comments_become_comment_items() {
    let input = "1 % one\n+ 2";
    let tokens = tokenize(input).expect("tokenization failed");
    let parser = Parser::new(input, tokens);
    assert_eq!(parser.comments.len(), 1);
    assert_eq!(parser.comments[0].kind, ItemKind::Comment);
    assert_eq!(parser.comments[0].text(input), "% one");
    assert_eq!(parser.tokens.len(), 3);
}

#[test]
fn parse_binary_and_nested_binary() {
    let items = parse("<<1, <<2>>, 3>>").expect("parse failed");
    assert_eq!(items.len(), 1);
    assert_eq!(items[0].kind, ItemKind::Binary);
    assert_eq!(items[0].span, elint::item::Span::new(0, 15));
}

#[test]
fn parse_match_and_call() {
    let input = "X = foo(1)";
    let items = parse(input).expect("parse failed");
    assert_eq!(items[0].kind, ItemKind::Match);
    assert_eq!(items[0].text(input), input);
    assert_eq!(items[1].kind, ItemKind::Variable);
    assert_eq!(items[2].kind, ItemKind::FunCall);
    assert_eq!(items[2].text(input), "foo(1)");
}

#[test]
fn item_parent_and_siblings() {
    let input = "{1, {2, 3}}";
    let items = parse(input).expect("parse failed");
    let three = ItemView::new(&items, 4);
    assert_eq!(three.text(input), "3");
    let parent = three.parent().expect("parent");
    assert_eq!(parent.text(input), "{2, 3}");
    assert_eq!(parent.parent().expect("grandparent").start_index(), 0);
    assert!(ItemView::new(&items, 0).parent().is_none());
    assert_eq!(ItemView::new(&items, 1).siblings().count(), 2);
    assert_eq!(ItemView::new(&items, 0).end_index(), 5);
}

#[test]
fn ng_pattern_parses_scanned_text_only() {
    let p = elint::rule::NgPattern::parse_scanned("case X of 1 -> ok end").expect("scans").expect("parses");
    assert_eq!(p.items[0].kind, ItemKind::Case);
    assert!(elint::rule::NgPattern::parse_scanned("\"open").is_none());
}

#[test]
fn parse_rule() {
    let text = r#"# RULE: TODO

- CONTEXT: EXPR

## NG

Nested `case`s. 

```erlang
case Value0 of
  OkPattern0 ->
    case Value1 of
      OkPattern1 ->
          OkResult;
      ErrorPattern1 -> 
          ErrorResult1
    end;
  ErrorPattern0 -> 
      ErrorResult0
end.
```

### WHEN: `OkPattern0`, `OkPattern0`

- MATCH: `ok`
- IS_TUPLE:
  - TAG: `ok`

## OK

Use `maybe` instead.

```erlang
maybe
  {tag0, OkPattern0} ?= {tag0, Value0},
  {tag1, OkPattern1} ?= {tag1, Value1},
  '$ok_block'
else
  {tag0, ErrorPattern0} ->
    '$error_block_0';
  {tag1, ErrorPattern1} ->
    '$error_block_1'
end.
```

NOTE:
- Tag names should concise and reflect the context
"#;
    elint::rule::Rule::parse(text).expect("failed to parse rule text");
}

#[test]
fn rule_parts_read_title_and_first_erlang_block() {
    let text = "# RULE:  Title here \n\nintro\n```erlang\nfoo(X)\n```\nmore\n```erlang\nbar\n```\n";
    let rule = elint::rule::Rule::parse_checked(text).expect("well formed").expect("parses");
    assert_eq!(rule.title, "Title here");
    assert_eq!(rule.full_text, text);
    assert_eq!(rule.ng_pattern.text, "foo(X)");
    assert!(elint::rule::Rule::parse_checked("no prefix").is_none());
    assert!(elint::rule::Rule::parse_checked("# RULE: one line").is_none());
}

#[test]
fn tuples_take_a_trailing_comma_and_arguments_do_not() {
    let items = parse("{1,}").expect("parse failed");
    assert_eq!(items[0].kind, ItemKind::Tuple);
    assert!(parse("foo(1,)").is_err());
    assert!(parse("foo(1 2)").is_err());
    assert!(parse("{1 2}").is_err());
}

#[test]
fn case_expression_items_are_in_preorder() {
    let items = parse("case X of 42 -> ok; _ -> error end").expect("parse");
    let expected = vec![
        Item::new(ItemKind::Case, elint::item::Span::new(0, 34)),
        Item::new(ItemKind::Variable, elint::item::Span::new(5, 6)),
        Item::new(ItemKind::CaseClauses, elint::item::Span::new(10, 30)),
        Item::new(ItemKind::CaseClause, elint::item::Span::new(10, 18)),
        Item::new(ItemKind::Integer, elint::item::Span::new(10, 12)),
        Item::new(ItemKind::Guard, elint::item::Span::new(13, 13)),
        Item::new(ItemKind::Body, elint::item::Span::new(16, 18)),
        Item::new(ItemKind::Atom, elint::item::Span::new(16, 18)),
        Item::new(ItemKind::CaseClause, elint::item::Span::new(20, 30)),
        Item::new(ItemKind::Variable, elint::item::Span::new(20, 21)),
        Item::new(ItemKind::Guard, elint::item::Span::new(22, 22)),
        Item::new(ItemKind::Body, elint::item::Span::new(25, 30)),
        Item::new(ItemKind::Atom, elint::item::Span::new(25, 30)),
    ];
    assert_eq!(items, expected);
}

#[test]
fn run_of_an_item_stops_at_the_first_item_past_its_end() {
    let items = parse("{42, X, ok}").expect("parse");
    assert_eq!(ItemView::new(&items, 0).items().len(), 4);
    assert_eq!(ItemView::new(&items, 1).items().len(), 1);
    assert_eq!(ItemView::new(&items, 0).end_index(), 4);
    let siblings: Vec<usize> = ItemView::new(&items, 2).siblings().to_vec().iter().map(|v| v.start_index()).collect();
    assert_eq!(siblings, vec![2, 3]);
}

#[test]
fn span_items_count_the_items_starting_before_the_end() {
    let items = vec![
        Item::new(ItemKind::Tuple, elint::item::Span::new(0, 11)),
        Item::new(ItemKind::Integer, elint::item::Span::new(1, 3)),
        Item::new(ItemKind::Variable, elint::item::Span::new(5, 6)),
        Item::new(ItemKind::Atom, elint::item::Span::new(8, 10)),
        Item::new(ItemKind::Atom, elint::item::Span::new(12, 13)),
    ];
    assert_eq!(elint::item::Span::new(0, 11).items(&items).len(), 4);
    let empty = vec![Item::new(ItemKind::Guard, elint::item::Span::new(4, 4)), Item::new(ItemKind::Atom, elint::item::Span::new(4, 6))];
    assert_eq!(elint::item::Span::new(4, 4).items(&empty).len(), 1);
}
