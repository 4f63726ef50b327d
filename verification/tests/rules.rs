use elint::context::{BranchToken, Context};
use elint::expect::{ExpectRules, ExpectTarget};
use elint::span::Span;
use elint::lex::TokValue;
use elint::rules::{attr_order, case_over_if, deep_case_nesting, element_bif, newline_after_arrow, strict_generator};
use elint::span::Finding;
use elint::syntax::{SyntaxKind, SyntaxNode, SyntaxTree};

/// A small recursive-descent reader of the Erlang used in these tests,
/// laying out the parse forest in preorder over a branch's tokens.
struct TreeBuilder<'a> {
    toks: &'a [BranchToken],
    i: usize,
    nodes: Vec<SyntaxNode>,
}

const LEVELS: [&[&str]; 7] = [
    &["=", "!", "?="],
    &["orelse"],
    &["andalso"],
    &["==", "/=", "=<", "<", ">=", ">", "=:=", "=/="],
    &["++", "--"],
    &["+", "-", "bor", "bxor", "bsl", "bsr", "or", "xor"],
    &["*", "/", "div", "rem", "band", "and"],
];

impl<'a> TreeBuilder<'a> {
    fn new(toks: &'a [BranchToken]) -> Self {
        TreeBuilder { toks, i: 0, nodes: Vec::new() }
    }

    fn peek(&self) -> &str {
        self.peek_at(0)
    }

    fn peek_at(&self, k: usize) -> &str {
        match self.toks.get(self.i + k) {
            Some(t) => match &t.value {
                TokValue::Other => t.text.as_str(),
                _ => "",
            },
            None => "",
        }
    }

    fn value(&self) -> Option<&TokValue> {
        self.toks.get(self.i).map(|t| &t.value)
    }

    fn bump(&mut self) {
        assert!(self.i < self.toks.len(), "unexpected end of input");
        self.i += 1;
    }

    fn expect(&mut self, s: &str) {
        assert_eq!(self.peek(), s, "at token {}", self.i);
        self.bump();
    }

    fn open(&mut self, kind: SyntaxKind) -> usize {
        self.nodes.push(SyntaxNode { kind, start: self.i, end: self.i, subtree_end: 0 });
        self.nodes.len() - 1
    }

    fn close(&mut self, n: usize) {
        self.nodes[n].end = self.i;
        self.nodes[n].subtree_end = self.nodes.len();
    }

    /// Puts a new open node in front of the finished subtree at `at`.
    fn wrap(&mut self, at: usize, kind: SyntaxKind) -> usize {
        let start = self.nodes[at].start;
        self.nodes.insert(at, SyntaxNode { kind, start, end: start, subtree_end: 0 });
        for n in self.nodes.iter_mut().skip(at + 1) {
            if n.subtree_end != 0 {
                n.subtree_end += 1;
            }
        }
        at
    }

    fn leaf(&mut self, kind: SyntaxKind) {
        let n = self.open(kind);
        self.bump();
        self.close(n);
    }

    fn forms(&mut self) {
        while self.i < self.toks.len() {
            if self.peek() == "-" {
                self.attribute();
            } else if matches!(self.value(), Some(TokValue::Atom(_))) && self.peek_at(1) == "(" {
                self.function_decl();
            } else {
                let n = self.open(SyntaxKind::Error);
                self.expr();
                self.expect(".");
                self.close(n);
            }
        }
    }

    fn attribute(&mut self) {
        let n = self.open(SyntaxKind::Attribute);
        self.expect("-");
        self.leaf(SyntaxKind::AttributeName);
        let p = self.open(SyntaxKind::AttributePayload);
        let mut depth = 0usize;
        while !(depth == 0 && self.peek() == ".") {
            match self.peek() {
                "(" | "[" | "{" | "<<" => depth += 1,
                ")" | "]" | "}" | ">>" => depth -= 1,
                _ => {},
            }
            self.bump();
        }
        self.close(p);
        self.expect(".");
        self.close(n);
    }

    fn function_decl(&mut self) {
        let d = self.open(SyntaxKind::FunctionDecl);
        loop {
            let c = self.open(SyntaxKind::FunctionClause);
            self.leaf(SyntaxKind::AtomExpr);
            self.clause_rest(c);
            if self.peek() == ";" {
                self.bump();
            } else {
                break;
            }
        }
        self.expect(".");
        self.close(d);
    }

    /// Arguments, guard, `->` and body; closes clause `c`.
    fn clause_rest(&mut self, c: usize) {
        self.args();
        self.guard_opt();
        self.expect("->");
        self.body();
        self.close(c);
    }

    fn args(&mut self) {
        let n = self.open(SyntaxKind::ArgumentList);
        self.expect("(");
        if self.peek() != ")" {
            self.expr();
            while self.peek() == "," {
                self.bump();
                self.expr();
            }
        }
        self.expect(")");
        self.close(n);
    }

    fn guard_opt(&mut self) {
        if self.peek() == "when" {
            let g = self.open(SyntaxKind::Guard);
            self.bump();
            self.expr();
            while self.peek() == "," || self.peek() == ";" {
                self.bump();
                self.expr();
            }
            self.close(g);
        }
    }

    fn body(&mut self) {
        let b = self.open(SyntaxKind::Body);
        self.expr();
        while self.peek() == "," {
            self.bump();
            self.expr();
        }
        self.close(b);
    }

    fn clauses(&mut self, kind: SyntaxKind) {
        loop {
            let c = self.open(kind);
            self.expr();
            self.guard_opt();
            self.expect("->");
            self.body();
            self.close(c);
            if self.peek() == ";" {
                self.bump();
            } else {
                break;
            }
        }
    }

    fn expr(&mut self) {
        if self.peek() == "catch" {
            let c = self.open(SyntaxKind::CatchExpr);
            self.bump();
            self.expr();
            self.close(c);
        } else {
            self.binary(0);
        }
    }

    fn binary(&mut self, level: usize) {
        if level == LEVELS.len() {
            self.unary();
            return;
        }
        let at = self.nodes.len();
        self.binary(level + 1);
        let right = level == 0 || level == 4;
        while LEVELS[level].contains(&self.peek()) {
            let kind = match self.peek() {
                "=" => SyntaxKind::MatchExpr,
                "!" => SyntaxKind::SendExpr,
                "?=" => SyntaxKind::MaybeMatchExpr,
                _ => SyntaxKind::BinaryOpExpr,
            };
            let w = self.wrap(at, kind);
            self.bump();
            if right {
                self.binary(level);
            } else {
                self.binary(level + 1);
            }
            self.close(w);
            if right {
                break;
            }
        }
    }

    fn unary(&mut self) {
        if matches!(self.peek(), "-" | "+" | "not" | "bnot") {
            let u = self.open(SyntaxKind::UnaryOpExpr);
            self.bump();
            self.unary();
            self.close(u);
        } else {
            self.postfix();
        }
    }

    fn postfix(&mut self) {
        let at = self.nodes.len();
        self.primary();
        loop {
            if self.peek() == ":" {
                let w = self.wrap(at, SyntaxKind::RemoteExpr);
                self.bump();
                self.primary();
                self.close(w);
            } else if self.peek() == "(" {
                let w = self.wrap(at, SyntaxKind::CallExpr);
                self.args();
                self.close(w);
            } else {
                break;
            }
        }
    }

    fn primary(&mut self) {
        match self.value() {
            Some(TokValue::Var) => return self.leaf(SyntaxKind::VarExpr),
            Some(TokValue::Atom(_)) => return self.leaf(SyntaxKind::AtomExpr),
            Some(TokValue::Integer(_)) => return self.leaf(SyntaxKind::IntegerExpr),
            Some(TokValue::Str(_)) => return self.leaf(SyntaxKind::StringExpr),
            Some(TokValue::Other) => {},
            None => panic!("unexpected end of input"),
        }
        match self.peek() {
            "(" => {
                let n = self.open(SyntaxKind::ParenExpr);
                self.bump();
                self.expr();
                self.expect(")");
                self.close(n);
            },
            "{" => {
                let n = self.open(SyntaxKind::TupleExpr);
                self.bump();
                if self.peek() != "}" {
                    self.expr();
                    while self.peek() == "," {
                        self.bump();
                        self.expr();
                    }
                }
                self.expect("}");
                self.close(n);
            },
            "[" => self.list(),
            "<<" => self.bitstring(),
            "#" => self.map(),
            "case" => {
                let n = self.open(SyntaxKind::CaseExpr);
                self.bump();
                self.expr();
                self.expect("of");
                self.clauses(SyntaxKind::Clause);
                self.expect("end");
                self.close(n);
            },
            "if" => {
                let n = self.open(SyntaxKind::IfExpr);
                self.bump();
                loop {
                    let c = self.open(SyntaxKind::IfClause);
                    let g = self.open(SyntaxKind::Guard);
                    self.expr();
                    while self.peek() == "," || self.peek() == ";" {
                        self.bump();
                        self.expr();
                    }
                    self.close(g);
                    self.expect("->");
                    self.body();
                    self.close(c);
                    if self.peek() == ";" {
                        self.bump();
                    } else {
                        break;
                    }
                }
                self.expect("end");
                self.close(n);
            },
            "receive" => {
                let n = self.open(SyntaxKind::ReceiveExpr);
                self.bump();
                if self.peek() != "after" && self.peek() != "end" {
                    self.clauses(SyntaxKind::Clause);
                }
                if self.peek() == "after" {
                    let a = self.open(SyntaxKind::ReceiveAfterSection);
                    self.bump();
                    self.expr();
                    self.expect("->");
                    self.body();
                    self.close(a);
                }
                self.expect("end");
                self.close(n);
            },
            "try" => {
                let n = self.open(SyntaxKind::TryExpr);
                self.bump();
                self.body();
                if self.peek() == "of" {
                    let s = self.open(SyntaxKind::TryOfSection);
                    self.bump();
                    self.clauses(SyntaxKind::Clause);
                    self.close(s);
                }
                if self.peek() == "catch" {
                    let s = self.open(SyntaxKind::TryCatchSection);
                    self.bump();
                    self.clauses(SyntaxKind::CatchClause);
                    self.close(s);
                }
                if self.peek() == "after" {
                    let s = self.open(SyntaxKind::TryAfterSection);
                    self.bump();
                    self.body();
                    self.close(s);
                }
                self.expect("end");
                self.close(n);
            },
            "begin" => {
                let n = self.open(SyntaxKind::BeginExpr);
                self.bump();
                self.body();
                self.expect("end");
                self.close(n);
            },
            "maybe" => {
                let n = self.open(SyntaxKind::MaybeExpr);
                self.bump();
                self.body();
                if self.peek() == "else" {
                    let s = self.open(SyntaxKind::MaybeElseSection);
                    self.bump();
                    self.clauses(SyntaxKind::Clause);
                    self.close(s);
                }
                self.expect("end");
                self.close(n);
            },
            "fun" => self.fun(),
            other => panic!("unexpected token {other:?} at {}", self.i),
        }
    }

    fn fun(&mut self) {
        let named = matches!(self.toks.get(self.i + 1).map(|t| &t.value), Some(TokValue::Var));
        let anonymous = self.peek_at(1) == "(";
        if !named && !anonymous {
            let n = self.open(SyntaxKind::LocalFunRef);
            self.bump();
            while self.peek() != "/" {
                self.bump();
            }
            self.bump();
            self.bump();
            self.close(n);
            return;
        }
        let n = self.open(if named { SyntaxKind::NamedFun } else { SyntaxKind::AnonymousFun });
        self.bump();
        loop {
            let c = self.open(SyntaxKind::Clause);
            if named {
                self.leaf(SyntaxKind::VarExpr);
            }
            self.clause_rest(c);
            if self.peek() == ";" {
                self.bump();
            } else {
                break;
            }
        }
        self.expect("end");
        self.close(n);
    }

    fn list(&mut self) {
        let n = self.open(SyntaxKind::ListExpr);
        self.bump();
        if self.peek() != "]" {
            self.expr();
            if self.peek() == "||" {
                self.nodes[n].kind = SyntaxKind::ListComprehension;
                self.bump();
                self.qualifiers();
            } else {
                while self.peek() == "," {
                    self.bump();
                    self.expr();
                }
                if self.peek() == "|" {
                    self.nodes[n].kind = SyntaxKind::ConsExpr;
                    self.bump();
                    self.expr();
                }
            }
        }
        self.expect("]");
        self.close(n);
    }

    fn bitstring(&mut self) {
        let n = self.open(SyntaxKind::BitstringExpr);
        self.bump();
        if self.peek() != ">>" {
            self.element();
            if self.peek() == "||" {
                self.nodes[n].kind = SyntaxKind::BinaryComprehension;
                self.bump();
                self.qualifiers();
            } else {
                while self.peek() == "," {
                    self.bump();
                    self.element();
                }
            }
        }
        self.expect(">>");
        self.close(n);
    }

    fn element(&mut self) {
        let e = self.open(SyntaxKind::BitstringElement);
        self.primary();
        if self.peek() == ":" {
            self.bump();
            self.primary();
        }
        if self.peek() == "/" {
            self.bump();
            self.bump();
            while self.peek() == "-" {
                self.bump();
                self.bump();
            }
        }
        self.close(e);
    }

    fn map(&mut self) {
        let n = self.open(SyntaxKind::MapExpr);
        self.expect("#");
        self.expect("{");
        if self.peek() != "}" {
            self.map_field();
            if self.peek() == "||" {
                self.nodes[n].kind = SyntaxKind::MapComprehension;
                self.bump();
                self.qualifiers();
            } else {
                while self.peek() == "," {
                    self.bump();
                    self.map_field();
                }
            }
        }
        self.expect("}");
        self.close(n);
    }

    fn map_field(&mut self) {
        let f = self.open(SyntaxKind::MapField);
        self.expr();
        assert!(self.peek() == "=>" || self.peek() == ":=", "at token {}", self.i);
        self.bump();
        self.expr();
        self.close(f);
    }

    fn qualifiers(&mut self) {
        loop {
            let at = self.nodes.len();
            self.generator_or_filter();
            if self.peek() == "&&" {
                let z = self.wrap(at, SyntaxKind::ZipQualifier);
                while self.peek() == "&&" {
                    self.bump();
                    self.generator_or_filter();
                }
                self.close(z);
            }
            if self.peek() == "," {
                self.bump();
            } else {
                break;
            }
        }
    }

    fn generator_or_filter(&mut self) {
        let at = self.nodes.len();
        if self.peek() == "<<" {
            self.bitstring();
        } else {
            self.expr();
        }
        let kind = match self.peek() {
            "<-" => SyntaxKind::Generator,
            "<:-" => SyntaxKind::StrictGenerator,
            "<=" => SyntaxKind::BitstringGenerator,
            "<:=" => SyntaxKind::StrictBitstringGenerator,
            ":=" => SyntaxKind::MapGenerator,
            _ => {
                let w = self.wrap(at, SyntaxKind::Filter);
                self.close(w);
                return;
            },
        };
        let w = self.wrap(at, kind);
        self.bump();
        self.expr();
        if kind == SyntaxKind::MapGenerator {
            if self.peek() == "<:-" {
                self.nodes[w].kind = SyntaxKind::StrictMapGenerator;
            } else {
                assert_eq!(self.peek(), "<-", "at token {}", self.i);
            }
            self.bump();
            self.expr();
        }
        self.close(w);
    }
}

/// Scans and preprocesses `src`, and gives each branch its parse forest.
fn analyzed(src: &str) -> Context {
    let mut ctx = Context::analyze("t.erl", src.to_string()).expect("test source must scan");
    for b in ctx.branches.iter_mut() {
        let mut p = TreeBuilder::new(&b.source_tokens);
        p.forms();
        let nodes = p.nodes;
        b.tree = SyntaxTree { nodes, diagnostics: Vec::new() };
    }
    assert!(ctx.is_ready());
    ctx
}

/// Runs a rule's `check` against `src` and returns the finding texts.
fn findings(check: fn(&Context, &elint::context::BranchContext) -> Vec<Finding>, src: &str) -> Vec<String> {
    let ctx = analyzed(src);
    check(&ctx, &ctx.branches[0]).into_iter().map(|f| f.span.text(&ctx.text).to_string()).collect()
}

fn finding_count(check: fn(&Context, &elint::context::BranchContext) -> Vec<Finding>, src: &str) -> usize {
    findings(check, src).len()
}

#[test]
fn flags_if_expression() {
    let src = "\
-module(t).
foo(N) ->
    if
        N > 0 ->
            positive;
        true ->
            zero
    end.
";
    assert_eq!(findings(case_over_if::check, src), ["if"]);
}

#[test]
fn flags_every_if_expression() {
    let src = "\
-module(t).
foo(N) ->
    if
        N > 0 ->
            positive;
        true ->
            zero
    end,
    if
        true ->
            ok
    end.
";
    assert_eq!(findings(case_over_if::check, src), ["if", "if"]);
}

#[test]
fn ignores_case() {
    let src = "\
-module(t).
foo(N) ->
    case N of
        _ ->
            ok
    end.
";
    assert!(findings(case_over_if::check, src).is_empty());
}

#[test]
fn flags_case_three_levels_deep() {
    let src = "\
-module(t).
foo(A, B, C) ->
    case A of
        a ->
            case B of
                b ->
                    case C of
                        c ->
                            ok
                    end
            end
    end.
";
    // Depths: A=1, B=2, C=3. C is reported.
    assert_eq!(findings(deep_case_nesting::check, src), ["case"]);
}

#[test]
fn flags_every_case_three_or_more_levels_deep() {
    let src = "\
-module(t).
foo(A, B, C, D, E) ->
    case A of
        a ->
            case B of
                b ->
                    case C of
                        c ->
                            case D of
                                d ->
                                    case E of
                                        e ->
                                            ok
                                    end
                            end
                    end
            end
    end.
";
    // Depths: A=1, B=2, C=3, D=4, E=5. C, D and E are reported.
    assert_eq!(findings(deep_case_nesting::check, src), ["case", "case", "case"]);
}

#[test]
fn ignores_case_two_levels_deep() {
    let src = "\
-module(t).
foo(A, B) ->
    case A of
        a ->
            case B of
                b ->
                    ok
            end
    end.
";
    assert!(findings(deep_case_nesting::check, src).is_empty());
}

#[test]
fn resets_depth_at_fun_boundary() {
    let src = "\
-module(t).
foo(A) ->
    case A of
        a ->
            fun() ->
                case 1 of
                    1 ->
                        case 2 of
                            2 ->
                                ok
                        end
                end
            end()
    end.
";
    // Without the reset the innermost case would be depth 3.
    assert!(findings(deep_case_nesting::check, src).is_empty());
}

#[test]
fn resets_depth_at_block_expressions() {
    let src = "\
-module(t).
foo(A, B, C) ->
    case A of
        a ->
            try
                case B of
                    b ->
                        case C of
                            c ->
                                ok
                        end
                end
            catch
                _:_ ->
                    error
            end
    end.
";
    // The `try` breaks the run: depths B=1, C=2.
    assert!(findings(deep_case_nesting::check, src).is_empty());
}

#[test]
fn resets_depth_at_container_literals() {
    let src = "\
-module(t).
foo(A, B, C) ->
    case A of
        a ->
            {case B of
                b ->
                    case C of
                        c ->
                            ok
                    end
            end}
    end.
";
    // The tuple breaks the run: depths B=1, C=2.
    assert!(findings(deep_case_nesting::check, src).is_empty());
}

#[test]
fn flags_local_element_2_with_integer_index() {
    let src = "-module(t).\nfoo(T) -> element(1, T).\n";
    assert_eq!(findings(element_bif::check, src), ["element(1, T)"]);
}

#[test]
fn flags_erlang_element_2() {
    let src = "-module(t).\nfoo(T) -> erlang:element(1, T).\n";
    assert_eq!(findings(element_bif::check, src), ["erlang:element(1, T)"]);
}

#[test]
fn ignores_other_modules() {
    let src = "-module(t).\nfoo(T) -> lists:element(1, T).\n";
    assert!(findings(element_bif::check, src).is_empty());
}

#[test]
fn ignores_wrong_arity() {
    let src = "-module(t).\nfoo(T) -> element(1, T, extra).\n";
    assert!(findings(element_bif::check, src).is_empty());
}

#[test]
fn ignores_non_integer_index() {
    let src = "-module(t).\nfoo(N, T) -> element(N, T).\n";
    assert!(findings(element_bif::check, src).is_empty());
}

#[test]
fn flags_list_generator() {
    let src = "-module(t).\nfoo() -> [X || X <- [1, 2, 3]].\n";
    assert_eq!(findings(strict_generator::check, src), ["<-"]);
}

#[test]
fn flags_bitstring_generator() {
    let src = "-module(t).\nfoo() -> [X || <<X:8>> <= <<1, 2, 3>>].\n";
    assert_eq!(findings(strict_generator::check, src), ["<="]);
}

#[test]
fn flags_map_generator() {
    let src = "-module(t).\nfoo(M) -> #{K => V || K := V <- M}.\n";
    assert_eq!(findings(strict_generator::check, src), ["<-"]);
}

#[test]
fn ignores_strict_list_generator() {
    let src = "-module(t).\nfoo() -> [X || X <:- [1, 2, 3]].\n";
    assert!(findings(strict_generator::check, src).is_empty());
}

#[test]
fn ignores_strict_bitstring_generator() {
    let src = "-module(t).\nfoo() -> [X || <<X:8>> <:= <<1, 2, 3>>].\n";
    assert!(findings(strict_generator::check, src).is_empty());
}

#[test]
fn ignores_strict_map_generator() {
    let src = "-module(t).\nfoo(M) -> #{K => V || K := V <:- M}.\n";
    assert!(findings(strict_generator::check, src).is_empty());
}

#[test]
fn ignores_zip_generator() {
    let src = "-module(t).\nfoo() -> [{X, Y} || X <- [1, 2] && Y <- [3, 4]].\n";
    assert!(findings(strict_generator::check, src).is_empty());
}

#[test]
fn flags_each_generator_in_a_comprehension_once() {
    let src = "-module(t).\nfoo() -> [[X || X <- L] || L <- [[1], [2]]].\n";
    assert_eq!(findings(strict_generator::check, src), ["<-", "<-"]);
}

#[test]
fn flags_inline_function_clause() {
    let src = "-module(t).\nfoo() -> ok.\n";
    assert_eq!(findings(newline_after_arrow::check, src), ["->"]);
}

#[test]
fn flags_inline_case_clause() {
    let src = "-module(t).\nfoo() ->\n    case 1 of 1 -> ok end.\n";
    assert_eq!(finding_count(newline_after_arrow::check, src), 1);
}

#[test]
fn flags_inline_if_clause() {
    let src = "-module(t).\nfoo() ->\n    if true -> ok end.\n";
    assert_eq!(finding_count(newline_after_arrow::check, src), 1);
}

#[test]
fn flags_inline_receive_after() {
    let src = "-module(t).\nfoo() ->\n    receive after 0 -> ok end.\n";
    assert_eq!(finding_count(newline_after_arrow::check, src), 1);
}

#[test]
fn flags_inline_catch_clause() {
    let src = "-module(t).\nfoo() ->\n    try 1 catch _:_ -> ok end.\n";
    assert_eq!(finding_count(newline_after_arrow::check, src), 1);
}

#[test]
fn ignores_one_line_anon_fun_clause() {
    let src = "-module(t).\nfoo() ->\n    fun() -> ok end.\n";
    assert!(findings(newline_after_arrow::check, src).is_empty());
}

#[test]
fn ignores_one_line_named_fun_clause() {
    let src = "-module(t).\nfoo() ->\n    fun F() -> ok end.\n";
    assert!(findings(newline_after_arrow::check, src).is_empty());
}

#[test]
fn flags_multi_line_fun_clause_without_newline() {
    let src = "-module(t).\nfoo() ->\n    fun(X) -> X + 1\n    end.\n";
    assert_eq!(finding_count(newline_after_arrow::check, src), 1);
}

#[test]
fn flags_nested_inner_clause_once() {
    let src = "\
-module(t).
foo() ->
    case 1 of
        1 ->
            case 2 of
                2 -> ok
            end
    end.
";
    assert_eq!(finding_count(newline_after_arrow::check, src), 1);
}

#[test]
fn ignores_newline_after_arrow() {
    let src = "-module(t).\nfoo() ->\n    ok.\n";
    assert!(findings(newline_after_arrow::check, src).is_empty());
}

#[test]
fn ignores_same_line_comment_then_newline() {
    let src = "-module(t).\nfoo() -> % note\n    ok.\n";
    assert!(findings(newline_after_arrow::check, src).is_empty());
}

#[test]
fn ignores_spec_arrow() {
    let src = "-module(t).\n-spec foo() -> ok.\nfoo() ->\n    ok.\n";
    assert!(findings(newline_after_arrow::check, src).is_empty());
}

#[test]
fn ignores_map_arrow_and_maybe_match() {
    let src = "\
-module(t).
foo() ->
    _ = #{a => b},
    maybe
        X ?= {ok, 1},
        X
    else
        _ ->
            error
    end.
";
    assert!(findings(newline_after_arrow::check, src).is_empty());
}

#[test]
fn ignores_macro_expanded_arrow() {
    let src = "-module(t).\n-define(F, f() -> ok).\n?F.\n";
    assert!(findings(newline_after_arrow::check, src).is_empty());
}

#[test]
fn accepts_conventional_header_order() {
    let src = "\
-module(t).
-behaviour(gen_server).
-export([f/0]).
-export_type([t/0]).
-include(\"a.hrl\").
-include_lib(\"b/include/b.hrl\").
-record(r, {a}).
-type t() :: ok.
-define(A, 1).
-spec f() -> ok.
f() ->
    ok.
";
    assert!(findings(attr_order::check, src).is_empty());
}

#[test]
fn accepts_define_type_record_any_order_in_group() {
    let src = "\
-module(t).
-export([f/0]).
-include(\"a.hrl\").
-define(A, 1).
-type t() :: ok.
-record(r, {a}).
f() ->
    ok.
";
    assert!(findings(attr_order::check, src).is_empty());
}

#[test]
fn accepts_define_and_include_inside_ifdef_test() {
    let src = "\
-module(t).
-export([f/0]).
-include(\"a.hrl\").
-type t() :: ok.
f() ->
    ok.

-ifdef(TEST).
-define(TEST_MACRO, 1).
-include_lib(\"eunit/include/eunit.hrl\").
-endif.
";
    assert!(findings(attr_order::check, src).is_empty());
}

#[test]
fn flags_define_after_function_outside_test() {
    let src = "\
-module(t).
-export([f/0]).
f() ->
    ok.
-define(TEST_MACRO, 1).
";
    assert_eq!(findings(attr_order::check, src), ["define"]);
}

#[test]
fn flags_export_after_include() {
    let src = "\
-module(t).
-include(\"a.hrl\").
-export([f/0]).
f() ->
    ok.
";
    assert_eq!(findings(attr_order::check, src), ["export"]);
}

#[test]
fn flags_include_after_type() {
    let src = "\
-module(t).
-export([f/0]).
-type t() :: ok.
-include(\"a.hrl\").
f() ->
    ok.
";
    assert_eq!(findings(attr_order::check, src), ["include"]);
}

#[test]
fn flags_type_after_function() {
    let src = "\
-module(t).
-export([f/0]).
f() ->
    ok.
-type t() :: ok.
";
    assert_eq!(findings(attr_order::check, src), ["type"]);
}

#[test]
fn flags_record_after_function_even_inside_test() {
    let src = "\
-module(t).
-export([f/0]).
f() ->
    ok.
-ifdef(TEST).
-record(r, {a}).
-endif.
";
    assert_eq!(findings(attr_order::check, src), ["record"]);
}

#[test]
fn flags_opaque_after_function() {
    let src = "\
-module(t).
-export([f/0]).
f() ->
    ok.
-opaque t() :: ok.
";
    assert_eq!(findings(attr_order::check, src), ["opaque"]);
}

#[test]
fn ignores_spec_beside_function() {
    let src = "\
-module(t).
-export([f/0]).
-spec f() -> ok.
f() ->
    ok.
";
    assert!(findings(attr_order::check, src).is_empty());
}

fn element_bif_findings(ctx: &Context) -> Vec<elint::span::Span> {
    let mut out = Vec::new();
    for branch in &ctx.branches {
        out.extend(element_bif::check(ctx, branch).into_iter().map(|f| f.span));
    }
    out
}

#[test]
fn reads_attribute_and_suppresses_finding() {
    let src = "\
-module(t).
-elint_expect(element_bif, {function, foo, 1}, \"dynamic tuple shape\").
foo(T) ->
    element(1, T).
";
    let ctx = analyzed(src);
    let mut expect = ExpectRules::new(&ctx, &[]).expect("expect");
    assert_eq!(expect.rules.len(), 1);
    assert_eq!(expect.rules[0].name, "element_bif");
    assert!(matches!(
        expect.rules[0].target,
        ExpectTarget::Function(ref name, 1) if name == "foo"
    ));
    assert_eq!(expect.rules[0].reason, "dynamic tuple shape");
    assert_eq!(expect.rules[0].scope_spans.len(), 1);
    assert_eq!(
        expect.rules[0].scope_spans[0].text(&ctx.text),
        "foo(T) ->\n    element(1, T)"
    );

    let spans = element_bif_findings(&ctx);
    assert_eq!(spans.len(), 1);
    assert!(expect.handle_error("element_bif", spans[0]));
    assert!(expect.unmatched_expectations().is_empty());
}

#[test]
fn suppresses_finding_inside_any_clause_of_target() {
    let src = "\
-module(t).
-elint_expect(element_bif, {function, foo, 1}, \"dynamic tuple shape\").
foo(0) ->
    ok;
foo(T) ->
    element(1, T).
";
    let ctx = analyzed(src);
    let mut expect = ExpectRules::new(&ctx, &[]).expect("expect");
    let spans = element_bif_findings(&ctx);
    assert_eq!(spans.len(), 1);
    assert!(expect.handle_error("element_bif", spans[0]));
    assert!(expect.unmatched_expectations().is_empty());
}

#[test]
fn does_not_suppress_finding_outside_target() {
    let src = "\
-module(t).
-elint_expect(element_bif, {function, foo, 1}, \"dynamic tuple shape\").
foo(T) ->
    element(1, T).
bar(T) ->
    element(1, T).
";
    let ctx = analyzed(src);
    let mut expect = ExpectRules::new(&ctx, &[]).expect("expect");
    let spans = element_bif_findings(&ctx);
    assert_eq!(spans.len(), 2);
    assert!(expect.handle_error("element_bif", spans[0]));
    assert!(!expect.handle_error("element_bif", spans[1]));
    assert_eq!(expect.unmatched_expectations().len(), 0);
}

#[test]
fn distinct_rule_names_do_not_match() {
    let src = "\
-module(t).
-elint_expect(newline_after_arrow, {function, foo, 0}, \"one-line clause\").
foo() -> ok.
";
    let ctx = analyzed(src);
    let mut expect = ExpectRules::new(&ctx, &[]).expect("expect");
    assert_eq!(expect.rules.len(), 1);
    let spans = element_bif_findings(&ctx);
    assert!(spans.is_empty());
    assert!(!expect.handle_error("element_bif", Span::new(0, 0)));
    assert_eq!(expect.unmatched_expectations().len(), 1);
}

#[test]
fn multiple_attributes_for_one_function() {
    let src = "\
-module(t).
-elint_expect(element_bif, {function, foo, 1}, \"dynamic tuple shape\").
-elint_expect(element_bif, {function, bar, 1}, \"dynamic tuple shape\").
foo(T) ->
    element(1, T).
bar(T) ->
    element(1, T).
";
    let ctx = analyzed(src);
    let mut expect = ExpectRules::new(&ctx, &[]).expect("expect");
    assert_eq!(expect.rules.len(), 2);
    let spans = element_bif_findings(&ctx);
    assert_eq!(spans.len(), 2);
    assert!(expect.handle_error("element_bif", spans[0]));
    assert!(expect.handle_error("element_bif", spans[1]));
    assert!(expect.unmatched_expectations().is_empty());
}

#[test]
fn module_target_suppresses_finding_anywhere() {
    let src = "\
-module(t).
-elint_expect(element_bif, module, \"dynamic tuple shape\").
foo(T) ->
    element(1, T).
bar(T) ->
    element(1, T).
";
    let ctx = analyzed(src);
    let mut expect = ExpectRules::new(&ctx, &[]).expect("expect");
    assert_eq!(expect.rules.len(), 1);
    assert!(matches!(expect.rules[0].target, ExpectTarget::Module));
    assert_eq!(
        expect.rules[0].scope_spans,
        vec![Span::new(0, ctx.text.len())]
    );
    let spans = element_bif_findings(&ctx);
    assert_eq!(spans.len(), 2);
    assert!(expect.handle_error("element_bif", spans[0]));
    assert!(expect.handle_error("element_bif", spans[1]));
    assert!(expect.unmatched_expectations().is_empty());
}

#[test]
fn module_target_still_requires_rule_name_match() {
    let src = "\
-module(t).
-elint_expect(element_bif, module, \"dynamic tuple shape\").
foo() ->
    ok.
";
    let ctx = analyzed(src);
    let mut expect = ExpectRules::new(&ctx, &[]).expect("expect");
    assert!(!expect.handle_error("newline_after_arrow", Span::new(0, 0)));
    assert_eq!(expect.unmatched_expectations().len(), 1);
}

#[test]
fn unknown_target_tag_is_an_error() {
    let src = "\
-module(t).
-elint_expect(element_bif, {record, foo}, \"reason\").
foo() ->
    ok.
";
    let err = ExpectRules::new(&analyzed(src), &[]).expect_err("expect must fail");
    assert!(
        err.reason.contains("invalid -elint_expect payload"),
        "{:?}",
        err.reason
    );
}

#[test]
fn missing_reason_is_an_error() {
    let src = "\
-module(t).
-elint_expect(element_bif, {function, foo, 1}).
foo(T) ->
    element(1, T).
";
    let err = ExpectRules::new(&analyzed(src), &[]).expect_err("expect must fail");
    assert!(err.reason.contains("missing reason"), "{:?}", err.reason);
}

#[test]
fn unknown_rule_is_an_error() {
    let src = "\
-module(t).
-elint_expect(no_such_rule, {function, foo, 0}, \"reason\").
foo() ->
    ok.
";
    let err = ExpectRules::new(&analyzed(src), &[]).expect_err("expect must fail");
    assert!(err.reason.contains("unknown rule"), "{:?}", err.reason);
}

#[test]
fn nonexistent_function_is_an_error() {
    let src = "\
-module(t).
-elint_expect(element_bif, {function, no_such, 0}, \"reason\").
foo() ->
    ok.
";
    let err = ExpectRules::new(&analyzed(src), &[]).expect_err("expect must fail");
    assert!(err.reason.contains("unknown function"), "{:?}", err.reason);
}

#[test]
fn invalid_payload_is_an_error() {
    let src = "\
-module(t).
-elint_expect(element_bif).
foo() ->
    ok.
";
    let err = ExpectRules::new(&analyzed(src), &[]).expect_err("expect must fail");
    assert!(
        err.reason.contains("invalid -elint_expect payload"),
        "{:?}",
        err.reason
    );
}

#[test]
fn filter_ignores_expectations_for_unlinted_rules() {
    let src = "\
-module(t).
-elint_expect(newline_after_arrow, {function, foo, 0}, \"one-line clause\").
foo() -> ok.
";
    let ctx = analyzed(src);
    let expect = ExpectRules::new(&ctx, &["element_bif".to_string()]).expect("expect");
    assert!(expect.rules.is_empty());
    assert!(expect.unmatched_expectations().is_empty());
}

#[test]
fn filter_ignores_unknown_rule_outside_the_filter() {
    let src = "\
-module(t).
-elint_expect(no_such_rule, {function, foo, 0}, \"reason\").
foo() ->
    ok.
";
    let ctx = analyzed(src);
    let expect = ExpectRules::new(&ctx, &["element_bif".to_string()]).expect("expect");
    assert!(expect.rules.is_empty());
}

#[test]
fn filter_ignores_missing_reason_outside_the_filter() {
    let src = "\
-module(t).
-elint_expect(newline_after_arrow, {function, foo, 0}).
foo() ->
    ok.
";
    let ctx = analyzed(src);
    let expect = ExpectRules::new(&ctx, &["element_bif".to_string()]).expect("expect");
    assert!(expect.rules.is_empty());
}

#[test]
fn filter_ignores_unknown_function_outside_the_filter() {
    let src = "\
-module(t).
-elint_expect(newline_after_arrow, {function, no_such, 0}, \"reason\").
foo() ->
    ok.
";
    let ctx = analyzed(src);
    let expect = ExpectRules::new(&ctx, &["element_bif".to_string()]).expect("expect");
    assert!(expect.rules.is_empty());
}

#[test]
fn filter_keeps_validation_for_linted_rules() {
    let src = "\
-module(t).
-elint_expect(no_such_rule, {function, foo, 0}, \"reason\").
foo() ->
    ok.
";
    let err = ExpectRules::new(&analyzed(src), &["no_such_rule".to_string()])
        .expect_err("expect must fail");
    assert!(err.reason.contains("unknown rule"), "{:?}", err.reason);
}

#[test]
fn filter_keeps_invalid_payload_error_even_when_filtered() {
    let src = "\
-module(t).
-elint_expect(123, module, \"reason\").
foo() ->
    ok.
";
    let err = ExpectRules::new(&analyzed(src), &["element_bif".to_string()])
        .expect_err("expect must fail");
    assert!(
        err.reason.contains("invalid -elint_expect payload"),
        "{:?}",
        err.reason
    );
}

#[test]
fn filter_ignores_malformed_target_outside_the_filter() {
    let src = "\
-module(t).
-elint_expect(element_bif, {record, foo}, \"reason\").
foo() ->
    ok.
";
    let expect = ExpectRules::new(&analyzed(src), &["newline_after_arrow".to_string()]).expect("expect");
    assert!(expect.rules.is_empty());
}

#[test]
fn filter_keeps_malformed_target_error_for_linted_rules() {
    let src = "\
-module(t).
-elint_expect(element_bif, {record, foo}, \"reason\").
foo() ->
    ok.
";
    let err = ExpectRules::new(&analyzed(src), &["element_bif".to_string()]).expect_err("expect must fail");
    assert!(err.reason.contains("invalid -elint_expect payload"), "{:?}", err.reason);
}

#[test]
fn binary_reason_is_a_missing_reason() {
    let src = "\
-module(t).
-elint_expect(element_bif, module, <<\"x\">>).
foo() ->
    ok.
";
    let err = ExpectRules::new(&analyzed(src), &[]).expect_err("expect must fail");
    assert!(err.reason.contains("missing reason"), "{:?}", err.reason);
}

#[test]
fn first_bad_expectation_is_the_error() {
    let src = "\
-module(t).
-elint_expect(no_such_rule, module, \"reason\").
-elint_expect(element_bif, module).
foo() ->
    ok.
";
    let err = ExpectRules::new(&analyzed(src), &[]).expect_err("expect must fail");
    assert!(err.reason.contains("unknown rule"), "{:?}", err.reason);
    assert_eq!(err.span.start, src.find("-elint_expect").expect("attr"));
}

#[test]
fn expectation_is_unmet_exactly_when_no_finding_hits_it() {
    let src = "\
-module(t).
-elint_expect(element_bif, module, \"reason\").
-elint_expect(case_over_if, module, \"reason\").
foo() ->
    ok.
";
    let mut expect = ExpectRules::new(&analyzed(src), &[]).expect("expect");
    assert!(!expect.handle_error("newline_after_arrow", Span::new(0, 1)));
    assert!(expect.handle_error("element_bif", Span::new(0, 1)));
    assert!(expect.handle_error("element_bif", Span::new(2, 3)));
    let unmet = expect.unmatched_expectations();
    assert_eq!(unmet.len(), 1);
    assert_eq!(unmet[0].name, "case_over_if");
}

fn analyze_ok(src: &str) -> Context {
    Context::analyze("t.erl", src.to_string()).expect("test source must scan")
}

fn root_count(tree: &SyntaxTree) -> usize {
    let mut n = 0;
    let mut i = 0;
    while i < tree.nodes.len() {
        n += 1;
        i = tree.nodes[i].subtree_end;
    }
    n
}

fn branch_text(branch: &elint::context::BranchContext) -> String {
    branch.source_tokens.iter().map(|t| t.text.as_str()).collect()
}

#[test]
fn analyze_module_yields_mainline_branch() {
    let ctx = analyzed("-module(foo).\n");
    let branch = &ctx.branches[0];
    assert!(branch.tree.diagnostics.is_empty());
    assert!(!branch.source_tokens.is_empty());
    assert_eq!(root_count(&branch.tree), 1);
}

#[test]
fn unknown_macro_expands_to_dummy_atom_without_diagnostic() {
    let ctx = analyzed("-module(foo).\nfoo() -> ?BAR.\n");
    let branch = &ctx.branches[0];
    assert!(branch.preprocess_diagnostics.is_empty());
    assert!(branch.tree.diagnostics.is_empty());
    assert!(branch
        .source_tokens
        .iter()
        .any(|token| matches!(&token.value, TokValue::Atom(name) if name == elint::context::dummy_macro_atom())));
}

#[test]
fn include_is_skipped_without_leaving_the_file() {
    let ctx = analyzed("-module(foo).\n-include(\"missing.hrl\").\n");
    let branch = &ctx.branches[0];
    assert!(branch.tree.diagnostics.is_empty());
    assert_eq!(root_count(&branch.tree), 1);
}

#[test]
fn tokenize_error_is_returned() {
    let err = Context::analyze("t.erl", "\"unterminated\n".to_string()).expect_err("unclosed string must fail");
    assert!(err.offset < 20);
}

#[test]
fn explores_every_arm_and_keeps_mainline_first() {
    let ctx = analyze_ok(
        "\
-module(foo).
-ifdef(A).
foo() -> then_arm.
-else.
foo() -> else_arm.
-endif.
bar() -> ok.
",
    );
    assert_eq!(ctx.branches.len(), 2);
    let mainline_text = branch_text(&ctx.branches[0]);
    assert!(mainline_text.contains("then_arm"));
    assert!(mainline_text.contains("bar()"));
    let side_text = branch_text(&ctx.branches[1]);
    assert!(side_text.contains("else_arm"));
    assert!(!side_text.contains("bar()"));
    for branch in &ctx.branches {
        for i in 0..branch.source_tokens.len() {
            let Some(span) = branch.span_of_range(elint::syntax::TokenRange::single(i)) else {
                continue;
            };
            assert!(span.start < span.end);
        }
    }
}

#[test]
fn side_branch_stops_at_its_own_endif() {
    let ctx = analyze_ok(
        "\
-module(foo).
-ifdef(A).
ok.
-else.
foo() -> ok.
-endif.
bar() -> ok.
",
    );
    let side_text = branch_text(&ctx.branches[1]);
    assert!(side_text.contains("foo()"));
    assert!(!side_text.contains("bar()"));
}

#[test]
fn consecutive_ifdefs_do_not_form_cartesian_product() {
    let ctx = analyze_ok(
        "\
-module(foo).
-ifdef(A).
a1.
-else.
a2.
-endif.
-ifdef(B).
b1.
-else.
b2.
-endif.
",
    );
    assert_eq!(ctx.branches.len(), 3);
}

#[test]
fn nested_conditionals_explore_inner_arms() {
    let ctx = analyze_ok(
        "\
-module(foo).
-ifdef(A).
    -ifdef(B).
    n1.
    -else.
    n2.
    -endif.
-else.
    -ifdef(C).
    n3.
    -else.
    n4.
    -endif.
-endif.
",
    );
    assert_eq!(ctx.branches.len(), 4);
    let marker = |branch: &elint::context::BranchContext, m: &str| branch.source_tokens.iter().any(|t| t.text == m);
    assert!(marker(&ctx.branches[0], "n1"));
    let mut seen = std::collections::HashSet::new();
    for branch in &ctx.branches {
        let present: Vec<_> = ["n1", "n2", "n3", "n4"].into_iter().filter(|m| marker(branch, m)).collect();
        assert_eq!(present.len(), 1, "branch must contain exactly one marker: {present:?}");
        seen.insert(present[0]);
    }
    assert_eq!(seen.len(), 4);
}

#[test]
fn if_elif_chain_explores_every_arm() {
    let ctx = analyze_ok(
        "\
-module(foo).
-if(true). c1. -elif(false). c2. -elif(true). c3. -else. c4. -endif.
",
    );
    assert_eq!(ctx.branches.len(), 4);
    let mut seen = std::collections::HashSet::new();
    for branch in &ctx.branches {
        let present: Vec<_> = ["c1", "c2", "c3", "c4"]
            .into_iter()
            .filter(|m| branch.source_tokens.iter().any(|t| t.text == *m))
            .collect();
        assert_eq!(present.len(), 1, "branch must contain exactly one marker: {present:?}");
        seen.insert(present[0]);
    }
    assert_eq!(seen.len(), 4);
}

#[test]
fn findings_in_a_side_branch_are_reachable() {
    let ctx = analyzed(
        "\
-module(foo).
-ifdef(A).
ok.
-else.
foo(T) -> element(1, T).
-endif.
",
    );
    let branch = &ctx.branches[1];
    let rule = elint::rules::rules().into_iter().find(|rule| rule.name == "element_bif").expect("element_bif rule");
    let findings = rule.check(&ctx, branch);
    assert_eq!(findings.len(), 1);
    assert_eq!(findings[0].span.text(&ctx.text), "element(1, T)");
}

fn first_node(branch: &elint::context::BranchContext, kind: SyntaxKind) -> usize {
    branch.tree.nodes.iter().position(|n| n.kind == kind).expect("node of that kind")
}

#[test]
fn enclosing_function_name_resolves_function() {
    let ctx = analyzed("-module(t).\nfoo(A, B) ->\n    element(1, A).\n");
    let branch = &ctx.branches[0];
    let call = first_node(branch, SyntaxKind::CallExpr);
    assert_eq!(branch.enclosing_function_name(call).as_deref(), Some("foo/2"));
}

#[test]
fn enclosing_function_name_resolves_for_clause_node() {
    let ctx = analyzed("-module(t).\nfoo() -> ok.\n");
    let branch = &ctx.branches[0];
    let clause = first_node(branch, SyntaxKind::FunctionClause);
    assert_eq!(branch.enclosing_function_name(clause).as_deref(), Some("foo/0"));
}

#[test]
fn enclosing_function_name_is_none_outside_function() {
    let ctx = analyzed("-module(t).\nfoo() -> ok.\n");
    let branch = &ctx.branches[0];
    let attribute = first_node(branch, SyntaxKind::Attribute);
    assert_eq!(branch.enclosing_function_name(attribute), None);
}

fn lint(src: &str, targets: &[String]) -> Vec<elint::lint::Report> {
    let ctx = analyzed(src);
    let mut known = Vec::new();
    elint::lint::lint_reports(&ctx, targets, &mut known)
}

#[test]
fn lint_reports_finding_with_code_note_and_enclosing_function() {
    let src = "-module(t).\nfoo(T) ->\n    element(1, T).\n";
    let reports = lint(src, &["element_bif".to_string()]);
    assert_eq!(reports.len(), 1);
    assert_eq!(reports[0].code, Some("element_bif"));
    assert_eq!(reports[0].message, "Disallow `element/2` with a literal index; use pattern matching instead.");
    assert_eq!(reports[0].enclosing.as_deref(), Some("foo/1"));
    assert_eq!(reports[0].note.as_deref(), Some("run `elint --explain element_bif` for details"));
}

#[test]
fn lint_notes_only_the_first_report_of_a_rule() {
    let src = "-module(t).\nfoo(T) ->\n    element(1, T),\n    element(2, T).\n";
    let reports = lint(src, &["element_bif".to_string()]);
    assert_eq!(reports.len(), 2);
    assert!(reports[0].note.is_some());
    assert!(reports[1].note.is_none());
}

#[test]
fn lint_known_rules_get_no_note() {
    let ctx = analyzed("-module(t).\nfoo(T) ->\n    element(1, T).\n");
    let mut known = vec![elint::rules::RuleId::ElementBif];
    let reports = elint::lint::lint_reports(&ctx, &["element_bif".to_string()], &mut known);
    assert_eq!(reports.len(), 1);
    assert!(reports[0].note.is_none());
    assert_eq!(known, vec![elint::rules::RuleId::ElementBif]);
}

#[test]
fn lint_expectation_absorbs_finding() {
    let src = "\
-module(t).
-elint_expect(element_bif, {function, foo, 1}, \"dynamic tuple shape\").
foo(T) ->
    element(1, T).
";
    assert!(lint(src, &[]).is_empty());
}

#[test]
fn lint_reports_unmatched_expectation() {
    let src = "\
-module(t).
-elint_expect(element_bif, {function, foo, 0}, \"not needed\").
foo() ->
    ok.
";
    let reports = lint(src, &[]);
    assert_eq!(reports.len(), 1);
    assert_eq!(reports[0].code, None);
    assert_eq!(reports[0].message, "Lint Expectation Not Met: element_bif (foo/0): not needed");
    assert_eq!(reports[0].note.as_deref(), Some("run `elint --explain elint_expect_attr` for details"));
}

#[test]
fn lint_reports_expectation_error_alone() {
    let src = "\
-module(t).
-elint_expect(no_such_rule, {function, foo, 0}, \"reason\").
foo(T) ->
    element(1, T).
";
    let reports = lint(src, &[]);
    assert_eq!(reports.len(), 1);
    assert_eq!(reports[0].code, None);
    assert_eq!(reports[0].message, "unknown rule: no_such_rule");
}

#[test]
fn lint_runs_every_rule_without_targets() {
    let src = "-module(t).\nfoo(T) -> element(1, T).\n";
    let reports = lint(src, &[]);
    let codes: Vec<_> = reports.iter().map(|r| r.code).collect();
    assert_eq!(codes, vec![Some("element_bif"), Some("newline_after_arrow")]);
}

#[test]
fn lint_skips_rules_of_a_branch_with_parse_diagnostics() {
    let mut ctx = analyzed("-module(t).\nfoo(T) -> element(1, T).\n");
    ctx.branches[0].tree.diagnostics.push(elint::syntax::ParseDiagnostic {
        kind: elint::syntax::ParseDiagnosticKind::UnexpectedToken,
        expected: elint::syntax::Expected::Unspecified,
        start: 0,
        end: 1,
    });
    assert!(ctx.is_ready());
    let mut known = Vec::new();
    let reports = elint::lint::lint_reports(&ctx, &[], &mut known);
    assert_eq!(reports.len(), 1);
    assert_eq!(reports[0].code, None);
    assert_eq!(reports[0].message, "unexpected token");
    assert_eq!(reports[0].span, Span::new(0, 1));
    assert!(known.is_empty());
}

#[test]
fn ready_check_refuses_a_forest_outside_its_tokens() {
    let mut ctx = analyzed("-module(t).\n");
    let n = ctx.branches[0].source_tokens.len();
    ctx.branches[0].tree.nodes.push(SyntaxNode { kind: SyntaxKind::AtomExpr, start: n, end: n + 1, subtree_end: 3 });
    assert!(!ctx.is_ready());
}

#[test]
fn mainline_takes_the_first_arm_and_the_other_arm_gets_a_branch() {
    let ctx = analyze_ok("-module(foo).\n-ifdef(A).\na() -> 1.\n-else.\nb() -> 2.\n-endif.\nc() -> 3.\n");
    assert_eq!(ctx.branches.len(), 2);
    let has = |branch: &elint::context::BranchContext, m: &str| branch.source_tokens.iter().any(|t| t.text == m);
    assert!(has(&ctx.branches[0], "a") && !has(&ctx.branches[0], "b") && has(&ctx.branches[0], "c"));
    assert!(has(&ctx.branches[1], "b") && !has(&ctx.branches[1], "a") && !has(&ctx.branches[1], "c"));
}
