use emela::names::NameMap;
use emela::seed::ast::{Expr, Function, MatchArm, Pattern, PrimType, Program};
use emela::seed::checker::TypeChecker;
use emela::seed::lexer::{lex, push_one, TokenKind};
use emela::seed::parser::{kind_name, Parser};

fn kinds(source: &str) -> Vec<(usize, String)> {
    lex(source)
        .unwrap()
        .iter()
        .map(|token| (token.pos, kind_name(&token.kind)))
        .collect()
}

fn pairs(list: &[(usize, &str)]) -> Vec<(usize, String)> {
    list.iter().map(|(pos, kind)| (*pos, kind.to_string())).collect()
}

#[test]
fn seed_lexer_splits_text() {
    assert_eq!(
        kinds("fn f_1(x) -> i32 {\n  x == -1 -- note\n}"),
        pairs(&[
            (0, "Fn"),
            (3, "Ident(\"f_1\")"),
            (6, "LParen"),
            (7, "Ident(\"x\")"),
            (8, "RParen"),
            (10, "Arrow"),
            (13, "Ident(\"i32\")"),
            (17, "LBrace"),
            (18, "Newline"),
            (21, "Ident(\"x\")"),
            (23, "EqEq"),
            (26, "Minus"),
            (27, "Int(1)"),
            (36, "Newline"),
            (37, "RBrace"),
            (38, "Eof"),
        ])
    );
    assert_eq!(
        kinds("#[a]!<+*=,.match true false"),
        pairs(&[
            (0, "Hash"),
            (1, "LBracket"),
            (2, "Ident(\"a\")"),
            (3, "RBracket"),
            (4, "Bang"),
            (5, "Lt"),
            (6, "Plus"),
            (7, "Star"),
            (8, "Eq"),
            (9, "Comma"),
            (10, "Dot"),
            (11, "Match"),
            (17, "True"),
            (22, "False"),
            (27, "Eof"),
        ])
    );
}

#[test]
fn seed_lexer_reports_errors() {
    assert_eq!(lex("a \u{1}").unwrap_err().to_string(), "unexpected byte '\\u{1}' at byte 2");
    assert_eq!(lex("a ?").unwrap_err().to_string(), "unexpected byte '?' at byte 2");
    assert_eq!(lex("\u{e9}").unwrap_err().to_string(), "unexpected byte 'Ã' at byte 0");
    assert_eq!(
        lex(" 2147483648").unwrap_err().to_string(),
        "integer literal out of I32 range at byte 1"
    );
    assert_eq!(kinds("2147483647")[0].1, "Int(2147483647)");
    assert_eq!(kinds("007")[0].1, "Int(7)");
}

#[test]
fn seed_tokens_stand_in_order() {
    let tokens = lex("fn main() { 1 + 2 }\n").unwrap();
    for pair in tokens.windows(2) {
        assert!(pair[0].pos < pair[1].pos);
    }
    assert!(matches!(tokens.last().unwrap().kind, TokenKind::Eof));
    assert_eq!(tokens.last().unwrap().pos, 20);
}

#[test]
fn seed_push_one_steps() {
    let mut tokens = Vec::new();
    let mut i = 4;
    push_one(&mut tokens, TokenKind::Comma, 4, &mut i);
    assert_eq!(i, 5);
    assert_eq!(tokens.len(), 1);
    assert!(tokens[0].kind == TokenKind::Comma);
}

#[test]
fn parser_expects_tokens() {
    let mut parser = Parser::new(lex("x").unwrap());
    let error = parser.expect(&TokenKind::Ident("a\"b".to_string())).unwrap_err();
    assert_eq!(error.to_string(), "expected Ident(\"a\\\"b\") at byte 0");
    assert!(parser.at(&TokenKind::Ident("x".to_string())));
    assert!(!parser.eat(&TokenKind::Comma));
    assert_eq!(parser.expect_ident().unwrap(), "x");
    assert!(parser.peek_n(0).is_some());
    assert!(parser.peek_n(1).is_none());
}

#[test]
fn operators_bind_and_associate() {
    let mut parser = Parser::new(lex("1 - 2 - 3 * 4 < 5").unwrap());
    let text = format!("{:?}", parser.parse_expr().unwrap());
    assert_eq!(
        text,
        "Binary { op: Lt, left: Binary { op: Sub, left: Binary { op: Sub, left: Int(1), right: Int(2) }, \
         right: Binary { op: Mul, left: Int(3), right: Int(4) } }, right: Int(5) }"
    );
}

#[test]
fn programs_are_read_to_the_end() {
    let mut parser = Parser::new(lex("\nfn main() {}\n\n").unwrap());
    let program = parser.parse_program().unwrap();
    assert_eq!(program.functions.len(), 1);
    assert!(parser.at(&TokenKind::Eof));
}

#[test]
fn parser_reads_calls_on_values() {
    let mut parser = Parser::new(lex("f!(1, x).show(()).end()").unwrap());
    match parser.parse_expr().unwrap() {
        Expr::MethodCall { receiver, name, args } => {
            assert_eq!(name, "end");
            assert!(args.is_empty());
            match *receiver {
                Expr::MethodCall { receiver, name, args } => {
                    assert_eq!(name, "show");
                    assert!(matches!(args[0], Expr::Unit));
                    assert!(matches!(*receiver, Expr::Call { .. }));
                }
                other => panic!("{other:?}"),
            }
        }
        other => panic!("{other:?}"),
    }
}

fn program() -> Program {
    Program {
        functions: Vec::<Function>::new(),
    }
}

#[test]
fn unification_joins_slots() {
    let program = program();
    let mut checker = TypeChecker::new(&program);
    let a = checker.fresh();
    let b = checker.fresh();
    let c = checker.known(PrimType::Bool);
    assert_eq!((a, b, c), (0, 1, 2));
    assert!(checker.unify(a, b).is_ok());
    assert_eq!(checker.find(b), a);
    assert_eq!(
        checker.resolve_known(a, "it").unwrap_err().to_string(),
        "could not infer it"
    );
    assert!(checker.unify(b, c).is_ok());
    assert_eq!(checker.resolve_known(a, "it").unwrap(), PrimType::Bool);
    let d = checker.known(PrimType::I32);
    assert_eq!(
        checker.unify(a, d).unwrap_err().to_string(),
        "type mismatch: expected Bool, got I32"
    );
    assert!(checker.unify(d, d).is_ok());
}

#[test]
fn checker_tells_patterns_apart() {
    let program = program();
    let checker = TypeChecker::new(&program);
    assert_eq!(checker.pattern_type(&Pattern::Int(1)), Some(PrimType::I32));
    assert_eq!(checker.pattern_type(&Pattern::Wildcard), None);
    let arm = |pattern| MatchArm {
        pattern,
        expr: Expr::Unit,
    };
    let both = vec![arm(Pattern::Bool(false)), arm(Pattern::Bool(true))];
    assert!(checker.match_is_exhaustive(PrimType::Bool, &both));
    let one = vec![arm(Pattern::Bool(false))];
    assert!(!checker.match_is_exhaustive(PrimType::Bool, &one));
    let ints = vec![arm(Pattern::Int(0))];
    assert!(!checker.match_is_exhaustive(PrimType::I32, &ints));
}

#[test]
fn checker_types_expressions_in_scope() {
    let program = program();
    let mut checker = TypeChecker::new(&program);
    let x = checker.fresh();
    let mut scope = NameMap::new();
    scope.insert("x".to_string(), x);
    let sum = Parser::new(lex("x + 1").unwrap()).parse_expr().unwrap();
    let id = checker.check_expr(&sum, &scope).unwrap();
    assert_eq!(checker.resolve_known(id, "sum").unwrap(), PrimType::I32);
    assert_eq!(checker.resolve_known(x, "x").unwrap(), PrimType::I32);
}

#[test]
fn names_hide_earlier_ones() {
    let mut map: NameMap<usize> = NameMap::new();
    map.insert("a".to_string(), 1);
    map.insert("b".to_string(), 2);
    map.insert("a".to_string(), 3);
    assert_eq!(map.get("a").copied(), Some(3));
    assert!(map.contains_key("b"));
    assert!(!map.contains_key("c"));
    assert_eq!(map.copy().get("b").copied(), Some(2));
}

#[test]
fn a_trailing_comment_moves_the_end_only() {
    for source in ["fn f(x) { x - 1 }", "a -- note", "12", "x -", "", "a\n--"] {
        let before = lex(source).unwrap();
        let text = format!("{source} -- more \u{e9} -> \"");
        let after = lex(&text).unwrap();
        assert_eq!(after.len(), before.len());
        for i in 0..before.len() - 1 {
            assert!(after[i].kind == before[i].kind);
            assert_eq!(after[i].pos, before[i].pos);
        }
        assert!(after.last().unwrap().kind == TokenKind::Eof);
        assert_eq!(after.last().unwrap().pos, text.len());
    }
}

#[test]
fn trees_and_tokens_are_cloned() {
    let source = "fn f!(x) -> I32 { y = match x { 1 -> { x * 2 } _ -> g.h(1, ()) }\n f!(y) }";
    let tokens = lex(source).unwrap();
    let program = Parser::new(tokens.clone()).parse_program().unwrap();
    assert_eq!(format!("{:?}", tokens.clone()), format!("{tokens:?}"));
    assert_eq!(format!("{:?}", program.clone()), format!("{program:?}"));
}
