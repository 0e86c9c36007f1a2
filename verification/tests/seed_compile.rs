use emela::seed::ast::{Block, BlockItem, Expr, Pattern, PrimType};
use emela::seed::compile::{compile_source, compile_to_rust};
use emela::seed::emit::{emit_block, emit_expr, emit_pattern, emit_rust, rust_name, rust_type};

#[test]
fn accepts_empty_main() {
    let (_, typed) = compile_source("fn main() {\n}\n").unwrap();
    assert_eq!(typed.functions[0].name, "main");
    assert_eq!(typed.functions[0].ret, PrimType::Unit);
}

#[test]
fn infers_i32_function() {
    let (_, typed) = compile_source(
        r#"
fn add(x, y) {
  x + y
}

fn main() {
  add(20, 22)
}
"#,
    )
    .unwrap();
    let add = typed
        .functions
        .iter()
        .find(|function| function.name == "add")
        .unwrap();
    assert_eq!(add.params, vec![PrimType::I32, PrimType::I32]);
    assert_eq!(add.ret, PrimType::I32);
}

#[test]
fn accepts_return_annotation_and_exits_with_main_i32() {
    let source = r#"
fn add(x, y) -> i32 {
  x + y
}

fn main() {
  add(20, 22)
}
"#;
    let (program, typed) = compile_source(source).unwrap();
    let main = typed
        .functions
        .iter()
        .find(|function| function.name == "main")
        .unwrap();
    assert_eq!(main.ret, PrimType::I32);

    let rust_source = emit_rust(&program, &typed);
    assert!(rust_source.contains("std::process::exit(_emela_result);"));
}

#[test]
fn emits_rust_match_expression() {
    let (program, typed) =
        compile_source("fn main() -> I32 { match true { true -> 1 false -> 0 } }").unwrap();
    let rust_source = emit_rust(&program, &typed);
    assert!(rust_source.contains("match true { true => 1i32, false => 0i32, }"));
}

#[test]
fn rejects_match_pattern_type_mismatch() {
    let error = compile_source("fn main() { match 1 { true -> 2 false -> 3 } }").unwrap_err();
    assert!(error.to_string().contains("type mismatch"));
}

fn error_of(source: &str) -> String {
    compile_source(source).unwrap_err().to_string()
}

#[test]
fn emits_a_whole_program() {
    let source = "fn wait!(n) { n == 0 }\n\
                  fn main() {\n  x = 2\n  x * 3 - 1 -- a comment\n  wait!(x)\n}\n";
    let text = compile_to_rust(source).unwrap();
    assert_eq!(
        text,
        "// Generated by the Emela compiler.\n\n\
         fn wait_effect(n: i32) -> bool {\n    {\n        (n == 0i32)\n    }\n}\n\n\
         fn main() {\n    let _emela_result: bool = {\n        let x = 2i32;\n        \
         let _ = x.wrapping_mul(3i32).wrapping_sub(1i32);\n        wait_effect(x)\n    };\n    \
         std::process::exit(if _emela_result { 0 } else { 1 });\n}\n\n"
    );
}

#[test]
fn emits_unit_main_without_exit() {
    let text = compile_to_rust("fn main() { x = 1 }").unwrap();
    assert_eq!(
        text,
        "// Generated by the Emela compiler.\n\n\
         fn main() {\n    let _emela_result: () = {\n        let x = 1i32;\n        ()\n    };\n}\n\n"
    );
}

#[test]
fn compile_to_rust_is_emit_after_compile() {
    let source = "fn main() -> I32 { match true { true -> 1 false -> 0 } }";
    let (program, typed) = compile_source(source).unwrap();
    assert_eq!(compile_to_rust(source).unwrap(), emit_rust(&program, &typed));
    assert_eq!(
        compile_to_rust("fn f() {}").unwrap_err().to_string(),
        error_of("fn f() {}")
    );
}

#[test]
fn infers_through_calls_and_blocks() {
    let (_, typed) = compile_source(
        "fn pick(c, a) { match c { true -> a false -> { 7 } } }\nfn main() { pick(1 < 2, 3) }",
    )
    .unwrap();
    assert_eq!(typed.functions[0].params, vec![PrimType::Bool, PrimType::I32]);
    assert_eq!(typed.functions[0].ret, PrimType::I32);
    assert_eq!(typed.functions[1].ret, PrimType::I32);
}

#[test]
fn keeps_the_order_of_functions() {
    let (program, typed) =
        compile_source("fn b() { 1 }\nfn main() {}\nfn a(x) { x + b() }").unwrap();
    let names: Vec<&str> = typed.functions.iter().map(|f| f.name.as_str()).collect();
    assert_eq!(names, vec!["b", "main", "a"]);
    assert_eq!(program.functions.len(), 3);
}

#[test]
fn reports_parser_errors() {
    assert_eq!(error_of("fn main() { 1 + }"), "expected expression at byte 16");
    assert_eq!(error_of("fn main( { 1 }"), "expected identifier at byte 9");
    assert_eq!(error_of("fn main) {}"), "expected LParen at byte 7");
    assert_eq!(error_of("fn main() { 1"), "unterminated block");
    assert_eq!(error_of("fn main() { match 1 { 2 -> 3"), "unterminated match expression");
    assert_eq!(error_of("fn main() { match 1 { + -> 3 } }"), "expected pattern at byte 22");
    assert_eq!(error_of("fn main() -> Text {}"), "unknown type `Text`");
    assert_eq!(error_of("fn main() { f! }"), "local variable names cannot end with !");
    assert_eq!(error_of("main"), "expected Fn at byte 0");
}

#[test]
fn reports_checker_errors() {
    assert_eq!(error_of("fn main() {}\nfn main() {}"), "duplicate top-level function `main`");
    assert_eq!(
        error_of("fn f() {}"),
        "executable program must contain exactly one top-level `main` function"
    );
    assert_eq!(error_of("fn main(x) { x + 1 }"), "`main` must take zero parameters");
    assert_eq!(
        error_of("fn f(a, a) { a }\nfn main() {}"),
        "duplicate parameter `a` in function `f`"
    );
    assert_eq!(
        error_of("fn main() { x = 1\n x = 2 }"),
        "duplicate binding `x` in the same block"
    );
    assert_eq!(error_of("fn main() { y }"), "unknown local binding `y`");
    assert_eq!(error_of("fn main() { g() }"), "unknown function `g`");
    assert_eq!(
        error_of("fn f(a) { a + 1 }\nfn main() { f() }"),
        "function `f` expects 1 argument(s), got 0"
    );
    assert_eq!(
        error_of("fn main() { (1).show() }"),
        "method calls are parsed but trait method resolution is not implemented yet"
    );
    assert_eq!(
        error_of("fn main() { match 1 { } }"),
        "match expression must have at least one arm"
    );
    assert_eq!(
        error_of("fn main() { match 1 { 1 -> 2 } }"),
        "match expression is not exhaustive"
    );
    assert_eq!(
        error_of("fn main() { 1 + true }"),
        "type mismatch: expected Bool, got I32"
    );
    assert_eq!(
        error_of("fn f(x) { x }\nfn main() {}"),
        "could not infer parameter in `f`"
    );
    assert_eq!(
        error_of("fn f() { f() }\nfn main() {}"),
        "could not infer return type of `f`"
    );
    assert_eq!(
        error_of("fn f(x) { match x { _ -> 1 } }\nfn main() {}"),
        "could not infer match scrutinee type"
    );
}

#[test]
fn inner_blocks_do_not_bind_a_name_again() {
    assert_eq!(
        error_of("fn main() { x = 1\n { x = 2 } }"),
        "duplicate binding `x` in the same block"
    );
    assert!(compile_source("fn main() { { x = 2 }\n x = 1 }").is_ok());
}

#[test]
fn exhaustive_matches_cover_all_values() {
    assert!(compile_source("fn main() { match true { false -> 1 true -> 2 } }").is_ok());
    assert!(compile_source("fn main() { match () { () -> 1 } }").is_ok());
    assert!(compile_source("fn main() { match 3 { 1 -> 1 _ -> 2 } }").is_ok());
    assert_eq!(
        error_of("fn main() { match true { true -> 2 } }"),
        "match expression is not exhaustive"
    );
}

#[test]
fn attributes_are_skipped() {
    assert!(compile_source("#[pure]\n#[uses(a, b)]\nfn main() {\n}\n").is_ok());
    assert_eq!(error_of("#[1] fn main() {}"), "expected identifier at byte 2");
}

#[test]
fn names_with_a_mark_are_renamed() {
    assert_eq!(rust_name("wait!"), "wait_effect");
    assert_eq!(rust_name("wait"), "wait");
    assert_eq!(rust_type(PrimType::Unit), "()");
    assert_eq!(emit_pattern(&Pattern::Int(-3)), "-3i32");
    assert_eq!(emit_pattern(&Pattern::Wildcard), "_");
    assert_eq!(emit_expr(&Expr::Unit, 0), "()");
    assert_eq!(
        emit_block(
            &Block {
                items: vec![BlockItem::Expr(Expr::Bool(true))]
            },
            1
        ),
        "{\n        true\n    }"
    );
}

#[test]
fn operators_bind_by_level_and_to_the_left() {
    let body = |source: &str| {
        let text = compile_to_rust(&format!("fn main() {{ {source} }}")).unwrap();
        text.lines().nth(4).unwrap().trim().to_string()
    };
    assert_eq!(
        body("1 + 2 * 3 == 4 - 5 - 6"),
        "(1i32.wrapping_add(2i32.wrapping_mul(3i32)) == 4i32.wrapping_sub(5i32).wrapping_sub(6i32))"
    );
    assert_eq!(
        body("(1 + 2) * 3 - (4 - 5)"),
        "1i32.wrapping_add(2i32).wrapping_mul(3i32).wrapping_sub(4i32.wrapping_sub(5i32))"
    );
    assert_eq!(body("1 < 2 == true"), "((1i32 < 2i32) == true)");
}

#[test]
fn spelled_tokens_read_back() {
    let source = "fn go ! ( x ) -> I32 { y = ( x + 1 ) * x \n match y == 2 { true -> y \n _ -> 0 \n } \
                  \n } \n fn main ( ) { go ! ( 3 ) \n } \n ";
    let (program, typed) = compile_source(source).unwrap();
    assert_eq!(program.functions.len(), 2);
    assert_eq!(program.functions[0].name, "go!");
    assert_eq!(program.functions[0].params, vec!["x"]);
    assert_eq!(program.functions[0].return_annotation, Some(PrimType::I32));
    assert_eq!(program.functions[0].body.items.len(), 2);
    assert_eq!(typed.functions[0].params, vec![PrimType::I32]);
    let dense = "fn go!(x)->I32{y=(x+1)*x\nmatch y==2{true->y _->0}} fn main(){go!(3)}";
    assert_eq!(compile_to_rust(dense).unwrap(), compile_to_rust(source).unwrap());
}
