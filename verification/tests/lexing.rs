use emela::lexer::{lex, push_one, unsupported_escape, TokenKind};

fn text_of(source: &str) -> String {
    match lex(source).unwrap().remove(0).kind {
        TokenKind::String(value) => value,
        other => panic!("{other:?}"),
    }
}

fn error_of(source: &str) -> String {
    lex(source).unwrap_err().to_string()
}

#[test]
fn splits_declarations() {
    let tokens = lex("import a.b: struct enum x |> f > 1").unwrap();
    let text = tokens
        .iter()
        .map(|token| format!("{}:{:?}", token.pos, token.kind))
        .collect::<Vec<_>>()
        .join(" ");
    assert_eq!(
        text,
        "0:Import 7:Ident(\"a\") 8:Dot 9:Ident(\"b\") 10:Colon 12:Struct 19:Enum 24:Ident(\"x\") \
         26:Pipe 29:Ident(\"f\") 31:Gt 33:Int(1) 34:Eof"
    );
}

#[test]
fn reads_strings() {
    assert_eq!(text_of("\"\""), "");
    assert_eq!(text_of("\"plain text\""), "plain text");
    assert_eq!(text_of("\"a\\\"b\\\\c\\nd\\te\""), "a\"b\\c\nd\te");
    assert_eq!(text_of("\"h\u{e9}\u{4e16}\u{1f600}!\""), "h\u{e9}\u{4e16}\u{1f600}!");
    let tokens = lex("\"\u{e9}\" x").unwrap();
    assert_eq!(tokens[1].pos, 5);
    assert_eq!(tokens[2].pos, 6);
}

#[test]
fn a_quote_at_the_end_closes_a_string() {
    assert_eq!(text_of("\""), "");
    assert_eq!(text_of("\"a\\\""), "a\"");
}

#[test]
fn reports_errors_in_strings() {
    assert_eq!(error_of("x \"abc"), "unterminated string literal at byte 2");
    assert_eq!(error_of("\"abc\n\""), "unterminated string literal at byte 0");
    assert_eq!(error_of("\"abc\\"), "unterminated string literal at byte 0");
    assert_eq!(error_of("\"a\\q\""), "unsupported string escape 'q' at byte 3");
    assert_eq!(error_of("\"\\\u{1}\""), "unsupported string escape '\\u{1}' at byte 2");
    assert_eq!(
        unsupported_escape("'q'", 3).to_string(),
        "unsupported string escape 'q' at byte 3"
    );
}

#[test]
fn reports_other_errors() {
    assert_eq!(error_of("a | b"), "unexpected byte '|' at byte 2");
    assert_eq!(error_of("\t\u{0}"), "unexpected byte '\\0' at byte 1");
    assert_eq!(error_of("99999999999"), "integer literal out of I32 range at byte 0");
}

#[test]
fn tokens_stand_in_order() {
    let source = "fn f!(x: I32) -> I32 { -- no\n \"s\" |> g }";
    let tokens = lex(source).unwrap();
    for pair in tokens.windows(2) {
        assert!(pair[0].pos < pair[1].pos);
        assert!(pair[0].kind != TokenKind::Eof);
    }
    assert!(tokens.last().unwrap().kind == TokenKind::Eof);
    assert_eq!(tokens.last().unwrap().pos, source.len());
}

#[test]
fn push_one_adds_and_steps() {
    let mut tokens = Vec::new();
    let mut i = 0;
    push_one(&mut tokens, TokenKind::Colon, 0, &mut i);
    assert_eq!(i, 1);
    assert!(tokens[0].kind == TokenKind::Colon);
}

#[test]
fn string_literals_read_back() {
    let value = "quote \" slash \\ line \n tab \t bell \u{7} \u{e9}\u{4e16}\u{1f600}";
    let mut source = String::from("x \"");
    for c in value.chars() {
        match c {
            '"' => source.push_str("\\\""),
            '\\' => source.push_str("\\\\"),
            '\n' => source.push_str("\\n"),
            '\t' => source.push_str("\\t"),
            other => source.push(other),
        }
    }
    source.push_str("\" 12 |> y ");
    let tokens = lex(&source).unwrap();
    assert!(tokens[0].kind == TokenKind::Ident("x".to_string()));
    assert!(tokens[1].kind == TokenKind::String(value.to_string()));
    assert!(tokens[2].kind == TokenKind::Int(12));
    assert!(tokens[3].kind == TokenKind::Pipe);
    assert_eq!(tokens.len(), 6);
}
