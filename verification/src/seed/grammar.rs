//! The grammar of the seed language, as functions from a position in a list of tokens to the
//! position where reading stopped and what was read there.
use vstd::prelude::*;

use crate::error::Outcome;
use crate::seed::ast::{
    BinaryOp, BlockItemView, BlockView, ExprView, FunctionView, MatchArmView, Pattern, PrimType,
    ProgramView,
};
use crate::seed::lexer::{TokenKindView, TokenView};
use crate::text::{decimal, ends_with_bang, quoted, shown_str, signed_decimal};

verus! {

/// Where reading stopped, and what was read or why it failed.
pub type Parsed<T> = (int, Outcome<T>);

/// The kind of the token at a position; beyond the list, the end of the text.
pub open spec fn kind_at(t: Seq<TokenView>, at: int) -> TokenKindView {
    if 0 <= at < t.len() {
        t[at].kind
    } else {
        TokenKindView::Eof
    }
}

/// A token kind as diagnostics name it.
pub open spec fn kind_text(kind: TokenKindView) -> Seq<char> {
    match kind {
        TokenKindView::Fn => "Fn"@,
        TokenKindView::Match => "Match"@,
        TokenKindView::True => "True"@,
        TokenKindView::False => "False"@,
        TokenKindView::Ident(name) => quoted("Ident("@, shown_str(name), ")"@),
        TokenKindView::Int(value) => quoted("Int("@, signed_decimal(value as int), ")"@),
        TokenKindView::LParen => "LParen"@,
        TokenKindView::RParen => "RParen"@,
        TokenKindView::LBrace => "LBrace"@,
        TokenKindView::RBrace => "RBrace"@,
        TokenKindView::LBracket => "LBracket"@,
        TokenKindView::RBracket => "RBracket"@,
        TokenKindView::Comma => "Comma"@,
        TokenKindView::Dot => "Dot"@,
        TokenKindView::Hash => "Hash"@,
        TokenKindView::Bang => "Bang"@,
        TokenKindView::Eq => "Eq"@,
        TokenKindView::EqEq => "EqEq"@,
        TokenKindView::Arrow => "Arrow"@,
        TokenKindView::Lt => "Lt"@,
        TokenKindView::Plus => "Plus"@,
        TokenKindView::Minus => "Minus"@,
        TokenKindView::Star => "Star"@,
        TokenKindView::Newline => "Newline"@,
        TokenKindView::Eof => "Eof"@,
    }
}

/// "expected ... at byte ..."
pub open spec fn expected_text(what: Seq<char>, pos: int) -> Seq<char> {
    "expected "@ + what + " at byte "@ + decimal(pos as nat)
}

/// One token of the given kind.
pub open spec fn token(t: Seq<TokenView>, at: int, kind: TokenKindView) -> Parsed<()> {
    if kind_at(t, at) == kind {
        (at + 1, Ok(()))
    } else {
        (at, Err(expected_text(kind_text(kind), t[at].pos)))
    }
}

/// The position after any newlines.
pub open spec fn newlines(t: Seq<TokenView>, at: int) -> int
    decreases t.len() - at,
{
    if kind_at(t, at) == TokenKindView::Newline {
        newlines(t, at + 1)
    } else {
        at
    }
}

pub proof fn lemma_newlines(t: Seq<TokenView>, at: int)
    ensures
        at <= newlines(t, at),
        at <= t.len() ==> newlines(t, at) <= t.len(),
        kind_at(t, newlines(t, at)) != TokenKindView::Newline,
    decreases t.len() - at,
{
    if kind_at(t, at) == TokenKindView::Newline {
        lemma_newlines(t, at + 1);
    }
}

pub open spec fn identifier(t: Seq<TokenView>, at: int) -> Parsed<Seq<char>> {
    match kind_at(t, at) {
        TokenKindView::Ident(name) => (at + 1, Ok(name)),
        _ => (at, Err(expected_text("identifier"@, t[at].pos))),
    }
}

/// The rest of a list of identifiers: any number of `, name`.
pub open spec fn more_identifiers(
    t: Seq<TokenView>,
    at: int,
    names: Seq<Seq<char>>,
) -> Parsed<Seq<Seq<char>>>
    decreases t.len() - at,
{
    if kind_at(t, at) == TokenKindView::Comma {
        match identifier(t, at + 1) {
            (next, Ok(name)) => more_identifiers(t, next, names.push(name)),
            (next, Err(message)) => (next, Err(message)),
        }
    } else {
        (at, Ok(names))
    }
}

/// The identifiers before a closing parenthesis, separated by commas.
pub open spec fn identifiers(t: Seq<TokenView>, at: int) -> Parsed<Seq<Seq<char>>> {
    if kind_at(t, at) == TokenKindView::RParen {
        (at, Ok(Seq::empty()))
    } else {
        match identifier(t, at) {
            (next, Ok(name)) => more_identifiers(t, next, seq![name]),
            (next, Err(message)) => (next, Err(message)),
        }
    }
}

/// The names in parentheses after the name of an attribute, where there are any.
pub open spec fn attribute_arguments(t: Seq<TokenView>, at: int) -> Parsed<()> {
    if kind_at(t, at) == TokenKindView::LParen {
        match identifiers(t, at + 1) {
            (next, Ok(_)) => token(t, next, TokenKindView::RParen),
            (next, Err(message)) => (next, Err(message)),
        }
    } else {
        (at, Ok(()))
    }
}

/// One attribute, from its bracket on.
pub open spec fn attribute(t: Seq<TokenView>, at: int) -> Parsed<()> {
    match token(t, at, TokenKindView::LBracket) {
        (named, Ok(_)) => match identifier(t, named) {
            (next, Ok(_)) => match attribute_arguments(t, next) {
                (last, Ok(_)) => token(t, last, TokenKindView::RBracket),
                failure => failure,
            },
            (next, Err(message)) => (next, Err(message)),
        },
        failure => failure,
    }
}

/// Any number of attributes, with newlines before and between them.
#[verifier::opaque]
pub open spec fn attributes(t: Seq<TokenView>, at: int) -> Parsed<()>
    decreases t.len() - at,
{
    let start = newlines(t, at);
    if kind_at(t, start) == TokenKindView::Hash {
        match attribute(t, start + 1) {
            (next, Ok(_)) if at < next <= t.len() => attributes(t, next),
            failure => failure,
        }
    } else {
        (start, Ok(()))
    }
}

/// An identifier, and the exclamation mark that belongs to it where one follows.
pub open spec fn function_name(t: Seq<TokenView>, at: int) -> Parsed<Seq<char>> {
    match identifier(t, at) {
        (next, Ok(name)) => if kind_at(t, next) == TokenKindView::Bang {
            (next + 1, Ok(name.push('!')))
        } else {
            (next, Ok(name))
        },
        failure => failure,
    }
}

/// The type that a name stands for.
pub open spec fn type_named(name: Seq<char>) -> Option<PrimType> {
    if name == "I32"@ || name == "i32"@ {
        Some(PrimType::I32)
    } else if name == "Bool"@ || name == "bool"@ {
        Some(PrimType::Bool)
    } else if name == "Unit"@ || name == "unit"@ {
        Some(PrimType::Unit)
    } else {
        None
    }
}

pub open spec fn named_type(t: Seq<TokenView>, at: int) -> Parsed<PrimType> {
    match identifier(t, at) {
        (next, Ok(name)) => match type_named(name) {
            Some(ty) => (next, Ok(ty)),
            None => (next, Err("unknown type `"@ + name + "`"@)),
        },
        (next, Err(message)) => (next, Err(message)),
    }
}

/// The result type after an arrow, where there is one.
pub open spec fn annotation(t: Seq<TokenView>, at: int) -> Parsed<Option<PrimType>> {
    if kind_at(t, at) == TokenKindView::Arrow {
        match named_type(t, at + 1) {
            (next, Ok(ty)) => (next, Ok(Some(ty))),
            (next, Err(message)) => (next, Err(message)),
        }
    } else {
        (at, Ok(None))
    }
}

pub open spec fn pattern(t: Seq<TokenView>, at: int) -> Parsed<Pattern> {
    match kind_at(t, at) {
        TokenKindView::Int(value) => (at + 1, Ok(Pattern::Int(value))),
        TokenKindView::True => (at + 1, Ok(Pattern::Bool(true))),
        TokenKindView::False => (at + 1, Ok(Pattern::Bool(false))),
        TokenKindView::LParen => match token(t, at + 1, TokenKindView::RParen) {
            (next, Ok(_)) => (next, Ok(Pattern::Unit)),
            (next, Err(message)) => (next, Err(message)),
        },
        TokenKindView::Ident(name) if name == "_"@ => (at + 1, Ok(Pattern::Wildcard)),
        _ => (at, Err(expected_text("pattern"@, t[at].pos))),
    }
}

/// The comparison that a token stands for.
pub open spec fn comparison(kind: TokenKindView) -> Option<BinaryOp> {
    match kind {
        TokenKindView::EqEq => Some(BinaryOp::Eq),
        TokenKindView::Lt => Some(BinaryOp::Lt),
        _ => None,
    }
}

/// The additive operator that a token stands for.
pub open spec fn additive(kind: TokenKindView) -> Option<BinaryOp> {
    match kind {
        TokenKindView::Plus => Some(BinaryOp::Add),
        TokenKindView::Minus => Some(BinaryOp::Sub),
        _ => None,
    }
}

pub open spec fn binary(op: BinaryOp, left: ExprView, right: ExprView) -> ExprView {
    ExprView::Binary { op, left: Box::new(left), right: Box::new(right) }
}

#[verifier::opaque]
pub open spec fn expression(t: Seq<TokenView>, at: int) -> Parsed<ExprView>
    decreases t.len() - at, 7int,
{
    equality(t, at)
}

#[verifier::opaque]
pub open spec fn equality(t: Seq<TokenView>, at: int) -> Parsed<ExprView>
    decreases t.len() - at, 6int,
{
    match sum(t, at) {
        (next, Ok(left)) if at < next <= t.len() => more_equality(t, next, left),
        failure => failure,
    }
}

/// Comparisons associate to the left.
#[verifier::opaque]
pub open spec fn more_equality(t: Seq<TokenView>, at: int, left: ExprView) -> Parsed<ExprView>
    decreases t.len() - at, 0int,
{
    match comparison(kind_at(t, at)) {
        Some(op) => match sum(t, at + 1) {
            (next, Ok(right)) if at < next <= t.len() => more_equality(
                t,
                next,
                binary(op, left, right),
            ),
            failure => failure,
        },
        None => (at, Ok(left)),
    }
}

#[verifier::opaque]
pub open spec fn sum(t: Seq<TokenView>, at: int) -> Parsed<ExprView>
    decreases t.len() - at, 5int,
{
    match product(t, at) {
        (next, Ok(left)) if at < next <= t.len() => more_sum(t, next, left),
        failure => failure,
    }
}

/// Sums and differences associate to the left.
#[verifier::opaque]
pub open spec fn more_sum(t: Seq<TokenView>, at: int, left: ExprView) -> Parsed<ExprView>
    decreases t.len() - at, 0int,
{
    match additive(kind_at(t, at)) {
        Some(op) => match product(t, at + 1) {
            (next, Ok(right)) if at < next <= t.len() => more_sum(t, next, binary(op, left, right)),
            failure => failure,
        },
        None => (at, Ok(left)),
    }
}

#[verifier::opaque]
pub open spec fn product(t: Seq<TokenView>, at: int) -> Parsed<ExprView>
    decreases t.len() - at, 4int,
{
    match postfix(t, at) {
        (next, Ok(left)) if at < next <= t.len() => more_product(t, next, left),
        failure => failure,
    }
}

/// Products associate to the left.
#[verifier::opaque]
pub open spec fn more_product(t: Seq<TokenView>, at: int, left: ExprView) -> Parsed<ExprView>
    decreases t.len() - at, 0int,
{
    if kind_at(t, at) == TokenKindView::Star {
        match postfix(t, at + 1) {
            (next, Ok(right)) if at < next <= t.len() => more_product(
                t,
                next,
                binary(BinaryOp::Mul, left, right),
            ),
            failure => failure,
        }
    } else {
        (at, Ok(left))
    }
}

#[verifier::opaque]
pub open spec fn postfix(t: Seq<TokenView>, at: int) -> Parsed<ExprView>
    decreases t.len() - at, 3int,
{
    match primary(t, at) {
        (next, Ok(receiver)) if at < next <= t.len() => more_postfix(t, next, receiver),
        failure => failure,
    }
}

/// Any number of method calls on `receiver`.
#[verifier::opaque]
pub open spec fn more_postfix(t: Seq<TokenView>, at: int, receiver: ExprView) -> Parsed<ExprView>
    decreases t.len() - at, 0int,
{
    if kind_at(t, at) == TokenKindView::Dot {
        match identifier(t, at + 1) {
            (open, Ok(name)) => match token(t, open, TokenKindView::LParen) {
                (first, Ok(_)) => match call_arguments(t, first) {
                    (next, Ok(args)) if at < next <= t.len() => more_postfix(
                        t,
                        next,
                        ExprView::MethodCall { receiver: Box::new(receiver), name, args },
                    ),
                    (next, Ok(_)) => (next, Ok(receiver)),
                    (next, Err(message)) => (next, Err(message)),
                },
                (next, Err(message)) => (next, Err(message)),
            },
            (next, Err(message)) => (next, Err(message)),
        }
    } else {
        (at, Ok(receiver))
    }
}

/// A list of arguments and the parenthesis that closes it.
#[verifier::opaque]
pub open spec fn call_arguments(t: Seq<TokenView>, at: int) -> Parsed<Seq<ExprView>>
    decreases t.len() - at, 9int,
{
    match arguments(t, at) {
        (close, Ok(args)) => match token(t, close, TokenKindView::RParen) {
            (next, Ok(_)) => (next, Ok(args)),
            (next, Err(message)) => (next, Err(message)),
        },
        failure => failure,
    }
}

/// The expressions before a closing parenthesis, separated by commas.
#[verifier::opaque]
pub open spec fn arguments(t: Seq<TokenView>, at: int) -> Parsed<Seq<ExprView>>
    decreases t.len() - at, 8int,
{
    if kind_at(t, at) == TokenKindView::RParen {
        (at, Ok(Seq::empty()))
    } else {
        match expression(t, at) {
            (next, Ok(first)) if at < next <= t.len() => more_arguments(t, next, seq![first]),
            (next, Ok(first)) => (next, Ok(seq![first])),
            (next, Err(message)) => (next, Err(message)),
        }
    }
}

#[verifier::opaque]
pub open spec fn more_arguments(t: Seq<TokenView>, at: int, args: Seq<ExprView>) -> Parsed<
    Seq<ExprView>,
>
    decreases t.len() - at, 0int,
{
    if kind_at(t, at) == TokenKindView::Comma {
        match expression(t, at + 1) {
            (next, Ok(arg)) if at < next <= t.len() => more_arguments(t, next, args.push(arg)),
            (next, Ok(_)) => (next, Ok(args)),
            (next, Err(message)) => (next, Err(message)),
        }
    } else {
        (at, Ok(args))
    }
}

#[verifier::opaque]
pub open spec fn primary(t: Seq<TokenView>, at: int) -> Parsed<ExprView>
    decreases t.len() - at, 2int,
{
    match kind_at(t, at) {
        TokenKindView::Int(value) => (at + 1, Ok(ExprView::Int(value))),
        TokenKindView::True => (at + 1, Ok(ExprView::Bool(true))),
        TokenKindView::False => (at + 1, Ok(ExprView::Bool(false))),
        TokenKindView::Ident(_) => named(t, at),
        TokenKindView::Match => match_expression(t, at),
        TokenKindView::LBrace => match block(t, at) {
            (next, Ok(inner)) => (next, Ok(ExprView::Block(inner))),
            (next, Err(message)) => (next, Err(message)),
        },
        TokenKindView::LParen => parenthesized(t, at + 1),
        _ => (at, Err(expected_text("expression"@, t[at].pos))),
    }
}

/// The cases of a primary expression.
pub proof fn lemma_primary(t: Seq<TokenView>, at: int)
    ensures
        primary(t, at) == match kind_at(t, at) {
            TokenKindView::Int(value) => (at + 1, Ok(ExprView::Int(value))),
            TokenKindView::True => (at + 1, Ok(ExprView::Bool(true))),
            TokenKindView::False => (at + 1, Ok(ExprView::Bool(false))),
            TokenKindView::Ident(_) => named(t, at),
            TokenKindView::Match => match_expression(t, at),
            TokenKindView::LBrace => match block(t, at) {
                (next, Ok(inner)) => (next, Ok(ExprView::Block(inner))),
                (next, Err(message)) => (next, Err(message)),
            },
            TokenKindView::LParen => parenthesized(t, at + 1),
            _ => (at, Err(expected_text("expression"@, t[at].pos))),
        },
{
    reveal(primary);
    reveal(named);
    reveal(match_expression);
    reveal(block);
    reveal(parenthesized);
}

/// What follows an opening parenthesis: the unit value, or an expression and the parenthesis that
/// closes it.
#[verifier::opaque]
pub open spec fn parenthesized(t: Seq<TokenView>, at: int) -> Parsed<ExprView>
    decreases t.len() - at, 8int,
{
    if kind_at(t, at) == TokenKindView::RParen {
        (at + 1, Ok(ExprView::Unit))
    } else {
        match expression(t, at) {
            (close, Ok(inner)) => match token(t, close, TokenKindView::RParen) {
                (next, Ok(_)) => (next, Ok(inner)),
                (next, Err(message)) => (next, Err(message)),
            },
            failure => failure,
        }
    }
}

/// A call, or a variable where no parenthesis follows the name.
#[verifier::opaque]
pub open spec fn named(t: Seq<TokenView>, at: int) -> Parsed<ExprView>
    decreases t.len() - at, 1int,
{
    match function_name(t, at) {
        (next, Ok(name)) => if kind_at(t, next) == TokenKindView::LParen {
            match call_arguments(t, next + 1) {
                (end, Ok(args)) => (end, Ok(ExprView::Call { name, args })),
                (end, Err(message)) => (end, Err(message)),
            }
        } else if ends_with_bang(name) {
            (next, Err("local variable names cannot end with !"@))
        } else {
            (next, Ok(ExprView::Var(name)))
        },
        (next, Err(message)) => (next, Err(message)),
    }
}

/// A match expression, from its keyword on.
#[verifier::opaque]
pub open spec fn match_expression(t: Seq<TokenView>, at: int) -> Parsed<ExprView>
    decreases t.len() - at, 1int,
{
    if kind_at(t, at) == TokenKindView::Match {
        match expression(t, at + 1) {
            (open, Ok(scrutinee)) if at < open <= t.len() => match token(
                t,
                open,
                TokenKindView::LBrace,
            ) {
                (first, Ok(_)) => {
                    proof {
                        lemma_newlines(t, first);
                    }
                    match match_arms(t, newlines(t, first), Seq::empty()) {
                        (close, Ok(arms)) => match token(t, close, TokenKindView::RBrace) {
                            (next, Ok(_)) => (
                                next,
                                Ok(ExprView::Match { scrutinee: Box::new(scrutinee), arms }),
                            ),
                            (next, Err(message)) => (next, Err(message)),
                        },
                        (next, Err(message)) => (next, Err(message)),
                    }
                },
                (next, Err(message)) => (next, Err(message)),
            },
            failure => failure,
        }
    } else {
        (at, Err(expected_text("expression"@, t[at].pos)))
    }
}

/// The arms up to the closing brace of a match expression.
#[verifier::opaque]
pub open spec fn match_arms(t: Seq<TokenView>, at: int, arms: Seq<MatchArmView>) -> Parsed<
    Seq<MatchArmView>,
>
    decreases t.len() - at, 8int,
{
    if kind_at(t, at) == TokenKindView::RBrace {
        (at, Ok(arms))
    } else if kind_at(t, at) == TokenKindView::Eof {
        (at, Err("unterminated match expression"@))
    } else {
        match pattern(t, at) {
            (arrow, Ok(pattern)) => match token(t, arrow, TokenKindView::Arrow) {
                (body, Ok(_)) => match expression(t, body) {
                    (end, Ok(expr)) if at < end <= t.len() => {
                        proof {
                            lemma_newlines(t, end);
                        }
                        match_arms(t, newlines(t, end), arms.push(MatchArmView { pattern, expr }))
                    },
                    (end, Ok(_)) => (end, Ok(arms)),
                    (end, Err(message)) => (end, Err(message)),
                },
                (next, Err(message)) => (next, Err(message)),
            },
            (next, Err(message)) => (next, Err(message)),
        }
    }
}

/// Items in braces.
#[verifier::opaque]
pub open spec fn block(t: Seq<TokenView>, at: int) -> Parsed<BlockView>
    decreases t.len() - at, 1int,
{
    match token(t, at, TokenKindView::LBrace) {
        (first, Ok(_)) => {
            proof {
                lemma_newlines(t, first);
            }
            match block_items(t, newlines(t, first), Seq::empty()) {
                (close, Ok(items)) => match token(t, close, TokenKindView::RBrace) {
                    (next, Ok(_)) => (next, Ok(BlockView { items })),
                    (next, Err(message)) => (next, Err(message)),
                },
                (next, Err(message)) => (next, Err(message)),
            }
        },
        (next, Err(message)) => (next, Err(message)),
    }
}

/// The name that a binding starts with: an identifier before an equals sign.
pub open spec fn bound_name(t: Seq<TokenView>, at: int) -> Option<Seq<char>> {
    match kind_at(t, at) {
        TokenKindView::Ident(name) if kind_at(t, at + 1) == TokenKindView::Eq => Some(name),
        _ => None,
    }
}

/// One binding or expression.
#[verifier::opaque]
pub open spec fn block_item(t: Seq<TokenView>, at: int) -> Parsed<BlockItemView>
    decreases t.len() - at, 8int,
{
    match bound_name(t, at) {
        Some(name) => match expression(t, at + 2) {
            (end, Ok(expr)) => (end, Ok(BlockItemView::Binding { name, expr })),
            (end, Err(message)) => (end, Err(message)),
        },
        None => match expression(t, at) {
            (end, Ok(expr)) => (end, Ok(BlockItemView::Expr(expr))),
            (end, Err(message)) => (end, Err(message)),
        },
    }
}

/// The items up to the closing brace of a block.
#[verifier::opaque]
pub open spec fn block_items(t: Seq<TokenView>, at: int, items: Seq<BlockItemView>) -> Parsed<
    Seq<BlockItemView>,
>
    decreases t.len() - at, 9int,
{
    if kind_at(t, at) == TokenKindView::RBrace {
        (at, Ok(items))
    } else if kind_at(t, at) == TokenKindView::Eof {
        (at, Err("unterminated block"@))
    } else {
        match block_item(t, at) {
            (end, Ok(item)) if at < end <= t.len() => {
                proof {
                    lemma_newlines(t, end);
                }
                block_items(t, newlines(t, end), items.push(item))
            },
            (end, Ok(_)) => (end, Ok(items)),
            (end, Err(message)) => (end, Err(message)),
        }
    }
}

/// A function, from its keyword on.
#[verifier::opaque]
pub open spec fn function(t: Seq<TokenView>, at: int) -> Parsed<FunctionView> {
    match token(t, at, TokenKindView::Fn) {
        (named, Ok(_)) => match function_name(t, named) {
            (open, Ok(name)) => match token(t, open, TokenKindView::LParen) {
                (first, Ok(_)) => match identifiers(t, first) {
                    (close, Ok(params)) => match token(t, close, TokenKindView::RParen) {
                        (arrow, Ok(_)) => match annotation(t, arrow) {
                            (start, Ok(return_annotation)) => match block(t, start) {
                                (next, Ok(body)) => (
                                    next,
                                    Ok(FunctionView { name, params, return_annotation, body }),
                                ),
                                (next, Err(message)) => (next, Err(message)),
                            },
                            (next, Err(message)) => (next, Err(message)),
                        },
                        (next, Err(message)) => (next, Err(message)),
                    },
                    (next, Err(message)) => (next, Err(message)),
                },
                (next, Err(message)) => (next, Err(message)),
            },
            (next, Err(message)) => (next, Err(message)),
        },
        (next, Err(message)) => (next, Err(message)),
    }
}

/// A function and the attributes before it.
pub open spec fn declaration(t: Seq<TokenView>, at: int) -> Parsed<FunctionView> {
    match attributes(t, at) {
        (next, Ok(_)) => function(t, next),
        (next, Err(message)) => (next, Err(message)),
    }
}

/// The functions up to the end of the text.
#[verifier::opaque]
pub open spec fn declarations(t: Seq<TokenView>, at: int, functions: Seq<FunctionView>) -> Parsed<
    Seq<FunctionView>,
>
    decreases t.len() - at,
{
    if kind_at(t, at) == TokenKindView::Eof {
        (at, Ok(functions))
    } else {
        match declaration(t, at) {
            (end, Ok(function)) if at < end <= t.len() => {
                proof {
                    lemma_newlines(t, end);
                }
                declarations(t, newlines(t, end), functions.push(function))
            },
            (end, Ok(_)) => (end, Ok(functions)),
            (end, Err(message)) => (end, Err(message)),
        }
    }
}

/// A whole program, from position `at` to the end of the text.
pub open spec fn program(t: Seq<TokenView>, at: int) -> Parsed<ProgramView> {
    match declarations(t, newlines(t, at), Seq::empty()) {
        (end, Ok(functions)) => (end, Ok(ProgramView { functions })),
        (end, Err(message)) => (end, Err(message)),
    }
}

} // verus!
