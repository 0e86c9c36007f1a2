//! The parser moves forward, and reads a program to the end.
use vstd::prelude::*;

use crate::seed::ast::{BinaryOp, BlockItemView, ExprView, FunctionView, MatchArmView};
use crate::seed::grammar::{
    additive, annotation, arguments, attribute, attributes, binary, block, block_item, block_items,
    bound_name, call_arguments, comparison, declaration, declarations, equality, expression,
    function, function_name, identifier, identifiers, kind_at, lemma_newlines, lemma_primary,
    match_arms, match_expression, more_arguments, more_equality, more_identifiers, more_postfix,
    more_product, more_sum, named, newlines, parenthesized, pattern, postfix, primary, product,
    program, sum, token, Parsed,
};
use crate::seed::lexer::{TokenKindView, TokenView};

verus! {

/// What was read ends behind its start, and within the list.
pub open spec fn advances<T>(parsed: Parsed<T>, at: int, len: nat) -> bool {
    parsed.1 is Ok ==> at < parsed.0 <= len
}

/// What was read ends no earlier than it starts, and within the list.
pub open spec fn stays<T>(parsed: Parsed<T>, at: int, len: nat) -> bool {
    parsed.1 is Ok ==> at <= parsed.0 <= len
}

pub proof fn lemma_expression(t: Seq<TokenView>, at: int)
    requires
        0 <= at <= t.len(),
    ensures
        advances(expression(t, at), at, t.len()),
    decreases t.len() - at, 7int,
{
    reveal(expression);
    reveal(equality);
    lemma_equality(t, at);
}

pub proof fn lemma_equality(t: Seq<TokenView>, at: int)
    requires
        0 <= at <= t.len(),
    ensures
        advances(equality(t, at), at, t.len()),
    decreases t.len() - at, 6int,
{
    reveal(equality);
    reveal(sum);
    reveal(more_equality);
    lemma_sum(t, at);
    if let (next, Ok(left)) = sum(t, at) {
        lemma_more_equality(t, next, left);
    }
}

pub proof fn lemma_more_equality(t: Seq<TokenView>, at: int, left: ExprView)
    requires
        0 <= at <= t.len(),
    ensures
        stays(more_equality(t, at, left), at, t.len()),
    decreases t.len() - at, 0int,
{
    reveal(more_equality);
    reveal(sum);
    if let Some(op) = comparison(kind_at(t, at)) {
        lemma_sum(t, at + 1);
        if let (next, Ok(right)) = sum(t, at + 1) {
            lemma_more_equality(t, next, binary(op, left, right));
        }
    }
}

pub proof fn lemma_sum(t: Seq<TokenView>, at: int)
    requires
        0 <= at <= t.len(),
    ensures
        advances(sum(t, at), at, t.len()),
    decreases t.len() - at, 5int,
{
    reveal(sum);
    reveal(product);
    reveal(more_sum);
    lemma_product(t, at);
    if let (next, Ok(left)) = product(t, at) {
        lemma_more_sum(t, next, left);
    }
}

pub proof fn lemma_more_sum(t: Seq<TokenView>, at: int, left: ExprView)
    requires
        0 <= at <= t.len(),
    ensures
        stays(more_sum(t, at, left), at, t.len()),
    decreases t.len() - at, 0int,
{
    reveal(more_sum);
    reveal(product);
    if let Some(op) = additive(kind_at(t, at)) {
        lemma_product(t, at + 1);
        if let (next, Ok(right)) = product(t, at + 1) {
            lemma_more_sum(t, next, binary(op, left, right));
        }
    }
}

pub proof fn lemma_product(t: Seq<TokenView>, at: int)
    requires
        0 <= at <= t.len(),
    ensures
        advances(product(t, at), at, t.len()),
    decreases t.len() - at, 4int,
{
    reveal(product);
    reveal(postfix);
    reveal(more_product);
    lemma_postfix(t, at);
    if let (next, Ok(left)) = postfix(t, at) {
        lemma_more_product(t, next, left);
    }
}

pub proof fn lemma_more_product(t: Seq<TokenView>, at: int, left: ExprView)
    requires
        0 <= at <= t.len(),
    ensures
        stays(more_product(t, at, left), at, t.len()),
    decreases t.len() - at, 0int,
{
    reveal(more_product);
    reveal(postfix);
    if kind_at(t, at) == TokenKindView::Star {
        lemma_postfix(t, at + 1);
        if let (next, Ok(right)) = postfix(t, at + 1) {
            lemma_more_product(t, next, binary(BinaryOp::Mul, left, right));
        }
    }
}

pub proof fn lemma_postfix(t: Seq<TokenView>, at: int)
    requires
        0 <= at <= t.len(),
    ensures
        advances(postfix(t, at), at, t.len()),
    decreases t.len() - at, 3int,
{
    reveal(postfix);
    reveal(primary);
    reveal(more_postfix);
    lemma_primary_advances(t, at);
    if let (next, Ok(receiver)) = primary(t, at) {
        lemma_more_postfix(t, next, receiver);
    }
}

pub proof fn lemma_more_postfix(t: Seq<TokenView>, at: int, receiver: ExprView)
    requires
        0 <= at <= t.len(),
    ensures
        stays(more_postfix(t, at, receiver), at, t.len()),
    decreases t.len() - at, 0int,
{
    reveal(more_postfix);
    reveal(call_arguments);
    if kind_at(t, at) == TokenKindView::Dot {
        if let (open, Ok(name)) = identifier(t, at + 1) {
            if let (first, Ok(_)) = token(t, open, TokenKindView::LParen) {
                lemma_call_arguments(t, first);
                if let (next, Ok(args)) = call_arguments(t, first) {
                    lemma_more_postfix(
                        t,
                        next,
                        ExprView::MethodCall { receiver: Box::new(receiver), name, args },
                    );
                }
            }
        }
    }
}

pub proof fn lemma_call_arguments(t: Seq<TokenView>, at: int)
    requires
        0 <= at <= t.len(),
    ensures
        advances(call_arguments(t, at), at, t.len()),
    decreases t.len() - at, 9int,
{
    reveal(call_arguments);
    reveal(arguments);
    lemma_arguments(t, at);
}

pub proof fn lemma_arguments(t: Seq<TokenView>, at: int)
    requires
        0 <= at <= t.len(),
    ensures
        stays(arguments(t, at), at, t.len()),
    decreases t.len() - at, 8int,
{
    reveal(expression);
    reveal(arguments);
    reveal(more_arguments);
    if kind_at(t, at) != TokenKindView::RParen {
        lemma_expression(t, at);
        if let (next, Ok(first)) = expression(t, at) {
            lemma_more_arguments(t, next, seq![first]);
        }
    }
}

pub proof fn lemma_more_arguments(t: Seq<TokenView>, at: int, args: Seq<ExprView>)
    requires
        0 <= at <= t.len(),
    ensures
        stays(more_arguments(t, at, args), at, t.len()),
    decreases t.len() - at, 0int,
{
    reveal(expression);
    reveal(more_arguments);
    if kind_at(t, at) == TokenKindView::Comma {
        lemma_expression(t, at + 1);
        if let (next, Ok(arg)) = expression(t, at + 1) {
            lemma_more_arguments(t, next, args.push(arg));
        }
    }
}

pub proof fn lemma_primary_advances(t: Seq<TokenView>, at: int)
    requires
        0 <= at <= t.len(),
    ensures
        advances(primary(t, at), at, t.len()),
    decreases t.len() - at, 2int,
{
    lemma_primary(t, at);
    match kind_at(t, at) {
        TokenKindView::Ident(_) => lemma_named(t, at),
        TokenKindView::Match => lemma_match_expression(t, at),
        TokenKindView::LBrace => lemma_block(t, at),
        TokenKindView::LParen => lemma_parenthesized(t, at + 1),
        _ => {},
    }
}

pub proof fn lemma_parenthesized(t: Seq<TokenView>, at: int)
    requires
        0 <= at <= t.len(),
    ensures
        advances(parenthesized(t, at), at, t.len()),
    decreases t.len() - at, 8int,
{
    reveal(expression);
    reveal(parenthesized);
    if kind_at(t, at) != TokenKindView::RParen {
        lemma_expression(t, at);
    }
}

pub proof fn lemma_named(t: Seq<TokenView>, at: int)
    requires
        0 <= at <= t.len(),
    ensures
        advances(named(t, at), at, t.len()),
    decreases t.len() - at, 1int,
{
    reveal(named);
    reveal(call_arguments);
    if let (next, Ok(name)) = function_name(t, at) {
        if kind_at(t, next) == TokenKindView::LParen {
            lemma_call_arguments(t, next + 1);
        }
    }
}

pub proof fn lemma_match_expression(t: Seq<TokenView>, at: int)
    requires
        0 <= at <= t.len(),
    ensures
        advances(match_expression(t, at), at, t.len()),
    decreases t.len() - at, 1int,
{
    reveal(expression);
    reveal(match_expression);
    reveal(match_arms);
    if kind_at(t, at) == TokenKindView::Match {
        lemma_expression(t, at + 1);
        if let (open, Ok(_)) = expression(t, at + 1) {
            if let (first, Ok(_)) = token(t, open, TokenKindView::LBrace) {
                lemma_newlines(t, first);
                lemma_match_arms(t, newlines(t, first), Seq::empty());
            }
        }
    }
}

pub proof fn lemma_match_arms(t: Seq<TokenView>, at: int, arms: Seq<MatchArmView>)
    requires
        0 <= at <= t.len(),
    ensures
        stays(match_arms(t, at, arms), at, t.len()),
        match_arms(t, at, arms).1 is Ok ==> kind_at(t, match_arms(t, at, arms).0)
            == TokenKindView::RBrace,
    decreases t.len() - at, 8int,
{
    reveal(expression);
    reveal(match_arms);
    if kind_at(t, at) != TokenKindView::RBrace && kind_at(t, at) != TokenKindView::Eof {
        if let (arrow, Ok(pattern)) = pattern(t, at) {
            if let (body, Ok(_)) = token(t, arrow, TokenKindView::Arrow) {
                lemma_expression(t, body);
                if let (end, Ok(expr)) = expression(t, body) {
                    lemma_newlines(t, end);
                    lemma_match_arms(
                        t,
                        newlines(t, end),
                        arms.push(MatchArmView { pattern, expr }),
                    );
                }
            }
        }
    }
}

pub proof fn lemma_block(t: Seq<TokenView>, at: int)
    requires
        0 <= at <= t.len(),
    ensures
        advances(block(t, at), at, t.len()),
    decreases t.len() - at, 1int,
{
    reveal(block);
    reveal(block_items);
    if let (first, Ok(_)) = token(t, at, TokenKindView::LBrace) {
        lemma_newlines(t, first);
        lemma_block_items(t, newlines(t, first), Seq::empty());
    }
}

pub proof fn lemma_block_item(t: Seq<TokenView>, at: int)
    requires
        0 <= at <= t.len(),
    ensures
        advances(block_item(t, at), at, t.len()),
    decreases t.len() - at, 8int,
{
    reveal(expression);
    reveal(block_item);
    match bound_name(t, at) {
        Some(_) => lemma_expression(t, at + 2),
        None => lemma_expression(t, at),
    }
}

pub proof fn lemma_block_items(t: Seq<TokenView>, at: int, items: Seq<BlockItemView>)
    requires
        0 <= at <= t.len(),
    ensures
        stays(block_items(t, at, items), at, t.len()),
        block_items(t, at, items).1 is Ok ==> kind_at(t, block_items(t, at, items).0)
            == TokenKindView::RBrace,
    decreases t.len() - at, 9int,
{
    reveal(block_items);
    reveal(block_item);
    if kind_at(t, at) != TokenKindView::RBrace && kind_at(t, at) != TokenKindView::Eof {
        lemma_block_item(t, at);
        if let (end, Ok(item)) = block_item(t, at) {
            lemma_newlines(t, end);
            lemma_block_items(t, newlines(t, end), items.push(item));
        }
    }
}

pub proof fn lemma_more_identifiers(t: Seq<TokenView>, at: int, names: Seq<Seq<char>>)
    requires
        0 <= at <= t.len(),
    ensures
        stays(more_identifiers(t, at, names), at, t.len()),
    decreases t.len() - at,
{
    if kind_at(t, at) == TokenKindView::Comma {
        if let (next, Ok(name)) = identifier(t, at + 1) {
            lemma_more_identifiers(t, next, names.push(name));
        }
    }
}

pub proof fn lemma_identifiers(t: Seq<TokenView>, at: int)
    requires
        0 <= at <= t.len(),
    ensures
        stays(identifiers(t, at), at, t.len()),
{
    if let (next, Ok(name)) = identifier(t, at) {
        lemma_more_identifiers(t, next, seq![name]);
    }
}

pub proof fn lemma_attribute(t: Seq<TokenView>, at: int)
    requires
        0 <= at <= t.len(),
    ensures
        advances(attribute(t, at), at, t.len()),
{
    if let (named, Ok(_)) = token(t, at, TokenKindView::LBracket) {
        if let (next, Ok(_)) = identifier(t, named) {
            if kind_at(t, next) == TokenKindView::LParen {
                lemma_identifiers(t, next + 1);
            }
        }
    }
}

pub proof fn lemma_attributes(t: Seq<TokenView>, at: int)
    requires
        0 <= at <= t.len(),
    ensures
        stays(attributes(t, at), at, t.len()),
    decreases t.len() - at,
{
    reveal(attributes);
    lemma_newlines(t, at);
    let start = newlines(t, at);
    if kind_at(t, start) == TokenKindView::Hash {
        lemma_attribute(t, start + 1);
        if let (next, Ok(_)) = attribute(t, start + 1) {
            lemma_attributes(t, next);
        }
    }
}

pub proof fn lemma_function(t: Seq<TokenView>, at: int)
    requires
        0 <= at <= t.len(),
    ensures
        advances(function(t, at), at, t.len()),
{
    reveal(function);
    if let (named, Ok(_)) = token(t, at, TokenKindView::Fn) {
        if let (open, Ok(_)) = function_name(t, named) {
            if let (first, Ok(_)) = token(t, open, TokenKindView::LParen) {
                lemma_identifiers(t, first);
                if let (close, Ok(_)) = identifiers(t, first) {
                    if let (arrow, Ok(_)) = token(t, close, TokenKindView::RParen) {
                        if let (start, Ok(_)) = annotation(t, arrow) {
                            lemma_block(t, start);
                        }
                    }
                }
            }
        }
    }
}

pub proof fn lemma_declaration(t: Seq<TokenView>, at: int)
    requires
        0 <= at <= t.len(),
    ensures
        advances(declaration(t, at), at, t.len()),
{
    lemma_attributes(t, at);
    if let (next, Ok(_)) = attributes(t, at) {
        lemma_function(t, next);
    }
}

pub proof fn lemma_declarations(t: Seq<TokenView>, at: int, functions: Seq<FunctionView>)
    requires
        0 <= at <= t.len(),
    ensures
        stays(declarations(t, at, functions), at, t.len()),
        declarations(t, at, functions).1 is Ok ==> kind_at(t, declarations(t, at, functions).0)
            == TokenKindView::Eof,
    decreases t.len() - at,
{
    reveal(declarations);
    if kind_at(t, at) != TokenKindView::Eof {
        lemma_declaration(t, at);
        if let (end, Ok(function)) = declaration(t, at) {
            lemma_newlines(t, end);
            lemma_declarations(t, newlines(t, end), functions.push(function));
        }
    }
}

/// A program is read from its start to the end of the text, with nothing left over.
pub proof fn law_reads_all(t: Seq<TokenView>)
    ensures
        program(t, 0) matches (end, Ok(_)) ==> 0 <= end <= t.len() && kind_at(t, end)
            == TokenKindView::Eof,
{
    lemma_newlines(t, 0);
    lemma_declarations(t, newlines(t, 0), Seq::empty());
}

} // verus!
