//! The parser of the seed language.
use vstd::prelude::*;

use crate::error::{agrees, Error};
use crate::seed::ast::{
    arm_views, expr_views, function_views, item_views, BinaryOp, Block, BlockItem, Expr, Function,
    MatchArm, Pattern, PrimType, Program,
};
use crate::seed::grammar::{
    arguments, attribute_arguments, attributes, block, block_item, block_items, bound_name,
    call_arguments, declaration, declarations, equality, expected_text, expression, function,
    function_name, identifier, identifiers, kind_at, kind_text, lemma_primary, match_arms,
    match_expression, more_arguments, more_equality, more_identifiers, more_postfix, more_product,
    more_sum, named, named_type, newlines, parenthesized, pattern, postfix, primary, product,
    program, sum, token, Parsed,
};
use crate::seed::lexer::{token_views, Token, TokenKind, TokenKindView, TokenView};
use crate::text::{decimal_text, is_marked, quote, same_text, show_str, signed_decimal_text, texts};

verus! {

/// A list of tokens and the position of the next one to read.
pub struct Parser {
    pub tokens: Vec<Token>,
    pub current: usize,
}

/// The text of a token kind in diagnostics.
pub fn kind_name(kind: &TokenKind) -> (text: String)
    ensures
        text@ == kind_text(kind@),
{
    match kind {
        TokenKind::Fn => "Fn".to_owned(),
        TokenKind::Match => "Match".to_owned(),
        TokenKind::True => "True".to_owned(),
        TokenKind::False => "False".to_owned(),
        TokenKind::Ident(name) => quote("Ident(", show_str(name.as_str()).as_str(), ")"),
        TokenKind::Int(value) => quote("Int(", signed_decimal_text(*value).as_str(), ")"),
        TokenKind::LParen => "LParen".to_owned(),
        TokenKind::RParen => "RParen".to_owned(),
        TokenKind::LBrace => "LBrace".to_owned(),
        TokenKind::RBrace => "RBrace".to_owned(),
        TokenKind::LBracket => "LBracket".to_owned(),
        TokenKind::RBracket => "RBracket".to_owned(),
        TokenKind::Comma => "Comma".to_owned(),
        TokenKind::Dot => "Dot".to_owned(),
        TokenKind::Hash => "Hash".to_owned(),
        TokenKind::Bang => "Bang".to_owned(),
        TokenKind::Eq => "Eq".to_owned(),
        TokenKind::EqEq => "EqEq".to_owned(),
        TokenKind::Arrow => "Arrow".to_owned(),
        TokenKind::Lt => "Lt".to_owned(),
        TokenKind::Plus => "Plus".to_owned(),
        TokenKind::Minus => "Minus".to_owned(),
        TokenKind::Star => "Star".to_owned(),
        TokenKind::Newline => "Newline".to_owned(),
        TokenKind::Eof => "Eof".to_owned(),
    }
}

/// The diagnostic for a token that is not the one that was needed.
pub fn expected(what: &str, pos: usize) -> (error: Error)
    ensures
        error@ == expected_text(what@, pos as int),
{
    let mut message = "expected ".to_owned();
    message.append(what);
    message.append(" at byte ");
    message.append(decimal_text(pos as u64).as_str());
    Error::new(message)
}

impl Parser {
    pub open spec fn views(&self) -> Seq<TokenView> {
        token_views(self.tokens@)
    }

    /// An end of the text lies ahead.
    pub open spec fn wf(&self) -> bool {
        exists|k: int|
            self.current <= k < self.tokens.len() && (#[trigger] self.tokens@[k]).kind is Eof
    }

    /// `self` is `before` after reading up to the position in `parsed`.
    pub open spec fn moved<T>(&self, before: &Parser, parsed: Parsed<T>) -> bool {
        &&& self.tokens == before.tokens
        &&& self.wf()
        &&& self.current == parsed.0
    }

    pub fn new(tokens: Vec<Token>) -> (parser: Self)
        ensures
            parser.tokens == tokens,
            parser.current == 0,
    {
        Parser { tokens, current: 0 }
    }

    pub fn peek(&self) -> (token: &Token)
        requires
            self.current < self.tokens.len(),
        ensures
            *token == self.tokens@[self.current as int],
            token@ == self.views()[self.current as int],
            token.kind@ == kind_at(self.views(), self.current as int),
    {
        &self.tokens[self.current]
    }

    pub fn peek_n(&self, n: usize) -> (token: Option<&Token>)
        requires
            self.current + n <= usize::MAX,
        ensures
            match token {
                Some(token) => self.current + n < self.tokens.len() && *token
                    == self.tokens@[self.current + n],
                None => self.current + n >= self.tokens.len(),
            },
    {
        if self.current + n < self.tokens.len() {
            Some(&self.tokens[self.current + n])
        } else {
            None
        }
    }

    pub fn bump(&mut self)
        requires
            old(self).current < usize::MAX,
        ensures
            final(self).tokens == old(self).tokens,
            final(self).current == old(self).current + 1,
            old(self).wf() && kind_at(old(self).views(), old(self).current as int)
                != TokenKindView::Eof ==> final(self).wf(),
    {
        self.current += 1;
    }

    pub fn at(&self, kind: &TokenKind) -> (yes: bool)
        requires
            self.current < self.tokens.len(),
        ensures
            yes == (kind_at(self.views(), self.current as int) == kind@),
    {
        self.peek().kind == *kind
    }

    pub fn eat(&mut self, kind: &TokenKind) -> (eaten: bool)
        requires
            old(self).current < old(self).tokens.len(),
        ensures
            eaten == (kind_at(old(self).views(), old(self).current as int) == kind@),
            final(self).tokens == old(self).tokens,
            final(self).current == if eaten {
                old(self).current + 1
            } else {
                old(self).current as int
            },
            old(self).wf() && !(kind is Eof) ==> final(self).wf(),
    {
        if self.at(kind) {
            self.bump();
            true
        } else {
            false
        }
    }

    pub fn expect(&mut self, kind: &TokenKind) -> (result: Result<(), Error>)
        requires
            old(self).current < old(self).tokens.len(),
        ensures
            agrees(result, token(old(self).views(), old(self).current as int, kind@).1),
            final(self).tokens == old(self).tokens,
            final(self).current == token(old(self).views(), old(self).current as int, kind@).0,
            old(self).wf() && !(kind is Eof) ==> final(self).wf(),
    {
        if self.eat(kind) {
            Ok(())
        } else {
            Err(expected(kind_name(kind).as_str(), self.peek().pos))
        }
    }

    pub fn skip_newlines(&mut self)
        requires
            old(self).wf(),
        ensures
            final(self).tokens == old(self).tokens,
            final(self).wf(),
            final(self).current == newlines(old(self).views(), old(self).current as int),
            old(self).current <= final(self).current,
    {
        while self.at(&TokenKind::Newline)
            invariant
                self.wf(),
                self.tokens == old(self).tokens,
                old(self).current <= self.current,
                newlines(old(self).views(), old(self).current as int) == newlines(
                    old(self).views(),
                    self.current as int,
                ),
            decreases self.tokens.len() - self.current,
        {
            self.bump();
        }
    }

    pub fn expect_ident(&mut self) -> (result: Result<String, Error>)
        requires
            old(self).wf(),
        ensures
            agrees(result, identifier(old(self).views(), old(self).current as int).1),
            final(self).moved(old(self), identifier(old(self).views(), old(self).current as int)),
    {
        match &self.peek().kind {
            TokenKind::Ident(name) => {
                let name = name.clone();
                self.bump();
                Ok(name)
            },
            _ => Err(expected("identifier", self.peek().pos)),
        }
    }

    /// The identifiers before a closing parenthesis, separated by commas.
    pub fn parse_names(&mut self) -> (result: Result<Vec<String>, Error>)
        requires
            old(self).wf(),
        ensures
            match (result, identifiers(old(self).views(), old(self).current as int).1) {
                (Ok(names), Ok(views)) => texts(names@) == views,
                (Err(error), Err(message)) => error@ == message,
                _ => false,
            },
            final(self).moved(old(self), identifiers(old(self).views(), old(self).current as int)),
            old(self).current <= final(self).current,
    {
        let mut names: Vec<String> = Vec::new();
        let ghost t = self.views();
        if !self.at(&TokenKind::RParen) {
            let name = self.expect_ident()?;
            names.push(name);
            assert(texts(names@) =~= seq![name@]);
            while self.eat(&TokenKind::Comma)
                invariant_except_break
                    self.wf(),
                    self.tokens == old(self).tokens,
                    t == self.views(),
                    old(self).current < self.current,
                    identifiers(t, old(self).current as int) == more_identifiers(
                        t,
                        self.current as int,
                        texts(names@),
                    ),
                ensures
                    self.wf(),
                    self.tokens == old(self).tokens,
                    old(self).current < self.current,
                    identifiers(t, old(self).current as int) == (
                        self.current as int,
                        Ok::<_, Seq<char>>(texts(names@)),
                    ),
                decreases self.tokens.len() - self.current,
            {
                let name = self.expect_ident()?;
                let ghost before = names@;
                names.push(name);
                assert(texts(names@) =~= texts(before).push(name@));
            }
        } else {
            assert(texts(names@) =~= Seq::empty());
        }
        Ok(names)
    }

    /// The names in parentheses after the name of an attribute, where there are any.
    pub fn parse_attribute_arguments(&mut self) -> (result: Result<(), Error>)
        requires
            old(self).wf(),
        ensures
            agrees(result, attribute_arguments(old(self).views(), old(self).current as int).1),
            final(self).moved(
                old(self),
                attribute_arguments(old(self).views(), old(self).current as int),
            ),
            old(self).current <= final(self).current,
    {
        if self.eat(&TokenKind::LParen) {
            self.parse_names()?;
            self.expect(&TokenKind::RParen)?;
        }
        Ok(())
    }

    /// Reads attributes; they have no effect on the program.
    pub fn parse_attributes(&mut self) -> (result: Result<(), Error>)
        requires
            old(self).wf(),
        ensures
            agrees(result, attributes(old(self).views(), old(self).current as int).1),
            final(self).moved(old(self), attributes(old(self).views(), old(self).current as int)),
            result is Ok ==> old(self).current <= final(self).current,
    {
        proof {
            reveal(attributes);
        }
        let ghost t = self.views();
        loop
            invariant
                self.wf(),
                self.tokens == old(self).tokens,
                t == self.views(),
                old(self).current <= self.current,
                attributes(t, old(self).current as int) == attributes(t, self.current as int),
            decreases self.tokens.len() - self.current,
        {
            proof {
                reveal(attributes);
            }
            self.skip_newlines();
            if !self.at(&TokenKind::Hash) {
                return Ok(());
            }
            self.bump();
            self.expect(&TokenKind::LBracket)?;
            self.expect_ident()?;
            self.parse_attribute_arguments()?;
            self.expect(&TokenKind::RBracket)?;
        }
    }

    pub fn parse_function_name(&mut self) -> (result: Result<String, Error>)
        requires
            old(self).wf(),
        ensures
            agrees(result, function_name(old(self).views(), old(self).current as int).1),
            final(self).moved(
                old(self),
                function_name(old(self).views(), old(self).current as int),
            ),
            result is Ok ==> old(self).current < final(self).current,
    {
        let mut name = self.expect_ident()?;
        if self.eat(&TokenKind::Bang) {
            name.push('!');
        }
        Ok(name)
    }

    pub fn parse_type(&mut self) -> (result: Result<PrimType, Error>)
        requires
            old(self).wf(),
        ensures
            agrees(result, named_type(old(self).views(), old(self).current as int).1),
            final(self).moved(old(self), named_type(old(self).views(), old(self).current as int)),
    {
        let name = self.expect_ident()?;
        let text = name.as_str();
        if same_text(text, "I32") || same_text(text, "i32") {
            Ok(PrimType::I32)
        } else if same_text(text, "Bool") || same_text(text, "bool") {
            Ok(PrimType::Bool)
        } else if same_text(text, "Unit") || same_text(text, "unit") {
            Ok(PrimType::Unit)
        } else {
            let mut message = "unknown type `".to_owned();
            message.append(text);
            message.append("`");
            Err(Error::new(message))
        }
    }

    pub fn parse_pattern(&mut self) -> (result: Result<Pattern, Error>)
        requires
            old(self).wf(),
        ensures
            agrees(result, pattern(old(self).views(), old(self).current as int).1),
            final(self).moved(old(self), pattern(old(self).views(), old(self).current as int)),
            result is Ok ==> old(self).current < final(self).current,
    {
        match &self.peek().kind {
            TokenKind::Int(value) => {
                let value: i32 = *value;
                self.bump();
                Ok(Pattern::Int(value))
            },
            TokenKind::True => {
                self.bump();
                Ok(Pattern::Bool(true))
            },
            TokenKind::False => {
                self.bump();
                Ok(Pattern::Bool(false))
            },
            TokenKind::LParen => {
                self.bump();
                self.expect(&TokenKind::RParen)?;
                Ok(Pattern::Unit)
            },
            TokenKind::Ident(name) => {
                if same_text(name.as_str(), "_") {
                    self.bump();
                    Ok(Pattern::Wildcard)
                } else {
                    Err(expected("pattern", self.peek().pos))
                }
            },
            _ => Err(expected("pattern", self.peek().pos)),
        }
    }

    pub fn parse_expr(&mut self) -> (result: Result<Expr, Error>)
        requires
            old(self).wf(),
        ensures
            agrees(result, expression(old(self).views(), old(self).current as int).1),
            final(self).moved(old(self), expression(old(self).views(), old(self).current as int)),
            result is Ok ==> old(self).current < final(self).current,
        decreases old(self).tokens.len() - old(self).current, 7int,
    {
        proof {
            reveal(expression);
            reveal(equality);
        }
        self.parse_equality()
    }

    pub fn parse_equality(&mut self) -> (result: Result<Expr, Error>)
        requires
            old(self).wf(),
        ensures
            agrees(result, equality(old(self).views(), old(self).current as int).1),
            final(self).moved(old(self), equality(old(self).views(), old(self).current as int)),
            result is Ok ==> old(self).current < final(self).current,
        decreases old(self).tokens.len() - old(self).current, 6int,
    {
        proof {
            reveal(equality);
            reveal(more_equality);
            reveal(sum);
        }
        let ghost t = self.views();
        let mut expr = self.parse_sum()?;
        loop
            invariant
                self.wf(),
                self.tokens == old(self).tokens,
                t == self.views(),
                old(self).current < self.current,
                equality(t, old(self).current as int) == more_equality(
                    t,
                    self.current as int,
                    expr@,
                ),
            decreases self.tokens.len() - self.current,
        {
            proof {
                reveal(equality);
                reveal(more_equality);
                reveal(sum);
            }
            let op = if self.eat(&TokenKind::EqEq) {
                BinaryOp::Eq
            } else if self.eat(&TokenKind::Lt) {
                BinaryOp::Lt
            } else {
                return Ok(expr);
            };
            let right = self.parse_sum()?;
            expr = Expr::Binary { op, left: Box::new(expr), right: Box::new(right) };
        }
    }

    pub fn parse_sum(&mut self) -> (result: Result<Expr, Error>)
        requires
            old(self).wf(),
        ensures
            agrees(result, sum(old(self).views(), old(self).current as int).1),
            final(self).moved(old(self), sum(old(self).views(), old(self).current as int)),
            result is Ok ==> old(self).current < final(self).current,
        decreases old(self).tokens.len() - old(self).current, 5int,
    {
        proof {
            reveal(sum);
            reveal(more_sum);
            reveal(product);
        }
        let ghost t = self.views();
        let mut expr = self.parse_product()?;
        loop
            invariant
                self.wf(),
                self.tokens == old(self).tokens,
                t == self.views(),
                old(self).current < self.current,
                sum(t, old(self).current as int) == more_sum(t, self.current as int, expr@),
            decreases self.tokens.len() - self.current,
        {
            proof {
                reveal(sum);
                reveal(more_sum);
                reveal(product);
            }
            let op = if self.eat(&TokenKind::Plus) {
                BinaryOp::Add
            } else if self.eat(&TokenKind::Minus) {
                BinaryOp::Sub
            } else {
                return Ok(expr);
            };
            let right = self.parse_product()?;
            expr = Expr::Binary { op, left: Box::new(expr), right: Box::new(right) };
        }
    }

    pub fn parse_product(&mut self) -> (result: Result<Expr, Error>)
        requires
            old(self).wf(),
        ensures
            agrees(result, product(old(self).views(), old(self).current as int).1),
            final(self).moved(old(self), product(old(self).views(), old(self).current as int)),
            result is Ok ==> old(self).current < final(self).current,
        decreases old(self).tokens.len() - old(self).current, 4int,
    {
        proof {
            reveal(product);
            reveal(more_product);
            reveal(postfix);
        }
        let ghost t = self.views();
        let mut expr = self.parse_postfix()?;
        loop
            invariant
                self.wf(),
                self.tokens == old(self).tokens,
                t == self.views(),
                old(self).current < self.current,
                product(t, old(self).current as int) == more_product(
                    t,
                    self.current as int,
                    expr@,
                ),
            decreases self.tokens.len() - self.current,
        {
            proof {
                reveal(product);
                reveal(more_product);
                reveal(postfix);
            }
            if !self.eat(&TokenKind::Star) {
                return Ok(expr);
            }
            let right = self.parse_postfix()?;
            expr =
            Expr::Binary { op: BinaryOp::Mul, left: Box::new(expr), right: Box::new(right) };
        }
    }

    pub fn parse_postfix(&mut self) -> (result: Result<Expr, Error>)
        requires
            old(self).wf(),
        ensures
            agrees(result, postfix(old(self).views(), old(self).current as int).1),
            final(self).moved(old(self), postfix(old(self).views(), old(self).current as int)),
            result is Ok ==> old(self).current < final(self).current,
        decreases old(self).tokens.len() - old(self).current, 3int,
    {
        proof {
            reveal(postfix);
            reveal(more_postfix);
            reveal(primary);
            reveal(call_arguments);
        }
        let ghost t = self.views();
        let mut expr = self.parse_primary()?;
        loop
            invariant
                self.wf(),
                self.tokens == old(self).tokens,
                t == self.views(),
                old(self).current < self.current,
                postfix(t, old(self).current as int) == more_postfix(
                    t,
                    self.current as int,
                    expr@,
                ),
            decreases self.tokens.len() - self.current,
        {
            proof {
                reveal(postfix);
                reveal(more_postfix);
                reveal(primary);
                reveal(call_arguments);
            }
            if !self.eat(&TokenKind::Dot) {
                return Ok(expr);
            }
            let name = self.expect_ident()?;
            self.expect(&TokenKind::LParen)?;
            let args = self.parse_call_arguments()?;
            expr = Expr::MethodCall { receiver: Box::new(expr), name, args };
        }
    }

    /// A list of arguments and the parenthesis that closes it.
    pub fn parse_call_arguments(&mut self) -> (result: Result<Vec<Expr>, Error>)
        requires
            old(self).wf(),
        ensures
            match (result, call_arguments(old(self).views(), old(self).current as int).1) {
                (Ok(args), Ok(views)) => expr_views(args@) == views,
                (Err(error), Err(message)) => error@ == message,
                _ => false,
            },
            final(self).moved(
                old(self),
                call_arguments(old(self).views(), old(self).current as int),
            ),
            result is Ok ==> old(self).current < final(self).current,
        decreases old(self).tokens.len() - old(self).current, 9int,
    {
        proof {
            reveal(call_arguments);
            reveal(arguments);
        }
        let args = self.parse_argument_list()?;
        self.expect(&TokenKind::RParen)?;
        Ok(args)
    }

    pub fn parse_argument_list(&mut self) -> (result: Result<Vec<Expr>, Error>)
        requires
            old(self).wf(),
        ensures
            match (result, arguments(old(self).views(), old(self).current as int).1) {
                (Ok(args), Ok(views)) => expr_views(args@) == views,
                (Err(error), Err(message)) => error@ == message,
                _ => false,
            },
            final(self).moved(old(self), arguments(old(self).views(), old(self).current as int)),
            result is Ok ==> old(self).current <= final(self).current,
        decreases old(self).tokens.len() - old(self).current, 8int,
    {
        proof {
            reveal(arguments);
            reveal(more_arguments);
            reveal(expression);
        }
        let mut args: Vec<Expr> = Vec::new();
        let ghost t = self.views();
        if !self.at(&TokenKind::RParen) {
            let arg = self.parse_expr()?;
            args.push(arg);
            assert(expr_views(args@) =~= seq![arg@]);
            loop
                invariant
                    self.wf(),
                    self.tokens == old(self).tokens,
                    t == self.views(),
                    old(self).current < self.current,
                    arguments(t, old(self).current as int) == more_arguments(
                        t,
                        self.current as int,
                        expr_views(args@),
                    ),
                decreases self.tokens.len() - self.current,
            {
                proof {
                    reveal(arguments);
                    reveal(more_arguments);
                    reveal(expression);
                }
                if !self.eat(&TokenKind::Comma) {
                    return Ok(args);
                }
                let arg = self.parse_expr()?;
                let ghost before = args@;
                args.push(arg);
                assert(expr_views(args@) =~= expr_views(before).push(arg@));
            }
        }
        assert(expr_views(args@) =~= Seq::empty());
        Ok(args)
    }

    pub fn parse_primary(&mut self) -> (result: Result<Expr, Error>)
        requires
            old(self).wf(),
        ensures
            agrees(result, primary(old(self).views(), old(self).current as int).1),
            final(self).moved(old(self), primary(old(self).views(), old(self).current as int)),
            result is Ok ==> old(self).current < final(self).current,
        decreases old(self).tokens.len() - old(self).current, 2int,
    {
        proof {
            lemma_primary(self.views(), self.current as int);
        }
        match &self.peek().kind {
            TokenKind::Int(value) => {
                let value: i32 = *value;
                self.bump();
                Ok(Expr::Int(value))
            },
            TokenKind::True => {
                self.bump();
                Ok(Expr::Bool(true))
            },
            TokenKind::False => {
                self.bump();
                Ok(Expr::Bool(false))
            },
            TokenKind::Ident(_) => self.parse_named(),
            TokenKind::Match => self.parse_match(),
            TokenKind::LBrace => {
                let inner = self.parse_block()?;
                Ok(Expr::Block(inner))
            },
            TokenKind::LParen => {
                self.bump();
                self.parse_parenthesized()
            },
            _ => Err(expected("expression", self.peek().pos)),
        }
    }

    /// What follows an opening parenthesis.
    pub fn parse_parenthesized(&mut self) -> (result: Result<Expr, Error>)
        requires
            old(self).wf(),
        ensures
            agrees(result, parenthesized(old(self).views(), old(self).current as int).1),
            final(self).moved(
                old(self),
                parenthesized(old(self).views(), old(self).current as int),
            ),
            result is Ok ==> old(self).current < final(self).current,
        decreases old(self).tokens.len() - old(self).current, 8int,
    {
        proof {
            reveal(parenthesized);
            reveal(expression);
        }
        if self.eat(&TokenKind::RParen) {
            Ok(Expr::Unit)
        } else {
            let expr = self.parse_expr()?;
            self.expect(&TokenKind::RParen)?;
            Ok(expr)
        }
    }

    /// A call, or a variable where no parenthesis follows the name.
    pub fn parse_named(&mut self) -> (result: Result<Expr, Error>)
        requires
            old(self).wf(),
        ensures
            agrees(result, named(old(self).views(), old(self).current as int).1),
            final(self).moved(old(self), named(old(self).views(), old(self).current as int)),
            result is Ok ==> old(self).current < final(self).current,
        decreases old(self).tokens.len() - old(self).current, 1int,
    {
        proof {
            reveal(named);
            reveal(call_arguments);
        }
        let name = self.parse_function_name()?;
        if self.eat(&TokenKind::LParen) {
            let args = self.parse_call_arguments()?;
            Ok(Expr::Call { name, args })
        } else if is_marked(name.as_str()) {
            Err(Error::new("local variable names cannot end with !".to_owned()))
        } else {
            Ok(Expr::Var(name))
        }
    }

    /// A match expression, from its keyword on.
    pub fn parse_match(&mut self) -> (result: Result<Expr, Error>)
        requires
            old(self).wf(),
        ensures
            agrees(result, match_expression(old(self).views(), old(self).current as int).1),
            final(self).moved(
                old(self),
                match_expression(old(self).views(), old(self).current as int),
            ),
            result is Ok ==> old(self).current < final(self).current,
        decreases old(self).tokens.len() - old(self).current, 1int,
    {
        proof {
            reveal(match_expression);
            reveal(expression);
            reveal(match_arms);
        }
        if !self.eat(&TokenKind::Match) {
            return Err(expected("expression", self.peek().pos));
        }
        let scrutinee = self.parse_expr()?;
        self.expect(&TokenKind::LBrace)?;
        self.skip_newlines();
        let arms = self.parse_arms()?;
        self.expect(&TokenKind::RBrace)?;
        Ok(Expr::Match { scrutinee: Box::new(scrutinee), arms })
    }

    /// The arms up to the closing brace of a match expression.
    pub fn parse_arms(&mut self) -> (result: Result<Vec<MatchArm>, Error>)
        requires
            old(self).wf(),
        ensures
            match (
                result,
                match_arms(old(self).views(), old(self).current as int, Seq::empty()).1,
            ) {
                (Ok(arms), Ok(views)) => arm_views(arms@) == views,
                (Err(error), Err(message)) => error@ == message,
                _ => false,
            },
            final(self).moved(
                old(self),
                match_arms(old(self).views(), old(self).current as int, Seq::empty()),
            ),
            result is Ok ==> old(self).current <= final(self).current,
        decreases old(self).tokens.len() - old(self).current, 8int,
    {
        proof {
            reveal(match_arms);
            reveal(expression);
        }
        let ghost t = self.views();
        let mut arms: Vec<MatchArm> = Vec::new();
        assert(arm_views(arms@) =~= Seq::empty());
        while !self.at(&TokenKind::RBrace)
            invariant
                self.wf(),
                self.tokens == old(self).tokens,
                t == self.views(),
                old(self).current <= self.current,
                match_arms(t, old(self).current as int, Seq::empty()) == match_arms(
                    t,
                    self.current as int,
                    arm_views(arms@),
                ),
            decreases self.tokens.len() - self.current,
        {
            proof {
                reveal(match_arms);
                reveal(expression);
            }
            if self.at(&TokenKind::Eof) {
                return Err(Error::new("unterminated match expression".to_owned()));
            }
            let pattern = self.parse_pattern()?;
            self.expect(&TokenKind::Arrow)?;
            let expr = self.parse_expr()?;
            let ghost before = arms@;
            let arm = MatchArm { pattern, expr };
            arms.push(arm);
            assert(arm_views(arms@) =~= arm_views(before).push(arm@));
            self.skip_newlines();
        }
        Ok(arms)
    }

    pub fn parse_block(&mut self) -> (result: Result<Block, Error>)
        requires
            old(self).wf(),
        ensures
            agrees(result, block(old(self).views(), old(self).current as int).1),
            final(self).moved(old(self), block(old(self).views(), old(self).current as int)),
            result is Ok ==> old(self).current < final(self).current,
        decreases old(self).tokens.len() - old(self).current, 1int,
    {
        proof {
            reveal(block);
            reveal(block_items);
        }
        self.expect(&TokenKind::LBrace)?;
        self.skip_newlines();
        let items = self.parse_block_items()?;
        self.expect(&TokenKind::RBrace)?;
        Ok(Block { items })
    }

    /// The items up to the closing brace of a block.
    pub fn parse_block_items(&mut self) -> (result: Result<Vec<BlockItem>, Error>)
        requires
            old(self).wf(),
        ensures
            match (
                result,
                block_items(old(self).views(), old(self).current as int, Seq::empty()).1,
            ) {
                (Ok(items), Ok(views)) => item_views(items@) == views,
                (Err(error), Err(message)) => error@ == message,
                _ => false,
            },
            final(self).moved(
                old(self),
                block_items(old(self).views(), old(self).current as int, Seq::empty()),
            ),
            result is Ok ==> old(self).current <= final(self).current,
        decreases old(self).tokens.len() - old(self).current, 9int,
    {
        proof {
            reveal(block_items);
            reveal(block_item);
        }
        let ghost t = self.views();
        let mut items: Vec<BlockItem> = Vec::new();
        assert(item_views(items@) =~= Seq::empty());
        while !self.at(&TokenKind::RBrace)
            invariant
                self.wf(),
                self.tokens == old(self).tokens,
                t == self.views(),
                old(self).current <= self.current,
                block_items(t, old(self).current as int, Seq::empty()) == block_items(
                    t,
                    self.current as int,
                    item_views(items@),
                ),
            decreases self.tokens.len() - self.current,
        {
            proof {
                reveal(block_items);
                reveal(block_item);
            }
            if self.at(&TokenKind::Eof) {
                return Err(Error::new("unterminated block".to_owned()));
            }
            let item = self.parse_block_item()?;
            let ghost before = items@;
            items.push(item);
            assert(item_views(items@) =~= item_views(before).push(item@));
            self.skip_newlines();
        }
        Ok(items)
    }

    /// The name that a binding starts with, where one stands here.
    pub fn peek_bound_name(&self) -> (name: Option<String>)
        requires
            self.wf(),
        ensures
            match (name, bound_name(self.views(), self.current as int)) {
                (Some(name), Some(view)) => name@ == view,
                (None, None) => true,
                _ => false,
            },
    {
        if let TokenKind::Ident(name) = &self.peek().kind {
            if let Some(next) = self.peek_n(1) {
                if next.kind == TokenKind::Eq {
                    return Some(name.clone());
                }
            }
        }
        None
    }

    /// One binding or expression.
    #[verifier::spinoff_prover]
    pub fn parse_block_item(&mut self) -> (result: Result<BlockItem, Error>)
        requires
            old(self).wf(),
        ensures
            agrees(result, block_item(old(self).views(), old(self).current as int).1),
            final(self).moved(old(self), block_item(old(self).views(), old(self).current as int)),
            result is Ok ==> old(self).current < final(self).current,
        decreases old(self).tokens.len() - old(self).current, 8int,
    {
        proof {
            reveal(block_item);
            reveal(expression);
        }
        match self.peek_bound_name() {
            Some(name) => {
                self.bump();
                self.bump();
                let expr = self.parse_expr()?;
                Ok(BlockItem::Binding { name, expr })
            },
            None => {
                let expr = self.parse_expr()?;
                Ok(BlockItem::Expr(expr))
            },
        }
    }

    pub fn parse_function(&mut self) -> (result: Result<Function, Error>)
        requires
            old(self).wf(),
        ensures
            agrees(result, function(old(self).views(), old(self).current as int).1),
            final(self).moved(old(self), function(old(self).views(), old(self).current as int)),
            result is Ok ==> old(self).current < final(self).current,
    {
        proof {
            reveal(function);
        }
        self.expect(&TokenKind::Fn)?;
        let name = self.parse_function_name()?;
        self.expect(&TokenKind::LParen)?;
        let params = self.parse_names()?;
        self.expect(&TokenKind::RParen)?;
        let return_annotation = if self.eat(&TokenKind::Arrow) {
            let ty = self.parse_type()?;
            Some(ty)
        } else {
            None
        };
        let body = self.parse_block()?;
        Ok(Function { name, params, return_annotation, body })
    }

    /// A function and the attributes before it.
    pub fn parse_declaration(&mut self) -> (result: Result<Function, Error>)
        requires
            old(self).wf(),
        ensures
            agrees(result, declaration(old(self).views(), old(self).current as int).1),
            final(self).moved(old(self), declaration(old(self).views(), old(self).current as int)),
            result is Ok ==> old(self).current < final(self).current,
    {
        self.parse_attributes()?;
        self.parse_function()
    }

    pub fn parse_program(&mut self) -> (result: Result<Program, Error>)
        requires
            old(self).wf(),
        ensures
            agrees(result, program(old(self).views(), old(self).current as int).1),
            final(self).moved(old(self), program(old(self).views(), old(self).current as int)),
    {
        proof {
            reveal(declarations);
        }
        let ghost t = self.views();
        let ghost start = self.current as int;
        let mut functions: Vec<Function> = Vec::new();
        assert(function_views(functions@) =~= Seq::empty());
        self.skip_newlines();
        while !self.at(&TokenKind::Eof)
            invariant
                self.wf(),
                self.tokens == old(self).tokens,
                t == self.views(),
                start == old(self).current,
                declarations(t, newlines(t, start), Seq::empty()) == declarations(
                    t,
                    self.current as int,
                    function_views(functions@),
                ),
            decreases self.tokens.len() - self.current,
        {
            proof {
                reveal(declarations);
            }
            let function = self.parse_declaration()?;
            let ghost before = functions@;
            functions.push(function);
            assert(function_views(functions@) =~= function_views(before).push(function@));
            self.skip_newlines();
        }
        Ok(Program { functions })
    }
}

} // verus!
