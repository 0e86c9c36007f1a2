//! The part of Rust that programs are emitted in: how its text is read, and what it means.
use vstd::prelude::*;

use crate::seed::ast::{Pattern, PrimType};
use crate::seed::evaluation::{first_match, named, wrapped, Names};
use crate::seed::matching::Value;

verus! {

/// A piece of a Rust text.
pub enum Piece {
    /// A run of letters, digits and underscores.
    Word(Seq<char>),
    /// Any other character.
    Sign(char),
    /// Two characters that belong together.
    Pair(char, char),
}

pub open spec fn in_word(c: char) -> bool {
    'a' <= c <= 'z' || 'A' <= c <= 'Z' || '0' <= c <= '9' || c == '_'
}

/// The characters, one after the other, are one piece.
pub open spec fn is_pair(c: char, d: char) -> bool {
    ||| c == '=' && (d == '=' || d == '>')
    ||| c == '-' && d == '>'
    ||| c == ':' && d == ':'
}

/// The pieces of a text; white space only parts them.
pub open spec fn pieces(text: Seq<char>) -> Seq<Piece>
    decreases text.len(),
{
    if text.len() == 0 {
        Seq::empty()
    } else if text[0] == ' ' || text[0] == '\n' {
        pieces(text.drop_first())
    } else if in_word(text[0]) {
        let rest = pieces(text.drop_first());
        if text.len() > 1 && in_word(text[1]) {
            seq![Piece::Word(seq![text[0]] + rest[0]->Word_0)] + rest.drop_first()
        } else {
            seq![Piece::Word(seq![text[0]])] + rest
        }
    } else if text.len() > 1 && is_pair(text[0], text[1]) {
        seq![Piece::Pair(text[0], text[1])] + pieces(text.skip(2))
    } else {
        seq![Piece::Sign(text[0])] + pieces(text.drop_first())
    }
}

pub open spec fn is_word(t: Seq<Piece>, i: int, word: Seq<char>) -> bool {
    0 <= i < t.len() && t[i] == Piece::Word(word)
}

pub open spec fn is_sign(t: Seq<Piece>, i: int, c: char) -> bool {
    0 <= i < t.len() && t[i] == Piece::Sign(c)
}

pub open spec fn are_pair(t: Seq<Piece>, i: int, c: char, d: char) -> bool {
    0 <= i < t.len() && t[i] == Piece::Pair(c, d)
}

pub enum Rust {
    Int(i32),
    Bool(bool),
    Unit,
    Var(Seq<char>),
    Call { name: Seq<char>, args: Seq<Rust> },
    Method { receiver: Box<Rust>, name: Seq<char>, args: Seq<Rust> },
    Eq { left: Box<Rust>, right: Box<Rust> },
    Lt { left: Box<Rust>, right: Box<Rust> },
    Match { scrutinee: Box<Rust>, arms: Seq<RustArm> },
    Block(Seq<RustItem>),
}

pub struct RustArm {
    pub pattern: Pattern,
    pub expr: Rust,
}

pub enum RustItem {
    Let { name: Seq<char>, expr: Rust },
    /// The value of the block.
    Tail(Rust),
}

/// What `main` does with the value that it computes.
pub enum Exit {
    /// Nothing: the program ends well.
    Done,
    /// The number is the exit status.
    Number,
    /// The exit status is 0 or 1.
    Truth,
}

pub struct RustFunction {
    pub name: Seq<char>,
    pub params: Seq<Seq<char>>,
    pub types: Seq<PrimType>,
    pub ret: PrimType,
    pub body: Rust,
    pub exit: Option<Exit>,
}

/// The number that a run of decimal digits denotes.
pub open spec fn number(digits: Seq<char>) -> nat
    decreases digits.len(),
{
    if digits.len() == 0 {
        0
    } else {
        number(digits.drop_last()) * 10 + (digits.last() as nat - '0' as nat) as nat
    }
}

/// The number that a word like `12i32` stands for.
pub open spec fn literal(word: Seq<char>) -> Option<i32> {
    let n = word.len() - 3;
    if n > 0 && word.skip(n) == "i32"@ && (forall|i: int|
        0 <= i < n ==> '0' <= #[trigger] word[i] <= '9') && number(word.take(n)) <= i32::MAX {
        Some(number(word.take(n)) as i32)
    } else {
        None
    }
}

pub open spec fn starts_number(word: Seq<char>) -> bool {
    word.len() > 0 && '0' <= word[0] <= '9'
}

#[verifier::opaque]
pub open spec fn rust_expr(t: Seq<Piece>, i: int) -> Option<(Rust, int)>
    decreases t.len() - i, 3int,
{
    match rust_primary(t, i) {
        Some((e, j)) => if i < j <= t.len() {
            rust_suffix(t, j, e)
        } else {
            None
        },
        None => None,
    }
}

/// The method calls from `i` on, on what stands before.
#[verifier::opaque]
pub open spec fn rust_suffix(t: Seq<Piece>, i: int, receiver: Rust) -> Option<(Rust, int)>
    decreases t.len() - i, 0int,
{
    if is_sign(t, i, '.') {
        if i + 1 < t.len() && t[i + 1] is Word && is_sign(t, i + 2, '(') {
            match rust_args(t, i + 3, Seq::empty()) {
                Some((args, j)) => if i < j <= t.len() {
                    rust_suffix(
                        t,
                        j,
                        Rust::Method {
                            receiver: Box::new(receiver),
                            name: t[i + 1]->Word_0,
                            args,
                        },
                    )
                } else {
                    None
                },
                None => None,
            }
        } else {
            None
        }
    } else {
        Some((receiver, i))
    }
}

/// The arguments from `i` on, up to the closing parenthesis, after those in `list`.
#[verifier::opaque]
pub open spec fn rust_args(t: Seq<Piece>, i: int, list: Seq<Rust>) -> Option<(Seq<Rust>, int)>
    decreases t.len() - i, 5int,
{
    if list.len() == 0 && is_sign(t, i, ')') {
        Some((list, i + 1))
    } else {
        match rust_expr(t, i) {
            Some((e, j)) => if is_sign(t, j, ')') {
                Some((list.push(e), j + 1))
            } else if i <= j && is_sign(t, j, ',') {
                rust_args(t, j + 1, list.push(e))
            } else {
                None
            },
            None => None,
        }
    }
}

#[verifier::opaque]
pub open spec fn rust_primary(t: Seq<Piece>, i: int) -> Option<(Rust, int)>
    decreases t.len() - i, 2int,
{
    if i < 0 || i >= t.len() {
        None
    } else {
        match t[i] {
            Piece::Word(word) => if word == "match"@ {
                match rust_expr(t, i + 1) {
                    Some((scrutinee, j)) => if i < j && is_sign(t, j, '{') {
                        match rust_arms(t, j + 1, Seq::empty()) {
                            Some((arms, k)) => Some(
                                (Rust::Match { scrutinee: Box::new(scrutinee), arms }, k),
                            ),
                            None => None,
                        }
                    } else {
                        None
                    },
                    None => None,
                }
            } else if word == "true"@ {
                Some((Rust::Bool(true), i + 1))
            } else if word == "false"@ {
                Some((Rust::Bool(false), i + 1))
            } else if starts_number(word) {
                match literal(word) {
                    Some(value) => Some((Rust::Int(value), i + 1)),
                    None => None,
                }
            } else if is_sign(t, i + 1, '(') {
                match rust_args(t, i + 2, Seq::empty()) {
                    Some((args, j)) => Some((Rust::Call { name: word, args }, j)),
                    None => None,
                }
            } else {
                Some((Rust::Var(word), i + 1))
            },
            Piece::Sign('(') => if is_sign(t, i + 1, ')') {
                Some((Rust::Unit, i + 2))
            } else {
                match rust_expr(t, i + 1) {
                    Some((left, j)) => if i < j && (are_pair(t, j, '=', '=') || is_sign(
                        t,
                        j,
                        '<',
                    )) {
                        match rust_expr(t, j + 1) {
                            Some((right, k)) => if is_sign(t, k, ')') {
                                let left = Box::new(left);
                                let right = Box::new(right);
                                if is_sign(t, j, '<') {
                                    Some((Rust::Lt { left, right }, k + 1))
                                } else {
                                    Some((Rust::Eq { left, right }, k + 1))
                                }
                            } else {
                                None
                            },
                            None => None,
                        }
                    } else {
                        None
                    },
                    None => None,
                }
            },
            Piece::Sign('{') => match rust_items(t, i + 1, Seq::empty()) {
                Some((items, j)) => Some((Rust::Block(items), j)),
                None => None,
            },
            _ => None,
        }
    }
}

pub open spec fn rust_pattern(t: Seq<Piece>, i: int) -> Option<(Pattern, int)> {
    if i < 0 || i >= t.len() {
        None
    } else {
        match t[i] {
            Piece::Word(word) => if word == "_"@ {
                Some((Pattern::Wildcard, i + 1))
            } else if word == "true"@ {
                Some((Pattern::Bool(true), i + 1))
            } else if word == "false"@ {
                Some((Pattern::Bool(false), i + 1))
            } else {
                match literal(word) {
                    Some(value) => Some((Pattern::Int(value), i + 1)),
                    None => None,
                }
            },
            Piece::Sign('(') => if is_sign(t, i + 1, ')') {
                Some((Pattern::Unit, i + 2))
            } else {
                None
            },
            _ => None,
        }
    }
}

/// The arms from `i` on, up to the closing brace, after those in `list`.
#[verifier::opaque]
pub open spec fn rust_arms(t: Seq<Piece>, i: int, list: Seq<RustArm>) -> Option<
    (Seq<RustArm>, int),
>
    decreases t.len() - i, 5int,
{
    if is_sign(t, i, '}') {
        Some((list, i + 1))
    } else {
        match rust_pattern(t, i) {
            Some((pattern, j)) => if i < j && are_pair(t, j, '=', '>') {
                match rust_expr(t, j + 1) {
                    Some((expr, k)) => if j < k && is_sign(t, k, ',') {
                        rust_arms(t, k + 1, list.push(RustArm { pattern, expr }))
                    } else {
                        None
                    },
                    None => None,
                }
            } else {
                None
            },
            None => None,
        }
    }
}

/// The items from `i` on, up to the closing brace, after those in `list`.
#[verifier::opaque]
pub open spec fn rust_items(t: Seq<Piece>, i: int, list: Seq<RustItem>) -> Option<
    (Seq<RustItem>, int),
>
    decreases t.len() - i, 5int,
{
    if is_sign(t, i, '}') {
        Some((list, i + 1))
    } else if is_word(t, i, "let"@) {
        if i + 1 < t.len() && t[i + 1] is Word && is_sign(t, i + 2, '=') {
            match rust_expr(t, i + 3) {
                Some((expr, j)) => if i < j && is_sign(t, j, ';') {
                    rust_items(
                        t,
                        j + 1,
                        list.push(RustItem::Let { name: t[i + 1]->Word_0, expr }),
                    )
                } else {
                    None
                },
                None => None,
            }
        } else {
            None
        }
    } else {
        match rust_expr(t, i) {
            Some((e, j)) => if is_sign(t, j, '}') {
                Some((list.push(RustItem::Tail(e)), j + 1))
            } else {
                None
            },
            None => None,
        }
    }
}

pub open spec fn rust_type(t: Seq<Piece>, i: int) -> Option<(PrimType, int)> {
    if is_word(t, i, "i32"@) {
        Some((PrimType::I32, i + 1))
    } else if is_word(t, i, "bool"@) {
        Some((PrimType::Bool, i + 1))
    } else if is_sign(t, i, '(') && is_sign(t, i + 1, ')') {
        Some((PrimType::Unit, i + 2))
    } else {
        None
    }
}

/// The parameters from `i` on, up to the closing parenthesis, after those given.
pub open spec fn rust_params(
    t: Seq<Piece>,
    i: int,
    names: Seq<Seq<char>>,
    types: Seq<PrimType>,
) -> Option<(Seq<Seq<char>>, Seq<PrimType>, int)>
    decreases t.len() - i,
{
    if names.len() == 0 && is_sign(t, i, ')') {
        Some((names, types, i + 1))
    } else if 0 <= i < t.len() && t[i] is Word && is_sign(t, i + 1, ':') {
        match rust_type(t, i + 2) {
            Some((ty, j)) => if is_sign(t, j, ')') {
                Some((names.push(t[i]->Word_0), types.push(ty), j + 1))
            } else if i < j && is_sign(t, j, ',') {
                rust_params(t, j + 1, names.push(t[i]->Word_0), types.push(ty))
            } else {
                None
            },
            None => None,
        }
    } else {
        None
    }
}

/// `std::process::exit(`
pub open spec fn calls_exit(t: Seq<Piece>, i: int) -> bool {
    &&& is_word(t, i, "std"@)
    &&& are_pair(t, i + 1, ':', ':')
    &&& is_word(t, i + 2, "process"@)
    &&& are_pair(t, i + 3, ':', ':')
    &&& is_word(t, i + 4, "exit"@)
    &&& is_sign(t, i + 5, '(')
}

/// What is done with the value of the variable `name`, up to the closing brace.
pub open spec fn rust_exit(t: Seq<Piece>, i: int, name: Seq<char>) -> Option<(Exit, int)> {
    if is_sign(t, i, '}') {
        Some((Exit::Done, i + 1))
    } else if calls_exit(t, i) && is_word(t, i + 6, name) && is_sign(t, i + 7, ')') && is_sign(
        t,
        i + 8,
        ';',
    ) && is_sign(t, i + 9, '}') {
        Some((Exit::Number, i + 10))
    } else if calls_exit(t, i) && is_word(t, i + 6, "if"@) && is_word(t, i + 7, name) && is_sign(
        t,
        i + 8,
        '{',
    ) && is_word(t, i + 9, "0"@) && is_sign(t, i + 10, '}') && is_word(t, i + 11, "else"@)
        && is_sign(t, i + 12, '{') && is_word(t, i + 13, "1"@) && is_sign(t, i + 14, '}')
        && is_sign(t, i + 15, ')') && is_sign(t, i + 16, ';') && is_sign(t, i + 17, '}') {
        Some((Exit::Truth, i + 18))
    } else {
        None
    }
}

/// A function from `i` on. One without a result binds a value first, and ends with it.
pub open spec fn rust_function(t: Seq<Piece>, i: int) -> Option<(RustFunction, int)> {
    if is_word(t, i, "fn"@) && i + 1 < t.len() && t[i + 1] is Word && is_sign(t, i + 2, '(') {
        let name = t[i + 1]->Word_0;
        match rust_params(t, i + 3, Seq::empty(), Seq::empty()) {
            Some((params, types, j)) => if are_pair(t, j, '-', '>') {
                match rust_type(t, j + 1) {
                    Some((ret, k)) => if is_sign(t, k, '{') {
                        match rust_items(t, k + 1, Seq::empty()) {
                            Some((items, end)) => Some(
                                (
                                    RustFunction {
                                        name,
                                        params,
                                        types,
                                        ret,
                                        body: Rust::Block(items),
                                        exit: None,
                                    },
                                    end,
                                ),
                            ),
                            None => None,
                        }
                    } else {
                        None
                    },
                    None => None,
                }
            } else if is_sign(t, j, '{') && is_word(t, j + 1, "let"@) && j + 2 < t.len() && t[j
                + 2] is Word && is_sign(t, j + 3, ':') {
                match rust_type(t, j + 4) {
                    Some((ret, k)) => if is_sign(t, k, '=') {
                        match rust_expr(t, k + 1) {
                            Some((body, l)) => if is_sign(t, l, ';') {
                                match rust_exit(t, l + 1, t[j + 2]->Word_0) {
                                    Some((exit, end)) => Some(
                                        (
                                            RustFunction {
                                                name,
                                                params,
                                                types,
                                                ret,
                                                body,
                                                exit: Some(exit),
                                            },
                                            end,
                                        ),
                                    ),
                                    None => None,
                                }
                            } else {
                                None
                            },
                            None => None,
                        }
                    } else {
                        None
                    },
                    None => None,
                }
            } else {
                None
            },
            None => None,
        }
    } else {
        None
    }
}

/// The functions from `i` on, after those in `list`.
pub open spec fn rust_functions(t: Seq<Piece>, i: int, list: Seq<RustFunction>) -> Option<
    Seq<RustFunction>,
>
    decreases t.len() - i,
{
    if i == t.len() {
        Some(list)
    } else {
        match rust_function(t, i) {
            Some((function, j)) => if i < j <= t.len() {
                rust_functions(t, j, list.push(function))
            } else {
                None
            },
            None => None,
        }
    }
}

/// The text without the comment on its first line.
pub open spec fn uncommented(text: Seq<char>) -> Seq<char>
    decreases text.len(),
{
    if text.len() == 0 || text[0] == '\n' {
        text
    } else {
        uncommented(text.drop_first())
    }
}

/// The functions of a Rust text that starts with a comment.
pub open spec fn rust_program(text: Seq<char>) -> Option<Seq<RustFunction>> {
    if text.len() > 1 && text[0] == '/' && text[1] == '/' {
        rust_functions(pieces(uncommented(text)), 0, Seq::empty())
    } else {
        None
    }
}

/// The position of a function with the name, if there is one.
pub open spec fn rust_named(functions: Seq<RustFunction>, name: Seq<char>) -> Option<int> {
    if exists|k: int| 0 <= k < functions.len() && (#[trigger] functions[k]).name == name {
        Some(choose|k: int| 0 <= k < functions.len() && (#[trigger] functions[k]).name == name)
    } else {
        None
    }
}

/// The result of a method on numbers.
pub open spec fn method_value(name: Seq<char>, receiver: Value, args: Seq<Value>) -> Option<Value> {
    match receiver {
        Value::I32(a) => if args.len() == 1 {
            match args[0] {
                Value::I32(b) => if name == "wrapping_add"@ {
                    Some(Value::I32(wrapped(a + b)))
                } else if name == "wrapping_sub"@ {
                    Some(Value::I32(wrapped(a - b)))
                } else if name == "wrapping_mul"@ {
                    Some(Value::I32(wrapped(a * b)))
                } else {
                    None
                },
                _ => None,
            }
        } else {
            None
        },
        _ => None,
    }
}

/// The value of an expression, where `locals` are bound and at most `depth` calls are nested.
pub open spec fn rust_value(
    functions: Seq<RustFunction>,
    locals: Names,
    e: Rust,
    depth: nat,
) -> Option<Value>
    decreases depth, e, 0int,
{
    match e {
        Rust::Int(value) => Some(Value::I32(value)),
        Rust::Bool(value) => Some(Value::Bool(value)),
        Rust::Unit => Some(Value::Unit),
        Rust::Var(name) => if locals.contains_key(name) {
            Some(locals[name])
        } else {
            None
        },
        Rust::Call { name, args } => match rust_values(functions, locals, args, 0, depth) {
            Some(values) => match rust_named(functions, name) {
                Some(k) => if depth > 0 && functions[k].exit is None && functions[k].params.len()
                    == values.len() {
                    rust_value(
                        functions,
                        named(functions[k].params, values),
                        functions[k].body,
                        (depth - 1) as nat,
                    )
                } else {
                    None
                },
                None => None,
            },
            None => None,
        },
        Rust::Method { receiver, name, args } => match rust_value(
            functions,
            locals,
            *receiver,
            depth,
        ) {
            Some(value) => match rust_values(functions, locals, args, 0, depth) {
                Some(values) => method_value(name, value, values),
                None => None,
            },
            None => None,
        },
        Rust::Eq { left, right } => match (
            rust_value(functions, locals, *left, depth),
            rust_value(functions, locals, *right, depth),
        ) {
            (Some(a), Some(b)) => Some(Value::Bool(a == b)),
            _ => None,
        },
        Rust::Lt { left, right } => match (
            rust_value(functions, locals, *left, depth),
            rust_value(functions, locals, *right, depth),
        ) {
            (Some(Value::I32(a)), Some(Value::I32(b))) => Some(Value::Bool(a < b)),
            _ => None,
        },
        Rust::Match { scrutinee, arms } => match rust_value(functions, locals, *scrutinee, depth) {
            Some(value) => {
                let k = first_match(
                    arms.map_values(|arm: RustArm| arm.pattern),
                    value,
                );
                if 0 <= k < arms.len() {
                    rust_arm_value(functions, locals, arms[k], depth)
                } else {
                    None
                }
            },
            None => None,
        },
        Rust::Block(items) => rust_run(functions, locals, items, 0, depth),
    }
}

pub open spec fn rust_arm_value(
    functions: Seq<RustFunction>,
    locals: Names,
    arm: RustArm,
    depth: nat,
) -> Option<Value>
    decreases depth, arm, 0int,
{
    rust_value(functions, locals, arm.expr, depth)
}

/// The values of the arguments from `i` on.
pub open spec fn rust_values(
    functions: Seq<RustFunction>,
    locals: Names,
    args: Seq<Rust>,
    i: int,
    depth: nat,
) -> Option<Seq<Value>>
    decreases depth, args, args.len() - i,
{
    if 0 <= i < args.len() {
        match rust_value(functions, locals, args[i], depth) {
            Some(value) => match rust_values(functions, locals, args, i + 1, depth) {
                Some(rest) => Some(seq![value] + rest),
                None => None,
            },
            None => None,
        }
    } else {
        Some(Seq::empty())
    }
}

/// The value of a block whose items from `i` on are left. What is bound to `_` is dropped.
pub open spec fn rust_run(
    functions: Seq<RustFunction>,
    locals: Names,
    items: Seq<RustItem>,
    i: int,
    depth: nat,
) -> Option<Value>
    decreases depth, items, items.len() - i,
{
    if 0 <= i < items.len() {
        match rust_item_value(functions, locals, items[i], depth) {
            Some(value) => match items[i] {
                RustItem::Let { name, .. } => rust_run(
                    functions,
                    if name == "_"@ {
                        locals
                    } else {
                        locals.insert(name, value)
                    },
                    items,
                    i + 1,
                    depth,
                ),
                RustItem::Tail(_) => Some(value),
            },
            None => None,
        }
    } else {
        Some(Value::Unit)
    }
}

pub open spec fn rust_item_value(
    functions: Seq<RustFunction>,
    locals: Names,
    item: RustItem,
    depth: nat,
) -> Option<Value>
    decreases depth, item, 0int,
{
    match item {
        RustItem::Let { expr, .. } => rust_value(functions, locals, expr, depth),
        RustItem::Tail(expr) => rust_value(functions, locals, expr, depth),
    }
}

/// The value that a call of a function gives.
pub open spec fn rust_call(
    functions: Seq<RustFunction>,
    name: Seq<char>,
    values: Seq<Value>,
    depth: nat,
) -> Option<Value> {
    match rust_named(functions, name) {
        Some(k) => if functions[k].params.len() == values.len() {
            rust_value(functions, named(functions[k].params, values), functions[k].body, depth)
        } else {
            None
        },
        None => None,
    }
}

/// The exit status of a program.
pub open spec fn rust_status(functions: Seq<RustFunction>, depth: nat) -> Option<int> {
    match rust_named(functions, "main"@) {
        Some(k) => match (
            rust_call(functions, "main"@, Seq::empty(), depth),
            functions[k].exit,
        ) {
            (Some(_), Some(Exit::Done)) => Some(0),
            (Some(Value::I32(n)), Some(Exit::Number)) => Some(n as int),
            (Some(Value::Bool(b)), Some(Exit::Truth)) => Some(
                if b {
                    0
                } else {
                    1
                },
            ),
            _ => None,
        },
        None => None,
    }
}

} // verus!
