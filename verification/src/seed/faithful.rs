//! The emitted Rust program means what the program means.
use vstd::prelude::*;

use crate::seed::ast::{BlockView, ExprView, FunctionView, PrimType, ProgramView};
use crate::seed::emit::{
    block_text, exit_text, function_text, functions_text, last_named, lemma_last_named, name_text,
    padding, param_texts, program_text, type_text, types_of,
};
use crate::seed::emitted::lemma_block_text;
use crate::seed::evaluation::{call_value, function_named, named, status};
use crate::seed::lowering::{
    lemma_one, lemma_read, lemma_split, lemma_three, lemma_two, lowered, lowered_block, stands,
    step_stop, step_tail,
};
use crate::seed::matching::Value;
use crate::seed::meaning::{lemma_block_value, lemma_body, lemma_found, stand_for, stands_for};
use crate::seed::pieces::{
    blank, block_emittable, block_pieces, emittable, expr_pieces, lemma_around, lemma_pieces,
    lemma_regrouped, lemma_text_body, lemma_text_body_end, lemma_text_end, lemma_text_exit,
    lemma_text_exit_truth, lemma_text_function, lemma_text_line, lemma_text_main, lemma_text_open,
    lemma_text_bound, lemma_text_returns, lemma_text_separator, lemma_text_typed, lemma_text_unit,
    lemma_word, lemma_word_bool, lemma_word_i32, plain_name,
};
use crate::seed::rust::{
    is_sign, is_word, pieces, rust_call, rust_exit, rust_expr, rust_function, rust_functions,
    rust_params, rust_program, rust_status, rust_type, uncommented, Exit, Piece, Rust, RustFunction,
    RustItem,
};
use crate::seed::safety::{law_result_type, values_fit};
use crate::seed::typed::{TypedFunctionView, TypedProgramView};
use crate::seed::typing::{function_names, header_fits, well_typed};
use crate::text::{joined, law_joined};

verus! {

pub open spec fn type_pieces(ty: PrimType) -> Seq<Piece> {
    match ty {
        PrimType::I32 => seq![Piece::Word("i32"@)],
        PrimType::Bool => seq![Piece::Word("bool"@)],
        PrimType::Unit => seq![Piece::Sign('('), Piece::Sign(')')],
    }
}

proof fn lemma_type_text(ty: PrimType)
    ensures
        pieces(type_text(ty)) == type_pieces(ty),
{
    lemma_word_i32();
    lemma_word_bool();
    lemma_text_unit();
}

proof fn lemma_type_read(ty: PrimType, t: Seq<Piece>, at: int)
    requires
        stands(t, at, type_pieces(ty)),
    ensures
        type_pieces(ty).len() > 0,
        rust_type(t, at) == Some((ty, at + type_pieces(ty).len())),
{
    reveal_strlit("i32");
    reveal_strlit("bool");
    assert("i32"@.len() == 3 && "bool"@.len() == 4);
    match ty {
        PrimType::I32 => lemma_one(t, at, Piece::Word("i32"@)),
        PrimType::Bool => lemma_one(t, at, Piece::Word("bool"@)),
        PrimType::Unit => lemma_two(t, at, Piece::Sign('('), Piece::Sign(')')),
    }
}

pub open spec fn param_pieces(name: Seq<char>, ty: PrimType) -> Seq<Piece> {
    seq![Piece::Word(name), Piece::Sign(':')] + type_pieces(ty)
}

/// The parameters from `i` on.
pub open spec fn params_pieces(names: Seq<Seq<char>>, types: Seq<PrimType>, i: int) -> Seq<Piece>
    decreases names.len() - i,
{
    if 0 <= i < names.len() {
        param_pieces(names[i], types[i]) + if i + 1 < names.len() {
            seq![Piece::Sign(',')] + params_pieces(names, types, i + 1)
        } else {
            Seq::empty()
        }
    } else {
        Seq::empty()
    }
}

pub open spec fn all_plain(names: Seq<Seq<char>>) -> bool {
    forall|i: int| 0 <= i < names.len() ==> plain_name(#[trigger] names[i])
}

proof fn lemma_param_text(name: Seq<char>, ty: PrimType)
    requires
        plain_name(name),
    ensures
        pieces(name + ": "@ + type_text(ty)) == param_pieces(name, ty),
{
    lemma_word(name);
    lemma_type_text(ty);
    lemma_text_typed();
    lemma_pieces(name, ": "@);
    assert((name + ": "@).last() == ' ');
    lemma_pieces(name + ": "@, type_text(ty));
    assert(seq![Piece::Word(name)] + seq![Piece::Sign(':')] + type_pieces(ty) =~= param_pieces(
        name,
        ty,
    ));
}

#[verifier::rlimit(30)]
proof fn lemma_params_text(names: Seq<Seq<char>>, types: Seq<PrimType>, i: int)
    requires
        0 <= i <= names.len(),
        names.len() == types.len(),
        all_plain(names),
    ensures
        pieces(joined(param_texts(names, types).skip(i), ", "@)) == params_pieces(names, types, i),
    decreases names.len() - i,
{
    let list = param_texts(names, types).skip(i);
    if i < names.len() {
        assert(plain_name(names[i]));
        lemma_param_text(names[i], types[i]);
        assert(list[0] == names[i] + ": "@ + type_text(types[i]));
        if i + 1 < names.len() {
            let rest = param_texts(names, types).skip(i + 1);
            lemma_params_text(names, types, i + 1);
            law_joined(list, ", "@);
            assert(list.drop_first() =~= rest);
            lemma_text_separator();
            lemma_around(list[0], ", "@, joined(rest, ", "@));
            lemma_regrouped(
                param_pieces(names[i], types[i]),
                seq![Piece::Sign(',')],
                params_pieces(names, types, i + 1),
            );
        } else {
            assert(list.len() == 1);
            assert(params_pieces(names, types, i) =~= param_pieces(names[i], types[i]));
        }
    } else {
        assert(list.len() == 0);
        assert(pieces(Seq::empty()) =~= Seq::empty());
    }
}

#[verifier::rlimit(30)]
proof fn lemma_params_read(
    names: Seq<Seq<char>>,
    types: Seq<PrimType>,
    i: int,
    t: Seq<Piece>,
    at: int,
)
    requires
        0 <= i < names.len() || (i == 0 && names.len() == 0),
        names.len() == types.len(),
        stands(t, at, params_pieces(names, types, i) + seq![Piece::Sign(')')]),
    ensures
        rust_params(t, at, names.take(i), types.take(i)) == Some(
            (names, types, at + params_pieces(names, types, i).len() + 1),
        ),
    decreases names.len() - i,
{
    let close = seq![Piece::Sign(')')];
    if names.len() == 0 {
        lemma_split(t, at, params_pieces(names, types, i), close);
        lemma_one(t, at, close[0]);
        assert(names.take(0) =~= names);
        assert(types.take(0) =~= types);
    } else {
        let head = seq![Piece::Word(names[i]), Piece::Sign(':')];
        let ty = type_pieces(types[i]);
        let first = param_pieces(names[i], types[i]);
        let j = at + first.len();
        assert(names.take(i).push(names[i]) =~= names.take(i + 1));
        assert(types.take(i).push(types[i]) =~= types.take(i + 1));
        if i + 1 < names.len() {
            let comma = seq![Piece::Sign(',')];
            let rest = params_pieces(names, types, i + 1) + close;
            assert(params_pieces(names, types, i) + close =~= first + (comma + rest));
            lemma_split(t, at, first, comma + rest);
            lemma_split(t, at, head, ty);
            lemma_two(t, at, head[0], head[1]);
            lemma_type_read(types[i], t, at + 2);
            lemma_split(t, j, comma, rest);
            lemma_one(t, j, comma[0]);
            lemma_params_read(names, types, i + 1, t, j + 1);
        } else {
            assert(params_pieces(names, types, i) + close =~= first + close);
            lemma_split(t, at, first, close);
            lemma_split(t, at, head, ty);
            lemma_two(t, at, head[0], head[1]);
            lemma_type_read(types[i], t, at + 2);
            lemma_one(t, j, close[0]);
            assert(names.take(i + 1) =~= names);
            assert(types.take(i + 1) =~= types);
        }
    }
}

pub open spec fn exit_of(ret: PrimType) -> Exit {
    match ret {
        PrimType::I32 => Exit::Number,
        PrimType::Bool => Exit::Truth,
        PrimType::Unit => Exit::Done,
    }
}

pub open spec fn exit_pieces(ret: PrimType) -> Seq<Piece> {
    match ret {
        PrimType::I32 => seq![
            Piece::Word("std"@),
            Piece::Pair(':', ':'),
            Piece::Word("process"@),
            Piece::Pair(':', ':'),
            Piece::Word("exit"@),
            Piece::Sign('('),
            Piece::Word("_emela_result"@),
            Piece::Sign(')'),
            Piece::Sign(';'),
        ],
        PrimType::Bool => seq![
            Piece::Word("std"@),
            Piece::Pair(':', ':'),
            Piece::Word("process"@),
            Piece::Pair(':', ':'),
            Piece::Word("exit"@),
            Piece::Sign('('),
            Piece::Word("if"@),
            Piece::Word("_emela_result"@),
            Piece::Sign('{'),
            Piece::Word("0"@),
            Piece::Sign('}'),
            Piece::Word("else"@),
            Piece::Sign('{'),
            Piece::Word("1"@),
            Piece::Sign('}'),
            Piece::Sign(')'),
            Piece::Sign(';'),
        ],
        PrimType::Unit => Seq::empty(),
    }
}

proof fn lemma_exit_read(ret: PrimType, t: Seq<Piece>, at: int)
    requires
        stands(t, at, exit_pieces(ret) + seq![Piece::Sign('}')]),
    ensures
        rust_exit(t, at, "_emela_result"@) == Some(
            (exit_of(ret), at + exit_pieces(ret).len() + 1),
        ),
{
    let list = exit_pieces(ret);
    let close = seq![Piece::Sign('}')];
    lemma_split(t, at, list, close);
    lemma_one(t, at + list.len(), close[0]);
    reveal_strlit("if");
    reveal_strlit("_emela_result");
    assert("if"@.len() == 2 && "_emela_result"@.len() == 13);
    match ret {
        PrimType::I32 => {
            assert(t[at] == list[0] && t[at + 1] == list[1] && t[at + 2] == list[2]);
            assert(t[at + 3] == list[3] && t[at + 4] == list[4] && t[at + 5] == list[5]);
            assert(t[at + 6] == list[6] && t[at + 7] == list[7] && t[at + 8] == list[8]);
        },
        PrimType::Bool => {
            assert(t[at] == list[0] && t[at + 1] == list[1] && t[at + 2] == list[2]);
            assert(t[at + 3] == list[3] && t[at + 4] == list[4] && t[at + 5] == list[5]);
            assert(t[at + 6] == list[6] && t[at + 7] == list[7] && t[at + 8] == list[8]);
            assert(t[at + 9] == list[9] && t[at + 10] == list[10] && t[at + 11] == list[11]);
            assert(t[at + 12] == list[12] && t[at + 13] == list[13] && t[at + 14] == list[14]);
            assert(t[at + 15] == list[15] && t[at + 16] == list[16]);
        },
        PrimType::Unit => {},
    }
}

pub open spec fn main_head() -> Seq<Piece> {
    seq![
        Piece::Word("fn"@),
        Piece::Word("main"@),
        Piece::Sign('('),
        Piece::Sign(')'),
        Piece::Sign('{'),
        Piece::Word("let"@),
        Piece::Word("_emela_result"@),
        Piece::Sign(':'),
    ]
}

pub open spec fn function_pieces(function: FunctionView, typed: TypedFunctionView) -> Seq<Piece> {
    let body = block_pieces(function.body);
    let close = seq![Piece::Sign('}')];
    if function.name == "main"@ {
        main_head() + (type_pieces(typed.ret) + (seq![Piece::Sign('=')] + (body + (seq![
            Piece::Sign(';'),
        ] + (exit_pieces(typed.ret) + close)))))
    } else {
        seq![Piece::Word("fn"@), Piece::Word(name_text(function.name)), Piece::Sign('(')] + (
        params_pieces(function.params, typed.params, 0) + (seq![
            Piece::Sign(')'),
            Piece::Pair('-', '>'),
        ] + (type_pieces(typed.ret) + (seq![Piece::Sign('{')] + (body + close)))))
    }
}

/// The function has plain names, and types for its parameters.
pub open spec fn function_emittable(
    p: ProgramView,
    function: FunctionView,
    typed: TypedFunctionView,
) -> bool {
    &&& block_emittable(p, function.body)
    &&& plain_name(name_text(function.name))
    &&& all_plain(function.params)
    &&& function.params.len() == typed.params.len()
}

proof fn lemma_padding()
    ensures
        blank(padding(1)),
{
    reveal_strlit("    ");
    assert(padding(0) =~= Seq::empty());
    let pad = padding(1);
    assert(pad =~= "    "@);
    assert forall|i: int| 0 <= i < pad.len() implies #[trigger] pad[i] == ' ' by {
        assert(i == 0 || i == 1 || i == 2 || i == 3);
    }
}

#[verifier::rlimit(30)]
proof fn lemma_function_text(p: ProgramView, function: FunctionView, typed: TypedFunctionView)
    requires
        function_emittable(p, function, typed),
    ensures
        pieces(function_text(function, typed)) == function_pieces(function, typed),
        function_text(function, typed).len() > 0,
        function_text(function, typed).last() == '\n',
{
    let text = block_text(function.body, padding(1));
    let body = block_pieces(function.body);
    let ret = type_text(typed.ret);
    let close = seq![Piece::Sign('}')];
    lemma_padding();
    lemma_block_text(p, function.body, padding(1));
    lemma_type_text(typed.ret);
    if function.name == "main"@ {
        let head = "fn main() {\n    let _emela_result: "@;
        let exit = exit_text(typed.ret);
        lemma_text_main();
        lemma_text_bound();
        lemma_text_line();
        lemma_text_end();
        lemma_pieces(head, ret);
        lemma_around(head + ret, " = "@, text);
        lemma_pieces(head + ret + " = "@ + text, ";\n"@);
        let before = head + ret + " = "@ + text + ";\n"@;
        assert(before.last() == '\n');
        lemma_exit_text(typed.ret);
        lemma_pieces(before, exit);
        assert((before + exit).len() > 0);
        lemma_pieces(before + exit, "}\n\n"@);
        assert((before + exit + "}\n\n"@).last() == "}\n\n"@.last());
        let a = main_head();
        let b = type_pieces(typed.ret);
        let c = seq![Piece::Sign('=')];
        let d = seq![Piece::Sign(';')];
        let x = exit_pieces(typed.ret);
        assert(a + b + c + body + d + x + close =~= a + (b + (c + (body + (d + (x + close))))));
    } else {
        let name = name_text(function.name);
        let list = joined(param_texts(function.params, typed.params), ", "@);
        lemma_params_text(function.params, typed.params, 0);
        assert(param_texts(function.params, typed.params).skip(0) =~= param_texts(
            function.params,
            typed.params,
        ));
        lemma_word(name);
        lemma_text_function();
        lemma_text_open();
        lemma_text_returns();
        lemma_text_body();
        lemma_text_body_end();
        lemma_pieces("fn "@, name);
        lemma_around("fn "@ + name, "("@, list);
        lemma_around("fn "@ + name + "("@ + list, ") -> "@, ret);
        let before = "fn "@ + name + "("@ + list + ") -> "@ + ret;
        lemma_around(before, " {\n    "@, text);
        lemma_pieces(before + " {\n    "@ + text, "\n}\n\n"@);
        assert((before + " {\n    "@ + text + "\n}\n\n"@).last() == "\n}\n\n"@.last());
        let a = seq![Piece::Word("fn"@)];
        let b = seq![Piece::Word(name)];
        let c = seq![Piece::Sign('(')];
        let d = params_pieces(function.params, typed.params, 0);
        let e = seq![Piece::Sign(')'), Piece::Pair('-', '>')];
        let f = type_pieces(typed.ret);
        let g = seq![Piece::Sign('{')];
        let abc = seq![Piece::Word("fn"@), Piece::Word(name), Piece::Sign('(')];
        assert(a + b + c =~= abc);
        assert(abc + d + e + f + g + body + close =~= abc + (d + (e + (f + (g + (body + close))))));
    }
}

proof fn lemma_exit_text(ret: PrimType)
    ensures
        pieces(exit_text(ret)) == exit_pieces(ret),
{
    lemma_text_exit();
    lemma_text_exit_truth();
    assert(pieces(Seq::empty()) =~= Seq::empty());
}

/// The Rust function for a function.
pub open spec fn lowered_function(function: FunctionView, typed: TypedFunctionView) -> RustFunction {
    let body = lowered_block(function.body);
    if function.name == "main"@ {
        RustFunction {
            name: "main"@,
            params: Seq::empty(),
            types: Seq::empty(),
            ret: typed.ret,
            body,
            exit: Some(exit_of(typed.ret)),
        }
    } else {
        RustFunction {
            name: name_text(function.name),
            params: function.params,
            types: typed.params,
            ret: typed.ret,
            body: Rust::Block(seq![RustItem::Tail(body)]),
            exit: None,
        }
    }
}

proof fn lemma_body_read(p: ProgramView, block: BlockView, t: Seq<Piece>, at: int)
    requires
        block_emittable(p, block),
        stands(t, at, block_pieces(block)),
        !is_sign(t, at + block_pieces(block).len(), '('),
        !is_sign(t, at + block_pieces(block).len(), '.'),
    ensures
        rust_expr(t, at) == Some((lowered_block(block), at + block_pieces(block).len())),
        block_pieces(block).len() > 0,
        block_pieces(block)[0] == Piece::Sign('{'),
{
    let e = ExprView::Block(block);
    assert(emittable(p, e));
    assert(expr_pieces(e) == block_pieces(block));
    assert(lowered(e) == lowered_block(block));
    lemma_read(p, e, t, at);
    step_stop(t, at + block_pieces(block).len(), lowered_block(block));
}

#[verifier::rlimit(30)]
proof fn lemma_main_read(
    p: ProgramView,
    function: FunctionView,
    typed: TypedFunctionView,
    t: Seq<Piece>,
    at: int,
)
    requires
        function_emittable(p, function, typed),
        function.name == "main"@,
        stands(t, at, function_pieces(function, typed)),
    ensures
        rust_function(t, at) == Some(
            (lowered_function(function, typed), at + function_pieces(function, typed).len()),
        ),
{
    let a = main_head();
    let b = type_pieces(typed.ret);
    let c = seq![Piece::Sign('=')];
    let body = block_pieces(function.body);
    let d = seq![Piece::Sign(';')];
    let x = exit_pieces(typed.ret) + seq![Piece::Sign('}')];
    lemma_split(t, at, a, b + (c + (body + (d + x))));
    assert(t[at] == a[0] && t[at + 1] == a[1] && t[at + 2] == a[2] && t[at + 3] == a[3]);
    assert(t[at + 4] == a[4] && t[at + 5] == a[5] && t[at + 6] == a[6] && t[at + 7] == a[7]);
    let i = at + 8;
    lemma_split(t, i, b, c + (body + (d + x)));
    lemma_type_read(typed.ret, t, i);
    let j = i + b.len();
    lemma_split(t, j, c, body + (d + x));
    lemma_one(t, j, c[0]);
    lemma_split(t, j + 1, body, d + x);
    let k = j + 1 + body.len();
    lemma_split(t, k, d, x);
    lemma_one(t, k, d[0]);
    lemma_body_read(p, function.body, t, j + 1);
    lemma_exit_read(typed.ret, t, k + 1);
    step_main(
        t,
        at,
        typed.ret,
        j,
        lowered_block(function.body),
        k,
        exit_of(typed.ret),
        k + 1 + x.len(),
    );
}

/// The step of the reader on `main`.
proof fn step_main(
    t: Seq<Piece>,
    at: int,
    ret: PrimType,
    j: int,
    body: Rust,
    k: int,
    exit: Exit,
    end: int,
)
    requires
        is_word(t, at, "fn"@),
        is_word(t, at + 1, "main"@),
        is_sign(t, at + 2, '('),
        is_sign(t, at + 3, ')'),
        is_sign(t, at + 4, '{'),
        is_word(t, at + 5, "let"@),
        is_word(t, at + 6, "_emela_result"@),
        is_sign(t, at + 7, ':'),
        rust_type(t, at + 8) == Some((ret, j)),
        is_sign(t, j, '='),
        rust_expr(t, j + 1) == Some((body, k)),
        is_sign(t, k, ';'),
        rust_exit(t, k + 1, "_emela_result"@) == Some((exit, end)),
    ensures
        rust_function(t, at) == Some(
            (
                RustFunction {
                    name: "main"@,
                    params: Seq::empty(),
                    types: Seq::empty(),
                    ret,
                    body,
                    exit: Some(exit),
                },
                end,
            ),
        ),
{
    let none = Seq::<Seq<char>>::empty();
    assert(rust_params(t, at + 3, none, Seq::empty()) == Some(
        (none, Seq::<PrimType>::empty(), at + 4),
    ));
}

#[verifier::rlimit(30)]
proof fn lemma_function_read(
    p: ProgramView,
    function: FunctionView,
    typed: TypedFunctionView,
    t: Seq<Piece>,
    at: int,
)
    requires
        function_emittable(p, function, typed),
        function.name != "main"@,
        stands(t, at, function_pieces(function, typed)),
    ensures
        rust_function(t, at) == Some(
            (lowered_function(function, typed), at + function_pieces(function, typed).len()),
        ),
{
    let name = name_text(function.name);
    let a = seq![Piece::Word("fn"@), Piece::Word(name), Piece::Sign('(')];
    let d = params_pieces(function.params, typed.params, 0);
    let e = seq![Piece::Sign(')'), Piece::Pair('-', '>')];
    let f = type_pieces(typed.ret);
    let g = seq![Piece::Sign('{')];
    let body = block_pieces(function.body);
    let close = seq![Piece::Sign('}')];
    let rest = f + (g + (body + close));
    lemma_split(t, at, a, d + (e + rest));
    lemma_three(t, at, a[0], a[1], a[2]);
    let i = at + 3;
    let first = seq![Piece::Sign(')')];
    assert(d + (e + rest) =~= (d + first) + (seq![Piece::Pair('-', '>')] + rest));
    lemma_split(t, i, d, e + rest);
    lemma_split(t, i, d + first, seq![Piece::Pair('-', '>')] + rest);
    lemma_params_read(function.params, typed.params, 0, t, i);
    assert(function.params.take(0) =~= Seq::empty());
    assert(typed.params.take(0) =~= Seq::empty());
    let j = i + d.len();
    lemma_split(t, j, e, rest);
    lemma_two(t, j, e[0], e[1]);
    lemma_split(t, j + 2, f, g + (body + close));
    lemma_type_read(typed.ret, t, j + 2);
    let k = j + 2 + f.len();
    lemma_split(t, k, g, body + close);
    lemma_one(t, k, g[0]);
    lemma_split(t, k + 1, body, close);
    lemma_one(t, k + 1 + body.len(), close[0]);
    lemma_body_read(p, function.body, t, k + 1);
    assert(t[k + 1] == body[0]);
    let none = Seq::<RustItem>::empty();
    let value = lowered_block(function.body);
    step_tail(t, k + 1, none, value, k + 1 + body.len());
    assert(none.push(RustItem::Tail(value)) =~= seq![RustItem::Tail(value)]);
}

/// Each function of the program can be emitted, and no two get the same Rust name.
pub open spec fn program_emittable(p: ProgramView) -> bool {
    &&& forall|k: int|
        0 <= k < p.functions.len() ==> {
            &&& block_emittable(p, (#[trigger] p.functions[k]).body)
            &&& plain_name(name_text(p.functions[k].name))
            &&& all_plain(p.functions[k].params)
        }
    &&& forall|j: int, k: int|
        0 <= j < k < p.functions.len() ==> name_text((#[trigger] p.functions[j]).name)
            != name_text((#[trigger] p.functions[k]).name)
}

/// The functions from `i` on.
pub open spec fn functions_pieces(
    functions: Seq<FunctionView>,
    typed: TypedProgramView,
    i: int,
) -> Seq<Piece>
    decreases functions.len() - i,
{
    if 0 <= i < functions.len() {
        function_pieces(functions[i], typed.functions[i]) + functions_pieces(
            functions,
            typed,
            i + 1,
        )
    } else {
        Seq::empty()
    }
}

/// A function of a well-typed program is emitted with its own types.
proof fn lemma_types(p: ProgramView, typed: TypedProgramView, k: int)
    requires
        well_typed(p, typed),
        program_emittable(p),
        0 <= k < p.functions.len(),
    ensures
        types_of(typed, p.functions[k].name) == typed.functions[k],
        function_emittable(p, p.functions[k], typed.functions[k]),
        header_fits(p.functions[k], typed.functions[k]),
{
    let name = p.functions[k].name;
    assert(header_fits(p.functions[k], typed.functions[k]));
    lemma_last_named(typed.functions, name, typed.functions.len() as int);
    let j = last_named(typed.functions, name, typed.functions.len() as int);
    if j == -1 {
        assert(typed.functions[k].name != name);
    } else {
        assert(header_fits(p.functions[j], typed.functions[j]));
        let names = function_names(p.functions);
        assert(names[j] == names[k]);
    }
    assert(block_emittable(p, p.functions[k].body));
}

proof fn lemma_functions_text(p: ProgramView, typed: TypedProgramView, n: int)
    requires
        well_typed(p, typed),
        program_emittable(p),
        0 <= n <= p.functions.len(),
    ensures
        pieces(functions_text(p.functions, typed, n)) + functions_pieces(p.functions, typed, n)
            == functions_pieces(p.functions, typed, 0),
        n > 0 ==> functions_text(p.functions, typed, n).len() > 0 && functions_text(
            p.functions,
            typed,
            n,
        ).last() == '\n',
        n == 0 ==> functions_text(p.functions, typed, n).len() == 0,
    decreases n,
{
    if n > 0 {
        let before = functions_text(p.functions, typed, n - 1);
        let function = p.functions[n - 1];
        lemma_functions_text(p, typed, n - 1);
        lemma_types(p, typed, n - 1);
        let text = function_text(function, typed.functions[n - 1]);
        lemma_function_text(p, function, typed.functions[n - 1]);
        lemma_pieces(before, text);
        assert((before + text).last() == text.last());
        lemma_regrouped(
            pieces(before),
            function_pieces(function, typed.functions[n - 1]),
            functions_pieces(p.functions, typed, n),
        );
    } else {
        assert(pieces(Seq::empty()) =~= Seq::empty());
        assert(Seq::<Piece>::empty() + functions_pieces(p.functions, typed, 0)
            =~= functions_pieces(p.functions, typed, 0));
    }
}

pub open spec fn lowered_functions(p: ProgramView, typed: TypedProgramView) -> Seq<RustFunction> {
    Seq::new(
        p.functions.len(),
        |k: int| lowered_function(p.functions[k], typed.functions[k]),
    )
}

proof fn lemma_functions_read(
    p: ProgramView,
    typed: TypedProgramView,
    i: int,
    t: Seq<Piece>,
    at: int,
)
    requires
        well_typed(p, typed),
        program_emittable(p),
        0 <= i <= p.functions.len(),
        stands(t, at, functions_pieces(p.functions, typed, i)),
        t.len() == at + functions_pieces(p.functions, typed, i).len(),
    ensures
        rust_functions(t, at, lowered_functions(p, typed).take(i)) == Some(
            lowered_functions(p, typed),
        ),
    decreases p.functions.len() - i,
{
    let all = lowered_functions(p, typed);
    if i < p.functions.len() {
        let function = p.functions[i];
        let first = function_pieces(function, typed.functions[i]);
        lemma_types(p, typed, i);
        lemma_split(t, at, first, functions_pieces(p.functions, typed, i + 1));
        if function.name == "main"@ {
            lemma_main_read(p, function, typed.functions[i], t, at);
        } else {
            lemma_function_read(p, function, typed.functions[i], t, at);
        }
        assert(all.take(i).push(all[i]) =~= all.take(i + 1));
        lemma_functions_read(p, typed, i + 1, t, at + first.len());
    } else {
        assert(all.take(i) =~= all);
    }
}

proof fn lemma_uncommented(comment: Seq<char>, text: Seq<char>)
    requires
        !comment.contains('\n'),
        text.len() > 0,
        text[0] == '\n',
    ensures
        uncommented(comment + text) == text,
    decreases comment.len(),
{
    if comment.len() == 0 {
        assert(comment + text =~= text);
    } else {
        let rest = comment.drop_first();
        assert((comment + text).drop_first() =~= rest + text);
        assert(comment.contains(comment[0]));
        assert(!rest.contains('\n')) by {
            assert forall|i: int| 0 <= i < rest.len() implies rest[i] != '\n' by {
                assert(rest[i] == comment[i + 1]);
                assert(comment.contains(comment[i + 1]));
            }
        }
        lemma_uncommented(rest, text);
    }
}

proof fn lemma_comment()
    ensures
        !"// Generated by the Emela compiler."@.contains('\n'),
        "// Generated by the Emela compiler."@.len() > 1,
        "// Generated by the Emela compiler."@[0] == '/',
        "// Generated by the Emela compiler."@[1] == '/',
        "// Generated by the Emela compiler.\n\n"@ == "// Generated by the Emela compiler."@ + seq![
            '\n',
            '\n',
        ],
{
    reveal_strlit("// Generated by the Emela compiler.");
    reveal_strlit("// Generated by the Emela compiler.\n\n");
    let comment = "// Generated by the Emela compiler."@;
    assert forall|i: int| 0 <= i < comment.len() implies comment[i] != '\n' by {
        assert(i == 0 || i == 1 || i == 2 || i == 3 || i == 4 || i == 5 || i == 6 || i == 7
            || i == 8 || i == 9 || i == 10 || i == 11 || i == 12 || i == 13 || i == 14
            || i == 15 || i == 16 || i == 17 || i == 18 || i == 19 || i == 20 || i == 21
            || i == 22 || i == 23 || i == 24 || i == 25 || i == 26 || i == 27 || i == 28
            || i == 29 || i == 30 || i == 31 || i == 32 || i == 33 || i == 34);
    }
    assert("// Generated by the Emela compiler.\n\n"@ =~= comment + seq!['\n', '\n']);
}

/// The emitted text of a program is read as the Rust functions for its functions.
proof fn lemma_program_read(p: ProgramView, typed: TypedProgramView)
    requires
        well_typed(p, typed),
        program_emittable(p),
    ensures
        rust_program(program_text(p, typed)) == Some(lowered_functions(p, typed)),
{
    let n = p.functions.len() as int;
    let body = functions_text(p.functions, typed, n);
    let comment = "// Generated by the Emela compiler."@;
    let feeds = seq!['\n', '\n'];
    lemma_comment();
    let text = program_text(p, typed);
    assert(text =~= comment + (feeds + body));
    assert((feeds + body)[0] == '\n');
    lemma_uncommented(comment, feeds + body);
    let one = feeds + body;
    assert(one.drop_first().drop_first() =~= body);
    assert(one.drop_first()[0] == '\n');
    assert(one[0] == '\n');
    let two = one.drop_first();
    assert(two.len() > 0 && two[0] == '\n');
    assert(pieces(one) == pieces(two));
    assert(pieces(two) == pieces(two.drop_first()));
    assert(pieces(one) == pieces(body));
    lemma_functions_text(p, typed, n);
    assert(functions_pieces(p.functions, typed, n) =~= Seq::empty());
    assert(pieces(body) + Seq::<Piece>::empty() =~= pieces(body));
    let t = pieces(body);
    assert(stands(t, 0, functions_pieces(p.functions, typed, 0)));
    lemma_functions_read(p, typed, 0, t, 0);
    assert(lowered_functions(p, typed).take(0) =~= Seq::empty());
}

/// `main` takes no parameters.
proof fn lemma_main_plain(p: ProgramView, typed: TypedProgramView, k: int)
    requires
        well_typed(p, typed),
        0 <= k < p.functions.len(),
        p.functions[k].name == "main"@,
    ensures
        p.functions[k].params.len() == 0,
{
    let i = choose|i: int|
        0 <= i < p.functions.len() && (#[trigger] p.functions[i]).name == "main"@
            && p.functions[i].params.len() == 0;
    let names = function_names(p.functions);
    assert(names[i] == names[k]);
}

proof fn lemma_stand_for(p: ProgramView, typed: TypedProgramView)
    requires
        well_typed(p, typed),
        program_emittable(p),
    ensures
        stand_for(lowered_functions(p, typed), p),
{
    let all = lowered_functions(p, typed);
    reveal_strlit("main");
    assert("main"@.len() == 4 && "main"@[3] == 'n');
    assert(name_text("main"@) == "main"@);
    assert forall|k: int| 0 <= k < all.len() implies stands_for(
        #[trigger] all[k],
        p.functions[k],
    ) by {
        if p.functions[k].name == "main"@ {
            lemma_main_plain(p, typed, k);
            assert(p.functions[k].params =~= Seq::empty());
        }
    }
    assert forall|j: int, k: int| 0 <= j < k < all.len() implies (#[trigger] all[j]).name != (
    #[trigger] all[k]).name by {
        assert(stands_for(all[j], p.functions[j]) && stands_for(all[k], p.functions[k]));
        assert(name_text(p.functions[j].name) != name_text(p.functions[k].name));
    }
}

/// The name of the Rust function for a function: a mark at the end is spelled out.
pub open spec fn spelled_out(name: Seq<char>) -> Seq<char> {
    if name.len() > 0 && name.last() == '!' {
        name.drop_last() + "_effect"@
    } else {
        name
    }
}

/// The emitted text of a well-typed program is a Rust program that means the same. It has one
/// function for each function, with the name spelled out and with the types that were found. A
/// call of the one gives the value that a call of the other gives, whatever the arguments are and
/// however deep calls nest. The Rust program ends with the exit status of the program. Left out
/// are names that are words of Rust, two functions with one Rust name, and calls of `main`.
pub proof fn law_meaning(p: ProgramView, typed: TypedProgramView)
    requires
        well_typed(p, typed),
        program_emittable(p),
    ensures
        rust_program(program_text(p, typed)) matches Some(rust) && {
            &&& rust.len() == p.functions.len()
            &&& forall|k: int|
                0 <= k < rust.len() ==> {
                    &&& (#[trigger] rust[k]).name == spelled_out(p.functions[k].name)
                    &&& rust[k].params == p.functions[k].params
                    &&& rust[k].types == typed.functions[k].params
                    &&& rust[k].ret == typed.functions[k].ret
                }
            &&& forall|k: int, values: Seq<Value>, depth: nat|
                0 <= k < p.functions.len() ==> rust_call(
                    rust,
                    spelled_out(p.functions[k].name),
                    values,
                    depth,
                ) == #[trigger] call_value(p, p.functions[k].name, values, depth)
            &&& forall|depth: nat| #[trigger] rust_status(rust, depth) == status(p, depth)
        },
{
    let rust = lowered_functions(p, typed);
    lemma_program_read(p, typed);
    lemma_stand_for(p, typed);
    assert forall|k: int| 0 <= k < rust.len() implies {
        &&& (#[trigger] rust[k]).name == spelled_out(p.functions[k].name)
        &&& rust[k].params == p.functions[k].params
        &&& rust[k].types == typed.functions[k].params
        &&& rust[k].ret == typed.functions[k].ret
    } by {
        assert(stands_for(rust[k], p.functions[k]));
        lemma_types(p, typed, k);
        if p.functions[k].name == "main"@ {
            lemma_main_plain(p, typed, k);
            assert(typed.functions[k].params =~= Seq::empty());
        }
    }
    assert forall|k: int, values: Seq<Value>, depth: nat|
        0 <= k < p.functions.len() implies rust_call(
        rust,
        spelled_out(p.functions[k].name),
        values,
        depth,
    ) == #[trigger] call_value(p, p.functions[k].name, values, depth) by {
        lemma_call(rust, p, p.functions[k].name, values, depth);
    }
    assert forall|depth: nat| #[trigger] rust_status(rust, depth) == status(p, depth) by {
        lemma_status(p, typed, depth);
    }
}

proof fn lemma_call(
    rust: Seq<RustFunction>,
    p: ProgramView,
    name: Seq<char>,
    values: Seq<Value>,
    depth: nat,
)
    requires
        stand_for(rust, p),
        exists|k: int| 0 <= k < p.functions.len() && (#[trigger] p.functions[k]).name == name,
    ensures
        rust_call(rust, name_text(name), values, depth) == call_value(p, name, values, depth),
{
    lemma_found(rust, p, name);
    let k = function_named(p.functions, name)->Some_0;
    let function = p.functions[k];
    if function.params.len() == values.len() {
        let locals = named(function.params, values);
        lemma_body(rust, locals, lowered_block(function.body), depth);
        lemma_block_value(rust, p, locals, function.body, depth);
    }
}

proof fn lemma_status(p: ProgramView, typed: TypedProgramView, depth: nat)
    requires
        well_typed(p, typed),
        program_emittable(p),
    ensures
        rust_status(lowered_functions(p, typed), depth) == status(p, depth),
{
    let rust = lowered_functions(p, typed);
    lemma_stand_for(p, typed);
    let k = choose|k: int|
        0 <= k < p.functions.len() && (#[trigger] p.functions[k]).name == "main"@
            && p.functions[k].params.len() == 0;
    assert(p.functions[k].name == "main"@);
    reveal_strlit("main");
    assert("main"@.len() == 4 && "main"@[3] == 'n');
    assert(name_text("main"@) == "main"@);
    lemma_call(rust, p, "main"@, Seq::empty(), depth);
    lemma_found(rust, p, "main"@);
    let j = function_named(p.functions, "main"@)->Some_0;
    let names = function_names(p.functions);
    assert(names[j] == names[k]);
    lemma_types(p, typed, k);
    assert(values_fit(Seq::empty(), typed.functions[k].params));
    law_result_type(p, typed, k, Seq::empty(), depth);
}

} // verus!
