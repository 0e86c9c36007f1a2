//! Rust programs for programs of the seed language.
use vstd::prelude::*;

use crate::seed::ast::{
    arm_views, expr_views, BinaryOp, Block, BlockItem, BlockItemView, BlockView, Expr, ExprView,
    Function, FunctionView, MatchArm, MatchArmView, Pattern, PrimType, Program, ProgramView,
};
use crate::seed::typed::{TypedFunction, TypedFunctionView, TypedProgram, TypedProgramView};
use crate::text::{
    ends_with_bang, is_marked, join, joined, same_text, signed_decimal, signed_decimal_text, texts,
};

verus! {

/// The white space of `depth` levels of indentation.
pub open spec fn padding(depth: nat) -> Seq<char>
    decreases depth,
{
    if depth == 0 {
        Seq::empty()
    } else {
        padding((depth - 1) as nat) + "    "@
    }
}

pub open spec fn bool_text(value: bool) -> Seq<char> {
    if value {
        "true"@
    } else {
        "false"@
    }
}

/// The Rust type for a type.
pub open spec fn type_text(ty: PrimType) -> Seq<char> {
    match ty {
        PrimType::I32 => "i32"@,
        PrimType::Bool => "bool"@,
        PrimType::Unit => "()"@,
    }
}

/// The Rust name of a function: a mark at the end is spelled out.
pub open spec fn name_text(name: Seq<char>) -> Seq<char> {
    if ends_with_bang(name) {
        name.drop_last() + "_effect"@
    } else {
        name
    }
}

pub open spec fn pattern_text(pattern: Pattern) -> Seq<char> {
    match pattern {
        Pattern::Int(value) => signed_decimal(value as int) + "i32"@,
        Pattern::Bool(value) => bool_text(value),
        Pattern::Unit => "()"@,
        Pattern::Wildcard => "_"@,
    }
}

/// A binary operation on two Rust expressions; arithmetic wraps around.
pub open spec fn binary_text(op: BinaryOp, left: Seq<char>, right: Seq<char>) -> Seq<char> {
    match op {
        BinaryOp::Add => left + ".wrapping_add("@ + right + ")"@,
        BinaryOp::Sub => left + ".wrapping_sub("@ + right + ")"@,
        BinaryOp::Mul => left + ".wrapping_mul("@ + right + ")"@,
        BinaryOp::Eq => "("@ + left + " == "@ + right + ")"@,
        BinaryOp::Lt => "("@ + left + " < "@ + right + ")"@,
    }
}

/// The Rust expression for an expression that stands in a block indented by `pad`.
pub open spec fn expr_text(expr: ExprView, pad: Seq<char>) -> Seq<char>
    decreases expr, 0int,
{
    match expr {
        ExprView::Int(value) => signed_decimal(value as int) + "i32"@,
        ExprView::Bool(value) => bool_text(value),
        ExprView::Unit => "()"@,
        ExprView::Var(name) => name,
        ExprView::Call { name, args } => name_text(name) + "("@ + joined(
            expr_texts(args, pad),
            ", "@,
        ) + ")"@,
        ExprView::MethodCall { receiver, name, args } => expr_text(*receiver, pad) + "."@ + name
            + "("@ + joined(expr_texts(args, pad), ", "@) + ")"@,
        ExprView::Binary { op, left, right } => binary_text(
            op,
            expr_text(*left, pad),
            expr_text(*right, pad),
        ),
        ExprView::Match { scrutinee, arms } => "match "@ + expr_text(*scrutinee, pad) + " { "@
            + joined(arm_texts(arms, pad), " "@) + " }"@,
        ExprView::Block(block) => block_text(block, pad),
    }
}

pub open spec fn expr_texts(list: Seq<ExprView>, pad: Seq<char>) -> Seq<Seq<char>>
    decreases list, 0int,
{
    Seq::new(
        list.len(),
        |i: int|
            if 0 <= i < list.len() {
                expr_text(list[i], pad)
            } else {
                arbitrary()
            },
    )
}

pub open spec fn arm_text(arm: MatchArmView, pad: Seq<char>) -> Seq<char>
    decreases arm, 0int,
{
    pattern_text(arm.pattern) + " => "@ + expr_text(arm.expr, pad) + ","@
}

pub open spec fn arm_texts(list: Seq<MatchArmView>, pad: Seq<char>) -> Seq<Seq<char>>
    decreases list, 0int,
{
    Seq::new(
        list.len(),
        |i: int|
            if 0 <= i < list.len() {
                arm_text(list[i], pad)
            } else {
                arbitrary()
            },
    )
}

/// One line of a block for each item; the last item gives the value of the block.
pub open spec fn item_text(item: BlockItemView, is_last: bool, pad: Seq<char>) -> Seq<char>
    decreases item, 0int,
{
    match item {
        BlockItemView::Binding { name, expr } => {
            let line = pad + "let "@ + name + " = "@ + expr_text(expr, pad) + ";\n"@;
            if is_last {
                line + pad + "()\n"@
            } else {
                line
            }
        },
        BlockItemView::Expr(expr) => if is_last {
            pad + expr_text(expr, pad) + "\n"@
        } else {
            pad + "let _ = "@ + expr_text(expr, pad) + ";\n"@
        },
    }
}

/// The lines of the first `n` items.
pub open spec fn items_text(items: Seq<BlockItemView>, n: int, pad: Seq<char>) -> Seq<char>
    decreases items, n,
{
    if 0 < n <= items.len() {
        items_text(items, n - 1, pad) + item_text(items[n - 1], n == items.len(), pad)
    } else {
        Seq::empty()
    }
}

/// The Rust block for a block whose closing brace is indented by `pad`.
pub open spec fn block_text(block: BlockView, pad: Seq<char>) -> Seq<char>
    decreases block, 0int,
{
    if block.items.len() == 0 {
        "{}"@
    } else {
        "{\n"@ + items_text(block.items, block.items.len() as int, pad + "    "@) + pad + "}"@
    }
}

/// The parameters of a function with their types.
pub open spec fn param_texts(names: Seq<Seq<char>>, types: Seq<PrimType>) -> Seq<Seq<char>> {
    Seq::new(
        if names.len() <= types.len() {
            names.len()
        } else {
            types.len()
        },
        |i: int| names[i] + ": "@ + type_text(types[i]),
    )
}

/// The last statement of the Rust `main`: the result becomes the exit status.
pub open spec fn exit_text(ret: PrimType) -> Seq<char> {
    match ret {
        PrimType::I32 => "    std::process::exit(_emela_result);\n"@,
        PrimType::Bool => "    std::process::exit(if _emela_result { 0 } else { 1 });\n"@,
        PrimType::Unit => Seq::empty(),
    }
}

pub open spec fn function_text(function: FunctionView, typed: TypedFunctionView) -> Seq<char> {
    let body = block_text(function.body, padding(1));
    if function.name == "main"@ {
        "fn main() {\n    let _emela_result: "@ + type_text(typed.ret) + " = "@ + body + ";\n"@
            + exit_text(typed.ret) + "}\n\n"@
    } else {
        "fn "@ + name_text(function.name) + "("@ + joined(
            param_texts(function.params, typed.params),
            ", "@,
        ) + ") -> "@ + type_text(typed.ret) + " {\n    "@ + body + "\n}\n\n"@
    }
}

/// The position of the last of the first `n` functions with a given name, or -1.
pub open spec fn last_named(functions: Seq<TypedFunctionView>, name: Seq<char>, n: int) -> int
    decreases n,
{
    if n <= 0 {
        -1
    } else if functions[n - 1].name == name {
        n - 1
    } else {
        last_named(functions, name, n - 1)
    }
}

/// The types of a function.
pub open spec fn types_of(typed: TypedProgramView, name: Seq<char>) -> TypedFunctionView {
    typed.functions[last_named(typed.functions, name, typed.functions.len() as int)]
}

/// Some function of `typed` has the name.
pub open spec fn has_types(typed: TypedProgramView, name: Seq<char>) -> bool {
    exists|i: int|
        0 <= i < typed.functions.len() && (#[trigger] typed.functions[i]).name == name
}

/// The Rust texts of the first `n` functions.
pub open spec fn functions_text(
    functions: Seq<FunctionView>,
    typed: TypedProgramView,
    n: int,
) -> Seq<char>
    decreases n,
{
    if n <= 0 {
        Seq::empty()
    } else {
        functions_text(functions, typed, n - 1) + function_text(
            functions[n - 1],
            types_of(typed, functions[n - 1].name),
        )
    }
}

pub open spec fn program_text(program: ProgramView, typed: TypedProgramView) -> Seq<char> {
    "// Generated by the Emela compiler.\n\n"@ + functions_text(
        program.functions,
        typed,
        program.functions.len() as int,
    )
}

pub proof fn lemma_last_named(functions: Seq<TypedFunctionView>, name: Seq<char>, n: int)
    requires
        0 <= n <= functions.len(),
    ensures
        -1 <= last_named(functions, name, n) < n,
        last_named(functions, name, n) >= 0 ==> functions[last_named(functions, name, n)].name
            == name,
        last_named(functions, name, n) == -1 ==> forall|i: int|
            0 <= i < n ==> (#[trigger] functions[i]).name != name,
    decreases n,
{
    if n > 0 && functions[n - 1].name != name {
        lemma_last_named(functions, name, n - 1);
    }
}

pub fn rust_type(ty: PrimType) -> (text: &'static str)
    ensures
        text@ == type_text(ty),
{
    match ty {
        PrimType::I32 => "i32",
        PrimType::Bool => "bool",
        PrimType::Unit => "()",
    }
}

pub fn rust_name(name: &str) -> (text: String)
    ensures
        text@ == name_text(name@),
{
    if is_marked(name) {
        let len: usize = name.unicode_len();
        let base = name.substring_char(0, len - 1);
        assert(base@ =~= name@.drop_last());
        let mut text = base.to_owned();
        text.append("_effect");
        text
    } else {
        name.to_owned()
    }
}

fn bool_name(value: bool) -> (text: String)
    ensures
        text@ == bool_text(value),
{
    if value {
        "true".to_owned()
    } else {
        "false".to_owned()
    }
}

pub fn emit_pattern(pattern: &Pattern) -> (text: String)
    ensures
        text@ == pattern_text(*pattern),
{
    match pattern {
        Pattern::Int(value) => {
            let mut text = signed_decimal_text(*value);
            text.append("i32");
            text
        },
        Pattern::Bool(value) => bool_name(*value),
        Pattern::Unit => "()".to_owned(),
        Pattern::Wildcard => "_".to_owned(),
    }
}

fn emit_binary(op: BinaryOp, left: &str, right: &str) -> (text: String)
    ensures
        text@ == binary_text(op, left@, right@),
{
    match op {
        BinaryOp::Add => {
            let mut text = left.to_owned();
            text.append(".wrapping_add(");
            text.append(right);
            text.append(")");
            text
        },
        BinaryOp::Sub => {
            let mut text = left.to_owned();
            text.append(".wrapping_sub(");
            text.append(right);
            text.append(")");
            text
        },
        BinaryOp::Mul => {
            let mut text = left.to_owned();
            text.append(".wrapping_mul(");
            text.append(right);
            text.append(")");
            text
        },
        BinaryOp::Eq => {
            let mut text = "(".to_owned();
            text.append(left);
            text.append(" == ");
            text.append(right);
            text.append(")");
            text
        },
        BinaryOp::Lt => {
            let mut text = "(".to_owned();
            text.append(left);
            text.append(" < ");
            text.append(right);
            text.append(")");
            text
        },
    }
}

fn emit_args(args: &Vec<Expr>, pad: &str) -> (text: String)
    ensures
        text@ == joined(expr_texts(expr_views(args@), pad@), ", "@),
    decreases args@, 1int,
{
    let ghost views = expr_views(args@);
    let mut parts: Vec<String> = Vec::new();
    let mut i: usize = 0;
    while i < args.len()
        invariant
            i <= args.len(),
            views == expr_views(args@),
            parts.len() == i,
            forall|k: int|
                0 <= k < i ==> (#[trigger] parts@[k])@ == expr_text(views[k], pad@),
        decreases args.len() - i,
    {
        let part = emit_expr_padded(&args[i], pad);
        parts.push(part);
        i += 1;
    }
    assert(texts(parts@) =~= expr_texts(views, pad@));
    join(&parts, ", ")
}

fn emit_arms(arms: &Vec<MatchArm>, pad: &str) -> (text: String)
    ensures
        text@ == joined(arm_texts(arm_views(arms@), pad@), " "@),
    decreases arms@, 1int,
{
    let ghost views = arm_views(arms@);
    let mut parts: Vec<String> = Vec::new();
    let mut i: usize = 0;
    while i < arms.len()
        invariant
            i <= arms.len(),
            views == arm_views(arms@),
            parts.len() == i,
            forall|k: int| 0 <= k < i ==> (#[trigger] parts@[k])@ == arm_text(views[k], pad@),
        decreases arms.len() - i,
    {
        let part = emit_arm(&arms[i], pad);
        parts.push(part);
        i += 1;
    }
    assert(texts(parts@) =~= arm_texts(views, pad@));
    join(&parts, " ")
}

fn emit_arm(arm: &MatchArm, pad: &str) -> (text: String)
    ensures
        text@ == arm_text(arm@, pad@),
    decreases arm, 0int,
{
    let mut text = emit_pattern(&arm.pattern);
    text.append(" => ");
    text.append(emit_expr_padded(&arm.expr, pad).as_str());
    text.append(",");
    text
}

/// The Rust expression for an expression that stands in a block indented by `pad`.
pub fn emit_expr_padded(expr: &Expr, pad: &str) -> (text: String)
    ensures
        text@ == expr_text(expr@, pad@),
    decreases expr, 0int,
{
    match expr {
        Expr::Int(value) => {
            let mut text = signed_decimal_text(*value);
            text.append("i32");
            text
        },
        Expr::Bool(value) => bool_name(*value),
        Expr::Unit => "()".to_owned(),
        Expr::Var(name) => name.clone(),
        Expr::Call { name, args } => {
            let mut text = rust_name(name.as_str());
            text.append("(");
            text.append(emit_args(args, pad).as_str());
            text.append(")");
            text
        },
        Expr::MethodCall { receiver, name, args } => {
            let mut text = emit_expr_padded(receiver, pad);
            text.append(".");
            text.append(name.as_str());
            text.append("(");
            text.append(emit_args(args, pad).as_str());
            text.append(")");
            text
        },
        Expr::Binary { op, left, right } => {
            let left = emit_expr_padded(left, pad);
            let right = emit_expr_padded(right, pad);
            emit_binary(*op, left.as_str(), right.as_str())
        },
        Expr::Match { scrutinee, arms } => {
            let mut text = "match ".to_owned();
            text.append(emit_expr_padded(scrutinee, pad).as_str());
            text.append(" { ");
            text.append(emit_arms(arms, pad).as_str());
            text.append(" }");
            text
        },
        Expr::Block(block) => emit_block_padded(block, pad),
    }
}

fn emit_item(item: &BlockItem, is_last: bool, pad: &str) -> (text: String)
    ensures
        text@ == item_text(item@, is_last, pad@),
    decreases item, 0int,
{
    match item {
        BlockItem::Binding { name, expr } => {
            let mut text = pad.to_owned();
            text.append("let ");
            text.append(name.as_str());
            text.append(" = ");
            text.append(emit_expr_padded(expr, pad).as_str());
            text.append(";\n");
            if is_last {
                text.append(pad);
                text.append("()\n");
            }
            text
        },
        BlockItem::Expr(expr) => {
            let mut text = pad.to_owned();
            if is_last {
                text.append(emit_expr_padded(expr, pad).as_str());
                text.append("\n");
            } else {
                text.append("let _ = ");
                text.append(emit_expr_padded(expr, pad).as_str());
                text.append(";\n");
            }
            text
        },
    }
}

/// The Rust block for a block whose closing brace is indented by `pad`.
pub fn emit_block_padded(block: &Block, pad: &str) -> (text: String)
    ensures
        text@ == block_text(block@, pad@),
    decreases block, 0int,
{
    if block.items.len() == 0 {
        return "{}".to_owned();
    }
    let ghost items = block@.items;
    let mut inner = pad.to_owned();
    inner.append("    ");
    let mut text = "{\n".to_owned();
    let mut i: usize = 0;
    assert(text@ =~= "{\n"@ + items_text(items, 0, inner@));
    while i < block.items.len()
        invariant
            i <= block.items.len(),
            items == block@.items,
            text@ == "{\n"@ + items_text(items, i as int, inner@),
        decreases block.items.len() - i,
    {
        let is_last = i + 1 == block.items.len();
        let part = emit_item(&block.items[i], is_last, inner.as_str());
        text.append(part.as_str());
        i += 1;
        assert(text@ =~= "{\n"@ + items_text(items, i as int, inner@));
    }
    text.append(pad);
    text.append("}");
    text
}

fn indentation(depth: usize) -> (pad: String)
    ensures
        pad@ == padding(depth as nat),
{
    let mut pad = String::new();
    let mut i: usize = 0;
    while i < depth
        invariant
            i <= depth,
            pad@ == padding(i as nat),
        decreases depth - i,
    {
        pad.append("    ");
        i += 1;
    }
    pad
}

pub fn emit_expr(expr: &Expr, indent: usize) -> (text: String)
    ensures
        text@ == expr_text(expr@, padding(indent as nat)),
{
    emit_expr_padded(expr, indentation(indent).as_str())
}

pub fn emit_block(block: &Block, indent: usize) -> (text: String)
    ensures
        text@ == block_text(block@, padding(indent as nat)),
{
    emit_block_padded(block, indentation(indent).as_str())
}

fn emit_params(names: &Vec<String>, types: &Vec<PrimType>) -> (text: String)
    ensures
        text@ == joined(param_texts(texts(names@), types@), ", "@),
{
    let mut parts: Vec<String> = Vec::new();
    let mut i: usize = 0;
    while i < names.len() && i < types.len()
        invariant
            i <= names.len(),
            i <= types.len(),
            parts.len() == i,
            forall|k: int|
                0 <= k < i ==> (#[trigger] parts@[k])@ == names@[k]@ + ": "@ + type_text(types@[k]),
        decreases names.len() - i,
    {
        let mut part = names[i].clone();
        part.append(": ");
        part.append(rust_type(types[i]));
        parts.push(part);
        i += 1;
    }
    assert(texts(parts@) =~= param_texts(texts(names@), types@));
    join(&parts, ", ")
}

fn emit_function(function: &Function, typed: &TypedFunction) -> (text: String)
    ensures
        text@ == function_text(function@, typed@),
{
    let body = emit_block(&function.body, 1);
    if same_text(function.name.as_str(), "main") {
        let mut text = "fn main() {\n    let _emela_result: ".to_owned();
        text.append(rust_type(typed.ret));
        text.append(" = ");
        text.append(body.as_str());
        text.append(";\n");
        match typed.ret {
            PrimType::I32 => {
                text.append("    std::process::exit(_emela_result);\n");
            },
            PrimType::Bool => {
                text.append("    std::process::exit(if _emela_result { 0 } else { 1 });\n");
            },
            PrimType::Unit => {
                assert(text@ + exit_text(typed.ret) =~= text@);
            },
        }
        text.append("}\n\n");
        text
    } else {
        let mut text = "fn ".to_owned();
        text.append(rust_name(function.name.as_str()).as_str());
        text.append("(");
        text.append(emit_params(&function.params, &typed.params).as_str());
        text.append(") -> ");
        text.append(rust_type(typed.ret));
        text.append(" {\n    ");
        text.append(body.as_str());
        text.append("\n}\n\n");
        text
    }
}

/// The types of the function with a name.
fn find_types<'a>(typed: &'a TypedProgram, name: &str) -> (found: &'a TypedFunction)
    requires
        has_types(typed@, name@),
    ensures
        found@ == types_of(typed@, name@),
{
    let ghost views = typed@.functions;
    let mut i: usize = typed.functions.len();
    while i > 0
        invariant
            i <= typed.functions.len(),
            views == typed@.functions,
            has_types(typed@, name@),
            last_named(views, name@, views.len() as int) == last_named(views, name@, i as int),
        decreases i,
    {
        i -= 1;
        if same_text(typed.functions[i].name.as_str(), name) {
            return &typed.functions[i];
        }
    }
    proof {
        lemma_last_named(views, name@, views.len() as int);
        assert(false);
    }
    &typed.functions[0]
}

/// The Rust program for a program and the types of its functions.
pub fn emit_rust(program: &Program, typed: &TypedProgram) -> (text: String)
    requires
        forall|i: int|
            0 <= i < program@.functions.len() ==> has_types(
                typed@,
                #[trigger] program@.functions[i].name,
            ),
    ensures
        text@ == program_text(program@, typed@),
{
    let ghost functions = program@.functions;
    let mut text = "// Generated by the Emela compiler.\n\n".to_owned();
    let mut i: usize = 0;
    assert(text@ =~= "// Generated by the Emela compiler.\n\n"@ + functions_text(
        functions,
        typed@,
        0,
    ));
    while i < program.functions.len()
        invariant
            i <= program.functions.len(),
            functions == program@.functions,
            forall|k: int|
                0 <= k < functions.len() ==> has_types(typed@, #[trigger] functions[k].name),
            text@ == "// Generated by the Emela compiler.\n\n"@ + functions_text(
                functions,
                typed@,
                i as int,
            ),
        decreases program.functions.len() - i,
    {
        let function = &program.functions[i];
        assert(function@ == functions[i as int]);
        assert(has_types(typed@, functions[i as int].name));
        let types = find_types(typed, function.name.as_str());
        let part = emit_function(function, types);
        text.append(part.as_str());
        i += 1;
        assert(text@ =~= "// Generated by the Emela compiler.\n\n"@ + functions_text(
            functions,
            typed@,
            i as int,
        ));
    }
    text
}

} // verus!
