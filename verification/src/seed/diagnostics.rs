//! What the parser and the checker say of programs that they refuse.
use vstd::prelude::*;

use crate::seed::ast::{BlockItemView, ExprView, FunctionView, PrimType};
use crate::seed::grammar::{identifier, token};
use crate::seed::inference::{
    expr_checked, item_checked, main_checked, main_count, main_index, resolved, unified, Scope,
    Signatures, Types,
};
use crate::seed::lexer::{TokenKindView, TokenView};
use crate::text::decimal;

verus! {

/// A name that stands for nothing.
pub proof fn law_unknown_name(
    signatures: Signatures,
    types: Types,
    scope: Scope,
    name: Seq<char>,
    args: Seq<ExprView>,
)
    ensures
        !scope.contains_key(name) ==> expr_checked(
            signatures,
            types,
            scope,
            ExprView::Var(name),
        ).1 == Err::<int, Seq<char>>("unknown local binding `"@ + name + "`"@),
        !signatures.contains_key(name) ==> expr_checked(
            signatures,
            types,
            scope,
            ExprView::Call { name, args },
        ).1 == Err::<int, Seq<char>>("unknown function `"@ + name + "`"@),
        signatures.contains_key(name) && args.len() != signatures[name].params.len()
            ==> expr_checked(signatures, types, scope, ExprView::Call { name, args }).1 == Err::<
            int,
            Seq<char>,
        >(
            "function `"@ + name + "` expects "@ + decimal(signatures[name].params.len())
                + " argument(s), got "@ + decimal(args.len()),
        ),
{
}

/// The name of a type.
pub open spec fn word(prim: PrimType) -> Seq<char> {
    match prim {
        PrimType::I32 => "I32"@,
        PrimType::Bool => "Bool"@,
        PrimType::Unit => "Unit"@,
    }
}

/// Two types that differ, the expected one first.
pub proof fn law_mismatch(types: Types, a: int, b: int, left: PrimType, right: PrimType)
    requires
        types.value_of(a) == Some(left),
        types.value_of(b) == Some(right),
        left != right,
    ensures
        unified(types, a, b).1 == Err::<(), Seq<char>>(
            "type mismatch: expected "@ + word(left) + ", got "@ + word(right),
        ),
{
}

/// A type that is not told.
pub proof fn law_untold(types: Types, id: int, label: Seq<char>)
    requires
        types.value_of(id) is None,
    ensures
        resolved(types, id, label) == Err::<PrimType, Seq<char>>("could not infer "@ + label),
{
}

/// A binding of a name that is bound already.
pub proof fn law_bound_twice(
    signatures: Signatures,
    types: Types,
    scope: Scope,
    name: Seq<char>,
    expr: ExprView,
)
    requires
        scope.contains_key(name),
    ensures
        item_checked(signatures, types, scope, BlockItemView::Binding { name, expr }).1 == Err::<
            int,
            Seq<char>,
        >("duplicate binding `"@ + name + "` in the same block"@),
{
}

/// No function to start with, and one that takes parameters.
pub proof fn law_refused_main(functions: Seq<FunctionView>)
    ensures
        (forall|k: int|
            0 <= k < functions.len() ==> (#[trigger] functions[k]).name != "main"@) ==> main_checked(
            functions,
        ) == Err::<(), Seq<char>>(
            "executable program must contain exactly one top-level `main` function"@,
        ),
        forall|k: int|
            0 <= k < functions.len() && (#[trigger] functions[k]).name == "main"@ && (forall|j: int|
                0 <= j < functions.len() && j != k ==> (#[trigger] functions[j]).name != "main"@)
                && functions[k].params.len() > 0 ==> main_checked(functions) == Err::<
                (),
                Seq<char>,
            >("`main` must take zero parameters"@),
{
    if forall|k: int| 0 <= k < functions.len() ==> (#[trigger] functions[k]).name != "main"@ {
        lemma_no_main(functions, 0);
    }
    assert forall|k: int|
        0 <= k < functions.len() && (#[trigger] functions[k]).name == "main"@ && (forall|j: int|
            0 <= j < functions.len() && j != k ==> (#[trigger] functions[j]).name != "main"@)
            && functions[k].params.len() > 0 implies main_checked(functions) == Err::<
        (),
        Seq<char>,
    >("`main` must take zero parameters"@) by {
        lemma_the_main(functions, 0, k);
    }
}

proof fn lemma_no_main(functions: Seq<FunctionView>, i: int)
    requires
        0 <= i <= functions.len(),
        forall|k: int| i <= k < functions.len() ==> (#[trigger] functions[k]).name != "main"@,
    ensures
        main_count(functions, i) == 0,
    decreases functions.len() - i,
{
    if i < functions.len() {
        lemma_no_main(functions, i + 1);
    }
}

proof fn lemma_the_main(functions: Seq<FunctionView>, i: int, main: int)
    requires
        0 <= i <= main < functions.len(),
        functions[main].name == "main"@,
        forall|j: int|
            0 <= j < functions.len() && j != main ==> (#[trigger] functions[j]).name != "main"@,
    ensures
        main_count(functions, i) == 1,
        main_index(functions, i) == main,
    decreases functions.len() - i,
{
    if i < main {
        lemma_the_main(functions, i + 1, main);
    } else {
        lemma_no_main(functions, i + 1);
    }
}

/// A token that is not the one that must stand there, by its position.
pub proof fn law_expected(t: Seq<TokenView>, at: int)
    requires
        0 <= at < t.len(),
    ensures
        t[at].kind != TokenKindView::RParen ==> token(t, at, TokenKindView::RParen) == (at, Err::<
            (),
            Seq<char>,
        >("expected RParen at byte "@ + decimal(t[at].pos as nat))),
        t[at].kind != TokenKindView::LBrace ==> token(t, at, TokenKindView::LBrace) == (at, Err::<
            (),
            Seq<char>,
        >("expected LBrace at byte "@ + decimal(t[at].pos as nat))),
        !(t[at].kind is Ident) ==> identifier(t, at) == (at, Err::<Seq<char>, Seq<char>>(
            "expected identifier at byte "@ + decimal(t[at].pos as nat),
        )),
{
    reveal_strlit("expected ");
    reveal_strlit("RParen");
    reveal_strlit("LBrace");
    reveal_strlit("identifier");
    reveal_strlit(" at byte ");
    reveal_strlit("expected RParen at byte ");
    reveal_strlit("expected LBrace at byte ");
    reveal_strlit("expected identifier at byte ");
    let place = decimal(t[at].pos as nat);
    assert("expected "@ + "RParen"@ + " at byte "@ =~= "expected RParen at byte "@);
    assert("expected "@ + "LBrace"@ + " at byte "@ =~= "expected LBrace at byte "@);
    assert("expected "@ + "identifier"@ + " at byte "@ =~= "expected identifier at byte "@);
}

} // verus!
