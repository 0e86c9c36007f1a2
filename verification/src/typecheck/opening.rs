//! Values of types with open parameters, such as results that tell one of their two types only.
use vstd::prelude::*;

use crate::ast::{functions_of, BlockItemView, ExprView, FunctionView, ProgramView, TypeView};
use crate::capability::{has_rank, set_of, within};
use crate::platform::PlatformView;
use crate::typecheck::acceptance::{declares_rank, in_order, lemma_accepted, lemma_declared};
use crate::typecheck::generics::{law_constrained_open, law_unified_open};
use crate::typecheck::laws::{
    annotated_slot, body_calls, law_registered, law_valid_closed, lemma_function_checked,
    lemma_functions_typed, lemma_params_scoped, param_names, settled, signed,
};
use crate::typecheck::model::{
    absorbed, block_checked, constrained, constructed, constructor_checked, effects, expr_checked,
    result_arguments, item_checked, items_checked, unified, Env, Info, Scope, Types,
};
use crate::typecheck::needs::{declares, lemma_block_needs};
use crate::typecheck::program::{
    function_checked, functions_checked, params_scoped, program_checked, program_registered,
    CheckMode, Known, Needs,
};
use crate::typecheck::purity::{body_effect, lemma_block as lemma_block_effect, types_before};
use crate::typecheck::soundness::{
    arrows_of, distinct_params, has_type, law_valid, lemma_arrows_of, lemma_constrained_typed,
    lemma_expr_typed, lemma_item_typed, lemma_params_typed, lemma_type_kept, lemma_typed_kept,
    param_types, typed_state,
};
use crate::typecheck::stability::{
    fixed, kept, lemma_constrained, lemma_expr, lemma_item, lemma_kept_twice, lemma_ready,
    lemma_with,
};
use crate::typecheck::substitution::{inferred, is_generic, substituted};
use crate::typecheck::typing::{arguments, expr_typing, item_typing, valid, Arrows, Locals, Typing};

verus! {

/// The expression makes a variant, with a payload that leaves a type parameter of its enum open.
pub open spec fn opens(env: Env, arrows: Arrows, locals: Locals, e: ExprView) -> bool {
    match e {
        ExprView::Call { name, args } => {
            let variant = env.variants[name];
            let payload = variant.payload->Some_0;
            &&& env.variants.contains_key(name)
            &&& variant.payload is Some
            &&& args.len() == 1
            &&& expr_typing(env, arrows, locals, args[0]) matches Typing::Has(actual) && {
                let found = inferred(payload, actual, Map::empty());
                &&& substituted(payload, found) == actual
                &&& variant.enum_type_params.len() > 0
                &&& is_generic(
                    TypeView::Apply {
                        name: variant.enum_name,
                        args: arguments(variant.enum_type_params, found),
                    },
                )
            }
        },
        _ => false,
    }
}

/// The type that an item has: that of its expression, or that of its annotation where the
/// expression leaves a type open.
pub open spec fn item_yields(
    env: Env,
    arrows: Arrows,
    locals: Locals,
    item: BlockItemView,
) -> Option<TypeView> {
    match item_typing(env, arrows, locals, item) {
        Typing::Has(ty) => Some(ty),
        _ => match item {
            BlockItemView::Binding { name, ty: Some(annotation), expr } => if !locals.contains_key(
                name,
            ) && valid(env, annotation, Seq::empty()) && opens(env, arrows, locals, expr) {
                Some(annotation)
            } else {
                None
            },
            _ => None,
        },
    }
}

/// The items from `i` on end with an expression that leaves a type open.
pub open spec fn items_open(
    env: Env,
    arrows: Arrows,
    locals: Locals,
    items: Seq<BlockItemView>,
    i: int,
) -> bool
    decreases items.len() - i,
{
    if i < 0 || i >= items.len() {
        false
    } else if i + 1 == items.len() {
        items[i] matches BlockItemView::Expr(e) && opens(env, arrows, locals, e)
    } else {
        match item_yields(env, arrows, locals, items[i]) {
            Some(ty) => items_open(
                env,
                arrows,
                match items[i] {
                    BlockItemView::Binding { name, .. } => locals.insert(name, ty),
                    BlockItemView::Expr(_) => locals,
                },
                items,
                i + 1,
            ),
            None => false,
        }
    }
}

/// The slot has a type with open parameters.
pub open spec fn open_slot(types: Types, id: int) -> bool {
    &&& types.has(id)
    &&& types.value_of(id) matches Some(ty) && is_generic(ty)
}

proof fn lemma_opens(
    env: Env,
    arrows: Arrows,
    types: Types,
    scope: Scope,
    locals: Locals,
    e: ExprView,
)
    requires
        typed_state(env, arrows, types, scope, locals),
        opens(env, arrows, locals, e),
    ensures
        kept(expr_checked(env, types, scope, e).0, types),
        expr_checked(env, types, scope, e).1 matches Ok(info) && open_slot(
            expr_checked(env, types, scope, e).0,
            info.ty,
        ),
{
    lemma_expr(env, types, scope, e);
    if let ExprView::Call { name, args } = e {
        let variant = env.variants[name];
        let payload = variant.payload->Some_0;
        assert(expr_checked(env, types, scope, e) == constructor_checked(
            env,
            types,
            scope,
            name,
            variant,
            args,
        ));
        lemma_expr(env, types, scope, args[0]);
        lemma_expr_typed(env, arrows, types, scope, locals, args[0]);
        let (one, result) = expr_checked(env, types, scope, args[0]);
        let arg = result->Ok_0;
        let actual = expr_typing(env, arrows, locals, args[0])->Has_0;
        let found = inferred(payload, actual, Map::empty());
        lemma_constrained_typed(one, arg.ty, actual, actual);
        assert(result_arguments(variant.enum_type_params, found)
            =~= arguments(variant.enum_type_params, found));
        let (two, _) = constrained(one, arg.ty, actual);
        lemma_with(
            two,
            TypeView::Apply {
                name: variant.enum_name,
                args: arguments(variant.enum_type_params, found),
            },
        );
        assert(expr_checked(env, types, scope, e) == constructed(one, variant, arg));
    }
}

/// An item has the type that it yields.
proof fn lemma_item_yields(
    env: Env,
    arrows: Arrows,
    types: Types,
    scope: Scope,
    locals: Locals,
    item: BlockItemView,
)
    requires
        typed_state(env, arrows, types, scope, locals),
        item_yields(env, arrows, locals, item) is Some,
    ensures
        kept(item_checked(env, types, scope, item).0, types),
        item_checked(env, types, scope, item).1 matches Ok(info) && has_type(
            item_checked(env, types, scope, item).0,
            info.ty,
            item_yields(env, arrows, locals, item)->Some_0,
        ),
{
    lemma_item(env, types, scope, item);
    lemma_item_typed(env, arrows, types, scope, locals, item);
    if !(item_typing(env, arrows, locals, item) is Has) {
        if let BlockItemView::Binding { name, ty: Some(annotation), expr } = item {
            assert(scope.contains_key(name) == locals.contains_key(name));
            law_valid(env, annotation, Seq::empty());
            law_valid_closed(env, annotation);
            lemma_opens(env, arrows, types, scope, locals, expr);
            let (one, result) = expr_checked(env, types, scope, expr);
            let id = result->Ok_0.ty;
            law_constrained_open(one, id, one.value_of(id)->Some_0, annotation);
            lemma_constrained(one, id, annotation);
        }
    }
}

proof fn lemma_items_open(
    env: Env,
    arrows: Arrows,
    types: Types,
    scope: Scope,
    locals: Locals,
    items: Seq<BlockItemView>,
    i: int,
    last: Option<int>,
    info: Info,
)
    requires
        typed_state(env, arrows, types, scope, locals),
        items_open(env, arrows, locals, items, i),
    ensures
        items_checked(env, types, scope, items, i, last, info).1 matches Ok(body) && open_slot(
            items_checked(env, types, scope, items, i, last, info).0,
            body.ty,
        ),
        kept(items_checked(env, types, scope, items, i, last, info).0, types),
    decreases items.len() - i,
{
    let (one, result) = item_checked(env, types, scope, items[i]);
    let item = result->Ok_0;
    let more = absorbed(info, item);
    if i + 1 == items.len() {
        let e = items[i]->Expr_0;
        lemma_opens(env, arrows, types, scope, locals, e);
        assert(item_checked(env, types, scope, items[i]) == expr_checked(env, types, scope, e));
        assert(items_checked(env, types, scope, items, i, last, info) == items_checked(
            env,
            one,
            scope,
            items,
            i + 1,
            Some(item.ty),
            more,
        ));
    } else {
        let actual = item_yields(env, arrows, locals, items[i])->Some_0;
        lemma_item_yields(env, arrows, types, scope, locals, items[i]);
        lemma_typed_kept(env, arrows, types, scope, locals, one);
        match items[i] {
            BlockItemView::Binding { name, .. } => {
                let inner = scope.insert(name, item.ty);
                let names = locals.insert(name, actual);
                assert(inner.dom() =~= names.dom());
                assert forall|other: Seq<char>| #[trigger]
                    names.contains_key(other) implies has_type(
                    one,
                    inner[other],
                    names[other],
                ) by {
                    if other != name {
                        assert(locals.contains_key(other));
                    }
                }
                lemma_items_open(env, arrows, one, inner, names, items, i + 1, None, more);
                lemma_kept_twice(
                    types,
                    one,
                    items_checked(env, one, inner, items, i + 1, None, more).0,
                );
            },
            BlockItemView::Expr(_) => {
                lemma_items_open(
                    env,
                    arrows,
                    one,
                    scope,
                    locals,
                    items,
                    i + 1,
                    Some(item.ty),
                    more,
                );
                lemma_kept_twice(
                    types,
                    one,
                    items_checked(env, one, scope, items, i + 1, Some(item.ty), more).0,
                );
            },
        }
    }
}

/// A block that ends with a variant whose payload leaves a type open is accepted, and its type is
/// left open, so that it fits any result.
pub proof fn law_open_block(
    env: Env,
    arrows: Arrows,
    types: Types,
    scope: Scope,
    locals: Locals,
    items: Seq<BlockItemView>,
    ret: int,
    wanted: TypeView,
)
    requires
        typed_state(env, arrows, types, scope, locals),
        items_open(env, arrows, locals, items, 0),
        has_type(types, ret, wanted),
    ensures
        ({
            let none = effects(false, Seq::empty());
            let (one, result) = items_checked(env, types, scope, items, 0, None, none);
            result matches Ok(body) && {
                let (two, outcome) = unified(one, ret, body.ty);
                &&& outcome is Ok
                &&& two.value_of(body.ty) == Some(wanted)
                &&& two.value_of(ret) == Some(wanted)
            }
        }),
{
    let none = effects(false, Seq::empty());
    lemma_items_open(env, arrows, types, scope, locals, items, 0, None, none);
    let (one, result) = items_checked(env, types, scope, items, 0, None, none);
    let body = result->Ok_0;
    lemma_type_kept(types, one, ret, wanted);
    let left = one.value_of(ret)->Some_0;
    let right = one.value_of(body.ty)->Some_0;
    assert(!one.same(ret, body.ty));
    law_unified_open(one, ret, body.ty, left, right);
}

/// The function is in order, but for its body, whose type is left open.
pub open spec fn open_in_order(known: Known, types: Types, function: FunctionView) -> bool {
    &&& distinct_params(function)
    &&& items_open(
        known.env,
        arrows_of(known),
        param_types(function, function.params.len() as int),
        function.body.items,
        0,
    )
    &&& function.name.len() > 0 && function.name.last() == '!' || !body_effect(
        known.env,
        types,
        function,
    )
    &&& function.required is Some ==> forall|callee: Seq<char>, rank: u32|
        body_calls(known.env, function, callee) && #[trigger] declares(known.env, callee, rank)
            ==> declares_rank(function, rank)
}

proof fn lemma_open_accepted(known: Known, types: Types, function: FunctionView)
    requires
        settled(known),
        kept(types, known.types),
        signed(known, function),
        open_in_order(known, types, function),
    ensures
        function_checked(known.env, types, function).1 is Ok,
{
    let env = known.env;
    let arrows = arrows_of(known);
    let signature = env.signatures[function.name];
    let none: Scope = Map::empty();
    lemma_arrows_of(known);
    assert(none.dom() =~= Map::<Seq<char>, TypeView>::empty().dom());
    assert(typed_state(env, arrows, known.types, none, Map::empty()));
    lemma_typed_kept(env, arrows, known.types, none, Map::empty(), types);
    assert forall|j: int| 0 <= j < function.params.len() implies annotated_slot(
        types,
        signature.params[j],
        (#[trigger] function.params[j]).ty,
    ) by {
        assert(annotated_slot(known.types, signature.params[j], function.params[j].ty));
        assert(known.types.has(signature.params[j]) && fixed(known.types, signature.params[j]));
    }
    assert(known.types.has(signature.ret) && fixed(known.types, signature.ret));
    lemma_params_typed(types, none, function, signature.params, 0);
    assert forall|k: int| 0 <= k < signature.params.len() implies types.has(
        #[trigger] signature.params[k],
    ) by {
        assert(annotated_slot(types, signature.params[k], function.params[k].ty));
    }
    assert(none.dom() =~= param_names(function, 0));
    lemma_params_scoped(none, function, signature.params, 0, types);
    let scope = params_scoped(none, function, signature.params, 0)->Ok_0;
    let locals = param_types(function, function.params.len() as int);
    let items = function.body.items;
    let ret = function.return_annotation->Some_0;
    assert(has_type(types, signature.ret, ret));
    law_open_block(env, arrows, types, scope, locals, items, signature.ret, ret);
    lemma_block_effect(env, types, scope, function.body);
    let body = block_checked(env, types, scope, function.body).1->Ok_0;
    if function.required is Some {
        lemma_declared(function);
        let declared = set_of(function.required->Some_0);
        assert(within(body.capabilities, declared)) by {
            assert forall|i: int| 0 <= i < body.capabilities.len() implies has_rank(
                declared,
                (#[trigger] body.capabilities[i]).rank,
            ) by {
                let rank = body.capabilities[i].rank;
                assert(has_rank(body.capabilities, rank));
                let callee = lemma_block_needs(env, types, scope, function.body, rank);
                assert(body_calls(env, function, callee));
                assert(declares(env, callee, rank));
            }
        }
    }
}

proof fn lemma_all_accepted(
    known: Known,
    types: Types,
    functions: Seq<FunctionView>,
    i: int,
    needs: Needs,
)
    requires
        settled(known),
        kept(types, known.types),
        0 <= i <= functions.len(),
        forall|k: int| 0 <= k < functions.len() ==> signed(known, #[trigger] functions[k]),
        forall|k: int|
            i <= k < functions.len() ==> {
                let before = types_before(known.env, types, functions, i, k);
                in_order(known, before, #[trigger] functions[k]) || open_in_order(
                    known,
                    before,
                    functions[k],
                )
            },
    ensures
        functions_checked(known.env, types, functions, i, needs).1 is Ok,
        kept(functions_checked(known.env, types, functions, i, needs).0, known.types),
    decreases functions.len() - i,
{
    if i < functions.len() {
        let function = functions[i];
        assert(signed(known, functions[i]));
        assert(types_before(known.env, types, functions, i, i) == types);
        assert(in_order(known, types, functions[i]) || open_in_order(known, types, functions[i]));
        if in_order(known, types, function) {
            lemma_accepted(known, types, function);
        } else {
            lemma_open_accepted(known, types, function);
        }
        lemma_ready(known.env, known.types, Map::empty(), types);
        lemma_function_checked(known, types, function);
        let (one, result) = function_checked(known.env, types, function);
        lemma_kept_twice(known.types, types, one);
        assert forall|k: int| i < k < functions.len() implies {
            let before = types_before(known.env, one, functions, i + 1, k);
            in_order(known, before, #[trigger] functions[k]) || open_in_order(
                known,
                before,
                functions[k],
            )
        } by {
            assert(types_before(known.env, types, functions, i, k) == types_before(
                known.env,
                one,
                functions,
                i + 1,
                k,
            ));
        }
        lemma_all_accepted(
            known,
            one,
            functions,
            i + 1,
            needs.insert(function.name, result->Ok_0),
        );
    }
}

/// Where its declarations are in order, a program is accepted as a library if each of its functions
/// is in order, be it that its body has the type of its result or one that is left open.
pub proof fn law_open_accepted(program: ProgramView, platform: PlatformView)
    requires
        program_registered(program, platform).1 is Ok,
        forall|k: int|
            0 <= k < functions_of(program).len() ==> {
                let known = program_registered(program, platform).0;
                let before = types_before(
                    known.env,
                    known.types,
                    functions_of(program),
                    0,
                    k,
                );
                in_order(known, before, #[trigger] functions_of(program)[k]) || open_in_order(
                    known,
                    before,
                    functions_of(program)[k],
                )
            },
    ensures
        program_checked(program, platform, CheckMode::Library) is Ok,
{
    let known = program_registered(program, platform).0;
    let functions = functions_of(program);
    law_registered(program, platform);
    lemma_all_accepted(known, known.types, functions, 0, Map::empty());
    let (types, result) = functions_checked(known.env, known.types, functions, 0, Map::empty());
    lemma_functions_typed(known, types, functions, 0, result->Ok_0);
}

} // verus!
