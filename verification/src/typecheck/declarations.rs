//! Which declarations are accepted, and what is known of them.
use vstd::prelude::*;

use crate::ast::{EnumDeclView, TopLevelItemView, TypeView};
use crate::typecheck::model::{platform_errors, Env, Variant};
use crate::typecheck::program::{
    enum_validated, enums_validated, first_repeated, item_declared, items_declared, names_declared,
    payloads_validated, platform_error_variant, result_variant, struct_validated, structs_validated,
    types_registered, variants_declared, with_builtins, with_platform_errors, with_variants,
    Variants,
};
use crate::typecheck::soundness::law_valid;
use crate::typecheck::typing::valid;

verus! {

/// The built-in variants: those of `Result`, whose payloads are its type arguments, and those of
/// `PlatformError`, which have none.
pub open spec fn built_in(name: Seq<char>) -> Option<Variant> {
    if name == "Unsupported"@ || name == "Unavailable"@ || name == "Interrupted"@ || name
        == "InvalidUtf8"@ || name == "Unknown"@ {
        Some(
            Variant { enum_name: "PlatformError"@, enum_type_params: Seq::empty(), payload: None },
        )
    } else if name == "Err"@ {
        Some(
            Variant {
                enum_name: "Result"@,
                enum_type_params: seq!["T"@, "E"@],
                payload: Some(TypeView::GenericParam("E"@)),
            },
        )
    } else if name == "Ok"@ {
        Some(
            Variant {
                enum_name: "Result"@,
                enum_type_params: seq!["T"@, "E"@],
                payload: Some(TypeView::GenericParam("T"@)),
            },
        )
    } else {
        None
    }
}

/// The `j`-th variant of the enum that the `k`-th item declares has the name.
pub open spec fn names_variant(
    items: Seq<TopLevelItemView>,
    k: int,
    j: int,
    name: Seq<char>,
) -> bool {
    &&& 0 <= k < items.len()
    &&& items[k] is Enum
    &&& 0 <= j < items[k]->Enum_0.variants.len()
    &&& items[k]->Enum_0.variants[j].name == name
}

/// What is known of the `j`-th variant of the enum that the `k`-th item declares.
pub open spec fn variant_at(items: Seq<TopLevelItemView>, k: int, j: int) -> Variant {
    let decl = items[k]->Enum_0;
    Variant {
        enum_name: decl.name,
        enum_type_params: decl.type_params,
        payload: decl.variants[j].payload,
    }
}

/// The `j`-th variant of the `k`-th item stands before the `m`-th of the `n`-th.
pub open spec fn earlier(k: int, j: int, n: int, m: int) -> bool {
    k < n || k == n && j < m
}

/// The variants are the built-in ones and those before the `m`-th of the `n`-th item.
pub open spec fn holds_variants(
    variants: Variants,
    items: Seq<TopLevelItemView>,
    n: int,
    m: int,
) -> bool {
    &&& forall|name: Seq<char>| #[trigger]
        built_in(name) is Some ==> variants.contains_key(name) && Some(variants[name]) == built_in(
            name,
        )
    &&& forall|k: int, j: int, name: Seq<char>| #[trigger]
        names_variant(items, k, j, name) && earlier(k, j, n, m) ==> variants.contains_key(name)
            && variants[name] == variant_at(items, k, j)
    &&& forall|name: Seq<char>| #[trigger]
        variants.contains_key(name) ==> built_in(name) is Some || exists|k: int, j: int| #[trigger]
            names_variant(items, k, j, name) && earlier(k, j, n, m)
}

/// The type that an item declares.
pub open spec fn type_named(item: TopLevelItemView) -> Option<Seq<char>> {
    match item {
        TopLevelItemView::Struct(decl) => Some(decl.name),
        TopLevelItemView::Enum(decl) => Some(decl.name),
        _ => None,
    }
}

pub open spec fn is_struct(item: TopLevelItemView, name: Seq<char>) -> bool {
    item matches TopLevelItemView::Struct(decl) && decl.name == name
}

pub open spec fn is_enum_decl(item: TopLevelItemView, name: Seq<char>) -> bool {
    item matches TopLevelItemView::Enum(decl) && decl.name == name
}

/// The types, and their variants, are those of the first `n` items, besides the built-in variants.
pub open spec fn holds(env: Env, items: Seq<TopLevelItemView>, n: int) -> bool {
    &&& holds_variants(env.variants, items, n, 0)
    &&& forall|k: int|
        0 <= k < n ==> (#[trigger] items[k] matches TopLevelItemView::Struct(decl)
            ==> env.structs.contains_key(decl.name) && env.structs[decl.name] == decl)
    &&& forall|k: int|
        0 <= k < n ==> (#[trigger] items[k] matches TopLevelItemView::Enum(decl)
            ==> env.enums.contains_key(decl.name) && env.enums[decl.name] == decl)
    &&& forall|name: Seq<char>| #[trigger]
        env.structs.contains_key(name) ==> exists|k: int|
            0 <= k < n && is_struct(#[trigger] items[k], name)
    &&& forall|name: Seq<char>| #[trigger]
        env.enums.contains_key(name) ==> exists|k: int|
            0 <= k < n && is_enum_decl(#[trigger] items[k], name)
}

/// The `j`-th variant of the `i`-th item has a name that no variant before it has.
pub open spec fn new_variant(items: Seq<TopLevelItemView>, i: int, j: int) -> bool {
    let name = items[i]->Enum_0.variants[j].name;
    &&& built_in(name) is None
    &&& forall|k: int, l: int| #[trigger]
        names_variant(items, k, l, name) ==> !earlier(k, l, i, j)
}

/// The type that the item declares is new, and an enum has variants, which are new too.
pub open spec fn new_type(items: Seq<TopLevelItemView>, i: int) -> bool {
    &&& type_named(items[i]) is Some ==> forall|k: int|
        0 <= k < i ==> type_named(#[trigger] items[k]) != type_named(items[i])
    &&& items[i] matches TopLevelItemView::Enum(decl) ==> decl.variants.len() > 0 && forall|j: int|
        0 <= j < decl.variants.len() ==> #[trigger] new_variant(items, i, j)
}

proof fn lemma_built_ins()
    ensures
        holds_variants(with_builtins(Map::empty()), Seq::empty(), 0, 0),
{
    let none: Variants = Map::empty();
    let base = none.insert("Ok"@, result_variant("T"@)).insert("Err"@, result_variant("E"@));
    reveal_with_fuel(with_platform_errors, 6);
    let errors = platform_errors();
    let all = with_builtins(none);
    assert(all == base.insert("Unsupported"@, platform_error_variant()).insert(
        "Unavailable"@,
        platform_error_variant(),
    ).insert("Interrupted"@, platform_error_variant()).insert(
        "InvalidUtf8"@,
        platform_error_variant(),
    ).insert("Unknown"@, platform_error_variant()));
}

proof fn lemma_none_before(variants: Variants, items: Seq<TopLevelItemView>)
    requires
        holds_variants(variants, Seq::empty(), 0, 0),
    ensures
        holds_variants(variants, items, 0, 0),
{
    let none = Seq::<TopLevelItemView>::empty();
    assert forall|name: Seq<char>| #[trigger] variants.contains_key(name) implies built_in(
        name,
    ) is Some || exists|k: int, j: int| #[trigger]
        names_variant(items, k, j, name) && earlier(k, j, 0, 0) by {
        if built_in(name) is None {
            let (k, j) = choose|k: int, j: int| #[trigger]
                names_variant(none, k, j, name) && earlier(k, j, 0, 0);
            assert(names_variant(none, k, j, name));
        }
    }
}

/// The variants of an enum are declared exactly where they are new.
proof fn lemma_variants(env: Env, items: Seq<TopLevelItemView>, i: int, j: int)
    requires
        0 <= i < items.len(),
        items[i] is Enum,
        0 <= j <= items[i]->Enum_0.variants.len(),
        holds_variants(env.variants, items, i, j),
    ensures
        ({
            let decl = items[i]->Enum_0;
            let (after, outcome) = variants_declared(env, decl, j);
            &&& outcome is Ok <==> forall|m: int|
                j <= m < decl.variants.len() ==> #[trigger] new_variant(items, i, m)
            &&& outcome is Ok ==> holds_variants(
                after.variants,
                items,
                i,
                decl.variants.len() as int,
            )
            &&& after.structs == env.structs
            &&& after.enums == env.enums
        }),
    decreases items[i]->Enum_0.variants.len() - j,
{
    let decl = items[i]->Enum_0;
    if j < decl.variants.len() {
        let name = decl.variants[j].name;
        assert(names_variant(items, i, j, name));
        if env.variants.contains_key(name) {
            assert(!new_variant(items, i, j)) by {
                if built_in(name) is None {
                    let (k, l) = choose|k: int, l: int| #[trigger]
                        names_variant(items, k, l, name) && earlier(k, l, i, j);
                    assert(names_variant(items, k, l, name) && earlier(k, l, i, j));
                }
            }
        } else {
            assert(new_variant(items, i, j)) by {
                assert forall|k: int, l: int| #[trigger]
                    names_variant(items, k, l, name) implies !earlier(k, l, i, j) by {}
            }
            let more = env.variants.insert(name, variant_at(items, i, j));
            assert(holds_variants(more, items, i, j + 1)) by {
                assert forall|k: int, l: int, other: Seq<char>| #[trigger]
                    names_variant(items, k, l, other) && earlier(
                        k,
                        l,
                        i,
                        j + 1,
                    ) implies more.contains_key(other) && more[other] == variant_at(items, k, l) by {
                    if !(k == i && l == j) {
                        assert(earlier(k, l, i, j));
                    }
                }
                assert forall|other: Seq<char>| #[trigger] more.contains_key(other) implies built_in(
                    other,
                ) is Some || exists|k: int, l: int| #[trigger]
                    names_variant(items, k, l, other) && earlier(k, l, i, j + 1) by {
                    if other == name {
                        assert(names_variant(items, i, j, other) && earlier(i, j, i, j + 1));
                    } else if built_in(other) is None {
                        assert(env.variants.contains_key(other));
                        let (k, l) = choose|k: int, l: int| #[trigger]
                            names_variant(items, k, l, other) && earlier(k, l, i, j);
                        assert(names_variant(items, k, l, other) && earlier(k, l, i, j + 1));
                    }
                }
            }
            lemma_variants(with_variants(env, more), items, i, j + 1);
        }
    }
}

/// All variants of an item stand before those of the next one.
proof fn lemma_next_item(variants: Variants, items: Seq<TopLevelItemView>, i: int, m: int)
    requires
        0 <= i < items.len(),
        holds_variants(variants, items, i, m),
        items[i] is Enum ==> m == items[i]->Enum_0.variants.len(),
        !(items[i] is Enum) ==> m == 0,
    ensures
        holds_variants(variants, items, i + 1, 0),
{
    assert forall|k: int, j: int, name: Seq<char>| #[trigger]
        names_variant(items, k, j, name) implies (earlier(k, j, i, m) <==> earlier(
        k,
        j,
        i + 1,
        0,
    )) by {}
    assert forall|name: Seq<char>| #[trigger] variants.contains_key(name) implies built_in(
        name,
    ) is Some || exists|k: int, j: int| #[trigger]
        names_variant(items, k, j, name) && earlier(k, j, i + 1, 0) by {
        if built_in(name) is None {
            let (k, j) = choose|k: int, j: int| #[trigger]
                names_variant(items, k, j, name) && earlier(k, j, i, m);
            assert(names_variant(items, k, j, name) && earlier(k, j, i + 1, 0));
        }
    }
}

/// An item is declared exactly where it is new.
proof fn lemma_item(env: Env, items: Seq<TopLevelItemView>, i: int)
    requires
        0 <= i < items.len(),
        holds(env, items, i),
    ensures
        item_declared(env, items[i]).1 is Ok <==> new_type(items, i),
        item_declared(env, items[i]).1 is Ok ==> holds(
            item_declared(env, items[i]).0,
            items,
            i + 1,
        ),
{
    let (after, outcome) = item_declared(env, items[i]);
    if let Some(name) = type_named(items[i]) {
        assert(names_declared(env, name) <==> exists|k: int|
            0 <= k < i && type_named(#[trigger] items[k]) == Some(name)) by {
            if env.structs.contains_key(name) {
                let k = choose|k: int| 0 <= k < i && is_struct(#[trigger] items[k], name);
                assert(type_named(items[k]) == Some(name));
            }
            if env.enums.contains_key(name) {
                let k = choose|k: int| 0 <= k < i && is_enum_decl(#[trigger] items[k], name);
                assert(type_named(items[k]) == Some(name));
            }
        }
    }
    match items[i] {
        TopLevelItemView::Enum(decl) => {
            lemma_variants(env, items, i, 0);
            if outcome is Ok {
                lemma_next_item(after.variants, items, i, decl.variants.len() as int);
            }
        },
        _ => lemma_next_item(env.variants, items, i, 0),
    }
    if outcome is Ok {
        assert forall|k: int| 0 <= k < i + 1 implies (
        #[trigger] items[k] matches TopLevelItemView::Struct(decl) ==> after.structs.contains_key(
            decl.name,
        ) && after.structs[decl.name] == decl) by {
            if k < i {
                assert(type_named(items[k]) != type_named(items[i]) || type_named(items[i]) is None);
            }
        }
        assert forall|k: int| 0 <= k < i + 1 implies (
        #[trigger] items[k] matches TopLevelItemView::Enum(decl) ==> after.enums.contains_key(
            decl.name,
        ) && after.enums[decl.name] == decl) by {
            if k < i {
                assert(type_named(items[k]) != type_named(items[i]) || type_named(items[i]) is None);
            }
        }
        assert forall|name: Seq<char>| #[trigger] after.structs.contains_key(name) implies exists|
            k: int,
        |
            0 <= k < i + 1 && is_struct(#[trigger] items[k], name) by {
            if env.structs.contains_key(name) {
                let k = choose|k: int| 0 <= k < i && is_struct(#[trigger] items[k], name);
                assert(is_struct(items[k], name));
            } else {
                assert(is_struct(items[i], name));
            }
        }
        assert forall|name: Seq<char>| #[trigger] after.enums.contains_key(name) implies exists|
            k: int,
        |
            0 <= k < i + 1 && is_enum_decl(#[trigger] items[k], name) by {
            if env.enums.contains_key(name) {
                let k = choose|k: int| 0 <= k < i && is_enum_decl(#[trigger] items[k], name);
                assert(is_enum_decl(items[k], name));
            } else {
                assert(is_enum_decl(items[i], name));
            }
        }
    }
}

proof fn lemma_items(env: Env, items: Seq<TopLevelItemView>, i: int)
    requires
        0 <= i <= items.len(),
        holds(env, items, i),
    ensures
        items_declared(env, items, i).1 is Ok <==> forall|k: int|
            i <= k < items.len() ==> #[trigger] new_type(items, k),
        items_declared(env, items, i).1 is Ok ==> holds(
            items_declared(env, items, i).0,
            items,
            items.len() as int,
        ),
    decreases items.len() - i,
{
    if i < items.len() {
        lemma_item(env, items, i);
        if item_declared(env, items[i]).1 is Ok {
            lemma_items(item_declared(env, items[i]).0, items, i + 1);
        } else {
            assert(!new_type(items, i));
        }
    }
}

/// No name stands twice in the list.
pub open spec fn all_differ(names: Seq<Seq<char>>) -> bool {
    forall|i: int, j: int| 0 <= i < j < names.len() ==> #[trigger] names[i] != #[trigger] names[j]
}

proof fn lemma_repeated(names: Seq<Seq<char>>, i: int)
    requires
        0 <= i <= names.len(),
    ensures
        first_repeated(names, i) is None <==> forall|j: int, k: int|
            0 <= j < k < names.len() && i <= k ==> #[trigger] names[j] != #[trigger] names[k],
    decreases names.len() - i,
{
    if i < names.len() {
        lemma_repeated(names, i + 1);
        let before = names.take(i);
        if before.contains(names[i]) {
            let j = choose|j: int| 0 <= j < before.len() && before[j] == names[i];
            assert(names[j] == names[i]);
        } else {
            assert forall|j: int| 0 <= j < i implies #[trigger] names[j] != names[i] by {
                assert(before[j] == names[j]);
            }
        }
    }
}

/// The type that the item declares is made of valid types, and no type parameter stands twice.
pub open spec fn valid_type(env: Env, item: TopLevelItemView) -> bool {
    match item {
        TopLevelItemView::Struct(decl) => all_differ(decl.type_params) && valid(
            env,
            decl.field.ty,
            decl.type_params,
        ),
        TopLevelItemView::Enum(decl) => all_differ(decl.type_params) && forall|j: int|
            0 <= j < decl.variants.len() ==> ((#[trigger] decl.variants[j]).payload matches Some(ty)
                ==> valid(env, ty, decl.type_params)),
        _ => true,
    }
}

proof fn lemma_payloads(env: Env, decl: EnumDeclView, i: int)
    requires
        0 <= i <= decl.variants.len(),
    ensures
        payloads_validated(env, decl, i) is Ok <==> forall|j: int|
            i <= j < decl.variants.len() ==> ((#[trigger] decl.variants[j]).payload matches Some(ty)
                ==> valid(env, ty, decl.type_params)),
    decreases decl.variants.len() - i,
{
    if i < decl.variants.len() {
        lemma_payloads(env, decl, i + 1);
        if let Some(ty) = decl.variants[i].payload {
            law_valid(env, ty, decl.type_params);
        }
    }
}

proof fn lemma_validated(env: Env, items: Seq<TopLevelItemView>, i: int)
    requires
        0 <= i <= items.len(),
    ensures
        structs_validated(env, items, i) is Ok <==> forall|k: int|
            i <= k < items.len() && items[k] is Struct ==> #[trigger] valid_type(env, items[k]),
        enums_validated(env, items, i) is Ok <==> forall|k: int|
            i <= k < items.len() && items[k] is Enum ==> #[trigger] valid_type(env, items[k]),
    decreases items.len() - i,
{
    if i < items.len() {
        lemma_validated(env, items, i + 1);
        match items[i] {
            TopLevelItemView::Struct(decl) => {
                lemma_repeated(decl.type_params, 0);
                law_valid(env, decl.field.ty, decl.type_params);
                assert(struct_validated(env, decl) is Ok <==> valid_type(env, items[i]));
            },
            TopLevelItemView::Enum(decl) => {
                lemma_repeated(decl.type_params, 0);
                lemma_payloads(env, decl, 0);
                assert(enum_validated(env, decl) is Ok <==> valid_type(env, items[i]));
            },
            _ => {},
        }
    }
}

pub open spec fn nothing() -> Env {
    Env {
        structs: Map::empty(),
        enums: Map::empty(),
        variants: Map::empty(),
        signatures: Map::empty(),
    }
}

/// The types of a program are accepted exactly where each is new and made of valid types. Then the
/// types and the variants that are known are those of the declarations, besides the built-in ones.
pub proof fn law_types(items: Seq<TopLevelItemView>)
    ensures
        types_registered(nothing(), items).1 is Ok <==> {
            &&& forall|k: int| 0 <= k < items.len() ==> #[trigger] new_type(items, k)
            &&& forall|k: int|
                0 <= k < items.len() ==> valid_type(
                    types_registered(nothing(), items).0,
                    #[trigger] items[k],
                )
        },
        (forall|k: int| 0 <= k < items.len() ==> #[trigger] new_type(items, k)) ==> holds(
            types_registered(nothing(), items).0,
            items,
            items.len() as int,
        ),
{
    let base = with_variants(nothing(), with_builtins(Map::empty()));
    lemma_built_ins();
    lemma_none_before(base.variants, items);
    lemma_items(base, items, 0);
    let (env, outcome) = items_declared(base, items, 0);
    lemma_validated(env, items, 0);
    if outcome is Ok {
        assert(types_registered(nothing(), items).0 == env);
        if structs_validated(env, items, 0) is Ok && enums_validated(env, items, 0) is Ok {
            assert forall|k: int| 0 <= k < items.len() implies valid_type(
                env,
                #[trigger] items[k],
            ) by {}
        }
        if forall|k: int| 0 <= k < items.len() ==> valid_type(env, #[trigger] items[k]) {
            assert forall|k: int|
                0 <= k < items.len() && items[k] is Struct implies #[trigger] valid_type(
                env,
                items[k],
            ) by {}
            assert forall|k: int|
                0 <= k < items.len() && items[k] is Enum implies #[trigger] valid_type(
                env,
                items[k],
            ) by {}
        }
    }
}

} // verus!
