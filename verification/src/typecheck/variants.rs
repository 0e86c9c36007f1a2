//! The variants of the enums of a program whose types are registered.
use vstd::prelude::*;

use crate::ast::{EnumDeclView, EnumVariantView, TopLevelItemView};
use crate::typecheck::model::{platform_errors, variant_names, Env, Variant};
use crate::typecheck::program::{
    item_declared, items_declared, platform_error_variant, result_variant, types_registered,
    variants_declared, with_builtins, with_platform_errors, with_variants, Variants,
};

verus! {

/// The names of the variants of an enum, in the order of its declaration.
pub open spec fn declared_names(decl: EnumDeclView) -> Seq<Seq<char>> {
    decl.variants.map_values(|variant: EnumVariantView| variant.name)
}

/// The item declares the enum.
pub open spec fn declares_enum(item: TopLevelItemView, name: Seq<char>) -> bool {
    item matches TopLevelItemView::Enum(decl) && decl.name == name
}

/// One of the items declares the enum.
pub open spec fn enum_declared(items: Seq<TopLevelItemView>, name: Seq<char>) -> bool {
    exists|k: int| 0 <= k < items.len() && declares_enum(#[trigger] items[k], name)
}

/// The enum is built in.
pub open spec fn enum_built_in(name: Seq<char>) -> bool {
    name == "Result"@ || name == "PlatformError"@
}

/// There are names, none twice, and each is that of a variant of the enum.
pub open spec fn listed(variants: Variants, name: Seq<char>, names: Seq<Seq<char>>) -> bool {
    &&& names.len() > 0
    &&& names.no_duplicates()
    &&& forall|i: int|
        0 <= i < names.len() ==> variants.contains_key(#[trigger] names[i])
            && variants[names[i]].enum_name == name
}

/// Variants are added, and none is lost.
spec fn grown(after: Variants, before: Variants) -> bool {
    forall|name: Seq<char>| #[trigger]
        before.contains_key(name) ==> after.contains_key(name) && after[name] == before[name]
}

/// The enums of the first `n` items are known, with their variants, and no others.
spec fn enums_known(env: Env, items: Seq<TopLevelItemView>, n: int) -> bool {
    &&& forall|k: int|
        0 <= k < n ==> (#[trigger] items[k] matches TopLevelItemView::Enum(decl)
            ==> env.enums.contains_key(decl.name) && env.enums[decl.name] == decl)
    &&& forall|name: Seq<char>| #[trigger]
        env.enums.contains_key(name) ==> exists|k: int|
            0 <= k < n && #[trigger] items[k] == TopLevelItemView::Enum(env.enums[name])
    &&& forall|name: Seq<char>| #[trigger]
        env.enums.contains_key(name) ==> env.enums[name].name == name && listed(
            env.variants,
            name,
            declared_names(env.enums[name]),
        )
}

spec fn built_ins_known(variants: Variants) -> bool {
    &&& listed(variants, "Result"@, seq!["Ok"@, "Err"@])
    &&& listed(variants, "PlatformError"@, platform_errors())
}

proof fn lemma_listed(before: Variants, after: Variants, name: Seq<char>, names: Seq<Seq<char>>)
    requires
        listed(before, name, names),
        grown(after, before),
    ensures
        listed(after, name, names),
{
    assert forall|i: int| 0 <= i < names.len() implies after.contains_key(#[trigger] names[i])
        && after[names[i]].enum_name == name by {
        assert(before.contains_key(names[i]));
    }
}

proof fn lemma_built_ins(variants: Variants)
    ensures
        built_ins_known(with_builtins(variants)),
{
    reveal_strlit("Ok");
    reveal_strlit("Err");
    reveal_strlit("Unsupported");
    reveal_strlit("Unavailable");
    reveal_strlit("Interrupted");
    reveal_strlit("InvalidUtf8");
    reveal_strlit("Unknown");
    let errors = platform_errors();
    let results = seq!["Ok"@, "Err"@];
    assert("Ok"@.len() == 2 && "Err"@.len() == 3);
    assert(errors[0].len() == 11 && errors[0][2] == 's');
    assert(errors[1].len() == 11 && errors[1][2] == 'a');
    assert(errors[2].len() == 11 && errors[2][2] == 't');
    assert(errors[3].len() == 11 && errors[3][2] == 'v');
    assert(errors[4].len() == 7 && errors[4][2] == 'k');
    assert(errors.no_duplicates());
    assert(results.no_duplicates());
    let base = variants.insert("Ok"@, result_variant("T"@)).insert("Err"@, result_variant("E"@));
    lemma_platform_errors(base, 5);
    let after = with_builtins(variants);
    assert forall|i: int| 0 <= i < results.len() implies after.contains_key(#[trigger] results[i])
        && after[results[i]].enum_name == "Result"@ by {
        assert(base.contains_key(results[i]) && base[results[i]].enum_name == "Result"@);
        assert(results[i] != errors[0] && results[i] != errors[1] && results[i] != errors[2]
            && results[i] != errors[3] && results[i] != errors[4]);
    }
}

proof fn lemma_platform_errors(variants: Variants, n: int)
    requires
        0 <= n <= platform_errors().len(),
    ensures
        forall|i: int|
            0 <= i < n ==> with_platform_errors(variants, n).contains_key(
                #[trigger] platform_errors()[i],
            ) && with_platform_errors(variants, n)[platform_errors()[i]]
                == platform_error_variant(),
        forall|name: Seq<char>| #[trigger]
            variants.contains_key(name) && (forall|i: int|
                0 <= i < n ==> #[trigger] platform_errors()[i] != name)
                ==> with_platform_errors(variants, n).contains_key(name)
                && with_platform_errors(variants, n)[name] == variants[name],
    decreases n,
{
    if n > 0 {
        lemma_platform_errors(variants, n - 1);
    }
}

/// The variants from `i` on are added under the name of the enum.
proof fn lemma_variants(env: Env, decl: EnumDeclView, i: int)
    requires
        0 <= i <= decl.variants.len(),
        forall|k: int|
            0 <= k < i ==> env.variants.contains_key(#[trigger] declared_names(decl)[k])
                && env.variants[declared_names(decl)[k]].enum_name == decl.name,
        forall|j: int, k: int|
            0 <= j < k < i ==> #[trigger] declared_names(decl)[j] != #[trigger] declared_names(
                decl,
            )[k],
        variants_declared(env, decl, i).1 is Ok,
    ensures
        ({
            let after = variants_declared(env, decl, i).0;
            &&& grown(after.variants, env.variants)
            &&& after.enums == env.enums
            &&& decl.variants.len() > 0 ==> listed(
                after.variants,
                decl.name,
                declared_names(decl),
            )
        }),
    decreases decl.variants.len() - i,
{
    let names = declared_names(decl);
    if i < decl.variants.len() {
        let variant = Variant {
            enum_name: decl.name,
            enum_type_params: decl.type_params,
            payload: decl.variants[i].payload,
        };
        let next = with_variants(env, env.variants.insert(decl.variants[i].name, variant));
        assert(names[i] == decl.variants[i].name);
        assert forall|j: int, k: int| 0 <= j < k < i + 1 implies #[trigger] names[j]
            != #[trigger] names[k] by {
            if k == i {
                assert(env.variants.contains_key(names[j]));
            }
        }
        assert forall|k: int| 0 <= k < i + 1 implies next.variants.contains_key(
            #[trigger] names[k],
        ) && next.variants[names[k]].enum_name == decl.name by {}
        lemma_variants(next, decl, i + 1);
        let after = variants_declared(env, decl, i).0;
        assert forall|name: Seq<char>| #[trigger]
            env.variants.contains_key(name) implies after.variants.contains_key(name)
            && after.variants[name] == env.variants[name] by {
            assert(next.variants.contains_key(name));
        }
    } else {
        assert(names.no_duplicates());
    }
}

proof fn lemma_item(env: Env, items: Seq<TopLevelItemView>, i: int)
    requires
        0 <= i < items.len(),
        enums_known(env, items, i),
        built_ins_known(env.variants),
        item_declared(env, items[i]).1 is Ok,
    ensures
        enums_known(item_declared(env, items[i]).0, items, i + 1),
        built_ins_known(item_declared(env, items[i]).0.variants),
{
    let after = item_declared(env, items[i]).0;
    if let TopLevelItemView::Enum(decl) = items[i] {
        lemma_variants(env, decl, 0);
        lemma_listed(env.variants, after.variants, "Result"@, seq!["Ok"@, "Err"@]);
        lemma_listed(env.variants, after.variants, "PlatformError"@, platform_errors());
        assert(after.enums == env.enums.insert(decl.name, decl));
        assert forall|name: Seq<char>| #[trigger] after.enums.contains_key(name) implies {
            &&& after.enums[name].name == name
            &&& listed(after.variants, name, declared_names(after.enums[name]))
        } by {
            if name != decl.name {
                assert(env.enums.contains_key(name));
                lemma_listed(
                    env.variants,
                    after.variants,
                    name,
                    declared_names(env.enums[name]),
                );
            }
        }
        assert forall|name: Seq<char>| #[trigger]
            after.enums.contains_key(name) implies exists|k: int|
            0 <= k < i + 1 && #[trigger] items[k] == TopLevelItemView::Enum(
                after.enums[name],
            ) by {
            if name == decl.name {
                assert(items[i] == TopLevelItemView::Enum(after.enums[name]));
            } else {
                assert(env.enums.contains_key(name));
                let k = choose|k: int|
                    0 <= k < i && #[trigger] items[k] == TopLevelItemView::Enum(env.enums[name]);
                assert(items[k] == TopLevelItemView::Enum(after.enums[name]));
            }
        }
        assert forall|k: int| 0 <= k < i + 1 implies (#[trigger] items[k] matches
            TopLevelItemView::Enum(other) ==> after.enums.contains_key(other.name)
            && after.enums[other.name] == other) by {
            if k < i {
                if let TopLevelItemView::Enum(other) = items[k] {
                    assert(env.enums.contains_key(other.name));
                    assert(other.name != decl.name);
                }
            }
        }
    } else {
        assert(after.enums == env.enums && after.variants == env.variants);
        assert forall|name: Seq<char>| #[trigger]
            after.enums.contains_key(name) implies exists|k: int|
            0 <= k < i + 1 && #[trigger] items[k] == TopLevelItemView::Enum(
                after.enums[name],
            ) by {
            let k = choose|k: int|
                0 <= k < i && #[trigger] items[k] == TopLevelItemView::Enum(env.enums[name]);
            assert(items[k] == TopLevelItemView::Enum(after.enums[name]));
        }
    }
}

proof fn lemma_items(env: Env, items: Seq<TopLevelItemView>, i: int)
    requires
        0 <= i <= items.len(),
        enums_known(env, items, i),
        built_ins_known(env.variants),
        items_declared(env, items, i).1 is Ok,
    ensures
        enums_known(items_declared(env, items, i).0, items, items.len() as int),
        built_ins_known(items_declared(env, items, i).0.variants),
    decreases items.len() - i,
{
    if i < items.len() {
        lemma_item(env, items, i);
        lemma_items(item_declared(env, items[i]).0, items, i + 1);
    }
}

/// Once the types of a program are registered, an enum has variants exactly where it is built in
/// or declared. They are not none, none of them stands twice, and each is registered under the
/// enum. Those of a declared enum stand in the order of its declaration.
pub proof fn law_variants(start: Env, items: Seq<TopLevelItemView>, name: Seq<char>)
    requires
        start.enums == Map::<Seq<char>, EnumDeclView>::empty(),
        types_registered(start, items).1 is Ok,
    ensures
        match variant_names(types_registered(start, items).0, name) {
            None => !enum_built_in(name) && !enum_declared(items, name),
            Some(names) => {
                &&& enum_built_in(name) || enum_declared(items, name)
                &&& listed(types_registered(start, items).0.variants, name, names)
                &&& !enum_built_in(name) ==> forall|k: int|
                    0 <= k < items.len() ==> (#[trigger] items[k] matches TopLevelItemView::Enum(
                        decl,
                    ) ==> decl.name == name ==> names == declared_names(decl))
            },
        },
{
    let base = with_variants(start, with_builtins(start.variants));
    let env = types_registered(start, items).0;
    lemma_built_ins(start.variants);
    lemma_items(base, items, 0);
    if let Some(names) = variant_names(env, name) {
        if !enum_built_in(name) {
            let decl = env.enums[name];
            let k = choose|k: int|
                0 <= k < items.len() && #[trigger] items[k] == TopLevelItemView::Enum(decl);
            assert(declares_enum(items[k], name));
            assert(names =~= declared_names(decl));
        }
    } else if enum_declared(items, name) {
        let k = choose|k: int| 0 <= k < items.len() && declares_enum(#[trigger] items[k], name);
        assert(env.enums.contains_key(name));
    }
}

} // verus!
