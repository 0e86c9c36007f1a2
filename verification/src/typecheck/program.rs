//! What the type checker does with the declarations of a program, and with the program as a whole.
use vstd::prelude::*;

use crate::ast::{
    functions_of, EnumDeclView, FunctionView, ImportOrigin, ImportView, ProgramView, StructDeclView,
    TopLevelItemView, TypeView,
};
use crate::capability::{missing_names, set_of, within};
use crate::error::Outcome;
use crate::platform::{import_target, ExternView, PlatformView};
use crate::slots::Store;
use crate::text::{ends_with_bang, joined, quoted, quoted_twice};
use crate::typecheck::model::{
    block_checked, platform_errors, signature_resolved, type_validated, unified, Capabilities,
    Checked, Env, Info, Scope, Signature, Types, Variant,
};
use crate::typecheck::typed::{TypedFunctionView, TypedProgramView};

verus! {

/// Whether a program is to be run, or only used by others.
#[derive(Debug, Clone, Copy, PartialEq, Eq, Structural)]
pub enum CheckMode {
    Executable,
    Library,
}

/// What is known of slots and of declarations.
pub struct Known {
    pub types: Types,
    pub env: Env,
}

pub type Variants = Map<Seq<char>, Variant>;

/// The two variants of `Result`, each with one of its type arguments as payload.
pub open spec fn result_variant(payload: Seq<char>) -> Variant {
    Variant {
        enum_name: "Result"@,
        enum_type_params: seq!["T"@, "E"@],
        payload: Some(TypeView::GenericParam(payload)),
    }
}

pub open spec fn platform_error_variant() -> Variant {
    Variant { enum_name: "PlatformError"@, enum_type_params: Seq::empty(), payload: None }
}

/// The first `n` platform errors, besides other variants.
pub open spec fn with_platform_errors(variants: Variants, n: int) -> Variants
    decreases n,
{
    if n <= 0 {
        variants
    } else {
        with_platform_errors(variants, n - 1).insert(
            platform_errors()[n - 1],
            platform_error_variant(),
        )
    }
}

/// The variants of the built-in enums, besides others.
pub open spec fn with_builtins(variants: Variants) -> Variants {
    with_platform_errors(
        variants.insert("Ok"@, result_variant("T"@)).insert("Err"@, result_variant("E"@)),
        platform_errors().len() as int,
    )
}

pub open spec fn with_variants(env: Env, variants: Variants) -> Env {
    Env { structs: env.structs, enums: env.enums, variants, signatures: env.signatures }
}

pub open spec fn names_declared(env: Env, name: Seq<char>) -> bool {
    env.structs.contains_key(name) || env.enums.contains_key(name)
}

/// The variants of an enum from `i` on are declared.
pub open spec fn variants_declared(env: Env, decl: EnumDeclView, i: int) -> (Env, Outcome<()>)
    decreases decl.variants.len() - i,
{
    if i >= decl.variants.len() {
        (env, Ok(()))
    } else if env.variants.contains_key(decl.variants[i].name) {
        (env, Err(quoted("duplicate enum variant `"@, decl.variants[i].name, "`"@)))
    } else {
        let variant = Variant {
            enum_name: decl.name,
            enum_type_params: decl.type_params,
            payload: decl.variants[i].payload,
        };
        variants_declared(
            with_variants(env, env.variants.insert(decl.variants[i].name, variant)),
            decl,
            i + 1,
        )
    }
}

/// The type that an item declares.
pub open spec fn item_declared(env: Env, item: TopLevelItemView) -> (Env, Outcome<()>) {
    match item {
        TopLevelItemView::Struct(decl) => if names_declared(env, decl.name) {
            (env, Err(quoted("duplicate type `"@, decl.name, "`"@)))
        } else {
            (
                Env {
                    structs: env.structs.insert(decl.name, decl),
                    enums: env.enums,
                    variants: env.variants,
                    signatures: env.signatures,
                },
                Ok(()),
            )
        },
        TopLevelItemView::Enum(decl) => if decl.variants.len() == 0 {
            (env, Err(quoted("enum `"@, decl.name, "` must declare at least one variant"@)))
        } else if names_declared(env, decl.name) {
            (env, Err(quoted("duplicate type `"@, decl.name, "`"@)))
        } else {
            match variants_declared(env, decl, 0) {
                (env, Err(message)) => (env, Err(message)),
                (env, Ok(_)) => (
                    Env {
                        structs: env.structs,
                        enums: env.enums.insert(decl.name, decl),
                        variants: env.variants,
                        signatures: env.signatures,
                    },
                    Ok(()),
                ),
            }
        },
        _ => (env, Ok(())),
    }
}

/// The types that the items from `i` on declare.
pub open spec fn items_declared(env: Env, items: Seq<TopLevelItemView>, i: int) -> (
    Env,
    Outcome<()>,
)
    decreases items.len() - i,
{
    if i >= items.len() {
        (env, Ok(()))
    } else {
        match item_declared(env, items[i]) {
            (env, Err(message)) => (env, Err(message)),
            (env, Ok(_)) => items_declared(env, items, i + 1),
        }
    }
}

/// The first name from `i` on that stands earlier in the list.
pub open spec fn first_repeated(names: Seq<Seq<char>>, i: int) -> Option<Seq<char>>
    decreases names.len() - i,
{
    if i >= names.len() {
        None
    } else if names.take(i).contains(names[i]) {
        Some(names[i])
    } else {
        first_repeated(names, i + 1)
    }
}

pub open spec fn struct_validated(env: Env, decl: StructDeclView) -> Outcome<()> {
    match first_repeated(decl.type_params, 0) {
        Some(param) => Err(
            quoted_twice("duplicate type parameter `"@, param, "` in struct `"@, decl.name, "`"@),
        ),
        None => type_validated(env, decl.field.ty, decl.type_params),
    }
}

/// The payloads of the variants from `i` on.
pub open spec fn payloads_validated(env: Env, decl: EnumDeclView, i: int) -> Outcome<()>
    decreases decl.variants.len() - i,
{
    if i >= decl.variants.len() {
        Ok(())
    } else {
        match decl.variants[i].payload {
            None => payloads_validated(env, decl, i + 1),
            Some(ty) => match type_validated(env, ty, decl.type_params) {
                Err(message) => Err(message),
                Ok(_) => payloads_validated(env, decl, i + 1),
            },
        }
    }
}

pub open spec fn enum_validated(env: Env, decl: EnumDeclView) -> Outcome<()> {
    match first_repeated(decl.type_params, 0) {
        Some(param) => Err(
            quoted_twice("duplicate type parameter `"@, param, "` in enum `"@, decl.name, "`"@),
        ),
        None => payloads_validated(env, decl, 0),
    }
}

/// The structs among the items from `i` on.
pub open spec fn structs_validated(env: Env, items: Seq<TopLevelItemView>, i: int) -> Outcome<()>
    decreases items.len() - i,
{
    if i >= items.len() {
        Ok(())
    } else {
        match items[i] {
            TopLevelItemView::Struct(decl) => match struct_validated(env, decl) {
                Err(message) => Err(message),
                Ok(_) => structs_validated(env, items, i + 1),
            },
            _ => structs_validated(env, items, i + 1),
        }
    }
}

/// The enums among the items from `i` on.
pub open spec fn enums_validated(env: Env, items: Seq<TopLevelItemView>, i: int) -> Outcome<()>
    decreases items.len() - i,
{
    if i >= items.len() {
        Ok(())
    } else {
        match items[i] {
            TopLevelItemView::Enum(decl) => match enum_validated(env, decl) {
                Err(message) => Err(message),
                Ok(_) => enums_validated(env, items, i + 1),
            },
            _ => enums_validated(env, items, i + 1),
        }
    }
}

/// The types of a program are declared, and made of declared types.
pub open spec fn types_registered(env: Env, items: Seq<TopLevelItemView>) -> (Env, Outcome<()>) {
    match items_declared(with_variants(env, with_builtins(env.variants)), items, 0) {
        (env, Err(message)) => (env, Err(message)),
        (env, Ok(_)) => match structs_validated(env, items, 0) {
            Err(message) => (env, Err(message)),
            Ok(_) => (env, enums_validated(env, items, 0)),
        },
    }
}

/// An import as it is written.
pub open spec fn import_text(path: Seq<Seq<char>>, name: Seq<char>) -> Seq<char> {
    joined(path.push(name), "."@)
}

/// Slots of the first `n` types of a list.
pub open spec fn with_known(types: Types, list: Seq<TypeView>, n: int) -> Types
    decreases n,
{
    if n <= 0 {
        types
    } else {
        with_known(types, list, n - 1).with(Some(list[n - 1]))
    }
}

/// As many slots as there are, in a row.
pub open spec fn slots_from(start: int, count: nat) -> Seq<int> {
    Seq::new(count, |i: int| start + i)
}

pub open spec fn with_signature(env: Env, name: Seq<char>, signature: Signature) -> Env {
    Env {
        structs: env.structs,
        enums: env.enums,
        variants: env.variants,
        signatures: env.signatures.insert(name, signature),
    }
}

/// A function of the platform is known under the name of the import.
pub open spec fn extern_known(known: Known, name: Seq<char>, function: ExternView) -> Known {
    let count = function.params.len();
    Known {
        types: with_known(known.types, function.params, count as int).with(Some(function.ret)),
        env: with_signature(
            known.env,
            name,
            Signature {
                params: slots_from(known.types.len(), count),
                ret: known.types.len() + count,
                effectful: function.effectful,
                declared: Some(set_of(function.capabilities)),
            },
        ),
    }
}

pub open spec fn import_registered(platform: PlatformView, known: Known, import: ImportView) -> (
    Known,
    Outcome<()>,
) {
    if import.origin == ImportOrigin::User && import.path.len() > 0 && import.path[0]
        == "platform"@ {
        (
            known,
            Err(
                quoted(
                    "platform import `"@,
                    import_text(import.path, import.name),
                    "` is only available to stdlib"@,
                ),
            ),
        )
    } else if known.env.signatures.contains_key(import.name) {
        (known, Err(quoted("duplicate imported function `"@, import.name, "`"@)))
    } else {
        match import_target(platform.externs, import.path, import.name, 0) {
            None => (
                known,
                Err(
                    quoted(
                        "unknown external import `"@,
                        import_text(import.path, import.name),
                        "`"@,
                    ),
                ),
            ),
            Some(function) => (extern_known(known, import.name, function), Ok(())),
        }
    }
}

/// The imports among the items from `i` on.
pub open spec fn imports_registered(
    platform: PlatformView,
    known: Known,
    items: Seq<TopLevelItemView>,
    i: int,
) -> (Known, Outcome<()>)
    decreases items.len() - i,
{
    if i >= items.len() {
        (known, Ok(()))
    } else {
        match items[i] {
            TopLevelItemView::Import(import) => match import_registered(platform, known, import) {
                (known, Err(message)) => (known, Err(message)),
                (known, Ok(_)) => imports_registered(platform, known, items, i + 1),
            },
            _ => imports_registered(platform, known, items, i + 1),
        }
    }
}

/// The types of the parameters of a function from `i` on.
pub open spec fn params_registered(
    env: Env,
    types: Types,
    function: FunctionView,
    i: int,
) -> Checked<()>
    decreases function.params.len() - i,
{
    if i >= function.params.len() {
        (types, Ok(()))
    } else {
        match function.params[i].ty {
            None => (
                types,
                Err(
                    quoted_twice(
                        "parameter `"@,
                        function.params[i].name,
                        "` in function `"@,
                        function.name,
                        "` must have a type annotation"@,
                    ),
                ),
            ),
            Some(ty) => match type_validated(env, ty, Seq::empty()) {
                Err(message) => (types, Err(message)),
                Ok(_) => params_registered(env, types.with(Some(ty)), function, i + 1),
            },
        }
    }
}

/// The type of the result of a function.
pub open spec fn result_registered(
    env: Env,
    types: Types,
    function: FunctionView,
) -> Checked<()> {
    match function.return_annotation {
        None => (
            types,
            Err(quoted("function `"@, function.name, "` must have a return type annotation"@)),
        ),
        Some(ty) => match type_validated(env, ty, Seq::empty()) {
            Err(message) => (types, Err(message)),
            Ok(_) => (types.with(Some(ty)), Ok(())),
        },
    }
}

/// The capabilities that a function declares.
pub open spec fn declared_capabilities(function: FunctionView) -> Option<Capabilities> {
    match function.required {
        Some(list) => Some(set_of(list)),
        None => None,
    }
}

/// A function needs capabilities, but is not marked as one with effects.
pub open spec fn lacks_mark(function: FunctionView) -> bool {
    &&& declared_capabilities(function) matches Some(declared) && declared.len() > 0
    &&& !ends_with_bang(function.name)
}

pub open spec fn function_registered(known: Known, function: FunctionView) -> (
    Known,
    Outcome<()>,
) {
    if known.env.signatures.contains_key(function.name) {
        (known, Err(quoted("duplicate top-level function `"@, function.name, "`"@)))
    } else if lacks_mark(function) {
        (
            known,
            Err(
                quoted(
                    "function `"@,
                    function.name,
                    "` requires platform capabilities and must be marked with !"@,
                ),
            ),
        )
    } else {
        match params_registered(known.env, known.types, function, 0) {
            (types, Err(message)) => (Known { types, env: known.env }, Err(message)),
            (types, Ok(_)) => match result_registered(known.env, types, function) {
                (types, Err(message)) => (Known { types, env: known.env }, Err(message)),
                (types, Ok(_)) => (
                    Known {
                        types,
                        env: with_signature(
                            known.env,
                            function.name,
                            Signature {
                                params: slots_from(known.types.len(), function.params.len()),
                                ret: known.types.len() + function.params.len(),
                                effectful: ends_with_bang(function.name),
                                declared: declared_capabilities(function),
                            },
                        ),
                    },
                    Ok(()),
                ),
            },
        }
    }
}

/// The functions from `i` on.
pub open spec fn functions_registered(known: Known, functions: Seq<FunctionView>, i: int) -> (
    Known,
    Outcome<()>,
)
    decreases functions.len() - i,
{
    if i >= functions.len() {
        (known, Ok(()))
    } else {
        match function_registered(known, functions[i]) {
            (known, Err(message)) => (known, Err(message)),
            (known, Ok(_)) => functions_registered(known, functions, i + 1),
        }
    }
}

/// The name of a function that a program can start with.
pub open spec fn is_entry(name: Seq<char>) -> bool {
    name == "main"@ || name == "main!"@
}

/// The number of functions from `i` on that the program can start with.
pub open spec fn entry_count(functions: Seq<FunctionView>, i: int) -> nat
    decreases functions.len() - i,
{
    if i >= functions.len() {
        0
    } else if is_entry(functions[i].name) {
        1 + entry_count(functions, i + 1)
    } else {
        entry_count(functions, i + 1)
    }
}

/// The position of the first function from `i` on that the program can start with.
pub open spec fn entry_index(functions: Seq<FunctionView>, i: int) -> int
    decreases functions.len() - i,
{
    if i >= functions.len() || is_entry(functions[i].name) {
        i
    } else {
        entry_index(functions, i + 1)
    }
}

pub open spec fn main_checked(functions: Seq<FunctionView>) -> Outcome<()> {
    if entry_count(functions, 0) != 1 {
        Err("executable program must contain exactly one top-level `main` or `main!` function"@)
    } else if functions[entry_index(functions, 0)].params.len() != 0 {
        Err("`main` and `main!` must take zero parameters"@)
    } else {
        Ok(())
    }
}

/// The parameters from `i` on are in scope.
pub open spec fn params_scoped(
    scope: Scope,
    function: FunctionView,
    params: Seq<int>,
    i: int,
) -> Outcome<Scope>
    decreases function.params.len() - i,
{
    if i >= function.params.len() {
        Ok(scope)
    } else if scope.contains_key(function.params[i].name) {
        Err(
            quoted_twice(
                "duplicate parameter `"@,
                function.params[i].name,
                "` in function `"@,
                function.name,
                "`"@,
            ),
        )
    } else {
        params_scoped(scope.insert(function.params[i].name, params[i]), function, params, i + 1)
    }
}

/// The capabilities that a function needs: those it declares, or those of its body. A function
/// without effects has none in its body, and a declaration names all that the body needs.
pub open spec fn effects_checked(
    name: Seq<char>,
    signature: Signature,
    body: Info,
) -> Outcome<Capabilities> {
    if !signature.effectful && body.effectful {
        Err(quoted("pure function `"@, name, "` cannot contain unhandled effects"@))
    } else {
        match signature.declared {
            None => Ok(body.capabilities),
            Some(declared) => if within(body.capabilities, declared) {
                Ok(declared)
            } else {
                Err(
                    quoted(
                        "function `"@,
                        name,
                        "` uses capability outside #[requires(...)]: "@,
                    ) + missing_text(body.capabilities, declared),
                )
            },
        }
    }
}

/// The capabilities that are not in the other set.
pub open spec fn missing_text(needed: Capabilities, given: Capabilities) -> Seq<char> {
    joined(missing_names(needed, given, needed.len() as int), ", "@)
}

/// The capabilities of a function, once its body has the type of its result.
pub open spec fn function_checked(
    env: Env,
    types: Types,
    function: FunctionView,
) -> Checked<Capabilities> {
    let signature = env.signatures[function.name];
    match params_scoped(Map::empty(), function, signature.params, 0) {
        Err(message) => (types, Err(message)),
        Ok(scope) => match block_checked(env, types, scope, function.body) {
            (types, Err(message)) => (types, Err(message)),
            (types, Ok(body)) => match unified(types, signature.ret, body.ty) {
                (types, Err(message)) => (types, Err(message)),
                (types, Ok(_)) => (types, effects_checked(function.name, signature, body)),
            },
        },
    }
}

/// The capabilities of functions by their names.
pub type Needs = Map<Seq<char>, Capabilities>;

/// The capabilities of the functions from `i` on, besides those in `needs`.
pub open spec fn functions_checked(
    env: Env,
    types: Types,
    functions: Seq<FunctionView>,
    i: int,
    needs: Needs,
) -> Checked<Needs>
    decreases functions.len() - i,
{
    if i >= functions.len() {
        (types, Ok(needs))
    } else {
        match function_checked(env, types, functions[i]) {
            (types, Err(message)) => (types, Err(message)),
            (types, Ok(capabilities)) => functions_checked(
                env,
                types,
                functions,
                i + 1,
                needs.insert(functions[i].name, capabilities),
            ),
        }
    }
}

pub open spec fn needs_of(needs: Needs, name: Seq<char>) -> Capabilities {
    if needs.contains_key(name) {
        needs[name]
    } else {
        Seq::empty()
    }
}

/// The platform provides the capabilities of the function that the program starts with.
pub open spec fn boundary_checked(
    platform: PlatformView,
    functions: Seq<FunctionView>,
    needs: Needs,
) -> Outcome<()> {
    let needed = needs_of(needs, functions[entry_index(functions, 0)].name);
    if within(needed, platform.provided) {
        Ok(())
    } else {
        Err(
            quoted(
                "platform `"@,
                platform.name,
                "` does not provide required capability: "@,
            ) + missing_text(needed, platform.provided),
        )
    }
}

pub open spec fn function_typed(
    env: Env,
    types: Types,
    function: FunctionView,
    needs: Needs,
) -> Outcome<TypedFunctionView> {
    match signature_resolved(types, function.name, env.signatures[function.name]) {
        Err(message) => Err(message),
        Ok(ty) => Ok(
            TypedFunctionView {
                name: function.name,
                params: ty.params,
                ret: *ty.ret,
                effectful: ty.effectful,
                capabilities: needs_of(needs, function.name),
            },
        ),
    }
}

/// The functions from `i` on, with their types.
pub open spec fn functions_typed(
    env: Env,
    types: Types,
    functions: Seq<FunctionView>,
    i: int,
    needs: Needs,
) -> Outcome<Seq<TypedFunctionView>>
    decreases functions.len() - i,
{
    if i >= functions.len() {
        Ok(Seq::empty())
    } else {
        match function_typed(env, types, functions[i], needs) {
            Err(message) => Err(message),
            Ok(typed) => match functions_typed(env, types, functions, i + 1, needs) {
                Err(message) => Err(message),
                Ok(rest) => Ok(seq![typed] + rest),
            },
        }
    }
}

/// What is declared in a program.
pub open spec fn program_registered(program: ProgramView, platform: PlatformView) -> (
    Known,
    Outcome<()>,
) {
    let none = Env {
        structs: Map::empty(),
        enums: Map::empty(),
        variants: Map::empty(),
        signatures: Map::empty(),
    };
    match types_registered(none, program.items) {
        (env, Err(message)) => (Known { types: Store::empty(), env }, Err(message)),
        (env, Ok(_)) => match imports_registered(
            platform,
            Known { types: Store::empty(), env },
            program.items,
            0,
        ) {
            (known, Err(message)) => (known, Err(message)),
            (known, Ok(_)) => functions_registered(known, functions_of(program), 0),
        },
    }
}

/// The program with the types, effects and capabilities of its functions.
pub open spec fn program_checked(
    program: ProgramView,
    platform: PlatformView,
    mode: CheckMode,
) -> Outcome<TypedProgramView> {
    let functions = functions_of(program);
    match program_registered(program, platform) {
        (_, Err(message)) => Err(message),
        (known, Ok(_)) => {
            let main = if mode == CheckMode::Executable {
                main_checked(functions)
            } else {
                Ok(())
            };
            match main {
                Err(message) => Err(message),
                Ok(_) => bodies_checked(known, platform, functions, mode),
            }
        },
    }
}

/// The functions with their types, effects and capabilities.
pub open spec fn bodies_checked(
    known: Known,
    platform: PlatformView,
    functions: Seq<FunctionView>,
    mode: CheckMode,
) -> Outcome<TypedProgramView> {
    match functions_checked(known.env, known.types, functions, 0, Map::empty()) {
        (_, Err(message)) => Err(message),
        (types, Ok(needs)) => {
            let boundary = if mode == CheckMode::Executable {
                boundary_checked(platform, functions, needs)
            } else {
                Ok(())
            };
            match boundary {
                Err(message) => Err(message),
                Ok(_) => match functions_typed(known.env, types, functions, 0, needs) {
                    Err(message) => Err(message),
                    Ok(functions) => Ok(TypedProgramView { functions }),
                },
            }
        },
    }
}

} // verus!
