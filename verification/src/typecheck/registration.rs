//! The declarations of a program: types, imports and functions.
use vstd::prelude::*;

use crate::ast::{
    function_views, functions_of, type_views, EnumDecl, Function, Import, ImportOrigin, Program,
    StructDecl, TopLevelItem, Type,
};
use crate::capability::CapabilitySet;
use crate::error::{agrees, Error};
use crate::platform::ExternFunction;
use crate::slots::id_views;
use crate::text::{is_marked, join, quote, quote_twice, same_text, texts};
use crate::typecheck::checker::{
    copy_texts, platform_error_names, signature_sane, signatures_sane, FunctionType, TypeChecker,
    VariantInfo,
};
use crate::typecheck::model::{platform_errors, Signature, Types};
use crate::typecheck::program::{
    declared_capabilities, enum_validated, enums_validated, extern_known, first_repeated,
    function_registered, functions_registered, import_registered, import_text, imports_registered,
    item_declared, items_declared, params_registered, payloads_validated, result_variant,
    slots_from, struct_validated, structs_validated, types_registered, variants_declared,
    with_builtins, with_known, with_platform_errors, with_variants,
};
use crate::types::{copy_optional_type, copy_type};

verus! {

/// A variant of `Result`.
fn builtin_result(payload: &str) -> (variant: VariantInfo)
    ensures
        variant@ == result_variant(payload@),
{
    let mut params: Vec<String> = Vec::new();
    params.push("T".to_owned());
    params.push("E".to_owned());
    assert(texts(params@) =~= seq!["T"@, "E"@]);
    VariantInfo {
        enum_name: "Result".to_owned(),
        enum_type_params: params,
        payload: Some(Type::GenericParam(payload.to_owned())),
    }
}

/// The first text that stands earlier in the list.
fn find_repeated(list: &Vec<String>) -> (found: Option<&str>)
    ensures
        match found {
            Some(text) => first_repeated(texts(list@), 0) == Some(text@),
            None => first_repeated(texts(list@), 0) is None,
        },
{
    let ghost all = texts(list@);
    let mut i: usize = 0;
    while i < list.len()
        invariant
            i <= list.len(),
            all == texts(list@),
            first_repeated(all, 0) == first_repeated(all, i as int),
        decreases list.len() - i,
    {
        assert(all[i as int] == list@[i as int]@);
        if stands_before(list, i) {
            return Some(list[i].as_str());
        }
        i += 1;
    }
    None
}

fn stands_before(list: &Vec<String>, at: usize) -> (found: bool)
    requires
        at < list.len(),
    ensures
        found == texts(list@).take(at as int).contains(texts(list@)[at as int]),
{
    let ghost front = texts(list@).take(at as int);
    let mut i: usize = 0;
    while i < at
        invariant
            i <= at < list.len(),
            front == texts(list@).take(at as int),
            forall|k: int| 0 <= k < i ==> #[trigger] front[k] != list@[at as int]@,
        decreases at - i,
    {
        assert(front[i as int] == list@[i as int]@);
        if same_text(list[i].as_str(), list[at].as_str()) {
            return true;
        }
        i += 1;
    }
    false
}

/// An import as it is written.
pub fn format_import_path(path: &Vec<String>, name: &str) -> (text: String)
    ensures
        text@ == import_text(texts(path@), name@),
{
    let mut parts = copy_texts(path);
    let ghost before = texts(parts@);
    parts.push(name.to_owned());
    assert(texts(parts@) =~= before.push(name@));
    join(&parts, ".")
}

impl<'a> TypeChecker<'a> {
    pub fn register_builtin_types(&mut self)
        requires
            old(self).wf(),
        ensures
            final(self).wf(),
            final(self).same_program(old(self)),
            final(self).types@ == old(self).types@,
            final(self).env() == with_variants(
                old(self).env(),
                with_builtins(old(self).env().variants),
            ),
    {
        self.variants.insert("Ok".to_owned(), builtin_result("T"));
        self.variants.insert("Err".to_owned(), builtin_result("E"));
        let ghost start = self.variants@;
        let names = platform_error_names();
        let mut i: usize = 0;
        while i < names.len()
            invariant
                i <= names.len(),
                texts(names@) == platform_errors(),
                self.wf(),
                self.same_program(old(self)),
                self.types@ == old(self).types@,
                self.structs == old(self).structs,
                self.enums == old(self).enums,
                self.functions == old(self).functions,
                self.variants@ == with_platform_errors(start, i as int),
            decreases names.len() - i,
        {
            assert(texts(names@)[i as int] == names@[i as int]@);
            let none: Vec<String> = Vec::new();
            assert(texts(none@) =~= Seq::empty());
            self.variants.insert(
                names[i].clone(),
                VariantInfo {
                    enum_name: "PlatformError".to_owned(),
                    enum_type_params: none,
                    payload: None,
                },
            );
            i += 1;
        }
    }

    /// Declares the variants of an enum.
    fn declare_variants(&mut self, decl: &EnumDecl) -> (result: Result<(), Error>)
        requires
            old(self).wf(),
        ensures
            final(self).wf(),
            final(self).same_program(old(self)),
            final(self).types@ == old(self).types@,
            final(self).env() == variants_declared(old(self).env(), decl@, 0).0,
            agrees(result, variants_declared(old(self).env(), decl@, 0).1),
    {
        let ghost view = decl@;
        let ghost goal = variants_declared(self.env(), view, 0);
        let mut i: usize = 0;
        while i < decl.variants.len()
            invariant
                i <= decl.variants.len(),
                view == decl@,
                self.wf(),
                self.same_program(old(self)),
                self.types@ == old(self).types@,
                goal == variants_declared(old(self).env(), view, 0),
                goal == variants_declared(self.env(), view, i as int),
            decreases decl.variants.len() - i,
        {
            let variant = &decl.variants[i];
            assert(view.variants[i as int] == variant@);
            if self.variants.contains_key(variant.name.as_str()) {
                return Err(
                    Error::new(quote("duplicate enum variant `", variant.name.as_str(), "`")),
                );
            }
            self.variants.insert(
                variant.name.clone(),
                VariantInfo {
                    enum_name: decl.name.clone(),
                    enum_type_params: copy_texts(&decl.type_params),
                    payload: copy_optional_type(&variant.payload),
                },
            );
            i += 1;
        }
        Ok(())
    }

    /// Declares the type of an item.
    fn declare_item(&mut self, item: &'a TopLevelItem) -> (result: Result<(), Error>)
        requires
            old(self).wf(),
        ensures
            final(self).wf(),
            final(self).same_program(old(self)),
            final(self).types@ == old(self).types@,
            final(self).env() == item_declared(old(self).env(), item@).0,
            agrees(result, item_declared(old(self).env(), item@).1),
    {
        match item {
            TopLevelItem::Struct(decl) => {
                let name = decl.name.as_str();
                if self.structs.contains_key(name) || self.enums.contains_key(name) {
                    return Err(Error::new(quote("duplicate type `", name, "`")));
                }
                self.structs.insert(decl.name.clone(), decl);
                Ok(())
            },
            TopLevelItem::Enum(decl) => {
                let name = decl.name.as_str();
                assert(decl@.variants.len() == decl.variants.len());
                if decl.variants.len() == 0 {
                    return Err(
                        Error::new(
                            quote("enum `", name, "` must declare at least one variant"),
                        ),
                    );
                }
                if self.structs.contains_key(name) || self.enums.contains_key(name) {
                    return Err(Error::new(quote("duplicate type `", name, "`")));
                }
                self.declare_variants(decl)?;
                self.enums.insert(decl.name.clone(), decl);
                Ok(())
            },
            TopLevelItem::Function(_) | TopLevelItem::Import(_) => Ok(()),
        }
    }

    fn validate_struct(&self, decl: &StructDecl) -> (result: Result<(), Error>)
        ensures
            agrees(result, struct_validated(self.env(), decl@)),
    {
        if let Some(param) = find_repeated(&decl.type_params) {
            return Err(
                Error::new(
                    quote_twice(
                        "duplicate type parameter `",
                        param,
                        "` in struct `",
                        decl.name.as_str(),
                        "`",
                    ),
                ),
            );
        }
        self.validate_type_in_scope(&decl.field.ty, &decl.type_params)
    }

    fn validate_enum(&self, decl: &EnumDecl) -> (result: Result<(), Error>)
        ensures
            agrees(result, enum_validated(self.env(), decl@)),
    {
        if let Some(param) = find_repeated(&decl.type_params) {
            return Err(
                Error::new(
                    quote_twice(
                        "duplicate type parameter `",
                        param,
                        "` in enum `",
                        decl.name.as_str(),
                        "`",
                    ),
                ),
            );
        }
        let ghost view = decl@;
        let ghost goal = payloads_validated(self.env(), view, 0);
        let mut i: usize = 0;
        while i < decl.variants.len()
            invariant
                i <= decl.variants.len(),
                view == decl@,
                goal == enum_validated(self.env(), view),
                goal == payloads_validated(self.env(), view, i as int),
            decreases decl.variants.len() - i,
        {
            assert(view.variants[i as int] == decl.variants@[i as int]@);
            if let Some(payload) = &decl.variants[i].payload {
                self.validate_type_in_scope(payload, &decl.type_params)?;
            }
            i += 1;
        }
        Ok(())
    }

    pub fn register_types(&mut self) -> (result: Result<(), Error>)
        requires
            old(self).wf(),
        ensures
            final(self).wf(),
            final(self).same_program(old(self)),
            final(self).types@ == old(self).types@,
            final(self).env() == types_registered(
                old(self).env(),
                old(self).program@.items,
            ).0,
            agrees(result, types_registered(old(self).env(), old(self).program@.items).1),
    {
        self.register_builtin_types();
        let program: &'a Program = self.program;
        let ghost items = program@.items;
        let ghost whole = types_registered(old(self).env(), items);
        let ghost start = self.env();
        let mut i: usize = 0;
        while i < program.items.len()
            invariant
                i <= program.items.len(),
                items == program@.items,
                program == old(self).program,
                self.wf(),
                self.same_program(old(self)),
                self.types@ == old(self).types@,
                items_declared(start, items, 0) == items_declared(self.env(), items, i as int),
                start == with_variants(old(self).env(), with_builtins(old(self).env().variants)),
            decreases program.items.len() - i,
        {
            assert(items[i as int] == program.items@[i as int]@);
            self.declare_item(&program.items[i])?;
            i += 1;
        }
        let ghost env = self.env();
        let mut i: usize = 0;
        while i < program.items.len()
            invariant
                i <= program.items.len(),
                items == program@.items,
                env == self.env(),
                self.wf(),
                self.same_program(old(self)),
                self.types@ == old(self).types@,
                whole.0 == env,
                structs_validated(env, items, 0) == structs_validated(env, items, i as int),
                structs_validated(env, items, 0) matches Err(message) ==> whole.1 == Err::<
                    (),
                    Seq<char>,
                >(message),
                whole == types_registered(old(self).env(), old(self).program@.items),
            decreases program.items.len() - i,
        {
            assert(items[i as int] == program.items@[i as int]@);
            if let TopLevelItem::Struct(decl) = &program.items[i] {
                self.validate_struct(decl)?;
            }
            i += 1;
        }
        let mut i: usize = 0;
        while i < program.items.len()
            invariant
                i <= program.items.len(),
                items == program@.items,
                env == self.env(),
                self.wf(),
                self.same_program(old(self)),
                self.types@ == old(self).types@,
                whole.0 == env,
                whole.1 == enums_validated(env, items, i as int),
                whole == types_registered(old(self).env(), old(self).program@.items),
            decreases program.items.len() - i,
        {
            assert(items[i as int] == program.items@[i as int]@);
            if let TopLevelItem::Enum(decl) = &program.items[i] {
                self.validate_enum(decl)?;
            }
            i += 1;
        }
        Ok(())
    }

    /// Makes slots of the types of a list.
    fn know_all(&mut self, list: &Vec<Type>) -> (ids: Vec<usize>)
        requires
            old(self).wf(),
        ensures
            final(self).stepped(old(self)),
            final(self).types@ == with_known(old(self).types@, type_views(list@), list.len() as int),
            final(self).types@.len() == old(self).types@.len() + list.len(),
            id_views(ids@) == slots_from(old(self).types@.len(), list.len() as nat),
    {
        let ghost start = self.types@;
        let ghost views = type_views(list@);
        let mut ids: Vec<usize> = Vec::new();
        let mut i: usize = 0;
        while i < list.len()
            invariant
                i <= list.len(),
                views == type_views(list@),
                start == old(self).types@,
                self.stepped(old(self)),
                self.types@ == with_known(start, views, i as int),
                self.types@.len() == start.len() + i,
                ids.len() == i,
                forall|k: int| 0 <= k < i ==> #[trigger] ids@[k] == start.len() + k,
            decreases list.len() - i,
        {
            assert(views[i as int] == list@[i as int]@);
            let id: usize = self.known(copy_type(&list[i]));
            ids.push(id);
            i += 1;
        }
        assert(id_views(ids@) =~= slots_from(start.len(), list.len() as nat));
        ids
    }

    /// Makes a function of the platform known under a name.
    fn declare_extern(&mut self, name: &String, function: &ExternFunction)
        requires
            old(self).wf(),
        ensures
            final(self).wf(),
            final(self).same_program(old(self)),
            final(self).knowledge() == extern_known(old(self).knowledge(), name@, function@),
    {
        let ghost before = *self;
        let params = self.know_all(&function.params);
        let ret: usize = self.known(copy_type(&function.ret));
        let declared = CapabilitySet::from_list(&function.capabilities);
        let signature = FunctionType {
            params,
            ret,
            effectful: function.effectful,
            declared_capabilities: Some(declared),
        };
        assert(type_views(function.params@).len() == function.params.len());
        self.functions.insert(name.clone(), signature);
        proof {
            lemma_declared(before.functions@, before.types@, self.types@, name@, signature@);
        }
    }

    fn register_import(&mut self, import: &Import) -> (result: Result<(), Error>)
        requires
            old(self).wf(),
        ensures
            final(self).wf(),
            final(self).same_program(old(self)),
            final(self).knowledge() == import_registered(
                old(self).platform@,
                old(self).knowledge(),
                import@,
            ).0,
            agrees(
                result,
                import_registered(old(self).platform@, old(self).knowledge(), import@).1,
            ),
    {
        assert(import@.path.len() == import.path.len());
        if import.origin == ImportOrigin::User && import.path.len() > 0 && same_text(
            import.path[0].as_str(),
            "platform",
        ) {
            return Err(
                Error::new(
                    quote(
                        "platform import `",
                        format_import_path(&import.path, import.name.as_str()).as_str(),
                        "` is only available to stdlib",
                    ),
                ),
            );
        }
        if self.functions.contains_key(import.name.as_str()) {
            return Err(
                Error::new(quote("duplicate imported function `", import.name.as_str(), "`")),
            );
        }
        match self.platform.externs.resolve_import(&import.path, import.name.as_str()) {
            Some(function) => {
                self.declare_extern(&import.name, function);
                Ok(())
            },
            None => Err(
                Error::new(
                    quote(
                        "unknown external import `",
                        format_import_path(&import.path, import.name.as_str()).as_str(),
                        "`",
                    ),
                ),
            ),
        }
    }

    pub fn register_imports(&mut self) -> (result: Result<(), Error>)
        requires
            old(self).wf(),
        ensures
            final(self).wf(),
            final(self).same_program(old(self)),
            final(self).knowledge() == imports_registered(
                old(self).platform@,
                old(self).knowledge(),
                old(self).program@.items,
                0,
            ).0,
            agrees(
                result,
                imports_registered(
                    old(self).platform@,
                    old(self).knowledge(),
                    old(self).program@.items,
                    0,
                ).1,
            ),
    {
        let program: &'a Program = self.program;
        let ghost items = program@.items;
        let ghost platform = self.platform@;
        let ghost goal = imports_registered(platform, self.knowledge(), items, 0);
        let mut i: usize = 0;
        while i < program.items.len()
            invariant
                i <= program.items.len(),
                items == program@.items,
                program == old(self).program,
                platform == old(self).platform@,
                self.wf(),
                self.same_program(old(self)),
                goal == imports_registered(platform, old(self).knowledge(), items, 0),
                goal == imports_registered(platform, self.knowledge(), items, i as int),
            decreases program.items.len() - i,
        {
            assert(items[i as int] == program.items@[i as int]@);
            if let TopLevelItem::Import(import) = &program.items[i] {
                self.register_import(import)?;
            }
            i += 1;
        }
        Ok(())
    }

    /// Makes slots of the types of the parameters of a function.
    fn register_params(&mut self, function: &Function) -> (result: Result<Vec<usize>, Error>)
        requires
            old(self).wf(),
        ensures
            final(self).stepped(old(self)),
            ({
                let step = params_registered(old(self).env(), old(self).types@, function@, 0);
                &&& final(self).types@ == step.0
                &&& match (result, step.1) {
                    (Ok(ids), Ok(_)) => {
                        &&& id_views(ids@) == slots_from(
                            old(self).types@.len(),
                            function@.params.len(),
                        )
                        &&& final(self).types@.len() == old(self).types@.len()
                            + function@.params.len()
                    },
                    (Err(error), Err(message)) => error@ == message,
                    _ => false,
                }
            }),
    {
        let ghost start = self.types@;
        let ghost env = self.env();
        let ghost view = function@;
        let ghost goal = params_registered(env, start, view, 0);
        let mut ids: Vec<usize> = Vec::new();
        let mut i: usize = 0;
        while i < function.params.len()
            invariant
                i <= function.params.len(),
                view == function@,
                env == old(self).env(),
                start == old(self).types@,
                self.stepped(old(self)),
                goal == params_registered(env, start, view, 0),
                goal == params_registered(env, self.types@, view, i as int),
                self.types@.len() == start.len() + i,
                ids.len() == i,
                forall|k: int| 0 <= k < i ==> #[trigger] ids@[k] == start.len() + k,
            decreases function.params.len() - i,
        {
            let param = &function.params[i];
            assert(view.params[i as int] == param@);
            match &param.ty {
                Some(ty) => {
                    self.validate_type(ty)?;
                    let id: usize = self.known(copy_type(ty));
                    ids.push(id);
                },
                None => {
                    return Err(
                        Error::new(
                            quote_twice(
                                "parameter `",
                                param.name.as_str(),
                                "` in function `",
                                function.name.as_str(),
                                "` must have a type annotation",
                            ),
                        ),
                    );
                },
            }
            i += 1;
        }
        assert(id_views(ids@) =~= slots_from(start.len(), view.params.len()));
        Ok(ids)
    }

    fn register_function(&mut self, function: &Function) -> (result: Result<(), Error>)
        requires
            old(self).wf(),
        ensures
            final(self).wf(),
            final(self).same_program(old(self)),
            final(self).knowledge() == function_registered(old(self).knowledge(), function@).0,
            agrees(result, function_registered(old(self).knowledge(), function@).1),
    {
        let ghost before = *self;
        let name = function.name.as_str();
        if self.functions.contains_key(name) {
            return Err(Error::new(quote("duplicate top-level function `", name, "`")));
        }
        let declared_capabilities = match &function.required {
            Some(list) => Some(CapabilitySet::from_list(list)),
            None => None,
        };
        let has_capabilities = match &declared_capabilities {
            Some(declared) => !declared.is_empty(),
            None => false,
        };
        let effectful = is_marked(name);
        if has_capabilities && !effectful {
            return Err(
                Error::new(
                    quote(
                        "function `",
                        name,
                        "` requires platform capabilities and must be marked with !",
                    ),
                ),
            );
        }
        let params = self.register_params(function)?;
        let ret: usize = match &function.return_annotation {
            Some(ty) => {
                self.validate_type(ty)?;
                self.known(copy_type(ty))
            },
            None => {
                return Err(
                    Error::new(
                        quote("function `", name, "` must have a return type annotation"),
                    ),
                );
            },
        };
        let signature = FunctionType { params, ret, effectful, declared_capabilities };
        self.functions.insert(function.name.clone(), signature);
        proof {
            lemma_declared(
                before.functions@,
                before.types@,
                self.types@,
                function@.name,
                signature@,
            );
        }
        Ok(())
    }

    pub fn register_functions(&mut self) -> (result: Result<(), Error>)
        requires
            old(self).wf(),
        ensures
            final(self).wf(),
            final(self).same_program(old(self)),
            final(self).knowledge() == functions_registered(
                old(self).knowledge(),
                functions_of(old(self).program@),
                0,
            ).0,
            agrees(
                result,
                functions_registered(
                    old(self).knowledge(),
                    functions_of(old(self).program@),
                    0,
                ).1,
            ),
    {
        let program: &'a Program = self.program;
        let list = program.functions();
        let ghost functions = functions_of(program@);
        let ghost goal = functions_registered(self.knowledge(), functions, 0);
        let mut i: usize = 0;
        while i < list.len()
            invariant
                i <= list.len(),
                functions == function_views(list@),
                functions == functions_of(old(self).program@),
                self.wf(),
                self.same_program(old(self)),
                goal == functions_registered(old(self).knowledge(), functions, 0),
                goal == functions_registered(self.knowledge(), functions, i as int),
            decreases list.len() - i,
        {
            let function = list[i];
            assert(functions[i as int] == function@);
            self.register_function(function)?;
            i += 1;
        }
        Ok(())
    }
}

/// One more signature of slots of a longer store.
pub proof fn lemma_declared(
    signatures: Map<Seq<char>, Signature>,
    before: Types,
    after: Types,
    name: Seq<char>,
    signature: Signature,
)
    requires
        signatures_sane(signatures, before),
        after.len() >= before.len(),
        signature_sane(signature, after),
    ensures
        signatures_sane(signatures.insert(name, signature), after),
{
    let more = signatures.insert(name, signature);
    assert forall|other: Seq<char>| #[trigger] more.contains_key(other) implies signature_sane(
        more[other],
        after,
    ) by {
        if other != name {
            assert(signatures.contains_key(other));
            assert(signature_sane(signatures[other], before));
        }
    }
}

} // verus!
