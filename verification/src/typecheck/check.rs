//! The check of a program as a whole.
use vstd::prelude::*;

use crate::ast::{function_views, functions_of, Function, FunctionView, Program};
use crate::capability::CapabilitySet;
use crate::error::{agrees, prepended, Error};
use crate::names::{scope_view, NameMap};
use crate::slots::scope_within;
use crate::text::{join, quote, quote_twice, same_text};
use crate::typecheck::checker::{signature_sane, FunctionType, TypeChecker};
use crate::typecheck::model::Signature;
use crate::typecheck::program::{
    boundary_checked, entry_count, entry_index, function_checked, function_registered,
    function_typed, functions_checked, functions_registered, functions_typed, is_entry,
    main_checked, needs_of, params_scoped, program_checked, CheckMode, Known,
};
use crate::typecheck::typed::{typed_views, TypedFunction, TypedProgram};

verus! {

/// Whether a program can start with the function of the name.
fn starts_program(name: &str) -> (yes: bool)
    ensures
        yes == is_entry(name@),
{
    same_text(name, "main") || same_text(name, "main!")
}

/// The position of the function that the program starts with.
fn find_entry(list: &Vec<&Function>) -> (at: usize)
    ensures
        at == entry_index(function_views(list@), 0),
        at <= list.len(),
{
    let ghost functions = function_views(list@);
    let mut i: usize = 0;
    while i < list.len()
        invariant
            i <= list.len(),
            functions == function_views(list@),
            entry_index(functions, 0) == entry_index(functions, i as int),
        decreases list.len() - i,
    {
        assert(functions[i as int] == list@[i as int]@);
        if starts_program(list[i].name.as_str()) {
            return i;
        }
        i += 1;
    }
    i
}

/// A program with one function to start with has a position of it.
pub proof fn lemma_entry(functions: Seq<FunctionView>, i: int)
    requires
        0 <= i <= functions.len(),
        entry_count(functions, i) > 0,
    ensures
        i <= entry_index(functions, i) < functions.len(),
        is_entry(functions[entry_index(functions, i)].name),
    decreases functions.len() - i,
{
    if i < functions.len() && !is_entry(functions[i].name) {
        lemma_entry(functions, i + 1);
    }
}

impl<'a> TypeChecker<'a> {
    pub fn check_main(&self) -> (result: Result<(), Error>)
        ensures
            agrees(result, main_checked(functions_of(self.program@))),
    {
        let list = self.program.functions();
        let ghost functions = functions_of(self.program@);
        let mut count: usize = 0;
        let mut i: usize = 0;
        while i < list.len()
            invariant
                i <= list.len(),
                functions == function_views(list@),
                count <= i,
                entry_count(functions, 0) == count + entry_count(functions, i as int),
            decreases list.len() - i,
        {
            assert(functions[i as int] == list@[i as int]@);
            if starts_program(list[i].name.as_str()) {
                count += 1;
            }
            i += 1;
        }
        if count != 1 {
            return Err(
                Error::new(
                    "executable program must contain exactly one top-level `main` or `main!` function".to_owned(),
                ),
            );
        }
        proof {
            lemma_entry(functions, 0);
        }
        let at: usize = find_entry(&list);
        assert(functions[at as int] == list@[at as int]@);
        if list[at].params.len() != 0 {
            return Err(Error::new("`main` and `main!` must take zero parameters".to_owned()));
        }
        Ok(())
    }

    pub fn check_runtime_boundary(&self, function_capabilities: &NameMap<CapabilitySet>) -> (result:
        Result<(), Error>)
        requires
            entry_count(functions_of(self.program@), 0) > 0,
        ensures
            agrees(
                result,
                boundary_checked(
                    self.platform@,
                    functions_of(self.program@),
                    function_capabilities@,
                ),
            ),
    {
        let list = self.program.functions();
        let ghost functions = functions_of(self.program@);
        proof {
            lemma_entry(functions, 0);
        }
        let at: usize = find_entry(&list);
        assert(functions[at as int] == list@[at as int]@);
        let required = copy_needs(function_capabilities, list[at].name.as_str());
        let provided = &self.platform.provided_capabilities;
        if !required.is_subset(provided) {
            let mut text = quote(
                "platform `",
                self.platform.name.as_str(),
                "` does not provide required capability: ",
            );
            text.append(join(&required.missing(provided), ", ").as_str());
            return Err(Error::new(text));
        }
        Ok(())
    }

    /// The parameters of a function with their slots.
    fn scope_params(&self, function: &Function, signature: &FunctionType) -> (result: Result<
        NameMap<usize>,
        Error,
    >)
        requires
            function.params.len() == signature.params.len(),
            signature_sane(signature@, self.types@),
        ensures
            match (result, params_scoped(Map::empty(), function@, signature@.params, 0)) {
                (Ok(scope), Ok(model)) => scope_view(scope) == model && scope_within(
                    model,
                    self.types@,
                ),
                (Err(error), Err(message)) => error@ == message,
                _ => false,
            },
    {
        let ghost view = function@;
        let ghost params = signature@.params;
        let ghost goal = params_scoped(Map::empty(), view, params, 0);
        let mut scope: NameMap<usize> = NameMap::new();
        assert(scope_view(scope) =~= Map::empty());
        let mut i: usize = 0;
        while i < function.params.len()
            invariant
                i <= function.params.len(),
                function.params.len() == signature.params.len(),
                view == function@,
                params == signature@.params,
                signature_sane(signature@, self.types@),
                scope_within(scope_view(scope), self.types@),
                goal == params_scoped(Map::empty(), view, params, 0),
                goal == params_scoped(scope_view(scope), view, params, i as int),
            decreases function.params.len() - i,
        {
            let param = &function.params[i];
            assert(view.params[i as int] == param@);
            assert(params[i as int] == signature.params@[i as int]);
            if scope.contains_key(param.name.as_str()) {
                return Err(
                    Error::new(
                        quote_twice(
                            "duplicate parameter `",
                            param.name.as_str(),
                            "` in function `",
                            function.name.as_str(),
                            "`",
                        ),
                    ),
                );
            }
            let ghost before = scope_view(scope);
            scope.insert(param.name.clone(), signature.params[i]);
            assert(scope_view(scope) =~= before.insert(param@.name, params[i as int]));
            i += 1;
        }
        Ok(scope)
    }

    /// The capabilities of a function, once its body has the type of its result.
    fn check_function(&mut self, function: &Function) -> (result: Result<CapabilitySet, Error>)
        requires
            old(self).wf(),
            declares(old(self).functions@, function@),
        ensures
            final(self).after(
                old(self),
                result,
                function_checked(old(self).env(), old(self).types@, function@),
            ),
    {
        let signature = match self.functions.get(function.name.as_str()) {
            Some(signature) => signature.copy(),
            None => {
                return Err(Error::new("internal type checker error".to_owned()));
            },
        };
        assert(signature@.params.len() == signature.params.len());
        assert(function@.params.len() == function.params.len());
        assert(signature_sane(signature@, self.types@));
        let scope = self.scope_params(function, &signature)?;
        let body = self.check_block(&function.body, &scope)?;
        self.unify(signature.ret, body.ty)?;
        if !signature.effectful && body.effectful {
            return Err(
                Error::new(
                    quote(
                        "pure function `",
                        function.name.as_str(),
                        "` cannot contain unhandled effects",
                    ),
                ),
            );
        }
        match signature.declared_capabilities {
            Some(declared) => {
                if !body.capabilities.is_subset(&declared) {
                    let mut text = quote(
                        "function `",
                        function.name.as_str(),
                        "` uses capability outside #[requires(...)]: ",
                    );
                    text.append(join(&body.capabilities.missing(&declared), ", ").as_str());
                    return Err(Error::new(text));
                }
                Ok(declared)
            },
            None => Ok(body.capabilities),
        }
    }

    /// The capabilities of all functions.
    fn check_functions(&mut self, list: &Vec<&'a Function>) -> (result: Result<
        NameMap<CapabilitySet>,
        Error,
    >)
        requires
            old(self).wf(),
            all_declared(old(self).functions@, function_views(list@)),
        ensures
            final(self).after(
                old(self),
                result,
                functions_checked(
                    old(self).env(),
                    old(self).types@,
                    function_views(list@),
                    0,
                    Map::empty(),
                ),
            ),
    {
        let ghost functions = function_views(list@);
        let ghost env = self.env();
        let ghost goal = functions_checked(env, self.types@, functions, 0, Map::empty());
        let mut needs: NameMap<CapabilitySet> = NameMap::new();
        let mut i: usize = 0;
        while i < list.len()
            invariant
                i <= list.len(),
                functions == function_views(list@),
                env == old(self).env(),
                self.stepped(old(self)),
                all_declared(self.functions@, functions),
                goal == functions_checked(env, old(self).types@, functions, 0, Map::empty()),
                goal == functions_checked(env, self.types@, functions, i as int, needs@),
            decreases list.len() - i,
        {
            let function = list[i];
            assert(functions[i as int] == function@);
            let capabilities = self.check_function(function)?;
            needs.insert(function.name.clone(), capabilities);
            i += 1;
        }
        Ok(needs)
    }

    /// The types, effects and capabilities of a function.
    fn type_function(&mut self, function: &Function, needs: &NameMap<CapabilitySet>) -> (result:
        Result<TypedFunction, Error>)
        requires
            old(self).wf(),
            declares(old(self).functions@, function@),
        ensures
            final(self).stepped(old(self)),
            final(self).types@ == old(self).types@,
            agrees(
                result,
                function_typed(old(self).env(), old(self).types@, function@, needs@),
            ),
    {
        let signature = match self.functions.get(function.name.as_str()) {
            Some(signature) => signature.copy(),
            None => {
                return Err(Error::new("internal type checker error".to_owned()));
            },
        };
        let ty = self.resolve_signature(function.name.as_str(), &signature)?;
        Ok(
            TypedFunction {
                name: function.name.clone(),
                params: ty.params,
                ret: *ty.ret,
                effectful: ty.effectful,
                capabilities: copy_needs(needs, function.name.as_str()).to_vec(),
            },
        )
    }

    /// The types, effects and capabilities of all functions.
    fn type_functions(&mut self, list: &Vec<&'a Function>, needs: &NameMap<CapabilitySet>) -> (result:
        Result<Vec<TypedFunction>, Error>)
        requires
            old(self).wf(),
            all_declared(old(self).functions@, function_views(list@)),
        ensures
            match (
                result,
                functions_typed(
                    old(self).env(),
                    old(self).types@,
                    function_views(list@),
                    0,
                    needs@,
                ),
            ) {
                (Ok(typed), Ok(model)) => typed_views(typed@) == model,
                (Err(error), Err(message)) => error@ == message,
                _ => false,
            },
    {
        let ghost functions = function_views(list@);
        let ghost env = self.env();
        let ghost types = self.types@;
        let ghost goal = functions_typed(env, types, functions, 0, needs@);
        let mut typed: Vec<TypedFunction> = Vec::new();
        let mut i: usize = 0;
        proof {
            assert(typed_views(typed@) =~= Seq::empty());
            if let Ok(rest) = goal {
                assert(typed_views(typed@) + rest =~= rest);
            }
        }
        while i < list.len()
            invariant
                i <= list.len(),
                functions == function_views(list@),
                env == old(self).env(),
                types == old(self).types@,
                self.stepped(old(self)),
                self.types@ == types,
                all_declared(self.functions@, functions),
                goal == functions_typed(env, types, functions, 0, needs@),
                goal == prepended(
                    typed_views(typed@),
                    functions_typed(env, types, functions, i as int, needs@),
                ),
            decreases list.len() - i,
        {
            let function = list[i];
            assert(functions[i as int] == function@);
            let one = self.type_function(function, needs)?;
            let ghost before = typed_views(typed@);
            typed.push(one);
            i += 1;
            proof {
                assert(typed_views(typed@) =~= before.push(one@));
                if let Ok(rest) = functions_typed(env, types, functions, i as int, needs@) {
                    assert(before + (seq![one@] + rest) =~= typed_views(typed@) + rest);
                }
            }
        }
        assert(typed_views(typed@) + Seq::empty() =~= typed_views(typed@));
        Ok(typed)
    }

    pub fn check(self) -> (result: Result<TypedProgram, Error>)
        requires
            self.wf(),
            self.is_fresh(),
        ensures
            agrees(result, program_checked(self.program@, self.platform@, self.mode)),
    {
        let mut checker = self;
        checker.register_types()?;
        checker.register_imports()?;
        let ghost start = checker.knowledge();
        checker.register_functions()?;
        if checker.mode == CheckMode::Executable {
            checker.check_main()?;
        }
        let program: &'a Program = checker.program;
        let list = program.functions();
        proof {
            lemma_registered(start, functions_of(program@), 0);
        }
        let needs = checker.check_functions(&list)?;
        if checker.mode == CheckMode::Executable {
            checker.check_runtime_boundary(&needs)?;
        }
        let functions = checker.type_functions(&list, &needs)?;
        Ok(TypedProgram { functions })
    }
}

/// The capabilities of a function.
fn copy_needs(needs: &NameMap<CapabilitySet>, name: &str) -> (set: CapabilitySet)
    ensures
        set@ == needs_of(needs@, name@),
{
    match needs.get(name) {
        Some(set) => set.copy(),
        None => CapabilitySet::new(),
    }
}

/// The function has a signature with as many parameters.
pub open spec fn declares(
    signatures: Map<Seq<char>, Signature>,
    function: FunctionView,
) -> bool {
    &&& signatures.contains_key(function.name)
    &&& signatures[function.name].params.len() == function.params.len()
}

/// Each function has a signature with as many parameters.
pub open spec fn all_declared(
    signatures: Map<Seq<char>, Signature>,
    functions: Seq<FunctionView>,
) -> bool {
    forall|i: int| 0 <= i < functions.len() ==> declares(signatures, #[trigger] functions[i])
}

/// Once all functions are registered, each has its signature, and no earlier one is lost.
pub proof fn lemma_registered(known: Known, functions: Seq<FunctionView>, i: int)
    requires
        0 <= i <= functions.len(),
    ensures
        functions_registered(known, functions, i).1 is Ok ==> {
            let after = functions_registered(known, functions, i).0.env.signatures;
            &&& forall|name: Seq<char>| #[trigger]
                known.env.signatures.contains_key(name) ==> after.contains_key(name) && after[name]
                    == known.env.signatures[name]
            &&& forall|k: int|
                i <= k < functions.len() ==> declares(after, #[trigger] functions[k])
        },
    decreases functions.len() - i,
{
    if i < functions.len() {
        let (next, outcome) = function_registered(known, functions[i]);
        if outcome is Ok {
            lemma_registered(next, functions, i + 1);
            if functions_registered(known, functions, i).1 is Ok {
                let after = functions_registered(known, functions, i).0.env.signatures;
                assert(next.env.signatures.contains_key(functions[i].name));
                assert forall|name: Seq<char>| #[trigger]
                    known.env.signatures.contains_key(name) implies after.contains_key(name)
                    && after[name] == known.env.signatures[name] by {
                    assert(next.env.signatures.contains_key(name));
                }
            }
        }
    }
}

} // verus!
