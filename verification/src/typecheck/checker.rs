//! The type checker of the full language.
use vstd::prelude::*;

use crate::ast::{
    arm_views, expr_views, optional_type, type_views, BinaryOp, Block, BlockItem, EnumDecl, Expr,
    Function, FunctionType as AstFunctionType, MatchArm, Pattern, PatternView, PrimType, Program,
    StructDecl, Type, TypeView,
};
use crate::capability::{ascending, CapabilitySet};
use crate::error::{agrees, prepended, Error};
use crate::names::{scope_view, NameMap};
use crate::platform::PlatformSpec;
use crate::slots::{id_views, optional, scope_within, Slots};
use crate::text::{decimal_text, quote, quote_twice, same_text, texts};
use crate::typecheck::model::{
    absorbed, access_checked, all_resolved, args_checked, arity_text, arm_checked, arms_checked,
    block_checked, call_arity_text, call_checked, constrained, constructed, constructor_checked,
    effects, enum_covered, enum_type, exhaustive, expr_checked, field_checked,
    function_type_validated, function_value, generic_arity, has_default, has_pattern, has_variant,
    item_checked, items_checked, known, match_checked, method_applied, method_checked, method_of,
    method_selected, mismatch_text, named_call_checked, names_type, operator_name,
    pattern_arguments, pattern_checked, pattern_fits, pattern_opened, plain, platform_errors,
    resolved, result_arguments, signature_resolved, struct_checked, type_validated, types_validated,
    unified, value_args_checked, value_call_checked, var_checked, variant_names, Checked, Env, Info,
    Method, Signature, Types, Variant,
};
use crate::typecheck::program::{CheckMode, Known};
use crate::typecheck::size::{
    arm_size, arms_size, block_size, expr_size, exprs_size, item_size, lemma_arms_positive,
    lemma_arms_size, lemma_exprs_size, lemma_items_size,
};
use crate::typecheck::substitution::{
    infer_type_arguments, substitute, substitute_type, substitute_type_for_params,
    type_is_generic_placeholder,
};
use crate::types::{copy_optional_type, copy_type, copy_types, same_type, show_type};

verus! {

/// The slots of the types of the parameters and of the result of a function, whether the function
/// has effects, and the capabilities that it declares.
pub struct FunctionType {
    pub params: Vec<usize>,
    pub ret: usize,
    pub effectful: bool,
    pub declared_capabilities: Option<CapabilitySet>,
}

/// A variant of an enum.
pub struct VariantInfo {
    pub enum_name: String,
    pub enum_type_params: Vec<String>,
    pub payload: Option<Type>,
}

/// The slot of the type of an expression, whether the expression has effects, and the capabilities
/// that it needs.
pub struct ExprInfo {
    pub ty: usize,
    pub effectful: bool,
    pub capabilities: CapabilitySet,
}

impl View for FunctionType {
    type V = Signature;

    open spec fn view(&self) -> Signature {
        Signature {
            params: id_views(self.params@),
            ret: self.ret as int,
            effectful: self.effectful,
            declared: optional(self.declared_capabilities),
        }
    }
}

impl View for VariantInfo {
    type V = Variant;

    open spec fn view(&self) -> Variant {
        Variant {
            enum_name: self.enum_name@,
            enum_type_params: texts(self.enum_type_params@),
            payload: optional_type(self.payload),
        }
    }
}

impl View for ExprInfo {
    type V = Info;

    open spec fn view(&self) -> Info {
        Info {
            ty: self.ty as int,
            effectful: self.effectful,
            capabilities: self.capabilities@,
        }
    }
}

/// A list of the same texts.
pub fn copy_texts(list: &Vec<String>) -> (copy: Vec<String>)
    ensures
        texts(copy@) == texts(list@),
{
    let mut copy: Vec<String> = Vec::new();
    let mut i: usize = 0;
    while i < list.len()
        invariant
            i <= list.len(),
            copy@ == list@.take(i as int),
        decreases list.len() - i,
    {
        copy.push(list[i].clone());
        i += 1;
        assert(copy@ =~= list@.take(i as int));
    }
    assert(copy@ =~= list@);
    copy
}

fn has_text(list: &Vec<String>, text: &str) -> (found: bool)
    ensures
        found == texts(list@).contains(text@),
{
    let ghost all = texts(list@);
    let mut i: usize = 0;
    while i < list.len()
        invariant
            i <= list.len(),
            all == texts(list@),
            forall|k: int| 0 <= k < i ==> #[trigger] all[k] != text@,
        decreases list.len() - i,
    {
        assert(all[i as int] == list@[i as int]@);
        if same_text(list[i].as_str(), text) {
            return true;
        }
        i += 1;
    }
    false
}

impl FunctionType {
    pub fn copy(&self) -> (copy: Self)
        ensures
            copy@ == self@,
            copy.params@ == self.params@,
    {
        let params = self.params.clone();
        assert(params@ =~= self.params@);
        let declared_capabilities = match &self.declared_capabilities {
            Some(declared) => Some(declared.copy()),
            None => None,
        };
        FunctionType { params, ret: self.ret, effectful: self.effectful, declared_capabilities }
    }
}

impl VariantInfo {
    pub fn copy(&self) -> (copy: Self)
        ensures
            copy@ == self@,
    {
        VariantInfo {
            enum_name: self.enum_name.clone(),
            enum_type_params: copy_texts(&self.enum_type_params),
            payload: copy_optional_type(&self.payload),
        }
    }
}

/// The slot of an expression is a slot of the store, and its capabilities are a set.
pub open spec fn sane(info: Info, types: Types) -> bool {
    &&& types.has(info.ty)
    &&& ascending(info.capabilities)
}

/// Each slot of a signature is a slot of the store, and its capabilities are a set.
pub open spec fn signature_sane(signature: Signature, types: Types) -> bool {
    &&& types.has(signature.ret)
    &&& forall|i: int| 0 <= i < signature.params.len() ==> types.has(#[trigger] signature.params[i])
    &&& signature.declared matches Some(declared) ==> ascending(declared)
}

/// Each slot of the signatures is a slot of the store, and their capabilities are sets.
pub open spec fn signatures_sane(signatures: Map<Seq<char>, Signature>, types: Types) -> bool {
    forall|name: Seq<char>| #[trigger]
        signatures.contains_key(name) ==> signature_sane(signatures[name], types)
}

impl ExprInfo {
    /// Adds the effects of another expression.
    fn absorb(&mut self, more: &ExprInfo)
        requires
            ascending(old(self)@.capabilities),
        ensures
            final(self)@ == absorbed(old(self)@, more@),
            ascending(final(self)@.capabilities),
    {
        self.effectful = self.effectful || more.effectful;
        self.capabilities.extend(&more.capabilities);
    }
}

fn mismatch(left: &Type, right: &Type) -> (error: Error)
    ensures
        error@ == mismatch_text(left@, right@),
{
    let mut text = "type mismatch: expected ".to_owned();
    text.append(show_type(left).as_str());
    text.append(", got ");
    text.append(show_type(right).as_str());
    Error::new(text)
}

fn arity_error(
    before: &str,
    name: &str,
    between: &str,
    wanted: usize,
    after: &str,
    given: usize,
) -> (error: Error)
    ensures
        error@ == arity_text(before@, name@, between@, wanted as nat, after@, given as nat),
{
    let mut text = quote(before, name, between);
    text.append(decimal_text(wanted as u64).as_str());
    text.append(after);
    text.append(decimal_text(given as u64).as_str());
    Error::new(text)
}

fn call_arity_error(before: &str, name: &str, wanted: usize, given: usize) -> (error: Error)
    ensures
        error@ == call_arity_text(before@, name@, wanted as nat, given as nat),
{
    arity_error(before, name, "` expects ", wanted, " argument(s), got ", given)
}

/// The type of the values of an enum with these type arguments.
pub fn enum_result_type(variant: &VariantInfo, args: Vec<Type>) -> (ty: Type)
    ensures
        ty@ == enum_type(variant@, type_views(args@)),
{
    assert(type_views(args@).len() == args.len());
    if args.len() == 0 {
        Type::Named(variant.enum_name.clone())
    } else {
        Type::Apply { name: variant.enum_name.clone(), args }
    }
}

pub struct TypeChecker<'a> {
    pub program: &'a Program,
    pub platform: &'a PlatformSpec,
    pub mode: CheckMode,
    pub types: Slots<Type>,
    pub structs: NameMap<&'a StructDecl>,
    pub enums: NameMap<&'a EnumDecl>,
    pub variants: NameMap<VariantInfo>,
    pub functions: NameMap<FunctionType>,
}

impl<'a> TypeChecker<'a> {
    /// What is declared.
    pub open spec fn env(&self) -> Env {
        Env {
            structs: self.structs@,
            enums: self.enums@,
            variants: self.variants@,
            signatures: self.functions@,
        }
    }

    /// What is known of slots and of declarations.
    pub open spec fn knowledge(&self) -> Known {
        Known { types: self.types@, env: self.env() }
    }

    pub open spec fn wf(&self) -> bool {
        &&& self.types.wf()
        &&& signatures_sane(self.functions@, self.types@)
    }

    pub open spec fn same_program(&self, before: &Self) -> bool {
        &&& self.program == before.program
        &&& self.platform == before.platform
        &&& self.mode == before.mode
    }

    /// A step leaves the declarations alone, and loses no slot.
    pub open spec fn stepped(&self, before: &Self) -> bool {
        &&& self.wf()
        &&& self.same_program(before)
        &&& self.env() == before.env()
        &&& self.types@.len() >= before.types@.len()
    }

    /// The step from `before` on has led here, and returned what the model says.
    pub open spec fn after<T: View>(
        &self,
        before: &Self,
        result: Result<T, Error>,
        step: Checked<T::V>,
    ) -> bool {
        &&& self.stepped(before)
        &&& self.types@ == step.0
        &&& agrees(result, step.1)
    }

    /// The same for a step that returns an expression.
    pub open spec fn yields(
        &self,
        before: &Self,
        result: Result<ExprInfo, Error>,
        step: Checked<Info>,
    ) -> bool {
        &&& self.after(before, result, step)
        &&& step.1 matches Ok(info) ==> sane(info, self.types@)
    }

    pub fn new(program: &'a Program, platform: &'a PlatformSpec) -> (checker: Self)
        ensures
            checker.wf(),
            checker.program == program,
            checker.platform == platform,
            checker.mode == CheckMode::Executable,
            checker.is_fresh(),
    {
        Self::new_with_mode(program, platform, CheckMode::Executable)
    }

    pub fn new_with_mode(
        program: &'a Program,
        platform: &'a PlatformSpec,
        mode: CheckMode,
    ) -> (checker: Self)
        ensures
            checker.wf(),
            checker.program == program,
            checker.platform == platform,
            checker.mode == mode,
            checker.is_fresh(),
    {
        TypeChecker {
            program,
            platform,
            mode,
            types: Slots::new(),
            structs: NameMap::new(),
            enums: NameMap::new(),
            variants: NameMap::new(),
            functions: NameMap::new(),
        }
    }

    /// Nothing is known.
    pub open spec fn is_fresh(&self) -> bool {
        &&& self.types@ == Types::empty()
        &&& self.env() == (Env {
            structs: Map::empty(),
            enums: Map::empty(),
            variants: Map::empty(),
            signatures: Map::empty(),
        })
    }

    pub fn info(&self, ty: usize) -> (info: ExprInfo)
        ensures
            info@ == plain(ty as int),
            ascending(info@.capabilities),
    {
        ExprInfo { ty, effectful: false, capabilities: CapabilitySet::new() }
    }

    pub fn fresh(&mut self) -> (id: usize)
        requires
            old(self).wf(),
        ensures
            final(self).stepped(old(self)),
            id == old(self).types@.len(),
            final(self).types@ == old(self).types@.with(None),
    {
        self.types.add(None)
    }

    pub fn known(&mut self, ty: Type) -> (id: usize)
        requires
            old(self).wf(),
        ensures
            final(self).stepped(old(self)),
            id == old(self).types@.len(),
            final(self).types@ == old(self).types@.with(Some(ty@)),
    {
        self.types.add(Some(ty))
    }

    pub fn find(&mut self, id: usize) -> (root: usize)
        requires
            old(self).wf(),
            old(self).types@.has(id as int),
        ensures
            final(self).stepped(old(self)),
            final(self).types@ == old(self).types@,
            root == old(self).types@.roots[id as int],
            old(self).types@.has(root as int),
            old(self).types@.roots[root as int] == root,
    {
        self.types.find(id)
    }

    pub fn unify(&mut self, a: usize, b: usize) -> (result: Result<(), Error>)
        requires
            old(self).wf(),
            old(self).types@.has(a as int),
            old(self).types@.has(b as int),
        ensures
            final(self).after(old(self), result, unified(old(self).types@, a as int, b as int)),
    {
        let ra: usize = self.find(a);
        let rb: usize = self.find(b);
        if ra == rb {
            return Ok(());
        }
        let left = copy_optional_type(self.types.value(ra));
        let right = copy_optional_type(self.types.value(rb));
        assert(optional(left) == self.types@.values[ra as int]);
        assert(optional(right) == self.types@.values[rb as int]);
        match (left, right) {
            (Some(left), Some(right)) => {
                if type_is_generic_placeholder(&left) {
                    self.types.assign(ra, right);
                    self.types.link(rb, ra);
                    return Ok(());
                }
                if type_is_generic_placeholder(&right) {
                    self.types.assign(rb, left);
                    self.types.link(ra, rb);
                    return Ok(());
                }
                if !same_type(&left, &right) {
                    return Err(mismatch(&left, &right));
                }
                self.types.link(rb, ra);
                Ok(())
            },
            (Some(_), None) => {
                self.types.link(rb, ra);
                Ok(())
            },
            (None, Some(_)) => {
                self.types.link(ra, rb);
                Ok(())
            },
            (None, None) => {
                self.types.link(rb, ra);
                Ok(())
            },
        }
    }

    /// The slot `id` has the type `ty`.
    pub(crate) fn constrain(&mut self, id: usize, ty: Type) -> (result: Result<(), Error>)
        requires
            old(self).wf(),
            old(self).types@.has(id as int),
        ensures
            final(self).after(old(self), result, constrained(old(self).types@, id as int, ty@)),
    {
        let slot: usize = self.known(ty);
        self.unify(id, slot)
    }

    pub fn resolve_optional(&mut self, id: usize) -> (ty: Option<Type>)
        requires
            old(self).wf(),
            old(self).types@.has(id as int),
        ensures
            final(self).stepped(old(self)),
            final(self).types@ == old(self).types@,
            optional_type(ty) == old(self).types@.value_of(id as int),
    {
        let root: usize = self.find(id);
        copy_optional_type(self.types.value(root))
    }

    pub fn resolve_known(&mut self, id: usize, label: &str) -> (result: Result<Type, Error>)
        requires
            old(self).wf(),
            old(self).types@.has(id as int),
        ensures
            final(self).stepped(old(self)),
            final(self).types@ == old(self).types@,
            agrees(result, resolved(old(self).types@, id as int, label@)),
    {
        match self.resolve_optional(id) {
            Some(ty) => Ok(ty),
            None => {
                let mut text = "could not infer ".to_owned();
                text.append(label);
                Err(Error::new(text))
            },
        }
    }

    /// The types of a list of slots.
    fn resolve_all(&mut self, ids: &Vec<usize>, label: &str) -> (result: Result<Vec<Type>, Error>)
        requires
            old(self).wf(),
            forall|i: int| 0 <= i < ids.len() ==> old(self).types@.has(ids@[i] as int),
        ensures
            final(self).stepped(old(self)),
            final(self).types@ == old(self).types@,
            match (result, all_resolved(old(self).types@, id_views(ids@), 0, label@)) {
                (Ok(list), Ok(model)) => type_views(list@) == model,
                (Err(error), Err(message)) => error@ == message,
                _ => false,
            },
    {
        let ghost types = self.types@;
        let ghost models = id_views(ids@);
        let mut list: Vec<Type> = Vec::new();
        let mut i: usize = 0;
        assert(type_views(list@) =~= Seq::empty());
        proof {
            if let Ok(rest) = all_resolved(types, models, 0, label@) {
                assert(type_views(list@) + rest =~= rest);
            }
        }
        while i < ids.len()
            invariant
                i <= ids.len(),
                self.stepped(old(self)),
                self.types@ == types,
                types == old(self).types@,
                models == id_views(ids@),
                forall|i: int| 0 <= i < ids.len() ==> types.has(ids@[i] as int),
                all_resolved(types, models, 0, label@) == prepended(
                    type_views(list@),
                    all_resolved(types, models, i as int, label@),
                ),
            decreases ids.len() - i,
        {
            assert(models[i as int] == ids@[i as int]);
            let ty = self.resolve_known(ids[i], label)?;
            let ghost before = type_views(list@);
            list.push(ty);
            i += 1;
            proof {
                assert(type_views(list@) =~= before.push(ty@));
                if let Ok(rest) = all_resolved(types, models, i as int, label@) {
                    assert(before + (seq![ty@] + rest) =~= type_views(list@) + rest);
                }
            }
        }
        assert(type_views(list@) + Seq::<TypeView>::empty() =~= type_views(list@));
        Ok(list)
    }

    /// The parameter and result types of a function.
    pub(crate) fn resolve_signature(&mut self, name: &str, signature: &FunctionType) -> (result: Result<
        AstFunctionType,
        Error,
    >)
        requires
            old(self).wf(),
            signature_sane(signature@, old(self).types@),
        ensures
            final(self).stepped(old(self)),
            final(self).types@ == old(self).types@,
            agrees(result, signature_resolved(old(self).types@, name@, signature@)),
    {
        assert forall|i: int| 0 <= i < signature.params.len() implies self.types@.has(
            signature.params@[i] as int,
        ) by {
            assert(self.types@.has(signature@.params[i]));
        }
        let label = quote("parameter in `", name, "`");
        let params = self.resolve_all(&signature.params, label.as_str())?;
        let label = quote("return type of `", name, "`");
        let ret = self.resolve_known(signature.ret, label.as_str())?;
        Ok(AstFunctionType { params, ret: Box::new(ret), effectful: signature.effectful })
    }

    pub fn function_value_type(&mut self, name: &str) -> (ty: Option<Type>)
        requires
            old(self).wf(),
        ensures
            final(self).stepped(old(self)),
            final(self).types@ == old(self).types@,
            optional_type(ty) == function_value(old(self).env(), old(self).types@, name@),
    {
        let signature = match self.functions.get(name) {
            Some(signature) => signature.copy(),
            None => {
                return None;
            },
        };
        assert(self.env().signatures.contains_key(name@));
        match self.resolve_signature(name, &signature) {
            Ok(function) => Some(Type::Function(function)),
            Err(_) => None,
        }
    }

    pub fn expect_pattern_type(&self, expected: &Type, actual: Type) -> (result: Result<(), Error>)
        ensures
            agrees(result, pattern_fits(expected@, actual@)),
    {
        if same_type(expected, &actual) {
            Ok(())
        } else {
            Err(mismatch(expected, &actual))
        }
    }

    pub fn pattern_type_arguments(&self, expected: &Type, variant: &VariantInfo) -> (result: Result<
        Vec<Type>,
        Error,
    >)
        ensures
            match (result, pattern_arguments(expected@, variant@)) {
                (Ok(args), Ok(model)) => type_views(args@) == model,
                (Err(error), Err(message)) => error@ == message,
                _ => false,
            },
    {
        assert(texts(variant.enum_type_params@).len() == variant.enum_type_params.len());
        if variant.enum_type_params.len() == 0 {
            self.expect_pattern_type(expected, Type::Named(variant.enum_name.clone()))?;
            let args: Vec<Type> = Vec::new();
            assert(type_views(args@) =~= Seq::empty());
            return Ok(args);
        }
        match expected {
            Type::Apply { name, args } => {
                if !same_text(name.as_str(), variant.enum_name.as_str()) {
                    return Err(mismatch(&enum_result_type(variant, copy_types(args)), expected));
                }
                Ok(copy_types(args))
            },
            _ => {
                let mut text = quote(
                    "type mismatch: expected generic enum `",
                    variant.enum_name.as_str(),
                    "`, got ",
                );
                text.append(show_type(expected).as_str());
                Err(Error::new(text))
            },
        }
    }

    /// The type of the payload of a variant in a pattern, where it has one.
    fn open_pattern(&self, expected: &Type, name: &str, has_payload: bool) -> (result: Result<
        Option<Type>,
        Error,
    >)
        ensures
            match (result, pattern_opened(self.env(), expected@, name@, has_payload)) {
                (Ok(payload), Ok(model)) => optional_type(payload) == model,
                (Err(error), Err(message)) => error@ == message,
                _ => false,
            },
    {
        let variant = match self.variants.get(name) {
            Some(variant) => variant,
            None => {
                return Err(Error::new(quote("unknown enum variant `", name, "`")));
            },
        };
        let args = self.pattern_type_arguments(expected, variant)?;
        self.expect_pattern_type(expected, enum_result_type(variant, copy_types(&args)))?;
        match &variant.payload {
            Some(payload) => {
                if has_payload {
                    Ok(Some(substitute_type_for_params(payload, &variant.enum_type_params, &args)))
                } else {
                    Err(
                        Error::new(quote("enum variant `", name, "` pattern requires a payload")),
                    )
                }
            },
            None => {
                if has_payload {
                    Err(
                        Error::new(
                            quote("enum variant `", name, "` pattern does not take a payload"),
                        ),
                    )
                } else {
                    Ok(None)
                }
            },
        }
    }

    pub fn check_pattern(
        &mut self,
        pattern: &Pattern,
        expected: &Type,
        scope: &mut NameMap<usize>,
    ) -> (result: Result<(), Error>)
        requires
            old(self).wf(),
            scope_within(scope_view(*old(scope)), old(self).types@),
        ensures
            final(self).stepped(old(self)),
            ({
                let step = pattern_checked(
                    old(self).env(),
                    old(self).types@,
                    scope_view(*old(scope)),
                    pattern@,
                    expected@,
                );
                &&& final(self).types@ == step.0
                &&& match (result, step.1) {
                    (Ok(_), Ok(inner)) => scope_view(*final(scope)) == inner,
                    (Err(error), Err(message)) => error@ == message && *final(scope) == *old(scope),
                    _ => false,
                }
            }),
            scope_within(scope_view(*final(scope)), final(self).types@),
        decreases pattern,
    {
        match pattern {
            Pattern::Int(_) => self.expect_pattern_type(expected, Type::Prim(PrimType::I32)),
            Pattern::Bool(_) => self.expect_pattern_type(expected, Type::Prim(PrimType::Bool)),
            Pattern::Unit => self.expect_pattern_type(expected, Type::Prim(PrimType::Unit)),
            Pattern::Wildcard => Ok(()),
            Pattern::Var(name) => {
                if scope.contains_key(name.as_str()) {
                    return Err(
                        Error::new(
                            quote(
                                "pattern binding `",
                                name.as_str(),
                                "` shadows an existing binding",
                            ),
                        ),
                    );
                }
                let ghost before = scope_view(*scope);
                let ty: usize = self.known(copy_type(expected));
                scope.insert(name.clone(), ty);
                assert(scope_view(*scope) =~= before.insert(name@, ty as int));
                Ok(())
            },
            Pattern::Variant { name, payload } => {
                let inner = self.open_pattern(expected, name.as_str(), payload.is_some())?;
                match (inner, payload) {
                    (Some(inner), Some(payload)) => self.check_pattern(payload, &inner, scope),
                    _ => Ok(()),
                }
            },
        }
    }

    pub fn enum_variant_names(&self, name: &str) -> (names: Option<Vec<String>>)
        ensures
            match (names, variant_names(self.env(), name@)) {
                (Some(names), Some(model)) => texts(names@) == model,
                (None, None) => true,
                _ => false,
            },
    {
        if same_text(name, "Result") {
            let mut names: Vec<String> = Vec::new();
            names.push("Ok".to_owned());
            names.push("Err".to_owned());
            assert(texts(names@) =~= seq!["Ok"@, "Err"@]);
            return Some(names);
        }
        if same_text(name, "PlatformError") {
            return Some(platform_error_names());
        }
        match self.enums.get(name) {
            Some(decl) => {
                let ghost views = decl@.variants;
                let mut names: Vec<String> = Vec::new();
                let mut i: usize = 0;
                while i < decl.variants.len()
                    invariant
                        i <= decl.variants.len(),
                        views == decl@.variants,
                        names.len() == i,
                        forall|k: int| 0 <= k < i ==> (#[trigger] names@[k])@ == views[k].name,
                    decreases decl.variants.len() - i,
                {
                    assert(views[i as int] == decl.variants@[i as int]@);
                    names.push(decl.variants[i].name.clone());
                    i += 1;
                }
                assert(texts(names@) =~= variant_names(self.env(), name@)->Some_0);
                Some(names)
            },
            None => None,
        }
    }

    /// Each variant of the enum has an arm.
    fn covers_enum(&self, name: &str, arms: &Vec<MatchArm>) -> (covered: bool)
        ensures
            covered == enum_covered(self.env(), name@, arm_views(arms@)),
    {
        match self.enum_variant_names(name) {
            Some(names) => {
                let ghost all = texts(names@);
                let mut i: usize = 0;
                while i < names.len()
                    invariant
                        i <= names.len(),
                        all == texts(names@),
                        variant_names(self.env(), name@) == Some(all),
                        forall|k: int|
                            0 <= k < i ==> has_variant(arm_views(arms@), #[trigger] all[k]),
                    decreases names.len() - i,
                {
                    assert(all[i as int] == names@[i as int]@);
                    if !has_variant_arm(arms, names[i].as_str()) {
                        assert(0 <= i < all.len() && !has_variant(arm_views(arms@), all[i as int]));
                        assert(variant_names(self.env(), name@)->Some_0 == all);
                        assert(!enum_covered(self.env(), name@, arm_views(arms@)));
                        return false;
                    }
                    i += 1;
                }
                true
            },
            None => false,
        }
    }

    pub fn match_is_exhaustive(&self, scrutinee: &Type, arms: &Vec<MatchArm>) -> (covers: bool)
        ensures
            covers == exhaustive(self.env(), scrutinee@, arm_views(arms@)),
    {
        if has_default_arm(arms) {
            return true;
        }
        match scrutinee {
            Type::Prim(PrimType::Bool) => {
                let has_true = has_bool_arm(arms, true);
                let has_false = has_bool_arm(arms, false);
                has_true && has_false
            },
            Type::Prim(PrimType::Unit) => has_unit_arm(arms),
            Type::Prim(PrimType::I32) | Type::Prim(PrimType::String) => false,
            Type::Function(_) | Type::GenericParam(_) => false,
            Type::Named(name) => self.covers_enum(name.as_str(), arms),
            Type::Apply { name, .. } => self.covers_enum(name.as_str(), arms),
        }
    }

    pub fn validate_type(&self, ty: &Type) -> (result: Result<(), Error>)
        ensures
            agrees(result, type_validated(self.env(), ty@, Seq::empty())),
    {
        let none: Vec<String> = Vec::new();
        assert(texts(none@) =~= Seq::empty());
        self.validate_type_in_scope(ty, &none)
    }

    /// Whether a name stands for a type without arguments.
    fn is_type_name(&self, name: &str, type_params: &Vec<String>) -> (yes: bool)
        ensures
            yes == names_type(self.env(), name@, texts(type_params@)),
    {
        if has_text(type_params, name) || same_text(name, "PlatformError") {
            return true;
        }
        if let Some(decl) = self.structs.get(name) {
            assert(decl@.type_params.len() == decl.type_params.len());
            if decl.type_params.len() == 0 {
                return true;
            }
        }
        if let Some(decl) = self.enums.get(name) {
            assert(decl@.type_params.len() == decl.type_params.len());
            if decl.type_params.len() == 0 {
                return true;
            }
        }
        false
    }

    /// The number of type arguments of a generic type.
    fn type_arity(&self, name: &str) -> (arity: Option<usize>)
        ensures
            match (arity, generic_arity(self.env(), name@)) {
                (Some(arity), Some(model)) => arity == model,
                (None, None) => true,
                _ => false,
            },
    {
        if same_text(name, "Result") {
            return Some(2);
        }
        if let Some(decl) = self.structs.get(name) {
            assert(decl@.type_params.len() == decl.type_params.len());
            return Some(decl.type_params.len());
        }
        match self.enums.get(name) {
            Some(decl) => {
                assert(decl@.type_params.len() == decl.type_params.len());
                Some(decl.type_params.len())
            },
            None => None,
        }
    }

    pub fn validate_type_in_scope(&self, ty: &Type, type_params: &Vec<String>) -> (result: Result<
        (),
        Error,
    >)
        ensures
            agrees(result, type_validated(self.env(), ty@, texts(type_params@))),
        decreases ty, 0int,
    {
        match ty {
            Type::Prim(_) => Ok(()),
            Type::Named(name) => {
                if self.is_type_name(name.as_str(), type_params) {
                    Ok(())
                } else {
                    Err(Error::new(quote("unknown type `", name.as_str(), "`")))
                }
            },
            Type::GenericParam(name) => {
                if has_text(type_params, name.as_str()) {
                    Ok(())
                } else {
                    Err(Error::new(quote("unknown type parameter `", name.as_str(), "`")))
                }
            },
            Type::Apply { name, args } => {
                assert(type_views(args@).len() == args.len());
                match self.type_arity(name.as_str()) {
                    Some(wanted) => {
                        if args.len() != wanted {
                            return Err(
                                arity_error(
                                    "generic type `",
                                    name.as_str(),
                                    "` expects ",
                                    wanted,
                                    " type argument(s), got ",
                                    args.len(),
                                ),
                            );
                        }
                        self.validate_types(args, type_params)
                    },
                    None => Err(Error::new(quote("unknown generic type `", name.as_str(), "`"))),
                }
            },
            Type::Function(function) => self.validate_function_type(function, type_params),
        }
    }

    fn validate_function_type(
        &self,
        function: &AstFunctionType,
        type_params: &Vec<String>,
    ) -> (result: Result<(), Error>)
        ensures
            agrees(
                result,
                function_type_validated(self.env(), function@, texts(type_params@)),
            ),
        decreases function, 0int,
    {
        self.validate_types(&function.params, type_params)?;
        self.validate_type_in_scope(&function.ret, type_params)
    }

    fn validate_types(&self, list: &Vec<Type>, type_params: &Vec<String>) -> (result: Result<
        (),
        Error,
    >)
        ensures
            agrees(
                result,
                types_validated(self.env(), type_views(list@), texts(type_params@), 0),
            ),
        decreases list, 0int,
    {
        let ghost views = type_views(list@);
        let ghost params = texts(type_params@);
        let ghost goal = types_validated(self.env(), views, params, 0);
        let mut i: usize = 0;
        while i < list.len()
            invariant
                i <= list.len(),
                views == type_views(list@),
                params == texts(type_params@),
                goal == types_validated(self.env(), views, params, 0),
                goal == types_validated(self.env(), views, params, i as int),
            decreases list.len() - i,
        {
            assert(views[i as int] == list@[i as int]@);
            self.validate_type_in_scope(&list[i], type_params)?;
            i += 1;
        }
        Ok(())
    }

    fn check_var(&mut self, name: &str, scope: &NameMap<usize>) -> (result: Result<
        ExprInfo,
        Error,
    >)
        requires
            old(self).wf(),
            scope_within(scope_view(*scope), old(self).types@),
        ensures
            final(self).yields(
                old(self),
                result,
                var_checked(old(self).env(), old(self).types@, scope_view(*scope), name@),
            ),
    {
        if let Some(ty) = scope.get(name) {
            assert(scope_view(*scope).contains_key(name@));
            return Ok(self.info(*ty));
        }
        if let Some(variant) = self.variants.get(name) {
            if variant.payload.is_some() {
                return Err(Error::new(quote("enum variant `", name, "` requires a payload")));
            }
            let none: Vec<Type> = Vec::new();
            assert(type_views(none@) =~= Seq::empty());
            let ty = enum_result_type(variant, none);
            let ty: usize = self.known(ty);
            return Ok(self.info(ty));
        }
        if let Some(function_ty) = self.function_value_type(name) {
            let ty: usize = self.known(function_ty);
            return Ok(self.info(ty));
        }
        Err(Error::new(quote("unknown local binding `", name, "`")))
    }

    /// The variant with a payload of the type of `arg`.
    fn construct(&mut self, variant: &VariantInfo, payload: &Type, arg: ExprInfo) -> (result:
        Result<ExprInfo, Error>)
        requires
            old(self).wf(),
            sane(arg@, old(self).types@),
            variant.payload == Some(*payload),
        ensures
            final(self).yields(old(self), result, constructed(old(self).types@, variant@, arg@)),
    {
        let actual = self.resolve_known(arg.ty, "enum variant payload type")?;
        let mut substitutions: NameMap<Type> = NameMap::new();
        infer_type_arguments(payload, &actual, &mut substitutions);
        let ghost found = substitutions@;
        let ghost params = variant@.enum_type_params;
        let mut args: Vec<Type> = Vec::new();
        let mut i: usize = 0;
        while i < variant.enum_type_params.len()
            invariant
                i <= variant.enum_type_params.len(),
                found == substitutions@,
                params == variant@.enum_type_params,
                args.len() == i,
                forall|k: int|
                    0 <= k < i ==> (#[trigger] args@[k])@ == substitute(found, params[k]),
            decreases variant.enum_type_params.len() - i,
        {
            let param = &variant.enum_type_params[i];
            assert(params[i as int] == param@);
            let ty = match substitutions.get(param.as_str()) {
                Some(ty) => copy_type(ty),
                None => Type::GenericParam(param.clone()),
            };
            args.push(ty);
            i += 1;
        }
        assert(type_views(args@) =~= result_arguments(params, found)) by {
            assert forall|k: int| 0 <= k < params.len() implies type_views(args@)[k]
                == result_arguments(params, found)[k] by {
                assert(args@[k]@ == substitute(found, params[k]));
            }
        }
        self.constrain(arg.ty, substitute_type(payload, &substitutions))?;
        let ty: usize = self.known(enum_result_type(variant, args));
        Ok(ExprInfo { ty, effectful: arg.effectful, capabilities: arg.capabilities })
    }

    /// A field of a struct.
    fn check_field(&mut self, receiver: ExprInfo, field: &str) -> (result: Result<ExprInfo, Error>)
        requires
            old(self).wf(),
            sane(receiver@, old(self).types@),
        ensures
            final(self).yields(
                old(self),
                result,
                field_checked(old(self).env(), old(self).types@, receiver@, field@),
            ),
    {
        let receiver_ty = self.resolve_known(receiver.ty, "field receiver type")?;
        match receiver_ty {
            Type::Named(name) => {
                let decl: &'a StructDecl = match self.structs.get(name.as_str()) {
                    Some(decl) => *decl,
                    None => {
                        return Err(
                            Error::new(quote("type `", name.as_str(), "` has no fields")),
                        );
                    },
                };
                if !same_text(decl.field.name.as_str(), field) {
                    return Err(
                        Error::new(
                            quote_twice(
                                "struct `",
                                name.as_str(),
                                "` does not have field `",
                                field,
                                "`",
                            ),
                        ),
                    );
                }
                let ty: usize = self.known(copy_type(&decl.field.ty));
                Ok(
                    ExprInfo {
                        ty,
                        effectful: receiver.effectful,
                        capabilities: receiver.capabilities,
                    },
                )
            },
            _ => Err(
                Error::new(
                    quote_twice(
                        "type ",
                        show_type(&receiver_ty).as_str(),
                        " does not have field `",
                        field,
                        "`",
                    ),
                ),
            ),
        }
    }

    /// The method that is called, once the receiver has the type of its operands and one argument
    /// is given.
    fn select_method(&mut self, receiver: &ExprInfo, name: &str, given: usize) -> (result: Result<
        Method,
        Error,
    >)
        requires
            old(self).wf(),
            sane(receiver@, old(self).types@),
        ensures
            final(self).after(
                old(self),
                result,
                method_selected(old(self).types@, receiver@, name@, given as nat),
            ),
    {
        let receiver_ty = self.resolve_optional(receiver.ty);
        let method = find_method(name, receiver_ty)?;
        if let Some(prim) = method.operand {
            self.constrain(receiver.ty, Type::Prim(prim))?;
        }
        if given != 1 {
            return Err(call_arity_error("method `", name, 1, given));
        }
        Ok(method)
    }

    /// A call of the method with one argument.
    fn apply_method(&mut self, receiver: ExprInfo, arg: ExprInfo, method: Method) -> (result: Result<
        ExprInfo,
        Error,
    >)
        requires
            old(self).wf(),
            sane(receiver@, old(self).types@),
            sane(arg@, old(self).types@),
        ensures
            final(self).yields(
                old(self),
                result,
                method_applied(old(self).types@, receiver@, arg@, method),
            ),
    {
        match method.operand {
            Some(prim) => {
                self.constrain(arg.ty, Type::Prim(prim))?;
            },
            None => {
                self.unify(receiver.ty, arg.ty)?;
            },
        }
        let mut info = receiver;
        info.absorb(&arg);
        info.ty = self.known(Type::Prim(method.ret));
        Ok(info)
    }

    #[verifier::spinoff_prover]
    pub fn check_expr(&mut self, expr: &Expr, scope: &NameMap<usize>) -> (result: Result<
        ExprInfo,
        Error,
    >)
        requires
            old(self).wf(),
            scope_within(scope_view(*scope), old(self).types@),
        ensures
            final(self).yields(
                old(self),
                result,
                expr_checked(old(self).env(), old(self).types@, scope_view(*scope), expr@),
            ),
        decreases expr_size(expr@), 0int,
    {
        match expr {
            Expr::Int(_) => Ok(self.known_info(PrimType::I32)),
            Expr::Bool(_) => Ok(self.known_info(PrimType::Bool)),
            Expr::String(_) => Ok(self.known_info(PrimType::String)),
            Expr::Unit => Ok(self.known_info(PrimType::Unit)),
            Expr::Var(name) => self.check_var(name.as_str(), scope),
            Expr::Call { name, args } => self.check_named_call(name.as_str(), args, scope),
            Expr::MethodCall { receiver, name, args } => self.check_method_call(
                receiver,
                name.as_str(),
                args,
                scope,
            ),
            Expr::FieldAccess { receiver, field } => self.check_access(
                receiver,
                field.as_str(),
                scope,
            ),
            Expr::StructLiteral { name, field, value } => self.check_struct_literal(
                name.as_str(),
                field.as_str(),
                value,
                scope,
            ),
            Expr::Binary { op, left, right } => self.check_binary(*op, left, right, scope),
            Expr::Match { scrutinee, arms } => self.check_match(scrutinee, arms, scope),
            Expr::Block(block) => self.check_block(block, scope),
        }
    }

    /// An expression of a primitive type, without effects.
    fn known_info(&mut self, prim: PrimType) -> (info: ExprInfo)
        requires
            old(self).wf(),
        ensures
            final(self).stepped(old(self)),
            final(self).types@ == known(old(self).types@, TypeView::Prim(prim)).0,
            known(old(self).types@, TypeView::Prim(prim)).1 == Ok::<Info, Seq<char>>(info@),
            sane(info@, final(self).types@),
    {
        let ty: usize = self.known(Type::Prim(prim));
        self.info(ty)
    }

    /// A call by name: of a variant, of a function value in scope, or of a function.
    fn check_named_call(
        &mut self,
        name: &str,
        args: &Vec<Expr>,
        scope: &NameMap<usize>,
    ) -> (result: Result<ExprInfo, Error>)
        requires
            old(self).wf(),
            scope_within(scope_view(*scope), old(self).types@),
        ensures
            final(self).yields(
                old(self),
                result,
                named_call_checked(
                    old(self).env(),
                    old(self).types@,
                    scope_view(*scope),
                    name@,
                    expr_views(args@),
                ),
            ),
        decreases exprs_size(expr_views(args@), args.len() as int), 5int,
    {
        let variant = match self.variants.get(name) {
            Some(variant) => Some(variant.copy()),
            None => None,
        };
        if let Some(variant) = variant {
            return self.check_variant_constructor(name, &variant, args, scope);
        }
        if let Some(callee_ty) = scope.get(name) {
            assert(scope_view(*scope).contains_key(name@));
            return self.check_function_value_call(name, *callee_ty, args, scope);
        }
        self.check_call(name, args, scope)
    }

    /// The field of the value of an expression.
    fn check_access(&mut self, receiver: &Expr, field: &str, scope: &NameMap<usize>) -> (result:
        Result<ExprInfo, Error>)
        requires
            old(self).wf(),
            scope_within(scope_view(*scope), old(self).types@),
        ensures
            final(self).yields(
                old(self),
                result,
                access_checked(
                    old(self).env(),
                    old(self).types@,
                    scope_view(*scope),
                    receiver@,
                    field@,
                ),
            ),
        decreases expr_size(receiver@), 1int,
    {
        let receiver = self.check_expr(receiver, scope)?;
        self.check_field(receiver, field)
    }

    /// A struct with the value of an expression in its field.
    fn check_struct_literal(
        &mut self,
        name: &str,
        field: &str,
        value: &Expr,
        scope: &NameMap<usize>,
    ) -> (result: Result<ExprInfo, Error>)
        requires
            old(self).wf(),
            scope_within(scope_view(*scope), old(self).types@),
        ensures
            final(self).yields(
                old(self),
                result,
                struct_checked(
                    old(self).env(),
                    old(self).types@,
                    scope_view(*scope),
                    name@,
                    field@,
                    value@,
                ),
            ),
        decreases expr_size(value@), 1int,
    {
        let decl: &'a StructDecl = match self.structs.get(name) {
            Some(decl) => *decl,
            None => {
                return Err(Error::new(quote("unknown struct `", name, "`")));
            },
        };
        if !same_text(decl.field.name.as_str(), field) {
            return Err(
                Error::new(
                    quote_twice("struct `", name, "` does not have field `", field, "`"),
                ),
            );
        }
        let value = self.check_expr(value, scope)?;
        self.constrain(value.ty, copy_type(&decl.field.ty))?;
        let ty: usize = self.known(Type::Named(name.to_owned()));
        Ok(ExprInfo { ty, effectful: value.effectful, capabilities: value.capabilities })
    }

    pub fn check_variant_constructor(
        &mut self,
        name: &str,
        variant: &VariantInfo,
        args: &Vec<Expr>,
        scope: &NameMap<usize>,
    ) -> (result: Result<ExprInfo, Error>)
        requires
            old(self).wf(),
            scope_within(scope_view(*scope), old(self).types@),
        ensures
            final(self).yields(
                old(self),
                result,
                constructor_checked(
                    old(self).env(),
                    old(self).types@,
                    scope_view(*scope),
                    name@,
                    variant@,
                    expr_views(args@),
                ),
            ),
        decreases exprs_size(expr_views(args@), args.len() as int), 1int,
    {
        assert(expr_views(args@).len() == args.len());
        let payload = match &variant.payload {
            Some(payload) => payload,
            None => {
                return Err(Error::new(quote("enum variant `", name, "` does not take a payload")));
            },
        };
        if args.len() != 1 {
            let mut text = quote("enum variant `", name, "` expects 1 payload argument, got ");
            text.append(decimal_text(args.len() as u64).as_str());
            return Err(Error::new(text));
        }
        assert(expr_views(args@)[0] == args@[0]@);
        proof {
            lemma_exprs_size(expr_views(args@), 0, args.len() as int);
        }
        let arg = self.check_expr(&args[0], scope)?;
        self.construct(variant, payload, arg)
    }

    /// A call of a declared or imported function.
    fn check_call(&mut self, name: &str, args: &Vec<Expr>, scope: &NameMap<usize>) -> (result: Result<
        ExprInfo,
        Error,
    >)
        requires
            old(self).wf(),
            scope_within(scope_view(*scope), old(self).types@),
        ensures
            final(self).yields(
                old(self),
                result,
                call_checked(
                    old(self).env(),
                    old(self).types@,
                    scope_view(*scope),
                    name@,
                    expr_views(args@),
                ),
            ),
        decreases exprs_size(expr_views(args@), args.len() as int), 1int,
    {
        let signature = match self.functions.get(name) {
            Some(signature) => signature.copy(),
            None => {
                return Err(Error::new(quote("unknown function `", name, "`")));
            },
        };
        assert(self.env().signatures.contains_key(name@));
        assert(signature_sane(signature@, self.types@));
        assert(signature@.params.len() == signature.params.len());
        assert(expr_views(args@).len() == args.len());
        if args.len() != signature.params.len() {
            return Err(
                call_arity_error("function `", name, signature.params.len(), args.len()),
            );
        }
        assert forall|i: int| 0 <= i < signature.params.len() implies self.types@.has(
            signature.params@[i] as int,
        ) by {
            assert(self.types@.has(signature@.params[i]));
        }
        let capabilities = match signature.declared_capabilities {
            Some(declared) => declared,
            None => CapabilitySet::new(),
        };
        let info = ExprInfo { ty: signature.ret, effectful: signature.effectful, capabilities };
        self.check_args(args, &signature.params, scope, info)
    }

    /// The arguments of a call have the types of the slots of the parameters.
    fn check_args(
        &mut self,
        args: &Vec<Expr>,
        params: &Vec<usize>,
        scope: &NameMap<usize>,
        start: ExprInfo,
    ) -> (result: Result<ExprInfo, Error>)
        requires
            old(self).wf(),
            scope_within(scope_view(*scope), old(self).types@),
            args.len() == params.len(),
            forall|i: int| 0 <= i < params.len() ==> old(self).types@.has(params@[i] as int),
            sane(start@, old(self).types@),
        ensures
            final(self).yields(
                old(self),
                result,
                args_checked(
                    old(self).env(),
                    old(self).types@,
                    scope_view(*scope),
                    expr_views(args@),
                    id_views(params@),
                    0,
                    start@,
                ),
            ),
        decreases exprs_size(expr_views(args@), args.len() as int), 0int,
    {
        let ghost env = self.env();
        let ghost names = scope_view(*scope);
        let ghost views = expr_views(args@);
        let ghost ids = id_views(params@);
        let ghost goal = args_checked(env, self.types@, names, views, ids, 0, start@);
        let mut info = start;
        let mut i: usize = 0;
        while i < args.len()
            invariant
                i <= args.len(),
                args.len() == params.len(),
                self.stepped(old(self)),
                env == self.env(),
                names == scope_view(*scope),
                views == expr_views(args@),
                ids == id_views(params@),
                scope_within(names, old(self).types@),
                forall|i: int| 0 <= i < params.len() ==> old(self).types@.has(params@[i] as int),
                sane(info@, self.types@),
                goal == args_checked(env, old(self).types@, names, views, ids, 0, start@),
                goal == args_checked(env, self.types@, names, views, ids, i as int, info@),
            decreases args.len() - i,
        {
            assert(views[i as int] == args@[i as int]@);
            assert(ids[i as int] == params@[i as int]);
            proof {
                lemma_exprs_size(views, i as int, args.len() as int);
            }
            let arg = self.check_expr(&args[i], scope)?;
            self.unify(arg.ty, params[i])?;
            info.absorb(&arg);
            i += 1;
        }
        Ok(info)
    }

    pub fn check_function_value_call(
        &mut self,
        name: &str,
        callee_ty: usize,
        args: &Vec<Expr>,
        scope: &NameMap<usize>,
    ) -> (result: Result<ExprInfo, Error>)
        requires
            old(self).wf(),
            scope_within(scope_view(*scope), old(self).types@),
            old(self).types@.has(callee_ty as int),
        ensures
            final(self).yields(
                old(self),
                result,
                value_call_checked(
                    old(self).env(),
                    old(self).types@,
                    scope_view(*scope),
                    name@,
                    callee_ty as int,
                    expr_views(args@),
                ),
            ),
        decreases exprs_size(expr_views(args@), args.len() as int), 1int,
    {
        let callee_ty = self.resolve_known(callee_ty, "function value callee type")?;
        let function = match callee_ty {
            Type::Function(function) => function,
            _ => {
                return Err(Error::new(quote("`", name, "` is not callable")));
            },
        };
        assert(type_views(function.params@).len() == function.params.len());
        assert(expr_views(args@).len() == args.len());
        if args.len() != function.params.len() {
            return Err(
                call_arity_error("function value `", name, function.params.len(), args.len()),
            );
        }
        let (effectful, capabilities) = self.check_value_args(
            args,
            &function.params,
            scope,
            function.effectful,
        )?;
        let ty: usize = self.known(copy_type(&function.ret));
        Ok(ExprInfo { ty, effectful, capabilities })
    }

    /// The arguments of a call of a function value have the types of its parameters.
    fn check_value_args(
        &mut self,
        args: &Vec<Expr>,
        params: &Vec<Type>,
        scope: &NameMap<usize>,
        start: bool,
    ) -> (result: Result<(bool, CapabilitySet), Error>)
        requires
            old(self).wf(),
            scope_within(scope_view(*scope), old(self).types@),
            args.len() == params.len(),
        ensures
            final(self).stepped(old(self)),
            ({
                let step = value_args_checked(
                    old(self).env(),
                    old(self).types@,
                    scope_view(*scope),
                    expr_views(args@),
                    type_views(params@),
                    0,
                    effects(start, Seq::empty()),
                );
                &&& final(self).types@ == step.0
                &&& match (result, step.1) {
                    (Ok((effectful, capabilities)), Ok(info)) => info == effects(
                        effectful,
                        capabilities@,
                    ) && ascending(capabilities@),
                    (Err(error), Err(message)) => error@ == message,
                    _ => false,
                }
            }),
        decreases exprs_size(expr_views(args@), args.len() as int), 0int,
    {
        let ghost env = self.env();
        let ghost names = scope_view(*scope);
        let ghost views = expr_views(args@);
        let ghost types = type_views(params@);
        let ghost first = effects(start, Seq::empty());
        let ghost goal = value_args_checked(env, self.types@, names, views, types, 0, first);
        let mut effectful = start;
        let mut capabilities = CapabilitySet::new();
        let mut i: usize = 0;
        while i < args.len()
            invariant
                i <= args.len(),
                args.len() == params.len(),
                self.stepped(old(self)),
                env == self.env(),
                names == scope_view(*scope),
                views == expr_views(args@),
                types == type_views(params@),
                scope_within(names, old(self).types@),
                ascending(capabilities@),
                first == effects(start, Seq::empty()),
                goal == value_args_checked(env, old(self).types@, names, views, types, 0, first),
                goal == value_args_checked(
                    env,
                    self.types@,
                    names,
                    views,
                    types,
                    i as int,
                    effects(effectful, capabilities@),
                ),
            decreases args.len() - i,
        {
            assert(views[i as int] == args@[i as int]@);
            assert(types[i as int] == params@[i as int]@);
            proof {
                lemma_exprs_size(views, i as int, args.len() as int);
            }
            let arg = self.check_expr(&args[i], scope)?;
            self.constrain(arg.ty, copy_type(&params[i]))?;
            effectful = effectful || arg.effectful;
            capabilities.extend(&arg.capabilities);
            i += 1;
        }
        Ok((effectful, capabilities))
    }

    /// A method called on `receiver` with `given` arguments, of which `arg` is the first.
    fn check_operands(
        &mut self,
        receiver: &Expr,
        name: &str,
        arg: Option<&Expr>,
        given: usize,
        scope: &NameMap<usize>,
    ) -> (result: Result<ExprInfo, Error>)
        requires
            old(self).wf(),
            scope_within(scope_view(*scope), old(self).types@),
            given == 1 ==> arg is Some,
        ensures
            final(self).yields(
                old(self),
                result,
                method_checked(
                    old(self).env(),
                    old(self).types@,
                    scope_view(*scope),
                    receiver@,
                    name@,
                    arg->Some_0@,
                    given as nat,
                ),
            ),
        decreases
                expr_size(receiver@) + if arg is Some {
                    expr_size(arg->Some_0@)
                } else {
                    0
                },
                1int,
    {
        let receiver = self.check_expr(receiver, scope)?;
        let method = self.select_method(&receiver, name, given)?;
        match arg {
            Some(arg) => {
                let arg = self.check_expr(arg, scope)?;
                self.apply_method(receiver, arg, method)
            },
            None => Err(call_arity_error("method `", name, 1, given)),
        }
    }

    pub fn check_method_call(
        &mut self,
        receiver: &Expr,
        name: &str,
        args: &Vec<Expr>,
        scope: &NameMap<usize>,
    ) -> (result: Result<ExprInfo, Error>)
        requires
            old(self).wf(),
            scope_within(scope_view(*scope), old(self).types@),
        ensures
            final(self).yields(
                old(self),
                result,
                method_checked(
                    old(self).env(),
                    old(self).types@,
                    scope_view(*scope),
                    receiver@,
                    name@,
                    expr_views(args@)[0],
                    args.len() as nat,
                ),
            ),
        decreases
                expr_size(receiver@) + exprs_size(expr_views(args@), args.len() as int),
                2int,
    {
        let arg: Option<&Expr> = if args.len() > 0 {
            assert(expr_views(args@)[0] == args@[0]@);
            proof {
                lemma_exprs_size(expr_views(args@), 0, args.len() as int);
            }
            Some(&args[0])
        } else {
            None
        };
        self.check_operands(receiver, name, arg, args.len(), scope)
    }

    pub fn check_binary(
        &mut self,
        op: BinaryOp,
        left: &Expr,
        right: &Expr,
        scope: &NameMap<usize>,
    ) -> (result: Result<ExprInfo, Error>)
        requires
            old(self).wf(),
            scope_within(scope_view(*scope), old(self).types@),
        ensures
            final(self).yields(
                old(self),
                result,
                method_checked(
                    old(self).env(),
                    old(self).types@,
                    scope_view(*scope),
                    left@,
                    operator_name(op),
                    right@,
                    1,
                ),
            ),
        decreases expr_size(left@) + expr_size(right@), 2int,
    {
        let method = match op {
            BinaryOp::Add => "add",
            BinaryOp::Sub => "sub",
            BinaryOp::Mul => "mul",
            BinaryOp::Eq => "eq",
            BinaryOp::Lt => "lt",
        };
        self.check_operands(left, method, Some(right), 1, scope)
    }

    pub fn check_match(
        &mut self,
        scrutinee: &Expr,
        arms: &Vec<MatchArm>,
        scope: &NameMap<usize>,
    ) -> (result: Result<ExprInfo, Error>)
        requires
            old(self).wf(),
            scope_within(scope_view(*scope), old(self).types@),
        ensures
            final(self).yields(
                old(self),
                result,
                match_checked(
                    old(self).env(),
                    old(self).types@,
                    scope_view(*scope),
                    scrutinee@,
                    arm_views(arms@),
                ),
            ),
        decreases
                expr_size(scrutinee@) + arms_size(arm_views(arms@), arms.len() as int),
                2int,
    {
        assert(arm_views(arms@).len() == arms.len());
        if arms.len() == 0 {
            return Err(Error::new("match expression must have at least one arm".to_owned()));
        }
        proof {
            lemma_arms_positive(arm_views(arms@), arms.len() as int);
        }
        let scrutinee = self.check_expr(scrutinee, scope)?;
        let expected = self.resolve_known(scrutinee.ty, "match scrutinee type")?;
        let info = self.check_arms(arms, &expected, scope, scrutinee)?;
        if !self.match_is_exhaustive(&expected, arms) {
            return Err(Error::new("match expression is not exhaustive".to_owned()));
        }
        Ok(info)
    }

    /// An arm for values of the type `expected`.
    fn check_arm(&mut self, arm: &MatchArm, expected: &Type, scope: &NameMap<usize>) -> (result:
        Result<ExprInfo, Error>)
        requires
            old(self).wf(),
            scope_within(scope_view(*scope), old(self).types@),
        ensures
            final(self).yields(
                old(self),
                result,
                arm_checked(
                    old(self).env(),
                    old(self).types@,
                    scope_view(*scope),
                    arm@,
                    expected@,
                ),
            ),
        decreases arm_size(arm@), 1int,
    {
        let mut arm_scope = scope.copy();
        self.check_pattern(&arm.pattern, expected, &mut arm_scope)?;
        self.check_expr(&arm.expr, &arm_scope)
    }

    /// The arms of a match on values of the type `expected` have one type.
    fn check_arms(
        &mut self,
        arms: &Vec<MatchArm>,
        expected: &Type,
        scope: &NameMap<usize>,
        start: ExprInfo,
    ) -> (result: Result<ExprInfo, Error>)
        requires
            old(self).wf(),
            scope_within(scope_view(*scope), old(self).types@),
            arms.len() > 0,
            sane(start@, old(self).types@),
        ensures
            final(self).yields(
                old(self),
                result,
                arms_checked(
                    old(self).env(),
                    old(self).types@,
                    scope_view(*scope),
                    arm_views(arms@),
                    0,
                    expected@,
                    None,
                    start@,
                ),
            ),
        decreases arms_size(arm_views(arms@), arms.len() as int), 0int,
    {
        let ghost env = self.env();
        let ghost names = scope_view(*scope);
        let ghost views = arm_views(arms@);
        let ghost ty = expected@;
        let ghost goal = arms_checked(env, self.types@, names, views, 0, ty, None, start@);
        let mut info = start;
        let mut result_ty: Option<usize> = None;
        let ghost mut result: Option<int> = None;
        let mut i: usize = 0;
        while i < arms.len()
            invariant
                i <= arms.len(),
                self.stepped(old(self)),
                env == self.env(),
                names == scope_view(*scope),
                views == arm_views(arms@),
                ty == expected@,
                scope_within(names, old(self).types@),
                sane(info@, self.types@),
                match (result_ty, result) {
                    (Some(id), Some(model)) => id == model && self.types@.has(model),
                    (None, None) => true,
                    _ => false,
                },
                goal == arms_checked(env, old(self).types@, names, views, 0, ty, None, start@),
                goal == arms_checked(
                    env,
                    self.types@,
                    names,
                    views,
                    i as int,
                    ty,
                    result,
                    info@,
                ),
            decreases arms.len() - i,
        {
            assert(views[i as int] == arms@[i as int]@);
            proof {
                lemma_arms_size(views, i as int, arms.len() as int);
            }
            let arm = self.check_arm(&arms[i], expected, scope)?;
            match result_ty {
                Some(existing) => {
                    self.unify(existing, arm.ty)?;
                },
                None => {
                    result_ty = Some(arm.ty);
                    proof {
                        result = Some(arm.ty as int);
                    }
                },
            }
            info.absorb(&arm);
            i += 1;
        }
        if let Some(ty) = result_ty {
            info.ty = ty;
        }
        Ok(info)
    }

    fn check_item(&mut self, item: &BlockItem, scope: &NameMap<usize>) -> (result: Result<
        ExprInfo,
        Error,
    >)
        requires
            old(self).wf(),
            scope_within(scope_view(*scope), old(self).types@),
        ensures
            final(self).yields(
                old(self),
                result,
                item_checked(old(self).env(), old(self).types@, scope_view(*scope), item@),
            ),
        decreases item_size(item@), 1int,
    {
        match item {
            BlockItem::Binding { name, ty, expr } => {
                if scope.contains_key(name.as_str()) {
                    return Err(
                        Error::new(
                            quote("duplicate binding `", name.as_str(), "` in the same block"),
                        ),
                    );
                }
                let info = self.check_expr(expr, scope)?;
                let annotation = match ty {
                    Some(annotation) => annotation,
                    None => {
                        return Err(
                            Error::new(
                                quote("binding `", name.as_str(), "` must have a type annotation"),
                            ),
                        );
                    },
                };
                self.validate_type(annotation)?;
                self.constrain(info.ty, copy_type(annotation))?;
                Ok(info)
            },
            BlockItem::Expr(expr) => self.check_expr(expr, scope),
        }
    }

    pub fn check_block(&mut self, block: &Block, outer_scope: &NameMap<usize>) -> (result: Result<
        ExprInfo,
        Error,
    >)
        requires
            old(self).wf(),
            scope_within(scope_view(*outer_scope), old(self).types@),
        ensures
            final(self).yields(
                old(self),
                result,
                block_checked(
                    old(self).env(),
                    old(self).types@,
                    scope_view(*outer_scope),
                    block@,
                ),
            ),
        decreases block_size(block@), 0int,
    {
        let ghost env = self.env();
        let ghost items = block@.items;
        let ghost outer = scope_view(*outer_scope);
        let ghost first = effects(false, Seq::empty());
        let ghost goal = items_checked(env, self.types@, outer, items, 0, None, first);
        let mut scope = outer_scope.copy();
        let mut effectful = false;
        let mut capabilities = CapabilitySet::new();
        let mut last_expr: Option<usize> = None;
        let ghost mut last: Option<int> = None;
        let mut i: usize = 0;
        while i < block.items.len()
            invariant
                i <= block.items.len(),
                self.stepped(old(self)),
                env == self.env(),
                items == block@.items,
                items.len() == block.items.len(),
                outer == scope_view(*outer_scope),
                scope_within(scope_view(scope), self.types@),
                ascending(capabilities@),
                match (last_expr, last) {
                    (Some(id), Some(model)) => id == model && self.types@.has(model),
                    (None, None) => true,
                    _ => false,
                },
                first == effects(false, Seq::empty()),
                goal == items_checked(env, old(self).types@, outer, items, 0, None, first),
                goal == items_checked(
                    env,
                    self.types@,
                    scope_view(scope),
                    items,
                    i as int,
                    last,
                    effects(effectful, capabilities@),
                ),
            decreases block.items.len() - i,
        {
            let item = &block.items[i];
            assert(items[i as int] == item@);
            proof {
                lemma_items_size(items, i as int, items.len() as int);
            }
            let info = self.check_item(item, &scope)?;
            effectful = effectful || info.effectful;
            capabilities.extend(&info.capabilities);
            match item {
                BlockItem::Binding { name, .. } => {
                    let ghost before = scope_view(scope);
                    scope.insert(name.clone(), info.ty);
                    assert(scope_view(scope) =~= before.insert(name@, info.ty as int));
                    last_expr = None;
                    proof {
                        last = None;
                    }
                },
                BlockItem::Expr(_) => {
                    last_expr = Some(info.ty);
                    proof {
                        last = Some(info.ty as int);
                    }
                },
            }
            i += 1;
        }
        let ty: usize = match last_expr {
            Some(id) => id,
            None => self.known(Type::Prim(PrimType::Unit)),
        };
        Ok(ExprInfo { ty, effectful, capabilities })
    }
}

/// The method of a name on values of a type.
fn find_method(name: &str, receiver: Option<Type>) -> (result: Result<Method, Error>)
    ensures
        agrees(result, method_of(name@, optional_type(receiver))),
{
    if same_text(name, "add") || same_text(name, "sub") || same_text(name, "mul") {
        return Ok(Method { operand: Some(PrimType::I32), ret: PrimType::I32 });
    }
    if same_text(name, "lt") {
        return Ok(Method { operand: Some(PrimType::I32), ret: PrimType::Bool });
    }
    if same_text(name, "eq") {
        return match receiver {
            Some(Type::Prim(PrimType::I32)) => Ok(
                Method { operand: Some(PrimType::I32), ret: PrimType::Bool },
            ),
            Some(Type::Prim(PrimType::Bool)) => Ok(
                Method { operand: Some(PrimType::Bool), ret: PrimType::Bool },
            ),
            Some(Type::Prim(PrimType::Unit)) => Err(
                Error::new("type Unit does not implement method `eq`".to_owned()),
            ),
            Some(other) => Err(
                Error::new(
                    quote("type ", show_type(&other).as_str(), " does not implement method `eq`"),
                ),
            ),
            None => Ok(Method { operand: None, ret: PrimType::Bool }),
        };
    }
    let mut text = match receiver {
        Some(ty) => show_type(&ty),
        None => "unknown type".to_owned(),
    };
    text.append(quote(" does not implement method `", name, "`").as_str());
    Err(Error::new(text))
}

fn has_default_arm(arms: &Vec<MatchArm>) -> (found: bool)
    ensures
        found == has_default(arm_views(arms@)),
{
    let ghost views = arm_views(arms@);
    let mut i: usize = 0;
    while i < arms.len()
        invariant
            i <= arms.len(),
            views == arm_views(arms@),
            forall|k: int|
                0 <= k < i ==> !((#[trigger] views[k]).pattern is Wildcard || views[k].pattern is Var),
        decreases arms.len() - i,
    {
        assert(views[i as int].pattern == arms@[i as int].pattern@);
        if matches!(arms[i].pattern, Pattern::Wildcard | Pattern::Var(_)) {
            return true;
        }
        i += 1;
    }
    false
}

fn has_bool_arm(arms: &Vec<MatchArm>, value: bool) -> (found: bool)
    ensures
        found == has_pattern(arm_views(arms@), PatternView::Bool(value)),
{
    let ghost views = arm_views(arms@);
    let mut i: usize = 0;
    while i < arms.len()
        invariant
            i <= arms.len(),
            views == arm_views(arms@),
            forall|k: int| 0 <= k < i ==> (#[trigger] views[k]).pattern != PatternView::Bool(value),
        decreases arms.len() - i,
    {
        assert(views[i as int].pattern == arms@[i as int].pattern@);
        if let Pattern::Bool(other) = &arms[i].pattern {
            if *other == value {
                return true;
            }
        }
        i += 1;
    }
    false
}

fn has_unit_arm(arms: &Vec<MatchArm>) -> (found: bool)
    ensures
        found == has_pattern(arm_views(arms@), PatternView::Unit),
{
    let ghost views = arm_views(arms@);
    let mut i: usize = 0;
    while i < arms.len()
        invariant
            i <= arms.len(),
            views == arm_views(arms@),
            forall|k: int| 0 <= k < i ==> (#[trigger] views[k]).pattern != PatternView::Unit,
        decreases arms.len() - i,
    {
        assert(views[i as int].pattern == arms@[i as int].pattern@);
        if matches!(arms[i].pattern, Pattern::Unit) {
            return true;
        }
        i += 1;
    }
    false
}

fn has_variant_arm(arms: &Vec<MatchArm>, name: &str) -> (found: bool)
    ensures
        found == has_variant(arm_views(arms@), name@),
{
    let ghost views = arm_views(arms@);
    let mut i: usize = 0;
    while i < arms.len()
        invariant
            i <= arms.len(),
            views == arm_views(arms@),
            forall|k: int|
                0 <= k < i ==> !((#[trigger] views[k]).pattern matches PatternView::Variant {
                    name: other,
                    ..
                } && other == name@),
        decreases arms.len() - i,
    {
        assert(views[i as int].pattern == arms@[i as int].pattern@);
        if let Pattern::Variant { name: other, .. } = &arms[i].pattern {
            if same_text(other.as_str(), name) {
                return true;
            }
        }
        i += 1;
    }
    false
}

/// The variants of the enum of platform errors.
pub fn platform_error_names() -> (names: Vec<String>)
    ensures
        texts(names@) == platform_errors(),
{
    let mut names: Vec<String> = Vec::new();
    names.push("Unsupported".to_owned());
    names.push("Unavailable".to_owned());
    names.push("Interrupted".to_owned());
    names.push("InvalidUtf8".to_owned());
    names.push("Unknown".to_owned());
    assert(texts(names@) =~= platform_errors());
    names
}

} // verus!
