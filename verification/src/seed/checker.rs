//! The type checker of the seed language.
use vstd::prelude::*;

use crate::error::{agrees, prepended, Error, Outcome};
use crate::names::{scope_view, NameMap};
use crate::seed::ast::{
    arm_views, expr_views, BinaryOp, Block, BlockItem, Expr, Function, FunctionView, MatchArm,
    Pattern, PrimType, Program,
};
use crate::seed::inference::{
    call_checked, all_resolved, arity_text, arm_checked, arms_checked, args_checked, block_checked,
    constrained, declared, exhaustive, expr_checked, function_checked, function_resolved,
    functions_checked, functions_resolved, has_pattern, item_checked, items_checked, known,
    main_checked, main_count, main_index, operation, params_scoped, pattern_prim, patterns_checked,
    prim_text, program_checked, registered, resolved, signature_within, signatures_within, unified,
    with_fresh, Known, Signature, Signatures, Types,
};
use crate::seed::typed::{typed_views, TypedFunction, TypedProgram};
use crate::slots::{id_views, optional, scope_within, Slots};
use crate::text::{decimal_text, quote, same_text};

verus! {

/// The slots of the types of the parameters and of the result of a function.
pub struct FunctionType {
    pub params: Vec<usize>,
    pub ret: usize,
}

impl View for FunctionType {
    type V = Signature;

    open spec fn view(&self) -> Signature {
        Signature { params: id_views(self.params@), ret: self.ret as int }
    }
}

impl Clone for FunctionType {
    fn clone(&self) -> (copy: Self)
        ensures
            copy@ == self@,
    {
        let params = self.params.clone();
        assert(params@ =~= self.params@);
        FunctionType { params, ret: self.ret }
    }
}

/// `result` is what `outcome` says, where the value is a slot.
pub open spec fn agrees_slot(result: Result<usize, Error>, outcome: Outcome<int>) -> bool {
    match (result, outcome) {
        (Ok(id), Ok(model)) => id == model,
        (Err(error), Err(message)) => error@ == message,
        _ => false,
    }
}

/// The name of a type in a diagnostic.
pub fn prim_name(prim: PrimType) -> (name: &'static str)
    ensures
        name@ == prim_text(prim),
{
    match prim {
        PrimType::I32 => "I32",
        PrimType::Bool => "Bool",
        PrimType::Unit => "Unit",
    }
}

fn arity_error(name: &str, wanted: usize, given: usize) -> (error: Error)
    ensures
        error@ == arity_text(name@, wanted as nat, given as nat),
{
    let mut text = quote("function `", name, "` expects ");
    text.append(decimal_text(wanted as u64).as_str());
    text.append(" argument(s), got ");
    text.append(decimal_text(given as u64).as_str());
    Error::new(text)
}

pub struct TypeChecker<'a> {
    pub program: &'a Program,
    pub types: Slots<PrimType>,
    pub functions: NameMap<FunctionType>,
}

impl<'a> TypeChecker<'a> {
    pub open spec fn wf(&self) -> bool {
        &&& self.types.wf()
        &&& signatures_within(self.functions@, self.types@)
    }

    /// What is known of slots and functions.
    pub open spec fn knowledge(&self) -> Known {
        Known { types: self.types@, signatures: self.functions@ }
    }

    /// A step leaves the functions alone, and loses no slot.
    pub open spec fn stepped(&self, before: &Self) -> bool {
        &&& self.wf()
        &&& self.program == before.program
        &&& self.functions == before.functions
        &&& self.types@.len() >= before.types@.len()
    }

    pub fn new(program: &'a Program) -> (checker: Self)
        ensures
            checker.wf(),
            checker.program == program,
            checker.types@ == Types::empty(),
            checker.functions@ == Signatures::empty(),
    {
        TypeChecker { program, types: Slots::new(), functions: NameMap::new() }
    }

    pub fn fresh(&mut self) -> (id: usize)
        requires
            old(self).wf(),
        ensures
            final(self).stepped(old(self)),
            id == old(self).types@.len(),
            final(self).types@ == old(self).types@.with(None),
    {
        self.types.add(None)
    }

    pub fn known(&mut self, prim: PrimType) -> (id: usize)
        requires
            old(self).wf(),
        ensures
            final(self).stepped(old(self)),
            known(old(self).types@, prim) == (final(self).types@, Ok::<int, Seq<char>>(id as int)),
            id < final(self).types@.len(),
    {
        self.types.add(Some(prim))
    }

    pub fn find(&mut self, id: usize) -> (root: usize)
        requires
            old(self).wf(),
            old(self).types@.has(id as int),
        ensures
            final(self).stepped(old(self)),
            final(self).types@ == old(self).types@,
            root == old(self).types@.roots[id as int],
            old(self).types@.has(root as int),
            old(self).types@.roots[root as int] == root,
    {
        self.types.find(id)
    }

    pub fn unify(&mut self, a: usize, b: usize) -> (result: Result<(), Error>)
        requires
            old(self).wf(),
            old(self).types@.has(a as int),
            old(self).types@.has(b as int),
        ensures
            final(self).stepped(old(self)),
            final(self).types@ == unified(old(self).types@, a as int, b as int).0,
            agrees(result, unified(old(self).types@, a as int, b as int).1),
    {
        let ra: usize = self.find(a);
        let rb: usize = self.find(b);
        if ra == rb {
            return Ok(());
        }
        let left: Option<PrimType> = *self.types.value(ra);
        let right: Option<PrimType> = *self.types.value(rb);
        match (left, right) {
            (Some(left), Some(right)) => {
                if left != right {
                    let mut text = quote("type mismatch: expected ", prim_name(left), ", got ");
                    text.append(prim_name(right));
                    return Err(Error::new(text));
                }
                self.types.link(rb, ra);
                Ok(())
            },
            (Some(_), None) => {
                self.types.link(rb, ra);
                Ok(())
            },
            (None, Some(_)) => {
                self.types.link(ra, rb);
                Ok(())
            },
            (None, None) => {
                self.types.link(rb, ra);
                Ok(())
            },
        }
    }

    pub fn resolve_known(&mut self, id: usize, label: &str) -> (result: Result<PrimType, Error>)
        requires
            old(self).wf(),
            old(self).types@.has(id as int),
        ensures
            final(self).stepped(old(self)),
            final(self).types@ == old(self).types@,
            agrees(result, resolved(old(self).types@, id as int, label@)),
    {
        let root: usize = self.find(id);
        match *self.types.value(root) {
            Some(prim) => Ok(prim),
            None => {
                let mut text = "could not infer ".to_owned();
                text.append(label);
                Err(Error::new(text))
            },
        }
    }

    pub fn pattern_type(&self, pattern: &Pattern) -> (prim: Option<PrimType>)
        ensures
            prim == pattern_prim(*pattern),
    {
        match pattern {
            Pattern::Int(_) => Some(PrimType::I32),
            Pattern::Bool(_) => Some(PrimType::Bool),
            Pattern::Unit => Some(PrimType::Unit),
            Pattern::Wildcard => None,
        }
    }

    fn any_arm(&self, arms: &Vec<MatchArm>, pattern: Pattern) -> (found: bool)
        ensures
            found == has_pattern(arm_views(arms@), pattern),
    {
        let ghost views = arm_views(arms@);
        let mut i: usize = 0;
        while i < arms.len()
            invariant
                i <= arms.len(),
                views == arm_views(arms@),
                forall|j: int| 0 <= j < i ==> (#[trigger] views[j]).pattern != pattern,
            decreases arms.len() - i,
        {
            assert(views[i as int].pattern == arms@[i as int].pattern);
            if arms[i].pattern == pattern {
                return true;
            }
            i += 1;
        }
        false
    }

    pub fn match_is_exhaustive(&self, scrutinee: PrimType, arms: &Vec<MatchArm>) -> (covers: bool)
        ensures
            covers == exhaustive(scrutinee, arm_views(arms@)),
    {
        if self.any_arm(arms, Pattern::Wildcard) {
            return true;
        }
        match scrutinee {
            PrimType::Bool => {
                let has_true = self.any_arm(arms, Pattern::Bool(true));
                let has_false = self.any_arm(arms, Pattern::Bool(false));
                has_true && has_false
            },
            PrimType::Unit => self.any_arm(arms, Pattern::Unit),
            PrimType::I32 => false,
        }
    }

    /// The slot `id` has the type `prim`.
    fn constrain(&mut self, id: usize, prim: PrimType) -> (result: Result<(), Error>)
        requires
            old(self).wf(),
            old(self).types@.has(id as int),
        ensures
            final(self).stepped(old(self)),
            final(self).types@ == constrained(old(self).types@, id as int, prim).0,
            agrees(result, constrained(old(self).types@, id as int, prim).1),
    {
        let slot: usize = self.known(prim);
        self.unify(id, slot)
    }

    /// The patterns of all arms match values of the type of a slot.
    fn check_patterns(&mut self, scrutinee: usize, arms: &Vec<MatchArm>) -> (result: Result<
        (),
        Error,
    >)
        requires
            old(self).wf(),
            old(self).types@.has(scrutinee as int),
        ensures
            final(self).stepped(old(self)),
            final(self).types@ == patterns_checked(
                old(self).types@,
                scrutinee as int,
                arm_views(arms@),
                0,
            ).0,
            agrees(
                result,
                patterns_checked(old(self).types@, scrutinee as int, arm_views(arms@), 0).1,
            ),
    {
        let ghost views = arm_views(arms@);
        let ghost goal = patterns_checked(self.types@, scrutinee as int, views, 0);
        let mut i: usize = 0;
        while i < arms.len()
            invariant
                i <= arms.len(),
                self.stepped(old(self)),
                old(self).types@.has(scrutinee as int),
                views == arm_views(arms@),
                goal == patterns_checked(old(self).types@, scrutinee as int, views, 0),
                goal == patterns_checked(self.types@, scrutinee as int, views, i as int),
            decreases arms.len() - i,
        {
            assert(views[i as int].pattern == arms@[i as int].pattern);
            if let Some(prim) = self.pattern_type(&arms[i].pattern) {
                self.constrain(scrutinee, prim)?;
            }
            i += 1;
        }
        Ok(())
    }

    /// The type of an operation on values of the types of two slots.
    fn check_operation(&mut self, op: BinaryOp, left: usize, right: usize) -> (result: Result<
        usize,
        Error,
    >)
        requires
            old(self).wf(),
            old(self).types@.has(left as int),
            old(self).types@.has(right as int),
        ensures
            final(self).stepped(old(self)),
            final(self).types@ == operation(old(self).types@, op, left as int, right as int).0,
            agrees_slot(
                result,
                operation(old(self).types@, op, left as int, right as int).1,
            ),
            result is Ok ==> final(self).types@.has(result->Ok_0 as int),
    {
        match op {
            BinaryOp::Add | BinaryOp::Sub | BinaryOp::Mul => {
                self.constrain(left, PrimType::I32)?;
                self.constrain(right, PrimType::I32)?;
                Ok(self.known(PrimType::I32))
            },
            BinaryOp::Eq => {
                self.unify(left, right)?;
                Ok(self.known(PrimType::Bool))
            },
            BinaryOp::Lt => {
                self.constrain(left, PrimType::I32)?;
                self.constrain(right, PrimType::I32)?;
                Ok(self.known(PrimType::Bool))
            },
        }
    }

    pub fn check_expr(&mut self, expr: &Expr, scope: &NameMap<usize>) -> (result: Result<
        usize,
        Error,
    >)
        requires
            old(self).wf(),
            scope_within(scope_view(*scope), old(self).types@),
        ensures
            final(self).stepped(old(self)),
            final(self).types@ == expr_checked(
                old(self).functions@,
                old(self).types@,
                scope_view(*scope),
                expr@,
            ).0,
            agrees_slot(
                result,
                expr_checked(
                    old(self).functions@,
                    old(self).types@,
                    scope_view(*scope),
                    expr@,
                ).1,
            ),
            result is Ok ==> final(self).types@.has(result->Ok_0 as int),
        decreases expr, 0int,
    {
        match expr {
            Expr::Int(_) => Ok(self.known(PrimType::I32)),
            Expr::Bool(_) => Ok(self.known(PrimType::Bool)),
            Expr::Unit => Ok(self.known(PrimType::Unit)),
            Expr::Var(name) => match scope.get(name.as_str()) {
                Some(id) => {
                    assert(scope_view(*scope).contains_key(name@));
                    Ok(*id)
                },
                None => Err(
                    Error::new(quote("unknown local binding `", name.as_str(), "`")),
                ),
            },
            Expr::Call { name, args } => self.check_call(name.as_str(), args, scope),
            Expr::MethodCall { .. } => Err(
                Error::new(
                    "method calls are parsed but trait method resolution is not implemented yet".to_owned(),
                ),
            ),
            Expr::Binary { op, left, right } => {
                let left: usize = self.check_expr(left, scope)?;
                let right: usize = self.check_expr(right, scope)?;
                self.check_operation(*op, left, right)
            },
            Expr::Match { scrutinee, arms } => {
                assert(arm_views(arms@).len() == arms.len());
                if arms.len() == 0 {
                    return Err(
                        Error::new("match expression must have at least one arm".to_owned()),
                    );
                }
                let scrutinee: usize = self.check_expr(scrutinee, scope)?;
                self.check_patterns(scrutinee, arms)?;
                let result: usize = self.check_arms(arms, scope)?;
                let prim = self.resolve_known(scrutinee, "match scrutinee type")?;
                if !self.match_is_exhaustive(prim, arms) {
                    return Err(Error::new("match expression is not exhaustive".to_owned()));
                }
                Ok(result)
            },
            Expr::Block(block) => self.check_block(block, scope),
        }
    }

    fn check_call(&mut self, name: &str, args: &Vec<Expr>, scope: &NameMap<usize>) -> (result:
        Result<usize, Error>)
        requires
            old(self).wf(),
            scope_within(scope_view(*scope), old(self).types@),
        ensures
            final(self).stepped(old(self)),
            final(self).types@ == call_checked(
                old(self).functions@,
                old(self).types@,
                scope_view(*scope),
                name@,
                expr_views(args@),
            ).0,
            agrees_slot(
                result,
                call_checked(
                    old(self).functions@,
                    old(self).types@,
                    scope_view(*scope),
                    name@,
                    expr_views(args@),
                ).1,
            ),
            result is Ok ==> final(self).types@.has(result->Ok_0 as int),
        decreases args, 2int,
    {
        let signature = match self.functions.get(name) {
            Some(signature) => signature.clone(),
            None => {
                return Err(Error::new(quote("unknown function `", name, "`")));
            },
        };
        assert(signature_within(signature@, self.types@));
        assert(signature@.params.len() == signature.params.len());
        assert(expr_views(args@).len() == args.len());
        assert forall|i: int| 0 <= i < signature.params.len() implies self.types@.has(
            signature.params@[i] as int,
        ) by {
            assert(self.types@.has(signature@.params[i]));
        }
        if args.len() != signature.params.len() {
            return Err(arity_error(name, signature.params.len(), args.len()));
        }
        self.check_args(args, &signature.params, scope)?;
        Ok(signature.ret)
    }

    /// The arguments of a call have the types of the slots of the parameters.
    fn check_args(
        &mut self,
        args: &Vec<Expr>,
        params: &Vec<usize>,
        scope: &NameMap<usize>,
    ) -> (result: Result<(), Error>)
        requires
            old(self).wf(),
            scope_within(scope_view(*scope), old(self).types@),
            args.len() == params.len(),
            forall|i: int| 0 <= i < params.len() ==> old(self).types@.has(params@[i] as int),
        ensures
            final(self).stepped(old(self)),
            final(self).types@ == args_checked(
                old(self).functions@,
                old(self).types@,
                scope_view(*scope),
                expr_views(args@),
                id_views(params@),
                0,
            ).0,
            agrees(
                result,
                args_checked(
                    old(self).functions@,
                    old(self).types@,
                    scope_view(*scope),
                    expr_views(args@),
                    id_views(params@),
                    0,
                ).1,
            ),
        decreases args, 0int,
    {
        let ghost functions = self.functions@;
        let ghost names = scope_view(*scope);
        let ghost views = expr_views(args@);
        let ghost ids = id_views(params@);
        let ghost goal = args_checked(functions, self.types@, names, views, ids, 0);
        let mut i: usize = 0;
        while i < args.len()
            invariant
                i <= args.len(),
                args.len() == params.len(),
                self.stepped(old(self)),
                functions == self.functions@,
                names == scope_view(*scope),
                views == expr_views(args@),
                ids == id_views(params@),
                scope_within(names, old(self).types@),
                forall|i: int| 0 <= i < params.len() ==> old(self).types@.has(params@[i] as int),
                goal == args_checked(functions, old(self).types@, names, views, ids, 0),
                goal == args_checked(functions, self.types@, names, views, ids, i as int),
            decreases args.len() - i,
        {
            assert(views[i as int] == args@[i as int]@);
            assert(ids[i as int] == params@[i as int]);
            let arg: usize = self.check_expr(&args[i], scope)?;
            self.unify(arg, params[i])?;
            i += 1;
        }
        Ok(())
    }

    fn check_arm(&mut self, arm: &MatchArm, scope: &NameMap<usize>) -> (result: Result<
        usize,
        Error,
    >)
        requires
            old(self).wf(),
            scope_within(scope_view(*scope), old(self).types@),
        ensures
            final(self).stepped(old(self)),
            final(self).types@ == arm_checked(
                old(self).functions@,
                old(self).types@,
                scope_view(*scope),
                arm@,
            ).0,
            agrees_slot(
                result,
                arm_checked(
                    old(self).functions@,
                    old(self).types@,
                    scope_view(*scope),
                    arm@,
                ).1,
            ),
            result is Ok ==> final(self).types@.has(result->Ok_0 as int),
        decreases arm, 0int,
    {
        self.check_expr(&arm.expr, scope)
    }

    /// The arms of a match have one type.
    fn check_arms(&mut self, arms: &Vec<MatchArm>, scope: &NameMap<usize>) -> (result: Result<
        usize,
        Error,
    >)
        requires
            old(self).wf(),
            scope_within(scope_view(*scope), old(self).types@),
            arms.len() > 0,
        ensures
            final(self).stepped(old(self)),
            final(self).types@ == arms_checked(
                old(self).functions@,
                old(self).types@,
                scope_view(*scope),
                arm_views(arms@),
                0,
                None,
            ).0,
            agrees_slot(
                result,
                arms_checked(
                    old(self).functions@,
                    old(self).types@,
                    scope_view(*scope),
                    arm_views(arms@),
                    0,
                    None,
                ).1,
            ),
            result is Ok ==> final(self).types@.has(result->Ok_0 as int),
        decreases arms, 0int,
    {
        let ghost functions = self.functions@;
        let ghost names = scope_view(*scope);
        let ghost views = arm_views(arms@);
        let ghost goal = arms_checked(functions, self.types@, names, views, 0, None);
        assert(views[0] == arms@[0]@);
        let first: usize = self.check_arm(&arms[0], scope)?;
        let mut i: usize = 1;
        while i < arms.len()
            invariant
                1 <= i <= arms.len(),
                self.stepped(old(self)),
                self.types@.has(first as int),
                functions == self.functions@,
                names == scope_view(*scope),
                views == arm_views(arms@),
                scope_within(names, old(self).types@),
                goal == arms_checked(functions, old(self).types@, names, views, 0, None),
                goal == arms_checked(
                    functions,
                    self.types@,
                    names,
                    views,
                    i as int,
                    Some(first as int),
                ),
            decreases arms.len() - i,
        {
            assert(views[i as int] == arms@[i as int]@);
            let arm: usize = self.check_arm(&arms[i], scope)?;
            self.unify(first, arm)?;
            i += 1;
        }
        Ok(first)
    }

    fn check_item(&mut self, item: &BlockItem, scope: &NameMap<usize>) -> (result: Result<
        usize,
        Error,
    >)
        requires
            old(self).wf(),
            scope_within(scope_view(*scope), old(self).types@),
        ensures
            final(self).stepped(old(self)),
            final(self).types@ == item_checked(
                old(self).functions@,
                old(self).types@,
                scope_view(*scope),
                item@,
            ).0,
            agrees_slot(
                result,
                item_checked(
                    old(self).functions@,
                    old(self).types@,
                    scope_view(*scope),
                    item@,
                ).1,
            ),
            result is Ok ==> final(self).types@.has(result->Ok_0 as int),
        decreases item, 0int,
    {
        match item {
            BlockItem::Binding { name, expr } => {
                if scope.contains_key(name.as_str()) {
                    return Err(
                        Error::new(
                            quote("duplicate binding `", name.as_str(), "` in the same block"),
                        ),
                    );
                }
                self.check_expr(expr, scope)
            },
            BlockItem::Expr(expr) => self.check_expr(expr, scope),
        }
    }

    pub fn check_block(&mut self, block: &Block, outer_scope: &NameMap<usize>) -> (result: Result<
        usize,
        Error,
    >)
        requires
            old(self).wf(),
            scope_within(scope_view(*outer_scope), old(self).types@),
        ensures
            final(self).stepped(old(self)),
            final(self).types@ == block_checked(
                old(self).functions@,
                old(self).types@,
                scope_view(*outer_scope),
                block@,
            ).0,
            agrees_slot(
                result,
                block_checked(
                    old(self).functions@,
                    old(self).types@,
                    scope_view(*outer_scope),
                    block@,
                ).1,
            ),
            result is Ok ==> final(self).types@.has(result->Ok_0 as int),
        decreases block, 0int,
    {
        let ghost functions = self.functions@;
        let ghost items = block@.items;
        let ghost goal = items_checked(
            functions,
            self.types@,
            scope_view(*outer_scope),
            items,
            0,
            None,
        );
        let mut scope = outer_scope.copy();
        let mut last_expr: Option<usize> = None;
        let ghost mut last: Option<int> = None;
        let mut i: usize = 0;
        while i < block.items.len()
            invariant
                i <= block.items.len(),
                self.stepped(old(self)),
                functions == self.functions@,
                items == block@.items,
                scope_within(scope_view(scope), self.types@),
                match (last_expr, last) {
                    (Some(id), Some(model)) => id == model && self.types@.has(model),
                    (None, None) => true,
                    _ => false,
                },
                goal == items_checked(
                    functions,
                    old(self).types@,
                    scope_view(*outer_scope),
                    items,
                    0,
                    None,
                ),
                goal == items_checked(
                    functions,
                    self.types@,
                    scope_view(scope),
                    items,
                    i as int,
                    last,
                ),
            decreases block.items.len() - i,
        {
            let item = &block.items[i];
            assert(items[i as int] == item@);
            let id: usize = self.check_item(item, &scope)?;
            match item {
                BlockItem::Binding { name, .. } => {
                    let ghost before = scope_view(scope);
                    scope.insert(name.clone(), id);
                    assert(scope_view(scope) =~= before.insert(name@, id as int));
                    last_expr = None;
                    proof {
                        last = None;
                    }
                },
                BlockItem::Expr(_) => {
                    last_expr = Some(id);
                    proof {
                        last = Some(id as int);
                    }
                },
            }
            i += 1;
        }
        match last_expr {
            Some(id) => Ok(id),
            None => Ok(self.known(PrimType::Unit)),
        }
    }

    /// Makes the slots for the signature of a function.
    fn declare(&mut self, function: &Function) -> (signature: FunctionType)
        requires
            old(self).wf(),
        ensures
            final(self).stepped(old(self)),
            declared(old(self).types@, function@) == (final(self).types@, signature@),
            signature_within(signature@, final(self).types@),
    {
        let ghost start = self.types@;
        let mut params: Vec<usize> = Vec::new();
        let mut i: usize = 0;
        while i < function.params.len()
            invariant
                i <= function.params.len(),
                self.stepped(old(self)),
                start == old(self).types@,
                self.types@ == with_fresh(start, i as nat),
                self.types@.len() == start.len() + i,
                params.len() == i,
                forall|k: int| 0 <= k < i ==> #[trigger] params@[k] == start.len() + k,
            decreases function.params.len() - i,
        {
            let id: usize = self.fresh();
            params.push(id);
            i += 1;
            assert(with_fresh(start, i as nat) == with_fresh(start, (i - 1) as nat).with(None));
        }
        let ret: usize = self.types.add(function.return_annotation);
        let signature = FunctionType { params, ret };
        proof {
            let (types, model) = declared(start, function@);
            assert(optional(function.return_annotation) == function.return_annotation);
            assert(signature@.params =~= model.params);
        }
        signature
    }

    pub fn register_functions(&mut self) -> (result: Result<(), Error>)
        requires
            old(self).wf(),
        ensures
            final(self).wf(),
            final(self).program == old(self).program,
            final(self).knowledge() == registered(
                old(self).knowledge(),
                old(self).program@.functions,
                0,
            ).0,
            agrees(
                result,
                registered(old(self).knowledge(), old(self).program@.functions, 0).1,
            ),
    {
        let program: &'a Program = self.program;
        let ghost functions = program@.functions;
        let ghost goal = registered(self.knowledge(), functions, 0);
        let mut i: usize = 0;
        while i < program.functions.len()
            invariant
                i <= program.functions.len(),
                program == self.program,
                program == old(self).program,
                functions == program@.functions,
                self.wf(),
                goal == registered(old(self).knowledge(), functions, 0),
                goal == registered(self.knowledge(), functions, i as int),
            decreases program.functions.len() - i,
        {
            let function = &program.functions[i];
            assert(functions[i as int] == function@);
            if self.functions.contains_key(function.name.as_str()) {
                return Err(
                    Error::new(
                        quote("duplicate top-level function `", function.name.as_str(), "`"),
                    ),
                );
            }
            let signature = self.declare(function);
            self.functions.insert(function.name.clone(), signature);
            i += 1;
        }
        Ok(())
    }

    pub fn check_main(&self) -> (result: Result<(), Error>)
        ensures
            agrees(result, main_checked(self.program@.functions)),
    {
        let ghost functions = self.program@.functions;
        let mut count: usize = 0;
        let mut main: Option<usize> = None;
        let mut i: usize = 0;
        while i < self.program.functions.len()
            invariant
                i <= self.program.functions.len(),
                functions == self.program@.functions,
                count <= i,
                main_count(functions, 0) == count
                    + main_count(functions, i as int),
                match main {
                    Some(index) => count > 0 && index < i && index == main_index(
                        functions,
                        0,
                    ),
                    None => count == 0 && main_index(functions, 0) == main_index(
                        functions,
                        i as int,
                    ),
                },
            decreases self.program.functions.len() - i,
        {
            let function = &self.program.functions[i];
            assert(functions[i as int] == function@);
            if same_text(function.name.as_str(), "main") {
                if main.is_none() {
                    main = Some(i);
                }
                count += 1;
            }
            i += 1;
        }
        if count != 1 {
            return Err(
                Error::new(
                    "executable program must contain exactly one top-level `main` function".to_owned(),
                ),
            );
        }
        if let Some(index) = main {
            assert(functions[index as int] == self.program.functions@[index as int]@);
            if self.program.functions[index].params.len() != 0 {
                return Err(Error::new("`main` must take zero parameters".to_owned()));
            }
        }
        Ok(())
    }

    /// The parameters of a function with their slots.
    fn scope_params(&self, function: &Function, signature: &FunctionType) -> (result: Result<
        NameMap<usize>,
        Error,
    >)
        requires
            function.params.len() == signature.params.len(),
            signature_within(signature@, self.types@),
        ensures
            match (result, params_scoped(Map::empty(), function@, signature@.params, 0)) {
                (Ok(scope), Ok(model)) => scope_view(scope) == model && scope_within(
                    model,
                    self.types@,
                ),
                (Err(error), Err(message)) => error@ == message,
                _ => false,
            },
    {
        let ghost params = signature@.params;
        let ghost goal = params_scoped(Map::empty(), function@, params, 0);
        let mut scope: NameMap<usize> = NameMap::new();
        assert(scope_view(scope) =~= Map::empty());
        let mut i: usize = 0;
        while i < function.params.len()
            invariant
                i <= function.params.len(),
                function.params.len() == signature.params.len(),
                params == signature@.params,
                signature_within(signature@, self.types@),
                scope_within(scope_view(scope), self.types@),
                goal == params_scoped(Map::empty(), function@, params, 0),
                goal == params_scoped(scope_view(scope), function@, params, i as int),
            decreases function.params.len() - i,
        {
            let param = &function.params[i];
            assert(function@.params[i as int] == param@);
            assert(params[i as int] == signature.params@[i as int]);
            if scope.contains_key(param.as_str()) {
                let mut text = quote("duplicate parameter `", param.as_str(), "` in function `");
                text.append(function.name.as_str());
                text.append("`");
                return Err(Error::new(text));
            }
            let ghost before = scope_view(scope);
            scope.insert(param.clone(), signature.params[i]);
            assert(scope_view(scope) =~= before.insert(param@, params[i as int]));
            i += 1;
        }
        Ok(scope)
    }

    /// The body of a function has the type of its result.
    fn check_function(&mut self, function: &Function) -> (result: Result<(), Error>)
        requires
            old(self).wf(),
            old(self).functions@.contains_key(function@.name),
            old(self).functions@[function@.name].params.len() == function@.params.len(),
        ensures
            final(self).stepped(old(self)),
            final(self).types@ == function_checked(
                old(self).functions@,
                old(self).types@,
                function@,
            ).0,
            agrees(
                result,
                function_checked(old(self).functions@, old(self).types@, function@).1,
            ),
    {
        let signature = match self.functions.get(function.name.as_str()) {
            Some(signature) => signature.clone(),
            None => {
                return Err(Error::new("internal type checker error".to_owned()));
            },
        };
        assert(signature@.params.len() == signature.params.len());
        assert(function@.params.len() == function.params.len());
        assert(signature_within(signature@, self.types@));
        let scope = self.scope_params(function, &signature)?;
        let body: usize = self.check_block(&function.body, &scope)?;
        self.unify(signature.ret, body)
    }

    /// The types of a list of slots.
    fn resolve_all(&mut self, ids: &Vec<usize>, label: &str) -> (result: Result<
        Vec<PrimType>,
        Error,
    >)
        requires
            old(self).wf(),
            forall|i: int| 0 <= i < ids.len() ==> old(self).types@.has(ids@[i] as int),
        ensures
            final(self).stepped(old(self)),
            final(self).types@ == old(self).types@,
            agrees(result, all_resolved(old(self).types@, id_views(ids@), 0, label@)),
    {
        let ghost types = self.types@;
        let ghost models = id_views(ids@);
        let mut prims: Vec<PrimType> = Vec::new();
        let mut i: usize = 0;
        while i < ids.len()
            invariant
                i <= ids.len(),
                self.stepped(old(self)),
                self.types@ == types,
                types == old(self).types@,
                models == id_views(ids@),
                forall|i: int| 0 <= i < ids.len() ==> types.has(ids@[i] as int),
                all_resolved(types, models, 0, label@) == prepended(
                    prims@,
                    all_resolved(types, models, i as int, label@),
                ),
            decreases ids.len() - i,
        {
            assert(models[i as int] == ids@[i as int]);
            let prim = self.resolve_known(ids[i], label)?;
            let ghost before = prims@;
            prims.push(prim);
            i += 1;
            proof {
                if let Ok(rest) = all_resolved(types, models, i as int, label@) {
                    assert(before + (seq![prim] + rest) =~= prims@ + rest);
                }
            }
        }
        assert(prims@ + Seq::<PrimType>::empty() =~= prims@);
        Ok(prims)
    }

    /// The types of a function.
    fn resolve_function(&mut self, function: &Function) -> (result: Result<TypedFunction, Error>)
        requires
            old(self).wf(),
            old(self).functions@.contains_key(function@.name),
        ensures
            final(self).stepped(old(self)),
            final(self).types@ == old(self).types@,
            agrees(
                result,
                function_resolved(old(self).functions@, old(self).types@, function@),
            ),
    {
        let signature = match self.functions.get(function.name.as_str()) {
            Some(signature) => signature.clone(),
            None => {
                return Err(Error::new("internal type checker error".to_owned()));
            },
        };
        assert(signature_within(signature@, self.types@));
        assert forall|i: int| 0 <= i < signature.params.len() implies self.types@.has(
            signature.params@[i] as int,
        ) by {
            assert(self.types@.has(signature@.params[i]));
        }
        let label = quote("parameter in `", function.name.as_str(), "`");
        let params = self.resolve_all(&signature.params, label.as_str())?;
        let label = quote("return type of `", function.name.as_str(), "`");
        let ret = self.resolve_known(signature.ret, label.as_str())?;
        Ok(TypedFunction { name: function.name.clone(), params, ret })
    }

    pub fn check(self) -> (result: Result<TypedProgram, Error>)
        requires
            self.wf(),
            self.types@ == Types::empty(),
            self.functions@ == Signatures::empty(),
        ensures
            agrees(result, program_checked(self.program@)),
    {
        let mut checker = self;
        checker.register_functions()?;
        checker.check_main()?;
        let program: &'a Program = checker.program;
        let ghost functions = program@.functions;
        let ghost signatures = checker.functions@;
        proof {
            lemma_registered(self.knowledge(), functions, 0);
        }
        let ghost start = checker.types@;
        let ghost goal = functions_checked(signatures, start, functions, 0);
        let mut i: usize = 0;
        while i < program.functions.len()
            invariant
                i <= program.functions.len(),
                functions == program@.functions,
                checker.wf(),
                checker.functions@ == signatures,
                all_declared(signatures, functions),
                goal == functions_checked(signatures, start, functions, 0),
                goal == functions_checked(signatures, checker.types@, functions, i as int),
                program_checked(self.program@) matches Err(message) ==> goal.1 matches Err(cause)
                    ==> message == cause,
                goal.1 is Err ==> program_checked(self.program@) is Err,
            decreases program.functions.len() - i,
        {
            let function = &program.functions[i];
            assert(functions[i as int] == function@);
            checker.check_function(function)?;
            i += 1;
        }
        let ghost types = checker.types@;
        let ghost resolved = functions_resolved(signatures, types, functions, 0);
        let mut typed: Vec<TypedFunction> = Vec::new();
        let mut i: usize = 0;
        assert(typed_views(typed@) =~= Seq::empty());
        proof {
            if let Ok(rest) = resolved {
                assert(typed_views(typed@) + rest =~= rest);
            }
        }
        while i < program.functions.len()
            invariant
                i <= program.functions.len(),
                functions == program@.functions,
                checker.wf(),
                checker.functions@ == signatures,
                checker.types@ == types,
                all_declared(signatures, functions),
                resolved == functions_resolved(signatures, types, functions, 0),
                resolved == prepended(
                    typed_views(typed@),
                    functions_resolved(signatures, types, functions, i as int),
                ),
                program_checked(self.program@) matches Err(message) ==> resolved matches Err(cause)
                    ==> message == cause,
                resolved is Err ==> program_checked(self.program@) is Err,
            decreases program.functions.len() - i,
        {
            let function = &program.functions[i];
            assert(functions[i as int] == function@);
            let one = checker.resolve_function(function)?;
            let ghost before = typed_views(typed@);
            typed.push(one);
            i += 1;
            proof {
                assert(typed_views(typed@) =~= before.push(one@));
                if let Ok(rest) = functions_resolved(signatures, types, functions, i as int) {
                    assert(before + (seq![one@] + rest) =~= typed_views(typed@) + rest);
                }
            }
        }
        assert(typed_views(typed@) + Seq::empty() =~= typed_views(typed@));
        Ok(TypedProgram { functions: typed })
    }
}

/// Each function has a signature with as many parameters.
pub open spec fn all_declared(signatures: Signatures, functions: Seq<FunctionView>) -> bool {
    forall|i: int|
        0 <= i < functions.len() ==> {
            &&& signatures.contains_key((#[trigger] functions[i]).name)
            &&& signatures[functions[i].name].params.len() == functions[i].params.len()
        }
}

/// Once all functions are declared, each has its signature, and no earlier one is lost.
pub proof fn lemma_registered(known: Known, functions: Seq<FunctionView>, i: int)
    requires
        0 <= i <= functions.len(),
    ensures
        registered(known, functions, i).1 is Ok ==> {
            let after = registered(known, functions, i).0.signatures;
            &&& forall|name: Seq<char>| #[trigger]
                known.signatures.contains_key(name) ==> after.contains_key(name) && after[name]
                    == known.signatures[name]
            &&& forall|k: int|
                i <= k < functions.len() ==> {
                    &&& after.contains_key((#[trigger] functions[k]).name)
                    &&& after[functions[k].name].params.len() == functions[k].params.len()
                }
        },
    decreases functions.len() - i,
{
    if i < functions.len() && !known.signatures.contains_key(functions[i].name) {
        let (types, signature) = declared(known.types, functions[i]);
        let next = Known {
            types,
            signatures: known.signatures.insert(functions[i].name, signature),
        };
        lemma_registered(next, functions, i + 1);
        if registered(known, functions, i).1 is Ok {
            let after = registered(known, functions, i).0.signatures;
            assert(next.signatures.contains_key(functions[i].name));
            assert forall|name: Seq<char>| #[trigger]
                known.signatures.contains_key(name) implies after.contains_key(name) && after[name]
                == known.signatures[name] by {
                assert(next.signatures.contains_key(name));
            }
        }
    }
}

} // verus!
