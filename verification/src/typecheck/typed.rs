//! Programs of the full language with the types, effects and capabilities of their functions.
use vstd::prelude::*;

use crate::ast::{type_views, Type, TypeView};
use crate::capability::Capability;

verus! {

#[derive(Debug, Clone)]
pub struct TypedProgram {
    pub functions: Vec<TypedFunction>,
}

#[derive(Debug, Clone)]
pub struct TypedFunction {
    pub name: String,
    pub params: Vec<Type>,
    pub ret: Type,
    pub effectful: bool,
    pub capabilities: Vec<Capability>,
}

pub struct TypedProgramView {
    pub functions: Seq<TypedFunctionView>,
}

pub struct TypedFunctionView {
    pub name: Seq<char>,
    pub params: Seq<TypeView>,
    pub ret: TypeView,
    pub effectful: bool,
    pub capabilities: Seq<Capability>,
}

pub open spec fn typed_views(list: Seq<TypedFunction>) -> Seq<TypedFunctionView> {
    list.map_values(|function: TypedFunction| function@)
}

impl View for TypedFunction {
    type V = TypedFunctionView;

    open spec fn view(&self) -> TypedFunctionView {
        TypedFunctionView {
            name: self.name@,
            params: type_views(self.params@),
            ret: self.ret@,
            effectful: self.effectful,
            capabilities: self.capabilities@,
        }
    }
}

impl View for TypedProgram {
    type V = TypedProgramView;

    open spec fn view(&self) -> TypedProgramView {
        TypedProgramView { functions: typed_views(self.functions@) }
    }
}

} // verus!
