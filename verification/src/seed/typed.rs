//! Programs of the seed language with the types of their functions.
use vstd::prelude::*;

use crate::seed::ast::PrimType;

verus! {

#[derive(Debug, Clone)]
pub struct TypedProgram {
    pub functions: Vec<TypedFunction>,
}

#[derive(Debug, Clone)]
pub struct TypedFunction {
    pub name: String,
    pub params: Vec<PrimType>,
    pub ret: PrimType,
}

pub struct TypedProgramView {
    pub functions: Seq<TypedFunctionView>,
}

pub struct TypedFunctionView {
    pub name: Seq<char>,
    pub params: Seq<PrimType>,
    pub ret: PrimType,
}

pub open spec fn typed_views(list: Seq<TypedFunction>) -> Seq<TypedFunctionView> {
    list.map_values(|f: TypedFunction| f@)
}

impl View for TypedProgram {
    type V = TypedProgramView;

    open spec fn view(&self) -> TypedProgramView {
        TypedProgramView { functions: typed_views(self.functions@) }
    }
}

impl View for TypedFunction {
    type V = TypedFunctionView;

    open spec fn view(&self) -> TypedFunctionView {
        TypedFunctionView { name: self.name@, params: self.params@, ret: self.ret }
    }
}

} // verus!
