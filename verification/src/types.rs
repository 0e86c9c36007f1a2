//! Types of the full language: copies, equality, and their text in diagnostics.
use vstd::prelude::*;

use crate::ast::{
    optional_type, type_views, FunctionType, FunctionTypeView, PrimType, Type, TypeView,
};
use crate::text::{
    join, joined, quote, quote_twice, quoted, quoted_twice, same_text, show_str, shown_str, texts,
};

verus! {

pub open spec fn prim_text(prim: PrimType) -> Seq<char> {
    match prim {
        PrimType::I32 => "I32"@,
        PrimType::Bool => "Bool"@,
        PrimType::String => "String"@,
        PrimType::Unit => "Unit"@,
    }
}

/// A generic type with its arguments, given how its name and they are shown.
pub open spec fn apply_text(shown: Seq<char>, args: Seq<Seq<char>>) -> Seq<char> {
    quoted_twice("Apply { name: "@, shown, ", args: ["@, joined(args, ", "@), "] }"@)
}

/// How a type is shown in a diagnostic.
pub open spec fn type_text(ty: TypeView) -> Seq<char>
    decreases ty,
{
    match ty {
        TypeView::Prim(prim) => quoted("Prim("@, prim_text(prim), ")"@),
        TypeView::Named(name) => quoted("Named("@, shown_str(name), ")"@),
        TypeView::GenericParam(name) => quoted("GenericParam("@, shown_str(name), ")"@),
        TypeView::Apply { name, args } => apply_text(shown_str(name), type_texts(args)),
        TypeView::Function(function) => quoted("Function("@, function_type_text(function), ")"@),
    }
}

pub open spec fn function_type_text(function: FunctionTypeView) -> Seq<char>
    decreases function,
{
    "FunctionType { params: ["@ + joined(type_texts(function.params), ", "@) + "], ret: "@
        + type_text(*function.ret) + ", effectful: "@ + (if function.effectful {
        "true"@
    } else {
        "false"@
    }) + " }"@
}

pub open spec fn type_texts(list: Seq<TypeView>) -> Seq<Seq<char>>
    decreases list,
{
    Seq::new(
        list.len(),
        |i: int|
            if 0 <= i < list.len() {
                type_text(list[i])
            } else {
                arbitrary()
            },
    )
}

pub fn prim_name(prim: PrimType) -> (name: &'static str)
    ensures
        name@ == prim_text(prim),
{
    match prim {
        PrimType::I32 => "I32",
        PrimType::Bool => "Bool",
        PrimType::String => "String",
        PrimType::Unit => "Unit",
    }
}

/// How a type is shown in a diagnostic.
pub fn show_type(ty: &Type) -> (text: String)
    ensures
        text@ == type_text(ty@),
    decreases ty, 0int,
{
    match ty {
        Type::Prim(prim) => quote("Prim(", prim_name(*prim), ")"),
        Type::Named(name) => quote("Named(", show_str(name.as_str()).as_str(), ")"),
        Type::GenericParam(name) => quote(
            "GenericParam(",
            show_str(name.as_str()).as_str(),
            ")",
        ),
        Type::Apply { name, args } => show_apply(
            show_str(name.as_str()).as_str(),
            &show_types(args),
        ),
        Type::Function(function) => quote(
            "Function(",
            show_function_type(function).as_str(),
            ")",
        ),
    }
}

/// A generic type with its arguments, given how its name and they are shown.
pub fn show_apply(shown: &str, args: &Vec<String>) -> (text: String)
    ensures
        text@ == apply_text(shown@, texts(args@)),
{
    quote_twice("Apply { name: ", shown, ", args: [", join(args, ", ").as_str(), "] }")
}

fn show_function_type(function: &FunctionType) -> (text: String)
    ensures
        text@ == function_type_text(function@),
    decreases function, 0int,
{
    let mut text = "FunctionType { params: [".to_owned();
    text.append(join(&show_types(&function.params), ", ").as_str());
    text.append("], ret: ");
    text.append(show_type(&function.ret).as_str());
    text.append(", effectful: ");
    if function.effectful {
        text.append("true");
    } else {
        text.append("false");
    }
    text.append(" }");
    text
}

fn show_types(list: &Vec<Type>) -> (shown: Vec<String>)
    ensures
        texts(shown@) == type_texts(type_views(list@)),
    decreases list, 0int,
{
    let ghost views = type_views(list@);
    let mut shown: Vec<String> = Vec::new();
    let mut i: usize = 0;
    while i < list.len()
        invariant
            i <= list.len(),
            views == type_views(list@),
            shown.len() == i,
            forall|k: int| 0 <= k < i ==> (#[trigger] shown@[k])@ == type_text(views[k]),
        decreases list.len() - i,
    {
        assert(views[i as int] == list@[i as int]@);
        let text = show_type(&list[i]);
        shown.push(text);
        i += 1;
    }
    assert(texts(shown@) =~= type_texts(views));
    shown
}

/// The same type once more.
pub fn copy_type(ty: &Type) -> (copy: Type)
    ensures
        copy@ == ty@,
    decreases ty, 0int,
{
    match ty {
        Type::Prim(prim) => Type::Prim(*prim),
        Type::Named(name) => Type::Named(name.clone()),
        Type::GenericParam(name) => Type::GenericParam(name.clone()),
        Type::Apply { name, args } => Type::Apply { name: name.clone(), args: copy_types(args) },
        Type::Function(function) => Type::Function(copy_function_type(function)),
    }
}

pub fn copy_function_type(function: &FunctionType) -> (copy: FunctionType)
    ensures
        copy@ == function@,
    decreases function, 0int,
{
    FunctionType {
        params: copy_types(&function.params),
        ret: Box::new(copy_type(&function.ret)),
        effectful: function.effectful,
    }
}

pub fn copy_types(list: &Vec<Type>) -> (copy: Vec<Type>)
    ensures
        type_views(copy@) == type_views(list@),
    decreases list, 0int,
{
    let mut copy: Vec<Type> = Vec::new();
    let mut i: usize = 0;
    while i < list.len()
        invariant
            i <= list.len(),
            copy.len() == i,
            forall|k: int| 0 <= k < i ==> (#[trigger] copy@[k])@ == list@[k]@,
        decreases list.len() - i,
    {
        let ty = copy_type(&list[i]);
        copy.push(ty);
        i += 1;
    }
    assert(type_views(copy@) =~= type_views(list@)) by {
        assert forall|k: int| 0 <= k < list@.len() implies type_views(copy@)[k] == type_views(
            list@,
        )[k] by {
            assert(copy@[k]@ == list@[k]@);
        }
    }
    copy
}

impl Clone for Type {
    fn clone(&self) -> (copy: Self)
        ensures
            copy@ == self@,
    {
        copy_type(self)
    }
}

impl Clone for FunctionType {
    fn clone(&self) -> (copy: Self)
        ensures
            copy@ == self@,
    {
        copy_function_type(self)
    }
}

pub fn copy_optional_type(ty: &Option<Type>) -> (copy: Option<Type>)
    ensures
        optional_type(copy) == optional_type(*ty),
{
    match ty {
        Some(ty) => Some(copy_type(ty)),
        None => None,
    }
}

/// Whether two types are the same.
pub fn same_type(a: &Type, b: &Type) -> (same: bool)
    ensures
        same == (a@ == b@),
    decreases a, 0int,
{
    match (a, b) {
        (Type::Prim(a), Type::Prim(b)) => *a == *b,
        (Type::Named(a), Type::Named(b)) => same_text(a.as_str(), b.as_str()),
        (Type::GenericParam(a), Type::GenericParam(b)) => same_text(a.as_str(), b.as_str()),
        (Type::Apply { name, args }, Type::Apply { name: other, args: others }) => same_text(
            name.as_str(),
            other.as_str(),
        ) && same_types(args, others),
        (Type::Function(a), Type::Function(b)) => same_function_type(a, b),
        _ => false,
    }
}

fn same_function_type(a: &FunctionType, b: &FunctionType) -> (same: bool)
    ensures
        same == (a@ == b@),
    decreases a, 0int,
{
    a.effectful == b.effectful && same_types(&a.params, &b.params) && same_type(&a.ret, &b.ret)
}

fn same_types(a: &Vec<Type>, b: &Vec<Type>) -> (same: bool)
    ensures
        same == (type_views(a@) == type_views(b@)),
    decreases a, 0int,
{
    let ghost left = type_views(a@);
    let ghost right = type_views(b@);
    assert(left.len() == a.len() && right.len() == b.len());
    if a.len() != b.len() {
        return false;
    }
    let mut i: usize = 0;
    while i < a.len()
        invariant
            i <= a.len(),
            a.len() == b.len(),
            left == type_views(a@),
            right == type_views(b@),
            forall|k: int| 0 <= k < i ==> #[trigger] left[k] == right[k],
        decreases a.len() - i,
    {
        assert(left[i as int] == a@[i as int]@);
        assert(right[i as int] == b@[i as int]@);
        if !same_type(&a[i], &b[i]) {
            return false;
        }
        i += 1;
    }
    assert(left =~= right);
    true
}

} // verus!
