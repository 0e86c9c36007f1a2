//! Syntax trees of the full language.
use vstd::prelude::*;

use crate::capability::Capability;
use crate::text::texts;

verus! {

#[derive(Debug)]
pub struct Program {
    pub items: Vec<TopLevelItem>,
}

#[derive(Debug)]
pub enum TopLevelItem {
    Import(Import),
    Struct(StructDecl),
    Enum(EnumDecl),
    Function(Function),
}

/// Where an import stands: in a program of a user, or in the standard library.
#[derive(Debug, Clone, Copy, PartialEq, Eq, Structural)]
pub enum ImportOrigin {
    User,
    Stdlib,
}

#[derive(Debug)]
pub struct Import {
    pub origin: ImportOrigin,
    pub path: Vec<String>,
    pub name: String,
}

#[derive(Debug)]
pub struct StructDecl {
    pub name: String,
    pub type_params: Vec<String>,
    pub field: StructField,
}

#[derive(Debug)]
pub struct StructField {
    pub name: String,
    pub ty: Type,
}

#[derive(Debug)]
pub struct EnumDecl {
    pub name: String,
    pub type_params: Vec<String>,
    pub variants: Vec<EnumVariant>,
}

#[derive(Debug)]
pub struct EnumVariant {
    pub name: String,
    pub payload: Option<Type>,
}

/// A function. `required` are the capabilities of its `requires` attribute, where it has one.
#[derive(Debug)]
pub struct Function {
    pub name: String,
    pub params: Vec<Param>,
    pub required: Option<Vec<Capability>>,
    pub return_annotation: Option<Type>,
    pub body: Block,
}

#[derive(Debug)]
pub struct Param {
    pub name: String,
    pub ty: Option<Type>,
}

#[derive(Debug)]
pub struct Block {
    pub items: Vec<BlockItem>,
}

#[derive(Debug)]
pub enum BlockItem {
    Binding { name: String, ty: Option<Type>, expr: Expr },
    Expr(Expr),
}

#[derive(Debug)]
pub enum Expr {
    Int(i32),
    Bool(bool),
    String(String),
    Unit,
    Var(String),
    Call { name: String, args: Vec<Expr> },
    MethodCall { receiver: Box<Expr>, name: String, args: Vec<Expr> },
    FieldAccess { receiver: Box<Expr>, field: String },
    StructLiteral { name: String, field: String, value: Box<Expr> },
    Binary { op: BinaryOp, left: Box<Expr>, right: Box<Expr> },
    Match { scrutinee: Box<Expr>, arms: Vec<MatchArm> },
    Block(Block),
}

#[derive(Debug)]
pub struct MatchArm {
    pub pattern: Pattern,
    pub expr: Expr,
}

#[derive(Debug)]
pub enum Pattern {
    Int(i32),
    Bool(bool),
    Unit,
    Wildcard,
    Var(String),
    Variant { name: String, payload: Option<Box<Pattern>> },
}

#[derive(Debug, Clone, Copy, PartialEq, Eq, Structural)]
pub enum BinaryOp {
    Add,
    Sub,
    Mul,
    Eq,
    Lt,
}

#[derive(Debug, Clone, Copy, PartialEq, Eq, Structural)]
pub enum PrimType {
    I32,
    Bool,
    String,
    Unit,
}

#[derive(Debug)]
pub enum Type {
    Prim(PrimType),
    Named(String),
    GenericParam(String),
    Apply { name: String, args: Vec<Type> },
    Function(FunctionType),
}

#[derive(Debug)]
pub struct FunctionType {
    pub params: Vec<Type>,
    pub ret: Box<Type>,
    pub effectful: bool,
}

pub struct ProgramView {
    pub items: Seq<TopLevelItemView>,
}

pub enum TopLevelItemView {
    Import(ImportView),
    Struct(StructDeclView),
    Enum(EnumDeclView),
    Function(FunctionView),
}

pub struct ImportView {
    pub origin: ImportOrigin,
    pub path: Seq<Seq<char>>,
    pub name: Seq<char>,
}

pub struct StructDeclView {
    pub name: Seq<char>,
    pub type_params: Seq<Seq<char>>,
    pub field: StructFieldView,
}

pub struct StructFieldView {
    pub name: Seq<char>,
    pub ty: TypeView,
}

pub struct EnumDeclView {
    pub name: Seq<char>,
    pub type_params: Seq<Seq<char>>,
    pub variants: Seq<EnumVariantView>,
}

pub struct EnumVariantView {
    pub name: Seq<char>,
    pub payload: Option<TypeView>,
}

pub struct FunctionView {
    pub name: Seq<char>,
    pub params: Seq<ParamView>,
    pub required: Option<Seq<Capability>>,
    pub return_annotation: Option<TypeView>,
    pub body: BlockView,
}

pub struct ParamView {
    pub name: Seq<char>,
    pub ty: Option<TypeView>,
}

pub struct BlockView {
    pub items: Seq<BlockItemView>,
}

pub enum BlockItemView {
    Binding { name: Seq<char>, ty: Option<TypeView>, expr: ExprView },
    Expr(ExprView),
}

pub enum ExprView {
    Int(i32),
    Bool(bool),
    String(Seq<char>),
    Unit,
    Var(Seq<char>),
    Call { name: Seq<char>, args: Seq<ExprView> },
    MethodCall { receiver: Box<ExprView>, name: Seq<char>, args: Seq<ExprView> },
    FieldAccess { receiver: Box<ExprView>, field: Seq<char> },
    StructLiteral { name: Seq<char>, field: Seq<char>, value: Box<ExprView> },
    Binary { op: BinaryOp, left: Box<ExprView>, right: Box<ExprView> },
    Match { scrutinee: Box<ExprView>, arms: Seq<MatchArmView> },
    Block(BlockView),
}

pub struct MatchArmView {
    pub pattern: PatternView,
    pub expr: ExprView,
}

pub enum PatternView {
    Int(i32),
    Bool(bool),
    Unit,
    Wildcard,
    Var(Seq<char>),
    Variant { name: Seq<char>, payload: Option<Box<PatternView>> },
}

pub enum TypeView {
    Prim(PrimType),
    Named(Seq<char>),
    GenericParam(Seq<char>),
    Apply { name: Seq<char>, args: Seq<TypeView> },
    Function(FunctionTypeView),
}

pub struct FunctionTypeView {
    pub params: Seq<TypeView>,
    pub ret: Box<TypeView>,
    pub effectful: bool,
}

pub open spec fn type_view(ty: Type) -> TypeView
    decreases ty,
{
    match ty {
        Type::Prim(prim) => TypeView::Prim(prim),
        Type::Named(name) => TypeView::Named(name@),
        Type::GenericParam(name) => TypeView::GenericParam(name@),
        Type::Apply { name, args } => TypeView::Apply { name: name@, args: type_views(args@) },
        Type::Function(function) => TypeView::Function(function_type_view(function)),
    }
}

pub open spec fn function_type_view(function: FunctionType) -> FunctionTypeView
    decreases function,
{
    FunctionTypeView {
        params: type_views(function.params@),
        ret: Box::new(type_view(*function.ret)),
        effectful: function.effectful,
    }
}

pub open spec fn type_views(list: Seq<Type>) -> Seq<TypeView>
    decreases list,
{
    Seq::new(
        list.len(),
        |i: int|
            if 0 <= i < list.len() {
                type_view(list[i])
            } else {
                arbitrary()
            },
    )
}

pub open spec fn optional_type(ty: Option<Type>) -> Option<TypeView> {
    match ty {
        Some(ty) => Some(type_view(ty)),
        None => None,
    }
}

pub open spec fn pattern_view(pattern: Pattern) -> PatternView
    decreases pattern,
{
    match pattern {
        Pattern::Int(value) => PatternView::Int(value),
        Pattern::Bool(value) => PatternView::Bool(value),
        Pattern::Unit => PatternView::Unit,
        Pattern::Wildcard => PatternView::Wildcard,
        Pattern::Var(name) => PatternView::Var(name@),
        Pattern::Variant { name, payload } => PatternView::Variant {
            name: name@,
            payload: match payload {
                Some(payload) => Some(Box::new(pattern_view(*payload))),
                None => None,
            },
        },
    }
}

pub open spec fn expr_view(e: Expr) -> ExprView
    decreases e,
{
    match e {
        Expr::Int(value) => ExprView::Int(value),
        Expr::Bool(value) => ExprView::Bool(value),
        Expr::String(value) => ExprView::String(value@),
        Expr::Unit => ExprView::Unit,
        Expr::Var(name) => ExprView::Var(name@),
        Expr::Call { name, args } => ExprView::Call { name: name@, args: expr_views(args@) },
        Expr::MethodCall { receiver, name, args } => ExprView::MethodCall {
            receiver: Box::new(expr_view(*receiver)),
            name: name@,
            args: expr_views(args@),
        },
        Expr::FieldAccess { receiver, field } => ExprView::FieldAccess {
            receiver: Box::new(expr_view(*receiver)),
            field: field@,
        },
        Expr::StructLiteral { name, field, value } => ExprView::StructLiteral {
            name: name@,
            field: field@,
            value: Box::new(expr_view(*value)),
        },
        Expr::Binary { op, left, right } => ExprView::Binary {
            op,
            left: Box::new(expr_view(*left)),
            right: Box::new(expr_view(*right)),
        },
        Expr::Match { scrutinee, arms } => ExprView::Match {
            scrutinee: Box::new(expr_view(*scrutinee)),
            arms: arm_views(arms@),
        },
        Expr::Block(block) => ExprView::Block(block_view(block)),
    }
}

pub open spec fn expr_views(list: Seq<Expr>) -> Seq<ExprView>
    decreases list,
{
    Seq::new(
        list.len(),
        |i: int|
            if 0 <= i < list.len() {
                expr_view(list[i])
            } else {
                arbitrary()
            },
    )
}

pub open spec fn arm_view(arm: MatchArm) -> MatchArmView
    decreases arm,
{
    MatchArmView { pattern: pattern_view(arm.pattern), expr: expr_view(arm.expr) }
}

pub open spec fn arm_views(list: Seq<MatchArm>) -> Seq<MatchArmView>
    decreases list,
{
    Seq::new(
        list.len(),
        |i: int|
            if 0 <= i < list.len() {
                arm_view(list[i])
            } else {
                arbitrary()
            },
    )
}

pub open spec fn block_view(block: Block) -> BlockView
    decreases block,
{
    BlockView { items: block_item_views(block.items@) }
}

pub open spec fn block_item_view(item: BlockItem) -> BlockItemView
    decreases item,
{
    match item {
        BlockItem::Binding { name, ty, expr } => BlockItemView::Binding {
            name: name@,
            ty: optional_type(ty),
            expr: expr_view(expr),
        },
        BlockItem::Expr(expr) => BlockItemView::Expr(expr_view(expr)),
    }
}

pub open spec fn block_item_views(list: Seq<BlockItem>) -> Seq<BlockItemView>
    decreases list,
{
    Seq::new(
        list.len(),
        |i: int|
            if 0 <= i < list.len() {
                block_item_view(list[i])
            } else {
                arbitrary()
            },
    )
}

pub open spec fn variant_views(list: Seq<EnumVariant>) -> Seq<EnumVariantView> {
    list.map_values(|variant: EnumVariant| variant@)
}

pub open spec fn param_views(list: Seq<Param>) -> Seq<ParamView> {
    list.map_values(|param: Param| param@)
}

pub open spec fn item_views(list: Seq<TopLevelItem>) -> Seq<TopLevelItemView> {
    list.map_values(|item: TopLevelItem| item@)
}

impl View for PrimType {
    type V = PrimType;

    open spec fn view(&self) -> PrimType {
        *self
    }
}

impl View for Type {
    type V = TypeView;

    open spec fn view(&self) -> TypeView {
        type_view(*self)
    }
}

impl View for FunctionType {
    type V = FunctionTypeView;

    open spec fn view(&self) -> FunctionTypeView {
        function_type_view(*self)
    }
}

impl View for Pattern {
    type V = PatternView;

    open spec fn view(&self) -> PatternView {
        pattern_view(*self)
    }
}

impl View for Expr {
    type V = ExprView;

    open spec fn view(&self) -> ExprView {
        expr_view(*self)
    }
}

impl View for MatchArm {
    type V = MatchArmView;

    open spec fn view(&self) -> MatchArmView {
        arm_view(*self)
    }
}

impl View for Block {
    type V = BlockView;

    open spec fn view(&self) -> BlockView {
        block_view(*self)
    }
}

impl View for BlockItem {
    type V = BlockItemView;

    open spec fn view(&self) -> BlockItemView {
        block_item_view(*self)
    }
}

impl View for Param {
    type V = ParamView;

    open spec fn view(&self) -> ParamView {
        ParamView { name: self.name@, ty: optional_type(self.ty) }
    }
}

impl View for Function {
    type V = FunctionView;

    open spec fn view(&self) -> FunctionView {
        FunctionView {
            name: self.name@,
            params: param_views(self.params@),
            required: match self.required {
                Some(capabilities) => Some(capabilities@),
                None => None,
            },
            return_annotation: optional_type(self.return_annotation),
            body: self.body@,
        }
    }
}

impl View for Import {
    type V = ImportView;

    open spec fn view(&self) -> ImportView {
        ImportView { origin: self.origin, path: texts(self.path@), name: self.name@ }
    }
}

impl View for StructDecl {
    type V = StructDeclView;

    open spec fn view(&self) -> StructDeclView {
        StructDeclView {
            name: self.name@,
            type_params: texts(self.type_params@),
            field: StructFieldView { name: self.field.name@, ty: self.field.ty@ },
        }
    }
}

impl View for EnumVariant {
    type V = EnumVariantView;

    open spec fn view(&self) -> EnumVariantView {
        EnumVariantView { name: self.name@, payload: optional_type(self.payload) }
    }
}

impl View for EnumDecl {
    type V = EnumDeclView;

    open spec fn view(&self) -> EnumDeclView {
        EnumDeclView {
            name: self.name@,
            type_params: texts(self.type_params@),
            variants: variant_views(self.variants@),
        }
    }
}

impl View for TopLevelItem {
    type V = TopLevelItemView;

    open spec fn view(&self) -> TopLevelItemView {
        match self {
            TopLevelItem::Import(import) => TopLevelItemView::Import(import@),
            TopLevelItem::Struct(decl) => TopLevelItemView::Struct(decl@),
            TopLevelItem::Enum(decl) => TopLevelItemView::Enum(decl@),
            TopLevelItem::Function(function) => TopLevelItemView::Function(function@),
        }
    }
}

impl View for Program {
    type V = ProgramView;

    open spec fn view(&self) -> ProgramView {
        ProgramView { items: item_views(self.items@) }
    }
}

/// The functions among the items before position `n`, in their order.
pub open spec fn functions_before(items: Seq<TopLevelItemView>, n: int) -> Seq<FunctionView>
    decreases n,
{
    if n <= 0 {
        Seq::empty()
    } else {
        let before = functions_before(items, n - 1);
        match items[n - 1] {
            TopLevelItemView::Function(function) => before.push(function),
            _ => before,
        }
    }
}

/// The functions of a program.
pub open spec fn functions_of(program: ProgramView) -> Seq<FunctionView> {
    functions_before(program.items, program.items.len() as int)
}

/// The views of a list of functions.
pub open spec fn function_views(list: Seq<&Function>) -> Seq<FunctionView> {
    list.map_values(|function: &Function| function@)
}

impl Program {
    /// The functions of the program, in the order of the text.
    pub fn functions(&self) -> (functions: Vec<&Function>)
        ensures
            function_views(functions@) == functions_of(self@),
    {
        let ghost items = self@.items;
        let mut functions: Vec<&Function> = Vec::new();
        let mut i: usize = 0;
        assert(function_views(functions@) =~= Seq::empty());
        while i < self.items.len()
            invariant
                i <= self.items.len(),
                items == self@.items,
                function_views(functions@) == functions_before(items, i as int),
            decreases self.items.len() - i,
        {
            assert(items[i as int] == self.items@[i as int]@);
            if let TopLevelItem::Function(function) = &self.items[i] {
                let ghost before = function_views(functions@);
                functions.push(function);
                assert(function_views(functions@) =~= before.push(function@));
            }
            i += 1;
        }
        functions
    }
}

} // verus!
