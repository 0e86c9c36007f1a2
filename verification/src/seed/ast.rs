//! Syntax trees of the seed language.
use vstd::prelude::*;

use crate::text::texts;

verus! {

#[derive(Debug, Clone)]
pub struct Program {
    pub functions: Vec<Function>,
}

#[derive(Debug, Clone)]
pub struct Function {
    pub name: String,
    pub params: Vec<String>,
    pub return_annotation: Option<PrimType>,
    pub body: Block,
}

#[derive(Debug)]
pub struct Block {
    pub items: Vec<BlockItem>,
}

#[derive(Debug)]
pub enum BlockItem {
    Binding { name: String, expr: Expr },
    Expr(Expr),
}

#[derive(Debug)]
pub enum Expr {
    Int(i32),
    Bool(bool),
    Unit,
    Var(String),
    Call { name: String, args: Vec<Expr> },
    MethodCall { receiver: Box<Expr>, name: String, args: Vec<Expr> },
    Binary { op: BinaryOp, left: Box<Expr>, right: Box<Expr> },
    Match { scrutinee: Box<Expr>, arms: Vec<MatchArm> },
    Block(Block),
}

#[derive(Debug)]
pub struct MatchArm {
    pub pattern: Pattern,
    pub expr: Expr,
}

#[derive(Debug, Clone, Copy, PartialEq, Eq, Structural)]
pub enum Pattern {
    Int(i32),
    Bool(bool),
    Unit,
    Wildcard,
}

#[derive(Debug, Clone, Copy, PartialEq, Eq, Structural)]
pub enum BinaryOp {
    Add,
    Sub,
    Mul,
    Eq,
    Lt,
}

#[derive(Debug, Clone, Copy, PartialEq, Eq, Structural)]
pub enum PrimType {
    I32,
    Bool,
    Unit,
}

pub struct ProgramView {
    pub functions: Seq<FunctionView>,
}

pub struct FunctionView {
    pub name: Seq<char>,
    pub params: Seq<Seq<char>>,
    pub return_annotation: Option<PrimType>,
    pub body: BlockView,
}

pub struct BlockView {
    pub items: Seq<BlockItemView>,
}

pub enum BlockItemView {
    Binding { name: Seq<char>, expr: ExprView },
    Expr(ExprView),
}

pub enum ExprView {
    Int(i32),
    Bool(bool),
    Unit,
    Var(Seq<char>),
    Call { name: Seq<char>, args: Seq<ExprView> },
    MethodCall { receiver: Box<ExprView>, name: Seq<char>, args: Seq<ExprView> },
    Binary { op: BinaryOp, left: Box<ExprView>, right: Box<ExprView> },
    Match { scrutinee: Box<ExprView>, arms: Seq<MatchArmView> },
    Block(BlockView),
}

pub struct MatchArmView {
    pub pattern: Pattern,
    pub expr: ExprView,
}

pub open spec fn expr_view(e: Expr) -> ExprView
    decreases e,
{
    match e {
        Expr::Int(value) => ExprView::Int(value),
        Expr::Bool(value) => ExprView::Bool(value),
        Expr::Unit => ExprView::Unit,
        Expr::Var(name) => ExprView::Var(name@),
        Expr::Call { name, args } => ExprView::Call { name: name@, args: expr_views(args@) },
        Expr::MethodCall { receiver, name, args } => ExprView::MethodCall {
            receiver: Box::new(expr_view(*receiver)),
            name: name@,
            args: expr_views(args@),
        },
        Expr::Binary { op, left, right } => ExprView::Binary {
            op,
            left: Box::new(expr_view(*left)),
            right: Box::new(expr_view(*right)),
        },
        Expr::Match { scrutinee, arms } => ExprView::Match {
            scrutinee: Box::new(expr_view(*scrutinee)),
            arms: arm_views(arms@),
        },
        Expr::Block(block) => ExprView::Block(block_view(block)),
    }
}

pub open spec fn expr_views(list: Seq<Expr>) -> Seq<ExprView>
    decreases list,
{
    Seq::new(
        list.len(),
        |i: int|
            if 0 <= i < list.len() {
                expr_view(list[i])
            } else {
                arbitrary()
            },
    )
}

pub open spec fn arm_view(arm: MatchArm) -> MatchArmView
    decreases arm,
{
    MatchArmView { pattern: arm.pattern, expr: expr_view(arm.expr) }
}

pub open spec fn arm_views(list: Seq<MatchArm>) -> Seq<MatchArmView>
    decreases list,
{
    Seq::new(
        list.len(),
        |i: int|
            if 0 <= i < list.len() {
                arm_view(list[i])
            } else {
                arbitrary()
            },
    )
}

pub open spec fn block_view(block: Block) -> BlockView
    decreases block,
{
    BlockView { items: item_views(block.items@) }
}

pub open spec fn item_view(item: BlockItem) -> BlockItemView
    decreases item,
{
    match item {
        BlockItem::Binding { name, expr } => BlockItemView::Binding {
            name: name@,
            expr: expr_view(expr),
        },
        BlockItem::Expr(expr) => BlockItemView::Expr(expr_view(expr)),
    }
}

pub open spec fn item_views(list: Seq<BlockItem>) -> Seq<BlockItemView>
    decreases list,
{
    Seq::new(
        list.len(),
        |i: int|
            if 0 <= i < list.len() {
                item_view(list[i])
            } else {
                arbitrary()
            },
    )
}

pub open spec fn function_views(list: Seq<Function>) -> Seq<FunctionView> {
    list.map_values(|f: Function| f@)
}

impl View for Program {
    type V = ProgramView;

    open spec fn view(&self) -> ProgramView {
        ProgramView { functions: function_views(self.functions@) }
    }
}

impl View for Function {
    type V = FunctionView;

    open spec fn view(&self) -> FunctionView {
        FunctionView {
            name: self.name@,
            params: texts(self.params@),
            return_annotation: self.return_annotation,
            body: self.body@,
        }
    }
}

impl View for Block {
    type V = BlockView;

    open spec fn view(&self) -> BlockView {
        block_view(*self)
    }
}

impl View for BlockItem {
    type V = BlockItemView;

    open spec fn view(&self) -> BlockItemView {
        item_view(*self)
    }
}

impl View for Expr {
    type V = ExprView;

    open spec fn view(&self) -> ExprView {
        expr_view(*self)
    }
}

impl View for MatchArm {
    type V = MatchArmView;

    open spec fn view(&self) -> MatchArmView {
        arm_view(*self)
    }
}

impl View for Pattern {
    type V = Pattern;

    open spec fn view(&self) -> Pattern {
        *self
    }
}

impl View for PrimType {
    type V = PrimType;

    open spec fn view(&self) -> PrimType {
        *self
    }
}

/// The same expression once more.
pub fn copy_expr(expr: &Expr) -> (copy: Expr)
    ensures
        copy@ == expr@,
    decreases expr, 0int,
{
    match expr {
        Expr::Int(value) => Expr::Int(*value),
        Expr::Bool(value) => Expr::Bool(*value),
        Expr::Unit => Expr::Unit,
        Expr::Var(name) => Expr::Var(name.clone()),
        Expr::Call { name, args } => Expr::Call { name: name.clone(), args: copy_exprs(args) },
        Expr::MethodCall { receiver, name, args } => Expr::MethodCall {
            receiver: Box::new(copy_expr(receiver)),
            name: name.clone(),
            args: copy_exprs(args),
        },
        Expr::Binary { op, left, right } => Expr::Binary {
            op: *op,
            left: Box::new(copy_expr(left)),
            right: Box::new(copy_expr(right)),
        },
        Expr::Match { scrutinee, arms } => Expr::Match {
            scrutinee: Box::new(copy_expr(scrutinee)),
            arms: copy_arms(arms),
        },
        Expr::Block(block) => Expr::Block(copy_block(block)),
    }
}

fn copy_exprs(list: &Vec<Expr>) -> (copy: Vec<Expr>)
    ensures
        expr_views(copy@) == expr_views(list@),
    decreases list, 0int,
{
    let mut copy: Vec<Expr> = Vec::new();
    let mut i: usize = 0;
    while i < list.len()
        invariant
            i <= list.len(),
            copy.len() == i,
            forall|k: int| 0 <= k < i ==> (#[trigger] copy@[k])@ == list@[k]@,
        decreases list.len() - i,
    {
        let expr = copy_expr(&list[i]);
        copy.push(expr);
        i += 1;
    }
    assert forall|k: int| 0 <= k < list@.len() implies expr_views(copy@)[k] == expr_views(
        list@,
    )[k] by {
        assert(copy@[k]@ == list@[k]@);
    }
    assert(expr_views(copy@) =~= expr_views(list@));
    copy
}

fn copy_arm(arm: &MatchArm) -> (copy: MatchArm)
    ensures
        copy@ == arm@,
    decreases arm, 0int,
{
    MatchArm { pattern: arm.pattern, expr: copy_expr(&arm.expr) }
}

fn copy_arms(list: &Vec<MatchArm>) -> (copy: Vec<MatchArm>)
    ensures
        arm_views(copy@) == arm_views(list@),
    decreases list, 0int,
{
    let mut copy: Vec<MatchArm> = Vec::new();
    let mut i: usize = 0;
    while i < list.len()
        invariant
            i <= list.len(),
            copy.len() == i,
            forall|k: int| 0 <= k < i ==> (#[trigger] copy@[k])@ == list@[k]@,
        decreases list.len() - i,
    {
        let arm = copy_arm(&list[i]);
        copy.push(arm);
        i += 1;
    }
    assert forall|k: int| 0 <= k < list@.len() implies arm_views(copy@)[k] == arm_views(
        list@,
    )[k] by {
        assert(copy@[k]@ == list@[k]@);
    }
    assert(arm_views(copy@) =~= arm_views(list@));
    copy
}

/// The same block once more.
pub fn copy_block(block: &Block) -> (copy: Block)
    ensures
        copy@ == block@,
    decreases block, 0int,
{
    let mut items: Vec<BlockItem> = Vec::new();
    let mut i: usize = 0;
    while i < block.items.len()
        invariant
            i <= block.items.len(),
            items.len() == i,
            forall|k: int| 0 <= k < i ==> (#[trigger] items@[k])@ == block.items@[k]@,
        decreases block.items.len() - i,
    {
        let item = copy_item(&block.items[i]);
        items.push(item);
        i += 1;
    }
    assert forall|k: int| 0 <= k < items@.len() implies item_views(items@)[k] == item_views(
        block.items@,
    )[k] by {
        assert(items@[k]@ == block.items@[k]@);
    }
    assert(item_views(items@) =~= item_views(block.items@));
    Block { items }
}

fn copy_item(item: &BlockItem) -> (copy: BlockItem)
    ensures
        copy@ == item@,
    decreases item, 0int,
{
    match item {
        BlockItem::Binding { name, expr } => BlockItem::Binding {
            name: name.clone(),
            expr: copy_expr(expr),
        },
        BlockItem::Expr(expr) => BlockItem::Expr(copy_expr(expr)),
    }
}

impl Clone for Expr {
    fn clone(&self) -> (copy: Self)
        ensures
            copy@ == self@,
    {
        copy_expr(self)
    }
}

impl Clone for MatchArm {
    fn clone(&self) -> (copy: Self)
        ensures
            copy@ == self@,
    {
        copy_arm(self)
    }
}

impl Clone for Block {
    fn clone(&self) -> (copy: Self)
        ensures
            copy@ == self@,
    {
        copy_block(self)
    }
}

impl Clone for BlockItem {
    fn clone(&self) -> (copy: Self)
        ensures
            copy@ == self@,
    {
        copy_item(self)
    }
}

} // verus!
