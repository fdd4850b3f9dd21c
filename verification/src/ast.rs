//! The syntax tree the parser builds.
use vstd::prelude::*;
use crate::token::{DocTag, Span};

verus! {

/// Which side of the C boundary an interface file (`.xzint`) describes.
#[derive(Clone, Copy, Debug, PartialEq, Eq, Structural)]
pub enum InterfaceKind {
    Export,
    Foreign,
}

#[derive(Debug)]
pub struct Program {
    pub items: Vec<Item>,
    pub interface_kind: Option<InterfaceKind>,
}

#[derive(Debug)]
pub enum Item {
    Func(FuncDecl),
    Task(TaskDecl),
    Chan(ChanDecl),
    Extern(ExternDecl),
    Record(RecordDecl),
    Enum(EnumDecl),
}

#[derive(Debug)]
pub struct FuncDecl {
    pub is_async: bool,
    pub exported: bool,
    pub name: String,
    pub type_params: Vec<TypeParam>,
    pub params: Vec<Param>,
    pub ret: Option<Type>,
    pub contracts: Vec<Contract>,
    pub body: Block,
    pub doc: Option<DocComment>,
    pub span: Span,
}

#[derive(Clone, Debug)]
pub struct TypeParam {
    pub name: String,
    pub constraint: Option<String>,
    pub span: Span,
}

#[derive(Debug)]
pub struct TaskDecl {
    pub name: String,
    pub body: Block,
    pub doc: Option<DocComment>,
    pub span: Span,
}

#[derive(Debug)]
pub struct ChanDecl {
    pub name: String,
    pub payload: Type,
    pub span: Span,
}

#[derive(Debug)]
pub struct ExternDecl {
    pub name: String,
    pub type_params: Vec<TypeParam>,
    pub params: Vec<Param>,
    pub ret: Option<Type>,
    pub transfer_ret: bool,
    pub release: Option<String>,
    pub span: Span,
}

#[derive(Debug)]
pub struct RecordDecl {
    pub name: String,
    pub cstruct: bool,
    pub fields: Vec<Field>,
    pub span: Span,
}

#[derive(Debug)]
pub struct EnumDecl {
    pub name: String,
    pub variants: Vec<Variant>,
    pub span: Span,
}

#[derive(Debug)]
pub struct Param {
    pub mutable: bool,
    pub transfer: bool,
    pub name: String,
    pub ty: Type,
    pub span: Span,
}

#[derive(Debug)]
pub struct Field {
    pub name: String,
    pub ty: Type,
    pub span: Span,
}

#[derive(Debug)]
pub struct Variant {
    pub name: String,
    pub fields: Vec<Field>,
    pub span: Span,
}

#[derive(Debug)]
pub enum Contract {
    Pre(Expr),
    Post(Expr),
    Invariant(Expr),
}

#[derive(Debug)]
pub struct Block {
    pub stmts: Vec<Stmt>,
    pub span: Span,
}

#[derive(Debug)]
pub struct Stmt {
    pub kind: StmtKind,
    pub span: Span,
}

#[derive(Debug)]
pub enum StmtKind {
    Decl(Decl),
    Assign(Assign),
    Expr(Expr),
    Break,
    Continue,
}

#[derive(Debug)]
pub struct Decl {
    pub mutable: bool,
    pub name: String,
    pub ty: Option<Type>,
    pub init: Option<Box<Expr>>,
    /// `let x <- recv(ch)`
    pub recv: bool,
    pub chan: Option<String>,
    pub span: Span,
}

#[derive(Debug)]
pub struct Assign {
    pub target: AssignTarget,
    pub op: AssignOp,
    pub value: Box<Expr>,
    pub span: Span,
}

#[derive(Debug)]
pub enum AssignTarget {
    Name(String),
    Field(Box<Expr>, String),
}

#[derive(Clone, Copy, Debug, PartialEq, Eq, Structural)]
pub enum AssignOp {
    Plain,
    Add,
    Sub,
    Mul,
    Div,
}

#[derive(Clone, Debug)]
pub struct DocComment {
    pub claims: Vec<DocClaim>,
    pub span: Span,
}

#[derive(Clone, Debug)]
pub struct DocClaim {
    pub tag: DocTag,
    pub text: String,
    pub trusted: bool,
    pub reviewed: bool,
    pub span: Span,
}

#[derive(Debug)]
pub enum Type {
    Named(String, Vec<Type>),
    Union(Vec<Type>),
    NamedPlain(String),
}

/// An expression. A float literal keeps its written digits (see `TokKind`).
#[derive(Debug)]
pub enum Expr {
    Int(u64),
    Float(String),
    Char(char),
    Str(String),
    RawStr(String),
    Bool(bool),
    NoneLit,
    Name(String),
    Call(Box<Expr>, Vec<Expr>),
    Field(Box<Expr>, String),
    Index(Box<Expr>, Box<Expr>),
    ListLit(Vec<Expr>),
    MapLit(Vec<(Expr, Expr)>),
    SetLit(Vec<Expr>),
    /// postfix `?`
    Prop(Box<Expr>, PropKind),
    Unary(UnaryOp, Box<Expr>),
    Binary(BinOp, Box<Expr>, Box<Expr>),
    Cast(Box<Expr>, Type),
    Match(Box<Expr>, Vec<(Pattern, Box<Expr>)>),
    If(IfExpr),
    Loop(Block),
    For(String, Box<Expr>, Block),
    Await(Box<Expr>),
    Send(Box<Expr>, Box<Expr>),
    Recv(String),
    Transfer(Box<Expr>),
    OkOf(Option<Box<Expr>>),
    ErrOf(Box<Expr>),
    SomeOf(Box<Expr>),
}

#[derive(Debug)]
pub struct IfExpr {
    pub cond: Box<Expr>,
    pub then_block: Block,
    pub elif: Vec<(Box<Expr>, Block)>,
    pub else_block: Option<Block>,
}

#[derive(Clone, Copy, Debug, PartialEq, Eq, Structural)]
pub enum PropKind {
    Fallible,
}

#[derive(Clone, Copy, Debug, PartialEq, Eq, Structural)]
pub enum UnaryOp {
    Neg,
    Not,
}

#[derive(Clone, Copy, Debug, PartialEq, Eq, Structural)]
pub enum BinOp {
    Add,
    Sub,
    Mul,
    Div,
    Mod,
    Eq,
    Ne,
    Lt,
    Le,
    Gt,
    Ge,
    And,
    Or,
    Implies,
    IsOk,
    IsErr,
    IsNone,
    IsSome,
}

#[derive(Clone, Debug)]
pub enum Pattern {
    Wildcard,
    NoneLit,
    Name(String),
    Variant(String, Vec<String>),
}

} // verus!
