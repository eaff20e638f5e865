use vstd::prelude::*;
use crate::utils::Location;

verus! {

/// A syntax node together with the span of source text it was read from.
#[derive(Debug, PartialEq, Eq)]
pub struct Located<T> {
    pub node: T,
    pub location: Location,
}

/// Operators of the source language.
#[derive(Debug, Clone, Copy, PartialEq, Eq, Structural)]
pub enum Opcode {
    Add,
    Sub,
    Mul,
    Div,
    Mod,
    Less,
    LessEq,
    Greater,
    GreaterEq,
    Eq,
    Neq,
    Negate,
}

/// Statements leave nothing on the stack.
#[allow(inconsistent_fields)]
#[derive(Debug, PartialEq, Eq)]
pub enum StmtType {
    Variable { name: String, mutable: bool, value: Expr },
    AssignVariable { name: String, value: Expr },
    AssignList { list: Expr, index: Expr, value: Expr },
    Function { name: String, parameters: Vec<String>, body: Expr },
    Class { name: String, statements: Vec<Stmt> },
    Top(Vec<Stmt>),
    While { guard: Expr, body: Box<Stmt> },
    Return(Expr),
    Expression(Expr),
    MemberStore { left: Expr, right: String, val: Expr },
}

pub type Stmt = Located<StmtType>;

/// Expressions always leave a value on the stack: a conditional leaves one
/// even where it has no else branch, and a block leaves the value of its
/// last expression, or none.
#[allow(inconsistent_fields)]
#[derive(Debug, PartialEq, Eq)]
pub enum ExprType {
    Integer(i32),
    /// A number with a fraction, held as the bits of its single-precision
    /// form.
    Float(u32),
    Bool(bool),
    NoneVal,
    String(String),
    Block(Vec<Stmt>, Box<Expr>),
    List { size: Box<Expr>, values: Vec<Stmt> },
    AccessVariable { name: String },
    AccessList { list: Box<Stmt>, index: Box<Stmt> },
    CallFunction { name: String, arguments: Vec<Expr> },
    MethodCall { left: Box<Expr>, name: String, arguments: Vec<Expr> },
    Conditional { guard: Box<Expr>, then_branch: Box<Expr>, else_branch: Option<Box<Expr>> },
    Operator { op: Opcode, arguments: Vec<Expr> },
    MemberRead { left: Box<Expr>, right: String },
}

pub type Expr = Located<ExprType>;


/// What a statement is, with names as character sequences and lists as
/// sequences.
pub enum StmtNode {
    Variable { name: Seq<char>, mutable: bool, value: ExprView },
    AssignVariable { name: Seq<char>, value: ExprView },
    AssignList { list: ExprView, index: ExprView, value: ExprView },
    Function { name: Seq<char>, parameters: Seq<Seq<char>>, body: ExprView },
    Class { name: Seq<char>, statements: Seq<StmtView> },
    Top(Seq<StmtView>),
    While { guard: ExprView, body: Box<StmtView> },
    Return(ExprView),
    Expression(ExprView),
    MemberStore { left: ExprView, right: Seq<char>, val: ExprView },
}

pub type StmtView = Located<StmtNode>;

/// What an expression is, with names as character sequences and lists as
/// sequences.
pub enum ExprNode {
    Integer(i32),
    Float(u32),
    Bool(bool),
    NoneVal,
    String(Seq<char>),
    Block(Seq<StmtView>, Box<ExprView>),
    List { size: Box<ExprView>, values: Seq<StmtView> },
    AccessVariable { name: Seq<char> },
    AccessList { list: Box<StmtView>, index: Box<StmtView> },
    CallFunction { name: Seq<char>, arguments: Seq<ExprView> },
    MethodCall { left: Box<ExprView>, name: Seq<char>, arguments: Seq<ExprView> },
    Conditional { guard: Box<ExprView>, then_branch: Box<ExprView>, else_branch: Option<Box<ExprView>> },
    Operator { op: Opcode, arguments: Seq<ExprView> },
    MemberRead { left: Box<ExprView>, right: Seq<char> },
}

pub type ExprView = Located<ExprNode>;

/// What an expression is.
pub open spec fn expr_view(e: Expr) -> ExprView
    decreases e, 0nat,
{
    Located {
        node: match e.node {
            ExprType::Integer(v) => ExprNode::Integer(v),
            ExprType::Float(v) => ExprNode::Float(v),
            ExprType::Bool(v) => ExprNode::Bool(v),
            ExprType::NoneVal => ExprNode::NoneVal,
            ExprType::String(s) => ExprNode::String(s@),
            ExprType::Block(stmts, tail) => ExprNode::Block(
                stmts_view(stmts, stmts.len() as nat),
                Box::new(expr_view(*tail)),
            ),
            ExprType::List { size, values } => ExprNode::List {
                size: Box::new(expr_view(*size)),
                values: stmts_view(values, values.len() as nat),
            },
            ExprType::AccessVariable { name } => ExprNode::AccessVariable { name: name@ },
            ExprType::AccessList { list, index } => ExprNode::AccessList {
                list: Box::new(stmt_view(*list)),
                index: Box::new(stmt_view(*index)),
            },
            ExprType::CallFunction { name, arguments } => ExprNode::CallFunction {
                name: name@,
                arguments: exprs_view(arguments, arguments.len() as nat),
            },
            ExprType::MethodCall { left, name, arguments } => ExprNode::MethodCall {
                left: Box::new(expr_view(*left)),
                name: name@,
                arguments: exprs_view(arguments, arguments.len() as nat),
            },
            ExprType::Conditional { guard, then_branch, else_branch } => ExprNode::Conditional {
                guard: Box::new(expr_view(*guard)),
                then_branch: Box::new(expr_view(*then_branch)),
                else_branch: match else_branch {
                    Some(b) => Some(Box::new(expr_view(*b))),
                    None => None,
                },
            },
            ExprType::Operator { op, arguments } => ExprNode::Operator {
                op,
                arguments: exprs_view(arguments, arguments.len() as nat),
            },
            ExprType::MemberRead { left, right } => ExprNode::MemberRead {
                left: Box::new(expr_view(*left)),
                right: right@,
            },
        },
        location: e.location,
    }
}

/// What the first `n` of the expressions are.
pub open spec fn exprs_view(es: Vec<Expr>, n: nat) -> Seq<ExprView>
    decreases es, n,
{
    if n == 0 || n > es.len() {
        Seq::empty()
    } else {
        exprs_view(es, (n - 1) as nat).push(expr_view(es[n - 1]))
    }
}

/// What a statement is.
pub open spec fn stmt_view(s: Stmt) -> StmtView
    decreases s, 0nat,
{
    Located {
        node: match s.node {
            StmtType::Variable { name, mutable, value } => StmtNode::Variable {
                name: name@,
                mutable,
                value: expr_view(value),
            },
            StmtType::AssignVariable { name, value } => StmtNode::AssignVariable {
                name: name@,
                value: expr_view(value),
            },
            StmtType::AssignList { list, index, value } => StmtNode::AssignList {
                list: expr_view(list),
                index: expr_view(index),
                value: expr_view(value),
            },
            StmtType::Function { name, parameters, body } => StmtNode::Function {
                name: name@,
                parameters: names_view(parameters@),
                body: expr_view(body),
            },
            StmtType::Class { name, statements } => StmtNode::Class {
                name: name@,
                statements: stmts_view(statements, statements.len() as nat),
            },
            StmtType::Top(stmts) => StmtNode::Top(stmts_view(stmts, stmts.len() as nat)),
            StmtType::While { guard, body } => StmtNode::While {
                guard: expr_view(guard),
                body: Box::new(stmt_view(*body)),
            },
            StmtType::Return(e) => StmtNode::Return(expr_view(e)),
            StmtType::Expression(e) => StmtNode::Expression(expr_view(e)),
            StmtType::MemberStore { left, right, val } => StmtNode::MemberStore {
                left: expr_view(left),
                right: right@,
                val: expr_view(val),
            },
        },
        location: s.location,
    }
}

/// What the first `n` of the statements are.
pub open spec fn stmts_view(ss: Vec<Stmt>, n: nat) -> Seq<StmtView>
    decreases ss, n,
{
    if n == 0 || n > ss.len() {
        Seq::empty()
    } else {
        stmts_view(ss, (n - 1) as nat).push(stmt_view(ss[n - 1]))
    }
}

/// The names as character sequences.
pub open spec fn names_view(names: Seq<String>) -> Seq<Seq<char>> {
    names.map_values(|name: String| name@)
}

/// The views of the first `n` expressions depend on those expressions
/// only.
pub proof fn lemma_exprs_view_prefix(a: Vec<Expr>, b: Vec<Expr>, n: nat)
    requires
        n <= a.len(),
        n <= b.len(),
        forall|i: int| 0 <= i < n ==> a@[i] == b@[i],
    ensures
        exprs_view(a, n) == exprs_view(b, n),
    decreases n,
{
    if n > 0 {
        lemma_exprs_view_prefix(a, b, (n - 1) as nat);
        assert(a@[n - 1] == b@[n - 1]);
    }
}

/// The views of the first `n` statements depend on those statements only.
pub proof fn lemma_stmts_view_prefix(a: Vec<Stmt>, b: Vec<Stmt>, n: nat)
    requires
        n <= a.len(),
        n <= b.len(),
        forall|i: int| 0 <= i < n ==> a@[i] == b@[i],
    ensures
        stmts_view(a, n) == stmts_view(b, n),
    decreases n,
{
    if n > 0 {
        lemma_stmts_view_prefix(a, b, (n - 1) as nat);
        assert(a@[n - 1] == b@[n - 1]);
    }
}

} // verus!
