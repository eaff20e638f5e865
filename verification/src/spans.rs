use vstd::prelude::*;
use crate::ast::{Expr, ExprType, Stmt, StmtType};
use crate::bytecode::ConstantPoolIndex;
use crate::lowering::{
    lower_args, lower_class, lower_expr, lower_fun, lower_function, lower_members, lower_params,
    lower_stmt, lower_stmts, lower_top, lower_value, CompilerView, Lowering, ELSE_PREFIX,
    MERGE_PREFIX,
};
use crate::utils::Location;

verus! {

/// An error of the lowering of an expression carries a span.
pub proof fn lemma_expr(l: Lowering, e: Expr, drop: bool)
    requires
        lower_expr(l, e, drop) is Err,
    ensures
        lower_expr(l, e, drop)->Err_0.location is Some,
    decreases e, 2nat,
{
    lemma_value(l, e, drop);
}

proof fn lemma_value(l: Lowering, e: Expr, drop: bool)
    requires
        lower_value(l, e, drop) is Err,
    ensures
        lower_value(l, e, drop)->Err_0.location is Some,
    decreases e, 1nat,
{
    match e.node {
        ExprType::Block(stmts, tail) => {
            let entered = l.with_state(l.state.enter_scope());
            match lower_stmts(entered, stmts, 0) {
                Ok(inner) => lemma_expr(inner, *tail, false),
                Err(_) => lemma_stmts(entered, stmts, 0),
            }
        },
        ExprType::CallFunction { name, arguments } => {
            if lower_args(l, arguments, arguments.len() as nat) is Err {
                lemma_args(l, arguments, arguments.len() as nat);
            }
        },
        ExprType::MethodCall { left, name, arguments } => {
            match lower_args(l, arguments, arguments.len() as nat) {
                Ok(pushed) => {
                    if lower_expr(pushed, *left, false) is Err {
                        lemma_expr(pushed, *left, false);
                    }
                },
                Err(_) => lemma_args(l, arguments, arguments.len() as nat),
            }
        },
        ExprType::Conditional { guard, then_branch, else_branch } => {
            lemma_conditional(l, e, drop);
        },
        ExprType::Operator { op, arguments } => {
            if lower_args(l, arguments, arguments.len() as nat) is Err {
                lemma_args(l, arguments, arguments.len() as nat);
            }
        },
        ExprType::MemberRead { left, right } => {
            if lower_expr(l, *left, false) is Err {
                lemma_expr(l, *left, false);
            }
        },
        _ => {},
    }
}

proof fn lemma_conditional(l: Lowering, e: Expr, drop: bool)
    requires
        lower_value(l, e, drop) is Err,
        e.node is Conditional,
    ensures
        lower_value(l, e, drop)->Err_0.location is Some,
    decreases e, 0nat,
{
    let at = e.location;
    let guard = *e.node->Conditional_guard;
    let then_branch = *e.node->Conditional_then_branch;
    let else_branch = e.node->Conditional_else_branch;
    match l.fresh_label(ELSE_PREFIX@, at) {
        Ok((l1, label_else)) => match l1.fresh_label(MERGE_PREFIX@, at) {
            Ok((l2, label_end)) => match lower_expr(l2, guard, false) {
                Ok(guarded) => {
                    let branched = guarded.emit(crate::bytecode::Instr::BranchLabelFalse(label_else), at);
                    match lower_expr(branched, then_branch, drop) {
                        Ok(then_done) => {
                            let at_else = then_done.emit(
                                crate::bytecode::Instr::JmpLabel(label_end),
                                at,
                            ).emit(crate::bytecode::Instr::Label(label_else), at);
                            match else_branch {
                                Some(else_body) => lemma_expr(at_else, *else_body, drop),
                                None => {},
                            }
                        },
                        Err(_) => lemma_expr(branched, then_branch, drop),
                    }
                },
                Err(_) => lemma_expr(l2, guard, false),
            },
            Err(_) => {},
        },
        Err(_) => {},
    }
}

proof fn lemma_args(l: Lowering, args: Vec<Expr>, n: nat)
    requires
        lower_args(l, args, n) is Err,
    ensures
        lower_args(l, args, n)->Err_0.location is Some,
    decreases args, n,
{
    if !(n == 0 || n > args.len()) {
        match lower_expr(l, args[n - 1], false) {
            Ok(next) => lemma_args(next, args, (n - 1) as nat),
            Err(_) => lemma_expr(l, args[n - 1], false),
        }
    }
}

proof fn lemma_stmts(l: Lowering, stmts: Vec<Stmt>, from: nat)
    requires
        lower_stmts(l, stmts, from) is Err,
    ensures
        lower_stmts(l, stmts, from)->Err_0.location is Some,
    decreases stmts, stmts.len() - from,
{
    if from < stmts.len() {
        match lower_stmt(l, stmts[from as int]) {
            Ok(next) => lemma_stmts(next, stmts, from + 1),
            Err(_) => lemma_stmt(l, stmts[from as int]),
        }
    }
}

proof fn lemma_top(l: Lowering, stmts: Vec<Stmt>, from: nat)
    requires
        lower_top(l, stmts, from) is Err,
    ensures
        lower_top(l, stmts, from)->Err_0.location is Some,
    decreases stmts, stmts.len() - from,
{
    if from < stmts.len() {
        match stmts[from as int].node {
            StmtType::Expression(e) => match lower_expr(l, e, from + 1 < stmts.len()) {
                Ok(next) => lemma_top(next, stmts, from + 1),
                Err(_) => lemma_expr(l, e, from + 1 < stmts.len()),
            },
            _ => match lower_stmt(l, stmts[from as int]) {
                Ok(next) => lemma_top(next, stmts, from + 1),
                Err(_) => lemma_stmt(l, stmts[from as int]),
            },
        }
    }
}

/// An error of the lowering of a statement carries a span.
pub proof fn lemma_stmt(l: Lowering, s: Stmt)
    requires
        lower_stmt(l, s) is Err,
    ensures
        lower_stmt(l, s)->Err_0.location is Some,
    decreases s, 1nat,
{
    match s.node {
        StmtType::Variable { name, mutable, value } => {
            if lower_expr(l, value, false) is Err {
                lemma_expr(l, value, false);
            }
        },
        StmtType::AssignVariable { name, value } => {
            if lower_expr(l, value, false) is Err {
                lemma_expr(l, value, false);
            }
        },
        StmtType::Function { name, parameters, body } => {
            if crate::lowering::definition_refused(l.state.location) is None {
                if lower_function(l.state, name@, parameters, body, s.location) is Err {
                    lemma_function(l.state, name@, parameters, body, s.location);
                }
            }
        },
        StmtType::Class { name, statements } => {
            if crate::lowering::definition_refused(l.state.location) is None {
                lemma_class(l, name@, statements, s.location);
            }
        },
        StmtType::Top(stmts) => {
            lemma_top(l, stmts, 0);
        },
        StmtType::Expression(e) => {
            lemma_expr(l, e, true);
        },
        StmtType::MemberStore { left, right, val } => {
            match lower_expr(l, val, false) {
                Ok(valued) => {
                    if lower_expr(valued, left, false) is Err {
                        lemma_expr(valued, left, false);
                    }
                },
                Err(_) => lemma_expr(l, val, false),
            }
        },
        _ => {},
    }
}

proof fn lemma_params(l: Lowering, parameters: Seq<String>, from: nat, location: Location)
    requires
        lower_params(l, parameters, from, location) is Err,
    ensures
        lower_params(l, parameters, from, location)->Err_0.location is Some,
    decreases parameters.len() - from,
{
    if from >= parameters.len() {
    } else if !(l.state.location is Local) {
        lemma_params(l, parameters, from + 1, location);
    } else if from > u16::MAX {
    } else {
        match l.declare_local(parameters[from as int]@, false, from as u16, location) {
            Ok(next) => lemma_params(next, parameters, from + 1, location),
            Err(_) => {},
        }
    }
}

proof fn lemma_function(
    state: CompilerView,
    name: Seq<char>,
    parameters: Vec<String>,
    body: Expr,
    location: Location,
)
    requires
        lower_function(state, name, parameters, body, location) is Err,
    ensures
        lower_function(state, name, parameters, body, location)->Err_0.location is Some,
    decreases body, 4nat,
{
    let reset = CompilerView { local_count: 0, local_max: 0, ..state };
    match reset.intern(name, location) {
        Ok((named, name_index)) => {
            if lower_fun(named, name_index, parameters, body) is Err {
                let start = Lowering { state: named.enter_scope(), code: Seq::empty() };
                match lower_params(start, parameters@, 0, body.location) {
                    Ok(bound) => {
                        if lower_expr(bound, body, false) is Err {
                            lemma_expr(bound, body, false);
                        }
                    },
                    Err(_) => lemma_params(start, parameters@, 0, body.location),
                }
            }
        },
        Err(_) => {},
    }
}

proof fn lemma_members(
    state: CompilerView,
    members: Vec<Stmt>,
    from: nat,
    methods: Seq<ConstantPoolIndex>,
)
    requires
        lower_members(state, members, from, methods) is Err,
    ensures
        lower_members(state, members, from, methods)->Err_0.location is Some,
    decreases members, members.len() - from,
{
    if from < members.len() {
        let member = members[from as int];
        match member.node {
            StmtType::Function { name, parameters, body } => {
                match lower_function(state, name@, parameters, body, member.location) {
                    Ok((next, _, method)) => lemma_members(
                        next,
                        members,
                        from + 1,
                        methods.push(method),
                    ),
                    Err(_) => lemma_function(state, name@, parameters, body, member.location),
                }
            },
            _ => {},
        }
    }
}

proof fn lemma_class(l: Lowering, name: Seq<char>, members: Vec<Stmt>, at: Location)
    requires
        lower_class(l, name, members, at) is Err,
    ensures
        lower_class(l, name, members, at)->Err_0.location is Some,
    decreases members, members.len() + 1,
{
    match l.state.intern(name, at) {
        Ok((named, name_index)) => {
            if lower_members(named, members, 0, Seq::empty()) is Err {
                lemma_members(named, members, 0, Seq::empty());
            }
        },
        Err(_) => {},
    }
}

} // verus!
