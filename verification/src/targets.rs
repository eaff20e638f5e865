use vstd::prelude::*;
use crate::ast::{Expr, ExprType, Stmt, StmtType};
use crate::bytecode::{BytecodeType, ConstantPoolIndex, Instr, Instruction};
use crate::compiler::lowered;
use crate::error::ErrorKind;
use crate::jumps::{label_offsets, resolve_all, resolve_pool};
use crate::lowering::{
    constructor_body, lower_args, lower_class, lower_expr, lower_function, lower_members,
    lower_params, lower_stmt, lower_stmts, lower_top, lower_value, returning, CompilerView,
    Lowering, ELSE_PREFIX, MERGE_PREFIX,
};
use crate::objects::{pool_add, FunctionView, ObjectView};
use crate::utils::Location;

verus! {

/// The label that a jump goes to, if the instruction is a jump to a label.
pub open spec fn jump_target(instr: Instr) -> Option<Seq<char>> {
    match instr {
        Instr::JmpLabel(name) => Some(name),
        Instr::BranchLabel(name) => Some(name),
        Instr::BranchLabelFalse(name) => Some(name),
        _ => None,
    }
}

/// Every jump of the code goes to a label that the code holds, or to one of
/// the labels `pending`, which are yet to be placed.
pub open spec fn bound(code: Seq<Instruction>, pending: Set<Seq<char>>) -> bool {
    forall|i: int|
        0 <= i < code.len() && jump_target((#[trigger] code[i]).instr) is Some ==> label_offsets(
            code,
        ).contains_key(jump_target(code[i].instr)->0) || pending.contains(
            jump_target(code[i].instr)->0,
        )
}

/// Every jump of every function of the pool goes to a label of the
/// function.
pub open spec fn pool_bound(pool: Seq<ObjectView>) -> bool {
    forall|i: int|
        0 <= i < pool.len() ==> match #[trigger] pool[i] {
            ObjectView::Function(f) => bound(f.body, Set::empty()),
            _ => true,
        }
}

/// A label that the code holds is still held when the code grows.
proof fn lemma_push_keeps_labels(code: Seq<Instruction>, x: Instruction, name: Seq<char>)
    requires
        label_offsets(code).contains_key(name),
    ensures
        label_offsets(code.push(x)).contains_key(name),
{
    assert(code.push(x).drop_last() =~= code);
}

/// Emitting an instruction that is no jump keeps the jumps bound; emitting
/// a jump keeps them bound where its label is held or pending; emitting a
/// label makes it held.
proof fn lemma_emit(l: Lowering, instr: Instr, location: Location, pending: Set<Seq<char>>)
    requires
        bound(l.code, pending),
        jump_target(instr) is Some ==> pending.contains(jump_target(instr)->0) || label_offsets(
            l.code,
        ).contains_key(jump_target(instr)->0),
    ensures
        bound(l.emit(instr, location).code, pending),
        instr is Label ==> label_offsets(l.emit(instr, location).code).contains_key(instr->Label_0),
{
    let x = Instruction { instr, location };
    let after = l.code.push(x);
    assert(after.drop_last() =~= l.code);
    assert forall|i: int|
        0 <= i < after.len() && jump_target((#[trigger] after[i]).instr) is Some implies label_offsets(
        after,
    ).contains_key(jump_target(after[i].instr)->0) || pending.contains(
        jump_target(after[i].instr)->0,
    ) by {
        let t = jump_target(after[i].instr)->0;
        if i < l.code.len() {
            assert(after[i] == l.code[i]);
            if label_offsets(l.code).contains_key(t) {
                lemma_push_keeps_labels(l.code, x, t);
            }
        } else {
            if label_offsets(l.code).contains_key(t) {
                lemma_push_keeps_labels(l.code, x, t);
            }
        }
    }
}

/// Jumps that are bound stay bound when more labels are pending; a label
/// that the code holds need not be pending.
proof fn lemma_pending(code: Seq<Instruction>, before: Set<Seq<char>>, after: Set<Seq<char>>)
    requires
        bound(code, before),
        forall|name: Seq<char>|
            before.contains(name) ==> after.contains(name) || label_offsets(code).contains_key(name),
    ensures
        bound(code, after),
{
}

/// What holds of a compilation between any two steps: the jumps emitted so
/// far are bound, and so are those of every function of the pool.
pub open spec fn tied(l: Lowering, pending: Set<Seq<char>>) -> bool {
    bound(l.code, pending) && pool_bound(l.state.pool)
}

/// Adding an entry whose jumps are bound keeps those of the pool bound.
proof fn lemma_pool_add(pool: Seq<ObjectView>, obj: ObjectView)
    requires
        pool_bound(pool),
        pool_add(pool, obj) is Ok,
        match obj {
            ObjectView::Function(f) => bound(f.body, Set::empty()),
            _ => true,
        },
    ensures
        pool_bound(pool_add(pool, obj)->Ok_0.0),
{
    let after = pool_add(pool, obj)->Ok_0.0;
    assert forall|i: int| 0 <= i < after.len() implies match #[trigger] after[i] {
        ObjectView::Function(f) => bound(f.body, Set::empty()),
        _ => true,
    } by {
        if i < pool.len() {
            assert(after[i] == pool[i]);
        }
    }
}

proof fn lemma_intern(l: Lowering, name: Seq<char>, location: Location, pending: Set<Seq<char>>)
    requires
        tied(l, pending),
        l.intern(name, location) is Ok,
    ensures
        tied(l.intern(name, location)->Ok_0.0, pending),
{
    lemma_pool_add(l.state.pool, ObjectView::String(name));
}

proof fn lemma_same(l: Lowering, l2: Lowering, pending: Set<Seq<char>>)
    requires
        tied(l, pending),
        l2.code == l.code,
        l2.state.pool == l.state.pool,
    ensures
        tied(l2, pending),
{
}

proof fn lemma_op(l: Lowering, op: BytecodeType, location: Location, pending: Set<Seq<char>>)
    requires
        tied(l, pending),
    ensures
        tied(l.emit_op(op, location), pending),
{
    lemma_emit(l, Instr::Op(op), location, pending);
}

/// What the lowering of an expression emits has its jumps bound.
pub proof fn lemma_expr(l: Lowering, e: Expr, drop: bool, pending: Set<Seq<char>>)
    requires
        tied(l, pending),
        lower_expr(l, e, drop) is Ok,
    ensures
        tied(lower_expr(l, e, drop)->Ok_0, pending),
    decreases e, 2nat,
{
    lemma_value(l, e, drop, pending);
    if drop {
        lemma_op(lower_value(l, e, drop)->Ok_0, BytecodeType::Drop, e.location, pending);
    }
}

proof fn lemma_value(l: Lowering, e: Expr, drop: bool, pending: Set<Seq<char>>)
    requires
        tied(l, pending),
        lower_value(l, e, drop) is Ok,
    ensures
        tied(lower_value(l, e, drop)->Ok_0, pending),
    decreases e, 1nat,
{
    match e.node {
        ExprType::Block(stmts, tail) => {
            let entered = l.with_state(l.state.enter_scope());
            lemma_stmts(entered, stmts, 0, pending);
            lemma_expr(lower_stmts(entered, stmts, 0)->Ok_0, *tail, false, pending);
        },
        ExprType::CallFunction { name, arguments } => {
            let n = arguments.len() as nat;
            lemma_args(l, arguments, n, pending);
            let pushed = lower_args(l, arguments, n)->Ok_0;
            if name@ == crate::lowering::PRINT@ {
                lemma_op(pushed, BytecodeType::Print { arg_cnt: n as u8 }, e.location, pending);
            } else {
                let (l1, index) = pushed.intern(name@, e.location)->Ok_0;
                lemma_intern(pushed, name@, e.location, pending);
                lemma_op(l1, BytecodeType::GetGlobal(index), e.location, pending);
                lemma_op(
                    l1.emit_op(BytecodeType::GetGlobal(index), e.location),
                    BytecodeType::CallFunc { arg_cnt: n as u8 },
                    e.location,
                    pending,
                );
            }
        },
        ExprType::MethodCall { left, name, arguments } => {
            let n = arguments.len() as nat;
            lemma_args(l, arguments, n, pending);
            let pushed = lower_args(l, arguments, n)->Ok_0;
            lemma_expr(pushed, *left, false, pending);
            let received = lower_expr(pushed, *left, false)->Ok_0;
            let (l1, index) = received.intern(name@, e.location)->Ok_0;
            lemma_intern(received, name@, e.location, pending);
            lemma_op(
                l1,
                BytecodeType::DispatchMethod { name: index, arg_cnt: n as u8 },
                e.location,
                pending,
            );
        },
        ExprType::Conditional { .. } => lemma_conditional(l, e, drop, pending),
        ExprType::Operator { op, arguments } => {
            let n = arguments.len() as nat;
            lemma_args(l, arguments, n, pending);
            lemma_op(
                lower_args(l, arguments, n)->Ok_0,
                crate::bytecode::operation(op),
                e.location,
                pending,
            );
        },
        ExprType::MemberRead { left, right } => {
            lemma_expr(l, *left, false, pending);
            let object = lower_expr(l, *left, false)->Ok_0;
            let (l1, index) = object.intern(right@, e.location)->Ok_0;
            lemma_intern(object, right@, e.location, pending);
            lemma_op(l1, BytecodeType::GetMember(index), e.location, pending);
        },
        ExprType::Integer(v) => lemma_op(l, BytecodeType::PushInt(v), e.location, pending),
        ExprType::Bool(v) => lemma_op(l, BytecodeType::PushBool(v), e.location, pending),
        ExprType::NoneVal => lemma_op(l, BytecodeType::PushNone, e.location, pending),
        ExprType::String(text) => {
            let (l1, index) = l.intern(text@, e.location)->Ok_0;
            lemma_intern(l, text@, e.location, pending);
            lemma_op(l1, BytecodeType::PushLiteral(index), e.location, pending);
        },
        ExprType::AccessVariable { name } => {
            match crate::lowering::lookup(l.state.location.scopes(), name@) {
                Some(local) => lemma_op(l, BytecodeType::GetLocal(local.idx), e.location, pending),
                None => {
                    let (l1, index) = l.intern(name@, e.location)->Ok_0;
                    lemma_intern(l, name@, e.location, pending);
                    lemma_op(l1, BytecodeType::GetGlobal(index), e.location, pending);
                },
            }
        },
        _ => {},
    }
}

proof fn lemma_conditional(l: Lowering, e: Expr, drop: bool, pending: Set<Seq<char>>)
    requires
        tied(l, pending),
        lower_value(l, e, drop) is Ok,
        e.node is Conditional,
    ensures
        tied(lower_value(l, e, drop)->Ok_0, pending),
    decreases e, 0nat,
{
    let at = e.location;
    let guard = *e.node->Conditional_guard;
    let then_branch = *e.node->Conditional_then_branch;
    let else_branch = e.node->Conditional_else_branch;
    let (l1, label_else) = l.fresh_label(ELSE_PREFIX@, at)->Ok_0;
    let (l2, label_end) = l1.fresh_label(MERGE_PREFIX@, at)->Ok_0;
    let with_else = pending.insert(label_else);
    let with_both = with_else.insert(label_end);
    let with_end = pending.insert(label_end);
    lemma_same(l, l2, pending);
    lemma_expr(l2, guard, false, pending);
    let guarded = lower_expr(l2, guard, false)->Ok_0;
    lemma_pending(guarded.code, pending, with_else);
    lemma_emit(guarded, Instr::BranchLabelFalse(label_else), at, with_else);
    let branched = guarded.emit(Instr::BranchLabelFalse(label_else), at);
    lemma_expr(branched, then_branch, drop, with_else);
    let then_done = lower_expr(branched, then_branch, drop)->Ok_0;
    lemma_pending(then_done.code, with_else, with_both);
    lemma_emit(then_done, Instr::JmpLabel(label_end), at, with_both);
    let jumped = then_done.emit(Instr::JmpLabel(label_end), at);
    lemma_emit(jumped, Instr::Label(label_else), at, with_both);
    let at_else = jumped.emit(Instr::Label(label_else), at);
    lemma_pending(at_else.code, with_both, with_end);
    let else_done = match else_branch {
        Some(else_body) => lower_expr(at_else, *else_body, drop)->Ok_0,
        None => if drop {
            at_else
        } else {
            at_else.emit_op(BytecodeType::PushNone, at)
        },
    };
    match else_branch {
        Some(else_body) => {
            lemma_expr(at_else, *else_body, drop, with_end);
        },
        None => {
            if !drop {
                lemma_op(at_else, BytecodeType::PushNone, at, with_end);
            }
        },
    }
    lemma_emit(else_done, Instr::Label(label_end), at, with_end);
    let done = else_done.emit(Instr::Label(label_end), at);
    lemma_pending(done.code, with_end, pending);
}

proof fn lemma_args(l: Lowering, args: Vec<Expr>, n: nat, pending: Set<Seq<char>>)
    requires
        tied(l, pending),
        lower_args(l, args, n) is Ok,
    ensures
        tied(lower_args(l, args, n)->Ok_0, pending),
    decreases args, n,
{
    if !(n == 0 || n > args.len()) {
        lemma_expr(l, args[n - 1], false, pending);
        lemma_args(lower_expr(l, args[n - 1], false)->Ok_0, args, (n - 1) as nat, pending);
    }
}

proof fn lemma_stmts(l: Lowering, stmts: Vec<Stmt>, from: nat, pending: Set<Seq<char>>)
    requires
        tied(l, pending),
        lower_stmts(l, stmts, from) is Ok,
    ensures
        tied(lower_stmts(l, stmts, from)->Ok_0, pending),
    decreases stmts, stmts.len() - from,
{
    if from < stmts.len() {
        lemma_stmt(l, stmts[from as int], pending);
        lemma_stmts(lower_stmt(l, stmts[from as int])->Ok_0, stmts, from + 1, pending);
    }
}

proof fn lemma_top(l: Lowering, stmts: Vec<Stmt>, from: nat, pending: Set<Seq<char>>)
    requires
        tied(l, pending),
        lower_top(l, stmts, from) is Ok,
    ensures
        tied(lower_top(l, stmts, from)->Ok_0, pending),
    decreases stmts, stmts.len() - from,
{
    if from < stmts.len() {
        match stmts[from as int].node {
            StmtType::Expression(e) => {
                lemma_expr(l, e, from + 1 < stmts.len(), pending);
                lemma_top(lower_expr(l, e, from + 1 < stmts.len())->Ok_0, stmts, from + 1, pending);
            },
            _ => {
                lemma_stmt(l, stmts[from as int], pending);
                lemma_top(lower_stmt(l, stmts[from as int])->Ok_0, stmts, from + 1, pending);
            },
        }
    }
}

/// What the lowering of a statement emits has its jumps bound.
pub proof fn lemma_stmt(l: Lowering, s: Stmt, pending: Set<Seq<char>>)
    requires
        tied(l, pending),
        lower_stmt(l, s) is Ok,
    ensures
        tied(lower_stmt(l, s)->Ok_0, pending),
    decreases s, 1nat,
{
    match s.node {
        StmtType::Variable { name, mutable, value } => {
            lemma_expr(l, value, false, pending);
            let valued = lower_expr(l, value, false)->Ok_0;
            match valued.state.location {
                crate::lowering::LocationView::Global => {
                    let (l1, index) = valued.intern(name@, s.location)->Ok_0;
                    lemma_intern(valued, name@, s.location, pending);
                    lemma_op(
                        l1,
                        if mutable {
                            BytecodeType::DeclVarGlobal { name: index }
                        } else {
                            BytecodeType::DeclValGlobal { name: index }
                        },
                        s.location,
                        pending,
                    );
                },
                crate::lowering::LocationView::Local(_) => {
                    lemma_declare_local(
                        valued,
                        name@,
                        mutable,
                        valued.state.local_count,
                        s.location,
                        pending,
                    );
                },
                _ => {},
            }
        },
        StmtType::AssignVariable { name, value } => {
            lemma_expr(l, value, false, pending);
            let valued = lower_expr(l, value, false)->Ok_0;
            let found = if valued.state.location is Local {
                crate::lowering::lookup(valued.state.location.scopes(), name@)
            } else {
                None
            };
            match found {
                Some(local) => lemma_op(
                    valued,
                    BytecodeType::SetLocal(local.idx),
                    value.location,
                    pending,
                ),
                None => {
                    let (l1, index) = valued.intern(name@, s.location)->Ok_0;
                    lemma_intern(valued, name@, s.location, pending);
                    lemma_op(l1, BytecodeType::SetGlobal(index), value.location, pending);
                },
            }
        },
        StmtType::Function { name, parameters, body } => {
            let (state, name_index, fun_index) = lower_function(
                l.state,
                name@,
                parameters,
                body,
                s.location,
            )->Ok_0;
            lemma_function(l.state, name@, parameters, body, s.location);
            lemma_function_def(l.with_state(state), name_index, fun_index, s.location, pending);
        },
        StmtType::Class { name, statements } => {
            lemma_class(l, name@, statements, s.location, pending);
        },
        StmtType::Top(stmts) => {
            lemma_top(l, stmts, 0, pending);
        },
        StmtType::Expression(e) => {
            lemma_expr(l, e, true, pending);
        },
        StmtType::MemberStore { left, right, val } => {
            lemma_expr(l, val, false, pending);
            let valued = lower_expr(l, val, false)->Ok_0;
            lemma_expr(valued, left, false, pending);
            let object = lower_expr(valued, left, false)->Ok_0;
            let (l1, index) = object.intern(right@, s.location)->Ok_0;
            lemma_intern(object, right@, s.location, pending);
            lemma_op(l1, BytecodeType::SetMember(index), s.location, pending);
        },
        _ => {},
    }
}

proof fn lemma_function_def(
    l: Lowering,
    name: ConstantPoolIndex,
    fun: ConstantPoolIndex,
    location: Location,
    pending: Set<Seq<char>>,
)
    requires
        tied(l, pending),
        l.function_def(name, fun, location) is Ok,
    ensures
        tied(l.function_def(name, fun, location)->Ok_0, pending),
{
    lemma_op(l, BytecodeType::PushLiteral(fun), location, pending);
    lemma_op(
        l.emit_op(BytecodeType::PushLiteral(fun), location),
        BytecodeType::DeclValGlobal { name },
        location,
        pending,
    );
}

proof fn lemma_declare_local(
    l: Lowering,
    name: Seq<char>,
    mutable: bool,
    slot: u16,
    location: Location,
    pending: Set<Seq<char>>,
)
    requires
        tied(l, pending),
        l.declare_local(name, mutable, slot, location) is Ok,
    ensures
        tied(l.declare_local(name, mutable, slot, location)->Ok_0, pending),
{
    let l1 = l.with_state(
        l.state.bind(
            name,
            crate::lowering::Local { idx: l.state.local_count, mutable },
        ).add_locals(1),
    );
    lemma_op(l1, BytecodeType::SetLocal(slot), location, pending);
}

proof fn lemma_params(
    l: Lowering,
    parameters: Seq<String>,
    from: nat,
    location: Location,
    pending: Set<Seq<char>>,
)
    requires
        tied(l, pending),
        lower_params(l, parameters, from, location) is Ok,
    ensures
        tied(lower_params(l, parameters, from, location)->Ok_0, pending),
    decreases parameters.len() - from,
{
    if from >= parameters.len() {
    } else if !(l.state.location is Local) {
        lemma_params(l, parameters, from + 1, location, pending);
    } else {
        lemma_declare_local(l, parameters[from as int]@, false, from as u16, location, pending);
        lemma_params(
            l.declare_local(parameters[from as int]@, false, from as u16, location)->Ok_0,
            parameters,
            from + 1,
            location,
            pending,
        );
    }
}


proof fn lemma_returning(l: Lowering, location: Location, pending: Set<Seq<char>>)
    requires
        tied(l, pending),
    ensures
        tied(returning(l, location), pending),
{
    let filled = if l.code.len() == 0 {
        l.emit_op(BytecodeType::PushNone, location)
    } else {
        l
    };
    if l.code.len() == 0 {
        lemma_op(l, BytecodeType::PushNone, location, pending);
    }
    if filled.code.last().instr != Instr::Op(BytecodeType::Ret) {
        lemma_op(filled, BytecodeType::Ret, location, pending);
    }
}

/// Compiling a function keeps the jumps of the pool bound.
proof fn lemma_function(
    state: CompilerView,
    name: Seq<char>,
    parameters: Vec<String>,
    body: Expr,
    location: Location,
)
    requires
        pool_bound(state.pool),
        lower_function(state, name, parameters, body, location) is Ok,
    ensures
        pool_bound(lower_function(state, name, parameters, body, location)->Ok_0.0.pool),
    decreases body, 4nat,
{
    let nothing = Set::<Seq<char>>::empty();
    let reset = CompilerView { local_count: 0, local_max: 0, ..state };
    let (named, name_index) = reset.intern(name, location)->Ok_0;
    lemma_pool_add(reset.pool, ObjectView::String(name));
    let start = Lowering { state: named.enter_scope(), code: Seq::empty() };
    assert(tied(start, nothing));
    let bound_parameters = lower_params(start, parameters@, 0, body.location)->Ok_0;
    lemma_params(start, parameters@, 0, body.location, nothing);
    let computed = lower_expr(bound_parameters, body, false)->Ok_0;
    lemma_expr(bound_parameters, body, false, nothing);
    let done = returning(computed, body.location);
    lemma_returning(computed, body.location, nothing);
    let left = done.state.leave_scope();
    let function = FunctionView {
        name: name_index,
        parameters_cnt: parameters.len() as u8,
        locals_cnt: left.local_max,
        body: done.code,
    };
    assert(left.pool == done.state.pool);
    lemma_pool_add(left.pool, ObjectView::Function(function));
}

proof fn lemma_members(
    state: CompilerView,
    members: Vec<Stmt>,
    from: nat,
    methods: Seq<ConstantPoolIndex>,
)
    requires
        pool_bound(state.pool),
        lower_members(state, members, from, methods) is Ok,
    ensures
        pool_bound(lower_members(state, members, from, methods)->Ok_0.0.pool),
    decreases members, members.len() - from,
{
    if from < members.len() {
        let member = members[from as int];
        match member.node {
            StmtType::Function { name, parameters, body } => {
                let (next, _, method) = lower_function(
                    state,
                    name@,
                    parameters,
                    body,
                    member.location,
                )->Ok_0;
                lemma_function(state, name@, parameters, body, member.location);
                lemma_members(next, members, from + 1, methods.push(method));
            },
            _ => {},
        }
    }
}

/// The constructor of a class holds no jump.
proof fn lemma_constructor_bound(class: ConstantPoolIndex)
    ensures
        bound(constructor_body(class), Set::empty()),
{
}

proof fn lemma_class(
    l: Lowering,
    name: Seq<char>,
    members: Vec<Stmt>,
    at: Location,
    pending: Set<Seq<char>>,
)
    requires
        tied(l, pending),
        lower_class(l, name, members, at) is Ok,
    ensures
        tied(lower_class(l, name, members, at)->Ok_0, pending),
    decreases members, members.len() + 1,
{
    let (named, name_index) = l.state.intern(name, at)->Ok_0;
    lemma_pool_add(l.state.pool, ObjectView::String(name));
    let (with_methods, methods) = lower_members(named, members, 0, Seq::empty())->Ok_0;
    lemma_members(named, members, 0, Seq::empty());
    let class = ObjectView::Class { name: name_index, methods };
    lemma_pool_add(with_methods.pool, class);
    let (with_class, class_index) = with_methods.add_object(class, at)->Ok_0;
    let constructor = ObjectView::Function(
        FunctionView {
            name: name_index,
            parameters_cnt: 0,
            locals_cnt: 0,
            body: constructor_body(class_index),
        },
    );
    lemma_constructor_bound(class_index);
    lemma_pool_add(with_class.pool, constructor);
    let (done, fun_index) = with_class.add_object(constructor, at)->Ok_0;
    lemma_function_def(l.with_state(done), name_index, fun_index, at, pending);
}

/// Code whose jumps all go to labels of the code can be resolved, unless
/// an offset does not fit a jump.
pub proof fn lemma_bound_resolves(code: Seq<Instruction>, all: Seq<Instruction>)
    requires
        forall|i: int|
            0 <= i < code.len() && jump_target((#[trigger] code[i]).instr) is Some ==> label_offsets(
                all,
            ).contains_key(jump_target(code[i].instr)->0),
    ensures
        resolve_all(code, label_offsets(all)) is Ok || resolve_all(code, label_offsets(all)) == Err::<
            Seq<Instruction>,
            ErrorKind,
        >(ErrorKind::PoolOverflow),
    decreases code.len(),
{
    if code.len() > 0 {
        assert forall|i: int|
            0 <= i < code.drop_last().len() && jump_target(
                (#[trigger] code.drop_last()[i]).instr,
            ) is Some implies label_offsets(all).contains_key(
            jump_target(code.drop_last()[i].instr)->0,
        ) by {
            assert(code.drop_last()[i] == code[i]);
        }
        lemma_bound_resolves(code.drop_last(), all);
        assert(code[code.len() - 1] == code.last());
    }
}

/// The jumps of a pool in which every jump of every function goes to a
/// label of the function can be resolved, unless an offset does not fit a
/// jump.
pub proof fn lemma_pool_bound_resolves(pool: Seq<ObjectView>)
    requires
        pool_bound(pool),
    ensures
        resolve_pool(pool) is Ok || resolve_pool(pool) == Err::<Seq<ObjectView>, ErrorKind>(
            ErrorKind::PoolOverflow,
        ),
    decreases pool.len(),
{
    if pool.len() > 0 {
        assert forall|i: int| 0 <= i < pool.drop_last().len() implies match #[trigger] pool.drop_last()[i] {
            ObjectView::Function(f) => bound(f.body, Set::empty()),
            _ => true,
        } by {
            assert(pool.drop_last()[i] == pool[i]);
        }
        lemma_pool_bound_resolves(pool.drop_last());
        assert(pool[pool.len() - 1] == pool.last());
        match pool.last() {
            ObjectView::Function(f) => {
                lemma_bound_resolves(f.body, f.body);
            },
            _ => {},
        }
    }
}

/// The compilation of a program does not fail for a jump to a label that
/// was never placed: where the jumps of a lowered program cannot be
/// resolved, an offset does not fit a jump.
pub proof fn lemma_lowered_resolves(ast: Stmt)
    requires
        lowered(ast) is Ok,
    ensures
        resolve_pool(lowered(ast)->Ok_0.0) is Ok || resolve_pool(lowered(ast)->Ok_0.0) == Err::<
            Seq<ObjectView>,
            ErrorKind,
        >(ErrorKind::PoolOverflow),
{
    let nothing = Set::<Seq<char>>::empty();
    let start = CompilerView::initial();
    let (named, main_name) = start.intern(crate::lowering::MAIN@, ast.location)->Ok_0;
    assert(pool_bound(start.pool));
    lemma_pool_add(start.pool, ObjectView::String(crate::lowering::MAIN@));
    let l = Lowering { state: named, code: Seq::empty() };
    assert(tied(l, nothing));
    let body = lower_stmt(l, ast)->Ok_0;
    lemma_stmt(l, ast, nothing);
    lemma_op(body, BytecodeType::Ret, ast.location, nothing);
    let main = FunctionView {
        name: main_name,
        parameters_cnt: 0,
        locals_cnt: body.state.local_max,
        body: body.emit_op(BytecodeType::Ret, ast.location).code,
    };
    lemma_pool_add(body.state.pool, ObjectView::Function(main));
    let (done, entry) = body.state.add_object(ObjectView::Function(main), ast.location)->Ok_0;
    lemma_pool_bound_resolves(done.pool);
}

} // verus!
