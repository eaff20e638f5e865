use vstd::prelude::*;
use crate::ast::{Expr, ExprType, Stmt, StmtType};
use crate::bytecode::{operation, BytecodeType, ConstantPoolIndex, Instr, Instruction, LocalIndex};
use crate::compiler::compiled;
use crate::error::ErrorKind;
use crate::jumps::{resolve_all, resolve_pool, resolved};
use crate::lowering::{
    constructor_body, lookup, lower_args, lower_class, lower_expr, lower_function, lower_members,
    lower_params, lower_stmt, lower_stmts, lower_top, lower_value, returning, CompilerView, Local,
    LocationView, Lowering, ELSE_PREFIX, MERGE_PREFIX,
};
use crate::jumps::pool_resolved;
use crate::objects::{
    entries, image, lemma_find_string, method_records, object_records, pool_add, FunctionView,
    Object, ObjectView,
};
use crate::utils::Location;

verus! {

/// The index into the constant pool that an instruction holds, if it holds
/// one.
pub open spec fn pool_index(instr: Instr) -> Option<ConstantPoolIndex> {
    match instr {
        Instr::Op(BytecodeType::PushLiteral(i)) => Some(i),
        Instr::Op(BytecodeType::GetGlobal(i)) => Some(i),
        Instr::Op(BytecodeType::SetGlobal(i)) => Some(i),
        Instr::Op(BytecodeType::GetMember(i)) => Some(i),
        Instr::Op(BytecodeType::SetMember(i)) => Some(i),
        Instr::Op(BytecodeType::NewObject(i)) => Some(i),
        Instr::Op(BytecodeType::DeclValGlobal { name }) => Some(name),
        Instr::Op(BytecodeType::DeclVarGlobal { name }) => Some(name),
        Instr::Op(BytecodeType::DispatchMethod { name, .. }) => Some(name),
        _ => None,
    }
}

/// Every index into the constant pool that the code holds is below `n`.
pub open spec fn code_closed(code: Seq<Instruction>, n: nat) -> bool {
    forall|i: int|
        0 <= i < code.len() && pool_index((#[trigger] code[i]).instr) is Some ==> pool_index(
            code[i].instr,
        )->0 < n
}

/// Every index that the entry holds is the index of an entry of the pool,
/// and what a class holds as a method is a function.
pub open spec fn entry_closed(pool: Seq<ObjectView>, entry: ObjectView) -> bool {
    match entry {
        ObjectView::String(_) => true,
        ObjectView::Function(f) => f.name < pool.len() && code_closed(f.body, pool.len()),
        ObjectView::Class { name, methods } => name < pool.len() && methods_closed(pool, methods),
    }
}

/// Each of the indices is that of a function of the pool.
pub open spec fn methods_closed(pool: Seq<ObjectView>, methods: Seq<ConstantPoolIndex>) -> bool {
    forall|j: int|
        0 <= j < methods.len() ==> (#[trigger] methods[j]) < pool.len()
            && pool[methods[j] as int] is Function
}

/// `entry_closed` of every entry of the pool.
pub open spec fn pool_closed(pool: Seq<ObjectView>) -> bool {
    forall|i: int| 0 <= i < pool.len() ==> entry_closed(pool, #[trigger] pool[i])
}

/// What holds of a compilation between any two steps: the pool is closed,
/// and so is the code emitted so far.
pub open spec fn closed(l: Lowering) -> bool {
    pool_closed(l.state.pool) && code_closed(l.code, l.state.pool.len())
}

/// The pool `after` holds the entries of `before` where they were.
pub open spec fn extends(before: Seq<ObjectView>, after: Seq<ObjectView>) -> bool {
    before.len() <= after.len() && after.subrange(0, before.len() as int) == before
}

/// From `l` to `l2` the compilation stayed closed and the pool was only
/// appended to.
pub open spec fn kept_closed(l: Lowering, l2: Lowering) -> bool {
    closed(l2) && extends(l.state.pool, l2.state.pool)
}

proof fn lemma_extends_trans(a: Seq<ObjectView>, b: Seq<ObjectView>, c: Seq<ObjectView>)
    requires
        extends(a, b),
        extends(b, c),
    ensures
        extends(a, c),
{
    assert(c.subrange(0, a.len() as int) =~= c.subrange(0, b.len() as int).subrange(
        0,
        a.len() as int,
    ));
}

proof fn lemma_extends_refl(a: Seq<ObjectView>)
    ensures
        extends(a, a),
{
    assert(a.subrange(0, a.len() as int) =~= a);
}

/// What is closed in a pool is closed in every pool that extends it.
proof fn lemma_entry_stays_closed(before: Seq<ObjectView>, after: Seq<ObjectView>, entry: ObjectView)
    requires
        extends(before, after),
        entry_closed(before, entry),
    ensures
        entry_closed(after, entry),
{
    match entry {
        ObjectView::Class { name, methods } => {
            assert forall|j: int| 0 <= j < methods.len() implies (#[trigger] methods[j]) < after.len()
                && after[methods[j] as int] is Function by {
                assert(after.subrange(0, before.len() as int)[methods[j] as int]
                    == after[methods[j] as int]);
            }
        },
        _ => {},
    }
}

proof fn lemma_methods_stay_closed(
    before: Seq<ObjectView>,
    after: Seq<ObjectView>,
    methods: Seq<ConstantPoolIndex>,
)
    requires
        extends(before, after),
        methods_closed(before, methods),
    ensures
        methods_closed(after, methods),
{
    assert forall|j: int| 0 <= j < methods.len() implies (#[trigger] methods[j]) < after.len()
        && after[methods[j] as int] is Function by {
        assert(after.subrange(0, before.len() as int)[methods[j] as int] == after[methods[j] as int]);
    }
}

/// Adding an entry that is closed in the pool with it keeps the pool
/// closed. The index that the addition yields is that of the entry.
proof fn lemma_pool_add(pool: Seq<ObjectView>, obj: ObjectView)
    requires
        pool_closed(pool),
        pool_add(pool, obj) is Ok,
        entry_closed(pool.push(obj), obj),
    ensures
        pool_closed(pool_add(pool, obj)->Ok_0.0),
        extends(pool, pool_add(pool, obj)->Ok_0.0),
        pool_add(pool, obj)->Ok_0.1 < pool_add(pool, obj)->Ok_0.0.len(),
        pool_add(pool, obj)->Ok_0.0[pool_add(pool, obj)->Ok_0.1 as int] == obj,
{
    let (after, index) = pool_add(pool, obj)->Ok_0;
    match obj {
        ObjectView::String(s) => {
            lemma_find_string(pool, s, 0);
        },
        _ => {},
    }
    if after == pool {
        lemma_extends_refl(pool);
    } else {
        assert(after == pool.push(obj));
        assert(after.subrange(0, pool.len() as int) =~= pool);
        assert forall|i: int| 0 <= i < after.len() implies entry_closed(after, #[trigger] after[i]) by {
            if i < pool.len() {
                assert(after[i] == pool[i]);
                lemma_entry_stays_closed(pool, after, pool[i]);
            }
        }
    }
}

proof fn lemma_code_stays_closed(code: Seq<Instruction>, n: nat, m: nat)
    requires
        code_closed(code, n),
        n <= m,
    ensures
        code_closed(code, m),
{
}

proof fn lemma_intern(l: Lowering, name: Seq<char>, location: Location)
    requires
        closed(l),
        l.intern(name, location) is Ok,
    ensures
        kept_closed(l, l.intern(name, location)->Ok_0.0),
        l.intern(name, location)->Ok_0.1 < l.intern(name, location)->Ok_0.0.state.pool.len(),
        l.intern(name, location)->Ok_0.0.code == l.code,
{
    lemma_pool_add(l.state.pool, ObjectView::String(name));
}

proof fn lemma_state_intern(state: CompilerView, name: Seq<char>, location: Location)
    requires
        pool_closed(state.pool),
        state.intern(name, location) is Ok,
    ensures
        pool_closed(state.intern(name, location)->Ok_0.0.pool),
        extends(state.pool, state.intern(name, location)->Ok_0.0.pool),
        state.intern(name, location)->Ok_0.1 < state.intern(name, location)->Ok_0.0.pool.len(),
{
    lemma_pool_add(state.pool, ObjectView::String(name));
}

proof fn lemma_emit(l: Lowering, instr: Instr, location: Location)
    requires
        closed(l),
        pool_index(instr) is Some ==> pool_index(instr)->0 < l.state.pool.len(),
    ensures
        kept_closed(l, l.emit(instr, location)),
{
    let l2 = l.emit(instr, location);
    lemma_extends_refl(l.state.pool);
    assert forall|i: int|
        0 <= i < l2.code.len() && pool_index((#[trigger] l2.code[i]).instr) is Some implies pool_index(
        l2.code[i].instr,
    )->0 < l2.state.pool.len() by {
        if i < l.code.len() {
            assert(l2.code[i] == l.code[i]);
        }
    }
}

proof fn lemma_named(
    l: Lowering,
    name: Seq<char>,
    op: spec_fn(ConstantPoolIndex) -> BytecodeType,
    location: Location,
)
    requires
        closed(l),
        l.named(name, op, location) is Ok,
        forall|i: ConstantPoolIndex| pool_index(Instr::Op(#[trigger] op(i))) == Some(i),
    ensures
        kept_closed(l, l.named(name, op, location)->Ok_0),
{
    let (l1, index) = l.intern(name, location)->Ok_0;
    lemma_intern(l, name, location);
    lemma_emit(l1, Instr::Op(op(index)), location);
    lemma_extends_trans(
        l.state.pool,
        l1.state.pool,
        l.named(name, op, location)->Ok_0.state.pool,
    );
}

/// An instruction with the pool index of a name that is interned first.
proof fn lemma_interned(l: Lowering, name: Seq<char>, location: Location, op: BytecodeType, at: Location)
    requires
        closed(l),
        l.intern(name, location) is Ok,
        pool_index(Instr::Op(op)) is Some ==> pool_index(Instr::Op(op))
            == Some(l.intern(name, location)->Ok_0.1),
    ensures
        kept_closed(l, l.intern(name, location)->Ok_0.0.emit_op(op, at)),
{
    let (l1, index) = l.intern(name, location)->Ok_0;
    lemma_intern(l, name, location);
    lemma_emit(l1, Instr::Op(op), at);
    lemma_extends_trans(l.state.pool, l1.state.pool, l1.emit_op(op, at).state.pool);
}

proof fn lemma_access_variable(l: Lowering, name: Seq<char>, location: Location)
    requires
        closed(l),
        l.access_variable(name, location) is Ok,
    ensures
        kept_closed(l, l.access_variable(name, location)->Ok_0),
{
    match lookup(l.state.location.scopes(), name) {
        Some(local) => {
            lemma_emit(l, Instr::Op(BytecodeType::GetLocal(local.idx)), location);
        },
        None => {
            let index = l.intern(name, location)->Ok_0.1;
            lemma_interned(l, name, location, BytecodeType::GetGlobal(index), location);
        },
    }
}

proof fn lemma_call(l: Lowering, name: Seq<char>, arg_cnt: nat, location: Location)
    requires
        closed(l),
        l.call(name, arg_cnt, location) is Ok,
    ensures
        kept_closed(l, l.call(name, arg_cnt, location)->Ok_0),
{
    if name == crate::lowering::PRINT@ {
        lemma_emit(l, Instr::Op(BytecodeType::Print { arg_cnt: arg_cnt as u8 }), location);
    } else {
        let (l1, index) = l.intern(name, location)->Ok_0;
        lemma_interned(l, name, location, BytecodeType::GetGlobal(index), location);
        let l2 = l1.emit_op(BytecodeType::GetGlobal(index), location);
        lemma_emit(l2, Instr::Op(BytecodeType::CallFunc { arg_cnt: arg_cnt as u8 }), location);
        lemma_extends_trans(
            l.state.pool,
            l2.state.pool,
            l.call(name, arg_cnt, location)->Ok_0.state.pool,
        );
    }
}

proof fn lemma_dispatch(l: Lowering, name: Seq<char>, arg_cnt: nat, location: Location)
    requires
        closed(l),
        l.dispatch(name, arg_cnt, location) is Ok,
    ensures
        kept_closed(l, l.dispatch(name, arg_cnt, location)->Ok_0),
{
    let index = l.intern(name, location)->Ok_0.1;
    lemma_interned(
        l,
        name,
        location,
        BytecodeType::DispatchMethod { name: index, arg_cnt: arg_cnt as u8 },
        location,
    );
}

proof fn lemma_declare_local(
    l: Lowering,
    name: Seq<char>,
    mutable: bool,
    slot: LocalIndex,
    location: Location,
)
    requires
        closed(l),
        l.declare_local(name, mutable, slot, location) is Ok,
    ensures
        kept_closed(l, l.declare_local(name, mutable, slot, location)->Ok_0),
{
    let l1 = l.with_state(
        l.state.bind(name, Local { idx: l.state.local_count, mutable }).add_locals(1),
    );
    assert(l1.state.pool == l.state.pool);
    lemma_emit(l1, Instr::Op(BytecodeType::SetLocal(slot)), location);
}

proof fn lemma_declare(l: Lowering, name: Seq<char>, mutable: bool, location: Location)
    requires
        closed(l),
        l.declare(name, mutable, location) is Ok,
    ensures
        kept_closed(l, l.declare(name, mutable, location)->Ok_0),
{
    match l.state.location {
        LocationView::Global => {
            let index = l.intern(name, location)->Ok_0.1;
            let op = if mutable {
                BytecodeType::DeclVarGlobal { name: index }
            } else {
                BytecodeType::DeclValGlobal { name: index }
            };
            lemma_interned(l, name, location, op, location);
        },
        LocationView::Local(_) => {
            lemma_declare_local(l, name, mutable, l.state.local_count, location);
        },
        LocationView::Class(_) => {},
    }
}

proof fn lemma_assign(l: Lowering, name: Seq<char>, at: Location, location: Location)
    requires
        closed(l),
        l.assign(name, at, location) is Ok,
    ensures
        kept_closed(l, l.assign(name, at, location)->Ok_0),
{
    let found = if l.state.location is Local {
        lookup(l.state.location.scopes(), name)
    } else {
        None
    };
    match found {
        Some(local) => {
            lemma_emit(l, Instr::Op(BytecodeType::SetLocal(local.idx)), at);
        },
        None => {
            let index = l.intern(name, location)->Ok_0.1;
            lemma_interned(l, name, location, BytecodeType::SetGlobal(index), at);
        },
    }
}

proof fn lemma_function_def(
    l: Lowering,
    name: ConstantPoolIndex,
    fun: ConstantPoolIndex,
    location: Location,
)
    requires
        closed(l),
        name < l.state.pool.len(),
        fun < l.state.pool.len(),
        l.function_def(name, fun, location) is Ok,
    ensures
        kept_closed(l, l.function_def(name, fun, location)->Ok_0),
{
    let l1 = l.emit_op(BytecodeType::PushLiteral(fun), location);
    lemma_emit(l, Instr::Op(BytecodeType::PushLiteral(fun)), location);
    lemma_emit(l1, Instr::Op(BytecodeType::DeclValGlobal { name }), location);
}

/// A step that leaves pool and code alone.
proof fn lemma_same(l: Lowering, l2: Lowering)
    requires
        closed(l),
        l2.code == l.code,
        l2.state.pool == l.state.pool,
    ensures
        kept_closed(l, l2),
{
    lemma_extends_refl(l.state.pool);
}

proof fn lemma_chain(l: Lowering, l1: Lowering, l2: Lowering)
    requires
        extends(l.state.pool, l1.state.pool),
        kept_closed(l1, l2),
    ensures
        kept_closed(l, l2),
{
    lemma_extends_trans(l.state.pool, l1.state.pool, l2.state.pool);
}

/// The lowering of an expression keeps the compilation closed.
pub proof fn lemma_expr(l: Lowering, e: Expr, drop: bool)
    requires
        closed(l),
        lower_expr(l, e, drop) is Ok,
    ensures
        kept_closed(l, lower_expr(l, e, drop)->Ok_0),
    decreases e, 2nat,
{
    lemma_value(l, e, drop);
    let v = lower_value(l, e, drop)->Ok_0;
    if drop {
        lemma_emit(v, Instr::Op(BytecodeType::Drop), e.location);
    }
}

proof fn lemma_value(l: Lowering, e: Expr, drop: bool)
    requires
        closed(l),
        lower_value(l, e, drop) is Ok,
    ensures
        kept_closed(l, lower_value(l, e, drop)->Ok_0),
    decreases e, 1nat,
{
    match e.node {
        ExprType::Block(stmts, tail) => {
            let entered = l.with_state(l.state.enter_scope());
            lemma_same(l, entered);
            lemma_stmts(entered, stmts, 0);
            let inner = lower_stmts(entered, stmts, 0)->Ok_0;
            lemma_expr(inner, *tail, false);
            let done = lower_expr(inner, *tail, false)->Ok_0;
            lemma_same(done, done.with_state(done.state.leave_scope()));
            lemma_chain(l, inner, done);
        },
        ExprType::CallFunction { name, arguments } => {
            let n = arguments.len() as nat;
            lemma_args(l, arguments, n);
            let pushed = lower_args(l, arguments, n)->Ok_0;
            lemma_call(pushed, name@, n, e.location);
            lemma_chain(l, pushed, pushed.call(name@, n, e.location)->Ok_0);
        },
        ExprType::MethodCall { left, name, arguments } => {
            let n = arguments.len() as nat;
            lemma_args(l, arguments, n);
            let pushed = lower_args(l, arguments, n)->Ok_0;
            lemma_expr(pushed, *left, false);
            let received = lower_expr(pushed, *left, false)->Ok_0;
            lemma_dispatch(received, name@, n, e.location);
            lemma_chain(pushed, received, received.dispatch(name@, n, e.location)->Ok_0);
            lemma_chain(l, pushed, received.dispatch(name@, n, e.location)->Ok_0);
        },
        ExprType::Conditional { .. } => lemma_conditional(l, e, drop),
        ExprType::Operator { op, arguments } => {
            let n = arguments.len() as nat;
            lemma_args(l, arguments, n);
            lemma_emit(lower_args(l, arguments, n)->Ok_0, Instr::Op(operation(op)), e.location);
        },
        ExprType::MemberRead { left, right } => {
            lemma_expr(l, *left, false);
            let object = lower_expr(l, *left, false)->Ok_0;
            let op = |i: ConstantPoolIndex| BytecodeType::GetMember(i);
            lemma_named(object, right@, op, e.location);
            lemma_chain(l, object, object.named(right@, op, e.location)->Ok_0);
        },
        ExprType::Integer(v) => lemma_emit(l, Instr::Op(BytecodeType::PushInt(v)), e.location),
        ExprType::Bool(v) => lemma_emit(l, Instr::Op(BytecodeType::PushBool(v)), e.location),
        ExprType::NoneVal => lemma_emit(l, Instr::Op(BytecodeType::PushNone), e.location),
        ExprType::String(text) => lemma_named(
            l,
            text@,
            |i: ConstantPoolIndex| BytecodeType::PushLiteral(i),
            e.location,
        ),
        ExprType::AccessVariable { name } => lemma_access_variable(l, name@, e.location),
        _ => {},
    }
}

proof fn lemma_conditional(l: Lowering, e: Expr, drop: bool)
    requires
        closed(l),
        lower_value(l, e, drop) is Ok,
        e.node is Conditional,
    ensures
        kept_closed(l, lower_value(l, e, drop)->Ok_0),
    decreases e, 0nat,
{
    let at = e.location;
    let guard = *e.node->Conditional_guard;
    let then_branch = *e.node->Conditional_then_branch;
    let else_branch = e.node->Conditional_else_branch;
    let (l1, label_else) = l.fresh_label(ELSE_PREFIX@, at)->Ok_0;
    let (l2, label_end) = l1.fresh_label(MERGE_PREFIX@, at)->Ok_0;
    lemma_same(l, l2);
    let guarded = lower_expr(l2, guard, false)->Ok_0;
    lemma_expr(l2, guard, false);
    let branched = guarded.emit(Instr::BranchLabelFalse(label_else), at);
    lemma_emit(guarded, Instr::BranchLabelFalse(label_else), at);
    let then_done = lower_expr(branched, then_branch, drop)->Ok_0;
    lemma_expr(branched, then_branch, drop);
    let jumped = then_done.emit(Instr::JmpLabel(label_end), at);
    lemma_emit(then_done, Instr::JmpLabel(label_end), at);
    let at_else = jumped.emit(Instr::Label(label_else), at);
    lemma_emit(jumped, Instr::Label(label_else), at);
    let else_done = match else_branch {
        Some(else_body) => lower_expr(at_else, *else_body, drop)->Ok_0,
        None => if drop {
            at_else
        } else {
            at_else.emit_op(BytecodeType::PushNone, at)
        },
    };
    match else_branch {
        Some(else_body) => {
            lemma_expr(at_else, *else_body, drop);
        },
        None => {
            if drop {
                lemma_same(at_else, else_done);
            } else {
                lemma_emit(at_else, Instr::Op(BytecodeType::PushNone), at);
            }
        },
    }
    let done = else_done.emit(Instr::Label(label_end), at);
    lemma_emit(else_done, Instr::Label(label_end), at);
    lemma_extends_trans(l.state.pool, guarded.state.pool, then_done.state.pool);
    lemma_extends_trans(l.state.pool, then_done.state.pool, else_done.state.pool);
}

proof fn lemma_args(l: Lowering, args: Vec<Expr>, n: nat)
    requires
        closed(l),
        lower_args(l, args, n) is Ok,
    ensures
        kept_closed(l, lower_args(l, args, n)->Ok_0),
    decreases args, n,
{
    if n == 0 || n > args.len() {
        lemma_same(l, l);
    } else {
        lemma_expr(l, args[n - 1], false);
        let next = lower_expr(l, args[n - 1], false)->Ok_0;
        lemma_args(next, args, (n - 1) as nat);
        lemma_chain(l, next, lower_args(next, args, (n - 1) as nat)->Ok_0);
    }
}

proof fn lemma_stmts(l: Lowering, stmts: Vec<Stmt>, from: nat)
    requires
        closed(l),
        lower_stmts(l, stmts, from) is Ok,
    ensures
        kept_closed(l, lower_stmts(l, stmts, from)->Ok_0),
    decreases stmts, stmts.len() - from,
{
    if from < stmts.len() {
        lemma_stmt(l, stmts[from as int]);
        let next = lower_stmt(l, stmts[from as int])->Ok_0;
        lemma_stmts(next, stmts, from + 1);
        lemma_chain(l, next, lower_stmts(next, stmts, from + 1)->Ok_0);
    } else {
        lemma_same(l, l);
    }
}

proof fn lemma_top(l: Lowering, stmts: Vec<Stmt>, from: nat)
    requires
        closed(l),
        lower_top(l, stmts, from) is Ok,
    ensures
        kept_closed(l, lower_top(l, stmts, from)->Ok_0),
    decreases stmts, stmts.len() - from,
{
    if from < stmts.len() {
        match stmts[from as int].node {
            StmtType::Expression(e) => {
                lemma_expr(l, e, from + 1 < stmts.len());
                let next = lower_expr(l, e, from + 1 < stmts.len())->Ok_0;
                lemma_top(next, stmts, from + 1);
                lemma_chain(l, next, lower_top(next, stmts, from + 1)->Ok_0);
            },
            _ => {
                lemma_stmt(l, stmts[from as int]);
                let next = lower_stmt(l, stmts[from as int])->Ok_0;
                lemma_top(next, stmts, from + 1);
                lemma_chain(l, next, lower_top(next, stmts, from + 1)->Ok_0);
            },
        }
    } else {
        lemma_same(l, l);
    }
}

/// The lowering of a statement keeps the compilation closed.
pub proof fn lemma_stmt(l: Lowering, s: Stmt)
    requires
        closed(l),
        lower_stmt(l, s) is Ok,
    ensures
        kept_closed(l, lower_stmt(l, s)->Ok_0),
    decreases s, 1nat,
{
    match s.node {
        StmtType::Variable { name, mutable, value } => {
            lemma_expr(l, value, false);
            let valued = lower_expr(l, value, false)->Ok_0;
            lemma_declare(valued, name@, mutable, s.location);
            lemma_chain(l, valued, valued.declare(name@, mutable, s.location)->Ok_0);
        },
        StmtType::AssignVariable { name, value } => {
            lemma_expr(l, value, false);
            let valued = lower_expr(l, value, false)->Ok_0;
            lemma_assign(valued, name@, value.location, s.location);
            lemma_chain(l, valued, valued.assign(name@, value.location, s.location)->Ok_0);
        },
        StmtType::Function { name, parameters, body } => {
            let (state, name_index, fun_index) = lower_function(
                l.state,
                name@,
                parameters,
                body,
                s.location,
            )->Ok_0;
            lemma_function(l.state, name@, parameters, body, s.location);
            let defined = l.with_state(state);
            lemma_code_stays_closed(l.code, l.state.pool.len(), state.pool.len());
            lemma_function_def(defined, name_index, fun_index, s.location);
        },
        StmtType::Class { name, statements } => {
            lemma_class(l, name@, statements, s.location);
        },
        StmtType::Top(stmts) => {
            lemma_top(l, stmts, 0);
        },
        StmtType::Expression(e) => {
            lemma_expr(l, e, true);
        },
        StmtType::MemberStore { left, right, val } => {
            lemma_expr(l, val, false);
            let valued = lower_expr(l, val, false)->Ok_0;
            lemma_expr(valued, left, false);
            let object = lower_expr(valued, left, false)->Ok_0;
            let op = |i: ConstantPoolIndex| BytecodeType::SetMember(i);
            lemma_named(object, right@, op, s.location);
            lemma_chain(valued, object, object.named(right@, op, s.location)->Ok_0);
            lemma_chain(l, valued, object.named(right@, op, s.location)->Ok_0);
        },
        _ => {},
    }
}

proof fn lemma_params(l: Lowering, parameters: Seq<String>, from: nat, location: Location)
    requires
        closed(l),
        lower_params(l, parameters, from, location) is Ok,
    ensures
        kept_closed(l, lower_params(l, parameters, from, location)->Ok_0),
    decreases parameters.len() - from,
{
    if from >= parameters.len() {
        lemma_same(l, l);
    } else if !(l.state.location is Local) {
        lemma_params(l, parameters, from + 1, location);
    } else {
        let next = l.declare_local(parameters[from as int]@, false, from as u16, location)->Ok_0;
        lemma_declare_local(l, parameters[from as int]@, false, from as u16, location);
        lemma_params(next, parameters, from + 1, location);
        lemma_chain(l, next, lower_params(next, parameters, from + 1, location)->Ok_0);
    }
}

proof fn lemma_returning(l: Lowering, location: Location)
    requires
        closed(l),
    ensures
        kept_closed(l, returning(l, location)),
{
    let filled = if l.code.len() == 0 {
        l.emit_op(BytecodeType::PushNone, location)
    } else {
        l
    };
    lemma_same(l, l);
    if l.code.len() == 0 {
        lemma_emit(l, Instr::Op(BytecodeType::PushNone), location);
    }
    if filled.code.last().instr != Instr::Op(BytecodeType::Ret) {
        lemma_emit(filled, Instr::Op(BytecodeType::Ret), location);
    }
}

/// Compiling a function keeps the pool closed; the indices that it yields
/// are those of the name and of the function.
proof fn lemma_function(
    state: CompilerView,
    name: Seq<char>,
    parameters: Vec<String>,
    body: Expr,
    location: Location,
)
    requires
        pool_closed(state.pool),
        lower_function(state, name, parameters, body, location) is Ok,
    ensures
        ({
            let (after, name_index, fun_index) = lower_function(
                state,
                name,
                parameters,
                body,
                location,
            )->Ok_0;
            &&& pool_closed(after.pool)
            &&& extends(state.pool, after.pool)
            &&& name_index < after.pool.len()
            &&& fun_index < after.pool.len()
            &&& after.pool[fun_index as int] is Function
        }),
    decreases body, 4nat,
{
    let reset = CompilerView { local_count: 0, local_max: 0, ..state };
    let (named, name_index) = reset.intern(name, location)->Ok_0;
    lemma_state_intern(reset, name, location);
    let start = Lowering { state: named.enter_scope(), code: Seq::empty() };
    assert(closed(start));
    let bound = lower_params(start, parameters@, 0, body.location)->Ok_0;
    lemma_params(start, parameters@, 0, body.location);
    let computed = lower_expr(bound, body, false)->Ok_0;
    lemma_expr(bound, body, false);
    let done = returning(computed, body.location);
    lemma_returning(computed, body.location);
    lemma_extends_trans(named.pool, bound.state.pool, computed.state.pool);
    lemma_extends_trans(named.pool, computed.state.pool, done.state.pool);
    lemma_extends_trans(state.pool, named.pool, done.state.pool);
    let left = done.state.leave_scope();
    let function = FunctionView {
        name: name_index,
        parameters_cnt: parameters.len() as u8,
        locals_cnt: left.local_max,
        body: done.code,
    };
    assert(left.pool == done.state.pool);
    lemma_pool_add(left.pool, ObjectView::Function(function));
    let (added, fun_index) = left.add_object(ObjectView::Function(function), location)->Ok_0;
    lemma_extends_trans(state.pool, left.pool, added.pool);
}

proof fn lemma_members(
    state: CompilerView,
    members: Vec<Stmt>,
    from: nat,
    methods: Seq<ConstantPoolIndex>,
)
    requires
        pool_closed(state.pool),
        methods_closed(state.pool, methods),
        lower_members(state, members, from, methods) is Ok,
    ensures
        ({
            let (after, all) = lower_members(state, members, from, methods)->Ok_0;
            &&& pool_closed(after.pool)
            &&& extends(state.pool, after.pool)
            &&& methods_closed(after.pool, all)
        }),
    decreases members, members.len() - from,
{
    if from < members.len() {
        let member = members[from as int];
        match member.node {
            StmtType::Function { name, parameters, body } => {
                let (next, _, method) = lower_function(
                    state,
                    name@,
                    parameters,
                    body,
                    member.location,
                )->Ok_0;
                lemma_function(state, name@, parameters, body, member.location);
                lemma_methods_stay_closed(state.pool, next.pool, methods);
                let more = methods.push(method);
                assert forall|j: int| 0 <= j < more.len() implies (#[trigger] more[j]) < next.pool.len()
                    && next.pool[more[j] as int] is Function by {
                    if j < methods.len() {
                        assert(more[j] == methods[j]);
                    }
                }
                lemma_members(next, members, from + 1, more);
                lemma_extends_trans(
                    state.pool,
                    next.pool,
                    lower_members(next, members, from + 1, more)->Ok_0.0.pool,
                );
            },
            _ => {},
        }
    } else {
        lemma_extends_refl(state.pool);
    }
}

/// Adding a class whose name and methods are in the pool keeps the pool
/// closed.
proof fn lemma_add_class(
    pool: Seq<ObjectView>,
    name: ConstantPoolIndex,
    methods: Seq<ConstantPoolIndex>,
)
    requires
        pool_closed(pool),
        name < pool.len(),
        methods_closed(pool, methods),
        pool_add(pool, ObjectView::Class { name, methods }) is Ok,
    ensures
        ({
            let (after, index) = pool_add(pool, ObjectView::Class { name, methods })->Ok_0;
            &&& pool_closed(after)
            &&& extends(pool, after)
            &&& index < after.len()
        }),
{
    let class = ObjectView::Class { name, methods };
    assert(pool.push(class).subrange(0, pool.len() as int) =~= pool);
    lemma_methods_stay_closed(pool, pool.push(class), methods);
    lemma_pool_add(pool, class);
}

/// Adding the constructor of a class of the pool keeps the pool closed.
proof fn lemma_add_constructor(
    pool: Seq<ObjectView>,
    name: ConstantPoolIndex,
    class: ConstantPoolIndex,
)
    requires
        pool_closed(pool),
        name < pool.len(),
        class < pool.len(),
        pool_add(
            pool,
            ObjectView::Function(
                FunctionView {
                    name,
                    parameters_cnt: 0,
                    locals_cnt: 0,
                    body: constructor_body(class),
                },
            ),
        ) is Ok,
    ensures
        ({
            let (after, index) = pool_add(
                pool,
                ObjectView::Function(
                    FunctionView {
                        name,
                        parameters_cnt: 0,
                        locals_cnt: 0,
                        body: constructor_body(class),
                    },
                ),
            )->Ok_0;
            &&& pool_closed(after)
            &&& extends(pool, after)
            &&& index < after.len()
        }),
{
    let constructor = ObjectView::Function(
        FunctionView { name, parameters_cnt: 0, locals_cnt: 0, body: constructor_body(class) },
    );
    assert(code_closed(constructor_body(class), pool.len() + 1));
    lemma_pool_add(pool, constructor);
}

proof fn lemma_class(l: Lowering, name: Seq<char>, members: Vec<Stmt>, at: Location)
    requires
        closed(l),
        lower_class(l, name, members, at) is Ok,
    ensures
        kept_closed(l, lower_class(l, name, members, at)->Ok_0),
    decreases members, members.len() + 1,
{
    let (named, name_index) = l.state.intern(name, at)->Ok_0;
    lemma_state_intern(l.state, name, at);
    let (with_methods, methods) = lower_members(named, members, 0, Seq::empty())->Ok_0;
    lemma_members(named, members, 0, Seq::empty());
    let class = ObjectView::Class { name: name_index, methods };
    lemma_add_class(with_methods.pool, name_index, methods);
    let (with_class, class_index) = with_methods.add_object(class, at)->Ok_0;
    lemma_add_constructor(with_class.pool, name_index, class_index);
    let constructor = FunctionView {
        name: name_index,
        parameters_cnt: 0,
        locals_cnt: 0,
        body: constructor_body(class_index),
    };
    let (done, fun_index) = with_class.add_object(ObjectView::Function(constructor), at)->Ok_0;
    lemma_extends_trans(l.state.pool, named.pool, with_methods.pool);
    lemma_extends_trans(l.state.pool, with_methods.pool, with_class.pool);
    lemma_extends_trans(l.state.pool, with_class.pool, done.pool);
    let defined = l.with_state(done);
    lemma_code_stays_closed(l.code, l.state.pool.len(), done.pool.len());
    lemma_function_def(defined, name_index, fun_index, at);
}


/// Jump resolution leaves the indices into the pool alone.
proof fn lemma_resolve_closed(code: Seq<Instruction>, offsets: Map<Seq<char>, nat>, n: nat)
    requires
        code_closed(code, n),
        resolve_all(code, offsets) is Ok,
    ensures
        code_closed(resolve_all(code, offsets)->Ok_0, n),
    decreases code.len(),
{
    if code.len() > 0 {
        assert forall|i: int|
            0 <= i < code.drop_last().len() && pool_index(
                (#[trigger] code.drop_last()[i]).instr,
            ) is Some implies pool_index(code.drop_last()[i].instr)->0 < n by {
            assert(code.drop_last()[i] == code[i]);
        }
        lemma_resolve_closed(code.drop_last(), offsets, n);
        let done = resolve_all(code.drop_last(), offsets)->Ok_0;
        let all = resolve_all(code, offsets)->Ok_0;
        assert(code[code.len() - 1] == code.last());
        assert forall|i: int|
            0 <= i < all.len() && pool_index((#[trigger] all[i]).instr) is Some implies pool_index(
            all[i].instr,
        )->0 < n by {
            if i < done.len() {
                assert(all[i] == done[i]);
            }
        }
    }
}

/// Jump resolution keeps the number of entries of a pool and the kind of
/// each.
proof fn lemma_resolve_pool_shape(pool: Seq<ObjectView>)
    requires
        resolve_pool(pool) is Ok,
    ensures
        resolve_pool(pool)->Ok_0.len() == pool.len(),
        forall|i: int|
            0 <= i < pool.len() ==> match #[trigger] pool[i] {
                ObjectView::Function(f) => resolve_pool(pool)->Ok_0[i] is Function && resolve_pool(
                    pool,
                )->Ok_0[i]->Function_0.name == f.name && resolved(f.body)
                    == Ok::<Seq<Instruction>, ErrorKind>(resolve_pool(pool)->Ok_0[i]->Function_0.body),
                other => resolve_pool(pool)->Ok_0[i] == other,
            },
    decreases pool.len(),
{
    if pool.len() > 0 {
        lemma_resolve_pool_shape(pool.drop_last());
        let done = resolve_pool(pool.drop_last())->Ok_0;
        let all = resolve_pool(pool)->Ok_0;
        assert forall|i: int| 0 <= i < pool.len() implies match #[trigger] pool[i] {
            ObjectView::Function(f) => all[i] is Function && all[i]->Function_0.name == f.name
                && resolved(f.body) == Ok::<Seq<Instruction>, ErrorKind>(all[i]->Function_0.body),
            other => all[i] == other,
        } by {
            if i < pool.len() - 1 {
                assert(pool.drop_last()[i] == pool[i]);
                assert(all[i] == done[i]);
            } else {
                assert(pool[i] == pool.last());
            }
        }
    }
}

/// Jump resolution keeps a pool closed.
pub proof fn lemma_resolve_pool_closed(pool: Seq<ObjectView>)
    requires
        pool_closed(pool),
        resolve_pool(pool) is Ok,
    ensures
        pool_closed(resolve_pool(pool)->Ok_0),
        resolve_pool(pool)->Ok_0.len() == pool.len(),
        forall|i: int|
            0 <= i < pool.len() ==> ((#[trigger] pool[i]) is Function <==> resolve_pool(pool)->Ok_0[i] is Function),
{
    lemma_resolve_pool_shape(pool);
    let all = resolve_pool(pool)->Ok_0;
    assert forall|i: int| 0 <= i < pool.len() implies ((#[trigger] pool[i]) is Function <==> all[i] is Function) by {}
    assert forall|i: int| 0 <= i < all.len() implies entry_closed(all, #[trigger] all[i]) by {
        assert(entry_closed(pool, pool[i]));
        match pool[i] {
            ObjectView::Function(f) => {
                lemma_resolve_closed(f.body, crate::jumps::label_offsets(f.body), pool.len());
            },
            ObjectView::Class { name, methods } => {
                assert forall|j: int| 0 <= j < methods.len() implies (#[trigger] methods[j]) < all.len()
                    && all[methods[j] as int] is Function by {
                    assert(pool[methods[j] as int] is Function);
                }
            },
            _ => {},
        }
    }
}

/// Every index in a compiled program is the index of an entry of its pool:
/// the pool is closed, and the entry point is a function of it.
pub proof fn lemma_compiled_closed(ast: Stmt)
    requires
        compiled(ast) is Ok,
    ensures
        pool_closed(compiled(ast)->Ok_0.0),
        compiled(ast)->Ok_0.1 < compiled(ast)->Ok_0.0.len(),
        compiled(ast)->Ok_0.0[compiled(ast)->Ok_0.1 as int] is Function,
{
    let start = CompilerView::initial();
    let (named, main_name) = start.intern(crate::lowering::MAIN@, ast.location)->Ok_0;
    assert(pool_closed(start.pool));
    lemma_state_intern(start, crate::lowering::MAIN@, ast.location);
    let l = Lowering { state: named, code: Seq::empty() };
    assert(closed(l));
    lemma_stmt(l, ast);
    let body = lower_stmt(l, ast)->Ok_0;
    lemma_emit(body, Instr::Op(BytecodeType::Ret), ast.location);
    let main = FunctionView {
        name: main_name,
        parameters_cnt: 0,
        locals_cnt: body.state.local_max,
        body: body.emit_op(BytecodeType::Ret, ast.location).code,
    };
    lemma_pool_add(body.state.pool, ObjectView::Function(main));
    let (done, entry) = body.state.add_object(ObjectView::Function(main), ast.location)->Ok_0;
    lemma_resolve_pool_closed(done.pool);
}

/// The records of methods that are functions of the pool, none of which
/// holds a label, can be written unless something overflows.
proof fn lemma_method_records_closed(pool: Seq<Object>, methods: Seq<ConstantPoolIndex>)
    requires
        pool_resolved(pool),
        methods_closed(entries(pool), methods),
    ensures
        method_records(pool, methods) is Ok || method_records(pool, methods) == Err::<
            Seq<u8>,
            ErrorKind,
        >(ErrorKind::PoolOverflow),
    decreases methods.len(),
{
    if methods.len() > 0 {
        assert forall|j: int| 0 <= j < methods.drop_last().len() implies (
        #[trigger] methods.drop_last()[j]) < entries(pool).len() && entries(
            pool,
        )[methods.drop_last()[j] as int] is Function by {
            assert(methods.drop_last()[j] == methods[j]);
        }
        lemma_method_records_closed(pool, methods.drop_last());
        let m = methods[methods.len() - 1];
        assert(m == methods.last());
        assert(entries(pool)[m as int] is Function);
        assert(entries(pool)[m as int] == pool[m as int]@);
        assert(pool[m as int] is Function);
    }
}

/// A pool that is closed and holds no label can be written unless
/// something overflows.
proof fn lemma_object_records_closed(pool: Seq<Object>, n: nat)
    requires
        n <= pool.len(),
        pool_resolved(pool),
        pool_closed(entries(pool)),
    ensures
        object_records(pool, n) is Ok || object_records(pool, n) == Err::<Seq<u8>, ErrorKind>(
            ErrorKind::PoolOverflow,
        ),
    decreases n,
{
    if n > 0 {
        lemma_object_records_closed(pool, (n - 1) as nat);
        let obj = pool[n - 1];
        assert(entry_closed(entries(pool), entries(pool)[n - 1]));
        assert(entries(pool)[n - 1] == obj@);
        match obj {
            Object::Class { name, methods } => {
                lemma_method_records_closed(pool, methods@);
            },
            _ => {},
        }
    }
}

/// The image of a pool that is closed and holds no label can be written
/// unless something overflows.
pub proof fn lemma_image_of_closed_pool(pool: Seq<Object>, entry_point: ConstantPoolIndex)
    requires
        pool_resolved(pool),
        pool_closed(entries(pool)),
    ensures
        image(pool, entry_point) is Ok || image(pool, entry_point) == Err::<Seq<u8>, ErrorKind>(
            ErrorKind::PoolOverflow,
        ),
{
    lemma_object_records_closed(pool, pool.len());
}

} // verus!
