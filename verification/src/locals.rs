use vstd::prelude::*;
use crate::ast::{Expr, ExprType, Stmt, StmtType};
use crate::bytecode::{operation, BytecodeType, ConstantPoolIndex, Instr, Instruction, LocalIndex};
use crate::compiler::{lemma_bind_bindings, lemma_enter_scope_wf};
use crate::lowering::{
    bindings, constructor_body, lookup, lower_args, lower_class, lower_expr, lower_function,
    lower_members, lower_params, lower_stmt, lower_stmts, lower_top, lower_value, returning,
    scopes_finite, CompilerView, Local, LocationView, Lowering, Scope, ELSE_PREFIX, MERGE_PREFIX,
};
use crate::compiler::compiled;
use crate::error::ErrorKind;
use crate::jumps::{resolve_all, resolve_pool, resolved};
use crate::objects::{pool_add, FunctionView, ObjectView};
use crate::utils::Location;

verus! {

/// The number of local slots that an instruction asks for: one more than
/// the slot that it reads or writes, none where it touches no local.
pub open spec fn slot_of(instr: Instr) -> nat {
    match instr {
        Instr::Op(BytecodeType::GetLocal(i)) => i as nat + 1,
        Instr::Op(BytecodeType::SetLocal(i)) => i as nat + 1,
        _ => 0,
    }
}

/// The number of local slots that code asks for: one more than the largest
/// slot that any of its instructions reads or writes, none where no
/// instruction touches a local.
pub open spec fn slots_needed(code: Seq<Instruction>) -> nat
    decreases code.len(),
{
    if code.len() == 0 {
        0
    } else {
        let before = slots_needed(code.drop_last());
        let last = slot_of(code.last().instr);
        if last > before {
            last
        } else {
            before
        }
    }
}

/// Every binding has a slot below the number of bindings of its scope and
/// of the scopes around it: slots are handed out in order.
pub open spec fn ordered(env: Seq<Scope>) -> bool {
    forall|i: int, name: Seq<char>|
        0 <= i < env.len() && #[trigger] env[i].contains_key(name) ==> env[i][name].idx < bindings(
            env.subrange(0, i + 1),
        )
}

/// The function that the compiler gives every class as its constructor.
pub open spec fn is_constructor(f: FunctionView) -> bool {
    exists|class: ConstantPoolIndex| f.body == #[trigger] constructor_body(class)
}

/// A function has as many local slots as its body asks for; a constructor
/// has none on record.
pub open spec fn function_tidy(f: FunctionView) -> bool {
    f.locals_cnt == slots_needed(f.body) || (is_constructor(f) && f.locals_cnt == 0)
}

/// `function_tidy` of every function of the pool.
pub open spec fn pool_tidy(pool: Seq<ObjectView>) -> bool {
    forall|i: int|
        0 <= i < pool.len() ==> match #[trigger] pool[i] {
            ObjectView::Function(f) => function_tidy(f),
            _ => true,
        }
}

/// What holds of the state of a compiler between any two steps.
pub open spec fn tidy_state(state: CompilerView) -> bool {
    &&& state.wf()
    &&& ordered(state.location.scopes())
    &&& pool_tidy(state.pool)
}

/// What holds of a compilation between any two steps: the code of the
/// function under compilation asks for as many local slots as the maximum
/// on record.
pub open spec fn tidy(l: Lowering) -> bool {
    &&& tidy_state(l.state)
    &&& slots_needed(l.code) == l.state.local_max
}

/// From `l` to `l2` the compilation stayed tidy and in its place.
pub open spec fn kept_tidy(l: Lowering, l2: Lowering) -> bool {
    tidy(l2) && l.state.location.same_shape(l2.state.location)
}

proof fn lemma_ordered_drop_last(env: Seq<Scope>)
    requires
        ordered(env),
        env.len() > 0,
    ensures
        ordered(env.drop_last()),
{
    let outer = env.drop_last();
    assert forall|i: int, name: Seq<char>|
        0 <= i < outer.len() && #[trigger] outer[i].contains_key(name) implies outer[i][name].idx
        < bindings(outer.subrange(0, i + 1)) by {
        assert(outer[i] == env[i]);
        assert(env[i].contains_key(name));
        assert(outer.subrange(0, i + 1) =~= env.subrange(0, i + 1));
    }
}

/// A name that is bound has a slot below the number of bindings.
proof fn lemma_lookup_bound(env: Seq<Scope>, name: Seq<char>)
    requires
        ordered(env),
        lookup(env, name) is Some,
    ensures
        lookup(env, name)->0.idx < bindings(env),
    decreases env.len(),
{
    if env.len() > 0 {
        if env.last().contains_key(name) {
            assert(env[env.len() - 1].contains_key(name));
            assert(env.subrange(0, env.len() as int) =~= env);
        } else {
            lemma_ordered_drop_last(env);
            lemma_lookup_bound(env.drop_last(), name);
        }
    }
}

proof fn lemma_pool_add(pool: Seq<ObjectView>, obj: ObjectView)
    requires
        pool_tidy(pool),
        pool_add(pool, obj) is Ok,
        match obj {
            ObjectView::Function(f) => function_tidy(f),
            _ => true,
        },
    ensures
        pool_tidy(pool_add(pool, obj)->Ok_0.0),
{
    let after = pool_add(pool, obj)->Ok_0.0;
    assert forall|i: int| 0 <= i < after.len() implies match #[trigger] after[i] {
        ObjectView::Function(f) => function_tidy(f),
        _ => true,
    } by {
        if i < pool.len() {
            assert(after[i] == pool[i]);
        }
    }
}

proof fn lemma_intern(l: Lowering, name: Seq<char>, location: Location)
    requires
        tidy(l),
        l.intern(name, location) is Ok,
    ensures
        kept_tidy(l, l.intern(name, location)->Ok_0.0),
        l.intern(name, location)->Ok_0.0.code == l.code,
        l.intern(name, location)->Ok_0.0.state.local_count == l.state.local_count,
{
    lemma_pool_add(l.state.pool, ObjectView::String(name));
}

proof fn lemma_emit(l: Lowering, instr: Instr, location: Location)
    requires
        tidy(l),
        slot_of(instr) <= l.state.local_max,
    ensures
        kept_tidy(l, l.emit(instr, location)),
        l.emit(instr, location).state == l.state,
{
    let l2 = l.emit(instr, location);
    assert(l2.code.drop_last() =~= l.code);
}

proof fn lemma_named(
    l: Lowering,
    name: Seq<char>,
    op: spec_fn(ConstantPoolIndex) -> BytecodeType,
    location: Location,
)
    requires
        tidy(l),
        l.named(name, op, location) is Ok,
        forall|i: ConstantPoolIndex| slot_of(Instr::Op(#[trigger] op(i))) == 0,
    ensures
        kept_tidy(l, l.named(name, op, location)->Ok_0),
{
    let (l1, index) = l.intern(name, location)->Ok_0;
    lemma_intern(l, name, location);
    lemma_emit(l1, Instr::Op(op(index)), location);
}

proof fn lemma_access_variable(l: Lowering, name: Seq<char>, location: Location)
    requires
        tidy(l),
        l.access_variable(name, location) is Ok,
    ensures
        kept_tidy(l, l.access_variable(name, location)->Ok_0),
{
    match lookup(l.state.location.scopes(), name) {
        Some(local) => {
            lemma_lookup_bound(l.state.location.scopes(), name);
            lemma_emit(l, Instr::Op(BytecodeType::GetLocal(local.idx)), location);
        },
        None => {
            let (l1, index) = l.intern(name, location)->Ok_0;
            lemma_intern(l, name, location);
            lemma_emit(l1, Instr::Op(BytecodeType::GetGlobal(index)), location);
        },
    }
}

proof fn lemma_call(l: Lowering, name: Seq<char>, arg_cnt: nat, location: Location)
    requires
        tidy(l),
        l.call(name, arg_cnt, location) is Ok,
    ensures
        kept_tidy(l, l.call(name, arg_cnt, location)->Ok_0),
{
    if name == crate::lowering::PRINT@ {
        lemma_emit(l, Instr::Op(BytecodeType::Print { arg_cnt: arg_cnt as u8 }), location);
    } else {
        let (l1, index) = l.intern(name, location)->Ok_0;
        lemma_intern(l, name, location);
        let l2 = l1.emit_op(BytecodeType::GetGlobal(index), location);
        lemma_emit(l1, Instr::Op(BytecodeType::GetGlobal(index)), location);
        lemma_emit(l2, Instr::Op(BytecodeType::CallFunc { arg_cnt: arg_cnt as u8 }), location);
    }
}

proof fn lemma_dispatch(l: Lowering, name: Seq<char>, arg_cnt: nat, location: Location)
    requires
        tidy(l),
        l.dispatch(name, arg_cnt, location) is Ok,
    ensures
        kept_tidy(l, l.dispatch(name, arg_cnt, location)->Ok_0),
{
    let (l1, index) = l.intern(name, location)->Ok_0;
    lemma_intern(l, name, location);
    lemma_emit(
        l1,
        Instr::Op(BytecodeType::DispatchMethod { name: index, arg_cnt: arg_cnt as u8 }),
        location,
    );
}

/// Binding a name to the next slot keeps the slots in order.
proof fn lemma_bind_ordered(env: Seq<Scope>, name: Seq<char>, local: Local)
    requires
        env.len() > 0,
        scopes_finite(env),
        ordered(env),
        !env.last().contains_key(name),
        local.idx == bindings(env),
    ensures
        ordered(env.update(env.len() - 1, env.last().insert(name, local))),
{
    let after = env.update(env.len() - 1, env.last().insert(name, local));
    lemma_bind_bindings(env, name, local);
    assert forall|i: int, other: Seq<char>|
        0 <= i < after.len() && #[trigger] after[i].contains_key(other) implies after[i][other].idx
        < bindings(after.subrange(0, i + 1)) by {
        if i < env.len() - 1 {
            assert(after[i] == env[i]);
            assert(env[i].contains_key(other));
            assert(after.subrange(0, i + 1) =~= env.subrange(0, i + 1));
        } else {
            assert(after.subrange(0, i + 1) =~= after);
            assert(env.subrange(0, i + 1) =~= env);
            if other != name {
                assert(env[i].contains_key(other));
                assert(after[i][other] == env[i][other]);
            }
        }
    }
}

proof fn lemma_declare_local(
    l: Lowering,
    name: Seq<char>,
    mutable: bool,
    slot: LocalIndex,
    location: Location,
)
    requires
        tidy(l),
        l.state.location.scopes().len() >= 1,
        slot == l.state.local_count,
        l.declare_local(name, mutable, slot, location) is Ok,
    ensures
        kept_tidy(l, l.declare_local(name, mutable, slot, location)->Ok_0),
        l.declare_local(name, mutable, slot, location)->Ok_0.state.local_count
            == l.state.local_count + 1,
{
    let env = l.state.location.scopes();
    let local = Local { idx: l.state.local_count, mutable };
    lemma_bind_bindings(env, name, local);
    lemma_bind_ordered(env, name, local);
    let bound = l.state.bind(name, local).add_locals(1);
    let l1 = l.with_state(bound);
    let l2 = l1.emit_op(BytecodeType::SetLocal(slot), location);
    assert(bound.location.scopes() == env.update(env.len() - 1, env.last().insert(name, local)));
    assert(l2.code.drop_last() =~= l.code);
}

proof fn lemma_declare(l: Lowering, name: Seq<char>, mutable: bool, location: Location)
    requires
        tidy(l),
        l.declare(name, mutable, location) is Ok,
    ensures
        kept_tidy(l, l.declare(name, mutable, location)->Ok_0),
{
    match l.state.location {
        LocationView::Global => {
            let (l1, index) = l.intern(name, location)->Ok_0;
            lemma_intern(l, name, location);
            let op = if mutable {
                BytecodeType::DeclVarGlobal { name: index }
            } else {
                BytecodeType::DeclValGlobal { name: index }
            };
            lemma_emit(l1, Instr::Op(op), location);
        },
        LocationView::Local(_) => {
            lemma_declare_local(l, name, mutable, l.state.local_count, location);
        },
        LocationView::Class(_) => {},
    }
}

proof fn lemma_assign(l: Lowering, name: Seq<char>, at: Location, location: Location)
    requires
        tidy(l),
        l.assign(name, at, location) is Ok,
    ensures
        kept_tidy(l, l.assign(name, at, location)->Ok_0),
{
    let found = if l.state.location is Local {
        lookup(l.state.location.scopes(), name)
    } else {
        None
    };
    match found {
        Some(local) => {
            lemma_lookup_bound(l.state.location.scopes(), name);
            lemma_emit(l, Instr::Op(BytecodeType::SetLocal(local.idx)), at);
        },
        None => {
            let (l1, index) = l.intern(name, location)->Ok_0;
            lemma_intern(l, name, location);
            lemma_emit(l1, Instr::Op(BytecodeType::SetGlobal(index)), at);
        },
    }
}

proof fn lemma_function_def(
    l: Lowering,
    name: ConstantPoolIndex,
    fun: ConstantPoolIndex,
    location: Location,
)
    requires
        tidy(l),
        l.function_def(name, fun, location) is Ok,
    ensures
        kept_tidy(l, l.function_def(name, fun, location)->Ok_0),
{
    let l1 = l.emit_op(BytecodeType::PushLiteral(fun), location);
    lemma_emit(l, Instr::Op(BytecodeType::PushLiteral(fun)), location);
    lemma_emit(l1, Instr::Op(BytecodeType::DeclValGlobal { name }), location);
}

proof fn lemma_enter(l: Lowering)
    requires
        tidy(l),
    ensures
        tidy(l.with_state(l.state.enter_scope())),
        l.state.enter_scope().location.scopes().len() == l.state.location.scopes().len() + 1,
        l.state.enter_scope().local_count == l.state.local_count,
        l.state.location is Global ==> l.state.enter_scope().location is Local,
        l.state.location is Local ==> l.state.enter_scope().location is Local,
        l.state.location is Class ==> l.state.enter_scope().location is Class,
{
    lemma_enter_scope_wf(l.state);
    let env = l.state.location.scopes();
    let fresh: Scope = Map::empty();
    let after = l.state.enter_scope().location.scopes();
    assert(after =~= env.push(fresh));
    assert forall|i: int, name: Seq<char>|
        0 <= i < after.len() && #[trigger] after[i].contains_key(name) implies after[i][name].idx
        < bindings(after.subrange(0, i + 1)) by {
        if i < env.len() {
            assert(after[i] == env[i]);
            assert(env[i].contains_key(name));
            assert(after.subrange(0, i + 1) =~= env.subrange(0, i + 1));
        }
    }
}

proof fn lemma_leave(l: Lowering)
    requires
        tidy(l),
        l.state.location.scopes().len() >= 1,
    ensures
        tidy(l.with_state(l.state.leave_scope())),
        l.state.leave_scope().location.scopes() == l.state.location.scopes().drop_last(),
        l.state.location is Class ==> l.state.leave_scope().location is Class,
        l.state.location is Local ==> (if l.state.location.scopes().len() == 1 {
            l.state.leave_scope().location is Global
        } else {
            l.state.leave_scope().location is Local
        }),
{
    let env = l.state.location.scopes();
    let after = l.state.leave_scope().location.scopes();
    assert(after =~= env.drop_last());
    lemma_ordered_drop_last(env);
    assert forall|i: int| 0 <= i < after.len() implies (#[trigger] after[i]).dom().finite() by {
        assert(after[i] == env[i]);
    }
}


/// The lowering of an expression keeps the compilation tidy.
pub proof fn lemma_expr(l: Lowering, e: Expr, drop: bool)
    requires
        tidy(l),
        lower_expr(l, e, drop) is Ok,
    ensures
        kept_tidy(l, lower_expr(l, e, drop)->Ok_0),
    decreases e, 2nat,
{
    lemma_value(l, e, drop);
    let v = lower_value(l, e, drop)->Ok_0;
    if drop {
        lemma_emit(v, Instr::Op(BytecodeType::Drop), e.location);
    }
}

proof fn lemma_value(l: Lowering, e: Expr, drop: bool)
    requires
        tidy(l),
        lower_value(l, e, drop) is Ok,
    ensures
        kept_tidy(l, lower_value(l, e, drop)->Ok_0),
    decreases e, 1nat,
{
    match e.node {
        ExprType::Block(..) => lemma_block(l, e, drop),
        ExprType::CallFunction { name, arguments } => {
            let n = arguments.len() as nat;
            lemma_args(l, arguments, n);
            lemma_call(lower_args(l, arguments, n)->Ok_0, name@, n, e.location);
        },
        ExprType::MethodCall { left, name, arguments } => {
            let n = arguments.len() as nat;
            lemma_args(l, arguments, n);
            let pushed = lower_args(l, arguments, n)->Ok_0;
            lemma_expr(pushed, *left, false);
            lemma_dispatch(lower_expr(pushed, *left, false)->Ok_0, name@, n, e.location);
        },
        ExprType::Conditional { .. } => lemma_conditional(l, e, drop),
        ExprType::Operator { op, arguments } => {
            let n = arguments.len() as nat;
            lemma_args(l, arguments, n);
            lemma_emit(lower_args(l, arguments, n)->Ok_0, Instr::Op(operation(op)), e.location);
        },
        ExprType::MemberRead { left, right } => {
            lemma_expr(l, *left, false);
            lemma_named(
                lower_expr(l, *left, false)->Ok_0,
                right@,
                |i: ConstantPoolIndex| BytecodeType::GetMember(i),
                e.location,
            );
        },
        ExprType::Integer(v) => lemma_emit(l, Instr::Op(BytecodeType::PushInt(v)), e.location),
        ExprType::Bool(v) => lemma_emit(l, Instr::Op(BytecodeType::PushBool(v)), e.location),
        ExprType::NoneVal => lemma_emit(l, Instr::Op(BytecodeType::PushNone), e.location),
        ExprType::String(text) => lemma_named(
            l,
            text@,
            |i: ConstantPoolIndex| BytecodeType::PushLiteral(i),
            e.location,
        ),
        ExprType::AccessVariable { name } => lemma_access_variable(l, name@, e.location),
        _ => {},
    }
}

proof fn lemma_block(l: Lowering, e: Expr, drop: bool)
    requires
        tidy(l),
        lower_value(l, e, drop) is Ok,
        e.node is Block,
    ensures
        kept_tidy(l, lower_value(l, e, drop)->Ok_0),
    decreases e, 0nat,
{
    let stmts = e.node->Block_0;
    let tail = *e.node->Block_1;
    let entered = l.with_state(l.state.enter_scope());
    let inner = lower_stmts(entered, stmts, 0)->Ok_0;
    let done = lower_expr(inner, tail, false)->Ok_0;
    lemma_enter(l);
    lemma_stmts(entered, stmts, 0);
    lemma_expr(inner, tail, false);
    lemma_leave(done);
}

proof fn lemma_conditional(l: Lowering, e: Expr, drop: bool)
    requires
        tidy(l),
        lower_value(l, e, drop) is Ok,
        e.node is Conditional,
    ensures
        kept_tidy(l, lower_value(l, e, drop)->Ok_0),
    decreases e, 0nat,
{
    let at = e.location;
    let guard = *e.node->Conditional_guard;
    let then_branch = *e.node->Conditional_then_branch;
    let else_branch = e.node->Conditional_else_branch;
    let (l1, label_else) = l.fresh_label(ELSE_PREFIX@, at)->Ok_0;
    let (l2, label_end) = l1.fresh_label(MERGE_PREFIX@, at)->Ok_0;
    let guarded = lower_expr(l2, guard, false)->Ok_0;
    let branched = guarded.emit(Instr::BranchLabelFalse(label_else), at);
    let then_done = lower_expr(branched, then_branch, drop)->Ok_0;
    let jumped = then_done.emit(Instr::JmpLabel(label_end), at);
    let at_else = jumped.emit(Instr::Label(label_else), at);
    assert(tidy(l2));
    lemma_expr(l2, guard, false);
    lemma_emit(guarded, Instr::BranchLabelFalse(label_else), at);
    lemma_expr(branched, then_branch, drop);
    lemma_emit(then_done, Instr::JmpLabel(label_end), at);
    lemma_emit(jumped, Instr::Label(label_else), at);
    let else_done = match else_branch {
        Some(else_body) => lower_expr(at_else, *else_body, drop)->Ok_0,
        None => if drop {
            at_else
        } else {
            at_else.emit_op(BytecodeType::PushNone, at)
        },
    };
    match else_branch {
        Some(else_body) => {
            lemma_expr(at_else, *else_body, drop);
        },
        None => {
            if !drop {
                lemma_emit(at_else, Instr::Op(BytecodeType::PushNone), at);
            }
        },
    }
    lemma_emit(else_done, Instr::Label(label_end), at);
}

proof fn lemma_args(l: Lowering, args: Vec<Expr>, n: nat)
    requires
        tidy(l),
        lower_args(l, args, n) is Ok,
    ensures
        kept_tidy(l, lower_args(l, args, n)->Ok_0),
    decreases args, n,
{
    if n == 0 || n > args.len() {
    } else {
        lemma_expr(l, args[n - 1], false);
        lemma_args(lower_expr(l, args[n - 1], false)->Ok_0, args, (n - 1) as nat);
    }
}

proof fn lemma_stmts(l: Lowering, stmts: Vec<Stmt>, from: nat)
    requires
        tidy(l),
        lower_stmts(l, stmts, from) is Ok,
    ensures
        kept_tidy(l, lower_stmts(l, stmts, from)->Ok_0),
    decreases stmts, stmts.len() - from,
{
    if from < stmts.len() {
        lemma_stmt(l, stmts[from as int]);
        lemma_stmts(lower_stmt(l, stmts[from as int])->Ok_0, stmts, from + 1);
    }
}

proof fn lemma_top(l: Lowering, stmts: Vec<Stmt>, from: nat)
    requires
        tidy(l),
        lower_top(l, stmts, from) is Ok,
    ensures
        kept_tidy(l, lower_top(l, stmts, from)->Ok_0),
    decreases stmts, stmts.len() - from,
{
    if from < stmts.len() {
        match stmts[from as int].node {
            StmtType::Expression(e) => {
                lemma_expr(l, e, from + 1 < stmts.len());
                lemma_top(lower_expr(l, e, from + 1 < stmts.len())->Ok_0, stmts, from + 1);
            },
            _ => {
                lemma_stmt(l, stmts[from as int]);
                lemma_top(lower_stmt(l, stmts[from as int])->Ok_0, stmts, from + 1);
            },
        }
    }
}

/// The lowering of a statement keeps the compilation tidy.
pub proof fn lemma_stmt(l: Lowering, s: Stmt)
    requires
        tidy(l),
        lower_stmt(l, s) is Ok,
    ensures
        kept_tidy(l, lower_stmt(l, s)->Ok_0),
    decreases s, 1nat,
{
    match s.node {
        StmtType::Variable { name, mutable, value } => {
            lemma_expr(l, value, false);
            lemma_declare(lower_expr(l, value, false)->Ok_0, name@, mutable, s.location);
        },
        StmtType::AssignVariable { name, value } => {
            lemma_expr(l, value, false);
            lemma_assign(lower_expr(l, value, false)->Ok_0, name@, value.location, s.location);
        },
        StmtType::Function { name, parameters, body } => {
            let (state, name_index, fun_index) = lower_function(
                l.state,
                name@,
                parameters,
                body,
                s.location,
            )->Ok_0;
            lemma_function(l.state, name@, parameters, body, s.location);
            lemma_function_def(l.with_state(state), name_index, fun_index, s.location);
        },
        StmtType::Class { name, statements } => {
            lemma_class(l, name@, statements, s.location);
        },
        StmtType::Top(stmts) => {
            lemma_top(l, stmts, 0);
        },
        StmtType::Expression(e) => {
            lemma_expr(l, e, true);
        },
        StmtType::MemberStore { left, right, val } => {
            lemma_expr(l, val, false);
            let valued = lower_expr(l, val, false)->Ok_0;
            lemma_expr(valued, left, false);
            lemma_named(
                lower_expr(valued, left, false)->Ok_0,
                right@,
                |i: ConstantPoolIndex| BytecodeType::SetMember(i),
                s.location,
            );
        },
        _ => {},
    }
}

proof fn lemma_params(l: Lowering, parameters: Seq<String>, from: nat, location: Location)
    requires
        tidy(l),
        l.state.location is Local,
        l.state.local_count == from,
        lower_params(l, parameters, from, location) is Ok,
    ensures
        kept_tidy(l, lower_params(l, parameters, from, location)->Ok_0),
    decreases parameters.len() - from,
{
    if from < parameters.len() {
        let next = l.declare_local(parameters[from as int]@, false, from as u16, location)->Ok_0;
        lemma_declare_local(l, parameters[from as int]@, false, from as u16, location);
        lemma_params(next, parameters, from + 1, location);
    }
}

proof fn lemma_returning(l: Lowering, location: Location)
    requires
        tidy(l),
    ensures
        kept_tidy(l, returning(l, location)),
        returning(l, location).state == l.state,
{
    let filled = if l.code.len() == 0 {
        l.emit_op(BytecodeType::PushNone, location)
    } else {
        l
    };
    if l.code.len() == 0 {
        lemma_emit(l, Instr::Op(BytecodeType::PushNone), location);
    }
    if filled.code.last().instr != Instr::Op(BytecodeType::Ret) {
        lemma_emit(filled, Instr::Op(BytecodeType::Ret), location);
    }
}

/// A function that is compiled at the top level has as many local slots as
/// its body asks for, and the state stays tidy.
proof fn lemma_function(
    state: CompilerView,
    name: Seq<char>,
    parameters: Vec<String>,
    body: Expr,
    location: Location,
)
    requires
        tidy_state(state),
        state.location is Global,
        lower_function(state, name, parameters, body, location) is Ok,
    ensures
        tidy_state(lower_function(state, name, parameters, body, location)->Ok_0.0),
        ({
            let after = lower_function(state, name, parameters, body, location)->Ok_0.0;
            &&& after.location is Global
            &&& after.local_count == state.local_count
            &&& after.local_max == state.local_max
        }),
    decreases body, 4nat,
{
    let reset = CompilerView { local_count: 0, local_max: 0, ..state };
    let (named, name_index) = reset.intern(name, location)->Ok_0;
    lemma_pool_add(reset.pool, ObjectView::String(name));
    let start = Lowering { state: named.enter_scope(), code: Seq::empty() };
    let outside = Lowering { state: named, code: Seq::empty() };
    assert(tidy(outside));
    lemma_enter(outside);
    let bound = lower_params(start, parameters@, 0, body.location)->Ok_0;
    lemma_params(start, parameters@, 0, body.location);
    let computed = lower_expr(bound, body, false)->Ok_0;
    lemma_expr(bound, body, false);
    let done = returning(computed, body.location);
    lemma_returning(computed, body.location);
    lemma_leave(done);
    let left = done.state.leave_scope();
    let function = FunctionView {
        name: name_index,
        parameters_cnt: parameters.len() as u8,
        locals_cnt: left.local_max,
        body: done.code,
    };
    assert(function_tidy(function));
    lemma_pool_add(left.pool, ObjectView::Function(function));
}

proof fn lemma_members(
    state: CompilerView,
    members: Vec<Stmt>,
    from: nat,
    methods: Seq<ConstantPoolIndex>,
)
    requires
        tidy_state(state),
        state.location is Global,
        lower_members(state, members, from, methods) is Ok,
    ensures
        tidy_state(lower_members(state, members, from, methods)->Ok_0.0),
        ({
            let after = lower_members(state, members, from, methods)->Ok_0.0;
            &&& after.location is Global
            &&& after.local_count == state.local_count
            &&& after.local_max == state.local_max
        }),
    decreases members, members.len() - from,
{
    if from < members.len() {
        let member = members[from as int];
        match member.node {
            StmtType::Function { name, parameters, body } => {
                let (next, _, method) = lower_function(
                    state,
                    name@,
                    parameters,
                    body,
                    member.location,
                )->Ok_0;
                lemma_function(state, name@, parameters, body, member.location);
                lemma_members(next, members, from + 1, methods.push(method));
            },
            _ => {},
        }
    }
}

proof fn lemma_class(l: Lowering, name: Seq<char>, members: Vec<Stmt>, at: Location)
    requires
        tidy(l),
        l.state.location is Global,
        lower_class(l, name, members, at) is Ok,
    ensures
        kept_tidy(l, lower_class(l, name, members, at)->Ok_0),
    decreases members, members.len() + 1,
{
    let (named, name_index) = l.state.intern(name, at)->Ok_0;
    lemma_pool_add(l.state.pool, ObjectView::String(name));
    let (with_methods, methods) = lower_members(named, members, 0, Seq::empty())->Ok_0;
    lemma_members(named, members, 0, Seq::empty());
    let class = ObjectView::Class { name: name_index, methods };
    let (with_class, class_index) = with_methods.add_object(class, at)->Ok_0;
    lemma_pool_add(with_methods.pool, class);
    let constructor = FunctionView {
        name: name_index,
        parameters_cnt: 0,
        locals_cnt: 0,
        body: constructor_body(class_index),
    };
    assert(is_constructor(constructor));
    let (done, fun_index) = with_class.add_object(ObjectView::Function(constructor), at)->Ok_0;
    lemma_pool_add(with_class.pool, ObjectView::Function(constructor));
    lemma_function_def(l.with_state(done), name_index, fun_index, at);
}


/// Jump resolution leaves the locals alone: the code asks for as many local
/// slots after it as before.
pub proof fn lemma_resolve_slots(code: Seq<Instruction>, offsets: Map<Seq<char>, nat>)
    requires
        resolve_all(code, offsets) is Ok,
    ensures
        slots_needed(resolve_all(code, offsets)->Ok_0) == slots_needed(code),
    decreases code.len(),
{
    if code.len() > 0 {
        lemma_resolve_slots(code.drop_last(), offsets);
        let done = resolve_all(code.drop_last(), offsets)->Ok_0;
        let all = resolve_all(code, offsets)->Ok_0;
        if !(code.last().instr is Label) {
            assert(all.drop_last() =~= done);
        }
    }
}

/// Jump resolution changes nothing in code without labels and without
/// jumps to labels.
pub proof fn lemma_resolve_plain(code: Seq<Instruction>, offsets: Map<Seq<char>, nat>)
    requires
        forall|i: int| 0 <= i < code.len() ==> (#[trigger] code[i]).instr is Op,
    ensures
        resolve_all(code, offsets) == Ok::<Seq<Instruction>, ErrorKind>(code),
    decreases code.len(),
{
    if code.len() > 0 {
        assert forall|i: int| 0 <= i < code.drop_last().len() implies (
        #[trigger] code.drop_last()[i]).instr is Op by {
            assert(code.drop_last()[i] == code[i]);
        }
        lemma_resolve_plain(code.drop_last(), offsets);
        assert(code[code.len() - 1].instr is Op);
        assert(code.drop_last().push(code.last()) =~= code);
    } else {
        assert(code =~= Seq::<Instruction>::empty());
    }
}

/// Jump resolution keeps a pool tidy.
pub proof fn lemma_resolve_pool_tidy(pool: Seq<ObjectView>)
    requires
        pool_tidy(pool),
        resolve_pool(pool) is Ok,
    ensures
        pool_tidy(resolve_pool(pool)->Ok_0),
    decreases pool.len(),
{
    if pool.len() > 0 {
        assert forall|i: int| 0 <= i < pool.drop_last().len() implies match #[trigger] pool.drop_last()[i] {
            ObjectView::Function(f) => function_tidy(f),
            _ => true,
        } by {
            assert(pool.drop_last()[i] == pool[i]);
        }
        lemma_resolve_pool_tidy(pool.drop_last());
        let done = resolve_pool(pool.drop_last())->Ok_0;
        let all = resolve_pool(pool)->Ok_0;
        assert(pool[pool.len() - 1] == pool.last());
        match pool.last() {
            ObjectView::Function(f) => {
                let body = resolved(f.body)->Ok_0;
                lemma_resolve_slots(f.body, crate::jumps::label_offsets(f.body));
                if is_constructor(f) && f.locals_cnt == 0 {
                    let class = choose|class: ConstantPoolIndex|
                        f.body == #[trigger] constructor_body(class);
                    lemma_resolve_plain(constructor_body(class), crate::jumps::label_offsets(f.body));
                    assert(body == constructor_body(class));
                }
                let g = FunctionView { body, ..f };
                assert(function_tidy(g));
                assert(all == done.push(ObjectView::Function(g)));
            },
            other => {
                assert(all == done.push(other));
            },
        }
        assert forall|i: int| 0 <= i < all.len() implies match #[trigger] all[i] {
            ObjectView::Function(f) => function_tidy(f),
            _ => true,
        } by {
            if i < done.len() {
                assert(all[i] == done[i]);
            }
        }
    }
}

/// Every function of a compiled program has as many local slots as its
/// body asks for; a constructor has none on record.
pub proof fn lemma_compiled_tidy(ast: Stmt)
    requires
        compiled(ast) is Ok,
    ensures
        pool_tidy(compiled(ast)->Ok_0.0),
{
    let start = CompilerView::initial();
    let (named, main_name) = start.intern(crate::lowering::MAIN@, ast.location)->Ok_0;
    assert(pool_tidy(start.pool));
    lemma_pool_add(start.pool, ObjectView::String(crate::lowering::MAIN@));
    let l = Lowering { state: named, code: Seq::empty() };
    assert(bindings(named.location.scopes()) == 0);
    assert(tidy(l));
    lemma_stmt(l, ast);
    let body = lower_stmt(l, ast)->Ok_0;
    lemma_emit(body, Instr::Op(BytecodeType::Ret), ast.location);
    let main = FunctionView {
        name: main_name,
        parameters_cnt: 0,
        locals_cnt: body.state.local_max,
        body: body.emit_op(BytecodeType::Ret, ast.location).code,
    };
    assert(function_tidy(main));
    lemma_pool_add(body.state.pool, ObjectView::Function(main));
    let (done, entry) = body.state.add_object(ObjectView::Function(main), ast.location)->Ok_0;
    lemma_resolve_pool_tidy(done.pool);
}

} // verus!
