use vstd::prelude::*;
use crate::ast::{Expr, ExprType, Stmt, StmtType};
use crate::bytecode::{operation, BytecodeType, ConstantPoolIndex, Instr, Instruction, LocalIndex};
use crate::lowering::{
    lower_args, lower_class, lower_expr, lower_function, lower_members, lower_params, lower_stmt,
    lower_stmts, lower_top, lower_value, CompilerView, Lowering, ELSE_PREFIX, MERGE_PREFIX,
};
use crate::utils::{decimal, digit_char, label_text, Location};

verus! {

/// Two numbers with the same decimal numeral are the same number.
pub proof fn lemma_decimal_injective(n: nat, m: nat)
    requires
        decimal(n) == decimal(m),
    ensures
        n == m,
    decreases n,
{
    lemma_decimal_len(n);
    lemma_decimal_len(m);
    if n < 10 {
        if m >= 10 {
            lemma_decimal_len(m / 10);
            assert(decimal(m).len() >= 2);
        }
        assert(decimal(n)[0] == digit_char(n));
        assert(decimal(m)[0] == digit_char(m));
    } else {
        if m < 10 {
            lemma_decimal_len(n / 10);
            assert(decimal(n).len() >= 2);
        }
        let a = decimal(n / 10);
        let b = decimal(m / 10);
        assert(decimal(n).last() == digit_char(n % 10));
        assert(decimal(m).last() == digit_char(m % 10));
        assert(decimal(n).drop_last() =~= a);
        assert(decimal(m).drop_last() =~= b);
        lemma_decimal_injective(n / 10, m / 10);
    }
}

/// A decimal numeral has at least one digit.
pub proof fn lemma_decimal_len(n: nat)
    ensures
        decimal(n).len() >= 1,
    decreases n,
{
    if n >= 10 {
        lemma_decimal_len(n / 10);
    }
}

/// Labels with one prefix and different counters differ.
pub proof fn lemma_label_text_injective(prefix: Seq<char>, n: nat, m: nat)
    requires
        label_text(prefix, n) == label_text(prefix, m),
    ensures
        n == m,
{
    let a = label_text(prefix, n);
    let b = label_text(prefix, m);
    let k = prefix.len() + 1;
    assert(a.subrange(k as int, a.len() as int) =~= decimal(n));
    assert(b.subrange(k as int, b.len() as int) =~= decimal(m));
    lemma_decimal_injective(n, m);
}

/// The labels of the two kinds that a conditional uses differ, whatever
/// their counters.
pub proof fn lemma_else_is_not_merge(n: nat, m: nat)
    ensures
        label_text(ELSE_PREFIX@, n) != label_text(MERGE_PREFIX@, m),
{
    reveal_strlit("if_else");
    reveal_strlit("if_merge");
    let a = label_text(ELSE_PREFIX@, n);
    let b = label_text(MERGE_PREFIX@, m);
    assert(a[3] == 'e');
    assert(b[3] == 'm');
}


/// By how much an instruction changes the depth of the operand stack: what
/// it pushes less what it pops. A call pops the function and its arguments
/// and pushes the result; a method call pops the receiver and the arguments
/// and pushes the result; printing pops the arguments and pushes none; a
/// conditional jump pops the condition; a return pops the value returned.
pub open spec fn stack_delta(op: BytecodeType) -> int {
    match op {
        BytecodeType::PushShort(_)
        | BytecodeType::PushInt(_)
        | BytecodeType::PushLong(_)
        | BytecodeType::PushBool(_)
        | BytecodeType::PushLiteral(_)
        | BytecodeType::PushNone
        | BytecodeType::GetLocal(_)
        | BytecodeType::GetGlobal(_)
        | BytecodeType::NewObject(_)
        | BytecodeType::Dup => 1,
        BytecodeType::SetLocal(_)
        | BytecodeType::DeclValGlobal { .. }
        | BytecodeType::DeclVarGlobal { .. }
        | BytecodeType::SetGlobal(_)
        | BytecodeType::Ret
        | BytecodeType::Drop
        | BytecodeType::BranchLabel(_)
        | BytecodeType::BranchLabelFalse(_)
        | BytecodeType::BranchShort(_)
        | BytecodeType::Branch(_)
        | BytecodeType::BranchLong(_)
        | BytecodeType::BranchShortFalse(_)
        | BytecodeType::BranchFalse(_)
        | BytecodeType::BranchLongFalse(_)
        | BytecodeType::Iadd
        | BytecodeType::Isub
        | BytecodeType::Imul
        | BytecodeType::Idiv
        | BytecodeType::Mod
        | BytecodeType::Iand
        | BytecodeType::Ior
        | BytecodeType::Iless
        | BytecodeType::Ilesseq
        | BytecodeType::Igreater
        | BytecodeType::Igreatereq
        | BytecodeType::Ieq
        | BytecodeType::Neq => -1,
        BytecodeType::SetMember(_) => -2,
        BytecodeType::CallFunc { arg_cnt } => -(arg_cnt as int),
        BytecodeType::DispatchMethod { arg_cnt, .. } => -(arg_cnt as int),
        BytecodeType::Print { arg_cnt } => 1 - arg_cnt as int,
        BytecodeType::Dropn(cnt) => -(cnt as int),
        BytecodeType::GetMember(_)
        | BytecodeType::Ineg
        | BytecodeType::Label(_)
        | BytecodeType::JmpLabel(_)
        | BytecodeType::JmpShort(_)
        | BytecodeType::Jmp(_)
        | BytecodeType::JmpLong(_) => 0,
    }
}

/// A simulation of the operand stack over code with labels: the depth of
/// the stack where the simulation stands, or nothing behind a jump, where
/// no instruction is reached until a label; the depth with which the jumps
/// seen so far arrive at each label that is still to come; and whether all
/// ways into each label seen so far arrived with one depth.
pub struct Simulation {
    pub consistent: bool,
    pub depth: Option<int>,
    pub pending: Map<Seq<char>, int>,
}

impl Simulation {
    /// The simulation at the start of code, on a stack of the given depth.
    pub open spec fn start(depth: int) -> Simulation {
        Simulation { consistent: true, depth: Some(depth), pending: Map::empty() }
    }

    /// Records that a jump arrives at `label` with the stack at `depth`.
    pub open spec fn expect(self, label: Seq<char>, depth: int) -> Simulation {
        if self.pending.contains_key(label) {
            Simulation { consistent: self.consistent && self.pending[label] == depth, ..self }
        } else {
            Simulation { pending: self.pending.insert(label, depth), ..self }
        }
    }

    /// The simulation after one more instruction.
    pub open spec fn step(self, instr: Instr) -> Simulation {
        match instr {
            Instr::Label(name) => if self.pending.contains_key(name) {
                Simulation {
                    consistent: self.consistent && (self.depth is Some ==> self.depth->0
                        == self.pending[name]),
                    depth: Some(self.pending[name]),
                    pending: self.pending.remove(name),
                }
            } else {
                self
            },
            Instr::JmpLabel(name) => match self.depth {
                Some(d) => Simulation { depth: None, ..self.expect(name, d) },
                None => self,
            },
            Instr::BranchLabel(name) | Instr::BranchLabelFalse(name) => match self.depth {
                Some(d) => Simulation { depth: Some(d - 1), ..self.expect(name, d - 1) },
                None => self,
            },
            Instr::Op(op) => match self.depth {
                Some(d) => Simulation { depth: Some(d + stack_delta(op)), ..self },
                None => self,
            },
        }
    }

    /// The simulation after the instructions of `code`.
    pub open spec fn scan(self, code: Seq<Instruction>) -> Simulation
        decreases code.len(),
    {
        if code.len() == 0 {
            self
        } else {
            self.scan(code.drop_last()).step(code.last().instr)
        }
    }

    /// No jump is pending to a label that the compiler makes from the
    /// counter value `n` on.
    pub open spec fn older(self, n: nat) -> bool {
        &&& forall|k: nat|
            k >= n ==> !self.pending.contains_key(#[trigger] label_text(ELSE_PREFIX@, k))
        &&& forall|k: nat|
            k >= n ==> !self.pending.contains_key(#[trigger] label_text(MERGE_PREFIX@, k))
    }
}

/// Simulating two pieces of code one after the other is simulating their
/// concatenation.
pub proof fn lemma_scan_concat(sim: Simulation, a: Seq<Instruction>, b: Seq<Instruction>)
    ensures
        sim.scan(a + b) == sim.scan(a).scan(b),
    decreases b.len(),
{
    if b.len() == 0 {
        assert(a + b =~= a);
    } else {
        assert((a + b).drop_last() =~= a + b.drop_last());
        assert((a + b).last() == b.last());
        lemma_scan_concat(sim, a, b.drop_last());
    }
}

/// Simulating one instruction.
pub proof fn lemma_scan_one(sim: Simulation, x: Instruction)
    ensures
        sim.scan(seq![x]) == sim.step(x.instr),
{
    assert(seq![x].drop_last() =~= Seq::<Instruction>::empty());
    assert(sim.scan(seq![x].drop_last()) == sim);
}

/// The instructions that were emitted between two points of a compilation.
pub open spec fn emitted(l: Lowering, l2: Lowering) -> Seq<Instruction> {
    l2.code.subrange(l.code.len() as int, l2.code.len() as int)
}

/// From `l` to `l2` the code was only appended to, and the label counter
/// did not go back.
pub open spec fn grows(l: Lowering, l2: Lowering) -> bool {
    &&& l.code.len() <= l2.code.len()
    &&& l2.code.subrange(0, l.code.len() as int) == l.code
    &&& l.state.next_label <= l2.state.next_label
}

/// The code emitted from `l` to `l2` changes the depth of the stack by
/// `delta` and leaves no jump pending: simulated from a consistent state
/// that stands on a stack and has no jump pending to a label that is yet to
/// be made, it ends consistent, `delta` higher, with the same jumps pending.
pub open spec fn effect(l: Lowering, l2: Lowering, delta: int) -> bool {
    forall|sim: Simulation|
        #![trigger sim.scan(emitted(l, l2))]
        sim.consistent && sim.depth is Some && sim.older(l.state.next_label as nat) ==> sim.scan(
            emitted(l, l2),
        ) == (Simulation { consistent: true, depth: Some(sim.depth->0 + delta), pending: sim.pending })
}

pub proof fn lemma_compose(l: Lowering, l1: Lowering, l2: Lowering, d1: int, d2: int)
    requires
        grows(l, l1),
        grows(l1, l2),
        effect(l, l1, d1),
        effect(l1, l2, d2),
    ensures
        grows(l, l2),
        effect(l, l2, d1 + d2),
{
    lemma_grows_trans(l, l1, l2);
    assert forall|sim: Simulation|
        sim.consistent && sim.depth is Some && sim.older(
            l.state.next_label as nat,
        ) implies #[trigger] sim.scan(emitted(l, l2)) == (Simulation {
        consistent: true,
        depth: Some(sim.depth->0 + (d1 + d2)),
        pending: sim.pending,
    }) by {
        assert(emitted(l, l2) =~= emitted(l, l1) + emitted(l1, l2));
        lemma_scan_concat(sim, emitted(l, l1), emitted(l1, l2));
        let mid = sim.scan(emitted(l, l1));
        assert(mid.older(l1.state.next_label as nat));
        assert(mid.scan(emitted(l1, l2)) == (Simulation {
            consistent: true,
            depth: Some(mid.depth->0 + d2),
            pending: mid.pending,
        }));
    }
}

pub proof fn lemma_grows_trans(l: Lowering, l1: Lowering, l2: Lowering)
    requires
        grows(l, l1),
        grows(l1, l2),
    ensures
        grows(l, l2),
{
    assert(l2.code.subrange(0, l.code.len() as int) =~= l2.code.subrange(
        0,
        l1.code.len() as int,
    ).subrange(0, l.code.len() as int));
}

/// A step that emits nothing has no effect on the stack.
pub proof fn lemma_silent(l: Lowering, l2: Lowering)
    requires
        l2.code == l.code,
        l.state.next_label <= l2.state.next_label,
    ensures
        grows(l, l2),
        effect(l, l2, 0),
{
    assert(l2.code.subrange(0, l.code.len() as int) =~= l.code);
    assert(emitted(l, l2) =~= Seq::<Instruction>::empty());
    assert forall|sim: Simulation|
        sim.consistent && sim.depth is Some implies #[trigger] sim.scan(emitted(l, l2)) == (
        Simulation { consistent: true, depth: Some(sim.depth->0 + 0), pending: sim.pending }) by {}
}

/// Emitting an instruction that names no label changes the depth by the
/// delta of the instruction.
pub proof fn lemma_emit_op(l: Lowering, op: BytecodeType, location: Location)
    ensures
        grows(l, l.emit_op(op, location)),
        effect(l, l.emit_op(op, location), stack_delta(op)),
{
    let l2 = l.emit_op(op, location);
    let x = Instruction { instr: Instr::Op(op), location };
    assert(l2.code.subrange(0, l.code.len() as int) =~= l.code);
    assert(emitted(l, l2) =~= seq![x]);
    assert forall|sim: Simulation|
        sim.consistent && sim.depth is Some implies #[trigger] sim.scan(emitted(l, l2)) == (
        Simulation {
            consistent: true,
            depth: Some(sim.depth->0 + stack_delta(op)),
            pending: sim.pending,
        }) by {
        lemma_scan_one(sim, x);
    }
}


/// Whether the lowering of an expression emits no conditional whose value
/// is dropped, and no statement that leaves a value behind. The code of a
/// conditional that is compiled with `drop` drops the value in each branch
/// and once more behind the branches.
pub open spec fn steady_expr(e: Expr, drop: bool) -> bool
    decreases e, 0nat,
{
    match e.node {
        ExprType::Block(stmts, tail) => balanced_stmts(stmts, 0) && steady_expr(*tail, false),
        ExprType::CallFunction { arguments, .. } => steady_args(arguments, arguments.len() as nat),
        ExprType::MethodCall { left, arguments, .. } => steady_args(
            arguments,
            arguments.len() as nat,
        ) && steady_expr(*left, false),
        ExprType::Conditional { guard, then_branch, else_branch } => !drop && steady_expr(
            *guard,
            false,
        ) && steady_expr(*then_branch, false) && match else_branch {
            Some(else_body) => steady_expr(*else_body, false),
            None => true,
        },
        ExprType::Operator { arguments, .. } => steady_args(arguments, arguments.len() as nat),
        ExprType::MemberRead { left, .. } => steady_expr(*left, false),
        _ => true,
    }
}

/// `steady_expr` of each of the first `n` arguments.
pub open spec fn steady_args(args: Vec<Expr>, n: nat) -> bool
    decreases args, n,
{
    n == 0 || n > args.len() || (steady_expr(args[n - 1], false) && steady_args(
        args,
        (n - 1) as nat,
    ))
}

/// Whether the lowering of a statement emits no conditional whose value is
/// dropped, and inside it no statement that leaves a value behind.
pub open spec fn steady_stmt(s: Stmt) -> bool
    decreases s, 0nat,
{
    match s.node {
        StmtType::Variable { value, .. } => steady_expr(value, false),
        StmtType::AssignVariable { value, .. } => steady_expr(value, false),
        StmtType::Expression(e) => steady_expr(e, true),
        StmtType::MemberStore { left, val, .. } => steady_expr(val, false) && steady_expr(
            left,
            false,
        ),
        StmtType::Top(stmts) => steady_top(stmts, 0),
        _ => true,
    }
}

/// What a statement leaves on the stack: nothing, but for the top-level
/// statement, which leaves the value of its last statement where that is an
/// expression.
pub open spec fn stmt_delta(s: Stmt) -> int {
    match s.node {
        StmtType::Top(stmts) => top_delta(stmts, 0),
        _ => 0,
    }
}

/// What the top-level statements from index `from` on leave on the stack.
pub open spec fn top_delta(stmts: Vec<Stmt>, from: nat) -> int {
    if from < stmts.len() && stmts[stmts.len() - 1].node is Expression {
        1
    } else {
        0
    }
}

/// `steady_stmt` of each statement from index `from` on, none of which
/// leaves a value behind.
pub open spec fn balanced_stmts(stmts: Vec<Stmt>, from: nat) -> bool
    decreases stmts, stmts.len() - from,
{
    from >= stmts.len() || (steady_stmt(stmts[from as int]) && stmt_delta(stmts[from as int]) == 0
        && balanced_stmts(stmts, from + 1))
}

/// `steady_expr` or `steady_stmt` of each top-level statement from index
/// `from` on; a statement that is no expression leaves no value behind.
pub open spec fn steady_top(stmts: Vec<Stmt>, from: nat) -> bool
    decreases stmts, stmts.len() - from,
{
    from >= stmts.len() || (match stmts[from as int].node {
        StmtType::Expression(e) => steady_expr(e, from + 1 < stmts.len()),
        _ => steady_stmt(stmts[from as int]) && stmt_delta(stmts[from as int]) == 0,
    } && steady_top(stmts, from + 1))
}

proof fn lemma_intern(l: Lowering, name: Seq<char>, location: Location)
    requires
        l.intern(name, location) is Ok,
    ensures
        grows(l, l.intern(name, location)->Ok_0.0),
        effect(l, l.intern(name, location)->Ok_0.0, 0),
        l.intern(name, location)->Ok_0.0.code == l.code,
        l.intern(name, location)->Ok_0.0.state.next_label == l.state.next_label,
{
    lemma_silent(l, l.intern(name, location)->Ok_0.0);
}

proof fn lemma_named(
    l: Lowering,
    name: Seq<char>,
    op: spec_fn(ConstantPoolIndex) -> BytecodeType,
    location: Location,
    delta: int,
)
    requires
        l.named(name, op, location) is Ok,
        forall|i: ConstantPoolIndex| stack_delta(#[trigger] op(i)) == delta,
    ensures
        grows(l, l.named(name, op, location)->Ok_0),
        effect(l, l.named(name, op, location)->Ok_0, delta),
{
    let (l1, index) = l.intern(name, location)->Ok_0;
    lemma_intern(l, name, location);
    lemma_emit_op(l1, op(index), location);
    lemma_compose(l, l1, l1.emit_op(op(index), location), 0, delta);
}

proof fn lemma_access_variable(l: Lowering, name: Seq<char>, location: Location)
    requires
        l.access_variable(name, location) is Ok,
    ensures
        grows(l, l.access_variable(name, location)->Ok_0),
        effect(l, l.access_variable(name, location)->Ok_0, 1),
{
    match crate::lowering::lookup(l.state.location.scopes(), name) {
        Some(local) => {
            lemma_emit_op(l, BytecodeType::GetLocal(local.idx), location);
        },
        None => {
            let (l1, index) = l.intern(name, location)->Ok_0;
            lemma_intern(l, name, location);
            lemma_emit_op(l1, BytecodeType::GetGlobal(index), location);
            lemma_compose(l, l1, l1.emit_op(BytecodeType::GetGlobal(index), location), 0, 1);
        },
    }
}

proof fn lemma_call(l: Lowering, name: Seq<char>, arg_cnt: nat, location: Location)
    requires
        l.call(name, arg_cnt, location) is Ok,
    ensures
        grows(l, l.call(name, arg_cnt, location)->Ok_0),
        effect(l, l.call(name, arg_cnt, location)->Ok_0, 1 - arg_cnt),
{
    if name == crate::lowering::PRINT@ {
        lemma_emit_op(l, BytecodeType::Print { arg_cnt: arg_cnt as u8 }, location);
    } else {
        let (l1, index) = l.intern(name, location)->Ok_0;
        lemma_intern(l, name, location);
        let l2 = l1.emit_op(BytecodeType::GetGlobal(index), location);
        let l3 = l2.emit_op(BytecodeType::CallFunc { arg_cnt: arg_cnt as u8 }, location);
        lemma_emit_op(l1, BytecodeType::GetGlobal(index), location);
        lemma_emit_op(l2, BytecodeType::CallFunc { arg_cnt: arg_cnt as u8 }, location);
        lemma_compose(l, l1, l2, 0, 1);
        lemma_compose(l, l2, l3, 1, -(arg_cnt as int));
    }
}

proof fn lemma_dispatch(l: Lowering, name: Seq<char>, arg_cnt: nat, location: Location)
    requires
        l.dispatch(name, arg_cnt, location) is Ok,
    ensures
        grows(l, l.dispatch(name, arg_cnt, location)->Ok_0),
        effect(l, l.dispatch(name, arg_cnt, location)->Ok_0, -(arg_cnt as int)),
{
    let (l1, index) = l.intern(name, location)->Ok_0;
    lemma_intern(l, name, location);
    let op = BytecodeType::DispatchMethod { name: index, arg_cnt: arg_cnt as u8 };
    lemma_emit_op(l1, op, location);
    lemma_compose(l, l1, l1.emit_op(op, location), 0, -(arg_cnt as int));
}

proof fn lemma_declare_local(
    l: Lowering,
    name: Seq<char>,
    mutable: bool,
    slot: LocalIndex,
    location: Location,
)
    requires
        l.declare_local(name, mutable, slot, location) is Ok,
    ensures
        grows(l, l.declare_local(name, mutable, slot, location)->Ok_0),
        effect(l, l.declare_local(name, mutable, slot, location)->Ok_0, -1),
        l.declare_local(name, mutable, slot, location)->Ok_0.state.next_label == l.state.next_label,
{
    let l1 = l.with_state(
        l.state.bind(
            name,
            crate::lowering::Local { idx: l.state.local_count, mutable },
        ).add_locals(1),
    );
    lemma_silent(l, l1);
    lemma_emit_op(l1, BytecodeType::SetLocal(slot), location);
    lemma_compose(l, l1, l1.emit_op(BytecodeType::SetLocal(slot), location), 0, -1);
}

proof fn lemma_declare(l: Lowering, name: Seq<char>, mutable: bool, location: Location)
    requires
        l.declare(name, mutable, location) is Ok,
    ensures
        grows(l, l.declare(name, mutable, location)->Ok_0),
        effect(l, l.declare(name, mutable, location)->Ok_0, -1),
{
    match l.state.location {
        crate::lowering::LocationView::Global => {
            let (l1, index) = l.intern(name, location)->Ok_0;
            lemma_intern(l, name, location);
            let op = if mutable {
                BytecodeType::DeclVarGlobal { name: index }
            } else {
                BytecodeType::DeclValGlobal { name: index }
            };
            lemma_emit_op(l1, op, location);
            lemma_compose(l, l1, l1.emit_op(op, location), 0, -1);
        },
        crate::lowering::LocationView::Local(_) => {
            lemma_declare_local(l, name, mutable, l.state.local_count, location);
        },
        crate::lowering::LocationView::Class(_) => {},
    }
}

proof fn lemma_assign(l: Lowering, name: Seq<char>, at: Location, location: Location)
    requires
        l.assign(name, at, location) is Ok,
    ensures
        grows(l, l.assign(name, at, location)->Ok_0),
        effect(l, l.assign(name, at, location)->Ok_0, -1),
{
    let found = if l.state.location is Local {
        crate::lowering::lookup(l.state.location.scopes(), name)
    } else {
        None
    };
    match found {
        Some(local) => {
            lemma_emit_op(l, BytecodeType::SetLocal(local.idx), at);
        },
        None => {
            let (l1, index) = l.intern(name, location)->Ok_0;
            lemma_intern(l, name, location);
            lemma_emit_op(l1, BytecodeType::SetGlobal(index), at);
            lemma_compose(l, l1, l1.emit_op(BytecodeType::SetGlobal(index), at), 0, -1);
        },
    }
}

proof fn lemma_function_def(
    l: Lowering,
    name: ConstantPoolIndex,
    fun: ConstantPoolIndex,
    location: Location,
)
    requires
        l.function_def(name, fun, location) is Ok,
    ensures
        grows(l, l.function_def(name, fun, location)->Ok_0),
        effect(l, l.function_def(name, fun, location)->Ok_0, 0),
{
    let l1 = l.emit_op(BytecodeType::PushLiteral(fun), location);
    let l2 = l1.emit_op(BytecodeType::DeclValGlobal { name }, location);
    lemma_emit_op(l, BytecodeType::PushLiteral(fun), location);
    lemma_emit_op(l1, BytecodeType::DeclValGlobal { name }, location);
    lemma_compose(l, l1, l2, 1, -1);
}

proof fn lemma_params(l: Lowering, parameters: Seq<String>, from: nat, location: Location)
    requires
        lower_params(l, parameters, from, location) is Ok,
    ensures
        lower_params(l, parameters, from, location)->Ok_0.state.next_label == l.state.next_label,
    decreases parameters.len() - from,
{
    if from >= parameters.len() {
    } else if !(l.state.location is Local) {
        lemma_params(l, parameters, from + 1, location);
    } else {
        let next = l.declare_local(parameters[from as int]@, false, from as u16, location)->Ok_0;
        lemma_declare_local(l, parameters[from as int]@, false, from as u16, location);
        lemma_params(next, parameters, from + 1, location);
    }
}


/// What the lowering of an expression does to the code and to the stack.
pub proof fn lemma_expr(l: Lowering, e: Expr, drop: bool)
    requires
        lower_expr(l, e, drop) is Ok,
    ensures
        grows(l, lower_expr(l, e, drop)->Ok_0),
        steady_expr(e, drop) ==> effect(
            l,
            lower_expr(l, e, drop)->Ok_0,
            if drop {
                0
            } else {
                1
            },
        ),
    decreases e, 2nat,
{
    lemma_value(l, e, drop);
    let v = lower_value(l, e, drop)->Ok_0;
    if drop {
        let r = v.emit_op(BytecodeType::Drop, e.location);
        lemma_emit_op(v, BytecodeType::Drop, e.location);
        lemma_grows_trans(l, v, r);
        if steady_expr(e, drop) {
            lemma_compose(l, v, r, 1, -1);
        }
    }
}

proof fn lemma_value(l: Lowering, e: Expr, drop: bool)
    requires
        lower_value(l, e, drop) is Ok,
    ensures
        grows(l, lower_value(l, e, drop)->Ok_0),
        steady_expr(e, drop) ==> effect(l, lower_value(l, e, drop)->Ok_0, 1),
    decreases e, 1nat,
{
    match e.node {
        ExprType::Block(..) => lemma_block(l, e, drop),
        ExprType::CallFunction { .. } => lemma_call_expr(l, e, drop),
        ExprType::MethodCall { .. } => lemma_method_call(l, e, drop),
        ExprType::Conditional { .. } => lemma_conditional(l, e, drop),
        ExprType::Operator { .. } => lemma_operator(l, e, drop),
        ExprType::MemberRead { .. } => lemma_member_read(l, e, drop),
        ExprType::Integer(v) => lemma_emit_op(l, BytecodeType::PushInt(v), e.location),
        ExprType::Bool(v) => lemma_emit_op(l, BytecodeType::PushBool(v), e.location),
        ExprType::NoneVal => lemma_emit_op(l, BytecodeType::PushNone, e.location),
        ExprType::String(text) => lemma_named(
            l,
            text@,
            |i: ConstantPoolIndex| BytecodeType::PushLiteral(i),
            e.location,
            1,
        ),
        ExprType::AccessVariable { name } => lemma_access_variable(l, name@, e.location),
        _ => {},
    }
}

proof fn lemma_block(l: Lowering, e: Expr, drop: bool)
    requires
        lower_value(l, e, drop) is Ok,
        e.node is Block,
    ensures
        grows(l, lower_value(l, e, drop)->Ok_0),
        steady_expr(e, drop) ==> effect(l, lower_value(l, e, drop)->Ok_0, 1),
    decreases e, 0nat,
{
    let stmts = e.node->Block_0;
    let tail = *e.node->Block_1;
    let entered = l.with_state(l.state.enter_scope());
    let inner = lower_stmts(entered, stmts, 0)->Ok_0;
    let done = lower_expr(inner, tail, false)->Ok_0;
    let left = done.with_state(done.state.leave_scope());
    lemma_silent(l, entered);
    lemma_stmts(entered, stmts, 0);
    lemma_expr(inner, tail, false);
    lemma_silent(done, left);
    lemma_grows_trans(l, entered, inner);
    lemma_grows_trans(l, inner, done);
    lemma_grows_trans(l, done, left);
    if steady_expr(e, drop) {
        lemma_compose(l, entered, inner, 0, 0);
        lemma_compose(l, inner, done, 0, 1);
        lemma_compose(l, done, left, 1, 0);
    }
}

proof fn lemma_call_expr(l: Lowering, e: Expr, drop: bool)
    requires
        lower_value(l, e, drop) is Ok,
        e.node is CallFunction,
    ensures
        grows(l, lower_value(l, e, drop)->Ok_0),
        steady_expr(e, drop) ==> effect(l, lower_value(l, e, drop)->Ok_0, 1),
    decreases e, 0nat,
{
    let arguments = e.node->CallFunction_arguments;
    let name = e.node->CallFunction_name;
    let n = arguments.len() as nat;
    let pushed = lower_args(l, arguments, n)->Ok_0;
    let done = pushed.call(name@, n, e.location)->Ok_0;
    lemma_args(l, arguments, n);
    lemma_call(pushed, name@, n, e.location);
    lemma_grows_trans(l, pushed, done);
    if steady_expr(e, drop) {
        lemma_compose(l, pushed, done, n as int, 1 - n);
    }
}

proof fn lemma_method_call(l: Lowering, e: Expr, drop: bool)
    requires
        lower_value(l, e, drop) is Ok,
        e.node is MethodCall,
    ensures
        grows(l, lower_value(l, e, drop)->Ok_0),
        steady_expr(e, drop) ==> effect(l, lower_value(l, e, drop)->Ok_0, 1),
    decreases e, 0nat,
{
    let arguments = e.node->MethodCall_arguments;
    let name = e.node->MethodCall_name;
    let left = *e.node->MethodCall_left;
    let n = arguments.len() as nat;
    let pushed = lower_args(l, arguments, n)->Ok_0;
    let received = lower_expr(pushed, left, false)->Ok_0;
    let done = received.dispatch(name@, n, e.location)->Ok_0;
    lemma_args(l, arguments, n);
    lemma_expr(pushed, left, false);
    lemma_dispatch(received, name@, n, e.location);
    lemma_grows_trans(l, pushed, received);
    lemma_grows_trans(l, received, done);
    if steady_expr(e, drop) {
        lemma_compose(l, pushed, received, n as int, 1);
        lemma_compose(l, received, done, n as int + 1, -(n as int));
    }
}

proof fn lemma_operator(l: Lowering, e: Expr, drop: bool)
    requires
        lower_value(l, e, drop) is Ok,
        e.node is Operator,
    ensures
        grows(l, lower_value(l, e, drop)->Ok_0),
        steady_expr(e, drop) ==> effect(l, lower_value(l, e, drop)->Ok_0, 1),
    decreases e, 0nat,
{
    let arguments = e.node->Operator_arguments;
    let op = e.node->Operator_op;
    let n = arguments.len() as nat;
    let pushed = lower_args(l, arguments, n)->Ok_0;
    let done = pushed.emit_op(operation(op), e.location);
    lemma_args(l, arguments, n);
    lemma_emit_op(pushed, operation(op), e.location);
    lemma_grows_trans(l, pushed, done);
    if steady_expr(e, drop) {
        lemma_compose(l, pushed, done, n as int, stack_delta(operation(op)));
    }
}

proof fn lemma_member_read(l: Lowering, e: Expr, drop: bool)
    requires
        lower_value(l, e, drop) is Ok,
        e.node is MemberRead,
    ensures
        grows(l, lower_value(l, e, drop)->Ok_0),
        steady_expr(e, drop) ==> effect(l, lower_value(l, e, drop)->Ok_0, 1),
    decreases e, 0nat,
{
    let left = *e.node->MemberRead_left;
    let right = e.node->MemberRead_right;
    let object = lower_expr(l, left, false)->Ok_0;
    let op = |i: ConstantPoolIndex| BytecodeType::GetMember(i);
    let done = object.named(right@, op, e.location)->Ok_0;
    lemma_expr(l, left, false);
    lemma_named(object, right@, op, e.location, 0);
    lemma_grows_trans(l, object, done);
    if steady_expr(e, drop) {
        lemma_compose(l, object, done, 1, 0);
    }
}

proof fn lemma_args(l: Lowering, args: Vec<Expr>, n: nat)
    requires
        lower_args(l, args, n) is Ok,
    ensures
        grows(l, lower_args(l, args, n)->Ok_0),
        steady_args(args, n) ==> effect(
            l,
            lower_args(l, args, n)->Ok_0,
            if n > args.len() {
                0
            } else {
                n as int
            },
        ),
    decreases args, n,
{
    if n == 0 || n > args.len() {
        lemma_silent(l, l);
    } else {
        let next = lower_expr(l, args[n - 1], false)->Ok_0;
        let done = lower_args(next, args, (n - 1) as nat)->Ok_0;
        lemma_expr(l, args[n - 1], false);
        lemma_args(next, args, (n - 1) as nat);
        lemma_grows_trans(l, next, done);
        if steady_args(args, n) {
            lemma_compose(l, next, done, 1, n - 1);
        }
    }
}

proof fn lemma_stmts(l: Lowering, stmts: Vec<Stmt>, from: nat)
    requires
        lower_stmts(l, stmts, from) is Ok,
    ensures
        grows(l, lower_stmts(l, stmts, from)->Ok_0),
        balanced_stmts(stmts, from) ==> effect(l, lower_stmts(l, stmts, from)->Ok_0, 0),
    decreases stmts, stmts.len() - from,
{
    if from >= stmts.len() {
        lemma_silent(l, l);
    } else {
        let next = lower_stmt(l, stmts[from as int])->Ok_0;
        let done = lower_stmts(next, stmts, from + 1)->Ok_0;
        lemma_stmt(l, stmts[from as int]);
        lemma_stmts(next, stmts, from + 1);
        lemma_grows_trans(l, next, done);
        if balanced_stmts(stmts, from) {
            lemma_compose(l, next, done, 0, 0);
        }
    }
}

proof fn lemma_top(l: Lowering, stmts: Vec<Stmt>, from: nat)
    requires
        lower_top(l, stmts, from) is Ok,
    ensures
        grows(l, lower_top(l, stmts, from)->Ok_0),
        steady_top(stmts, from) ==> effect(l, lower_top(l, stmts, from)->Ok_0, top_delta(stmts, from)),
    decreases stmts, stmts.len() - from,
{
    if from >= stmts.len() {
        lemma_silent(l, l);
    } else {
        let last = from + 1 >= stmts.len();
        match stmts[from as int].node {
            StmtType::Expression(e) => {
                let next = lower_expr(l, e, !last)->Ok_0;
                let done = lower_top(next, stmts, from + 1)->Ok_0;
                lemma_expr(l, e, !last);
                lemma_top(next, stmts, from + 1);
                lemma_grows_trans(l, next, done);
                if steady_top(stmts, from) {
                    lemma_compose(
                        l,
                        next,
                        done,
                        if last {
                            1
                        } else {
                            0
                        },
                        top_delta(stmts, from + 1),
                    );
                }
            },
            _ => {
                let next = lower_stmt(l, stmts[from as int])->Ok_0;
                let done = lower_top(next, stmts, from + 1)->Ok_0;
                lemma_stmt(l, stmts[from as int]);
                lemma_top(next, stmts, from + 1);
                lemma_grows_trans(l, next, done);
                if steady_top(stmts, from) {
                    lemma_compose(l, next, done, 0, top_delta(stmts, from + 1));
                }
            },
        }
    }
}

/// What the lowering of a statement does to the code and to the stack.
pub proof fn lemma_stmt(l: Lowering, s: Stmt)
    requires
        lower_stmt(l, s) is Ok,
    ensures
        grows(l, lower_stmt(l, s)->Ok_0),
        steady_stmt(s) ==> effect(l, lower_stmt(l, s)->Ok_0, stmt_delta(s)),
    decreases s, 1nat,
{
    match s.node {
        StmtType::Variable { name, mutable, value } => {
            let valued = lower_expr(l, value, false)->Ok_0;
            let done = valued.declare(name@, mutable, s.location)->Ok_0;
            lemma_expr(l, value, false);
            lemma_declare(valued, name@, mutable, s.location);
            lemma_grows_trans(l, valued, done);
            if steady_stmt(s) {
                lemma_compose(l, valued, done, 1, -1);
            }
        },
        StmtType::AssignVariable { name, value } => {
            let valued = lower_expr(l, value, false)->Ok_0;
            let done = valued.assign(name@, value.location, s.location)->Ok_0;
            lemma_expr(l, value, false);
            lemma_assign(valued, name@, value.location, s.location);
            lemma_grows_trans(l, valued, done);
            if steady_stmt(s) {
                lemma_compose(l, valued, done, 1, -1);
            }
        },
        StmtType::Function { name, parameters, body } => {
            let (state, name_index, fun_index) = lower_function(
                l.state,
                name@,
                parameters,
                body,
                s.location,
            )->Ok_0;
            let defined = l.with_state(state);
            let done = defined.function_def(name_index, fun_index, s.location)->Ok_0;
            lemma_function(l.state, name@, parameters, body, s.location);
            lemma_silent(l, defined);
            lemma_function_def(defined, name_index, fun_index, s.location);
            lemma_compose(l, defined, done, 0, 0);
        },
        StmtType::Class { name, statements } => {
            lemma_class(l, name@, statements, s.location);
        },
        StmtType::Top(stmts) => {
            lemma_top(l, stmts, 0);
        },
        StmtType::Expression(e) => {
            lemma_expr(l, e, true);
        },
        StmtType::MemberStore { left, right, val } => {
            let valued = lower_expr(l, val, false)->Ok_0;
            let object = lower_expr(valued, left, false)->Ok_0;
            let op = |i: ConstantPoolIndex| BytecodeType::SetMember(i);
            let done = object.named(right@, op, s.location)->Ok_0;
            lemma_expr(l, val, false);
            lemma_expr(valued, left, false);
            lemma_named(object, right@, op, s.location, -2);
            lemma_grows_trans(l, valued, object);
            lemma_grows_trans(l, object, done);
            if steady_stmt(s) {
                lemma_compose(l, valued, object, 1, 1);
                lemma_compose(l, object, done, 2, -2);
            }
        },
        _ => {},
    }
}

/// Compiling a function does not take the label counter back.
proof fn lemma_function(
    state: CompilerView,
    name: Seq<char>,
    parameters: Vec<String>,
    body: Expr,
    location: Location,
)
    requires
        lower_function(state, name, parameters, body, location) is Ok,
    ensures
        state.next_label <= lower_function(state, name, parameters, body, location)->Ok_0.0.next_label,
    decreases body, 4nat,
{
    let reset = CompilerView { local_count: 0, local_max: 0, ..state };
    let (named, name_index) = reset.intern(name, location)->Ok_0;
    let start = Lowering { state: named.enter_scope(), code: Seq::empty() };
    let bound = lower_params(start, parameters@, 0, body.location)->Ok_0;
    lemma_params(start, parameters@, 0, body.location);
    lemma_expr(bound, body, false);
}

proof fn lemma_members(
    state: CompilerView,
    members: Vec<Stmt>,
    from: nat,
    methods: Seq<ConstantPoolIndex>,
)
    requires
        lower_members(state, members, from, methods) is Ok,
    ensures
        state.next_label <= lower_members(state, members, from, methods)->Ok_0.0.next_label,
    decreases members, members.len() - from,
{
    if from < members.len() {
        let member = members[from as int];
        match member.node {
            StmtType::Function { name, parameters, body } => {
                let (next, _, method) = lower_function(
                    state,
                    name@,
                    parameters,
                    body,
                    member.location,
                )->Ok_0;
                lemma_function(state, name@, parameters, body, member.location);
                lemma_members(next, members, from + 1, methods.push(method));
            },
            _ => {},
        }
    }
}

proof fn lemma_class(l: Lowering, name: Seq<char>, members: Vec<Stmt>, at: Location)
    requires
        lower_class(l, name, members, at) is Ok,
    ensures
        grows(l, lower_class(l, name, members, at)->Ok_0),
        effect(l, lower_class(l, name, members, at)->Ok_0, 0),
    decreases members, members.len() + 1,
{
    let (named, name_index) = l.state.intern(name, at)->Ok_0;
    let (with_methods, methods) = lower_members(named, members, 0, Seq::empty())->Ok_0;
    lemma_members(named, members, 0, Seq::empty());
    let (with_class, class_index) = with_methods.add_object(
        crate::objects::ObjectView::Class { name: name_index, methods },
        at,
    )->Ok_0;
    let (done, fun_index) = with_class.add_object(
        crate::objects::ObjectView::Function(
            crate::objects::FunctionView {
                name: name_index,
                parameters_cnt: 0,
                locals_cnt: 0,
                body: crate::lowering::constructor_body(class_index),
            },
        ),
        at,
    )->Ok_0;
    let defined = l.with_state(done);
    lemma_silent(l, defined);
    lemma_function_def(defined, name_index, fun_index, at);
    lemma_compose(l, defined, defined.function_def(name_index, fun_index, at)->Ok_0, 0, 0);
}


/// Simulating what was emitted up to `l2` is simulating what was emitted up
/// to `l1` and then what was emitted from there.
proof fn lemma_extend(l: Lowering, l1: Lowering, l2: Lowering, sim: Simulation)
    requires
        grows(l, l1),
        grows(l1, l2),
    ensures
        grows(l, l2),
        sim.scan(emitted(l, l2)) == sim.scan(emitted(l, l1)).scan(emitted(l1, l2)),
{
    lemma_grows_trans(l, l1, l2);
    assert(emitted(l, l2) =~= emitted(l, l1) + emitted(l1, l2));
    lemma_scan_concat(sim, emitted(l, l1), emitted(l1, l2));
}

/// Emitting one instruction of any kind.
proof fn lemma_emit(l: Lowering, instr: Instr, location: Location, sim: Simulation)
    ensures
        grows(l, l.emit(instr, location)),
        sim.scan(emitted(l, l.emit(instr, location))) == sim.step(instr),
{
    let l2 = l.emit(instr, location);
    let x = Instruction { instr, location };
    assert(l2.code.subrange(0, l.code.len() as int) =~= l.code);
    assert(emitted(l, l2) =~= seq![x]);
    lemma_scan_one(sim, x);
}

proof fn lemma_conditional(l: Lowering, e: Expr, drop: bool)
    requires
        lower_value(l, e, drop) is Ok,
        e.node is Conditional,
    ensures
        grows(l, lower_value(l, e, drop)->Ok_0),
        steady_expr(e, drop) ==> effect(l, lower_value(l, e, drop)->Ok_0, 1),
    decreases e, 0nat,
{
    let at = e.location;
    let guard = *e.node->Conditional_guard;
    let then_branch = *e.node->Conditional_then_branch;
    let else_branch = e.node->Conditional_else_branch;
    let a = l.state.next_label as nat;
    let (l1, label_else) = l.fresh_label(ELSE_PREFIX@, at)->Ok_0;
    let (l2, label_end) = l1.fresh_label(MERGE_PREFIX@, at)->Ok_0;
    let guarded = lower_expr(l2, guard, false)->Ok_0;
    let branched = guarded.emit(Instr::BranchLabelFalse(label_else), at);
    let then_done = lower_expr(branched, then_branch, drop)->Ok_0;
    let jumped = then_done.emit(Instr::JmpLabel(label_end), at);
    let at_else = jumped.emit(Instr::Label(label_else), at);
    let else_done = match else_branch {
        Some(else_body) => lower_expr(at_else, *else_body, drop)->Ok_0,
        None => if drop {
            at_else
        } else {
            at_else.emit_op(BytecodeType::PushNone, at)
        },
    };
    let done = else_done.emit(Instr::Label(label_end), at);
    assert(lower_value(l, e, drop)->Ok_0 == done);
    let nothing = Simulation::start(0);
    lemma_silent(l, l2);
    lemma_expr(l2, guard, false);
    lemma_emit(guarded, Instr::BranchLabelFalse(label_else), at, nothing);
    lemma_expr(branched, then_branch, drop);
    lemma_emit(then_done, Instr::JmpLabel(label_end), at, nothing);
    lemma_emit(jumped, Instr::Label(label_else), at, nothing);
    match else_branch {
        Some(else_body) => {
            lemma_expr(at_else, *else_body, drop);
        },
        None => {
            if drop {
                lemma_silent(at_else, else_done);
            } else {
                lemma_emit_op(at_else, BytecodeType::PushNone, at);
            }
        },
    }
    lemma_emit(else_done, Instr::Label(label_end), at, nothing);
    lemma_grows_trans(l, l2, guarded);
    lemma_grows_trans(l, guarded, branched);
    lemma_grows_trans(l, branched, then_done);
    lemma_grows_trans(l, then_done, jumped);
    lemma_grows_trans(l, jumped, at_else);
    lemma_grows_trans(l, at_else, else_done);
    lemma_grows_trans(l, else_done, done);
    if steady_expr(e, drop) {
        assert(!drop);
        assert(effect(at_else, else_done, 1));
        assert forall|sim: Simulation|
            sim.consistent && sim.depth is Some && sim.older(a) implies #[trigger] sim.scan(
            emitted(l, done),
        ) == (Simulation { consistent: true, depth: Some(sim.depth->0 + 1), pending: sim.pending }) by {
            let d = sim.depth->0;
            let pending = sim.pending;
            assert(label_else == label_text(ELSE_PREFIX@, a));
            assert(label_end == label_text(MERGE_PREFIX@, a + 1));
            assert(!pending.contains_key(label_else));
            assert(!pending.contains_key(label_end));
            lemma_else_is_not_merge(a, a + 1);
            // the guard
            lemma_extend(l, l2, guarded, sim);
            assert(emitted(l, l2) =~= Seq::<Instruction>::empty());
            let guarded_sim = sim.scan(emitted(l2, guarded));
            assert(guarded_sim == Simulation { consistent: true, depth: Some(d + 1), pending });
            assert(sim.scan(emitted(l, guarded)) == guarded_sim);
            // the branch over the then branch
            lemma_extend(l, guarded, branched, sim);
            lemma_emit(guarded, Instr::BranchLabelFalse(label_else), at, guarded_sim);
            let branched_sim = guarded_sim.step(Instr::BranchLabelFalse(label_else));
            assert(branched_sim == Simulation {
                consistent: true,
                depth: Some(d),
                pending: pending.insert(label_else, d),
            });
            assert(branched_sim.older(branched.state.next_label as nat)) by {
                assert forall|k: nat| k >= branched.state.next_label implies !branched_sim.pending.contains_key(
                    #[trigger] label_text(ELSE_PREFIX@, k),
                ) by {
                    if label_text(ELSE_PREFIX@, k) == label_else {
                        lemma_label_text_injective(ELSE_PREFIX@, k, a);
                    }
                }
                assert forall|k: nat| k >= branched.state.next_label implies !branched_sim.pending.contains_key(
                    #[trigger] label_text(MERGE_PREFIX@, k),
                ) by {
                    lemma_else_is_not_merge(a, k);
                }
            }
            // the then branch
            lemma_extend(l, branched, then_done, sim);
            let then_sim = branched_sim.scan(emitted(branched, then_done));
            assert(then_sim == Simulation { consistent: true, depth: Some(d + 1), pending: branched_sim.pending });
            // the jump over the else branch, and the label of the else branch
            lemma_extend(l, then_done, jumped, sim);
            lemma_emit(then_done, Instr::JmpLabel(label_end), at, then_sim);
            let jumped_sim = then_sim.step(Instr::JmpLabel(label_end));
            assert(jumped_sim == Simulation {
                consistent: true,
                depth: None,
                pending: branched_sim.pending.insert(label_end, d + 1),
            });
            lemma_extend(l, jumped, at_else, sim);
            lemma_emit(jumped, Instr::Label(label_else), at, jumped_sim);
            let else_sim = jumped_sim.step(Instr::Label(label_else));
            assert(else_sim.pending =~= pending.insert(label_end, d + 1));
            assert(else_sim == Simulation {
                consistent: true,
                depth: Some(d),
                pending: pending.insert(label_end, d + 1),
            });
            assert(else_sim.older(at_else.state.next_label as nat)) by {
                assert forall|k: nat| k >= at_else.state.next_label implies !else_sim.pending.contains_key(
                    #[trigger] label_text(ELSE_PREFIX@, k),
                ) by {
                    lemma_else_is_not_merge(k, a + 1);
                }
                assert forall|k: nat| k >= at_else.state.next_label implies !else_sim.pending.contains_key(
                    #[trigger] label_text(MERGE_PREFIX@, k),
                ) by {
                    if label_text(MERGE_PREFIX@, k) == label_end {
                        lemma_label_text_injective(MERGE_PREFIX@, k, a + 1);
                    }
                }
            }
            // the else branch, or the none that stands for it
            lemma_extend(l, at_else, else_done, sim);
            let merged_sim = else_sim.scan(emitted(at_else, else_done));
            assert(merged_sim == Simulation { consistent: true, depth: Some(d + 1), pending: else_sim.pending });
            // the label of the end
            lemma_extend(l, else_done, done, sim);
            lemma_emit(else_done, Instr::Label(label_end), at, merged_sim);
            let final_sim = merged_sim.step(Instr::Label(label_end));
            assert(final_sim.pending =~= pending);
            assert(final_sim == Simulation { consistent: true, depth: Some(d + 1), pending });
        }
    }
}

} // verus!
