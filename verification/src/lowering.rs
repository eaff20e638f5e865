use vstd::prelude::*;
use crate::ast::{Expr, ExprType, Opcode, Stmt, StmtType};
use crate::bytecode::{operation, BytecodeType, ConstantPoolIndex, Instr, Instruction, LocalIndex};
use crate::error::{CompileError, Construct, ErrorKind};
use crate::objects::{pool_add, FunctionView, ObjectView};
use crate::utils::{label_text, prefix_allowed, Location};

verus! {

/// A local variable: its slot in the frame of the function, and whether it
/// may be assigned again.
#[derive(Debug, Clone, Copy, PartialEq, Eq, Structural)]
pub struct Local {
    pub idx: LocalIndex,
    pub mutable: bool,
}

/// The bindings of one lexical scope.
pub type Scope = Map<Seq<char>, Local>;

/// Where the compiler stands: at the top level, or inside the scopes of a
/// function or of a class, innermost scope last.
pub enum LocationView {
    Global,
    Local(Seq<Scope>),
    Class(Seq<Scope>),
}

/// What the state of a compiler is.
pub struct CompilerView {
    pub pool: Seq<ObjectView>,
    pub location: LocationView,
    /// The counter value of the next label.
    pub next_label: u32,
    /// The number of local variables that are live.
    pub local_count: LocalIndex,
    /// The largest number of live local variables seen in the function
    /// under compilation.
    pub local_max: LocalIndex,
}

/// The prefix of the label at which the else branch of a conditional starts.
pub const ELSE_PREFIX: &'static str = "if_else";

/// The prefix of the label at which a conditional ends.
pub const MERGE_PREFIX: &'static str = "if_merge";

/// The function that prints its arguments; a call of it is an instruction.
pub const PRINT: &'static str = "print";

/// The name of the function that holds the top-level statements.
pub const MAIN: &'static str = "#main";

/// The binding of `name` in the innermost scope that has one.
pub open spec fn lookup(env: Seq<Scope>, name: Seq<char>) -> Option<Local>
    decreases env.len(),
{
    if env.len() == 0 {
        None
    } else if env.last().contains_key(name) {
        Some(env.last()[name])
    } else {
        lookup(env.drop_last(), name)
    }
}

/// The number of bindings in all the scopes together.
pub open spec fn bindings(env: Seq<Scope>) -> nat
    decreases env.len(),
{
    if env.len() == 0 {
        0
    } else {
        bindings(env.drop_last()) + env.last().len()
    }
}

/// Every scope holds finitely many bindings.
pub open spec fn scopes_finite(env: Seq<Scope>) -> bool {
    forall|i: int| 0 <= i < env.len() ==> (#[trigger] env[i]).dom().finite()
}

/// The number of arguments that an operator takes.
pub open spec fn arity(op: Opcode) -> nat {
    match op {
        Opcode::Negate => 1,
        _ => 2,
    }
}

impl LocationView {
    /// The scopes, if any.
    pub open spec fn scopes(self) -> Seq<Scope> {
        match self {
            LocationView::Global => Seq::empty(),
            LocationView::Local(env) => env,
            LocationView::Class(env) => env,
        }
    }

    /// The same kind of place at the same depth of scopes.
    pub open spec fn same_shape(self, other: LocationView) -> bool {
        match self {
            LocationView::Global => other is Global,
            LocationView::Local(env) => other is Local && other.scopes().len() == env.len(),
            LocationView::Class(env) => other is Class && other.scopes().len() == env.len(),
        }
    }
}

impl CompilerView {
    /// The state of a compiler that has not compiled anything.
    pub open spec fn initial() -> CompilerView {
        CompilerView {
            pool: Seq::empty(),
            location: LocationView::Global,
            next_label: 0,
            local_count: 0,
            local_max: 0,
        }
    }

    /// What holds of the state between any two steps of a compilation: the
    /// live locals are the bindings of the scopes, and their number has never
    /// been above the maximum on record.
    pub open spec fn wf(self) -> bool {
        &&& self.local_count <= self.local_max
        &&& scopes_finite(self.location.scopes())
        &&& bindings(self.location.scopes()) == self.local_count
        &&& self.location is Local ==> self.location.scopes().len() >= 1
    }

    /// The state after a scope is opened. The first scope opened at the top
    /// level starts a local environment.
    pub open spec fn enter_scope(self) -> CompilerView {
        let fresh: Scope = Map::empty();
        match self.location {
            LocationView::Global => CompilerView { location: LocationView::Local(seq![fresh]), ..self },
            LocationView::Local(env) => CompilerView {
                location: LocationView::Local(env.push(fresh)),
                ..self
            },
            LocationView::Class(env) => CompilerView {
                location: LocationView::Class(env.push(fresh)),
                ..self
            },
        }
    }

    /// The state after the innermost scope is closed: its bindings are no
    /// longer live. Closing the last scope of a local environment leads back
    /// to the top level.
    pub open spec fn leave_scope(self) -> CompilerView {
        match self.location {
            LocationView::Global => self,
            LocationView::Local(env) => CompilerView {
                location: if env.len() <= 1 {
                    LocationView::Global
                } else {
                    LocationView::Local(env.drop_last())
                },
                local_count: (self.local_count - env.last().len()) as u16,
                ..self
            },
            LocationView::Class(env) => CompilerView {
                location: LocationView::Class(env.drop_last()),
                local_count: (self.local_count - env.last().len()) as u16,
                ..self
            },
        }
    }

    /// The state after `cnt` more locals became live.
    pub open spec fn add_locals(self, cnt: LocalIndex) -> CompilerView {
        let count = (self.local_count + cnt) as u16;
        CompilerView {
            local_count: count,
            local_max: if count > self.local_max {
                count
            } else {
                self.local_max
            },
            ..self
        }
    }

    /// The state with `obj` added to the constant pool, and the index of
    /// `obj`. An overflow of the pool is reported at `location`.
    pub open spec fn add_object(self, obj: ObjectView, location: Location) -> Result<
        (CompilerView, ConstantPoolIndex),
        CompileError,
    > {
        match pool_add(self.pool, obj) {
            Ok((pool, index)) => Ok((CompilerView { pool, ..self }, index)),
            Err(kind) => Err(CompileError::at(kind, location)),
        }
    }

    /// The state with the string `s` in the constant pool, and its index.
    pub open spec fn intern(self, s: Seq<char>, location: Location) -> Result<
        (CompilerView, ConstantPoolIndex),
        CompileError,
    > {
        self.add_object(ObjectView::String(s), location)
    }

    /// The state with `name` bound in the innermost scope.
    pub open spec fn bind(self, name: Seq<char>, local: Local) -> CompilerView {
        match self.location {
            LocationView::Global => self,
            LocationView::Local(env) => CompilerView {
                location: LocationView::Local(
                    env.update(env.len() - 1, env.last().insert(name, local)),
                ),
                ..self
            },
            LocationView::Class(env) => CompilerView {
                location: LocationView::Class(
                    env.update(env.len() - 1, env.last().insert(name, local)),
                ),
                ..self
            },
        }
    }
}

/// A compilation under way: the state of the compiler and the instructions
/// emitted so far for the function under compilation.
pub struct Lowering {
    pub state: CompilerView,
    pub code: Seq<Instruction>,
}

/// How a step of a compilation ends.
pub type Outcome = Result<Lowering, CompileError>;

impl Lowering {
    /// With one more instruction.
    pub open spec fn emit(self, instr: Instr, location: Location) -> Lowering {
        Lowering { code: self.code.push(Instruction { instr, location }), ..self }
    }

    /// With one more instruction that names no label.
    pub open spec fn emit_op(self, op: BytecodeType, location: Location) -> Lowering {
        self.emit(Instr::Op(op), location)
    }

    /// With `obj` added to the constant pool, and the index of `obj`.
    pub open spec fn add_object(self, obj: ObjectView, location: Location) -> Result<
        (Lowering, ConstantPoolIndex),
        CompileError,
    > {
        match self.state.add_object(obj, location) {
            Ok((state, index)) => Ok((self.with_state(state), index)),
            Err(e) => Err(e),
        }
    }

    /// With the string `s` in the constant pool, and its index.
    pub open spec fn intern(self, s: Seq<char>, location: Location) -> Result<
        (Lowering, ConstantPoolIndex),
        CompileError,
    > {
        self.add_object(ObjectView::String(s), location)
    }

    /// With the label counter moved on, and the label made of `prefix` and
    /// the counter. A prefix that the generator refuses, or a counter that is
    /// used up, is a fault of the compiler.
    pub open spec fn fresh_label(self, prefix: Seq<char>, location: Location) -> Result<
        (Lowering, Seq<char>),
        CompileError,
    > {
        if prefix_allowed(prefix) && self.state.next_label < u32::MAX {
            Ok(
                (
                    Lowering {
                        state: CompilerView {
                            next_label: (self.state.next_label + 1) as u32,
                            ..self.state
                        },
                        ..self
                    },
                    label_text(prefix, self.state.next_label as nat),
                ),
            )
        } else {
            Err(CompileError::at(ErrorKind::InvariantViolation, location))
        }
    }

    /// With the state changed and the code kept.
    pub open spec fn with_state(self, state: CompilerView) -> Lowering {
        Lowering { state, ..self }
    }

    /// Reads a variable: a local where the name is bound in a scope, else
    /// the global of that name.
    pub open spec fn access_variable(self, name: Seq<char>, location: Location) -> Outcome {
        match lookup(self.state.location.scopes(), name) {
            Some(local) => Ok(self.emit_op(BytecodeType::GetLocal(local.idx), location)),
            None => match self.intern(name, location) {
                Ok((l, index)) => Ok(l.emit_op(BytecodeType::GetGlobal(index), location)),
                Err(e) => Err(e),
            },
        }
    }

    /// Calls the function `name` on `arg_cnt` arguments that are on the
    /// stack: the print instruction for the reserved name, else the global
    /// of that name and a call.
    pub open spec fn call(self, name: Seq<char>, arg_cnt: nat, location: Location) -> Outcome {
        if arg_cnt > u8::MAX {
            Err(CompileError::at(ErrorKind::PoolOverflow, location))
        } else if name == PRINT@ {
            Ok(self.emit_op(BytecodeType::Print { arg_cnt: arg_cnt as u8 }, location))
        } else {
            match self.intern(name, location) {
                Ok((l, index)) => Ok(
                    l.emit_op(BytecodeType::GetGlobal(index), location).emit_op(
                        BytecodeType::CallFunc { arg_cnt: arg_cnt as u8 },
                        location,
                    ),
                ),
                Err(e) => Err(e),
            }
        }
    }

    /// Calls the method `name` of the receiver on the stack on `arg_cnt`
    /// arguments below it.
    pub open spec fn dispatch(self, name: Seq<char>, arg_cnt: nat, location: Location) -> Outcome {
        if arg_cnt > u8::MAX {
            Err(CompileError::at(ErrorKind::PoolOverflow, location))
        } else {
            match self.intern(name, location) {
                Ok((l, index)) => Ok(
                    l.emit_op(
                        BytecodeType::DispatchMethod { name: index, arg_cnt: arg_cnt as u8 },
                        location,
                    ),
                ),
                Err(e) => Err(e),
            }
        }
    }

    /// An instruction whose operand is the pool index of the string `name`.
    pub open spec fn named(
        self,
        name: Seq<char>,
        op: spec_fn(ConstantPoolIndex) -> BytecodeType,
        location: Location,
    ) -> Outcome {
        match self.intern(name, location) {
            Ok((l, index)) => Ok(l.emit_op(op(index), location)),
            Err(e) => Err(e),
        }
    }

    /// Declares the variable `name`, whose value is on the stack: a global
    /// at the top level, the next local slot inside a function.
    pub open spec fn declare(self, name: Seq<char>, mutable: bool, location: Location) -> Outcome {
        match self.state.location {
            LocationView::Global => match self.intern(name, location) {
                Ok((l, index)) => Ok(
                    l.emit_op(
                        if mutable {
                            BytecodeType::DeclVarGlobal { name: index }
                        } else {
                            BytecodeType::DeclValGlobal { name: index }
                        },
                        location,
                    ),
                ),
                Err(e) => Err(e),
            },
            LocationView::Local(env) => self.declare_local(name, mutable, self.state.local_count, location),
            LocationView::Class(_) => Err(
                CompileError::at(ErrorKind::Unsupported(Construct::ClassMember), location),
            ),
        }
    }

    /// Binds `name` to the next local slot and stores the value on the stack
    /// in the slot `slot`.
    pub open spec fn declare_local(
        self,
        name: Seq<char>,
        mutable: bool,
        slot: LocalIndex,
        location: Location,
    ) -> Outcome {
        let env = self.state.location.scopes();
        if env.len() > 0 && env.last().contains_key(name) {
            Err(CompileError::at(ErrorKind::Redefinition, location))
        } else if self.state.local_count == u16::MAX {
            Err(CompileError::at(ErrorKind::PoolOverflow, location))
        } else {
            Ok(
                self.with_state(
                    self.state.bind(name, Local { idx: self.state.local_count, mutable }).add_locals(
                        1,
                    ),
                ).emit_op(BytecodeType::SetLocal(slot), location),
            )
        }
    }

    /// Assigns the value on the stack to the variable `name`: to the local
    /// of that name inside a function, unless it is immutable; else to the
    /// global.
    pub open spec fn assign(self, name: Seq<char>, at: Location, location: Location) -> Outcome {
        let found = if self.state.location is Local {
            lookup(self.state.location.scopes(), name)
        } else {
            None
        };
        match found {
            Some(local) => if local.mutable {
                Ok(self.emit_op(BytecodeType::SetLocal(local.idx), at))
            } else {
                Err(CompileError::at(ErrorKind::Immutable, location))
            },
            None => match self.intern(name, location) {
                Ok((l, index)) => Ok(l.emit_op(BytecodeType::SetGlobal(index), at)),
                Err(e) => Err(e),
            },
        }
    }

    /// Binds the function at pool index `fun` to the global whose name is at
    /// pool index `name`. Functions inside functions are not supported.
    pub open spec fn function_def(
        self,
        name: ConstantPoolIndex,
        fun: ConstantPoolIndex,
        location: Location,
    ) -> Outcome {
        match self.state.location {
            LocationView::Global => Ok(
                self.emit_op(BytecodeType::PushLiteral(fun), location).emit_op(
                    BytecodeType::DeclValGlobal { name },
                    location,
                ),
            ),
            LocationView::Local(_) => Err(
                CompileError::at(ErrorKind::Unsupported(Construct::NestedFunction), location),
            ),
            LocationView::Class(_) => Err(CompileError::at(ErrorKind::InvariantViolation, location)),
        }
    }
}


/// Why a function or class cannot be defined at `place`, if it cannot.
pub open spec fn definition_refused(place: LocationView) -> Option<ErrorKind> {
    match place {
        LocationView::Global => None,
        LocationView::Local(_) => Some(ErrorKind::Unsupported(Construct::NestedFunction)),
        LocationView::Class(_) => Some(ErrorKind::InvariantViolation),
    }
}

/// The body of the constructor that every class gets: a new object of the
/// class at pool index `class`, returned through local slot 0.
pub open spec fn constructor_body(class: ConstantPoolIndex) -> Seq<Instruction> {
    let nowhere = Location(0, 0);
    seq![
        Instruction { instr: Instr::Op(BytecodeType::NewObject(class)), location: nowhere },
        Instruction { instr: Instr::Op(BytecodeType::SetLocal(0)), location: nowhere },
        Instruction { instr: Instr::Op(BytecodeType::GetLocal(0)), location: nowhere },
        Instruction { instr: Instr::Op(BytecodeType::Ret), location: nowhere },
    ]
}

/// The code that ends in a return: a body without instructions pushes none
/// first, and a return is appended unless the last instruction is one.
pub open spec fn returning(l: Lowering, location: Location) -> Lowering {
    let filled = if l.code.len() == 0 {
        l.emit_op(BytecodeType::PushNone, location)
    } else {
        l
    };
    if filled.code.last().instr == Instr::Op(BytecodeType::Ret) {
        filled
    } else {
        filled.emit_op(BytecodeType::Ret, location)
    }
}

/// Binds the parameters from index `from` on to successive local slots and
/// emits, for each, the store that moves the argument from the stack into
/// its slot.
pub open spec fn lower_params(
    l: Lowering,
    parameters: Seq<String>,
    from: nat,
    location: Location,
) -> Outcome
    decreases parameters.len() - from,
{
    if from >= parameters.len() {
        Ok(l)
    } else if !(l.state.location is Local) {
        lower_params(l, parameters, from + 1, location)
    } else if from > u16::MAX {
        Err(CompileError::at(ErrorKind::PoolOverflow, location))
    } else {
        match l.declare_local(parameters[from as int]@, false, from as u16, location) {
            Ok(next) => lower_params(next, parameters, from + 1, location),
            Err(e) => Err(e),
        }
    }
}

/// Compiles an expression. The code leaves the value of the expression on
/// the stack; with `drop`, a drop follows it.
pub open spec fn lower_expr(l: Lowering, e: Expr, drop: bool) -> Outcome
    decreases e, 1nat,
{
    match lower_value(l, e, drop) {
        Ok(done) => Ok(
            if drop {
                done.emit_op(BytecodeType::Drop, e.location)
            } else {
                done
            },
        ),
        Err(err) => Err(err),
    }
}

/// The code of an expression before the drop that `lower_expr` may add.
/// `drop` is handed on to the branches of a conditional.
pub open spec fn lower_value(l: Lowering, e: Expr, drop: bool) -> Outcome
    decreases e, 0nat,
{
    let at = e.location;
    match e.node {
        ExprType::Integer(v) => Ok(l.emit_op(BytecodeType::PushInt(v), at)),
        ExprType::Float(_) => Err(CompileError::at(ErrorKind::Unsupported(Construct::Float), at)),
        ExprType::Bool(v) => Ok(l.emit_op(BytecodeType::PushBool(v), at)),
        ExprType::NoneVal => Ok(l.emit_op(BytecodeType::PushNone, at)),
        ExprType::String(text) => l.named(text@, |i: ConstantPoolIndex| BytecodeType::PushLiteral(i), at),
        ExprType::Block(stmts, tail) => match lower_stmts(
            l.with_state(l.state.enter_scope()),
            stmts,
            0,
        ) {
            Ok(inner) => match lower_expr(inner, *tail, false) {
                Ok(done) => Ok(done.with_state(done.state.leave_scope())),
                Err(err) => Err(err),
            },
            Err(err) => Err(err),
        },
        ExprType::List { .. } => Err(CompileError::at(ErrorKind::Unsupported(Construct::List), at)),
        ExprType::AccessVariable { name } => l.access_variable(name@, at),
        ExprType::AccessList { .. } => Err(
            CompileError::at(ErrorKind::Unsupported(Construct::AccessIndex), at),
        ),
        ExprType::CallFunction { name, arguments } => match lower_args(
            l,
            arguments,
            arguments.len() as nat,
        ) {
            Ok(done) => done.call(name@, arguments.len() as nat, at),
            Err(err) => Err(err),
        },
        ExprType::MethodCall { left, name, arguments } => match lower_args(
            l,
            arguments,
            arguments.len() as nat,
        ) {
            Ok(pushed) => match lower_expr(pushed, *left, false) {
                Ok(done) => done.dispatch(name@, arguments.len() as nat, at),
                Err(err) => Err(err),
            },
            Err(err) => Err(err),
        },
        ExprType::Conditional { guard, then_branch, else_branch } => match l.fresh_label(
            ELSE_PREFIX@,
            at,
        ) {
            Ok((l1, label_else)) => match l1.fresh_label(MERGE_PREFIX@, at) {
                Ok((l2, label_end)) => match lower_expr(l2, *guard, false) {
                    Ok(guarded) => match lower_expr(
                        guarded.emit(Instr::BranchLabelFalse(label_else), at),
                        *then_branch,
                        drop,
                    ) {
                        Ok(then_done) => {
                            let at_else = then_done.emit(Instr::JmpLabel(label_end), at).emit(
                                Instr::Label(label_else),
                                at,
                            );
                            match else_branch {
                                Some(else_body) => match lower_expr(at_else, *else_body, drop) {
                                    Ok(else_done) => Ok(else_done.emit(Instr::Label(label_end), at)),
                                    Err(err) => Err(err),
                                },
                                None => Ok(
                                    (if drop {
                                        at_else
                                    } else {
                                        at_else.emit_op(BytecodeType::PushNone, at)
                                    }).emit(Instr::Label(label_end), at),
                                ),
                            }
                        },
                        Err(err) => Err(err),
                    },
                    Err(err) => Err(err),
                },
                Err(err) => Err(err),
            },
            Err(err) => Err(err),
        },
        ExprType::Operator { op, arguments } => if arguments.len() != arity(op) {
            Err(CompileError::at(ErrorKind::ArityMismatch, at))
        } else {
            match lower_args(l, arguments, arguments.len() as nat) {
                Ok(done) => Ok(done.emit_op(operation(op), at)),
                Err(err) => Err(err),
            }
        },
        ExprType::MemberRead { left, right } => match lower_expr(l, *left, false) {
            Ok(done) => done.named(right@, |i: ConstantPoolIndex| BytecodeType::GetMember(i), at),
            Err(err) => Err(err),
        },
    }
}

/// Compiles the first `n` of the arguments in reverse order, so that the
/// first argument is computed last and lies on top of the stack.
pub open spec fn lower_args(l: Lowering, args: Vec<Expr>, n: nat) -> Outcome
    decreases args, n,
{
    if n == 0 || n > args.len() {
        Ok(l)
    } else {
        match lower_expr(l, args[n - 1], false) {
            Ok(next) => lower_args(next, args, (n - 1) as nat),
            Err(err) => Err(err),
        }
    }
}

/// Compiles the statements of a block from index `from` on, each as a
/// statement: the value of an expression statement is dropped.
pub open spec fn lower_stmts(l: Lowering, stmts: Vec<Stmt>, from: nat) -> Outcome
    decreases stmts, stmts.len() - from,
{
    if from >= stmts.len() {
        Ok(l)
    } else {
        match lower_stmt(l, stmts[from as int]) {
            Ok(next) => lower_stmts(next, stmts, from + 1),
            Err(err) => Err(err),
        }
    }
}

/// Compiles the top-level statements from index `from` on. The value of an
/// expression statement is dropped unless the statement is the last one:
/// that value is what the program leaves behind.
pub open spec fn lower_top(l: Lowering, stmts: Vec<Stmt>, from: nat) -> Outcome
    decreases stmts, stmts.len() - from,
{
    if from >= stmts.len() {
        Ok(l)
    } else {
        let step = match stmts[from as int].node {
            StmtType::Expression(e) => lower_expr(l, e, from + 1 < stmts.len()),
            _ => lower_stmt(l, stmts[from as int]),
        };
        match step {
            Ok(next) => lower_top(next, stmts, from + 1),
            Err(err) => Err(err),
        }
    }
}

/// Compiles a function into a pool entry: its name is interned, its body is
/// compiled with a local count of its own, and the function is added to the
/// pool. Yields the pool indices of the name and of the function.
pub open spec fn lower_function(
    state: CompilerView,
    name: Seq<char>,
    parameters: Vec<String>,
    body: Expr,
    location: Location,
) -> Result<(CompilerView, ConstantPoolIndex, ConstantPoolIndex), CompileError>
    decreases body, 3nat,
{
    match (CompilerView { local_count: 0, local_max: 0, ..state }).intern(name, location) {
        Ok((named, name_index)) => match lower_fun(named, name_index, parameters, body) {
            Ok((compiled, function)) => match compiled.add_object(
                ObjectView::Function(function),
                location,
            ) {
                Ok((added, fun_index)) => Ok(
                    (
                        CompilerView {
                            local_count: state.local_count,
                            local_max: state.local_max,
                            ..added
                        },
                        name_index,
                        fun_index,
                    ),
                ),
                Err(err) => Err(err),
            },
            Err(err) => Err(err),
        },
        Err(err) => Err(err),
    }
}

/// Compiles the body of a function in a scope of its own: the parameters
/// are moved into their slots, the body leaves its value on the stack, and
/// the code ends in a return. The function needs as many local slots as
/// were live at once.
pub open spec fn lower_fun(
    state: CompilerView,
    name: ConstantPoolIndex,
    parameters: Vec<String>,
    body: Expr,
) -> Result<(CompilerView, FunctionView), CompileError>
    decreases body, 2nat,
{
    let start = Lowering { state: state.enter_scope(), code: Seq::empty() };
    match lower_params(start, parameters@, 0, body.location) {
        Ok(bound) => match lower_expr(bound, body, false) {
            Ok(computed) => {
                let done = returning(computed, body.location);
                let left = done.state.leave_scope();
                if parameters.len() > u8::MAX {
                    Err(CompileError::at(ErrorKind::PoolOverflow, body.location))
                } else {
                    Ok(
                        (
                            left,
                            FunctionView {
                                name,
                                parameters_cnt: parameters.len() as u8,
                                locals_cnt: left.local_max,
                                body: done.code,
                            },
                        ),
                    )
                }
            },
            Err(err) => Err(err),
        },
        Err(err) => Err(err),
    }
}

/// Compiles the members of a class from index `from` on. Each must be a
/// function; it becomes a method, and its pool index is appended to
/// `methods`.
pub open spec fn lower_members(
    state: CompilerView,
    members: Vec<Stmt>,
    from: nat,
    methods: Seq<ConstantPoolIndex>,
) -> Result<(CompilerView, Seq<ConstantPoolIndex>), CompileError>
    decreases members, members.len() - from,
{
    if from >= members.len() {
        Ok((state, methods))
    } else {
        let member = members[from as int];
        match member.node {
            StmtType::Function { name, parameters, body } => match lower_function(
                state,
                name@,
                parameters,
                body,
                member.location,
            ) {
                Ok((next, _, method)) => lower_members(next, members, from + 1, methods.push(method)),
                Err(err) => Err(err),
            },
            StmtType::Class { .. } => Err(
                CompileError::at(ErrorKind::Unsupported(Construct::NestedClass), member.location),
            ),
            _ => Err(
                CompileError::at(ErrorKind::Unsupported(Construct::ClassMember), member.location),
            ),
        }
    }
}

/// Compiles a class: its name is interned, its methods become pool entries,
/// then the class itself and a constructor without parameters, which the
/// global of the class's name is bound to.
pub open spec fn lower_class(l: Lowering, name: Seq<char>, members: Vec<Stmt>, at: Location) -> Outcome
    decreases members, members.len() + 1,
{
    match l.state.intern(name, at) {
        Ok((named, name_index)) => match lower_members(named, members, 0, Seq::empty()) {
            Ok((with_methods, methods)) => match with_methods.add_object(
                ObjectView::Class { name: name_index, methods },
                at,
            ) {
                Ok((with_class, class_index)) => match with_class.add_object(
                    ObjectView::Function(
                        FunctionView {
                            name: name_index,
                            parameters_cnt: 0,
                            locals_cnt: 0,
                            body: constructor_body(class_index),
                        },
                    ),
                    at,
                ) {
                    Ok((done, fun_index)) => l.with_state(done).function_def(
                        name_index,
                        fun_index,
                        at,
                    ),
                    Err(err) => Err(err),
                },
                Err(err) => Err(err),
            },
            Err(err) => Err(err),
        },
        Err(err) => Err(err),
    }
}

/// Compiles a statement. The code leaves the stack as it found it, but for
/// the top-level statement: see `lower_top`.
pub open spec fn lower_stmt(l: Lowering, s: Stmt) -> Outcome
    decreases s, 0nat,
{
    let at = s.location;
    match s.node {
        StmtType::Variable { name, mutable, value } => match lower_expr(l, value, false) {
            Ok(done) => done.declare(name@, mutable, at),
            Err(err) => Err(err),
        },
        StmtType::AssignVariable { name, value } => match lower_expr(l, value, false) {
            Ok(done) => done.assign(name@, value.location, at),
            Err(err) => Err(err),
        },
        StmtType::AssignList { .. } => Err(
            CompileError::at(ErrorKind::Unsupported(Construct::AssignIndex), at),
        ),
        StmtType::Function { name, parameters, body } => match definition_refused(l.state.location) {
            Some(kind) => Err(CompileError::at(kind, at)),
            None => match lower_function(l.state, name@, parameters, body, at) {
                Ok((done, name_index, fun_index)) => l.with_state(done).function_def(
                    name_index,
                    fun_index,
                    at,
                ),
                Err(err) => Err(err),
            },
        },
        StmtType::Class { name, statements } => match definition_refused(l.state.location) {
            Some(kind) => Err(CompileError::at(kind, at)),
            None => lower_class(l, name@, statements, at),
        },
        StmtType::Top(stmts) => lower_top(l, stmts, 0),
        StmtType::While { .. } => Err(CompileError::at(ErrorKind::Unsupported(Construct::While), at)),
        StmtType::Return(_) => Err(CompileError::at(ErrorKind::Unsupported(Construct::Return), at)),
        StmtType::Expression(e) => lower_expr(l, e, true),
        StmtType::MemberStore { left, right, val } => match lower_expr(l, val, false) {
            Ok(valued) => match lower_expr(valued, left, false) {
                Ok(done) => done.named(right@, |i: ConstantPoolIndex| BytecodeType::SetMember(i), at),
                Err(err) => Err(err),
            },
            Err(err) => Err(err),
        },
    }
}

} // verus!
