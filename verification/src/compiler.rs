use vstd::prelude::*;
use vstd::hash_map::StringHashMap;
use vstd::string::*;
use crate::ast::{Expr, ExprType, Opcode, Stmt, StmtType};
use crate::bytecode::{
    Bytecode, BytecodeType, Code, ConstantPoolIndex, Instr, Instruction, LocalIndex,
};
use crate::error::{CompileError, Construct, ErrorKind};
use crate::lowering::{
    arity, bindings, definition_refused, lookup, lower_args, lower_expr, lower_fun, lower_function,
    lower_members, lower_params, lower_stmt, lower_stmts, lower_top, lower_value, scopes_finite,
    CompilerView, Local, LocationView, Lowering, Outcome, Scope, ELSE_PREFIX, MAIN, MERGE_PREFIX,
    PRINT,
};
use crate::jumps::{pool_resolved, resolve_jumps, resolve_pool};
use crate::objects::{ConstantPool, Function, FunctionView, Object, ObjectView};
use crate::utils::{LabelGenerator, Location};

verus! {

/// Keeps track of the slots of local variables: a stack of scopes, each a
/// map from the name of a variable to its slot, innermost scope last.
pub struct Environment {
    envs: Vec<StringHashMap<Local>>,
}

impl View for Environment {
    type V = Seq<Scope>;

    closed spec fn view(&self) -> Seq<Scope> {
        self.envs@.map_values(|m: StringHashMap<Local>| m@)
    }
}

impl Environment {
    /// Returns an environment with one empty scope.
    pub fn new() -> (r: Self)
        ensures
            r@ == seq![Map::<Seq<char>, Local>::empty()],
    {
        let mut envs: Vec<StringHashMap<Local>> = Vec::new();
        envs.push(StringHashMap::new());
        let r = Self { envs };
        assert(r@ =~= seq![Map::<Seq<char>, Local>::empty()]);
        r
    }

    /// Opens one more scope inside the innermost one.
    pub fn enter_scope(&mut self)
        ensures
            final(self)@ == old(self)@.push(Map::<Seq<char>, Local>::empty()),
    {
        self.envs.push(StringHashMap::new());
        assert(self@ =~= old(self)@.push(Map::<Seq<char>, Local>::empty()));
    }

    /// Closes the innermost scope and returns the number of variables that
    /// were bound in it.
    pub fn leave_scope(&mut self) -> (r: usize)
        requires
            old(self)@.len() > 0,
        ensures
            final(self)@ == old(self)@.drop_last(),
            r == old(self)@.last().len(),
    {
        let top = self.envs.pop().unwrap();
        assert(self@ =~= old(self)@.drop_last());
        assert(top@ == old(self)@.last());
        top.len()
    }

    /// The number of open scopes.
    pub fn depth(&self) -> (r: usize)
        ensures
            r == self@.len(),
    {
        self.envs.len()
    }

    /// Binds `v` in the innermost scope. A name that is bound there already
    /// cannot be bound again: `Redefinition`, and nothing changes.
    pub fn add_local(&mut self, v: String, idx: LocalIndex, mutable: bool) -> (r: Result<
        (),
        ErrorKind,
    >)
        requires
            old(self)@.len() > 0,
        ensures
            old(self)@.last().contains_key(v@) ==> r == Err::<(), ErrorKind>(
                ErrorKind::Redefinition,
            ) && final(self)@ == old(self)@,
            !old(self)@.last().contains_key(v@) ==> r is Ok && final(self)@ == old(self)@.update(
                old(self)@.len() - 1,
                old(self)@.last().insert(v@, Local { idx, mutable }),
            ),
    {
        let mut topmost = self.envs.pop().unwrap();
        assert(topmost@ == old(self)@.last());
        if topmost.contains_key(v.as_str()) {
            self.envs.push(topmost);
            assert(self@ =~= old(self)@);
            return Err(ErrorKind::Redefinition);
        }
        topmost.insert(v, Local { idx, mutable });
        self.envs.push(topmost);
        assert(self@ =~= old(self)@.update(
            old(self)@.len() - 1,
            old(self)@.last().insert(v@, Local { idx, mutable }),
        ));
        Ok(())
    }

    /// Looks `v` up, innermost scope first. `None` where no scope binds it.
    pub fn fetch_local(&self, v: &String) -> (r: Option<Local>)
        ensures
            r == lookup(self@, v@),
    {
        let mut i: usize = self.envs.len();
        assert(self@.subrange(0, i as int) =~= self@);
        while i > 0
            invariant
                i <= self.envs.len(),
                lookup(self@, v@) == lookup(self@.subrange(0, i as int), v@),
            decreases i,
        {
            let ghost open = self@.subrange(0, i as int);
            assert(open.last() == self.envs@[i - 1]@);
            assert(open.drop_last() =~= self@.subrange(0, i - 1));
            match self.envs[i - 1].get(v.as_str()) {
                Some(local) => {
                    return Some(*local);
                },
                None => {},
            }
            i -= 1;
        }
        None
    }
}

/// Where the compiler stands.
pub enum LocationKind {
    Global,
    Local(Environment),
    Class(Environment),
}

impl View for LocationKind {
    type V = LocationView;

    open spec fn view(&self) -> LocationView {
        match *self {
            LocationKind::Global => LocationView::Global,
            LocationKind::Local(env) => LocationView::Local(env@),
            LocationKind::Class(env) => LocationView::Class(env@),
        }
    }
}

/// The state that the translation of a program threads through its steps.
pub struct Compiler {
    constant_pool: ConstantPool,
    location: LocationKind,
    label_generator: LabelGenerator,
    /// The number of local variables that are live.
    local_count: LocalIndex,
    /// The largest number of local slots that the function under
    /// compilation has needed so far.
    local_max: LocalIndex,
}

impl View for Compiler {
    type V = CompilerView;

    closed spec fn view(&self) -> CompilerView {
        CompilerView {
            pool: self.constant_pool@,
            location: self.location@,
            next_label: self.label_generator.next(),
            local_count: self.local_count,
            local_max: self.local_max,
        }
    }
}

/// Whether the result of a step and the state and code that it left are
/// those of `outcome`. After an error the state and the code have no meaning.
pub open spec fn reached(
    outcome: Outcome,
    r: Result<(), CompileError>,
    state: CompilerView,
    code: Seq<Instruction>,
) -> bool {
    match outcome {
        Ok(l) => r is Ok && state == l.state && code == l.code,
        Err(e) => r == Err::<(), CompileError>(e),
    }
}

/// Whether a step that succeeded kept the state sound and left the compiler
/// in the place where it started.
pub open spec fn kept(r: Result<(), CompileError>, before: CompilerView, after: CompilerView) -> bool {
    r is Ok ==> after.wf() && before.location.same_shape(after.location)
}

/// Checks that an operator is applied to as many arguments as it takes:
/// one for the negation, two for every other operator.
pub fn check_operator_arity(op: &Opcode, len: usize) -> (r: Result<(), ErrorKind>)
    ensures
        len == arity(*op) ==> r is Ok,
        len != arity(*op) ==> r == Err::<(), ErrorKind>(ErrorKind::ArityMismatch),
{
    let expected: usize = match op {
        Opcode::Add => 2,
        Opcode::Sub => 2,
        Opcode::Mul => 2,
        Opcode::Div => 2,
        Opcode::Mod => 2,
        Opcode::Less => 2,
        Opcode::LessEq => 2,
        Opcode::Greater => 2,
        Opcode::GreaterEq => 2,
        Opcode::Eq => 2,
        Opcode::Neq => 2,
        Opcode::Negate => 1,
    };
    if expected != len {
        Err(ErrorKind::ArityMismatch)
    } else {
        Ok(())
    }
}

impl Compiler {
    /// The compilation that this compiler and `code` are in.
    pub open spec fn with(&self, code: &Code) -> Lowering {
        Lowering { state: self@, code: code@ }
    }

    pub fn new() -> (r: Self)
        ensures
            r@ == CompilerView::initial(),
            r@.wf(),
    {
        let r = Self {
            constant_pool: ConstantPool::new(),
            location: LocationKind::Global,
            label_generator: LabelGenerator::new(),
            local_count: 0,
            local_max: 0,
        };
        assert(bindings(r@.location.scopes()) == 0);
        r
    }

    /// The constant pool as it stands.
    pub fn constant_pool(&self) -> (r: &ConstantPool)
        ensures
            r@ == self@.pool,
    {
        &self.constant_pool
    }

    /// The number of local variables that are live.
    pub fn local_count(&self) -> (r: LocalIndex)
        ensures
            r == self@.local_count,
    {
        self.local_count
    }

    /// The largest number of local slots that the function under
    /// compilation has needed so far.
    pub fn local_max(&self) -> (r: LocalIndex)
        ensures
            r == self@.local_max,
    {
        self.local_max
    }

    /// Records that `cnt` more local variables are live.
    pub fn add_locals(&mut self, cnt: LocalIndex)
        requires
            old(self)@.local_count + cnt <= u16::MAX,
        ensures
            final(self)@ == old(self)@.add_locals(cnt),
    {
        self.local_count += cnt;
        if self.local_count > self.local_max {
            self.local_max = self.local_count;
        }
    }

    /// Starts the local count of a new function and returns that of the
    /// function around it.
    pub fn reset_locals(&mut self) -> (backup: (LocalIndex, LocalIndex))
        ensures
            backup == (old(self)@.local_count, old(self)@.local_max),
            final(self)@ == (CompilerView { local_count: 0, local_max: 0, ..old(self)@ }),
    {
        let backup = (self.local_count, self.local_max);
        self.local_count = 0;
        self.local_max = 0;
        backup
    }

    /// Takes up the local count that `reset_locals` returned.
    pub fn restore_locals(&mut self, backup: (LocalIndex, LocalIndex))
        ensures
            final(self)@ == (CompilerView {
                local_count: backup.0,
                local_max: backup.1,
                ..old(self)@
            }),
    {
        self.local_count = backup.0;
        self.local_max = backup.1;
    }

    /// Opens a scope. At the top level this starts a local environment.
    pub fn enter_scope(&mut self)
        ensures
            final(self)@ == old(self)@.enter_scope(),
    {
        match &mut self.location {
            LocationKind::Global => {
                self.location = LocationKind::Local(Environment::new());
            },
            LocationKind::Local(env) => {
                env.enter_scope();
            },
            LocationKind::Class(env) => {
                env.enter_scope();
            },
        }
    }

    /// Closes the innermost scope: its variables are no longer live. There
    /// must be a scope to close.
    pub fn leave_scope(&mut self)
        requires
            old(self)@.location.scopes().len() >= 1,
            old(self)@.wf(),
        ensures
            final(self)@ == old(self)@.leave_scope(),
            final(self)@.wf(),
    {
        let mut released: usize = 0;
        let mut emptied = false;
        proof {
            lemma_bindings_last(self@.location.scopes());
        }
        match &mut self.location {
            LocationKind::Global => {},
            LocationKind::Local(env) => {
                released = env.leave_scope();
                emptied = env.depth() == 0;
            },
            LocationKind::Class(env) => {
                released = env.leave_scope();
            },
        }
        if emptied {
            self.location = LocationKind::Global;
        }
        self.local_count = self.local_count - released as u16;
        proof {
            let before = old(self)@.location.scopes();
            let after = self@.location.scopes();
            assert(after =~= before.drop_last());
            assert forall|i: int| 0 <= i < after.len() implies (#[trigger] after[i]).dom().finite() by {
                assert(after[i] == before[i]);
            }
        }
    }

    /// Appends an instruction to `code`.
    pub fn add_instruction(&mut self, code: &mut Code, instr: BytecodeType, location: Location)
        ensures
            *final(self) == *old(self),
            final(code)@ == old(code)@.push(Instruction { instr: instr@, location }),
            final(code).code@ == old(code).code@.push(Bytecode { instr, location }),
    {
        code.add(Bytecode { instr, location });
    }

    /// Adds a string to the constant pool and returns its index.
    pub fn intern(&mut self, text: &String, location: Location) -> (r: Result<
        ConstantPoolIndex,
        CompileError,
    >)
        ensures
            match old(self)@.intern(text@, location) {
                Ok((state, index)) => r == Ok::<ConstantPoolIndex, CompileError>(index) && final(
                    self)@ == state,
                Err(e) => r == Err::<ConstantPoolIndex, CompileError>(e),
            },
    {
        match self.constant_pool.add(Object::String(text.clone())) {
            Ok(index) => Ok(index),
            Err(kind) => Err(CompileError::new(kind, location)),
        }
    }

    /// Adds an entry to the constant pool and returns its index.
    pub fn add_object(&mut self, obj: Object, location: Location) -> (r: Result<
        ConstantPoolIndex,
        CompileError,
    >)
        ensures
            match old(self)@.add_object(obj@, location) {
                Ok((state, index)) => r == Ok::<ConstantPoolIndex, CompileError>(index) && final(
                    self)@ == state,
                Err(e) => r == Err::<ConstantPoolIndex, CompileError>(e),
            },
    {
        match self.constant_pool.add(obj) {
            Ok(index) => Ok(index),
            Err(kind) => Err(CompileError::new(kind, location)),
        }
    }

    /// Emits the code that binds the function at pool index `fun` to the
    /// global whose name is at pool index `name`. Inside a function this is
    /// not supported.
    pub fn emit_function_def(
        &mut self,
        name: ConstantPoolIndex,
        fun: ConstantPoolIndex,
        location: Location,
        code: &mut Code,
    ) -> (r: Result<(), CompileError>)
        ensures
            reached(
                old(self).with(old(code)).function_def(name, fun, location),
                r,
                final(self)@,
                final(code)@,
            ),
    {
        match &self.location {
            LocationKind::Global => {},
            LocationKind::Local(_) => {
                return Err(
                    CompileError::new(ErrorKind::Unsupported(Construct::NestedFunction), location),
                );
            },
            LocationKind::Class(_) => {
                return Err(CompileError::new(ErrorKind::InvariantViolation, location));
            },
        }
        self.add_instruction(code, BytecodeType::PushLiteral(fun), location);
        self.add_instruction(code, BytecodeType::DeclValGlobal { name }, location);
        Ok(())
    }

    /// Makes a label with the given prefix. A prefix that the generator
    /// refuses, or a counter that is used up, is a fault of the compiler.
    pub fn fresh_label(&mut self, prefix: &'static str, location: Location) -> (r: Result<
        String,
        CompileError,
    >)
        ensures
            match (Lowering { state: old(self)@, code: Seq::empty() }).fresh_label(prefix@, location) {
                Ok((l, label)) => r is Ok && r->Ok_0@ == label && final(self)@ == l.state,
                Err(e) => r == Err::<String, CompileError>(e),
            },
    {
        match self.label_generator.try_get_label(prefix) {
            Some(label) => Ok(label),
            None => Err(CompileError::new(ErrorKind::InvariantViolation, location)),
        }
    }

    /// Emits the read of the variable `name`.
    pub fn access_variable(&mut self, name: &String, code: &mut Code, location: Location) -> (r:
        Result<(), CompileError>)
        ensures
            reached(
                old(self).with(old(code)).access_variable(name@, location),
                r,
                final(self)@,
                final(code)@,
            ),
            r is Ok ==> final(self)@.location == old(self)@.location && final(self)@.local_count
                == old(self)@.local_count && final(self)@.local_max == old(self)@.local_max,
    {
        let found = match &self.location {
            LocationKind::Global => {
                assert(lookup(Seq::<Scope>::empty(), name@) is None);
                None
            },
            LocationKind::Local(env) => env.fetch_local(name),
            LocationKind::Class(env) => env.fetch_local(name),
        };
        match found {
            Some(local) => {
                self.add_instruction(code, BytecodeType::GetLocal(local.idx), location);
                Ok(())
            },
            None => match self.intern(name, location) {
                Ok(index) => {
                    self.add_instruction(code, BytecodeType::GetGlobal(index), location);
                    Ok(())
                },
                Err(e) => Err(e),
            },
        }
    }

    /// Emits the call of the function `name` on `arg_cnt` arguments.
    pub fn call(&mut self, name: &String, arg_cnt: usize, code: &mut Code, location: Location) -> (r:
        Result<(), CompileError>)
        ensures
            reached(
                old(self).with(old(code)).call(name@, arg_cnt as nat, location),
                r,
                final(self)@,
                final(code)@,
            ),
            r is Ok ==> final(self)@.location == old(self)@.location && final(self)@.local_count
                == old(self)@.local_count && final(self)@.local_max == old(self)@.local_max,
    {
        if arg_cnt > 0xff {
            return Err(CompileError::new(ErrorKind::PoolOverflow, location));
        }
        let print = String::from_str(PRINT);
        if <String as PartialEq>::eq(name, &print) {
            self.add_instruction(code, BytecodeType::Print { arg_cnt: arg_cnt as u8 }, location);
            Ok(())
        } else {
            match self.intern(name, location) {
                Ok(index) => {
                    self.add_instruction(code, BytecodeType::GetGlobal(index), location);
                    self.add_instruction(
                        code,
                        BytecodeType::CallFunc { arg_cnt: arg_cnt as u8 },
                        location,
                    );
                    Ok(())
                },
                Err(e) => Err(e),
            }
        }
    }

    /// Emits the call of the method `name` on `arg_cnt` arguments.
    pub fn dispatch(&mut self, name: &String, arg_cnt: usize, code: &mut Code, location: Location) -> (r:
        Result<(), CompileError>)
        ensures
            reached(
                old(self).with(old(code)).dispatch(name@, arg_cnt as nat, location),
                r,
                final(self)@,
                final(code)@,
            ),
            r is Ok ==> final(self)@.location == old(self)@.location && final(self)@.local_count
                == old(self)@.local_count && final(self)@.local_max == old(self)@.local_max,
    {
        if arg_cnt > 0xff {
            return Err(CompileError::new(ErrorKind::PoolOverflow, location));
        }
        match self.intern(name, location) {
            Ok(index) => {
                self.add_instruction(
                    code,
                    BytecodeType::DispatchMethod { name: index, arg_cnt: arg_cnt as u8 },
                    location,
                );
                Ok(())
            },
            Err(e) => Err(e),
        }
    }

    /// Binds `name` to the next local slot and emits the store into `slot`.
    pub fn declare_local(
        &mut self,
        name: &String,
        mutable: bool,
        slot: LocalIndex,
        code: &mut Code,
        location: Location,
    ) -> (r: Result<(), CompileError>)
        requires
            old(self)@.wf(),
            old(self)@.location.scopes().len() >= 1,
        ensures
            reached(
                old(self).with(old(code)).declare_local(name@, mutable, slot, location),
                r,
                final(self)@,
                final(code)@,
            ),
            kept(r, old(self)@, final(self)@),
    {
        let count = self.local_count;
        let bound = match &mut self.location {
            LocationKind::Global => Ok(()),
            LocationKind::Local(env) => env.add_local(name.clone(), count, mutable),
            LocationKind::Class(env) => env.add_local(name.clone(), count, mutable),
        };
        match bound {
            Ok(()) => {},
            Err(kind) => {
                return Err(CompileError::new(kind, location));
            },
        }
        if self.local_count == 0xffff {
            return Err(CompileError::new(ErrorKind::PoolOverflow, location));
        }
        self.add_instruction(code, BytecodeType::SetLocal(slot), location);
        proof {
            lemma_bind_bindings(
                old(self)@.location.scopes(),
                name@,
                Local { idx: count, mutable },
            );
        }
        self.add_locals(1);
        Ok(())
    }

    /// Emits the declaration of the variable `name`.
    pub fn declare(&mut self, name: &String, mutable: bool, code: &mut Code, location: Location) -> (r:
        Result<(), CompileError>)
        requires
            old(self)@.wf(),
        ensures
            reached(
                old(self).with(old(code)).declare(name@, mutable, location),
                r,
                final(self)@,
                final(code)@,
            ),
            kept(r, old(self)@, final(self)@),
    {
        match &self.location {
            LocationKind::Global => match self.intern(name, location) {
                Ok(index) => {
                    if mutable {
                        self.add_instruction(
                            code,
                            BytecodeType::DeclVarGlobal { name: index },
                            location,
                        );
                    } else {
                        self.add_instruction(
                            code,
                            BytecodeType::DeclValGlobal { name: index },
                            location,
                        );
                    }
                    Ok(())
                },
                Err(e) => Err(e),
            },
            LocationKind::Local(_) => {
                let slot = self.local_count;
                self.declare_local(name, mutable, slot, code, location)
            },
            LocationKind::Class(_) => Err(
                CompileError::new(ErrorKind::Unsupported(Construct::ClassMember), location),
            ),
        }
    }

    /// Emits the assignment to the variable `name`. The instruction carries
    /// the span `at`; an error carries `location`.
    pub fn assign(&mut self, name: &String, code: &mut Code, at: Location, location: Location) -> (r:
        Result<(), CompileError>)
        ensures
            reached(
                old(self).with(old(code)).assign(name@, at, location),
                r,
                final(self)@,
                final(code)@,
            ),
            r is Ok ==> final(self)@.location == old(self)@.location && final(self)@.local_count
                == old(self)@.local_count && final(self)@.local_max == old(self)@.local_max,
    {
        let found = match &self.location {
            LocationKind::Local(env) => env.fetch_local(name),
            _ => None,
        };
        match found {
            Some(local) => {
                if !local.mutable {
                    return Err(CompileError::new(ErrorKind::Immutable, location));
                }
                self.add_instruction(code, BytecodeType::SetLocal(local.idx), at);
                Ok(())
            },
            None => match self.intern(name, location) {
                Ok(index) => {
                    self.add_instruction(code, BytecodeType::SetGlobal(index), at);
                    Ok(())
                },
                Err(e) => Err(e),
            },
        }
    }

    /// Compiles an expression into `code`. The code leaves the value of the
    /// expression on the stack; with `drop`, a drop follows it.
    pub fn compile_expr(&mut self, expr: &Expr, code: &mut Code, drop: bool) -> (r: Result<
        (),
        CompileError,
    >)
        requires
            old(self)@.wf(),
        ensures
            reached(
                lower_expr(old(self).with(old(code)), *expr, drop),
                r,
                final(self)@,
                final(code)@,
            ),
            kept(r, old(self)@, final(self)@),
        decreases expr, 2nat,
    {
        match self.compile_value(expr, code, drop) {
            Ok(()) => {},
            Err(e) => {
                return Err(e);
            },
        }
        code.add_cond(Bytecode { instr: BytecodeType::Drop, location: expr.location }, drop);
        Ok(())
    }

    /// Compiles an expression without the drop that `compile_expr` may add.
    fn compile_value(&mut self, expr: &Expr, code: &mut Code, drop: bool) -> (r: Result<
        (),
        CompileError,
    >)
        requires
            old(self)@.wf(),
        ensures
            reached(
                lower_value(old(self).with(old(code)), *expr, drop),
                r,
                final(self)@,
                final(code)@,
            ),
            kept(r, old(self)@, final(self)@),
        decreases expr, 1nat,
    {
        match &expr.node {
            ExprType::Block(..) => self.compile_scoped(expr, code, drop),
            ExprType::CallFunction { .. } => self.compile_call(expr, code, drop),
            ExprType::MethodCall { .. } => self.compile_method_call(expr, code, drop),
            ExprType::Conditional { .. } => self.compile_conditional(expr, code, drop),
            ExprType::Operator { .. } => self.compile_operator(expr, code, drop),
            ExprType::MemberRead { .. } => self.compile_member_read(expr, code, drop),
            _ => self.compile_leaf(expr, code, drop),
        }
    }

    /// Compiles an expression that has no expression inside it.
    fn compile_leaf(&mut self, expr: &Expr, code: &mut Code, drop: bool) -> (r: Result<
        (),
        CompileError,
    >)
        requires
            old(self)@.wf(),
            !(expr.node is Block || expr.node is CallFunction || expr.node is MethodCall
                || expr.node is Conditional || expr.node is Operator || expr.node is MemberRead),
        ensures
            reached(
                lower_value(old(self).with(old(code)), *expr, drop),
                r,
                final(self)@,
                final(code)@,
            ),
            kept(r, old(self)@, final(self)@),
    {
        let at = expr.location;
        match &expr.node {
            ExprType::Integer(val) => {
                self.add_instruction(code, BytecodeType::PushInt(*val), at);
                Ok(())
            },
            ExprType::Float(_) => Err(
                CompileError::new(ErrorKind::Unsupported(Construct::Float), at),
            ),
            ExprType::Bool(val) => {
                self.add_instruction(code, BytecodeType::PushBool(*val), at);
                Ok(())
            },
            ExprType::NoneVal => {
                self.add_instruction(code, BytecodeType::PushNone, at);
                Ok(())
            },
            ExprType::String(lit) => match self.intern(lit, at) {
                Ok(index) => {
                    self.add_instruction(code, BytecodeType::PushLiteral(index), at);
                    Ok(())
                },
                Err(e) => Err(e),
            },
            ExprType::List { .. } => Err(
                CompileError::new(ErrorKind::Unsupported(Construct::List), at),
            ),
            ExprType::AccessVariable { name } => self.access_variable(name, code, at),
            ExprType::AccessList { .. } => Err(
                CompileError::new(ErrorKind::Unsupported(Construct::AccessIndex), at),
            ),
            _ => Ok(()),
        }
    }

    /// Compiles a block: its statements and its value, in a scope of their
    /// own.
    fn compile_scoped(&mut self, expr: &Expr, code: &mut Code, drop: bool) -> (r: Result<
        (),
        CompileError,
    >)
        requires
            old(self)@.wf(),
            expr.node is Block,
        ensures
            reached(
                lower_value(old(self).with(old(code)), *expr, drop),
                r,
                final(self)@,
                final(code)@,
            ),
            kept(r, old(self)@, final(self)@),
        decreases expr, 0nat,
    {
        match &expr.node {
            ExprType::Block(stmts, tail) => {
                proof {
                    lemma_enter_scope_wf(self@);
                }
                self.enter_scope();
                match self.compile_stmts(stmts, code) {
                    Ok(()) => {},
                    Err(e) => {
                        return Err(e);
                    },
                }
                match self.compile_expr(tail, code, false) {
                    Ok(()) => {},
                    Err(e) => {
                        return Err(e);
                    },
                }
                self.leave_scope();
                Ok(())
            },
            _ => Ok(()),
        }
    }

    /// Compiles the call of a function.
    fn compile_call(&mut self, expr: &Expr, code: &mut Code, drop: bool) -> (r: Result<
        (),
        CompileError,
    >)
        requires
            old(self)@.wf(),
            expr.node is CallFunction,
        ensures
            reached(
                lower_value(old(self).with(old(code)), *expr, drop),
                r,
                final(self)@,
                final(code)@,
            ),
            kept(r, old(self)@, final(self)@),
        decreases expr, 0nat,
    {
        match &expr.node {
            ExprType::CallFunction { name, arguments } => {
                match self.compile_args(arguments, code) {
                    Ok(()) => {},
                    Err(e) => {
                        return Err(e);
                    },
                }
                self.call(name, arguments.len(), code, expr.location)
            },
            _ => Ok(()),
        }
    }

    /// Compiles the call of a method.
    fn compile_method_call(&mut self, expr: &Expr, code: &mut Code, drop: bool) -> (r: Result<
        (),
        CompileError,
    >)
        requires
            old(self)@.wf(),
            expr.node is MethodCall,
        ensures
            reached(
                lower_value(old(self).with(old(code)), *expr, drop),
                r,
                final(self)@,
                final(code)@,
            ),
            kept(r, old(self)@, final(self)@),
        decreases expr, 0nat,
    {
        match &expr.node {
            ExprType::MethodCall { left, name, arguments } => {
                match self.compile_args(arguments, code) {
                    Ok(()) => {},
                    Err(e) => {
                        return Err(e);
                    },
                }
                match self.compile_expr(left, code, false) {
                    Ok(()) => {},
                    Err(e) => {
                        return Err(e);
                    },
                }
                self.dispatch(name, arguments.len(), code, expr.location)
            },
            _ => Ok(()),
        }
    }

    /// Compiles a conditional: the guard, a branch over the then branch
    /// where the guard is false, and a jump over the else branch.
    fn compile_conditional(&mut self, expr: &Expr, code: &mut Code, drop: bool) -> (r: Result<
        (),
        CompileError,
    >)
        requires
            old(self)@.wf(),
            expr.node is Conditional,
        ensures
            reached(
                lower_value(old(self).with(old(code)), *expr, drop),
                r,
                final(self)@,
                final(code)@,
            ),
            kept(r, old(self)@, final(self)@),
        decreases expr, 0nat,
    {
        let at = expr.location;
        match &expr.node {
            ExprType::Conditional { guard, then_branch, else_branch } => {
                let label_else = match self.fresh_label(ELSE_PREFIX, at) {
                    Ok(label) => label,
                    Err(e) => {
                        return Err(e);
                    },
                };
                let label_end = match self.fresh_label(MERGE_PREFIX, at) {
                    Ok(label) => label,
                    Err(e) => {
                        return Err(e);
                    },
                };
                match self.compile_expr(guard, code, false) {
                    Ok(()) => {},
                    Err(e) => {
                        return Err(e);
                    },
                }
                self.add_instruction(code, BytecodeType::BranchLabelFalse(label_else.clone()), at);
                match self.compile_expr(then_branch, code, drop) {
                    Ok(()) => {},
                    Err(e) => {
                        return Err(e);
                    },
                }
                self.add_instruction(code, BytecodeType::JmpLabel(label_end.clone()), at);
                self.add_instruction(code, BytecodeType::Label(label_else), at);
                match else_branch {
                    Some(else_body) => {
                        match self.compile_expr(else_body, code, drop) {
                            Ok(()) => {},
                            Err(e) => {
                                return Err(e);
                            },
                        }
                    },
                    None => {
                        if !drop {
                            self.add_instruction(code, BytecodeType::PushNone, at);
                        }
                    },
                }
                self.add_instruction(code, BytecodeType::Label(label_end), at);
                Ok(())
            },
            _ => Ok(()),
        }
    }

    /// Compiles the application of an operator.
    fn compile_operator(&mut self, expr: &Expr, code: &mut Code, drop: bool) -> (r: Result<
        (),
        CompileError,
    >)
        requires
            old(self)@.wf(),
            expr.node is Operator,
        ensures
            reached(
                lower_value(old(self).with(old(code)), *expr, drop),
                r,
                final(self)@,
                final(code)@,
            ),
            kept(r, old(self)@, final(self)@),
        decreases expr, 0nat,
    {
        match &expr.node {
            ExprType::Operator { op, arguments } => {
                match check_operator_arity(op, arguments.len()) {
                    Ok(()) => {},
                    Err(kind) => {
                        return Err(CompileError::new(kind, expr.location));
                    },
                }
                match self.compile_args(arguments, code) {
                    Ok(()) => {},
                    Err(e) => {
                        return Err(e);
                    },
                }
                self.add_instruction(code, BytecodeType::from(*op), expr.location);
                Ok(())
            },
            _ => Ok(()),
        }
    }

    /// Compiles the read of a member of an object.
    fn compile_member_read(&mut self, expr: &Expr, code: &mut Code, drop: bool) -> (r: Result<
        (),
        CompileError,
    >)
        requires
            old(self)@.wf(),
            expr.node is MemberRead,
        ensures
            reached(
                lower_value(old(self).with(old(code)), *expr, drop),
                r,
                final(self)@,
                final(code)@,
            ),
            kept(r, old(self)@, final(self)@),
        decreases expr, 0nat,
    {
        match &expr.node {
            ExprType::MemberRead { left, right } => {
                match self.compile_expr(left, code, false) {
                    Ok(()) => {},
                    Err(e) => {
                        return Err(e);
                    },
                }
                match self.intern(right, expr.location) {
                    Ok(index) => {
                        self.add_instruction(code, BytecodeType::GetMember(index), expr.location);
                        Ok(())
                    },
                    Err(e) => Err(e),
                }
            },
            _ => Ok(()),
        }
    }

    /// Compiles the arguments of a call in reverse order, so that the first
    /// argument is computed last and lies on top of the stack.
    pub fn compile_args(&mut self, args: &Vec<Expr>, code: &mut Code) -> (r: Result<
        (),
        CompileError,
    >)
        requires
            old(self)@.wf(),
        ensures
            reached(
                lower_args(old(self).with(old(code)), *args, args.len() as nat),
                r,
                final(self)@,
                final(code)@,
            ),
            kept(r, old(self)@, final(self)@),
        decreases args, 0nat,
    {
        let mut i: usize = args.len();
        while i > 0
            invariant
                i <= args.len(),
                self@.wf(),
                old(self)@.location.same_shape(self@.location),
                lower_args(old(self).with(old(code)), *args, args.len() as nat) == lower_args(
                    self.with(code),
                    *args,
                    i as nat,
                ),
            decreases i,
        {
            match self.compile_expr(&args[i - 1], code, false) {
                Ok(()) => {},
                Err(e) => {
                    return Err(e);
                },
            }
            i -= 1;
        }
        Ok(())
    }

    /// Compiles the statements of a block, each as a statement.
    pub fn compile_stmts(&mut self, stmts: &Vec<Stmt>, code: &mut Code) -> (r: Result<
        (),
        CompileError,
    >)
        requires
            old(self)@.wf(),
        ensures
            reached(
                lower_stmts(old(self).with(old(code)), *stmts, 0),
                r,
                final(self)@,
                final(code)@,
            ),
            kept(r, old(self)@, final(self)@),
        decreases stmts, 0nat,
    {
        let mut i: usize = 0;
        while i < stmts.len()
            invariant
                i <= stmts.len(),
                self@.wf(),
                old(self)@.location.same_shape(self@.location),
                lower_stmts(old(self).with(old(code)), *stmts, 0) == lower_stmts(
                    self.with(code),
                    *stmts,
                    i as nat,
                ),
            decreases stmts.len() - i,
        {
            match self.compile_stmt(&stmts[i], code) {
                Ok(()) => {},
                Err(e) => {
                    return Err(e);
                },
            }
            i += 1;
        }
        Ok(())
    }

    /// Compiles the statements of the top level. The value of an expression
    /// statement is dropped unless the statement is the last one.
    pub fn compile_block(&mut self, stmts: &Vec<Stmt>, code: &mut Code) -> (r: Result<
        (),
        CompileError,
    >)
        requires
            old(self)@.wf(),
        ensures
            reached(
                lower_top(old(self).with(old(code)), *stmts, 0),
                r,
                final(self)@,
                final(code)@,
            ),
            kept(r, old(self)@, final(self)@),
        decreases stmts, 0nat,
    {
        let mut i: usize = 0;
        while i < stmts.len()
            invariant
                i <= stmts.len(),
                self@.wf(),
                old(self)@.location.same_shape(self@.location),
                lower_top(old(self).with(old(code)), *stmts, 0) == lower_top(
                    self.with(code),
                    *stmts,
                    i as nat,
                ),
            decreases stmts.len() - i,
        {
            let step = match &stmts[i].node {
                StmtType::Expression(expr) => self.compile_expr(expr, code, i + 1 < stmts.len()),
                _ => self.compile_stmt(&stmts[i], code),
            };
            match step {
                Ok(()) => {},
                Err(e) => {
                    return Err(e);
                },
            }
            i += 1;
        }
        Ok(())
    }

    /// Compiles a statement into `code`.
    pub fn compile_stmt(&mut self, ast: &Stmt, code: &mut Code) -> (r: Result<(), CompileError>)
        requires
            old(self)@.wf(),
        ensures
            reached(lower_stmt(old(self).with(old(code)), *ast), r, final(self)@, final(code)@),
            kept(r, old(self)@, final(self)@),
        decreases ast, 1nat,
    {
        let at = ast.location;
        match &ast.node {
            StmtType::Variable { .. } => self.compile_variable(ast, code),
            StmtType::AssignVariable { .. } => self.compile_assignment(ast, code),
            StmtType::AssignList { .. } => Err(
                CompileError::new(ErrorKind::Unsupported(Construct::AssignIndex), at),
            ),
            StmtType::Function { .. } => self.compile_function_def(ast, code),
            StmtType::Class { .. } => self.compile_class_def(ast, code),
            StmtType::Top(stmts) => self.compile_block(stmts, code),
            StmtType::While { .. } => Err(
                CompileError::new(ErrorKind::Unsupported(Construct::While), at),
            ),
            StmtType::Return(_) => Err(
                CompileError::new(ErrorKind::Unsupported(Construct::Return), at),
            ),
            StmtType::Expression(expr) => self.compile_expr(expr, code, true),
            StmtType::MemberStore { .. } => self.compile_member_store(ast, code),
        }
    }

    /// Compiles the declaration of a variable.
    fn compile_variable(&mut self, ast: &Stmt, code: &mut Code) -> (r: Result<(), CompileError>)
        requires
            old(self)@.wf(),
            ast.node is Variable,
        ensures
            reached(lower_stmt(old(self).with(old(code)), *ast), r, final(self)@, final(code)@),
            kept(r, old(self)@, final(self)@),
        decreases ast, 0nat,
    {
        match &ast.node {
            StmtType::Variable { name, mutable, value } => {
                match self.compile_expr(value, code, false) {
                    Ok(()) => {},
                    Err(e) => {
                        return Err(e);
                    },
                }
                self.declare(name, *mutable, code, ast.location)
            },
            _ => Ok(()),
        }
    }

    /// Compiles the assignment to a variable.
    fn compile_assignment(&mut self, ast: &Stmt, code: &mut Code) -> (r: Result<(), CompileError>)
        requires
            old(self)@.wf(),
            ast.node is AssignVariable,
        ensures
            reached(lower_stmt(old(self).with(old(code)), *ast), r, final(self)@, final(code)@),
            kept(r, old(self)@, final(self)@),
        decreases ast, 0nat,
    {
        match &ast.node {
            StmtType::AssignVariable { name, value } => {
                match self.compile_expr(value, code, false) {
                    Ok(()) => {},
                    Err(e) => {
                        return Err(e);
                    },
                }
                self.assign(name, code, value.location, ast.location)
            },
            _ => Ok(()),
        }
    }

    /// Compiles the store into a member of an object.
    fn compile_member_store(&mut self, ast: &Stmt, code: &mut Code) -> (r: Result<
        (),
        CompileError,
    >)
        requires
            old(self)@.wf(),
            ast.node is MemberStore,
        ensures
            reached(lower_stmt(old(self).with(old(code)), *ast), r, final(self)@, final(code)@),
            kept(r, old(self)@, final(self)@),
        decreases ast, 0nat,
    {
        match &ast.node {
            StmtType::MemberStore { left, right, val } => {
                match self.compile_expr(val, code, false) {
                    Ok(()) => {},
                    Err(e) => {
                        return Err(e);
                    },
                }
                match self.compile_expr(left, code, false) {
                    Ok(()) => {},
                    Err(e) => {
                        return Err(e);
                    },
                }
                match self.intern(right, ast.location) {
                    Ok(index) => {
                        self.add_instruction(code, BytecodeType::SetMember(index), ast.location);
                        Ok(())
                    },
                    Err(e) => Err(e),
                }
            },
            _ => Ok(()),
        }
    }

    /// Compiles the definition of a function at the top level.
    fn compile_function_def(&mut self, ast: &Stmt, code: &mut Code) -> (r: Result<
        (),
        CompileError,
    >)
        requires
            old(self)@.wf(),
            ast.node is Function,
        ensures
            reached(lower_stmt(old(self).with(old(code)), *ast), r, final(self)@, final(code)@),
            kept(r, old(self)@, final(self)@),
        decreases ast, 0nat,
    {
        let at = ast.location;
        match &ast.node {
            StmtType::Function { name, parameters, body } => {
                match self.definition_refused() {
                    Some(kind) => {
                        return Err(CompileError::new(kind, at));
                    },
                    None => {},
                }
                let (name_index, fun_index) = match self.compile_function(
                    name,
                    parameters,
                    body,
                    at,
                ) {
                    Ok(indices) => indices,
                    Err(e) => {
                        return Err(e);
                    },
                };
                self.emit_function_def(name_index, fun_index, at, code)
            },
            _ => Ok(()),
        }
    }

    /// Compiles the definition of a class at the top level.
    fn compile_class_def(&mut self, ast: &Stmt, code: &mut Code) -> (r: Result<(), CompileError>)
        requires
            old(self)@.wf(),
            ast.node is Class,
        ensures
            reached(lower_stmt(old(self).with(old(code)), *ast), r, final(self)@, final(code)@),
            kept(r, old(self)@, final(self)@),
        decreases ast, 0nat,
    {
        let at = ast.location;
        match &ast.node {
            StmtType::Class { name, statements } => {
                match self.definition_refused() {
                    Some(kind) => {
                        return Err(CompileError::new(kind, at));
                    },
                    None => {},
                }
                let name_index = match self.intern(name, at) {
                    Ok(index) => index,
                    Err(e) => {
                        return Err(e);
                    },
                };
                let methods = match self.compile_members(statements) {
                    Ok(methods) => methods,
                    Err(e) => {
                        return Err(e);
                    },
                };
                let class_index = match self.add_object(
                    Object::Class { name: name_index, methods },
                    at,
                ) {
                    Ok(index) => index,
                    Err(e) => {
                        return Err(e);
                    },
                };
                let constructor = Function {
                    name: name_index,
                    parameters_cnt: 0,
                    locals_cnt: 0,
                    body: constructor(class_index),
                };
                let fun_index = match self.add_object(Object::Function(constructor), at) {
                    Ok(index) => index,
                    Err(e) => {
                        return Err(e);
                    },
                };
                self.emit_function_def(name_index, fun_index, at, code)
            },
            _ => Ok(()),
        }
    }

    /// Why a function or a class cannot be defined where the compiler
    /// stands, if it cannot.
    pub fn definition_refused(&self) -> (r: Option<ErrorKind>)
        ensures
            r == definition_refused(self@.location),
    {
        match &self.location {
            LocationKind::Global => None,
            LocationKind::Local(_) => Some(ErrorKind::Unsupported(Construct::NestedFunction)),
            LocationKind::Class(_) => Some(ErrorKind::InvariantViolation),
        }
    }

    /// Compiles the members of a class, which must be functions, into pool
    /// entries, and returns their pool indices.
    pub fn compile_members(&mut self, members: &Vec<Stmt>) -> (r: Result<
        Vec<ConstantPoolIndex>,
        CompileError,
    >)
        requires
            old(self)@.wf(),
            old(self)@.location is Global,
        ensures
            match lower_members(old(self)@, *members, 0, Seq::empty()) {
                Ok((state, methods)) => r is Ok && r->Ok_0@ == methods && final(self)@ == state,
                Err(e) => r == Err::<Vec<ConstantPoolIndex>, CompileError>(e),
            },
            r is Ok ==> final(self)@.wf() && final(self)@.location is Global,
        decreases members, 0nat,
    {
        let mut methods: Vec<ConstantPoolIndex> = Vec::new();
        let mut i: usize = 0;
        while i < members.len()
            invariant
                i <= members.len(),
                self@.wf(),
                self@.location is Global,
                lower_members(old(self)@, *members, 0, Seq::empty()) == lower_members(
                    self@,
                    *members,
                    i as nat,
                    methods@,
                ),
            decreases members.len() - i,
        {
            let member = &members[i];
            match &member.node {
                StmtType::Function { name, parameters, body } => {
                    match self.compile_function(name, parameters, body, member.location) {
                        Ok((_, method)) => {
                            methods.push(method);
                        },
                        Err(e) => {
                            return Err(e);
                        },
                    }
                },
                StmtType::Class { .. } => {
                    return Err(
                        CompileError::new(
                            ErrorKind::Unsupported(Construct::NestedClass),
                            member.location,
                        ),
                    );
                },
                _ => {
                    return Err(
                        CompileError::new(
                            ErrorKind::Unsupported(Construct::ClassMember),
                            member.location,
                        ),
                    );
                },
            }
            i += 1;
        }
        Ok(methods)
    }

    /// Compiles a function into a pool entry and returns the pool indices of
    /// its name and of the function.
    pub fn compile_function(
        &mut self,
        name: &String,
        parameters: &Vec<String>,
        body: &Expr,
        location: Location,
    ) -> (r: Result<(ConstantPoolIndex, ConstantPoolIndex), CompileError>)
        requires
            old(self)@.wf(),
            old(self)@.location is Global,
        ensures
            match lower_function(old(self)@, name@, *parameters, *body, location) {
                Ok((state, name_index, fun_index)) => r == Ok::<
                    (ConstantPoolIndex, ConstantPoolIndex),
                    CompileError,
                >((name_index, fun_index)) && final(self)@ == state,
                Err(e) => r == Err::<(ConstantPoolIndex, ConstantPoolIndex), CompileError>(e),
            },
            r is Ok ==> final(self)@.wf() && final(self)@.location is Global,
        decreases body, 4nat,
    {
        let backup = self.reset_locals();
        let name_index = match self.intern(name, location) {
            Ok(index) => index,
            Err(e) => {
                return Err(e);
            },
        };
        let function = match self.compile_fun(name_index, parameters, body) {
            Ok(function) => function,
            Err(e) => {
                return Err(e);
            },
        };
        let fun_index = match self.add_object(Object::Function(function), location) {
            Ok(index) => index,
            Err(e) => {
                return Err(e);
            },
        };
        self.restore_locals(backup);
        Ok((name_index, fun_index))
    }

    /// Binds the parameters of a function to successive local slots and
    /// emits, for each, the store that moves the argument from the stack
    /// into its slot.
    pub fn compile_parameters(
        &mut self,
        code: &mut Code,
        parameters: &[String],
        location: Location,
    ) -> (r: Result<(), CompileError>)
        requires
            old(self)@.wf(),
            old(self)@.location.scopes().len() >= 1,
        ensures
            reached(
                lower_params(old(self).with(old(code)), parameters@, 0, location),
                r,
                final(self)@,
                final(code)@,
            ),
            kept(r, old(self)@, final(self)@),
    {
        let mut idx: usize = 0;
        while idx < parameters.len()
            invariant
                idx <= parameters.len(),
                self@.wf(),
                old(self)@.location.same_shape(self@.location),
                old(self)@.location.scopes().len() >= 1,
                lower_params(old(self).with(old(code)), parameters@, 0, location) == lower_params(
                    self.with(code),
                    parameters@,
                    idx as nat,
                    location,
                ),
            decreases parameters.len() - idx,
        {
            let local = match &self.location {
                LocationKind::Local(_) => true,
                _ => false,
            };
            if local {
                if idx > 0xffff {
                    return Err(CompileError::new(ErrorKind::PoolOverflow, location));
                }
                match self.declare_local(&parameters[idx], false, idx as u16, code, location) {
                    Ok(()) => {},
                    Err(e) => {
                        return Err(e);
                    },
                }
            }
            idx += 1;
        }
        Ok(())
    }

    /// Compiles the body of a function in a scope of its own.
    pub fn compile_fun(
        &mut self,
        name: ConstantPoolIndex,
        parameters: &Vec<String>,
        body: &Expr,
    ) -> (r: Result<Function, CompileError>)
        requires
            old(self)@.wf(),
        ensures
            match lower_fun(old(self)@, name, *parameters, *body) {
                Ok((state, function)) => r is Ok && r->Ok_0@ == function && final(self)@ == state,
                Err(e) => r == Err::<Function, CompileError>(e),
            },
            kept(match r {
                Ok(_) => Ok(()),
                Err(e) => Err(e),
            }, old(self)@, final(self)@),
        decreases body, 3nat,
    {
        proof {
            lemma_enter_scope_wf(self@);
        }
        self.enter_scope();
        let mut code = Code::new();
        match self.compile_parameters(&mut code, parameters.as_slice(), body.location) {
            Ok(()) => {},
            Err(e) => {
                return Err(e);
            },
        }
        match self.compile_expr(body, &mut code, false) {
            Ok(()) => {},
            Err(e) => {
                return Err(e);
            },
        }
        if code.code.len() == 0 {
            self.add_instruction(&mut code, BytecodeType::PushNone, body.location);
        }
        let ends_in_return = match &code.code[code.code.len() - 1].instr {
            BytecodeType::Ret => true,
            _ => false,
        };
        assert(ends_in_return == (code@.last().instr == Instr::Op(BytecodeType::Ret)));
        if !ends_in_return {
            self.add_instruction(&mut code, BytecodeType::Ret, body.location);
        }
        self.leave_scope();
        if parameters.len() > 0xff {
            return Err(CompileError::new(ErrorKind::PoolOverflow, body.location));
        }
        Ok(
            Function {
                name,
                parameters_cnt: parameters.len() as u8,
                locals_cnt: self.local_max,
                body: code,
            },
        )
    }
}

/// The body of the constructor that every class gets.
pub fn constructor(class_index: ConstantPoolIndex) -> (r: Code)
    ensures
        r@ == crate::lowering::constructor_body(class_index),
{
    let mut body = Code::new();
    body.add(Bytecode { instr: BytecodeType::NewObject(class_index), location: Location(0, 0) });
    body.add(Bytecode { instr: BytecodeType::SetLocal(0), location: Location(0, 0) });
    body.add(Bytecode { instr: BytecodeType::GetLocal(0), location: Location(0, 0) });
    body.add(Bytecode { instr: BytecodeType::Ret, location: Location(0, 0) });
    assert(body@ =~= crate::lowering::constructor_body(class_index));
    body
}

/// Binding a new name in the innermost scope adds one binding, and the scopes
/// stay finite.
pub proof fn lemma_bind_bindings(env: Seq<Scope>, name: Seq<char>, local: Local)
    requires
        env.len() > 0,
        scopes_finite(env),
        !env.last().contains_key(name),
    ensures
        bindings(env.update(env.len() - 1, env.last().insert(name, local))) == bindings(env) + 1,
        scopes_finite(env.update(env.len() - 1, env.last().insert(name, local))),
{
    let after = env.update(env.len() - 1, env.last().insert(name, local));
    assert(after.drop_last() =~= env.drop_last());
    assert(after.last() == env.last().insert(name, local));
    assert(env.last().dom().finite());
    assert(after.last().dom() =~= env.last().dom().insert(name));
    assert forall|i: int| 0 <= i < after.len() implies (#[trigger] after[i]).dom().finite() by {
        if i < env.len() - 1 {
            assert(after[i] == env[i]);
        }
    }
}

/// Opening a scope adds no binding, and the scopes stay finite.
pub proof fn lemma_enter_scope_wf(state: CompilerView)
    requires
        state.wf(),
    ensures
        state.enter_scope().wf(),
        state.enter_scope().location.scopes().len() == state.location.scopes().len() + 1,
        state.enter_scope().location.scopes().len() >= 1,
        state.location.same_shape(state.enter_scope().leave_scope().location),
{
    let env = state.location.scopes();
    let fresh: Scope = Map::empty();
    let after = state.enter_scope().location.scopes();
    assert(after =~= env.push(fresh));
    assert(after.drop_last() =~= env);
    assert(fresh.dom() =~= Set::<Seq<char>>::empty());
    assert(fresh.len() == 0);
    assert forall|i: int| 0 <= i < after.len() implies (#[trigger] after[i]).dom().finite() by {
        if i < env.len() {
            assert(after[i] == env[i]);
        }
    }
}

/// The bindings of all scopes are those of the outer scopes and those of the
/// innermost one; so the innermost scope holds no more than all together.
pub proof fn lemma_bindings_last(env: Seq<Scope>)
    ensures
        env.len() > 0 ==> bindings(env) == bindings(env.drop_last()) + env.last().len(),
        env.len() == 0 ==> bindings(env) == 0,
{
}


/// What the lowering of a program yields, before jumps are resolved: the
/// constant pool and the pool index of the entry point. The entry point is
/// a function without parameters, named `#main`, whose body is the code of
/// the top-level statements and a return.
pub open spec fn lowered(ast: Stmt) -> Result<(Seq<ObjectView>, ConstantPoolIndex), CompileError> {
    match CompilerView::initial().intern(MAIN@, ast.location) {
        Ok((named, main_name)) => match lower_stmt(
            Lowering { state: named, code: Seq::empty() },
            ast,
        ) {
            Ok(body) => {
                let main = FunctionView {
                    name: main_name,
                    parameters_cnt: 0,
                    locals_cnt: body.state.local_max,
                    body: body.emit_op(BytecodeType::Ret, ast.location).code,
                };
                match body.state.add_object(ObjectView::Function(main), ast.location) {
                    Ok((done, entry)) => Ok((done.pool, entry)),
                    Err(e) => Err(e),
                }
            },
            Err(e) => Err(e),
        },
        Err(e) => Err(e),
    }
}

/// What the compilation of a program yields: the constant pool of the
/// lowered program with the jumps of every function resolved, and the pool
/// index of the entry point. An error of jump resolution has no span.
pub open spec fn compiled(ast: Stmt) -> Result<(Seq<ObjectView>, ConstantPoolIndex), CompileError> {
    match lowered(ast) {
        Ok((pool, entry)) => match resolve_pool(pool) {
            Ok(resolved) => Ok((resolved, entry)),
            Err(kind) => Err(CompileError { kind, location: None }),
        },
        Err(e) => Err(e),
    }
}

/// Compiles a program into a constant pool and returns the pool together
/// with the index of the entry point in it.
pub fn compile(ast: &Stmt) -> (r: Result<(ConstantPool, ConstantPoolIndex), CompileError>)
    requires
        ast.node is Top,
    ensures
        match compiled(*ast) {
            Ok((pool, entry)) => r is Ok && r->Ok_0.0@ == pool && r->Ok_0.1 == entry,
            Err(e) => r == Err::<(ConstantPool, ConstantPoolIndex), CompileError>(e),
        },
        r is Ok ==> pool_resolved(r->Ok_0.0.data@),
{
    let mut compiler = Compiler::new();
    let main_name = String::from_str(MAIN);
    let idx = match compiler.intern(&main_name, ast.location) {
        Ok(idx) => idx,
        Err(e) => {
            return Err(e);
        },
    };
    let mut code = Code::new();
    match compiler.compile_stmt(ast, &mut code) {
        Ok(()) => {},
        Err(e) => {
            return Err(e);
        },
    }
    compiler.add_instruction(&mut code, BytecodeType::Ret, ast.location);
    let main_fun = Object::Function(
        Function { name: idx, parameters_cnt: 0, locals_cnt: compiler.local_max, body: code },
    );
    let main_fun_idx = match compiler.add_object(main_fun, ast.location) {
        Ok(idx) => idx,
        Err(e) => {
            return Err(e);
        },
    };
    match resolve_jumps(compiler.constant_pool) {
        Ok(pool) => Ok((pool, main_fun_idx)),
        Err(kind) => Err(CompileError { kind, location: None }),
    }
}

} // verus!
