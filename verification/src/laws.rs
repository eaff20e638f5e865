use vstd::prelude::*;
use crate::ast::{Expr, Stmt};
use crate::bytecode::{Bytecode, BytecodeType, ConstantPoolIndex, Instr, Instruction};
use crate::compiler::{compiled, lowered};
use crate::decoding::{content, lemma_read_image, read_image};
use crate::error::{CompileError, ErrorKind};
use crate::indices::{lemma_compiled_closed, lemma_image_of_closed_pool, pool_closed};
use crate::jumps::{label_offsets, pool_resolved, resolve_all, resolve_pool, resolved};
use crate::locals::{is_constructor, lemma_compiled_tidy, slots_needed};
use crate::lowering::{
    arity, CompilerView, Local, lookup, lower_expr, lower_stmt, lower_stmts, lower_top,
    lower_value, Lowering, MAIN,
};
use crate::objects::{
    entries, find_string, FunctionView, image, lemma_find_string, Object, ObjectView, pool_add,
};
use crate::serializable::{lemma_le_bytes_len, usize_width};
use crate::stack::{
    emitted, lemma_expr, lemma_stmt, Simulation, steady_expr, steady_stmt, stmt_delta,
};
use crate::targets::lemma_lowered_resolves;
use crate::utils::Location;

verus! {

/// The empty program compiles to a pool of two entries, the string `#main`
/// and the function of that name, which is the entry point; the function
/// takes no parameters, needs no local slots, and its body is one return.
pub proof fn law_empty_program(ast: Stmt)
    requires
        ast.node is Top,
        ast.node->Top_0.len() == 0,
    ensures
        compiled(ast) == Ok::<(Seq<ObjectView>, ConstantPoolIndex), CompileError>(
            (
                seq![
                    ObjectView::String(MAIN@),
                    ObjectView::Function(
                        FunctionView {
                            name: 0,
                            parameters_cnt: 0,
                            locals_cnt: 0,
                            body: seq![
                                Instruction {
                                    instr: Instr::Op(BytecodeType::Ret),
                                    location: ast.location,
                                },
                            ],
                        },
                    ),
                ],
                1,
            ),
        ),
{
    let start = CompilerView::initial();
    let name = ObjectView::String(MAIN@);
    assert(find_string(start.pool, MAIN@, 0) == 0);
    assert(pool_add(start.pool, name) == Ok::<(Seq<ObjectView>, ConstantPoolIndex), ErrorKind>(
        (start.pool.push(name), 0),
    ));
    let named = CompilerView { pool: start.pool.push(name), ..start };
    let l = Lowering { state: named, code: Seq::empty() };
    assert(lower_top(l, ast.node->Top_0, 0) == Ok::<Lowering, CompileError>(l));
    assert(lower_stmt(l, ast) == Ok::<Lowering, CompileError>(l));
    let ret = Instruction { instr: Instr::Op(BytecodeType::Ret), location: ast.location };
    let body = seq![ret];
    assert(l.emit_op(BytecodeType::Ret, ast.location).code =~= body);
    let main = FunctionView { name: 0, parameters_cnt: 0, locals_cnt: 0, body };
    let pool = named.pool.push(ObjectView::Function(main));
    assert(pool =~= seq![name, ObjectView::Function(main)]);
    assert(pool_add(named.pool, ObjectView::Function(main)) == Ok::<
        (Seq<ObjectView>, ConstantPoolIndex),
        ErrorKind,
    >((pool, 1)));
    // resolving the jumps of this pool changes nothing
    assert(body.drop_last() =~= Seq::<Instruction>::empty());
    assert(label_offsets(body.drop_last()) =~= Map::<Seq<char>, nat>::empty());
    assert(label_offsets(body) =~= Map::<Seq<char>, nat>::empty());
    assert(resolve_all(body.drop_last(), label_offsets(body)) == Ok::<Seq<Instruction>, ErrorKind>(
        Seq::empty(),
    ));
    assert(resolve_all(body, label_offsets(body)) == Ok::<Seq<Instruction>, ErrorKind>(
        Seq::<Instruction>::empty().push(ret),
    ));
    assert(Seq::<Instruction>::empty().push(ret) =~= body);
    assert(resolved(body) == Ok::<Seq<Instruction>, ErrorKind>(body));
    assert(pool.drop_last() =~= seq![name]);
    assert(pool.drop_last().drop_last() =~= Seq::<ObjectView>::empty());
    assert(resolve_pool(pool.drop_last().drop_last()) == Ok::<Seq<ObjectView>, ErrorKind>(
        Seq::empty(),
    ));
    assert(resolve_pool(pool.drop_last()) == Ok::<Seq<ObjectView>, ErrorKind>(
        Seq::<ObjectView>::empty().push(name),
    ));
    assert(Seq::<ObjectView>::empty().push(name) =~= pool.drop_last());
    assert(resolve_pool(pool) == Ok::<Seq<ObjectView>, ErrorKind>(
        pool.drop_last().push(ObjectView::Function(main)),
    ));
    assert(pool.drop_last().push(ObjectView::Function(main)) =~= pool);
}

/// A block whose last item is a statement has the value none: its code is
/// the code of its statements and then one instruction that pushes none,
/// at the span that the parser gave the missing value.
pub proof fn law_block_without_value(l: Lowering, e: Expr, drop: bool)
    requires
        e.node is Block,
        e.node->Block_1.node is NoneVal,
    ensures
        lower_value(l, e, drop) == match lower_stmts(
            l.with_state(l.state.enter_scope()),
            e.node->Block_0,
            0,
        ) {
            Ok(inner) => Ok::<Lowering, CompileError>(
                inner.emit_op(BytecodeType::PushNone, e.node->Block_1.location).with_state(
                    inner.state.leave_scope(),
                ),
            ),
            Err(err) => Err(err),
        },
{
    let tail = *e.node->Block_1;
    match lower_stmts(l.with_state(l.state.enter_scope()), e.node->Block_0, 0) {
        Ok(inner) => {
            assert(lower_value(inner, tail, false) == Ok::<Lowering, CompileError>(
                inner.emit_op(BytecodeType::PushNone, tail.location),
            ));
            assert(lower_expr(inner, tail, false) == Ok::<Lowering, CompileError>(
                inner.emit_op(BytecodeType::PushNone, tail.location),
            ));
        },
        Err(_) => {},
    }
}

/// Strings are not added twice: adding a string again yields the index that
/// the first addition yielded, and leaves the pool as the first addition
/// left it.
pub proof fn law_string_added_once(pool: Seq<ObjectView>, s: Seq<char>)
    requires
        pool_add(pool, ObjectView::String(s)) is Ok,
    ensures
        pool_add(pool_add(pool, ObjectView::String(s))->Ok_0.0, ObjectView::String(s)) == pool_add(
            pool,
            ObjectView::String(s),
        ),
        pool_add(pool, ObjectView::String(s))->Ok_0.0.len() <= pool.len() + 1,
{
    let first = pool_add(pool, ObjectView::String(s))->Ok_0;
    let after = first.0;
    lemma_find_string(pool, s, 0);
    lemma_find_string(after, s, 0);
    let found = find_string(pool, s, 0);
    if found < pool.len() {
        assert(after == pool);
    } else {
        assert(after == pool.push(ObjectView::String(s)));
        assert(after[pool.len() as int] == ObjectView::String(s));
        let again = find_string(after, s, 0);
        if again < pool.len() {
            assert(after[again] == pool[again]);
        }
        assert(again == pool.len());
    }
}

/// The index that `add` yields for a string is that of an equal string, and
/// no entry before it is an equal string.
pub proof fn law_string_index(pool: Seq<ObjectView>, s: Seq<char>)
    requires
        pool_add(pool, ObjectView::String(s)) is Ok,
    ensures
        ({
            let (after, index) = pool_add(pool, ObjectView::String(s))->Ok_0;
            &&& index < after.len()
            &&& after[index as int] == ObjectView::String(s)
            &&& forall|j: int| 0 <= j < index ==> after[j] != ObjectView::String(s)
        }),
{
    lemma_find_string(pool, s, 0);
    let (after, index) = pool_add(pool, ObjectView::String(s))->Ok_0;
    assert forall|j: int| 0 <= j < index implies after[j] != ObjectView::String(s) by {
        assert(after[j] == pool[j]);
    }
}

/// Functions and classes never share an entry: each addition of one makes a
/// new entry at the end of the pool, whatever the pool holds.
pub proof fn law_objects_never_alias(pool: Seq<ObjectView>, obj: ObjectView)
    requires
        !(obj is String),
        pool_add(pool, obj) is Ok,
    ensures
        pool_add(pool, obj) == Ok::<(Seq<ObjectView>, ConstantPoolIndex), ErrorKind>(
            (pool.push(obj), pool.len() as u32),
        ),
        pool.len() < u32::MAX,
{
}

/// An operator applied to a number of arguments other than its arity does
/// not compile: the negation takes one argument, every other operator two.
pub proof fn law_operator_arity(l: Lowering, e: Expr, drop: bool)
    requires
        e.node is Operator,
        e.node->Operator_arguments.len() != arity(e.node->Operator_op),
    ensures
        lower_expr(l, e, drop) == Err::<Lowering, CompileError>(
            CompileError::at(ErrorKind::ArityMismatch, e.location),
        ),
{
    assert(lower_value(l, e, drop) == Err::<Lowering, CompileError>(
        CompileError::at(ErrorKind::ArityMismatch, e.location),
    ));
}

/// A variable that was declared immutable in a local scope cannot be
/// assigned: right after the declaration, an assignment to its name fails
/// with `Immutable`.
pub proof fn law_val_is_immutable(
    l: Lowering,
    name: Seq<char>,
    declared_at: Location,
    value_at: Location,
    assigned_at: Location,
)
    requires
        l.state.location is Local,
        l.state.location.scopes().len() >= 1,
        l.declare(name, false, declared_at) is Ok,
    ensures
        l.declare(name, false, declared_at)->Ok_0.assign(name, value_at, assigned_at) == Err::<
            Lowering,
            CompileError,
        >(CompileError::at(ErrorKind::Immutable, assigned_at)),
{
    let env = l.state.location.scopes();
    let local = Local { idx: l.state.local_count, mutable: false };
    let after = l.declare(name, false, declared_at)->Ok_0;
    let bound = env.update(env.len() - 1, env.last().insert(name, local));
    assert(after.state.location.scopes() == bound);
    assert(bound.last() == env.last().insert(name, local));
    assert(lookup(bound, name) == Some(local));
}

/// After jump resolution no label and no jump to a label is left.
pub proof fn law_resolved_code_is_free_of_labels(code: Seq<Instruction>, offsets: Map<Seq<char>, nat>)
    requires
        resolve_all(code, offsets) is Ok,
    ensures
        forall|i: int|
            0 <= i < resolve_all(code, offsets)->Ok_0.len() ==> (#[trigger] resolve_all(
                code,
                offsets,
            )->Ok_0[i]).instr is Op,
    decreases code.len(),
{
    if code.len() > 0 {
        law_resolved_code_is_free_of_labels(code.drop_last(), offsets);
        let done = resolve_all(code.drop_last(), offsets)->Ok_0;
        let all = resolve_all(code, offsets)->Ok_0;
        assert forall|i: int| 0 <= i < all.len() implies (#[trigger] all[i]).instr is Op by {
            if i < done.len() {
                assert(all[i] == done[i]);
            }
        }
    }
}


/// The code of an expression leaves exactly one value on the operand stack,
/// and none where the value is dropped: simulated from a stack of any
/// depth, the code that the lowering of the expression emits ends one
/// higher, or at the same depth with `drop`, with every jump arriving at
/// its label with one depth. This holds of every expression whose lowering
/// emits no conditional with `drop`: the code of such a conditional drops
/// one value more than it pushes.
pub proof fn law_expression_leaves_its_value(l: Lowering, e: Expr, drop: bool, depth: int)
    requires
        lower_expr(l, e, drop) is Ok,
        steady_expr(e, drop),
    ensures
        Simulation::start(depth).scan(emitted(l, lower_expr(l, e, drop)->Ok_0)) == (Simulation {
            consistent: true,
            depth: Some(
                depth + if drop {
                    0int
                } else {
                    1int
                },
            ),
            pending: Map::empty(),
        }),
{
    lemma_expr(l, e, drop);
    let sim = Simulation::start(depth);
    assert(sim.older(l.state.next_label as nat));
}

/// The code of a statement leaves the operand stack as it found it. The
/// top-level statement is the exception: where its last statement is an
/// expression, the value of that expression stays on the stack. As for
/// expressions, this holds where the lowering emits no conditional with
/// `drop`.
pub proof fn law_statement_leaves_the_stack(l: Lowering, s: Stmt, depth: int)
    requires
        lower_stmt(l, s) is Ok,
        steady_stmt(s),
    ensures
        Simulation::start(depth).scan(emitted(l, lower_stmt(l, s)->Ok_0)) == (Simulation {
            consistent: true,
            depth: Some(depth + stmt_delta(s)),
            pending: Map::empty(),
        }),
        !(s.node is Top) ==> stmt_delta(s) == 0,
{
    lemma_stmt(l, s);
    let sim = Simulation::start(depth);
    assert(sim.older(l.state.next_label as nat));
}


/// Every function of a compiled program has on record as many local slots
/// as its body uses: one more than the largest slot that an instruction of
/// the body reads or writes, and none where the body touches no local. The
/// constructors that the compiler gives to classes are the exception: they
/// have no slot on record and use the first one.
pub proof fn law_locals_of_compiled_functions(ast: Stmt, index: int)
    requires
        compiled(ast) is Ok,
        0 <= index < compiled(ast)->Ok_0.0.len(),
        compiled(ast)->Ok_0.0[index] is Function,
        !is_constructor(compiled(ast)->Ok_0.0[index]->Function_0),
    ensures
        compiled(ast)->Ok_0.0[index]->Function_0.locals_cnt == slots_needed(
            compiled(ast)->Ok_0.0[index]->Function_0.body,
        ),
{
    lemma_compiled_tidy(ast);
}

/// The function of every pool entry that jump resolution yields is free of
/// labels and of jumps to labels.
pub proof fn law_resolved_pool_is_free_of_labels(pool: Seq<ObjectView>, index: int, at: int)
    requires
        resolve_pool(pool) is Ok,
        0 <= index < resolve_pool(pool)->Ok_0.len(),
        resolve_pool(pool)->Ok_0[index] is Function,
        0 <= at < resolve_pool(pool)->Ok_0[index]->Function_0.body.len(),
    ensures
        resolve_pool(pool)->Ok_0[index]->Function_0.body[at].instr is Op,
    decreases pool.len(),
{
    if pool.len() > 0 {
        let done = resolve_pool(pool.drop_last())->Ok_0;
        let all = resolve_pool(pool)->Ok_0;
        if index < done.len() {
            assert(all[index] == done[index]);
            law_resolved_pool_is_free_of_labels(pool.drop_last(), index, at);
        } else {
            match pool.last() {
                ObjectView::Function(f) => {
                    law_resolved_code_is_free_of_labels(f.body, label_offsets(f.body));
                },
                _ => {},
            }
        }
    }
}


/// An image can be read back: reading the bytes of the image of a program
/// by the layout of the image yields the entries of the pool and the entry
/// point. In the image a class holds the records of its methods, not their
/// indices, and so does what is read back.
pub proof fn law_image_round_trip(pool: Seq<Object>, entry_point: ConstantPoolIndex)
    requires
        image(pool, entry_point) is Ok,
    ensures
        read_image(image(pool, entry_point)->Ok_0) == Some((content(pool), entry_point)),
{
    lemma_read_image(pool, entry_point);
}


/// Every index in a compiled program refers to an entry of its pool: the
/// indices that instructions hold, the names of functions and classes, and
/// the methods of classes, which are functions. The entry point is a
/// function of the pool.
pub proof fn law_indices_refer_to_the_pool(ast: Stmt)
    requires
        compiled(ast) is Ok,
    ensures
        pool_closed(compiled(ast)->Ok_0.0),
        compiled(ast)->Ok_0.1 < compiled(ast)->Ok_0.0.len(),
        compiled(ast)->Ok_0.0[compiled(ast)->Ok_0.1 as int] is Function,
{
    lemma_compiled_closed(ast);
}

/// A pool as the compiler makes it, closed and without labels, has an
/// image unless a length or a count in it does not fit its field.
pub proof fn law_closed_pool_has_an_image(pool: Seq<Object>, entry_point: ConstantPoolIndex)
    requires
        pool_resolved(pool),
        pool_closed(entries(pool)),
    ensures
        image(pool, entry_point) is Ok || image(pool, entry_point) == Err::<Seq<u8>, ErrorKind>(
            ErrorKind::PoolOverflow,
        ),
{
    lemma_image_of_closed_pool(pool, entry_point);
}


/// The size of an instruction is what it takes in the image without its
/// span: the byte of the operation and the operands. The record of the
/// instruction is that and the span, two words wide.
pub proof fn law_size_of_a_record(b: Bytecode)
    requires
        !b.instr.is_symbolic(),
    ensures
        b.instr.spec_size() == 1 + b.instr.operands().len(),
        b.wire().len() == b.instr.spec_size() + 2 * usize_width(),
{
    b.instr.lemma_operands_len();
    lemma_le_bytes_len(b.location.0 as nat, usize_width());
    lemma_le_bytes_len(b.location.1 as nat, usize_width());
}


/// No compilation fails for a jump to a label that was never placed: the
/// jumps of a lowered program can always be resolved, unless an offset
/// does not fit a jump.
pub proof fn law_jumps_find_their_labels(ast: Stmt)
    requires
        lowered(ast) is Ok,
    ensures
        resolve_pool(lowered(ast)->Ok_0.0) is Ok || resolve_pool(lowered(ast)->Ok_0.0) == Err::<
            Seq<ObjectView>,
            ErrorKind,
        >(ErrorKind::PoolOverflow),
{
    lemma_lowered_resolves(ast);
}

/// Every error of the lowering of a program carries the span of the source
/// text that caused it.
pub proof fn law_errors_carry_a_span(ast: Stmt)
    requires
        lowered(ast) is Err,
    ensures
        lowered(ast)->Err_0.location is Some,
{
    let start = CompilerView::initial();
    match start.intern(MAIN@, ast.location) {
        Ok((named, main_name)) => {
            let l = Lowering { state: named, code: Seq::empty() };
            if lower_stmt(l, ast) is Err {
                crate::spans::lemma_stmt(l, ast);
            }
        },
        Err(_) => {},
    }
}

} // verus!
