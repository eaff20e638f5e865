use vstd::prelude::*;
use vstd::hash_map::StringHashMap;
use vstd::string::*;
use crate::bytecode::{has_symbolic, instructions, Bytecode, BytecodeType, Code, Instr, Instruction};
use crate::error::ErrorKind;
use crate::objects::{entries, ConstantPool, Function, FunctionView, Object, ObjectView};

verus! {

/// The number of bytes by which an instruction moves the offsets of what
/// follows it. A jump to a label counts as the jump that replaces it.
pub open spec fn instr_size(instr: Instr) -> nat {
    match instr {
        Instr::Label(_) => 0,
        Instr::JmpLabel(_) | Instr::BranchLabel(_) | Instr::BranchLabelFalse(_) => 5,
        Instr::Op(op) => op.spec_size(),
    }
}

/// The number of bytes that the instructions take together: the offset of
/// whatever follows them.
pub open spec fn code_size(code: Seq<Instruction>) -> nat
    decreases code.len(),
{
    if code.len() == 0 {
        0
    } else {
        code_size(code.drop_last()) + instr_size(code.last().instr)
    }
}

/// The offset of each label of the code: the number of bytes that the
/// instructions before it take. Where a name labels several places, the last
/// one counts.
pub open spec fn label_offsets(code: Seq<Instruction>) -> Map<Seq<char>, nat>
    decreases code.len(),
{
    if code.len() == 0 {
        Map::empty()
    } else {
        let before = label_offsets(code.drop_last());
        match code.last().instr {
            Instr::Label(name) => before.insert(name, code_size(code.drop_last())),
            _ => before,
        }
    }
}

/// The offset that a jump to the label `name` goes to. A label that the
/// code does not hold is a fault of whoever made the code; an offset that
/// does not fit 32 bits is an overflow.
pub open spec fn target(offsets: Map<Seq<char>, nat>, name: Seq<char>) -> Result<u32, ErrorKind> {
    if !offsets.contains_key(name) {
        Err(ErrorKind::InvariantViolation)
    } else if offsets[name] > u32::MAX {
        Err(ErrorKind::PoolOverflow)
    } else {
        Ok(offsets[name] as u32)
    }
}

/// The instruction with a jump to a label replaced by the jump to the
/// label's offset, always in the form that holds 32 bits.
pub open spec fn resolve(instr: Instr, offsets: Map<Seq<char>, nat>) -> Result<Instr, ErrorKind> {
    match instr {
        Instr::JmpLabel(name) => match target(offsets, name) {
            Ok(offset) => Ok(Instr::Op(BytecodeType::Jmp(offset))),
            Err(e) => Err(e),
        },
        Instr::BranchLabel(name) => match target(offsets, name) {
            Ok(offset) => Ok(Instr::Op(BytecodeType::Branch(offset))),
            Err(e) => Err(e),
        },
        Instr::BranchLabelFalse(name) => match target(offsets, name) {
            Ok(offset) => Ok(Instr::Op(BytecodeType::BranchFalse(offset))),
            Err(e) => Err(e),
        },
        _ => Ok(instr),
    }
}

/// The code without its labels and with every jump resolved against
/// `offsets`; the first jump that cannot be resolved decides the error.
pub open spec fn resolve_all(code: Seq<Instruction>, offsets: Map<Seq<char>, nat>) -> Result<
    Seq<Instruction>,
    ErrorKind,
>
    decreases code.len(),
{
    if code.len() == 0 {
        Ok(Seq::empty())
    } else {
        match resolve_all(code.drop_last(), offsets) {
            Ok(done) => match code.last().instr {
                Instr::Label(_) => Ok(done),
                other => match resolve(other, offsets) {
                    Ok(instr) => Ok(done.push(Instruction { instr, location: code.last().location })),
                    Err(e) => Err(e),
                },
            },
            Err(e) => Err(e),
        }
    }
}

/// The code after jump resolution: labels removed, jumps to labels replaced
/// by jumps to the offsets of the labels in the code as it was emitted.
pub open spec fn resolved(code: Seq<Instruction>) -> Result<Seq<Instruction>, ErrorKind> {
    resolve_all(code, label_offsets(code))
}

/// An offset as the pass keeps it: exact up to the largest offset that a
/// jump can hold, and one more than that for anything beyond.
pub open spec fn capped(offset: nat) -> u64 {
    if offset <= u32::MAX {
        offset as u64
    } else {
        0x1_0000_0000
    }
}

proof fn lemma_size_of_view(instr: BytecodeType)
    ensures
        instr_size(instr@) == instr.spec_size(),
{
}

/// Removes the labels from the code and replaces the jumps to them by jumps
/// to offsets.
pub fn jump_pass(code: Vec<Bytecode>) -> (r: Result<Vec<Bytecode>, ErrorKind>)
    ensures
        match resolved(instructions(code@)) {
            Ok(done) => r is Ok && instructions(r->Ok_0@) == done,
            Err(e) => r == Err::<Vec<Bytecode>, ErrorKind>(e),
        },
        r is Ok ==> !has_symbolic(r->Ok_0@),
{
    let ghost all = instructions(code@);
    let mut labels: StringHashMap<u64> = StringHashMap::new();
    let mut offset: u64 = 0;
    let mut i: usize = 0;
    assert(all.subrange(0, 0) =~= Seq::<Instruction>::empty());
    assert(labels@.dom() =~= label_offsets(all.subrange(0, 0)).dom());
    while i < code.len()
        invariant
            i <= code.len(),
            all == instructions(code@),
            offset == capped(code_size(all.subrange(0, i as int))),
            labels@.dom() == label_offsets(all.subrange(0, i as int)).dom(),
            forall|name: Seq<char>| #[trigger]
                labels@.contains_key(name) ==> labels@[name] == capped(
                    label_offsets(all.subrange(0, i as int))[name],
                ),
        decreases code.len() - i,
    {
        let ghost before = all.subrange(0, i as int);
        let ghost next = all.subrange(0, i + 1);
        assert(next.drop_last() =~= before);
        assert(next.last() == code@[i as int]@);
        proof {
            lemma_size_of_view(code@[i as int].instr);
        }
        let size = code[i].size() as u64;
        match &code[i].instr {
            BytecodeType::Label(name) => {
                labels.insert(name.clone(), offset);
                assert(labels@.dom() =~= label_offsets(next).dom());
            },
            _ => {},
        }
        if offset + size > 0xffff_ffff {
            offset = 0x1_0000_0000;
        } else {
            offset = offset + size;
        }
        i += 1;
    }
    assert(all.subrange(0, i as int) =~= all);
    let ghost offsets = label_offsets(all);
    let mut out: Vec<Bytecode> = Vec::new();
    assert(all.subrange(0, 0) =~= Seq::<Instruction>::empty());
    assert(instructions(out@) =~= Seq::<Instruction>::empty());
    for ins in it: code.into_iter()
        invariant
            instructions(it.seq()) == all,
            all == instructions(code@),
            offsets == label_offsets(all),
            labels@.dom() == offsets.dom(),
            forall|name: Seq<char>| #[trigger]
                labels@.contains_key(name) ==> labels@[name] == capped(offsets[name]),
            resolve_all(all.subrange(0, it.index() as int), offsets) == Ok::<
                Seq<Instruction>,
                ErrorKind,
            >(instructions(out@)),
            !has_symbolic(out@),
    {
        let ghost before = all.subrange(0, it.index() as int);
        let ghost next = all.subrange(0, it.index() + 1);
        let ghost done = instructions(out@);
        assert(next.drop_last() =~= before);
        assert(next.last() == ins@);
        let location = ins.location;
        match ins.instr {
            BytecodeType::Label(_) => {},
            BytecodeType::JmpLabel(label) => {
                let dest = match find_target(&labels, &label, Ghost(offsets)) {
                    Ok(dest) => dest,
                    Err(e) => {
                        proof {
                            lemma_resolve_all_fails(all, offsets, it.index() + 1);
                        }
                        return Err(e);
                    },
                };
                out.push(Bytecode { instr: BytecodeType::Jmp(dest), location });
                assert(instructions(out@) =~= done.push(
                    Instruction { instr: Instr::Op(BytecodeType::Jmp(dest)), location },
                ));
            },
            BytecodeType::BranchLabel(label) => {
                let dest = match find_target(&labels, &label, Ghost(offsets)) {
                    Ok(dest) => dest,
                    Err(e) => {
                        proof {
                            lemma_resolve_all_fails(all, offsets, it.index() + 1);
                        }
                        return Err(e);
                    },
                };
                out.push(Bytecode { instr: BytecodeType::Branch(dest), location });
                assert(instructions(out@) =~= done.push(
                    Instruction { instr: Instr::Op(BytecodeType::Branch(dest)), location },
                ));
            },
            BytecodeType::BranchLabelFalse(label) => {
                let dest = match find_target(&labels, &label, Ghost(offsets)) {
                    Ok(dest) => dest,
                    Err(e) => {
                        proof {
                            lemma_resolve_all_fails(all, offsets, it.index() + 1);
                        }
                        return Err(e);
                    },
                };
                out.push(Bytecode { instr: BytecodeType::BranchFalse(dest), location });
                assert(instructions(out@) =~= done.push(
                    Instruction { instr: Instr::Op(BytecodeType::BranchFalse(dest)), location },
                ));
            },
            instr => {
                out.push(Bytecode { instr, location });
                assert(instructions(out@) =~= done.push(ins@));
            },
        }
    }
    assert(all.subrange(0, all.len() as int) =~= all);
    Ok(out)
}

/// Looks up the offset of a label among those that the pass has recorded.
fn find_target(
    labels: &StringHashMap<u64>,
    label: &String,
    Ghost(offsets): Ghost<Map<Seq<char>, nat>>,
) -> (r: Result<u32, ErrorKind>)
    requires
        labels@.dom() == offsets.dom(),
        forall|name: Seq<char>| #[trigger]
            labels@.contains_key(name) ==> labels@[name] == capped(offsets[name]),
    ensures
        r == target(offsets, label@),
{
    match labels.get(label.as_str()) {
        None => Err(ErrorKind::InvariantViolation),
        Some(offset) => {
            assert(labels@.contains_key(label@));
            if *offset > 0xffff_ffff {
                Err(ErrorKind::PoolOverflow)
            } else {
                Ok(*offset as u32)
            }
        },
    }
}

/// Once a jump cannot be resolved, resolving more of the code fails in the
/// same way.
pub proof fn lemma_resolve_all_fails(code: Seq<Instruction>, offsets: Map<Seq<char>, nat>, n: int)
    requires
        0 <= n <= code.len(),
        resolve_all(code.subrange(0, n), offsets) is Err,
    ensures
        resolve_all(code, offsets) == resolve_all(code.subrange(0, n), offsets),
    decreases code.len() - n,
{
    if n < code.len() {
        let next = code.subrange(0, n + 1);
        assert(next.drop_last() =~= code.subrange(0, n));
        lemma_resolve_all_fails(code, offsets, n + 1);
    } else {
        assert(code.subrange(0, n) =~= code);
    }
}


/// The pool with the jumps of every function resolved; the first function
/// whose jumps cannot be resolved decides the error.
pub open spec fn resolve_pool(pool: Seq<ObjectView>) -> Result<Seq<ObjectView>, ErrorKind>
    decreases pool.len(),
{
    if pool.len() == 0 {
        Ok(Seq::empty())
    } else {
        match resolve_pool(pool.drop_last()) {
            Ok(done) => match pool.last() {
                ObjectView::Function(f) => match resolved(f.body) {
                    Ok(body) => Ok(done.push(ObjectView::Function(FunctionView { body, ..f }))),
                    Err(e) => Err(e),
                },
                other => Ok(done.push(other)),
            },
            Err(e) => Err(e),
        }
    }
}

/// Once the jumps of a function cannot be resolved, resolving more of the
/// pool fails in the same way.
pub proof fn lemma_resolve_pool_fails(pool: Seq<ObjectView>, n: int)
    requires
        0 <= n <= pool.len(),
        resolve_pool(pool.subrange(0, n)) is Err,
    ensures
        resolve_pool(pool) == resolve_pool(pool.subrange(0, n)),
    decreases pool.len() - n,
{
    if n < pool.len() {
        let next = pool.subrange(0, n + 1);
        assert(next.drop_last() =~= pool.subrange(0, n));
        lemma_resolve_pool_fails(pool, n + 1);
    } else {
        assert(pool.subrange(0, n) =~= pool);
    }
}

/// Whether every function of the pool is free of labels and of jumps to
/// labels.
pub open spec fn pool_resolved(pool: Seq<Object>) -> bool {
    forall|i: int|
        0 <= i < pool.len() ==> match #[trigger] pool[i] {
            Object::Function(f) => !has_symbolic(f.body.code@),
            _ => true,
        }
}

/// Resolves the jumps of every function of the pool.
pub fn resolve_jumps(pool: ConstantPool) -> (r: Result<ConstantPool, ErrorKind>)
    ensures
        match resolve_pool(pool@) {
            Ok(done) => r is Ok && r->Ok_0@ == done,
            Err(e) => r == Err::<ConstantPool, ErrorKind>(e),
        },
        r is Ok ==> pool_resolved(r->Ok_0.data@),
{
    let ghost all = pool@;
    let mut out: Vec<Object> = Vec::new();
    assert(all.subrange(0, 0) =~= Seq::<ObjectView>::empty());
    assert(entries(out@) =~= Seq::<ObjectView>::empty());
    for obj in it: pool.data.into_iter()
        invariant
            entries(it.seq()) == all,
            all == pool@,
            resolve_pool(all.subrange(0, it.index() as int)) == Ok::<Seq<ObjectView>, ErrorKind>(
                entries(out@),
            ),
            pool_resolved(out@),
    {
        let ghost before = all.subrange(0, it.index() as int);
        let ghost next = all.subrange(0, it.index() + 1);
        let ghost done = entries(out@);
        let ghost old_out = out@;
        assert(next.drop_last() =~= before);
        assert(next.last() == obj@);
        match obj {
            Object::Function(Function { name, parameters_cnt, locals_cnt, body }) => {
                let code = match jump_pass(body.code) {
                    Ok(code) => code,
                    Err(e) => {
                        proof {
                            lemma_resolve_pool_fails(all, it.index() + 1);
                        }
                        return Err(e);
                    },
                };
                let function = Function { name, parameters_cnt, locals_cnt, body: Code { code } };
                out.push(Object::Function(function));
                assert(entries(out@) =~= done.push(
                    ObjectView::Function(
                        FunctionView { name, parameters_cnt, locals_cnt, body: instructions(code@) },
                    ),
                ));
            },
            other => {
                out.push(other);
                assert(entries(out@) =~= done.push(obj@));
            },
        }
        assert forall|i: int| 0 <= i < out@.len() implies match #[trigger] out@[i] {
            Object::Function(f) => !has_symbolic(f.body.code@),
            _ => true,
        } by {
            if i < old_out.len() {
                assert(out@[i] == old_out[i]);
            }
        }
    }
    assert(all.subrange(0, all.len() as int) =~= all);
    Ok(ConstantPool { data: out })
}

} // verus!
