use vstd::prelude::*;
use vstd::utf8::{decode_utf8, encode_utf8, valid_utf8};
use crate::bytecode::{
    instructions, records, Bytecode, BytecodeType, Code, ConstantPoolIndex, Instr, Instruction,
};
use crate::objects::{
    function_at, image, method_records, object_record, object_records, Function, FunctionView,
    Object, CLASS_TAG, FUNCTION_TAG, STRING_TAG,
};
use crate::serializable::{le_bytes, lemma_le_bytes_len, usize_width, wrap_i16, wrap_i32, wrap_i64};
use crate::utils::Location;

verus! {

/// The number that little-endian bytes stand for.
pub open spec fn le_value(bytes: Seq<u8>) -> nat
    decreases bytes.len(),
{
    if bytes.len() == 0 {
        0
    } else {
        bytes[0] as nat + 256 * le_value(bytes.subrange(1, bytes.len() as int))
    }
}

/// The number of values that `width` bytes can stand for.
pub open spec fn pow256(width: nat) -> nat
    decreases width,
{
    if width == 0 {
        1
    } else {
        256 * pow256((width - 1) as nat)
    }
}

/// The 16-bit integer whose two's complement form is `n`.
pub open spec fn unwrap_i16(n: nat) -> i16 {
    if n >= 0x8000 {
        (n - 0x1_0000) as i16
    } else {
        n as i16
    }
}

/// The 32-bit integer whose two's complement form is `n`.
pub open spec fn unwrap_i32(n: nat) -> i32 {
    if n >= 0x8000_0000 {
        (n - 0x1_0000_0000) as i32
    } else {
        n as i32
    }
}

/// The 64-bit integer whose two's complement form is `n`.
pub open spec fn unwrap_i64(n: nat) -> i64 {
    if n >= 0x8000_0000_0000_0000 {
        (n - 0x1_0000_0000_0000_0000) as i64
    } else {
        n as i64
    }
}

/// Reading back the little-endian bytes of a number that fits them yields
/// the number.
pub proof fn lemma_le_round_trip(v: nat, width: nat)
    requires
        v < pow256(width),
    ensures
        le_value(le_bytes(v, width)) == v,
    decreases width,
{
    if width > 0 {
        let bytes = le_bytes(v, width);
        assert(bytes.subrange(1, bytes.len() as int) =~= le_bytes(v / 256, (width - 1) as nat));
        lemma_le_round_trip(v / 256, (width - 1) as nat);
    }
}

pub proof fn lemma_pow256()
    ensures
        pow256(1) == 0x100,
        pow256(2) == 0x1_0000,
        pow256(4) == 0x1_0000_0000,
        pow256(8) == 0x1_0000_0000_0000_0000,
{
    assert(pow256(0) == 1);
    assert(pow256(1) == 0x100);
    assert(pow256(2) == 0x1_0000);
    assert(pow256(3) == 0x100_0000);
    assert(pow256(4) == 0x1_0000_0000);
    assert(pow256(5) == 0x100_0000_0000);
    assert(pow256(6) == 0x1_0000_0000_0000);
    assert(pow256(7) == 0x100_0000_0000_0000);
    assert(pow256(8) == 0x1_0000_0000_0000_0000);
}

/// The number in the first `width` bytes, and the bytes behind them.
pub open spec fn take(bytes: Seq<u8>, width: nat) -> Option<(nat, Seq<u8>)> {
    if bytes.len() < width {
        None
    } else {
        Some((le_value(bytes.subrange(0, width as int)), bytes.subrange(width as int, bytes.len() as int)))
    }
}

pub proof fn lemma_take(v: nat, width: nat, rest: Seq<u8>)
    requires
        v < pow256(width),
    ensures
        take(le_bytes(v, width) + rest, width) == Some((v, rest)),
{
    let bytes = le_bytes(v, width) + rest;
    lemma_le_bytes_len(v, width);
    lemma_le_round_trip(v, width);
    assert(bytes.subrange(0, width as int) =~= le_bytes(v, width));
    assert(bytes.subrange(width as int, bytes.len() as int) =~= rest);
}

/// The number of bytes that the operands of the operation with the given
/// tag take; nothing for a byte that is the tag of no operation.
pub open spec fn width_by_tag(tag: u8) -> Option<nat> {
    if tag == 0x01 {
        Some(2nat)
    } else if tag == 0x02 {
        Some(4nat)
    } else if tag == 0x03 {
        Some(8nat)
    } else if tag == 0x04 {
        Some(1nat)
    } else if tag == 0x05 {
        Some(4nat)
    } else if tag == 0x20 {
        Some(0nat)
    } else if tag == 0x06 {
        Some(2nat)
    } else if tag == 0x07 {
        Some(2nat)
    } else if tag == 0x15 {
        Some(4nat)
    } else if tag == 0x16 {
        Some(4nat)
    } else if tag == 0x13 {
        Some(4nat)
    } else if tag == 0x14 {
        Some(4nat)
    } else if tag == 0x61 {
        Some(4nat)
    } else if tag == 0x62 {
        Some(4nat)
    } else if tag == 0x60 {
        Some(4nat)
    } else if tag == 0x08 {
        Some(1nat)
    } else if tag == 0x63 {
        Some(5nat)
    } else if tag == 0x09 {
        Some(0nat)
    } else if tag == 0x0A {
        Some(2nat)
    } else if tag == 0x0B {
        Some(4nat)
    } else if tag == 0x0C {
        Some(8nat)
    } else if tag == 0x0D {
        Some(2nat)
    } else if tag == 0x0E {
        Some(4nat)
    } else if tag == 0x0F {
        Some(8nat)
    } else if tag == 0x2D {
        Some(2nat)
    } else if tag == 0x2E {
        Some(4nat)
    } else if tag == 0x2F {
        Some(8nat)
    } else if tag == 0x10 {
        Some(1nat)
    } else if tag == 0x30 {
        Some(0nat)
    } else if tag == 0x31 {
        Some(0nat)
    } else if tag == 0x32 {
        Some(0nat)
    } else if tag == 0x34 {
        Some(0nat)
    } else if tag == 0x33 {
        Some(0nat)
    } else if tag == 0x35 {
        Some(0nat)
    } else if tag == 0x36 {
        Some(0nat)
    } else if tag == 0x37 {
        Some(0nat)
    } else if tag == 0x38 {
        Some(0nat)
    } else if tag == 0x39 {
        Some(0nat)
    } else if tag == 0x3A {
        Some(0nat)
    } else if tag == 0x3B {
        Some(0nat)
    } else if tag == 0x3C {
        Some(0nat)
    } else if tag == 0x3D {
        Some(0nat)
    } else if tag == 0x11 {
        Some(0nat)
    } else if tag == 0x25 {
        Some(1nat)
    } else if tag == 0x12 {
        Some(0nat)
    } else {
        None
    }
}

/// The operation with the given tag and operands.
pub open spec fn op_by_tag(tag: u8, operands: Seq<u8>) -> BytecodeType {
    if tag == 0x01 {
        BytecodeType::PushShort(unwrap_i16(le_value(operands)))
    } else if tag == 0x02 {
        BytecodeType::PushInt(unwrap_i32(le_value(operands)))
    } else if tag == 0x03 {
        BytecodeType::PushLong(unwrap_i64(le_value(operands)))
    } else if tag == 0x04 {
        BytecodeType::PushBool(operands[0] != 0)
    } else if tag == 0x05 {
        BytecodeType::PushLiteral(le_value(operands) as u32)
    } else if tag == 0x20 {
        BytecodeType::PushNone
    } else if tag == 0x06 {
        BytecodeType::GetLocal(le_value(operands) as u16)
    } else if tag == 0x07 {
        BytecodeType::SetLocal(le_value(operands) as u16)
    } else if tag == 0x15 {
        BytecodeType::DeclValGlobal { name: le_value(operands) as u32 }
    } else if tag == 0x16 {
        BytecodeType::DeclVarGlobal { name: le_value(operands) as u32 }
    } else if tag == 0x13 {
        BytecodeType::GetGlobal(le_value(operands) as u32)
    } else if tag == 0x14 {
        BytecodeType::SetGlobal(le_value(operands) as u32)
    } else if tag == 0x61 {
        BytecodeType::GetMember(le_value(operands) as u32)
    } else if tag == 0x62 {
        BytecodeType::SetMember(le_value(operands) as u32)
    } else if tag == 0x60 {
        BytecodeType::NewObject(le_value(operands) as u32)
    } else if tag == 0x08 {
        BytecodeType::CallFunc { arg_cnt: operands[0] }
    } else if tag == 0x63 {
        BytecodeType::DispatchMethod { name: le_value(operands.subrange(0, 4)) as u32, arg_cnt: operands[4] }
    } else if tag == 0x09 {
        BytecodeType::Ret
    } else if tag == 0x0A {
        BytecodeType::JmpShort(le_value(operands) as u16)
    } else if tag == 0x0B {
        BytecodeType::Jmp(le_value(operands) as u32)
    } else if tag == 0x0C {
        BytecodeType::JmpLong(le_value(operands) as u64)
    } else if tag == 0x0D {
        BytecodeType::BranchShort(le_value(operands) as u16)
    } else if tag == 0x0E {
        BytecodeType::Branch(le_value(operands) as u32)
    } else if tag == 0x0F {
        BytecodeType::BranchLong(le_value(operands) as u64)
    } else if tag == 0x2D {
        BytecodeType::BranchShortFalse(le_value(operands) as u16)
    } else if tag == 0x2E {
        BytecodeType::BranchFalse(le_value(operands) as u32)
    } else if tag == 0x2F {
        BytecodeType::BranchLongFalse(le_value(operands) as u64)
    } else if tag == 0x10 {
        BytecodeType::Print { arg_cnt: operands[0] }
    } else if tag == 0x30 {
        BytecodeType::Iadd
    } else if tag == 0x31 {
        BytecodeType::Isub
    } else if tag == 0x32 {
        BytecodeType::Imul
    } else if tag == 0x34 {
        BytecodeType::Mod
    } else if tag == 0x33 {
        BytecodeType::Idiv
    } else if tag == 0x35 {
        BytecodeType::Iand
    } else if tag == 0x36 {
        BytecodeType::Ior
    } else if tag == 0x37 {
        BytecodeType::Iless
    } else if tag == 0x38 {
        BytecodeType::Ilesseq
    } else if tag == 0x39 {
        BytecodeType::Igreater
    } else if tag == 0x3A {
        BytecodeType::Igreatereq
    } else if tag == 0x3B {
        BytecodeType::Ieq
    } else if tag == 0x3C {
        BytecodeType::Ineg
    } else if tag == 0x3D {
        BytecodeType::Neq
    } else if tag == 0x11 {
        BytecodeType::Drop
    } else if tag == 0x25 {
        BytecodeType::Dropn(operands[0])
    } else if tag == 0x12 {
        BytecodeType::Dup
    } else {
        BytecodeType::Ret
    }
}

/// The tag and the operands of an operation tell the operation.
pub proof fn lemma_op_round_trip(op: BytecodeType)
    requires
        !op.is_symbolic(),
    ensures
        width_by_tag(op.tag()) == Some(op.operand_width()),
        op.operands().len() == op.operand_width(),
        op_by_tag(op.tag(), op.operands()) == op,
{
    lemma_pow256();
    op.lemma_operands_len();
    match op {
        BytecodeType::PushShort(v) => lemma_le_round_trip(wrap_i16(v), 2),
        BytecodeType::PushInt(v) => lemma_le_round_trip(wrap_i32(v), 4),
        BytecodeType::PushLong(v) => lemma_le_round_trip(wrap_i64(v), 8),
        BytecodeType::PushLiteral(v)
        | BytecodeType::GetGlobal(v)
        | BytecodeType::SetGlobal(v)
        | BytecodeType::GetMember(v)
        | BytecodeType::SetMember(v)
        | BytecodeType::NewObject(v)
        | BytecodeType::Jmp(v)
        | BytecodeType::Branch(v)
        | BytecodeType::BranchFalse(v) => lemma_le_round_trip(v as nat, 4),
        BytecodeType::DeclValGlobal { name } | BytecodeType::DeclVarGlobal { name } => lemma_le_round_trip(
            name as nat,
            4,
        ),
        BytecodeType::DispatchMethod { name, arg_cnt } => {
            lemma_le_round_trip(name as nat, 4);
            lemma_le_bytes_len(name as nat, 4);
            assert(op.operands().subrange(0, 4) =~= le_bytes(name as nat, 4));
        },
        BytecodeType::GetLocal(v)
        | BytecodeType::SetLocal(v)
        | BytecodeType::JmpShort(v)
        | BytecodeType::BranchShort(v)
        | BytecodeType::BranchShortFalse(v) => lemma_le_round_trip(v as nat, 2),
        BytecodeType::JmpLong(v)
        | BytecodeType::BranchLong(v)
        | BytecodeType::BranchLongFalse(v) => lemma_le_round_trip(v as nat, 8),
        _ => {},
    }
}


/// A span read from the image, and the bytes behind it.
pub open spec fn read_span(bytes: Seq<u8>) -> Option<(Location, Seq<u8>)> {
    match take(bytes, usize_width()) {
        Some((begin, behind)) => match take(behind, usize_width()) {
            Some((end, rest)) => Some((Location(begin as usize, end as usize), rest)),
            None => None,
        },
        None => None,
    }
}

pub proof fn lemma_usize_fits(v: usize)
    ensures
        v < pow256(usize_width()),
{
    broadcast use vstd::layout::layout_of_primitives;

    lemma_pow256();
    assert(usize_width() == 4 || usize_width() == 8);
}

pub proof fn lemma_read_span(location: Location, rest: Seq<u8>)
    ensures
        read_span(location.wire() + rest) == Some((location, rest)),
{
    let w = usize_width();
    let second = le_bytes(location.1 as nat, w) + rest;
    lemma_usize_fits(location.0);
    lemma_usize_fits(location.1);
    assert(location.wire() + rest =~= le_bytes(location.0 as nat, w) + second);
    lemma_take(location.0 as nat, w, second);
    lemma_take(location.1 as nat, w, rest);
}

/// An instruction read from the image, and the bytes behind it.
pub open spec fn read_instruction(bytes: Seq<u8>) -> Option<(Instruction, Seq<u8>)> {
    if bytes.len() < 1 {
        None
    } else {
        match width_by_tag(bytes[0]) {
            Some(width) => if bytes.len() < 1 + width {
                None
            } else {
                match read_span(bytes.subrange(1 + width as int, bytes.len() as int)) {
                    Some((location, rest)) => Some(
                        (
                            Instruction {
                                instr: Instr::Op(op_by_tag(bytes[0], bytes.subrange(1, 1 + width as int))),
                                location,
                            },
                            rest,
                        ),
                    ),
                    None => None,
                }
            },
            None => None,
        }
    }
}

pub proof fn lemma_read_instruction(b: Bytecode, rest: Seq<u8>)
    requires
        !b.instr.is_symbolic(),
    ensures
        read_instruction(b.wire() + rest) == Some((b@, rest)),
{
    let bytes = b.wire() + rest;
    let width = b.instr.operand_width();
    lemma_op_round_trip(b.instr);
    assert(bytes[0] == b.instr.tag());
    assert(bytes.subrange(1, 1 + width as int) =~= b.instr.operands());
    assert(bytes.subrange(1 + width as int, bytes.len() as int) =~= b.location.wire() + rest);
    lemma_read_span(b.location, rest);
}

/// The parts one after the other.
pub open spec fn join(parts: Seq<Seq<u8>>) -> Seq<u8>
    decreases parts.len(),
{
    if parts.len() == 0 {
        Seq::empty()
    } else {
        join(parts.drop_last()) + parts.last()
    }
}

pub proof fn lemma_join_front(parts: Seq<Seq<u8>>)
    requires
        parts.len() > 0,
    ensures
        join(parts) == parts[0] + join(parts.subrange(1, parts.len() as int)),
    decreases parts.len(),
{
    let tail = parts.subrange(1, parts.len() as int);
    if parts.len() == 1 {
        assert(parts.drop_last() =~= Seq::<Seq<u8>>::empty());
        assert(join(parts.drop_last()) =~= Seq::<u8>::empty());
        assert(join(tail) =~= Seq::<u8>::empty());
        assert(join(parts) =~= parts[0] + join(tail));
    } else {
        lemma_join_front(parts.drop_last());
        assert(parts.drop_last().subrange(1, parts.len() - 1) =~= tail.drop_last());
        assert(tail.last() == parts.last());
        assert(join(parts) =~= parts[0] + join(tail));
    }
}

/// `n` items read one after the other, and the bytes behind them.
pub open spec fn read_many<T>(
    read_one: spec_fn(Seq<u8>) -> Option<(T, Seq<u8>)>,
    bytes: Seq<u8>,
    n: nat,
) -> Option<(Seq<T>, Seq<u8>)>
    decreases n,
{
    if n == 0 {
        Some((Seq::empty(), bytes))
    } else {
        match read_one(bytes) {
            Some((first, behind)) => match read_many(read_one, behind, (n - 1) as nat) {
                Some((others, rest)) => Some((seq![first] + others, rest)),
                None => None,
            },
            None => None,
        }
    }
}

/// Items that can each be read back from their part can be read back one
/// after the other from the parts joined.
pub proof fn lemma_read_many<T>(
    read_one: spec_fn(Seq<u8>) -> Option<(T, Seq<u8>)>,
    items: Seq<T>,
    parts: Seq<Seq<u8>>,
    rest: Seq<u8>,
)
    requires
        items.len() == parts.len(),
        forall|i: int, behind: Seq<u8>|
            0 <= i < items.len() ==> #[trigger] read_one(parts[i] + behind) == Some(
                (items[i], behind),
            ),
    ensures
        read_many(read_one, join(parts) + rest, items.len()) == Some((items, rest)),
    decreases items.len(),
{
    if items.len() == 0 {
        assert(join(parts) + rest =~= rest);
        assert(items =~= Seq::<T>::empty());
    } else {
        let n = items.len() as int;
        let tail_items = items.subrange(1, n);
        let tail_parts = parts.subrange(1, n);
        lemma_join_front(parts);
        let behind = join(tail_parts) + rest;
        assert(join(parts) + rest =~= parts[0] + behind);
        assert(read_one(parts[0] + behind) == Some((items[0], behind)));
        assert forall|i: int, after: Seq<u8>| 0 <= i < tail_items.len() implies #[trigger] read_one(
            tail_parts[i] + after,
        ) == Some((tail_items[i], after)) by {
            assert(tail_parts[i] == parts[i + 1]);
            assert(tail_items[i] == items[i + 1]);
        }
        lemma_read_many(read_one, tail_items, tail_parts, rest);
        assert(seq![items[0]] + tail_items =~= items);
    }
}

/// The code of a function read from the image, and the bytes behind it.
pub open spec fn read_code(bytes: Seq<u8>) -> Option<(Seq<Instruction>, Seq<u8>)> {
    match take(bytes, 4) {
        Some((count, behind)) => read_many(|b: Seq<u8>| read_instruction(b), behind, count),
        None => None,
    }
}

proof fn lemma_records_join(s: Seq<Bytecode>)
    ensures
        records(s) == join(s.map_values(|b: Bytecode| b.wire())),
    decreases s.len(),
{
    let parts = s.map_values(|b: Bytecode| b.wire());
    if s.len() > 0 {
        lemma_records_join(s.drop_last());
        assert(parts.drop_last() =~= s.drop_last().map_values(|b: Bytecode| b.wire()));
    }
}

pub proof fn lemma_read_code(code: Code, rest: Seq<u8>)
    requires
        code.wire_error() is None,
    ensures
        read_code(code.wire() + rest) == Some((code@, rest)),
{
    let s = code.code@;
    let parts = s.map_values(|b: Bytecode| b.wire());
    let items = instructions(s);
    let read_one = |b: Seq<u8>| read_instruction(b);
    lemma_pow256();
    lemma_records_join(s);
    assert(code.wire() + rest =~= le_bytes(s.len(), 4) + (records(s) + rest));
    lemma_take(s.len(), 4, records(s) + rest);
    assert forall|i: int, behind: Seq<u8>| 0 <= i < items.len() implies #[trigger] read_one(
        parts[i] + behind,
    ) == Some((items[i], behind)) by {
        assert(!s[i].instr.is_symbolic());
        lemma_read_instruction(s[i], behind);
    }
    lemma_read_many(read_one, items, parts, rest);
}

/// A function read from the image, and the bytes behind it.
pub open spec fn read_function(bytes: Seq<u8>) -> Option<(FunctionView, Seq<u8>)> {
    match take(bytes, 4) {
        Some((name, after_name)) => match take(after_name, 1) {
            Some((parameters_cnt, after_parameters)) => match take(after_parameters, 2) {
                Some((locals_cnt, after_locals)) => match read_code(after_locals) {
                    Some((body, rest)) => Some(
                        (
                            FunctionView {
                                name: name as u32,
                                parameters_cnt: parameters_cnt as u8,
                                locals_cnt: locals_cnt as u16,
                                body,
                            },
                            rest,
                        ),
                    ),
                    None => None,
                },
                None => None,
            },
            None => None,
        },
        None => None,
    }
}

pub proof fn lemma_read_function(f: Function, rest: Seq<u8>)
    requires
        f.body.wire_error() is None,
    ensures
        read_function(f.wire() + rest) == Some((f@, rest)),
{
    lemma_pow256();
    let after_locals = f.body.wire() + rest;
    let after_parameters = le_bytes(f.locals_cnt as nat, 2) + after_locals;
    let after_name = seq![f.parameters_cnt] + after_parameters;
    assert(f.wire() + rest =~= le_bytes(f.name as nat, 4) + after_name);
    lemma_take(f.name as nat, 4, after_name);
    assert(le_bytes(f.parameters_cnt as nat, 1) =~= seq![f.parameters_cnt]) by {
        assert(le_bytes(f.parameters_cnt as nat / 256, 0) =~= Seq::<u8>::empty());
    }
    lemma_take(f.parameters_cnt as nat, 1, after_parameters);
    lemma_take(f.locals_cnt as nat, 2, after_locals);
    lemma_read_code(f.body, rest);
}

/// What an entry of the constant pool is in the image. A class holds its
/// methods themselves there, not their indices.
pub enum Record {
    String(Seq<char>),
    Function(FunctionView),
    Class { name: ConstantPoolIndex, methods: Seq<FunctionView> },
}

/// An entry of the constant pool read from the image, and the bytes behind
/// it.
pub open spec fn read_record(bytes: Seq<u8>) -> Option<(Record, Seq<u8>)> {
    if bytes.len() < 1 {
        None
    } else {
        let payload = bytes.subrange(1, bytes.len() as int);
        if bytes[0] == STRING_TAG {
            match take(payload, 4) {
                Some((length, behind)) => if behind.len() >= length && valid_utf8(
                    behind.subrange(0, length as int),
                ) {
                    Some(
                        (
                            Record::String(decode_utf8(behind.subrange(0, length as int))),
                            behind.subrange(length as int, behind.len() as int),
                        ),
                    )
                } else {
                    None
                },
                None => None,
            }
        } else if bytes[0] == FUNCTION_TAG {
            match read_function(payload) {
                Some((f, rest)) => Some((Record::Function(f), rest)),
                None => None,
            }
        } else if bytes[0] == CLASS_TAG {
            match take(payload, 4) {
                Some((name, after_name)) => match take(after_name, 2) {
                    Some((count, behind)) => match read_many(
                        |b: Seq<u8>| read_function(b),
                        behind,
                        count,
                    ) {
                        Some((methods, rest)) => Some(
                            (Record::Class { name: name as u32, methods }, rest),
                        ),
                        None => None,
                    },
                    None => None,
                },
                None => None,
            }
        } else {
            None
        }
    }
}

/// What an entry of the pool is in the image of the pool.
pub open spec fn record_of(pool: Seq<Object>, obj: Object) -> Record {
    match obj {
        Object::String(s) => Record::String(s@),
        Object::Function(f) => Record::Function(f@),
        Object::Class { name, methods } => Record::Class {
            name,
            methods: methods@.map_values(|m: ConstantPoolIndex| function_at(pool, m)->0@),
        },
    }
}

/// What the pool is in its image.
pub open spec fn content(pool: Seq<Object>) -> Seq<Record> {
    pool.map_values(|obj: Object| record_of(pool, obj))
}

/// The image of a program read back: the entries of the pool and the index
/// of the entry point. Nothing where the bytes are no image.
pub open spec fn read_image(bytes: Seq<u8>) -> Option<(Seq<Record>, ConstantPoolIndex)> {
    match take(bytes, 4) {
        Some((count, behind)) => match read_many(|b: Seq<u8>| read_record(b), behind, count) {
            Some((entries, after_entries)) => match take(after_entries, 4) {
                Some((entry_point, rest)) => if rest.len() == 0 {
                    Some((entries, entry_point as u32))
                } else {
                    None
                },
                None => None,
            },
            None => None,
        },
        None => None,
    }
}

proof fn lemma_method_records_join(pool: Seq<Object>, methods: Seq<ConstantPoolIndex>)
    requires
        method_records(pool, methods) is Ok,
    ensures
        forall|i: int|
            0 <= i < methods.len() ==> function_at(pool, #[trigger] methods[i]) is Some && function_at(
                pool,
                methods[i],
            )->0.body.wire_error() is None,
        method_records(pool, methods)->Ok_0 == join(
            methods.map_values(|m: ConstantPoolIndex| function_at(pool, m)->0.wire()),
        ),
    decreases methods.len(),
{
    let parts = methods.map_values(|m: ConstantPoolIndex| function_at(pool, m)->0.wire());
    if methods.len() > 0 {
        lemma_method_records_join(pool, methods.drop_last());
        assert(parts.drop_last() =~= methods.drop_last().map_values(
            |m: ConstantPoolIndex| function_at(pool, m)->0.wire(),
        ));
        assert forall|i: int| 0 <= i < methods.len() implies function_at(
            pool,
            #[trigger] methods[i],
        ) is Some && function_at(pool, methods[i])->0.body.wire_error() is None by {
            if i < methods.len() - 1 {
                assert(methods.drop_last()[i] == methods[i]);
            }
        }
    }
}

proof fn lemma_read_string(pool: Seq<Object>, obj: Object, rest: Seq<u8>)
    requires
        obj is String,
        object_record(pool, obj) is Ok,
    ensures
        read_record(object_record(pool, obj)->Ok_0 + rest) == Some((record_of(pool, obj), rest)),
{
    lemma_pow256();
    let s = obj->String_0;
    let record = object_record(pool, obj)->Ok_0;
    let bytes = record + rest;
    let payload = bytes.subrange(1, bytes.len() as int);
    let text = encode_utf8(s@);
    let behind = text + rest;
    assert(record == seq![STRING_TAG] + le_bytes(text.len(), 4) + text);
    assert(bytes[0] == STRING_TAG);
    assert(payload =~= le_bytes(text.len(), 4) + behind);
    lemma_take(text.len(), 4, behind);
    assert(behind.subrange(0, text.len() as int) =~= text);
    assert(behind.subrange(text.len() as int, behind.len() as int) =~= rest);
    assert(valid_utf8(text)) by {
        vstd::utf8::encode_utf8_valid_utf8(s@);
    }
    assert(decode_utf8(text) == s@) by {
        vstd::utf8::encode_utf8_decode_utf8(s@);
    }
}

proof fn lemma_read_function_record(pool: Seq<Object>, obj: Object, rest: Seq<u8>)
    requires
        obj is Function,
        object_record(pool, obj) is Ok,
    ensures
        read_record(object_record(pool, obj)->Ok_0 + rest) == Some((record_of(pool, obj), rest)),
{
    let f = obj->Function_0;
    let record = object_record(pool, obj)->Ok_0;
    let bytes = record + rest;
    let payload = bytes.subrange(1, bytes.len() as int);
    assert(bytes[0] == FUNCTION_TAG);
    assert(payload =~= f.wire() + rest);
    lemma_read_function(f, rest);
}

proof fn lemma_read_class(pool: Seq<Object>, obj: Object, rest: Seq<u8>)
    requires
        obj is Class,
        object_record(pool, obj) is Ok,
    ensures
        read_record(object_record(pool, obj)->Ok_0 + rest) == Some((record_of(pool, obj), rest)),
{
    lemma_pow256();
    let name = obj->Class_name;
    let methods = obj->Class_methods;
    let record = object_record(pool, obj)->Ok_0;
    let bytes = record + rest;
    let payload = bytes.subrange(1, bytes.len() as int);
    let joined = method_records(pool, methods@)->Ok_0;
    let behind = joined + rest;
    let after_name = le_bytes(methods.len() as nat, 2) + behind;
    assert(bytes[0] == CLASS_TAG);
    assert(payload =~= le_bytes(name as nat, 4) + after_name);
    lemma_take(name as nat, 4, after_name);
    lemma_take(methods.len() as nat, 2, behind);
    lemma_method_records_join(pool, methods@);
    let parts = methods@.map_values(|m: ConstantPoolIndex| function_at(pool, m)->0.wire());
    let items = methods@.map_values(|m: ConstantPoolIndex| function_at(pool, m)->0@);
    let read_one = |b: Seq<u8>| read_function(b);
    assert forall|i: int, after: Seq<u8>| 0 <= i < items.len() implies #[trigger] read_one(
        parts[i] + after,
    ) == Some((items[i], after)) by {
        assert(function_at(pool, methods@[i]) is Some);
        lemma_read_function(function_at(pool, methods@[i])->0, after);
    }
    lemma_read_many(read_one, items, parts, rest);
}

pub proof fn lemma_read_record(pool: Seq<Object>, obj: Object, rest: Seq<u8>)
    requires
        object_record(pool, obj) is Ok,
    ensures
        read_record(object_record(pool, obj)->Ok_0 + rest) == Some((record_of(pool, obj), rest)),
{
    match obj {
        Object::String(_) => lemma_read_string(pool, obj, rest),
        Object::Function(_) => lemma_read_function_record(pool, obj, rest),
        Object::Class { .. } => lemma_read_class(pool, obj, rest),
    }
}

proof fn lemma_object_records_join(pool: Seq<Object>, n: nat)
    requires
        n <= pool.len(),
        object_records(pool, n) is Ok,
    ensures
        forall|i: int| 0 <= i < n ==> object_record(pool, #[trigger] pool[i]) is Ok,
        object_records(pool, n)->Ok_0 == join(
            pool.subrange(0, n as int).map_values(|obj: Object| object_record(pool, obj)->Ok_0),
        ),
    decreases n,
{
    let parts = pool.subrange(0, n as int).map_values(|obj: Object| object_record(pool, obj)->Ok_0);
    if n > 0 {
        lemma_object_records_join(pool, (n - 1) as nat);
        assert(parts.drop_last() =~= pool.subrange(0, n - 1).map_values(
            |obj: Object| object_record(pool, obj)->Ok_0,
        ));
    }
}

/// Reading back the image of a program yields what the pool is in the
/// image, and the entry point.
pub proof fn lemma_read_image(pool: Seq<Object>, entry_point: ConstantPoolIndex)
    requires
        image(pool, entry_point) is Ok,
    ensures
        read_image(image(pool, entry_point)->Ok_0) == Some((content(pool), entry_point)),
{
    lemma_pow256();
    let n = pool.len();
    let joined = object_records(pool, n)->Ok_0;
    let tail = le_bytes(entry_point as nat, 4);
    let bytes = image(pool, entry_point)->Ok_0;
    assert(bytes =~= le_bytes(n, 4) + (joined + tail));
    lemma_take(n, 4, joined + tail);
    lemma_object_records_join(pool, n);
    assert(pool.subrange(0, n as int) =~= pool);
    let parts = pool.map_values(|obj: Object| object_record(pool, obj)->Ok_0);
    let items = content(pool);
    let read_one = |b: Seq<u8>| read_record(b);
    assert forall|i: int, after: Seq<u8>| 0 <= i < items.len() implies #[trigger] read_one(
        parts[i] + after,
    ) == Some((items[i], after)) by {
        lemma_read_record(pool, pool[i], after);
    }
    lemma_read_many(read_one, items, parts, tail);
    assert(tail + Seq::<u8>::empty() =~= tail);
    lemma_take(entry_point as nat, 4, Seq::<u8>::empty());
}

} // verus!
