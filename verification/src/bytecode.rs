use vstd::prelude::*;
use crate::ast::Opcode;
use crate::error::ErrorKind;
use crate::serializable::{
    le_bytes, lemma_le_bytes_len, usize_width, wrap_i16, wrap_i32, wrap_i64, write_i16, write_i32,
    write_i64, write_u16, write_u32, write_u64, write_u8, write_usize,
};
use crate::utils::Location;

verus! {

pub type ConstantPoolIndex = u32;

pub type LocalIndex = u16;

/// One instruction together with the span of source text it was emitted for.
#[derive(Debug, Clone, PartialEq, Eq)]
pub struct Bytecode {
    pub instr: BytecodeType,
    pub location: Location,
}

#[derive(Debug, Clone, PartialEq, Eq)]
pub enum BytecodeType {
    PushShort(i16),
    PushInt(i32),
    PushLong(i64),
    PushBool(bool),
    PushLiteral(ConstantPoolIndex),
    PushNone,
    GetLocal(LocalIndex),
    SetLocal(LocalIndex),
    DeclValGlobal { name: ConstantPoolIndex },
    DeclVarGlobal { name: ConstantPoolIndex },
    GetGlobal(ConstantPoolIndex),
    SetGlobal(ConstantPoolIndex),
    GetMember(ConstantPoolIndex),
    SetMember(ConstantPoolIndex),
    NewObject(ConstantPoolIndex),
    CallFunc { arg_cnt: u8 },
    DispatchMethod { name: ConstantPoolIndex, arg_cnt: u8 },
    Ret,
    /// Marks a jump target. Not an instruction: it takes no room and is
    /// removed when jumps are resolved.
    Label(String),
    // Jumps to a label only exist while code is generated. Jump resolution
    // replaces each by the jump to an offset.
    JmpLabel(String),
    BranchLabel(String),
    BranchLabelFalse(String),
    JmpShort(u16),
    Jmp(u32),
    JmpLong(u64),
    BranchShort(u16),
    Branch(u32),
    BranchLong(u64),
    BranchShortFalse(u16),
    BranchFalse(u32),
    BranchLongFalse(u64),
    Print { arg_cnt: u8 },
    Iadd,
    Isub,
    Imul,
    Mod,
    Idiv,
    Iand,
    Ior,
    Iless,
    Ilesseq,
    Igreater,
    Igreatereq,
    Ieq,
    Ineg,
    Neq,
    Drop,
    Dropn(u8),
    Dup,
}

/// What an instruction is, with label names as character sequences.
pub enum Instr {
    Label(Seq<char>),
    JmpLabel(Seq<char>),
    BranchLabel(Seq<char>),
    BranchLabelFalse(Seq<char>),
    /// Any instruction that names no label.
    Op(BytecodeType),
}

/// What an emitted instruction is: the instruction and its span.
pub struct Instruction {
    pub instr: Instr,
    pub location: Location,
}

impl View for BytecodeType {
    type V = Instr;

    open spec fn view(&self) -> Instr {
        match *self {
            BytecodeType::Label(s) => Instr::Label(s@),
            BytecodeType::JmpLabel(s) => Instr::JmpLabel(s@),
            BytecodeType::BranchLabel(s) => Instr::BranchLabel(s@),
            BytecodeType::BranchLabelFalse(s) => Instr::BranchLabelFalse(s@),
            _ => Instr::Op(*self),
        }
    }
}

impl View for Bytecode {
    type V = Instruction;

    open spec fn view(&self) -> Instruction {
        Instruction { instr: self.instr@, location: self.location }
    }
}

/// The bytecode operation that a source operator is translated to.
pub open spec fn operation(opcode: Opcode) -> BytecodeType {
    match opcode {
        Opcode::Add => BytecodeType::Iadd,
        Opcode::Sub => BytecodeType::Isub,
        Opcode::Mul => BytecodeType::Imul,
        Opcode::Div => BytecodeType::Idiv,
        Opcode::Mod => BytecodeType::Mod,
        Opcode::Less => BytecodeType::Iless,
        Opcode::LessEq => BytecodeType::Ilesseq,
        Opcode::Greater => BytecodeType::Igreater,
        Opcode::GreaterEq => BytecodeType::Igreatereq,
        Opcode::Eq => BytecodeType::Ieq,
        Opcode::Neq => BytecodeType::Neq,
        Opcode::Negate => BytecodeType::Ineg,
    }
}

impl From<Opcode> for BytecodeType {
    fn from(opcode: Opcode) -> (r: Self) {
        match opcode {
            Opcode::Add => BytecodeType::Iadd,
            Opcode::Sub => BytecodeType::Isub,
            Opcode::Mul => BytecodeType::Imul,
            Opcode::Div => BytecodeType::Idiv,
            Opcode::Mod => BytecodeType::Mod,
            Opcode::Less => BytecodeType::Iless,
            Opcode::LessEq => BytecodeType::Ilesseq,
            Opcode::Greater => BytecodeType::Igreater,
            Opcode::GreaterEq => BytecodeType::Igreatereq,
            Opcode::Eq => BytecodeType::Ieq,
            Opcode::Neq => BytecodeType::Neq,
            Opcode::Negate => BytecodeType::Ineg,
        }
    }
}

impl vstd::std_specs::convert::FromSpecImpl<Opcode> for BytecodeType {
    open spec fn obeys_from_spec() -> bool {
        true
    }

    open spec fn from_spec(opcode: Opcode) -> Self {
        operation(opcode)
    }
}

impl BytecodeType {
    /// A label: a jump target, not an instruction.
    pub open spec fn is_label(self) -> bool {
        self is Label
    }

    /// A jump whose target is still a label.
    pub open spec fn is_label_jump(self) -> bool {
        self is JmpLabel || self is BranchLabel || self is BranchLabelFalse
    }

    /// A label or a jump to one: what only exists before jumps are resolved.
    pub open spec fn is_symbolic(self) -> bool {
        self.is_label() || self.is_label_jump()
    }

    /// A jump to an offset.
    pub open spec fn is_jump(self) -> bool {
        self is JmpShort || self is Jmp || self is JmpLong || self is BranchShort || self is Branch
            || self is BranchLong || self is BranchShortFalse || self is BranchFalse
            || self is BranchLongFalse
    }

    /// The largest offset that a jump of this width can hold.
    pub open spec fn jump_range(self) -> nat {
        match self {
            BytecodeType::JmpShort(_)
            | BytecodeType::BranchShort(_)
            | BytecodeType::BranchShortFalse(_) => 0xffff,
            BytecodeType::Jmp(_) | BytecodeType::Branch(_) | BytecodeType::BranchFalse(_) => 0xffff_ffff,
            _ => 0xffff_ffff_ffff_ffff,
        }
    }

    /// The same jump with another target.
    pub open spec fn with_target(self, dest: nat) -> BytecodeType {
        match self {
            BytecodeType::JmpShort(_) => BytecodeType::JmpShort(dest as u16),
            BytecodeType::Jmp(_) => BytecodeType::Jmp(dest as u32),
            BytecodeType::JmpLong(_) => BytecodeType::JmpLong(dest as u64),
            BytecodeType::BranchShort(_) => BytecodeType::BranchShort(dest as u16),
            BytecodeType::Branch(_) => BytecodeType::Branch(dest as u32),
            BytecodeType::BranchLong(_) => BytecodeType::BranchLong(dest as u64),
            BytecodeType::BranchShortFalse(_) => BytecodeType::BranchShortFalse(dest as u16),
            BytecodeType::BranchFalse(_) => BytecodeType::BranchFalse(dest as u32),
            BytecodeType::BranchLongFalse(_) => BytecodeType::BranchLongFalse(dest as u64),
            _ => self,
        }
    }

    /// The byte that stands for the operation in the image. A jump to a
    /// label has none; zero stands in for it here.
    pub open spec fn tag(self) -> u8 {
        match self {
            BytecodeType::PushShort(_) => 0x01,
            BytecodeType::PushInt(_) => 0x02,
            BytecodeType::PushLong(_) => 0x03,
            BytecodeType::PushBool(_) => 0x04,
            BytecodeType::PushLiteral(_) => 0x05,
            BytecodeType::PushNone => 0x20,
            BytecodeType::GetLocal(_) => 0x06,
            BytecodeType::SetLocal(_) => 0x07,
            BytecodeType::DeclValGlobal { .. } => 0x15,
            BytecodeType::DeclVarGlobal { .. } => 0x16,
            BytecodeType::GetGlobal(_) => 0x13,
            BytecodeType::SetGlobal(_) => 0x14,
            BytecodeType::GetMember(_) => 0x61,
            BytecodeType::SetMember(_) => 0x62,
            BytecodeType::NewObject(_) => 0x60,
            BytecodeType::CallFunc { .. } => 0x08,
            BytecodeType::DispatchMethod { .. } => 0x63,
            BytecodeType::Ret => 0x09,
            BytecodeType::Label(_) => 0x00,
            BytecodeType::JmpLabel(_) => 0x00,
            BytecodeType::BranchLabel(_) => 0x00,
            BytecodeType::BranchLabelFalse(_) => 0x00,
            BytecodeType::JmpShort(_) => 0x0A,
            BytecodeType::Jmp(_) => 0x0B,
            BytecodeType::JmpLong(_) => 0x0C,
            BytecodeType::BranchShort(_) => 0x0D,
            BytecodeType::Branch(_) => 0x0E,
            BytecodeType::BranchLong(_) => 0x0F,
            BytecodeType::BranchShortFalse(_) => 0x2D,
            BytecodeType::BranchFalse(_) => 0x2E,
            BytecodeType::BranchLongFalse(_) => 0x2F,
            BytecodeType::Print { .. } => 0x10,
            BytecodeType::Iadd => 0x30,
            BytecodeType::Isub => 0x31,
            BytecodeType::Imul => 0x32,
            BytecodeType::Mod => 0x34,
            BytecodeType::Idiv => 0x33,
            BytecodeType::Iand => 0x35,
            BytecodeType::Ior => 0x36,
            BytecodeType::Iless => 0x37,
            BytecodeType::Ilesseq => 0x38,
            BytecodeType::Igreater => 0x39,
            BytecodeType::Igreatereq => 0x3A,
            BytecodeType::Ieq => 0x3B,
            BytecodeType::Ineg => 0x3C,
            BytecodeType::Neq => 0x3D,
            BytecodeType::Drop => 0x11,
            BytecodeType::Dropn(_) => 0x25,
            BytecodeType::Dup => 0x12,
        }
    }

    /// The number of bytes that the operands take in the code of a function.
    pub open spec fn operand_width(self) -> nat {
        match self {
            BytecodeType::PushShort(_) => 2,
            BytecodeType::PushInt(_) => 4,
            BytecodeType::PushLong(_) => 8,
            BytecodeType::PushBool(_) => 1,
            BytecodeType::PushLiteral(_) => 4,
            BytecodeType::PushNone => 0,
            BytecodeType::GetLocal(_) => 2,
            BytecodeType::SetLocal(_) => 2,
            BytecodeType::DeclValGlobal { .. } => 4,
            BytecodeType::DeclVarGlobal { .. } => 4,
            BytecodeType::GetGlobal(_) => 4,
            BytecodeType::SetGlobal(_) => 4,
            BytecodeType::GetMember(_) => 4,
            BytecodeType::SetMember(_) => 4,
            BytecodeType::NewObject(_) => 4,
            BytecodeType::CallFunc { .. } => 1,
            BytecodeType::DispatchMethod { .. } => 5,
            BytecodeType::Ret => 0,
            BytecodeType::Label(_) => 0,
            BytecodeType::JmpLabel(_) => 4,
            BytecodeType::BranchLabel(_) => 4,
            BytecodeType::BranchLabelFalse(_) => 4,
            BytecodeType::JmpShort(_) => 2,
            BytecodeType::Jmp(_) => 4,
            BytecodeType::JmpLong(_) => 8,
            BytecodeType::BranchShort(_) => 2,
            BytecodeType::Branch(_) => 4,
            BytecodeType::BranchLong(_) => 8,
            BytecodeType::BranchShortFalse(_) => 2,
            BytecodeType::BranchFalse(_) => 4,
            BytecodeType::BranchLongFalse(_) => 8,
            BytecodeType::Print { .. } => 1,
            BytecodeType::Iadd => 0,
            BytecodeType::Isub => 0,
            BytecodeType::Imul => 0,
            BytecodeType::Mod => 0,
            BytecodeType::Idiv => 0,
            BytecodeType::Iand => 0,
            BytecodeType::Ior => 0,
            BytecodeType::Iless => 0,
            BytecodeType::Ilesseq => 0,
            BytecodeType::Igreater => 0,
            BytecodeType::Igreatereq => 0,
            BytecodeType::Ieq => 0,
            BytecodeType::Ineg => 0,
            BytecodeType::Neq => 0,
            BytecodeType::Drop => 0,
            BytecodeType::Dropn(_) => 1,
            BytecodeType::Dup => 0,
        }
    }

    /// The number of bytes by which the instruction moves the offsets of what
    /// follows it: nothing for a label, else one byte and the operands.
    pub open spec fn spec_size(self) -> nat {
        if self.is_label() {
            0
        } else {
            1 + self.operand_width()
        }
    }

    /// The operands as they stand in the image, little-endian.
    pub open spec fn operands(self) -> Seq<u8> {
        match self {
            BytecodeType::PushShort(v) => le_bytes(wrap_i16(v), 2),
            BytecodeType::PushInt(v) => le_bytes(wrap_i32(v), 4),
            BytecodeType::PushLong(v) => le_bytes(wrap_i64(v), 8),
            BytecodeType::PushBool(v) => seq![if v { 1u8 } else { 0u8 }],
            BytecodeType::PushLiteral(v) => le_bytes(v as nat, 4),
            BytecodeType::PushNone => Seq::empty(),
            BytecodeType::GetLocal(v) => le_bytes(v as nat, 2),
            BytecodeType::SetLocal(v) => le_bytes(v as nat, 2),
            BytecodeType::DeclValGlobal { name } => le_bytes(name as nat, 4),
            BytecodeType::DeclVarGlobal { name } => le_bytes(name as nat, 4),
            BytecodeType::GetGlobal(v) => le_bytes(v as nat, 4),
            BytecodeType::SetGlobal(v) => le_bytes(v as nat, 4),
            BytecodeType::GetMember(v) => le_bytes(v as nat, 4),
            BytecodeType::SetMember(v) => le_bytes(v as nat, 4),
            BytecodeType::NewObject(v) => le_bytes(v as nat, 4),
            BytecodeType::CallFunc { arg_cnt } => seq![arg_cnt],
            BytecodeType::DispatchMethod { name, arg_cnt } => le_bytes(name as nat, 4).push(arg_cnt),
            BytecodeType::Ret => Seq::empty(),
            BytecodeType::Label(_) => Seq::empty(),
            BytecodeType::JmpLabel(_) => Seq::empty(),
            BytecodeType::BranchLabel(_) => Seq::empty(),
            BytecodeType::BranchLabelFalse(_) => Seq::empty(),
            BytecodeType::JmpShort(v) => le_bytes(v as nat, 2),
            BytecodeType::Jmp(v) => le_bytes(v as nat, 4),
            BytecodeType::JmpLong(v) => le_bytes(v as nat, 8),
            BytecodeType::BranchShort(v) => le_bytes(v as nat, 2),
            BytecodeType::Branch(v) => le_bytes(v as nat, 4),
            BytecodeType::BranchLong(v) => le_bytes(v as nat, 8),
            BytecodeType::BranchShortFalse(v) => le_bytes(v as nat, 2),
            BytecodeType::BranchFalse(v) => le_bytes(v as nat, 4),
            BytecodeType::BranchLongFalse(v) => le_bytes(v as nat, 8),
            BytecodeType::Print { arg_cnt } => seq![arg_cnt],
            BytecodeType::Iadd => Seq::empty(),
            BytecodeType::Isub => Seq::empty(),
            BytecodeType::Imul => Seq::empty(),
            BytecodeType::Mod => Seq::empty(),
            BytecodeType::Idiv => Seq::empty(),
            BytecodeType::Iand => Seq::empty(),
            BytecodeType::Ior => Seq::empty(),
            BytecodeType::Iless => Seq::empty(),
            BytecodeType::Ilesseq => Seq::empty(),
            BytecodeType::Igreater => Seq::empty(),
            BytecodeType::Igreatereq => Seq::empty(),
            BytecodeType::Ieq => Seq::empty(),
            BytecodeType::Ineg => Seq::empty(),
            BytecodeType::Neq => Seq::empty(),
            BytecodeType::Drop => Seq::empty(),
            BytecodeType::Dropn(v) => seq![v],
            BytecodeType::Dup => Seq::empty(),
        }
    }

    /// For every instruction that can stand in an image, the operands take
    /// as many bytes as `operand_width` says.
    pub proof fn lemma_operands_len(self)
        requires
            !self.is_symbolic(),
        ensures
            self.operands().len() == self.operand_width(),
    {
        match self {
            BytecodeType::PushShort(v) => lemma_le_bytes_len(wrap_i16(v), 2),
            BytecodeType::PushInt(v) => lemma_le_bytes_len(wrap_i32(v), 4),
            BytecodeType::PushLong(v) => lemma_le_bytes_len(wrap_i64(v), 8),
            BytecodeType::PushLiteral(v)
            | BytecodeType::GetGlobal(v)
            | BytecodeType::SetGlobal(v)
            | BytecodeType::GetMember(v)
            | BytecodeType::SetMember(v)
            | BytecodeType::NewObject(v)
            | BytecodeType::Jmp(v)
            | BytecodeType::Branch(v)
            | BytecodeType::BranchFalse(v) => lemma_le_bytes_len(v as nat, 4),
            BytecodeType::DeclValGlobal { name }
            | BytecodeType::DeclVarGlobal { name }
            | BytecodeType::DispatchMethod { name, .. } => lemma_le_bytes_len(name as nat, 4),
            BytecodeType::GetLocal(v)
            | BytecodeType::SetLocal(v)
            | BytecodeType::JmpShort(v)
            | BytecodeType::BranchShort(v)
            | BytecodeType::BranchShortFalse(v) => lemma_le_bytes_len(v as nat, 2),
            BytecodeType::JmpLong(v)
            | BytecodeType::BranchLong(v)
            | BytecodeType::BranchLongFalse(v) => lemma_le_bytes_len(v as nat, 8),
            _ => {},
        }
    }
}

impl Bytecode {
    /// The bytes of the instruction in the image: the operation, its
    /// operands, and the span.
    pub open spec fn wire(&self) -> Seq<u8> {
        seq![self.instr.tag()] + self.instr.operands() + self.location.wire()
    }

    /// The byte that stands for the operation in the image.
    pub fn byte_encode(&self) -> (r: u8)
        requires
            !self.instr.is_label_jump(),
        ensures
            r == self.instr.tag(),
    {
        match &self.instr {
            BytecodeType::PushShort(_) => 0x01,
            BytecodeType::PushInt(_) => 0x02,
            BytecodeType::PushLong(_) => 0x03,
            BytecodeType::PushBool(_) => 0x04,
            BytecodeType::PushLiteral(_) => 0x05,
            BytecodeType::PushNone => 0x20,
            BytecodeType::GetLocal(_) => 0x06,
            BytecodeType::SetLocal(_) => 0x07,
            BytecodeType::DeclValGlobal { .. } => 0x15,
            BytecodeType::DeclVarGlobal { .. } => 0x16,
            BytecodeType::GetGlobal(_) => 0x13,
            BytecodeType::SetGlobal(_) => 0x14,
            BytecodeType::GetMember(_) => 0x61,
            BytecodeType::SetMember(_) => 0x62,
            BytecodeType::NewObject(_) => 0x60,
            BytecodeType::CallFunc { .. } => 0x08,
            BytecodeType::DispatchMethod { .. } => 0x63,
            BytecodeType::Ret => 0x09,
            BytecodeType::Label(_) => 0x00,
            BytecodeType::JmpLabel(_) => 0x00,
            BytecodeType::BranchLabel(_) => 0x00,
            BytecodeType::BranchLabelFalse(_) => 0x00,
            BytecodeType::JmpShort(_) => 0x0A,
            BytecodeType::Jmp(_) => 0x0B,
            BytecodeType::JmpLong(_) => 0x0C,
            BytecodeType::BranchShort(_) => 0x0D,
            BytecodeType::Branch(_) => 0x0E,
            BytecodeType::BranchLong(_) => 0x0F,
            BytecodeType::BranchShortFalse(_) => 0x2D,
            BytecodeType::BranchFalse(_) => 0x2E,
            BytecodeType::BranchLongFalse(_) => 0x2F,
            BytecodeType::Print { .. } => 0x10,
            BytecodeType::Iadd => 0x30,
            BytecodeType::Isub => 0x31,
            BytecodeType::Imul => 0x32,
            BytecodeType::Mod => 0x34,
            BytecodeType::Idiv => 0x33,
            BytecodeType::Iand => 0x35,
            BytecodeType::Ior => 0x36,
            BytecodeType::Iless => 0x37,
            BytecodeType::Ilesseq => 0x38,
            BytecodeType::Igreater => 0x39,
            BytecodeType::Igreatereq => 0x3A,
            BytecodeType::Ieq => 0x3B,
            BytecodeType::Ineg => 0x3C,
            BytecodeType::Neq => 0x3D,
            BytecodeType::Drop => 0x11,
            BytecodeType::Dropn(_) => 0x25,
            BytecodeType::Dup => 0x12,
        }
    }

    /// Points a jump at `new_dest`. Fails with `InvariantViolation` where the
    /// instruction is no jump to an offset, and with `PoolOverflow` where the
    /// jump is too narrow for `new_dest`; the instruction is then unchanged.
    pub fn update_jump(&mut self, new_dest: usize) -> (r: Result<(), ErrorKind>)
        ensures
            final(self).location == old(self).location,
            !old(self).instr.is_jump() ==> r == Err::<(), ErrorKind>(ErrorKind::InvariantViolation)
                && final(self).instr == old(self).instr,
            old(self).instr.is_jump() && new_dest > old(self).instr.jump_range() ==> r == Err::<
                (),
                ErrorKind,
            >(ErrorKind::PoolOverflow) && final(self).instr == old(self).instr,
            old(self).instr.is_jump() && new_dest <= old(self).instr.jump_range() ==> r is Ok
                && final(self).instr == old(self).instr.with_target(new_dest as nat),
    {
        let narrow = new_dest > 0xffff;
        let medium = new_dest > 0xffff_ffff;
        match &mut self.instr {
            BytecodeType::JmpShort(v) => {
                if narrow {
                    return Err(ErrorKind::PoolOverflow);
                }
                *v = new_dest as u16;
                Ok(())
            },
            BytecodeType::BranchShort(v) => {
                if narrow {
                    return Err(ErrorKind::PoolOverflow);
                }
                *v = new_dest as u16;
                Ok(())
            },
            BytecodeType::BranchShortFalse(v) => {
                if narrow {
                    return Err(ErrorKind::PoolOverflow);
                }
                *v = new_dest as u16;
                Ok(())
            },
            BytecodeType::Jmp(v) => {
                if medium {
                    return Err(ErrorKind::PoolOverflow);
                }
                *v = new_dest as u32;
                Ok(())
            },
            BytecodeType::Branch(v) => {
                if medium {
                    return Err(ErrorKind::PoolOverflow);
                }
                *v = new_dest as u32;
                Ok(())
            },
            BytecodeType::BranchFalse(v) => {
                if medium {
                    return Err(ErrorKind::PoolOverflow);
                }
                *v = new_dest as u32;
                Ok(())
            },
            BytecodeType::JmpLong(v) => {
                *v = new_dest as u64;
                Ok(())
            },
            BytecodeType::BranchLong(v) => {
                *v = new_dest as u64;
                Ok(())
            },
            BytecodeType::BranchLongFalse(v) => {
                *v = new_dest as u64;
                Ok(())
            },
            _ => Err(ErrorKind::InvariantViolation),
        }
    }

    /// The number of bytes that the instruction takes in the code of a
    /// function, as jump offsets count them.
    pub fn size(&self) -> (r: usize)
        ensures
            r == self.instr.spec_size(),
    {
        if let BytecodeType::Label(_) = self.instr {
            return 0;
        }
        1 + match &self.instr {
            BytecodeType::PushShort(_) => 2,
            BytecodeType::PushInt(_) => 4,
            BytecodeType::PushLong(_) => 8,
            BytecodeType::PushBool(_) => 1,
            BytecodeType::PushLiteral(_) => 4,
            BytecodeType::PushNone => 0,
            BytecodeType::GetLocal(_) => 2,
            BytecodeType::SetLocal(_) => 2,
            BytecodeType::DeclValGlobal { .. } => 4,
            BytecodeType::DeclVarGlobal { .. } => 4,
            BytecodeType::GetGlobal(_) => 4,
            BytecodeType::SetGlobal(_) => 4,
            BytecodeType::GetMember(_) => 4,
            BytecodeType::SetMember(_) => 4,
            BytecodeType::NewObject(_) => 4,
            BytecodeType::CallFunc { .. } => 1,
            BytecodeType::DispatchMethod { .. } => 5,
            BytecodeType::Ret => 0,
            BytecodeType::Label(_) => 0,
            BytecodeType::JmpLabel(_) => 4,
            BytecodeType::BranchLabel(_) => 4,
            BytecodeType::BranchLabelFalse(_) => 4,
            BytecodeType::JmpShort(_) => 2,
            BytecodeType::Jmp(_) => 4,
            BytecodeType::JmpLong(_) => 8,
            BytecodeType::BranchShort(_) => 2,
            BytecodeType::Branch(_) => 4,
            BytecodeType::BranchLong(_) => 8,
            BytecodeType::BranchShortFalse(_) => 2,
            BytecodeType::BranchFalse(_) => 4,
            BytecodeType::BranchLongFalse(_) => 8,
            BytecodeType::Print { .. } => 1,
            BytecodeType::Iadd => 0,
            BytecodeType::Isub => 0,
            BytecodeType::Imul => 0,
            BytecodeType::Mod => 0,
            BytecodeType::Idiv => 0,
            BytecodeType::Iand => 0,
            BytecodeType::Ior => 0,
            BytecodeType::Iless => 0,
            BytecodeType::Ilesseq => 0,
            BytecodeType::Igreater => 0,
            BytecodeType::Igreatereq => 0,
            BytecodeType::Ieq => 0,
            BytecodeType::Ineg => 0,
            BytecodeType::Neq => 0,
            BytecodeType::Drop => 0,
            BytecodeType::Dropn(_) => 1,
            BytecodeType::Dup => 0,
        }
    }

    /// Appends the instruction as it stands in the image. A label or a jump
    /// to a label cannot stand there: `InvariantViolation`, and nothing is
    /// appended.
    pub fn serialize(&self, out: &mut Vec<u8>) -> (r: Result<(), ErrorKind>)
        ensures
            !self.instr.is_symbolic() ==> r is Ok && final(out)@ == old(out)@ + self.wire(),
            self.instr.is_symbolic() ==> r == Err::<(), ErrorKind>(ErrorKind::InvariantViolation)
                && final(out)@ == old(out)@,
    {
        match &self.instr {
            BytecodeType::Label(_)
            | BytecodeType::JmpLabel(_)
            | BytecodeType::BranchLabel(_)
            | BytecodeType::BranchLabelFalse(_) => {
                return Err(ErrorKind::InvariantViolation);
            },
            _ => {},
        }
        write_u8(out, self.byte_encode());
        match &self.instr {
            BytecodeType::PushShort(v) => write_i16(out, *v),
            BytecodeType::PushInt(v) => write_i32(out, *v),
            BytecodeType::PushLong(v) => write_i64(out, *v),
            BytecodeType::PushBool(v) => write_u8(out, if *v { 1 } else { 0 }),
            BytecodeType::PushLiteral(v) => write_u32(out, *v),
            BytecodeType::PushNone => {},
            BytecodeType::GetLocal(v) => write_u16(out, *v),
            BytecodeType::SetLocal(v) => write_u16(out, *v),
            BytecodeType::DeclValGlobal { name } => write_u32(out, *name),
            BytecodeType::DeclVarGlobal { name } => write_u32(out, *name),
            BytecodeType::GetGlobal(v) => write_u32(out, *v),
            BytecodeType::SetGlobal(v) => write_u32(out, *v),
            BytecodeType::GetMember(v) => write_u32(out, *v),
            BytecodeType::SetMember(v) => write_u32(out, *v),
            BytecodeType::NewObject(v) => write_u32(out, *v),
            BytecodeType::CallFunc { arg_cnt } => write_u8(out, *arg_cnt),
            BytecodeType::DispatchMethod { name, arg_cnt } => {
                write_u32(out, *name);
                write_u8(out, *arg_cnt);
            },
            BytecodeType::Ret => {},
            BytecodeType::Label(_) => {},
            BytecodeType::JmpLabel(_) => {},
            BytecodeType::BranchLabel(_) => {},
            BytecodeType::BranchLabelFalse(_) => {},
            BytecodeType::JmpShort(v) => write_u16(out, *v),
            BytecodeType::Jmp(v) => write_u32(out, *v),
            BytecodeType::JmpLong(v) => write_u64(out, *v),
            BytecodeType::BranchShort(v) => write_u16(out, *v),
            BytecodeType::Branch(v) => write_u32(out, *v),
            BytecodeType::BranchLong(v) => write_u64(out, *v),
            BytecodeType::BranchShortFalse(v) => write_u16(out, *v),
            BytecodeType::BranchFalse(v) => write_u32(out, *v),
            BytecodeType::BranchLongFalse(v) => write_u64(out, *v),
            BytecodeType::Print { arg_cnt } => write_u8(out, *arg_cnt),
            BytecodeType::Iadd => {},
            BytecodeType::Isub => {},
            BytecodeType::Imul => {},
            BytecodeType::Mod => {},
            BytecodeType::Idiv => {},
            BytecodeType::Iand => {},
            BytecodeType::Ior => {},
            BytecodeType::Iless => {},
            BytecodeType::Ilesseq => {},
            BytecodeType::Igreater => {},
            BytecodeType::Igreatereq => {},
            BytecodeType::Ieq => {},
            BytecodeType::Ineg => {},
            BytecodeType::Neq => {},
            BytecodeType::Drop => {},
            BytecodeType::Dropn(v) => write_u8(out, *v),
            BytecodeType::Dup => {},
        }
        self.location.serialize(out);
        assert(out@ =~= old(out)@ + self.wire());
        Ok(())
    }
}

impl Location {
    /// The span in the image: begin and end, each as wide as a `usize`.
    pub open spec fn wire(&self) -> Seq<u8> {
        le_bytes(self.0 as nat, usize_width()) + le_bytes(self.1 as nat, usize_width())
    }

    /// Appends the span as it stands in the image.
    pub fn serialize(&self, out: &mut Vec<u8>)
        ensures
            final(out)@ == old(out)@ + self.wire(),
    {
        write_usize(out, self.0);
        write_usize(out, self.1);
        assert(out@ =~= old(out)@ + self.wire());
    }
}

/// The instructions of a function body, in order.
#[derive(Debug, Clone, PartialEq, Eq)]
pub struct Code {
    pub code: Vec<Bytecode>,
}

/// Each instruction of `s` as what it is.
pub open spec fn instructions(s: Seq<Bytecode>) -> Seq<Instruction> {
    s.map_values(|b: Bytecode| b@)
}

/// The records of the instructions of `s`, one after the other.
pub open spec fn records(s: Seq<Bytecode>) -> Seq<u8>
    decreases s.len(),
{
    if s.len() == 0 {
        Seq::empty()
    } else {
        records(s.drop_last()) + s.last().wire()
    }
}

/// Whether a label or a jump to a label is among the instructions.
pub open spec fn has_symbolic(s: Seq<Bytecode>) -> bool {
    exists|i: int| 0 <= i < s.len() && (#[trigger] s[i]).instr.is_symbolic()
}

impl View for Code {
    type V = Seq<Instruction>;

    open spec fn view(&self) -> Seq<Instruction> {
        instructions(self.code@)
    }
}

impl Code {
    pub fn new() -> (r: Self)
        ensures
            r.code@ == Seq::<Bytecode>::empty(),
            r@ == Seq::<Instruction>::empty(),
    {
        let r = Self { code: Vec::new() };
        assert(r@ =~= Seq::<Instruction>::empty());
        r
    }

    /// Appends the given instruction and returns the new number of
    /// instructions.
    pub fn add(&mut self, instruction: Bytecode) -> (r: usize)
        ensures
            final(self).code@ == old(self).code@.push(instruction),
            final(self)@ == old(self)@.push(instruction@),
            r == old(self).code.len() + 1,
    {
        self.code.push(instruction);
        assert(self@ =~= old(self)@.push(instruction@));
        self.code.len()
    }

    /// Appends the given instruction if `cond` holds.
    pub fn add_cond(&mut self, instruction: Bytecode, cond: bool)
        ensures
            cond ==> final(self).code@ == old(self).code@.push(instruction) && final(self)@ == old(
                self,
            )@.push(instruction@),
            !cond ==> final(self).code@ == old(self).code@ && final(self)@ == old(self)@,
    {
        if cond {
            self.add(instruction);
        }
    }

    /// The code in the image: the number of instructions in four bytes, then
    /// the record of each.
    pub open spec fn wire(&self) -> Seq<u8> {
        le_bytes(self.code.len() as nat, 4) + records(self.code@)
    }

    /// Why the code cannot stand in an image, if it cannot: it holds more
    /// instructions than four bytes count, or a label or a jump to one.
    pub open spec fn wire_error(&self) -> Option<ErrorKind> {
        if self.code.len() > u32::MAX {
            Some(ErrorKind::PoolOverflow)
        } else if has_symbolic(self.code@) {
            Some(ErrorKind::InvariantViolation)
        } else {
            None
        }
    }

    /// Appends the code as it stands in the image. Where it cannot stand
    /// there, returns the reason; what was appended by then has no meaning.
    pub fn serialize(&self, out: &mut Vec<u8>) -> (r: Result<(), ErrorKind>)
        ensures
            match self.wire_error() {
                None => r is Ok && final(out)@ == old(out)@ + self.wire(),
                Some(e) => r == Err::<(), ErrorKind>(e),
            },
    {
        if self.code.len() > 0xffff_ffff {
            return Err(ErrorKind::PoolOverflow);
        }
        write_u32(out, self.code.len() as u32);
        let mut i: usize = 0;
        assert(self.code@.subrange(0, 0) =~= Seq::<Bytecode>::empty());
        assert(out@ =~= old(out)@ + le_bytes(self.code.len() as nat, 4) + records(
            self.code@.subrange(0, 0),
        ));
        while i < self.code.len()
            invariant
                i <= self.code.len(),
                self.code.len() <= u32::MAX,
                !has_symbolic(self.code@.subrange(0, i as int)),
                out@ == old(out)@ + le_bytes(self.code.len() as nat, 4) + records(
                    self.code@.subrange(0, i as int),
                ),
            decreases self.code.len() - i,
        {
            let ghost before = out@;
            let ghost done = self.code@.subrange(0, i as int);
            let ghost next = self.code@.subrange(0, i + 1);
            match self.code[i].serialize(out) {
                Ok(()) => {},
                Err(e) => {
                    assert(self.code@[i as int].instr.is_symbolic());
                    return Err(e);
                },
            }
            assert(next.drop_last() =~= done);
            assert(next.last() == self.code@[i as int]);
            assert(out@ =~= old(out)@ + le_bytes(self.code.len() as nat, 4) + records(next));
            assert forall|k: int| 0 <= k < next.len() implies !(#[trigger] next[k]).instr.is_symbolic() by {
                if k < i {
                    assert(done[k] == next[k]);
                }
            }
            i += 1;
        }
        assert(self.code@.subrange(0, i as int) =~= self.code@);
        Ok(())
    }
}

} // verus!
