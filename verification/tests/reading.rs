use cacom::bytecode::{Bytecode, BytecodeType, Code};
use cacom::compiler::compile;
use cacom::objects::{write_image, ConstantPool, Function, Object};
use cacom::parser::TopLevelParser;
use cacom::utils::Location;

/// What an entry of the pool is in the image: a class holds its methods.
#[derive(Debug, PartialEq)]
enum Record {
    Text(String),
    Function(Function),
    Class { name: u32, methods: Vec<Function> },
}

struct Reader<'a> {
    bytes: &'a [u8],
    at: usize,
}

impl<'a> Reader<'a> {
    fn take(&mut self, width: usize) -> u64 {
        let mut value: u64 = 0;
        for i in (0..width).rev() {
            value = value * 256 + self.bytes[self.at + i] as u64;
        }
        self.at += width;
        value
    }

    fn word(&mut self) -> usize {
        self.take(std::mem::size_of::<usize>()) as usize
    }

    fn instruction(&mut self) -> Bytecode {
        let tag = self.take(1) as u8;
        let instr = match tag {
            0x01 => BytecodeType::PushShort(self.take(2) as u16 as i16),
            0x02 => BytecodeType::PushInt(self.take(4) as u32 as i32),
            0x03 => BytecodeType::PushLong(self.take(8) as i64),
            0x04 => BytecodeType::PushBool(self.take(1) != 0),
            0x05 => BytecodeType::PushLiteral(self.take(4) as u32),
            0x20 => BytecodeType::PushNone,
            0x06 => BytecodeType::GetLocal(self.take(2) as u16),
            0x07 => BytecodeType::SetLocal(self.take(2) as u16),
            0x13 => BytecodeType::GetGlobal(self.take(4) as u32),
            0x14 => BytecodeType::SetGlobal(self.take(4) as u32),
            0x15 => BytecodeType::DeclValGlobal { name: self.take(4) as u32 },
            0x16 => BytecodeType::DeclVarGlobal { name: self.take(4) as u32 },
            0x60 => BytecodeType::NewObject(self.take(4) as u32),
            0x61 => BytecodeType::GetMember(self.take(4) as u32),
            0x62 => BytecodeType::SetMember(self.take(4) as u32),
            0x63 => {
                let name = self.take(4) as u32;
                BytecodeType::DispatchMethod { name, arg_cnt: self.take(1) as u8 }
            }
            0x08 => BytecodeType::CallFunc { arg_cnt: self.take(1) as u8 },
            0x09 => BytecodeType::Ret,
            0x10 => BytecodeType::Print { arg_cnt: self.take(1) as u8 },
            0x0a => BytecodeType::JmpShort(self.take(2) as u16),
            0x0b => BytecodeType::Jmp(self.take(4) as u32),
            0x0c => BytecodeType::JmpLong(self.take(8)),
            0x0d => BytecodeType::BranchShort(self.take(2) as u16),
            0x0e => BytecodeType::Branch(self.take(4) as u32),
            0x0f => BytecodeType::BranchLong(self.take(8)),
            0x2d => BytecodeType::BranchShortFalse(self.take(2) as u16),
            0x2e => BytecodeType::BranchFalse(self.take(4) as u32),
            0x2f => BytecodeType::BranchLongFalse(self.take(8)),
            0x30 => BytecodeType::Iadd,
            0x31 => BytecodeType::Isub,
            0x32 => BytecodeType::Imul,
            0x33 => BytecodeType::Idiv,
            0x34 => BytecodeType::Mod,
            0x35 => BytecodeType::Iand,
            0x36 => BytecodeType::Ior,
            0x37 => BytecodeType::Iless,
            0x38 => BytecodeType::Ilesseq,
            0x39 => BytecodeType::Igreater,
            0x3a => BytecodeType::Igreatereq,
            0x3b => BytecodeType::Ieq,
            0x3c => BytecodeType::Ineg,
            0x3d => BytecodeType::Neq,
            0x11 => BytecodeType::Drop,
            0x25 => BytecodeType::Dropn(self.take(1) as u8),
            0x12 => BytecodeType::Dup,
            other => panic!("no operation has the tag {}", other),
        };
        let begin = self.word();
        let end = self.word();
        Bytecode { instr, location: Location(begin, end) }
    }

    fn function(&mut self) -> Function {
        let name = self.take(4) as u32;
        let parameters_cnt = self.take(1) as u8;
        let locals_cnt = self.take(2) as u16;
        let count = self.take(4);
        let code = (0..count).map(|_| self.instruction()).collect();
        Function { name, parameters_cnt, locals_cnt, body: Code { code } }
    }

    fn record(&mut self) -> Record {
        match self.take(1) {
            0x01 => {
                let length = self.take(4) as usize;
                let text = std::str::from_utf8(&self.bytes[self.at..self.at + length]).unwrap();
                self.at += length;
                Record::Text(String::from(text))
            }
            0x00 => Record::Function(self.function()),
            0x02 => {
                let name = self.take(4) as u32;
                let count = self.take(2);
                Record::Class { name, methods: (0..count).map(|_| self.function()).collect() }
            }
            other => panic!("no entry has the tag {}", other),
        }
    }
}

fn read_image(bytes: &[u8]) -> (Vec<Record>, u32) {
    let mut reader = Reader { bytes, at: 0 };
    let count = reader.take(4);
    let records = (0..count).map(|_| reader.record()).collect();
    let entry_point = reader.take(4) as u32;
    assert_eq!(reader.at, bytes.len());
    (records, entry_point)
}

fn content(pool: &ConstantPool) -> Vec<Record> {
    pool.data
        .iter()
        .map(|object| match object {
            Object::String(s) => Record::Text(s.clone()),
            Object::Function(f) => Record::Function(f.clone()),
            Object::Class { name, methods } => Record::Class {
                name: *name,
                methods: methods
                    .iter()
                    .map(|m| match &pool.data[*m as usize] {
                        Object::Function(f) => f.clone(),
                        other => panic!("no function: {:?}", other),
                    })
                    .collect(),
            },
        })
        .collect()
}

#[test]
fn images_can_be_read_back() {
    for source in [
        "",
        "print(\"h\u{e9}\", 1, -2);",
        "val x = 2; x + 3",
        "def id(a) = a; id(7);",
        "class C { def m() = 1; def n(a) = if (a) { -1 } elif a == 2 { none } else { m() }; }; C().n(true)",
        "var big = 2147483647; { val a = big; a.b = a < 1 != false; }",
    ] {
        let ast = TopLevelParser::new().parse(source).unwrap();
        let (pool, entry) = compile(&ast).unwrap();
        let image = write_image(&pool, entry).unwrap();
        assert_eq!(read_image(&image), (content(&pool), entry), "{}", source);
    }
}

#[test]
fn every_operation_can_be_read_back() {
    let operations = vec![
        BytecodeType::PushShort(-300),
        BytecodeType::PushShort(i16::MIN),
        BytecodeType::PushInt(-70000),
        BytecodeType::PushInt(i32::MAX),
        BytecodeType::PushLong(i64::MIN),
        BytecodeType::PushLong(-1),
        BytecodeType::PushBool(true),
        BytecodeType::PushBool(false),
        BytecodeType::PushLiteral(u32::MAX),
        BytecodeType::PushNone,
        BytecodeType::GetLocal(u16::MAX),
        BytecodeType::SetLocal(258),
        BytecodeType::DeclValGlobal { name: 66000 },
        BytecodeType::DeclVarGlobal { name: 1 },
        BytecodeType::GetGlobal(2),
        BytecodeType::SetGlobal(3),
        BytecodeType::GetMember(4),
        BytecodeType::SetMember(5),
        BytecodeType::NewObject(6),
        BytecodeType::CallFunc { arg_cnt: 255 },
        BytecodeType::DispatchMethod { name: 0x01020304, arg_cnt: 9 },
        BytecodeType::Ret,
        BytecodeType::JmpShort(7),
        BytecodeType::Jmp(8),
        BytecodeType::JmpLong(u64::MAX),
        BytecodeType::BranchShort(9),
        BytecodeType::Branch(10),
        BytecodeType::BranchLong(11),
        BytecodeType::BranchShortFalse(12),
        BytecodeType::BranchFalse(13),
        BytecodeType::BranchLongFalse(1 << 40),
        BytecodeType::Print { arg_cnt: 0 },
        BytecodeType::Iadd,
        BytecodeType::Isub,
        BytecodeType::Imul,
        BytecodeType::Mod,
        BytecodeType::Idiv,
        BytecodeType::Iand,
        BytecodeType::Ior,
        BytecodeType::Iless,
        BytecodeType::Ilesseq,
        BytecodeType::Igreater,
        BytecodeType::Igreatereq,
        BytecodeType::Ieq,
        BytecodeType::Ineg,
        BytecodeType::Neq,
        BytecodeType::Drop,
        BytecodeType::Dropn(200),
        BytecodeType::Dup,
    ];
    let code: Vec<Bytecode> = operations
        .into_iter()
        .enumerate()
        .map(|(i, instr)| Bytecode { instr, location: Location(i, usize::MAX - i) })
        .collect();
    let pool = ConstantPool {
        data: vec![
            Object::String(String::from("all")),
            Object::Function(Function {
                name: 0,
                parameters_cnt: 255,
                locals_cnt: u16::MAX,
                body: Code { code },
            }),
            Object::Class { name: 0, methods: vec![1, 1] },
        ],
    };
    let image = write_image(&pool, 1).unwrap();
    assert_eq!(read_image(&image), (content(&pool), 1));
}
