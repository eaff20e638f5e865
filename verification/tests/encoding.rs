use cacom::bytecode::{Bytecode, BytecodeType, Code};
use cacom::compiler::compile;
use cacom::error::ErrorKind;
use cacom::objects::{write_image, ConstantPool, Function, Object};
use cacom::parser::TopLevelParser;
use cacom::serializable::{
    write_bytes, write_i16, write_i32, write_i64, write_le, write_u16, write_u32, write_u64,
    write_u8, write_usize,
};
use cacom::utils::Location;

fn span(begin: usize, end: usize) -> Vec<u8> {
    let mut bytes = begin.to_le_bytes().to_vec();
    bytes.extend_from_slice(&end.to_le_bytes());
    bytes
}

fn record(instr: BytecodeType, begin: usize, end: usize) -> Vec<u8> {
    let mut out = Vec::new();
    Bytecode { instr, location: Location(begin, end) }.serialize(&mut out).unwrap();
    out
}

fn with_span(mut head: Vec<u8>, begin: usize, end: usize) -> Vec<u8> {
    head.extend(span(begin, end));
    head
}

#[test]
fn unsigned_integers_are_little_endian() {
    let mut out = vec![0xaa];
    write_u8(&mut out, 0x12);
    write_u16(&mut out, 0x1234);
    write_u32(&mut out, 0x1234_5678);
    write_u64(&mut out, 0x0102_0304_0506_0708);
    assert_eq!(
        out,
        vec![
            0xaa, 0x12, 0x34, 0x12, 0x78, 0x56, 0x34, 0x12, 0x08, 0x07, 0x06, 0x05, 0x04, 0x03,
            0x02, 0x01
        ]
    );
    let mut out = Vec::new();
    write_le(&mut out, 0x0a0b0c, 3);
    write_le(&mut out, 0x0a0b0c, 0);
    write_le(&mut out, 0x0a0b0c, 1);
    assert_eq!(out, vec![0x0c, 0x0b, 0x0a, 0x0c]);
}

#[test]
fn signed_integers_are_in_twos_complement() {
    let mut out = Vec::new();
    write_i16(&mut out, -2);
    write_i16(&mut out, i16::MIN);
    write_i16(&mut out, i16::MAX);
    assert_eq!(out, vec![0xfe, 0xff, 0x00, 0x80, 0xff, 0x7f]);
    for value in [0, 1, -1, 300, -300, i32::MIN, i32::MAX] {
        let mut out = Vec::new();
        write_i32(&mut out, value);
        assert_eq!(out, value.to_le_bytes().to_vec());
    }
    for value in [0, 1, -1, 1 << 40, -(1 << 40), i64::MIN, i64::MAX] {
        let mut out = Vec::new();
        write_i64(&mut out, value);
        assert_eq!(out, value.to_le_bytes().to_vec());
    }
}

#[test]
fn usize_takes_its_width() {
    let mut out = Vec::new();
    write_usize(&mut out, 0x0102);
    assert_eq!(out, 0x0102usize.to_le_bytes().to_vec());
    let mut out = Vec::new();
    write_usize(&mut out, usize::MAX);
    assert_eq!(out, usize::MAX.to_le_bytes().to_vec());
}

#[test]
fn bytes_are_appended_as_they_are() {
    let mut out = vec![1];
    write_bytes(&mut out, &[2, 3, 4]);
    write_bytes(&mut out, &[]);
    assert_eq!(out, vec![1, 2, 3, 4]);
}

#[test]
fn span_is_two_words() {
    let mut out = Vec::new();
    Location(1, 0x0203).serialize(&mut out);
    assert_eq!(out, span(1, 0x0203));
    assert_eq!(out.len(), 2 * std::mem::size_of::<usize>());
}

#[test]
fn instruction_records() {
    assert_eq!(record(BytecodeType::PushShort(-2), 1, 2), with_span(vec![0x01, 0xfe, 0xff], 1, 2));
    assert_eq!(
        record(BytecodeType::PushInt(-2), 1, 2),
        with_span(vec![0x02, 0xfe, 0xff, 0xff, 0xff], 1, 2)
    );
    assert_eq!(
        record(BytecodeType::PushLong(258), 0, 0),
        with_span(vec![0x03, 2, 1, 0, 0, 0, 0, 0, 0], 0, 0)
    );
    assert_eq!(record(BytecodeType::PushBool(true), 0, 0), with_span(vec![0x04, 1], 0, 0));
    assert_eq!(record(BytecodeType::PushBool(false), 0, 0), with_span(vec![0x04, 0], 0, 0));
    assert_eq!(record(BytecodeType::PushLiteral(7), 3, 4), with_span(vec![0x05, 7, 0, 0, 0], 3, 4));
    assert_eq!(record(BytecodeType::PushNone, 3, 4), with_span(vec![0x20], 3, 4));
    assert_eq!(record(BytecodeType::GetLocal(0x0102), 0, 0), with_span(vec![0x06, 2, 1], 0, 0));
    assert_eq!(record(BytecodeType::SetLocal(3), 0, 0), with_span(vec![0x07, 3, 0], 0, 0));
    assert_eq!(
        record(BytecodeType::DeclValGlobal { name: 1 }, 0, 0),
        with_span(vec![0x15, 1, 0, 0, 0], 0, 0)
    );
    assert_eq!(
        record(BytecodeType::DeclVarGlobal { name: 1 }, 0, 0),
        with_span(vec![0x16, 1, 0, 0, 0], 0, 0)
    );
    assert_eq!(record(BytecodeType::GetGlobal(1), 0, 0), with_span(vec![0x13, 1, 0, 0, 0], 0, 0));
    assert_eq!(record(BytecodeType::SetGlobal(1), 0, 0), with_span(vec![0x14, 1, 0, 0, 0], 0, 0));
    assert_eq!(record(BytecodeType::GetMember(1), 0, 0), with_span(vec![0x61, 1, 0, 0, 0], 0, 0));
    assert_eq!(record(BytecodeType::SetMember(1), 0, 0), with_span(vec![0x62, 1, 0, 0, 0], 0, 0));
    assert_eq!(record(BytecodeType::NewObject(1), 0, 0), with_span(vec![0x60, 1, 0, 0, 0], 0, 0));
    assert_eq!(record(BytecodeType::CallFunc { arg_cnt: 3 }, 0, 0), with_span(vec![0x08, 3], 0, 0));
    assert_eq!(
        record(BytecodeType::DispatchMethod { name: 0x0a0b, arg_cnt: 3 }, 0, 0),
        with_span(vec![0x63, 0x0b, 0x0a, 0, 0, 3], 0, 0)
    );
    assert_eq!(record(BytecodeType::Ret, 5, 6), with_span(vec![0x09], 5, 6));
    assert_eq!(record(BytecodeType::Print { arg_cnt: 2 }, 0, 0), with_span(vec![0x10, 2], 0, 0));
    assert_eq!(record(BytecodeType::JmpShort(2), 0, 0), with_span(vec![0x0a, 2, 0], 0, 0));
    assert_eq!(record(BytecodeType::Jmp(2), 0, 0), with_span(vec![0x0b, 2, 0, 0, 0], 0, 0));
    assert_eq!(
        record(BytecodeType::JmpLong(2), 0, 0),
        with_span(vec![0x0c, 2, 0, 0, 0, 0, 0, 0, 0], 0, 0)
    );
    assert_eq!(record(BytecodeType::BranchShort(2), 0, 0), with_span(vec![0x0d, 2, 0], 0, 0));
    assert_eq!(record(BytecodeType::Branch(2), 0, 0), with_span(vec![0x0e, 2, 0, 0, 0], 0, 0));
    assert_eq!(
        record(BytecodeType::BranchLong(2), 0, 0),
        with_span(vec![0x0f, 2, 0, 0, 0, 0, 0, 0, 0], 0, 0)
    );
    assert_eq!(record(BytecodeType::BranchShortFalse(2), 0, 0), with_span(vec![0x2d, 2, 0], 0, 0));
    assert_eq!(
        record(BytecodeType::BranchFalse(0x0102_0304), 0, 0),
        with_span(vec![0x2e, 4, 3, 2, 1], 0, 0)
    );
    assert_eq!(
        record(BytecodeType::BranchLongFalse(2), 0, 0),
        with_span(vec![0x2f, 2, 0, 0, 0, 0, 0, 0, 0], 0, 0)
    );
    assert_eq!(record(BytecodeType::Dropn(4), 0, 0), with_span(vec![0x25, 4], 0, 0));
    for (instr, tag) in [
        (BytecodeType::Iadd, 0x30),
        (BytecodeType::Isub, 0x31),
        (BytecodeType::Imul, 0x32),
        (BytecodeType::Idiv, 0x33),
        (BytecodeType::Mod, 0x34),
        (BytecodeType::Iand, 0x35),
        (BytecodeType::Ior, 0x36),
        (BytecodeType::Iless, 0x37),
        (BytecodeType::Ilesseq, 0x38),
        (BytecodeType::Igreater, 0x39),
        (BytecodeType::Igreatereq, 0x3a),
        (BytecodeType::Ieq, 0x3b),
        (BytecodeType::Ineg, 0x3c),
        (BytecodeType::Neq, 0x3d),
        (BytecodeType::Drop, 0x11),
        (BytecodeType::Dup, 0x12),
    ] {
        assert_eq!(record(instr, 8, 9), with_span(vec![tag], 8, 9));
    }
}

#[test]
fn record_is_the_size_and_the_span() {
    for instr in [
        BytecodeType::PushInt(5),
        BytecodeType::Ret,
        BytecodeType::DispatchMethod { name: 1, arg_cnt: 2 },
        BytecodeType::JmpLong(3),
        BytecodeType::GetLocal(1),
    ] {
        let b = Bytecode { instr, location: Location(0, 0) };
        let mut out = Vec::new();
        b.serialize(&mut out).unwrap();
        assert_eq!(out.len(), b.size() + 2 * std::mem::size_of::<usize>());
    }
}

#[test]
fn labels_cannot_be_written() {
    for instr in [
        BytecodeType::Label(String::from("l")),
        BytecodeType::JmpLabel(String::from("l")),
        BytecodeType::BranchLabel(String::from("l")),
        BytecodeType::BranchLabelFalse(String::from("l")),
    ] {
        let mut out = vec![9];
        let b = Bytecode { instr, location: Location(0, 0) };
        assert_eq!(b.serialize(&mut out), Err(ErrorKind::InvariantViolation));
        assert_eq!(out, vec![9]);
        let code = Code { code: vec![Bytecode { instr: BytecodeType::Ret, location: Location(0, 0) }, b] };
        assert_eq!(code.serialize(&mut out), Err(ErrorKind::InvariantViolation));
        let f = Function { name: 0, parameters_cnt: 0, locals_cnt: 0, body: code };
        assert_eq!(f.serialize(&mut Vec::new()), Err(ErrorKind::InvariantViolation));
        let pool = ConstantPool { data: vec![Object::Function(f)] };
        assert_eq!(pool.serialize(&mut Vec::new()), Err(ErrorKind::InvariantViolation));
        assert_eq!(write_image(&pool, 0), Err(ErrorKind::InvariantViolation));
    }
}

#[test]
fn code_is_counted() {
    let code = Code {
        code: vec![
            Bytecode { instr: BytecodeType::PushNone, location: Location(1, 2) },
            Bytecode { instr: BytecodeType::Ret, location: Location(3, 4) },
        ],
    };
    let mut out = vec![0xee];
    assert_eq!(code.serialize(&mut out), Ok(()));
    let mut expected = vec![0xee, 2, 0, 0, 0, 0x20];
    expected.extend(span(1, 2));
    expected.push(0x09);
    expected.extend(span(3, 4));
    assert_eq!(out, expected);
    let mut out = Vec::new();
    assert_eq!(Code::new().serialize(&mut out), Ok(()));
    assert_eq!(out, vec![0, 0, 0, 0]);
}

fn returning(name: u32, parameters_cnt: u8, locals_cnt: u16) -> Function {
    Function {
        name,
        parameters_cnt,
        locals_cnt,
        body: Code { code: vec![Bytecode { instr: BytecodeType::Ret, location: Location(0, 0) }] },
    }
}

fn returning_record(name: u32, parameters_cnt: u8, locals_cnt: u16) -> Vec<u8> {
    let mut expected = name.to_le_bytes().to_vec();
    expected.push(parameters_cnt);
    expected.extend_from_slice(&locals_cnt.to_le_bytes());
    expected.extend_from_slice(&[1, 0, 0, 0, 0x09]);
    expected.extend(span(0, 0));
    expected
}

#[test]
fn function_record() {
    let mut out = Vec::new();
    assert_eq!(returning(0x0102, 3, 0x0405).serialize(&mut out), Ok(()));
    assert_eq!(out, returning_record(0x0102, 3, 0x0405));
    assert_eq!(out[..7], [2, 1, 0, 0, 3, 5, 4]);
}

#[test]
fn object_records() {
    let pool = ConstantPool {
        data: vec![
            Object::String(String::from("hé")),
            Object::Function(returning(0, 1, 2)),
            Object::Function(returning(0, 0, 0)),
            Object::Class { name: 0, methods: vec![2, 1] },
            Object::Class { name: 3, methods: vec![] },
        ],
    };
    let mut out = Vec::new();
    assert_eq!(pool.data[0].serialize(&pool, &mut out), Ok(()));
    assert_eq!(out, vec![0x01, 3, 0, 0, 0, b'h', 0xc3, 0xa9]);

    let mut out = Vec::new();
    assert_eq!(pool.data[1].serialize(&pool, &mut out), Ok(()));
    let mut expected = vec![0x00];
    expected.extend(returning_record(0, 1, 2));
    assert_eq!(out, expected);

    let mut out = Vec::new();
    assert_eq!(pool.data[3].serialize(&pool, &mut out), Ok(()));
    let mut expected = vec![0x02, 0, 0, 0, 0, 2, 0];
    expected.extend(returning_record(0, 0, 0));
    expected.extend(returning_record(0, 1, 2));
    assert_eq!(out, expected);

    let mut out = Vec::new();
    assert_eq!(pool.data[4].serialize(&pool, &mut out), Ok(()));
    assert_eq!(out, vec![0x02, 3, 0, 0, 0, 0, 0]);
}

#[test]
fn method_must_be_a_function_of_the_pool() {
    let pool = ConstantPool {
        data: vec![Object::String(String::from("C")), Object::Class { name: 0, methods: vec![0] }],
    };
    assert_eq!(pool.serialize(&mut Vec::new()), Err(ErrorKind::InvariantViolation));
    let pool = ConstantPool { data: vec![Object::Class { name: 0, methods: vec![5] }] };
    assert_eq!(pool.serialize(&mut Vec::new()), Err(ErrorKind::InvariantViolation));
}

#[test]
fn too_many_methods_overflow() {
    let pool = ConstantPool {
        data: vec![
            Object::Function(returning(0, 0, 0)),
            Object::Class { name: 0, methods: vec![0; 65536] },
        ],
    };
    assert_eq!(pool.serialize(&mut Vec::new()), Err(ErrorKind::PoolOverflow));
}

#[test]
fn empty_pool_is_its_count() {
    let mut out = Vec::new();
    assert_eq!(ConstantPool::new().serialize(&mut out), Ok(()));
    assert_eq!(out, vec![0, 0, 0, 0]);
    assert_eq!(write_image(&ConstantPool::new(), 9), Ok(vec![0, 0, 0, 0, 9, 0, 0, 0]));
}

#[test]
fn image_of_a_program() {
    let ast = TopLevelParser::new().parse("print(\"hi\");").unwrap();
    let (pool, entry) = compile(&ast).unwrap();
    let image = write_image(&pool, entry).unwrap();
    let mut expected: Vec<u8> = vec![3, 0, 0, 0];
    expected.extend_from_slice(&[0x01, 5, 0, 0, 0]);
    expected.extend_from_slice(b"#main");
    expected.extend_from_slice(&[0x01, 2, 0, 0, 0]);
    expected.extend_from_slice(b"hi");
    expected.extend_from_slice(&[0x00, 0, 0, 0, 0, 0, 0, 0, 3, 0, 0, 0]);
    expected.extend_from_slice(&[0x05, 1, 0, 0, 0]);
    expected.extend(span(6, 10));
    expected.extend_from_slice(&[0x10, 1]);
    expected.extend(span(0, 11));
    expected.push(0x09);
    expected.extend(span(0, 12));
    expected.extend_from_slice(&[2, 0, 0, 0]);
    assert_eq!(image, expected);
}

#[test]
fn image_of_a_class() {
    let ast = TopLevelParser::new().parse("class C { def m() = 1; };").unwrap();
    let (pool, entry) = compile(&ast).unwrap();
    let image = write_image(&pool, entry).unwrap();
    // count, then the strings "#main", "C", "m"
    assert_eq!(image[..4], [7, 0, 0, 0]);
    assert_eq!(image[4..14], [1, 5, 0, 0, 0, b'#', b'm', b'a', b'i', b'n']);
    assert_eq!(image[14..20], [1, 1, 0, 0, 0, b'C']);
    assert_eq!(image[20..26], [1, 1, 0, 0, 0, b'm']);
    assert_eq!(image[image.len() - 4..], [6, 0, 0, 0]);
    // the class record holds the record of its method
    let mut class = vec![0x02, 1, 0, 0, 0, 1, 0];
    let mut method = Vec::new();
    match &pool.data[3] {
        Object::Function(f) => f.serialize(&mut method).unwrap(),
        other => panic!("no function: {:?}", other),
    }
    class.extend(method);
    let mut out = Vec::new();
    pool.data[4].serialize(&pool, &mut out).unwrap();
    assert_eq!(out, class);
}
