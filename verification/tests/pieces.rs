use cacom::bytecode::{Bytecode, BytecodeType, Code};
use cacom::compiler::{Compiler, Environment};
use cacom::error::{CompileError, ErrorKind};
use cacom::jumps::{jump_pass, resolve_jumps};
use cacom::lowering::Local;
use cacom::objects::{ConstantPool, Function, Object};
use cacom::utils::{decimal_string, AtomicInt, LabelGenerator, Location};

fn at(instr: BytecodeType) -> Bytecode {
    Bytecode { instr, location: Location(0, 0) }
}

fn label(name: &str) -> BytecodeType {
    BytecodeType::Label(String::from(name))
}

fn empty_function(name: u32) -> Object {
    Object::Function(Function { name, parameters_cnt: 0, locals_cnt: 0, body: Code::new() })
}

#[test]
fn counter_counts_from_zero() {
    let mut counter = AtomicInt::new();
    assert_eq!(counter.get_and_inc(), 0);
    assert_eq!(counter.get_and_inc(), 1);
    assert_eq!(counter.get_and_inc(), 2);
}

#[test]
fn numbers_are_written_in_decimal() {
    assert_eq!(decimal_string(0), "0");
    assert_eq!(decimal_string(7), "7");
    assert_eq!(decimal_string(10), "10");
    assert_eq!(decimal_string(1905), "1905");
    assert_eq!(decimal_string(4294967295), "4294967295");
}

#[test]
fn labels_carry_the_counter() {
    let mut labels = LabelGenerator::new();
    assert_eq!(labels.get_label("if_else"), "if_else_0");
    assert_eq!(labels.get_label("if_merge"), "if_merge_1");
    assert_eq!(labels.get_label("if_else"), "if_else_2");
    assert_eq!(labels.try_get_label("loop"), Some(String::from("loop_3")));
}

#[test]
fn prefix_that_ends_in_a_counter_is_refused() {
    let mut labels = LabelGenerator::new();
    assert_eq!(labels.try_get_label("if_else_1"), None);
    assert_eq!(labels.try_get_label("_0"), None);
    assert_eq!(labels.try_get_label("a_b_123"), None);
    assert_eq!(labels.try_get_label("x_\u{0663}"), None);
    // the refusals did not use up a number
    assert_eq!(labels.try_get_label("if_else"), Some(String::from("if_else_0")));
    assert_eq!(labels.try_get_label("a_"), Some(String::from("a__1")));
    assert_eq!(labels.try_get_label("a_1b"), Some(String::from("a_1b_2")));
    assert_eq!(labels.try_get_label("a1"), Some(String::from("a1_3")));
    assert_eq!(labels.try_get_label(""), Some(String::from("_4")));
}

#[test]
fn location_holds_begin_and_end() {
    let location = Location::new(3, 9);
    assert_eq!(location, Location(3, 9));
    assert_eq!((location.0, location.1), (3, 9));
}

#[test]
fn adding_a_literal_twice_makes_one_entry() {
    let mut pool = ConstantPool::new();
    assert_eq!(pool.add(Object::String(String::from("hi"))), Ok(0));
    assert_eq!(pool.add(Object::String(String::from("hi"))), Ok(0));
    assert_eq!(pool.data.len(), 1);
    assert_eq!(pool.len(), 1);
    assert_eq!(pool.data[0], Object::String(String::from("hi")));
}

#[test]
fn equal_strings_get_the_first_index() {
    let mut pool = ConstantPool::new();
    assert_eq!(pool.add(Object::from(String::from("a"))), Ok(0));
    assert_eq!(pool.add(Object::from(String::from("b"))), Ok(1));
    assert_eq!(pool.add(empty_function(0)), Ok(2));
    assert_eq!(pool.add(Object::from(String::from("c"))), Ok(3));
    assert_eq!(pool.add(Object::from(String::from("b"))), Ok(1));
    assert_eq!(pool.add(Object::from(String::from("a"))), Ok(0));
    assert_eq!(pool.add(Object::from(String::from("c"))), Ok(3));
    assert_eq!(pool.add(Object::from(String::from(""))), Ok(4));
    assert_eq!(pool.data.len(), 5);
    // strings that were put side by side by hand are found at the first place
    let mut twice = ConstantPool {
        data: vec![
            Object::String(String::from("x")),
            Object::String(String::from("y")),
            Object::String(String::from("y")),
        ],
    };
    assert_eq!(twice.add(Object::String(String::from("y"))), Ok(1));
    assert_eq!(twice.data.len(), 3);
}

#[test]
fn functions_and_classes_are_never_shared() {
    let mut pool = ConstantPool::new();
    assert_eq!(pool.add(empty_function(0)), Ok(0));
    assert_eq!(pool.add(empty_function(0)), Ok(1));
    assert_eq!(pool.add(Object::Class { name: 0, methods: vec![] }), Ok(2));
    assert_eq!(pool.add(Object::Class { name: 0, methods: vec![] }), Ok(3));
    assert_eq!(pool.data.len(), 4);
}

#[test]
fn object_tags() {
    assert_eq!(Object::String(String::new()).byte_encode(), 0x01);
    assert_eq!(empty_function(3).byte_encode(), 0x00);
    assert_eq!(Object::Class { name: 0, methods: vec![] }.byte_encode(), 0x02);
}

#[test]
fn environment_scopes() {
    let mut env = Environment::new();
    assert_eq!(env.depth(), 1);
    let x = String::from("x");
    let y = String::from("y");
    assert_eq!(env.fetch_local(&x), None);
    assert_eq!(env.add_local(x.clone(), 0, false), Ok(()));
    assert_eq!(env.fetch_local(&x), Some(Local { idx: 0, mutable: false }));
    assert_eq!(env.add_local(x.clone(), 1, true), Err(ErrorKind::Redefinition));
    assert_eq!(env.fetch_local(&x), Some(Local { idx: 0, mutable: false }));
    env.enter_scope();
    assert_eq!(env.depth(), 2);
    assert_eq!(env.fetch_local(&x), Some(Local { idx: 0, mutable: false }));
    assert_eq!(env.add_local(x.clone(), 1, true), Ok(()));
    assert_eq!(env.add_local(y.clone(), 2, false), Ok(()));
    assert_eq!(env.fetch_local(&x), Some(Local { idx: 1, mutable: true }));
    assert_eq!(env.fetch_local(&y), Some(Local { idx: 2, mutable: false }));
    assert_eq!(env.leave_scope(), 2);
    assert_eq!(env.fetch_local(&x), Some(Local { idx: 0, mutable: false }));
    assert_eq!(env.fetch_local(&y), None);
    assert_eq!(env.leave_scope(), 1);
    assert_eq!(env.depth(), 0);
    assert_eq!(env.fetch_local(&x), None);
}

#[test]
fn compiler_counts_live_locals() {
    let mut compiler = Compiler::new();
    let mut code = Code::new();
    assert_eq!((compiler.local_count(), compiler.local_max()), (0, 0));
    compiler.enter_scope();
    let a = String::from("a");
    let b = String::from("b");
    assert_eq!(compiler.declare(&a, false, &mut code, Location(0, 1)), Ok(()));
    compiler.enter_scope();
    assert_eq!(compiler.declare(&b, true, &mut code, Location(2, 3)), Ok(()));
    assert_eq!(compiler.declare(&a, true, &mut code, Location(4, 5)), Ok(()));
    assert_eq!((compiler.local_count(), compiler.local_max()), (3, 3));
    assert_eq!(
        compiler.declare(&a, true, &mut code, Location(6, 7)),
        Err(CompileError { kind: ErrorKind::Redefinition, location: Some(Location(6, 7)) })
    );
    compiler.leave_scope();
    assert_eq!((compiler.local_count(), compiler.local_max()), (1, 3));
    let backup = compiler.reset_locals();
    assert_eq!(backup, (1, 3));
    assert_eq!((compiler.local_count(), compiler.local_max()), (0, 0));
    compiler.restore_locals(backup);
    assert_eq!((compiler.local_count(), compiler.local_max()), (1, 3));
    compiler.leave_scope();
    assert_eq!((compiler.local_count(), compiler.local_max()), (0, 3));
    assert_eq!(
        code.code.iter().map(|b| b.instr.clone()).collect::<Vec<_>>(),
        vec![BytecodeType::SetLocal(0), BytecodeType::SetLocal(1), BytecodeType::SetLocal(2)]
    );
    // back at the top level a declaration makes a global
    assert_eq!(compiler.declare(&a, true, &mut code, Location(8, 9)), Ok(()));
    assert_eq!(code.code[3].instr, BytecodeType::DeclVarGlobal { name: 0 });
    assert_eq!(compiler.constant_pool().data, vec![Object::String(String::from("a"))]);
}

#[test]
fn add_locals_tracks_the_maximum() {
    let mut compiler = Compiler::new();
    compiler.add_locals(2);
    assert_eq!((compiler.local_count(), compiler.local_max()), (2, 2));
    let backup = compiler.reset_locals();
    compiler.add_locals(1);
    assert_eq!((compiler.local_count(), compiler.local_max()), (1, 1));
    compiler.restore_locals(backup);
    compiler.add_locals(0);
    assert_eq!((compiler.local_count(), compiler.local_max()), (2, 2));
}

#[test]
fn function_definition_is_for_the_top_level() {
    let mut compiler = Compiler::new();
    let mut code = Code::new();
    assert_eq!(compiler.emit_function_def(4, 5, Location(1, 2), &mut code), Ok(()));
    assert_eq!(
        code.code,
        vec![
            Bytecode { instr: BytecodeType::PushLiteral(5), location: Location(1, 2) },
            Bytecode { instr: BytecodeType::DeclValGlobal { name: 4 }, location: Location(1, 2) },
        ]
    );
    compiler.enter_scope();
    assert_eq!(
        compiler.emit_function_def(4, 5, Location(1, 2), &mut code),
        Err(CompileError {
            kind: ErrorKind::Unsupported(cacom::error::Construct::NestedFunction),
            location: Some(Location(1, 2)),
        })
    );
}

#[test]
fn code_grows_by_one() {
    let mut code = Code::new();
    assert_eq!(code.code.len(), 0);
    assert_eq!(code.add(at(BytecodeType::PushNone)), 1);
    assert_eq!(code.add(at(BytecodeType::Ret)), 2);
    code.add_cond(at(BytecodeType::Drop), false);
    assert_eq!(code.code.len(), 2);
    code.add_cond(at(BytecodeType::Drop), true);
    assert_eq!(code.code, vec![at(BytecodeType::PushNone), at(BytecodeType::Ret), at(BytecodeType::Drop)]);
}

#[test]
fn sizes_of_instructions() {
    let sizes = [
        (BytecodeType::PushShort(1), 3),
        (BytecodeType::PushInt(1), 5),
        (BytecodeType::PushLong(1), 9),
        (BytecodeType::PushBool(true), 2),
        (BytecodeType::PushLiteral(1), 5),
        (BytecodeType::PushNone, 1),
        (BytecodeType::GetLocal(1), 3),
        (BytecodeType::SetLocal(1), 3),
        (BytecodeType::DeclValGlobal { name: 1 }, 5),
        (BytecodeType::DeclVarGlobal { name: 1 }, 5),
        (BytecodeType::GetGlobal(1), 5),
        (BytecodeType::SetGlobal(1), 5),
        (BytecodeType::GetMember(1), 5),
        (BytecodeType::SetMember(1), 5),
        (BytecodeType::NewObject(1), 5),
        (BytecodeType::CallFunc { arg_cnt: 1 }, 2),
        (BytecodeType::DispatchMethod { name: 1, arg_cnt: 1 }, 6),
        (BytecodeType::Ret, 1),
        (label("l"), 0),
        (BytecodeType::JmpLabel(String::from("l")), 5),
        (BytecodeType::BranchLabel(String::from("l")), 5),
        (BytecodeType::BranchLabelFalse(String::from("l")), 5),
        (BytecodeType::JmpShort(1), 3),
        (BytecodeType::Jmp(1), 5),
        (BytecodeType::JmpLong(1), 9),
        (BytecodeType::BranchShort(1), 3),
        (BytecodeType::Branch(1), 5),
        (BytecodeType::BranchLong(1), 9),
        (BytecodeType::BranchShortFalse(1), 3),
        (BytecodeType::BranchFalse(1), 5),
        (BytecodeType::BranchLongFalse(1), 9),
        (BytecodeType::Print { arg_cnt: 1 }, 2),
        (BytecodeType::Iadd, 1),
        (BytecodeType::Isub, 1),
        (BytecodeType::Imul, 1),
        (BytecodeType::Idiv, 1),
        (BytecodeType::Mod, 1),
        (BytecodeType::Iand, 1),
        (BytecodeType::Ior, 1),
        (BytecodeType::Iless, 1),
        (BytecodeType::Ilesseq, 1),
        (BytecodeType::Igreater, 1),
        (BytecodeType::Igreatereq, 1),
        (BytecodeType::Ieq, 1),
        (BytecodeType::Ineg, 1),
        (BytecodeType::Neq, 1),
        (BytecodeType::Drop, 1),
        (BytecodeType::Dropn(2), 2),
        (BytecodeType::Dup, 1),
    ];
    for (instr, size) in sizes {
        assert_eq!(at(instr.clone()).size(), size, "{:?}", instr);
    }
}

#[test]
fn tags_of_instructions() {
    let tags = [
        (BytecodeType::PushShort(1), 0x01),
        (BytecodeType::PushInt(1), 0x02),
        (BytecodeType::PushLong(1), 0x03),
        (BytecodeType::PushBool(true), 0x04),
        (BytecodeType::PushLiteral(1), 0x05),
        (BytecodeType::PushNone, 0x20),
        (BytecodeType::GetLocal(1), 0x06),
        (BytecodeType::SetLocal(1), 0x07),
        (BytecodeType::GetGlobal(1), 0x13),
        (BytecodeType::SetGlobal(1), 0x14),
        (BytecodeType::DeclValGlobal { name: 1 }, 0x15),
        (BytecodeType::DeclVarGlobal { name: 1 }, 0x16),
        (BytecodeType::NewObject(1), 0x60),
        (BytecodeType::GetMember(1), 0x61),
        (BytecodeType::SetMember(1), 0x62),
        (BytecodeType::DispatchMethod { name: 1, arg_cnt: 1 }, 0x63),
        (BytecodeType::CallFunc { arg_cnt: 1 }, 0x08),
        (BytecodeType::Ret, 0x09),
        (BytecodeType::Print { arg_cnt: 1 }, 0x10),
        (BytecodeType::JmpShort(1), 0x0A),
        (BytecodeType::Jmp(1), 0x0B),
        (BytecodeType::JmpLong(1), 0x0C),
        (BytecodeType::BranchShort(1), 0x0D),
        (BytecodeType::Branch(1), 0x0E),
        (BytecodeType::BranchLong(1), 0x0F),
        (BytecodeType::BranchShortFalse(1), 0x2D),
        (BytecodeType::BranchFalse(1), 0x2E),
        (BytecodeType::BranchLongFalse(1), 0x2F),
        (BytecodeType::Iadd, 0x30),
        (BytecodeType::Isub, 0x31),
        (BytecodeType::Imul, 0x32),
        (BytecodeType::Idiv, 0x33),
        (BytecodeType::Mod, 0x34),
        (BytecodeType::Iand, 0x35),
        (BytecodeType::Ior, 0x36),
        (BytecodeType::Iless, 0x37),
        (BytecodeType::Ilesseq, 0x38),
        (BytecodeType::Igreater, 0x39),
        (BytecodeType::Igreatereq, 0x3A),
        (BytecodeType::Ieq, 0x3B),
        (BytecodeType::Ineg, 0x3C),
        (BytecodeType::Neq, 0x3D),
        (BytecodeType::Drop, 0x11),
        (BytecodeType::Dropn(2), 0x25),
        (BytecodeType::Dup, 0x12),
        (label("l"), 0x00),
    ];
    for (instr, tag) in tags {
        assert_eq!(at(instr.clone()).byte_encode(), tag, "{:?}", instr);
    }
}

#[test]
fn jumps_can_be_pointed_elsewhere() {
    let mut jump = at(BytecodeType::Jmp(0));
    assert_eq!(jump.update_jump(77), Ok(()));
    assert_eq!(jump.instr, BytecodeType::Jmp(77));
    let mut jump = at(BytecodeType::BranchShort(0));
    assert_eq!(jump.update_jump(0xffff), Ok(()));
    assert_eq!(jump.instr, BytecodeType::BranchShort(0xffff));
    assert_eq!(jump.update_jump(0x1_0000), Err(ErrorKind::PoolOverflow));
    assert_eq!(jump.instr, BytecodeType::BranchShort(0xffff));
    let mut jump = at(BytecodeType::BranchLongFalse(0));
    assert_eq!(jump.update_jump(5), Ok(()));
    assert_eq!(jump.instr, BytecodeType::BranchLongFalse(5));
    let mut jump = at(BytecodeType::JmpShort(1));
    assert_eq!(jump.update_jump(2), Ok(()));
    assert_eq!(jump.instr, BytecodeType::JmpShort(2));
    let mut jump = at(BytecodeType::JmpLong(1));
    assert_eq!(jump.update_jump(2), Ok(()));
    assert_eq!(jump.instr, BytecodeType::JmpLong(2));
    let mut jump = at(BytecodeType::Branch(1));
    assert_eq!(jump.update_jump(2), Ok(()));
    assert_eq!(jump.instr, BytecodeType::Branch(2));
    let mut jump = at(BytecodeType::BranchLong(1));
    assert_eq!(jump.update_jump(2), Ok(()));
    assert_eq!(jump.instr, BytecodeType::BranchLong(2));
    let mut jump = at(BytecodeType::BranchShortFalse(1));
    assert_eq!(jump.update_jump(2), Ok(()));
    assert_eq!(jump.instr, BytecodeType::BranchShortFalse(2));
    let mut jump = at(BytecodeType::BranchFalse(1));
    assert_eq!(jump.update_jump(2), Ok(()));
    assert_eq!(jump.instr, BytecodeType::BranchFalse(2));
}

#[test]
fn only_jumps_can_be_pointed_elsewhere() {
    let mut other = at(BytecodeType::PushInt(1));
    assert_eq!(other.update_jump(2), Err(ErrorKind::InvariantViolation));
    assert_eq!(other.instr, BytecodeType::PushInt(1));
    let mut symbolic = at(BytecodeType::JmpLabel(String::from("l")));
    assert_eq!(symbolic.update_jump(2), Err(ErrorKind::InvariantViolation));
}

#[test]
fn jump_pass_replaces_labels_by_offsets() {
    let code = vec![
        Bytecode { instr: BytecodeType::PushBool(true), location: Location(0, 1) },
        Bytecode { instr: BytecodeType::BranchLabelFalse(String::from("else")), location: Location(1, 2) },
        Bytecode { instr: BytecodeType::PushNone, location: Location(2, 3) },
        Bytecode { instr: BytecodeType::JmpLabel(String::from("end")), location: Location(3, 4) },
        Bytecode { instr: label("else"), location: Location(4, 5) },
        Bytecode { instr: BytecodeType::PushShort(3), location: Location(5, 6) },
        Bytecode { instr: BytecodeType::BranchLabel(String::from("start")), location: Location(6, 7) },
        Bytecode { instr: label("end"), location: Location(7, 8) },
        Bytecode { instr: label("start"), location: Location(8, 9) },
        Bytecode { instr: BytecodeType::Ret, location: Location(9, 10) },
    ];
    assert_eq!(
        jump_pass(code),
        Ok(vec![
            Bytecode { instr: BytecodeType::PushBool(true), location: Location(0, 1) },
            Bytecode { instr: BytecodeType::BranchFalse(13), location: Location(1, 2) },
            Bytecode { instr: BytecodeType::PushNone, location: Location(2, 3) },
            Bytecode { instr: BytecodeType::Jmp(21), location: Location(3, 4) },
            Bytecode { instr: BytecodeType::PushShort(3), location: Location(5, 6) },
            Bytecode { instr: BytecodeType::Branch(21), location: Location(6, 7) },
            Bytecode { instr: BytecodeType::Ret, location: Location(9, 10) },
        ])
    );
}

#[test]
fn jump_pass_on_code_without_labels_changes_nothing() {
    let code = vec![at(BytecodeType::PushInt(1)), at(BytecodeType::Jmp(0)), at(BytecodeType::Ret)];
    assert_eq!(jump_pass(code.clone()), Ok(code));
    assert_eq!(jump_pass(vec![]), Ok(vec![]));
}

#[test]
fn jump_to_a_missing_label_is_a_fault() {
    let code = vec![at(BytecodeType::JmpLabel(String::from("nowhere"))), at(label("somewhere"))];
    assert_eq!(jump_pass(code), Err(ErrorKind::InvariantViolation));
}

#[test]
fn last_label_of_a_name_counts() {
    let code = vec![
        at(label("l")),
        at(BytecodeType::JmpLabel(String::from("l"))),
        at(label("l")),
        at(BytecodeType::Ret),
    ];
    assert_eq!(jump_pass(code), Ok(vec![at(BytecodeType::Jmp(5)), at(BytecodeType::Ret)]));
}

#[test]
fn jumps_of_every_function_are_resolved() {
    let body = Code {
        code: vec![at(BytecodeType::JmpLabel(String::from("l"))), at(label("l")), at(BytecodeType::Ret)],
    };
    let pool = ConstantPool {
        data: vec![
            Object::String(String::from("f")),
            Object::Function(Function { name: 0, parameters_cnt: 1, locals_cnt: 2, body }),
            Object::Class { name: 0, methods: vec![1] },
        ],
    };
    let resolved = resolve_jumps(pool).unwrap();
    assert_eq!(
        resolved.data,
        vec![
            Object::String(String::from("f")),
            Object::Function(Function {
                name: 0,
                parameters_cnt: 1,
                locals_cnt: 2,
                body: Code { code: vec![at(BytecodeType::Jmp(5)), at(BytecodeType::Ret)] },
            }),
            Object::Class { name: 0, methods: vec![1] },
        ]
    );
    let broken = ConstantPool {
        data: vec![Object::Function(Function {
            name: 0,
            parameters_cnt: 0,
            locals_cnt: 0,
            body: Code { code: vec![at(BytecodeType::BranchLabel(String::from("l")))] },
        })],
    };
    assert_eq!(resolve_jumps(broken), Err(ErrorKind::InvariantViolation));
}
