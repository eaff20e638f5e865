use cacom::ast::{Expr, ExprType, Located, Opcode, Stmt, StmtType};
use cacom::bytecode::{Bytecode, BytecodeType, Code};
use cacom::compiler::{check_operator_arity, compile, Compiler};
use cacom::error::{CompileError, Construct, ErrorKind};
use cacom::objects::{ConstantPool, Function, Object};
use cacom::parser::TopLevelParser;
use cacom::utils::Location;

fn program(source: &str) -> (ConstantPool, u32) {
    let ast = TopLevelParser::new().parse(source).expect("the source is a program");
    compile(&ast).expect("the program compiles")
}

fn failure(source: &str) -> CompileError {
    let ast = TopLevelParser::new().parse(source).expect("the source is a program");
    compile(&ast).expect_err("the program does not compile")
}

fn function(pool: &ConstantPool, index: u32) -> &Function {
    match &pool.data[index as usize] {
        Object::Function(f) => f,
        other => panic!("entry {} is no function: {:?}", index, other),
    }
}

fn body(pool: &ConstantPool, index: u32) -> Vec<BytecodeType> {
    function(pool, index).body.code.iter().map(|b| b.instr.clone()).collect()
}

fn text(s: &str) -> Object {
    Object::String(String::from(s))
}

fn integer(value: i32) -> Expr {
    Located { node: ExprType::Integer(value), location: Location(0, 1) }
}

#[test]
fn empty_program_is_a_main_that_returns() {
    let ast: Stmt = Located { node: StmtType::Top(vec![]), location: Location(0, 0) };
    let (pool, entry) = compile(&ast).unwrap();
    assert_eq!(entry, 1);
    assert_eq!(pool.data.len(), 2);
    assert_eq!(pool.data[0], text("#main"));
    assert_eq!(
        pool.data[1],
        Object::Function(Function {
            name: 0,
            parameters_cnt: 0,
            locals_cnt: 0,
            body: Code { code: vec![Bytecode { instr: BytecodeType::Ret, location: Location(0, 0) }] },
        })
    );
}

#[test]
fn empty_source_compiles_like_the_empty_program() {
    let (pool, entry) = program("");
    assert_eq!(entry, 1);
    assert_eq!(body(&pool, entry), vec![BytecodeType::Ret]);
}

#[test]
fn block_that_ends_in_a_statement_has_the_value_none() {
    let (pool, entry) = program("{ val x = 5; }");
    assert_eq!(
        body(&pool, entry),
        vec![
            BytecodeType::PushInt(5),
            BytecodeType::SetLocal(0),
            BytecodeType::PushNone,
            BytecodeType::Ret,
        ]
    );
    assert_eq!(function(&pool, entry).locals_cnt, 1);
}

#[test]
fn expression_statements_of_a_block_are_dropped() {
    let (pool, entry) = program("{1;2}");
    assert_eq!(
        body(&pool, entry),
        vec![
            BytecodeType::PushInt(1),
            BytecodeType::Drop,
            BytecodeType::PushInt(2),
            BytecodeType::Ret,
        ]
    );
}

#[test]
fn top_level_keeps_the_last_value_only() {
    let (pool, entry) = program("1;2;3");
    assert_eq!(
        body(&pool, entry),
        vec![
            BytecodeType::PushInt(1),
            BytecodeType::Drop,
            BytecodeType::PushInt(2),
            BytecodeType::Drop,
            BytecodeType::PushInt(3),
            BytecodeType::Ret,
        ]
    );
}

#[test]
fn negate_takes_one_argument() {
    let expr = Located {
        node: ExprType::Operator { op: Opcode::Negate, arguments: vec![integer(1), integer(2)] },
        location: Location(3, 9),
    };
    let mut compiler = Compiler::new();
    let mut code = Code::new();
    assert_eq!(
        compiler.compile_expr(&expr, &mut code, false),
        Err(CompileError { kind: ErrorKind::ArityMismatch, location: Some(Location(3, 9)) })
    );
    assert_eq!(check_operator_arity(&Opcode::Negate, 2), Err(ErrorKind::ArityMismatch));
    assert_eq!(check_operator_arity(&Opcode::Negate, 1), Ok(()));
}

#[test]
fn add_takes_two_arguments() {
    let expr = Located {
        node: ExprType::Operator { op: Opcode::Add, arguments: vec![integer(1)] },
        location: Location(0, 3),
    };
    let ast = Located {
        node: StmtType::Top(vec![Located { node: StmtType::Expression(expr), location: Location(0, 3) }]),
        location: Location(0, 3),
    };
    assert_eq!(
        compile(&ast).unwrap_err(),
        CompileError { kind: ErrorKind::ArityMismatch, location: Some(Location(0, 3)) }
    );
    assert_eq!(check_operator_arity(&Opcode::Add, 1), Err(ErrorKind::ArityMismatch));
    assert_eq!(check_operator_arity(&Opcode::Add, 2), Ok(()));
    for op in [
        Opcode::Sub,
        Opcode::Mul,
        Opcode::Div,
        Opcode::Mod,
        Opcode::Less,
        Opcode::LessEq,
        Opcode::Greater,
        Opcode::GreaterEq,
        Opcode::Eq,
        Opcode::Neq,
    ] {
        assert_eq!(check_operator_arity(&op, 2), Ok(()));
        assert_eq!(check_operator_arity(&op, 1), Err(ErrorKind::ArityMismatch));
        assert_eq!(check_operator_arity(&op, 3), Err(ErrorKind::ArityMismatch));
    }
}

#[test]
fn immutable_local_cannot_be_assigned() {
    let error = failure("{ val x = 1; x = 2; }");
    assert_eq!(error.kind, ErrorKind::Immutable);
    assert_eq!(error.location, Some(Location(13, 18)));
}

#[test]
fn mutable_local_can_be_assigned() {
    let (pool, entry) = program("{ var x = 1; x = 2; }");
    assert_eq!(
        body(&pool, entry),
        vec![
            BytecodeType::PushInt(1),
            BytecodeType::SetLocal(0),
            BytecodeType::PushInt(2),
            BytecodeType::SetLocal(0),
            BytecodeType::PushNone,
            BytecodeType::Ret,
        ]
    );
}

#[test]
fn global_val_can_be_assigned_by_the_compiler() {
    let (pool, entry) = program("val x = 1; x = 2;");
    assert_eq!(
        body(&pool, entry),
        vec![
            BytecodeType::PushInt(1),
            BytecodeType::DeclValGlobal { name: 1 },
            BytecodeType::PushInt(2),
            BytecodeType::SetGlobal(1),
            BytecodeType::Ret,
        ]
    );
}

#[test]
fn redefinition_in_one_scope_is_refused() {
    let error = failure("{ val x = 1; var x = 2; }");
    assert_eq!(error.kind, ErrorKind::Redefinition);
    assert_eq!(error.location, Some(Location(13, 22)));
}

#[test]
fn inner_scope_may_shadow() {
    let (pool, entry) = program("{ val x = 1; { val x = 2; x }; x }");
    assert_eq!(
        body(&pool, entry),
        vec![
            BytecodeType::PushInt(1),
            BytecodeType::SetLocal(0),
            BytecodeType::PushInt(2),
            BytecodeType::SetLocal(1),
            BytecodeType::GetLocal(1),
            BytecodeType::Drop,
            BytecodeType::GetLocal(0),
            BytecodeType::Ret,
        ]
    );
    assert_eq!(function(&pool, entry).locals_cnt, 2);
}

#[test]
fn slots_of_a_closed_scope_are_used_again() {
    let (pool, entry) = program("{ { val a = 1; }; { val b = 2; b } }");
    assert_eq!(
        body(&pool, entry),
        vec![
            BytecodeType::PushInt(1),
            BytecodeType::SetLocal(0),
            BytecodeType::PushNone,
            BytecodeType::Drop,
            BytecodeType::PushInt(2),
            BytecodeType::SetLocal(0),
            BytecodeType::GetLocal(0),
            BytecodeType::Ret,
        ]
    );
    assert_eq!(function(&pool, entry).locals_cnt, 1);
}

#[test]
fn print_is_an_instruction() {
    let (pool, entry) = program("print(\"hi\");");
    assert_eq!(pool.data.len(), 3);
    assert_eq!(pool.data[0], text("#main"));
    assert_eq!(pool.data[1], text("hi"));
    assert_eq!(entry, 2);
    assert_eq!(
        body(&pool, entry),
        vec![BytecodeType::PushLiteral(1), BytecodeType::Print { arg_cnt: 1 }, BytecodeType::Ret]
    );
    let main = function(&pool, entry);
    assert_eq!(main.name, 0);
    assert_eq!(main.parameters_cnt, 0);
    assert_eq!(main.locals_cnt, 0);
}

#[test]
fn global_declaration_and_use() {
    let (pool, entry) = program("val x = 2; x + 3");
    assert_eq!(pool.data[0], text("#main"));
    assert_eq!(pool.data[1], text("x"));
    assert_eq!(entry, 2);
    assert_eq!(
        body(&pool, entry),
        vec![
            BytecodeType::PushInt(2),
            BytecodeType::DeclValGlobal { name: 1 },
            BytecodeType::PushInt(3),
            BytecodeType::GetGlobal(1),
            BytecodeType::Iadd,
            BytecodeType::Ret,
        ]
    );
}

#[test]
fn mutable_global_declaration() {
    let (pool, entry) = program("var x = true");
    assert_eq!(
        body(&pool, entry),
        vec![
            BytecodeType::PushBool(true),
            BytecodeType::DeclVarGlobal { name: 1 },
            BytecodeType::Ret,
        ]
    );
}

#[test]
fn conditional_with_both_branches() {
    let (pool, entry) = program("if (1) { 2 } else { 3 }");
    assert_eq!(
        body(&pool, entry),
        vec![
            BytecodeType::PushInt(1),
            BytecodeType::BranchFalse(20),
            BytecodeType::PushInt(2),
            BytecodeType::Jmp(25),
            BytecodeType::PushInt(3),
            BytecodeType::Ret,
        ]
    );
}

#[test]
fn conditional_without_else_has_the_value_none() {
    let (pool, entry) = program("if (true) { 2 }");
    assert_eq!(
        body(&pool, entry),
        vec![
            BytecodeType::PushBool(true),
            BytecodeType::BranchFalse(17),
            BytecodeType::PushInt(2),
            BytecodeType::Jmp(18),
            BytecodeType::PushNone,
            BytecodeType::Ret,
        ]
    );
}

#[test]
fn conditional_whose_value_is_dropped() {
    let (pool, entry) = program("if (1) { 2 } else { 3 }; 4");
    assert_eq!(
        body(&pool, entry),
        vec![
            BytecodeType::PushInt(1),
            BytecodeType::BranchFalse(21),
            BytecodeType::PushInt(2),
            BytecodeType::Drop,
            BytecodeType::Jmp(27),
            BytecodeType::PushInt(3),
            BytecodeType::Drop,
            BytecodeType::Drop,
            BytecodeType::PushInt(4),
            BytecodeType::Ret,
        ]
    );
}

#[test]
fn conditional_without_else_whose_value_is_dropped() {
    let (pool, entry) = program("if (1) { 2 }; 4");
    assert_eq!(
        body(&pool, entry),
        vec![
            BytecodeType::PushInt(1),
            BytecodeType::BranchFalse(21),
            BytecodeType::PushInt(2),
            BytecodeType::Drop,
            BytecodeType::Jmp(21),
            BytecodeType::Drop,
            BytecodeType::PushInt(4),
            BytecodeType::Ret,
        ]
    );
}

#[test]
fn nested_conditionals_get_labels_of_their_own() {
    let (pool, entry) = program("if (1) { if (2) { 3 } else { 4 } } else { 5 }");
    assert_eq!(
        body(&pool, entry),
        vec![
            BytecodeType::PushInt(1),
            BytecodeType::BranchFalse(40),
            BytecodeType::PushInt(2),
            BytecodeType::BranchFalse(30),
            BytecodeType::PushInt(3),
            BytecodeType::Jmp(35),
            BytecodeType::PushInt(4),
            BytecodeType::Jmp(45),
            BytecodeType::PushInt(5),
            BytecodeType::Ret,
        ]
    );
}

#[test]
fn function_definition_and_call() {
    let (pool, entry) = program("def id(a) = a; id(7);");
    assert_eq!(pool.data[0], text("#main"));
    assert_eq!(pool.data[1], text("id"));
    let id = function(&pool, 2);
    assert_eq!(id.name, 1);
    assert_eq!(id.parameters_cnt, 1);
    assert_eq!(id.locals_cnt, 1);
    assert_eq!(
        body(&pool, 2),
        vec![BytecodeType::SetLocal(0), BytecodeType::GetLocal(0), BytecodeType::Ret]
    );
    assert_eq!(entry, 3);
    assert_eq!(
        body(&pool, entry),
        vec![
            BytecodeType::PushLiteral(2),
            BytecodeType::DeclValGlobal { name: 1 },
            BytecodeType::PushInt(7),
            BytecodeType::GetGlobal(1),
            BytecodeType::CallFunc { arg_cnt: 1 },
            BytecodeType::Ret,
        ]
    );
    assert_eq!(function(&pool, entry).locals_cnt, 0);
}

#[test]
fn function_call_that_is_not_last_is_dropped() {
    let (pool, entry) = program("id(7); 1");
    assert_eq!(
        body(&pool, entry),
        vec![
            BytecodeType::PushInt(7),
            BytecodeType::GetGlobal(1),
            BytecodeType::CallFunc { arg_cnt: 1 },
            BytecodeType::Drop,
            BytecodeType::PushInt(1),
            BytecodeType::Ret,
        ]
    );
}

#[test]
fn arguments_are_computed_in_reverse() {
    let (pool, entry) = program("f(1, 2, 3)");
    assert_eq!(
        body(&pool, entry),
        vec![
            BytecodeType::PushInt(3),
            BytecodeType::PushInt(2),
            BytecodeType::PushInt(1),
            BytecodeType::GetGlobal(1),
            BytecodeType::CallFunc { arg_cnt: 3 },
            BytecodeType::Ret,
        ]
    );
}

#[test]
fn parameters_take_successive_slots() {
    let (pool, _) = program("def f(a, b) = { val c = a; b }");
    let f = function(&pool, 2);
    assert_eq!(f.parameters_cnt, 2);
    assert_eq!(f.locals_cnt, 3);
    assert_eq!(
        body(&pool, 2),
        vec![
            BytecodeType::SetLocal(0),
            BytecodeType::SetLocal(1),
            BytecodeType::GetLocal(0),
            BytecodeType::SetLocal(2),
            BytecodeType::GetLocal(1),
            BytecodeType::Ret,
        ]
    );
}

#[test]
fn parameters_of_one_name_are_a_redefinition() {
    assert_eq!(failure("def f(a, a) = 1").kind, ErrorKind::Redefinition);
}

#[test]
fn local_count_of_the_top_level_survives_a_function() {
    let (pool, entry) = program("{ val a = 1; val b = 2; }; def f(x) = x; 0");
    assert_eq!(function(&pool, entry).locals_cnt, 2);
    assert_eq!(function(&pool, 2).locals_cnt, 1);
}

#[test]
fn class_with_a_method() {
    let (pool, entry) = program("class C { def m() = 1; };");
    assert_eq!(pool.data.len(), 7);
    assert_eq!(pool.data[0], text("#main"));
    assert_eq!(pool.data[1], text("C"));
    assert_eq!(pool.data[2], text("m"));
    let m = function(&pool, 3);
    assert_eq!((m.name, m.parameters_cnt, m.locals_cnt), (2, 0, 0));
    assert_eq!(body(&pool, 3), vec![BytecodeType::PushInt(1), BytecodeType::Ret]);
    assert_eq!(pool.data[4], Object::Class { name: 1, methods: vec![3] });
    let constructor = function(&pool, 5);
    assert_eq!((constructor.name, constructor.parameters_cnt, constructor.locals_cnt), (1, 0, 0));
    assert_eq!(
        constructor.body.code,
        vec![
            Bytecode { instr: BytecodeType::NewObject(4), location: Location(0, 0) },
            Bytecode { instr: BytecodeType::SetLocal(0), location: Location(0, 0) },
            Bytecode { instr: BytecodeType::GetLocal(0), location: Location(0, 0) },
            Bytecode { instr: BytecodeType::Ret, location: Location(0, 0) },
        ]
    );
    assert_eq!(entry, 6);
    assert_eq!(
        body(&pool, entry),
        vec![BytecodeType::PushLiteral(5), BytecodeType::DeclValGlobal { name: 1 }, BytecodeType::Ret]
    );
}

#[test]
fn class_without_members() {
    let (pool, entry) = program("class foo { };");
    assert_eq!(pool.data[2], Object::Class { name: 1, methods: vec![] });
    assert_eq!(entry, 4);
}

#[test]
fn method_does_not_inherit_the_local_count() {
    let (pool, _) = program("{ val a = 1; val b = 2; }; class C { def m() = 1; };");
    assert_eq!(function(&pool, 3).locals_cnt, 0);
}

#[test]
fn functions_of_one_name_are_both_emitted() {
    let (pool, entry) = program("def foo() = 1; def foo() = 2;");
    assert_eq!(pool.data.len(), 5);
    assert_eq!(pool.data[1], text("foo"));
    assert_eq!(body(&pool, 2), vec![BytecodeType::PushInt(1), BytecodeType::Ret]);
    assert_eq!(body(&pool, 3), vec![BytecodeType::PushInt(2), BytecodeType::Ret]);
    assert_eq!(
        body(&pool, entry),
        vec![
            BytecodeType::PushLiteral(2),
            BytecodeType::DeclValGlobal { name: 1 },
            BytecodeType::PushLiteral(3),
            BytecodeType::DeclValGlobal { name: 1 },
            BytecodeType::Ret,
        ]
    );
}

#[test]
fn method_call_pushes_arguments_then_receiver() {
    let (pool, entry) = program("x.foo(1, 2)");
    assert_eq!(pool.data[1], text("x"));
    assert_eq!(pool.data[2], text("foo"));
    assert_eq!(
        body(&pool, entry),
        vec![
            BytecodeType::PushInt(2),
            BytecodeType::PushInt(1),
            BytecodeType::GetGlobal(1),
            BytecodeType::DispatchMethod { name: 2, arg_cnt: 2 },
            BytecodeType::Ret,
        ]
    );
}

#[test]
fn member_read_and_store() {
    let (pool, entry) = program("x.y = x.z;");
    assert_eq!(pool.data[1], text("x"));
    assert_eq!(pool.data[2], text("z"));
    assert_eq!(pool.data[3], text("y"));
    assert_eq!(
        body(&pool, entry),
        vec![
            BytecodeType::GetGlobal(1),
            BytecodeType::GetMember(2),
            BytecodeType::GetGlobal(1),
            BytecodeType::SetMember(3),
            BytecodeType::Ret,
        ]
    );
}

#[test]
fn operators_map_to_their_instructions() {
    for (source, instr) in [
        ("1 + 2", BytecodeType::Iadd),
        ("1 - 2", BytecodeType::Isub),
        ("1 * 2", BytecodeType::Imul),
        ("1 / 2", BytecodeType::Idiv),
        ("1 % 2", BytecodeType::Mod),
        ("1 < 2", BytecodeType::Iless),
        ("1 <= 2", BytecodeType::Ilesseq),
        ("1 > 2", BytecodeType::Igreater),
        ("1 >= 2", BytecodeType::Igreatereq),
        ("1 == 2", BytecodeType::Ieq),
        ("1 != 2", BytecodeType::Neq),
    ] {
        let (pool, entry) = program(source);
        assert_eq!(
            body(&pool, entry),
            vec![BytecodeType::PushInt(2), BytecodeType::PushInt(1), instr, BytecodeType::Ret]
        );
    }
    let (pool, entry) = program("-5");
    assert_eq!(
        body(&pool, entry),
        vec![BytecodeType::PushInt(5), BytecodeType::Ineg, BytecodeType::Ret]
    );
    assert_eq!(BytecodeType::from(Opcode::Negate), BytecodeType::Ineg);
    assert_eq!(BytecodeType::from(Opcode::Mod), BytecodeType::Mod);
}

#[test]
fn literals_push_their_values() {
    let (pool, entry) = program("none; true; false; \"s\"; 7");
    assert_eq!(
        body(&pool, entry),
        vec![
            BytecodeType::PushNone,
            BytecodeType::Drop,
            BytecodeType::PushBool(true),
            BytecodeType::Drop,
            BytecodeType::PushBool(false),
            BytecodeType::Drop,
            BytecodeType::PushLiteral(1),
            BytecodeType::Drop,
            BytecodeType::PushInt(7),
            BytecodeType::Ret,
        ]
    );
}

#[test]
fn equal_literals_share_a_pool_entry() {
    let (pool, entry) = program("\"a\"; \"a\"; \"b\"; a");
    assert_eq!(pool.data.len(), 4);
    assert_eq!(pool.data[1], text("a"));
    assert_eq!(pool.data[2], text("b"));
    assert_eq!(
        body(&pool, entry),
        vec![
            BytecodeType::PushLiteral(1),
            BytecodeType::Drop,
            BytecodeType::PushLiteral(1),
            BytecodeType::Drop,
            BytecodeType::PushLiteral(2),
            BytecodeType::Drop,
            BytecodeType::GetGlobal(1),
            BytecodeType::Ret,
        ]
    );
}

#[test]
fn instructions_carry_the_span_of_their_source() {
    let (pool, entry) = program("val x = 12;");
    assert_eq!(
        function(&pool, entry).body.code,
        vec![
            Bytecode { instr: BytecodeType::PushInt(12), location: Location(8, 10) },
            Bytecode { instr: BytecodeType::DeclValGlobal { name: 1 }, location: Location(0, 10) },
            Bytecode { instr: BytecodeType::Ret, location: Location(0, 11) },
        ]
    );
}

#[test]
fn unsupported_forms_are_named() {
    assert_eq!(
        failure("while (1) { 2 }"),
        CompileError { kind: ErrorKind::Unsupported(Construct::While), location: Some(Location(0, 15)) }
    );
    assert_eq!(failure("{ return 1; }").kind, ErrorKind::Unsupported(Construct::Return));
    assert_eq!(failure("x[1]").kind, ErrorKind::Unsupported(Construct::AccessIndex));
    assert_eq!(failure("x[1] = 2").kind, ErrorKind::Unsupported(Construct::AssignIndex));
    assert_eq!(failure("{ def f() = 1; }").kind, ErrorKind::Unsupported(Construct::NestedFunction));
    assert_eq!(failure("def f() = { def g() = 1; }").kind, ErrorKind::Unsupported(Construct::NestedFunction));
    assert_eq!(failure("{ class C { }; }").kind, ErrorKind::Unsupported(Construct::NestedFunction));
    assert_eq!(failure("class C { class D { }; }").kind, ErrorKind::Unsupported(Construct::NestedClass));
    assert_eq!(failure("class C { val x = 1; }").kind, ErrorKind::Unsupported(Construct::ClassMember));
    let float = Located { node: ExprType::Float(0x3fc0_0000), location: Location(2, 5) };
    let list = Located {
        node: ExprType::List { size: Box::new(integer(1)), values: vec![] },
        location: Location(1, 4),
    };
    let mut compiler = Compiler::new();
    let mut code = Code::new();
    assert_eq!(
        compiler.compile_expr(&float, &mut code, false),
        Err(CompileError { kind: ErrorKind::Unsupported(Construct::Float), location: Some(Location(2, 5)) })
    );
    assert_eq!(
        compiler.compile_expr(&list, &mut code, true),
        Err(CompileError { kind: ErrorKind::Unsupported(Construct::List), location: Some(Location(1, 4)) })
    );
}

#[test]
fn too_many_arguments_overflow() {
    let arguments: Vec<Expr> = (0..256).map(integer).collect();
    let call = Located {
        node: ExprType::CallFunction { name: String::from("f"), arguments },
        location: Location(0, 9),
    };
    let mut compiler = Compiler::new();
    let mut code = Code::new();
    assert_eq!(
        compiler.compile_expr(&call, &mut code, false),
        Err(CompileError { kind: ErrorKind::PoolOverflow, location: Some(Location(0, 9)) })
    );
    let arguments: Vec<Expr> = (0..255).map(integer).collect();
    let call = Located {
        node: ExprType::CallFunction { name: String::from("f"), arguments },
        location: Location(0, 9),
    };
    let mut compiler = Compiler::new();
    let mut code = Code::new();
    assert_eq!(compiler.compile_expr(&call, &mut code, false), Ok(()));
    assert_eq!(code.code.len(), 257);
    assert_eq!(code.code[256].instr, BytecodeType::CallFunc { arg_cnt: 255 });
}

#[test]
fn expression_leaves_one_value_or_none() {
    let expr = Located {
        node: ExprType::Operator { op: Opcode::Add, arguments: vec![integer(1), integer(2)] },
        location: Location(0, 5),
    };
    let mut compiler = Compiler::new();
    let mut kept = Code::new();
    compiler.compile_expr(&expr, &mut kept, false).unwrap();
    let mut dropped = Code::new();
    compiler.compile_expr(&expr, &mut dropped, true).unwrap();
    assert_eq!(dropped.code.len(), kept.code.len() + 1);
    assert_eq!(dropped.code[..kept.code.len()], kept.code[..]);
    assert_eq!(dropped.code[kept.code.len()].instr, BytecodeType::Drop);
    assert_eq!(compiler.local_count(), 0);
    assert_eq!(compiler.local_max(), 0);
    assert_eq!(compiler.constant_pool().data.len(), 0);
}

#[test]
fn compiled_pool_holds_no_label() {
    let (pool, _) = program("def f(a) = if (a) { 1 } elif a < 2 { 2 } else { 3 }; if (f(1)) { 1 }");
    for object in &pool.data {
        if let Object::Function(f) = object {
            for b in &f.body.code {
                assert!(!matches!(
                    b.instr,
                    BytecodeType::Label(_)
                        | BytecodeType::JmpLabel(_)
                        | BytecodeType::BranchLabel(_)
                        | BytecodeType::BranchLabelFalse(_)
                ));
            }
        }
    }
}
