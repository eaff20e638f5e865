use std::collections::HashMap;

use cacom::ast::{Expr, ExprType, Located, Stmt, StmtType};
use cacom::bytecode::{Bytecode, BytecodeType, Code};
use cacom::compiler::{compile, Compiler};
use cacom::objects::{write_image, ConstantPool, Function, Object};
use cacom::parser::TopLevelParser;

/// The depth of the stack behind the code, which starts on a stack of the
/// depth `start`; nothing where two ways into a label disagree.
fn simulate(code: &[Bytecode], start: i64) -> Option<i64> {
    let mut depth: Option<i64> = Some(start);
    let mut pending: HashMap<String, i64> = HashMap::new();
    for b in code {
        match &b.instr {
            BytecodeType::Label(name) => {
                if let Some(expected) = pending.remove(name) {
                    if let Some(d) = depth {
                        if d != expected {
                            return None;
                        }
                    }
                    depth = Some(expected);
                }
            }
            BytecodeType::JmpLabel(name) => {
                if let Some(d) = depth {
                    if *pending.entry(name.clone()).or_insert(d) != d {
                        return None;
                    }
                    depth = None;
                }
            }
            BytecodeType::BranchLabel(name) | BytecodeType::BranchLabelFalse(name) => {
                if let Some(d) = depth {
                    if *pending.entry(name.clone()).or_insert(d - 1) != d - 1 {
                        return None;
                    }
                    depth = Some(d - 1);
                }
            }
            other => {
                if let Some(d) = depth {
                    depth = Some(d + delta(other));
                }
            }
        }
    }
    if pending.is_empty() {
        depth
    } else {
        None
    }
}

fn delta(instr: &BytecodeType) -> i64 {
    match instr {
        BytecodeType::PushShort(_)
        | BytecodeType::PushInt(_)
        | BytecodeType::PushLong(_)
        | BytecodeType::PushBool(_)
        | BytecodeType::PushLiteral(_)
        | BytecodeType::PushNone
        | BytecodeType::GetLocal(_)
        | BytecodeType::GetGlobal(_)
        | BytecodeType::NewObject(_)
        | BytecodeType::Dup => 1,
        BytecodeType::SetMember(_) => -2,
        BytecodeType::CallFunc { arg_cnt } => -(*arg_cnt as i64),
        BytecodeType::DispatchMethod { arg_cnt, .. } => -(*arg_cnt as i64),
        BytecodeType::Print { arg_cnt } => 1 - *arg_cnt as i64,
        BytecodeType::Dropn(cnt) => -(*cnt as i64),
        BytecodeType::GetMember(_)
        | BytecodeType::Ineg
        | BytecodeType::JmpShort(_)
        | BytecodeType::Jmp(_)
        | BytecodeType::JmpLong(_) => 0,
        _ => -1,
    }
}

fn expression(source: &str) -> Expr {
    match TopLevelParser::new().parse(source).unwrap().node {
        StmtType::Top(mut stmts) => match stmts.pop().unwrap().node {
            StmtType::Expression(e) => e,
            other => panic!("no expression: {:?}", other),
        },
        other => panic!("no program: {:?}", other),
    }
}

fn statements(source: &str) -> Vec<Stmt> {
    match TopLevelParser::new().parse(source).unwrap().node {
        StmtType::Top(stmts) => stmts,
        other => panic!("no program: {:?}", other),
    }
}

fn lowered(e: &Expr, drop: bool) -> Vec<Bytecode> {
    let mut compiler = Compiler::new();
    let mut code = Code::new();
    compiler.compile_expr(e, &mut code, drop).unwrap();
    code.code
}

#[test]
fn expressions_leave_one_value() {
    for source in [
        "1",
        "\"s\"",
        "none",
        "x",
        "1 + 2 * -3",
        "f(1, 2, 3)",
        "print(1, 2)",
        "print()",
        "x.y.z",
        "x.f(1, g(2)).h()",
        "{ val a = 1; var b = a; b = 2; a + b }",
        "{ 1; 2; x.y = 3; }",
        "if (a) { 1 } else { 2 }",
        "if (a) { 1 }",
        "if (a) { if (b) { 1 } } elif c { { 2 } } else { f(if (d) { 3 } else { 4 }) }",
        "{ val a = if (1) { 2 } else { 3 }; a } + if (x) { 1 } else { { 5 } }",
    ] {
        let e = expression(source);
        assert_eq!(simulate(&lowered(&e, false), 0), Some(1), "{}", source);
        assert_eq!(simulate(&lowered(&e, false), 7), Some(8), "{}", source);
    }
}

#[test]
fn dropped_expressions_leave_nothing() {
    for source in [
        "1",
        "x",
        "1 + 2 * -3",
        "f(1, 2, 3)",
        "print(1, 2)",
        "x.f(1, g(2)).h()",
        "{ val a = 1; a }",
        "{ f(if (d) { 3 } else { 4 }); }",
        "g(if (a) { 1 }, { 2 })",
    ] {
        let e = expression(source);
        assert_eq!(simulate(&lowered(&e, true), 3), Some(3), "{}", source);
    }
}

#[test]
fn dropped_conditional_drops_twice() {
    let e = expression("if (a) { 1 } else { 2 }");
    assert_eq!(simulate(&lowered(&e, true), 3), Some(2));
    let e = expression("{ if (a) { 1 }; 2 }");
    assert_eq!(simulate(&lowered(&e, false), 3), Some(3));
}

#[test]
fn statements_leave_the_stack() {
    for source in [
        "val x = 1",
        "var x = f(2)",
        "x = 3",
        "x.y = z",
        "f(1)",
        "def f(a, b) = a + b",
        "class C { def m() = 1; }",
        "{ var x = 1; x = 2; }",
    ] {
        for stmt in statements(source) {
            let mut compiler = Compiler::new();
            let mut code = Code::new();
            compiler.compile_stmt(&stmt, &mut code).unwrap();
            assert_eq!(simulate(&code.code, 5), Some(5), "{}", source);
        }
    }
}

#[test]
fn top_level_leaves_its_last_value() {
    for (source, left) in [("", 0), ("1", 1), ("1;", 1), ("1; 2; 3", 1), ("1; val x = 2", 0), ("val x = 2; x", 1)] {
        let ast = TopLevelParser::new().parse(source).unwrap();
        let mut compiler = Compiler::new();
        let mut code = Code::new();
        compiler.compile_stmt(&ast, &mut code).unwrap();
        assert_eq!(simulate(&code.code, 0), Some(left), "{}", source);
    }
}

fn slots_needed(f: &Function) -> u16 {
    f.body
        .code
        .iter()
        .map(|b| match b.instr {
            BytecodeType::GetLocal(i) | BytecodeType::SetLocal(i) => i + 1,
            _ => 0,
        })
        .max()
        .unwrap_or(0)
}

fn is_constructor(f: &Function) -> bool {
    matches!(f.body.code.first().map(|b| &b.instr), Some(BytecodeType::NewObject(_)))
}

const PROGRAM: &str = "
    val g = 1;
    def f(a, b) = { val c = a; { val d = b; d + c }; { val e = 5; e } };
    def h() = 7;
    def k(a) = if (a) { val x = 1; x } else { val y = 2; val z = 3; y + z };
    class C { def m(self) = self.x; def n() = { var i = 0; i = i + 1; i }; };
    { val t = f(1, 2); print(t, g); };
    \"done\"
";

#[test]
fn functions_have_the_slots_that_they_use() {
    let ast = TopLevelParser::new().parse(PROGRAM).unwrap();
    let (pool, entry) = compile(&ast).unwrap();
    let mut seen = Vec::new();
    for object in &pool.data {
        if let Object::Function(f) = object {
            if is_constructor(f) {
                assert_eq!(f.locals_cnt, 0);
            } else {
                assert_eq!(f.locals_cnt, slots_needed(f));
                seen.push((f.parameters_cnt, f.locals_cnt));
            }
        }
    }
    assert_eq!(seen, vec![(2, 4), (0, 0), (1, 3), (1, 1), (0, 1), (0, 1)]);
    match &pool.data[entry as usize] {
        Object::Function(main) => assert_eq!(main.locals_cnt, 1),
        other => panic!("no function: {:?}", other),
    }
}

fn pool_index(instr: &BytecodeType) -> Option<u32> {
    match instr {
        BytecodeType::PushLiteral(i)
        | BytecodeType::GetGlobal(i)
        | BytecodeType::SetGlobal(i)
        | BytecodeType::GetMember(i)
        | BytecodeType::SetMember(i)
        | BytecodeType::NewObject(i) => Some(*i),
        BytecodeType::DeclValGlobal { name }
        | BytecodeType::DeclVarGlobal { name }
        | BytecodeType::DispatchMethod { name, .. } => Some(*name),
        _ => None,
    }
}

fn closed(pool: &ConstantPool) -> bool {
    let len = pool.data.len() as u32;
    pool.data.iter().all(|object| match object {
        Object::String(_) => true,
        Object::Function(f) => {
            f.name < len && f.body.code.iter().all(|b| pool_index(&b.instr).map_or(true, |i| i < len))
        }
        Object::Class { name, methods } => {
            *name < len
                && methods
                    .iter()
                    .all(|m| *m < len && matches!(pool.data[*m as usize], Object::Function(_)))
        }
    })
}

#[test]
fn indices_refer_to_the_pool() {
    for source in [PROGRAM, "", "print(\"hi\");", "class C { }; class D { def m() = C(); }"] {
        let ast = TopLevelParser::new().parse(source).unwrap();
        let (pool, entry) = compile(&ast).unwrap();
        assert!(closed(&pool), "{}", source);
        assert!(matches!(pool.data[entry as usize], Object::Function(_)));
        assert!(write_image(&pool, entry).is_ok());
    }
}

#[test]
fn names_are_interned_once() {
    let ast = TopLevelParser::new().parse(PROGRAM).unwrap();
    let (pool, _) = compile(&ast).unwrap();
    let mut strings: Vec<&String> = pool
        .data
        .iter()
        .filter_map(|o| match o {
            Object::String(s) => Some(s),
            _ => None,
        })
        .collect();
    let count = strings.len();
    strings.sort();
    strings.dedup();
    assert_eq!(strings.len(), count);
}

#[test]
fn local_maximum_is_never_below_the_count() {
    let mut compiler = Compiler::new();
    let mut code = Code::new();
    for stmt in statements("{ val a = 1; { val b = 2; { val c = 3; }; val d = 4; }; val e = 5; }; 1") {
        compiler.compile_stmt(&stmt, &mut code).unwrap();
        assert!(compiler.local_max() >= compiler.local_count());
    }
    assert_eq!((compiler.local_count(), compiler.local_max()), (0, 3));
    let block = Located {
        node: ExprType::Block(vec![], Box::new(expression("1"))),
        location: cacom::utils::Location(0, 0),
    };
    compiler.compile_expr(&block, &mut code, false).unwrap();
    assert_eq!((compiler.local_count(), compiler.local_max()), (0, 3));
}
