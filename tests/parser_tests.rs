use wheelc::ast::{BinOp, Expr, Program, Stmt, Type};
use wheelc::parser::Parser;

fn parse(src: &str) -> Program {
    let mut p = Parser::new(src);
    p.parse_program()
}

#[test]
fn let_with_type_annotation() {
    let prog = parse("let x: int = 5; let s: string = \"a\"; let v: int[3] = [1, 2, 3];");
    assert_eq!(prog.items.len(), 3);
    match &prog.items[0] {
        Stmt::Let { name, ty: Some(Type::Int), value: Expr::Int(5) } => assert_eq!(name, "x"),
        other => panic!("unexpected {:?}", other),
    }
    assert!(matches!(&prog.items[1], Stmt::Let { ty: Some(Type::Str), value: Expr::Str(_), .. }));
    match &prog.items[2] {
        Stmt::Let { ty: Some(Type::Array { base, size: 3 }), value: Expr::ArrayLiteral(els), .. } => {
            assert!(matches!(**base, Type::Int));
            assert_eq!(els.len(), 3);
        }
        other => panic!("unexpected {:?}", other),
    }
}

#[test]
fn precedence_and_left_association() {
    let prog = parse("let r = 1 + 2 * 3 < 4 - 1 - 1;");
    let value = match &prog.items[0] {
        Stmt::Let { value, .. } => value,
        other => panic!("unexpected {:?}", other),
    };
    match value {
        Expr::BinaryOp { op: BinOp::Lt, left, right } => {
            match &**left {
                Expr::BinaryOp { op: BinOp::Add, left: one, right: prod } => {
                    assert!(matches!(**one, Expr::Int(1)));
                    assert!(matches!(**prod, Expr::BinaryOp { op: BinOp::Mul, .. }));
                }
                other => panic!("unexpected {:?}", other),
            }
            match &**right {
                Expr::BinaryOp { op: BinOp::Sub, left: inner, right: last } => {
                    assert!(matches!(**inner, Expr::BinaryOp { op: BinOp::Sub, .. }));
                    assert!(matches!(**last, Expr::Int(1)));
                }
                other => panic!("unexpected {:?}", other),
            }
        }
        other => panic!("unexpected {:?}", other),
    }
}

#[test]
fn parentheses_group() {
    let prog = parse("let r = (1 + 2) * 3;");
    assert!(matches!(
        &prog.items[0],
        Stmt::Let { value: Expr::BinaryOp { op: BinOp::Mul, .. }, .. }
    ));
}

#[test]
fn if_else_if_chain() {
    let prog = parse("if a then { print(1); } else if b { print(2); } else { print(3); }");
    assert_eq!(prog.items.len(), 1);
    match &prog.items[0] {
        Stmt::If { then_body, else_body: Some(eb), .. } => {
            assert_eq!(then_body.len(), 1);
            assert_eq!(eb.len(), 1);
            assert!(matches!(&eb[0], Stmt::If { else_body: Some(_), .. }));
        }
        other => panic!("unexpected {:?}", other),
    }
}

#[test]
fn while_and_for_range() {
    let prog = parse("while x < 3 { x = x + 1; } for i in range(10) { } for j in range(2, 5) { print(j); }");
    assert_eq!(prog.items.len(), 3);
    match &prog.items[0] {
        Stmt::While { body, .. } => assert!(matches!(&body[0], Stmt::Assign { .. })),
        other => panic!("unexpected {:?}", other),
    }
    assert!(matches!(&prog.items[1], Stmt::ForRange { start: Expr::Int(0), end: Expr::Int(10), .. }));
    assert!(matches!(&prog.items[2], Stmt::ForRange { start: Expr::Int(2), end: Expr::Int(5), .. }));
}

#[test]
fn imports_uses_and_assignments() {
    let prog = parse("import \"lib/util\"; use #gfx; set y = 2; y = 3; f(1, 2);");
    assert_eq!(prog.items.len(), 5);
    match &prog.items[0] {
        Stmt::Import { path } => assert_eq!(path, "lib/util"),
        other => panic!("unexpected {:?}", other),
    }
    match &prog.items[1] {
        Stmt::Use { lib } => assert_eq!(lib, "gfx"),
        other => panic!("unexpected {:?}", other),
    }
    assert!(matches!(&prog.items[2], Stmt::Assign { value: Expr::Int(2), .. }));
    assert!(matches!(&prog.items[3], Stmt::Assign { value: Expr::Int(3), .. }));
    match &prog.items[4] {
        Stmt::Expr(Expr::Call { name, args }) => {
            assert_eq!(name, "f");
            assert_eq!(args.len(), 2);
        }
        other => panic!("unexpected {:?}", other),
    }
}

#[test]
fn functions_structs_and_returns() {
    let prog = parse("func add(a, b) { return a + b; } struct P { x: int, y: str[4] }");
    match &prog.items[0] {
        Stmt::Func { name, params, body } => {
            assert_eq!(name, "add");
            assert_eq!(params.len(), 2);
            assert!(matches!(&body[0], Stmt::Return(Some(_))));
        }
        other => panic!("unexpected {:?}", other),
    }
    match &prog.items[1] {
        Stmt::StructDef { name, fields } => {
            assert_eq!(name, "P");
            assert_eq!(fields.len(), 2);
            assert!(matches!(fields[1].1, Type::Array { size: 4, .. }));
        }
        other => panic!("unexpected {:?}", other),
    }
}

#[test]
fn array_index_and_print() {
    let prog = parse("print(v[1]);");
    match &prog.items[0] {
        Stmt::Expr(Expr::Call { name, args }) => {
            assert_eq!(name, "print");
            assert!(matches!(&args[0], Expr::ArrayAccess { .. }));
        }
        other => panic!("unexpected {:?}", other),
    }
}

#[test]
fn malformed_input_is_skipped() {
    let prog = parse(") } let = ; let ok = 1; ]");
    assert!(prog
        .items
        .iter()
        .any(|s| matches!(s, Stmt::Let { name, .. } if name == "ok")));
    let empty = parse("");
    assert!(empty.items.is_empty());
}

#[test]
fn bad_parameter_lists_end() {
    let prog = parse("func f(1) { print(2); } let z = [;] ;");
    assert!(!prog.items.is_empty());
}
