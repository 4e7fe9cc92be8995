use wheelc::ast::{BinOp, Expr};
use wheelc::consts::{eval_const_expr, eval_const_expr_with_ctx, resolve_int_constants, resolve_str_constants, IntTable};
use wheelc::parser::Parser;

fn bin(op: BinOp, a: i64, b: i64) -> Expr {
    Expr::BinaryOp { op, left: Box::new(Expr::Int(a)), right: Box::new(Expr::Int(b)) }
}

fn constants(src: &str) -> IntTable {
    let mut p = Parser::new(src);
    let prog = p.parse_program();
    resolve_int_constants(&prog.items)
}

fn get(t: &IntTable, name: &str) -> Option<i64> {
    t.get(&name.to_string())
}

#[test]
fn folding_arithmetic() {
    assert_eq!(eval_const_expr(&bin(BinOp::Add, 2, 3)), Some(5));
    assert_eq!(eval_const_expr(&bin(BinOp::Sub, 2, 3)), Some(-1));
    assert_eq!(eval_const_expr(&bin(BinOp::Mul, -4, 3)), Some(-12));
    assert_eq!(eval_const_expr(&bin(BinOp::Div, 7, 2)), Some(3));
    assert_eq!(eval_const_expr(&bin(BinOp::Div, -7, 2)), Some(-3));
    assert_eq!(eval_const_expr(&bin(BinOp::Div, 7, -2)), Some(-3));
}

#[test]
fn folding_wraps_like_the_machine() {
    assert_eq!(eval_const_expr(&bin(BinOp::Add, i64::MAX, 1)), Some(i64::MIN));
    assert_eq!(eval_const_expr(&bin(BinOp::Sub, i64::MIN, 1)), Some(i64::MAX));
    assert_eq!(eval_const_expr(&bin(BinOp::Mul, i64::MAX, 2)), Some(-2));
    for (a, b) in [(5i64, 9i64), (-3, 8), (i64::MAX, -7), (123456789, 987654321)] {
        assert_eq!(eval_const_expr(&bin(BinOp::Add, a, b)), Some(a.wrapping_add(b)));
        assert_eq!(eval_const_expr(&bin(BinOp::Sub, a, b)), Some(a.wrapping_sub(b)));
        assert_eq!(eval_const_expr(&bin(BinOp::Mul, a, b)), Some(a.wrapping_mul(b)));
        assert_eq!(eval_const_expr(&bin(BinOp::Div, a, b)), Some(a / b));
    }
}

#[test]
fn division_by_zero_is_not_constant() {
    assert_eq!(eval_const_expr(&bin(BinOp::Div, 5, 0)), None);
    assert_eq!(eval_const_expr(&bin(BinOp::Div, 0, 0)), None);
    assert_eq!(eval_const_expr(&bin(BinOp::Div, i64::MIN, -1)), None);
}

#[test]
fn folding_relations() {
    assert_eq!(eval_const_expr(&bin(BinOp::Lt, 1, 2)), Some(1));
    assert_eq!(eval_const_expr(&bin(BinOp::Lt, 2, 1)), Some(0));
    assert_eq!(eval_const_expr(&bin(BinOp::Gt, 2, 1)), Some(1));
    assert_eq!(eval_const_expr(&bin(BinOp::LtEq, 2, 2)), Some(1));
    assert_eq!(eval_const_expr(&bin(BinOp::GtEq, 1, 2)), Some(0));
    assert_eq!(eval_const_expr(&bin(BinOp::EqEq, 3, 3)), Some(1));
    assert_eq!(eval_const_expr(&bin(BinOp::NotEq, 3, 3)), Some(0));
}

#[test]
fn folding_needs_known_names() {
    let e = Expr::BinaryOp {
        op: BinOp::Add,
        left: Box::new(Expr::Ident("x".to_string())),
        right: Box::new(Expr::Int(1)),
    };
    assert_eq!(eval_const_expr(&e), None);
    let mut t = IntTable::new();
    t.bind(&"x".to_string(), 41);
    assert_eq!(eval_const_expr_with_ctx(&e, &t), Some(42));
    assert_eq!(eval_const_expr(&Expr::Str("s".to_string())), None);
}

#[test]
fn propagation_reaches_fixed_point() {
    let t = constants("let a = 2; let b = a + 3; let c = b * a;");
    assert_eq!(get(&t, "a"), Some(2));
    assert_eq!(get(&t, "b"), Some(5));
    assert_eq!(get(&t, "c"), Some(10));
}

#[test]
fn propagation_ignores_statement_order() {
    for src in [
        "let c = b * a; let b = a + 3; let a = 2;",
        "let b = a + 3; let a = 2; let c = b * a;",
        "let a = 2; let c = b * a; let b = a + 3;",
    ] {
        let t = constants(src);
        assert_eq!(get(&t, "a"), Some(2));
        assert_eq!(get(&t, "b"), Some(5));
        assert_eq!(get(&t, "c"), Some(10));
    }
}

#[test]
fn first_integer_literal_wins() {
    let t = constants("let a = 1; let a = 2; let b = a;");
    assert_eq!(get(&t, "a"), Some(1));
    assert_eq!(get(&t, "b"), Some(1));
}

#[test]
fn runtime_values_are_not_constants() {
    let t = constants("let a = input(); let b = a + 1; let z = 1 / 0;");
    assert_eq!(get(&t, "a"), None);
    assert_eq!(get(&t, "b"), None);
    assert_eq!(get(&t, "z"), None);
}

#[test]
fn string_constants_take_the_last_literal() {
    let mut p = Parser::new("let s = \"one\"; let s = \"two\"; let n = 3;");
    let prog = p.parse_program();
    let t = resolve_str_constants(&prog.items);
    assert_eq!(t.get(&"s".to_string()).map(|s| s.clone()), Some("two".to_string()));
    assert!(t.get(&"n".to_string()).is_none());
}
