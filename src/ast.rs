use vstd::prelude::*;

verus! {

/// A type annotation on a `let` binding or a struct field. The code
/// generator never looks at it.
#[derive(Debug)]
pub enum Type {
    Int,
    Str,
    Array { base: Box<Type>, size: usize },
    Struct(String),
}

/// An expression of the source language.
#[derive(Debug)]
pub enum Expr {
    Int(i64),
    Str(String),
    Ident(String),
    BinaryOp { op: BinOp, left: Box<Expr>, right: Box<Expr> },
    Call { name: String, args: Vec<Expr> },
    ArrayAccess { array: Box<Expr>, index: Box<Expr> },
    ArrayLiteral(Vec<Expr>),
}

/// The ten binary operators: four arithmetic and six relational.
#[derive(Debug, Clone, Copy, PartialEq, Eq, Structural)]
pub enum BinOp {
    Add,
    Sub,
    Mul,
    Div,
    Lt,
    Gt,
    LtEq,
    GtEq,
    EqEq,
    NotEq,
}

/// The mathematical value of an expression: names and texts as character
/// sequences, argument and element lists as sequences.
pub enum ExprV {
    Int(i64),
    Str(Seq<char>),
    Ident(Seq<char>),
    BinaryOp { op: BinOp, left: Box<ExprV>, right: Box<ExprV> },
    Call { name: Seq<char>, args: Seq<ExprV> },
    ArrayAccess { array: Box<ExprV>, index: Box<ExprV> },
    ArrayLiteral(Seq<ExprV>),
}

/// The value of an expression.
pub open spec fn expr_view(e: Expr) -> ExprV
    decreases e,
{
    match e {
        Expr::Int(v) => ExprV::Int(v),
        Expr::Str(s) => ExprV::Str(s@),
        Expr::Ident(s) => ExprV::Ident(s@),
        Expr::BinaryOp { op, left, right } => ExprV::BinaryOp {
            op,
            left: Box::new(expr_view(*left)),
            right: Box::new(expr_view(*right)),
        },
        Expr::Call { name, args } => ExprV::Call { name: name@, args: exprs_view(args@) },
        Expr::ArrayAccess { array, index } => ExprV::ArrayAccess {
            array: Box::new(expr_view(*array)),
            index: Box::new(expr_view(*index)),
        },
        Expr::ArrayLiteral(es) => ExprV::ArrayLiteral(exprs_view(es@)),
    }
}

/// The values of a list of expressions.
pub open spec fn exprs_view(es: Seq<Expr>) -> Seq<ExprV>
    decreases es,
{
    if es.len() == 0 {
        Seq::empty()
    } else {
        exprs_view(es.drop_last()).push(expr_view(es.last()))
    }
}

/// The value of an expression that may be absent.
pub open spec fn opt_expr_view(e: Option<Expr>) -> Option<ExprV> {
    match e {
        Some(x) => Some(expr_view(x)),
        None => None,
    }
}

/// The mathematical value of a type annotation.
pub enum TypeV {
    Int,
    Str,
    Array { base: Box<TypeV>, size: usize },
    Struct(Seq<char>),
}

/// The value of a type annotation.
pub open spec fn type_view(t: Type) -> TypeV
    decreases t,
{
    match t {
        Type::Int => TypeV::Int,
        Type::Str => TypeV::Str,
        Type::Array { base, size } => TypeV::Array { base: Box::new(type_view(*base)), size },
        Type::Struct(n) => TypeV::Struct(n@),
    }
}

/// The value of a type annotation that may be absent.
pub open spec fn opt_type_view(t: Option<Type>) -> Option<TypeV> {
    match t {
        Some(x) => Some(type_view(x)),
        None => None,
    }
}

/// The mathematical value of a statement.
pub enum StmtV {
    Expr(ExprV),
    Let { name: Seq<char>, ty: Option<TypeV>, value: ExprV },
    Assign { name: Seq<char>, value: ExprV },
    ArrayAssign { array: Seq<char>, index: ExprV, value: ExprV },
    Func { name: Seq<char>, params: Seq<Seq<char>>, body: Seq<StmtV> },
    Return(Option<ExprV>),
    Import { path: Seq<char> },
    Use { lib: Seq<char> },
    If { cond: ExprV, then_body: Seq<StmtV>, else_body: Option<Seq<StmtV>> },
    While { cond: ExprV, body: Seq<StmtV> },
    ForRange { var: Seq<char>, start: ExprV, end: ExprV, body: Seq<StmtV> },
    StructDef { name: Seq<char>, fields: Seq<(Seq<char>, TypeV)> },
}

/// The names of a parameter list.
pub open spec fn names_view(ns: Seq<String>) -> Seq<Seq<char>> {
    ns.map_values(|n: String| n@)
}

/// The fields of a struct declaration.
pub open spec fn fields_view(fs: Seq<(String, Type)>) -> Seq<(Seq<char>, TypeV)> {
    fs.map_values(|f: (String, Type)| (f.0@, type_view(f.1)))
}

/// A copy of `t`.
pub fn copy_type(t: &Type) -> (r: Type)
    ensures
        type_view(r) == type_view(*t),
    decreases t,
{
    match t {
        Type::Int => Type::Int,
        Type::Str => Type::Str,
        Type::Array { base, size } => Type::Array { base: Box::new(copy_type(base)), size: *size },
        Type::Struct(n) => Type::Struct(n.clone()),
    }
}

impl Clone for Type {
    fn clone(&self) -> Self {
        copy_type(self)
    }
}

/// A copy of `e`.
pub fn copy_expr(e: &Expr) -> (r: Expr)
    ensures
        expr_view(r) == expr_view(*e),
    decreases e,
{
    match e {
        Expr::Int(v) => Expr::Int(*v),
        Expr::Str(s) => Expr::Str(s.clone()),
        Expr::Ident(s) => Expr::Ident(s.clone()),
        Expr::BinaryOp { op, left, right } => Expr::BinaryOp {
            op: *op,
            left: Box::new(copy_expr(left)),
            right: Box::new(copy_expr(right)),
        },
        Expr::Call { name, args } => Expr::Call { name: name.clone(), args: copy_exprs(args) },
        Expr::ArrayAccess { array, index } => Expr::ArrayAccess {
            array: Box::new(copy_expr(array)),
            index: Box::new(copy_expr(index)),
        },
        Expr::ArrayLiteral(es) => Expr::ArrayLiteral(copy_exprs(es)),
    }
}

/// A copy of a list of expressions.
pub fn copy_exprs(es: &Vec<Expr>) -> (r: Vec<Expr>)
    ensures
        exprs_view(r@) == exprs_view(es@),
    decreases es,
{
    let mut out: Vec<Expr> = Vec::new();
    let mut i: usize = 0;
    proof {
        assert(es@.take(0) =~= out@);
    }
    while i < es.len()
        invariant
            i <= es@.len(),
            exprs_view(out@) == exprs_view(es@.take(i as int)),
        decreases es@.len() - i,
    {
        proof {
            assert(decreases_to!(*es => es[i as int]));
        }
        let ghost before = out@;
        out.push(copy_expr(&es[i]));
        proof {
            assert(out@.drop_last() =~= before);
            assert(es@.take(i + 1).drop_last() =~= es@.take(i as int));
        }
        i = i + 1;
    }
    proof {
        assert(es@.take(i as int) =~= es@);
    }
    out
}

impl Clone for Expr {
    fn clone(&self) -> Self {
        copy_expr(self)
    }
}

/// The value of a statement.
pub open spec fn stmt_view(s: Stmt) -> StmtV
    decreases s,
{
    match s {
        Stmt::Expr(e) => StmtV::Expr(expr_view(e)),
        Stmt::Let { name, ty, value } => StmtV::Let {
            name: name@,
            ty: opt_type_view(ty),
            value: expr_view(value),
        },
        Stmt::Assign { name, value } => StmtV::Assign { name: name@, value: expr_view(value) },
        Stmt::ArrayAssign { array, index, value } => StmtV::ArrayAssign {
            array: array@,
            index: expr_view(index),
            value: expr_view(value),
        },
        Stmt::Func { name, params, body } => StmtV::Func {
            name: name@,
            params: names_view(params@),
            body: stmts_view(body@),
        },
        Stmt::Return(e) => StmtV::Return(opt_expr_view(e)),
        Stmt::Import { path } => StmtV::Import { path: path@ },
        Stmt::Use { lib } => StmtV::Use { lib: lib@ },
        Stmt::If { cond, then_body, else_body } => StmtV::If {
            cond: expr_view(cond),
            then_body: stmts_view(then_body@),
            else_body: match else_body {
                Some(b) => Some(stmts_view(b@)),
                None => None,
            },
        },
        Stmt::While { cond, body } => StmtV::While {
            cond: expr_view(cond),
            body: stmts_view(body@),
        },
        Stmt::ForRange { var, start, end, body } => StmtV::ForRange {
            var: var@,
            start: expr_view(start),
            end: expr_view(end),
            body: stmts_view(body@),
        },
        Stmt::StructDef { name, fields } => StmtV::StructDef {
            name: name@,
            fields: fields_view(fields@),
        },
    }
}

/// The values of a statement sequence.
pub open spec fn stmts_view(ss: Seq<Stmt>) -> Seq<StmtV>
    decreases ss,
{
    if ss.len() == 0 {
        Seq::empty()
    } else {
        stmts_view(ss.drop_last()).push(stmt_view(ss.last()))
    }
}

/// The value of a statement that may be absent.
pub open spec fn opt_stmt_view(s: Option<Stmt>) -> Option<StmtV> {
    match s {
        Some(x) => Some(stmt_view(x)),
        None => None,
    }
}

/// A statement. Nested bodies are owned by the statement that holds them.
#[derive(Debug)]
pub enum Stmt {
    Expr(Expr),
    Let { name: String, ty: Option<Type>, value: Expr },
    Assign { name: String, value: Expr },
    ArrayAssign { array: String, index: Expr, value: Expr },
    Func { name: String, params: Vec<String>, body: Vec<Stmt> },
    Return(Option<Expr>),
    Import { path: String },
    Use { lib: String },
    If { cond: Expr, then_body: Vec<Stmt>, else_body: Option<Vec<Stmt>> },
    While { cond: Expr, body: Vec<Stmt> },
    ForRange { var: String, start: Expr, end: Expr, body: Vec<Stmt> },
    StructDef { name: String, fields: Vec<(String, Type)> },
}

/// A whole program: its top-level statements in execution order.
#[derive(Debug)]
pub struct Program {
    pub items: Vec<Stmt>,
}

/// A copy of a list of names.
pub fn copy_names(ns: &Vec<String>) -> (r: Vec<String>)
    ensures
        names_view(r@) == names_view(ns@),
{
    let mut out: Vec<String> = Vec::new();
    let mut i: usize = 0;
    while i < ns.len()
        invariant
            i <= ns@.len(),
            names_view(out@) =~= names_view(ns@.take(i as int)),
        decreases ns@.len() - i,
    {
        let ghost before = out@;
        let c = ns[i].clone();
        out.push(c);
        proof {
            assert(names_view(out@) =~= names_view(before).push(c@));
            assert(names_view(ns@.take(i + 1)) =~= names_view(ns@.take(i as int)).push(ns@[i as int]@));
            assert(names_view(out@) =~= names_view(ns@.take(i + 1)));
        }
        i = i + 1;
    }
    proof {
        assert(ns@.take(i as int) =~= ns@);
    }
    out
}

/// A copy of the fields of a struct declaration.
pub fn copy_fields(fs: &Vec<(String, Type)>) -> (r: Vec<(String, Type)>)
    ensures
        fields_view(r@) == fields_view(fs@),
{
    let mut out: Vec<(String, Type)> = Vec::new();
    let mut i: usize = 0;
    while i < fs.len()
        invariant
            i <= fs@.len(),
            fields_view(out@) =~= fields_view(fs@.take(i as int)),
        decreases fs@.len() - i,
    {
        let ghost before = out@;
        let c = (fs[i].0.clone(), copy_type(&fs[i].1));
        out.push(c);
        proof {
            assert(fields_view(out@) =~= fields_view(before).push((c.0@, type_view(c.1))));
            assert(fields_view(fs@.take(i + 1)) =~= fields_view(fs@.take(i as int)).push(
                (fs@[i as int].0@, type_view(fs@[i as int].1)),
            ));
            assert(fields_view(out@) =~= fields_view(fs@.take(i + 1)));
        }
        i = i + 1;
    }
    proof {
        assert(fs@.take(i as int) =~= fs@);
    }
    out
}

/// A copy of `s`.
pub fn copy_stmt(s: &Stmt) -> (r: Stmt)
    ensures
        stmt_view(r) == stmt_view(*s),
    decreases s,
{
    match s {
        Stmt::Expr(e) => Stmt::Expr(copy_expr(e)),
        Stmt::Let { name, ty, value } => Stmt::Let {
            name: name.clone(),
            ty: match ty {
                Some(t) => Some(copy_type(t)),
                None => None,
            },
            value: copy_expr(value),
        },
        Stmt::Assign { name, value } => Stmt::Assign { name: name.clone(), value: copy_expr(value) },
        Stmt::ArrayAssign { array, index, value } => Stmt::ArrayAssign {
            array: array.clone(),
            index: copy_expr(index),
            value: copy_expr(value),
        },
        Stmt::Func { name, params, body } => Stmt::Func {
            name: name.clone(),
            params: copy_names(params),
            body: copy_stmts(body),
        },
        Stmt::Return(e) => Stmt::Return(
            match e {
                Some(x) => Some(copy_expr(x)),
                None => None,
            },
        ),
        Stmt::Import { path } => Stmt::Import { path: path.clone() },
        Stmt::Use { lib } => Stmt::Use { lib: lib.clone() },
        Stmt::If { cond, then_body, else_body } => Stmt::If {
            cond: copy_expr(cond),
            then_body: copy_stmts(then_body),
            else_body: match else_body {
                Some(b) => Some(copy_stmts(b)),
                None => None,
            },
        },
        Stmt::While { cond, body } => Stmt::While { cond: copy_expr(cond), body: copy_stmts(body) },
        Stmt::ForRange { var, start, end, body } => Stmt::ForRange {
            var: var.clone(),
            start: copy_expr(start),
            end: copy_expr(end),
            body: copy_stmts(body),
        },
        Stmt::StructDef { name, fields } => Stmt::StructDef {
            name: name.clone(),
            fields: copy_fields(fields),
        },
    }
}

/// A copy of a statement sequence.
pub fn copy_stmts(ss: &Vec<Stmt>) -> (r: Vec<Stmt>)
    ensures
        stmts_view(r@) == stmts_view(ss@),
    decreases ss,
{
    let mut out: Vec<Stmt> = Vec::new();
    let mut i: usize = 0;
    proof {
        assert(ss@.take(0) =~= out@);
    }
    while i < ss.len()
        invariant
            i <= ss@.len(),
            stmts_view(out@) == stmts_view(ss@.take(i as int)),
        decreases ss@.len() - i,
    {
        proof {
            assert(decreases_to!(*ss => ss[i as int]));
        }
        let ghost before = out@;
        out.push(copy_stmt(&ss[i]));
        proof {
            assert(out@.drop_last() =~= before);
            assert(ss@.take(i + 1).drop_last() =~= ss@.take(i as int));
        }
        i = i + 1;
    }
    proof {
        assert(ss@.take(i as int) =~= ss@);
    }
    out
}

impl Clone for Stmt {
    fn clone(&self) -> Self {
        copy_stmt(self)
    }
}

impl Clone for Program {
    fn clone(&self) -> Self {
        Program { items: copy_stmts(&self.items) }
    }
}

} // verus!
