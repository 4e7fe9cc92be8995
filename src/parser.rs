use vstd::prelude::*;

use crate::ast::{
    expr_view, exprs_view, fields_view, names_view, opt_expr_view, opt_stmt_view, opt_type_view,
    stmt_view, stmts_view, type_view, BinOp, Expr, ExprV, Program, Stmt, StmtV, Type, TypeV,
};
use crate::lexer::{lemma_scan_bounds, scan, Lexer, Token, TokenView};
use crate::text::is_text;

verus! {

/// Whether an expression can start with `t`.
pub open spec fn starts_expr(t: TokenView) -> bool {
    t is Int || t is Str || t is Ident || t is LParen || t is LBracket
}

/// Where a parser stands: the position of the lexer, just past the current
/// token, and that token.
pub struct PState {
    pub pos: int,
    pub tok: TokenView,
}

/// Where a parser over `s` starts: at the first token.
pub open spec fn start_state(s: Seq<char>) -> PState {
    PState { pos: scan(s, 0).1, tok: scan(s, 0).0 }
}

/// The statements of the program that `s` spells.
pub open spec fn program_of(s: Seq<char>) -> Seq<StmtV> {
    program_spec(s, start_state(s), Seq::empty())
}

/// How much input is left from `st`: the characters after the position,
/// and one more while the current token is not the end.
pub open spec fn measure(s: Seq<char>, st: PState) -> nat {
    let m = (s.len() - st.pos) + if st.tok is EOF {
        0int
    } else {
        1int
    };
    if m < 0 {
        0
    } else {
        m as nat
    }
}

/// The state after moving past the current token.
pub open spec fn advance(s: Seq<char>, st: PState) -> PState {
    PState { pos: scan(s, st.pos).1, tok: scan(s, st.pos).0 }
}

/// Moves past the current token when it is `closer`.
pub open spec fn close(s: Seq<char>, st: PState, closer: TokenView) -> PState {
    if st.tok == closer {
        advance(s, st)
    } else {
        st
    }
}

pub open spec fn comparison_op(t: TokenView) -> Option<BinOp> {
    match t {
        TokenView::Lt => Some(BinOp::Lt),
        TokenView::Gt => Some(BinOp::Gt),
        TokenView::LtEq => Some(BinOp::LtEq),
        TokenView::GtEq => Some(BinOp::GtEq),
        TokenView::EqEq => Some(BinOp::EqEq),
        TokenView::NotEq => Some(BinOp::NotEq),
        _ => None,
    }
}

pub open spec fn additive_op(t: TokenView) -> Option<BinOp> {
    match t {
        TokenView::Plus => Some(BinOp::Add),
        TokenView::Minus => Some(BinOp::Sub),
        _ => None,
    }
}

pub open spec fn multiplicative_op(t: TokenView) -> Option<BinOp> {
    match t {
        TokenView::Star => Some(BinOp::Mul),
        TokenView::Slash => Some(BinOp::Div),
        _ => None,
    }
}

/// `acc` with `e` added when there is one.
pub open spec fn push_some(acc: Seq<ExprV>, e: Option<ExprV>) -> Seq<ExprV> {
    match e {
        Some(x) => acc.push(x),
        None => acc,
    }
}

/// The expression that starts at `st`, and where it ends. Relations bind
/// loosest, then sums, then products, then indexing; each level chains to
/// the left. (Each recursive step is taken only from a state with less
/// input left; the parser never reaches the other branch.)
pub open spec fn parse_expr_spec(s: Seq<char>, st: PState) -> (Option<ExprV>, PState)
    decreases measure(s, st), 7nat,
{
    parse_comparison_spec(s, st)
}

pub open spec fn parse_comparison_spec(s: Seq<char>, st: PState) -> (Option<ExprV>, PState)
    decreases measure(s, st), 6nat,
{
    let (l, st1) = parse_additive_spec(s, st);
    match l {
        Some(left) => if measure(s, st1) < measure(s, st) {
            comparison_rest(s, st1, left)
        } else {
            (None, st1)
        },
        None => (None, st1),
    }
}

pub open spec fn comparison_rest(s: Seq<char>, st: PState, left: ExprV) -> (Option<ExprV>, PState)
    decreases measure(s, st), 0nat,
{
    match comparison_op(st.tok) {
        None => (Some(left), st),
        Some(op) => {
            let st1 = advance(s, st);
            if measure(s, st1) < measure(s, st) {
                let (r, st2) = parse_additive_spec(s, st1);
                match r {
                    Some(right) => if measure(s, st2) < measure(s, st) {
                        comparison_rest(
                            s,
                            st2,
                            ExprV::BinaryOp { op, left: Box::new(left), right: Box::new(right) },
                        )
                    } else {
                        (None, st2)
                    },
                    None => (None, st2),
                }
            } else {
                (None, st1)
            }
        },
    }
}

pub open spec fn parse_additive_spec(s: Seq<char>, st: PState) -> (Option<ExprV>, PState)
    decreases measure(s, st), 5nat,
{
    let (l, st1) = parse_multiplicative_spec(s, st);
    match l {
        Some(left) => if measure(s, st1) < measure(s, st) {
            additive_rest(s, st1, left)
        } else {
            (None, st1)
        },
        None => (None, st1),
    }
}

pub open spec fn additive_rest(s: Seq<char>, st: PState, left: ExprV) -> (Option<ExprV>, PState)
    decreases measure(s, st), 0nat,
{
    match additive_op(st.tok) {
        None => (Some(left), st),
        Some(op) => {
            let st1 = advance(s, st);
            if measure(s, st1) < measure(s, st) {
                let (r, st2) = parse_multiplicative_spec(s, st1);
                match r {
                    Some(right) => if measure(s, st2) < measure(s, st) {
                        additive_rest(
                            s,
                            st2,
                            ExprV::BinaryOp { op, left: Box::new(left), right: Box::new(right) },
                        )
                    } else {
                        (None, st2)
                    },
                    None => (None, st2),
                }
            } else {
                (None, st1)
            }
        },
    }
}

pub open spec fn parse_multiplicative_spec(s: Seq<char>, st: PState) -> (Option<ExprV>, PState)
    decreases measure(s, st), 4nat,
{
    let (l, st1) = parse_postfix_spec(s, st);
    match l {
        Some(left) => if measure(s, st1) < measure(s, st) {
            multiplicative_rest(s, st1, left)
        } else {
            (None, st1)
        },
        None => (None, st1),
    }
}

pub open spec fn multiplicative_rest(s: Seq<char>, st: PState, left: ExprV) -> (Option<ExprV>, PState)
    decreases measure(s, st), 0nat,
{
    match multiplicative_op(st.tok) {
        None => (Some(left), st),
        Some(op) => {
            let st1 = advance(s, st);
            if measure(s, st1) < measure(s, st) {
                let (r, st2) = parse_postfix_spec(s, st1);
                match r {
                    Some(right) => if measure(s, st2) < measure(s, st) {
                        multiplicative_rest(
                            s,
                            st2,
                            ExprV::BinaryOp { op, left: Box::new(left), right: Box::new(right) },
                        )
                    } else {
                        (None, st2)
                    },
                    None => (None, st2),
                }
            } else {
                (None, st1)
            }
        },
    }
}

pub open spec fn parse_postfix_spec(s: Seq<char>, st: PState) -> (Option<ExprV>, PState)
    decreases measure(s, st), 3nat,
{
    let (p, st1) = parse_primary_spec(s, st);
    match p {
        Some(e) => if measure(s, st1) < measure(s, st) {
            postfix_rest(s, st1, e)
        } else {
            (None, st1)
        },
        None => (None, st1),
    }
}

pub open spec fn postfix_rest(s: Seq<char>, st: PState, e: ExprV) -> (Option<ExprV>, PState)
    decreases measure(s, st), 0nat,
{
    if st.tok is LBracket {
        let st1 = advance(s, st);
        if measure(s, st1) < measure(s, st) {
            let (ix, st2) = parse_expr_spec(s, st1);
            match ix {
                Some(i) => {
                    let st3 = close(s, st2, TokenView::RBracket);
                    if measure(s, st3) < measure(s, st) {
                        postfix_rest(
                            s,
                            st3,
                            ExprV::ArrayAccess { array: Box::new(e), index: Box::new(i) },
                        )
                    } else {
                        (None, st3)
                    }
                },
                None => (None, st2),
            }
        } else {
            (None, st1)
        }
    } else {
        (Some(e), st)
    }
}

pub open spec fn parse_primary_spec(s: Seq<char>, st: PState) -> (Option<ExprV>, PState)
    decreases measure(s, st), 2nat,
{
    match st.tok {
        TokenView::Int(v) => (Some(ExprV::Int(v)), advance(s, st)),
        TokenView::Str(t) => (Some(ExprV::Str(t)), advance(s, st)),
        TokenView::LBracket => {
            let st1 = advance(s, st);
            if measure(s, st1) < measure(s, st) {
                let (es, st2) = list_spec(s, st1, Seq::empty(), TokenView::RBracket);
                (Some(ExprV::ArrayLiteral(es)), st2)
            } else {
                (None, st1)
            }
        },
        TokenView::Ident(n) => {
            let st1 = advance(s, st);
            if st1.tok is LParen {
                let st2 = advance(s, st1);
                if measure(s, st2) < measure(s, st) {
                    let (args, st3) = list_spec(s, st2, Seq::empty(), TokenView::RParen);
                    (Some(ExprV::Call { name: n, args }), st3)
                } else {
                    (None, st2)
                }
            } else {
                (Some(ExprV::Ident(n)), st1)
            }
        },
        TokenView::LParen => {
            let st1 = advance(s, st);
            if measure(s, st1) < measure(s, st) {
                let (e, st2) = parse_expr_spec(s, st1);
                (e, close(s, st2, TokenView::RParen))
            } else {
                (None, st1)
            }
        },
        _ => (None, st),
    }
}

/// A list of expressions separated by commas up to `closer`, which is
/// consumed; `acc` holds the items read so far. A token that is neither an
/// item nor a comma ends the list.
pub open spec fn list_spec(s: Seq<char>, st: PState, acc: Seq<ExprV>, closer: TokenView) -> (
    Seq<ExprV>,
    PState,
)
    decreases measure(s, st), 8nat,
{
    if st.tok == closer || st.tok is EOF {
        (acc, close(s, st, closer))
    } else {
        let (e, st1) = parse_expr_spec(s, st);
        let acc1 = push_some(acc, e);
        if st1.tok is Comma {
            let st2 = advance(s, st1);
            if measure(s, st2) < measure(s, st) {
                list_spec(s, st2, acc1, closer)
            } else {
                (acc1, st2)
            }
        } else if e is None {
            (acc1, close(s, st1, closer))
        } else if measure(s, st1) < measure(s, st) {
            list_spec(s, st1, acc1, closer)
        } else {
            (acc1, st1)
        }
    }
}

/// The base of a type annotation named `n`.
pub open spec fn base_type(n: Seq<char>) -> TypeV {
    if n == "int"@ {
        TypeV::Int
    } else if n == "string"@ || n == "str"@ {
        TypeV::Str
    } else {
        TypeV::Struct(n)
    }
}

/// A type annotation: a name, optionally followed by `[size]`.
pub open spec fn parse_type_spec(s: Seq<char>, st: PState) -> (Option<TypeV>, PState) {
    match st.tok {
        TokenView::Ident(n) => {
            let st1 = advance(s, st);
            if st1.tok is LBracket {
                let st2 = advance(s, st1);
                match st2.tok {
                    TokenView::Int(size) => {
                        let st3 = advance(s, st2);
                        if st3.tok is RBracket {
                            (
                                Some(TypeV::Array { base: Box::new(base_type(n)), size: size as usize }),
                                advance(s, st3),
                            )
                        } else {
                            (None, st3)
                        }
                    },
                    _ => (None, st2),
                }
            } else {
                (Some(base_type(n)), st1)
            }
        },
        _ => (None, st),
    }
}

/// The statement that starts at `st`, and where it ends.
pub open spec fn parse_stmt_spec(s: Seq<char>, st: PState) -> (Option<StmtV>, PState)
    decreases measure(s, st), 10nat,
{
    match st.tok {
        TokenView::Struct => struct_spec(s, st),
        TokenView::If => if_spec(s, st),
        TokenView::While => while_spec(s, st),
        TokenView::For => for_spec(s, st),
        TokenView::Import => import_spec(s, st),
        TokenView::Use => use_spec(s, st),
        TokenView::Let => let_spec(s, st),
        TokenView::Func => func_spec(s, st),
        TokenView::Return => return_spec(s, st),
        TokenView::Print => print_spec(s, st),
        TokenView::SetKw => set_spec(s, st),
        _ => expr_stmt_spec(s, st),
    }
}

/// Statements up to a closing brace, which is consumed; `acc` holds those
/// read so far. Where no statement can be read, one token is skipped.
pub open spec fn body_spec(s: Seq<char>, st: PState, acc: Seq<StmtV>) -> (Seq<StmtV>, PState)
    decreases measure(s, st), 11nat,
{
    if st.tok is RBrace || st.tok is EOF {
        (acc, close(s, st, TokenView::RBrace))
    } else {
        let (r, st1) = parse_stmt_spec(s, st);
        match r {
            Some(x) => if measure(s, st1) < measure(s, st) {
                body_spec(s, st1, acc.push(x))
            } else {
                (acc, st1)
            },
            None => {
                let st2 = advance(s, st1);
                if measure(s, st2) < measure(s, st) {
                    body_spec(s, st2, acc)
                } else {
                    (acc, st2)
                }
            },
        }
    }
}

/// The statements of a whole program from `st` on; `acc` holds those read
/// so far. Where no statement can be read, one token is skipped.
pub open spec fn program_spec(s: Seq<char>, st: PState, acc: Seq<StmtV>) -> Seq<StmtV>
    decreases measure(s, st), 12nat,
{
    if st.tok is EOF {
        acc
    } else {
        let (r, st1) = parse_stmt_spec(s, st);
        match r {
            Some(x) => if measure(s, st1) < measure(s, st) {
                program_spec(s, st1, acc.push(x))
            } else {
                acc
            },
            None => {
                let st2 = advance(s, st1);
                if measure(s, st2) < measure(s, st) {
                    program_spec(s, st2, acc)
                } else {
                    acc
                }
            },
        }
    }
}

/// The fields of a struct declaration up to the closing brace, which is
/// left in place. A field whose type cannot be read is dropped; any other
/// token is skipped.
pub open spec fn fields_spec(s: Seq<char>, st: PState, acc: Seq<(Seq<char>, TypeV)>) -> (
    Seq<(Seq<char>, TypeV)>,
    PState,
)
    decreases measure(s, st),
{
    if st.tok is RBrace || st.tok is EOF {
        (acc, st)
    } else {
        match st.tok {
            TokenView::Ident(f) => {
                let st1 = advance(s, st);
                if st1.tok is Colon {
                    let (t, st3) = parse_type_spec(s, advance(s, st1));
                    match t {
                        Some(ty) => {
                            let st4 = close(s, st3, TokenView::Comma);
                            if measure(s, st4) < measure(s, st) {
                                fields_spec(s, st4, acc.push((f, ty)))
                            } else {
                                (acc, st4)
                            }
                        },
                        None => if measure(s, st3) < measure(s, st) {
                            fields_spec(s, st3, acc)
                        } else {
                            (acc, st3)
                        },
                    }
                } else if measure(s, st1) < measure(s, st) {
                    fields_spec(s, st1, acc)
                } else {
                    (acc, st1)
                }
            },
            _ => {
                let st1 = advance(s, st);
                if measure(s, st1) < measure(s, st) {
                    fields_spec(s, st1, acc)
                } else {
                    (acc, st1)
                }
            },
        }
    }
}

/// The parameter names of a function up to the closing parenthesis, which
/// is left in place. A token that is neither a name nor a comma ends the
/// list.
pub open spec fn params_spec(s: Seq<char>, st: PState, acc: Seq<Seq<char>>) -> (Seq<Seq<char>>, PState)
    decreases measure(s, st),
{
    if st.tok is RParen || st.tok is EOF {
        (acc, st)
    } else {
        let consumed = st.tok is Ident;
        let acc1 = match st.tok {
            TokenView::Ident(p) => acc.push(p),
            _ => acc,
        };
        let st1 = if consumed {
            advance(s, st)
        } else {
            st
        };
        if st1.tok is Comma {
            let st2 = advance(s, st1);
            if measure(s, st2) < measure(s, st) {
                params_spec(s, st2, acc1)
            } else {
                (acc1, st2)
            }
        } else if !consumed {
            (acc1, st1)
        } else if measure(s, st1) < measure(s, st) {
            params_spec(s, st1, acc1)
        } else {
            (acc1, st1)
        }
    }
}

/// `struct Name { field: type, ... }`, with an optional `;` after it.
pub open spec fn struct_spec(s: Seq<char>, st: PState) -> (Option<StmtV>, PState)
    decreases measure(s, st), 9nat,
{
    let st1 = advance(s, st);
    match st1.tok {
        TokenView::Ident(name) => {
            let st2 = advance(s, st1);
            if st2.tok is LBrace {
                let st3 = advance(s, st2);
                let (fields, st4) = fields_spec(s, st3, Seq::empty());
                let st6 = close(s, close(s, st4, TokenView::RBrace), TokenView::Semicolon);
                (Some(StmtV::StructDef { name, fields }), st6)
            } else {
                (None, st2)
            }
        },
        _ => (None, st1),
    }
}

/// The statement after `else` that starts with `if`, as a body of one
/// statement.
pub open spec fn else_if_spec(s: Seq<char>, st: PState) -> (Option<Seq<StmtV>>, PState)
    decreases measure(s, st), 11nat,
{
    let (e, st7) = parse_stmt_spec(s, st);
    match e {
        Some(x) => (Some(seq![x]), st7),
        None => (None, st7),
    }
}

/// What follows the then-branch of an `if`: `else if ...` (a body of
/// one statement), `else { ... }`, or nothing.
pub open spec fn else_spec(s: Seq<char>, st: PState) -> (Option<Seq<StmtV>>, PState)
    decreases measure(s, st), 0nat,
{
    if st.tok is Else {
        let st6 = advance(s, st);
        if st6.tok is If {
            if measure(s, st6) < measure(s, st) {
                else_if_spec(s, st6)
            } else {
                (None, st6)
            }
        } else if st6.tok is LBrace {
            let st7 = advance(s, st6);
            if measure(s, st7) < measure(s, st) {
                let (eb, st8) = body_spec(s, st7, Seq::empty());
                (Some(eb), st8)
            } else {
                (None, st7)
            }
        } else {
            (None, st6)
        }
    } else {
        (None, st)
    }
}

/// `if cond [then] { ... }`, then what `else_spec` reads.
pub open spec fn if_spec(s: Seq<char>, st: PState) -> (Option<StmtV>, PState)
    decreases measure(s, st), 9nat,
{
    let st1 = advance(s, st);
    if measure(s, st1) < measure(s, st) {
        let (c, st2) = parse_expr_spec(s, st1);
        match c {
            Some(cond) => {
                let st3 = close(s, st2, TokenView::Then);
                if st3.tok is LBrace {
                    let st4 = advance(s, st3);
                    if measure(s, st4) < measure(s, st) {
                        let (tb, st5) = body_spec(s, st4, Seq::empty());
                        if measure(s, st5) < measure(s, st) {
                            let (eb, st6) = else_spec(s, st5);
                            (Some(StmtV::If { cond, then_body: tb, else_body: eb }), st6)
                        } else {
                            (None, st5)
                        }
                    } else {
                        (None, st4)
                    }
                } else {
                    (None, st3)
                }
            },
            None => (None, st2),
        }
    } else {
        (None, st1)
    }
}

/// `while cond { ... }`.
pub open spec fn while_spec(s: Seq<char>, st: PState) -> (Option<StmtV>, PState)
    decreases measure(s, st), 9nat,
{
    let st1 = advance(s, st);
    if measure(s, st1) < measure(s, st) {
        let (c, st2) = parse_expr_spec(s, st1);
        match c {
            Some(cond) => if st2.tok is LBrace {
                let st3 = advance(s, st2);
                if measure(s, st3) < measure(s, st) {
                    let (body, st4) = body_spec(s, st3, Seq::empty());
                    (Some(StmtV::While { cond, body }), st4)
                } else {
                    (None, st3)
                }
            } else {
                (None, st2)
            },
            None => (None, st2),
        }
    } else {
        (None, st1)
    }
}

/// `for var in range(` is read: the one or two bounds, then the rest.
pub open spec fn for_args(s: Seq<char>, var: Seq<char>, st: PState) -> (Option<StmtV>, PState)
    decreases measure(s, st), 8nat,
{
    let (a, st6) = parse_expr_spec(s, st);
    match a {
        Some(first) => if st6.tok is Comma {
            let st7 = advance(s, st6);
            if measure(s, st7) < measure(s, st) {
                let (b, st8) = parse_expr_spec(s, st7);
                match b {
                    Some(second) => if measure(s, st8) < measure(s, st) {
                        for_stmt(var, first, second, for_tail(s, st8))
                    } else {
                        (None, st8)
                    },
                    None => (None, st8),
                }
            } else {
                (None, st7)
            }
        } else if measure(s, st6) < measure(s, st) {
            for_stmt(var, ExprV::Int(0), first, for_tail(s, st6))
        } else {
            (None, st6)
        },
        None => (None, st6),
    }
}

/// The end of `for var in range(...)` from the closing parenthesis on:
/// the body of the loop.
pub open spec fn for_tail(s: Seq<char>, st: PState) -> (Option<Seq<StmtV>>, PState)
    decreases measure(s, st), 0nat,
{
    let st1 = close(s, st, TokenView::RParen);
    if st1.tok is LBrace {
        let st2 = advance(s, st1);
        if measure(s, st2) < measure(s, st) {
            let (body, st3) = body_spec(s, st2, Seq::empty());
            (Some(body), st3)
        } else {
            (None, st2)
        }
    } else {
        (None, st1)
    }
}

/// A `for` loop over `var` with the given bounds, whose body is `body`.
pub open spec fn for_stmt(var: Seq<char>, start: ExprV, end: ExprV, body: (Option<Seq<StmtV>>, PState)) -> (
    Option<StmtV>,
    PState,
) {
    match body.0 {
        Some(b) => (Some(StmtV::ForRange { var, start, end, body: b }), body.1),
        None => (None, body.1),
    }
}

/// `for var in range(...)`; the bounds and body follow in `for_args`.
pub open spec fn for_spec(s: Seq<char>, st: PState) -> (Option<StmtV>, PState)
    decreases measure(s, st), 9nat,
{
    let st1 = advance(s, st);
    match st1.tok {
        TokenView::Ident(var) => {
            let st2 = advance(s, st1);
            if !(st2.tok is In) {
                (None, st2)
            } else {
                let st3 = advance(s, st2);
                if !(st3.tok is Range) {
                    (None, st3)
                } else {
                    let st4 = advance(s, st3);
                    if !(st4.tok is LParen) {
                        (None, st4)
                    } else {
                        let st5 = advance(s, st4);
                        if measure(s, st5) < measure(s, st) {
                            for_args(s, var, st5)
                        } else {
                            (None, st5)
                        }
                    }
                }
            }
        },
        _ => (None, st1),
    }
}

/// `import "path"`, with an optional `;`.
pub open spec fn import_spec(s: Seq<char>, st: PState) -> (Option<StmtV>, PState) {
    let st1 = advance(s, st);
    match st1.tok {
        TokenView::Str(path) => (
            Some(StmtV::Import { path }),
            close(s, advance(s, st1), TokenView::Semicolon),
        ),
        _ => (None, st1),
    }
}

/// `use #library`, with an optional `;`.
pub open spec fn use_spec(s: Seq<char>, st: PState) -> (Option<StmtV>, PState) {
    let st1 = advance(s, st);
    if st1.tok is Hash {
        let st2 = advance(s, st1);
        match st2.tok {
            TokenView::Ident(lib) => (
                Some(StmtV::Use { lib }),
                close(s, advance(s, st2), TokenView::Semicolon),
            ),
            _ => (None, st2),
        }
    } else {
        (None, st1)
    }
}

/// `let name [: type] = value`, with an optional `;`.
pub open spec fn let_spec(s: Seq<char>, st: PState) -> (Option<StmtV>, PState)
    decreases measure(s, st), 9nat,
{
    let st1 = advance(s, st);
    match st1.tok {
        TokenView::Ident(name) => {
            let st2 = advance(s, st1);
            let (ty, st3) = if st2.tok is Colon {
                parse_type_spec(s, advance(s, st2))
            } else {
                (None, st2)
            };
            if st3.tok is Eq {
                let st4 = advance(s, st3);
                if measure(s, st4) < measure(s, st) {
                    let (v, st5) = parse_expr_spec(s, st4);
                    match v {
                        Some(value) => (
                            Some(StmtV::Let { name, ty, value }),
                            close(s, st5, TokenView::Semicolon),
                        ),
                        None => (None, st5),
                    }
                } else {
                    (None, st4)
                }
            } else {
                (None, st3)
            }
        },
        _ => (None, st1),
    }
}

/// `func name(params) { ... }`.
pub open spec fn func_spec(s: Seq<char>, st: PState) -> (Option<StmtV>, PState)
    decreases measure(s, st), 9nat,
{
    let st1 = advance(s, st);
    match st1.tok {
        TokenView::Ident(name) => {
            let st2 = advance(s, st1);
            if st2.tok is LParen {
                let (params, st4) = params_spec(s, advance(s, st2), Seq::empty());
                let st5 = close(s, st4, TokenView::RParen);
                if st5.tok is LBrace {
                    let st6 = advance(s, st5);
                    if measure(s, st6) < measure(s, st) {
                        let (body, st7) = body_spec(s, st6, Seq::empty());
                        (Some(StmtV::Func { name, params, body }), st7)
                    } else {
                        (None, st6)
                    }
                } else {
                    (None, st5)
                }
            } else {
                (None, st2)
            }
        },
        _ => (None, st1),
    }
}

/// `return [value]`, with an optional `;`.
pub open spec fn return_spec(s: Seq<char>, st: PState) -> (Option<StmtV>, PState)
    decreases measure(s, st), 9nat,
{
    let st1 = advance(s, st);
    if measure(s, st1) < measure(s, st) {
        let (e, st2) = parse_expr_spec(s, st1);
        (Some(StmtV::Return(e)), close(s, st2, TokenView::Semicolon))
    } else {
        (None, st1)
    }
}

/// `print(value)`: a call of `print` with one argument, zero when the value is missing.
pub open spec fn print_spec(s: Seq<char>, st: PState) -> (Option<StmtV>, PState)
    decreases measure(s, st), 9nat,
{
    let st1 = advance(s, st);
    if st1.tok is LParen {
        let st2 = advance(s, st1);
        if measure(s, st2) < measure(s, st) {
            let (e, st3) = parse_expr_spec(s, st2);
            let arg = match e {
                Some(x) => x,
                None => ExprV::Int(0),
            };
            (
                Some(StmtV::Expr(ExprV::Call { name: "print"@, args: seq![arg] })),
                close(s, close(s, st3, TokenView::RParen), TokenView::Semicolon),
            )
        } else {
            (None, st2)
        }
    } else {
        (None, st1)
    }
}

/// `set name = value`, with an optional `;`.
pub open spec fn set_spec(s: Seq<char>, st: PState) -> (Option<StmtV>, PState)
    decreases measure(s, st), 9nat,
{
    let st1 = advance(s, st);
    match st1.tok {
        TokenView::Ident(name) => {
            let st2 = advance(s, st1);
            if st2.tok is Eq {
                let st3 = advance(s, st2);
                if measure(s, st3) < measure(s, st) {
                    let (v, st4) = parse_expr_spec(s, st3);
                    match v {
                        Some(value) => (
                            Some(StmtV::Assign { name, value }),
                            close(s, st4, TokenView::Semicolon),
                        ),
                        None => (None, st4),
                    }
                } else {
                    (None, st3)
                }
            } else {
                (None, st2)
            }
        },
        _ => (None, st1),
    }
}

/// An expression statement, or `name = value` when the expression is a bare name followed by `=`.
pub open spec fn expr_stmt_spec(s: Seq<char>, st: PState) -> (Option<StmtV>, PState)
    decreases measure(s, st), 9nat,
{
    let (e, st1) = parse_expr_spec(s, st);
    match e {
        Some(ev) => match ev {
            ExprV::Ident(name) if st1.tok is Eq => {
                let st2 = advance(s, st1);
                if measure(s, st2) < measure(s, st) {
                    let (v, st3) = parse_expr_spec(s, st2);
                    match v {
                        Some(value) => (
                            Some(StmtV::Assign { name, value }),
                            close(s, st3, TokenView::Semicolon),
                        ),
                        None => (Some(StmtV::Expr(ev)), close(s, st3, TokenView::Semicolon)),
                    }
                } else {
                    (None, st2)
                }
            },
            _ => (Some(StmtV::Expr(ev)), close(s, st1, TokenView::Semicolon)),
        },
        None => (None, st1),
    }
}

/// A recursive-descent parser with one token of lookahead. It never fails:
/// what it cannot read it skips, one token at a time.
pub struct Parser {
    lex: Lexer,
    lookahead: Token,
}

impl Parser {
    pub closed spec fn wf(&self) -> bool {
        &&& self.lex.wf()
        &&& 0 <= self.lex.position() <= self.lex.input().len()
        &&& self.lookahead@ is EOF ==> self.lex.position() == self.lex.input().len()
    }

    /// The source text.
    pub closed spec fn input(&self) -> Seq<char> {
        self.lex.input()
    }

    /// The token under the cursor.
    pub closed spec fn current(&self) -> TokenView {
        self.lookahead@
    }

    /// How much input is left: the characters after the cursor, and one
    /// more while the current token is not the end.
    pub closed spec fn remaining(&self) -> nat {
        measure(self.lex.input(), self.state())
    }

    /// Where the parser stands.
    pub closed spec fn state(&self) -> PState {
        PState { pos: self.lex.position(), tok: self.lookahead@ }
    }

    /// A parser at the first token of `src`.
    pub fn new(src: &str) -> (r: Parser)
        ensures
            r.wf(),
            r.input() == src@,
            r.current() == scan(src@, 0).0,
            r.state() == start_state(src@),
    {
        let mut lx = Lexer::new(src);
        let la = lx.next_token();
        proof {
            lemma_scan_bounds(src@, 0);
        }
        Parser { lex: lx, lookahead: la }
    }

    fn bump(&mut self)
        requires
            old(self).wf(),
        ensures
            final(self).wf(),
            final(self).input() == old(self).input(),
            final(self).remaining() <= old(self).remaining(),
            !(old(self).current() is EOF) ==> final(self).remaining() < old(self).remaining(),
            final(self).state() == advance(old(self).input(), old(self).state()),
    {
        proof {
            lemma_scan_bounds(self.lex.input(), self.lex.position());
        }
        self.lookahead = self.lex.next_token();
    }

    fn at_eof(&self) -> (r: bool)
        ensures
            r == (self.current() is EOF),
    {
        matches!(self.lookahead, Token::EOF)
    }

    /// A type annotation: `int`, `string` or `str`, another name (a struct),
    /// or one of these followed by `[size]`.
    #[verifier::rlimit(100)]
    #[verifier::spinoff_prover]
    fn parse_type(&mut self) -> (r: Option<Type>)
        requires
            old(self).wf(),
        ensures
            final(self).wf(),
            final(self).input() == old(self).input(),
            final(self).remaining() <= old(self).remaining(),
            r is Some ==> final(self).remaining() < old(self).remaining(),
            r is Some ==> old(self).current() is Ident,
            !(old(self).current() is Ident) ==> *final(self) == *old(self),
            (opt_type_view(r), final(self).state()) == parse_type_spec(old(self).input(), old(self).state()),
    {
        let base_name = match &self.lookahead {
            Token::Ident(name) => name.clone(),
            _ => {
                return None;
            },
        };
        self.bump();
        if matches!(self.lookahead, Token::LBracket) {
            self.bump();
            if let Token::Int(size) = &self.lookahead {
                let array_size = #[verifier::truncate] (*size as usize);
                self.bump();
                if matches!(self.lookahead, Token::RBracket) {
                    self.bump();
                    let ghost bn = base_name@;
                    let elem = if is_text(&base_name, "int") {
                        Type::Int
                    } else if is_text(&base_name, "string") || is_text(&base_name, "str") {
                        Type::Str
                    } else {
                        Type::Struct(base_name)
                    };
                    proof {
                        assert(type_view(elem) == base_type(bn));
                    }
                    return Some(Type::Array { base: Box::new(elem), size: array_size });
                }
            }
            return None;
        }
        if is_text(&base_name, "int") {
            Some(Type::Int)
        } else if is_text(&base_name, "string") || is_text(&base_name, "str") {
            Some(Type::Str)
        } else {
            Some(Type::Struct(base_name))
        }
    }
    /// Parses statements up to the closing brace of a body and consumes
    /// that brace; the opening brace is consumed already.
    #[verifier::rlimit(100)]
    #[verifier::spinoff_prover]
    fn parse_body(&mut self) -> (r: Vec<Stmt>)
        requires
            old(self).wf(),
        ensures
            final(self).wf(),
            final(self).input() == old(self).input(),
            final(self).remaining() <= old(self).remaining(),
            (stmts_view(r@), final(self).state()) == body_spec(old(self).input(), old(self).state(), Seq::empty()),
        decreases old(self).remaining(), 11nat,
    {
        let ghost s = self.input();
        let ghost target = body_spec(s, self.state(), Seq::empty());
        let mut body: Vec<Stmt> = Vec::new();
        proof {
            assert(stmts_view(body@) =~= Seq::<StmtV>::empty());
        }
        while !matches!(self.lookahead, Token::RBrace) && !self.at_eof()
            invariant
                self.wf(),
                self.input() == s,
                s == old(self).input(),
                self.remaining() <= old(self).remaining(),
                body_spec(s, self.state(), stmts_view(body@)) == target,
            decreases self.remaining(),
        {
            let ghost old_body = body@;
            match self.parse_stmt() {
                Some(st) => {
                    body.push(st);
                    proof {
                        assert(body@.drop_last() =~= old_body);
                    }
                },
                None => self.bump(),
            }
        }
        if matches!(self.lookahead, Token::RBrace) {
            self.bump();
        }
        body
    }

    /// Parses a whole program: statement after statement until the end of
    /// input, skipping one token wherever no statement can be read.
    #[verifier::rlimit(100)]
    #[verifier::spinoff_prover]
    pub fn parse_program(&mut self) -> (r: Program)
        requires
            old(self).wf(),
        ensures
            final(self).wf(),
            final(self).input() == old(self).input(),
            final(self).current() is EOF,
            final(self).remaining() == 0,
            stmts_view(r.items@) == program_spec(old(self).input(), old(self).state(), Seq::empty()),
    {
        let ghost s = self.input();
        let ghost target = program_spec(s, self.state(), Seq::empty());
        let mut items: Vec<Stmt> = Vec::new();
        proof {
            assert(stmts_view(items@) =~= Seq::<StmtV>::empty());
        }
        while !self.at_eof()
            invariant
                self.wf(),
                self.input() == s,
                s == old(self).input(),
                program_spec(s, self.state(), stmts_view(items@)) == target,
            decreases self.remaining(),
        {
            let ghost old_items = items@;
            match self.parse_stmt() {
                Some(st) => {
                    items.push(st);
                    proof {
                        assert(items@.drop_last() =~= old_items);
                    }
                },
                None => self.bump(),
            }
        }
        Program { items }
    }

    /// Parses one statement; `None`, with some tokens possibly consumed,
    /// where none can be read here.
    #[verifier::rlimit(100)]
    #[verifier::spinoff_prover]
    fn parse_stmt(&mut self) -> (r: Option<Stmt>)
        requires
            old(self).wf(),
        ensures
            final(self).wf(),
            final(self).input() == old(self).input(),
            final(self).remaining() <= old(self).remaining(),
            r is Some ==> final(self).remaining() < old(self).remaining(),
            (opt_stmt_view(r), final(self).state()) == parse_stmt_spec(old(self).input(), old(self).state()),
        decreases old(self).remaining(), 10nat,
    {
        match &self.lookahead {
            Token::Struct => self.parse_struct(),
            Token::If => self.parse_if(),
            Token::While => self.parse_while(),
            Token::For => self.parse_for(),
            Token::Import => self.parse_import(),
            Token::Use => self.parse_use(),
            Token::Let => self.parse_let(),
            Token::Func => self.parse_func(),
            Token::Return => self.parse_return(),
            Token::Print => self.parse_print(),
            Token::SetKw => self.parse_set(),
            _ => self.parse_expr_stmt(),
        }
    }

    /// A struct declaration: `struct Name { field: type, ... }`.
    #[verifier::rlimit(100)]
    #[verifier::spinoff_prover]
    fn parse_struct(&mut self) -> (r: Option<Stmt>)
        requires
            old(self).wf(),
            old(self).current() is Struct,
        ensures
            final(self).wf(),
            final(self).input() == old(self).input(),
            final(self).remaining() <= old(self).remaining(),
            r is Some ==> final(self).remaining() < old(self).remaining(),
            (opt_stmt_view(r), final(self).state()) == struct_spec(old(self).input(), old(self).state()),
        decreases old(self).remaining(), 9nat,
    {
        self.bump();
        let struct_name = match &self.lookahead {
            Token::Ident(name) => name.clone(),
            _ => {
                return None;
            },
        };
        self.bump();
        if !matches!(self.lookahead, Token::LBrace) {
            return None;
        }
        self.bump();
        let ghost s = self.input();
        let ghost target = fields_spec(s, self.state(), Seq::empty());
        let mut fields: Vec<(String, Type)> = Vec::new();
        proof {
            assert(fields_view(fields@) =~= Seq::<(Seq<char>, TypeV)>::empty());
        }
        while !matches!(self.lookahead, Token::RBrace) && !self.at_eof()
            invariant
                self.wf(),
                self.input() == s,
                s == old(self).input(),
                self.remaining() < old(self).remaining(),
                fields_spec(s, self.state(), fields_view(fields@)) == target,
            decreases self.remaining(),
        {
            let ghost old_fields = fields@;
            let field_name = match &self.lookahead {
                Token::Ident(name) => Some(name.clone()),
                _ => None,
            };
            match field_name {
                Some(fname) => {
                    self.bump();
                    if matches!(self.lookahead, Token::Colon) {
                        self.bump();
                        if let Some(ftype) = self.parse_type() {
                            let ghost entry = (fname@, type_view(ftype));
                            fields.push((fname, ftype));
                            proof {
                                assert(fields_view(fields@) =~= fields_view(old_fields).push(entry));
                            }
                            if matches!(self.lookahead, Token::Comma) {
                                self.bump();
                            }
                        }
                    }
                },
                None => self.bump(),
            }
        }
        if matches!(self.lookahead, Token::RBrace) {
            self.bump();
        }
        if matches!(self.lookahead, Token::Semicolon) {
            self.bump();
        }
        Some(Stmt::StructDef { name: struct_name, fields })
    }

    /// `if cond [then] { ... }`, with `else { ... }` or `else if ...`.
    /// The statement after `else` that starts with `if`, as a body of one
    /// statement.
    #[verifier::rlimit(100)]
    #[verifier::spinoff_prover]
    fn parse_else_if(&mut self) -> (r: Option<Vec<Stmt>>)
        requires
            old(self).wf(),
        ensures
            final(self).wf(),
            final(self).input() == old(self).input(),
            final(self).remaining() <= old(self).remaining(),
            (match r {
                Some(b) => Some(stmts_view(b@)),
                None => None,
            }, final(self).state()) == else_if_spec(old(self).input(), old(self).state()),
        decreases old(self).remaining(), 11nat,
    {
        match self.parse_stmt() {
            Some(st) => {
                let ghost s0 = st;
                let mut b: Vec<Stmt> = Vec::new();
                b.push(st);
                proof {
                    assert(b@ =~= seq![s0]);
                    assert(seq![s0].drop_last() =~= Seq::<Stmt>::empty());
                    assert(stmts_view(seq![s0]) == stmts_view(Seq::<Stmt>::empty()).push(stmt_view(s0)));
                    assert(stmts_view(b@) =~= seq![stmt_view(s0)]);
                }
                Some(b)
            },
            None => None,
        }
    }

    /// What follows the then-branch of an `if`.
    #[verifier::rlimit(100)]
    #[verifier::spinoff_prover]
    fn parse_else(&mut self) -> (r: Option<Vec<Stmt>>)
        requires
            old(self).wf(),
        ensures
            final(self).wf(),
            final(self).input() == old(self).input(),
            final(self).remaining() <= old(self).remaining(),
            (match r {
                Some(b) => Some(stmts_view(b@)),
                None => None,
            }, final(self).state()) == else_spec(old(self).input(), old(self).state()),
        decreases old(self).remaining(), 12nat,
    {
        let ghost s0 = self.input();
        let ghost st0 = self.state();
        if !matches!(self.lookahead, Token::Else) {
            return None;
        }
        self.bump();
        let ghost st6 = self.state();
        if matches!(self.lookahead, Token::If) {
            self.parse_else_if()
        } else if matches!(self.lookahead, Token::LBrace) {
            self.bump();
            Some(self.parse_body())
        } else {
            None
        }
    }

    /// The end of `for var in range(...)` from the closing parenthesis on:
    /// the body of the loop.
    #[verifier::rlimit(100)]
    #[verifier::spinoff_prover]
    fn parse_for_tail(&mut self) -> (r: Option<Vec<Stmt>>)
        requires
            old(self).wf(),
        ensures
            final(self).wf(),
            final(self).input() == old(self).input(),
            final(self).remaining() <= old(self).remaining(),
            (match r {
                Some(b) => Some(stmts_view(b@)),
                None => None,
            }, final(self).state()) == for_tail(old(self).input(), old(self).state()),
        decreases old(self).remaining(), 12nat,
    {
        if matches!(self.lookahead, Token::RParen) {
            self.bump();
        }
        if !matches!(self.lookahead, Token::LBrace) {
            return None;
        }
        self.bump();
        Some(self.parse_body())
    }

    #[verifier::rlimit(100)]
    #[verifier::spinoff_prover]
    fn parse_if(&mut self) -> (r: Option<Stmt>)
        requires
            old(self).wf(),
            old(self).current() is If,
        ensures
            final(self).wf(),
            final(self).input() == old(self).input(),
            final(self).remaining() <= old(self).remaining(),
            r is Some ==> final(self).remaining() < old(self).remaining(),
            (opt_stmt_view(r), final(self).state()) == if_spec(old(self).input(), old(self).state()),
        decreases old(self).remaining(), 9nat,
    {
        self.bump();
        let cond = match self.parse_expr() {
            Some(e) => e,
            None => {
                return None;
            },
        };
        if matches!(self.lookahead, Token::Then) {
            self.bump();
        }
        if !matches!(self.lookahead, Token::LBrace) {
            return None;
        }
        self.bump();
        let then_body = self.parse_body();
        let else_body = self.parse_else();
        Some(Stmt::If { cond, then_body, else_body })
    }

    /// `while cond { ... }`.
    #[verifier::rlimit(100)]
    #[verifier::spinoff_prover]
    fn parse_while(&mut self) -> (r: Option<Stmt>)
        requires
            old(self).wf(),
            old(self).current() is While,
        ensures
            final(self).wf(),
            final(self).input() == old(self).input(),
            final(self).remaining() <= old(self).remaining(),
            r is Some ==> final(self).remaining() < old(self).remaining(),
            (opt_stmt_view(r), final(self).state()) == while_spec(old(self).input(), old(self).state()),
        decreases old(self).remaining(), 9nat,
    {
        self.bump();
        let cond = match self.parse_expr() {
            Some(e) => e,
            None => {
                return None;
            },
        };
        if !matches!(self.lookahead, Token::LBrace) {
            return None;
        }
        self.bump();
        let body = self.parse_body();
        Some(Stmt::While { cond, body })
    }

    /// `for var in range([start,] end) { ... }`; the start is zero when omitted.
    #[verifier::rlimit(100)]
    #[verifier::spinoff_prover]
    fn parse_for(&mut self) -> (r: Option<Stmt>)
        requires
            old(self).wf(),
            old(self).current() is For,
        ensures
            final(self).wf(),
            final(self).input() == old(self).input(),
            final(self).remaining() <= old(self).remaining(),
            r is Some ==> final(self).remaining() < old(self).remaining(),
            (opt_stmt_view(r), final(self).state()) == for_spec(old(self).input(), old(self).state()),
        decreases old(self).remaining(), 9nat,
    {
        self.bump();
        let var = match &self.lookahead {
            Token::Ident(name) => name.clone(),
            _ => {
                return None;
            },
        };
        self.bump();
        if !matches!(self.lookahead, Token::In) {
            return None;
        }
        self.bump();
        if !matches!(self.lookahead, Token::Range) {
            return None;
        }
        self.bump();
        if !matches!(self.lookahead, Token::LParen) {
            return None;
        }
        self.bump();
        self.parse_for_args(var)
    }

    /// The bounds of `for var in range(...)` and the rest of the loop.
    #[verifier::rlimit(100)]
    #[verifier::spinoff_prover]
    fn parse_for_args(&mut self, var: String) -> (r: Option<Stmt>)
        requires
            old(self).wf(),
        ensures
            final(self).wf(),
            final(self).input() == old(self).input(),
            final(self).remaining() <= old(self).remaining(),
            (opt_stmt_view(r), final(self).state()) == for_args(
                old(self).input(),
                var@,
                old(self).state(),
            ),
        decreases old(self).remaining(), 8nat,
    {
        let first_arg = match self.parse_expr() {
            Some(e) => e,
            None => {
                return None;
            },
        };
        if matches!(self.lookahead, Token::Comma) {
            self.bump();
            let second_arg = match self.parse_expr() {
                Some(e) => e,
                None => {
                    return None;
                },
            };
            match self.parse_for_tail() {
                Some(body) => Some(Stmt::ForRange { var, start: first_arg, end: second_arg, body }),
                None => None,
            }
        } else {
            match self.parse_for_tail() {
                Some(body) => Some(Stmt::ForRange { var, start: Expr::Int(0), end: first_arg, body }),
                None => None,
            }
        }
    }

    /// `import "path"`.
    #[verifier::rlimit(100)]
    #[verifier::spinoff_prover]
    fn parse_import(&mut self) -> (r: Option<Stmt>)
        requires
            old(self).wf(),
            old(self).current() is Import,
        ensures
            final(self).wf(),
            final(self).input() == old(self).input(),
            final(self).remaining() <= old(self).remaining(),
            r is Some ==> final(self).remaining() < old(self).remaining(),
            (opt_stmt_view(r), final(self).state()) == import_spec(old(self).input(), old(self).state()),
        decreases old(self).remaining(), 9nat,
    {
        self.bump();
        let p = match &self.lookahead {
            Token::Str(path) => path.clone(),
            _ => {
                return None;
            },
        };
        self.bump();
        if matches!(self.lookahead, Token::Semicolon) {
            self.bump();
        }
        Some(Stmt::Import { path: p })
    }

    /// `use #library`.
    #[verifier::rlimit(100)]
    #[verifier::spinoff_prover]
    fn parse_use(&mut self) -> (r: Option<Stmt>)
        requires
            old(self).wf(),
            old(self).current() is Use,
        ensures
            final(self).wf(),
            final(self).input() == old(self).input(),
            final(self).remaining() <= old(self).remaining(),
            r is Some ==> final(self).remaining() < old(self).remaining(),
            (opt_stmt_view(r), final(self).state()) == use_spec(old(self).input(), old(self).state()),
        decreases old(self).remaining(), 9nat,
    {
        self.bump();
        if !matches!(self.lookahead, Token::Hash) {
            return None;
        }
        self.bump();
        let lib = match &self.lookahead {
            Token::Ident(name) => name.clone(),
            _ => {
                return None;
            },
        };
        self.bump();
        if matches!(self.lookahead, Token::Semicolon) {
            self.bump();
        }
        Some(Stmt::Use { lib })
    }

    /// `let name [: type] = value`.
    #[verifier::rlimit(100)]
    #[verifier::spinoff_prover]
    fn parse_let(&mut self) -> (r: Option<Stmt>)
        requires
            old(self).wf(),
            old(self).current() is Let,
        ensures
            final(self).wf(),
            final(self).input() == old(self).input(),
            final(self).remaining() <= old(self).remaining(),
            r is Some ==> final(self).remaining() < old(self).remaining(),
            (opt_stmt_view(r), final(self).state()) == let_spec(old(self).input(), old(self).state()),
        decreases old(self).remaining(), 9nat,
    {
        self.bump();
        let n = match &self.lookahead {
            Token::Ident(name) => name.clone(),
            _ => {
                return None;
            },
        };
        self.bump();
        let ty = if matches!(self.lookahead, Token::Colon) {
            self.bump();
            self.parse_type()
        } else {
            None
        };
        if !matches!(self.lookahead, Token::Eq) {
            return None;
        }
        self.bump();
        match self.parse_expr() {
            Some(expr) => {
                if matches!(self.lookahead, Token::Semicolon) {
                    self.bump();
                }
                Some(Stmt::Let { name: n, ty, value: expr })
            },
            None => None,
        }
    }

    /// `func name(params) { ... }`.
    #[verifier::rlimit(100)]
    #[verifier::spinoff_prover]
    fn parse_func(&mut self) -> (r: Option<Stmt>)
        requires
            old(self).wf(),
            old(self).current() is Func,
        ensures
            final(self).wf(),
            final(self).input() == old(self).input(),
            final(self).remaining() <= old(self).remaining(),
            r is Some ==> final(self).remaining() < old(self).remaining(),
            (opt_stmt_view(r), final(self).state()) == func_spec(old(self).input(), old(self).state()),
        decreases old(self).remaining(), 9nat,
    {
        self.bump();
        let n = match &self.lookahead {
            Token::Ident(name) => name.clone(),
            _ => {
                return None;
            },
        };
        self.bump();
        if !matches!(self.lookahead, Token::LParen) {
            return None;
        }
        self.bump();
        let ghost s = self.input();
        let ghost target = params_spec(s, self.state(), Seq::empty());
        let mut params: Vec<String> = Vec::new();
        let mut done = false;
        proof {
            assert(names_view(params@) =~= Seq::<Seq<char>>::empty());
        }
        while !done && !matches!(self.lookahead, Token::RParen) && !self.at_eof()
            invariant
                self.wf(),
                self.input() == s,
                s == old(self).input(),
                self.remaining() < old(self).remaining(),
                !done ==> params_spec(s, self.state(), names_view(params@)) == target,
                done ==> target == (names_view(params@), self.state()),
            decreases self.remaining() + if done {
                0int
            } else {
                1int
            },
        {
            let ghost old_params = params@;
            let param = match &self.lookahead {
                Token::Ident(p) => Some(p.clone()),
                _ => None,
            };
            let consumed = match param {
                Some(p) => {
                    params.push(p);
                    proof {
                        assert(names_view(params@) =~= names_view(old_params).push(p@));
                    }
                    self.bump();
                    true
                },
                None => false,
            };
            if matches!(self.lookahead, Token::Comma) {
                self.bump();
            } else if !consumed {
                // A token that is neither a name nor a comma ends the list,
                // as the closing parenthesis would.
                done = true;
            }
        }
        if matches!(self.lookahead, Token::RParen) {
            self.bump();
        }
        if !matches!(self.lookahead, Token::LBrace) {
            return None;
        }
        self.bump();
        let body = self.parse_body();
        Some(Stmt::Func { name: n, params, body })
    }

    /// `return [value]`.
    #[verifier::rlimit(100)]
    #[verifier::spinoff_prover]
    fn parse_return(&mut self) -> (r: Option<Stmt>)
        requires
            old(self).wf(),
            old(self).current() is Return,
        ensures
            final(self).wf(),
            final(self).input() == old(self).input(),
            final(self).remaining() <= old(self).remaining(),
            r is Some ==> final(self).remaining() < old(self).remaining(),
            r is Some,
            (opt_stmt_view(r), final(self).state()) == return_spec(old(self).input(), old(self).state()),
        decreases old(self).remaining(), 9nat,
    {
        self.bump();
        let e = self.parse_expr();
        if matches!(self.lookahead, Token::Semicolon) {
            self.bump();
        }
        Some(Stmt::Return(e))
    }

    /// `print(value)`: a call of `print` with one argument, zero when the argument is missing.
    #[verifier::rlimit(100)]
    #[verifier::spinoff_prover]
    fn parse_print(&mut self) -> (r: Option<Stmt>)
        requires
            old(self).wf(),
            old(self).current() is Print,
        ensures
            final(self).wf(),
            final(self).input() == old(self).input(),
            final(self).remaining() <= old(self).remaining(),
            r is Some ==> final(self).remaining() < old(self).remaining(),
            (opt_stmt_view(r), final(self).state()) == print_spec(old(self).input(), old(self).state()),
        decreases old(self).remaining(), 9nat,
    {
        let ghost s0 = self.input();
        let ghost st0 = self.state();
        self.bump();
        if !matches!(self.lookahead, Token::LParen) {
            return None;
        }
        self.bump();
        let ghost st2 = self.state();
        let pe = self.parse_expr();
        let ghost ev = opt_expr_view(pe);
        let ghost st3 = self.state();
        let expr = match pe {
            Some(e) => e,
            None => Expr::Int(0),
        };
        if matches!(self.lookahead, Token::RParen) {
            self.bump();
        }
        if matches!(self.lookahead, Token::Semicolon) {
            self.bump();
        }
        let name = "print".to_owned();
        let ghost e0 = expr;
        let mut args: Vec<Expr> = Vec::new();
        args.push(expr);
        proof {
            assert(args@ =~= seq![e0]);
            assert(seq![e0].drop_last() =~= Seq::<Expr>::empty());
            assert(exprs_view(seq![e0]) == exprs_view(Seq::<Expr>::empty()).push(expr_view(e0)));
            assert(exprs_view(args@) =~= seq![expr_view(e0)]);
        }
        let r = Stmt::Expr(Expr::Call { name, args });
        proof {
            let argv = match ev {
                Some(x) => x,
                None => ExprV::Int(0),
            };
            assert(expr_view(e0) == argv);
            assert(measure(s0, st2) < measure(s0, st0));
            assert(parse_expr_spec(s0, st2) == (ev, st3));
            assert(stmt_view(r) == StmtV::Expr(ExprV::Call { name: "print"@, args: seq![argv] }));
            assert(self.state() == close(s0, close(s0, st3, TokenView::RParen), TokenView::Semicolon));
            assert(print_spec(s0, st0) == (Some(StmtV::Expr(ExprV::Call { name: "print"@, args: seq![argv] })), self.state()));
        }
        Some(r)
    }

    /// `set name = value`.
    #[verifier::rlimit(100)]
    #[verifier::spinoff_prover]
    fn parse_set(&mut self) -> (r: Option<Stmt>)
        requires
            old(self).wf(),
            old(self).current() is SetKw,
        ensures
            final(self).wf(),
            final(self).input() == old(self).input(),
            final(self).remaining() <= old(self).remaining(),
            r is Some ==> final(self).remaining() < old(self).remaining(),
            (opt_stmt_view(r), final(self).state()) == set_spec(old(self).input(), old(self).state()),
        decreases old(self).remaining(), 9nat,
    {
        self.bump();
        let n = match &self.lookahead {
            Token::Ident(name) => name.clone(),
            _ => {
                return None;
            },
        };
        self.bump();
        if !matches!(self.lookahead, Token::Eq) {
            return None;
        }
        self.bump();
        match self.parse_expr() {
            Some(expr) => {
                if matches!(self.lookahead, Token::Semicolon) {
                    self.bump();
                }
                Some(Stmt::Assign { name: n, value: expr })
            },
            None => None,
        }
    }

    /// An expression statement, or `name = value` when the expression is a bare name followed by `=`.
    #[verifier::rlimit(100)]
    #[verifier::spinoff_prover]
    fn parse_expr_stmt(&mut self) -> (r: Option<Stmt>)
        requires
            old(self).wf(),
        ensures
            final(self).wf(),
            final(self).input() == old(self).input(),
            final(self).remaining() <= old(self).remaining(),
            r is Some ==> final(self).remaining() < old(self).remaining(),
            (opt_stmt_view(r), final(self).state()) == expr_stmt_spec(old(self).input(), old(self).state()),
        decreases old(self).remaining(), 9nat,
    {
        let e = match self.parse_expr() {
            Some(e) => e,
            None => {
                return None;
            },
        };
        if let Expr::Ident(name) = &e {
            if matches!(self.lookahead, Token::Eq) {
                let target = name.clone();
                self.bump();
                if let Some(expr) = self.parse_expr() {
                    if matches!(self.lookahead, Token::Semicolon) {
                        self.bump();
                    }
                    return Some(Stmt::Assign { name: target, value: expr });
                }
            }
        }
        if matches!(self.lookahead, Token::Semicolon) {
            self.bump();
        }
        Some(Stmt::Expr(e))
    }

    fn comparison_token(&self) -> (r: Option<BinOp>)
        ensures
            r == comparison_op(self.current()),
    {
        match &self.lookahead {
            Token::Lt => Some(BinOp::Lt),
            Token::Gt => Some(BinOp::Gt),
            Token::LtEq => Some(BinOp::LtEq),
            Token::GtEq => Some(BinOp::GtEq),
            Token::EqEq => Some(BinOp::EqEq),
            Token::NotEq => Some(BinOp::NotEq),
            _ => None,
        }
    }

    fn additive_token(&self) -> (r: Option<BinOp>)
        ensures
            r == additive_op(self.current()),
    {
        match &self.lookahead {
            Token::Plus => Some(BinOp::Add),
            Token::Minus => Some(BinOp::Sub),
            _ => None,
        }
    }

    fn multiplicative_token(&self) -> (r: Option<BinOp>)
        ensures
            r == multiplicative_op(self.current()),
    {
        match &self.lookahead {
            Token::Star => Some(BinOp::Mul),
            Token::Slash => Some(BinOp::Div),
            _ => None,
        }
    }

    /// Parses an expression; `None` where none starts here.
    fn parse_expr(&mut self) -> (r: Option<Expr>)
        requires
            old(self).wf(),
        ensures
            final(self).wf(),
            final(self).input() == old(self).input(),
            final(self).remaining() <= old(self).remaining(),
            r is Some ==> final(self).remaining() < old(self).remaining(),
            !starts_expr(old(self).current()) ==> r is None && *final(self) == *old(self),
            r matches Some(Expr::Ident(_)) ==> old(self).current() is Ident || old(self).current() is LParen,
            (opt_expr_view(r), final(self).state()) == parse_expr_spec(old(self).input(), old(self).state()),
        decreases old(self).remaining(), 7nat,
    {
        self.parse_comparison()
    }

    /// Relations, loosest: `a < b`, `a == b`, ... chained to the left.
    fn parse_comparison(&mut self) -> (r: Option<Expr>)
        requires
            old(self).wf(),
        ensures
            final(self).wf(),
            final(self).input() == old(self).input(),
            final(self).remaining() <= old(self).remaining(),
            r is Some ==> final(self).remaining() < old(self).remaining(),
            !starts_expr(old(self).current()) ==> r is None && *final(self) == *old(self),
            r matches Some(Expr::Ident(_)) ==> old(self).current() is Ident || old(self).current() is LParen,
            (opt_expr_view(r), final(self).state()) == parse_comparison_spec(old(self).input(), old(self).state()),
        decreases old(self).remaining(), 6nat,
    {
        let ghost s = self.input();
        let ghost st0 = self.state();
        let mut left = match self.parse_additive() {
            Some(e) => e,
            None => {
                return None;
            },
        };
        let ghost target = parse_comparison_spec(s, st0);
        proof {
            assert(target == comparison_rest(s, self.state(), expr_view(left)));
        }
        loop
            invariant
                self.wf(),
                self.input() == s,
                s == old(self).input(),
                self.remaining() < old(self).remaining(),
                left matches Expr::Ident(_) ==> old(self).current() is Ident || old(self).current() is LParen,
                starts_expr(old(self).current()),
                target == parse_comparison_spec(old(self).input(), old(self).state()),
                comparison_rest(s, self.state(), expr_view(left)) == target,
            ensures
                comparison_op(self.current()) is None,
            decreases self.remaining(),
        {
            let op = match self.comparison_token() {
                Some(op) => op,
                None => {
                    break;
                },
            };
            let ghost st_prev = self.state();
            let ghost left_v = expr_view(left);
            proof {
                assert(comparison_op(st_prev.tok) == Some(op));
            }
            self.bump();
            let right = match self.parse_additive() {
                Some(e) => e,
                None => {
                    return None;
                },
            };
            left = Expr::BinaryOp { op, left: Box::new(left), right: Box::new(right) };
            proof {
                assert(expr_view(left) == ExprV::BinaryOp {
                    op,
                    left: Box::new(left_v),
                    right: Box::new(expr_view(right)),
                });
            }
        }
        Some(left)
    }

    /// Sums and differences, chained to the left.
    fn parse_additive(&mut self) -> (r: Option<Expr>)
        requires
            old(self).wf(),
        ensures
            final(self).wf(),
            final(self).input() == old(self).input(),
            final(self).remaining() <= old(self).remaining(),
            r is Some ==> final(self).remaining() < old(self).remaining(),
            !starts_expr(old(self).current()) ==> r is None && *final(self) == *old(self),
            r matches Some(Expr::Ident(_)) ==> old(self).current() is Ident || old(self).current() is LParen,
            (opt_expr_view(r), final(self).state()) == parse_additive_spec(old(self).input(), old(self).state()),
        decreases old(self).remaining(), 5nat,
    {
        let ghost s = self.input();
        let ghost st0 = self.state();
        let mut left = match self.parse_multiplicative() {
            Some(e) => e,
            None => {
                return None;
            },
        };
        let ghost target = parse_additive_spec(s, st0);
        proof {
            assert(target == additive_rest(s, self.state(), expr_view(left)));
        }
        loop
            invariant
                self.wf(),
                self.input() == s,
                s == old(self).input(),
                self.remaining() < old(self).remaining(),
                left matches Expr::Ident(_) ==> old(self).current() is Ident || old(self).current() is LParen,
                starts_expr(old(self).current()),
                target == parse_additive_spec(old(self).input(), old(self).state()),
                additive_rest(s, self.state(), expr_view(left)) == target,
            ensures
                additive_op(self.current()) is None,
            decreases self.remaining(),
        {
            let op = match self.additive_token() {
                Some(op) => op,
                None => {
                    break;
                },
            };
            let ghost st_prev = self.state();
            let ghost left_v = expr_view(left);
            proof {
                assert(additive_op(st_prev.tok) == Some(op));
            }
            self.bump();
            let right = match self.parse_multiplicative() {
                Some(e) => e,
                None => {
                    return None;
                },
            };
            left = Expr::BinaryOp { op, left: Box::new(left), right: Box::new(right) };
            proof {
                assert(expr_view(left) == ExprV::BinaryOp {
                    op,
                    left: Box::new(left_v),
                    right: Box::new(expr_view(right)),
                });
            }
        }
        Some(left)
    }

    /// Products and quotients, chained to the left.
    fn parse_multiplicative(&mut self) -> (r: Option<Expr>)
        requires
            old(self).wf(),
        ensures
            final(self).wf(),
            final(self).input() == old(self).input(),
            final(self).remaining() <= old(self).remaining(),
            r is Some ==> final(self).remaining() < old(self).remaining(),
            !starts_expr(old(self).current()) ==> r is None && *final(self) == *old(self),
            r matches Some(Expr::Ident(_)) ==> old(self).current() is Ident || old(self).current() is LParen,
            (opt_expr_view(r), final(self).state()) == parse_multiplicative_spec(old(self).input(), old(self).state()),
        decreases old(self).remaining(), 4nat,
    {
        let ghost s = self.input();
        let ghost st0 = self.state();
        let mut left = match self.parse_postfix() {
            Some(e) => e,
            None => {
                return None;
            },
        };
        let ghost target = parse_multiplicative_spec(s, st0);
        proof {
            assert(target == multiplicative_rest(s, self.state(), expr_view(left)));
        }
        loop
            invariant
                self.wf(),
                self.input() == s,
                s == old(self).input(),
                self.remaining() < old(self).remaining(),
                left matches Expr::Ident(_) ==> old(self).current() is Ident || old(self).current() is LParen,
                starts_expr(old(self).current()),
                target == parse_multiplicative_spec(old(self).input(), old(self).state()),
                multiplicative_rest(s, self.state(), expr_view(left)) == target,
            ensures
                multiplicative_op(self.current()) is None,
            decreases self.remaining(),
        {
            let op = match self.multiplicative_token() {
                Some(op) => op,
                None => {
                    break;
                },
            };
            let ghost st_prev = self.state();
            let ghost left_v = expr_view(left);
            proof {
                assert(multiplicative_op(st_prev.tok) == Some(op));
            }
            self.bump();
            let right = match self.parse_postfix() {
                Some(e) => e,
                None => {
                    return None;
                },
            };
            left = Expr::BinaryOp { op, left: Box::new(left), right: Box::new(right) };
            proof {
                assert(expr_view(left) == ExprV::BinaryOp {
                    op,
                    left: Box::new(left_v),
                    right: Box::new(expr_view(right)),
                });
            }
        }
        Some(left)
    }

    /// A primary expression followed by any number of `[index]`.
    fn parse_postfix(&mut self) -> (r: Option<Expr>)
        requires
            old(self).wf(),
        ensures
            final(self).wf(),
            final(self).input() == old(self).input(),
            final(self).remaining() <= old(self).remaining(),
            r is Some ==> final(self).remaining() < old(self).remaining(),
            !starts_expr(old(self).current()) ==> r is None && *final(self) == *old(self),
            r matches Some(Expr::Ident(_)) ==> old(self).current() is Ident || old(self).current() is LParen,
            (opt_expr_view(r), final(self).state()) == parse_postfix_spec(old(self).input(), old(self).state()),
        decreases old(self).remaining(), 3nat,
    {
        let ghost s = self.input();
        let ghost st0 = self.state();
        let mut expr = match self.parse_primary() {
            Some(e) => e,
            None => {
                return None;
            },
        };
        let ghost target = parse_postfix_spec(s, st0);
        proof {
            assert(target == postfix_rest(s, self.state(), expr_view(expr)));
        }
        while matches!(self.lookahead, Token::LBracket)
            invariant
                self.wf(),
                self.input() == s,
                s == old(self).input(),
                self.remaining() < old(self).remaining(),
                expr matches Expr::Ident(_) ==> old(self).current() is Ident || old(self).current() is LParen,
                starts_expr(old(self).current()),
                target == parse_postfix_spec(old(self).input(), old(self).state()),
                postfix_rest(s, self.state(), expr_view(expr)) == target,
            decreases self.remaining(),
        {
            let ghost expr_v = expr_view(expr);
            self.bump();
            let index = match self.parse_expr() {
                Some(e) => e,
                None => {
                    return None;
                },
            };
            if matches!(self.lookahead, Token::RBracket) {
                self.bump();
            }
            expr = Expr::ArrayAccess { array: Box::new(expr), index: Box::new(index) };
            proof {
                assert(expr_view(expr) == ExprV::ArrayAccess {
                    array: Box::new(expr_v),
                    index: Box::new(expr_view(index)),
                });
            }
        }
        Some(expr)
    }

    /// Expressions separated by commas up to `closer` (`]` or `)`), which
    /// is consumed; the opening bracket is consumed already. A token that is
    /// neither an item nor a comma ends the list.
    fn parse_list(&mut self, closer_is_bracket: bool) -> (r: Vec<Expr>)
        requires
            old(self).wf(),
        ensures
            final(self).wf(),
            final(self).input() == old(self).input(),
            final(self).remaining() <= old(self).remaining(),
            (exprs_view(r@), final(self).state()) == list_spec(
                old(self).input(),
                old(self).state(),
                Seq::empty(),
                if closer_is_bracket {
                    TokenView::RBracket
                } else {
                    TokenView::RParen
                },
            ),
        decreases old(self).remaining(), 9nat,
    {
        let ghost s = self.input();
        let ghost closer = if closer_is_bracket {
            TokenView::RBracket
        } else {
            TokenView::RParen
        };
        let ghost target = list_spec(s, self.state(), Seq::empty(), closer);
        let mut items: Vec<Expr> = Vec::new();
        let mut done = false;
        proof {
            assert(exprs_view(items@) =~= Seq::<ExprV>::empty());
        }
        while !done && !self.at_closer(closer_is_bracket) && !self.at_eof()
            invariant
                self.wf(),
                self.input() == s,
                s == old(self).input(),
                self.remaining() <= old(self).remaining(),
                closer == (if closer_is_bracket {
                    TokenView::RBracket
                } else {
                    TokenView::RParen
                }),
                !done ==> list_spec(s, self.state(), exprs_view(items@), closer) == target,
                done ==> target == (exprs_view(items@), close(s, self.state(), closer)),
            decreases self.remaining() + if done {
                0int
            } else {
                1int
            },
        {
            let ghost st = self.state();
            let ghost acc = exprs_view(items@);
            let e = self.parse_expr();
            let got = e.is_some();
            let ghost e_v = opt_expr_view(e);
            let ghost old_items = items@;
            match e {
                Some(x) => {
                    items.push(x);
                    proof {
                        assert(items@.drop_last() =~= old_items);
                        assert(exprs_view(items@) == push_some(acc, e_v));
                    }
                },
                None => {
                    proof {
                        assert(exprs_view(items@) == push_some(acc, e_v));
                    }
                },
            }
            if matches!(self.lookahead, Token::Comma) {
                self.bump();
            } else if !got {
                done = true;
            }
        }
        if self.at_closer(closer_is_bracket) {
            self.bump();
        }
        items
    }

    fn at_closer(&self, closer_is_bracket: bool) -> (r: bool)
        ensures
            r == (self.current() == if closer_is_bracket {
                TokenView::RBracket
            } else {
                TokenView::RParen
            }),
    {
        if closer_is_bracket {
            matches!(self.lookahead, Token::RBracket)
        } else {
            matches!(self.lookahead, Token::RParen)
        }
    }

    /// An integer or string literal, a name or a call `name(args)`, a
    /// parenthesized expression, or an array literal `[a, b]`.
    fn parse_primary(&mut self) -> (r: Option<Expr>)
        requires
            old(self).wf(),
        ensures
            final(self).wf(),
            final(self).input() == old(self).input(),
            final(self).remaining() <= old(self).remaining(),
            r is Some ==> final(self).remaining() < old(self).remaining(),
            !starts_expr(old(self).current()) ==> r is None && *final(self) == *old(self),
            r matches Some(Expr::Ident(_)) ==> old(self).current() is Ident || old(self).current() is LParen,
            (opt_expr_view(r), final(self).state()) == parse_primary_spec(old(self).input(), old(self).state()),
            old(self).current() matches TokenView::Int(v) ==> r == Some(Expr::Int(v)),
        decreases old(self).remaining(), 2nat,
    {
        match &self.lookahead {
            Token::Int(v) => {
                let val = *v;
                self.bump();
                Some(Expr::Int(val))
            },
            Token::Str(t) => {
                let v = t.clone();
                self.bump();
                Some(Expr::Str(v))
            },
            Token::LBracket => {
                self.bump();
                let elements = self.parse_list(true);
                Some(Expr::ArrayLiteral(elements))
            },
            Token::Ident(name) => {
                let n = name.clone();
                self.bump();
                if matches!(self.lookahead, Token::LParen) {
                    self.bump();
                    let args = self.parse_list(false);
                    return Some(Expr::Call { name: n, args });
                }
                Some(Expr::Ident(n))
            },
            Token::LParen => {
                self.bump();
                let e = self.parse_expr();
                if matches!(self.lookahead, Token::RParen) {
                    self.bump();
                }
                e
            },
            _ => None,
        }
    }
}

} // verus!
