use vstd::prelude::*;
use vstd::string::StringExecFns;

use crate::ast::{BinOp, Expr, Program, Stmt};
use crate::consts::{
    eval_const_expr_with_ctx, fold, int_constants, literal_strs, lookup, resolve_int_constants,
    resolve_str_constants, IntTable, StrTable,
};
use crate::text::{
    add_text, escape, index_of, is_text, int_text, int_to_text, lemma_add_text_no_duplicates, nat_text,
    push_escaped, push_int, push_nat, TextList,
};

verus! {

broadcast use vstd::string::group_string_axioms;

/// The instructions that combine `rax` (left) and `rbx` (right) by `op`.
pub open spec fn op_code(op: BinOp) -> Seq<char> {
    match op {
        BinOp::Add => "    add rax, rbx\n"@,
        BinOp::Sub => "    sub rax, rbx\n"@,
        BinOp::Mul => "    imul rax, rbx\n"@,
        BinOp::Div => "    cqo\n    idiv rbx\n"@,
        BinOp::Lt => "    cmp rax, rbx\n    setl al\n    movzx rax, al\n"@,
        BinOp::Gt => "    cmp rax, rbx\n    setg al\n    movzx rax, al\n"@,
        BinOp::LtEq => "    cmp rax, rbx\n    setle al\n    movzx rax, al\n"@,
        BinOp::GtEq => "    cmp rax, rbx\n    setge al\n    movzx rax, al\n"@,
        BinOp::EqEq => "    cmp rax, rbx\n    sete al\n    movzx rax, al\n"@,
        BinOp::NotEq => "    cmp rax, rbx\n    setne al\n    movzx rax, al\n"@,
    }
}

/// Reads up to 255 bytes of standard input into the scratch buffer; leaves
/// the count in `rbx` and the buffer's address in `rax`.
pub open spec fn input_expr_code() -> Seq<char> {
    "    mov rax, 0\n    mov rdi, 0\n    lea rsi, [rip + input_buffer]\n    mov rdx, 255\n    syscall\n    mov rbx, rax\n    lea rax, [rip + input_buffer]\n    mov rax, rax\n    mov rax, rax\n"@
}

/// Whether `e` is a call of the `input` built-in, with no arguments.
pub open spec fn is_input_call(e: Expr) -> bool {
    e matches Expr::Call { name, args } && name@ == "input"@ && args.len() == 0
}

fn input_call(e: &Expr) -> (r: bool)
    ensures
        r == is_input_call(*e),
{
    match e {
        Expr::Call { name, args } => is_text(name, "input") && args.len() == 0,
        _ => false,
    }
}

/// The instructions that leave the value of `e` in `rax`. Array forms and
/// calls other than `input()` leave zero.
pub open spec fn expr_code(e: Expr, strs: Seq<Seq<char>>) -> Seq<char>
    decreases e,
{
    match e {
        Expr::Int(v) => "    mov rax, "@ + int_text(v as int) + "\n"@,
        Expr::Ident(n) => "    mov rax, qword ptr [rip + "@ + n@ + "]\n"@,
        Expr::BinaryOp { op, left, right } => expr_code(*left, strs) + "    push rax\n"@
            + expr_code(*right, strs) + "    mov rbx, rax\n    pop rax\n"@ + op_code(op),
        Expr::Str(s) => match index_of(strs, s@) {
            Some(i) => "    lea rax, [rip + Lmsg"@ + nat_text(i as nat) + "]\n"@,
            None => "    mov rax, 0\n"@,
        },
        Expr::Call { name, args } => if name@ == "input"@ && args.len() == 0 {
            input_expr_code()
        } else {
            "    mov rax, 0\n"@
        },
        _ => "    mov rax, 0\n"@,
    }
}

fn push_op(out: &mut String, op: BinOp)
    ensures
        final(out)@ == old(out)@ + op_code(op),
{
    match op {
        BinOp::Add => out.append("    add rax, rbx\n"),
        BinOp::Sub => out.append("    sub rax, rbx\n"),
        BinOp::Mul => out.append("    imul rax, rbx\n"),
        BinOp::Div => out.append("    cqo\n    idiv rbx\n"),
        BinOp::Lt => out.append("    cmp rax, rbx\n    setl al\n    movzx rax, al\n"),
        BinOp::Gt => out.append("    cmp rax, rbx\n    setg al\n    movzx rax, al\n"),
        BinOp::LtEq => out.append("    cmp rax, rbx\n    setle al\n    movzx rax, al\n"),
        BinOp::GtEq => out.append("    cmp rax, rbx\n    setge al\n    movzx rax, al\n"),
        BinOp::EqEq => out.append("    cmp rax, rbx\n    sete al\n    movzx rax, al\n"),
        BinOp::NotEq => out.append("    cmp rax, rbx\n    setne al\n    movzx rax, al\n"),
    }
}

/// Appends the instructions that leave the value of `e` in `rax`.
pub fn gen_expr(e: &Expr, out: &mut String, strs: &TextList)
    ensures
        final(out)@ == old(out)@ + expr_code(*e, strs@),
    decreases e,
{
    match e {
        Expr::Int(v) => {
            out.append("    mov rax, ");
            push_int(out, *v);
            out.append("\n");
        },
        Expr::Ident(name) => {
            out.append("    mov rax, qword ptr [rip + ");
            out.append(name.as_str());
            out.append("]\n");
        },
        Expr::BinaryOp { op, left, right } => {
            gen_expr(left, out, strs);
            out.append("    push rax\n");
            gen_expr(right, out, strs);
            out.append("    mov rbx, rax\n    pop rax\n");
            push_op(out, *op);
        },
        Expr::Str(s) => {
            match strs.position(s) {
                Some(i) => {
                    out.append("    lea rax, [rip + Lmsg");
                    push_nat(out, i as u64);
                    out.append("]\n");
                },
                None => out.append("    mov rax, 0\n"),
            }
        },
        Expr::Call { name, args } => {
            if is_text(name, "input") && args.len() == 0 {
                out.append(
                    "    mov rax, 0\n    mov rdi, 0\n    lea rsi, [rip + input_buffer]\n    mov rdx, 255\n    syscall\n    mov rbx, rax\n    lea rax, [rip + input_buffer]\n    mov rax, rax\n    mov rax, rax\n",
                );
            } else {
                out.append("    mov rax, 0\n");
            }
        },
        _ => out.append("    mov rax, 0\n"),
    }
    proof {
        assert(final(out)@ =~= old(out)@ + expr_code(*e, strs@));
    }
}

/// What code generation knows of the whole program before it emits the
/// instructions.
pub struct CodegenContext {
    /// The read-only data section: each text once, first seen first.
    pub strs: TextList,
    /// The integer constants.
    pub ints: IntTable,
    /// The string constants.
    pub str_consts: StrTable,
    /// The names that `let` statements bind, each once.
    pub let_names: TextList,
    /// The names that `let name = input()` statements bind, each once.
    pub input_names: TextList,
}

/// The mathematical value of a code generation context.
pub struct GenView {
    pub strs: Seq<Seq<char>>,
    pub ints: Seq<(Seq<char>, i64)>,
    pub str_consts: Seq<(Seq<char>, Seq<char>)>,
    pub let_names: Seq<Seq<char>>,
    pub input_names: Seq<Seq<char>>,
}

impl View for CodegenContext {
    type V = GenView;

    open spec fn view(&self) -> GenView {
        GenView {
            strs: self.strs@,
            ints: self.ints@,
            str_consts: self.str_consts@,
            let_names: self.let_names@,
            input_names: self.input_names@,
        }
    }
}

/// Whether `e` reads one of `names`.
pub open spec fn uses_let(e: Expr, names: Seq<Seq<char>>) -> bool
    decreases e,
{
    match e {
        Expr::Ident(n) => names.contains(n@),
        Expr::BinaryOp { left, right, .. } => uses_let(*left, names) || uses_let(*right, names),
        Expr::Call { args, .. } => uses_let_list(args@, names),
        _ => false,
    }
}

/// Whether one of `es` reads one of `names`.
pub open spec fn uses_let_list(es: Seq<Expr>, names: Seq<Seq<char>>) -> bool
    decreases es,
{
    if es.len() == 0 {
        false
    } else {
        uses_let(es[0], names) || uses_let_list(es.drop_first(), names)
    }
}

/// Whether `e` reads a name that a `let` binds.
pub fn expr_uses_let(e: &Expr, names: &TextList) -> (r: bool)
    ensures
        r == uses_let(*e, names@),
    decreases e,
{
    match e {
        Expr::Ident(n) => names.contains(n),
        Expr::BinaryOp { left, right, .. } => expr_uses_let(left, names) || expr_uses_let(
            right,
            names,
        ),
        Expr::Call { args, .. } => list_uses_let(args, names),
        _ => false,
    }
}

/// Whether one of `args` reads a name that a `let` binds.
fn list_uses_let(args: &Vec<Expr>, names: &TextList) -> (r: bool)
    ensures
        r == uses_let_list(args@, names@),
    decreases args,
{
    let mut i: usize = 0;
    proof {
        assert(args@.skip(0) =~= args@);
    }
    while i < args.len()
        invariant
            i <= args@.len(),
            uses_let_list(args@, names@) == uses_let_list(args@.skip(i as int), names@),
        decreases args@.len() - i,
    {
        proof {
            assert(args@.skip(i as int).drop_first() =~= args@.skip(i + 1));
            assert(decreases_to!(*args => args[i as int]));
        }
        if expr_uses_let(&args[i], names) {
            return true;
        }
        i = i + 1;
    }
    proof {
        assert(args@.skip(i as int) =~= Seq::<Expr>::empty());
    }
    false
}

/// The number of bytes of `t` in UTF-8, as a machine word.
pub open spec fn byte_len(t: Seq<char>) -> nat {
    vstd::utf8::encode_utf8(t).len() as usize as nat
}

/// Points `rsi` and `rdx` at the data entry for `t`, or at nothing when the
/// data section does not hold `t`.
pub open spec fn data_ref(strs: Seq<Seq<char>>, t: Seq<char>) -> Seq<char> {
    match index_of(strs, t) {
        Some(i) => "    lea rsi, [rip + Lmsg"@ + nat_text(i as nat) + "]\n    mov rdx, "@ + nat_text(
            byte_len(t),
        ) + "\n"@,
        None => "    mov rsi, 0\n    mov rdx, 0\n"@,
    }
}

/// Writes the value in `rax`, offset by the digit zero, as one byte into
/// the scratch buffer and points `rsi` and `rdx` at it. Only values from 0
/// to 9 come out as their digit.
pub open spec fn digit_code() -> Seq<char> {
    "    lea rsi, [rip + input_buffer]\n    mov rbx, rax\n    add rbx, '0'\n    mov byte ptr [rsi], bl\n    mov rdx, 1\n"@
}

/// How `print` finds the bytes to write for its argument: a string
/// literal, a string constant, an integer literal or constant, or a folded
/// operation writes its data entry; a name with an input buffer writes
/// what was read into it; any other `let` name or operation is written as
/// one digit.
pub open spec fn print_operand(arg: Expr, c: GenView) -> Seq<char> {
    match arg {
        Expr::Str(s) => data_ref(c.strs, s@),
        Expr::Ident(id) => if c.input_names.contains(id@) {
            "    mov rax, 1\n    mov rdi, 1\n    lea rsi, [rip + "@ + id@
                + "_buf]\n    mov rdx, qword ptr [rip + "@ + id@ + "_len]\n"@
        } else if lookup(c.str_consts, id@) is Some {
            data_ref(c.strs, lookup(c.str_consts, id@)->0)
        } else if lookup(c.ints, id@) is Some {
            data_ref(c.strs, int_text(lookup(c.ints, id@)->0 as int))
        } else if c.let_names.contains(id@) {
            "    mov rax, qword ptr [rip + "@ + id@ + "]\n"@ + digit_code()
        } else {
            "    mov rsi, 0\n    mov rdx, 0\n"@
        },
        Expr::Int(v) => data_ref(c.strs, int_text(v as int)),
        Expr::BinaryOp { .. } => match fold(arg, c.ints) {
            Some(v) => data_ref(c.strs, int_text(v as int)),
            None => expr_code(arg, c.strs) + digit_code(),
        },
        _ => "    mov rsi, 0\n    mov rdx, 0\n"@,
    }
}

/// The instructions of `print(arg)`: one write to standard output.
pub open spec fn print_code(arg: Expr, c: GenView) -> Seq<char> {
    "    mov rax, 1\n    mov rdi, 1\n"@ + print_operand(arg, c)
        + "    mov rax, 1\n    mov rdi, 1\n    syscall\n"@
}

fn push_data_ref(out: &mut String, strs: &TextList, t: &String)
    ensures
        final(out)@ == old(out)@ + data_ref(strs@, t@),
{
    match strs.position(t) {
        Some(i) => {
            out.append("    lea rsi, [rip + Lmsg");
            push_nat(out, i as u64);
            out.append("]\n    mov rdx, ");
            push_nat(out, t.as_str().len() as u64);
            out.append("\n");
        },
        None => out.append("    mov rsi, 0\n    mov rdx, 0\n"),
    }
    proof {
        assert(final(out)@ =~= old(out)@ + data_ref(strs@, t@));
    }
}

fn push_print(out: &mut String, arg: &Expr, c: &CodegenContext)
    ensures
        final(out)@ == old(out)@ + print_code(*arg, c@),
{
    out.append("    mov rax, 1\n    mov rdi, 1\n");
    let ghost mid = out@;
    match arg {
        Expr::Str(s) => push_data_ref(out, &c.strs, s),
        Expr::Ident(id) => {
            if c.input_names.contains(id) {
                out.append("    mov rax, 1\n    mov rdi, 1\n    lea rsi, [rip + ");
                out.append(id.as_str());
                out.append("_buf]\n    mov rdx, qword ptr [rip + ");
                out.append(id.as_str());
                out.append("_len]\n");
            } else if let Some(sv) = c.str_consts.get(id) {
                push_data_ref(out, &c.strs, sv);
            } else if let Some(iv) = c.ints.get(id) {
                let t = int_to_text(iv);
                push_data_ref(out, &c.strs, &t);
            } else if c.let_names.contains(id) {
                out.append("    mov rax, qword ptr [rip + ");
                out.append(id.as_str());
                out.append("]\n");
                out.append(
                    "    lea rsi, [rip + input_buffer]\n    mov rbx, rax\n    add rbx, '0'\n    mov byte ptr [rsi], bl\n    mov rdx, 1\n",
                );
            } else {
                out.append("    mov rsi, 0\n    mov rdx, 0\n");
            }
        },
        Expr::Int(v) => {
            let t = int_to_text(*v);
            push_data_ref(out, &c.strs, &t);
        },
        Expr::BinaryOp { .. } => {
            match eval_const_expr_with_ctx(arg, &c.ints) {
                Some(v) => {
                    let t = int_to_text(v);
                    push_data_ref(out, &c.strs, &t);
                },
                None => {
                    gen_expr(arg, out, &c.strs);
                    out.append(
                        "    lea rsi, [rip + input_buffer]\n    mov rbx, rax\n    add rbx, '0'\n    mov byte ptr [rsi], bl\n    mov rdx, 1\n",
                    );
                },
            }
        },
        _ => out.append("    mov rsi, 0\n    mov rdx, 0\n"),
    }
    proof {
        assert(out@ =~= mid + print_operand(*arg, c@));
    }
    out.append("    mov rax, 1\n    mov rdi, 1\n    syscall\n");
    proof {
        assert(final(out)@ =~= old(out)@ + print_code(*arg, c@));
    }
}

/// Stores `rax` into the cell of `name`.
pub open spec fn store_code(name: Seq<char>) -> Seq<char> {
    "    mov qword ptr [rip + "@ + name + "], rax\n"@
}

/// Reads up to 255 bytes of standard input into the buffer of `name` and
/// stores the count in its length cell.
pub open spec fn input_let_code(name: Seq<char>) -> Seq<char> {
    "    mov rax, 0\n    mov rdi, 0\n    lea rsi, [rip + "@ + name
        + "_buf]\n    mov rdx, 255\n    syscall\n    mov qword ptr [rip + "@ + name + "_len], rax\n"@
}

/// The instructions of `name = value`: a read into the buffer of `name`
/// when `value` is `input()` and `name` has an input buffer, else the value
/// stored into the cell of `name`.
pub open spec fn assign_code(name: Seq<char>, value: Expr, c: GenView) -> Seq<char> {
    if is_input_call(value) && c.input_names.contains(name) {
        input_let_code(name)
    } else {
        expr_code(value, c.strs) + store_code(name)
    }
}

/// The instructions of `let name = value`.
pub open spec fn let_code(name: Seq<char>, value: Expr, c: GenView) -> Seq<char> {
    if is_input_call(value) {
        input_let_code(name)
    } else {
        match fold(value, c.ints) {
            Some(v) => "    mov rax, "@ + int_text(v as int) + "\n"@ + store_code(name),
            None => expr_code(value, c.strs) + store_code(name),
        }
    }
}

/// Jumps to `target` when `cond` is zero. A condition that folds and reads
/// no `let` binding is decided here: an unconditional jump when it is zero,
/// nothing otherwise.
pub open spec fn branch_code(cond: Expr, c: GenView, target: Seq<char>) -> Seq<char> {
    if fold(cond, c.ints) is Some && !uses_let(cond, c.let_names) {
        if fold(cond, c.ints)->0 == 0 {
            "    jmp "@ + target + "\n"@
        } else {
            Seq::empty()
        }
    } else {
        expr_code(cond, c.strs) + "    cmp rax, 0\n    je "@ + target + "\n"@
    }
}

/// A label made of `prefix` and the number `n`.
pub open spec fn label_text(prefix: Seq<char>, n: u64) -> Seq<char> {
    prefix + nat_text(n as nat)
}

/// The instructions of one statement, with labels numbered from `n` on,
/// and the next free label number. Statements that this generator does not
/// lower give no instructions.
pub open spec fn stmt_code(s: Stmt, c: GenView, n: u64) -> (Seq<char>, u64)
    decreases s,
{
    match s {
        Stmt::Let { name, value, .. } => (let_code(name@, value, c), n),
        Stmt::Assign { name, value } => (assign_code(name@, value, c), n),
        Stmt::If { cond, then_body, else_body } => {
            let else_l = label_text("Lelse_"@, n);
            let end_l = label_text("Lend_"@, n);
            let next = n.wrapping_add(1);
            match else_body {
                Some(eb) => {
                    let (tc, n1) = stmts_code(then_body@, c, next);
                    let (ec, n2) = stmts_code(eb@, c, n1);
                    (
                        branch_code(cond, c, else_l) + tc + "    jmp "@ + end_l + "\n"@ + else_l
                            + ":\n"@ + ec + end_l + ":\n"@,
                        n2,
                    )
                },
                None => {
                    let (tc, n1) = stmts_code(then_body@, c, next);
                    (branch_code(cond, c, end_l) + tc + end_l + ":\n"@, n1)
                },
            }
        },
        Stmt::While { cond, body } => {
            let loop_l = label_text("Lloop_"@, n);
            let exit_l = label_text("Lexit_"@, n);
            let (bc, n1) = stmts_code(body@, c, n.wrapping_add(1));
            (
                loop_l + ":\n"@ + branch_code(cond, c, exit_l) + bc + "    jmp "@ + loop_l + "\n"@
                    + exit_l + ":\n"@,
                n1,
            )
        },
        Stmt::Expr(Expr::Call { name, args }) => if name@ == "print"@ && args.len() == 1 {
            (print_code(args[0], c), n)
        } else {
            (Seq::empty(), n)
        },
        _ => (Seq::empty(), n),
    }
}

/// The instructions of a statement sequence, in order.
pub open spec fn stmts_code(ss: Seq<Stmt>, c: GenView, n: u64) -> (Seq<char>, u64)
    decreases ss,
{
    if ss.len() == 0 {
        (Seq::empty(), n)
    } else {
        let (a, n1) = stmt_code(ss[0], c, n);
        let (b, n2) = stmts_code(ss.drop_first(), c, n1);
        (a + b, n2)
    }
}

fn push_store(out: &mut String, name: &String)
    ensures
        final(out)@ == old(out)@ + store_code(name@),
{
    out.append("    mov qword ptr [rip + ");
    out.append(name.as_str());
    out.append("], rax\n");
    proof {
        assert(final(out)@ =~= old(out)@ + store_code(name@));
    }
}

fn push_input_read(out: &mut String, name: &String)
    ensures
        final(out)@ == old(out)@ + input_let_code(name@),
{
    out.append("    mov rax, 0\n    mov rdi, 0\n    lea rsi, [rip + ");
    out.append(name.as_str());
    out.append("_buf]\n    mov rdx, 255\n    syscall\n    mov qword ptr [rip + ");
    out.append(name.as_str());
    out.append("_len], rax\n");
    proof {
        assert(final(out)@ =~= old(out)@ + input_let_code(name@));
    }
}

fn push_assign(out: &mut String, name: &String, value: &Expr, c: &CodegenContext)
    ensures
        final(out)@ == old(out)@ + assign_code(name@, *value, c@),
{
    if input_call(value) && c.input_names.contains(name) {
        push_input_read(out, name);
        return;
    }
    gen_expr(value, out, &c.strs);
    push_store(out, name);
    proof {
        assert(final(out)@ =~= old(out)@ + assign_code(name@, *value, c@));
    }
}

fn push_let(out: &mut String, name: &String, value: &Expr, c: &CodegenContext)
    ensures
        final(out)@ == old(out)@ + let_code(name@, *value, c@),
{
    if input_call(value) {
        push_input_read(out, name);
        return;
    }
    match eval_const_expr_with_ctx(value, &c.ints) {
        Some(v) => {
            out.append("    mov rax, ");
            push_int(out, v);
            out.append("\n");
        },
        None => gen_expr(value, out, &c.strs),
    }
    push_store(out, name);
    proof {
        assert(final(out)@ =~= old(out)@ + let_code(name@, *value, c@));
    }
}

fn push_label(out: &mut String, prefix: &str, n: u64)
    ensures
        final(out)@ == old(out)@ + label_text(prefix@, n),
{
    out.append(prefix);
    push_nat(out, n);
    proof {
        assert(final(out)@ =~= old(out)@ + label_text(prefix@, n));
    }
}

fn push_branch(out: &mut String, cond: &Expr, c: &CodegenContext, prefix: &str, n: u64)
    ensures
        final(out)@ == old(out)@ + branch_code(*cond, c@, label_text(prefix@, n)),
{
    let folded = eval_const_expr_with_ctx(cond, &c.ints);
    let dynamic = expr_uses_let(cond, &c.let_names);
    match folded {
        Some(v) if !dynamic => {
            if v == 0 {
                out.append("    jmp ");
                push_label(out, prefix, n);
                out.append("\n");
            }
        },
        _ => {
            gen_expr(cond, out, &c.strs);
            out.append("    cmp rax, 0\n    je ");
            push_label(out, prefix, n);
            out.append("\n");
        },
    }
    proof {
        assert(final(out)@ =~= old(out)@ + branch_code(*cond, c@, label_text(prefix@, n)));
    }
}

/// Appends the instructions of one statement; `label` is the next free
/// label number.
fn codegen_stmt(s: &Stmt, out: &mut String, c: &CodegenContext, label: &mut u64)
    ensures
        (final(out)@, *final(label)) == ({
            let (code, next) = stmt_code(*s, c@, *old(label));
            (old(out)@ + code, next)
        }),
    decreases s,
{
    match s {
        Stmt::Let { name, value, .. } => push_let(out, name, value, c),
        Stmt::Assign { name, value } => push_assign(out, name, value, c),
        Stmt::If { cond, then_body, else_body } => {
            let n = *label;
            *label = n.wrapping_add(1);
            match else_body {
                Some(eb) => {
                    push_branch(out, cond, c, "Lelse_", n);
                    codegen_stmts(then_body, out, c, label);
                    out.append("    jmp ");
                    push_label(out, "Lend_", n);
                    out.append("\n");
                    push_label(out, "Lelse_", n);
                    out.append(":\n");
                    codegen_stmts(eb, out, c, label);
                },
                None => {
                    push_branch(out, cond, c, "Lend_", n);
                    codegen_stmts(then_body, out, c, label);
                },
            }
            push_label(out, "Lend_", n);
            out.append(":\n");
        },
        Stmt::While { cond, body } => {
            let n = *label;
            *label = n.wrapping_add(1);
            push_label(out, "Lloop_", n);
            out.append(":\n");
            push_branch(out, cond, c, "Lexit_", n);
            codegen_stmts(body, out, c, label);
            out.append("    jmp ");
            push_label(out, "Lloop_", n);
            out.append("\n");
            push_label(out, "Lexit_", n);
            out.append(":\n");
        },
        Stmt::Expr(Expr::Call { name, args }) => {
            if is_text(name, "print") && args.len() == 1 {
                push_print(out, &args[0], c);
            }
        },
        _ => {},
    }
    proof {
        let (code, next) = stmt_code(*s, c@, *old(label));
        assert(final(out)@ =~= old(out)@ + code);
    }
}

/// Appends the instructions of `items`, in order; `label` is the next free
/// label number.
fn codegen_stmts(items: &Vec<Stmt>, out: &mut String, c: &CodegenContext, label: &mut u64)
    ensures
        (final(out)@, *final(label)) == ({
            let (code, next) = stmts_code(items@, c@, *old(label));
            (old(out)@ + code, next)
        }),
    decreases items,
{
    let mut i: usize = 0;
    proof {
        assert(items@.skip(0) =~= items@);
    }
    while i < items.len()
        invariant
            i <= items@.len(),
            ({
                let (all, last) = stmts_code(items@, c@, *old(label));
                let (rest, rest_last) = stmts_code(items@.skip(i as int), c@, *label);
                old(out)@ + all == out@ + rest && last == rest_last
            }),
        decreases items@.len() - i,
    {
        proof {
            assert(items@.skip(i as int).drop_first() =~= items@.skip(i + 1));
            assert(items@.skip(i as int)[0] == items@[i as int]);
            assert(decreases_to!(*items => items[i as int]));
        }
        let ghost before = out@;
        let ghost n0 = *label;
        codegen_stmt(&items[i], out, c, label);
        proof {
            let (a, n1) = stmt_code(items@[i as int], c@, n0);
            let (b, n2) = stmts_code(items@.skip(i + 1), c@, n1);
            assert(out@ == before + a);
            assert(before + (a + b) =~= out@ + b);
        }
        i = i + 1;
    }
    proof {
        assert(items@.skip(i as int) =~= Seq::<Stmt>::empty());
        assert(out@ + Seq::<char>::empty() =~= out@);
    }
}

/// The text that `print(arg)` needs in the data section, if any: a string
/// literal, or the numeral of an integer literal, of a folded operation, or
/// of an integer constant.
pub open spec fn print_text(arg: Expr, ints: Seq<(Seq<char>, i64)>) -> Option<Seq<char>> {
    match arg {
        Expr::Str(s) => Some(s@),
        Expr::Int(v) => Some(int_text(v as int)),
        Expr::BinaryOp { .. } => match fold(arg, ints) {
            Some(v) => Some(int_text(v as int)),
            None => None,
        },
        Expr::Ident(id) => match lookup(ints, id@) {
            Some(v) => Some(int_text(v as int)),
            None => None,
        },
        _ => None,
    }
}

/// The data section after the texts of one statement, nested bodies
/// included, are added to `pool`.
pub open spec fn collect_stmt(pool: Seq<Seq<char>>, s: Stmt, ints: Seq<(Seq<char>, i64)>) -> Seq<
    Seq<char>,
>
    decreases s,
{
    match s {
        Stmt::Let { value: Expr::Str(t), .. } => add_text(pool, t@),
        Stmt::Expr(Expr::Call { name, args }) => if name@ == "print"@ && args.len() == 1 {
            match print_text(args[0], ints) {
                Some(t) => add_text(pool, t),
                None => pool,
            }
        } else {
            pool
        },
        Stmt::If { then_body, else_body, .. } => match else_body {
            Some(eb) => collect_stmts(collect_stmts(pool, then_body@, ints), eb@, ints),
            None => collect_stmts(pool, then_body@, ints),
        },
        Stmt::While { body, .. } => collect_stmts(pool, body@, ints),
        Stmt::ForRange { body, .. } => collect_stmts(pool, body@, ints),
        Stmt::Func { body, .. } => collect_stmts(pool, body@, ints),
        _ => pool,
    }
}

/// The data section after the texts of `ss`, in order, are added to `pool`.
pub open spec fn collect_stmts(pool: Seq<Seq<char>>, ss: Seq<Stmt>, ints: Seq<(Seq<char>, i64)>) -> Seq<
    Seq<char>,
>
    decreases ss,
{
    if ss.len() == 0 {
        pool
    } else {
        collect_stmts(collect_stmt(pool, ss[0], ints), ss.drop_first(), ints)
    }
}

/// Collecting texts keeps the data section free of repeats.
pub proof fn lemma_collect_no_duplicates(
    pool: Seq<Seq<char>>,
    ss: Seq<Stmt>,
    ints: Seq<(Seq<char>, i64)>,
)
    requires
        pool.no_duplicates(),
    ensures
        collect_stmts(pool, ss, ints).no_duplicates(),
        forall|t: Seq<char>| pool.contains(t) ==> collect_stmts(pool, ss, ints).contains(t),
    decreases ss,
{
    if ss.len() > 0 {
        lemma_collect_stmt_no_duplicates(pool, ss[0], ints);
        lemma_collect_no_duplicates(collect_stmt(pool, ss[0], ints), ss.drop_first(), ints);
    }
}

proof fn lemma_collect_stmt_no_duplicates(pool: Seq<Seq<char>>, s: Stmt, ints: Seq<(Seq<char>, i64)>)
    requires
        pool.no_duplicates(),
    ensures
        collect_stmt(pool, s, ints).no_duplicates(),
        forall|t: Seq<char>| pool.contains(t) ==> collect_stmt(pool, s, ints).contains(t),
    decreases s,
{
    match s {
        Stmt::Let { value: Expr::Str(t), .. } => {
            lemma_add_text_no_duplicates(pool, t@);
        },
        Stmt::Expr(Expr::Call { name, args }) => {
            if name@ == "print"@ && args.len() == 1 {
                if let Some(t) = print_text(args[0], ints) {
                    lemma_add_text_no_duplicates(pool, t);
                }
            }
        },
        Stmt::If { then_body, else_body, .. } => {
            lemma_collect_no_duplicates(pool, then_body@, ints);
            if let Some(eb) = else_body {
                lemma_collect_no_duplicates(collect_stmts(pool, then_body@, ints), eb@, ints);
            }
        },
        Stmt::While { body, .. } => {
            lemma_collect_no_duplicates(pool, body@, ints);
        },
        Stmt::ForRange { body, .. } => {
            lemma_collect_no_duplicates(pool, body@, ints);
        },
        Stmt::Func { body, .. } => {
            lemma_collect_no_duplicates(pool, body@, ints);
        },
        _ => {},
    }
}

/// Adds to `out`, in order, the texts that the statements of `items` need
/// in the data section, nested bodies included.
fn collect_stmts_into(items: &Vec<Stmt>, out: &mut TextList, ctx: &IntTable)
    ensures
        final(out)@ == collect_stmts(old(out)@, items@, ctx@),
    decreases items,
{
    let mut i: usize = 0;
    proof {
        assert(items@.skip(0) =~= items@);
    }
    while i < items.len()
        invariant
            i <= items@.len(),
            collect_stmts(out@, items@.skip(i as int), ctx@) == collect_stmts(
                old(out)@,
                items@,
                ctx@,
            ),
        decreases items@.len() - i,
    {
        proof {
            assert(items@.skip(i as int).drop_first() =~= items@.skip(i + 1));
            assert(items@.skip(i as int)[0] == items@[i as int]);
            assert(decreases_to!(*items => items[i as int]));
        }
        collect_stmt_into(&items[i], out, ctx);
        i = i + 1;
    }
    proof {
        assert(items@.skip(i as int) =~= Seq::<Stmt>::empty());
    }
}

fn collect_stmt_into(s: &Stmt, out: &mut TextList, ctx: &IntTable)
    ensures
        final(out)@ == collect_stmt(old(out)@, *s, ctx@),
    decreases s,
{
    match s {
        Stmt::Let { value: Expr::Str(t), .. } => out.add(t),
        Stmt::Expr(Expr::Call { name, args }) => {
            if is_text(name, "print") && args.len() == 1 {
                match &args[0] {
                    Expr::Str(t) => out.add(t),
                    Expr::Int(v) => {
                        let t = int_to_text(*v);
                        out.add(&t);
                    },
                    Expr::BinaryOp { .. } => {
                        if let Some(v) = eval_const_expr_with_ctx(&args[0], ctx) {
                            let t = int_to_text(v);
                            out.add(&t);
                        }
                    },
                    Expr::Ident(id) => {
                        if let Some(v) = ctx.get(id) {
                            let t = int_to_text(v);
                            out.add(&t);
                        }
                    },
                    _ => {},
                }
            }
        },
        Stmt::If { then_body, else_body, .. } => {
            collect_stmts_into(then_body, out, ctx);
            if let Some(eb) = else_body {
                collect_stmts_into(eb, out, ctx);
            }
        },
        Stmt::While { body, .. } => collect_stmts_into(body, out, ctx),
        Stmt::ForRange { body, .. } => collect_stmts_into(body, out, ctx),
        Stmt::Func { body, .. } => collect_stmts_into(body, out, ctx),
        _ => {},
    }
}

/// Adds to `out` the texts that the program needs in its data section:
/// those of string literals bound by `let` and of `print` arguments, in
/// the order in which a walk of the whole program, nested bodies included,
/// first meets them. A text already held is not added again.
pub fn collect_strings_with_ctx(prog: &Program, out: &mut TextList, ctx: &IntTable)
    ensures
        final(out)@ == collect_stmts(old(out)@, prog.items@, ctx@),
        old(out)@.no_duplicates() ==> final(out)@.no_duplicates(),
        forall|t: Seq<char>| old(out)@.contains(t) ==> final(out)@.contains(t),
{
    collect_stmts_into(&prog.items, out, ctx);
    proof {
        if old(out)@.no_duplicates() {
            lemma_collect_no_duplicates(old(out)@, prog.items@, ctx@);
        }
        lemma_collect_keeps(old(out)@, prog.items@, ctx@);
    }
}

proof fn lemma_collect_keeps(pool: Seq<Seq<char>>, ss: Seq<Stmt>, ints: Seq<(Seq<char>, i64)>)
    ensures
        forall|t: Seq<char>| pool.contains(t) ==> collect_stmts(pool, ss, ints).contains(t),
    decreases ss,
{
    if ss.len() > 0 {
        lemma_collect_stmt_keeps(pool, ss[0], ints);
        lemma_collect_keeps(collect_stmt(pool, ss[0], ints), ss.drop_first(), ints);
    }
}

proof fn lemma_collect_stmt_keeps(pool: Seq<Seq<char>>, s: Stmt, ints: Seq<(Seq<char>, i64)>)
    ensures
        forall|t: Seq<char>| pool.contains(t) ==> collect_stmt(pool, s, ints).contains(t),
    decreases s,
{
    assert forall|t: Seq<char>| pool.contains(t) implies add_text(pool, t).contains(t) by {}
    assert forall|t: Seq<char>, x: Seq<char>| pool.contains(t) implies #[trigger] add_text(pool, x).contains(t) by {
        if !pool.contains(x) {
            let k = choose|k: int| 0 <= k < pool.len() && pool[k] == t;
            assert(pool.push(x)[k] == t);
        }
    }
    match s {
        Stmt::If { then_body, else_body, .. } => {
            lemma_collect_keeps(pool, then_body@, ints);
            if let Some(eb) = else_body {
                lemma_collect_keeps(collect_stmts(pool, then_body@, ints), eb@, ints);
            }
        },
        Stmt::While { body, .. } => lemma_collect_keeps(pool, body@, ints),
        Stmt::ForRange { body, .. } => lemma_collect_keeps(pool, body@, ints),
        Stmt::Func { body, .. } => lemma_collect_keeps(pool, body@, ints),
        _ => {},
    }
}

/// The string literals that top-level `let` statements bind, each once, in
/// order.
pub open spec fn literal_texts(items: Seq<Stmt>) -> Seq<Seq<char>>
    decreases items.len(),
{
    if items.len() == 0 {
        Seq::empty()
    } else {
        match items.last() {
            Stmt::Let { value: Expr::Str(s), .. } => add_text(literal_texts(items.drop_last()), s@),
            _ => literal_texts(items.drop_last()),
        }
    }
}

/// The names that `let` statements bind (first) and the names that
/// `let name = input()` binds (second), after those of `s`, nested bodies
/// included, are added to `d`; each name is held once.
pub open spec fn decl_stmt(d: (Seq<Seq<char>>, Seq<Seq<char>>), s: Stmt) -> (
    Seq<Seq<char>>,
    Seq<Seq<char>>,
)
    decreases s,
{
    match s {
        Stmt::Let { name, value, .. } => (
            add_text(d.0, name@),
            if is_input_call(value) {
                add_text(d.1, name@)
            } else {
                d.1
            },
        ),
        Stmt::If { then_body, else_body, .. } => match else_body {
            Some(eb) => decl_stmts(decl_stmts(d, then_body@), eb@),
            None => decl_stmts(d, then_body@),
        },
        Stmt::While { body, .. } => decl_stmts(d, body@),
        Stmt::ForRange { body, .. } => decl_stmts(d, body@),
        Stmt::Func { body, .. } => decl_stmts(d, body@),
        _ => d,
    }
}

/// `decl_stmt` over `ss`, in order.
pub open spec fn decl_stmts(d: (Seq<Seq<char>>, Seq<Seq<char>>), ss: Seq<Stmt>) -> (
    Seq<Seq<char>>,
    Seq<Seq<char>>,
)
    decreases ss,
{
    if ss.len() == 0 {
        d
    } else {
        decl_stmts(decl_stmt(d, ss[0]), ss.drop_first())
    }
}

/// The names that `let` statements bind anywhere in the program, each once,
/// in the order first met.
pub open spec fn let_names(items: Seq<Stmt>) -> Seq<Seq<char>> {
    decl_stmts((Seq::empty(), Seq::empty()), items).0
}

/// The names that `let name = input()` statements bind anywhere in the
/// program, each once, in the order first met.
pub open spec fn input_names(items: Seq<Stmt>) -> Seq<Seq<char>> {
    decl_stmts((Seq::empty(), Seq::empty()), items).1
}

fn declare_stmts(items: &Vec<Stmt>, lets: &mut TextList, inputs: &mut TextList)
    ensures
        (final(lets)@, final(inputs)@) == decl_stmts((old(lets)@, old(inputs)@), items@),
    decreases items,
{
    let mut i: usize = 0;
    proof {
        assert(items@.skip(0) =~= items@);
    }
    while i < items.len()
        invariant
            i <= items@.len(),
            decl_stmts((lets@, inputs@), items@.skip(i as int)) == decl_stmts(
                (old(lets)@, old(inputs)@),
                items@,
            ),
        decreases items@.len() - i,
    {
        proof {
            assert(items@.skip(i as int).drop_first() =~= items@.skip(i + 1));
            assert(items@.skip(i as int)[0] == items@[i as int]);
            assert(decreases_to!(*items => items[i as int]));
        }
        declare_stmt(&items[i], lets, inputs);
        i = i + 1;
    }
    proof {
        assert(items@.skip(i as int) =~= Seq::<Stmt>::empty());
    }
}

fn declare_stmt(s: &Stmt, lets: &mut TextList, inputs: &mut TextList)
    ensures
        (final(lets)@, final(inputs)@) == decl_stmt((old(lets)@, old(inputs)@), *s),
    decreases s,
{
    match s {
        Stmt::Let { name, value, .. } => {
            lets.add(name);
            if input_call(value) {
                inputs.add(name);
            }
        },
        Stmt::If { then_body, else_body, .. } => {
            declare_stmts(then_body, lets, inputs);
            if let Some(eb) = else_body {
                declare_stmts(eb, lets, inputs);
            }
        },
        Stmt::While { body, .. } => declare_stmts(body, lets, inputs),
        Stmt::ForRange { body, .. } => declare_stmts(body, lets, inputs),
        Stmt::Func { body, .. } => declare_stmts(body, lets, inputs),
        _ => {},
    }
}

/// The data section of a program.
pub open spec fn data_section(items: Seq<Stmt>) -> Seq<Seq<char>> {
    collect_stmts(literal_texts(items), items, int_constants(items))
}

/// The code generation context of a program.
pub open spec fn context_of(items: Seq<Stmt>) -> GenView {
    GenView {
        strs: data_section(items),
        ints: int_constants(items),
        str_consts: literal_strs(items),
        let_names: let_names(items),
        input_names: input_names(items),
    }
}

proof fn lemma_literal_texts_no_duplicates(items: Seq<Stmt>)
    ensures
        literal_texts(items).no_duplicates(),
    decreases items.len(),
{
    if items.len() > 0 {
        lemma_literal_texts_no_duplicates(items.drop_last());
        if let Stmt::Let { value: Expr::Str(s), .. } = items.last() {
            lemma_add_text_no_duplicates(literal_texts(items.drop_last()), s@);
        }
    }
}

/// Each text occurs once in the data section of a program, however often
/// the program prints it or binds it.
pub proof fn lemma_data_section_unique(items: Seq<Stmt>)
    ensures
        data_section(items).no_duplicates(),
{
    lemma_literal_texts_no_duplicates(items);
    lemma_collect_no_duplicates(literal_texts(items), items, int_constants(items));
}

/// Builds the code generation context of a program.
pub fn build_context(prog: &Program) -> (c: CodegenContext)
    ensures
        c@ == context_of(prog.items@),
{
    let items = &prog.items;
    let ints = resolve_int_constants(items);
    let str_consts = resolve_str_constants(items);
    let mut strs = TextList::new();
    let mut let_list = TextList::new();
    let mut input_list = TextList::new();
    let mut i: usize = 0;
    while i < items.len()
        invariant
            i <= items@.len(),
            strs@ == literal_texts(items@.take(i as int)),
        decreases items@.len() - i,
    {
        proof {
            assert(items@.take(i + 1).drop_last() =~= items@.take(i as int));
        }
        if let Stmt::Let { value: Expr::Str(s), .. } = &items[i] {
            strs.add(s);
        }
        i = i + 1;
    }
    proof {
        assert(items@.take(i as int) =~= items@);
    }
    declare_stmts(items, &mut let_list, &mut input_list);
    collect_strings_with_ctx(prog, &mut strs, &ints);
    CodegenContext { strs, ints, str_consts, let_names: let_list, input_names: input_list }
}

/// The instructions of the top-level statements: like `stmts_code`, where
/// the body of `func main` stands in place of the definition. Other
/// function definitions are not lowered.
pub open spec fn top_code(ss: Seq<Stmt>, c: GenView, n: u64) -> (Seq<char>, u64)
    decreases ss.len(),
{
    if ss.len() == 0 {
        (Seq::empty(), n)
    } else {
        let (a, n1) = match ss[0] {
            Stmt::Func { name, body, .. } if name@ == "main"@ => stmts_code(body@, c, n),
            s => stmt_code(s, c, n),
        };
        let (b, n2) = top_code(ss.drop_first(), c, n1);
        (a + b, n2)
    }
}

fn codegen_top(items: &Vec<Stmt>, out: &mut String, c: &CodegenContext, label: &mut u64)
    ensures
        (final(out)@, *final(label)) == ({
            let (code, next) = top_code(items@, c@, *old(label));
            (old(out)@ + code, next)
        }),
{
    let mut i: usize = 0;
    proof {
        assert(items@.skip(0) =~= items@);
    }
    while i < items.len()
        invariant
            i <= items@.len(),
            ({
                let (all, last) = top_code(items@, c@, *old(label));
                let (rest, rest_last) = top_code(items@.skip(i as int), c@, *label);
                old(out)@ + all == out@ + rest && last == rest_last
            }),
        decreases items@.len() - i,
    {
        proof {
            assert(items@.skip(i as int).drop_first() =~= items@.skip(i + 1));
            assert(items@.skip(i as int)[0] == items@[i as int]);
        }
        let ghost before = out@;
        let ghost n0 = *label;
        match &items[i] {
            Stmt::Func { name, body, .. } => {
                if is_text(name, "main") {
                    codegen_stmts(body, out, c, label);
                } else {
                    codegen_stmt(&items[i], out, c, label);
                }
            },
            _ => codegen_stmt(&items[i], out, c, label),
        }
        proof {
            let (a, n1) = match items@[i as int] {
                Stmt::Func { name, body, .. } if name@ == "main"@ => stmts_code(body@, c@, n0),
                s => stmt_code(s, c@, n0),
            };
            let (b, n2) = top_code(items@.skip(i + 1), c@, n1);
            assert(out@ == before + a);
            assert(before + (a + b) =~= out@ + b);
        }
        i = i + 1;
    }
    proof {
        assert(items@.skip(i as int) =~= Seq::<Stmt>::empty());
        assert(out@ + Seq::<char>::empty() =~= out@);
    }
}

/// The read-only data entries of `strs`: one label and one unterminated
/// string each.
pub open spec fn data_text(strs: Seq<Seq<char>>) -> Seq<char>
    decreases strs.len(),
{
    if strs.len() == 0 {
        Seq::empty()
    } else {
        data_text(strs.drop_last()) + "Lmsg"@ + nat_text((strs.len() - 1) as nat)
            + ":\n    .ascii \""@ + escape(strs.last()) + "\"\n"@
    }
}

/// One 8-byte cell for each of `names`.
pub open spec fn cells_text(names: Seq<Seq<char>>) -> Seq<char>
    decreases names.len(),
{
    if names.len() == 0 {
        Seq::empty()
    } else {
        cells_text(names.drop_last()) + names.last() + ": .quad 0\n"@
    }
}

/// A 256-byte buffer and an 8-byte length cell for each of `names`.
pub open spec fn buffers_text(names: Seq<Seq<char>>) -> Seq<char>
    decreases names.len(),
{
    if names.len() == 0 {
        Seq::empty()
    } else {
        buffers_text(names.drop_last()) + names.last() + "_buf: .space 256\n"@ + names.last()
            + "_len: .quad 0\n"@
    }
}

/// The assembly text of a program.
pub open spec fn asm_text(items: Seq<Stmt>) -> Seq<char> {
    let c = context_of(items);
    "    .intel_syntax noprefix\n    .section .rodata\n"@ + data_text(c.strs)
        + "    .section .bss\ninput_buffer: .space 256\n"@ + cells_text(c.let_names)
        + buffers_text(c.input_names) + "    .section .text\n    .global _start\n_start:\n"@
        + top_code(items, c, 0).0 + "    mov rax, 60\n    xor rdi, rdi\n    syscall\n"@
}

fn push_data(out: &mut String, strs: &TextList)
    ensures
        final(out)@ == old(out)@ + data_text(strs@),
{
    let mut i: usize = 0;
    while i < strs.len()
        invariant
            i <= strs@.len(),
            out@ == old(out)@ + data_text(strs@.take(i as int)),
        decreases strs@.len() - i,
    {
        proof {
            assert(strs@.take(i + 1).drop_last() =~= strs@.take(i as int));
        }
        out.append("Lmsg");
        push_nat(out, i as u64);
        out.append(":\n    .ascii \"");
        push_escaped(out, strs.get(i));
        out.append("\"\n");
        proof {
            assert(out@ =~= old(out)@ + data_text(strs@.take(i + 1)));
        }
        i = i + 1;
    }
    proof {
        assert(strs@.take(i as int) =~= strs@);
    }
}

fn push_cells(out: &mut String, names: &TextList)
    ensures
        final(out)@ == old(out)@ + cells_text(names@),
{
    let mut i: usize = 0;
    while i < names.len()
        invariant
            i <= names@.len(),
            out@ == old(out)@ + cells_text(names@.take(i as int)),
        decreases names@.len() - i,
    {
        proof {
            assert(names@.take(i + 1).drop_last() =~= names@.take(i as int));
        }
        out.append(names.get(i).as_str());
        out.append(": .quad 0\n");
        proof {
            assert(out@ =~= old(out)@ + cells_text(names@.take(i + 1)));
        }
        i = i + 1;
    }
    proof {
        assert(names@.take(i as int) =~= names@);
    }
}

fn push_buffers(out: &mut String, names: &TextList)
    ensures
        final(out)@ == old(out)@ + buffers_text(names@),
{
    let mut i: usize = 0;
    while i < names.len()
        invariant
            i <= names@.len(),
            out@ == old(out)@ + buffers_text(names@.take(i as int)),
        decreases names@.len() - i,
    {
        proof {
            assert(names@.take(i + 1).drop_last() =~= names@.take(i as int));
        }
        out.append(names.get(i).as_str());
        out.append("_buf: .space 256\n");
        out.append(names.get(i).as_str());
        out.append("_len: .quad 0\n");
        proof {
            assert(out@ =~= old(out)@ + buffers_text(names@.take(i + 1)));
        }
        i = i + 1;
    }
    proof {
        assert(names@.take(i as int) =~= names@);
    }
}

/// The assembly text of a program: the data section, the storage cells and
/// buffers, the instructions of the statements and a final exit with
/// status zero.
pub fn codegen_to_asm(prog: &Program) -> (r: String)
    ensures
        r@ == asm_text(prog.items@),
{
    let c = build_context(prog);
    let mut out = String::new();
    out.append("    .intel_syntax noprefix\n    .section .rodata\n");
    push_data(&mut out, &c.strs);
    out.append("    .section .bss\ninput_buffer: .space 256\n");
    push_cells(&mut out, &c.let_names);
    push_buffers(&mut out, &c.input_names);
    out.append("    .section .text\n    .global _start\n_start:\n");
    let mut label: u64 = 0;
    codegen_top(&prog.items, &mut out, &c, &mut label);
    out.append("    mov rax, 60\n    xor rdi, rdi\n    syscall\n");
    proof {
        assert(out@ =~= asm_text(prog.items@));
    }
    out
}

/// The machine code and read-only data of a program for the direct binary
/// writer. This generator emits neither yet: both are empty.
pub fn codegen_to_machine_code(prog: &Program) -> (r: (Vec<u8>, Vec<u8>))
    ensures
        r.0@.len() == 0,
        r.1@.len() == 0,
{
    (Vec::new(), Vec::new())
}

} // verus!
