use vstd::prelude::*;

use crate::ast::{BinOp, Expr, Stmt};

verus! {

/// What `op` gives on two 64-bit signed integers, as the machine computes
/// it: sums, differences and products wrap around; a quotient is truncated
/// toward zero and there is none when the divisor is zero or the quotient
/// does not fit. Relations give one or zero.
pub open spec fn apply_op(op: BinOp, l: i64, r: i64) -> Option<i64> {
    match op {
        BinOp::Add => Some(l.wrapping_add(r)),
        BinOp::Sub => Some(l.wrapping_sub(r)),
        BinOp::Mul => Some(l.wrapping_mul(r)),
        BinOp::Div => l.checked_div(r),
        BinOp::Lt => Some(if l < r { 1i64 } else { 0i64 }),
        BinOp::Gt => Some(if l > r { 1i64 } else { 0i64 }),
        BinOp::LtEq => Some(if l <= r { 1i64 } else { 0i64 }),
        BinOp::GtEq => Some(if l >= r { 1i64 } else { 0i64 }),
        BinOp::EqEq => Some(if l == r { 1i64 } else { 0i64 }),
        BinOp::NotEq => Some(if l != r { 1i64 } else { 0i64 }),
    }
}

/// The value bound to `name` in a table of integer constants: the latest
/// entry for it.
pub open spec fn lookup<V>(t: Seq<(Seq<char>, V)>, name: Seq<char>) -> Option<V>
    decreases t.len(),
{
    if t.len() == 0 {
        None
    } else if t.last().0 == name {
        Some(t.last().1)
    } else {
        lookup(t.drop_last(), name)
    }
}

/// The value of `e` at compile time, where identifiers take their values
/// from `t`; `None` where `e` is not a constant.
pub open spec fn fold(e: Expr, t: Seq<(Seq<char>, i64)>) -> Option<i64>
    decreases e,
{
    match e {
        Expr::Int(v) => Some(v),
        Expr::Ident(name) => lookup(t, name@),
        Expr::BinaryOp { op, left, right } => {
            match (fold(*left, t), fold(*right, t)) {
                (Some(l), Some(r)) => apply_op(op, l, r),
                _ => None,
            }
        },
        _ => None,
    }
}


/// The name that a `let` statement binds.
pub open spec fn let_name(s: Stmt) -> Option<Seq<char>> {
    match s {
        Stmt::Let { name, .. } => Some(name@),
        _ => None,
    }
}

/// One statement of the scan for literal bindings: `let n = <integer>`
/// binds `n` unless it is bound already, so the first such binding wins.
pub open spec fn literal_step(t: Seq<(Seq<char>, i64)>, s: Stmt) -> Seq<(Seq<char>, i64)> {
    match s {
        Stmt::Let { name, value: Expr::Int(v), .. } => if lookup(t, name@) is None {
            t.push((name@, v))
        } else {
            t
        },
        _ => t,
    }
}

/// The scan for literal bindings over `items`, in order, from table `t`.
pub open spec fn literal_pass(items: Seq<Stmt>, t: Seq<(Seq<char>, i64)>) -> Seq<(Seq<char>, i64)>
    decreases items.len(),
{
    if items.len() == 0 {
        t
    } else {
        literal_pass(items.drop_first(), literal_step(t, items[0]))
    }
}

/// One statement of a propagation pass: a `let` whose name is not bound yet
/// and whose value folds under the table binds that value.
pub open spec fn fold_step(t: Seq<(Seq<char>, i64)>, s: Stmt) -> Seq<(Seq<char>, i64)> {
    match s {
        Stmt::Let { name, value, .. } => if lookup(t, name@) is None && fold(value, t) is Some {
            t.push((name@, fold(value, t)->0))
        } else {
            t
        },
        _ => t,
    }
}

/// A propagation pass over `items`, in order; what it binds is seen by the
/// statements after it.
pub open spec fn fold_pass(items: Seq<Stmt>, t: Seq<(Seq<char>, i64)>) -> Seq<(Seq<char>, i64)>
    decreases items.len(),
{
    if items.len() == 0 {
        t
    } else {
        fold_pass(items.drop_first(), fold_step(t, items[0]))
    }
}

/// The table after `k` propagation passes from `t`.
pub open spec fn iterate(items: Seq<Stmt>, t: Seq<(Seq<char>, i64)>, k: nat) -> Seq<(Seq<char>, i64)>
    decreases k,
{
    if k == 0 {
        t
    } else {
        fold_pass(items, iterate(items, t, (k - 1) as nat))
    }
}

/// Every name bound in `t` is bound in `u`.
pub open spec fn covers(t: Seq<(Seq<char>, i64)>, u: Seq<(Seq<char>, i64)>) -> bool {
    forall|n: Seq<char>| lookup(t, n) is Some ==> #[trigger] lookup(u, n) is Some
}

/// The number of `let` statements of `all` whose name `t` does not bind.
pub open spec fn unresolved(all: Seq<Stmt>, t: Seq<(Seq<char>, i64)>) -> nat
    decreases all.len(),
{
    if all.len() == 0 {
        0
    } else {
        unresolved(all.drop_last(), t) + match let_name(all.last()) {
            Some(n) => if lookup(t, n) is None {
                1nat
            } else {
                0nat
            },
            None => 0nat,
        }
    }
}

proof fn lemma_lookup_push(t: Seq<(Seq<char>, i64)>, n: Seq<char>, v: i64, m: Seq<char>)
    ensures
        lookup(t.push((n, v)), m) == if m == n {
            Some(v)
        } else {
            lookup(t, m)
        },
{
    assert(t.push((n, v)).drop_last() =~= t);
}

proof fn lemma_unresolved_mono(all: Seq<Stmt>, t: Seq<(Seq<char>, i64)>, u: Seq<(Seq<char>, i64)>)
    requires
        covers(t, u),
    ensures
        unresolved(all, u) <= unresolved(all, t),
    decreases all.len(),
{
    if all.len() > 0 {
        lemma_unresolved_mono(all.drop_last(), t, u);
    }
}

proof fn lemma_unresolved_strict(
    all: Seq<Stmt>,
    t: Seq<(Seq<char>, i64)>,
    u: Seq<(Seq<char>, i64)>,
    k: int,
)
    requires
        covers(t, u),
        0 <= k < all.len(),
        let_name(all[k]) is Some,
        lookup(t, let_name(all[k])->0) is None,
        lookup(u, let_name(all[k])->0) is Some,
    ensures
        unresolved(all, u) < unresolved(all, t),
    decreases all.len(),
{
    if k == all.len() - 1 {
        lemma_unresolved_mono(all.drop_last(), t, u);
    } else {
        assert(all.drop_last()[k] == all[k]);
        lemma_unresolved_strict(all.drop_last(), t, u, k);
    }
}

proof fn lemma_fold_pass_progress(all: Seq<Stmt>, rest: Seq<Stmt>, t: Seq<(Seq<char>, i64)>)
    requires
        forall|i: int| 0 <= i < rest.len() ==> all.contains(#[trigger] rest[i]),
    ensures
        covers(t, fold_pass(rest, t)),
        fold_pass(rest, t).len() >= t.len(),
        fold_pass(rest, t).len() > t.len() ==> unresolved(all, fold_pass(rest, t)) < unresolved(all, t),
    decreases rest.len(),
{
    if rest.len() > 0 {
        let t1 = fold_step(t, rest[0]);
        let tail = rest.drop_first();
        assert forall|i: int| 0 <= i < tail.len() implies all.contains(#[trigger] tail[i]) by {
            assert(tail[i] == rest[i + 1]);
        }
        lemma_fold_pass_progress(all, tail, t1);
        let r = fold_pass(tail, t1);
        assert(covers(t, t1)) by {
            if t1.len() != t.len() {
                assert forall|n: Seq<char>| lookup(t, n) is Some implies #[trigger] lookup(t1, n) is Some by {
                    lemma_lookup_push(t, let_name(rest[0])->0, fold(rest[0]->Let_value, t)->0, n);
                }
            }
        }
        lemma_unresolved_mono(all, t1, r);
        lemma_unresolved_mono(all, t, t1);
        if t1.len() > t.len() {
            let n = let_name(rest[0])->0;
            lemma_lookup_push(t, n, fold(rest[0]->Let_value, t)->0, n);
            assert(all.contains(rest[0]));
            let k = choose|k: int| 0 <= k < all.len() && all[k] == rest[0];
            lemma_unresolved_strict(all, t, r, k);
        }
    }
}

/// A table that binds names to integer constants.
pub struct IntTable {
    entries: Vec<(String, i64)>,
}

impl View for IntTable {
    type V = Seq<(Seq<char>, i64)>;

    closed spec fn view(&self) -> Seq<(Seq<char>, i64)> {
        self.entries@.map_values(|p: (String, i64)| (p.0@, p.1))
    }
}

impl IntTable {
    /// An empty table.
    pub fn new() -> (r: IntTable)
        ensures
            r@ == Seq::<(Seq<char>, i64)>::empty(),
    {
        let r = IntTable { entries: Vec::new() };
        proof {
            assert(r@ =~= Seq::<(Seq<char>, i64)>::empty());
        }
        r
    }

    /// Binds `name` to `v`, over any earlier binding.
    pub fn bind(&mut self, name: &String, v: i64)
        ensures
            final(self)@ == old(self)@.push((name@, v)),
    {
        self.entries.push((name.clone(), v));
        proof {
            assert(self@ =~= old(self)@.push((name@, v)));
        }
    }

    /// The number of bindings made.
    pub fn len(&self) -> (r: usize)
        ensures
            r == self@.len(),
    {
        self.entries.len()
    }

    /// The value bound to `name`, if any.
    pub fn get(&self, name: &String) -> (r: Option<i64>)
        ensures
            r == lookup(self@, name@),
    {
        let mut i: usize = self.entries.len();
        proof {
            assert(self@.take(i as int) =~= self@);
        }
        while i > 0
            invariant
                i <= self.entries@.len(),
                lookup(self@, name@) == lookup(self@.take(i as int), name@),
            decreases i,
        {
            let ghost t = self@.take(i as int);
            proof {
                assert(t.drop_last() =~= self@.take(i - 1));
            }
            if self.entries[i - 1].0.eq(name) {
                return Some(self.entries[i - 1].1);
            }
            i = i - 1;
        }
        None
    }
}

/// The value of `e` when it is a constant made of literals alone.
pub fn eval_const_expr(e: &Expr) -> (r: Option<i64>)
    ensures
        r == fold(*e, Seq::empty()),
{
    let t = IntTable::new();
    eval_const_expr_with_ctx(e, &t)
}

/// The value of `e` at compile time, where identifiers take their values
/// from `ctx`; `None` where `e` is not a constant.
pub fn eval_const_expr_with_ctx(e: &Expr, ctx: &IntTable) -> (r: Option<i64>)
    ensures
        r == fold(*e, ctx@),
    decreases e,
{
    match e {
        Expr::Int(v) => Some(*v),
        Expr::Ident(name) => ctx.get(name),
        Expr::BinaryOp { op, left, right } => {
            let l = eval_const_expr_with_ctx(left, ctx);
            let r = eval_const_expr_with_ctx(right, ctx);
            match (l, r) {
                (Some(a), Some(b)) => apply_binop(*op, a, b),
                _ => None,
            }
        },
        _ => None,
    }
}

fn apply_binop(op: BinOp, l: i64, r: i64) -> (res: Option<i64>)
    ensures
        res == apply_op(op, l, r),
{
    match op {
        BinOp::Add => Some(l.wrapping_add(r)),
        BinOp::Sub => Some(l.wrapping_sub(r)),
        BinOp::Mul => Some(l.wrapping_mul(r)),
        BinOp::Div => l.checked_div(r),
        BinOp::Lt => Some(if l < r { 1 } else { 0 }),
        BinOp::Gt => Some(if l > r { 1 } else { 0 }),
        BinOp::LtEq => Some(if l <= r { 1 } else { 0 }),
        BinOp::GtEq => Some(if l >= r { 1 } else { 0 }),
        BinOp::EqEq => Some(if l == r { 1 } else { 0 }),
        BinOp::NotEq => Some(if l != r { 1 } else { 0 }),
    }
}

/// Folding an operator applied to two integer literals gives what the
/// machine gives on 64-bit signed integers: wrapping sums, differences and
/// products, truncating division, one or zero for relations; and a
/// division by zero is not a constant.
pub proof fn lemma_fold_matches_machine(op: BinOp, a: i64, b: i64, t: Seq<(Seq<char>, i64)>)
    ensures
        fold(Expr::BinaryOp { op, left: Box::new(Expr::Int(a)), right: Box::new(Expr::Int(b)) }, t)
            == apply_op(op, a, b),
        op == BinOp::Add ==> fold(
            Expr::BinaryOp { op, left: Box::new(Expr::Int(a)), right: Box::new(Expr::Int(b)) },
            t,
        ) == Some(vstd::wrapping::i64_specs::wrapping_add(a, b)),
        op == BinOp::Div && b == 0 ==> fold(
            Expr::BinaryOp { op, left: Box::new(Expr::Int(a)), right: Box::new(Expr::Int(b)) },
            t,
        ) is None,
        op == BinOp::Lt ==> fold(
            Expr::BinaryOp { op, left: Box::new(Expr::Int(a)), right: Box::new(Expr::Int(b)) },
            t,
        ) == Some(if a < b { 1i64 } else { 0i64 }),
{
    assert(fold(Expr::Int(a), t) == Some(a));
    assert(fold(Expr::Int(b), t) == Some(b));
}

/// Binds, for each name, the first integer literal that a top-level `let`
/// gives it.
fn literal_ints(items: &Vec<Stmt>) -> (t: IntTable)
    ensures
        t@ == literal_pass(items@, Seq::empty()),
{
    let mut t = IntTable::new();
    let mut i: usize = 0;
    proof {
        assert(items@.skip(0) =~= items@);
    }
    while i < items.len()
        invariant
            i <= items@.len(),
            literal_pass(items@.skip(i as int), t@) == literal_pass(items@, Seq::empty()),
        decreases items@.len() - i,
    {
        proof {
            assert(items@.skip(i as int).drop_first() =~= items@.skip(i + 1));
        }
        if let Stmt::Let { name, value: Expr::Int(v), .. } = &items[i] {
            if t.get(name).is_none() {
                t.bind(name, *v);
            }
        }
        i = i + 1;
    }
    proof {
        assert(items@.skip(i as int) =~= Seq::<Stmt>::empty());
    }
    t
}

/// One propagation pass over `items`.
fn propagation_pass(items: &Vec<Stmt>, t: &mut IntTable)
    ensures
        final(t)@ == fold_pass(items@, old(t)@),
{
    let mut i: usize = 0;
    proof {
        assert(items@.skip(0) =~= items@);
    }
    while i < items.len()
        invariant
            i <= items@.len(),
            fold_pass(items@.skip(i as int), t@) == fold_pass(items@, old(t)@),
        decreases items@.len() - i,
    {
        proof {
            assert(items@.skip(i as int).drop_first() =~= items@.skip(i + 1));
        }
        if let Stmt::Let { name, value, .. } = &items[i] {
            if t.get(name).is_none() {
                if let Some(v) = eval_const_expr_with_ctx(value, t) {
                    t.bind(name, v);
                }
            }
        }
        i = i + 1;
    }
    proof {
        assert(items@.skip(i as int) =~= Seq::<Stmt>::empty());
    }
}

/// The integer constants of a program: the literal bindings, then
/// propagation passes over all `let` statements until one binds nothing
/// new. The result is a fixed point of the pass.
pub fn resolve_int_constants(items: &Vec<Stmt>) -> (t: IntTable)
    ensures
        exists|k: nat| t@ == iterate(items@, literal_pass(items@, Seq::empty()), k),
        fold_pass(items@, t@) == t@,
        t@ == int_constants(items@),
{
    let mut t = literal_ints(items);
    let ghost start = t@;
    let ghost mut k: nat = 0;
    loop
        invariant
            t@ == iterate(items@, start, k),
            start == literal_pass(items@, Seq::empty()),
        decreases unresolved(items@, t@),
    {
        let before = t.len();
        let ghost old_t = t@;
        propagation_pass(items, &mut t);
        proof {
            k = k + 1;
            assert forall|i: int| 0 <= i < items@.len() implies items@.contains(#[trigger] items@[i]) by {
            }
            lemma_fold_pass_progress(items@, items@, old_t);
        }
        if t.len() == before {
            proof {
                assert(fold_pass(items@, old_t).len() == old_t.len());
                lemma_pass_same_len(items@, old_t);
                lemma_fixed_point_unique(items@, start, k);
            }
            return t;
        }
    }
}

/// A pass that binds nothing new leaves the table as it was.
proof fn lemma_pass_same_len(items: Seq<Stmt>, t: Seq<(Seq<char>, i64)>)
    requires
        fold_pass(items, t).len() == t.len(),
    ensures
        fold_pass(items, t) == t,
    decreases items.len(),
{
    if items.len() > 0 {
        let t1 = fold_step(t, items[0]);
        lemma_fold_pass_grows(items.drop_first(), t1);
        lemma_pass_same_len(items.drop_first(), t1);
    }
}

proof fn lemma_fold_pass_grows(items: Seq<Stmt>, t: Seq<(Seq<char>, i64)>)
    ensures
        fold_pass(items, t).len() >= t.len(),
    decreases items.len(),
{
    if items.len() > 0 {
        lemma_fold_pass_grows(items.drop_first(), fold_step(t, items[0]));
    }
}

/// A table that binds names to string constants.
pub struct StrTable {
    entries: Vec<(String, String)>,
}

impl View for StrTable {
    type V = Seq<(Seq<char>, Seq<char>)>;

    closed spec fn view(&self) -> Seq<(Seq<char>, Seq<char>)> {
        self.entries@.map_values(|p: (String, String)| (p.0@, p.1@))
    }
}

impl StrTable {
    /// An empty table.
    pub fn new() -> (r: StrTable)
        ensures
            r@ == Seq::<(Seq<char>, Seq<char>)>::empty(),
    {
        let r = StrTable { entries: Vec::new() };
        proof {
            assert(r@ =~= Seq::<(Seq<char>, Seq<char>)>::empty());
        }
        r
    }

    /// Binds `name` to `v`, over any earlier binding.
    pub fn bind(&mut self, name: &String, v: &String)
        ensures
            final(self)@ == old(self)@.push((name@, v@)),
    {
        self.entries.push((name.clone(), v.clone()));
        proof {
            assert(self@ =~= old(self)@.push((name@, v@)));
        }
    }

    /// The text bound to `name`, if any.
    pub fn get(&self, name: &String) -> (r: Option<&String>)
        ensures
            r matches Some(v) ==> lookup(self@, name@) == Some(v@),
            r is None ==> lookup(self@, name@) is None,
    {
        let mut i: usize = self.entries.len();
        proof {
            assert(self@.take(i as int) =~= self@);
        }
        while i > 0
            invariant
                i <= self.entries@.len(),
                lookup(self@, name@) == lookup(self@.take(i as int), name@),
            decreases i,
        {
            let ghost t = self@.take(i as int);
            proof {
                assert(t.drop_last() =~= self@.take(i - 1));
            }
            if self.entries[i - 1].0.eq(name) {
                return Some(&self.entries[i - 1].1);
            }
            i = i - 1;
        }
        None
    }
}

/// Binds, for each name, the last string literal that a top-level `let`
/// gives it.
pub open spec fn literal_strs(items: Seq<Stmt>) -> Seq<(Seq<char>, Seq<char>)>
    decreases items.len(),
{
    if items.len() == 0 {
        Seq::empty()
    } else {
        match items.last() {
            Stmt::Let { name, value: Expr::Str(s), .. } => literal_strs(items.drop_last()).push(
                (name@, s@),
            ),
            _ => literal_strs(items.drop_last()),
        }
    }
}

/// The string constants of a program.
pub fn resolve_str_constants(items: &Vec<Stmt>) -> (t: StrTable)
    ensures
        t@ == literal_strs(items@),
{
    let mut t = StrTable::new();
    let mut i: usize = 0;
    while i < items.len()
        invariant
            i <= items@.len(),
            t@ == literal_strs(items@.take(i as int)),
        decreases items@.len() - i,
    {
        proof {
            assert(items@.take(i + 1).drop_last() =~= items@.take(i as int));
        }
        if let Stmt::Let { name, value: Expr::Str(s), .. } = &items[i] {
            t.bind(name, s);
        }
        i = i + 1;
    }
    proof {
        assert(items@.take(i as int) =~= items@);
    }
    t
}

/// Whether `t` is a fixed point of the propagation pass over `items`.
pub open spec fn is_fixed(items: Seq<Stmt>, t: Seq<(Seq<char>, i64)>) -> bool {
    fold_pass(items, t) == t
}

/// The integer constants of a program: the first fixed point that
/// propagation passes reach from the literal bindings.
pub open spec fn int_constants(items: Seq<Stmt>) -> Seq<(Seq<char>, i64)> {
    let start = literal_pass(items, Seq::empty());
    let k = choose|k: nat| is_fixed(items, iterate(items, start, k));
    iterate(items, start, k)
}

proof fn lemma_fixed_stays(items: Seq<Stmt>, start: Seq<(Seq<char>, i64)>, k: nat, j: nat)
    requires
        is_fixed(items, iterate(items, start, k)),
        k <= j,
    ensures
        iterate(items, start, j) == iterate(items, start, k),
    decreases j - k,
{
    if k < j {
        lemma_fixed_stays(items, start, k, (j - 1) as nat);
    }
}

proof fn lemma_fixed_point_unique(items: Seq<Stmt>, start: Seq<(Seq<char>, i64)>, k: nat)
    requires
        is_fixed(items, iterate(items, start, k)),
        start == literal_pass(items, Seq::empty()),
    ensures
        int_constants(items) == iterate(items, start, k),
{
    let k1 = choose|k1: nat| is_fixed(items, iterate(items, start, k1));
    if k1 <= k {
        lemma_fixed_stays(items, start, k1, k);
    } else {
        lemma_fixed_stays(items, start, k, k1);
    }
}

} // verus!
