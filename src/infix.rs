//! What the expression compiler computes: an infix expression, compiled
//! token by token and then evaluated, has the value that direct recursive
//! evaluation gives it.
use vstd::prelude::*;
use crate::expression::{apply, evaluate, priority, reduce, run, step, ExpToken, ExprError, Op, Pending};
use crate::row::{cell_number, lookup, Cell};

verus! {

/// A token of an infix expression over numbers.
pub enum Infix {
    Num(i64),
    Field(String),
    Open,
    Close,
    Bin(Op),
}

/// The evaluator's state after one more token, as `new_operator`,
/// `new_direct_number` and `new_field` describe it.
pub open spec fn feed(state: (Seq<Pending>, Seq<ExpToken>), t: Infix) -> (Seq<Pending>, Seq<ExpToken>) {
    match t {
        Infix::Num(n) => (state.0, state.1.push(ExpToken::Number(n))),
        Infix::Field(f) => (state.0, state.1.push(ExpToken::Field(f))),
        Infix::Open => (state.0.push(Pending::Open), state.1),
        Infix::Close => {
            let (st, pr) = reduce(state.0, state.1, 0);
            (if st.len() > 0 {
                st.drop_last()
            } else {
                st
            }, pr)
        },
        Infix::Bin(op) => {
            let (st, pr) = reduce(state.0, state.1, priority(op));
            (st.push(Pending::Bin(op)), pr)
        },
    }
}

/// The evaluator's state after a sequence of tokens.
pub open spec fn compile_from(state: (Seq<Pending>, Seq<ExpToken>), toks: Seq<Infix>) -> (Seq<Pending>, Seq<ExpToken>)
    decreases toks.len(),
{
    if toks.len() == 0 {
        state
    } else {
        feed(compile_from(state, toks.drop_last()), toks.last())
    }
}

/// An expression: a number, a field of the row, a parenthesized
/// expression, or an operator applied to two expressions.
pub enum Expr {
    Lit(i64),
    Field(String),
    Paren(Box<Expr>),
    Node(Op, Box<Expr>, Box<Expr>),
}

/// The infix tokens of an expression.
pub open spec fn tokens(e: Expr) -> Seq<Infix>
    decreases e,
{
    match e {
        Expr::Lit(n) => seq![Infix::Num(n)],
        Expr::Field(f) => seq![Infix::Field(f)],
        Expr::Paren(x) => seq![Infix::Open] + tokens(*x) + seq![Infix::Close],
        Expr::Node(op, l, r) => tokens(*l) + seq![Infix::Bin(op)] + tokens(*r),
    }
}

/// The value of an expression on a row, computed on its tree: a field is
/// the number of the row's cell of that name; for an operator, the left
/// operand first, then the right one, then the operator.
pub open spec fn value(e: Expr, fields: Seq<(String, Cell)>) -> Result<i64, ExprError>
    decreases e,
{
    match e {
        Expr::Lit(n) => Ok(n),
        Expr::Field(f) => match lookup(fields, f@) {
            Some(c) => Ok(cell_number(c)),
            None => Err(ExprError::MissingField),
        },
        Expr::Paren(x) => value(*x, fields),
        Expr::Node(op, l, r) => match value(*l, fields) {
            Err(x) => Err(x),
            Ok(a) => match value(*r, fields) {
                Err(x) => Err(x),
                Ok(b) => match apply(op, a, b) {
                    Some(v) => Ok(v),
                    None => Err(ExprError::Arithmetic),
                },
            },
        },
    }
}

/// How tightly an expression holds together: its operator's priority, or
/// more than any operator for a number or a parenthesized expression.
pub open spec fn binding(e: Expr) -> int {
    match e {
        Expr::Node(op, _, _) => priority(op),
        _ => 5,
    }
}

/// Whether the tree is the one that the priority table gives its tokens:
/// a left operand binds at least as tightly as its operator (operators of
/// one priority group to the left), a right operand more tightly.
pub open spec fn well_bracketed(e: Expr) -> bool
    decreases e,
{
    match e {
        Expr::Lit(_) | Expr::Field(_) => true,
        Expr::Paren(x) => well_bracketed(*x),
        Expr::Node(op, l, r) => well_bracketed(*l) && well_bracketed(*r) && binding(*l) >= priority(op)
            && binding(*r) > priority(op),
    }
}

/// The program that the tree stands for: operands first, operator last.
pub open spec fn postfix(e: Expr) -> Seq<ExpToken>
    decreases e,
{
    match e {
        Expr::Lit(n) => seq![ExpToken::Number(n)],
        Expr::Field(f) => seq![ExpToken::Field(f)],
        Expr::Paren(x) => postfix(*x),
        Expr::Node(op, l, r) => postfix(*l) + postfix(*r) + seq![ExpToken::Operator(op)],
    }
}

/// Whether reducing at priority `k` leaves the stack alone.
pub open spec fn stops(p: Seq<Pending>, k: int) -> bool {
    !(p.len() > 0 && p.last() is Bin && priority(p.last()->Bin_0) >= k)
}

proof fn lemma_compile_one(s: (Seq<Pending>, Seq<ExpToken>), t: Infix)
    ensures
        compile_from(s, seq![t]) == feed(s, t),
{
    let one = seq![t];
    assert(one.drop_last().len() == 0);
    assert(compile_from(s, one.drop_last()) == s);
    assert(one.last() == t);
}

proof fn lemma_run_on_one(st: Seq<i64>, t: ExpToken, fields: Seq<(String, Cell)>)
    ensures
        run_on(st, seq![t], fields) == step(st, t, fields),
{
    let one = seq![t];
    assert(one.drop_last().len() == 0);
    assert(run_on(st, one.drop_last(), fields) == Ok::<Seq<i64>, ExprError>(st));
    assert(one.last() == t);
}

proof fn lemma_compile_concat(s: (Seq<Pending>, Seq<ExpToken>), a: Seq<Infix>, b: Seq<Infix>)
    ensures
        compile_from(s, a + b) == compile_from(compile_from(s, a), b),
    decreases b.len(),
{
    if b.len() == 0 {
        assert(a + b =~= a);
    } else {
        lemma_compile_concat(s, a, b.drop_last());
        assert((a + b).drop_last() =~= a + b.drop_last());
        assert((a + b).last() == b.last());
    }
}

proof fn lemma_reduce_compose(p: Seq<Pending>, r: Seq<ExpToken>, k1: int, k2: int)
    requires
        k1 <= k2,
    ensures
        reduce(p, r, k1) == reduce(reduce(p, r, k2).0, reduce(p, r, k2).1, k1),
    decreases p.len(),
{
    if p.len() > 0 && p.last() is Bin && priority(p.last()->Bin_0) >= k2 {
        lemma_reduce_compose(p.drop_last(), r.push(ExpToken::Operator(p.last()->Bin_0)), k1, k2);
    }
}

proof fn lemma_compile_expr(e: Expr, base: Seq<Pending>, prog0: Seq<ExpToken>, k: int)
    requires
        well_bracketed(e),
        stops(base, k),
        k <= binding(e),
    ensures
        forall|k2: int|
            k <= k2 <= binding(e) ==> #[trigger] reduce(
                compile_from((base, prog0), tokens(e)).0,
                compile_from((base, prog0), tokens(e)).1,
                k2,
            ) == (base, prog0 + postfix(e)),
    decreases e,
{
    match e {
        Expr::Lit(n) => {
            let s = compile_from((base, prog0), tokens(e));
            lemma_compile_one((base, prog0), Infix::Num(n));
            assert(s == (base, prog0.push(ExpToken::Number(n))));
            assert(prog0.push(ExpToken::Number(n)) =~= prog0 + postfix(e));
        },
        Expr::Field(f) => {
            let s = compile_from((base, prog0), tokens(e));
            lemma_compile_one((base, prog0), Infix::Field(f));
            assert(s == (base, prog0.push(ExpToken::Field(f))));
            assert(prog0.push(ExpToken::Field(f)) =~= prog0 + postfix(e));
        },
        Expr::Paren(x) => {
            let open = seq![Infix::Open];
            let close = seq![Infix::Close];
            lemma_compile_concat((base, prog0), open + tokens(*x), close);
            lemma_compile_concat((base, prog0), open, tokens(*x));
            lemma_compile_one((base, prog0), Infix::Open);
            let s1 = compile_from((base, prog0), open);
            assert(s1 == (base.push(Pending::Open), prog0));
            lemma_compile_expr(*x, base.push(Pending::Open), prog0, 0);
            let s2 = compile_from(s1, tokens(*x));
            assert(reduce(s2.0, s2.1, 0) == (base.push(Pending::Open), prog0 + postfix(*x)));
            lemma_compile_one(s2, Infix::Close);
            let s3 = compile_from(s2, close);
            assert(s3 == feed(s2, Infix::Close));
            assert(base.push(Pending::Open).drop_last() =~= base);
            assert(tokens(e) =~= open + tokens(*x) + close);
            assert(s3 == (base, prog0 + postfix(*x)));
        },
        Expr::Node(op, l, r) => {
            let mid = seq![Infix::Bin(op)];
            assert(tokens(e) =~= tokens(*l) + mid + tokens(*r));
            lemma_compile_concat((base, prog0), tokens(*l) + mid, tokens(*r));
            lemma_compile_concat((base, prog0), tokens(*l), mid);
            lemma_compile_expr(*l, base, prog0, k);
            let sl = compile_from((base, prog0), tokens(*l));
            assert(reduce(sl.0, sl.1, priority(op)) == (base, prog0 + postfix(*l)));
            lemma_compile_one(sl, Infix::Bin(op));
            let sop = compile_from(sl, mid);
            assert(sop == feed(sl, Infix::Bin(op)));
            let raised = base.push(Pending::Bin(op));
            let prog1 = prog0 + postfix(*l);
            assert(sop == (raised, prog1));
            lemma_compile_expr(*r, raised, prog1, priority(op) + 1);
            let sr = compile_from(sop, tokens(*r));
            assert(reduce(sr.0, sr.1, priority(op) + 1) == (raised, prog1 + postfix(*r)));
            assert forall|k2: int| k <= k2 <= binding(e) implies #[trigger] reduce(
                compile_from((base, prog0), tokens(e)).0,
                compile_from((base, prog0), tokens(e)).1,
                k2,
            ) == (base, prog0 + postfix(e)) by {
                lemma_reduce_compose(sr.0, sr.1, k2, priority(op) + 1);
                assert(raised.drop_last() =~= base);
                assert(reduce(raised, prog1 + postfix(*r), k2) == reduce(
                    base,
                    (prog1 + postfix(*r)).push(ExpToken::Operator(op)),
                    k2,
                ));
                assert((prog1 + postfix(*r)).push(ExpToken::Operator(op)) =~= prog0 + postfix(e));
            }
        },
    }
}

/// The value stack after running a program from a given stack.
pub open spec fn run_on(st: Seq<i64>, prog: Seq<ExpToken>, fields: Seq<(String, Cell)>) -> Result<Seq<i64>, ExprError>
    decreases prog.len(),
{
    if prog.len() == 0 {
        Ok(st)
    } else {
        match run_on(st, prog.drop_last(), fields) {
            Ok(s) => step(s, prog.last(), fields),
            Err(e) => Err(e),
        }
    }
}

proof fn lemma_run_is_run_on(prog: Seq<ExpToken>, fields: Seq<(String, Cell)>)
    ensures
        run(prog, fields) == run_on(Seq::empty(), prog, fields),
    decreases prog.len(),
{
    if prog.len() > 0 {
        lemma_run_is_run_on(prog.drop_last(), fields);
    }
}

proof fn lemma_run_on_concat(st: Seq<i64>, a: Seq<ExpToken>, b: Seq<ExpToken>, fields: Seq<(String, Cell)>)
    ensures
        run_on(st, a + b, fields) == (match run_on(st, a, fields) {
            Ok(s) => run_on(s, b, fields),
            Err(e) => Err(e),
        }),
    decreases b.len(),
{
    if b.len() == 0 {
        assert(a + b =~= a);
    } else {
        lemma_run_on_concat(st, a, b.drop_last(), fields);
        assert((a + b).drop_last() =~= a + b.drop_last());
        assert((a + b).last() == b.last());
    }
}

proof fn lemma_postfix_value(e: Expr, st: Seq<i64>, fields: Seq<(String, Cell)>)
    ensures
        run_on(st, postfix(e), fields) == (match value(e, fields) {
            Ok(v) => Ok(st.push(v)),
            Err(x) => Err(x),
        }),
    decreases e,
{
    match e {
        Expr::Lit(n) => {
            lemma_run_on_one(st, ExpToken::Number(n), fields);
        },
        Expr::Field(f) => {
            lemma_run_on_one(st, ExpToken::Field(f), fields);
        },
        Expr::Paren(x) => {
            lemma_postfix_value(*x, st, fields);
        },
        Expr::Node(op, l, r) => {
            let last = seq![ExpToken::Operator(op)];
            lemma_run_on_concat(st, postfix(*l) + postfix(*r), last, fields);
            lemma_run_on_concat(st, postfix(*l), postfix(*r), fields);
            lemma_postfix_value(*l, st, fields);
            match value(*l, fields) {
                Ok(a) => {
                    lemma_postfix_value(*r, st.push(a), fields);
                    match value(*r, fields) {
                        Ok(b) => {
                            let s2 = st.push(a).push(b);
                            assert(s2.drop_last().drop_last() =~= st);
                            lemma_run_on_one(s2, ExpToken::Operator(op), fields);
                        },
                        Err(_) => {},
                    }
                },
                Err(_) => {},
            }
        },
    }
}

/// The expression compiler is correct: feeding the infix tokens of an
/// expression whose tree follows the priority table (see
/// `well_bracketed`) to the evaluator, then completing and evaluating the
/// program on a row, as `compute` does, gives the value of the expression
/// computed directly on its tree and the row, errors included.
pub proof fn lemma_infix_compiles_to_value(e: Expr, fields: Seq<(String, Cell)>)
    requires
        well_bracketed(e),
    ensures
        ({
            let s = compile_from((Seq::empty(), Seq::empty()), tokens(e));
            let (st, pr) = reduce(s.0, s.1, 0);
            st.len() == 0 && pr == postfix(e) && evaluate(pr, fields) == value(e, fields)
        }),
{
    let base = Seq::<Pending>::empty();
    let prog0 = Seq::<ExpToken>::empty();
    lemma_compile_expr(e, base, prog0, 0);
    let s = compile_from((base, prog0), tokens(e));
    assert(reduce(s.0, s.1, 0) == (base, prog0 + postfix(e)));
    assert(prog0 + postfix(e) =~= postfix(e));
    lemma_run_is_run_on(postfix(e), fields);
    lemma_postfix_value(e, Seq::empty(), fields);
    match value(e, fields) {
        Ok(v) => {
            assert(Seq::<i64>::empty().push(v)[0] == v);
        },
        Err(_) => {},
    }
}

} // verus!
