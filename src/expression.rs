//! Compilation of infix expressions to postfix form (shunting-yard) and
//! their evaluation against a row.
use vstd::prelude::*;
use crate::decimal::{decimal_i64, parse_i64};
use crate::row::{cell_number, cell_value, lookup, Cell, Row};

verus! {

/// A binary operator of the expression language.
#[derive(Clone, Copy, Debug, PartialEq, Eq, Structural)]
pub enum Op {
    Mod,
    Mul,
    Div,
    Add,
    Sub,
    Lt,
    Le,
    Gt,
    Ge,
    Eq,
    Ne,
    Or,
    And,
}

/// Priority of an operator: higher binds tighter.
pub open spec fn priority(op: Op) -> int {
    match op {
        Op::Mod | Op::Mul | Op::Div => 4,
        Op::Add | Op::Sub => 3,
        _ => 2,
    }
}

pub open spec fn bool_num(b: bool) -> i64 {
    if b { 1 } else { 0 }
}

/// The result of `left op right`, or `None` when it overflows or divides by zero.
pub open spec fn apply(op: Op, left: i64, right: i64) -> Option<i64> {
    match op {
        Op::Mod => left.checked_rem(right),
        Op::Mul => left.checked_mul(right),
        Op::Div => left.checked_div(right),
        Op::Add => left.checked_add(right),
        Op::Sub => left.checked_sub(right),
        Op::Lt => Some(bool_num(left < right)),
        Op::Le => Some(bool_num(left <= right)),
        Op::Gt => Some(bool_num(left > right)),
        Op::Ge => Some(bool_num(left >= right)),
        Op::Eq => Some(bool_num(left == right)),
        Op::Ne => Some(bool_num(left != right)),
        Op::Or => Some(bool_num(left != 0 || right != 0)),
        Op::And => Some(bool_num(left != 0 && right != 0)),
    }
}

/// Priority of an operator.
pub fn get_priority(op: Op) -> (r: u8)
    ensures
        r as int == priority(op),
{
    match op {
        Op::Mod | Op::Mul | Op::Div => 4,
        Op::Add | Op::Sub => 3,
        _ => 2,
    }
}

/// Applies an operator to two numbers.
pub fn apply_op(op: Op, left: i64, right: i64) -> (r: Option<i64>)
    ensures
        r == apply(op, left, right),
{
    match op {
        Op::Mod => left.checked_rem(right),
        Op::Mul => left.checked_mul(right),
        Op::Div => left.checked_div(right),
        Op::Add => left.checked_add(right),
        Op::Sub => left.checked_sub(right),
        Op::Lt => Some(if left < right { 1 } else { 0 }),
        Op::Le => Some(if left <= right { 1 } else { 0 }),
        Op::Gt => Some(if left > right { 1 } else { 0 }),
        Op::Ge => Some(if left >= right { 1 } else { 0 }),
        Op::Eq => Some(if left == right { 1 } else { 0 }),
        Op::Ne => Some(if left != right { 1 } else { 0 }),
        Op::Or => Some(if left != 0 || right != 0 { 1 } else { 0 }),
        Op::And => Some(if left != 0 && right != 0 { 1 } else { 0 }),
    }
}

/// Why an expression could not be compiled or evaluated.
#[derive(Clone, Copy, Debug, PartialEq, Eq, Structural)]
pub enum ExprError {
    /// The operator text is not one of the language's operators.
    UnknownOperator,
    /// The number text is not a decimal `i64`.
    BadNumber,
    /// A parenthesis has no partner.
    Unbalanced,
    /// The program does not leave exactly one value (an operand is missing
    /// or left over).
    Malformed,
    /// A field is absent from the row.
    MissingField,
    /// An operation overflowed or divided by zero.
    Arithmetic,
}

/// What an operator token stands for.
#[derive(Clone, Copy, Debug, PartialEq, Eq, Structural)]
pub enum OpText {
    Open,
    Close,
    Bin(Op),
}

/// The operator that a token's text names, if any.
pub open spec fn operator_of_text(s: Seq<char>) -> Option<OpText> {
    if s.len() == 1 {
        if s[0] == '(' {
            Some(OpText::Open)
        } else if s[0] == ')' {
            Some(OpText::Close)
        } else if s[0] == '%' {
            Some(OpText::Bin(Op::Mod))
        } else if s[0] == '*' {
            Some(OpText::Bin(Op::Mul))
        } else if s[0] == '/' {
            Some(OpText::Bin(Op::Div))
        } else if s[0] == '+' {
            Some(OpText::Bin(Op::Add))
        } else if s[0] == '-' {
            Some(OpText::Bin(Op::Sub))
        } else if s[0] == '<' {
            Some(OpText::Bin(Op::Lt))
        } else if s[0] == '>' {
            Some(OpText::Bin(Op::Gt))
        } else {
            None
        }
    } else if s.len() == 2 && s[1] == '=' {
        if s[0] == '<' {
            Some(OpText::Bin(Op::Le))
        } else if s[0] == '>' {
            Some(OpText::Bin(Op::Ge))
        } else if s[0] == '=' {
            Some(OpText::Bin(Op::Eq))
        } else if s[0] == '!' {
            Some(OpText::Bin(Op::Ne))
        } else {
            None
        }
    } else if s.len() == 2 && s[0] == '|' && s[1] == '|' {
        Some(OpText::Bin(Op::Or))
    } else if s.len() == 2 && s[0] == '&' && s[1] == '&' {
        Some(OpText::Bin(Op::And))
    } else {
        None
    }
}

/// Reads an operator token's text.
pub fn operator_from_text(s: &str) -> (r: Option<OpText>)
    ensures
        r == operator_of_text(s@),
{
    let n = s.unicode_len();
    if n == 1 {
        let c = s.get_char(0);
        if c == '(' {
            Some(OpText::Open)
        } else if c == ')' {
            Some(OpText::Close)
        } else if c == '%' {
            Some(OpText::Bin(Op::Mod))
        } else if c == '*' {
            Some(OpText::Bin(Op::Mul))
        } else if c == '/' {
            Some(OpText::Bin(Op::Div))
        } else if c == '+' {
            Some(OpText::Bin(Op::Add))
        } else if c == '-' {
            Some(OpText::Bin(Op::Sub))
        } else if c == '<' {
            Some(OpText::Bin(Op::Lt))
        } else if c == '>' {
            Some(OpText::Bin(Op::Gt))
        } else {
            None
        }
    } else if n == 2 {
        let c0 = s.get_char(0);
        let c1 = s.get_char(1);
        if c1 == '=' {
            if c0 == '<' {
                Some(OpText::Bin(Op::Le))
            } else if c0 == '>' {
                Some(OpText::Bin(Op::Ge))
            } else if c0 == '=' {
                Some(OpText::Bin(Op::Eq))
            } else if c0 == '!' {
                Some(OpText::Bin(Op::Ne))
            } else {
                None
            }
        } else if c0 == '|' && c1 == '|' {
            Some(OpText::Bin(Op::Or))
        } else if c0 == '&' && c1 == '&' {
            Some(OpText::Bin(Op::And))
        } else {
            None
        }
    } else {
        None
    }
}

/// An entry of the operator stack: an opening parenthesis or an operator
/// that waits for its right operand.
#[derive(Clone, Copy, Debug, PartialEq, Eq, Structural)]
pub enum Pending {
    Open,
    Bin(Op),
}

/// A node of a postfix program.
#[derive(Debug)]
pub enum ExpToken {
    Operator(Op),
    Number(i64),
    Field(String),
}

/// Moves the operators of priority at least `p` from the top of the
/// operator stack to the end of the program, stopping at the first
/// parenthesis or weaker operator.
pub open spec fn reduce(pending: Seq<Pending>, prog: Seq<ExpToken>, p: int) -> (Seq<Pending>, Seq<ExpToken>)
    decreases pending.len(),
{
    if pending.len() > 0 && pending.last() is Bin && priority(pending.last()->Bin_0) >= p {
        reduce(pending.drop_last(), prog.push(ExpToken::Operator(pending.last()->Bin_0)), p)
    } else {
        (pending, prog)
    }
}

/// One step of postfix evaluation on the value stack.
pub open spec fn step(stack: Seq<i64>, t: ExpToken, fields: Seq<(String, Cell)>) -> Result<Seq<i64>, ExprError> {
    match t {
        ExpToken::Number(n) => Ok(stack.push(n)),
        ExpToken::Field(name) => match lookup(fields, name@) {
            Some(c) => Ok(stack.push(cell_number(c))),
            None => Err(ExprError::MissingField),
        },
        ExpToken::Operator(op) => if stack.len() < 2 {
            Err(ExprError::Malformed)
        } else {
            match apply(op, stack[stack.len() - 2], stack[stack.len() - 1]) {
                Some(v) => Ok(stack.drop_last().drop_last().push(v)),
                None => Err(ExprError::Arithmetic),
            }
        },
    }
}

/// The value stack after running a postfix program from left to right.
pub open spec fn run(prog: Seq<ExpToken>, fields: Seq<(String, Cell)>) -> Result<Seq<i64>, ExprError>
    decreases prog.len(),
{
    if prog.len() == 0 {
        Ok(Seq::empty())
    } else {
        match run(prog.drop_last(), fields) {
            Ok(stack) => step(stack, prog.last(), fields),
            Err(e) => Err(e),
        }
    }
}

/// The value of a postfix program on a row: the one value left on the stack.
pub open spec fn evaluate(prog: Seq<ExpToken>, fields: Seq<(String, Cell)>) -> Result<i64, ExprError> {
    match run(prog, fields) {
        Ok(stack) => if stack.len() == 1 {
            Ok(stack[0])
        } else {
            Err(ExprError::Malformed)
        },
        Err(e) => Err(e),
    }
}

proof fn lemma_run_error_stays(prog: Seq<ExpToken>, fields: Seq<(String, Cell)>, i: int)
    requires
        0 <= i <= prog.len(),
        run(prog.take(i), fields) is Err,
    ensures
        run(prog, fields) == run(prog.take(i), fields),
    decreases prog.len() - i,
{
    if i < prog.len() {
        assert(prog.take(i + 1).drop_last() =~= prog.take(i));
        lemma_run_error_stays(prog, fields, i + 1);
    } else {
        assert(prog.take(i) =~= prog);
    }
}

/// The result of `new_operator` on an evaluator with these operators and
/// this program, and its operators and program afterwards.
pub open spec fn after_operator(pending: Seq<Pending>, prog: Seq<ExpToken>, text: Seq<char>) -> (Result<(), ExprError>, Seq<Pending>, Seq<ExpToken>) {
    match operator_of_text(text) {
        None => (Err::<(), ExprError>(ExprError::UnknownOperator), pending, prog),
        Some(OpText::Open) => (Ok::<(), ExprError>(()), pending.push(Pending::Open), prog),
        Some(OpText::Close) => {
            let (st, pr) = reduce(pending, prog, 0);
            if st.len() > 0 {
                (Ok::<(), ExprError>(()), st.drop_last(), pr)
            } else {
                (Err::<(), ExprError>(ExprError::Unbalanced), st, pr)
            }
        },
        Some(OpText::Bin(op)) => {
            let (st, pr) = reduce(pending, prog, priority(op));
            (Ok::<(), ExprError>(()), st.push(Pending::Bin(op)), pr)
        },
    }
}

/// The result of `new_number` on this program, and the program afterwards.
pub open spec fn after_number(prog: Seq<ExpToken>, text: Seq<char>) -> (Result<(), ExprError>, Seq<ExpToken>) {
    match decimal_i64(text) {
        Some(n) => (Ok::<(), ExprError>(()), prog.push(ExpToken::Number(n))),
        None => (Err::<(), ExprError>(ExprError::BadNumber), prog),
    }
}

/// Compiles infix expressions to postfix form and evaluates them.
pub struct ExpressionEvaluator {
    op_stack: Vec<Pending>,
    pf_exp: Vec<ExpToken>,
}

impl ExpressionEvaluator {
    /// The operators waiting on the stack, bottom first.
    pub closed spec fn pending(&self) -> Seq<Pending> {
        self.op_stack@
    }

    /// The postfix program compiled so far.
    pub closed spec fn program(&self) -> Seq<ExpToken> {
        self.pf_exp@
    }

    /// An evaluator with no operator and an empty program.
    pub fn new() -> (r: ExpressionEvaluator)
        ensures
            r.pending() == Seq::<Pending>::empty(),
            r.program() == Seq::<ExpToken>::empty(),
    {
        ExpressionEvaluator { op_stack: Vec::new(), pf_exp: Vec::new() }
    }

    /// Forgets the program and the waiting operators.
    pub fn clear(&mut self)
        ensures
            final(self).pending() == Seq::<Pending>::empty(),
            final(self).program() == Seq::<ExpToken>::empty(),
    {
        self.pf_exp.clear();
        self.op_stack.clear();
    }

    /// Whether no operand or operator has been put in the program.
    pub fn is_empty(&self) -> (r: bool)
        ensures
            r == (self.program().len() == 0),
    {
        self.pf_exp.len() == 0
    }

    /// The operator on top of the stack, if any.
    fn top_op(&self) -> (r: Option<Pending>)
        ensures
            r == (if self.op_stack@.len() > 0 {
                Some(self.op_stack@.last())
            } else {
                None
            }),
    {
        if self.op_stack.len() > 0 {
            Some(self.op_stack[self.op_stack.len() - 1])
        } else {
            None
        }
    }

    /// Moves operators of priority at least `p` from the stack to the program.
    fn reduce_to(&mut self, p: u8)
        ensures
            (final(self).op_stack@, final(self).pf_exp@) == reduce(
                old(self).op_stack@,
                old(self).pf_exp@,
                p as int,
            ),
    {
        loop
            invariant
                reduce(self.op_stack@, self.pf_exp@, p as int) == reduce(
                    old(self).op_stack@,
                    old(self).pf_exp@,
                    p as int,
                ),
            decreases self.op_stack@.len(),
        {
            match self.top_op() {
                Some(Pending::Bin(op)) => {
                    if get_priority(op) >= p {
                        self.op_stack.pop();
                        self.pf_exp.push(ExpToken::Operator(op));
                    } else {
                        return ;
                    }
                },
                _ => {
                    return ;
                },
            }
        }
    }

    /// Takes an operator token. `(` waits on the stack; `)` moves the
    /// operators above the matching `(` to the program and drops the `(`
    /// (`Unbalanced` when there is none); any other operator first moves the
    /// operators of priority at least its own, then waits on the stack.
    pub fn new_operator(&mut self, content: String) -> (r: Result<(), ExprError>)
        ensures
            (r, final(self).pending(), final(self).program()) == after_operator(
                old(self).pending(),
                old(self).program(),
                content@,
            ),
            match operator_of_text(content@) {
                None => r == Err::<(), ExprError>(ExprError::UnknownOperator) && final(self).pending()
                    == old(self).pending() && final(self).program() == old(self).program(),
                Some(OpText::Open) => r is Ok && final(self).pending() == old(self).pending().push(
                    Pending::Open,
                ) && final(self).program() == old(self).program(),
                Some(OpText::Close) => {
                    let (st, pr) = reduce(old(self).pending(), old(self).program(), 0);
                    &&& (r is Ok <==> st.len() > 0)
                    &&& (r is Err ==> r == Err::<(), ExprError>(ExprError::Unbalanced))
                    &&& final(self).program() == pr
                    &&& final(self).pending() == (if st.len() > 0 {
                        st.drop_last()
                    } else {
                        st
                    })
                },
                Some(OpText::Bin(op)) => {
                    let (st, pr) = reduce(old(self).pending(), old(self).program(), priority(op));
                    &&& r is Ok
                    &&& final(self).program() == pr
                    &&& final(self).pending() == st.push(Pending::Bin(op))
                },
            },
    {
        match operator_from_text(content.as_str()) {
            None => Err(ExprError::UnknownOperator),
            Some(OpText::Open) => {
                self.op_stack.push(Pending::Open);
                Ok(())
            },
            Some(OpText::Close) => {
                let r = self.close_parenthesis();
                proof {
                    let (st, pr) = reduce(old(self).pending(), old(self).program(), 0);
                    if st.len() > 0 {
                        assert(r == Ok::<(), ExprError>(()));
                    } else {
                        assert(r == Err::<(), ExprError>(ExprError::Unbalanced));
                    }
                }
                r
            },
            Some(OpText::Bin(op)) => {
                self.reduce_to(get_priority(op));
                self.op_stack.push(Pending::Bin(op));
                Ok(())
            },
        }
    }

    fn close_parenthesis(&mut self) -> (r: Result<(), ExprError>)
        ensures
            ({
                let (st, pr) = reduce(old(self).pending(), old(self).program(), 0);
                &&& (r is Ok <==> st.len() > 0)
                &&& (r is Ok ==> r == Ok::<(), ExprError>(()))
                &&& (r is Err ==> r == Err::<(), ExprError>(ExprError::Unbalanced))
                &&& final(self).program() == pr
                &&& final(self).pending() == (if st.len() > 0 {
                    st.drop_last()
                } else {
                    st
                })
            }),
    {
        self.reduce_to(0);
        if self.op_stack.len() > 0 {
            self.op_stack.pop();
            Ok(())
        } else {
            Err(ExprError::Unbalanced)
        }
    }

    /// Takes a parenthesis token, `(` or `)`, as `new_operator` does;
    /// `UnknownOperator`, with nothing changed, for any other text.
    pub fn new_parenthesis(&mut self, par: String) -> (r: Result<(), ExprError>)
        ensures
            match operator_of_text(par@) {
                Some(OpText::Open) => r is Ok && final(self).pending() == old(self).pending().push(
                    Pending::Open,
                ) && final(self).program() == old(self).program(),
                Some(OpText::Close) => {
                    let (st, pr) = reduce(old(self).pending(), old(self).program(), 0);
                    &&& (r is Ok <==> st.len() > 0)
                    &&& (r is Err ==> r == Err::<(), ExprError>(ExprError::Unbalanced))
                    &&& final(self).program() == pr
                    &&& final(self).pending() == (if st.len() > 0 {
                        st.drop_last()
                    } else {
                        st
                    })
                },
                _ => r == Err::<(), ExprError>(ExprError::UnknownOperator) && final(self).pending()
                    == old(self).pending() && final(self).program() == old(self).program(),
            },
    {
        match operator_from_text(par.as_str()) {
            Some(OpText::Open) => {
                self.op_stack.push(Pending::Open);
                Ok(())
            },
            Some(OpText::Close) => self.close_parenthesis(),
            _ => Err(ExprError::UnknownOperator),
        }
    }

    /// Appends a number written in decimal; `BadNumber`, with nothing
    /// changed, when the text is not a decimal `i64`.
    pub fn new_number(&mut self, number: String) -> (r: Result<(), ExprError>)
        ensures
            (r, final(self).program()) == after_number(old(self).program(), number@),
            match decimal_i64(number@) {
                Some(n) => r is Ok && final(self).program() == old(self).program().push(
                    ExpToken::Number(n),
                ),
                None => r == Err::<(), ExprError>(ExprError::BadNumber) && final(self).program()
                    == old(self).program(),
            },
            final(self).pending() == old(self).pending(),
    {
        match parse_i64(number.as_str()) {
            Some(n) => {
                self.pf_exp.push(ExpToken::Number(n));
                Ok(())
            },
            None => Err(ExprError::BadNumber),
        }
    }

    /// Appends a number given as such (the hash of a string literal).
    pub fn new_direct_number(&mut self, number: i64)
        ensures
            final(self).program() == old(self).program().push(ExpToken::Number(number)),
            final(self).pending() == old(self).pending(),
    {
        self.pf_exp.push(ExpToken::Number(number));
    }

    /// Appends a reference to a field of the row.
    pub fn new_field(&mut self, field_name: String)
        ensures
            final(self).program() == old(self).program().push(ExpToken::Field(field_name)),
            final(self).pending() == old(self).pending(),
    {
        self.pf_exp.push(ExpToken::Field(field_name));
    }

    /// Moves every waiting operator to the program, so that the program is
    /// complete; `Unbalanced` if a `(` is left among them.
    pub fn finish(&mut self) -> (r: Result<(), ExprError>)
        ensures
            ({
                let (st, pr) = reduce(old(self).pending(), old(self).program(), 0);
                &&& (r is Ok <==> st.len() == 0)
                &&& (r is Err ==> r == Err::<(), ExprError>(ExprError::Unbalanced))
                &&& final(self).pending() == st
                &&& final(self).program() == pr
            }),
    {
        self.reduce_to(0);
        if self.op_stack.len() > 0 {
            Err(ExprError::Unbalanced)
        } else {
            Ok(())
        }
    }

    /// Evaluates the program on a row. Operators still waiting are first
    /// moved to the program (`Unbalanced` if a `(` is left among them). The
    /// program is then run from left to right on a value stack (see
    /// `evaluate`). With `clear` the program is dropped afterwards; without,
    /// it is kept to be evaluated on further rows.
    pub fn compute(&mut self, row: &Row, clear: bool) -> (r: Result<i64, ExprError>)
        ensures
            ({
                let (st, pr) = reduce(old(self).pending(), old(self).program(), 0);
                if st.len() > 0 {
                    &&& r == Err::<i64, ExprError>(ExprError::Unbalanced)
                    &&& final(self).pending() == st
                    &&& final(self).program() == pr
                } else {
                    &&& r == evaluate(pr, row.fields@)
                    &&& final(self).pending() == st
                    &&& final(self).program() == (if clear {
                        Seq::<ExpToken>::empty()
                    } else {
                        pr
                    })
                }
            }),
    {
        self.reduce_to(0);
        if self.op_stack.len() > 0 {
            return Err(ExprError::Unbalanced);
        }
        let r = self.eval_row(row);
        if clear {
            self.pf_exp.clear();
        }
        r
    }

    /// Evaluates the program as it stands on a row, leaving the evaluator
    /// unchanged (operators still waiting are not part of the program).
    pub fn eval_row(&self, row: &Row) -> (r: Result<i64, ExprError>)
        ensures
            r == evaluate(self.program(), row.fields@),
    {
        let ghost prog = self.pf_exp@;
        let mut stack: Vec<i64> = Vec::new();
        let mut i: usize = 0;
        assert(prog.take(0) =~= Seq::<ExpToken>::empty());
        while i < self.pf_exp.len()
            invariant
                prog == self.pf_exp@,
                i <= prog.len(),
                run(prog.take(i as int), row.fields@) == Ok::<Seq<i64>, ExprError>(stack@),
            decreases prog.len() - i,
        {
            assert(prog.take(i as int + 1).drop_last() =~= prog.take(i as int));
            assert(prog.take(i as int + 1).last() == prog[i as int]);
            match &self.pf_exp[i] {
                ExpToken::Number(n) => {
                    stack.push(*n);
                },
                ExpToken::Field(name) => {
                    match row.get(name) {
                        Some(c) => {
                            stack.push(cell_value(c));
                        },
                        None => {
                            proof {
                                lemma_run_error_stays(prog, row.fields@, i as int + 1);
                            }
                            return Err(ExprError::MissingField);
                        },
                    }
                },
                ExpToken::Operator(op) => {
                    if stack.len() < 2 {
                        proof {
                            lemma_run_error_stays(prog, row.fields@, i as int + 1);
                        }
                        return Err(ExprError::Malformed);
                    }
                    let right = stack.pop().unwrap();
                    let left = stack.pop().unwrap();
                    match apply_op(*op, left, right) {
                        Some(v) => {
                            stack.push(v);
                        },
                        None => {
                            proof {
                                lemma_run_error_stays(prog, row.fields@, i as int + 1);
                            }
                            return Err(ExprError::Arithmetic);
                        },
                    }
                },
            }
            i = i + 1;
        }
        assert(prog.take(prog.len() as int) =~= prog);
        if stack.len() == 1 {
            Ok(stack[0])
        } else {
            Err(ExprError::Malformed)
        }
    }
}

/// Whether a row satisfies a predicate program; an empty program (no
/// predicate) is satisfied by every row.
pub open spec fn satisfies(prog: Seq<ExpToken>, fields: Seq<(String, Cell)>) -> Result<bool, ExprError> {
    if prog.len() == 0 {
        Ok(true)
    } else {
        match evaluate(prog, fields) {
            Ok(v) => Ok(v != 0),
            Err(e) => Err(e),
        }
    }
}

/// Tests a row against a predicate program (see `satisfies`).
pub fn row_matches(expr: &ExpressionEvaluator, row: &Row) -> (r: Result<bool, ExprError>)
    ensures
        r == satisfies(expr.program(), row.fields@),
{
    if expr.is_empty() {
        Ok(true)
    } else {
        match expr.eval_row(row) {
            Ok(v) => Ok(v != 0),
            Err(e) => Err(e),
        }
    }
}

} // verus!
