//! Tables and the catalog of tables, in memory.
use vstd::prelude::*;
use crate::error::Error;
use crate::expression::{evaluate, row_matches, satisfies, ExprError, ExpToken, ExpressionEvaluator};
use crate::row::{lookup, store, Cell, Row};
use crate::value::{Column, Type, Value};

verus! {

/// Whether some column has this name.
pub open spec fn has_col(cols: Seq<Column>, name: Seq<char>) -> bool {
    exists|i: int| 0 <= i < cols.len() && #[trigger] cols[i].col_name() == name
}

/// Whether no two columns share a name.
pub open spec fn distinct_cols(cols: Seq<Column>) -> bool {
    forall|i: int, j: int|
        0 <= i < j < cols.len() ==> #[trigger] cols[i].col_name() != #[trigger] cols[j].col_name()
}

/// The column of that name (meaningful when there is one).
pub open spec fn col_named(cols: Seq<Column>, name: Seq<char>) -> Column {
    cols[choose|i: int| 0 <= i < cols.len() && #[trigger] cols[i].col_name() == name]
}

/// Whether a cell holds value `v` as a column of type `t` stores it: a
/// string column keeps the text, any other the number.
pub open spec fn cell_holds(c: Cell, t: Type, v: Value) -> bool {
    match c {
        Cell::Text(s) => t == Type::String && s@ == v.text(),
        Cell::Int(n) => t != Type::String && n == v.num(),
    }
}

/// The cells of each row.
pub open spec fn rows_fields(rows: Seq<Row>) -> Seq<Seq<(String, Cell)>> {
    rows.map_values(|r: Row| r.fields@)
}

/// The cells of `fields` under the requested names, in the requested
/// order; a name with no cell is skipped.
pub open spec fn project(fields: Seq<(String, Cell)>, cols: Seq<String>) -> Seq<(String, Cell)>
    decreases cols.len(),
{
    if cols.len() == 0 {
        Seq::empty()
    } else {
        let prev = project(fields, cols.drop_last());
        match lookup(fields, cols.last()@) {
            Some(c) => prev.push((cols.last(), c)),
            None => prev,
        }
    }
}

/// What a SELECT returns: the projection of each row that satisfies the
/// predicate, in storage order.
pub open spec fn selected(prog: Seq<ExpToken>, rows: Seq<Row>, cols: Seq<String>) -> Result<Seq<Seq<(String, Cell)>>, ExprError>
    decreases rows.len(),
{
    if rows.len() == 0 {
        Ok(Seq::empty())
    } else {
        match selected(prog, rows.drop_last(), cols) {
            Err(e) => Err(e),
            Ok(acc) => match satisfies(prog, rows.last().fields@) {
                Err(e) => Err(e),
                Ok(true) => Ok(acc.push(project(rows.last().fields@, cols))),
                Ok(false) => Ok(acc),
            },
        }
    }
}

/// The rows that a DELETE keeps: those that do not satisfy the predicate,
/// in storage order.
pub open spec fn kept(prog: Seq<ExpToken>, rows: Seq<Row>) -> Result<Seq<Seq<(String, Cell)>>, ExprError>
    decreases rows.len(),
{
    if rows.len() == 0 {
        Ok(Seq::empty())
    } else {
        match kept(prog, rows.drop_last()) {
            Err(e) => Err(e),
            Ok(acc) => match satisfies(prog, rows.last().fields@) {
                Err(e) => Err(e),
                Ok(true) => Ok(acc),
                Ok(false) => Ok(acc.push(rows.last().fields@)),
            },
        }
    }
}

/// The right-hand side of an assignment of a SET: a string literal, or an
/// expression evaluated on the row.
pub enum AssignValue {
    Text(String),
    Expr(ExpressionEvaluator),
}

/// One assignment of a SET: a column and the value it receives.
pub struct Assignment {
    pub column: String,
    pub value: AssignValue,
}

/// A row's cells after the assignments, made one after the other, each
/// right-hand side evaluated on the row as the earlier ones left it.
pub open spec fn assigned(fields: Seq<(String, Cell)>, asg: Seq<Assignment>) -> Result<Seq<(String, Cell)>, ExprError>
    decreases asg.len(),
{
    if asg.len() == 0 {
        Ok(fields)
    } else {
        match assigned(fields, asg.drop_last()) {
            Err(e) => Err(e),
            Ok(f) => match asg.last().value {
                AssignValue::Text(s) => Ok(store(f, asg.last().column, Cell::Text(s))),
                AssignValue::Expr(x) => match evaluate(x.program(), f) {
                    Ok(v) => Ok(store(f, asg.last().column, Cell::Int(v))),
                    Err(e) => Err(e),
                },
            },
        }
    }
}

/// The rows after a SET: each row that satisfies the predicate receives the
/// assignments; the others stay as they are.
pub open spec fn updated(prog: Seq<ExpToken>, rows: Seq<Row>, asg: Seq<Assignment>) -> Result<Seq<Seq<(String, Cell)>>, ExprError>
    decreases rows.len(),
{
    if rows.len() == 0 {
        Ok(Seq::empty())
    } else {
        match updated(prog, rows.drop_last(), asg) {
            Err(e) => Err(e),
            Ok(acc) => match satisfies(prog, rows.last().fields@) {
                Err(e) => Err(e),
                Ok(true) => match assigned(rows.last().fields@, asg) {
                    Ok(f) => Ok(acc.push(f)),
                    Err(e) => Err(e),
                },
                Ok(false) => Ok(acc.push(rows.last().fields@)),
            },
        }
    }
}

/// A table: its name, its primary-key column, its columns and its rows.
#[derive(Debug)]
pub struct Table {
    name: String,
    columns: Vec<Column>,
    p_key: String,
    lines: Vec<Row>,
}

impl Table {
    pub closed spec fn tname(&self) -> Seq<char> {
        self.name@
    }

    pub closed spec fn cols(&self) -> Seq<Column> {
        self.columns@
    }

    pub closed spec fn pkey(&self) -> Seq<char> {
        self.p_key@
    }

    pub closed spec fn rows(&self) -> Seq<Row> {
        self.lines@
    }

    /// A table with no name, no column, no primary key and no row.
    pub fn new() -> (r: Table)
        ensures
            r.tname() == Seq::<char>::empty(),
            r.cols() == Seq::<Column>::empty(),
            r.pkey() == Seq::<char>::empty(),
            r.rows() == Seq::<Row>::empty(),
    {
        Table { name: String::new(), columns: Vec::new(), p_key: String::new(), lines: Vec::new() }
    }

    /// Replaces the rows, as read from the table's row file.
    pub fn set_rows(&mut self, rows: Vec<Row>)
        ensures
            final(self).rows() == rows@,
            final(self).tname() == old(self).tname(),
            final(self).cols() == old(self).cols(),
            final(self).pkey() == old(self).pkey(),
    {
        self.lines = rows;
    }

    /// Empties the rows, as a new table file holds none.
    pub fn save(&mut self)
        ensures
            final(self).rows() == Seq::<Row>::empty(),
            final(self).tname() == old(self).tname(),
            final(self).cols() == old(self).cols(),
            final(self).pkey() == old(self).pkey(),
    {
        self.lines = Vec::new();
    }

    pub fn set_pkey(&mut self, p_key: String)
        ensures
            final(self).pkey() == p_key@,
            final(self).tname() == old(self).tname(),
            final(self).cols() == old(self).cols(),
            final(self).rows() == old(self).rows(),
    {
        self.p_key = p_key;
    }

    pub fn set_name(&mut self, name: String)
        ensures
            final(self).tname() == name@,
            final(self).pkey() == old(self).pkey(),
            final(self).cols() == old(self).cols(),
            final(self).rows() == old(self).rows(),
    {
        self.name = name
    }

    /// Whether the table has been given a name.
    pub fn has_name(&self) -> (r: bool)
        ensures
            r == (self.tname().len() > 0),
    {
        self.name.as_str().unicode_len() > 0
    }

    /// Adds a column; no column of the table may have its name.
    pub fn add_column(&mut self, column: Column)
        requires
            !has_col(old(self).cols(), column.col_name()),
        ensures
            final(self).cols() == old(self).cols().push(column),
            final(self).tname() == old(self).tname(),
            final(self).pkey() == old(self).pkey(),
            final(self).rows() == old(self).rows(),
    {
        self.columns.push(column);
    }

    fn column_position(&self, name: &String) -> (r: Option<usize>)
        ensures
            match r {
                Some(i) => i < self.cols().len() && self.cols()[i as int].col_name() == name@,
                None => !has_col(self.cols(), name@),
            },
    {
        let mut i: usize = 0;
        while i < self.columns.len()
            invariant
                i <= self.columns@.len(),
                forall|j: int| 0 <= j < i ==> #[trigger] self.columns@[j].col_name() != name@,
            decreases self.columns@.len() - i,
        {
            if *self.columns[i].name() == *name {
                return Some(i);
            }
            i = i + 1;
        }
        None
    }

    /// Whether the table has a column of that name.
    pub fn column_exists(&self, name: &String) -> (r: bool)
        ensures
            r == has_col(self.cols(), name@),
    {
        self.column_position(name).is_some()
    }

    /// The column of that name, which must exist.
    pub fn get_column(&self, name: &String) -> (r: &Column)
        requires
            has_col(self.cols(), name@),
        ensures
            r.col_name() == name@,
            exists|i: int| 0 <= i < self.cols().len() && self.cols()[i] == *r,
    {
        let i = self.column_position(name).unwrap();
        &self.columns[i]
    }

    /// Whether the table has a column of that name that no value was
    /// supplied for yet.
    pub fn column_exists_without_flag(&self, name: &String) -> (r: bool)
        requires
            distinct_cols(self.cols()),
        ensures
            r == (has_col(self.cols(), name@) && !col_named(self.cols(), name@).flagged()),
    {
        match self.column_position(name) {
            Some(i) => {
                let ghost k = choose|k: int|
                    0 <= k < self.cols().len() && #[trigger] self.cols()[k].col_name() == name@;
                assert(k == i) by {
                    if k != i {
                        if k < i {
                            assert(self.cols()[k].col_name() != self.cols()[i as int].col_name());
                        } else {
                            assert(self.cols()[i as int].col_name() != self.cols()[k].col_name());
                        }
                    }
                }
                !self.columns[i].flag()
            },
            None => false,
        }
    }

    /// Marks the column of that name as supplied.
    pub fn active_column_flag(&mut self, name: &String)
        requires
            has_col(old(self).cols(), name@),
        ensures
            final(self).cols().len() == old(self).cols().len(),
            forall|j: int|
                0 <= j < old(self).cols().len() ==> {
                    let (a, b) = (#[trigger] final(self).cols()[j], old(self).cols()[j]);
                    &&& a.col_name() == b.col_name()
                    &&& a.col_type() == b.col_type()
                    &&& a.default() == b.default()
                    &&& a.flagged() == (b.flagged() || b.col_name() == name@)
                },
            final(self).tname() == old(self).tname(),
            final(self).pkey() == old(self).pkey(),
            final(self).rows() == old(self).rows(),
    {
        let mut i: usize = 0;
        while i < self.columns.len()
            invariant
                i <= self.columns@.len(),
                self.columns@.len() == old(self).columns@.len(),
                forall|j: int|
                    0 <= j < self.columns@.len() ==> {
                        let (a, b) = (#[trigger] self.columns@[j], old(self).columns@[j]);
                        &&& a.col_name() == b.col_name()
                        &&& a.col_type() == b.col_type()
                        &&& a.default() == b.default()
                        &&& a.flagged() == (b.flagged() || (j < i && b.col_name() == name@))
                    },
                self.name == old(self).name,
                self.p_key == old(self).p_key,
                self.lines == old(self).lines,
            decreases self.columns@.len() - i,
        {
            if *self.columns[i].name() == *name {
                let mut c = self.columns.remove(i);
                c.active_flag();
                self.columns.insert(i, c);
            }
            i = i + 1;
        }
    }

    /// Clears the flag of every column.
    pub fn reset_all_flags(&mut self)
        ensures
            final(self).cols().len() == old(self).cols().len(),
            forall|j: int|
                0 <= j < old(self).cols().len() ==> {
                    let (a, b) = (#[trigger] final(self).cols()[j], old(self).cols()[j]);
                    &&& a.col_name() == b.col_name()
                    &&& a.col_type() == b.col_type()
                    &&& a.default() == b.default()
                    &&& !a.flagged()
                },
            final(self).tname() == old(self).tname(),
            final(self).pkey() == old(self).pkey(),
            final(self).rows() == old(self).rows(),
    {
        let mut i: usize = 0;
        while i < self.columns.len()
            invariant
                i <= self.columns@.len(),
                self.columns@.len() == old(self).columns@.len(),
                forall|j: int|
                    0 <= j < self.columns@.len() ==> {
                        let (a, b) = (#[trigger] self.columns@[j], old(self).columns@[j]);
                        &&& a.col_name() == b.col_name()
                        &&& a.col_type() == b.col_type()
                        &&& a.default() == b.default()
                        &&& a.flagged() == (b.flagged() && j >= i)
                    },
                self.name == old(self).name,
                self.p_key == old(self).p_key,
                self.lines == old(self).lines,
            decreases self.columns@.len() - i,
        {
            let mut c = self.columns.remove(i);
            c.disable_flag();
            self.columns.insert(i, c);
            i = i + 1;
        }
    }

    pub fn name(&self) -> (r: &String)
        ensures
            r@ == self.tname(),
    {
        &self.name
    }

    pub fn get_cols(&self) -> (r: &Vec<Column>)
        ensures
            r@ == self.cols(),
    {
        &self.columns
    }

    pub fn p_key(&self) -> (r: &String)
        ensures
            r@ == self.pkey(),
    {
        &self.p_key
    }

    /// The names of the columns, in order.
    pub fn column_names(&self) -> (r: Vec<String>)
        ensures
            r@.len() == self.cols().len(),
            forall|i: int| 0 <= i < r@.len() ==> (#[trigger] r@[i])@ == self.cols()[i].col_name(),
    {
        let mut r: Vec<String> = Vec::new();
        let mut i: usize = 0;
        while i < self.columns.len()
            invariant
                i <= self.columns@.len(),
                r@.len() == i,
                forall|j: int| 0 <= j < i ==> (#[trigger] r@[j])@ == self.columns@[j].col_name(),
            decreases self.columns@.len() - i,
        {
            r.push(self.columns[i].name().clone());
            i = i + 1;
        }
        r
    }

    /// The rows, in storage order.
    pub fn lines(&self) -> (r: &Vec<Row>)
        ensures
            r@ == self.rows(),
    {
        &self.lines
    }
}

/// With distinct names, the column named after `cols[i]` is `cols[i]`.
pub proof fn lemma_col_named(cols: Seq<Column>, i: int)
    requires
        distinct_cols(cols),
        0 <= i < cols.len(),
    ensures
        col_named(cols, cols[i].col_name()) == cols[i],
{
    let name = cols[i].col_name();
    let k = choose|k: int| 0 <= k < cols.len() && #[trigger] cols[k].col_name() == name;
    if k != i {
        if k < i {
            assert(cols[k].col_name() != cols[i].col_name());
        } else {
            assert(cols[i].col_name() != cols[k].col_name());
        }
    }
}

proof fn lemma_selected_error(prog: Seq<ExpToken>, rows: Seq<Row>, cols: Seq<String>, i: int)
    requires
        0 <= i <= rows.len(),
        selected(prog, rows.take(i), cols) is Err,
    ensures
        selected(prog, rows, cols) == selected(prog, rows.take(i), cols),
    decreases rows.len() - i,
{
    if i < rows.len() {
        assert(rows.take(i + 1).drop_last() =~= rows.take(i));
        lemma_selected_error(prog, rows, cols, i + 1);
    } else {
        assert(rows.take(i) =~= rows);
    }
}

proof fn lemma_kept_error(prog: Seq<ExpToken>, rows: Seq<Row>, i: int)
    requires
        0 <= i <= rows.len(),
        kept(prog, rows.take(i)) is Err,
    ensures
        kept(prog, rows) == kept(prog, rows.take(i)),
    decreases rows.len() - i,
{
    if i < rows.len() {
        assert(rows.take(i + 1).drop_last() =~= rows.take(i));
        lemma_kept_error(prog, rows, i + 1);
    } else {
        assert(rows.take(i) =~= rows);
    }
}

proof fn lemma_updated_error(prog: Seq<ExpToken>, rows: Seq<Row>, asg: Seq<Assignment>, i: int)
    requires
        0 <= i <= rows.len(),
        updated(prog, rows.take(i), asg) is Err,
    ensures
        updated(prog, rows, asg) == updated(prog, rows.take(i), asg),
    decreases rows.len() - i,
{
    if i < rows.len() {
        assert(rows.take(i + 1).drop_last() =~= rows.take(i));
        lemma_updated_error(prog, rows, asg, i + 1);
    } else {
        assert(rows.take(i) =~= rows);
    }
}

proof fn lemma_assigned_error(fields: Seq<(String, Cell)>, asg: Seq<Assignment>, i: int)
    requires
        0 <= i <= asg.len(),
        assigned(fields, asg.take(i)) is Err,
    ensures
        assigned(fields, asg) == assigned(fields, asg.take(i)),
    decreases asg.len() - i,
{
    if i < asg.len() {
        assert(asg.take(i + 1).drop_last() =~= asg.take(i));
        lemma_assigned_error(fields, asg, i + 1);
    } else {
        assert(asg.take(i) =~= asg);
    }
}

/// The projection of a row on the requested columns (see `project`).
pub fn project_row(row: &Row, cols: &Vec<String>) -> (r: Row)
    ensures
        r.fields@ == project(row.fields@, cols@),
{
    let mut out = Row::new();
    let mut k: usize = 0;
    assert(cols@.take(0) =~= Seq::<String>::empty());
    while k < cols.len()
        invariant
            k <= cols@.len(),
            out.fields@ == project(row.fields@, cols@.take(k as int)),
        decreases cols@.len() - k,
    {
        assert(cols@.take(k as int + 1).drop_last() =~= cols@.take(k as int));
        match row.get(&cols[k]) {
            Some(c) => {
                out.fields.push((cols[k].clone(), c.duplicate()));
            },
            None => {},
        }
        k = k + 1;
    }
    assert(cols@.take(cols@.len() as int) =~= cols@);
    out
}

/// Makes the assignments of a SET on a copy of a row (see `assigned`).
pub fn assign_row(row: &Row, asg: &Vec<Assignment>) -> (r: Result<Row, ExprError>)
    ensures
        match assigned(row.fields@, asg@) {
            Ok(f) => r is Ok && r.unwrap().fields@ == f,
            Err(e) => r == Err::<Row, ExprError>(e),
        },
{
    let mut cur = row.duplicate();
    let mut k: usize = 0;
    assert(asg@.take(0) =~= Seq::<Assignment>::empty());
    while k < asg.len()
        invariant
            k <= asg@.len(),
            assigned(row.fields@, asg@.take(k as int)) == Ok::<Seq<(String, Cell)>, ExprError>(
                cur.fields@,
            ),
        decreases asg@.len() - k,
    {
        assert(asg@.take(k as int + 1).drop_last() =~= asg@.take(k as int));
        assert(asg@.take(k as int + 1).last() == asg@[k as int]);
        let a = &asg[k];
        match &a.value {
            AssignValue::Text(s) => {
                cur.set(a.column.clone(), Cell::Text(s.clone()));
            },
            AssignValue::Expr(x) => {
                match x.eval_row(&cur) {
                    Ok(v) => {
                        cur.set(a.column.clone(), Cell::Int(v));
                    },
                    Err(e) => {
                        proof {
                            lemma_assigned_error(row.fields@, asg@, k as int + 1);
                        }
                        return Err(e);
                    },
                }
            },
        }
        k = k + 1;
    }
    assert(asg@.take(asg@.len() as int) =~= asg@);
    Ok(cur)
}

impl Table {
    /// Appends a row holding `values[k]` under `asked_cols[k]`, stored as
    /// that column's type asks (see `cell_holds`).
    pub fn insert(&mut self, asked_cols: &Vec<String>, values: &Vec<Value>)
        requires
            distinct_cols(old(self).cols()),
            asked_cols@.len() == values@.len(),
            forall|k: int| 0 <= k < asked_cols@.len() ==> has_col(old(self).cols(), #[trigger] asked_cols@[k]@),
        ensures
            final(self).rows().len() == old(self).rows().len() + 1,
            final(self).rows().take(old(self).rows().len() as int) == old(self).rows(),
            ({
                let f = final(self).rows().last().fields@;
                &&& f.len() == asked_cols@.len()
                &&& forall|k: int|
                    0 <= k < f.len() ==> (#[trigger] f[k]).0 == asked_cols@[k] && cell_holds(
                        f[k].1,
                        col_named(old(self).cols(), asked_cols@[k]@).col_type(),
                        values@[k],
                    )
            }),
            final(self).tname() == old(self).tname(),
            final(self).cols() == old(self).cols(),
            final(self).pkey() == old(self).pkey(),
    {
        let mut row = Row::new();
        let mut k: usize = 0;
        while k < asked_cols.len()
            invariant
                distinct_cols(self.cols()),
                asked_cols@.len() == values@.len(),
                forall|j: int| 0 <= j < asked_cols@.len() ==> has_col(self.cols(), #[trigger] asked_cols@[j]@),
                k <= asked_cols@.len(),
                row.fields@.len() == k,
                forall|j: int|
                    0 <= j < k ==> (#[trigger] row.fields@[j]).0 == asked_cols@[j] && cell_holds(
                        row.fields@[j].1,
                        col_named(self.cols(), asked_cols@[j]@).col_type(),
                        values@[j],
                    ),
            decreases asked_cols@.len() - k,
        {
            let col = self.get_column(&asked_cols[k]);
            proof {
                let i = choose|i: int| 0 <= i < self.cols().len() && self.cols()[i] == *col;
                lemma_col_named(self.cols(), i);
            }
            let v = &values[k];
            let cell = if col.get_type() == Type::String {
                Cell::Text(v.string().clone())
            } else {
                Cell::Int(v.val())
            };
            row.fields.push((asked_cols[k].clone(), cell));
            k = k + 1;
        }
        self.lines.push(row);
        assert(self.lines@.take(old(self).lines@.len() as int) =~= old(self).lines@);
    }

    /// The projections on `cols` of the rows that satisfy the predicate (see
    /// `selected`).
    pub fn select(&self, expr: &ExpressionEvaluator, cols: &Vec<String>) -> (r: Result<Vec<Row>, ExprError>)
        ensures
            match selected(expr.program(), self.rows(), cols@) {
                Ok(s) => r is Ok && rows_fields(r.unwrap()@) == s,
                Err(e) => r == Err::<Vec<Row>, ExprError>(e),
            },
    {
        let ghost rows = self.lines@;
        let mut out: Vec<Row> = Vec::new();
        let mut i: usize = 0;
        assert(rows.take(0) =~= Seq::<Row>::empty());
        assert(rows_fields(out@) =~= Seq::<Seq<(String, Cell)>>::empty());
        while i < self.lines.len()
            invariant
                rows == self.lines@,
                i <= rows.len(),
                selected(expr.program(), rows.take(i as int), cols@) == Ok::<
                    Seq<Seq<(String, Cell)>>,
                    ExprError,
                >(rows_fields(out@)),
            decreases rows.len() - i,
        {
            assert(rows.take(i as int + 1).drop_last() =~= rows.take(i as int));
            assert(rows.take(i as int + 1).last() == rows[i as int]);
            match row_matches(expr, &self.lines[i]) {
                Ok(true) => {
                    let p = project_row(&self.lines[i], cols);
                    let ghost before = out@;
                    out.push(p);
                    assert(rows_fields(out@) =~= rows_fields(before).push(p.fields@));
                },
                Ok(false) => {},
                Err(e) => {
                    proof {
                        lemma_selected_error(expr.program(), rows, cols@, i as int + 1);
                    }
                    return Err(e);
                },
            }
            i = i + 1;
        }
        assert(rows.take(rows.len() as int) =~= rows);
        Ok(out)
    }

    /// Removes the rows that satisfy the predicate, keeping the order of the
    /// others (see `kept`); on an error the rows are left as they were.
    pub fn delete_matching(&mut self, expr: &ExpressionEvaluator) -> (r: Result<(), ExprError>)
        ensures
            match kept(expr.program(), old(self).rows()) {
                Ok(s) => r is Ok && rows_fields(final(self).rows()) == s,
                Err(e) => r == Err::<(), ExprError>(e) && *final(self) == *old(self),
            },
            final(self).tname() == old(self).tname(),
            final(self).cols() == old(self).cols(),
            final(self).pkey() == old(self).pkey(),
    {
        let ghost rows = self.lines@;
        let mut out: Vec<Row> = Vec::new();
        let mut i: usize = 0;
        assert(rows.take(0) =~= Seq::<Row>::empty());
        assert(rows_fields(out@) =~= Seq::<Seq<(String, Cell)>>::empty());
        while i < self.lines.len()
            invariant
                rows == self.lines@,
                *self == *old(self),
                i <= rows.len(),
                kept(expr.program(), rows.take(i as int)) == Ok::<
                    Seq<Seq<(String, Cell)>>,
                    ExprError,
                >(rows_fields(out@)),
            decreases rows.len() - i,
        {
            assert(rows.take(i as int + 1).drop_last() =~= rows.take(i as int));
            assert(rows.take(i as int + 1).last() == rows[i as int]);
            match row_matches(expr, &self.lines[i]) {
                Ok(true) => {},
                Ok(false) => {
                    let p = self.lines[i].duplicate();
                    let ghost before = out@;
                    out.push(p);
                    assert(rows_fields(out@) =~= rows_fields(before).push(p.fields@));
                },
                Err(e) => {
                    proof {
                        lemma_kept_error(expr.program(), rows, i as int + 1);
                    }
                    return Err(e);
                },
            }
            i = i + 1;
        }
        assert(rows.take(rows.len() as int) =~= rows);
        self.lines = out;
        Ok(())
    }

    /// Makes the assignments on each row that satisfies the predicate (see
    /// `updated`); on an error the rows are left as they were.
    pub fn update_matching(&mut self, expr: &ExpressionEvaluator, asg: &Vec<Assignment>) -> (r: Result<(), ExprError>)
        ensures
            match updated(expr.program(), old(self).rows(), asg@) {
                Ok(s) => r is Ok && rows_fields(final(self).rows()) == s,
                Err(e) => r == Err::<(), ExprError>(e) && *final(self) == *old(self),
            },
            final(self).tname() == old(self).tname(),
            final(self).cols() == old(self).cols(),
            final(self).pkey() == old(self).pkey(),
    {
        let ghost rows = self.lines@;
        let mut out: Vec<Row> = Vec::new();
        let mut i: usize = 0;
        assert(rows.take(0) =~= Seq::<Row>::empty());
        assert(rows_fields(out@) =~= Seq::<Seq<(String, Cell)>>::empty());
        while i < self.lines.len()
            invariant
                rows == self.lines@,
                *self == *old(self),
                i <= rows.len(),
                updated(expr.program(), rows.take(i as int), asg@) == Ok::<
                    Seq<Seq<(String, Cell)>>,
                    ExprError,
                >(rows_fields(out@)),
            decreases rows.len() - i,
        {
            assert(rows.take(i as int + 1).drop_last() =~= rows.take(i as int));
            assert(rows.take(i as int + 1).last() == rows[i as int]);
            let p = match row_matches(expr, &self.lines[i]) {
                Ok(true) => match assign_row(&self.lines[i], asg) {
                    Ok(p) => p,
                    Err(e) => {
                        proof {
                            lemma_updated_error(expr.program(), rows, asg@, i as int + 1);
                        }
                        return Err(e);
                    },
                },
                Ok(false) => self.lines[i].duplicate(),
                Err(e) => {
                    proof {
                        lemma_updated_error(expr.program(), rows, asg@, i as int + 1);
                    }
                    return Err(e);
                },
            };
            let ghost before = out@;
            out.push(p);
            assert(rows_fields(out@) =~= rows_fields(before).push(p.fields@));
            i = i + 1;
        }
        assert(rows.take(rows.len() as int) =~= rows);
        self.lines = out;
        Ok(())
    }
}

/// Whether some table has this name.
pub open spec fn has_table(ts: Seq<Table>, name: Seq<char>) -> bool {
    exists|i: int| 0 <= i < ts.len() && #[trigger] ts[i].tname() == name
}

/// Whether no two tables share a name and no table has two columns of one name.
pub open spec fn catalog_wf(ts: Seq<Table>) -> bool {
    &&& forall|i: int, j: int|
        0 <= i < j < ts.len() ==> #[trigger] ts[i].tname() != #[trigger] ts[j].tname()
    &&& forall|i: int| 0 <= i < ts.len() ==> distinct_cols(#[trigger] ts[i].cols())
    &&& forall|i: int| 0 <= i < ts.len() ==> no_flag(#[trigger] ts[i].cols())
}

/// Whether no column is flagged: a catalog column carries no INSERT flag
/// (an INSERT keeps the columns it was given in its own list).
pub open spec fn no_flag(cols: Seq<Column>) -> bool {
    forall|c: int| 0 <= c < cols.len() ==> !(#[trigger] cols[c]).flagged()
}

/// The table of that name (meaningful when there is one).
pub open spec fn table_named(ts: Seq<Table>, name: Seq<char>) -> Table {
    ts[choose|i: int| 0 <= i < ts.len() && #[trigger] ts[i].tname() == name]
}

/// The catalog: the tables of the database.
pub struct Database {
    tables: Vec<Table>,
}

impl Database {
    pub closed spec fn tables(&self) -> Seq<Table> {
        self.tables@
    }

    pub open spec fn wf(&self) -> bool {
        catalog_wf(self.tables())
    }

    /// A database with no table.
    pub fn new_empty() -> (r: Database)
        ensures
            r.tables() == Seq::<Table>::empty(),
            r.wf(),
    {
        Database { tables: Vec::new() }
    }

    /// The position of the table of that name, if any.
    pub fn table_position(&self, name: &String) -> (r: Option<usize>)
        ensures
            match r {
                Some(i) => i < self.tables().len() && self.tables()[i as int].tname() == name@,
                None => !has_table(self.tables(), name@),
            },
    {
        let mut i: usize = 0;
        while i < self.tables.len()
            invariant
                i <= self.tables@.len(),
                forall|j: int| 0 <= j < i ==> #[trigger] self.tables@[j].tname() != name@,
            decreases self.tables@.len() - i,
        {
            if *self.tables[i].name() == *name {
                return Some(i);
            }
            i = i + 1;
        }
        None
    }

    /// Whether a table has that name.
    pub fn table_exists(&self, name: &String) -> (r: bool)
        ensures
            r == has_table(self.tables(), name@),
    {
        self.table_position(name).is_some()
    }

    /// Adds a table, with no row; no table may have its name yet.
    pub fn add_table(&mut self, table: Table)
        requires
            old(self).wf(),
            !has_table(old(self).tables(), table.tname()),
            distinct_cols(table.cols()),
            no_flag(table.cols()),
        ensures
            final(self).wf(),
            final(self).tables().len() == old(self).tables().len() + 1,
            final(self).tables().take(old(self).tables().len() as int) == old(self).tables(),
            final(self).tables().last().tname() == table.tname(),
            final(self).tables().last().cols() == table.cols(),
            final(self).tables().last().pkey() == table.pkey(),
            final(self).tables().last().rows() == Seq::<Row>::empty(),
    {
        let mut table = table;
        table.save();
        self.tables.push(table);
        assert(self.tables@.take(old(self).tables@.len() as int) =~= old(self).tables@);
        assert forall|i: int, j: int|
            0 <= i < j < self.tables@.len() implies #[trigger] self.tables@[i].tname()
            != #[trigger] self.tables@[j].tname() by {
            if j == self.tables@.len() - 1 {
                assert(old(self).tables@[i].tname() != table.tname());
            }
        }
    }

    /// Removes the table of that name, which must exist.
    pub fn delete_table(&mut self, name: &String)
        requires
            old(self).wf(),
            has_table(old(self).tables(), name@),
        ensures
            final(self).wf(),
            exists|i: int|
                0 <= i < old(self).tables().len() && old(self).tables()[i].tname() == name@
                    && final(self).tables() == old(self).tables().remove(i),
            !has_table(final(self).tables(), name@),
    {
        let i = self.table_position(name).unwrap();
        self.tables.remove(i);
        let ghost ts = old(self).tables@;
        assert(self.tables@ == ts.remove(i as int));
        assert forall|a: int, b: int|
            0 <= a < b < self.tables@.len() implies #[trigger] self.tables@[a].tname()
            != #[trigger] self.tables@[b].tname() by {
            let a2 = if a < i { a } else { a + 1 };
            let b2 = if b < i { b } else { b + 1 };
            assert(self.tables@[a] == ts[a2]);
            assert(self.tables@[b] == ts[b2]);
        }
        assert forall|a: int| 0 <= a < self.tables@.len() implies distinct_cols(
            #[trigger] self.tables@[a].cols(),
        ) by {
            let a2 = if a < i { a } else { a + 1 };
            assert(self.tables@[a] == ts[a2]);
        }
        assert forall|a: int| 0 <= a < self.tables@.len() implies no_flag(#[trigger] self.tables@[a].cols()) by {
            let a2 = if a < i { a } else { a + 1 };
            assert(self.tables@[a] == ts[a2]);
            assert(no_flag(ts[a2].cols()));
        }
        assert(!has_table(self.tables@, name@)) by {
            if has_table(self.tables@, name@) {
                let a = choose|a: int| 0 <= a < self.tables@.len() && #[trigger] self.tables@[a].tname() == name@;
                let a2 = if a < i { a } else { a + 1 };
                assert(self.tables@[a] == ts[a2]);
                if a2 < i {
                    assert(ts[a2].tname() != ts[i as int].tname());
                } else {
                    assert(ts[i as int].tname() != ts[a2].tname());
                }
            }
        }
    }

    /// Removes every table.
    pub fn reset_database(&mut self)
        ensures
            final(self).tables() == Seq::<Table>::empty(),
            final(self).wf(),
    {
        self.tables.clear();
    }

    /// The table of that name, which must exist.
    pub fn get_table(&self, name: &String) -> (r: &Table)
        requires
            has_table(self.tables(), name@),
        ensures
            r.tname() == name@,
            exists|i: int| 0 <= i < self.tables().len() && self.tables()[i] == *r,
    {
        let i = self.table_position(name).unwrap();
        &self.tables[i]
    }

    /// The number of tables.
    pub fn table_count(&self) -> (r: usize)
        ensures
            r == self.tables().len(),
    {
        self.tables.len()
    }

    /// The table at position `i`.
    pub fn table_at(&self, i: usize) -> (r: &Table)
        requires
            i < self.tables().len(),
        ensures
            *r == self.tables()[i as int],
    {
        &self.tables[i]
    }

    /// The table at position `i`, to be changed in place.
    pub fn table_at_mut(&mut self, i: usize) -> (r: &mut Table)
        requires
            i < old(self).tables().len(),
        ensures
            *r == old(self).tables()[i as int],
            final(self).tables() == old(self).tables().update(i as int, *final(r)),
    {
        &mut self.tables[i]
    }

    /// `Ok` when the table of that name (which must exist) has every column
    /// named in `cols`; else `UnknownColumn` with the first that it lacks.
    pub fn test_column_existance(&self, table_name: &String, cols: &Vec<String>) -> (r: Result<(), Error>)
        requires
            self.wf(),
            has_table(self.tables(), table_name@),
        ensures
            ({
                let t = table_named(self.tables(), table_name@);
                &&& (r is Ok <==> (forall|k: int| 0 <= k < cols@.len() ==> has_col(t.cols(), #[trigger] cols@[k]@)))
                &&& (r is Err ==> exists|k: int|
                    0 <= k < cols@.len() && r == Err::<(), Error>(Error::UnknownColumn(cols@[k]))
                        && !has_col(t.cols(), cols@[k]@)
                        && forall|j: int| 0 <= j < k ==> has_col(t.cols(), #[trigger] cols@[j]@))
            }),
    {
        let i = self.table_position(table_name).unwrap();
        proof {
            lemma_table_named(self.tables(), i as int);
        }
        let table = &self.tables[i];
        let mut k: usize = 0;
        while k < cols.len()
            invariant
                k <= cols@.len(),
                table_named(self.tables(), table_name@) == *table,
                forall|j: int| 0 <= j < k ==> has_col(table.cols(), #[trigger] cols@[j]@),
            decreases cols@.len() - k,
        {
            if !table.column_exists(&cols[k]) {
                let c = cols[k].clone();
                let r = Err(Error::UnknownColumn(c));
                assert(0 <= k < cols@.len() && r == Err::<(), Error>(Error::UnknownColumn(cols@[k as int]))
                    && !has_col(table.cols(), cols@[k as int]@));
                return r;
            }
            k = k + 1;
        }
        Ok(())
    }
}

/// Replacing a table by one with the same name and columns keeps the
/// catalog well formed.
pub proof fn lemma_wf_update(ts: Seq<Table>, i: int, t: Table)
    requires
        catalog_wf(ts),
        0 <= i < ts.len(),
        t.tname() == ts[i].tname(),
        t.cols() == ts[i].cols(),
    ensures
        catalog_wf(ts.update(i, t)),
        has_table(ts.update(i, t), t.tname()),
        forall|name: Seq<char>| has_table(ts, name) <==> has_table(ts.update(i, t), name),
{
    let u = ts.update(i, t);
    assert forall|a: int, b: int| 0 <= a < b < u.len() implies #[trigger] u[a].tname() != #[trigger] u[b].tname() by {
        assert(ts[a].tname() != ts[b].tname());
    }
    assert forall|a: int| 0 <= a < u.len() implies distinct_cols(#[trigger] u[a].cols()) by {
        assert(distinct_cols(ts[a].cols()));
    }
    assert forall|a: int| 0 <= a < u.len() implies no_flag(#[trigger] u[a].cols()) by {
        assert(no_flag(ts[a].cols()));
    }
    assert(u[i].tname() == t.tname());
    assert forall|name: Seq<char>| has_table(ts, name) implies has_table(u, name) by {
        let a = choose|a: int| 0 <= a < ts.len() && #[trigger] ts[a].tname() == name;
        assert(u[a].tname() == name);
    }
    assert forall|name: Seq<char>| has_table(u, name) implies has_table(ts, name) by {
        let a = choose|a: int| 0 <= a < u.len() && #[trigger] u[a].tname() == name;
        assert(ts[a].tname() == name);
    }
}

/// With distinct names, the table named after `ts[i]` is `ts[i]`.
pub proof fn lemma_table_named(ts: Seq<Table>, i: int)
    requires
        catalog_wf(ts),
        0 <= i < ts.len(),
    ensures
        table_named(ts, ts[i].tname()) == ts[i],
{
    let name = ts[i].tname();
    let k = choose|k: int| 0 <= k < ts.len() && #[trigger] ts[k].tname() == name;
    if k != i {
        if k < i {
            assert(ts[k].tname() != ts[i].tname());
        } else {
            assert(ts[i].tname() != ts[k].tname());
        }
    }
}

} // verus!
