//! Statement handlers: one state machine per statement kind, fed with
//! tokens and finished at the statement's end.
use vstd::prelude::*;
use crate::error::Error;
use crate::expression::{after_number, after_operator, evaluate, ExpToken, ExpressionEvaluator, OpText, operator_of_text, reduce};
use crate::catalog::catalog_tree;
use crate::json::{json_text, rows_text, rows_tree};
use crate::row::Row;
use crate::table::{
    cell_holds, catalog_wf, distinct_cols, has_col, has_table, kept, rows_fields, selected, table_named, updated,
    Assignment, AssignValue, Database, Table,
};
use crate::token::{Flag, Token, TokenType};
use crate::decimal::decimal_of;
use crate::value::{keyword_of_type, text_is, text_hash, type_from_name, type_of_name, Column, StringBuilder, Type, Value};

verus! {

/// What a finished statement asks of the outside world.
#[derive(Debug)]
pub enum Effect {
    /// Write the catalog file with this text.
    WriteCatalog(String),
    /// Write the row file of the table with this text.
    WriteRows(String, String),
    /// Remove the row file of the table.
    RemoveRows(String),
    /// The result set of a SELECT.
    Selected(Vec<Row>),
}

/// Whether a statement's result is the evaluator's result, its error
/// wrapped as an expression error.
pub open spec fn lifted(res: Result<(), crate::expression::ExprError>, r: Result<(), Error>) -> bool {
    match res {
        Ok(_) => r is Ok,
        Err(e) => r == Err::<(), Error>(Error::Expression(e)),
    }
}

/// The predicate's program once a pending string literal, if any, has gone
/// in as its hash.
pub open spec fn with_literal(prog: Seq<ExpToken>, text: Seq<char>) -> Seq<ExpToken> {
    if text.len() > 0 {
        prog.push(ExpToken::Number(text_hash(text) as i64))
    } else {
        prog
    }
}

/// Whether an expression took an operator token as `new_operator` does.
pub open spec fn took_operator(
    old_pending: Seq<crate::expression::Pending>,
    old_prog: Seq<ExpToken>,
    text: Seq<char>,
    new: ExpressionEvaluator,
    r: Result<(), Error>,
) -> bool {
    let (res, st, pr) = after_operator(old_pending, old_prog, text);
    lifted(res, r) && new.pending() == st && new.program() == pr
}

/// Whether an expression took a number token as `new_number` does.
pub open spec fn took_number(old: ExpressionEvaluator, text: Seq<char>, new: ExpressionEvaluator, r: Result<(), Error>) -> bool {
    let (res, pr) = after_number(old.program(), text);
    lifted(res, r) && new.program() == pr && new.pending() == old.pending()
}

/// Whether an effect writes a table's row file with the text of its rows.
pub open spec fn writes_rows(e: Effect, t: Table) -> bool {
    e matches Effect::WriteRows(n, text) && n@ == t.tname() && text@ == json_text(rows_tree(t.rows()))
}

/// Whether an effect writes the row file of the table of that name, with
/// the text of its rows.
pub open spec fn writes_table_rows(e: Effect, ts: Seq<Table>, name: Seq<char>) -> bool {
    exists|i: int| 0 <= i < ts.len() && #[trigger] ts[i].tname() == name && writes_rows(e, ts[i])
}

/// Whether an effect writes the catalog file with the text of these tables.
pub open spec fn writes_catalog(e: Effect, ts: Seq<Table>) -> bool {
    e matches Effect::WriteCatalog(text) && text@ == json_text(catalog_tree(ts))
}

/// Whether a text is the all-columns marker `*`.
pub open spec fn is_all(s: Seq<char>) -> bool {
    s == seq!['*']
}

/// What the clause does with a token (see `FromWhereReq::consume`).
pub open spec fn clause_took(before: FromWhereReq, ts: Seq<Table>, token: Token, after: FromWhereReq, r: Result<(), Error>) -> bool {
    &&& (token.token_type == TokenType::Ident && r is Err ==> after.has_target() == before.has_target()
        && after.predicate() == before.predicate() && after.pending_text() == before.pending_text())
    &&& (token.token_type == TokenType::Ident && before.has_target() ==> after.target() == before.target())
    &&& (token.token_type == TokenType::Ident && !before.has_target() ==> (r is Ok <==> has_table(
                ts,
                token.content@,
            )) && after.target() == token.content@ && (r is Ok ==> after.has_target()))
    &&& (token.token_type == TokenType::Keyword ==> r is Ok && after == before)
    &&& (token.token_type == TokenType::Ident && before.has_target() ==> (r is Ok <==> has_col(
                table_named(ts, before.target()).cols(),
                token.content@,
            )) && (r is Ok ==> after.predicate().program() == before.predicate().program().push(
                ExpToken::Field(token.content),
            )))
    &&& (token.token_type == TokenType::Symbol ==> r is Ok && after.pending_text() == before.pending_text() + token.content@ && after.predicate() == before.predicate())
    &&& (token.token_type == TokenType::Operator ==> took_operator(
                before.predicate().pending(),
                with_literal(before.predicate().program(), before.pending_text()),
                token.content@,
                after.predicate(),
                r,
            ) && after.pending_text() == Seq::<char>::empty())
    &&& (token.token_type == TokenType::Number ==> took_number(
                before.predicate(),
                token.content@,
                after.predicate(),
                r,
            ) && after.pending_text() == before.pending_text())
    &&& (token.token_type != TokenType::Ident ==> after.target() == before.target()
                && after.has_target() == before.has_target())
    &&& (token.token_type != TokenType::Ident && token.token_type != TokenType::Operator
                && token.token_type != TokenType::Number && token.token_type != TokenType::Symbol
                && token.token_type != TokenType::Keyword ==> r matches Err(Error::UnexpectedToken(_)))
}

/// The target table and the predicate of SELECT, SET and DELETE.
pub struct FromWhereReq {
    table_name: String,
    expr: ExpressionEvaluator,
    string_builder: StringBuilder,
    where_passed: bool,
}

impl FromWhereReq {
    /// Whether the clause is in its initial state: no target, no
    /// predicate, no pending string.
    pub open spec fn fresh(&self) -> bool {
        &&& self.target() == Seq::<char>::empty()
        &&& !self.has_target()
        &&& self.predicate().program() == Seq::<ExpToken>::empty()
        &&& self.predicate().pending() == Seq::<crate::expression::Pending>::empty()
        &&& self.pending_text() == Seq::<char>::empty()
    }

    pub closed spec fn target(&self) -> Seq<char> {
        self.table_name@
    }

    pub closed spec fn predicate(&self) -> ExpressionEvaluator {
        self.expr
    }

    pub closed spec fn pending_text(&self) -> Seq<char> {
        self.string_builder@
    }

    pub closed spec fn has_target(&self) -> bool {
        self.where_passed
    }

    /// Whether the target, once named, is a table of the catalog.
    pub open spec fn wf(&self, ts: Seq<Table>) -> bool {
        self.has_target() ==> has_table(ts, self.target())
    }

    /// A clause with no target, an empty predicate and no pending string.
    pub fn pure_new() -> (r: FromWhereReq)
        ensures
            r.fresh(),
            r.target() == Seq::<char>::empty(),
            !r.has_target(),
            r.predicate().program() == Seq::<ExpToken>::empty(),
            r.predicate().pending() == Seq::<crate::expression::Pending>::empty(),
            r.pending_text() == Seq::<char>::empty(),
    {
        FromWhereReq {
            table_name: String::new(),
            expr: ExpressionEvaluator::new(),
            where_passed: false,
            string_builder: StringBuilder::new(),
        }
    }

    /// Takes a token: the first identifier names the target table (which
    /// must exist), later ones name fields of the predicate (which must be
    /// columns of the target); operators, numbers and string characters
    /// build the predicate; `WHERE` marks the start of the predicate.
    pub fn consume(&mut self, database: &Database, token: Token) -> (r: Result<(), Error>)
        requires
            database.wf(),
            old(self).wf(database.tables()),
        ensures
            final(self).wf(database.tables()),
            clause_took(*old(self), database.tables(), token, *final(self), r),
    {
        match token.token_type {
            TokenType::Ident => self.new_ident(token.content, database),
            TokenType::Operator => self.new_operator(token.content),
            TokenType::Number => match self.expr.new_number(token.content) {
                Ok(()) => Ok(()),
                Err(e) => Err(Error::Expression(e)),
            },
            TokenType::Symbol => {
                self.new_char(token.content);
                Ok(())
            },
            // FROM and WHERE: the first identifier names the table, and the
            // ones after it name fields, with or without these keywords.
            TokenType::Keyword => Ok(()),
            _ => Err(Error::UnexpectedToken(token.content)),
        }
    }

    fn new_ident(&mut self, name: String, database: &Database) -> (r: Result<(), Error>)
        requires
            database.wf(),
            old(self).wf(database.tables()),
        ensures
            final(self).wf(database.tables()),
            !old(self).has_target() ==> (r is Ok <==> has_table(database.tables(), name@))
                && final(self).target() == name@ && (r is Ok ==> final(self).has_target()),
            old(self).has_target() ==> (r is Ok <==> has_col(
                table_named(database.tables(), old(self).target()).cols(),
                name@,
            )) && (r is Ok ==> final(self).predicate().program() == old(self).predicate().program().push(
                ExpToken::Field(name),
            )),
            r is Err ==> final(self).has_target() == old(self).has_target() && final(self).predicate() == old(
                self).predicate(),
            old(self).has_target() ==> final(self).target() == old(self).target(),
            final(self).pending_text() == old(self).pending_text(),
            r is Ok ==> final(self).predicate().pending() == old(self).predicate().pending(),
    {
        if !self.where_passed {
            let exists = database.table_exists(&name);
            self.table_name = name;
            if !exists {
                return Err(Error::UnknownTable(self.table_name.clone()));
            }
            self.where_passed = true;
            Ok(())
        } else {
            let table = database.get_table(&self.table_name);
            proof {
                let i = choose|i: int| 0 <= i < database.tables().len() && database.tables()[i] == *table;
                crate::table::lemma_table_named(database.tables(), i);
            }
            if !table.column_exists(&name) {
                return Err(Error::UnknownColumn(name));
            }
            self.expr.new_field(name);
            Ok(())
        }
    }

    /// An operator first turns a pending string literal into its hash.
    fn new_operator(&mut self, op: String) -> (r: Result<(), Error>)
        ensures
            final(self).target() == old(self).target(),
            final(self).has_target() == old(self).has_target(),
            took_operator(
                old(self).predicate().pending(),
                with_literal(old(self).predicate().program(), old(self).pending_text()),
                op@,
                final(self).predicate(),
                r,
            ),
            final(self).pending_text() == Seq::<char>::empty(),
    {
        if !self.string_builder.is_empty() {
            self.push_string();
        }
        match self.expr.new_operator(op) {
            Ok(()) => Ok(()),
            Err(e) => Err(Error::Expression(e)),
        }
    }

    fn new_char(&mut self, c: String)
        ensures
            final(self).pending_text() == old(self).pending_text() + c@,
            final(self).target() == old(self).target(),
            final(self).has_target() == old(self).has_target(),
            final(self).predicate() == old(self).predicate(),
    {
        self.string_builder.new_char(c);
    }

    /// Puts the pending string literal in the predicate, as its hash.
    fn push_string(&mut self)
        ensures
            final(self).predicate().program() == old(self).predicate().program().push(
                ExpToken::Number(text_hash(old(self).pending_text()) as i64),
            ),
            final(self).predicate().pending() == old(self).predicate().pending(),
            final(self).pending_text() == Seq::<char>::empty(),
            final(self).target() == old(self).target(),
            final(self).has_target() == old(self).has_target(),
    {
        let h = self.string_builder.hash();
        self.expr.new_direct_number(h);
        self.string_builder.extract();
    }

    /// The name of the target table.
    pub fn table_name(&self) -> (r: &String)
        ensures
            r@ == self.target(),
    {
        &self.table_name
    }

    /// The predicate.
    pub fn get_where_expr(&mut self) -> (r: &mut ExpressionEvaluator)
        ensures
            *r == old(self).predicate(),
            final(self).predicate() == *final(r),
            final(self).target() == old(self).target(),
            final(self).has_target() == old(self).has_target(),
            final(self).pending_text() == old(self).pending_text(),
    {
        &mut self.expr
    }

    /// Puts a pending string literal, if any, in the predicate.
    pub fn push_last_string(&mut self)
        ensures
            old(self).pending_text().len() > 0 ==> final(self).predicate().program() == old(self).predicate().program().push(ExpToken::Number(text_hash(old(self).pending_text()) as i64)),
            old(self).pending_text().len() == 0 ==> final(self).predicate() == old(self).predicate(),
            final(self).predicate().pending() == old(self).predicate().pending(),
            final(self).pending_text() == Seq::<char>::empty(),
            final(self).target() == old(self).target(),
            final(self).has_target() == old(self).has_target(),
    {
        if !self.string_builder.is_empty() {
            self.push_string()
        }
    }

    /// Forgets the target and the predicate, ready for the next statement.
    pub fn end(&mut self)
        ensures
            final(self).fresh(),
            final(self).target() == Seq::<char>::empty(),
            !final(self).has_target(),
            final(self).predicate().program() == Seq::<ExpToken>::empty(),
            final(self).predicate().pending() == Seq::<crate::expression::Pending>::empty(),
            final(self).pending_text() == Seq::<char>::empty(),
    {
        *self = FromWhereReq::pure_new();
    }
}

/// The program of a clause's predicate once it is complete: a pending
/// string literal goes in as its hash, then every waiting operator.
pub open spec fn finished_predicate(fw: FromWhereReq) -> (Seq<crate::expression::Pending>, Seq<ExpToken>) {
    let prog = if fw.pending_text().len() > 0 {
        fw.predicate().program().push(ExpToken::Number(text_hash(fw.pending_text()) as i64))
    } else {
        fw.predicate().program()
    };
    reduce(fw.predicate().pending(), prog, 0)
}

/// Completes the predicate of a clause; `Unbalanced` when a `(` is left.
fn finish_predicate(fw: &mut FromWhereReq) -> (r: Result<(), Error>)
    ensures
        (r is Ok) == (finished_predicate(*old(fw)).0.len() == 0),
        r is Ok ==> final(fw).predicate().program() == finished_predicate(*old(fw)).1,
        final(fw).target() == old(fw).target(),
        final(fw).has_target() == old(fw).has_target(),
{
    fw.push_last_string();
    match fw.get_where_expr().finish() {
        Ok(()) => Ok(()),
        Err(e) => Err(Error::Expression(e)),
    }
}

/// Whether some requested column is `*`.
pub open spec fn asks_all(cols: Seq<String>) -> bool {
    exists|i: int| 0 <= i < cols.len() && is_all(#[trigger] cols[i]@)
}

fn contains_all(cols: &Vec<String>) -> (r: bool)
    ensures
        r == asks_all(cols@),
{
    proof {
        reveal_strlit("*");
        assert("*"@ =~= seq!['*']);
    }
    let mut i: usize = 0;
    while i < cols.len()
        invariant
            i <= cols@.len(),
            "*"@ == seq!['*'],
            forall|j: int| 0 <= j < i ==> !is_all(#[trigger] cols@[j]@),
        decreases cols@.len() - i,
    {
        if text_is(cols[i].as_str(), "*") {
            assert(is_all(cols@[i as int]@));
            return true;
        }
        proof {
            if is_all(cols@[i as int]@) {
                assert(cols@[i as int]@ =~= "*"@);
            }
        }
        i = i + 1;
    }
    false
}

/// Handles SELECT: the requested columns (or `*`), then the clause.
pub struct SelectReq {
    asked_cols: Vec<String>,
    redirect: bool,
    from_where: FromWhereReq,
}

pub open spec fn select_ended(before: SelectReq, ts: Seq<Table>, r: Result<Vec<Effect>, Error>) -> bool {
    &&& (r is Ok ==> ({
                let t = table_named(ts, before.clause().target());
                &&& before.clause().has_target()
                &&& finished_predicate(before.clause()).0.len() == 0
                &&& r.unwrap()@.len() == 1
                &&& r.unwrap()@[0] is Selected
                &&& exists|cols: Seq<String>|
                    {
                        &&& requested_cols(before.asked(), t, cols)
                        &&& selected(finished_predicate(before.clause()).1, t.rows(), cols) == Ok::<
                            Seq<Seq<(String, crate::row::Cell)>>,
                            crate::expression::ExprError,
                        >(rows_fields(r.unwrap()@[0]->Selected_0@))
                    }
            }))
    &&& (before.clause().has_target() && finished_predicate(before.clause()).0.len() == 0
                && (!asks_all(before.asked()) ==> forall|k: int|
                0 <= k < before.asked().len() ==> has_col(
                    table_named(ts, before.clause().target()).cols(),
                    #[trigger] before.asked()[k]@,
                )) && (forall|cols: Seq<String>|
                requested_cols(before.asked(), table_named(ts, before.clause().target()), cols) ==> selected(
                    finished_predicate(before.clause()).1,
                    table_named(ts, before.clause().target()).rows(),
                    cols,
                ) is Ok) ==> r is Ok)
    &&& (r is Ok && !asks_all(before.asked()) ==> forall|k: int|
        0 <= k < before.asked().len() ==> has_col(
            table_named(ts, before.clause().target()).cols(),
            #[trigger] before.asked()[k]@,
        ))
}

/// The columns that a SELECT projects on: all the table's, in order, for
/// `*`, else the requested ones.
pub open spec fn requested_cols(asked: Seq<String>, t: Table, cols: Seq<String>) -> bool {
    &&& (asks_all(asked) ==> cols.len() == t.cols().len() && forall|i: int|
        0 <= i < cols.len() ==> (#[trigger] cols[i])@ == t.cols()[i].col_name())
    &&& (!asks_all(asked) ==> cols == asked)
}

pub open spec fn select_took(before: SelectReq, ts: Seq<Table>, token: Token, after: SelectReq, r: Result<(), Error>) -> bool {
    &&& (before.redirected() ==> after.redirected() && after.asked() == before.asked()
                && clause_took(before.clause(), ts, token, after.clause(), r))
    &&& (!before.redirected() ==> after.clause() == before.clause() && match token.token_type {
                TokenType::Ident | TokenType::Symbol => r is Ok && after.asked() == before.asked().push(token.content) && !after.redirected(),
                TokenType::Keyword => r is Ok && after.asked() == before.asked()
                    && after.redirected(),
                _ => r matches Err(Error::UnexpectedToken(_)) && after.asked() == before.asked(),
            })
}

impl SelectReq {
    /// Whether the handler is in its initial state.
    pub open spec fn fresh(&self) -> bool {
        &&& self.asked() == Seq::<String>::empty()
        &&& !self.redirected()
        &&& self.clause().fresh()
    }

    pub closed spec fn asked(&self) -> Seq<String> {
        self.asked_cols@
    }

    pub closed spec fn clause(&self) -> FromWhereReq {
        self.from_where
    }

    /// Whether the requested columns are over and the clause has begun.
    pub closed spec fn redirected(&self) -> bool {
        self.redirect
    }

    pub open spec fn wf(&self, ts: Seq<Table>) -> bool {
        self.clause().wf(ts)
    }

    pub fn new() -> (r: SelectReq)
        ensures
            r.fresh(),
            r.asked() == Seq::<String>::empty(),
            !r.clause().has_target(),
    {
        SelectReq { asked_cols: Vec::new(), redirect: false, from_where: FromWhereReq::pure_new() }
    }

    /// Before a keyword (`FROM`), identifiers and symbols are requested
    /// columns; after it the tokens go to the clause.
    pub fn consume(&mut self, database: &Database, token: Token) -> (r: Result<(), Error>)
        requires
            database.wf(),
            old(self).wf(database.tables()),
        ensures
            final(self).wf(database.tables()),
            select_took(*old(self), database.tables(), token, *final(self), r),

    {
        if self.redirect {
            self.from_where.consume(database, token)
        } else {
            match token.token_type {
                TokenType::Ident | TokenType::Symbol => {
                    self.asked_cols.push(token.content);
                    Ok(())
                },
                TokenType::Keyword => {
                    self.redirect = true;
                    Ok(())
                },
                _ => Err(Error::UnexpectedToken(token.content)),
            }
        }
    }

    fn reset(&mut self)
        ensures
            final(self).fresh(),
            final(self).asked() == Seq::<String>::empty(),
            !final(self).clause().has_target(),
    {
        self.from_where.end();
        self.asked_cols = Vec::new();
        self.redirect = false;
    }

    /// Runs the query: the projections, on the requested columns (all of
    /// them for `*`), of the target's rows that satisfy the predicate. The
    /// handler is ready for the next statement afterwards.
    pub fn end(&mut self, database: &Database) -> (r: Result<Vec<Effect>, Error>)
        requires
            database.wf(),
            old(self).wf(database.tables()),
        ensures
            final(self).fresh(),
            final(self).wf(database.tables()),
            !final(self).clause().has_target(),
            select_ended(*old(self), database.tables(), r),

    {
        let ghost old_self = *self;
        if !self.from_where.where_passed {
            self.reset();
            return Err(Error::UnknownTable(String::new()));
        }
        if let Err(e) = finish_predicate(&mut self.from_where) {
            self.reset();
            return Err(e);
        }
        let i = database.table_position(self.from_where.table_name()).unwrap();
        proof {
            crate::table::lemma_table_named(database.tables(), i as int);
        }
        let table = database.table_at(i);
        let cols = if contains_all(&self.asked_cols) {
            table.column_names()
        } else {
            match database.test_column_existance(self.from_where.table_name(), &self.asked_cols) {
                Ok(()) => {},
                Err(e) => {
                    proof {
                        assert(self.asked_cols@ == old_self.asked());
                        assert(self.from_where.target() == old_self.clause().target());
                        let t = table_named(database.tables(), old_self.clause().target());
                        let k = choose|k: int|
                            0 <= k < self.asked_cols@.len() && !has_col(t.cols(), self.asked_cols@[k]@);
                        assert(!has_col(t.cols(), old_self.asked()[k]@));
                    }
                    self.reset();
                    return Err(e);
                },
            }
            self.asked_cols.clone()
        };
        assert(*table == table_named(database.tables(), old_self.clause().target()));
        assert(requested_cols(old_self.asked(), *table, cols@));
        let rows = match table.select(&self.from_where.expr, &cols) {
            Ok(rows) => rows,
            Err(e) => {
                self.reset();
                return Err(Error::Expression(e));
            },
        };
        self.reset();
        let mut effects: Vec<Effect> = Vec::new();
        effects.push(Effect::Selected(rows));
        assert(selected(finished_predicate(old_self.clause()).1, table.rows(), cols@) == Ok::<
            Seq<Seq<(String, crate::row::Cell)>>,
            crate::expression::ExprError,
        >(rows_fields(effects@[0]->Selected_0@)));
        Ok(effects)
    }
}

/// Handles DELETE: the clause names the table and the predicate.
pub struct DeleteReq {
    from_where: FromWhereReq,
}

pub open spec fn delete_ended(before: DeleteReq, ts: Seq<Table>, r: Result<Vec<Effect>, Error>, ts2: Seq<Table>) -> bool {
    &&& (r is Err ==> ts2 == ts)
    &&& (r is Ok ==> ({
                let target = before.clause().target();
                let prog = finished_predicate(before.clause()).1;
                &&& before.clause().has_target()
                &&& finished_predicate(before.clause()).0.len() == 0
                &&& exists|i: int|
                    0 <= i < ts.len() && ts[i].tname() == target
                        && ts2.len() == ts.len()
                        && (forall|j: int|
                        0 <= j < ts.len() && j != i ==> ts2[j]
                            == ts[j]) && ts2[i].tname()
                        == target && ts2[i].cols() == ts[i].cols() && kept(prog, ts[i].rows()) == Ok::<
                        Seq<Seq<(String, crate::row::Cell)>>,
                        crate::expression::ExprError,
                    >(rows_fields(ts2[i].rows()))
                &&& r.unwrap()@.len() == 1
                &&& writes_table_rows(r.unwrap()@[0], ts2, target)
            }))
    &&& (before.clause().has_target() && finished_predicate(before.clause()).0.len() == 0
                && kept(
                finished_predicate(before.clause()).1,
                table_named(ts, before.clause().target()).rows(),
            ) is Ok ==> r is Ok)
}

pub open spec fn delete_took(before: DeleteReq, ts: Seq<Table>, token: Token, after: DeleteReq, r: Result<(), Error>) -> bool {
    &&& (clause_took(before.clause(), ts, token, after.clause(), r))
    &&& (token.token_type == TokenType::Ident && !before.clause().has_target() ==> (r is Ok
                <==> has_table(ts, token.content@)) && (r is Ok ==> after.clause().target()
                == token.content@))
    &&& (token.token_type == TokenType::Ident && before.clause().has_target() ==> (r is Ok <==> has_col(
                table_named(ts, before.clause().target()).cols(),
                token.content@,
            )))
}

impl DeleteReq {
    /// Whether the handler is in its initial state.
    pub open spec fn fresh(&self) -> bool {
        self.clause().fresh()
    }

    pub closed spec fn clause(&self) -> FromWhereReq {
        self.from_where
    }

    pub open spec fn wf(&self, ts: Seq<Table>) -> bool {
        self.clause().wf(ts)
    }

    pub fn new() -> (r: DeleteReq)
        ensures
            r.fresh(),
            !r.clause().has_target(),
    {
        DeleteReq { from_where: FromWhereReq::pure_new() }
    }

    /// Every token goes to the clause.
    pub fn consume(&mut self, database: &Database, token: Token) -> (r: Result<(), Error>)
        requires
            database.wf(),
            old(self).wf(database.tables()),
        ensures
            final(self).wf(database.tables()),
            delete_took(*old(self), database.tables(), token, *final(self), r),

    {
        self.from_where.consume(database, token)
    }

    /// Removes the target's rows that satisfy the predicate, keeping the
    /// others in order, and asks for the row file to be rewritten. On an
    /// error the database is left as it was.
    pub fn end(&mut self, database: &mut Database) -> (r: Result<Vec<Effect>, Error>)
        requires
            old(database).wf(),
            old(self).wf(old(database).tables()),
        ensures
            final(self).fresh(),
            final(database).wf(),
            !final(self).clause().has_target(),
            delete_ended(*old(self), old(database).tables(), r, final(database).tables()),

    {
        let ghost old_self = *self;
        if !self.from_where.where_passed {
            self.from_where.end();
            return Err(Error::UnknownTable(String::new()));
        }
        if let Err(e) = finish_predicate(&mut self.from_where) {
            self.from_where.end();
            return Err(e);
        }
        let i = database.table_position(self.from_where.table_name()).unwrap();
        proof {
            crate::table::lemma_table_named(database.tables(), i as int);
        }
        let ghost before = database.tables();
        let table = database.table_at_mut(i);
        let res = table.delete_matching(&self.from_where.expr);
        let text = rows_text(table.lines());
        let name = table.name().clone();
        proof {
            crate::table::lemma_wf_update(before, i as int, database.tables()[i as int]);
        }
        self.from_where.end();
        match res {
            Ok(()) => {
                let mut effects: Vec<Effect> = Vec::new();
                effects.push(Effect::WriteRows(name, text));
                assert(writes_rows(effects@[0], database.tables()[i as int]));
                Ok(effects)
            },
            Err(e) => {
                assert(database.tables() =~= before);
                Err(Error::Expression(e))
            },
        }
    }
}

/// Handles DROP: the name of the table to remove.
pub struct DropReq {
    name: String,
    named: bool,
}

pub open spec fn drop_ended(before: DropReq, ts: Seq<Table>, r: Result<Vec<Effect>, Error>, ts2: Seq<Table>) -> bool {
    &&& (r is Ok <==> (before.target() matches Some(n) && has_table(ts, n)))
    &&& (r is Err ==> ts2 == ts)
    &&& (r is Ok ==> exists|i: int|
                0 <= i < ts.len() && Some(ts[i].tname()) == before.target() && ts2 == ts.remove(i))
    &&& (r is Ok ==> r.unwrap()@.len() == 2 && (r.unwrap()@[0] matches Effect::RemoveRows(n) && Some(n@) == before.target()) && writes_catalog(r.unwrap()@[1], ts2))
}

/// What DROP does with a token: it takes the name of an existing table, once.
pub open spec fn drop_took(before: DropReq, ts: Seq<Table>, token: Token, after: DropReq, r: Result<(), Error>) -> bool {
    &&& (r is Ok <==> (token.token_type == TokenType::Ident && before.target() is None && has_table(ts, token.content@)))
    &&& (r is Ok ==> after.target() == Some(token.content@))
    &&& (r is Err ==> after.target() == before.target())
}

impl DropReq {
    /// Whether the handler is in its initial state.
    pub open spec fn fresh(&self) -> bool {
        self.target() is None
    }

    pub closed spec fn target(&self) -> Option<Seq<char>> {
        if self.named {
            Some(self.name@)
        } else {
            None
        }
    }

    pub fn new() -> (r: DropReq)
        ensures
            r.fresh(),
            r.target() is None,
    {
        DropReq { name: String::new(), named: false }
    }

    /// Takes the table's name, which must be a table of the catalog.
    pub fn consume(&mut self, database: &Database, token: Token) -> (r: Result<(), Error>)
        ensures
            drop_took(*old(self), database.tables(), token, *final(self), r),
    {
        if token.token_type != TokenType::Ident || self.named {
            return Err(Error::UnexpectedToken(token.content));
        }
        if !database.table_exists(&token.content) {
            return Err(Error::UnknownTable(token.content));
        }
        self.name = token.content;
        self.named = true;
        Ok(())
    }

    /// Removes the table from the catalog and asks for its row file to be
    /// removed and the catalog file rewritten.
    pub fn end(&mut self, database: &mut Database) -> (r: Result<Vec<Effect>, Error>)
        requires
            old(database).wf(),
        ensures
            final(self).fresh(),
            final(database).wf(),
            final(self).target() is None,
            drop_ended(*old(self), old(database).tables(), r, final(database).tables()),

    {
        if !self.named {
            return Err(Error::UnknownTable(String::new()));
        }
        let mut name = String::new();
        std::mem::swap(&mut name, &mut self.name);
        self.named = false;
        if !database.table_exists(&name) {
            return Err(Error::UnknownTable(name));
        }
        database.delete_table(&name);
        let mut effects: Vec<Effect> = Vec::new();
        effects.push(Effect::RemoveRows(name));
        effects.push(Effect::WriteCatalog(database.catalog_text()));
        Ok(effects)
    }
}

/// Handles RESET: no token; removes every table.
pub struct ResetReq;

impl ResetReq {
    pub fn new() -> (r: ResetReq) {
        ResetReq
    }

    /// RESET takes no token.
    pub fn consume(&mut self, token: Token) -> (r: Result<(), Error>)
        ensures
            r matches Err(Error::UnexpectedToken(_)),
    {
        Err(Error::UnexpectedToken(token.content))
    }

    /// Empties the catalog, and asks for every row file to be removed and
    /// the catalog file rewritten.
    pub fn end(&mut self, database: &mut Database) -> (r: Vec<Effect>)
        ensures
            final(database).tables() == Seq::<Table>::empty(),
            final(database).wf(),
            r@.len() == old(database).tables().len() + 1,
            forall|i: int| 0 <= i < old(database).tables().len() ==> ((#[trigger] r@[i]) matches Effect::RemoveRows(n)
                && n@ == old(database).tables()[i].tname()),
            writes_catalog(r@.last(), Seq::<Table>::empty()),
    {
        let mut effects: Vec<Effect> = Vec::new();
        let mut i: usize = 0;
        while i < database.table_count()
            invariant
                i <= database.tables().len(),
                database.tables() == old(database).tables(),
                effects@.len() == i,
                forall|j: int| 0 <= j < i ==> ((#[trigger] effects@[j]) matches Effect::RemoveRows(n)
                    && n@ == old(database).tables()[j].tname()),
            decreases database.tables().len() - i,
        {
            let name = database.table_at(i).name().clone();
            effects.push(Effect::RemoveRows(name));
            i = i + 1;
        }
        database.reset_database();
        effects.push(Effect::WriteCatalog(database.catalog_text()));
        effects
    }
}

/// Whether a text is the keyword `PRIMARY`.
pub open spec fn is_primary(s: Seq<char>) -> bool {
    s == seq!['P', 'R', 'I', 'M', 'A', 'R', 'Y']
}

fn error_of(e: crate::expression::ExprError) -> (r: Error)
    ensures
        r == Error::Expression(e),
{
    Error::Expression(e)
}

/// Handles CREATE TABLE: the table's name, then its columns, each with a
/// type, an optional default value and an optional `PRIMARY` mark.
pub struct CreateReq {
    table: Table,
    current_col: Column,
    pkey_exists: bool,
    expr: ExpressionEvaluator,
    string_builder: StringBuilder,
}

pub open spec fn create_ended(before: CreateReq, ts: Seq<Table>, r: Result<Vec<Effect>, Error>, ts2: Seq<Table>) -> bool {
    &&& (r is Err ==> ts2 == ts)
    &&& (!before.pkey_declared() ==> r matches Err(Error::MissingPrimaryKey(_)))
    &&& (r is Ok && before.column().col_name().len() > 0 ==> ts2.last().cols().last().col_name()
                == before.column().col_name() && ts2.last().cols().last().col_type() == before.column().col_type())
    &&& (r is Ok <==> (before.pkey_declared() && before.default_ok() && !has_table(
                ts,
                before.draft().tname(),
            )))
    &&& (r is Ok ==> {
                let t = ts2.last();
                &&& before.pkey_declared()
                &&& !has_table(ts, before.draft().tname())
                &&& ts2.len() == ts.len() + 1
                &&& ts2.take(ts.len() as int) == ts
                &&& t.tname() == before.draft().tname()
                &&& t.pkey() == before.draft().pkey()
                &&& t.rows() == Seq::<Row>::empty()
                &&& t.cols().take(before.draft().cols().len() as int) == before.draft().cols()
                &&& t.cols().len() == before.draft().cols().len() + (if before.column().col_name().len() > 0 {
                    1int
                } else {
                    0int
                })
            })
    &&& (r is Ok ==> r.unwrap()@.len() == 2 && writes_rows(r.unwrap()@[0], ts2.last())
                && writes_catalog(r.unwrap()@[1], ts2))
    &&& (r is Ok && before.column().col_name().len() > 0 ==> ts2.last().cols().last().default()
        == before.declared_default())
}

pub open spec fn create_took(before: CreateReq, ts: Seq<Table>, token: Token, after: CreateReq, r: Result<(), Error>) -> bool {
    &&& (token.token_type != TokenType::Keyword ==> after.pkey_declared() == before.pkey_declared())
    &&& (token.token_type == TokenType::Operator ==> took_operator(
                before.expression().pending(),
                before.expression().program(),
                token.content@,
                after.expression(),
                r,
            ) && after.draft() == before.draft() && after.column() == before.column()
                && after.text() == before.text())
    &&& (token.token_type == TokenType::Number ==> took_number(
                before.expression(),
                token.content@,
                after.expression(),
                r,
            ) && after.draft() == before.draft() && after.column() == before.column()
                && after.text() == before.text())
    &&& (token.token_type == TokenType::Symbol ==> r is Ok && after.text() == before.text()
                + token.content@ && after.expression() == before.expression() && after.draft()
                == before.draft() && after.column() == before.column())
    &&& (token.token_type == TokenType::Type ==> after.draft() == before.draft() && (r is Ok
                ==> after.column().col_name() == before.column().col_name() && type_of_name(
                token.content@,
            ) == Some(after.column().col_type())))
    &&& (token.token_type == TokenType::Ident ==> {
                &&& (!(before.draft().tname().len() > 0) ==> (r is Ok <==> !has_table(ts, token.content@)) && (r is Ok ==> after.draft().tname() == token.content@ && after.draft().cols() == before.draft().cols()))
                &&& (before.draft().tname().len() > 0 ==> (r is Ok <==> (before.default_ok() && !has_col(
                    before.draft().cols(),
                    token.content@,
                ) && !(before.column().col_name().len() > 0 && before.column().col_name() == token.content@)))
                    && (r is Ok ==> after.column().col_name() == token.content@
                    && after.draft().cols().take(before.draft().cols().len() as int) == before.draft().cols()
                    && after.draft().cols().len() == before.draft().cols().len() + (if before.column().col_name().len() > 0 { 1int } else { 0int })
                    && (before.column().col_name().len() > 0 ==> after.draft().cols().last().col_name()
                        == before.column().col_name() && after.draft().cols().last().col_type()
                        == before.column().col_type())))
            })
    &&& (token.token_type == TokenType::Keyword && is_primary(token.content@) ==> (r is Ok
                <==> !before.pkey_declared()) && after.pkey_declared())
    &&& (token.token_type == TokenType::Type ==> (r is Ok <==> type_of_name(token.content@) is Some))
    &&& (token.token_type == TokenType::Keyword && !is_primary(token.content@) ==> r is Err && after.pkey_declared() == before.pkey_declared())
    &&& (token.token_type == TokenType::Keyword && r is Ok ==> after.draft().pkey() == before.column().col_name())
    &&& (token.token_type == TokenType::Keyword && r is Err ==> after.draft() == before.draft())
    &&& (token.token_type == TokenType::Keyword ==> after.draft().tname() == before.draft().tname()
        && after.draft().cols() == before.draft().cols() && after.column() == before.column()
        && after.expression() == before.expression() && after.text() == before.text())
    &&& (token.token_type == TokenType::Ident && before.draft().tname().len() > 0 && before.column().col_name().len() > 0
        && r is Ok ==> after.draft().cols().last().default() == before.declared_default())
}

impl CreateReq {
    /// Whether the handler is in its initial state: an empty draft, a
    /// column with no name, type `INT` and no default, no key declared, and
    /// no pending default.
    pub open spec fn fresh(&self) -> bool {
        &&& !self.pkey_declared()
        &&& self.draft().tname() == Seq::<char>::empty()
        &&& self.draft().cols() == Seq::<Column>::empty()
        &&& self.draft().pkey() == Seq::<char>::empty()
        &&& self.column().col_name() == Seq::<char>::empty()
        &&& self.column().col_type() == Type::Int
        &&& self.column().default() is None
        &&& self.expression().program() == Seq::<ExpToken>::empty()
        &&& self.expression().pending() == Seq::<crate::expression::Pending>::empty()
        &&& self.text() == Seq::<char>::empty()
    }

    /// The table being declared, without the column being declared.
    pub closed spec fn draft(&self) -> Table {
        self.table
    }

    /// The column being declared (its name is empty before the first).
    pub closed spec fn column(&self) -> Column {
        self.current_col
    }

    pub closed spec fn pkey_declared(&self) -> bool {
        self.pkey_exists
    }

    /// The default expression of the column being declared.
    pub closed spec fn expression(&self) -> ExpressionEvaluator {
        self.expr
    }

    /// The default string of the column being declared, as far as read.
    pub closed spec fn text(&self) -> Seq<char> {
        self.string_builder@
    }

    /// The default that the column being declared receives when it is
    /// added: the value of its expression, its string, or the one it has.
    pub open spec fn declared_default(&self) -> Option<(i64, Seq<char>)> {
        if self.expression().program().len() > 0 {
            Some((computed(self.expression()), decimal_of(computed(self.expression()) as int)))
        } else if self.text().len() > 0 {
            Some((0i64, self.text()))
        } else {
            self.column().default()
        }
    }

    /// Whether the column being declared can be added: it has no name yet,
    /// or its default is a string, or none, or an expression that compiles
    /// and evaluates.
    pub closed spec fn default_ok(&self) -> bool {
        self.current_col.col_name().len() == 0 || self.expr.program().len() == 0 || (
        self.string_builder@.len() == 0 && ({
            let (st, pr) = reduce(self.expr.pending(), self.expr.program(), 0);
            st.len() == 0 && evaluate(pr, Seq::empty()) is Ok
        }))
    }

    pub closed spec fn wf(&self) -> bool {
        &&& distinct_cols(self.table.cols())
        &&& !self.current_col.flagged()
        &&& forall|i: int| 0 <= i < self.table.cols().len() ==> !(#[trigger] self.table.cols()[i]).flagged()
        &&& self.current_col.col_name().len() > 0 ==> !has_col(
            self.table.cols(),
            self.current_col.col_name(),
        )
    }

    pub fn new() -> (r: CreateReq)
        ensures
            r.fresh(),
            r.wf(),
            !r.pkey_declared(),
            r.draft().tname() == Seq::<char>::empty(),
            r.draft().cols() == Seq::<Column>::empty(),
            r.column().col_name() == Seq::<char>::empty(),
    {
        CreateReq {
            table: Table::new(),
            current_col: Column::new_empty(),
            pkey_exists: false,
            expr: ExpressionEvaluator::new(),
            string_builder: StringBuilder::new(),
        }
    }

    /// Takes a token of the declaration.
    pub fn consume(&mut self, database: &Database, token: Token) -> (r: Result<(), Error>)
        requires
            old(self).wf(),
        ensures
            final(self).wf(),
            create_took(*old(self), database.tables(), token, *final(self), r),

    {
        match token.token_type {
            TokenType::Ident => self.new_ident(database, token.content),
            TokenType::Keyword => self.new_keyword(token.content),
            TokenType::Type => self.new_type(token.content),
            TokenType::Operator => match self.expr.new_operator(token.content) {
                Ok(()) => Ok(()),
                Err(e) => Err(error_of(e)),
            },
            TokenType::Number => match self.expr.new_number(token.content) {
                Ok(()) => Ok(()),
                Err(e) => Err(error_of(e)),
            },
            TokenType::Symbol => {
                self.string_builder.new_char(token.content);
                Ok(())
            },
            _ => Err(Error::UnexpectedToken(token.content)),
        }
    }

    /// The column being declared, with its default value: the value of the
    /// default expression, or the default string.
    fn extract_col(&mut self) -> (r: Result<Column, Error>)
        requires
            old(self).wf(),
        ensures
            final(self).wf(),
            r is Ok <==> (old(self).expr.program().len() == 0 || (old(self).string_builder@.len() == 0 && ({
                let (st, pr) = reduce(old(self).expr.pending(), old(self).expr.program(), 0);
                st.len() == 0 && evaluate(pr, Seq::empty()) is Ok
            }))),
            r matches Ok(c) ==> c.col_name() == old(self).column().col_name() && c.col_type() == old(self).column().col_type(),
            r matches Ok(c) ==> c.default() == old(self).declared_default() && !c.flagged(),
            final(self).column().col_name() == Seq::<char>::empty(),
            final(self).draft() == old(self).draft(),
            final(self).pkey_declared() == old(self).pkey_declared(),
    {
        let mut result = Column::new_empty();
        std::mem::swap(&mut result, &mut self.current_col);
        if !self.expr.is_empty() {
            if !self.string_builder.is_empty() {
                return Err(Error::StringArithmetic);
            }
            match self.expr.compute(&Row::new(), true) {
                Ok(v) => result.set_default_value(v),
                Err(e) => return Err(error_of(e)),
            }
        } else if !self.string_builder.is_empty() {
            result.set_value_by_string(&mut self.string_builder);
        }
        Ok(result)
    }

    /// Whether a primary key has been declared.
    pub fn pkey_exists(&self) -> (r: bool)
        ensures
            r == self.pkey_declared(),
    {
        self.pkey_exists
    }

    /// Adds the column being declared, if any, to the table.
    pub fn push_col(&mut self) -> (r: Result<(), Error>)
        requires
            old(self).wf(),
        ensures
            final(self).wf(),
            final(self).draft().tname() == old(self).draft().tname(),
            final(self).draft().pkey() == old(self).draft().pkey(),
            final(self).draft().rows() == old(self).draft().rows(),
            final(self).pkey_declared() == old(self).pkey_declared(),
            r is Ok && old(self).column().col_name().len() > 0 ==> {
                &&& final(self).draft().cols().len() == old(self).draft().cols().len() + 1
                &&& final(self).draft().cols().take(old(self).draft().cols().len() as int) == old(self).draft().cols()
                &&& final(self).draft().cols().last().col_name() == old(self).column().col_name()
                &&& final(self).draft().cols().last().col_type() == old(self).column().col_type()
                &&& final(self).draft().cols().last().default() == old(self).declared_default()
                &&& final(self).column().col_name() == Seq::<char>::empty()
            },
            r is Ok && old(self).column().col_name().len() == 0 ==> final(self).draft().cols() == old(self).draft().cols() && final(self).column().col_name() == Seq::<char>::empty(),
            r is Ok <==> old(self).default_ok(),
    {
        if !self.current_col.is_empty() {
            let col = self.extract_col()?;
            let ghost before = self.table.cols();
            self.table.add_column(col);
            assert(self.table.cols().take(before.len() as int) =~= before);
            assert forall|a: int, b: int|
                0 <= a < b < self.table.cols().len() implies #[trigger] self.table.cols()[a].col_name()
                != #[trigger] self.table.cols()[b].col_name() by {
                if b == before.len() {
                    assert(self.table.cols()[a] == before[a]);
                }
            }
        }
        Ok(())
    }

    pub fn new_ident(&mut self, database: &Database, name: String) -> (r: Result<(), Error>)
        requires
            old(self).wf(),
        ensures
            old(self).draft().tname().len() > 0 && old(self).column().col_name().len() > 0 && r is Ok ==> final(
                self).draft().cols().last().default() == old(self).declared_default(),
            final(self).wf(),
            final(self).pkey_declared() == old(self).pkey_declared(),
            !(old(self).draft().tname().len() > 0) ==> (r is Ok <==> !has_table(database.tables(), name@))
                && (r is Ok ==> final(self).draft().tname() == name@ && final(self).draft().cols() == old(self).draft().cols()),
            old(self).draft().tname().len() > 0 ==> (r is Ok <==> (old(self).default_ok() && !has_col(
                old(self).draft().cols(),
                name@,
            ) && !(old(self).column().col_name().len() > 0 && old(self).column().col_name() == name@)))
                && (r is Ok ==> final(self).column().col_name() == name@ && final(self).draft().tname() == old(self).draft().tname() && final(self).draft().cols() == (if old(self).column().col_name().len() > 0 {
                final(self).draft().cols().take(old(self).draft().cols().len() as int).push(
                    final(self).draft().cols().last(),
                )
            } else {
                old(self).draft().cols()
            }) && final(self).draft().cols().take(old(self).draft().cols().len() as int) == old(self).draft().cols() && (old(self).column().col_name().len() > 0 ==> final(self).draft().cols().last().col_name()
                == old(self).column().col_name() && final(self).draft().cols().last().col_type() == old(self).column().col_type())),
    {
        if !self.table.has_name() {
            if database.table_exists(&name) {
                return Err(Error::TableExists(name));
            }
            self.table.set_name(name);
        } else {
            let ghost before = self.table.cols();
            let ghost current = self.current_col;
            self.push_col()?;
            if self.table.column_exists(&name) {
                proof {
                    let k = choose|k: int| 0 <= k < self.table.cols().len() && #[trigger] self.table.cols()[k].col_name() == name@;
                    if k < before.len() {
                        assert(self.table.cols()[k] == self.table.cols().take(before.len() as int)[k]);
                        assert(has_col(before, name@));
                    }
                }
                return Err(Error::DuplicateColumn(name));
            }
            self.current_col.set_name(name)
        }
        Ok(())
    }

    fn def_pkey(&mut self) -> (r: Result<(), Error>)
        ensures
            r is Ok <==> !old(self).pkey_declared(),
            final(self).pkey_declared(),
            r is Ok ==> final(self).draft().pkey() == old(self).column().col_name(),
            r is Err ==> final(self).draft() == old(self).draft(),
            final(self).draft().tname() == old(self).draft().tname(),
            final(self).draft().cols() == old(self).draft().cols(),
            final(self).column() == old(self).column(),
            final(self).expression() == old(self).expression(),
            final(self).text() == old(self).text(),
    {
        if self.pkey_exists {
            Err(Error::DuplicatePrimaryKey(self.table.name().clone()))
        } else {
            self.table.set_pkey(self.current_col.name().clone());
            self.pkey_exists = true;
            Ok(())
        }
    }

    pub fn new_keyword(&mut self, kw: String) -> (r: Result<(), Error>)
        requires
            old(self).wf(),
        ensures
            final(self).wf(),
            is_primary(kw@) ==> (r is Ok <==> !old(self).pkey_declared()) && final(self).pkey_declared(),
            !is_primary(kw@) ==> r is Err && final(self).pkey_declared() == old(self).pkey_declared(),
            r is Ok ==> final(self).draft().pkey() == old(self).column().col_name(),
            r is Err ==> final(self).draft() == old(self).draft(),
            final(self).draft().tname() == old(self).draft().tname() && final(self).draft().cols() == old(
                self).draft().cols() && final(self).column() == old(self).column() && final(self).expression()
                == old(self).expression() && final(self).text() == old(self).text(),
    {
        proof {
            reveal_strlit("PRIMARY");
            assert("PRIMARY"@ =~= seq!['P', 'R', 'I', 'M', 'A', 'R', 'Y']);
        }
        if text_is(kw.as_str(), "PRIMARY") {
            self.def_pkey()
        } else {
            Err(Error::UnknownKeyword(kw))
        }
    }

    pub fn new_type(&mut self, type_string: String) -> (r: Result<(), Error>)
        requires
            old(self).wf(),
        ensures
            final(self).wf(),
            r is Ok <==> type_of_name(type_string@) is Some,
            final(self).pkey_declared() == old(self).pkey_declared(),
            final(self).draft() == old(self).draft(),
            final(self).column().col_name() == old(self).column().col_name(),
            r is Ok ==> type_of_name(type_string@) == Some(final(self).column().col_type()),
    {
        match type_from_name(type_string.as_str()) {
            Some(t) => {
                self.current_col.set_type(t);
                Ok(())
            },
            None => Err(Error::UnknownType(type_string)),
        }
    }

    /// Commits the declared table, with no row, and asks for its empty row
    /// file and the catalog file to be written. It fails, leaving the
    /// database as it was, when no primary key was declared, when the last
    /// column's default cannot be computed, or when the name is taken.
    pub fn end(&mut self, database: &mut Database) -> (r: Result<Vec<Effect>, Error>)
        requires
            old(database).wf(),
            old(self).wf(),
        ensures
            final(self).fresh(),
            final(self).wf(),
            !final(self).pkey_declared(),
            final(self).draft().tname() == Seq::<char>::empty(),
            final(self).draft().cols() == Seq::<Column>::empty(),
            final(self).column().col_name() == Seq::<char>::empty(),
            final(database).wf(),
            create_ended(*old(self), old(database).tables(), r, final(database).tables()),

    {
        let ghost old_self = *self;
        let ghost ts0 = database.tables();
        if !self.pkey_exists {
            let name = self.table.name().clone();
            *self = CreateReq::new();
            return Err(Error::MissingPrimaryKey(name));
        }
        if let Err(e) = self.push_col() {
            *self = CreateReq::new();
            return Err(e);
        }
        if database.table_exists(self.table.name()) {
            let name = self.table.name().clone();
            *self = CreateReq::new();
            return Err(Error::TableExists(name));
        }
        let mut table = Table::new();
        std::mem::swap(&mut table, &mut self.table);
        let name = table.name().clone();
        database.add_table(table);
        *self = CreateReq::new();
        let mut effects: Vec<Effect> = Vec::new();
        effects.push(Effect::WriteRows(name, rows_text(&Vec::new())));
        effects.push(Effect::WriteCatalog(database.catalog_text()));
        proof {
            let t = database.tables().last();
            if old_self.column().col_name().len() > 0 {
                assert(t.cols().last().col_name() == old_self.column().col_name());
            }
            let ts2 = database.tables();
            assert(old_self.pkey_declared());
            assert(old_self.default_ok());
            assert(!has_table(ts0, old_self.draft().tname()));
            assert(ts2.len() == ts0.len() + 1);
            assert(t.tname() == old_self.draft().tname());
            assert(t.pkey() == old_self.draft().pkey());
            assert(t.cols().take(old_self.draft().cols().len() as int) == old_self.draft().cols());
            assert(writes_rows(effects@[0], t));
            assert(writes_catalog(effects@[1], ts2));
        }
        Ok(effects)
    }
}

/// Handles INSERT: the table's name, the columns supplied, then their
/// values, separated by commas.
pub struct InsertReq {
    table_name: String,
    named: bool,
    asked_cols: Vec<String>,
    values: Vec<Value>,
    expr: ExpressionEvaluator,
    string_builder: StringBuilder,
}

/// Whether a name is among the supplied columns.
pub open spec fn supplied(asked: Seq<String>, name: Seq<char>) -> bool {
    exists|k: int| 0 <= k < asked.len() && (#[trigger] asked[k])@ == name
}

fn contains_name(v: &Vec<String>, name: &String) -> (r: bool)
    ensures
        r == supplied(v@, name@),
{
    let mut i: usize = 0;
    while i < v.len()
        invariant
            i <= v@.len(),
            forall|j: int| 0 <= j < i ==> (#[trigger] v@[j])@ != name@,
        decreases v@.len() - i,
    {
        if v[i] == *name {
            return true;
        }
        i = i + 1;
    }
    false
}

/// Whether `b` is `a` with one more row, which has a cell under each
/// column of the table and under no other name.
pub open spec fn appended_one_row(a: Table, b: Table) -> bool {
    &&& b.tname() == a.tname() && b.cols() == a.cols() && b.pkey() == a.pkey()
    &&& b.rows().len() == a.rows().len() + 1
    &&& b.rows().take(a.rows().len() as int) == a.rows()
    &&& forall|k: int|
        0 <= k < b.rows().last().fields@.len() ==> has_col(
            a.cols(),
            (#[trigger] b.rows().last().fields@[k]).0@,
        )
    &&& forall|c: int| 0 <= c < a.cols().len() ==> has_cell(b.rows().last().fields@, (#[trigger] a.cols()[c]).col_name())
}

/// Whether a cell holds a column's default value, stored as the column's
/// type asks.
pub open spec fn holds_default(cell: crate::row::Cell, c: Column) -> bool {
    match c.default() {
        Some((n, text)) => match cell {
            crate::row::Cell::Text(s) => c.col_type() == Type::String && s@ == text,
            crate::row::Cell::Int(v) => c.col_type() != Type::String && v == n,
        },
        None => false,
    }
}

/// Whether the last row of `b` holds, under each column of `a` that was
/// not supplied, that column's default.
pub open spec fn defaults_filled(a: Table, b: Table, asked: Seq<String>) -> bool {
    forall|c: int|
        0 <= c < a.cols().len() && !supplied(asked, (#[trigger] a.cols()[c]).col_name()) ==> exists|k: int|
            0 <= k < b.rows().last().fields@.len() && (#[trigger] b.rows().last().fields@[k]).0@
                == a.cols()[c].col_name() && holds_default(b.rows().last().fields@[k].1, a.cols()[c])
}

/// Whether `vals[m]` is the default of `c`, for some `m` where `names[m]` is its name.
pub open spec fn default_listed(names: Seq<String>, vals: Seq<Value>, c: Column) -> bool {
    exists|m: int|
        0 <= m < names.len() && m < vals.len() && (#[trigger] names[m])@ == c.col_name() && c.default()
            == Some((vals[m].num(), vals[m].text()))
}

/// Whether some cell of a row has this name.
pub open spec fn has_cell(fields: Seq<(String, crate::row::Cell)>, name: Seq<char>) -> bool {
    exists|k: int| 0 <= k < fields.len() && (#[trigger] fields[k]).0@ == name
}

/// Whether an expression compiles and evaluates (on no row).
pub open spec fn computes(e: ExpressionEvaluator) -> bool {
    let (st, pr) = reduce(e.pending(), e.program(), 0);
    st.len() == 0 && evaluate(pr, Seq::empty()) is Ok
}

/// The value of an expression that computes.
pub open spec fn computed(e: ExpressionEvaluator) -> i64 {
    evaluate(reduce(e.pending(), e.program(), 0).1, Seq::empty())->Ok_0
}

/// Whether a cell holds a value, given as its number and text, as a column
/// of type `t` stores it.
pub open spec fn cell_holds_value(c: crate::row::Cell, t: Type, v: (i64, Seq<char>)) -> bool {
    match c {
        crate::row::Cell::Text(s) => t == Type::String && s@ == v.1,
        crate::row::Cell::Int(n) => t != Type::String && n == v.0,
    }
}

pub open spec fn insert_ended(before: InsertReq, ts: Seq<Table>, r: Result<Vec<Effect>, Error>, ts2: Seq<Table>) -> bool {
    &&& (r is Err ==> ts2 == ts)
    &&& (r is Ok ==> exists|i: int|
                0 <= i < ts.len() && Some(
                    (#[trigger] ts[i]).tname(),
                ) == before.target() && ts2.len() == ts.len()
                    && (forall|j: int|
                    0 <= j < ts.len() && j != i ==> ts2[j]
                        == ts[j]) && appended_one_row(
                    ts[i],
                    ts2[i],
                ) && defaults_filled(ts[i], ts2[i], before.asked()))
    &&& (before.target() is Some && (exists|c: int|
                0 <= c < table_named(ts, before.target()->0).cols().len() && !supplied(
                    before.asked(),
                    (#[trigger] table_named(ts, before.target()->0).cols()[c]).col_name(),
                ) && table_named(ts, before.target()->0).cols()[c].default() is None)
                ==> r is Err)
    &&& (r is Ok ==> r.unwrap()@.len() == 1 && writes_table_rows(
                r.unwrap()@[0],
                ts2,
                before.target()->0,
            ))
    &&& (r is Ok <==> (before.value_closes(ts) && before.value_count() + 1 == before.asked().len() && forall|c: int|
                0 <= c < table_named(ts, before.target()->0).cols().len() && !supplied(
                    before.asked(),
                    (#[trigger] table_named(ts, before.target()->0).cols()[c]).col_name(),
                ) ==> table_named(ts, before.target()->0).cols()[c].default() is Some))
    &&& (r is Ok ==> ({
                let t = table_named(ts2, before.target()->0);
                let f = t.rows().last().fields@;
                let vs = before.vals().push(before.closed_value());
                &&& f.len() >= before.asked().len()
                &&& forall|k: int|
                    0 <= k < before.asked().len() ==> (#[trigger] f[k]).0 == before.asked()[k]
                        && cell_holds_value(f[k].1, crate::table::col_named(t.cols(), before.asked()[k]@).col_type(), vs[k])
            }))
}

pub open spec fn insert_took(before: InsertReq, ts: Seq<Table>, token: Token, after: InsertReq, r: Result<(), Error>) -> bool {
    &&& (token.token_type == TokenType::Ident && before.target() is None ==> (r is Ok <==> has_table(
                ts,
                token.content@,
            )))
    &&& (token.token_type == TokenType::Ident && before.target() is Some ==> (r is Ok <==> (
            has_col(table_named(ts, before.target()->0).cols(), token.content@)
                && !supplied(before.asked(), token.content@))) && (r is Ok ==> after.asked() == before.asked().push(token.content) && after.target() == before.target()))
    &&& (token.token_type == TokenType::Ident && before.target() is None ==> (r is Ok ==> after.target() == Some(token.content@) && after.asked() == before.asked()))
    &&& (token.token_type == TokenType::Symbol && token.flag == Flag::Comma ==> (r is Ok <==> before.value_closes(ts)) && (r is Ok ==> after.vals() == before.vals().push(
                before.closed_value(),
            )) && after.asked() == before.asked() && after.target() == before.target())
    &&& (token.token_type == TokenType::Symbol && token.flag != Flag::Comma ==> r is Ok && after.text()
                == before.text() + token.content@ && after.vals() == before.vals()
                && after.expression() == before.expression() && after.asked() == before.asked() && after.target() == before.target())
    &&& (token.token_type == TokenType::Operator ==> took_operator(
                before.expression().pending(),
                before.expression().program(),
                token.content@,
                after.expression(),
                r,
            ) && after.text() == before.text() && after.vals() == before.vals()
                && after.asked() == before.asked() && after.target() == before.target())
    &&& (token.token_type == TokenType::Number ==> took_number(
                before.expression(),
                token.content@,
                after.expression(),
                r,
            ) && after.text() == before.text() && after.vals() == before.vals()
                && after.asked() == before.asked() && after.target() == before.target())
    &&& (token.token_type != TokenType::Ident && token.token_type != TokenType::Operator
                && token.token_type != TokenType::Number && token.token_type != TokenType::Symbol ==> r matches Err(
                Error::UnexpectedToken(_),
            ))
    &&& (token.token_type == TokenType::Ident ==> after.vals() == before.vals() && after.text() == before.text()
        && after.expression() == before.expression())
    &&& (token.token_type == TokenType::Ident && r is Err ==> after.asked() == before.asked())
    &&& (token.token_type == TokenType::Symbol && token.flag == Flag::Comma && r is Ok ==> after.text()
        == Seq::<char>::empty() && after.expression().program() == Seq::<ExpToken>::empty()
        && after.expression().pending() == Seq::<crate::expression::Pending>::empty())
}

impl InsertReq {
    /// Whether the handler is in its initial state.
    pub open spec fn fresh(&self) -> bool {
        &&& self.target() is None
        &&& self.asked() == Seq::<String>::empty()
        &&& self.vals() == Seq::<(i64, Seq<char>)>::empty()
        &&& self.value_count() == 0
        &&& self.text() == Seq::<char>::empty()
        &&& self.expression().program() == Seq::<ExpToken>::empty()
        &&& self.expression().pending() == Seq::<crate::expression::Pending>::empty()
    }

    pub closed spec fn target(&self) -> Option<Seq<char>> {
        if self.named {
            Some(self.table_name@)
        } else {
            None
        }
    }

    pub closed spec fn asked(&self) -> Seq<String> {
        self.asked_cols@
    }

    pub closed spec fn value_count(&self) -> nat {
        self.values@.len()
    }

    /// The values closed so far, each as its number and text.
    pub closed spec fn vals(&self) -> Seq<(i64, Seq<char>)> {
        self.values@.map_values(|v: Value| (v.num(), v.text()))
    }

    /// The expression of the value being read.
    pub closed spec fn expression(&self) -> ExpressionEvaluator {
        self.expr
    }

    /// The string of the value being read, as far as read.
    pub closed spec fn text(&self) -> Seq<char> {
        self.string_builder@
    }

    /// The column that the next value is for.
    pub open spec fn next_column(&self, ts: Seq<Table>) -> Column {
        crate::table::col_named(table_named(ts, self.target()->0).cols(), self.asked()[self.value_count() as int]@)
    }

    /// Whether the value being read can be closed: a target is named, a
    /// supplied column is left for it, and it is a string for a string
    /// column, else an expression that computes.
    pub open spec fn value_closes(&self, ts: Seq<Table>) -> bool {
        &&& self.target() is Some
        &&& self.value_count() < self.asked().len()
        &&& self.text().len() == 0 ==> self.next_column(ts).col_type() != Type::String && computes(self.expression())
        &&& self.text().len() > 0 ==> self.expression().program().len() == 0 && self.next_column(ts).col_type() == Type::String
    }

    /// The value that closing gives: the number computed, or the string.
    pub open spec fn closed_value(&self) -> (i64, Seq<char>) {
        if self.text().len() == 0 {
            (computed(self.expression()), decimal_of(computed(self.expression()) as int))
        } else {
            (0, self.text())
        }
    }

    /// The target is a table of the catalog, and the supplied columns are
    /// distinct columns of it, no fewer than the values.
    pub closed spec fn wf(&self, ts: Seq<Table>) -> bool {
        &&& self.named ==> has_table(ts, self.table_name@)
        &&& !self.named ==> self.asked_cols@.len() == 0
        &&& self.values@.len() <= self.asked_cols@.len()
        &&& self.named ==> forall|k: int|
            0 <= k < self.asked_cols@.len() ==> has_col(
                table_named(ts, self.table_name@).cols(),
                #[trigger] self.asked_cols@[k]@,
            )
        &&& forall|a: int, b: int|
            0 <= a < b < self.asked_cols@.len() ==> #[trigger] self.asked_cols@[a]@
                != #[trigger] self.asked_cols@[b]@
    }

    pub fn new() -> (r: InsertReq)
        ensures
            r.fresh(),
            r.target() is None,
            forall|ts: Seq<Table>| r.wf(ts),
    {
        let r = InsertReq {
            table_name: String::new(),
            named: false,
            asked_cols: Vec::new(),
            values: Vec::new(),
            expr: ExpressionEvaluator::new(),
            string_builder: StringBuilder::new(),
        };
        assert(r.vals() =~= Seq::<(i64, Seq<char>)>::empty());
        r
    }

    /// Takes a token: the first identifier names the table (which must
    /// exist), the next ones the supplied columns (columns of it, each
    /// once); a comma closes a value.
    pub fn consume(&mut self, database: &Database, token: Token) -> (r: Result<(), Error>)
        requires
            database.wf(),
            old(self).wf(database.tables()),
        ensures
            final(self).wf(database.tables()),
            insert_took(*old(self), database.tables(), token, *final(self), r),

    {
        match token.token_type {
            TokenType::Ident => {
                if !self.named {
                    if !database.table_exists(&token.content) {
                        return Err(Error::UnknownTable(token.content));
                    }
                    self.table_name = token.content;
                    self.named = true;
                    Ok(())
                } else {
                    self.new_col(token.content, database)
                }
            },
            TokenType::Operator => match self.expr.new_operator(token.content) {
                Ok(()) => Ok(()),
                Err(e) => Err(error_of(e)),
            },
            TokenType::Number => match self.expr.new_number(token.content) {
                Ok(()) => Ok(()),
                Err(e) => Err(error_of(e)),
            },
            TokenType::Symbol => {
                if token.flag == Flag::Comma {
                    self.save_value(database)
                } else {
                    self.string_builder.new_char(token.content);
                    Ok(())
                }
            },
            _ => Err(Error::UnexpectedToken(token.content)),
        }
    }

    fn new_col(&mut self, col_name: String, database: &Database) -> (r: Result<(), Error>)
        requires
            database.wf(),
            old(self).wf(database.tables()),
            old(self).target() is Some,
        ensures
            final(self).wf(database.tables()),
            r is Ok <==> (has_col(table_named(database.tables(), old(self).target()->0).cols(), col_name@)
                && !supplied(old(self).asked(), col_name@)),
            r is Ok ==> final(self).asked() == old(self).asked().push(col_name),
            final(self).target() == old(self).target(),
            final(self).vals() == old(self).vals(),
            r is Err ==> final(self).asked() == old(self).asked(),
            final(self).text() == old(self).text(),
            final(self).expression() == old(self).expression(),
    {
        let table = database.get_table(&self.table_name);
        proof {
            let i = choose|i: int| 0 <= i < database.tables().len() && database.tables()[i] == *table;
            crate::table::lemma_table_named(database.tables(), i);
        }
        if !table.column_exists(&col_name) {
            return Err(Error::UnknownColumn(col_name));
        }
        if contains_name(&self.asked_cols, &col_name) {
            return Err(Error::ColumnTwice(col_name));
        }
        let ghost before = self.asked_cols@;
        self.asked_cols.push(col_name);
        proof {
            assert forall|a: int, b: int|
                0 <= a < b < self.asked_cols@.len() implies #[trigger] self.asked_cols@[a]@
                != #[trigger] self.asked_cols@[b]@ by {
                if b == before.len() {
                    assert(self.asked_cols@[a] == before[a]);
                }
            }
        }
        Ok(())
    }

    /// Closes the value of the next supplied column: a string for a string
    /// column, the value of the expression for any other.
    fn save_value(&mut self, database: &Database) -> (r: Result<(), Error>)
        requires
            database.wf(),
            old(self).wf(database.tables()),
        ensures
            final(self).wf(database.tables()),
            r is Ok <==> old(self).value_closes(database.tables()),
            r is Ok ==> final(self).vals() == old(self).vals().push(old(self).closed_value())
                && final(self).text() == Seq::<char>::empty(),
            r is Ok ==> final(self).expression().program() == Seq::<ExpToken>::empty()
                && final(self).expression().pending() == Seq::<crate::expression::Pending>::empty(),
            r is Err ==> final(self).vals() == old(self).vals(),
            final(self).value_count() == final(self).vals().len(),
            final(self).asked() == old(self).asked(),
            final(self).target() == old(self).target(),
    {
        let ghost before = self.values@;
        proof {
            if self.named {
                let i = choose|i: int| 0 <= i < database.tables().len() && #[trigger] database.tables()[i].tname() == self.table_name@;
                crate::table::lemma_table_named(database.tables(), i);
            }
        }
        if !self.named {
            return Err(Error::UnknownTable(String::new()));
        }
        if self.values.len() >= self.asked_cols.len() {
            return Err(Error::TooManyValues(self.table_name.clone()));
        }
        let table = database.get_table(&self.table_name);
        proof {
            let i = choose|i: int| 0 <= i < database.tables().len() && database.tables()[i] == *table;
            crate::table::lemma_table_named(database.tables(), i);
        }
        let column = table.get_column(&self.asked_cols[self.values.len()]);
        if self.string_builder.is_empty() {
            if column.get_type() == Type::String {
                return Err(Error::StringExpected(column.name().clone()));
            }
            match self.expr.compute(&Row::new(), true) {
                Ok(v) => {
                    self.values.push(Value::new_by_val(v));
                    assert(self.vals() =~= before.map_values(|v: Value| (v.num(), v.text())).push(old(self).closed_value()));
                },
                Err(e) => return Err(error_of(e)),
            }
        } else {
            if !self.expr.is_empty() {
                return Err(Error::StringArithmetic);
            }
            if column.get_type() != Type::String {
                return Err(Error::NotAString(column.name().clone()));
            }
            self.values.push(Value::new_by_string(&mut self.string_builder, false));
            self.expr.clear();
            assert(self.vals() =~= before.map_values(|v: Value| (v.num(), v.text())).push(old(self).closed_value()));
        }
        Ok(())
    }

    fn reset(&mut self)
        ensures
            final(self).fresh(),
            final(self).target() is None,
            forall|ts: Seq<Table>| final(self).wf(ts),
    {
        *self = InsertReq::new();
    }

    /// Appends the row to the table: the supplied values, and the default of
    /// every other column, then asks for the row file to be rewritten. It
    /// fails, leaving the database as it was, when a value is missing or
    /// mistyped, or a column with no default was not supplied.
    pub fn end(&mut self, database: &mut Database) -> (r: Result<Vec<Effect>, Error>)
        requires
            old(database).wf(),
            old(self).wf(old(database).tables()),
        ensures
            final(self).fresh(),
            final(database).wf(),
            final(self).target() is None,
            forall|ts: Seq<Table>| final(self).wf(ts),
            insert_ended(*old(self), old(database).tables(), r, final(database).tables()),

    {
        let ghost old_self = *self;
        if let Err(e) = self.save_value(database) {
            self.reset();
            return Err(e);
        }
        if self.values.len() != self.asked_cols.len() {
            let name = self.table_name.clone();
            self.reset();
            return Err(Error::TooFewValues(name));
        }
        let i = database.table_position(&self.table_name).unwrap();
        proof {
            crate::table::lemma_table_named(database.tables(), i as int);
        }
        let table = database.table_at(i);
        let ghost t = *table;
        assert(forall|j: int| 0 <= j < self.asked_cols@.len() ==> has_col(t.cols(), #[trigger] self.asked_cols@[j]@));
        let mut cols: Vec<String> = Vec::new();
        let mut vals: Vec<Value> = Vec::new();
        let mut k: usize = 0;
        while k < self.asked_cols.len()
            invariant
                k <= self.asked_cols@.len(),
                self.values@.len() == self.asked_cols@.len(),
                cols@.len() == k,
                vals@.len() == k,
                forall|j: int| 0 <= j < k ==> (#[trigger] cols@[j]) == self.asked_cols@[j],
                forall|j: int| 0 <= j < k ==> (#[trigger] vals@[j]).num() == self.values@[j].num() && vals@[j].text() == self.values@[j].text(),
                self.vals() == old_self.vals().push(old_self.closed_value()),
                old_self == *old(self),
                forall|j: int| 0 <= j < self.asked_cols@.len() ==> has_col(t.cols(), #[trigger] self.asked_cols@[j]@),
                database.wf(),
                database.tables() == old(database).tables(),
                i < database.tables().len(),
                t == database.tables()[i as int],
            decreases self.asked_cols@.len() - k,
        {
            cols.push(self.asked_cols[k].clone());
            vals.push(self.values[k].duplicate());
            k = k + 1;
        }
        let n = table.get_cols().len();
        let mut c: usize = 0;
        while c < n
            invariant
                n == t.cols().len(),
                *table == t,
                database.wf(),
                database.tables() == old(database).tables(),
                i < database.tables().len(),
                t == database.tables()[i as int],
                c <= n,
                cols@.len() == vals@.len(),
                self.asked_cols@.len() <= cols@.len(),
                forall|j: int| 0 <= j < self.asked_cols@.len() ==> (#[trigger] cols@[j]) == self.asked_cols@[j],
                self.values@.len() == self.asked_cols@.len(),
                forall|j: int| 0 <= j < self.asked_cols@.len() ==> (#[trigger] vals@[j]).num() == self.values@[j].num() && vals@[j].text() == self.values@[j].text(),
                self.vals() == old_self.vals().push(old_self.closed_value()),
                old_self == *old(self),
                old_self.target() == Some(self.table_name@),
                t == table_named(old(database).tables(), old_self.target()->0),
                forall|j: int| 0 <= j < cols@.len() ==> has_col(t.cols(), (#[trigger] cols@[j])@),
                forall|j: int|
                    0 <= j < c ==> exists|m: int| 0 <= m < cols@.len() && (#[trigger] cols@[m])@ == (#[trigger] t.cols()[j]).col_name(),
                self.asked_cols@ == old(self).asked(),
                forall|j: int|
                    0 <= j < c && !supplied(self.asked_cols@, (#[trigger] t.cols()[j]).col_name()) ==> t.cols()[j].default() is Some
                        && default_listed(cols@, vals@, t.cols()[j]),
            decreases n - c,
        {
            let col = &table.get_cols()[c];
            let ghost old_cols = cols@;
            if !contains_name(&self.asked_cols, col.name()) {
                if !col.has_default_value() {
                    let name = col.name().clone();
                    proof {
                        assert(!supplied(old_self.asked(), t.cols()[c as int].col_name()));
                        assert(t == table_named(old(database).tables(), old_self.target()->0));
                    }
                    self.reset();
                    return Err(Error::MissingValue(name));
                }
                let ghost (cols0, vals0) = (cols@, vals@);
                cols.push(col.name().clone());
                vals.push(col.default_value().duplicate());
                assert(has_col(t.cols(), cols@[cols@.len() - 1]@)) by {
                    assert(t.cols()[c as int].col_name() == cols@[cols@.len() - 1]@);
                }
                proof {
                    assert forall|j: int|
                        0 <= j < c && !supplied(self.asked_cols@, (#[trigger] t.cols()[j]).col_name()) implies t.cols()[j].default() is Some
                            && default_listed(cols@, vals@, t.cols()[j]) by {
                        let m = choose|m: int|
                            0 <= m < cols0.len() && m < vals0.len() && (#[trigger] cols0[m])@ == t.cols()[j].col_name() && t.cols()[j].default()
                                == Some((vals0[m].num(), vals0[m].text()));
                        assert(cols@[m] == cols0[m] && vals@[m] == vals0[m]);
                    }
                    let last = cols@.len() - 1;
                    assert(cols@[last]@ == t.cols()[c as int].col_name() && t.cols()[c as int].default()
                        == Some((vals@[last].num(), vals@[last].text())));
                }
            } else {
                proof {
                    assert forall|j: int|
                        0 <= j < c && !supplied(self.asked_cols@, (#[trigger] t.cols()[j]).col_name()) implies t.cols()[j].default() is Some
                            && default_listed(cols@, vals@, t.cols()[j]) by {}
                }
            }
            proof {
                if supplied(self.asked_cols@, t.cols()[c as int].col_name()) {
                    let k = choose|k: int| 0 <= k < self.asked_cols@.len() && (#[trigger] self.asked_cols@[k])@ == t.cols()[c as int].col_name();
                    assert(cols@[k] == self.asked_cols@[k]);
                }
                assert forall|j: int| 0 <= j < c + 1 implies exists|m: int| 0 <= m < cols@.len() && (#[trigger] cols@[m])@ == (#[trigger] t.cols()[j]).col_name() by {
                    if j < c {
                        let m = choose|m: int| 0 <= m < old_cols.len() && (#[trigger] old_cols[m])@ == t.cols()[j].col_name();
                        assert(cols@[m] == old_cols[m]);
                    } else {
                        if !supplied(self.asked_cols@, t.cols()[c as int].col_name()) {
                            assert(cols@[cols@.len() - 1]@ == t.cols()[c as int].col_name());
                        }
                    }
                }
            }
            c = c + 1;
        }
        let ghost before = database.tables();
        let table = database.table_at_mut(i);
        table.insert(&cols, &vals);
        let text = rows_text(table.lines());
        let name = table.name().clone();
        proof {
            crate::table::lemma_wf_update(before, i as int, database.tables()[i as int]);
            let b = database.tables()[i as int];
            let f = b.rows().last().fields@;
            assert(f.len() == cols@.len());
            assert forall|k: int| 0 <= k < f.len() implies has_col(t.cols(), (#[trigger] f[k]).0@) by {
                assert(f[k].0 == cols@[k]);
            }
            let a = before[i as int];
            assert(a == t);
            assert(b.tname() == a.tname() && b.cols() == a.cols() && b.pkey() == a.pkey());
            assert(b.rows().len() == a.rows().len() + 1);
            assert(b.rows().take(a.rows().len() as int) == a.rows());
            assert(forall|k: int|
                0 <= k < b.rows().last().fields@.len() ==> has_col(
                    a.cols(),
                    (#[trigger] b.rows().last().fields@[k]).0@,
                ));
            assert forall|c: int| 0 <= c < a.cols().len() implies has_cell(b.rows().last().fields@, (#[trigger] a.cols()[c]).col_name()) by {
                let m = choose|m: int| 0 <= m < cols@.len() && (#[trigger] cols@[m])@ == t.cols()[c].col_name();
                assert(f[m].0 == cols@[m]);
                assert(b.rows().last().fields@[m].0@ == a.cols()[c].col_name());
            }
            assert(appended_one_row(a, b));
            crate::table::lemma_table_named(database.tables(), i as int);
            assert forall|k: int| 0 <= k < old_self.asked().len() implies (#[trigger] f[k]).0 == old_self.asked()[k]
                && cell_holds_value(f[k].1, crate::table::col_named(b.cols(), old_self.asked()[k]@).col_type(),
                    old_self.vals().push(old_self.closed_value())[k]) by {
                assert(f[k].0 == cols@[k]);
                assert(cell_holds(f[k].1, crate::table::col_named(a.cols(), cols@[k]@).col_type(), vals@[k]));
                assert(vals@[k].num() == self.values@[k].num() && vals@[k].text() == self.values@[k].text());
                assert(old_self.vals().push(old_self.closed_value()) == self.vals());
                assert(self.vals()[k] == (self.values@[k].num(), self.values@[k].text()));
            }
            assert forall|c: int|
                0 <= c < a.cols().len() && !supplied(old(self).asked(), (#[trigger] a.cols()[c]).col_name()) implies exists|k: int|
                    0 <= k < b.rows().last().fields@.len() && (#[trigger] b.rows().last().fields@[k]).0@
                        == a.cols()[c].col_name() && holds_default(b.rows().last().fields@[k].1, a.cols()[c]) by {
                let m = choose|m: int|
                    0 <= m < cols@.len() && m < vals@.len() && (#[trigger] cols@[m])@ == t.cols()[c].col_name() && t.cols()[c].default()
                        == Some((vals@[m].num(), vals@[m].text()));
                assert(f[m].0 == cols@[m]);
                crate::table::lemma_col_named(t.cols(), c);
                assert(b.rows().last().fields@[m].0@ == a.cols()[c].col_name());
            }
        }
        self.reset();
        let mut effects: Vec<Effect> = Vec::new();
        effects.push(Effect::WriteRows(name, text));
        assert(writes_rows(effects@[0], database.tables()[i as int]));
        Ok(effects)
    }
}

/// One assignment of a SET as it is read: the column, the assignment
/// operator, and the right-hand side (an expression or a string literal).
pub struct Update {
    column: String,
    operator: String,
    expr: ExpressionEvaluator,
    string_builder: StringBuilder,
}

/// What an assignment does with an operator token: the first is the
/// assignment itself, later ones go to the right-hand side.
pub open spec fn update_took_operator(before: Update, text: Seq<char>, after: Update, r: Result<(), Error>) -> bool {
    &&& after.target() == before.target()
    &&& after.text() == before.text()
    &&& if before.assigned() {
        took_operator(before.expression().pending(), before.expression().program(), text, after.expression(), r)
            && after.assigned()
    } else {
        r is Ok && after.expression() == before.expression() && after.assigned() == (text.len() > 0)
    }
}

/// What an assignment does with a number token: it goes to the right-hand
/// side, unless that mixes a string with arithmetic.
pub open spec fn update_took_number(before: Update, text: Seq<char>, after: Update, r: Result<(), Error>) -> bool {
    &&& after.target() == before.target()
    &&& after.text() == before.text()
    &&& after.assigned() == before.assigned()
    &&& if before.mixes() {
        r == Err::<(), Error>(Error::StringArithmetic) && after.expression() == before.expression()
    } else {
        took_number(before.expression(), text, after.expression(), r)
    }
}

/// What an assignment does with a name: before the assignment operator it
/// is the column, after it a field of the right-hand side.
pub open spec fn update_took_name(before: Update, name: String, after: Update, r: Result<(), Error>) -> bool {
    &&& after.text() == before.text()
    &&& after.assigned() == before.assigned()
    &&& if before.assigned() {
        &&& after.target() == before.target()
        &&& after.expression().program() == before.expression().program().push(ExpToken::Field(name))
        &&& after.expression().pending() == before.expression().pending()
        &&& (r is Ok <==> !after.mixes())
        &&& (r is Err ==> r == Err::<(), Error>(Error::StringArithmetic))
    } else {
        r is Ok && after.target() == name@ && after.expression() == before.expression()
    }
}

impl Update {
    /// Whether the assignment is in its initial state.
    pub open spec fn fresh(&self) -> bool {
        &&& self.target() == Seq::<char>::empty()
        &&& !self.assigned()
        &&& self.text() == Seq::<char>::empty()
        &&& self.expression().program() == Seq::<ExpToken>::empty()
        &&& self.expression().pending() == Seq::<crate::expression::Pending>::empty()
    }

    pub closed spec fn target(&self) -> Seq<char> {
        self.column@
    }

    pub closed spec fn assigned(&self) -> bool {
        self.operator@.len() > 0
    }

    /// The right-hand side's expression.
    pub closed spec fn expression(&self) -> ExpressionEvaluator {
        self.expr
    }

    /// The right-hand side's string literal, as far as it has been read.
    pub closed spec fn text(&self) -> Seq<char> {
        self.string_builder@
    }

    pub open spec fn mixes(&self) -> bool {
        self.text().len() > 0 && self.expression().program().len() > 0
    }

    pub fn new() -> (r: Update)
        ensures
            r.fresh(),
            r.target() == Seq::<char>::empty(),
            !r.assigned(),
            r.text() == Seq::<char>::empty(),
            r.expression().program() == Seq::<ExpToken>::empty(),
            r.expression().pending() == Seq::<crate::expression::Pending>::empty(),
    {
        Update {
            column: String::new(),
            operator: String::new(),
            expr: ExpressionEvaluator::new(),
            string_builder: StringBuilder::new(),
        }
    }

    /// Whether the assignment operator has been read.
    pub fn has_operator(&self) -> (r: bool)
        ensures
            r == self.assigned(),
    {
        self.operator.as_str().unicode_len() > 0
    }

    /// `StringArithmetic` when the right-hand side has both a string literal
    /// and an expression.
    pub fn test_string_exp_compability(&self) -> (r: Result<(), Error>)
        ensures
            r is Ok <==> !self.mixes(),
            r is Err ==> r == Err::<(), Error>(Error::StringArithmetic),
    {
        if !self.string_builder.is_empty() && !self.expr.is_empty() {
            return Err(Error::StringArithmetic);
        }
        Ok(())
    }

    /// The first operator is the assignment; later ones belong to the
    /// right-hand side.
    pub fn new_operator(&mut self, op: String) -> (r: Result<(), Error>)
        ensures
            update_took_operator(*old(self), op@, *final(self), r),
    {
        if self.has_operator() {
            match self.expr.new_operator(op) {
                Ok(()) => Ok(()),
                Err(e) => Err(error_of(e)),
            }
        } else {
            self.operator = op;
            Ok(())
        }
    }

    /// Before the assignment a name is the column; after it, a field of the
    /// right-hand side.
    pub fn new_name(&mut self, name: String) -> (r: Result<(), Error>)
        ensures
            update_took_name(*old(self), name, *final(self), r),
    {
        if self.has_operator() {
            self.expr.new_field(name);
            self.test_string_exp_compability()
        } else {
            self.column = name;
            Ok(())
        }
    }

    pub fn new_number(&mut self, n: String) -> (r: Result<(), Error>)
        ensures
            update_took_number(*old(self), n@, *final(self), r),
    {
        self.test_string_exp_compability()?;
        match self.expr.new_number(n) {
            Ok(()) => Ok(()),
            Err(e) => Err(error_of(e)),
        }
    }

    pub fn new_char(&mut self, c: String) -> (r: Result<(), Error>)
        ensures
            final(self).text() == old(self).text() + c@,
            final(self).expression() == old(self).expression(),
            (r is Ok <==> !final(self).mixes()),
            r is Err ==> r == Err::<(), Error>(Error::StringArithmetic),
            final(self).target() == old(self).target(),
            final(self).assigned() == old(self).assigned(),
    {
        self.string_builder.new_char(c);
        self.test_string_exp_compability()
    }
}

/// Whether an assignment is what a SET's assignment, once read, gives:
/// its column, and its string or its completed expression.
pub open spec fn assignment_of(a: Assignment, u: Update) -> bool {
    &&& a.column@ == u.target()
    &&& match a.value {
        AssignValue::Text(s) => u.text().len() > 0 && s@ == u.text(),
        AssignValue::Expr(x) => u.text().len() == 0 && x.program() == reduce(
            u.expression().pending(),
            u.expression().program(),
            0,
        ).1,
    }
}

/// Whether an assignment can be made on a table with these columns: its
/// column exists, it does not mix a string with arithmetic, and an
/// expression is balanced.
pub open spec fn update_ready(u: Update, cols: Seq<Column>) -> bool {
    &&& has_col(cols, u.target())
    &&& !u.mixes()
    &&& u.text().len() == 0 ==> reduce(u.expression().pending(), u.expression().program(), 0).0.len() == 0
}

pub open spec fn assignments_ready(us: Seq<Update>, cols: Seq<Column>) -> bool {
    forall|k: int| 0 <= k < us.len() ==> update_ready(#[trigger] us[k], cols)
}

/// Handles SET: assignments separated by commas, then (after a keyword)
/// the clause.
pub struct SetReq {
    redirect: bool,
    aff_vec: Vec<Update>,
    from_where: FromWhereReq,
}

pub open spec fn set_ended(before: SetReq, ts: Seq<Table>, r: Result<Vec<Effect>, Error>, ts2: Seq<Table>) -> bool {
    &&& (r is Err ==> ts2 == ts)
    &&& (r is Ok ==> exists|i: int|
                0 <= i < ts.len() && (#[trigger] ts[i]).tname()
                    == before.clause().target() && ts2.len() == ts.len() && (forall|j: int|
                    0 <= j < ts.len() && j != i ==> ts2[j]
                        == ts[j]) && ts2[i].tname()
                    == ts[i].tname() && ts2[i].cols() == ts[i].cols() && exists|asg: Seq<Assignment>|
                    asg.len() == before.updates().len() && (forall|k: int|
                        0 <= k < asg.len() ==> assignment_of(#[trigger] asg[k], before.updates()[k])) && updated(
                        finished_predicate(before.clause()).1,
                        ts[i].rows(),
                        asg,
                    ) == Ok::<Seq<Seq<(String, crate::row::Cell)>>, crate::expression::ExprError>(
                        rows_fields(ts2[i].rows()),
                    ))
    &&& (r is Ok ==> r.unwrap()@.len() == 1 && writes_table_rows(
                r.unwrap()@[0],
                ts2,
                before.clause().target(),
            ))
    &&& (r is Ok ==> before.clause().has_target() && finished_predicate(before.clause()).0.len() == 0
                && assignments_ready(before.updates(), table_named(ts, before.clause().target()).cols()))
    &&& (before.clause().has_target() && finished_predicate(before.clause()).0.len() == 0 && assignments_ready(
                before.updates(),
                table_named(ts, before.clause().target()).cols(),
            ) && (forall|asg: Seq<Assignment>|
                asg.len() == before.updates().len() && (forall|k: int|
                    0 <= k < asg.len() ==> assignment_of(#[trigger] asg[k], before.updates()[k])) ==> updated(
                    finished_predicate(before.clause()).1,
                    table_named(ts, before.clause().target()).rows(),
                    asg,
                ) is Ok) ==> r is Ok)
}

pub open spec fn set_took(before: SetReq, ts: Seq<Table>, token: Token, after: SetReq, r: Result<(), Error>) -> bool {
    &&& (before.redirected() ==> after.redirected() && after.updates() == before.updates())
    &&& (!before.redirected() ==> after.clause() == before.clause())
    &&& (!before.redirected() && token.token_type == TokenType::Keyword ==> r is Ok && after.redirected()
                && after.updates() == before.updates())
    &&& (!before.redirected() && token.token_type == TokenType::Symbol && token.flag == Flag::Comma ==> r is Ok
                && after.updates().len() == before.updates().len() + 1)
    &&& (before.redirected() ==> clause_took(before.clause(), ts, token, after.clause(), r))
    &&& (!before.redirected() && (token.token_type == TokenType::Operator || token.token_type == TokenType::Number
                || token.token_type == TokenType::Ident) ==> {
                let n = before.updates().len();
                &&& after.updates().len() == n
                &&& after.updates().take(n - 1) == before.updates().take(n - 1)
                &&& token.token_type == TokenType::Operator ==> update_took_operator(
                    before.updates()[n - 1],
                    token.content@,
                    after.updates()[n - 1],
                    r,
                )
                &&& token.token_type == TokenType::Number ==> update_took_number(
                    before.updates()[n - 1],
                    token.content@,
                    after.updates()[n - 1],
                    r,
                )
                &&& token.token_type == TokenType::Ident ==> update_took_name(
                    before.updates()[n - 1],
                    token.content,
                    after.updates()[n - 1],
                    r,
                )
            })
    &&& (!before.redirected() && token.token_type == TokenType::Symbol && token.flag != Flag::Comma ==> {
        let n = before.updates().len();
        &&& after.updates().len() == n
        &&& after.updates().take(n - 1) == before.updates().take(n - 1)
        &&& after.updates()[n - 1].text() == before.updates()[n - 1].text() + token.content@
        &&& after.updates()[n - 1].expression() == before.updates()[n - 1].expression()
        &&& after.updates()[n - 1].target() == before.updates()[n - 1].target()
        &&& after.updates()[n - 1].assigned() == before.updates()[n - 1].assigned()
        &&& (r is Ok <==> !after.updates()[n - 1].mixes())
        &&& (r is Err ==> r == Err::<(), Error>(Error::StringArithmetic))
    })
    &&& (!before.redirected() && token.token_type != TokenType::Keyword && token.token_type != TokenType::Symbol
        && token.token_type != TokenType::Operator && token.token_type != TokenType::Number
        && token.token_type != TokenType::Ident ==> r matches Err(Error::UnexpectedToken(_)))
    &&& (!before.redirected() && token.token_type == TokenType::Symbol && token.flag == Flag::Comma ==> after.updates()
        == before.updates().push(after.updates().last()) && after.updates().last().fresh())
}

impl SetReq {
    /// Whether the handler is in its initial state: one fresh assignment.
    pub open spec fn fresh(&self) -> bool {
        &&& !self.redirected()
        &&& self.clause().fresh()
        &&& self.updates().len() == 1
        &&& self.updates()[0].fresh()
    }

    pub closed spec fn clause(&self) -> FromWhereReq {
        self.from_where
    }

    pub closed spec fn updates(&self) -> Seq<Update> {
        self.aff_vec@
    }

    /// Whether the assignments are over and the clause has begun.
    pub closed spec fn redirected(&self) -> bool {
        self.redirect
    }

    pub open spec fn wf(&self, ts: Seq<Table>) -> bool {
        &&& self.clause().wf(ts)
        &&& self.updates().len() > 0
    }

    pub fn new() -> (r: SetReq)
        ensures
            r.fresh(),
            !r.clause().has_target(),
            r.updates().len() == 1,
    {
        let mut aff_vec: Vec<Update> = Vec::new();
        aff_vec.push(Update::new());
        SetReq { redirect: false, aff_vec, from_where: FromWhereReq::pure_new() }
    }

    fn new_keyword(&mut self)
        ensures
            final(self).clause() == old(self).clause(),
            final(self).updates() == old(self).updates(),
            final(self).redirected(),
    {
        self.redirect = true;
    }

    /// Takes a token: assignments until a keyword, then the clause; a comma
    /// starts a new assignment.
    pub fn consume(&mut self, database: &Database, token: Token) -> (r: Result<(), Error>)
        requires
            database.wf(),
            old(self).wf(database.tables()),
        ensures
            final(self).wf(database.tables()),
            set_took(*old(self), database.tables(), token, *final(self), r),

    {
        if self.redirect {
            return self.from_where.consume(database, token);
        }
        match token.token_type {
            TokenType::Keyword => {
                self.new_keyword();
                Ok(())
            },
            TokenType::Symbol => self.new_char(token.content, token.flag),
            TokenType::Operator | TokenType::Number | TokenType::Ident => {
                let ghost before = self.aff_vec@;
                let mut last = self.aff_vec.pop().unwrap();
                let r = match token.token_type {
                    TokenType::Operator => last.new_operator(token.content),
                    TokenType::Number => last.new_number(token.content),
                    _ => last.new_name(token.content),
                };
                self.aff_vec.push(last);
                assert(self.aff_vec@.take(before.len() - 1) =~= before.take(before.len() - 1));
                r
            },
            _ => Err(Error::UnexpectedToken(token.content)),
        }
    }

    fn new_char(&mut self, c: String, flag: Flag) -> (r: Result<(), Error>)
        requires
            old(self).updates().len() > 0,
        ensures
            final(self).updates().len() > 0,
            final(self).clause() == old(self).clause(),
            final(self).redirected() == old(self).redirected(),
            flag == Flag::Comma ==> r is Ok && final(self).updates() == old(self).updates().push(
                final(self).updates().last(),
            ) && final(self).updates().last().fresh(),
            flag != Flag::Comma ==> {
                let n = old(self).updates().len();
                &&& final(self).updates().len() == n
                &&& final(self).updates().take(n - 1) == old(self).updates().take(n - 1)
                &&& final(self).updates()[n - 1].text() == old(self).updates()[n - 1].text() + c@
                &&& final(self).updates()[n - 1].expression() == old(self).updates()[n - 1].expression()
                &&& final(self).updates()[n - 1].target() == old(self).updates()[n - 1].target()
                &&& final(self).updates()[n - 1].assigned() == old(self).updates()[n - 1].assigned()
                &&& (r is Ok <==> !final(self).updates()[n - 1].mixes())
                &&& (r is Err ==> r == Err::<(), Error>(Error::StringArithmetic))
            },
    {
        if flag == Flag::Comma {
            self.aff_vec.push(Update::new());
            Ok(())
        } else {
            let ghost before = self.aff_vec@;
            let mut last = self.aff_vec.pop().unwrap();
            let r = last.new_char(c);
            self.aff_vec.push(last);
            assert(self.aff_vec@.take(before.len() - 1) =~= before.take(before.len() - 1));
            r
        }
    }

    fn reset(&mut self)
        ensures
            final(self).fresh(),
            !final(self).clause().has_target(),
            final(self).updates().len() == 1,
    {
        *self = SetReq::new();
    }

    /// Turns the assignments into their final form (see `assignment_of`):
    /// each column must be a column of the table, a string literal may not
    /// be mixed with an expression, and an expression must be balanced.
    fn assignments(&mut self, table: &Table) -> (r: Result<Vec<Assignment>, Error>)
        ensures
            r is Ok <==> assignments_ready(old(self).updates(), table.cols()),
            r matches Ok(asg) ==> asg@.len() == old(self).updates().len() && forall|k: int|
                0 <= k < asg@.len() ==> assignment_of(#[trigger] asg@[k], old(self).updates()[k]),
            final(self).clause() == old(self).clause(),
    {
        let mut updates: Vec<Update> = Vec::new();
        std::mem::swap(&mut updates, &mut self.aff_vec);
        let ghost all = updates@;
        let mut asg: Vec<Assignment> = Vec::new();
        while updates.len() > 0
            invariant
                asg@.len() + updates@.len() == all.len(),
                all == old(self).updates(),
                updates@ == all.subrange(asg@.len() as int, all.len() as int),
                forall|k: int| 0 <= k < asg@.len() ==> assignment_of(#[trigger] asg@[k], all[k]),
                forall|k: int| 0 <= k < asg@.len() ==> update_ready(#[trigger] all[k], table.cols()),
                self.from_where == old(self).from_where,
            decreases updates@.len(),
        {
            let ghost idx = asg@.len() as int;
            let mut u = updates.remove(0);
            assert(u == all[idx]);
            assert(updates@ =~= all.subrange(idx + 1, all.len() as int));
            if !table.column_exists(&u.column) {
                assert(!update_ready(all[idx], table.cols()));
                return Err(Error::UnknownColumn(u.column));
            }
            let value = if !u.string_builder.is_empty() {
                if !u.expr.is_empty() {
                    assert(!update_ready(all[idx], table.cols()));
                    return Err(Error::StringArithmetic);
                }
                AssignValue::Text(u.string_builder.extract())
            } else {
                if let Err(e) = u.expr.finish() {
                    assert(!update_ready(all[idx], table.cols()));
                    return Err(error_of(e));
                }
                AssignValue::Expr(u.expr)
            };
            let a = Assignment { column: u.column, value };
            assert(assignment_of(a, all[idx]));
            asg.push(a);
        }
        Ok(asg)
    }

    /// Makes the assignments on each of the target's rows that satisfy the
    /// predicate, each right-hand side evaluated on the row as the earlier
    /// assignments left it, and asks for the row file to be rewritten. On an
    /// error the database is left as it was.
    pub fn end(&mut self, database: &mut Database) -> (r: Result<Vec<Effect>, Error>)
        requires
            old(database).wf(),
            old(self).wf(old(database).tables()),
        ensures
            final(self).fresh(),
            final(database).wf(),
            final(self).wf(final(database).tables()),
            !final(self).clause().has_target(),
            set_ended(*old(self), old(database).tables(), r, final(database).tables()),

    {
        let ghost old_self = *self;
        if !self.from_where.where_passed {
            self.reset();
            return Err(Error::UnknownTable(String::new()));
        }
        if let Err(e) = finish_predicate(&mut self.from_where) {
            self.reset();
            return Err(e);
        }
        let i = database.table_position(self.from_where.table_name()).unwrap();
        proof {
            crate::table::lemma_table_named(database.tables(), i as int);
        }
        let asg = match self.assignments(database.table_at(i)) {
            Ok(asg) => asg,
            Err(e) => {
                self.reset();
                return Err(e);
            },
        };
        let ghost before = database.tables();
        let table = database.table_at_mut(i);
        let res = table.update_matching(&self.from_where.expr, &asg);
        let text = rows_text(table.lines());
        let name = table.name().clone();
        proof {
            crate::table::lemma_wf_update(before, i as int, database.tables()[i as int]);
        }
        self.reset();
        match res {
            Ok(()) => {
                let mut effects: Vec<Effect> = Vec::new();
                effects.push(Effect::WriteRows(name, text));
                Ok(effects)
            },
            Err(e) => {
                assert(database.tables() =~= before);
                Err(error_of(e))
            },
        }
    }
}

} // verus!
