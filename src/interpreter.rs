//! The dispatcher: routes each token to the handler of the statement in
//! progress.
use vstd::prelude::*;
use crate::error::Error;
use crate::requests::{
    create_ended, create_took, delete_ended, delete_took, drop_ended, drop_took, insert_ended, insert_took, select_ended,
    select_took, set_ended, set_took, writes_catalog, CreateReq, DeleteReq, DropReq, Effect, InsertReq, ResetReq,
    SelectReq, SetReq,
};
use crate::table::{Database, Table};
use crate::token::{Token, TokenType};

verus! {

/// What a finished statement gives, as the active handler's `end` states it.
pub open spec fn statement_ended(
    interp: Interpreteur,
    r: Result<Vec<Effect>, Error>,
    ts2: Seq<Table>,
) -> bool {
    let ts = interp.catalog();
    match interp.current() {
        Statement::Create => create_ended(interp.create_handler(), ts, r, ts2),
        Statement::Drop => drop_ended(interp.drop_handler(), ts, r, ts2),
        Statement::Reset => r is Ok && ts2 == Seq::<Table>::empty() && r.unwrap()@.len() == ts.len() + 1
            && writes_catalog(r.unwrap()@.last(), Seq::<Table>::empty()),
        Statement::Insert => insert_ended(interp.insert_handler(), ts, r, ts2),
        Statement::Select => select_ended(interp.select_handler(), ts, r) && ts2 == ts,
        Statement::Update => set_ended(interp.set_handler(), ts, r, ts2),
        Statement::Delete => delete_ended(interp.delete_handler(), ts, r, ts2),
    }
}

/// Whether `r` reports the same outcome as a handler's `consume` result.
pub open spec fn same_outcome(rh: Result<(), Error>, r: Result<Vec<Effect>, Error>) -> bool {
    &&& (rh is Ok <==> r is Ok)
    &&& (r is Ok ==> r.unwrap()@.len() == 0)
    &&& forall|e: Error| rh == Err::<(), Error>(e) ==> r == Err::<Vec<Effect>, Error>(e)
}

/// Whether `r` is what the handler's `consume` can give for this token.
pub open spec fn create_consumed(before: CreateReq, ts: Seq<Table>, token: Token, r: Result<Vec<Effect>, Error>) -> bool {
    exists|h: CreateReq, rh: Result<(), Error>| #![trigger create_took(before, ts, token, h, rh)] create_took(before, ts, token, h, rh) && same_outcome(rh, r)
}

/// Whether `r` is what the handler's `consume` can give for this token.
pub open spec fn insert_consumed(before: InsertReq, ts: Seq<Table>, token: Token, r: Result<Vec<Effect>, Error>) -> bool {
    exists|h: InsertReq, rh: Result<(), Error>| #![trigger insert_took(before, ts, token, h, rh)] insert_took(before, ts, token, h, rh) && same_outcome(rh, r)
}

/// Whether `r` is what the handler's `consume` can give for this token.
pub open spec fn select_consumed(before: SelectReq, ts: Seq<Table>, token: Token, r: Result<Vec<Effect>, Error>) -> bool {
    exists|h: SelectReq, rh: Result<(), Error>| #![trigger select_took(before, ts, token, h, rh)] select_took(before, ts, token, h, rh) && same_outcome(rh, r)
}

/// Whether `r` is what the handler's `consume` can give for this token.
pub open spec fn set_consumed(before: SetReq, ts: Seq<Table>, token: Token, r: Result<Vec<Effect>, Error>) -> bool {
    exists|h: SetReq, rh: Result<(), Error>| #![trigger set_took(before, ts, token, h, rh)] set_took(before, ts, token, h, rh) && same_outcome(rh, r)
}

/// Whether `r` is what the handler's `consume` can give for this token.
pub open spec fn delete_consumed(before: DeleteReq, ts: Seq<Table>, token: Token, r: Result<Vec<Effect>, Error>) -> bool {
    exists|h: DeleteReq, rh: Result<(), Error>| #![trigger delete_took(before, ts, token, h, rh)] delete_took(before, ts, token, h, rh) && same_outcome(rh, r)
}

/// Whether `r` is what DROP's `consume` can give for this token.
pub open spec fn drop_consumed(before: DropReq, ts: Seq<Table>, token: Token, r: Result<Vec<Effect>, Error>) -> bool {
    exists|h: DropReq, rh: Result<(), Error>| #![trigger drop_took(before, ts, token, h, rh)] drop_took(before, ts, token, h, rh) && same_outcome(rh, r)
}

/// What a token in the middle of a statement gives, as the active
/// handler's `consume` states it.
pub open spec fn statement_took(interp: Interpreteur, token: Token, r: Result<Vec<Effect>, Error>) -> bool {
    let ts = interp.catalog();
    match interp.current() {
        Statement::Create => create_consumed(interp.create_handler(), ts, token, r),
        Statement::Drop => drop_consumed(interp.drop_handler(), ts, token, r),
        Statement::Reset => r matches Err(Error::UnexpectedToken(_)),
        Statement::Insert => insert_consumed(interp.insert_handler(), ts, token, r),
        Statement::Select => select_consumed(interp.select_handler(), ts, token, r),
        Statement::Update => set_consumed(interp.set_handler(), ts, token, r),
        Statement::Delete => delete_consumed(interp.delete_handler(), ts, token, r),
    }
}

} // verus!
use crate::value::text_is;

verus! {

/// The statement kinds, by their leading keyword.
#[derive(Clone, Copy, Debug, PartialEq, Eq, Structural)]
pub enum Statement {
    Create,
    Drop,
    Reset,
    Insert,
    Select,
    Update,
    Delete,
}

/// The statement that a leading keyword starts, if any.
pub open spec fn statement_of(s: Seq<char>) -> Option<Statement> {
    if s == seq!['C', 'R', 'E', 'A', 'T', 'E'] {
        Some(Statement::Create)
    } else if s == seq!['D', 'R', 'O', 'P'] {
        Some(Statement::Drop)
    } else if s == seq!['R', 'E', 'S', 'E', 'T'] {
        Some(Statement::Reset)
    } else if s == seq!['I', 'N', 'S', 'E', 'R', 'T'] {
        Some(Statement::Insert)
    } else if s == seq!['S', 'E', 'L', 'E', 'C', 'T'] {
        Some(Statement::Select)
    } else if s == seq!['S', 'E', 'T'] {
        Some(Statement::Update)
    } else if s == seq!['D', 'E', 'L', 'E', 'T', 'E'] {
        Some(Statement::Delete)
    } else {
        None
    }
}

/// Reads a leading keyword.
pub fn statement_from_text(s: &str) -> (r: Option<Statement>)
    ensures
        r == statement_of(s@),
{
    proof {
        reveal_strlit("CREATE");
        reveal_strlit("DROP");
        reveal_strlit("RESET");
        reveal_strlit("INSERT");
        reveal_strlit("SELECT");
        reveal_strlit("SET");
        reveal_strlit("DELETE");
        assert("CREATE"@ =~= seq!['C', 'R', 'E', 'A', 'T', 'E']);
        assert("DROP"@ =~= seq!['D', 'R', 'O', 'P']);
        assert("RESET"@ =~= seq!['R', 'E', 'S', 'E', 'T']);
        assert("INSERT"@ =~= seq!['I', 'N', 'S', 'E', 'R', 'T']);
        assert("SELECT"@ =~= seq!['S', 'E', 'L', 'E', 'C', 'T']);
        assert("SET"@ =~= seq!['S', 'E', 'T']);
        assert("DELETE"@ =~= seq!['D', 'E', 'L', 'E', 'T', 'E']);
    }
    if text_is(s, "CREATE") {
        Some(Statement::Create)
    } else if text_is(s, "DROP") {
        Some(Statement::Drop)
    } else if text_is(s, "RESET") {
        Some(Statement::Reset)
    } else if text_is(s, "INSERT") {
        Some(Statement::Insert)
    } else if text_is(s, "SELECT") {
        Some(Statement::Select)
    } else if text_is(s, "SET") {
        Some(Statement::Update)
    } else if text_is(s, "DELETE") {
        Some(Statement::Delete)
    } else {
        None
    }
}

/// The engine: the catalog, one handler per statement kind, and which
/// statement is in progress.
pub struct Interpreteur {
    create: CreateReq,
    drop: DropReq,
    reset: ResetReq,
    insert: InsertReq,
    select: SelectReq,
    set: SetReq,
    delete: DeleteReq,
    current_treater: Statement,
    request_in_treatment: bool,
    skipping: bool,
    database: Database,
}

impl Interpreteur {
    pub closed spec fn catalog(&self) -> Seq<Table> {
        self.database.tables()
    }

    /// The statement in progress, or the last one.
    pub closed spec fn current(&self) -> Statement {
        self.current_treater
    }

    pub closed spec fn create_handler(&self) -> CreateReq {
        self.create
    }

    pub closed spec fn drop_handler(&self) -> DropReq {
        self.drop
    }

    pub closed spec fn insert_handler(&self) -> InsertReq {
        self.insert
    }

    pub closed spec fn select_handler(&self) -> SelectReq {
        self.select
    }

    pub closed spec fn set_handler(&self) -> SetReq {
        self.set
    }

    pub closed spec fn delete_handler(&self) -> DeleteReq {
        self.delete
    }

    /// Whether a statement is in progress.
    pub closed spec fn busy(&self) -> bool {
        self.request_in_treatment
    }

    /// Whether the rest of a failed statement is being dropped.
    pub closed spec fn dropping(&self) -> bool {
        self.skipping
    }

    pub closed spec fn wf(&self) -> bool {
        let ts = self.database.tables();
        &&& self.database.wf()
        &&& self.create.wf()
        &&& self.insert.wf(ts)
        &&& self.select.wf(ts)
        &&& self.set.wf(ts)
        &&& self.delete.wf(ts)
        &&& !(self.request_in_treatment && self.current_treater == Statement::Insert) ==> forall|
            u: Seq<Table>,
        | self.insert.wf(u)
        &&& !(self.request_in_treatment && self.current_treater == Statement::Select)
            ==> !self.select.clause().has_target()
        &&& !(self.request_in_treatment && self.current_treater == Statement::Update)
            ==> !self.set.clause().has_target()
        &&& !(self.request_in_treatment && self.current_treater == Statement::Delete)
            ==> !self.delete.clause().has_target()
        &&& !(self.request_in_treatment && self.skipping)
        &&& !(self.request_in_treatment && self.current_treater == Statement::Create) ==> self.create.fresh()
        &&& !(self.request_in_treatment && self.current_treater == Statement::Drop) ==> self.drop.fresh()
        &&& !(self.request_in_treatment && self.current_treater == Statement::Insert) ==> self.insert.fresh()
        &&& !(self.request_in_treatment && self.current_treater == Statement::Select) ==> self.select.fresh()
        &&& !(self.request_in_treatment && self.current_treater == Statement::Update) ==> self.set.fresh()
        &&& !(self.request_in_treatment && self.current_treater == Statement::Delete) ==> self.delete.fresh()
    }

    /// Whether every handler is in its initial state.
    pub open spec fn handlers_fresh(&self) -> bool {
        &&& self.create_handler().fresh()
        &&& self.drop_handler().fresh()
        &&& self.insert_handler().fresh()
        &&& self.select_handler().fresh()
        &&& self.set_handler().fresh()
        &&& self.delete_handler().fresh()
    }

    /// An engine on a catalog, with no statement in progress.
    pub fn new(database: Database) -> (r: Interpreteur)
        requires
            database.wf(),
        ensures
            r.wf(),
            r.catalog() == database.tables(),
            !r.busy(),
            !r.dropping(),
    {
        Interpreteur {
            create: CreateReq::new(),
            drop: DropReq::new(),
            reset: ResetReq::new(),
            insert: InsertReq::new(),
            select: SelectReq::new(),
            set: SetReq::new(),
            delete: DeleteReq::new(),
            current_treater: Statement::Create,
            request_in_treatment: false,
            skipping: false,
            database,
        }
    }

    /// The catalog.
    pub fn database(&self) -> (r: &Database)
        requires
            self.wf(),
        ensures
            r.tables() == self.catalog(),
            r.wf(),
    {
        &self.database
    }

    /// Puts the handler of the current statement back in its initial state.
    fn reset_current(&mut self)
        requires
            old(self).wf() || (old(self).database.wf() && old(self).create.wf() && old(
                self,
            ).insert.wf(old(self).database.tables()) && old(self).select.wf(old(self).database.tables())
                && old(self).set.wf(old(self).database.tables()) && old(self).delete.wf(
                old(self).database.tables(),
            )),
        ensures
            final(self).database == old(self).database,
            final(self).request_in_treatment == old(self).request_in_treatment,
            final(self).skipping == old(self).skipping,
            final(self).current_treater == old(self).current_treater,
            final(self).create.wf(),
            forall|u: Seq<Table>| final(self).insert.wf(u),
            !final(self).select.clause().has_target(),
            !final(self).set.clause().has_target(),
            final(self).set.wf(final(self).database.tables()),
            !final(self).delete.clause().has_target(),
            final(self).create.fresh() && final(self).drop.fresh() && final(self).insert.fresh()
                && final(self).select.fresh() && final(self).set.fresh() && final(self).delete.fresh(),
    {
        self.create = CreateReq::new();
        self.drop = DropReq::new();
        self.insert = InsertReq::new();
        self.select = SelectReq::new();
        self.set = SetReq::new();
        self.delete = DeleteReq::new();
    }

    /// Takes the next token of the stream. A line separator is ignored; an
    /// `End` finishes the statement in progress and returns what it asks of
    /// the outside world; an `ERROR` fails with the lexer's message; the
    /// first token of a statement must be a statement keyword. After a
    /// failure the rest of the statement, up to its `End`, is dropped. A
    /// failure never changes the catalog.
    pub fn new_token(&mut self, token: Token) -> (r: Result<Vec<Effect>, Error>)
        requires
            old(self).wf(),
        ensures
            final(self).wf(),
            r is Err ==> final(self).catalog() == old(self).catalog(),
            token.token_type == TokenType::ERROR ==> (r matches Err(Error::Lexical(m)) && m == token.content),
            token.token_type == TokenType::BackLine ==> r is Ok && r.unwrap()@.len() == 0
                && final(self).catalog() == old(self).catalog(),
            token.token_type != TokenType::ERROR && token.token_type != TokenType::BackLine
                && token.token_type != TokenType::End && !old(self).busy() && !old(self).dropping() ==> (
            r is Ok <==> statement_of(token.content@) is Some) && final(self).catalog() == old(
                self,
            ).catalog() && (r is Ok ==> final(self).busy()),
            token.token_type == TokenType::End ==> !final(self).busy() && !final(self).dropping(),
            token.token_type == TokenType::End && old(self).busy() && !old(self).dropping() ==> statement_ended(
                *old(self),
                r,
                final(self).catalog(),
            ),
            token.token_type != TokenType::ERROR && token.token_type != TokenType::BackLine
                && token.token_type != TokenType::End && old(self).busy() && !old(self).dropping()
                ==> statement_took(*old(self), token, r) && final(self).catalog() == old(self).catalog(),
            token.token_type != TokenType::ERROR && token.token_type != TokenType::BackLine
                && token.token_type != TokenType::End && !old(self).busy() && !old(self).dropping() && r is Ok
                ==> final(self).current() == statement_of(token.content@)->Some_0 && final(self).handlers_fresh(),
    {
        match token.token_type {
            TokenType::ERROR => {
                self.reset_current();
                self.skipping = self.request_in_treatment;
                self.request_in_treatment = false;
                Err(Error::Lexical(token.content))
            },
            TokenType::BackLine => Ok(Vec::new()),
            TokenType::End => self.end_request(),
            _ => self.consume_token(token),
        }
    }

    fn consume_token(&mut self, token: Token) -> (r: Result<Vec<Effect>, Error>)
        requires
            old(self).wf(),
        ensures
            final(self).wf(),
            final(self).catalog() == old(self).catalog(),
            !old(self).busy() && !old(self).dropping() ==> (r is Ok <==> statement_of(token.content@) is Some)
                && (r is Ok ==> final(self).busy() && final(self).current() == statement_of(token.content@)->Some_0
                && final(self).handlers_fresh()),
            old(self).busy() && !old(self).dropping() ==> statement_took(*old(self), token, r),
    {
        if self.skipping {
            return Ok(Vec::new());
        }
        if !self.request_in_treatment {
            match statement_from_text(token.content.as_str()) {
                Some(s) => {
                    self.current_treater = s;
                    self.request_in_treatment = true;
                    return Ok(Vec::new());
                },
                None => {
                    self.skipping = true;
                    return Err(Error::UnknownStatement(token.content));
                },
            }
        }
        let ghost before = *self;
        let ghost tok = token;
        let r = match self.current_treater {
            Statement::Create => self.create.consume(&self.database, token),
            Statement::Drop => self.drop.consume(&self.database, token),
            Statement::Reset => self.reset.consume(token),
            Statement::Insert => self.insert.consume(&self.database, token),
            Statement::Select => self.select.consume(&self.database, token),
            Statement::Update => self.set.consume(&self.database, token),
            Statement::Delete => self.delete.consume(&self.database, token),
        };
        let ghost after = *self;
        let out = match r {
            Ok(()) => Ok(Vec::new()),
            Err(e) => {
                self.reset_current();
                self.request_in_treatment = false;
                self.skipping = true;
                Err(e)
            },
        };
        proof {
            assert(same_outcome(r, out));
            match before.current_treater {
                Statement::Create => {
                    assert(create_took(before.create, before.database.tables(), tok, after.create, r));
                    assert(create_consumed(before.create, before.database.tables(), tok, out));
                },
                Statement::Insert => {
                    assert(insert_took(before.insert, before.database.tables(), tok, after.insert, r));
                    assert(insert_consumed(before.insert, before.database.tables(), tok, out));
                },
                Statement::Select => {
                    assert(select_took(before.select, before.database.tables(), tok, after.select, r));
                    assert(select_consumed(before.select, before.database.tables(), tok, out));
                },
                Statement::Update => {
                    assert(set_took(before.set, before.database.tables(), tok, after.set, r));
                    assert(set_consumed(before.set, before.database.tables(), tok, out));
                },
                Statement::Delete => {
                    assert(delete_took(before.delete, before.database.tables(), tok, after.delete, r));
                    assert(delete_consumed(before.delete, before.database.tables(), tok, out));
                },
                Statement::Drop => {
                    assert(drop_took(before.drop, before.database.tables(), tok, after.drop, r));
                    assert(drop_consumed(before.drop, before.database.tables(), tok, out));
                },
                Statement::Reset => {
                    assert(r->Err_0 == out->Err_0);
                },
            }
            assert(before == *old(self));
            assert(tok == token);
            assert(statement_took(before, tok, out));
        }
        out
    }

    fn end_request(&mut self) -> (r: Result<Vec<Effect>, Error>)
        requires
            old(self).wf(),
        ensures
            final(self).wf(),
            r is Err ==> final(self).catalog() == old(self).catalog(),
            !final(self).busy(),
            !final(self).dropping(),
            old(self).busy() && !old(self).dropping() ==> statement_ended(*old(self), r, final(self).catalog()),
    {
        if self.skipping || !self.request_in_treatment {
            self.skipping = false;
            return Ok(Vec::new());
        }
        self.request_in_treatment = false;
        let r = match self.current_treater {
            Statement::Create => self.create.end(&mut self.database),
            Statement::Drop => self.drop.end(&mut self.database),
            Statement::Reset => Ok(self.reset.end(&mut self.database)),
            Statement::Insert => self.insert.end(&mut self.database),
            Statement::Select => self.select.end(&self.database),
            Statement::Update => self.set.end(&mut self.database),
            Statement::Delete => self.delete.end(&mut self.database),
        };
        r
    }
}

} // verus!
