//! Rows of a table: named cells holding an integer or a string.
use vstd::prelude::*;
use crate::value::{hash_text, text_hash};

verus! {

/// What a row holds under a column name: a number (for `INT` and `BOOL`
/// columns) or a string.
#[derive(Debug)]
pub enum Cell {
    Int(i64),
    Text(String),
}

/// The number that stands for a cell in expressions: the integer itself,
/// or the hash of the string.
pub open spec fn cell_number(c: Cell) -> i64 {
    match c {
        Cell::Int(n) => n,
        Cell::Text(s) => text_hash(s@) as i64,
    }
}

/// The cell stored under `name` in a row's fields: the first entry with
/// that name.
pub open spec fn lookup(fields: Seq<(String, Cell)>, name: Seq<char>) -> Option<Cell>
    decreases fields.len(),
{
    if fields.len() == 0 {
        None
    } else if fields[0].0@ == name {
        Some(fields[0].1)
    } else {
        lookup(fields.drop_first(), name)
    }
}

/// The fields after storing `cell` under `name`: the first entry with that
/// name is replaced, or the entry is added at the end.
pub open spec fn store(fields: Seq<(String, Cell)>, name: String, cell: Cell) -> Seq<(String, Cell)>
    decreases fields.len(),
{
    if fields.len() == 0 {
        seq![(name, cell)]
    } else if fields[0].0@ == name@ {
        fields.update(0, (fields[0].0, cell))
    } else {
        seq![fields[0]] + store(fields.drop_first(), name, cell)
    }
}

/// A row: its cells, each under a column name.
#[derive(Debug)]
pub struct Row {
    pub fields: Vec<(String, Cell)>,
}

pub proof fn lemma_lookup_suffix(fields: Seq<(String, Cell)>, i: int, name: Seq<char>)
    requires
        0 <= i < fields.len(),
        fields[i].0@ != name,
    ensures
        lookup(fields.subrange(i, fields.len() as int), name) == lookup(
            fields.subrange(i + 1, fields.len() as int),
            name,
        ),
{
    assert(fields.subrange(i, fields.len() as int).drop_first() =~= fields.subrange(
        i + 1,
        fields.len() as int,
    ));
}

impl Row {
    /// A row with no cells.
    pub fn new() -> (r: Row)
        ensures
            r.fields@ == Seq::<(String, Cell)>::empty(),
    {
        Row { fields: Vec::new() }
    }

    /// The cell under `name`, if any.
    pub fn get(&self, name: &String) -> (r: Option<&Cell>)
        ensures
            match r {
                Some(c) => lookup(self.fields@, name@) == Some(*c),
                None => lookup(self.fields@, name@) is None,
            },
    {
        let n = self.fields.len();
        let mut i: usize = 0;
        assert(self.fields@.subrange(0, n as int) =~= self.fields@);
        while i < n
            invariant
                n == self.fields@.len(),
                i <= n,
                lookup(self.fields@, name@) == lookup(
                    self.fields@.subrange(i as int, n as int),
                    name@,
                ),
            decreases n - i,
        {
            if self.fields[i].0 == *name {
                assert(self.fields@.subrange(i as int, n as int)[0] == self.fields@[i as int]);
                return Some(&self.fields[i].1);
            }
            proof {
                lemma_lookup_suffix(self.fields@, i as int, name@);
            }
            i = i + 1;
        }
        None
    }

    /// Stores `cell` under `name` (see `store`).
    pub fn set(&mut self, name: String, cell: Cell)
        ensures
            final(self).fields@ == store(old(self).fields@, name, cell),
    {
        let n = self.fields.len();
        let mut i: usize = 0;
        assert(self.fields@.subrange(0, n as int) =~= self.fields@);
        assert(self.fields@.take(0) + store(self.fields@, name, cell) =~= store(self.fields@, name, cell));
        while i < n
            invariant
                n == self.fields@.len(),
                i <= n,
                self.fields@ == old(self).fields@,
                store(old(self).fields@, name, cell) == self.fields@.take(i as int) + store(
                    self.fields@.subrange(i as int, n as int),
                    name,
                    cell,
                ),
            decreases n - i,
        {
            let ghost rest = self.fields@.subrange(i as int, n as int);
            if self.fields[i].0 == name {
                let key = self.fields[i].0.clone();
                self.fields.set(i, (key, cell));
                proof {
                    assert(rest[0] == old(self).fields@[i as int]);
                    assert(self.fields@ =~= old(self).fields@.take(i as int) + rest.update(
                        0,
                        (rest[0].0, cell),
                    ));
                }
                return ;
            }
            proof {
                assert(rest.drop_first() =~= self.fields@.subrange(i as int + 1, n as int));
                assert(self.fields@.take(i as int + 1) =~= self.fields@.take(i as int) + seq![rest[0]]);
            }
            i = i + 1;
        }
        self.fields.push((name, cell));
        assert(self.fields@ =~= old(self).fields@.take(n as int) + seq![(name, cell)]);
    }
}

impl Cell {
    /// A copy of the cell.
    pub fn duplicate(&self) -> (r: Cell)
        ensures
            r == *self,
    {
        match self {
            Cell::Int(n) => Cell::Int(*n),
            Cell::Text(s) => Cell::Text(s.clone()),
        }
    }
}

impl Row {
    /// A copy of the row.
    pub fn duplicate(&self) -> (r: Row)
        ensures
            r.fields@ == self.fields@,
    {
        let mut fields: Vec<(String, Cell)> = Vec::new();
        let mut i: usize = 0;
        while i < self.fields.len()
            invariant
                i <= self.fields@.len(),
                fields@ == self.fields@.take(i as int),
            decreases self.fields@.len() - i,
        {
            let entry = (self.fields[i].0.clone(), self.fields[i].1.duplicate());
            fields.push(entry);
            assert(fields@ =~= self.fields@.take(i as int + 1));
            i = i + 1;
        }
        assert(self.fields@.take(self.fields@.len() as int) =~= self.fields@);
        Row { fields }
    }
}

/// The number that stands for a cell in expressions.
pub fn cell_value(c: &Cell) -> (r: i64)
    ensures
        r == cell_number(*c),
{
    match c {
        Cell::Int(n) => *n,
        Cell::Text(s) => hash_text(s.as_str()),
    }
}

} // verus!
