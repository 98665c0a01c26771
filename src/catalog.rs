//! The catalog file: the JSON array that describes every table.
use vstd::prelude::*;
use crate::error::Error;
use crate::json::{
    distinct_keys, entries_map, lemma_entries_map_at, lemma_entries_map_keys, json_array, json_as_array, json_as_object, json_as_str, json_object,
    json_parse, json_string, json_text, json_to_text, json_tree, parsed_json, trees, JsonTree,
};
use crate::table::{catalog_wf, distinct_cols, has_col, has_table, Database, Table};
use crate::decimal::{decimal_of, lemma_decimal_round_trip};
use crate::value::{default_from_text, keyword_of_type, type_from_name, type_of_name, type_to_name, Column, Type};
use serde_json::Value as JsonValue;

verus! {

pub open spec fn key_name() -> Seq<char> {
    seq!['n', 'a', 'm', 'e']
}

pub open spec fn key_type() -> Seq<char> {
    seq!['t', 'y', 'p', 'e', '_', 'c', 'o', 'l']
}

pub open spec fn key_default() -> Seq<char> {
    seq!['d', 'e', 'f', 'a', 'u', 'l', 't', '_', 'v', 'a', 'l', 'u', 'e']
}

pub open spec fn key_pkey() -> Seq<char> {
    seq!['p', '_', 'k', 'e', 'y']
}

pub open spec fn key_columns() -> Seq<char> {
    seq!['c', 'o', 'l', 'u', 'm', 'n', 's']
}

/// The stored text of a column's default value: empty when it has none.
pub open spec fn default_text(c: Column) -> Seq<char> {
    match c.default() {
        Some((_, text)) => text,
        None => Seq::empty(),
    }
}

/// The catalog entry of a column.
pub open spec fn column_tree(c: Column) -> JsonTree {
    JsonTree::Object(
        Map::empty().insert(key_name(), JsonTree::Str(c.col_name())).insert(
            key_type(),
            JsonTree::Str(keyword_of_type(c.col_type())),
        ).insert(key_default(), JsonTree::Str(default_text(c))),
    )
}

/// The catalog entry of a table.
pub open spec fn table_tree(t: Table) -> JsonTree {
    JsonTree::Object(
        Map::empty().insert(key_name(), JsonTree::Str(t.tname())).insert(
            key_pkey(),
            JsonTree::Str(t.pkey()),
        ).insert(key_columns(), JsonTree::Array(t.cols().map_values(|c: Column| column_tree(c)))),
    )
}

/// The catalog: one entry per table, in order.
pub open spec fn catalog_tree(ts: Seq<Table>) -> JsonTree {
    JsonTree::Array(ts.map_values(|t: Table| table_tree(t)))
}

/// The string member `key` of an object, if there is one.
pub open spec fn str_member(t: JsonTree, key: Seq<char>) -> Option<Seq<char>> {
    if t is Object && t->Object_0.contains_key(key) && t->Object_0[key] is Str {
        Some(t->Object_0[key]->Str_0)
    } else {
        None
    }
}

/// Whether a column is what a catalog entry describes: its name, its type
/// keyword and the text of its default, with no flag set.
pub open spec fn column_fits(c: Column, t: JsonTree) -> bool {
    &&& str_member(t, key_name()) == Some(c.col_name())
    &&& str_member(t, key_type()) matches Some(k) && type_of_name(k) == Some(c.col_type())
    &&& str_member(t, key_default()) matches Some(d) && default_from_text(c.col_type(), d) == Some(
        c.default(),
    )
    &&& !c.flagged()
}

/// Whether a table, with no row, is what a catalog entry describes.
pub open spec fn table_fits(tb: Table, t: JsonTree) -> bool {
    &&& str_member(t, key_name()) == Some(tb.tname())
    &&& str_member(t, key_pkey()) == Some(tb.pkey())
    &&& t is Object && t->Object_0.contains_key(key_columns())
    &&& t->Object_0[key_columns()] is Array
    &&& t->Object_0[key_columns()]->Array_0.len() == tb.cols().len()
    &&& forall|i: int|
        0 <= i < tb.cols().len() ==> column_fits(
            #[trigger] tb.cols()[i],
            t->Object_0[key_columns()]->Array_0[i],
        )
    &&& tb.rows().len() == 0
}

/// The map of three entries: each key with its value, in turn.
proof fn lemma_three_entries(e: Seq<(String, JsonValue)>)
    requires
        e.len() == 3,
    ensures
        entries_map(e) == Map::<Seq<char>, JsonTree>::empty().insert(e[0].0@, json_tree(e[0].1)).insert(
            e[1].0@,
            json_tree(e[1].1),
        ).insert(e[2].0@, json_tree(e[2].1)),
{
    let e1 = e.drop_last().drop_last();
    let e2 = e.drop_last();
    assert(e1.drop_last().len() == 0);
    assert(entries_map(e1.drop_last()) == Map::<Seq<char>, JsonTree>::empty());
    assert(e1.last() == e[0]);
    assert(e2.last() == e[1]);
    assert(e.last() == e[2]);
    assert(entries_map(e1) == Map::<Seq<char>, JsonTree>::empty().insert(e[0].0@, json_tree(e[0].1)));
    assert(entries_map(e2) == entries_map(e1).insert(e[1].0@, json_tree(e[1].1)));
}

fn key_text(k: &str) -> (r: String)
    ensures
        r@ == k@,
{
    String::from_str(k)
}

fn column_json(c: &Column) -> (r: JsonValue)
    ensures
        json_tree(r) == column_tree(*c),
{
    proof {
        reveal_strlit("name");
        reveal_strlit("type_col");
        reveal_strlit("default_value");
    }
    let default = if c.has_default_value() {
        c.default_value().string().clone()
    } else {
        String::new()
    };
    assert(default@ == default_text(*c));
    let mut entries: Vec<(String, JsonValue)> = Vec::new();
    entries.push((key_text("name"), json_string(c.name().clone())));
    entries.push((key_text("type_col"), json_string(type_to_name(c.get_type()))));
    entries.push((key_text("default_value"), json_string(default)));
    proof {
        let e = entries@;
        lemma_three_entries(e);
        assert(e[0].0@ =~= key_name());
        assert(e[1].0@ =~= key_type());
        assert(e[2].0@ =~= key_default());
        assert(entries_map(e) =~= column_tree(*c)->Object_0);
        assert(key_name().len() == 4 && key_type().len() == 8 && key_default().len() == 13);
        assert(distinct_keys(e));
    }
    json_object(entries)
}

fn table_json(t: &Table) -> (r: JsonValue)
    ensures
        json_tree(r) == table_tree(*t),
{
    proof {
        reveal_strlit("name");
        reveal_strlit("p_key");
        reveal_strlit("columns");
    }
    let mut cols: Vec<JsonValue> = Vec::new();
    let mut i: usize = 0;
    while i < t.get_cols().len()
        invariant
            i <= t.cols().len(),
            cols@.len() == i,
            forall|j: int| 0 <= j < i ==> json_tree(#[trigger] cols@[j]) == column_tree(t.cols()[j]),
        decreases t.cols().len() - i,
    {
        cols.push(column_json(&t.get_cols()[i]));
        i = i + 1;
    }
    let arr = json_array(cols);
    assert(trees(cols@) =~= t.cols().map_values(|c: Column| column_tree(c)));
    let mut entries: Vec<(String, JsonValue)> = Vec::new();
    entries.push((key_text("name"), json_string(t.name().clone())));
    entries.push((key_text("p_key"), json_string(t.p_key().clone())));
    entries.push((key_text("columns"), arr));
    proof {
        let e = entries@;
        lemma_three_entries(e);
        assert(e[0].0@ =~= key_name());
        assert(e[1].0@ =~= key_pkey());
        assert(e[2].0@ =~= key_columns());
        assert(entries_map(e) =~= table_tree(*t)->Object_0);
        assert(key_name().len() == 4 && key_pkey().len() == 5 && key_columns().len() == 7);
        assert(distinct_keys(e));
    }
    json_object(entries)
}

impl Database {
    /// The text of the catalog file: the JSON array of the tables' entries.
    pub fn catalog_text(&self) -> (r: String)
        ensures
            r@ == json_text(catalog_tree(self.tables())),
    {
        let mut items: Vec<JsonValue> = Vec::new();
        let mut i: usize = 0;
        while i < self.table_count()
            invariant
                i <= self.tables().len(),
                items@.len() == i,
                forall|j: int| 0 <= j < i ==> json_tree(#[trigger] items@[j]) == table_tree(self.tables()[j]),
            decreases self.tables().len() - i,
        {
            items.push(table_json(self.table_at(i)));
            i = i + 1;
        }
        let v = json_array(items);
        assert(trees(items@) =~= self.tables().map_values(|t: Table| table_tree(t)));
        json_to_text(&v)
    }
}

/// Whether a catalog entry describes a column: string members `name`,
/// `type_col` (a type keyword) and `default_value` (a default that the
/// type can hold).
pub open spec fn column_decodable(t: JsonTree) -> bool {
    &&& str_member(t, key_name()) is Some
    &&& str_member(t, key_type()) matches Some(k) && type_of_name(k) matches Some(ty)
        && str_member(t, key_default()) matches Some(d) && default_from_text(ty, d) is Some
}

/// The column entries of a table entry.
pub open spec fn column_entries(t: JsonTree) -> Seq<JsonTree> {
    t->Object_0[key_columns()]->Array_0
}

/// Whether a catalog entry describes a table: string members `name` and
/// `p_key`, and a `columns` array of column entries with distinct names.
pub open spec fn table_decodable(t: JsonTree) -> bool {
    &&& str_member(t, key_name()) is Some
    &&& str_member(t, key_pkey()) is Some
    &&& t is Object && t->Object_0.contains_key(key_columns())
    &&& t->Object_0[key_columns()] is Array
    &&& forall|i: int|
        0 <= i < column_entries(t).len() ==> column_decodable(#[trigger] column_entries(t)[i])
    &&& forall|i: int, j: int|
        0 <= i < j < column_entries(t).len() ==> str_member(#[trigger] column_entries(t)[i], key_name())
            != str_member(#[trigger] column_entries(t)[j], key_name())
}

/// Whether a document is a catalog: an array of table entries with distinct names.
pub open spec fn catalog_decodable(t: JsonTree) -> bool {
    &&& t is Array
    &&& forall|i: int| 0 <= i < t->Array_0.len() ==> table_decodable(#[trigger] t->Array_0[i])
    &&& forall|i: int, j: int|
        0 <= i < j < t->Array_0.len() ==> str_member(#[trigger] t->Array_0[i], key_name())
            != str_member(#[trigger] t->Array_0[j], key_name())
}

/// The value of the member `key` of an object's entries.
fn member<'a>(entries: &'a Vec<(String, JsonValue)>, key: &str) -> (r: Option<&'a JsonValue>)
    requires
        distinct_keys(entries@),
    ensures
        match r {
            Some(v) => entries_map(entries@).contains_key(key@) && entries_map(entries@)[key@]
                == json_tree(*v),
            None => !entries_map(entries@).contains_key(key@),
        },
{
    let k = String::from_str(key);
    let mut i: usize = 0;
    while i < entries.len()
        invariant
            i <= entries@.len(),
            distinct_keys(entries@),
            k@ == key@,
            forall|j: int| 0 <= j < i ==> (#[trigger] entries@[j]).0@ != key@,
        decreases entries@.len() - i,
    {
        if entries[i].0 == k {
            proof {
                lemma_entries_map_at(entries@, i as int);
            }
            return Some(&entries[i].1);
        }
        i = i + 1;
    }
    proof {
        if entries_map(entries@).contains_key(key@) {
            lemma_entries_map_keys(entries@, key@);
        }
    }
    None
}

/// The string member `key` of an object's entries.
fn string_member(entries: &Vec<(String, JsonValue)>, key: &str) -> (r: Option<String>)
    requires
        distinct_keys(entries@),
    ensures
        match r {
            Some(s) => str_member(JsonTree::Object(entries_map(entries@)), key@) == Some(s@),
            None => str_member(JsonTree::Object(entries_map(entries@)), key@) is None,
        },
{
    match member(entries, key) {
        Some(v) => json_as_str(v),
        None => None,
    }
}

/// Reads a column from its catalog entry.
pub fn column_from_json(v: &JsonValue) -> (r: Option<Column>)
    ensures
        r is Some <==> column_decodable(json_tree(*v)),
        r matches Some(c) ==> column_fits(c, json_tree(*v)),
{
    proof {
        reveal_strlit("name");
        reveal_strlit("type_col");
        reveal_strlit("default_value");
        assert("name"@ =~= key_name());
        assert("type_col"@ =~= key_type());
        assert("default_value"@ =~= key_default());
    }
    let entries = match json_as_object(v) {
        Some(e) => e,
        None => return None,
    };
    let ghost t = json_tree(*v);
    assert(t == JsonTree::Object(entries_map(entries@)));
    let name = match string_member(&entries, "name") {
        Some(s) => s,
        None => return None,
    };
    let type_text = match string_member(&entries, "type_col") {
        Some(s) => s,
        None => return None,
    };
    let ty = match type_from_name(type_text.as_str()) {
        Some(ty) => ty,
        None => return None,
    };
    let default = match string_member(&entries, "default_value") {
        Some(s) => s,
        None => return None,
    };
    let mut c = Column::new_empty();
    c.set_name(name);
    c.set_type(ty);
    if !c.load_default_value(default) {
        return None;
    }
    Some(c)
}

/// Reads a table, with no row, from its catalog entry.
pub fn table_from_json(v: &JsonValue) -> (r: Option<Table>)
    ensures
        r is Some <==> table_decodable(json_tree(*v)),
        r matches Some(tb) ==> table_fits(tb, json_tree(*v)) && distinct_cols(tb.cols()),
{
    proof {
        reveal_strlit("name");
        reveal_strlit("p_key");
        reveal_strlit("columns");
        assert("name"@ =~= key_name());
        assert("p_key"@ =~= key_pkey());
        assert("columns"@ =~= key_columns());
    }
    let entries = match json_as_object(v) {
        Some(e) => e,
        None => return None,
    };
    let ghost t = json_tree(*v);
    assert(t == JsonTree::Object(entries_map(entries@)));
    let name = match string_member(&entries, "name") {
        Some(s) => s,
        None => return None,
    };
    let p_key = match string_member(&entries, "p_key") {
        Some(s) => s,
        None => return None,
    };
    let cols_value = match member(&entries, "columns") {
        Some(c) => c,
        None => return None,
    };
    let items = match json_as_array(cols_value) {
        Some(items) => items,
        None => return None,
    };
    let ghost ce = column_entries(t);
    assert(ce == trees(items@));
    let mut table = Table::new();
    table.set_name(name);
    table.set_pkey(p_key);
    let mut i: usize = 0;
    while i < items.len()
        invariant
            i <= items@.len(),
            t == json_tree(*v),
            t is Object,
            t->Object_0.contains_key(key_columns()),
            t->Object_0[key_columns()] is Array,
            str_member(t, key_name()) is Some,
            str_member(t, key_pkey()) is Some,
            ce == column_entries(t),
            ce == trees(items@),
            ce.len() == items@.len(),
            table.tname() == str_member(t, key_name())->0,
            table.pkey() == str_member(t, key_pkey())->0,
            table.rows().len() == 0,
            table.cols().len() == i,
            distinct_cols(table.cols()),
            forall|j: int| 0 <= j < i ==> column_fits(#[trigger] table.cols()[j], ce[j]),
            forall|j: int| 0 <= j < i ==> column_decodable(#[trigger] ce[j]),
            forall|a: int, b: int|
                0 <= a < b < i ==> str_member(#[trigger] ce[a], key_name()) != str_member(
                    #[trigger] ce[b],
                    key_name(),
                ),
        decreases items@.len() - i,
    {
        assert(ce[i as int] == json_tree(items@[i as int]));
        let c = match column_from_json(&items[i]) {
            Some(c) => c,
            None => {
                assert(!table_decodable(t)) by {
                    if table_decodable(t) {
                        assert(column_decodable(column_entries(t)[i as int]));
                    }
                }
                return None;
            },
        };
        if table.column_exists(c.name()) {
            proof {
                let a = choose|a: int| 0 <= a < table.cols().len() && #[trigger] table.cols()[a].col_name() == c.col_name();
                assert(column_fits(table.cols()[a], ce[a]));
                assert(str_member(ce[a], key_name()) == str_member(ce[i as int], key_name()));
                assert(!table_decodable(t)) by {
                    if table_decodable(t) {
                        assert(str_member(column_entries(t)[a], key_name()) != str_member(column_entries(t)[i as int], key_name()));
                    }
                }
            }
            return None;
        }
        let ghost before = table.cols();
        table.add_column(c);
        proof {
            assert forall|a: int, b: int|
                0 <= a < b < table.cols().len() implies #[trigger] table.cols()[a].col_name()
                != #[trigger] table.cols()[b].col_name() by {
                if b == i {
                    assert(table.cols()[a] == before[a]);
                }
            }
            assert forall|a: int, b: int|
                0 <= a < b < i + 1 implies str_member(#[trigger] ce[a], key_name()) != str_member(
                    #[trigger] ce[b],
                    key_name(),
                ) by {
                if b == i {
                    assert(column_fits(table.cols()[a], ce[a]));
                    assert(table.cols()[a] == before[a]);
                    assert(before[a].col_name() != c.col_name());
                }
            }
        }
        i = i + 1;
    }
    Some(table)
}

impl Database {
    /// Reads the catalog file: the tables that it describes, each with no
    /// row. `Storage` when the text is not such a catalog (see
    /// `catalog_decodable`).
    pub fn load(text: &str) -> (r: Result<Database, Error>)
        ensures
            r is Ok <==> (parsed_json(text@) matches Some(t) && catalog_decodable(t)),
            r matches Ok(db) ==> (db.wf() && (parsed_json(text@) matches Some(t) && t->Array_0.len()
                == db.tables().len() && forall|i: int|
                0 <= i < db.tables().len() ==> table_fits(#[trigger] db.tables()[i], t->Array_0[i]))),
            r is Err ==> r matches Err(Error::Storage),
    {
        let v = match json_parse(text) {
            Ok(v) => v,
            Err(_) => return Err(Error::Storage),
        };
        let items = match json_as_array(&v) {
            Some(items) => items,
            None => return Err(Error::Storage),
        };
        let ghost t = json_tree(v);
        let ghost te = trees(items@);
        let mut db = Database::new_empty();
        let mut i: usize = 0;
        while i < items.len()
            invariant
                i <= items@.len(),
                parsed_json(text@) == Some(t),
                t == JsonTree::Array(te),
                te == trees(items@),
                te.len() == items@.len(),
                db.wf(),
                db.tables().len() == i,
                forall|j: int| 0 <= j < i ==> table_fits(#[trigger] db.tables()[j], te[j]),
                forall|j: int| 0 <= j < i ==> table_decodable(#[trigger] te[j]),
                forall|a: int, b: int|
                    0 <= a < b < i ==> str_member(#[trigger] te[a], key_name()) != str_member(
                        #[trigger] te[b],
                        key_name(),
                    ),
            decreases items@.len() - i,
        {
            assert(te[i as int] == json_tree(items@[i as int]));
            let table = match table_from_json(&items[i]) {
                Some(tb) => tb,
                None => {
                    assert(!catalog_decodable(t)) by {
                        if catalog_decodable(t) {
                            assert(table_decodable(t->Array_0[i as int]));
                        }
                    }
                    return Err(Error::Storage);
                },
            };
            if db.table_exists(table.name()) {
                proof {
                    let a = choose|a: int| 0 <= a < db.tables().len() && #[trigger] db.tables()[a].tname() == table.tname();
                    assert(table_fits(db.tables()[a], te[a]));
                    assert(!catalog_decodable(t)) by {
                        if catalog_decodable(t) {
                            assert(str_member(t->Array_0[a], key_name()) != str_member(t->Array_0[i as int], key_name()));
                        }
                    }
                }
                return Err(Error::Storage);
            }
            let ghost before = db.tables();
            db.add_table(table);
            proof {
                assert forall|j: int| 0 <= j < i + 1 implies table_fits(#[trigger] db.tables()[j], te[j]) by {
                    if j < i {
                        assert(db.tables()[j] == db.tables().take(i as int)[j]);
                    }
                }
                assert forall|a: int, b: int|
                    0 <= a < b < i + 1 implies str_member(#[trigger] te[a], key_name()) != str_member(
                        #[trigger] te[b],
                        key_name(),
                    ) by {
                    if b == i {
                        assert(table_fits(before[a], te[a]));
                        assert(before[a].tname() != table.tname());
                    }
                }
            }
            i = i + 1;
        }
        Ok(db)
    }
}

/// Whether a column's default can be stored as text and read back: a
/// string default is not empty, any other default is a number kept with
/// its decimal text.
pub open spec fn column_valid(c: Column) -> bool {
    match c.default() {
        None => true,
        Some((n, text)) => if c.col_type() == Type::String {
            text.len() > 0
        } else {
            text == decimal_of(n as int)
        },
    }
}

proof fn lemma_keyword_round_trip(t: Type)
    ensures
        type_of_name(keyword_of_type(t)) == Some(t),
{
    assert(keyword_of_type(Type::Int).len() == 3);
    assert(keyword_of_type(Type::String).len() == 6);
    assert(keyword_of_type(Type::Bool).len() == 4);
}

proof fn lemma_column_entry(c: Column)
    requires
        column_valid(c),
    ensures
        column_decodable(column_tree(c)),
        str_member(column_tree(c), key_name()) == Some(c.col_name()),
        forall|d: Column| #[trigger] column_fits(d, column_tree(c)) ==> d.col_name() == c.col_name()
            && d.col_type() == c.col_type() && default_text(d) == default_text(c),
{
    let t = column_tree(c);
    let m = t->Object_0;
    assert(key_name() != key_type() && key_name() != key_default() && key_type() != key_default()) by {
        assert(key_name().len() == 4 && key_type().len() == 8 && key_default().len() == 13);
    }
    assert(m[key_name()] == JsonTree::Str(c.col_name()));
    assert(m[key_type()] == JsonTree::Str(keyword_of_type(c.col_type())));
    assert(m[key_default()] == JsonTree::Str(default_text(c)));
    lemma_keyword_round_trip(c.col_type());
    let d = default_text(c);
    match c.default() {
        None => {},
        Some((n, text)) => {
            if c.col_type() != Type::String {
                lemma_decimal_round_trip(n);
            }
        },
    }
    assert(default_from_text(c.col_type(), d) is Some);
    assert forall|e: Column| #[trigger] column_fits(e, column_tree(c)) implies e.col_name() == c.col_name()
        && e.col_type() == c.col_type() && default_text(e) == default_text(c) by {
        match c.default() {
            None => {},
            Some((n, text)) => {
                if c.col_type() != Type::String {
                    lemma_decimal_round_trip(n);
                }
            },
        }
    }
}

proof fn lemma_table_entry(tb: Table)
    requires
        distinct_cols(tb.cols()),
        forall|c: int| 0 <= c < tb.cols().len() ==> column_valid(#[trigger] tb.cols()[c]),
    ensures
        table_decodable(table_tree(tb)),
        str_member(table_tree(tb), key_name()) == Some(tb.tname()),
        forall|u: Table| #[trigger] table_fits(u, table_tree(tb)) ==> same_description(u, tb),
{
    let t = table_tree(tb);
    let m = t->Object_0;
    assert(key_name() != key_pkey() && key_name() != key_columns() && key_pkey() != key_columns()) by {
        assert(key_name().len() == 4 && key_pkey().len() == 5 && key_columns().len() == 7);
    }
    assert(m[key_name()] == JsonTree::Str(tb.tname()));
    assert(m[key_pkey()] == JsonTree::Str(tb.pkey()));
    let ce = column_entries(t);
    assert(ce == tb.cols().map_values(|c: Column| column_tree(c)));
    assert forall|i: int| 0 <= i < ce.len() implies column_decodable(#[trigger] ce[i]) by {
        lemma_column_entry(tb.cols()[i]);
    }
    assert forall|i: int, j: int| 0 <= i < j < ce.len() implies str_member(#[trigger] ce[i], key_name())
        != str_member(#[trigger] ce[j], key_name()) by {
        lemma_column_entry(tb.cols()[i]);
        lemma_column_entry(tb.cols()[j]);
    }
    assert forall|u: Table| #[trigger] table_fits(u, table_tree(tb)) implies same_description(u, tb) by {
        assert forall|c: int| 0 <= c < tb.cols().len() implies {
            let (x, y) = (#[trigger] u.cols()[c], tb.cols()[c]);
            x.col_name() == y.col_name() && x.col_type() == y.col_type() && default_text(x) == default_text(y)
        } by {
            lemma_column_entry(tb.cols()[c]);
            assert(column_fits(u.cols()[c], ce[c]));
        }
    }
}

/// Whether two tables have the same description in the catalog: name,
/// primary key, and columns with the same names, types and default texts.
pub open spec fn same_description(u: Table, t: Table) -> bool {
    &&& u.tname() == t.tname()
    &&& u.pkey() == t.pkey()
    &&& u.cols().len() == t.cols().len()
    &&& forall|c: int|
        0 <= c < t.cols().len() ==> {
            let (x, y) = (#[trigger] u.cols()[c], t.cols()[c]);
            x.col_name() == y.col_name() && x.col_type() == y.col_type() && default_text(x) == default_text(y)
        }
}

/// Saving and loading the catalog agree: the catalog that well-formed
/// tables are written as can always be read back, and the tables read from
/// it have the same descriptions, in the same order.
pub proof fn lemma_catalog_round_trip(ts: Seq<Table>)
    requires
        catalog_wf(ts),
        forall|i: int, c: int|
            0 <= i < ts.len() && 0 <= c < ts[i].cols().len() ==> column_valid(#[trigger] ts[i].cols()[c]),
    ensures
        catalog_decodable(catalog_tree(ts)),
        forall|us: Seq<Table>|
            us.len() == ts.len() && (forall|i: int| 0 <= i < us.len() ==> table_fits(#[trigger] us[i], catalog_tree(ts)->Array_0[i]))
                ==> (forall|i: int| 0 <= i < us.len() ==> same_description(#[trigger] us[i], ts[i]))
                && catalog_tree(us) == catalog_tree(ts),
{
    let items = catalog_tree(ts)->Array_0;
    assert(items == ts.map_values(|t: Table| table_tree(t)));
    assert forall|i: int| 0 <= i < items.len() implies table_decodable(#[trigger] items[i]) by {
        assert forall|c: int| 0 <= c < ts[i].cols().len() implies column_valid(#[trigger] ts[i].cols()[c]) by {}
        lemma_table_entry(ts[i]);
    }
    assert forall|i: int, j: int| 0 <= i < j < items.len() implies str_member(#[trigger] items[i], key_name())
        != str_member(#[trigger] items[j], key_name()) by {
        lemma_table_entry(ts[i]);
        lemma_table_entry(ts[j]);
    }
    assert forall|us: Seq<Table>|
        us.len() == ts.len() && (forall|i: int| 0 <= i < us.len() ==> table_fits(#[trigger] us[i], catalog_tree(ts)->Array_0[i]))
        implies (forall|i: int| 0 <= i < us.len() ==> same_description(#[trigger] us[i], ts[i]))
            && catalog_tree(us) == catalog_tree(ts) by {
        assert forall|i: int| 0 <= i < us.len() implies same_description(#[trigger] us[i], ts[i]) by {
            lemma_table_entry(ts[i]);
            assert(table_fits(us[i], items[i]));
        }
        assert forall|i: int| 0 <= i < us.len() implies table_tree(#[trigger] us[i]) == table_tree(ts[i]) by {
            lemma_table_entry(ts[i]);
            assert(table_fits(us[i], items[i]));
            assert(same_description(us[i], ts[i]));
            let a = us[i].cols().map_values(|c: Column| column_tree(c));
            let b = ts[i].cols().map_values(|c: Column| column_tree(c));
            assert(a =~= b) by {
                assert forall|c: int| 0 <= c < a.len() implies a[c] == b[c] by {
                    assert(column_tree(us[i].cols()[c]) == column_tree(ts[i].cols()[c]));
                }
            }
        }
        assert(us.map_values(|t: Table| table_tree(t)) =~= ts.map_values(|t: Table| table_tree(t)));
    }
}

} // verus!
