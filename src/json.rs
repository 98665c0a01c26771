//! JSON documents, through serde_json: what the library relies on, and the
//! encoding of rows.
use vstd::prelude::*;
use crate::error::Error;
use crate::row::{Cell, Row};
use crate::table::{has_table, Database, Table};
use serde_json::Error as JsonError;
use serde_json::Value as JsonValue;

verus! {

#[verifier::external_type_specification]
#[verifier::external_body]
pub struct ExJsonValue(JsonValue);

#[verifier::external_type_specification]
#[verifier::external_body]
pub struct ExJsonError(JsonError);

/// What a JSON document holds. A number is an integer (in the range of
/// `i64` or `u64`) or a float, known here by its written form; an object
/// maps each key to one value.
pub enum JsonTree {
    Null,
    Bool(bool),
    Int(int),
    Float(Seq<char>),
    Str(Seq<char>),
    Array(Seq<JsonTree>),
    Object(Map<Seq<char>, JsonTree>),
}

/// What a `JsonValue` holds.
pub uninterp spec fn json_tree(v: JsonValue) -> JsonTree;

/// The compact text that serde_json writes for a document.
pub uninterp spec fn json_text(t: JsonTree) -> Seq<char>;

/// The document that serde_json reads from a text, or `None` when the text
/// is not JSON.
pub uninterp spec fn parsed_json(s: Seq<char>) -> Option<JsonTree>;

/// The map that collecting these entries gives: each key in turn is
/// inserted, a later entry replacing an earlier one of the same key.
pub open spec fn entries_map(entries: Seq<(String, JsonValue)>) -> Map<Seq<char>, JsonTree>
    decreases entries.len(),
{
    if entries.len() == 0 {
        Map::empty()
    } else {
        entries_map(entries.drop_last()).insert(entries.last().0@, json_tree(entries.last().1))
    }
}

/// Whether no two entries share a key.
pub open spec fn distinct_keys(entries: Seq<(String, JsonValue)>) -> bool {
    forall|i: int, j: int|
        0 <= i < j < entries.len() ==> #[trigger] entries[i].0@ != #[trigger] entries[j].0@
}

pub open spec fn trees(vs: Seq<JsonValue>) -> Seq<JsonTree> {
    vs.map_values(|v: JsonValue| json_tree(v))
}

/// Relies on `From<i64> for JsonValue`: the number `n`.
#[verifier::external_body]
pub(crate) fn json_int(n: i64) -> (r: JsonValue)
    ensures
        json_tree(r) == JsonTree::Int(n as int),
{
    JsonValue::from(n)
}

/// Relies on `JsonValue::String`: the string `s`.
#[verifier::external_body]
pub(crate) fn json_string(s: String) -> (r: JsonValue)
    ensures
        json_tree(r) == JsonTree::Str(s@),
{
    JsonValue::String(s)
}

/// Relies on `JsonValue::Array`: the items, in order.
#[verifier::external_body]
pub(crate) fn json_array(items: Vec<JsonValue>) -> (r: JsonValue)
    ensures
        json_tree(r) == JsonTree::Array(trees(items@)),
{
    JsonValue::Array(items)
}

/// Relies on `FromIterator<(String, Value)> for serde_json::Map` and
/// `Value::Object`: with distinct keys, the object maps each key to its
/// entry's value.
#[verifier::external_body]
pub(crate) fn json_object(entries: Vec<(String, JsonValue)>) -> (r: JsonValue)
    requires
        distinct_keys(entries@),
    ensures
        json_tree(r) == JsonTree::Object(entries_map(entries@)),
{
    JsonValue::Object(entries.into_iter().collect())
}

/// Relies on `Display for JsonValue` (through `to_string`): the
/// compact text of the document.
#[verifier::external_body]
pub(crate) fn json_to_text(v: &JsonValue) -> (r: String)
    ensures
        r@ == json_text(json_tree(*v)),
{
    v.to_string()
}

/// Relies on `serde_json::from_str`: the document that the text holds.
#[verifier::external_body]
pub(crate) fn json_parse(s: &str) -> (r: Result<JsonValue, JsonError>)
    ensures
        match r {
            Ok(v) => parsed_json(s@) == Some(json_tree(v)),
            Err(_) => parsed_json(s@) is None,
        },
{
    serde_json::from_str(s)
}

/// Relies on `JsonValue::as_i64`: an integer within `i64`.
#[verifier::external_body]
pub(crate) fn json_as_i64(v: &JsonValue) -> (r: Option<i64>)
    ensures
        r == (match json_tree(*v) {
            JsonTree::Int(n) => if i64::MIN <= n <= i64::MAX {
                Some(n as i64)
            } else {
                None
            },
            _ => None,
        }),
{
    v.as_i64()
}

/// Relies on `JsonValue::as_str`: the string that the value is.
#[verifier::external_body]
pub(crate) fn json_as_str(v: &JsonValue) -> (r: Option<String>)
    ensures
        match json_tree(*v) {
            JsonTree::Str(s) => r is Some && r.unwrap()@ == s,
            _ => r is None,
        },
{
    v.as_str().map(String::from)
}

/// Relies on `JsonValue::as_array`: the items of an array, in order.
#[verifier::external_body]
pub(crate) fn json_as_array(v: &JsonValue) -> (r: Option<Vec<JsonValue>>)
    ensures
        match json_tree(*v) {
            JsonTree::Array(s) => r is Some && trees(r.unwrap()@) == s,
            _ => r is None,
        },
{
    v.as_array().cloned()
}

/// Relies on `JsonValue::as_object`: the entries of an object, each
/// key once.
#[verifier::external_body]
pub(crate) fn json_as_object(v: &JsonValue) -> (r: Option<Vec<(String, JsonValue)>>)
    ensures
        match json_tree(*v) {
            JsonTree::Object(m) => r is Some && distinct_keys(r.unwrap()@) && entries_map(
                r.unwrap()@,
            ) == m,
            _ => r is None,
        },
{
    v.as_object().map(|m| m.clone().into_iter().collect())
}

/// The JSON of a cell: a number, or a string.
pub open spec fn cell_tree(c: Cell) -> JsonTree {
    match c {
        Cell::Int(n) => JsonTree::Int(n as int),
        Cell::Text(s) => JsonTree::Str(s@),
    }
}

/// The members of a row's JSON object: each name with its cell's JSON;
/// for a name that occurs twice, the first cell (the one `lookup` finds).
pub open spec fn fields_tree(fields: Seq<(String, Cell)>) -> Map<Seq<char>, JsonTree>
    decreases fields.len(),
{
    if fields.len() == 0 {
        Map::empty()
    } else {
        let m = fields_tree(fields.drop_last());
        if m.contains_key(fields.last().0@) {
            m
        } else {
            m.insert(fields.last().0@, cell_tree(fields.last().1))
        }
    }
}

/// The JSON of a row file: an array with one object per row.
pub open spec fn rows_tree(rows: Seq<Row>) -> JsonTree {
    JsonTree::Array(rows.map_values(|r: Row| JsonTree::Object(fields_tree(r.fields@))))
}

/// Whether a JSON value can be a cell: a string, or an integer within `i64`.
pub open spec fn is_cell_tree(t: JsonTree) -> bool {
    match t {
        JsonTree::Str(_) => true,
        JsonTree::Int(n) => i64::MIN <= n <= i64::MAX,
        _ => false,
    }
}

/// Whether a JSON value can be a row: an object whose members are cells.
pub open spec fn row_decodable(t: JsonTree) -> bool {
    &&& t is Object
    &&& forall|k: Seq<char>| #[trigger] t->Object_0.contains_key(k) ==> is_cell_tree(t->Object_0[k])
}

/// Whether a JSON document can be a row file: an array of rows.
pub open spec fn rows_decodable(t: JsonTree) -> bool {
    &&& t is Array
    &&& forall|i: int| 0 <= i < t->Array_0.len() ==> row_decodable(#[trigger] t->Array_0[i])
}

/// Whether no two cells of a row share a name.
pub open spec fn distinct_names(fields: Seq<(String, Cell)>) -> bool {
    forall|i: int, j: int|
        0 <= i < j < fields.len() ==> #[trigger] fields[i].0@ != #[trigger] fields[j].0@
}

proof fn lemma_not_row(m: Map<Seq<char>, JsonTree>, key: Seq<char>)
    requires
        m.contains_key(key),
        !is_cell_tree(m[key]),
    ensures
        !row_decodable(JsonTree::Object(m)),
{
    let t = JsonTree::Object(m);
    assert(t->Object_0.contains_key(key));
}

proof fn lemma_not_rows(items: Seq<JsonTree>, i: int)
    requires
        0 <= i < items.len(),
        !row_decodable(items[i]),
    ensures
        !rows_decodable(JsonTree::Array(items)),
{
    let t = JsonTree::Array(items);
    assert(t->Array_0[i] == items[i]);
}

pub(crate) proof fn lemma_entries_map_at(e: Seq<(String, JsonValue)>, i: int)
    requires
        distinct_keys(e),
        0 <= i < e.len(),
    ensures
        entries_map(e).contains_key(e[i].0@),
        entries_map(e)[e[i].0@] == json_tree(e[i].1),
    decreases e.len(),
{
    if i < e.len() - 1 {
        assert(distinct_keys(e.drop_last()));
        lemma_entries_map_at(e.drop_last(), i);
        assert(e[i].0@ != e[e.len() - 1].0@);
    }
}

pub(crate) proof fn lemma_entries_map_keys(e: Seq<(String, JsonValue)>, k: Seq<char>)
    requires
        entries_map(e).contains_key(k),
    ensures
        exists|i: int| 0 <= i < e.len() && e[i].0@ == k && entries_map(e)[k] == json_tree(e[i].1),
    decreases e.len(),
{
    if e.last().0@ != k {
        lemma_entries_map_keys(e.drop_last(), k);
        let i = choose|i: int|
            0 <= i < e.drop_last().len() && e.drop_last()[i].0@ == k && entries_map(e.drop_last())[k]
                == json_tree(e.drop_last()[i].1);
        assert(e[i] == e.drop_last()[i]);
    } else {
        assert(e[e.len() - 1].0@ == k);
    }
}

proof fn lemma_fields_tree_keys(f: Seq<(String, Cell)>, k: Seq<char>)
    requires
        fields_tree(f).contains_key(k),
    ensures
        exists|i: int| 0 <= i < f.len() && f[i].0@ == k && fields_tree(f)[k] == cell_tree(f[i].1),
    decreases f.len(),
{
    if f.last().0@ != k || fields_tree(f.drop_last()).contains_key(k) {
        lemma_fields_tree_keys(f.drop_last(), k);
        let i = choose|i: int|
            0 <= i < f.drop_last().len() && f.drop_last()[i].0@ == k && fields_tree(f.drop_last())[k]
                == cell_tree(f.drop_last()[i].1);
        assert(f[i] == f.drop_last()[i]);
    } else {
        assert(f[f.len() - 1].0@ == k);
    }
}

fn cell_json(c: &Cell) -> (r: JsonValue)
    ensures
        json_tree(r) == cell_tree(*c),
{
    match c {
        Cell::Int(n) => json_int(*n),
        Cell::Text(s) => json_string(s.clone()),
    }
}

/// Whether an entry with this key is among the entries.
fn has_key(entries: &Vec<(String, JsonValue)>, key: &String) -> (r: bool)
    requires
        distinct_keys(entries@),
    ensures
        r == entries_map(entries@).contains_key(key@),
{
    let mut i: usize = 0;
    while i < entries.len()
        invariant
            i <= entries@.len(),
            distinct_keys(entries@),
            forall|j: int| 0 <= j < i ==> (#[trigger] entries@[j]).0@ != key@,
        decreases entries@.len() - i,
    {
        if entries[i].0 == *key {
            proof {
                lemma_entries_map_at(entries@, i as int);
            }
            return true;
        }
        i = i + 1;
    }
    proof {
        if entries_map(entries@).contains_key(key@) {
            lemma_entries_map_keys(entries@, key@);
        }
    }
    false
}

/// The JSON object of a row: each name once, with its first cell.
pub fn row_json(row: &Row) -> (r: JsonValue)
    ensures
        json_tree(r) == JsonTree::Object(fields_tree(row.fields@)),
{
    let mut entries: Vec<(String, JsonValue)> = Vec::new();
    let mut i: usize = 0;
    while i < row.fields.len()
        invariant
            i <= row.fields@.len(),
            distinct_keys(entries@),
            entries_map(entries@) == fields_tree(row.fields@.take(i as int)),
        decreases row.fields@.len() - i,
    {
        assert(row.fields@.take(i as int + 1).drop_last() =~= row.fields@.take(i as int));
        assert(row.fields@.take(i as int + 1).last() == row.fields@[i as int]);
        if !has_key(&entries, &row.fields[i].0) {
            let v = cell_json(&row.fields[i].1);
            let ghost before = entries@;
            entries.push((row.fields[i].0.clone(), v));
            proof {
                assert(entries@.drop_last() =~= before);
                assert forall|a: int, b: int|
                    0 <= a < b < entries@.len() implies #[trigger] entries@[a].0@ != #[trigger] entries@[b].0@ by {
                    if b == before.len() {
                        assert(entries@[a] == before[a]);
                        if entries@[a].0@ == entries@[b].0@ {
                            lemma_entries_map_at(before, a);
                        }
                    }
                }
            }
        }
        i = i + 1;
    }
    assert(row.fields@.take(row.fields@.len() as int) =~= row.fields@);
    json_object(entries)
}

/// The text of a row file: the JSON array of the rows, in order.
pub fn rows_text(rows: &Vec<Row>) -> (r: String)
    ensures
        r@ == json_text(rows_tree(rows@)),
{
    let mut items: Vec<JsonValue> = Vec::new();
    let mut i: usize = 0;
    while i < rows.len()
        invariant
            i <= rows@.len(),
            items@.len() == i,
            forall|j: int| 0 <= j < i ==> json_tree(#[trigger] items@[j]) == JsonTree::Object(fields_tree(rows@[j].fields@)),
        decreases rows@.len() - i,
    {
        items.push(row_json(&rows[i]));
        i = i + 1;
    }
    let v = json_array(items);
    assert(trees(items@) =~= rows@.map_values(|r: Row| JsonTree::Object(fields_tree(r.fields@))));
    json_to_text(&v)
}

/// Reads a row from its JSON object: a number member gives an integer cell,
/// a string member a string cell; `None` when the value is no such object.
pub fn row_from_json(v: &JsonValue) -> (r: Option<Row>)
    ensures
        r is Some <==> row_decodable(json_tree(*v)),
        r matches Some(row) ==> JsonTree::Object(fields_tree(row.fields@)) == json_tree(*v)
            && distinct_names(row.fields@),
{
    let entries = match json_as_object(v) {
        Some(e) => e,
        None => return None,
    };
    let ghost m = entries_map(entries@);
    let mut row = Row::new();
    let mut i: usize = 0;
    while i < entries.len()
        invariant
            i <= entries@.len(),
            distinct_keys(entries@),
            m == entries_map(entries@),
            json_tree(*v) == JsonTree::Object(m),
            row.fields@.len() == i,
            forall|j: int| 0 <= j < i ==> (#[trigger] row.fields@[j]).0@ == entries@[j].0@,
            fields_tree(row.fields@) == entries_map(entries@.take(i as int)),
            forall|j: int| 0 <= j < i ==> is_cell_tree(json_tree((#[trigger] entries@[j]).1)),
        decreases entries@.len() - i,
    {
        let cell = match json_as_i64(&entries[i].1) {
            Some(n) => Cell::Int(n),
            None => match json_as_str(&entries[i].1) {
                Some(s) => Cell::Text(s),
                None => {
                    proof {
                        lemma_entries_map_at(entries@, i as int);
                        let key = entries@[i as int].0@;
                        assert(m.contains_key(key));
                        assert(!is_cell_tree(m[key]));
                        lemma_not_row(m, key);
                    }
                    return None;
                },
            },
        };
        let ghost before = row.fields@;
        proof {
            let k = entries@[i as int].0@;
            if entries_map(entries@.take(i as int)).contains_key(k) {
                lemma_entries_map_keys(entries@.take(i as int), k);
                let j = choose|j: int| 0 <= j < entries@.take(i as int).len() && entries@.take(i as int)[j].0@ == k
                    && entries_map(entries@.take(i as int))[k] == json_tree(entries@.take(i as int)[j].1);
                assert(entries@[j].0@ != entries@[i as int].0@);
            }
        }
        row.fields.push((entries[i].0.clone(), cell));
        assert(row.fields@.drop_last() =~= before);
        assert(entries@.take(i as int + 1).drop_last() =~= entries@.take(i as int));
        i = i + 1;
    }
    assert(entries@.take(entries@.len() as int) =~= entries@);
    proof {
        assert forall|k: Seq<char>| #[trigger] m.contains_key(k) implies is_cell_tree(m[k]) by {
            lemma_entries_map_keys(entries@, k);
        }
        assert forall|a: int, b: int|
            0 <= a < b < row.fields@.len() implies #[trigger] row.fields@[a].0@
            != #[trigger] row.fields@[b].0@ by {
            assert(entries@[a].0@ != entries@[b].0@);
        }
    }
    Some(row)
}

/// Reads a row file: a JSON array of rows. `Storage` when the text is not
/// JSON or not such an array.
pub fn rows_from_text(s: &str) -> (r: Result<Vec<Row>, Error>)
    ensures
        r is Ok <==> (parsed_json(s@) matches Some(t) && rows_decodable(t)),
        r matches Ok(rows) ==> parsed_json(s@) == Some(rows_tree(rows@)),
        r matches Ok(rows) ==> forall|i: int| 0 <= i < rows@.len() ==> distinct_names(#[trigger] rows@[i].fields@),
        r is Err ==> r matches Err(Error::Storage),
{
    let v = match json_parse(s) {
        Ok(v) => v,
        Err(_) => return Err(Error::Storage),
    };
    let items = match json_as_array(&v) {
        Some(items) => items,
        None => return Err(Error::Storage),
    };
    let mut rows: Vec<Row> = Vec::new();
    let mut i: usize = 0;
    while i < items.len()
        invariant
            i <= items@.len(),
            parsed_json(s@) == Some(json_tree(v)),
            json_tree(v) == JsonTree::Array(trees(items@)),
            rows@.len() == i,
            forall|j: int| 0 <= j < i ==> row_decodable(json_tree(#[trigger] items@[j])),
            forall|j: int| 0 <= j < i ==> JsonTree::Object(fields_tree((#[trigger] rows@[j]).fields@)) == json_tree(items@[j]),
            forall|j: int| 0 <= j < i ==> distinct_names(#[trigger] rows@[j].fields@),
        decreases items@.len() - i,
    {
        match row_from_json(&items[i]) {
            Some(row) => {
                rows.push(row);
            },
            None => {
                assert(trees(items@)[i as int] == json_tree(items@[i as int]));
                assert(!row_decodable(trees(items@)[i as int]));
                proof {
                    lemma_not_rows(trees(items@), i as int);
                }
                return Err(Error::Storage);
            },
        }
        i = i + 1;
    }
    assert(rows_tree(rows@) =~= json_tree(v)) by {
        assert(rows@.map_values(|r: Row| JsonTree::Object(fields_tree(r.fields@))) =~= trees(items@));
    }
    assert(rows_decodable(json_tree(v))) by {
        assert forall|j: int| 0 <= j < trees(items@).len() implies row_decodable(#[trigger] trees(items@)[j]) by {
            assert(trees(items@)[j] == json_tree(items@[j]));
        }
    }
    Ok(rows)
}

/// Any rows can be read back from their JSON: the row file that the rows
/// are written as is an array of objects whose members are all cells.
pub proof fn lemma_rows_json_decodable(rows: Seq<Row>)
    ensures
        rows_decodable(rows_tree(rows)),
{
    let items = rows.map_values(|r: Row| JsonTree::Object(fields_tree(r.fields@)));
    assert forall|i: int| 0 <= i < items.len() implies row_decodable(#[trigger] items[i]) by {
        let f = rows[i].fields@;
        assert forall|k: Seq<char>| #[trigger] fields_tree(f).contains_key(k) implies is_cell_tree(
            fields_tree(f)[k],
        ) by {
            lemma_fields_tree_keys(f, k);
        }
    }
}

impl Table {
    /// The text of the table's row file.
    pub fn actualise_table_file(&self) -> (r: String)
        ensures
            r@ == json_text(rows_tree(self.rows())),
    {
        rows_text(self.lines())
    }
}

impl Database {
    /// Reads the rows of the table of that name from its row file. Saving
    /// the table afterwards (`actualise_table_file`) writes the text that
    /// serde_json writes for the document that was read.
    /// `UnknownTable` when there is no such table, `Storage` when the text is
    /// not a row file; the database is then left as it was.
    pub fn load_rows(&mut self, name: &String, text: &str) -> (r: Result<(), Error>)
        requires
            old(self).wf(),
        ensures
            final(self).wf(),
            r is Err ==> final(self).tables() == old(self).tables(),
            r is Ok <==> (has_table(old(self).tables(), name@) && (parsed_json(text@) matches Some(t)
                && rows_decodable(t))),
            r is Ok ==> exists|i: int|
                0 <= i < old(self).tables().len() && (#[trigger] old(self).tables()[i]).tname() == name@
                    && final(self).tables().len() == old(self).tables().len()
                    && (forall|j: int| 0 <= j < old(self).tables().len() && j != i ==> final(self).tables()[j] == old(self).tables()[j])
                    && final(self).tables()[i].tname() == name@
                    && final(self).tables()[i].cols() == old(self).tables()[i].cols()
                    && final(self).tables()[i].pkey() == old(self).tables()[i].pkey()
                    && parsed_json(text@) == Some(rows_tree(final(self).tables()[i].rows()))
                    && json_text(rows_tree(final(self).tables()[i].rows())) == json_text(parsed_json(text@)->0),
    {
        let i = match self.table_position(name) {
            Some(i) => i,
            None => return Err(Error::UnknownTable(name.clone())),
        };
        let rows = match rows_from_text(text) {
            Ok(rows) => rows,
            Err(e) => return Err(e),
        };
        let ghost before = self.tables();
        let table = self.table_at_mut(i);
        table.set_rows(rows);
        proof {
            crate::table::lemma_wf_update(before, i as int, self.tables()[i as int]);
        }
        Ok(())
    }
}

} // verus!
