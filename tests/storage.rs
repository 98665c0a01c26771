use iris::catalog::column_from_json;
use iris::cli::{begin, Action, ArgError, RequestParameters};
use iris::error::{Error, ErrorKind};
use iris::json::{row_from_json, rows_from_text, rows_text};
use iris::row::{Cell, Row};
use iris::table::Database;

const CATALOG: &str = r#"[{"columns":[{"default_value":"3","name":"id","type_col":"INT"},{"default_value":"","name":"name","type_col":"STRING"}],"name":"t","p_key":"id"}]"#;

#[test]
fn catalog_load_then_save_gives_the_same_text() {
    let db = Database::load(CATALOG).unwrap();
    assert_eq!(db.table_count(), 1);
    let t = db.get_table(&"t".to_string());
    assert_eq!(t.p_key(), "id");
    assert_eq!(t.get_cols().len(), 2);
    assert_eq!(t.get_column(&"id".to_string()).default_value().val(), 3);
    assert_eq!(db.catalog_text(), CATALOG);
}

#[test]
fn rows_load_then_save_gives_the_same_text() {
    let text = r#"[{"id":1,"name":"a"},{"id":-2,"name":"b c"}]"#;
    let mut db = Database::load(CATALOG).unwrap();
    db.load_rows(&"t".to_string(), text).unwrap();
    assert_eq!(db.get_table(&"t".to_string()).actualise_table_file(), text);
    let rows = rows_from_text(text).unwrap();
    assert_eq!(rows_text(&rows), text);
}

#[test]
fn bad_storage_is_refused() {
    assert!(matches!(Database::load("not json"), Err(Error::Storage)));
    assert!(matches!(Database::load("{}"), Err(Error::Storage)));
    assert!(matches!(
        Database::load(r#"[{"name":"t","p_key":"id","columns":[{"name":"id","type_col":"FLOAT","default_value":""}]}]"#),
        Err(Error::Storage)
    ));
    assert!(matches!(
        Database::load(r#"[{"name":"t","p_key":"id","columns":[]},{"name":"t","p_key":"id","columns":[]}]"#),
        Err(Error::Storage)
    ));
    assert!(matches!(Database::load("[]"), Ok(_)));
    assert!(matches!(rows_from_text(r#"[{"id":1.5}]"#), Err(Error::Storage)));
    assert!(matches!(rows_from_text(r#"[1]"#), Err(Error::Storage)));
    let mut db = Database::load(CATALOG).unwrap();
    assert!(matches!(db.load_rows(&"u".to_string(), "[]"), Err(Error::UnknownTable(_))));
    assert!(matches!(db.load_rows(&"t".to_string(), "[true]"), Err(Error::Storage)));
}

#[test]
fn json_values_to_rows_and_columns() {
    let v: serde_json::Value = serde_json::from_str(r#"{"b":"x","a":4}"#).unwrap();
    let row = row_from_json(&v).unwrap();
    assert_eq!(row.fields.len(), 2);
    assert!(matches!(row.get(&"a".to_string()), Some(Cell::Int(4))));
    assert!(matches!(row.get(&"b".to_string()), Some(Cell::Text(s)) if s == "x"));
    assert!(row_from_json(&serde_json::Value::from(3)).is_none());
    let c: serde_json::Value = serde_json::from_str(r#"{"name":"n","type_col":"BOOL","default_value":"1"}"#).unwrap();
    let col = column_from_json(&c).unwrap();
    assert_eq!(col.name(), "n");
    assert_eq!(col.default_value().val(), 1);
    let mut r = Row::new();
    r.set("k".to_string(), Cell::Text("q\"".to_string()));
    assert_eq!(rows_text(&vec![r]), r#"[{"k":"q\""}]"#);
}

#[test]
fn command_line() {
    let args: Vec<String> = ["iris", "-d", "SELECT", "-f", "a.sql", "-run"].iter().map(|s| s.to_string()).collect();
    let actions = begin(&args).unwrap();
    assert_eq!(actions.len(), 3);
    assert!(matches!(&actions[0], Action::OneQuery(q) if q == "SELECT"));
    assert!(matches!(&actions[1], Action::OneFile(p) if p == "a.sql"));
    assert!(matches!(actions[2], Action::Run));
    let missing: Vec<String> = ["iris", "-f"].iter().map(|s| s.to_string()).collect();
    assert!(matches!(begin(&missing), Err(ArgError::MissingFilePath)));
    let missing_q: Vec<String> = ["iris", "-d"].iter().map(|s| s.to_string()).collect();
    assert!(matches!(begin(&missing_q), Err(ArgError::MissingQuery)));
    let unknown: Vec<String> = ["iris", "-x"].iter().map(|s| s.to_string()).collect();
    assert!(matches!(begin(&unknown), Err(ArgError::UnknownParameter(ref p)) if p == "-x"));
    let json: Vec<String> = ["iris", "-j", "out.json"].iter().map(|s| s.to_string()).collect();
    assert!(matches!(begin(&json), Err(ArgError::Unsupported(_))));
}

#[test]
fn error_kinds() {
    assert_eq!(Error::Lexical("x".to_string()).kind(), ErrorKind::Lexical);
    assert_eq!(Error::UnknownStatement("x".to_string()).kind(), ErrorKind::Internal);
    assert_eq!(Error::MissingPrimaryKey("t".to_string()).kind(), ErrorKind::Validation);
    assert_eq!(Error::Storage.kind(), ErrorKind::Internal);
}

#[test]
fn program_options() {
    let args: Vec<String> = ["iris", "-p", "-j", "out.json", "-d", "DROP t", "-ide"].iter().map(|s| s.to_string()).collect();
    let p = RequestParameters::from_args(&args).unwrap();
    assert!(p.pretty && p.ide);
    assert_eq!(p.json_file, "out.json");
    assert_eq!(p.request, "DROP t");
    assert_eq!(p.file_sql, "");
    let both: Vec<String> = ["iris", "-d", "q", "-f", "a.sql"].iter().map(|s| s.to_string()).collect();
    assert!(matches!(RequestParameters::from_args(&both), Err(ArgError::QueryAndFile)));
    let no_json: Vec<String> = ["iris", "-j"].iter().map(|s| s.to_string()).collect();
    assert!(matches!(RequestParameters::from_args(&no_json), Err(ArgError::MissingJsonPath)));
    let empty = RequestParameters::new();
    assert!(empty.request.is_empty() && !empty.pretty);
}

#[test]
fn a_name_given_twice_is_written_once_with_its_first_cell() {
    let row = Row { fields: vec![("a".to_string(), Cell::Int(1)), ("a".to_string(), Cell::Int(2))] };
    assert_eq!(rows_text(&vec![row]), r#"[{"a":1}]"#);
}
