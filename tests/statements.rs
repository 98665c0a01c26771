use iris::error::Error;
use iris::interpreter::Interpreteur;
use iris::requests::Effect;
use iris::row::{Cell, Row};
use iris::table::Database;
use iris::token::{Flag, Token, TokenType};

fn tok(t: TokenType, s: &str) -> Token {
    Token::new(t, s.to_string())
}

fn comma() -> Token {
    Token::with_flag(TokenType::Symbol, ",".to_string(), Flag::Comma)
}

fn end() -> Token {
    tok(TokenType::End, ";")
}

/// Feeds a statement; returns the effects of its end, or the first error.
fn run(engine: &mut Interpreteur, tokens: Vec<Token>) -> Result<Vec<Effect>, Error> {
    let mut last = Ok(Vec::new());
    for t in tokens {
        match engine.new_token(t) {
            Ok(effects) => last = Ok(effects),
            Err(e) => {
                let _ = engine.new_token(end());
                return Err(e);
            }
        }
    }
    last
}

fn create_t_id(engine: &mut Interpreteur) {
    let r = run(
        engine,
        vec![
            tok(TokenType::Keyword, "CREATE"),
            tok(TokenType::Ident, "t"),
            tok(TokenType::Ident, "id"),
            tok(TokenType::Type, "INT"),
            tok(TokenType::Keyword, "PRIMARY"),
            end(),
        ],
    );
    assert!(r.is_ok());
}

fn insert_id(engine: &mut Interpreteur, n: &str) -> Result<Vec<Effect>, Error> {
    run(
        engine,
        vec![
            tok(TokenType::Keyword, "INSERT"),
            tok(TokenType::Ident, "t"),
            tok(TokenType::Ident, "id"),
            tok(TokenType::Number, n),
            end(),
        ],
    )
}

fn rows_written(effects: &[Effect]) -> Option<(String, String)> {
    for e in effects {
        if let Effect::WriteRows(t, text) = e {
            return Some((t.clone(), text.clone()));
        }
    }
    None
}

fn catalog_written(effects: &[Effect]) -> Option<String> {
    for e in effects {
        if let Effect::WriteCatalog(text) = e {
            return Some(text.clone());
        }
    }
    None
}

fn int_cell(row: &Row, name: &str) -> Option<i64> {
    match row.get(&name.to_string()) {
        Some(Cell::Int(n)) => Some(*n),
        _ => None,
    }
}

#[test]
fn create_then_insert_writes_row_file_and_catalog() {
    let mut engine = Interpreteur::new(Database::new_empty());
    let created = run(
        &mut engine,
        vec![
            tok(TokenType::Keyword, "CREATE"),
            tok(TokenType::Ident, "t"),
            tok(TokenType::Ident, "id"),
            tok(TokenType::Type, "INT"),
            tok(TokenType::Keyword, "PRIMARY"),
            tok(TokenType::Ident, "name"),
            tok(TokenType::Type, "STRING"),
            end(),
        ],
    )
    .unwrap();
    assert_eq!(rows_written(&created), Some(("t".to_string(), "[]".to_string())));
    assert_eq!(
        catalog_written(&created).unwrap(),
        r#"[{"columns":[{"default_value":"","name":"id","type_col":"INT"},{"default_value":"","name":"name","type_col":"STRING"}],"name":"t","p_key":"id"}]"#
    );
    let inserted = run(
        &mut engine,
        vec![
            tok(TokenType::Keyword, "INSERT"),
            tok(TokenType::Ident, "t"),
            tok(TokenType::Ident, "id"),
            tok(TokenType::Ident, "name"),
            tok(TokenType::Number, "1"),
            comma(),
            tok(TokenType::Symbol, "a"),
            end(),
        ],
    )
    .unwrap();
    assert_eq!(rows_written(&inserted), Some(("t".to_string(), r#"[{"id":1,"name":"a"}]"#.to_string())));
    let t = engine.database().get_table(&"t".to_string());
    assert_eq!(t.p_key(), "id");
}

#[test]
fn create_without_primary_key_fails_and_adds_nothing() {
    let mut engine = Interpreteur::new(Database::new_empty());
    let r = run(
        &mut engine,
        vec![
            tok(TokenType::Keyword, "CREATE"),
            tok(TokenType::Ident, "t"),
            tok(TokenType::Ident, "id"),
            tok(TokenType::Type, "INT"),
            end(),
        ],
    );
    assert!(matches!(r, Err(Error::MissingPrimaryKey(ref n)) if n == "t"));
    assert!(!engine.database().table_exists(&"t".to_string()));
    assert_eq!(engine.database().table_count(), 0);
}

#[test]
fn insert_into_missing_column_fails_and_keeps_rows() {
    let mut engine = Interpreteur::new(Database::new_empty());
    create_t_id(&mut engine);
    let r = run(
        &mut engine,
        vec![
            tok(TokenType::Keyword, "INSERT"),
            tok(TokenType::Ident, "t"),
            tok(TokenType::Ident, "missing_col"),
            tok(TokenType::Number, "1"),
            end(),
        ],
    );
    assert!(matches!(r, Err(Error::UnknownColumn(ref c)) if c == "missing_col"));
    assert_eq!(engine.database().get_table(&"t".to_string()).lines().len(), 0);
    assert_eq!(engine.database().get_table(&"t".to_string()).actualise_table_file(), "[]");
}

#[test]
fn select_where_returns_only_matching_rows() {
    let mut engine = Interpreteur::new(Database::new_empty());
    create_t_id(&mut engine);
    insert_id(&mut engine, "1").unwrap();
    insert_id(&mut engine, "2").unwrap();
    let r = run(
        &mut engine,
        vec![
            tok(TokenType::Keyword, "SELECT"),
            tok(TokenType::Symbol, "*"),
            tok(TokenType::Keyword, "FROM"),
            tok(TokenType::Ident, "t"),
            tok(TokenType::Keyword, "WHERE"),
            tok(TokenType::Ident, "id"),
            tok(TokenType::Operator, "=="),
            tok(TokenType::Number, "1"),
            end(),
        ],
    )
    .unwrap();
    match &r[0] {
        Effect::Selected(rows) => {
            assert_eq!(rows.len(), 1);
            assert_eq!(rows[0].fields.len(), 1);
            assert_eq!(int_cell(&rows[0], "id"), Some(1));
        }
        _ => panic!("no result set"),
    }
}

#[test]
fn delete_where_keeps_survivors_in_order() {
    let mut engine = Interpreteur::new(Database::new_empty());
    create_t_id(&mut engine);
    for n in ["1", "2", "3"] {
        insert_id(&mut engine, n).unwrap();
    }
    let r = run(
        &mut engine,
        vec![
            tok(TokenType::Keyword, "DELETE"),
            tok(TokenType::Keyword, "FROM"),
            tok(TokenType::Ident, "t"),
            tok(TokenType::Keyword, "WHERE"),
            tok(TokenType::Ident, "id"),
            tok(TokenType::Operator, "=="),
            tok(TokenType::Number, "2"),
            end(),
        ],
    )
    .unwrap();
    assert_eq!(rows_written(&r), Some(("t".to_string(), r#"[{"id":1},{"id":3}]"#.to_string())));
}

#[test]
fn set_increments_matching_row() {
    let mut engine = Interpreteur::new(Database::new_empty());
    create_t_id(&mut engine);
    insert_id(&mut engine, "1").unwrap();
    let r = run(
        &mut engine,
        vec![
            tok(TokenType::Keyword, "SET"),
            tok(TokenType::Ident, "id"),
            tok(TokenType::Operator, "="),
            tok(TokenType::Ident, "id"),
            tok(TokenType::Operator, "+"),
            tok(TokenType::Number, "1"),
            tok(TokenType::Keyword, "FROM"),
            tok(TokenType::Ident, "t"),
            tok(TokenType::Keyword, "WHERE"),
            tok(TokenType::Ident, "id"),
            tok(TokenType::Operator, "=="),
            tok(TokenType::Number, "1"),
            end(),
        ],
    )
    .unwrap();
    assert_eq!(rows_written(&r), Some(("t".to_string(), r#"[{"id":2}]"#.to_string())));
}

#[test]
fn select_without_where_matches_every_row() {
    let mut engine = Interpreteur::new(Database::new_empty());
    create_t_id(&mut engine);
    insert_id(&mut engine, "5").unwrap();
    insert_id(&mut engine, "6").unwrap();
    let r = run(
        &mut engine,
        vec![
            tok(TokenType::Keyword, "SELECT"),
            tok(TokenType::Ident, "id"),
            tok(TokenType::Keyword, "FROM"),
            tok(TokenType::Ident, "t"),
            end(),
        ],
    )
    .unwrap();
    match &r[0] {
        Effect::Selected(rows) => {
            assert_eq!(rows.len(), 2);
            assert_eq!(int_cell(&rows[1], "id"), Some(6));
        }
        _ => panic!("no result set"),
    }
}

#[test]
fn select_with_string_literal_compares_hashes() {
    let mut engine = Interpreteur::new(Database::new_empty());
    run(
        &mut engine,
        vec![
            tok(TokenType::Keyword, "CREATE"),
            tok(TokenType::Ident, "p"),
            tok(TokenType::Ident, "id"),
            tok(TokenType::Type, "INT"),
            tok(TokenType::Keyword, "PRIMARY"),
            tok(TokenType::Ident, "name"),
            tok(TokenType::Type, "STRING"),
            end(),
        ],
    )
    .unwrap();
    for (id, name) in [("1", "ann"), ("2", "bob")] {
        run(
            &mut engine,
            vec![
                tok(TokenType::Keyword, "INSERT"),
                tok(TokenType::Ident, "p"),
                tok(TokenType::Ident, "id"),
                tok(TokenType::Ident, "name"),
                tok(TokenType::Number, id),
                comma(),
                tok(TokenType::Symbol, name),
                end(),
            ],
        )
        .unwrap();
    }
    let r = run(
        &mut engine,
        vec![
            tok(TokenType::Keyword, "SELECT"),
            tok(TokenType::Ident, "id"),
            tok(TokenType::Keyword, "FROM"),
            tok(TokenType::Ident, "p"),
            tok(TokenType::Keyword, "WHERE"),
            tok(TokenType::Ident, "name"),
            tok(TokenType::Operator, "=="),
            tok(TokenType::Symbol, "bob"),
            end(),
        ],
    )
    .unwrap();
    match &r[0] {
        Effect::Selected(rows) => {
            assert_eq!(rows.len(), 1);
            assert_eq!(int_cell(&rows[0], "id"), Some(2));
        }
        _ => panic!("no result set"),
    }
}

#[test]
fn insert_uses_default_values() {
    let mut engine = Interpreteur::new(Database::new_empty());
    run(
        &mut engine,
        vec![
            tok(TokenType::Keyword, "CREATE"),
            tok(TokenType::Ident, "d"),
            tok(TokenType::Ident, "id"),
            tok(TokenType::Type, "INT"),
            tok(TokenType::Keyword, "PRIMARY"),
            tok(TokenType::Ident, "score"),
            tok(TokenType::Type, "INT"),
            tok(TokenType::Number, "40"),
            tok(TokenType::Operator, "+"),
            tok(TokenType::Number, "2"),
            end(),
        ],
    )
    .unwrap();
    let r = run(
        &mut engine,
        vec![
            tok(TokenType::Keyword, "INSERT"),
            tok(TokenType::Ident, "d"),
            tok(TokenType::Ident, "id"),
            tok(TokenType::Number, "7"),
            end(),
        ],
    )
    .unwrap();
    assert_eq!(rows_written(&r), Some(("d".to_string(), r#"[{"id":7,"score":42}]"#.to_string())));
}

#[test]
fn insert_without_value_for_column_without_default_fails() {
    let mut engine = Interpreteur::new(Database::new_empty());
    run(
        &mut engine,
        vec![
            tok(TokenType::Keyword, "CREATE"),
            tok(TokenType::Ident, "m"),
            tok(TokenType::Ident, "id"),
            tok(TokenType::Type, "INT"),
            tok(TokenType::Keyword, "PRIMARY"),
            tok(TokenType::Ident, "other"),
            tok(TokenType::Type, "INT"),
            end(),
        ],
    )
    .unwrap();
    let r = run(
        &mut engine,
        vec![
            tok(TokenType::Keyword, "INSERT"),
            tok(TokenType::Ident, "m"),
            tok(TokenType::Ident, "id"),
            tok(TokenType::Number, "1"),
            end(),
        ],
    );
    assert!(matches!(r, Err(Error::MissingValue(ref c)) if c == "other"));
    assert_eq!(engine.database().get_table(&"m".to_string()).lines().len(), 0);
}

#[test]
fn insert_type_mismatches_fail() {
    let mut engine = Interpreteur::new(Database::new_empty());
    run(
        &mut engine,
        vec![
            tok(TokenType::Keyword, "CREATE"),
            tok(TokenType::Ident, "s"),
            tok(TokenType::Ident, "id"),
            tok(TokenType::Type, "INT"),
            tok(TokenType::Keyword, "PRIMARY"),
            tok(TokenType::Ident, "name"),
            tok(TokenType::Type, "STRING"),
            end(),
        ],
    )
    .unwrap();
    let r = run(
        &mut engine,
        vec![
            tok(TokenType::Keyword, "INSERT"),
            tok(TokenType::Ident, "s"),
            tok(TokenType::Ident, "id"),
            tok(TokenType::Ident, "name"),
            tok(TokenType::Symbol, "x"),
            comma(),
            tok(TokenType::Symbol, "y"),
            end(),
        ],
    );
    assert!(matches!(r, Err(Error::NotAString(ref c)) if c == "id"));
    let r = run(
        &mut engine,
        vec![
            tok(TokenType::Keyword, "INSERT"),
            tok(TokenType::Ident, "s"),
            tok(TokenType::Ident, "name"),
            tok(TokenType::Ident, "id"),
            tok(TokenType::Number, "3"),
            comma(),
            tok(TokenType::Number, "4"),
            end(),
        ],
    );
    assert!(matches!(r, Err(Error::StringExpected(ref c)) if c == "name"));
}

#[test]
fn insert_value_count_errors() {
    let mut engine = Interpreteur::new(Database::new_empty());
    create_t_id(&mut engine);
    let too_many = run(
        &mut engine,
        vec![
            tok(TokenType::Keyword, "INSERT"),
            tok(TokenType::Ident, "t"),
            tok(TokenType::Ident, "id"),
            tok(TokenType::Number, "1"),
            comma(),
            tok(TokenType::Number, "2"),
            end(),
        ],
    );
    assert!(matches!(too_many, Err(Error::TooManyValues(ref t)) if t == "t"));
    let twice = run(
        &mut engine,
        vec![
            tok(TokenType::Keyword, "INSERT"),
            tok(TokenType::Ident, "t"),
            tok(TokenType::Ident, "id"),
            tok(TokenType::Ident, "id"),
            end(),
        ],
    );
    assert!(matches!(twice, Err(Error::ColumnTwice(ref c)) if c == "id"));
    assert_eq!(engine.database().get_table(&"t".to_string()).lines().len(), 0);
}

#[test]
fn create_errors() {
    let mut engine = Interpreteur::new(Database::new_empty());
    create_t_id(&mut engine);
    let exists = run(&mut engine, vec![tok(TokenType::Keyword, "CREATE"), tok(TokenType::Ident, "t"), end()]);
    assert!(matches!(exists, Err(Error::TableExists(ref t)) if t == "t"));
    let dup = run(
        &mut engine,
        vec![
            tok(TokenType::Keyword, "CREATE"),
            tok(TokenType::Ident, "u"),
            tok(TokenType::Ident, "a"),
            tok(TokenType::Type, "INT"),
            tok(TokenType::Ident, "a"),
            end(),
        ],
    );
    assert!(matches!(dup, Err(Error::DuplicateColumn(ref c)) if c == "a"));
    let two_keys = run(
        &mut engine,
        vec![
            tok(TokenType::Keyword, "CREATE"),
            tok(TokenType::Ident, "u"),
            tok(TokenType::Ident, "a"),
            tok(TokenType::Keyword, "PRIMARY"),
            tok(TokenType::Ident, "b"),
            tok(TokenType::Keyword, "PRIMARY"),
            end(),
        ],
    );
    assert!(matches!(two_keys, Err(Error::DuplicatePrimaryKey(ref t)) if t == "u"));
    let bad_type = run(
        &mut engine,
        vec![tok(TokenType::Keyword, "CREATE"), tok(TokenType::Ident, "u"), tok(TokenType::Ident, "a"), tok(TokenType::Type, "FLOAT"), end()],
    );
    assert!(matches!(bad_type, Err(Error::UnknownType(ref k)) if k == "FLOAT"));
    let bad_kw = run(
        &mut engine,
        vec![tok(TokenType::Keyword, "CREATE"), tok(TokenType::Ident, "u"), tok(TokenType::Keyword, "UNIQUE"), end()],
    );
    assert!(matches!(bad_kw, Err(Error::UnknownKeyword(ref k)) if k == "UNIQUE"));
    assert_eq!(engine.database().table_count(), 1);
}

#[test]
fn drop_and_reset() {
    let mut engine = Interpreteur::new(Database::new_empty());
    create_t_id(&mut engine);
    let missing = run(&mut engine, vec![tok(TokenType::Keyword, "DROP"), tok(TokenType::Ident, "nope"), end()]);
    assert!(matches!(missing, Err(Error::UnknownTable(ref t)) if t == "nope"));
    let dropped = run(&mut engine, vec![tok(TokenType::Keyword, "DROP"), tok(TokenType::Ident, "t"), end()]).unwrap();
    assert!(matches!(dropped[0], Effect::RemoveRows(ref t) if t == "t"));
    assert_eq!(catalog_written(&dropped).unwrap(), "[]");
    create_t_id(&mut engine);
    let reset = run(&mut engine, vec![tok(TokenType::Keyword, "RESET"), end()]).unwrap();
    assert!(matches!(reset[0], Effect::RemoveRows(ref t) if t == "t"));
    assert_eq!(catalog_written(&reset).unwrap(), "[]");
    assert_eq!(engine.database().table_count(), 0);
}

#[test]
fn dispatcher_errors() {
    let mut engine = Interpreteur::new(Database::new_empty());
    let unknown = run(&mut engine, vec![tok(TokenType::Keyword, "UPSERT"), end()]);
    assert!(matches!(unknown, Err(Error::UnknownStatement(ref k)) if k == "UPSERT"));
    let lexical = engine.new_token(tok(TokenType::ERROR, "bad character"));
    assert!(matches!(lexical, Err(Error::Lexical(ref m)) if m == "bad character"));
    assert!(engine.new_token(tok(TokenType::BackLine, "\n")).unwrap().is_empty());
    let unexpected = run(&mut engine, vec![tok(TokenType::Keyword, "RESET"), tok(TokenType::Ident, "x"), end()]);
    assert!(matches!(unexpected, Err(Error::UnexpectedToken(_))));
    // After a failed statement the engine takes the next one.
    create_t_id(&mut engine);
    assert!(engine.database().table_exists(&"t".to_string()));
}

#[test]
fn set_errors_leave_rows_unchanged() {
    let mut engine = Interpreteur::new(Database::new_empty());
    create_t_id(&mut engine);
    insert_id(&mut engine, "1").unwrap();
    let unknown = run(
        &mut engine,
        vec![
            tok(TokenType::Keyword, "SET"),
            tok(TokenType::Ident, "nope"),
            tok(TokenType::Operator, "="),
            tok(TokenType::Number, "3"),
            tok(TokenType::Keyword, "FROM"),
            tok(TokenType::Ident, "t"),
            end(),
        ],
    );
    assert!(matches!(unknown, Err(Error::UnknownColumn(ref c)) if c == "nope"));
    let mixed = run(
        &mut engine,
        vec![
            tok(TokenType::Keyword, "SET"),
            tok(TokenType::Ident, "id"),
            tok(TokenType::Operator, "="),
            tok(TokenType::Number, "3"),
            tok(TokenType::Symbol, "x"),
            end(),
        ],
    );
    assert!(matches!(mixed, Err(Error::StringArithmetic)));
    let div_zero = run(
        &mut engine,
        vec![
            tok(TokenType::Keyword, "SET"),
            tok(TokenType::Ident, "id"),
            tok(TokenType::Operator, "="),
            tok(TokenType::Ident, "id"),
            tok(TokenType::Operator, "/"),
            tok(TokenType::Number, "0"),
            tok(TokenType::Keyword, "FROM"),
            tok(TokenType::Ident, "t"),
            end(),
        ],
    );
    assert!(matches!(div_zero, Err(Error::Expression(iris::expression::ExprError::Arithmetic))));
    assert_eq!(engine.database().get_table(&"t".to_string()).actualise_table_file(), r#"[{"id":1}]"#);
}

#[test]
fn select_unknown_table_and_column() {
    let mut engine = Interpreteur::new(Database::new_empty());
    create_t_id(&mut engine);
    let table = run(
        &mut engine,
        vec![tok(TokenType::Keyword, "SELECT"), tok(TokenType::Symbol, "*"), tok(TokenType::Keyword, "FROM"), tok(TokenType::Ident, "zz"), end()],
    );
    assert!(matches!(table, Err(Error::UnknownTable(ref t)) if t == "zz"));
    let column = run(
        &mut engine,
        vec![tok(TokenType::Keyword, "SELECT"), tok(TokenType::Ident, "qq"), tok(TokenType::Keyword, "FROM"), tok(TokenType::Ident, "t"), end()],
    );
    assert!(matches!(column, Err(Error::UnknownColumn(ref c)) if c == "qq"));
}
