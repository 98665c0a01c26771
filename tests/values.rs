use iris::decimal::{format_i64, parse_i64};
use iris::value::{from_string_to_type, hash_text, type_from_name, type_to_name, Column, StringBuilder, Type, Value};

#[test]
fn decimal_text_round_trip() {
    assert_eq!(parse_i64("0"), Some(0));
    assert_eq!(parse_i64("-42"), Some(-42));
    assert_eq!(parse_i64("007"), Some(7));
    assert_eq!(parse_i64("9223372036854775807"), Some(i64::MAX));
    assert_eq!(parse_i64("-9223372036854775808"), Some(i64::MIN));
    assert_eq!(parse_i64("9223372036854775808"), None);
    assert_eq!(parse_i64(""), None);
    assert_eq!(parse_i64("-"), None);
    assert_eq!(parse_i64("1a"), None);
    assert_eq!(parse_i64("+1"), Some(1));
    assert_eq!(parse_i64("+"), None);
    assert_eq!(parse_i64("+-1"), None);
    assert_eq!(format_i64(0), "0");
    assert_eq!(format_i64(-120), "-120");
    assert_eq!(format_i64(i64::MIN), "-9223372036854775808");
    for n in [1i64, 10, 99, -5, 123456789, i64::MAX] {
        assert_eq!(parse_i64(&format_i64(n)), Some(n));
    }
}

#[test]
fn hash_is_polynomial_in_char_codes() {
    assert_eq!(hash_text(""), 0);
    assert_eq!(hash_text("a"), 97);
    assert_eq!(hash_text("ab"), 97 * 31 + 98);
    let mut s = StringBuilder::from_string("ab".to_string());
    assert_eq!(s.hash(), 3105);
    assert!(!s.is_empty());
    assert_eq!(s.extract(), "ab");
    assert!(s.is_empty());
}

#[test]
fn accumulator_collects_characters() {
    let mut s = StringBuilder::new();
    assert!(s.is_empty());
    s.new_char("he".to_string());
    s.new_char("y".to_string());
    assert_eq!(s.extract(), "hey");
}

#[test]
fn types_by_keyword() {
    assert_eq!(from_string_to_type("INT".to_string()), Type::Int);
    assert_eq!(from_string_to_type("STRING".to_string()), Type::String);
    assert_eq!(from_string_to_type("BOOL".to_string()), Type::Bool);
    assert_eq!(type_from_name("int"), None);
    assert_eq!(type_to_name(Type::Bool), "BOOL");
}

#[test]
fn values() {
    let v = Value::new_by_val(-3);
    assert_eq!(v.val(), -3);
    assert_eq!(v.string(), "-3");
    let mut b = StringBuilder::from_string("ab".to_string());
    let h = Value::new_by_string(&mut b, true);
    assert_eq!(h.val(), 3105);
    assert_eq!(h.string(), "ab");
    assert!(b.is_empty());
    let p = Value::new_by_pure_string("ab".to_string(), false);
    assert_eq!(p.val(), 0);
    let mut m = Value::new_by_val(1);
    m.string_mut().push('0');
    assert_eq!(m.string(), "10");
    assert_eq!(m.val(), 1);
}

#[test]
fn columns() {
    let mut c = Column::new_empty();
    assert!(c.is_empty());
    assert!(!c.has_default_value());
    c.set_name("n".to_string());
    c.set_type(Type::Int);
    assert_eq!(c.name(), "n");
    assert_eq!(c.get_type(), Type::Int);
    assert!(c.load_default_value("12".to_string()));
    assert_eq!(c.default_value().val(), 12);
    assert!(!c.load_default_value("x".to_string()));
    assert!(c.load_default_value("+5".to_string()));
    assert_eq!(c.default_value().val(), 5);
    c.set_default_value(12);
    assert_eq!(c.default_value().val(), 12);
    c.set_default_value(5);
    assert_eq!(c.default_value().string(), "5");
    assert!(!c.flag());
    c.active_flag();
    assert!(c.flag());
    c.disable_flag();
    assert!(!c.flag());
    let mut s = Column::new_empty();
    s.set_type(Type::String);
    assert!(s.load_default_value("ab".to_string()));
    assert_eq!(s.default_value().val(), 3105);
    let mut b = StringBuilder::from_string("zz".to_string());
    s.set_value_by_string(&mut b);
    assert_eq!(s.default_value().string(), "zz");
    assert_eq!(s.default_value().val(), 0);
}
