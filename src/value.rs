//! Scalar values, column types, the string accumulator and column descriptors.
use vstd::prelude::*;
use crate::decimal::{decimal_i64, decimal_of, format_i64, parse_i64};

verus! {

/// The type of a column.
#[derive(Clone, Copy, Debug, PartialEq, Eq, Structural)]
pub enum Type {
    Int,
    String,
    Bool,
}

/// The keyword that names a type (`INT`, `STRING`, `BOOL`).
pub open spec fn keyword_of_type(t: Type) -> Seq<char> {
    match t {
        Type::Int => seq!['I', 'N', 'T'],
        Type::String => seq!['S', 'T', 'R', 'I', 'N', 'G'],
        Type::Bool => seq!['B', 'O', 'O', 'L'],
    }
}

/// The type named by a keyword, if any.
pub open spec fn type_of_name(s: Seq<char>) -> Option<Type> {
    if s == keyword_of_type(Type::Int) {
        Some(Type::Int)
    } else if s == keyword_of_type(Type::String) {
        Some(Type::String)
    } else if s == keyword_of_type(Type::Bool) {
        Some(Type::Bool)
    } else {
        None
    }
}

/// Whether `s` holds exactly the characters of `lit`.
pub fn text_is(s: &str, lit: &str) -> (r: bool)
    ensures
        r == (s@ == lit@),
{
    let n = s.unicode_len();
    if n != lit.unicode_len() {
        return false;
    }
    let mut i: usize = 0;
    while i < n
        invariant
            n == s@.len(),
            n == lit@.len(),
            i <= n,
            forall|j: int| 0 <= j < i ==> s@[j] == lit@[j],
        decreases n - i,
    {
        if s.get_char(i) != lit.get_char(i) {
            return false;
        }
        i = i + 1;
    }
    assert(s@ =~= lit@);
    true
}

/// The type named by `s`; `s` must be one of the three type keywords.
pub fn from_string_to_type(s: String) -> (r: Type)
    requires
        type_of_name(s@) is Some,
    ensures
        type_of_name(s@) == Some(r),
{
    match type_from_name(s.as_str()) {
        Some(t) => t,
        None => Type::Int,
    }
}

/// The type named by `s`, or `None` when `s` names no type.
pub fn type_from_name(s: &str) -> (r: Option<Type>)
    ensures
        r == type_of_name(s@),
{
    proof {
        reveal_strlit("INT");
        reveal_strlit("STRING");
        reveal_strlit("BOOL");
    }
    if text_is(s, "INT") {
        assert(s@ =~= keyword_of_type(Type::Int));
        Some(Type::Int)
    } else if text_is(s, "STRING") {
        assert(s@ =~= keyword_of_type(Type::String));
        Some(Type::String)
    } else if text_is(s, "BOOL") {
        assert(s@ =~= keyword_of_type(Type::Bool));
        Some(Type::Bool)
    } else {
        assert(s@ != keyword_of_type(Type::Int)) by {
            if s@ == keyword_of_type(Type::Int) {
                assert(s@ =~= "INT"@);
            }
        }
        assert(s@ != keyword_of_type(Type::String)) by {
            if s@ == keyword_of_type(Type::String) {
                assert(s@ =~= "STRING"@);
            }
        }
        assert(s@ != keyword_of_type(Type::Bool)) by {
            if s@ == keyword_of_type(Type::Bool) {
                assert(s@ =~= "BOOL"@);
            }
        }
        None
    }
}

/// The keyword that names a type.
pub fn type_to_name(t: Type) -> (r: String)
    ensures
        r@ == keyword_of_type(t),
{
    proof {
        reveal_strlit("INT");
        reveal_strlit("STRING");
        reveal_strlit("BOOL");
    }
    let r = match t {
        Type::Int => String::from_str("INT"),
        Type::String => String::from_str("STRING"),
        Type::Bool => String::from_str("BOOL"),
    };
    assert(r@ =~= keyword_of_type(t));
    r
}

/// Modulus of the string hash.
pub const HASH_MODULUS: u64 = 1_000_000_007;

/// The hash of a string: a polynomial in its character codes, base 31,
/// reduced modulo `HASH_MODULUS`. It depends on the characters alone.
pub open spec fn text_hash(s: Seq<char>) -> int
    decreases s.len(),
{
    if s.len() == 0 {
        0
    } else {
        (text_hash(s.drop_last()) * 31 + (s.last() as u32) as int) % (HASH_MODULUS as int)
    }
}

/// Computes `text_hash` of a string.
pub fn hash_text(s: &str) -> (r: i64)
    ensures
        r as int == text_hash(s@),
        0 <= r < HASH_MODULUS,
{
    let n = s.unicode_len();
    let mut h: u64 = 0;
    let mut i: usize = 0;
    while i < n
        invariant
            n == s@.len(),
            i <= n,
            h < HASH_MODULUS,
            h as int == text_hash(s@.take(i as int)),
        decreases n - i,
    {
        let c = s.get_char(i);
        assert(s@.take(i as int + 1).drop_last() =~= s@.take(i as int));
        h = (h * 31 + c as u32 as u64) % HASH_MODULUS;
        i = i + 1;
    }
    assert(s@.take(n as int) =~= s@);
    h as i64
}

/// Collects consecutive literal-character tokens into one pending string.
pub struct StringBuilder {
    buffer: String,
}

impl View for StringBuilder {
    type V = Seq<char>;

    closed spec fn view(&self) -> Seq<char> {
        self.buffer@
    }
}

impl StringBuilder {
    /// An empty accumulator.
    pub fn new() -> (r: StringBuilder)
        ensures
            r@ == Seq::<char>::empty(),
    {
        StringBuilder { buffer: String::new() }
    }

    /// An accumulator holding `s`.
    pub fn from_string(s: String) -> (r: StringBuilder)
        ensures
            r@ == s@,
    {
        StringBuilder { buffer: s }
    }

    /// Appends the characters of a token.
    pub fn new_char(&mut self, c: String)
        ensures
            final(self)@ == old(self)@ + c@,
    {
        self.buffer.append(c.as_str());
    }

    /// Whether nothing has been accumulated.
    pub fn is_empty(&self) -> (r: bool)
        ensures
            r == (self@.len() == 0),
    {
        self.buffer.as_str().unicode_len() == 0
    }

    /// Returns the accumulated string and empties the accumulator.
    pub fn extract(&mut self) -> (r: String)
        ensures
            r@ == old(self)@,
            final(self)@ == Seq::<char>::empty(),
    {
        let mut r = String::new();
        std::mem::swap(&mut r, &mut self.buffer);
        r
    }

    /// The hash of the accumulated string; the accumulator is left as it is.
    pub fn hash(&self) -> (r: i64)
        ensures
            r as int == text_hash(self@),
    {
        hash_text(self.buffer.as_str())
    }
}

/// A scalar: a number, and the text that displays or stores it. For a
/// string the text is authoritative and the number is its hash (or 0 when
/// no hash was asked for); for an integer or a boolean the number is.
#[derive(Debug)]
pub struct Value {
    number: i64,
    string: String,
}

impl Value {
    pub closed spec fn num(&self) -> i64 {
        self.number
    }

    pub closed spec fn text(&self) -> Seq<char> {
        self.string@
    }

    /// The value of an integer; its text is the decimal form.
    pub fn new_by_val(val: i64) -> (r: Value)
        ensures
            r.num() == val,
            r.text() == decimal_of(val as int),
    {
        Value { number: val, string: format_i64(val) }
    }

    /// The value of the accumulated string, which is taken out of `s`. Its
    /// number is the string's hash when `hash` is set, else 0.
    pub fn new_by_string(s: &mut StringBuilder, hash: bool) -> (r: Value)
        ensures
            r.text() == old(s)@,
            r.num() == (if hash { text_hash(old(s)@) as i64 } else { 0 }),
            final(s)@ == Seq::<char>::empty(),
    {
        let val = if hash { s.hash() } else { 0 };
        Value { number: val, string: s.extract() }
    }

    /// The value of a string, as `new_by_string` gives it.
    pub fn new_by_pure_string(s: String, hash: bool) -> (r: Value)
        ensures
            r.text() == s@,
            r.num() == (if hash { text_hash(s@) as i64 } else { 0 }),
    {
        Value::new_by_string(&mut StringBuilder::from_string(s), hash)
    }

    /// A copy of the value.
    pub fn duplicate(&self) -> (r: Value)
        ensures
            r.num() == self.num(),
            r.text() == self.text(),
    {
        Value { number: self.number, string: self.string.clone() }
    }

    pub fn val(&self) -> (r: i64)
        ensures
            r == self.num(),
    {
        self.number
    }

    pub fn string(&self) -> (r: &String)
        ensures
            r@ == self.text(),
    {
        &self.string
    }

    pub fn string_mut(&mut self) -> (r: &mut String)
        ensures
            r@ == old(self).text(),
            final(self).text() == final(r)@,
            final(self).num() == old(self).num(),
    {
        &mut self.string
    }
}

/// A column of a table: its name, its type, an optional default value, and
/// a flag that marks, during an INSERT, that the statement supplied it.
#[derive(Debug)]
pub struct Column {
    name: String,
    type_col: Type,
    default_value: Option<Value>,
    flag: bool,
}

/// The default value that a catalog entry's text gives a column of type `t`:
/// none for an empty text, the hashed string for a string column, the
/// decimal number otherwise (`None` when the text is no such number).
pub open spec fn default_from_text(t: Type, text: Seq<char>) -> Option<Option<(i64, Seq<char>)>> {
    if text.len() == 0 {
        Some(None)
    } else if t == Type::String {
        Some(Some((text_hash(text) as i64, text)))
    } else {
        match decimal_i64(text) {
            Some(n) => Some(Some((n, decimal_of(n as int)))),
            None => None,
        }
    }
}

impl Column {
    pub closed spec fn col_name(&self) -> Seq<char> {
        self.name@
    }

    pub closed spec fn col_type(&self) -> Type {
        self.type_col
    }

    /// The default value, as its number and its text.
    pub closed spec fn default(&self) -> Option<(i64, Seq<char>)> {
        match self.default_value {
            Some(v) => Some((v.num(), v.text())),
            None => None,
        }
    }

    pub closed spec fn flagged(&self) -> bool {
        self.flag
    }

    /// A column with an empty name, type `INT`, no default and no flag.
    pub fn new_empty() -> (r: Column)
        ensures
            r.col_name() == Seq::<char>::empty(),
            r.col_type() == Type::Int,
            r.default() is None,
            !r.flagged(),
    {
        Column { name: String::new(), type_col: Type::Int, default_value: None, flag: false }
    }

    /// Sets the default value from its stored text (see `default_from_text`);
    /// returns false, leaving the column as it was, when the text is not
    /// understood.
    pub fn load_default_value(&mut self, default_value: String) -> (r: bool)
        ensures
            r == (default_from_text(old(self).col_type(), default_value@) is Some),
            r ==> final(self).default() == (if default_value@.len() == 0 {
                old(self).default()
            } else {
                default_from_text(old(self).col_type(), default_value@).unwrap()
            }),
            !r ==> final(self).default() == old(self).default(),
            final(self).col_name() == old(self).col_name(),
            final(self).col_type() == old(self).col_type(),
            final(self).flagged() == old(self).flagged(),
    {
        if default_value.as_str().unicode_len() == 0 {
            return true;
        }
        match self.type_col {
            Type::String => {
                self.default_value = Some(Value::new_by_pure_string(default_value, true));
                true
            },
            _ => match parse_i64(default_value.as_str()) {
                Some(n) => {
                    self.set_default_value(n);
                    true
                },
                None => false,
            },
        }
    }

    pub fn set_type(&mut self, t: Type)
        ensures
            final(self).col_type() == t,
            final(self).col_name() == old(self).col_name(),
            final(self).default() == old(self).default(),
            final(self).flagged() == old(self).flagged(),
    {
        self.type_col = t
    }

    pub fn set_name(&mut self, name: String)
        ensures
            final(self).col_name() == name@,
            final(self).col_type() == old(self).col_type(),
            final(self).default() == old(self).default(),
            final(self).flagged() == old(self).flagged(),
    {
        self.name = name
    }

    /// Sets an integer default value.
    pub fn set_default_value(&mut self, val: i64)
        ensures
            final(self).default() == Some((val, decimal_of(val as int))),
            final(self).col_name() == old(self).col_name(),
            final(self).col_type() == old(self).col_type(),
            final(self).flagged() == old(self).flagged(),
    {
        self.default_value = Some(Value::new_by_val(val))
    }

    pub fn get_type(&self) -> (r: Type)
        ensures
            r == self.col_type(),
    {
        self.type_col
    }

    /// Sets a string default value, taken out of the accumulator (its number is 0).
    pub fn set_value_by_string(&mut self, s: &mut StringBuilder)
        ensures
            final(self).default() == Some((0i64, old(s)@)),
            final(s)@ == Seq::<char>::empty(),
            final(self).col_name() == old(self).col_name(),
            final(self).col_type() == old(self).col_type(),
            final(self).flagged() == old(self).flagged(),
    {
        self.default_value = Some(Value::new_by_string(s, false));
    }

    pub fn name(&self) -> (r: &String)
        ensures
            r@ == self.col_name(),
    {
        &self.name
    }

    /// Whether the column has no name yet.
    pub fn is_empty(&self) -> (r: bool)
        ensures
            r == (self.col_name().len() == 0),
    {
        self.name.as_str().unicode_len() == 0
    }

    pub fn flag(&self) -> (r: bool)
        ensures
            r == self.flagged(),
    {
        self.flag
    }

    pub fn active_flag(&mut self)
        ensures
            final(self).flagged(),
            final(self).col_name() == old(self).col_name(),
            final(self).col_type() == old(self).col_type(),
            final(self).default() == old(self).default(),
    {
        self.flag = true
    }

    pub fn disable_flag(&mut self)
        ensures
            !final(self).flagged(),
            final(self).col_name() == old(self).col_name(),
            final(self).col_type() == old(self).col_type(),
            final(self).default() == old(self).default(),
    {
        self.flag = false
    }

    /// The default value; the column must have one.
    pub fn default_value(&self) -> (r: &Value)
        requires
            self.default() is Some,
        ensures
            self.default() == Some((r.num(), r.text())),
    {
        self.default_value.as_ref().unwrap()
    }

    pub fn has_default_value(&self) -> (r: bool)
        ensures
            r == (self.default() is Some),
    {
        self.default_value.is_some()
    }
}

} // verus!
