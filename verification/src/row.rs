//! Rows, their fields, and table schemas.

use vstd::prelude::*;

use crate::job::{opt_copy, opt_view};
use crate::json;
use crate::json::{Json, JsonV};
use crate::text;

verus! {

/// The kind of a change.
#[derive(Debug, Clone, Copy, PartialEq, Eq, Structural)]
pub enum RowKind {
    Insert,
    UpdateBefore,
    UpdateAfter,
    Delete,
}

/// The type of a column.
#[derive(Debug, Clone, Copy, PartialEq, Eq, Structural)]
pub enum ColumnType {
    Bool,
    Int8,
    Int16,
    Int32,
    Int64,
    UInt64,
    Float32,
    Float64,
    Decimal,
    String,
    Bytes,
    Date,
    Time,
    DateTime,
    TimestampTz,
    Json,
}

/// A value of a row. What is not a whole number is carried by its text.
#[derive(Debug, PartialEq)]
pub enum Field {
    Null,
    Bool(bool),
    Int8(i8),
    Int16(i16),
    Int32(i32),
    Int64(i64),
    UInt8(u8),
    UInt16(u16),
    UInt32(u32),
    UInt64(u64),
    /// A single-precision number: its text, and the text of the same number in
    /// double precision.
    Float32(String, String),
    /// A double-precision number by its text.
    Float64(String),
    Decimal(String),
    String(String),
    /// `yyyy-MM-dd`.
    Date(String),
    /// `HH:mm:ss`, with a fraction where there is one.
    Time(String),
    /// `yyyy-MM-dd HH:mm:ss`, with a fraction where there is one.
    DateTime(String),
    /// The RFC 3339 text of a point in time, and its epoch milliseconds.
    TimestampTz(String, i64),
    /// Nanoseconds.
    Duration(i64),
    Bytes(Vec<u8>),
    Json(Json),
    Array(Vec<Field>),
    Row(Vec<Field>),
}

/// The mathematical value of a field.
#[verifier::ext_equal]
pub enum FieldV {
    Null,
    Bool(bool),
    Int8(i8),
    Int16(i16),
    Int32(i32),
    Int64(i64),
    UInt8(u8),
    UInt16(u16),
    UInt32(u32),
    UInt64(u64),
    Float32(Seq<char>, Seq<char>),
    Float64(Seq<char>),
    Decimal(Seq<char>),
    String(Seq<char>),
    Date(Seq<char>),
    Time(Seq<char>),
    DateTime(Seq<char>),
    TimestampTz(Seq<char>, i64),
    Duration(i64),
    Bytes(Seq<u8>),
    Json(JsonV),
    Array(Seq<FieldV>),
    Row(Seq<FieldV>),
}

/// The mathematical value of `f`.
pub open spec fn field_model(f: Field) -> FieldV
    decreases f,
{
    match f {
        Field::Null => FieldV::Null,
        Field::Bool(v) => FieldV::Bool(v),
        Field::Int8(v) => FieldV::Int8(v),
        Field::Int16(v) => FieldV::Int16(v),
        Field::Int32(v) => FieldV::Int32(v),
        Field::Int64(v) => FieldV::Int64(v),
        Field::UInt8(v) => FieldV::UInt8(v),
        Field::UInt16(v) => FieldV::UInt16(v),
        Field::UInt32(v) => FieldV::UInt32(v),
        Field::UInt64(v) => FieldV::UInt64(v),
        Field::Float32(t, w) => FieldV::Float32(t@, w@),
        Field::Float64(t) => FieldV::Float64(t@),
        Field::Decimal(t) => FieldV::Decimal(t@),
        Field::String(t) => FieldV::String(t@),
        Field::Date(t) => FieldV::Date(t@),
        Field::Time(t) => FieldV::Time(t@),
        Field::DateTime(t) => FieldV::DateTime(t@),
        Field::TimestampTz(t, m) => FieldV::TimestampTz(t@, m),
        Field::Duration(v) => FieldV::Duration(v),
        Field::Bytes(b) => FieldV::Bytes(b@),
        Field::Json(j) => FieldV::Json(j@),
        Field::Array(v) => FieldV::Array(
            Seq::new(v@.len(), |i: int| if 0 <= i < v@.len() { field_model(v@[i]) } else { FieldV::Null }),
        ),
        Field::Row(v) => FieldV::Row(
            Seq::new(v@.len(), |i: int| if 0 <= i < v@.len() { field_model(v@[i]) } else { FieldV::Null }),
        ),
    }
}

impl View for Field {
    type V = FieldV;

    open spec fn view(&self) -> FieldV {
        field_model(*self)
    }
}

/// The values of a list of fields.
pub open spec fn fields_view(v: Seq<Field>) -> Seq<FieldV> {
    v.map_values(|f: Field| f@)
}

/// The value of a list or of a nested row in terms of its parts.
pub proof fn lemma_field_parts(f: Field)
    ensures
        match f {
            Field::Array(v) => f@ == FieldV::Array(fields_view(v@)),
            Field::Row(v) => f@ == FieldV::Row(fields_view(v@)),
            _ => true,
        },
{
    match f {
        Field::Array(v) => {
            assert(f@->Array_0 =~= fields_view(v@));
        },
        Field::Row(v) => {
            assert(f@->Row_0 =~= fields_view(v@));
        },
        _ => {},
    }
}

/// The number of a field that is a signed whole number.
pub open spec fn signed_value(f: FieldV) -> Option<i64> {
    match f {
        FieldV::Int8(v) => Some(v as i64),
        FieldV::Int16(v) => Some(v as i64),
        FieldV::Int32(v) => Some(v as i64),
        FieldV::Int64(v) => Some(v),
        _ => None,
    }
}

/// Copies of a list of fields.
pub fn copy_fields(v: &Vec<Field>) -> (r: Vec<Field>)
    ensures
        fields_view(r@) == fields_view(v@),
    decreases v,
{
    let mut out: Vec<Field> = Vec::new();
    let mut i: usize = 0;
    while i < v.len()
        invariant
            i <= v@.len(),
            out@.len() == i,
            forall|k: int| 0 <= k < i ==> #[trigger] out@[k]@ == v@[k]@,
        decreases v@.len() - i,
    {
        let f = v[i].copy();
        out.push(f);
        i += 1;
    }
    assert(fields_view(out@) =~= fields_view(v@));
    out
}

impl Field {
    /// A copy.
    pub fn copy(&self) -> (r: Field)
        ensures
            r@ == self@,
        decreases self,
    {
        proof {
            lemma_field_parts(*self);
        }
        match self {
            Field::Null => Field::Null,
            Field::Bool(v) => Field::Bool(*v),
            Field::Int8(v) => Field::Int8(*v),
            Field::Int16(v) => Field::Int16(*v),
            Field::Int32(v) => Field::Int32(*v),
            Field::Int64(v) => Field::Int64(*v),
            Field::UInt8(v) => Field::UInt8(*v),
            Field::UInt16(v) => Field::UInt16(*v),
            Field::UInt32(v) => Field::UInt32(*v),
            Field::UInt64(v) => Field::UInt64(*v),
            Field::Float32(t, w) => Field::Float32(t.clone(), w.clone()),
            Field::Float64(t) => Field::Float64(t.clone()),
            Field::Decimal(t) => Field::Decimal(t.clone()),
            Field::String(t) => Field::String(t.clone()),
            Field::Date(t) => Field::Date(t.clone()),
            Field::Time(t) => Field::Time(t.clone()),
            Field::DateTime(t) => Field::DateTime(t.clone()),
            Field::TimestampTz(t, m) => Field::TimestampTz(t.clone(), *m),
            Field::Duration(v) => Field::Duration(*v),
            Field::Bytes(b) => Field::Bytes(crate::checkpoint_store::bytes_of(b.as_slice())),
            Field::Json(j) => Field::Json(j.copy()),
            Field::Array(v) => {
                let c = copy_fields(v);
                let r = Field::Array(c);
                proof {
                    lemma_field_parts(r);
                }
                r
            },
            Field::Row(v) => {
                let c = copy_fields(v);
                let r = Field::Row(c);
                proof {
                    lemma_field_parts(r);
                }
                r
            },
        }
    }

    /// The number of a field that is a signed whole number.
    pub fn as_i64(&self) -> (r: Option<i64>)
        ensures
            r == signed_value(self@),
    {
        match self {
            Field::Int8(v) => Some(*v as i64),
            Field::Int16(v) => Some(*v as i64),
            Field::Int32(v) => Some(*v as i64),
            Field::Int64(v) => Some(*v),
            _ => None,
        }
    }

    /// Whether the field holds no value.
    pub fn is_null(&self) -> (r: bool)
        ensures
            r == (self@ is Null),
    {
        match self {
            Field::Null => true,
            _ => false,
        }
    }
}

// ---------------------------------------------------------------------------
// Text
// ---------------------------------------------------------------------------

/// The digit of a number below sixteen.
pub open spec fn hex_digit(n: int) -> char {
    if n < 10 { (48 + n) as u8 as char } else { (87 + n) as u8 as char }
}

/// Bytes as lower-case hexadecimal digits, two for each.
pub open spec fn hex_text(b: Seq<u8>) -> Seq<char>
    decreases b.len(),
{
    if b.len() == 0 {
        Seq::empty()
    } else {
        hex_text(b.drop_last()).push(hex_digit((b.last() / 16) as int)).push(hex_digit((b.last() % 16) as int))
    }
}

/// Calls `hex::encode`, which writes every byte as two lower-case hexadecimal
/// digits, the high half first.
#[verifier::external_body]
pub(crate) fn hex_of(b: &Vec<u8>) -> (r: String)
    ensures
        r@ == hex_text(b@),
{
    hex::encode(b)
}

/// Texts behind each other with a separator between them.
pub open spec fn joined(parts: Seq<Seq<char>>, sep: Seq<char>) -> Seq<char>
    decreases parts.len(),
{
    if parts.len() == 0 {
        Seq::empty()
    } else if parts.len() == 1 {
        parts[0]
    } else {
        joined(parts.drop_last(), sep) + sep + parts.last()
    }
}

/// A field as a text.
pub open spec fn shown(f: FieldV) -> Seq<char>
    decreases f,
{
    match f {
        FieldV::Null => "NULL"@,
        FieldV::Bool(v) => if v { "true"@ } else { "false"@ },
        FieldV::Int8(v) => text::signed_text(v as int),
        FieldV::Int16(v) => text::signed_text(v as int),
        FieldV::Int32(v) => text::signed_text(v as int),
        FieldV::Int64(v) => text::signed_text(v as int),
        FieldV::UInt8(v) => text::decimal_text(v as nat),
        FieldV::UInt16(v) => text::decimal_text(v as nat),
        FieldV::UInt32(v) => text::decimal_text(v as nat),
        FieldV::UInt64(v) => text::decimal_text(v as nat),
        FieldV::Float32(t, _) => t,
        FieldV::Float64(t) => t,
        FieldV::Decimal(t) => t,
        FieldV::String(t) => t,
        FieldV::Date(t) => t,
        FieldV::Time(t) => t,
        FieldV::DateTime(t) => t,
        FieldV::TimestampTz(t, _) => t,
        FieldV::Duration(v) => text::signed_text(v as int),
        FieldV::Bytes(b) => hex_text(b),
        FieldV::Json(j) => json::json_text(j),
        FieldV::Array(v) => "["@ + joined(shown_all(v), ", "@) + "]"@,
        FieldV::Row(v) => "("@ + joined(shown_all(v), ", "@) + ")"@,
    }
}

/// Fields as texts.
pub open spec fn shown_all(v: Seq<FieldV>) -> Seq<Seq<char>>
    decreases v,
{
    if v.len() == 0 {
        Seq::empty()
    } else {
        shown_all(v.drop_last()).push(shown(v.last()))
    }
}

/// Texts behind each other with a separator between them.
pub fn join(parts: &Vec<String>, sep: &str) -> (r: String)
    ensures
        r@ == joined(text::views(parts@), sep@),
{
    let ghost pv = text::views(parts@);
    if parts.len() == 0 {
        return String::new();
    }
    let mut out = parts[0].clone();
    let mut i: usize = 1;
    assert(pv.take(1)[0] == parts@[0]@);
    while i < parts.len()
        invariant
            1 <= i <= parts@.len(),
            pv == text::views(parts@),
            out@ == joined(pv.take(i as int), sep@),
        decreases parts@.len() - i,
    {
        proof {
            assert(pv.take(i + 1).drop_last() =~= pv.take(i as int));
            assert(pv.take(i + 1).last() == parts@[i as int]@);
        }
        out = text::join3(out.as_str(), sep, parts[i].as_str());
        i += 1;
    }
    assert(pv.take(pv.len() as int) =~= pv);
    out
}

fn show_all(v: &Vec<Field>) -> (r: Vec<String>)
    ensures
        text::views(r@) == shown_all(fields_view(v@)),
    decreases v,
{
    let ghost fv = fields_view(v@);
    let mut out: Vec<String> = Vec::new();
    let mut i: usize = 0;
    proof {
        assert(fv.take(0) =~= Seq::empty());
        assert(text::views(out@) =~= Seq::empty());
    }
    while i < v.len()
        invariant
            i <= v@.len(),
            fv == fields_view(v@),
            text::views(out@) == shown_all(fv.take(i as int)),
        decreases v@.len() - i,
    {
        proof {
            assert(fv.take(i + 1).drop_last() =~= fv.take(i as int));
            assert(fv.take(i + 1).last() == v@[i as int]@);
        }
        let ghost prev = out@;
        let s = v[i].show();
        out.push(s);
        assert(text::views(out@) =~= text::views(prev).push(s@));
        i += 1;
    }
    assert(fv.take(fv.len() as int) =~= fv);
    out
}

impl Field {
    /// The field as a text.
    pub fn show(&self) -> (r: String)
        ensures
            r@ == shown(self@),
        decreases self,
    {
        proof {
            lemma_field_parts(*self);
        }
        match self {
            Field::Null => text::owned("NULL"),
            Field::Bool(v) => if *v { text::owned("true") } else { text::owned("false") },
            Field::Int8(v) => text::signed_decimal(*v as i64),
            Field::Int16(v) => text::signed_decimal(*v as i64),
            Field::Int32(v) => text::signed_decimal(*v as i64),
            Field::Int64(v) => text::signed_decimal(*v),
            Field::UInt8(v) => text::decimal(*v as u64),
            Field::UInt16(v) => text::decimal(*v as u64),
            Field::UInt32(v) => text::decimal(*v as u64),
            Field::UInt64(v) => text::decimal(*v),
            Field::Float32(t, _) => t.clone(),
            Field::Float64(t) => t.clone(),
            Field::Decimal(t) => t.clone(),
            Field::String(t) => t.clone(),
            Field::Date(t) => t.clone(),
            Field::Time(t) => t.clone(),
            Field::DateTime(t) => t.clone(),
            Field::TimestampTz(t, _) => t.clone(),
            Field::Duration(v) => text::signed_decimal(*v),
            Field::Bytes(b) => hex_of(b),
            Field::Json(j) => json::json_string(j),
            Field::Array(v) => {
                let parts = show_all(v);
                let inner = join(&parts, ", ");
                text::join3("[", inner.as_str(), "]")
            },
            Field::Row(v) => {
                let parts = show_all(v);
                let inner = join(&parts, ", ");
                text::join3("(", inner.as_str(), ")")
            },
        }
    }
}

/// The text that the `Debug` of `str` writes: quoted, with escapes.
pub uninterp spec fn quoted_text(s: Seq<char>) -> Seq<char>;

/// Calls the `Debug` of `str`. The text is a function of the text that is quoted.
#[verifier::external_body]
pub(crate) fn quoted(s: &str) -> (r: String)
    ensures
        r@ == quoted_text(s@),
{
    format!("{:?}", s)
}

/// The text that the `Debug` of a double-precision number writes, for the number that the
/// standard library reads from a text, if it reads one.
pub uninterp spec fn float_debug_text(s: Seq<char>) -> Option<Seq<char>>;

/// Reads a double-precision number with `str::parse` and calls its `Debug`;
/// `serde_json::Number::from_f64`, which takes nothing else, gives the number its type.
/// The text is a function of the text that is read; nothing else is claimed of it.
#[verifier::external_body]
fn debug_float(s: &str) -> (r: Option<String>)
    ensures
        match r {
            Some(t) => float_debug_text(s@) == Some(t@),
            None => float_debug_text(s@) is None,
        },
{
    let number = s.parse().ok()?;
    let _ = serde_json::Number::from_f64(number);
    Some(format!("{:?}", number))
}

/// A number by its text, as it is inspected: 1 is `1.0`. The text of a single-precision
/// number has so few digits that it is the shortest of the same number in double
/// precision, too.
pub open spec fn inspected_float(t: Seq<char>) -> Seq<char> {
    match float_debug_text(t) {
        Some(d) => d,
        None => t,
    }
}

fn inspect_float(t: &String) -> (r: String)
    ensures
        r@ == inspected_float(t@),
{
    match debug_float(t.as_str()) {
        Some(d) => d,
        None => t.clone(),
    }
}

/// A date and a time with a `T` in place of the space between them.
pub open spec fn with_t(s: Seq<char>) -> Seq<char> {
    s.map_values(|c: char| if c == ' ' { 'T' } else { c })
}

fn put_t(s: &str) -> (r: String)
    ensures
        r@ == with_t(s@),
{
    let chars = text::chars_of(s);
    let mut out = String::new();
    let mut i: usize = 0;
    assert(out@ =~= with_t(chars@).take(0));
    while i < chars.len()
        invariant
            i <= chars@.len(),
            out@ == with_t(chars@).take(i as int),
        decreases chars@.len() - i,
    {
        out.push(if chars[i] == ' ' { 'T' } else { chars[i] });
        assert(with_t(chars@).take(i + 1) =~= with_t(chars@).take(i as int).push(with_t(chars@)[i as int]));
        i += 1;
    }
    assert(with_t(chars@).take(chars@.len() as int) =~= with_t(chars@));
    out
}

/// The name of a field's type with its value in brackets.
pub open spec fn tagged(name: Seq<char>, value: Seq<char>) -> Seq<char> {
    name + "("@ + value + ")"@
}

fn tag(name: &str, value: &str) -> (r: String)
    ensures
        r@ == tagged(name@, value@),
{
    let head = text::join3(name, "(", value);
    text::join2(head.as_str(), ")")
}

/// A field as a text that shows its type.
pub open spec fn inspected(f: FieldV) -> Seq<char>
    decreases f,
{
    match f {
        FieldV::Null => "Null"@,
        FieldV::Bool(_) => tagged("Bool"@, shown(f)),
        FieldV::Int8(_) => tagged("Int8"@, shown(f)),
        FieldV::Int16(_) => tagged("Int16"@, shown(f)),
        FieldV::Int32(_) => tagged("Int32"@, shown(f)),
        FieldV::Int64(_) => tagged("Int64"@, shown(f)),
        FieldV::UInt8(_) => tagged("UInt8"@, shown(f)),
        FieldV::UInt16(_) => tagged("UInt16"@, shown(f)),
        FieldV::UInt32(_) => tagged("UInt32"@, shown(f)),
        FieldV::UInt64(_) => tagged("UInt64"@, shown(f)),
        FieldV::Float32(t, _) => tagged("Float32"@, inspected_float(t)),
        FieldV::Float64(t) => tagged("Float64"@, inspected_float(t)),
        FieldV::Decimal(_) => tagged("Decimal"@, shown(f)),
        FieldV::String(s) => tagged("String"@, quoted_text(s)),
        FieldV::Date(_) => tagged("Date"@, shown(f)),
        FieldV::Time(_) => tagged("Time"@, shown(f)),
        FieldV::DateTime(t) => tagged("DateTime"@, with_t(t)),
        FieldV::TimestampTz(_, _) => tagged("TimestampTz"@, shown(f)),
        FieldV::Duration(_) => tagged("Duration"@, shown(f)),
        FieldV::Bytes(b) => tagged("Bytes"@, "["@ + joined(b.map_values(|x: u8| text::decimal_text(x as nat)), ", "@) + "]"@),
        FieldV::Json(j) => tagged("Json"@, json::json_debug_text(j)),
        FieldV::Array(v) => tagged("Array"@, "["@ + joined(inspected_all(v), ", "@) + "]"@),
        FieldV::Row(v) => tagged("Row"@, "["@ + joined(inspected_all(v), ", "@) + "]"@),
    }
}

/// Fields as texts that show their types.
pub open spec fn inspected_all(v: Seq<FieldV>) -> Seq<Seq<char>>
    decreases v,
{
    if v.len() == 0 {
        Seq::empty()
    } else {
        inspected_all(v.drop_last()).push(inspected(v.last()))
    }
}

fn inspect_all(v: &Vec<Field>) -> (r: Vec<String>)
    ensures
        text::views(r@) == inspected_all(fields_view(v@)),
    decreases v,
{
    let ghost fv = fields_view(v@);
    let mut out: Vec<String> = Vec::new();
    let mut i: usize = 0;
    proof {
        assert(fv.take(0) =~= Seq::empty());
        assert(text::views(out@) =~= Seq::empty());
    }
    while i < v.len()
        invariant
            i <= v@.len(),
            fv == fields_view(v@),
            text::views(out@) == inspected_all(fv.take(i as int)),
        decreases v@.len() - i,
    {
        proof {
            assert(fv.take(i + 1).drop_last() =~= fv.take(i as int));
            assert(fv.take(i + 1).last() == v@[i as int]@);
        }
        let ghost prev = out@;
        let s = v[i].inspect();
        out.push(s);
        assert(text::views(out@) =~= text::views(prev).push(s@));
        i += 1;
    }
    assert(fv.take(fv.len() as int) =~= fv);
    out
}

fn list_bytes(b: &Vec<u8>) -> (r: String)
    ensures
        r@ == "["@ + joined(b@.map_values(|x: u8| text::decimal_text(x as nat)), ", "@) + "]"@,
{
    let mut parts: Vec<String> = Vec::new();
    let mut i: usize = 0;
    while i < b.len()
        invariant
            i <= b@.len(),
            parts@.len() == i,
            forall|k: int| 0 <= k < i ==> (#[trigger] parts@[k])@ == text::decimal_text(b@[k] as nat),
        decreases b@.len() - i,
    {
        parts.push(text::decimal(b[i] as u64));
        i += 1;
    }
    assert(text::views(parts@) =~= b@.map_values(|x: u8| text::decimal_text(x as nat)));
    let inner = join(&parts, ", ");
    text::join3("[", inner.as_str(), "]")
}

impl Field {
    /// The field as a text that shows its type.
    pub fn inspect(&self) -> (r: String)
        ensures
            r@ == inspected(self@),
        decreases self,
    {
        proof {
            lemma_field_parts(*self);
        }
        let value = match self {
            Field::Null => {
                return text::owned("Null");
            },
            Field::Float32(t, _) => inspect_float(t),
            Field::Float64(t) => inspect_float(t),
            Field::String(s) => quoted(s.as_str()),
            Field::DateTime(t) => put_t(t.as_str()),
            Field::Bytes(b) => list_bytes(b),
            Field::Json(j) => json::json_debug(j),
            Field::Array(v) => {
                let parts = inspect_all(v);
                let inner = join(&parts, ", ");
                text::join3("[", inner.as_str(), "]")
            },
            Field::Row(v) => {
                let parts = inspect_all(v);
                let inner = join(&parts, ", ");
                text::join3("[", inner.as_str(), "]")
            },
            other => other.show(),
        };
        let name = match self {
            Field::Null => "Null",
            Field::Bool(_) => "Bool",
            Field::Int8(_) => "Int8",
            Field::Int16(_) => "Int16",
            Field::Int32(_) => "Int32",
            Field::Int64(_) => "Int64",
            Field::UInt8(_) => "UInt8",
            Field::UInt16(_) => "UInt16",
            Field::UInt32(_) => "UInt32",
            Field::UInt64(_) => "UInt64",
            Field::Float32(_, _) => "Float32",
            Field::Float64(_) => "Float64",
            Field::Decimal(_) => "Decimal",
            Field::String(_) => "String",
            Field::Date(_) => "Date",
            Field::Time(_) => "Time",
            Field::DateTime(_) => "DateTime",
            Field::TimestampTz(_, _) => "TimestampTz",
            Field::Duration(_) => "Duration",
            Field::Bytes(_) => "Bytes",
            Field::Json(_) => "Json",
            Field::Array(_) => "Array",
            Field::Row(_) => "Row",
        };
        tag(name, value.as_str())
    }
}

// ---------------------------------------------------------------------------
// Rows
// ---------------------------------------------------------------------------

/// A row: a kind of change and a value for each column.
#[derive(Debug)]
pub struct Row {
    pub kind: RowKind,
    pub fields: Vec<Field>,
    /// `database.table` where the row comes from, when it is known.
    pub origin_table: Option<String>,
}

/// The mathematical value of a row.
#[verifier::ext_equal]
pub struct RowV {
    pub kind: RowKind,
    pub fields: Seq<FieldV>,
    pub origin: Option<Seq<char>>,
}

impl View for Row {
    type V = RowV;

    open spec fn view(&self) -> RowV {
        RowV { kind: self.kind, fields: fields_view(self.fields@), origin: opt_view(self.origin_table) }
    }
}

/// A row whose fields are all empty.
pub open spec fn empty_row(kind: RowKind, n: nat) -> RowV {
    RowV { kind, fields: Seq::new(n, |i: int| FieldV::Null), origin: None }
}

impl Row {
    /// A row whose fields are all empty.
    pub fn new(kind: RowKind, field_count: usize) -> (r: Self)
        ensures
            r@ == empty_row(kind, field_count as nat),
    {
        let mut fields: Vec<Field> = Vec::new();
        let mut i: usize = 0;
        while i < field_count
            invariant
                i <= field_count,
                fields@.len() == i,
                forall|k: int| 0 <= k < i ==> #[trigger] fields@[k]@ == FieldV::Null,
            decreases field_count - i,
        {
            fields.push(Field::Null);
            i += 1;
        }
        let r = Row { kind, fields, origin_table: None };
        assert(r@.fields =~= empty_row(kind, field_count as nat).fields);
        r
    }

    /// The number of fields.
    pub fn field_count(&self) -> (r: usize)
        ensures
            r == self@.fields.len(),
    {
        self.fields.len()
    }

    /// The field at a position.
    pub fn get(&self, i: usize) -> (r: &Field)
        requires
            i < self@.fields.len(),
        ensures
            r@ == self@.fields[i as int],
    {
        &self.fields[i]
    }

    /// Sets the field at a position.
    pub fn set(&mut self, i: usize, field: Field)
        requires
            i < old(self)@.fields.len(),
        ensures
            final(self)@ == (RowV { fields: old(self)@.fields.update(i as int, field@), ..old(self)@ }),
    {
        let ghost before = self@.fields;
        let ghost f = field@;
        self.fields.set(i, field);
        assert(self@.fields =~= before.update(i as int, f));
    }

    /// A copy.
    pub fn copy(&self) -> (r: Self)
        ensures
            r@ == self@,
    {
        Row { kind: self.kind, fields: copy_fields(&self.fields), origin_table: opt_copy(&self.origin_table) }
    }
}

/// The rows behind a list.
pub open spec fn rows_view(v: Seq<Row>) -> Seq<RowV> {
    v.map_values(|r: Row| r@)
}

// ---------------------------------------------------------------------------
// Schemas
// ---------------------------------------------------------------------------

/// A column.
#[derive(Debug)]
pub struct ColumnDef {
    pub name: String,
    pub column_type: ColumnType,
    pub is_primary_key: bool,
}

/// The mathematical value of a column.
#[verifier::ext_equal]
pub struct ColumnV {
    pub name: Seq<char>,
    pub column_type: ColumnType,
    pub is_primary_key: bool,
}

impl View for ColumnDef {
    type V = ColumnV;

    open spec fn view(&self) -> ColumnV {
        ColumnV { name: self.name@, column_type: self.column_type, is_primary_key: self.is_primary_key }
    }
}

impl ColumnDef {
    /// A column that is not part of the primary key.
    pub fn new(name: String, column_type: ColumnType) -> (r: Self)
        ensures
            r@ == (ColumnV { name: name@, column_type, is_primary_key: false }),
    {
        ColumnDef { name, column_type, is_primary_key: false }
    }

    /// The column as a part of the primary key.
    pub fn primary_key(self) -> (r: Self)
        ensures
            r@ == (ColumnV { is_primary_key: true, ..self@ }),
    {
        ColumnDef { name: self.name, column_type: self.column_type, is_primary_key: true }
    }

    /// A copy.
    pub fn copy(&self) -> (r: Self)
        ensures
            r@ == self@,
    {
        ColumnDef { name: self.name.clone(), column_type: self.column_type, is_primary_key: self.is_primary_key }
    }
}

/// The columns of a table in their order.
#[derive(Debug)]
pub struct TableSchema {
    pub table_identifier: String,
    pub columns: Vec<ColumnDef>,
}

/// The mathematical value of a schema.
#[verifier::ext_equal]
pub struct SchemaV {
    pub table: Seq<char>,
    pub columns: Seq<ColumnV>,
}

/// The columns behind a list.
pub open spec fn columns_view(v: Seq<ColumnDef>) -> Seq<ColumnV> {
    v.map_values(|c: ColumnDef| c@)
}

impl View for TableSchema {
    type V = SchemaV;

    open spec fn view(&self) -> SchemaV {
        SchemaV { table: self.table_identifier@, columns: columns_view(self.columns@) }
    }
}

/// Whether the columns of a schema have different names.
pub open spec fn distinct_columns(c: Seq<ColumnV>) -> bool {
    forall|i: int, j: int| 0 <= i < j < c.len() ==> (#[trigger] c[i]).name != (#[trigger] c[j]).name
}

impl TableSchema {
    /// A schema.
    pub fn new(table_identifier: String, columns: Vec<ColumnDef>) -> (r: Self)
        ensures
            r@ == (SchemaV { table: table_identifier@, columns: columns_view(columns@) }),
    {
        TableSchema { table_identifier, columns }
    }

    /// A copy.
    pub fn copy(&self) -> (r: Self)
        ensures
            r@ == self@,
    {
        let mut columns: Vec<ColumnDef> = Vec::new();
        let mut i: usize = 0;
        while i < self.columns.len()
            invariant
                i <= self.columns@.len(),
                columns@.len() == i,
                forall|k: int| 0 <= k < i ==> #[trigger] columns@[k]@ == self.columns@[k]@,
            decreases self.columns@.len() - i,
        {
            columns.push(self.columns[i].copy());
            i += 1;
        }
        let r = TableSchema { table_identifier: self.table_identifier.clone(), columns };
        assert(r@.columns =~= self@.columns);
        r
    }
}

} // verus!
