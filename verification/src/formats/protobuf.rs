//! A tagged binary format: every field behind its number and its length.

use vstd::prelude::*;

use crate::formats::avro::append_text;
use crate::formats::binary;
use crate::formats::binary::{varint_at, varint_bytes};
use crate::formats::error::{FormatError, FormatErrorV};
use crate::row::{
    empty_row, rows_view, shown, ColumnType, ColumnV, Field, FieldV, Row, RowKind, RowV, SchemaV, TableSchema,
};
use crate::text;

verus! {

/// The field of a number in a column.
pub open spec fn number_field(v: u64, t: ColumnType) -> FieldV {
    if t is Bool { FieldV::Bool(v != 0) } else { FieldV::Int64(v as i64) }
}

/// The field of a text in a column, given the text in lower case.
pub open spec fn text_field(s: Seq<char>, lowered: Seq<char>, t: ColumnType) -> FieldV {
    if t is Int64 {
        match text::signed_number(s, i64::MIN as int, i64::MAX as int) {
            Some(v) => FieldV::Int64(v as i64),
            None => FieldV::String(s),
        }
    } else if t is Bool {
        FieldV::Bool(lowered == "true"@ || lowered == "1"@)
    } else {
        FieldV::String(s)
    }
}

/// The value at a position, and how many bytes it takes: a number, or a text behind
/// its length. A text that does not fit, and a value of another kind, is empty and
/// takes none.
pub open spec fn value_at(b: Seq<u8>, pos: int, wire: u64, t: ColumnType) -> Result<(FieldV, nat), FormatErrorV> {
    if wire == 0 {
        match varint_at(b, pos) {
            Ok(v) => Ok((number_field(v.0, t), v.1)),
            Err(e) => Err(e),
        }
    } else if wire == 2 {
        match varint_at(b, pos) {
            Ok(v) => {
                let from = pos + v.1;
                let to = from + v.0;
                if to > b.len() {
                    Ok((FieldV::Null, 0))
                } else {
                    let s = text::lossy_text(b.subrange(from, to));
                    Ok((text_field(s, text::lower_text(s), t), v.1 + v.0 as nat))
                }
            },
            Err(e) => Err(e),
        }
    } else {
        Ok((FieldV::Null, 0))
    }
}

/// The fields once the bytes from a position on were read into them. A field
/// beyond the columns ends the row, and so does a tag without a value.
pub open spec fn fields_from(
    b: Seq<u8>,
    pos: int,
    fields: Seq<FieldV>,
    columns: Seq<ColumnV>,
) -> Result<Seq<FieldV>, FormatErrorV>
    decreases (if pos < b.len() { b.len() - pos } else { 0 }),
{
    if pos >= b.len() {
        Ok(fields)
    } else {
        match varint_at(b, pos) {
            Err(e) => Err(e),
            Ok(tag) => {
                let next = pos + tag.1;
                let number = tag.0 / 8;
                if tag.1 == 0 || next >= b.len() {
                    Ok(fields)
                } else if number == 0 {
                    Err(FormatErrorV::InvalidVarint)
                } else if number > columns.len() {
                    Ok(fields)
                } else {
                    match value_at(b, next, tag.0 % 8, columns[number - 1].column_type) {
                        Err(e) => Err(e),
                        Ok(v) => fields_from(b, next + v.1, fields.update(number - 1, v.0), columns),
                    }
                }
            },
        }
    }
}

/// The row of a message.
pub open spec fn decoded(b: Seq<u8>, schema: SchemaV) -> Result<RowV, FormatErrorV> {
    match fields_from(b, 0, empty_row(RowKind::Insert, schema.columns.len()).fields, schema.columns) {
        Ok(fields) => Ok(RowV { kind: RowKind::Insert, fields, origin: None }),
        Err(e) => Err(e),
    }
}

/// The text of a field.
pub open spec fn text_for(f: FieldV) -> Seq<char> {
    match f {
        FieldV::Null => Seq::empty(),
        _ => shown(f),
    }
}

/// The bytes of the field of the column at position `i`.
pub open spec fn bytes_for(f: FieldV, i: int) -> Seq<u8> {
    let b = vstd::utf8::encode_utf8(text_for(f));
    varint_bytes(((i + 1) * 8 + 2) as nat) + varint_bytes(b.len()) + b
}

/// The bytes of the first `n` fields.
pub open spec fn bytes_upto(fields: Seq<FieldV>, n: nat) -> Seq<u8>
    decreases n,
{
    if n == 0 {
        Seq::empty()
    } else {
        bytes_upto(fields, (n - 1) as nat) + bytes_for(fields[n - 1], n - 1)
    }
}

/// The message of a row. A column that the row has no field for is left out.
pub open spec fn encoded(schema: SchemaV, row: RowV) -> Seq<u8> {
    bytes_upto(row.fields, crate::formats::convert::covered(schema.columns, row.fields))
}

fn read_text(s: String, t: &ColumnType) -> (r: Field)
    ensures
        r@ == text_field(s@, text::lower_text(s@), *t),
{
    match t {
        ColumnType::Int64 => match text::parse_i64(s.as_str()) {
            Some(v) => Field::Int64(v),
            None => Field::String(s),
        },
        ColumnType::Bool => {
            let lowered = text::to_lower(s.as_str());
            Field::Bool(text::same(lowered.as_str(), "true") || text::same(lowered.as_str(), "1"))
        },
        _ => Field::String(s),
    }
}

fn read_value(bytes: &[u8], pos: usize, wire: u64, t: &ColumnType) -> (r: Result<(Field, usize), FormatError>)
    requires
        pos <= bytes@.len(),
    ensures
        match (r, value_at(bytes@, pos as int, wire, *t)) {
            (Ok(v), Ok(w)) => v.0@ == w.0 && v.1 == w.1 && pos + v.1 <= bytes@.len(),
            (Err(e), Err(w)) => e@ == w,
            _ => false,
        },
{
    if wire == 0 {
        match binary::read_varint(bytes, pos) {
            Ok(v) => {
                let f = match t {
                    ColumnType::Bool => Field::Bool(v.0 != 0),
                    _ => Field::Int64(v.0 as i64),
                };
                Ok((f, v.1))
            },
            Err(e) => Err(e),
        }
    } else if wire == 2 {
        match binary::read_varint(bytes, pos) {
            Ok(v) => {
                let total: usize = bytes.len();
                let from: usize = pos + v.1;
                let room: usize = total - from;
                if v.0 > room as u64 {
                    Ok((Field::Null, 0))
                } else {
                    let n: usize = v.0 as usize;
                    let piece = vstd::slice::slice_subrange(bytes, from, from + n);
                    assert(piece@ =~= bytes@.subrange(from as int, from + n));
                    let s = text::text_lossy(piece);
                    Ok((read_text(s, t), v.1 + n))
                }
            },
            Err(e) => Err(e),
        }
    } else {
        Ok((Field::Null, 0))
    }
}

fn read_fields(bytes: &[u8], schema: &TableSchema) -> (r: Result<Row, FormatError>)
    ensures
        match (r, decoded(bytes@, schema@)) {
            (Ok(row), Ok(w)) => row@ == w,
            (Err(e), Err(w)) => e@ == w,
            _ => false,
        },
{
    let ghost c = schema@.columns;
    let ghost whole = fields_from(bytes@, 0, empty_row(RowKind::Insert, c.len()).fields, c);
    let mut row = Row::new(RowKind::Insert, schema.columns.len());
    let mut pos: usize = 0;
    let total: usize = bytes.len();
    while pos < total
        invariant
            pos <= total,
            total == bytes@.len(),
            c == schema@.columns,
            row@ == (RowV { fields: row@.fields, ..empty_row(RowKind::Insert, c.len()) }),
            row@.fields.len() == c.len(),
            whole == fields_from(bytes@, 0, empty_row(RowKind::Insert, c.len()).fields, c),
            whole == fields_from(bytes@, pos as int, row@.fields, c),
        decreases total - pos,
    {
        let tag = match binary::read_varint(bytes, pos) {
            Ok(t) => t,
            Err(e) => {
                return Err(e);
            },
        };
        pos = pos + tag.1;
        if pos >= total {
            return Ok(row);
        }
        let number: u64 = tag.0 / 8;
        if number == 0 {
            return Err(FormatError::InvalidVarint);
        }
        if number > schema.columns.len() as u64 {
            return Ok(row);
        }
        let i: usize = (number - 1) as usize;
        assert(c[i as int].column_type == schema.columns@[i as int].column_type);
        match read_value(bytes, pos, tag.0 % 8, &schema.columns[i].column_type) {
            Ok(v) => {
                row.set(i, v.0);
                pos = pos + v.1;
            },
            Err(e) => {
                return Err(e);
            },
        }
    }
    Ok(row)
}

/// The one row of a message.
pub fn deserialize(bytes: &[u8], schema: &TableSchema) -> (r: Result<Vec<Row>, FormatError>)
    ensures
        match (r, decoded(bytes@, schema@)) {
            (Ok(rows), Ok(w)) => rows_view(rows@) == seq![w],
            (Err(e), Err(w)) => e@ == w,
            _ => false,
        },
{
    match read_fields(bytes, schema) {
        Ok(row) => {
            let ghost w = row@;
            let mut rows: Vec<Row> = Vec::new();
            rows.push(row);
            assert(rows_view(rows@) =~= seq![w]);
            Ok(rows)
        },
        Err(e) => Err(e),
    }
}

fn field_to_string(f: &Field) -> (r: String)
    ensures
        r@ == text_for(f@),
{
    match f {
        Field::Null => String::new(),
        other => other.show(),
    }
}

/// The message of a row.
pub fn serialize(schema: &TableSchema, row: &Row) -> (r: Result<Vec<u8>, FormatError>)
    requires
        schema@.columns.len() < 0x0fff_ffff_ffff_ffff,
    ensures
        r is Ok,
        r->Ok_0@ == encoded(schema@, row@),
{
    let ghost fv = row@.fields;
    let mut out: Vec<u8> = Vec::new();
    let n: usize = if schema.columns.len() < row.fields.len() { schema.columns.len() } else { row.fields.len() };
    let mut i: usize = 0;
    assert(out@ =~= bytes_upto(fv, 0));
    while i < n
        invariant
            i <= n,
            n <= row.fields@.len(),
            n < 0x0fff_ffff_ffff_ffff,
            fv == row@.fields,
            out@ == bytes_upto(fv, i as nat),
        decreases n - i,
    {
        let ghost h = out@;
        assert(fv[i as int] == row.fields@[i as int]@);
        let tag: u64 = (i as u64 + 1) * 8 + 2;
        binary::write_varint(&mut out, tag);
        let s = field_to_string(&row.fields[i]);
        let len: usize = s.as_str().as_bytes().len();
        binary::write_varint(&mut out, len as u64);
        append_text(&mut out, s.as_str());
        proof {
            let b = vstd::utf8::encode_utf8(s@);
            assert(out@ =~= h + (varint_bytes(tag as nat) + varint_bytes(b.len()) + b));
        }
        i += 1;
    }
    Ok(out)
}

// ---------------------------------------------------------------------------
// Round trip
// ---------------------------------------------------------------------------

/// Whether a field of a column is read back as it was written: a boolean or a 64-bit
/// number in a column of its type; or a text, in a column of 64-bit numbers only one
/// that is no number, and in one of booleans none.
pub open spec fn survives(f: FieldV, t: ColumnType) -> bool {
    match f {
        FieldV::Bool(_) => t is Bool,
        FieldV::Int64(_) => t is Int64,
        FieldV::String(s) => {
            &&& !(t is Bool)
            &&& (t is Int64 ==> text::signed_number(s, i64::MIN as int, i64::MAX as int) is None)
            &&& vstd::utf8::encode_utf8(s).len() <= u64::MAX
        },
        _ => false,
    }
}

proof fn lemma_chunk(head: Seq<u8>, f: FieldV, i: int, rest: Seq<u8>, fields: Seq<FieldV>, columns: Seq<ColumnV>)
    requires
        0 <= i < columns.len(),
        columns.len() < 0x0fff_ffff_ffff_ffff,
        fields.len() == columns.len(),
        survives(f, columns[i].column_type),
    ensures
        fields_from(head + bytes_for(f, i) + rest, head.len() as int, fields, columns) == fields_from(
            head + bytes_for(f, i) + rest,
            (head.len() + bytes_for(f, i).len()) as int,
            fields.update(i, f),
            columns,
        ),
{
    let e = vstd::utf8::encode_utf8(text_for(f));
    let t = columns[i].column_type;
    let tag = ((i + 1) * 8 + 2) as u64;
    let a = varint_bytes(tag as nat);
    let l = varint_bytes(e.len());
    let b = head + bytes_for(f, i) + rest;
    match f {
        FieldV::Int64(v) => {
            text::law_signed_round_trip(v as int, i64::MIN as int, i64::MAX as int);
            lemma_signed_text_is_short(v as int);
        },
        FieldV::Bool(_) => {
            reveal_strlit("true");
            reveal_strlit("false");
            reveal_strlit("1");
            text::lemma_bool_text();
            lemma_utf8_is_short(text_for(f));
            assert("false"@[0] == 'f' && "true"@[0] == 't' && "1"@[0] == '1');
        },
        _ => {},
    }
    assert(e.len() <= u64::MAX);
    assert(b =~= head + a + (l + e + rest));
    binary::law_varint_round_trip(tag, head, l + e + rest);
    assert(b =~= (head + a) + l + (e + rest));
    binary::law_varint_round_trip(e.len() as u64, head + a, e + rest);
    let next = (head.len() + a.len()) as int;
    assert((head + a).len() == next);
    let from = next + l.len();
    assert(b.subrange(from, from + e.len()) =~= e);
    vstd::utf8::encode_utf8_valid_utf8(text_for(f));
    vstd::utf8::encode_utf8_decode_utf8(text_for(f));
    assert(tag / 8 == i + 1 && tag % 8 == 2);
    assert(a.len() > 0) by {
        reveal_with_fuel(varint_bytes, 1);
    }
    assert(l.len() > 0) by {
        reveal_with_fuel(varint_bytes, 1);
    }
    assert(value_at(b, next, 2, t) == Ok::<(FieldV, nat), FormatErrorV>((f, l.len() + e.len())));
}

proof fn lemma_signed_text_is_short(v: int)
    requires
        i64::MIN <= v <= i64::MAX,
    ensures
        vstd::utf8::encode_utf8(text::signed_text(v)).len() <= u64::MAX,
{
    let n = if v < 0 { -v } else { v };
    lemma_digits_are_few(n as nat);
    lemma_utf8_is_short(text::signed_text(v));
}

proof fn lemma_digits_are_few(n: nat)
    ensures
        text::decimal_text(n).len() <= n / 10 + 2,
    decreases n,
{
    if n >= 10 {
        lemma_digits_are_few(n / 10);
    }
}

proof fn lemma_utf8_is_short(s: Seq<char>)
    ensures
        vstd::utf8::encode_utf8(s).len() <= 4 * s.len(),
    decreases s.len(),
{
    if s.len() > 0 {
        lemma_utf8_is_short(s.drop_first());
    }
}

proof fn lemma_fields_from(columns: Seq<ColumnV>, fields: Seq<FieldV>, n: nat, rest: Seq<u8>)
    requires
        fields.len() == columns.len(),
        columns.len() < 0x0fff_ffff_ffff_ffff,
        n <= columns.len(),
        forall|i: int| 0 <= i < fields.len() ==> survives(#[trigger] fields[i], columns[i].column_type),
    ensures
        fields_from(
            bytes_upto(fields, n) + rest,
            0,
            empty_row(RowKind::Insert, columns.len()).fields,
            columns,
        ) == fields_from(
            bytes_upto(fields, n) + rest,
            bytes_upto(fields, n).len() as int,
            filled(fields, n as int),
            columns,
        ),
    decreases n,
{
    let none = empty_row(RowKind::Insert, columns.len()).fields;
    if n == 0 {
        assert(filled(fields, 0) =~= none);
    } else {
        let m = (n - 1) as nat;
        let h = bytes_upto(fields, m);
        let f = fields[m as int];
        let b = bytes_for(f, m as int);
        assert(survives(f, columns[m as int].column_type));
        lemma_fields_from(columns, fields, m, b + rest);
        assert(h + (b + rest) =~= h + b + rest);
        lemma_chunk(h, f, m as int, rest, filled(fields, m as int), columns);
        assert(filled(fields, m as int).update(m as int, f) =~= filled(fields, n as int));
    }
}

/// The first `n` fields, and nothing in the others.
pub open spec fn filled(fields: Seq<FieldV>, n: int) -> Seq<FieldV> {
    Seq::new(fields.len(), |i: int| if i < n { fields[i] } else { FieldV::Null })
}

/// A row whose fields survive is read back as it was written, as an inserted one.
pub proof fn law_round_trip(schema: SchemaV, row: RowV)
    requires
        row.fields.len() == schema.columns.len(),
        schema.columns.len() < 0x0fff_ffff_ffff_ffff,
        forall|i: int| 0 <= i < row.fields.len() ==> survives(#[trigger] row.fields[i], schema.columns[i].column_type),
    ensures
        decoded(encoded(schema, row), schema) == Ok::<RowV, FormatErrorV>(
            RowV { kind: RowKind::Insert, fields: row.fields, origin: None },
        ),
{
    let n = schema.columns.len();
    let b = bytes_upto(row.fields, n);
    lemma_fields_from(schema.columns, row.fields, n, Seq::empty());
    assert(b + Seq::<u8>::empty() =~= b);
    assert(filled(row.fields, n as int) =~= row.fields);
}

} // verus!
