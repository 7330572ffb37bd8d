//! A compact binary format: a header of five bytes, then the columns in order.

use vstd::prelude::*;

use crate::formats::binary;
use crate::formats::binary::{le_bytes, le_value};
use crate::formats::error::{FormatError, FormatErrorV};
use crate::row::{fields_view, inspected, ColumnType, ColumnV, Field, FieldV, Row, RowKind, RowV, SchemaV, TableSchema};
use crate::text;

verus! {

/// The value of a column at a position, and the position behind it. A 64-bit
/// number takes eight bytes; anything else is a text behind its length. What does
/// not fit is empty.
pub open spec fn value_at(p: Seq<u8>, pos: int, t: ColumnType) -> (FieldV, int) {
    if t is Int64 {
        if pos + 8 > p.len() {
            (FieldV::Null, pos)
        } else {
            (FieldV::Int64((le_value(p.subrange(pos, pos + 8)) as u64) as i64), pos + 8)
        }
    } else if pos + 4 > p.len() {
        (FieldV::Null, pos)
    } else {
        let n = le_value(p.subrange(pos, pos + 4)) as int;
        if pos + 4 + n > p.len() {
            (FieldV::Null, pos + 4)
        } else {
            (FieldV::String(text::lossy_text(p.subrange(pos + 4, pos + 4 + n))), pos + 4 + n)
        }
    }
}

/// The fields of the first `n` columns, and the position behind them.
pub open spec fn values_upto(p: Seq<u8>, columns: Seq<ColumnV>, n: nat) -> (Seq<FieldV>, int)
    decreases n,
{
    if n == 0 {
        (Seq::empty(), 0)
    } else {
        let h = values_upto(p, columns, (n - 1) as nat);
        if h.1 >= p.len() {
            (h.0.push(FieldV::Null), h.1)
        } else {
            let v = value_at(p, h.1, columns[n - 1].column_type);
            (h.0.push(v.0), v.1)
        }
    }
}

/// The row of a message; one that is shorter than its header is refused.
pub open spec fn decoded(bytes: Seq<u8>, schema: SchemaV) -> Result<RowV, FormatErrorV> {
    if bytes.len() < 5 {
        Err(FormatErrorV::TooShort)
    } else {
        Ok(
            RowV {
                kind: RowKind::Insert,
                fields: values_upto(bytes.skip(5), schema.columns, schema.columns.len()).0,
                origin: None,
            },
        )
    }
}

/// The text of a field in a column of texts.
pub open spec fn text_for(f: FieldV) -> Seq<char> {
    match f {
        FieldV::Null => Seq::empty(),
        FieldV::String(s) => s,
        _ => inspected(f),
    }
}

/// The bytes of a field. A field of another type leaves a column of 64-bit numbers
/// out.
pub open spec fn bytes_for(f: FieldV, t: ColumnType) -> Seq<u8> {
    if t is Int64 {
        match f {
            FieldV::Int64(v) => le_bytes((v as u64) as nat, 8),
            _ => Seq::empty(),
        }
    } else {
        let b = vstd::utf8::encode_utf8(text_for(f));
        le_bytes(((b.len() as usize) as u32) as nat, 4) + b
    }
}

/// The bytes of the first `n` columns.
pub open spec fn bytes_upto(columns: Seq<ColumnV>, fields: Seq<FieldV>, n: nat) -> Seq<u8>
    decreases n,
{
    if n == 0 {
        Seq::empty()
    } else {
        let h = bytes_upto(columns, fields, (n - 1) as nat);
        if n - 1 < fields.len() { h + bytes_for(fields[n - 1], columns[n - 1].column_type) } else { h }
    }
}

/// What stands in front of the columns.
pub open spec fn header() -> Seq<u8> {
    seq![0u8, 0u8, 0u8, 0u8, 1u8]
}

/// The message of a row.
pub open spec fn encoded(schema: SchemaV, row: RowV) -> Seq<u8> {
    header() + bytes_upto(schema.columns, row.fields, schema.columns.len())
}

/// The row of a message.
pub fn deserialize(bytes: &[u8], schema: &TableSchema) -> (r: Result<Row, FormatError>)
    ensures
        match (r, decoded(bytes@, schema@)) {
            (Ok(row), Ok(w)) => row@ == w,
            (Err(e), Err(w)) => e@ == w,
            _ => false,
        },
{
    let total: usize = bytes.len();
    if total < 5 {
        return Err(FormatError::TooShort);
    }
    let ghost p = bytes@.skip(5);
    let ghost c = schema@.columns;
    let mut fields: Vec<Field> = Vec::new();
    let mut at: usize = 5;
    let mut i: usize = 0;
    assert(fields_view(fields@) =~= Seq::empty());
    while i < schema.columns.len()
        invariant
            i <= schema.columns@.len(),
            c == schema@.columns,
            total == bytes@.len(),
            5 <= at <= total,
            p == bytes@.skip(5),
            (fields_view(fields@), at - 5) == values_upto(p, c, i as nat),
        decreases schema.columns@.len() - i,
    {
        let ghost prev = fields@;
        let ghost pos = at - 5;
        proof {
            assert(c[i as int].column_type == schema.columns@[i as int].column_type);
            if pos + 4 <= p.len() {
                assert(p.subrange(pos, pos + 4) =~= bytes@.subrange(at as int, at + 4));
            }
            if pos + 8 <= p.len() {
                assert(p.subrange(pos, pos + 8) =~= bytes@.subrange(at as int, at + 8));
            }
        }
        let room: usize = total - at;
        let f = if room == 0 {
            Field::Null
        } else if schema.columns[i].column_type == ColumnType::Int64 {
            if room < 8 {
                Field::Null
            } else {
                let v = binary::read_u64(bytes, at);
                at += 8;
                Field::Int64(v as i64)
            }
        } else if room < 4 {
            Field::Null
        } else {
            let n: usize = binary::read_u32(bytes, at) as usize;
            at += 4;
            if n > room - 4 {
                Field::Null
            } else {
                let piece = vstd::slice::slice_subrange(bytes, at, at + n);
                assert(piece@ =~= p.subrange(pos + 4, pos + 4 + n));
                at += n;
                Field::String(text::text_lossy(piece))
            }
        };
        let ghost fv = f@;
        fields.push(f);
        assert(fields_view(fields@) =~= fields_view(prev).push(fv));
        i += 1;
    }
    Ok(Row { kind: RowKind::Insert, fields, origin_table: None })
}

fn field_to_string(f: &Field) -> (r: String)
    ensures
        r@ == text_for(f@),
{
    match f {
        Field::Null => String::new(),
        Field::String(s) => s.clone(),
        other => other.inspect(),
    }
}

fn append(out: &mut Vec<u8>, b: &[u8])
    ensures
        final(out)@ == old(out)@ + b@,
{
    let ghost base = out@;
    let mut i: usize = 0;
    assert(base + b@.take(0) =~= base);
    while i < b.len()
        invariant
            i <= b@.len(),
            out@ == base + b@.take(i as int),
        decreases b@.len() - i,
    {
        out.push(b[i]);
        assert(base + b@.take(i + 1) =~= (base + b@.take(i as int)).push(b@[i as int]));
        i += 1;
    }
    assert(b@.take(b@.len() as int) =~= b@);
}

/// Appends a text's bytes.
pub(crate) fn append_text(out: &mut Vec<u8>, s: &str)
    ensures
        final(out)@ == old(out)@ + vstd::utf8::encode_utf8(s@),
{
    append(out, s.as_bytes());
}

/// The message of a row.
pub fn serialize(schema: &TableSchema, row: &Row) -> (r: Result<Vec<u8>, FormatError>)
    ensures
        r is Ok,
        r->Ok_0@ == encoded(schema@, row@),
{
    let ghost c = schema@.columns;
    let ghost fv = row@.fields;
    let mut out: Vec<u8> = Vec::new();
    out.push(0);
    out.push(0);
    out.push(0);
    out.push(0);
    out.push(1);
    let mut i: usize = 0;
    assert(out@ =~= header() + bytes_upto(c, fv, 0));
    while i < schema.columns.len()
        invariant
            i <= schema.columns@.len(),
            c == schema@.columns,
            fv == row@.fields,
            out@ == header() + bytes_upto(c, fv, i as nat),
        decreases schema.columns@.len() - i,
    {
        let ghost before = out@;
        let ghost h = bytes_upto(c, fv, i as nat);
        if i < row.fields.len() {
            let f = &row.fields[i];
            proof {
                assert(fv[i as int] == f@);
                assert(c[i as int].column_type == schema.columns@[i as int].column_type);
            }
            if schema.columns[i].column_type == ColumnType::Int64 {
                match f {
                    Field::Int64(v) => {
                        binary::write_le(&mut out, *v as u64, 8);
                    },
                    _ => {
                        assert(before + Seq::<u8>::empty() =~= before);
                    },
                }
            } else {
                let s = field_to_string(f);
                let n: usize = s.as_str().as_bytes().len();
                let len: u32 = n as u32;
                binary::write_le(&mut out, len as u64, 4);
                append_text(&mut out, s.as_str());
                proof {
                    let b = vstd::utf8::encode_utf8(s@);
                    assert((before + le_bytes(len as nat, 4)) + b =~= before + (le_bytes(len as nat, 4) + b));
                }
            }
            assert((header() + h) + bytes_for(fv[i as int], c[i as int].column_type) =~= header() + (h + bytes_for(
                fv[i as int],
                c[i as int].column_type,
            )));
        }
        i += 1;
    }
    Ok(out)
}

// ---------------------------------------------------------------------------
// Round trip
// ---------------------------------------------------------------------------

/// Whether a field of a column is read back as it was written: a 64-bit number in a
/// column of such, or a text that is not too long in another.
pub open spec fn survives(f: FieldV, t: ColumnType) -> bool {
    match f {
        FieldV::Int64(_) => t is Int64,
        FieldV::String(s) => !(t is Int64) && vstd::utf8::encode_utf8(s).len() <= u32::MAX,
        _ => false,
    }
}

proof fn lemma_value(head: Seq<u8>, f: FieldV, t: ColumnType, rest: Seq<u8>)
    requires
        survives(f, t),
    ensures
        value_at(head + bytes_for(f, t) + rest, head.len() as int, t) == (
            f,
            head.len() as int + bytes_for(f, t).len(),
        ),
        bytes_for(f, t).len() > 0,
{
    let b = bytes_for(f, t);
    let p = head + b + rest;
    let pos = head.len() as int;
    match f {
        FieldV::Int64(v) => {
            let u = v as u64;
            binary::lemma_fits(u as nat);
            binary::law_le_round_trip(u as nat, 8);
            assert(p.subrange(pos, pos + 8) =~= b);
            assert((v as u64) as i64 == v) by (bit_vector);
        },
        FieldV::String(s) => {
            let e = vstd::utf8::encode_utf8(s);
            let n = e.len();
            assert(((n as usize) as u32) as nat == n);
            binary::lemma_fits(n);
            binary::law_le_round_trip(n, 4);
            assert(p.subrange(pos, pos + 4) =~= le_bytes(n, 4));
            assert(p.subrange(pos + 4, pos + 4 + n) =~= e);
            vstd::utf8::encode_utf8_valid_utf8(s);
            vstd::utf8::encode_utf8_decode_utf8(s);
        },
        _ => {},
    }
}

proof fn lemma_values(columns: Seq<ColumnV>, fields: Seq<FieldV>, n: nat, rest: Seq<u8>)
    requires
        fields.len() == columns.len(),
        n <= columns.len(),
        forall|i: int| 0 <= i < fields.len() ==> survives(#[trigger] fields[i], columns[i].column_type),
    ensures
        values_upto(bytes_upto(columns, fields, n) + rest, columns, n) == (
            fields.take(n as int),
            bytes_upto(columns, fields, n).len() as int,
        ),
    decreases n,
{
    if n == 0 {
        assert(fields.take(0) =~= Seq::empty());
    } else {
        let m = (n - 1) as nat;
        let h = bytes_upto(columns, fields, m);
        let f = fields[m as int];
        let t = columns[m as int].column_type;
        assert(survives(f, t));
        let b = bytes_for(f, t);
        lemma_values(columns, fields, m, b + rest);
        lemma_value(h, f, t, rest);
        assert(h + (b + rest) =~= h + b + rest);
        assert(fields.take(n as int) =~= fields.take(m as int).push(f));
    }
}

/// A row whose fields survive is read back as it was written, as an inserted one.
pub proof fn law_round_trip(schema: SchemaV, row: RowV)
    requires
        row.fields.len() == schema.columns.len(),
        forall|i: int| 0 <= i < row.fields.len() ==> survives(#[trigger] row.fields[i], schema.columns[i].column_type),
    ensures
        decoded(encoded(schema, row), schema) == Ok::<RowV, FormatErrorV>(
            RowV { kind: RowKind::Insert, fields: row.fields, origin: None },
        ),
{
    let n = schema.columns.len();
    let b = bytes_upto(schema.columns, row.fields, n);
    lemma_values(schema.columns, row.fields, n, Seq::empty());
    assert(encoded(schema, row).skip(5) =~= b);
    assert(b + Seq::<u8>::empty() =~= b);
    assert(row.fields.take(row.fields.len() as int) =~= row.fields);
}

} // verus!
