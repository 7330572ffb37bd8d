//! What plain lines and binary messages mean: which fields the parts of a line are read
//! as, and which bytes stand for a field.

use vstd::arithmetic::div_mod::lemma_div_denominator;
use vstd::arithmetic::power::{lemma_pow0, lemma_pow1, lemma_pow_adds, lemma_pow_positive, pow};
use vstd::prelude::*;
use vstd::utf8::encode_utf8;

use crate::formats::avro;
use crate::formats::binary::{law_varint_round_trip, le_bytes, le_value, varint_at, varint_bytes, varint_from};
use crate::formats::error::FormatErrorV;
use crate::formats::protobuf;
use crate::formats::text as lines;
use crate::formats::text::{fields_upto, float_of_text, lemma_split_joined, line_of, unbarred};
use crate::row::{joined, shown, ColumnType, ColumnV, FieldV, RowKind, RowV, SchemaV};
use crate::text;
use crate::text::{ascii_lowered, ascii_only, signed_number};

verus! {

// ---------------------------------------------------------------------------
// Lines
// ---------------------------------------------------------------------------

/// Whether a part of a line is read as a field in a column. An empty part is empty. A
/// number column reads the number that the part shows. In a boolean column `true`, `1`
/// and `yes` are true and `false`, `0` and `no` are false, in any case, and anything else
/// is a text, as it is in every other column.
pub open spec fn part_reads_as(s: Seq<char>, t: ColumnType, f: FieldV) -> bool {
    if s.len() == 0 {
        f is Null
    } else {
        match t {
            ColumnType::Int32 => signed_number(s, -0x8000_0000, 0x7fff_ffff) matches Some(v) && f == FieldV::Int32(v as i32),
            ColumnType::Int64 => signed_number(s, -0x8000_0000_0000_0000, 0x7fff_ffff_ffff_ffff) matches Some(v) && f
                == FieldV::Int64(v as i64),
            ColumnType::Float64 => float_of_text(s) matches Some(d) && f == FieldV::Float64(d),
            ColumnType::Bool => ascii_only(s) ==> {
                let l = ascii_lowered(s);
                if l == "true"@ || l == "1"@ || l == "yes"@ {
                    f == FieldV::Bool(true)
                } else if l == "false"@ || l == "0"@ || l == "no"@ {
                    f == FieldV::Bool(false)
                } else {
                    f == FieldV::String(s)
                }
            },
            _ => f == FieldV::String(s),
        }
    }
}

/// Whether a part of a line is no number where a number is expected.
pub open spec fn is_no_number(s: Seq<char>, t: ColumnType) -> bool {
    s.len() > 0 && match t {
        ColumnType::Int32 => signed_number(s, -0x8000_0000, 0x7fff_ffff) is None,
        ColumnType::Int64 => signed_number(s, -0x8000_0000_0000_0000, 0x7fff_ffff_ffff_ffff) is None,
        ColumnType::Float64 => float_of_text(s) is None,
        _ => false,
    }
}

/// The part of a line for a column; empty when the line is shorter.
pub open spec fn part_at(parts: Seq<Seq<char>>, i: int) -> Seq<char> {
    if 0 <= i < parts.len() { parts[i] } else { Seq::empty() }
}

/// Whether the part for a column is the first one that is no number and should be, and an
/// error says so.
pub open spec fn is_refused_for(columns: Seq<ColumnV>, parts: Seq<Seq<char>>, i: int, e: FormatErrorV) -> bool {
    &&& is_no_number(part_at(parts, i), columns[i].column_type)
    &&& e == FormatErrorV::NotANumber(part_at(parts, i))
    &&& forall|k: int| 0 <= k < i ==> !#[trigger] is_no_number(part_at(parts, k), columns[k].column_type)
}

/// Whether a text does not end with a line break.
pub open spec fn unbroken(s: Seq<char>) -> bool {
    s.len() > 0 ==> s.last() != '\n' && s.last() != '\r'
}

/// Whether the fields of the first columns are what their parts are read as.
pub open spec fn all_read(columns: Seq<ColumnV>, parts: Seq<Seq<char>>, n: nat, fs: Seq<FieldV>) -> bool {
    &&& fs.len() == n
    &&& forall|i: int|
        0 <= i < n ==> part_reads_as(part_at(parts, i), columns[i].column_type, #[trigger] fs[i]) && !is_no_number(
            part_at(parts, i),
            columns[i].column_type,
        )
}

proof fn lemma_one_more_read(columns: Seq<ColumnV>, parts: Seq<Seq<char>>, h: Seq<FieldV>, f: FieldV)
    requires
        all_read(columns, parts, h.len(), h),
        part_reads_as(part_at(parts, h.len() as int), columns[h.len() as int].column_type, f),
        !is_no_number(part_at(parts, h.len() as int), columns[h.len() as int].column_type),
    ensures
        all_read(columns, parts, (h.len() + 1) as nat, h.push(f)),
{
    let fs = h.push(f);
    assert forall|k: int| 0 <= k < h.len() + 1 implies part_reads_as(
        part_at(parts, k),
        columns[k].column_type,
        #[trigger] fs[k],
    ) && !is_no_number(part_at(parts, k), columns[k].column_type) by {
        if k < h.len() {
            assert(fs[k] == h[k]);
        }
    }
}

proof fn lemma_upto(columns: Seq<ColumnV>, parts: Seq<Seq<char>>, n: nat)
    requires
        n <= columns.len(),
    ensures
        fields_upto(columns, parts, n) is Ok ==> all_read(columns, parts, n, fields_upto(columns, parts, n)->Ok_0),
        fields_upto(columns, parts, n) is Err ==> exists|i: int|
            0 <= i < n && #[trigger] is_refused_for(columns, parts, i, fields_upto(columns, parts, n)->Err_0),
    decreases n,
{
    if n > 0 {
        let i = n - 1;
        lemma_upto(columns, parts, i as nat);
        match fields_upto(columns, parts, i as nat) {
            Ok(h) => {
                match fields_upto(columns, parts, n) {
                    Ok(fs) => {
                        assert(fs == h.push(fs[i]));
                        lemma_one_more_read(columns, parts, h, fs[i]);
                    },
                    Err(e) => {
                        assert(is_no_number(part_at(parts, i), columns[i].column_type));
                        assert forall|k: int| 0 <= k < i implies !#[trigger] is_no_number(
                            part_at(parts, k),
                            columns[k].column_type,
                        ) by {
                            assert(part_reads_as(part_at(parts, k), columns[k].column_type, h[k]));
                        }
                        assert(is_refused_for(columns, parts, i, e));
                    },
                }
            },
            Err(e) => {
                let k = choose|k: int| 0 <= k < i && #[trigger] is_refused_for(columns, parts, k, e);
                assert(is_refused_for(columns, parts, k, e));
                assert(fields_upto(columns, parts, n) == Err::<Seq<FieldV>, FormatErrorV>(e));
            },
        }
    }
}

/// A line of parts with a bar between them is an inserted row: each column has the field
/// that its part is read as, and is empty where the line is shorter. The first part that
/// should be a number and is none is what a line is refused for.
pub proof fn law_lines_are_read(parts: Seq<Seq<char>>, schema: SchemaV)
    requires
        parts.len() > 0,
        forall|i: int| 0 <= i < parts.len() ==> unbarred(#[trigger] parts[i]),
        unbroken(joined(parts, "|"@)),
    ensures
        match lines::decoded(joined(parts, "|"@), schema) {
            Ok(row) => row.kind is Insert && row.origin is None && all_read(
                schema.columns,
                parts,
                schema.columns.len(),
                row.fields,
            ),
            Err(e) => exists|i: int|
                0 <= i < schema.columns.len() && #[trigger] is_refused_for(schema.columns, parts, i, e),
        },
{
    lemma_split_joined(parts);
    law_line_ends(joined(parts, "|"@));
    lemma_upto(schema.columns, parts, schema.columns.len());
}

/// A line break behind a line, also that of other systems, is not part of it.
pub proof fn law_line_ends(s: Seq<char>)
    requires
        unbroken(s),
    ensures
        line_of(s) == s,
        line_of(s.push('\n')) == s,
        line_of(s.push('\r').push('\n')) == s,
{
    let a = s.push('\n');
    assert(a.drop_last() =~= s);
    let b = s.push('\r');
    assert(b.drop_last() =~= s);
    let c = b.push('\n');
    assert(c.drop_last() =~= b);
    assert(text::trim_end_by(s, text::being('\n')) == s);
    assert(text::trim_end_by(s, text::being('\r')) == s);
    assert(text::trim_end_by(b, text::being('\n')) == b);
    assert(text::trim_end_by(b, text::being('\r')) == s);
    assert(text::trim_end_by(a, text::being('\n')) == s);
    assert(text::trim_end_by(c, text::being('\n')) == b);
}

/// The words that are read as booleans, each as a line of its own.
pub proof fn law_boolean_words(schema: SchemaV, word: Seq<char>)
    requires
        schema.columns.len() == 1,
        schema.columns[0].column_type is Bool,
        ascii_only(word),
    ensures
        text::equal_ignoring_case(word, "true"@) || text::equal_ignoring_case(word, "1"@) || text::equal_ignoring_case(
            word,
            "yes"@,
        ) ==> lines::decoded(word, schema) == Ok::<RowV, FormatErrorV>(
            RowV { kind: RowKind::Insert, fields: seq![FieldV::Bool(true)], origin: None },
        ),
        text::equal_ignoring_case(word, "false"@) || text::equal_ignoring_case(word, "0"@) || text::equal_ignoring_case(
            word,
            "no"@,
        ) ==> lines::decoded(word, schema) == Ok::<RowV, FormatErrorV>(
            RowV { kind: RowKind::Insert, fields: seq![FieldV::Bool(false)], origin: None },
        ),
{
    reveal_strlit("true");
    reveal_strlit("1");
    reveal_strlit("yes");
    reveal_strlit("false");
    reveal_strlit("0");
    reveal_strlit("no");
    assert("1"@[0] != "0"@[0]);
    let l = ascii_lowered(word);
    assert(ascii_lowered("true"@) =~= "true"@);
    assert(ascii_lowered("1"@) =~= "1"@);
    assert(ascii_lowered("yes"@) =~= "yes"@);
    assert(ascii_lowered("false"@) =~= "false"@);
    assert(ascii_lowered("0"@) =~= "0"@);
    assert(ascii_lowered("no"@) =~= "no"@);
    if l == "true"@ || l == "1"@ || l == "yes"@ || l == "false"@ || l == "0"@ || l == "no"@ {
        assert(word.len() == l.len());
        assert forall|i: int| 0 <= i < word.len() implies #[trigger] word[i] != '|' && word[i] != '\n' && word[i] != '\r' by {
            let c = l[i];
            assert(c == text::ascii_lower(word[i]));
            assert(97 <= c as u32 <= 122 || 48 <= c as u32 <= 57);
        }
        assert(word.last() == word[word.len() - 1]);
        let parts = seq![word];
        assert(parts[0] == word);
        assert(joined(parts, "|"@) == word);
        law_lines_are_read(parts, schema);
        assert(!is_no_number(part_at(parts, 0), schema.columns[0].column_type));
        assert(lines::decoded(word, schema) is Ok);
        let row = lines::decoded(word, schema)->Ok_0;
        assert(part_reads_as(part_at(parts, 0), schema.columns[0].column_type, row.fields[0]));
        assert(row.fields =~= seq![row.fields[0]]);
    }
}

/// What a row is written as: a line with a part for each column, empty where the row has
/// no field or an empty one.
pub proof fn law_lines_are_written(schema: SchemaV, row: RowV) -> (parts: Seq<Seq<char>>)
    ensures
        parts.len() == schema.columns.len(),
        lines::encoded(schema, row) == joined(parts, "|"@),
        forall|i: int|
            0 <= i < parts.len() ==> #[trigger] parts[i] == if i >= row.fields.len() || row.fields[i] is Null {
                Seq::empty()
            } else {
                shown(row.fields[i])
            },
{
    lines::parts_for(schema.columns.len(), row.fields)
}

// ---------------------------------------------------------------------------
// Numbers in bytes
// ---------------------------------------------------------------------------

/// A number in bytes has its lowest byte first.
pub proof fn law_lowest_byte_first(v: nat, n: nat, i: nat)
    requires
        i < n,
    ensures
        le_bytes(v, n).len() == n,
        le_bytes(v, n)[i as int] as int == (v as int / pow(256, i)) % 256,
    decreases n,
{
    lemma_le_len(v, n);
    if i == 0 {
        lemma_pow0(256);
    } else {
        let j = (i - 1) as nat;
        law_lowest_byte_first(v / 256, (n - 1) as nat, j);
        lemma_pow1(256);
        lemma_pow_adds(256, 1, j);
        lemma_pow_positive(256, j);
        lemma_div_denominator(v as int, 256, pow(256, j));
        assert(le_bytes(v, n)[i as int] == le_bytes(v / 256, (n - 1) as nat)[j as int]);
    }
}

proof fn lemma_le_len(v: nat, n: nat)
    ensures
        le_bytes(v, n).len() == n,
    decreases n,
{
    if n > 0 {
        lemma_le_len(v / 256, (n - 1) as nat);
    }
}

/// A number of variable length has its lowest seven bits first, and every byte but the
/// last says that another one follows.
pub proof fn law_seven_bits_first(v: nat, i: nat)
    requires
        i < varint_bytes(v).len(),
    ensures
        (varint_bytes(v)[i as int] % 128) as int == (v as int / pow(128, i)) % 128,
        varint_bytes(v)[i as int] >= 128 <==> i + 1 < varint_bytes(v).len(),
        v as int / pow(128, varint_bytes(v).len()) == 0,
    decreases v,
{
    lemma_pow0(128);
    lemma_pow1(128);
    if v <= 127 {
        assert(v as int / 1 == v);
    } else {
        let r = varint_bytes(v / 128);
        lemma_varint_len(v / 128);
        let j = if i == 0 { 0 } else { (i - 1) as nat };
        law_seven_bits_first(v / 128, j);
        lemma_pow_adds(128, 1, r.len());
        lemma_pow_positive(128, r.len());
        lemma_div_denominator(v as int, 128, pow(128, r.len()));
        if i > 0 {
            lemma_pow_adds(128, 1, j);
            lemma_pow_positive(128, j);
            lemma_div_denominator(v as int, 128, pow(128, j));
            assert(varint_bytes(v)[i as int] == r[j as int]);
        } else {
            assert(varint_bytes(v)[0] == (v % 128 + 128) as u8);
        }
    }
}

proof fn lemma_varint_len(v: nat)
    ensures
        varint_bytes(v).len() > 0,
{
    reveal_with_fuel(varint_bytes, 1);
}

// ---------------------------------------------------------------------------
// Avro and Protobuf
// ---------------------------------------------------------------------------

/// An Avro message is a header, a zero and four bytes of a schema number of one, and then
/// the columns: a 64-bit number in eight bytes; a text behind its length in four.
pub proof fn law_avro_layout(columns: Seq<ColumnV>, c: ColumnV, table: Seq<char>, row: RowV, f: FieldV)
    requires
        row.fields.len() == columns.len(),
    ensures
        avro::encoded(SchemaV { table, columns: Seq::empty() }, row) == seq![0u8, 0u8, 0u8, 0u8, 1u8],
        ({
            let head = avro::encoded(SchemaV { table, columns }, row);
            let whole = avro::encoded(
                SchemaV { table, columns: columns.push(c) },
                RowV { fields: row.fields.push(f), ..row },
            );
            &&& c.column_type is Int64 ==> (f matches FieldV::Int64(v) ==> whole == head + le_bytes((v as u64) as nat, 8))
            &&& !(c.column_type is Int64) ==> (f matches FieldV::String(s) ==> encode_utf8(s).len() <= u32::MAX ==> whole
                == head + le_bytes(encode_utf8(s).len(), 4) + encode_utf8(s))
            &&& !(c.column_type is Int64) && f is Null ==> whole == head + seq![0u8, 0u8, 0u8, 0u8]
        }),
{
    let n = columns.len();
    assert(avro::header() + Seq::<u8>::empty() =~= seq![0u8, 0u8, 0u8, 0u8, 1u8]);
    let cs = columns.push(c);
    let fs = row.fields.push(f);
    lemma_avro_head(columns, c, row.fields, f, n);
    assert(cs[n as int] == c && fs[n as int] == f);
    let h = avro::bytes_upto(columns, row.fields, n);
    assert(avro::bytes_upto(cs, fs, n) == h);
    assert(avro::bytes_upto(cs, fs, cs.len()) == h + avro::bytes_for(f, c.column_type));
    let b = avro::bytes_for(f, c.column_type);
    assert(avro::header() + (h + b) =~= avro::header() + h + b);
    match f {
        FieldV::String(s) => {
            let e = encode_utf8(s);
            if e.len() <= u32::MAX {
                assert(((e.len() as usize) as u32) as nat == e.len());
                assert(avro::header() + h + (le_bytes(e.len(), 4) + e) =~= avro::header() + h + le_bytes(e.len(), 4) + e);
            }
        },
        FieldV::Null => {
            let e = encode_utf8(Seq::<char>::empty());
            assert(e.len() == 0);
            reveal_with_fuel(le_bytes, 5);
            assert(le_bytes(0, 4) =~= seq![0u8, 0u8, 0u8, 0u8]);
            assert(le_bytes(0, 4) + e =~= seq![0u8, 0u8, 0u8, 0u8]);
        },
        _ => {},
    }
}

proof fn lemma_avro_head(columns: Seq<ColumnV>, c: ColumnV, fields: Seq<FieldV>, f: FieldV, n: nat)
    requires
        fields.len() == columns.len(),
        n <= columns.len(),
    ensures
        avro::bytes_upto(columns.push(c), fields.push(f), n) == avro::bytes_upto(columns, fields, n),
    decreases n,
{
    if n > 0 {
        lemma_avro_head(columns, c, fields, f, (n - 1) as nat);
    }
}

/// An Avro message that ends before a column leaves it empty, and one that is shorter
/// than its header is refused.
pub proof fn law_short_avro(bytes: Seq<u8>, schema: SchemaV, i: int)
    requires
        0 <= i < schema.columns.len(),
    ensures
        bytes.len() < 5 ==> avro::decoded(bytes, schema) == Err::<RowV, FormatErrorV>(FormatErrorV::TooShort),
        bytes.len() == 5 ==> (avro::decoded(bytes, schema) matches Ok(row) && row.kind is Insert && row.fields.len()
            == schema.columns.len() && row.fields[i] is Null),
{
    if bytes.len() == 5 {
        lemma_avro_nothing(bytes.skip(5), schema.columns, schema.columns.len());
    }
}

proof fn lemma_avro_nothing(p: Seq<u8>, columns: Seq<ColumnV>, n: nat)
    requires
        p.len() == 0,
        n <= columns.len(),
    ensures
        avro::values_upto(p, columns, n).1 == 0,
        avro::values_upto(p, columns, n).0.len() == n,
        forall|i: int| 0 <= i < n ==> (#[trigger] avro::values_upto(p, columns, n).0[i]) is Null,
    decreases n,
{
    if n > 0 {
        lemma_avro_nothing(p, columns, (n - 1) as nat);
    }
}

/// A Protobuf message has the fields in order, each as the text that it is shown as,
/// behind its number from one on, the mark of a text, and its length.
pub proof fn law_protobuf_layout(columns: Seq<ColumnV>, c: ColumnV, table: Seq<char>, row: RowV, f: FieldV)
    requires
        row.fields.len() == columns.len(),
    ensures
        protobuf::encoded(SchemaV { table, columns: Seq::empty() }, row) == Seq::<u8>::empty(),
        ({
            let head = protobuf::encoded(SchemaV { table, columns }, row);
            let whole = protobuf::encoded(
                SchemaV { table, columns: columns.push(c) },
                RowV { fields: row.fields.push(f), ..row },
            );
            let said = encode_utf8(if f is Null { Seq::empty() } else { shown(f) });
            whole == head + varint_bytes(((columns.len() + 1) * 8 + 2) as nat) + varint_bytes(said.len()) + said
        }),
{
    let n = columns.len();
    let fs = row.fields.push(f);
    lemma_protobuf_head(row.fields, f, n);
    assert(fs[n as int] == f);
    let h = protobuf::bytes_upto(row.fields, n);
    let said = encode_utf8(if f is Null { Seq::empty() } else { shown(f) });
    let tag = varint_bytes(((n + 1) * 8 + 2) as nat);
    assert(protobuf::bytes_for(f, n as int) == tag + varint_bytes(said.len()) + said);
    assert(h + (tag + varint_bytes(said.len()) + said) =~= h + tag + varint_bytes(said.len()) + said);
}

proof fn lemma_protobuf_head(fields: Seq<FieldV>, f: FieldV, n: nat)
    requires
        n <= fields.len(),
    ensures
        protobuf::bytes_upto(fields.push(f), n) == protobuf::bytes_upto(fields, n),
    decreases n,
{
    if n > 0 {
        lemma_protobuf_head(fields, f, (n - 1) as nat);
    }
}

/// A number in a Protobuf message is a boolean in a column of booleans, true unless it is
/// zero, and else a 64-bit number.
pub proof fn law_protobuf_numbers(schema: SchemaV, k: nat, v: u64)
    requires
        k < schema.columns.len() < 0x0fff_ffff_ffff_ffff,
    ensures
        ({
            let bytes = varint_bytes(((k + 1) * 8) as nat) + varint_bytes(v as nat);
            protobuf::decoded(bytes, schema) matches Ok(row) && row.kind is Insert && row.fields.len()
                == schema.columns.len() && (if schema.columns[k as int].column_type is Bool {
                row.fields[k as int] == FieldV::Bool(v != 0)
            } else {
                row.fields[k as int] == FieldV::Int64(v as i64)
            }) && forall|i: int| 0 <= i < row.fields.len() && i != k ==> (#[trigger] row.fields[i]) is Null
        }),
{
    let tag = ((k + 1) * 8) as u64;
    let a = varint_bytes(tag as nat);
    let b = varint_bytes(v as nat);
    let bytes = a + b;
    let none = Seq::<u8>::empty();
    lemma_varint_len(tag as nat);
    lemma_varint_len(v as nat);
    assert(none + a + b =~= bytes);
    law_varint_round_trip(tag, none, b);
    assert(a + b + none =~= bytes);
    law_varint_round_trip(v, a, none);
    assert(tag / 8 == k + 1 && tag % 8 == 0);
    let empty = crate::row::empty_row(RowKind::Insert, schema.columns.len()).fields;
    reveal_with_fuel(protobuf::fields_from, 3);
    let f = protobuf::number_field(v, schema.columns[k as int].column_type);
    assert(protobuf::value_at(bytes, a.len() as int, 0, schema.columns[k as int].column_type) == Ok::<
        (FieldV, nat),
        FormatErrorV,
    >((f, b.len())));
    assert(protobuf::fields_from(bytes, 0, empty, schema.columns) == protobuf::fields_from(
        bytes,
        bytes.len() as int,
        empty.update(k as int, f),
        schema.columns,
    ));
}

/// Whether a column of an Avro message is read at a place and ends at another. Beyond the
/// end nothing is read. A 64-bit number has eight bytes; anything else is a text behind its
/// length in four bytes. What does not fit is empty, and only a length that was read is
/// passed.
pub open spec fn avro_reads(b: Seq<u8>, at: int, next: int, t: ColumnType, f: FieldV) -> bool {
    if at >= b.len() {
        f is Null && next == at
    } else if t is Int64 {
        &&& at + 8 > b.len() ==> f is Null && next == at
        &&& at + 8 <= b.len() ==> next == at + 8 && f == FieldV::Int64((le_value(b.subrange(at, at + 8)) as u64) as i64)
    } else {
        &&& at + 4 > b.len() ==> f is Null && next == at
        &&& at + 4 <= b.len() ==> {
            let n = le_value(b.subrange(at, at + 4)) as int;
            &&& at + 4 + n > b.len() ==> f is Null && next == at + 4
            &&& at + 4 + n <= b.len() ==> next == at + 4 + n && f == FieldV::String(
                text::lossy_text(b.subrange(at + 4, at + 4 + n)),
            )
        }
    }
}

/// The columns of an Avro message are read one behind the other, from behind its header
/// on.
pub proof fn law_avro_reading(b: Seq<u8>, schema: SchemaV) -> (at: Seq<int>)
    requires
        b.len() >= 5,
    ensures
        at.len() == schema.columns.len() + 1,
        at[0] == 5,
        avro::decoded(b, schema) matches Ok(row) && row.kind is Insert && row.origin is None && row.fields.len()
            == schema.columns.len() && forall|i: int|
            0 <= i < schema.columns.len() ==> avro_reads(
                b,
                at[i],
                at[i + 1],
                (#[trigger] schema.columns[i]).column_type,
                row.fields[i],
            ),
{
    lemma_avro_places(b, schema.columns, schema.columns.len())
}

proof fn lemma_avro_places(b: Seq<u8>, columns: Seq<ColumnV>, n: nat) -> (at: Seq<int>)
    requires
        b.len() >= 5,
        n <= columns.len(),
    ensures
        at.len() == n + 1,
        at[0] == 5,
        at[n as int] == 5 + avro::values_upto(b.skip(5), columns, n).1,
        avro::values_upto(b.skip(5), columns, n).1 >= 0,
        avro::values_upto(b.skip(5), columns, n).0.len() == n,
        forall|i: int|
            0 <= i < n ==> avro_reads(
                b,
                at[i],
                at[i + 1],
                (#[trigger] columns[i]).column_type,
                avro::values_upto(b.skip(5), columns, n).0[i],
            ),
    decreases n,
{
    if n == 0 {
        seq![5int]
    } else {
        let h = lemma_avro_places(b, columns, (n - 1) as nat);
        let p = b.skip(5);
        let pos = avro::values_upto(p, columns, (n - 1) as nat).1;
        let r = avro::values_upto(p, columns, n);
        let at = h.push(5 + r.1);
        if pos + 8 <= p.len() {
            assert(p.subrange(pos, pos + 8) =~= b.subrange(5 + pos, 5 + pos + 8));
        }
        if pos + 4 <= p.len() {
            assert(p.subrange(pos, pos + 4) =~= b.subrange(5 + pos, 5 + pos + 4));
            let k = le_value(p.subrange(pos, pos + 4)) as int;
            if pos + 4 + k <= p.len() {
                assert(p.subrange(pos + 4, pos + 4 + k) =~= b.subrange(5 + pos + 4, 5 + pos + 4 + k));
            }
        }
        assert forall|i: int| 0 <= i < n implies avro_reads(
            b,
            at[i],
            at[i + 1],
            (#[trigger] columns[i]).column_type,
            r.0[i],
        ) by {
            if i < n - 1 {
                assert(at[i] == h[i] && at[i + 1] == h[i + 1]);
            }
        }
        at
    }
}

/// A number of seven bits a byte is read until a byte without the highest bit, which has to
/// be one of the first ten; bytes that end before it are cut short.
pub proof fn law_varints(b: Seq<u8>, pos: int, n: int)
    requires
        0 <= pos <= b.len(),
        0 <= n,
        pos + n <= b.len(),
        forall|i: int| pos <= i < pos + n ==> (#[trigger] b[i]) >= 128,
    ensures
        n <= 10 && pos + n == b.len() ==> varint_at(b, pos) == Err::<(u64, nat), FormatErrorV>(
            FormatErrorV::TruncatedVarint,
        ),
        n == 10 && pos + n < b.len() ==> varint_at(b, pos) == Err::<(u64, nat), FormatErrorV>(
            FormatErrorV::InvalidVarint,
        ),
        n < 10 && pos + n < b.len() && b[pos + n] < 128 ==> (varint_at(b, pos) matches Ok(v) && v.1 == n + 1),
        n == 0 && pos < b.len() && b[pos] < 128 ==> varint_at(b, pos) == Ok::<(u64, nat), FormatErrorV>(
            (b[pos] as u64, 1nat),
        ),
{
    let s = b.skip(pos);
    assert forall|i: int| 0 <= i < n implies (#[trigger] s[i]) >= 128 by {
        assert(b[pos + i] >= 128);
    }
    lemma_varint(s, 0, n);
    if pos + n < b.len() {
        assert(s[n] == b[pos + n]);
    }
}

/// What such a number is: seven bits of each byte, the lowest first, and of the whole the
/// lowest sixty-four.
pub proof fn law_varint_values(s: Seq<u8>, k: nat, b: Seq<u8>, pos: int)
    ensures
        s.len() > 0 && k < 10 && s[0] < 128 ==> varint_from(s, k) == Ok::<(nat, nat), FormatErrorV>((s[0] as nat, 1nat)),
        s.len() > 0 && k < 10 && s[0] >= 128 ==> (varint_from(s.skip(1), k + 1) matches Ok(r) ==> (varint_from(s, k) matches
            Ok(v) && v.0 == (s[0] - 128) + 128 * r.0 && v.1 == r.1 + 1)),
        varint_from(b.skip(pos), 0) matches Ok(r) ==> (varint_at(b, pos) matches Ok(v) && v.0 == r.0
            % 0x1_0000_0000_0000_0000 && v.1 == r.1),
{
}

proof fn lemma_varint(s: Seq<u8>, k: nat, n: int)
    requires
        0 <= n <= s.len(),
        k <= 10,
        forall|i: int| 0 <= i < n ==> (#[trigger] s[i]) >= 128,
    ensures
        k + n <= 10 && n == s.len() ==> varint_from(s, k) == Err::<(nat, nat), FormatErrorV>(
            FormatErrorV::TruncatedVarint,
        ),
        k + n == 10 && n < s.len() ==> varint_from(s, k) == Err::<(nat, nat), FormatErrorV>(FormatErrorV::InvalidVarint),
        k + n < 10 && n < s.len() && s[n] < 128 ==> (varint_from(s, k) matches Ok(v) && v.1 == n + 1),
    decreases n,
{
    if n > 0 && k < 10 {
        let t = s.skip(1);
        assert(s[0] >= 128);
        assert forall|i: int| 0 <= i < n - 1 implies (#[trigger] t[i]) >= 128 by {
            assert(s[i + 1] >= 128);
        }
        lemma_varint(t, k + 1, n - 1);
        if n < s.len() {
            assert(t[n - 1] == s[n]);
        }
    }
}

/// A part of a Protobuf message that is a text is read by its column: a number where it
/// shows one, else a text; `true` and `1`, in any case, are true, and anything else is
/// false; in any other column it is a text.
pub proof fn law_protobuf_texts(s: Seq<char>, t: ColumnType)
    requires
        ascii_only(s),
    ensures
        t is Int64 ==> (signed_number(s, -0x8000_0000_0000_0000, 0x7fff_ffff_ffff_ffff) matches Some(v)
            ==> protobuf::text_field(s, text::lower_text(s), t) == FieldV::Int64(v as i64)),
        t is Int64 && signed_number(s, -0x8000_0000_0000_0000, 0x7fff_ffff_ffff_ffff) is None ==> protobuf::text_field(
            s,
            text::lower_text(s),
            t,
        ) == FieldV::String(s),
        t is Bool ==> protobuf::text_field(s, text::lower_text(s), t) == FieldV::Bool(
            ascii_lowered(s) == "true"@ || ascii_lowered(s) == "1"@,
        ),
        !(t is Int64) && !(t is Bool) ==> protobuf::text_field(s, text::lower_text(s), t) == FieldV::String(s),
{
}

/// How a Protobuf message is read: part by part, each behind a tag with the number of its
/// column and its type. Reading ends with the message, behind a tag at its end, and at a
/// column that the schema does not have; a column with the number zero is refused. A part
/// of a type that is not read, or that is longer than the message, leaves its column empty.
pub proof fn law_protobuf_reading(
    b: Seq<u8>,
    pos: int,
    fields: Seq<FieldV>,
    columns: Seq<ColumnV>,
    tag: u64,
    n: nat,
    v: u64,
    m: nat,
)
    requires
        0 <= pos < b.len(),
        n > 0,
        varint_at(b, pos) == Ok::<(u64, nat), FormatErrorV>((tag, n)),
    ensures
        ({
            let r = protobuf::fields_from(b, pos, fields, columns);
            let next = pos + n;
            let k = tag as int / 8 - 1;
            &&& next >= b.len() ==> r == Ok::<Seq<FieldV>, FormatErrorV>(fields)
            &&& next < b.len() && k < 0 ==> r == Err::<Seq<FieldV>, FormatErrorV>(FormatErrorV::InvalidVarint)
            &&& next < b.len() && k >= columns.len() ==> r == Ok::<Seq<FieldV>, FormatErrorV>(fields)
            &&& next < b.len() && 0 <= k < columns.len() && tag % 8 != 0 && tag % 8 != 2 ==> r == protobuf::fields_from(
                b,
                next,
                fields.update(k, FieldV::Null),
                columns,
            )
            &&& next < b.len() && 0 <= k < columns.len() && (tag % 8 == 0 || tag % 8 == 2) ==> (varint_at(
                b,
                next,
            ) matches Err(e) ==> r == Err::<Seq<FieldV>, FormatErrorV>(e))
            &&& next < b.len() && 0 <= k < columns.len() && varint_at(b, next) == Ok::<(u64, nat), FormatErrorV>((v, m)) ==> {
                let t = columns[k].column_type;
                &&& tag % 8 == 0 && t is Bool ==> r == protobuf::fields_from(
                    b,
                    next + m,
                    fields.update(k, FieldV::Bool(v != 0)),
                    columns,
                )
                &&& tag % 8 == 0 && !(t is Bool) ==> r == protobuf::fields_from(
                    b,
                    next + m,
                    fields.update(k, FieldV::Int64(v as i64)),
                    columns,
                )
                &&& tag % 8 == 2 && next + m + v > b.len() ==> r == protobuf::fields_from(
                    b,
                    next,
                    fields.update(k, FieldV::Null),
                    columns,
                )
                &&& tag % 8 == 2 && next + m + v <= b.len() ==> {
                    let s = text::lossy_text(b.subrange(next + m, next + m + v));
                    r == protobuf::fields_from(
                        b,
                        next + m + v,
                        fields.update(k, protobuf::text_field(s, text::lower_text(s), t)),
                        columns,
                    )
                }
            }
        }),
        protobuf::fields_from(b, b.len() as int, fields, columns) == Ok::<Seq<FieldV>, FormatErrorV>(fields),
{
}

/// A Protobuf message whose first tag cannot be read is refused, and an empty one is a row
/// of empty fields.
pub proof fn law_protobuf_ends(b: Seq<u8>, schema: SchemaV, i: int)
    requires
        0 <= i < schema.columns.len(),
    ensures
        b.len() > 0 ==> (varint_at(b, 0) matches Err(e) ==> protobuf::decoded(b, schema) == Err::<RowV, FormatErrorV>(e)),
        b.len() == 0 ==> (protobuf::decoded(b, schema) matches Ok(row) && row.kind is Insert && row.fields.len()
            == schema.columns.len() && row.fields[i] is Null && row.origin is None),
        protobuf::decoded(b, schema) matches Ok(row) ==> row.kind is Insert && row.origin is None && Ok::<
            Seq<FieldV>,
            FormatErrorV,
        >(row.fields) == protobuf::fields_from(
            b,
            0,
            Seq::new(schema.columns.len(), |k: int| FieldV::Null),
            schema.columns,
        ),
{
}

} // verus!
