//! What the client encoder sends: how values become JSON, how columns are mapped, and how
//! the images of a row make a message.

use vstd::prelude::*;

use crate::formats::canal_client_json::{
    column_names, data_upto, emits, emitted, emptied, error_text, event_text, has_column, identity, is_request_id,
    mapping_of, primary_key, registered, schema_key, single_document, stepped, table_for, EncoderErrorV, EncoderV,
    MappingsV,
};
use crate::formats::client_table::{
    changed_image, changed_onto, delete_image, delete_message, differs, document, encoded, full_image, is_change,
    lone_message, mapped_onto, message, overdue, position, row_key, value_in, MembersV, PendingV, TableV,
    PAIRING_WINDOW_MS,
};
use crate::formats::client_values::{
    all_become, becomes, camel_case, camel_from, date_format, date_json, fraction_format, key_text, stands_for,
    text_json, whole_seconds, without_fraction,
};
use crate::formats::convert::float_json;
use crate::formats::zone::{at_fixed, known_zone, maps_to, named_zone_millis, naive_millis, offset_of, zone_of, ZoneV};
use crate::json;
use crate::json::{field, member, same_value, sorted_members, with_member, JsonV};
use crate::keyed::{index_of, named};
use crate::props::Pairs;
use crate::row::{hex_text, shown, ColumnV, FieldV, RowKind, RowV, SchemaV};
use crate::text;
use crate::text::upper_chars;

verus! {

// ---------------------------------------------------------------------------
// JSON
// ---------------------------------------------------------------------------

/// The member of a key is the first with that key; setting one leaves the others alone.
pub proof fn law_members(o: MembersV, key: Seq<char>, value: JsonV, i: int)
    requires
        sorted_members(o),
    ensures
        0 <= i < o.len() && o[i].0 == key ==> member(o, key) == Some(o[i].1),
        (forall|k: int| 0 <= k < o.len() ==> (#[trigger] o[k]).0 != key) ==> member(o, key) is None,
        member(with_member(o, key, value), key) == Some(value),
        forall|k: Seq<char>| k != key ==> #[trigger] member(with_member(o, key, value), k) == member(o, k),
        field(JsonV::Object(o), key) == member(o, key),
{
    json::lemma_with_member(o, key, value);
    lemma_member(o, key, i);
}

proof fn lemma_member(o: MembersV, key: Seq<char>, i: int)
    requires
        sorted_members(o),
    ensures
        0 <= i < o.len() && o[i].0 == key ==> member(o, key) == Some(o[i].1),
        (forall|k: int| 0 <= k < o.len() ==> (#[trigger] o[k]).0 != key) ==> member(o, key) is None,
    decreases o.len(),
{
    if o.len() > 0 {
        let q = o.skip(1);
        assert forall|a: int, b: int| 0 <= a < b < q.len() implies text::before(#[trigger] q[a].0, #[trigger] q[b].0) by {
            assert(text::before(o[a + 1].0, o[b + 1].0));
        }
        lemma_member(q, key, i - 1);
        if 0 < i < o.len() && o[i].0 == key {
            assert(q[i - 1] == o[i]);
            assert(text::before(o[0].0, o[i].0));
            text::lemma_before_total(key, key);
        }
        if forall|k: int| 0 <= k < o.len() ==> (#[trigger] o[k]).0 != key {
            assert(o[0].0 != key);
            assert forall|k: int| 0 <= k < q.len() implies (#[trigger] q[k]).0 != key by {
                assert(o[k + 1].0 != key);
            }
        }
    }
}

/// Two values are the same when they are equal, where a zero is a zero with either sign;
/// lists and objects when they are so part by part.
pub proof fn law_same_values(a: JsonV, b: JsonV)
    ensures
        !(a is Float) && !(a is Array) && !(a is Object) ==> (same_value(a, b) <==> a == b),
        a is Float && b is Float ==> (same_value(a, b) <==> a == b || ((a->Float_0 == "0.0"@ || a->Float_0 == "-0.0"@) && (
        b->Float_0 == "0.0"@ || b->Float_0 == "-0.0"@))),
        a is Array && b is Array ==> (same_value(a, b) <==> a->Array_0.len() == b->Array_0.len() && forall|i: int|
            0 <= i < a->Array_0.len() ==> same_value(#[trigger] a->Array_0[i], b->Array_0[i])),
        a is Object && b is Object ==> (same_value(a, b) <==> a->Object_0.len() == b->Object_0.len() && forall|i: int|
            0 <= i < a->Object_0.len() ==> (#[trigger] a->Object_0[i]).0 == b->Object_0[i].0 && same_value(
                a->Object_0[i].1,
                b->Object_0[i].1,
            )),
        (a is Float) != (b is Float) || (a is Array) != (b is Array) || (a is Object) != (b is Object) ==> !same_value(a, b),
{
}

// ---------------------------------------------------------------------------
// Values
// ---------------------------------------------------------------------------

/// What a field becomes. Numbers, truth values and documents stay what they are, decimals
/// and bytes are texts, lists become lists, and a timestamp its milliseconds.
pub proof fn law_converted_fields(zone: ZoneV, f: FieldV, out: JsonV)
    requires
        becomes(zone, f, out),
    ensures
        f is Null ==> out is Null,
        f matches FieldV::Bool(b) ==> out == JsonV::Bool(b),
        f matches FieldV::Int8(v) ==> out == JsonV::Int(v as int),
        f matches FieldV::Int16(v) ==> out == JsonV::Int(v as int),
        f matches FieldV::Int32(v) ==> out == JsonV::Int(v as int),
        f matches FieldV::Int64(v) ==> out == JsonV::Int(v as int),
        f matches FieldV::UInt8(v) ==> out == JsonV::Int(v as int),
        f matches FieldV::UInt16(v) ==> out == JsonV::Int(v as int),
        f matches FieldV::UInt32(v) ==> out == JsonV::Int(v as int),
        f matches FieldV::UInt64(v) ==> out == JsonV::Int(v as int),
        f matches FieldV::Float32(_, w) ==> out == float_json(w),
        f matches FieldV::Float64(t) ==> out == float_json(t),
        f matches FieldV::Decimal(t) ==> out == JsonV::Str(t),
        f matches FieldV::Duration(v) ==> out == JsonV::Int(v as int),
        f matches FieldV::TimestampTz(_, m) ==> out == JsonV::Int(m as int),
        f matches FieldV::Bytes(b) ==> out == JsonV::Str(hex_text(b)),
        f matches FieldV::Json(j) ==> out == j,
        f matches FieldV::Time(t) ==> (t.len() <= 8 ==> out == JsonV::Str(t)) && (t.len() > 8 ==> (out matches JsonV::Str(s)
            && s.len() == 8 && s.is_prefix_of(t))),
        f matches FieldV::Array(v) ==> (out matches JsonV::Array(a) && a.len() == v.len() && forall|i: int|
            0 <= i < v.len() ==> becomes(zone, #[trigger] v[i], a[i])),
        f matches FieldV::Row(v) ==> (out matches JsonV::Array(a) && a.len() == v.len() && forall|i: int|
            0 <= i < v.len() ==> becomes(zone, #[trigger] v[i], a[i])),
{
    match f {
        FieldV::Array(v) => {
            lemma_all_become(zone, v, out->Array_0);
        },
        FieldV::Row(v) => {
            lemma_all_become(zone, v, out->Array_0);
        },
        FieldV::Time(t) => {
            if t.len() > 8 {
                assert(whole_seconds(t).is_prefix_of(t));
            }
        },
        _ => {},
    }
}

proof fn lemma_all_become(zone: ZoneV, v: Seq<FieldV>, out: Seq<JsonV>)
    requires
        all_become(zone, v, out),
    ensures
        out.len() == v.len(),
        forall|i: int| 0 <= i < v.len() ==> becomes(zone, #[trigger] v[i], out[i]),
    decreases v.len(),
{
    if v.len() > 0 {
        lemma_all_become(zone, v.drop_last(), out.drop_last());
        assert forall|i: int| 0 <= i < v.len() implies becomes(zone, #[trigger] v[i], out[i]) by {
            if i < v.len() - 1 {
                assert(v.drop_last()[i] == v[i]);
            }
        }
    }
}

/// A row becomes a list with one value for each of its fields.
pub proof fn law_converted_rows(zone: ZoneV, v: Seq<FieldV>, out: Seq<JsonV>)
    requires
        all_become(zone, v, out),
    ensures
        out.len() == v.len(),
        forall|i: int| 0 <= i < v.len() ==> becomes(zone, #[trigger] v[i], out[i]),
{
    lemma_all_become(zone, v, out);
}

/// Dates become milliseconds where the zone has the time that they show. A date that does
/// not stays a text; a date and time then loses its fraction.
pub proof fn law_converted_dates(zone: ZoneV, s: Seq<char>, out: JsonV)
    requires
        !(zone is Local),
    ensures
        becomes(zone, FieldV::Date(s), out) <==> out == match naive_millis(s + " 00:00:00"@, "%Y-%m-%d %H:%M:%S"@) {
            Some(w) => match millis_in(zone, w) {
                Some(m) => JsonV::Int(m as int),
                None => JsonV::Str(s),
            },
            None => JsonV::Str(s),
        },
        becomes(zone, FieldV::DateTime(s), out) <==> out == match naive_millis(s, "%Y-%m-%d %H:%M:%S%.f"@) {
            Some(w) => match millis_in(zone, w) {
                Some(m) => JsonV::Int(m as int),
                None => JsonV::Str(without_fraction(s)),
            },
            None => JsonV::Str(without_fraction(s)),
        },
{
    let a = naive_millis(s + " 00:00:00"@, date_format());
    let b = naive_millis(s, fraction_format());
    let am = match a {
        Some(w) => millis_in(zone, w),
        None => None,
    };
    let bm = match b {
        Some(w) => millis_in(zone, w),
        None => None,
    };
    assert(stands_for(zone, a, am));
    assert(stands_for(zone, b, bm));
    assert(becomes(zone, FieldV::Date(s), date_json(am, s)));
    assert(becomes(zone, FieldV::DateTime(s), date_json(bm, without_fraction(s))));
    crate::formats::client_values::law_conversion_is_a_function(zone, FieldV::Date(s), date_json(am, s), out);
    crate::formats::client_values::law_conversion_is_a_function(
        zone,
        FieldV::DateTime(s),
        date_json(bm, without_fraction(s)),
        out,
    );
}

/// The milliseconds of a wall clock's time in a zone, for every zone but the machine's.
pub open spec fn millis_in(zone: ZoneV, wall: i64) -> Option<i64> {
    match zone {
        ZoneV::Fixed(s) => at_fixed(wall, s),
        ZoneV::Named(n) => named_zone_millis(wall, n),
        _ => Some(wall),
    }
}

/// A text that shows a date becomes its milliseconds; else one that shows a whole number
/// of sixty-four bits without leading zeros or a sign becomes that; any other stays.
pub proof fn law_converted_texts(zone: ZoneV, s: Seq<char>, out: JsonV)
    requires
        !(zone is Local),
    ensures
        becomes(zone, FieldV::String(s), out) <==> out == match naive_millis(s, "%Y-%m-%d %H:%M:%S"@) {
            Some(w) => match millis_in(zone, w) {
                Some(m) => JsonV::Int(m as int),
                None => plain_text(s),
            },
            None => plain_text(s),
        },
{
    let a = naive_millis(s, date_format());
    let am = match a {
        Some(w) => millis_in(zone, w),
        None => None,
    };
    assert(stands_for(zone, a, am));
    assert(becomes(zone, FieldV::String(s), text_json(s, am)));
    crate::formats::client_values::law_conversion_is_a_function(zone, FieldV::String(s), text_json(s, am), out);
    reveal_strlit("0");
    assert("0"@ =~= seq!['0']);
    if is_whole(s) {
        assert(text::all_digits(s)) by {
            assert forall|i: int| 0 <= i < s.len() implies text::is_digit(#[trigger] s[i]) by {
            }
        }
        if s[0] == '0' {
            assert(s =~= seq!['0']);
        }
        assert('0' as u32 <= s[0] as u32);
    } else if text::all_digits(s) && s.len() > 0 {
        if s.len() > 1 && s[0] == '0' {
            assert("0"@.len() != s.len());
        } else {
            assert forall|i: int| 0 <= i < s.len() implies '0' as u32 <= (#[trigger] s[i]) as u32 <= '9' as u32 by {
                assert(text::is_digit(s[i]));
            }
        }
    }
}

/// Whether a text shows a whole number: digits, the first of which is no zero unless it is
/// the only one.
pub open spec fn is_whole(s: Seq<char>) -> bool {
    &&& s.len() > 0
    &&& forall|i: int| 0 <= i < s.len() ==> '0' as u32 <= (#[trigger] s[i]) as u32 <= '9' as u32
    &&& s.len() > 1 ==> s[0] != '0'
}

/// What a text that shows no date becomes.
pub open spec fn plain_text(s: Seq<char>) -> JsonV {
    if is_whole(s) && text::digits_value(s) <= i64::MAX {
        JsonV::Int(text::digits_value(s) as int)
    } else {
        JsonV::Str(s)
    }
}

/// What stands in front of the fraction of a time.
pub proof fn law_without_fraction(head: Seq<char>, tail: Seq<char>)
    requires
        !head.contains('.'),
    ensures
        without_fraction(head) == head,
        without_fraction(head + seq!['.'] + tail) == head,
    decreases head.len(),
{
    let s = head + seq!['.'] + tail;
    if head.len() > 0 {
        let rest = head.skip(1);
        assert(head.contains(head[0]));
        assert(!rest.contains('.')) by {
            if rest.contains('.') {
                let i = choose|i: int| 0 <= i < rest.len() && rest[i] == '.';
                assert(head[i + 1] == '.');
            }
        }
        law_without_fraction(rest, tail);
        assert(s.skip(1) =~= rest + seq!['.'] + tail);
        assert(head =~= seq![head[0]] + rest);
    } else {
        assert(s[0] == '.');
        assert(without_fraction(s) =~= head);
        assert(without_fraction(head) =~= head);
    }
}

/// The key of a message is a text of the key's field: numbers and truth values are shown,
/// texts stand for themselves, and anything else gives none.
pub proof fn law_key_texts(f: FieldV)
    ensures
        f matches FieldV::String(s) ==> key_text(f) == s,
        f is Bool || f is Int8 || f is Int16 || f is Int32 || f is Int64 || f is UInt8 || f is UInt16 || f is UInt32
            || f is UInt64 || f is Float32 || f is Float64 ==> key_text(f) == shown(f),
        f is Null || f is Decimal || f is Date || f is Time || f is DateTime || f is TimestampTz || f is Duration
            || f is Bytes || f is Json || f is Array || f is Row ==> key_text(f).len() == 0,
{
}

/// Camel case: underscores go, and what stands behind one is raised.
pub proof fn law_camel_case(s: Seq<char>, c: char)
    requires
        c != '_',
    ensures
        camel_case(Seq::empty()).len() == 0,
        camel_case(s.push('_')) == camel_case(s),
        camel_case(s.push('_').push(c)) == camel_case(s) + upper_chars(c),
        s.len() > 0 && s.last() != '_' ==> camel_case(s.push(c)) == camel_case(s).push(c),
        camel_case(seq![c]) == seq![c],
{
    assert(s.push('_').drop_last() =~= s);
    assert(s.push('_').push(c).drop_last() =~= s.push('_'));
    assert(s.push(c).drop_last() =~= s);
    let e = Seq::<char>::empty();
    assert(seq![c].drop_last() =~= e);
    assert(camel_from(e).0 =~= e);
    assert(camel_case(seq![c]) =~= seq![c]);
}

// ---------------------------------------------------------------------------
// Zones
// ---------------------------------------------------------------------------

/// A fixed offset moves a wall clock's time by its seconds, where both are times that can
/// be shown.
pub proof fn law_fixed_offsets(wall: i64, offset: i32)
    requires
        -86_400 < offset < 86_400,
        -8_334_601_228_800_000 <= wall <= 8_210_266_876_799_999,
        -8_334_601_228_800_000 <= wall - 1000 * offset <= 8_210_266_876_799_999,
    ensures
        at_fixed(wall, offset) matches Some(m) && m == wall - 1000 * offset,
        maps_to(ZoneV::Fixed(offset), wall, at_fixed(wall, offset)),
        maps_to(ZoneV::Utc, wall, Some(wall)),
        !maps_to(ZoneV::Utc, wall, None),
{
}

/// A time that cannot be shown has no milliseconds, and neither has one at an offset of a
/// day or more.
pub proof fn law_times_beyond(wall: i64, offset: i32)
    requires
        offset <= -86_400 || offset >= 86_400 || !(-8_334_601_228_800_000 <= wall <= 8_210_266_876_799_999) || !(
        -8_334_601_228_800_000 <= wall - 1000 * offset <= 8_210_266_876_799_999),
    ensures
        at_fixed(wall, offset) is None,
{
}

/// The number of two digits.
pub open spec fn two_digits(a: char, b: char) -> int {
    10 * (a as u32 - '0' as u32) + (b as u32 - '0' as u32)
}

/// Whether a character is a digit.
pub open spec fn is_digit(c: char) -> bool {
    '0' as u32 <= c as u32 <= '9' as u32
}

/// An offset is written with a sign, its hours, and its minutes or none, with a colon
/// between them or none. It is less than a day.
pub proof fn law_offsets(a: char, b: char, c: char, d: char)
    requires
        is_digit(a) && is_digit(b) && is_digit(c) && is_digit(d),
        3600 * two_digits(a, b) + 60 * two_digits(c, d) < 86_400,
    ensures
        offset_of(seq!['+', a, b]) == Some(3600 * two_digits(a, b)),
        offset_of(seq!['-', a, b]) == Some(-3600 * two_digits(a, b)),
        offset_of(seq!['+', a, b, c, d]) == Some(3600 * two_digits(a, b) + 60 * two_digits(c, d)),
        offset_of(seq!['-', a, b, c, d]) == Some(-(3600 * two_digits(a, b) + 60 * two_digits(c, d))),
        offset_of(seq!['+', a, b, ':', c, d]) == Some(3600 * two_digits(a, b) + 60 * two_digits(c, d)),
        offset_of(seq!['-', a, b, ':', c, d]) == Some(-(3600 * two_digits(a, b) + 60 * two_digits(c, d))),
{
    lemma_offset(seq!['+', a, b], a, b);
    lemma_offset(seq!['-', a, b], a, b);
    lemma_offset(seq!['+', a, b, c, d], a, b);
    lemma_offset(seq!['-', a, b, c, d], a, b);
    lemma_offset(seq!['+', a, b, ':', c, d], a, b);
    lemma_offset(seq!['-', a, b, ':', c, d], a, b);
    lemma_two(c, d);
    assert(seq!['+', a, b, c, d].subrange(3, 5) =~= seq![c, d]);
    assert(seq!['-', a, b, c, d].subrange(3, 5) =~= seq![c, d]);
    assert(seq!['+', a, b, ':', c, d].subrange(4, 6) =~= seq![c, d]);
    assert(seq!['-', a, b, ':', c, d].subrange(4, 6) =~= seq![c, d]);
}

/// A text is no offset when it has no sign, another length, or parts that are no numbers,
/// or when it stands for a day or more.
pub proof fn law_no_offsets(t: Seq<char>, h: int, m: int)
    ensures
        t.len() != 3 && t.len() != 5 && t.len() != 6 ==> offset_of(t) is None,
        t.len() > 0 && t[0] != '+' && t[0] != '-' ==> offset_of(t) is None,
        t.len() >= 3 && text::signed_number(t.subrange(1, 3), -0x8000_0000, 0x7fff_ffff) is None ==> offset_of(t) is None,
        (t.len() == 5 || t.len() == 6) && text::signed_number(
            t.subrange(t.len() - 2, t.len() as int),
            -0x8000_0000,
            0x7fff_ffff,
        ) is None ==> offset_of(t) is None,
        (t.len() == 5 || t.len() == 6) && text::signed_number(t.subrange(1, 3), -0x8000_0000, 0x7fff_ffff) == Some(h)
            && text::signed_number(t.subrange(t.len() - 2, t.len() as int), -0x8000_0000, 0x7fff_ffff) == Some(m) && (3600
            * h + 60 * m >= 86_400 || 3600 * h + 60 * m <= -86_400) ==> offset_of(t) is None,
        t.len() == 3 && text::signed_number(t.subrange(1, 3), -0x8000_0000, 0x7fff_ffff) == Some(h) && h >= 24 ==> offset_of(
            t,
        ) is None,
        !text::ascii_only(t) ==> offset_of(t) is None,
{
}

proof fn lemma_offset(t: Seq<char>, a: char, b: char)
    requires
        is_digit(a) && is_digit(b),
        t.len() == 3 || t.len() == 5 || t.len() == 6,
        t[1] == a && t[2] == b,
        t[0] == '+' || t[0] == '-',
        forall|i: int| 3 <= i < t.len() ==> is_digit(#[trigger] t[i]) || t[i] == ':',
    ensures
        text::ascii_only(t),
        text::signed_number(t.subrange(1, 3), i32::MIN as int, i32::MAX as int) == Some(two_digits(a, b)),
{
    lemma_two(a, b);
    assert(t.subrange(1, 3) =~= seq![a, b]);
    assert forall|i: int| 0 <= i < t.len() implies (#[trigger] t[i] as u32) < 128 by {
        if i >= 3 {
            assert(is_digit(t[i]) || t[i] == ':');
        }
    }
}

proof fn lemma_two(a: char, b: char)
    requires
        is_digit(a) && is_digit(b),
    ensures
        text::signed_number(seq![a, b], i32::MIN as int, i32::MAX as int) == Some(two_digits(a, b)),
{
    let s = seq![a, b];
    assert(text::is_digit(a) && text::is_digit(b));
    assert forall|i: int| 0 <= i < s.len() implies text::is_digit(#[trigger] s[i]) by {
    }
    assert(s.drop_last() =~= seq![a]);
    assert(seq![a].drop_last() =~= Seq::<char>::empty());
    reveal_with_fuel(text::digits_value, 3);
    assert(text::digits_value(s) == two_digits(a, b));
}

/// What a text that is no offset stands for: the machine's zone where it is blank or says
/// so, the universal time where it says so, and a zone of its name where there is one; else
/// the machine's zone.
pub proof fn law_zones(s: Seq<char>)
    requires
        text::trimmed(s) == s,
        offset_of(s) is None,
    ensures
        s.len() == 0 || text::equal_ignoring_case(s, "local"@) || text::equal_ignoring_case(s, "system"@) ==> zone_of(s)
            is Local,
        s.len() > 0 && !text::equal_ignoring_case(s, "local"@) && !text::equal_ignoring_case(s, "system"@) ==> {
            let universal = text::equal_ignoring_case(s, "utc"@) || text::equal_ignoring_case(s, "gmt"@) || s == "Z"@;
            &&& universal ==> zone_of(s) is Utc
            &&& !universal && known_zone(s) ==> zone_of(s) == ZoneV::Named(s)
            &&& !universal && !known_zone(s) ==> zone_of(s) is Local
        },
{
}

/// White space around a zone does not count.
pub proof fn law_trimmed_zones(s: Seq<char>)
    ensures
        zone_of(s) == zone_of(text::trimmed(s)),
{
    let t = text::trimmed(s);
    crate::value_laws::law_trimmed(s, ' ');
    crate::value_laws::law_trimmed(t, ' ');
    if t.len() == 0 {
        assert(text::trimmed(t) =~= t);
    }
}

/// An offset is taken as it is.
pub proof fn law_offset_zones(s: Seq<char>, n: int)
    requires
        text::trimmed(s) == s,
        offset_of(s) == Some(n),
    ensures
        zone_of(s) matches ZoneV::Fixed(k) && k == n,
{
    reveal_strlit("local");
    reveal_strlit("system");
    reveal_strlit("utc");
    reveal_strlit("gmt");
    reveal_strlit("Z");
    lemma_not_a_word(s, "local"@);
    lemma_not_a_word(s, "system"@);
    lemma_not_a_word(s, "utc"@);
    lemma_not_a_word(s, "gmt"@);
    assert("Z"@[0] == 'Z');
}

proof fn lemma_not_a_word(s: Seq<char>, word: Seq<char>)
    requires
        s.len() > 0,
        s[0] == '+' || s[0] == '-',
        word.len() > 0,
        'a' as u32 <= word[0] as u32 <= 'z' as u32,
    ensures
        !text::equal_ignoring_case(s, word),
{
    if text::equal_ignoring_case(s, word) {
        assert(text::ascii_lowered(s)[0] == text::ascii_lower(s[0]));
        assert(text::ascii_lowered(word)[0] == text::ascii_lower(word[0]));
        assert(text::ascii_lowered(s)[0] == text::ascii_lowered(word)[0]);
    }
}

// ---------------------------------------------------------------------------
// Columns and mappings
// ---------------------------------------------------------------------------

/// The name of a table: what stands behind the last dot, and what stands in front of it is
/// the database.
pub proof fn law_identity(db: Seq<char>, table: Seq<char>)
    requires
        !table.contains('.'),
    ensures
        identity(db + seq!['.'] + table) == (db, table),
        identity(table) == (Seq::<char>::empty(), table),
{
    crate::value_laws::law_last_part(db, '.', table);
    crate::value_laws::law_last_part(table, '.', Seq::empty());
}

/// The key of a schema is its first primary key, else its first column.
pub proof fn law_schema_key(c: Seq<ColumnV>, i: int)
    requires
        0 <= i < c.len(),
    ensures
        c[i].is_primary_key && (forall|k: int| 0 <= k < i ==> !(#[trigger] c[k]).is_primary_key) ==> schema_key(c)
            == c[i].name,
        (forall|k: int| 0 <= k < c.len() ==> !(#[trigger] c[k]).is_primary_key) ==> schema_key(c) == c[0].name,
        schema_key(Seq::empty()).len() == 0,
{
    lemma_primary_key(c, i);
}

proof fn lemma_primary_key(c: Seq<ColumnV>, i: int)
    ensures
        0 <= i < c.len() && c[i].is_primary_key && (forall|k: int| 0 <= k < i ==> !(#[trigger] c[k]).is_primary_key)
            ==> primary_key(c) == Some(c[i].name),
        (forall|k: int| 0 <= k < c.len() ==> !(#[trigger] c[k]).is_primary_key) ==> primary_key(c) is None,
    decreases c.len(),
{
    if c.len() > 0 {
        let d = c.drop_last();
        lemma_primary_key(d, i);
        if 0 <= i < c.len() && c[i].is_primary_key && (forall|k: int| 0 <= k < i ==> !(#[trigger] c[k]).is_primary_key) {
            assert forall|k: int| 0 <= k < i && k < d.len() implies !(#[trigger] d[k]).is_primary_key by {
                assert(!c[k].is_primary_key);
            }
            if i < d.len() {
                assert(d[i] == c[i]);
            } else {
                assert forall|k: int| 0 <= k < d.len() implies !(#[trigger] d[k]).is_primary_key by {
                    assert(!c[k].is_primary_key);
                }
            }
        }
        if forall|k: int| 0 <= k < c.len() ==> !(#[trigger] c[k]).is_primary_key {
            assert forall|k: int| 0 <= k < d.len() implies !(#[trigger] d[k]).is_primary_key by {
                assert(!c[k].is_primary_key);
            }
            assert(!c[c.len() - 1].is_primary_key);
        }
    }
}

/// A schema has a column when one is called so, and its columns are named in their order.
pub proof fn law_columns(c: Seq<ColumnV>, name: Seq<char>, i: int)
    requires
        0 <= i < c.len(),
    ensures
        has_column(c, name) <==> exists|k: int| 0 <= k < c.len() && (#[trigger] c[k]).name == name,
        column_names(c).len() == c.len() && column_names(c)[i] == c[i].name,
{
}

/// The mapping of a table is the first of its name.
pub proof fn law_mappings(m: MappingsV, name: Seq<char>, i: int)
    ensures
        0 <= i < m.len() && m[i].0 == name && (forall|k: int| 0 <= k < i ==> (#[trigger] m[k]).0 != name) ==> mapping_of(
            m,
            name,
        ) == Some(m[i].1),
        (forall|k: int| 0 <= k < m.len() ==> (#[trigger] m[k]).0 != name) ==> mapping_of(m, name) is None,
    decreases m.len(),
{
    if m.len() > 0 {
        let d = m.drop_last();
        law_mappings(d, name, i);
        if 0 <= i < m.len() && m[i].0 == name && (forall|k: int| 0 <= k < i ==> (#[trigger] m[k]).0 != name) {
            assert forall|k: int| 0 <= k < i && k < d.len() implies (#[trigger] d[k]).0 != name by {
                assert(m[k].0 != name);
            }
            if i < d.len() {
                assert(d[i] == m[i]);
            } else {
                assert forall|k: int| 0 <= k < d.len() implies (#[trigger] d[k]).0 != name by {
                    assert(m[k].0 != name);
                }
            }
        }
        if forall|k: int| 0 <= k < m.len() ==> (#[trigger] m[k]).0 != name {
            assert forall|k: int| 0 <= k < d.len() implies (#[trigger] d[k]).0 != name by {
                assert(m[k].0 != name);
            }
            assert(m[m.len() - 1].0 != name);
        }
    }
}

/// The value of a column stands at the last place of its name; a column that is not there,
/// or behind the last value, has none.
pub proof fn law_column_values(columns: Seq<Seq<char>>, values: Seq<JsonV>, name: Seq<char>, i: int)
    ensures
        0 <= i < columns.len() && columns[i] == name && (forall|k: int| i < k < columns.len() ==> (#[trigger] columns[k])
            != name) ==> position(columns, name) == Some(i) && (i < values.len() ==> value_in(columns, values, name)
            == Some(values[i])) && (i >= values.len() ==> value_in(columns, values, name) is None),
        (forall|k: int| 0 <= k < columns.len() ==> (#[trigger] columns[k]) != name) ==> position(columns, name) is None
            && value_in(columns, values, name) is None,
    decreases columns.len(),
{
    if columns.len() > 0 {
        let d = columns.drop_last();
        law_column_values(d, values, name, i);
        if 0 <= i < columns.len() && columns[i] == name && (forall|k: int| i < k < columns.len() ==> (#[trigger] columns[k])
            != name) {
            if i < d.len() {
                assert(columns[columns.len() - 1] != name);
                assert(d[i] == columns[i]);
                assert forall|k: int| i < k < d.len() implies (#[trigger] d[k]) != name by {
                    assert(columns[k] != name);
                }
            }
        }
        if forall|k: int| 0 <= k < columns.len() ==> (#[trigger] columns[k]) != name {
            assert forall|k: int| 0 <= k < d.len() implies (#[trigger] d[k]) != name by {
                assert(columns[k] != name);
            }
            assert(columns[columns.len() - 1] != name);
        }
    }
}

/// A column differs when it has a value in one row only, or two that are not the same.
pub proof fn law_differing_columns(columns: Seq<Seq<char>>, values: Seq<JsonV>, old: Seq<JsonV>, name: Seq<char>)
    ensures
        ({
            let a = value_in(columns, old, name);
            let b = value_in(columns, values, name);
            &&& a is None && b is None ==> !differs(columns, values, old, name)
            &&& a is Some && b is None || a is None && b is Some ==> differs(columns, values, old, name)
            &&& a is Some && b is Some ==> (differs(columns, values, old, name) <==> !same_value(a->0, b->0))
        }),
{
}

/// Whether one pair alone names a target, at a place of a list.
pub open spec fn is_only(pairs: Pairs, i: int) -> bool {
    0 <= i < pairs.len() && forall|k: int| 0 <= k < pairs.len() && k != i ==> (#[trigger] pairs[k]).1 != pairs[i].1
}

/// Whether no pair names a target.
pub open spec fn is_free(pairs: Pairs, target: Seq<char>) -> bool {
    forall|k: int| 0 <= k < pairs.len() ==> (#[trigger] pairs[k]).1 != target
}

proof fn lemma_mapped(base: MembersV, columns: Seq<Seq<char>>, pairs: Pairs, values: Seq<JsonV>, i: int, target: Seq<char>)
    requires
        sorted_members(base),
    ensures
        sorted_members(mapped_onto(base, columns, pairs, values)),
        is_free(pairs, target) ==> member(mapped_onto(base, columns, pairs, values), target) == member(base, target),
        is_only(pairs, i) && value_in(columns, values, pairs[i].0) is Some ==> member(
            mapped_onto(base, columns, pairs, values),
            pairs[i].1,
        ) == value_in(columns, values, pairs[i].0),
        is_only(pairs, i) && value_in(columns, values, pairs[i].0) is None ==> member(
            mapped_onto(base, columns, pairs, values),
            pairs[i].1,
        ) == member(base, pairs[i].1),
    decreases pairs.len(),
{
    if pairs.len() > 0 {
        let d = pairs.drop_last();
        let l = pairs.last();
        let h = mapped_onto(base, columns, d, values);
        lemma_mapped(base, columns, d, values, i, target);
        lemma_mapped(base, columns, d, values, i, l.1);
        match value_in(columns, values, l.0) {
            Some(v) => {
                json::lemma_with_member(h, l.1, v);
            },
            None => {},
        }
        if is_free(pairs, target) {
            assert forall|k: int| 0 <= k < d.len() implies (#[trigger] d[k]).1 != target by {
                assert(pairs[k].1 != target);
            }
            assert(pairs[pairs.len() - 1].1 != target);
        }
        if is_only(pairs, i) {
            if i < d.len() {
                assert(is_only(d, i)) by {
                    assert forall|k: int| 0 <= k < d.len() && k != i implies (#[trigger] d[k]).1 != d[i].1 by {
                        assert(pairs[k].1 != pairs[i].1);
                    }
                }
                assert(d[i] == pairs[i]);
                assert(pairs[pairs.len() - 1].1 != pairs[i].1);
            } else {
                assert(is_free(d, l.1)) by {
                    assert forall|k: int| 0 <= k < d.len() implies (#[trigger] d[k]).1 != l.1 by {
                        assert(pairs[k].1 != pairs[i].1);
                    }
                }
            }
        }
    }
}

proof fn lemma_changed(
    base: MembersV,
    columns: Seq<Seq<char>>,
    pairs: Pairs,
    values: Seq<JsonV>,
    old: Seq<JsonV>,
    i: int,
    target: Seq<char>,
)
    requires
        sorted_members(base),
    ensures
        ({
            let r = changed_onto(base, columns, pairs, values, old);
            &&& sorted_members(r)
            &&& is_free(pairs, target) ==> member(r, target) == member(base, target)
            &&& is_only(pairs, i) ==> ({
                let v = value_in(columns, values, pairs[i].0);
                &&& v is Some && differs(columns, values, old, pairs[i].0) ==> member(r, pairs[i].1) == v
                &&& v is None || !differs(columns, values, old, pairs[i].0) ==> member(r, pairs[i].1) == member(
                    base,
                    pairs[i].1,
                )
            })
        }),
    decreases pairs.len(),
{
    if pairs.len() > 0 {
        let d = pairs.drop_last();
        let l = pairs.last();
        let h = changed_onto(base, columns, d, values, old);
        lemma_changed(base, columns, d, values, old, i, target);
        lemma_changed(base, columns, d, values, old, i, l.1);
        match value_in(columns, values, l.0) {
            Some(v) => {
                json::lemma_with_member(h, l.1, v);
            },
            None => {},
        }
        if is_free(pairs, target) {
            assert forall|k: int| 0 <= k < d.len() implies (#[trigger] d[k]).1 != target by {
                assert(pairs[k].1 != target);
            }
            assert(pairs[pairs.len() - 1].1 != target);
        }
        if is_only(pairs, i) {
            if i < d.len() {
                assert(is_only(d, i)) by {
                    assert forall|k: int| 0 <= k < d.len() && k != i implies (#[trigger] d[k]).1 != d[i].1 by {
                        assert(pairs[k].1 != pairs[i].1);
                    }
                }
                assert(d[i] == pairs[i]);
                assert(pairs[pairs.len() - 1].1 != pairs[i].1);
            } else {
                assert(is_free(d, l.1)) by {
                    assert forall|k: int| 0 <= k < d.len() implies (#[trigger] d[k]).1 != l.1 by {
                        assert(pairs[k].1 != pairs[i].1);
                    }
                }
            }
        }
    }
}

/// A column that is always mapped is shown in every image, under the name that it is
/// mapped to.
pub proof fn law_columns_always_mapped(t: TableV, values: Seq<JsonV>, old: Seq<JsonV>, i: int)
    requires
        is_only(t.fields.must, i),
        is_free(t.fields.update, t.fields.must[i].1),
    ensures
        ({
            let name = t.fields.must[i].1;
            let v = value_in(t.columns, values, t.fields.must[i].0);
            &&& member(full_image(t, values), name) == v
            &&& member(changed_image(t, values, old), name) == v
            &&& member(delete_image(t, values), name) == v
        }),
{
    let e = Seq::<(Seq<char>, JsonV)>::empty();
    let name = t.fields.must[i].1;
    let m = mapped_onto(e, t.columns, t.fields.must, values);
    lemma_mapped(e, t.columns, t.fields.must, values, i, name);
    lemma_mapped(m, t.columns, t.fields.update, values, 0, name);
    lemma_changed(m, t.columns, t.fields.update, values, old, 0, name);
}

/// A column that is mapped on change is shown in a full image, in the image of a change
/// when it differs, and never in that of a delete.
pub proof fn law_columns_mapped_on_change(t: TableV, values: Seq<JsonV>, old: Seq<JsonV>, i: int)
    requires
        is_only(t.fields.update, i),
        is_free(t.fields.must, t.fields.update[i].1),
    ensures
        ({
            let name = t.fields.update[i].1;
            let column = t.fields.update[i].0;
            let v = value_in(t.columns, values, column);
            &&& member(full_image(t, values), name) == v
            &&& differs(t.columns, values, old, column) ==> member(changed_image(t, values, old), name) == v
            &&& !differs(t.columns, values, old, column) ==> member(changed_image(t, values, old), name) is None
            &&& member(delete_image(t, values), name) is None
        }),
{
    let e = Seq::<(Seq<char>, JsonV)>::empty();
    let name = t.fields.update[i].1;
    let m = mapped_onto(e, t.columns, t.fields.must, values);
    lemma_mapped(e, t.columns, t.fields.must, values, 0, name);
    lemma_mapped(m, t.columns, t.fields.update, values, i, name);
    lemma_changed(m, t.columns, t.fields.update, values, old, i, name);
}

/// Nothing else is shown.
pub proof fn law_columns_not_mapped(t: TableV, values: Seq<JsonV>, old: Seq<JsonV>, name: Seq<char>)
    requires
        is_free(t.fields.must, name),
        is_free(t.fields.update, name),
    ensures
        member(full_image(t, values), name) is None,
        member(changed_image(t, values, old), name) is None,
        member(delete_image(t, values), name) is None,
{
    let e = Seq::<(Seq<char>, JsonV)>::empty();
    let m = mapped_onto(e, t.columns, t.fields.must, values);
    lemma_mapped(e, t.columns, t.fields.must, values, 0, name);
    lemma_mapped(m, t.columns, t.fields.update, values, 0, name);
    lemma_changed(m, t.columns, t.fields.update, values, old, 0, name);
}

/// A row has changed when a column that is mapped differs; one that is always mapped
/// counts only where it has a value.
pub proof fn law_changes(t: TableV, values: Seq<JsonV>, old: Seq<JsonV>)
    ensures
        is_change(t, values, old) <==> (exists|i: int|
            0 <= i < t.fields.must.len() && differs(t.columns, values, old, (#[trigger] t.fields.must[i]).0) && value_in(
                t.columns,
                values,
                t.fields.must[i].0,
            ) is Some) || (exists|i: int|
            0 <= i < t.fields.update.len() && differs(t.columns, values, old, (#[trigger] t.fields.update[i]).0)),
{
    if exists|i: int|
        0 <= i < t.fields.must.len() && differs(t.columns, values, old, (#[trigger] t.fields.must[i]).0) && value_in(
            t.columns,
            values,
            t.fields.must[i].0,
        ) is Some {
        let i = choose|i: int|
            0 <= i < t.fields.must.len() && differs(t.columns, values, old, (#[trigger] t.fields.must[i]).0) && value_in(
                t.columns,
                values,
                t.fields.must[i].0,
            ) is Some;
        assert(value_in(t.columns, values, t.fields.must[i].0) is Some);
    }
}

// ---------------------------------------------------------------------------
// Messages
// ---------------------------------------------------------------------------

/// What a message's document holds: the request's id, the database and the table in lower
/// case, the event, the data, and the data before it where there is some.
pub proof fn law_documents(
    db: Seq<char>,
    table: Seq<char>,
    event: Seq<char>,
    id: Seq<char>,
    data: MembersV,
    old: Option<MembersV>,
)
    ensures
        ({
            let d = document(db, table, event, id, data, old);
            &&& field(d, "requestId"@) == Some(JsonV::Str(id))
            &&& field(d, "dbName"@) == Some(JsonV::Str(text::lower_text(db)))
            &&& field(d, "tableName"@) == Some(JsonV::Str(text::lower_text(table)))
            &&& field(d, "eventType"@) == Some(JsonV::Str(event))
            &&& field(d, "data"@) == Some(JsonV::Object(data))
            &&& old is None ==> field(d, "oldData"@) is None
            &&& old matches Some(m) ==> field(d, "oldData"@) == Some(JsonV::Object(m))
        }),
{
    reveal_strlit("requestId");
    reveal_strlit("dbName");
    reveal_strlit("tableName");
    reveal_strlit("eventType");
    reveal_strlit("data");
    reveal_strlit("oldData");
    assert("requestId"@[0] != "tableName"@[0]);
    assert("requestId"@[0] != "eventType"@[0]);
    assert("tableName"@[0] != "eventType"@[0]);
    let e = Seq::<(Seq<char>, JsonV)>::empty();
    let a = with_member(e, "requestId"@, JsonV::Str(id));
    json::lemma_with_member(e, "requestId"@, JsonV::Str(id));
    let b = with_member(a, "dbName"@, JsonV::Str(text::lower_text(db)));
    json::lemma_with_member(a, "dbName"@, JsonV::Str(text::lower_text(db)));
    let c = with_member(b, "tableName"@, JsonV::Str(text::lower_text(table)));
    json::lemma_with_member(b, "tableName"@, JsonV::Str(text::lower_text(table)));
    let f = with_member(c, "eventType"@, JsonV::Str(event));
    json::lemma_with_member(c, "eventType"@, JsonV::Str(event));
    let g = with_member(f, "data"@, JsonV::Object(data));
    json::lemma_with_member(f, "data"@, JsonV::Object(data));
    if let Some(m) = old {
        json::lemma_with_member(g, "oldData"@, JsonV::Object(m));
    }
}

/// A message goes to the topic of its table, under the key of its row, and carries its
/// document as a text.
pub proof fn law_messages(
    t: TableV,
    event: Seq<char>,
    key: Seq<char>,
    id: Seq<char>,
    data: MembersV,
    old: Option<MembersV>,
    p: PendingV,
    kind: RowKind,
    values: Seq<JsonV>,
)
    ensures
        ({
            let m = message(t, event, key, id, data, old);
            &&& m.table == t.db_name + "."@ + t.table_name && m.key == key
            &&& m.payload == json::json_text(document(t.db_name, t.table_name, event, id, data, old))
        }),
        delete_message(t, p, id) == message(t, "delete"@, p.key, id, p.data, None),
        kind is UpdateAfter ==> lone_message(t, kind, key, values, id) == message(
            t,
            "update"@,
            key,
            id,
            full_image(t, values),
            None,
        ),
        !(kind is UpdateAfter) ==> lone_message(t, kind, key, values, id) == message(
            t,
            "insert"@,
            key,
            id,
            full_image(t, values),
            None,
        ),
{
}

/// A before-image waits for its after-image: it is kept with what a delete of it would
/// show. The one that waited until then is sent as a delete.
pub proof fn law_before_images(
    t: TableV,
    kind: RowKind,
    key: Seq<char>,
    values: Seq<JsonV>,
    ids: (Seq<char>, Seq<char>),
    now: i64,
)
    requires
        kind is Delete || kind is UpdateBefore,
    ensures
        ({
            let r = encoded(t, kind, key, values, ids, now);
            &&& r.0.pending matches Some(p) && p.key == key && p.values == values && p.since == now && p.data
                == delete_image(t, values)
            &&& t.pending is None ==> r.1.len() == 0
            &&& t.pending matches Some(p) ==> r.1.len() == 1 && r.1[0] == message(t, "delete"@, p.key, ids.0, p.data, None)
        }),
{
}

/// An after-image with the key of the one that waits is an update of it, and is sent unless
/// nothing changed that is mapped on change. With another key the one that waits is sent
/// as a delete first. Without one that waits the image stands alone.
pub proof fn law_after_images(
    t: TableV,
    kind: RowKind,
    key: Seq<char>,
    values: Seq<JsonV>,
    ids: (Seq<char>, Seq<char>),
    now: i64,
)
    requires
        kind is Insert || kind is UpdateAfter,
    ensures
        ({
            let r = encoded(t, kind, key, values, ids, now);
            let event = if kind is UpdateAfter { "update"@ } else { "insert"@ };
            &&& r.0.pending is None
            &&& t.pending is None ==> r.1.len() == 1 && r.1[0] == message(
                t,
                event,
                key,
                ids.0,
                full_image(t, values),
                None,
            )
            &&& t.pending matches Some(p) ==> p.key != key ==> r.1.len() == 2 && r.1[0] == message(
                t,
                "delete"@,
                p.key,
                ids.0,
                p.data,
                None,
            ) && r.1[1] == message(t, event, key, ids.1, full_image(t, values), None)
            &&& t.pending matches Some(p) ==> p.key == key && t.fields.update.len() > 0 && !is_change(t, values, p.values)
                ==> r.1.len() == 0
            &&& t.pending matches Some(p) ==> p.key == key && (t.fields.update.len() == 0 || is_change(
                t,
                values,
                p.values,
            )) ==> r.1.len() == 1 && r.1[0] == message(
                t,
                "update"@,
                key,
                ids.0,
                changed_image(t, values, p.values),
                Some(full_image(t, p.values)),
            )
        }),
{
}

/// The key of a row is that of its key column, and empty where it has none.
pub proof fn law_row_keys(t: TableV, fields: Seq<FieldV>, i: int)
    requires
        0 <= i < t.columns.len(),
        t.columns[i] == t.fields.key,
        forall|k: int| i < k < t.columns.len() ==> (#[trigger] t.columns[k]) != t.fields.key,
    ensures
        i < fields.len() ==> row_key(t, fields) == key_text(fields[i]),
        i >= fields.len() ==> row_key(t, fields).len() == 0,
{
    law_column_values(t.columns, Seq::empty(), t.fields.key, i);
}

/// A before-image waits for two seconds.
pub proof fn law_waiting_images(t: TableV, now: i64)
    ensures
        PAIRING_WINDOW_MS == 2_000,
        t.pending is None ==> !overdue(t, now),
        t.pending matches Some(p) ==> (overdue(t, now) <==> now - p.since >= 2_000),
{
}

/// What is sent of the images that wait: a delete for each, or for each that has waited for
/// too long, in the order of the tables; those tables then wait for nothing.
pub proof fn law_emitted(t: Seq<TableV>, x: TableV, all: bool, now: i64, ids: Seq<Seq<char>>, id: Seq<char>)
    requires
        ids.len() == t.len(),
    ensures
        emits(x, all, now) <==> (x.pending matches Some(p) && (all || now - p.since >= 2_000)),
        emits(x, all, now) ==> emptied(x, all, now) == (TableV { pending: None, ..x }),
        !emits(x, all, now) ==> emptied(x, all, now) == x,
        emitted(Seq::empty(), all, now, ids).len() == 0,
        emits(x, all, now) ==> emitted(t.push(x), all, now, ids.push(id)) == emitted(t, all, now, ids).push(
            message(x, "delete"@, x.pending->0.key, id, x.pending->0.data, None),
        ),
        !emits(x, all, now) ==> emitted(t.push(x), all, now, ids.push(id)) == emitted(t, all, now, ids),
{
    assert(t.push(x).drop_last() =~= t);
    lemma_emitted_ids(t, all, now, ids, ids.push(id));
    assert(ids.push(id)[t.len() as int] == id);
}

proof fn lemma_emitted_ids(t: Seq<TableV>, all: bool, now: i64, a: Seq<Seq<char>>, b: Seq<Seq<char>>)
    requires
        forall|i: int| 0 <= i < t.len() ==> (#[trigger] a[i]) == b[i],
    ensures
        emitted(t, all, now, a) == emitted(t, all, now, b),
    decreases t.len(),
{
    if t.len() > 0 {
        lemma_emitted_ids(t.drop_last(), all, now, a, b);
        assert(a[t.len() - 1] == b[t.len() - 1]);
    }
}

/// A request's id has thirty-two hexadecimal digits.
pub proof fn law_request_ids(s: Seq<char>)
    ensures
        is_request_id(s) <==> s.len() == 32 && forall|i: int|
            0 <= i < 32 ==> is_digit(#[trigger] s[i]) || 'a' as u32 <= s[i] as u32 <= 'f' as u32,
{
    if is_request_id(s) {
        assert forall|i: int| 0 <= i < 32 implies is_digit(#[trigger] s[i]) || 'a' as u32 <= s[i] as u32 <= 'f' as u32 by {
            assert(crate::formats::canal_client_json::is_hex(s[i]));
        }
    }
}

/// A single row's document: the events of its kind, its origin's names, and every column
/// of the schema, where one without a value is null.
pub proof fn law_single_documents(schema: SchemaV, row: RowV, image: Seq<JsonV>, id: Seq<char>)
    ensures
        ({
            let d = single_document(schema, row, image, id);
            let data = data_upto(schema.columns, image, schema.columns.len());
            let event = if row.kind is Insert {
                "insert"@
            } else if row.kind is Delete {
                "delete"@
            } else {
                "update"@
            };
            &&& event_text(row.kind) == event
            &&& row.origin matches Some(o) ==> d == document(identity(o).0, identity(o).1, event, id, data, None)
            &&& row.origin is None ==> d == document(Seq::empty(), Seq::empty(), event, id, data, None)
        }),
{
}

/// The data of a single row: each column of the schema with its value.
pub proof fn law_single_data(columns: Seq<ColumnV>, image: Seq<JsonV>, n: nat, i: int)
    requires
        0 <= i < n <= columns.len(),
        forall|a: int, b: int| 0 <= a < b < columns.len() ==> (#[trigger] columns[a]).name != (#[trigger] columns[b]).name,
    ensures
        sorted_members(data_upto(columns, image, n)),
        i < image.len() ==> member(data_upto(columns, image, n), columns[i].name) == Some(image[i]),
        i >= image.len() ==> member(data_upto(columns, image, n), columns[i].name) == Some(JsonV::Null),
    decreases n,
{
    let h = data_upto(columns, image, (n - 1) as nat);
    let v = if n - 1 < image.len() { image[n - 1] } else { JsonV::Null };
    if n > 1 {
        law_single_data(columns, image, (n - 1) as nat, if i < n - 1 { i } else { 0 });
    }
    assert(sorted_members(h));
    json::lemma_with_member(h, columns[n - 1].name, v);
    if i < n - 1 {
        assert(columns[i].name != columns[n - 1].name);
    }
}

// ---------------------------------------------------------------------------
// The encoder's tables
// ---------------------------------------------------------------------------

/// A table that is registered for the first time waits for nothing; the first one is the
/// one that rows without an origin go to. A schema without columns is refused.
pub proof fn law_registered_tables(e: EncoderV, schema: SchemaV)
    requires
        index_of(e.tables, schema.table) is None,
    ensures
        schema.columns.len() == 0 ==> registered(e, schema) is Err,
        registered(e, schema) matches Ok(r) ==> {
            let t = r.tables.last();
            &&& r.tables.len() == e.tables.len() + 1 && e.tables.is_prefix_of(r.tables)
            &&& t.id == schema.table && t.pending is None && t.zone == e.zone
            &&& (t.db_name, t.table_name) == identity(schema.table)
            &&& t.columns.len() == schema.columns.len()
            &&& forall|i: int| 0 <= i < schema.columns.len() ==> (#[trigger] t.columns[i]) == schema.columns[i].name
            &&& e.default_table.len() == 0 ==> r.default_table == schema.table
            &&& e.default_table.len() > 0 ==> r.default_table == e.default_table
            &&& r.mappings == e.mappings && r.zone == e.zone && r.explicit == e.explicit
        },
{
    if registered(e, schema) is Ok {
        assert(e.tables.is_prefix_of(registered(e, schema)->Ok_0.tables));
    }
}

/// The table of a row: that of its origin where it is registered. Where one table was
/// configured, a row of any other is refused, and one of the same name but for the case is
/// taken. A row without an origin goes to the first table.
pub proof fn law_tables_of_rows(e: EncoderV, o: Seq<char>)
    ensures
        e.default_table.len() > 0 ==> table_for(e, None) == Ok::<Seq<char>, EncoderErrorV>(e.default_table),
        e.default_table.len() == 0 ==> table_for(e, None) == Err::<Seq<char>, EncoderErrorV>(EncoderErrorV::NoSchemaYet),
        index_of(e.tables, o) is Some ==> table_for(e, Some(o)) == Ok::<Seq<char>, EncoderErrorV>(o),
        index_of(e.tables, o) is None && !e.explicit ==> table_for(e, Some(o)) == Err::<Seq<char>, EncoderErrorV>(
            EncoderErrorV::UnregisteredTable(o),
        ),
        index_of(e.tables, o) is None && e.explicit && text::equal_ignoring_case(o, e.default_table) ==> table_for(
            e,
            Some(o),
        ) == Ok::<Seq<char>, EncoderErrorV>(e.default_table),
        index_of(e.tables, o) is None && e.explicit && !text::equal_ignoring_case(o, e.default_table) ==> table_for(
            e,
            Some(o),
        ) == Err::<Seq<char>, EncoderErrorV>(EncoderErrorV::ForeignTable(e.default_table, o)),
{
}

/// Two texts are equal ignoring case when they have the same letters in the same places,
/// in upper or lower case.
pub proof fn law_equal_ignoring_case(a: Seq<char>, b: Seq<char>)
    ensures
        text::equal_ignoring_case(a, b) <==> a.len() == b.len() && forall|i: int|
            0 <= i < a.len() ==> same_letter(#[trigger] a[i], b[i]),
{
    if text::equal_ignoring_case(a, b) {
        assert(text::ascii_lowered(a).len() == text::ascii_lowered(b).len());
        assert forall|i: int| 0 <= i < a.len() implies same_letter(#[trigger] a[i], b[i]) by {
            assert(text::ascii_lowered(a)[i] == text::ascii_lower(a[i]));
            assert(text::ascii_lowered(b)[i] == text::ascii_lower(b[i]));
            assert(b.len() == a.len());
            assert(text::ascii_lower(a[i]) == text::ascii_lower(b[i]));
            lemma_lowered(a[i], b[i]);
        }
    }
    if a.len() == b.len() && forall|i: int| 0 <= i < a.len() ==> same_letter(#[trigger] a[i], b[i]) {
        assert forall|i: int| 0 <= i < a.len() implies text::ascii_lowered(a)[i] == text::ascii_lowered(b)[i] by {
            assert(same_letter(a[i], b[i]));
        }
        assert(text::ascii_lowered(a) =~= text::ascii_lowered(b));
    }
}

proof fn lemma_lowered(a: char, b: char)
    requires
        text::ascii_lower(a) == text::ascii_lower(b),
    ensures
        same_letter(a, b),
{
    let x = a as u32;
    let y = b as u32;
    if 65 <= x <= 90 && 65 <= y <= 90 {
        assert(text::ascii_lower(a) as u32 == x + 32);
        assert(text::ascii_lower(b) as u32 == y + 32);
        assert(x == y);
    } else if 65 <= x <= 90 {
        assert(text::ascii_lower(a) as u32 == x + 32);
    } else if 65 <= y <= 90 {
        assert(text::ascii_lower(b) as u32 == y + 32);
    }
}

/// Whether two characters are one, or one letter in two cases.
pub open spec fn same_letter(a: char, b: char) -> bool {
    ||| a == b
    ||| 'A' as u32 <= a as u32 <= 'Z' as u32 && b as u32 == a as u32 + 32
    ||| 'A' as u32 <= b as u32 <= 'Z' as u32 && a as u32 == b as u32 + 32
}

/// A row changes its own table only, by the image that it became and its own key.
pub proof fn law_encoded_rows(
    e: EncoderV,
    i: int,
    row: RowV,
    image: Seq<JsonV>,
    ids: (Seq<char>, Seq<char>),
    now: i64,
)
    requires
        0 <= i < e.tables.len(),
    ensures
        ({
            let t = e.tables[i];
            let r = stepped(e, i, row, image, ids, now);
            let s = encoded(t, row.kind, row_key(t, row.fields), image, ids, now);
            r.1 == s.1 && r.0 == (EncoderV { tables: e.tables.update(i, s.0), ..e })
        }),
{
}

/// What is said of a configuration or a row that cannot be taken.
pub proof fn law_encoder_errors(t: Seq<char>, c: Seq<char>)
    ensures
        error_text(EncoderErrorV::NoMapping(t)) == "canal-client config has no field mapping for table '"@ + t + "'"@,
        error_text(EncoderErrorV::EmptyMapping(t)) == "canal-client table '"@ + t + "' has empty must/update mappings"@,
        error_text(EncoderErrorV::UnknownColumn(t, c)) == "canal-client table '"@ + t + "': mapped column '"@ + c
            + "' is not in the source schema"@,
        error_text(EncoderErrorV::UnknownKey(t, c)) == "canal-client table '"@ + t + "': key column '"@ + c
            + "' is not in the source schema"@,
        error_text(EncoderErrorV::EmptySchema(t)) == "canal-client table '"@ + t + "': source schema has no columns"@,
        error_text(EncoderErrorV::UnregisteredTable(t)) == "canal-client automatic column mapping: row from table '"@ + t
            + "' arrived before its initial schema event"@,
{
}

} // verus!
