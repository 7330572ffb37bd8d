//! Values of canal-client messages: dates become epoch milliseconds, digits become
//! numbers, anything else stays what it is.

use vstd::prelude::*;

use crate::formats::convert::{float_json, float_to_json};
use crate::formats::zone::{maps_to, naive_millis, parse_naive, ServerTz, ZoneV};
use crate::json;
use crate::json::{Json, JsonV};
use crate::row::{fields_view, hex_of, hex_text, lemma_field_parts, shown, Field, FieldV};
use crate::text;

verus! {

/// `snake_case` as `camelCase`: an underscore is dropped and the character behind
/// it is raised. The first character stays.
pub open spec fn camel_case(s: Seq<char>) -> Seq<char> {
    camel_from(s).0
}

/// The same, and whether the last character was an underscore.
pub open spec fn camel_from(s: Seq<char>) -> (Seq<char>, bool)
    decreases s.len(),
{
    if s.len() == 0 {
        (Seq::empty(), false)
    } else {
        let h = camel_from(s.drop_last());
        if s.last() == '_' {
            (h.0, true)
        } else if h.1 {
            (h.0 + text::upper_chars(s.last()), false)
        } else {
            (h.0.push(s.last()), false)
        }
    }
}

/// `snake_case` as `camelCase`. Of an ASCII character behind an underscore it is
/// known that the one upper-case character stands for it.
pub fn camel_case_name(name: &str) -> (r: String)
    ensures
        r@ == camel_case(name@),
{
    let chars = text::chars_of(name);
    let mut out = String::new();
    let mut upper_next: bool = false;
    let mut i: usize = 0;
    proof {
        assert(chars@.take(0) =~= Seq::empty());
        assert(out@ =~= Seq::empty());
    }
    while i < chars.len()
        invariant
            i <= chars@.len(),
            (out@, upper_next) == camel_from(chars@.take(i as int)),
        decreases chars@.len() - i,
    {
        proof {
            assert(chars@.take(i + 1).drop_last() =~= chars@.take(i as int));
            assert(chars@.take(i + 1).last() == chars@[i as int]);
        }
        let ch = chars[i];
        if ch == '_' {
            upper_next = true;
        } else if upper_next {
            let raised = text::to_upper_char(ch);
            out = text::join2(out.as_str(), raised.as_str());
            upper_next = false;
        } else {
            out.push(ch);
        }
        i += 1;
    }
    assert(chars@.take(chars@.len() as int) =~= chars@);
    out
}

/// A name without underscores is its own camel case.
pub proof fn law_camel_case_of_plain_name(s: Seq<char>)
    requires
        forall|i: int| 0 <= i < s.len() ==> #[trigger] s[i] != '_',
    ensures
        camel_case(s) == s,
        !camel_from(s).1,
    decreases s.len(),
{
    if s.len() > 0 {
        let d = s.drop_last();
        assert forall|i: int| 0 <= i < d.len() implies #[trigger] d[i] != '_' by {
            assert(d[i] == s[i]);
        }
        law_camel_case_of_plain_name(d);
        assert(s[s.len() - 1] != '_');
        assert(d.push(s.last()) =~= s);
    } else {
        assert(s =~= Seq::empty());
    }
}

/// Whether a text becomes a number: `0`, or digits that do not begin with `0`.
pub open spec fn java_number(s: Seq<char>) -> bool {
    s == "0"@ || (s.len() > 0 && s[0] != '0' && text::all_digits(s))
}

/// Whether a text becomes a number. Leading zeros keep it a text.
pub fn is_java_number(value: &str) -> (r: bool)
    ensures
        r == java_number(value@),
{
    if text::same(value, "0") {
        return true;
    }
    let chars = text::chars_of(value);
    if chars.len() == 0 || chars[0] == '0' {
        return false;
    }
    let mut i: usize = 0;
    while i < chars.len()
        invariant
            i <= chars@.len(),
            chars@ == value@,
            value@ != "0"@,
            forall|k: int| 0 <= k < i ==> text::is_digit(#[trigger] chars@[k]),
        decreases chars@.len() - i,
    {
        let v: u32 = chars[i] as u32;
        if v < 48 || v > 57 {
            assert(!text::is_digit(chars@[i as int]));
            return false;
        }
        i += 1;
    }
    true
}

/// How a date is written.
pub open spec fn date_format() -> Seq<char> {
    "%Y-%m-%d %H:%M:%S"@
}

/// How a date with an optional fraction of a second is written.
pub open spec fn fraction_format() -> Seq<char> {
    "%Y-%m-%d %H:%M:%S%.f"@
}

/// A text as JSON, given the point in time that it stands for.
pub open spec fn text_json(s: Seq<char>, millis: Option<i64>) -> JsonV {
    match millis {
        Some(m) => JsonV::Int(m as int),
        None => if java_number(s) {
            match text::signed_number(s, i64::MIN as int, i64::MAX as int) {
                Some(v) => JsonV::Int(v),
                None => JsonV::Str(s),
            }
        } else {
            JsonV::Str(s)
        },
    }
}

/// A date as JSON, given the point in time that it stands for, else its text.
pub open spec fn date_json(millis: Option<i64>, fallback: Seq<char>) -> JsonV {
    match millis {
        Some(m) => JsonV::Int(m as int),
        None => JsonV::Str(fallback),
    }
}

/// Whether `millis` is a point in time that a wall-clock time, where there is one,
/// stands for in a zone.
pub open spec fn stands_for(zone: ZoneV, wall: Option<i64>, millis: Option<i64>) -> bool {
    match wall {
        Some(w) => maps_to(zone, w, millis),
        None => millis is None,
    }
}

/// The whole seconds of a time of day.
pub open spec fn whole_seconds(t: Seq<char>) -> Seq<char> {
    if t.len() > 8 { t.take(8) } else { t }
}

/// The whole seconds of a date with a time of day.
pub open spec fn without_fraction(t: Seq<char>) -> Seq<char>
    decreases t.len(),
{
    if t.len() == 0 {
        t
    } else if t[0] == '.' {
        Seq::empty()
    } else {
        seq![t[0]] + without_fraction(t.skip(1))
    }
}

/// Whether `out` is what a field becomes in a zone. For all zones but the machine's
/// there is exactly one such value.
pub open spec fn becomes(zone: ZoneV, f: FieldV, out: JsonV) -> bool
    decreases f,
{
    match f {
        FieldV::Null => out == JsonV::Null,
        FieldV::Bool(b) => out == JsonV::Bool(b),
        FieldV::Int8(v) => out == JsonV::Int(v as int),
        FieldV::Int16(v) => out == JsonV::Int(v as int),
        FieldV::Int32(v) => out == JsonV::Int(v as int),
        FieldV::Int64(v) => out == JsonV::Int(v as int),
        FieldV::UInt8(v) => out == JsonV::Int(v as int),
        FieldV::UInt16(v) => out == JsonV::Int(v as int),
        FieldV::UInt32(v) => out == JsonV::Int(v as int),
        FieldV::UInt64(v) => out == JsonV::Int(v as int),
        FieldV::Float32(_, w) => out == float_json(w),
        FieldV::Float64(t) => out == float_json(t),
        FieldV::Decimal(t) => out == JsonV::Str(t),
        FieldV::String(s) => exists|m: Option<i64>|
            #[trigger] stands_for(zone, naive_millis(s, date_format()), m) && out == text_json(s, m),
        FieldV::Date(d) => exists|m: Option<i64>|
            #[trigger] stands_for(zone, naive_millis(d + " 00:00:00"@, date_format()), m) && out == date_json(m, d),
        FieldV::DateTime(t) => exists|m: Option<i64>|
            #[trigger] stands_for(zone, naive_millis(t, fraction_format()), m) && out == date_json(
                m,
                without_fraction(t),
            ),
        FieldV::TimestampTz(_, m) => out == JsonV::Int(m as int),
        FieldV::Time(t) => out == JsonV::Str(whole_seconds(t)),
        FieldV::Duration(v) => out == JsonV::Int(v as int),
        FieldV::Bytes(b) => out == JsonV::Str(hex_text(b)),
        FieldV::Json(j) => out == j,
        FieldV::Array(v) => out matches JsonV::Array(a) && all_become(zone, v, a),
        FieldV::Row(v) => out matches JsonV::Array(a) && all_become(zone, v, a),
    }
}

/// Whether values are what fields become in a zone, one for each.
pub open spec fn all_become(zone: ZoneV, v: Seq<FieldV>, out: Seq<JsonV>) -> bool
    decreases v,
{
    if v.len() == 0 {
        out.len() == 0
    } else {
        out.len() == v.len() && all_become(zone, v.drop_last(), out.drop_last()) && becomes(zone, v.last(), out.last())
    }
}

fn millis_of(zone: &ServerTz, value: &str, format: &str) -> (r: Option<i64>)
    ensures
        stands_for(zone@, naive_millis(value@, format@), r),
{
    match parse_naive(value, format) {
        Some(wall) => zone.naive_to_millis(wall),
        None => None,
    }
}

fn cut_fraction(t: &str) -> (r: String)
    ensures
        r@ == without_fraction(t@),
{
    let chars = text::chars_of(t);
    let mut n: usize = 0;
    proof {
        assert(chars@.skip(0) =~= chars@);
        assert(chars@.take(0) + without_fraction(chars@.skip(0)) =~= without_fraction(chars@));
    }
    while n < chars.len() && chars[n] != '.'
        invariant
            n <= chars@.len(),
            without_fraction(chars@) == chars@.take(n as int) + without_fraction(chars@.skip(n as int)),
        decreases chars@.len() - n,
    {
        proof {
            let s = chars@.skip(n as int);
            assert(s.skip(1) =~= chars@.skip(n + 1));
            assert(chars@.take(n as int) + (seq![s[0]] + without_fraction(s.skip(1))) =~= chars@.take(n + 1)
                + without_fraction(chars@.skip(n + 1)));
        }
        n += 1;
    }
    proof {
        assert(chars@.take(n as int) + Seq::<char>::empty() =~= chars@.take(n as int));
        assert(chars@.take(n as int) =~= chars@.subrange(0, n as int));
    }
    text::text_between(&chars, 0, n)
}

fn first_eight(t: &str) -> (r: String)
    ensures
        r@ == whole_seconds(t@),
{
    let chars = text::chars_of(t);
    if chars.len() > 8 {
        assert(chars@.take(8) =~= chars@.subrange(0, 8));
        text::text_between(&chars, 0, 8)
    } else {
        text::owned(t)
    }
}

fn date_value(millis: Option<i64>, fallback: String) -> (r: Json)
    ensures
        r@ == date_json(millis, fallback@),
{
    match millis {
        Some(m) => Json::Int(m),
        None => Json::Str(fallback),
    }
}

/// A text as JSON, given the point in time that it stands for.
pub fn text_value(s: &str, millis: Option<i64>) -> (r: Json)
    ensures
        r@ == text_json(s@, millis),
{
    match millis {
        Some(m) => Json::Int(m),
        None => {
            if is_java_number(s) {
                match text::parse_i64(s) {
                    Some(v) => Json::Int(v),
                    None => Json::Str(text::owned(s)),
                }
            } else {
                Json::Str(text::owned(s))
            }
        },
    }
}

/// What a text becomes in a zone: a strict date its epoch milliseconds, digits a
/// number, anything else itself.
pub fn convert_string(zone: &ServerTz, s: &str) -> (r: Json)
    ensures
        becomes(zone@, FieldV::String(s@), r@),
{
    let millis = millis_of(zone, s, "%Y-%m-%d %H:%M:%S");
    assert(stands_for(zone@, naive_millis(s@, date_format()), millis));
    text_value(s, millis)
}

fn convert_fields(zone: &ServerTz, v: &Vec<Field>) -> (r: Vec<Json>)
    ensures
        all_become(zone@, fields_view(v@), json::items_view(r@)),
    decreases v,
{
    let ghost fv = fields_view(v@);
    let mut out: Vec<Json> = Vec::new();
    let mut i: usize = 0;
    proof {
        assert(fv.take(0) =~= Seq::empty());
        assert(json::items_view(out@) =~= Seq::empty());
    }
    while i < v.len()
        invariant
            i <= v@.len(),
            fv == fields_view(v@),
            all_become(zone@, fv.take(i as int), json::items_view(out@)),
        decreases v@.len() - i,
    {
        let ghost prev = out@;
        proof {
            assert(fv.take(i + 1).drop_last() =~= fv.take(i as int));
            assert(fv.take(i + 1).last() == v@[i as int]@);
            lemma_all_become_len(zone@, fv.take(i as int), json::items_view(out@));
        }
        let j = convert_field(zone, &v[i]);
        let ghost jv = j@;
        out.push(j);
        proof {
            assert(json::items_view(out@) =~= json::items_view(prev).push(jv));
            assert(json::items_view(out@).drop_last() =~= json::items_view(prev));
        }
        i += 1;
    }
    assert(fv.take(fv.len() as int) =~= fv);
    out
}

proof fn lemma_all_become_len(zone: ZoneV, v: Seq<FieldV>, out: Seq<JsonV>)
    requires
        all_become(zone, v, out),
    ensures
        out.len() == v.len(),
{
}

/// What a field becomes in a zone.
pub fn convert_field(zone: &ServerTz, f: &Field) -> (r: Json)
    ensures
        becomes(zone@, f@, r@),
    decreases f,
{
    proof {
        lemma_field_parts(*f);
    }
    match f {
        Field::Null => Json::Null,
        Field::Bool(b) => Json::Bool(*b),
        Field::Int8(v) => Json::Int(*v as i64),
        Field::Int16(v) => Json::Int(*v as i64),
        Field::Int32(v) => Json::Int(*v as i64),
        Field::Int64(v) => Json::Int(*v),
        Field::UInt8(v) => Json::UInt(*v as u64),
        Field::UInt16(v) => Json::UInt(*v as u64),
        Field::UInt32(v) => Json::UInt(*v as u64),
        Field::UInt64(v) => Json::UInt(*v),
        Field::Float32(_, w) => float_to_json(w.as_str()),
        Field::Float64(t) => float_to_json(t.as_str()),
        Field::Decimal(t) => Json::Str(t.clone()),
        Field::String(s) => convert_string(zone, s.as_str()),
        Field::Date(d) => {
            let midnight = text::join2(d.as_str(), " 00:00:00");
            let millis = millis_of(zone, midnight.as_str(), "%Y-%m-%d %H:%M:%S");
            assert(stands_for(zone@, naive_millis(d@ + " 00:00:00"@, date_format()), millis));
            date_value(millis, d.clone())
        },
        Field::DateTime(t) => {
            let millis = millis_of(zone, t.as_str(), "%Y-%m-%d %H:%M:%S%.f");
            assert(stands_for(zone@, naive_millis(t@, fraction_format()), millis));
            date_value(millis, cut_fraction(t.as_str()))
        },
        Field::TimestampTz(_, m) => Json::Int(*m),
        Field::Time(t) => Json::Str(first_eight(t.as_str())),
        Field::Duration(v) => Json::Int(*v),
        Field::Bytes(b) => Json::Str(hex_of(b)),
        Field::Json(j) => j.copy(),
        Field::Array(v) => {
            let r = Json::Array(convert_fields(zone, v));
            proof {
                json::lemma_json_parts(r);
            }
            r
        },
        Field::Row(v) => {
            let r = Json::Array(convert_fields(zone, v));
            proof {
                json::lemma_json_parts(r);
            }
            r
        },
    }
}

/// What a row's fields become in a zone.
pub fn convert_row(zone: &ServerTz, fields: &Vec<Field>) -> (r: Vec<Json>)
    ensures
        all_become(zone@, fields_view(fields@), json::items_view(r@)),
{
    convert_fields(zone, fields)
}

/// The text of a field as a partition key; a field of another type has none.
pub open spec fn key_text(f: FieldV) -> Seq<char> {
    match f {
        FieldV::String(s) => s,
        FieldV::Bool(_) => shown(f),
        FieldV::Int8(_) => shown(f),
        FieldV::Int16(_) => shown(f),
        FieldV::Int32(_) => shown(f),
        FieldV::Int64(_) => shown(f),
        FieldV::UInt8(_) => shown(f),
        FieldV::UInt16(_) => shown(f),
        FieldV::UInt32(_) => shown(f),
        FieldV::UInt64(_) => shown(f),
        FieldV::Float32(_, _) => shown(f),
        FieldV::Float64(_) => shown(f),
        _ => Seq::empty(),
    }
}

/// The text of a field as a partition key.
pub fn field_to_key(f: &Field) -> (r: String)
    ensures
        r@ == key_text(f@),
{
    match f {
        Field::String(s) => s.clone(),
        Field::Bool(_) => f.show(),
        Field::Int8(_) => f.show(),
        Field::Int16(_) => f.show(),
        Field::Int32(_) => f.show(),
        Field::Int64(_) => f.show(),
        Field::UInt8(_) => f.show(),
        Field::UInt16(_) => f.show(),
        Field::UInt32(_) => f.show(),
        Field::UInt64(_) => f.show(),
        Field::Float32(_, _) => f.show(),
        Field::Float64(_) => f.show(),
        _ => String::new(),
    }
}

// ---------------------------------------------------------------------------
// What holds of every conversion
// ---------------------------------------------------------------------------

/// A field becomes the same value every time, except for dates in the machine's
/// zone.
pub proof fn law_conversion_is_a_function(zone: ZoneV, f: FieldV, a: JsonV, b: JsonV)
    ensures
        !(zone is Local) && becomes(zone, f, a) && becomes(zone, f, b) ==> a == b,
    decreases f,
{
    if !(zone is Local) && becomes(zone, f, a) && becomes(zone, f, b) {
        match f {
            FieldV::Array(v) => {
                lemma_all_equal(zone, v, a->Array_0, b->Array_0);
            },
            FieldV::Row(v) => {
                lemma_all_equal(zone, v, a->Array_0, b->Array_0);
            },
            _ => {},
        }
    }
}

proof fn lemma_all_equal(zone: ZoneV, v: Seq<FieldV>, a: Seq<JsonV>, b: Seq<JsonV>)
    requires
        !(zone is Local),
        all_become(zone, v, a),
        all_become(zone, v, b),
    ensures
        a == b,
    decreases v,
{
    if v.len() > 0 {
        lemma_all_equal(zone, v.drop_last(), a.drop_last(), b.drop_last());
        law_conversion_is_a_function(zone, v.last(), a.last(), b.last());
        assert(a =~= a.drop_last().push(a.last()));
        assert(b =~= b.drop_last().push(b.last()));
    } else {
        assert(a =~= b);
    }
}

/// A text of digits that does not begin with a zero, and that is no date, becomes
/// the number that it shows, as far as that has 64 bits; a text with a leading zero
/// stays a text.
pub proof fn law_digits_become_numbers(zone: ZoneV, s: Seq<char>, out: JsonV)
    requires
        s.len() > 1,
        text::all_digits(s),
    ensures
        becomes(zone, FieldV::String(s), out) && naive_millis(s, date_format()) is None ==> if s[0] == '0' {
            out == JsonV::Str(s)
        } else {
            text::digits_value(s) <= i64::MAX ==> out == JsonV::Int(text::digits_value(s) as int)
        },
{
    reveal_strlit("0");
    assert("0"@.len() == 1);
    assert(text::is_digit(s[0]));
}

} // verus!
