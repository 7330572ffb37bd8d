//! What texts, lists and fields are like: how texts are split, trimmed and ordered, how
//! numbers are written and read, and how a field is shown.

use vstd::prelude::*;

use crate::json;
use crate::json::JsonV;
use crate::keyed;
use crate::keyed::{index_of, named, ordered, put, Named};
use crate::props;
use crate::props::{assign, lookup, Pairs};
use crate::row::{
    empty_row, hex_digit, hex_text, inspected, inspected_all, joined, quoted_text, shown, shown_all, signed_value,
    FieldV, RowKind,
};
use crate::text;
use crate::text::{
    before, decimal_text, digits_value, has_prefix, has_suffix, last_position, lower_text, signed_number, signed_text,
    split_at_last, split_text, trim_end_by, trim_start_by, trimmed, trimmed_of, unsigned_number, upper_text, whitespace,
};

verus! {

// ---------------------------------------------------------------------------
// Texts
// ---------------------------------------------------------------------------

/// A number is written in the ten digits, the highest first, with a minus sign in front
/// where it is negative.
pub proof fn law_digits(n: nat, d: nat)
    requires
        d < 10,
    ensures
        decimal_text(d).len() == 1 && decimal_text(d)[0] as u32 == '0' as u32 + d,
        n > 0 ==> decimal_text(10 * n + d) == decimal_text(n) + decimal_text(d),
        signed_text(n as int) == decimal_text(n),
        n > 0 ==> signed_text(-(n as int)) == "-"@ + decimal_text(n),
{
    reveal_strlit("-");
    if n > 0 {
        let m = 10 * n + d;
        assert(m / 10 == n && m % 10 == d) by (nonlinear_arith)
            requires
                m == 10 * n + d,
                0 <= d < 10,
        ;
        assert(decimal_text(m) =~= decimal_text(n) + decimal_text(d));
        assert("-"@ =~= seq!['-']);
    }
}

/// Digits are read from the highest to the lowest.
pub proof fn law_digits_value(s: Seq<char>, c: char)
    requires
        '0' as u32 <= c as u32 <= '9' as u32,
    ensures
        digits_value(Seq::empty()) == 0,
        digits_value(s.push(c)) == 10 * digits_value(s) + (c as u32 - '0' as u32),
{
    assert(s.push(c).drop_last() =~= s);
}

/// Whether a text is made of digits, and of one at least.
pub open spec fn is_number(s: Seq<char>) -> bool {
    s.len() > 0 && forall|i: int| 0 <= i < s.len() ==> '0' as u32 <= (#[trigger] s[i]) as u32 <= '9' as u32
}

/// A number is read from digits, with a sign in front or none; a number without a sign may
/// not be negative. What does not fit is no number, and neither is any other text.
pub proof fn law_numbers_are_read(s: Seq<char>, min: int, max: int)
    requires
        min <= 0 <= max,
    ensures
        is_number(s) && digits_value(s) <= max ==> signed_number(s, min, max) == Some(digits_value(s) as int)
            && unsigned_number(s, max as nat) == Some(digits_value(s)),
        is_number(s) && digits_value(s) > max ==> signed_number(s, min, max) is None && unsigned_number(s, max as nat)
            is None,
        is_number(s) && digits_value(s) <= max ==> signed_number("+"@ + s, min, max) == Some(digits_value(s) as int)
            && unsigned_number("+"@ + s, max as nat) == Some(digits_value(s)),
        is_number(s) && -(digits_value(s) as int) >= min ==> signed_number("-"@ + s, min, max) == Some(
            -(digits_value(s) as int),
        ),
        is_number(s) && -(digits_value(s) as int) < min ==> signed_number("-"@ + s, min, max) is None,
        unsigned_number("-"@ + s, max as nat) is None,
        !is_number(s) && (s.len() == 0 || s[0] != '+') ==> unsigned_number(s, max as nat) is None,
        !is_number(s) && (s.len() == 0 || (s[0] != '+' && s[0] != '-')) ==> signed_number(s, min, max) is None,
        !is_number(s) ==> unsigned_number("+"@ + s, max as nat) is None && signed_number("+"@ + s, min, max) is None
            && signed_number("-"@ + s, min, max) is None,
{
    reveal_strlit("+");
    reveal_strlit("-");
    let p = "+"@ + s;
    let m = "-"@ + s;
    assert(p[0] == '+' && m[0] == '-');
    assert(p.skip(1) =~= s && m.skip(1) =~= s);
    assert(!text::is_digit(m[0]));
    if is_number(s) {
        assert(text::all_digits(s)) by {
            assert forall|i: int| 0 <= i < s.len() implies text::is_digit(#[trigger] s[i]) by {
            }
        }
        assert('0' as u32 <= s[0] as u32);
    } else if s.len() > 0 {
        let i = choose|i: int| 0 <= i < s.len() && !('0' as u32 <= (#[trigger] s[i]) as u32 <= '9' as u32);
        assert(!text::is_digit(s[i]));
    }
}

/// Splitting a text cuts it at the separator: the parts hold none, and put together again
/// with it they are the text.
pub proof fn law_splitting(s: Seq<char>, sep: char)
    ensures
        split_text(s, sep).len() > 0,
        joined(split_text(s, sep), seq![sep]) == s,
        forall|i: int| 0 <= i < split_text(s, sep).len() ==> !(#[trigger] split_text(s, sep)[i]).contains(sep),
    decreases s.len(),
{
    let r = split_text(s, sep);
    if s.len() == 0 {
        assert(joined(r, seq![sep]) =~= s);
    } else {
        let h = split_text(s.drop_last(), sep);
        law_splitting(s.drop_last(), sep);
        let c = s.last();
        if c == sep {
            assert(r.drop_last() =~= h);
            assert(r.len() >= 2);
            assert(joined(r, seq![sep]) =~= s.drop_last().push(sep));
        } else {
            let grown = h.last().push(c);
            assert(r.drop_last() =~= h.drop_last());
            assert(r.last() == grown);
            assert forall|i: int| 0 <= i < r.len() implies !(#[trigger] r[i]).contains(sep) by {
                if i < h.len() - 1 {
                    assert(r[i] == h[i]);
                } else {
                    assert(!h[h.len() - 1].contains(sep));
                    crate::coordination_laws::lemma_push_contains(h.last(), c, sep);
                }
            }
            if h.len() == 1 {
                assert(r[0] == grown);
                assert(h[0] == h.last());
                assert(joined(r, seq![sep]) =~= s);
            } else {
                assert(joined(r, seq![sep]) =~= joined(h.drop_last(), seq![sep]) + seq![sep] + grown);
                assert(joined(h, seq![sep]) =~= joined(h.drop_last(), seq![sep]) + seq![sep] + h.last());
                assert(joined(r, seq![sep]) =~= joined(h, seq![sep]).push(c));
            }
        }
        assert(s =~= s.drop_last().push(c));
    }
}

/// Putting texts together: the parts in their order, with the separator between each two.
pub proof fn law_joining(parts: Seq<Seq<char>>, sep: Seq<char>, last: Seq<char>)
    ensures
        joined(Seq::empty(), sep).len() == 0,
        joined(seq![last], sep) == last,
        parts.len() > 0 ==> joined(parts.push(last), sep) == joined(parts, sep) + sep + last,
{
    assert(parts.push(last).drop_last() =~= parts);
}

/// Trimming takes what it drops off both ends, and nothing else: what is left starts and
/// ends with something else, and what was taken off is to be dropped.
pub proof fn law_trimming(s: Seq<char>, drop: spec_fn(char) -> bool)
    ensures
        ({
            let r = trim_end_by(trim_start_by(s, drop), drop);
            &&& r.len() > 0 ==> !drop(r[0]) && !drop(r.last())
            &&& exists|a: int, b: int|
                0 <= a <= b <= s.len() && r == #[trigger] s.subrange(a, b) && (forall|i: int|
                    0 <= i < a || b <= i < s.len() ==> drop(#[trigger] s[i]))
        }),
{
    let t = trim_start_by(s, drop);
    let r = trim_end_by(t, drop);
    let a = lemma_start(s, drop);
    let k = lemma_end(t, drop);
    let b = a + k;
    assert(r =~= s.subrange(a, b));
    assert forall|i: int| 0 <= i < a || b <= i < s.len() implies drop(#[trigger] s[i]) by {
        if i >= b {
            assert(t[i - a] == s[i]);
        }
    }
    if r.len() > 0 {
        assert(r[0] == t[0]);
    }
}

proof fn lemma_start(s: Seq<char>, drop: spec_fn(char) -> bool) -> (a: int)
    ensures
        0 <= a <= s.len(),
        trim_start_by(s, drop) == s.subrange(a, s.len() as int),
        forall|i: int| 0 <= i < a ==> drop(#[trigger] s[i]),
        a < s.len() ==> !drop(s[a]),
    decreases s.len(),
{
    if s.len() > 0 && drop(s[0]) {
        let k = lemma_start(s.skip(1), drop);
        assert(s.skip(1).subrange(k, s.len() - 1) =~= s.subrange(k + 1, s.len() as int));
        assert forall|i: int| 0 <= i < k + 1 implies drop(#[trigger] s[i]) by {
            if i > 0 {
                assert(s.skip(1)[i - 1] == s[i]);
            }
        }
        if k + 1 < s.len() {
            assert(s.skip(1)[k] == s[k + 1]);
        }
        k + 1
    } else {
        assert(s.subrange(0, s.len() as int) =~= s);
        0
    }
}

proof fn lemma_end(s: Seq<char>, drop: spec_fn(char) -> bool) -> (b: int)
    ensures
        0 <= b <= s.len(),
        trim_end_by(s, drop) == s.subrange(0, b),
        forall|i: int| b <= i < s.len() ==> drop(#[trigger] s[i]),
        b > 0 ==> !drop(s[b - 1]),
    decreases s.len(),
{
    if s.len() > 0 && drop(s.last()) {
        let d = s.drop_last();
        let b = lemma_end(d, drop);
        assert(d.subrange(0, b) =~= s.subrange(0, b));
        assert forall|i: int| b <= i < s.len() implies drop(#[trigger] s[i]) by {
            if i < d.len() {
                assert(d[i] == s[i]);
            }
        }
        if b > 0 {
            assert(d[b - 1] == s[b - 1]);
        }
        b
    } else {
        assert(s.subrange(0, s.len() as int) =~= s);
        s.len() as int
    }
}

/// A trimmed text neither starts nor ends with white space; trimming it of a character, it
/// neither starts nor ends with that.
pub proof fn law_trimmed(s: Seq<char>, x: char)
    ensures
        trimmed(s).len() > 0 ==> !whitespace(trimmed(s)[0]) && !whitespace(trimmed(s).last()),
        s.len() > 0 && !whitespace(s[0]) && !whitespace(s.last()) ==> trimmed(s) == s,
        trimmed_of(s, x).len() > 0 ==> trimmed_of(s, x)[0] != x && trimmed_of(s, x).last() != x,
        s.len() > 0 && s[0] != x && s.last() != x ==> trimmed_of(s, x) == s,
{
    law_trimming(s, |c: char| whitespace(c));
    law_trimming(s, text::being(x));
}

/// The last place of a character in a text; what stands in front of it and behind it.
pub proof fn law_last_part(head: Seq<char>, c: char, tail: Seq<char>)
    requires
        !tail.contains(c),
    ensures
        last_position(head + seq![c] + tail, c) == Some(head.len() as int),
        split_at_last(head + seq![c] + tail, c) == Some((head, tail)),
        !head.contains(c) ==> last_position(head, c) is None && split_at_last(head, c) is None,
{
    let s = head + seq![c] + tail;
    lemma_last_position(s, c, head.len() as int);
    assert(s.take(head.len() as int) =~= head);
    assert(s.skip((head.len() + 1) as int) =~= tail);
    if !head.contains(c) {
        lemma_no_position(head, c);
    }
}

proof fn lemma_last_position(s: Seq<char>, c: char, i: int)
    requires
        0 <= i < s.len(),
        s[i] == c,
        forall|k: int| i < k < s.len() ==> (#[trigger] s[k]) != c,
    ensures
        last_position(s, c) == Some(i),
    decreases s.len(),
{
    if i < s.len() - 1 {
        assert(s[s.len() - 1] != c);
        assert forall|k: int| i < k < s.drop_last().len() implies (#[trigger] s.drop_last()[k]) != c by {
            assert(s[k] != c);
        }
        lemma_last_position(s.drop_last(), c, i);
    }
}

proof fn lemma_no_position(s: Seq<char>, c: char)
    requires
        !s.contains(c),
    ensures
        last_position(s, c) is None,
    decreases s.len(),
{
    if s.len() > 0 {
        assert(s.contains(s[s.len() - 1]));
        assert(!s.drop_last().contains(c)) by {
            if s.drop_last().contains(c) {
                let i = choose|i: int| 0 <= i < s.drop_last().len() && s.drop_last()[i] == c;
                assert(s[i] == c);
            }
        }
        lemma_no_position(s.drop_last(), c);
    }
}

/// What a text starts with, ends with, and holds between two texts.
pub proof fn law_parts_of_a_text(p: Seq<char>, m: Seq<char>, q: Seq<char>, s: Seq<char>)
    ensures
        has_prefix(p + m, p),
        has_suffix(m + q, q),
        text::between(p + m + q, p, q) == Some(m),
        has_prefix(s, p) <==> exists|r: Seq<char>| s == #[trigger] (p + r),
        has_suffix(s, q) <==> exists|r: Seq<char>| s == #[trigger] (r + q),
        text::between(s, p, q) is Some ==> s == p + text::between(s, p, q)->0 + q,
{
    assert((p + m).take(p.len() as int) =~= p);
    assert((m + q).skip(m.len() as int) =~= q);
    let t = p + m + q;
    assert(t.take(p.len() as int) =~= p);
    assert(t.skip(p.len() as int) =~= m + q);
    assert(t.subrange(p.len() as int, t.len() - q.len()) =~= m);
    if has_prefix(s, p) {
        assert(s =~= p + s.skip(p.len() as int));
    }
    if exists|r: Seq<char>| s == #[trigger] (p + r) {
        let r = choose|r: Seq<char>| s == #[trigger] (p + r);
        assert((p + r).take(p.len() as int) =~= p);
    }
    if has_suffix(s, q) {
        assert(s =~= s.take(s.len() - q.len()) + q);
    }
    if exists|r: Seq<char>| s == #[trigger] (r + q) {
        let r = choose|r: Seq<char>| s == #[trigger] (r + q);
        assert((r + q).skip(r.len() as int) =~= q);
    }
    if has_prefix(s, p) && has_suffix(s.skip(p.len() as int), q) {
        let r = s.skip(p.len() as int);
        assert(r.skip(r.len() - q.len()) =~= s.skip(s.len() - q.len()));
        assert(s =~= p + s.subrange(p.len() as int, s.len() - q.len()) + q);
    }
}

/// Texts are ordered as in a dictionary: by the first place where they differ, and a text
/// that is the start of another comes before it.
pub proof fn law_order_of_texts(a: Seq<char>, b: Seq<char>, n: int)
    requires
        0 <= n <= a.len(),
        n <= b.len(),
        forall|i: int| 0 <= i < n ==> (#[trigger] a[i]) == b[i],
        n < a.len() && n < b.len() ==> a[n] != b[n],
    ensures
        n < a.len() && n < b.len() ==> (before(a, b) <==> (a[n] as u32) < (b[n] as u32)),
        n == a.len() ==> (before(a, b) <==> a.len() < b.len()),
        n == b.len() ==> !before(a, b),
    decreases n,
{
    if n > 0 {
        assert(a[0] == b[0]);
        let x = a.skip(1);
        let y = b.skip(1);
        assert forall|i: int| 0 <= i < n - 1 implies (#[trigger] x[i]) == y[i] by {
            assert(a[i + 1] == b[i + 1]);
        }
        law_order_of_texts(x, y, n - 1);
    } else if n < a.len() && n < b.len() {
        assert(a[0] != b[0]);
        if before(a, b) {
            assert((a[0] as u32) < (b[0] as u32));
        }
    }
}

/// Lower and upper case: letters of one case are written in the other, and everything
/// else stays.
pub proof fn law_letter_case(s: Seq<char>, i: int)
    requires
        forall|k: int| 0 <= k < s.len() ==> (#[trigger] s[k] as u32) < 128,
        0 <= i < s.len(),
    ensures
        lower_text(s).len() == s.len() && upper_text(s).len() == s.len(),
        'A' as u32 <= s[i] as u32 <= 'Z' as u32 ==> lower_text(s)[i] as u32 == s[i] as u32 + 32,
        !('A' as u32 <= s[i] as u32 <= 'Z' as u32) ==> lower_text(s)[i] == s[i],
        'a' as u32 <= s[i] as u32 <= 'z' as u32 ==> upper_text(s)[i] as u32 == s[i] as u32 - 32,
        !('a' as u32 <= s[i] as u32 <= 'z' as u32) ==> upper_text(s)[i] == s[i],
{
    assert(text::ascii_only(s));
}

/// Bytes that are a text are read as that text.
pub proof fn law_lossy_text(b: Seq<u8>)
    requires
        vstd::utf8::valid_utf8(b),
    ensures
        text::lossy_text(b) == vstd::utf8::decode_utf8(b),
{
}

/// A number of a document is read where it fits.
pub proof fn law_numbers_of_documents(v: JsonV, i: int)
    ensures
        !(v is Int) ==> json::unsigned_of(v) is None && json::signed_of(v) is None,
        0 <= i <= u64::MAX ==> (json::unsigned_of(JsonV::Int(i)) matches Some(n) && n == i),
        i < 0 || i > u64::MAX ==> json::unsigned_of(JsonV::Int(i)) is None,
        i64::MIN <= i <= i64::MAX ==> (json::signed_of(JsonV::Int(i)) matches Some(n) && n == i),
        i < i64::MIN || i > i64::MAX ==> json::signed_of(JsonV::Int(i)) is None,
{
}

// ---------------------------------------------------------------------------
// Lists by name and by key
// ---------------------------------------------------------------------------

/// A value is found under its name: the first one of that name, where there is one.
pub proof fn law_found_by_name<S: Named>(s: Seq<S>, name: Seq<char>, i: int)
    requires
        0 <= i < s.len(),
        s[i].name() == name,
        forall|k: int| 0 <= k < i ==> (#[trigger] s[k]).name() != name,
    ensures
        index_of(s, name) == Some(i),
        named(s, name) == Some(s[i]),
{
    keyed::lemma_index_of(s, name);
}

/// Putting a value in replaces the one of its name, or adds it at the end.
pub proof fn law_putting<S: Named>(s: Seq<S>, e: S)
    ensures
        named(put(s, e), e.name()) == Some(e),
        forall|n: Seq<char>| n != e.name() ==> #[trigger] named(put(s, e), n) == named(s, n),
        index_of(s, e.name()) is None ==> put(s, e) == s.push(e),
        index_of(s, e.name()) matches Some(i) ==> put(s, e) == s.update(i, e),
{
    keyed::lemma_put(s, e);
}

/// The setting of a key is the value of the first pair with that key.
pub proof fn law_settings(p: Pairs, key: Seq<char>, i: int)
    requires
        0 <= i < p.len(),
        p[i].0 == key,
        forall|k: int| 0 <= k < i ==> (#[trigger] p[k]).0 != key,
    ensures
        lookup(p, key) == Some(p[i].1),
    decreases p.len(),
{
    if i > 0 {
        assert(p[0].0 != key);
        let q = p.skip(1);
        assert forall|k: int| 0 <= k < i - 1 implies (#[trigger] q[k]).0 != key by {
            assert(p[k + 1].0 != key);
        }
        law_settings(q, key, i - 1);
    }
}

/// A key that no pair has is not set.
pub proof fn law_missing_settings(p: Pairs, key: Seq<char>)
    requires
        forall|k: int| 0 <= k < p.len() ==> (#[trigger] p[k]).0 != key,
    ensures
        lookup(p, key) is None,
        assign(p, key, Seq::empty()) == p.push((key, Seq::empty())),
    decreases p.len(),
{
    if p.len() > 0 {
        assert(p[0].0 != key);
        let q = p.skip(1);
        assert forall|k: int| 0 <= k < q.len() implies (#[trigger] q[k]).0 != key by {
            assert(p[k + 1].0 != key);
        }
        law_missing_settings(q, key);
        assert(seq![p[0]] + q.push((key, Seq::empty())) =~= p.push((key, Seq::empty())));
    } else {
        assert(p.push((key, Seq::empty())) =~= seq![(key, Seq::<char>::empty())]);
    }
}

/// Setting a key sets it to the value and leaves the other keys alone.
pub proof fn law_setting(p: Pairs, key: Seq<char>, value: Seq<char>)
    ensures
        lookup(assign(p, key, value), key) == Some(value),
        forall|k: Seq<char>| k != key ==> #[trigger] lookup(assign(p, key, value), k) == lookup(p, k),
{
    props::lemma_assign(p, key, value);
}

// ---------------------------------------------------------------------------
// Fields
// ---------------------------------------------------------------------------

/// Which fields hold a signed number, and which.
pub proof fn law_signed_fields(f: FieldV)
    ensures
        f matches FieldV::Int8(v) ==> (signed_value(f) matches Some(n) && n == v),
        f matches FieldV::Int16(v) ==> (signed_value(f) matches Some(n) && n == v),
        f matches FieldV::Int32(v) ==> (signed_value(f) matches Some(n) && n == v),
        f matches FieldV::Int64(v) ==> (signed_value(f) matches Some(n) && n == v),
        !(f is Int8) && !(f is Int16) && !(f is Int32) && !(f is Int64) ==> signed_value(f) is None,
{
}

/// A new row has a kind, no origin, and nothing in its fields.
pub proof fn law_new_rows(kind: RowKind, n: nat, i: int)
    requires
        0 <= i < n,
    ensures
        empty_row(kind, n).kind == kind && empty_row(kind, n).origin is None,
        empty_row(kind, n).fields.len() == n && empty_row(kind, n).fields[i] is Null,
{
}

/// Bytes are shown in hexadecimal digits, two for each byte, the higher one first.
pub proof fn law_hexadecimal(b: Seq<u8>, i: int)
    requires
        0 <= i < b.len(),
    ensures
        hex_text(b).len() == 2 * b.len(),
        is_hex(hex_text(b)[2 * i], b[i] as int / 16),
        is_hex(hex_text(b)[2 * i + 1], b[i] as int % 16),
    decreases b.len(),
{
    let d = b.drop_last();
    if d.len() > 0 {
        law_hexadecimal(d, if i < d.len() { i } else { 0 });
    }
    assert(hex_text(d).len() == 2 * d.len()) by {
        if d.len() == 0 {
            assert(hex_text(d).len() == 0);
        }
    }
    let h = (b.last() / 16) as int;
    let l = (b.last() % 16) as int;
    assert(0 <= h < 16 && 0 <= l < 16);
    assert(is_hex(hex_digit(h), h));
    assert(is_hex(hex_digit(l), l));
    if i < d.len() {
        assert(d[i] == b[i]);
    } else {
        assert(b[i] == b.last());
    }
}

/// Whether a character is the hexadecimal digit of a number.
pub open spec fn is_hex(c: char, n: int) -> bool {
    &&& 0 <= n < 10 ==> c as u32 == '0' as u32 + n
    &&& 10 <= n < 16 ==> c as u32 == 'a' as u32 + (n - 10)
}

/// How a field that holds one value is shown.
pub proof fn law_shown(f: FieldV)
    ensures
        f is Null ==> shown(f) == "NULL"@,
        f matches FieldV::Bool(v) ==> shown(f) == if v { "true"@ } else { "false"@ },
        f matches FieldV::Int8(v) ==> shown(f) == signed_text(v as int),
        f matches FieldV::Int16(v) ==> shown(f) == signed_text(v as int),
        f matches FieldV::Int32(v) ==> shown(f) == signed_text(v as int),
        f matches FieldV::Int64(v) ==> shown(f) == signed_text(v as int),
        f matches FieldV::UInt8(v) ==> shown(f) == decimal_text(v as nat),
        f matches FieldV::UInt16(v) ==> shown(f) == decimal_text(v as nat),
        f matches FieldV::UInt32(v) ==> shown(f) == decimal_text(v as nat),
        f matches FieldV::UInt64(v) ==> shown(f) == decimal_text(v as nat),
        f matches FieldV::Float32(t, _) ==> shown(f) == t,
        f matches FieldV::Float64(t) ==> shown(f) == t,
        f matches FieldV::Decimal(t) ==> shown(f) == t,
        f matches FieldV::String(t) ==> shown(f) == t,
        f matches FieldV::Date(t) ==> shown(f) == t,
        f matches FieldV::Time(t) ==> shown(f) == t,
        f matches FieldV::DateTime(t) ==> shown(f) == t,
        f matches FieldV::TimestampTz(t, _) ==> shown(f) == t,
        f matches FieldV::Duration(v) ==> shown(f) == signed_text(v as int),
        f matches FieldV::Bytes(b) ==> shown(f) == hex_text(b),
        f matches FieldV::Json(j) ==> shown(f) == json::json_text(j),
        f matches FieldV::Array(v) ==> shown(f) == "["@ + joined(v.map_values(|g: FieldV| shown(g)), ", "@) + "]"@,
        f matches FieldV::Row(v) ==> shown(f) == "("@ + joined(v.map_values(|g: FieldV| shown(g)), ", "@) + ")"@,
{
    match f {
        FieldV::Array(v) => {
            lemma_shown_all(v);
        },
        FieldV::Row(v) => {
            lemma_shown_all(v);
        },
        _ => {},
    }
}

proof fn lemma_shown_all(v: Seq<FieldV>)
    ensures
        shown_all(v) == v.map_values(|g: FieldV| shown(g)),
    decreases v.len(),
{
    if v.len() > 0 {
        lemma_shown_all(v.drop_last());
    }
    assert(shown_all(v) =~= v.map_values(|g: FieldV| shown(g)));
}

proof fn lemma_inspected_all(v: Seq<FieldV>)
    ensures
        inspected_all(v) == v.map_values(|g: FieldV| inspected(g)),
    decreases v.len(),
{
    if v.len() > 0 {
        lemma_inspected_all(v.drop_last());
    }
    assert(inspected_all(v) =~= v.map_values(|g: FieldV| inspected(g)));
}

/// How a field is shown for inspection: its type, and in brackets what it holds.
pub proof fn law_inspected(f: FieldV)
    ensures
        f is Null ==> inspected(f) == "Null"@,
        f is Bool ==> inspected(f) == "Bool"@ + "("@ + shown(f) + ")"@,
        f is Int8 ==> inspected(f) == "Int8"@ + "("@ + shown(f) + ")"@,
        f is Int16 ==> inspected(f) == "Int16"@ + "("@ + shown(f) + ")"@,
        f is Int32 ==> inspected(f) == "Int32"@ + "("@ + shown(f) + ")"@,
        f is Int64 ==> inspected(f) == "Int64"@ + "("@ + shown(f) + ")"@,
        f is UInt8 ==> inspected(f) == "UInt8"@ + "("@ + shown(f) + ")"@,
        f is UInt16 ==> inspected(f) == "UInt16"@ + "("@ + shown(f) + ")"@,
        f is UInt32 ==> inspected(f) == "UInt32"@ + "("@ + shown(f) + ")"@,
        f is UInt64 ==> inspected(f) == "UInt64"@ + "("@ + shown(f) + ")"@,
        f is Decimal ==> inspected(f) == "Decimal"@ + "("@ + shown(f) + ")"@,
        f is Date ==> inspected(f) == "Date"@ + "("@ + shown(f) + ")"@,
        f is Time ==> inspected(f) == "Time"@ + "("@ + shown(f) + ")"@,
        f is TimestampTz ==> inspected(f) == "TimestampTz"@ + "("@ + shown(f) + ")"@,
        f is Duration ==> inspected(f) == "Duration"@ + "("@ + shown(f) + ")"@,
        f matches FieldV::String(s) ==> inspected(f) == "String"@ + "("@ + quoted_text(s) + ")"@,
        f matches FieldV::DateTime(t) ==> inspected(f) == "DateTime"@ + "("@ + t.map_values(
            |c: char| if c == ' ' { 'T' } else { c },
        ) + ")"@,
        f matches FieldV::Json(j) ==> inspected(f) == "Json"@ + "("@ + json::json_debug_text(j) + ")"@,
        f matches FieldV::Bytes(b) ==> inspected(f) == "Bytes"@ + "("@ + ("["@ + joined(
            b.map_values(|x: u8| decimal_text(x as nat)),
            ", "@,
        ) + "]"@) + ")"@,
        f matches FieldV::Array(v) ==> inspected(f) == "Array"@ + "("@ + ("["@ + joined(
            v.map_values(|g: FieldV| inspected(g)),
            ", "@,
        ) + "]"@) + ")"@,
        f matches FieldV::Row(v) ==> inspected(f) == "Row"@ + "("@ + ("["@ + joined(
            v.map_values(|g: FieldV| inspected(g)),
            ", "@,
        ) + "]"@) + ")"@,
{
    match f {
        FieldV::Array(v) => {
            lemma_inspected_all(v);
        },
        FieldV::Row(v) => {
            lemma_inspected_all(v);
        },
        _ => {},
    }
}

} // verus!
