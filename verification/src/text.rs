//! Text helpers shared by every module: decimal numbers, searching, trimming,
//! splitting, comparison and letter case. Texts are modelled by their sequence
//! of characters.

use vstd::prelude::*;
use vstd::string::*;

verus! {

broadcast use vstd::string::group_string_axioms;

// ---------------------------------------------------------------------------
// Characters and plain construction
// ---------------------------------------------------------------------------

/// `String::push` appends one character.
pub assume_specification[ std::string::String::push ](s: &mut std::string::String, c: char)
    ensures
        final(s)@ == old(s)@.push(c),
;

/// `str == str` holds exactly when both texts hold the same characters.
pub assume_specification[ <str as PartialEq>::eq ](s: &str, other: &str) -> (res: bool)
    ensures
        res == (s@ == other@),
;

/// Whether two texts are equal.
pub fn same(a: &str, b: &str) -> (r: bool)
    ensures
        r == (a@ == b@),
{
    *a == *b
}

/// The characters of a text.
pub fn chars_of(s: &str) -> (r: Vec<char>)
    ensures
        r@ == s@,
{
    let mut out: Vec<char> = Vec::new();
    for c in it: s.chars()
        invariant
            it.seq() == s@,
            out@ == s@.take(it.index() as int),
    {
        out.push(c);
        proof {
            assert(s@.take(it.index() + 1) =~= s@.take(it.index() as int).push(c));
        }
    }
    proof {
        assert(s@.take(s@.len() as int) =~= s@);
    }
    out
}

/// The text made of `chars[from..to]`.
pub fn text_between(chars: &Vec<char>, from: usize, to: usize) -> (r: String)
    requires
        from <= to <= chars@.len(),
    ensures
        r@ == chars@.subrange(from as int, to as int),
{
    let mut out = String::new();
    let mut i: usize = from;
    while i < to
        invariant
            from <= i <= to <= chars@.len(),
            out@ == chars@.subrange(from as int, i as int),
        decreases to - i,
    {
        out.push(chars[i]);
        proof {
            assert(chars@.subrange(from as int, i + 1) =~= chars@.subrange(from as int, i as int).push(chars@[i as int]));
        }
        i += 1;
    }
    out
}

/// The text made of all of `chars`.
pub fn text_of(chars: &Vec<char>) -> (r: String)
    ensures
        r@ == chars@,
{
    proof {
        assert(chars@.subrange(0, chars@.len() as int) =~= chars@);
    }
    text_between(chars, 0, chars.len())
}

/// An owned copy of a text.
pub fn owned(s: &str) -> (r: String)
    ensures
        r@ == s@,
{
    s.to_owned()
}

/// `a` followed by `b`.
pub fn join2(a: &str, b: &str) -> (r: String)
    ensures
        r@ == a@ + b@,
{
    let mut out = owned(a);
    out.append(b);
    out
}

/// `a`, `b`, `c` one after the other.
pub fn join3(a: &str, b: &str, c: &str) -> (r: String)
    ensures
        r@ == a@ + b@ + c@,
{
    let mut out = owned(a);
    out.append(b);
    out.append(c);
    out
}

// ---------------------------------------------------------------------------
// Decimal numbers
// ---------------------------------------------------------------------------

/// The digit character for `d` in `0..10`.
pub open spec fn digit_char(d: int) -> char {
    (48 + d) as char
}

/// The decimal digits of `n`, without leading zeros (`0` is `"0"`).
pub open spec fn decimal_text(n: nat) -> Seq<char>
    decreases n,
{
    if n < 10 {
        seq![digit_char(n as int)]
    } else {
        decimal_text(n / 10).push(digit_char((n % 10) as int))
    }
}

/// The decimal text of a signed number.
pub open spec fn signed_text(n: int) -> Seq<char> {
    if n < 0 {
        seq!['-'] + decimal_text((-n) as nat)
    } else {
        decimal_text(n as nat)
    }
}

/// Whether `c` is one of `'0'..='9'`.
pub open spec fn is_digit(c: char) -> bool {
    48 <= c as u32 <= 57
}

/// Whether every character is a decimal digit.
pub open spec fn all_digits(s: Seq<char>) -> bool {
    forall|i: int| 0 <= i < s.len() ==> is_digit(#[trigger] s[i])
}

/// The value of a run of decimal digits.
pub open spec fn digits_value(s: Seq<char>) -> nat
    decreases s.len(),
{
    if s.len() == 0 {
        0
    } else {
        digits_value(s.drop_last()) * 10 + ((s.last() as u32) - 48) as nat
    }
}

fn digit(d: u64) -> (c: char)
    requires
        d < 10,
    ensures
        c == digit_char(d as int),
{
    if d == 0 { '0' } else if d == 1 { '1' } else if d == 2 { '2' } else if d == 3 { '3' }
    else if d == 4 { '4' } else if d == 5 { '5' } else if d == 6 { '6' } else if d == 7 { '7' }
    else if d == 8 { '8' } else { '9' }
}

/// The decimal text of `n`.
pub fn decimal(n: u64) -> (r: String)
    ensures
        r@ == decimal_text(n as nat),
    decreases n,
{
    if n < 10 {
        let mut out = String::new();
        out.push(digit(n));
        proof {
            assert(out@ =~= seq![digit_char(n as int)]);
        }
        out
    } else {
        let mut out = decimal(n / 10);
        out.push(digit(n % 10));
        out
    }
}

/// The decimal text of a signed `n`.
pub fn signed_decimal(n: i64) -> (r: String)
    ensures
        r@ == signed_text(n as int),
{
    if n < 0 {
        let m: u64 = if n == i64::MIN { 9223372036854775808u64 } else { (-n) as u64 };
        let mut out = String::new();
        out.push('-');
        let digits = decimal(m);
        out.append(digits.as_str());
        proof {
            assert(out@ =~= seq!['-'] + decimal_text(m as nat));
        }
        out
    } else {
        decimal(n as u64)
    }
}

/// Decimal texts consist of digits and read back as the number they show.
pub proof fn lemma_decimal_text(n: nat)
    ensures
        decimal_text(n).len() > 0,
        all_digits(decimal_text(n)),
        digits_value(decimal_text(n)) == n,
    decreases n,
{
    if n < 10 {
        let s = decimal_text(n);
        assert(s.drop_last() =~= Seq::<char>::empty());
        assert(digits_value(s.drop_last()) == 0);
        assert(s.last() as u32 == 48 + n);
    } else {
        lemma_decimal_text(n / 10);
        let s = decimal_text(n);
        assert(s.drop_last() =~= decimal_text(n / 10));
        assert(s.last() as u32 == 48 + n % 10);
    }
}

/// Different numbers have different decimal texts.
pub proof fn lemma_decimal_text_injective(m: nat, n: nat)
    requires
        decimal_text(m) == decimal_text(n),
    ensures
        m == n,
{
    lemma_decimal_text(m);
    lemma_decimal_text(n);
}

/// The number that a text shows, when it is an optional `+` and then one or
/// more digits, and the number is at most `max`.
pub open spec fn unsigned_number(s: Seq<char>, max: nat) -> Option<nat> {
    let d = if s.len() > 0 && s[0] == '+' { s.skip(1) } else { s };
    if d.len() > 0 && all_digits(d) && digits_value(d) <= max {
        Some(digits_value(d))
    } else {
        None
    }
}

/// The number that a text shows, when it is an optional sign and then one or
/// more digits, and the number lies between `min` and `max`.
pub open spec fn signed_number(s: Seq<char>, min: int, max: int) -> Option<int> {
    let neg = s.len() > 0 && s[0] == '-';
    let d = if s.len() > 0 && (s[0] == '+' || s[0] == '-') { s.skip(1) } else { s };
    let v = if neg { -(digits_value(d) as int) } else { digits_value(d) as int };
    if d.len() > 0 && all_digits(d) && min <= v <= max {
        Some(v)
    } else {
        None
    }
}

proof fn lemma_digits_value_grows(s: Seq<char>, i: int)
    requires
        0 <= i <= s.len(),
        all_digits(s),
    ensures
        digits_value(s.take(i)) <= digits_value(s),
    decreases s.len() - i,
{
    if i < s.len() {
        lemma_digits_value_grows(s, i + 1);
        assert(s.take(i + 1).drop_last() =~= s.take(i));
        assert(is_digit(s[i]));
    } else {
        assert(s.take(i) =~= s);
    }
}

/// The value of `chars[from..]` when it is one or more digits not above `max`.
fn digits_from(chars: &Vec<char>, from: usize, max: u128) -> (r: Option<u128>)
    requires
        from <= chars@.len(),
        max <= 0xffff_ffff_ffff_ffff,
    ensures
        ({
            let d = chars@.skip(from as int);
            match r {
                Some(v) => d.len() > 0 && all_digits(d) && digits_value(d) == v && v <= max,
                None => !(d.len() > 0 && all_digits(d) && digits_value(d) <= max),
            }
        }),
{
    let ghost d = chars@.skip(from as int);
    if from == chars.len() {
        return None;
    }
    let mut v: u128 = 0;
    let mut i: usize = from;
    while i < chars.len()
        invariant
            from <= i <= chars@.len(),
            d == chars@.skip(from as int),
            d.len() > 0,
            max <= 0xffff_ffff_ffff_ffff,
            v <= max,
            all_digits(d.take(i - from)),
            v == digits_value(d.take(i - from)),
        decreases chars@.len() - i,
    {
        let c = chars[i];
        assert(d[i - from] == c);
        let code: u32 = c as u32;
        if !(48 <= code && code <= 57) {
            assert(!is_digit(d[i - from]));
            return None;
        }
        let w: u128 = v * 10 + (code - 48) as u128;
        proof {
            let t = d.take(i - from + 1);
            assert(t.drop_last() =~= d.take(i - from));
            assert(t.last() == c);
            assert(digits_value(t) == w);
            assert forall|k: int| 0 <= k < t.len() implies is_digit(#[trigger] t[k]) by {
                if k < i - from {
                    assert(t[k] == d.take(i - from)[k]);
                }
            }
            if w > max && all_digits(d) {
                lemma_digits_value_grows(d, i - from + 1);
            }
        }
        if w > max {
            return None;
        }
        v = w;
        i += 1;
    }
    proof {
        assert(d.take(d.len() as int) =~= d);
    }
    Some(v)
}

/// Reads an unsigned number that is at most `max`.
pub fn parse_unsigned(s: &str, max: u64) -> (r: Option<u64>)
    ensures
        match r {
            Some(v) => unsigned_number(s@, max as nat) == Some(v as nat),
            None => unsigned_number(s@, max as nat) is None,
        },
{
    let chars = chars_of(s);
    let from: usize = if chars.len() > 0 && chars[0] == '+' { 1 } else { 0 };
    proof {
        assert(chars@.skip(0) =~= chars@);
    }
    match digits_from(&chars, from, max as u128) {
        Some(v) => Some(v as u64),
        None => None,
    }
}

/// Reads a `u64`.
pub fn parse_u64(s: &str) -> (r: Option<u64>)
    ensures
        match r {
            Some(v) => unsigned_number(s@, u64::MAX as nat) == Some(v as nat),
            None => unsigned_number(s@, u64::MAX as nat) is None,
        },
{
    parse_unsigned(s, u64::MAX)
}

/// Reads an `i64`.
pub fn parse_i64(s: &str) -> (r: Option<i64>)
    ensures
        match r {
            Some(v) => signed_number(s@, i64::MIN as int, i64::MAX as int) == Some(v as int),
            None => signed_number(s@, i64::MIN as int, i64::MAX as int) is None,
        },
{
    let chars = chars_of(s);
    proof {
        assert(chars@.skip(0) =~= chars@);
    }
    let neg: bool = chars.len() > 0 && chars[0] == '-';
    let plus: bool = chars.len() > 0 && chars[0] == '+';
    let from: usize = if neg || plus { 1 } else { 0 };
    let max: u128 = if neg { 9223372036854775808u128 } else { 9223372036854775807u128 };
    match digits_from(&chars, from, max) {
        Some(v) => {
            if neg {
                if v == 9223372036854775808u128 {
                    Some(i64::MIN)
                } else {
                    Some(-(v as i64))
                }
            } else {
                Some(v as i64)
            }
        },
        None => None,
    }
}

/// Reads an `i32`.
pub fn parse_i32(s: &str) -> (r: Option<i32>)
    ensures
        match r {
            Some(v) => signed_number(s@, i32::MIN as int, i32::MAX as int) == Some(v as int),
            None => signed_number(s@, i32::MIN as int, i32::MAX as int) is None,
        },
{
    match parse_i64(s) {
        Some(v) => if -2147483648 <= v && v <= 2147483647 { Some(v as i32) } else { None },
        None => None,
    }
}

/// The text of a signed number reads back as the number.
pub proof fn law_signed_round_trip(n: int, min: int, max: int)
    requires
        min <= n <= max,
    ensures
        signed_number(signed_text(n), min, max) == Some(n),
{
    let t = signed_text(n);
    if n >= 0 {
        lemma_decimal_text(n as nat);
        assert(is_digit(decimal_text(n as nat)[0]));
    } else {
        lemma_decimal_text((-n) as nat);
        assert(t[0] == '-');
        assert(t.skip(1) =~= decimal_text((-n) as nat));
    }
}

/// A decimal text reads back as the number that it was made from.
pub proof fn law_decimal_round_trip(n: nat, max: nat)
    requires
        n <= max,
    ensures
        unsigned_number(decimal_text(n), max) == Some(n),
{
    lemma_decimal_text(n);
    assert(is_digit(decimal_text(n)[0]));
}


// ---------------------------------------------------------------------------
// Searching, splitting and trimming
// ---------------------------------------------------------------------------

/// The parts of `s` between occurrences of `sep`; always at least one part.
pub open spec fn split_text(s: Seq<char>, sep: char) -> Seq<Seq<char>>
    decreases s.len(),
{
    if s.len() == 0 {
        seq![Seq::<char>::empty()]
    } else {
        let head = split_text(s.drop_last(), sep);
        if s.last() == sep {
            head.push(Seq::<char>::empty())
        } else {
            head.drop_last().push(head.last().push(s.last()))
        }
    }
}

/// A split has at least one part.
pub proof fn lemma_split_nonempty(s: Seq<char>, sep: char)
    ensures
        split_text(s, sep).len() > 0,
    decreases s.len(),
{
    if s.len() > 0 {
        lemma_split_nonempty(s.drop_last(), sep);
    }
}

/// The views of a list of texts.
pub open spec fn views(v: Seq<String>) -> Seq<Seq<char>> {
    v.map_values(|s: String| s@)
}

/// The parts of `s` between occurrences of `sep`.
pub fn split(s: &str, sep: char) -> (r: Vec<String>)
    ensures
        views(r@) == split_text(s@, sep),
{
    let chars = chars_of(s);
    let mut out: Vec<String> = Vec::new();
    let mut cur = String::new();
    let mut i: usize = 0;
    proof {
        assert(chars@.take(0) =~= Seq::<char>::empty());
        assert(views(out@).push(cur@) =~= split_text(chars@.take(0), sep));
    }
    while i < chars.len()
        invariant
            0 <= i <= chars@.len(),
            views(out@).push(cur@) == split_text(chars@.take(i as int), sep),
        decreases chars@.len() - i,
    {
        let c = chars[i];
        let ghost before = views(out@);
        proof {
            assert(chars@.take(i + 1).drop_last() =~= chars@.take(i as int));
            assert(before.push(cur@).drop_last() =~= before);
        }
        if c == sep {
            out.push(cur);
            proof {
                assert(views(out@) =~= before.push(cur@));
            }
            cur = String::new();
        } else {
            cur.push(c);
        }
        i += 1;
    }
    out.push(cur);
    proof {
        assert(chars@.take(chars@.len() as int) =~= chars@);
        assert(views(out@) =~= split_text(s@, sep));
    }
    out
}

/// `char::is_whitespace`: the Unicode `White_Space` property.
pub uninterp spec fn whitespace(c: char) -> bool;

/// Calls `char::is_whitespace`. Of the characters that it accepts, only the
/// ASCII ones are stated: space, tab, line feed, vertical tab, form feed and
/// carriage return.
#[verifier::external_body]
fn is_whitespace(c: char) -> (r: bool)
    ensures
        r == whitespace(c),
        (c as u32) < 128 ==> r == (c as u32 == 32 || 9 <= c as u32 <= 13),
{
    c.is_whitespace()
}

/// `s` without the characters at its end that `drop` accepts.
pub open spec fn trim_end_by(s: Seq<char>, drop: spec_fn(char) -> bool) -> Seq<char>
    decreases s.len(),
{
    if s.len() > 0 && drop(s.last()) {
        trim_end_by(s.drop_last(), drop)
    } else {
        s
    }
}

/// `s` without the characters at its start that `drop` accepts.
pub open spec fn trim_start_by(s: Seq<char>, drop: spec_fn(char) -> bool) -> Seq<char>
    decreases s.len(),
{
    if s.len() > 0 && drop(s[0]) {
        trim_start_by(s.skip(1), drop)
    } else {
        s
    }
}

/// `s` without whitespace at its two ends.
pub open spec fn trimmed(s: Seq<char>) -> Seq<char> {
    trim_end_by(trim_start_by(s, |c: char| whitespace(c)), |c: char| whitespace(c))
}

/// The test for being the character `x`.
pub open spec fn being(x: char) -> spec_fn(char) -> bool {
    |c: char| c == x
}

/// `s` without the character `x` at its two ends.
pub open spec fn trimmed_of(s: Seq<char>, x: char) -> Seq<char> {
    trim_end_by(trim_start_by(s, being(x)), being(x))
}

/// `s` without whitespace at its two ends.
pub fn trim(s: &str) -> (r: String)
    ensures
        r@ == trimmed(s@),
{
    let chars = chars_of(s);
    let ghost drop = |c: char| whitespace(c);
    let mut from: usize = 0;
    proof {
        assert(chars@.skip(0) =~= chars@);
    }
    while from < chars.len() && is_whitespace(chars[from])
        invariant
            from <= chars@.len(),
            drop == (|c: char| whitespace(c)),
            trim_start_by(chars@, drop) == trim_start_by(chars@.skip(from as int), drop),
        decreases chars@.len() - from,
    {
        assert(chars@.skip(from as int).skip(1) =~= chars@.skip(from + 1));
        from += 1;
    }
    let mut to: usize = chars.len();
    let ghost body = chars@.skip(from as int);
    proof {
        assert(trim_start_by(body, drop) == body);
        assert(body.take(to - from) =~= body);
    }
    while to > from && is_whitespace(chars[to - 1])
        invariant
            from <= to <= chars@.len(),
            drop == (|c: char| whitespace(c)),
            body == chars@.skip(from as int),
            trim_end_by(body, drop) == trim_end_by(body.take(to - from), drop),
        decreases to - from,
    {
        assert(body.take(to - from).drop_last() =~= body.take(to - from - 1));
        to -= 1;
    }
    proof {
        assert(body.take(to - from) =~= chars@.subrange(from as int, to as int));
    }
    text_between(&chars, from, to)
}

/// `s` without the character `x` at its two ends.
pub fn trim_of(s: &str, x: char) -> (r: String)
    ensures
        r@ == trimmed_of(s@, x),
{
    let chars = chars_of(s);
    let ghost drop = being(x);
    let mut from: usize = 0;
    proof {
        assert(chars@.skip(0) =~= chars@);
    }
    while from < chars.len() && chars[from] == x
        invariant
            from <= chars@.len(),
            drop == being(x),
            trim_start_by(chars@, drop) == trim_start_by(chars@.skip(from as int), drop),
        decreases chars@.len() - from,
    {
        assert(chars@.skip(from as int).skip(1) =~= chars@.skip(from + 1));
        from += 1;
    }
    let mut to: usize = chars.len();
    let ghost body = chars@.skip(from as int);
    proof {
        assert(trim_start_by(body, drop) == body);
        assert(body.take(to - from) =~= body);
    }
    while to > from && chars[to - 1] == x
        invariant
            from <= to <= chars@.len(),
            drop == being(x),
            body == chars@.skip(from as int),
            trim_end_by(body, drop) == trim_end_by(body.take(to - from), drop),
        decreases to - from,
    {
        assert(body.take(to - from).drop_last() =~= body.take(to - from - 1));
        to -= 1;
    }
    proof {
        assert(body.take(to - from) =~= chars@.subrange(from as int, to as int));
    }
    text_between(&chars, from, to)
}

/// `s` without the character `x` at its end.
pub fn trim_end_of(s: &str, x: char) -> (r: String)
    ensures
        r@ == trim_end_by(s@, being(x)),
{
    let chars = chars_of(s);
    let mut to: usize = chars.len();
    assert(chars@.take(to as int) =~= chars@);
    while to > 0 && chars[to - 1] == x
        invariant
            to <= chars@.len(),
            trim_end_by(chars@, being(x)) == trim_end_by(chars@.take(to as int), being(x)),
        decreases to,
    {
        assert(chars@.take(to as int).drop_last() =~= chars@.take(to - 1));
        to -= 1;
    }
    assert(chars@.take(to as int) =~= chars@.subrange(0, to as int));
    text_between(&chars, 0, to)
}

/// The position of the last `c` in `s`.
pub open spec fn last_position(s: Seq<char>, c: char) -> Option<int>
    decreases s.len(),
{
    if s.len() == 0 {
        None
    } else if s.last() == c {
        Some(s.len() - 1)
    } else {
        last_position(s.drop_last(), c)
    }
}

/// What stands before and after the last `c`, if there is one.
pub open spec fn split_at_last(s: Seq<char>, c: char) -> Option<(Seq<char>, Seq<char>)> {
    match last_position(s, c) {
        Some(i) => Some((s.take(i), s.skip(i + 1))),
        None => None,
    }
}

/// What stands before and after the last `c` of `s`, if there is one.
pub fn rsplit_once(s: &str, c: char) -> (r: Option<(String, String)>)
    ensures
        match r {
            Some(p) => split_at_last(s@, c) == Some((p.0@, p.1@)),
            None => split_at_last(s@, c) is None,
        },
{
    let chars = chars_of(s);
    let mut i: usize = chars.len();
    proof {
        assert(chars@.take(i as int) =~= chars@);
    }
    while i > 0
        invariant
            i <= chars@.len(),
            chars@ == s@,
            last_position(chars@, c) == last_position(chars@.take(i as int), c),
        decreases i,
    {
        assert(chars@.take(i as int).drop_last() =~= chars@.take(i - 1));
        if chars[i - 1] == c {
            let head = text_between(&chars, 0, i - 1);
            let tail = text_between(&chars, i, chars.len());
            proof {
                assert(head@ =~= chars@.take(i - 1));
                assert(tail@ =~= chars@.skip(i as int));
            }
            return Some((head, tail));
        }
        i -= 1;
    }
    None
}

/// Whether `s` starts with `p`.
pub open spec fn has_prefix(s: Seq<char>, p: Seq<char>) -> bool {
    p.len() <= s.len() && s.take(p.len() as int) == p
}

/// Whether `s` ends with `p`.
pub open spec fn has_suffix(s: Seq<char>, p: Seq<char>) -> bool {
    p.len() <= s.len() && s.skip(s.len() - p.len()) == p
}

fn matches_at(chars: &Vec<char>, at: usize, p: &Vec<char>) -> (r: bool)
    requires
        at + p@.len() <= chars@.len(),
    ensures
        r == (chars@.subrange(at as int, at + p@.len()) == p@),
{
    let n: usize = chars.len();
    let mut i: usize = 0;
    while i < p.len()
        invariant
            n == chars@.len(),
            at + p@.len() <= chars@.len(),
            i <= p@.len(),
            forall|k: int| 0 <= k < i ==> chars@[at + k] == p@[k],
        decreases p@.len() - i,
    {
        if chars[at + i] != p[i] {
            proof {
                assert(chars@.subrange(at as int, at + p@.len())[i as int] == chars@[at + i]);
            }
            return false;
        }
        i += 1;
    }
    proof {
        assert(chars@.subrange(at as int, at + p@.len()) =~= p@);
    }
    true
}

/// Whether `s` starts with `p`.
pub fn starts_with(s: &str, p: &str) -> (r: bool)
    ensures
        r == has_prefix(s@, p@),
{
    let chars = chars_of(s);
    let pat = chars_of(p);
    if pat.len() > chars.len() {
        return false;
    }
    proof {
        assert(chars@.subrange(0, pat@.len() as int) =~= chars@.take(pat@.len() as int));
    }
    matches_at(&chars, 0, &pat)
}

/// What is left of `s` without the prefix `p` and the suffix `q`, when it has
/// both and they do not overlap.
pub open spec fn between(s: Seq<char>, p: Seq<char>, q: Seq<char>) -> Option<Seq<char>> {
    if has_prefix(s, p) && has_suffix(s.skip(p.len() as int), q) {
        Some(s.subrange(p.len() as int, s.len() - q.len()))
    } else {
        None
    }
}

/// What is left of `s` without the prefix `p` and the suffix `q`.
pub fn strip_both(s: &str, p: &str, q: &str) -> (r: Option<String>)
    ensures
        match r {
            Some(t) => between(s@, p@, q@) == Some(t@),
            None => between(s@, p@, q@) is None,
        },
{
    let chars = chars_of(s);
    let pre = chars_of(p);
    let suf = chars_of(q);
    if pre.len() > chars.len() {
        return None;
    }
    let rest: usize = chars.len() - pre.len();
    if suf.len() > rest {
        return None;
    }
    let end: usize = chars.len() - suf.len();
    proof {
        assert(chars@.subrange(0, pre@.len() as int) =~= chars@.take(pre@.len() as int));
        let body = chars@.skip(pre@.len() as int);
        assert(chars@.subrange(end as int, end + suf@.len()) =~= body.skip(body.len() - suf@.len()));
    }
    if matches_at(&chars, 0, &pre) && matches_at(&chars, end, &suf) {
        Some(text_between(&chars, pre.len(), end))
    } else {
        None
    }
}

/// Whether `list` holds the text `s`.
pub fn holds(list: &Vec<String>, s: &str) -> (r: bool)
    ensures
        r == views(list@).contains(s@),
{
    let mut i: usize = 0;
    while i < list.len()
        invariant
            i <= list@.len(),
            forall|k: int| 0 <= k < i ==> views(list@)[k] != s@,
        decreases list@.len() - i,
    {
        if same(list[i].as_str(), s) {
            assert(views(list@)[i as int] == s@);
            return true;
        }
        i += 1;
    }
    false
}

/// A copy of a list of texts.
pub fn copy_list(list: &Vec<String>) -> (r: Vec<String>)
    ensures
        views(r@) == views(list@),
{
    let mut out: Vec<String> = Vec::new();
    let mut i: usize = 0;
    while i < list.len()
        invariant
            i <= list@.len(),
            views(out@) == views(list@).take(i as int),
        decreases list@.len() - i,
    {
        let ghost prev = out@;
        let s = list[i].clone();
        out.push(s);
        proof {
            assert(views(out@) =~= views(prev).push(s@));
            assert(views(list@).take(i + 1) =~= views(list@).take(i as int).push(views(list@)[i as int]));
        }
        i += 1;
    }
    proof {
        assert(views(list@).take(list@.len() as int) =~= views(list@));
    }
    out
}

// ---------------------------------------------------------------------------
// Letter case and order
// ---------------------------------------------------------------------------

/// The ASCII lower-case form of `c`; other characters stay.
pub open spec fn ascii_lower(c: char) -> char {
    if 65 <= c as u32 <= 90 {
        ((c as u32) + 32) as char
    } else {
        c
    }
}

/// The ASCII upper-case form of `c`; other characters stay.
pub open spec fn ascii_upper(c: char) -> char {
    if 97 <= c as u32 <= 122 {
        ((c as u32) - 32) as char
    } else {
        c
    }
}

/// Whether every character is ASCII.
pub open spec fn ascii_only(s: Seq<char>) -> bool {
    forall|i: int| 0 <= i < s.len() ==> (#[trigger] s[i] as u32) < 128
}

/// `s` with each ASCII letter lowered.
pub open spec fn ascii_lowered(s: Seq<char>) -> Seq<char> {
    Seq::new(s.len(), |i: int| ascii_lower(s[i]))
}

/// `s` with each ASCII letter raised.
pub open spec fn ascii_raised(s: Seq<char>) -> Seq<char> {
    Seq::new(s.len(), |i: int| ascii_upper(s[i]))
}

/// Whether two texts are equal up to ASCII letter case.
pub open spec fn equal_ignoring_case(a: Seq<char>, b: Seq<char>) -> bool {
    ascii_lowered(a) == ascii_lowered(b)
}

fn lower_of(c: char) -> (r: u32)
    ensures
        r == ascii_lower(c) as u32,
{
    let v: u32 = c as u32;
    if 65 <= v && v <= 90 { v + 32 } else { v }
}

/// Whether two texts are equal up to ASCII letter case.
pub fn same_ignoring_case(a: &str, b: &str) -> (r: bool)
    ensures
        r == equal_ignoring_case(a@, b@),
{
    let x = chars_of(a);
    let y = chars_of(b);
    if x.len() != y.len() {
        assert(ascii_lowered(x@).len() != ascii_lowered(y@).len());
        return false;
    }
    let mut i: usize = 0;
    while i < x.len()
        invariant
            i <= x@.len() == y@.len(),
            x@ == a@,
            y@ == b@,
            forall|k: int| 0 <= k < i ==> ascii_lower(x@[k]) == ascii_lower(y@[k]),
        decreases x@.len() - i,
    {
        if lower_of(x[i]) != lower_of(y[i]) {
            assert(ascii_lower(x@[i as int]) != ascii_lower(y@[i as int]));
            assert(ascii_lowered(x@)[i as int] != ascii_lowered(y@)[i as int]);
            return false;
        }
        i += 1;
    }
    assert(ascii_lowered(x@) =~= ascii_lowered(y@));
    true
}

/// `str::to_lowercase` of a text that is not all ASCII.
pub uninterp spec fn unicode_lower(s: Seq<char>) -> Seq<char>;

/// A text with its letters lowered. In an ASCII text nothing else changes.
pub open spec fn lower_text(s: Seq<char>) -> Seq<char> {
    if ascii_only(s) { ascii_lowered(s) } else { unicode_lower(s) }
}

/// Calls `str::to_lowercase`. Of an ASCII text it is stated that each letter
/// is lowered and nothing else changes.
#[verifier::external_body]
pub(crate) fn to_lower(s: &str) -> (r: String)
    ensures
        r@ == if ascii_only(s@) { ascii_lowered(s@) } else { unicode_lower(s@) },
{
    s.to_lowercase()
}

/// The texts of the two booleans are in lower case.
pub(crate) proof fn lemma_bool_text()
    ensures
        lower_text("true"@) == "true"@,
        lower_text("false"@) == "false"@,
{
    reveal_strlit("true");
    reveal_strlit("false");
    assert(ascii_lowered("true"@) =~= "true"@);
    assert(ascii_lowered("false"@) =~= "false"@);
}

/// `str::to_uppercase` of a text that is not all ASCII.
pub uninterp spec fn unicode_upper(s: Seq<char>) -> Seq<char>;

/// A text with its letters raised. In an ASCII text nothing else changes.
pub open spec fn upper_text(s: Seq<char>) -> Seq<char> {
    if ascii_only(s) { ascii_raised(s) } else { unicode_upper(s) }
}

/// Calls `str::to_uppercase`. Of an ASCII text it is stated that each letter
/// is raised and nothing else changes.
#[verifier::external_body]
pub(crate) fn to_upper(s: &str) -> (r: String)
    ensures
        r@ == if ascii_only(s@) { ascii_raised(s@) } else { unicode_upper(s@) },
{
    s.to_uppercase()
}

/// `char::to_uppercase` of one character: one or more characters.
pub uninterp spec fn upper_chars(c: char) -> Seq<char>;

/// Calls `char::to_uppercase` and collects what it yields. Of an ASCII
/// character it is stated that it yields the one upper-case character.
#[verifier::external_body]
pub(crate) fn to_upper_char(c: char) -> (r: String)
    ensures
        r@ == upper_chars(c),
        (c as u32) < 128 ==> r@ == seq![ascii_upper(c)],
{
    c.to_uppercase().collect()
}

/// The order of texts: by the first character that differs, a prefix first.
pub open spec fn before(a: Seq<char>, b: Seq<char>) -> bool
    decreases a.len(),
{
    if b.len() == 0 {
        false
    } else if a.len() == 0 {
        true
    } else if a[0] != b[0] {
        (a[0] as u32) < (b[0] as u32)
    } else {
        before(a.skip(1), b.skip(1))
    }
}

/// Whether `a` comes before `b`.
pub fn is_before(a: &str, b: &str) -> (r: bool)
    ensures
        r == before(a@, b@),
{
    let x = chars_of(a);
    let y = chars_of(b);
    let mut i: usize = 0;
    proof {
        assert(x@.skip(0) =~= x@);
        assert(y@.skip(0) =~= y@);
    }
    while i < x.len() && i < y.len()
        invariant
            i <= x@.len(),
            i <= y@.len(),
            before(x@, y@) == before(x@.skip(i as int), y@.skip(i as int)),
            x@ == a@,
            y@ == b@,
        decreases x@.len() - i,
    {
        if x[i] != y[i] {
            return (x[i] as u32) < (y[i] as u32);
        }
        proof {
            assert(x@.skip(i as int).skip(1) =~= x@.skip(i + 1));
            assert(y@.skip(i as int).skip(1) =~= y@.skip(i + 1));
        }
        i += 1;
    }
    i < y.len()
}

proof fn lemma_char_code(c: char, d: char)
    ensures
        c as u32 == d as u32 ==> c == d,
{
}

/// The order of texts is total, and no text comes before itself.
pub proof fn lemma_before_total(a: Seq<char>, b: Seq<char>)
    ensures
        before(a, b) || before(b, a) || a == b,
        !(before(a, b) && before(b, a)),
        !before(a, a),
    decreases a.len(),
{
    if a.len() > 0 {
        lemma_before_total(a.skip(1), a.skip(1));
    }
    if a.len() > 0 && b.len() > 0 && a[0] == b[0] {
        lemma_before_total(a.skip(1), b.skip(1));
        if a.skip(1) == b.skip(1) {
            assert(a =~= seq![a[0]] + a.skip(1));
            assert(b =~= seq![b[0]] + b.skip(1));
        }
    }
    if a.len() > 0 && b.len() > 0 && a[0] != b[0] {
        lemma_char_code(a[0], b[0]);
    }
    if a.len() == 0 && b.len() == 0 {
        assert(a =~= b);
    }
}

/// The order of texts is transitive.
pub proof fn lemma_before_transitive(a: Seq<char>, b: Seq<char>, c: Seq<char>)
    requires
        before(a, b),
        before(b, c),
    ensures
        before(a, c),
    decreases a.len(),
{
    if a.len() > 0 && a[0] == b[0] && b[0] == c[0] {
        lemma_before_transitive(a.skip(1), b.skip(1), c.skip(1));
    }
}

/// Not coming before is transitive, too.
pub proof fn lemma_not_before_transitive(a: Seq<char>, b: Seq<char>, c: Seq<char>)
    requires
        !before(b, a),
        !before(c, b),
    ensures
        !before(c, a),
{
    lemma_before_total(a, b);
    lemma_before_total(b, c);
    lemma_before_total(a, c);
    if a != b && b != c {
        lemma_before_transitive(a, b, c);
    }
}

// ---------------------------------------------------------------------------
// Bytes
// ---------------------------------------------------------------------------

/// Calls `std::str::from_utf8`, which accepts exactly the valid UTF-8 and gives
/// the text that it encodes.
#[verifier::external_body]
pub(crate) fn utf8_text(bytes: &[u8]) -> (r: Option<String>)
    ensures
        match r {
            Some(s) => vstd::utf8::valid_utf8(bytes@) && s@ == vstd::utf8::decode_utf8(bytes@),
            None => !vstd::utf8::valid_utf8(bytes@),
        },
{
    std::str::from_utf8(bytes).ok().map(|s| s.to_string())
}

/// The text that `String::from_utf8_lossy` makes of bytes that are no UTF-8.
pub uninterp spec fn mended_text(bytes: Seq<u8>) -> Seq<char>;

/// The text of some bytes, with what is no UTF-8 mended.
pub open spec fn lossy_text(bytes: Seq<u8>) -> Seq<char> {
    if vstd::utf8::valid_utf8(bytes) { vstd::utf8::decode_utf8(bytes) } else { mended_text(bytes) }
}

/// Calls `String::from_utf8_lossy`, which gives the text that valid UTF-8 encodes,
/// and puts replacement characters in place of what is invalid. Where they go is
/// not stated.
#[verifier::external_body]
pub(crate) fn text_lossy(bytes: &[u8]) -> (r: String)
    ensures
        r@ == (if vstd::utf8::valid_utf8(bytes@) { vstd::utf8::decode_utf8(bytes@) } else { mended_text(bytes@) }),
{
    String::from_utf8_lossy(bytes).to_string()
}

} // verus!
