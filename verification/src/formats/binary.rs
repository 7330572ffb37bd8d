//! Numbers as bytes: little-endian, and of variable length.

use vstd::prelude::*;

use crate::formats::error::{FormatError, FormatErrorV};

verus! {

// ---------------------------------------------------------------------------
// Little-endian numbers
// ---------------------------------------------------------------------------

/// The number that bytes stand for, the lowest byte first.
pub open spec fn le_value(s: Seq<u8>) -> nat
    decreases s.len(),
{
    if s.len() == 0 { 0 } else { s[0] as nat + 256 * le_value(s.skip(1)) }
}

/// The lowest `n` bytes of a number, the lowest first.
pub open spec fn le_bytes(v: nat, n: nat) -> Seq<u8>
    decreases n,
{
    if n == 0 { Seq::empty() } else { seq![(v % 256) as u8] + le_bytes(v / 256, (n - 1) as nat) }
}

/// Whether a number fits `n` bytes.
pub open spec fn fits(v: nat, n: nat) -> bool
    decreases n,
{
    if n == 0 { v == 0 } else { fits(v / 256, (n - 1) as nat) }
}

/// A number that fits is read back from its bytes.
pub proof fn law_le_round_trip(v: nat, n: nat)
    requires
        fits(v, n),
    ensures
        le_value(le_bytes(v, n)) == v,
        le_bytes(v, n).len() == n,
    decreases n,
{
    if n > 0 {
        law_le_round_trip(v / 256, (n - 1) as nat);
        assert(le_bytes(v, n).skip(1) =~= le_bytes(v / 256, (n - 1) as nat));
    }
}

/// Every 32-bit number fits four bytes, every 64-bit number fits eight.
pub proof fn lemma_fits(v: nat)
    ensures
        v <= u32::MAX ==> fits(v, 4),
        v <= u64::MAX ==> fits(v, 8),
{
    reveal_with_fuel(fits, 9);
}

proof fn lemma_le_four(s: Seq<u8>)
    requires
        s.len() == 4,
    ensures
        le_value(s) == s[0] + 256 * s[1] + 65536 * s[2] + 16777216 * s[3],
{
    reveal_with_fuel(le_value, 5);
    assert(s.skip(1).skip(1) =~= s.skip(2));
    assert(s.skip(2).skip(1) =~= s.skip(3));
    assert(s.skip(3).skip(1) =~= s.skip(4));
    assert(s.skip(1)[0] == s[1] && s.skip(2)[0] == s[2] && s.skip(3)[0] == s[3]);
}

/// The 32-bit number of four bytes.
pub fn read_u32(b: &[u8], at: usize) -> (r: u32)
    requires
        at + 4 <= b@.len(),
    ensures
        r == le_value(b@.subrange(at as int, at + 4)),
{
    let ghost s = b@.subrange(at as int, at + 4);
    proof {
        lemma_le_four(s);
    }
    b[at] as u32 + 256 * b[at + 1] as u32 + 65536 * b[at + 2] as u32 + 16777216 * b[at + 3] as u32
}

/// The 64-bit number of eight bytes.
pub fn read_u64(b: &[u8], at: usize) -> (r: u64)
    requires
        at + 8 <= b@.len(),
    ensures
        r == le_value(b@.subrange(at as int, at + 8)),
{
    let ghost s = b@.subrange(at as int, at + 8);
    proof {
        lemma_le_four(b@.subrange(at as int, at + 4));
        lemma_le_four(b@.subrange(at + 4, at + 8));
        lemma_le_halves(s);
        assert(s.take(4) =~= b@.subrange(at as int, at + 4));
        assert(s.skip(4) =~= b@.subrange(at + 4, at + 8));
    }
    let n: usize = b.len();
    assert(at + 8 <= n);
    let low: u64 = read_u32(b, at) as u64;
    let high: u64 = read_u32(b, at + 4) as u64;
    low + 4294967296 * high
}

proof fn lemma_le_halves(s: Seq<u8>)
    requires
        s.len() == 8,
    ensures
        le_value(s) == le_value(s.take(4)) + 4294967296 * le_value(s.skip(4)),
{
    let a = s.take(4);
    lemma_le_four(a);
    reveal_with_fuel(le_value, 5);
    assert(s.skip(1).skip(1) =~= s.skip(2));
    assert(s.skip(2).skip(1) =~= s.skip(3));
    assert(s.skip(3).skip(1) =~= s.skip(4));
    assert(s.skip(1)[0] == s[1] && s.skip(2)[0] == s[2] && s.skip(3)[0] == s[3]);
    assert(a[0] == s[0] && a[1] == s[1] && a[2] == s[2] && a[3] == s[3]);
}

/// Appends the lowest `n` bytes of a number, the lowest first.
pub fn write_le(out: &mut Vec<u8>, v: u64, n: usize)
    ensures
        final(out)@ == old(out)@ + le_bytes(v as nat, n as nat),
{
    let ghost base = out@;
    let mut rest: u64 = v;
    let mut i: usize = 0;
    proof {
        assert(base + le_bytes(v as nat, n as nat) =~= out@ + le_bytes(rest as nat, n as nat));
    }
    while i < n
        invariant
            i <= n,
            base + le_bytes(v as nat, n as nat) == out@ + le_bytes(rest as nat, (n - i) as nat),
        decreases n - i,
    {
        let ghost before = out@;
        out.push((rest % 256) as u8);
        proof {
            assert(before + le_bytes(rest as nat, (n - i) as nat) =~= out@ + le_bytes(
                (rest / 256) as nat,
                (n - i - 1) as nat,
            ));
        }
        rest = rest / 256;
        i += 1;
    }
    assert(out@ + le_bytes(rest as nat, 0) =~= out@);
}

// ---------------------------------------------------------------------------
// Numbers of variable length
// ---------------------------------------------------------------------------

/// Bytes of a number of variable length at most.
pub const MAX_VARINT: usize = 10;

/// A number of variable length at the front of some bytes, and how many of them it
/// takes: seven bits in each byte, the lowest first, and all bytes but the last
/// have their highest bit set. `k` bytes of it have been read before.
pub open spec fn varint_from(s: Seq<u8>, k: nat) -> Result<(nat, nat), FormatErrorV>
    decreases s.len(),
{
    if s.len() == 0 {
        Err(FormatErrorV::TruncatedVarint)
    } else if k >= MAX_VARINT {
        Err(FormatErrorV::InvalidVarint)
    } else if s[0] < 128 {
        Ok((s[0] as nat, 1))
    } else {
        match varint_from(s.skip(1), k + 1) {
            Ok(r) => Ok(((s[0] - 128) as nat + 128 * r.0, r.1 + 1)),
            Err(e) => Err(e),
        }
    }
}

/// The number of variable length at a position, of which the lowest 64 bits count,
/// and how many bytes it takes.
pub open spec fn varint_at(bytes: Seq<u8>, pos: int) -> Result<(u64, nat), FormatErrorV> {
    match varint_from(bytes.skip(pos), 0) {
        Ok(r) => Ok(((r.0 % 0x1_0000_0000_0000_0000) as u64, r.1)),
        Err(e) => Err(e),
    }
}

/// The bytes of a number of variable length.
pub open spec fn varint_bytes(v: nat) -> Seq<u8>
    decreases v,
{
    if v <= 127 { seq![v as u8] } else { seq![(v % 128 + 128) as u8] + varint_bytes(v / 128) }
}

/// Whether a number takes at most the bytes that are left after `k`.
pub open spec fn short_after(v: nat, k: nat) -> bool
    decreases v,
{
    k < MAX_VARINT && (v <= 127 || short_after(v / 128, k + 1))
}

/// Every 64-bit number is short enough.
pub proof fn lemma_short(v: nat)
    requires
        v <= u64::MAX,
    ensures
        short_after(v, 0),
{
    reveal_with_fuel(short_after, 11);
}

proof fn lemma_varint_from(v: nat, k: nat, rest: Seq<u8>)
    requires
        short_after(v, k),
    ensures
        varint_from(varint_bytes(v) + rest, k) == Ok::<(nat, nat), FormatErrorV>((v, varint_bytes(v).len())),
        varint_bytes(v).len() > 0,
    decreases v,
{
    let s = varint_bytes(v) + rest;
    if v > 127 {
        lemma_varint_from(v / 128, k + 1, rest);
        assert(s.skip(1) =~= varint_bytes(v / 128) + rest);
        assert(s[0] == (v % 128 + 128) as u8);
    } else {
        assert(s[0] == v as u8);
    }
}

/// A 64-bit number is read back from its bytes, whatever follows them.
pub proof fn law_varint_round_trip(v: u64, head: Seq<u8>, rest: Seq<u8>)
    ensures
        varint_at(head + varint_bytes(v as nat) + rest, head.len() as int) == Ok::<(u64, nat), FormatErrorV>(
            (v, varint_bytes(v as nat).len()),
        ),
{
    lemma_short(v as nat);
    lemma_varint_from(v as nat, 0, rest);
    assert((head + varint_bytes(v as nat) + rest).skip(head.len() as int) =~= varint_bytes(v as nat) + rest);
}

/// What reading goes on to, given what was read so far.
pub open spec fn continued(
    acc: nat,
    factor: nat,
    k: nat,
    rest: Result<(nat, nat), FormatErrorV>,
) -> Result<(nat, nat), FormatErrorV> {
    match rest {
        Ok(r) => Ok((acc + factor * r.0, k + r.1)),
        Err(e) => Err(e),
    }
}

/// Reads a number of variable length. One that ends too early or takes too many
/// bytes is refused.
pub fn read_varint(bytes: &[u8], pos: usize) -> (r: Result<(u64, usize), FormatError>)
    requires
        pos <= bytes@.len(),
    ensures
        match (r, varint_at(bytes@, pos as int)) {
            (Ok(v), Ok(w)) => v.0 == w.0 && v.1 == w.1 && 1 <= v.1 && pos + v.1 <= bytes@.len(),
            (Err(e), Err(w)) => e@ == w,
            _ => false,
        },
{
    let ghost whole = varint_from(bytes@.skip(pos as int), 0);
    let mut acc: u128 = 0;
    let mut factor: u128 = 1;
    let mut k: usize = 0;
    let n: usize = bytes.len();
    proof {
        assert(continued(0, 1, 0, whole) == whole);
    }
    while k < n - pos && k < MAX_VARINT
        invariant
            n == bytes@.len(),
            pos + k <= n,
            k <= MAX_VARINT,
            whole == varint_from(bytes@.skip(pos as int), 0),
            whole == continued(acc as nat, factor as nat, k as nat, varint_from(bytes@.skip(pos + k), k as nat)),
            acc < factor,
            factor == pow128(k as nat),
        decreases bytes@.len() - pos - k,
    {
        let b: u8 = bytes[pos + k];
        let ghost s = bytes@.skip(pos + k);
        proof {
            assert(s[0] == b);
            assert(s.skip(1) =~= bytes@.skip(pos + k + 1));
            lemma_pow128(k as nat);
            lemma_pow128((k + 1) as nat);
        }
        if b < 128 {
            let ghost before = acc;
            assert(factor * b <= factor * 127) by (nonlinear_arith)
                requires
                    b < 128,
            ;
            acc = acc + factor * b as u128;
            let v: u64 = (acc % 0x1_0000_0000_0000_0000) as u64;
            return Ok((v, k + 1));
        }
        let low: u128 = (b - 128) as u128;
        proof {
            assert(factor * low <= factor * 127) by (nonlinear_arith)
                requires
                    low <= 127,
            ;
            let rest = varint_from(s.skip(1), (k + 1) as nat);
            if rest is Ok {
                let x = rest->Ok_0.0;
                assert(acc + factor * (low + 128 * x) == (acc + factor * low) + (factor * 128) * x) by (nonlinear_arith);
            }
        }
        acc = acc + factor * low;
        factor = factor * 128;
        k += 1;
    }
    if k >= n - pos {
        assert(bytes@.skip(pos + k).len() == 0);
        Err(FormatError::TruncatedVarint)
    } else {
        Err(FormatError::InvalidVarint)
    }
}

/// The power of 128.
pub open spec fn pow128(k: nat) -> nat
    decreases k,
{
    if k == 0 { 1 } else { 128 * pow128((k - 1) as nat) }
}

proof fn lemma_pow128(k: nat)
    ensures
        pow128(k) > 0,
        k <= 11 ==> pow128(k) <= 0x2_0000_0000_0000_0000_0000,
    decreases k,
{
    reveal_with_fuel(pow128, 12);
    if k > 0 {
        lemma_pow128((k - 1) as nat);
    }
}

/// Appends the bytes of a number of variable length.
pub fn write_varint(buf: &mut Vec<u8>, val: u64)
    ensures
        final(buf)@ == old(buf)@ + varint_bytes(val as nat),
{
    let ghost base = buf@;
    let mut rest: u64 = val;
    while rest > 127
        invariant
            base + varint_bytes(val as nat) == buf@ + varint_bytes(rest as nat),
        decreases rest,
    {
        let ghost before = buf@;
        buf.push((rest % 128 + 128) as u8);
        assert(before + varint_bytes(rest as nat) =~= buf@ + varint_bytes((rest / 128) as nat));
        rest = rest / 128;
    }
    let ghost before = buf@;
    buf.push(rest as u8);
    assert(buf@ =~= before + varint_bytes(rest as nat));
}

} // verus!
