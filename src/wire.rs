//! Byte-level pieces of the wire format: varints, big-endian integers and
//! identifiers.

use vstd::bytes::{spec_u128_from_le_bytes, spec_u128_to_le_bytes, u128_from_le_bytes, u128_to_le_bytes};
use vstd::prelude::*;

verus! {

/// The varint of `n`: seven bits per byte, least significant group first,
/// the high bit set on every byte but the last.
pub open spec fn varint_bytes(n: u64) -> Seq<u8>
    decreases n,
{
    if n < 128 {
        seq![n as u8]
    } else {
        seq![(n % 128 + 128) as u8] + varint_bytes(n / 128)
    }
}

/// Reading a varint from byte `i` on, with the bits read so far in `acc`:
/// at most ten bytes, and a tenth byte may carry only the top bit.
pub open spec fn varint_from(b: Seq<u8>, i: nat, acc: u64) -> Option<(u64, Seq<u8>)>
    decreases 10 - i,
{
    if i >= 10 || b.len() <= i {
        None
    } else {
        let val = b[i as int];
        let next = acc | (((val & 0x7f) as u64) << ((7 * i) as u64));
        if val & 0x80 == 0 {
            if i == 9 && val > 1 {
                None
            } else {
                Some((next, b.subrange(i + 1 as int, b.len() as int)))
            }
        } else {
            varint_from(b, i + 1, next)
        }
    }
}

/// The varint at the front of `b` and the bytes after it.
pub open spec fn varint_take(b: Seq<u8>) -> Option<(u64, Seq<u8>)> {
    varint_from(b, 0, 0)
}

proof fn lemma_varint_step(n: u64, i: u64, c: u64)
    requires
        i < 10,
        c == (n >> ((7 * i) as u64)) % 128,
    ensures
        (n & (((1u64 << ((7 * i) as u64)) - 1) as u64)) | (c << ((7 * i) as u64)) == n & (if i == 9 {
            0xffff_ffff_ffff_ffffu64
        } else {
            (((1u64 << ((7 * i + 7) as u64)) - 1) as u64)
        }),
{
    assert((n & (((1u64 << ((7 * i) as u64)) - 1) as u64)) | (c << ((7 * i) as u64)) == n & (if i
        == 9 {
        0xffff_ffff_ffff_ffffu64
    } else {
        (((1u64 << ((7 * i + 7) as u64)) - 1) as u64)
    })) by (bit_vector)
        requires
            i < 10,
            c == (n >> ((7 * i) as u64)) % 128,
    ;
}

proof fn lemma_byte_bits(v: u8)
    ensures
        v & 0x7f == v % 128,
        (v & 0x80 == 0) == (v < 128),
{
    assert(v & 0x7f == v % 128 && (v & 0x80 == 0) == (v < 128)) by (bit_vector);
}

proof fn lemma_varint_from(b: Seq<u8>, n: u64, i: nat, acc: u64, rest: Seq<u8>)
    requires
        i < 10,
        i <= b.len(),
        b.subrange(i as int, b.len() as int) == varint_bytes(n >> ((7 * i) as u64)) + rest,
        acc == n & (((1u64 << ((7 * i) as u64)) - 1) as u64),
    ensures
        varint_from(b, i, acc) == Some((n, rest)),
    decreases 10 - i,
{
    let iu = i as u64;
    let k = (7 * iu) as u64;
    let m = n >> k;
    let c = m % 128;
    let tail = b.subrange(i as int, b.len() as int);
    assert(k == (7 * i) as u64);
    assert(varint_bytes(m).len() >= 1);
    assert(tail.len() >= 1);
    let val = b[i as int];
    assert(val == tail[0]);
    lemma_byte_bits(val);
    lemma_varint_step(n, iu, c);
    assert(iu == 9 ==> m <= 1) by (bit_vector)
        requires
            iu < 10,
            k == (7 * iu) as u64,
            m == n >> k,
    ;
    if m < 128 {
        assert(val as int == m);
        assert(((val & 0x7f) as u64) == c);
        assert(n & (if iu == 9 {
            0xffff_ffff_ffff_ffffu64
        } else {
            (((1u64 << ((7 * iu + 7) as u64)) - 1) as u64)
        }) == n) by (bit_vector)
            requires
                iu < 10,
                k == (7 * iu) as u64,
                n >> k < 128,
        ;
        assert(tail =~= seq![val] + rest);
        assert(b.subrange(i + 1 as int, b.len() as int) =~= tail.subrange(1, tail.len() as int));
        assert(tail.subrange(1, tail.len() as int) =~= rest);
    } else {
        assert(val as int == m % 128 + 128);
        assert(((val & 0x7f) as u64) == c);
        let k2 = (7 * (iu + 1)) as u64;
        assert(m / 128 == n >> k2) by (bit_vector)
            requires
                iu < 9,
                k == (7 * iu) as u64,
                k2 == (7 * (iu + 1)) as u64,
                m == n >> k,
        ;
        let next = acc | (((val & 0x7f) as u64) << ((7 * i) as u64));
        assert(b.subrange(i + 1 as int, b.len() as int) =~= tail.subrange(1, tail.len() as int));
        assert(tail =~= seq![val] + (varint_bytes(m / 128) + rest));
        assert(tail.subrange(1, tail.len() as int) =~= varint_bytes(m / 128) + rest);
        lemma_varint_from(b, n, i + 1, next, rest);
    }
}
/// Reading back the varint of `n` gives `n` and the bytes that follow.
pub proof fn lemma_varint_round_trip(n: u64, rest: Seq<u8>)
    ensures
        varint_take(varint_bytes(n) + rest) == Some((n, rest)),
{
    let b = varint_bytes(n) + rest;
    assert(b.subrange(0, b.len() as int) =~= b);
    assert(n >> 0u64 == n && n & (((1u64 << 0u64) - 1) as u64) == 0) by (bit_vector);
    lemma_varint_from(b, n, 0, 0, rest);
}

/// The bytes of `s` in reverse order.
pub open spec fn flip(s: Seq<u8>) -> Seq<u8> {
    Seq::new(s.len(), |i: int| s[s.len() - 1 - i])
}

/// The four bytes of `n`, most significant first.
pub open spec fn be32(n: u32) -> Seq<u8> {
    seq![(n >> 24u32) as u8, ((n >> 16u32) & 0xff) as u8, ((n >> 8u32) & 0xff) as u8, (n & 0xff) as u8]
}

/// The number that four bytes spell, most significant first.
pub open spec fn be32_value(b: Seq<u8>) -> u32 {
    ((b[0] as u32) << 24u32) | ((b[1] as u32) << 16u32) | ((b[2] as u32) << 8u32) | (b[3] as u32)
}

/// An identifier on the wire: a byte string of length 16 holding the
/// 128-bit value, most significant byte first.
pub open spec fn id_bytes(v: u128) -> Seq<u8> {
    varint_bytes(16) + flip(spec_u128_to_le_bytes(v))
}

/// The identifier at the front of `b` and the bytes after it.
pub open spec fn parse_id(b: Seq<u8>) -> Option<(u128, Seq<u8>)> {
    match varint_take(b) {
        Some((n, r)) => if n == 16 && r.len() >= 16 {
            Some((spec_u128_from_le_bytes(flip(r.subrange(0, 16))), r.subrange(16, r.len() as int)))
        } else {
            None
        },
        None => None,
    }
}

pub proof fn lemma_be32_round_trip(n: u32)
    ensures
        be32_value(be32(n)) == n,
{
    let b = be32(n);
    assert(((((n >> 24u32) as u8) as u32) << 24u32) | (((((n >> 16u32) & 0xff) as u8) as u32)
        << 16u32) | (((((n >> 8u32) & 0xff) as u8) as u32) << 8u32) | ((((n & 0xff) as u8) as u32))
        == n) by (bit_vector);
}

pub proof fn lemma_id_round_trip(v: u128, rest: Seq<u8>)
    ensures
        parse_id(id_bytes(v) + rest) == Some((v, rest)),
{
    let le = spec_u128_to_le_bytes(v);
    vstd::bytes::lemma_auto_spec_u128_to_from_le_bytes();
    let r = flip(le) + rest;
    assert(varint_bytes(16) + flip(le) + rest =~= varint_bytes(16) + r);
    lemma_varint_round_trip(16, r);
    assert(r.subrange(0, 16) =~= flip(le));
    assert(flip(flip(le)) =~= le);
    assert(r.subrange(16, r.len() as int) =~= rest);
}

/// Relies on postcard::to_allocvec for a u64: postcard writes the varint of
/// the value, and writing into a growable vector does not fail.
#[verifier::external_body]
fn varint_of(n: u64) -> (r: Vec<u8>)
    ensures
        r@ == varint_bytes(n),
{
    match postcard::to_allocvec(&n) {
        Ok(v) => v,
        Err(_) => Vec::new(),
    }
}

/// Relies on postcard::take_from_bytes for a u64: it reads the varint at the
/// front of `b` and hands back the bytes after it.
#[verifier::external_body]
fn take_varint(b: &[u8]) -> (r: Option<(u64, &[u8])>)
    ensures
        match r {
            Some((v, tail)) => varint_take(b@) == Some((v, tail@)),
            None => varint_take(b@) is None,
        },
{
    match postcard::take_from_bytes::<u64>(b) {
        Ok((v, tail)) => Some((v, tail)),
        Err(_) => None,
    }
}

/// Appends `b` to `out`.
pub fn put_bytes(out: &mut Vec<u8>, b: &[u8])
    ensures
        final(out)@ == old(out)@ + b@,
{
    let mut k: usize = 0;
    while k < b.len()
        invariant
            k <= b@.len(),
            out@ == old(out)@ + b@.subrange(0, k as int),
        decreases b@.len() - k,
    {
        out.push(b[k]);
        k += 1;
        assert(out@ =~= old(out)@ + b@.subrange(0, k as int));
    }
    assert(b@.subrange(0, k as int) =~= b@);
}

/// Appends the varint of `n` to `out`.
pub fn put_varint(out: &mut Vec<u8>, n: u64)
    ensures
        final(out)@ == old(out)@ + varint_bytes(n),
{
    let v = varint_of(n);
    put_bytes(out, v.as_slice());
}

/// The varint at the front of `b` and the bytes after it.
pub fn get_varint(b: &[u8]) -> (r: Option<(u64, &[u8])>)
    ensures
        match r {
            Some((v, tail)) => varint_take(b@) == Some((v, tail@)),
            None => varint_take(b@) is None,
        },
{
    take_varint(b)
}

/// Appends identifier `v` to `out`.
pub fn put_id(out: &mut Vec<u8>, v: u128)
    ensures
        final(out)@ == old(out)@ + id_bytes(v),
{
    put_varint(out, 16);
    let le = u128_to_le_bytes(v);
    let ghost start = out@;
    let mut k: usize = 16;
    while k > 0
        invariant
            k <= 16,
            le@.len() == 16,
            out@ == start + flip(le@).subrange(0, 16 - k),
        decreases k,
    {
        k -= 1;
        out.push(le[k]);
        assert(out@ =~= start + flip(le@).subrange(0, 16 - k));
    }
    assert(flip(le@).subrange(0, 16) =~= flip(le@));
}

/// The identifier at the front of `b` and the bytes after it.
pub fn get_id(b: &[u8]) -> (r: Option<(u128, &[u8])>)
    ensures
        match r {
            Some((v, tail)) => parse_id(b@) == Some((v, tail@)),
            None => parse_id(b@) is None,
        },
{
    let (n, rest) = match take_varint(b) {
        Some(x) => x,
        None => return None,
    };
    if n != 16 || rest.len() < 16 {
        return None;
    }
    let (head, tail) = rest.split_at(16);
    let mut le: Vec<u8> = Vec::new();
    let mut k: usize = 16;
    while k > 0
        invariant
            k <= 16,
            head@.len() == 16,
            le@ == flip(head@).subrange(0, 16 - k),
        decreases k,
    {
        k -= 1;
        le.push(head[k]);
        assert(le@ =~= flip(head@).subrange(0, 16 - k));
    }
    assert(flip(head@).subrange(0, 16) =~= flip(head@));
    let v = u128_from_le_bytes(le.as_slice());
    Some((v, tail))
}

} // verus!
