//! MessagePack byte emitters for the small closed set of values the wire
//! protocol uses: nil, booleans, integers, strings, and short array and
//! map headers.
//!
//! Every emitter appends to a byte vector and is specified byte-exactly
//! against the spec functions below, which follow the MessagePack
//! convention of using the most compact representation for each value.

use vstd::prelude::*;
use vstd::string::StringSliceAdditionalSpecFns;

verus! {

/// Big-endian bytes of a 16-bit value.
pub open spec fn be16(n: int) -> Seq<u8> {
    seq![(((n / 0x100) % 0x100) as u8), ((n % 0x100) as u8)]
}

/// Big-endian bytes of a 32-bit value.
pub open spec fn be32(n: int) -> Seq<u8> {
    seq![
        (((n / 0x1000000) % 0x100) as u8),
        (((n / 0x10000) % 0x100) as u8),
        (((n / 0x100) % 0x100) as u8),
        ((n % 0x100) as u8),
    ]
}

/// MessagePack `nil`.
pub open spec fn pack_nil() -> Seq<u8> {
    seq![0xc0u8]
}

/// MessagePack boolean.
pub open spec fn pack_bool(b: bool) -> Seq<u8> {
    if b {
        seq![0xc3u8]
    } else {
        seq![0xc2u8]
    }
}

/// MessagePack signed integer in its most compact representation,
/// for values of `i32` through `u32` range.
pub open spec fn pack_sint(v: int) -> Seq<u8> {
    if 0 <= v < 0x80 {
        seq![(v as u8)]
    } else if 0x80 <= v < 0x100 {
        seq![0xccu8, (v as u8)]
    } else if 0x100 <= v < 0x10000 {
        seq![0xcdu8] + be16(v)
    } else if 0x10000 <= v {
        seq![0xceu8] + be32(v)
    } else if -0x20 <= v < 0 {
        seq![((v + 0x100) as u8)]
    } else if -0x80 <= v < -0x20 {
        seq![0xd0u8, ((v + 0x100) as u8)]
    } else if -0x8000 <= v < -0x80 {
        seq![0xd1u8] + be16(v + 0x10000)
    } else {
        seq![0xd2u8] + be32(v + 0x100000000)
    }
}

/// MessagePack string header for a byte length.
pub open spec fn pack_str_header(len: int) -> Seq<u8> {
    if len < 0x20 {
        seq![((0xa0 + len) as u8)]
    } else if len < 0x100 {
        seq![0xd9u8, (len as u8)]
    } else if len < 0x10000 {
        seq![0xdau8] + be16(len)
    } else {
        seq![0xdbu8] + be32(len)
    }
}

/// MessagePack string: header plus the UTF-8 bytes.
pub open spec fn pack_str(s: Seq<char>) -> Seq<u8> {
    pack_str_header(vstd::utf8::encode_utf8(s).len() as int) + vstd::utf8::encode_utf8(s)
}

/// MessagePack array header.
pub open spec fn pack_array(n: int) -> Seq<u8> {
    if n < 16 {
        seq![((0x90 + n) as u8)]
    } else if n < 0x10000 {
        seq![0xdcu8] + be16(n)
    } else {
        seq![0xddu8] + be32(n)
    }
}

/// MessagePack map header.
pub open spec fn pack_map(n: int) -> Seq<u8> {
    if n < 16 {
        seq![((0x80 + n) as u8)]
    } else if n < 0x10000 {
        seq![0xdeu8] + be16(n)
    } else {
        seq![0xdfu8] + be32(n)
    }
}

pub fn push_nil(out: &mut Vec<u8>)
    ensures
        final(out)@ == old(out)@ + pack_nil(),
{
    out.push(0xc0);
    assert(out@ =~= old(out)@ + pack_nil());
}

pub fn push_bool(out: &mut Vec<u8>, b: bool)
    ensures
        final(out)@ == old(out)@ + pack_bool(b),
{
    if b {
        out.push(0xc3);
    } else {
        out.push(0xc2);
    }
    assert(out@ =~= old(out)@ + pack_bool(b));
}

pub fn push_sint(out: &mut Vec<u8>, v: i64)
    requires
        -0x80000000 <= v < 0x100000000,
    ensures
        final(out)@ == old(out)@ + pack_sint(v as int),
{
    if v >= 0 {
        if v < 0x80 {
            out.push(v as u8);
        } else if v < 0x100 {
            out.push(0xcc);
            out.push(v as u8);
        } else if v < 0x10000 {
            out.push(0xcd);
            out.push((v / 0x100) as u8);
            out.push((v % 0x100) as u8);
        } else {
            out.push(0xce);
            out.push((v / 0x1000000) as u8);
            out.push(((v / 0x10000) % 0x100) as u8);
            out.push(((v / 0x100) % 0x100) as u8);
            out.push((v % 0x100) as u8);
        }
    } else {
        if v >= -0x20 {
            out.push((v + 0x100) as u8);
        } else if v >= -0x80 {
            out.push(0xd0);
            out.push((v + 0x100) as u8);
        } else if v >= -0x8000 {
            let w: i64 = v + 0x10000;
            out.push(0xd1);
            out.push((w / 0x100) as u8);
            out.push((w % 0x100) as u8);
        } else {
            let w: i64 = v + 0x100000000;
            out.push(0xd2);
            out.push((w / 0x1000000) as u8);
            out.push(((w / 0x10000) % 0x100) as u8);
            out.push(((w / 0x100) % 0x100) as u8);
            out.push((w % 0x100) as u8);
        }
    }
    assert(out@ =~= old(out)@ + pack_sint(v as int));
}

/// A UTF-8 encoding takes at most four bytes per character.
proof fn lemma_encode_utf8_len_bound(s: Seq<char>)
    ensures
        vstd::utf8::encode_utf8(s).len() <= 4 * s.len(),
    decreases s.len(),
{
    if s.len() > 0 {
        lemma_encode_utf8_len_bound(s.drop_first());
        assert(vstd::utf8::encode_scalar(s[0] as u32).len() <= 4);
    }
}

pub fn push_str(out: &mut Vec<u8>, s: &str)
    requires
        s@.len() < 0x4000_0000,
    ensures
        final(out)@ == old(out)@ + pack_str(s@),
{
    let bytes: &[u8] = s.as_bytes();
    let len: usize = bytes.len();
    proof {
        assert(bytes@ == vstd::utf8::encode_utf8(s@));
        lemma_encode_utf8_len_bound(s@);
    }
    if len < 0x20 {
        out.push(0xa0 + len as u8);
    } else if len < 0x100 {
        out.push(0xd9);
        out.push(len as u8);
    } else if len < 0x10000 {
        out.push(0xda);
        out.push((len / 0x100) as u8);
        out.push((len % 0x100) as u8);
    } else {
        out.push(0xdb);
        out.push((len / 0x1000000) as u8);
        out.push(((len / 0x10000) % 0x100) as u8);
        out.push(((len / 0x100) % 0x100) as u8);
        out.push((len % 0x100) as u8);
    }
    assert(out@ =~= old(out)@ + pack_str_header(len as int));
    let ghost mid = out@;
    let mut i: usize = 0;
    while i < len
        invariant
            i <= len,
            len == bytes@.len(),
            out@ == mid + bytes@.subrange(0, i as int),
        decreases len - i,
    {
        out.push(bytes[i]);
        assert(out@ =~= mid + bytes@.subrange(0, i + 1 as int));
        i += 1;
    }
    assert(bytes@.subrange(0, len as int) =~= bytes@);
    assert(out@ =~= old(out)@ + pack_str(s@));
}

pub fn push_array_header(out: &mut Vec<u8>, n: u32)
    ensures
        final(out)@ == old(out)@ + pack_array(n as int),
{
    if n < 16 {
        out.push(0x90 + n as u8);
    } else if n < 0x10000 {
        out.push(0xdc);
        out.push((n / 0x100) as u8);
        out.push((n % 0x100) as u8);
    } else {
        out.push(0xdd);
        out.push((n / 0x1000000) as u8);
        out.push(((n / 0x10000) % 0x100) as u8);
        out.push(((n / 0x100) % 0x100) as u8);
        out.push((n % 0x100) as u8);
    }
    assert(out@ =~= old(out)@ + pack_array(n as int));
}

/// The decimal digits of a non-negative number, as ASCII bytes.
pub open spec fn dec_bytes(n: int) -> Seq<u8>
    decreases n,
{
    if n < 10 {
        seq![((0x30 + if n >= 0 { n } else { 0 }) as u8)]
    } else {
        dec_bytes(n / 10).push((0x30 + n % 10) as u8)
    }
}

/// A number below `10^k` has at most `k` decimal digits.
pub proof fn lemma_dec_bytes_len(n: int)
    requires
        0 <= n < 100000,
    ensures
        n < 10 ==> dec_bytes(n).len() == 1,
        n < 100 ==> dec_bytes(n).len() <= 2,
        n < 1000 ==> dec_bytes(n).len() <= 3,
        n < 10000 ==> dec_bytes(n).len() <= 4,
        dec_bytes(n).len() <= 5,
    decreases n,
{
    if n >= 10 {
        lemma_dec_bytes_len(n / 10);
    }
}

pub fn push_dec(out: &mut Vec<u8>, n: u32)
    ensures
        final(out)@ == old(out)@ + dec_bytes(n as int),
    decreases n,
{
    if n < 10 {
        out.push(0x30 + n as u8);
        assert(out@ =~= old(out)@ + dec_bytes(n as int));
    } else {
        push_dec(out, n / 10);
        out.push(0x30 + (n % 10) as u8);
        assert(out@ =~= old(out)@ + dec_bytes(n as int));
    }
}

/// MessagePack string whose contents are given directly as bytes.
pub open spec fn pack_bytes_str(b: Seq<u8>) -> Seq<u8> {
    pack_str_header(b.len() as int) + b
}

/// MessagePack string holding the decimal digits of `n`.
pub open spec fn pack_dec_str(n: int) -> Seq<u8> {
    pack_bytes_str(dec_bytes(n))
}

/// Appends a MessagePack string holding the decimal digits of `n`.
pub fn push_dec_str(out: &mut Vec<u8>, n: u32)
    requires
        n < 100000,
    ensures
        final(out)@ == old(out)@ + pack_dec_str(n as int),
{
    let mut digits: Vec<u8> = Vec::new();
    push_dec(&mut digits, n);
    proof {
        lemma_dec_bytes_len(n as int);
    }
    out.push(0xa0 + digits.len() as u8);
    let ghost mid = out@;
    let mut i: usize = 0;
    while i < digits.len()
        invariant
            i <= digits@.len(),
            digits@ == dec_bytes(n as int),
            digits@.len() <= 5,
            out@ == mid + digits@.subrange(0, i as int),
        decreases digits@.len() - i,
    {
        out.push(digits[i]);
        assert(out@ =~= mid + digits@.subrange(0, i + 1 as int));
        i += 1;
    }
    assert(digits@.subrange(0, digits@.len() as int) =~= digits@);
    assert(out@ =~= old(out)@ + pack_dec_str(n as int));
}

pub fn push_map_header(out: &mut Vec<u8>, n: u8)
    requires
        n < 16,
    ensures
        final(out)@ == old(out)@ + pack_map(n as int),
{
    out.push(0x80 + n);
    assert(out@ =~= old(out)@ + pack_map(n as int));
}

} // verus!
