//! The value codec: how a value of each column type is written into a
//! row's payload and read back from it, and how a literal of a statement
//! becomes a value.
//!
//! An integer is four bytes, little-endian, in two's complement; a float
//! is the four bytes of its bit pattern, little-endian; a boolean is one
//! byte, `0` or `1`; a text is the count of its UTF-8 bytes as eight
//! bytes, little-endian, and then those bytes.

use crate::types::{DataType, ErrorKind, Value, ValueSpec};
use vstd::prelude::*;
use vstd::string::StrSliceExecFns;
use vstd::utf8::{decode_utf8, encode_utf8, valid_utf8};

verus! {

/// The `width` low bytes of `x`, least significant first.
pub open spec fn le_bytes(x: nat, width: nat) -> Seq<u8>
    decreases width,
{
    if width == 0 {
        Seq::empty()
    } else {
        seq![(x % 256) as u8] + le_bytes(x / 256, (width - 1) as nat)
    }
}

/// The number whose bytes, least significant first, are `bytes`.
pub open spec fn le_value(bytes: Seq<u8>) -> nat
    decreases bytes.len(),
{
    if bytes.len() == 0 {
        0
    } else {
        bytes[0] as nat + 256 * le_value(bytes.skip(1))
    }
}

/// 256 to the power `width`.
pub open spec fn radix_pow(width: nat) -> nat
    decreases width,
{
    if width == 0 {
        1
    } else {
        256 * radix_pow((width - 1) as nat)
    }
}

/// [`le_bytes`] gives `width` bytes.
pub proof fn lemma_le_bytes_len(x: nat, width: nat)
    ensures
        le_bytes(x, width).len() == width,
    decreases width,
{
    if width > 0 {
        lemma_le_bytes_len(x / 256, (width - 1) as nat);
    }
}

/// Reading back what [`le_bytes`] wrote gives the number, as far as it fits
/// in `width` bytes.
pub proof fn lemma_le_round_trip(x: nat, width: nat)
    ensures
        le_value(le_bytes(x, width)) == x % radix_pow(width),
    decreases width,
{
    if width == 0 {
    } else {
        let w = (width - 1) as nat;
        lemma_le_round_trip(x / 256, w);
        lemma_le_bytes_len(x / 256, w);
        let b = le_bytes(x, width);
        assert(b.skip(1) =~= le_bytes(x / 256, w));
        assert(b[0] == (x % 256) as u8);
        let p = radix_pow(w);
        assert(p > 0) by {
            lemma_radix_pow_positive(w);
        }
        assert(x % 256 + 256 * ((x / 256) % p) == x % (256 * p)) by {
            vstd::arithmetic::div_mod::lemma_breakdown(x as int, 256, p as int);
            assert(256 * p == p * 256) by (nonlinear_arith);
            vstd::arithmetic::div_mod::lemma_mod_breakdown(x as int, 256, p as int);
        }
    }
}

/// A power of 256 is positive.
pub proof fn lemma_radix_pow_positive(width: nat)
    ensures
        radix_pow(width) > 0,
    decreases width,
{
    if width > 0 {
        lemma_radix_pow_positive((width - 1) as nat);
    }
}

/// The powers of 256 that the codec uses.
pub proof fn lemma_radix_pow_values()
    ensures
        radix_pow(4) == 0x1_0000_0000,
        radix_pow(8) == 0x1_0000_0000_0000_0000,
{
    reveal_with_fuel(radix_pow, 9);
}

/// Appends the `width` low bytes of `x` to `out`, least significant first.
pub fn put_le(out: &mut Vec<u8>, x: u64, width: usize)
    ensures
        final(out)@ == old(out)@ + le_bytes(x as nat, width as nat),
{
    let mut rest: u64 = x;
    let mut i: usize = 0;
    assert(out@ + le_bytes(rest as nat, width as nat) =~= old(out)@ + le_bytes(
        x as nat,
        width as nat,
    ));
    while i < width
        invariant
            i <= width,
            out@ + le_bytes(rest as nat, (width - i) as nat) == old(out)@ + le_bytes(
                x as nat,
                width as nat,
            ),
        decreases width - i,
    {
        let ghost before = out@;
        out.push((rest % 256) as u8);
        proof {
            let w = (width - i) as nat;
            assert(before + le_bytes(rest as nat, w) =~= before.push((rest % 256) as u8)
                + le_bytes((rest / 256) as nat, (w - 1) as nat));
        }
        rest = rest / 256;
        i = i + 1;
    }
    assert(out@ + le_bytes(rest as nat, 0) =~= out@);
}

/// Reads `bytes[at..at + width]` as a number, least significant byte first.
pub fn get_le(bytes: &Vec<u8>, at: usize, width: usize) -> (x: u64)
    requires
        width <= 8,
        at + width <= bytes.len(),
    ensures
        x == le_value(bytes@.subrange(at as int, at + width)),
{
    let mut x: u64 = 0;
    let mut i: usize = width;
    assert(bytes@.subrange(at + i, at + width) =~= Seq::<u8>::empty());
    while i > 0
        invariant
            i <= width <= 8,
            at + width <= bytes.len(),
            x == le_value(bytes@.subrange(at + i, at + width)),
            x < radix_pow((width - i) as nat),
        decreases i,
    {
        let ghost tail = bytes@.subrange(at + i, at + width);
        let ghost next = bytes@.subrange(at + i - 1, at + width);
        proof {
            assert(next.skip(1) =~= tail);
            assert(next[0] == bytes@[at + i - 1]);
            lemma_radix_bound((width - i) as nat);
            assert(radix_pow((width - i + 1) as nat) == 256 * radix_pow((width - i) as nat));
        }
        x = x * 256 + bytes[at + i - 1] as u64;
        i = i - 1;
    }
    x
}

/// A power of 256 with an exponent under eight fits below 2^56.
proof fn lemma_radix_bound(width: nat)
    requires
        width < 8,
    ensures
        radix_pow(width) <= 0x100_0000_0000_0000,
{
    reveal_with_fuel(radix_pow, 9);
}

/// The number that stands for `i` in 32 bits of two's complement.
pub open spec fn int_bits(i: i32) -> nat {
    if i < 0 {
        (i + 0x1_0000_0000) as nat
    } else {
        i as nat
    }
}

/// The integer that `n` stands for in 32 bits of two's complement.
pub open spec fn bits_int(n: nat) -> i32 {
    if n >= 0x8000_0000 {
        (n - 0x1_0000_0000) as i32
    } else {
        n as i32
    }
}

/// The bytes that hold `v` in a row's payload.
pub open spec fn encode_value(v: ValueSpec) -> Seq<u8> {
    match v {
        ValueSpec::Integer(i) => le_bytes(int_bits(i), 4),
        ValueSpec::Float(bits) => le_bytes(bits as nat, 4),
        ValueSpec::Boolean(b) => seq![if b { 1u8 } else { 0u8 }],
        ValueSpec::Text(s) => le_bytes(encode_utf8(s).len(), 8) + encode_utf8(s),
    }
}

/// The value of type `t` at the start of `bytes`, with the count of the
/// bytes that hold it; `None` where the bytes hold no such value.
pub open spec fn decode_value(bytes: Seq<u8>, t: DataType) -> Option<(ValueSpec, int)> {
    match t {
        DataType::Integer => if bytes.len() >= 4 {
            Some((ValueSpec::Integer(bits_int(le_value(bytes.take(4)))), 4))
        } else {
            None
        },
        DataType::Float => if bytes.len() >= 4 {
            Some((ValueSpec::Float(le_value(bytes.take(4)) as u32), 4))
        } else {
            None
        },
        DataType::Boolean => if bytes.len() >= 1 && bytes[0] <= 1 {
            Some((ValueSpec::Boolean(bytes[0] == 1), 1))
        } else {
            None
        },
        DataType::Text => if bytes.len() >= 8 {
            let n = le_value(bytes.take(8)) as int;
            if 8 + n <= bytes.len() && valid_utf8(bytes.subrange(8, 8 + n)) {
                Some((ValueSpec::Text(decode_utf8(bytes.subrange(8, 8 + n))), 8 + n))
            } else {
                None
            }
        } else {
            None
        },
    }
}

/// Whether `v` can be stored: a text's UTF-8 form must have a length that
/// eight bytes can hold. Every value that a program can build is such.
pub open spec fn storable(v: ValueSpec) -> bool {
    v matches ValueSpec::Text(s) ==> encode_utf8(s).len() <= u64::MAX
}

/// The number that [`le_value`] reads from `width` bytes is below
/// `256^width`.
pub proof fn lemma_le_value_bound(bytes: Seq<u8>)
    ensures
        le_value(bytes) < radix_pow(bytes.len()),
    decreases bytes.len(),
{
    if bytes.len() > 0 {
        lemma_le_value_bound(bytes.skip(1));
    }
}

/// A stored value, followed by anything, is read back as it was, and the
/// count of bytes read is the count written.
pub proof fn lemma_decode_encode(v: ValueSpec, rest: Seq<u8>)
    requires
        storable(v),
    ensures
        decode_value(encode_value(v) + rest, v.data_type()) == Some(
            (v, encode_value(v).len() as int),
        ),
{
    let e = encode_value(v);
    let b = e + rest;
    lemma_radix_pow_values();
    match v {
        ValueSpec::Integer(i) => {
            lemma_le_bytes_len(int_bits(i), 4);
            lemma_le_round_trip(int_bits(i), 4);
            assert(b.take(4) =~= e);
        },
        ValueSpec::Float(bits) => {
            lemma_le_bytes_len(bits as nat, 4);
            lemma_le_round_trip(bits as nat, 4);
            assert(b.take(4) =~= e);
        },
        ValueSpec::Boolean(x) => {
            assert(b[0] == e[0]);
        },
        ValueSpec::Text(s) => {
            let u = encode_utf8(s);
            lemma_le_bytes_len(u.len(), 8);
            lemma_le_round_trip(u.len(), 8);
            assert(b.take(8) =~= le_bytes(u.len(), 8));
            assert(b.subrange(8, 8 + u.len() as int) =~= u);
            vstd::utf8::encode_utf8_valid_utf8(s);
            vstd::utf8::encode_utf8_decode_utf8(s);
        },
    }
}

/// Appends the stored form of `value` to `out`.
pub fn put_value(out: &mut Vec<u8>, value: &Value)
    ensures
        final(out)@ == old(out)@ + encode_value(value@),
{
    match value {
        Value::Integer(i) => {
            let bits: u64 = if *i < 0 {
                (*i as i64 + 0x1_0000_0000) as u64
            } else {
                *i as u64
            };
            put_le(out, bits, 4);
        },
        Value::Float(bits) => {
            put_le(out, *bits as u64, 4);
        },
        Value::Boolean(b) => {
            out.push(if *b { 1u8 } else { 0u8 });
            assert(out@ =~= old(out)@ + encode_value(value@));
        },
        Value::Text(s) => {
            let utf8 = s.as_str().as_bytes_vec();
            put_le(out, utf8.len() as u64, 8);
            let ghost mid = out@;
            let mut i: usize = 0;
            while i < utf8.len()
                invariant
                    i <= utf8.len(),
                    out@ == mid + utf8@.take(i as int),
                decreases utf8.len() - i,
            {
                out.push(utf8[i]);
                assert(mid + utf8@.take(i + 1) =~= (mid + utf8@.take(i as int)).push(
                    utf8@[i as int],
                ));
                i = i + 1;
            }
            assert(utf8@.take(utf8.len() as int) =~= utf8@);
            assert(out@ =~= old(out)@ + encode_value(value@));
        },
    }
}

/// The stored form of `value`. This never fails.
pub fn serialize_from_value(value: &Value) -> (r: Result<Vec<u8>, ErrorKind>)
    ensures
        r matches Ok(bytes) && bytes@ == encode_value(value@),
{
    let mut out: Vec<u8> = Vec::new();
    put_value(&mut out, value);
    assert(out@ =~= encode_value(value@));
    Ok(out)
}

/// `String::from_utf8` of std: the text that the bytes spell in UTF-8, or
/// nothing where they are not well-formed UTF-8.
#[verifier::external_body]
fn text_from_utf8(bytes: Vec<u8>) -> (r: Option<String>)
    ensures
        r is Some == valid_utf8(bytes@),
        r matches Some(s) ==> s@ == decode_utf8(bytes@),
{
    match String::from_utf8(bytes) {
        Ok(s) => Some(s),
        Err(_) => None,
    }
}

/// Reads the value of type `t` that starts at `bytes[at]`. Gives the value
/// and the index after it, or `InvalidData` where the bytes from `at` on
/// hold no such value.
pub fn read_value(bytes: &Vec<u8>, at: usize, t: DataType) -> (r: Result<(Value, usize), ErrorKind>)
    requires
        at <= bytes.len(),
    ensures
        match decode_value(bytes@.skip(at as int), t) {
            Some((v, n)) => r matches Ok((value, next)) && value@ == v && next == at + n,
            None => r == Err::<(Value, usize), ErrorKind>(ErrorKind::InvalidData),
        },
{
    let ghost tail = bytes@.skip(at as int);
    let left: usize = bytes.len() - at;
    match t {
        DataType::Integer => {
            if left < 4 {
                return Err(ErrorKind::InvalidData);
            }
            assert(tail.take(4) =~= bytes@.subrange(at as int, at + 4));
            let n = get_le(bytes, at, 4);
            proof {
                lemma_le_value_bound(tail.take(4));
                lemma_radix_pow_values();
            }
            let i: i32 = if n >= 0x8000_0000 {
                (n as i64 - 0x1_0000_0000) as i32
            } else {
                n as i32
            };
            Ok((Value::Integer(i), at + 4))
        },
        DataType::Float => {
            if left < 4 {
                return Err(ErrorKind::InvalidData);
            }
            assert(tail.take(4) =~= bytes@.subrange(at as int, at + 4));
            let n = get_le(bytes, at, 4);
            proof {
                lemma_le_value_bound(tail.take(4));
                lemma_radix_pow_values();
            }
            Ok((Value::Float(n as u32), at + 4))
        },
        DataType::Boolean => {
            if left < 1 || bytes[at] > 1 {
                return Err(ErrorKind::InvalidData);
            }
            Ok((Value::Boolean(bytes[at] == 1), at + 1))
        },
        DataType::Text => {
            if left < 8 {
                return Err(ErrorKind::InvalidData);
            }
            assert(tail.take(8) =~= bytes@.subrange(at as int, at + 8));
            let n = get_le(bytes, at, 8);
            if n > (left - 8) as u64 {
                return Err(ErrorKind::InvalidData);
            }
            let len: usize = n as usize;
            let start: usize = at + 8;
            let mut utf8: Vec<u8> = Vec::new();
            let mut i: usize = 0;
            while i < len
                invariant
                    i <= len,
                    start + len <= bytes.len(),
                    utf8@ == bytes@.subrange(start as int, start + i),
                decreases len - i,
            {
                utf8.push(bytes[start + i]);
                i = i + 1;
            }
            assert(utf8@ =~= tail.subrange(8, 8 + len));
            match text_from_utf8(utf8) {
                Some(s) => Ok((Value::Text(s), start + len)),
                None => Err(ErrorKind::InvalidData),
            }
        },
    }
}

} // verus!
