//! The field types that packet payloads are made of.
//!
//! Every reader looks at the front of a byte sequence and gives the value
//! together with the number of bytes it took, or nothing where the bytes do
//! not hold such a value. Every writer appends to a byte vector.

use crate::compression::extend;
use crate::varint::{
    lemma_read_var_int_bounds, lemma_read_var_int_round_trip, lemma_var_int_len, read_var_int,
    spec_read_var_int, spec_signed, spec_var_int, to_signed, write_var_int,
};
use vstd::prelude::*;
use vstd::utf8::{decode_utf8, encode_utf8, valid_utf8};

verus! {

/// The `n` bytes that hold `u % 256^n`, most significant byte first.
pub open spec fn spec_be_bytes(u: nat, n: nat) -> Seq<u8>
    decreases n,
{
    if n == 0 {
        Seq::empty()
    } else {
        spec_be_bytes(u / 256, (n - 1) as nat).push((u % 256) as u8)
    }
}

/// The number that `bytes` hold, most significant byte first.
pub open spec fn spec_be_value(bytes: Seq<u8>) -> nat
    decreases bytes.len(),
{
    if bytes.len() == 0 {
        0
    } else {
        256 * spec_be_value(bytes.drop_last()) + bytes.last() as nat
    }
}

/// One more than the largest number that `n` bytes can hold.
pub open spec fn spec_be_capacity(n: nat) -> nat
    decreases n,
{
    if n == 0 {
        1
    } else {
        256 * spec_be_capacity((n - 1) as nat)
    }
}

/// A number written in `n` bytes takes `n` bytes.
pub proof fn lemma_be_bytes_len(u: nat, n: nat)
    ensures
        spec_be_bytes(u, n).len() == n,
    decreases n,
{
    if n != 0 {
        lemma_be_bytes_len(u / 256, (n - 1) as nat);
    }
}

/// What bytes hold is below the capacity of their number.
pub proof fn lemma_be_value_bound(bytes: Seq<u8>)
    ensures
        spec_be_value(bytes) < spec_be_capacity(bytes.len()),
    decreases bytes.len(),
{
    if bytes.len() != 0 {
        lemma_be_value_bound(bytes.drop_last());
    }
}

/// Reading the bytes of a number that fits gives the number back.
pub proof fn lemma_be_round_trip(u: nat, n: nat)
    requires
        u < spec_be_capacity(n),
    ensures
        spec_be_value(spec_be_bytes(u, n)) == u,
    decreases n,
{
    if n != 0 {
        let head = spec_be_bytes(u / 256, (n - 1) as nat);
        lemma_be_round_trip(u / 256, (n - 1) as nat);
        assert(head.push((u % 256) as u8).drop_last() =~= head);
    }
}

/// The bytes of an unsigned 16-bit number.
pub open spec fn spec_u16(v: u16) -> Seq<u8> {
    spec_be_bytes(v as nat, 2)
}

/// Reads an unsigned 16-bit number.
pub open spec fn spec_read_u16(bytes: Seq<u8>) -> Option<(u16, nat)> {
    if bytes.len() < 2 {
        None
    } else {
        Some((spec_be_value(bytes.take(2)) as u16, 2))
    }
}

/// The value of `v` read as an unsigned 64-bit number.
pub open spec fn spec_unsigned64(v: i64) -> nat {
    if v >= 0 {
        v as nat
    } else {
        (v + 0x1_0000_0000_0000_0000) as nat
    }
}

/// The signed 64-bit number whose unsigned reading is `u`.
pub open spec fn spec_signed64(u: nat) -> i64 {
    if u < 0x8000_0000_0000_0000 {
        u as i64
    } else {
        (u - 0x1_0000_0000_0000_0000) as i64
    }
}

/// The bytes of a signed 64-bit number.
pub open spec fn spec_i64(v: i64) -> Seq<u8> {
    spec_be_bytes(spec_unsigned64(v), 8)
}

/// Reads a signed 64-bit number.
pub open spec fn spec_read_i64(bytes: Seq<u8>) -> Option<(i64, nat)> {
    if bytes.len() < 8 {
        None
    } else {
        Some((spec_signed64(spec_be_value(bytes.take(8))), 8))
    }
}

/// Reads a VarInt as a field of a payload: where it is cut short or
/// malformed, there is no value.
pub open spec fn spec_read_var_int_field(bytes: Seq<u8>) -> Option<(i32, nat)> {
    match spec_read_var_int(bytes) {
        Ok((v, n)) => Some((v, n as nat)),
        Err(_) => None,
    }
}

/// The bytes of a string: the length of its UTF-8 form as a VarInt, then
/// that form.
pub open spec fn spec_string(chars: Seq<char>) -> Seq<u8> {
    spec_var_int(spec_signed(encode_utf8(chars).len())) + encode_utf8(chars)
}

/// Reads a string: a VarInt length that is not negative, then as many bytes
/// of valid UTF-8.
pub open spec fn spec_read_string(bytes: Seq<u8>) -> Option<(Seq<char>, nat)> {
    match spec_read_var_int(bytes) {
        Ok((len, n)) => {
            if len < 0 || bytes.len() - n < len {
                None
            } else {
                let text = bytes.subrange(n as int, n + len);
                if valid_utf8(text) {
                    Some((decode_utf8(text), (n + len) as nat))
                } else {
                    None
                }
            }
        },
        Err(_) => None,
    }
}

/// Two bytes hold every unsigned 16-bit number, eight every 64-bit one.
pub proof fn lemma_be_capacities()
    ensures
        spec_be_capacity(2) == 0x1_0000,
        spec_be_capacity(8) == 0x1_0000_0000_0000_0000,
{
    reveal_with_fuel(spec_be_capacity, 9);
}

/// An unsigned 16-bit number that was written reads back, whatever follows.
pub proof fn lemma_u16_round_trip(v: u16, rest: Seq<u8>)
    ensures
        spec_read_u16(spec_u16(v) + rest) == Some((v, 2nat)),
        spec_u16(v).len() == 2,
{
    lemma_be_capacities();
    lemma_be_bytes_len(v as nat, 2);
    lemma_be_round_trip(v as nat, 2);
    assert((spec_u16(v) + rest).take(2) =~= spec_u16(v));
}

/// A signed 64-bit number that was written reads back, whatever follows.
pub proof fn lemma_i64_round_trip(v: i64, rest: Seq<u8>)
    ensures
        spec_read_i64(spec_i64(v) + rest) == Some((v, 8nat)),
        spec_i64(v).len() == 8,
{
    lemma_be_capacities();
    lemma_be_bytes_len(spec_unsigned64(v), 8);
    lemma_be_round_trip(spec_unsigned64(v), 8);
    assert((spec_i64(v) + rest).take(8) =~= spec_i64(v));
}

/// A VarInt field that was written reads back, whatever follows.
pub proof fn lemma_var_int_field_round_trip(v: i32, rest: Seq<u8>)
    ensures
        spec_read_var_int_field(spec_var_int(v) + rest) == Some((v, spec_var_int(v).len())),
{
    lemma_read_var_int_round_trip(v, rest);
    lemma_var_int_len(v);
}

/// A string whose UTF-8 form is shorter than 2^31 bytes reads back as it
/// was written, whatever follows.
pub proof fn lemma_string_round_trip(chars: Seq<char>, rest: Seq<u8>)
    requires
        encode_utf8(chars).len() < 0x8000_0000,
    ensures
        spec_read_string(spec_string(chars) + rest) == Some((chars, spec_string(chars).len())),
{
    let text = encode_utf8(chars);
    let len = spec_signed(text.len());
    let head = spec_var_int(len);
    let all = spec_string(chars) + rest;
    assert(len == text.len());
    assert(all =~= head + (text + rest));
    lemma_read_var_int_round_trip(len, text + rest);
    lemma_var_int_len(len);
    assert(all.subrange(head.len() as int, head.len() + len) =~= text);
    vstd::utf8::encode_utf8_valid_utf8(chars);
    vstd::utf8::encode_utf8_decode_utf8(chars);
}

/// The unsigned reading of `v`.
pub fn to_unsigned64(v: i64) -> (u: u64)
    ensures
        u as nat == spec_unsigned64(v),
{
    if v >= 0 {
        v as u64
    } else {
        ((v - i64::MIN) as u64) + 0x8000_0000_0000_0000u64
    }
}

/// The signed reading of `u`.
pub fn to_signed64(u: u64) -> (v: i64)
    ensures
        v == spec_signed64(u as nat),
{
    if u < 0x8000_0000_0000_0000u64 {
        u as i64
    } else {
        ((u - 0x8000_0000_0000_0000u64) as i64) + i64::MIN
    }
}

/// Appends the bytes of `v`.
pub fn write_u16(v: u16, out: &mut Vec<u8>)
    ensures
        final(out)@ == old(out)@ + spec_u16(v),
{
    proof {
        reveal_with_fuel(spec_be_bytes, 3);
    }
    let ghost before = out@;
    out.push((v / 256) as u8);
    out.push((v % 256) as u8);
    assert(out@ =~= before + spec_u16(v));
}

/// Reads an unsigned 16-bit number at `pos`. Gives the number and the
/// position behind it.
pub fn read_u16(bytes: &[u8], pos: usize) -> (r: Option<(u16, usize)>)
    requires
        pos <= bytes.len(),
    ensures
        match spec_read_u16(bytes@.skip(pos as int)) {
            Some((v, n)) => r == Some((v, (pos + n) as usize)) && pos + n <= bytes.len(),
            None => r is None,
        },
{
    if bytes.len() - pos < 2 {
        return None;
    }
    let hi: u16 = bytes[pos] as u16;
    let lo: u16 = bytes[pos + 1] as u16;
    proof {
        reveal_with_fuel(spec_be_value, 3);
        let two = bytes@.skip(pos as int).take(2);
        assert(two.last() == bytes@[pos + 1]);
        assert(two.drop_last().last() == bytes@[pos as int]);
    }
    Some((hi * 256 + lo, pos + 2))
}

/// Appends the bytes of `v`.
pub fn write_i64(v: i64, out: &mut Vec<u8>)
    ensures
        final(out)@ == old(out)@ + spec_i64(v),
{
    proof {
        reveal_with_fuel(spec_be_bytes, 9);
    }
    let ghost before = out@;
    let u0: u64 = to_unsigned64(v);
    let u1: u64 = u0 / 256;
    let u2: u64 = u1 / 256;
    let u3: u64 = u2 / 256;
    let u4: u64 = u3 / 256;
    let u5: u64 = u4 / 256;
    let u6: u64 = u5 / 256;
    let u7: u64 = u6 / 256;
    out.push((u7 % 256) as u8);
    out.push((u6 % 256) as u8);
    out.push((u5 % 256) as u8);
    out.push((u4 % 256) as u8);
    out.push((u3 % 256) as u8);
    out.push((u2 % 256) as u8);
    out.push((u1 % 256) as u8);
    out.push((u0 % 256) as u8);
    assert(out@ =~= before + spec_i64(v));
}

/// Reads a signed 64-bit number at `pos`. Gives the number and the position
/// behind it.
pub fn read_i64(bytes: &[u8], pos: usize) -> (r: Option<(i64, usize)>)
    requires
        pos <= bytes.len(),
    ensures
        match spec_read_i64(bytes@.skip(pos as int)) {
            Some((v, n)) => r == Some((v, (pos + n) as usize)) && pos + n <= bytes.len(),
            None => r is None,
        },
{
    if bytes.len() - pos < 8 {
        return None;
    }
    let ghost eight = bytes@.skip(pos as int).take(8);
    let mut acc: u64 = 0;
    let mut i: usize = 0;
    while i < 8
        invariant
            i <= 8,
            pos + 8 <= bytes.len(),
            eight == bytes@.skip(pos as int).take(8),
            acc as nat == spec_be_value(eight.take(i as int)),
            acc < spec_be_capacity(i as nat),
        decreases 8 - i,
    {
        proof {
            reveal_with_fuel(spec_be_capacity, 9);
            let next = eight.take(i + 1);
            assert(next.drop_last() =~= eight.take(i as int));
            assert(next.last() == bytes@[pos + i]);
            lemma_be_value_bound(next);
        }
        acc = acc * 256 + bytes[pos + i] as u64;
        i = i + 1;
    }
    assert(eight.take(8) =~= eight);
    Some((to_signed64(acc), pos + 8))
}

/// Reads a VarInt field at `pos`. Gives the value and the position behind
/// it.
pub fn read_var_int_field(bytes: &[u8], pos: usize) -> (r: Option<(i32, usize)>)
    requires
        pos <= bytes.len(),
    ensures
        match spec_read_var_int_field(bytes@.skip(pos as int)) {
            Some((v, n)) => r == Some((v, (pos + n) as usize)) && pos + n <= bytes.len(),
            None => r is None,
        },
{
    proof {
        lemma_read_var_int_bounds(bytes@.skip(pos as int));
    }
    match read_var_int(&bytes[pos..bytes.len()]) {
        Ok((v, n)) => Some((v, pos + n)),
        Err(_) => None,
    }
}

/// Turns bytes into a string with `String::from_utf8`, which accepts them
/// exactly when they are valid UTF-8 and then holds the characters that
/// they encode.
#[verifier::external_body]
fn string_from_utf8(bytes: Vec<u8>) -> (r: Option<String>)
    ensures
        r is Some <==> valid_utf8(bytes@),
        r matches Some(s) ==> s@ == decode_utf8(bytes@),
{
    match String::from_utf8(bytes) {
        Ok(s) => Some(s),
        Err(_) => None,
    }
}

/// Appends the bytes of `s`.
pub fn write_string(s: &str, out: &mut Vec<u8>)
    ensures
        final(out)@ == old(out)@ + spec_string(s@),
{
    let ghost before = out@;
    let text = s.as_bytes();
    let len: u32 = (text.len() as u64 % 0x1_0000_0000u64) as u32;
    write_var_int(to_signed(len), out);
    extend(out, text);
    assert(out@ =~= before + spec_string(s@));
}

/// Reads a string at `pos`. Gives the string and the position behind it.
pub fn read_string(bytes: &[u8], pos: usize) -> (r: Option<(String, usize)>)
    requires
        pos <= bytes.len(),
    ensures
        match spec_read_string(bytes@.skip(pos as int)) {
            Some((chars, n)) => r matches Some((s, end)) && s@ == chars && end == pos + n && end
                <= bytes.len(),
            None => r is None,
        },
{
    proof {
        lemma_read_var_int_bounds(bytes@.skip(pos as int));
    }
    match read_var_int(&bytes[pos..bytes.len()]) {
        Ok((len, n)) => {
            if len < 0 {
                return None;
            }
            let start = pos + n;
            if bytes.len() - start < len as usize {
                return None;
            }
            let end = start + len as usize;
            let mut text: Vec<u8> = Vec::new();
            extend(&mut text, &bytes[start..end]);
            assert(text@ =~= bytes@.skip(pos as int).subrange(n as int, n + len));
            match string_from_utf8(text) {
                Some(s) => Some((s, end)),
                None => None,
            }
        },
        Err(_) => None,
    }
}

} // verus!
