//! Variable-length 32-bit integers as they appear on the wire.
//!
//! A VarInt carries a signed 32-bit value in one to five bytes. Each byte
//! holds seven payload bits, least significant group first; a byte of 128 or
//! more announces that another byte follows.

use vstd::prelude::*;

verus! {

/// Why a VarInt could not be read.
#[derive(Clone, Copy, Debug, PartialEq, Eq, Structural)]
pub enum VarIntError {
    /// The input ended before the last byte of the number. More input may
    /// complete it.
    Incomplete,
    /// Five bytes went by and each of them announced another one.
    Malformed,
}

/// The value of `v` read as an unsigned 32-bit number.
pub open spec fn spec_unsigned(v: i32) -> nat {
    if v >= 0 {
        v as nat
    } else {
        (v + 0x1_0000_0000) as nat
    }
}

/// The signed 32-bit number whose unsigned reading is `u % 2^32`.
pub open spec fn spec_signed(u: nat) -> i32 {
    let low = u % 0x1_0000_0000;
    if low < 0x8000_0000 {
        low as i32
    } else {
        (low - 0x1_0000_0000) as i32
    }
}

/// The bytes that carry the unsigned number `u`.
pub open spec fn spec_encode_unsigned(u: nat) -> Seq<u8>
    decreases u,
{
    if u < 128 {
        seq![u as u8]
    } else {
        seq![(u % 128 + 128) as u8] + spec_encode_unsigned(u / 128)
    }
}

/// The bytes that carry `v` on the wire.
pub open spec fn spec_var_int(v: i32) -> Seq<u8> {
    spec_encode_unsigned(spec_unsigned(v))
}

/// One more than the largest number that `budget` bytes can carry.
pub open spec fn spec_capacity(budget: nat) -> nat
    decreases budget,
{
    if budget == 0 {
        1
    } else {
        128 * spec_capacity((budget - 1) as nat)
    }
}

/// Reads an unsigned number from the front of `bytes`, looking at no more
/// than `budget` bytes. Gives the number and how many bytes carried it.
pub open spec fn spec_decode_unsigned(bytes: Seq<u8>, budget: nat) -> Result<
    (nat, nat),
    VarIntError,
>
    decreases budget,
{
    if budget == 0 {
        Err(VarIntError::Malformed)
    } else if bytes.len() == 0 {
        Err(VarIntError::Incomplete)
    } else if bytes[0] < 128 {
        Ok((bytes[0] as nat, 1))
    } else {
        match spec_decode_unsigned(bytes.drop_first(), (budget - 1) as nat) {
            Ok((rest, n)) => Ok((((bytes[0] - 128) + 128 * rest) as nat, n + 1)),
            Err(e) => Err(e),
        }
    }
}

/// Reads a VarInt from the front of `bytes`. Gives the value and the number
/// of bytes it occupied. Bits beyond the thirty-second are dropped.
pub open spec fn spec_read_var_int(bytes: Seq<u8>) -> Result<(i32, usize), VarIntError> {
    match spec_decode_unsigned(bytes, 5) {
        Ok((raw, n)) => Ok((spec_signed(raw), n as usize)),
        Err(e) => Err(e),
    }
}

/// Every budget can carry the number zero.
pub proof fn lemma_capacity_positive(budget: nat)
    ensures
        spec_capacity(budget) >= 1,
    decreases budget,
{
    if budget != 0 {
        lemma_capacity_positive((budget - 1) as nat);
    }
}

/// What a successful decoding looked at: between one and `budget` bytes, all
/// present in the input, carrying a number below the capacity of `budget`.
pub proof fn lemma_decode_unsigned_bounds(bytes: Seq<u8>, budget: nat)
    ensures
        match spec_decode_unsigned(bytes, budget) {
            Ok((raw, n)) => 1 <= n <= budget && n <= bytes.len() && raw < spec_capacity(budget),
            Err(_) => true,
        },
    decreases budget,
{
    if budget != 0 {
        lemma_capacity_positive((budget - 1) as nat);
        if bytes.len() != 0 && bytes[0] >= 128 {
            lemma_decode_unsigned_bounds(bytes.drop_first(), (budget - 1) as nat);
        }
    }
}

/// A decoding that succeeded or was rejected is not changed by input that
/// arrives later.
pub proof fn lemma_decode_unsigned_extend(bytes: Seq<u8>, more: Seq<u8>, budget: nat)
    requires
        spec_decode_unsigned(bytes, budget) != Err::<(nat, nat), VarIntError>(
            VarIntError::Incomplete,
        ),
    ensures
        spec_decode_unsigned(bytes + more, budget) == spec_decode_unsigned(bytes, budget),
    decreases budget,
{
    if budget != 0 && bytes.len() != 0 {
        assert((bytes + more)[0] == bytes[0]);
        if bytes[0] >= 128 {
            assert((bytes + more).drop_first() =~= bytes.drop_first() + more);
            lemma_decode_unsigned_extend(bytes.drop_first(), more, (budget - 1) as nat);
        }
    }
}

/// Decoding undoes encoding, whatever follows the encoded number, as long as
/// the budget allows for the number's size.
pub proof fn lemma_decode_encode_unsigned(u: nat, rest: Seq<u8>, budget: nat)
    requires
        u < spec_capacity(budget),
        budget >= 1,
    ensures
        spec_decode_unsigned(spec_encode_unsigned(u) + rest, budget) == Ok::<
            (nat, nat),
            VarIntError,
        >((u, spec_encode_unsigned(u).len())),
        1 <= spec_encode_unsigned(u).len() <= budget,
    decreases u,
{
    let enc = spec_encode_unsigned(u);
    if u < 128 {
        assert((enc + rest)[0] == u as u8);
    } else {
        let tail = spec_encode_unsigned(u / 128);
        assert((enc + rest)[0] == (u % 128 + 128) as u8);
        assert((enc + rest).drop_first() =~= tail + rest);
        lemma_decode_encode_unsigned(u / 128, rest, (budget - 1) as nat);
    }
}

/// Five bytes are enough for every 32-bit number.
pub proof fn lemma_capacity_five()
    ensures
        spec_capacity(5) == 0x8_0000_0000,
{
    reveal_with_fuel(spec_capacity, 6);
}

/// The signed and the unsigned reading of a 32-bit number give each other.
pub proof fn lemma_signed_unsigned(v: i32)
    ensures
        spec_signed(spec_unsigned(v)) == v,
        spec_unsigned(v) < 0x1_0000_0000,
{
}

/// A VarInt occupies between one and five bytes.
pub proof fn lemma_var_int_len(v: i32)
    ensures
        1 <= spec_var_int(v).len() <= 5,
{
    lemma_capacity_five();
    lemma_decode_encode_unsigned(spec_unsigned(v), Seq::empty(), 5);
}

/// Reading gives back the value that was written, and stops where the
/// written bytes end.
pub proof fn lemma_read_var_int_round_trip(v: i32, rest: Seq<u8>)
    ensures
        spec_read_var_int(spec_var_int(v) + rest) == Ok::<(i32, usize), VarIntError>(
            (v, spec_var_int(v).len() as usize),
        ),
{
    lemma_capacity_five();
    lemma_signed_unsigned(v);
    lemma_decode_encode_unsigned(spec_unsigned(v), rest, 5);
}

/// A VarInt that was read, or rejected, reads the same once more input has
/// arrived behind it.
pub proof fn lemma_read_var_int_extend(bytes: Seq<u8>, more: Seq<u8>)
    requires
        spec_read_var_int(bytes) != Err::<(i32, usize), VarIntError>(VarIntError::Incomplete),
    ensures
        spec_read_var_int(bytes + more) == spec_read_var_int(bytes),
{
    lemma_decode_unsigned_extend(bytes, more, 5);
}

/// A VarInt that was read occupies between one and five bytes of the input.
pub proof fn lemma_read_var_int_bounds(bytes: Seq<u8>)
    ensures
        match spec_read_var_int(bytes) {
            Ok((_, n)) => 1 <= n <= 5 && n <= bytes.len(),
            Err(_) => true,
        },
{
    lemma_decode_unsigned_bounds(bytes, 5);
}

/// Five bytes that all announce a successor are rejected, whatever follows
/// them.
pub proof fn lemma_five_continuations_malformed(bytes: Seq<u8>)
    requires
        bytes.len() >= 5,
        forall|i: int| 0 <= i < 5 ==> bytes[i] >= 128,
    ensures
        spec_read_var_int(bytes) == Err::<(i32, usize), VarIntError>(VarIntError::Malformed),
{
    let b1 = bytes.drop_first();
    let b2 = b1.drop_first();
    let b3 = b2.drop_first();
    let b4 = b3.drop_first();
    let b5 = b4.drop_first();
    assert(bytes[0] >= 128);
    assert(b1[0] == bytes[1]);
    assert(b2[0] == bytes[2]);
    assert(b3[0] == bytes[3]);
    assert(b4[0] == bytes[4]);
    assert(spec_decode_unsigned(b5, 0) == Err::<(nat, nat), VarIntError>(VarIntError::Malformed));
    assert(spec_decode_unsigned(b4, 1) == Err::<(nat, nat), VarIntError>(VarIntError::Malformed));
    assert(spec_decode_unsigned(b3, 2) == Err::<(nat, nat), VarIntError>(VarIntError::Malformed));
    assert(spec_decode_unsigned(b2, 3) == Err::<(nat, nat), VarIntError>(VarIntError::Malformed));
    assert(spec_decode_unsigned(b1, 4) == Err::<(nat, nat), VarIntError>(VarIntError::Malformed));
}

/// A VarInt can be incomplete only while fewer than five bytes are there.
pub proof fn lemma_incomplete_is_short(bytes: Seq<u8>)
    requires
        spec_read_var_int(bytes) == Err::<(i32, usize), VarIntError>(VarIntError::Incomplete),
    ensures
        bytes.len() < 5,
{
    lemma_decode_incomplete_is_short(bytes, 5);
}

proof fn lemma_decode_incomplete_is_short(bytes: Seq<u8>, budget: nat)
    requires
        spec_decode_unsigned(bytes, budget) == Err::<(nat, nat), VarIntError>(
            VarIntError::Incomplete,
        ),
    ensures
        bytes.len() < budget,
    decreases budget,
{
    if budget != 0 && bytes.len() != 0 {
        lemma_decode_incomplete_is_short(bytes.drop_first(), (budget - 1) as nat);
    }
}

/// The unsigned reading of `v`.
pub fn to_unsigned(v: i32) -> (u: u32)
    ensures
        u as nat == spec_unsigned(v),
{
    if v >= 0 {
        v as u32
    } else {
        ((v - i32::MIN) as u32) + 0x8000_0000u32
    }
}

/// The signed reading of `u`.
pub fn to_signed(u: u32) -> (v: i32)
    ensures
        v == spec_signed(u as nat),
{
    if u < 0x8000_0000u32 {
        u as i32
    } else {
        ((u - 0x8000_0000u32) as i32) + i32::MIN
    }
}

fn decode_unsigned(bytes: &[u8], start: usize, budget: usize) -> (r: Result<
    (u64, usize),
    VarIntError,
>)
    requires
        start <= bytes.len(),
        budget <= 5,
    ensures
        match spec_decode_unsigned(bytes@.skip(start as int), budget as nat) {
            Ok((raw, n)) => r == Ok::<(u64, usize), VarIntError>((raw as u64, n as usize)) && raw
                < spec_capacity(budget as nat) && n <= 5,
            Err(e) => r == Err::<(u64, usize), VarIntError>(e),
        },
    decreases budget,
{
    proof {
        lemma_capacity_five();
        reveal_with_fuel(spec_capacity, 6);
        lemma_decode_unsigned_bounds(bytes@.skip(start as int), budget as nat);
    }
    if budget == 0 {
        return Err(VarIntError::Malformed);
    }
    if start >= bytes.len() {
        return Err(VarIntError::Incomplete);
    }
    let b: u8 = bytes[start];
    assert(bytes@.skip(start as int)[0] == b);
    if b < 128 {
        return Ok((b as u64, 1));
    }
    assert(bytes@.skip(start as int).drop_first() =~= bytes@.skip(start + 1));
    match decode_unsigned(bytes, start + 1, budget - 1) {
        Ok((rest, n)) => {
            assert(rest < spec_capacity((budget - 1) as nat));
            assert(spec_capacity((budget - 1) as nat) <= 0x1000_0000);
            Ok(((b - 128) as u64 + 128 * rest, n + 1))
        },
        Err(e) => Err(e),
    }
}

/// Reads a VarInt from the front of `bytes`.
///
/// Gives the value and the number of bytes it occupied. Input that ends
/// before the number does is `Incomplete`; five bytes that all announce a
/// successor are `Malformed`.
pub fn read_var_int(bytes: &[u8]) -> (r: Result<(i32, usize), VarIntError>)
    ensures
        r == spec_read_var_int(bytes@),
{
    proof {
        lemma_capacity_five();
        assert(bytes@.skip(0) =~= bytes@);
    }
    match decode_unsigned(bytes, 0, 5) {
        Ok((raw, n)) => {
            let low: u32 = (raw % 0x1_0000_0000u64) as u32;
            Ok((to_signed(low), n))
        },
        Err(e) => Err(e),
    }
}

/// Appends the bytes of `value` to `out`.
pub fn write_var_int(value: i32, out: &mut Vec<u8>)
    ensures
        final(out)@ == old(out)@ + spec_var_int(value),
{
    let ghost before = out@;
    let mut rest: u32 = to_unsigned(value);
    while rest >= 128
        invariant
            out@ + spec_encode_unsigned(rest as nat) == before + spec_var_int(value),
        decreases rest,
    {
        let ghost prior = out@;
        out.push((rest % 128 + 128) as u8);
        assert(out@ + spec_encode_unsigned((rest / 128) as nat) =~= prior + spec_encode_unsigned(
            rest as nat,
        ));
        rest = rest / 128;
    }
    let ghost prior = out@;
    out.push(rest as u8);
    assert(out@ =~= prior + spec_encode_unsigned(rest as nat));
}

} // verus!
