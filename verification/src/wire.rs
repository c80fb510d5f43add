//! The byte level of the wire protocol.
//!
//! Numbers and text travel in the postcard format: unsigned numbers as little
//! endian groups of seven bits, signed ones folded to unsigned first, text as
//! its length in bytes and then the bytes.

use vstd::prelude::*;
use vstd::slice::slice_subrange;
use vstd::slice::slice_to_vec;
#[allow(unused_imports)]
use vstd::utf8::{
    decode_utf8, encode_utf8, encode_utf8_decode_utf8, encode_utf8_valid_utf8, valid_utf8,
};

verus! {

/// A number in groups of seven bits, lowest first; every group but the last has
/// the top bit set.
pub open spec fn varint(n: nat) -> Seq<u8>
    decreases n,
{
    if n < 128 {
        seq![n as u8]
    } else {
        seq![(n % 128 + 128) as u8] + varint(n / 128)
    }
}

/// Reads a number of at most `room` groups, the last of which may hold `last` at
/// most when all of them are used. Gives the number and the bytes after it.
pub open spec fn read_varint(b: Seq<u8>, room: nat, last: nat) -> Option<(nat, Seq<u8>)>
    decreases room,
{
    if room == 0 || b.len() == 0 {
        None
    } else if b[0] < 128 {
        if room == 1 && b[0] > last {
            None
        } else {
            Some((b[0] as nat, b.skip(1)))
        }
    } else {
        match read_varint(b.skip(1), (room - 1) as nat, last) {
            Some((high, rest)) => Some(((b[0] - 128 + 128 * high) as nat, rest)),
            None => None,
        }
    }
}

/// A number of sixteen bits takes three groups at most.
#[verifier::opaque]
pub open spec fn read_u16(b: Seq<u8>) -> Option<(nat, Seq<u8>)> {
    read_varint(b, 3, 3)
}

/// A number of thirty-two bits takes five groups at most.
#[verifier::opaque]
pub open spec fn read_u32(b: Seq<u8>) -> Option<(nat, Seq<u8>)> {
    read_varint(b, 5, 15)
}

/// A number of sixty-four bits takes ten groups at most.
#[verifier::opaque]
pub open spec fn read_u64(b: Seq<u8>) -> Option<(nat, Seq<u8>)> {
    read_varint(b, 10, 1)
}

/// A signed number folded to an unsigned one: 0, -1, 1, -2, 2 and so on.
pub open spec fn folded(v: int) -> nat {
    if v >= 0 {
        (2 * v) as nat
    } else {
        (-2 * v - 1) as nat
    }
}

/// The signed number behind a folded one.
pub open spec fn unfolded(n: nat) -> int {
    if n % 2 == 0 {
        (n / 2) as int
    } else {
        -((n / 2) as int) - 1
    }
}

pub open spec fn read_i32(b: Seq<u8>) -> Option<(int, Seq<u8>)> {
    match read_u32(b) {
        Some((n, rest)) => Some((unfolded(n), rest)),
        None => None,
    }
}

/// A byte string: its length, then the bytes.
#[verifier::opaque]
pub open spec fn blob(bytes: Seq<u8>) -> Seq<u8> {
    varint(bytes.len()) + bytes
}

#[verifier::opaque]
pub open spec fn read_blob(b: Seq<u8>) -> Option<(Seq<u8>, Seq<u8>)> {
    match read_u64(b) {
        Some((n, rest)) => if n <= rest.len() {
            Some((rest.take(n as int), rest.skip(n as int)))
        } else {
            None
        },
        None => None,
    }
}

/// Text: the blob of its UTF-8 bytes.
#[verifier::opaque]
pub open spec fn text(s: Seq<char>) -> Seq<u8> {
    blob(encode_utf8(s))
}

#[verifier::opaque]
pub open spec fn read_text(b: Seq<u8>) -> Option<(Seq<char>, Seq<u8>)> {
    match read_blob(b) {
        Some((bytes, rest)) => if valid_utf8(bytes) {
            Some((decode_utf8(bytes), rest))
        } else {
            None
        },
        None => None,
    }
}

pub open spec fn read_u8(b: Seq<u8>) -> Option<(u8, Seq<u8>)> {
    if b.len() == 0 {
        None
    } else {
        Some((b[0], b.skip(1)))
    }
}

/// A flag: one byte, zero or one.
pub open spec fn flag(v: bool) -> Seq<u8> {
    seq![
        if v {
            1u8
        } else {
            0u8
        },
    ]
}

pub open spec fn read_flag(b: Seq<u8>) -> Option<(bool, Seq<u8>)> {
    if b.len() == 0 || b[0] > 1 {
        None
    } else {
        Some((b[0] == 1, b.skip(1)))
    }
}

/// A number of thirty-two bits as it is in memory: four bytes, lowest first.
pub open spec fn four_bytes(n: int) -> Seq<u8> {
    seq![
        (n % 256) as u8,
        (n / 256 % 256) as u8,
        (n / 65_536 % 256) as u8,
        (n / 16_777_216 % 256) as u8,
    ]
}

pub open spec fn read_four(b: Seq<u8>) -> Option<(int, Seq<u8>)> {
    if b.len() < 4 {
        None
    } else {
        Some((b[0] + 256 * b[1] + 65_536 * b[2] + 16_777_216 * b[3], b.skip(4)))
    }
}

/// `postcard::to_allocvec` on an unsigned number. It writes the number as a
/// varint and has no way to fail, because the buffer grows.
#[verifier::external_body]
fn postcard_unsigned(v: u64) -> (bytes: Option<Vec<u8>>)
    ensures
        bytes is Some,
        bytes->0@ == varint(v as nat),
{
    postcard::to_allocvec(&v).ok()
}

/// `postcard::to_allocvec` on a signed number. It folds the number to an unsigned
/// one and writes that as a varint; it has no way to fail, because the buffer
/// grows.
#[verifier::external_body]
fn postcard_signed(v: i64) -> (bytes: Option<Vec<u8>>)
    ensures
        bytes is Some,
        bytes->0@ == varint(folded(v as int)),
{
    postcard::to_allocvec(&v).ok()
}

/// `postcard::to_allocvec` on text. It writes the length in bytes as a varint and
/// then the bytes; it has no way to fail, because the buffer grows.
#[verifier::external_body]
fn postcard_text(s: &str) -> (bytes: Option<Vec<u8>>)
    ensures
        bytes is Some,
        bytes->0@ == text(s@),
{
    postcard::to_allocvec(s).ok()
}

/// `postcard::take_from_bytes` for a byte: the first one.
#[verifier::external_body]
pub(crate) fn take_u8<'a>(bytes: &'a [u8]) -> (r: Option<(u8, &'a [u8])>)
    ensures
        match r {
            Some((v, rest)) => read_u8(bytes@) == Some((v, rest@)),
            None => read_u8(bytes@) is None,
        },
{
    postcard::take_from_bytes::<u8>(bytes).ok()
}

/// `postcard::take_from_bytes` for a flag: one byte, refused unless it is zero or
/// one.
#[verifier::external_body]
pub(crate) fn take_flag<'a>(bytes: &'a [u8]) -> (r: Option<(bool, &'a [u8])>)
    ensures
        match r {
            Some((v, rest)) => read_flag(bytes@) == Some((v, rest@)),
            None => read_flag(bytes@) is None,
        },
{
    postcard::take_from_bytes::<bool>(bytes).ok()
}

/// `postcard::take_from_bytes` for a number of sixteen bits: a varint of at most
/// three groups.
#[verifier::external_body]
pub(crate) fn take_u16<'a>(bytes: &'a [u8]) -> (r: Option<(u16, &'a [u8])>)
    ensures
        match r {
            Some((v, rest)) => read_u16(bytes@) == Some((v as nat, rest@)),
            None => read_u16(bytes@) is None,
        },
{
    postcard::take_from_bytes::<u16>(bytes).ok()
}

/// `postcard::take_from_bytes` for a number of thirty-two bits: a varint of at
/// most five groups.
#[verifier::external_body]
pub(crate) fn take_u32<'a>(bytes: &'a [u8]) -> (r: Option<(u32, &'a [u8])>)
    ensures
        match r {
            Some((v, rest)) => read_u32(bytes@) == Some((v as nat, rest@)),
            None => read_u32(bytes@) is None,
        },
{
    postcard::take_from_bytes::<u32>(bytes).ok()
}

/// `postcard::take_from_bytes` for a number of sixty-four bits: a varint of at
/// most ten groups.
#[verifier::external_body]
pub(crate) fn take_u64<'a>(bytes: &'a [u8]) -> (r: Option<(u64, &'a [u8])>)
    ensures
        match r {
            Some((v, rest)) => read_u64(bytes@) == Some((v as nat, rest@)),
            None => read_u64(bytes@) is None,
        },
{
    postcard::take_from_bytes::<u64>(bytes).ok()
}

/// `postcard::take_from_bytes` for a signed number of thirty-two bits: a folded
/// one, as a varint of at most five groups.
#[verifier::external_body]
pub(crate) fn take_i32<'a>(bytes: &'a [u8]) -> (r: Option<(i32, &'a [u8])>)
    ensures
        match r {
            Some((v, rest)) => read_i32(bytes@) == Some((v as int, rest@)),
            None => read_i32(bytes@) is None,
        },
{
    postcard::take_from_bytes::<i32>(bytes).ok()
}

/// `String::from_utf8`: the text these bytes encode, if they are valid UTF-8.
#[verifier::external_body]
fn text_from_utf8(bytes: Vec<u8>) -> (s: Option<String>)
    ensures
        match s {
            Some(t) => valid_utf8(bytes@) && t@ == decode_utf8(bytes@),
            None => !valid_utf8(bytes@),
        },
{
    String::from_utf8(bytes).ok()
}

pub fn put_u8(out: &mut Vec<u8>, v: u8)
    ensures
        final(out)@ == old(out)@ + seq![v],
{
    out.push(v);
    assert(out@ =~= old(out)@ + seq![v]);
}

/// Appends a number as it is in memory.
pub fn put_four(out: &mut Vec<u8>, n: u32)
    ensures
        final(out)@ == old(out)@ + four_bytes(n as int),
{
    put_u8(out, (n % 256) as u8);
    put_u8(out, (n / 256 % 256) as u8);
    put_u8(out, (n / 65_536 % 256) as u8);
    put_u8(out, (n / 16_777_216 % 256) as u8);
    assert(out@ =~= old(out)@ + four_bytes(n as int));
}

/// Reads a number as it is in memory.
pub fn take_four<'a>(bytes: &'a [u8]) -> (r: Option<(u32, &'a [u8])>)
    ensures
        match r {
            Some((v, rest)) => read_four(bytes@) == Some((v as int, rest@)),
            None => read_four(bytes@) is None,
        },
{
    let (a, bytes1) = take_u8(bytes)?;
    let (b, bytes2) = take_u8(bytes1)?;
    let (c, bytes3) = take_u8(bytes2)?;
    let (d, rest) = take_u8(bytes3)?;
    assert(rest@ =~= bytes@.skip(4));
    Some((a as u32 + 256 * b as u32 + 65_536 * c as u32 + 16_777_216 * d as u32, rest))
}

/// A number of thirty-two bits is read back as it was.
pub proof fn law_four_bytes_round_trip(n: int, rest: Seq<u8>)
    requires
        0 <= n <= u32::MAX,
    ensures
        read_four(four_bytes(n) + rest) == Some((n, rest)),
{
    assert((four_bytes(n) + rest).skip(4) =~= rest);
}

pub fn put_flag(out: &mut Vec<u8>, v: bool)
    ensures
        final(out)@ == old(out)@ + flag(v),
{
    out.push(if v {
        1
    } else {
        0
    });
    assert(out@ =~= old(out)@ + flag(v));
}

pub fn put_unsigned(out: &mut Vec<u8>, v: u64)
    ensures
        final(out)@ == old(out)@ + varint(v as nat),
{
    if let Some(mut bytes) = postcard_unsigned(v) {
        out.append(&mut bytes);
    }
}

pub fn put_signed(out: &mut Vec<u8>, v: i64)
    ensures
        final(out)@ == old(out)@ + varint(folded(v as int)),
{
    if let Some(mut bytes) = postcard_signed(v) {
        out.append(&mut bytes);
    }
}

pub fn put_text(out: &mut Vec<u8>, s: &str)
    ensures
        final(out)@ == old(out)@ + text(s@),
        encode_utf8(s@).len() <= u64::MAX,
{
    let length: usize = s.as_bytes().len();
    assert(encode_utf8(s@).len() == length);
    if let Some(mut bytes) = postcard_text(s) {
        out.append(&mut bytes);
    }
}

pub fn put_blob(out: &mut Vec<u8>, bytes: &[u8])
    ensures
        final(out)@ == old(out)@ + blob(bytes@),
        bytes@.len() <= u64::MAX,
{
    proof {
        reveal(blob);
    }
    let length: usize = bytes.len();
    put_unsigned(out, length as u64);
    let mut copy = slice_to_vec(bytes);
    out.append(&mut copy);
    assert(out@ =~= old(out)@ + blob(bytes@));
}

pub fn take_blob<'a>(bytes: &'a [u8]) -> (r: Option<(Vec<u8>, &'a [u8])>)
    ensures
        match r {
            Some((v, rest)) => read_blob(bytes@) == Some((v@, rest@)),
            None => read_blob(bytes@) is None,
        },
{
    proof {
        reveal(read_blob);
    }
    match take_u64(bytes) {
        Some((n, rest)) => {
            if n > rest.len() as u64 {
                return None;
            }
            let n: usize = n as usize;
            let head = slice_to_vec(slice_subrange(rest, 0, n));
            let tail = slice_subrange(rest, n, rest.len());
            assert(head@ =~= rest@.take(n as int));
            assert(tail@ =~= rest@.skip(n as int));
            Some((head, tail))
        },
        None => None,
    }
}

pub fn take_text<'a>(bytes: &'a [u8]) -> (r: Option<(String, &'a [u8])>)
    ensures
        match r {
            Some((v, rest)) => read_text(bytes@) == Some((v@, rest@)),
            None => read_text(bytes@) is None,
        },
{
    proof {
        reveal(read_text);
    }
    match take_blob(bytes) {
        Some((head, rest)) => match text_from_utf8(head) {
            Some(s) => Some((s, rest)),
            None => None,
        },
        None => None,
    }
}

/// The numbers that fit `room` groups when the last may hold `last`.
pub open spec fn fits_groups(n: nat, room: nat, last: nat) -> bool
    decreases room,
{
    if room == 0 {
        false
    } else if room == 1 {
        n <= last && n < 128
    } else {
        n < 128 || fits_groups(n / 128, (room - 1) as nat, last)
    }
}

proof fn lemma_varint(n: nat, rest: Seq<u8>, room: nat, last: nat)
    requires
        fits_groups(n, room, last),
    ensures
        read_varint(varint(n) + rest, room, last) == Some((n, rest)),
    decreases room,
{
    let b = varint(n) + rest;
    if n < 128 {
        assert(b.skip(1) =~= rest);
    } else {
        lemma_varint(n / 128, rest, (room - 1) as nat, last);
        assert(b.skip(1) =~= varint(n / 128) + rest);
        assert(b[0] == n % 128 + 128);
    }
}

/// What was written as a number is read back as that number, whatever follows
/// it.
pub proof fn law_numbers_round_trip(v: u64, rest: Seq<u8>)
    ensures
        v <= u16::MAX ==> read_u16(varint(v as nat) + rest) == Some((v as nat, rest)),
        v <= u32::MAX ==> read_u32(varint(v as nat) + rest) == Some((v as nat, rest)),
        read_u64(varint(v as nat) + rest) == Some((v as nat, rest)),
{
    reveal(read_u16);
    reveal(read_u32);
    reveal(read_u64);
    reveal_with_fuel(fits_groups, 10);
    if v <= u16::MAX {
        lemma_varint(v as nat, rest, 3, 3);
    }
    if v <= u32::MAX {
        lemma_varint(v as nat, rest, 5, 15);
    }
    lemma_varint(v as nat, rest, 10, 1);
}

/// Folding loses nothing, so signed numbers are read back too.
pub proof fn law_signed_numbers_round_trip(v: i64, rest: Seq<u8>)
    ensures
        unfolded(folded(v as int)) == v,
        i32::MIN <= v <= i32::MAX ==> read_i32(varint(folded(v as int)) + rest) == Some(
            (v as int, rest),
        ),
{
    let n = folded(v as int) as u64;
    assert(folded(v as int) == n);
    law_numbers_round_trip(n, rest);
}

/// Byte strings are read back, as long as their length fits its number.
pub proof fn law_blobs_round_trip(bytes: Seq<u8>, rest: Seq<u8>)
    requires
        bytes.len() <= u64::MAX,
    ensures
        read_blob(blob(bytes) + rest) == Some((bytes, rest)),
{
    reveal(blob);
    reveal(read_blob);
    let n = bytes.len() as u64;
    law_numbers_round_trip(n, bytes + rest);
    assert(blob(bytes) + rest =~= varint(n as nat) + (bytes + rest));
    assert((bytes + rest).take(n as int) =~= bytes);
    assert((bytes + rest).skip(n as int) =~= rest);
}

/// Text is read back, as long as its length fits its number.
pub proof fn law_text_round_trips(s: Seq<char>, rest: Seq<u8>)
    requires
        encode_utf8(s).len() <= u64::MAX,
    ensures
        read_text(text(s) + rest) == Some((s, rest)),
{
    reveal(text);
    reveal(read_text);
    law_blobs_round_trip(encode_utf8(s), rest);
    encode_utf8_valid_utf8(s);
    encode_utf8_decode_utf8(s);
}

/// Flags and bytes are read back.
pub proof fn law_flags_round_trip(v: bool, byte: u8, rest: Seq<u8>)
    ensures
        read_flag(flag(v) + rest) == Some((v, rest)),
        read_u8(seq![byte] + rest) == Some((byte, rest)),
{
    assert((flag(v) + rest).skip(1) =~= rest);
    assert((seq![byte] + rest).skip(1) =~= rest);
}

} // verus!
