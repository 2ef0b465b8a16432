//! Little-endian numbers in byte buffers.
use vstd::prelude::*;

verus! {

/// The number in the two bytes at `at`, the low byte first.
pub open spec fn le16(bytes: Seq<u8>, at: int) -> u16 {
    (bytes[at] + bytes[at + 1] * 0x100) as u16
}

/// The number in the four bytes at `at`, the low byte first.
pub open spec fn le32(bytes: Seq<u8>, at: int) -> u32 {
    (bytes[at] + bytes[at + 1] * 0x100 + bytes[at + 2] * 0x1_0000 + bytes[at + 3]
        * 0x100_0000) as u32
}

/// The number in the eight bytes at `at`, the low byte first.
pub open spec fn le64(bytes: Seq<u8>, at: int) -> u64 {
    (le32(bytes, at) + le32(bytes, at + 4) * 0x1_0000_0000) as u64
}

/// The signed number that the bits of an unsigned one stand for in two's complement.
pub open spec fn signed64(value: u64) -> i64 {
    if value < 0x8000_0000_0000_0000 {
        value as i64
    } else {
        (value - 0x1_0000_0000_0000_0000) as i64
    }
}

/// The unsigned number that has the bits of a signed one in two's complement.
pub open spec fn unsigned64(value: i64) -> u64 {
    if value >= 0 {
        value as u64
    } else {
        (value + 0x1_0000_0000_0000_0000) as u64
    }
}

/// The `count` bytes of a number, the low byte first.
pub open spec fn le_bytes(value: nat, count: nat) -> Seq<u8>
    decreases count,
{
    if count == 0 {
        Seq::empty()
    } else {
        seq![(value % 0x100) as u8] + le_bytes(value / 0x100, (count - 1) as nat)
    }
}

pub fn get_le16(bytes: &[u8], at: usize) -> (value: u16)
    requires
        at + 2 <= bytes@.len(),
    ensures
        value == le16(bytes@, at as int),
{
    bytes[at] as u16 + bytes[at + 1] as u16 * 0x100
}

pub fn get_le32(bytes: &[u8], at: usize) -> (value: u32)
    requires
        at + 4 <= bytes@.len(),
    ensures
        value == le32(bytes@, at as int),
{
    bytes[at] as u32 + bytes[at + 1] as u32 * 0x100 + bytes[at + 2] as u32 * 0x1_0000 + bytes[at
        + 3] as u32 * 0x100_0000
}

pub fn get_le64(bytes: &[u8], at: usize) -> (value: u64)
    requires
        at + 8 <= bytes@.len(),
    ensures
        value == le64(bytes@, at as int),
{
    assert(at + 8 <= bytes.len());
    get_le32(bytes, at) as u64 + get_le32(bytes, at + 4) as u64 * 0x1_0000_0000
}

pub fn to_signed64(value: u64) -> (result: i64)
    ensures
        result == signed64(value),
{
    if value < 0x8000_0000_0000_0000 {
        value as i64
    } else {
        (value - 0x8000_0000_0000_0000) as i64 + i64::MIN
    }
}

pub fn to_unsigned64(value: i64) -> (result: u64)
    ensures
        result == unsigned64(value),
{
    if value >= 0 {
        value as u64
    } else {
        (value - i64::MIN) as u64 + 0x8000_0000_0000_0000
    }
}

/// Appends the `count` low bytes of a number, the lowest first.
pub fn put_le(bytes: &mut Vec<u8>, value: u64, count: usize)
    ensures
        final(bytes)@ == old(bytes)@ + le_bytes(value as nat, count as nat),
    decreases count,
{
    if count == 0 {
        assert(bytes@ + Seq::<u8>::empty() =~= bytes@);
    } else {
        let ghost before = bytes@;
        bytes.push((value % 0x100) as u8);
        let ghost pushed = bytes@;
        put_le(bytes, value / 0x100, count - 1);
        proof {
            let rest = le_bytes((value / 0x100) as nat, (count - 1) as nat);
            assert(bytes@ == pushed + rest);
            assert(bytes@ =~= before + (seq![(value % 0x100) as u8] + rest));
        }
    }
}

/// The bytes of a number are as many as were asked for.
pub proof fn lemma_le_bytes_len(value: nat, count: nat)
    ensures
        le_bytes(value, count).len() == count,
    decreases count,
{
    if count > 0 {
        lemma_le_bytes_len(value / 0x100, (count - 1) as nat);
    }
}

/// Reading four bytes gives back the number whose bytes were written there.
pub proof fn law_le32_gives_back_what_le_bytes_wrote(value: u32, before: Seq<u8>, after: Seq<u8>)
    ensures
        le32(before + le_bytes(value as nat, 4) + after, before.len() as int) == value,
{
    reveal_with_fuel(le_bytes, 5);
    let v = value as nat;
    let b = le_bytes(v, 4);
    assert(b[0] == (v % 0x100) as u8);
    assert(b[1] == (v / 0x100 % 0x100) as u8);
    assert(b[2] == (v / 0x100 / 0x100 % 0x100) as u8);
    assert(b[3] == (v / 0x100 / 0x100 / 0x100 % 0x100) as u8);
    let all = before + b + after;
    let at = before.len() as int;
    assert(all[at] == b[0] && all[at + 1] == b[1] && all[at + 2] == b[2] && all[at + 3] == b[3]);
}

/// Reading two bytes gives back the number whose bytes stand there.
pub proof fn law_le16_gives_back_what_le_bytes_wrote(bytes: Seq<u8>, at: int, value: u16)
    requires
        0 <= at,
        at + 2 <= bytes.len(),
        bytes.subrange(at, at + 2) == le_bytes(value as nat, 2),
    ensures
        le16(bytes, at) == value,
{
    reveal_with_fuel(le_bytes, 3);
    let part = bytes.subrange(at, at + 2);
    assert(part[0] == bytes[at] && part[1] == bytes[at + 1]);
}

/// Reading four bytes gives back the number whose bytes stand there.
pub(crate) proof fn lemma_le32_at(bytes: Seq<u8>, at: int, value: u32)
    requires
        0 <= at,
        at + 4 <= bytes.len(),
        bytes.subrange(at, at + 4) == le_bytes(value as nat, 4),
    ensures
        le32(bytes, at) == value,
{
    law_le32_gives_back_what_le_bytes_wrote(value, bytes.take(at), bytes.skip(at + 4));
    assert(bytes =~= bytes.take(at) + bytes.subrange(at, at + 4) + bytes.skip(at + 4));
}

/// Reading eight bytes gives back the number whose bytes stand there.
pub proof fn law_le64_gives_back_what_le_bytes_wrote(bytes: Seq<u8>, at: int, value: u64)
    requires
        0 <= at,
        at + 8 <= bytes.len(),
        bytes.subrange(at, at + 8) == le_bytes(value as nat, 8),
    ensures
        le64(bytes, at) == value,
{
    let v = value as nat;
    let low = (v % 0x1_0000_0000) as nat;
    let high = (v / 0x1_0000_0000) as nat;
    let part = bytes.subrange(at, at + 8);
    let none = Seq::<u8>::empty();
    lemma_le_bytes_halves(v);
    lemma_le_bytes_len(low, 4);
    lemma_le_bytes_len(high, 4);
    law_le32_gives_back_what_le_bytes_wrote(low as u32, none, le_bytes(high, 4));
    law_le32_gives_back_what_le_bytes_wrote(high as u32, le_bytes(low, 4), none);
    assert(none + le_bytes(low, 4) + le_bytes(high, 4) =~= part);
    assert(le_bytes(low, 4) + le_bytes(high, 4) + none =~= part);
    assert(forall|i: int| 0 <= i < 8 ==> #[trigger] part[i] == bytes[at + i]);
    assert(le32(bytes, at) == le32(part, 0));
    assert(le32(bytes, at + 4) == le32(part, 4));
}

/// The bytes of a long number are those of its low half and then those of its high half.
proof fn lemma_le_bytes_halves(value: nat)
    ensures
        le_bytes(value, 8) == le_bytes(value % 0x1_0000_0000, 4) + le_bytes(
            value / 0x1_0000_0000,
            4,
        ),
{
    reveal_with_fuel(le_bytes, 9);
    let low = value % 0x1_0000_0000;
    let high = value / 0x1_0000_0000;
    assert(value / 0x100 / 0x100 / 0x100 / 0x100 == high);
    assert(le_bytes(value, 8) =~= le_bytes(low, 4) + le_bytes(high, 4));
}

/// Numbers are read with the lowest byte first.
pub proof fn law_lowest_byte_comes_first(bytes: Seq<u8>, at: int)
    ensures
        le16(bytes, at) as int == bytes[at] + 256 * bytes[at + 1],
        le32(bytes, at) as int == le16(bytes, at) + 65536 * le16(bytes, at + 2),
        le64(bytes, at) as int == le32(bytes, at) + 4294967296 * le32(bytes, at + 4),
        forall|value: nat, count: nat|
            count > 0 ==> (#[trigger] le_bytes(value, count))[0] == value % 256,
{
    assert forall|value: nat, count: nat| count > 0 implies (#[trigger] le_bytes(value, count))[0]
        == value % 256 by {}
}

/// A signed number and its bits are the same up to two to the power of 64.
pub proof fn law_signed_numbers_are_read_back(value: i64, bits: u64)
    ensures
        signed64(unsigned64(value)) == value,
        unsigned64(signed64(bits)) == bits,
        bits < 0x8000_0000_0000_0000 <==> signed64(bits) >= 0,
        signed64(bits) == bits || signed64(bits) == bits - 0x1_0000_0000_0000_0000,
{
}

/// Two bytes are those of the number that they make.
pub(crate) proof fn lemma_le16_bytes(bytes: Seq<u8>, at: int)
    requires
        0 <= at,
        at + 2 <= bytes.len(),
    ensures
        bytes.subrange(at, at + 2) == le_bytes(le16(bytes, at) as nat, 2),
{
    let value = le16(bytes, at) as nat;
    reveal_with_fuel(le_bytes, 3);
    assert(bytes.subrange(at, at + 2) =~= le_bytes(value, 2));
}

/// The bytes of the number two.
pub(crate) proof fn lemma_le_bytes_two()
    ensures
        le_bytes(2, 2) == seq![2u8, 0u8],
{
    reveal_with_fuel(le_bytes, 3);
    assert(le_bytes(2, 2) =~= seq![2u8, 0u8]);
}

/// Four bytes are those of the number that they make.
pub(crate) proof fn lemma_le32_bytes(bytes: Seq<u8>, at: int)
    requires
        0 <= at,
        at + 4 <= bytes.len(),
    ensures
        bytes.subrange(at, at + 4) == le_bytes(le32(bytes, at) as nat, 4),
{
    let value = le32(bytes, at) as nat;
    reveal_with_fuel(le_bytes, 5);
    assert(bytes.subrange(at, at + 4) =~= le_bytes(value, 4));
}

/// Eight bytes are those of the number that they make.
pub(crate) proof fn lemma_le64_bytes(bytes: Seq<u8>, at: int)
    requires
        0 <= at,
        at + 8 <= bytes.len(),
    ensures
        bytes.subrange(at, at + 8) == le_bytes(le64(bytes, at) as nat, 8),
{
    lemma_le32_bytes(bytes, at);
    lemma_le32_bytes(bytes, at + 4);
    lemma_le_bytes_halves(le64(bytes, at) as nat);
    assert(bytes.subrange(at, at + 8) =~= bytes.subrange(at, at + 4) + bytes.subrange(
        at + 4,
        at + 8,
    ));
}

/// A multiple of 256 does not matter to the lowest byte.
proof fn lemma_lowest_byte(value: nat, rest: nat, more: nat)
    requires
        value == rest + 256 * more,
    ensures
        value % 256 == rest % 256,
        value / 256 == rest / 256 + more,
{
}

/// The first bytes of a number do not depend on how many are written.
proof fn lemma_le_bytes_front(value: nat, count: nat, more: nat)
    ensures
        le_bytes(value, count + more).take(count as int) == le_bytes(value, count),
    decreases count,
{
    lemma_le_bytes_len(value, count + more);
    lemma_le_bytes_len(value, count);
    if count > 0 {
        lemma_le_bytes_front(value / 0x100, (count - 1) as nat, more);
        let rest = le_bytes(value / 0x100, (count - 1 + more) as nat);
        lemma_le_bytes_len(value / 0x100, (count - 1 + more) as nat);
        assert(le_bytes(value, count + more).take(count as int) =~= seq![(value % 0x100) as u8]
            + rest.take(count - 1));
    } else {
        assert(le_bytes(value, more).take(0) =~= le_bytes(value, 0));
    }
}

/// The lower six of eight bytes are those of what is left of their number by two to the power of
/// 48.
pub(crate) proof fn lemma_le48_bytes(bytes: Seq<u8>, at: int)
    requires
        0 <= at,
        at + 8 <= bytes.len(),
    ensures
        bytes.subrange(at, at + 6) == le_bytes((le64(bytes, at) % 0x1_0000_0000_0000) as nat, 6),
{
    let v0 = le64(bytes, at) as nat;
    let r0 = (v0 % 0x1_0000_0000_0000) as nat;
    let q = (v0 / 0x1_0000_0000_0000) as nat;
    lemma_le64_bytes(bytes, at);
    lemma_le_bytes_front(v0, 6, 2);
    assert(bytes.subrange(at, at + 6) =~= bytes.subrange(at, at + 8).take(6));
    lemma_lowest_byte(v0, r0, 0x100_0000_0000 * q);
    let (v1, r1) = (v0 / 256, r0 / 256);
    lemma_lowest_byte(v1, r1, 0x1_0000_0000 * q);
    let (v2, r2) = (v1 / 256, r1 / 256);
    lemma_lowest_byte(v2, r2, 0x100_0000 * q);
    let (v3, r3) = (v2 / 256, r2 / 256);
    lemma_lowest_byte(v3, r3, 0x1_0000 * q);
    let (v4, r4) = (v3 / 256, r3 / 256);
    lemma_lowest_byte(v4, r4, 0x100 * q);
    let (v5, r5) = (v4 / 256, r4 / 256);
    lemma_lowest_byte(v5, r5, q);
    assert(le_bytes(v5 / 256, 0) == le_bytes(r5 / 256, 0));
    assert(le_bytes(v5, 1) == le_bytes(r5, 1));
    assert(le_bytes(v4, 2) == le_bytes(r4, 2));
    assert(le_bytes(v3, 3) == le_bytes(r3, 3));
    assert(le_bytes(v2, 4) == le_bytes(r2, 4));
    assert(le_bytes(v1, 5) == le_bytes(r1, 5));
    assert(le_bytes(v0, 6) == le_bytes(r0, 6));
}

} // verus!
