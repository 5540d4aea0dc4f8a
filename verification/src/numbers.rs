//! Bytes, and fixed-width numbers as bytes in both byte orders.
use vstd::prelude::*;

verus! {

/// Byte strings as sequences of bytes.
pub open spec fn byte_strings(strings: Seq<Vec<u8>>) -> Seq<Seq<u8>> {
    strings.map_values(|string: Vec<u8>| string@)
}

/// The `width` low-order bytes of `n`, most significant first.
pub open spec fn be_bytes(n: nat, width: nat) -> Seq<u8>
    decreases width,
{
    if width == 0 {
        Seq::empty()
    } else {
        be_bytes(n / 256, (width - 1) as nat).push((n % 256) as u8)
    }
}

/// The number that bytes stand for, most significant first.
pub open spec fn be_value(bytes: Seq<u8>) -> nat
    decreases bytes.len(),
{
    if bytes.len() == 0 {
        0
    } else {
        be_value(bytes.drop_last()) * 256 + bytes.last() as nat
    }
}

/// The `width` low-order bytes of `n`, least significant first.
pub open spec fn le_bytes(n: nat, width: nat) -> Seq<u8> {
    be_bytes(n, width).reverse()
}

/// The number that bytes stand for, least significant first.
pub open spec fn le_value(bytes: Seq<u8>) -> nat {
    be_value(bytes.reverse())
}

/// One past the largest number that fits in `width` bytes.
pub open spec fn byte_bound(width: nat) -> nat
    decreases width,
{
    if width == 0 {
        1
    } else {
        256 * byte_bound((width - 1) as nat)
    }
}

pub proof fn lemma_be_bytes_len(n: nat, width: nat)
    ensures
        be_bytes(n, width).len() == width,
    decreases width,
{
    if width > 0 {
        lemma_be_bytes_len(n / 256, (width - 1) as nat);
    }
}

/// A number that fits in `width` bytes is read back from them.
pub proof fn lemma_be_value_of_bytes(n: nat, width: nat)
    requires
        n < byte_bound(width),
    ensures
        be_value(be_bytes(n, width)) == n,
    decreases width,
{
    if width > 0 {
        let rest = (width - 1) as nat;
        lemma_be_bytes_len(n, width);
        lemma_be_value_of_bytes(n / 256, rest);
        assert(be_bytes(n, width).drop_last() =~= be_bytes(n / 256, rest));
    }
}

/// The same facts for the other byte order.
pub proof fn lemma_le_round_trip(n: nat, width: nat)
    ensures
        le_bytes(n, width).len() == width,
        n < byte_bound(width) ==> le_value(le_bytes(n, width)) == n,
{
    lemma_be_bytes_len(n, width);
    assert(le_bytes(n, width).reverse() =~= be_bytes(n, width));
    if n < byte_bound(width) {
        lemma_be_value_of_bytes(n, width);
    }
}

/// What fits in two, four, eight and sixteen bytes.
pub proof fn lemma_byte_bounds()
    ensures
        byte_bound(2) == 0x1_0000,
        byte_bound(4) == 0x1_0000_0000,
        byte_bound(8) == 0x1_0000_0000_0000_0000,
        byte_bound(16) == 0x1_0000_0000_0000_0000_0000_0000_0000_0000,
{
    reveal_with_fuel(byte_bound, 17);
}

/// Where the pieces of a concatenation stand.
pub proof fn lemma_concat_four(a: Seq<u8>, b: Seq<u8>, c: Seq<u8>, d: Seq<u8>, rest: Seq<u8>)
    ensures
        a + (b + (c + d)) + rest == a + (b + (c + (d + rest))),
        (a + (b + (c + d)) + rest).skip(a.len() as int) == b + (c + (d + rest)),
        (a + (b + (c + d)) + rest).skip((a.len() + b.len()) as int) == c + (d + rest),
        (a + (b + (c + d)) + rest).skip((a.len() + b.len() + c.len()) as int) == d + rest,
{
    let whole = a + (b + (c + d)) + rest;
    assert(whole =~= a + (b + (c + (d + rest))));
    assert(whole.skip(a.len() as int) =~= b + (c + (d + rest)));
    assert(whole.skip((a.len() + b.len()) as int) =~= c + (d + rest));
    assert(whole.skip((a.len() + b.len() + c.len()) as int) =~= d + rest);
}

/// Appends bytes.
pub fn push_bytes(out: &mut Vec<u8>, bytes: &[u8])
    ensures
        final(out)@ == old(out)@ + bytes@,
{
    out.extend_from_slice(bytes);
    assert(out@ =~= old(out)@ + bytes@);
}

/// Appends a number as four bytes, most significant first.
pub fn push_be32(out: &mut Vec<u8>, n: u32)
    ensures
        final(out)@ == old(out)@ + be_bytes(n as nat, 4),
{
    out.push((n / 0x100_0000) as u8);
    out.push((n / 0x1_0000 % 256) as u8);
    out.push((n / 0x100 % 256) as u8);
    out.push((n % 256) as u8);
    proof {
        reveal_with_fuel(be_bytes, 5);
        let m = n as nat;
        assert(m / 256 / 256 == m / 0x1_0000);
        assert(m / 256 / 256 / 256 == m / 0x100_0000);
        assert(m / 0x100_0000 % 256 == m / 0x100_0000);
        assert(out@ =~= old(out)@ + be_bytes(m, 4));
    }
}

/// The number in the first four bytes, most significant first.
pub fn read_be32(bytes: &[u8]) -> (res: u32)
    requires
        bytes@.len() >= 4,
    ensures
        res as nat == be_value(bytes@.take(4)),
{
    let res: u32 = bytes[0] as u32 * 0x100_0000 + bytes[1] as u32 * 0x1_0000 + bytes[2] as u32
        * 0x100 + bytes[3] as u32;
    proof {
        let head = bytes@.take(4);
        assert(head.drop_last() =~= bytes@.take(3));
        assert(bytes@.take(3).drop_last() =~= bytes@.take(2));
        assert(bytes@.take(2).drop_last() =~= bytes@.take(1));
        assert(bytes@.take(1).drop_last() =~= Seq::<u8>::empty());
        assert(be_value(Seq::<u8>::empty()) == 0);
        assert(be_value(bytes@.take(1)) == bytes[0] as nat);
        assert(be_value(bytes@.take(2)) == bytes[0] * 256 + bytes[1]);
        assert(be_value(bytes@.take(3)) == (bytes[0] * 256 + bytes[1]) * 256 + bytes[2]);
    }
    res
}

/// Four bytes are written for a number, the most significant first, behind what was written before.
pub proof fn law_most_significant_first(out: &mut Vec<u8>, n: u32)
    requires
        call_ensures(push_be32, (out, n), ()),
    ensures
        final(out)@.len() == old(out)@.len() + 4,
        final(out)@.take(old(out)@.len() as int) == old(out)@,
        is_be32(final(out)@.skip(old(out)@.len() as int), n as int),
{
    let written = final(out)@.skip(old(out)@.len() as int);
    lemma_byte_bounds();
    lemma_be_bytes_len(n as nat, 4);
    lemma_be_value_of_bytes(n as nat, 4);
    assert(written =~= be_bytes(n as nat, 4));
    assert(written.take(4) =~= written);
    lemma_be32(written);
    assert(final(out)@.take(old(out)@.len() as int) =~= old(out)@);
}

/// The number that is read is the one that the first four bytes stand for, the most significant
/// first, whatever follows them.
pub proof fn law_read_most_significant_first(bytes: &[u8], res: u32)
    requires
        bytes@.len() >= 4,
        call_ensures(read_be32, (bytes,), res),
    ensures
        is_be32(bytes@, res as int),
{
    lemma_be32(bytes@);
}

/// The bytes start with four that stand for a number, the most significant first.
pub open spec fn is_be32(bytes: Seq<u8>, n: int) -> bool {
    bytes.len() >= 4 && n == bytes[0] * 0x100_0000 + bytes[1] * 0x1_0000 + bytes[2] * 0x100
        + bytes[3]
}

/// The bytes start with two that stand for a number, the least significant first.
pub open spec fn is_le16(bytes: Seq<u8>, n: int) -> bool {
    bytes.len() >= 2 && n == bytes[0] + bytes[1] * 0x100
}

/// The bytes start with four that stand for a number, the least significant first.
pub open spec fn is_le32(bytes: Seq<u8>, n: int) -> bool {
    bytes.len() >= 4 && n == bytes[0] + bytes[1] * 0x100 + bytes[2] * 0x1_0000 + bytes[3]
        * 0x100_0000
}

/// The bytes start with eight that stand for a number, the least significant first.
pub open spec fn is_le64(bytes: Seq<u8>, n: int) -> bool {
    bytes.len() >= 8 && n == bytes[0] + bytes[1] * 0x100 + bytes[2] * 0x1_0000 + bytes[3]
        * 0x100_0000 + bytes[4] * 0x1_0000_0000 + bytes[5] * 0x100_0000_0000 + bytes[6]
        * 0x1_0000_0000_0000 + bytes[7] * 0x100_0000_0000_0000
}

/// What the first four bytes stand for.
pub proof fn lemma_be32(bytes: Seq<u8>)
    requires
        bytes.len() >= 4,
    ensures
        is_be32(bytes, be_value(bytes.take(4)) as int),
{
    reveal_with_fuel(be_value, 5);
    let head = bytes.take(4);
    assert(head.drop_last() =~= bytes.take(3));
    assert(bytes.take(3).drop_last() =~= bytes.take(2));
    assert(bytes.take(2).drop_last() =~= bytes.take(1));
    assert(bytes.take(1).drop_last() =~= Seq::<u8>::empty());
}

/// Numbers that fit in two, four and eight bytes, the least significant first, and what follows them.
pub proof fn lemma_le_layout(n: nat, rest: Seq<u8>)
    ensures
        n < 0x1_0000 ==> is_le16(le_bytes(n, 2) + rest, n as int),
        n < 0x1_0000_0000 ==> is_le32(le_bytes(n, 4) + rest, n as int),
        n < 0x1_0000_0000_0000_0000 ==> is_le64(le_bytes(n, 8) + rest, n as int),
        le_bytes(n, 2).len() == 2,
        le_bytes(n, 4).len() == 4,
        le_bytes(n, 8).len() == 8,
{
    lemma_byte_bounds();
    lemma_le_round_trip(n, 2);
    lemma_le_round_trip(n, 4);
    lemma_le_round_trip(n, 8);
    lemma_le_front(le_bytes(n, 2), 2);
    lemma_le_front(le_bytes(n, 4), 4);
    lemma_le_front(le_bytes(n, 8), 8);
    assert(le_bytes(n, 2).skip(0) =~= le_bytes(n, 2));
    assert(le_bytes(n, 4).skip(0) =~= le_bytes(n, 4));
    assert(le_bytes(n, 8).skip(0) =~= le_bytes(n, 8));
    reveal_with_fuel(le_sum, 9);
}

/// The sum of the first bytes, each worth so much more than the one in front of it.
spec fn le_sum(bytes: Seq<u8>, count: nat, worth: int) -> int
    decreases count,
{
    if count == 0 {
        0
    } else {
        bytes[bytes.len() - count] * worth + le_sum(bytes, (count - 1) as nat, worth * 256)
    }
}

/// What bytes stand for is the sum of what each of them is worth.
proof fn lemma_le_front(bytes: Seq<u8>, count: nat)
    requires
        count <= bytes.len(),
    ensures
        le_value(bytes.skip(bytes.len() - count)) == le_sum(bytes, count, 1),
    decreases count,
{
    let tail = bytes.skip(bytes.len() - count);
    if count > 0 {
        let later = bytes.skip(bytes.len() - count + 1);
        lemma_le_front(bytes, (count - 1) as nat);
        assert(tail.reverse().drop_last() =~= later.reverse());
        assert(tail.reverse().last() == bytes[bytes.len() - count]);
        lemma_le_sum_scaled(bytes, (count - 1) as nat, 1);
    } else {
        assert(tail.reverse() =~= Seq::<u8>::empty());
    }
}

/// A sum in which every byte is worth so many times as much.
proof fn lemma_le_sum_scaled(bytes: Seq<u8>, count: nat, worth: int)
    ensures
        le_sum(bytes, count, worth * 256) == 256 * le_sum(bytes, count, worth),
    decreases count,
{
    if count > 0 {
        lemma_le_sum_scaled(bytes, (count - 1) as nat, worth * 256);
        let byte = bytes[bytes.len() - count] as int;
        assert(byte * (worth * 256) == 256 * (byte * worth)) by (nonlinear_arith);
    }
}

/// What the first four bytes stand for, the least significant first.
pub proof fn lemma_le32(bytes: Seq<u8>)
    requires
        bytes.len() >= 4,
    ensures
        is_le32(bytes, le_value(bytes.take(4)) as int),
{
    let head = bytes.take(4);
    lemma_le_front(head, 4);
    assert(head.skip(0) =~= head);
    reveal_with_fuel(le_sum, 5);
}

} // verus!
