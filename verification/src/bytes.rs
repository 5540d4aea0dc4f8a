//! Byte buffers: datagrams that carry a header, and sizes written for people.
use vstd::prelude::*;

use crate::error::Error;
use crate::numbers;
use crate::text;
use crate::wire::WireMessage;

verus! {

/// The shared byte buffer of the `bytes` crate.
#[verifier::external_type_specification]
#[verifier::external_body]
pub struct ExBytes(::bytes::Bytes);

/// The bytes that a buffer holds.
pub uninterp spec fn contents(data: ::bytes::Bytes) -> Seq<u8>;

/// `bytes::Bytes::len`: the number of bytes in the buffer.
#[verifier::external_body]
pub(crate) fn bytes_len(data: &::bytes::Bytes) -> (res: usize)
    ensures
        res == contents(*data).len(),
{
    data.len()
}

/// `Clone` of `bytes::Bytes`: another handle to the same bytes.
#[verifier::external_body]
pub(crate) fn bytes_clone(data: &::bytes::Bytes) -> (res: ::bytes::Bytes)
    ensures
        contents(res) == contents(*data),
{
    data.clone()
}

/// `From<Vec<u8>>` of `bytes::Bytes`: the buffer takes over the bytes of the vector.
#[verifier::external_body]
pub(crate) fn bytes_from_vec(data: Vec<u8>) -> (res: ::bytes::Bytes)
    ensures
        contents(res) == data@,
{
    ::bytes::Bytes::from(data)
}

/// `AsRef<[u8]>` of `bytes::Bytes`: the bytes of the buffer as a slice.
#[verifier::external_body]
pub(crate) fn bytes_as_slice(data: &::bytes::Bytes) -> (res: &[u8])
    ensures
        res@ == contents(*data),
{
    data.as_ref()
}

/// `bytes::Buf::get_u32` of `bytes::Bytes`: takes four bytes off the front and returns the number
/// they stand for, most significant byte first. It panics on fewer than four bytes.
#[verifier::external_body]
fn bytes_get_u32(data: &mut ::bytes::Bytes) -> (res: u32)
    requires
        contents(*old(data)).len() >= 4,
    ensures
        res as nat == numbers::be_value(contents(*old(data)).take(4)),
        contents(*final(data)) == contents(*old(data)).skip(4),
{
    ::bytes::Buf::get_u32(data)
}

/// `bytes::Buf::advance` of `bytes::Bytes`: drops bytes off the front. It panics where there are
/// fewer.
#[verifier::external_body]
fn bytes_advance(data: &mut ::bytes::Bytes, count: usize)
    requires
        count <= contents(*old(data)).len(),
    ensures
        contents(*final(data)) == contents(*old(data)).skip(count as int),
{
    ::bytes::Buf::advance(data, count)
}

/// The part of a number that a length field of four bytes holds.
pub open spec fn length_field(len: nat) -> nat {
    len % 0x1_0000_0000
}

/// A length, cut down to four bytes.
pub(crate) fn as_length_field(len: usize) -> (res: u32)
    ensures
        res as nat == length_field(len as nat),
{
    let wide: u64 = len as u64;
    (wide % 0x1_0000_0000) as u32
}

/// A header in front of data: the length of the header in four bytes, the header, the data.
pub open spec fn prefixed(header: Seq<u8>, data: Seq<u8>) -> Seq<u8> {
    numbers::be_bytes(length_field(header.len()), 4) + header + data
}

/// The length of the header in front of the data, by its length field.
pub open spec fn prefix_len(datagram: Seq<u8>) -> nat {
    numbers::be_value(datagram.take(4))
}

/// There is a length field, and as many bytes behind it as it says.
pub open spec fn has_prefix(datagram: Seq<u8>) -> bool {
    datagram.len() >= 4 && datagram.len() >= 4 + prefix_len(datagram)
}

/// Puts a header in front of data.
pub fn prefix<T: WireMessage>(header: &T, data: ::bytes::Bytes) -> (res: Result<
    ::bytes::Bytes,
    Error,
>)
    ensures
        match res {
            Ok(datagram) => contents(datagram) == prefixed(T::wire(header@), contents(data)),
            Err(_) => false,
        },
        T::fits(header@),
{
    let header_bytes = header.to_bytes()?;
    let mut buffer: Vec<u8> = Vec::new();
    numbers::push_be32(&mut buffer, as_length_field(header_bytes.len()));
    numbers::push_bytes(&mut buffer, header_bytes.as_slice());
    numbers::push_bytes(&mut buffer, bytes_as_slice(&data));
    assert(buffer@ =~= prefixed(T::wire(header@), contents(data)));
    Ok(bytes_from_vec(buffer))
}

/// Tests whether a datagram is long enough for the header that it announces.
pub fn is_prefixed(datagram: &::bytes::Bytes) -> (res: bool)
    ensures
        res == has_prefix(contents(*datagram)),
{
    let bytes = bytes_as_slice(datagram);
    if bytes.len() < 4 {
        return false;
    }
    numbers::read_be32(bytes) as usize <= bytes.len() - 4
}

/// Takes the header off the front of a datagram and returns it with the data behind it.
pub fn drop_prefix<T: WireMessage>(datagram: ::bytes::Bytes) -> (res: Result<
    (T, ::bytes::Bytes),
    Error,
>)
    requires
        has_prefix(contents(datagram)),
    ensures
        match res {
            Ok((header, data)) => {
                let bytes = contents(datagram);
                let data_at = 4 + prefix_len(bytes) as int;
                T::unwire(bytes.subrange(4, data_at)) == Some(header@) && contents(data)
                    == bytes.skip(data_at)
            },
            Err(error) => T::unwire(
                contents(datagram).subrange(4, 4 + prefix_len(contents(datagram)) as int),
            ) is None && error == Error::BadMsgFormat,
        },
{
    let mut data = datagram;
    let header_len: usize = bytes_get_u32(&mut data) as usize;
    let ghost bytes = contents(datagram);
    let header = T::from_bytes(vstd::slice::slice_subrange(bytes_as_slice(&data), 0, header_len));
    assert(contents(data).subrange(0, header_len as int) =~= bytes.subrange(
        4,
        4 + header_len as int,
    ));
    match header {
        Ok(header) => {
            bytes_advance(&mut data, header_len);
            assert(contents(data) =~= bytes.skip(4 + header_len as int));
            Ok((header, data))
        },
        Err(error) => Err(error),
    }
}

/// A header put in front of data comes off again and leaves the data, if the length of the header
/// can be told in four bytes.
pub proof fn law_prefix_round_trip<T: WireMessage>(header: T::V, data: Seq<u8>)
    requires
        T::fits(header),
        T::wire(header).len() < 0x1_0000_0000,
    ensures
        ({
            let datagram = prefixed(T::wire(header), data);
            let data_at = 4 + prefix_len(datagram) as int;
            &&& has_prefix(datagram)
            &&& T::unwire(datagram.subrange(4, data_at)) == Some(header)
            &&& datagram.skip(data_at) == data
        }),
{
    let header_bytes = T::wire(header);
    let datagram = prefixed(header_bytes, data);
    numbers::lemma_byte_bounds();
    numbers::lemma_be_bytes_len(header_bytes.len(), 4);
    numbers::lemma_be_value_of_bytes(header_bytes.len(), 4);
    assert(datagram.take(4) =~= numbers::be_bytes(header_bytes.len(), 4));
    assert(datagram.subrange(4, 4 + header_bytes.len() as int) =~= header_bytes
        + Seq::<u8>::empty());
    T::lemma_round_trip(header, Seq::empty());
    assert(datagram.skip(4 + header_bytes.len() as int) =~= data);
}

/// A size in the largest of the units gibi, mebi and kibi of which it is at least ten, or else in
/// ones, rounded down.
pub open spec fn binary_prefix(count: u64) -> Seq<char> {
    let size = count as nat;
    if size / 0x4000_0000 >= 10 {
        text::decimal(size / 0x4000_0000).push('G')
    } else if size / 0x10_0000 >= 10 {
        text::decimal(size / 0x10_0000).push('M')
    } else if size / 0x400 >= 10 {
        text::decimal(size / 0x400).push('K')
    } else {
        text::decimal(size)
    }
}

/// Writes a size for people.
pub fn to_binary_prefix(count: u64) -> (res: String)
    ensures
        res@ == binary_prefix(count),
{
    let mut res = String::new();
    proof {
        reveal_strlit("K");
        reveal_strlit("M");
        reveal_strlit("G");
    }
    if count < 1024 * 10 {
        text::push_decimal(&mut res, count);
    } else if count < 1024 * 1024 * 10 {
        text::push_decimal(&mut res, count / 1024);
        res.append("K");
    } else if count < 1024 * 1024 * 1024 * 10 {
        text::push_decimal(&mut res, count / 1024 / 1024);
        res.append("M");
    } else {
        text::push_decimal(&mut res, count / 1024 / 1024 / 1024);
        res.append("G");
    }
    assert(res@ =~= binary_prefix(count));
    res
}

/// A header put in front of data comes off again, and the data is what it was. The length of the
/// header has to fit in four bytes.
pub proof fn law_prefixed_data_is_taken_apart<T: WireMessage>(
    header: T,
    data: ::bytes::Bytes,
    put: Result<::bytes::Bytes, Error>,
    datagram: ::bytes::Bytes,
    long_enough: bool,
    taken: Result<(T, ::bytes::Bytes), Error>,
)
    requires
        T::wire(header@).len() < 0x1_0000_0000,
        call_ensures(prefix::<T>, (&header, data), put),
        put matches Ok(made) ==> made == datagram,
        call_ensures(is_prefixed, (&datagram,), long_enough),
        call_ensures(drop_prefix::<T>, (datagram,), taken),
    ensures
        put is Ok,
        long_enough,
        taken matches Ok((read, rest)) && read@ == header@ && contents(rest) == contents(data),
{
    law_prefix_round_trip::<T>(header@, contents(data));
}

/// A datagram is the length of its header in four bytes, the most significant first, the header as it
/// is written on its own, and the data.
pub proof fn law_datagram_layout<T: WireMessage>(
    header: T,
    written: Result<Vec<u8>, Error>,
    data: ::bytes::Bytes,
    put: Result<::bytes::Bytes, Error>,
)
    requires
        T::wire(header@).len() < 0x1_0000_0000,
        call_ensures(T::to_bytes, (&header,), written),
        call_ensures(prefix::<T>, (&header, data), put),
    ensures
        (written, put) matches (Ok(head), Ok(datagram)) && {
            let bytes = contents(datagram);
            &&& bytes.len() == 4 + head@.len() + contents(data).len()
            &&& numbers::is_be32(bytes, head@.len() as int)
            &&& bytes.subrange(4, 4 + head@.len() as int) == head@
            &&& bytes.skip(4 + head@.len() as int) == contents(data)
        },
{
    let head = T::wire(header@);
    let bytes = prefixed(head, contents(data));
    numbers::lemma_byte_bounds();
    numbers::lemma_be_bytes_len(head.len(), 4);
    numbers::lemma_be_value_of_bytes(head.len(), 4);
    assert(bytes.take(4) =~= numbers::be_bytes(head.len(), 4));
    numbers::lemma_be32(bytes);
    assert(bytes.subrange(4, 4 + head.len() as int) =~= head);
    assert(bytes.skip(4 + head.len() as int) =~= contents(data));
}

/// A datagram that is shorter than the header that it announces is known as such, and no other is.
pub proof fn law_short_datagram_is_known(datagram: ::bytes::Bytes, announced: int, res: bool)
    requires
        call_ensures(is_prefixed, (&datagram,), res),
        contents(datagram).len() < 4 || numbers::is_be32(contents(datagram), announced),
    ensures
        res == (contents(datagram).len() >= 4 && contents(datagram).len() >= 4 + announced),
{
    if contents(datagram).len() >= 4 {
        numbers::lemma_be32(contents(datagram));
    }
}

/// A size is written as a number of units: of ones below ten kibi, of kibi below ten mebi, of mebi
/// below ten gibi, and of gibi from there on. The number is the size divided by the unit, and what is
/// left over is less than one unit. The letter of the unit stands behind it.
pub proof fn law_size_reads_back(count: u64, res: String)
    requires
        call_ensures(to_binary_prefix, (count,), res),
    ensures
        ({
            let number = text::decimal_value(res@.drop_last());
            if count < 10240 {
                text::is_decimal_of(res@, count as int)
            } else if count < 10_485_760 {
                &&& res@.len() > 0 && res@.last() == 'K'
                &&& text::is_decimal_of(res@.drop_last(), number)
                &&& number * 1024 <= count < number * 1024 + 1024
            } else if count < 10_737_418_240 {
                &&& res@.len() > 0 && res@.last() == 'M'
                &&& text::is_decimal_of(res@.drop_last(), number)
                &&& number * 1_048_576 <= count < number * 1_048_576 + 1_048_576
            } else {
                &&& res@.len() > 0 && res@.last() == 'G'
                &&& text::is_decimal_of(res@.drop_last(), number)
                &&& number * 1_073_741_824 <= count < number * 1_073_741_824 + 1_073_741_824
            }
        }),
{
    let size = count as nat;
    text::lemma_decimal(size);
    text::lemma_decimal(size / 0x400);
    text::lemma_decimal(size / 0x10_0000);
    text::lemma_decimal(size / 0x4000_0000);
    if count < 10240 {
    } else if count < 10_485_760 {
        assert(res@.drop_last() =~= text::decimal(size / 0x400));
    } else if count < 10_737_418_240 {
        assert(res@.drop_last() =~= text::decimal(size / 0x10_0000));
    } else {
        assert(res@.drop_last() =~= text::decimal(size / 0x4000_0000));
    }
}

/// What stands in front of the data decides: the header of a datagram is read as its bytes on their
/// own are, and refused as they are, and what follows is the data.
pub proof fn law_header_is_read_as_its_bytes<T: WireMessage>(
    datagram: ::bytes::Bytes,
    announced: int,
    header: &[u8],
    alone: Result<T, Error>,
    taken: Result<(T, ::bytes::Bytes), Error>,
)
    requires
        contents(datagram).len() >= 4 + announced,
        numbers::is_be32(contents(datagram), announced),
        header@ == contents(datagram).subrange(4, 4 + announced),
        call_ensures(T::from_bytes, (header,), alone),
        call_ensures(drop_prefix::<T>, (datagram,), taken),
    ensures
        match (alone, taken) {
            (Ok(alone), Ok((read, data))) => read@ == alone@ && contents(data) == contents(
                datagram,
            ).skip(4 + announced),
            (Err(reason), Err(error)) => error == reason,
            _ => false,
        },
{
    numbers::lemma_be32(contents(datagram));
}

} // verus!
