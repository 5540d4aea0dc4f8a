//! The fields that messages are made of, as bytes, and what it takes to be a message.
//!
//! A message is the sequence of its fields. Each field is written and read by `bincode` in its
//! default configuration: numbers have a fixed width and start with the least significant byte, a
//! text is its length in eight bytes followed by its UTF-8 encoding.
use vstd::prelude::*;
use vstd::utf8::*;

use crate::error::Error;
use crate::numbers;

verus! {

/// The error type of `bincode`, carried as it is.
#[verifier::external_type_specification]
#[verifier::external_body]
pub struct ExBincodeErrorKind(bincode::ErrorKind);

/// A text as a field.
pub open spec fn text_field(text: Seq<char>) -> Seq<u8> {
    numbers::le_bytes(encode_utf8(text).len(), 8) + encode_utf8(text)
}

/// The encoded text is short enough for its length field.
pub open spec fn text_fits(text: Seq<char>) -> bool {
    encode_utf8(text).len() < numbers::byte_bound(8)
}

/// The number of bytes that the text field at the start of `bytes` takes, by its length field.
pub open spec fn text_field_len(bytes: Seq<u8>) -> nat {
    8 + numbers::le_value(bytes.take(8))
}

/// The text in the field at the start of `bytes`, where there is one.
pub open spec fn read_text(bytes: Seq<u8>) -> Option<Seq<char>> {
    if bytes.len() < 8 || bytes.len() < text_field_len(bytes) {
        None
    } else {
        let encoded = bytes.subrange(8, text_field_len(bytes) as int);
        if valid_utf8(encoded) {
            Some(decode_utf8(encoded))
        } else {
            None
        }
    }
}

/// The number in the field of `width` bytes at the start of `bytes`, where there is one.
pub open spec fn read_number(bytes: Seq<u8>, width: nat) -> Option<nat> {
    if bytes.len() < width {
        None
    } else {
        Some(numbers::le_value(bytes.take(width as int)))
    }
}

/// An allocation id as a field: its length in eight bytes, then its sixteen bytes.
pub open spec fn id_field(id: u128) -> Seq<u8> {
    numbers::le_bytes(16, 8) + numbers::be_bytes(id as nat, 16)
}

/// The allocation id in the field at the start of `bytes`, where there is one.
pub open spec fn read_id(bytes: Seq<u8>) -> Option<u128> {
    if bytes.len() < 24 || numbers::le_value(bytes.take(8)) != 16 {
        None
    } else {
        Some(numbers::be_value(bytes.subrange(8, 24)) as u128)
    }
}

/// `bincode::serialize` of a `u16`: two bytes, least significant first.
#[verifier::external_body]
fn bincode_u16(value: u16) -> (res: Result<Vec<u8>, Box<bincode::ErrorKind>>)
    ensures
        match res {
            Ok(bytes) => bytes@ == numbers::le_bytes(value as nat, 2),
            Err(_) => false,
        },
{
    bincode::serialize(&value)
}

/// `bincode::serialize` of a `u32`: four bytes, least significant first.
#[verifier::external_body]
fn bincode_u32(value: u32) -> (res: Result<Vec<u8>, Box<bincode::ErrorKind>>)
    ensures
        match res {
            Ok(bytes) => bytes@ == numbers::le_bytes(value as nat, 4),
            Err(_) => false,
        },
{
    bincode::serialize(&value)
}

/// `bincode::serialize` of a text: the length of its UTF-8 encoding in eight bytes, least
/// significant first, then the encoding.
#[verifier::external_body]
fn bincode_text(value: &str) -> (res: Result<Vec<u8>, Box<bincode::ErrorKind>>)
    ensures
        match res {
            Ok(bytes) => bytes@ == text_field(value@),
            Err(_) => false,
        },
{
    bincode::serialize(value)
}

/// `bincode::serialize` of a `uuid::Uuid`: the length of its bytes, which is sixteen, in eight
/// bytes, least significant first, then the bytes of the id, most significant first.
#[verifier::external_body]
fn bincode_id(value: u128) -> (res: Result<Vec<u8>, Box<bincode::ErrorKind>>)
    ensures
        match res {
            Ok(bytes) => bytes@ == id_field(value),
            Err(_) => false,
        },
{
    bincode::serialize(&uuid::Uuid::from_u128(value))
}

/// `bincode::deserialize` to a `u16`: reads two bytes, least significant first, and fails only
/// where there are fewer. What follows them is ignored.
#[verifier::external_body]
fn bincode_to_u16(bytes: &[u8]) -> (res: Result<u16, Box<bincode::ErrorKind>>)
    ensures
        match res {
            Ok(value) => read_number(bytes@, 2) == Some(value as nat),
            Err(_) => read_number(bytes@, 2) is None,
        },
{
    bincode::deserialize(bytes)
}

/// `bincode::deserialize` to a `u32`: reads four bytes, least significant first, and fails only
/// where there are fewer. What follows them is ignored.
#[verifier::external_body]
fn bincode_to_u32(bytes: &[u8]) -> (res: Result<u32, Box<bincode::ErrorKind>>)
    ensures
        match res {
            Ok(value) => read_number(bytes@, 4) == Some(value as nat),
            Err(_) => read_number(bytes@, 4) is None,
        },
{
    bincode::deserialize(bytes)
}

/// `bincode::deserialize` to a `String`: reads a length in eight bytes, least significant first,
/// and as many bytes of UTF-8. It fails where bytes are missing or the encoding is not valid. What
/// follows the text is ignored.
#[verifier::external_body]
fn bincode_to_text(bytes: &[u8]) -> (res: Result<String, Box<bincode::ErrorKind>>)
    ensures
        match res {
            Ok(value) => read_text(bytes@) == Some(value@),
            Err(_) => read_text(bytes@) is None,
        },
{
    bincode::deserialize(bytes)
}

/// `bincode::deserialize` to a `uuid::Uuid`: reads a length in eight bytes, least significant
/// first, which has to be sixteen, and as many bytes of an id, most significant first. It fails
/// where bytes are missing or the length is another one. What follows the id is ignored.
#[verifier::external_body]
fn bincode_to_id(bytes: &[u8]) -> (res: Result<u128, Box<bincode::ErrorKind>>)
    ensures
        match res {
            Ok(value) => read_id(bytes@) == Some(value),
            Err(_) => read_id(bytes@) is None,
        },
{
    bincode::deserialize::<uuid::Uuid>(bytes).map(|id| id.as_u128())
}

/// Appends a `u16` field.
pub fn push_u16(out: &mut Vec<u8>, value: u16) -> (res: Result<(), Error>)
    ensures
        res is Ok,
        final(out)@ == old(out)@ + numbers::le_bytes(value as nat, 2),
{
    match bincode_u16(value) {
        Ok(bytes) => {
            numbers::push_bytes(out, bytes.as_slice());
            Ok(())
        },
        Err(_) => Err(Error::BadMsgFormat),
    }
}

/// Appends a `u32` field.
pub fn push_u32(out: &mut Vec<u8>, value: u32) -> (res: Result<(), Error>)
    ensures
        res is Ok,
        final(out)@ == old(out)@ + numbers::le_bytes(value as nat, 4),
{
    match bincode_u32(value) {
        Ok(bytes) => {
            numbers::push_bytes(out, bytes.as_slice());
            Ok(())
        },
        Err(_) => Err(Error::BadMsgFormat),
    }
}

/// Appends a text field.
pub fn push_text(out: &mut Vec<u8>, value: &str) -> (res: Result<(), Error>)
    ensures
        res is Ok,
        text_fits(value@),
        final(out)@ == old(out)@ + text_field(value@),
{
    proof {
        numbers::lemma_byte_bounds();
    }
    let encoded = value.as_bytes();
    assert(encoded.len() == encode_utf8(value@).len());
    match bincode_text(value) {
        Ok(bytes) => {
            numbers::push_bytes(out, bytes.as_slice());
            Ok(())
        },
        Err(_) => Err(Error::BadMsgFormat),
    }
}

/// Appends an id field.
pub fn push_id(out: &mut Vec<u8>, value: u128) -> (res: Result<(), Error>)
    ensures
        res is Ok,
        final(out)@ == old(out)@ + id_field(value),
{
    match bincode_id(value) {
        Ok(bytes) => {
            numbers::push_bytes(out, bytes.as_slice());
            Ok(())
        },
        Err(_) => Err(Error::BadMsgFormat),
    }
}

/// The part of `bytes` from `at` on.
fn tail_from(bytes: &[u8], at: usize) -> (res: &[u8])
    requires
        at <= bytes@.len(),
    ensures
        res@ == bytes@.skip(at as int),
{
    vstd::slice::slice_subrange(bytes, at, bytes.len())
}

/// Reads the `u16` field that starts at `at`, and moves `at` behind it.
pub fn take_u16(bytes: &[u8], at: &mut usize) -> (res: Result<u16, Error>)
    requires
        *old(at) <= bytes@.len(),
    ensures
        match res {
            Ok(value) => read_number(bytes@.skip(*old(at) as int), 2) == Some(value as nat)
                && *final(at) == *old(at) + 2 && *final(at) <= bytes@.len(),
            Err(error) => read_number(bytes@.skip(*old(at) as int), 2) is None && *final(at)
                == *old(at) && error == Error::BadMsgFormat,
        },
{
    assert(bytes@.len() == bytes.len());
    match bincode_to_u16(tail_from(bytes, *at)) {
        Ok(value) => {
            *at = *at + 2;
            Ok(value)
        },
        Err(_) => Err(Error::BadMsgFormat),
    }
}

/// Reads the `u32` field that starts at `at`, and moves `at` behind it.
pub fn take_u32(bytes: &[u8], at: &mut usize) -> (res: Result<u32, Error>)
    requires
        *old(at) <= bytes@.len(),
    ensures
        match res {
            Ok(value) => read_number(bytes@.skip(*old(at) as int), 4) == Some(value as nat)
                && *final(at) == *old(at) + 4 && *final(at) <= bytes@.len(),
            Err(error) => read_number(bytes@.skip(*old(at) as int), 4) is None && *final(at)
                == *old(at) && error == Error::BadMsgFormat,
        },
{
    assert(bytes@.len() == bytes.len());
    match bincode_to_u32(tail_from(bytes, *at)) {
        Ok(value) => {
            *at = *at + 4;
            Ok(value)
        },
        Err(_) => Err(Error::BadMsgFormat),
    }
}

/// Reads the text field that starts at `at`, and moves `at` behind it.
pub fn take_text(bytes: &[u8], at: &mut usize) -> (res: Result<String, Error>)
    requires
        *old(at) <= bytes@.len(),
    ensures
        match res {
            Ok(value) => {
                let rest = bytes@.skip(*old(at) as int);
                read_text(rest) == Some(value@) && *final(at) == *old(at) + text_field_len(rest)
                    && *final(at) <= bytes@.len()
            },
            Err(error) => read_text(bytes@.skip(*old(at) as int)) is None && *final(at) == *old(at)
                && error == Error::BadMsgFormat,
        },
{
    assert(bytes@.len() == bytes.len());
    match bincode_to_text(tail_from(bytes, *at)) {
        Ok(value) => {
            proof {
                let rest = bytes@.skip(*at as int);
                let encoded = rest.subrange(8, text_field_len(rest) as int);
                decode_utf8_encode_utf8(encoded);
                assert(encode_utf8(value@) == encoded);
            }
            let width: usize = value.as_str().as_bytes().len();
            *at = *at + 8 + width;
            Ok(value)
        },
        Err(_) => Err(Error::BadMsgFormat),
    }
}

/// Reads the id field that starts at `at`, and moves `at` behind it.
pub fn take_id(bytes: &[u8], at: &mut usize) -> (res: Result<u128, Error>)
    requires
        *old(at) <= bytes@.len(),
    ensures
        match res {
            Ok(value) => read_id(bytes@.skip(*old(at) as int)) == Some(value) && *final(at)
                == *old(at) + 24 && *final(at) <= bytes@.len(),
            Err(error) => read_id(bytes@.skip(*old(at) as int)) is None && *final(at) == *old(at)
                && error == Error::BadMsgFormat,
        },
{
    assert(bytes@.len() == bytes.len());
    match bincode_to_id(tail_from(bytes, *at)) {
        Ok(value) => {
            *at = *at + 24;
            Ok(value)
        },
        Err(_) => Err(Error::BadMsgFormat),
    }
}

/// A text field is read back, whatever follows it.
pub proof fn lemma_text_field(text: Seq<char>, rest: Seq<u8>)
    requires
        text_fits(text),
    ensures
        read_text(text_field(text) + rest) == Some(text),
        text_field_len(text_field(text) + rest) == text_field(text).len(),
        text_field(text).len() == 8 + encode_utf8(text).len(),
{
    let encoded = encode_utf8(text);
    let bytes = text_field(text) + rest;
    numbers::lemma_le_round_trip(encoded.len(), 8);
    assert(bytes.take(8) =~= numbers::le_bytes(encoded.len(), 8));
    assert(bytes.subrange(8, 8 + encoded.len() as int) =~= encoded);
    encode_utf8_valid_utf8(text);
    encode_utf8_decode_utf8(text);
}

/// A number field is read back, whatever follows it.
pub proof fn lemma_number_field(n: nat, width: nat, rest: Seq<u8>)
    requires
        n < numbers::byte_bound(width),
    ensures
        read_number(numbers::le_bytes(n, width) + rest, width) == Some(n),
        numbers::le_bytes(n, width).len() == width,
{
    numbers::lemma_le_round_trip(n, width);
    assert((numbers::le_bytes(n, width) + rest).take(width as int) =~= numbers::le_bytes(n, width));
}

/// An id field is read back, whatever follows it.
pub proof fn lemma_id_field(id: u128, rest: Seq<u8>)
    ensures
        read_id(id_field(id) + rest) == Some(id),
        id_field(id).len() == 24,
{
    numbers::lemma_byte_bounds();
    numbers::lemma_le_round_trip(16, 8);
    numbers::lemma_be_bytes_len(id as nat, 16);
    numbers::lemma_be_value_of_bytes(id as nat, 16);
    let bytes = id_field(id) + rest;
    assert(bytes.take(8) =~= numbers::le_bytes(16, 8));
    assert(bytes.subrange(8, 24) =~= numbers::be_bytes(id as nat, 16));
}

/// A message that travels between the game server and the proxy.
pub trait WireMessage: View + Sized {
    /// The bytes of a message.
    spec fn wire(message: Self::V) -> Seq<u8>;

    /// The message at the start of `bytes`, where there is one.
    spec fn unwire(bytes: Seq<u8>) -> Option<Self::V>;

    /// Every text in the message is short enough for its length field.
    spec fn fits(message: Self::V) -> bool;

    /// Writes the message.
    fn to_bytes(&self) -> (res: Result<Vec<u8>, Error>)
        ensures
            match res {
                Ok(bytes) => bytes@ == Self::wire(self@),
                Err(_) => false,
            },
            Self::fits(self@),
    ;

    /// Reads the message at the start of `bytes`.
    fn from_bytes(bytes: &[u8]) -> (res: Result<Self, Error>)
        ensures
            match res {
                Ok(message) => Self::unwire(bytes@) == Some(message@),
                Err(error) => Self::unwire(bytes@) is None && error == Error::BadMsgFormat,
            },
    ;

    /// What was written is read back, whatever follows it.
    proof fn lemma_round_trip(message: Self::V, rest: Seq<u8>)
        requires
            Self::fits(message),
        ensures
            Self::unwire(Self::wire(message) + rest) == Some(message),
    ;
}

/// A text stands at a place: the length of its UTF-8 encoding in eight bytes, the least significant
/// first, then the encoding.
pub open spec fn is_text_at(bytes: Seq<u8>, at: int, text: Seq<char>) -> bool {
    let encoded = encode_utf8(text);
    &&& 0 <= at
    &&& bytes.len() >= at + 8 + encoded.len()
    &&& numbers::is_le64(bytes.skip(at), encoded.len() as int)
    &&& bytes.subrange(at + 8, at + 8 + encoded.len()) == encoded
}

/// Where a text field stands, the text stands.
pub proof fn lemma_text_at(front: Seq<u8>, text: Seq<char>, rest: Seq<u8>)
    requires
        text_fits(text),
    ensures
        is_text_at(front + text_field(text) + rest, front.len() as int, text),
        text_field(text).len() == 8 + encode_utf8(text).len(),
{
    numbers::lemma_byte_bounds();
    let bytes = front + text_field(text) + rest;
    let encoded = encode_utf8(text);
    numbers::lemma_le_layout(encoded.len(), encoded + rest);
    assert(bytes.skip(front.len() as int) =~= numbers::le_bytes(encoded.len(), 8) + (encoded
        + rest));
    assert(bytes.subrange(front.len() as int + 8, front.len() as int + 8 + encoded.len())
        =~= encoded);
}

/// A message that was written is read back, whatever follows it.
pub proof fn law_written_message_is_read<T: WireMessage>(
    message: T,
    written: Result<Vec<u8>, Error>,
    rest: Seq<u8>,
    bytes: &[u8],
    read: Result<T, Error>,
)
    requires
        call_ensures(T::to_bytes, (&message,), written),
        written matches Ok(written) ==> bytes@ == written@ + rest,
        call_ensures(T::from_bytes, (bytes,), read),
    ensures
        written is Ok,
        read matches Ok(read) && read@ == message@,
{
    T::lemma_round_trip(message@, rest);
}

/// The fields are written behind what was written before: a number in its width, the least
/// significant byte first, a text with its length in front.
pub proof fn law_fields_are_appended(
    small: u16,
    with_small: &mut Vec<u8>,
    small_res: Result<(), Error>,
    number: u32,
    with_number: &mut Vec<u8>,
    number_res: Result<(), Error>,
    text: &str,
    with_text: &mut Vec<u8>,
    text_res: Result<(), Error>,
)
    requires
        call_ensures(push_u16, (with_small, small), small_res),
        call_ensures(push_u32, (with_number, number), number_res),
        call_ensures(push_text, (with_text, text), text_res),
    ensures
        small_res is Ok && number_res is Ok && text_res is Ok,
        final(with_small)@.len() == old(with_small)@.len() + 2,
        final(with_small)@.take(old(with_small)@.len() as int) == old(with_small)@,
        numbers::is_le16(final(with_small)@.skip(old(with_small)@.len() as int), small as int),
        final(with_number)@.len() == old(with_number)@.len() + 4,
        final(with_number)@.take(old(with_number)@.len() as int) == old(with_number)@,
        numbers::is_le32(final(with_number)@.skip(old(with_number)@.len() as int), number as int),
        final(with_text)@.len() == old(with_text)@.len() + 8 + encode_utf8(text@).len(),
        final(with_text)@.take(old(with_text)@.len() as int) == old(with_text)@,
        is_text_at(final(with_text)@, old(with_text)@.len() as int, text@),
{
    let none = Seq::<u8>::empty();
    numbers::lemma_le_layout(small as nat, none);
    numbers::lemma_le_layout(number as nat, none);
    lemma_text_at(old(with_text)@, text@, none);
    assert(final(with_small)@.skip(old(with_small)@.len() as int) =~= numbers::le_bytes(
        small as nat,
        2,
    ) + none);
    assert(final(with_number)@.skip(old(with_number)@.len() as int) =~= numbers::le_bytes(
        number as nat,
        4,
    ) + none);
    assert(final(with_text)@ =~= old(with_text)@ + text_field(text@) + none);
    assert(final(with_small)@.take(old(with_small)@.len() as int) =~= old(with_small)@);
    assert(final(with_number)@.take(old(with_number)@.len() as int) =~= old(with_number)@);
    assert(final(with_text)@.take(old(with_text)@.len() as int) =~= old(with_text)@);
}

/// An id that was written is read back from where it was written, whatever follows it, and reading
/// goes on behind it.
pub proof fn law_written_id_is_read(
    id: u128,
    out: &mut Vec<u8>,
    res: Result<(), Error>,
    rest: Seq<u8>,
    bytes: &[u8],
    at: &mut usize,
    read: Result<u128, Error>,
)
    requires
        call_ensures(push_id, (out, id), res),
        bytes@ == final(out)@ + rest,
        *old(at) == old(out)@.len(),
        call_ensures(take_id, (bytes, at), read),
    ensures
        res is Ok,
        read == Ok::<u128, Error>(id),
        *final(at) == final(out)@.len(),
{
    lemma_id_field(id, rest);
    assert(bytes@.skip(*old(at) as int) =~= id_field(id) + rest);
}

/// A text that was written is read back from where it was written, whatever follows it, and reading
/// goes on behind it.
pub proof fn law_written_text_is_read(
    text: &str,
    out: &mut Vec<u8>,
    res: Result<(), Error>,
    rest: Seq<u8>,
    bytes: &[u8],
    at: &mut usize,
    read: Result<String, Error>,
)
    requires
        call_ensures(push_text, (out, text), res),
        bytes@ == final(out)@ + rest,
        *old(at) == old(out)@.len(),
        call_ensures(take_text, (bytes, at), read),
    ensures
        res is Ok,
        read matches Ok(read) && read@ == text@,
        *final(at) == final(out)@.len(),
{
    lemma_text_field(text@, rest);
    assert(bytes@.skip(*old(at) as int) =~= text_field(text@) + rest);
}

/// A number that was written is read back from where it was written, whatever follows it, and reading
/// goes on behind it.
pub proof fn law_written_numbers_are_read(
    small: u16,
    with_small: &mut Vec<u8>,
    small_res: Result<(), Error>,
    number: u32,
    with_number: &mut Vec<u8>,
    number_res: Result<(), Error>,
    rest: Seq<u8>,
    small_bytes: &[u8],
    small_at: &mut usize,
    read_small: Result<u16, Error>,
    number_bytes: &[u8],
    number_at: &mut usize,
    read_number: Result<u32, Error>,
)
    requires
        call_ensures(push_u16, (with_small, small), small_res),
        small_bytes@ == final(with_small)@ + rest,
        *old(small_at) == old(with_small)@.len(),
        call_ensures(take_u16, (small_bytes, small_at), read_small),
        call_ensures(push_u32, (with_number, number), number_res),
        number_bytes@ == final(with_number)@ + rest,
        *old(number_at) == old(with_number)@.len(),
        call_ensures(take_u32, (number_bytes, number_at), read_number),
    ensures
        read_small == Ok::<u16, Error>(small),
        *final(small_at) == final(with_small)@.len(),
        read_number == Ok::<u32, Error>(number),
        *final(number_at) == final(with_number)@.len(),
{
    numbers::lemma_byte_bounds();
    lemma_number_field(small as nat, 2, rest);
    lemma_number_field(number as nat, 4, rest);
    assert(small_bytes@.skip(*old(small_at) as int) =~= numbers::le_bytes(small as nat, 2) + rest);
    assert(number_bytes@.skip(*old(number_at) as int) =~= numbers::le_bytes(number as nat, 4)
        + rest);
}

/// A field that was cut short is not there.
pub proof fn lemma_cut_text(text: Seq<char>, count: int)
    requires
        text_fits(text),
        0 <= count < text_field(text).len(),
    ensures
        read_text(text_field(text).take(count)) is None,
        text_field(text).len() == 8 + encode_utf8(text).len(),
{
    let none = Seq::<u8>::empty();
    let cut = text_field(text).take(count);
    lemma_text_field(text, none);
    assert(text_field(text) + none =~= text_field(text));
    if count >= 8 {
        assert(cut.take(8) =~= text_field(text).take(8));
    }
}

} // verus!
