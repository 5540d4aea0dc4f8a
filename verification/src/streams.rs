//! How messages are cut out of streams of bytes.
//!
//! A stream of messages is a series of frames: the length of a frame in four bytes, most
//! significant first, then the frame. A relayed stream starts with one such frame, its header, and
//! goes on with bytes that are none of the proxy's business, so that no byte behind the header may
//! be taken off it.
use vstd::prelude::*;

use crate::error::Error;
use crate::numbers;
use crate::wire::WireMessage;

verus! {

/// The longest frame of a message stream.
pub const MAX_FRAME_LENGTH: usize = 1_024 * 1_024 * 1_024;

/// The longest header of a relayed stream.
pub const HEADER_SIZE_LIMIT: u32 = 1024;

/// The I/O error of the standard library, carried as it is.
#[verifier::external_type_specification]
#[verifier::external_body]
pub struct ExIoError(std::io::Error);

/// A frame: its length in four bytes, then its payload.
pub open spec fn frame(payload: Seq<u8>) -> Seq<u8> {
    numbers::be_bytes(crate::bytes::length_field(payload.len()), 4) + payload
}

/// What stands at the start of the bytes received so far.
pub enum NextFrame {
    /// The start of a frame, or nothing.
    Incomplete,
    /// A frame that announces more bytes than are allowed.
    TooLong,
    /// A whole frame, and what follows it.
    Whole { payload: Seq<u8>, rest: Seq<u8> },
}

/// What stands at the start of `received`, where a frame may have `max` bytes.
pub open spec fn next_frame(received: Seq<u8>, max: nat) -> NextFrame {
    if received.len() < 4 {
        NextFrame::Incomplete
    } else {
        let len = numbers::be_value(received.take(4));
        if len > max {
            NextFrame::TooLong
        } else if received.len() < 4 + len {
            NextFrame::Incomplete
        } else {
            NextFrame::Whole {
                payload: received.subrange(4, 4 + len as int),
                rest: received.skip(4 + len as int),
            }
        }
    }
}

/// `tokio_util`'s `LengthDelimitedCodec` as an `Encoder`, with a limit on the length of a frame:
/// it writes the length of the payload in four bytes, most significant first, then the payload. It
/// fails only on a payload that is longer than the limit. A limit that does not fit in the four
/// bytes would be lowered.
#[verifier::external_body]
fn codec_encode(max_frame_length: usize, payload: &[u8]) -> (res: Result<Vec<u8>, std::io::Error>)
    requires
        max_frame_length < 0x1_0000_0000,
    ensures
        match res {
            Ok(encoded) => payload@.len() <= max_frame_length && encoded@ == frame(payload@),
            Err(_) => payload@.len() > max_frame_length,
        },
{
    let mut codec = tokio_util::codec::LengthDelimitedCodec::new();
    codec.set_max_frame_length(max_frame_length);
    let mut encoded = ::bytes::BytesMut::new();
    tokio_util::codec::Encoder::<&[u8]>::encode(&mut codec, payload, &mut encoded)?;
    Ok(encoded.to_vec())
}

/// `tokio_util`'s `LengthDelimitedCodec` as a `Decoder`, with a limit on the length of a frame, on
/// bytes that start with a frame: it returns the payload of a whole frame, nothing while bytes of
/// the frame are missing, and fails only on a frame that announces more bytes than the limit. A
/// limit that does not fit in the four bytes of a length would be lowered.
#[verifier::external_body]
fn codec_decode(max_frame_length: usize, received: &[u8]) -> (res: Result<
    Option<Vec<u8>>,
    std::io::Error,
>)
    requires
        max_frame_length < 0x1_0000_0000,
    ensures
        match (res, next_frame(received@, max_frame_length as nat)) {
            (Ok(Some(decoded)), NextFrame::Whole { payload, rest }) => decoded@ == payload,
            (Ok(None), NextFrame::Incomplete) => true,
            (Err(_), NextFrame::TooLong) => true,
            _ => false,
        },
{
    let mut codec = tokio_util::codec::LengthDelimitedCodec::new();
    codec.set_max_frame_length(max_frame_length);
    let mut source = ::bytes::BytesMut::from(received);
    let decoded = tokio_util::codec::Decoder::decode(&mut codec, &mut source)?;
    Ok(decoded.map(|payload| payload.to_vec()))
}

/// The reading end of a message stream: the bytes received that no message was made of yet.
#[derive(Debug)]
pub struct IncomingStream {
    buffer: Vec<u8>,
}

impl View for IncomingStream {
    type V = Seq<u8>;

    closed spec fn view(&self) -> Seq<u8> {
        self.buffer@
    }
}

impl IncomingStream {
    /// A stream of which nothing was received.
    pub fn new() -> (res: Self)
        ensures
            res@ == Seq::<u8>::empty(),
    {
        IncomingStream { buffer: Vec::new() }
    }

    /// Takes in the bytes that came next.
    pub fn receive(&mut self, chunk: &[u8])
        ensures
            final(self)@ == old(self)@ + chunk@,
    {
        numbers::push_bytes(&mut self.buffer, chunk);
    }

    /// Takes every message off the stream of which all was received, in the order in which they
    /// came. Frames that are not messages of the expected kind are passed over.
    pub fn drain<T: WireMessage>(&mut self) -> (res: Vec<T>)
        ensures
            message_views(res@) == messages::<T>(
                received_frames(old(self)@, MAX_FRAME_LENGTH as nat),
            ),
            final(self)@ == leftover(old(self)@, MAX_FRAME_LENGTH as nat),
    {
        let ghost all = self@;
        let ghost max = MAX_FRAME_LENGTH as nat;
        let mut found: Vec<T> = Vec::new();
        loop
            invariant_except_break
                messages::<T>(received_frames(all, max)) == message_views(found@) + messages::<T>(
                    received_frames(self@, max),
                ),
                leftover(all, max) == leftover(self@, max),
            invariant
                max == MAX_FRAME_LENGTH,
            ensures
                messages::<T>(received_frames(all, max)) == message_views(found@),
                leftover(all, max) == self@,
            decreases self@.len(),
        {
            let ghost before = self@;
            let ghost sofar = message_views(found@);
            proof {
                lemma_first_message::<T>(before, max);
            }
            match self.next::<T>() {
                Ok(Some(message)) => {
                    found.push(message);
                    assert(message_views(found@) =~= sofar.push(message@));
                    assert(sofar + (seq![message@] + messages::<T>(received_frames(self@, max)))
                        =~= message_views(found@) + messages::<T>(received_frames(self@, max)));
                },
                Ok(None) => {
                    assert(sofar + messages::<T>(received_frames(before, max)) =~= sofar);
                    break;
                },
                Err(Error::FrameTooLong) => {
                    assert(sofar + messages::<T>(received_frames(before, max)) =~= sofar);
                    break;
                },
                Err(_) => {},
            }
        }
        found
    }

    /// Takes the next message off the stream, if all of it was received. A frame that is not a
    /// message of the expected kind is taken off too; one that is too long stays.
    pub fn next<T: WireMessage>(&mut self) -> (res: Result<Option<T>, Error>)
        ensures
            match next_frame(old(self)@, MAX_FRAME_LENGTH as nat) {
                NextFrame::Incomplete => res matches Ok(None) && final(self)@ == old(self)@,
                NextFrame::TooLong => final(self)@ == old(self)@ && res == Err::<Option<T>, Error>(
                    Error::FrameTooLong,
                ),
                NextFrame::Whole { payload, rest } => final(self)@ == rest && match res {
                    Ok(Some(message)) => T::unwire(payload) == Some(message@),
                    Ok(None) => false,
                    Err(error) => T::unwire(payload) is None && error == Error::BadMsgFormat,
                },
            },
    {
        match codec_decode(MAX_FRAME_LENGTH, self.buffer.as_slice()) {
            Ok(Some(payload)) => {
                let rest = self.buffer.split_off(4 + payload.len());
                self.buffer = rest;
                let message = T::from_bytes(payload.as_slice())?;
                Ok(Some(message))
            },
            Ok(None) => Ok(None),
            Err(_) => Err(Error::FrameTooLong),
        }
    }
}

/// The messages that frames hold, without the frames that hold none.
pub open spec fn messages<T: WireMessage>(frames: Seq<Seq<u8>>) -> Seq<T::V>
    decreases frames.len(),
{
    if frames.len() == 0 {
        Seq::empty()
    } else {
        let later = messages::<T>(frames.drop_first());
        match T::unwire(frames[0]) {
            Some(message) => seq![message] + later,
            None => later,
        }
    }
}

/// The views of messages.
pub open spec fn message_views<T: WireMessage>(messages: Seq<T>) -> Seq<T::V> {
    messages.map_values(|message: T| message@)
}

/// What is left of `received` behind its whole frames.
pub open spec fn leftover(received: Seq<u8>, max: nat) -> Seq<u8>
    decreases received.len(),
{
    match next_frame(received, max) {
        NextFrame::Whole { payload, rest } => leftover(rest, max),
        _ => received,
    }
}

/// The messages at the start of `received`, taken apart at the first frame.
proof fn lemma_first_message<T: WireMessage>(received: Seq<u8>, max: nat)
    ensures
        match next_frame(received, max) {
            NextFrame::Whole { payload, rest } => {
                let later = messages::<T>(received_frames(rest, max));
                messages::<T>(received_frames(received, max)) == match T::unwire(payload) {
                    Some(message) => seq![message] + later,
                    None => later,
                }
            },
            _ => messages::<T>(received_frames(received, max)) == Seq::<T::V>::empty(),
        },
{
    match next_frame(received, max) {
        NextFrame::Whole { payload, rest } => {
            let frames = received_frames(received, max);
            assert(frames.drop_first() =~= received_frames(rest, max));
            assert(frames[0] == payload);
        },
        _ => {},
    }
}

/// It makes no difference in which pieces the bytes of a stream arrive: what the first piece leaves
/// over, put in front of the next, gives the frames that both pieces at once would give.
pub proof fn law_pieces_make_no_difference(first: Seq<u8>, next: Seq<u8>, max: nat)
    ensures
        received_frames(first + next, max) == received_frames(first, max) + received_frames(
            leftover(first, max) + next,
            max,
        ),
        leftover(first + next, max) == leftover(leftover(first, max) + next, max),
    decreases first.len(),
{
    match next_frame(first, max) {
        NextFrame::Whole { payload, rest } => {
            let len = numbers::be_value(first.take(4));
            assert((first + next).take(4) =~= first.take(4));
            assert((first + next).subrange(4, 4 + len as int) =~= payload);
            assert((first + next).skip(4 + len as int) =~= rest + next);
            law_pieces_make_no_difference(rest, next, max);
            assert(received_frames(first + next, max) =~= received_frames(first, max)
                + received_frames(leftover(first, max) + next, max));
        },
        _ => {
            assert(received_frames(first, max) + received_frames(first + next, max)
                =~= received_frames(first + next, max));
        },
    }
}

/// The writing end of a message stream: the longest frame that it takes.
#[derive(Debug)]
pub struct OutgoingStream {
    max_frame_length: usize,
}

impl View for OutgoingStream {
    type V = nat;

    closed spec fn view(&self) -> nat {
        self.max_frame_length as nat
    }
}

impl OutgoingStream {
    /// The length of every frame that is taken fits in its length field.
    #[verifier::type_invariant]
    spec fn lengths_fit(self) -> bool {
        self.max_frame_length < 0x1_0000_0000
    }

    /// A stream that takes frames up to the longest of a message stream.
    pub fn new() -> (res: Self)
        ensures
            res@ == MAX_FRAME_LENGTH,
    {
        OutgoingStream { max_frame_length: MAX_FRAME_LENGTH }
    }

    /// The bytes to put on the wire for a frame.
    pub fn send_bytes(&self, bytes: Vec<u8>) -> (res: Result<Vec<u8>, Error>)
        ensures
            match res {
                Ok(sent) => bytes@.len() <= self@ && sent@ == frame(bytes@),
                Err(error) => bytes@.len() > self@ && error == Error::FrameTooLong,
            },
    {
        proof {
            use_type_invariant(self);
        }
        match codec_encode(self.max_frame_length, bytes.as_slice()) {
            Ok(sent) => Ok(sent),
            Err(_) => Err(Error::FrameTooLong),
        }
    }

    /// The bytes to put on the wire for a message.
    pub fn send<T: WireMessage>(&self, value: &T) -> (res: Result<Vec<u8>, Error>)
        ensures
            T::fits(value@),
            match res {
                Ok(sent) => T::wire(value@).len() <= self@ && sent@ == frame(T::wire(value@)),
                Err(error) => T::wire(value@).len() > self@ && error == Error::FrameTooLong,
            },
    {
        let bytes = value.to_bytes()?;
        self.send_bytes(bytes)
    }
}

/// What reading the header of a stream came to.
#[derive(Debug)]
pub enum Framed<T> {
    /// So many more bytes are needed, and no more may be taken off the stream.
    Need(usize),
    /// The header.
    Message(T),
}

/// Reads the header of a stream from the bytes taken off it so far.
pub fn read_framed<T: WireMessage>(received: &[u8], max_size: u32) -> (res: Result<Framed<T>, Error>)
    ensures
        ({
            let len = numbers::be_value(received@.take(4));
            if received@.len() < 4 {
                res matches Ok(Framed::Need(more)) && more == 4 - received@.len()
            } else if len > max_size {
                res == Err::<Framed<T>, Error>(Error::MessageTooLong(len as u32))
            } else if received@.len() < 4 + len {
                res matches Ok(Framed::Need(more)) && more == 4 + len - received@.len()
            } else {
                match res {
                    Ok(Framed::Need(_)) => false,
                    Ok(Framed::Message(message)) => T::unwire(
                        received@.subrange(4, 4 + len as int),
                    ) == Some(message@),
                    Err(error) => T::unwire(received@.subrange(4, 4 + len as int)) is None && error
                        == Error::BadMsgFormat,
                }
            }
        }),
{
    if received.len() < 4 {
        return Ok(Framed::Need(4 - received.len()));
    }
    let message_len = numbers::read_be32(received);
    if message_len > max_size {
        return Err(Error::MessageTooLong(message_len));
    }
    let available: usize = received.len() - 4;
    if available < message_len as usize {
        return Ok(Framed::Need(message_len as usize - available));
    }
    let payload = vstd::slice::slice_subrange(received, 4, 4 + message_len as usize);
    let message = T::from_bytes(payload)?;
    Ok(Framed::Message(message))
}

/// The bytes to put on a stream for its header.
pub fn write_framed<T: WireMessage>(value: &T) -> (res: Result<Vec<u8>, Error>)
    ensures
        T::fits(value@),
        match res {
            Ok(sent) => sent@ == frame(T::wire(value@)),
            Err(_) => false,
        },
{
    let bytes = value.to_bytes()?;
    let mut sent: Vec<u8> = Vec::new();
    numbers::push_be32(&mut sent, crate::bytes::as_length_field(bytes.len()));
    numbers::push_bytes(&mut sent, bytes.as_slice());
    assert(sent@ =~= frame(T::wire(value@)));
    Ok(sent)
}

/// A frame whose length fits in its length field starts with that length.
proof fn lemma_frame_head(payload: Seq<u8>)
    requires
        payload.len() < 0x1_0000_0000,
    ensures
        frame(payload).len() == 4 + payload.len(),
        numbers::be_value(frame(payload).take(4)) == payload.len(),
        frame(payload).skip(4) == payload,
{
    numbers::lemma_byte_bounds();
    numbers::lemma_be_bytes_len(payload.len(), 4);
    numbers::lemma_be_value_of_bytes(payload.len(), 4);
    assert(frame(payload).take(4) =~= numbers::be_bytes(payload.len(), 4));
    assert(frame(payload).skip(4) =~= payload);
}

/// A frame that was sent is received whole, and leaves what was sent behind it.
pub proof fn law_frame_round_trip(payload: Seq<u8>, rest: Seq<u8>, max: nat)
    requires
        payload.len() <= max < 0x1_0000_0000,
    ensures
        next_frame(frame(payload) + rest, max) == (NextFrame::Whole { payload, rest }),
{
    lemma_frame_head(payload);
    let received = frame(payload) + rest;
    assert(received.take(4) =~= frame(payload).take(4));
    assert(received.subrange(4, 4 + payload.len() as int) =~= payload);
    assert(received.skip(4 + payload.len() as int) =~= rest);
}

/// While bytes of a frame are missing, nothing is received.
pub proof fn law_frame_incomplete(payload: Seq<u8>, count: int, max: nat)
    requires
        payload.len() <= max < 0x1_0000_0000,
        0 <= count < frame(payload).len(),
    ensures
        next_frame(frame(payload).take(count), max) is Incomplete,
{
    lemma_frame_head(payload);
    let received = frame(payload).take(count);
    if count >= 4 {
        assert(received.take(4) =~= frame(payload).take(4));
    }
}

/// The bytes of a series of frames.
pub open spec fn frames(payloads: Seq<Seq<u8>>) -> Seq<u8>
    decreases payloads.len(),
{
    if payloads.len() == 0 {
        Seq::empty()
    } else {
        frame(payloads[0]) + frames(payloads.drop_first())
    }
}

/// The whole frames at the start of `received`, up to one that is incomplete or too long.
pub open spec fn received_frames(received: Seq<u8>, max: nat) -> Seq<Seq<u8>>
    decreases received.len(),
{
    match next_frame(received, max) {
        NextFrame::Whole { payload, rest } => seq![payload] + received_frames(rest, max),
        _ => Seq::empty(),
    }
}

/// The frames that were sent are the frames that are received, in the order in which they were
/// sent, whatever incomplete frame follows them.
pub proof fn law_frames_in_order(payloads: Seq<Seq<u8>>, tail: Seq<u8>, max: nat)
    requires
        max < 0x1_0000_0000,
        forall|i: int| 0 <= i < payloads.len() ==> (#[trigger] payloads[i]).len() <= max,
        next_frame(tail, max) is Incomplete,
    ensures
        received_frames(frames(payloads) + tail, max) == payloads,
    decreases payloads.len(),
{
    if payloads.len() == 0 {
        assert(frames(payloads) + tail =~= tail);
        assert(received_frames(tail, max) =~= payloads);
    } else {
        let later = payloads.drop_first();
        law_frames_in_order(later, tail, max);
        law_frame_round_trip(payloads[0], frames(later) + tail, max);
        assert(frames(payloads) + tail =~= frame(payloads[0]) + (frames(later) + tail));
        assert(seq![payloads[0]] + later =~= payloads);
    }
}

/// The header written on a stream is the header read off it, with whatever follows left alone; and
/// while bytes of it are missing, no byte behind it is asked for.
pub proof fn law_framed_round_trip<T: WireMessage>(header: T::V, rest: Seq<u8>, max_size: u32)
    requires
        T::fits(header),
        T::wire(header).len() <= max_size,
    ensures
        ({
            let sent = frame(T::wire(header));
            let len = numbers::be_value((sent + rest).take(4));
            &&& len <= max_size
            &&& sent.len() == 4 + len
            &&& T::unwire((sent + rest).subrange(4, 4 + len as int)) == Some(header)
            &&& forall|count: int|
                4 <= count < sent.len() ==> numbers::be_value(
                    (#[trigger] sent.take(count)).take(4),
                ) == len
        }),
{
    let payload = T::wire(header);
    let sent = frame(payload);
    lemma_frame_head(payload);
    assert((sent + rest).take(4) =~= sent.take(4));
    assert((sent + rest).subrange(4, 4 + payload.len() as int) =~= payload + Seq::<u8>::empty());
    T::lemma_round_trip(header, Seq::empty());
    assert forall|count: int| 4 <= count < sent.len() implies numbers::be_value(
        (#[trigger] sent.take(count)).take(4),
    ) == payload.len() by {
        assert(sent.take(count).take(4) =~= sent.take(4));
    }
}

/// The header written on a stream is read off it, whatever follows it. While bytes of it are missing,
/// more are asked for, but none behind the header.
pub proof fn law_written_header_is_read<T: WireMessage>(
    header: T,
    written: Result<Vec<u8>, Error>,
    rest: Seq<u8>,
    count: int,
    received: &[u8],
    max_size: u32,
    read: Result<Framed<T>, Error>,
)
    requires
        T::wire(header@).len() <= max_size,
        call_ensures(write_framed::<T>, (&header,), written),
        written matches Ok(written) ==> 0 <= count <= written@.len() + rest.len() && received@ == (
        written@ + rest).take(count),
        call_ensures(read_framed::<T>, (received, max_size), read),
    ensures
        written matches Ok(written) && if count < written@.len() {
            read matches Ok(Framed::Need(more)) && 0 < more <= written@.len() - count && (count >= 4
                ==> more == written@.len() - count)
        } else {
            read matches Ok(Framed::Message(read)) && read@ == header@
        },
{
    let payload = T::wire(header@);
    let sent = frame(payload);
    lemma_frame_head(payload);
    if count >= 4 {
        assert(received@.take(4) =~= sent.take(4));
    }
    if count >= sent.len() {
        assert(received@.subrange(4, 4 + payload.len() as int) =~= payload + Seq::<u8>::empty());
        T::lemma_round_trip(header@, Seq::empty());
    }
}

/// A header that announces more bytes than are allowed is refused as soon as its length is known, and
/// no other is refused for its length.
pub proof fn law_long_header_is_refused<T: WireMessage>(
    received: &[u8],
    announced: int,
    max_size: u32,
    read: Result<Framed<T>, Error>,
)
    requires
        received@.len() >= 4,
        numbers::is_be32(received@, announced),
        call_ensures(read_framed::<T>, (received, max_size), read),
    ensures
        announced > max_size <==> read is Err && read->Err_0 is MessageTooLong,
        announced > max_size ==> read == Err::<Framed<T>, Error>(
            Error::MessageTooLong(announced as u32),
        ),
        announced > 1024 && max_size == HEADER_SIZE_LIMIT ==> read is Err,
{
    numbers::lemma_be32(received@);
}

/// A frame is the length of what it carries in four bytes, the most significant first, and then what
/// it carries; that of a message is the message as it is written on its own. What is longer than the
/// longest frame of one gibibyte is refused, and nothing else.
pub proof fn law_frame_layout<T: WireMessage>(
    message: T,
    alone: Result<Vec<u8>, Error>,
    framed: Result<Vec<u8>, Error>,
    stream: OutgoingStream,
    sent: Result<Vec<u8>, Error>,
    bytes: Vec<u8>,
    sent_bytes: Result<Vec<u8>, Error>,
)
    requires
        call_ensures(T::to_bytes, (&message,), alone),
        call_ensures(write_framed::<T>, (&message,), framed),
        call_ensures(OutgoingStream::new, (), stream),
        call_ensures(OutgoingStream::send::<T>, (&stream, &message), sent),
        call_ensures(OutgoingStream::send_bytes, (&stream, bytes), sent_bytes),
    ensures
        alone matches Ok(alone) && {
            &&& framed matches Ok(framed) && (alone@.len() < 0x1_0000_0000 ==> is_frame_of(
                framed@,
                alone@,
            ))
            &&& match sent {
                Ok(sent) => alone@.len() <= 1_073_741_824 && is_frame_of(sent@, alone@),
                Err(error) => alone@.len() > 1_073_741_824 && error == Error::FrameTooLong,
            }
        },
        match sent_bytes {
            Ok(sent) => bytes@.len() <= 1_073_741_824 && is_frame_of(sent@, bytes@),
            Err(error) => bytes@.len() > 1_073_741_824 && error == Error::FrameTooLong,
        },
{
    let payload = T::wire(message@);
    if payload.len() < 0x1_0000_0000 {
        lemma_frame_head(payload);
        numbers::lemma_be32(frame(payload));
    }
    if bytes@.len() < 0x1_0000_0000 {
        lemma_frame_head(bytes@);
        numbers::lemma_be32(frame(bytes@));
    }
}

/// The bytes are a frame that carries a payload.
pub open spec fn is_frame_of(bytes: Seq<u8>, payload: Seq<u8>) -> bool {
    &&& bytes.len() == 4 + payload.len()
    &&& numbers::is_be32(bytes, payload.len() as int)
    &&& bytes.skip(4) == payload
}

/// A message that was sent is received once all of its bytes came in, and not before, and takes
/// nothing of what follows it off the stream. The bytes may come in any two pieces.
pub proof fn law_sent_message_is_received<T: WireMessage>(
    message: T,
    sending: OutgoingStream,
    sent: Vec<u8>,
    rest: Seq<u8>,
    empty: IncomingStream,
    first: &mut IncomingStream,
    first_chunk: &[u8],
    early: &mut IncomingStream,
    too_early: Result<Option<T>, Error>,
    second: &mut IncomingStream,
    second_chunk: &[u8],
    late: &mut IncomingStream,
    received: Result<Option<T>, Error>,
)
    requires
        call_ensures(OutgoingStream::new, (), sending),
        call_ensures(OutgoingStream::send::<T>, (&sending, &message), Ok(sent)),
        call_ensures(IncomingStream::new, (), empty),
        *old(first) == empty,
        call_ensures(IncomingStream::receive, (first, first_chunk), ()),
        first_chunk@.len() < sent@.len(),
        first_chunk@ + second_chunk@ == sent@ + rest,
        *old(early) == *final(first),
        call_ensures(IncomingStream::next::<T>, (early,), too_early),
        *old(second) == *final(early),
        call_ensures(IncomingStream::receive, (second, second_chunk), ()),
        *old(late) == *final(second),
        call_ensures(IncomingStream::next::<T>, (late,), received),
    ensures
        too_early matches Ok(None),
        received matches Ok(Some(received)) && received@ == message@,
        final(late)@ == rest,
{
    let payload = T::wire(message@);
    let count = first_chunk@.len() as int;
    let max = MAX_FRAME_LENGTH as nat;
    assert(first_chunk@ =~= (first_chunk@ + second_chunk@).take(count));
    assert(first_chunk@ =~= frame(payload).take(count));
    assert(Seq::<u8>::empty() + first_chunk@ =~= first_chunk@);
    law_frame_incomplete(payload, count, max);
    law_frame_round_trip(payload, rest, max);
    T::lemma_round_trip(message@, Seq::empty());
    assert(payload + Seq::<u8>::empty() =~= payload);
}

/// A frame that holds no message is taken off the stream, and what follows it stays; one that
/// announces more than a gibibyte is refused and stays, whatever came in of it.
pub proof fn law_bad_frame_is_passed_over<T: WireMessage>(
    stream: &mut IncomingStream,
    announced: int,
    received: Result<Option<T>, Error>,
)
    requires
        numbers::is_be32(old(stream)@, announced),
        call_ensures(IncomingStream::next::<T>, (stream,), received),
    ensures
        announced > 1_073_741_824 ==> received == Err::<Option<T>, Error>(Error::FrameTooLong)
            && final(stream)@ == old(stream)@,
        announced <= 1_073_741_824 && old(stream)@.len() < 4 + announced ==> {
            &&& received matches Ok(None)
            &&& final(stream)@ == old(stream)@
        },
        announced <= 1_073_741_824 && old(stream)@.len() >= 4 + announced ==> {
            &&& final(stream)@ == old(stream)@.skip(4 + announced)
            &&& match received {
                Ok(message) => message is Some,
                Err(error) => error == Error::BadMsgFormat,
            }
        },
{
    numbers::lemma_be32(old(stream)@);
}

/// A header in front of a stream is read.
pub proof fn lemma_header_is_read<T: WireMessage>(
    header: T::V,
    rest: Seq<u8>,
    received: &[u8],
    max_size: u32,
    read: Result<Framed<T>, Error>,
)
    requires
        T::fits(header),
        T::wire(header).len() <= max_size,
        received@ == frame(T::wire(header)) + rest,
        call_ensures(read_framed::<T>, (received, max_size), read),
    ensures
        read matches Ok(Framed::Message(message)) && message@ == header,
{
    law_framed_round_trip::<T>(header, rest, max_size);
}

/// What stands in a frame decides: where the header of a stream, or a frame of a message stream, came
/// in whole, it is read as its bytes on their own are, and refused as they are.
pub proof fn law_frame_is_read_as_its_bytes<T: WireMessage>(
    announced: int,
    payload: &[u8],
    alone: Result<T, Error>,
    received: &[u8],
    max_size: u32,
    header: Result<Framed<T>, Error>,
    stream: &mut IncomingStream,
    message: Result<Option<T>, Error>,
)
    requires
        received@.len() >= 4 + announced,
        numbers::is_be32(received@, announced),
        payload@ == received@.subrange(4, 4 + announced),
        call_ensures(T::from_bytes, (payload,), alone),
        announced <= max_size,
        call_ensures(read_framed::<T>, (received, max_size), header),
        announced <= 1_073_741_824,
        old(stream)@ == received@,
        call_ensures(IncomingStream::next::<T>, (stream,), message),
    ensures
        match (alone, header) {
            (Ok(alone), Ok(Framed::Message(header))) => header@ == alone@,
            (Err(reason), Err(error)) => error == reason,
            _ => false,
        },
        match (alone, message) {
            (Ok(alone), Ok(Some(message))) => message@ == alone@,
            (Err(reason), Err(error)) => error == reason,
            _ => false,
        },
{
    numbers::lemma_be32(received@);
}

} // verus!
