//! The stream of messages between a game server and its allocation, seen from either end.
use vstd::prelude::*;

use crate::error::Error;
use crate::streams;
use crate::streams::{IncomingStream, MAX_FRAME_LENGTH, OutgoingStream};
use crate::wire::WireMessage;

verus! {

/// Something that the end of a message stream waits for.
#[derive(Debug)]
pub enum ChannelInput<O> {
    /// The stream is open.
    Opened,
    /// The stream could not be opened.
    OpenFailed,
    /// Bytes came in.
    Received(Vec<u8>),
    /// A message is to be sent.
    Send(O),
    /// The connection is closed.
    Closed,
}

/// What the end of a message stream does next.
#[derive(Debug)]
pub enum ChannelAction<I> {
    /// Wake those who wait for the stream to open, and go on.
    Started,
    /// Hand these messages on, one after the other, and go on.
    Deliver(Vec<I>),
    /// Put these bytes on the stream and go on.
    Write(Vec<u8>),
    /// Go on without the message that was to be sent.
    SendFailed(Error),
    /// End.
    Stop,
}

/// An end of a message stream.
#[derive(Debug)]
pub struct MessageChannel {
    rx: IncomingStream,
    tx: OutgoingStream,
    started: bool,
}

/// An end of a message stream: whether the stream is open, the bytes received that no message was
/// made of yet, and the longest frame that can be sent.
pub struct ChannelView {
    pub started: bool,
    pub received: Seq<u8>,
    pub max_sent: nat,
}

impl View for MessageChannel {
    type V = ChannelView;

    closed spec fn view(&self) -> ChannelView {
        ChannelView { started: self.started, received: self.rx@, max_sent: self.tx@ }
    }
}

/// The frames at the start of what was received.
pub open spec fn whole_frames(received: Seq<u8>) -> Seq<Seq<u8>> {
    streams::received_frames(received, MAX_FRAME_LENGTH as nat)
}

/// What was received behind the frames at its start.
pub open spec fn behind_frames(received: Seq<u8>) -> Seq<u8> {
    streams::leftover(received, MAX_FRAME_LENGTH as nat)
}

impl MessageChannel {
    /// The end of a stream that is not open yet.
    pub fn new() -> (res: Self)
        ensures
            res@ == (ChannelView {
                started: false,
                received: Seq::empty(),
                max_sent: MAX_FRAME_LENGTH as nat,
            }),
    {
        MessageChannel { rx: IncomingStream::new(), tx: OutgoingStream::new(), started: false }
    }

    /// Tests whether the stream is open.
    pub fn is_started(&self) -> (res: bool)
        ensures
            res == self@.started,
    {
        self.started
    }

    /// Decides what to do about what the end of the stream waited for. `I` are the messages that
    /// come in, `O` those that go out.
    pub fn step<I: WireMessage, O: WireMessage>(&mut self, input: ChannelInput<O>) -> (res:
        ChannelAction<I>)
        ensures
            match (input, res) {
                (ChannelInput::Opened, ChannelAction::Started) => final(self)@ == (ChannelView {
                    started: true,
                    ..old(self)@
                }),
                (ChannelInput::OpenFailed, ChannelAction::Stop) => final(self)@ == old(self)@,
                (ChannelInput::Received(chunk), ChannelAction::Deliver(messages)) => {
                    let received = old(self)@.received + chunk@;
                    &&& streams::message_views(messages@) == streams::messages::<I>(
                        whole_frames(received),
                    )
                    &&& final(self)@ == (ChannelView {
                        received: behind_frames(received),
                        ..old(self)@
                    })
                },
                (ChannelInput::Send(message), ChannelAction::Write(bytes)) => {
                    &&& O::wire(message@).len() <= old(self)@.max_sent
                    &&& bytes@ == streams::frame(O::wire(message@))
                    &&& O::fits(message@)
                    &&& final(self)@ == old(self)@
                },
                (ChannelInput::Send(message), ChannelAction::SendFailed(error)) => {
                    &&& O::wire(message@).len() > old(self)@.max_sent
                    &&& error == Error::FrameTooLong
                    &&& final(self)@ == old(self)@
                },
                (ChannelInput::Closed, ChannelAction::Stop) => final(self)@ == old(self)@,
                _ => false,
            },
    {
        match input {
            ChannelInput::Opened => {
                self.started = true;
                ChannelAction::Started
            },
            ChannelInput::OpenFailed => ChannelAction::Stop,
            ChannelInput::Received(chunk) => {
                self.rx.receive(chunk.as_slice());
                ChannelAction::Deliver(self.rx.drain())
            },
            ChannelInput::Send(message) => match self.tx.send(&message) {
                Ok(bytes) => ChannelAction::Write(bytes),
                Err(error) => ChannelAction::SendFailed(error),
            },
            ChannelInput::Closed => ChannelAction::Stop,
        }
    }
}

/// The bytes of messages.
pub open spec fn wires<T: WireMessage>(messages: Seq<T::V>) -> Seq<Seq<u8>> {
    messages.map_values(|message: T::V| T::wire(message))
}

/// The messages that frames hold are those that were written into them.
proof fn lemma_messages_of_wires<T: WireMessage>(sent: Seq<T::V>)
    requires
        forall|i: int| 0 <= i < sent.len() ==> T::fits(#[trigger] sent[i]),
    ensures
        streams::messages::<T>(wires::<T>(sent)) == sent,
    decreases sent.len(),
{
    if sent.len() > 0 {
        let later = sent.drop_first();
        assert forall|i: int| 0 <= i < later.len() implies T::fits(#[trigger] later[i]) by {
            assert(later[i] == sent[i + 1]);
        }
        lemma_messages_of_wires::<T>(later);
        assert(wires::<T>(sent).drop_first() =~= wires::<T>(later));
        T::lemma_round_trip(sent[0], Seq::empty());
        assert(T::wire(sent[0]) + Seq::<u8>::empty() =~= wires::<T>(sent)[0]);
        assert(seq![sent[0]] + later =~= sent);
    } else {
        assert(streams::messages::<T>(wires::<T>(sent)) =~= sent);
    }
}

/// The messages that one end sends are the messages that the other end delivers, all of them and in
/// the order in which they were sent, and nothing is left over.
pub proof fn law_messages_arrive_in_order<T: WireMessage>(sent: Seq<T::V>)
    requires
        forall|i: int|
            0 <= i < sent.len() ==> T::fits(#[trigger] sent[i]) && T::wire(sent[i]).len()
                <= MAX_FRAME_LENGTH,
    ensures
        streams::messages::<T>(whole_frames(streams::frames(wires::<T>(sent)))) == sent,
        behind_frames(streams::frames(wires::<T>(sent))) == Seq::<u8>::empty(),
    decreases sent.len(),
{
    let frames = wires::<T>(sent);
    let none = Seq::<u8>::empty();
    streams::law_frames_in_order(frames, none, MAX_FRAME_LENGTH as nat);
    assert(streams::frames(frames) + none =~= streams::frames(frames));
    lemma_messages_of_wires::<T>(sent);
    if sent.len() > 0 {
        let later = sent.drop_first();
        assert forall|i: int| 0 <= i < later.len() implies T::fits(#[trigger] later[i]) && T::wire(
            later[i],
        ).len() <= MAX_FRAME_LENGTH by {
            assert(later[i] == sent[i + 1]);
        }
        law_messages_arrive_in_order::<T>(later);
        assert(frames.drop_first() =~= wires::<T>(later));
        streams::law_frame_round_trip(
            frames[0],
            streams::frames(wires::<T>(later)),
            MAX_FRAME_LENGTH as nat,
        );
    }
}

/// It makes no difference in which pieces the bytes of the messages arrive: the messages of the
/// first piece, and those of what it leaves over with the next piece behind, are the messages of
/// both pieces at once.
pub proof fn law_pieces_deliver_the_same<T: WireMessage>(first: Seq<u8>, next: Seq<u8>)
    ensures
        streams::messages::<T>(whole_frames(first + next)) == streams::messages::<T>(
            whole_frames(first),
        ) + streams::messages::<T>(whole_frames(behind_frames(first) + next)),
        behind_frames(first + next) == behind_frames(behind_frames(first) + next),
{
    streams::law_pieces_make_no_difference(first, next, MAX_FRAME_LENGTH as nat);
    lemma_messages_of_both::<T>(
        whole_frames(first),
        whole_frames(behind_frames(first) + next),
    );
}

/// The messages of one series of frames and another.
proof fn lemma_messages_of_both<T: WireMessage>(first: Seq<Seq<u8>>, next: Seq<Seq<u8>>)
    ensures
        streams::messages::<T>(first + next) == streams::messages::<T>(first)
            + streams::messages::<T>(next),
    decreases first.len(),
{
    if first.len() > 0 {
        lemma_messages_of_both::<T>(first.drop_first(), next);
        assert((first + next).drop_first() =~= first.drop_first() + next);
        assert(streams::messages::<T>(first + next) =~= streams::messages::<T>(first)
            + streams::messages::<T>(next));
    } else {
        assert(first + next =~= next);
        assert(streams::messages::<T>(first + next) =~= streams::messages::<T>(first)
            + streams::messages::<T>(next));
    }
}

/// The bytes of writes, one behind the other.
pub open spec fn one_behind_the_other(writes: Seq<Vec<u8>>) -> Seq<u8>
    decreases writes.len(),
{
    if writes.len() == 0 {
        Seq::empty()
    } else {
        writes[0]@ + one_behind_the_other(writes.drop_first())
    }
}

/// The messages that one end sends are delivered at the other end, all of them, each once, and in the
/// order in which they were sent.
pub proof fn law_sent_messages_are_delivered<I: WireMessage, O: WireMessage>(
    messages: Seq<O>,
    senders: Seq<&mut MessageChannel>,
    writes: Seq<Vec<u8>>,
    fresh: MessageChannel,
    receiver: &mut MessageChannel,
    chunk: Vec<u8>,
    action: ChannelAction<O>,
)
    requires
        call_ensures(MessageChannel::new, (), fresh),
        senders.len() == messages.len(),
        writes.len() == messages.len(),
        forall|i: int|
            0 <= i < messages.len() ==> (*(#[trigger] senders[i]))@.max_sent == fresh@.max_sent,
        forall|i: int|
            0 <= i < messages.len() ==> call_ensures(
                MessageChannel::step::<I, O>,
                (#[trigger] senders[i], ChannelInput::Send(messages[i])),
                ChannelAction::<I>::Write(writes[i]),
            ),
        old(receiver)@.received == fresh@.received,
        chunk@ == one_behind_the_other(writes),
        call_ensures(
            MessageChannel::step::<O, I>,
            (receiver, ChannelInput::<I>::Received(chunk)),
            action,
        ),
    ensures
        action matches ChannelAction::Deliver(delivered) && delivered@.len() == messages.len()
            && forall|i: int| 0 <= i < messages.len() ==> (#[trigger] delivered@[i])@ == messages[i]@,
{
    let sent = streams::message_views::<O>(messages);
    assert forall|i: int| 0 <= i < messages.len() implies {
        &&& O::fits(#[trigger] sent[i])
        &&& O::wire(sent[i]).len() <= MAX_FRAME_LENGTH
        &&& writes[i]@ == streams::frame(O::wire(sent[i]))
    } by {
        assert((*senders[i])@.max_sent == fresh@.max_sent);
    }
    law_messages_arrive_in_order::<O>(sent);
    lemma_frames_of_writes(writes, wires::<O>(sent));
    assert(Seq::<u8>::empty() + chunk@ =~= chunk@);
    if let ChannelAction::Deliver(delivered) = action {
        assert(streams::message_views::<O>(delivered@).len() == sent.len());
        assert forall|i: int| 0 <= i < messages.len() implies (#[trigger] delivered@[i])@
            == messages[i]@ by {
            assert(streams::message_views::<O>(delivered@)[i] == sent[i]);
        }
    }
}

/// Writes that are frames are a series of frames.
proof fn lemma_frames_of_writes(writes: Seq<Vec<u8>>, payloads: Seq<Seq<u8>>)
    requires
        writes.len() == payloads.len(),
        forall|i: int|
            0 <= i < writes.len() ==> (#[trigger] writes[i])@ == streams::frame(payloads[i]),
    ensures
        one_behind_the_other(writes) == streams::frames(payloads),
    decreases writes.len(),
{
    if writes.len() > 0 {
        let later = writes.drop_first();
        assert forall|i: int| 0 <= i < later.len() implies (#[trigger] later[i])@ == streams::frame(
            payloads.drop_first()[i],
        ) by {
            assert(later[i] == writes[i + 1]);
        }
        lemma_frames_of_writes(later, payloads.drop_first());
        assert(writes[0]@ == streams::frame(payloads[0]));
    }
}

/// It makes no difference in which pieces bytes come in: what is delivered for two pieces, one after
/// the other, is what is delivered for both at once, and the same is left.
pub proof fn law_any_pieces_deliver_the_same<I: WireMessage, O: WireMessage>(
    first: &mut MessageChannel,
    first_chunk: Vec<u8>,
    first_delivered: Vec<I>,
    second: &mut MessageChannel,
    second_chunk: Vec<u8>,
    second_delivered: Vec<I>,
    whole: &mut MessageChannel,
    chunk: Vec<u8>,
    delivered: Vec<I>,
)
    requires
        call_ensures(
            MessageChannel::step::<I, O>,
            (first, ChannelInput::<O>::Received(first_chunk)),
            ChannelAction::Deliver(first_delivered),
        ),
        *old(second) == *final(first),
        call_ensures(
            MessageChannel::step::<I, O>,
            (second, ChannelInput::<O>::Received(second_chunk)),
            ChannelAction::Deliver(second_delivered),
        ),
        *old(whole) == *old(first),
        chunk@ == first_chunk@ + second_chunk@,
        call_ensures(
            MessageChannel::step::<I, O>,
            (whole, ChannelInput::<O>::Received(chunk)),
            ChannelAction::Deliver(delivered),
        ),
    ensures
        streams::message_views(delivered@) == streams::message_views(first_delivered@)
            + streams::message_views(second_delivered@),
        final(whole)@ == final(second)@,
{
    let received = old(first)@.received;
    law_pieces_deliver_the_same::<I>(received + first_chunk@, second_chunk@);
    assert(received + first_chunk@ + second_chunk@ =~= received + chunk@);
}

/// An end of a stream starts when the stream opens, delivers what came in, sends what it is given,
/// and ends when the stream could not be opened or is closed. A message is passed over only where it
/// is longer than a gibibyte, and neither that nor sending changes what is delivered.
pub proof fn law_channel_goes_on<I: WireMessage, O: WireMessage>(
    fresh: MessageChannel,
    not_yet: bool,
    channel: &mut MessageChannel,
    input: ChannelInput<O>,
    action: ChannelAction<I>,
    started: bool,
    started_after: bool,
)
    requires
        call_ensures(MessageChannel::new, (), fresh),
        call_ensures(MessageChannel::is_started, (&fresh,), not_yet),
        old(channel)@.max_sent == fresh@.max_sent,
        call_ensures(MessageChannel::is_started, (&*old(channel),), started),
        call_ensures(MessageChannel::step::<I, O>, (channel, input), action),
        call_ensures(MessageChannel::is_started, (&*final(channel),), started_after),
    ensures
        !not_yet,
        started_after == (started || input is Opened),
        final(channel)@.max_sent == old(channel)@.max_sent,
        !(input is Received) ==> final(channel)@.received == old(channel)@.received,
        match input {
            ChannelInput::Opened => action is Started,
            ChannelInput::OpenFailed | ChannelInput::Closed => action is Stop,
            ChannelInput::Received(_) => action is Deliver,
            ChannelInput::Send(message) => match action {
                ChannelAction::Write(_) => O::wire(message@).len() <= 1_073_741_824,
                ChannelAction::SendFailed(error) => O::wire(message@).len() > 1_073_741_824
                    && error == Error::FrameTooLong,
                _ => false,
            },
        },
{
}

} // verus!
