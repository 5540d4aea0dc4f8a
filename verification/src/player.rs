//! The connection of a player to an allocation.
use vstd::prelude::*;
use vstd::utf8::*;

use crate::error::Error;
use crate::protocol::{
    DatagramInfo, ServerMessage, ServerMessageView, ServerStreamHeader, ServerStreamHeaderView,
};
use crate::proxy;
use crate::proxy::PlayerEvent;
use crate::streams;
use crate::wire::WireMessage;

verus! {

/// Something that the loop of a player's connection waits for.
#[derive(Debug)]
pub enum PlayerInput {
    /// The player opened a stream in one direction.
    UniStream,
    /// The player opened a stream in both directions.
    BiStream,
    /// The player sent a datagram.
    Datagram(::bytes::Bytes),
    /// The connection to the game server is closed.
    ServerClosed,
    /// The connection to the player is closed.
    PlayerClosed,
    /// There is nothing left to wait for.
    NothingLeft,
}

/// What the loop of a player's connection does next.
#[derive(Debug)]
pub enum PlayerAction {
    /// Open such a stream to the game server, put these bytes on it, copy the player's stream behind
    /// them, and go on.
    RelayUni(Vec<u8>),
    /// Open such a stream to the game server, put these bytes on it, copy the player's stream behind
    /// them and the game server's stream to the player, and go on.
    RelayBi(Vec<u8>),
    /// Send this datagram to the game server and go on.
    Send(::bytes::Bytes),
    /// Go on without what could not be relayed.
    Failed(Error),
    /// End.
    Stop,
    /// Tell the allocation, and end.
    StopWith(PlayerEvent),
}

/// The connection of a player.
#[derive(Debug)]
pub struct PlayerConnection {
    player_id: String,
}

impl View for PlayerConnection {
    type V = Seq<char>;

    closed spec fn view(&self) -> Seq<char> {
        self.player_id@
    }
}

/// The header of a stream that a player opened.
pub open spec fn stream_header(player_id: Seq<char>) -> ServerStreamHeaderView {
    ServerStreamHeaderView::PlayerStreamOpened { player_id }
}

/// What is put in front of a stream that a player opened.
pub open spec fn stream_head(player_id: Seq<char>) -> Seq<u8> {
    streams::frame(ServerStreamHeader::wire(stream_header(player_id)))
}

impl PlayerConnection {
    /// The connection of a player with an id.
    pub fn new(player_id: String) -> (res: Self)
        ensures
            res@ == player_id@,
    {
        PlayerConnection { player_id }
    }

    /// The message that tells the game server that the player connected.
    pub fn announcement(&self) -> (res: ServerMessage)
        ensures
            res@ == (ServerMessageView::PlayerConnected { player_id: self@ }),
    {
        ServerMessage::PlayerConnected { player_id: self.player_id.clone() }
    }

    /// What is put in front of a stream in one direction that the player opened.
    pub fn handle_uni(&self) -> (res: Result<Vec<u8>, Error>)
        ensures
            match res {
                Ok(head) => head@ == stream_head(self@),
                Err(_) => false,
            },
    {
        streams::write_framed(
            &ServerStreamHeader::PlayerStreamOpened { player_id: self.player_id.clone() },
        )
    }

    /// What is put in front of a stream in both directions that the player opened.
    pub fn handle_bi(&self) -> (res: Result<Vec<u8>, Error>)
        ensures
            match res {
                Ok(head) => head@ == stream_head(self@),
                Err(_) => false,
            },
    {
        streams::write_framed(
            &ServerStreamHeader::PlayerStreamOpened { player_id: self.player_id.clone() },
        )
    }

    /// The datagram that the game server gets for one of the player.
    pub fn handle_datagram(&self, datagram: ::bytes::Bytes) -> (res: Result<
        ::bytes::Bytes,
        Error,
    >)
        ensures
            match res {
                Ok(sent) => crate::bytes::contents(sent) == crate::bytes::prefixed(
                    DatagramInfo::wire(self@),
                    crate::bytes::contents(datagram),
                ),
                Err(_) => false,
            },
    {
        crate::bytes::prefix(&DatagramInfo { player_id: self.player_id.clone() }, datagram)
    }

    /// Decides what the loop of the connection does about what it waited for. That the game server
    /// is gone is for the allocation to tell; that the player is gone is told here.
    pub fn step(&self, input: PlayerInput) -> (res: PlayerAction)
        ensures
            match (input, res) {
                (PlayerInput::UniStream, PlayerAction::RelayUni(head)) => head@ == stream_head(
                    self@,
                ),
                (PlayerInput::BiStream, PlayerAction::RelayBi(head)) => head@ == stream_head(self@),
                (PlayerInput::Datagram(datagram), PlayerAction::Send(sent)) =>
                    crate::bytes::contents(sent) == crate::bytes::prefixed(
                    DatagramInfo::wire(self@),
                    crate::bytes::contents(datagram),
                ),
                (PlayerInput::ServerClosed, PlayerAction::Stop) => true,
                (PlayerInput::PlayerClosed | PlayerInput::NothingLeft, PlayerAction::StopWith(
                    PlayerEvent::Disconnected { player_id },
                )) => player_id@ == self@,
                _ => false,
            },
    {
        match input {
            PlayerInput::UniStream => match self.handle_uni() {
                Ok(head) => PlayerAction::RelayUni(head),
                Err(error) => PlayerAction::Failed(error),
            },
            PlayerInput::BiStream => match self.handle_bi() {
                Ok(head) => PlayerAction::RelayBi(head),
                Err(error) => PlayerAction::Failed(error),
            },
            PlayerInput::Datagram(datagram) => match self.handle_datagram(datagram) {
                Ok(sent) => PlayerAction::Send(sent),
                Err(error) => PlayerAction::Failed(error),
            },
            PlayerInput::ServerClosed => PlayerAction::Stop,
            PlayerInput::PlayerClosed | PlayerInput::NothingLeft => PlayerAction::StopWith(
                PlayerEvent::Disconnected { player_id: self.player_id.clone() },
            ),
        }
    }
}

/// A player's stream is told apart: the game server reads the id of the player off the front of the
/// stream that is opened to it, and what follows is what the player sent.
pub proof fn law_stream_names_player(player_id: Seq<char>, stream: Seq<u8>)
    requires
        ServerStreamHeader::fits(stream_header(player_id)),
        ServerStreamHeader::wire(stream_header(player_id)).len() <= streams::HEADER_SIZE_LIMIT,
    ensures
        ({
            let relayed = stream_head(player_id) + stream;
            let len = crate::numbers::be_value(relayed.take(4));
            &&& len <= streams::HEADER_SIZE_LIMIT
            &&& stream_head(player_id).len() == 4 + len
            &&& ServerStreamHeader::unwire(relayed.subrange(4, 4 + len as int)) == Some(
                stream_header(player_id),
            )
            &&& relayed.skip(4 + len as int) == stream
        }),
{
    streams::law_framed_round_trip::<ServerStreamHeader>(
        stream_header(player_id),
        stream,
        streams::HEADER_SIZE_LIMIT,
    );
    let head = stream_head(player_id);
    assert((head + stream).skip(head.len() as int) =~= stream);
}

/// A player's datagram is told apart: the game server reads the id of the player off the front of
/// the datagram that is sent to it, and what follows is what the player sent.
pub proof fn law_datagram_names_player(player_id: Seq<char>, data: Seq<u8>)
    requires
        DatagramInfo::fits(player_id),
        DatagramInfo::wire(player_id).len() < 0x1_0000_0000,
    ensures
        ({
            let datagram = crate::bytes::prefixed(DatagramInfo::wire(player_id), data);
            &&& crate::bytes::has_prefix(datagram)
            &&& proxy::datagram_player(datagram) == Some(player_id)
            &&& proxy::datagram_data(datagram) == data
        }),
{
    crate::bytes::law_prefix_round_trip::<DatagramInfo>(player_id, data);
}

/// A player is told apart in all that is relayed. The game server is told the id of the player who
/// connected, reads it off the front of every stream that the player opened, whatever follows, and the
/// allocation is told it when the player is gone. The id has to be short enough for a header.
pub proof fn law_player_is_named(
    player_id: String,
    player: PlayerConnection,
    announced: ServerMessage,
    one_way: PlayerAction,
    both_ways: PlayerAction,
    stream: Seq<u8>,
    received: &[u8],
    read: Result<streams::Framed<ServerStreamHeader>, Error>,
    gone: PlayerAction,
    nothing_left: PlayerAction,
    server_gone: PlayerAction,
)
    requires
        encode_utf8(player_id@).len() + 12 <= 1024,
        call_ensures(PlayerConnection::new, (player_id,), player),
        call_ensures(PlayerConnection::announcement, (&player,), announced),
        call_ensures(PlayerConnection::step, (&player, PlayerInput::UniStream), one_way),
        call_ensures(PlayerConnection::step, (&player, PlayerInput::BiStream), both_ways),
        one_way matches PlayerAction::RelayUni(head) ==> received@ == head@ + stream,
        call_ensures(
            streams::read_framed::<ServerStreamHeader>,
            (received, streams::HEADER_SIZE_LIMIT),
            read,
        ),
        call_ensures(PlayerConnection::step, (&player, PlayerInput::PlayerClosed), gone),
        call_ensures(PlayerConnection::step, (&player, PlayerInput::NothingLeft), nothing_left),
        call_ensures(PlayerConnection::step, (&player, PlayerInput::ServerClosed), server_gone),
    ensures
        announced matches ServerMessage::PlayerConnected { player_id: named } && named@
            == player_id@,
        match (one_way, both_ways) {
            (PlayerAction::RelayUni(first), PlayerAction::RelayBi(second)) => first@ == second@,
            _ => false,
        },
        match read {
            Ok(streams::Framed::Message(ServerStreamHeader::PlayerStreamOpened { player_id: named })) =>
                named@ == player_id@,
            _ => false,
        },
        gone matches PlayerAction::StopWith(PlayerEvent::Disconnected { player_id: named })
            && named@ == player_id@,
        nothing_left matches PlayerAction::StopWith(PlayerEvent::Disconnected { player_id: named })
            && named@ == player_id@,
        server_gone is Stop,
{
    crate::numbers::lemma_byte_bounds();
    crate::numbers::lemma_le_round_trip(0, 4);
    crate::wire::lemma_text_field(player_id@, Seq::empty());
    law_stream_names_player(player_id@, stream);
}

} // verus!
