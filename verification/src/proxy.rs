//! An allocation: the game server that asked for it, the endpoint on which its players connect, the
//! players, and the assets of the game.
use std::collections::hash_map::DefaultHasher;
use std::ops::RangeInclusive;

use vstd::prelude::*;
use vstd::utf8::*;

use crate::asset_store;
use crate::asset_store::{AssetRequest, AssetStep, AssetStore, AssetView};
use crate::assets;
use crate::assets::{PackedAsset, StoreAssetMessage};
use crate::client::ClientController;
use crate::error::Error;
use crate::ids;
use crate::numbers;
use crate::ports;
use crate::protocol::{
    ClientMessage, ClientStreamHeader, ClientStreamHeaderView, DatagramInfo, ProxyStats,
    ServerMessage, ServerMessageView, SocketAddress, SocketAddressView,
};
use crate::streams;
use crate::table::Table;
use crate::telemetry::{ConnectionRole, MetricsUpdate};
use crate::text;
use crate::wire::WireMessage;

verus! {

/// What an allocation tells the management of the proxy.
#[derive(Clone, Copy, Debug, PartialEq, Eq)]
pub enum ProxyEvent {
    /// The allocation with this id ended.
    Stopped { id: u128 },
}

/// What the connection of a player tells the allocation.
#[derive(Clone, Debug, PartialEq, Eq)]
pub enum PlayerEvent {
    /// The player is gone.
    Disconnected { player_id: String },
}

/// An allocation. `E` is the endpoint on which players connect, `P` the connection of a player, `N`
/// what wakes those who wait for an asset.
pub struct ProxyServer<E, P, N> {
    id: u128,
    proxy_endpoint: Option<E>,
    allocated_endpoint: String,
    public_host_name: String,
    http_public_addr: String,
    ports: (u16, u16),
    player_conns: Table<P>,
    asset_store: AssetStore<N>,
}

/// The state of an allocation.
pub struct ProxyView<E, P, N> {
    pub id: u128,
    pub proxy_endpoint: Option<E>,
    pub allocated_endpoint: Seq<char>,
    pub public_host_name: Seq<char>,
    pub http_public_addr: Seq<char>,
    /// The first and the last port on which players may connect.
    pub ports: (u16, u16),
    pub players: Map<Seq<char>, P>,
    pub assets: Map<Seq<char>, AssetView<N>>,
}

impl<E, P, N> View for ProxyServer<E, P, N> {
    type V = ProxyView<E, P, N>;

    closed spec fn view(&self) -> ProxyView<E, P, N> {
        ProxyView {
            id: self.id,
            proxy_endpoint: self.proxy_endpoint,
            allocated_endpoint: self.allocated_endpoint@,
            public_host_name: self.public_host_name@,
            http_public_addr: self.http_public_addr@,
            ports: self.ports,
            players: self.player_conns@,
            assets: self.asset_store@,
        }
    }
}

/// `std::ops::RangeInclusive::into_inner`: the lower and the upper bound of a range. Nothing is said
/// of a range that was walked to its end.
pub assume_specification<Idx>[ std::ops::RangeInclusive::<Idx>::into_inner ](
    range: std::ops::RangeInclusive<Idx>,
) -> (res: (Idx, Idx))
    requires
        !range@.exhausted,
    ensures
        res == (range@.start, range@.end),
;

/// The URL under which the assets of an allocation are served.
pub open spec fn assets_root(http_public_addr: Seq<char>, id: u128) -> Seq<char> {
    "http://"@ + http_public_addr + "/content/"@ + ids::id_text(id) + "/"@
}

/// What came of the attempt to listen for players.
#[derive(Debug)]
pub enum Bound<E> {
    /// No port could be bound.
    Failed,
    /// An endpoint listens on a port, which may be unknown.
    Endpoint(E, Option<u16>),
}

/// The state of an allocation after the game server asked for an endpoint.
pub open spec fn after_allocate<E, P, N>(state: ProxyView<E, P, N>, bound: Bound<E>) -> ProxyView<
    E,
    P,
    N,
> {
    if state.proxy_endpoint is Some {
        state
    } else {
        match bound {
            Bound::Failed => state,
            Bound::Endpoint(endpoint, None) => ProxyView {
                proxy_endpoint: Some(endpoint),
                ..state
            },
            Bound::Endpoint(endpoint, Some(port)) => ProxyView {
                proxy_endpoint: Some(endpoint),
                allocated_endpoint: text::host_port(state.public_host_name, port),
                ..state
            },
        }
    }
}

/// The answer to a game server that asks for an endpoint.
pub enum AllocateAnswer {
    Refused(Error),
    Message(ServerMessageView),
}

/// What a game server is answered that asks for an endpoint.
pub open spec fn allocate_answer<E, P, N>(
    state: ProxyView<E, P, N>,
    bound: Bound<E>,
    external_endpoint: SocketAddressView,
) -> AllocateAnswer {
    if state.proxy_endpoint is Some {
        AllocateAnswer::Refused(Error::EndpointAlreadyAllocated)
    } else {
        match bound {
            Bound::Failed => AllocateAnswer::Refused(Error::NoProxyEndpoint),
            Bound::Endpoint(endpoint, None) => AllocateAnswer::Refused(Error::NoLocalAddress),
            Bound::Endpoint(endpoint, Some(port)) => AllocateAnswer::Message(
                ServerMessageView::Allocation {
                    id: state.id,
                    allocated_endpoint: text::host_port(state.public_host_name, port),
                    assets_root: assets_root(state.http_public_addr, state.id),
                    external_endpoint,
                },
            ),
        }
    }
}

/// Something that the loop of an allocation waits for.
#[derive(Debug)]
pub enum ProxyInput<P> {
    /// A player connected, and the game server was told.
    PlayerConnected { player_id: String, player: P },
    /// A player could not be connected.
    PlayerFailed,
    /// The game server sent a message.
    Message(ClientMessage),
    /// The connection of a player tells something.
    Player(PlayerEvent),
    /// The connection to the game server is closed.
    ServerClosed,
    /// There is nothing left to wait for.
    NothingLeft,
}

/// What the loop of an allocation does next.
#[derive(Debug)]
pub enum ProxyAction<P> {
    /// Go on.
    Continue,
    /// Count, drop the connection that was replaced, if one was, and go on.
    Count(MetricsUpdate, Option<P>),
    /// Listen for players, answer the game server, and go on.
    Allocate { project_id: String },
    /// Break off the connection of a player and go on.
    Abort(P),
    /// Tell the management of the proxy, and end.
    Stop(ProxyEvent),
}

/// What the loop of an allocation does with a stream in one direction from the game server.
#[derive(Debug)]
pub enum UniAction<'a, P> {
    /// Open a stream to the player and copy the rest there.
    Relay(&'a P),
    /// Read no more than `length` bytes, which are an asset.
    ReceiveAsset { key: String, length: u32, compression: String },
}

impl<E, P, N: Clone> ProxyServer<E, P, N> {
    /// The tables of players and assets are well formed.
    pub closed spec fn well_formed(&self) -> bool {
        self.player_conns.well_formed() && self.asset_store.well_formed()
    }

    /// There are finitely many players and assets.
    pub proof fn lemma_finite(&self)
        requires
            self.well_formed(),
        ensures
            self@.players.dom().finite(),
            self@.assets.dom().finite(),
    {
        self.player_conns.lemma_finite();
        self.asset_store.lemma_finite();
    }

    /// An allocation without an endpoint, players and assets.
    pub fn new(
        id: u128,
        public_host_name: String,
        http_public_addr: String,
        ports: RangeInclusive<u16>,
    ) -> (res: Self)
        requires
            !ports@.exhausted,
        ensures
            res.well_formed(),
            res@ == (ProxyView::<E, P, N> {
                id,
                proxy_endpoint: None,
                allocated_endpoint: Seq::empty(),
                public_host_name: public_host_name@,
                http_public_addr: http_public_addr@,
                ports: (ports@.start, ports@.end),
                players: Map::empty(),
                assets: Map::empty(),
            }),
    {
        ProxyServer {
            id,
            proxy_endpoint: None,
            allocated_endpoint: String::new(),
            public_host_name,
            http_public_addr,
            ports: ports.into_inner(),
            player_conns: Table::new(),
            asset_store: AssetStore::new(),
        }
    }

    /// The id of the allocation.
    pub fn id(&self) -> (res: u128)
        ensures
            res == self@.id,
    {
        self.id
    }

    /// The endpoint on which players connect, if the game server asked for one.
    pub fn accept_connection(&self) -> (res: Option<&E>)
        ensures
            match res {
                Some(endpoint) => self@.proxy_endpoint == Some(*endpoint),
                None => self@.proxy_endpoint is None,
            },
    {
        match &self.proxy_endpoint {
            Some(endpoint) => Some(endpoint),
            None => None,
        }
    }

    /// Tests whether there are ports on which players may connect, no more than can be counted in
    /// sixteen bits.
    pub fn has_ports(&self) -> (res: bool)
        ensures
            res == ports::is_port_range(self@.ports.0, self@.ports.1),
    {
        ports::check_port_range(self.ports.0, self.ports.1)
    }

    /// The ports on which to try to listen for players, one after the other, for a game server that
    /// asks for an endpoint. They are ports of the allocation, and the same for the same seed.
    pub fn ports_to_try(&self, seed: DefaultHasher) -> (res: Result<Vec<u16>, Error>)
        requires
            ports::is_port_range(self@.ports.0, self@.ports.1),
        ensures
            match res {
                Ok(tried) => {
                    &&& self@.proxy_endpoint is None
                    &&& tried@.len() == ports::BIND_ATTEMPTS
                    &&& forall|i: int|
                        0 <= i < ports::BIND_ATTEMPTS ==> #[trigger] tried@[i] as int
                            == ports::candidate(self@.ports.0, self@.ports.1, seed@, i as nat)
                    &&& forall|i: int|
                        0 <= i < ports::BIND_ATTEMPTS ==> self@.ports.0 <= #[trigger] tried@[i]
                            <= self@.ports.1
                },
                Err(error) => {
                    &&& self@.proxy_endpoint is Some
                    &&& error == Error::EndpointAlreadyAllocated
                },
            },
    {
        if self.proxy_endpoint.is_some() {
            return Err(Error::EndpointAlreadyAllocated);
        }
        let (first, last) = self.ports;
        let tried = ports::candidate_ports(first, last, seed);
        proof {
            assert forall|i: int| 0 <= i < ports::BIND_ATTEMPTS implies first
                <= #[trigger] tried@[i] <= last by {
                ports::law_candidates_in_range(first, last, seed@, i as nat);
            }
        }
        Ok(tried)
    }

    /// Answers a game server that asks for an endpoint, by what came of the attempt to listen on
    /// one of the ports to try. The ports of the allocation stay what they are. There is an endpoint
    /// once at most; the assets are served under the id of the allocation.
    pub fn handle_allocate_message(
        &mut self,
        bound: Bound<E>,
        external_endpoint: SocketAddress,
    ) -> (res: Result<ServerMessage, Error>)
        requires
            old(self).well_formed(),
        ensures
            final(self).well_formed(),
            final(self)@ == after_allocate(old(self)@, bound),
            final(self)@.ports == old(self)@.ports,
            match (res, allocate_answer(old(self)@, bound, external_endpoint@)) {
                (Ok(sent), AllocateAnswer::Message(message)) => sent@ == message,
                (Err(error), AllocateAnswer::Refused(reason)) => error == reason,
                _ => false,
            },
            ids::text_id(ids::id_text(old(self)@.id)) == Some(old(self)@.id as nat),
    {
        proof {
            ids::law_id_text_round_trip(self.id);
        }
        if self.proxy_endpoint.is_some() {
            return Err(Error::EndpointAlreadyAllocated);
        }
        match bound {
            Bound::Failed => Err(Error::NoProxyEndpoint),
            Bound::Endpoint(endpoint, local_port) => {
                self.proxy_endpoint = Some(endpoint);
                match local_port {
                    None => Err(Error::NoLocalAddress),
                    Some(port) => {
                        let allocated_endpoint = text::host_port_text(
                            self.public_host_name.as_str(),
                            port,
                        );
                        self.allocated_endpoint = allocated_endpoint.clone();
                        let mut root = String::new();
                        root.append("http://");
                        root.append(self.http_public_addr.as_str());
                        root.append("/content/");
                        root.append(ids::allocation_id_text(self.id).as_str());
                        root.append("/");
                        assert(root@ =~= assets_root(self.http_public_addr@, self.id));
                        Ok(
                            ServerMessage::Allocation {
                                id: self.id,
                                allocated_endpoint,
                                assets_root: root,
                                external_endpoint,
                            },
                        )
                    },
                }
            },
        }
    }

    /// The connection of a player, if the player is connected.
    pub fn get_player_connection(&self, player_id: &str) -> (res: Option<&P>)
        requires
            self.well_formed(),
        ensures
            match res {
                Some(player) => self@.players.contains_key(player_id@) && *player
                    == self@.players[player_id@],
                None => !self@.players.contains_key(player_id@),
            },
    {
        self.player_conns.get(player_id)
    }

    /// The number of players that are connected.
    pub fn players_count(&self) -> (res: usize)
        requires
            self.well_formed(),
        ensures
            res == self@.players.len(),
    {
        self.player_conns.len()
    }

    /// Decides what the loop of the allocation does about what it waited for.
    pub fn step(&mut self, input: ProxyInput<P>) -> (res: ProxyAction<P>)
        requires
            old(self).well_formed(),
        ensures
            final(self).well_formed(),
            match input {
                ProxyInput::PlayerConnected { player_id, player } => {
                    &&& final(self)@ == after_connect(old(self)@, player_id@, player)
                    &&& match res {
                        ProxyAction::Count(update, replaced) => update
                            == MetricsUpdate::IncConnections(ConnectionRole::Client) && match replaced {
                            Some(before) => old(self)@.players.contains_key(player_id@) && before
                                == old(self)@.players[player_id@],
                            None => !old(self)@.players.contains_key(player_id@),
                        },
                        _ => false,
                    }
                },
                ProxyInput::PlayerFailed => res is Continue && final(self)@ == old(self)@,
                ProxyInput::Message(message) => {
                    &&& final(self)@ == old(self)@
                    &&& match (message, res) {
                        (
                            ClientMessage::AllocateEndpoint { project_id },
                            ProxyAction::Allocate { project_id: asked },
                        ) => asked == project_id,
                        _ => false,
                    }
                },
                ProxyInput::Player(PlayerEvent::Disconnected { player_id }) => {
                    &&& final(self)@ == after_disconnect(old(self)@, player_id@)
                    &&& match res {
                        ProxyAction::Abort(player) => old(self)@.players.contains_key(player_id@)
                            && player == old(self)@.players[player_id@],
                        ProxyAction::Continue => !old(self)@.players.contains_key(player_id@),
                        _ => false,
                    }
                },
                ProxyInput::ServerClosed | ProxyInput::NothingLeft => {
                    &&& final(self)@ == old(self)@
                    &&& res == ProxyAction::<P>::Stop(ProxyEvent::Stopped { id: old(self)@.id })
                },
            },
    {
        match input {
            ProxyInput::PlayerConnected { player_id, player } => {
                let replaced = self.player_conns.insert(player_id, player);
                ProxyAction::Count(MetricsUpdate::IncConnections(ConnectionRole::Client), replaced)
            },
            ProxyInput::PlayerFailed => ProxyAction::Continue,
            ProxyInput::Message(ClientMessage::AllocateEndpoint { project_id }) =>
                ProxyAction::Allocate { project_id },
            ProxyInput::Player(PlayerEvent::Disconnected { player_id }) => {
                match self.player_conns.remove(player_id.as_str()) {
                    Some(player) => ProxyAction::Abort(player),
                    None => ProxyAction::Continue,
                }
            },
            ProxyInput::ServerClosed | ProxyInput::NothingLeft => ProxyAction::Stop(
                ProxyEvent::Stopped { id: self.id },
            ),
        }
    }

    /// Decides what to do with a stream in one direction from the game server, by its header.
    pub fn handle_uni(&self, header: ClientStreamHeader) -> (res: Result<UniAction<'_, P>, Error>)
        requires
            self.well_formed(),
        ensures
            match header@ {
                ClientStreamHeaderView::OpenPlayerStream { player_id } => match res {
                    Ok(UniAction::Relay(player)) => self@.players.contains_key(player_id)
                        && *player == self@.players[player_id],
                    Err(Error::UnknownPlayer(unknown)) => !self@.players.contains_key(player_id)
                        && unknown@ == player_id,
                    _ => false,
                },
                ClientStreamHeaderView::StoreAsset { key, length, compression } => match res {
                    Ok(UniAction::ReceiveAsset { key: k, length: l, compression: c }) => {
                        &&& assets::supported(compression)
                        &&& length <= assets::ASSET_SIZE_LIMIT
                        &&& k@ == key
                        &&& l == length
                        &&& c@ == compression
                    },
                    Err(Error::UnsupportedCompression(name)) => !assets::supported(compression)
                        && name@ == compression,
                    Err(Error::AssetTooLarge(size)) => assets::supported(compression) && size
                        == length && length > assets::ASSET_SIZE_LIMIT,
                    _ => false,
                },
            },
    {
        match header {
            ClientStreamHeader::OpenPlayerStream { player_id } => {
                match self.get_player_connection(player_id.as_str()) {
                    Some(player) => Ok(UniAction::Relay(player)),
                    None => Err(Error::UnknownPlayer(player_id)),
                }
            },
            ClientStreamHeader::StoreAsset { key, length, compression } => {
                match assets::check_asset(length, compression.clone()) {
                    Ok(_) => Ok(UniAction::ReceiveAsset { key, length, compression }),
                    Err(error) => Err(error),
                }
            },
        }
    }

    /// Keeps an asset that was received. Everyone who waits on the returned notifier is to be
    /// woken.
    pub fn store_asset(&mut self, key: &str, asset: PackedAsset, fresh: N) -> (res: Result<
        N,
        Error,
    >)
        requires
            old(self).well_formed(),
        ensures
            final(self).well_formed(),
            match (res, assets::unpacked(asset@)) {
                (Ok(notify), Some(data)) => {
                    &&& final(self)@ == (ProxyView {
                        assets: asset_store::after_store(old(self)@.assets, key@, data, fresh),
                        ..old(self)@
                    })
                    &&& cloned(
                        asset_store::asset_of(old(self)@.assets, key@, fresh).notify,
                        notify,
                    )
                },
                (Err(error), None) => {
                    &&& error == Error::DecompressionFailed
                    &&& final(self)@ == old(self)@
                },
                _ => false,
            },
    {
        let data = assets::unpack(asset)?;
        Ok(self.asset_store.store(key, data, fresh))
    }

    /// Decides what to do with a stream in both directions from the game server, by its header.
    pub fn handle_bi(&self, header: ClientStreamHeader) -> (res: Result<&P, Error>)
        requires
            self.well_formed(),
        ensures
            match header@ {
                ClientStreamHeaderView::OpenPlayerStream { player_id } => match res {
                    Ok(player) => self@.players.contains_key(player_id) && *player
                        == self@.players[player_id],
                    Err(Error::UnknownPlayer(unknown)) => !self@.players.contains_key(player_id)
                        && unknown@ == player_id,
                    Err(_) => false,
                },
                ClientStreamHeaderView::StoreAsset { .. } => res == Err::<&P, Error>(
                    Error::UnexpectedHeader,
                ),
            },
    {
        match header {
            ClientStreamHeader::OpenPlayerStream { player_id } => {
                match self.get_player_connection(player_id.as_str()) {
                    Some(player) => Ok(player),
                    None => Err(Error::UnknownPlayer(player_id)),
                }
            },
            ClientStreamHeader::StoreAsset { .. } => Err(Error::UnexpectedHeader),
        }
    }

    /// Decides to whom a datagram from the game server goes, and what of it.
    pub fn handle_datagram(&self, datagram: ::bytes::Bytes) -> (res: Result<
        (&P, ::bytes::Bytes),
        Error,
    >)
        requires
            self.well_formed(),
            crate::bytes::has_prefix(crate::bytes::contents(datagram)),
        ensures
            ({
                let bytes = crate::bytes::contents(datagram);
                match (res, datagram_player(bytes)) {
                    (Ok((player, data)), Some(player_id)) => {
                        &&& self@.players.contains_key(player_id)
                        &&& *player == self@.players[player_id]
                        &&& crate::bytes::contents(data) == datagram_data(bytes)
                    },
                    (Err(Error::UnknownPlayer(unknown)), Some(player_id)) => {
                        &&& !self@.players.contains_key(player_id)
                        &&& unknown@ == player_id
                    },
                    (Err(error), None) => error == Error::BadMsgFormat,
                    _ => false,
                }
            }),
    {
        let (info, data) = crate::bytes::drop_prefix::<DatagramInfo>(datagram)?;
        match self.get_player_connection(info.player_id.as_str()) {
            Some(player) => Ok((player, data)),
            None => Err(Error::UnknownPlayer(info.player_id)),
        }
    }

    /// Looks for an asset on behalf of a request.
    pub fn get_asset(&mut self, request: &mut AssetRequest, in_time: bool, fresh: N) -> (res:
        AssetStep<N>)
        requires
            old(self).well_formed(),
        ensures
            final(self).well_formed(),
            ({
                let key = old(request)@.asset_id;
                let asset = asset_store::asset_of(old(self)@.assets, key, fresh);
                let look = asset_store::Look { in_time, found: asset.data is Some };
                &&& final(request)@ == asset_store::after_look(old(request)@, look)
                &&& final(self)@ == (ProxyView {
                    assets: if in_time {
                        asset_store::after_lookup(old(self)@.assets, key, fresh)
                    } else {
                        old(self)@.assets
                    },
                    ..old(self)@
                })
                &&& asset_store::is_step(res, old(request)@, look, asset)
            }),
    {
        request.step(&mut self.asset_store, in_time, fresh)
    }

    /// The number of bytes of all assets that arrived, if it fits.
    pub fn checked_total_assets_size(&self) -> (res: Option<usize>)
        requires
            self.well_formed(),
        ensures
            match res {
                Some(size) => size == asset_store::total_size(self@.assets),
                None => asset_store::total_size(self@.assets) > usize::MAX,
            },
    {
        self.asset_store.checked_total_size()
    }

    /// The number of bytes of all assets that arrived.
    pub fn total_assets_size(&self) -> (res: usize)
        requires
            self.well_formed(),
            asset_store::total_size(self@.assets) <= usize::MAX,
        ensures
            res == asset_store::total_size(self@.assets),
    {
        self.asset_store.total_assets_size()
    }

    /// What the proxy reports of the allocation.
    pub fn stats(&self) -> (res: ProxyStats)
        requires
            self.well_formed(),
            asset_store::total_size(self@.assets) <= usize::MAX,
        ensures
            res.allocated_endpoint@ == self@.allocated_endpoint,
            res.total_assets_size == asset_store::total_size(self@.assets),
            res.total_assets_count == asset_store::held(self@.assets),
            res.players_count == self@.players.len(),
    {
        ProxyStats {
            allocated_endpoint: self.allocated_endpoint.clone(),
            total_assets_size: self.total_assets_size(),
            total_assets_count: self.asset_store.held_count(),
            players_count: self.players_count(),
        }
    }
}

/// The player that a datagram names, where it names one.
pub open spec fn datagram_player(datagram: Seq<u8>) -> Option<Seq<char>> {
    DatagramInfo::unwire(datagram.subrange(4, 4 + crate::bytes::prefix_len(datagram) as int))
}

/// What a datagram carries behind the name of the player.
pub open spec fn datagram_data(datagram: Seq<u8>) -> Seq<u8> {
    datagram.skip(4 + crate::bytes::prefix_len(datagram) as int)
}

/// The state of an allocation after a player connected.
pub open spec fn after_connect<E, P, N>(
    state: ProxyView<E, P, N>,
    player_id: Seq<char>,
    player: P,
) -> ProxyView<E, P, N> {
    ProxyView { players: state.players.insert(player_id, player), ..state }
}

/// The state of an allocation after a player left.
pub open spec fn after_disconnect<E, P, N>(
    state: ProxyView<E, P, N>,
    player_id: Seq<char>,
) -> ProxyView<E, P, N> {
    ProxyView { players: state.players.remove(player_id), ..state }
}

/// Once there is an endpoint, every later request for one is refused and changes nothing.
pub proof fn law_allocated_once<E, P, N>(
    state: ProxyView<E, P, N>,
    bound: Bound<E>,
    again: Bound<E>,
    external_endpoint: SocketAddressView,
)
    requires
        bound is Endpoint,
    ensures
        ({
            let after = after_allocate(state, bound);
            &&& after.proxy_endpoint is Some
            &&& after_allocate(after, again) == after
            &&& allocate_answer(after, again, external_endpoint) == AllocateAnswer::Refused(
                Error::EndpointAlreadyAllocated,
            )
        }),
{
}

/// A datagram that the game server addresses to a connected player goes to that player's
/// connection, and carries what the game server sent.
pub proof fn law_datagram_reaches_player<E, P, N>(
    state: ProxyView<E, P, N>,
    player_id: Seq<char>,
    player: P,
    data: Seq<u8>,
)
    requires
        DatagramInfo::fits(player_id),
        DatagramInfo::wire(player_id).len() < 0x1_0000_0000,
    ensures
        ({
            let datagram = crate::bytes::prefixed(DatagramInfo::wire(player_id), data);
            let connected = after_connect(state, player_id, player);
            &&& crate::bytes::has_prefix(datagram)
            &&& datagram_player(datagram) == Some(player_id)
            &&& datagram_data(datagram) == data
            &&& connected.players.contains_key(player_id)
            &&& connected.players[player_id] == player
            &&& !after_disconnect(connected, player_id).players.contains_key(player_id)
        }),
{
    crate::bytes::law_prefix_round_trip::<DatagramInfo>(player_id, data);
}

/// A player who comes and goes leaves the allocation as it was.
pub proof fn law_player_comes_and_goes<E, P, N>(
    state: ProxyView<E, P, N>,
    player_id: Seq<char>,
    player: P,
)
    requires
        !state.players.contains_key(player_id),
    ensures
        after_disconnect(after_connect(state, player_id, player), player_id) == state,
{
    assert(state.players.insert(player_id, player).remove(player_id) =~= state.players);
}

/// An asset that a game server packed and sent is what every later request for its key gets, until
/// another asset is stored under that key.
pub proof fn law_sent_asset_is_served<N>(
    assets: Map<Seq<char>, AssetView<N>>,
    key: Seq<char>,
    data: Seq<u8>,
    sent: assets::PackedView,
    fresh: N,
)
    requires
        assets::packed(data) == Some(sent),
        assets::unpacked(sent) == Some(data),
        sent.data.len() <= assets::ASSET_SIZE_LIMIT,
        ClientStreamHeader::fits(assets::store_header(key, sent)),
        ClientStreamHeader::wire(assets::store_header(key, sent)).len()
            <= streams::HEADER_SIZE_LIMIT,
    ensures
        ({
            let stream = streams::frame(
                ClientStreamHeader::wire(assets::store_header(key, sent)),
            ) + sent.data;
            let len = numbers::be_value(stream.take(4));
            match ClientStreamHeader::unwire(stream.subrange(4, 4 + len as int)) {
                Some(ClientStreamHeaderView::StoreAsset { key: named, length, compression }) => {
                    let received = stream.skip(4 + len as int);
                    let arrived = assets::PackedView { data: received, compression };
                    &&& received.len() == length
                    &&& length <= assets::ASSET_SIZE_LIMIT
                    &&& assets::supported(compression)
                    &&& match assets::unpacked(arrived) {
                        Some(unpacked) => forall|later: N| #[trigger]
                            asset_store::asset_of(
                                asset_store::after_store(assets, named, unpacked, fresh),
                                key,
                                later,
                            ).data == Some(data),
                        None => false,
                    }
                },
                _ => false,
            }
        }),
{
    assets::law_asset_arrives(key, data, sent);
    asset_store::law_stored_asset_is_found(assets, key, data, fresh);
}

/// A player who connected is reached, by streams of either kind, until the player is gone; then the
/// player is unknown. Neither concerns another player.
pub proof fn law_connected_player_is_reached<E, P, N: Clone>(
    connecting: &mut ProxyServer<E, P, N>,
    player_id: String,
    player: P,
    connected: ProxyAction<P>,
    name: &str,
    found: Option<&P>,
    one_way: Result<UniAction<P>, Error>,
    both_ways: Result<&P, Error>,
    leaving: &mut ProxyServer<E, P, N>,
    left: ProxyAction<P>,
    gone: Option<&P>,
    no_stream: Result<&P, Error>,
    leaving_again: &mut ProxyServer<E, P, N>,
    left_again: ProxyAction<P>,
    other: &str,
    others: (Option<&P>, Option<&P>, Option<&P>),
)
    requires
        call_ensures(
            ProxyServer::<E, P, N>::step,
            (connecting, ProxyInput::PlayerConnected { player_id, player }),
            connected,
        ),
        name@ == player_id@,
        call_ensures(
            ProxyServer::<E, P, N>::get_player_connection,
            (&*final(connecting), name),
            found,
        ),
        call_ensures(
            ProxyServer::<E, P, N>::handle_uni,
            (&*final(connecting), ClientStreamHeader::OpenPlayerStream { player_id }),
            one_way,
        ),
        call_ensures(
            ProxyServer::<E, P, N>::handle_bi,
            (&*final(connecting), ClientStreamHeader::OpenPlayerStream { player_id }),
            both_ways,
        ),
        *old(leaving) == *final(connecting),
        call_ensures(
            ProxyServer::<E, P, N>::step,
            (leaving, ProxyInput::<P>::Player(PlayerEvent::Disconnected { player_id })),
            left,
        ),
        call_ensures(
            ProxyServer::<E, P, N>::get_player_connection,
            (&*final(leaving), name),
            gone,
        ),
        call_ensures(
            ProxyServer::<E, P, N>::handle_bi,
            (&*final(leaving), ClientStreamHeader::OpenPlayerStream { player_id }),
            no_stream,
        ),
        *old(leaving_again) == *final(leaving),
        call_ensures(
            ProxyServer::<E, P, N>::step,
            (leaving_again, ProxyInput::<P>::Player(PlayerEvent::Disconnected { player_id })),
            left_again,
        ),
        other@ != name@,
        call_ensures(
            ProxyServer::<E, P, N>::get_player_connection,
            (&*old(connecting), other),
            others.0,
        ),
        call_ensures(
            ProxyServer::<E, P, N>::get_player_connection,
            (&*final(connecting), other),
            others.1,
        ),
        call_ensures(
            ProxyServer::<E, P, N>::get_player_connection,
            (&*final(leaving), other),
            others.2,
        ),
    ensures
        connected matches ProxyAction::Count(update, _) && update == MetricsUpdate::IncConnections(
            ConnectionRole::Client,
        ),
        found == Some(&player),
        one_way matches Ok(UniAction::Relay(relayed)) && *relayed == player,
        both_ways matches Ok(relayed) && *relayed == player,
        left matches ProxyAction::Abort(aborted) && aborted == player,
        gone is None,
        no_stream matches Err(Error::UnknownPlayer(unknown)) && unknown@ == player_id@,
        left_again is Continue,
        final(leaving_again)@ == old(leaving_again)@,
        others.0 == others.1,
        others.1 == others.2,
{
    assert(final(leaving_again)@.players =~= old(leaving_again)@.players);
}

/// The players who are connected are counted: a new player is one more, one who connects again is
/// none, and one who leaves is one fewer.
pub proof fn law_players_are_counted<E, P, N: Clone>(
    connecting: &mut ProxyServer<E, P, N>,
    player_id: String,
    player: P,
    connected: ProxyAction<P>,
    name: &str,
    known: Option<&P>,
    leaving: &mut ProxyServer<E, P, N>,
    left: ProxyAction<P>,
    counts: (usize, usize, usize),
)
    requires
        old(connecting).well_formed(),
        call_ensures(
            ProxyServer::<E, P, N>::step,
            (connecting, ProxyInput::PlayerConnected { player_id, player }),
            connected,
        ),
        name@ == player_id@,
        call_ensures(
            ProxyServer::<E, P, N>::get_player_connection,
            (&*old(connecting), name),
            known,
        ),
        *old(leaving) == *final(connecting),
        call_ensures(
            ProxyServer::<E, P, N>::step,
            (leaving, ProxyInput::<P>::Player(PlayerEvent::Disconnected { player_id })),
            left,
        ),
        call_ensures(ProxyServer::<E, P, N>::players_count, (&*old(connecting),), counts.0),
        call_ensures(ProxyServer::<E, P, N>::players_count, (&*final(connecting),), counts.1),
        call_ensures(ProxyServer::<E, P, N>::players_count, (&*final(leaving),), counts.2),
    ensures
        counts.1 == counts.0 + if known is Some {
            0int
        } else {
            1int
        },
        counts.2 == counts.1 - 1,
        match connected {
            ProxyAction::Count(_, replaced) => match (known, replaced) {
                (Some(before), Some(dropped)) => dropped == *before,
                (None, None) => true,
                _ => false,
            },
            _ => false,
        },
{
    old(connecting).lemma_finite();
    let players = old(connecting)@.players;
    assert(final(connecting)@.players.dom() =~= players.dom().insert(player_id@));
    assert(final(leaving)@.players.dom() =~= final(connecting)@.players.dom().remove(player_id@));
}

/// The loop of an allocation goes on until the game server is gone: a request for an endpoint is
/// answered in the name of its project, a player who could not be connected changes nothing, and at
/// the end the management is told which allocation stopped.
pub proof fn law_allocation_goes_on<E, P, N: Clone>(
    id: u128,
    proxy: &mut ProxyServer<E, P, N>,
    input: ProxyInput<P>,
    action: ProxyAction<P>,
)
    requires
        call_ensures(ProxyServer::<E, P, N>::id, (&*old(proxy),), id),
        call_ensures(ProxyServer::<E, P, N>::step, (proxy, input), action),
    ensures
        action is Stop <==> input is ServerClosed || input is NothingLeft,
        action matches ProxyAction::Stop(event) ==> event == (ProxyEvent::Stopped { id }),
        input matches ProxyInput::Message(ClientMessage::AllocateEndpoint { project_id }) ==> (
        action matches ProxyAction::Allocate { project_id: asked } && asked@ == project_id@),
        input is PlayerFailed ==> action is Continue,
        !(input is PlayerConnected) && !(input is Player) ==> final(proxy)@ == old(proxy)@,
        final(proxy)@ == (ProxyView { players: final(proxy)@.players, ..old(proxy)@ }),
{
}

/// The state is that of an allocation that was made in this way: it has its id, its host, its address
/// and its ports.
pub open spec fn made_alike<E, P, N>(state: ProxyView<E, P, N>, made: ProxyView<E, P, N>) -> bool {
    &&& state.id == made.id
    &&& state.public_host_name == made.public_host_name
    &&& state.http_public_addr == made.http_public_addr
    &&& state.ports == made.ports
}

/// A game server that asks for an endpoint is told the host and the port on which the players are
/// listened for, the place of its assets, which names the allocation, and the address that it was
/// given. The endpoint is the one on which players are accepted, and the one that is reported. Every
/// later request is refused and changes nothing. This holds in every state of an allocation without an
/// endpoint.
pub proof fn law_allocated_endpoint_is_told<E, P, N: Clone>(
    id: u128,
    host: String,
    http_address: String,
    ports: RangeInclusive<u16>,
    fresh: ProxyServer<E, P, N>,
    nobody: Option<&E>,
    asking: &mut ProxyServer<E, P, N>,
    not_yet: Option<&E>,
    endpoint: E,
    port: u16,
    external_endpoint: SocketAddress,
    answer: Result<ServerMessage, Error>,
    accepting: Option<&E>,
    stats: ProxyStats,
    id_text: String,
    again: &mut ProxyServer<E, P, N>,
    bound: Bound<E>,
    refused: Result<ServerMessage, Error>,
)
    requires
        call_ensures(ProxyServer::<E, P, N>::new, (id, host, http_address, ports), fresh),
        call_ensures(ProxyServer::<E, P, N>::accept_connection, (&fresh,), nobody),
        made_alike(old(asking)@, fresh@),
        call_ensures(ProxyServer::<E, P, N>::accept_connection, (&*old(asking),), not_yet),
        not_yet is None,
        call_ensures(
            ProxyServer::<E, P, N>::handle_allocate_message,
            (asking, Bound::Endpoint(endpoint, Some(port)), external_endpoint),
            answer,
        ),
        call_ensures(ProxyServer::<E, P, N>::accept_connection, (&*final(asking),), accepting),
        call_ensures(ProxyServer::<E, P, N>::stats, (&*final(asking),), stats),
        call_ensures(ids::allocation_id_text, (id,), id_text),
        *old(again) == *final(asking),
        call_ensures(
            ProxyServer::<E, P, N>::handle_allocate_message,
            (again, bound, external_endpoint),
            refused,
        ),
    ensures
        nobody is None,
        accepting == Some(&endpoint),
        match answer {
            Ok(
                ServerMessage::Allocation {
                    id: told,
                    allocated_endpoint,
                    assets_root,
                    external_endpoint: external,
                },
            ) => {
                &&& told == id
                &&& text::is_address_of(allocated_endpoint@, host@, port)
                &&& stats.allocated_endpoint@ == allocated_endpoint@
                &&& assets_root@ == "http://"@ + http_address@ + "/content/"@ + id_text@ + "/"@
                &&& external@ == external_endpoint@
            },
            _ => false,
        },
        made_alike(final(asking)@, fresh@),
        final(asking)@.players == old(asking)@.players,
        final(asking)@.assets == old(asking)@.assets,
        refused == Err::<ServerMessage, Error>(Error::EndpointAlreadyAllocated),
        final(again)@ == old(again)@,
{
    text::lemma_address(host@, port);
}

/// The ports that are tried are those that are selected from the range that the allocation was made
/// with, while it has no endpoint.
pub proof fn law_ports_of_allocation_are_tried<E, P, N: Clone>(
    id: u128,
    host: String,
    http_address: String,
    ports: RangeInclusive<u16>,
    fresh: ProxyServer<E, P, N>,
    proxy: ProxyServer<E, P, N>,
    nobody: Option<&E>,
    seed: DefaultHasher,
    tried: Result<Vec<u16>, Error>,
    selected: Vec<u16>,
    usable: bool,
    has_ports: bool,
)
    requires
        call_ensures(ProxyServer::<E, P, N>::new, (id, host, http_address, ports), fresh),
        made_alike(proxy@, fresh@),
        call_ensures(ProxyServer::<E, P, N>::accept_connection, (&proxy,), nobody),
        nobody is None,
        call_ensures(ProxyServer::<E, P, N>::ports_to_try, (&proxy, seed), tried),
        call_ensures(
            ports::candidate_ports,
            (ports@.start, ports@.end, seed),
            selected,
        ),
        call_ensures(ports::check_port_range, (ports@.start, ports@.end), usable),
        call_ensures(ProxyServer::<E, P, N>::has_ports, (&proxy,), has_ports),
    ensures
        tried matches Ok(tried) && tried@ == selected@,
        has_ports == usable,
{
    if let Ok(tried) = tried {
        assert(tried@ =~= selected@);
    }
}

/// Where no port could be bound the game server is told so, and may ask again; where the port that was
/// bound is not known, it is told that.
pub proof fn law_no_endpoint_is_told<E, P, N: Clone>(
    failing: &mut ProxyServer<E, P, N>,
    nobody: Option<&E>,
    external_endpoint: SocketAddress,
    failed: Result<ServerMessage, Error>,
    unknown: &mut ProxyServer<E, P, N>,
    endpoint: E,
    not_known: Result<ServerMessage, Error>,
    seed: DefaultHasher,
    tried: Result<Vec<u16>, Error>,
)
    requires
        call_ensures(ProxyServer::<E, P, N>::accept_connection, (&*old(failing),), nobody),
        nobody is None,
        call_ensures(
            ProxyServer::<E, P, N>::handle_allocate_message,
            (failing, Bound::Failed, external_endpoint),
            failed,
        ),
        *old(unknown) == *final(failing),
        call_ensures(
            ProxyServer::<E, P, N>::handle_allocate_message,
            (unknown, Bound::Endpoint(endpoint, None), external_endpoint),
            not_known,
        ),
        call_ensures(ProxyServer::<E, P, N>::ports_to_try, (&*final(unknown), seed), tried),
    ensures
        failed == Err::<ServerMessage, Error>(Error::NoProxyEndpoint),
        final(failing)@ == old(failing)@,
        not_known == Err::<ServerMessage, Error>(Error::NoLocalAddress),
        tried == Err::<Vec<u16>, Error>(Error::EndpointAlreadyAllocated),
{
}

/// An asset that arrived is served: once it is stored, a request for its key that comes in time gets
/// it at once, unpacked, the first look of a new request too, and the game server is not asked. What
/// cannot be unpacked is refused and changes nothing.
pub proof fn law_arrived_asset_is_served<E, P, N: Clone>(
    storing: &mut ProxyServer<E, P, N>,
    key: &str,
    asset: PackedAsset,
    fresh: N,
    stored: Result<N, Error>,
    unpacked: Result<Vec<u8>, Error>,
    asset_id: String,
    made: AssetRequest,
    request: &mut AssetRequest,
    serving: &mut ProxyServer<E, P, N>,
    later: N,
    step: AssetStep<N>,
)
    requires
        call_ensures(ProxyServer::<E, P, N>::store_asset, (storing, key, asset, fresh), stored),
        call_ensures(assets::unpack, (asset,), unpacked),
        asset_id@ == key@,
        call_ensures(AssetRequest::new, (asset_id,), made),
        old(request)@.asset_id == made@.asset_id,
        *old(serving) == *final(storing),
        call_ensures(ProxyServer::<E, P, N>::get_asset, (serving, request, true, later), step),
    ensures
        match unpacked {
            Ok(data) => {
                &&& stored is Ok
                &&& step matches AssetStep::Found(found) && crate::bytes::contents(found) == data@
            },
            Err(error) => {
                &&& stored == Err::<N, Error>(Error::DecompressionFailed)
                &&& final(storing)@ == old(storing)@
            },
        },
        final(storing)@ == (ProxyView { assets: final(storing)@.assets, ..old(storing)@ }),
        final(serving)@ == (ProxyView { assets: final(serving)@.assets, ..old(serving)@ }),
{
}

/// A request is served by an allocation as it is by the assets of that allocation: an asset that is
/// not there is asked for at the first look in time and not again, a look that comes too late says
/// which asset did not come, and who waits is woken when the asset is stored.
pub proof fn law_missing_asset_is_waited_for<E, P, N: Clone>(
    asset_id: String,
    made: AssetRequest,
    first: &mut AssetRequest,
    first_proxy: &mut ProxyServer<E, P, N>,
    fresh: N,
    first_step: AssetStep<N>,
    next: &mut AssetRequest,
    next_proxy: &mut ProxyServer<E, P, N>,
    next_fresh: N,
    next_step: AssetStep<N>,
    late: &mut AssetRequest,
    late_proxy: &mut ProxyServer<E, P, N>,
    late_step: AssetStep<N>,
    storing: &mut ProxyServer<E, P, N>,
    key: &str,
    asset: PackedAsset,
    woken: N,
)
    requires
        call_ensures(AssetRequest::new, (asset_id,), made),
        *old(first) == made,
        call_ensures(
            ProxyServer::<E, P, N>::get_asset,
            (first_proxy, first, true, fresh),
            first_step,
        ),
        *old(next) == *final(first),
        *old(next_proxy) == *final(first_proxy),
        call_ensures(
            ProxyServer::<E, P, N>::get_asset,
            (next_proxy, next, true, next_fresh),
            next_step,
        ),
        *old(late) == *final(next),
        call_ensures(
            ProxyServer::<E, P, N>::get_asset,
            (late_proxy, late, false, next_fresh),
            late_step,
        ),
        key@ == asset_id@,
        *old(storing) == *final(next_proxy),
        call_ensures(
            ProxyServer::<E, P, N>::store_asset,
            (storing, key, asset, next_fresh),
            Ok(woken),
        ),
    ensures
        match first_step {
            AssetStep::Found(first) => next_step matches AssetStep::Found(again)
                && crate::bytes::contents(again) == crate::bytes::contents(first),
            AssetStep::Wait { message, notify } => {
                &&& message matches Some(ServerMessage::RequestAsset { key: asked }) && asked@
                    == asset_id@
                &&& next_step matches AssetStep::Wait { message: None, notify: _ }
                &&& exists|origin: N| #[trigger] cloned(origin, notify) && cloned(origin, woken)
            },
            AssetStep::TimedOut(_) => false,
        },
        late_step matches AssetStep::TimedOut(Error::AssetTimedOut(missing)) && missing@
            == asset_id@,
        final(late_proxy)@ == old(late_proxy)@,
{
    if let AssetStep::Wait { message, notify } = first_step {
        let origin = asset_store::asset_of(old(first_proxy)@.assets, asset_id@, fresh).notify;
        assert(cloned(origin, notify) && cloned(origin, woken));
    }
}

/// A report names the endpoint that was allocated, and counts the players who are connected and the
/// assets that arrived, with their bytes: an allocation starts with none, and storing an asset under a
/// key that held none makes one more, with so many bytes more.
pub proof fn law_report_counts<E, P, N: Clone>(
    id: u128,
    host: String,
    http_address: String,
    ports: RangeInclusive<u16>,
    fresh: ProxyServer<E, P, N>,
    at_first: ProxyStats,
    storing: &mut ProxyServer<E, P, N>,
    key: &str,
    asset: PackedAsset,
    notify: N,
    woken: N,
    data: Vec<u8>,
    asset_id: String,
    made: AssetRequest,
    request: &mut AssetRequest,
    looking: &mut ProxyServer<E, P, N>,
    step: AssetStep<N>,
    before: ProxyStats,
    after: ProxyStats,
    players: usize,
    size: usize,
    checked: Option<usize>,
)
    requires
        call_ensures(ProxyServer::<E, P, N>::new, (id, host, http_address, ports), fresh),
        call_ensures(ProxyServer::<E, P, N>::stats, (&fresh,), at_first),
        old(storing).well_formed(),
        call_ensures(
            ProxyServer::<E, P, N>::store_asset,
            (storing, key, asset, notify),
            Ok(woken),
        ),
        call_ensures(assets::unpack, (asset,), Ok(data)),
        asset_id@ == key@,
        call_ensures(AssetRequest::new, (asset_id,), made),
        *old(request) == made,
        *old(looking) == *old(storing),
        call_ensures(
            ProxyServer::<E, P, N>::get_asset,
            (looking, request, true, notify),
            step,
        ),
        call_ensures(ProxyServer::<E, P, N>::stats, (&*old(storing),), before),
        call_ensures(ProxyServer::<E, P, N>::stats, (&*final(storing),), after),
        call_ensures(ProxyServer::<E, P, N>::players_count, (&*final(storing),), players),
        call_ensures(ProxyServer::<E, P, N>::total_assets_size, (&*final(storing),), size),
        call_ensures(
            ProxyServer::<E, P, N>::checked_total_assets_size,
            (&*final(storing),),
            checked,
        ),
    ensures
        at_first.allocated_endpoint@.len() == 0,
        at_first.total_assets_size == 0,
        at_first.total_assets_count == 0,
        at_first.players_count == 0,
        after.allocated_endpoint@ == before.allocated_endpoint@,
        after.players_count == before.players_count,
        after.players_count == players,
        after.total_assets_size == size,
        checked == Some(size),
        match step {
            AssetStep::Found(replaced) => {
                &&& after.total_assets_count == before.total_assets_count
                &&& after.total_assets_size == before.total_assets_size + data@.len()
                    - crate::bytes::contents(replaced).len()
            },
            _ => {
                &&& after.total_assets_count == before.total_assets_count + 1
                &&& after.total_assets_size == before.total_assets_size + data@.len()
            },
        },
{
    let assets = old(storing)@.assets;
    old(storing).lemma_finite();
    asset_store::law_total_after_store(assets, key@, data@, notify);
    asset_store::lemma_nothing_held::<N>();
}

/// A stream on which an asset travels is received if the proxy takes such assets, and else refused for
/// the reason for which the proxy does not take it. It is never relayed to a player, and no asset
/// travels on a stream in both directions.
pub proof fn law_asset_stream_is_received<E, P, N: Clone>(
    proxy: ProxyServer<E, P, N>,
    key: String,
    length: u32,
    compression: String,
    checked: Result<(), Error>,
    res: Result<UniAction<P>, Error>,
    both_ways: Result<&P, Error>,
)
    requires
        call_ensures(assets::check_asset, (length, compression), checked),
        call_ensures(
            ProxyServer::<E, P, N>::handle_uni,
            (&proxy, ClientStreamHeader::StoreAsset { key, length, compression }),
            res,
        ),
        call_ensures(
            ProxyServer::<E, P, N>::handle_bi,
            (&proxy, ClientStreamHeader::StoreAsset { key, length, compression }),
            both_ways,
        ),
    ensures
        match (checked, res) {
            (
                Ok(_),
                Ok(UniAction::ReceiveAsset { key: k, length: l, compression: c }),
            ) => k@ == key@ && l == length && c@ == compression@,
            (
                Err(Error::UnsupportedCompression(name)),
                Err(Error::UnsupportedCompression(reason)),
            ) => reason@ == name@,
            (Err(Error::AssetTooLarge(size)), Err(Error::AssetTooLarge(reason))) => reason == size,
            _ => false,
        },
        both_ways == Err::<&P, Error>(Error::UnexpectedHeader),
{
}

/// What a game server stores is what players get. The message that stores an asset under a key is read
/// by the proxy, which takes the asset, as long as its header says, and serves it under that key: a
/// request that comes in time gets exactly the data that the game server stored. Only an asset that
/// cannot be compressed is not sent. The header has to be short enough to be read, and the packed
/// asset small enough to be taken.
#[verifier::spinoff_prover]
#[verifier::rlimit(30)]
pub proof fn law_stored_by_game_server_is_served<A, E, P, N: Clone>(
    controller: ClientController<A>,
    key: String,
    data: Vec<u8>,
    sent: Result<StoreAssetMessage, Error>,
    rest: Seq<u8>,
    received: &[u8],
    read: Result<streams::Framed<ClientStreamHeader>, Error>,
    header: ClientStreamHeader,
    storing: &mut ProxyServer<E, P, N>,
    action: Result<UniAction<P>, Error>,
    arrived: PackedAsset,
    name: &str,
    fresh: N,
    stored: Result<N, Error>,
    made: AssetRequest,
    request: &mut AssetRequest,
    serving: &mut ProxyServer<E, P, N>,
    later: N,
    step: AssetStep<N>,
)
    requires
        encode_utf8(key@).len() + 24 + (if data@.len() < 1024 {
            0int
        } else {
            4int
        }) <= 1024,
        call_ensures(ClientController::<A>::store_asset, (&controller, key, data), sent),
        sent matches Ok(message) ==> {
            &&& message.data@.len() <= 134_217_728
            &&& received@ == message.header@ + rest
            &&& arrived.data@ == message.data@
        },
        call_ensures(
            streams::read_framed::<ClientStreamHeader>,
            (received, streams::HEADER_SIZE_LIMIT),
            read,
        ),
        read matches Ok(streams::Framed::Message(found)) ==> header == found,
        call_ensures(ProxyServer::<E, P, N>::handle_uni, (&*old(storing), header), action),
        action matches Ok(UniAction::ReceiveAsset { key: named, length: _, compression })
            ==> arrived.compression@ == compression@ && name@ == named@,
        call_ensures(ProxyServer::<E, P, N>::store_asset, (storing, name, arrived, fresh), stored),
        call_ensures(AssetRequest::new, (key,), made),
        *old(request) == made,
        *old(serving) == *final(storing),
        call_ensures(ProxyServer::<E, P, N>::get_asset, (serving, request, true, later), step),
    ensures
        match sent {
            Ok(message) => {
                &&& read matches Ok(streams::Framed::Message(_))
                &&& match action {
                    Ok(UniAction::ReceiveAsset { key: named, length, compression: _ }) => named@
                        == key@ && length == message.data@.len(),
                    _ => false,
                }
                &&& stored is Ok
                &&& step matches AssetStep::Found(found) && crate::bytes::contents(found) == data@
            },
            Err(error) => {
                &&& error == Error::CompressionFailed
                &&& data@.len() >= 1024
                &&& assets::gzipped(data@) is None
            },
        },
{
    if sent is Ok {
        let packed = assets::packed(data@)->Some_0;
        lemma_stored_asset_is_read(controller, key, data, sent, rest, received, read);
        lemma_received_asset_is_served(
            key,
            packed,
            data@,
            header,
            storing,
            action,
            arrived,
            name,
            fresh,
            stored,
            made,
            request,
            serving,
            later,
            step,
        );
    }
}

/// An asset that is received by the header of its stream is served.
proof fn lemma_received_asset_is_served<E, P, N: Clone>(
    key: String,
    packed: assets::PackedView,
    data: Seq<u8>,
    header: ClientStreamHeader,
    storing: &mut ProxyServer<E, P, N>,
    action: Result<UniAction<P>, Error>,
    arrived: PackedAsset,
    name: &str,
    fresh: N,
    stored: Result<N, Error>,
    made: AssetRequest,
    request: &mut AssetRequest,
    serving: &mut ProxyServer<E, P, N>,
    later: N,
    step: AssetStep<N>,
)
    requires
        header@ == assets::store_header(key@, packed),
        assets::supported(packed.compression),
        assets::unpacked(packed) == Some(data),
        packed.data.len() <= 134_217_728,
        arrived.data@ == packed.data,
        call_ensures(ProxyServer::<E, P, N>::handle_uni, (&*old(storing), header), action),
        action matches Ok(UniAction::ReceiveAsset { key: named, length: _, compression })
            ==> arrived.compression@ == compression@ && name@ == named@,
        call_ensures(ProxyServer::<E, P, N>::store_asset, (storing, name, arrived, fresh), stored),
        call_ensures(AssetRequest::new, (key,), made),
        *old(request) == made,
        *old(serving) == *final(storing),
        call_ensures(ProxyServer::<E, P, N>::get_asset, (serving, request, true, later), step),
    ensures
        match action {
            Ok(UniAction::ReceiveAsset { key: named, length, compression: _ }) => named@ == key@
                && length == packed.data.len(),
            _ => false,
        },
        stored is Ok,
        step matches AssetStep::Found(found) && crate::bytes::contents(found) == data,
{
    assert(arrived@ == packed);
}

/// The header of the stream on which a game server stores an asset is read.
proof fn lemma_stored_asset_is_read<A>(
    controller: ClientController<A>,
    key: String,
    data: Vec<u8>,
    sent: Result<StoreAssetMessage, Error>,
    rest: Seq<u8>,
    received: &[u8],
    read: Result<streams::Framed<ClientStreamHeader>, Error>,
)
    requires
        encode_utf8(key@).len() + 24 + (if data@.len() < 1024 {
            0int
        } else {
            4int
        }) <= 1024,
        call_ensures(ClientController::<A>::store_asset, (&controller, key, data), sent),
        sent matches Ok(message) && received@ == message.header@ + rest,
        call_ensures(
            streams::read_framed::<ClientStreamHeader>,
            (received, streams::HEADER_SIZE_LIMIT),
            read,
        ),
    ensures
        assets::packed(data@) matches Some(packed) && assets::supported(packed.compression) && {
            &&& read matches Ok(streams::Framed::Message(header))
            &&& header@ == assets::store_header(key@, packed)
        },
        sent matches Ok(message) && assets::packed(data@) matches Some(packed) && message.data@
            == packed.data && assets::unpacked(packed) == Some(data@),
{
    let packed = assets::packed(data@)->Some_0;
    assets::lemma_store_header_len(key@, packed);
    assets::lemma_compression_name(data@);
    streams::lemma_header_is_read::<ClientStreamHeader>(
        assets::store_header(key@, packed),
        rest,
        received,
        streams::HEADER_SIZE_LIMIT,
        read,
    );
}

/// A datagram whose header is no header is refused for that, and by no fault of a player.
pub proof fn law_bad_datagram_is_refused<E, P, N: Clone>(
    proxy: ProxyServer<E, P, N>,
    datagram: ::bytes::Bytes,
    taken: Result<(DatagramInfo, ::bytes::Bytes), Error>,
    res: Result<(&P, ::bytes::Bytes), Error>,
)
    requires
        call_ensures(crate::bytes::drop_prefix::<DatagramInfo>, (datagram,), taken),
        call_ensures(ProxyServer::<E, P, N>::handle_datagram, (&proxy, datagram), res),
    ensures
        match taken {
            Ok((info, data)) => match res {
                Ok((_, received)) => crate::bytes::contents(received) == crate::bytes::contents(
                    data,
                ),
                Err(Error::UnknownPlayer(unknown)) => unknown@ == info.player_id@,
                Err(_) => false,
            },
            Err(reason) => res == Err::<(&P, ::bytes::Bytes), Error>(reason),
        },
{
}

} // verus!
