//! The side of the game server: how it finds and joins the proxy, what it makes of what the proxy
//! sends, and the assets that it stores there ahead of time.
use vstd::multiset::Multiset;
use vstd::prelude::*;
use vstd::utf8::*;

use crate::assets;
use crate::assets::StoreAssetMessage;
use crate::error::Error;
use crate::numbers;
use crate::paths;
use crate::pending;
use crate::pending::{PendingResources, QueuedView, Taken};
use crate::protocol::{
    ClientMessage, ClientMessageView, ClientStreamHeader, ClientStreamHeaderView, DatagramInfo,
    IpAddress, ServerMessage, ServerMessageView, ServerStreamHeader, SocketAddress,
};
use crate::player::{PlayerAction, PlayerConnection, PlayerInput};
use crate::proxy;
use crate::proxy::ProxyServer;
use crate::streams;
use crate::text;
use crate::wire::WireMessage;

verus! {

/// The number of seconds that the task that stores assets ahead of time waits for the endpoint.
pub const ALLOCATION_TIMEOUT_SECONDS: u64 = 30;

/// What a connection to a proxy is made of. `E` is the endpoint to connect from, `A` a path.
#[derive(Debug)]
pub struct Builder<E, A> {
    pub endpoint: Option<E>,
    pub proxy_server: Option<String>,
    pub project_id: String,
    pub assets_path: Option<A>,
    pub assets_root_override: Option<String>,
    pub user_agent: Option<String>,
}

/// What to do next to connect to a proxy.
#[derive(Debug)]
pub enum BuildStep {
    /// Ask a service, in the name of this user agent, which proxy to use.
    Fetch { url: String, user_agent: String },
    /// Connect to this proxy.
    Connect { proxy_server: String },
}

/// The text is the URL of a service that names a proxy.
pub open spec fn is_url(proxy_server: Seq<char>) -> bool {
    "http://"@.is_prefix_of(proxy_server) || "https://"@.is_prefix_of(proxy_server)
}

/// A builder that nothing was given.
pub fn builder<E, A>() -> (res: Builder<E, A>)
    ensures
        res.endpoint is None,
        res.proxy_server is None,
        res.project_id@ == Seq::<char>::empty(),
        res.assets_path is None,
        res.assets_root_override is None,
        res.user_agent is None,
{
    Builder::new()
}

impl<E, A> Builder<E, A> {
    /// A builder that nothing was given.
    pub fn new() -> (res: Self)
        ensures
            res.endpoint is None,
            res.proxy_server is None,
            res.project_id@ == Seq::<char>::empty(),
            res.assets_path is None,
            res.assets_root_override is None,
            res.user_agent is None,
    {
        Builder {
            endpoint: None,
            proxy_server: None,
            project_id: String::new(),
            assets_path: None,
            assets_root_override: None,
            user_agent: None,
        }
    }

    /// Gives the endpoint to connect from.
    pub fn endpoint(self, endpoint: E) -> (res: Self)
        ensures
            res == (Builder { endpoint: Some(endpoint), ..self }),
    {
        Builder { endpoint: Some(endpoint), ..self }
    }

    /// Gives the proxy, or the URL of a service that names one.
    pub fn proxy_server(self, proxy_server: String) -> (res: Self)
        ensures
            res == (Builder { proxy_server: Some(proxy_server), ..self }),
    {
        Builder { proxy_server: Some(proxy_server), ..self }
    }

    /// Gives the id of the project.
    pub fn project_id(self, project_id: String) -> (res: Self)
        ensures
            res == (Builder { project_id, ..self }),
    {
        Builder { project_id, ..self }
    }

    /// Gives the directory of the assets.
    pub fn assets_path(self, assets_path: A) -> (res: Self)
        ensures
            res == (Builder { assets_path: Some(assets_path), ..self }),
    {
        Builder { assets_path: Some(assets_path), ..self }
    }

    /// Gives another place to download assets from than the proxy.
    pub fn assets_root_override(self, assets_root_override: String) -> (res: Self)
        ensures
            res == (Builder { assets_root_override: Some(assets_root_override), ..self }),
    {
        Builder { assets_root_override: Some(assets_root_override), ..self }
    }

    /// Gives the user agent in whose name services are asked.
    pub fn user_agent(self, user_agent: String) -> (res: Self)
        ensures
            res == (Builder { user_agent: Some(user_agent), ..self }),
    {
        Builder { user_agent: Some(user_agent), ..self }
    }

    /// Decides how to connect to the proxy, once there is an endpoint to connect from.
    pub fn build(&self, default_user_agent: &str) -> (res: Result<BuildStep, Error>)
        ensures
            if self.assets_path is None && self.assets_root_override is None {
                res == Err::<BuildStep, Error>(Error::NoAssetsSource)
            } else {
                match self.proxy_server {
                    None => res == Err::<BuildStep, Error>(Error::NoProxyServer),
                    Some(server) => match res {
                        Ok(BuildStep::Fetch { url, user_agent }) => {
                            &&& is_url(server@)
                            &&& url@ == server@
                            &&& user_agent@ == match self.user_agent {
                                Some(given) => given@,
                                None => default_user_agent@,
                            }
                        },
                        Ok(BuildStep::Connect { proxy_server }) => !is_url(server@)
                            && proxy_server@ == server@,
                        Err(_) => false,
                    },
                }
            },
    {
        if self.assets_path.is_none() && self.assets_root_override.is_none() {
            return Err(Error::NoAssetsSource);
        }
        match &self.proxy_server {
            None => Err(Error::NoProxyServer),
            Some(server) => {
                if text::starts_with(server.as_str(), "http://") || text::starts_with(
                    server.as_str(),
                    "https://",
                ) {
                    let user_agent = match &self.user_agent {
                        Some(given) => given.clone(),
                        None => default_user_agent.to_owned(),
                    };
                    Ok(BuildStep::Fetch { url: server.clone(), user_agent })
                } else {
                    Ok(BuildStep::Connect { proxy_server: server.clone() })
                }
            },
        }
    }

    /// The proxy to connect to, by the answer of the service that names one.
    pub fn fetched(answer: &str) -> (res: Result<BuildStep, Error>)
        ensures
            ({
                let named = text::trim_end(text::trim_start(answer@));
                match res {
                    Ok(BuildStep::Connect { proxy_server }) => named.len() > 0 && proxy_server@
                        == named,
                    Ok(_) => false,
                    Err(error) => named.len() == 0 && error == Error::NoProxyServerToUse,
                }
            }),
    {
        let named = text::trim(answer);
        if named.is_empty() {
            return Err(Error::NoProxyServerToUse);
        }
        Ok(BuildStep::Connect { proxy_server: named.to_owned() })
    }
}

/// The first address of version 4.
pub open spec fn first_ipv4(addresses: Seq<SocketAddress>) -> Option<SocketAddress>
    decreases addresses.len(),
{
    if addresses.len() == 0 {
        None
    } else if addresses[0].ip is V4 {
        Some(addresses[0])
    } else {
        first_ipv4(addresses.drop_first())
    }
}

/// Where to connect to, and under what name.
#[derive(Debug)]
pub struct Destination {
    pub address: SocketAddress,
    pub host: String,
}

/// A path with its parts.
#[derive(Debug)]
pub struct AssetsPath<A> {
    pub path: A,
    pub parts: Vec<Vec<u8>>,
}

/// A game server that joined a proxy.
#[derive(Debug)]
pub struct Client<A> {
    project_id: String,
    assets_path: Option<AssetsPath<A>>,
    assets_root_override: Option<String>,
}

/// A game server that joined a proxy, with its texts as sequences of characters.
pub struct ClientView<A> {
    pub project_id: Seq<char>,
    pub assets_path: Option<AssetsPath<A>>,
    pub assets_root_override: Option<Seq<char>>,
}

/// A text that may be missing as a sequence of characters.
pub open spec fn text_view(text: Option<String>) -> Option<Seq<char>> {
    match text {
        Some(text) => Some(text@),
        None => None,
    }
}

impl<A> View for Client<A> {
    type V = ClientView<A>;

    closed spec fn view(&self) -> ClientView<A> {
        ClientView {
            project_id: self.project_id@,
            assets_path: self.assets_path,
            assets_root_override: text_view(self.assets_root_override),
        }
    }
}

impl<A> Client<A> {
    /// Decides where to connect to, by the addresses that were found for the proxy.
    pub fn connect(proxy_server: String, found: &Vec<SocketAddress>) -> (res: Result<
        Destination,
        Error,
    >)
        ensures
            match res {
                Ok(destination) => {
                    &&& first_ipv4(found@) == Some(destination.address)
                    &&& destination.host@ == text::before_colon(proxy_server@)
                },
                Err(Error::HostNotFound(host)) => first_ipv4(found@) is None && host
                    == proxy_server,
                Err(_) => false,
            },
    {
        let mut i: usize = 0;
        assert(found@.skip(0) =~= found@);
        while i < found.len()
            invariant
                i <= found@.len(),
                first_ipv4(found@) == first_ipv4(found@.skip(i as int)),
            decreases found@.len() - i,
        {
            assert(found@.skip(i as int).drop_first() =~= found@.skip(i + 1));
            let address = found[i];
            if let IpAddress::V4(_) = address.ip {
                let host = text::up_to_colon(proxy_server.as_str()).to_owned();
                return Ok(Destination { address, host });
            }
            i = i + 1;
        }
        Err(Error::HostNotFound(proxy_server))
    }

    /// A game server that is connected to a proxy.
    pub fn new(
        project_id: String,
        assets_path: Option<AssetsPath<A>>,
        assets_root_override: Option<String>,
    ) -> (res: Self)
        ensures
            res@ == (ClientView {
                project_id: project_id@,
                assets_path,
                assets_root_override: text_view(assets_root_override),
            }),
    {
        Client { project_id, assets_path, assets_root_override }
    }

    /// Starts to work with the proxy: the task that handles what the proxy sends, and the controller
    /// through which the game server asks for things.
    pub fn start<U, B, N: Clone>(self) -> (res: (ClientTask<U, B, N>, ClientController<A>))
        ensures
            res.0.well_formed(),
            res.0@ == (TaskView::<U, B, N> {
                uni_streams: Map::empty(),
                bi_streams: Map::empty(),
                datagrams: Map::empty(),
                has_assets: self@.assets_path is Some,
                assets_root_override: self@.assets_root_override,
                endpoint_allocated: false,
            }),
            res.1@ == (ControllerView::<A> {
                project_id: self@.project_id,
                assets_path: self@.assets_path,
                stack: Seq::empty(),
                task_running: false,
                allocation_requested: false,
            }),
    {
        let task = ClientTask {
            pending: PendingResources::new(),
            has_assets: self.assets_path.is_some(),
            assets_root_override: self.assets_root_override,
            endpoint_allocated: false,
        };
        (task, ClientController::new(self.project_id, self.assets_path))
    }
}

/// The endpoint that a proxy allocated.
#[derive(Clone, Debug)]
pub struct AllocatedEndpoint {
    pub id: u128,
    pub allocated_endpoint: String,
    pub external_endpoint: SocketAddress,
    pub assets_root: String,
}

impl vstd::std_specs::convert::TryFromSpecImpl<ServerMessage> for AllocatedEndpoint {
    open spec fn obeys_try_from_spec() -> bool {
        true
    }

    open spec fn try_from_spec(value: ServerMessage) -> Result<Self, ()> {
        match value {
            ServerMessage::Allocation { id, allocated_endpoint, assets_root, external_endpoint } => Ok(
                AllocatedEndpoint { id, allocated_endpoint, external_endpoint, assets_root },
            ),
            _ => Err(()),
        }
    }
}

impl TryFrom<ServerMessage> for AllocatedEndpoint {
    type Error = ();

    fn try_from(value: ServerMessage) -> (res: Result<Self, ()>) {
        match value {
            ServerMessage::Allocation { id, allocated_endpoint, assets_root, external_endpoint } => Ok(
                AllocatedEndpoint { id, allocated_endpoint, external_endpoint, assets_root },
            ),
            _ => Err(()),
        }
    }
}

/// Something that the task of a game server waits for.
#[derive(Debug)]
pub enum ClientInput<U, B> {
    /// The proxy sent a message.
    Message(ServerMessage),
    /// A stream of a player in one direction came in, with its header if that could be read.
    UniStream { header: Result<ServerStreamHeader, Error>, stream: U },
    /// A stream of a player in both directions came in, with its header if that could be read.
    BiStream { header: Result<ServerStreamHeader, Error>, streams: B },
    /// A datagram of a player came in.
    Datagram(::bytes::Bytes),
    /// The connection to the proxy is closed.
    Closed,
    /// There is nothing left to wait for.
    NothingLeft,
}

/// What the task of a game server does next.
#[derive(Debug)]
pub enum ClientAction<N> {
    /// Wake those who wait for the endpoint, tell the game server of it, and go on.
    Allocated(AllocatedEndpoint),
    /// Tell the game server of a player who connected, and go on.
    PlayerConnected { player_id: String, connection: ProxiedConnection },
    /// Load an asset and store it on the proxy if that succeeds, and go on.
    LoadAsset { key: String },
    /// Wake one of those who wait on this, and go on.
    Wake(N),
    /// Go on without what came in.
    Skip(Error),
    /// End.
    Stop,
}

/// The task of a game server.
pub struct ClientTask<U, B, N> {
    pending: PendingResources<U, B, ::bytes::Bytes, N>,
    has_assets: bool,
    assets_root_override: Option<String>,
    endpoint_allocated: bool,
}

/// The task of a game server: what waits for the players, and what is known of the allocation.
pub struct TaskView<U, B, N> {
    pub uni_streams: Map<Seq<char>, QueuedView<U, N>>,
    pub bi_streams: Map<Seq<char>, QueuedView<B, N>>,
    pub datagrams: Map<Seq<char>, QueuedView<::bytes::Bytes, N>>,
    pub has_assets: bool,
    pub assets_root_override: Option<Seq<char>>,
    pub endpoint_allocated: bool,
}

impl<U, B, N> View for ClientTask<U, B, N> {
    type V = TaskView<U, B, N>;

    closed spec fn view(&self) -> TaskView<U, B, N> {
        TaskView {
            uni_streams: self.pending.uni_streams@,
            bi_streams: self.pending.bi_streams@,
            datagrams: self.pending.datagrams@,
            has_assets: self.has_assets,
            assets_root_override: text_view(self.assets_root_override),
            endpoint_allocated: self.endpoint_allocated,
        }
    }
}

/// What the task of a game server makes of a message.
pub open spec fn is_message_action<N>(
    message: ServerMessageView,
    has_assets: bool,
    assets_root_override: Option<Seq<char>>,
    action: ClientAction<N>,
) -> bool {
    match (message, action) {
        (
            ServerMessageView::Allocation { id, allocated_endpoint, assets_root, external_endpoint },
            ClientAction::Allocated(endpoint),
        ) => {
            &&& endpoint.id == id
            &&& endpoint.allocated_endpoint@ == allocated_endpoint
            &&& endpoint.external_endpoint@ == external_endpoint
            &&& endpoint.assets_root@ == match assets_root_override {
                Some(root) => root,
                None => assets_root,
            }
        },
        (
            ServerMessageView::PlayerConnected { player_id },
            ClientAction::PlayerConnected { player_id: connected, connection },
        ) => connected@ == player_id && connection@ == player_id,
        (ServerMessageView::RequestAsset { key }, ClientAction::LoadAsset { key: load }) =>
            has_assets && load@ == key,
        (ServerMessageView::RequestAsset { key }, ClientAction::Skip(error)) => !has_assets
            && error == Error::AssetsPathNotSet,
        _ => false,
    }
}

impl<U, B, N: Clone> ClientTask<U, B, N> {
    /// The queues are well formed.
    pub closed spec fn well_formed(&self) -> bool {
        self.pending.well_formed()
    }

    /// Tests whether the proxy allocated an endpoint.
    pub fn is_endpoint_allocated(&self) -> (res: bool)
        ensures
            res == self@.endpoint_allocated,
    {
        self.endpoint_allocated
    }

    /// Decides what the task does about a message of the proxy.
    pub fn handle_message(&mut self, message: ServerMessage) -> (res: ClientAction<N>)
        requires
            old(self).well_formed(),
        ensures
            final(self).well_formed(),
            final(self)@ == (TaskView {
                endpoint_allocated: old(self)@.endpoint_allocated || message is Allocation,
                ..old(self)@
            }),
            is_message_action(
                message@,
                old(self)@.has_assets,
                old(self)@.assets_root_override,
                res,
            ),
    {
        match message {
            ServerMessage::PlayerConnected { player_id } => {
                let connection = ProxiedConnection::new(player_id.clone());
                ClientAction::PlayerConnected { player_id, connection }
            },
            ServerMessage::RequestAsset { key } => {
                if self.has_assets {
                    ClientAction::LoadAsset { key }
                } else {
                    ClientAction::Skip(Error::AssetsPathNotSet)
                }
            },
            allocation => {
                self.endpoint_allocated = true;
                match AllocatedEndpoint::try_from(allocation) {
                    Ok(mut endpoint) => {
                        if let Some(root) = &self.assets_root_override {
                            endpoint.assets_root = root.clone();
                        }
                        ClientAction::Allocated(endpoint)
                    },
                    Err(_) => ClientAction::Skip(Error::BadMsgFormat),
                }
            },
        }
    }

    /// Decides what the task does about what it waited for. What came in for a player waits, and a
    /// player for whom nothing came in before gets a queue with the notifier `fresh`.
    pub fn step(&mut self, input: ClientInput<U, B>, fresh: N) -> (res: ClientAction<N>)
        requires
            old(self).well_formed(),
            input matches ClientInput::Datagram(datagram) ==> crate::bytes::has_prefix(
                crate::bytes::contents(datagram),
            ),
        ensures
            final(self).well_formed(),
            match input {
                ClientInput::Message(message) => {
                    &&& final(self)@ == (TaskView {
                        endpoint_allocated: old(self)@.endpoint_allocated || message is Allocation,
                        ..old(self)@
                    })
                    &&& is_message_action(
                        message@,
                        old(self)@.has_assets,
                        old(self)@.assets_root_override,
                        res,
                    )
                },
                ClientInput::UniStream { header: Ok(header), stream } => {
                    let queue = pending::queue_of(old(self)@.uni_streams, opener(header), fresh);
                    &&& final(self)@ == (TaskView {
                        uni_streams: pending::after_push(
                            old(self)@.uni_streams,
                            opener(header),
                            stream,
                            fresh,
                        ),
                        ..old(self)@
                    })
                    &&& res matches ClientAction::Wake(notify)
                    &&& cloned(queue.notify, notify)
                },
                ClientInput::BiStream { header: Ok(header), streams } => {
                    let queue = pending::queue_of(old(self)@.bi_streams, opener(header), fresh);
                    &&& final(self)@ == (TaskView {
                        bi_streams: pending::after_push(
                            old(self)@.bi_streams,
                            opener(header),
                            streams,
                            fresh,
                        ),
                        ..old(self)@
                    })
                    &&& res matches ClientAction::Wake(notify)
                    &&& cloned(queue.notify, notify)
                },
                ClientInput::UniStream { header: Err(error), stream: _ } => {
                    final(self)@ == old(self)@ && res == ClientAction::<N>::Skip(error)
                },
                ClientInput::BiStream { header: Err(error), streams: _ } => {
                    final(self)@ == old(self)@ && res == ClientAction::<N>::Skip(error)
                },
                ClientInput::Datagram(datagram) => {
                    let bytes = crate::bytes::contents(datagram);
                    match proxy::datagram_player(bytes) {
                        Some(player_id) => {
                            let queue = pending::queue_of(old(self)@.datagrams, player_id, fresh);
                            &&& final(self)@ == (TaskView {
                                datagrams: final(self)@.datagrams,
                                ..old(self)@
                            })
                            &&& is_datagram_push(
                                old(self)@.datagrams,
                                final(self)@.datagrams,
                                player_id,
                                proxy::datagram_data(bytes),
                                fresh,
                            )
                            &&& res matches ClientAction::Wake(notify)
                            &&& cloned(queue.notify, notify)
                        },
                        None => {
                            &&& final(self)@ == old(self)@
                            &&& res == ClientAction::<N>::Skip(Error::BadMsgFormat)
                        },
                    }
                },
                ClientInput::Closed | ClientInput::NothingLeft => {
                    final(self)@ == old(self)@ && res is Stop
                },
            },
    {
        match input {
            ClientInput::Message(message) => self.handle_message(message),
            ClientInput::UniStream { header, stream } => match header {
                Ok(ServerStreamHeader::PlayerStreamOpened { player_id }) => ClientAction::Wake(
                    self.pending.uni_streams.push(player_id.as_str(), stream, fresh),
                ),
                Err(error) => ClientAction::Skip(error),
            },
            ClientInput::BiStream { header, streams } => match header {
                Ok(ServerStreamHeader::PlayerStreamOpened { player_id }) => ClientAction::Wake(
                    self.pending.bi_streams.push(player_id.as_str(), streams, fresh),
                ),
                Err(error) => ClientAction::Skip(error),
            },
            ClientInput::Datagram(datagram) => {
                match crate::bytes::drop_prefix::<DatagramInfo>(datagram) {
                    Ok((info, data)) => {
                        let notify = self.pending.datagrams.push(
                            info.player_id.as_str(),
                            data,
                            fresh,
                        );
                        assert(self@.datagrams[info.player_id@].queue.last() == data);
                        ClientAction::Wake(notify)
                    },
                    Err(error) => ClientAction::Skip(error),
                }
            },
            ClientInput::Closed | ClientInput::NothingLeft => ClientAction::Stop,
        }
    }
}

/// The player who opened a stream.
pub open spec fn opener(header: ServerStreamHeader) -> Seq<char> {
    match header {
        ServerStreamHeader::PlayerStreamOpened { player_id } => player_id@,
    }
}

/// A datagram with these contents came in for a player.
pub open spec fn is_datagram_push<N>(
    before: Map<Seq<char>, QueuedView<::bytes::Bytes, N>>,
    after: Map<Seq<char>, QueuedView<::bytes::Bytes, N>>,
    player_id: Seq<char>,
    contents: Seq<u8>,
    fresh: N,
) -> bool {
    let datagram = after[player_id].queue.last();
    &&& crate::bytes::contents(datagram) == contents
    &&& after == pending::after_push(before, player_id, datagram, fresh)
}

/// Through which a game server asks the proxy for things, and stores assets there ahead of time.
#[derive(Debug)]
pub struct ClientController<A> {
    project_id: String,
    assets_path: Option<AssetsPath<A>>,
    pre_cache_assets_stack: Vec<A>,
    pre_caching_task_running: bool,
    allocation_requested: bool,
}

/// The state of a controller.
pub struct ControllerView<A> {
    pub project_id: Seq<char>,
    pub assets_path: Option<AssetsPath<A>>,
    pub stack: Seq<A>,
    pub task_running: bool,
    pub allocation_requested: bool,
}

impl<A> View for ClientController<A> {
    type V = ControllerView<A>;

    closed spec fn view(&self) -> ControllerView<A> {
        ControllerView {
            project_id: self.project_id@,
            assets_path: self.assets_path,
            stack: self.pre_cache_assets_stack@,
            task_running: self.pre_caching_task_running,
            allocation_requested: self.allocation_requested,
        }
    }
}

impl<A> ClientController<A> {
    /// A controller of a game server that asked for nothing yet.
    pub fn new(project_id: String, assets_path: Option<AssetsPath<A>>) -> (res: Self)
        ensures
            res@ == (ControllerView {
                project_id: project_id@,
                assets_path,
                stack: Seq::<A>::empty(),
                task_running: false,
                allocation_requested: false,
            }),
    {
        ClientController {
            project_id,
            assets_path,
            pre_cache_assets_stack: Vec::new(),
            pre_caching_task_running: false,
            allocation_requested: false,
        }
    }

    /// The message that asks the proxy for an endpoint.
    pub fn allocate_message(&self) -> (res: ClientMessage)
        ensures
            res@ == (ClientMessageView::AllocateEndpoint { project_id: self@.project_id }),
    {
        ClientMessage::AllocateEndpoint { project_id: self.project_id.clone() }
    }

    /// Takes note that the proxy was asked for an endpoint, if the message could be sent. Returns
    /// whether to start the task that stores assets ahead of time.
    pub fn allocate_endpoint(&mut self, sent: bool) -> (res: Result<bool, Error>)
        ensures
            if sent {
                let asked = ControllerView { allocation_requested: true, ..old(self)@ };
                let start = asked.stack.len() > 0 && starts_task(asked);
                &&& res == Ok::<bool, Error>(start)
                &&& final(self)@ == (ControllerView {
                    task_running: asked.task_running || start,
                    ..asked
                })
            } else {
                res == Err::<bool, Error>(Error::AllocateNotSent) && final(self)@ == old(self)@
            },
    {
        if !sent {
            return Err(Error::AllocateNotSent);
        }
        self.allocation_requested = true;
        if self.pre_cache_assets_stack.len() > 0 {
            Ok(self.start_pre_caching_task_if_needed())
        } else {
            Ok(false)
        }
    }

    /// The message that stores an asset on the proxy. What is sent unpacks to the asset.
    pub fn store_asset(&self, key: String, data: Vec<u8>) -> (res: Result<StoreAssetMessage, Error>)
        ensures
            match (assets::packed(data@), res) {
                (Some(sent), Ok(message)) => {
                    &&& message.header@ == streams::frame(
                        ClientStreamHeader::wire(assets::store_header(key@, sent)),
                    )
                    &&& message.data@ == sent.data
                    &&& assets::unpacked(sent) == Some(data@)
                },
                (None, Err(error)) => error == Error::CompressionFailed,
                _ => false,
            },
    {
        assets::send_store_asset_message(key, data)
    }

    /// The directory of the assets.
    pub fn assets_path(&self) -> (res: Result<&AssetsPath<A>, Error>)
        ensures
            match res {
                Ok(path) => self@.assets_path == Some(*path),
                Err(error) => self@.assets_path is None && error == Error::AssetsPathNotSet,
            },
    {
        match &self.assets_path {
            Some(path) => Ok(path),
            None => Err(Error::AssetsPathNotSet),
        }
    }

    /// Takes note of a directory whose assets are to be stored on the proxy ahead of time. It has to
    /// be inside the directory of the assets. Returns whether to start the task that does it.
    pub fn pre_cache_assets(&mut self, directory: A, parts: &Vec<Vec<u8>>) -> (res: Result<
        bool,
        Error,
    >)
        ensures
            match old(self)@.assets_path {
                None => {
                    &&& res == Err::<bool, Error>(Error::AssetsPathNotSet)
                    &&& final(self)@ == old(self)@
                },
                Some(assets) => if paths::inside(
                    numbers::byte_strings(parts@),
                    numbers::byte_strings(assets.parts@),
                ) {
                    let noted = after_push_directory(old(self)@, directory);
                    let start = noted.allocation_requested && starts_task(noted);
                    &&& res == Ok::<bool, Error>(start)
                    &&& final(self)@ == (ControllerView {
                        task_running: noted.task_running || start,
                        ..noted
                    })
                } else {
                    &&& res == Err::<bool, Error>(Error::OutsideAssets)
                    &&& final(self)@ == old(self)@
                },
            },
    {
        match &self.assets_path {
            None => {
                return Err(Error::AssetsPathNotSet);
            },
            Some(assets) => {
                paths::check_inside(parts, &assets.parts)?;
            },
        }
        self.pre_cache_assets_stack.push(directory);
        if self.allocation_requested {
            Ok(self.start_pre_caching_task_if_needed())
        } else {
            Ok(false)
        }
    }

    /// Decides whether to start the task that stores assets ahead of time, and takes note that it
    /// runs. It is started only while none runs.
    pub fn start_pre_caching_task_if_needed(&mut self) -> (res: bool)
        ensures
            res == starts_task(old(self)@),
            final(self)@ == (ControllerView {
                task_running: old(self)@.task_running || res,
                ..old(self)@
            }),
    {
        if self.assets_path.is_none() || self.pre_caching_task_running {
            return false;
        }
        self.pre_caching_task_running = true;
        true
    }

    /// Decides what the task that stores assets ahead of time does next. It waits for the endpoint
    /// for some time, and ends when that is up.
    pub fn task_step(&mut self, in_time: bool, endpoint_allocated: bool) -> (res: PreCachingStep)
        ensures
            match res {
                PreCachingStep::Drain => in_time && endpoint_allocated && final(self)@ == old(self)@,
                PreCachingStep::Wait => in_time && !endpoint_allocated && final(self)@ == old(self)@,
                PreCachingStep::Finished => !in_time && final(self)@ == (ControllerView {
                    task_running: false,
                    ..old(self)@
                }),
            },
    {
        if !in_time {
            self.pre_caching_task_running = false;
            PreCachingStep::Finished
        } else if endpoint_allocated {
            PreCachingStep::Drain
        } else {
            PreCachingStep::Wait
        }
    }

    /// Takes note that the task that stores assets ahead of time ended.
    pub fn finish_task(&mut self)
        ensures
            final(self)@ == (ControllerView { task_running: false, ..old(self)@ }),
    {
        self.pre_caching_task_running = false;
    }

    /// The directory to store next, the one that was noted last. It is noted no more.
    pub fn next_directory(&mut self) -> (res: Option<A>)
        ensures
            match res {
                Some(directory) => {
                    &&& old(self)@.stack.len() > 0
                    &&& directory == old(self)@.stack.last()
                    &&& final(self)@ == after_pop_directory(old(self)@)
                },
                None => old(self)@.stack.len() == 0 && final(self)@ == old(self)@,
            },
    {
        self.pre_cache_assets_stack.pop()
    }

    /// Decides what to do with an entry of a directory that is stored ahead of time. A file is stored
    /// under the key of its path, a directory is noted, to be stored later.
    pub fn drain_entry(&mut self, entry: DirectoryEntry<A>) -> (res: EntryAction)
        ensures
            final(self)@ == after_entry(old(self)@, entry),
            match entry {
                DirectoryEntry::File { relative: Some(path) } => match res {
                    EntryAction::Store { key } => is_file_result(Ok(key), path@),
                    EntryAction::Skip(error) => is_file_result(Err(error), path@),
                    EntryAction::Noted | EntryAction::Ignore => false,
                },
                DirectoryEntry::File { relative: None } => res == EntryAction::Skip(
                    Error::PathNotText,
                ),
                DirectoryEntry::Outside => res == EntryAction::Skip(Error::OutsideAssets),
                DirectoryEntry::Directory(_) => res is Noted,
                DirectoryEntry::Other => res is Ignore,
            },
    {
        match entry {
            DirectoryEntry::File { relative } => match relative {
                Some(path) => match paths::path_to_key(path.as_str()) {
                    Ok(key) => EntryAction::Store { key },
                    Err(error) => EntryAction::Skip(error),
                },
                None => EntryAction::Skip(Error::PathNotText),
            },
            DirectoryEntry::Outside => EntryAction::Skip(Error::OutsideAssets),
            DirectoryEntry::Directory(directory) => {
                self.pre_cache_assets_stack.push(directory);
                EntryAction::Noted
            },
            DirectoryEntry::Other => EntryAction::Ignore,
        }
    }
}

/// Under what key a file with this path is stored, or why it is not. The key is that of the path
/// where slashes alone separate names, or where backslashes separate them too; where the path holds
/// no backslash those are the same, and only a path that may have a prefix can be refused for one.
pub open spec fn is_file_result(res: Result<String, Error>, path: Seq<char>) -> bool {
    &&& paths::is_path_result(res, path)
    &&& paths::unambiguous(path) ==> paths::is_key_result(
        res,
        paths::key_of(paths::components(path)),
    )
    &&& !path.contains('\\') ==> paths::is_key_result(res, paths::key_of(paths::components(path)))
        || paths::may_have_prefix(path) && res == Err::<String, Error>(Error::PathNotRelative)
    &&& res matches Ok(key) ==> paths::is_key(key@) && !paths::has_no_key(path)
}

/// What the task that stores assets ahead of time does next.
#[derive(Clone, Copy, Debug, PartialEq, Eq)]
pub enum PreCachingStep {
    /// Store the directories that were noted, and end.
    Drain,
    /// Wait for the endpoint, or for the time to be up.
    Wait,
    /// End.
    Finished,
}

/// An entry of a directory.
#[derive(Debug)]
pub enum DirectoryEntry<A> {
    /// A file, with its path from the directory of the assets, if that is a text.
    File { relative: Option<String> },
    /// A file that is not below the directory of the assets.
    Outside,
    /// A directory.
    Directory(A),
    /// Anything else, or an entry that could not be looked at.
    Other,
}

/// What to do with an entry of a directory.
#[derive(Debug, PartialEq, Eq)]
pub enum EntryAction {
    /// Store the file under this key.
    Store { key: String },
    /// The directory was noted.
    Noted,
    /// Pass over a file that no key can be made for.
    Skip(Error),
    /// Pass over the entry.
    Ignore,
}

/// A controller starts the task that stores assets ahead of time.
pub open spec fn starts_task<A>(state: ControllerView<A>) -> bool {
    state.assets_path is Some && !state.task_running
}

/// The state of a controller after a directory was noted.
pub open spec fn after_push_directory<A>(state: ControllerView<A>, directory: A) -> ControllerView<A> {
    ControllerView { stack: state.stack.push(directory), ..state }
}

/// The state of a controller after an entry of a directory was looked at.
pub open spec fn after_entry<A>(state: ControllerView<A>, entry: DirectoryEntry<A>) -> ControllerView<A> {
    match entry {
        DirectoryEntry::Directory(directory) => after_push_directory(state, directory),
        _ => state,
    }
}

/// The state of a controller after the directory that was noted last was taken.
pub open spec fn after_pop_directory<A>(state: ControllerView<A>) -> ControllerView<A> {
    ControllerView { stack: state.stack.drop_last(), ..state }
}

/// The connection to a player through the proxy.
#[derive(Clone, Debug)]
pub struct ProxiedConnection {
    player_id: String,
}

impl View for ProxiedConnection {
    type V = Seq<char>;

    closed spec fn view(&self) -> Seq<char> {
        self.player_id@
    }
}

impl ProxiedConnection {
    /// The connection to a player with an id.
    pub fn new(player_id: String) -> (res: Self)
        ensures
            res@ == player_id@,
    {
        ProxiedConnection { player_id }
    }

    /// What is put in front of a stream in one direction to the player.
    pub fn open_uni(&self) -> (res: Result<Vec<u8>, Error>)
        ensures
            match res {
                Ok(head) => head@ == stream_head(self@),
                Err(_) => false,
            },
    {
        streams::write_framed(
            &ClientStreamHeader::OpenPlayerStream { player_id: self.player_id.clone() },
        )
    }

    /// What is put in front of a stream in both directions to the player.
    pub fn open_bi(&self) -> (res: Result<Vec<u8>, Error>)
        ensures
            match res {
                Ok(head) => head@ == stream_head(self@),
                Err(_) => false,
            },
    {
        streams::write_framed(
            &ClientStreamHeader::OpenPlayerStream { player_id: self.player_id.clone() },
        )
    }

    /// The next stream in one direction that the player opened, or what to wait for.
    pub fn accept_uni<U, B, N: Clone>(&self, task: &mut ClientTask<U, B, N>, fresh: N) -> (res:
        Taken<U, N>)
        requires
            old(task).well_formed(),
        ensures
            final(task).well_formed(),
            final(task)@ == (TaskView {
                uni_streams: pending::after_take(old(task)@.uni_streams, self@, fresh),
                ..old(task)@
            }),
            pending::is_taken(res, pending::queue_of(old(task)@.uni_streams, self@, fresh)),
    {
        task.pending.uni_streams.take(self.player_id.as_str(), fresh)
    }

    /// The next stream in both directions that the player opened, or what to wait for.
    pub fn accept_bi<U, B, N: Clone>(&self, task: &mut ClientTask<U, B, N>, fresh: N) -> (res: Taken<
        B,
        N,
    >)
        requires
            old(task).well_formed(),
        ensures
            final(task).well_formed(),
            final(task)@ == (TaskView {
                bi_streams: pending::after_take(old(task)@.bi_streams, self@, fresh),
                ..old(task)@
            }),
            pending::is_taken(res, pending::queue_of(old(task)@.bi_streams, self@, fresh)),
    {
        task.pending.bi_streams.take(self.player_id.as_str(), fresh)
    }

    /// The next datagram of the player, or what to wait for.
    pub fn read_datagram<U, B, N: Clone>(&self, task: &mut ClientTask<U, B, N>, fresh: N) -> (res:
        Taken<::bytes::Bytes, N>)
        requires
            old(task).well_formed(),
        ensures
            final(task).well_formed(),
            final(task)@ == (TaskView {
                datagrams: pending::after_take(old(task)@.datagrams, self@, fresh),
                ..old(task)@
            }),
            pending::is_taken(res, pending::queue_of(old(task)@.datagrams, self@, fresh)),
    {
        task.pending.datagrams.take(self.player_id.as_str(), fresh)
    }

    /// The datagram that the proxy gets for one to the player.
    pub fn send_datagram(&self, data: ::bytes::Bytes) -> (res: Result<::bytes::Bytes, Error>)
        ensures
            match res {
                Ok(sent) => crate::bytes::contents(sent) == crate::bytes::prefixed(
                    DatagramInfo::wire(self@),
                    crate::bytes::contents(data),
                ),
                Err(_) => false,
            },
    {
        crate::bytes::prefix(&DatagramInfo { player_id: self.player_id.clone() }, data)
    }
}

/// What is put in front of a stream to a player.
pub open spec fn stream_head(player_id: Seq<char>) -> Seq<u8> {
    streams::frame(
        ClientStreamHeader::wire(ClientStreamHeaderView::OpenPlayerStream { player_id }),
    )
}

/// A stream to a player is told apart: the proxy reads the id of the player off its front, and what
/// follows is what the game server sent.
pub proof fn law_stream_names_player(player_id: Seq<char>, stream: Seq<u8>)
    requires
        ClientStreamHeader::fits(ClientStreamHeaderView::OpenPlayerStream { player_id }),
        ClientStreamHeader::wire(
            ClientStreamHeaderView::OpenPlayerStream { player_id },
        ).len() <= streams::HEADER_SIZE_LIMIT,
    ensures
        ({
            let relayed = stream_head(player_id) + stream;
            let len = numbers::be_value(relayed.take(4));
            &&& len <= streams::HEADER_SIZE_LIMIT
            &&& stream_head(player_id).len() == 4 + len
            &&& ClientStreamHeader::unwire(relayed.subrange(4, 4 + len as int)) == Some(
                ClientStreamHeaderView::OpenPlayerStream { player_id },
            )
            &&& relayed.skip(4 + len as int) == stream
        }),
{
    streams::law_framed_round_trip::<ClientStreamHeader>(
        ClientStreamHeaderView::OpenPlayerStream { player_id },
        stream,
        streams::HEADER_SIZE_LIMIT,
    );
    let head = stream_head(player_id);
    assert((head + stream).skip(head.len() as int) =~= stream);
}

/// Something that happens to the task that stores assets ahead of time.
pub enum TaskEvent {
    /// The task is to be started if needed.
    Ask,
    /// A task that runs ends.
    Finish,
}

/// How many tasks run after a series of events, and what the controller knows of it.
pub open spec fn after_task_events<A>(state: ControllerView<A>, events: Seq<TaskEvent>) -> (
    nat,
    ControllerView<A>,
)
    decreases events.len(),
{
    if events.len() == 0 {
        (
            if state.task_running {
                1
            } else {
                0
            },
            state,
        )
    } else {
        let (running, before) = after_task_events(state, events.drop_last());
        match events.last() {
            TaskEvent::Ask => if starts_task(before) {
                (running + 1, ControllerView { task_running: true, ..before })
            } else {
                (running, before)
            },
            TaskEvent::Finish => if running > 0 {
                ((running - 1) as nat, ControllerView { task_running: false, ..before })
            } else {
                (running, before)
            },
        }
    }
}

/// Whatever happens, there is at most one task that stores assets ahead of time, and the controller
/// knows whether there is.
pub proof fn law_one_task_at_most<A>(state: ControllerView<A>, events: Seq<TaskEvent>)
    ensures
        ({
            let (running, after) = after_task_events(state, events);
            running == if after.task_running {
                1nat
            } else {
                0nat
            }
        }),
    decreases events.len(),
{
    if events.len() > 0 {
        law_one_task_at_most(state, events.drop_last());
    }
}

/// Something that happens to the directories that are noted.
pub enum DirectoryEvent<A> {
    /// A directory is noted.
    Note(A),
    /// The directory to store next is taken.
    Take,
}

/// The directories that were noted, those that were taken, and those that are left, after a series
/// of events on a controller that noted none.
pub open spec fn after_directory_events<A>(state: ControllerView<A>, events: Seq<DirectoryEvent<A>>) -> (
    Seq<A>,
    Seq<A>,
    ControllerView<A>,
)
    decreases events.len(),
{
    if events.len() == 0 {
        (Seq::empty(), Seq::empty(), ControllerView { stack: Seq::empty(), ..state })
    } else {
        let (noted, taken, before) = after_directory_events(state, events.drop_last());
        match events.last() {
            DirectoryEvent::Note(directory) => (
                noted.push(directory),
                taken,
                after_push_directory(before, directory),
            ),
            DirectoryEvent::Take => if before.stack.len() > 0 {
                (noted, taken.push(before.stack.last()), after_pop_directory(before))
            } else {
                (noted, taken, before)
            },
        }
    }
}

/// Whatever happens, every directory that was noted was taken, or is left to be taken, as often as
/// it was noted: none is lost and none is stored twice.
pub proof fn law_no_directory_lost<A>(state: ControllerView<A>, events: Seq<DirectoryEvent<A>>)
    ensures
        ({
            let (noted, taken, after) = after_directory_events(state, events);
            noted.to_multiset() == taken.to_multiset().add(after.stack.to_multiset())
        }),
    decreases events.len(),
{
    broadcast use {vstd::seq_lib::group_to_multiset_ensures, vstd::multiset::group_multiset_axioms};

    if events.len() > 0 {
        law_no_directory_lost(state, events.drop_last());
        let (noted, taken, before) = after_directory_events(state, events.drop_last());
        match events.last() {
            DirectoryEvent::Note(directory) => {
                assert(noted.push(directory).to_multiset() =~= taken.to_multiset().add(
                    before.stack.push(directory).to_multiset(),
                ));
            },
            DirectoryEvent::Take => {
                if before.stack.len() > 0 {
                    let last = before.stack.last();
                    assert(before.stack =~= before.stack.drop_last().push(last));
                    assert(noted.to_multiset() =~= taken.push(last).to_multiset().add(
                        before.stack.drop_last().to_multiset(),
                    ));
                }
            },
        }
    } else {
        let (noted, taken, after) = after_directory_events(state, events);
        assert(noted.to_multiset() =~= taken.to_multiset().add(after.stack.to_multiset()));
    }
}

/// The directories are those of a finite tree: `listing` gives the entries of each, and a directory
/// is higher than those in it.
pub open spec fn is_tree<A>(
    listing: spec_fn(A) -> Seq<DirectoryEntry<A>>,
    height: spec_fn(A) -> nat,
) -> bool {
    forall|directory: A, i: int|
        0 <= i < listing(directory).len() ==> is_below(
            #[trigger] listing(directory)[i],
            height,
            height(directory),
        )
}

/// If the entry is a directory, it is lower than `bound`.
pub open spec fn is_below<A>(
    entry: DirectoryEntry<A>,
    height: spec_fn(A) -> nat,
    bound: nat,
) -> bool {
    entry matches DirectoryEntry::Directory(directory) ==> height(directory) < bound
}

/// The paths of the files among entries and in the directories among them, at any depth, each as
/// often as it occurs. The directories are lower than `bound`.
pub open spec fn files_in<A>(
    listing: spec_fn(A) -> Seq<DirectoryEntry<A>>,
    height: spec_fn(A) -> nat,
    entries: Seq<DirectoryEntry<A>>,
    bound: nat,
) -> Multiset<Seq<char>>
    decreases bound, entries.len(),
{
    if entries.len() == 0 {
        Multiset::empty()
    } else {
        files_in(listing, height, entries.drop_last(), bound).add(
            match entries.last() {
                DirectoryEntry::Directory(directory) => if height(directory) < bound {
                    files_in(listing, height, listing(directory), height(directory))
                } else {
                    Multiset::empty()
                },
                entry => file(entry),
            },
        )
    }
}

/// The path of the entry, if it is a file whose path is a text.
pub open spec fn file<A>(entry: DirectoryEntry<A>) -> Multiset<Seq<char>> {
    match entry {
        DirectoryEntry::File { relative: Some(path) } => Multiset::singleton(path@),
        _ => Multiset::empty(),
    }
}

/// The paths of the files below directories, at any depth.
pub open spec fn files_below<A>(
    listing: spec_fn(A) -> Seq<DirectoryEntry<A>>,
    height: spec_fn(A) -> nat,
    directories: Seq<A>,
) -> Multiset<Seq<char>>
    decreases directories.len(),
{
    if directories.len() == 0 {
        Multiset::empty()
    } else {
        let last = directories.last();
        files_below(listing, height, directories.drop_last()).add(
            files_in(listing, height, listing(last), height(last)),
        )
    }
}

/// The number of directories among entries and in the directories among them, at any depth.
pub open spec fn directories_in<A>(
    listing: spec_fn(A) -> Seq<DirectoryEntry<A>>,
    height: spec_fn(A) -> nat,
    entries: Seq<DirectoryEntry<A>>,
    bound: nat,
) -> nat
    decreases bound, entries.len(),
{
    if entries.len() == 0 {
        0
    } else {
        directories_in(listing, height, entries.drop_last(), bound) + match entries.last() {
            DirectoryEntry::Directory(directory) => if height(directory) < bound {
                1 + directories_in(listing, height, listing(directory), height(directory))
            } else {
                0
            },
            _ => 0,
        }
    }
}

/// The number of directories and of those below them, at any depth.
pub open spec fn directories_below<A>(
    listing: spec_fn(A) -> Seq<DirectoryEntry<A>>,
    height: spec_fn(A) -> nat,
    directories: Seq<A>,
) -> nat
    decreases directories.len(),
{
    if directories.len() == 0 {
        0
    } else {
        let last = directories.last();
        directories_below(listing, height, directories.drop_last()) + 1 + directories_in(
            listing,
            height,
            listing(last),
            height(last),
        )
    }
}

/// The paths of the files that are handed out while entries are looked at, one after the other, and
/// the state after that.
pub open spec fn after_entries<A>(state: ControllerView<A>, entries: Seq<DirectoryEntry<A>>) -> (
    Multiset<Seq<char>>,
    ControllerView<A>,
)
    decreases entries.len(),
{
    if entries.len() == 0 {
        (Multiset::empty(), state)
    } else {
        let (handed_out, before) = after_entries(state, entries.drop_last());
        (handed_out.add(file(entries.last())), after_entry(before, entries.last()))
    }
}

/// The paths of the files that are handed out in so many rounds, and the state after them. In each
/// round the directory to store next is taken and its entries are looked at.
pub open spec fn after_rounds<A>(
    state: ControllerView<A>,
    listing: spec_fn(A) -> Seq<DirectoryEntry<A>>,
    rounds: nat,
) -> (Multiset<Seq<char>>, ControllerView<A>)
    decreases rounds,
{
    if rounds == 0 {
        (Multiset::empty(), state)
    } else {
        let (handed_out, before) = after_rounds(state, listing, (rounds - 1) as nat);
        if before.stack.len() == 0 {
            (handed_out, before)
        } else {
            let (more, after) = after_entries(
                after_pop_directory(before),
                listing(before.stack.last()),
            );
            (handed_out.add(more), after)
        }
    }
}

/// Looking at entries hands out the files among them and notes the directories among them.
proof fn lemma_entries_kept<A>(
    state: ControllerView<A>,
    listing: spec_fn(A) -> Seq<DirectoryEntry<A>>,
    height: spec_fn(A) -> nat,
    entries: Seq<DirectoryEntry<A>>,
    bound: nat,
)
    requires
        forall|i: int| 0 <= i < entries.len() ==> is_below(#[trigger] entries[i], height, bound),
    ensures
        ({
            let (handed_out, after) = after_entries(state, entries);
            &&& files_below(listing, height, state.stack).add(
                files_in(listing, height, entries, bound),
            ) == handed_out.add(files_below(listing, height, after.stack))
            &&& directories_below(listing, height, state.stack) + directories_in(
                listing,
                height,
                entries,
                bound,
            ) == directories_below(listing, height, after.stack)
        }),
    decreases entries.len(),
{
    broadcast use vstd::multiset::group_multiset_axioms;

    let noted = files_below(listing, height, state.stack);
    if entries.len() == 0 {
        assert(noted.add(files_in(listing, height, entries, bound)) =~= Multiset::empty().add(
            noted,
        ));
    } else {
        let earlier = entries.drop_last();
        assert forall|i: int| 0 <= i < earlier.len() implies is_below(
            #[trigger] earlier[i],
            height,
            bound,
        ) by {
            assert(earlier[i] == entries[i]);
        }
        lemma_entries_kept(state, listing, height, earlier, bound);
        assert(is_below(entries[entries.len() - 1], height, bound));
        let (handed_before, before) = after_entries(state, earlier);
        let (handed_out, after) = after_entries(state, entries);
        let files_before = files_in(listing, height, earlier, bound);
        let noted_before = files_below(listing, height, before.stack);
        let added = match entries.last() {
            DirectoryEntry::Directory(directory) => files_in(
                listing,
                height,
                listing(directory),
                height(directory),
            ),
            entry => file(entry),
        };
        assert(noted.add(files_before.add(added)) =~= noted.add(files_before).add(added));
        if let DirectoryEntry::Directory(directory) = entries.last() {
            assert(after.stack.drop_last() =~= before.stack);
            assert(after.stack.last() == directory);
            assert(handed_out =~= handed_before);
            assert(handed_before.add(noted_before).add(added) =~= handed_out.add(
                noted_before.add(added),
            ));
        } else {
            assert(handed_before.add(noted_before).add(added) =~= handed_before.add(added).add(
                noted_before,
            ));
        }
        assert(noted.add(files_in(listing, height, entries, bound)) =~= handed_out.add(
            files_below(listing, height, after.stack),
        ));
    }
}

/// Storing ahead of time leaves out no file and stores none twice. Where the directories are those
/// of a finite tree, after any number of rounds the files handed out and those below the directories
/// still noted are together the files below the directories that were noted at the start, each as
/// often as it occurs there. After as many rounds as there are directories none is left, and the
/// files handed out are all of them.
pub proof fn law_every_file_handed_out<A>(
    state: ControllerView<A>,
    listing: spec_fn(A) -> Seq<DirectoryEntry<A>>,
    height: spec_fn(A) -> nat,
    rounds: nat,
)
    requires
        is_tree(listing, height),
    ensures
        ({
            let (handed_out, after) = after_rounds(state, listing, rounds);
            let all = files_below(listing, height, state.stack);
            &&& handed_out.add(files_below(listing, height, after.stack)) == all
            &&& rounds >= directories_below(listing, height, state.stack) ==> after.stack.len()
                == 0 && handed_out == all
        }),
{
    broadcast use vstd::multiset::group_multiset_axioms;

    lemma_rounds(state, listing, height, rounds);
    let (handed_out, after) = after_rounds(state, listing, rounds);
    if after.stack.len() == 0 {
        assert(handed_out.add(files_below(listing, height, after.stack)) =~= handed_out);
    }
}

/// What is handed out in so many rounds, and how many directories are left.
proof fn lemma_rounds<A>(
    state: ControllerView<A>,
    listing: spec_fn(A) -> Seq<DirectoryEntry<A>>,
    height: spec_fn(A) -> nat,
    rounds: nat,
)
    requires
        is_tree(listing, height),
    ensures
        ({
            let (handed_out, after) = after_rounds(state, listing, rounds);
            &&& handed_out.add(files_below(listing, height, after.stack)) == files_below(
                listing,
                height,
                state.stack,
            )
            &&& after.stack.len() == 0 || directories_below(listing, height, after.stack) + rounds
                == directories_below(listing, height, state.stack)
        }),
    decreases rounds,
{
    broadcast use vstd::multiset::group_multiset_axioms;

    let all = files_below(listing, height, state.stack);
    if rounds == 0 {
        assert(Multiset::empty().add(all) =~= all);
    } else {
        let earlier = (rounds - 1) as nat;
        lemma_rounds(state, listing, height, earlier);
        let (handed_before, before) = after_rounds(state, listing, earlier);
        if before.stack.len() > 0 {
            let directory = before.stack.last();
            let popped = after_pop_directory(before);
            lemma_entries_kept(popped, listing, height, listing(directory), height(directory));
            let (handed_out, after) = after_rounds(state, listing, rounds);
            assert(handed_out.add(files_below(listing, height, after.stack)) =~= all);
        }
    }
}

/// A proxy is joined wherever one of the addresses found for it is of version 4, at the first such
/// address, under the name in front of the colon. Where none is, the proxy that was asked for is
/// named.
pub proof fn law_first_address_of_version_4<A>(
    proxy_server: String,
    found: Vec<SocketAddress>,
    res: Result<Destination, Error>,
)
    requires
        call_ensures(Client::<A>::connect, (proxy_server, &found), res),
    ensures
        match res {
            Ok(destination) => {
                &&& exists|i: int|
                    {
                        &&& 0 <= i < found@.len()
                        &&& #[trigger] found@[i] == destination.address
                        &&& found@[i].ip is V4
                        &&& forall|j: int| 0 <= j < i ==> !((#[trigger] found@[j]).ip is V4)
                    }
                &&& text::is_front_of(destination.host@, proxy_server@)
            },
            Err(error) => {
                &&& forall|i: int| 0 <= i < found@.len() ==> !((#[trigger] found@[i]).ip is V4)
                &&& error matches Error::HostNotFound(host) && host@ == proxy_server@
            },
        },
{
    lemma_first_ipv4(found@);
    text::lemma_front(proxy_server@);
}

/// The first address of version 4 stands in the list, behind addresses of the other version alone.
proof fn lemma_first_ipv4(addresses: Seq<SocketAddress>)
    ensures
        match first_ipv4(addresses) {
            Some(address) => exists|i: int|
                {
                    &&& 0 <= i < addresses.len()
                    &&& #[trigger] addresses[i] == address
                    &&& addresses[i].ip is V4
                    &&& forall|j: int| 0 <= j < i ==> !((#[trigger] addresses[j]).ip is V4)
                },
            None => forall|i: int|
                0 <= i < addresses.len() ==> !((#[trigger] addresses[i]).ip is V4),
        },
    decreases addresses.len(),
{
    if addresses.len() > 0 && !(addresses[0].ip is V4) {
        let later = addresses.drop_first();
        lemma_first_ipv4(later);
        assert forall|j: int| 1 <= j < addresses.len() implies #[trigger] addresses[j] == later[j
            - 1] by {}
        if let Some(address) = first_ipv4(later) {
            let i = choose|i: int|
                {
                    &&& 0 <= i < later.len()
                    &&& #[trigger] later[i] == address
                    &&& later[i].ip is V4
                    &&& forall|j: int| 0 <= j < i ==> !((#[trigger] later[j]).ip is V4)
                };
            assert(addresses[i + 1] == address);
            assert forall|j: int| 0 <= j < i + 1 implies !((#[trigger] addresses[j]).ip is V4) by {
                if j > 0 {
                    assert(later[j - 1] == addresses[j]);
                }
            }
        }
    }
}

/// The connection handed out for a player reaches that player. What is put in front of a stream
/// opened through it, in one direction or in both, reads as the header that names the player,
/// whatever follows it. The id has to be short enough for a header.
pub proof fn law_connection_opens_streams_to_player<U, B, N: Clone>(
    task: &mut ClientTask<U, B, N>,
    player_id: String,
    fresh: N,
    connected: String,
    connection: ProxiedConnection,
    made: ProxiedConnection,
    uni: Result<Vec<u8>, Error>,
    bi: Result<Vec<u8>, Error>,
    stream: Seq<u8>,
    received: &[u8],
    read: Result<streams::Framed<ClientStreamHeader>, Error>,
)
    requires
        call_ensures(
            ClientTask::<U, B, N>::step,
            (task, ClientInput::Message(ServerMessage::PlayerConnected { player_id }), fresh),
            ClientAction::PlayerConnected { player_id: connected, connection },
        ),
        call_ensures(ProxiedConnection::new, (player_id,), made),
        call_ensures(ProxiedConnection::open_uni, (&connection,), uni),
        call_ensures(ProxiedConnection::open_bi, (&connection,), bi),
        uni matches Ok(head) && received@ == head@ + stream,
        encode_utf8(player_id@).len() + 12 <= 1024,
        call_ensures(
            streams::read_framed::<ClientStreamHeader>,
            (received, streams::HEADER_SIZE_LIMIT),
            read,
        ),
    ensures
        connected@ == player_id@,
        connection@ == made@,
        (uni, bi) matches (Ok(one_way), Ok(both_ways)) && one_way@ == both_ways@,
        match read {
            Ok(streams::Framed::Message(ClientStreamHeader::OpenPlayerStream { player_id: named })) =>
                named@ == player_id@,
            _ => false,
        },
{
    numbers::lemma_byte_bounds();
    let header = ClientStreamHeaderView::OpenPlayerStream { player_id: player_id@ };
    numbers::lemma_le_round_trip(0, 4);
    crate::wire::lemma_text_field(player_id@, Seq::empty());
    law_stream_names_player(player_id@, stream);
}

/// A stream in one direction that a player opened is what the connection to that player accepts: next
/// where nothing waited, and behind what waited before. A game server that was told to wait for it is
/// woken.
pub proof fn law_one_way_stream_is_accepted<U, B, N: Clone>(
    connection: ProxiedConnection,
    player_id: String,
    stream: U,
    fresh: N,
    made: ProxiedConnection,
    accepting: &mut ClientTask<U, B, N>,
    accepted: Taken<U, N>,
    opening: &mut ClientTask<U, B, N>,
    opened: ClientAction<N>,
    accepting_later: &mut ClientTask<U, B, N>,
    accepted_later: Taken<U, N>,
    opening_later: &mut ClientTask<U, B, N>,
    opened_later: ClientAction<N>,
)
    requires
        call_ensures(ProxiedConnection::new, (player_id,), made),
        connection@ == made@,
        call_ensures(
            ProxiedConnection::accept_uni::<U, B, N>,
            (&connection, accepting, fresh),
            accepted,
        ),
        *old(opening) == *old(accepting),
        call_ensures(
            ClientTask::<U, B, N>::step,
            (
                opening,
                ClientInput::UniStream {
                    header: Ok(ServerStreamHeader::PlayerStreamOpened { player_id }),
                    stream,
                },
                fresh,
            ),
            opened,
        ),
        *old(accepting_later) == *final(opening),
        call_ensures(
            ProxiedConnection::accept_uni::<U, B, N>,
            (&connection, accepting_later, fresh),
            accepted_later,
        ),
        *old(opening_later) == *final(accepting),
        call_ensures(
            ClientTask::<U, B, N>::step,
            (
                opening_later,
                ClientInput::UniStream {
                    header: Ok(ServerStreamHeader::PlayerStreamOpened { player_id }),
                    stream,
                },
                fresh,
            ),
            opened_later,
        ),
    ensures
        match accepted {
            Taken::Ready(waiting) => {
                &&& accepted_later == Taken::<U, N>::Ready(waiting)
                &&& final(accepting_later)@ == final(opening_later)@
                &&& final(accepting)@ == (TaskView {
                    uni_streams: final(accepting)@.uni_streams,
                    ..old(accepting)@
                })
            },
            Taken::Wait(notify) => {
                &&& accepted_later == Taken::<U, N>::Ready(stream)
                &&& final(accepting_later)@ == final(accepting)@
                &&& final(accepting)@ == (TaskView {
                    uni_streams: final(accepting)@.uni_streams,
                    ..old(accepting)@
                })
                &&& opened_later matches ClientAction::Wake(woken) && exists|origin: N| #[trigger]
                    cloned(origin, notify) && cloned(origin, woken)
            },
        },
{
    let queues = old(accepting)@.uni_streams;
    let queue = pending::queue_of(queues, player_id@, fresh);
    if queue.queue.len() > 0 {
        assert(queue.queue.push(stream).drop_first() =~= queue.queue.drop_first().push(stream));
        assert(final(accepting_later)@.uni_streams =~= final(opening_later)@.uni_streams);
    } else {
        assert(queue.queue.push(stream).drop_first() =~= queue.queue);
        assert(final(accepting_later)@.uni_streams =~= final(accepting)@.uni_streams);
        if let Taken::Wait(notify) = accepted {
            assert(cloned(queue.notify, notify));
        }
    }
}

/// A stream in both directions that a player opened is what the connection to that player accepts:
/// next where nothing waited, and behind what waited before. A game server that was told to wait for
/// it is woken.
pub proof fn law_two_way_stream_is_accepted<U, B, N: Clone>(
    connection: ProxiedConnection,
    player_id: String,
    streams: B,
    fresh: N,
    made: ProxiedConnection,
    accepting: &mut ClientTask<U, B, N>,
    accepted: Taken<B, N>,
    opening: &mut ClientTask<U, B, N>,
    opened: ClientAction<N>,
    accepting_later: &mut ClientTask<U, B, N>,
    accepted_later: Taken<B, N>,
    opening_later: &mut ClientTask<U, B, N>,
    opened_later: ClientAction<N>,
)
    requires
        call_ensures(ProxiedConnection::new, (player_id,), made),
        connection@ == made@,
        call_ensures(
            ProxiedConnection::accept_bi::<U, B, N>,
            (&connection, accepting, fresh),
            accepted,
        ),
        *old(opening) == *old(accepting),
        call_ensures(
            ClientTask::<U, B, N>::step,
            (
                opening,
                ClientInput::BiStream {
                    header: Ok(ServerStreamHeader::PlayerStreamOpened { player_id }),
                    streams,
                },
                fresh,
            ),
            opened,
        ),
        *old(accepting_later) == *final(opening),
        call_ensures(
            ProxiedConnection::accept_bi::<U, B, N>,
            (&connection, accepting_later, fresh),
            accepted_later,
        ),
        *old(opening_later) == *final(accepting),
        call_ensures(
            ClientTask::<U, B, N>::step,
            (
                opening_later,
                ClientInput::BiStream {
                    header: Ok(ServerStreamHeader::PlayerStreamOpened { player_id }),
                    streams,
                },
                fresh,
            ),
            opened_later,
        ),
    ensures
        match accepted {
            Taken::Ready(waiting) => {
                &&& accepted_later == Taken::<B, N>::Ready(waiting)
                &&& final(accepting_later)@ == final(opening_later)@
                &&& final(accepting)@ == (TaskView {
                    bi_streams: final(accepting)@.bi_streams,
                    ..old(accepting)@
                })
            },
            Taken::Wait(notify) => {
                &&& accepted_later == Taken::<B, N>::Ready(streams)
                &&& final(accepting_later)@ == final(accepting)@
                &&& final(accepting)@ == (TaskView {
                    bi_streams: final(accepting)@.bi_streams,
                    ..old(accepting)@
                })
                &&& opened_later matches ClientAction::Wake(woken) && exists|origin: N| #[trigger]
                    cloned(origin, notify) && cloned(origin, woken)
            },
        },
{
    let queues = old(accepting)@.bi_streams;
    let queue = pending::queue_of(queues, player_id@, fresh);
    if queue.queue.len() > 0 {
        assert(queue.queue.push(streams).drop_first() =~= queue.queue.drop_first().push(streams));
        assert(final(accepting_later)@.bi_streams =~= final(opening_later)@.bi_streams);
    } else {
        assert(queue.queue.push(streams).drop_first() =~= queue.queue);
        assert(final(accepting_later)@.bi_streams =~= final(accepting)@.bi_streams);
        if let Taken::Wait(notify) = accepted {
            assert(cloned(queue.notify, notify));
        }
    }
}

/// The contents of the datagrams that wait for a player.
pub open spec fn waiting_datagrams<U, B, N>(task: TaskView<U, B, N>, player_id: Seq<char>) -> Seq<
    Seq<u8>,
> {
    task.datagrams[player_id].queue.map_values(
        |datagram: ::bytes::Bytes| crate::bytes::contents(datagram),
    )
}

/// A datagram that a player sent is what the connection to that player reads: next where nothing
/// waited, and behind what waited before. What is read is what the player sent, and a game server that
/// was told to wait for it is woken.
pub proof fn law_datagram_of_player_is_read<U, B, N: Clone>(
    player_id: String,
    player: PlayerConnection,
    data: ::bytes::Bytes,
    relayed: PlayerAction,
    sent: ::bytes::Bytes,
    taken_in: bool,
    fresh: N,
    connection: ProxiedConnection,
    reading: &mut ClientTask<U, B, N>,
    read: Taken<::bytes::Bytes, N>,
    arriving: &mut ClientTask<U, B, N>,
    arrived: ClientAction<N>,
    reading_later: &mut ClientTask<U, B, N>,
    read_later: Taken<::bytes::Bytes, N>,
    arriving_later: &mut ClientTask<U, B, N>,
    arrived_later: ClientAction<N>,
)
    requires
        encode_utf8(player_id@).len() + 8 < 0x1_0000_0000,
        call_ensures(PlayerConnection::new, (player_id,), player),
        call_ensures(
            PlayerConnection::step,
            (&player, PlayerInput::Datagram(data)),
            relayed,
        ),
        relayed matches PlayerAction::Send(datagram) ==> datagram == sent,
        call_ensures(crate::bytes::is_prefixed, (&sent,), taken_in),
        call_ensures(ProxiedConnection::new, (player_id,), connection),
        call_ensures(
            ProxiedConnection::read_datagram::<U, B, N>,
            (&connection, reading, fresh),
            read,
        ),
        *old(arriving) == *old(reading),
        call_ensures(
            ClientTask::<U, B, N>::step,
            (arriving, ClientInput::Datagram(sent), fresh),
            arrived,
        ),
        *old(reading_later) == *final(arriving),
        call_ensures(
            ProxiedConnection::read_datagram::<U, B, N>,
            (&connection, reading_later, fresh),
            read_later,
        ),
        *old(arriving_later) == *final(reading),
        call_ensures(
            ClientTask::<U, B, N>::step,
            (arriving_later, ClientInput::Datagram(sent), fresh),
            arrived_later,
        ),
    ensures
        relayed is Send,
        taken_in,
        final(reading)@ == (TaskView { datagrams: final(reading)@.datagrams, ..old(reading)@ }),
        final(arriving)@ == (TaskView { datagrams: final(arriving)@.datagrams, ..old(arriving)@ }),
        match read {
            Taken::Ready(waiting) => {
                &&& read_later == Taken::<::bytes::Bytes, N>::Ready(waiting)
                &&& waiting_datagrams(final(reading_later)@, player_id@) == waiting_datagrams(
                    final(arriving_later)@,
                    player_id@,
                )
            },
            Taken::Wait(notify) => {
                &&& read_later matches Taken::Ready(received) && crate::bytes::contents(received)
                    == crate::bytes::contents(data)
                &&& waiting_datagrams(final(reading_later)@, player_id@).len() == 0
                &&& arrived_later matches ClientAction::Wake(woken) && exists|origin: N| #[trigger]
                    cloned(origin, notify) && cloned(origin, woken)
            },
        },
{
    numbers::lemma_byte_bounds();
    crate::wire::lemma_text_field(player_id@, Seq::empty());
    crate::player::law_datagram_names_player(player_id@, crate::bytes::contents(data));
    let queues = old(reading)@.datagrams;
    let queue = pending::queue_of(queues, player_id@, fresh);
    if queue.queue.len() > 0 {
        assert(waiting_datagrams(final(reading_later)@, player_id@) =~= waiting_datagrams(
            final(arriving_later)@,
            player_id@,
        ));
    } else if let Taken::Wait(notify) = read {
        assert(cloned(queue.notify, notify));
    }
}

/// The same is handed over, or there is nothing to hand over both times.
pub open spec fn same_taken<T, N>(first: Taken<T, N>, second: Taken<T, N>) -> bool {
    match (first, second) {
        (Taken::Ready(first), Taken::Ready(second)) => first == second,
        (Taken::Wait(_), Taken::Wait(_)) => true,
        _ => false,
    }
}

/// What comes in for one player changes nothing for another, and neither does a message of the proxy:
/// the connection to another player accepts and reads what it would have.
pub proof fn law_other_player_is_not_concerned<U, B, N: Clone>(
    task: &mut ClientTask<U, B, N>,
    input: ClientInput<U, B>,
    fresh: N,
    action: ClientAction<N>,
    other: String,
    connection: ProxiedConnection,
    unis: (&mut ClientTask<U, B, N>, &mut ClientTask<U, B, N>),
    uni: (Taken<U, N>, Taken<U, N>),
    bis: (&mut ClientTask<U, B, N>, &mut ClientTask<U, B, N>),
    bi: (Taken<B, N>, Taken<B, N>),
    reads: (&mut ClientTask<U, B, N>, &mut ClientTask<U, B, N>),
    read: (Taken<::bytes::Bytes, N>, Taken<::bytes::Bytes, N>),
)
    requires
        match input {
            ClientInput::UniStream {
                header: Ok(ServerStreamHeader::PlayerStreamOpened { player_id }),
                stream: _,
            } => player_id@ != other@,
            ClientInput::BiStream {
                header: Ok(ServerStreamHeader::PlayerStreamOpened { player_id }),
                streams: _,
            } => player_id@ != other@,
            ClientInput::Datagram(datagram) => proxy::datagram_player(
                crate::bytes::contents(datagram),
            ) != Some(other@),
            _ => true,
        },
        call_ensures(ClientTask::<U, B, N>::step, (task, input, fresh), action),
        call_ensures(ProxiedConnection::new, (other,), connection),
        *unis.0 == *old(task) && *unis.1 == *final(task),
        *bis.0 == *old(task) && *bis.1 == *final(task),
        *reads.0 == *old(task) && *reads.1 == *final(task),
        call_ensures(
            ProxiedConnection::accept_uni::<U, B, N>,
            (&connection, unis.0, fresh),
            uni.0,
        ),
        call_ensures(
            ProxiedConnection::accept_uni::<U, B, N>,
            (&connection, unis.1, fresh),
            uni.1,
        ),
        call_ensures(ProxiedConnection::accept_bi::<U, B, N>, (&connection, bis.0, fresh), bi.0),
        call_ensures(ProxiedConnection::accept_bi::<U, B, N>, (&connection, bis.1, fresh), bi.1),
        call_ensures(
            ProxiedConnection::read_datagram::<U, B, N>,
            (&connection, reads.0, fresh),
            read.0,
        ),
        call_ensures(
            ProxiedConnection::read_datagram::<U, B, N>,
            (&connection, reads.1, fresh),
            read.1,
        ),
    ensures
        same_taken(uni.0, uni.1),
        same_taken(bi.0, bi.1),
        same_taken(read.0, read.1),
{
}

/// Every player is handed out: for the message that a player connected, the game server is told of
/// that player and of nothing else.
pub proof fn law_every_player_is_handed_out<U, B, N: Clone>(
    task: &mut ClientTask<U, B, N>,
    player_id: String,
    fresh: N,
    action: ClientAction<N>,
)
    requires
        call_ensures(
            ClientTask::<U, B, N>::step,
            (task, ClientInput::Message(ServerMessage::PlayerConnected { player_id }), fresh),
            action,
        ),
    ensures
        action matches ClientAction::PlayerConnected { player_id: connected, connection: _ }
            && connected@ == player_id@,
        final(task)@ == old(task)@,
{
}

/// A datagram sent through the connection to a player reaches that player: the proxy finds the
/// player's connection by it, and behind the name of the player is what the game server sent. Where
/// the player is not connected, the proxy says who is unknown.
pub proof fn law_datagram_through_connection<E, P, N: Clone>(
    player_id: String,
    connection: ProxiedConnection,
    data: ::bytes::Bytes,
    sent: Result<::bytes::Bytes, Error>,
    datagram: ::bytes::Bytes,
    taken_in: bool,
    proxy: ProxyServer<E, P, N>,
    named: &str,
    player: Option<&P>,
    res: Result<(&P, ::bytes::Bytes), Error>,
)
    requires
        encode_utf8(player_id@).len() + 8 < 0x1_0000_0000,
        call_ensures(ProxiedConnection::new, (player_id,), connection),
        call_ensures(ProxiedConnection::send_datagram, (&connection, data), sent),
        sent matches Ok(made) ==> made == datagram,
        call_ensures(crate::bytes::is_prefixed, (&datagram,), taken_in),
        named@ == player_id@,
        call_ensures(
            ProxyServer::<E, P, N>::get_player_connection,
            (&proxy, named),
            player,
        ),
        call_ensures(ProxyServer::<E, P, N>::handle_datagram, (&proxy, datagram), res),
    ensures
        sent is Ok,
        taken_in,
        match player {
            Some(player) => res matches Ok((found, received)) && *found == *player
                && crate::bytes::contents(received) == crate::bytes::contents(data),
            None => res matches Err(Error::UnknownPlayer(unknown)) && unknown@ == player_id@,
        },
{
    numbers::lemma_byte_bounds();
    crate::wire::lemma_text_field(player_id@, Seq::empty());
    crate::player::law_datagram_names_player(player_id@, crate::bytes::contents(data));
}

/// What the proxy allocated is what the game server is told: the id, the endpoint for players, the
/// external endpoint, and the place of the assets, unless the game server gave another place for
/// them. From then on the endpoint counts as allocated, and not before.
pub proof fn law_allocation_is_told<A, U, B, N: Clone>(
    project_id: String,
    assets_path: Option<AssetsPath<A>>,
    assets_root_override: Option<String>,
    client: Client<A>,
    started: (ClientTask<U, B, N>, ClientController<A>),
    before: bool,
    task: &mut ClientTask<U, B, N>,
    id: u128,
    allocated_endpoint: String,
    assets_root: String,
    external_endpoint: SocketAddress,
    fresh: N,
    action: ClientAction<N>,
    after: bool,
)
    requires
        call_ensures(
            Client::<A>::new,
            (project_id, assets_path, assets_root_override),
            client,
        ),
        call_ensures(Client::<A>::start::<U, B, N>, (client,), started),
        call_ensures(ClientTask::<U, B, N>::is_endpoint_allocated, (&started.0,), before),
        old(task)@.assets_root_override == started.0@.assets_root_override,
        call_ensures(
            ClientTask::<U, B, N>::step,
            (
                task,
                ClientInput::Message(
                    ServerMessage::Allocation {
                        id,
                        allocated_endpoint,
                        assets_root,
                        external_endpoint,
                    },
                ),
                fresh,
            ),
            action,
        ),
        call_ensures(ClientTask::<U, B, N>::is_endpoint_allocated, (&*final(task),), after),
    ensures
        !before,
        after,
        match action {
            ClientAction::Allocated(endpoint) => {
                &&& endpoint.id == id
                &&& endpoint.allocated_endpoint@ == allocated_endpoint@
                &&& endpoint.external_endpoint@ == external_endpoint@
                &&& endpoint.assets_root@ == match assets_root_override {
                    Some(root) => root@,
                    None => assets_root@,
                }
            },
            _ => false,
        },
{
}

/// An asset that the proxy asks for is loaded under the key that the proxy asks for, by every game
/// server that was given a directory of assets. One that was given none passes the request over.
pub proof fn law_requested_asset_is_loaded<A, U, B, N: Clone>(
    project_id: String,
    assets_path: Option<AssetsPath<A>>,
    assets_root_override: Option<String>,
    client: Client<A>,
    started: (ClientTask<U, B, N>, ClientController<A>),
    task: &mut ClientTask<U, B, N>,
    key: String,
    fresh: N,
    action: ClientAction<N>,
)
    requires
        call_ensures(
            Client::<A>::new,
            (project_id, assets_path, assets_root_override),
            client,
        ),
        call_ensures(Client::<A>::start::<U, B, N>, (client,), started),
        old(task)@.has_assets == started.0@.has_assets,
        call_ensures(
            ClientTask::<U, B, N>::step,
            (task, ClientInput::Message(ServerMessage::RequestAsset { key }), fresh),
            action,
        ),
    ensures
        match action {
            ClientAction::LoadAsset { key: load } => assets_path is Some && load@ == key@,
            ClientAction::Skip(error) => assets_path is None && error == Error::AssetsPathNotSet,
            _ => false,
        },
        final(task)@ == old(task)@,
{
}

/// The task goes on until the connection is closed or there is nothing to wait for: what could not be
/// read is passed over and changes nothing. Where the assets are does not change, and once an endpoint
/// is allocated it stays so.
pub proof fn law_task_goes_on<U, B, N: Clone>(
    task: &mut ClientTask<U, B, N>,
    input: ClientInput<U, B>,
    fresh: N,
    action: ClientAction<N>,
)
    requires
        call_ensures(ClientTask::<U, B, N>::step, (task, input, fresh), action),
    ensures
        action is Stop <==> input is Closed || input is NothingLeft,
        action is Skip || action is Stop ==> final(task)@ == old(task)@,
        final(task)@.has_assets == old(task)@.has_assets,
        final(task)@.assets_root_override == old(task)@.assets_root_override,
        final(task)@.endpoint_allocated == (old(task)@.endpoint_allocated || action is Allocated),
        input matches ClientInput::UniStream { header: Err(error), stream: _ } ==> action
            == ClientAction::<N>::Skip(error),
        input matches ClientInput::BiStream { header: Err(error), streams: _ } ==> action
            == ClientAction::<N>::Skip(error),
{
}

/// The proxy is asked for an endpoint in the name of the project that the game server gave.
pub proof fn law_endpoint_is_asked_for_project<A, U, B, N: Clone>(
    project_id: String,
    assets_path: Option<AssetsPath<A>>,
    assets_root_override: Option<String>,
    client: Client<A>,
    started: (ClientTask<U, B, N>, ClientController<A>),
    controller: ClientController<A>,
    message: ClientMessage,
)
    requires
        call_ensures(
            Client::<A>::new,
            (project_id, assets_path, assets_root_override),
            client,
        ),
        call_ensures(Client::<A>::start::<U, B, N>, (client,), started),
        controller@.project_id == started.1@.project_id,
        call_ensures(ClientController::<A>::allocate_message, (&controller,), message),
    ensures
        message matches ClientMessage::AllocateEndpoint { project_id: asked } && asked@
            == project_id@,
{
}

/// A directory at any depth below the directory of the assets is noted, and is the one to store next;
/// what was noted before stays noted. One that is not below it is refused and changes nothing, and so
/// is every directory where the directory of the assets is not known.
pub proof fn law_directory_inside_is_noted<A>(
    noting: &mut ClientController<A>,
    known: Result<&AssetsPath<A>, Error>,
    directory: A,
    parts: Vec<Vec<u8>>,
    noted: Result<bool, Error>,
    taking: &mut ClientController<A>,
    taken: Option<A>,
)
    requires
        call_ensures(ClientController::<A>::assets_path, (&*old(noting),), known),
        call_ensures(
            ClientController::<A>::pre_cache_assets,
            (noting, directory, &parts),
            noted,
        ),
        *old(taking) == *final(noting),
        call_ensures(ClientController::<A>::next_directory, (taking,), taken),
    ensures
        match known {
            Ok(assets) => if exists|more: Seq<Seq<u8>>|
                paths::parts_of(parts) == #[trigger] (paths::parts_of(assets.parts) + more) {
                &&& noted is Ok
                &&& taken == Some(directory)
                &&& final(taking)@ == (ControllerView {
                    task_running: final(noting)@.task_running,
                    ..old(noting)@
                })
            } else {
                &&& noted == Err::<bool, Error>(Error::OutsideAssets)
                &&& final(noting)@ == old(noting)@
            },
            Err(error) => {
                &&& error == Error::AssetsPathNotSet
                &&& noted == Err::<bool, Error>(error)
                &&& final(noting)@ == old(noting)@
            },
        },
{
    if let Ok(assets) = known {
        paths::lemma_inside(parts, assets.parts);
        assert(old(noting)@.stack.push(directory).drop_last() =~= old(noting)@.stack);
    }
}

/// The task that stores assets ahead of time is started as soon as there is something to store and
/// the proxy was asked for an endpoint, whichever comes last, unless it runs; after it ended it is
/// started again. A request for an endpoint that could not be sent counts for nothing.
pub proof fn law_task_is_started<A>(
    noting: &mut ClientController<A>,
    directory: A,
    parts: Vec<Vec<u8>>,
    noted: bool,
    asking: &mut ClientController<A>,
    sent: bool,
    asked: Result<bool, Error>,
    ending: &mut ClientController<A>,
)
    requires
        call_ensures(
            ClientController::<A>::pre_cache_assets,
            (noting, directory, &parts),
            Ok(noted),
        ),
        call_ensures(ClientController::<A>::allocate_endpoint, (asking, sent), asked),
        call_ensures(ClientController::<A>::finish_task, (ending,), ()),
    ensures
        noted == (old(noting)@.allocation_requested && !old(noting)@.task_running),
        final(noting)@ == (ControllerView {
            stack: final(noting)@.stack,
            task_running: old(noting)@.task_running || noted,
            ..old(noting)@
        }),
        sent ==> {
            &&& asked == Ok::<bool, Error>(
                old(asking)@.stack.len() > 0 && old(asking)@.assets_path is Some
                    && !old(asking)@.task_running,
            )
            &&& final(asking)@ == (ControllerView {
                task_running: old(asking)@.task_running || asked == Ok::<bool, Error>(true),
                allocation_requested: true,
                ..old(asking)@
            })
        },
        !sent ==> asked == Err::<bool, Error>(Error::AllocateNotSent) && final(asking)@ == old(
            asking,
        )@,
        final(ending)@ == (ControllerView { task_running: false, ..old(ending)@ }),
{
}

/// Assets can be stored ahead of time from the first call on: a game server with a directory of
/// assets notes a directory inside it, asks for an endpoint, and the task is started, once. After the
/// task ended, the next directory starts it again.
pub proof fn law_task_runs_after_allocation<A, U, B, N: Clone>(
    project_id: String,
    assets: AssetsPath<A>,
    assets_root_override: Option<String>,
    client: Client<A>,
    started: (ClientTask<U, B, N>, ClientController<A>),
    more: Seq<Seq<u8>>,
    parts: Vec<Vec<u8>>,
    directories: (A, A, A),
    first: &mut ClientController<A>,
    first_noted: Result<bool, Error>,
    asking: &mut ClientController<A>,
    asked: Result<bool, Error>,
    second: &mut ClientController<A>,
    second_noted: Result<bool, Error>,
    ending: &mut ClientController<A>,
    third: &mut ClientController<A>,
    third_noted: Result<bool, Error>,
)
    requires
        call_ensures(
            Client::<A>::new,
            (project_id, Some(assets), assets_root_override),
            client,
        ),
        call_ensures(Client::<A>::start::<U, B, N>, (client,), started),
        paths::parts_of(parts) == paths::parts_of(assets.parts) + more,
        *old(first) == started.1,
        call_ensures(
            ClientController::<A>::pre_cache_assets,
            (first, directories.0, &parts),
            first_noted,
        ),
        *old(asking) == *final(first),
        call_ensures(ClientController::<A>::allocate_endpoint, (asking, true), asked),
        *old(second) == *final(asking),
        call_ensures(
            ClientController::<A>::pre_cache_assets,
            (second, directories.1, &parts),
            second_noted,
        ),
        *old(ending) == *final(second),
        call_ensures(ClientController::<A>::finish_task, (ending,), ()),
        *old(third) == *final(ending),
        call_ensures(
            ClientController::<A>::pre_cache_assets,
            (third, directories.2, &parts),
            third_noted,
        ),
    ensures
        first_noted == Ok::<bool, Error>(false),
        asked == Ok::<bool, Error>(true),
        second_noted == Ok::<bool, Error>(false),
        third_noted == Ok::<bool, Error>(true),
        final(third)@.stack == seq![directories.0, directories.1, directories.2],
{
    paths::lemma_inside(parts, assets.parts);
    assert(final(third)@.stack =~= seq![directories.0, directories.1, directories.2]);
}

/// The task stores what was noted once there is an endpoint, waits while there is none, and ends when
/// the time is up, so that it can be started again.
pub proof fn law_task_waits_for_endpoint<A>(
    controller: &mut ClientController<A>,
    in_time: bool,
    endpoint_allocated: bool,
    step: PreCachingStep,
)
    requires
        call_ensures(
            ClientController::<A>::task_step,
            (controller, in_time, endpoint_allocated),
            step,
        ),
    ensures
        step is Drain <==> in_time && endpoint_allocated,
        step is Wait <==> in_time && !endpoint_allocated,
        step is Finished <==> !in_time,
        final(controller)@ == (ControllerView {
            task_running: in_time && old(controller)@.task_running,
            ..old(controller)@
        }),
{
}

/// A file is stored under the key of its path, or passed over for the reason for which the path has
/// none. A directory in a directory is noted, and is the one to store next; nothing else is noted. The
/// path of the file is given by the pieces between its slashes; it holds no backslash, and no colon
/// behind its first character.
pub proof fn law_entry_is_stored_or_noted<A>(
    draining: &mut ClientController<A>,
    entry: DirectoryEntry<A>,
    action: EntryAction,
    all: Seq<Seq<char>>,
    taking: &mut ClientController<A>,
    taken: Option<A>,
)
    requires
        call_ensures(ClientController::<A>::drain_entry, (draining, entry), action),
        entry matches DirectoryEntry::File { relative: Some(path) } ==> {
            &&& paths::are_pieces_of(all, path@)
            &&& !path@.contains('\\')
            &&& path@.len() >= 2 ==> path@[1] != ':'
        },
        *old(taking) == *final(draining),
        call_ensures(ClientController::<A>::next_directory, (taking,), taken),
    ensures
        match entry {
            DirectoryEntry::File { relative: Some(path) } => {
                &&& final(draining)@ == old(draining)@
                &&& match action {
                    EntryAction::Store { key } => paths::is_result_of_pieces(Ok(key), all),
                    EntryAction::Skip(error) => paths::is_result_of_pieces(Err(error), all),
                    _ => false,
                }
            },
            DirectoryEntry::File { relative: None } => {
                &&& final(draining)@ == old(draining)@
                &&& action == EntryAction::Skip(Error::PathNotText)
            },
            DirectoryEntry::Outside => {
                &&& final(draining)@ == old(draining)@
                &&& action == EntryAction::Skip(Error::OutsideAssets)
            },
            DirectoryEntry::Directory(directory) => {
                &&& action is Noted
                &&& taken == Some(directory)
                &&& final(taking)@ == old(draining)@
            },
            DirectoryEntry::Other => {
                &&& final(draining)@ == old(draining)@
                &&& action is Ignore
            },
        },
{
    match entry {
        DirectoryEntry::File { relative: Some(path) } => {
            match action {
                EntryAction::Store { key } => {
                    paths::lemma_result_of_pieces(Ok(key), all, path@);
                },
                EntryAction::Skip(error) => {
                    paths::lemma_result_of_pieces(Err(error), all, path@);
                },
                _ => {},
            }
        },
        DirectoryEntry::Directory(directory) => {
            assert(old(draining)@.stack.push(directory).drop_last() =~= old(draining)@.stack);
        },
        _ => {},
    }
}

/// How to connect is decided by what was given. A proxy that is given as a URL, of either scheme, is
/// the service to ask, in the name of the user agent that was given or else of the usual one; any
/// other is the proxy to connect to, as it was given. Without a source of assets, or without a proxy,
/// there is no way to connect.
pub proof fn law_connect_as_was_asked<E, A>(
    builder: Builder<E, A>,
    default_user_agent: &str,
    rest: Seq<char>,
    res: Result<BuildStep, Error>,
)
    requires
        call_ensures(Builder::<E, A>::build, (&builder, default_user_agent), res),
    ensures
        builder.assets_path is None && builder.assets_root_override is None ==> res == Err::<
            BuildStep,
            Error,
        >(Error::NoAssetsSource),
        builder.assets_path is Some || builder.assets_root_override is Some ==> match (
            builder.proxy_server,
            res,
        ) {
            (None, Err(error)) => error == Error::NoProxyServer,
            (Some(server), Ok(BuildStep::Fetch { url, user_agent })) => {
                &&& url@ == server@
                &&& user_agent@ == match builder.user_agent {
                    Some(given) => given@,
                    None => default_user_agent@,
                }
            },
            (Some(server), Ok(BuildStep::Connect { proxy_server })) => proxy_server@ == server@,
            _ => false,
        },
        match (builder.proxy_server, res) {
            (Some(server), Ok(BuildStep::Connect { .. })) => server@ != "http://"@ + rest
                && server@ != "https://"@ + rest,
            (Some(server), Ok(BuildStep::Fetch { .. })) => {
                ||| exists|behind: Seq<char>| server@ == #[trigger] ("http://"@ + behind)
                ||| exists|behind: Seq<char>| server@ == #[trigger] ("https://"@ + behind)
            },
            _ => true,
        },
{
    if let Some(server) = builder.proxy_server {
        let server = server@;
        let plain = "http://"@;
        let secure = "https://"@;
        assert((plain + rest).subrange(0, plain.len() as int) =~= plain);
        assert((secure + rest).subrange(0, secure.len() as int) =~= secure);
        if plain.is_prefix_of(server) {
            assert(server =~= plain + server.skip(plain.len() as int));
        } else if secure.is_prefix_of(server) {
            assert(server =~= secure + server.skip(secure.len() as int));
        }
    }
}

/// The proxy to connect to is what the service answered, without white space around it. An answer of
/// nothing but white space names no proxy.
pub proof fn law_answer_names_proxy<E, A>(answer: &str, res: Result<BuildStep, Error>)
    requires
        call_ensures(Builder::<E, A>::fetched, (answer,), res),
    ensures
        match res {
            Ok(BuildStep::Connect { proxy_server }) => proxy_server@.len() > 0
                && text::is_trimmed_of(proxy_server@, answer@),
            Ok(BuildStep::Fetch { .. }) => false,
            Err(error) => error == Error::NoProxyServerToUse && text::is_trimmed_of(
                Seq::<char>::empty(),
                answer@,
            ),
        },
{
    text::lemma_trimmed(answer@);
    if res is Err {
        assert(text::trim_end(text::trim_start(answer@)) =~= Seq::<char>::empty());
    }
}

/// A builder keeps what it was given, each thing until another is given in its place.
pub proof fn law_builder_keeps_what_it_was_given<E, A>(
    empty: Builder<E, A>,
    endpoint: E,
    with_endpoint: Builder<E, A>,
    proxy_server: String,
    with_proxy: Builder<E, A>,
    project_id: String,
    with_project: Builder<E, A>,
    assets_path: A,
    with_path: Builder<E, A>,
    root: String,
    with_root: Builder<E, A>,
    user_agent: String,
    complete: Builder<E, A>,
)
    requires
        call_ensures(builder::<E, A>, (), empty),
        call_ensures(Builder::<E, A>::endpoint, (empty, endpoint), with_endpoint),
        call_ensures(Builder::<E, A>::proxy_server, (with_endpoint, proxy_server), with_proxy),
        call_ensures(Builder::<E, A>::project_id, (with_proxy, project_id), with_project),
        call_ensures(Builder::<E, A>::assets_path, (with_project, assets_path), with_path),
        call_ensures(Builder::<E, A>::assets_root_override, (with_path, root), with_root),
        call_ensures(Builder::<E, A>::user_agent, (with_root, user_agent), complete),
    ensures
        empty.endpoint is None && empty.proxy_server is None && empty.project_id@.len() == 0,
        empty.assets_path is None && empty.assets_root_override is None,
        empty.user_agent is None,
        complete == (Builder {
            endpoint: Some(endpoint),
            proxy_server: Some(proxy_server),
            project_id,
            assets_path: Some(assets_path),
            assets_root_override: Some(root),
            user_agent: Some(user_agent),
        }),
{
}

/// A datagram whose header is no header is passed over for that, and changes nothing.
pub proof fn law_bad_datagram_is_passed_over<U, B, N: Clone>(
    task: &mut ClientTask<U, B, N>,
    datagram: ::bytes::Bytes,
    taken: Result<(DatagramInfo, ::bytes::Bytes), Error>,
    fresh: N,
    action: ClientAction<N>,
)
    requires
        call_ensures(crate::bytes::drop_prefix::<DatagramInfo>, (datagram,), taken),
        call_ensures(
            ClientTask::<U, B, N>::step,
            (task, ClientInput::Datagram(datagram), fresh),
            action,
        ),
    ensures
        match taken {
            Ok(_) => action is Wake,
            Err(reason) => action == ClientAction::<N>::Skip(reason) && final(task)@ == old(task)@,
        },
{
}

} // verus!
