//! The messages that the game server and the proxy exchange, and how each of them is written.
//!
//! A message that comes in several kinds starts with the number of its kind, counted from zero in
//! the order in which the kinds are declared, as a `u32` field. Its fields follow in the order in
//! which they are declared.
use vstd::prelude::*;
use vstd::utf8::*;

use crate::error::Error;
use crate::numbers;
use crate::wire;
use crate::wire::WireMessage;

verus! {

/// The compression of an asset that is sent as it is.
pub const NO_COMPRESSION: &'static str = "";

/// The compression of an asset that is sent as a gzip member.
pub const GZIP_COMPRESSION: &'static str = "gzip";

/// The name of the protocol between a game server and the proxy.
pub const MANAGEMENT_PROTOCOL: &'static str = "ambient-proxy-03";

/// The name of the protocol between a player and the proxy.
pub const PLAYER_PROTOCOL: &'static str = "ambient-02";

/// The number of seconds after which a silent connection is given up.
pub const IDLE_TIMEOUT_SECONDS: u64 = 5;

/// An IP address.
#[derive(Clone, Copy, Debug, PartialEq, Eq)]
pub enum IpAddress {
    V4([u8; 4]),
    V6([u8; 16]),
}

/// An IP address and a port.
#[derive(Clone, Copy, Debug, PartialEq, Eq)]
pub struct SocketAddress {
    pub ip: IpAddress,
    pub port: u16,
}

/// An IP address and a port, with the octets of the address in order.
pub struct SocketAddressView {
    pub is_v6: bool,
    pub octets: Seq<u8>,
    pub port: u16,
}

impl View for SocketAddress {
    type V = SocketAddressView;

    open spec fn view(&self) -> SocketAddressView {
        match self.ip {
            IpAddress::V4(octets) => SocketAddressView {
                is_v6: false,
                octets: octets@,
                port: self.port,
            },
            IpAddress::V6(octets) => SocketAddressView {
                is_v6: true,
                octets: octets@,
                port: self.port,
            },
        }
    }
}

impl SocketAddressView {
    /// The number of octets is that of the kind of address.
    pub open spec fn well_formed(self) -> bool {
        self.octets.len() == if self.is_v6 {
            16nat
        } else {
            4
        }
    }
}

/// An address as a field: its kind, its octets, its port.
pub open spec fn address_field(address: SocketAddressView) -> Seq<u8> {
    numbers::le_bytes(
        if address.is_v6 {
            1
        } else {
            0
        },
        4,
    ) + address.octets + numbers::le_bytes(address.port as nat, 2)
}

/// The address in the field at the start of `bytes`, where there is one.
pub open spec fn read_address(bytes: Seq<u8>) -> Option<SocketAddressView> {
    match wire::read_number(bytes, 4) {
        Some(kind) => if kind > 1 {
            None
        } else {
            let width: int = if kind == 1 {
                16
            } else {
                4
            };
            if bytes.len() < 4 + width {
                None
            } else {
                match wire::read_number(bytes.skip(4 + width), 2) {
                    Some(port) => Some(
                        SocketAddressView {
                            is_v6: kind == 1,
                            octets: bytes.subrange(4, 4 + width),
                            port: port as u16,
                        },
                    ),
                    None => None,
                }
            }
        },
        None => None,
    }
}

/// Appends an address field.
fn push_address(out: &mut Vec<u8>, address: &SocketAddress) -> (res: Result<(), Error>)
    ensures
        res is Ok,
        address@.well_formed(),
        final(out)@ == old(out)@ + address_field(address@),
{
    match &address.ip {
        IpAddress::V4(octets) => {
            wire::push_u32(out, 0)?;
            numbers::push_bytes(out, octets);
        },
        IpAddress::V6(octets) => {
            wire::push_u32(out, 1)?;
            numbers::push_bytes(out, octets);
        },
    }
    wire::push_u16(out, address.port)?;
    assert(out@ =~= old(out)@ + address_field(address@));
    Ok(())
}

/// Reads the address field that starts at `at`.
fn take_address(bytes: &[u8], at: usize) -> (res: Result<SocketAddress, Error>)
    requires
        at <= bytes@.len(),
    ensures
        match res {
            Ok(address) => read_address(bytes@.skip(at as int)) == Some(address@),
            Err(error) => read_address(bytes@.skip(at as int)) is None && error
                == Error::BadMsgFormat,
        },
{
    let ghost rest = bytes@.skip(at as int);
    let mut pos: usize = at;
    let kind = wire::take_u32(bytes, &mut pos)?;
    if kind == 0 {
        if bytes.len() - pos < 4 {
            return Err(Error::BadMsgFormat);
        }
        let octets: [u8; 4] = [bytes[pos], bytes[pos + 1], bytes[pos + 2], bytes[pos + 3]];
        assert(octets@ =~= rest.subrange(4, 8));
        pos = pos + 4;
        assert(bytes@.skip(pos as int) =~= rest.skip(8));
        let port = wire::take_u16(bytes, &mut pos)?;
        Ok(SocketAddress { ip: IpAddress::V4(octets), port })
    } else if kind == 1 {
        if bytes.len() - pos < 16 {
            return Err(Error::BadMsgFormat);
        }
        let octets: [u8; 16] = [
            bytes[pos],
            bytes[pos + 1],
            bytes[pos + 2],
            bytes[pos + 3],
            bytes[pos + 4],
            bytes[pos + 5],
            bytes[pos + 6],
            bytes[pos + 7],
            bytes[pos + 8],
            bytes[pos + 9],
            bytes[pos + 10],
            bytes[pos + 11],
            bytes[pos + 12],
            bytes[pos + 13],
            bytes[pos + 14],
            bytes[pos + 15],
        ];
        assert(octets@ =~= rest.subrange(4, 20));
        pos = pos + 16;
        assert(bytes@.skip(pos as int) =~= rest.skip(20));
        let port = wire::take_u16(bytes, &mut pos)?;
        Ok(SocketAddress { ip: IpAddress::V6(octets), port })
    } else {
        Err(Error::BadMsgFormat)
    }
}

/// An address field is read back, whatever follows it.
pub proof fn lemma_address_field(address: SocketAddressView, rest: Seq<u8>)
    requires
        address.well_formed(),
    ensures
        read_address(address_field(address) + rest) == Some(address),
{
    numbers::lemma_byte_bounds();
    let kind: nat = if address.is_v6 {
        1
    } else {
        0
    };
    let bytes = address_field(address) + rest;
    let port = numbers::le_bytes(address.port as nat, 2);
    wire::lemma_number_field(kind, 4, address.octets + port + rest);
    assert(bytes =~= numbers::le_bytes(kind, 4) + (address.octets + port + rest));
    assert(bytes.subrange(4, 4 + address.octets.len() as int) =~= address.octets);
    assert(bytes.skip(4 + address.octets.len() as int) =~= port + rest);
    wire::lemma_number_field(address.port as nat, 2, rest);
}

/// Messages sent from the proxy to the game server.
#[derive(Clone, Debug, PartialEq, Eq)]
pub enum ServerMessage {
    Allocation {
        /// Id of this allocation.
        id: u128,
        /// The endpoint that the players should use to connect to the server via the proxy.
        allocated_endpoint: String,
        /// HTTP root for downloading assets.
        assets_root: String,
        /// The endpoint that the players could try to connect to the server directly.
        external_endpoint: SocketAddress,
    },
    PlayerConnected { player_id: String },
    RequestAsset { key: String },
}

/// A `ServerMessage` with its texts as sequences of characters.
pub enum ServerMessageView {
    Allocation {
        id: u128,
        allocated_endpoint: Seq<char>,
        assets_root: Seq<char>,
        external_endpoint: SocketAddressView,
    },
    PlayerConnected { player_id: Seq<char> },
    RequestAsset { key: Seq<char> },
}

impl View for ServerMessage {
    type V = ServerMessageView;

    open spec fn view(&self) -> ServerMessageView {
        match *self {
            ServerMessage::Allocation { id, allocated_endpoint, assets_root, external_endpoint } =>
                ServerMessageView::Allocation {
                id,
                allocated_endpoint: allocated_endpoint@,
                assets_root: assets_root@,
                external_endpoint: external_endpoint@,
            },
            ServerMessage::PlayerConnected { player_id } => ServerMessageView::PlayerConnected {
                player_id: player_id@,
            },
            ServerMessage::RequestAsset { key } => ServerMessageView::RequestAsset { key: key@ },
        }
    }
}

/// The fields of an allocation.
pub open spec fn allocation_fields(
    id: u128,
    allocated_endpoint: Seq<char>,
    assets_root: Seq<char>,
    external_endpoint: SocketAddressView,
) -> Seq<u8> {
    wire::id_field(id) + (wire::text_field(allocated_endpoint) + (wire::text_field(assets_root)
        + address_field(external_endpoint)))
}

/// The fields of an allocation are read back, whatever follows them.
#[verifier::spinoff_prover]
proof fn lemma_allocation_fields(
    id: u128,
    allocated_endpoint: Seq<char>,
    assets_root: Seq<char>,
    external_endpoint: SocketAddressView,
    rest: Seq<u8>,
)
    requires
        wire::text_fits(allocated_endpoint),
        wire::text_fits(assets_root),
        external_endpoint.well_formed(),
    ensures
        read_allocation(
            allocation_fields(id, allocated_endpoint, assets_root, external_endpoint) + rest,
        ) == Some(
            ServerMessageView::Allocation { id, allocated_endpoint, assets_root, external_endpoint },
        ),
{
    let endpoint = wire::text_field(allocated_endpoint);
    let root = wire::text_field(assets_root);
    let address = address_field(external_endpoint);
    let fields = allocation_fields(id, allocated_endpoint, assets_root, external_endpoint) + rest;
    wire::lemma_id_field(id, endpoint + (root + (address + rest)));
    numbers::lemma_concat_four(wire::id_field(id), endpoint, root, address, rest);
    wire::lemma_text_field(allocated_endpoint, root + (address + rest));
    wire::lemma_text_field(assets_root, address + rest);
    lemma_address_field(external_endpoint, rest);
}

/// The allocation at the start of `bytes`, behind the number of its kind.
pub open spec fn read_allocation(bytes: Seq<u8>) -> Option<ServerMessageView> {
    let endpoint_at = 24int;
    let root_at = endpoint_at + wire::text_field_len(bytes.skip(endpoint_at));
    let address_at = root_at + wire::text_field_len(bytes.skip(root_at));
    match (
        wire::read_id(bytes),
        wire::read_text(bytes.skip(endpoint_at)),
        wire::read_text(bytes.skip(root_at)),
        read_address(bytes.skip(address_at)),
    ) {
        (Some(id), Some(allocated_endpoint), Some(assets_root), Some(external_endpoint)) => Some(
            ServerMessageView::Allocation { id, allocated_endpoint, assets_root, external_endpoint },
        ),
        _ => None,
    }
}

impl WireMessage for ServerMessage {
    open spec fn wire(message: ServerMessageView) -> Seq<u8> {
        match message {
            ServerMessageView::Allocation {
                id,
                allocated_endpoint,
                assets_root,
                external_endpoint,
            } => numbers::le_bytes(0, 4) + allocation_fields(
                id,
                allocated_endpoint,
                assets_root,
                external_endpoint,
            ),
            ServerMessageView::PlayerConnected { player_id } => numbers::le_bytes(1, 4)
                + wire::text_field(player_id),
            ServerMessageView::RequestAsset { key } => numbers::le_bytes(2, 4) + wire::text_field(
                key,
            ),
        }
    }

    open spec fn unwire(bytes: Seq<u8>) -> Option<ServerMessageView> {
        match wire::read_number(bytes, 4) {
            Some(kind) => if kind == 0 {
                read_allocation(bytes.skip(4))
            } else if kind == 1 {
                match wire::read_text(bytes.skip(4)) {
                    Some(player_id) => Some(ServerMessageView::PlayerConnected { player_id }),
                    None => None,
                }
            } else if kind == 2 {
                match wire::read_text(bytes.skip(4)) {
                    Some(key) => Some(ServerMessageView::RequestAsset { key }),
                    None => None,
                }
            } else {
                None
            },
            None => None,
        }
    }

    open spec fn fits(message: ServerMessageView) -> bool {
        match message {
            ServerMessageView::Allocation {
                id,
                allocated_endpoint,
                assets_root,
                external_endpoint,
            } => wire::text_fits(allocated_endpoint) && wire::text_fits(assets_root)
                && external_endpoint.well_formed(),
            ServerMessageView::PlayerConnected { player_id } => wire::text_fits(player_id),
            ServerMessageView::RequestAsset { key } => wire::text_fits(key),
        }
    }

    fn to_bytes(&self) -> (res: Result<Vec<u8>, Error>) {
        let mut out: Vec<u8> = Vec::new();
        match self {
            ServerMessage::Allocation { id, allocated_endpoint, assets_root, external_endpoint } => {
                wire::push_u32(&mut out, 0)?;
                wire::push_id(&mut out, *id)?;
                wire::push_text(&mut out, allocated_endpoint.as_str())?;
                wire::push_text(&mut out, assets_root.as_str())?;
                push_address(&mut out, external_endpoint)?;
            },
            ServerMessage::PlayerConnected { player_id } => {
                wire::push_u32(&mut out, 1)?;
                wire::push_text(&mut out, player_id.as_str())?;
            },
            ServerMessage::RequestAsset { key } => {
                wire::push_u32(&mut out, 2)?;
                wire::push_text(&mut out, key.as_str())?;
            },
        }
        assert(out@ =~= Self::wire(self@));
        Ok(out)
    }

    fn from_bytes(bytes: &[u8]) -> (res: Result<Self, Error>) {
        let mut at: usize = 0;
        assert(bytes@.skip(0) =~= bytes@);
        let kind = wire::take_u32(bytes, &mut at)?;
        if kind == 0 {
            let ghost rest = bytes@.skip(4);
            let id = wire::take_id(bytes, &mut at)?;
            assert(bytes@.skip(at as int) =~= rest.skip(24));
            let allocated_endpoint = wire::take_text(bytes, &mut at)?;
            let ghost root_at = 24 + wire::text_field_len(rest.skip(24));
            assert(bytes@.skip(at as int) =~= rest.skip(root_at as int));
            let assets_root = wire::take_text(bytes, &mut at)?;
            let ghost address_at = root_at + wire::text_field_len(rest.skip(root_at as int));
            assert(bytes@.skip(at as int) =~= rest.skip(address_at as int));
            let external_endpoint = take_address(bytes, at)?;
            Ok(
                ServerMessage::Allocation {
                    id,
                    allocated_endpoint,
                    assets_root,
                    external_endpoint,
                },
            )
        } else if kind == 1 {
            let player_id = wire::take_text(bytes, &mut at)?;
            Ok(ServerMessage::PlayerConnected { player_id })
        } else if kind == 2 {
            let key = wire::take_text(bytes, &mut at)?;
            Ok(ServerMessage::RequestAsset { key })
        } else {
            Err(Error::BadMsgFormat)
        }
    }

    proof fn lemma_round_trip(message: ServerMessageView, rest: Seq<u8>) {
        numbers::lemma_byte_bounds();
        let bytes = Self::wire(message) + rest;
        match message {
            ServerMessageView::Allocation {
                id,
                allocated_endpoint,
                assets_root,
                external_endpoint,
            } => {
                let fields = allocation_fields(
                    id,
                    allocated_endpoint,
                    assets_root,
                    external_endpoint,
                ) + rest;
                wire::lemma_number_field(0, 4, fields);
                assert(bytes =~= numbers::le_bytes(0, 4) + fields);
                assert(bytes.skip(4) =~= fields);
                lemma_allocation_fields(
                    id,
                    allocated_endpoint,
                    assets_root,
                    external_endpoint,
                    rest,
                );
            },
            ServerMessageView::PlayerConnected { player_id } => {
                wire::lemma_number_field(1, 4, wire::text_field(player_id) + rest);
                assert(bytes =~= numbers::le_bytes(1, 4) + (wire::text_field(player_id) + rest));
                assert(bytes.skip(4) =~= wire::text_field(player_id) + rest);
                wire::lemma_text_field(player_id, rest);
            },
            ServerMessageView::RequestAsset { key } => {
                wire::lemma_number_field(2, 4, wire::text_field(key) + rest);
                assert(bytes =~= numbers::le_bytes(2, 4) + (wire::text_field(key) + rest));
                assert(bytes.skip(4) =~= wire::text_field(key) + rest);
                wire::lemma_text_field(key, rest);
            },
        }
    }
}

/// Headers of streams from the proxy to the game server.
#[derive(Clone, Debug, PartialEq, Eq)]
pub enum ServerStreamHeader {
    /// A player opened a stream to the server.
    PlayerStreamOpened { player_id: String },
}

/// A `ServerStreamHeader` with its text as a sequence of characters.
pub enum ServerStreamHeaderView {
    PlayerStreamOpened { player_id: Seq<char> },
}

impl View for ServerStreamHeader {
    type V = ServerStreamHeaderView;

    open spec fn view(&self) -> ServerStreamHeaderView {
        match *self {
            ServerStreamHeader::PlayerStreamOpened { player_id } =>
                ServerStreamHeaderView::PlayerStreamOpened { player_id: player_id@ },
        }
    }
}

/// The text of a message whose only kind has a single text.
pub open spec fn read_only_text(bytes: Seq<u8>) -> Option<Seq<char>> {
    match wire::read_number(bytes, 4) {
        Some(kind) => if kind == 0 {
            wire::read_text(bytes.skip(4))
        } else {
            None
        },
        None => None,
    }
}

/// Writes a message whose only kind has a single text.
fn only_text_to_bytes(text: &str) -> (res: Result<Vec<u8>, Error>)
    ensures
        match res {
            Ok(bytes) => bytes@ == numbers::le_bytes(0, 4) + wire::text_field(text@),
            Err(_) => false,
        },
        wire::text_fits(text@),
{
    let mut out: Vec<u8> = Vec::new();
    wire::push_u32(&mut out, 0)?;
    wire::push_text(&mut out, text)?;
    assert(out@ =~= numbers::le_bytes(0, 4) + wire::text_field(text@));
    Ok(out)
}

/// Reads a message whose only kind has a single text.
fn only_text_from_bytes(bytes: &[u8]) -> (res: Result<String, Error>)
    ensures
        match res {
            Ok(text) => read_only_text(bytes@) == Some(text@),
            Err(error) => read_only_text(bytes@) is None && error == Error::BadMsgFormat,
        },
{
    let mut at: usize = 0;
    assert(bytes@.skip(0) =~= bytes@);
    let kind = wire::take_u32(bytes, &mut at)?;
    if kind == 0 {
        wire::take_text(bytes, &mut at)
    } else {
        Err(Error::BadMsgFormat)
    }
}

/// The text of such a message is read back, whatever follows it.
proof fn lemma_only_text(text: Seq<char>, rest: Seq<u8>)
    requires
        wire::text_fits(text),
    ensures
        read_only_text(numbers::le_bytes(0, 4) + wire::text_field(text) + rest) == Some(text),
{
    numbers::lemma_byte_bounds();
    let bytes = numbers::le_bytes(0, 4) + wire::text_field(text) + rest;
    wire::lemma_number_field(0, 4, wire::text_field(text) + rest);
    assert(bytes =~= numbers::le_bytes(0, 4) + (wire::text_field(text) + rest));
    assert(bytes.skip(4) =~= wire::text_field(text) + rest);
    wire::lemma_text_field(text, rest);
}

impl WireMessage for ServerStreamHeader {
    open spec fn wire(message: ServerStreamHeaderView) -> Seq<u8> {
        match message {
            ServerStreamHeaderView::PlayerStreamOpened { player_id } => numbers::le_bytes(0, 4)
                + wire::text_field(player_id),
        }
    }

    open spec fn unwire(bytes: Seq<u8>) -> Option<ServerStreamHeaderView> {
        match read_only_text(bytes) {
            Some(player_id) => Some(ServerStreamHeaderView::PlayerStreamOpened { player_id }),
            None => None,
        }
    }

    open spec fn fits(message: ServerStreamHeaderView) -> bool {
        match message {
            ServerStreamHeaderView::PlayerStreamOpened { player_id } => wire::text_fits(player_id),
        }
    }

    fn to_bytes(&self) -> (res: Result<Vec<u8>, Error>) {
        match self {
            ServerStreamHeader::PlayerStreamOpened { player_id } => only_text_to_bytes(
                player_id.as_str(),
            ),
        }
    }

    fn from_bytes(bytes: &[u8]) -> (res: Result<Self, Error>) {
        let player_id = only_text_from_bytes(bytes)?;
        Ok(ServerStreamHeader::PlayerStreamOpened { player_id })
    }

    proof fn lemma_round_trip(message: ServerStreamHeaderView, rest: Seq<u8>) {
        match message {
            ServerStreamHeaderView::PlayerStreamOpened { player_id } => {
                lemma_only_text(player_id, rest);
            },
        }
    }
}

/// Messages sent from the game server to the proxy.
#[derive(Clone, Debug, PartialEq, Eq)]
pub enum ClientMessage {
    AllocateEndpoint { project_id: String },
}

/// A `ClientMessage` with its text as a sequence of characters.
pub enum ClientMessageView {
    AllocateEndpoint { project_id: Seq<char> },
}

impl View for ClientMessage {
    type V = ClientMessageView;

    open spec fn view(&self) -> ClientMessageView {
        match *self {
            ClientMessage::AllocateEndpoint { project_id } => ClientMessageView::AllocateEndpoint {
                project_id: project_id@,
            },
        }
    }
}

impl WireMessage for ClientMessage {
    open spec fn wire(message: ClientMessageView) -> Seq<u8> {
        match message {
            ClientMessageView::AllocateEndpoint { project_id } => numbers::le_bytes(0, 4)
                + wire::text_field(project_id),
        }
    }

    open spec fn unwire(bytes: Seq<u8>) -> Option<ClientMessageView> {
        match read_only_text(bytes) {
            Some(project_id) => Some(ClientMessageView::AllocateEndpoint { project_id }),
            None => None,
        }
    }

    open spec fn fits(message: ClientMessageView) -> bool {
        match message {
            ClientMessageView::AllocateEndpoint { project_id } => wire::text_fits(project_id),
        }
    }

    fn to_bytes(&self) -> (res: Result<Vec<u8>, Error>) {
        match self {
            ClientMessage::AllocateEndpoint { project_id } => only_text_to_bytes(
                project_id.as_str(),
            ),
        }
    }

    fn from_bytes(bytes: &[u8]) -> (res: Result<Self, Error>) {
        let project_id = only_text_from_bytes(bytes)?;
        Ok(ClientMessage::AllocateEndpoint { project_id })
    }

    proof fn lemma_round_trip(message: ClientMessageView, rest: Seq<u8>) {
        match message {
            ClientMessageView::AllocateEndpoint { project_id } => {
                lemma_only_text(project_id, rest);
            },
        }
    }
}

/// Headers of streams from the game server to the proxy.
#[derive(Clone, Debug, PartialEq, Eq)]
pub enum ClientStreamHeader {
    /// Open a stream to the selected player.
    OpenPlayerStream { player_id: String },
    /// Store an asset, whose `length` bytes follow.
    StoreAsset { key: String, length: u32, compression: String },
}

/// A `ClientStreamHeader` with its texts as sequences of characters.
pub enum ClientStreamHeaderView {
    OpenPlayerStream { player_id: Seq<char> },
    StoreAsset { key: Seq<char>, length: u32, compression: Seq<char> },
}

impl View for ClientStreamHeader {
    type V = ClientStreamHeaderView;

    open spec fn view(&self) -> ClientStreamHeaderView {
        match *self {
            ClientStreamHeader::OpenPlayerStream { player_id } =>
                ClientStreamHeaderView::OpenPlayerStream { player_id: player_id@ },
            ClientStreamHeader::StoreAsset { key, length, compression } =>
                ClientStreamHeaderView::StoreAsset {
                key: key@,
                length,
                compression: compression@,
            },
        }
    }
}

/// The fields of a request to store an asset.
pub open spec fn store_asset_fields(key: Seq<char>, length: u32, compression: Seq<char>) -> Seq<
    u8,
> {
    wire::text_field(key) + (numbers::le_bytes(length as nat, 4) + wire::text_field(compression))
}

/// The request to store an asset at the start of `bytes`, behind the number of its kind.
pub open spec fn read_store_asset(bytes: Seq<u8>) -> Option<ClientStreamHeaderView> {
    let length_at = wire::text_field_len(bytes) as int;
    match (
        wire::read_text(bytes),
        wire::read_number(bytes.skip(length_at), 4),
        wire::read_text(bytes.skip(length_at + 4)),
    ) {
        (Some(key), Some(length), Some(compression)) => Some(
            ClientStreamHeaderView::StoreAsset { key, length: length as u32, compression },
        ),
        _ => None,
    }
}

/// The fields of a request to store an asset are read back, whatever follows them.
proof fn lemma_store_asset_fields(
    key: Seq<char>,
    length: u32,
    compression: Seq<char>,
    rest: Seq<u8>,
)
    requires
        wire::text_fits(key),
        wire::text_fits(compression),
    ensures
        read_store_asset(store_asset_fields(key, length, compression) + rest) == Some(
            ClientStreamHeaderView::StoreAsset { key, length, compression },
        ),
{
    numbers::lemma_byte_bounds();
    let behind_length = wire::text_field(compression) + rest;
    let behind_key = numbers::le_bytes(length as nat, 4) + behind_length;
    let fields = store_asset_fields(key, length, compression) + rest;
    let length_at = wire::text_field(key).len() as int;
    wire::lemma_text_field(key, behind_key);
    assert(fields =~= wire::text_field(key) + behind_key);
    assert(fields.skip(length_at) =~= behind_key);
    wire::lemma_number_field(length as nat, 4, behind_length);
    assert(fields.skip(length_at + 4) =~= behind_length);
    wire::lemma_text_field(compression, rest);
}

impl WireMessage for ClientStreamHeader {
    open spec fn wire(message: ClientStreamHeaderView) -> Seq<u8> {
        match message {
            ClientStreamHeaderView::OpenPlayerStream { player_id } => numbers::le_bytes(0, 4)
                + wire::text_field(player_id),
            ClientStreamHeaderView::StoreAsset { key, length, compression } => numbers::le_bytes(
                1,
                4,
            ) + store_asset_fields(key, length, compression),
        }
    }

    open spec fn unwire(bytes: Seq<u8>) -> Option<ClientStreamHeaderView> {
        match wire::read_number(bytes, 4) {
            Some(kind) => if kind == 0 {
                match wire::read_text(bytes.skip(4)) {
                    Some(player_id) => Some(ClientStreamHeaderView::OpenPlayerStream { player_id }),
                    None => None,
                }
            } else if kind == 1 {
                read_store_asset(bytes.skip(4))
            } else {
                None
            },
            None => None,
        }
    }

    open spec fn fits(message: ClientStreamHeaderView) -> bool {
        match message {
            ClientStreamHeaderView::OpenPlayerStream { player_id } => wire::text_fits(player_id),
            ClientStreamHeaderView::StoreAsset { key, length, compression } => wire::text_fits(key)
                && wire::text_fits(compression),
        }
    }

    fn to_bytes(&self) -> (res: Result<Vec<u8>, Error>) {
        let mut out: Vec<u8> = Vec::new();
        match self {
            ClientStreamHeader::OpenPlayerStream { player_id } => {
                wire::push_u32(&mut out, 0)?;
                wire::push_text(&mut out, player_id.as_str())?;
            },
            ClientStreamHeader::StoreAsset { key, length, compression } => {
                wire::push_u32(&mut out, 1)?;
                wire::push_text(&mut out, key.as_str())?;
                wire::push_u32(&mut out, *length)?;
                wire::push_text(&mut out, compression.as_str())?;
            },
        }
        assert(out@ =~= Self::wire(self@));
        Ok(out)
    }

    fn from_bytes(bytes: &[u8]) -> (res: Result<Self, Error>) {
        let mut at: usize = 0;
        assert(bytes@.skip(0) =~= bytes@);
        let kind = wire::take_u32(bytes, &mut at)?;
        if kind == 0 {
            let player_id = wire::take_text(bytes, &mut at)?;
            Ok(ClientStreamHeader::OpenPlayerStream { player_id })
        } else if kind == 1 {
            let ghost rest = bytes@.skip(4);
            let key = wire::take_text(bytes, &mut at)?;
            let ghost length_at = wire::text_field_len(rest) as int;
            assert(bytes@.skip(at as int) =~= rest.skip(length_at));
            let length = wire::take_u32(bytes, &mut at)?;
            assert(bytes@.skip(at as int) =~= rest.skip(length_at + 4));
            let compression = wire::take_text(bytes, &mut at)?;
            Ok(ClientStreamHeader::StoreAsset { key, length, compression })
        } else {
            Err(Error::BadMsgFormat)
        }
    }

    proof fn lemma_round_trip(message: ClientStreamHeaderView, rest: Seq<u8>) {
        numbers::lemma_byte_bounds();
        let bytes = Self::wire(message) + rest;
        match message {
            ClientStreamHeaderView::OpenPlayerStream { player_id } => {
                wire::lemma_number_field(0, 4, wire::text_field(player_id) + rest);
                assert(bytes =~= numbers::le_bytes(0, 4) + (wire::text_field(player_id) + rest));
                assert(bytes.skip(4) =~= wire::text_field(player_id) + rest);
                wire::lemma_text_field(player_id, rest);
            },
            ClientStreamHeaderView::StoreAsset { key, length, compression } => {
                let fields = store_asset_fields(key, length, compression) + rest;
                wire::lemma_number_field(1, 4, fields);
                assert(bytes =~= numbers::le_bytes(1, 4) + fields);
                assert(bytes.skip(4) =~= fields);
                lemma_store_asset_fields(key, length, compression, rest);
            },
        }
    }
}

/// Header of datagrams between the game server and the proxy, both ways.
#[derive(Clone, Debug, PartialEq, Eq)]
pub struct DatagramInfo {
    /// Recipient or origin of the datagram.
    pub player_id: String,
}

impl View for DatagramInfo {
    type V = Seq<char>;

    open spec fn view(&self) -> Seq<char> {
        self.player_id@
    }
}

impl WireMessage for DatagramInfo {
    open spec fn wire(message: Seq<char>) -> Seq<u8> {
        wire::text_field(message)
    }

    open spec fn unwire(bytes: Seq<u8>) -> Option<Seq<char>> {
        wire::read_text(bytes)
    }

    open spec fn fits(message: Seq<char>) -> bool {
        wire::text_fits(message)
    }

    fn to_bytes(&self) -> (res: Result<Vec<u8>, Error>) {
        let mut out: Vec<u8> = Vec::new();
        wire::push_text(&mut out, self.player_id.as_str())?;
        assert(out@ =~= wire::text_field(self@));
        Ok(out)
    }

    fn from_bytes(bytes: &[u8]) -> (res: Result<Self, Error>) {
        let mut at: usize = 0;
        assert(bytes@.skip(0) =~= bytes@);
        let player_id = wire::take_text(bytes, &mut at)?;
        Ok(DatagramInfo { player_id })
    }

    proof fn lemma_round_trip(message: Seq<char>, rest: Seq<u8>) {
        wire::lemma_text_field(message, rest);
    }
}

/// What the proxy reports of an allocation.
#[derive(Clone, Debug, Default, PartialEq, Eq)]
pub struct ProxyStats {
    /// The endpoint that the players should use to connect to the server via the proxy.
    pub allocated_endpoint: String,
    /// Total size of all assets.
    pub total_assets_size: usize,
    /// Total number of assets.
    pub total_assets_count: usize,
    /// Number of players currently connected via this proxy.
    pub players_count: usize,
}

/// The messages of the proxy are written as the game server expects them: the number of the kind in
/// four bytes, then the fields in their order.
pub proof fn law_server_message_layout(message: ServerMessage, res: Result<Vec<u8>, Error>)
    requires
        call_ensures(ServerMessage::to_bytes, (&message,), res),
    ensures
        res matches Ok(bytes) && match message {
            ServerMessage::Allocation { id, allocated_endpoint, assets_root, external_endpoint } => {
                let root_at = 36 + encode_utf8(allocated_endpoint@).len() as int;
                let address_at = root_at + 8 + encode_utf8(assets_root@).len() as int;
                &&& numbers::is_le32(bytes@, 0)
                &&& numbers::is_le64(bytes@.skip(4), 16)
                &&& wire::is_text_at(bytes@, 28, allocated_endpoint@)
                &&& wire::is_text_at(bytes@, root_at, assets_root@)
                &&& is_address_at(bytes@, address_at, external_endpoint)
            },
            ServerMessage::PlayerConnected { player_id } => {
                &&& bytes@.len() == 12 + encode_utf8(player_id@).len()
                &&& numbers::is_le32(bytes@, 1)
                &&& wire::is_text_at(bytes@, 4, player_id@)
            },
            ServerMessage::RequestAsset { key } => {
                &&& bytes@.len() == 12 + encode_utf8(key@).len()
                &&& numbers::is_le32(bytes@, 2)
                &&& wire::is_text_at(bytes@, 4, key@)
            },
        },
{
    let none = Seq::<u8>::empty();
    let bytes = ServerMessage::wire(message@);
    match message {
        ServerMessage::Allocation { id, allocated_endpoint, assets_root, external_endpoint } => {
            let kind = numbers::le_bytes(0, 4);
            let endpoint = wire::text_field(allocated_endpoint@);
            let root = wire::text_field(assets_root@);
            let address = address_field(external_endpoint@);
            wire::lemma_id_field(id, none);
            numbers::lemma_le_layout(0, wire::id_field(id) + (endpoint + (root + address)));
            numbers::lemma_le_layout(
                16,
                numbers::be_bytes(id as nat, 16) + (endpoint + (root + address)),
            );
            assert(bytes =~= kind + (wire::id_field(id) + (endpoint + (root + address))));
            assert(bytes.skip(4) =~= numbers::le_bytes(16, 8) + (numbers::be_bytes(id as nat, 16)
                + (endpoint + (root + address))));
            wire::lemma_text_at(kind + wire::id_field(id), allocated_endpoint@, root + address);
            assert(bytes =~= kind + wire::id_field(id) + endpoint + (root + address));
            wire::lemma_text_at(kind + wire::id_field(id) + endpoint, assets_root@, address);
            assert(bytes =~= kind + wire::id_field(id) + endpoint + root + address);
            lemma_address_at(kind + wire::id_field(id) + endpoint + root, external_endpoint);
        },
        ServerMessage::PlayerConnected { player_id } => {
            lemma_kind_and_text(1, player_id@);
        },
        ServerMessage::RequestAsset { key } => {
            lemma_kind_and_text(2, key@);
        },
    }
}

/// An address stands at a place, up to the end: its kind in four bytes, its octets, and its port in
/// two bytes, the least significant first.
pub open spec fn is_address_at(bytes: Seq<u8>, at: int, address: SocketAddress) -> bool {
    match address.ip {
        IpAddress::V4(octets) => {
            &&& bytes.len() == at + 10
            &&& numbers::is_le32(bytes.skip(at), 0)
            &&& bytes.subrange(at + 4, at + 8) == octets@
            &&& numbers::is_le16(bytes.skip(at + 8), address.port as int)
        },
        IpAddress::V6(octets) => {
            &&& bytes.len() == at + 22
            &&& numbers::is_le32(bytes.skip(at), 1)
            &&& bytes.subrange(at + 4, at + 20) == octets@
            &&& numbers::is_le16(bytes.skip(at + 20), address.port as int)
        },
    }
}

/// Where an address field stands, the address stands.
proof fn lemma_address_at(front: Seq<u8>, address: SocketAddress)
    ensures
        is_address_at(front + address_field(address@), front.len() as int, address),
{
    let none = Seq::<u8>::empty();
    let bytes = front + address_field(address@);
    let octets = address@.octets;
    let port = numbers::le_bytes(address.port as nat, 2);
    let at = front.len() as int;
    assert(octets.len() == 4 || octets.len() == 16);
    numbers::lemma_le_layout(0, octets + port);
    numbers::lemma_le_layout(1, octets + port);
    numbers::lemma_le_layout(address.port as nat, none);
    let kind: nat = if address@.is_v6 {
        1
    } else {
        0
    };
    assert(bytes.skip(at) =~= numbers::le_bytes(kind, 4) + (octets + port));
    assert(bytes.subrange(at + 4, at + 4 + octets.len()) =~= octets);
    assert(bytes.skip(at + 4 + octets.len()) =~= port + none);
}

/// A kind and a text behind it.
proof fn lemma_kind_and_text(kind: nat, text: Seq<char>)
    requires
        kind < 0x100,
        wire::text_fits(text),
    ensures
        numbers::is_le32(numbers::le_bytes(kind, 4) + wire::text_field(text), kind as int),
        wire::is_text_at(numbers::le_bytes(kind, 4) + wire::text_field(text), 4, text),
        (numbers::le_bytes(kind, 4) + wire::text_field(text)).len() == 12 + encode_utf8(text).len(),
{
    let none = Seq::<u8>::empty();
    numbers::lemma_le_layout(kind, wire::text_field(text));
    wire::lemma_text_at(numbers::le_bytes(kind, 4), text, none);
    assert(numbers::le_bytes(kind, 4) + wire::text_field(text) + none =~= numbers::le_bytes(kind, 4)
        + wire::text_field(text));
}

/// The messages of the game server, and what stands in front of streams and datagrams, are written
/// as the other side expects them: the number of the kind in four bytes where there are kinds, then
/// the fields in their order.
pub proof fn law_other_layouts(
    message: ClientMessage,
    message_res: Result<Vec<u8>, Error>,
    opened: ServerStreamHeader,
    opened_res: Result<Vec<u8>, Error>,
    header: ClientStreamHeader,
    header_res: Result<Vec<u8>, Error>,
    info: DatagramInfo,
    info_res: Result<Vec<u8>, Error>,
)
    requires
        call_ensures(ClientMessage::to_bytes, (&message,), message_res),
        call_ensures(ServerStreamHeader::to_bytes, (&opened,), opened_res),
        call_ensures(ClientStreamHeader::to_bytes, (&header,), header_res),
        call_ensures(DatagramInfo::to_bytes, (&info,), info_res),
    ensures
        message_res matches Ok(bytes) && match message {
            ClientMessage::AllocateEndpoint { project_id } => {
                &&& bytes@.len() == 12 + encode_utf8(project_id@).len()
                &&& numbers::is_le32(bytes@, 0)
                &&& wire::is_text_at(bytes@, 4, project_id@)
            },
        },
        opened_res matches Ok(bytes) && match opened {
            ServerStreamHeader::PlayerStreamOpened { player_id } => {
                &&& bytes@.len() == 12 + encode_utf8(player_id@).len()
                &&& numbers::is_le32(bytes@, 0)
                &&& wire::is_text_at(bytes@, 4, player_id@)
            },
        },
        header_res matches Ok(bytes) && match header {
            ClientStreamHeader::OpenPlayerStream { player_id } => {
                &&& bytes@.len() == 12 + encode_utf8(player_id@).len()
                &&& numbers::is_le32(bytes@, 0)
                &&& wire::is_text_at(bytes@, 4, player_id@)
            },
            ClientStreamHeader::StoreAsset { key, length, compression } => {
                let length_at = 12 + encode_utf8(key@).len() as int;
                &&& bytes@.len() == length_at + 12 + encode_utf8(compression@).len()
                &&& numbers::is_le32(bytes@, 1)
                &&& wire::is_text_at(bytes@, 4, key@)
                &&& numbers::is_le32(bytes@.skip(length_at), length as int)
                &&& wire::is_text_at(bytes@, length_at + 4, compression@)
            },
        },
        info_res matches Ok(bytes) && bytes@.len() == 8 + encode_utf8(info.player_id@).len()
            && wire::is_text_at(bytes@, 0, info.player_id@),
{
    let none = Seq::<u8>::empty();
    let ClientMessage::AllocateEndpoint { project_id } = message;
    lemma_kind_and_text(0, project_id@);
    let ServerStreamHeader::PlayerStreamOpened { player_id } = opened;
    lemma_kind_and_text(0, player_id@);
    match header {
        ClientStreamHeader::OpenPlayerStream { player_id } => {
            lemma_kind_and_text(0, player_id@);
        },
        ClientStreamHeader::StoreAsset { key, length, compression } => {
            let bytes = ClientStreamHeader::wire(header@);
            let kind = numbers::le_bytes(1, 4);
            let name = wire::text_field(key@);
            let number = numbers::le_bytes(length as nat, 4);
            let last = wire::text_field(compression@);
            numbers::lemma_le_layout(1, name + (number + last));
            wire::lemma_text_at(kind, key@, number + last);
            numbers::lemma_le_layout(length as nat, last);
            wire::lemma_text_at(kind + name + number, compression@, none);
            assert(bytes =~= kind + (name + (number + last)));
            assert(bytes =~= kind + name + (number + last));
            assert(bytes.skip(12 + encode_utf8(key@).len() as int) =~= number + last);
            assert(bytes =~= kind + name + number + last + none);
        },
    }
    wire::lemma_text_at(none, info.player_id@, none);
    assert(none + wire::text_field(info.player_id@) + none =~= wire::text_field(info.player_id@));
}

/// What the proxy writes the game server reads, field by field, whatever follows it.
pub proof fn law_server_message_is_read(
    message: ServerMessage,
    written: Result<Vec<u8>, Error>,
    rest: Seq<u8>,
    bytes: &[u8],
    read: Result<ServerMessage, Error>,
)
    requires
        call_ensures(ServerMessage::to_bytes, (&message,), written),
        written matches Ok(written) ==> bytes@ == written@ + rest,
        call_ensures(ServerMessage::from_bytes, (bytes,), read),
    ensures
        match (message, read) {
            (
                ServerMessage::Allocation {
                    id,
                    allocated_endpoint,
                    assets_root,
                    external_endpoint,
                },
                Ok(
                    ServerMessage::Allocation {
                        id: read_id,
                        allocated_endpoint: read_endpoint,
                        assets_root: read_root,
                        external_endpoint: read_address,
                    },
                ),
            ) => {
                &&& read_id == id
                &&& read_endpoint@ == allocated_endpoint@
                &&& read_root@ == assets_root@
                &&& read_address.port == external_endpoint.port
                &&& match (read_address.ip, external_endpoint.ip) {
                    (IpAddress::V4(read), IpAddress::V4(octets)) => read@ == octets@,
                    (IpAddress::V6(read), IpAddress::V6(octets)) => read@ == octets@,
                    _ => false,
                }
            },
            (
                ServerMessage::PlayerConnected { player_id },
                Ok(ServerMessage::PlayerConnected { player_id: read }),
            ) => read@ == player_id@,
            (ServerMessage::RequestAsset { key }, Ok(ServerMessage::RequestAsset { key: read })) =>
                read@ == key@,
            _ => false,
        },
{
    wire::law_written_message_is_read::<ServerMessage>(message, written, rest, bytes, read);
}

/// What the game server writes the proxy reads, field by field, whatever follows it, and so it is
/// with what the proxy puts in front of streams.
pub proof fn law_other_messages_are_read(
    message: ClientMessage,
    written_message: Result<Vec<u8>, Error>,
    header: ClientStreamHeader,
    written_header: Result<Vec<u8>, Error>,
    opened: ServerStreamHeader,
    written_opened: Result<Vec<u8>, Error>,
    info: DatagramInfo,
    written_info: Result<Vec<u8>, Error>,
    rest: Seq<u8>,
    received: (&[u8], &[u8], &[u8], &[u8]),
    read_message: Result<ClientMessage, Error>,
    read_header: Result<ClientStreamHeader, Error>,
    read_opened: Result<ServerStreamHeader, Error>,
    read_info: Result<DatagramInfo, Error>,
)
    requires
        call_ensures(ClientMessage::to_bytes, (&message,), written_message),
        call_ensures(ClientStreamHeader::to_bytes, (&header,), written_header),
        call_ensures(ServerStreamHeader::to_bytes, (&opened,), written_opened),
        call_ensures(DatagramInfo::to_bytes, (&info,), written_info),
        written_message matches Ok(written) ==> received.0@ == written@ + rest,
        written_header matches Ok(written) ==> received.1@ == written@ + rest,
        written_opened matches Ok(written) ==> received.2@ == written@ + rest,
        written_info matches Ok(written) ==> received.3@ == written@ + rest,
        call_ensures(ClientMessage::from_bytes, (received.0,), read_message),
        call_ensures(ClientStreamHeader::from_bytes, (received.1,), read_header),
        call_ensures(ServerStreamHeader::from_bytes, (received.2,), read_opened),
        call_ensures(DatagramInfo::from_bytes, (received.3,), read_info),
    ensures
        match (message, read_message) {
            (
                ClientMessage::AllocateEndpoint { project_id },
                Ok(ClientMessage::AllocateEndpoint { project_id: read }),
            ) => read@ == project_id@,
            _ => false,
        },
        match (header, read_header) {
            (
                ClientStreamHeader::OpenPlayerStream { player_id },
                Ok(ClientStreamHeader::OpenPlayerStream { player_id: read }),
            ) => read@ == player_id@,
            (
                ClientStreamHeader::StoreAsset { key, length, compression },
                Ok(
                    ClientStreamHeader::StoreAsset {
                        key: read_key,
                        length: read_length,
                        compression: read_compression,
                    },
                ),
            ) => {
                &&& read_key@ == key@
                &&& read_length == length
                &&& read_compression@ == compression@
            },
            _ => false,
        },
        match (opened, read_opened) {
            (
                ServerStreamHeader::PlayerStreamOpened { player_id },
                Ok(ServerStreamHeader::PlayerStreamOpened { player_id: read }),
            ) => read@ == player_id@,
            _ => false,
        },
        read_info matches Ok(read) && read.player_id@ == info.player_id@,
{
    wire::law_written_message_is_read::<ClientMessage>(
        message,
        written_message,
        rest,
        received.0,
        read_message,
    );
    wire::law_written_message_is_read::<ClientStreamHeader>(
        header,
        written_header,
        rest,
        received.1,
        read_header,
    );
    wire::law_written_message_is_read::<ServerStreamHeader>(
        opened,
        written_opened,
        rest,
        received.2,
        read_opened,
    );
    wire::law_written_message_is_read::<DatagramInfo>(
        info,
        written_info,
        rest,
        received.3,
        read_info,
    );
}

/// Bytes that are no message are refused: too few of them for the number of a kind, or the number of
/// a kind that there is not.
pub proof fn law_no_message_is_refused(
    bytes: &[u8],
    kind: int,
    server: Result<ServerMessage, Error>,
    client: Result<ClientMessage, Error>,
    header: Result<ClientStreamHeader, Error>,
    opened: Result<ServerStreamHeader, Error>,
)
    requires
        call_ensures(ServerMessage::from_bytes, (bytes,), server),
        call_ensures(ClientMessage::from_bytes, (bytes,), client),
        call_ensures(ClientStreamHeader::from_bytes, (bytes,), header),
        call_ensures(ServerStreamHeader::from_bytes, (bytes,), opened),
        bytes@.len() < 4 || numbers::is_le32(bytes@, kind),
    ensures
        bytes@.len() < 4 || kind > 2 ==> server == Err::<ServerMessage, Error>(Error::BadMsgFormat),
        bytes@.len() < 4 || kind > 0 ==> client == Err::<ClientMessage, Error>(Error::BadMsgFormat),
        bytes@.len() < 4 || kind > 1 ==> header == Err::<ClientStreamHeader, Error>(
            Error::BadMsgFormat,
        ),
        bytes@.len() < 4 || kind > 0 ==> opened == Err::<ServerStreamHeader, Error>(
            Error::BadMsgFormat,
        ),
{
    if bytes@.len() >= 4 {
        numbers::lemma_le32(bytes@);
    }
}

/// A kind and a text behind it, cut short.
proof fn lemma_cut_kind_and_text(kind: nat, text: Seq<char>, count: int)
    requires
        kind < 0x100,
        wire::text_fits(text),
        0 <= count < (numbers::le_bytes(kind, 4) + wire::text_field(text)).len(),
    ensures
        ({
            let cut = (numbers::le_bytes(kind, 4) + wire::text_field(text)).take(count);
            &&& count < 4 ==> wire::read_number(cut, 4) is None
            &&& count >= 4 ==> wire::read_number(cut, 4) == Some(kind)
            &&& count >= 4 ==> wire::read_text(cut.skip(4)) is None
        }),
{
    numbers::lemma_byte_bounds();
    numbers::lemma_le_round_trip(kind, 4);
    let whole = numbers::le_bytes(kind, 4) + wire::text_field(text);
    let cut = whole.take(count);
    if count >= 4 {
        assert(cut.take(4) =~= numbers::le_bytes(kind, 4));
        assert(cut.skip(4) =~= wire::text_field(text).take(count - 4));
        wire::lemma_cut_text(text, count - 4);
    }
}

/// A message that was cut short is refused, wherever it was cut.
pub proof fn law_cut_message_is_refused(
    message: ServerMessage,
    written: Vec<u8>,
    cut: &[u8],
    read: Result<ServerMessage, Error>,
)
    requires
        call_ensures(ServerMessage::to_bytes, (&message,), Ok(written)),
        cut@.len() < written@.len(),
        cut@ == written@.take(cut@.len() as int),
        call_ensures(ServerMessage::from_bytes, (cut,), read),
    ensures
        read == Err::<ServerMessage, Error>(Error::BadMsgFormat),
{
    let count = cut@.len() as int;
    match message {
        ServerMessage::Allocation { id, allocated_endpoint, assets_root, external_endpoint } => {
            lemma_cut_allocation(
                id,
                allocated_endpoint@,
                assets_root@,
                external_endpoint@,
                count,
            );
        },
        ServerMessage::PlayerConnected { player_id } => {
            lemma_cut_kind_and_text(1, player_id@, count);
        },
        ServerMessage::RequestAsset { key } => {
            lemma_cut_kind_and_text(2, key@, count);
        },
    }
}

/// An address that was cut short is not there.
proof fn lemma_cut_address(address: SocketAddressView, count: int)
    requires
        address.well_formed(),
        0 <= count < address_field(address).len(),
    ensures
        read_address(address_field(address).take(count)) is None,
        address_field(address).len() == 6 + address.octets.len(),
{
    numbers::lemma_byte_bounds();
    let kind: nat = if address.is_v6 {
        1
    } else {
        0
    };
    let whole = address_field(address);
    let cut = whole.take(count);
    numbers::lemma_le_round_trip(kind, 4);
    numbers::lemma_le_round_trip(address.port as nat, 2);
    if count >= 4 {
        assert(cut.take(4) =~= numbers::le_bytes(kind, 4));
    }
}

/// An allocation that was cut short is not there.
proof fn lemma_cut_allocation(
    id: u128,
    allocated_endpoint: Seq<char>,
    assets_root: Seq<char>,
    external_endpoint: SocketAddressView,
    count: int,
)
    requires
        wire::text_fits(allocated_endpoint),
        wire::text_fits(assets_root),
        external_endpoint.well_formed(),
        0 <= count < (numbers::le_bytes(0, 4) + allocation_fields(
            id,
            allocated_endpoint,
            assets_root,
            external_endpoint,
        )).len(),
    ensures
        ServerMessage::unwire(
            (numbers::le_bytes(0, 4) + allocation_fields(
                id,
                allocated_endpoint,
                assets_root,
                external_endpoint,
            )).take(count),
        ) is None,
{
    numbers::lemma_byte_bounds();
    let none = Seq::<u8>::empty();
    let first = wire::id_field(id);
    let endpoint = wire::text_field(allocated_endpoint);
    let root = wire::text_field(assets_root);
    let address = address_field(external_endpoint);
    let fields = allocation_fields(id, allocated_endpoint, assets_root, external_endpoint);
    let cut = (numbers::le_bytes(0, 4) + fields).take(count);
    numbers::lemma_le_round_trip(0, 4);
    wire::lemma_id_field(id, none);
    if count >= 4 {
        let behind = cut.skip(4);
        assert(cut.take(4) =~= numbers::le_bytes(0, 4));
        assert(behind =~= fields.take(count - 4));
        if count >= 28 {
            let at_endpoint = behind.skip(24);
            if count - 28 < endpoint.len() {
                wire::lemma_cut_text(allocated_endpoint, count - 28);
                assert(at_endpoint =~= endpoint.take(count - 28));
            } else {
                let rest = (root + address).take(count - 28 - endpoint.len());
                wire::lemma_text_field(allocated_endpoint, rest);
                assert(at_endpoint =~= endpoint + rest);
                let root_at = 24 + endpoint.len() as int;
                let at_root = behind.skip(root_at);
                assert(at_root =~= rest);
                if rest.len() < root.len() {
                    wire::lemma_cut_text(assets_root, rest.len() as int);
                    assert(rest =~= root.take(rest.len() as int));
                } else {
                    let last = address.take(rest.len() - root.len());
                    wire::lemma_text_field(assets_root, last);
                    assert(rest =~= root + last);
                    let address_at = root_at + root.len();
                    assert(behind.skip(address_at) =~= last);
                    lemma_cut_address(external_endpoint, last.len() as int);
                }
            }
        }
    }
}

/// What the game server sends, and what stands in front of streams and datagrams, is refused where it
/// was cut short, wherever that was.
pub proof fn law_other_cut_messages_are_refused(
    message: ClientMessage,
    written_message: Vec<u8>,
    header: ClientStreamHeader,
    written_header: Vec<u8>,
    opened: ServerStreamHeader,
    written_opened: Vec<u8>,
    info: DatagramInfo,
    written_info: Vec<u8>,
    cut: (&[u8], &[u8], &[u8], &[u8]),
    read_message: Result<ClientMessage, Error>,
    read_header: Result<ClientStreamHeader, Error>,
    read_opened: Result<ServerStreamHeader, Error>,
    read_info: Result<DatagramInfo, Error>,
)
    requires
        call_ensures(ClientMessage::to_bytes, (&message,), Ok(written_message)),
        call_ensures(ClientStreamHeader::to_bytes, (&header,), Ok(written_header)),
        call_ensures(ServerStreamHeader::to_bytes, (&opened,), Ok(written_opened)),
        call_ensures(DatagramInfo::to_bytes, (&info,), Ok(written_info)),
        cut.0@.len() < written_message@.len() && cut.0@ == written_message@.take(
            cut.0@.len() as int,
        ),
        cut.1@.len() < written_header@.len() && cut.1@ == written_header@.take(cut.1@.len() as int),
        cut.2@.len() < written_opened@.len() && cut.2@ == written_opened@.take(cut.2@.len() as int),
        cut.3@.len() < written_info@.len() && cut.3@ == written_info@.take(cut.3@.len() as int),
        call_ensures(ClientMessage::from_bytes, (cut.0,), read_message),
        call_ensures(ClientStreamHeader::from_bytes, (cut.1,), read_header),
        call_ensures(ServerStreamHeader::from_bytes, (cut.2,), read_opened),
        call_ensures(DatagramInfo::from_bytes, (cut.3,), read_info),
    ensures
        read_message == Err::<ClientMessage, Error>(Error::BadMsgFormat),
        read_header == Err::<ClientStreamHeader, Error>(Error::BadMsgFormat),
        read_opened == Err::<ServerStreamHeader, Error>(Error::BadMsgFormat),
        read_info == Err::<DatagramInfo, Error>(Error::BadMsgFormat),
{
    let ClientMessage::AllocateEndpoint { project_id } = message;
    lemma_cut_kind_and_text(0, project_id@, cut.0@.len() as int);
    let ServerStreamHeader::PlayerStreamOpened { player_id } = opened;
    lemma_cut_kind_and_text(0, player_id@, cut.2@.len() as int);
    match header {
        ClientStreamHeader::OpenPlayerStream { player_id } => {
            lemma_cut_kind_and_text(0, player_id@, cut.1@.len() as int);
        },
        ClientStreamHeader::StoreAsset { key, length, compression } => {
            lemma_cut_store_asset(key@, length, compression@, cut.1@.len() as int);
        },
    }
    wire::lemma_cut_text(info.player_id@, cut.3@.len() as int);
}

/// A request to store an asset that was cut short is not there.
proof fn lemma_cut_store_asset(key: Seq<char>, length: u32, compression: Seq<char>, count: int)
    requires
        wire::text_fits(key),
        wire::text_fits(compression),
        0 <= count < (numbers::le_bytes(1, 4) + store_asset_fields(key, length, compression)).len(),
    ensures
        ClientStreamHeader::unwire(
            (numbers::le_bytes(1, 4) + store_asset_fields(key, length, compression)).take(count),
        ) is None,
{
    numbers::lemma_byte_bounds();
    let name = wire::text_field(key);
    let number = numbers::le_bytes(length as nat, 4);
    let last = wire::text_field(compression);
    let fields = store_asset_fields(key, length, compression);
    let cut = (numbers::le_bytes(1, 4) + fields).take(count);
    numbers::lemma_le_round_trip(1, 4);
    numbers::lemma_le_round_trip(length as nat, 4);
    if count >= 4 {
        let behind = cut.skip(4);
        assert(cut.take(4) =~= numbers::le_bytes(1, 4));
        assert(behind =~= fields.take(count - 4));
        if count - 4 < name.len() {
            wire::lemma_cut_text(key, count - 4);
            assert(behind =~= name.take(count - 4));
        } else {
            let rest = (number + last).take(count - 4 - name.len());
            wire::lemma_text_field(key, rest);
            assert(behind =~= name + rest);
            assert(behind.skip(name.len() as int) =~= rest);
            if rest.len() >= 4 {
                assert(behind.skip(name.len() as int + 4) =~= last.take(rest.len() - 4));
                wire::lemma_cut_text(compression, rest.len() - 4);
            }
        }
    }
}

} // verus!
