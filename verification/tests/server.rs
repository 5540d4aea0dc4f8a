use std::collections::hash_map::DefaultHasher;
use std::hash::{Hash, Hasher};

use ambient_proxy::asset_store::{AssetRequest, AssetStep};
use ambient_proxy::assets::{pack, PackedAsset};
use ambient_proxy::bytes::prefix;
use ambient_proxy::configuration::{first_private_key, PemItem, Settings};
use ambient_proxy::error::Error;
use ambient_proxy::http::{begin_get_asset, get_asset, get_stats, Refusal};
use ambient_proxy::ids::{allocation_id_text, new_allocation_id, parse_allocation_id};
use ambient_proxy::management::{ManagementInput, ManagementServer, ProxyStore};
use ambient_proxy::player::{PlayerAction, PlayerConnection, PlayerInput};
use ambient_proxy::ports::{candidate_ports, check_port_range, select_port, BIND_ATTEMPTS};
use ambient_proxy::protocol::{
    ClientMessage, ClientStreamHeader, DatagramInfo, IpAddress, ServerMessage, ServerStreamHeader,
    SocketAddress,
};
use ambient_proxy::proxy::{
    Bound, PlayerEvent, ProxyAction, ProxyEvent, ProxyInput, ProxyServer, UniAction,
};
use ambient_proxy::streams::{read_framed, Framed, HEADER_SIZE_LIMIT};
use ambient_proxy::telemetry::{
    asset_response_size_buckets, gauge_value, log_format, AssetRequestResult, ConnectionRole,
    LogFormat, MetricsUpdate,
};
use ambient_proxy::totals::total;

const ID: u128 = 0x936d_a01f_9abd_4d9d_80c7_02af_85c8_22a8;
const EXTERNAL: SocketAddress = SocketAddress { ip: IpAddress::V4([1, 2, 3, 4]), port: 5 };

type Proxy = ProxyServer<&'static str, u32, char>;

fn proxy() -> Proxy {
    ProxyServer::new(
        ID,
        "play.example".to_string(),
        "assets.example:8080".to_string(),
        9000..=9999,
    )
}

fn connect(proxy: &mut Proxy, player_id: &str, player: u32) -> ProxyAction<u32> {
    proxy.step(ProxyInput::PlayerConnected { player_id: player_id.to_string(), player })
}

#[test]
fn allocation_is_answered_once() {
    let mut proxy = proxy();
    assert_eq!(proxy.id(), ID);
    assert_eq!(proxy.accept_connection(), None);
    assert_eq!(proxy.handle_allocate_message(Bound::Failed, EXTERNAL), Err(Error::NoProxyEndpoint));
    assert_eq!(proxy.accept_connection(), None);
    let message = proxy.handle_allocate_message(Bound::Endpoint("socket", Some(9123)), EXTERNAL);
    assert_eq!(
        message,
        Ok(ServerMessage::Allocation {
            id: ID,
            allocated_endpoint: "play.example:9123".to_string(),
            assets_root:
                "http://assets.example:8080/content/936da01f-9abd-4d9d-80c7-02af85c822a8/".to_string(),
            external_endpoint: EXTERNAL,
        })
    );
    assert_eq!(proxy.accept_connection(), Some(&"socket"));
    let again = proxy.handle_allocate_message(Bound::Endpoint("other", Some(1)), EXTERNAL);
    assert_eq!(again, Err(Error::EndpointAlreadyAllocated));
    assert_eq!(
        proxy.ports_to_try(DefaultHasher::new()),
        Err(Error::EndpointAlreadyAllocated)
    );
    assert_eq!(proxy.accept_connection(), Some(&"socket"));
    assert_eq!(proxy.stats().allocated_endpoint, "play.example:9123");
}

#[test]
fn allocation_without_local_address() {
    let mut proxy = proxy();
    let message = proxy.handle_allocate_message(Bound::Endpoint("socket", None), EXTERNAL);
    assert_eq!(message, Err(Error::NoLocalAddress));
    assert_eq!(proxy.accept_connection(), Some(&"socket"));
    assert_eq!(proxy.stats().allocated_endpoint, "");
}

#[test]
fn players_come_and_go() {
    let mut proxy = proxy();
    let counted = MetricsUpdate::IncConnections(ConnectionRole::Client);
    assert!(matches!(
        connect(&mut proxy, "ann", 1),
        ProxyAction::Count(update, None) if update == counted
    ));
    assert!(matches!(
        connect(&mut proxy, "bob", 2),
        ProxyAction::Count(update, None) if update == counted
    ));
    assert!(matches!(connect(&mut proxy, "ann", 3), ProxyAction::Count(_, Some(1))));
    assert_eq!(proxy.players_count(), 2);
    assert_eq!(proxy.get_player_connection("ann"), Some(&3));
    assert_eq!(proxy.get_player_connection("eve"), None);
    let gone = |id: &str| ProxyInput::Player(PlayerEvent::Disconnected { player_id: id.to_string() });
    assert!(matches!(proxy.step(gone("ann")), ProxyAction::Abort(3)));
    assert!(matches!(proxy.step(gone("ann")), ProxyAction::Continue));
    assert_eq!(proxy.get_player_connection("ann"), None);
    assert_eq!(proxy.get_player_connection("bob"), Some(&2));
    assert_eq!(proxy.players_count(), 1);
}

#[test]
fn loop_of_an_allocation() {
    let mut proxy = proxy();
    assert!(matches!(proxy.step(ProxyInput::PlayerFailed), ProxyAction::Continue));
    let message = ClientMessage::AllocateEndpoint { project_id: "p1".to_string() };
    match proxy.step(ProxyInput::Message(message)) {
        ProxyAction::Allocate { project_id } => assert_eq!(project_id, "p1"),
        other => panic!("{other:?}"),
    }
    for input in [ProxyInput::ServerClosed, ProxyInput::NothingLeft] {
        assert!(matches!(proxy.step(input), ProxyAction::Stop(ProxyEvent::Stopped { id: ID })));
    }
}

#[test]
fn streams_from_the_game_server() {
    let mut proxy = proxy();
    connect(&mut proxy, "ann", 1);
    let open = |id: &str| ClientStreamHeader::OpenPlayerStream { player_id: id.to_string() };
    let store = |length, compression: &str| ClientStreamHeader::StoreAsset {
        key: "k".to_string(),
        length,
        compression: compression.to_string(),
    };
    assert!(matches!(proxy.handle_uni(open("ann")), Ok(UniAction::Relay(1))));
    assert_eq!(
        proxy.handle_uni(open("eve")).unwrap_err(),
        Error::UnknownPlayer("eve".to_string())
    );
    match proxy.handle_uni(store(12, "gzip")) {
        Ok(UniAction::ReceiveAsset { key, length: 12, compression }) => {
            assert_eq!((key.as_str(), compression.as_str()), ("k", "gzip"))
        }
        other => panic!("{other:?}"),
    }
    assert_eq!(
        proxy.handle_uni(store(1, "zip")).unwrap_err(),
        Error::UnsupportedCompression("zip".to_string())
    );
    assert_eq!(
        proxy.handle_uni(store(u32::MAX, "")).unwrap_err(),
        Error::AssetTooLarge(u32::MAX)
    );
    assert_eq!(proxy.handle_bi(open("ann")), Ok(&1));
    assert_eq!(proxy.handle_bi(open("eve")), Err(Error::UnknownPlayer("eve".to_string())));
    assert_eq!(proxy.handle_bi(store(1, "")), Err(Error::UnexpectedHeader));
}

#[test]
fn datagrams_from_the_game_server() {
    let mut proxy = proxy();
    connect(&mut proxy, "ann", 1);
    let datagram = |id: &str| {
        let info = DatagramInfo { player_id: id.to_string() };
        prefix(&info, ::bytes::Bytes::from_static(b"data")).unwrap()
    };
    let (player, data) = proxy.handle_datagram(datagram("ann")).unwrap();
    assert_eq!((player, &data[..]), (&1, &b"data"[..]));
    assert_eq!(
        proxy.handle_datagram(datagram("eve")).unwrap_err(),
        Error::UnknownPlayer("eve".to_string())
    );
    let bad = ::bytes::Bytes::from_static(&[0, 0, 0, 0]);
    assert_eq!(proxy.handle_datagram(bad).unwrap_err(), Error::BadMsgFormat);
}

#[test]
fn assets_of_an_allocation() {
    let mut proxy = proxy();
    let mut request = AssetRequest::new("k".to_string());
    let step = proxy.get_asset(&mut request, true, 'a');
    assert!(matches!(step, AssetStep::Wait { message: Some(_), notify: 'a' }));
    assert_eq!(proxy.stats().total_assets_count, 0);
    assert_eq!(proxy.stats().total_assets_size, 0);

    let asset = pack(vec![5; 3000]).unwrap();
    assert_eq!(proxy.store_asset("k", asset, 'b'), Ok('a'));
    match proxy.get_asset(&mut request, true, 'c') {
        AssetStep::Found(data) => assert_eq!(&data[..], &[5; 3000][..]),
        other => panic!("{other:?}"),
    }
    assert!(matches!(proxy.get_asset(&mut request, false, 'c'), AssetStep::TimedOut(_)));
    assert_eq!(proxy.stats().total_assets_size, 3000);
    assert_eq!(proxy.stats().total_assets_count, 1);
    assert_eq!(proxy.total_assets_size(), 3000);
    assert_eq!(proxy.checked_total_assets_size(), Some(3000));

    let bad = PackedAsset { data: vec![1], compression: "gzip".to_string() };
    assert_eq!(proxy.store_asset("k", bad, 'd'), Err(Error::DecompressionFailed));
    assert_eq!(proxy.stats().total_assets_size, 3000);
}

#[test]
fn player_side_of_the_proxy() {
    let player = PlayerConnection::new("ann".to_string());
    assert_eq!(
        player.announcement(),
        ServerMessage::PlayerConnected { player_id: "ann".to_string() }
    );
    for action in [player.step(PlayerInput::UniStream), player.step(PlayerInput::BiStream)] {
        let mut head = match action {
            PlayerAction::RelayUni(head) | PlayerAction::RelayBi(head) => head,
            other => panic!("{other:?}"),
        };
        head.extend(b"rest");
        match read_framed::<ServerStreamHeader>(&head, HEADER_SIZE_LIMIT) {
            Ok(Framed::Message(ServerStreamHeader::PlayerStreamOpened { player_id })) => {
                assert_eq!(player_id, "ann")
            }
            other => panic!("{other:?}"),
        }
    }
    assert!(matches!(player.step(PlayerInput::UniStream), PlayerAction::RelayUni(_)));
    let datagram = PlayerInput::Datagram(::bytes::Bytes::from_static(b"hi"));
    match player.step(datagram) {
        PlayerAction::Send(sent) => {
            assert_eq!(&sent[..], b"\0\0\0\x0b\x03\0\0\0\0\0\0\0annhi")
        }
        other => panic!("{other:?}"),
    }
    assert!(matches!(player.step(PlayerInput::ServerClosed), PlayerAction::Stop));
    for input in [PlayerInput::PlayerClosed, PlayerInput::NothingLeft] {
        match player.step(input) {
            PlayerAction::StopWith(PlayerEvent::Disconnected { player_id }) => {
                assert_eq!(player_id, "ann")
            }
            other => panic!("{other:?}"),
        }
    }
}

#[test]
fn ports_follow_the_seed() {
    let mut seed = DefaultHasher::new();
    ("10.0.0.1", "project").hash(&mut seed);
    let ports = candidate_ports(9000, 9999, seed.clone());
    assert_eq!(ports.len(), BIND_ATTEMPTS);
    assert_eq!(candidate_ports(9000, 9999, seed.clone()), ports);
    let mut hasher = seed.clone();
    for (attempt, port) in ports.into_iter().enumerate() {
        (attempt as i32).hash(&mut hasher);
        assert_eq!(port, 9000 + (hasher.finish() as u16) % 1000);
        assert!((9000..=9999).contains(&port));
    }
    assert_eq!(candidate_ports(7, 7, seed), vec![7; 10]);
}

#[test]
fn ports_of_an_allocation() {
    let allocation = |first: u16, last: u16| -> Proxy {
        ProxyServer::new(ID, String::new(), String::new(), first..=last)
    };
    assert!(allocation(9000, 9000).has_ports());
    assert!(!allocation(0, 65_535).has_ports());
    assert!(!allocation(9001, 9000).has_ports());
    let tried = allocation(7, 7).ports_to_try(DefaultHasher::new());
    assert_eq!(tried, Ok(vec![7; BIND_ATTEMPTS]));
}

#[test]
fn ports_of_a_range() {
    assert_eq!(select_port(9000, 9999, 0x1_0001), 9001);
    assert_eq!(select_port(9000, 9999, 65_535), 9535);
    assert_eq!(select_port(0, 65_534, 65_535), 0);
    assert!(check_port_range(9000, 9000));
    assert!(check_port_range(1, 65_535));
    assert!(!check_port_range(0, 65_535));
    assert!(!check_port_range(9001, 9000));
}

#[test]
fn settings_by_default() {
    let settings = Settings::default();
    assert_eq!(settings.public_host_name, "localhost");
    assert_eq!(settings.bind_address, "127.0.0.1");
    assert_eq!(settings.management_port, 7000);
    assert_eq!(settings.proxy_port_range(), 9000..=9999);
    assert_eq!(settings.get_http_public_host_name(), "localhost");
    assert_eq!(settings.get_http_port(), 7000);
    assert_eq!(settings.http_public_addr(), "localhost:7000");
    assert_eq!(settings.get_assets_download_timeout().as_secs(), 60);
    assert_eq!(settings.cert_file, "self-signed-certs/cert.pem");
    assert_eq!(settings.cert_key_file, "self-signed-certs/key.pem");
}

#[test]
fn settings_of_the_http_interface() {
    let settings = Settings {
        http_public_host_name: Some("assets.example".to_string()),
        http_port: Some(80),
        ..Settings::default()
    };
    assert_eq!(settings.get_http_public_host_name(), "assets.example");
    assert_eq!(settings.get_http_port(), 80);
    assert_eq!(settings.http_public_addr(), "assets.example:80");
}

fn section(kind: &str, text: &str) -> String {
    format!("-----BEGIN {kind}-----\n{text}\n-----END {kind}-----\n")
}

#[test]
fn certificates_and_keys() {
    let settings = Settings::default();
    let pem = format!(
        "{}{}{}{}",
        section("CERTIFICATE", "AQID"),
        section("X509 CRL", "BwgJ"),
        section("EC PRIVATE KEY", "BAUG"),
        section("CERTIFICATE", "Cg=="),
    );
    assert_eq!(
        settings.load_certificate_chain(pem.as_bytes()),
        Ok(vec![vec![1, 2, 3], vec![10]])
    );
    assert_eq!(settings.load_private_key(pem.as_bytes()), Ok(vec![4, 5, 6]));
    let key = format!("{}{}", section("RSA PRIVATE KEY", "AQ=="), section("PRIVATE KEY", "Ag=="));
    assert_eq!(settings.load_private_key(key.as_bytes()), Ok(vec![1]));
    assert_eq!(settings.load_certificate_chain(b""), Ok(vec![]));
    assert_eq!(settings.load_private_key(b""), Err(Error::NoPrivateKey));
    let broken = b"-----BEGIN CERTIFICATE-----\nAQID\n";
    assert_eq!(settings.load_certificate_chain(broken), Err(Error::BadPem));
    assert_eq!(settings.load_private_key(broken), Err(Error::BadPem));
}

#[test]
fn first_private_key_of_a_file() {
    let items = vec![
        PemItem::X509Certificate(vec![1]),
        PemItem::Other,
        PemItem::PKCS8Key(vec![2]),
        PemItem::RSAKey(vec![3]),
    ];
    assert_eq!(first_private_key(items), Ok(vec![2]));
    assert_eq!(first_private_key(vec![PemItem::Other]), Err(Error::NoPrivateKey));
}

#[test]
fn ids_as_text() {
    let text = "936da01f-9abd-4d9d-80c7-02af85c822a8";
    assert_eq!(allocation_id_text(ID), text);
    assert_eq!(parse_allocation_id(text), Some(ID));
    assert_eq!(parse_allocation_id("936DA01F9ABD4D9D80C702AF85C822A8"), Some(ID));
    assert_eq!(parse_allocation_id(&format!("{{{text}}}")), Some(ID));
    assert_eq!(parse_allocation_id(&format!("urn:uuid:{text}")), Some(ID));
    assert_eq!(parse_allocation_id(&format!("URN:Uuid:{text}")), Some(ID));
    assert_eq!(parse_allocation_id(""), None);
    assert_eq!(parse_allocation_id(&format!("({text})")), None);
    assert_eq!(parse_allocation_id("936da01f-9abd-4d9d-80c7-02af85c822ag"), None);
    assert_eq!(parse_allocation_id("936da01f9-abd-4d9d-80c7-02af85c822a8"), None);
    assert_eq!(allocation_id_text(0), "00000000-0000-0000-0000-000000000000");
    assert_eq!(parse_allocation_id(&allocation_id_text(u128::MAX)), Some(u128::MAX));
}

#[test]
fn new_ids_are_random_uuids() {
    let id = new_allocation_id();
    let uuid = uuid::Uuid::from_u128(id);
    assert_eq!(uuid.get_version_num(), 4);
    assert_eq!(uuid.get_variant(), uuid::Variant::RFC4122);
    assert_ne!(new_allocation_id(), id);
}

#[test]
fn store_of_allocations() {
    let mut store = ProxyStore::new();
    assert_eq!(store.insert(1, "a"), 1);
    assert_eq!(store.insert(2, "b"), 2);
    assert_eq!(store.insert(1, "c"), 2);
    assert_eq!(store.get_proxy(&1), Some(&"c"));
    assert_eq!(store.get_proxy(&3), None);
    let mut all = store.all_proxies();
    all.sort();
    assert_eq!(all, vec![&"b", &"c"]);
    assert_eq!(store.remove(&1), (1, Some("c")));
    assert_eq!(store.remove(&1), (1, None));
    assert_eq!(store.all_proxies(), vec![&"b"]);
}

#[test]
fn management_counts() {
    let mut management = ManagementServer::new(Settings::default());
    let connected = management.step(ManagementInput::Connected { id: 1, proxy: "a" });
    assert_eq!(
        connected.updates,
        vec![
            MetricsUpdate::IncConnections(ConnectionRole::Server),
            MetricsUpdate::SetCurrentConnections(ConnectionRole::Server, 1),
        ]
    );
    assert_eq!(connected.stopped, None);
    assert_eq!(management.step(ManagementInput::ConnectionFailed).updates, vec![]);
    management.step(ManagementInput::Connected { id: 2, proxy: "b" });
    let tick = ManagementInput::Tick { players: vec![3, 4], assets_sizes: vec![100, 0] };
    assert_eq!(
        management.step(tick).updates,
        vec![
            MetricsUpdate::SetCurrentConnections(ConnectionRole::Client, 7),
            MetricsUpdate::SetCurrentAssetsSizeBytes(100),
        ]
    );
    let stopped = management.step(ManagementInput::Event(ProxyEvent::Stopped { id: 1 }));
    assert_eq!(
        stopped.updates,
        vec![MetricsUpdate::SetCurrentConnections(ConnectionRole::Server, 1)]
    );
    assert_eq!(stopped.stopped, Some("a"));
    let again = management.step(ManagementInput::Event(ProxyEvent::Stopped { id: 1 }));
    assert_eq!(again.stopped, None);
    assert_eq!(management.proxies().get_proxy(&2), Some(&"b"));
}

#[test]
fn management_opens_allocations() {
    let settings = Settings {
        public_host_name: "play.example".to_string(),
        http_public_host_name: Some("assets.example".to_string()),
        http_port: Some(80),
        ..Settings::default()
    };
    let management = ManagementServer::<()>::new(settings);
    assert_eq!(management.settings().management_port, 7000);
    let mut proxy: Proxy = management.handle_connection();
    let id = proxy.id();
    assert!(proxy.has_ports());
    let tried = proxy.ports_to_try(DefaultHasher::new()).unwrap();
    assert_eq!(tried, candidate_ports(9000, 9999, DefaultHasher::new()));
    let message = proxy.handle_allocate_message(Bound::Endpoint("socket", Some(9001)), EXTERNAL);
    match message.unwrap() {
        ServerMessage::Allocation { id: sent, allocated_endpoint, assets_root, .. } => {
            assert_eq!(sent, id);
            assert_eq!(allocated_endpoint, "play.example:9001");
            let text = allocation_id_text(id);
            assert_eq!(assets_root, format!("http://assets.example:80/content/{text}/"));
        }
        other => panic!("{other:?}"),
    }
}

#[test]
fn requests_over_http() {
    let mut store = ProxyStore::new();
    store.insert(ID, "proxy");
    let text = allocation_id_text(ID);
    let (found, request) = begin_get_asset(&store, &text, "k".to_string()).unwrap();
    assert_eq!(found, &"proxy");
    assert_eq!(request.request_failed(), Error::AssetRequestFailed("k".to_string()));
    assert_eq!(
        begin_get_asset(&store, "nonsense", "k".to_string()).unwrap_err(),
        (
            Refusal::BadRequest,
            MetricsUpdate::IncAssetRequests(AssetRequestResult::Malformed)
        )
    );
    let unknown = allocation_id_text(ID + 1);
    assert_eq!(
        begin_get_asset(&store, &unknown, "k".to_string()).unwrap_err(),
        (
            Refusal::NotFound,
            MetricsUpdate::IncAssetRequests(AssetRequestResult::AllocationNotFound)
        )
    );
    assert_eq!(get_stats(&store, &text), Ok(&"proxy"));
    assert_eq!(get_stats(&store, "x"), Err(Refusal::BadRequest));
    assert_eq!(get_stats(&store, &unknown), Err(Refusal::NotFound));
    assert_eq!(Refusal::BadRequest.status_code(), 400);
    assert_eq!(Refusal::NotFound.status_code(), 404);
    assert_eq!(Refusal::InternalServerError.status_code(), 500);
}

#[test]
fn responses_over_http() {
    let data = ::bytes::Bytes::from_static(b"12345");
    let (response, updates) = get_asset(Ok(Some(data.clone())));
    assert_eq!(response, Ok(data));
    assert_eq!(
        updates,
        vec![
            MetricsUpdate::IncAssetRequests(AssetRequestResult::Success),
            MetricsUpdate::ObserveAssetResponseSizeBytes(5),
        ]
    );
    let (response, updates) = get_asset(Ok(None));
    assert_eq!(response, Err(Refusal::NotFound));
    assert_eq!(updates, vec![MetricsUpdate::IncAssetRequests(AssetRequestResult::AssetNotFound)]);
    let (response, updates) = get_asset(Err(Error::AssetTimedOut("k".to_string())));
    assert_eq!(response, Err(Refusal::InternalServerError));
    assert_eq!(updates, vec![MetricsUpdate::IncAssetRequests(AssetRequestResult::Error)]);
}

#[test]
fn metrics_values() {
    assert_eq!(gauge_value(0), Some(0));
    assert_eq!(gauge_value(i64::MAX as usize), Some(i64::MAX));
    assert_eq!(gauge_value(i64::MAX as usize + 1), None);
    let buckets = asset_response_size_buckets();
    assert_eq!(buckets.len(), 21);
    assert_eq!(buckets[0], 1024);
    assert_eq!(buckets[9], 1024 * 512);
    assert_eq!(buckets[10], 1024 * 1024);
    assert_eq!(buckets[20], 1024 * 1024 * 1024);
    assert!(buckets.windows(2).all(|pair| pair[0] < pair[1]));
}

#[test]
fn log_formats() {
    assert_eq!(log_format(None), LogFormat::Stackdriver);
    assert_eq!(log_format(Some("bunyan")), LogFormat::Bunyan);
    assert_eq!(log_format(Some("BunYan")), LogFormat::Bunyan);
    assert_eq!(log_format(Some("STACKDRIVER")), LogFormat::Stackdriver);
    assert_eq!(log_format(Some("")), LogFormat::Text);
    assert_eq!(log_format(Some("json")), LogFormat::Text);
}

#[test]
fn totals_that_fit() {
    assert_eq!(total(&vec![]), Some(0));
    assert_eq!(total(&vec![1, 2, 3]), Some(6));
    assert_eq!(total(&vec![usize::MAX, 0]), Some(usize::MAX));
    assert_eq!(total(&vec![usize::MAX, 1]), None);
}
