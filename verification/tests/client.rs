use ambient_proxy::bytes::prefix;
use ambient_proxy::client::{
    builder, AllocatedEndpoint, AssetsPath, BuildStep, Builder, Client, ClientAction,
    ClientController, ClientInput, ClientTask, DirectoryEntry, EntryAction, PreCachingStep,
    ProxiedConnection,
};
use ambient_proxy::error::Error;
use ambient_proxy::pending::{PendingQueues, PendingResources, QueuedResource, Taken};
use ambient_proxy::protocol::{
    ClientMessage, ClientStreamHeader, DatagramInfo, IpAddress, ServerMessage, ServerStreamHeader,
    SocketAddress,
};
use ambient_proxy::streams::{read_framed, Framed, HEADER_SIZE_LIMIT};
use ambient_proxy::table::Table;

const V4: SocketAddress = SocketAddress { ip: IpAddress::V4([1, 2, 3, 4]), port: 7000 };
const V6: SocketAddress = SocketAddress { ip: IpAddress::V6([1; 16]), port: 7000 };

type Task = ClientTask<u32, (u32, u32), char>;

fn parts(path: &[&str]) -> Vec<Vec<u8>> {
    path.iter().map(|part| part.as_bytes().to_vec()).collect()
}

fn assets_path() -> AssetsPath<&'static str> {
    AssetsPath { path: "/srv/assets", parts: parts(&["/", "srv", "assets"]) }
}

fn start(assets: bool, root: Option<&str>) -> (Task, ClientController<&'static str>) {
    let assets = if assets { Some(assets_path()) } else { None };
    Client::new("project".to_string(), assets, root.map(str::to_string)).start()
}

fn given() -> Builder<(), &'static str> {
    builder().assets_path("assets").proxy_server("localhost:7000".to_string())
}

#[test]
fn builder_steps() {
    match given().build("agent/1") {
        Ok(BuildStep::Connect { proxy_server }) => assert_eq!(proxy_server, "localhost:7000"),
        other => panic!("{other:?}"),
    }
    for url in ["http://a/proxy", "https://b/proxy"] {
        match given().proxy_server(url.to_string()).build("agent/1") {
            Ok(BuildStep::Fetch { url: asked, user_agent }) => {
                assert_eq!((asked.as_str(), user_agent.as_str()), (url, "agent/1"))
            }
            other => panic!("{other:?}"),
        }
    }
    let own = given().proxy_server("http://a".to_string()).user_agent("mine".to_string());
    match own.build("agent/1") {
        Ok(BuildStep::Fetch { user_agent, .. }) => assert_eq!(user_agent, "mine"),
        other => panic!("{other:?}"),
    }
    let httpish = given().proxy_server("httpx://a".to_string());
    assert!(matches!(httpish.build(""), Ok(BuildStep::Connect { .. })));
}

#[test]
fn builder_that_lacks_something() {
    let nothing = Builder::<(), ()>::new();
    assert_eq!(nothing.build("").unwrap_err(), Error::NoAssetsSource);
    let no_server = Builder::<(), ()>::new().assets_root_override("http://cdn/".to_string());
    assert_eq!(no_server.build("").unwrap_err(), Error::NoProxyServer);
    let no_assets = Builder::<(), ()>::new().proxy_server("a".to_string());
    assert_eq!(no_assets.build("").unwrap_err(), Error::NoAssetsSource);
    let full = given().endpoint(()).project_id("p".to_string());
    assert_eq!(full.project_id, "p");
    assert_eq!(full.endpoint, Some(()));
    assert_eq!(full.assets_path, Some("assets"));
}

#[test]
fn builder_takes_the_named_proxy() {
    match Builder::<(), ()>::fetched(" \n proxy.example:7000\u{3000}\r\n") {
        Ok(BuildStep::Connect { proxy_server }) => assert_eq!(proxy_server, "proxy.example:7000"),
        other => panic!("{other:?}"),
    }
    assert_eq!(Builder::<(), ()>::fetched(" \t\n").unwrap_err(), Error::NoProxyServerToUse);
    assert_eq!(Builder::<(), ()>::fetched("").unwrap_err(), Error::NoProxyServerToUse);
}

#[test]
fn client_connects_to_the_first_ipv4_address() {
    let other = SocketAddress { ip: IpAddress::V4([9, 9, 9, 9]), port: 7000 };
    let found = vec![V6, V4, other];
    let destination = Client::<()>::connect("proxy.example:7000".to_string(), &found).unwrap();
    assert_eq!(destination.address, V4);
    assert_eq!(destination.host, "proxy.example");
    let destination = Client::<()>::connect("proxy".to_string(), &found).unwrap();
    assert_eq!(destination.host, "proxy");
    let destination = Client::<()>::connect("a:b:c".to_string(), &found).unwrap();
    assert_eq!(destination.host, "a");
    for found in [vec![], vec![V6]] {
        assert_eq!(
            Client::<()>::connect("proxy:1".to_string(), &found).unwrap_err(),
            Error::HostNotFound("proxy:1".to_string())
        );
    }
}

fn allocation() -> ServerMessage {
    ServerMessage::Allocation {
        id: 7,
        allocated_endpoint: "proxy:9000".to_string(),
        assets_root: "http://proxy/content/".to_string(),
        external_endpoint: V4,
    }
}

#[test]
fn allocated_endpoint_of_a_message() {
    let endpoint = AllocatedEndpoint::try_from(allocation()).unwrap();
    assert_eq!(endpoint.id, 7);
    assert_eq!(endpoint.allocated_endpoint, "proxy:9000");
    assert_eq!(endpoint.assets_root, "http://proxy/content/");
    assert_eq!(endpoint.external_endpoint, V4);
    let other = ServerMessage::RequestAsset { key: "k".to_string() };
    assert!(AllocatedEndpoint::try_from(other).is_err());
}

#[test]
fn messages_from_the_proxy() {
    let (mut task, _) = start(true, None);
    assert!(!task.is_endpoint_allocated());
    match task.step(ClientInput::Message(allocation()), 'x') {
        ClientAction::Allocated(endpoint) => {
            assert_eq!(endpoint.assets_root, "http://proxy/content/")
        }
        other => panic!("{other:?}"),
    }
    assert!(task.is_endpoint_allocated());
    let connected = ServerMessage::PlayerConnected { player_id: "ann".to_string() };
    match task.step(ClientInput::Message(connected), 'x') {
        ClientAction::PlayerConnected { player_id, .. } => assert_eq!(player_id, "ann"),
        other => panic!("{other:?}"),
    }
    let request = ServerMessage::RequestAsset { key: "k".to_string() };
    match task.step(ClientInput::Message(request.clone()), 'x') {
        ClientAction::LoadAsset { key } => assert_eq!(key, "k"),
        other => panic!("{other:?}"),
    }

    let (mut task, _) = start(false, Some("http://cdn/"));
    match task.handle_message(allocation()) {
        ClientAction::Allocated(endpoint) => assert_eq!(endpoint.assets_root, "http://cdn/"),
        other => panic!("{other:?}"),
    }
    match task.handle_message(request) {
        ClientAction::Skip(error) => assert_eq!(error, Error::AssetsPathNotSet),
        other => panic!("{other:?}"),
    }
    assert!(matches!(task.step(ClientInput::Closed, 'x'), ClientAction::Stop));
    assert!(matches!(task.step(ClientInput::NothingLeft, 'x'), ClientAction::Stop));
}

#[test]
fn streams_wait_for_their_players() {
    let (mut task, _) = start(true, None);
    let header = |id: &str| Ok(ServerStreamHeader::PlayerStreamOpened { player_id: id.to_string() });
    let ann = ProxiedConnection::new("ann".to_string());
    let bob = ProxiedConnection::new("bob".to_string());
    assert!(matches!(ann.accept_uni(&mut task, 'a'), Taken::Wait('a')));
    let woken = task.step(ClientInput::UniStream { header: header("ann"), stream: 1 }, 'b');
    assert!(matches!(woken, ClientAction::Wake('a')));
    task.step(ClientInput::UniStream { header: header("ann"), stream: 2 }, 'c');
    let woken = task.step(ClientInput::UniStream { header: header("bob"), stream: 3 }, 'd');
    assert!(matches!(woken, ClientAction::Wake('d')));
    assert!(matches!(ann.accept_uni(&mut task, 'e'), Taken::Ready(1)));
    assert!(matches!(bob.accept_uni(&mut task, 'e'), Taken::Ready(3)));
    assert!(matches!(bob.accept_uni(&mut task, 'e'), Taken::Wait('d')));
    assert!(matches!(ann.accept_uni(&mut task, 'e'), Taken::Ready(2)));
    assert!(matches!(ann.accept_bi(&mut task, 'f'), Taken::Wait('f')));
    task.step(ClientInput::BiStream { header: header("ann"), streams: (4, 5) }, 'g');
    assert!(matches!(ann.accept_bi(&mut task, 'h'), Taken::Ready((4, 5))));

    let bad = ClientInput::UniStream { header: Err(Error::BadMsgFormat), stream: 6 };
    assert!(matches!(task.step(bad, 'i'), ClientAction::Skip(Error::BadMsgFormat)));
    let bad = ClientInput::BiStream { header: Err(Error::MessageTooLong(2000)), streams: (7, 8) };
    assert!(matches!(task.step(bad, 'i'), ClientAction::Skip(Error::MessageTooLong(2000))));
}

#[test]
fn datagrams_wait_for_their_players() {
    let (mut task, _) = start(true, None);
    let info = DatagramInfo { player_id: "ann".to_string() };
    let datagram = prefix(&info, ::bytes::Bytes::from_static(b"hello")).unwrap();
    assert!(matches!(task.step(ClientInput::Datagram(datagram), 'x'), ClientAction::Wake('x')));
    let bob = ProxiedConnection::new("bob".to_string());
    assert!(matches!(bob.read_datagram(&mut task, 'y'), Taken::Wait('y')));
    let ann = ProxiedConnection::new("ann".to_string());
    match ann.read_datagram(&mut task, 'z') {
        Taken::Ready(data) => assert_eq!(&data[..], b"hello"),
        other => panic!("{other:?}"),
    }
    assert!(matches!(ann.read_datagram(&mut task, 'z'), Taken::Wait('x')));
    let bad = ClientInput::Datagram(::bytes::Bytes::from_static(&[0, 0, 0, 1, 7]));
    assert!(matches!(task.step(bad, 'w'), ClientAction::Skip(Error::BadMsgFormat)));
}

#[test]
fn connection_to_a_player() {
    let ann = ProxiedConnection::new("ann".to_string());
    for head in [ann.open_uni().unwrap(), ann.open_bi().unwrap()] {
        match read_framed::<ClientStreamHeader>(&head, HEADER_SIZE_LIMIT) {
            Ok(Framed::Message(ClientStreamHeader::OpenPlayerStream { player_id })) => {
                assert_eq!(player_id, "ann")
            }
            other => panic!("{other:?}"),
        }
    }
    let sent = ann.send_datagram(::bytes::Bytes::from_static(b"hi")).unwrap();
    assert_eq!(&sent[..], b"\0\0\0\x0b\x03\0\0\0\0\0\0\0annhi");
}

#[test]
fn endpoint_is_asked_for() {
    let (_, mut controller) = start(true, None);
    assert_eq!(
        controller.allocate_message(),
        ClientMessage::AllocateEndpoint { project_id: "project".to_string() }
    );
    assert_eq!(controller.allocate_endpoint(false), Err(Error::AllocateNotSent));
    let inside = parts(&["/", "srv", "assets", "a"]);
    assert_eq!(controller.pre_cache_assets("a", &inside), Ok(false));
    assert_eq!(controller.allocate_endpoint(true), Ok(true));
    assert_eq!(controller.pre_cache_assets("b", &inside), Ok(false));
    assert_eq!(controller.allocate_endpoint(true), Ok(false));
    controller.finish_task();
    assert_eq!(controller.pre_cache_assets("c", &inside), Ok(true));

    let (_, mut empty) = start(true, None);
    assert_eq!(empty.allocate_endpoint(true), Ok(false));
}

#[test]
fn directories_outside_are_not_noted() {
    let (_, mut controller) = start(true, None);
    let outside = parts(&["/", "srv", "other"]);
    assert_eq!(controller.pre_cache_assets("x", &outside), Err(Error::OutsideAssets));
    assert_eq!(controller.next_directory(), None);
    let (_, mut without) = start(false, None);
    assert_eq!(without.pre_cache_assets("x", &outside), Err(Error::AssetsPathNotSet));
    assert_eq!(without.assets_path().unwrap_err(), Error::AssetsPathNotSet);
    assert!(!without.start_pre_caching_task_if_needed());
    assert_eq!(controller.assets_path().unwrap().path, "/srv/assets");
}

#[test]
fn one_task_at_a_time() {
    let (_, mut controller) = start(true, None);
    assert!(controller.start_pre_caching_task_if_needed());
    assert!(!controller.start_pre_caching_task_if_needed());
    assert_eq!(controller.task_step(true, false), PreCachingStep::Wait);
    assert_eq!(controller.task_step(true, true), PreCachingStep::Drain);
    assert!(!controller.start_pre_caching_task_if_needed());
    assert_eq!(controller.task_step(false, true), PreCachingStep::Finished);
    assert!(controller.start_pre_caching_task_if_needed());
    controller.finish_task();
    assert!(controller.start_pre_caching_task_if_needed());
}

#[test]
fn directories_are_taken_last_in_first_out() {
    let (_, mut controller) = start(true, None);
    let inside = parts(&["/", "srv", "assets"]);
    controller.pre_cache_assets("a", &inside).unwrap();
    controller.pre_cache_assets("b", &inside).unwrap();
    assert_eq!(controller.next_directory(), Some("b"));
    assert_eq!(controller.drain_entry(DirectoryEntry::Directory("b/c")), EntryAction::Noted);
    assert_eq!(controller.next_directory(), Some("b/c"));
    assert_eq!(controller.next_directory(), Some("a"));
    assert_eq!(controller.next_directory(), None);
    let file = |path: Option<&str>| DirectoryEntry::File { relative: path.map(str::to_string) };
    assert_eq!(
        controller.drain_entry(file(Some("b/./x.glb"))),
        EntryAction::Store { key: "b/x.glb".to_string() }
    );
    assert_eq!(
        controller.drain_entry(file(Some("../x"))),
        EntryAction::Skip(Error::ParentDirInPath)
    );
    assert_eq!(
        controller.drain_entry(file(Some("/x"))),
        EntryAction::Skip(Error::PathNotRelative)
    );
    assert_eq!(controller.drain_entry(file(None)), EntryAction::Skip(Error::PathNotText));
    assert_eq!(
        controller.drain_entry(DirectoryEntry::Outside),
        EntryAction::Skip(Error::OutsideAssets)
    );
    assert_eq!(
        controller.drain_entry(file(Some("dir/a:b.png"))),
        EntryAction::Store { key: "dir/a:b.png".to_string() }
    );
    assert_eq!(controller.drain_entry(DirectoryEntry::Other), EntryAction::Ignore);
}

/// The entries of the directories of a small tree.
fn listing(directory: &str) -> Vec<DirectoryEntry<&'static str>> {
    let file = |path: &str| DirectoryEntry::File { relative: Some(path.to_string()) };
    match directory {
        "root" => vec![
            file("a.png"),
            DirectoryEntry::Directory("root/x"),
            DirectoryEntry::Other,
            file("b.png"),
            DirectoryEntry::Directory("root/y"),
        ],
        "root/x" => vec![DirectoryEntry::Directory("root/x/z"), file("x/c.png")],
        "root/x/z" => vec![file("x/z/d.png")],
        "other" => vec![file("e.png")],
        _ => vec![],
    }
}

#[test]
fn every_file_is_handed_out_once() {
    let (_, mut controller) = start(true, None);
    let inside = parts(&["/", "srv", "assets"]);
    controller.pre_cache_assets("root", &inside).unwrap();
    controller.pre_cache_assets("other", &inside).unwrap();
    let mut keys = Vec::new();
    let mut rounds = 0;
    while let Some(directory) = controller.next_directory() {
        rounds += 1;
        for entry in listing(directory) {
            if let EntryAction::Store { key } = controller.drain_entry(entry) {
                keys.push(key);
            }
        }
    }
    keys.sort();
    assert_eq!(keys, ["a.png", "b.png", "e.png", "x/c.png", "x/z/d.png"]);
    assert_eq!(rounds, 5);
}

#[test]
fn controller_stores_assets() {
    let (_, controller) = start(true, None);
    let message = controller.store_asset("k".to_string(), vec![1, 2, 3]).unwrap();
    assert_eq!(message.data, [1, 2, 3]);
    match read_framed::<ClientStreamHeader>(&message.header, HEADER_SIZE_LIMIT) {
        Ok(Framed::Message(ClientStreamHeader::StoreAsset { key, length: 3, compression })) => {
            assert_eq!((key.as_str(), compression.as_str()), ("k", ""))
        }
        other => panic!("{other:?}"),
    }
}

#[test]
fn queues_are_first_in_first_out() {
    let mut queue = QueuedResource::new('n');
    assert_eq!(queue.pop(), None);
    assert_eq!(queue.push(1), 'n');
    queue.push(2);
    assert_eq!(queue.notifier(), 'n');
    assert_eq!(queue.pop(), Some(1));
    queue.push(3);
    assert_eq!(queue.pop(), Some(2));
    assert_eq!(queue.pop(), Some(3));
    assert_eq!(queue.pop(), None);

    let mut queues = PendingQueues::new();
    queues.push("a", 1, 'x');
    queues.push("b", 2, 'y');
    queues.push("a", 3, 'z');
    assert!(matches!(queues.take("b", 'w'), Taken::Ready(2)));
    assert!(matches!(queues.take("a", 'w'), Taken::Ready(1)));
    assert!(matches!(queues.take("b", 'w'), Taken::Wait('y')));
    assert!(matches!(queues.take("a", 'w'), Taken::Ready(3)));
    assert!(matches!(queues.take("a", 'w'), Taken::Wait('x')));

    let mut pending = PendingResources::<u8, u16, u32, char>::new();
    assert!(matches!(pending.uni_streams.take("a", 'p'), Taken::Wait('p')));
}

#[test]
fn tables_hold_what_was_put_in() {
    let mut table = Table::new();
    assert_eq!(table.insert("a".to_string(), 1), None);
    assert_eq!(table.insert("b".to_string(), 2), None);
    assert_eq!(table.insert("c".to_string(), 3), None);
    assert_eq!(table.insert("b".to_string(), 4), Some(2));
    *table.entry("a", 9) += 10;
    *table.entry("d", 9) += 10;
    assert_eq!(table.len(), 4);
    assert_eq!((table.get("a"), table.get("d")), (Some(&11), Some(&19)));
    assert_eq!(table.remove("a"), Some(11));
    assert_eq!(table.remove("a"), None);
    assert_eq!(table.get("a"), None);
    assert_eq!((table.get("b"), table.get("c"), table.get("d")), (Some(&4), Some(&3), Some(&19)));
    let sum: i32 = (0..table.len()).map(|i| *table.value_at(i)).sum();
    assert_eq!(sum, 26);
}
