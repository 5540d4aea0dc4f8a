use ambient_proxy::bytes::{drop_prefix, is_prefixed, prefix, to_binary_prefix};
use ambient_proxy::error::Error;
use ambient_proxy::messaging::{ChannelAction, ChannelInput, MessageChannel};
use ambient_proxy::protocol::{
    ClientMessage, ClientStreamHeader, DatagramInfo, IpAddress, ServerMessage, ServerStreamHeader,
    SocketAddress,
};
use ambient_proxy::streams::{
    read_framed, write_framed, Framed, IncomingStream, OutgoingStream, HEADER_SIZE_LIMIT,
};
use ambient_proxy::wire::WireMessage;

fn allocation() -> ServerMessage {
    ServerMessage::Allocation {
        id: 0x0011_2233_4455_4677_8899_aabb_ccdd_eeff,
        allocated_endpoint: "proxy:9000".to_string(),
        assets_root: "http://proxy/".to_string(),
        external_endpoint: SocketAddress { ip: IpAddress::V4([10, 0, 0, 1]), port: 0x1234 },
    }
}

#[test]
fn server_message_bytes() {
    let mut expected = vec![0, 0, 0, 0];
    expected.extend([16, 0, 0, 0, 0, 0, 0, 0]);
    expected.extend([
        0x00, 0x11, 0x22, 0x33, 0x44, 0x55, 0x46, 0x77, 0x88, 0x99, 0xaa, 0xbb, 0xcc, 0xdd, 0xee,
        0xff,
    ]);
    expected.extend([10, 0, 0, 0, 0, 0, 0, 0]);
    expected.extend(b"proxy:9000");
    expected.extend([13, 0, 0, 0, 0, 0, 0, 0]);
    expected.extend(b"http://proxy/");
    expected.extend([0, 0, 0, 0, 10, 0, 0, 1, 0x34, 0x12]);
    assert_eq!(allocation().to_bytes().unwrap(), expected);

    let asset = ServerMessage::RequestAsset { key: "k".to_string() };
    assert_eq!(asset.to_bytes().unwrap(), [2, 0, 0, 0, 1, 0, 0, 0, 0, 0, 0, 0, b'k']);
}

/// The tuples stand for the messages and the addresses: a variant's number, then its fields.
#[test]
fn messages_are_what_bincode_writes() {
    let address = (0u32, [10u8, 0, 0, 1], 0x1234u16);
    let id = uuid::Uuid::from_u128(0x0011_2233_4455_4677_8899_aabb_ccdd_eeff);
    let expected = bincode::serialize(&(0u32, id, "proxy:9000", "http://proxy/", address)).unwrap();
    assert_eq!(allocation().to_bytes().unwrap(), expected);

    let v6 = ServerMessage::Allocation {
        id: 7,
        allocated_endpoint: String::new(),
        assets_root: "ä€".to_string(),
        external_endpoint: SocketAddress {
            ip: IpAddress::V6([0, 1, 2, 3, 4, 5, 6, 7, 8, 9, 10, 11, 12, 13, 14, 15]),
            port: 9,
        },
    };
    let octets: [u8; 16] = [0, 1, 2, 3, 4, 5, 6, 7, 8, 9, 10, 11, 12, 13, 14, 15];
    let address = (1u32, octets, 9u16);
    let expected =
        bincode::serialize(&(0u32, uuid::Uuid::from_u128(7), "", "ä€", address)).unwrap();
    assert_eq!(v6.to_bytes().unwrap(), expected);

    let store = ClientStreamHeader::StoreAsset {
        key: "a/b".to_string(),
        length: 77,
        compression: "gzip".to_string(),
    };
    let expected = bincode::serialize(&(1u32, "a/b", 77u32, "gzip")).unwrap();
    assert_eq!(store.to_bytes().unwrap(), expected);
    let allocate = ClientMessage::AllocateEndpoint { project_id: "p".to_string() };
    assert_eq!(allocate.to_bytes().unwrap(), bincode::serialize(&(0u32, "p")).unwrap());
    let opened = ServerStreamHeader::PlayerStreamOpened { player_id: "q".to_string() };
    assert_eq!(opened.to_bytes().unwrap(), bincode::serialize(&(0u32, "q")).unwrap());
    let info = DatagramInfo { player_id: "r".to_string() };
    assert_eq!(info.to_bytes().unwrap(), bincode::serialize("r").unwrap());
}

#[test]
fn messages_are_read_back() {
    let bytes = allocation().to_bytes().unwrap();
    assert_eq!(ServerMessage::from_bytes(&bytes), Ok(allocation()));
    let mut longer = bytes.clone();
    longer.push(9);
    assert_eq!(ServerMessage::from_bytes(&longer), Ok(allocation()));
    for len in 0..bytes.len() {
        assert_eq!(ServerMessage::from_bytes(&bytes[..len]), Err(Error::BadMsgFormat));
    }
    assert_eq!(ServerMessage::from_bytes(&[3, 0, 0, 0]), Err(Error::BadMsgFormat));
    assert_eq!(
        DatagramInfo::from_bytes(&[1, 0, 0, 0, 0, 0, 0, 0, 0xff]).map(|info| info.player_id),
        Err(Error::BadMsgFormat)
    );
}

#[test]
fn prefix_comes_off_again() {
    let info = DatagramInfo { player_id: "ann".to_string() };
    let datagram = prefix(&info, ::bytes::Bytes::from_static(b"hello")).unwrap();
    let mut expected = vec![0, 0, 0, 11, 3, 0, 0, 0, 0, 0, 0, 0];
    expected.extend(b"annhello");
    assert_eq!(&datagram[..], &expected[..]);
    assert!(is_prefixed(&datagram));
    let (info, data) = drop_prefix::<DatagramInfo>(datagram).unwrap();
    assert_eq!(info.player_id, "ann");
    assert_eq!(&data[..], b"hello");
}

#[test]
fn prefix_that_is_no_header() {
    assert!(!is_prefixed(&::bytes::Bytes::from_static(&[0, 0, 0])));
    assert!(!is_prefixed(&::bytes::Bytes::from_static(&[0, 0, 0, 2, 1])));
    let short = ::bytes::Bytes::from_static(&[0, 0, 0, 2, 1, 1]);
    assert!(is_prefixed(&short));
    assert!(matches!(drop_prefix::<DatagramInfo>(short), Err(Error::BadMsgFormat)));
}

#[test]
fn binary_prefixes() {
    assert_eq!(to_binary_prefix(0), "0");
    assert_eq!(to_binary_prefix(10239), "10239");
    assert_eq!(to_binary_prefix(10240), "10K");
    assert_eq!(to_binary_prefix(10 * 1024 * 1024 - 1), "10239K");
    assert_eq!(to_binary_prefix(10 * 1024 * 1024), "10M");
    assert_eq!(to_binary_prefix(10 * 1024 * 1024 * 1024 - 1), "10239M");
    assert_eq!(to_binary_prefix(10 * 1024 * 1024 * 1024), "10G");
    assert_eq!(to_binary_prefix(u64::MAX), "17179869183G");
}

#[test]
fn frames_in_pieces() {
    let out = OutgoingStream::new();
    let first = ServerMessage::PlayerConnected { player_id: "ann".to_string() };
    let second = ServerMessage::RequestAsset { key: "k".to_string() };
    let mut sent = out.send(&first).unwrap();
    assert_eq!(&sent[..4], &[0, 0, 0, 15]);
    let bad = out.send_bytes(vec![9, 9]).unwrap();
    assert_eq!(bad, [0, 0, 0, 2, 9, 9]);
    sent.extend(bad);
    sent.extend(out.send(&second).unwrap());

    let mut incoming = IncomingStream::new();
    incoming.receive(&sent[..6]);
    assert_eq!(incoming.next::<ServerMessage>(), Ok(None));
    incoming.receive(&sent[6..]);
    assert_eq!(incoming.next::<ServerMessage>(), Ok(Some(first)));
    assert_eq!(incoming.next::<ServerMessage>(), Err(Error::BadMsgFormat));
    assert_eq!(incoming.next::<ServerMessage>(), Ok(Some(second)));
    assert_eq!(incoming.next::<ServerMessage>(), Ok(None));
}

#[test]
fn frames_that_are_too_long() {
    let mut incoming = IncomingStream::new();
    incoming.receive(&[0x40, 0, 0, 1, 0]);
    assert_eq!(incoming.next::<ServerMessage>(), Err(Error::FrameTooLong));
    assert_eq!(incoming.next::<ServerMessage>(), Err(Error::FrameTooLong));
    let mut limit = IncomingStream::new();
    limit.receive(&[0x40, 0, 0, 0, 0]);
    assert_eq!(limit.next::<ServerMessage>(), Ok(None));
}

#[test]
fn stream_headers() {
    let header = ServerStreamHeader::PlayerStreamOpened { player_id: "ann".to_string() };
    let mut sent = write_framed(&header).unwrap();
    assert_eq!(&sent[..4], &[0, 0, 0, 15]);
    assert!(matches!(
        read_framed::<ServerStreamHeader>(&[], HEADER_SIZE_LIMIT),
        Ok(Framed::Need(4))
    ));
    assert!(matches!(
        read_framed::<ServerStreamHeader>(&sent[..6], HEADER_SIZE_LIMIT),
        Ok(Framed::Need(13))
    ));
    sent.extend(b"what follows");
    match read_framed::<ServerStreamHeader>(&sent, HEADER_SIZE_LIMIT) {
        Ok(Framed::Message(ServerStreamHeader::PlayerStreamOpened { player_id })) => {
            assert_eq!(player_id, "ann")
        }
        other => panic!("{other:?}"),
    }
    assert!(matches!(
        read_framed::<ServerStreamHeader>(&[0, 0, 4, 1], HEADER_SIZE_LIMIT),
        Err(Error::MessageTooLong(1025))
    ));
    assert!(matches!(
        read_framed::<ServerStreamHeader>(&[0, 0, 0, 1, 7], HEADER_SIZE_LIMIT),
        Err(Error::BadMsgFormat)
    ));
}

fn delivered(action: ChannelAction<ServerMessage>) -> Vec<ServerMessage> {
    match action {
        ChannelAction::Deliver(messages) => messages,
        other => panic!("{other:?}"),
    }
}

#[test]
fn channel_delivers_in_order_whatever_the_pieces() {
    let mut sender = MessageChannel::new();
    let mut sent = Vec::new();
    for i in 0..5 {
        let message = ServerMessage::RequestAsset { key: format!("asset{i}") };
        match sender.step::<ClientMessage, ServerMessage>(ChannelInput::Send(message)) {
            ChannelAction::Write(bytes) => sent.extend(bytes),
            other => panic!("{other:?}"),
        }
    }
    for size in 1..sent.len() {
        let mut receiver = MessageChannel::new();
        let mut messages = Vec::new();
        for piece in sent.chunks(size) {
            let input = ChannelInput::<ClientMessage>::Received(piece.to_vec());
            messages.extend(delivered(receiver.step(input)));
        }
        let keys: Vec<ServerMessage> =
            (0..5).map(|i| ServerMessage::RequestAsset { key: format!("asset{i}") }).collect();
        assert_eq!(messages, keys);
    }
}

#[test]
fn channel_passes_over_bad_frames_and_stops() {
    let mut channel = MessageChannel::new();
    assert!(!channel.is_started());
    let opened = channel.step::<ServerMessage, ClientMessage>(ChannelInput::Opened);
    assert!(matches!(opened, ChannelAction::Started));
    assert!(channel.is_started());
    let message = ServerMessage::PlayerConnected { player_id: "x".to_string() };
    let mut bytes = vec![0, 0, 0, 1, 5];
    bytes.extend(OutgoingStream::new().send(&message).unwrap());
    let input = ChannelInput::<ClientMessage>::Received(bytes);
    assert_eq!(delivered(channel.step(input)), vec![message]);
    let closed = channel.step::<ServerMessage, ClientMessage>(ChannelInput::Closed);
    assert!(matches!(closed, ChannelAction::Stop));
    let failed = MessageChannel::new().step::<ServerMessage, ClientMessage>(ChannelInput::OpenFailed);
    assert!(matches!(failed, ChannelAction::Stop));
}
