use ambient_proxy::asset_store::{AssetRequest, AssetStep, AssetStore};
use ambient_proxy::assets::{
    check_asset, pack, send_store_asset_message, store_packed_asset_message, unpack, PackedAsset,
    ASSET_SIZE_LIMIT,
};
use ambient_proxy::error::Error;
use ambient_proxy::protocol::{ClientStreamHeader, ServerMessage};
use ambient_proxy::streams::{read_framed, Framed, HEADER_SIZE_LIMIT};

#[test]
fn small_assets_travel_as_they_are() {
    let asset = pack(vec![7; 1023]).unwrap();
    assert_eq!(asset.compression, "");
    assert_eq!(asset.data, vec![7; 1023]);
    assert_eq!(unpack(asset).unwrap(), vec![7; 1023]);
}

#[test]
fn large_assets_travel_as_gzip() {
    let data: Vec<u8> = (0..4096u32).map(|i| (i * i % 251) as u8).collect();
    let asset = pack(data.clone()).unwrap();
    assert_eq!(asset.compression, "gzip");
    assert_eq!(&asset.data[..3], &[0x1f, 0x8b, 8]);
    assert_ne!(asset.data, data);
    assert_eq!(unpack(asset).unwrap(), data);
    assert_eq!(pack(vec![7; 1024]).unwrap().compression, "gzip");
    assert!(pack(vec![7; 1024]).unwrap().data.len() < 1024);
}

#[test]
fn assets_that_do_not_unpack() {
    let asset = PackedAsset { data: vec![1, 2, 3], compression: "gzip".to_string() };
    assert_eq!(unpack(asset), Err(Error::DecompressionFailed));
    let mut cut = pack(vec![7; 2000]).unwrap();
    cut.data.pop();
    assert_eq!(unpack(cut), Err(Error::DecompressionFailed));
    let plain = PackedAsset { data: vec![1, 2, 3], compression: String::new() };
    assert_eq!(unpack(plain), Ok(vec![1, 2, 3]));
}

#[test]
fn assets_that_are_not_accepted() {
    assert_eq!(check_asset(0, String::new()), Ok(()));
    assert_eq!(check_asset(ASSET_SIZE_LIMIT, "gzip".to_string()), Ok(()));
    assert_eq!(ASSET_SIZE_LIMIT, 134_217_728);
    assert_eq!(
        check_asset(ASSET_SIZE_LIMIT + 1, "gzip".to_string()),
        Err(Error::AssetTooLarge(134_217_729))
    );
    assert_eq!(
        check_asset(u32::MAX, "br".to_string()),
        Err(Error::UnsupportedCompression("br".to_string()))
    );
    assert_eq!(
        check_asset(0, "GZIP".to_string()),
        Err(Error::UnsupportedCompression("GZIP".to_string()))
    );
}

#[test]
fn sent_asset_is_stored_and_served() {
    for data in [vec![], vec![3; 10], vec![9; 5000]] {
        let message = send_store_asset_message("a/b.glb".to_string(), data.clone()).unwrap();
        let mut stream = message.header.clone();
        stream.extend(&message.data);
        let (key, length, compression) =
            match read_framed::<ClientStreamHeader>(&stream, HEADER_SIZE_LIMIT) {
                Ok(Framed::Message(ClientStreamHeader::StoreAsset { key, length, compression })) => {
                    (key, length, compression)
                }
                other => panic!("{other:?}"),
            };
        assert_eq!(key, "a/b.glb");
        assert_eq!(length as usize, message.data.len());
        check_asset(length, compression.clone()).unwrap();
        let received = stream[message.header.len()..].to_vec();
        let unpacked = unpack(PackedAsset { data: received, compression }).unwrap();
        assert_eq!(unpacked, data);
        let mut store = AssetStore::new();
        store.store(&key, unpacked, 1u8);
        assert_eq!(&store.lookup("a/b.glb", 2).0.unwrap()[..], &data[..]);
    }
}

#[test]
fn message_for_a_packed_asset() {
    let asset = PackedAsset { data: vec![1, 2], compression: "gzip".to_string() };
    let message = store_packed_asset_message("k".to_string(), asset).unwrap();
    let mut expected = vec![0, 0, 0, 29, 1, 0, 0, 0, 1, 0, 0, 0, 0, 0, 0, 0, b'k', 2, 0, 0, 0];
    expected.extend([4, 0, 0, 0, 0, 0, 0, 0]);
    expected.extend(b"gzip");
    assert_eq!(message.header, expected);
    assert_eq!(message.data, [1, 2]);
}

#[test]
fn store_keeps_assets_apart() {
    let mut store = AssetStore::new();
    assert_eq!(store.len(), 0);
    assert_eq!(store.total_assets_size(), 0);
    assert_eq!(store.store("a", vec![1, 2, 3], 10u8), 10);
    assert_eq!(store.store("b", vec![4], 11), 11);
    assert_eq!(store.store("a", vec![5, 6], 12), 10);
    assert_eq!(store.len(), 2);
    assert_eq!(store.total_assets_size(), 3);
    assert_eq!(&store.lookup("a", 13).0.unwrap()[..], [5, 6]);
    assert_eq!(&store.lookup("b", 13).0.unwrap()[..], [4]);
    assert!(matches!(store.lookup("c", 13), (None, 13)));
    assert_eq!(store.len(), 3);
    assert_eq!(store.held_count(), 2);
    assert_eq!(store.checked_total_size(), Some(3));
    assert_eq!(store.store("c", vec![0; 7], 14), 13);
    assert_eq!(store.checked_total_size(), Some(10));
    assert_eq!(store.held_count(), 3);
}

#[test]
fn request_asks_once_and_waits() {
    let mut store = AssetStore::new();
    let mut request = AssetRequest::new("tree.glb".to_string());
    match request.step(&mut store, true, 'x') {
        AssetStep::Wait { message: Some(ServerMessage::RequestAsset { key }), notify: 'x' } => {
            assert_eq!(key, "tree.glb")
        }
        other => panic!("{other:?}"),
    }
    for _ in 0..3 {
        let step = request.step(&mut store, true, 'y');
        assert!(matches!(step, AssetStep::Wait { message: None, notify: 'x' }));
    }
    let mut other = AssetRequest::new("tree.glb".to_string());
    let step = other.step(&mut store, true, 'z');
    assert!(matches!(step, AssetStep::Wait { message: Some(_), notify: 'x' }));

    assert_eq!(store.store("tree.glb", vec![1, 2], 'w'), 'x');
    match request.step(&mut store, true, 'v') {
        AssetStep::Found(data) => assert_eq!(&data[..], [1, 2]),
        other => panic!("{other:?}"),
    }
}

#[test]
fn request_that_ends_without_asset() {
    let mut store = AssetStore::new();
    store.store("a", vec![1], 'x');
    let mut late = AssetRequest::new("a".to_string());
    match late.step(&mut store, false, 'y') {
        AssetStep::TimedOut(error) => assert_eq!(error, Error::AssetTimedOut("a".to_string())),
        other => panic!("{other:?}"),
    }
    let request = AssetRequest::new("b".to_string());
    assert_eq!(request.request_failed(), Error::AssetRequestFailed("b".to_string()));
}
