//! The assets of a game: how they travel to the proxy, and the store in which the proxy keeps them.
use vstd::prelude::*;
use vstd::utf8::*;

use crate::error::Error;
use crate::numbers;
use crate::protocol::{ClientStreamHeader, ClientStreamHeaderView, GZIP_COMPRESSION, NO_COMPRESSION};
use crate::streams;
use crate::streams::HEADER_SIZE_LIMIT;
use crate::text;
use crate::wire::WireMessage;

verus! {

/// Assets of fewer bytes are sent as they are.
pub const MINIMUM_COMPRESSION_SIZE: usize = 1024;

/// The largest asset that the proxy accepts, as it travels.
pub const ASSET_SIZE_LIMIT: u32 = 128 * 1024 * 1024;

/// What `flate2` compresses bytes to, where it does.
pub uninterp spec fn gzipped(data: Seq<u8>) -> Option<Seq<u8>>;

/// What `flate2` decompresses bytes to, where it does.
pub uninterp spec fn gunzipped(data: Seq<u8>) -> Option<Seq<u8>>;

/// `flate2::write::GzEncoder` on the default level: the bytes as one gzip member. The member
/// depends on the bytes alone, as its header names neither a time nor a file, and the decoder makes
/// the same bytes of it again.
#[verifier::external_body]
fn gzip(data: &[u8]) -> (res: Result<Vec<u8>, std::io::Error>)
    ensures
        match res {
            Ok(compressed) => gzipped(data@) == Some(compressed@) && gunzipped(compressed@) == Some(
                data@,
            ),
            Err(_) => gzipped(data@) is None,
        },
{
    let mut encoder = flate2::write::GzEncoder::new(Vec::new(), flate2::Compression::default());
    std::io::Write::write_all(&mut encoder, data)?;
    encoder.finish()
}

/// `flate2::write::GzDecoder`: the bytes that a gzip member was made of. It fails on bytes that are
/// not one whole member; what it makes of them depends on the bytes alone.
#[verifier::external_body]
fn gunzip(data: &[u8]) -> (res: Result<Vec<u8>, std::io::Error>)
    ensures
        match res {
            Ok(decompressed) => gunzipped(data@) == Some(decompressed@),
            Err(_) => gunzipped(data@) is None,
        },
{
    let mut decoder = flate2::write::GzDecoder::new(Vec::new());
    std::io::Write::write_all(&mut decoder, data)?;
    decoder.finish()
}

/// An asset as it travels: its bytes, and the name of their compression.
pub struct PackedView {
    pub data: Seq<u8>,
    pub compression: Seq<char>,
}

/// How an asset travels, where it can be compressed if it has to be.
pub open spec fn packed(data: Seq<u8>) -> Option<PackedView> {
    if data.len() < MINIMUM_COMPRESSION_SIZE {
        Some(PackedView { data, compression: NO_COMPRESSION@ })
    } else {
        match gzipped(data) {
            Some(compressed) => Some(
                PackedView { data: compressed, compression: GZIP_COMPRESSION@ },
            ),
            None => None,
        }
    }
}

/// What the proxy makes of an asset as it travelled, where it can be decompressed if it has to be.
pub open spec fn unpacked(sent: PackedView) -> Option<Seq<u8>> {
    if sent.compression == GZIP_COMPRESSION@ {
        gunzipped(sent.data)
    } else {
        Some(sent.data)
    }
}

/// An asset as it travels.
#[derive(Debug)]
pub struct PackedAsset {
    pub data: Vec<u8>,
    pub compression: String,
}

impl View for PackedAsset {
    type V = PackedView;

    open spec fn view(&self) -> PackedView {
        PackedView { data: self.data@, compression: self.compression@ }
    }
}

/// Packs an asset for its way to the proxy. What is packed unpacks to the same bytes.
pub fn pack(data: Vec<u8>) -> (res: Result<PackedAsset, Error>)
    ensures
        match res {
            Ok(asset) => packed(data@) == Some(asset@) && unpacked(asset@) == Some(data@),
            Err(error) => packed(data@) is None && error == Error::CompressionFailed,
        },
{
    proof {
        reveal_strlit("");
        reveal_strlit("gzip");
        assert(NO_COMPRESSION@.len() == 0);
        assert(GZIP_COMPRESSION@.len() == 4);
    }
    if data.len() < MINIMUM_COMPRESSION_SIZE {
        Ok(PackedAsset { data, compression: NO_COMPRESSION.to_owned() })
    } else {
        match gzip(data.as_slice()) {
            Ok(compressed) => Ok(
                PackedAsset { data: compressed, compression: GZIP_COMPRESSION.to_owned() },
            ),
            Err(_) => Err(Error::CompressionFailed),
        }
    }
}

/// Unpacks an asset that arrived at the proxy.
pub fn unpack(asset: PackedAsset) -> (res: Result<Vec<u8>, Error>)
    ensures
        match res {
            Ok(data) => unpacked(asset@) == Some(data@),
            Err(error) => unpacked(asset@) is None && error == Error::DecompressionFailed,
        },
{
    if text::same(asset.compression.as_str(), GZIP_COMPRESSION) {
        match gunzip(asset.data.as_slice()) {
            Ok(data) => Ok(data),
            Err(_) => Err(Error::DecompressionFailed),
        }
    } else {
        Ok(asset.data)
    }
}

/// The header of the stream on which an asset travels.
pub open spec fn store_header(key: Seq<char>, sent: PackedView) -> ClientStreamHeaderView {
    ClientStreamHeaderView::StoreAsset {
        key,
        length: crate::bytes::length_field(sent.data.len()) as u32,
        compression: sent.compression,
    }
}

/// What is written on the stream on which an asset travels: first the header, then the data.
#[derive(Debug)]
pub struct StoreAssetMessage {
    pub header: Vec<u8>,
    pub data: Vec<u8>,
}

/// The message that stores a packed asset under a key.
pub fn store_packed_asset_message(key: String, asset: PackedAsset) -> (res: Result<
    StoreAssetMessage,
    Error,
>)
    ensures
        ClientStreamHeader::fits(store_header(key@, asset@)),
        match res {
            Ok(message) => message.header@ == streams::frame(
                ClientStreamHeader::wire(store_header(key@, asset@)),
            ) && message.data@ == asset.data@,
            Err(_) => false,
        },
{
    let length = crate::bytes::as_length_field(asset.data.len());
    let header = ClientStreamHeader::StoreAsset { key, length, compression: asset.compression };
    assert(header@ == store_header(key@, asset@));
    let header = streams::write_framed(&header)?;
    Ok(StoreAssetMessage { header, data: asset.data })
}

/// The message that stores an asset under a key. The asset is compressed unless it is small. What
/// is sent unpacks to the asset.
pub fn send_store_asset_message(key: String, data: Vec<u8>) -> (res: Result<
    StoreAssetMessage,
    Error,
>)
    ensures
        match (packed(data@), res) {
            (Some(sent), Ok(message)) => {
                &&& message.header@ == streams::frame(
                    ClientStreamHeader::wire(store_header(key@, sent)),
                )
                &&& message.data@ == sent.data
                &&& unpacked(sent) == Some(data@)
                &&& ClientStreamHeader::fits(store_header(key@, sent))
            },
            (None, Err(error)) => error == Error::CompressionFailed,
            _ => false,
        },
{
    let asset = pack(data)?;
    store_packed_asset_message(key, asset)
}

/// The proxy knows the compression.
pub open spec fn supported(compression: Seq<char>) -> bool {
    compression.len() == 0 || compression == GZIP_COMPRESSION@
}

/// Decides whether the proxy takes an asset, by what its header says.
pub fn check_asset(length: u32, compression: String) -> (res: Result<(), Error>)
    ensures
        match res {
            Ok(_) => supported(compression@) && length <= ASSET_SIZE_LIMIT,
            Err(Error::UnsupportedCompression(name)) => !supported(compression@) && name
                == compression,
            Err(Error::AssetTooLarge(size)) => supported(compression@) && size == length && length
                > ASSET_SIZE_LIMIT,
            Err(_) => false,
        },
{
    proof {
        reveal_strlit("gzip");
    }
    if !compression.as_str().is_empty() && !text::same(compression.as_str(), GZIP_COMPRESSION) {
        return Err(Error::UnsupportedCompression(compression));
    }
    if length > ASSET_SIZE_LIMIT {
        return Err(Error::AssetTooLarge(length));
    }
    Ok(())
}

/// An asset that was packed and sent arrives: its header is read off the stream, the proxy accepts
/// it, what follows the header is as long as the header says, and it unpacks to the asset. The
/// header and the packed asset have to be no larger than the proxy accepts.
pub proof fn law_asset_arrives(key: Seq<char>, data: Seq<u8>, sent: PackedView)
    requires
        packed(data) == Some(sent),
        unpacked(sent) == Some(data),
        sent.data.len() <= ASSET_SIZE_LIMIT,
        ClientStreamHeader::fits(store_header(key, sent)),
        ClientStreamHeader::wire(store_header(key, sent)).len() <= HEADER_SIZE_LIMIT,
    ensures
        ({
            let stream = streams::frame(ClientStreamHeader::wire(store_header(key, sent)))
                + sent.data;
            let len = numbers::be_value(stream.take(4));
            &&& stream.len() >= 4 + len
            &&& len <= HEADER_SIZE_LIMIT
            &&& ClientStreamHeader::unwire(stream.subrange(4, 4 + len as int)) == Some(
                ClientStreamHeaderView::StoreAsset {
                    key,
                    length: sent.data.len() as u32,
                    compression: sent.compression,
                },
            )
            &&& supported(sent.compression)
            &&& stream.skip(4 + len as int) == sent.data
            &&& unpacked(sent) == Some(data)
        }),
{
    let header = store_header(key, sent);
    let framed = streams::frame(ClientStreamHeader::wire(header));
    streams::law_framed_round_trip::<ClientStreamHeader>(header, sent.data, HEADER_SIZE_LIMIT);
    let stream = framed + sent.data;
    assert(stream.skip(framed.len() as int) =~= sent.data);
    reveal_strlit("");
    assert(NO_COMPRESSION@.len() == 0);
}

/// What was packed unpacks to the same bytes. An asset of fewer than 1024 bytes is sent as it is,
/// under no compression, and every larger one as a gzip member.
pub proof fn law_packed_asset_unpacks(
    data: Vec<u8>,
    packed: Result<PackedAsset, Error>,
    received: PackedAsset,
    unpacked: Result<Vec<u8>, Error>,
)
    requires
        call_ensures(pack, (data,), packed),
        packed matches Ok(asset) ==> received.data@ == asset.data@ && received.compression@
            == asset.compression@,
        call_ensures(unpack, (received,), unpacked),
    ensures
        match packed {
            Ok(asset) => {
                &&& unpacked matches Ok(unpacked) && unpacked@ == data@
                &&& data@.len() < 1024 ==> asset.data@ == data@ && asset.compression@ == ""@
                &&& data@.len() >= 1024 ==> gzipped(data@) == Some(asset.data@)
                    && asset.compression@ == "gzip"@
            },
            Err(error) => {
                &&& data@.len() >= 1024
                &&& gzipped(data@) is None
                &&& error == Error::CompressionFailed
            },
        },
{
}

/// What arrived under no compression is taken as it is, and what arrived as gzip is taken for what
/// the decoder makes of it; where that makes nothing of it, the asset is refused.
pub proof fn law_arrived_asset_is_unpacked(received: PackedAsset, unpacked: Result<Vec<u8>, Error>)
    requires
        call_ensures(unpack, (received,), unpacked),
    ensures
        received.compression@ != "gzip"@ ==> (unpacked matches Ok(data) && data@ == received.data@),
        received.compression@ == "gzip"@ ==> match unpacked {
            Ok(data) => gunzipped(received.data@) == Some(data@),
            Err(error) => gunzipped(received.data@) is None && error == Error::DecompressionFailed,
        },
{
}

/// The proxy takes every asset of up to 128 mebibytes under no compression or under gzip, and no
/// other. What it refuses an asset for is the compression, if that is not known, and else the size.
pub proof fn law_which_assets_are_taken(length: u32, compression: String, res: Result<(), Error>)
    requires
        call_ensures(check_asset, (length, compression), res),
    ensures
        ({
            let known = compression@.len() == 0 || compression@ == "gzip"@;
            match res {
                Ok(_) => known && length <= 134_217_728,
                Err(Error::UnsupportedCompression(name)) => !known && name@ == compression@,
                Err(Error::AssetTooLarge(size)) => known && length > 134_217_728 && size == length,
                Err(_) => false,
            }
        }),
{
}

/// The header of an asset's stream names the key that was given, the number of bytes that follow, and
/// the compression of the packed asset, and what follows is the packed asset. The header has to be
/// short enough to be read, and the asset has to have fewer bytes than can be counted in four.
pub proof fn law_asset_message_is_read(
    key: String,
    asset: PackedAsset,
    message: Result<StoreAssetMessage, Error>,
    rest: Seq<u8>,
    received: &[u8],
    read: Result<streams::Framed<ClientStreamHeader>, Error>,
)
    requires
        asset.data@.len() < 0x1_0000_0000,
        encode_utf8(key@).len() + encode_utf8(asset.compression@).len() + 24 <= 1024,
        call_ensures(store_packed_asset_message, (key, asset), message),
        message matches Ok(message) ==> received@ == message.header@ + rest,
        call_ensures(
            streams::read_framed::<ClientStreamHeader>,
            (received, HEADER_SIZE_LIMIT),
            read,
        ),
    ensures
        message matches Ok(message) && message.data@ == asset.data@,
        match read {
            Ok(
                streams::Framed::Message(
                    ClientStreamHeader::StoreAsset { key: named, length, compression },
                ),
            ) => {
                &&& named@ == key@
                &&& length == asset.data@.len()
                &&& compression@ == asset.compression@
            },
            _ => false,
        },
{
    let header = store_header(key@, asset@);
    lemma_store_header_len(key@, asset@);
    streams::lemma_header_is_read::<ClientStreamHeader>(
        header,
        rest,
        received,
        HEADER_SIZE_LIMIT,
        read,
    );
}

/// The number of bytes of the header of an asset's stream.
pub proof fn lemma_store_header_len(key: Seq<char>, sent: PackedView)
    ensures
        ClientStreamHeader::wire(store_header(key, sent)).len() == encode_utf8(key).len()
            + encode_utf8(sent.compression).len() + 24,
        encode_utf8(key).len() + encode_utf8(sent.compression).len() <= HEADER_SIZE_LIMIT
            ==> ClientStreamHeader::fits(store_header(key, sent)),
{
    numbers::lemma_byte_bounds();
    numbers::lemma_le_round_trip(1, 4);
    numbers::lemma_le_round_trip(crate::bytes::length_field(sent.data.len()), 4);
    numbers::lemma_le_round_trip(encode_utf8(key).len(), 8);
    numbers::lemma_le_round_trip(encode_utf8(sent.compression).len(), 8);
}

/// The name of the compression that an asset is sent under: none of a small one, and four bytes of
/// every other.
pub proof fn lemma_compression_name(data: Seq<u8>)
    ensures
        packed(data) matches Some(sent) ==> supported(sent.compression) && encode_utf8(
            sent.compression,
        ).len() == if data.len() < 1024 {
            0int
        } else {
            4int
        },
{
    reveal_strlit("");
    reveal_strlit("gzip");
    assert(NO_COMPRESSION@.len() == 0);
    assert(GZIP_COMPRESSION@.len() == 4);
    is_ascii_chars_encode_utf8(NO_COMPRESSION@);
    is_ascii_chars_encode_utf8(GZIP_COMPRESSION@);
}

} // verus!
