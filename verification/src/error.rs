//! What can go wrong in the decisions of the proxy.
use vstd::prelude::*;

verus! {

#[derive(Debug, PartialEq, Eq)]
pub enum Error {
    /// A framed message announces more bytes than the reader accepts.
    MessageTooLong(u32),
    /// A frame of a message stream is longer than the stream allows.
    FrameTooLong,
    /// Bytes that are not a message of the expected kind.
    BadMsgFormat,
    /// An asset could not be compressed.
    CompressionFailed,
    /// An asset could not be decompressed.
    DecompressionFailed,
    /// An asset was sent in a compression that the proxy does not know.
    UnsupportedCompression(String),
    /// An asset is larger than the proxy accepts.
    AssetTooLarge(u32),
    /// An asset did not come in time.
    AssetTimedOut(String),
    /// The game server could not be asked for an asset.
    AssetRequestFailed(String),
    /// The player is not connected.
    UnknownPlayer(String),
    /// A stream starts with a header that streams of its kind do not have.
    UnexpectedHeader,
    /// The proxy listens for players already.
    EndpointAlreadyAllocated,
    /// No port could be bound for players.
    NoProxyEndpoint,
    /// The port that was bound for players is not known.
    NoLocalAddress,
    /// Assets are asked for, but the directory of the assets is not known.
    AssetsPathNotSet,
    /// Neither a directory of assets nor another place for them was given.
    NoAssetsSource,
    /// No proxy was given.
    NoProxyServer,
    /// The service that names a proxy to use named none.
    NoProxyServerToUse,
    /// The proxy has no address that can be used.
    HostNotFound(String),
    /// The request for an endpoint could not be sent.
    AllocateNotSent,
    /// A path leads through a parent directory.
    ParentDirInPath,
    /// A path is not relative.
    PathNotRelative,
    /// A path is not a text.
    PathNotText,
    /// A path leads out of the directory of the assets.
    OutsideAssets,
    /// A file of certificates or keys is not in the PEM format.
    BadPem,
    /// A file of keys holds no private key.
    NoPrivateKey,
}

} // verus!
