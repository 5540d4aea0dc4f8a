//! The settings of the proxy.
use std::ops::RangeInclusive;
use std::time::Duration;

use vstd::prelude::*;

use crate::error::Error;
use crate::numbers;
use crate::text;

verus! {

/// The settings of the proxy.
#[derive(Clone, Debug)]
pub struct Settings {
    /// The public address of the server (to advertise to the clients)
    ///
    /// Defaults to "localhost"
    pub public_host_name: String,
    /// The address to bind to (IPv4 or IPv6)
    ///
    /// Defaults to "127.0.0.1"
    pub bind_address: String,
    /// The port to bind to for the management interface (used by game servers)
    pub management_port: u16,
    /// The first port to bind to for the proxy interface (used by game clients)
    pub proxy_port_first: u16,
    /// The last port to bind to for the proxy interface
    pub proxy_port_last: u16,
    /// The public address of the HTTP interface (for assets downloading)
    ///
    /// Defaults to the same as `public_host_name`
    pub http_public_host_name: Option<String>,
    /// The port to bind to for the HTTP interface (for assets downloading)
    ///
    /// Defaults to the same as `management_port`
    pub http_port: Option<u16>,
    /// The timeout for assets downloading (in seconds)
    ///
    /// Defaults to 60 seconds
    pub assets_download_timeout: u32,
    /// Certificate file path
    pub cert_file: String,
    /// Certificate key file path
    pub cert_key_file: String,
}

/// The duration that `std` makes of a number of seconds.
pub uninterp spec fn duration_of_seconds(seconds: u64) -> Duration;

/// `std::time::Duration::from_secs`: the duration of so many seconds.
pub assume_specification[ std::time::Duration::from_secs ](secs: u64) -> (res: Duration)
    ensures
        res == duration_of_seconds(secs),
;

/// A section of a PEM file.
#[derive(Debug)]
pub enum PemItem {
    X509Certificate(Vec<u8>),
    RSAKey(Vec<u8>),
    PKCS8Key(Vec<u8>),
    ECKey(Vec<u8>),
    /// A section of another kind.
    Other,
}

/// A section of a PEM file with its contents as a sequence of bytes.
pub enum PemItemView {
    X509Certificate(Seq<u8>),
    RSAKey(Seq<u8>),
    PKCS8Key(Seq<u8>),
    ECKey(Seq<u8>),
    Other,
}

impl View for PemItem {
    type V = PemItemView;

    open spec fn view(&self) -> PemItemView {
        match *self {
            PemItem::X509Certificate(data) => PemItemView::X509Certificate(data@),
            PemItem::RSAKey(data) => PemItemView::RSAKey(data@),
            PemItem::PKCS8Key(data) => PemItemView::PKCS8Key(data@),
            PemItem::ECKey(data) => PemItemView::ECKey(data@),
            PemItem::Other => PemItemView::Other,
        }
    }
}

/// The views of the sections of a PEM file.
pub open spec fn item_views(items: Seq<PemItem>) -> Seq<PemItemView> {
    items.map_values(|item: PemItem| item@)
}

/// The certificates that `rustls_pemfile` finds in a file, where it can read the file.
pub uninterp spec fn pem_certificates(pem: Seq<u8>) -> Option<Seq<Seq<u8>>>;

/// The sections that `rustls_pemfile` finds in a file, where it can read the file.
pub uninterp spec fn pem_items(pem: Seq<u8>) -> Option<Seq<PemItemView>>;

/// `rustls_pemfile::certs`: the certificates in a PEM file, in their order. What it finds, and
/// whether it can read the file, depends on the bytes of the file alone.
#[verifier::external_body]
fn read_pem_certificates(pem: &[u8]) -> (res: Result<Vec<Vec<u8>>, std::io::Error>)
    ensures
        match res {
            Ok(certificates) => pem_certificates(pem@) == Some(
                numbers::byte_strings(certificates@),
            ),
            Err(_) => pem_certificates(pem@) is None,
        },
{
    rustls_pemfile::certs(&mut std::io::Cursor::new(pem))
}

/// `rustls_pemfile::read_all`: the sections of a PEM file, in their order. What it finds, and
/// whether it can read the file, depends on the bytes of the file alone.
#[verifier::external_body]
fn read_pem_items(pem: &[u8]) -> (res: Result<Vec<PemItem>, std::io::Error>)
    ensures
        match res {
            Ok(items) => pem_items(pem@) == Some(item_views(items@)),
            Err(_) => pem_items(pem@) is None,
        },
{
    let items = rustls_pemfile::read_all(&mut std::io::Cursor::new(pem))?;
    Ok(items.into_iter().map(|item| match item {
        rustls_pemfile::Item::X509Certificate(data) => PemItem::X509Certificate(data),
        rustls_pemfile::Item::RSAKey(data) => PemItem::RSAKey(data),
        rustls_pemfile::Item::PKCS8Key(data) => PemItem::PKCS8Key(data),
        rustls_pemfile::Item::ECKey(data) => PemItem::ECKey(data),
        _ => PemItem::Other,
    }).collect())
}

/// The first private key among the sections of a file.
pub open spec fn first_key(items: Seq<PemItemView>) -> Option<Seq<u8>>
    decreases items.len(),
{
    if items.len() == 0 {
        None
    } else {
        match items[0] {
            PemItemView::RSAKey(key) => Some(key),
            PemItemView::PKCS8Key(key) => Some(key),
            PemItemView::ECKey(key) => Some(key),
            _ => first_key(items.drop_first()),
        }
    }
}

/// Takes the first private key out of the sections of a file.
pub fn first_private_key(items: Vec<PemItem>) -> (res: Result<Vec<u8>, Error>)
    ensures
        match res {
            Ok(key) => first_key(item_views(items@)) == Some(key@),
            Err(error) => first_key(item_views(items@)) is None && error == Error::NoPrivateKey,
        },
{
    let ghost views = item_views(items@);
    let mut i: usize = 0;
    assert(views.skip(0) =~= views);
    while i < items.len()
        invariant
            i <= items@.len(),
            views == item_views(items@),
            first_key(views) == first_key(views.skip(i as int)),
        decreases items@.len() - i,
    {
        assert(views.skip(i as int).drop_first() =~= views.skip(i + 1));
        assert(views.skip(i as int)[0] == items@[i as int]@);
        match &items[i] {
            PemItem::RSAKey(key) | PemItem::PKCS8Key(key) | PemItem::ECKey(key) => {
                let mut copy: Vec<u8> = Vec::new();
                numbers::push_bytes(&mut copy, key.as_slice());
                assert(copy@ =~= key@);
                return Ok(copy);
            },
            _ => {},
        }
        i = i + 1;
    }
    Err(Error::NoPrivateKey)
}

impl Settings {
    /// The ports to bind to for the proxy interface.
    pub fn proxy_port_range(&self) -> (res: RangeInclusive<u16>)
        ensures
            res@.start == self.proxy_port_first,
            res@.end == self.proxy_port_last,
            !res@.exhausted,
    {
        RangeInclusive::new(self.proxy_port_first, self.proxy_port_last)
    }

    /// The public host name of the HTTP interface.
    pub open spec fn http_host(&self) -> Seq<char> {
        match self.http_public_host_name {
            Some(name) => name@,
            None => self.public_host_name@,
        }
    }

    /// The port of the HTTP interface.
    pub open spec fn http_port_number(&self) -> u16 {
        match self.http_port {
            Some(port) => port,
            None => self.management_port,
        }
    }

    /// The public host name of the HTTP interface.
    pub fn get_http_public_host_name(&self) -> (res: String)
        ensures
            res@ == self.http_host(),
    {
        match &self.http_public_host_name {
            Some(name) => name.clone(),
            None => self.public_host_name.clone(),
        }
    }

    /// The port of the HTTP interface.
    pub fn get_http_port(&self) -> (res: u16)
        ensures
            res == self.http_port_number(),
    {
        match self.http_port {
            Some(port) => port,
            None => self.management_port,
        }
    }

    /// The public address of the HTTP interface, in the form `host:port`.
    pub fn http_public_addr(&self) -> (res: String)
        ensures
            res@ == text::host_port(self.http_host(), self.http_port_number()),
    {
        text::host_port_text(self.get_http_public_host_name().as_str(), self.get_http_port())
    }

    /// How long to wait for an asset.
    pub fn get_assets_download_timeout(&self) -> (res: Duration)
        ensures
            res == duration_of_seconds(self.assets_download_timeout as u64),
    {
        Duration::from_secs(self.assets_download_timeout as u64)
    }

    /// The chain of certificates in the contents of the certificate file.
    pub fn load_certificate_chain(&self, pem: &[u8]) -> (res: Result<Vec<Vec<u8>>, Error>)
        ensures
            match res {
                Ok(chain) => pem_certificates(pem@) == Some(numbers::byte_strings(chain@)),
                Err(error) => pem_certificates(pem@) is None && error == Error::BadPem,
            },
    {
        match read_pem_certificates(pem) {
            Ok(chain) => Ok(chain),
            Err(_) => Err(Error::BadPem),
        }
    }

    /// The private key in the contents of the key file: the first one in it.
    pub fn load_private_key(&self, pem: &[u8]) -> (res: Result<Vec<u8>, Error>)
        ensures
            match (pem_items(pem@), res) {
                (Some(items), Ok(key)) => first_key(items) == Some(key@),
                (Some(items), Err(error)) => first_key(items) is None && error
                    == Error::NoPrivateKey,
                (None, Ok(_)) => false,
                (None, Err(error)) => error == Error::BadPem,
            },
    {
        match read_pem_items(pem) {
            Ok(items) => first_private_key(items),
            Err(_) => Err(Error::BadPem),
        }
    }
}

impl Default for Settings {
    fn default() -> (res: Self)
        ensures
            res.public_host_name@ == "localhost"@,
            res.bind_address@ == "127.0.0.1"@,
            res.management_port == 7000,
            res.proxy_port_first == 9000,
            res.proxy_port_last == 9999,
            res.http_public_host_name is None,
            res.http_port is None,
            res.assets_download_timeout == 60,
            res.cert_file@ == "self-signed-certs/cert.pem"@,
            res.cert_key_file@ == "self-signed-certs/key.pem"@,
    {
        Settings {
            public_host_name: "localhost".to_owned(),
            bind_address: "127.0.0.1".to_owned(),
            management_port: 7000,
            proxy_port_first: 9000,
            proxy_port_last: 9999,
            http_public_host_name: None,
            http_port: None,
            assets_download_timeout: 60,
            cert_file: "self-signed-certs/cert.pem".to_owned(),
            cert_key_file: "self-signed-certs/key.pem".to_owned(),
        }
    }
}

/// The section holds a private key.
pub open spec fn holds_key(item: PemItem) -> bool {
    item is RSAKey || item is PKCS8Key || item is ECKey
}

/// The private key is that of the first section that holds one, of whatever kind the key is. It is
/// missing only where no section holds one.
pub proof fn law_first_private_key_is_taken(items: Vec<PemItem>, res: Result<Vec<u8>, Error>)
    requires
        call_ensures(first_private_key, (items,), res),
    ensures
        match res {
            Ok(key) => exists|i: int|
                {
                    &&& 0 <= i < items@.len()
                    &&& match #[trigger] items@[i] {
                        PemItem::RSAKey(data) => key@ == data@,
                        PemItem::PKCS8Key(data) => key@ == data@,
                        PemItem::ECKey(data) => key@ == data@,
                        _ => false,
                    }
                    &&& forall|j: int| 0 <= j < i ==> !holds_key(#[trigger] items@[j])
                },
            Err(error) => {
                &&& forall|i: int| 0 <= i < items@.len() ==> !holds_key(#[trigger] items@[i])
                &&& error == Error::NoPrivateKey
            },
        },
{
    lemma_first_key(items@);
}

/// The first private key among sections.
proof fn lemma_first_key(items: Seq<PemItem>)
    ensures
        match first_key(item_views(items)) {
            Some(key) => exists|i: int|
                {
                    &&& 0 <= i < items.len()
                    &&& match #[trigger] items[i] {
                        PemItem::RSAKey(data) => key == data@,
                        PemItem::PKCS8Key(data) => key == data@,
                        PemItem::ECKey(data) => key == data@,
                        _ => false,
                    }
                    &&& forall|j: int| 0 <= j < i ==> !holds_key(#[trigger] items[j])
                },
            None => forall|i: int| 0 <= i < items.len() ==> !holds_key(#[trigger] items[i]),
        },
    decreases items.len(),
{
    let views = item_views(items);
    if items.len() > 0 {
        assert(views[0] == items[0]@);
        if !holds_key(items[0]) {
            let later = items.drop_first();
            assert(views.drop_first() =~= item_views(later));
            lemma_first_key(later);
            assert forall|i: int| 1 <= i < items.len() implies #[trigger] items[i] == later[i
                - 1] by {}
            if let Some(key) = first_key(item_views(later)) {
                let i = choose|i: int|
                    {
                        &&& 0 <= i < later.len()
                        &&& match #[trigger] later[i] {
                            PemItem::RSAKey(data) => key == data@,
                            PemItem::PKCS8Key(data) => key == data@,
                            PemItem::ECKey(data) => key == data@,
                            _ => false,
                        }
                        &&& forall|j: int| 0 <= j < i ==> !holds_key(#[trigger] later[j])
                    };
                assert(items[i + 1] == later[i]);
                assert forall|j: int| 0 <= j < i + 1 implies !holds_key(#[trigger] items[j]) by {
                    if j > 0 {
                        assert(later[j - 1] == items[j]);
                    }
                }
            }
        } else {
            let found = items[0];
            assert(holds_key(found));
        }
    }
}

/// The HTTP interface is at the host and the port that are set for it, and else at the public host
/// and the management port. Its address is the host, a colon, and the port in decimal.
pub proof fn law_http_address(
    settings: Settings,
    host: String,
    port: u16,
    address: String,
)
    requires
        call_ensures(Settings::get_http_public_host_name, (&settings,), host),
        call_ensures(Settings::get_http_port, (&settings,), port),
        call_ensures(Settings::http_public_addr, (&settings,), address),
    ensures
        host@ == match settings.http_public_host_name {
            Some(name) => name@,
            None => settings.public_host_name@,
        },
        port == match settings.http_port {
            Some(port) => port,
            None => settings.management_port,
        },
        text::is_address_of(address@, host@, port),
{
    text::lemma_address(host@, port);
}

/// What is not set has its usual value.
pub proof fn law_usual_settings(settings: Settings, address: String)
    requires
        call_ensures(<Settings as Default>::default, (), settings),
        call_ensures(Settings::http_public_addr, (&settings,), address),
    ensures
        settings.public_host_name@ == "localhost"@,
        settings.bind_address@ == "127.0.0.1"@,
        settings.management_port == 7000,
        settings.proxy_port_first == 9000 && settings.proxy_port_last == 9999,
        settings.assets_download_timeout == 60,
        text::is_address_of(address@, "localhost"@, 7000),
{
    text::lemma_address("localhost"@, 7000);
}

/// The chain of certificates is what the file holds, all of it and in its order, and the key is the
/// one that is taken out of its sections. A file that cannot be read is refused as such.
pub proof fn law_files_are_loaded(
    settings: Settings,
    pem: &[u8],
    chain: Result<Vec<Vec<u8>>, Error>,
    key: Result<Vec<u8>, Error>,
    items: Vec<PemItem>,
    first: Result<Vec<u8>, Error>,
)
    requires
        call_ensures(Settings::load_certificate_chain, (&settings, pem), chain),
        call_ensures(Settings::load_private_key, (&settings, pem), key),
        pem_items(pem@) matches Some(found) ==> item_views(items@) == found,
        call_ensures(first_private_key, (items,), first),
    ensures
        match (chain, pem_certificates(pem@)) {
            (Ok(chain), Some(found)) => chain@.len() == found.len() && forall|i: int|
                0 <= i < found.len() ==> (#[trigger] chain@[i])@ == found[i],
            (Err(error), None) => error == Error::BadPem,
            _ => false,
        },
        match pem_items(pem@) {
            Some(_) => match (key, first) {
                (Ok(key), Ok(first)) => key@ == first@,
                (Err(error), Err(reason)) => error == reason,
                _ => false,
            },
            None => key == Err::<Vec<u8>, Error>(Error::BadPem),
        },
{
    if let (Ok(chain), Some(found)) = (chain, pem_certificates(pem@)) {
        assert forall|i: int| 0 <= i < found.len() implies (#[trigger] chain@[i])@ == found[i] by {
            assert(numbers::byte_strings(chain@)[i] == found[i]);
        }
    }
}

/// An asset is waited for as many seconds as are set, and the ports for players are those from the
/// first to the last that is set.
pub proof fn law_timeout_and_ports_are_as_set(
    settings: Settings,
    timeout: Duration,
    seconds: Duration,
    range: RangeInclusive<u16>,
)
    requires
        call_ensures(Settings::get_assets_download_timeout, (&settings,), timeout),
        call_ensures(Duration::from_secs, (settings.assets_download_timeout as u64,), seconds),
        call_ensures(Settings::proxy_port_range, (&settings,), range),
    ensures
        timeout == seconds,
        range@.start == settings.proxy_port_first,
        range@.end == settings.proxy_port_last,
{
}

} // verus!
