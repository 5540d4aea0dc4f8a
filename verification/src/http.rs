//! The HTTP interface: what requests for assets and for reports are answered.
use vstd::prelude::*;

use crate::asset_store::{AssetRequest, AssetRequestView};
use crate::error::Error;
use crate::ids;
use crate::management::ProxyStore;
use crate::telemetry::{AssetRequestResult, MetricsUpdate};

verus! {

/// Why a request is not answered with what it asks for.
#[derive(Clone, Copy, Debug, PartialEq, Eq)]
pub enum Refusal {
    BadRequest,
    NotFound,
    InternalServerError,
}

impl Refusal {
    /// The status code of the response.
    pub fn status_code(&self) -> (res: u16)
        ensures
            res == match *self {
                Refusal::BadRequest => 400u16,
                Refusal::NotFound => 404u16,
                Refusal::InternalServerError => 500u16,
            },
    {
        match *self {
            Refusal::BadRequest => 400,
            Refusal::NotFound => 404,
            Refusal::InternalServerError => 500,
        }
    }
}

/// The allocation that a text names.
pub enum Named<P> {
    /// The text is no id.
    Malformed,
    /// There is no allocation with that id.
    Unknown,
    /// The allocation.
    Allocation(P),
}

/// The allocation that a text names.
pub open spec fn named<P>(proxies: Map<u128, P>, id: Seq<char>) -> Named<P> {
    match ids::text_id(id) {
        None => Named::Malformed,
        Some(number) => if proxies.contains_key(number as u128) {
            Named::Allocation(proxies[number as u128])
        } else {
            Named::Unknown
        },
    }
}

/// The start of the answer to a request for an asset: the allocation to ask and the request to ask
/// with, or a refusal and what to count.
pub fn begin_get_asset<'a, P>(proxies: &'a ProxyStore<P>, id: &str, path: String) -> (res: Result<
    (&'a P, AssetRequest),
    (Refusal, MetricsUpdate),
>)
    ensures
        match (named(proxies@, id@), res) {
            (Named::Malformed, Err(refused)) => refused == (
                Refusal::BadRequest,
                MetricsUpdate::IncAssetRequests(AssetRequestResult::Malformed),
            ),
            (Named::Unknown, Err(refused)) => refused == (
                Refusal::NotFound,
                MetricsUpdate::IncAssetRequests(AssetRequestResult::AllocationNotFound),
            ),
            (Named::Allocation(proxy), Ok((asked, request))) => {
                &&& *asked == proxy
                &&& request@ == (AssetRequestView { asset_id: path@, requested_from_server: false })
            },
            _ => false,
        },
{
    let allocation_id: u128 = match ids::parse_allocation_id(id) {
        Some(allocation_id) => allocation_id,
        None => {
            return Err(
                (
                    Refusal::BadRequest,
                    MetricsUpdate::IncAssetRequests(AssetRequestResult::Malformed),
                ),
            );
        },
    };
    match proxies.get_proxy(&allocation_id) {
        Some(proxy) => Ok((proxy, AssetRequest::new(path))),
        None => Err(
            (
                Refusal::NotFound,
                MetricsUpdate::IncAssetRequests(AssetRequestResult::AllocationNotFound),
            ),
        ),
    }
}

/// The end of the answer to a request for an asset, by what became of the request: the response, and
/// what to count.
pub fn get_asset(outcome: Result<Option<::bytes::Bytes>, Error>) -> (res: (
    Result<::bytes::Bytes, Refusal>,
    Vec<MetricsUpdate>,
))
    ensures
        match outcome {
            Ok(None) => {
                &&& res.0 == Err::<::bytes::Bytes, Refusal>(Refusal::NotFound)
                &&& res.1@ == seq![MetricsUpdate::IncAssetRequests(AssetRequestResult::AssetNotFound)]
            },
            Ok(Some(data)) => {
                &&& res.0 == Ok::<::bytes::Bytes, Refusal>(data)
                &&& res.1@ == seq![
                    MetricsUpdate::IncAssetRequests(AssetRequestResult::Success),
                    MetricsUpdate::ObserveAssetResponseSizeBytes(
                        crate::bytes::contents(data).len() as usize,
                    ),
                ]
            },
            Err(_) => {
                &&& res.0 == Err::<::bytes::Bytes, Refusal>(Refusal::InternalServerError)
                &&& res.1@ == seq![MetricsUpdate::IncAssetRequests(AssetRequestResult::Error)]
            },
        },
{
    match outcome {
        Ok(None) => (
            Err(Refusal::NotFound),
            vec![MetricsUpdate::IncAssetRequests(AssetRequestResult::AssetNotFound)],
        ),
        Ok(Some(data)) => {
            let size: usize = crate::bytes::bytes_len(&data);
            (
                Ok(data),
                vec![
                    MetricsUpdate::IncAssetRequests(AssetRequestResult::Success),
                    MetricsUpdate::ObserveAssetResponseSizeBytes(size),
                ],
            )
        },
        Err(_) => (
            Err(Refusal::InternalServerError),
            vec![MetricsUpdate::IncAssetRequests(AssetRequestResult::Error)],
        ),
    }
}

/// The allocation that a request for a report asks about.
pub fn get_stats<'a, P>(proxies: &'a ProxyStore<P>, id: &str) -> (res: Result<&'a P, Refusal>)
    ensures
        match (named(proxies@, id@), res) {
            (Named::Malformed, Err(refused)) => refused == Refusal::BadRequest,
            (Named::Unknown, Err(refused)) => refused == Refusal::NotFound,
            (Named::Allocation(proxy), Ok(asked)) => *asked == proxy,
            _ => false,
        },
{
    let allocation_id: u128 = match ids::parse_allocation_id(id) {
        Some(allocation_id) => allocation_id,
        None => {
            return Err(Refusal::BadRequest);
        },
    };
    match proxies.get_proxy(&allocation_id) {
        Some(proxy) => Ok(proxy),
        None => Err(Refusal::NotFound),
    }
}

/// The id in the URL of an allocation's assets leads to that allocation, as long as it is kept.
pub proof fn law_assets_root_names_allocation<P>(proxies: Map<u128, P>, id: u128)
    requires
        proxies.contains_key(id),
    ensures
        named(proxies, ids::id_text(id)) == Named::Allocation(proxies[id]),
{
    ids::law_id_text_round_trip(id);
}

/// A request for an asset is answered by the allocation that its id names, if that is kept, and is a
/// request for the path that was asked for. An id of no kept allocation is not found, and a text that
/// is no id is a bad request. A request for a report is answered in the same way.
pub proof fn law_request_reaches_allocation<'a, P>(
    proxies: &'a ProxyStore<P>,
    id: u128,
    found: Option<&P>,
    text: String,
    named: &str,
    path: String,
    fresh: AssetRequest,
    begun: Result<(&'a P, AssetRequest), (Refusal, MetricsUpdate)>,
    stats: Result<&'a P, Refusal>,
)
    requires
        call_ensures(ProxyStore::<P>::get_proxy, (proxies, &id), found),
        call_ensures(ids::allocation_id_text, (id,), text),
        named@ == text@,
        call_ensures(AssetRequest::new, (path,), fresh),
        call_ensures(begin_get_asset::<P>, (proxies, named, path), begun),
        call_ensures(get_stats::<P>, (proxies, named), stats),
    ensures
        match found {
            Some(proxy) => {
                &&& begun matches Ok((asked, request)) && *asked == *proxy && request@ == fresh@
                &&& stats matches Ok(asked) && *asked == *proxy
            },
            None => {
                &&& begun == Err::<(&'a P, AssetRequest), (Refusal, MetricsUpdate)>(
                    (
                        Refusal::NotFound,
                        MetricsUpdate::IncAssetRequests(AssetRequestResult::AllocationNotFound),
                    ),
                )
                &&& stats == Err::<&'a P, Refusal>(Refusal::NotFound)
            },
        },
{
    ids::law_id_text_round_trip(id);
}

/// A text that does not parse as an id is a bad request, whatever it is; only such a text is one.
pub proof fn law_bad_request<'a, P>(
    proxies: &'a ProxyStore<P>,
    id: &str,
    parsed: Option<u128>,
    path: String,
    begun: Result<(&'a P, AssetRequest), (Refusal, MetricsUpdate)>,
    stats: Result<&'a P, Refusal>,
    refused: Refusal,
    code: u16,
)
    requires
        call_ensures(ids::parse_allocation_id, (id,), parsed),
        call_ensures(begin_get_asset::<P>, (proxies, id, path), begun),
        call_ensures(get_stats::<P>, (proxies, id), stats),
        stats matches Err(refusal) ==> refusal == refused,
        call_ensures(Refusal::status_code, (&refused,), code),
    ensures
        parsed is None ==> code == 400,
        stats is Err && parsed is Some ==> code == 404,
        parsed is None <==> begun == Err::<(&'a P, AssetRequest), (Refusal, MetricsUpdate)>(
            (
                Refusal::BadRequest,
                MetricsUpdate::IncAssetRequests(AssetRequestResult::Malformed),
            ),
        ),
        parsed is None <==> stats == Err::<&'a P, Refusal>(Refusal::BadRequest),
{
}

/// A response has the asset that was found, and its size is counted; one that was not found, or that
/// did not come, is refused and counted as such.
pub proof fn law_response_is_the_asset(
    outcome: Result<Option<::bytes::Bytes>, Error>,
    response: Result<::bytes::Bytes, Refusal>,
    updates: Vec<MetricsUpdate>,
    refused: Refusal,
    code: u16,
)
    requires
        call_ensures(get_asset, (outcome,), (response, updates)),
        response matches Err(refusal) ==> refusal == refused,
        call_ensures(Refusal::status_code, (&refused,), code),
    ensures
        match outcome {
            Ok(Some(data)) => {
                &&& response == Ok::<::bytes::Bytes, Refusal>(data)
                &&& updates@ == seq![
                    MetricsUpdate::IncAssetRequests(AssetRequestResult::Success),
                    MetricsUpdate::ObserveAssetResponseSizeBytes(
                        crate::bytes::contents(data).len() as usize,
                    ),
                ]
            },
            Ok(None) => {
                &&& response is Err && code == 404
                &&& updates@ == seq![
                    MetricsUpdate::IncAssetRequests(AssetRequestResult::AssetNotFound),
                ]
            },
            Err(_) => {
                &&& response is Err && code == 500
                &&& updates@ == seq![MetricsUpdate::IncAssetRequests(AssetRequestResult::Error)]
            },
        },
{
}

} // verus!
