//! The assets that the proxy holds, and the requests that wait for those it does not.
use vstd::prelude::*;

use crate::error::Error;
use crate::protocol::ServerMessage;
use crate::table::Table;
use crate::totals;

verus! {

/// An asset, if it arrived, and what wakes those who wait for it.
#[derive(Debug)]
pub struct Asset<N> {
    data: Option<::bytes::Bytes>,
    notify: N,
}

/// An asset with its data as a sequence of bytes.
pub struct AssetView<N> {
    pub data: Option<Seq<u8>>,
    pub notify: N,
}

impl<N> View for Asset<N> {
    type V = AssetView<N>;

    closed spec fn view(&self) -> AssetView<N> {
        AssetView {
            data: match self.data {
                Some(data) => Some(crate::bytes::contents(data)),
                None => None,
            },
            notify: self.notify,
        }
    }
}

impl<N: Clone> Asset<N> {
    /// An asset that did not arrive.
    pub fn new(notify: N) -> (res: Self)
        ensures
            res@ == (AssetView { data: None::<Seq<u8>>, notify }),
    {
        Asset { data: None, notify }
    }

    /// Takes in the data. Everyone who waits on the returned notifier is to be woken.
    pub fn store(&mut self, data: Vec<u8>) -> (res: N)
        ensures
            final(self)@ == (AssetView { data: Some(data@), ..old(self)@ }),
            cloned(old(self)@.notify, res),
    {
        self.data = Some(crate::bytes::bytes_from_vec(data));
        self.notify.clone()
    }

    /// The data, if it arrived.
    pub fn data(&self) -> (res: Option<::bytes::Bytes>)
        ensures
            match res {
                Some(data) => self@.data == Some(crate::bytes::contents(data)),
                None => self@.data is None,
            },
    {
        match &self.data {
            Some(data) => Some(crate::bytes::bytes_clone(data)),
            None => None,
        }
    }

    /// Tests whether the data arrived.
    pub fn is_held(&self) -> (res: bool)
        ensures
            res == (self@.data is Some),
    {
        self.data.is_some()
    }

    /// The number of bytes that arrived.
    pub fn size(&self) -> (res: usize)
        ensures
            res == asset_size(self@),
    {
        match &self.data {
            Some(data) => crate::bytes::bytes_len(data),
            None => 0,
        }
    }

    /// The notifier on which to wait for the data.
    pub fn notifier(&self) -> (res: N)
        ensures
            cloned(self@.notify, res),
    {
        self.notify.clone()
    }
}

/// The number of bytes of an asset that arrived.
pub open spec fn asset_size<N>(asset: AssetView<N>) -> nat {
    match asset.data {
        Some(data) => data.len(),
        None => 0,
    }
}

/// The number of bytes of all assets that arrived.
pub open spec fn total_size<N>(assets: Map<Seq<char>, AssetView<N>>) -> nat {
    totals::map_total(assets, |asset: AssetView<N>| asset_size(asset))
}

/// The keys whose assets arrived.
pub open spec fn held_keys<N>(assets: Map<Seq<char>, AssetView<N>>) -> Set<Seq<char>> {
    assets.dom().filter(|key: Seq<char>| assets[key].data is Some)
}

/// The number of assets that arrived. A key that was only asked for is not counted.
pub open spec fn held<N>(assets: Map<Seq<char>, AssetView<N>>) -> nat {
    held_keys(assets).len()
}

/// What the asset of a key is, if an entry was made with `fresh` where there was none.
pub open spec fn asset_of<N>(assets: Map<Seq<char>, AssetView<N>>, key: Seq<char>, fresh: N) -> AssetView<
    N,
> {
    if assets.contains_key(key) {
        assets[key]
    } else {
        AssetView { data: None, notify: fresh }
    }
}

/// The assets after the data of a key arrived.
pub open spec fn after_store<N>(
    assets: Map<Seq<char>, AssetView<N>>,
    key: Seq<char>,
    data: Seq<u8>,
    fresh: N,
) -> Map<Seq<char>, AssetView<N>> {
    assets.insert(key, AssetView { data: Some(data), ..asset_of(assets, key, fresh) })
}

/// The assets after one was looked up.
pub open spec fn after_lookup<N>(
    assets: Map<Seq<char>, AssetView<N>>,
    key: Seq<char>,
    fresh: N,
) -> Map<Seq<char>, AssetView<N>> {
    assets.insert(key, asset_of(assets, key, fresh))
}

/// The assets of an allocation, by key.
pub struct AssetStore<N> {
    assets: Table<Asset<N>>,
}

impl<N> View for AssetStore<N> {
    type V = Map<Seq<char>, AssetView<N>>;

    closed spec fn view(&self) -> Map<Seq<char>, AssetView<N>> {
        self.assets@.map_values(|asset: Asset<N>| asset@)
    }
}

/// The sum over the views of the values of a map is the sum over the values.
proof fn lemma_total_of_views<N>(
    assets: Map<Seq<char>, Asset<N>>,
    size: spec_fn(AssetView<N>) -> nat,
)
    requires
        assets.dom().finite(),
    ensures
        totals::map_total(assets, |asset: Asset<N>| size(asset@)) == totals::map_total(
            assets.map_values(|asset: Asset<N>| asset@),
            size,
        ),
    decreases assets.dom().len(),
{
    let views = assets.map_values(|asset: Asset<N>| asset@);
    assert(views.dom() =~= assets.dom());
    if assets.dom().len() > 0 {
        let key = assets.dom().choose();
        lemma_total_of_views(assets.remove(key), size);
        assert(assets.remove(key).map_values(|asset: Asset<N>| asset@) =~= views.remove(key));
        totals::lemma_map_total_remove(views, size, key);
    }
}

/// One for an asset that arrived, nothing for one that did not.
spec fn presence<N>(asset: AssetView<N>) -> nat {
    if asset.data is Some {
        1
    } else {
        0
    }
}

/// The number of assets that arrived, after the asset of a key was replaced.
proof fn lemma_held_after_insert<N>(
    assets: Map<Seq<char>, AssetView<N>>,
    key: Seq<char>,
    asset: AssetView<N>,
)
    requires
        assets.dom().finite(),
    ensures
        held(assets.insert(key, asset)) == held(assets) + presence(asset) - (
        if assets.contains_key(key) {
            presence(assets[key])
        } else {
            0
        }),
{
    assets.dom().lemma_len_filter(|key: Seq<char>| assets[key].data is Some);
    let after = assets.insert(key, asset);
    if asset.data is Some {
        assert(held_keys(after) =~= held_keys(assets).insert(key));
    } else {
        assert(held_keys(after) =~= held_keys(assets).remove(key));
    }
}

/// The assets that arrived can be counted one by one.
proof fn lemma_held_is_total<N>(assets: Map<Seq<char>, AssetView<N>>)
    requires
        assets.dom().finite(),
    ensures
        totals::map_total(assets, |asset: AssetView<N>| presence(asset)) == held(assets),
        held(assets) <= assets.len(),
    decreases assets.dom().len(),
{
    assets.dom().lemma_len_filter(|key: Seq<char>| assets[key].data is Some);
    if assets.dom().len() > 0 {
        let key = assets.dom().choose();
        let others = assets.remove(key);
        lemma_held_is_total(others);
        lemma_held_after_insert(others, key, assets[key]);
        assert(others.insert(key, assets[key]) =~= assets);
    } else {
        assert(held_keys(assets) =~= Set::<Seq<char>>::empty());
    }
}

impl<N: Clone> AssetStore<N> {
    /// The table of assets is well formed.
    pub closed spec fn well_formed(&self) -> bool {
        self.assets.well_formed()
    }

    /// A store without assets.
    pub fn new() -> (res: Self)
        ensures
            res.well_formed(),
            res@ == Map::<Seq<char>, AssetView<N>>::empty(),
    {
        let res = AssetStore { assets: Table::new() };
        assert(res@ =~= Map::<Seq<char>, AssetView<N>>::empty());
        res
    }

    /// There are finitely many assets.
    pub proof fn lemma_finite(&self)
        requires
            self.well_formed(),
        ensures
            self@.dom().finite(),
    {
        self.assets.lemma_finite();
        assert(self@.dom() =~= self.assets@.dom());
    }

    /// The number of assets that arrived or were asked for.
    pub fn len(&self) -> (res: usize)
        requires
            self.well_formed(),
        ensures
            res == self@.len(),
    {
        assert(self@.dom() =~= self.assets@.dom());
        self.assets.len()
    }

    /// Keeps the data of an asset. Everyone who waits on the returned notifier is to be woken; a
    /// key without an entry gets one with the notifier `fresh`.
    pub fn store(&mut self, key: &str, data: Vec<u8>, fresh: N) -> (res: N)
        requires
            old(self).well_formed(),
        ensures
            final(self).well_formed(),
            final(self)@ == after_store(old(self)@, key@, data@, fresh),
            cloned(asset_of(old(self)@, key@, fresh).notify, res),
    {
        let asset = self.assets.entry(key, Asset::new(fresh));
        let res = asset.store(data);
        assert(self@ =~= after_store(old(self)@, key@, data@, fresh));
        res
    }

    /// Looks an asset up: its data, if it arrived, and the notifier on which to wait for it. A key
    /// without an entry gets one with the notifier `fresh`.
    pub fn lookup(&mut self, key: &str, fresh: N) -> (res: (Option<::bytes::Bytes>, N))
        requires
            old(self).well_formed(),
        ensures
            final(self).well_formed(),
            final(self)@ == after_lookup(old(self)@, key@, fresh),
            ({
                let asset = asset_of(old(self)@, key@, fresh);
                &&& cloned(asset.notify, res.1)
                &&& match res.0 {
                    Some(data) => asset.data == Some(crate::bytes::contents(data)),
                    None => asset.data is None,
                }
            }),
    {
        let asset = self.assets.entry(key, Asset::new(fresh));
        let res = (asset.data(), asset.notifier());
        assert(self@ =~= after_lookup(old(self)@, key@, fresh));
        res
    }

    /// The number of bytes of all assets that arrived, if it fits.
    pub fn checked_total_size(&self) -> (res: Option<usize>)
        requires
            self.well_formed(),
        ensures
            match res {
                Some(size) => size == total_size(self@),
                None => total_size(self@) > usize::MAX,
            },
    {
        let ghost size = |asset: Asset<N>| asset_size(asset@);
        let ghost walk = self.assets.walk();
        let mut sizes: Vec<usize> = Vec::new();
        let len: usize = self.assets.len();
        proof {
            self.assets.lemma_walk_total(size);
        }
        let mut i: usize = 0;
        while i < len
            invariant
                i <= len,
                len == self.assets@.len(),
                self.assets.well_formed(),
                walk == self.assets.walk(),
                walk.len() == len,
                size == (|asset: Asset<N>| asset_size(asset@)),
                sizes@.len() == i,
                forall|j: int| 0 <= j < i ==> #[trigger] sizes@[j] == size(walk[j]),
            decreases len - i,
        {
            sizes.push(self.assets.value_at(i).size());
            i = i + 1;
        }
        proof {
            assert(sizes@.map_values(|count: usize| count as nat) =~= walk.map_values(size));
            self.assets.lemma_finite();
            let of_view = |asset: AssetView<N>| asset_size(asset);
            lemma_total_of_views(self.assets@, of_view);
            assert((|asset: Asset<N>| of_view(asset@)) =~= size);
        }
        totals::total(&sizes)
    }

    /// The number of assets that arrived.
    pub fn held_count(&self) -> (res: usize)
        requires
            self.well_formed(),
        ensures
            res == held(self@),
    {
        let ghost count = |asset: Asset<N>| presence(asset@);
        let ghost counts = self.assets.walk().map_values(count);
        let len: usize = self.assets.len();
        proof {
            self.assets.lemma_walk_total(count);
        }
        let mut found: usize = 0;
        let mut i: usize = 0;
        while i < len
            invariant
                i <= len,
                found <= i,
                len == self.assets@.len(),
                self.assets.well_formed(),
                count == (|asset: Asset<N>| presence(asset@)),
                counts == self.assets.walk().map_values(count),
                counts.len() == len,
                found == totals::seq_total(counts.take(i as int)),
            decreases len - i,
        {
            proof {
                assert(counts.take(i + 1).drop_last() =~= counts.take(i as int));
            }
            if self.assets.value_at(i).is_held() {
                found = found + 1;
            }
            i = i + 1;
        }
        proof {
            assert(counts.take(i as int) =~= counts);
            self.lemma_finite();
            self.assets.lemma_finite();
            let of_view = |asset: AssetView<N>| presence(asset);
            lemma_total_of_views(self.assets@, of_view);
            assert((|asset: Asset<N>| of_view(asset@)) =~= count);
            lemma_held_is_total(self@);
        }
        found
    }

    /// The number of bytes of all assets that arrived.
    pub fn total_assets_size(&self) -> (res: usize)
        requires
            self.well_formed(),
            total_size(self@) <= usize::MAX,
        ensures
            res == total_size(self@),
    {
        match self.checked_total_size() {
            Some(size) => size,
            None => 0,
        }
    }
}

/// What the next look at the store says to a request for an asset.
#[derive(Debug)]
pub enum AssetStep<N> {
    /// The asset.
    Found(::bytes::Bytes),
    /// The request took too long.
    TimedOut(Error),
    /// The asset is not there. The message, if there is one, goes to the game server; then look
    /// again when the notifier wakes or the time is up.
    Wait { message: Option<ServerMessage>, notify: N },
}

/// A request for an asset.
#[derive(Debug)]
pub struct AssetRequest {
    asset_id: String,
    requested_from_server: bool,
}

/// A request for an asset with its key as a sequence of characters.
pub struct AssetRequestView {
    pub asset_id: Seq<char>,
    pub requested_from_server: bool,
}

impl View for AssetRequest {
    type V = AssetRequestView;

    closed spec fn view(&self) -> AssetRequestView {
        AssetRequestView {
            asset_id: self.asset_id@,
            requested_from_server: self.requested_from_server,
        }
    }
}

/// What a request sees when it looks at the store.
pub struct Look {
    pub in_time: bool,
    pub found: bool,
}

/// The request asks the game server for the asset.
pub open spec fn asks(request: AssetRequestView, look: Look) -> bool {
    look.in_time && !look.found && !request.requested_from_server
}

/// The request after it looked at the store.
pub open spec fn after_look(request: AssetRequestView, look: Look) -> AssetRequestView {
    AssetRequestView {
        requested_from_server: request.requested_from_server || look.in_time && !look.found,
        ..request
    }
}

/// What a look at the store says: that the request took too long, or what is known of the asset. A
/// request that asks the game server says so.
pub open spec fn is_step<N: Clone>(
    step: AssetStep<N>,
    request: AssetRequestView,
    look: Look,
    asset: AssetView<N>,
) -> bool {
    match step {
        AssetStep::TimedOut(Error::AssetTimedOut(key)) => !look.in_time && key@ == request.asset_id,
        AssetStep::TimedOut(_) => false,
        AssetStep::Found(data) => look.in_time && asset.data == Some(crate::bytes::contents(data)),
        AssetStep::Wait { message, notify } => {
            &&& look.in_time
            &&& asset.data is None
            &&& cloned(asset.notify, notify)
            &&& match message {
                Some(ServerMessage::RequestAsset { key }) => asks(request, look) && key@
                    == request.asset_id,
                Some(_) => false,
                None => !asks(request, look),
            }
        },
    }
}

impl AssetRequest {
    /// A request that did not look at the store yet.
    pub fn new(asset_id: String) -> (res: Self)
        ensures
            res@ == (AssetRequestView { asset_id: asset_id@, requested_from_server: false }),
    {
        AssetRequest { asset_id, requested_from_server: false }
    }

    /// Looks at the store. The game server is asked for an asset that is not there, once in the
    /// life of a request.
    pub fn step<N: Clone>(&mut self, store: &mut AssetStore<N>, in_time: bool, fresh: N) -> (res:
        AssetStep<N>)
        requires
            old(store).well_formed(),
        ensures
            final(store).well_formed(),
            ({
                let asset = asset_of(old(store)@, old(self)@.asset_id, fresh);
                let look = Look { in_time, found: asset.data is Some };
                &&& final(self)@ == after_look(old(self)@, look)
                &&& final(store)@ == if in_time {
                    after_lookup(old(store)@, old(self)@.asset_id, fresh)
                } else {
                    old(store)@
                }
                &&& is_step(res, old(self)@, look, asset)
            }),
    {
        if !in_time {
            return AssetStep::TimedOut(Error::AssetTimedOut(self.asset_id.clone()));
        }
        let (data, notify) = store.lookup(self.asset_id.as_str(), fresh);
        if let Some(data) = data {
            return AssetStep::Found(data);
        }
        let message = if self.requested_from_server {
            None
        } else {
            Some(ServerMessage::RequestAsset { key: self.asset_id.clone() })
        };
        self.requested_from_server = true;
        AssetStep::Wait { message, notify }
    }

    /// The outcome where the message to the game server could not be sent.
    pub fn request_failed(self) -> (res: Error)
        ensures
            res matches Error::AssetRequestFailed(key) && key@ == self@.asset_id,
    {
        Error::AssetRequestFailed(self.asset_id)
    }
}

/// An asset that was stored is what every later look finds, until another is stored under its key.
/// Storing it changes no other asset.
pub proof fn law_stored_asset_is_found<N>(
    assets: Map<Seq<char>, AssetView<N>>,
    key: Seq<char>,
    data: Seq<u8>,
    fresh: N,
)
    ensures
        forall|later: N| #[trigger]
            asset_of(after_store(assets, key, data, fresh), key, later).data == Some(data),
        forall|other: Seq<char>, later: N|
            other != key ==> #[trigger] asset_of(
                after_store(assets, key, data, fresh),
                other,
                later,
            ) == asset_of(assets, other, later),
{
}

/// Looking an asset up changes no asset, and neither the number of assets nor that of bytes held.
pub proof fn law_lookup_changes_no_asset<N>(
    assets: Map<Seq<char>, AssetView<N>>,
    key: Seq<char>,
    fresh: N,
)
    requires
        assets.dom().finite(),
    ensures
        forall|other: Seq<char>, later: N| #[trigger]
            asset_of(after_lookup(assets, key, fresh), other, later).data == asset_of(
                assets,
                other,
                later,
            ).data,
        total_size(after_lookup(assets, key, fresh)) == total_size(assets),
        held(after_lookup(assets, key, fresh)) == held(assets),
{
    lemma_held_after_insert(assets, key, asset_of(assets, key, fresh));
    lemma_total_after_insert(assets, key, asset_of(assets, key, fresh));
}

/// Storing an asset replaces the bytes that were held under its key by its own, in the total too. It
/// is one more asset if none was held under its key.
pub proof fn law_total_after_store<N>(
    assets: Map<Seq<char>, AssetView<N>>,
    key: Seq<char>,
    data: Seq<u8>,
    fresh: N,
)
    requires
        assets.dom().finite(),
    ensures
        total_size(after_store(assets, key, data, fresh)) == total_size(assets) - asset_size(
            asset_of(assets, key, fresh),
        ) + data.len(),
        held(after_store(assets, key, data, fresh)) == held(assets) + (if held_keys(
            assets,
        ).contains(key) {
            0int
        } else {
            1int
        }),
{
    let stored = AssetView { data: Some(data), ..asset_of(assets, key, fresh) };
    lemma_total_after_insert(assets, key, stored);
    lemma_held_after_insert(assets, key, stored);
}

/// The total after the asset of a key was replaced.
proof fn lemma_total_after_insert<N>(
    assets: Map<Seq<char>, AssetView<N>>,
    key: Seq<char>,
    asset: AssetView<N>,
)
    requires
        assets.dom().finite(),
    ensures
        total_size(assets.insert(key, asset)) == total_size(assets) + asset_size(asset) - (
        if assets.contains_key(key) {
            asset_size(assets[key])
        } else {
            0
        }),
{
    let size = |asset: AssetView<N>| asset_size(asset);
    let after = assets.insert(key, asset);
    totals::lemma_map_total_remove(after, size, key);
    if assets.contains_key(key) {
        totals::lemma_map_total_remove(assets, size, key);
        assert(after.remove(key) =~= assets.remove(key));
    } else {
        assert(after.remove(key) =~= assets);
    }
}

/// How often a request that sees `looks`, one after the other, asks the game server.
pub open spec fn times_asked(request: AssetRequestView, looks: Seq<Look>) -> nat
    decreases looks.len(),
{
    if looks.len() == 0 {
        0
    } else {
        let later = times_asked(after_look(request, looks[0]), looks.drop_first());
        if asks(request, looks[0]) {
            1 + later
        } else {
            later
        }
    }
}

/// However often a request looks at the store, and whatever it sees, it asks the game server at
/// most once, and not at all if it asked before.
pub proof fn law_asked_once(request: AssetRequestView, looks: Seq<Look>)
    ensures
        times_asked(request, looks) <= 1,
        request.requested_from_server ==> times_asked(request, looks) == 0,
    decreases looks.len(),
{
    if looks.len() > 0 {
        law_asked_once(after_look(request, looks[0]), looks.drop_first());
    }
}

/// What is stored is what is served. A look in time, by any request for the key, the first look of a
/// new one too, gives exactly the data that was stored under the key, and asks the game server for
/// nothing.
pub proof fn law_stored_data_is_served<N: Clone>(
    storing: &mut AssetStore<N>,
    key: &str,
    data: Vec<u8>,
    fresh: N,
    woken: N,
    asset_id: String,
    made: AssetRequest,
    request: &mut AssetRequest,
    looking: &mut AssetStore<N>,
    later: N,
    step: AssetStep<N>,
)
    requires
        call_ensures(AssetStore::<N>::store, (storing, key, data, fresh), woken),
        asset_id@ == key@,
        call_ensures(AssetRequest::new, (asset_id,), made),
        old(request)@.asset_id == made@.asset_id,
        *old(looking) == *final(storing),
        call_ensures(AssetRequest::step::<N>, (request, looking, true, later), step),
    ensures
        step matches AssetStep::Found(found) && crate::bytes::contents(found) == data@,
{
}

/// Storing an asset leaves the others alone: a look for another key gives what the same look gave
/// before.
pub proof fn law_storing_leaves_others_alone<N: Clone>(
    storing: &mut AssetStore<N>,
    key: &str,
    data: Vec<u8>,
    fresh: N,
    woken: N,
    other: &str,
    before: &mut AssetStore<N>,
    after: &mut AssetStore<N>,
    later: N,
    seen: (Option<::bytes::Bytes>, N),
    seen_after: (Option<::bytes::Bytes>, N),
)
    requires
        call_ensures(AssetStore::<N>::store, (storing, key, data, fresh), woken),
        other@ != key@,
        *old(before) == *old(storing),
        call_ensures(AssetStore::<N>::lookup, (before, other, later), seen),
        *old(after) == *final(storing),
        call_ensures(AssetStore::<N>::lookup, (after, other, later), seen_after),
    ensures
        match (seen.0, seen_after.0) {
            (Some(first), Some(second)) => crate::bytes::contents(first)
                == crate::bytes::contents(second),
            (None, None) => true,
            _ => false,
        },
{
}

/// An asset that did not arrive is not served. The first look in time of a request asks the game
/// server for the key, the next one waits and asks for nothing. A look that comes too late says which
/// asset did not come, whatever is stored, and changes nothing.
pub proof fn law_missing_asset_is_asked_for_once<N: Clone>(
    asset_id: String,
    key: &str,
    made: AssetRequest,
    looking: &mut AssetStore<N>,
    fresh: N,
    seen: (Option<::bytes::Bytes>, N),
    first: &mut AssetRequest,
    first_store: &mut AssetStore<N>,
    first_step: AssetStep<N>,
    next: &mut AssetRequest,
    next_store: &mut AssetStore<N>,
    next_fresh: N,
    next_step: AssetStep<N>,
    late: &mut AssetRequest,
    late_store: &mut AssetStore<N>,
    late_step: AssetStep<N>,
)
    requires
        key@ == asset_id@,
        call_ensures(AssetRequest::new, (asset_id,), made),
        call_ensures(AssetStore::<N>::lookup, (looking, key, fresh), seen),
        seen.0 is None,
        *old(first) == made,
        *old(first_store) == *old(looking),
        call_ensures(AssetRequest::step::<N>, (first, first_store, true, fresh), first_step),
        *old(next) == *final(first),
        *old(next_store) == *final(first_store),
        call_ensures(AssetRequest::step::<N>, (next, next_store, true, next_fresh), next_step),
        old(late)@.asset_id == made@.asset_id,
        call_ensures(AssetRequest::step::<N>, (late, late_store, false, next_fresh), late_step),
    ensures
        match first_step {
            AssetStep::Wait { message: Some(ServerMessage::RequestAsset { key }), notify: _ } => key@
                == asset_id@,
            _ => false,
        },
        next_step matches AssetStep::Wait { message: None, notify: _ },
        late_step matches AssetStep::TimedOut(Error::AssetTimedOut(key)) && key@ == asset_id@,
        final(late_store)@ == old(late_store)@,
        final(late)@ == old(late)@,
{
}

/// What is not stored is not found: a store without assets has none under any key, and a look, in time
/// or not, leaves everything to be found as it was, under its own key and under every other.
pub proof fn law_looking_changes_nothing<N: Clone>(
    empty: AssetStore<N>,
    nothing: &mut AssetStore<N>,
    none: (Option<::bytes::Bytes>, N),
    request: &mut AssetRequest,
    looking: &mut AssetStore<N>,
    in_time: bool,
    fresh: N,
    step: AssetStep<N>,
    key: &str,
    before: &mut AssetStore<N>,
    seen: (Option<::bytes::Bytes>, N),
    after: &mut AssetStore<N>,
    seen_after: (Option<::bytes::Bytes>, N),
)
    requires
        call_ensures(AssetStore::<N>::new, (), empty),
        *old(nothing) == empty,
        call_ensures(AssetStore::<N>::lookup, (nothing, key, fresh), none),
        call_ensures(AssetRequest::step::<N>, (request, looking, in_time, fresh), step),
        *old(before) == *old(looking),
        call_ensures(AssetStore::<N>::lookup, (before, key, fresh), seen),
        *old(after) == *final(looking),
        call_ensures(AssetStore::<N>::lookup, (after, key, fresh), seen_after),
    ensures
        none.0 is None,
        final(request)@.asset_id == old(request)@.asset_id,
        match (seen.0, seen_after.0) {
            (Some(first), Some(second)) => crate::bytes::contents(first)
                == crate::bytes::contents(second),
            (None, None) => true,
            _ => false,
        },
{
}

/// Where the game server could not be asked, the asset that was asked for is named.
pub proof fn law_failed_request_names_asset(asset_id: String, made: AssetRequest, error: Error)
    requires
        call_ensures(AssetRequest::new, (asset_id,), made),
        call_ensures(AssetRequest::request_failed, (made,), error),
    ensures
        error matches Error::AssetRequestFailed(key) && key@ == asset_id@,
{
}

/// Whoever waits for an asset is woken when it is stored: the notifier that a look says to wait on
/// and the one that storing the asset says to wake are clones of the same.
pub proof fn law_waiting_request_is_woken<N: Clone>(
    request: &mut AssetRequest,
    looking: &mut AssetStore<N>,
    fresh: N,
    message: Option<ServerMessage>,
    notify: N,
    storing: &mut AssetStore<N>,
    key: &str,
    data: Vec<u8>,
    other: N,
    woken: N,
)
    requires
        call_ensures(
            AssetRequest::step::<N>,
            (request, looking, true, fresh),
            AssetStep::Wait { message, notify },
        ),
        key@ == old(request)@.asset_id,
        *old(storing) == *final(looking),
        call_ensures(AssetStore::<N>::store, (storing, key, data, other), woken),
    ensures
        exists|origin: N| #[trigger] cloned(origin, notify) && cloned(origin, woken),
{
    let origin = asset_of(old(looking)@, old(request)@.asset_id, fresh).notify;
    assert(cloned(origin, notify) && cloned(origin, woken));
}

/// The bytes held are counted: a store without assets holds none, and storing an asset adds its own
/// and takes off those that were held under its key.
pub proof fn law_bytes_are_counted<N: Clone>(
    empty: AssetStore<N>,
    none: Option<usize>,
    storing: &mut AssetStore<N>,
    key: &str,
    data: Vec<u8>,
    fresh: N,
    woken: N,
    looking: &mut AssetStore<N>,
    later: N,
    seen: (Option<::bytes::Bytes>, N),
    before: Option<usize>,
    after: Option<usize>,
)
    requires
        call_ensures(AssetStore::<N>::new, (), empty),
        call_ensures(AssetStore::<N>::checked_total_size, (&empty,), none),
        old(storing).well_formed(),
        call_ensures(AssetStore::<N>::store, (storing, key, data, fresh), woken),
        *old(looking) == *old(storing),
        call_ensures(AssetStore::<N>::lookup, (looking, key, later), seen),
        call_ensures(AssetStore::<N>::checked_total_size, (&*old(storing),), before),
        call_ensures(AssetStore::<N>::checked_total_size, (&*final(storing),), after),
    ensures
        none == Some(0usize),
        before matches Some(before) ==> {
            let total = before + data@.len() - match seen.0 {
                Some(replaced) => crate::bytes::contents(replaced).len(),
                None => 0,
            };
            match after {
                Some(after) => after == total,
                None => total > usize::MAX,
            }
        },
{
    old(storing).lemma_finite();
    law_total_after_store(old(storing)@, key@, data@, fresh);
    lemma_nothing_held::<N>();
}

/// The assets held are counted: a store without assets holds none, storing one under a key that held
/// none makes one more, and storing another under that key, or asking for a key, makes none.
pub proof fn law_assets_are_counted<N: Clone>(
    empty: AssetStore<N>,
    none: usize,
    storing: &mut AssetStore<N>,
    key: &str,
    data: Vec<u8>,
    fresh: N,
    woken: N,
    looking: &mut AssetStore<N>,
    later: N,
    seen: (Option<::bytes::Bytes>, N),
    before: usize,
    after: usize,
    looked: usize,
)
    requires
        call_ensures(AssetStore::<N>::new, (), empty),
        call_ensures(AssetStore::<N>::held_count, (&empty,), none),
        old(storing).well_formed(),
        call_ensures(AssetStore::<N>::store, (storing, key, data, fresh), woken),
        *old(looking) == *old(storing),
        call_ensures(AssetStore::<N>::lookup, (looking, key, later), seen),
        call_ensures(AssetStore::<N>::held_count, (&*old(storing),), before),
        call_ensures(AssetStore::<N>::held_count, (&*final(storing),), after),
        call_ensures(AssetStore::<N>::held_count, (&*final(looking),), looked),
    ensures
        none == 0,
        after == before + if seen.0 is Some {
            0int
        } else {
            1int
        },
        looked == before,
{
    old(storing).lemma_finite();
    law_total_after_store(old(storing)@, key@, data@, fresh);
    law_lookup_changes_no_asset(old(storing)@, key@, later);
    lemma_nothing_held::<N>();
}

/// The number of bytes held is the same whether or not it is known to fit.
pub proof fn law_sizes_agree<N: Clone>(store: AssetStore<N>, checked: Option<usize>, size: usize)
    requires
        call_ensures(AssetStore::<N>::checked_total_size, (&store,), checked),
        call_ensures(AssetStore::<N>::total_assets_size, (&store,), size),
    ensures
        checked == Some(size),
{
}

/// Where there are no assets, nothing is held.
pub proof fn lemma_nothing_held<N>()
    ensures
        held(Map::<Seq<char>, AssetView<N>>::empty()) == 0,
        total_size(Map::<Seq<char>, AssetView<N>>::empty()) == 0,
{
    assert(held_keys(Map::<Seq<char>, AssetView<N>>::empty()) =~= Set::<Seq<char>>::empty());
}

} // verus!
