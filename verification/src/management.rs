//! The management of the proxy: which allocations there are, and what is counted of them.
use std::collections::HashMap;
use std::collections::hash_map::DefaultHasher;

use vstd::prelude::*;

use crate::asset_store;
use crate::configuration::Settings;
use crate::error::Error;
use crate::ids;
use crate::ports;
use crate::protocol::{ProxyStats, ServerMessage, SocketAddress};
use crate::proxy::{Bound, ProxyEvent, ProxyServer, ProxyView};
use crate::telemetry::{ConnectionRole, MetricsUpdate};
use crate::text;
use crate::totals;

verus! {

broadcast use vstd::std_specs::hash::group_hash_axioms;

/// The number of seconds between two counts of players and assets.
pub const METRICS_UPDATE_SECONDS: u64 = 10;

/// The allocations, by id. `P` is what the program keeps of an allocation.
pub struct ProxyStore<P> {
    proxies: HashMap<u128, P>,
}

impl<P> View for ProxyStore<P> {
    type V = Map<u128, P>;

    closed spec fn view(&self) -> Map<u128, P> {
        self.proxies@
    }
}

/// The allocations are listed, each once, in the order of `order`.
pub open spec fn is_listing<P>(listed: Seq<P>, proxies: Map<u128, P>, order: Seq<u128>) -> bool {
    &&& order.no_duplicates()
    &&& order.to_set() == proxies.dom()
    &&& listed.len() == order.len()
    &&& forall|i: int| 0 <= i < order.len() ==> #[trigger] listed[i] == proxies[order[i]]
}

impl<P> ProxyStore<P> {
    /// No allocations.
    pub fn new() -> (res: Self)
        ensures
            res@ == Map::<u128, P>::empty(),
    {
        ProxyStore { proxies: HashMap::new() }
    }

    /// Keeps an allocation and returns the number of allocations.
    pub fn insert(&mut self, id: u128, proxy: P) -> (res: usize)
        ensures
            final(self)@ == old(self)@.insert(id, proxy),
            res == final(self)@.len(),
    {
        self.proxies.insert(id, proxy);
        self.proxies.len()
    }

    /// The allocation with an id.
    pub fn get_proxy(&self, id: &u128) -> (res: Option<&P>)
        ensures
            match res {
                Some(proxy) => self@.contains_key(*id) && *proxy == self@[*id],
                None => !self@.contains_key(*id),
            },
    {
        self.proxies.get(id)
    }

    /// Gives up an allocation, and returns the number of allocations that are left.
    pub fn remove(&mut self, id: &u128) -> (res: (usize, Option<P>))
        ensures
            final(self)@ == old(self)@.remove(*id),
            res.0 == final(self)@.len(),
            match res.1 {
                Some(proxy) => old(self)@.contains_key(*id) && proxy == old(self)@[*id],
                None => !old(self)@.contains_key(*id),
            },
    {
        let proxy = self.proxies.remove(id);
        (self.proxies.len(), proxy)
    }

    /// All allocations, each once, in no particular order.
    pub fn all_proxies(&self) -> (res: Vec<&P>)
        ensures
            exists|order: Seq<u128>| #[trigger]
                is_listing(res@.unref(), self@, order),
    {
        let mut listed: Vec<&P> = Vec::new();
        let keys = self.proxies.keys();
        let ghost order: Seq<u128> = vstd::std_specs::iter::IteratorSpec::remaining(&keys).unref();
        for key in iter: keys
            invariant
                order == iter.seq().unref(),
                order.to_set() == self.proxies@.dom(),
                listed@.len() == iter.index(),
                forall|i: int|
                    0 <= i < iter.index() ==> *(#[trigger] listed@[i]) == self.proxies@[order[i]],
        {
            assert(order[iter.index()] == *key);
            assert(order.to_set().contains(*key));
            match self.proxies.get(key) {
                Some(proxy) => {
                    listed.push(proxy);
                },
                None => {},
            }
        }
        proof {
            assert(order.no_duplicates());
            assert(is_listing(listed@.unref(), self@, order));
        }
        listed
    }
}

/// A sum over all allocations does not depend on the order in which they are listed: it is the sum
/// over the ids.
pub proof fn law_listing_total<P>(
    listed: Seq<P>,
    proxies: Map<u128, P>,
    order: Seq<u128>,
    size: spec_fn(P) -> nat,
)
    requires
        is_listing(listed, proxies, order),
    ensures
        totals::seq_total(listed.map_values(size)) == totals::map_total(proxies, size),
    decreases order.len(),
{
    let sizes = listed.map_values(size);
    vstd::seq_lib::seq_to_set_is_finite(order);
    order.unique_seq_to_set();
    if order.len() > 0 {
        let id = order.last();
        let earlier = order.drop_last();
        assert(order.to_set().contains(id)) by {
            assert(order[order.len() - 1] == id);
        }
        assert(earlier.to_set() =~= proxies.remove(id).dom()) by {
            assert forall|other: u128| earlier.to_set().contains(other) implies proxies.remove(
                id,
            ).dom().contains(other) by {
                let at = earlier.index_of(other);
                assert(order[at] == other);
                assert(order.to_set().contains(other));
            }
            assert forall|other: u128| proxies.remove(id).dom().contains(other) implies
                earlier.to_set().contains(other) by {
                assert(order.to_set().contains(other));
                let at = order.index_of(other);
                assert(earlier[at] == other);
            }
        }
        assert forall|i: int| 0 <= i < earlier.len() implies #[trigger] listed.drop_last()[i]
            == proxies.remove(id)[earlier[i]] by {
            assert(listed[i] == proxies[order[i]]);
            assert(order[i] != order[order.len() - 1]);
        }
        law_listing_total(listed.drop_last(), proxies.remove(id), earlier, size);
        assert(sizes.drop_last() =~= listed.drop_last().map_values(size));
        assert(listed[listed.len() - 1] == proxies[id]);
        totals::lemma_map_total_remove(proxies, size, id);
    }
}

/// The sum of counts.
pub open spec fn sum(counts: Seq<usize>) -> nat {
    totals::seq_total(counts.map_values(|count: usize| count as nat))
}

/// Something that the management of the proxy waits for.
#[derive(Debug)]
pub enum ManagementInput<P> {
    /// A game server connected, and its allocation was started.
    Connected { id: u128, proxy: P },
    /// A game server could not be connected.
    ConnectionFailed,
    /// An allocation tells something.
    Event(ProxyEvent),
    /// It is time to count. For each allocation the number of its players and the number of bytes of
    /// its assets are given.
    Tick { players: Vec<usize>, assets_sizes: Vec<usize> },
}

/// What the management of the proxy does next.
#[derive(Debug)]
pub struct ManagementAction<P> {
    /// What to count, in this order.
    pub updates: Vec<MetricsUpdate>,
    /// The allocation to break off.
    pub stopped: Option<P>,
}

/// What the management of the proxy counts.
pub open spec fn counted<P>(input: ManagementInput<P>, proxies_count: nat) -> Seq<MetricsUpdate> {
    match input {
        ManagementInput::Connected { id, proxy } => seq![
            MetricsUpdate::IncConnections(ConnectionRole::Server),
            MetricsUpdate::SetCurrentConnections(ConnectionRole::Server, proxies_count as usize),
        ],
        ManagementInput::ConnectionFailed => Seq::empty(),
        ManagementInput::Event(ProxyEvent::Stopped { id }) => seq![
            MetricsUpdate::SetCurrentConnections(ConnectionRole::Server, proxies_count as usize),
        ],
        ManagementInput::Tick { players, assets_sizes } => seq![
            MetricsUpdate::SetCurrentConnections(ConnectionRole::Client, sum(players@) as usize),
            MetricsUpdate::SetCurrentAssetsSizeBytes(sum(assets_sizes@) as usize),
        ],
    }
}

/// The allocations after the management of the proxy did its work.
pub open spec fn after_input<P>(input: ManagementInput<P>, proxies: Map<u128, P>) -> Map<u128, P> {
    match input {
        ManagementInput::Connected { id, proxy } => proxies.insert(id, proxy),
        ManagementInput::Event(ProxyEvent::Stopped { id }) => proxies.remove(id),
        _ => proxies,
    }
}

/// The management of the proxy.
pub struct ManagementServer<P> {
    settings: Settings,
    proxies: ProxyStore<P>,
}

/// The management of the proxy: its settings and its allocations.
pub struct ManagementView<P> {
    pub settings: Settings,
    pub proxies: Map<u128, P>,
}

impl<P> View for ManagementServer<P> {
    type V = ManagementView<P>;

    closed spec fn view(&self) -> ManagementView<P> {
        ManagementView { settings: self.settings, proxies: self.proxies@ }
    }
}

impl<P> ManagementServer<P> {
    /// The management of a proxy without allocations.
    pub fn new(settings: Settings) -> (res: Self)
        ensures
            res@ == (ManagementView { settings, proxies: Map::<u128, P>::empty() }),
    {
        ManagementServer { settings, proxies: ProxyStore::new() }
    }

    /// The settings.
    pub fn settings(&self) -> (res: &Settings)
        ensures
            *res == self@.settings,
    {
        &self.settings
    }

    /// The allocations.
    pub fn proxies(&self) -> (res: &ProxyStore<P>)
        ensures
            res@ == self@.proxies,
    {
        &self.proxies
    }

    /// An allocation for a game server that connected. It has an id of its own, left to chance. Its
    /// players connect to the public host of the proxy, on the ports that are set aside for players,
    /// and its assets are served at the public address of the HTTP interface.
    pub fn handle_connection<E, C, N: Clone>(&self) -> (res: ProxyServer<E, C, N>)
        ensures
            res.well_formed(),
            ids::is_random_id(res@.id),
            res@ == (ProxyView::<E, C, N> {
                id: res@.id,
                proxy_endpoint: None,
                allocated_endpoint: Seq::empty(),
                public_host_name: self@.settings.public_host_name@,
                http_public_addr: text::host_port(
                    self@.settings.http_host(),
                    self@.settings.http_port_number(),
                ),
                ports: (self@.settings.proxy_port_first, self@.settings.proxy_port_last),
                players: Map::empty(),
                assets: Map::empty(),
            }),
    {
        ProxyServer::new(
            ids::new_allocation_id(),
            self.settings.public_host_name.clone(),
            self.settings.http_public_addr(),
            self.settings.proxy_port_range(),
        )
    }

    /// Decides what to do about what the management of the proxy waited for.
    pub fn step(&mut self, input: ManagementInput<P>) -> (res: ManagementAction<P>)
        requires
            input matches ManagementInput::Tick { players, assets_sizes } ==> sum(players@)
                <= usize::MAX && sum(assets_sizes@) <= usize::MAX,
        ensures
            final(self)@ == (ManagementView {
                proxies: after_input(input, old(self)@.proxies),
                ..old(self)@
            }),
            res.updates@ == counted(input, final(self)@.proxies.len()),
            match (input, res.stopped) {
                (ManagementInput::Event(ProxyEvent::Stopped { id }), Some(proxy)) => {
                    &&& old(self)@.proxies.contains_key(id)
                    &&& proxy == old(self)@.proxies[id]
                },
                (ManagementInput::Event(ProxyEvent::Stopped { id }), None) => {
                    !old(self)@.proxies.contains_key(id)
                },
                (_, stopped) => stopped is None,
            },
    {
        match input {
            ManagementInput::Connected { id, proxy } => {
                let proxies_count = self.proxies.insert(id, proxy);
                let updates = vec![
                    MetricsUpdate::IncConnections(ConnectionRole::Server),
                    MetricsUpdate::SetCurrentConnections(ConnectionRole::Server, proxies_count),
                ];
                ManagementAction { updates, stopped: None }
            },
            ManagementInput::ConnectionFailed => ManagementAction {
                updates: Vec::new(),
                stopped: None,
            },
            ManagementInput::Event(ProxyEvent::Stopped { id }) => {
                let (proxies_count, stopped) = self.proxies.remove(&id);
                let updates = vec![
                    MetricsUpdate::SetCurrentConnections(ConnectionRole::Server, proxies_count),
                ];
                ManagementAction { updates, stopped }
            },
            ManagementInput::Tick { players, assets_sizes } => {
                let mut updates: Vec<MetricsUpdate> = Vec::new();
                if let Some(count) = totals::total(&players) {
                    updates.push(
                        MetricsUpdate::SetCurrentConnections(ConnectionRole::Client, count),
                    );
                }
                if let Some(size) = totals::total(&assets_sizes) {
                    updates.push(MetricsUpdate::SetCurrentAssetsSizeBytes(size));
                }
                ManagementAction { updates, stopped: None }
            },
        }
    }
}

/// An allocation that comes and goes leaves the others as they were.
pub proof fn law_allocation_comes_and_goes<P>(id: u128, proxy: P, proxies: Map<u128, P>)
    requires
        !proxies.contains_key(id),
    ensures
        ({
            let kept = after_input(ManagementInput::Connected { id, proxy }, proxies);
            after_input(ManagementInput::<P>::Event(ProxyEvent::Stopped { id }), kept) == proxies
        }),
{
    assert(proxies.insert(id, proxy).remove(id) =~= proxies);
}

/// The number of game servers that is shown is always the number of allocations that are kept: each
/// time an allocation comes or goes, the number after that is what is shown.
pub proof fn law_shown_connections<P>(input: ManagementInput<P>, proxies: Map<u128, P>)
    ensures
        ({
            let after = after_input(input, proxies);
            after != proxies ==> counted(input, after.len()).last()
                == MetricsUpdate::SetCurrentConnections(
                ConnectionRole::Server,
                after.len() as usize,
            )
        }),
{
}

/// An allocation that is kept is found by its id, until it is given up, and no other is found by it.
/// Keeping or giving up one changes nothing for the others.
pub proof fn law_kept_allocation_is_found<P>(
    empty: ProxyStore<P>,
    id: u128,
    none: Option<&P>,
    keeping: &mut ProxyStore<P>,
    proxy: P,
    kept: usize,
    found: Option<&P>,
    removing: &mut ProxyStore<P>,
    removed: (usize, Option<P>),
    gone: Option<&P>,
    other: u128,
    others: (Option<&P>, Option<&P>, Option<&P>),
)
    requires
        call_ensures(ProxyStore::<P>::new, (), empty),
        call_ensures(ProxyStore::<P>::get_proxy, (&empty, &id), none),
        call_ensures(ProxyStore::<P>::insert, (keeping, id, proxy), kept),
        call_ensures(ProxyStore::<P>::get_proxy, (&*final(keeping), &id), found),
        *old(removing) == *final(keeping),
        call_ensures(ProxyStore::<P>::remove, (removing, &id), removed),
        call_ensures(ProxyStore::<P>::get_proxy, (&*final(removing), &id), gone),
        other != id,
        call_ensures(ProxyStore::<P>::get_proxy, (&*old(keeping), &other), others.0),
        call_ensures(ProxyStore::<P>::get_proxy, (&*final(keeping), &other), others.1),
        call_ensures(ProxyStore::<P>::get_proxy, (&*final(removing), &other), others.2),
    ensures
        none is None,
        found == Some(&proxy),
        removed.1 == Some(proxy),
        gone is None,
        others.0 == others.1,
        others.1 == others.2,
{
}

/// All allocations are listed: whatever is found by an id is in the list, whatever is in the list is
/// found by an id, and no two places of the list stand for the same id.
pub proof fn law_all_allocations_are_listed<P>(
    store: ProxyStore<P>,
    listed: Vec<&P>,
    id: u128,
    found: Option<&P>,
)
    requires
        call_ensures(ProxyStore::<P>::all_proxies, (&store,), listed),
        call_ensures(ProxyStore::<P>::get_proxy, (&store, &id), found),
    ensures
        found matches Some(proxy) ==> listed@.contains(proxy),
        exists|order: Seq<u128>|
            {
                &&& #[trigger] order.len() == listed@.len()
                &&& forall|i: int, j: int|
                    0 <= i < j < order.len() ==> #[trigger] order[i] != #[trigger] order[j]
                &&& forall|i: int|
                    0 <= i < order.len() ==> store@.contains_key(#[trigger] order[i])
                        && *listed@[i] == store@[order[i]]
                &&& found is Some ==> order.contains(id)
            },
{
    let order = choose|order: Seq<u128>| #[trigger] is_listing(listed@.unref(), store@, order);
    assert(order.len() == listed@.len());
    assert forall|i: int| 0 <= i < order.len() implies store@.contains_key(#[trigger] order[i])
        && *listed@[i] == store@[order[i]] by {
        assert(order.to_set().contains(order[i]));
        assert(listed@.unref()[i] == store@[order[i]]);
    }
    if let Some(proxy) = found {
        assert(order.to_set().contains(id));
        let at = order.index_of(id);
        assert(listed@.unref()[at] == store@[order[at]]);
        assert(*listed@[at] == *proxy);
        assert(listed@[at] == proxy);
    }
}

/// The management keeps the allocation of each game server that connected until it stopped, and hands
/// it out to be broken off then. It counts the connection, and shows the number of allocations that
/// are kept each time one comes or goes.
pub proof fn law_allocations_are_kept_and_counted<P>(
    coming: &mut ManagementServer<P>,
    id: u128,
    proxy: P,
    came: ManagementAction<P>,
    kept: &ProxyStore<P>,
    found: Option<&P>,
    going: &mut ManagementServer<P>,
    went: ManagementAction<P>,
    left: &ProxyStore<P>,
    gone: Option<&P>,
    going_again: &mut ManagementServer<P>,
    went_again: ManagementAction<P>,
    before: &ProxyStore<P>,
    listed: (Vec<&P>, Vec<&P>, Vec<&P>),
)
    requires
        call_ensures(
            ManagementServer::<P>::step,
            (coming, ManagementInput::Connected { id, proxy }),
            came,
        ),
        call_ensures(ManagementServer::<P>::proxies, (&*old(coming),), before),
        call_ensures(ManagementServer::<P>::proxies, (&*final(coming),), kept),
        call_ensures(ProxyStore::<P>::get_proxy, (kept, &id), found),
        *old(going) == *final(coming),
        call_ensures(
            ManagementServer::<P>::step,
            (going, ManagementInput::Event(ProxyEvent::Stopped { id })),
            went,
        ),
        call_ensures(ManagementServer::<P>::proxies, (&*final(going),), left),
        call_ensures(ProxyStore::<P>::get_proxy, (left, &id), gone),
        *old(going_again) == *final(going),
        call_ensures(
            ManagementServer::<P>::step,
            (going_again, ManagementInput::Event(ProxyEvent::Stopped { id })),
            went_again,
        ),
        call_ensures(ProxyStore::<P>::all_proxies, (before,), listed.0),
        call_ensures(ProxyStore::<P>::all_proxies, (kept,), listed.1),
        call_ensures(ProxyStore::<P>::all_proxies, (left,), listed.2),
    ensures
        found == Some(&proxy),
        came.stopped is None,
        came.updates@ == seq![
            MetricsUpdate::IncConnections(ConnectionRole::Server),
            MetricsUpdate::SetCurrentConnections(ConnectionRole::Server, listed.1@.len() as usize),
        ],
        went.stopped == Some(proxy),
        gone is None,
        went_again.stopped is None,
        final(going_again)@ == old(going_again)@,
        went.updates@ == seq![
            MetricsUpdate::SetCurrentConnections(ConnectionRole::Server, listed.2@.len() as usize),
        ],
        listed.1@.len() == listed.2@.len() + 1,
        !before@.contains_key(id) ==> listed.1@.len() == listed.0@.len() + 1,
        before@.contains_key(id) ==> listed.1@.len() == listed.0@.len(),
{
    lemma_listed_count(before@, listed.0@.unref());
    lemma_listed_count(kept@, listed.1@.unref());
    lemma_listed_count(left@, listed.2@.unref());
    assert(kept@.dom() =~= before@.dom().insert(id));
    assert(left@.dom() =~= kept@.dom().remove(id));
    assert(final(going_again)@.proxies =~= old(going_again)@.proxies);
}

/// There are as many places in a list of all allocations as there are allocations.
proof fn lemma_listed_count<P>(proxies: Map<u128, P>, listed: Seq<P>)
    requires
        exists|order: Seq<u128>| #[trigger] is_listing(listed, proxies, order),
    ensures
        listed.len() == proxies.len(),
        proxies.dom().finite(),
{
    let order = choose|order: Seq<u128>| #[trigger] is_listing(listed, proxies, order);
    order.unique_seq_to_set();
    vstd::seq_lib::seq_to_set_is_finite(order);
}

/// When it is time to count, the sum of the players and the sum of the bytes of the assets are shown,
/// and nothing else happens; a game server that could not be connected counts for nothing.
pub proof fn law_sums_are_shown<P>(
    counting: &mut ManagementServer<P>,
    players: Vec<usize>,
    assets_sizes: Vec<usize>,
    counted: ManagementAction<P>,
    players_sum: usize,
    sizes_sum: usize,
    failing: &mut ManagementServer<P>,
    failed: ManagementAction<P>,
)
    requires
        call_ensures(totals::total, (&players,), Some(players_sum)),
        call_ensures(totals::total, (&assets_sizes,), Some(sizes_sum)),
        call_ensures(
            ManagementServer::<P>::step,
            (counting, ManagementInput::<P>::Tick { players, assets_sizes }),
            counted,
        ),
        call_ensures(
            ManagementServer::<P>::step,
            (failing, ManagementInput::<P>::ConnectionFailed),
            failed,
        ),
    ensures
        counted.updates@ == seq![
            MetricsUpdate::SetCurrentConnections(ConnectionRole::Client, players_sum),
            MetricsUpdate::SetCurrentAssetsSizeBytes(sizes_sum),
        ],
        counted.stopped is None,
        final(counting)@ == old(counting)@,
        failed.updates@.len() == 0,
        failed.stopped is None,
        final(failing)@ == old(failing)@,
{
}

/// The players of an allocation are sent to the public host of the proxy and to the port that was
/// bound for them, and its assets are served at the address of the HTTP interface, under its id. The
/// ports that are tried for it are selected from those that are set aside for players. It starts with
/// no endpoint, no players and no assets, and the management starts with no allocations.
pub proof fn law_allocation_follows_settings<P, E, C, N: Clone>(
    settings: Settings,
    management: ManagementServer<P>,
    http_address: String,
    proxy: ProxyServer<E, C, N>,
    id: u128,
    id_text: String,
    allocating: &mut ProxyServer<E, C, N>,
    endpoint: E,
    port: u16,
    external_endpoint: SocketAddress,
    answer: Result<ServerMessage, Error>,
    seed: DefaultHasher,
    tried: Result<Vec<u16>, Error>,
    selected: Vec<u16>,
    nobody: Option<&E>,
    stats: ProxyStats,
    proxies: &ProxyStore<P>,
    any: u128,
    none: Option<&P>,
)
    requires
        call_ensures(ManagementServer::<P>::new, (settings,), management),
        call_ensures(Settings::http_public_addr, (&settings,), http_address),
        call_ensures(ManagementServer::<P>::handle_connection::<E, C, N>, (&management,), proxy),
        call_ensures(ProxyServer::<E, C, N>::id, (&proxy,), id),
        call_ensures(ids::allocation_id_text, (id,), id_text),
        *old(allocating) == proxy,
        call_ensures(
            ProxyServer::<E, C, N>::handle_allocate_message,
            (allocating, Bound::Endpoint(endpoint, Some(port)), external_endpoint),
            answer,
        ),
        call_ensures(ProxyServer::<E, C, N>::ports_to_try, (&proxy, seed), tried),
        call_ensures(
            ports::candidate_ports,
            (settings.proxy_port_first, settings.proxy_port_last, seed),
            selected,
        ),
        call_ensures(ProxyServer::<E, C, N>::accept_connection, (&proxy,), nobody),
        call_ensures(ProxyServer::<E, C, N>::stats, (&proxy,), stats),
        call_ensures(ManagementServer::<P>::proxies, (&management,), proxies),
        call_ensures(ProxyStore::<P>::get_proxy, (proxies, &any), none),
    ensures
        match answer {
            Ok(
                ServerMessage::Allocation {
                    id: told,
                    allocated_endpoint,
                    assets_root,
                    external_endpoint: external,
                },
            ) => {
                &&& told == id
                &&& text::is_address_of(allocated_endpoint@, settings.public_host_name@, port)
                &&& assets_root@ == "http://"@ + http_address@ + "/content/"@ + id_text@ + "/"@
                &&& external@ == external_endpoint@
            },
            _ => false,
        },
        tried matches Ok(tried) && tried@ == selected@,
        nobody is None,
        stats.players_count == 0,
        stats.total_assets_count == 0,
        stats.total_assets_size == 0,
        none is None,
{
    text::lemma_address(settings.public_host_name@, port);
    asset_store::lemma_nothing_held::<N>();
    if let Ok(tried) = tried {
        assert(tried@ =~= selected@);
    }
}

} // verus!
