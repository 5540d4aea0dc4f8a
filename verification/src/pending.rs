//! Streams and datagrams that came in for a player and wait to be accepted.
use std::collections::VecDeque;

use vstd::prelude::*;

use crate::table::Table;

verus! {

/// Resources in the order in which they came in, and what wakes the one who waits for the next.
#[derive(Debug)]
pub struct QueuedResource<T, N> {
    queue: VecDeque<T>,
    notify: N,
}

/// What a queue holds: the resources, first in first, and the notifier.
pub struct QueuedView<T, N> {
    pub queue: Seq<T>,
    pub notify: N,
}

impl<T, N> View for QueuedResource<T, N> {
    type V = QueuedView<T, N>;

    closed spec fn view(&self) -> QueuedView<T, N> {
        QueuedView { queue: self.queue@, notify: self.notify }
    }
}

impl<T, N: Clone> QueuedResource<T, N> {
    /// A queue that holds nothing.
    pub fn new(notify: N) -> (res: Self)
        ensures
            res@ == (QueuedView::<T, N> { queue: Seq::empty(), notify }),
    {
        QueuedResource { queue: VecDeque::new(), notify }
    }

    /// Puts a resource at the end of the queue. Whoever waits on the returned notifier is to be
    /// woken.
    pub fn push(&mut self, value: T) -> (res: N)
        ensures
            final(self)@ == (QueuedView { queue: old(self)@.queue.push(value), ..old(self)@ }),
            cloned(old(self)@.notify, res),
    {
        self.queue.push_back(value);
        self.notify.clone()
    }

    /// Takes the resource at the front of the queue.
    pub fn pop(&mut self) -> (res: Option<T>)
        ensures
            match res {
                Some(value) => old(self)@.queue.len() > 0 && value == old(self)@.queue[0]
                    && final(self)@ == (QueuedView {
                    queue: old(self)@.queue.drop_first(),
                    ..old(self)@
                }),
                None => old(self)@.queue.len() == 0 && final(self)@ == old(self)@,
            },
    {
        let res = self.queue.pop_front();
        assert(res is Some ==> self.queue@ =~= old(self).queue@.drop_first());
        res
    }

    /// The notifier on which to wait for the next resource.
    pub fn notifier(&self) -> (res: N)
        ensures
            cloned(self@.notify, res),
    {
        self.notify.clone()
    }
}

/// What a player's queue is, if it was made with `fresh` where there was none.
pub open spec fn queue_of<T, N>(
    queues: Map<Seq<char>, QueuedView<T, N>>,
    player_id: Seq<char>,
    fresh: N,
) -> QueuedView<T, N> {
    if queues.contains_key(player_id) {
        queues[player_id]
    } else {
        QueuedView { queue: Seq::empty(), notify: fresh }
    }
}

/// The queues after a resource came in for a player.
pub open spec fn after_push<T, N>(
    queues: Map<Seq<char>, QueuedView<T, N>>,
    player_id: Seq<char>,
    value: T,
    fresh: N,
) -> Map<Seq<char>, QueuedView<T, N>> {
    let before = queue_of(queues, player_id, fresh);
    queues.insert(player_id, QueuedView { queue: before.queue.push(value), ..before })
}

/// The queues after a player's next resource was asked for.
pub open spec fn after_take<T, N>(
    queues: Map<Seq<char>, QueuedView<T, N>>,
    player_id: Seq<char>,
    fresh: N,
) -> Map<Seq<char>, QueuedView<T, N>> {
    let before = queue_of(queues, player_id, fresh);
    if before.queue.len() > 0 {
        queues.insert(player_id, QueuedView { queue: before.queue.drop_first(), ..before })
    } else {
        queues.insert(player_id, before)
    }
}

/// What there is for the one who asks for a resource.
#[derive(Debug)]
pub enum Taken<T, N> {
    /// The resource.
    Ready(T),
    /// Nothing yet: ask again when this wakes.
    Wait(N),
}

/// What a queue has for the one who asks: its first resource, or its notifier where it is empty.
pub open spec fn is_taken<T, N: Clone>(taken: Taken<T, N>, queue: QueuedView<T, N>) -> bool {
    match taken {
        Taken::Ready(value) => queue.queue.len() > 0 && value == queue.queue[0],
        Taken::Wait(notify) => queue.queue.len() == 0 && cloned(queue.notify, notify),
    }
}

/// The queues of one kind of resource, by player.
pub struct PendingQueues<T, N> {
    queues: Table<QueuedResource<T, N>>,
}

impl<T, N> View for PendingQueues<T, N> {
    type V = Map<Seq<char>, QueuedView<T, N>>;

    closed spec fn view(&self) -> Map<Seq<char>, QueuedView<T, N>> {
        self.queues@.map_values(|queue: QueuedResource<T, N>| queue@)
    }
}

impl<T, N: Clone> PendingQueues<T, N> {
    /// The table of queues is well formed.
    pub closed spec fn well_formed(&self) -> bool {
        self.queues.well_formed()
    }

    /// No queue for anyone.
    pub fn new() -> (res: Self)
        ensures
            res.well_formed(),
            res@ == Map::<Seq<char>, QueuedView<T, N>>::empty(),
    {
        let res = PendingQueues { queues: Table::new() };
        assert(res@ =~= Map::<Seq<char>, QueuedView<T, N>>::empty());
        res
    }

    /// Takes in a resource for a player. Whoever waits on the returned notifier is to be woken; a
    /// player without a queue gets one with the notifier `fresh`.
    pub fn push(&mut self, player_id: &str, value: T, fresh: N) -> (res: N)
        requires
            old(self).well_formed(),
        ensures
            final(self).well_formed(),
            final(self)@ == after_push(old(self)@, player_id@, value, fresh),
            cloned(queue_of(old(self)@, player_id@, fresh).notify, res),
    {
        let queue = self.queues.entry(player_id, QueuedResource::new(fresh));
        let res = queue.push(value);
        assert(self@ =~= after_push(old(self)@, player_id@, value, fresh));
        res
    }

    /// Takes the next resource of a player, or says what to wait for. A player without a queue gets
    /// one with the notifier `fresh`.
    pub fn take(&mut self, player_id: &str, fresh: N) -> (res: Taken<T, N>)
        requires
            old(self).well_formed(),
        ensures
            final(self).well_formed(),
            final(self)@ == after_take(old(self)@, player_id@, fresh),
            is_taken(res, queue_of(old(self)@, player_id@, fresh)),
    {
        let queue = self.queues.entry(player_id, QueuedResource::new(fresh));
        let res = match queue.pop() {
            Some(value) => Taken::Ready(value),
            None => Taken::Wait(queue.notifier()),
        };
        assert(self@ =~= after_take(old(self)@, player_id@, fresh));
        res
    }
}

/// Something that happens to the queues.
pub enum QueueEvent<T, N> {
    Push { player_id: Seq<char>, value: T, fresh: N },
    Take { player_id: Seq<char>, fresh: N },
}

/// The queues after a series of events.
pub open spec fn after_events<T, N>(
    queues: Map<Seq<char>, QueuedView<T, N>>,
    events: Seq<QueueEvent<T, N>>,
) -> Map<Seq<char>, QueuedView<T, N>>
    decreases events.len(),
{
    if events.len() == 0 {
        queues
    } else {
        let before = after_events(queues, events.drop_last());
        match events.last() {
            QueueEvent::Push { player_id, value, fresh } => after_push(
                before,
                player_id,
                value,
                fresh,
            ),
            QueueEvent::Take { player_id, fresh } => after_take(before, player_id, fresh),
        }
    }
}

/// The resources that came in for a player in a series of events.
pub open spec fn pushed<T, N>(events: Seq<QueueEvent<T, N>>, player: Seq<char>) -> Seq<T>
    decreases events.len(),
{
    if events.len() == 0 {
        Seq::empty()
    } else {
        let before = pushed(events.drop_last(), player);
        match events.last() {
            QueueEvent::Push { player_id, value, fresh } => if player_id == player {
                before.push(value)
            } else {
                before
            },
            QueueEvent::Take { player_id, fresh } => before,
        }
    }
}

/// The resources that a player's requests got in a series of events on queues that start empty.
pub open spec fn taken<T, N>(events: Seq<QueueEvent<T, N>>, player: Seq<char>) -> Seq<T>
    decreases events.len(),
{
    if events.len() == 0 {
        Seq::empty()
    } else {
        let before = taken(events.drop_last(), player);
        match events.last() {
            QueueEvent::Push { player_id, value, fresh } => before,
            QueueEvent::Take { player_id, fresh } => {
                let queue = queue_of(
                    after_events(Map::empty(), events.drop_last()),
                    player_id,
                    fresh,
                ).queue;
                if player_id == player && queue.len() > 0 {
                    before.push(queue[0])
                } else {
                    before
                }
            },
        }
    }
}

/// Whatever happens, and in whatever order: what came in for a player is what was handed to that
/// player so far, followed by what still waits. So nothing is lost, handed out twice, reordered, or
/// handed to another player.
pub proof fn law_first_in_first_out<T, N>(events: Seq<QueueEvent<T, N>>, player: Seq<char>, fresh: N)
    ensures
        pushed(events, player) == taken(events, player) + queue_of(
            after_events(Map::empty(), events),
            player,
            fresh,
        ).queue,
    decreases events.len(),
{
    let none = Map::<Seq<char>, QueuedView<T, N>>::empty();
    if events.len() > 0 {
        let earlier = events.drop_last();
        law_first_in_first_out(earlier, player, fresh);
        let before = after_events(none, earlier);
        let waiting = queue_of(before, player, fresh).queue;
        match events.last() {
            QueueEvent::Push { player_id, value, fresh: other } => {
                if player_id == player {
                    assert(pushed(events, player) =~= taken(events, player) + waiting.push(value));
                }
            },
            QueueEvent::Take { player_id, fresh: other } => {
                if player_id == player && waiting.len() > 0 {
                    assert(pushed(events, player) =~= taken(events, player)
                        + waiting.drop_first());
                }
            },
        }
    } else {
        assert(pushed(events, player) =~= taken(events, player) + queue_of(none, player, fresh).queue);
    }
}

/// What waits for the players: streams in one direction, streams in both directions, and datagrams.
pub struct PendingResources<U, B, D, N> {
    pub uni_streams: PendingQueues<U, N>,
    pub bi_streams: PendingQueues<B, N>,
    pub datagrams: PendingQueues<D, N>,
}

impl<U, B, D, N: Clone> PendingResources<U, B, D, N> {
    /// The queues are well formed.
    pub open spec fn well_formed(&self) -> bool {
        self.uni_streams.well_formed() && self.bi_streams.well_formed()
            && self.datagrams.well_formed()
    }

    /// Nothing waits for anyone.
    pub fn new() -> (res: Self)
        ensures
            res.well_formed(),
            res.uni_streams@ == Map::<Seq<char>, QueuedView<U, N>>::empty(),
            res.bi_streams@ == Map::<Seq<char>, QueuedView<B, N>>::empty(),
            res.datagrams@ == Map::<Seq<char>, QueuedView<D, N>>::empty(),
    {
        PendingResources {
            uni_streams: PendingQueues::new(),
            bi_streams: PendingQueues::new(),
            datagrams: PendingQueues::new(),
        }
    }
}

/// Where nothing waits for a player, what comes in is handed over next, and then nothing waits
/// again. Whoever was told to wait is woken: the two notifiers are clones of the same.
pub proof fn law_waiting_player_gets_what_comes_in<T, N: Clone>(
    asking: &mut PendingQueues<T, N>,
    player_id: &str,
    fresh: N,
    notify: N,
    pushing: &mut PendingQueues<T, N>,
    value: T,
    woken: N,
    next: &mut PendingQueues<T, N>,
    handed: Taken<T, N>,
    last: &mut PendingQueues<T, N>,
    left: Taken<T, N>,
)
    requires
        call_ensures(
            PendingQueues::<T, N>::take,
            (asking, player_id, fresh),
            Taken::<T, N>::Wait(notify),
        ),
        *old(pushing) == *final(asking),
        call_ensures(PendingQueues::<T, N>::push, (pushing, player_id, value, fresh), woken),
        *old(next) == *final(pushing),
        call_ensures(PendingQueues::<T, N>::take, (next, player_id, fresh), handed),
        *old(last) == *final(next),
        call_ensures(PendingQueues::<T, N>::take, (last, player_id, fresh), left),
    ensures
        exists|origin: N| #[trigger] cloned(origin, notify) && cloned(origin, woken),
        handed == Taken::<T, N>::Ready(value),
        left is Wait,
{
    let origin = queue_of(old(asking)@, player_id@, fresh).notify;
    assert(cloned(origin, notify) && cloned(origin, woken));
}

/// What came in first is handed over first: where something waits for a player, it is handed over
/// whether or not more came in, and then the same waits as if more had come in after that.
pub proof fn law_older_first<T, N: Clone>(
    asking: &mut PendingQueues<T, N>,
    player_id: &str,
    fresh: N,
    waiting: T,
    pushing_later: &mut PendingQueues<T, N>,
    pushing_first: &mut PendingQueues<T, N>,
    value: T,
    woken: N,
    woken_first: N,
    asking_later: &mut PendingQueues<T, N>,
    handed: Taken<T, N>,
)
    requires
        call_ensures(
            PendingQueues::<T, N>::take,
            (asking, player_id, fresh),
            Taken::<T, N>::Ready(waiting),
        ),
        *old(pushing_later) == *final(asking),
        call_ensures(PendingQueues::<T, N>::push, (pushing_later, player_id, value, fresh), woken),
        *old(pushing_first) == *old(asking),
        call_ensures(
            PendingQueues::<T, N>::push,
            (pushing_first, player_id, value, fresh),
            woken_first,
        ),
        *old(asking_later) == *final(pushing_first),
        call_ensures(PendingQueues::<T, N>::take, (asking_later, player_id, fresh), handed),
    ensures
        handed == Taken::<T, N>::Ready(waiting),
        final(asking_later)@ == final(pushing_later)@,
{
    let queue = old(asking)@[player_id@].queue;
    assert(queue.push(value).drop_first() =~= queue.drop_first().push(value));
    assert(final(asking_later)@ =~= final(pushing_later)@);
}

/// What comes in for one player is not handed to another, nor does it keep anything from another.
pub proof fn law_players_are_told_apart<T, N: Clone>(
    pushing: &mut PendingQueues<T, N>,
    player_id: &str,
    value: T,
    fresh: N,
    woken: N,
    other: &str,
    asking: &mut PendingQueues<T, N>,
    handed: Taken<T, N>,
    asking_later: &mut PendingQueues<T, N>,
    handed_later: Taken<T, N>,
)
    requires
        call_ensures(PendingQueues::<T, N>::push, (pushing, player_id, value, fresh), woken),
        other@ != player_id@,
        *old(asking) == *old(pushing),
        call_ensures(PendingQueues::<T, N>::take, (asking, other, fresh), handed),
        *old(asking_later) == *final(pushing),
        call_ensures(PendingQueues::<T, N>::take, (asking_later, other, fresh), handed_later),
    ensures
        match (handed, handed_later) {
            (Taken::Ready(first), Taken::Ready(second)) => first == second,
            (Taken::Wait(_), Taken::Wait(_)) => true,
            _ => false,
        },
{
}

} // verus!
