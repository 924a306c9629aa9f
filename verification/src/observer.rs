//! The observer's side: a copy of the hub's state, kept in step by the state
//! changes that the hub broadcasts.

use std::collections::HashMap;
use vstd::prelude::*;
use vstd::std_specs::hash::*;

use crate::color::Color;
use crate::control::{Effect, Hub};
use crate::message::{
    Command, ControlMessage, Event, PaletteStateChange, StateChange, Subscriber, SubscriberConfig,
    SubscriberId, SubscriberStateChange,
};
use crate::subscriber::other_than;

verus! {

/// What an observer knows of the hub: the palette, and the subscribers by the
/// number of their identifier.
pub struct Mirror {
    pub palette: Seq<Color>,
    pub subscribers: Map<u64, SubscriberConfig>,
}

/// The subscribers of a registry, each under the number of its identifier.
pub open spec fn directory(subs: Seq<Subscriber>) -> Map<u64, SubscriberConfig>
    decreases subs.len(),
{
    if subs.len() == 0 {
        Map::empty()
    } else {
        directory(subs.drop_last()).insert(subs.last().id.0, subs.last().cfg)
    }
}

/// The state changes among `effects`, in their order: what an observer
/// receives.
pub open spec fn broadcasts(effects: Seq<Effect>) -> Seq<Event>
    decreases effects.len(),
{
    if effects.len() == 0 {
        Seq::empty()
    } else {
        match effects.last() {
            Effect::Broadcast(event) => broadcasts(effects.drop_last()).push(event),
            Effect::Push(_) => broadcasts(effects.drop_last()),
        }
    }
}

impl Mirror {
    /// What an observer knows before it has received anything.
    pub open spec fn empty() -> Mirror {
        Mirror { palette: Seq::empty(), subscribers: Map::empty() }
    }

    /// The mirror after one state change.
    pub open spec fn apply(self, event: Event) -> Mirror {
        match event {
            Event::PaletteSet(colors) => Mirror { palette: colors, subscribers: self.subscribers },
            Event::SubscriberAdded(sub) => Mirror {
                palette: self.palette,
                subscribers: self.subscribers.insert(sub.id.0, sub.cfg),
            },
            Event::SubscriberRemoved(id) => Mirror {
                palette: self.palette,
                subscribers: self.subscribers.remove(id.0),
            },
        }
    }

    /// The mirror after the state changes of `events`, in order.
    pub open spec fn apply_all(self, events: Seq<Event>) -> Mirror
        decreases events.len(),
    {
        if events.len() == 0 {
            self
        } else {
            self.apply_all(events.drop_last()).apply(events.last())
        }
    }

    /// Whether the mirror shows the state of `hub`: the same palette, and the
    /// same subscribers.
    pub open spec fn shows(self, hub: Hub) -> bool {
        &&& self.palette == hub.palette
        &&& self.subscribers == directory(hub.registry.subs)
    }
}

/// A message for the observer's state: a state change that came from the hub,
/// or a control message that is to go to the hub.
#[derive(Debug, Clone, PartialEq, Eq)]
pub enum Msg {
    HandleStateChange(StateChange),
    Send(ControlMessage),
}

/// What is to be done after a message was handled.
#[derive(Debug, Clone, PartialEq, Eq)]
pub struct Update {
    /// Whether what is shown has to be drawn again.
    pub render: bool,
    /// The control message to send to the hub, if any.
    pub send: Option<ControlMessage>,
}

/// The state of an observer that shows the palette.
pub struct App {
    palette: Vec<Color>,
    subscribers: HashMap<u64, SubscriberConfig>,
}

impl View for App {
    type V = Mirror;

    closed spec fn view(&self) -> Mirror {
        Mirror { palette: self.palette@, subscribers: self.subscribers@ }
    }
}

impl App {
    /// An observer that knows nothing yet, and the request for the current
    /// state that it sends first.
    pub fn create() -> (start: (App, ControlMessage))
        ensures
            start.0@ == Mirror::empty(),
            start.1@ == Command::Refresh,
    {
        (App { palette: Vec::new(), subscribers: HashMap::new() }, ControlMessage::Refresh)
    }

    /// The palette as far as known.
    pub fn palette(&self) -> (palette: &Vec<Color>)
        ensures
            palette@ == self@.palette,
    {
        &self.palette
    }

    /// The configuration of the subscriber with identifier `id`, as far as
    /// known.
    pub fn subscriber(&self, id: SubscriberId) -> (cfg: Option<SubscriberConfig>)
        ensures
            cfg == if self@.subscribers.contains_key(id.0) {
                Some(self@.subscribers[id.0])
            } else {
                None
            },
    {
        broadcast use group_hash_axioms;

        match self.subscribers.get(&id.0) {
            Some(cfg) => Some(*cfg),
            None => None,
        }
    }

    /// The number of subscribers known.
    pub fn subscriber_count(&self) -> (n: usize)
        ensures
            n == self@.subscribers.len(),
    {
        broadcast use group_hash_axioms;

        self.subscribers.len()
    }

    /// Handles one message. A state change is taken into the mirror, and what
    /// is shown has to be drawn again. A control message is handed back for
    /// sending, and nothing changes.
    pub fn update(&mut self, msg: Msg) -> (update: Update)
        ensures
            match msg {
                Msg::HandleStateChange(change) => {
                    &&& final(self)@ == old(self)@.apply(change@)
                    &&& update.render
                    &&& update.send is None
                },
                Msg::Send(out) => {
                    &&& final(self)@ == old(self)@
                    &&& !update.render
                    &&& update.send == Some(out)
                },
            },
    {
        broadcast use group_hash_axioms;

        match msg {
            Msg::HandleStateChange(change) => {
                match change {
                    StateChange::Palette(PaletteStateChange::Replaced(colors)) => {
                        self.palette = colors;
                    },
                    StateChange::Subscriber(SubscriberStateChange::Added(sub)) => {
                        self.subscribers.insert(sub.id.0, sub.cfg);
                    },
                    StateChange::Subscriber(SubscriberStateChange::Removed(id)) => {
                        self.subscribers.remove(&id.0);
                    },
                }
                Update { render: true, send: None }
            },
            Msg::Send(out) => Update { render: false, send: Some(out) },
        }
    }
}

/// The state changes of two rows of effects are those of the first and then
/// those of the second.
pub proof fn lemma_broadcasts_add(a: Seq<Effect>, b: Seq<Effect>)
    ensures
        broadcasts(a + b) == broadcasts(a) + broadcasts(b),
    decreases b.len(),
{
    if b.len() == 0 {
        assert(a + b =~= a);
        assert(broadcasts(a) + broadcasts(b) =~= broadcasts(a));
    } else {
        lemma_broadcasts_add(a, b.drop_last());
        assert((a + b).drop_last() =~= a + b.drop_last());
        assert((a + b).last() == b.last());
        match b.last() {
            Effect::Broadcast(event) => {
                assert(broadcasts(a) + broadcasts(b.drop_last()).push(event) =~= (broadcasts(a)
                    + broadcasts(b.drop_last())).push(event));
            },
            Effect::Push(_) => {},
        }
    }
}

/// Applying two rows of state changes is applying the first and then the
/// second.
pub proof fn lemma_apply_all_add(mirror: Mirror, a: Seq<Event>, b: Seq<Event>)
    ensures
        mirror.apply_all(a + b) == mirror.apply_all(a).apply_all(b),
    decreases b.len(),
{
    if b.len() == 0 {
        assert(a + b =~= a);
    } else {
        lemma_apply_all_add(mirror, a, b.drop_last());
        assert((a + b).drop_last() =~= a + b.drop_last());
        assert((a + b).last() == b.last());
    }
}

/// Applying one state change.
pub proof fn lemma_apply_one(mirror: Mirror, event: Event)
    ensures
        mirror.apply_all(seq![event]) == mirror.apply(event),
{
    assert(seq![event].drop_last() =~= Seq::<Event>::empty());
    assert(mirror.apply_all(Seq::<Event>::empty()) == mirror);
}

/// The one state change of a push and a broadcast.
pub proof fn lemma_broadcasts_of_pair(effects: Seq<Effect>, event: Event)
    requires
        effects.len() == 2,
        effects[0] is Push,
        effects[1] == Effect::Broadcast(event),
    ensures
        broadcasts(effects) == seq![event],
{
    let front = effects.drop_last();
    assert(front.drop_last() =~= Seq::<Effect>::empty());
    assert(broadcasts(Seq::<Effect>::empty()) =~= Seq::<Event>::empty());
    assert(broadcasts(front) =~= Seq::<Event>::empty());
    assert(broadcasts(effects) =~= seq![event]);
}

/// Removing from a registry removes from its directory.
pub proof fn lemma_directory_of_filter(subs: Seq<Subscriber>, id: SubscriberId)
    ensures
        directory(subs.filter(other_than(id))) == directory(subs).remove(id.0),
    decreases subs.len(),
{
    reveal(Seq::filter);
    if subs.len() == 0 {
        assert(directory(subs).remove(id.0) =~= directory(subs));
    } else {
        let front = subs.drop_last();
        let last = subs.last();
        lemma_directory_of_filter(front, id);
        let kept = front.filter(other_than(id));
        if last.id == id {
            assert(directory(subs).remove(id.0) =~= directory(front).remove(id.0));
        } else {
            assert(kept.push(last).drop_last() =~= kept);
            assert(directory(kept.push(last)) =~= directory(subs).remove(id.0));
        }
    }
}

/// Replaying a registry puts each of its subscribers into the mirror, over
/// what the mirror held under the same number.
pub proof fn lemma_replay(mirror: Mirror, subs: Seq<Subscriber>)
    ensures
        mirror.apply_all(subs.map_values(|sub: Subscriber| Event::SubscriberAdded(sub))).palette
            == mirror.palette,
        mirror.apply_all(
            subs.map_values(|sub: Subscriber| Event::SubscriberAdded(sub)),
        ).subscribers == mirror.subscribers.union_prefer_right(directory(subs)),
    decreases subs.len(),
{
    let events = subs.map_values(|sub: Subscriber| Event::SubscriberAdded(sub));
    if subs.len() == 0 {
        assert(mirror.subscribers.union_prefer_right(directory(subs)) =~= mirror.subscribers);
    } else {
        let front = subs.drop_last();
        lemma_replay(mirror, front);
        assert(events.drop_last() =~= front.map_values(
            |sub: Subscriber| Event::SubscriberAdded(sub),
        ));
        assert(events.last() == Event::SubscriberAdded(subs.last()));
        assert(mirror.subscribers.union_prefer_right(directory(front)).insert(
            subs.last().id.0,
            subs.last().cfg,
        ) =~= mirror.subscribers.union_prefer_right(directory(subs)));
    }
}

/// What a refresh broadcasts: the palette, and then each subscriber.
pub proof fn lemma_broadcasts_of_refresh(hub: Hub)
    ensures
        broadcasts(hub.effects(Command::Refresh)) == seq![Event::PaletteSet(hub.palette)]
            + hub.registry.subs.map_values(|sub: Subscriber| Event::SubscriberAdded(sub)),
{
    let head = seq![Effect::Broadcast(Event::PaletteSet(hub.palette))];
    let tail = hub.registry.subs.map_values(|sub| Effect::Broadcast(Event::SubscriberAdded(sub)));
    lemma_broadcasts_add(head, tail);
    assert(head.drop_last() =~= Seq::<Effect>::empty());
    assert(broadcasts(Seq::<Effect>::empty()) =~= Seq::<Event>::empty());
    assert(broadcasts(head) =~= seq![Event::PaletteSet(hub.palette)]);
    lemma_broadcasts_of_all(hub.registry.subs);
}

/// The state changes of a row of broadcasts are all of them.
pub proof fn lemma_broadcasts_of_all(subs: Seq<Subscriber>)
    ensures
        broadcasts(subs.map_values(|sub| Effect::Broadcast(Event::SubscriberAdded(sub))))
            == subs.map_values(|sub: Subscriber| Event::SubscriberAdded(sub)),
    decreases subs.len(),
{
    let effects = subs.map_values(|sub| Effect::Broadcast(Event::SubscriberAdded(sub)));
    let events = subs.map_values(|sub: Subscriber| Event::SubscriberAdded(sub));
    if subs.len() == 0 {
        assert(broadcasts(effects) =~= events);
    } else {
        lemma_broadcasts_of_all(subs.drop_last());
        assert(effects.drop_last() =~= subs.drop_last().map_values(
            |sub| Effect::Broadcast(Event::SubscriberAdded(sub)),
        ));
        assert(events.drop_last() =~= subs.drop_last().map_values(
            |sub: Subscriber| Event::SubscriberAdded(sub),
        ));
        assert(broadcasts(effects) =~= events);
    }
}

/// An observer that starts with nothing and receives what a refresh
/// broadcasts then shows the state of the hub.
pub proof fn lemma_refresh_fills(hub: Hub)
    ensures
        Mirror::empty().apply_all(broadcasts(hub.effects(Command::Refresh))).shows(hub),
{
    lemma_refresh_shows(Mirror::empty(), hub);
}

/// After what a refresh broadcasts, an observer shows the palette of the hub
/// and all of its subscribers, whatever it showed before. It shows no other
/// subscriber if it showed none before.
pub proof fn lemma_refresh_shows(mirror: Mirror, hub: Hub)
    ensures
        mirror.apply_all(broadcasts(hub.effects(Command::Refresh))).palette == hub.palette,
        mirror.apply_all(broadcasts(hub.effects(Command::Refresh))).subscribers
            == mirror.subscribers.union_prefer_right(directory(hub.registry.subs)),
        mirror.subscribers.submap_of(directory(hub.registry.subs)) ==> mirror.apply_all(
            broadcasts(hub.effects(Command::Refresh)),
        ).shows(hub),
{
    let head = seq![Event::PaletteSet(hub.palette)];
    let tail = hub.registry.subs.map_values(|sub: Subscriber| Event::SubscriberAdded(sub));
    lemma_broadcasts_of_refresh(hub);
    lemma_apply_all_add(mirror, head, tail);
    lemma_apply_one(mirror, Event::PaletteSet(hub.palette));
    lemma_replay(mirror.apply(Event::PaletteSet(hub.palette)), hub.registry.subs);
    if mirror.subscribers.submap_of(directory(hub.registry.subs)) {
        assert(mirror.subscribers.union_prefer_right(directory(hub.registry.subs)) =~= directory(
            hub.registry.subs,
        ));
    }
}

/// An observer that shows the state of the hub still shows it after a
/// command, once it has received what the command made the hub broadcast.
pub proof fn lemma_mirror_follows(mirror: Mirror, hub: Hub, command: Command)
    requires
        mirror.shows(hub),
    ensures
        mirror.apply_all(broadcasts(hub.effects(command))).shows(hub.next(command)),
{
    match command {
        Command::Refresh => {
            lemma_refresh_shows(mirror, hub);
        },
        Command::SetPalette(colors) => {
            lemma_broadcasts_of_pair(hub.effects(command), Event::PaletteSet(colors));
            lemma_apply_one(mirror, Event::PaletteSet(colors));
        },
        Command::AddSubscriber(cfg) => {
            let sub = hub.registry.newcomer(cfg);
            lemma_broadcasts_of_pair(hub.effects(command), Event::SubscriberAdded(sub));
            lemma_apply_one(mirror, Event::SubscriberAdded(sub));
            assert(hub.registry.subs.push(sub).drop_last() =~= hub.registry.subs);
        },
        Command::RemoveSubscriber(id) => {
            let effects = hub.effects(command);
            assert(effects.drop_last() =~= Seq::<Effect>::empty());
            assert(broadcasts(Seq::<Effect>::empty()) =~= Seq::<Event>::empty());
            assert(broadcasts(effects) =~= seq![Event::SubscriberRemoved(id)]);
            lemma_apply_one(mirror, Event::SubscriberRemoved(id));
            lemma_directory_of_filter(hub.registry.subs, id);
        },
    }
}

/// An observer that shows the state of the hub still shows it after any queue
/// of commands, once it has received all that the hub broadcast on the way.
pub proof fn lemma_mirror_follows_queue(mirror: Mirror, hub: Hub, queue: Seq<Command>)
    requires
        mirror.shows(hub),
    ensures
        mirror.apply_all(broadcasts(hub.trace(queue))).shows(hub.after(queue)),
    decreases queue.len(),
{
    if queue.len() == 0 {
        assert(broadcasts(Seq::<Effect>::empty()) =~= Seq::<Event>::empty());
        assert(mirror.apply_all(Seq::<Event>::empty()) == mirror);
    } else {
        let front = queue.drop_last();
        let before = hub.after(front);
        lemma_mirror_follows_queue(mirror, hub, front);
        lemma_broadcasts_add(hub.trace(front), before.effects(queue.last()));
        lemma_apply_all_add(
            mirror,
            broadcasts(hub.trace(front)),
            broadcasts(before.effects(queue.last())),
        );
        lemma_mirror_follows(
            mirror.apply_all(broadcasts(hub.trace(front))),
            before,
            queue.last(),
        );
    }
}

/// Every command makes the hub broadcast at least one state change.
pub proof fn lemma_every_command_is_broadcast(hub: Hub, command: Command)
    ensures
        broadcasts(hub.effects(command)).len() >= 1,
{
    match command {
        Command::Refresh => {
            lemma_broadcasts_of_refresh(hub);
        },
        Command::SetPalette(colors) => {
            lemma_broadcasts_of_pair(hub.effects(command), Event::PaletteSet(colors));
        },
        Command::AddSubscriber(cfg) => {
            lemma_broadcasts_of_pair(
                hub.effects(command),
                Event::SubscriberAdded(hub.registry.newcomer(cfg)),
            );
        },
        Command::RemoveSubscriber(id) => {
            let effects = hub.effects(command);
            assert(effects.drop_last() =~= Seq::<Effect>::empty());
            assert(broadcasts(Seq::<Effect>::empty()) =~= Seq::<Event>::empty());
            assert(broadcasts(effects) =~= seq![Event::SubscriberRemoved(id)]);
        },
    }
}

/// The number of state changes that the hub has broadcast when the turn of
/// command `k` of `queue` comes.
pub open spec fn received_before(hub: Hub, queue: Seq<Command>, k: int) -> int {
    broadcasts(hub.trace(queue.take(k))).len() as int
}

/// What an observer has received after a part of the queue is the start of
/// what it has received after a longer part.
pub proof fn lemma_received_extends(hub: Hub, queue: Seq<Command>, i: int, j: int)
    requires
        0 <= i <= j <= queue.len(),
    ensures
        received_before(hub, queue, i) <= received_before(hub, queue, j),
        broadcasts(hub.trace(queue.take(j))).take(received_before(hub, queue, i)) == broadcasts(
            hub.trace(queue.take(i)),
        ),
    decreases j - i,
{
    if i == j {
        assert(broadcasts(hub.trace(queue.take(j))).take(received_before(hub, queue, i))
            =~= broadcasts(hub.trace(queue.take(i))));
    } else {
        lemma_received_extends(hub, queue, i, j - 1);
        crate::history::lemma_step(hub, queue, j - 1);
        lemma_broadcasts_add(
            hub.trace(queue.take(j - 1)),
            hub.after(queue.take(j - 1)).effects(queue[j - 1]),
        );
        assert(broadcasts(hub.trace(queue.take(j))).take(received_before(hub, queue, i))
            =~= broadcasts(hub.trace(queue.take(j - 1))).take(received_before(hub, queue, i)));
    }
}

/// Among all that an observer receives over a queue, the state changes of
/// command `k` stand together, in the order the hub gave them, and there is at
/// least one.
pub proof fn lemma_received_together(hub: Hub, queue: Seq<Command>, k: int)
    requires
        0 <= k < queue.len(),
    ensures
        0 <= received_before(hub, queue, k) < received_before(hub, queue, k + 1) <= broadcasts(
            hub.trace(queue),
        ).len(),
        broadcasts(hub.trace(queue)).subrange(
            received_before(hub, queue, k),
            received_before(hub, queue, k + 1),
        ) == broadcasts(hub.after(queue.take(k)).effects(queue[k])),
{
    assert(queue.take(queue.len() as int) =~= queue);
    let block = broadcasts(hub.after(queue.take(k)).effects(queue[k]));
    let upto = broadcasts(hub.trace(queue.take(k + 1)));
    let whole = broadcasts(hub.trace(queue));
    crate::history::lemma_step(hub, queue, k);
    lemma_broadcasts_add(hub.trace(queue.take(k)), hub.after(queue.take(k)).effects(queue[k]));
    lemma_every_command_is_broadcast(hub.after(queue.take(k)), queue[k]);
    lemma_received_extends(hub, queue, k + 1, queue.len() as int);
    assert(whole.take(received_before(hub, queue, k + 1)) == upto);
    assert(whole.subrange(received_before(hub, queue, k), received_before(hub, queue, k + 1))
        =~= upto.subrange(received_before(hub, queue, k), received_before(hub, queue, k + 1)));
    assert(upto.subrange(received_before(hub, queue, k), received_before(hub, queue, k + 1))
        =~= block);
}

/// An observer receives the state changes of an earlier command before those
/// of a later one: where command `i` stands before command `j` in the queue,
/// all that the hub broadcasts for `i` comes, in what the observer receives,
/// before all that it broadcasts for `j`.
pub proof fn lemma_received_in_order(hub: Hub, queue: Seq<Command>, i: int, j: int)
    requires
        0 <= i < j < queue.len(),
    ensures
        0 <= received_before(hub, queue, i) < received_before(hub, queue, i + 1)
            <= received_before(hub, queue, j) < received_before(hub, queue, j + 1) <= broadcasts(
            hub.trace(queue),
        ).len(),
        broadcasts(hub.trace(queue)).subrange(
            received_before(hub, queue, i),
            received_before(hub, queue, i + 1),
        ) == broadcasts(hub.after(queue.take(i)).effects(queue[i])),
        broadcasts(hub.trace(queue)).subrange(
            received_before(hub, queue, j),
            received_before(hub, queue, j + 1),
        ) == broadcasts(hub.after(queue.take(j)).effects(queue[j])),
{
    lemma_received_together(hub, queue, i);
    lemma_received_together(hub, queue, j);
    lemma_received_extends(hub, queue, i + 1, j);
}

} // verus!
