//! The registry of subscribers.

use vstd::prelude::*;

use crate::color::Color;
use crate::message::{
    Endpoint, Subscriber, SubscriberConfig, SubscriberControlMessage, SubscriberId,
    SubscriberStateChange,
};
use crate::osc::{palette_message, prepare_osc_palette, Push, PushView};

verus! {

/// What the registry holds: the subscribers in the order of their adding, and
/// the identifier that the next one gets.
pub struct Registry {
    pub subs: Seq<Subscriber>,
    pub next_id: SubscriberId,
}

/// The endpoint that `cfg` names.
pub open spec fn endpoint_of(cfg: SubscriberConfig) -> Endpoint {
    match cfg {
        SubscriberConfig::Osc(endpoint) => endpoint,
    }
}

/// The first of `subs` with identifier `id`.
pub open spec fn first_with(subs: Seq<Subscriber>, id: SubscriberId) -> Option<Subscriber>
    decreases subs.len(),
{
    if subs.len() == 0 {
        None
    } else if subs[0].id == id {
        Some(subs[0])
    } else {
        first_with(subs.drop_first(), id)
    }
}

/// Holds of every subscriber but those with identifier `id`.
pub open spec fn other_than(id: SubscriberId) -> spec_fn(Subscriber) -> bool {
    |sub: Subscriber| sub.id != id
}

impl Registry {
    /// The registry that nothing was added to yet.
    pub open spec fn empty() -> Registry {
        Registry { subs: Seq::empty(), next_id: SubscriberId(0) }
    }

    /// Identifiers grow along the list, and all of them lie below the next one:
    /// no two subscribers share one, and none that was given out comes again.
    pub open spec fn wf(self) -> bool {
        &&& forall|i: int, j: int|
            0 <= i < j < self.subs.len() ==> self.subs[i].id.0 < self.subs[j].id.0
        &&& forall|i: int| 0 <= i < self.subs.len() ==> self.subs[i].id.0 < self.next_id.0
    }

    /// Whether a subscriber can still be added: the identifiers are not used up.
    pub open spec fn has_room(self) -> bool {
        self.next_id.0 < u64::MAX
    }

    /// Whether a subscriber with identifier `id` is registered.
    pub open spec fn knows(self, id: SubscriberId) -> bool {
        exists|i: int| 0 <= i < self.subs.len() && self.subs[i].id == id
    }

    /// The subscriber that the next adding of `cfg` creates.
    pub open spec fn newcomer(self, cfg: SubscriberConfig) -> Subscriber {
        Subscriber { id: self.next_id, cfg }
    }

    /// The registry after `cfg` was added.
    pub open spec fn add(self, cfg: SubscriberConfig) -> Registry {
        Registry {
            subs: self.subs.push(self.newcomer(cfg)),
            next_id: SubscriberId((self.next_id.0 + 1) as u64),
        }
    }

    /// The registry after every subscriber with identifier `id` was removed.
    pub open spec fn remove(self, id: SubscriberId) -> Registry {
        Registry { subs: self.subs.filter(other_than(id)), next_id: self.next_id }
    }

    /// The registry after `msg`.
    pub open spec fn apply(self, msg: SubscriberControlMessage) -> Registry {
        match msg {
            SubscriberControlMessage::Add(cfg) => self.add(cfg),
            SubscriberControlMessage::Remove(id) => self.remove(id),
        }
    }

    /// The change that `msg` brings about.
    pub open spec fn change(self, msg: SubscriberControlMessage) -> SubscriberStateChange {
        match msg {
            SubscriberControlMessage::Add(cfg) => SubscriberStateChange::Added(self.newcomer(cfg)),
            SubscriberControlMessage::Remove(id) => SubscriberStateChange::Removed(id),
        }
    }

    /// The endpoints of all subscribers, in the order of the registry.
    pub open spec fn destinations(self) -> Seq<Endpoint> {
        self.subs.map_values(|sub: Subscriber| endpoint_of(sub.cfg))
    }

    /// The push of `colors` to every subscriber.
    pub open spec fn push_to_all(self, colors: Seq<Color>) -> PushView {
        PushView { message: palette_message(colors), destinations: self.destinations() }
    }

    /// The push of `colors` to the subscriber with identifier `id`, if there is
    /// one.
    pub open spec fn push_to(self, id: SubscriberId, colors: Seq<Color>) -> Option<PushView> {
        match first_with(self.subs, id) {
            Some(sub) => Some(
                PushView { message: palette_message(colors), destinations: seq![endpoint_of(sub.cfg)] },
            ),
            None => None,
        }
    }

    /// The registry as the changes that would have filled it: one adding for
    /// each subscriber.
    pub open spec fn replay(self) -> Seq<SubscriberStateChange> {
        self.subs.map_values(|sub: Subscriber| SubscriberStateChange::Added(sub))
    }
}

/// The subscribers of the palette.
pub struct Subscribers {
    subs: Vec<Subscriber>,
    next_id: SubscriberId,
}

impl View for Subscribers {
    type V = Registry;

    closed spec fn view(&self) -> Registry {
        Registry { subs: self.subs@, next_id: self.next_id }
    }
}

impl Subscribers {
    #[verifier::type_invariant]
    closed spec fn inv(self) -> bool {
        self@.wf()
    }

    /// A registry without subscribers, whose first identifier is zero.
    pub fn new() -> (subscribers: Subscribers)
        ensures
            subscribers@ == Registry::empty(),
    {
        Subscribers { subs: Vec::new(), next_id: SubscriberId::zero() }
    }

    /// The subscribers, in the order of their adding.
    pub fn subscribers(&self) -> (subs: &Vec<Subscriber>)
        ensures
            subs@ == self@.subs,
            self@.wf(),
    {
        proof {
            use_type_invariant(self);
        }
        &self.subs
    }

    /// The identifier that the next subscriber gets.
    pub fn next_id(&self) -> (id: SubscriberId)
        ensures
            id == self@.next_id,
    {
        self.next_id
    }

    /// Whether a subscriber can still be added.
    pub fn has_room(&self) -> (ok: bool)
        ensures
            ok == self@.has_room(),
    {
        self.next_id.0 < u64::MAX
    }

    /// Adds a subscriber under the next identifier, or removes every subscriber
    /// with the identifier given, and reports what was done.
    ///
    /// Removing an identifier that nobody has changes nothing, and is reported
    /// all the same.
    pub fn control(&mut self, msg: SubscriberControlMessage) -> (change: SubscriberStateChange)
        requires
            msg is Add ==> old(self)@.has_room(),
        ensures
            final(self)@ == old(self)@.apply(msg),
            change == old(self)@.change(msg),
            old(self)@.wf(),
            final(self)@.wf(),
    {
        proof {
            use_type_invariant(&*self);
        }
        match msg {
            SubscriberControlMessage::Add(cfg) => {
                let id = self.next_id;
                let sub = Subscriber { id, cfg };
                // The list is taken out while it grows, so that the registry is
                // well-formed at every step.
                let mut subs: Vec<Subscriber> = Vec::new();
                core::mem::swap(&mut subs, &mut self.subs);
                self.next_id.advance();
                subs.push(sub);
                self.subs = subs;
                SubscriberStateChange::Added(sub)
            },
            SubscriberControlMessage::Remove(id) => {
                let mut kept: Vec<Subscriber> = Vec::new();
                let mut i: usize = 0;
                while i < self.subs.len()
                    invariant
                        i <= self.subs.len(),
                        kept@ == self.subs@.take(i as int).filter(other_than(id)),
                    decreases self.subs.len() - i,
                {
                    let sub = self.subs[i];
                    proof {
                        let before = self.subs@.take(i as int);
                        assert(self.subs@.take(i + 1) =~= before.push(sub));
                        before.lemma_filter_push(sub, other_than(id));
                    }
                    if sub.id != id {
                        kept.push(sub);
                    }
                    i = i + 1;
                }
                proof {
                    assert(self.subs@.take(i as int) =~= self.subs@);
                    lemma_filter_keeps_wf(self@, id);
                }
                self.subs = kept;
                SubscriberStateChange::Removed(id)
            },
        }
    }

    /// The push of `colors` to every subscriber, in the order of the registry.
    ///
    /// The message is built once. With no subscriber the push has no
    /// destination.
    pub fn send_palette(&self, colors: &[Color]) -> (push: Push)
        ensures
            push@ == self@.push_to_all(colors@),
            self@.wf(),
    {
        proof {
            use_type_invariant(self);
        }
        let message = prepare_osc_palette(colors);
        let mut destinations: Vec<Endpoint> = Vec::new();
        let mut i: usize = 0;
        while i < self.subs.len()
            invariant
                i <= self.subs.len(),
                destinations@.len() == i,
                forall|j: int| 0 <= j < i ==> destinations@[j] == endpoint_of(#[trigger] self.subs@[j].cfg),
            decreases self.subs.len() - i,
        {
            destinations.push(self.send_to(&self.subs[i]));
            i = i + 1;
        }
        proof {
            assert(destinations@ =~= self@.destinations());
        }
        Push { message, destinations }
    }

    /// The push of `colors` to the subscriber with identifier `id` alone, or
    /// nothing where no subscriber has that identifier.
    pub fn send_palette_to(&self, id: SubscriberId, colors: &[Color]) -> (push: Option<Push>)
        ensures
            match self@.push_to(id, colors@) {
                Some(expected) => push matches Some(p) && p@ == expected,
                None => push is None,
            },
    {
        let mut i: usize = 0;
        proof {
            assert(self.subs@.skip(0) =~= self.subs@);
        }
        while i < self.subs.len()
            invariant
                i <= self.subs.len(),
                first_with(self.subs@, id) == first_with(self.subs@.skip(i as int), id),
            decreases self.subs.len() - i,
        {
            let sub = self.subs[i];
            proof {
                let rest = self.subs@.skip(i as int);
                assert(rest[0] == sub);
                assert(rest.drop_first() =~= self.subs@.skip(i + 1));
            }
            if sub.id == id {
                let message = prepare_osc_palette(colors);
                let mut destinations: Vec<Endpoint> = Vec::new();
                destinations.push(self.send_to(&sub));
                proof {
                    assert(destinations@ =~= seq![endpoint_of(sub.cfg)]);
                }
                return Some(Push { message, destinations });
            }
            i = i + 1;
        }
        None
    }

    /// Where a message for `sub` goes.
    fn send_to(&self, sub: &Subscriber) -> (destination: Endpoint)
        ensures
            destination == endpoint_of(sub.cfg),
    {
        match sub.cfg {
            SubscriberConfig::Osc(endpoint) => endpoint,
        }
    }

    /// The registry as the changes that would have filled it: one adding for
    /// each subscriber, in the order of the registry.
    pub fn current_state(&self) -> (changes: Vec<SubscriberStateChange>)
        ensures
            changes@ == self@.replay(),
            self@.wf(),
    {
        proof {
            use_type_invariant(self);
        }
        let mut changes: Vec<SubscriberStateChange> = Vec::new();
        let mut i: usize = 0;
        while i < self.subs.len()
            invariant
                i <= self.subs.len(),
                changes@.len() == i,
                forall|j: int| 0 <= j < i ==> changes@[j] == SubscriberStateChange::Added(self.subs@[j]),
            decreases self.subs.len() - i,
        {
            changes.push(SubscriberStateChange::Added(self.subs[i]));
            i = i + 1;
        }
        proof {
            assert(changes@ =~= self@.replay());
        }
        changes
    }
}

/// Removing keeps a well-formed registry well-formed.
pub proof fn lemma_filter_keeps_wf(registry: Registry, id: SubscriberId)
    requires
        registry.wf(),
    ensures
        registry.remove(id).wf(),
{
    let kept = registry.subs.filter(other_than(id));
    lemma_filter_is_subsequence(registry.subs, other_than(id));
    let origin = choose|origin: Seq<int>| is_embedding(origin, kept, registry.subs);
    assert forall|i: int, j: int| 0 <= i < j < kept.len() implies kept[i].id.0 < kept[j].id.0 by {
        assert(kept[i] == registry.subs[origin[i]]);
        assert(kept[j] == registry.subs[origin[j]]);
    }
    assert forall|i: int| 0 <= i < kept.len() implies kept[i].id.0 < registry.next_id.0 by {
        assert(kept[i] == registry.subs[origin[i]]);
    }
}

/// What a filter keeps stands in the order it had: there is a growing map from
/// the places of the result to the places they came from.
pub proof fn lemma_filter_is_subsequence<A>(s: Seq<A>, pred: spec_fn(A) -> bool)
    ensures
        exists|origin: Seq<int>| is_embedding(origin, s.filter(pred), s),
    decreases s.len(),
{
    reveal(Seq::filter);
    if s.len() == 0 {
        assert(is_embedding(Seq::<int>::empty(), s.filter(pred), s));
    } else {
        let front = s.drop_last();
        lemma_filter_is_subsequence(front, pred);
        let origin = choose|origin: Seq<int>| is_embedding(origin, front.filter(pred), front);
        if pred(s.last()) {
            let longer = origin.push(s.len() - 1);
            assert(is_embedding(longer, s.filter(pred), s));
        } else {
            assert(is_embedding(origin, s.filter(pred), s));
        }
    }
}

/// `origin` maps each place of `part` to a place of `whole` that holds the same
/// item, and grows strictly.
pub open spec fn is_embedding<A>(origin: Seq<int>, part: Seq<A>, whole: Seq<A>) -> bool {
    &&& origin.len() == part.len()
    &&& forall|i: int| 0 <= i < part.len() ==> 0 <= #[trigger] origin[i] < whole.len()
    &&& forall|i: int| 0 <= i < part.len() ==> part[i] == whole[#[trigger] origin[i]]
    &&& forall|i: int, j: int| 0 <= i < j < part.len() ==> #[trigger] origin[i] < #[trigger] origin[j]
}

} // verus!
