//! The dispatcher: the one place where the palette and the subscribers change.
//!
//! The dispatcher takes control messages one at a time. For each it changes its
//! state and answers with the actions that follow, in the order in which they
//! are to be carried out: pushes to subscribers first, then the state changes
//! for the observers. Carrying them out is the caller's part.

use vstd::prelude::*;

use crate::color::Color;
use crate::message::{
    Command, ControlMessage, Event, PaletteStateChange, StateChange, SubscriberConfig,
    SubscriberControlMessage, SubscriberStateChange,
};
use crate::osc::{palette_message, Push, PushView};
use crate::palette::Palette;
use crate::subscriber::{endpoint_of, first_with, Registry, Subscribers};

verus! {

/// Something for the caller to carry out.
#[derive(Debug, Clone, PartialEq, Eq)]
pub enum Action {
    /// Send one message to each of the destinations, in their order.
    Push(Push),
    /// Hand the state change to every connected observer.
    Broadcast(StateChange),
}

/// An [`Action`] with sequences in place of vectors.
pub enum Effect {
    Push(PushView),
    Broadcast(Event),
}

impl View for Action {
    type V = Effect;

    open spec fn view(&self) -> Effect {
        match self {
            Action::Push(push) => Effect::Push(push@),
            Action::Broadcast(change) => Effect::Broadcast(change@),
        }
    }
}

/// The views of a row of actions.
pub open spec fn effects_of(actions: Seq<Action>) -> Seq<Effect> {
    actions.map_values(|action: Action| action@)
}

/// The state that the dispatcher owns.
pub struct Hub {
    pub palette: Seq<Color>,
    pub registry: Registry,
}

impl Hub {
    /// The state at the start: the palette given, and no subscriber.
    pub open spec fn initial(palette: Seq<Color>) -> Hub {
        Hub { palette, registry: Registry::empty() }
    }

    pub open spec fn wf(self) -> bool {
        self.registry.wf()
    }

    /// Whether `command` can be applied: all can, but an adding when the
    /// identifiers are used up.
    pub open spec fn accepts(self, command: Command) -> bool {
        command is AddSubscriber ==> self.registry.has_room()
    }

    /// The state after `command`.
    pub open spec fn next(self, command: Command) -> Hub {
        match command {
            Command::Refresh => self,
            Command::SetPalette(colors) => Hub { palette: colors, registry: self.registry },
            Command::AddSubscriber(cfg) => Hub {
                palette: self.palette,
                registry: self.registry.add(cfg),
            },
            Command::RemoveSubscriber(id) => Hub {
                palette: self.palette,
                registry: self.registry.remove(id),
            },
        }
    }

    /// What `command` makes happen outside, in order.
    ///
    /// A new palette is pushed to every subscriber and then broadcast. A new
    /// subscriber gets the palette in effect, it alone, and is then broadcast. A
    /// removal is broadcast, whether or not it removed anything. A refresh
    /// broadcasts the palette and then every subscriber, as if each had just
    /// been set or added.
    pub open spec fn effects(self, command: Command) -> Seq<Effect> {
        match command {
            Command::Refresh => seq![Effect::Broadcast(Event::PaletteSet(self.palette))]
                + self.registry.subs.map_values(
                |sub| Effect::Broadcast(Event::SubscriberAdded(sub)),
            ),
            Command::SetPalette(colors) => seq![
                Effect::Push(self.registry.push_to_all(colors)),
                Effect::Broadcast(Event::PaletteSet(colors)),
            ],
            Command::AddSubscriber(cfg) => seq![
                Effect::Push(
                    PushView {
                        message: palette_message(self.palette),
                        destinations: seq![endpoint_of(cfg)],
                    },
                ),
                Effect::Broadcast(Event::SubscriberAdded(self.registry.newcomer(cfg))),
            ],
            Command::RemoveSubscriber(id) => seq![Effect::Broadcast(Event::SubscriberRemoved(id))],
        }
    }
}

/// Owns the palette and the subscribers, and applies control messages to them.
pub struct Dispatcher {
    palette: Palette,
    subs: Subscribers,
}

impl View for Dispatcher {
    type V = Hub;

    closed spec fn view(&self) -> Hub {
        Hub { palette: self.palette@, registry: self.subs@ }
    }
}

impl Dispatcher {
    /// A dispatcher that starts with `palette` and without subscribers.
    pub fn new(palette: Palette) -> (dispatcher: Dispatcher)
        ensures
            dispatcher@ == Hub::initial(palette@),
    {
        Dispatcher { palette, subs: Subscribers::new() }
    }

    /// The palette in effect.
    pub fn palette(&self) -> (palette: &Palette)
        ensures
            palette@ == self@.palette,
    {
        &self.palette
    }

    /// The registry of subscribers.
    pub fn subscribers(&self) -> (subs: &Subscribers)
        ensures
            subs@ == self@.registry,
    {
        &self.subs
    }

    /// Whether `msg` can be applied now.
    pub fn accepts(&self, msg: &ControlMessage) -> (ok: bool)
        ensures
            ok == self@.accepts(msg@),
    {
        match msg {
            ControlMessage::Subscriber(SubscriberControlMessage::Add(_)) => self.subs.has_room(),
            _ => true,
        }
    }

    /// Applies `msg` and answers with what is to be done about it.
    pub fn control(&mut self, msg: ControlMessage) -> (actions: Vec<Action>)
        requires
            old(self)@.accepts(msg@),
        ensures
            final(self)@ == old(self)@.next(msg@),
            effects_of(actions@) == old(self)@.effects(msg@),
            old(self)@.wf(),
            final(self)@.wf(),
    {
        let mut actions: Vec<Action> = Vec::new();
        match msg {
            ControlMessage::Palette(m) => {
                let control_result = self.palette.control(m);
                match &control_result {
                    PaletteStateChange::Replaced(colors) => {
                        let push = self.subs.send_palette(colors.as_slice());
                        actions.push(Action::Push(push));
                    },
                }
                actions.push(Action::Broadcast(StateChange::Palette(control_result)));
                proof {
                    assert(effects_of(actions@) =~= old(self)@.effects(msg@));
                }
            },
            ControlMessage::Subscriber(m) => {
                let control_result = self.subs.control(m);
                if let SubscriberStateChange::Added(sub) = control_result {
                    proof {
                        lemma_newcomer_is_found(old(self)@.registry, sub.cfg);
                    }
                    if let Some(push) = self.subs.send_palette_to(sub.id, self.palette.colors()) {
                        actions.push(Action::Push(push));
                    }
                }
                actions.push(Action::Broadcast(StateChange::Subscriber(control_result)));
                proof {
                    assert(effects_of(actions@) =~= old(self)@.effects(msg@));
                }
            },
            ControlMessage::Refresh => {
                actions.push(Action::Broadcast(StateChange::Palette(self.palette.current_state())));
                let changes = self.subs.current_state();
                let mut i: usize = 0;
                while i < changes.len()
                    invariant
                        i <= changes.len(),
                        actions@.len() == i + 1,
                        actions@[0]@ == Effect::Broadcast(Event::PaletteSet(self@.palette)),
                        forall|j: int|
                            0 <= j < i ==> (#[trigger] actions@[j + 1])@ == Effect::Broadcast(
                                changes@[j].event(),
                            ),
                    decreases changes.len() - i,
                {
                    actions.push(Action::Broadcast(StateChange::Subscriber(changes[i])));
                    i = i + 1;
                }
                proof {
                    let expected = old(self)@.effects(msg@);
                    assert(expected.len() == actions@.len());
                    assert forall|k: int| 0 <= k < actions@.len() implies effects_of(actions@)[k]
                        == expected[k] by {
                        if k > 0 {
                            assert(actions@[(k - 1) + 1]@ == Effect::Broadcast(
                                changes@[k - 1].event(),
                            ));
                        }
                    }
                    assert(effects_of(actions@) =~= expected);
                }
            },
        }
        actions
    }
}

/// A subscriber that has just been added is the one found under its
/// identifier.
pub proof fn lemma_newcomer_is_found(registry: Registry, cfg: SubscriberConfig)
    requires
        registry.wf(),
    ensures
        first_with(registry.add(cfg).subs, registry.next_id) == Some(registry.newcomer(cfg)),
    decreases registry.subs.len(),
{
    let grown = registry.add(cfg).subs;
    if registry.subs.len() == 0 {
        assert(grown[0] == registry.newcomer(cfg));
    } else {
        let rest = Registry { subs: registry.subs.drop_first(), next_id: registry.next_id };
        assert(rest.wf()) by {
            assert forall|i: int, j: int| 0 <= i < j < rest.subs.len() implies rest.subs[i].id.0
                < rest.subs[j].id.0 by {
                assert(rest.subs[i] == registry.subs[i + 1]);
                assert(rest.subs[j] == registry.subs[j + 1]);
            }
            assert forall|i: int| 0 <= i < rest.subs.len() implies rest.subs[i].id.0
                < rest.next_id.0 by {
                assert(rest.subs[i] == registry.subs[i + 1]);
            }
        }
        lemma_newcomer_is_found(rest, cfg);
        assert(grown[0] == registry.subs[0]);
        assert(grown.drop_first() =~= rest.add(cfg).subs);
    }
}

} // verus!
