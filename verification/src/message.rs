//! The messages that go in and out of the hub, and the values they carry.

use vstd::prelude::*;

use crate::color::Color;

verus! {

/// The identity of a subscriber, given out when it is added.
///
/// Identifiers count up from zero and are never given out twice.
#[derive(Debug, Clone, Copy, PartialEq, Eq, Hash, Structural)]
pub struct SubscriberId(pub u64);

impl SubscriberId {
    /// The first identifier that is given out.
    pub fn zero() -> (id: SubscriberId)
        ensures
            id.0 == 0,
    {
        SubscriberId(0)
    }

    /// Moves on to the next identifier.
    pub fn advance(&mut self)
        requires
            old(self).0 < u64::MAX,
        ensures
            final(self).0 == old(self).0 + 1,
        no_unwind
    {
        self.0 = self.0 + 1;
    }
}

/// A network endpoint: an address and a port.
#[allow(inconsistent_fields)]
#[derive(Debug, Clone, Copy, PartialEq, Eq, Hash, Structural)]
pub enum Endpoint {
    /// An IPv4 address as one big-endian number, and a port.
    V4 { ip: u32, port: u16 },
    /// An IPv6 address as one big-endian number, a port, the flow information
    /// and the scope.
    V6 { ip: u128, port: u16, flowinfo: u32, scope_id: u32 },
}

/// Where and how a subscriber is reached.
#[derive(Debug, Clone, Copy, PartialEq, Eq, Hash, Structural)]
pub enum SubscriberConfig {
    /// Open Sound Control messages in datagrams to an endpoint.
    Osc(Endpoint),
}

/// A registered subscriber.
#[derive(Debug, Clone, Copy, PartialEq, Eq, Hash, Structural)]
pub struct Subscriber {
    pub id: SubscriberId,
    pub cfg: SubscriberConfig,
}

/// A request to change the palette.
#[derive(Debug, Clone, PartialEq, Eq)]
pub enum PaletteControlMessage {
    /// Replace the whole palette by these colors.
    Replace(Vec<Color>),
}

/// A change of the palette that has happened.
#[derive(Debug, Clone, PartialEq, Eq)]
pub enum PaletteStateChange {
    /// The palette now holds these colors.
    Replaced(Vec<Color>),
}

/// A request to change the set of subscribers.
#[derive(Debug, Clone, Copy, PartialEq, Eq, Structural)]
pub enum SubscriberControlMessage {
    Add(SubscriberConfig),
    Remove(SubscriberId),
}

/// A change of the set of subscribers that has happened.
#[derive(Debug, Clone, Copy, PartialEq, Eq, Structural)]
pub enum SubscriberStateChange {
    Added(Subscriber),
    Removed(SubscriberId),
}

/// A request that comes in from an editor.
#[derive(Debug, Clone, PartialEq, Eq)]
pub enum ControlMessage {
    /// Asks for the current state to be sent out again.
    Refresh,
    Palette(PaletteControlMessage),
    Subscriber(SubscriberControlMessage),
}

/// A change of state that goes out to every observer.
#[derive(Debug, Clone, PartialEq, Eq)]
pub enum StateChange {
    Palette(PaletteStateChange),
    Subscriber(SubscriberStateChange),
}

/// What a control message asks for, with sequences in place of vectors.
pub enum Command {
    Refresh,
    SetPalette(Seq<Color>),
    AddSubscriber(SubscriberConfig),
    RemoveSubscriber(SubscriberId),
}

/// What a state change reports, with sequences in place of vectors.
pub enum Event {
    PaletteSet(Seq<Color>),
    SubscriberAdded(Subscriber),
    SubscriberRemoved(SubscriberId),
}

impl PaletteControlMessage {
    /// The colors that the message carries.
    pub open spec fn colors(self) -> Seq<Color> {
        match self {
            PaletteControlMessage::Replace(colors) => colors@,
        }
    }
}

impl PaletteStateChange {
    /// The colors that the change reports.
    pub open spec fn colors(self) -> Seq<Color> {
        match self {
            PaletteStateChange::Replaced(colors) => colors@,
        }
    }
}

impl SubscriberControlMessage {
    pub open spec fn command(self) -> Command {
        match self {
            SubscriberControlMessage::Add(cfg) => Command::AddSubscriber(cfg),
            SubscriberControlMessage::Remove(id) => Command::RemoveSubscriber(id),
        }
    }
}

impl SubscriberStateChange {
    pub open spec fn event(self) -> Event {
        match self {
            SubscriberStateChange::Added(sub) => Event::SubscriberAdded(sub),
            SubscriberStateChange::Removed(id) => Event::SubscriberRemoved(id),
        }
    }
}

impl View for ControlMessage {
    type V = Command;

    open spec fn view(&self) -> Command {
        match self {
            ControlMessage::Refresh => Command::Refresh,
            ControlMessage::Palette(m) => Command::SetPalette(m.colors()),
            ControlMessage::Subscriber(m) => m.command(),
        }
    }
}

impl View for StateChange {
    type V = Event;

    open spec fn view(&self) -> Event {
        match self {
            StateChange::Palette(c) => Event::PaletteSet(c.colors()),
            StateChange::Subscriber(c) => c.event(),
        }
    }
}

} // verus!
