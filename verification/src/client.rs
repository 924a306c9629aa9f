//! The observers: who is connected, what a connection may send in, and who
//! gets a state change.
//!
//! Accepting connections, reading frames and writing to sockets is the caller's
//! part. What is decided here: whether a handshake is accepted, what to do with
//! each thing that a connection's read loop meets, and to whom a state change is
//! written.

use vstd::prelude::*;
use vstd::utf8::{decode_utf8, valid_utf8};

use crate::message::ControlMessage;
use crate::subscriber::{is_embedding, lemma_filter_is_subsequence};

verus! {

/// The subprotocol that a peer has to offer at the handshake.
pub const SUBPROTOCOL: &'static str = "palette";

/// The identity of a connected observer. It stays the same for as long as the
/// observer is connected, and no other observer ever gets it.
#[derive(Debug, Clone, Copy, PartialEq, Eq, Hash, Structural)]
pub struct ConnectionId(pub u64);

/// What the registry of observers holds: the connections in the order of their
/// registering, and the number that the next identity gets.
pub struct Roster {
    pub connections: Seq<ConnectionId>,
    pub next: u64,
}

/// Holds of every connection but `id`.
pub open spec fn not_connection(id: ConnectionId) -> spec_fn(ConnectionId) -> bool {
    |other: ConnectionId| other != id
}

impl Roster {
    /// The roster that nothing was registered in yet.
    pub open spec fn empty() -> Roster {
        Roster { connections: Seq::empty(), next: 0 }
    }

    /// Identities grow along the list and lie below the next one: no connection
    /// stands twice in it.
    pub open spec fn wf(self) -> bool {
        &&& forall|i: int, j: int|
            0 <= i < j < self.connections.len() ==> self.connections[i].0 < self.connections[j].0
        &&& forall|i: int| 0 <= i < self.connections.len() ==> self.connections[i].0 < self.next
    }

    /// Whether a connection can still be registered: the identities are not
    /// used up.
    pub open spec fn has_room(self) -> bool {
        self.next < u64::MAX
    }

    /// The roster after one more connection was registered.
    pub open spec fn register(self) -> Roster {
        Roster {
            connections: self.connections.push(ConnectionId(self.next)),
            next: (self.next + 1) as u64,
        }
    }

    /// The roster after `id` was unregistered.
    pub open spec fn unregister(self, id: ConnectionId) -> Roster {
        Roster { connections: self.connections.filter(not_connection(id)), next: self.next }
    }
}

/// One payload and the connections that it is written to, in the order of
/// writing.
#[derive(Debug, Clone, PartialEq, Eq)]
pub struct Broadcast {
    pub payload: String,
    pub recipients: Vec<ConnectionId>,
}

/// Why a state change was not sent to the observers.
#[derive(Debug, Clone, Copy, PartialEq, Eq, Structural)]
pub enum SendError {
    /// The state change could not be put into text.
    NotSerialized,
}

/// The registry of connected observers.
pub struct Clients {
    senders: Vec<ConnectionId>,
    next: u64,
}

impl View for Clients {
    type V = Roster;

    closed spec fn view(&self) -> Roster {
        Roster { connections: self.senders@, next: self.next }
    }
}

impl Clients {
    #[verifier::type_invariant]
    closed spec fn inv(self) -> bool {
        self@.wf()
    }

    /// A registry without connections.
    pub fn new() -> (clients: Clients)
        ensures
            clients@ == Roster::empty(),
    {
        Clients { senders: Vec::new(), next: 0 }
    }

    /// The connections, in the order of their registering.
    pub fn connections(&self) -> (connections: &Vec<ConnectionId>)
        ensures
            connections@ == self@.connections,
            self@.wf(),
    {
        proof {
            use_type_invariant(self);
        }
        &self.senders
    }

    /// Whether a connection can still be registered.
    pub fn has_room(&self) -> (ok: bool)
        ensures
            ok == self@.has_room(),
    {
        self.next < u64::MAX
    }

    /// Registers one more connection, behind those that are there, and gives it
    /// its identity.
    pub fn register(&mut self) -> (id: ConnectionId)
        requires
            old(self)@.has_room(),
        ensures
            final(self)@ == old(self)@.register(),
            id == ConnectionId(old(self)@.next),
            !old(self)@.connections.contains(id),
            final(self)@.wf(),
    {
        proof {
            use_type_invariant(&*self);
        }
        let id = ConnectionId(self.next);
        // The list is taken out while it grows, so that the registry is
        // well-formed at every step.
        let mut senders: Vec<ConnectionId> = Vec::new();
        core::mem::swap(&mut senders, &mut self.senders);
        self.next = self.next + 1;
        senders.push(id);
        proof {
            assert(old(self)@.register().wf());
        }
        self.senders = senders;
        id
    }

    /// Takes `id` out of the registry. The others keep their order. Where `id`
    /// is not registered nothing changes.
    pub fn unregister(&mut self, id: ConnectionId)
        ensures
            final(self)@ == old(self)@.unregister(id),
            !final(self)@.connections.contains(id),
            final(self)@.wf(),
    {
        proof {
            use_type_invariant(&*self);
        }
        let mut kept: Vec<ConnectionId> = Vec::new();
        let mut i: usize = 0;
        while i < self.senders.len()
            invariant
                i <= self.senders.len(),
                kept@ == self.senders@.take(i as int).filter(not_connection(id)),
            decreases self.senders.len() - i,
        {
            let other = self.senders[i];
            proof {
                let before = self.senders@.take(i as int);
                assert(self.senders@.take(i + 1) =~= before.push(other));
                before.lemma_filter_push(other, not_connection(id));
            }
            if other != id {
                kept.push(other);
            }
            i = i + 1;
        }
        proof {
            assert(self.senders@.take(i as int) =~= self.senders@);
            lemma_unregister(self@, id);
        }
        self.senders = kept;
    }

    /// Plans the sending of one state change: the text it was put into goes to
    /// every registered connection, once, in the order of the registry. Where it
    /// could not be put into text, nothing is sent.
    ///
    /// The registry stays as it is, whatever becomes of the writes.
    pub fn send_state_update(&self, serialized: Option<String>) -> (plan: Result<
        Broadcast,
        SendError,
    >)
        ensures
            match serialized {
                Some(text) => plan matches Ok(b) && b.payload@ == text@ && b.recipients@
                    == self@.connections,
                None => plan == Err::<Broadcast, SendError>(SendError::NotSerialized),
            },
            self@.wf(),
    {
        proof {
            use_type_invariant(self);
        }
        match serialized {
            Some(payload) => {
                let mut recipients: Vec<ConnectionId> = Vec::new();
                let mut i: usize = 0;
                while i < self.senders.len()
                    invariant
                        i <= self.senders.len(),
                        recipients@ == self.senders@.take(i as int),
                    decreases self.senders.len() - i,
                {
                    recipients.push(self.senders[i]);
                    proof {
                        assert(self.senders@.take(i + 1) =~= self.senders@.take(i as int).push(
                            self.senders@[i as int],
                        ));
                    }
                    i = i + 1;
                }
                proof {
                    assert(self.senders@.take(i as int) =~= self.senders@);
                }
                Ok(Broadcast { payload, recipients })
            },
            None => Err(SendError::NotSerialized),
        }
    }
}

/// Unregistering keeps a well-formed roster well-formed, and leaves the
/// connection out.
pub proof fn lemma_unregister(roster: Roster, id: ConnectionId)
    requires
        roster.wf(),
    ensures
        roster.unregister(id).wf(),
        !roster.unregister(id).connections.contains(id),
{
    let kept = roster.connections.filter(not_connection(id));
    lemma_filter_is_subsequence(roster.connections, not_connection(id));
    let origin = choose|origin: Seq<int>| is_embedding(origin, kept, roster.connections);
    assert forall|i: int, j: int| 0 <= i < j < kept.len() implies kept[i].0 < kept[j].0 by {
        assert(kept[i] == roster.connections[origin[i]]);
        assert(kept[j] == roster.connections[origin[j]]);
    }
    assert forall|i: int| 0 <= i < kept.len() implies kept[i].0 < roster.next by {
        assert(kept[i] == roster.connections[origin[i]]);
    }
    assert forall|i: int| 0 <= i < kept.len() implies kept[i] != id by {
        roster.connections.lemma_filter_pred(not_connection(id), i);
    }
}

/// In a well-formed roster no connection stands twice: a state change that
/// goes to every connection of the roster reaches each of them once.
pub proof fn lemma_connections_differ(roster: Roster)
    requires
        roster.wf(),
    ensures
        roster.connections.no_duplicates(),
{
    assert forall|i: int, j: int|
        0 <= i < roster.connections.len() && 0 <= j < roster.connections.len() && i != j implies
        roster.connections[i] != roster.connections[j] by {
        if i < j {
            assert(roster.connections[i].0 < roster.connections[j].0);
        } else {
            assert(roster.connections[j].0 < roster.connections[i].0);
        }
    }
}

/// A connection stays registered until it is unregistered itself: registering
/// another keeps it, and so does unregistering another.
pub proof fn lemma_stays_registered(roster: Roster, id: ConnectionId, other: ConnectionId)
    requires
        roster.connections.contains(id),
        other != id,
    ensures
        roster.register().connections.contains(id),
        roster.unregister(other).connections.contains(id),
{
    let i = choose|i: int| 0 <= i < roster.connections.len() && roster.connections[i] == id;
    assert(roster.register().connections[i] == id);
    roster.connections.lemma_filter_contains(not_connection(other), i);
}

/// What the peer's handshake is answered with.
#[derive(Debug, Clone, Copy, PartialEq, Eq, Structural)]
pub enum Upgrade {
    /// Accept the connection, under the subprotocol [`SUBPROTOCOL`].
    Accept,
    /// Reject and close the connection.
    Reject,
}

/// Whether `protocols` holds the subprotocol.
pub open spec fn offers_subprotocol(protocols: Seq<String>) -> bool {
    exists|i: int| 0 <= i < protocols.len() && (#[trigger] protocols[i])@ == SUBPROTOCOL@
}

/// Decides on a handshake by the subprotocols that the peer offers: it is
/// accepted if [`SUBPROTOCOL`] is among them, and rejected otherwise.
pub fn handle_upgrade_request(protocols: &Vec<String>) -> (upgrade: Upgrade)
    ensures
        upgrade == if offers_subprotocol(protocols@) {
            Upgrade::Accept
        } else {
            Upgrade::Reject
        },
{
    let wanted = SUBPROTOCOL.to_owned();
    let mut i: usize = 0;
    while i < protocols.len()
        invariant
            i <= protocols.len(),
            wanted@ == SUBPROTOCOL@,
            forall|j: int| 0 <= j < i ==> (#[trigger] protocols@[j])@ != SUBPROTOCOL@,
        decreases protocols.len() - i,
    {
        if protocols[i] == wanted {
            return Upgrade::Accept;
        }
        i = i + 1;
    }
    Upgrade::Reject
}

/// A frame as it comes off a connection.
#[derive(Debug, Clone, PartialEq, Eq)]
pub enum Frame {
    /// A text frame.
    Text(String),
    /// A binary frame.
    Binary(Vec<u8>),
    /// A frame that carries no payload for the hub: a ping, a pong, a close.
    Other,
}

/// What a connection's read loop meets.
#[derive(Debug, Clone, PartialEq, Eq)]
pub enum ReadEvent {
    /// The peer closed the connection, or reading failed for good.
    Closed,
    /// A frame arrived.
    Frame(Frame),
    /// The payload that was handed out for decoding came back: as a control
    /// message, or as nothing where it was none.
    Decoded(Option<ControlMessage>),
    /// The message that was handed out for the dispatcher's queue was taken, or
    /// was not because the queue is shut down.
    Enqueued(bool),
}

/// What the read loop does next.
#[derive(Debug, Clone, PartialEq, Eq)]
pub enum ReadAction {
    /// Read the next frame.
    Read,
    /// Decode this payload as a control message.
    Decode(String),
    /// Put this message on the dispatcher's queue.
    Enqueue(ControlMessage),
    /// End the loop.
    Stop,
}

/// A [`ReadAction`] with sequences in place of strings and vectors.
pub enum ReadStep {
    Read,
    Decode(Seq<char>),
    Enqueue(crate::message::Command),
    Stop,
}

impl View for ReadAction {
    type V = ReadStep;

    open spec fn view(&self) -> ReadStep {
        match self {
            ReadAction::Read => ReadStep::Read,
            ReadAction::Decode(text) => ReadStep::Decode(text@),
            ReadAction::Enqueue(msg) => ReadStep::Enqueue(msg@),
            ReadAction::Stop => ReadStep::Stop,
        }
    }
}

/// The text that a frame carries: that of a text frame, and that of a binary
/// frame whose bytes are UTF-8.
pub open spec fn payload_of(frame: Frame) -> Option<Seq<char>> {
    match frame {
        Frame::Text(text) => Some(text@),
        Frame::Binary(bytes) => if valid_utf8(bytes@) {
            Some(decode_utf8(bytes@))
        } else {
            None
        },
        Frame::Other => None,
    }
}

/// The step that follows `event`.
///
/// A closed connection ends the loop. A frame with text is decoded, any other
/// frame is passed over. A decoded message goes to the queue; a payload that
/// was no message is passed over, and the connection stays open. A message that
/// the queue took is followed by the next read; one that it did not take ends
/// the loop.
pub open spec fn step_after(event: ReadEvent) -> ReadStep {
    match event {
        ReadEvent::Closed => ReadStep::Stop,
        ReadEvent::Frame(frame) => match payload_of(frame) {
            Some(text) => ReadStep::Decode(text),
            None => ReadStep::Read,
        },
        ReadEvent::Decoded(Some(msg)) => ReadStep::Enqueue(msg@),
        ReadEvent::Decoded(None) => ReadStep::Read,
        ReadEvent::Enqueued(taken) => if taken {
            ReadStep::Read
        } else {
            ReadStep::Stop
        },
    }
}

/// `String::from_utf8` of std: the bytes as a string where they are UTF-8, and
/// nothing where they are not.
#[verifier::external_body]
fn text_of(bytes: Vec<u8>) -> (text: Option<String>)
    ensures
        text is Some <==> valid_utf8(bytes@),
        text is Some ==> text.unwrap()@ == decode_utf8(bytes@),
{
    match String::from_utf8(bytes) {
        Ok(text) => Some(text),
        Err(_) => None,
    }
}

/// The text that `frame` carries, if it carries any.
pub fn frame_text(frame: Frame) -> (text: Option<String>)
    ensures
        match payload_of(frame) {
            Some(payload) => text matches Some(t) && t@ == payload,
            None => text is None,
        },
{
    match frame {
        Frame::Text(text) => Some(text),
        Frame::Binary(bytes) => text_of(bytes),
        Frame::Other => None,
    }
}

/// Decides what a connection's read loop does after `event`.
pub fn handle_messages(event: ReadEvent) -> (action: ReadAction)
    ensures
        action@ == step_after(event),
{
    match event {
        ReadEvent::Closed => ReadAction::Stop,
        ReadEvent::Frame(frame) => match frame_text(frame) {
            Some(text) => ReadAction::Decode(text),
            None => ReadAction::Read,
        },
        ReadEvent::Decoded(Some(msg)) => ReadAction::Enqueue(msg),
        ReadEvent::Decoded(None) => ReadAction::Read,
        ReadEvent::Enqueued(taken) => if taken {
            ReadAction::Read
        } else {
            ReadAction::Stop
        },
    }
}

} // verus!
