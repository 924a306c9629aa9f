//! The message that carries a palette to a subscriber.
//!
//! A palette goes out as one Open Sound Control message. Its address is
//! [`PALETTE_ADDRESS`] and its arguments are the channels of the colors, three
//! single-precision numbers for each color: red, green, blue, in the order of
//! the palette.
//!
//! Putting a message into bytes is left to the caller. The bytes then wait in
//! an [`OscSender`], which hands them out in the order in which they came.

use std::collections::VecDeque;
use std::sync::Arc;
use vstd::prelude::*;

use crate::color::Color;
use crate::message::Endpoint;

verus! {

/// The address of every palette message.
pub const PALETTE_ADDRESS: &'static str = "/palette";

/// An Open Sound Control message whose arguments are all single-precision
/// numbers, each held as its bit pattern.
#[derive(Debug, Clone, PartialEq, Eq)]
pub struct OscMessage {
    pub addr: String,
    pub args: Vec<u32>,
}

/// One message and the endpoints that it goes to, in the order of sending.
///
/// The message is built once, whatever the number of endpoints.
#[derive(Debug, Clone, PartialEq, Eq)]
pub struct Push {
    pub message: OscMessage,
    pub destinations: Vec<Endpoint>,
}

/// An [`OscMessage`] with sequences in place of its string and its vector.
pub struct MessageView {
    pub addr: Seq<char>,
    pub args: Seq<u32>,
}

/// A [`Push`] with sequences in place of vectors.
pub struct PushView {
    pub message: MessageView,
    pub destinations: Seq<Endpoint>,
}

impl View for OscMessage {
    type V = MessageView;

    open spec fn view(&self) -> MessageView {
        MessageView { addr: self.addr@, args: self.args@ }
    }
}

impl View for Push {
    type V = PushView;

    open spec fn view(&self) -> PushView {
        PushView { message: self.message@, destinations: self.destinations@ }
    }
}

/// Channel `k` of a color: 0 is red, 1 is green, anything else is blue.
pub open spec fn channel(color: Color, k: int) -> u32 {
    if k == 0 {
        color.red
    } else if k == 1 {
        color.green
    } else {
        color.blue
    }
}

/// The channels of all colors in one row: argument `i` is channel `i % 3` of
/// color `i / 3`.
pub open spec fn channels(colors: Seq<Color>) -> Seq<u32> {
    Seq::new(3 * colors.len(), |i: int| channel(colors[i / 3], i % 3))
}

/// The message that carries `colors`.
pub open spec fn palette_message(colors: Seq<Color>) -> MessageView {
    MessageView { addr: PALETTE_ADDRESS@, args: channels(colors) }
}

/// Builds the message that carries `colors`.
pub fn prepare_osc_palette(colors: &[Color]) -> (message: OscMessage)
    ensures
        message@ == palette_message(colors@),
{
    let mut args: Vec<u32> = Vec::new();
    let mut i: usize = 0;
    while i < colors.len()
        invariant
            i <= colors.len(),
            args@.len() == 3 * i,
            forall|j: int| 0 <= j < 3 * i ==> args@[j] == channel(#[trigger] colors@[j / 3], j % 3),
        decreases colors.len() - i,
    {
        let color = colors[i];
        args.push(color.red);
        args.push(color.green);
        args.push(color.blue);
        i = i + 1;
    }
    proof {
        assert(args@ =~= channels(colors@));
    }
    OscMessage { addr: PALETTE_ADDRESS.to_owned(), args }
}

/// A packet on its way: where it goes, and its bytes.
pub struct Parcel {
    pub destination: Endpoint,
    pub packet: Seq<u8>,
}

/// The packets that wait to be sent.
///
/// [`OscSender::send`] puts a packet behind those that wait and returns at
/// once, whatever becomes of the packet later. [`OscSender::next`] takes out
/// the one that has waited longest. Nothing bounds the number that wait.
pub struct OscSender {
    queue: VecDeque<(Endpoint, Arc<Vec<u8>>)>,
}

impl View for OscSender {
    type V = Seq<Parcel>;

    closed spec fn view(&self) -> Seq<Parcel> {
        self.queue@.map_values(
            |item: (Endpoint, Arc<Vec<u8>>)| Parcel { destination: item.0, packet: item.1@ },
        )
    }
}

impl OscSender {
    /// A sender with nothing waiting.
    pub fn new() -> (sender: OscSender)
        ensures
            sender@ == Seq::<Parcel>::empty(),
    {
        let sender = OscSender { queue: VecDeque::new() };
        proof {
            assert(sender@ =~= Seq::<Parcel>::empty());
        }
        sender
    }

    /// Puts `packet` for `addr` behind the packets that wait.
    pub fn send(&mut self, addr: Endpoint, packet: Arc<Vec<u8>>)
        ensures
            final(self)@ == old(self)@.push(Parcel { destination: addr, packet: packet@ }),
    {
        self.queue.push_back((addr, packet));
        proof {
            assert(self@ =~= old(self)@.push(Parcel { destination: addr, packet: packet@ }));
        }
    }

    /// Puts one packet for each of `destinations` behind the packets that
    /// wait, in the order of `destinations`, all with the same bytes. Where the
    /// message could not be put into bytes, `encoded` is nothing, and nothing is
    /// put in: a push goes out whole or not at all.
    pub fn send_to_all(&mut self, destinations: &Vec<Endpoint>, encoded: Option<Arc<Vec<u8>>>)
        ensures
            final(self)@ == old(self)@ + match encoded {
                Some(packet) => parcels(destinations@, packet@),
                None => Seq::empty(),
            },
    {
        match encoded {
            Some(packet) => {
                let mut i: usize = 0;
                proof {
                    assert(old(self)@ + parcels(destinations@.take(0), packet@) =~= old(self)@);
                }
                while i < destinations.len()
                    invariant
                        i <= destinations.len(),
                        self@ == old(self)@ + parcels(destinations@.take(i as int), packet@),
                    decreases destinations.len() - i,
                {
                    self.send(destinations[i], share(&packet));
                    proof {
                        assert(self@ =~= old(self)@ + parcels(
                            destinations@.take(i + 1),
                            packet@,
                        ));
                    }
                    i = i + 1;
                }
                proof {
                    assert(destinations@.take(i as int) =~= destinations@);
                }
            },
            None => {
                proof {
                    assert(old(self)@ + Seq::<Parcel>::empty() =~= old(self)@);
                }
            },
        }
    }

    /// Takes out the packet that has waited longest, or nothing where none
    /// waits.
    pub fn next(&mut self) -> (first: Option<(Endpoint, Arc<Vec<u8>>)>)
        ensures
            match first {
                Some((addr, packet)) => old(self)@.len() > 0 && old(self)@[0] == (Parcel {
                    destination: addr,
                    packet: packet@,
                }) && final(self)@ == old(self)@.drop_first(),
                None => old(self)@.len() == 0 && final(self)@ == old(self)@,
            },
    {
        let first = self.queue.pop_front();
        proof {
            if first is Some {
                assert(self@ =~= old(self)@.drop_first());
            }
        }
        first
    }

    /// The number of packets that wait.
    pub fn len(&self) -> (n: usize)
        ensures
            n == self@.len(),
    {
        self.queue.len()
    }
}

/// One parcel with the bytes of `packet` for each of `destinations`.
pub open spec fn parcels(destinations: Seq<Endpoint>, packet: Seq<u8>) -> Seq<Parcel> {
    destinations.map_values(|destination: Endpoint| Parcel { destination, packet })
}

/// `Arc::clone` of std: one more pointer to the same bytes.
#[verifier::external_body]
fn share(packet: &Arc<Vec<u8>>) -> (shared: Arc<Vec<u8>>)
    ensures
        shared@ == packet@,
{
    Arc::clone(packet)
}

/// What was put in comes out in the same order: after the packets of `sent`
/// were put behind those of `waiting`, one after the other, the first to come
/// out are those of `waiting`, and then those of `sent`, each in its place.
pub proof fn lemma_first_in_first_out(waiting: Seq<Parcel>, sent: Seq<Parcel>, k: int)
    requires
        0 <= k < waiting.len() + sent.len(),
    ensures
        drained(enqueued(waiting, sent), k as nat) == (waiting + sent).skip(k),
        drained(enqueued(waiting, sent), k as nat)[0] == if k < waiting.len() {
            waiting[k]
        } else {
            sent[k - waiting.len()]
        },
{
    lemma_enqueued(waiting, sent);
    lemma_drained(waiting + sent, k as nat);
}

/// The queue after the packets of `sent` were put in, one after the other.
pub open spec fn enqueued(waiting: Seq<Parcel>, sent: Seq<Parcel>) -> Seq<Parcel>
    decreases sent.len(),
{
    if sent.len() == 0 {
        waiting
    } else {
        enqueued(waiting, sent.drop_last()).push(sent.last())
    }
}

/// The queue after `n` packets were taken out.
pub open spec fn drained(waiting: Seq<Parcel>, n: nat) -> Seq<Parcel>
    decreases n,
{
    if n == 0 {
        waiting
    } else {
        drained(waiting, (n - 1) as nat).drop_first()
    }
}

/// Putting packets in one after the other puts all of them behind.
pub proof fn lemma_enqueued(waiting: Seq<Parcel>, sent: Seq<Parcel>)
    ensures
        enqueued(waiting, sent) == waiting + sent,
    decreases sent.len(),
{
    if sent.len() == 0 {
        assert(waiting + sent =~= waiting);
    } else {
        lemma_enqueued(waiting, sent.drop_last());
        assert((waiting + sent.drop_last()).push(sent.last()) =~= waiting + sent);
    }
}

/// Taking out `n` packets leaves what stands behind the first `n`.
pub proof fn lemma_drained(waiting: Seq<Parcel>, n: nat)
    requires
        n <= waiting.len(),
    ensures
        drained(waiting, n) == waiting.skip(n as int),
    decreases n,
{
    if n == 0 {
        assert(waiting.skip(0) =~= waiting);
    } else {
        lemma_drained(waiting, (n - 1) as nat);
        assert(waiting.skip(n - 1).drop_first() =~= waiting.skip(n as int));
    }
}

} // verus!
