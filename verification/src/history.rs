//! What a queue of commands makes of the hub, and what holds of it whatever
//! the queue.
//!
//! The dispatcher applies one command at a time. Here the commands of a whole
//! queue are applied in order, as ghost code, and the facts that hold of every
//! such run are proved: the palette is what was last set, identifiers only
//! grow, removing an unknown identifier changes nothing, and what one command
//! makes happen comes before what a later one does.

use vstd::prelude::*;

use crate::color::Color;
use crate::control::{Effect, Hub};
use crate::message::{Command, Event, SubscriberId};
use crate::subscriber::other_than;

verus! {

impl Hub {
    /// The state after the commands of `queue`, applied in order.
    pub open spec fn after(self, queue: Seq<Command>) -> Hub
        decreases queue.len(),
    {
        if queue.len() == 0 {
            self
        } else {
            self.after(queue.drop_last()).next(queue.last())
        }
    }

    /// All that the commands of `queue` make happen, in order.
    pub open spec fn trace(self, queue: Seq<Command>) -> Seq<Effect>
        decreases queue.len(),
    {
        if queue.len() == 0 {
            Seq::empty()
        } else {
            self.trace(queue.drop_last()) + self.after(queue.drop_last()).effects(queue.last())
        }
    }

    /// Whether each command of `queue` can be applied when its turn comes.
    pub open spec fn runs(self, queue: Seq<Command>) -> bool {
        forall|k: int| 0 <= k < queue.len() ==> (#[trigger] self.after(queue.take(k))).accepts(queue[k])
    }

    /// The place in the trace of `queue` where the effects of command `k`
    /// begin.
    pub open spec fn offset(self, queue: Seq<Command>, k: int) -> int {
        self.trace(queue.take(k)).len() as int
    }

    /// The identifier that command `k` of `queue` gives out, if it adds a
    /// subscriber.
    pub open spec fn issued(self, queue: Seq<Command>, k: int) -> SubscriberId {
        self.after(queue.take(k)).registry.next_id
    }
}

/// Reading the palette after setting it gives the colors that were set, as
/// they were: the state holds them, and a refresh reports them.
pub proof fn lemma_set_then_read(hub: Hub, colors: Seq<Color>)
    ensures
        hub.next(Command::SetPalette(colors)).palette == colors,
        hub.next(Command::SetPalette(colors)).effects(Command::Refresh)[0] == Effect::Broadcast(
            Event::PaletteSet(colors),
        ),
{
}

/// Removing an identifier that no subscriber has leaves the state as it was,
/// and is still reported.
pub proof fn lemma_remove_unknown(hub: Hub, id: SubscriberId)
    requires
        !hub.registry.knows(id),
    ensures
        hub.next(Command::RemoveSubscriber(id)) == hub,
        hub.effects(Command::RemoveSubscriber(id)) == seq![
            Effect::Broadcast(Event::SubscriberRemoved(id)),
        ],
{
    lemma_filter_all(hub.registry.subs, other_than(id));
}

/// After an identifier was removed, no subscriber has it.
pub proof fn lemma_removed_is_gone(hub: Hub, id: SubscriberId)
    ensures
        !hub.next(Command::RemoveSubscriber(id)).registry.knows(id),
{
    let kept = hub.registry.subs.filter(other_than(id));
    assert forall|i: int| 0 <= i < kept.len() implies kept[i].id != id by {
        hub.registry.subs.lemma_filter_pred(other_than(id), i);
    }
}

/// A filter that every item passes keeps the sequence as it is.
pub proof fn lemma_filter_all<A>(s: Seq<A>, pred: spec_fn(A) -> bool)
    requires
        forall|i: int| 0 <= i < s.len() ==> pred(#[trigger] s[i]),
    ensures
        s.filter(pred) == s,
    decreases s.len(),
{
    reveal(Seq::filter);
    if s.len() > 0 {
        let front = s.drop_last();
        assert forall|i: int| 0 <= i < front.len() implies pred(#[trigger] front[i]) by {
            assert(front[i] == s[i]);
        }
        lemma_filter_all(front, pred);
        assert(front.push(s.last()) =~= s);
    }
}

/// Every command keeps a well-formed state well-formed.
pub proof fn lemma_next_wf(hub: Hub, command: Command)
    requires
        hub.wf(),
        hub.accepts(command),
    ensures
        hub.next(command).wf(),
{
    match command {
        Command::RemoveSubscriber(id) => {
            crate::subscriber::lemma_filter_keeps_wf(hub.registry, id);
        },
        _ => {},
    }
}

/// The next identifier never falls, and rises with every adding.
pub proof fn lemma_next_id_grows(hub: Hub, command: Command)
    requires
        hub.accepts(command),
    ensures
        hub.registry.next_id.0 <= hub.next(command).registry.next_id.0,
        command is AddSubscriber ==> hub.registry.next_id.0 < hub.next(command).registry.next_id.0,
{
}

/// Taking one command more applies it to the state that the others left, and
/// puts its effects behind theirs.
pub proof fn lemma_step(hub: Hub, queue: Seq<Command>, k: int)
    requires
        0 <= k < queue.len(),
    ensures
        hub.after(queue.take(k + 1)) == hub.after(queue.take(k)).next(queue[k]),
        hub.trace(queue.take(k + 1)) == hub.trace(queue.take(k)) + hub.after(
            queue.take(k),
        ).effects(queue[k]),
{
    assert(queue.take(k + 1).drop_last() =~= queue.take(k));
    assert(queue.take(k + 1).last() == queue[k]);
}

/// A run that starts well-formed stays so, and its next identifier never
/// falls.
pub proof fn lemma_run(hub: Hub, queue: Seq<Command>, i: int, j: int)
    requires
        hub.wf(),
        hub.runs(queue),
        0 <= i <= j <= queue.len(),
    ensures
        hub.after(queue.take(j)).wf(),
        hub.issued(queue, i).0 <= hub.issued(queue, j).0,
    decreases j,
{
    if j == 0 {
        assert(queue.take(0) =~= Seq::<Command>::empty());
    } else {
        lemma_step(hub, queue, j - 1);
        if i < j {
            lemma_run(hub, queue, i, j - 1);
        } else {
            lemma_run(hub, queue, j - 1, j - 1);
        }
        let before = hub.after(queue.take(j - 1));
        assert(before.accepts(queue[j - 1]));
        lemma_next_wf(before, queue[j - 1]);
        lemma_next_id_grows(before, queue[j - 1]);
    }
}

/// The identifiers that successive addings give out grow strictly, whatever
/// commands stand between them; and the one given out is held by no subscriber
/// at that time.
pub proof fn lemma_identifiers_grow(hub: Hub, queue: Seq<Command>, i: int, j: int)
    requires
        hub.wf(),
        hub.runs(queue),
        0 <= i < j < queue.len(),
        queue[i] is AddSubscriber,
        queue[j] is AddSubscriber,
    ensures
        hub.issued(queue, i).0 < hub.issued(queue, j).0,
        !hub.after(queue.take(j)).registry.knows(hub.issued(queue, j)),
        hub.after(queue.take(i)).effects(queue[i])[1] matches Effect::Broadcast(
            Event::SubscriberAdded(sub),
        ) && sub.id == hub.issued(queue, i),
        hub.after(queue.take(j)).effects(queue[j])[1] matches Effect::Broadcast(
            Event::SubscriberAdded(sub),
        ) && sub.id == hub.issued(queue, j),
{
    lemma_run(hub, queue, i, i);
    lemma_step(hub, queue, i);
    let before = hub.after(queue.take(i));
    assert(before.accepts(queue[i]));
    lemma_next_id_grows(before, queue[i]);
    lemma_run(hub, queue, i + 1, j);
}

/// The trace of a part of the queue is the start of the trace of a longer
/// part.
pub proof fn lemma_trace_extends(hub: Hub, queue: Seq<Command>, i: int, j: int)
    requires
        0 <= i <= j <= queue.len(),
    ensures
        hub.offset(queue, i) <= hub.offset(queue, j),
        hub.trace(queue.take(j)).take(hub.offset(queue, i)) == hub.trace(queue.take(i)),
    decreases j - i,
{
    if i == j {
        assert(hub.trace(queue.take(j)).take(hub.offset(queue, i)) =~= hub.trace(queue.take(i)));
    } else {
        lemma_trace_extends(hub, queue, i, j - 1);
        lemma_step(hub, queue, j - 1);
        assert(hub.trace(queue.take(j)).take(hub.offset(queue, i)) =~= hub.trace(
            queue.take(j - 1),
        ).take(hub.offset(queue, i)));
    }
}

/// What an earlier command makes happen comes before what a later one does.
///
/// In the trace of the whole queue the effects of each command stand together,
/// as the dispatcher gave them, and the effects of command `i` end before those
/// of a later command `j` begin. So whoever receives the broadcasts in the order
/// of the trace receives the state changes of `i` before those of `j`.
pub proof fn lemma_effects_in_order(hub: Hub, queue: Seq<Command>, i: int, j: int)
    requires
        0 <= i < j < queue.len(),
    ensures
        0 <= hub.offset(queue, i) < hub.offset(queue, i + 1) <= hub.offset(queue, j)
            < hub.offset(queue, j + 1) <= hub.trace(queue).len(),
        hub.trace(queue).subrange(hub.offset(queue, i), hub.offset(queue, i + 1)) == hub.after(
            queue.take(i),
        ).effects(queue[i]),
        hub.trace(queue).subrange(hub.offset(queue, j), hub.offset(queue, j + 1)) == hub.after(
            queue.take(j),
        ).effects(queue[j]),
{
    assert(queue.take(queue.len() as int) =~= queue);
    lemma_effects_stand_together(hub, queue, i);
    lemma_effects_stand_together(hub, queue, j);
    lemma_trace_extends(hub, queue, i + 1, j);
}

/// In the trace of the whole queue the effects of command `k` stand together
/// at their offset, and there is at least one.
pub proof fn lemma_effects_stand_together(hub: Hub, queue: Seq<Command>, k: int)
    requires
        0 <= k < queue.len(),
    ensures
        0 <= hub.offset(queue, k) < hub.offset(queue, k + 1) <= hub.trace(queue).len(),
        hub.trace(queue).subrange(hub.offset(queue, k), hub.offset(queue, k + 1)) == hub.after(
            queue.take(k),
        ).effects(queue[k]),
{
    assert(queue.take(queue.len() as int) =~= queue);
    lemma_step(hub, queue, k);
    lemma_trace_extends(hub, queue, k + 1, queue.len() as int);
    let whole = hub.trace(queue);
    let upto = hub.trace(queue.take(k + 1));
    let block = hub.after(queue.take(k)).effects(queue[k]);
    assert(block.len() >= 1);
    assert(whole.take(hub.offset(queue, k + 1)) == upto);
    assert(whole.subrange(hub.offset(queue, k), hub.offset(queue, k + 1)) =~= upto.subrange(
        hub.offset(queue, k),
        hub.offset(queue, k + 1),
    ));
    assert(upto.subrange(hub.offset(queue, k), hub.offset(queue, k + 1)) =~= block);
}

} // verus!
