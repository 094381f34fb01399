//! Laws of the subscription registry: joining twice is joining once, leaving undoes
//! joining, channels do not disturb each other, no channel outlives its listeners, and a
//! published message goes to each of them once.

use vstd::prelude::*;

use crate::domain::channels;
use crate::domain::channels::{Listeners, Registry};
use crate::domain::queue;
use crate::domain::queue::{Inlet, Outlet};

verus! {

/// Joining a channel twice is joining it once, and the last outlet counts.
pub proof fn joining_twice_is_once(
    m: Registry,
    channel: Seq<u8>,
    id: u32,
    first: Outlet,
    second: Outlet,
)
    ensures
        channels::joined(channels::joined(m, channel, id, first), channel, id, second)
            == channels::joined(m, channel, id, second),
{
    let who = channels::listeners(m, channel);
    assert(who.insert(id, first).dom().contains(id));
    assert(who.insert(id, second).dom().contains(id));
    assert(who.insert(id, first).insert(id, second) =~= who.insert(id, second));
    assert(channels::joined(channels::joined(m, channel, id, first), channel, id, second)
        =~= channels::joined(m, channel, id, second));
}

/// After joining, the session listens on the channel through its own queue, and everyone
/// who listened there before still does.
pub proof fn joined_listens(m: Registry, channel: Seq<u8>, id: u32, outlet: Outlet)
    ensures
        channels::listeners(channels::joined(m, channel, id, outlet), channel)
            == channels::listeners(m, channel).insert(id, outlet),
{
    let who = channels::listeners(m, channel).insert(id, outlet);
    assert(who.dom().contains(id));
}

/// After leaving, the session does not listen on the channel, and everyone else still does.
pub proof fn departed_does_not_listen(m: Registry, channel: Seq<u8>, id: u32)
    ensures
        channels::listeners(channels::departed(m, channel, id), channel) == channels::listeners(
            m,
            channel,
        ).remove(id),
{
}

/// Leaving undoes joining: where the session did not listen before, the registry is what
/// it was.
pub proof fn leaving_undoes_joining(m: Registry, channel: Seq<u8>, id: u32, outlet: Outlet)
    requires
        channels::all_live(m),
        !channels::listeners(m, channel).dom().contains(id),
    ensures
        channels::departed(channels::joined(m, channel, id, outlet), channel, id) == m,
{
    joined_listens(m, channel, id, outlet);
    let who = channels::listeners(m, channel);
    assert(who.insert(id, outlet).remove(id) =~= who);
    assert(channels::departed(channels::joined(m, channel, id, outlet), channel, id) =~= m);
}

/// Leaving a channel that the session does not listen on changes nothing.
pub proof fn leaving_unjoined_is_nothing(m: Registry, channel: Seq<u8>, id: u32)
    requires
        channels::all_live(m),
        !channels::listeners(m, channel).dom().contains(id),
    ensures
        channels::departed(m, channel, id) == m,
{
    let who = channels::listeners(m, channel);
    assert(who.remove(id) =~= who);
    assert(channels::departed(m, channel, id) =~= m);
}

/// Setting who listens on one channel leaves the others alone.
pub proof fn other_channels_stay(m: Registry, channel: Seq<u8>, who: Listeners, other: Seq<u8>)
    requires
        other != channel,
    ensures
        channels::listeners(channels::with_listeners(m, channel, who), other)
            == channels::listeners(m, other),
{
}

/// No operation leaves a channel without listeners in the registry.
pub proof fn channels_stay_live(m: Registry, channel: Seq<u8>, who: Listeners)
    requires
        channels::all_live(m),
    ensures
        channels::all_live(channels::with_listeners(m, channel, who)),
{
}

/// A message that reaches everyone changes nothing in the registry.
pub proof fn reaching_all_prunes_nobody(m: Registry, channel: Seq<u8>)
    requires
        channels::all_live(m),
    ensures
        channels::pruned(m, channel, channels::listeners(m, channel).dom()) == m,
{
    let who = channels::listeners(m, channel);
    assert(who.restrict(who.dom()) =~= who);
    assert(channels::pruned(m, channel, who.dom()) =~= m);
}

/// Publishing prunes and does nothing else: nobody listens afterwards who did not before,
/// nobody listens through another queue, and other channels stay as they are.
pub proof fn publishing_only_prunes(
    before: Registry,
    channel: Seq<u8>,
    message: Seq<u8>,
    after: Registry,
    count: u32,
)
    requires
        channels::fanned_out(before, channel, message, after, count),
    ensures
        channels::listeners(after, channel).dom().subset_of(
            channels::listeners(before, channel).dom(),
        ),
        forall|id: u32| #[trigger]
            channels::listeners(after, channel).dom().contains(id) ==> channels::listeners(
                after,
                channel,
            )[id].line == channels::listeners(before, channel)[id].line,
        forall|other: Seq<u8>|
            other != channel ==> #[trigger] channels::listeners(after, other)
                == channels::listeners(before, other),
{
    assert forall|id: u32| #[trigger]
        channels::listeners(after, channel).dom().contains(id) implies channels::listeners(
        after,
        channel,
    )[id].line == channels::listeners(before, channel)[id].line by {
        assert(channels::listeners(before, channel).dom().contains(id));
    }
}

/// A published message is handed once to each listener: to those who stay it went in under
/// one number, unchanged, and nothing else went in with it.
pub proof fn published_once_to_each(
    before: Registry,
    channel: Seq<u8>,
    message: Seq<u8>,
    after: Registry,
    count: u32,
    id: u32,
)
    requires
        channels::fanned_out(before, channel, message, after, count),
        channels::listeners(after, channel).dom().contains(id),
    ensures
        ({
            let was = channels::listeners(before, channel)[id];
            let is = channels::listeners(after, channel)[id];
            &&& is.handed.len() == was.handed.len() + 1
            &&& is.handed.drop_last() == was.handed
            &&& is.handed.last().0 == message
            &&& is.handed.last().1 is Some
        }),
{
    assert(channels::listeners(before, channel).dom().contains(id));
    let was = channels::listeners(before, channel)[id];
    let is = channels::listeners(after, channel)[id];
    assert(was.took(message, is));
    assert(is.handed.drop_last() =~= was.handed);
}

/// What a listener's receiver takes out under the number of a published message is that
/// message.
pub proof fn published_message_comes_out(
    before: Registry,
    channel: Seq<u8>,
    message: Seq<u8>,
    after: Registry,
    count: u32,
    id: u32,
    inlet: Inlet,
    received: Seq<u8>,
    inlet_after: Inlet,
)
    requires
        channels::fanned_out(before, channel, message, after, count),
        channels::listeners(after, channel).dom().contains(id),
        inlet.line == channels::listeners(before, channel)[id].line,
        channels::listeners(after, channel)[id].handed.last().1 == Some(inlet.taken),
        inlet.gave(received, inlet_after),
    ensures
        received == message,
{
    assert(channels::listeners(before, channel).dom().contains(id));
    let was = channels::listeners(before, channel)[id];
    let is = channels::listeners(after, channel)[id];
    assert(was.took(message, is));
}

/// Who listens on a channel is whom the registry holds under it, and nobody where it holds
/// nothing.
pub proof fn the_registry_holds_the_listeners(m: Registry, channel: Seq<u8>)
    ensures
        m.dom().contains(channel) ==> channels::listeners(m, channel) == m[channel],
        !m.dom().contains(channel) ==> channels::listeners(m, channel) == Map::<
            u32,
            Outlet,
        >::empty(),
{
}

/// Joining puts one session on one channel, through its own outlet, and changes nothing else.
pub proof fn joining_adds_one_listener(m: Registry, channel: Seq<u8>, id: u32, outlet: Outlet)
    ensures
        ({
            let after = channels::joined(m, channel, id, outlet);
            &&& after.dom().contains(channel)
            &&& after[channel].dom().contains(id)
            &&& after[channel][id] == outlet
            &&& m.dom().contains(channel) ==> after[channel].remove(id) == m[channel].remove(id)
            &&& !m.dom().contains(channel) ==> after[channel].dom() == set![id]
            &&& after.remove(channel) == m.remove(channel)
        }),
{
    let was = channels::listeners(m, channel);
    let now = was.insert(id, outlet);
    let after = channels::joined(m, channel, id, outlet);
    assert(now.dom().contains(id));
    assert(now.remove(id) =~= was.remove(id));
    assert(after.remove(channel) =~= m.remove(channel));
    if !m.dom().contains(channel) {
        assert(now.dom() =~= set![id]);
    }
}

/// Leaving takes one session off one channel and changes nothing else; a channel that nobody
/// is left on is gone.
pub proof fn leaving_takes_one_listener(m: Registry, channel: Seq<u8>, id: u32)
    requires
        channels::all_live(m),
    ensures
        ({
            let after = channels::departed(m, channel, id);
            &&& after.dom().contains(channel) == (m.dom().contains(channel)
                && m[channel].remove(id) != Map::<u32, Outlet>::empty())
            &&& after.dom().contains(channel) ==> after[channel] == m[channel].remove(id)
            &&& after.remove(channel) == m.remove(channel)
        }),
{
    let after = channels::departed(m, channel, id);
    assert(Map::<u32, Outlet>::empty().remove(id) =~= Map::<u32, Outlet>::empty());
    assert(after.remove(channel) =~= m.remove(channel));
}

/// Noting whom a message reached keeps them on the channel, as they are, and nobody else.
pub proof fn pruning_keeps_who_was_reached(m: Registry, channel: Seq<u8>, reached: Set<u32>, id: u32)
    ensures
        ({
            let was = channels::listeners(m, channel);
            let after = channels::pruned(m, channel, reached);
            let left = channels::listeners(after, channel);
            &&& left.dom().contains(id) == (was.dom().contains(id) && reached.contains(id))
            &&& left.dom().contains(id) ==> left[id] == was[id]
            &&& after.remove(channel) == m.remove(channel)
        }),
{
    let kept = channels::listeners(m, channel).restrict(reached);
    let after = channels::pruned(m, channel, reached);
    assert(after.remove(channel) =~= m.remove(channel));
    if kept == Map::<u32, Outlet>::empty() {
        assert(!kept.dom().contains(id));
    }
}

/// A count is what it counts, up to the largest number it can be.
pub proof fn counts_count(n: nat)
    ensures
        n <= u32::MAX ==> channels::count_of(n) == n,
        n > u32::MAX ==> channels::count_of(n) == u32::MAX,
{
}

/// Publishing goes to everyone on the channel and to no other channel: whoever listened there
/// either got the message, as it is, and listens on, or was refused by a queue that is gone,
/// and is dropped. The count is how many got it.
pub proof fn publishing_reaches_everyone_on_the_channel(
    before: Registry,
    channel: Seq<u8>,
    message: Seq<u8>,
    after: Registry,
    count: u32,
    id: u32,
)
    requires
        channels::fanned_out(before, channel, message, after, count),
    ensures
        ({
            let listened = before.dom().contains(channel) && before[channel].dom().contains(id);
            let listens = after.dom().contains(channel) && after[channel].dom().contains(id);
            &&& listens ==> listened
            &&& listens ==> {
                let (was, is) = (before[channel][id], after[channel][id]);
                &&& is.line == was.line
                &&& is.handed.len() == was.handed.len() + 1
                &&& is.handed.drop_last() == was.handed
                &&& is.handed.last().0 == message
                &&& is.handed.last().1 matches Some(n) && was.line.dom().contains(n) && was.line[n]
                    == message
            }
            &&& listened && !listens ==> queue::was_declined(before[channel][id], message)
        }),
        after.remove(channel) == before.remove(channel),
        after.dom().contains(channel) && after[channel].dom().len() <= u32::MAX ==> count
            == after[channel].dom().len(),
        after.dom().contains(channel) && after[channel].dom().len() > u32::MAX ==> count
            == u32::MAX,
        !after.dom().contains(channel) ==> count == 0,
{
    let was = channels::listeners(before, channel);
    let left = channels::listeners(after, channel);
    assert(after.remove(channel) =~= before.remove(channel));
    if left.dom().contains(id) {
        assert(was.dom().contains(id));
        assert(was[id].took(message, left[id]));
        assert(left[id].handed.drop_last() =~= was[id].handed);
    }
    if was.dom().contains(id) {
        assert(left.dom().contains(id) || queue::was_declined(was[id], message));
    }
    if !after.dom().contains(channel) {
        assert(left.dom() =~= Set::<u32>::empty());
    }
}

} // verus!
