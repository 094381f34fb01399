//! Laws of a session: what it listens on is what it has joined, leaving everything leaves
//! nothing behind, a refused request is answered with one line, how the bytes of a request
//! are cut up on their way makes no difference, and what one half sends the other receives.

use vstd::prelude::*;

use crate::bytes;
use crate::domain::channels;
use crate::domain::channels_laws;
use crate::domain::command::channel::{ChannelCommandOutcomeView, ChannelCommandView};
use crate::domain::command::{Command, CommandView};
use crate::domain::ports::CacheService;
use crate::domain::queue;
use crate::domain::queue::{Inlet, Line, Outlet};
use crate::domain::time;
use crate::domain::time::Reading;
use crate::inbound::reply_laws;
use crate::inbound::session;
use crate::inbound::session::{
    CommandStep, CommandStepView, FrameStep, Membership, ReadHalf, ReadHalfError, Turn,
};
use crate::resp::command as parser;
use crate::resp::command::CommandFromFrameError;
use crate::resp::crlf;
use crate::resp::frame;
use crate::resp::frame::{Frame, FrameError, FrameView};
use crate::resp::frame_laws;
use crate::resp::reply;
use crate::resp::reply::ReplyView;

verus! {

/// Session `id` listens on `channel`.
pub open spec fn listens(m: Membership, id: u32, channel: Seq<u8>) -> bool {
    channels::listeners(m.registry, channel).dom().contains(id)
}

/// Session `id` listens only on channels that it has joined.
pub open spec fn listens_where_joined(m: Membership, id: u32) -> bool {
    forall|channel: Seq<u8>| #[trigger] listens(m, id, channel) ==> m.joined.contains(channel)
}

/// What `id` has joined once it has joined `names`, too.
pub proof fn joining_adds_the_names(
    m: Membership,
    id: u32,
    line: Line,
    names: Seq<Seq<u8>>,
)
    ensures
        session::join_all(m, id, line, names).joined == m.joined.union(names.to_set()),
    decreases names.len(),
{
    if names.len() == 0 {
        assert(m.joined.union(names.to_set()) =~= m.joined);
    } else {
        let front = names.drop_last();
        joining_adds_the_names(m, id, line, front);
        assert forall|name: Seq<u8>| names.to_set().contains(name) == (front.to_set().contains(name)
            || name == names.last()) by {
            last_or_before(names, name);
        }
        assert(m.joined.union(names.to_set()) =~= m.joined.union(front.to_set()).insert(
            names.last(),
        ));
    }
}

/// What `id` has joined once it has left `names`.
pub proof fn leaving_takes_the_names_away(m: Membership, id: u32, names: Seq<Seq<u8>>)
    ensures
        session::leave_all(m, id, names).joined == m.joined.difference(names.to_set()),
    decreases names.len(),
{
    if names.len() == 0 {
        assert(m.joined.difference(names.to_set()) =~= m.joined);
    } else {
        let front = names.drop_last();
        leaving_takes_the_names_away(m, id, front);
        assert forall|name: Seq<u8>| names.to_set().contains(name) == (front.to_set().contains(name)
            || name == names.last()) by {
            last_or_before(names, name);
        }
        assert(m.joined.difference(names.to_set()) =~= m.joined.difference(front.to_set()).remove(
            names.last(),
        ));
    }
}

proof fn last_or_before(names: Seq<Seq<u8>>, name: Seq<u8>)
    requires
        names.len() > 0,
    ensures
        names.contains(name) == (names.drop_last().contains(name) || name == names.last()),
{
    let front = names.drop_last();
    if names.contains(name) {
        let i = choose|i: int| 0 <= i < names.len() && names[i] == name;
        if i < front.len() {
            assert(front[i] == name);
        }
    }
    if front.contains(name) {
        let i = choose|i: int| 0 <= i < front.len() && front[i] == name;
        assert(names[i] == name);
    }
}

/// Joining a channel again does not climb the count; joining a new one climbs it by one.
pub proof fn joining_again_does_not_climb(
    m: Membership,
    id: u32,
    line: Line,
    channel: Seq<u8>,
)
    requires
        m.joined.finite(),
    ensures
        session::join(m, id, line, channel).joined.len() == m.joined.len() + if m.joined.contains(
            channel,
        ) {
            0int
        } else {
            1
        },
{
    if m.joined.contains(channel) {
        assert(m.joined.insert(channel) =~= m.joined);
    }
}

/// Who listens where once `id` has joined `names`: `id` on each of them, and everyone else
/// where they did.
pub proof fn joining_listens_on_the_names(
    m: Membership,
    id: u32,
    line: Line,
    names: Seq<Seq<u8>>,
    channel: Seq<u8>,
)
    ensures
        channels::listeners(session::join_all(m, id, line, names).registry, channel) == (
        if names.contains(channel) {
            channels::listeners(m.registry, channel).insert(id, queue::fresh_outlet(line))
        } else {
            channels::listeners(m.registry, channel)
        }),
    decreases names.len(),
{
    if names.len() > 0 {
        let front = names.drop_last();
        let before = session::join_all(m, id, line, front).registry;
        joining_listens_on_the_names(m, id, line, front, channel);
        last_or_before(names, channel);
        let outlet = queue::fresh_outlet(line);
        channels_laws::joined_listens(before, names.last(), id, outlet);
        let who = channels::listeners(m.registry, channel);
        assert(who.insert(id, outlet).insert(id, outlet) =~= who.insert(id, outlet));
        if channel != names.last() {
            channels_laws::other_channels_stay(
                before,
                names.last(),
                channels::listeners(before, names.last()).insert(id, outlet),
                channel,
            );
        }
    }
}

/// Who listens where once `id` has left `names`: `id` on none of them, and everyone else
/// where they did.
pub proof fn leaving_stops_listening_on_the_names(
    m: Membership,
    id: u32,
    names: Seq<Seq<u8>>,
    channel: Seq<u8>,
)
    ensures
        channels::listeners(session::leave_all(m, id, names).registry, channel) == (
        if names.contains(channel) {
            channels::listeners(m.registry, channel).remove(id)
        } else {
            channels::listeners(m.registry, channel)
        }),
    decreases names.len(),
{
    if names.len() > 0 {
        let front = names.drop_last();
        let before = session::leave_all(m, id, front).registry;
        leaving_stops_listening_on_the_names(m, id, front, channel);
        last_or_before(names, channel);
        channels_laws::departed_does_not_listen(before, names.last(), id);
        let who = channels::listeners(m.registry, channel);
        assert(who.remove(id).remove(id) =~= who.remove(id));
        if channel != names.last() {
            channels_laws::other_channels_stay(
                before,
                names.last(),
                channels::listeners(before, names.last()).remove(id),
                channel,
            );
        }
    }
}

/// A session only ever listens where it has joined, whatever pub/sub command it runs.
pub proof fn commands_keep_listening_where_joined(
    before: Membership,
    id: u32,
    line: Line,
    listed: Seq<Seq<u8>>,
    c: ChannelCommandView,
    after: Membership,
    outcome: ChannelCommandOutcomeView,
)
    requires
        listens_where_joined(before, id),
        session::channel_command_done(before, id, line, listed, c, after, outcome),
    ensures
        listens_where_joined(after, id),
{
    assert forall|channel: Seq<u8>| #[trigger] listens(
        after,
        id,
        channel,
    ) implies after.joined.contains(channel) by {
        assert(listens(before, id, channel) ==> before.joined.contains(channel));
        match c {
            ChannelCommandView::Subscribe { channel_ids } => {
                joining_adds_the_names(before, id, line, channel_ids);
                joining_listens_on_the_names(before, id, line, channel_ids, channel);
            },
            ChannelCommandView::Unsubscribe { channel_ids } => {
                let targets = if channel_ids.len() == 0 {
                    listed
                } else {
                    channel_ids
                };
                leaving_takes_the_names_away(before, id, targets);
                leaving_stops_listening_on_the_names(before, id, targets, channel);
            },
            ChannelCommandView::Publish { channel_id, message } => {
                let push = reply::encode(session::push_message(channel_id, message));
                let count = choose|count: u32| #[trigger]
                    channels::fanned_out(
                        before.registry,
                        channel_id,
                        push,
                        after.registry,
                        count,
                    );
                channels_laws::publishing_only_prunes(
                    before.registry,
                    channel_id,
                    push,
                    after.registry,
                    count,
                );
            },
        }
    }
}

/// Leaving everything leaves nothing: once a session has left all it had joined, it has
/// joined no channel and listens on none.
pub proof fn leaving_everything_leaves_nothing(m: Membership, id: u32, listed: Seq<Seq<u8>>)
    requires
        listens_where_joined(m, id),
        m.joined == listed.to_set(),
    ensures
        session::leave_all(m, id, listed).joined == Set::<Seq<u8>>::empty(),
        forall|channel: Seq<u8>| !#[trigger] listens(session::leave_all(m, id, listed), id, channel),
{
    leaving_takes_the_names_away(m, id, listed);
    assert(m.joined.difference(listed.to_set()) =~= Set::<Seq<u8>>::empty());
    assert forall|channel: Seq<u8>| !#[trigger] listens(
        session::leave_all(m, id, listed),
        id,
        channel,
    ) by {
        assert(listens(m, id, channel) ==> m.joined.contains(channel));
        leaving_stops_listening_on_the_names(m, id, listed, channel);
    }
}

/// Whatever a session joins or leaves, the others listen where they did.
pub proof fn others_are_not_disturbed(
    m: Membership,
    id: u32,
    line: Line,
    names: Seq<Seq<u8>>,
    other: u32,
    channel: Seq<u8>,
)
    requires
        other != id,
    ensures
        listens(session::join_all(m, id, line, names), other, channel) == listens(
            m,
            other,
            channel,
        ),
        listens(session::leave_all(m, id, names), other, channel) == listens(m, other, channel),
{
    joining_listens_on_the_names(m, id, line, names, channel);
    leaving_stops_listening_on_the_names(m, id, names, channel);
}

/// A refused request is answered with one line that starts with `-ERR `, whatever the
/// reason holds: the first line end in the answer is its own.
pub proof fn refusal_is_one_line(reason: Seq<u8>, rest: Seq<u8>)
    ensures
        crlf::split(reply::encode(session::refusal(reason)) + rest) == Some(
            (seq![reply::ERROR_SIGIL] + bytes::text("ERR "@) + reply::stripped(reason), rest),
        ),
{
    let word = bytes::text("ERR "@);
    reply::sanitizing_makes_a_line(word + reason);
    reply::simple_reply_is_one_line(reply::ERROR_SIGIL, reply::stripped(word + reason), rest);
    reveal_strlit("ERR ");
    bytes::ascii_text("ERR "@);
    assert forall|i: int| 0 <= i < word.len() implies reply::is_plain(#[trigger] word[i]) by {
        let c = "ERR "@[i];
        assert(c == 'E' || c == 'R' || c == ' ');
    }
    reply::sanitizing_makes_a_line(word);
    assert(reply::stripped(word + reason) =~= word + reply::stripped(reason)) by {
        Seq::filter_distributes_over_add(word, reason, |b: u8| reply::is_plain(b));
    }
    assert(seq![reply::ERROR_SIGIL] + (word + reply::stripped(reason)) =~= seq![
        reply::ERROR_SIGIL,
    ] + word + reply::stripped(reason));
}

/// What has been decided of the front of the buffer does not change when more bytes
/// arrive, and they are kept: a request is answered the same however its bytes are cut up.
pub proof fn later_bytes_change_no_answer(
    s: Seq<u8>,
    more: Seq<u8>,
    clock: Reading,
)
    requires
        session::next_step(s, clock) !is NeedMore,
    ensures
        session::next_step(s + more, clock) == session::next_step(s, clock),
        frame::streamed(s) is Ok ==> session::buffer_after(s + more) == session::buffer_after(s)
            + more,
{
    frame_laws::streaming_is_stable(s, more);
}

/// A request whose bytes have come in only in part is waited for, and nothing of it is
/// lost; once whole, it is answered, and what follows it is kept.
pub proof fn partial_request_is_waited_for(
    f: FrameView,
    at: int,
    rest: Seq<u8>,
    clock: Reading,
)
    requires
        frame::fits(f),
        0 <= at < frame::encode(f).len(),
    ensures
        session::next_step(frame::encode(f).take(at), clock) is NeedMore,
        session::buffer_after(frame::encode(f).take(at)) == frame::encode(f).take(at),
        session::next_step(frame::encode(f) + rest, clock) == (match parser::command_of(f, clock) {
            Ok(c) => CommandStepView::Ready(c),
            Err(e) => CommandStepView::Refused(session::refusal(e.spec_message())),
        }),
        session::buffer_after(frame::encode(f) + rest) == rest,
{
    frame_laws::cut_frame_is_incomplete(f, at);
    frame_laws::streaming_undoes_encode(f, rest);
}

/// `SUBSCRIBE` joins every channel named and no other: the session has joined them all, and
/// listens on each through its own queue, while everyone else listens where they did. Each
/// name is acknowledged, in order, with how many channels the session has joined by then.
pub proof fn subscribing_joins_every_name(
    before: Membership,
    id: u32,
    line: Line,
    listed: Seq<Seq<u8>>,
    names: Seq<Seq<u8>>,
    after: Membership,
    outcome: ChannelCommandOutcomeView,
    channel: Seq<u8>,
    i: int,
)
    requires
        session::channel_command_done(
            before,
            id,
            line,
            listed,
            ChannelCommandView::Subscribe { channel_ids: names },
            after,
            outcome,
        ),
    ensures
        after.joined.contains(channel) == (before.joined.contains(channel) || names.contains(
            channel,
        )),
        channels::listeners(after.registry, channel) == (if names.contains(channel) {
            channels::listeners(before.registry, channel).insert(
                id,
                Outlet { line, handed: Seq::empty() },
            )
        } else {
            channels::listeners(before.registry, channel)
        }),
        outcome matches ChannelCommandOutcomeView::Subscribe { inner } && inner.len() == names.len()
            && (0 <= i < names.len() ==> {
            &&& inner[i].channel_id == Some(names[i])
            &&& inner[i].subscription_count == before.joined.union(
                names.take(i + 1).to_set(),
            ).len()
        }),
{
    joining_adds_the_names(before, id, line, names);
    joining_listens_on_the_names(before, id, line, names, channel);
    if 0 <= i < names.len() {
        joining_adds_the_names(before, id, line, names.take(i + 1));
    }
}

/// `UNSUBSCRIBE` leaves every channel named and no other, or every one that the session has
/// joined where none is named: the session has joined and listens on none of them any more,
/// while everyone else listens where they did. Each name is acknowledged, in order, with how
/// many channels the session is still in by then; where there was nothing to leave, that is
/// acknowledged once, without a name.
pub proof fn unsubscribing_leaves_every_name(
    before: Membership,
    id: u32,
    line: Line,
    listed: Seq<Seq<u8>>,
    names: Seq<Seq<u8>>,
    after: Membership,
    outcome: ChannelCommandOutcomeView,
    channel: Seq<u8>,
    i: int,
)
    requires
        session::channel_command_done(
            before,
            id,
            line,
            listed,
            ChannelCommandView::Unsubscribe { channel_ids: names },
            after,
            outcome,
        ),
    ensures
        ({
            let targets = if names.len() > 0 {
                names
            } else {
                listed
            };
            &&& after.joined.contains(channel) == (before.joined.contains(channel)
                && !targets.contains(channel))
            &&& channels::listeners(after.registry, channel) == (if targets.contains(channel) {
                channels::listeners(before.registry, channel).remove(id)
            } else {
                channels::listeners(before.registry, channel)
            })
            &&& outcome matches ChannelCommandOutcomeView::Unsubscribe { inner }
            &&& targets.len() > 0 ==> inner.len() == targets.len()
            &&& 0 <= i < targets.len() ==> inner[i].channel_id == Some(targets[i])
                && inner[i].subscription_count == before.joined.difference(
                targets.take(i + 1).to_set(),
            ).len()
            &&& targets.len() == 0 ==> inner.len() == 1 && inner[0].channel_id is None
                && inner[0].subscription_count == before.joined.len()
        }),
{
    let targets = if names.len() > 0 {
        names
    } else {
        listed
    };
    leaving_takes_the_names_away(before, id, targets);
    leaving_stops_listening_on_the_names(before, id, targets, channel);
    if 0 <= i < targets.len() {
        leaving_takes_the_names_away(before, id, targets.take(i + 1));
    }
}

/// The bytes of the push of a payload on a channel: `message`, the channel and the payload,
/// as an array of bulk strings.
pub open spec fn pushed(channel: Seq<u8>, payload: Seq<u8>) -> Seq<u8> {
    reply::encode(
        ReplyView::Array(
            seq![
                ReplyView::BulkString(seq![109u8, 101, 115, 115, 97, 103, 101]),
                ReplyView::BulkString(channel),
                ReplyView::BulkString(payload),
            ],
        ),
    )
}

/// `PUBLISH` hands everyone on the channel the push of that channel and payload, leaves what
/// the session has joined alone, and is acknowledged with how many got it.
pub proof fn publishing_pushes_to_the_channel(
    before: Membership,
    id: u32,
    line: Line,
    listed: Seq<Seq<u8>>,
    channel: Seq<u8>,
    message: Seq<u8>,
    after: Membership,
    outcome: ChannelCommandOutcomeView,
)
    requires
        session::channel_command_done(
            before,
            id,
            line,
            listed,
            ChannelCommandView::Publish { channel_id: channel, message },
            after,
            outcome,
        ),
    ensures
        after.joined == before.joined,
        exists|count: u32|
            {
                &&& #[trigger] channels::fanned_out(
                    before.registry,
                    channel,
                    pushed(channel, message),
                    after.registry,
                    count,
                )
                &&& outcome == (ChannelCommandOutcomeView::Publish { sent_count: count as nat })
            },
{
    reply_laws::pushes_carry_channel_and_payload(channel, message);
    let push = reply::encode(session::push_message(channel, message));
    assert(push == pushed(channel, message));
    let count = choose|count: u32|
        {
            &&& #[trigger] channels::fanned_out(
                before.registry,
                channel,
                push,
                after.registry,
                count,
            )
            &&& outcome == (ChannelCommandOutcomeView::Publish { sent_count: count as nat })
        };
    assert(channels::fanned_out(
        before.registry,
        channel,
        pushed(channel, message),
        after.registry,
        count,
    ));
}

/// What a session makes of its buffer: a whole request is read and taken out, and what stands
/// behind it is kept; a request that is still coming in is waited for, and nothing is lost;
/// anything else is refused, and takes everything that came with it along.
pub proof fn requests_are_taken_out_one_by_one(s: Seq<u8>, clock: Reading)
    ensures
        match frame::streamed(s) {
            Ok((f, rest)) => {
                &&& session::buffer_after(s) == rest
                &&& match parser::command_of(f, clock) {
                    Ok(c) => session::next_step(s, clock) == CommandStepView::Ready(c),
                    Err(e) => session::next_step(s, clock) == CommandStepView::Refused(
                        session::refusal(e.spec_message()),
                    ),
                }
            },
            Err(e) => if e == FrameError::Incomplete {
                &&& session::buffer_after(s) == s
                &&& session::next_step(s, clock) is NeedMore
            } else {
                &&& session::buffer_after(s) == Seq::<u8>::empty()
                &&& session::next_step(s, clock) == CommandStepView::Refused(
                    session::refusal(e.spec_message()),
                )
            },
        },
{
}

/// `messages` went into the queue one after the other, each once and each taken.
pub open spec fn sent_all(from: Outlet, messages: Seq<Seq<u8>>, to: Outlet) -> bool
    decreases messages.len(),
{
    if messages.len() == 0 {
        from == to
    } else {
        exists|mid: Outlet|
            sent_all(from, messages.drop_last(), mid) && #[trigger] mid.took(messages.last(), to)
    }
}

/// `messages` came out of the queue one after the other.
pub open spec fn received_all(from: Inlet, messages: Seq<Seq<u8>>, to: Inlet) -> bool
    decreases messages.len(),
{
    if messages.len() == 0 {
        from == to
    } else {
        exists|mid: Inlet|
            received_all(from, messages.drop_last(), mid) && #[trigger] mid.gave(
                messages.last(),
                to,
            )
    }
}

/// The number that the `i`th message handed over here got.
pub open spec fn number(outlet: Outlet, i: int) -> nat {
    outlet.handed[i].1->Some_0
}

/// Everything that the queue carries went in through `outlet`.
pub open spec fn feeds_alone(outlet: Outlet) -> bool {
    forall|n: nat| #[trigger]
        outlet.line.dom().contains(n) ==> exists|i: int|
            0 <= i < outlet.handed.len() && (#[trigger] outlet.handed[i]).1 == Some(n)
}

/// Where the messages that were sent stand in line.
proof fn sent_stand_in_line(line: Line, sent: Seq<Seq<u8>>, outlet: Outlet)
    requires
        sent_all(queue::fresh_outlet(line), sent, outlet),
    ensures
        outlet.line == line,
        outlet.handed.len() == sent.len(),
        forall|i: int|
            0 <= i < sent.len() ==> {
                &&& (#[trigger] outlet.handed[i]).1 is Some
                &&& line.dom().contains(number(outlet, i))
                &&& line[number(outlet, i)] == sent[i]
            },
        forall|i: int, j: int|
            0 <= i < j < sent.len() ==> #[trigger] number(outlet, i) < #[trigger] number(
                outlet,
                j,
            ),
    decreases sent.len(),
{
    if sent.len() > 0 {
        let front = sent.drop_last();
        let mid = choose|mid: Outlet|
            sent_all(queue::fresh_outlet(line), front, mid) && #[trigger] mid.took(
                sent.last(),
                outlet,
            );
        sent_stand_in_line(line, front, mid);
        let last = sent.len() - 1;
        assert forall|i: int| 0 <= i < last implies #[trigger] outlet.handed[i] == mid.handed[i] by {}
        assert forall|i: int, j: int| 0 <= i < j < sent.len() implies #[trigger] number(outlet, i)
            < #[trigger] number(outlet, j) by {
            assert(outlet.handed[i] == mid.handed[i]);
            if j < last {
                assert(outlet.handed[j] == mid.handed[j]);
                assert(number(mid, i) < number(mid, j));
            } else {
                assert(mid.handed[i].1 is Some);
            }
        }
    }
}

/// Where the messages that were received stood in line.
proof fn received_stood_in_line(line: Line, received: Seq<Seq<u8>>, inlet: Inlet)
    requires
        received_all(queue::fresh_inlet(line), received, inlet),
    ensures
        inlet.line == line,
        inlet.taken == received.len(),
        forall|i: nat|
            i < received.len() ==> #[trigger] line.dom().contains(i) && line[i] == received[i as int],
    decreases received.len(),
{
    if received.len() > 0 {
        let front = received.drop_last();
        let mid = choose|mid: Inlet|
            received_all(queue::fresh_inlet(line), front, mid) && #[trigger] mid.gave(
                received.last(),
                inlet,
            );
        received_stood_in_line(line, front, mid);
    }
}

/// What one half of a session sends, the other receives, unchanged and in order, whoever
/// else feeds the queue: the messages sent have ascending numbers, each comes out under its
/// number, and once the queue has ended every one of them has come out.
pub proof fn sent_messages_come_out_in_order(
    line: Line,
    sent: Seq<Seq<u8>>,
    outlet: Outlet,
    received: Seq<Seq<u8>>,
    inlet: Inlet,
)
    requires
        sent_all(queue::fresh_outlet(line), sent, outlet),
        received_all(queue::fresh_inlet(line), received, inlet),
    ensures
        forall|i: int, j: int|
            0 <= i < j < sent.len() ==> #[trigger] number(outlet, i) < #[trigger] number(
                outlet,
                j,
            ),
        forall|i: int|
            0 <= i < sent.len() && #[trigger] number(outlet, i) < received.len()
                ==> received[number(outlet, i) as int] == sent[i],
        inlet.ended() ==> forall|i: int|
            0 <= i < sent.len() ==> #[trigger] number(outlet, i) < received.len(),
{
    sent_stand_in_line(line, sent, outlet);
    received_stood_in_line(line, received, inlet);
    assert forall|i: int|
        0 <= i < sent.len() && #[trigger] number(outlet, i) < received.len() implies
        received[number(outlet, i) as int] == sent[i] by {
        assert(outlet.handed[i].1 is Some);
        assert(line.dom().contains(number(outlet, i)));
    }
    if inlet.ended() {
        assert forall|i: int| 0 <= i < sent.len() implies #[trigger] number(outlet, i)
            < received.len() by {
            assert(outlet.handed[i].1 is Some);
            assert(line.dom().contains(number(outlet, i)));
        }
    }
}

/// Ascending numbers are at least as large as their places.
proof fn numbers_keep_up(outlet: Outlet, count: int, i: int)
    requires
        forall|j: int, k: int|
            0 <= j < k < count ==> #[trigger] number(outlet, j) < #[trigger] number(outlet, k),
        0 <= i < count,
    ensures
        i <= number(outlet, i),
    decreases i,
{
    if i > 0 {
        numbers_keep_up(outlet, count, i - 1);
        assert(number(outlet, i - 1) < number(outlet, i));
    }
}

/// With nobody else feeding the queue, what was sent `i`th is what has number `i`.
proof fn alone_numbers_are_places(
    outlet: Outlet,
    count: int,
    i: int,
)
    requires
        feeds_alone(outlet),
        outlet.handed.len() == count,
        forall|j: int, k: int|
            0 <= j < k < count ==> #[trigger] number(outlet, j) < #[trigger] number(outlet, k),
        0 <= i,
        forall|n: nat| n <= i ==> #[trigger] outlet.line.dom().contains(n),
    ensures
        i < count,
        number(outlet, i) == i,
    decreases i,
{
    let n: nat = i as nat;
    assert(outlet.line.dom().contains(n));
    let k = choose|k: int|
        0 <= k < outlet.handed.len() && (#[trigger] outlet.handed[k]).1 == Some(n);
    assert(number(outlet, k) == i);
    numbers_keep_up(outlet, count, k);
    if k < i {
        alone_numbers_are_places(outlet, count, k);
    }
}

/// With nobody else feeding the queue, what comes out is what was sent, from the first on;
/// and once the queue has ended, it is all of it.
pub proof fn what_is_sent_is_received(
    line: Line,
    sent: Seq<Seq<u8>>,
    outlet: Outlet,
    received: Seq<Seq<u8>>,
    inlet: Inlet,
)
    requires
        sent_all(queue::fresh_outlet(line), sent, outlet),
        received_all(queue::fresh_inlet(line), received, inlet),
        feeds_alone(outlet),
    ensures
        received.is_prefix_of(sent),
        inlet.ended() ==> received == sent,
{
    sent_messages_come_out_in_order(line, sent, outlet, received, inlet);
    sent_stand_in_line(line, sent, outlet);
    received_stood_in_line(line, received, inlet);
    let count = sent.len() as int;
    assert forall|i: int| 0 <= i < received.len() implies i < count && #[trigger] received[i]
        == sent[i] by {
        assert forall|n: nat| n <= i implies #[trigger] outlet.line.dom().contains(n) by {
            assert(line.dom().contains(n));
        }
        alone_numbers_are_places(outlet, count, i);
        assert(received[number(outlet, i) as int] == sent[i]);
    }
    if received.len() > 0 {
        assert(received[received.len() - 1] == sent[received.len() - 1]);
    }
    assert(received.is_prefix_of(sent));
    if inlet.ended() && received.len() < sent.len() {
        let i = received.len() as int;
        numbers_keep_up(outlet, count, i);
        assert(number(outlet, i) < received.len());
    }
    if inlet.ended() {
        assert(received =~= sent);
    }
}

/// A session that has ended listens nowhere, and everyone else listens where they did.
pub proof fn an_ended_session_listens_nowhere(
    m: Membership,
    id: u32,
    listed: Seq<Seq<u8>>,
    channel: Seq<u8>,
)
    requires
        listens_where_joined(m, id),
        m.joined == listed.to_set(),
    ensures
        channels::listeners(session::ended(m, id, listed), channel) == channels::listeners(
            m.registry,
            channel,
        ).remove(id),
{
    leaving_stops_listening_on_the_names(m, id, listed, channel);
    let who = channels::listeners(m.registry, channel);
    if !listed.contains(channel) {
        assert(!m.joined.contains(channel));
        assert(!listens(m, id, channel));
        assert(who.remove(id) =~= who);
    }
}

/// What the next command is taken for is what it is: a command as it was read, a wait for
/// more bytes, or the bytes of a refusal.
pub proof fn steps_are_what_they_stand_for(step: CommandStep, view: CommandStepView)
    requires
        session::is_step(step, view),
    ensures
        view matches CommandStepView::Ready(c) ==> step matches CommandStep::Ready(command)
            && command@ == c,
        view is NeedMore ==> step is NeedMore,
        view matches CommandStepView::Refused(answer) ==> step matches CommandStep::Refused(sent)
            && sent@ == reply::encode(answer),
{
}

/// A request that cannot be read without the clock is read by what the clock said.
pub proof fn requests_are_read_by_the_clock(s: Seq<u8>, clock: Reading)
    requires
        session::read_for(clock, s),
        frame::streamed(s) is Ok,
        parser::needs_clock(frame::streamed(s)->Ok_0.0),
    ensures
        time::is_reading(clock),
{
}

/// Requests that are skipped were refused, and each was answered once, with its refusal, in
/// order: the first one's answer went out first, and then those of the rest.
pub proof fn skipped_requests_are_answered(s: Seq<u8>, from: Outlet, t: Seq<u8>, to: Outlet)
    requires
        session::skipped_to(s, from, t, to),
        s != t || from != to,
    ensures
        exists|clock: Reading, mid: Outlet|
            {
                &&& session::read_for(clock, s)
                &&& session::next_step(s, clock) matches CommandStepView::Refused(answer)
                &&& from.took(reply::encode(answer), mid)
                &&& #[trigger] session::refused_at(s, clock, from, mid)
                &&& session::skipped_to(session::buffer_after(s), mid, t, to)
            },
{
    let (clock, mid) = choose|clock: Reading, mid: Outlet| #[trigger]
        session::refused_at(s, clock, from, mid) && session::skipped_to(
            session::buffer_after(s),
            mid,
            t,
            to,
        );
    assert(session::refused_at(s, clock, from, mid));
}

/// Bytes are taken in as they come, behind what is there: in one piece or in several makes no
/// difference, and none are lost.
pub proof fn bytes_are_taken_in_as_they_come(s: Seq<u8>, a: Seq<u8>, b: Seq<u8>)
    ensures
        session::taken_in(s, Seq::<u8>::empty()) == s,
        session::taken_in(Seq::<u8>::empty(), a) == a,
        session::taken_in(session::taken_in(s, a), b) == session::taken_in(s, a + b),
        session::taken_in(s, a) == s + a,
{
    assert(session::taken_in(s, Seq::<u8>::empty()) =~= s);
    assert(session::taken_in(Seq::<u8>::empty(), a) =~= a);
    assert(session::taken_in(session::taken_in(s, a), b) =~= session::taken_in(s, a + b));
}

/// The frame that a client sent is the frame that is taken out of the buffer, whatever came in
/// behind it.
pub proof fn the_frame_sent_is_the_frame_taken(
    f: FrameView,
    rest: Seq<u8>,
    r: Result<Frame, FrameError>,
)
    requires
        frame::fits(f),
        session::is_next_frame(frame::encode(f) + rest, r),
    ensures
        r is Ok,
        r->Ok_0@ == f,
        session::buffer_after(frame::encode(f) + rest) == rest,
{
    frame_laws::streaming_undoes_encode(f, rest);
}

/// Once a request is whole, a turn of the session deals with it, and keeps what came in behind
/// it: a pub/sub command is handed out as it was read, any other is answered with what came of
/// it, and what is no request is answered with a refusal.
pub proof fn a_whole_request_is_dealt_with<R, CS: CacheService>(
    before: ReadHalf<R, CS>,
    f: FrameView,
    rest: Seq<u8>,
    after: ReadHalf<R, CS>,
    r: Turn,
)
    requires
        session::turned(before, false, after, r),
        frame::fits(f),
        before.reader.buf@ == frame::encode(f) + rest,
    ensures
        after.reader.buf@ == rest,
        exists|clock: Reading|
            {
                &&& parser::needs_clock(f) ==> time::is_reading(clock)
                &&& match #[trigger] parser::command_of(f, clock) {
                    Ok(CommandView::Channel(c)) => {
                        &&& r matches Turn::Channel(command) && command@ == c
                        &&& after.cache_service == before.cache_service
                        &&& after.subscriptions == before.subscriptions
                    },
                    Ok(c) => exists|
                        lifted: ReadHalf<R, CS>,
                        answer: Result<Vec<u8>, ReadHalfError>,
                    |
                        {
                            &&& lifted.cache_service == before.cache_service
                            &&& lifted.subscriptions == before.subscriptions
                            &&& #[trigger] session::answered_alone(lifted, c, after, answer)
                            &&& match answer {
                                Ok(bytes) => r matches Turn::Reply(sent) && sent@ == bytes@,
                                Err(e) => r == Turn::Fail(e),
                            }
                        },
                    Err(e) => {
                        &&& r matches Turn::Reply(sent) && sent@ == reply::encode(
                            session::refusal(e.spec_message()),
                        )
                        &&& after.cache_service == before.cache_service
                        &&& after.subscriptions == before.subscriptions
                    },
                }
            },
{
    let s = before.reader.buf@;
    frame_laws::streaming_undoes_encode(f, rest);
    let clock = choose|clock: Reading|
        session::read_for(clock, s) && match #[trigger] session::next_step(s, clock) {
            CommandStepView::Ready(CommandView::Channel(c)) => {
                &&& r matches Turn::Channel(command) && command@ == c
                &&& after.only_read_from(before)
            },
            CommandStepView::Ready(c) => exists|
                lifted: ReadHalf<R, CS>,
                answer: Result<Vec<u8>, ReadHalfError>,
            |
                {
                    &&& lifted.only_read_from(before)
                    &&& lifted.reader == after.reader
                    &&& #[trigger] session::answered_alone(lifted, c, after, answer)
                    &&& match answer {
                        Ok(bytes) => r matches Turn::Reply(sent) && sent@ == bytes@,
                        Err(e) => r == Turn::Fail(e),
                    }
                },
            CommandStepView::NeedMore => r is Read && after.only_read_from(before),
            CommandStepView::Refused(answer) => {
                &&& r matches Turn::Reply(sent) && sent@ == reply::encode(answer)
                &&& after.only_read_from(before)
            },
        };
    let read = parser::command_of(f, clock);
    if let Ok(c) = read {
        if c !is Channel {
            let (lifted, answer) = choose|
                lifted: ReadHalf<R, CS>,
                answer: Result<Vec<u8>, ReadHalfError>,
            |
                {
                    &&& lifted.only_read_from(before)
                    &&& lifted.reader == after.reader
                    &&& #[trigger] session::answered_alone(lifted, c, after, answer)
                    &&& match answer {
                        Ok(bytes) => r matches Turn::Reply(sent) && sent@ == bytes@,
                        Err(e) => r == Turn::Fail(e),
                    }
                };
            assert(session::answered_alone(lifted, c, after, answer));
        }
    }
}

/// A turn with a request that is still coming in asks for more bytes and changes nothing; one
/// with bytes that are no request answers with a refusal and drops them; and during shutdown a
/// turn does nothing but end the session.
pub proof fn other_turns_change_nothing<R, CS: CacheService>(
    before: ReadHalf<R, CS>,
    shutdown: bool,
    after: ReadHalf<R, CS>,
    r: Turn,
)
    requires
        session::turned(before, shutdown, after, r),
        shutdown || frame::streamed(before.reader.buf@) is Err,
    ensures
        after.cache_service == before.cache_service,
        after.subscriptions == before.subscriptions,
        shutdown ==> r is Stop && after == before,
        !shutdown ==> match frame::streamed(before.reader.buf@) {
            Err(e) => if e == FrameError::Incomplete {
                r is Read && after.reader.buf@ == before.reader.buf@
            } else {
                &&& r matches Turn::Reply(sent) && sent@ == reply::encode(
                    session::refusal(e.spec_message()),
                )
                &&& after.reader.buf@ == Seq::<u8>::empty()
            },
            Ok(_) => true,
        },
{
}

/// The next command is the request at the front of the buffer, as it is read, once it is
/// whole; nothing is sent for it, and what came in behind it is kept.
pub proof fn the_request_sent_is_the_command_got(
    f: FrameView,
    rest: Seq<u8>,
    from: Outlet,
    t: Seq<u8>,
    to: Outlet,
    r: Result<Option<Command>, ReadHalfError>,
)
    requires
        frame::fits(f),
        forall|clock: Reading| #[trigger] parser::command_of(f, clock) is Ok,
        session::is_next_command(frame::encode(f) + rest, from, t, to, r),
    ensures
        t == rest,
        to == from,
        r matches Ok(Some(c)) && exists|clock: Reading|
            {
                &&& parser::needs_clock(f) ==> time::is_reading(clock)
                &&& #[trigger] parser::command_of(f, clock) == Ok::<
                    CommandView,
                    CommandFromFrameError,
                >(c@)
            },
{
    let s = frame::encode(f) + rest;
    frame_laws::streaming_undoes_encode(f, rest);
    assert forall|u: Seq<u8>, o: Outlet| #[trigger] session::skipped_to(s, from, u, o) implies u == s
        && o == from by {
        if u != s || o != from {
            skipped_requests_are_answered(s, from, u, o);
            let (clock, mid) = choose|clock: Reading, mid: Outlet|
                {
                    &&& session::next_step(s, clock) is Refused
                    &&& #[trigger] session::refused_at(s, clock, from, mid)
                };
            assert(parser::command_of(f, clock) is Ok);
        }
    }
    match r {
        Ok(Some(c)) => {
            let (u, clock) = choose|u: Seq<u8>, clock: Reading|
                {
                    &&& session::skipped_to(s, from, u, to)
                    &&& session::read_for(clock, u)
                    &&& #[trigger] session::next_step(u, clock) == CommandStepView::Ready(c@)
                    &&& t == session::buffer_after(u)
                };
            assert(session::skipped_to(s, from, u, to));
            assert(parser::command_of(f, clock) == Ok::<CommandView, CommandFromFrameError>(c@));
        },
        Ok(None) => {
            assert(session::skipped_to(s, from, t, to));
        },
        Err(_) => {
            let (u, clock, outlet) = choose|u: Seq<u8>, clock: Reading, outlet: Outlet|
                {
                    &&& #[trigger] session::skipped_to(s, from, u, outlet)
                    &&& session::read_for(clock, u)
                    &&& #[trigger] session::next_step(u, clock) is Refused
                };
            assert(session::skipped_to(s, from, u, outlet));
            assert(parser::command_of(f, clock) is Ok);
        },
    }
}

/// A frame that is whole is handed out as it was sent, and nothing is sent for it. One that is
/// still coming in is waited for, and nothing is sent either. Bytes that are no frame are
/// answered with a refusal, and the session keeps going: it fails only where the answer cannot
/// be sent.
pub proof fn frames_are_got_as_they_were_sent(
    s: Seq<u8>,
    f: FrameView,
    rest: Seq<u8>,
    from: Outlet,
    to: Outlet,
    step: FrameStep,
    r: Result<Option<Frame>, ReadHalfError>,
)
    requires
        frame::fits(f),
        session::is_frame_step(s, step),
        session::is_frame_got(s, from, to, r),
    ensures
        s == frame::encode(f) + rest ==> {
            &&& step matches FrameStep::Ready(handed) && handed@ == f
            &&& r matches Ok(Some(got)) && got@ == f
            &&& to == from
        },
        frame::streamed(s) matches Err(e) ==> if e == FrameError::Incomplete {
            &&& step is NeedMore
            &&& r matches Ok(None)
            &&& to == from
        } else {
            let answer = reply::encode(session::refusal(e.spec_message()));
            &&& step matches FrameStep::Refused(sent) && sent@ == answer
            &&& r is Ok ==> r->Ok_0 is None && from.took(answer, to)
            &&& r matches Err(fault) ==> {
                &&& fault matches ReadHalfError::Send(unsent) && unsent.0@ == answer
                &&& to == from.declined(answer)
            }
        },
{
    frame_laws::streaming_undoes_encode(f, rest);
}

} // verus!
