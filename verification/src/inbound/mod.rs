//! The driving adapter: what comes of a command, as the reply a client is sent; the
//! per-connection session; the server's lifecycle.

use vstd::prelude::*;

use crate::bytes;
use crate::domain::command::channel::{
    ChannelCommandOutcome, ChannelCommandOutcomeView, SubUnsubInnerEntry, SubUnsubInnerEntryView,
};
use crate::domain::command::outcome::{CommandOutcome, CommandOutcomeView, TtlOutcome};
use crate::resp::reply;
use crate::resp::reply::{Replies, Reply, ReplyView, SimpleInner};

pub mod reply_laws;
pub mod server;
pub mod server_laws;
pub mod session;
pub mod session_laws;

verus! {

/// The number that `TTL` answers with: -2 for no such key, -1 for no deadline, else the
/// seconds left, clamped at `i64::MAX`.
pub open spec fn ttl_number(t: TtlOutcome) -> int {
    match t {
        TtlOutcome::KeyNotFound => -2,
        TtlOutcome::TtlNotFound => -1,
        TtlOutcome::Remaining(s) => if s.0 > i64::MAX {
            i64::MAX as int
        } else {
            s.0 as int
        },
    }
}

/// The reply to a command on the cache, or to a ping.
pub open spec fn reply_to(outcome: CommandOutcomeView) -> ReplyView {
    match outcome {
        CommandOutcomeView::Value(Some(value)) => ReplyView::BulkString(value),
        CommandOutcomeView::Value(None) => ReplyView::NullBulk,
        CommandOutcomeView::Done => ReplyView::SimpleString(bytes::text("OK"@)),
        CommandOutcomeView::Bool(b) => ReplyView::Integer(
            if b {
                1
            } else {
                0
            },
        ),
        CommandOutcomeView::Ttl(t) => ReplyView::Integer(ttl_number(t)),
        CommandOutcomeView::Pong(None) => ReplyView::SimpleString(bytes::text("PONG"@)),
        CommandOutcomeView::Pong(Some(message)) => ReplyView::BulkString(message),
        CommandOutcomeView::Integer(n) => ReplyView::Integer(n),
    }
}

/// The acknowledgement of one channel joined or left: `[kind, channel, count]`.
pub open spec fn ack(kind: Seq<char>, entry: SubUnsubInnerEntryView) -> ReplyView {
    ReplyView::Array(
        seq![
            ReplyView::BulkString(bytes::text(kind)),
            match entry.channel_id {
                Some(id) => ReplyView::BulkString(id),
                None => ReplyView::NullBulk,
            },
            ReplyView::Integer(
                if entry.subscription_count > i64::MAX {
                    i64::MAX as int
                } else {
                    entry.subscription_count as int
                },
            ),
        ],
    )
}

/// The replies to a pub/sub command: one acknowledgement for each channel, or the number
/// of sessions that a message reached.
pub open spec fn replies_to(outcome: ChannelCommandOutcomeView) -> Seq<ReplyView> {
    match outcome {
        ChannelCommandOutcomeView::Subscribe { inner } => inner.map_values(
            |e: SubUnsubInnerEntryView| ack("subscribe"@, e),
        ),
        ChannelCommandOutcomeView::Unsubscribe { inner } => inner.map_values(
            |e: SubUnsubInnerEntryView| ack("unsubscribe"@, e),
        ),
        ChannelCommandOutcomeView::Publish { sent_count } => seq![
            ReplyView::Integer(sent_count as int),
        ],
    }
}

impl From<CommandOutcome> for Reply {
    fn from(outcome: CommandOutcome) -> (r: Self)
        ensures
            r@ == reply_to(outcome@),
    {
        match outcome {
            CommandOutcome::Value(Some(value)) => Reply::BulkString(value),
            CommandOutcome::Value(None) => Reply::NullBulk,
            CommandOutcome::Done => Reply::SimpleString(SimpleInner::ok()),
            CommandOutcome::Bool(b) => Reply::Integer(
                if b {
                    1
                } else {
                    0
                },
            ),
            CommandOutcome::Ttl(TtlOutcome::KeyNotFound) => Reply::Integer(-2),
            CommandOutcome::Ttl(TtlOutcome::TtlNotFound) => Reply::Integer(-1),
            CommandOutcome::Ttl(TtlOutcome::Remaining(s)) => Reply::Integer(clamp(s.get())),
            CommandOutcome::Pong(None) => Reply::SimpleString(SimpleInner::pong()),
            CommandOutcome::Pong(Some(message)) => Reply::BulkString(message),
            CommandOutcome::Integer(n) => Reply::Integer(n),
        }
    }
}

impl vstd::std_specs::convert::FromSpecImpl<CommandOutcome> for Reply {
    open spec fn obeys_from_spec() -> bool {
        false
    }

    open spec fn from_spec(outcome: CommandOutcome) -> Reply {
        arbitrary()
    }
}

/// `n` as an `i64`, clamped at its maximum.
fn clamp(n: u64) -> (r: i64)
    ensures
        r == (if n > i64::MAX {
            i64::MAX as int
        } else {
            n as int
        }),
{
    if n > i64::MAX as u64 {
        i64::MAX
    } else {
        n as i64
    }
}

/// The acknowledgements of the channels joined or left.
fn acks(kind: &str, inner: Vec<SubUnsubInnerEntry>) -> (r: Replies)
    ensures
        r@ == inner@.map_values(|e: SubUnsubInnerEntry| ack(kind@, e@)),
{
    let ghost all = inner@.map_values(|e: SubUnsubInnerEntry| ack(kind@, e@));
    let mut out: Vec<Reply> = Vec::new();
    let mut i: usize = 0;
    while i < inner.len()
        invariant
            i <= inner@.len(),
            all == inner@.map_values(|e: SubUnsubInnerEntry| ack(kind@, e@)),
            reply::replies_view(out@) == all.take(i as int),
        decreases inner@.len() - i,
    {
        let mut parts: Vec<Reply> = Vec::new();
        let first = Reply::BulkString(bytes::to_bytes(kind));
        let second = match &inner[i].channel_id {
            Some(id) => Reply::BulkString(bytes::copy(id.as_slice())),
            None => Reply::NullBulk,
        };
        let third = Reply::Integer(clamp(inner[i].subscription_count as u64));
        proof {
            let none = Seq::<Reply>::empty();
            reply::replies_view_push(none, first);
            reply::replies_view_push(none.push(first), second);
            reply::replies_view_push(none.push(first).push(second), third);
            assert(parts@ =~= none);
        }
        parts.push(first);
        parts.push(second);
        parts.push(third);
        let one = Reply::Array(parts);
        proof {
            assert(reply::replies_view(parts@) =~= ack(kind@, inner@[i as int]@)->Array_0);
            reply::replies_view_push(out@, one);
            assert(all.take(i + 1) =~= all.take(i as int).push(all[i as int]));
        }
        out.push(one);
        i = i + 1;
    }
    assert(all.take(i as int) =~= all);
    Replies { inner: out }
}

impl From<ChannelCommandOutcome> for Replies {
    fn from(outcome: ChannelCommandOutcome) -> (r: Self)
        ensures
            r@ == replies_to(outcome@),
    {
        match outcome {
            ChannelCommandOutcome::Subscribe { inner } => {
                let r = acks("subscribe", inner);
                assert(r@ =~= replies_to(outcome@));
                r
            },
            ChannelCommandOutcome::Unsubscribe { inner } => {
                let r = acks("unsubscribe", inner);
                assert(r@ =~= replies_to(outcome@));
                r
            },
            ChannelCommandOutcome::Publish { sent_count } => {
                let one = Reply::Integer(sent_count as i64);
                let mut inner: Vec<Reply> = Vec::new();
                proof {
                    reply::replies_view_push(inner@, one);
                }
                inner.push(one);
                let r = Replies { inner };
                assert(r@ =~= replies_to(outcome@));
                r
            },
        }
    }
}

impl vstd::std_specs::convert::FromSpecImpl<ChannelCommandOutcome> for Replies {
    open spec fn obeys_from_spec() -> bool {
        false
    }

    open spec fn from_spec(outcome: ChannelCommandOutcome) -> Replies {
        arbitrary()
    }
}

} // verus!
