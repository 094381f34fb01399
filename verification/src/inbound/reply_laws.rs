//! Laws of the answers: which reply each outcome is answered with, what its bytes are on the
//! wire, and that a session answers a command with what came of it.

use vstd::prelude::*;

use crate::bytes;
use crate::decimal;
use crate::domain::cache;
use crate::domain::cache::{CacheError, Data};
use crate::domain::cache_laws;
use crate::domain::channels::Registry;
use crate::domain::command::cache::read::ReadCommandView;
use crate::domain::command::cache::CacheCommandView;
use crate::domain::command::channel::{ChannelCommandOutcomeView, SubUnsubInnerEntryView};
use crate::domain::command::outcome::{CommandOutcome, CommandOutcomeView, TtlOutcome};
use crate::domain::command::CommandView;
use crate::domain::ports::{CacheRepository, CacheService, ServiceError};
use crate::domain::queue;
use crate::domain::service;
use crate::domain::service::Service;
use crate::domain::time;
use crate::domain::time::Milliseconds;
use crate::inbound;
use crate::inbound::session;
use crate::inbound::session::{ReadHalf, ReadHalfError};
use crate::resp::reply;
use crate::resp::reply::ReplyView;

verus! {

/// A number on the wire: `:`, its digits behind a `-` where it is below zero, and the
/// terminator.
pub proof fn numbers_on_the_wire(n: int)
    ensures
        n >= 0 ==> reply::encode(ReplyView::Integer(n)) == seq![58u8] + decimal::digits(n as nat)
            + seq![13u8, 10],
        n < 0 ==> reply::encode(ReplyView::Integer(n)) == seq![58u8, 45] + decimal::digits(
            (-n) as nat,
        ) + seq![13u8, 10],
{
    if n < 0 {
        assert(reply::encode(ReplyView::Integer(n)) =~= seq![58u8, 45] + decimal::digits(
            (-n) as nat,
        ) + seq![13u8, 10]);
    } else {
        assert(reply::encode(ReplyView::Integer(n)) =~= seq![58u8] + decimal::digits(n as nat)
            + seq![13u8, 10]);
    }
}

/// A byte string on the wire: `$`, its length, the terminator, its bytes as they are, and the
/// terminator. One that is not there: `$-1` and the terminator.
pub proof fn byte_strings_on_the_wire(payload: Seq<u8>)
    ensures
        reply::encode(ReplyView::BulkString(payload)) == seq![36u8] + decimal::digits(payload.len())
            + seq![13u8, 10] + payload + seq![13u8, 10],
        reply::encode(ReplyView::NullBulk) == seq![36u8, 45, 49, 13, 10],
{
    assert(reply::encode(ReplyView::BulkString(payload)) =~= seq![36u8] + decimal::digits(
        payload.len(),
    ) + seq![13u8, 10] + payload + seq![13u8, 10]);
    assert(decimal::digits(1) =~= seq![49u8]);
    assert(reply::encode(ReplyView::NullBulk) =~= seq![36u8, 45, 49, 13, 10]);
}

/// A line on the wire: `+`, or `-` where it reports an error, its text as it is, and the
/// terminator.
pub proof fn lines_on_the_wire(line: Seq<u8>)
    ensures
        reply::encode(ReplyView::SimpleString(line)) == seq![43u8] + line + seq![13u8, 10],
        reply::encode(ReplyView::SimpleError(line)) == seq![45u8] + line + seq![13u8, 10],
{
}

/// An array on the wire: `*`, how many replies there are, the terminator, and the replies,
/// one behind the other.
pub proof fn arrays_on_the_wire(replies: Seq<ReplyView>)
    ensures
        reply::encode(ReplyView::Array(replies)) == seq![42u8] + decimal::digits(replies.len())
            + seq![13u8, 10] + reply::encode_all(replies),
{
    assert(reply::encode(ReplyView::Array(replies)) =~= seq![42u8] + decimal::digits(replies.len())
        + seq![13u8, 10] + reply::encode_all(replies));
}

/// Several replies on the wire stand one behind the other, with nothing before, between or
/// behind them.
pub proof fn replies_stand_one_behind_the_other(a: Seq<ReplyView>, one: ReplyView, b: Seq<ReplyView>)
    ensures
        reply::encode_all(Seq::<ReplyView>::empty()) == Seq::<u8>::empty(),
        reply::encode_all(a + seq![one] + b) == reply::encode_all(a) + reply::encode(one)
            + reply::encode_all(b),
    decreases a.len(),
{
    let all = a + seq![one] + b;
    if a.len() == 0 {
        assert(all[0] == one);
        assert(all.drop_first() =~= b);
        assert(reply::encode_all(a) =~= Seq::<u8>::empty());
        assert(reply::encode_all(all) =~= reply::encode_all(a) + reply::encode(one)
            + reply::encode_all(b));
    } else {
        let rest = a.drop_first();
        replies_stand_one_behind_the_other(rest, one, b);
        assert(all[0] == a[0]);
        assert(all.drop_first() =~= rest + seq![one] + b);
        assert(reply::encode_all(all) =~= reply::encode_all(a) + reply::encode(one)
            + reply::encode_all(b));
    }
}

/// What each outcome is answered with: a value as it is, byte for byte, or nothing in its
/// place; `OK`; one or zero; a number as it is; a pong, or the message as it is.
pub proof fn every_outcome_has_its_reply(value: Seq<u8>, n: int)
    ensures
        inbound::reply_to(CommandOutcomeView::Value(Some(value))) == ReplyView::BulkString(value),
        inbound::reply_to(CommandOutcomeView::Value(None)) == ReplyView::NullBulk,
        inbound::reply_to(CommandOutcomeView::Done) == ReplyView::SimpleString(seq![79u8, 75]),
        inbound::reply_to(CommandOutcomeView::Bool(true)) == ReplyView::Integer(1),
        inbound::reply_to(CommandOutcomeView::Bool(false)) == ReplyView::Integer(0),
        inbound::reply_to(CommandOutcomeView::Integer(n)) == ReplyView::Integer(n),
        inbound::reply_to(CommandOutcomeView::Pong(None)) == ReplyView::SimpleString(
            seq![80u8, 79, 78, 71],
        ),
        inbound::reply_to(CommandOutcomeView::Pong(Some(value))) == ReplyView::BulkString(value),
{
    reveal_strlit("OK");
    reveal_strlit("PONG");
    bytes::ascii_text("OK"@);
    bytes::ascii_text("PONG"@);
    assert(bytes::text("OK"@) =~= seq![79u8, 75]);
    assert(bytes::text("PONG"@) =~= seq![80u8, 79, 78, 71]);
}

/// The three answers to `TTL`: the seconds that are left as they are, minus one where there
/// is no deadline, minus two where there is no key. Seconds past the largest number that a
/// reply can hold are answered with that number.
pub proof fn seconds_left_are_answered_as_they_are(s: time::Seconds)
    ensures
        s.0 <= i64::MAX ==> inbound::reply_to(CommandOutcomeView::Ttl(TtlOutcome::Remaining(s)))
            == ReplyView::Integer(s.0 as int),
        s.0 > i64::MAX ==> inbound::reply_to(CommandOutcomeView::Ttl(TtlOutcome::Remaining(s)))
            == ReplyView::Integer(i64::MAX as int),
        inbound::reply_to(CommandOutcomeView::Ttl(TtlOutcome::TtlNotFound)) == ReplyView::Integer(
            -1,
        ),
        inbound::reply_to(CommandOutcomeView::Ttl(TtlOutcome::KeyNotFound)) == ReplyView::Integer(
            -2,
        ),
{
}

/// `TTL` is answered with the whole seconds up to the key's deadline, rounded up: the number
/// sent is no less than is left, and less than a second more. Minus one is sent for a key
/// without a deadline, and minus two where no key can be seen.
pub proof fn ttl_is_answered_in_whole_seconds(m: Data, key: Seq<u8>, now: Milliseconds)
    ensures
        ({
            let outcome = cache::executed(
                m,
                CacheCommandView::Read(ReadCommandView::Ttl { key }),
                now,
            ).1;
            let sent = inbound::reply_to(outcome);
            if !cache_laws::is_live(m, key, now) {
                sent == ReplyView::Integer(-2)
            } else {
                match m[key].expires_at {
                    None => sent == ReplyView::Integer(-1),
                    Some(deadline) => {
                        let left = deadline.0 - now.0;
                        &&& sent matches ReplyView::Integer(n)
                        &&& left <= n * 1000
                        &&& n * 1000 < left + 1000
                    },
                }
            }
        }),
{
    cache_laws::ttl_counts_the_seconds_left(m, key, now);
}

/// One channel joined or left is acknowledged with what was done, the channel's name byte for
/// byte (or nothing in its place), and how many channels are left.
pub open spec fn acknowledges(
    sent: ReplyView,
    kind: Seq<u8>,
    channel: Option<Seq<u8>>,
    count: nat,
) -> bool {
    &&& sent matches ReplyView::Array(parts)
    &&& parts.len() == 3
    &&& parts[0] == ReplyView::BulkString(kind)
    &&& parts[1] == (match channel {
        Some(name) => ReplyView::BulkString(name),
        None => ReplyView::NullBulk,
    })
    &&& count <= i64::MAX ==> parts[2] == ReplyView::Integer(count as int)
    &&& count > i64::MAX ==> parts[2] == ReplyView::Integer(i64::MAX as int)
}

/// Joining and leaving are acknowledged channel by channel, in order, and a publish with the
/// number of sessions that it reached.
pub proof fn every_channel_is_acknowledged(inner: Seq<SubUnsubInnerEntryView>, sent_count: nat)
    ensures
        ({
            let joined = inbound::replies_to(ChannelCommandOutcomeView::Subscribe { inner });
            let left = inbound::replies_to(ChannelCommandOutcomeView::Unsubscribe { inner });
            &&& joined.len() == inner.len()
            &&& left.len() == inner.len()
            &&& forall|i: int|
                0 <= i < inner.len() ==> acknowledges(
                    #[trigger] joined[i],
                    seq![115u8, 117, 98, 115, 99, 114, 105, 98, 101],
                    inner[i].channel_id,
                    inner[i].subscription_count,
                )
            &&& forall|i: int|
                0 <= i < inner.len() ==> acknowledges(
                    #[trigger] left[i],
                    seq![117u8, 110, 115, 117, 98, 115, 99, 114, 105, 98, 101],
                    inner[i].channel_id,
                    inner[i].subscription_count,
                )
        }),
        inbound::replies_to(ChannelCommandOutcomeView::Publish { sent_count }) == seq![
            ReplyView::Integer(sent_count as int),
        ],
{
    reveal_strlit("subscribe");
    reveal_strlit("unsubscribe");
    bytes::ascii_text("subscribe"@);
    bytes::ascii_text("unsubscribe"@);
    assert(bytes::text("subscribe"@) =~= seq![115u8, 117, 98, 115, 99, 114, 105, 98, 101]);
    assert(bytes::text("unsubscribe"@) =~= seq![
        117u8,
        110,
        115,
        117,
        98,
        115,
        99,
        114,
        105,
        98,
        101,
    ]);
}

/// A subscriber is pushed `message`, the channel's name and the payload, both byte for byte.
pub proof fn pushes_carry_channel_and_payload(channel: Seq<u8>, payload: Seq<u8>)
    ensures
        session::push_message(channel, payload) == ReplyView::Array(
            seq![
                ReplyView::BulkString(seq![109u8, 101, 115, 115, 97, 103, 101]),
                ReplyView::BulkString(channel),
                ReplyView::BulkString(payload),
            ],
        ),
{
    reveal_strlit("message");
    bytes::ascii_text("message"@);
    assert(bytes::text("message"@) =~= seq![109u8, 101, 115, 115, 97, 103, 101]);
}

/// A session answers a command on the cache with what came of it: the cache is what the
/// command makes of it at a reading of the clock, the bytes sent are the reply to its outcome,
/// a change is in the log, and a read leaves the log alone. The session's subscriptions stay.
pub proof fn cache_commands_are_answered_by_their_outcome<R, CR: CacheRepository>(
    before: ReadHalf<R, Service<CR>>,
    c: CacheCommandView,
    after: ReadHalf<R, Service<CR>>,
    sent: Vec<u8>,
)
    requires
        session::answered_alone(
            before,
            CommandView::Cache(c),
            after,
            Ok::<Vec<u8>, ReadHalfError>(sent),
        ),
    ensures
        exists|now: Milliseconds|
            {
                let came = #[trigger] cache::executed(before.cache_service.cache@, c, now);
                &&& cache::needs_clock(before.cache_service.cache@, c) ==> time::is_reading(Ok(now))
                &&& after.cache_service.cache@ == came.0
                &&& sent@ == reply::encode(inbound::reply_to(came.1))
            },
        match c {
            CacheCommandView::Write(w) => CR::logged(
                &before.cache_service.cache_repo,
                w,
                &after.cache_service.cache_repo,
            ),
            CacheCommandView::Read(_) => after.cache_service.cache_repo
                == before.cache_service.cache_repo,
        },
        after.subscriptions == before.subscriptions,
{
    let outcome = choose|outcome: CommandOutcome|
        {
            &&& #[trigger] <Service<CR> as CacheService>::ran_logged(
                &before.cache_service,
                c,
                &after.cache_service,
                Ok(outcome),
            )
            &&& sent@ == reply::encode(inbound::reply_to(outcome@))
        };
    let now = choose|now: Milliseconds|
        {
            &&& cache::needs_clock(before.cache_service.cache@, c) ==> time::is_reading(Ok(now))
            &&& (after.cache_service.cache@, outcome@) == #[trigger] cache::executed(
                before.cache_service.cache@,
                c,
                now,
            )
        };
    assert(cache::executed(before.cache_service.cache@, c, now).0 == after.cache_service.cache@);
}

/// A command on the cache goes unanswered only where the clock fails it, with nothing changed,
/// or where the log refuses it, with the change made.
pub proof fn cache_commands_fail_with_the_clock_or_the_log<R, CR: CacheRepository>(
    before: ReadHalf<R, Service<CR>>,
    c: CacheCommandView,
    after: ReadHalf<R, Service<CR>>,
    e: ReadHalfError,
)
    requires
        session::answered_alone(
            before,
            CommandView::Cache(c),
            after,
            Err::<Vec<u8>, ReadHalfError>(e),
        ),
    ensures
        match e {
            ReadHalfError::Service(ServiceError::Cache(CacheError::SystemTime(fault))) => {
                &&& time::is_reading(Err(fault))
                &&& after.cache_service.cache@ == before.cache_service.cache@
                &&& after.cache_service.cache_repo == before.cache_service.cache_repo
            },
            ReadHalfError::Service(ServiceError::Repository(refusal)) => {
                &&& c matches CacheCommandView::Write(w)
                &&& CR::refused_with(&before.cache_service.cache_repo, w, refusal)
                &&& exists|now: Milliseconds|
                    after.cache_service.cache@ == (#[trigger] cache::executed(
                        before.cache_service.cache@,
                        c,
                        now,
                    )).0
            },
            _ => false,
        },
{
    if let ReadHalfError::Service(ServiceError::Repository(refusal)) = e {
        assert(<Service<CR> as CacheService>::ran_logged(
            &before.cache_service,
            c,
            &after.cache_service,
            Err::<CommandOutcome, ServiceError>(ServiceError::Repository(refusal)),
        ));
        let outcome = choose|outcome: CommandOutcome| #[trigger]
            service::carried_out(
                before.cache_service.cache@,
                c,
                after.cache_service.cache@,
                outcome,
            );
        let now = choose|now: Milliseconds|
            (after.cache_service.cache@, outcome@) == #[trigger] cache::executed(
                before.cache_service.cache@,
                c,
                now,
            );
        assert(cache::executed(before.cache_service.cache@, c, now).0
            == after.cache_service.cache@);
    }
}

/// `PING` is answered with a pong, or with its message as one bulk string, and changes
/// nothing.
pub proof fn ping_is_answered_with_its_message<R, CS: CacheService>(
    before: ReadHalf<R, CS>,
    message: Option<Seq<u8>>,
    after: ReadHalf<R, CS>,
    r: Result<Vec<u8>, ReadHalfError>,
)
    requires
        session::answered_alone(before, CommandView::Ping { message }, after, r),
    ensures
        after == before,
        r matches Ok(sent) && match message {
            None => sent@ == seq![43u8, 80, 79, 78, 71, 13, 10],
            Some(m) => sent@ == seq![36u8] + decimal::digits(m.len()) + seq![13u8, 10] + m + seq![
                13u8,
                10,
            ],
        },
{
    let m = match message {
        Some(m) => m,
        None => Seq::empty(),
    };
    every_outcome_has_its_reply(m, 0);
    byte_strings_on_the_wire(m);
    let line = seq![80u8, 79, 78, 71];
    lines_on_the_wire(line);
    assert(seq![43u8] + line + seq![13u8, 10] =~= seq![43u8, 80, 79, 78, 71, 13, 10]);
}

/// A pub/sub command is answered with the replies to what came of it, and the cache and its
/// log stay as they are. No other command touches the registry.
pub proof fn channel_commands_are_answered_by_their_outcome<R, CS: CacheService>(
    before: ReadHalf<R, CS>,
    registry: Registry,
    c: CommandView,
    after: ReadHalf<R, CS>,
    registry_after: Registry,
    r: Result<Vec<u8>, ReadHalfError>,
)
    requires
        session::answered(before, registry, c, after, registry_after, r),
    ensures
        c !is Channel ==> registry_after == registry && session::answered_alone(
            before,
            c,
            after,
            r,
        ),
        c matches CommandView::Channel(command) ==> {
            &&& r is Ok
            &&& after.cache_service == before.cache_service
            &&& exists|outcome: ChannelCommandOutcomeView|
                {
                    &&& #[trigger] session::channel_command_done(
                        before.membership(registry),
                        before.id,
                        queue::line_in(before.sender),
                        before.subscriptions.keys(),
                        command,
                        after.membership(registry_after),
                        outcome,
                    )
                    &&& r->Ok_0@ == reply::encode_all(inbound::replies_to(outcome))
                }
        },
{
}

/// A service that runs a command without logging it carries it out on the cache, by a reading
/// of the clock where it needs one, and leaves the log alone.
pub proof fn unlogged_commands_are_carried_out<CR: CacheRepository>(
    before: &Service<CR>,
    c: CacheCommandView,
    after: &Service<CR>,
    outcome: CommandOutcome,
)
    requires
        <Service<CR> as CacheService>::ran(
            before,
            c,
            after,
            Ok::<CommandOutcome, ServiceError>(outcome),
        ),
    ensures
        exists|now: Milliseconds|
            {
                &&& cache::needs_clock(before.cache@, c) ==> time::is_reading(Ok(now))
                &&& (after.cache@, outcome@) == #[trigger] cache::executed(before.cache@, c, now)
            },
        after.cache_repo == before.cache_repo,
{
    assert(service::carried_out(before.cache@, c, after.cache@, outcome));
}

} // verus!
