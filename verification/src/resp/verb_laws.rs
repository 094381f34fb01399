//! Laws of the verbs: what each request is read as, with every argument byte for byte, and
//! which fault each malformed one is refused with.

use vstd::prelude::*;

use crate::bytes;
use crate::decimal;
use crate::decimal::{IntErrorKind, ParseIntError};
use crate::domain::command::cache::read::ReadCommandView;
use crate::domain::command::cache::write::WriteCommandView;
use crate::domain::command::cache::CacheCommandView;
use crate::domain::command::channel::ChannelCommandView;
use crate::domain::command::{CommandError, CommandView};
use crate::domain::time;
use crate::domain::time::{Milliseconds, Reading};
use crate::resp::command as parser;
use crate::resp::command::CommandFromFrameError;
use crate::resp::command_laws;
use crate::resp::frame::FrameView;
use crate::utf8;

verus! {

/// The frame of a request: an array of bulk strings.
pub open spec fn request(words: Seq<Seq<u8>>) -> FrameView {
    FrameView::Array(Seq::new(words.len(), |i: int| FrameView::BulkString(words[i])))
}

/// `s` spells `word`, which is in lower case, with each letter in whatever case.
pub open spec fn spelled(s: Seq<u8>, word: Seq<char>) -> bool {
    &&& s.len() == word.len()
    &&& forall|i: int|
        0 <= i < s.len() ==> #[trigger] s[i] == word[i] as u8 || s[i] + 32 == word[i] as u8
}

/// `word` is made of lower-case letters.
spec fn is_lower(word: Seq<char>) -> bool {
    forall|i: int| 0 <= i < word.len() ==> 'a' <= #[trigger] word[i] <= 'z'
}

/// Folding the case of what spells a word gives the word, and of nothing else.
proof fn folding_finds_the_word(s: Seq<u8>, word: Seq<char>)
    requires
        is_lower(word),
    ensures
        spelled(s, word) <==> bytes::lowercase(s) == bytes::text(word),
{
    bytes::ascii_text(word);
    let t = bytes::text(word);
    let low = bytes::lowercase(s);
    if spelled(s, word) {
        assert forall|i: int| 0 <= i < s.len() implies low[i] == t[i] by {
            assert(s[i] == word[i] as u8 || s[i] + 32 == word[i] as u8);
            assert('a' <= word[i] <= 'z');
        }
        assert(low =~= t);
    }
    if low == t {
        assert(low.len() == s.len());
        assert forall|i: int| 0 <= i < s.len() implies #[trigger] s[i] == word[i] as u8 || s[i] + 32
            == word[i] as u8 by {
            assert(low[i] == t[i]);
            assert(low[i] == bytes::lower(s[i]));
        }
    }
}

/// The verbs are words in lower case, and no two are the same.
proof fn the_verbs_differ()
    ensures
        is_lower("get"@),
        is_lower("set"@),
        is_lower("del"@),
        is_lower("ping"@),
        is_lower("exists"@),
        is_lower("expire"@),
        is_lower("expireat"@),
        is_lower("pexpireat"@),
        is_lower("ttl"@),
        is_lower("persist"@),
        is_lower("subscribe"@),
        is_lower("unsubscribe"@),
        is_lower("publish"@),
        bytes::text("get"@) != bytes::text("set"@),
        bytes::text("get"@) != bytes::text("del"@),
        bytes::text("get"@) != bytes::text("ping"@),
        bytes::text("get"@) != bytes::text("exists"@),
        bytes::text("get"@) != bytes::text("expire"@),
        bytes::text("get"@) != bytes::text("expireat"@),
        bytes::text("get"@) != bytes::text("pexpireat"@),
        bytes::text("get"@) != bytes::text("ttl"@),
        bytes::text("get"@) != bytes::text("persist"@),
        bytes::text("get"@) != bytes::text("subscribe"@),
        bytes::text("get"@) != bytes::text("unsubscribe"@),
        bytes::text("get"@) != bytes::text("publish"@),
        bytes::text("set"@) != bytes::text("del"@),
        bytes::text("set"@) != bytes::text("ping"@),
        bytes::text("set"@) != bytes::text("exists"@),
        bytes::text("set"@) != bytes::text("expire"@),
        bytes::text("set"@) != bytes::text("expireat"@),
        bytes::text("set"@) != bytes::text("pexpireat"@),
        bytes::text("set"@) != bytes::text("ttl"@),
        bytes::text("set"@) != bytes::text("persist"@),
        bytes::text("set"@) != bytes::text("subscribe"@),
        bytes::text("set"@) != bytes::text("unsubscribe"@),
        bytes::text("set"@) != bytes::text("publish"@),
        bytes::text("del"@) != bytes::text("ping"@),
        bytes::text("del"@) != bytes::text("exists"@),
        bytes::text("del"@) != bytes::text("expire"@),
        bytes::text("del"@) != bytes::text("expireat"@),
        bytes::text("del"@) != bytes::text("pexpireat"@),
        bytes::text("del"@) != bytes::text("ttl"@),
        bytes::text("del"@) != bytes::text("persist"@),
        bytes::text("del"@) != bytes::text("subscribe"@),
        bytes::text("del"@) != bytes::text("unsubscribe"@),
        bytes::text("del"@) != bytes::text("publish"@),
        bytes::text("ping"@) != bytes::text("exists"@),
        bytes::text("ping"@) != bytes::text("expire"@),
        bytes::text("ping"@) != bytes::text("expireat"@),
        bytes::text("ping"@) != bytes::text("pexpireat"@),
        bytes::text("ping"@) != bytes::text("ttl"@),
        bytes::text("ping"@) != bytes::text("persist"@),
        bytes::text("ping"@) != bytes::text("subscribe"@),
        bytes::text("ping"@) != bytes::text("unsubscribe"@),
        bytes::text("ping"@) != bytes::text("publish"@),
        bytes::text("exists"@) != bytes::text("expire"@),
        bytes::text("exists"@) != bytes::text("expireat"@),
        bytes::text("exists"@) != bytes::text("pexpireat"@),
        bytes::text("exists"@) != bytes::text("ttl"@),
        bytes::text("exists"@) != bytes::text("persist"@),
        bytes::text("exists"@) != bytes::text("subscribe"@),
        bytes::text("exists"@) != bytes::text("unsubscribe"@),
        bytes::text("exists"@) != bytes::text("publish"@),
        bytes::text("expire"@) != bytes::text("expireat"@),
        bytes::text("expire"@) != bytes::text("pexpireat"@),
        bytes::text("expire"@) != bytes::text("ttl"@),
        bytes::text("expire"@) != bytes::text("persist"@),
        bytes::text("expire"@) != bytes::text("subscribe"@),
        bytes::text("expire"@) != bytes::text("unsubscribe"@),
        bytes::text("expire"@) != bytes::text("publish"@),
        bytes::text("expireat"@) != bytes::text("pexpireat"@),
        bytes::text("expireat"@) != bytes::text("ttl"@),
        bytes::text("expireat"@) != bytes::text("persist"@),
        bytes::text("expireat"@) != bytes::text("subscribe"@),
        bytes::text("expireat"@) != bytes::text("unsubscribe"@),
        bytes::text("expireat"@) != bytes::text("publish"@),
        bytes::text("pexpireat"@) != bytes::text("ttl"@),
        bytes::text("pexpireat"@) != bytes::text("persist"@),
        bytes::text("pexpireat"@) != bytes::text("subscribe"@),
        bytes::text("pexpireat"@) != bytes::text("unsubscribe"@),
        bytes::text("pexpireat"@) != bytes::text("publish"@),
        bytes::text("ttl"@) != bytes::text("persist"@),
        bytes::text("ttl"@) != bytes::text("subscribe"@),
        bytes::text("ttl"@) != bytes::text("unsubscribe"@),
        bytes::text("ttl"@) != bytes::text("publish"@),
        bytes::text("persist"@) != bytes::text("subscribe"@),
        bytes::text("persist"@) != bytes::text("unsubscribe"@),
        bytes::text("persist"@) != bytes::text("publish"@),
        bytes::text("subscribe"@) != bytes::text("unsubscribe"@),
        bytes::text("subscribe"@) != bytes::text("publish"@),
        bytes::text("unsubscribe"@) != bytes::text("publish"@),
{
    reveal_strlit("get");
    reveal_strlit("set");
    reveal_strlit("del");
    reveal_strlit("ping");
    reveal_strlit("exists");
    reveal_strlit("expire");
    reveal_strlit("expireat");
    reveal_strlit("pexpireat");
    reveal_strlit("ttl");
    reveal_strlit("persist");
    reveal_strlit("subscribe");
    reveal_strlit("unsubscribe");
    reveal_strlit("publish");
    bytes::ascii_text("get"@);
    bytes::ascii_text("set"@);
    bytes::ascii_text("del"@);
    bytes::ascii_text("ping"@);
    bytes::ascii_text("exists"@);
    bytes::ascii_text("expire"@);
    bytes::ascii_text("expireat"@);
    bytes::ascii_text("pexpireat"@);
    bytes::ascii_text("ttl"@);
    bytes::ascii_text("persist"@);
    bytes::ascii_text("subscribe"@);
    bytes::ascii_text("unsubscribe"@);
    bytes::ascii_text("publish"@);
    assert(bytes::text("get"@)[0] != bytes::text("set"@)[0]);
    assert(bytes::text("get"@)[0] != bytes::text("del"@)[0]);
    assert(bytes::text("get"@).len() != bytes::text("ping"@).len());
    assert(bytes::text("get"@).len() != bytes::text("exists"@).len());
    assert(bytes::text("get"@).len() != bytes::text("expire"@).len());
    assert(bytes::text("get"@).len() != bytes::text("expireat"@).len());
    assert(bytes::text("get"@).len() != bytes::text("pexpireat"@).len());
    assert(bytes::text("get"@)[0] != bytes::text("ttl"@)[0]);
    assert(bytes::text("get"@).len() != bytes::text("persist"@).len());
    assert(bytes::text("get"@).len() != bytes::text("subscribe"@).len());
    assert(bytes::text("get"@).len() != bytes::text("unsubscribe"@).len());
    assert(bytes::text("get"@).len() != bytes::text("publish"@).len());
    assert(bytes::text("set"@)[0] != bytes::text("del"@)[0]);
    assert(bytes::text("set"@).len() != bytes::text("ping"@).len());
    assert(bytes::text("set"@).len() != bytes::text("exists"@).len());
    assert(bytes::text("set"@).len() != bytes::text("expire"@).len());
    assert(bytes::text("set"@).len() != bytes::text("expireat"@).len());
    assert(bytes::text("set"@).len() != bytes::text("pexpireat"@).len());
    assert(bytes::text("set"@)[0] != bytes::text("ttl"@)[0]);
    assert(bytes::text("set"@).len() != bytes::text("persist"@).len());
    assert(bytes::text("set"@).len() != bytes::text("subscribe"@).len());
    assert(bytes::text("set"@).len() != bytes::text("unsubscribe"@).len());
    assert(bytes::text("set"@).len() != bytes::text("publish"@).len());
    assert(bytes::text("del"@).len() != bytes::text("ping"@).len());
    assert(bytes::text("del"@).len() != bytes::text("exists"@).len());
    assert(bytes::text("del"@).len() != bytes::text("expire"@).len());
    assert(bytes::text("del"@).len() != bytes::text("expireat"@).len());
    assert(bytes::text("del"@).len() != bytes::text("pexpireat"@).len());
    assert(bytes::text("del"@)[0] != bytes::text("ttl"@)[0]);
    assert(bytes::text("del"@).len() != bytes::text("persist"@).len());
    assert(bytes::text("del"@).len() != bytes::text("subscribe"@).len());
    assert(bytes::text("del"@).len() != bytes::text("unsubscribe"@).len());
    assert(bytes::text("del"@).len() != bytes::text("publish"@).len());
    assert(bytes::text("ping"@).len() != bytes::text("exists"@).len());
    assert(bytes::text("ping"@).len() != bytes::text("expire"@).len());
    assert(bytes::text("ping"@).len() != bytes::text("expireat"@).len());
    assert(bytes::text("ping"@).len() != bytes::text("pexpireat"@).len());
    assert(bytes::text("ping"@).len() != bytes::text("ttl"@).len());
    assert(bytes::text("ping"@).len() != bytes::text("persist"@).len());
    assert(bytes::text("ping"@).len() != bytes::text("subscribe"@).len());
    assert(bytes::text("ping"@).len() != bytes::text("unsubscribe"@).len());
    assert(bytes::text("ping"@).len() != bytes::text("publish"@).len());
    assert(bytes::text("exists"@)[2] != bytes::text("expire"@)[2]);
    assert(bytes::text("exists"@).len() != bytes::text("expireat"@).len());
    assert(bytes::text("exists"@).len() != bytes::text("pexpireat"@).len());
    assert(bytes::text("exists"@).len() != bytes::text("ttl"@).len());
    assert(bytes::text("exists"@).len() != bytes::text("persist"@).len());
    assert(bytes::text("exists"@).len() != bytes::text("subscribe"@).len());
    assert(bytes::text("exists"@).len() != bytes::text("unsubscribe"@).len());
    assert(bytes::text("exists"@).len() != bytes::text("publish"@).len());
    assert(bytes::text("expire"@).len() != bytes::text("expireat"@).len());
    assert(bytes::text("expire"@).len() != bytes::text("pexpireat"@).len());
    assert(bytes::text("expire"@).len() != bytes::text("ttl"@).len());
    assert(bytes::text("expire"@).len() != bytes::text("persist"@).len());
    assert(bytes::text("expire"@).len() != bytes::text("subscribe"@).len());
    assert(bytes::text("expire"@).len() != bytes::text("unsubscribe"@).len());
    assert(bytes::text("expire"@).len() != bytes::text("publish"@).len());
    assert(bytes::text("expireat"@).len() != bytes::text("pexpireat"@).len());
    assert(bytes::text("expireat"@).len() != bytes::text("ttl"@).len());
    assert(bytes::text("expireat"@).len() != bytes::text("persist"@).len());
    assert(bytes::text("expireat"@).len() != bytes::text("subscribe"@).len());
    assert(bytes::text("expireat"@).len() != bytes::text("unsubscribe"@).len());
    assert(bytes::text("expireat"@).len() != bytes::text("publish"@).len());
    assert(bytes::text("pexpireat"@).len() != bytes::text("ttl"@).len());
    assert(bytes::text("pexpireat"@).len() != bytes::text("persist"@).len());
    assert(bytes::text("pexpireat"@)[0] != bytes::text("subscribe"@)[0]);
    assert(bytes::text("pexpireat"@).len() != bytes::text("unsubscribe"@).len());
    assert(bytes::text("pexpireat"@).len() != bytes::text("publish"@).len());
    assert(bytes::text("ttl"@).len() != bytes::text("persist"@).len());
    assert(bytes::text("ttl"@).len() != bytes::text("subscribe"@).len());
    assert(bytes::text("ttl"@).len() != bytes::text("unsubscribe"@).len());
    assert(bytes::text("ttl"@).len() != bytes::text("publish"@).len());
    assert(bytes::text("persist"@).len() != bytes::text("subscribe"@).len());
    assert(bytes::text("persist"@).len() != bytes::text("unsubscribe"@).len());
    assert(bytes::text("persist"@)[1] != bytes::text("publish"@)[1]);
    assert(bytes::text("subscribe"@).len() != bytes::text("unsubscribe"@).len());
    assert(bytes::text("subscribe"@).len() != bytes::text("publish"@).len());
    assert(bytes::text("unsubscribe"@).len() != bytes::text("publish"@).len());
}

/// The options of `SET` are words in lower case, and no two are the same.
proof fn the_options_differ()
    ensures
        is_lower("ex"@),
        is_lower("px"@),
        is_lower("exat"@),
        is_lower("pxat"@),
        bytes::text("ex"@) != bytes::text("px"@),
        bytes::text("ex"@) != bytes::text("exat"@),
        bytes::text("ex"@) != bytes::text("pxat"@),
        bytes::text("px"@) != bytes::text("exat"@),
        bytes::text("px"@) != bytes::text("pxat"@),
        bytes::text("exat"@) != bytes::text("pxat"@),
{
    reveal_strlit("ex");
    reveal_strlit("px");
    reveal_strlit("exat");
    reveal_strlit("pxat");
    bytes::ascii_text("ex"@);
    bytes::ascii_text("px"@);
    bytes::ascii_text("exat"@);
    bytes::ascii_text("pxat"@);
    assert(bytes::text("ex"@)[0] != bytes::text("px"@)[0]);
    assert(bytes::text("ex"@).len() != bytes::text("exat"@).len());
    assert(bytes::text("ex"@).len() != bytes::text("pxat"@).len());
    assert(bytes::text("px"@).len() != bytes::text("exat"@).len());
    assert(bytes::text("px"@).len() != bytes::text("pxat"@).len());
    assert(bytes::text("exat"@)[0] != bytes::text("pxat"@)[0]);
}

/// A request goes by the verb it starts with, in whatever case that is.
proof fn goes_by_its_verb(parts: Seq<FrameView>, verb: Seq<u8>, word: Seq<char>)
    requires
        parts.len() > 0,
        parts[0] == FrameView::BulkString(verb),
        spelled(verb, word),
        is_lower(word),
    ensures
        parser::request_of(FrameView::Array(parts)) == parser::request_for(bytes::text(word), parts),
{
    folding_finds_the_word(verb, word);
    assert(parser::part(parts, 0) == Ok::<Seq<u8>, CommandFromFrameError>(verb));
}

/// A number that an argument spells, as the two kinds of commands read it.
proof fn amounts_are_read(s: Seq<u8>, n: nat)
    requires
        decimal::spells(s, n),
    ensures
        n <= u64::MAX ==> parser::amount(s, false) == Ok::<u64, CommandFromFrameError>(n as u64),
        n > u64::MAX ==> parser::amount(s, false) == Err::<u64, CommandFromFrameError>(too_large()),
        parser::amount(s, true) == Ok::<u64, CommandFromFrameError>(time::saturated(n as int)),
{
    decimal::spelled_numbers_are_read(s, n, u64::MAX as nat);
    command_laws::only_dates_in_seconds_are_clamped(s);
}

/// The fault of an argument that names too large a number.
pub open spec fn too_large() -> CommandFromFrameError {
    CommandFromFrameError::CommandError(
        CommandError::ParseInt(ParseIntError { kind: IntErrorKind::PosOverflow }),
    )
}

/// The fault of a request that lacks an argument.
pub open spec fn too_few() -> CommandFromFrameError {
    CommandFromFrameError::CommandError(CommandError::NotEnoughParts)
}

/// The fault of a request with an argument too many.
pub open spec fn too_many() -> CommandFromFrameError {
    CommandFromFrameError::CommandError(CommandError::TooManyParts)
}

/// `GET key` is about that key, byte for byte, whatever the clock says.
pub proof fn get_is_about_its_key(verb: Seq<u8>, key: Seq<u8>, clock: Reading)
    requires
        spelled(verb, "get"@),
    ensures
        parser::command_of(request(seq![verb, key]), clock) == Ok::<
            CommandView,
            CommandFromFrameError,
        >(CommandView::Cache(CacheCommandView::Read(ReadCommandView::Get { key }))),
{
    let parts = request(seq![verb, key])->Array_0;
    the_verbs_differ();
    goes_by_its_verb(parts, verb, "get"@);
    assert(parser::only_argument(parts) == Ok::<Seq<u8>, CommandFromFrameError>(key));
}

/// `EXISTS key` is about that key, byte for byte, whatever the clock says.
pub proof fn exists_is_about_its_key(verb: Seq<u8>, key: Seq<u8>, clock: Reading)
    requires
        spelled(verb, "exists"@),
    ensures
        parser::command_of(request(seq![verb, key]), clock) == Ok::<
            CommandView,
            CommandFromFrameError,
        >(CommandView::Cache(CacheCommandView::Read(ReadCommandView::Exists { key }))),
{
    let parts = request(seq![verb, key])->Array_0;
    the_verbs_differ();
    goes_by_its_verb(parts, verb, "exists"@);
    assert(parser::only_argument(parts) == Ok::<Seq<u8>, CommandFromFrameError>(key));
}

/// `TTL key` is about that key, byte for byte, whatever the clock says.
pub proof fn ttl_is_about_its_key(verb: Seq<u8>, key: Seq<u8>, clock: Reading)
    requires
        spelled(verb, "ttl"@),
    ensures
        parser::command_of(request(seq![verb, key]), clock) == Ok::<
            CommandView,
            CommandFromFrameError,
        >(CommandView::Cache(CacheCommandView::Read(ReadCommandView::Ttl { key }))),
{
    let parts = request(seq![verb, key])->Array_0;
    the_verbs_differ();
    goes_by_its_verb(parts, verb, "ttl"@);
    assert(parser::only_argument(parts) == Ok::<Seq<u8>, CommandFromFrameError>(key));
}

/// `DEL key` is about that key, byte for byte, whatever the clock says.
pub proof fn del_is_about_its_key(verb: Seq<u8>, key: Seq<u8>, clock: Reading)
    requires
        spelled(verb, "del"@),
    ensures
        parser::command_of(request(seq![verb, key]), clock) == Ok::<
            CommandView,
            CommandFromFrameError,
        >(CommandView::Cache(CacheCommandView::Write(WriteCommandView::Delete { key }))),
{
    let parts = request(seq![verb, key])->Array_0;
    the_verbs_differ();
    goes_by_its_verb(parts, verb, "del"@);
    assert(parser::only_argument(parts) == Ok::<Seq<u8>, CommandFromFrameError>(key));
}

/// `PERSIST key` is about that key, byte for byte, whatever the clock says.
pub proof fn persist_is_about_its_key(verb: Seq<u8>, key: Seq<u8>, clock: Reading)
    requires
        spelled(verb, "persist"@),
    ensures
        parser::command_of(request(seq![verb, key]), clock) == Ok::<
            CommandView,
            CommandFromFrameError,
        >(CommandView::Cache(CacheCommandView::Write(WriteCommandView::Persist { key }))),
{
    let parts = request(seq![verb, key])->Array_0;
    the_verbs_differ();
    goes_by_its_verb(parts, verb, "persist"@);
    assert(parser::only_argument(parts) == Ok::<Seq<u8>, CommandFromFrameError>(key));
}

/// `verb` is one of those that take one key.
pub open spec fn takes_one_key(verb: Seq<u8>) -> bool {
    ||| spelled(verb, "get"@)
    ||| spelled(verb, "exists"@)
    ||| spelled(verb, "ttl"@)
    ||| spelled(verb, "del"@)
    ||| spelled(verb, "persist"@)
}

/// A verb that takes one key takes one, and a bulk string: with none it lacks an argument, an
/// array in its place is no key, and with anything behind it there is too much.
pub proof fn one_key_is_one_key(parts: Seq<FrameView>, verb: Seq<u8>, clock: Reading)
    requires
        parts.len() > 0,
        parts[0] == FrameView::BulkString(verb),
        takes_one_key(verb),
    ensures
        ({
            let read = parser::command_of(FrameView::Array(parts), clock);
            &&& parts.len() == 1 ==> read == Err::<CommandView, CommandFromFrameError>(too_few())
            &&& parts.len() > 1 && parts[1] is Array ==> read == Err::<
                CommandView,
                CommandFromFrameError,
            >(CommandFromFrameError::UnexpectedFrame)
            &&& parts.len() > 2 && parts[1] is BulkString ==> read == Err::<
                CommandView,
                CommandFromFrameError,
            >(too_many())
        }),
{
    the_verbs_differ();

    if spelled(verb, "get"@) {
        goes_by_its_verb(parts, verb, "get"@);
    }
    if spelled(verb, "exists"@) {
        goes_by_its_verb(parts, verb, "exists"@);
    }
    if spelled(verb, "ttl"@) {
        goes_by_its_verb(parts, verb, "ttl"@);
    }
    if spelled(verb, "del"@) {
        goes_by_its_verb(parts, verb, "del"@);
    }
    if spelled(verb, "persist"@) {
        goes_by_its_verb(parts, verb, "persist"@);
    }
}

/// `PING` alone asks for a pong, with a message for that message, byte for byte, and with
/// anything else it is refused.
pub proof fn ping_carries_its_message(
    parts: Seq<FrameView>,
    verb: Seq<u8>,
    message: Seq<u8>,
    clock: Reading,
)
    requires
        parts.len() > 0,
        parts[0] == FrameView::BulkString(verb),
        spelled(verb, "ping"@),
    ensures
        parser::command_of(request(seq![verb]), clock) == Ok::<CommandView, CommandFromFrameError>(
            CommandView::Ping { message: None },
        ),
        parser::command_of(request(seq![verb, message]), clock) == Ok::<
            CommandView,
            CommandFromFrameError,
        >(CommandView::Ping { message: Some(message) }),
        parts.len() > 1 && parts[1] is Array ==> parser::command_of(FrameView::Array(parts), clock)
            == Err::<CommandView, CommandFromFrameError>(CommandFromFrameError::UnexpectedFrame),
        parts.len() > 2 && parts[1] is BulkString ==> parser::command_of(
            FrameView::Array(parts),
            clock,
        ) == Err::<CommandView, CommandFromFrameError>(too_many()),
{
    the_verbs_differ();
    let alone = request(seq![verb])->Array_0;
    let both = request(seq![verb, message])->Array_0;
    goes_by_its_verb(alone, verb, "ping"@);
    goes_by_its_verb(both, verb, "ping"@);
    goes_by_its_verb(parts, verb, "ping"@);
    assert(parser::only_argument(both) == Ok::<Seq<u8>, CommandFromFrameError>(message));
}

/// `PUBLISH channel message` sends that message to that channel, both byte for byte.
pub proof fn publish_is_read_byte_for_byte(
    verb: Seq<u8>,
    channel: Seq<u8>,
    message: Seq<u8>,
    clock: Reading,
)
    requires
        spelled(verb, "publish"@),
    ensures
        parser::command_of(request(seq![verb, channel, message]), clock) == Ok::<
            CommandView,
            CommandFromFrameError,
        >(CommandView::Channel(ChannelCommandView::Publish { channel_id: channel, message })),
{
    the_verbs_differ();
    goes_by_its_verb(request(seq![verb, channel, message])->Array_0, verb, "publish"@);
}

/// `PUBLISH` takes a channel and a message: with less it lacks an argument, an array in the
/// place of either is neither, and with anything behind them there is too much.
pub proof fn publish_takes_two(parts: Seq<FrameView>, verb: Seq<u8>, clock: Reading)
    requires
        parts.len() > 0,
        parts[0] == FrameView::BulkString(verb),
        spelled(verb, "publish"@),
    ensures
        ({
            let read = parser::command_of(FrameView::Array(parts), clock);
            &&& parts.len() < 3 ==> read == Err::<CommandView, CommandFromFrameError>(too_few())
            &&& parts.len() >= 3 && (parts[1] is Array || parts[2] is Array) ==> read == Err::<
                CommandView,
                CommandFromFrameError,
            >(CommandFromFrameError::UnexpectedFrame)
            &&& parts.len() > 3 && parts[1] is BulkString && parts[2] is BulkString ==> read == Err::<
                CommandView,
                CommandFromFrameError,
            >(too_many())
        }),
{
    the_verbs_differ();
    goes_by_its_verb(parts, verb, "publish"@);
}

/// `SUBSCRIBE` and `UNSUBSCRIBE` are about the channels named, all of them, in order, and
/// byte for byte. `SUBSCRIBE` names at least one; `UNSUBSCRIBE` may name none.
pub proof fn every_channel_named_is_read(verb: Seq<u8>, names: Seq<Seq<u8>>, clock: Reading)
    ensures
        ({
            let read = parser::command_of(request(seq![verb] + names), clock);
            &&& spelled(verb, "unsubscribe"@) ==> read == Ok::<CommandView, CommandFromFrameError>(
                CommandView::Channel(ChannelCommandView::Unsubscribe { channel_ids: names }),
            )
            &&& spelled(verb, "subscribe"@) && names.len() > 0 ==> read == Ok::<
                CommandView,
                CommandFromFrameError,
            >(CommandView::Channel(ChannelCommandView::Subscribe { channel_ids: names }))
            &&& spelled(verb, "subscribe"@) && names.len() == 0 ==> read == Err::<
                CommandView,
                CommandFromFrameError,
            >(too_few())
        }),
{
    the_verbs_differ();
    let parts = request(seq![verb] + names)->Array_0;
    assert forall|i: int| 1 <= i < parts.len() implies (#[trigger] parts[i]) is BulkString by {}
    assert(parser::channel_names(parts)->Ok_0 =~= names);
    assert(parser::channel_names(parts) == Ok::<Seq<Seq<u8>>, CommandFromFrameError>(names));
    if spelled(verb, "unsubscribe"@) {
        goes_by_its_verb(parts, verb, "unsubscribe"@);
    }
    if spelled(verb, "subscribe"@) {
        goes_by_its_verb(parts, verb, "subscribe"@);
    }
}

/// An array among the channels named is no name, wherever it stands.
pub proof fn channels_are_named_by_bulk_strings(
    parts: Seq<FrameView>,
    verb: Seq<u8>,
    at: int,
    clock: Reading,
)
    requires
        parts.len() > 0,
        parts[0] == FrameView::BulkString(verb),
        spelled(verb, "subscribe"@) || spelled(verb, "unsubscribe"@),
        1 <= at < parts.len(),
        parts[at] is Array,
    ensures
        parser::command_of(FrameView::Array(parts), clock) == Err::<
            CommandView,
            CommandFromFrameError,
        >(CommandFromFrameError::UnexpectedFrame),
{
    the_verbs_differ();
    assert(!(parts[at] is BulkString));
    if spelled(verb, "unsubscribe"@) {
        goes_by_its_verb(parts, verb, "unsubscribe"@);
    }
    if spelled(verb, "subscribe"@) {
        goes_by_its_verb(parts, verb, "subscribe"@);
    }
}

/// `EXPIRE key n` puts the deadline `n` seconds behind the reading of the clock, up to where
/// deadlines end, and fails where the clock does.
pub proof fn expire_counts_from_now(
    verb: Seq<u8>,
    key: Seq<u8>,
    s: Seq<u8>,
    n: nat,
    clock: Reading,
)
    requires
        spelled(verb, "expire"@),
        decimal::spells(s, n),
    ensures
        ({
            let read = parser::command_of(request(seq![verb, key, s]), clock);
            if n > u64::MAX {
                read == Err::<CommandView, CommandFromFrameError>(too_large())
            } else {
                match clock {
                    Ok(now) => {
                        &&& read matches Ok(
                            CommandView::Cache(
                                CacheCommandView::Write(
                                    WriteCommandView::ExpireAt { key: k, expires_at },
                                ),
                            ),
                        )
                        &&& k == key
                        &&& now.0 + n * 1000 <= u64::MAX ==> expires_at.0 - now.0 == n * 1000
                        &&& now.0 + n * 1000 > u64::MAX ==> expires_at.0 == u64::MAX
                    },
                    Err(e) => read == Err::<CommandView, CommandFromFrameError>(
                        CommandFromFrameError::SystemTime(e),
                    ),
                }
            }
        }),
{
    the_verbs_differ();
    amounts_are_read(s, n);
    key_and_number(verb, key, s, false);
    goes_by_its_verb(request(seq![verb, key, s])->Array_0, verb, "expire"@);
}

/// The key and the number of a request made of these two.
proof fn key_and_number(verb: Seq<u8>, key: Seq<u8>, s: Seq<u8>, clamped: bool)
    ensures
        parser::key_and_amount(request(seq![verb, key, s])->Array_0, clamped) == (
        match parser::amount(s, clamped) {
            Ok(n) => Ok::<(Seq<u8>, u64), CommandFromFrameError>((key, n)),
            Err(e) => Err(e),
        }),
{
    let parts = request(seq![verb, key, s])->Array_0;
    assert(parser::part(parts, 1) == Ok::<Seq<u8>, CommandFromFrameError>(key));
    assert(parser::part(parts, 2) == Ok::<Seq<u8>, CommandFromFrameError>(s));
}

/// `EXPIREAT key n` puts the deadline `n` seconds behind the epoch, up to where deadlines
/// end, and `PEXPIREAT key n` that many milliseconds, whatever the clock says.
pub proof fn dates_count_from_the_epoch(
    verb: Seq<u8>,
    key: Seq<u8>,
    s: Seq<u8>,
    n: nat,
    clock: Reading,
)
    requires
        decimal::spells(s, n),
    ensures
        ({
            let read = parser::command_of(request(seq![verb, key, s]), clock);
            &&& spelled(verb, "expireat"@) ==> read == Ok::<CommandView, CommandFromFrameError>(
                CommandView::Cache(
                    CacheCommandView::Write(
                        WriteCommandView::ExpireAt {
                            key,
                            expires_at: Milliseconds(
                                if n * 1000 <= u64::MAX {
                                    (n * 1000) as u64
                                } else {
                                    u64::MAX
                                },
                            ),
                        },
                    ),
                ),
            )
            &&& spelled(verb, "pexpireat"@) && n <= u64::MAX ==> read == Ok::<
                CommandView,
                CommandFromFrameError,
            >(
                CommandView::Cache(
                    CacheCommandView::Write(
                        WriteCommandView::ExpireAt { key, expires_at: Milliseconds(n as u64) },
                    ),
                ),
            )
            &&& spelled(verb, "pexpireat"@) && n > u64::MAX ==> read == Err::<
                CommandView,
                CommandFromFrameError,
            >(too_large())
        }),
{
    the_verbs_differ();
    amounts_are_read(s, n);
    key_and_number(verb, key, s, false);
    key_and_number(verb, key, s, true);
    let parts = request(seq![verb, key, s])->Array_0;
    if spelled(verb, "expireat"@) {
        goes_by_its_verb(parts, verb, "expireat"@);
    }
    if spelled(verb, "pexpireat"@) {
        goes_by_its_verb(parts, verb, "pexpireat"@);
    }
}

/// `verb` is one of those that take a key and a number.
pub open spec fn takes_key_and_number(verb: Seq<u8>) -> bool {
    ||| spelled(verb, "expire"@)
    ||| spelled(verb, "expireat"@)
    ||| spelled(verb, "pexpireat"@)
}

/// The fault of an argument that is no number: bytes that are no UTF-8 are told from text
/// that does not parse.
pub open spec fn no_number(s: Seq<u8>, e: CommandFromFrameError) -> bool {
    match e {
        CommandFromFrameError::CommandError(CommandError::Utf8(_)) => !vstd::utf8::valid_utf8(s),
        CommandFromFrameError::CommandError(CommandError::ParseInt(fault)) => {
            &&& vstd::utf8::valid_utf8(s)
            &&& decimal::parse(s, u64::MAX as nat) == Err::<nat, IntErrorKind>(fault.kind)
        },
        _ => false,
    }
}

/// What spells no number is refused as an amount.
proof fn other_amounts_are_refused(s: Seq<u8>, clamped: bool)
    requires
        forall|n: nat| !decimal::spells(s, n),
    ensures
        parser::amount(s, clamped) is Err,
        no_number(s, parser::amount(s, clamped)->Err_0),
{
    utf8::no_fault_iff_valid(s);
    if utf8::first_fault(s) is None {
        if decimal::parse(s, u64::MAX as nat) is Ok {
            decimal::read_numbers_are_spelled(s, u64::MAX as nat);
        }
        if decimal::is_number(s) {
            decimal::number_is_digits(s);
            let body = decimal::unsigned_part(s);
            let n = decimal::value(body);
            assert forall|i: int| 0 <= i < body.len() implies 48 <= #[trigger] body[i] <= 57 by {
                assert(decimal::is_digit(body[i]));
            }
            assert(decimal::spells_plainly(body, n));
            assert(decimal::spells(s, n));
        }
    }
}

/// A verb that takes a key and a number takes these two: what is missing is reported, an
/// array is neither, what spells no number is refused for that, and with anything behind
/// them there is too much. Faults are reported from the left.
pub proof fn a_key_and_a_number_are_needed(parts: Seq<FrameView>, verb: Seq<u8>, clock: Reading)
    requires
        parts.len() > 0,
        parts[0] == FrameView::BulkString(verb),
        takes_key_and_number(verb),
    ensures
        ({
            let read = parser::command_of(FrameView::Array(parts), clock);
            &&& parts.len() == 1 ==> read == Err::<CommandView, CommandFromFrameError>(too_few())
            &&& parts.len() > 1 && parts[1] is Array ==> read == Err::<
                CommandView,
                CommandFromFrameError,
            >(CommandFromFrameError::UnexpectedFrame)
            &&& parts.len() == 2 && parts[1] is BulkString ==> read == Err::<
                CommandView,
                CommandFromFrameError,
            >(too_few())
            &&& parts.len() > 2 && parts[1] is BulkString && parts[2] is Array ==> read == Err::<
                CommandView,
                CommandFromFrameError,
            >(CommandFromFrameError::UnexpectedFrame)
            &&& parts.len() > 2 && parts[1] is BulkString && (parts[2] matches FrameView::BulkString(
                s,
            ) && (forall|n: nat| !decimal::spells(s, n))) ==> read is Err && no_number(
                parts[2]->BulkString_0,
                read->Err_0,
            )
            &&& parts.len() > 3 && parts[1] is BulkString && (parts[2] matches FrameView::BulkString(
                s,
            ) && (exists|n: nat| #[trigger] decimal::spells(s, n) && n <= u64::MAX)) ==> read
                == Err::<CommandView, CommandFromFrameError>(too_many())
        }),
{
    the_verbs_differ();
    if parts.len() > 2 && parts[2] is BulkString {
        let s = parts[2]->BulkString_0;
        if forall|n: nat| !decimal::spells(s, n) {
            other_amounts_are_refused(s, true);
            other_amounts_are_refused(s, false);
        }
        if exists|n: nat| #[trigger] decimal::spells(s, n) && n <= u64::MAX {
            let n = choose|n: nat| #[trigger] decimal::spells(s, n) && n <= u64::MAX;
            amounts_are_read(s, n);
        }
    }
    if spelled(verb, "expire"@) {
        goes_by_its_verb(parts, verb, "expire"@);
    }
    if spelled(verb, "expireat"@) {
        goes_by_its_verb(parts, verb, "expireat"@);
    }
    if spelled(verb, "pexpireat"@) {
        goes_by_its_verb(parts, verb, "pexpireat"@);
    }
}

/// A plain `SET key value` stores that value under that key, both byte for byte, with no
/// deadline, whatever the clock says.
pub proof fn plain_set_is_read_byte_for_byte(
    verb: Seq<u8>,
    key: Seq<u8>,
    value: Seq<u8>,
    clock: Reading,
)
    requires
        spelled(verb, "set"@),
    ensures
        parser::command_of(request(seq![verb, key, value]), clock) == Ok::<
            CommandView,
            CommandFromFrameError,
        >(
            CommandView::Cache(
                CacheCommandView::Write(WriteCommandView::SetKey { key, value, expires_at: None }),
            ),
        ),
{
    the_verbs_differ();
    let parts = request(seq![verb, key, value])->Array_0;
    goes_by_its_verb(parts, verb, "set"@);
    assert(parser::part(parts, 1) == Ok::<Seq<u8>, CommandFromFrameError>(key));
    assert(parser::part(parts, 2) == Ok::<Seq<u8>, CommandFromFrameError>(value));
}

/// A `SET` with an option, as its arguments are taken apart.
proof fn set_goes_by_its_option(
    verb: Seq<u8>,
    key: Seq<u8>,
    value: Seq<u8>,
    option: Seq<u8>,
    s: Seq<u8>,
    word: Seq<char>,
)
    requires
        spelled(verb, "set"@),
        spelled(option, word),
        is_lower(word),
    ensures
        ({
            let parts = request(seq![verb, key, value, option, s])->Array_0;
            &&& parser::request_of(FrameView::Array(parts)) == parser::set_with_option(
                parts,
                key,
                value,
                bytes::text(word),
            )
            &&& parser::part(parts, 4) == Ok::<Seq<u8>, CommandFromFrameError>(s)
            &&& parts.len() == 5
        }),
{
    the_verbs_differ();
    let parts = request(seq![verb, key, value, option, s])->Array_0;
    goes_by_its_verb(parts, verb, "set"@);
    folding_finds_the_word(option, word);
    assert(parser::part(parts, 1) == Ok::<Seq<u8>, CommandFromFrameError>(key));
    assert(parser::part(parts, 2) == Ok::<Seq<u8>, CommandFromFrameError>(value));
    assert(parser::part(parts, 3) == Ok::<Seq<u8>, CommandFromFrameError>(option));
}

/// `SET key value EX n` stores that value under that key, both byte for byte, with a deadline
/// `n` seconds behind the reading of the clock, up to where deadlines end; `PX n` puts it `n`
/// milliseconds behind. Both fail where the clock does.
pub proof fn set_for_a_span_counts_from_now(
    verb: Seq<u8>,
    key: Seq<u8>,
    value: Seq<u8>,
    option: Seq<u8>,
    s: Seq<u8>,
    n: nat,
    clock: Reading,
)
    requires
        spelled(verb, "set"@),
        spelled(option, "ex"@) || spelled(option, "px"@),
        decimal::spells(s, n),
    ensures
        ({
            let read = parser::command_of(request(seq![verb, key, value, option, s]), clock);
            let span = if spelled(option, "ex"@) {
                n * 1000
            } else {
                n
            };
            if n > u64::MAX {
                read == Err::<CommandView, CommandFromFrameError>(too_large())
            } else {
                match clock {
                    Ok(now) => {
                        &&& read matches Ok(
                            CommandView::Cache(
                                CacheCommandView::Write(
                                    WriteCommandView::SetKey {
                                        key: k,
                                        value: v,
                                        expires_at: Some(deadline),
                                    },
                                ),
                            ),
                        )
                        &&& k == key
                        &&& v == value
                        &&& now.0 + span <= u64::MAX ==> deadline.0 - now.0 == span
                        &&& now.0 + span > u64::MAX ==> deadline.0 == u64::MAX
                    },
                    Err(e) => read == Err::<CommandView, CommandFromFrameError>(
                        CommandFromFrameError::SystemTime(e),
                    ),
                }
            }
        }),
{
    the_options_differ();
    amounts_are_read(s, n);
    if spelled(option, "ex"@) {
        set_goes_by_its_option(verb, key, value, option, s, "ex"@);
        assert(!spelled(option, "px"@)) by {
            folding_finds_the_word(option, "ex"@);
            folding_finds_the_word(option, "px"@);
        }
    } else {
        set_goes_by_its_option(verb, key, value, option, s, "px"@);
    }
}

/// `SET key value EXAT n` stores that value under that key, both byte for byte, with a
/// deadline `n` seconds behind the epoch, up to where deadlines end; `PXAT n` puts it `n`
/// milliseconds behind. Neither looks at the clock.
pub proof fn set_until_a_date_counts_from_the_epoch(
    verb: Seq<u8>,
    key: Seq<u8>,
    value: Seq<u8>,
    option: Seq<u8>,
    s: Seq<u8>,
    n: nat,
    clock: Reading,
)
    requires
        spelled(verb, "set"@),
        decimal::spells(s, n),
    ensures
        ({
            let read = parser::command_of(request(seq![verb, key, value, option, s]), clock);
            &&& spelled(option, "exat"@) ==> read == Ok::<CommandView, CommandFromFrameError>(
                CommandView::Cache(
                    CacheCommandView::Write(
                        WriteCommandView::SetKey {
                            key,
                            value,
                            expires_at: Some(
                                Milliseconds(
                                    if n * 1000 <= u64::MAX {
                                        (n * 1000) as u64
                                    } else {
                                        u64::MAX
                                    },
                                ),
                            ),
                        },
                    ),
                ),
            )
            &&& spelled(option, "pxat"@) && n <= u64::MAX ==> read == Ok::<
                CommandView,
                CommandFromFrameError,
            >(
                CommandView::Cache(
                    CacheCommandView::Write(
                        WriteCommandView::SetKey {
                            key,
                            value,
                            expires_at: Some(Milliseconds(n as u64)),
                        },
                    ),
                ),
            )
            &&& spelled(option, "pxat"@) && n > u64::MAX ==> read == Err::<
                CommandView,
                CommandFromFrameError,
            >(too_large())
        }),
{
    the_options_differ();
    amounts_are_read(s, n);
    if spelled(option, "exat"@) {
        set_goes_by_its_option(verb, key, value, option, s, "exat"@);
    }
    if spelled(option, "pxat"@) {
        set_goes_by_its_option(verb, key, value, option, s, "pxat"@);
    }
}

/// `option` is one of the keywords that `SET` knows.
pub open spec fn is_set_option(option: Seq<u8>) -> bool {
    ||| spelled(option, "ex"@)
    ||| spelled(option, "px"@)
    ||| spelled(option, "exat"@)
    ||| spelled(option, "pxat"@)
}

/// The keywords that `SET` knows are these four, in whatever case.
proof fn set_knows_four_options(option: Seq<u8>)
    ensures
        parser::is_option(bytes::lowercase(option)) == is_set_option(option),
{
    the_options_differ();
    folding_finds_the_word(option, "ex"@);
    folding_finds_the_word(option, "px"@);
    folding_finds_the_word(option, "exat"@);
    folding_finds_the_word(option, "pxat"@);
}

/// What is wrong with a `SET`, from the left: a key or a value that is missing or an array,
/// an option that is an array or not known, a number that is missing, an array, or none.
pub proof fn malformed_sets_are_refused(parts: Seq<FrameView>, verb: Seq<u8>, clock: Reading)
    requires
        parts.len() > 0,
        parts[0] == FrameView::BulkString(verb),
        spelled(verb, "set"@),
    ensures
        ({
            let read = parser::command_of(FrameView::Array(parts), clock);
            let unexpected = Err::<CommandView, CommandFromFrameError>(
                CommandFromFrameError::UnexpectedFrame,
            );
            let few = Err::<CommandView, CommandFromFrameError>(too_few());
            let pair = parts.len() > 2 && parts[1] is BulkString && parts[2] is BulkString;
            &&& parts.len() == 1 ==> read == few
            &&& parts.len() > 1 && parts[1] is Array ==> read == unexpected
            &&& parts.len() == 2 && parts[1] is BulkString ==> read == few
            &&& parts.len() > 2 && parts[1] is BulkString && parts[2] is Array ==> read == unexpected
            &&& pair && parts.len() > 3 && parts[3] is Array ==> read == unexpected
            &&& pair && parts.len() > 3 && (parts[3] matches FrameView::BulkString(option)
                && !is_set_option(option)) ==> read == Err::<CommandView, CommandFromFrameError>(
                CommandFromFrameError::CommandError(CommandError::Syntax),
            )
            &&& pair && parts.len() == 4 && (parts[3] matches FrameView::BulkString(option)
                && is_set_option(option)) ==> read == few
            &&& pair && parts.len() > 4 && (parts[3] matches FrameView::BulkString(option)
                && is_set_option(option)) && parts[4] is Array ==> read == unexpected
            &&& pair && parts.len() > 4 && (parts[3] matches FrameView::BulkString(option)
                && is_set_option(option)) && (parts[4] matches FrameView::BulkString(s) && (forall|
                n: nat,
            | !decimal::spells(s, n))) ==> read is Err && no_number(
                parts[4]->BulkString_0,
                read->Err_0,
            )
        }),
{
    the_verbs_differ();
    goes_by_its_verb(parts, verb, "set"@);
    if parts.len() > 3 && parts[3] is BulkString {
        set_knows_four_options(parts[3]->BulkString_0);
    }
    if parts.len() > 4 && parts[4] is BulkString {
        let s = parts[4]->BulkString_0;
        if forall|n: nat| !decimal::spells(s, n) {
            other_amounts_are_refused(s, true);
            other_amounts_are_refused(s, false);
        }
    }
}

/// Anything behind the number of a `SET` is too much. A span is only refused for it once the
/// clock has been read, so a clock that fails is reported first.
pub proof fn nothing_follows_the_number_of_a_set(
    parts: Seq<FrameView>,
    verb: Seq<u8>,
    option: Seq<u8>,
    s: Seq<u8>,
    n: nat,
    clock: Reading,
)
    requires
        parts.len() > 5,
        parts[0] == FrameView::BulkString(verb),
        spelled(verb, "set"@),
        parts[1] is BulkString,
        parts[2] is BulkString,
        parts[3] == FrameView::BulkString(option),
        is_set_option(option),
        parts[4] == FrameView::BulkString(s),
        decimal::spells(s, n),
        n <= u64::MAX,
    ensures
        parser::command_of(FrameView::Array(parts), clock) == Err::<
            CommandView,
            CommandFromFrameError,
        >(
            match clock {
                Err(e) if spelled(option, "ex"@) || spelled(option, "px"@) =>
                    CommandFromFrameError::SystemTime(e),
                _ => too_many(),
            },
        ),
{
    the_verbs_differ();
    the_options_differ();
    goes_by_its_verb(parts, verb, "set"@);
    amounts_are_read(s, n);
    folding_finds_the_word(option, "ex"@);
    folding_finds_the_word(option, "px"@);
    folding_finds_the_word(option, "exat"@);
    folding_finds_the_word(option, "pxat"@);
}

/// `verb` is one that is known.
pub open spec fn is_known(verb: Seq<u8>) -> bool {
    ||| takes_one_key(verb)
    ||| takes_key_and_number(verb)
    ||| spelled(verb, "set"@)
    ||| spelled(verb, "ping"@)
    ||| spelled(verb, "subscribe"@)
    ||| spelled(verb, "unsubscribe"@)
    ||| spelled(verb, "publish"@)
}

/// Any other verb is not recognized, whatever follows it; and what is no array, an empty one
/// and one that starts with an array are no requests at all.
pub proof fn nothing_else_is_a_request(f: FrameView, clock: Reading)
    ensures
        ({
            let read = parser::command_of(f, clock);
            match f {
                FrameView::BulkString(_) => read == Err::<CommandView, CommandFromFrameError>(
                    CommandFromFrameError::UnexpectedFrame,
                ),
                FrameView::Array(parts) => {
                    &&& parts.len() == 0 ==> read == Err::<CommandView, CommandFromFrameError>(
                        too_few(),
                    )
                    &&& parts.len() > 0 && parts[0] is Array ==> read == Err::<
                        CommandView,
                        CommandFromFrameError,
                    >(CommandFromFrameError::UnexpectedFrame)
                    &&& parts.len() > 0 && (parts[0] matches FrameView::BulkString(verb) && !is_known(
                        verb,
                    )) ==> read == Err::<CommandView, CommandFromFrameError>(
                        CommandFromFrameError::CommandError(CommandError::UnrecognizedCommand),
                    )
                },
            }
        }),
{
    if let FrameView::Array(parts) = f {
        if parts.len() > 0 && parts[0] is BulkString {
            let verb = parts[0]->BulkString_0;
            the_verbs_differ();

            folding_finds_the_word(verb, "get"@);
            folding_finds_the_word(verb, "set"@);
            folding_finds_the_word(verb, "del"@);
            folding_finds_the_word(verb, "ping"@);
            folding_finds_the_word(verb, "exists"@);
            folding_finds_the_word(verb, "expire"@);
            folding_finds_the_word(verb, "expireat"@);
            folding_finds_the_word(verb, "pexpireat"@);
            folding_finds_the_word(verb, "ttl"@);
            folding_finds_the_word(verb, "persist"@);
            folding_finds_the_word(verb, "subscribe"@);
            folding_finds_the_word(verb, "unsubscribe"@);
            folding_finds_the_word(verb, "publish"@);
        }
    }
}

} // verus!
