//! Laws of the command codec: a logged change reads back unchanged whatever the clock
//! says, verbs ignore case, an absurd deadline is clamped, and no relative deadline
//! survives the parse.

use vstd::prelude::*;

use crate::bytes;
use crate::decimal;
use crate::decimal::{IntErrorKind, ParseIntError};
use crate::domain::command;
use crate::domain::command::cache::write::WriteCommandView;
use crate::domain::command::{CommandError, CommandView};
use crate::domain::time;
use crate::domain::time::{Milliseconds, Reading, Seconds};
use crate::resp::command as parser;
use crate::resp::command::{CommandFromFrameError, RequestView};
use crate::resp::frame;
use crate::resp::frame::FrameView;
use crate::utf8;

verus! {

/// The verbs and keywords that the log uses: how long they are, how they read in lower case,
/// and the words that are tried before them.
pub proof fn log_words()
    ensures
        bytes::text("SET"@).len() == 3,
        bytes::text("DEL"@).len() == 3,
        bytes::text("PEXPIREAT"@).len() == 9,
        bytes::text("PERSIST"@).len() == 7,
        bytes::text("PXAT"@).len() == 4,
        bytes::lowercase(bytes::text("SET"@)) == bytes::text("set"@),
        bytes::lowercase(bytes::text("DEL"@)) == bytes::text("del"@),
        bytes::lowercase(bytes::text("PEXPIREAT"@)) == bytes::text("pexpireat"@),
        bytes::lowercase(bytes::text("PERSIST"@)) == bytes::text("persist"@),
        bytes::lowercase(bytes::text("PXAT"@)) == bytes::text("pxat"@),
        bytes::text("get"@) =~= seq![103u8, 101, 116],
        bytes::text("set"@) =~= seq![115u8, 101, 116],
        bytes::text("del"@) =~= seq![100u8, 101, 108],
        bytes::text("ping"@).len() == 4,
        bytes::text("exists"@).len() == 6,
        bytes::text("expire"@).len() == 6,
        bytes::text("expireat"@).len() == 8,
        bytes::text("pexpireat"@).len() == 9,
        bytes::text("ttl"@).len() == 3,
        bytes::text("persist"@).len() == 7,
        bytes::text("ex"@).len() == 2,
        bytes::text("px"@).len() == 2,
        bytes::text("exat"@) =~= seq![101u8, 120, 97, 116],
        bytes::text("pxat"@) =~= seq![112u8, 120, 97, 116],
{
    reveal_strlit("SET");
    reveal_strlit("DEL");
    reveal_strlit("PEXPIREAT");
    reveal_strlit("PERSIST");
    reveal_strlit("PXAT");
    reveal_strlit("get");
    reveal_strlit("set");
    reveal_strlit("del");
    reveal_strlit("ping");
    reveal_strlit("exists");
    reveal_strlit("expire");
    reveal_strlit("expireat");
    reveal_strlit("pexpireat");
    reveal_strlit("ttl");
    reveal_strlit("persist");
    reveal_strlit("ex");
    reveal_strlit("px");
    reveal_strlit("exat");
    reveal_strlit("pxat");
    bytes::ascii_text("SET"@);
    bytes::ascii_text("DEL"@);
    bytes::ascii_text("PEXPIREAT"@);
    bytes::ascii_text("PERSIST"@);
    bytes::ascii_text("PXAT"@);
    bytes::ascii_text("get"@);
    bytes::ascii_text("set"@);
    bytes::ascii_text("del"@);
    bytes::ascii_text("ping"@);
    bytes::ascii_text("exists"@);
    bytes::ascii_text("expire"@);
    bytes::ascii_text("expireat"@);
    bytes::ascii_text("pexpireat"@);
    bytes::ascii_text("ttl"@);
    bytes::ascii_text("persist"@);
    bytes::ascii_text("ex"@);
    bytes::ascii_text("px"@);
    bytes::ascii_text("exat"@);
    bytes::ascii_text("pxat"@);
    assert(bytes::lowercase(bytes::text("SET"@)) =~= bytes::text("set"@));
    assert(bytes::lowercase(bytes::text("DEL"@)) =~= bytes::text("del"@));
    assert(bytes::lowercase(bytes::text("PEXPIREAT"@)) =~= bytes::text("pexpireat"@));
    assert(bytes::lowercase(bytes::text("PERSIST"@)) =~= bytes::text("persist"@));
    assert(bytes::lowercase(bytes::text("PXAT"@)) =~= bytes::text("pxat"@));
}

/// The digits of a deadline read back as that deadline.
proof fn deadline_reads_back(n: u64)
    ensures
        parser::amount(decimal::digits(n as nat), false) == Ok::<u64, CommandFromFrameError>(n),
{
    let s = decimal::digits(n as nat);
    decimal::digits_are_digits(n as nat);
    assert forall|i: int| 0 <= i < s.len() implies #[trigger] s[i] <= 0x7f by {
        assert(decimal::is_digit(s[i]));
    }
    utf8::ascii_has_no_fault(s);
    decimal::digits_parse_back(n as nat, u64::MAX as nat);
}

/// A date in seconds is read whatever its size, and one too large for a `u64` is clamped
/// there, never refused. Any other amount that large is refused.
pub proof fn only_dates_in_seconds_are_clamped(s: Seq<u8>)
    requires
        decimal::is_number(s),
    ensures
        parser::amount(s, true) == Ok::<u64, CommandFromFrameError>(
            time::saturated(decimal::value(decimal::unsigned_part(s)) as int),
        ),
        parser::amount(s, false) == (if decimal::value(decimal::unsigned_part(s)) <= u64::MAX {
            parser::amount(s, true)
        } else {
            parser::fault(
                CommandError::ParseInt(ParseIntError { kind: IntErrorKind::PosOverflow }),
            )
        }),
{
    let body = decimal::unsigned_part(s);
    decimal::number_is_digits(s);
    assert forall|i: int| 0 <= i < s.len() implies #[trigger] s[i] <= 0x7f by {
        if body.len() == s.len() {
            assert(decimal::is_digit(body[i]));
        } else if i > 0 {
            assert(decimal::is_digit(body[i - 1]));
        }
    }
    utf8::ascii_has_no_fault(s);
    assert(body.take(body.len() as int) =~= body);
}

/// `EXPIREAT` in lower case.
proof fn expireat_in_lower_case()
    ensures
        bytes::lowercase(bytes::text("EXPIREAT"@)) == bytes::text("expireat"@),
{
    reveal_strlit("EXPIREAT");
    reveal_strlit("expireat");
    bytes::ascii_text("EXPIREAT"@);
    bytes::ascii_text("expireat"@);
    assert(bytes::lowercase(bytes::text("EXPIREAT"@)) =~= bytes::text("expireat"@));
}

/// `EXPIREAT` with a number past any clock's reach asks for the deadline that no clock
/// reaches, whatever the clock says.
pub proof fn absurd_expireat_never_comes(key: Seq<u8>, s: Seq<u8>, clock: Reading)
    requires
        decimal::is_number(s),
        decimal::value(decimal::unsigned_part(s)) * 1000 > u64::MAX,
    ensures
        parser::command_of(
            FrameView::Array(
                seq![
                    FrameView::BulkString(bytes::text("EXPIREAT"@)),
                    FrameView::BulkString(key),
                    FrameView::BulkString(s),
                ],
            ),
            clock,
        ) == Ok::<CommandView, CommandFromFrameError>(
            command::write(
                WriteCommandView::ExpireAt { key, expires_at: Milliseconds(u64::MAX) },
            ),
        ),
{
    let parts = seq![
        FrameView::BulkString(bytes::text("EXPIREAT"@)),
        FrameView::BulkString(key),
        FrameView::BulkString(s),
    ];
    let n = time::saturated(decimal::value(decimal::unsigned_part(s)) as int);
    assert(parser::key_and_amount(parts, true) == Ok::<(Seq<u8>, u64), CommandFromFrameError>((key, n)))
        by {
        only_dates_in_seconds_are_clamped(s);
        assert(parser::part(parts, 1) == Ok::<Seq<u8>, CommandFromFrameError>(key));
        assert(parser::part(parts, 2) == Ok::<Seq<u8>, CommandFromFrameError>(s));
    }
    assert(Seconds(n).millis() == Milliseconds(u64::MAX));
    expireat_in_lower_case();
    log_words();
    assert(parser::part(parts, 0) == Ok::<Seq<u8>, CommandFromFrameError>(
        bytes::text("EXPIREAT"@),
    ));
}

/// A change of state, written as a frame and read back, is the same change, whatever the
/// clock says and even where there is no clock.
pub proof fn logged_command_reads_back(
    c: WriteCommandView,
    clock: Reading,
)
    ensures
        parser::command_of(frame::write_frame(c), clock) == Ok::<
            CommandView,
            CommandFromFrameError,
        >(command::write(c)),
{
    log_words();
    let parts = frame::write_frame(c)->Array_0;
    match c {
        WriteCommandView::SetKey { key, value, expires_at } => {
            assert(bytes::text("set"@)[0] == 115);
            assert(bytes::text("get"@)[0] == 103);
            assert(parser::part(parts, 0) == Ok::<Seq<u8>, CommandFromFrameError>(
                bytes::text("SET"@),
            ));
            match expires_at {
                None => {},
                Some(t) => {
                    deadline_reads_back(t.0);
                    assert(bytes::text("exat"@)[0] == 101);
                    assert(bytes::text("pxat"@)[0] == 112);
                },
            }
        },
        WriteCommandView::Delete { key } => {
            assert(bytes::text("del"@)[0] == 100);
            assert(bytes::text("set"@)[0] == 115);
            assert(bytes::text("get"@)[0] == 103);
            assert(parser::part(parts, 0) == Ok::<Seq<u8>, CommandFromFrameError>(
                bytes::text("DEL"@),
            ));
        },
        WriteCommandView::ExpireAt { key, expires_at } => {
            deadline_reads_back(expires_at.0);
            assert(parser::part(parts, 0) == Ok::<Seq<u8>, CommandFromFrameError>(
                bytes::text("PEXPIREAT"@),
            ));
        },
        WriteCommandView::Persist { key } => {
            assert(parser::part(parts, 0) == Ok::<Seq<u8>, CommandFromFrameError>(
                bytes::text("PERSIST"@),
            ));
        },
    }
}

/// Verbs ignore case: two spellings of a verb that agree in lower case ask for the same
/// thing with the same arguments.
pub proof fn verbs_ignore_case(parts: Seq<FrameView>, a: Seq<u8>, b: Seq<u8>)
    requires
        parts.len() > 0,
        bytes::lowercase(a) == bytes::lowercase(b),
    ensures
        parser::request_of(FrameView::Array(parts.update(0, FrameView::BulkString(a))))
            == parser::request_of(FrameView::Array(parts.update(0, FrameView::BulkString(b)))),
{
    let p = parts.update(0, FrameView::BulkString(a));
    let q = parts.update(0, FrameView::BulkString(b));
    assert forall|i: int| 1 <= i implies #[trigger] parser::part(p, i) == parser::part(q, i) by {
        if i < parts.len() {
            assert(p[i] == q[i]);
        }
    }
    assert forall|i: int| 1 <= i < parts.len() implies #[trigger] p[i] == q[i] by {}
    assert(parser::only_argument(p) == parser::only_argument(q));
    assert(parser::key_and_amount(p, true) == parser::key_and_amount(q, true));
    assert(parser::key_and_amount(p, false) == parser::key_and_amount(q, false));
    assert(parser::channel_names(p) == parser::channel_names(q)) by {
        if forall|i: int| 1 <= i < p.len() ==> (#[trigger] p[i]) is BulkString {
            assert forall|i: int| 1 <= i < q.len() implies (#[trigger] q[i]) is BulkString by {
                assert(p[i] == q[i]);
            }
            assert(parser::channel_names(p)->Ok_0 =~= parser::channel_names(q)->Ok_0);
        } else {
            let i = choose|i: int| 1 <= i < p.len() && !((#[trigger] p[i]) is BulkString);
            assert(!(q[i] is BulkString));
        }
    }
    assert(parser::set_request(p) == parser::set_request(q));
    assert(parser::publish_request(p) == parser::publish_request(q));
}

/// The keywords of `SET` ignore case too.
pub proof fn set_options_ignore_case(parts: Seq<FrameView>, a: Seq<u8>, b: Seq<u8>)
    requires
        parts.len() > 3,
        bytes::lowercase(a) == bytes::lowercase(b),
    ensures
        parser::set_request(parts.update(3, FrameView::BulkString(a))) == parser::set_request(
            parts.update(3, FrameView::BulkString(b)),
        ),
{
    let p = parts.update(3, FrameView::BulkString(a));
    let q = parts.update(3, FrameView::BulkString(b));
    assert forall|i: int| 0 <= i && i != 3 implies #[trigger] parser::part(p, i) == parser::part(
        q,
        i,
    ) by {}
}

/// A command that is ready without a clock does not depend on it.
pub proof fn absolute_forms_need_no_clock(
    f: FrameView,
    a: Reading,
    b: Reading,
)
    requires
        !(parser::request_of(f) matches Ok(RequestView::ExpireIn { .. })),
        !(parser::request_of(f) matches Ok(RequestView::SetFor { .. })),
    ensures
        parser::command_of(f, a) == parser::command_of(f, b),
{
}

/// Seconds and milliseconds land on the same deadline: a `SET` with `EX` is one with `PX`
/// and a thousand times the number, and one with `EXAT` is one with `PXAT`.
pub proof fn units_make_no_difference(
    parts: Seq<FrameView>,
    in_seconds: Seq<u8>,
    in_millis: Seq<u8>,
    key: Seq<u8>,
    value: Seq<u8>,
    n: u64,
)
    requires
        parts.len() > 4,
        n * 1000 <= u64::MAX,
        parser::amount(in_seconds, false) == Ok::<u64, CommandFromFrameError>(n),
        parser::amount(in_millis, false) == Ok::<u64, CommandFromFrameError>((n * 1000) as u64),
    ensures
        ({
            let a = parts.update(4, FrameView::BulkString(in_seconds));
            let b = parts.update(4, FrameView::BulkString(in_millis));
            &&& parser::set_with_option(a, key, value, bytes::text("ex"@))
                == parser::set_with_option(b, key, value, bytes::text("px"@))
            &&& parser::set_with_option(a, key, value, bytes::text("exat"@))
                == parser::set_with_option(b, key, value, bytes::text("pxat"@))
        }),
{
    log_words();
    reveal_strlit("ex");
    reveal_strlit("px");
    bytes::ascii_text("ex"@);
    bytes::ascii_text("px"@);
    assert(bytes::text("ex"@)[0] == 101);
    assert(bytes::text("px"@)[0] == 112);
    assert(bytes::text("exat"@)[0] == 101);
    assert(bytes::text("pxat"@)[0] == 112);
}

/// A frame that needs no clock is read the same whatever it says, and one that needs it fails
/// with it.
pub proof fn the_clock_counts_where_it_is_needed(f: FrameView, a: Reading, b: Reading)
    ensures
        !parser::needs_clock(f) ==> parser::command_of(f, a) == parser::command_of(f, b),
        parser::needs_clock(f) && a is Err ==> parser::command_of(f, a) == Err::<
            CommandView,
            CommandFromFrameError,
        >(CommandFromFrameError::SystemTime(a->Err_0)),
{
}

} // verus!
