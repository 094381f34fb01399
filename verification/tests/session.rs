//! The session: pub/sub bookkeeping, and delivery through the reply queue.

use steller::domain::cache::Cache;
use steller::domain::channels::Channels;
use steller::domain::command::cache::write::WriteCommand;
use steller::domain::command::channel::{ChannelCommand, ChannelCommandOutcome};
use steller::domain::command::Command;
use steller::domain::ports::{CacheRepository, CacheService, RepositoryError};
use steller::domain::service::Service;
use steller::inbound::session::{
    push_bytes, refuse, ReadHalf, ReadHalfError, Session, Turn, WriteHalf,
};
use steller::resp::frame::Frame;
use steller::resp::reply::Reply;

/// [`CacheRepository`] fake that takes everything and keeps nothing.
struct NullRepo;

impl CacheRepository for NullRepo {
    fn append(&mut self, _command: WriteCommand) -> Result<(), RepositoryError> {
        Ok(())
    }

    fn snapshot(&mut self, _cache: &Cache) -> Result<(), RepositoryError> {
        Ok(())
    }
}

type TestService = Service<NullRepo>;

/// A session split in two, with nothing behind either end: these tests drive
/// `execute_channel_command` directly, and read what was pushed off the `WriteHalf`.
fn read_half(id: u32) -> (ReadHalf<(), TestService>, WriteHalf<()>) {
    let service = Service::new(Cache::default(), NullRepo);
    Session::new(id, (), (), service).split()
}

fn counts(outcome: &ChannelCommandOutcome) -> Vec<usize> {
    match outcome {
        ChannelCommandOutcome::Subscribe { inner }
        | ChannelCommandOutcome::Unsubscribe { inner } => {
            inner.iter().map(|e| e.subscription_count).collect()
        }
        ChannelCommandOutcome::Publish { .. } => panic!("not a sub/unsub outcome"),
    }
}

fn channel_ids(outcome: &ChannelCommandOutcome) -> Vec<Option<Vec<u8>>> {
    match outcome {
        ChannelCommandOutcome::Subscribe { inner }
        | ChannelCommandOutcome::Unsubscribe { inner } => {
            inner.iter().map(|e| e.channel_id.clone()).collect()
        }
        ChannelCommandOutcome::Publish { .. } => panic!("not a sub/unsub outcome"),
    }
}

// ---------- subscribe ----------

#[test]
fn subscribe_emits_one_entry_per_channel_with_climbing_count() {
    let mut channels = Channels::new();
    let (mut rh, _wh) = read_half(1);
    let outcome = rh
        .execute_channel_command(&mut channels, ChannelCommand::subscribe(vec![
            b"a".to_vec(),
            b"b".to_vec(),
            b"c".to_vec(),
        ]))
        .unwrap();
    assert_eq!(
        channel_ids(&outcome),
        vec![
            Some(b"a".to_vec()),
            Some(b"b".to_vec()),
            Some(b"c".to_vec())
        ]
    );
    assert_eq!(counts(&outcome), vec![1, 2, 3]);
}

#[test]
fn subscribe_count_is_session_total_across_calls() {
    let mut channels = Channels::new();
    let (mut rh, _wh) = read_half(1);
    rh.execute_channel_command(&mut channels, ChannelCommand::subscribe(vec![b"a".to_vec()]))
        .unwrap();
    let outcome = rh
        .execute_channel_command(&mut channels, ChannelCommand::subscribe(vec![b"b".to_vec()]))
        .unwrap();
    // second call starts from the running total of 1, so b is the session's 2nd channel
    assert_eq!(counts(&outcome), vec![2]);
}

#[test]
fn resubscribe_same_channel_does_not_climb() {
    let mut channels = Channels::new();
    let (mut rh, _wh) = read_half(1);
    rh.execute_channel_command(&mut channels, ChannelCommand::subscribe(vec![b"foo".to_vec()]))
        .unwrap();
    let outcome = rh
        .execute_channel_command(&mut channels, ChannelCommand::subscribe(vec![b"foo".to_vec()]))
        .unwrap();
    // already subscribed, so the session set didn't grow
    assert_eq!(counts(&outcome), vec![1]);
}

// ---------- unsubscribe ----------

#[test]
fn unsubscribe_descends_count() {
    let mut channels = Channels::new();
    let (mut rh, _wh) = read_half(1);
    rh.execute_channel_command(&mut channels, ChannelCommand::subscribe(vec![
        b"a".to_vec(),
        b"b".to_vec(),
        b"c".to_vec(),
    ]))
    .unwrap();
    let outcome = rh
        .execute_channel_command(&mut channels, ChannelCommand::unsubscribe(vec![
            b"a".to_vec(),
            b"c".to_vec(),
        ]))
        .unwrap();
    // remove a -> {b,c}=2 ; remove c -> {b}=1
    assert_eq!(counts(&outcome), vec![2, 1]);
}

#[test]
fn unsubscribe_no_args_leaves_every_channel() {
    let mut channels = Channels::new();
    let (mut rh, _wh) = read_half(1);
    rh.execute_channel_command(&mut channels, ChannelCommand::subscribe(vec![
        b"a".to_vec(),
        b"b".to_vec(),
        b"c".to_vec(),
    ]))
    .unwrap();

    let outcome = rh
        .execute_channel_command(&mut channels, ChannelCommand::unsubscribe(Vec::<Vec<u8>>::new()))
        .unwrap();

    // one ack per channel, count draining to zero regardless of removal order
    assert_eq!(counts(&outcome), vec![2, 1, 0]);
    let mut acked: Vec<Vec<u8>> = channel_ids(&outcome).into_iter().flatten().collect();
    acked.sort();
    assert_eq!(acked, vec![b"a".to_vec(), b"b".to_vec(), b"c".to_vec()]);

    // registry is now empty for all three
    assert_eq!(channels.publish(b"x".to_vec(), b"a").unwrap(), 0);
    assert_eq!(channels.publish(b"x".to_vec(), b"b").unwrap(), 0);
    assert_eq!(channels.publish(b"x".to_vec(), b"c").unwrap(), 0);
}

#[test]
fn unsubscribe_no_args_while_subscribed_to_nothing_acks_null_channel() {
    let mut channels = Channels::new();
    let (mut rh, _wh) = read_half(1);
    let outcome = rh
        .execute_channel_command(&mut channels, ChannelCommand::unsubscribe(Vec::<Vec<u8>>::new()))
        .unwrap();
    match outcome {
        ChannelCommandOutcome::Unsubscribe { inner } => {
            assert_eq!(inner.len(), 1);
            assert_eq!(inner[0].channel_id, None);
            assert_eq!(inner[0].subscription_count, 0);
        }
        _ => panic!("expected Unsubscribe"),
    }
}

// ---------- publish (end to end through two sessions) ----------

#[test]
fn publish_delivers_message_array_to_subscriber_and_counts() {
    let mut channels = Channels::new();
    let (mut subscriber, mut sub_wh) = read_half(1);
    let (mut publisher, _pub_wh) = read_half(2);

    subscriber
        .execute_channel_command(&mut channels, ChannelCommand::subscribe(vec![b"foo".to_vec()]))
        .unwrap();
    let outcome = publisher
        .execute_channel_command(&mut channels, ChannelCommand::publish(b"foo".to_vec(), b"bar".to_vec()))
        .unwrap();

    assert!(matches!(
        outcome,
        ChannelCommandOutcome::Publish { sent_count: 1 }
    ));

    let expected = Reply::Array(vec![
        Reply::BulkString(b"message".to_vec()),
        Reply::BulkString(b"foo".to_vec()),
        Reply::BulkString(b"bar".to_vec()),
    ])
    .to_bytes();
    assert_eq!(sub_wh.recv().unwrap(), expected);
}

#[test]
fn publish_to_no_subscribers_reaches_zero() {
    let mut channels = Channels::new();
    let (mut publisher, _wh) = read_half(1);
    let outcome = publisher
        .execute_channel_command(&mut channels, ChannelCommand::publish(b"foo".to_vec(), b"bar".to_vec()))
        .unwrap();
    assert!(matches!(
        outcome,
        ChannelCommandOutcome::Publish { sent_count: 0 }
    ));
}

// ---------- disconnect cleanup ----------

#[test]
fn unsubscribe_from_all_removes_session_from_registry() {
    let mut channels = Channels::new();
    let (mut rh, _wh) = read_half(1);
    rh.execute_channel_command(&mut channels, ChannelCommand::subscribe(vec![
        b"foo".to_vec(),
        b"bar".to_vec(),
    ]))
    .unwrap();

    let results = rh.unsubscribe_from_all(&mut channels);
    assert!(results.iter().all(|r| r.is_ok()));

    // nothing left to reach on either channel
    assert_eq!(channels.publish(b"x".to_vec(), b"foo").unwrap(), 0);
    assert_eq!(channels.publish(b"x".to_vec(), b"bar").unwrap(), 0);
}

// ---------- taking requests out of the buffer ----------

const PING: &[u8] = b"*1\r\n$4\r\nPING\r\n";

/// One turn, with a pub/sub command run against the registry.
fn turn<R, CS: CacheService>(
    rh: &mut ReadHalf<R, CS>,
    channels: &mut Channels,
    shutdown: bool,
) -> Turn {
    match rh.turn(shutdown) {
        Turn::Channel(command) => match rh.answer(channels, Command::Channel(command)) {
            Ok(bytes) => Turn::Reply(bytes),
            Err(e) => Turn::Fail(e),
        },
        other => other,
    }
}

fn reply(turn: Turn) -> Vec<u8> {
    match turn {
        Turn::Reply(bytes) => bytes,
        Turn::Channel(command) => panic!("not run: {command:?}"),
        Turn::Read => panic!("asked for more bytes"),
        Turn::Stop => panic!("stopped"),
        Turn::Fail(e) => panic!("failed: {e:?}"),
    }
}

#[test]
fn a_request_is_answered_once_it_is_whole() {
    let mut channels = Channels::new();
    let request = b"*3\r\n$3\r\nSET\r\n$1\r\nk\r\n$5\r\nhello\r\n";
    for at in 0..request.len() {
        let (mut rh, _wh) = read_half(1);
        assert_eq!(rh.reader.read(&request[..at]), at);
        assert!(matches!(turn(&mut rh, &mut channels, false), Turn::Read), "cut at {at}");
        rh.reader.read(&request[at..]);
        rh.reader.read(PING);
        assert_eq!(reply(turn(&mut rh, &mut channels, false)), b"+OK\r\n".to_vec());
        assert_eq!(rh.reader.buf, PING.to_vec());
        assert_eq!(reply(turn(&mut rh, &mut channels, false)), b"+PONG\r\n".to_vec());
        assert!(matches!(turn(&mut rh, &mut channels, false), Turn::Read));
    }
}

#[test]
fn commands_run_against_the_cache() {
    let mut channels = Channels::new();
    let (mut rh, _wh) = read_half(1);
    for (request, answer) in [
        ("*2\r\n$3\r\nget\r\n$1\r\nk\r\n", "$-1\r\n"),
        ("*3\r\n$3\r\nset\r\n$1\r\nk\r\n$1\r\nv\r\n", "+OK\r\n"),
        ("*2\r\n$3\r\nget\r\n$1\r\nk\r\n", "$1\r\nv\r\n"),
        ("*2\r\n$6\r\nexists\r\n$1\r\nk\r\n", ":1\r\n"),
        ("*2\r\n$3\r\nttl\r\n$1\r\nk\r\n", ":-1\r\n"),
        ("*3\r\n$6\r\nexpire\r\n$1\r\nk\r\n$2\r\n60\r\n", ":1\r\n"),
        ("*2\r\n$3\r\nttl\r\n$1\r\nk\r\n", ":60\r\n"),
        ("*2\r\n$7\r\npersist\r\n$1\r\nk\r\n", ":1\r\n"),
        ("*3\r\n$8\r\nexpireat\r\n$1\r\nk\r\n$1\r\n1\r\n", ":1\r\n"),
        ("*2\r\n$3\r\ndel\r\n$1\r\nk\r\n", ":0\r\n"),
        ("*2\r\n$4\r\nping\r\n$3\r\nhey\r\n", "$3\r\nhey\r\n"),
    ] {
        rh.reader.read(request.as_bytes());
        assert_eq!(
            reply(turn(&mut rh, &mut channels, false)),
            answer.as_bytes().to_vec(),
            "{request:?}"
        );
    }
}

#[test]
fn a_refused_request_gets_one_line_and_the_session_goes_on() {
    let mut channels = Channels::new();
    let (mut rh, _wh) = read_half(1);
    rh.reader.read(b"*1\r\n$4\r\nnope\r\n");
    rh.reader.read(PING);
    assert_eq!(
        reply(turn(&mut rh, &mut channels, false)),
        b"-ERR unrecognized command\r\n".to_vec()
    );
    assert_eq!(reply(turn(&mut rh, &mut channels, false)), b"+PONG\r\n".to_vec());
    // Bytes that are no frame take everything that came with them along.
    rh.reader.read(b"?2\r\n");
    rh.reader.read(PING);
    assert_eq!(
        reply(turn(&mut rh, &mut channels, false)),
        b"-ERR unknown sigil\r\n".to_vec()
    );
    assert!(rh.reader.buf.is_empty());
    rh.reader.read(PING);
    assert_eq!(reply(turn(&mut rh, &mut channels, false)), b"+PONG\r\n".to_vec());
}

#[test]
fn deep_nesting_is_refused_like_anything_else() {
    let mut channels = Channels::new();
    let (mut rh, _wh) = read_half(1);
    let mut deep = b"*1\r\n".repeat(200_000);
    deep.extend_from_slice(b"$2\r\nhi\r\n");
    let refused =
        b"-ERR unexpected value; command is made of an array of bulk strings\r\n".to_vec();
    rh.reader.read(&deep);
    assert_eq!(reply(turn(&mut rh, &mut channels, false)), refused);
    for verb in ["*2\r\n$3\r\nGET\r\n", "*2\r\n$9\r\nSUBSCRIBE\r\n"] {
        rh.reader.read(verb.as_bytes());
        rh.reader.read(&deep);
        assert_eq!(reply(turn(&mut rh, &mut channels, false)), refused);
    }
    rh.reader.read(b"*2\r\n$7\r\nPUBLISH\r\n");
    rh.reader.read(&deep);
    assert_eq!(
        reply(turn(&mut rh, &mut channels, false)),
        b"-ERR not enough parts\r\n".to_vec()
    );
    rh.reader.read(b"*3\r\n$4\r\nnope\r\n");
    rh.reader.read(&deep);
    rh.reader.read(&deep);
    assert_eq!(
        reply(turn(&mut rh, &mut channels, false)),
        b"-ERR unrecognized command\r\n".to_vec()
    );
    // Refused half-way, with a deep frame already read.
    rh.reader.read(b"*2\r\n");
    rh.reader.read(&deep);
    rh.reader.read(b"?1\r\n");
    assert_eq!(
        reply(turn(&mut rh, &mut channels, false)),
        b"-ERR unknown sigil\r\n".to_vec()
    );
}

#[test]
fn refusals_hold_no_line_end() {
    assert_eq!(refuse(b"a\r\nb".to_vec()), b"-ERR ab\r\n".to_vec());
}

#[test]
fn get_command_answers_what_it_skips() {
    let (mut rh, mut wh) = read_half(1);
    rh.reader.read(b"*1\r\n$4\r\nnope\r\n*1\r\n$3\r\nget\r\n");
    rh.reader.read(PING);
    assert_eq!(rh.get_command().unwrap(), Some(Command::ping(None)));
    assert_eq!(rh.get_command().unwrap(), None);
    assert_eq!(wh.recv().unwrap(), b"-ERR unrecognized command\r\n".to_vec());
    assert_eq!(wh.recv().unwrap(), b"-ERR not enough parts\r\n".to_vec());
}

#[test]
fn get_frame_answers_what_is_no_frame() {
    let (mut rh, mut wh) = read_half(1);
    rh.reader.read(b"$2\r\nhi\r\n$2\r\n");
    assert_eq!(rh.get_frame().unwrap(), Some(Frame::BulkString(b"hi".to_vec())));
    assert_eq!(rh.get_frame().unwrap(), None);
    assert_eq!(rh.reader.buf, b"$2\r\n".to_vec());
    rh.reader.read(b"hixx");
    assert_eq!(rh.get_frame().unwrap(), None);
    assert_eq!(
        wh.recv().unwrap(),
        b"-ERR missing crlf terminator\r\n".to_vec()
    );
    assert!(rh.reader.buf.is_empty());
}

#[test]
fn an_answer_that_cannot_be_sent_comes_back() {
    let (mut rh, wh) = read_half(1);
    drop(wh);
    assert_eq!(rh.send(b"x".to_vec()).unwrap_err().0, b"x".to_vec());
    rh.reader.read(b"*1\r\n$4\r\nnope\r\n");
    match rh.get_command() {
        Err(ReadHalfError::Send(unsent)) => {
            assert_eq!(unsent.0, b"-ERR unrecognized command\r\n".to_vec());
        }
        other => panic!("{other:?}"),
    }
}

#[test]
fn shutdown_ends_the_session_with_nothing_done() {
    let mut channels = Channels::new();
    let (mut rh, _wh) = read_half(1);
    rh.reader.read(PING);
    assert!(matches!(turn(&mut rh, &mut channels, true), Turn::Stop));
    assert_eq!(rh.reader.buf, PING.to_vec());
}

#[test]
fn a_service_that_fails_ends_the_session() {
    struct Refusing;
    impl CacheRepository for Refusing {
        fn append(&mut self, _command: WriteCommand) -> Result<(), RepositoryError> {
            Err(RepositoryError::Generic(b"disk full".to_vec()))
        }

        fn snapshot(&mut self, _cache: &Cache) -> Result<(), RepositoryError> {
            Ok(())
        }
    }
    let mut channels = Channels::new();
    let service = Service::new(Cache::default(), Refusing);
    let (mut rh, _wh) = Session::new(1, (), (), service).split();
    rh.reader.read(b"*2\r\n$3\r\nDEL\r\n$1\r\nk\r\n");
    match turn(&mut rh, &mut channels, false) {
        Turn::Fail(ReadHalfError::Service(e)) => {
            assert_eq!(e.message(), b"disk full".to_vec());
        }
        _ => panic!("the failure was swallowed"),
    }
    rh.reader.read(b"*2\r\n$3\r\nGET\r\n$1\r\nk\r\n");
    assert_eq!(reply(turn(&mut rh, &mut channels, false)), b"$-1\r\n".to_vec());
}

// ---------- pub/sub over the wire ----------

#[test]
fn subscribing_is_acknowledged_channel_by_channel() {
    let mut channels = Channels::new();
    let (mut rh, _wh) = read_half(1);
    rh.reader.read(b"*3\r\n$9\r\nSUBSCRIBE\r\n$1\r\na\r\n$1\r\nb\r\n");
    assert_eq!(
        reply(turn(&mut rh, &mut channels, false)),
        b"*3\r\n$9\r\nsubscribe\r\n$1\r\na\r\n:1\r\n*3\r\n$9\r\nsubscribe\r\n$1\r\nb\r\n:2\r\n".to_vec()
    );
    rh.reader.read(b"*1\r\n$11\r\nUNSUBSCRIBE\r\n");
    assert_eq!(
        reply(turn(&mut rh, &mut channels, false)),
        b"*3\r\n$11\r\nunsubscribe\r\n$1\r\na\r\n:1\r\n*3\r\n$11\r\nunsubscribe\r\n$1\r\nb\r\n:0\r\n".to_vec()
    );
    assert_eq!(channels.len(), 0);
    rh.reader.read(b"*1\r\n$11\r\nUNSUBSCRIBE\r\n");
    assert_eq!(
        reply(turn(&mut rh, &mut channels, false)),
        b"*3\r\n$11\r\nunsubscribe\r\n$-1\r\n:0\r\n".to_vec()
    );
}

#[test]
fn a_published_message_is_pushed_to_its_subscribers() {
    let mut channels = Channels::new();
    let (mut one, mut one_wh) = read_half(1);
    let (mut two, _two_wh) = read_half(2);
    one.reader.read(b"*2\r\n$9\r\nSUBSCRIBE\r\n$1\r\na\r\n");
    turn(&mut one, &mut channels, false);
    two.reader.read(b"*3\r\n$7\r\nPUBLISH\r\n$1\r\na\r\n$2\r\nhi\r\n");
    assert_eq!(reply(turn(&mut two, &mut channels, false)), b":1\r\n".to_vec());
    assert_eq!(
        one_wh.recv().unwrap(),
        b"*3\r\n$7\r\nmessage\r\n$1\r\na\r\n$2\r\nhi\r\n".to_vec()
    );
    assert_eq!(
        push_bytes(b"a", b"hi".to_vec()),
        b"*3\r\n$7\r\nmessage\r\n$1\r\na\r\n$2\r\nhi\r\n".to_vec()
    );
}

// The registry is asked for where a command has a use for it, and nowhere else.
#[test]
fn only_pub_sub_commands_are_handed_out() {
    let (mut rh, _wh) = read_half(1);
    rh.reader.read(b"*2\r\n$9\r\nSUBSCRIBE\r\n$1\r\na\r\n");
    rh.reader.read(PING);
    match rh.turn(false) {
        Turn::Channel(command) => {
            assert_eq!(command, ChannelCommand::subscribe(vec![b"a".to_vec()]));
        }
        _ => panic!("not handed out"),
    }
    assert_eq!(rh.reader.buf, PING.to_vec());
    assert_eq!(reply(rh.turn(false)), b"+PONG\r\n".to_vec());
    rh.reader.read(b"*2\r\n$3\r\nDEL\r\n$1\r\nk\r\n");
    assert_eq!(reply(rh.turn(false)), b":0\r\n".to_vec());
}

// Replies and pushes come out of the queue in the order they went in, each once, and the
// queue ends once it is empty and nothing can be put into it any more.
#[test]
fn the_queue_keeps_its_order_and_ends_with_its_senders() {
    let mut channels = Channels::new();
    let (mut rh, mut wh) = read_half(1);
    assert_eq!(rh.unsubscribe_from_all(&mut channels), Vec::new());
    rh.execute_channel_command(&mut channels, ChannelCommand::subscribe(vec![b"a".to_vec()]))
        .unwrap();
    rh.send(b"first".to_vec()).unwrap();
    assert_eq!(channels.publish(b"second".to_vec(), b"a").unwrap(), 1);
    rh.send(b"third".to_vec()).unwrap();
    rh.unsubscribe_from_all(&mut channels);
    drop(rh);
    assert_eq!(wh.recv().unwrap(), b"first".to_vec());
    assert_eq!(wh.recv().unwrap(), b"second".to_vec());
    assert_eq!(wh.recv().unwrap(), b"third".to_vec());
    assert!(wh.recv().is_err());
    assert!(wh.recv().is_err());
}

#[test]
fn an_ended_session_leaves_nothing_behind() {
    let mut channels = Channels::new();
    let (mut one, _one_wh) = read_half(1);
    let (mut two, _two_wh) = read_half(2);
    one.reader.read(b"*3\r\n$9\r\nSUBSCRIBE\r\n$1\r\na\r\n$1\r\nb\r\n");
    turn(&mut one, &mut channels, false);
    two.reader.read(b"*2\r\n$9\r\nSUBSCRIBE\r\n$1\r\na\r\n");
    turn(&mut two, &mut channels, false);
    let results = one.unsubscribe_from_all(&mut channels);
    assert_eq!(results, vec![Ok(()), Ok(())]);
    assert_eq!(channels.len(), 1);
    assert_eq!(channels.hand_out(b"x", b"a").len(), 1);
    assert_eq!(two.unsubscribe_from_all(&mut channels).len(), 1);
    assert_eq!(channels.len(), 0);
}
