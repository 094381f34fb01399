//! The pub/sub subscription registry and message fan-out.
//!
//! [`Channels`] maps each channel name to its [`Subscribers`]. Whoever shares it between
//! sessions puts it behind a lock.
//!
//! The registry only ever moves raw `Vec<u8>`. RESP framing happens in the inbound layer
//! before anything gets here, so a published message is just bytes pushed into each
//! subscriber's channel.

use std::sync::mpsc::{SendError, Sender};
use vstd::prelude::*;

use crate::byte_map::ByteMap;
use crate::bytes;
use crate::domain::queue;
use crate::domain::queue::Outlet;

verus! {

/// One session's delivery endpoint: its id, which is the registry key, plus the sending
/// half of the queue its `WriteHalf` drains to the socket.
#[derive(Debug)]
pub struct Subscriber {
    id: u32,
    sender: Sender<Vec<u8>>,
}

impl Subscriber {
    /// The session's id.
    pub closed spec fn id(self) -> u32 {
        self.id
    }

    /// Where the session's messages go.
    pub closed spec fn outlet(self) -> Outlet {
        queue::outlet(self.sender)
    }

    /// The endpoint of session `id`.
    pub fn new(id: u32, sender: Sender<Vec<u8>>) -> (r: Self)
        ensures
            r.id() == id,
            r.outlet() == queue::outlet(sender),
    {
        Subscriber { id, sender }
    }

    /// Push raw bytes toward this subscriber's socket. Errors once the receiving
    /// `WriteHalf` is gone, which means the session is too.
    /// The message that could not be sent comes back.
    pub fn send(&mut self, message: Vec<u8>) -> (r: Result<(), SendError<Vec<u8>>>)
        ensures
            final(self).id() == old(self).id(),
            match r {
                Ok(_) => old(self).outlet().took(message@, final(self).outlet()),
                Err(e) => {
                    &&& e.0@ == message@
                    &&& final(self).outlet() == old(self).outlet().declined(message@)
                },
            },
    {
        queue::send(&mut self.sender, message)
    }
}

/// Who listens on one channel: the outlet to each session.
pub type Listeners = Map<u32, Outlet>;

/// Who listens where: the listeners of each channel.
pub type Registry = Map<Seq<u8>, Listeners>;

/// `id` stands somewhere in `s`.
spec fn has_id(s: Seq<Subscriber>, id: u32) -> bool {
    exists|i: int| 0 <= i < s.len() && (#[trigger] s[i]).id == id
}

/// Where `id` stands in `s`.
spec fn place(s: Seq<Subscriber>, id: u32) -> int {
    choose|i: int| 0 <= i < s.len() && (#[trigger] s[i]).id == id
}

/// No id occurs twice.
spec fn distinct(s: Seq<Subscriber>) -> bool {
    forall|i: int, j: int|
        0 <= i < s.len() && 0 <= j < s.len() && (#[trigger] s[i]).id == (#[trigger] s[j]).id ==> i
            == j
}

/// The map that a vector of subscribers stands for.
spec fn listeners_of(s: Seq<Subscriber>) -> Listeners {
    Map::new(|id: u32| has_id(s, id), |id: u32| s[place(s, id)].outlet())
}

/// The map holds each subscriber of the vector.
proof fn listeners_of_entry(s: Seq<Subscriber>, i: int)
    requires
        distinct(s),
        0 <= i < s.len(),
    ensures
        listeners_of(s).dom().contains(s[i].id),
        listeners_of(s)[s[i].id] == s[i].outlet(),
{
    let id = s[i].id;
    assert(has_id(s, id));
    let p = place(s, id);
    assert(s[p].id == s[i].id);
}

/// Taking one subscriber out takes its id out.
proof fn listeners_of_remove(s: Seq<Subscriber>, i: int)
    requires
        distinct(s),
        0 <= i < s.len(),
    ensures
        distinct(s.remove(i)),
        listeners_of(s.remove(i)) == listeners_of(s).remove(s[i].id),
{
    let t = s.remove(i);
    let gone = s[i].id;
    assert forall|j: int| 0 <= j < t.len() implies #[trigger] t[j] == s[if j < i {
        j
    } else {
        j + 1
    }] by {}
    assert(distinct(t));
    assert forall|id: u32| has_id(t, id) == (has_id(s, id) && id != gone) by {
        if has_id(t, id) {
            let j = place(t, id);
            let p: int = if j < i {
                j
            } else {
                j + 1
            };
            assert(s[p].id == id);
            if id == gone {
                assert(s[p].id == s[i].id);
            }
        }
        if has_id(s, id) && id != gone {
            let j = place(s, id);
            if j < i {
                assert(t[j].id == id);
            } else {
                assert(t[j - 1].id == id);
            }
        }
    }
    assert forall|id: u32| has_id(t, id) implies #[trigger] listeners_of(t)[id] == listeners_of(
        s,
    )[id] by {
        let j = place(t, id);
        listeners_of_entry(t, j);
        listeners_of_entry(
            s,
            if j < i {
                j
            } else {
                j + 1
            },
        );
    }
    assert(listeners_of(t) =~= listeners_of(s).remove(gone));
}

/// Adding a subscriber under a new id adds that id.
proof fn listeners_of_push(s: Seq<Subscriber>, new: Subscriber)
    requires
        distinct(s),
        !has_id(s, new.id),
    ensures
        distinct(s.push(new)),
        listeners_of(s.push(new)) == listeners_of(s).insert(new.id, new.outlet()),
{
    let t = s.push(new);
    assert forall|i: int, j: int|
        0 <= i < t.len() && 0 <= j < t.len() && (#[trigger] t[i]).id == (#[trigger] t[j]).id implies i
        == j by {
        if i < s.len() && j == s.len() {
            assert(s[i].id == new.id);
        }
        if j < s.len() && i == s.len() {
            assert(s[j].id == new.id);
        }
        if i < s.len() && j < s.len() {
            assert(s[i].id == s[j].id);
        }
    }
    assert forall|id: u32| has_id(t, id) == (has_id(s, id) || id == new.id) by {
        if has_id(s, id) {
            let j = place(s, id);
            assert(t[j].id == id);
        }
        if id == new.id {
            assert(t[s.len() as int].id == id);
        }
        if has_id(t, id) && id != new.id {
            let j = place(t, id);
            assert(s[j].id == id);
        }
    }
    listeners_of_entry(t, s.len() as int);
    assert forall|id: u32| has_id(s, id) implies #[trigger] listeners_of(t)[id] == listeners_of(
        s,
    )[id] by {
        let j = place(s, id);
        listeners_of_entry(s, j);
        listeners_of_entry(t, j);
    }
    assert(listeners_of(t) =~= listeners_of(s).insert(new.id, new.outlet()));
}

/// The subscribers of one channel, one entry per session id. A session cannot be
/// registered twice on the same channel.
#[derive(Debug)]
pub struct Subscribers {
    inner: Vec<Subscriber>,
}

impl View for Subscribers {
    type V = Listeners;

    closed spec fn view(&self) -> Listeners {
        listeners_of(self.inner@)
    }
}

impl Default for Subscribers {
    fn default() -> (r: Self)
        ensures
            r@ == Map::<u32, Outlet>::empty(),
    {
        let r = Subscribers { inner: Vec::new() };
        assert(r@ =~= Map::<u32, Outlet>::empty());
        r
    }
}

impl Subscribers {
    #[verifier::type_invariant]
    spec fn one_entry_each(self) -> bool {
        distinct(self.inner@)
    }

    /// Where `id` stands, if it is registered.
    fn find(&self, id: u32) -> (r: Option<usize>)
        ensures
            match r {
                Some(i) => i < self.inner@.len() && self.inner@[i as int].id == id,
                None => !has_id(self.inner@, id),
            },
    {
        let mut i: usize = 0;
        while i < self.inner.len()
            invariant
                i <= self.inner@.len(),
                forall|j: int| 0 <= j < i ==> (#[trigger] self.inner@[j]).id != id,
            decreases self.inner@.len() - i,
        {
            if self.inner[i].id == id {
                return Some(i);
            }
            i = i + 1;
        }
        None
    }

    /// `true` if nobody is registered.
    pub fn is_empty(&self) -> (r: bool)
        ensures
            r == (self@ == Map::<u32, Outlet>::empty()),
    {
        proof {
            use_type_invariant(self);
            if self.inner@.len() > 0 {
                listeners_of_entry(self.inner@, 0);
            } else {
                assert(self@ =~= Map::<u32, Outlet>::empty());
            }
        }
        self.inner.len() == 0
    }

    /// Register `subscriber`, in place of whatever its session had here before.
    pub fn insert(&mut self, subscriber: Subscriber)
        ensures
            final(self)@ == old(self)@.insert(subscriber.id(), subscriber.outlet()),
    {
        let ghost (id, outlet) = (subscriber.id, subscriber.outlet());
        let ghost m = self@;
        self.remove(subscriber.id);
        proof {
            use_type_invariant(&*self);
            if has_id(self.inner@, id) {
                assert(self@.dom().contains(id));
            }
            listeners_of_push(self.inner@, subscriber);
            assert(m.remove(id).insert(id, outlet) =~= m.insert(id, outlet));
        }
        let mut inner: Vec<Subscriber> = Vec::new();
        std::mem::swap(&mut inner, &mut self.inner);
        inner.push(subscriber);
        self.inner = inner;
    }

    /// Take the session `id` out.
    pub fn remove(&mut self, id: u32)
        ensures
            final(self)@ == old(self)@.remove(id),
    {
        proof {
            use_type_invariant(&*self);
        }
        match self.find(id) {
            None => {
                assert(self@ =~= self@.remove(id));
            },
            Some(i) => {
                proof {
                    listeners_of_remove(self.inner@, i as int);
                }
                let mut inner: Vec<Subscriber> = Vec::new();
                std::mem::swap(&mut inner, &mut self.inner);
                inner.remove(i);
                self.inner = inner;
            },
        }
    }

    /// Hand `message` to the queue of everyone here, and list the sessions whose queue took
    /// it.
    fn hand_out(&mut self, message: &[u8]) -> (r: Vec<u32>)
        ensures
            handed_out(old(self)@, message@, r@.to_set(), final(self)@),
    {
        proof {
            use_type_invariant(&*self);
        }
        let ghost m = self@;
        let ghost all = self.inner@;
        let mut left: Vec<Subscriber> = Vec::new();
        std::mem::swap(&mut left, &mut self.inner);
        let mut served: Vec<Subscriber> = Vec::new();
        let mut ids: Vec<u32> = Vec::new();
        assert(all.take(all.len() as int) =~= all);
        while left.len() > 0
            invariant
                distinct(all),
                left@ == all.take(left@.len() as int),
                served@.len() + left@.len() == all.len(),
                forall|j: int|
                    0 <= j < served@.len() ==> served_as(
                        all[all.len() - 1 - j],
                        message@,
                        ids@.to_set(),
                        #[trigger] served@[j],
                    ),
                forall|id: u32| #[trigger]
                    ids@.contains(id) ==> exists|j: int|
                        left@.len() <= j < all.len() && (#[trigger] all[j]).id == id,
            decreases left@.len(),
        {
            let ghost before = left@;
            let ghost done = served@;
            let ghost reached = ids@;
            if let Some(popped) = left.pop() {
                let ghost at = left@.len() as int;
                assert(popped == all[at]);
                assert(left@ =~= all.take(at));
                let mut sub: Subscriber = popped;
                let id: u32 = sub.id;
                match sub.send(bytes::copy(message)) {
                    Ok(()) => {
                        ids.push(id);
                        assert(ids@[ids@.len() - 1] == id);
                    },
                    Err(_) => {
                        assert(queue::was_declined(all[at].outlet(), message@));
                    },
                }
                proof {
                    assert forall|k: u32| ids@.contains(k) == (reached.contains(k) || (ids@
                        != reached && k == id)) by {
                        if reached.contains(k) {
                            let i = choose|i: int| 0 <= i < reached.len() && reached[i] == k;
                            assert(ids@[i] == k);
                        }
                        if ids@.contains(k) {
                            let i = choose|i: int| 0 <= i < ids@.len() && ids@[i] == k;
                            if i < reached.len() {
                                assert(reached[i] == k);
                            }
                        }
                    }
                    if reached.contains(id) {
                        let j = choose|j: int|
                            before.len() <= j < all.len() && (#[trigger] all[j]).id == id;
                        assert(all[j].id == all[at].id);
                    }
                    assert forall|k: u32| #[trigger] ids@.contains(k) implies exists|j: int|
                        at <= j < all.len() && (#[trigger] all[j]).id == k by {
                        if reached.contains(k) {
                            let j = choose|j: int|
                                before.len() <= j < all.len() && (#[trigger] all[j]).id == k;
                            assert(all[j].id == k);
                        } else {
                            assert(all[at].id == k);
                        }
                    }
                    assert(served_as(all[at], message@, ids@.to_set(), sub));
                    assert forall|j: int| 0 <= j < done.len() implies served_as(
                        all[all.len() - 1 - j],
                        message@,
                        ids@.to_set(),
                        #[trigger] done[j],
                    ) by {
                        assert(served_as(
                            all[all.len() - 1 - j],
                            message@,
                            reached.to_set(),
                            done[j],
                        ));
                        if all[all.len() - 1 - j].id == id {
                            assert(all[all.len() - 1 - j].id == all[at].id);
                        }
                    }
                }
                served.push(sub);
            }
        }
        proof {
            let (s, reached) = (served@, ids@.to_set());
            assert forall|i: int, j: int|
                0 <= i < s.len() && 0 <= j < s.len() && (#[trigger] s[i]).id == (
                #[trigger] s[j]).id implies i == j by {
                assert(all[all.len() - 1 - i].id == all[all.len() - 1 - j].id);
            }
            assert forall|id: u32| has_id(s, id) == has_id(all, id) by {
                if has_id(s, id) {
                    let j = place(s, id);
                    assert(all[all.len() - 1 - j].id == id);
                }
                if has_id(all, id) {
                    let j = place(all, id);
                    assert(s[all.len() - 1 - j].id == id);
                }
            }
            let after = listeners_of(s);
            assert(after.dom() =~= m.dom());
            assert forall|id: u32| #[trigger] m.dom().contains(id) implies answered_as(
                m[id],
                message@,
                reached.contains(id),
                after[id],
            ) by {
                let j = place(s, id);
                listeners_of_entry(s, j);
                listeners_of_entry(all, all.len() - 1 - j);
            }
            assert(reached.subset_of(m.dom())) by {
                assert forall|id: u32| reached.contains(id) implies m.dom().contains(id) by {
                    let j = choose|j: int| 0 <= j < all.len() && (#[trigger] all[j]).id == id;
                    assert(has_id(all, id));
                }
            }
        }
        self.inner = served;
        ids
    }

    /// Keep only the sessions in `ids`, and count them.
    fn keep(&mut self, ids: &Vec<u32>) -> (r: usize)
        ensures
            final(self)@ == old(self)@.restrict(ids@.to_set()),
            final(self)@.dom().finite(),
            r == final(self)@.dom().len(),
    {
        proof {
            use_type_invariant(&*self);
        }
        let ghost m = self@;
        let mut inner: Vec<Subscriber> = Vec::new();
        std::mem::swap(&mut inner, &mut self.inner);
        let mut i: usize = 0;
        while i < inner.len()
            invariant
                i <= inner@.len(),
                distinct(inner@),
                forall|j: int| 0 <= j < i ==> ids@.contains((#[trigger] inner@[j]).id),
                listeners_of(inner@).submap_of(m),
                forall|id: u32|
                    m.dom().contains(id) && ids@.contains(id) ==> #[trigger] listeners_of(
                        inner@,
                    ).dom().contains(id),
            decreases inner@.len() - i,
        {
            if contains_id(ids, inner[i].id) {
                i = i + 1;
            } else {
                let ghost before = listeners_of(inner@);
                proof {
                    listeners_of_remove(inner@, i as int);
                }
                let ghost gone = inner@[i as int].id;
                inner.remove(i);
                proof {
                    let now = listeners_of(inner@);
                    assert(now == before.remove(gone));
                    assert forall|id: u32| #[trigger] now.dom().contains(id) implies m.dom().contains(
                        id,
                    ) && now[id] == m[id] by {
                        assert(before.dom().contains(id));
                        assert(m.dom().contains(id));
                        assert(before[id] == m[id]);
                        assert(id != gone);
                        assert(now[id] == before[id]);
                    }
                }
            }
        }
        proof {
            let left = listeners_of(inner@);
            assert forall|id: u32| left.dom().contains(id) implies ids@.contains(id) by {
                let j = place(inner@, id);
                assert(inner@[j].id == id);
            }
            assert(left =~= m.restrict(ids@.to_set()));
            listeners_of_len(inner@);
        }
        self.inner = inner;
        self.inner.len()
    }
}

/// The map has one id for each subscriber.
proof fn listeners_of_len(s: Seq<Subscriber>)
    requires
        distinct(s),
    ensures
        listeners_of(s).dom().finite(),
        listeners_of(s).dom().len() == s.len(),
    decreases s.len(),
{
    if s.len() == 0 {
        assert(listeners_of(s).dom() =~= Set::empty());
    } else {
        let i = s.len() - 1;
        listeners_of_remove(s, i);
        listeners_of_entry(s, i);
        listeners_of_len(s.remove(i));
        assert(listeners_of(s).dom() =~= listeners_of(s.remove(i)).dom().insert(s[i].id));
    }
}

/// `true` if `id` stands in `ids`.
fn contains_id(ids: &Vec<u32>, id: u32) -> (r: bool)
    ensures
        r == ids@.contains(id),
{
    let mut i: usize = 0;
    while i < ids.len()
        invariant
            i <= ids@.len(),
            forall|j: int| 0 <= j < i ==> #[trigger] ids@[j] != id,
        decreases ids@.len() - i,
    {
        if ids[i] == id {
            return true;
        }
        i = i + 1;
    }
    false
}

/// Handing `message` to the queue behind `before` left the outlet `after`: the queue took
/// it, or else refused it.
pub open spec fn answered_as(before: Outlet, message: Seq<u8>, taken: bool, after: Outlet) -> bool {
    if taken {
        before.took(message, after)
    } else {
        after == before.declined(message) && queue::was_declined(before, message)
    }
}

/// `message` was handed once to the queue of everyone in `before`. The queues of `reached`
/// took it, the others refused it, and `after` is how the outlets stand then.
pub open spec fn handed_out(
    before: Listeners,
    message: Seq<u8>,
    reached: Set<u32>,
    after: Listeners,
) -> bool {
    &&& after.dom() == before.dom()
    &&& reached.subset_of(before.dom())
    &&& forall|id: u32| #[trigger]
        before.dom().contains(id) ==> answered_as(
            before[id],
            message,
            reached.contains(id),
            after[id],
        )
}

/// `after` is `before` once `message` was handed to its queue.
spec fn served_as(
    before: Subscriber,
    message: Seq<u8>,
    reached: Set<u32>,
    after: Subscriber,
) -> bool {
    &&& after.id == before.id
    &&& answered_as(before.outlet(), message, reached.contains(before.id), after.outlet())
}

/// `message` was handed once to the queue of everyone who listened on `channel` in `before`.
/// Those whose queue took it still listen there in `after`, those whose queue refused it do
/// not, and `count` is how many are left.
pub open spec fn fanned_out(
    before: Registry,
    channel: Seq<u8>,
    message: Seq<u8>,
    after: Registry,
    count: u32,
) -> bool {
    let was = listeners(before, channel);
    let left = listeners(after, channel);
    &&& after == with_listeners(before, channel, left)
    &&& left.dom().subset_of(was.dom())
    &&& forall|id: u32| #[trigger]
        was.dom().contains(id) ==> if left.dom().contains(id) {
            was[id].took(message, left[id])
        } else {
            queue::was_declined(was[id], message)
        }
    &&& count == count_of(left.dom().len())
}

/// What the registry is used for went wrong.
#[derive(Clone, Copy, Debug, PartialEq, Eq, Structural)]
pub enum ChannelsError {
    /// A thread panicked while holding the lock that shares the registry. Reported by the
    /// lock's owner; no operation here returns it.
    MutexPoisoned,
}

impl ChannelsError {
    /// The text that describes the fault.
    pub open spec fn spec_message(self) -> Seq<u8> {
        bytes::text("mutex was poisoned"@)
    }

    /// The text that describes the fault.
    pub fn message(&self) -> (r: Vec<u8>)
        ensures
            r@ == self.spec_message(),
    {
        bytes::to_bytes("mutex was poisoned")
    }
}

/// Who listens on `channel`.
pub open spec fn listeners(m: Registry, channel: Seq<u8>) -> Listeners {
    if m.dom().contains(channel) {
        m[channel]
    } else {
        Map::empty()
    }
}

/// `m` with exactly `who` listening on `channel`. A channel that nobody listens on is not
/// in the registry.
pub open spec fn with_listeners(m: Registry, channel: Seq<u8>, who: Listeners) -> Registry {
    if who == Map::<u32, Outlet>::empty() {
        m.remove(channel)
    } else {
        m.insert(channel, who)
    }
}

/// `m` with session `id` listening on `channel` through `outlet`.
pub open spec fn joined(m: Registry, channel: Seq<u8>, id: u32, outlet: Outlet) -> Registry {
    with_listeners(m, channel, listeners(m, channel).insert(id, outlet))
}

/// `m` with session `id` not listening on `channel`.
pub open spec fn departed(m: Registry, channel: Seq<u8>, id: u32) -> Registry {
    with_listeners(m, channel, listeners(m, channel).remove(id))
}

/// `m` with only the sessions in `reached` listening on `channel`.
pub open spec fn pruned(m: Registry, channel: Seq<u8>, reached: Set<u32>) -> Registry {
    with_listeners(m, channel, listeners(m, channel).restrict(reached))
}

/// `n`, or the largest `u32` where `n` is larger.
pub open spec fn count_of(n: nat) -> u32 {
    if n > u32::MAX {
        u32::MAX
    } else {
        n as u32
    }
}

/// Every channel in `m` has a listener.
pub open spec fn all_live(m: Registry) -> bool {
    forall|channel: Seq<u8>| #[trigger]
        m.dom().contains(channel) ==> m[channel] != Map::<u32, Outlet>::empty()
}

/// The subscription registry, channel name to [`Subscribers`]. It only holds channels that
/// somebody listens on.
#[derive(Debug)]
pub struct Channels {
    channels: ByteMap<Subscribers>,
}

impl View for Channels {
    type V = Registry;

    closed spec fn view(&self) -> Registry {
        self.channels@
    }
}

impl Default for Channels {
    fn default() -> (r: Self)
        ensures
            r@ == Map::<Seq<u8>, Listeners>::empty(),
    {
        Channels { channels: ByteMap::new() }
    }
}

impl Channels {
    #[verifier::type_invariant]
    spec fn only_live(self) -> bool {
        all_live(self.channels@)
    }

    /// An empty registry.
    pub fn new() -> (r: Self)
        ensures
            r@ == Map::<Seq<u8>, Listeners>::empty(),
    {
        Channels::default()
    }

    /// How many channels somebody listens on.
    pub fn len(&self) -> (r: usize)
        ensures
            self@.dom().finite(),
            r == self@.dom().len(),
            all_live(self@),
    {
        proof {
            use_type_invariant(self);
        }
        self.channels.len()
    }

    /// Put `subs` under `channel_id`, or nothing if nobody is left. What was there before
    /// has been taken out.
    fn put(&mut self, channel_id: Vec<u8>, subs: Subscribers)
        ensures
            final(self)@ == with_listeners(old(self)@, channel_id@, subs@),
    {
        proof {
            use_type_invariant(&*self);
        }
        let mut channels: ByteMap<Subscribers> = ByteMap::new();
        std::mem::swap(&mut channels, &mut self.channels);
        if subs.is_empty() {
            channels.remove(channel_id.as_slice());
        } else {
            channels.insert(channel_id, subs);
        }
        self.channels = channels;
    }

    /// Take out everyone who listens on `channel_id`.
    fn take(&mut self, channel_id: &[u8]) -> (r: Subscribers)
        ensures
            r@ == listeners(old(self)@, channel_id@),
            final(self)@ == old(self)@.remove(channel_id@),
    {
        proof {
            use_type_invariant(&*self);
        }
        let mut channels: ByteMap<Subscribers> = ByteMap::new();
        std::mem::swap(&mut channels, &mut self.channels);
        let subs = match channels.remove(channel_id) {
            Some(subs) => subs,
            None => Subscribers::default(),
        };
        self.channels = channels;
        subs
    }

    /// Register `subscriber` under `channel_id`, creating the channel on first subscribe.
    /// Idempotent per session id: re-subscribing replaces that session's sender. Counting
    /// a session's subscriptions is the caller's bookkeeping, not the registry's.
    pub fn subscribe(&mut self, channel_id: Vec<u8>, subscriber: Subscriber) -> (r: Result<
        (),
        ChannelsError,
    >)
        ensures
            r is Ok,
            final(self)@ == joined(
                old(self)@,
                channel_id@,
                subscriber.id(),
                subscriber.outlet(),
            ),
    {
        let ghost m = self@;
        let ghost id = subscriber.id();
        let mut subs = self.take(channel_id.as_slice());
        subs.insert(subscriber);
        proof {
            assert(subs@.dom().contains(id));
            assert(m.remove(channel_id@).insert(channel_id@, subs@) =~= m.insert(
                channel_id@,
                subs@,
            ));
        }
        self.put(channel_id, subs);
        Ok(())
    }

    /// Remove this subscriber from `channel_id`. The channel itself is dropped once its
    /// last subscriber leaves, so the map only holds live channels. A no-op if either the
    /// channel or the subscriber is already gone.
    pub fn unsubscribe(&mut self, channel_id: &[u8], subscriber_id: u32) -> (r: Result<
        (),
        ChannelsError,
    >)
        ensures
            r is Ok,
            final(self)@ == departed(old(self)@, channel_id@, subscriber_id),
    {
        let ghost m = self@;
        let mut subs = self.take(channel_id);
        subs.remove(subscriber_id);
        proof {
            assert(m.remove(channel_id@).insert(channel_id@, subs@) =~= m.insert(
                channel_id@,
                subs@,
            ));
            assert(m.remove(channel_id@).remove(channel_id@) =~= m.remove(channel_id@));
        }
        self.put(bytes::copy(channel_id), subs);
        Ok(())
    }

    /// Hand `message` to the queue of every subscriber of `channel_id`, and list those whose
    /// queue took it. Nobody is dropped yet.
    pub fn hand_out(&mut self, message: &[u8], channel_id: &[u8]) -> (r: Vec<u32>)
        ensures
            final(self)@ == with_listeners(
                old(self)@,
                channel_id@,
                listeners(final(self)@, channel_id@),
            ),
            handed_out(
                listeners(old(self)@, channel_id@),
                message@,
                r@.to_set(),
                listeners(final(self)@, channel_id@),
            ),
    {
        let ghost m = self@;
        let mut subs = self.take(channel_id);
        let reached = subs.hand_out(message);
        proof {
            assert(m.remove(channel_id@).insert(channel_id@, subs@) =~= m.insert(
                channel_id@,
                subs@,
            ));
            assert(m.remove(channel_id@).remove(channel_id@) =~= m.remove(channel_id@));
        }
        self.put(bytes::copy(channel_id), subs);
        reached
    }

    /// Note which subscribers of `channel_id` a message has `reached`: the others are
    /// dropped, and the channel with them if nobody is left. Returns how many it reached.
    pub fn settle(&mut self, channel_id: &[u8], reached: &Vec<u32>) -> (r: u32)
        ensures
            final(self)@ == pruned(old(self)@, channel_id@, reached@.to_set()),
            r == count_of(
                listeners(old(self)@, channel_id@).restrict(reached@.to_set()).dom().len(),
            ),
    {
        let ghost m = self@;
        let mut subs = self.take(channel_id);
        let n: usize = subs.keep(reached);
        proof {
            assert(m.remove(channel_id@).insert(channel_id@, subs@) =~= m.insert(
                channel_id@,
                subs@,
            ));
            assert(m.remove(channel_id@).remove(channel_id@) =~= m.remove(channel_id@));
        }
        self.put(bytes::copy(channel_id), subs);
        if n > u32::MAX as usize {
            u32::MAX
        } else {
            n as u32
        }
    }

    /// Fan `message` out to every subscriber of `channel_id`, returning how many got it.
    /// Subscribers whose receiver has been dropped are pruned along the way. The message
    /// is delivered verbatim, since the caller already serialized the RESP push.
    pub fn publish(&mut self, message: Vec<u8>, channel_id: &[u8]) -> (r: Result<
        u32,
        ChannelsError,
    >)
        ensures
            r is Ok,
            fanned_out(old(self)@, channel_id@, message@, final(self)@, r->Ok_0),
    {
        let ghost m = self@;
        let reached = self.hand_out(message.as_slice(), channel_id);
        let ghost mid = self@;
        let count: u32 = self.settle(channel_id, &reached);
        proof {
            let name = channel_id@;
            let left = listeners(mid, name).restrict(reached@.to_set());
            assert(listeners(self@, name) =~= left);
            assert(self@ =~= with_listeners(m, name, left));
        }
        Ok(count)
    }
}

} // verus!
