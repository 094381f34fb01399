//! A map keyed by byte strings, kept as a vector in key order.

use vstd::prelude::*;

use crate::bytes;
use crate::bytes::Position;

verus! {

/// A map from byte strings to values. The keys are held in strictly ascending byte order,
/// so each occurs once and a walk over the map has one order.
#[derive(Debug, PartialEq)]
pub struct ByteMap<V> {
    entries: Vec<(Vec<u8>, V)>,
}

/// The keys stand in strictly ascending order.
spec fn ascending<V>(s: Seq<(Vec<u8>, V)>) -> bool {
    forall|i: int, j: int|
        0 <= i < j < s.len() ==> bytes::before((#[trigger] s[i]).0@, (#[trigger] s[j]).0@)
}

/// `k` stands somewhere in `s`.
spec fn has_key<V>(s: Seq<(Vec<u8>, V)>, k: Seq<u8>) -> bool {
    exists|i: int| 0 <= i < s.len() && (#[trigger] s[i]).0@ == k
}

/// Where `k` stands in `s`.
spec fn place<V>(s: Seq<(Vec<u8>, V)>, k: Seq<u8>) -> int {
    choose|i: int| 0 <= i < s.len() && (#[trigger] s[i]).0@ == k
}

/// The map that a vector of entries stands for.
spec fn map_of<V: View>(s: Seq<(Vec<u8>, V)>) -> Map<Seq<u8>, V::V> {
    Map::new(
        |k: Seq<u8>| has_key(s, k),
        |k: Seq<u8>| s[place(s, k)].1@,
    )
}

/// In a well-ordered vector, a key stands in one place only.
proof fn one_place<V>(s: Seq<(Vec<u8>, V)>, i: int, j: int)
    requires
        ascending(s),
        0 <= i < s.len(),
        0 <= j < s.len(),
        s[i].0@ == s[j].0@,
    ensures
        i == j,
{
    bytes::before_irreflexive(s[i].0@);
}

/// The map holds each entry of the vector.
proof fn map_of_entry<V: View>(s: Seq<(Vec<u8>, V)>, i: int)
    requires
        ascending(s),
        0 <= i < s.len(),
    ensures
        map_of(s).dom().contains(s[i].0@),
        map_of(s)[s[i].0@] == s[i].1@,
{
    let k = s[i].0@;
    assert(has_key(s, k));
    one_place(s, i, place(s, k));
}

/// The map's domain is finite and has one key for each entry.
proof fn map_of_len<V: View>(s: Seq<(Vec<u8>, V)>)
    requires
        ascending(s),
    ensures
        map_of(s).dom().finite(),
        map_of(s).dom().len() == s.len(),
    decreases s.len(),
{
    if s.len() == 0 {
        assert(map_of(s).dom() =~= Set::empty());
    } else {
        let rest = s.drop_last();
        let k = s.last().0@;
        assert forall|i: int, j: int| 0 <= i < j < rest.len() implies bytes::before(
            (#[trigger] rest[i]).0@,
            (#[trigger] rest[j]).0@,
        ) by {
            assert(rest[i] == s[i] && rest[j] == s[j]);
        }
        map_of_len(rest);
        assert(!has_key(rest, k)) by {
            if has_key(rest, k) {
                let i = choose|i: int| 0 <= i < rest.len() && (#[trigger] rest[i]).0@ == k;
                assert(rest[i] == s[i]);
                one_place(s, i, s.len() - 1);
            }
        }
        assert forall|q: Seq<u8>| has_key(s, q) == (has_key(rest, q) || q == k) by {
            if has_key(rest, q) {
                let i = choose|i: int| 0 <= i < rest.len() && (#[trigger] rest[i]).0@ == q;
                assert(s[i].0@ == q);
            }
            if q == k {
                assert(s[s.len() - 1].0@ == q);
            }
            if has_key(s, q) && q != k {
                let i = choose|i: int| 0 <= i < s.len() && (#[trigger] s[i]).0@ == q;
                assert(rest[i] == s[i]);
            }
        }
        assert(map_of(s).dom() =~= map_of(rest).dom().insert(k));
    }
}

impl<V: View> View for ByteMap<V> {
    type V = Map<Seq<u8>, V::V>;

    closed spec fn view(&self) -> Map<Seq<u8>, V::V> {
        map_of(self.entries@)
    }
}

impl<V> ByteMap<V> {
    #[verifier::type_invariant]
    spec fn ordered(self) -> bool {
        ascending(self.entries@)
    }
}

impl<V: View> ByteMap<V> {
    /// The keys in ascending order.
    pub closed spec fn keys(self) -> Seq<Seq<u8>> {
        Seq::new(self.entries@.len(), |i: int| self.entries@[i].0@)
    }

    /// An empty map.
    pub fn new() -> (r: Self)
        ensures
            r@ == Map::<Seq<u8>, V::V>::empty(),
            r.keys() == Seq::<Seq<u8>>::empty(),
    {
        let r = ByteMap { entries: Vec::new() };
        assert(r@ =~= Map::<Seq<u8>, V::V>::empty());
        assert(r.keys() =~= Seq::<Seq<u8>>::empty());
        r
    }

    /// How many keys the map holds. The keys are in ascending order and distinct, and
    /// together they are the map's domain.
    pub fn len(&self) -> (r: usize)
        ensures
            self@.dom().finite(),
            r == self@.dom().len(),
            r == self.keys().len(),
            self.keys().no_duplicates(),
            forall|i: int, j: int|
                0 <= i < j < self.keys().len() ==> bytes::before(
                    #[trigger] self.keys()[i],
                    #[trigger] self.keys()[j],
                ),
            forall|k: Seq<u8>| #[trigger] self@.dom().contains(k) <==> self.keys().contains(k),
    {
        proof {
            use_type_invariant(self);
            map_of_len(self.entries@);
            self.keys_are_domain();
        }
        self.entries.len()
    }

    /// `true` if the map holds no key.
    pub fn is_empty(&self) -> (r: bool)
        ensures
            r == (self@ == Map::<Seq<u8>, V::V>::empty()),
    {
        proof {
            use_type_invariant(self);
            if self.entries@.len() > 0 {
                map_of_entry(self.entries@, 0);
            } else {
                assert(self@ =~= Map::<Seq<u8>, V::V>::empty());
            }
        }
        self.entries.len() == 0
    }

    /// The keys in order are distinct, and they are the map's domain.
    proof fn keys_are_domain(&self)
        requires
            ascending(self.entries@),
        ensures
            self.keys().no_duplicates(),
            forall|k: Seq<u8>| #[trigger] self@.dom().contains(k) <==> self.keys().contains(k),
    {
        let s = self.entries@;
        assert forall|i: int, j: int|
            0 <= i < self.keys().len() && 0 <= j < self.keys().len() && i != j implies self.keys()[i]
            != self.keys()[j] by {
            if self.keys()[i] == self.keys()[j] {
                one_place(s, i, j);
            }
        }
        assert forall|k: Seq<u8>| #[trigger] self@.dom().contains(k) implies self.keys().contains(
            k,
        ) by {
            let i = choose|i: int| 0 <= i < s.len() && (#[trigger] s[i]).0@ == k;
            assert(self.keys()[i] == k);
        }
        assert forall|k: Seq<u8>| self.keys().contains(k) implies #[trigger] self@.dom().contains(
            k,
        ) by {
            let i = choose|i: int| 0 <= i < self.keys().len() && self.keys()[i] == k;
            map_of_entry(s, i);
        }
    }

    /// Where `key` stands, or where it would be put.
    fn locate(&self, key: &[u8]) -> (r: (bool, usize))
        ensures
            r.1 <= self.entries@.len(),
            r.0 ==> r.1 < self.entries@.len() && self.entries@[r.1 as int].0@ == key@,
            !r.0 ==> !has_key(self.entries@, key@),
            forall|i: int|
                0 <= i < r.1 ==> bytes::before((#[trigger] self.entries@[i]).0@, key@),
            forall|i: int|
                (if r.0 {
                    r.1 < i < self.entries@.len()
                } else {
                    r.1 <= i < self.entries@.len()
                }) ==> bytes::before(key@, (#[trigger] self.entries@[i]).0@),
    {
        proof {
            use_type_invariant(self);
        }
        let mut lo: usize = 0;
        let mut hi: usize = self.entries.len();
        while lo < hi
            invariant
                ascending(self.entries@),
                lo <= hi <= self.entries@.len(),
                forall|i: int|
                    0 <= i < lo ==> bytes::before((#[trigger] self.entries@[i]).0@, key@),
                forall|i: int|
                    hi <= i < self.entries@.len() ==> bytes::before(
                        key@,
                        (#[trigger] self.entries@[i]).0@,
                    ),
            decreases hi - lo,
        {
            let mid: usize = lo + (hi - lo) / 2;
            let ghost m = self.entries@[mid as int].0@;
            match bytes::position(self.entries[mid].0.as_slice(), key) {
                Position::Same => {
                    return (true, mid);
                },
                Position::Before => {
                    proof {
                        assert forall|i: int| 0 <= i < mid + 1 implies bytes::before(
                            (#[trigger] self.entries@[i]).0@,
                            key@,
                        ) by {
                            if i < mid {
                                bytes::before_transitive(self.entries@[i].0@, m, key@);
                            }
                        }
                    }
                    lo = mid + 1;
                },
                Position::After => {
                    proof {
                        assert forall|i: int| mid <= i < self.entries@.len() implies bytes::before(
                            key@,
                            (#[trigger] self.entries@[i]).0@,
                        ) by {
                            if mid < i {
                                bytes::before_transitive(key@, m, self.entries@[i].0@);
                            }
                        }
                    }
                    hi = mid;
                },
            }
        }
        proof {
            bytes::before_irreflexive(key@);
        }
        (false, lo)
    }

    /// The value under `key`.
    pub fn get(&self, key: &[u8]) -> (r: Option<&V>)
        ensures
            match r {
                Some(v) => self@.dom().contains(key@) && v@ == self@[key@],
                None => !self@.dom().contains(key@),
            },
    {
        proof {
            use_type_invariant(self);
        }
        let (found, i) = self.locate(key);
        if found {
            proof {
                map_of_entry(self.entries@, i as int);
            }
            Some(&self.entries[i].1)
        } else {
            None
        }
    }

    /// `true` if the map holds `key`.
    pub fn contains_key(&self, key: &[u8]) -> (r: bool)
        ensures
            r == self@.dom().contains(key@),
    {
        self.get(key).is_some()
    }

    /// The `i`th entry in key order.
    pub fn entry_at(&self, i: usize) -> (r: (&Vec<u8>, &V))
        requires
            i < self.keys().len(),
        ensures
            r.0@ == self.keys()[i as int],
            self@.dom().contains(r.0@),
            r.1@ == self@[r.0@],
    {
        proof {
            use_type_invariant(self);
            map_of_entry(self.entries@, i as int);
        }
        (&self.entries[i].0, &self.entries[i].1)
    }

    /// Put `value` under `key`, returning what was there.
    pub fn insert(&mut self, key: Vec<u8>, value: V) -> (r: Option<V>)
        ensures
            final(self)@ == old(self)@.insert(key@, value@),
            match r {
                Some(v) => old(self)@.dom().contains(key@) && v@ == old(self)@[key@],
                None => !old(self)@.dom().contains(key@),
            },
    {
        proof {
            use_type_invariant(&*self);
        }
        let (found, i) = self.locate(key.as_slice());
        let mut entries: Vec<(Vec<u8>, V)> = Vec::new();
        std::mem::swap(&mut entries, &mut self.entries);
        let ghost s = entries@;
        let ghost k = key@;
        let ghost v = value@;
        let mut previous: Option<V> = None;
        if found {
            proof {
                map_of_entry(s, i as int);
            }
            let (_, value_before) = entries.remove(i);
            previous = Some(value_before);
        }
        entries.insert(i, (key, value));
        let ghost t = entries@;
        proof {
            assert(t[i as int].0@ == k && t[i as int].1@ == v);
            if found {
                assert forall|j: int| 0 <= j < t.len() && j != i implies #[trigger] t[j]
                    == s[j] by {}
                assert(t.len() == s.len());
            } else {
                assert forall|j: int| 0 <= j < i implies #[trigger] t[j] == s[j] by {}
                assert forall|j: int| i < j < t.len() implies #[trigger] t[j] == s[j - 1] by {}
                assert(t.len() == s.len() + 1);
            }
            assert forall|a: int, b: int| 0 <= a < b < t.len() implies bytes::before(
                (#[trigger] t[a]).0@,
                (#[trigger] t[b]).0@,
            ) by {
                if found {
                    assert(s[i as int].0@ == k);
                }
            }
            insert_view(s, t, i as int, k, found);
        }
        self.entries = entries;
        previous
    }

    /// Take `key` out, returning what was there.
    pub fn remove(&mut self, key: &[u8]) -> (r: Option<V>)
        ensures
            final(self)@ == old(self)@.remove(key@),
            match r {
                Some(v) => old(self)@.dom().contains(key@) && v@ == old(self)@[key@],
                None => !old(self)@.dom().contains(key@),
            },
    {
        proof {
            use_type_invariant(&*self);
        }
        let (found, i) = self.locate(key);
        if !found {
            assert(self@ =~= self@.remove(key@));
            return None;
        }
        let mut entries: Vec<(Vec<u8>, V)> = Vec::new();
        std::mem::swap(&mut entries, &mut self.entries);
        let ghost s = entries@;
        let (_, value) = entries.remove(i);
        let ghost t = entries@;
        proof {
            map_of_entry(s, i as int);
            assert forall|j: int| 0 <= j < i implies #[trigger] t[j] == s[j] by {}
            assert forall|j: int| i <= j < t.len() implies #[trigger] t[j] == s[j + 1] by {}
            assert(ascending(t));
            remove_view(s, t, i as int);
        }
        self.entries = entries;
        Some(value)
    }
}

proof fn insert_view<V: View>(
    s: Seq<(Vec<u8>, V)>,
    t: Seq<(Vec<u8>, V)>,
    i: int,
    k: Seq<u8>,
    found: bool,
)
    requires
        ascending(s),
        ascending(t),
        0 <= i < t.len(),
        i <= s.len(),
        t[i].0@ == k,
        found ==> t.len() == s.len() && s[i].0@ == k && forall|j: int|
            0 <= j < t.len() && j != i ==> #[trigger] t[j] == s[j],
        !found ==> t.len() == s.len() + 1 && (forall|j: int|
            0 <= j < i ==> #[trigger] t[j] == s[j]) && (forall|j: int|
            i < j < t.len() ==> #[trigger] t[j] == s[j - 1]),
    ensures
        map_of(t) == map_of(s).insert(k, t[i].1@),
{
    map_of_entry(t, i);
    assert forall|q: Seq<u8>| has_key(t, q) == (has_key(s, q) || q == k) by {
        if has_key(s, q) {
            let j = choose|j: int| 0 <= j < s.len() && (#[trigger] s[j]).0@ == q;
            if found || j < i {
                assert(t[j].0@ == q || j == i);
                assert(t[i].0@ == k);
            } else {
                assert(t[j + 1].0@ == q);
            }
        }
        if has_key(t, q) && q != k {
            let j = choose|j: int| 0 <= j < t.len() && (#[trigger] t[j]).0@ == q;
            if found || j < i {
                assert(s[j].0@ == q);
            } else {
                assert(s[j - 1].0@ == q);
            }
        }
    }
    assert forall|q: Seq<u8>| has_key(s, q) && q != k implies #[trigger] map_of(t)[q] == map_of(
        s,
    )[q] by {
        let j = choose|j: int| 0 <= j < s.len() && (#[trigger] s[j]).0@ == q;
        map_of_entry(s, j);
        if found || j < i {
            map_of_entry(t, j);
        } else {
            map_of_entry(t, j + 1);
        }
    }
    assert(map_of(t) =~= map_of(s).insert(k, t[i].1@));
}

proof fn remove_view<V: View>(s: Seq<(Vec<u8>, V)>, t: Seq<(Vec<u8>, V)>, i: int)
    requires
        ascending(s),
        ascending(t),
        0 <= i < s.len(),
        t.len() == s.len() - 1,
        forall|j: int| 0 <= j < i ==> #[trigger] t[j] == s[j],
        forall|j: int| i <= j < t.len() ==> #[trigger] t[j] == s[j + 1],
    ensures
        map_of(t) == map_of(s).remove(s[i].0@),
{
    let k = s[i].0@;
    assert forall|q: Seq<u8>| has_key(t, q) == (has_key(s, q) && q != k) by {
        if has_key(t, q) {
            let j = choose|j: int| 0 <= j < t.len() && (#[trigger] t[j]).0@ == q;
            let p: int = if j < i {
                j
            } else {
                j + 1
            };
            assert(s[p].0@ == q);
            if q == k {
                one_place(s, p, i);
            }
        }
        if has_key(s, q) && q != k {
            let j = choose|j: int| 0 <= j < s.len() && (#[trigger] s[j]).0@ == q;
            if j < i {
                assert(t[j].0@ == q);
            } else {
                assert(t[j - 1].0@ == q);
            }
        }
    }
    assert forall|q: Seq<u8>| has_key(t, q) implies #[trigger] map_of(t)[q] == map_of(s)[q] by {
        let j = choose|j: int| 0 <= j < t.len() && (#[trigger] t[j]).0@ == q;
        map_of_entry(t, j);
        if j < i {
            map_of_entry(s, j);
        } else {
            map_of_entry(s, j + 1);
        }
    }
    assert(map_of(t) =~= map_of(s).remove(k));
}

} // verus!
