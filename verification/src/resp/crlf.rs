//! `Crlf`: byte-slice utilities for the `\r\n` terminator RESP uses between every header
//! and payload. Implemented for `[u8]`, so `bytes.split_crlf()` works on any slice.

use vstd::prelude::*;

use crate::bytes;
use crate::bytes::{CR, LF};

verus! {

/// `\r\n` stands at position `i` of `s`.
pub open spec fn crlf_at(s: Seq<u8>, i: int) -> bool {
    0 <= i && i + 1 < s.len() && s[i] == CR && s[i + 1] == LF
}

/// `i` is where the first `\r\n` of `s` starts.
pub open spec fn first_crlf_at(s: Seq<u8>, i: int) -> bool {
    crlf_at(s, i) && forall|j: int| 0 <= j < i ==> !#[trigger] crlf_at(s, j)
}

/// `s` holds no `\r\n`.
pub open spec fn no_crlf(s: Seq<u8>) -> bool {
    forall|j: int| !#[trigger] crlf_at(s, j)
}

/// What stands before the first `\r\n` of `s`, and what stands behind it.
pub open spec fn split(s: Seq<u8>) -> Option<(Seq<u8>, Seq<u8>)> {
    if no_crlf(s) {
        None
    } else {
        let i = choose|i: int| first_crlf_at(s, i);
        Some((s.take(i), s.skip(i + 2)))
    }
}

/// There is one first `\r\n`, and it fixes the split.
pub proof fn split_at_first(s: Seq<u8>, i: int)
    requires
        first_crlf_at(s, i),
    ensures
        split(s) == Some((s.take(i), s.skip(i + 2))),
{
    assert(crlf_at(s, i));
    let j = choose|j: int| first_crlf_at(s, j);
    if j < i {
        assert(crlf_at(s, j));
    } else if i < j {
        assert(crlf_at(s, i));
    }
}

/// A split exists wherever there is a `\r\n`: the pieces and the terminator make up the
/// whole, and the first piece ends before the first terminator.
pub proof fn split_parts(s: Seq<u8>)
    ensures
        match split(s) {
            None => no_crlf(s),
            Some((head, rest)) => {
                &&& s == head + bytes::crlf() + rest
                &&& first_crlf_at(s, head.len() as int)
                &&& rest == s.skip(head.len() as int + 2)
                &&& no_crlf(head)
            },
        },
{
    if !no_crlf(s) {
        let k = choose|k: int| crlf_at(s, k);
        least(s, k);
        let i = choose|i: int| first_crlf_at(s, i);
        let head = s.take(i);
        assert(s =~= head + bytes::crlf() + s.skip(i + 2));
        assert forall|j: int| !#[trigger] crlf_at(head, j) by {
            if crlf_at(head, j) {
                assert(crlf_at(s, j));
            }
        }
    }
}

proof fn least(s: Seq<u8>, k: int)
    requires
        crlf_at(s, k),
    ensures
        exists|i: int| first_crlf_at(s, i),
    decreases k,
{
    if exists|j: int| 0 <= j < k && crlf_at(s, j) {
        let j = choose|j: int| 0 <= j < k && crlf_at(s, j);
        least(s, j);
    } else {
        assert(first_crlf_at(s, k));
    }
}

/// Text without `\r`, ended by `\r\n`, is split at that terminator whatever follows.
pub proof fn split_of_line(head: Seq<u8>, rest: Seq<u8>)
    requires
        !head.contains(CR),
    ensures
        split(head + bytes::crlf() + rest) == Some((head, rest)),
{
    let s = head + bytes::crlf() + rest;
    let n = head.len() as int;
    assert(crlf_at(s, n));
    assert forall|j: int| 0 <= j < n implies !#[trigger] crlf_at(s, j) by {
        assert(s[j] == head[j]);
    }
    split_at_first(s, n);
    assert(s.take(n) =~= head);
    assert(s.skip(n + 2) =~= rest);
}

/// A line that was split off stays the same when more bytes arrive behind it.
pub proof fn split_is_stable(s: Seq<u8>, more: Seq<u8>)
    ensures
        split(s) matches Some((head, rest)) ==> split(s + more) == Some((head, rest + more)),
{
    split_parts(s);
    if let Some((head, rest)) = split(s) {
        let i = head.len() as int;
        let long = s + more;
        assert forall|j: int| 0 <= j < i implies !#[trigger] crlf_at(long, j) by {
            assert(!crlf_at(s, j));
        }
        assert(first_crlf_at(long, i));
        split_at_first(long, i);
        assert(long.take(i) =~= head);
        assert(long.skip(i + 2) =~= rest + more);
    }
}

/// Non-allocating inspection and splitting on the `\r\n` terminator.
pub trait Crlf {
    /// The bytes being inspected.
    spec fn contents(&self) -> Seq<u8>;

    /// `true` if the slice starts with `\r\n`.
    fn is_crlf(&self) -> (r: bool)
        ensures
            r == crlf_at(self.contents(), 0),
    ;

    /// Split on the first `\r\n`, dropping the terminator. `None` when there isn't one,
    /// which one layer up is the parser's "incomplete frame, read more" signal.
    fn split_crlf(&self) -> (r: Option<(&[u8], &[u8])>)
        ensures
            match r {
                Some((head, rest)) => split(self.contents()) == Some((head@, rest@)),
                None => split(self.contents()) is None,
            },
    ;
}

impl Crlf for [u8] {
    open spec fn contents(&self) -> Seq<u8> {
        self@
    }

    fn is_crlf(&self) -> (r: bool) {
        self.len() >= 2 && self[0] == CR && self[1] == LF
    }

    fn split_crlf(&self) -> (r: Option<(&[u8], &[u8])>) {
        let mut i: usize = 0;
        while i < self.len() && self.len() - i >= 2
            invariant
                i <= self@.len(),
                forall|j: int| 0 <= j < i ==> !#[trigger] crlf_at(self@, j),
            decreases self@.len() - i,
        {
            if self[i] == CR && self[i + 1] == LF {
                proof {
                    assert(crlf_at(self@, i as int));
                    split_at_first(self@, i as int);
                }
                let (head, tail) = self.split_at(i);
                let (_, rest) = tail.split_at(2);
                proof {
                    assert(head@ =~= self@.take(i as int));
                    assert(rest@ =~= self@.skip(i + 2));
                }
                return Some((head, rest));
            }
            i = i + 1;
        }
        None
    }
}

} // verus!
