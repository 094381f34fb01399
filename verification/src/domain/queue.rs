//! The queues that carry bytes to a session's socket.
//!
//! A queue is one of `std::sync::mpsc`: any number of senders feed it, one receiver drains
//! it, and what goes in first comes out first. A queue numbers what it carries, from zero,
//! in that order. An [`Outlet`] is what a sender stands for, an [`Inlet`] what a receiver
//! stands for; both know the line of messages that the queue carries, and each keeps count
//! of what went through it.

use std::sync::mpsc::{Receiver, RecvError, SendError, Sender};
use vstd::prelude::*;

verus! {

/// `std::sync::mpsc::Sender`, a handle that feeds a queue.
#[verifier::external_type_specification]
#[verifier::external_body]
#[verifier::reject_recursive_types(T)]
pub struct ExSender<T>(std::sync::mpsc::Sender<T>);

/// `std::sync::mpsc::SendError`, a message whose receiver is gone.
#[verifier::external_type_specification]
#[verifier::reject_recursive_types(T)]
pub struct ExSendError<T>(std::sync::mpsc::SendError<T>);

/// `std::sync::mpsc::Receiver`, the one handle that drains a queue.
#[verifier::external_type_specification]
#[verifier::external_body]
#[verifier::reject_recursive_types(T)]
pub struct ExReceiver<T>(std::sync::mpsc::Receiver<T>);

/// `std::sync::mpsc::RecvError`, a queue whose senders are all gone.
#[verifier::external_type_specification]
#[verifier::external_body]
pub struct ExRecvError(std::sync::mpsc::RecvError);

/// The messages that a queue carries, from its first to its last, each under its number.
pub type Line = Map<nat, Seq<u8>>;

/// What the queue that `sender` feeds carries, from its first message to its last. It is the
/// same for every handle of the queue.
pub uninterp spec fn line_in(sender: Sender<Vec<u8>>) -> Map<nat, Seq<u8>>;

/// What has been handed to the queue by way of this one handle, in order: each message with
/// the number that it got, or with none where the queue refused it.
pub uninterp spec fn handed_in(sender: Sender<Vec<u8>>) -> Seq<(Seq<u8>, Option<nat>)>;

/// What the queue that `receiver` drains carries, from its first message to its last.
pub uninterp spec fn line_out(receiver: Receiver<Vec<u8>>) -> Map<nat, Seq<u8>>;

/// How many messages the receiver has taken out.
pub uninterp spec fn taken_out(receiver: Receiver<Vec<u8>>) -> nat;

/// What a sender stands for.
#[verifier::ext_equal]
pub struct Outlet {
    /// What the queue carries.
    pub line: Line,
    /// What has been handed to the queue here: each message with the number that it got, or
    /// with none where the queue refused it.
    pub handed: Seq<(Seq<u8>, Option<nat>)>,
}

/// What a receiver stands for.
#[verifier::ext_equal]
pub struct Inlet {
    /// What the queue carries.
    pub line: Line,
    /// How many messages have been taken out.
    pub taken: nat,
}

/// What `sender` stands for.
pub open spec fn outlet(sender: Sender<Vec<u8>>) -> Outlet {
    Outlet { line: line_in(sender), handed: handed_in(sender) }
}

/// What `receiver` stands for.
pub open spec fn inlet(receiver: Receiver<Vec<u8>>) -> Inlet {
    Inlet { line: line_out(receiver), taken: taken_out(receiver) }
}

/// An outlet that nothing has been handed to.
pub open spec fn fresh_outlet(line: Line) -> Outlet {
    Outlet { line, handed: Seq::empty() }
}

/// An inlet that nothing has been taken from.
pub open spec fn fresh_inlet(line: Line) -> Inlet {
    Inlet { line, taken: 0 }
}

impl Outlet {
    /// `n` is the number of `message` in the line, and comes behind every number given out
    /// here before.
    pub open spec fn is_next(self, message: Seq<u8>, n: nat) -> bool {
        &&& self.line.dom().contains(n)
        &&& self.line[n] == message
        &&& forall|i: int|
            0 <= i < self.handed.len() ==> ((#[trigger] self.handed[i]).1 matches Some(k) ==> k
                < n)
    }

    /// `message` was handed over once, the queue took it, and the outlet is now `after`.
    pub open spec fn took(self, message: Seq<u8>, after: Outlet) -> bool {
        exists|n: nat|
            {
                &&& #[trigger] self.is_next(message, n)
                &&& after == (Outlet {
                    line: self.line,
                    handed: self.handed.push((message, Some(n))),
                })
            }
    }

    /// The outlet once `message` was handed over once and the queue refused it.
    pub open spec fn declined(self, message: Seq<u8>) -> Outlet {
        Outlet { line: self.line, handed: self.handed.push((message, None)) }
    }
}

impl Inlet {
    /// `message` was taken out, it was the next in line, and the inlet is now `after`.
    pub open spec fn gave(self, message: Seq<u8>, after: Inlet) -> bool {
        &&& self.line.dom().contains(self.taken)
        &&& self.line[self.taken] == message
        &&& after == (Inlet { line: self.line, taken: self.taken + 1 })
    }

    /// Nothing is left in line, and nothing will be.
    pub open spec fn ended(self) -> bool {
        forall|n: nat| self.taken <= n ==> !#[trigger] self.line.dom().contains(n)
    }
}

/// Handing `message` to the queue behind `outlet` was tried, and the queue refused it.
pub open spec fn was_declined(before: Outlet, message: Seq<u8>) -> bool {
    exists|sender: Sender<Vec<u8>>| #[trigger] outlet(sender) == before.declined(message)
}

/// `std::sync::mpsc::channel` makes a queue. Claimed is that the two handles belong to one
/// queue, and that nothing has gone through either.
#[verifier::external_body]
pub(crate) fn channel() -> (r: (Sender<Vec<u8>>, Receiver<Vec<u8>>))
    ensures
        line_in(r.0) == line_out(r.1),
        handed_in(r.0) == Seq::<(Seq<u8>, Option<nat>)>::empty(),
        taken_out(r.1) == 0,
{
    std::sync::mpsc::channel()
}

/// `Sender::clone` gives another handle that feeds the same queue.
#[verifier::external_body]
pub(crate) fn another(sender: &Sender<Vec<u8>>) -> (r: Sender<Vec<u8>>)
    ensures
        line_in(r) == line_in(*sender),
        handed_in(r) == Seq::<(Seq<u8>, Option<nat>)>::empty(),
{
    sender.clone()
}

/// `Sender::send` hands one message to the queue. Claimed is that a message that is taken
/// has its place in line, unchanged, behind what went in here before; and that a message
/// that is refused comes back. It is refused once the receiver is gone, which is up to
/// whoever holds it: nothing is claimed of when.
#[verifier::external_body]
pub(crate) fn send(sender: &mut Sender<Vec<u8>>, message: Vec<u8>) -> (r: Result<
    (),
    SendError<Vec<u8>>,
>)
    ensures
        match r {
            Ok(_) => outlet(*old(sender)).took(message@, outlet(*final(sender))),
            Err(e) => {
                &&& e.0 == message
                &&& outlet(*final(sender)) == outlet(*old(sender)).declined(message@)
            },
        },
{
    sender.send(message)
}

/// `Receiver::recv` waits for the next message in line and takes it out. It fails once
/// every sender is gone and the queue is empty: claimed is that no message is left then and
/// none will come. When that is, is up to the senders, and nothing is claimed of it.
#[verifier::external_body]
pub(crate) fn recv(receiver: &mut Receiver<Vec<u8>>) -> (r: Result<Vec<u8>, RecvError>)
    ensures
        match r {
            Ok(message) => inlet(*old(receiver)).gave(message@, inlet(*final(receiver))),
            Err(_) => {
                &&& inlet(*final(receiver)) == inlet(*old(receiver))
                &&& inlet(*final(receiver)).ended()
            },
        },
{
    receiver.recv()
}

} // verus!
