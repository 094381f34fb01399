//! The pub/sub commands and what comes of them.

use vstd::prelude::*;

use crate::bytes;
use crate::domain::command;

verus! {

/// A command on the subscription registry.
#[derive(Debug, PartialEq)]
pub enum ChannelCommand {
    /// Start listening on channels.
    Subscribe {
        /// The channels' names.
        channel_ids: Vec<Vec<u8>>,
    },
    /// Stop listening on channels; on every one where none is named.
    Unsubscribe {
        /// The channels' names.
        channel_ids: Vec<Vec<u8>>,
    },
    /// Send a message to everyone who listens on a channel.
    Publish {
        /// The channel's name.
        channel_id: Vec<u8>,
        /// The message.
        message: Vec<u8>,
    },
}

/// What a [`ChannelCommand`] stands for.
pub enum ChannelCommandView {
    /// Start listening on channels.
    Subscribe {
        /// The channels' names.
        channel_ids: Seq<Seq<u8>>,
    },
    /// Stop listening on channels; on every one where none is named.
    Unsubscribe {
        /// The channels' names.
        channel_ids: Seq<Seq<u8>>,
    },
    /// Send a message to everyone who listens on a channel.
    Publish {
        /// The channel's name.
        channel_id: Seq<u8>,
        /// The message.
        message: Seq<u8>,
    },
}

/// What a list of byte strings stands for.
pub open spec fn names(v: Seq<Vec<u8>>) -> Seq<Seq<u8>> {
    v.map_values(|name: Vec<u8>| name@)
}

impl View for ChannelCommand {
    type V = ChannelCommandView;

    open spec fn view(&self) -> ChannelCommandView {
        match self {
            ChannelCommand::Subscribe { channel_ids } => ChannelCommandView::Subscribe {
                channel_ids: names(channel_ids@),
            },
            ChannelCommand::Unsubscribe { channel_ids } => ChannelCommandView::Unsubscribe {
                channel_ids: names(channel_ids@),
            },
            ChannelCommand::Publish { channel_id, message } => ChannelCommandView::Publish {
                channel_id: channel_id@,
                message: message@,
            },
        }
    }
}

/// An owned copy of a list of byte strings.
pub fn copy_names(v: &Vec<Vec<u8>>) -> (r: Vec<Vec<u8>>)
    ensures
        names(r@) == names(v@),
{
    let mut out: Vec<Vec<u8>> = Vec::new();
    let mut i: usize = 0;
    while i < v.len()
        invariant
            i <= v@.len(),
            names(out@) =~= names(v@).take(i as int),
        decreases v@.len() - i,
    {
        let ghost before = out@;
        let name = bytes::copy(v[i].as_slice());
        out.push(name);
        assert(names(out@) =~= names(before).push(name@));
        i = i + 1;
    }
    assert(names(out@) =~= names(v@));
    out
}

impl Clone for ChannelCommand {
    fn clone(&self) -> (r: Self)
        ensures
            r@ == self@,
    {
        match self {
            ChannelCommand::Subscribe { channel_ids } => ChannelCommand::Subscribe {
                channel_ids: copy_names(channel_ids),
            },
            ChannelCommand::Unsubscribe { channel_ids } => ChannelCommand::Unsubscribe {
                channel_ids: copy_names(channel_ids),
            },
            ChannelCommand::Publish { channel_id, message } => ChannelCommand::Publish {
                channel_id: bytes::copy(channel_id.as_slice()),
                message: bytes::copy(message.as_slice()),
            },
        }
    }
}

impl ChannelCommand {
    /// Start listening on `channel_ids`.
    pub fn subscribe(channel_ids: Vec<Vec<u8>>) -> (r: Self)
        ensures
            r@ == (ChannelCommandView::Subscribe { channel_ids: names(channel_ids@) }),
    {
        ChannelCommand::Subscribe { channel_ids }
    }

    /// Stop listening on `channel_ids`; on every channel where none is named.
    pub fn unsubscribe(channel_ids: Vec<Vec<u8>>) -> (r: Self)
        ensures
            r@ == (ChannelCommandView::Unsubscribe { channel_ids: names(channel_ids@) }),
    {
        ChannelCommand::Unsubscribe { channel_ids }
    }

    /// Send `message` to everyone who listens on `channel_id`.
    pub fn publish(channel_id: Vec<u8>, message: Vec<u8>) -> (r: Self)
        ensures
            r@ == (ChannelCommandView::Publish { channel_id: channel_id@, message: message@ }),
    {
        ChannelCommand::Publish { channel_id, message }
    }
}

/// One channel that a session joined or left, and how many it listens on after that.
#[derive(Debug, PartialEq)]
pub struct SubUnsubInnerEntry {
    /// The channel, or `None` where there was none to leave.
    pub channel_id: Option<Vec<u8>>,
    /// How many channels the session listens on now.
    pub subscription_count: usize,
}

/// What a [`SubUnsubInnerEntry`] stands for.
pub struct SubUnsubInnerEntryView {
    /// The channel, or `None` where there was none to leave.
    pub channel_id: Option<Seq<u8>>,
    /// How many channels the session listens on now.
    pub subscription_count: nat,
}

impl View for SubUnsubInnerEntry {
    type V = SubUnsubInnerEntryView;

    open spec fn view(&self) -> SubUnsubInnerEntryView {
        SubUnsubInnerEntryView {
            channel_id: command::optional_view(self.channel_id),
            subscription_count: self.subscription_count as nat,
        }
    }
}

impl SubUnsubInnerEntry {
    /// `channel_id` was joined or left.
    pub fn new(channel_id: Vec<u8>, subscription_count: usize) -> (r: Self)
        ensures
            r@ == (SubUnsubInnerEntryView {
                channel_id: Some(channel_id@),
                subscription_count: subscription_count as nat,
            }),
    {
        SubUnsubInnerEntry { channel_id: Some(channel_id), subscription_count }
    }

    /// There was nothing to leave.
    pub fn new_null(subscription_count: usize) -> (r: Self)
        ensures
            r@ == (SubUnsubInnerEntryView {
                channel_id: None,
                subscription_count: subscription_count as nat,
            }),
    {
        SubUnsubInnerEntry { channel_id: None, subscription_count }
    }
}

/// What comes of a [`ChannelCommand`].
#[derive(Debug, PartialEq)]
pub enum ChannelCommandOutcome {
    /// One entry for each channel joined.
    Subscribe {
        /// The entries.
        inner: Vec<SubUnsubInnerEntry>,
    },
    /// One entry for each channel left.
    Unsubscribe {
        /// The entries.
        inner: Vec<SubUnsubInnerEntry>,
    },
    /// How many sessions got the message.
    Publish {
        /// The count.
        sent_count: u32,
    },
}

/// What a [`ChannelCommandOutcome`] stands for.
pub enum ChannelCommandOutcomeView {
    /// One entry for each channel joined.
    Subscribe {
        /// The entries.
        inner: Seq<SubUnsubInnerEntryView>,
    },
    /// One entry for each channel left.
    Unsubscribe {
        /// The entries.
        inner: Seq<SubUnsubInnerEntryView>,
    },
    /// How many sessions got the message.
    Publish {
        /// The count.
        sent_count: nat,
    },
}

/// What a list of entries stands for.
pub open spec fn entry_views(v: Seq<SubUnsubInnerEntry>) -> Seq<SubUnsubInnerEntryView> {
    v.map_values(|e: SubUnsubInnerEntry| e@)
}

impl View for ChannelCommandOutcome {
    type V = ChannelCommandOutcomeView;

    open spec fn view(&self) -> ChannelCommandOutcomeView {
        match self {
            ChannelCommandOutcome::Subscribe { inner } => ChannelCommandOutcomeView::Subscribe {
                inner: entry_views(inner@),
            },
            ChannelCommandOutcome::Unsubscribe { inner } => ChannelCommandOutcomeView::Unsubscribe {
                inner: entry_views(inner@),
            },
            ChannelCommandOutcome::Publish { sent_count } => ChannelCommandOutcomeView::Publish {
                sent_count: *sent_count as nat,
            },
        }
    }
}

} // verus!
