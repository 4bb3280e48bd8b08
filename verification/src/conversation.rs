//! One conversation: its ordered log, its metadata and each reader's cursor.

use vstd::prelude::*;
use crate::message::{
    find_message_pos, find_position, insert_message, lemma_find_position, log_view,
    ordered_insert, sorted, Message, MessageView,
};
use crate::names::Table;

verus! {

/// A named, public conversation.
#[derive(Debug, PartialEq, Eq, PartialOrd, Ord, Hash)]
pub struct Channel {
    pub name: String,
}

impl Clone for Channel {
    fn clone(&self) -> (r: Self)
        ensures
            r == *self,
    {
        Channel { name: self.name.clone() }
    }
}

/// A channel together with an id.
#[derive(Debug, PartialEq, Eq, PartialOrd, Ord)]
pub struct ChannelWithId {
    pub name: String,
    pub id: String,
}

impl Clone for ChannelWithId {
    fn clone(&self) -> (r: Self)
        ensures
            r == *self,
    {
        ChannelWithId { name: self.name.clone(), id: self.id.clone() }
    }
}

/// When a conversation was created, and by whom.
#[derive(Debug, PartialEq, Eq)]
pub struct ChannelMetadata {
    pub created_at: u64,
    pub created_by: String,
}

impl Clone for ChannelMetadata {
    fn clone(&self) -> (r: Self)
        ensures
            r == *self,
    {
        ChannelMetadata { created_at: self.created_at, created_by: self.created_by.clone() }
    }
}

/// How many messages of a conversation a reader has not read, and the
/// reader's cursor.
#[derive(Debug, PartialEq, Eq)]
pub struct UnreadMessage {
    pub count: usize,
    pub last_seen: Option<String>,
}

/// The number of messages of the log that lie at or before the cursor: one
/// more than the position that the cursor points at, and none without a
/// cursor. A cursor whose id the log does not hold points at position 0.
pub open spec fn seen_count(log: Seq<MessageView>, cursor: Option<Seq<char>>) -> int {
    match cursor {
        Some(id) => find_position(log, id) + 1,
        None => 0,
    }
}

/// The number of unread messages: those behind the cursor. An empty log has
/// none.
pub open spec fn unread_count(log: Seq<MessageView>, cursor: Option<Seq<char>>) -> int {
    if seen_count(log, cursor) <= log.len() {
        log.len() - seen_count(log, cursor)
    } else {
        0
    }
}

/// The state of one conversation, a channel's or a chat's.
#[derive(Debug)]
pub struct ChannelInfo {
    pub messages: Vec<Message>,
    pub is_public: bool,
    pub meta: ChannelMetadata,
    pub last_read: Table<String>,
}

impl ChannelInfo {
    /// The messages of the conversation, in storage order.
    pub open spec fn log(&self) -> Seq<MessageView> {
        log_view(self.messages@)
    }

    /// The log is sorted and no reader has two cursors.
    pub open spec fn wf(&self) -> bool {
        &&& sorted(self.log())
        &&& self.last_read.wf()
    }

    /// The id that `reader` has read up to, where one is recorded.
    pub open spec fn cursor(&self, reader: Seq<char>) -> Option<Seq<char>> {
        if self.last_read.has(reader) {
            Some(self.last_read.at(reader)@)
        } else {
            None
        }
    }

    /// The number of messages that `reader` has not read.
    pub open spec fn unread(&self, reader: Seq<char>) -> int {
        unread_count(self.log(), self.cursor(reader))
    }

    /// This conversation is `before` with the message `m` put in and read
    /// by its sender.
    pub open spec fn posted(&self, before: ChannelInfo, m: MessageView) -> bool {
        &&& self.log() == ordered_insert(before.log(), m)
        &&& self.cursor(m.sender) == Some(m.id)
        &&& forall|reader: Seq<char>| reader != m.sender ==> self.cursor(reader) == before.cursor(reader)
        &&& self.is_public == before.is_public
        &&& self.meta == before.meta
    }

    /// This conversation is a private one that was begun at `now` with the
    /// message `m`, which its sender has read.
    pub open spec fn opened_with(&self, m: MessageView, now: u64) -> bool {
        &&& self.log() == seq![m]
        &&& self.cursor(m.sender) == Some(m.id)
        &&& forall|reader: Seq<char>| reader != m.sender ==> self.cursor(reader) is None
        &&& !self.is_public
        &&& self.meta.created_at == now
        &&& self.meta.created_by@ == m.sender
    }

    /// This conversation is `before` but that `reader` has read up to `id`.
    pub open spec fn marked(&self, before: ChannelInfo, reader: Seq<char>, id: Seq<char>) -> bool {
        &&& self.cursor(reader) == Some(id)
        &&& forall|other: Seq<char>| other != reader ==> self.cursor(other) == before.cursor(other)
        &&& self.messages == before.messages
        &&& self.is_public == before.is_public
        &&& self.meta == before.meta
    }

    /// Puts in a message that was just sent, and moves its sender's cursor
    /// to it.
    pub fn post(&mut self, message: Message)
        requires
            old(self).wf(),
        ensures
            final(self).wf(),
            final(self).posted(*old(self), message@),
    {
        let reader = message.sender.clone();
        let id = message.id.clone();
        self.insert(message);
        self.mark_read(reader, id);
    }

    /// A conversation without messages or cursors.
    pub fn new(is_public: bool, created_at: u64, created_by: String) -> (r: Self)
        ensures
            r.wf(),
            r.log() == Seq::<MessageView>::empty(),
            r.messages@.len() == 0,
            r.is_public == is_public,
            r.meta.created_at == created_at,
            r.meta.created_by == created_by,
            r.last_read.names() == Seq::<Seq<char>>::empty(),
            forall|reader: Seq<char>| r.cursor(reader) is None,
    {
        let r = ChannelInfo {
            messages: Vec::new(),
            is_public,
            meta: ChannelMetadata { created_at, created_by },
            last_read: Table::new(),
        };
        assert(r.log() =~= Seq::<MessageView>::empty());
        r
    }

    /// Puts `message` into the log at its place in storage order.
    pub fn insert(&mut self, message: Message)
        requires
            old(self).wf(),
        ensures
            final(self).wf(),
            final(self).log() == ordered_insert(old(self).log(), message@),
            final(self).is_public == old(self).is_public,
            final(self).meta == old(self).meta,
            final(self).last_read == old(self).last_read,
    {
        insert_message(&mut self.messages, message);
    }

    /// Sets the cursor of `reader` to `message_id`, whatever it was before
    /// and whether or not the log holds such a message.
    pub fn mark_read(&mut self, reader: String, message_id: String)
        requires
            old(self).wf(),
        ensures
            final(self).wf(),
            final(self).cursor(reader@) == Some(message_id@),
            forall|other: Seq<char>|
                other != reader@ ==> final(self).cursor(other) == old(self).cursor(other),
            final(self).messages == old(self).messages,
            final(self).is_public == old(self).is_public,
            final(self).meta == old(self).meta,
            final(self).marked(*old(self), reader@, message_id@),
    {
        let ghost before = self.last_read;
        let ghost who = reader@;
        self.last_read.put(reader, message_id);
        proof {
            assert forall|other: Seq<char>| other != who implies self.cursor(other)
                == old(self).cursor(other) by {
                if self.last_read.has(other) {
                    assert(before.has(other));
                }
                if before.has(other) {
                    assert(self.last_read.has(other));
                }
            }
        }
    }

    /// The number of messages that lie at or before the cursor of `account`.
    pub fn find_last_seen_pos(&self, account: &String) -> (n: usize)
        requires
            self.wf(),
        ensures
            n == seen_count(self.log(), self.cursor(account@)),
    {
        match self.last_read.find(account) {
            Some(i) => {
                let pos = find_message_pos(&self.messages, &self.last_read.vals[i]);
                let total = self.messages.len();
                proof {
                    lemma_find_position(self.log(), self.last_read.vals@[i as int]@);
                    assert(self.log().len() == total);
                }
                pos + 1
            },
            None => 0,
        }
    }

    /// The unread count of `account` and its cursor.
    pub fn unread_for(&self, account: &String) -> (r: UnreadMessage)
        requires
            self.wf(),
        ensures
            r.count == self.unread(account@),
            r.last_seen is Some == self.cursor(account@) is Some,
            r.last_seen is Some ==> Some(r.last_seen->Some_0@) == self.cursor(account@),
    {
        let seen = self.find_last_seen_pos(account);
        let count = if seen <= self.messages.len() {
            self.messages.len() - seen
        } else {
            0
        };
        let last_seen = match self.last_read.find(account) {
            Some(i) => Some(self.last_read.vals[i].clone()),
            None => None,
        };
        UnreadMessage { count, last_seen }
    }
}

} // verus!
