//! The messaging state and its operations.

use vstd::prelude::*;
use crate::chats::ChatTable;
use crate::conversation::{Channel, ChannelInfo};
use crate::message::{log_view, sorted, Message, MessageView};
use crate::names::{with_name, without_name, StrSet, Table};

verus! {

/// The time, in milliseconds, for which a member counts as active after
/// its last activity.
pub const ACTIVE_MS_THRESHOLD: u64 = 30000;

/// Why an operation was rejected.
#[derive(Debug, Clone, Copy, PartialEq, Eq, Structural)]
pub enum Error {
    /// A name is empty, or it is not clear whom a call addresses.
    InvalidArgument,
    /// There is no such channel or chat.
    NotFound,
    /// The caller, or the account addressed, is not a member.
    NotAMember,
    /// A channel of this name exists.
    AlreadyExists,
    /// The caller is a member already.
    AlreadyMember,
}

/// Who calls, with which key, and when, in milliseconds. The library takes
/// these on the word of whoever runs it.
#[derive(Debug)]
pub struct Context {
    pub caller: String,
    pub key: Vec<u8>,
    pub now: u64,
}

/// The name of the channel that every member is joined to.
pub open spec fn default_channel_name() -> Seq<char> {
    "general"@
}

/// Whether a member last seen at `timestamp` counts as active at `now`:
/// less than the threshold has gone by since. One seen later than `now` is
/// active.
pub open spec fn active_at(now: u64, timestamp: u64) -> bool {
    now - timestamp < ACTIVE_MS_THRESHOLD
}

/// The whole state: members, channels, chats, threads and reactions.
#[derive(Debug)]
pub struct Curb {
    pub name: String,
    pub created_at: u64,
    pub members: Table<u64>,
    pub member_keys: Table<Vec<u8>>,
    pub channels: Table<ChannelInfo>,
    pub channel_members: Table<StrSet>,
    pub member_channels: Table<StrSet>,
    pub chats: ChatTable,
    pub threads: Table<Vec<Message>>,
    pub reactions: Table<Table<StrSet>>,
}

impl Curb {
    /// Whether the account has been seen: it has joined, or has acted.
    pub open spec fn is_member(&self, id: Seq<char>) -> bool {
        self.members.has(id)
    }

    /// Whether the account has joined, and so can be in channels.
    pub open spec fn has_joined(&self, id: Seq<char>) -> bool {
        self.member_channels.has(id)
    }

    /// Whether there is a channel of this name.
    pub open spec fn has_channel(&self, name: Seq<char>) -> bool {
        self.channels.has(name)
    }

    /// The members of a channel, in the order in which they came.
    pub open spec fn members_of(&self, name: Seq<char>) -> Seq<Seq<char>> {
        self.channel_members.at(name).names()
    }

    /// The channels of a member, in the order in which it came to them.
    pub open spec fn groups_of(&self, id: Seq<char>) -> Seq<Seq<char>> {
        self.member_channels.at(id).names()
    }

    /// Whether the channel exists and lists the account as a member.
    pub open spec fn in_channel(&self, name: Seq<char>, id: Seq<char>) -> bool {
        self.channels.has(name) && self.channel_members.at(name).has(id)
    }

    /// Whether the account has joined and lists the channel as one of its own.
    pub open spec fn lists_channel(&self, id: Seq<char>, name: Seq<char>) -> bool {
        self.member_channels.has(id) && self.member_channels.at(id).has(name)
    }

    /// The replies to a message, in storage order; none where no reply was
    /// ever made.
    pub open spec fn thread_log(&self, parent: Seq<char>) -> Seq<MessageView> {
        if self.threads.has(parent) {
            log_view(self.threads.at(parent)@)
        } else {
            Seq::empty()
        }
    }

    /// The messages of the chat of a canonical pair; none where the two have
    /// not written to each other.
    pub open spec fn chat_log(&self, pair: (Seq<char>, Seq<char>)) -> Seq<MessageView> {
        if self.chats.has(pair) {
            self.chats.at(pair).log()
        } else {
            Seq::empty()
        }
    }

    /// The reactions that were ever put on the message `id`, in the order in
    /// which they first were.
    pub open spec fn labels_of(&self, id: Seq<char>) -> Seq<Seq<char>> {
        if self.reactions.has(id) {
            self.reactions.at(id).names()
        } else {
            Seq::empty()
        }
    }

    /// Who has put the reaction `label` on the message `id`, in the order in
    /// which they did; nobody where none is recorded.
    pub open spec fn reactors(&self, id: Seq<char>, label: Seq<char>) -> Seq<Seq<char>> {
        if self.reactions.has(id) {
            self.reactions.at(id).listed(label)
        } else {
            Seq::empty()
        }
    }

    /// The tables are in order, and those that go together hold the same
    /// names at the same places.
    pub open spec fn tables_wf(&self) -> bool {
        &&& self.members.wf()
        &&& self.member_keys.wf()
        &&& self.channels.wf()
        &&& self.channel_members.wf()
        &&& self.member_channels.wf()
        &&& self.chats.wf()
        &&& self.threads.wf()
        &&& self.reactions.wf()
        &&& self.members.names() == self.member_keys.names()
        &&& self.channels.names() == self.channel_members.names()
    }

    /// Every log is sorted, and every set and table inside the state is in
    /// order.
    pub open spec fn contents_wf(&self) -> bool {
        &&& forall|i: int| 0 <= i < self.channels.vals@.len() ==> (#[trigger] self.channels.vals@[i]).wf()
        &&& forall|i: int|
            0 <= i < self.channel_members.vals@.len() ==> (#[trigger] self.channel_members.vals@[i]).wf()
        &&& forall|i: int|
            0 <= i < self.member_channels.vals@.len() ==> (#[trigger] self.member_channels.vals@[i]).wf()
        &&& forall|i: int| 0 <= i < self.chats.infos@.len() ==> (#[trigger] self.chats.infos@[i]).wf()
        &&& forall|i: int|
            0 <= i < self.threads.vals@.len() ==> sorted(log_view((#[trigger] self.threads.vals@[i])@))
        &&& forall|i: int|
            0 <= i < self.reactions.vals@.len() ==> (#[trigger] self.reactions.vals@[i]).wf()
                && self.reactions.vals@[i].sets_wf()
    }

    /// The two membership indices say the same: a channel lists an account
    /// exactly if the account lists the channel. Only accounts that have been
    /// seen have joined.
    pub open spec fn mirrored(&self) -> bool {
        &&& forall|c: Seq<char>, m: Seq<char>|
            #![trigger self.in_channel(c, m)]
            #![trigger self.lists_channel(m, c)]
            self.in_channel(c, m) <==> self.lists_channel(m, c)
        &&& forall|m: Seq<char>| #[trigger] self.member_channels.has(m) ==> self.members.has(m)
    }

    /// What holds of every state that the operations reach.
    pub open spec fn wf(&self) -> bool {
        &&& self.tables_wf()
        &&& self.contents_wf()
        &&& self.mirrored()
    }

    /// The state is `before` but that the account `id` and the channel `name`
    /// now list each other.
    pub open spec fn linked(&self, before: Curb, id: Seq<char>, name: Seq<char>) -> bool {
        &&& self.channels == before.channels
        &&& self.channel_members.differs_only_at(before.channel_members, name)
        &&& self.member_channels.differs_only_at(before.member_channels, id)
        &&& self.members_of(name) == with_name(before.members_of(name), id)
        &&& self.groups_of(id) == with_name(before.groups_of(id), name)
        &&& self.in_channel(name, id)
        &&& self.lists_channel(id, name)
    }

    /// The state is `before` but that the account `id` and the channel `name`
    /// no longer list each other.
    pub open spec fn unlinked(&self, before: Curb, id: Seq<char>, name: Seq<char>) -> bool {
        &&& self.channels == before.channels
        &&& self.channel_members.differs_only_at(before.channel_members, name)
        &&& self.member_channels.differs_only_at(before.member_channels, id)
        &&& self.members_of(name) == without_name(before.members_of(name), id)
        &&& self.groups_of(id) == without_name(before.groups_of(id), name)
        &&& !self.in_channel(name, id)
        &&& !self.lists_channel(id, name)
    }

    /// What is not about membership is as in `before`.
    pub open spec fn same_beyond_groups(&self, before: Curb) -> bool {
        &&& self.name == before.name
        &&& self.created_at == before.created_at
        &&& self.chats == before.chats
        &&& self.threads == before.threads
        &&& self.reactions == before.reactions
    }

    /// What is not about activity is as in `before`.
    pub open spec fn same_beyond_activity(&self, before: Curb) -> bool {
        &&& self.name == before.name
        &&& self.created_at == before.created_at
        &&& self.channels == before.channels
        &&& self.channel_members == before.channel_members
        &&& self.member_channels == before.member_channels
        &&& self.chats == before.chats
        &&& self.threads == before.threads
        &&& self.reactions == before.reactions
    }

    /// The members and their keys are those of `before`, but that the
    /// caller of `ctx` was last seen at its time, with its key.
    pub open spec fn activity_recorded(&self, before: Curb, ctx: Context) -> bool {
        &&& self.members.differs_only_at(before.members, ctx.caller@)
        &&& self.member_keys.differs_only_at(before.member_keys, ctx.caller@)
        &&& self.members.at(ctx.caller@) == ctx.now
        &&& self.member_keys.at(ctx.caller@)@ == ctx.key@
    }

    /// A state with the membership tables of a mirrored one is mirrored, as
    /// long as every account seen there is seen here.
    pub proof fn lemma_same_groups(self, before: Curb)
        requires
            before.mirrored(),
            self.channels == before.channels,
            self.channel_members == before.channel_members,
            self.member_channels == before.member_channels,
            forall|m: Seq<char>| #[trigger] before.members.has(m) ==> self.members.has(m),
        ensures
            self.mirrored(),
    {
        assert forall|c: Seq<char>, m: Seq<char>|
            #![trigger self.in_channel(c, m)]
            #![trigger self.lists_channel(m, c)]
            self.in_channel(c, m) <==> self.lists_channel(m, c) by {
            assert(self.in_channel(c, m) == before.in_channel(c, m));
            assert(self.lists_channel(m, c) == before.lists_channel(m, c));
        }
        assert forall|m: Seq<char>| #[trigger] self.member_channels.has(m) implies self.members.has(
            m,
        ) by {
            assert(before.member_channels.has(m));
            assert(before.members.has(m));
        }
    }

    /// In a state that the operations accept, nobody has a reaction on
    /// twice.
    pub proof fn lemma_reactors_distinct(self, id: Seq<char>, label: Seq<char>)
        requires
            self.wf(),
        ensures
            self.reactors(id, label).no_duplicates(),
    {
        if self.reactions.has(id) {
            let i = self.reactions.slot(id);
            assert(self.reactions.names()[i] == id);
            let labels = self.reactions.vals@[i];
            assert(labels.wf() && labels.sets_wf());
            if labels.has(label) {
                let j = labels.slot(label);
                assert(labels.names()[j] == label);
                assert(labels.vals@[j].wf());
            }
        }
    }

    /// A state without members, channels or messages.
    pub fn new(name: String, now: u64) -> (r: Self)
        ensures
            r.wf(),
            r.name == name,
            r.created_at == now,
            r.members.names().len() == 0,
            r.channels.names().len() == 0,
            r.member_channels.names().len() == 0,
            r.chats.pairs().len() == 0,
            r.threads.names().len() == 0,
            r.reactions.names().len() == 0,
            forall|id: Seq<char>| !r.is_member(id) && !r.has_joined(id),
            forall|name: Seq<char>| !r.has_channel(name),
    {
        Curb {
            name,
            created_at: now,
            members: Table::new(),
            member_keys: Table::new(),
            channels: Table::new(),
            channel_members: Table::new(),
            member_channels: Table::new(),
            chats: ChatTable::new(),
            threads: Table::new(),
            reactions: Table::new(),
        }
    }

    /// The channel that every member is joined to.
    pub fn default_channel() -> (r: Channel)
        ensures
            r.name@ == default_channel_name(),
    {
        Channel { name: "general".to_string() }
    }

    /// Records that the caller was seen now, with its key.
    pub fn register_activity(&mut self, ctx: &Context)
        requires
            old(self).wf(),
        ensures
            final(self).wf(),
            final(self).activity_recorded(*old(self), *ctx),
            final(self).same_beyond_activity(*old(self)),
    {
        self.members.put(ctx.caller.clone(), ctx.now);
        self.member_keys.put(ctx.caller.clone(), ctx.key.clone());
        proof {
            self.lemma_same_groups(*old(self));
        }
    }

    /// Records that the caller is alive.
    pub fn ping(&mut self, ctx: &Context)
        requires
            old(self).wf(),
        ensures
            final(self).wf(),
            final(self).activity_recorded(*old(self), *ctx),
            final(self).same_beyond_activity(*old(self)),
    {
        self.register_activity(ctx);
    }

    /// Whether a member last seen at `timestamp` counts as active at `now`.
    pub fn is_active(now: u64, timestamp: u64) -> (r: bool)
        ensures
            r == active_at(now, timestamp),
    {
        now < timestamp || now - timestamp < ACTIVE_MS_THRESHOLD
    }

    /// When the state was created.
    pub fn created_at(&self) -> (r: u64)
        ensures
            r == self.created_at,
    {
        self.created_at
    }

    /// The name that the state was created with.
    pub fn get_name(&self) -> (r: &String)
        ensures
            r == self.name,
    {
        &self.name
    }
}

} // verus!
