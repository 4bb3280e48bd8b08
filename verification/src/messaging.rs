//! Sending messages, moving read cursors, and toggling reactions.

use vstd::prelude::*;
use crate::chats::{canonical_pair, order_accounts};
use crate::conversation::{Channel, ChannelInfo};
use crate::curb::{Context, Curb, Error};
use crate::digest::{make_message_id, message_id};
use crate::message::{
    insert_message, lemma_ordered_insert_sorted, log_view, ordered_insert, Message, MessageView,
};
use crate::names::{lemma_index_of_unique, lemma_with_name, toggled, with_name, Table};

verus! {

/// The account that an optional argument names.
pub open spec fn account_of(account: Option<String>) -> Option<Seq<char>> {
    match account {
        Some(a) => Some(a@),
        None => None,
    }
}

/// The channel name that an optional argument gives.
pub open spec fn channel_of(group: Option<Channel>) -> Option<Seq<char>> {
    match group {
        Some(c) => Some(c.name@),
        None => None,
    }
}

/// The message that `sender` sends to `target`, an account or a channel
/// name, with its derived id.
pub open spec fn message_sent(
    sender: Seq<char>,
    target: Seq<char>,
    text: Seq<char>,
    timestamp: u64,
) -> MessageView {
    MessageView { timestamp, sender, id: message_id(sender, target, text, timestamp), text }
}

impl Curb {
    /// Why a message of `caller` to an account or to a channel is rejected,
    /// if it is. Exactly one of the two must be given.
    pub open spec fn send_verdict(
        &self,
        caller: Seq<char>,
        account: Option<Seq<char>>,
        group: Option<Seq<char>>,
    ) -> Result<(), Error> {
        if !self.is_member(caller) {
            Err(Error::NotAMember)
        } else {
            match (account, group) {
                (Some(other), None) => if self.is_member(other) {
                    Ok(())
                } else {
                    Err(Error::NotAMember)
                },
                (None, Some(name)) => if !self.has_channel(name) {
                    Err(Error::NotFound)
                } else if !self.in_channel(name, caller) {
                    Err(Error::NotAMember)
                } else {
                    Ok(())
                },
                _ => Err(Error::InvalidArgument),
            }
        }
    }

    /// The state is `before` with the reply `m` put into the thread of the
    /// message `parent`.
    pub open spec fn replied(&self, before: Curb, parent: Seq<char>, m: MessageView) -> bool {
        &&& self.threads.differs_only_at(before.threads, parent)
        &&& self.thread_log(parent) == ordered_insert(before.thread_log(parent), m)
        &&& self.channels == before.channels
        &&& self.chats == before.chats
    }

    /// The state is `before` with the message `m` put into the chat of
    /// `pair`, which is begun at `now` if the two had none.
    pub open spec fn chatted(
        &self,
        before: Curb,
        pair: (Seq<char>, Seq<char>),
        m: MessageView,
        now: u64,
    ) -> bool {
        &&& self.chats.differs_only_at(before.chats, pair)
        &&& self.chat_log(pair) == ordered_insert(before.chat_log(pair), m)
        &&& before.chats.has(pair) ==> self.chats.at(pair).posted(before.chats.at(pair), m)
        &&& !before.chats.has(pair) ==> self.chats.at(pair).opened_with(m, now)
        &&& self.channels == before.channels
        &&& self.threads == before.threads
    }

    /// The state is `before` with the message `m` put into the channel
    /// `name`.
    pub open spec fn published(&self, before: Curb, name: Seq<char>, m: MessageView) -> bool {
        &&& self.channels.differs_only_at(before.channels, name)
        &&& self.channels.names() == before.channels.names()
        &&& self.channels.at(name).posted(before.channels.at(name), m)
        &&& self.chats == before.chats
        &&& self.threads == before.threads
    }

    /// What is neither a log nor activity is as in `before`.
    pub open spec fn same_beyond_logs(&self, before: Curb) -> bool {
        &&& self.name == before.name
        &&& self.created_at == before.created_at
        &&& self.channel_members == before.channel_members
        &&& self.member_channels == before.member_channels
        &&& self.reactions == before.reactions
    }

    /// Puts a reply into the thread of the message `parent`, which is begun
    /// if there is none. Whether there is such a message is not asked.
    pub fn append_reply(&mut self, parent: String, message: Message)
        requires
            old(self).wf(),
        ensures
            final(self).wf(),
            final(self).replied(*old(self), parent@, message@),
            final(self).same_beyond_logs(*old(self)),
            final(self).members == old(self).members,
            final(self).member_keys == old(self).member_keys,
    {
        let ghost key = parent@;
        let ti = match self.threads.find(&parent) {
            Some(i) => i,
            None => {
                self.threads.add(parent, Vec::new());
                assert(log_view(self.threads.vals@[self.threads.vals@.len() - 1]@) =~= Seq::<
                    MessageView,
                >::empty());
                self.threads.len() - 1
            },
        };
        let ghost begun = *self;
        proof {
            lemma_index_of_unique(self.threads.names(), key, ti as int);
            lemma_with_name(old(self).threads.names(), key);
        }
        insert_message(&mut self.threads.vals[ti], message);
        proof {
            self.threads.lemma_changed_at(begun.threads, ti as int);
            self.lemma_same_groups(*old(self));
            assert forall|x: Seq<char>| x != key && #[trigger] old(self).threads.has(x) implies self.threads.at(
                x,
            ) == old(self).threads.at(x) by {
                assert(begun.threads.has(x));
            }
        }
    }

    /// Puts a message of the caller into its chat with `other`, which is
    /// begun if there is none, and moves the caller's cursor to it.
    fn chat(&mut self, ctx: &Context, other: &String, message: Message)
        requires
            old(self).wf(),
            message.sender@ == ctx.caller@,
        ensures
            final(self).wf(),
            final(self).chatted(
                *old(self),
                canonical_pair(ctx.caller@, other@),
                message@,
                ctx.now,
            ),
            final(self).same_beyond_logs(*old(self)),
            final(self).members == old(self).members,
            final(self).member_keys == old(self).member_keys,
    {
        let ghost m = message@;
        let ghost pair = canonical_pair(ctx.caller@, other@);
        let (low, high) = order_accounts(ctx.caller.clone(), other.clone());
        let found = self.chats.find(&low, &high);
        let ci = match found {
            Some(i) => i,
            None => {
                self.chats.add(low, high, ChannelInfo::new(false, ctx.now, ctx.caller.clone()));
                self.chats.len() - 1
            },
        };
        let ghost begun = *self;
        proof {
            assert(begun.chats.pairs()[ci as int] == pair);
        }
        self.chats.infos[ci].post(message);
        proof {
            self.chats.lemma_changed_at(begun.chats, ci as int);
            self.lemma_same_groups(*old(self));
            assert forall|p: (Seq<char>, Seq<char>)|
                p != pair && #[trigger] old(self).chats.has(p) implies self.chats.at(p) == old(
                self,
            ).chats.at(p) by {
                assert(begun.chats.has(p));
            }
            if found is None {
                lemma_ordered_insert_sorted(Seq::<MessageView>::empty(), m);
                assert(ordered_insert(Seq::<MessageView>::empty(), m) =~= seq![m]);
            }
        }
    }

    /// Puts a message of the caller into the channel at position `ci`, and
    /// moves the caller's cursor to it.
    fn publish(&mut self, ci: usize, message: Message)
        requires
            old(self).wf(),
            ci < old(self).channels.vals@.len(),
        ensures
            final(self).wf(),
            final(self).published(*old(self), old(self).channels.names()[ci as int], message@),
            final(self).same_beyond_logs(*old(self)),
            final(self).members == old(self).members,
            final(self).member_keys == old(self).member_keys,
    {
        self.channels.vals[ci].post(message);
        proof {
            self.channels.lemma_changed_at(old(self).channels, ci as int);
            assert forall|c: Seq<char>, m: Seq<char>|
                #![trigger self.in_channel(c, m)]
                #![trigger self.lists_channel(m, c)]
                self.in_channel(c, m) <==> self.lists_channel(m, c) by {
                assert(old(self).in_channel(c, m) <==> old(self).lists_channel(m, c));
            }
        }
    }

    /// Sends a message of the caller to an account or to a channel, or, with
    /// a parent message, into that message's thread. The message gets the id
    /// that its sender, target, text and timestamp give. One that goes into a
    /// chat or a channel is read by its sender at once; a reply moves no
    /// cursor. The caller's activity is recorded. A call that is rejected
    /// changes nothing.
    pub fn send_message(
        &mut self,
        ctx: &Context,
        account: Option<String>,
        group: Option<Channel>,
        message: String,
        timestamp: u64,
        parent_message: Option<String>,
    ) -> (r: Result<(), Error>)
        requires
            old(self).wf(),
        ensures
            final(self).wf(),
            r == old(self).send_verdict(ctx.caller@, account_of(account), channel_of(group)),
            r is Err ==> *final(self) == *old(self),
            r is Ok ==> {
                let target = if account is Some {
                    account->Some_0@
                } else {
                    group->Some_0.name@
                };
                let m = message_sent(ctx.caller@, target, message@, timestamp);
                &&& final(self).activity_recorded(*old(self), *ctx)
                &&& final(self).same_beyond_logs(*old(self))
                &&& match parent_message {
                    Some(parent) => final(self).replied(*old(self), parent@, m),
                    None => if account is Some {
                        final(self).chatted(
                            *old(self),
                            canonical_pair(ctx.caller@, target),
                            m,
                            ctx.now,
                        )
                    } else {
                        final(self).published(*old(self), target, m)
                    },
                }
            },
    {
        if !self.members.contains_key(&ctx.caller) {
            return Err(Error::NotAMember);
        }
        match (account, group) {
            (Some(other), None) => {
                if !self.members.contains_key(&other) {
                    return Err(Error::NotAMember);
                }
                let id = make_message_id(&ctx.caller, &other, &message, timestamp);
                let sent = Message { timestamp, sender: ctx.caller.clone(), id, text: message };
                match parent_message {
                    Some(parent) => self.append_reply(parent, sent),
                    None => self.chat(ctx, &other, sent),
                }
            },
            (None, Some(channel)) => {
                let ci = match self.channels.find(&channel.name) {
                    Some(i) => i,
                    None => { return Err(Error::NotFound); },
                };
                proof {
                    assert(self.channels.names().len() == self.channel_members.names().len());
                }
                if !self.channel_members.vals[ci].contains(&ctx.caller) {
                    return Err(Error::NotAMember);
                }
                let id = make_message_id(&ctx.caller, &channel.name, &message, timestamp);
                let sent = Message { timestamp, sender: ctx.caller.clone(), id, text: message };
                match parent_message {
                    Some(parent) => self.append_reply(parent, sent),
                    None => self.publish(ci, sent),
                }
            },
            _ => { return Err(Error::InvalidArgument); },
        }
        self.register_activity(ctx);
        Ok(())
    }

    /// Why the moving of the caller's cursor is rejected, if it is: the chat
    /// or the channel does not exist, or neither is named. Where both are
    /// named, the account counts.
    pub open spec fn read_verdict(
        &self,
        caller: Seq<char>,
        account: Option<Seq<char>>,
        group: Option<Seq<char>>,
    ) -> Result<(), Error> {
        match account {
            Some(other) => if self.chats.has(canonical_pair(caller, other)) {
                Ok(())
            } else {
                Err(Error::NotFound)
            },
            None => match group {
                Some(name) => if self.has_channel(name) {
                    Ok(())
                } else {
                    Err(Error::NotFound)
                },
                None => Err(Error::InvalidArgument),
            },
        }
    }

    /// Moves the caller's cursor in a chat or in a channel to `message_id`,
    /// wherever it stood and whether or not there is such a message. A call
    /// that is rejected changes nothing.
    pub fn read_message(
        &mut self,
        ctx: &Context,
        account: Option<String>,
        group: Option<Channel>,
        message_id: String,
    ) -> (r: Result<(), Error>)
        requires
            old(self).wf(),
        ensures
            final(self).wf(),
            r == old(self).read_verdict(ctx.caller@, account_of(account), channel_of(group)),
            r is Err ==> *final(self) == *old(self),
            r is Ok ==> {
                &&& final(self).same_beyond_logs(*old(self))
                &&& final(self).members == old(self).members
                &&& final(self).member_keys == old(self).member_keys
                &&& final(self).threads == old(self).threads
                &&& match account {
                    Some(other) => {
                        let pair = canonical_pair(ctx.caller@, other@);
                        &&& final(self).channels == old(self).channels
                        &&& final(self).chats.differs_only_at(old(self).chats, pair)
                        &&& final(self).chats.pairs() == old(self).chats.pairs()
                        &&& final(self).chats.at(pair).marked(
                            old(self).chats.at(pair),
                            ctx.caller@,
                            message_id@,
                        )
                    },
                    None => {
                        let name = group->Some_0.name@;
                        &&& final(self).chats == old(self).chats
                        &&& final(self).channels.differs_only_at(old(self).channels, name)
                        &&& final(self).channels.names() == old(self).channels.names()
                        &&& final(self).channels.at(name).marked(
                            old(self).channels.at(name),
                            ctx.caller@,
                            message_id@,
                        )
                    },
                }
            },
    {
        match account {
            Some(other) => {
                let (low, high) = order_accounts(ctx.caller.clone(), other);
                let ci = match self.chats.find(&low, &high) {
                    Some(i) => i,
                    None => { return Err(Error::NotFound); },
                };
                self.chats.infos[ci].mark_read(ctx.caller.clone(), message_id);
                proof {
                    self.chats.lemma_changed_at(old(self).chats, ci as int);
                    self.lemma_same_groups(*old(self));
                }
                Ok(())
            },
            None => match group {
                Some(channel) => {
                    let ci = match self.channels.find(&channel.name) {
                        Some(i) => i,
                        None => { return Err(Error::NotFound); },
                    };
                    self.channels.vals[ci].mark_read(ctx.caller.clone(), message_id);
                    proof {
                        self.channels.lemma_changed_at(old(self).channels, ci as int);
                        lemma_index_of_unique(old(self).channels.names(), channel.name@, ci as int);
                        assert forall|c: Seq<char>, m: Seq<char>|
                            #![trigger self.in_channel(c, m)]
                            #![trigger self.lists_channel(m, c)]
                            self.in_channel(c, m) <==> self.lists_channel(m, c) by {
                            assert(old(self).in_channel(c, m) <==> old(self).lists_channel(m, c));
                        }
                    }
                    Ok(())
                },
                None => Err(Error::InvalidArgument),
            },
        }
    }

    /// Puts the caller's reaction `reaction` on a message, or takes it off
    /// if the caller has it on. A reaction that nobody has on any more stays
    /// recorded, with nobody. Whether there is such a message is not asked.
    /// The caller's activity is recorded.
    pub fn toggle_reaction(&mut self, ctx: &Context, message_id: String, reaction: String)
        requires
            old(self).wf(),
        ensures
            final(self).wf(),
            final(self).reactors(message_id@, reaction@) == toggled(
                old(self).reactors(message_id@, reaction@),
                ctx.caller@,
            ),
            forall|id: Seq<char>, label: Seq<char>|
                id != message_id@ || label != reaction@ ==> final(self).reactors(id, label) == old(
                    self,
                ).reactors(id, label),
            final(self).reactions.names() == with_name(old(self).reactions.names(), message_id@),
            final(self).labels_of(message_id@) == with_name(
                old(self).labels_of(message_id@),
                reaction@,
            ),
            forall|id: Seq<char>| id != message_id@ ==> final(self).labels_of(id) == old(self).labels_of(id),
            final(self).activity_recorded(*old(self), *ctx),
            final(self).name == old(self).name,
            final(self).created_at == old(self).created_at,
            final(self).channels == old(self).channels,
            final(self).channel_members == old(self).channel_members,
            final(self).member_channels == old(self).member_channels,
            final(self).chats == old(self).chats,
            final(self).threads == old(self).threads,
    {
        let ghost id = message_id@;
        let ri = match self.reactions.find(&message_id) {
            Some(i) => i,
            None => {
                self.reactions.add(message_id, Table::new());
                self.reactions.len() - 1
            },
        };
        let ghost made = *self;
        proof {
            lemma_index_of_unique(self.reactions.names(), id, ri as int);
        }
        self.reactions.vals[ri].toggle(reaction, &ctx.caller);
        proof {
            self.reactions.lemma_changed_at(made.reactions, ri as int);
            self.lemma_same_groups(*old(self));
            assert forall|x: Seq<char>| x != id implies self.labels_of(x) == old(self).labels_of(x)
                && self.reactions.has(x) == old(self).reactions.has(x) && (self.reactions.has(x)
                ==> self.reactions.at(x) == old(self).reactions.at(x)) by {
                if old(self).reactions.has(x) {
                    assert(made.reactions.has(x));
                }
                if self.reactions.has(x) {
                    assert(made.reactions.has(x));
                    assert(old(self).reactions.has(x));
                }
            }
            lemma_with_name(old(self).reactions.names(), id);
        }
        self.register_activity(ctx);
    }
}

} // verus!
