//! What the state is asked: messages with their reactions and threads,
//! unread counts, members, channels and keys.

use vstd::prelude::*;
use crate::chats::{canonical_pair, order_accounts, ChatTable};
use crate::conversation::{Channel, ChannelInfo, ChannelMetadata, UnreadMessage};
use crate::curb::{active_at, Curb, Error};
use crate::message::{log_view, Message, MessageView};
use crate::messaging::channel_of;
use crate::names::{names_view, StrSet, Table};

verus! {

/// A member and whether it was seen of late.
#[derive(Debug, PartialEq, Eq, PartialOrd, Ord)]
pub struct UserInfo {
    pub id: String,
    pub active: bool,
}

/// A message and the reactions on it: for each reaction those who put it on.
/// There are no reactions where none was ever put on the message.
#[derive(Debug, PartialEq, Eq)]
pub struct MessageWithReactions {
    pub id: String,
    pub text: String,
    pub timestamp: u64,
    pub sender: String,
    pub reactions: Option<Vec<(String, Vec<String>)>>,
}

/// A message, the reactions on it, and the replies to it with theirs.
#[derive(Debug, PartialEq, Eq)]
pub struct MessageWithReactionsAndThread {
    pub id: String,
    pub text: String,
    pub timestamp: u64,
    pub sender: String,
    pub reactions: Option<Vec<(String, Vec<String>)>>,
    pub thread: Vec<MessageWithReactions>,
}

/// The unread counts of one account: for each channel, by its name; for
/// each chat of the account, by the other party; and for threads.
#[derive(Debug, PartialEq, Eq)]
pub struct UnreadMessageInfo {
    pub channels: Vec<(String, UnreadMessage)>,
    pub chats: Vec<(String, UnreadMessage)>,
    pub threads: Vec<(String, UnreadMessage)>,
}

/// The reactions on a message, as plain values.
pub type ReactionsView = Option<Seq<(Seq<char>, Seq<Seq<char>>)>>;

/// A message and its reactions, as plain values.
pub struct ReactedView {
    pub message: MessageView,
    pub reactions: ReactionsView,
}

/// A message, its reactions and its thread, as plain values.
pub struct ThreadedView {
    pub message: MessageView,
    pub reactions: ReactionsView,
    pub thread: Seq<ReactedView>,
}

/// An unread count and a cursor, as plain values.
pub struct UnreadView {
    pub count: int,
    pub last_seen: Option<Seq<char>>,
}

/// A list of reactions, as plain values.
pub open spec fn reactions_view(r: Option<Vec<(String, Vec<String>)>>) -> ReactionsView {
    match r {
        Some(v) => Some(Seq::new(v@.len(), |i: int| (v@[i].0@, names_view(v@[i].1@)))),
        None => None,
    }
}

impl View for MessageWithReactions {
    type V = ReactedView;

    open spec fn view(&self) -> ReactedView {
        ReactedView {
            message: MessageView {
                timestamp: self.timestamp,
                sender: self.sender@,
                id: self.id@,
                text: self.text@,
            },
            reactions: reactions_view(self.reactions),
        }
    }
}

impl View for MessageWithReactionsAndThread {
    type V = ThreadedView;

    open spec fn view(&self) -> ThreadedView {
        ThreadedView {
            message: MessageView {
                timestamp: self.timestamp,
                sender: self.sender@,
                id: self.id@,
                text: self.text@,
            },
            reactions: reactions_view(self.reactions),
            thread: Seq::new(self.thread@.len(), |i: int| self.thread@[i]@),
        }
    }
}

impl View for UnreadMessage {
    type V = UnreadView;

    open spec fn view(&self) -> UnreadView {
        UnreadView {
            count: self.count as int,
            last_seen: match self.last_seen {
                Some(id) => Some(id@),
                None => None,
            },
        }
    }
}

/// Where the page of a log of `n` messages ends that starts at `start`:
/// with a length, that many messages on, or at the end of the log if that
/// comes first; without one, as far before the end as it starts behind the
/// beginning.
pub open spec fn page_end(n: int, start: int, length: Option<usize>) -> int {
    match length {
        Some(len) => if start + len < n {
            start + len
        } else {
            n
        },
        None => n - start,
    }
}

/// Where a page starts: at the offset, or at the beginning.
pub open spec fn page_start(offset: Option<usize>) -> int {
    match offset {
        Some(pos) => pos as int,
        None => 0,
    }
}

/// Whether there is such a page: it does not end before it starts.
pub open spec fn page_exists(n: int, offset: Option<usize>, length: Option<usize>) -> bool {
    page_start(offset) <= page_end(n, page_start(offset), length)
}

/// The messages of a page.
pub open spec fn page(log: Seq<MessageView>, offset: Option<usize>, length: Option<usize>) -> Seq<
    MessageView,
> {
    log.subrange(page_start(offset), page_end(log.len() as int, page_start(offset), length))
}

/// The messages of a page of a log, where the log has such a page.
pub open spec fn page_asked(
    log: Seq<MessageView>,
    offset: Option<usize>,
    length: Option<usize>,
) -> Result<Seq<MessageView>, Error> {
    if page_exists(log.len() as int, offset, length) {
        Ok(page(log, offset, length))
    } else {
        Err(Error::InvalidArgument)
    }
}

/// The two accounts that an optional argument names.
pub open spec fn accounts_of(accounts: Option<(String, String)>) -> Option<(Seq<char>, Seq<char>)> {
    match accounts {
        Some(pair) => Some((pair.0@, pair.1@)),
        None => None,
    }
}

/// A list of messages with reactions and threads, as plain values.
pub open spec fn threaded_view(v: Seq<MessageWithReactionsAndThread>) -> Seq<ThreadedView> {
    Seq::new(v.len(), |i: int| v[i]@)
}

/// Computes where a page ends, if there is such a page.
pub fn page_bounds(n: usize, offset: Option<usize>, length: Option<usize>) -> (r: Option<
    (usize, usize),
>)
    ensures
        r is Some == page_exists(n as int, offset, length),
        r is Some ==> r->Some_0.0 == page_start(offset) && r->Some_0.1 == page_end(
            n as int,
            page_start(offset),
            length,
        ) && r->Some_0.0 <= r->Some_0.1 <= n,
{
    let start = match offset {
        Some(pos) => pos,
        None => 0,
    };
    let end = match length {
        Some(len) => if start < n && len < n - start {
            start + len
        } else {
            n
        },
        None => if start <= n {
            n - start
        } else {
            return None;
        },
    };
    if start <= end {
        Some((start, end))
    } else {
        None
    }
}

impl ChannelInfo {
    /// The unread count of `reader` and its cursor, as plain values.
    pub open spec fn unread_view(&self, reader: Seq<char>) -> UnreadView {
        UnreadView { count: self.unread(reader), last_seen: self.cursor(reader) }
    }
}

impl ChatTable {
    /// The unread entries of `account` for the first `n` chats: one for each
    /// chat that it is a party of, under the other party.
    pub open spec fn unread_entries(&self, account: Seq<char>, n: int) -> Seq<(Seq<char>, UnreadView)>
        decreases n,
    {
        if n <= 0 {
            Seq::empty()
        } else {
            let rest = self.unread_entries(account, n - 1);
            let (low, high) = self.pairs()[n - 1];
            if low != account && high != account {
                rest
            } else {
                let other = if low == account {
                    high
                } else {
                    low
                };
                rest.push((other, self.infos@[n - 1].unread_view(account)))
            }
        }
    }
}

/// A list of unread entries, as plain values.
pub open spec fn unreads_view(v: Seq<(String, UnreadMessage)>) -> Seq<(Seq<char>, UnreadView)> {
    Seq::new(v.len(), |i: int| (v[i].0@, v[i].1@))
}

/// The names of a list of channels.
pub open spec fn channel_names(v: Seq<Channel>) -> Seq<Seq<char>> {
    Seq::new(v.len(), |i: int| v[i].name@)
}

/// A list of members, as plain values.
pub open spec fn users_view(v: Seq<UserInfo>) -> Seq<(Seq<char>, bool)> {
    Seq::new(v.len(), |i: int| (v[i].id@, v[i].active))
}

impl Curb {
    /// The reactions on the message `id`: for each that was ever put on it,
    /// those who have it on now. None where none was ever put on it.
    pub open spec fn reactions_of(&self, id: Seq<char>) -> ReactionsView {
        if self.reactions.has(id) {
            let t = self.reactions.at(id);
            Some(Seq::new(t.names().len(), |j: int| (t.names()[j], t.vals@[j].names())))
        } else {
            None
        }
    }

    /// The message with its reactions.
    pub open spec fn with_reactions(&self, m: MessageView) -> ReactedView {
        ReactedView { message: m, reactions: self.reactions_of(m.id) }
    }

    /// The message with its thread, each reply with its reactions.
    pub open spec fn with_thread(&self, m: ReactedView) -> ThreadedView {
        let replies = self.thread_log(m.message.id);
        ThreadedView {
            message: m.message,
            reactions: m.reactions,
            thread: Seq::new(replies.len(), |i: int| self.with_reactions(replies[i])),
        }
    }

    /// The messages of a page, each with its reactions and its thread.
    pub open spec fn decorated(&self, msgs: Seq<MessageView>) -> Seq<ThreadedView> {
        Seq::new(msgs.len(), |i: int| self.with_thread(self.with_reactions(msgs[i])))
    }

    /// The members given, each with whether it is active at `now`.
    pub open spec fn users(&self, ids: Seq<Seq<char>>, now: u64) -> Seq<(Seq<char>, bool)> {
        Seq::new(
            ids.len(),
            |i: int| (ids[i], self.is_member(ids[i]) && active_at(now, self.members.at(ids[i]))),
        )
    }

    /// The replies to the message `parent`, in storage order; none where no
    /// reply was ever made. Nothing is changed.
    pub fn get_thread(&self, parent: &String) -> (r: Vec<Message>)
        requires
            self.wf(),
        ensures
            log_view(r@) == self.thread_log(parent@),
    {
        let mut r: Vec<Message> = Vec::new();
        match self.threads.find(parent) {
            Some(t) => {
                let replies = &self.threads.vals[t];
                let mut i: usize = 0;
                while i < replies.len()
                    invariant
                        i <= replies@.len(),
                        r@.len() == i,
                        forall|k: int| 0 <= k < i ==> (#[trigger] r@[k])@ == replies@[k]@,
                    decreases replies@.len() - i,
                {
                    r.push(replies[i].clone());
                    i += 1;
                }
                assert(log_view(r@) =~= log_view(replies@));
            },
            None => {
                assert(log_view(r@) =~= Seq::<MessageView>::empty());
            },
        }
        r
    }

    /// The reactions on the message `id`: for each that was ever put on it,
    /// those who have it on now. None where none was ever put on it.
    pub fn reactions_for(&self, id: &String) -> (r: Option<Vec<(String, Vec<String>)>>)
        requires
            self.wf(),
        ensures
            reactions_view(r) == self.reactions_of(id@),
    {
        match self.reactions.find(id) {
            Some(i) => Some(Curb::copy_reactions(&self.reactions.vals[i])),
            None => None,
        }
    }

    /// Copies out one table of reactions.
    fn copy_reactions(table: &Table<StrSet>) -> (r: Vec<(String, Vec<String>)>)
        requires
            table.wf(),
        ensures
            reactions_view(Some(r)) == Some(
                Seq::new(table.names().len(), |j: int| (table.names()[j], table.vals@[j].names())),
            ),
    {
        let mut r: Vec<(String, Vec<String>)> = Vec::new();
        let mut j: usize = 0;
        while j < table.vals.len()
            invariant
                table.wf(),
                j <= table.vals@.len(),
                r@.len() == j,
                forall|k: int|
                    0 <= k < j ==> (#[trigger] r@[k]).0@ == table.names()[k] && names_view(r@[k].1@)
                        == table.vals@[k].names(),
            decreases table.vals@.len() - j,
        {
            let who = table.vals[j].to_vec();
            r.push((table.keys.items[j].clone(), who));
            j += 1;
        }
        assert(reactions_view(Some(r))->Some_0 =~= Seq::new(
            table.names().len(),
            |j: int| (table.names()[j], table.vals@[j].names()),
        ));
        r
    }

    /// Attaches to a message the reactions on it.
    pub fn add_reactions_to_message(&self, message: Message) -> (r: MessageWithReactions)
        requires
            self.wf(),
        ensures
            r@ == self.with_reactions(message@),
    {
        let reactions = self.reactions_for(&message.id);
        MessageWithReactions {
            id: message.id,
            text: message.text,
            timestamp: message.timestamp,
            sender: message.sender,
            reactions,
        }
    }

    /// Attaches to a message the replies to it, each with its reactions.
    pub fn add_thread_to_message(&self, message: MessageWithReactions) -> (r:
        MessageWithReactionsAndThread)
        requires
            self.wf(),
        ensures
            r@ == self.with_thread(message@),
    {
        let mut thread: Vec<MessageWithReactions> = Vec::new();
        match self.threads.find(&message.id) {
            Some(t) => {
                let replies = &self.threads.vals[t];
                let mut i: usize = 0;
                while i < replies.len()
                    invariant
                        self.wf(),
                        i <= replies@.len(),
                        thread@.len() == i,
                        forall|k: int|
                            0 <= k < i ==> (#[trigger] thread@[k])@ == self.with_reactions(
                                replies@[k]@,
                            ),
                    decreases replies@.len() - i,
                {
                    thread.push(self.add_reactions_to_message(replies[i].clone()));
                    i += 1;
                }
                assert(log_view(replies@) == self.thread_log(message.id@));
            },
            None => {},
        }
        let r = MessageWithReactionsAndThread {
            id: message.id,
            text: message.text,
            timestamp: message.timestamp,
            sender: message.sender,
            reactions: message.reactions,
            thread,
        };
        assert(r@.thread =~= self.with_thread(message@).thread);
        r
    }

    /// Copies out the messages of a log from `start` up to `end`, each with
    /// its reactions and its thread.
    fn decorate(&self, messages: &Vec<Message>, start: usize, end: usize) -> (r: Vec<
        MessageWithReactionsAndThread,
    >)
        requires
            self.wf(),
            start <= end <= messages@.len(),
        ensures
            r@.len() == end - start,
            threaded_view(r@) == self.decorated(
                log_view(messages@).subrange(start as int, end as int),
            ),
    {
        let mut r: Vec<MessageWithReactionsAndThread> = Vec::new();
        let mut i: usize = start;
        while i < end
            invariant
                self.wf(),
                start <= i <= end <= messages@.len(),
                r@.len() == i - start,
                forall|k: int|
                    0 <= k < i - start ==> (#[trigger] r@[k])@ == self.with_thread(
                        self.with_reactions(messages@[start + k]@),
                    ),
            decreases end - i,
        {
            let reacted = self.add_reactions_to_message(messages[i].clone());
            r.push(self.add_thread_to_message(reacted));
            i += 1;
        }
        assert(threaded_view(r@) =~= self.decorated(
            log_view(messages@).subrange(start as int, end as int),
        ));
        r
    }

    /// The page of a conversation, where there is such a page.
    fn page_of(&self, info: &ChannelInfo, offset: Option<usize>, length: Option<usize>) -> (r:
        Result<Vec<MessageWithReactionsAndThread>, Error>)
        requires
            self.wf(),
        ensures
            match page_asked(info.log(), offset, length) {
                Ok(messages) => r is Ok && threaded_view(r->Ok_0@) == self.decorated(messages),
                Err(error) => r == Err::<Vec<MessageWithReactionsAndThread>, Error>(error),
            },
    {
        match page_bounds(info.messages.len(), offset, length) {
            Some((start, end)) => Ok(self.decorate(&info.messages, start, end)),
            None => Err(Error::InvalidArgument),
        }
    }

    /// The messages that a query asks for: a page of the chat of two
    /// accounts, or else of a channel. There are none where there is no such
    /// chat or channel. The query is rejected where it names neither, and
    /// where the conversation has no such page.
    pub open spec fn messages_asked(
        &self,
        accounts: Option<(Seq<char>, Seq<char>)>,
        group: Option<Seq<char>>,
        offset: Option<usize>,
        length: Option<usize>,
    ) -> Result<Seq<MessageView>, Error> {
        match accounts {
            Some((a, b)) => if self.chats.has(canonical_pair(a, b)) {
                page_asked(self.chats.at(canonical_pair(a, b)).log(), offset, length)
            } else {
                Ok(Seq::empty())
            },
            None => match group {
                Some(name) => if self.has_channel(name) {
                    page_asked(self.channels.at(name).log(), offset, length)
                } else {
                    Ok(Seq::empty())
                },
                None => Err(Error::InvalidArgument),
            },
        }
    }

    /// A page of the messages of a chat or of a channel, each with its
    /// reactions and its thread. Where both are named, the chat counts.
    pub fn get_messages(
        &self,
        accounts: Option<(String, String)>,
        group: Option<Channel>,
        offset: Option<usize>,
        length: Option<usize>,
    ) -> (r: Result<Vec<MessageWithReactionsAndThread>, Error>)
        requires
            self.wf(),
        ensures
            match self.messages_asked(accounts_of(accounts), channel_of(group), offset, length) {
                Ok(messages) => r is Ok && threaded_view(r->Ok_0@) == self.decorated(messages),
                Err(error) => r == Err::<Vec<MessageWithReactionsAndThread>, Error>(error),
            },
    {
        match accounts {
            Some((account1, account2)) => {
                let (low, high) = order_accounts(account1, account2);
                match self.chats.find(&low, &high) {
                    Some(i) => self.page_of(&self.chats.infos[i], offset, length),
                    None => {
                        let r: Vec<MessageWithReactionsAndThread> = Vec::new();
                        assert(threaded_view(r@) =~= self.decorated(Seq::empty()));
                        Ok(r)
                    },
                }
            },
            None => match group {
                Some(channel) => match self.channels.find(&channel.name) {
                    Some(i) => self.page_of(&self.channels.vals[i], offset, length),
                    None => {
                        let r: Vec<MessageWithReactionsAndThread> = Vec::new();
                        assert(threaded_view(r@) =~= self.decorated(Seq::empty()));
                        Ok(r)
                    },
                },
                None => Err(Error::InvalidArgument),
            },
        }
    }

    /// The unread entries of `account` for the channels: one for each
    /// channel, under its name.
    pub open spec fn channel_unreads(&self, account: Seq<char>) -> Seq<(Seq<char>, UnreadView)> {
        Seq::new(
            self.channels.names().len(),
            |i: int| (self.channels.names()[i], self.channels.vals@[i].unread_view(account)),
        )
    }

    /// For every channel, and for every chat that `account` is a party of,
    /// how many messages the account has not read, and its cursor.
    pub fn unread_messages(&self, account: &String) -> (r: UnreadMessageInfo)
        requires
            self.wf(),
        ensures
            unreads_view(r.channels@) == self.channel_unreads(account@),
            unreads_view(r.chats@) == self.chats.unread_entries(
                account@,
                self.chats.pairs().len() as int,
            ),
            r.threads@.len() == 0,
    {
        let mut channels: Vec<(String, UnreadMessage)> = Vec::new();
        let mut i: usize = 0;
        while i < self.channels.vals.len()
            invariant
                self.wf(),
                i <= self.channels.vals@.len(),
                channels@.len() == i,
                forall|k: int|
                    0 <= k < i ==> (#[trigger] channels@[k]).0@ == self.channels.names()[k]
                        && channels@[k].1@ == self.channels.vals@[k].unread_view(account@),
            decreases self.channels.vals@.len() - i,
        {
            let unread = self.channels.vals[i].unread_for(account);
            channels.push((self.channels.keys.items[i].clone(), unread));
            i += 1;
        }
        assert(unreads_view(channels@) =~= self.channel_unreads(account@));
        let mut chats: Vec<(String, UnreadMessage)> = Vec::new();
        let mut j: usize = 0;
        while j < self.chats.infos.len()
            invariant
                self.wf(),
                j <= self.chats.infos@.len(),
                unreads_view(chats@) == self.chats.unread_entries(account@, j as int),
            decreases self.chats.infos@.len() - j,
        {
            let low = &self.chats.lows[j];
            let high = &self.chats.highs[j];
            let ghost before = unreads_view(chats@);
            if *low == *account || *high == *account {
                let other = if *low == *account {
                    high.clone()
                } else {
                    low.clone()
                };
                let unread = self.chats.infos[j].unread_for(account);
                chats.push((other, unread));
                assert(unreads_view(chats@) =~= before.push(
                    (other@, self.chats.infos@[j as int].unread_view(account@)),
                ));
            }
            j += 1;
        }
        UnreadMessageInfo { channels, chats, threads: Vec::new() }
    }

    /// The accounts of a list, each with whether it is active at `now`.
    fn users_of(&self, ids: &Vec<String>, now: u64) -> (r: Vec<UserInfo>)
        requires
            self.wf(),
        ensures
            users_view(r@) == self.users(names_view(ids@), now),
    {
        let mut r: Vec<UserInfo> = Vec::new();
        let mut i: usize = 0;
        while i < ids.len()
            invariant
                self.wf(),
                i <= ids@.len(),
                r@.len() == i,
                forall|k: int|
                    0 <= k < i ==> (#[trigger] r@[k]).id@ == ids@[k]@ && r@[k].active == (
                    self.is_member(ids@[k]@) && active_at(now, self.members.at(ids@[k]@))),
            decreases ids@.len() - i,
        {
            let active = match self.members.find(&ids[i]) {
                Some(m) => Curb::is_active(now, self.members.vals[m]),
                None => false,
            };
            r.push(UserInfo { id: ids[i].clone(), active });
            i += 1;
        }
        assert(users_view(r@) =~= self.users(names_view(ids@), now));
        r
    }

    /// The members of a channel, or all members, each with whether it is
    /// active at `now`. A channel that does not exist has none.
    pub fn get_members(&self, group: Option<Channel>, now: u64) -> (r: Vec<UserInfo>)
        requires
            self.wf(),
        ensures
            users_view(r@) == match group {
                Some(c) => if self.has_channel(c.name@) {
                    self.users(self.members_of(c.name@), now)
                } else {
                    Seq::empty()
                },
                None => self.users(self.members.names(), now),
            },
    {
        match group {
            Some(group) => match self.channel_members.find(&group.name) {
                Some(i) => self.users_of(&self.channel_members.vals[i].items, now),
                None => {
                    let r: Vec<UserInfo> = Vec::new();
                    assert(users_view(r@) =~= Seq::empty());
                    r
                },
            },
            None => self.users_of(&self.members.keys.items, now),
        }
    }

    /// Makes channels of names.
    fn channels_named(names: &Vec<String>) -> (r: Vec<Channel>)
        ensures
            channel_names(r@) == names_view(names@),
    {
        let mut r: Vec<Channel> = Vec::new();
        let mut i: usize = 0;
        while i < names.len()
            invariant
                i <= names@.len(),
                r@.len() == i,
                forall|k: int| 0 <= k < i ==> (#[trigger] r@[k]).name@ == names@[k]@,
            decreases names@.len() - i,
        {
            r.push(Channel { name: names[i].clone() });
            i += 1;
        }
        assert(channel_names(r@) =~= names_view(names@));
        r
    }

    /// The channels of an account, or all channels. An account that has not
    /// joined has none.
    pub fn get_groups(&self, account: Option<String>) -> (r: Vec<Channel>)
        requires
            self.wf(),
        ensures
            channel_names(r@) == match account {
                Some(a) => if self.has_joined(a@) {
                    self.groups_of(a@)
                } else {
                    Seq::empty()
                },
                None => self.channels.names(),
            },
    {
        match account {
            Some(account) => match self.member_channels.find(&account) {
                Some(i) => Curb::channels_named(&self.member_channels.vals[i].items),
                None => {
                    let r: Vec<Channel> = Vec::new();
                    assert(channel_names(r@) =~= Seq::<Seq<char>>::empty());
                    r
                },
            },
            None => Curb::channels_named(&self.channels.keys.items),
        }
    }

    /// The key that an account was last seen with, if it was ever seen.
    pub fn get_keys(&self, account: &String) -> (r: Vec<Vec<u8>>)
        requires
            self.wf(),
        ensures
            self.is_member(account@) ==> r@.len() == 1 && r@[0]@ == self.member_keys.at(account@)@,
            !self.is_member(account@) ==> r@.len() == 0,
    {
        let mut r: Vec<Vec<u8>> = Vec::new();
        match self.member_keys.find(account) {
            Some(i) => {
                r.push(self.member_keys.vals[i].clone());
            },
            None => {},
        }
        r
    }

    /// When a channel was created and by whom, if there is such a channel.
    pub fn channel_info(&self, group: &Channel) -> (r: Option<&ChannelMetadata>)
        requires
            self.wf(),
        ensures
            r is Some == self.has_channel(group.name@),
            r is Some ==> *r->Some_0 == self.channels.at(group.name@).meta,
    {
        match self.channels.find(&group.name) {
            Some(i) => Some(&self.channels.vals[i].meta),
            None => None,
        }
    }
}

} // verus!
