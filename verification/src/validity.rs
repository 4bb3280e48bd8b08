//! Telling at run time whether a state is one that the operations accept,
//! for a state that was put together elsewhere.

use vstd::prelude::*;
use crate::chats::ChatTable;
use crate::conversation::ChannelInfo;
use crate::curb::Curb;
use crate::message::{
    lemma_message_lt_total, lemma_message_lt_transitive, log_view, message_le, sorted, Message,
    MessageView,
};
use crate::names::{lemma_index_of_unique, names_view, StrSet, Table};

verus! {

/// A log in which every message may stand before the next is sorted.
pub proof fn lemma_sorted_by_neighbours(log: Seq<MessageView>)
    requires
        forall|i: int| 0 <= i < log.len() - 1 ==> message_le(#[trigger] log[i], log[i + 1]),
    ensures
        sorted(log),
{
    assert forall|i: int, j: int| 0 <= i < j < log.len() implies message_le(log[i], log[j]) by {
        lemma_reaches(log, i, j);
    }
}

proof fn lemma_reaches(log: Seq<MessageView>, i: int, j: int)
    requires
        forall|i: int| 0 <= i < log.len() - 1 ==> message_le(#[trigger] log[i], log[i + 1]),
        0 <= i < j < log.len(),
    ensures
        message_le(log[i], log[j]),
    decreases j - i,
{
    if j > i + 1 {
        lemma_reaches(log, i, j - 1);
        assert(message_le(log[j - 1], log[j]));
        lemma_message_lt_total(log[i], log[j - 1]);
        lemma_message_lt_total(log[j - 1], log[j]);
        if log[i] != log[j - 1] && log[j - 1] != log[j] {
            lemma_message_lt_transitive(log[i], log[j - 1], log[j]);
            lemma_message_lt_total(log[i], log[j]);
        }
    } else {
        assert(message_le(log[i], log[i + 1]));
    }
}

/// Whether a log is sorted.
pub fn is_sorted(log: &Vec<Message>) -> (ok: bool)
    ensures
        ok == sorted(log_view(log@)),
{
    let ghost views = log_view(log@);
    let mut i: usize = 1;
    while i < log.len()
        invariant
            1 <= i,
            views == log_view(log@),
            forall|k: int| 0 <= k < i - 1 ==> message_le(#[trigger] views[k], views[k + 1]),
        decreases log.len() - i,
    {
        if log[i].precedes(&log[i - 1]) {
            assert(!message_le(views[i - 1], views[i as int]));
            return false;
        }
        i += 1;
    }
    proof {
        lemma_sorted_by_neighbours(views);
    }
    true
}

/// Whether two lists hold the same strings in the same order.
pub fn same_names(a: &Vec<String>, b: &Vec<String>) -> (ok: bool)
    ensures
        ok == (names_view(a@) == names_view(b@)),
{
    let ghost av = names_view(a@);
    let ghost bv = names_view(b@);
    if a.len() != b.len() {
        assert(av.len() != bv.len());
        return false;
    }
    let mut i: usize = 0;
    while i < a.len()
        invariant
            i <= a@.len(),
            a@.len() == b@.len(),
            av == names_view(a@),
            bv == names_view(b@),
            forall|k: int| 0 <= k < i ==> av[k] == bv[k],
        decreases a@.len() - i,
    {
        if a[i] != b[i] {
            assert(av[i as int] != bv[i as int]);
            return false;
        }
        i += 1;
    }
    assert(av =~= bv);
    true
}

impl StrSet {
    /// Whether no name is held twice.
    pub fn is_well_formed(&self) -> (ok: bool)
        ensures
            ok == self.wf(),
    {
        let ghost names = self.names();
        let mut i: usize = 0;
        while i < self.items.len()
            invariant
                i <= self.items@.len(),
                names == self.names(),
                forall|a: int, b: int| 0 <= a < b < i ==> names[a] != names[b],
            decreases self.items@.len() - i,
        {
            let mut j: usize = 0;
            while j < i
                invariant
                    j <= i < self.items@.len(),
                    names == self.names(),
                    forall|a: int| 0 <= a < j ==> names[a] != names[i as int],
                decreases i - j,
            {
                if self.items[j] == self.items[i] {
                    assert(names[j as int] == names[i as int]);
                    return false;
                }
                j += 1;
            }
            i += 1;
        }
        true
    }
}

impl<V> Table<V> {
    /// Whether no name occurs twice and each has its value.
    pub fn is_well_formed(&self) -> (ok: bool)
        ensures
            ok == self.wf(),
    {
        self.keys.items.len() == self.vals.len() && self.keys.is_well_formed()
    }
}

impl Table<StrSet> {
    /// Whether every set of the table is free of repeats.
    pub fn has_proper_sets(&self) -> (ok: bool)
        ensures
            ok == self.sets_wf(),
    {
        let mut i: usize = 0;
        while i < self.vals.len()
            invariant
                i <= self.vals@.len(),
                forall|k: int| 0 <= k < i ==> (#[trigger] self.vals@[k]).wf(),
            decreases self.vals@.len() - i,
        {
            if !self.vals[i].is_well_formed() {
                return false;
            }
            i += 1;
        }
        true
    }
}

impl ChannelInfo {
    /// Whether the log is sorted and no reader has two cursors.
    pub fn is_well_formed(&self) -> (ok: bool)
        ensures
            ok == self.wf(),
    {
        is_sorted(&self.messages) && self.last_read.is_well_formed()
    }
}

impl ChatTable {
    /// Whether no pair occurs twice and each has its conversation.
    pub fn is_well_formed(&self) -> (ok: bool)
        ensures
            ok == self.wf(),
    {
        if self.lows.len() != self.highs.len() || self.lows.len() != self.infos.len() {
            return false;
        }
        let ghost pairs = self.pairs();
        let mut i: usize = 0;
        while i < self.lows.len()
            invariant
                i <= self.lows@.len(),
                self.lows@.len() == self.highs@.len(),
                pairs == self.pairs(),
                forall|a: int, b: int| 0 <= a < b < i ==> pairs[a] != pairs[b],
            decreases self.lows@.len() - i,
        {
            let mut j: usize = 0;
            while j < i
                invariant
                    j <= i < self.lows@.len(),
                    self.lows@.len() == self.highs@.len(),
                    pairs == self.pairs(),
                    forall|a: int| 0 <= a < j ==> pairs[a] != pairs[i as int],
                decreases i - j,
            {
                if self.lows[j] == self.lows[i] && self.highs[j] == self.highs[i] {
                    assert(pairs[j as int] == pairs[i as int]);
                    return false;
                }
                j += 1;
            }
            i += 1;
        }
        true
    }
}

impl Curb {
    /// Whether the tables are in order and those that go together agree.
    pub fn has_proper_tables(&self) -> (ok: bool)
        ensures
            ok == self.tables_wf(),
    {
        self.members.is_well_formed() && self.member_keys.is_well_formed()
            && self.channels.is_well_formed() && self.channel_members.is_well_formed()
            && self.member_channels.is_well_formed() && self.chats.is_well_formed()
            && self.threads.is_well_formed() && self.reactions.is_well_formed() && same_names(
            &self.members.keys.items,
            &self.member_keys.keys.items,
        ) && same_names(&self.channels.keys.items, &self.channel_members.keys.items)
    }

    /// Whether every log is sorted and every set and table inside the state
    /// is in order.
    pub fn has_proper_contents(&self) -> (ok: bool)
        ensures
            ok == self.contents_wf(),
    {
        let mut i: usize = 0;
        while i < self.channels.vals.len()
            invariant
                forall|k: int| 0 <= k < i ==> (#[trigger] self.channels.vals@[k]).wf(),
            decreases self.channels.vals@.len() - i,
        {
            if !self.channels.vals[i].is_well_formed() {
                return false;
            }
            i += 1;
        }
        if !self.channel_members.has_proper_sets() || !self.member_channels.has_proper_sets() {
            return false;
        }
        let mut i: usize = 0;
        while i < self.chats.infos.len()
            invariant
                forall|k: int| 0 <= k < i ==> (#[trigger] self.chats.infos@[k]).wf(),
            decreases self.chats.infos@.len() - i,
        {
            if !self.chats.infos[i].is_well_formed() {
                return false;
            }
            i += 1;
        }
        let mut i: usize = 0;
        while i < self.threads.vals.len()
            invariant
                forall|k: int|
                    0 <= k < i ==> sorted(log_view((#[trigger] self.threads.vals@[k])@)),
            decreases self.threads.vals@.len() - i,
        {
            if !is_sorted(&self.threads.vals[i]) {
                return false;
            }
            i += 1;
        }
        let mut i: usize = 0;
        while i < self.reactions.vals.len()
            invariant
                forall|k: int|
                    0 <= k < i ==> (#[trigger] self.reactions.vals@[k]).wf()
                        && self.reactions.vals@[k].sets_wf(),
            decreases self.reactions.vals@.len() - i,
        {
            if !self.reactions.vals[i].is_well_formed() || !self.reactions.vals[i].has_proper_sets() {
                return false;
            }
            i += 1;
        }
        true
    }

    /// Every account that the channel at `ci` lists, lists the channel.
    pub open spec fn channel_mirrored(&self, ci: int) -> bool {
        forall|k: int|
            0 <= k < self.channel_members.vals@[ci].names().len() ==> self.lists_channel(
                #[trigger] self.channel_members.vals@[ci].names()[k],
                self.channels.names()[ci],
            )
    }

    /// Every channel that the account at `mi` lists, lists the account; and
    /// the account has been seen.
    pub open spec fn member_mirrored(&self, mi: int) -> bool {
        &&& self.members.has(self.member_channels.names()[mi])
        &&& forall|k: int|
            0 <= k < self.member_channels.vals@[mi].names().len() ==> self.in_channel(
                #[trigger] self.member_channels.vals@[mi].names()[k],
                self.member_channels.names()[mi],
            )
    }

    /// The two membership indices say the same if they do so for each
    /// channel and for each account, and only then.
    pub proof fn lemma_mirrored_by_entries(self)
        requires
            self.tables_wf(),
            self.contents_wf(),
        ensures
            self.mirrored() <==> {
                &&& forall|ci: int| 0 <= ci < self.channels.vals@.len() ==> self.channel_mirrored(ci)
                &&& forall|mi: int|
                    0 <= mi < self.member_channels.vals@.len() ==> self.member_mirrored(mi)
            },
    {
        assert(self.channels.names().len() == self.channel_members.names().len());
        if self.mirrored() {
            assert forall|ci: int| 0 <= ci < self.channels.vals@.len() implies self.channel_mirrored(
                ci,
            ) by {
                let c = self.channels.names()[ci];
                lemma_index_of_unique(self.channels.names(), c, ci);
                assert forall|k: int|
                    0 <= k < self.channel_members.vals@[ci].names().len() implies self.lists_channel(
                    #[trigger] self.channel_members.vals@[ci].names()[k],
                    c,
                ) by {
                    let m = self.channel_members.vals@[ci].names()[k];
                    assert(self.in_channel(c, m));
                }
            }
            assert forall|mi: int|
                0 <= mi < self.member_channels.vals@.len() implies self.member_mirrored(mi) by {
                let m = self.member_channels.names()[mi];
                lemma_index_of_unique(self.member_channels.names(), m, mi);
                assert(self.member_channels.has(m));
                assert forall|k: int|
                    0 <= k < self.member_channels.vals@[mi].names().len() implies self.in_channel(
                    #[trigger] self.member_channels.vals@[mi].names()[k],
                    m,
                ) by {
                    let c = self.member_channels.vals@[mi].names()[k];
                    assert(self.lists_channel(m, c));
                }
            }
        }
        if (forall|ci: int| 0 <= ci < self.channels.vals@.len() ==> self.channel_mirrored(ci)) && (
        forall|mi: int| 0 <= mi < self.member_channels.vals@.len() ==> self.member_mirrored(mi)) {
            assert forall|c: Seq<char>, m: Seq<char>|
                #![trigger self.in_channel(c, m)]
                #![trigger self.lists_channel(m, c)]
                self.in_channel(c, m) <==> self.lists_channel(m, c) by {
                if self.in_channel(c, m) {
                    let ci = self.channels.slot(c);
                    assert(self.channels.names()[ci] == c);
                    assert(self.channel_mirrored(ci));
                    let k = self.channel_members.vals@[ci].names().index_of(m);
                    assert(self.channel_members.vals@[ci].names()[k] == m);
                }
                if self.lists_channel(m, c) {
                    let mi = self.member_channels.slot(m);
                    assert(self.member_channels.names()[mi] == m);
                    assert(self.member_mirrored(mi));
                    let k = self.member_channels.vals@[mi].names().index_of(c);
                    assert(self.member_channels.vals@[mi].names()[k] == c);
                }
            }
            assert forall|m: Seq<char>| #[trigger] self.member_channels.has(m) implies self.members.has(
                m,
            ) by {
                let mi = self.member_channels.slot(m);
                assert(self.member_channels.names()[mi] == m);
                assert(self.member_mirrored(mi));
            }
        }
    }

    /// Whether the channel at `ci` is listed by every account that it lists.
    fn is_channel_mirrored(&self, ci: usize) -> (ok: bool)
        requires
            self.tables_wf(),
            self.contents_wf(),
            ci < self.channels.vals@.len(),
        ensures
            ok == self.channel_mirrored(ci as int),
    {
        assert(self.channels.names().len() == self.channel_members.names().len());
        let set = &self.channel_members.vals[ci];
        let name = &self.channels.keys.items[ci];
        let mut k: usize = 0;
        while k < set.items.len()
            invariant
                self.tables_wf(),
                self.contents_wf(),
                ci < self.channels.vals@.len(),
                set == self.channel_members.vals@[ci as int],
                name@ == self.channels.names()[ci as int],
                k <= set.items@.len(),
                forall|j: int| 0 <= j < k ==> self.lists_channel(#[trigger] set.names()[j], name@),
            decreases set.items@.len() - k,
        {
            let listed = match self.member_channels.find(&set.items[k]) {
                Some(mi) => self.member_channels.vals[mi].contains(name),
                None => false,
            };
            if !listed {
                assert(!self.lists_channel(set.names()[k as int], name@));
                return false;
            }
            k += 1;
        }
        true
    }

    /// Whether the account at `mi` has been seen and is listed by every
    /// channel that it lists.
    fn is_member_mirrored(&self, mi: usize) -> (ok: bool)
        requires
            self.tables_wf(),
            self.contents_wf(),
            mi < self.member_channels.vals@.len(),
        ensures
            ok == self.member_mirrored(mi as int),
    {
        assert(self.channels.names().len() == self.channel_members.names().len());
        let set = &self.member_channels.vals[mi];
        let name = &self.member_channels.keys.items[mi];
        if !self.members.contains_key(name) {
            return false;
        }
        let mut k: usize = 0;
        while k < set.items.len()
            invariant
                self.tables_wf(),
                self.contents_wf(),
                mi < self.member_channels.vals@.len(),
                set == self.member_channels.vals@[mi as int],
                name@ == self.member_channels.names()[mi as int],
                k <= set.items@.len(),
                forall|j: int| 0 <= j < k ==> self.in_channel(#[trigger] set.names()[j], name@),
            decreases set.items@.len() - k,
        {
            let listed = match self.channels.find(&set.items[k]) {
                Some(ci) => self.channel_members.vals[ci].contains(name),
                None => false,
            };
            if !listed {
                assert(!self.in_channel(set.names()[k as int], name@));
                return false;
            }
            k += 1;
        }
        true
    }

    /// Whether the two membership indices say the same.
    pub fn is_mirrored(&self) -> (ok: bool)
        requires
            self.tables_wf(),
            self.contents_wf(),
        ensures
            ok == self.mirrored(),
    {
        let mut ci: usize = 0;
        while ci < self.channels.vals.len()
            invariant
                self.tables_wf(),
                self.contents_wf(),
                forall|k: int| 0 <= k < ci ==> self.channel_mirrored(k),
            decreases self.channels.vals@.len() - ci,
        {
            if !self.is_channel_mirrored(ci) {
                proof {
                    self.lemma_mirrored_by_entries();
                }
                return false;
            }
            ci += 1;
        }
        let mut mi: usize = 0;
        while mi < self.member_channels.vals.len()
            invariant
                self.tables_wf(),
                self.contents_wf(),
                forall|k: int| 0 <= k < self.channels.vals@.len() ==> self.channel_mirrored(k),
                forall|k: int| 0 <= k < mi ==> self.member_mirrored(k),
            decreases self.member_channels.vals@.len() - mi,
        {
            if !self.is_member_mirrored(mi) {
                proof {
                    self.lemma_mirrored_by_entries();
                }
                return false;
            }
            mi += 1;
        }
        proof {
            self.lemma_mirrored_by_entries();
        }
        true
    }

    /// Whether the state is one that the operations accept: every state
    /// that they produce is, and one that was put together elsewhere may
    /// not be.
    pub fn is_well_formed(&self) -> (ok: bool)
        ensures
            ok == self.wf(),
    {
        if !self.has_proper_tables() || !self.has_proper_contents() {
            return false;
        }
        self.is_mirrored()
    }
}

} // verus!
