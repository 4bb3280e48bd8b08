//! Direct conversations, each kept under the canonical pair of its parties.

use vstd::prelude::*;
use crate::conversation::ChannelInfo;
use crate::order::{lemma_text_lt_total, text_less, text_lt};

verus! {

/// The key of the chat between `a` and `b`: the two in order, the lesser
/// first, so that it does not matter who addresses whom.
pub open spec fn canonical_pair(a: Seq<char>, b: Seq<char>) -> (Seq<char>, Seq<char>) {
    if text_lt(a, b) {
        (a, b)
    } else {
        (b, a)
    }
}

/// Puts two accounts in canonical order.
pub fn order_accounts(account: String, other_account: String) -> (r: (String, String))
    ensures
        (r.0@, r.1@) == canonical_pair(account@, other_account@),
        !text_lt(r.1@, r.0@),
{
    proof {
        lemma_text_lt_total(account@, other_account@);
    }
    if text_less(&account, &other_account) {
        (account, other_account)
    } else {
        (other_account, account)
    }
}

/// The chats, each under the pair of its parties.
#[derive(Debug)]
pub struct ChatTable {
    pub lows: Vec<String>,
    pub highs: Vec<String>,
    pub infos: Vec<ChannelInfo>,
}

impl ChatTable {
    /// The pairs that have a chat, in the order in which the chats began.
    pub open spec fn pairs(&self) -> Seq<(Seq<char>, Seq<char>)> {
        Seq::new(self.lows@.len(), |i: int| (self.lows@[i]@, self.highs@[i]@))
    }

    /// No pair occurs twice, and each has its conversation.
    pub open spec fn wf(&self) -> bool {
        &&& self.lows@.len() == self.highs@.len()
        &&& self.lows@.len() == self.infos@.len()
        &&& self.pairs().no_duplicates()
    }

    /// Whether the pair has a chat.
    pub open spec fn has(&self, pair: (Seq<char>, Seq<char>)) -> bool {
        self.pairs().contains(pair)
    }

    /// The position at which the pair and its chat stand.
    pub open spec fn slot(&self, pair: (Seq<char>, Seq<char>)) -> int {
        self.pairs().index_of(pair)
    }

    /// The chat of the pair.
    pub open spec fn at(&self, pair: (Seq<char>, Seq<char>)) -> ChannelInfo {
        self.infos@[self.slot(pair)]
    }

    /// The pairs of `before`, and `pair` behind them unless it is among them.
    pub open spec fn with_pair(
        before: Seq<(Seq<char>, Seq<char>)>,
        pair: (Seq<char>, Seq<char>),
    ) -> Seq<(Seq<char>, Seq<char>)> {
        if before.contains(pair) {
            before
        } else {
            before.push(pair)
        }
    }

    /// This table is `before` but for the chat of `pair`: it has the pairs
    /// of `before` and `pair`, and every other pair has the chat it had.
    pub open spec fn differs_only_at(&self, before: ChatTable, pair: (Seq<char>, Seq<char>)) -> bool {
        &&& self.pairs() == Self::with_pair(before.pairs(), pair)
        &&& self.has(pair)
        &&& forall|p: (Seq<char>, Seq<char>)| #[trigger] before.has(p) ==> self.has(p)
        &&& forall|p: (Seq<char>, Seq<char>)|
            p != pair && #[trigger] before.has(p) ==> self.at(p) == before.at(p)
        &&& forall|p: (Seq<char>, Seq<char>)| p != pair && #[trigger] self.has(p) ==> before.has(p)
    }

    /// After a change of the chat at position `i` alone, every other pair
    /// has the chat it had.
    pub proof fn lemma_changed_at(self, before: ChatTable, i: int)
        requires
            before.wf(),
            0 <= i < before.infos@.len(),
            self.lows == before.lows,
            self.highs == before.highs,
            self.infos@.len() == before.infos@.len(),
            forall|j: int| 0 <= j < before.infos@.len() && j != i ==> self.infos@[j] == before.infos@[j],
        ensures
            self.wf(),
            self.pairs() == before.pairs(),
            self.differs_only_at(before, before.pairs()[i]),
            self.has(before.pairs()[i]),
            self.slot(before.pairs()[i]) == i,
            self.at(before.pairs()[i]) == self.infos@[i],
            before.at(before.pairs()[i]) == before.infos@[i],
    {
        let pair = before.pairs()[i];
        assert(before.pairs().contains(pair));
        let j = before.pairs().index_of(pair);
        assert(0 <= j < before.pairs().len() && before.pairs()[j] == pair);
        assert forall|p: (Seq<char>, Seq<char>)| p != pair && #[trigger] before.has(p) implies self.at(
            p,
        ) == before.at(p) by {
            assert(before.pairs()[before.slot(p)] == p);
        }
    }

    /// No chats.
    pub fn new() -> (r: Self)
        ensures
            r.wf(),
            r.pairs() == Seq::<(Seq<char>, Seq<char>)>::empty(),
            r.infos@ == Seq::<ChannelInfo>::empty(),
    {
        let r = ChatTable { lows: Vec::new(), highs: Vec::new(), infos: Vec::new() };
        assert(r.pairs() =~= Seq::<(Seq<char>, Seq<char>)>::empty());
        r
    }

    /// The number of chats.
    pub fn len(&self) -> (n: usize)
        requires
            self.wf(),
        ensures
            n == self.pairs().len(),
            n == self.infos@.len(),
    {
        self.infos.len()
    }

    /// The position at which the pair and its chat stand.
    pub fn find(&self, low: &String, high: &String) -> (r: Option<usize>)
        requires
            self.wf(),
        ensures
            match r {
                Some(i) => self.has((low@, high@)) && i == self.slot((low@, high@)) && i
                    < self.infos@.len(),
                None => !self.has((low@, high@)),
            },
    {
        let mut i: usize = 0;
        while i < self.lows.len()
            invariant
                self.wf(),
                i <= self.lows.len(),
                forall|j: int| 0 <= j < i ==> self.pairs()[j] != (low@, high@),
            decreases self.lows.len() - i,
        {
            if self.lows[i] == *low && self.highs[i] == *high {
                proof {
                    let pair = (low@, high@);
                    assert(self.pairs()[i as int] == pair);
                    let j = self.pairs().index_of(pair);
                    assert(0 <= j < self.pairs().len() && self.pairs()[j] == pair);
                }
                return Some(i);
            }
            i += 1;
        }
        None
    }

    /// Begins a chat for a pair that has none.
    pub fn add(&mut self, low: String, high: String, info: ChannelInfo)
        requires
            old(self).wf(),
            !old(self).has((low@, high@)),
        ensures
            final(self).wf(),
            final(self).pairs() == old(self).pairs().push((low@, high@)),
            final(self).infos@ == old(self).infos@.push(info),
            final(self).has((low@, high@)),
            final(self).slot((low@, high@)) == old(self).infos@.len(),
            forall|p: (Seq<char>, Seq<char>)| #[trigger]
                old(self).has(p) ==> final(self).has(p) && final(self).slot(p) == old(self).slot(p),
            forall|p: (Seq<char>, Seq<char>)| #[trigger]
                final(self).has(p) ==> p == (low@, high@) || old(self).has(p),
            final(self).differs_only_at(*old(self), (low@, high@)),
            final(self).at((low@, high@)) == info,
    {
        let ghost pair = (low@, high@);
        let ghost before = self.pairs();
        self.lows.push(low);
        self.highs.push(high);
        self.infos.push(info);
        proof {
            let after = self.pairs();
            assert(after =~= before.push(pair));
            assert(after[before.len() as int] == pair);
            let j = after.index_of(pair);
            assert(0 <= j < after.len() && after[j] == pair);
            assert forall|p: (Seq<char>, Seq<char>)| #[trigger] before.contains(p) implies after.contains(
                p,
            ) && after.index_of(p) == before.index_of(p) by {
                let i = before.index_of(p);
                assert(after[i] == p);
                let k = after.index_of(p);
                assert(0 <= k < after.len() && after[k] == p);
            }
            assert forall|p: (Seq<char>, Seq<char>)| #[trigger] after.contains(p) implies p == pair
                || before.contains(p) by {
                let i = after.index_of(p);
                if i < before.len() {
                    assert(before[i] == p);
                }
            }
        }
    }
}

} // verus!
