//! What holds of the operations taken together.

use vstd::prelude::*;
use crate::chats::canonical_pair;
use crate::conversation::{unread_count, ChannelInfo};
use crate::curb::Curb;
use crate::digest::message_id;
use crate::message::{
    find_position, lemma_find_position, lemma_ordered_insert_sorted, ordered_insert, sorted,
    MessageView,
};
use crate::names::{lemma_with_name, lemma_without_name, toggled};
use crate::order::{lemma_text_lt_total, text_lt};

verus! {

/// The log after the messages of `msgs` were put in one after the other.
pub open spec fn insert_all(log: Seq<MessageView>, msgs: Seq<MessageView>) -> Seq<MessageView>
    decreases msgs.len(),
{
    if msgs.len() == 0 {
        log
    } else {
        ordered_insert(insert_all(log, msgs.drop_last()), msgs.last())
    }
}

/// A sorted log stays sorted under any sequence of insertions, and grows by
/// one message with each.
pub proof fn lemma_insertions_keep_sorted(log: Seq<MessageView>, msgs: Seq<MessageView>)
    requires
        sorted(log),
    ensures
        sorted(insert_all(log, msgs)),
        insert_all(log, msgs).len() == log.len() + msgs.len(),
    decreases msgs.len(),
{
    if msgs.len() > 0 {
        lemma_insertions_keep_sorted(log, msgs.drop_last());
        lemma_ordered_insert_sorted(insert_all(log, msgs.drop_last()), msgs.last());
    }
}

/// A log that is built from nothing by insertions is sorted.
pub proof fn lemma_built_log_sorted(msgs: Seq<MessageView>)
    ensures
        sorted(insert_all(Seq::empty(), msgs)),
{
    lemma_insertions_keep_sorted(Seq::empty(), msgs);
}

/// The id of a message depends on nothing but its sender, its target, its
/// text and its timestamp.
pub proof fn lemma_message_id_deterministic(
    sender: Seq<char>,
    target: Seq<char>,
    text: Seq<char>,
    timestamp: u64,
    sender2: Seq<char>,
    target2: Seq<char>,
    text2: Seq<char>,
    timestamp2: u64,
)
    requires
        sender == sender2,
        target == target2,
        text == text2,
        timestamp == timestamp2,
    ensures
        message_id(sender, target, text, timestamp) == message_id(
            sender2,
            target2,
            text2,
            timestamp2,
        ),
{
}

/// Two accounts have the same chat key whichever of them is named first.
/// The key holds the two, the lesser first.
pub proof fn lemma_canonical_pair_symmetric(a: Seq<char>, b: Seq<char>)
    ensures
        canonical_pair(a, b) == canonical_pair(b, a),
        canonical_pair(a, b) == (a, b) || canonical_pair(a, b) == (b, a),
        a != b ==> text_lt(canonical_pair(a, b).0, canonical_pair(a, b).1),
{
    lemma_text_lt_total(a, b);
}

/// The chat of two accounts, and what a query for its messages gives, are
/// the same whichever of the two is named first.
pub proof fn lemma_chat_symmetric(
    state: Curb,
    a: Seq<char>,
    b: Seq<char>,
    group: Option<Seq<char>>,
    offset: Option<usize>,
    length: Option<usize>,
)
    ensures
        state.chat_log(canonical_pair(a, b)) == state.chat_log(canonical_pair(b, a)),
        state.messages_asked(Some((a, b)), group, offset, length) == state.messages_asked(
            Some((b, a)),
            group,
            offset,
            length,
        ),
{
    lemma_canonical_pair_symmetric(a, b);
}

/// Toggling twice for the same name restores the set: the names held are
/// those held before, and where the name was not held, in the same order.
pub proof fn lemma_toggle_twice(s: Seq<Seq<char>>, k: Seq<char>)
    requires
        s.no_duplicates(),
    ensures
        toggled(toggled(s, k), k).to_set() == s.to_set(),
        toggled(toggled(s, k), k).no_duplicates(),
        !s.contains(k) ==> toggled(toggled(s, k), k) == s,
{
    let once = toggled(s, k);
    let twice = toggled(once, k);
    lemma_with_name(s, k);
    lemma_without_name(s, k);
    if s.contains(k) {
        lemma_with_name(once, k);
        assert forall|x: Seq<char>| twice.contains(x) <==> s.contains(x) by {}
    } else {
        assert(once.index_of(k) == s.len()) by {
            let i = once.index_of(k);
            assert(once[s.len() as int] == k);
            assert(0 <= i < once.len() && once[i] == k);
        }
        assert(twice =~= s);
    }
    assert(twice.to_set() =~= s.to_set());
}

/// Two reaction toggles by the same account on the same message with the
/// same label, one after the other, restore those who have the reaction on.
pub proof fn lemma_toggle_reaction_twice(
    before: Curb,
    between: Curb,
    after: Curb,
    id: Seq<char>,
    label: Seq<char>,
    actor: Seq<char>,
)
    requires
        before.wf(),
        between.reactors(id, label) == toggled(before.reactors(id, label), actor),
        after.reactors(id, label) == toggled(between.reactors(id, label), actor),
    ensures
        after.reactors(id, label).to_set() == before.reactors(id, label).to_set(),
{
    before.lemma_reactors_distinct(id, label);
    lemma_toggle_twice(before.reactors(id, label), actor);
}

/// A reader whose cursor is at the latest message of a log has nothing
/// unread.
pub proof fn lemma_read_to_tail(log: Seq<MessageView>)
    requires
        log.len() > 0,
    ensures
        find_position(log, log.last().id) == log.len() - 1,
        unread_count(log, Some(log.last().id)) == 0,
{
    lemma_find_position(log, log.last().id);
}

/// After a reader has marked the latest message of a conversation as read,
/// its unread count there is 0.
pub proof fn lemma_mark_read_at_tail(
    before: ChannelInfo,
    after: ChannelInfo,
    reader: Seq<char>,
    id: Seq<char>,
)
    requires
        before.log().len() > 0,
        id == before.log().last().id,
        after.marked(before, reader, id),
    ensures
        after.unread(reader) == 0,
{
    lemma_read_to_tail(before.log());
}

} // verus!
