//! Messages, the order in which a log keeps them, and ordered insertion.

use vstd::prelude::*;
use crate::order::{lemma_bytes_lt_transitive, lemma_text_lt_total, text_key, text_less, text_lt};

verus! {

/// One message of a conversation or of a thread.
#[derive(Debug, PartialEq, Eq, PartialOrd, Ord)]
pub struct Message {
    pub timestamp: u64,
    pub sender: String,
    pub id: String,
    pub text: String,
}

/// What a message holds, as plain values.
pub struct MessageView {
    pub timestamp: u64,
    pub sender: Seq<char>,
    pub id: Seq<char>,
    pub text: Seq<char>,
}

impl View for Message {
    type V = MessageView;

    open spec fn view(&self) -> MessageView {
        MessageView { timestamp: self.timestamp, sender: self.sender@, id: self.id@, text: self.text@ }
    }
}

impl Clone for Message {
    fn clone(&self) -> (r: Self)
        ensures
            r == *self,
    {
        Message {
            timestamp: self.timestamp,
            sender: self.sender.clone(),
            id: self.id.clone(),
            text: self.text.clone(),
        }
    }
}

/// The views of the messages of a log, in the log's order.
pub open spec fn log_view(log: Seq<Message>) -> Seq<MessageView> {
    Seq::new(log.len(), |i: int| log[i]@)
}

/// Strict storage order: by timestamp, then sender, then id, then text.
pub open spec fn message_lt(a: MessageView, b: MessageView) -> bool {
    ||| a.timestamp < b.timestamp
    ||| a.timestamp == b.timestamp && text_lt(a.sender, b.sender)
    ||| a.timestamp == b.timestamp && a.sender == b.sender && text_lt(a.id, b.id)
    ||| a.timestamp == b.timestamp && a.sender == b.sender && a.id == b.id && text_lt(a.text, b.text)
}

/// `a` may stand before `b` in a log.
pub open spec fn message_le(a: MessageView, b: MessageView) -> bool {
    !message_lt(b, a)
}

/// Every message of the log may stand before each one after it.
pub open spec fn sorted(log: Seq<MessageView>) -> bool {
    forall|i: int, j: int| 0 <= i < j < log.len() ==> message_le(log[i], log[j])
}

/// The number of messages among the first `n` of the log that sort strictly
/// before `m`.
pub open spec fn count_before(log: Seq<MessageView>, m: MessageView, n: int) -> int
    decreases n,
{
    if n <= 0 {
        0
    } else {
        count_before(log, m, n - 1) + if message_lt(log[n - 1], m) {
            1int
        } else {
            0int
        }
    }
}

/// Where `m` goes into the log: behind every message that sorts strictly
/// before it.
pub open spec fn insert_point(log: Seq<MessageView>, m: MessageView) -> int {
    count_before(log, m, log.len() as int)
}

/// The log with `m` put in at its place.
pub open spec fn ordered_insert(log: Seq<MessageView>, m: MessageView) -> Seq<MessageView> {
    log.insert(insert_point(log, m), m)
}

/// The order is strict and total: of two messages that differ, exactly one
/// precedes the other.
pub proof fn lemma_message_lt_total(a: MessageView, b: MessageView)
    ensures
        a == b || message_lt(a, b) || message_lt(b, a),
        !(message_lt(a, b) && message_lt(b, a)),
        !message_lt(a, a),
{
    lemma_text_lt_total(a.sender, b.sender);
    lemma_text_lt_total(a.id, b.id);
    lemma_text_lt_total(a.text, b.text);
    lemma_text_lt_total(a.sender, a.sender);
    lemma_text_lt_total(a.id, a.id);
    lemma_text_lt_total(a.text, a.text);
}

/// The order is transitive.
pub proof fn lemma_message_lt_transitive(a: MessageView, b: MessageView, c: MessageView)
    requires
        message_lt(a, b),
        message_lt(b, c),
    ensures
        message_lt(a, c),
{
    if text_lt(a.sender, b.sender) && text_lt(b.sender, c.sender) {
        lemma_bytes_lt_transitive(text_key(a.sender), text_key(b.sender), text_key(c.sender));
    }
    if text_lt(a.id, b.id) && text_lt(b.id, c.id) {
        lemma_bytes_lt_transitive(text_key(a.id), text_key(b.id), text_key(c.id));
    }
    if text_lt(a.text, b.text) && text_lt(b.text, c.text) {
        lemma_bytes_lt_transitive(text_key(a.text), text_key(b.text), text_key(c.text));
    }
}

/// What may stand before a message that precedes `c` precedes `c` too.
pub proof fn lemma_le_lt(a: MessageView, b: MessageView, c: MessageView)
    requires
        message_le(a, b),
        message_lt(b, c),
    ensures
        message_lt(a, c),
{
    lemma_message_lt_total(a, b);
    if a != b {
        lemma_message_lt_transitive(a, b, c);
    }
}

/// What does not precede `c` is not preceded by what may stand after it.
pub proof fn lemma_not_lt_le(a: MessageView, b: MessageView, c: MessageView)
    requires
        !message_lt(a, c),
        message_le(a, b),
    ensures
        !message_lt(b, c),
{
    if message_lt(b, c) {
        lemma_le_lt(a, b, c);
    }
}

/// In a sorted log the messages that precede `m` are exactly those before
/// position `p`, once `p` separates them.
pub proof fn lemma_insert_point_is(log: Seq<MessageView>, m: MessageView, p: int)
    requires
        0 <= p <= log.len(),
        forall|i: int| 0 <= i < p ==> message_lt(log[i], m),
        forall|i: int| p <= i < log.len() ==> !message_lt(log[i], m),
    ensures
        insert_point(log, m) == p,
{
    lemma_count_before(log, m, p, log.len() as int);
}

proof fn lemma_count_before(log: Seq<MessageView>, m: MessageView, p: int, n: int)
    requires
        0 <= p <= log.len(),
        0 <= n <= log.len(),
        forall|i: int| 0 <= i < p ==> message_lt(log[i], m),
        forall|i: int| p <= i < log.len() ==> !message_lt(log[i], m),
    ensures
        count_before(log, m, n) == if n <= p { n } else { p },
    decreases n,
{
    if n > 0 {
        lemma_count_before(log, m, p, n - 1);
    }
}

/// The insert point lies within the log, and in a sorted log it separates
/// the messages that precede `m` from those that do not.
pub proof fn lemma_insert_point_splits(log: Seq<MessageView>, m: MessageView)
    requires
        sorted(log),
    ensures
        0 <= insert_point(log, m) <= log.len(),
        forall|i: int| 0 <= i < insert_point(log, m) ==> message_lt(#[trigger] log[i], m),
        forall|i: int| insert_point(log, m) <= i < log.len() ==> !message_lt(#[trigger] log[i], m),
{
    let n = log.len() as int;
    lemma_split_exists(log, m, n);
    let p = choose|p: int| splits_prefix(log, m, n, p);
    lemma_insert_point_is(log, m, p);
}

spec fn splits_prefix(log: Seq<MessageView>, m: MessageView, n: int, p: int) -> bool {
    &&& 0 <= p <= n
    &&& forall|i: int| 0 <= i < p ==> message_lt(log[i], m)
    &&& forall|i: int| p <= i < n ==> !message_lt(log[i], m)
}

proof fn lemma_split_exists(log: Seq<MessageView>, m: MessageView, n: int)
    requires
        sorted(log),
        0 <= n <= log.len(),
    ensures
        exists|p: int| splits_prefix(log, m, n, p),
    decreases n,
{
    if n == 0 {
        assert(splits_prefix(log, m, n, 0));
    } else {
        let shorter = n - 1;
        lemma_split_exists(log, m, shorter);
        let p = choose|p: int| splits_prefix(log, m, shorter, p);
        if message_lt(log[n - 1], m) {
            assert forall|i: int| 0 <= i < n implies message_lt(log[i], m) by {
                if i < n - 1 {
                    lemma_le_lt(log[i], log[n - 1], m);
                }
            }
            assert(splits_prefix(log, m, n, n));
        } else {
            assert(splits_prefix(log, m, n, p));
        }
    }
}

/// Putting a message in at its insert point keeps a sorted log sorted.
pub proof fn lemma_ordered_insert_sorted(log: Seq<MessageView>, m: MessageView)
    requires
        sorted(log),
    ensures
        sorted(ordered_insert(log, m)),
        ordered_insert(log, m).len() == log.len() + 1,
{
    lemma_insert_point_splits(log, m);
    let p = insert_point(log, m);
    let out = ordered_insert(log, m);
    assert forall|i: int, j: int| 0 <= i < j < out.len() implies message_le(out[i], out[j]) by {
        if j == p {
            assert(out[i] == log[i]);
            lemma_message_lt_total(log[i], m);
        } else if i == p {
            assert(out[j] == log[j - 1]);
        } else {
            let oi = if i < p { i } else { i - 1 };
            let oj = if j < p { j } else { j - 1 };
            assert(out[i] == log[oi]);
            assert(out[j] == log[oj]);
        }
    }
}

impl Message {
    /// Whether this message sorts strictly before `other`.
    pub fn precedes(&self, other: &Message) -> (r: bool)
        ensures
            r == message_lt(self@, other@),
    {
        if self.timestamp != other.timestamp {
            return self.timestamp < other.timestamp;
        }
        if self.sender != other.sender {
            proof {
                lemma_text_lt_total(self.sender@, other.sender@);
            }
            return text_less(&self.sender, &other.sender);
        }
        if self.id != other.id {
            proof {
                lemma_text_lt_total(self.sender@, other.sender@);
                lemma_text_lt_total(self.id@, other.id@);
            }
            return text_less(&self.id, &other.id);
        }
        proof {
            lemma_text_lt_total(self.sender@, other.sender@);
            lemma_text_lt_total(self.id@, other.id@);
        }
        text_less(&self.text, &other.text)
    }
}

/// Finds by bisection where `message` goes into a sorted log.
pub fn find_insert_point(log: &Vec<Message>, message: &Message) -> (pos: usize)
    requires
        sorted(log_view(log@)),
    ensures
        pos == insert_point(log_view(log@), message@),
        pos <= log.len(),
{
    let ghost views = log_view(log@);
    let mut lo: usize = 0;
    let mut hi: usize = log.len();
    while lo < hi
        invariant
            lo <= hi <= log.len(),
            views == log_view(log@),
            sorted(views),
            forall|i: int| 0 <= i < lo ==> message_lt(views[i], message@),
            forall|i: int| hi <= i < views.len() ==> !message_lt(views[i], message@),
        decreases hi - lo,
    {
        let mid = lo + (hi - lo) / 2;
        if log[mid].precedes(message) {
            proof {
                assert forall|i: int| 0 <= i < mid + 1 implies message_lt(views[i], message@) by {
                    if i < mid {
                        lemma_le_lt(views[i], views[mid as int], message@);
                    }
                }
            }
            lo = mid + 1;
        } else {
            proof {
                assert forall|i: int| mid <= i < views.len() implies !message_lt(
                    views[i],
                    message@,
                ) by {
                    if i > mid {
                        lemma_not_lt_le(views[mid as int], views[i], message@);
                    }
                }
            }
            hi = mid;
        }
    }
    proof {
        lemma_insert_point_is(views, message@, lo as int);
    }
    lo
}

/// Puts `message` into a sorted log at its place.
pub fn insert_message(log: &mut Vec<Message>, message: Message)
    requires
        sorted(log_view(old(log)@)),
    ensures
        log_view(final(log)@) == ordered_insert(log_view(old(log)@), message@),
        sorted(log_view(final(log)@)),
        final(log)@.len() == old(log)@.len() + 1,
{
    let pos = find_insert_point(log, &message);
    let ghost before = log_view(log@);
    let ghost m = message@;
    log.insert(pos, message);
    proof {
        assert(log_view(log@) =~= before.insert(pos as int, m));
        lemma_ordered_insert_sorted(before, m);
    }
}

/// The position of the latest message of the log with the id `id`, where
/// there is one.
pub open spec fn last_with_id(log: Seq<MessageView>, id: Seq<char>, n: int) -> int
    decreases n,
{
    if n <= 0 {
        0
    } else if log[n - 1].id == id {
        n - 1
    } else {
        last_with_id(log, id, n - 1)
    }
}

/// The position that a read cursor `id` points at: that of the latest
/// message with this id, and 0 where the log holds none.
pub open spec fn find_position(log: Seq<MessageView>, id: Seq<char>) -> int {
    last_with_id(log, id, log.len() as int)
}

/// The position found is that of a message with the id, and no later message
/// has it; where no message has the id, the position is 0.
pub proof fn lemma_find_position(log: Seq<MessageView>, id: Seq<char>)
    ensures
        0 <= find_position(log, id),
        log.len() > 0 ==> find_position(log, id) < log.len(),
        log.len() == 0 ==> find_position(log, id) == 0,
        (exists|i: int| 0 <= i < log.len() && log[i].id == id) ==> {
            &&& log[find_position(log, id)].id == id
            &&& forall|j: int| find_position(log, id) < j < log.len() ==> log[j].id != id
        },
        (forall|i: int| 0 <= i < log.len() ==> log[i].id != id) ==> find_position(log, id) == 0,
{
    lemma_last_with_id(log, id, log.len() as int);
}

proof fn lemma_last_with_id(log: Seq<MessageView>, id: Seq<char>, n: int)
    requires
        0 <= n <= log.len(),
    ensures
        0 <= last_with_id(log, id, n),
        n > 0 ==> last_with_id(log, id, n) < n,
        (exists|i: int| 0 <= i < n && log[i].id == id) ==> {
            &&& log[last_with_id(log, id, n)].id == id
            &&& forall|j: int| last_with_id(log, id, n) < j < n ==> log[j].id != id
        },
        (forall|i: int| 0 <= i < n ==> log[i].id != id) ==> last_with_id(log, id, n) == 0,
    decreases n,
{
    if n > 0 {
        lemma_last_with_id(log, id, n - 1);
        if log[n - 1].id != id {
            if exists|i: int| 0 <= i < n && log[i].id == id {
                let i = choose|i: int| 0 <= i < n && log[i].id == id;
                assert(0 <= i < n - 1 && log[i].id == id);
            }
        }
    }
}

/// Scans the log from its end for the message with the id `message_id`.
pub fn find_message_pos(messages: &Vec<Message>, message_id: &String) -> (pos: usize)
    ensures
        pos == find_position(log_view(messages@), message_id@),
{
    let ghost views = log_view(messages@);
    let mut i: usize = messages.len();
    while i > 0
        invariant
            i <= messages.len(),
            views == log_view(messages@),
            find_position(views, message_id@) == last_with_id(views, message_id@, i as int),
        decreases i,
    {
        i -= 1;
        if messages[i].id == *message_id {
            return i;
        }
    }
    0
}

} // verus!
