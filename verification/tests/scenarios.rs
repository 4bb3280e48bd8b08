use curb::conversation::{Channel, ChannelInfo, UnreadMessage};
use curb::curb::{Context, Curb, Error};
use curb::digest::make_message_id;
use curb::message::Message;
use curb::queries::{page_bounds, MessageWithReactionsAndThread};

fn s(x: &str) -> String {
    x.to_string()
}

fn ctx(caller: &str, now: u64) -> Context {
    Context { caller: s(caller), key: caller.as_bytes().to_vec(), now }
}

fn channel(name: &str) -> Channel {
    Channel { name: s(name) }
}

fn general() -> Option<Channel> {
    Some(channel("general"))
}

fn texts(page: &Vec<MessageWithReactionsAndThread>) -> Vec<String> {
    page.iter().map(|m| m.text.clone()).collect()
}

fn names(groups: &Vec<Channel>) -> Vec<String> {
    groups.iter().map(|c| c.name.clone()).collect()
}

fn two_members() -> Curb {
    let mut curb = Curb::new(s("curb"), 1);
    assert_eq!(curb.join(&ctx("m.near", 10)), Ok(()));
    assert_eq!(curb.join(&ctx("n.near", 20)), Ok(()));
    curb
}

#[test]
fn first_member_creates_the_default_channel() {
    let mut curb = Curb::new(s("curb"), 1);
    assert!(curb.get_groups(None).is_empty());
    assert_eq!(curb.join(&ctx("m.near", 10)), Ok(()));
    assert_eq!(names(&curb.get_groups(None)), vec![s("general")]);
    assert_eq!(names(&curb.get_groups(Some(s("m.near")))), vec![s("general")]);
    let members = curb.get_members(general(), 10);
    assert_eq!(members.len(), 1);
    assert_eq!(members[0].id, "m.near");
    assert!(members[0].active);
    let meta = curb.channel_info(&channel("general")).unwrap();
    assert_eq!(meta.created_at, 10);
    assert_eq!(meta.created_by, "m.near");
}

#[test]
fn message_to_general_is_listed_and_unread_for_a_newcomer() {
    let mut curb = Curb::new(s("curb"), 1);
    assert_eq!(curb.join(&ctx("m.near", 10)), Ok(()));
    assert_eq!(curb.send_message(&ctx("m.near", 100), None, general(), s("hi"), 100, None), Ok(()));
    let page = curb.get_messages(None, general(), None, None).unwrap();
    assert_eq!(page.len(), 1);
    assert_eq!(page[0].text, "hi");
    assert_eq!(page[0].sender, "m.near");
    assert_eq!(page[0].timestamp, 100);
    assert_eq!(page[0].id, make_message_id(&s("m.near"), &s("general"), &s("hi"), 100));
    assert_eq!(page[0].reactions, None);
    assert!(page[0].thread.is_empty());

    assert_eq!(curb.join(&ctx("n.near", 200)), Ok(()));
    assert_eq!(names(&curb.get_groups(Some(s("n.near")))), vec![s("general")]);
    let unread = curb.unread_messages(&s("n.near"));
    assert_eq!(unread.channels.len(), 1);
    assert_eq!(unread.channels[0].0, "general");
    assert_eq!(unread.channels[0].1, UnreadMessage { count: 1, last_seen: None });
    assert!(unread.chats.is_empty());
    assert!(unread.threads.is_empty());

    let own = curb.unread_messages(&s("m.near"));
    assert_eq!(own.channels[0].1, UnreadMessage { count: 0, last_seen: Some(page[0].id.clone()) });
}

#[test]
fn direct_messages_read_the_same_from_both_sides() {
    let mut curb = two_members();
    assert_eq!(
        curb.send_message(&ctx("m.near", 30), Some(s("n.near")), None, s("hello"), 30, None),
        Ok(())
    );
    assert_eq!(
        curb.send_message(&ctx("n.near", 40), Some(s("m.near")), None, s("hey"), 40, None),
        Ok(())
    );
    assert_eq!(
        curb.send_message(&ctx("m.near", 50), Some(s("n.near")), None, s("early"), 35, None),
        Ok(())
    );
    let one = curb.get_messages(Some((s("m.near"), s("n.near"))), None, None, None).unwrap();
    let other = curb.get_messages(Some((s("n.near"), s("m.near"))), None, None, None).unwrap();
    assert_eq!(one, other);
    assert_eq!(texts(&one), vec![s("hello"), s("early"), s("hey")]);
    assert_eq!(one[0].id, make_message_id(&s("m.near"), &s("n.near"), &s("hello"), 30));
    assert_eq!(one[2].id, make_message_id(&s("n.near"), &s("m.near"), &s("hey"), 40));
    assert_eq!(curb.chats.len(), 1);
    assert_eq!(curb.chats.lows[0], "m.near");
    assert_eq!(curb.chats.highs[0], "n.near");
    assert!(!curb.chats.infos[0].is_public);
    assert_eq!(curb.chats.infos[0].meta.created_at, 30);
    assert_eq!(curb.chats.infos[0].meta.created_by, "m.near");
}

#[test]
fn reply_is_found_in_the_thread_of_its_parent() {
    let mut curb = two_members();
    assert_eq!(curb.send_message(&ctx("m.near", 30), None, general(), s("x"), 30, None), Ok(()));
    let parent = make_message_id(&s("m.near"), &s("general"), &s("x"), 30);
    assert_eq!(
        curb.send_message(
            &ctx("n.near", 40),
            None,
            general(),
            s("reply"),
            40,
            Some(parent.clone())
        ),
        Ok(())
    );
    let page = curb.get_messages(None, general(), None, None).unwrap();
    assert_eq!(texts(&page), vec![s("x")]);
    assert_eq!(page[0].thread.len(), 1);
    assert_eq!(page[0].thread[0].text, "reply");
    assert_eq!(page[0].thread[0].sender, "n.near");
    assert_eq!(
        page[0].thread[0].id,
        make_message_id(&s("n.near"), &s("general"), &s("reply"), 40)
    );
    assert_eq!(curb.threads.find(&parent), Some(0));
    assert_eq!(curb.threads.vals[0].len(), 1);
    // A reply moves no cursor: the one message of the channel is unread for n.
    assert_eq!(curb.unread_messages(&s("n.near")).channels[0].1.count, 1);
}

#[test]
fn reply_to_an_unknown_parent_is_kept() {
    let mut curb = two_members();
    assert_eq!(
        curb.send_message(&ctx("m.near", 30), Some(s("n.near")), None, s("r"), 30, Some(s("none"))),
        Ok(())
    );
    assert_eq!(curb.threads.find(&s("none")), Some(0));
    assert_eq!(curb.threads.vals[0][0].text, "r");
    assert_eq!(curb.chats.len(), 0);
}

#[test]
fn channel_is_removed_when_its_last_member_leaves() {
    let mut curb = two_members();
    assert_eq!(curb.create_group(&ctx("m.near", 30), &channel("dev")), Ok(()));
    assert_eq!(curb.join_group(&ctx("n.near", 31), &channel("dev")), Ok(()));
    assert_eq!(names(&curb.get_groups(None)), vec![s("general"), s("dev")]);
    assert_eq!(curb.leave_group(&ctx("m.near", 32), &channel("dev")), Ok(()));
    assert_eq!(names(&curb.get_groups(None)), vec![s("general"), s("dev")]);
    assert_eq!(curb.get_members(Some(channel("dev")), 32).len(), 1);
    assert_eq!(curb.leave_group(&ctx("n.near", 33), &channel("dev")), Ok(()));
    assert_eq!(names(&curb.get_groups(None)), vec![s("general")]);
    assert_eq!(names(&curb.get_groups(Some(s("m.near")))), vec![s("general")]);
    assert_eq!(names(&curb.get_groups(Some(s("n.near")))), vec![s("general")]);
    assert!(curb.get_members(Some(channel("dev")), 33).is_empty());
    assert_eq!(curb.channel_info(&channel("dev")), None);
    assert_eq!(curb.channel_members.len(), 1);
    assert_eq!(curb.join_group(&ctx("n.near", 34), &channel("dev")), Err(Error::NotFound));
}

#[test]
fn default_channel_outlives_its_members() {
    let mut curb = two_members();
    assert_eq!(curb.leave_group(&ctx("m.near", 30), &channel("general")), Ok(()));
    assert_eq!(curb.leave_group(&ctx("n.near", 31), &channel("general")), Ok(()));
    assert_eq!(names(&curb.get_groups(None)), vec![s("general")]);
    assert!(curb.get_members(general(), 31).is_empty());
    assert!(curb.get_groups(Some(s("m.near"))).is_empty());
    assert_eq!(curb.join_group(&ctx("m.near", 32), &channel("general")), Ok(()));
    assert_eq!(curb.get_members(general(), 32).len(), 1);
}

#[test]
fn membership_is_kept_on_both_sides() {
    let mut curb = two_members();
    assert_eq!(curb.create_group(&ctx("m.near", 30), &channel("dev")), Ok(()));
    assert_eq!(curb.group_invite(&ctx("m.near", 31), &channel("dev"), &s("n.near")), Ok(()));
    assert_eq!(curb.join_group(&ctx("n.near", 32), &channel("dev")), Ok(()));
    let ids: Vec<String> =
        curb.get_members(Some(channel("dev")), 32).into_iter().map(|u| u.id).collect();
    assert_eq!(ids, vec![s("m.near"), s("n.near")]);
    assert_eq!(names(&curb.get_groups(Some(s("n.near")))), vec![s("general"), s("dev")]);
    assert_eq!(curb.leave_group(&ctx("n.near", 33), &channel("dev")), Ok(()));
    let ids: Vec<String> =
        curb.get_members(Some(channel("dev")), 33).into_iter().map(|u| u.id).collect();
    assert_eq!(ids, vec![s("m.near")]);
    assert_eq!(names(&curb.get_groups(Some(s("n.near")))), vec![s("general")]);
}

#[test]
fn joining_twice_is_rejected() {
    let mut curb = two_members();
    assert_eq!(curb.join(&ctx("m.near", 30)), Err(Error::AlreadyMember));
    assert_eq!(curb.get_members(None, 30).len(), 2);
    assert_eq!(curb.get_members(general(), 30).len(), 2);
}

#[test]
fn first_to_join_creates_the_default_channel_though_a_stranger_was_seen() {
    let mut curb = Curb::new(s("curb"), 1);
    curb.ping(&ctx("x.near", 5));
    assert!(curb.get_groups(None).is_empty());
    assert_eq!(curb.join(&ctx("m.near", 10)), Ok(()));
    assert_eq!(names(&curb.get_groups(None)), vec![s("general")]);
    assert_eq!(curb.channel_info(&channel("general")).unwrap().created_by, "m.near");
    let seen: Vec<String> = curb.get_members(None, 10).into_iter().map(|u| u.id).collect();
    assert_eq!(seen, vec![s("x.near"), s("m.near")]);
    let inside: Vec<String> = curb.get_members(general(), 10).into_iter().map(|u| u.id).collect();
    assert_eq!(inside, vec![s("m.near")]);
}

#[test]
fn an_account_that_was_only_seen_cannot_join_or_enter_channels() {
    let mut curb = two_members();
    curb.ping(&ctx("x.near", 5));
    assert_eq!(curb.join(&ctx("x.near", 10)), Err(Error::AlreadyMember));
    assert_eq!(curb.join_group(&ctx("x.near", 11), &channel("general")), Err(Error::NotAMember));
    assert_eq!(curb.create_group(&ctx("x.near", 12), &channel("dev")), Err(Error::NotAMember));
    assert_eq!(
        curb.group_invite(&ctx("m.near", 13), &channel("general"), &s("x.near")),
        Err(Error::NotAMember)
    );
    assert_eq!(
        curb.send_message(&ctx("x.near", 14), None, general(), s("t"), 14, None),
        Err(Error::NotAMember)
    );
    assert_eq!(
        curb.send_message(&ctx("x.near", 15), Some(s("m.near")), None, s("t"), 15, None),
        Ok(())
    );
    assert!(curb.get_groups(Some(s("x.near"))).is_empty());
}

#[test]
fn creating_a_channel_is_rejected_for_each_reason() {
    let mut curb = two_members();
    assert_eq!(curb.create_group(&ctx("m.near", 30), &channel("")), Err(Error::InvalidArgument));
    assert_eq!(
        curb.create_group(&ctx("m.near", 30), &channel("general")),
        Err(Error::AlreadyExists)
    );
    assert_eq!(curb.create_group(&ctx("x.near", 30), &channel("dev")), Err(Error::NotAMember));
    assert_eq!(curb.create_group(&ctx("x.near", 30), &channel("")), Err(Error::InvalidArgument));
    assert_eq!(names(&curb.get_groups(None)), vec![s("general")]);
    assert_eq!(curb.get_members(None, 30).len(), 2);
    assert_eq!(curb.create_group(&ctx("m.near", 30), &channel("dev")), Ok(()));
    let meta = curb.channel_info(&channel("dev")).unwrap();
    assert_eq!(meta.created_at, 30);
    assert_eq!(meta.created_by, "m.near");
    assert_eq!(curb.get_members(Some(channel("dev")), 30).len(), 1);
    assert_eq!(names(&curb.get_groups(Some(s("m.near")))), vec![s("general"), s("dev")]);
}

#[test]
fn group_calls_are_rejected_for_unknown_channels_and_strangers() {
    let mut curb = two_members();
    assert_eq!(curb.join_group(&ctx("m.near", 30), &channel("dev")), Err(Error::NotFound));
    assert_eq!(curb.leave_group(&ctx("m.near", 30), &channel("dev")), Err(Error::NotFound));
    assert_eq!(
        curb.group_invite(&ctx("m.near", 30), &channel("dev"), &s("n.near")),
        Err(Error::NotFound)
    );
    assert_eq!(curb.join_group(&ctx("x.near", 30), &channel("general")), Err(Error::NotAMember));
    assert_eq!(curb.leave_group(&ctx("x.near", 30), &channel("general")), Err(Error::NotAMember));
    assert_eq!(
        curb.group_invite(&ctx("m.near", 30), &channel("general"), &s("x.near")),
        Err(Error::NotAMember)
    );
    assert_eq!(curb.get_members(None, 30).len(), 2);
    // A rejected call records no activity: m was last seen when it joined.
    assert_eq!(curb.members.vals[0], 10);
}

#[test]
fn sending_is_rejected_for_each_reason() {
    let mut curb = two_members();
    let c = ctx("m.near", 30);
    assert_eq!(
        curb.send_message(&ctx("x.near", 30), None, general(), s("t"), 30, None),
        Err(Error::NotAMember)
    );
    assert_eq!(curb.send_message(&c, None, None, s("t"), 30, None), Err(Error::InvalidArgument));
    assert_eq!(
        curb.send_message(&c, Some(s("n.near")), general(), s("t"), 30, None),
        Err(Error::InvalidArgument)
    );
    assert_eq!(
        curb.send_message(&c, Some(s("x.near")), None, s("t"), 30, None),
        Err(Error::NotAMember)
    );
    assert_eq!(
        curb.send_message(&c, None, Some(channel("dev")), s("t"), 30, None),
        Err(Error::NotFound)
    );
    assert_eq!(curb.leave_group(&ctx("n.near", 31), &channel("general")), Ok(()));
    assert_eq!(
        curb.send_message(&ctx("n.near", 32), None, general(), s("t"), 32, None),
        Err(Error::NotAMember)
    );
    assert!(curb.get_messages(None, general(), None, None).unwrap().is_empty());
    assert_eq!(curb.chats.len(), 0);
    assert_eq!(curb.threads.len(), 0);
    assert_eq!(curb.members.vals[0], 10);
}

#[test]
fn sending_records_activity() {
    let mut curb = two_members();
    assert_eq!(curb.send_message(&ctx("m.near", 77), None, general(), s("t"), 5, None), Ok(()));
    assert_eq!(curb.members.vals[0], 77);
    assert_eq!(curb.members.vals[1], 20);
    assert_eq!(curb.get_keys(&s("m.near")), vec![b"m.near".to_vec()]);
}

#[test]
fn channel_log_is_kept_in_order_of_timestamps() {
    let mut curb = two_members();
    for (who, text, t) in
        [("m.near", "c", 30), ("n.near", "a", 10), ("m.near", "b", 20), ("n.near", "d", 30)]
    {
        assert_eq!(curb.send_message(&ctx(who, 100), None, general(), s(text), t, None), Ok(()));
    }
    let page = curb.get_messages(None, general(), None, None).unwrap();
    assert_eq!(texts(&page), vec![s("a"), s("b"), s("c"), s("d")]);
    let log = &curb.channels.vals[0].messages;
    assert!(log.windows(2).all(|w| w[0] <= w[1]));
}

#[test]
fn unread_is_zero_after_reading_the_latest_message() {
    let mut curb = two_members();
    for t in [30, 31, 32] {
        assert_eq!(
            curb.send_message(&ctx("m.near", t), None, general(), s("t"), t, None),
            Ok(())
        );
    }
    assert_eq!(curb.unread_messages(&s("n.near")).channels[0].1.count, 3);
    let last = make_message_id(&s("m.near"), &s("general"), &s("t"), 32);
    assert_eq!(curb.read_message(&ctx("n.near", 40), None, general(), last.clone()), Ok(()));
    let unread = curb.unread_messages(&s("n.near"));
    assert_eq!(unread.channels[0].1, UnreadMessage { count: 0, last_seen: Some(last) });
}

#[test]
fn unread_counts_what_lies_behind_the_cursor() {
    let mut curb = two_members();
    for t in [30, 31, 32, 33] {
        assert_eq!(
            curb.send_message(&ctx("m.near", t), None, general(), s("t"), t, None),
            Ok(())
        );
    }
    let second = make_message_id(&s("m.near"), &s("general"), &s("t"), 31);
    assert_eq!(curb.read_message(&ctx("n.near", 40), None, general(), second), Ok(()));
    assert_eq!(curb.unread_messages(&s("n.near")).channels[0].1.count, 2);
}

#[test]
fn cursor_may_move_backwards() {
    let mut curb = two_members();
    for t in [30, 31, 32] {
        assert_eq!(
            curb.send_message(&ctx("m.near", t), None, general(), s("t"), t, None),
            Ok(())
        );
    }
    assert_eq!(curb.unread_messages(&s("m.near")).channels[0].1.count, 0);
    let first = make_message_id(&s("m.near"), &s("general"), &s("t"), 30);
    assert_eq!(curb.read_message(&ctx("m.near", 40), None, general(), first), Ok(()));
    assert_eq!(curb.unread_messages(&s("m.near")).channels[0].1.count, 2);
}

#[test]
fn unknown_cursor_counts_as_the_first_message() {
    let mut curb = two_members();
    for t in [30, 31, 32] {
        assert_eq!(
            curb.send_message(&ctx("m.near", t), None, general(), s("t"), t, None),
            Ok(())
        );
    }
    assert_eq!(curb.read_message(&ctx("n.near", 40), None, general(), s("stale")), Ok(()));
    let unread = curb.unread_messages(&s("n.near"));
    assert_eq!(unread.channels[0].1, UnreadMessage { count: 2, last_seen: Some(s("stale")) });
}

#[test]
fn cursor_on_an_empty_log_leaves_nothing_unread() {
    let mut curb = two_members();
    assert_eq!(curb.read_message(&ctx("n.near", 40), None, general(), s("any")), Ok(()));
    let unread = curb.unread_messages(&s("n.near"));
    assert_eq!(unread.channels[0].1, UnreadMessage { count: 0, last_seen: Some(s("any")) });
}

#[test]
fn unread_chats_are_listed_under_the_other_party() {
    let mut curb = two_members();
    assert_eq!(curb.join(&ctx("o.near", 25)), Ok(()));
    assert_eq!(
        curb.send_message(&ctx("n.near", 30), Some(s("m.near")), None, s("a"), 30, None),
        Ok(())
    );
    assert_eq!(
        curb.send_message(&ctx("n.near", 31), Some(s("o.near")), None, s("b"), 31, None),
        Ok(())
    );
    assert_eq!(
        curb.send_message(&ctx("o.near", 32), Some(s("n.near")), None, s("c"), 32, None),
        Ok(())
    );
    let m = curb.unread_messages(&s("m.near"));
    assert_eq!(m.chats.len(), 1);
    assert_eq!(m.chats[0].0, "n.near");
    assert_eq!(m.chats[0].1, UnreadMessage { count: 1, last_seen: None });
    let n = curb.unread_messages(&s("n.near"));
    let others: Vec<String> = n.chats.iter().map(|e| e.0.clone()).collect();
    assert_eq!(others, vec![s("m.near"), s("o.near")]);
    assert_eq!(n.chats[0].1.count, 0);
    assert_eq!(n.chats[1].1.count, 1);
    let o = curb.unread_messages(&s("o.near"));
    assert_eq!(o.chats.len(), 1);
    assert_eq!(o.chats[0].0, "n.near");
    assert_eq!(o.chats[0].1.count, 0);
}

#[test]
fn reading_is_rejected_for_each_reason() {
    let mut curb = two_members();
    let c = ctx("m.near", 30);
    assert_eq!(curb.read_message(&c, None, None, s("id")), Err(Error::InvalidArgument));
    assert_eq!(curb.read_message(&c, Some(s("n.near")), None, s("id")), Err(Error::NotFound));
    assert_eq!(
        curb.read_message(&c, None, Some(channel("dev")), s("id")),
        Err(Error::NotFound)
    );
    assert_eq!(curb.unread_messages(&s("m.near")).channels[0].1.last_seen, None);
}

#[test]
fn reading_a_chat_moves_only_the_readers_cursor() {
    let mut curb = two_members();
    assert_eq!(
        curb.send_message(&ctx("m.near", 30), Some(s("n.near")), None, s("a"), 30, None),
        Ok(())
    );
    let id = make_message_id(&s("m.near"), &s("n.near"), &s("a"), 30);
    assert_eq!(curb.unread_messages(&s("n.near")).chats[0].1.count, 1);
    assert_eq!(curb.read_message(&ctx("n.near", 31), Some(s("m.near")), None, id.clone()), Ok(()));
    assert_eq!(
        curb.unread_messages(&s("n.near")).chats[0].1,
        UnreadMessage { count: 0, last_seen: Some(id.clone()) }
    );
    assert_eq!(
        curb.unread_messages(&s("m.near")).chats[0].1,
        UnreadMessage { count: 0, last_seen: Some(id) }
    );
}

#[test]
fn toggling_twice_restores_the_reactors() {
    let mut curb = two_members();
    curb.toggle_reaction(&ctx("n.near", 30), s("id"), s("like"));
    let before = curb.reactions.vals[0].vals[0].to_vec();
    assert_eq!(before, vec![s("n.near")]);
    curb.toggle_reaction(&ctx("m.near", 31), s("id"), s("like"));
    assert_eq!(curb.reactions.vals[0].vals[0].to_vec(), vec![s("n.near"), s("m.near")]);
    curb.toggle_reaction(&ctx("m.near", 32), s("id"), s("like"));
    assert_eq!(curb.reactions.vals[0].vals[0].to_vec(), before);
}

#[test]
fn reactions_are_shown_with_the_message() {
    let mut curb = two_members();
    assert_eq!(curb.send_message(&ctx("m.near", 30), None, general(), s("x"), 30, None), Ok(()));
    let id = make_message_id(&s("m.near"), &s("general"), &s("x"), 30);
    curb.toggle_reaction(&ctx("n.near", 31), id.clone(), s("like"));
    curb.toggle_reaction(&ctx("m.near", 32), id.clone(), s("like"));
    curb.toggle_reaction(&ctx("m.near", 33), id.clone(), s("wow"));
    curb.toggle_reaction(&ctx("m.near", 34), id.clone(), s("wow"));
    let page = curb.get_messages(None, general(), None, None).unwrap();
    assert_eq!(
        page[0].reactions,
        Some(vec![(s("like"), vec![s("n.near"), s("m.near")]), (s("wow"), vec![])])
    );
    assert_eq!(curb.members.vals[0], 34);
}

#[test]
fn pages_are_cut_by_offset_and_length() {
    let mut curb = two_members();
    for (i, text) in ["a", "b", "c", "d", "e"].iter().enumerate() {
        let t = 30 + i as u64;
        assert_eq!(curb.send_message(&ctx("m.near", t), None, general(), s(text), t, None), Ok(()));
    }
    let page = |offset, length| curb.get_messages(None, general(), offset, length);
    assert_eq!(texts(&page(None, None).unwrap()), vec!["a", "b", "c", "d", "e"]);
    assert_eq!(texts(&page(Some(1), Some(2)).unwrap()), vec!["b", "c"]);
    assert_eq!(texts(&page(None, Some(2)).unwrap()), vec!["a", "b"]);
    assert_eq!(texts(&page(Some(3), Some(10)).unwrap()), vec!["d", "e"]);
    assert_eq!(texts(&page(Some(3), Some(usize::MAX)).unwrap()), vec!["d", "e"]);
    assert_eq!(texts(&page(Some(5), Some(1)).unwrap()), Vec::<String>::new());
    assert_eq!(texts(&page(Some(0), Some(0)).unwrap()), Vec::<String>::new());
    assert_eq!(texts(&page(Some(1), None).unwrap()), vec!["b", "c", "d"]);
    assert_eq!(texts(&page(Some(2), None).unwrap()), vec!["c"]);
    assert_eq!(page(Some(3), None), Err(Error::InvalidArgument));
    assert_eq!(page(Some(6), Some(1)), Err(Error::InvalidArgument));
    assert_eq!(page(Some(6), None), Err(Error::InvalidArgument));
}

#[test]
fn messages_of_an_unknown_conversation_are_none() {
    let curb = two_members();
    assert_eq!(curb.get_messages(None, Some(channel("dev")), Some(9), None), Ok(vec![]));
    assert_eq!(
        curb.get_messages(Some((s("m.near"), s("n.near"))), None, None, Some(3)),
        Ok(vec![])
    );
    assert_eq!(curb.get_messages(None, None, None, None), Err(Error::InvalidArgument));
}

#[test]
fn members_are_active_for_thirty_seconds() {
    let mut curb = two_members();
    curb.ping(&ctx("n.near", 1000));
    let at = |now| -> Vec<(String, bool)> {
        curb.get_members(None, now).into_iter().map(|u| (u.id, u.active)).collect()
    };
    assert_eq!(at(1000), vec![(s("m.near"), true), (s("n.near"), true)]);
    assert_eq!(at(30_009), vec![(s("m.near"), true), (s("n.near"), true)]);
    assert_eq!(at(30_010), vec![(s("m.near"), false), (s("n.near"), true)]);
    assert_eq!(at(30_999), vec![(s("m.near"), false), (s("n.near"), true)]);
    assert_eq!(at(31_000), vec![(s("m.near"), false), (s("n.near"), false)]);
    assert!(Curb::is_active(5, 9));
    assert!(Curb::is_active(u64::MAX, u64::MAX - 29_999));
    assert!(!Curb::is_active(u64::MAX, u64::MAX - 30_000));
}

#[test]
fn keys_are_those_last_seen() {
    let mut curb = two_members();
    assert_eq!(curb.get_keys(&s("m.near")), vec![b"m.near".to_vec()]);
    assert!(curb.get_keys(&s("x.near")).is_empty());
    curb.ping(&Context { caller: s("m.near"), key: vec![1, 2, 3], now: 50 });
    assert_eq!(curb.get_keys(&s("m.near")), vec![vec![1, 2, 3]]);
    assert_eq!(curb.get_keys(&s("n.near")), vec![b"n.near".to_vec()]);
}

#[test]
fn name_and_creation_time_are_kept() {
    let curb = Curb::new(s("my curb"), 12345);
    assert_eq!(curb.get_name(), "my curb");
    assert_eq!(curb.created_at(), 12345);
    assert_eq!(Curb::default_channel(), channel("general"));
    assert!(curb.get_members(None, 0).is_empty());
    assert_eq!(curb.unread_messages(&s("m.near")).channels.len(), 0);
}

#[test]
fn conversation_posts_in_order_and_moves_the_senders_cursor() {
    let mut info = ChannelInfo::new(true, 1, s("m"));
    let m = |t: u64, id: &str| Message { timestamp: t, sender: s("m"), id: s(id), text: s("") };
    info.post(m(2, "b"));
    info.post(m(1, "a"));
    assert_eq!(info.messages[0].id, "a");
    assert_eq!(info.find_last_seen_pos(&s("m")), 1);
    assert_eq!(info.unread_for(&s("m")), UnreadMessage { count: 1, last_seen: Some(s("a")) });
    assert_eq!(info.find_last_seen_pos(&s("n")), 0);
    assert_eq!(info.unread_for(&s("n")), UnreadMessage { count: 2, last_seen: None });
    info.mark_read(s("n"), s("b"));
    assert_eq!(info.unread_for(&s("n")), UnreadMessage { count: 0, last_seen: Some(s("b")) });
}

#[test]
fn thread_is_read_without_being_made() {
    let mut curb = two_members();
    assert!(curb.get_thread(&s("p")).is_empty());
    assert_eq!(curb.threads.len(), 0);
    let reply = |t: u64, text: &str| Message {
        timestamp: t,
        sender: s("n.near"),
        id: s(text),
        text: s(text),
    };
    curb.append_reply(s("p"), reply(5, "late"));
    curb.append_reply(s("p"), reply(3, "early"));
    curb.append_reply(s("q"), reply(4, "other"));
    let thread: Vec<String> = curb.get_thread(&s("p")).into_iter().map(|m| m.text).collect();
    assert_eq!(thread, vec![s("early"), s("late")]);
    assert_eq!(curb.get_thread(&s("q")).len(), 1);
    assert_eq!(curb.threads.len(), 2);
}

#[test]
fn reactions_are_none_until_one_is_put_on() {
    let mut curb = two_members();
    assert_eq!(curb.reactions_for(&s("id")), None);
    curb.toggle_reaction(&ctx("m.near", 30), s("id"), s("like"));
    assert_eq!(curb.reactions_for(&s("id")), Some(vec![(s("like"), vec![s("m.near")])]));
    curb.toggle_reaction(&ctx("m.near", 31), s("id"), s("like"));
    assert_eq!(curb.reactions_for(&s("id")), Some(vec![(s("like"), vec![])]));
    assert_eq!(curb.reactions_for(&s("other")), None);
}

#[test]
fn page_bounds_follow_offset_and_length() {
    assert_eq!(page_bounds(5, None, None), Some((0, 5)));
    assert_eq!(page_bounds(5, Some(1), Some(2)), Some((1, 3)));
    assert_eq!(page_bounds(5, Some(4), Some(usize::MAX)), Some((4, 5)));
    assert_eq!(page_bounds(5, Some(usize::MAX), Some(usize::MAX)), None);
    assert_eq!(page_bounds(5, Some(2), None), Some((2, 3)));
    assert_eq!(page_bounds(5, Some(3), None), None);
    assert_eq!(page_bounds(0, None, None), Some((0, 0)));
    assert_eq!(page_bounds(0, Some(1), Some(1)), None);
}
