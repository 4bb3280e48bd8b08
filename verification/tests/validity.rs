use curb::chats::ChatTable;
use curb::conversation::{Channel, ChannelInfo};
use curb::curb::{Context, Curb};
use curb::message::Message;
use curb::names::{StrSet, Table};
use curb::validity::{is_sorted, same_names};

fn s(x: &str) -> String {
    x.to_string()
}

fn ctx(caller: &str, now: u64) -> Context {
    Context { caller: s(caller), key: vec![7], now }
}

fn msg(timestamp: u64, id: &str) -> Message {
    Message { timestamp, sender: s("m"), id: s(id), text: s("") }
}

fn busy() -> Curb {
    let mut curb = Curb::new(s("curb"), 1);
    curb.join(&ctx("m.near", 10)).unwrap();
    curb.join(&ctx("n.near", 11)).unwrap();
    curb.create_group(&ctx("m.near", 12), &Channel { name: s("dev") }).unwrap();
    let general = Some(Channel { name: s("general") });
    curb.send_message(&ctx("m.near", 13), None, general.clone(), s("b"), 13, None).unwrap();
    curb.send_message(&ctx("n.near", 14), None, general, s("a"), 5, None).unwrap();
    curb.send_message(&ctx("n.near", 15), Some(s("m.near")), None, s("c"), 15, None).unwrap();
    curb.send_message(&ctx("n.near", 16), Some(s("m.near")), None, s("r"), 16, Some(s("p")))
        .unwrap();
    curb.toggle_reaction(&ctx("m.near", 17), s("p"), s("like"));
    curb
}

#[test]
fn states_made_by_the_operations_are_well_formed() {
    assert!(Curb::new(s("curb"), 1).is_well_formed());
    let mut curb = busy();
    assert!(curb.is_well_formed());
    curb.leave_group(&ctx("m.near", 20), &Channel { name: s("dev") }).unwrap();
    assert!(curb.is_well_formed());
    curb.ping(&ctx("x.near", 21));
    assert!(curb.is_well_formed());
}

#[test]
fn an_unsorted_log_is_not_well_formed() {
    let mut curb = busy();
    curb.channels.vals[0].messages.swap(0, 1);
    assert!(!curb.has_proper_contents());
    assert!(!curb.is_well_formed());
}

#[test]
fn a_one_sided_membership_is_not_well_formed() {
    let mut curb = busy();
    curb.channel_members.vals[1].items.push(s("n.near"));
    assert!(curb.has_proper_tables());
    assert!(curb.has_proper_contents());
    assert!(!curb.is_mirrored());
    assert!(!curb.is_well_formed());

    let mut curb = busy();
    curb.member_channels.vals[1].items.push(s("dev"));
    assert!(!curb.is_mirrored());

    let mut curb = busy();
    curb.member_channels.add(s("x.near"), StrSet::new());
    assert!(!curb.is_mirrored());
}

#[test]
fn a_repeated_name_is_not_well_formed() {
    let mut curb = busy();
    curb.members.keys.items.push(s("m.near"));
    curb.members.vals.push(3);
    assert!(!curb.has_proper_tables());
    assert!(!curb.is_well_formed());

    let mut set = StrSet::new();
    set.items = vec![s("a"), s("b"), s("a")];
    assert!(!set.is_well_formed());
    set.items = vec![s("a"), s("b"), s("c")];
    assert!(set.is_well_formed());
}

#[test]
fn tables_that_go_together_must_agree() {
    let mut curb = busy();
    curb.channel_members.keys.items.swap(0, 1);
    assert!(!curb.has_proper_tables());

    let mut table: Table<u64> = Table::new();
    table.keys.items.push(s("a"));
    assert!(!table.is_well_formed());
    table.vals.push(1);
    assert!(table.is_well_formed());
}

#[test]
fn a_channel_without_its_member_set_is_not_well_formed() {
    let mut curb = Curb::new(s("curb"), 1);
    curb.channels.add(s("general"), ChannelInfo::new(true, 1, s("m")));
    assert!(!curb.has_proper_tables());
    assert!(!curb.is_well_formed());
    curb.channel_members.add(s("general"), StrSet::new());
    assert!(curb.has_proper_tables());
    assert!(curb.is_mirrored());
    assert!(curb.is_well_formed());
}

#[test]
fn chats_under_one_pair_twice_are_not_well_formed() {
    let mut chats = ChatTable::new();
    chats.add(s("a"), s("b"), ChannelInfo::new(false, 1, s("a")));
    chats.add(s("a"), s("c"), ChannelInfo::new(false, 1, s("a")));
    assert!(chats.is_well_formed());
    chats.highs[1] = s("b");
    assert!(!chats.is_well_formed());
    chats.highs.pop();
    assert!(!chats.is_well_formed());
}

#[test]
fn sortedness_is_told_from_neighbours() {
    assert!(is_sorted(&vec![]));
    assert!(is_sorted(&vec![msg(1, "a")]));
    assert!(is_sorted(&vec![msg(1, "a"), msg(1, "a"), msg(2, "a")]));
    assert!(!is_sorted(&vec![msg(1, "a"), msg(3, "a"), msg(2, "a")]));
    assert!(!is_sorted(&vec![msg(1, "b"), msg(1, "a")]));
    let mut info = ChannelInfo::new(true, 1, s("m"));
    info.messages = vec![msg(2, "a"), msg(1, "a")];
    assert!(!info.is_well_formed());
}

#[test]
fn lists_are_the_same_if_each_name_is() {
    assert!(same_names(&vec![], &vec![]));
    assert!(same_names(&vec![s("a"), s("b")], &vec![s("a"), s("b")]));
    assert!(!same_names(&vec![s("a"), s("b")], &vec![s("b"), s("a")]));
    assert!(!same_names(&vec![s("a")], &vec![s("a"), s("b")]));
}
