use curb::digest::{hex_encode, make_message_id, preimage_bytes, timestamp_bytes};

fn s(x: &str) -> String {
    x.to_string()
}

#[test]
fn message_id_of_a_channel_message() {
    let id = make_message_id(&s("alice.near"), &s("general"), &s("hi"), 100);
    assert_eq!(id, "51e54d28b2caf7767d2d46a9001598ae43ec2cf537b77018a24d236889f6c747");
}

#[test]
fn message_id_of_a_direct_message() {
    let id = make_message_id(&s("alice.near"), &s("bob.near"), &s("hello"), 7);
    assert_eq!(id, "aacc746f0ef22afe52855655549efcc6acc4e9d9256f2957d3ee1fd17b5e71cd");
}

#[test]
fn message_id_of_text_beyond_ascii() {
    let id = make_message_id(&s("alice.near"), &s("général"), &s("héllo ✓"), 0x0102030405060708);
    assert_eq!(id, "12dd7ddefdc89d087d54f506999110b9e799f7a22d1dfd586c75151cabea3997");
}

#[test]
fn message_id_of_empty_fields() {
    let id = make_message_id(&s(""), &s(""), &s(""), 0);
    assert_eq!(id, "af5570f5a1810b7af78caf4bc70a660f0df51e42baf91d4de5b2328de0e83dfc");
}

#[test]
fn message_id_is_the_same_for_the_same_arguments() {
    let a = make_message_id(&s("m.near"), &s("n.near"), &s("text"), 42);
    let b = make_message_id(&s("m.near"), &s("n.near"), &s("text"), 42);
    assert_eq!(a, b);
    assert_eq!(a.len(), 64);
    assert!(a.chars().all(|c| c.is_ascii_digit() || ('a'..='f').contains(&c)));
}

#[test]
fn message_id_tells_sender_and_target_apart() {
    let a = make_message_id(&s("m.near"), &s("n.near"), &s("text"), 42);
    let b = make_message_id(&s("n.near"), &s("m.near"), &s("text"), 42);
    assert_ne!(a, b);
}

#[test]
fn message_id_changes_with_each_argument() {
    let base = make_message_id(&s("m"), &s("n"), &s("t"), 1);
    assert_ne!(base, make_message_id(&s("x"), &s("n"), &s("t"), 1));
    assert_ne!(base, make_message_id(&s("m"), &s("x"), &s("t"), 1));
    assert_ne!(base, make_message_id(&s("m"), &s("n"), &s("x"), 1));
    assert_ne!(base, make_message_id(&s("m"), &s("n"), &s("t"), 2));
}

#[test]
fn preimage_is_target_sender_text_timestamp() {
    let bytes = preimage_bytes(&s("ab"), &s("cd"), &s("e"), 258);
    assert_eq!(bytes, vec![b'c', b'd', b'a', b'b', b'e', 0, 0, 0, 0, 0, 0, 1, 2]);
}

#[test]
fn timestamp_bytes_are_big_endian() {
    assert_eq!(timestamp_bytes(0x0102030405060708), vec![1, 2, 3, 4, 5, 6, 7, 8]);
    assert_eq!(timestamp_bytes(0), vec![0; 8]);
    assert_eq!(timestamp_bytes(u64::MAX), vec![255; 8]);
    assert_eq!(timestamp_bytes(100), 100u64.to_be_bytes().to_vec());
}

#[test]
fn hex_is_lowercase_two_digits_per_byte() {
    assert_eq!(hex_encode(&vec![0x00, 0x0f, 0xa5, 0xff]), "000fa5ff");
    assert_eq!(hex_encode(&vec![]), "");
    assert_eq!(hex_encode(&vec![0x10, 0x9a, 0xbc, 0xde]), "109abcde");
}
