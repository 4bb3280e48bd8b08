//! Message ids: the lowercase hex form of the SHA-256 digest of the target,
//! the sender, the text and the timestamp.

use vstd::prelude::*;
use vstd::string::StringExecFns;
use crate::order::text_key;

verus! {

/// The SHA-256 digest of a byte string, as `near_sdk::env::sha256` gives it.
pub uninterp spec fn sha256_digest(data: Seq<u8>) -> Seq<u8>;

/// Hashes with `near_sdk::env::sha256`. Nothing here proves what that
/// function returns. It is taken on its word that the result depends on the
/// bytes alone, which is what `sha256_digest` names, and that it is 32 bytes
/// long: the function copies it out of an array of that length.
#[verifier::external_body]
fn sha256(data: &Vec<u8>) -> (digest: Vec<u8>)
    ensures
        digest@ == sha256_digest(data@),
        digest@.len() == 32,
{
    near_sdk::env::sha256(data)
}

/// The eight bytes of `x`, the most significant first.
pub open spec fn be_bytes(x: u64) -> Seq<u8> {
    seq![
        ((x / 0x100_0000_0000_0000) % 256) as u8,
        ((x / 0x1_0000_0000_0000) % 256) as u8,
        ((x / 0x100_0000_0000) % 256) as u8,
        ((x / 0x1_0000_0000) % 256) as u8,
        ((x / 0x100_0000) % 256) as u8,
        ((x / 0x1_0000) % 256) as u8,
        ((x / 0x100) % 256) as u8,
        (x % 256) as u8,
    ]
}

/// The bytes that are digested for a message id: the target, the sender, the
/// text, and the timestamp in big-endian form.
pub open spec fn id_preimage(
    sender: Seq<char>,
    target: Seq<char>,
    text: Seq<char>,
    timestamp: u64,
) -> Seq<u8> {
    text_key(target) + text_key(sender) + text_key(text) + be_bytes(timestamp)
}

/// The sixteen hex digits, in lower case.
pub open spec fn hex_digits() -> Seq<char> {
    seq!['0', '1', '2', '3', '4', '5', '6', '7', '8', '9', 'a', 'b', 'c', 'd', 'e', 'f']
}

/// Two hex digits for each byte, the high half first.
pub open spec fn hex(bytes: Seq<u8>) -> Seq<char> {
    Seq::new(
        2 * bytes.len(),
        |i: int|
            if i % 2 == 0 {
                hex_digits()[bytes[i / 2] as int / 16]
            } else {
                hex_digits()[bytes[i / 2] as int % 16]
            },
    )
}

/// The id of the message that `sender` sends to `target` with this text and
/// timestamp.
pub open spec fn message_id(
    sender: Seq<char>,
    target: Seq<char>,
    text: Seq<char>,
    timestamp: u64,
) -> Seq<char> {
    hex(sha256_digest(id_preimage(sender, target, text, timestamp)))
}

fn hex_digit(n: u8) -> (r: &'static str)
    requires
        n < 16,
    ensures
        r@ == seq![hex_digits()[n as int]],
{
    proof {
        reveal_strlit("0");
        reveal_strlit("1");
        reveal_strlit("2");
        reveal_strlit("3");
        reveal_strlit("4");
        reveal_strlit("5");
        reveal_strlit("6");
        reveal_strlit("7");
        reveal_strlit("8");
        reveal_strlit("9");
        reveal_strlit("a");
        reveal_strlit("b");
        reveal_strlit("c");
        reveal_strlit("d");
        reveal_strlit("e");
        reveal_strlit("f");
    }
    let r = if n == 0 {
        "0"
    } else if n == 1 {
        "1"
    } else if n == 2 {
        "2"
    } else if n == 3 {
        "3"
    } else if n == 4 {
        "4"
    } else if n == 5 {
        "5"
    } else if n == 6 {
        "6"
    } else if n == 7 {
        "7"
    } else if n == 8 {
        "8"
    } else if n == 9 {
        "9"
    } else if n == 10 {
        "a"
    } else if n == 11 {
        "b"
    } else if n == 12 {
        "c"
    } else if n == 13 {
        "d"
    } else if n == 14 {
        "e"
    } else {
        "f"
    };
    assert(r@ =~= seq![hex_digits()[n as int]]);
    r
}

/// Renders bytes as lowercase hex.
pub fn hex_encode(bytes: &Vec<u8>) -> (s: String)
    ensures
        s@ == hex(bytes@),
{
    let mut s = String::new();
    let mut i: usize = 0;
    while i < bytes.len()
        invariant
            i <= bytes.len(),
            s@ == hex(bytes@.take(i as int)),
        decreases bytes.len() - i,
    {
        let b = bytes[i];
        let ghost before = s@;
        s.append(hex_digit(b / 16));
        s.append(hex_digit(b % 16));
        proof {
            let done = bytes@.take(i as int);
            let more = bytes@.take(i as int + 1);
            assert(more.len() == i + 1);
            assert forall|k: int| 0 <= k < 2 * (i + 1) implies s@[k] == hex(more)[k] by {
                if k < 2 * i {
                    assert(s@[k] == before[k]);
                    assert(done[k / 2] == more[k / 2]);
                } else {
                    assert(more[k / 2] == b);
                }
            }
            assert(s@ =~= hex(more));
        }
        i += 1;
    }
    assert(bytes@.take(i as int) =~= bytes@);
    s
}

/// The eight bytes of `x`, the most significant first.
pub fn timestamp_bytes(x: u64) -> (r: Vec<u8>)
    ensures
        r@ == be_bytes(x),
{
    let mut r: Vec<u8> = Vec::new();
    r.push(((x / 0x100_0000_0000_0000) % 256) as u8);
    r.push(((x / 0x1_0000_0000_0000) % 256) as u8);
    r.push(((x / 0x100_0000_0000) % 256) as u8);
    r.push(((x / 0x1_0000_0000) % 256) as u8);
    r.push(((x / 0x100_0000) % 256) as u8);
    r.push(((x / 0x1_0000) % 256) as u8);
    r.push(((x / 0x100) % 256) as u8);
    r.push((x % 256) as u8);
    assert(r@ =~= be_bytes(x));
    r
}

/// Lays out the bytes that are digested for a message id.
pub fn preimage_bytes(sender: &String, target: &String, text: &String, timestamp: u64) -> (r: Vec<
    u8,
>)
    ensures
        r@ == id_preimage(sender@, target@, text@, timestamp),
{
    let mut r: Vec<u8> = Vec::new();
    r.extend_from_slice(target.as_str().as_bytes());
    r.extend_from_slice(sender.as_str().as_bytes());
    r.extend_from_slice(text.as_str().as_bytes());
    let stamp = timestamp_bytes(timestamp);
    r.extend_from_slice(stamp.as_slice());
    assert(r@ =~= id_preimage(sender@, target@, text@, timestamp));
    r
}

/// Derives the id of a message from who sends it, to whom or to which
/// channel, its text and its timestamp. Equal arguments give equal ids.
pub fn make_message_id(sender: &String, target: &String, text: &String, timestamp: u64) -> (id:
    String)
    ensures
        id@ == message_id(sender@, target@, text@, timestamp),
        id@.len() == 64,
{
    let bytes = preimage_bytes(sender, target, text, timestamp);
    let digest = sha256(&bytes);
    hex_encode(&digest)
}

} // verus!
