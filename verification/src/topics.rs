//! The topics that the hub listens on and publishes to, and the blind
//! identifier that a chunk's topic ends in.
use vstd::prelude::*;
use vstd::string::{StrSliceExecFns, StringExecFns};

use crate::keys::BLIND_ID_LEN;

verus! {

/// Where producers publish chunks; a blind identifier in hex digits follows.
pub const CHUNK_PREFIX: &'static str = "slim/sync/chunk";

/// Where the hub confirms that a chunk is stored.
pub const ACK_PREFIX: &'static str = "slim/sync/ack";

/// Where the hub tells producers to slow down.
pub const BACKPRESSURE_PREFIX: &'static str = "slim/hub/backpressure";

/// What the hub answers a stored chunk with.
pub const ACK_PAYLOAD: &'static str = "OK";

// ---------------------------------------------------------------------------
// Topics
// ---------------------------------------------------------------------------
/// Two parts of a topic with a slash between them.
pub open spec fn joined(prefix: Seq<char>, rest: Seq<char>) -> Seq<char> {
    prefix + seq!['/'] + rest
}

/// Joins two parts of a topic with a slash.
fn join(prefix: &str, rest: &str) -> (topic: String)
    ensures
        topic@ == joined(prefix@, rest@),
{
    let mut topic: String = prefix.to_owned();
    topic.append("/");
    topic.append(rest);
    proof {
        reveal_strlit("/");
        assert("/"@ =~= seq!['/']);
    }
    topic
}

/// The topics of all chunks: everything below the chunk prefix.
pub fn subscription_topic() -> (topic: String)
    ensures
        topic@ == joined(CHUNK_PREFIX@, "**"@),
{
    join(CHUNK_PREFIX, "**")
}

/// The topic that confirms the chunk with this identifier, as it was spelled.
pub fn ack_topic(blind_id_hex: &str) -> (topic: String)
    ensures
        topic@ == joined(ACK_PREFIX@, blind_id_hex@),
{
    join(ACK_PREFIX, blind_id_hex)
}

/// The topic of a hub's backpressure frames.
pub fn backpressure_topic(hub_id: &str) -> (topic: String)
    ensures
        topic@ == joined(BACKPRESSURE_PREFIX@, hub_id@),
{
    join(BACKPRESSURE_PREFIX, hub_id)
}

/// The topic space of a hub, which carries its name.
pub open spec fn hub_space(hub_id: Seq<char>) -> Seq<char> {
    joined(joined("slim"@, hub_id), "sync"@)
}

/// The topic space of a hub.
fn space_of(hub_id: &str) -> (space: String)
    ensures
        space@ == hub_space(hub_id@),
{
    let named: String = join("slim", hub_id);
    join(named.as_str(), "sync")
}

/// The topic that a hub forwards its chunks to.
pub fn data_topic(hub_id: &str) -> (topic: String)
    ensures
        topic@ == joined(hub_space(hub_id@), "data"@),
{
    let space: String = space_of(hub_id);
    join(space.as_str(), "data")
}

/// The topics on which the consumer acknowledges the chunks that it has from a
/// hub; a blind identifier in hex digits takes the place of the wildcard.
pub fn consumer_ack_topic(hub_id: &str) -> (topic: String)
    ensures
        topic@ == joined(joined(hub_space(hub_id@), "ack"@), "**"@),
{
    let space: String = space_of(hub_id);
    let acks: String = join(space.as_str(), "ack");
    join(acks.as_str(), "**")
}

/// Two hubs never forward on the same topic.
pub proof fn law_hubs_have_their_own_topics(a: Seq<char>, b: Seq<char>)
    requires
        joined(hub_space(a), "data"@) == joined(hub_space(b), "data"@),
    ensures
        a == b,
{
    let front: int = "slim"@.len() as int + 1;
    let ta: Seq<char> = joined(hub_space(a), "data"@);
    let tb: Seq<char> = joined(hub_space(b), "data"@);
    assert(ta.len() == tb.len());
    assert(a =~= ta.subrange(front, front + a.len()));
    assert(b =~= tb.subrange(front, front + b.len()));
}

// ---------------------------------------------------------------------------
// Blind identifiers
// ---------------------------------------------------------------------------
/// Where the last segment of a topic begins: behind its last slash.
pub open spec fn segment_start(topic: Seq<char>) -> int
    decreases topic.len(),
{
    if topic.len() == 0 {
        0
    } else if topic.last() == '/' {
        topic.len() as int
    } else {
        segment_start(topic.drop_last())
    }
}

/// The last segment of a topic.
pub open spec fn last_segment(topic: Seq<char>) -> Seq<char> {
    topic.skip(segment_start(topic))
}

/// The last segment of a topic.
pub fn topic_leaf(topic: &str) -> (leaf: &str)
    ensures
        leaf@ == last_segment(topic@),
{
    let n: usize = topic.unicode_len();
    let mut i: usize = n;
    assert(topic@.take(n as int) =~= topic@);
    while i > 0
        invariant
            i <= n == topic@.len(),
            segment_start(topic@) == segment_start(topic@.take(i as int)),
        ensures
            segment_start(topic@) == i,
            i <= n,
        decreases i,
    {
        assert(topic@.take(i as int).last() == topic@[i - 1]);
        assert(topic@.take(i as int).drop_last() =~= topic@.take(i - 1));
        if topic.get_char(i - 1) == '/' {
            break;
        }
        i = i - 1;
    }
    assert(topic@.subrange(i as int, n as int) =~= topic@.skip(i as int));
    topic.substring_char(i, n)
}

/// The value of a hexadecimal digit, of either case.
pub open spec fn hex_digit(c: char) -> Option<int> {
    if '0' <= c <= '9' {
        Some(c as int - '0' as int)
    } else if 'a' <= c <= 'f' {
        Some(c as int - 'a' as int + 10)
    } else if 'A' <= c <= 'F' {
        Some(c as int - 'A' as int + 10)
    } else {
        None
    }
}

/// Every character is a hexadecimal digit, and they pair up.
pub open spec fn is_hex(text: Seq<char>) -> bool {
    text.len() % 2 == 0 && forall|i: int|
        0 <= i < text.len() ==> hex_digit(#[trigger] text[i]) is Some
}

/// The bytes that pairs of hexadecimal digits spell, high digit first.
pub open spec fn hex_bytes(text: Seq<char>) -> Seq<u8> {
    Seq::new(
        text.len() / 2,
        |i: int| (16 * hex_digit(text[2 * i])->0 + hex_digit(text[2 * i + 1])->0) as u8,
    )
}

/// `hex::decode`: the bytes of a string of hexadecimal digits of either case,
/// nothing where a character is none or one is left over.
#[verifier::external_body]
fn hex_decode(text: &str) -> (r: Option<Vec<u8>>)
    ensures
        r is Some <==> is_hex(text@),
        r matches Some(bytes) ==> bytes@ == hex_bytes(text@),
{
    hex::decode(text).ok()
}

/// The blind identifier that a segment spells: thirty-two digits.
pub open spec fn spelled_blind_id(leaf: Seq<char>) -> Option<Seq<u8>> {
    if is_hex(leaf) && leaf.len() == 2 * BLIND_ID_LEN {
        Some(hex_bytes(leaf))
    } else {
        None
    }
}

/// Reads the blind identifier that a segment spells.
pub fn parse_blind_id(leaf: &str) -> (r: Option<[u8; 16]>)
    ensures
        match r {
            Some(blind_id) => spelled_blind_id(leaf@) == Some(blind_id@),
            None => spelled_blind_id(leaf@) is None,
        },
{
    match hex_decode(leaf) {
        Some(bytes) => {
            if bytes.len() != BLIND_ID_LEN {
                return None;
            }
            let mut blind_id: [u8; 16] = [0u8; 16];
            let mut i: usize = 0;
            while i < BLIND_ID_LEN
                invariant
                    i <= BLIND_ID_LEN,
                    bytes@.len() == BLIND_ID_LEN,
                    forall|j: int| 0 <= j < i ==> blind_id@[j] == bytes@[j],
                decreases BLIND_ID_LEN - i,
            {
                blind_id[i] = bytes[i];
                i = i + 1;
            }
            assert(blind_id@ =~= bytes@);
            Some(blind_id)
        },
        None => None,
    }
}

/// Behind a prefix and a slash, a part without a slash is the last segment.
pub proof fn law_last_segment_of_joined(prefix: Seq<char>, rest: Seq<char>)
    requires
        !rest.contains('/'),
    ensures
        last_segment(joined(prefix, rest)) == rest,
{
    lemma_segment_start_of_joined(prefix, rest);
    assert(joined(prefix, rest).skip(prefix.len() as int + 1) =~= rest);
}

proof fn lemma_segment_start_of_joined(prefix: Seq<char>, rest: Seq<char>)
    requires
        !rest.contains('/'),
    ensures
        segment_start(joined(prefix, rest)) == prefix.len() + 1,
    decreases rest.len(),
{
    let topic: Seq<char> = joined(prefix, rest);
    if rest.len() > 0 {
        assert(topic.last() == rest[rest.len() - 1]);
        assert(topic.drop_last() =~= joined(prefix, rest.drop_last()));
        assert forall|i: int| 0 <= i < rest.drop_last().len() implies rest.drop_last()[i]
            != '/' by {
            assert(rest.drop_last()[i] == rest[i]);
        }
        lemma_segment_start_of_joined(prefix, rest.drop_last());
    }
}

/// The last segment of a topic has no slash, and what stands before it is
/// nothing or ends in a slash.
pub proof fn law_last_segment(topic: Seq<char>)
    ensures
        0 <= segment_start(topic) <= topic.len(),
        !last_segment(topic).contains('/'),
        segment_start(topic) == 0 || topic[segment_start(topic) - 1] == '/',
    decreases topic.len(),
{
    if topic.len() > 0 && topic.last() != '/' {
        law_last_segment(topic.drop_last());
        assert(last_segment(topic) =~= last_segment(topic.drop_last()).push(topic.last()));
    }
}

/// A chunk is confirmed by the name that it came with: the topic of its
/// acknowledgement ends in the segment that its own topic ends in.
pub proof fn law_ack_names_the_chunk(chunk_topic: Seq<char>)
    ensures
        last_segment(joined(ACK_PREFIX@, last_segment(chunk_topic))) == last_segment(chunk_topic),
{
    law_last_segment(chunk_topic);
    law_last_segment_of_joined(ACK_PREFIX@, last_segment(chunk_topic));
}

/// Two parts of a topic and the slash between them are all that a joined topic
/// is.
pub proof fn law_joined_parts(prefix: Seq<char>, rest: Seq<char>)
    ensures
        joined(prefix, rest).len() == prefix.len() + 1 + rest.len(),
        joined(prefix, rest).take(prefix.len() as int) == prefix,
        joined(prefix, rest)[prefix.len() as int] == '/',
        joined(prefix, rest).skip(prefix.len() as int + 1) == rest,
{
    assert(joined(prefix, rest).take(prefix.len() as int) =~= prefix);
    assert(joined(prefix, rest).skip(prefix.len() as int + 1) =~= rest);
}

/// The topics of a hub begin with its name, between two words that are the same
/// for all hubs.
pub proof fn law_hub_space_carries_the_name(hub_id: Seq<char>, rest: Seq<char>)
    ensures
        joined(hub_space(hub_id), rest) == "slim/"@ + hub_id + "/sync/"@ + rest,
{
    reveal_strlit("slim");
    reveal_strlit("sync");
    reveal_strlit("slim/");
    reveal_strlit("/sync/");
    assert("slim/"@ =~= "slim"@ + seq!['/']);
    assert("/sync/"@ =~= seq!['/'] + "sync"@ + seq!['/']);
    assert(joined(hub_space(hub_id), rest) =~= "slim/"@ + hub_id + "/sync/"@ + rest);
}

/// A topic without a slash is its own last segment.
pub proof fn law_topic_without_a_slash(topic: Seq<char>)
    requires
        !topic.contains('/'),
    ensures
        last_segment(topic) == topic,
{
    law_last_segment(topic);
    if segment_start(topic) > 0 {
        assert(topic[segment_start(topic) - 1] == '/');
    }
    assert(last_segment(topic) =~= topic);
}

/// The character is a hexadecimal digit.
pub open spec fn is_digit_char(c: char) -> bool {
    ('0' <= c && c <= '9') || ('a' <= c && c <= 'f') || ('A' <= c && c <= 'F')
}

/// The character stands for that digit, in small or capital letters.
pub open spec fn stands_for(c: char, digit: int) -> bool {
    0 <= digit < 16 && (c == "0123456789abcdef"@[digit] || c == "0123456789ABCDEF"@[digit])
}

/// A digit has its value by its place among the sixteen.
proof fn lemma_digit_value(c: char)
    ensures
        is_digit_char(c) <==> hex_digit(c) is Some,
        hex_digit(c) matches Some(v) ==> stands_for(c, v),
        forall|v: int| stands_for(c, v) ==> hex_digit(c) == Some(v),
{
    reveal_strlit("0123456789abcdef");
    reveal_strlit("0123456789ABCDEF");
    if let Some(v) = hex_digit(c) {
        assert(0 <= v < 16);
        assert(v == 0 || v == 1 || v == 2 || v == 3 || v == 4 || v == 5 || v == 6 || v == 7 || v
            == 8 || v == 9 || v == 10 || v == 11 || v == 12 || v == 13 || v == 14 || v == 15);
    }
    assert forall|v: int| stands_for(c, v) implies hex_digit(c) == Some(v) by {
        assert(v == 0 || v == 1 || v == 2 || v == 3 || v == 4 || v == 5 || v == 6 || v == 7 || v
            == 8 || v == 9 || v == 10 || v == 11 || v == 12 || v == 13 || v == 14 || v == 15);
    }
}

/// A segment spells a blind identifier just where it is thirty-two hexadecimal
/// digits, and then each pair of them spells a byte, high digit first.
pub proof fn law_thirty_two_digits_spell_an_identifier(leaf: Seq<char>)
    ensures
        spelled_blind_id(leaf) is Some <==> leaf.len() == 32 && forall|i: int|
            0 <= i < 32 ==> is_digit_char(#[trigger] leaf[i]),
        spelled_blind_id(leaf) matches Some(id) ==> id.len() == 16 && forall|
            i: int,
            high: int,
            low: int,
        |
            0 <= i < 16 && #[trigger] stands_for(leaf[2 * i], high) && #[trigger] stands_for(
                leaf[2 * i + 1],
                low,
            ) ==> #[trigger] id[i] == 16 * high + low,
{
    assert forall|i: int| 0 <= i < leaf.len() implies (is_digit_char(#[trigger] leaf[i])
        <==> hex_digit(leaf[i]) is Some) by {
        lemma_digit_value(leaf[i]);
    }
    if let Some(id) = spelled_blind_id(leaf) {
        assert forall|i: int, high: int, low: int|
            0 <= i < 16 && #[trigger] stands_for(leaf[2 * i], high) && #[trigger] stands_for(
                leaf[2 * i + 1],
                low,
            ) implies #[trigger] id[i] == 16 * high + low by {
            lemma_digit_value(leaf[2 * i]);
            lemma_digit_value(leaf[2 * i + 1]);
        }
    }
}

/// The digits of a blind identifier, in small letters.
pub open spec fn digits_of(id: Seq<u8>) -> Seq<char> {
    Seq::new(
        2 * id.len(),
        |i: int|
            if i % 2 == 0 {
                "0123456789abcdef"@[id[i / 2] as int / 16]
            } else {
                "0123456789abcdef"@[id[i / 2] as int % 16]
            },
    )
}

/// Every blind identifier can be spelled, and reading its digits gives it back.
pub proof fn law_every_identifier_is_spelled(id: Seq<u8>)
    requires
        id.len() == 16,
    ensures
        spelled_blind_id(digits_of(id)) == Some(id),
{
    let leaf: Seq<char> = digits_of(id);
    assert forall|i: int| 0 <= i < 32 implies hex_digit(#[trigger] leaf[i]) == Some(
        if i % 2 == 0 {
            id[i / 2] as int / 16
        } else {
            id[i / 2] as int % 16
        },
    ) by {
        lemma_digit_value(leaf[i]);
        let v: int = if i % 2 == 0 {
            id[i / 2] as int / 16
        } else {
            id[i / 2] as int % 16
        };
        assert(stands_for(leaf[i], v));
    }
    assert forall|i: int| 0 <= i < 16 implies hex_bytes(leaf)[i] == id[i] by {
        assert(leaf[2 * i] == leaf[2 * i] && leaf[2 * i + 1] == leaf[2 * i + 1]);
        assert((2 * i) / 2 == i && (2 * i + 1) / 2 == i);
    }
    assert(hex_bytes(leaf) =~= id);
}

} // verus!
