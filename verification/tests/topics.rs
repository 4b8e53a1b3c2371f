use slimhub::topics::{
    ack_topic, backpressure_topic, consumer_ack_topic, data_topic, parse_blind_id,
    subscription_topic, topic_leaf, ACK_PAYLOAD,
};

#[test]
fn topics_of_the_hub() {
    assert_eq!(subscription_topic(), "slim/sync/chunk/**");
    assert_eq!(ack_topic("00ff"), "slim/sync/ack/00ff");
    assert_eq!(backpressure_topic("hub-A"), "slim/hub/backpressure/hub-A");
    assert_eq!(data_topic("hub-A"), "slim/hub-A/sync/data");
    assert_eq!(consumer_ack_topic("hub-A"), "slim/hub-A/sync/ack/**");
    assert_eq!(ACK_PAYLOAD, "OK");
}

#[test]
fn leaf_is_behind_the_last_slash() {
    assert_eq!(topic_leaf("slim/sync/chunk/abc"), "abc");
    assert_eq!(topic_leaf("abc"), "abc");
    assert_eq!(topic_leaf("abc/"), "");
    assert_eq!(topic_leaf(""), "");
    assert_eq!(topic_leaf("//x"), "x");
    assert_eq!(topic_leaf("片/段é"), "段é");
}

#[test]
fn leaf_is_what_rsplit_finds() {
    for topic in ["a/b/c", "a", "", "/", "a/", "/a", "片/段", "a//b"] {
        assert_eq!(Some(topic_leaf(topic)), topic.rsplit('/').next());
    }
}

#[test]
fn blind_id_of_either_case() {
    let expected = [
        0x00, 0x11, 0x22, 0x33, 0x44, 0x55, 0x66, 0x77, 0x88, 0x99, 0xaa, 0xbb, 0xcc, 0xdd, 0xee,
        0xff,
    ];
    assert_eq!(parse_blind_id("00112233445566778899aabbccddeeff"), Some(expected));
    assert_eq!(parse_blind_id("00112233445566778899AABBCCDDEEFF"), Some(expected));
    assert_eq!(parse_blind_id("00112233445566778899aAbBcCdDeEfF"), Some(expected));
}

#[test]
fn blind_id_is_high_digit_first() {
    let id = parse_blind_id("1f000000000000000000000000000002").unwrap();
    assert_eq!(id[0], 0x1f);
    assert_eq!(id[15], 0x02);
}

#[test]
fn what_is_no_blind_id() {
    // Too short, too long, an odd digit, no digit at all.
    assert_eq!(parse_blind_id(""), None);
    assert_eq!(parse_blind_id("00112233445566778899aabbccddee"), None);
    assert_eq!(parse_blind_id("00112233445566778899aabbccddeeff00"), None);
    assert_eq!(parse_blind_id("00112233445566778899aabbccddeef"), None);
    assert_eq!(parse_blind_id("g0112233445566778899aabbccddeeff"), None);
    assert_eq!(parse_blind_id("0x112233445566778899aabbccddeeff"), None);
    assert_eq!(parse_blind_id("**"), None);
}

#[test]
fn chunk_is_confirmed_by_its_own_name() {
    for leaf in ["00112233445566778899AABBCCDDEEFF", "x", ""] {
        let chunk = format!("slim/sync/chunk/{}", leaf);
        assert_eq!(topic_leaf(&ack_topic(topic_leaf(&chunk))), leaf);
    }
}

#[test]
fn hubs_forward_on_their_own_topics() {
    let ids = ["hub-A", "hub-B", "", "a/sync", "a", "sync/data"];
    for (i, a) in ids.iter().enumerate() {
        assert!(data_topic(a).starts_with(&format!("slim/{}/sync/", a)));
        for b in &ids[i + 1..] {
            assert_ne!(data_topic(a), data_topic(b));
        }
    }
}
