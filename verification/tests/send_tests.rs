use luo9_sdk::send::{
    delete_msg, reply_message, send_group_msg, send_group_msg_reply, send_private_msg,
    send_private_msg_reply, set_msg_emoji_like, TOPIC_SEND, TOPIC_SENT,
};
use luo9_sdk::version::{is_version_query, reply_version, TOPIC_VERSION, TOPIC_VERSION_REPLY};

#[test]
fn group_msg_request() {
    assert_eq!(
        send_group_msg(987654, "hi"),
        r#"{"action":{"send_group_msg":{"group_id":987654,"message":"hi"}}}"#
    );
    assert_eq!(
        send_group_msg(1, "say \"x\"\n"),
        r#"{"action":{"send_group_msg":{"group_id":1,"message":"say \"x\"\n"}}}"#
    );
}

#[test]
fn requests_parse_back() {
    let j = send_private_msg(42, "a\\b\t状态");
    let v: serde_json::Value = serde_json::from_str(&j).unwrap();
    let inner = &v["action"]["send_private_msg"];
    assert_eq!(inner["user_id"].as_u64(), Some(42));
    assert_eq!(inner["message"].as_str(), Some("a\\b\t状态"));
}

#[test]
fn reply_requests() {
    assert_eq!(reply_message(5, "ok"), "[CQ:reply,id=5]ok");
    assert_eq!(
        send_group_msg_reply(7, 5, "ok"),
        r#"{"action":{"send_group_msg":{"group_id":7,"message":"[CQ:reply,id=5]ok"}}}"#
    );
    assert_eq!(
        send_private_msg_reply(8, 9, ""),
        r#"{"action":{"send_private_msg":{"user_id":8,"message":"[CQ:reply,id=9]"}}}"#
    );
}

#[test]
fn recall_and_emoji_requests() {
    assert_eq!(
        delete_msg(123),
        r#"{"action":{"delete_msg":{"message_id":123}}}"#
    );
    assert_eq!(
        set_msg_emoji_like(123, 76),
        r#"{"action":{"set_msg_emoji_like":{"message_id":123,"emoji_id":76}}}"#
    );
}

#[test]
fn topics() {
    assert_eq!(TOPIC_SEND, "luo9_send");
    assert_eq!(TOPIC_SENT, "luo9_sent");
    assert_eq!(TOPIC_VERSION, "luo9_version");
    assert_eq!(TOPIC_VERSION_REPLY, "luo9_version_reply");
}

#[test]
fn version_query_detection() {
    assert!(is_version_query(r#"{"action":"query"}"#));
    assert!(is_version_query(r#"{"x":1, "action" : "query"}"#));
    assert!(!is_version_query(r#"{"action":"response"}"#));
    assert!(!is_version_query(r#"{"action":1}"#));
    assert!(!is_version_query(r#"["action","query"]"#));
    assert!(!is_version_query("not json"));
    assert!(!is_version_query(""));
}

#[test]
fn version_reply() {
    assert_eq!(
        reply_version("weather", "1.2.0"),
        r#"{"action":"response","name":"weather","version":"1.2.0"}"#
    );
    assert_eq!(
        reply_version("a\"b", ""),
        r#"{"action":"response","name":"a\"b","version":""}"#
    );
}

#[test]
fn json_escapes() {
    assert_eq!(
        send_group_msg(1, "\u{1}\u{1f}\u{8}\u{c}\r/\u{7f}é"),
        "{\"action\":{\"send_group_msg\":{\"group_id\":1,\"message\":\"\\u0001\\u001f\\b\\f\\r/\u{7f}é\"}}}"
    );
    let j = send_group_msg(2, "tab\there \\ \"q\"");
    let v: serde_json::Value = serde_json::from_str(&j).unwrap();
    assert_eq!(
        v["action"]["send_group_msg"]["message"].as_str(),
        Some("tab\there \\ \"q\"")
    );
}
