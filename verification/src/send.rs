//! The requests that ask the core to send, recall or react to messages: the
//! JSON published on the send topic.

use vstd::prelude::*;
use vstd::string::StringExecFns;

use crate::json::{json_quoted, quote_json};
use crate::text::{decimal, push_decimal};

verus! {

/// The topic on which send requests are published.
pub const TOPIC_SEND: &'static str = "luo9_send";

/// The topic on which the core publishes the receipts of sent messages.
pub const TOPIC_SENT: &'static str = "luo9_sent";

/// The JSON of a request: `{"action":{"<action>":{<fields>}}}`.
pub open spec fn request_json(action: Seq<char>, fields: Seq<char>) -> Seq<char> {
    "{\"action\":{\""@ + action + "\":{"@ + fields + "}}}"@
}

/// The request to send `quoted` (a JSON string literal) to the group `group_id`.
pub open spec fn group_msg_json(group_id: u64, quoted: Seq<char>) -> Seq<char> {
    request_json(
        "send_group_msg"@,
        "\"group_id\":"@ + decimal(group_id as nat) + ",\"message\":"@ + quoted,
    )
}

/// The request to send `quoted` (a JSON string literal) to the user `user_id`.
pub open spec fn private_msg_json(user_id: u64, quoted: Seq<char>) -> Seq<char> {
    request_json(
        "send_private_msg"@,
        "\"user_id\":"@ + decimal(user_id as nat) + ",\"message\":"@ + quoted,
    )
}

/// The request to recall the message `message_id`.
pub open spec fn delete_msg_json(message_id: u64) -> Seq<char> {
    request_json("delete_msg"@, "\"message_id\":"@ + decimal(message_id as nat))
}

/// The request to react with the emoji `emoji_id` to the message `message_id`.
pub open spec fn emoji_like_json(message_id: u64, emoji_id: u64) -> Seq<char> {
    request_json(
        "set_msg_emoji_like"@,
        "\"message_id\":"@ + decimal(message_id as nat) + ",\"emoji_id\":"@ + decimal(
            emoji_id as nat,
        ),
    )
}

/// A message that quotes (replies to) the message `reply_to`:
/// `[CQ:reply,id=<reply_to>]` followed by the message.
pub open spec fn reply_text(reply_to: u64, message: Seq<char>) -> Seq<char> {
    "[CQ:reply,id="@ + decimal(reply_to as nat) + "]"@ + message
}

/// Writes the request for `action` with the fields `fields`.
fn request(action: &str, fields: &str) -> (r: String)
    ensures
        r@ == request_json(action@, fields@),
{
    let mut j = String::from_str("{\"action\":{\"");
    j.append(action);
    j.append("\":{");
    j.append(fields);
    j.append("}}}");
    j
}

/// Writes `"<key>":<n>` after `out`.
fn push_number_field(out: &mut String, key_prefix: &str, n: u64)
    ensures
        final(out)@ == old(out)@ + key_prefix@ + decimal(n as nat),
{
    out.append(key_prefix);
    push_decimal(out, n);
}

/// Builds the request to send `message` to the group `group_id`. The
/// request is to be published on `TOPIC_SEND`.
pub fn send_group_msg(group_id: u64, message: &str) -> (r: String)
    ensures
        r@ == group_msg_json(group_id, json_quoted(message@)),
{
    let quoted = quote_json(message);
    let mut fields = String::new();
    push_number_field(&mut fields, "\"group_id\":", group_id);
    fields.append(",\"message\":");
    fields.append(quoted.as_str());
    request("send_group_msg", fields.as_str())
}

/// Builds the request to send `message` to the user `user_id`. The
/// request is to be published on `TOPIC_SEND`.
pub fn send_private_msg(user_id: u64, message: &str) -> (r: String)
    ensures
        r@ == private_msg_json(user_id, json_quoted(message@)),
{
    let quoted = quote_json(message);
    let mut fields = String::new();
    push_number_field(&mut fields, "\"user_id\":", user_id);
    fields.append(",\"message\":");
    fields.append(quoted.as_str());
    request("send_private_msg", fields.as_str())
}

/// The text of `message` as a reply to the message `reply_to`.
pub fn reply_message(reply_to: u64, message: &str) -> (r: String)
    ensures
        r@ == reply_text(reply_to, message@),
{
    let mut t = String::new();
    push_number_field(&mut t, "[CQ:reply,id=", reply_to);
    t.append("]");
    t.append(message);
    t
}

/// Builds the request to send `message` to the group `group_id` as a reply to
/// the message `reply_to_message_id`.
pub fn send_group_msg_reply(group_id: u64, reply_to_message_id: u64, message: &str) -> (r: String)
    ensures
        r@ == group_msg_json(group_id, json_quoted(reply_text(reply_to_message_id, message@))),
{
    let composed = reply_message(reply_to_message_id, message);
    send_group_msg(group_id, composed.as_str())
}

/// Builds the request to send `message` to the user `user_id` as a reply to
/// the message `reply_to_message_id`.
pub fn send_private_msg_reply(user_id: u64, reply_to_message_id: u64, message: &str) -> (r: String)
    ensures
        r@ == private_msg_json(user_id, json_quoted(reply_text(reply_to_message_id, message@))),
{
    let composed = reply_message(reply_to_message_id, message);
    send_private_msg(user_id, composed.as_str())
}

/// Builds the request to recall the message `message_id`.
pub fn delete_msg(message_id: u64) -> (r: String)
    ensures
        r@ == delete_msg_json(message_id),
{
    let mut fields = String::new();
    push_number_field(&mut fields, "\"message_id\":", message_id);
    request("delete_msg", fields.as_str())
}

/// Builds the request to react with the emoji `emoji_id` to the message
/// `message_id`.
pub fn set_msg_emoji_like(message_id: u64, emoji_id: u64) -> (r: String)
    ensures
        r@ == emoji_like_json(message_id, emoji_id),
{
    let mut fields = String::new();
    push_number_field(&mut fields, "\"message_id\":", message_id);
    push_number_field(&mut fields, ",\"emoji_id\":", emoji_id);
    request("set_msg_emoji_like", fields.as_str())
}

} // verus!
