//! The version query protocol: plugins answer queries on the version topic
//! with their name and version.

use vstd::prelude::*;
use vstd::string::StringExecFns;

use crate::json::{json_quoted, json_text_field, quote_json, text_field};
use crate::text::str_eq;

verus! {

/// The topic on which version queries arrive.
pub const TOPIC_VERSION: &'static str = "luo9_version";

/// The topic on which plugins publish their version replies.
pub const TOPIC_VERSION_REPLY: &'static str = "luo9_version_reply";

/// The reply that names a plugin and its version, given their JSON string
/// literals: `{"action":"response","name":<name>,"version":<version>}`.
pub open spec fn version_reply_json(name: Seq<char>, version: Seq<char>) -> Seq<char> {
    "{\"action\":\"response\",\"name\":"@ + name + ",\"version\":"@ + version + "}"@
}

/// Whether the message `json` is a version query: a JSON object whose
/// `action` field is the string `query`.
pub fn is_version_query(json: &str) -> (r: bool)
    ensures
        r == (json_text_field(json@, "action"@) == Some("query"@)),
{
    match text_field(json, "action") {
        Some(action) => str_eq(action.as_str(), "query"),
        None => false,
    }
}

/// Builds the reply to a version query, with the plugin's `name` and
/// `version`. The reply is to be published on `TOPIC_VERSION_REPLY`.
pub fn reply_version(name: &str, version: &str) -> (r: String)
    ensures
        r@ == version_reply_json(json_quoted(name@), json_quoted(version@)),
{
    let n = quote_json(name);
    let v = quote_json(version);
    let mut j = String::from_str("{\"action\":\"response\",\"name\":");
    j.append(n.as_str());
    j.append(",\"version\":");
    j.append(v.as_str());
    j.append("}");
    j
}

} // verus!
