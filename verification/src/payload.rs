//! The events that the host publishes on the bus (messages, meta events,
//! notices, requests, send receipts), as plain data.

use vstd::prelude::*;

verus! {

/// Kind of a chat message.
#[derive(Debug, Clone, Copy, PartialEq, Eq, Structural)]
pub enum MsgType {
    Private,
    Group,
    /// Any other kind.
    Other,
}

/// The sender of a message.
#[derive(Debug, Clone)]
pub struct Sender {
    pub user_id: u64,
    pub nickname: String,
    pub card: String,
    pub sex: String,
    pub age: u32,
    pub area: String,
    pub level: String,
    pub role: String,
    pub title: String,
}

/// An anonymous sender.
#[derive(Debug, Clone)]
pub struct Anonymous {
    pub id: u64,
    pub name: String,
    pub flag: String,
}

/// A chat message event.
#[derive(Debug, Clone)]
pub struct MessagePayload {
    pub message_type: MsgType,
    pub user_id: u64,
    pub group_id: Option<u64>,
    pub message: String,
    pub time: u64,
    pub self_id: u64,
    pub message_id: u64,
    pub message_seq: Option<u64>,
    pub real_id: Option<u64>,
    pub real_seq: Option<String>,
    pub sub_type: SubType,
    pub font: u32,
    pub sender: Option<Sender>,
    pub anonymous: Option<Anonymous>,
    pub message_format: String,
}

/// Kind of a meta event.
#[derive(Debug, Clone, Copy, PartialEq, Eq, Structural)]
pub enum MetaEventType {
    Lifecycle,
    Heartbeat,
    Unknown,
}

/// The bot's status in a heartbeat.
#[derive(Debug, Clone, Copy)]
pub struct Status {
    pub good: bool,
    pub online: bool,
}

/// A meta event (lifecycle or heartbeat).
#[derive(Debug, Clone)]
pub struct MetaEventPayload {
    pub interval: Option<u64>,
    pub meta_event_type: MetaEventType,
    pub sub_type: SubType,
    pub self_id: u64,
    pub status: Option<Status>,
    pub time: u64,
}

/// Kind of a notice.
#[derive(Debug, Clone, Copy, PartialEq, Eq, Structural)]
pub enum NoticeType {
    FriendAdd,
    FriendRecall,
    GroupAdmin,
    GroupBan,
    GroupIncrease,
    GroupDecrease,
    GroupCard,
    GroupRecall,
    GroupUpload,
    GroupTitle,
    Honor,
    Essence,
    Poke,
    LuckyKing,
    GroupMsgEmojiLike,
    Notify,
    Unknown,
}

/// A file uploaded to a group.
#[derive(Debug, Clone)]
pub struct FileInfo {
    pub id: String,
    pub name: String,
    pub size: u64,
    pub busid: i64,
}

/// Kind of a group honour.
#[derive(Debug, Clone, Copy, PartialEq, Eq, Structural)]
pub enum HonorType {
    Talkative,
    Performer,
    Emotion,
}

/// A notice event.
#[derive(Debug, Clone)]
pub struct NoticePayload {
    pub notice_type: NoticeType,
    pub sub_type: SubType,
    pub user_id: u64,
    pub group_id: Option<u64>,
    pub time: u64,
    pub operator_id: Option<u64>,
    pub target_id: Option<u64>,
    pub message_id: Option<u64>,
    pub file: Option<FileInfo>,
    pub duration: Option<u64>,
    pub card_new: Option<String>,
    pub card_old: Option<String>,
    pub honor_type: Option<HonorType>,
    pub title: Option<String>,
    pub flag: Option<String>,
    pub comment: Option<String>,
}

/// Kind of a request.
#[derive(Debug, Clone, Copy, PartialEq, Eq, Structural)]
pub enum RequestType {
    Friend,
    Group,
    Unknown,
}

/// Kind of a group request.
#[derive(Debug, Clone, Copy, PartialEq, Eq, Structural)]
pub enum GroupRequestSubType {
    Add,
    Invite,
    Unknown,
}

impl Default for GroupRequestSubType {
    fn default() -> (r: Self)
        ensures
            r == GroupRequestSubType::Unknown,
    {
        GroupRequestSubType::Unknown
    }
}

/// A friend or group request event.
#[derive(Debug, Clone)]
pub struct RequestPayload {
    pub request_type: RequestType,
    pub user_id: u64,
    pub group_id: Option<u64>,
    pub comment: String,
    pub flag: String,
    pub sub_type: GroupRequestSubType,
    pub time: u64,
    pub self_id: u64,
}

/// Sub-kind of an event.
#[derive(Debug, Clone, Copy, PartialEq, Eq, Structural)]
pub enum SubType {
    Enable,
    Disable,
    Connect,
    Friend,
    GroupTemp,
    GroupSelf,
    Other,
    Normal,
    Anonymous,
    Notice,
    /// An administrator was set (`"set"`).
    SetAdmin,
    Unset,
    Ban,
    LiftBan,
    Unban,
    Leave,
    Kick,
    KickMe,
    Approve,
    Invite,
    Add,
    Poke,
    LuckyKing,
    Talkative,
    Performer,
    Emotion,
    Honor,
    InputStatus,
    Title,
    ProfileLike,
    /// No sub-kind (the event carries `"none"` or nothing).
    NoSubType,
}

impl Default for SubType {
    fn default() -> (r: Self)
        ensures
            r == SubType::NoSubType,
    {
        SubType::NoSubType
    }
}

/// The receipt of a sent message: which message id the core gave it.
#[derive(Debug, Clone)]
pub struct SentPayload {
    pub group_id: Option<u64>,
    pub user_id: u64,
    pub message_id: u64,
    pub message: String,
    pub time: u64,
}

impl Default for SentPayload {
    fn default() -> (r: Self)
        ensures
            r.group_id is None,
            r.user_id == 0,
            r.message_id == 0,
            r.message@ == Seq::<char>::empty(),
            r.time == 0,
    {
        SentPayload { group_id: None, user_id: 0, message_id: 0, message: String::new(), time: 0 }
    }
}

/// An event popped from a bus topic.
#[derive(Debug)]
pub enum BusPayload {
    Message(MessagePayload),
    MetaEvent(MetaEventPayload),
    Notice(NoticePayload),
    Request(RequestPayload),
    Sent(SentPayload),
}

} // verus!
