use luo9_sdk::payload::{GroupRequestSubType, SentPayload, SubType};

#[test]
fn defaults() {
    assert_eq!(SubType::default(), SubType::NoSubType);
    assert_eq!(GroupRequestSubType::default(), GroupRequestSubType::Unknown);
    let s = SentPayload::default();
    assert_eq!(s.group_id, None);
    assert_eq!(s.user_id, 0);
    assert_eq!(s.message_id, 0);
    assert_eq!(s.message, "");
    assert_eq!(s.time, 0);
}
