use luo9_sdk::bus::{Bus, BusError, Topic, SENTINEL};
use luo9_sdk::text_map::TextMap;
use luo9_sdk::PluginSubscribers;

#[test]
fn topic_name() {
    assert_eq!(Bus::topic("luo9_message").name(), "luo9_message");
}

#[test]
fn status_codes() {
    assert_eq!(Bus::init_status(0), Ok(()));
    assert_eq!(Bus::init_status(-1), Ok(()));
    assert_eq!(Bus::init_status(-2), Err(BusError::InitFailed));
    assert_eq!(Bus::init_status(1), Err(BusError::InitFailed));
    assert_eq!(Topic::subscribe_status(0), Ok(0));
    assert_eq!(Topic::subscribe_status(17), Ok(17));
    assert_eq!(Topic::subscribe_status(-1), Err(BusError::SubscribeFailed));
    assert_eq!(Topic::unsubscribe_status(0), Ok(()));
    assert_eq!(Topic::unsubscribe_status(3), Err(BusError::UnsubscribeFailed));
    assert_eq!(Topic::publish_status(0), Ok(()));
    assert_eq!(Topic::publish_status(-2), Err(BusError::NotInitialized));
    assert_eq!(Topic::publish_status(-1), Err(BusError::PublishFailed));
}

#[test]
fn pops_treat_sentinel() {
    assert_eq!(Topic::pop_status(None), Ok(None));
    assert_eq!(
        Topic::pop_status(Some(SENTINEL.to_string())),
        Err(BusError::Unsubscribed)
    );
    assert_eq!(Topic::pop_status(Some("m".to_string())), Ok(Some("m".to_string())));
    assert_eq!(Topic::wait_pop_status(None), Err(BusError::WaitPopFailed));
    assert_eq!(
        Topic::wait_pop_status(Some(SENTINEL.to_string())),
        Err(BusError::Unsubscribed)
    );
    assert_eq!(Topic::wait_pop_status(Some("m".to_string())), Ok("m".to_string()));
    assert_eq!(SENTINEL, "__luo9_unsubscribed__");
}

#[test]
fn register_precreated_subscribers() {
    let subs = PluginSubscribers {
        message_sub_id: 3,
        meta_event_sub_id: -1,
        notice_sub_id: 0,
        request_sub_id: 9,
        task_sub_id: -5,
        send_sub_id: 11,
    };
    let mut table: TextMap<usize> = TextMap::new();
    table.insert("luo9_task".to_string(), 77);
    table.insert("luo9_message".to_string(), 1);
    subs.register(&mut table);
    assert_eq!(table.get("luo9_message"), Some(&3));
    assert_eq!(table.get("luo9_meta_event"), None);
    assert_eq!(table.get("luo9_notice"), Some(&0));
    assert_eq!(table.get("luo9_request"), Some(&9));
    assert_eq!(table.get("luo9_task"), Some(&77));
    assert_eq!(table.get("luo9_send"), Some(&11));
    assert_eq!(table.get("luo9_sent"), None);
}

#[test]
fn text_map_insert_replaces() {
    let mut m: TextMap<usize> = TextMap::new();
    assert!(!m.contains_key("a"));
    m.insert("a".to_string(), 1);
    m.insert("b".to_string(), 2);
    m.insert("a".to_string(), 3);
    assert_eq!(m.get("a"), Some(&3));
    assert_eq!(m.get("b"), Some(&2));
    assert!(m.contains_key("b"));
    assert_eq!(m.get("c"), None);
    assert_eq!(m.len(), 2);
    assert!(!m.is_empty());
    let mut es: Vec<(String, usize)> = m.entries().to_vec();
    es.sort();
    assert_eq!(es, vec![("a".to_string(), 3), ("b".to_string(), 2)]);
    let empty: TextMap<usize> = TextMap::new();
    assert_eq!(empty.len(), 0);
    assert!(empty.is_empty());
    assert!(empty.entries().is_empty());
}

#[test]
fn precreated_ids_win() {
    let mut table: TextMap<usize> = TextMap::new();
    table.insert("luo9_message".to_string(), 4);
    assert_eq!(Bus::topic("luo9_message").precreated_id(Some(&table)), Some(4));
    assert_eq!(Bus::topic("luo9_notice").precreated_id(Some(&table)), None);
    assert_eq!(Bus::topic("luo9_message").precreated_id(None), None);
}
