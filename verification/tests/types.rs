use ble_gateway::types::{DetectedTag, GatewayUpdate, TagsSeen, MAX_SEEN, TAG_NAME_MAX_LEN};

#[test]
fn copies_keep_fields() {
    let t = DetectedTag { id: "Ariel-z".to_string(), age: 9, rssi: -3 };
    let c = t.duplicate();
    assert_eq!((c.id.as_str(), c.age, c.rssi), ("Ariel-z", 9, -3));
    let s = TagsSeen { tags: vec![t] }.duplicate();
    assert_eq!(s.tags.len(), 1);
    assert!(TagsSeen::empty().tags.is_empty());
    let u = GatewayUpdate {
        gateway_id: "g".to_string(),
        timestamp: 5,
        detected_tags: vec![],
        battery_level: None,
        location: None,
    };
    let v = u.duplicate();
    assert_eq!(v.gateway_id, "g");
    assert_eq!(v.timestamp, 5);
    assert_eq!(MAX_SEEN, 32);
    assert_eq!(TAG_NAME_MAX_LEN, 64);
}
