use ble_gateway::gateway::{
    build_update, device_id_text, heard_at_time, update_due, Gateway, StatusError, StatusRenderer,
    MAX_CLOCK_MS, MIN_UPDATE_INTERVAL_MS, REPORTED_BATTERY_LEVEL, TAG_CLOCK_OFFSET_MS,
};
use ble_gateway::gnss::{ChannelLabel, ChannelSample};
use ble_gateway::tag_store::TAG_EXPIRY_MS;
use ble_gateway::types::{DetectedTag, TagsSeen};

fn report() -> TagsSeen {
    TagsSeen {
        tags: vec![
            DetectedTag { id: "Ariel-a".to_string(), age: 3, rssi: -40 },
            DetectedTag { id: "Ariel-b".to_string(), age: 0, rssi: -70 },
        ],
    }
}

fn reading() -> Vec<ChannelSample> {
    vec![
        ChannelSample { label: ChannelLabel::Latitude, value: Some(10), scaling: 0 },
        ChannelSample { label: ChannelLabel::Longitude, value: Some(20), scaling: 0 },
        ChannelSample { label: ChannelLabel::Altitude, value: Some(30), scaling: 0 },
    ]
}

#[test]
fn status_before_and_after_publish() {
    let mut s = StatusRenderer::new();
    assert_eq!(s.get().err(), Some(StatusError::ServiceUnavailable));
    let u = build_update(&report(), None, "gw".to_string());
    assert!(s.publish(u).is_none());
    let got = s.get().unwrap();
    assert_eq!(got.gateway_id, "gw");
    assert_eq!(got.detected_tags[0].age, 3);
    let u2 = build_update(&report(), None, "gw2".to_string());
    let old = s.publish(u2).unwrap();
    assert_eq!(old.gateway_id, "gw");
    assert_eq!(s.get().unwrap().gateway_id, "gw2");
}

#[test]
fn update_interval() {
    assert!(!update_due(9_999, 0));
    assert!(update_due(MIN_UPDATE_INTERVAL_MS, 0));
    assert!(update_due(20_000, 5_000));
}

#[test]
fn update_without_location() {
    let u = build_update(&report(), None, "abc".to_string());
    assert_eq!(u.timestamp, 0);
    assert_eq!(u.battery_level, Some(REPORTED_BATTERY_LEVEL));
    assert!(u.location.is_none());
    assert_eq!(u.detected_tags.len(), 2);
    assert_eq!(u.detected_tags[0].id, "Ariel-a");
    assert_eq!(u.detected_tags[1].rssi, -70);
}

#[test]
fn heard_times() {
    assert_eq!(heard_at_time(10_000, 3), TAG_CLOCK_OFFSET_MS + 7_000);
    // a tag heard before the gateway's clock started keeps its whole age
    assert_eq!(heard_at_time(2_000, 3), TAG_CLOCK_OFFSET_MS - 1_000);
    assert_eq!(heard_at_time(0, u16::MAX), 0);
}

#[test]
fn gateway_publishes_at_most_every_interval() {
    let mut g = Gateway::new(1_000);
    assert!(g.clock_ok(5_000));
    assert!(!g.on_update_tick(5_000, "gw".to_string()));
    assert!(g.status.get().is_err());
    g.on_scan_report(&report(), 8_000);
    assert_eq!(g.tags.lookup("Ariel-a"), Some((TAG_CLOCK_OFFSET_MS + 5_000, -40)));
    assert_eq!(g.tags.lookup("Ariel-b"), Some((TAG_CLOCK_OFFSET_MS + 8_000, -70)));
    assert!(g.on_gnss_reading(Some(1_234), &reading()).is_some());
    assert!(g.on_update_tick(12_500, "gw".to_string()));
    let u = g.status.get().unwrap();
    assert_eq!(u.timestamp, 1_234);
    assert_eq!(u.detected_tags[0].age, 7);
    assert_eq!(u.detected_tags[1].age, 4);
    assert_eq!(u.location.unwrap().latitude.value, 10);
    assert_eq!(g.last_update_at, 12_500);
    assert!(!g.on_update_tick(22_499, "gw".to_string()));
    assert!(g.on_update_tick(22_500, "gw".to_string()));
    assert_eq!(g.status.get().unwrap().detected_tags[0].age, 17);
}

#[test]
fn gateway_accumulates_and_forgets() {
    let mut g = Gateway::new(0);
    g.on_scan_report(&report(), 10_000);
    let later = TagsSeen { tags: vec![DetectedTag { id: "Ariel-c".to_string(), age: 1, rssi: -50 }] };
    g.on_scan_report(&later, 300_000);
    assert_eq!(g.tags.len(), 3);
    // a newer report refreshes a tag
    let again = TagsSeen { tags: vec![DetectedTag { id: "Ariel-a".to_string(), age: 0, rssi: -45 }] };
    g.on_scan_report(&again, 400_000);
    assert_eq!(g.tags.lookup("Ariel-a"), Some((TAG_CLOCK_OFFSET_MS + 400_000, -45)));
    // Ariel-b was last heard at 10_000
    g.on_cleanup(10_000 + TAG_EXPIRY_MS);
    assert_eq!(g.tags.len(), 3);
    g.on_cleanup(10_001 + TAG_EXPIRY_MS);
    assert_eq!(g.tags.lookup("Ariel-b"), None);
    assert_eq!(g.tags.len(), 2);
}

#[test]
fn gateway_skips_long_names() {
    let mut g = Gateway::new(0);
    let long = TagsSeen { tags: vec![DetectedTag { id: "x".repeat(65), age: 0, rssi: 0 }] };
    g.on_scan_report(&long, 5);
    assert_eq!(g.tags.len(), 0);
}

#[test]
fn gateway_clock_check() {
    let mut g = Gateway::new(10);
    assert!(!g.clock_ok(9));
    g.on_scan_report(&report(), 100);
    assert!(g.clock_ok(100));
    assert!(!Gateway::new(200).clock_ok(150));
    assert!(Gateway::new(0).clock_ok(MAX_CLOCK_MS));
    assert!(!Gateway::new(0).clock_ok(MAX_CLOCK_MS + 1));
}

#[test]
fn age_carried_from_before_clock_start() {
    // at gateway clock 5 s a report says a tag was heard 100 s ago; an
    // update at 15 s gives it as heard 110 s ago
    let mut g = Gateway::new(0);
    let early = TagsSeen { tags: vec![DetectedTag { id: "Ariel-e".to_string(), age: 100, rssi: -60 }] };
    g.on_scan_report(&early, 5_000);
    assert!(g.on_update_tick(15_000, "gw".to_string()));
    assert_eq!(g.status.get().unwrap().detected_tags[0].age, 110);
}

#[test]
fn age_saturates_at_limit() {
    let mut g = Gateway::new(0);
    let old = TagsSeen { tags: vec![DetectedTag { id: "Ariel-o".to_string(), age: u16::MAX, rssi: -60 }] };
    g.on_scan_report(&old, 1_000);
    assert!(g.on_update_tick(20_000, "gw".to_string()));
    assert_eq!(g.status.get().unwrap().detected_tags[0].age, u16::MAX);
}

#[test]
fn tag_heard_before_clock_start_expires_by_hearing_time() {
    let mut g = Gateway::new(0);
    let early = TagsSeen { tags: vec![DetectedTag { id: "Ariel-e".to_string(), age: 100, rssi: -60 }] };
    g.on_scan_report(&early, 5_000);
    // heard at -95 s: kept until 505 s, gone after
    g.on_cleanup(505_000);
    assert_eq!(g.tags.len(), 1);
    g.on_cleanup(505_001);
    assert_eq!(g.tags.len(), 0);
}

#[test]
fn device_id_texts() {
    assert_eq!(device_id_text(Some(&[0x0a_u8, 0xff, 0x10][..])), "0aff10");
    assert_eq!(device_id_text(Some(&[0u8; 0][..])), "");
    assert_eq!(device_id_text(None), "unknown");
}
