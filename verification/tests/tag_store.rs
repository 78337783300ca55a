use ble_gateway::tag_store::{TagStore, Sighting, seconds_since, is_recent, TAG_EXPIRY_MS};
use ble_gateway::types::MAX_SEEN;

fn name_ad(name: &str) -> Vec<u8> {
    let mut data = vec![0x02, 0x01, 0x06];
    data.push((name.len() + 1) as u8);
    data.push(0x09);
    data.extend_from_slice(name.as_bytes());
    data
}

#[test]
fn records_tag_with_prefix() {
    let mut store = TagStore::new("Ariel");
    assert_eq!(store.record_sighting("Ariel-1", -40, 1_000), Sighting::Recorded);
    assert_eq!(store.len(), 1);
    assert_eq!(store.lookup("Ariel-1"), Some((1_000, -40)));
    assert_eq!(store.lookup("Ariel-2"), None);
}

#[test]
fn ignores_other_prefix() {
    let mut store = TagStore::new("Ariel");
    assert_eq!(store.record_sighting("Phone", -40, 1_000), Sighting::OtherPrefix);
    assert_eq!(store.record_sighting("Arie", -40, 1_000), Sighting::OtherPrefix);
    assert_eq!(store.len(), 0);
}

#[test]
fn name_length_limit_in_bytes() {
    let mut store = TagStore::new("Ariel");
    let ok = format!("Ariel{}", "x".repeat(59));
    assert_eq!(ok.len(), 64);
    assert_eq!(store.record_sighting(&ok, -50, 10), Sighting::Recorded);
    let long = format!("Ariel{}", "x".repeat(60));
    assert_eq!(store.record_sighting(&long, -50, 10), Sighting::NameTooLong);
    // 30 two-byte characters after the prefix: 65 bytes, 35 characters
    let wide = format!("Ariel{}", "é".repeat(30));
    assert_eq!(store.record_sighting(&wide, -50, 10), Sighting::NameTooLong);
    assert_eq!(store.len(), 1);
}

#[test]
fn refresh_keeps_order_and_updates_sighting() {
    let mut store = TagStore::new("Ariel");
    store.record_sighting("Ariel-a", -40, 100);
    store.record_sighting("Ariel-b", -41, 200);
    store.record_sighting("Ariel-a", -60, 300);
    assert_eq!(store.len(), 2);
    assert_eq!(store.lookup("Ariel-a"), Some((300, -60)));
    let report = store.scan_report(300);
    assert_eq!(report.tags[0].id, "Ariel-a");
    assert_eq!(report.tags[1].id, "Ariel-b");
}

#[test]
fn cleanup_keeps_only_recent() {
    let mut store = TagStore::new("Ariel");
    store.record_sighting("Ariel-old", -40, 0);
    store.record_sighting("Ariel-new", -40, 1);
    // exactly ten minutes old: kept
    store.remove_old_entries(TAG_EXPIRY_MS);
    assert_eq!(store.lookup("Ariel-old"), Some((0, -40)));
    // older than ten minutes: forgotten
    store.remove_old_entries(TAG_EXPIRY_MS + 1);
    assert_eq!(store.lookup("Ariel-old"), None);
    assert_eq!(store.lookup("Ariel-new"), Some((1, -40)));
    assert!(is_recent(TAG_EXPIRY_MS, 0));
    assert!(!is_recent(TAG_EXPIRY_MS + 1, 0));
}

#[test]
fn full_memory_forgets_stale_tags() {
    let mut store = TagStore::new("Ariel");
    store.record_sighting("Ariel-stale", -40, 0);
    for i in 1..MAX_SEEN {
        store.record_sighting(&format!("Ariel-{}", i), -40, 700_000);
    }
    assert_eq!(store.len(), MAX_SEEN);
    assert_eq!(store.record_sighting("Ariel-late", -30, 700_000), Sighting::Recorded);
    assert_eq!(store.len(), MAX_SEEN);
    assert_eq!(store.lookup("Ariel-stale"), None);
    assert_eq!(store.lookup("Ariel-late"), Some((700_000, -30)));
    assert_eq!(store.lookup("Ariel-1"), Some((700_000, -40)));
}

#[test]
fn full_memory_forgets_oldest_sighting() {
    let mut store = TagStore::new("Ariel");
    for i in 0..MAX_SEEN {
        // all at time 1000 except one earlier; two equally early ones differ by strength
        let t = if i == 5 || i == 7 { 900 } else { 1_000 };
        let rssi = if i == 7 { -80 } else { -40 };
        store.record_sighting(&format!("Ariel-{}", i), rssi, t);
    }
    store.record_sighting("Ariel-new", -30, 1_000);
    assert_eq!(store.len(), MAX_SEEN);
    assert_eq!(store.lookup("Ariel-7"), None);
    assert_eq!(store.lookup("Ariel-5"), Some((900, -40)));
    assert_eq!(store.lookup("Ariel-new"), Some((1_000, -30)));
    // the last entry took the removed one's place, the new one went last
    let report = store.scan_report(1_000);
    assert_eq!(report.tags[7].id, format!("Ariel-{}", MAX_SEEN - 1));
    assert_eq!(report.tags[MAX_SEEN - 1].id, "Ariel-new");
}

#[test]
fn remove_oldest_picks_first_of_equals() {
    let mut store = TagStore::new("Ariel");
    store.record_sighting("Ariel-a", -40, 100);
    store.record_sighting("Ariel-b", -40, 50);
    store.record_sighting("Ariel-c", -40, 50);
    store.remove_oldest_entry();
    assert_eq!(store.lookup("Ariel-b"), None);
    assert_eq!(store.lookup("Ariel-c"), Some((50, -40)));
    let mut empty = TagStore::new("Ariel");
    empty.remove_oldest_entry();
    assert_eq!(empty.len(), 0);
}

#[test]
fn scan_report_ages_in_whole_seconds() {
    let mut store = TagStore::new("Ariel");
    store.record_sighting("Ariel-a", -40, 1_000);
    store.record_sighting("Ariel-b", -70, 0);
    let report = store.scan_report(2_999);
    assert_eq!(report.tags.len(), 2);
    assert_eq!(report.tags[0].age, 1);
    assert_eq!(report.tags[0].rssi, -40);
    assert_eq!(report.tags[1].age, 2);
    assert_eq!(report.tags[1].rssi, -70);
    assert_eq!(seconds_since(70_000_000, 0), u16::MAX);
    assert_eq!(seconds_since(65_535_999, 0), 65_535);
}

#[test]
fn advertisement_name_is_recorded() {
    let mut store = TagStore::new("Ariel");
    let data = name_ad("Ariel-42");
    assert_eq!(store.on_adv_report(&data, -55, 10), Sighting::Recorded);
    assert_eq!(store.lookup("Ariel-42"), Some((10, -55)));
}

#[test]
fn advertisement_without_complete_name() {
    let mut store = TagStore::new("Ariel");
    // shortened local name only
    let data = vec![0x02, 0x01, 0x06, 0x06, 0x08, b'A', b'r', b'i', b'e', b'l'];
    assert_eq!(store.on_adv_report(&data, -55, 10), Sighting::NoName);
    // complete local name that is not UTF-8
    let bad = vec![0x03, 0x09, 0xff, 0xfe];
    assert_eq!(store.on_adv_report(&bad, -55, 10), Sighting::NoName);
    assert_eq!(store.on_adv_report(&[], -55, 10), Sighting::NoName);
    assert_eq!(store.len(), 0);
}

#[test]
fn advertisement_first_complete_name_wins() {
    let mut store = TagStore::new("Ariel");
    let mut data = name_ad("Ariel-first");
    data.extend_from_slice(&[0x07, 0x09, b'A', b'r', b'i', b'e', b'l', b'2']);
    assert_eq!(store.on_adv_report(&data, -55, 10), Sighting::Recorded);
    assert_eq!(store.lookup("Ariel-first"), Some((10, -55)));
    assert_eq!(store.lookup("Ariel2"), None);
}

#[test]
fn advertisement_skips_malformed_structure() {
    let mut store = TagStore::new("Ariel");
    // a structure of length 1 does not decode; decoding goes on after it
    let mut data = vec![0x01, 0x00];
    data.extend_from_slice(&name_ad("Ariel-x"));
    assert_eq!(store.on_adv_report(&data, -55, 10), Sighting::Recorded);
    assert_eq!(store.lookup("Ariel-x"), Some((10, -55)));
}

#[test]
fn cleared_after_send() {
    let mut store = TagStore::new("Ariel");
    store.record_sighting("Ariel-a", -40, 500);
    store.record_sighting("Ariel-b", -40, 600);
    let report = store.scan_report(700);
    assert_eq!(report.tags.len(), 2);
    store.clear();
    assert_eq!(store.len(), 0);
    assert_eq!(store.lookup("Ariel-a"), None);
    assert_eq!(store.record_sighting("Ariel-a", -41, 800), Sighting::Recorded);
    assert_eq!(store.len(), 1);
}

#[test]
fn other_prefix_memory() {
    let mut store = TagStore::new("Tag");
    assert_eq!(store.record_sighting("Ariel-a", -40, 5), Sighting::OtherPrefix);
    assert_eq!(store.record_sighting("Tag-a", -40, 5), Sighting::Recorded);
    let mut any = TagStore::new("");
    assert_eq!(any.record_sighting("whatever", -40, 5), Sighting::Recorded);
    assert_eq!(any.record_sighting_at("older", -40, 2, 5), Sighting::Recorded);
    assert_eq!(any.lookup("older"), Some((2, -40)));
}

#[test]
fn clock_check() {
    let mut store = TagStore::new("Ariel");
    store.record_sighting("Ariel-a", -40, 500);
    assert!(store.all_seen_by(500));
    assert!(!store.all_seen_by(499));
}
