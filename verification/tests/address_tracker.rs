use ble_gateway::address_tracker::{AddressTracker, MAX_ADDRESSES};

fn addr(i: usize) -> [u8; 6] {
    [0xC0, 0, 0, 0, (i >> 8) as u8, i as u8]
}

#[test]
fn new_address_is_added_once() {
    let mut t = AddressTracker::new();
    assert!(t.on_adv_report(addr(1), 100));
    assert!(!t.on_adv_report(addr(1), 200));
    assert_eq!(t.len(), 1);
    assert_eq!(t.addresses(), vec![addr(1)]);
}

#[test]
fn known_address_keeps_first_time() {
    let mut t = AddressTracker::new();
    t.on_adv_report(addr(1), 100);
    t.on_adv_report(addr(2), 200);
    t.on_adv_report(addr(1), 700_050);
    // first heard at 100: kept at 600_100, expired at 600_101 although heard again later
    t.remove_old_entries(600_100);
    assert_eq!(t.addresses(), vec![addr(1), addr(2)]);
    t.remove_old_entries(600_101);
    assert_eq!(t.addresses(), vec![addr(2)]);
}

#[test]
fn full_tracker_forgets_stale_then_earliest() {
    let mut t = AddressTracker::new();
    for i in 0..MAX_ADDRESSES {
        t.on_adv_report(addr(i), if i == 3 { 10 } else { 20 });
    }
    assert_eq!(t.len(), MAX_ADDRESSES);
    assert!(t.on_adv_report(addr(1000), 30));
    assert_eq!(t.len(), MAX_ADDRESSES);
    let list = t.addresses();
    assert!(!list.contains(&addr(3)));
    assert_eq!(list[3], addr(MAX_ADDRESSES - 1));
    assert_eq!(list[MAX_ADDRESSES - 1], addr(1000));
    // at 600_015 no entry is stale: the earliest goes
    assert!(t.on_adv_report(addr(2000), 600_015));
    let list = t.addresses();
    assert_eq!(list.len(), MAX_ADDRESSES);
    assert!(list.contains(&addr(1000)));
    assert!(list.contains(&addr(2000)));
    assert!(!list.contains(&addr(0)));
}

#[test]
fn remove_oldest_entry_of_addresses() {
    let mut t = AddressTracker::new();
    t.on_adv_report(addr(1), 30);
    t.on_adv_report(addr(2), 10);
    t.on_adv_report(addr(3), 10);
    t.remove_oldest_entry();
    assert_eq!(t.addresses(), vec![addr(1), addr(3)]);
    assert!(t.all_heard_by(30));
    assert!(!t.all_heard_by(29));
}

#[test]
fn report_body_is_json_of_addresses() {
    let mut t = AddressTracker::new();
    assert_eq!(t.report_body(), b"[]".to_vec());
    t.on_adv_report(addr(1), 100);
    t.on_adv_report(addr(258), 200);
    assert_eq!(t.report_body(), b"[[192,0,0,0,0,1],[192,0,0,0,1,2]]".to_vec());
}
