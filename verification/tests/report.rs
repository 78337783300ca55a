use ble_gateway::report::{format_mac, join, report_lines};

#[test]
fn mac_as_in_readme() {
    assert_eq!(format_mac([0xDE, 0x3F, 0xA6, 0x0C, 0x47, 0xEC]), "DE:3F:A6:0C:47:EC");
    assert_eq!(format_mac([0, 1, 0x10, 0xff, 0x0a, 0xb0]), "00:01:10:FF:0A:B0");
}

#[test]
fn few_items_one_per_line() {
    let items: Vec<String> = (0..40).map(|i| format!("t{}", i)).collect();
    let lines = report_lines(&items);
    assert_eq!(lines, items);
}

#[test]
fn many_items_on_one_line() {
    let items: Vec<String> = (0..41).map(|i| format!("t{}", i)).collect();
    let lines = report_lines(&items);
    assert_eq!(lines.len(), 1);
    assert!(lines[0].starts_with("t0, t1, t2"));
    assert!(lines[0].ends_with("t39, t40"));
    assert_eq!(lines[0], items.join(", "));
}

#[test]
fn join_edges() {
    assert_eq!(join(&vec![], ", "), "");
    assert_eq!(join(&vec!["a".to_string()], ", "), "a");
    assert_eq!(join(&vec!["a".to_string(), "b".to_string()], "--"), "a--b");
}
