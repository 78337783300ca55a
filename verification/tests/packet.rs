use ble_gateway::packet::{PacketAssembler, Received, PACKET_BUFFER_CAPACITY};

#[test]
fn partial_packet_waits() {
    let mut a = PacketAssembler::new();
    assert!(matches!(a.receive(&[1, 2, 3]), Received::Incomplete));
    assert_eq!(a.pending_len(), 3);
    match a.receive(&[4, 0, 9]) {
        Received::Packet(p) => assert_eq!(p, vec![1, 2, 3, 4]),
        _ => panic!("expected a packet"),
    }
    assert_eq!(a.pending_len(), 1);
}

#[test]
fn one_packet_per_read() {
    let mut a = PacketAssembler::new();
    match a.receive(&[5, 0, 6, 7, 0, 8]) {
        Received::Packet(p) => assert_eq!(p, vec![5]),
        _ => panic!("expected a packet"),
    }
    assert_eq!(a.pending_len(), 4);
    match a.receive(&[]) {
        Received::Packet(p) => assert_eq!(p, vec![6, 7]),
        _ => panic!("expected a packet"),
    }
    assert_eq!(a.pending_len(), 1);
    assert!(matches!(a.receive(&[]), Received::Incomplete));
}

#[test]
fn empty_packet() {
    let mut a = PacketAssembler::new();
    match a.receive(&[0]) {
        Received::Packet(p) => assert!(p.is_empty()),
        _ => panic!("expected a packet"),
    }
    assert_eq!(a.pending_len(), 0);
}

#[test]
fn overflow_empties_buffer() {
    let mut a = PacketAssembler::new();
    let big = vec![1u8; PACKET_BUFFER_CAPACITY];
    assert!(matches!(a.receive(&big), Received::Incomplete));
    assert_eq!(a.pending_len(), PACKET_BUFFER_CAPACITY);
    assert!(matches!(a.receive(&[0]), Received::Overflow));
    assert_eq!(a.pending_len(), 0);
    match a.receive(&[3, 0]) {
        Received::Packet(p) => assert_eq!(p, vec![3]),
        _ => panic!("expected a packet"),
    }
}
