use kcore::net::{eth_crc, generate_arp_frame, generate_ethernet_frame, ArpFrameParams, ArpOperation, EthernetFrameParams};
use kcore::mutex::{LockResult, Mutex};
use kcore::stack::{handle_packet, lookup_held, write_mac_held, ArpTable, PacketAction, STATIC_IP};

const OUR_MAC: [u8; 6] = [0x52, 0x54, 0x00, 0x12, 0x34, 0x56];

fn arp_frame(op: ArpOperation, sha: [u8; 6], spa: [u8; 4], tha: [u8; 6], tpa: [u8; 4]) -> Vec<u8> {
    let arp = generate_arp_frame(&ArpFrameParams {
        hardware_type: 1,
        protocol_type: 0x0800,
        hardware_address_length: 6,
        protocol_address_length: 4,
        operation: op,
        sender_hardware_address: sha,
        sender_protocol_address: spa,
        target_hardware_address: tha,
        target_protocol_address: tpa,
    });
    generate_ethernet_frame(&EthernetFrameParams {
        dest_mac: [0xff; 6],
        source_mac: sha,
        ether_type: 0x0806,
        payload: &arp,
    })
}

#[test]
fn arp_reply_populates_table() {
    let mut table = ArpTable::new();
    assert_eq!(table.lookup(&[192, 168, 2, 1]), None);
    let frame = arp_frame(
        ArpOperation::Reply,
        [0xaa, 0xbb, 0xcc, 0xdd, 0xee, 0xff],
        [192, 168, 2, 1],
        OUR_MAC,
        STATIC_IP,
    );
    assert!(matches!(handle_packet(&frame, &OUR_MAC, &mut table), PacketAction::Ignore));
    assert_eq!(table.lookup(&[192, 168, 2, 1]), Some([0xaa, 0xbb, 0xcc, 0xdd, 0xee, 0xff]));
    assert_eq!(table.lookup(&[192, 168, 2, 3]), None);
}

#[test]
fn table_write_overwrites() {
    let mut table = ArpTable::new();
    table.write_mac(&[10, 0, 0, 1], &[1; 6]);
    table.write_mac(&[10, 0, 0, 1], &[2; 6]);
    table.write_mac(&[10, 0, 0, 2], &[3; 6]);
    assert_eq!(table.lookup(&[10, 0, 0, 1]), Some([2; 6]));
    assert_eq!(table.lookup(&[10, 0, 0, 2]), Some([3; 6]));
}

#[test]
fn arp_request_for_us_is_answered() {
    let mut table = ArpTable::new();
    let requester = [0x52, 0x55, 0x0a, 0x00, 0x02, 0x02];
    let frame = arp_frame(ArpOperation::Request, requester, [10, 0, 2, 2], [0; 6], STATIC_IP);
    let reply = match handle_packet(&frame, &OUR_MAC, &mut table) {
        PacketAction::Send(v) => v,
        _ => panic!("expected a reply"),
    };
    assert_eq!(reply.len(), 64);
    assert_eq!(&reply[0..6], &requester);
    assert_eq!(&reply[6..12], &OUR_MAC);
    assert_eq!(&reply[12..14], &[0x08, 0x06]);
    assert_eq!(&reply[14..22], &[0, 1, 8, 0, 6, 4, 0, 2]);
    assert_eq!(&reply[22..28], &OUR_MAC);
    assert_eq!(&reply[28..32], &STATIC_IP);
    assert_eq!(&reply[32..38], &requester);
    assert_eq!(&reply[38..42], &[10, 0, 2, 2]);
    assert_eq!(&reply[60..], &eth_crc(&reply[..60]).to_be_bytes());
    assert_eq!(table.lookup(&[10, 0, 2, 2]), None);
}

#[test]
fn arp_request_for_other_host_is_ignored() {
    let mut table = ArpTable::new();
    let frame = arp_frame(ArpOperation::Request, [1; 6], [10, 0, 2, 2], [0; 6], [192, 168, 122, 55]);
    assert!(matches!(handle_packet(&frame, &OUR_MAC, &mut table), PacketAction::Ignore));
}

fn udp_frame(data: &[u8]) -> Vec<u8> {
    let udp_len = 8 + data.len();
    let mut udp = vec![0x96, 0x1e, 0x17, 0x70, 0, udp_len as u8, 0, 0];
    udp.extend_from_slice(data);
    let mut ip = vec![0x45, 0, 0, (20 + udp_len) as u8, 0, 0, 0, 0, 0x40, 0x11, 0, 0, 10, 0, 2, 2, 192, 168, 2, 2];
    ip.extend_from_slice(&udp);
    generate_ethernet_frame(&EthernetFrameParams {
        dest_mac: OUR_MAC,
        source_mac: [1; 6],
        ether_type: 0x0800,
        payload: &ip,
    })
}

#[test]
fn exit_request_exits() {
    let mut table = ArpTable::new();
    assert!(matches!(handle_packet(&udp_frame(b"exit\n"), &OUR_MAC, &mut table), PacketAction::Exit(0)));
    assert!(matches!(handle_packet(&udp_frame(b"test\n"), &OUR_MAC, &mut table), PacketAction::Ignore));
}

#[test]
fn malformed_frames_are_ignored() {
    let mut table = ArpTable::new();
    assert!(matches!(handle_packet(&[0u8; 10], &OUR_MAC, &mut table), PacketAction::Ignore));
    let mut f = udp_frame(b"exit\n");
    f[14] = 0x4f;
    assert!(matches!(handle_packet(&f, &OUR_MAC, &mut table), PacketAction::Ignore));
}

#[test]
fn shared_table_writes_in_lock_order() {
    let mut shared = Mutex::new(ArpTable::new());
    assert_eq!(shared.lock(1), LockResult::Acquired);
    assert_eq!(shared.lock(2), LockResult::Queued);
    assert_eq!(shared.lock(3), LockResult::Queued);
    write_mac_held(&mut shared, 1, &[10, 0, 0, 9], &[9; 6]);
    assert_eq!(shared.unlock(), Some(2));
    write_mac_held(&mut shared, 2, &[192, 168, 2, 1], &[1; 6]);
    assert_eq!(shared.unlock(), Some(3));
    write_mac_held(&mut shared, 3, &[192, 168, 2, 1], &[2; 6]);
    assert_eq!(lookup_held(&shared, 3, &[192, 168, 2, 1]), Some([2; 6]));
    assert_eq!(lookup_held(&shared, 3, &[10, 0, 0, 9]), Some([9; 6]));
    assert_eq!(shared.unlock(), None);
}
