use fubuki::{
    check_ingress, decode_snapshot, encode_snapshot, keepalive_message, on_device_error,
    parse_keepalive, route_egress, SNAPSHOT,
    ClientEngine, Counters, DeviceError, CreationFault, Egress, Endpoint, Ingress, IntegrityError,
    LoopControl, NodeEntry, NodeMap, Platform, ServerAction, ServerEngine, KEEPALIVE,
};

fn ipv4_to(dst: [u8; 4]) -> Vec<u8> {
    let mut p = vec![0x45u8, 0, 0, 20, 0, 0, 0, 0, 64, 17, 0, 0, 10, 0, 0, 2];
    p.extend_from_slice(&dst);
    p
}

fn ep(last: u8, port: u16) -> Endpoint {
    Endpoint::V4 { ip: u32::from_be_bytes([198, 51, 100, last]), port }
}

#[test]
fn client_sends_to_known_peer_once() {
    let e = ep(7, 4000);
    let mut snap = NodeMap::new();
    snap.upsert(NodeEntry { virtual_addr: 0x0A00_0003, endpoint: e, last_seen: 1, generation: 3 });
    let mut client = ClientEngine::new(Platform::Linux);
    client.install_snapshot(snap);
    let r = client.on_tun_packet(&ipv4_to([10, 0, 0, 3]));
    assert_eq!(r, Egress::Send { endpoint: e });
    let c = client.counters();
    assert_eq!(c.sent, 1);
    assert_eq!(c.routing_misses, 0);
}

#[test]
fn client_routing_miss_sends_nothing() {
    let mut client = ClientEngine::new(Platform::Linux);
    let r = client.on_tun_packet(&ipv4_to([10, 0, 0, 9]));
    assert_eq!(r, Egress::RoutingMiss { destination: 0x0A00_0009 });
    let c = client.counters();
    assert_eq!(c.sent, 0);
    assert_eq!(c.routing_misses, 1);
}

#[test]
fn client_drops_malformed_packet() {
    let mut client = ClientEngine::new(Platform::Linux);
    assert_eq!(client.on_tun_packet(&[0x45, 0, 0]), Egress::Malformed);
    assert_eq!(client.counters().malformed, 1);
}

#[test]
fn route_egress_uses_map() {
    let mut m = NodeMap::new();
    m.upsert(NodeEntry { virtual_addr: 0x0A00_0005, endpoint: ep(5, 5), last_seen: 0, generation: 1 });
    assert_eq!(route_egress(&m, &ipv4_to([10, 0, 0, 5])), Egress::Send { endpoint: ep(5, 5) });
    assert_eq!(
        route_egress(&m, &ipv4_to([10, 0, 0, 6])),
        Egress::RoutingMiss { destination: 0x0A00_0006 }
    );
}

#[test]
fn failed_decryption_never_delivered() {
    assert!(matches!(check_ingress(Err(IntegrityError)), Ingress::IntegrityFailure));
    let mut client = ClientEngine::new(Platform::Linux);
    let r = client.on_transport_packet(Err(IntegrityError), false);
    assert!(matches!(r, Ingress::IntegrityFailure));
    let c = client.counters();
    assert_eq!(c.integrity_failures, 1);
    assert_eq!(c.delivered, 0);
}

#[test]
fn decrypted_packet_is_delivered_unchanged() {
    let p = ipv4_to([10, 0, 0, 2]);
    let mut client = ClientEngine::new(Platform::Linux);
    match client.on_transport_packet(Ok(p.clone()), false) {
        Ingress::Deliver(q) => assert_eq!(q, p),
        other => panic!("unexpected {:?}", other),
    }
    assert_eq!(client.counters().delivered, 1);
}

#[test]
fn decrypted_garbage_is_malformed() {
    assert!(matches!(check_ingress(Ok(vec![1, 2, 3])), Ingress::Malformed));
}

#[test]
fn server_learns_observed_source() {
    let e2 = ep(2, 5555);
    let mut server = ServerEngine::new();
    let mut payload = keepalive_message(0x0A00_0004);
    payload.extend_from_slice(&[203, 0, 113, 9, 0x1F, 0x90]);
    let r = server.on_keepalive(e2, &payload, 42).unwrap();
    assert_eq!(r.virtual_addr, 0x0A00_0004);
    assert_eq!(r.endpoint, e2);
    assert_eq!(r.generation, 1);
    assert_eq!(server.map().lookup(0x0A00_0004), Some(e2));
    assert_eq!(server.counters().registrations, 1);
}

#[test]
fn server_rebinds_on_new_source() {
    let mut server = ServerEngine::new();
    let msg = keepalive_message(0x0A00_0004);
    server.on_keepalive(ep(1, 1), &msg, 1);
    let r = server.on_keepalive(ep(2, 2), &msg, 2).unwrap();
    assert_eq!(r.generation, 2);
    assert_eq!(server.map().lookup(0x0A00_0004), Some(ep(2, 2)));
}

#[test]
fn server_ignores_non_keepalive() {
    let mut server = ServerEngine::new();
    assert_eq!(server.on_keepalive(ep(1, 1), &[KEEPALIVE, 10, 0], 1), None);
    assert_eq!(server.on_keepalive(ep(1, 1), &[9, 10, 0, 0, 4], 1), None);
    assert_eq!(server.map().len(), 0);
    assert_eq!(server.counters().malformed, 2);
}

#[test]
fn server_relays_and_evicts() {
    let mut server = ServerEngine::new();
    server.on_keepalive(ep(3, 3), &keepalive_message(0x0A00_0003), 10);
    server.on_keepalive(ep(4, 4), &keepalive_message(0x0A00_0004), 50);
    assert_eq!(server.relay(&ipv4_to([10, 0, 0, 3])), Egress::Send { endpoint: ep(3, 3) });
    server.evict_stale(60, 20);
    assert_eq!(server.relay(&ipv4_to([10, 0, 0, 3])), Egress::RoutingMiss { destination: 0x0A00_0003 });
    assert_eq!(server.relay(&ipv4_to([10, 0, 0, 4])), Egress::Send { endpoint: ep(4, 4) });
    let snap = server.snapshot();
    assert_eq!(snap.len(), 1);
    let c = server.counters();
    assert_eq!(c.sent, 2);
    assert_eq!(c.routing_misses, 1);
}

#[test]
fn keepalive_bytes() {
    assert_eq!(keepalive_message(0x0A00_0004), vec![KEEPALIVE, 10, 0, 0, 4]);
    assert_eq!(parse_keepalive(&[KEEPALIVE, 0xC0, 0xA8, 0x01, 0x02]), Some(0xC0A8_0102));
    assert_eq!(parse_keepalive(&keepalive_message(u32::MAX)), Some(u32::MAX));
}

#[test]
fn device_error_policy() {
    let benign = DeviceError::Io { raw_os_error: Some(22) };
    assert_eq!(on_device_error(Platform::Linux, benign), LoopControl::Continue);
    assert_eq!(on_device_error(Platform::Windows, benign), LoopControl::Stop);
    assert_eq!(
        on_device_error(Platform::Linux, DeviceError::Io { raw_os_error: Some(5) }),
        LoopControl::Stop
    );
    assert_eq!(
        on_device_error(Platform::Linux, DeviceError::Creation(CreationFault::ZeroMtu)),
        LoopControl::Stop
    );
    let client = ClientEngine::new(Platform::Macos);
    assert_eq!(client.on_device_error(benign), LoopControl::Stop);
}

#[test]
fn counters_start_at_zero() {
    let c = Counters::new();
    assert_eq!(c.sent + c.routing_misses + c.malformed + c.integrity_failures + c.delivered + c.registrations, 0);
    assert_eq!(ClientEngine::new(Platform::Ios).counters(), c);
}

#[test]
fn server_datagram_dispatch() {
    let mut server = ServerEngine::new();
    let e4 = ep(4, 4);
    let r = server.on_datagram(e4, Ok(keepalive_message(0x0A00_0004)), 7);
    assert_eq!(
        r,
        ServerAction::Registered(NodeEntry {
            virtual_addr: 0x0A00_0004,
            endpoint: e4,
            last_seen: 7,
            generation: 1
        })
    );
    assert_eq!(
        server.on_datagram(ep(9, 9), Ok(ipv4_to([10, 0, 0, 4])), 8),
        ServerAction::Forward(Egress::Send { endpoint: e4 })
    );
    assert_eq!(
        server.on_datagram(ep(9, 9), Ok(ipv4_to([10, 0, 0, 5])), 8),
        ServerAction::Forward(Egress::RoutingMiss { destination: 0x0A00_0005 })
    );
    assert_eq!(server.on_datagram(ep(9, 9), Ok(vec![KEEPALIVE, 1]), 8), ServerAction::Malformed);
    assert_eq!(server.on_datagram(ep(9, 9), Err(IntegrityError), 8), ServerAction::IntegrityFailure);
    let c = server.counters();
    assert_eq!(c.registrations, 1);
    assert_eq!(c.sent, 1);
    assert_eq!(c.routing_misses, 1);
    assert_eq!(c.malformed, 1);
    assert_eq!(c.integrity_failures, 1);
    assert_eq!(server.map().len(), 1);
}

#[test]
fn client_installs_snapshot_from_server_only() {
    let mut server = ServerEngine::new();
    server.on_keepalive(ep(3, 3), &keepalive_message(0x0A00_0003), 10);
    server.on_keepalive(ep(4, 4), &keepalive_message(0x0A00_0004), 11);
    let msg = server.snapshot_message();
    assert_eq!(msg[0], SNAPSHOT);

    let mut client = ClientEngine::new(Platform::Linux);
    assert!(matches!(client.on_transport_packet(Ok(msg.clone()), false), Ingress::Malformed));
    assert_eq!(client.map().len(), 0);
    assert!(matches!(client.on_transport_packet(Ok(msg), true), Ingress::MapRefreshed));
    assert_eq!(client.map().len(), 2);
    assert_eq!(client.map().lookup(0x0A00_0004), Some(ep(4, 4)));
    assert_eq!(client.on_tun_packet(&ipv4_to([10, 0, 0, 3])), Egress::Send { endpoint: ep(3, 3) });
    let c = client.counters();
    assert_eq!(c.snapshots, 1);
    assert_eq!(c.malformed, 1);
}

#[test]
fn client_rejects_truncated_snapshot() {
    let entries = [NodeEntry { virtual_addr: 1, endpoint: ep(1, 1), last_seen: 2, generation: 3 }];
    let mut msg = encode_snapshot(&entries);
    msg.pop();
    let mut client = ClientEngine::new(Platform::Linux);
    assert!(matches!(client.on_transport_packet(Ok(msg), true), Ingress::Malformed));
    assert_eq!(client.counters().malformed, 1);
}

#[test]
fn snapshot_round_trip() {
    let entries = vec![
        NodeEntry { virtual_addr: 0x0A00_0003, endpoint: ep(7, 4000), last_seen: 1, generation: 3 },
        NodeEntry {
            virtual_addr: 0x0A00_0009,
            endpoint: Endpoint::V6 { ip6: 0x2001_0db8_0000_0000_0000_0000_0000_0001, port: 443 },
            last_seen: u64::MAX,
            generation: 7,
        },
    ];
    let msg = encode_snapshot(&entries);
    assert_eq!(msg.len(), 1 + 2 * fubuki::ENTRY_LEN);
    assert_eq!(decode_snapshot(&msg), Some(entries));
    assert_eq!(decode_snapshot(&[SNAPSHOT]), Some(vec![]));
}

#[test]
fn snapshot_entry_layout() {
    let e = NodeEntry {
        virtual_addr: 0x0A00_0003,
        endpoint: Endpoint::V4 { ip: 0xC000_0201, port: 0x1F90 },
        last_seen: 0x0102,
        generation: 3,
    };
    let msg = encode_snapshot(&[e]);
    let mut want = vec![SNAPSHOT, 10, 0, 0, 3, 4];
    want.extend_from_slice(&[0; 12]);
    want.extend_from_slice(&[192, 0, 2, 1, 0x1F, 0x90]);
    want.extend_from_slice(&[0, 0, 0, 0, 0, 0, 1, 2]);
    want.extend_from_slice(&[0, 0, 0, 0, 0, 0, 0, 3]);
    assert_eq!(msg, want);
}

#[test]
fn snapshot_decode_rejects_bad_input() {
    assert_eq!(decode_snapshot(&[]), None);
    assert_eq!(decode_snapshot(&[KEEPALIVE]), None);
    let e = NodeEntry { virtual_addr: 1, endpoint: ep(1, 1), last_seen: 2, generation: 3 };
    let mut msg = encode_snapshot(&[e]);
    msg[5] = 5;
    assert_eq!(decode_snapshot(&msg), None);
    let mut msg = encode_snapshot(&[e]);
    msg[6] = 1;
    assert_eq!(decode_snapshot(&msg), None);
}

#[test]
fn node_map_query_and_registration_reply() {
    assert!(fubuki::is_node_map_query(&[fubuki::NODE_MAP_QUERY]));
    assert!(!fubuki::is_node_map_query(&[fubuki::NODE_MAP_QUERY, 0]));
    assert!(!fubuki::is_node_map_query(&[]));
    let mut server = ServerEngine::new();
    let a = server.on_datagram(ep(4, 4), Ok(keepalive_message(0x0A00_0004)), 1);
    let reply = server.reply_for(a).unwrap();
    assert_eq!(decode_snapshot(&reply).unwrap().len(), 1);
    let b = server.on_datagram(ep(4, 4), Err(IntegrityError), 1);
    assert_eq!(server.reply_for(b), None);
}
