//! The lightweight transport: messages, peers, and documents on the wire.

use peat_mesh::json::{object_get, Json, Number};
use peat_mesh::transport::bridge::{LiteDocumentBridge, OrSetElement};
use peat_mesh::transport::lite::{
    ConnectionState, DisconnectReason, Inbound, LiteMeshTransport, LiteSyncMode, LiteTransportConfig, NodeId, PeerEvent,
    ReceiveLoop, TransportError,
};
use peat_mesh::transport::wire::{CrdtType, LiteCapabilities, LiteMessage, MessageType, QueryRequest};
use peat_mesh::vec_map::VecMap;

const SECOND: u64 = 1_000_000_000;

fn field<'a>(fields: &'a VecMap<String, Json>, key: &str) -> &'a Json {
    fields.get(&key.to_string()).unwrap()
}

fn text<'a>(fields: &'a VecMap<String, Json>, key: &str) -> &'a str {
    field(fields, key).as_text().unwrap()
}

fn number(fields: &VecMap<String, Json>, key: &str) -> u64 {
    field(fields, key).as_u64().unwrap()
}

#[test]
fn test_message_encode_decode() {
    let msg = LiteMessage {
        msg_type: MessageType::Heartbeat,
        flags: 0,
        node_id: 0x12345678,
        seq_num: 42,
        payload: vec![],
    };

    let encoded = msg.encode();
    let decoded = LiteMessage::decode(&encoded).unwrap();

    assert_eq!(decoded.msg_type, MessageType::Heartbeat);
    assert_eq!(decoded.node_id, 0x12345678);
    assert_eq!(decoded.seq_num, 42);
}

#[test]
fn test_message_with_payload() {
    let msg = LiteMessage::data(0xAABBCCDD, 100, CrdtType::GCounter, &[1, 2, 3, 4]);

    let encoded = msg.encode();
    let decoded = LiteMessage::decode(&encoded).unwrap();

    assert_eq!(decoded.msg_type, MessageType::Data);
    assert_eq!(decoded.payload[0], CrdtType::GCounter.to_u8());
    assert_eq!(&decoded.payload[1..], &[1, 2, 3, 4]);
}

#[test]
fn test_invalid_magic() {
    let buf = [
        0x00, 0x00, 0x00, 0x00, 0x01, 0x01, 0, 0, 0, 0, 0, 0, 0, 0, 0, 0,
    ];
    assert!(LiteMessage::decode(&buf).is_none());
}

#[test]
fn test_capabilities() {
    let caps = LiteCapabilities::from_bits(
        LiteCapabilities::PRIMITIVE_CRDT | LiteCapabilities::SENSOR_INPUT,
    );
    assert!(caps.has(LiteCapabilities::PRIMITIVE_CRDT));
    assert!(caps.has(LiteCapabilities::SENSOR_INPUT));
    assert!(!caps.has(LiteCapabilities::DOCUMENT_CRDT));
}

#[test]
fn test_decode_gcounter() {
    // GCounter with 2 entries: node 0x11111111=5, node 0x22222222=10
    let mut data = Vec::new();
    data.extend_from_slice(&0x11111111u32.to_le_bytes()); // local node id
    data.extend_from_slice(&2u16.to_le_bytes()); // num entries
    data.extend_from_slice(&0x11111111u32.to_le_bytes()); // entry 1 node
    data.extend_from_slice(&5u64.to_le_bytes()); // entry 1 count
    data.extend_from_slice(&0x22222222u32.to_le_bytes()); // entry 2 node
    data.extend_from_slice(&10u64.to_le_bytes()); // entry 2 count

    let (counts, total) = LiteDocumentBridge::decode_gcounter(&data).unwrap();
    assert_eq!(counts.len(), 2);
    assert_eq!(counts[0], (0x11111111, 5));
    assert_eq!(counts[1], (0x22222222, 10));
    assert_eq!(total, 15);
}

#[test]
fn test_decode_lww_register() {
    // LWW-Register: timestamp=1000, node=0xAABBCCDD, value="Hi"
    let mut data = Vec::new();
    data.extend_from_slice(&1000u64.to_le_bytes());
    data.extend_from_slice(&0xAABBCCDDu32.to_le_bytes());
    data.extend_from_slice(b"Hi");

    let (ts, node, value) = LiteDocumentBridge::decode_lww_register(&data).unwrap();
    assert_eq!(ts, 1000);
    assert_eq!(node, 0xAABBCCDD);
    assert_eq!(value, b"Hi");
}

#[test]
fn test_gcounter_roundtrip() {
    let counts = vec![(0x11111111u32, 5u64), (0x22222222u32, 10u64)];
    let fields = LiteDocumentBridge::gcounter_to_fields("test-node", &counts, 15);

    assert_eq!(text(&fields, "type"), "gcounter");
    assert_eq!(number(&fields, "total"), 15);

    // Re-encode
    let encoded = LiteDocumentBridge::encode_gcounter_from_doc(&fields).unwrap();

    // Decode again (skip local_node_id which is 0 from Full node)
    let (decoded_counts, decoded_total) =
        LiteDocumentBridge::decode_gcounter(&encoded).unwrap();

    assert_eq!(decoded_total, 15);
    assert_eq!(decoded_counts.len(), 2);
}

#[test]
fn test_collection_filtering() {
    let config = LiteTransportConfig {
        outbound_collections: vec!["beacons".to_string(), "alerts".to_string()],
        inbound_collections: vec!["lite_sensors".to_string()],
        ..Default::default()
    };

    let transport = LiteMeshTransport::new(LiteTransportConfig::default(), 0x12345678);
    let bridge = LiteDocumentBridge::new(transport, config);

    // Outbound checks
    assert!(bridge.sends_outbound("beacons"));
    assert!(bridge.sends_outbound("alerts"));
    assert!(!bridge.sends_outbound("squad_summaries"));

    // Inbound checks
    assert!(bridge.accepts_inbound("lite_sensors"));
    assert!(!bridge.accepts_inbound("lite_events")); // Not in list
}

#[test]
fn test_send_to_not_started() {
    let transport = LiteMeshTransport::new(LiteTransportConfig::default(), 0x12345678);
    let result = transport.peer_address(&NodeId::new("AABBCCDD".to_string()));
    assert!(matches!(result, Err(TransportError::NotStarted)));
}

#[test]
fn test_send_to_unknown_peer() {
    let config = LiteTransportConfig {
        listen_port: 0, // OS-assigned port
        ..Default::default()
    };
    let mut transport = LiteMeshTransport::new(config, 0x12345678);
    transport.start();

    let result = transport.peer_address(&NodeId::new("AABBCCDD".to_string()));
    assert!(matches!(result, Err(TransportError::PeerNotFound(_))));

    transport.stop();
}

// === PnCounter tests ===

#[test]
fn test_decode_pncounter() {
    let mut data = Vec::new();
    data.extend_from_slice(&0x11111111u32.to_le_bytes()); // local node id
    data.extend_from_slice(&2u16.to_le_bytes()); // num entries
                                                 // Entry 1: node=0x11, inc=10, dec=3
    data.extend_from_slice(&0x11111111u32.to_le_bytes());
    data.extend_from_slice(&10u64.to_le_bytes());
    data.extend_from_slice(&3u64.to_le_bytes());
    // Entry 2: node=0x22, inc=5, dec=1
    data.extend_from_slice(&0x22222222u32.to_le_bytes());
    data.extend_from_slice(&5u64.to_le_bytes());
    data.extend_from_slice(&1u64.to_le_bytes());

    let (entries, net) = LiteDocumentBridge::decode_pncounter(&data).unwrap();
    assert_eq!(entries.len(), 2);
    assert_eq!(entries[0], (0x11111111, 10, 3));
    assert_eq!(entries[1], (0x22222222, 5, 1));
    assert_eq!(net, 11); // (10-3) + (5-1)
}

#[test]
fn test_pncounter_to_fields() {
    let entries = vec![(0x11111111u32, 10u64, 3u64), (0x22222222u32, 5u64, 1u64)];
    let fields = LiteDocumentBridge::pncounter_to_fields("test-node", &entries, 11);

    assert_eq!(text(&fields, "type"), "pncounter");
    assert_eq!(number(&fields, "net_value"), 11);
    assert!(fields.contains_key(&"node_entries".to_string()));
}

#[test]
fn test_pncounter_roundtrip() {
    let entries = vec![(0x11111111u32, 10u64, 3u64), (0x22222222u32, 5u64, 1u64)];
    let fields = LiteDocumentBridge::pncounter_to_fields("test-node", &entries, 11);

    let encoded = LiteDocumentBridge::encode_pncounter_from_doc(&fields).unwrap();
    let (decoded_entries, decoded_net) =
        LiteDocumentBridge::decode_pncounter(&encoded).unwrap();

    assert_eq!(decoded_net, 11);
    assert_eq!(decoded_entries.len(), 2);
}

#[test]
fn test_pncounter_short_buffer() {
    // Too short for header
    assert!(LiteDocumentBridge::decode_pncounter(&[0; 5]).is_none());

    // Header says 1 entry but buffer is too short
    let mut data = Vec::new();
    data.extend_from_slice(&0u32.to_le_bytes());
    data.extend_from_slice(&1u16.to_le_bytes());
    assert!(LiteDocumentBridge::decode_pncounter(&data).is_none());
}

// === OrSet tests ===

#[test]
fn test_decode_orset() {
    let mut data = Vec::new();
    data.extend_from_slice(&0xAABBCCDDu32.to_le_bytes()); // local node id
    data.extend_from_slice(&2u16.to_le_bytes()); // num elements
                                                 // Element 1: tag_node=0x11, tag_seq=1, value="hi"
    data.extend_from_slice(&0x11111111u32.to_le_bytes());
    data.extend_from_slice(&1u32.to_le_bytes());
    data.extend_from_slice(&2u16.to_le_bytes());
    data.extend_from_slice(b"hi");
    // Element 2: tag_node=0x22, tag_seq=2, value="bye"
    data.extend_from_slice(&0x22222222u32.to_le_bytes());
    data.extend_from_slice(&2u32.to_le_bytes());
    data.extend_from_slice(&3u16.to_le_bytes());
    data.extend_from_slice(b"bye");

    let (local_id, elements) = LiteDocumentBridge::decode_orset(&data).unwrap();
    assert_eq!(local_id, 0xAABBCCDD);
    assert_eq!(elements.len(), 2);
    assert_eq!(
        elements[0],
        OrSetElement {
            tag_node_id: 0x11111111,
            tag_seq: 1,
            value: b"hi".to_vec(),
        }
    );
    assert_eq!(
        elements[1],
        OrSetElement {
            tag_node_id: 0x22222222,
            tag_seq: 2,
            value: b"bye".to_vec(),
        }
    );
}

#[test]
fn test_orset_to_fields() {
    let elements = vec![
        OrSetElement {
            tag_node_id: 0x11111111,
            tag_seq: 1,
            value: b"hi".to_vec(),
        },
        OrSetElement {
            tag_node_id: 0x22222222,
            tag_seq: 2,
            value: b"bye".to_vec(),
        },
    ];

    let fields = LiteDocumentBridge::orset_to_fields("test-node", &elements);
    assert_eq!(text(&fields, "type"), "orset");
    assert_eq!(number(&fields, "count"), 2);
    assert!(fields.contains_key(&"elements".to_string()));
}

#[test]
fn test_orset_roundtrip() {
    let elements = vec![
        OrSetElement {
            tag_node_id: 0x11111111,
            tag_seq: 1,
            value: b"hi".to_vec(),
        },
        OrSetElement {
            tag_node_id: 0x22222222,
            tag_seq: 2,
            value: b"bye".to_vec(),
        },
    ];

    let fields = LiteDocumentBridge::orset_to_fields("test-node", &elements);
    let encoded = LiteDocumentBridge::encode_orset_from_doc(&fields).unwrap();
    let (_local_id, decoded_elements) = LiteDocumentBridge::decode_orset(&encoded).unwrap();

    assert_eq!(decoded_elements.len(), 2);
    assert_eq!(decoded_elements[0].value, b"hi");
    assert_eq!(decoded_elements[1].value, b"bye");
}

#[test]
fn test_orset_empty_set() {
    let mut data = Vec::new();
    data.extend_from_slice(&0u32.to_le_bytes());
    data.extend_from_slice(&0u16.to_le_bytes());

    let (_, elements) = LiteDocumentBridge::decode_orset(&data).unwrap();
    assert!(elements.is_empty());
}

#[test]
fn test_orset_short_buffer() {
    assert!(LiteDocumentBridge::decode_orset(&[0; 5]).is_none());

    // Header says 1 element but buffer is too short
    let mut data = Vec::new();
    data.extend_from_slice(&0u32.to_le_bytes());
    data.extend_from_slice(&1u16.to_le_bytes());
    assert!(LiteDocumentBridge::decode_orset(&data).is_none());
}

#[test]
fn test_orset_cut_short_is_refused() {
    let elements = vec![
        OrSetElement { tag_node_id: 1, tag_seq: 2, value: vec![3, 4] },
        OrSetElement { tag_node_id: 5, tag_seq: 6, value: vec![] },
    ];
    let fields = LiteDocumentBridge::orset_to_fields("n", &elements);
    let encoded = LiteDocumentBridge::encode_orset_from_doc(&fields).unwrap();
    assert_eq!(LiteDocumentBridge::decode_orset(&encoded).unwrap().1, elements);
    for n in 0..encoded.len() {
        assert!(LiteDocumentBridge::decode_orset(&encoded[..n]).is_none());
    }
}

// === Query tests ===

#[test]
fn test_query_request_encode_decode() {
    let request = QueryRequest {
        crdt_type: CrdtType::LwwRegister,
        collection: "sensors".to_string(),
        doc_id: Some("temp-01".to_string()),
    };

    let encoded = request.encode();
    let decoded = QueryRequest::decode(&encoded).unwrap();

    assert_eq!(decoded.crdt_type, CrdtType::LwwRegister);
    assert_eq!(decoded.collection, "sensors");
    assert_eq!(decoded.doc_id, Some("temp-01".to_string()));
}

#[test]
fn test_query_request_no_doc_id() {
    let request = QueryRequest {
        crdt_type: CrdtType::GCounter,
        collection: "counters".to_string(),
        doc_id: None,
    };

    let encoded = request.encode();
    let decoded = QueryRequest::decode(&encoded).unwrap();

    assert_eq!(decoded.crdt_type, CrdtType::GCounter);
    assert_eq!(decoded.collection, "counters");
    assert!(decoded.doc_id.is_none());
}

#[test]
fn test_query_request_short_buffer() {
    assert!(QueryRequest::decode(&[0; 2]).is_none());
    // Invalid CRDT type
    assert!(QueryRequest::decode(&[0xFF, 0, 0]).is_none());
}

#[test]
fn test_query_message_construction() {
    let request = QueryRequest {
        crdt_type: CrdtType::OrSet,
        collection: "tags".to_string(),
        doc_id: None,
    };

    let msg = LiteMessage::query(0x12345678, 42, &request);
    assert_eq!(msg.msg_type, MessageType::Query);
    assert_eq!(msg.node_id, 0x12345678);
    assert_eq!(msg.seq_num, 42);

    // Decode the payload
    let decoded_req = QueryRequest::decode(&msg.payload).unwrap();
    assert_eq!(decoded_req.crdt_type, CrdtType::OrSet);
    assert_eq!(decoded_req.collection, "tags");
}

#[test]
fn test_handle_query_message() {
    let mut transport = LiteMeshTransport::new(LiteTransportConfig::default(), 0x12345678);

    // Build a query message from a different node
    let request = QueryRequest {
        crdt_type: CrdtType::LwwRegister,
        collection: "sensors".to_string(),
        doc_id: None,
    };
    let msg = LiteMessage::query(0xAABBCCDD, 1, &request);

    let handled = transport.handle_message(msg, "192.168.1.100:5555".to_string(), 0);
    match handled.action {
        Inbound::Query { request } => assert_eq!(request.collection, "sensors"),
        other => panic!("expected a query, got {:?}", other),
    }
}

fn heartbeat(node_id: u32, seq_num: u32) -> LiteMessage {
    LiteMessage { msg_type: MessageType::Heartbeat, flags: 0, node_id, seq_num, payload: vec![] }
}

#[test]
fn test_message_bytes() {
    let msg = LiteMessage {
        msg_type: MessageType::Heartbeat,
        flags: 0x0102,
        node_id: 0x0A0B0C0D,
        seq_num: 5,
        payload: vec![9],
    };
    let encoded = msg.encode();
    assert_eq!(encoded[..4], *b"PEAT");
    assert_eq!(encoded[6..], [2, 1, 0x0D, 0x0C, 0x0B, 0x0A, 5, 0, 0, 0, 9]);
    for n in 0..16 {
        assert!(LiteMessage::decode(&encoded[..n]).is_none());
    }
}

#[test]
fn test_life_of_a_peer() {
    let mut transport = LiteMeshTransport::new(LiteTransportConfig::default(), 1);
    let peer = NodeId::new("lite-000000AB".to_string());
    assert!(transport.connect(&peer).is_err());

    let handled = transport.handle_message(heartbeat(0xAB, 1), "10.0.0.1:5555".to_string(), 100);
    assert!(matches!(handled.action, Inbound::Nothing));
    assert_eq!(handled.events.len(), 1);
    match &handled.events[0] {
        PeerEvent::Connected { peer_id, connected_at } => {
            assert_eq!(peer_id.as_str(), "lite-000000AB");
            assert_eq!(*connected_at, 100);
        }
        other => panic!("expected Connected, got {:?}", other),
    }
    assert!(transport.handle_message(heartbeat(0xAB, 2), "10.0.0.2:5555".to_string(), 200).events.is_empty());
    let state = transport.peer_state(&peer).unwrap();
    assert_eq!((state.last_seq, state.message_count, state.connected_at, state.last_seen), (2, 2, 100, 200));
    assert_eq!(state.address, "10.0.0.2:5555");
    assert_eq!(transport.connect(&peer).unwrap().connected_at(), 100);
    assert_eq!(transport.peer_count(), 1);

    assert!(matches!(transport.peer_address(&peer), Err(TransportError::NotStarted)));
    transport.start();
    assert!(transport.is_running());
    assert_eq!(transport.peer_address(&peer).unwrap(), "10.0.0.2:5555");
    assert_eq!(transport.broadcast_address().unwrap().unwrap(), "255.255.255.255:5555");

    let leave = LiteMessage { msg_type: MessageType::Leave, ..heartbeat(0xAB, 3) };
    let events = transport.handle_message(leave, "10.0.0.2:5555".to_string(), 300).events;
    match &events[..] {
        [PeerEvent::Disconnected { reason, connection_duration, .. }] => {
            assert_eq!(*reason, DisconnectReason::RemoteClosed);
            assert_eq!(*connection_duration, 200);
        }
        other => panic!("expected Disconnected, got {:?}", other),
    }
    assert_eq!(transport.peer_count(), 0);
    assert!(transport.disconnect(&peer, 400).is_err());
}

#[test]
fn test_own_messages_are_ignored() {
    let mut transport = LiteMeshTransport::new(LiteTransportConfig::default(), 0xAB);
    assert!(transport.handle_message(heartbeat(0xAB, 1), "10.0.0.1:1".to_string(), 0).events.is_empty());
    assert_eq!(transport.peer_count(), 0);
}

#[test]
fn test_stale_peers() {
    let mut transport = LiteMeshTransport::new(LiteTransportConfig::default(), 1);
    transport.handle_message(heartbeat(2, 1), "a:1".to_string(), 0);
    transport.handle_message(heartbeat(3, 1), "b:1".to_string(), 20 * SECOND);
    let mut receive = ReceiveLoop::new(28 * SECOND);
    assert!(receive.step(&mut transport, None, 33 * SECOND).stale.is_empty());
    assert_eq!(transport.peer_count(), 2);
    let turn = receive.step(&mut transport, Some((heartbeat(4, 1).encode(), "c:1".to_string())), 34 * SECOND);
    assert_eq!(turn.handled.unwrap().events.len(), 1);
    assert_eq!(turn.stale.len(), 1);
    let names: Vec<String> = transport.connected_peers().iter().map(|n| n.as_str().to_string()).collect();
    assert_eq!(names.len(), 2);
    assert!(!names.contains(&"lite-00000002".to_string()));
    let junk = receive.step(&mut transport, Some((vec![1, 2, 3], "c:1".to_string())), 34 * SECOND);
    assert!(junk.handled.is_none());
}

#[test]
fn test_data_message_reaches_its_collection() {
    let mut transport = LiteMeshTransport::new(LiteTransportConfig::default(), 1);
    let msg = LiteMessage::data(0xAB, 1, CrdtType::GCounter, &[7, 8]);
    match transport.handle_message(msg, "a:1".to_string(), 0).action {
        Inbound::Crdt { collection, doc_id, crdt_type, data } => {
            assert!(collection.starts_with("lite_"));
            assert!(doc_id.contains("000000AB"));
            assert_eq!(crdt_type, CrdtType::GCounter);
            assert_eq!(data, [7, 8]);
        }
        other => panic!("expected data, got {:?}", other),
    }
}

#[test]
fn test_ota_message_is_handed_on() {
    let mut transport = LiteMeshTransport::new(LiteTransportConfig::default(), 1);
    let msg = LiteMessage { msg_type: MessageType::OtaAck, payload: vec![1, 0, 2, 0], ..heartbeat(0xAB, 1) };
    match transport.handle_message(msg, "a:1".to_string(), 0).action {
        Inbound::Ota { peer_id, msg_type, payload } => {
            assert_eq!(peer_id, "lite-000000AB");
            assert_eq!(msg_type, MessageType::OtaAck);
            assert_eq!(payload, [1, 0, 2, 0]);
        }
        other => panic!("expected a firmware message, got {:?}", other),
    }
}

#[test]
fn test_lww_document() {
    let encoded = LiteDocumentBridge::encode_lww_from_doc(b"{}", 1000, 0xAABBCCDD);
    let (timestamp, node, value) = LiteDocumentBridge::decode_lww_register(&encoded).unwrap();
    assert_eq!((timestamp, node, value.as_slice()), (1000, 0xAABBCCDD, b"{}".as_slice()));
    assert!(LiteDocumentBridge::decode_lww_register(&encoded[..11]).is_none());

    let fields = LiteDocumentBridge::lww_register_to_fields_at("n", 5, b"Hi", 9);
    assert_eq!(text(&fields, "value_hex"), "4869");
    assert_eq!(number(&fields, "timestamp"), 5);
    assert_eq!(number(&fields, "updated_at"), 9);
}

#[test]
fn test_overflowing_counters_do_not_fit() {
    let mut data = Vec::new();
    data.extend_from_slice(&0u32.to_le_bytes());
    data.extend_from_slice(&2u16.to_le_bytes());
    for _ in 0..2 {
        data.extend_from_slice(&1u32.to_le_bytes());
        data.extend_from_slice(&u64::MAX.to_le_bytes());
    }
    assert!(!LiteDocumentBridge::gcounter_fits(&data));
    data[4] = 1;
    assert!(LiteDocumentBridge::gcounter_fits(&data));

    // As signed numbers these are the largest and the smallest
    let mut data = Vec::new();
    data.extend_from_slice(&0u32.to_le_bytes());
    data.extend_from_slice(&1u16.to_le_bytes());
    data.extend_from_slice(&1u32.to_le_bytes());
    data.extend_from_slice(&(i64::MAX as u64).to_le_bytes());
    data.extend_from_slice(&(i64::MIN as u64).to_le_bytes());
    assert!(!LiteDocumentBridge::pncounter_fits(&data));
    data[4] = 0;
    assert!(LiteDocumentBridge::pncounter_fits(&data));
    assert!(LiteDocumentBridge::pncounter_fits(&[]));
}

#[test]
fn test_health_of_a_peer() {
    let mut transport = LiteMeshTransport::new(LiteTransportConfig::default(), 1);
    let peer = NodeId::new("lite-000000AB".to_string());
    assert!(transport.get_peer_health(&peer, 0).is_none());
    transport.handle_message(heartbeat(0xAB, 1), "10.0.0.1:5555".to_string(), SECOND);
    let connection = transport.get_connection(&peer).unwrap();
    assert_eq!(connection.peer_id().as_str(), "lite-000000AB");
    for (seconds, state, alive) in [
        (1, ConnectionState::Healthy, true),
        (10, ConnectionState::Healthy, true),
        (11, ConnectionState::Degraded, true),
        (30, ConnectionState::Degraded, true),
        (31, ConnectionState::Dead, false),
    ] {
        let health = transport.get_peer_health(&peer, seconds * SECOND).unwrap();
        assert_eq!(health.state, state);
        assert_eq!(health.last_activity, SECOND);
        assert_eq!((health.rtt_ms, health.rtt_variance_ms, health.packet_loss_percent), (0, 0, 0));
        assert_eq!(connection.is_alive(transport.peer_state(&peer).unwrap(), seconds * SECOND), alive);
    }
}

#[test]
fn test_gcounter_document_keeps_the_last_count() {
    let counts = vec![(1u32, 5u64), (2, 6), (1, 7)];
    let fields = LiteDocumentBridge::gcounter_to_fields_at("n", &counts, 18, 0);
    match field(&fields, "node_counts") {
        Json::Object(entries) => {
            assert_eq!(entries.len(), 2);
            assert!(matches!(object_get(entries, "00000001"), Some(Json::Number(Number::Unsigned(7)))));
        }
        other => panic!("expected an object, got {:?}", other),
    }
    let encoded = LiteDocumentBridge::encode_gcounter_from_doc(&fields).unwrap();
    let (counts, total) = LiteDocumentBridge::decode_gcounter(&encoded).unwrap();
    assert_eq!(counts, [(1, 7), (2, 6)]);
    assert_eq!(total, 13);
}

#[test]
fn test_broadcast_document() {
    let transport = LiteMeshTransport::new(LiteTransportConfig::default(), 0x11);
    let mut bridge = LiteDocumentBridge::new(transport, LiteTransportConfig::default());
    let fields = LiteDocumentBridge::gcounter_to_fields_at("n", &[(1, 5)], 5, 0);
    assert!(bridge.broadcast_document("other", &fields, 0, None).unwrap().is_none());
    let msg = bridge.broadcast_document("beacons", &fields, 0, None).unwrap().unwrap();
    assert_eq!((msg.msg_type, msg.node_id, msg.seq_num), (MessageType::Data, 0x11, 1));
    assert_eq!(msg.payload[0], CrdtType::GCounter.to_u8());

    let empty: VecMap<String, Json> = VecMap::new();
    let msg = bridge.broadcast_document("alerts", &empty, 0, Some((b"{}".to_vec(), 3))).unwrap().unwrap();
    assert_eq!(msg.seq_num, 2);
    assert_eq!(msg.payload[0], CrdtType::LwwRegister.to_u8());
    assert_eq!(msg.payload[1..], LiteDocumentBridge::encode_lww_from_doc(b"{}", 3, 0x11)[..]);
    match bridge.broadcast_document("alerts", &empty, 0, None) {
        Err(TransportError::Other(e)) => assert_eq!(e, "Failed to encode LWW"),
        other => panic!("expected an error, got {:?}", other),
    }

    let mut bad: VecMap<String, Json> = VecMap::new();
    bad.insert("elements".to_string(), Json::Null);
    match bridge.broadcast_document("alerts", &bad, 0, None) {
        Err(TransportError::Other(e)) => assert_eq!(e, "Failed to encode OrSet"),
        other => panic!("expected an error, got {:?}", other),
    }
}

#[test]
fn test_receive_only_sends_nothing() {
    let config = LiteTransportConfig { outbound_sync_mode: LiteSyncMode::ReceiveOnly, ..Default::default() };
    let mut bridge = LiteDocumentBridge::new(LiteMeshTransport::new(LiteTransportConfig::default(), 0x11), config);
    let fields = LiteDocumentBridge::gcounter_to_fields_at("n", &[(1, 5)], 5, 0);
    assert!(bridge.broadcast_document("beacons", &fields, 0, None).unwrap().is_none());
    assert_eq!(bridge.transport.seq_num, 0);
}

#[test]
fn test_old_documents_are_skipped() {
    let fields = LiteDocumentBridge::gcounter_to_fields_at("n", &[(1, 5)], 5, 0);
    let transport = || LiteMeshTransport::new(LiteTransportConfig::default(), 0x11);
    let mut bridge = LiteDocumentBridge::new(transport(), LiteTransportConfig::default());
    assert!(bridge.broadcast_document("beacons", &fields, 300, None).unwrap().is_some());
    assert!(bridge.broadcast_document("beacons", &fields, 301, None).unwrap().is_none());
    assert_eq!(bridge.transport.seq_num, 1);
    // Without a limit no document is too old
    let config = LiteTransportConfig { max_document_age_secs: 0, ..Default::default() };
    let mut bridge = LiteDocumentBridge::new(transport(), config);
    assert!(bridge.broadcast_document("beacons", &fields, u64::MAX, None).unwrap().is_some());
}

#[test]
fn test_broadcast_can_be_disabled() {
    let mut transport = LiteMeshTransport::new(LiteTransportConfig::default(), 1);
    assert!(matches!(transport.broadcast_address(), Err(TransportError::NotStarted)));
    transport.start();
    assert_eq!(transport.broadcast_address().unwrap().unwrap(), "255.255.255.255:5555");
    let config = LiteTransportConfig { enable_broadcast: false, ..Default::default() };
    let mut silent = LiteMeshTransport::new(config, 1);
    assert!(matches!(silent.broadcast_address(), Err(TransportError::NotStarted)));
    silent.start();
    assert_eq!(silent.broadcast_address().unwrap(), None);
}

#[test]
fn test_empty_inbound_list_accepts_all() {
    let config = LiteTransportConfig { inbound_collections: vec![], ..Default::default() };
    let transport = LiteMeshTransport::new(LiteTransportConfig::default(), 1);
    let bridge = LiteDocumentBridge::new(transport, config);
    assert!(bridge.accepts_inbound("anything"));
}

#[test]
fn test_unlisted_collection_is_not_handed_on() {
    let data = || LiteMessage::data(0xAB, 1, CrdtType::GCounter, &[7, 8]);
    let other = LiteTransportConfig { inbound_collections: vec!["other".to_string()], ..Default::default() };
    let mut closed = LiteMeshTransport::new(other, 1);
    let handled = closed.handle_message(data(), "a:1".to_string(), 0);
    assert!(matches!(handled.action, Inbound::Nothing));
    // The sender is still a peer.
    assert_eq!(handled.events.len(), 1);
    assert_eq!(closed.peer_count(), 1);
    let mut receive = ReceiveLoop::new(0);
    let turn = receive.step(&mut closed, Some((data().encode(), "a:1".to_string())), 1);
    assert!(matches!(turn.handled.unwrap().action, Inbound::Nothing));

    let all = LiteTransportConfig { inbound_collections: vec![], ..Default::default() };
    let mut open = LiteMeshTransport::new(all, 1);
    match open.handle_message(data(), "a:1".to_string(), 0).action {
        Inbound::Crdt { collection, .. } => assert_eq!(collection, "lite_sensors"),
        other => panic!("expected data, got {:?}", other),
    }
}

#[test]
fn test_last_sequence_number() {
    let transport = LiteMeshTransport::new(LiteTransportConfig::default(), 1);
    let mut bridge = LiteDocumentBridge::new(transport, LiteTransportConfig::default());
    assert_eq!(bridge.transport.last_seq(), 0);
    bridge.broadcast_document("beacons", &VecMap::new(), 0, Some((b"{}".to_vec(), 1))).unwrap().unwrap();
    assert_eq!(bridge.transport.last_seq(), 1);
}
