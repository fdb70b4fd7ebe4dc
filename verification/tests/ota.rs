//! Firmware images and their delivery, and the upload endpoint.

use peat_mesh::broker::ota_routes::{
    finish_upload, ota_status, upload_firmware, FieldKind, OtaUploadResponse, UploadForm, MAX_FIRMWARE_SIZE,
};
use peat_mesh::node::dispatch_ota;
use peat_mesh::security::keypair::{verify_signed, DeviceKeypair};
use peat_mesh::transport::lite::NodeId;
use peat_mesh::transport::lite_ota::{FirmwareImage, OtaSender, OTA_CHUNK_DATA_SIZE, OTA_FLAG_SIGNED};
use peat_mesh::transport::wire::{LiteMessage, MessageType, MAX_PACKET_SIZE};
use sha2::Digest;

const MS: u64 = 1_000_000;

#[test]
fn test_firmware_image_new() {
    let data = vec![0xAA; 1000];
    let fw = FirmwareImage::new(data.clone(), "1.0.0");

    assert_eq!(fw.data.len(), 1000);
    assert_eq!(fw.chunk_size, OTA_CHUNK_DATA_SIZE as u16);
    assert_eq!(fw.total_chunks, 3); // ceil(1000 / 448) = 3

    // Verify version
    assert_eq!(&fw.version[..5], b"1.0.0");
    assert_eq!(fw.version[5], 0);

    // Verify SHA256
    let mut hasher = sha2::Sha256::new();
    hasher.update(&data);
    let expected: [u8; 32] = hasher.finalize().into();
    assert_eq!(fw.sha256, expected);
}

#[test]
fn test_firmware_image_chunks() {
    let data = vec![0xBB; 1000];
    let fw = FirmwareImage::new(data, "0.1.0");

    // Chunk 0: 448 bytes
    let c0 = fw.chunk(0).unwrap();
    assert_eq!(c0.len(), 448);

    // Chunk 1: 448 bytes
    let c1 = fw.chunk(1).unwrap();
    assert_eq!(c1.len(), 448);

    // Chunk 2: remainder (1000 - 896 = 104 bytes)
    let c2 = fw.chunk(2).unwrap();
    assert_eq!(c2.len(), 104);

    // Chunk 3: out of bounds
    assert!(fw.chunk(3).is_none());
}

#[test]
fn test_firmware_image_exact_multiple() {
    let data = vec![0xCC; 896]; // Exactly 2 chunks
    let fw = FirmwareImage::new(data, "2.0");

    assert_eq!(fw.total_chunks, 2);
    assert_eq!(fw.chunk(0).unwrap().len(), 448);
    assert_eq!(fw.chunk(1).unwrap().len(), 448);
    assert!(fw.chunk(2).is_none());
}

#[test]
fn test_firmware_image_single_chunk() {
    let data = vec![0xDD; 100];
    let fw = FirmwareImage::new(data, "0.0.1");

    assert_eq!(fw.total_chunks, 1);
    assert_eq!(fw.chunk(0).unwrap().len(), 100);
    assert!(fw.chunk(1).is_none());
}

#[test]
fn test_version_truncation() {
    let data = vec![0; 10];
    let fw = FirmwareImage::new(data, "this-is-a-very-long-version-string");

    // Should be truncated to 15 bytes + null
    let ver_str = std::str::from_utf8(
        &fw.version[..fw.version.iter().position(|&b| b == 0).unwrap_or(16)],
    )
    .unwrap();
    assert_eq!(ver_str, "this-is-a-very-");
}

fn named(session: u16, number: u16) -> Vec<u8> {
    let mut payload = session.to_le_bytes().to_vec();
    payload.extend_from_slice(&number.to_le_bytes());
    payload
}

fn offered(sender: &mut OtaSender, data: Vec<u8>, now: u64) -> (u16, LiteMessage) {
    let offer = sender.prepare_offer(FirmwareImage::new(data, "1.0"));
    let message = offer.message.clone();
    let id = sender.offer_to_peer(&NodeId::new("lite-1".to_string()), offer, Ok(()), now).unwrap();
    (id, message)
}

#[test]
fn test_delivery() {
    let firmware: Vec<u8> = (0..1000u32).map(|i| (i % 251) as u8).collect();
    let mut sender = OtaSender::new(7, None);
    let (id, offer) = offered(&mut sender, firmware.clone(), 0);
    assert_eq!(id, 1);
    assert_eq!(offer.msg_type, MessageType::OtaOffer);
    assert!(offer.encode().len() <= MAX_PACKET_SIZE);

    let mut got = Vec::new();
    let mut reply = sender.handle_accept("lite-1", &named(id, 0), 10 * MS);
    for chunk in 0..3u16 {
        let msg = reply.unwrap();
        assert_eq!(msg.msg_type, MessageType::OtaData);
        assert_eq!(msg.payload[..4], named(id, chunk)[..]);
        assert!(msg.encode().len() <= MAX_PACKET_SIZE);
        got.extend_from_slice(&msg.payload[msg.payload.len() - (if chunk < 2 { 448 } else { 104 })..]);
        reply = sender.handle_ack("lite-1", &named(id, chunk), 20 * MS);
    }
    assert_eq!(got, firmware);
    assert_eq!(reply.unwrap().msg_type, MessageType::OtaComplete);
    let info = sender.get_status("lite-1", 3_000_000_000).unwrap();
    assert_eq!(info.progress_percent, 100);
    assert_eq!(info.chunks_sent, 3);
    assert_eq!(info.elapsed_secs, 3);
    sender.handle_result("lite-1", &[1, 0, 0]);
    assert_eq!(sender.get_status("lite-1", 0).unwrap().state, "complete");
}

#[test]
fn test_resumed_delivery() {
    let mut sender = OtaSender::new(7, None);
    let (id, _) = offered(&mut sender, vec![1; 1000], 0);
    let msg = sender.handle_accept("lite-1", &named(id, 2), 0).unwrap();
    assert_eq!(msg.payload[..4], named(id, 2)[..]);
    assert_eq!(sender.get_status("lite-1", 0).unwrap().progress_percent, 66);
}

#[test]
fn test_retries() {
    let mut sender = OtaSender::new(7, None);
    let (id, offer) = offered(&mut sender, vec![1; 10], 0);
    let mut now = 0;
    assert!(sender.tick(500 * MS).is_empty());
    for _ in 0..5 {
        now += 501 * MS;
        let sent = sender.tick(now);
        assert_eq!(sent.len(), 1);
        assert_eq!(sent[0].0, "lite-1");
        assert_eq!(sent[0].1.payload, offer.payload);
    }
    now += 501 * MS;
    let sent = sender.tick(now);
    assert_eq!(sent[0].1.msg_type, MessageType::OtaAbort);
    assert_eq!(sent[0].1.payload[..2], id.to_le_bytes());
    assert_eq!(sender.get_status("lite-1", now).unwrap().state, "failed: offer not accepted");
    assert!(sender.tick(now + 501 * MS).is_empty());
}

#[test]
fn test_session_timeout() {
    let mut sender = OtaSender::new(7, None);
    offered(&mut sender, vec![1; 10], 0);
    assert_eq!(sender.tick(300_000 * MS + 1)[0].1.msg_type, MessageType::OtaAbort);
    assert_eq!(sender.get_status("lite-1", 0).unwrap().state, "failed: session timeout");
}

#[test]
fn test_foreign_messages() {
    let mut sender = OtaSender::new(7, None);
    let (id, _) = offered(&mut sender, vec![1; 10], 0);
    assert!(sender.handle_accept("lite-2", &named(id, 0), 0).is_none());
    assert!(sender.handle_accept("lite-1", &named(id + 1, 0), 0).is_none());
    assert!(sender.handle_accept("lite-1", &named(id, 0)[..3], 0).is_none());
    assert_eq!(sender.get_status("lite-1", 0).unwrap().state, "offered");
    assert!(sender.get_status("lite-2", 0).is_none());
}

#[test]
fn test_results_and_aborts() {
    let reasons = [
        (1, "failed: hash mismatch"),
        (2, "failed: flash error"),
        (3, "failed: invalid offer"),
        (4, "failed: signature invalid"),
        (5, "failed: signature required"),
        (6, "failed: unknown"),
    ];
    for (code, state) in reasons {
        let mut sender = OtaSender::new(7, None);
        offered(&mut sender, vec![1; 10], 0);
        dispatch_ota(&mut sender, "lite-1", MessageType::OtaResult, &[1, 0, code], 0);
        assert_eq!(sender.get_status("lite-1", 0).unwrap().state, state);
    }
    let mut sender = OtaSender::new(7, None);
    offered(&mut sender, vec![1; 10], 0);
    dispatch_ota(&mut sender, "lite-1", MessageType::OtaAbort, &[1, 0, 9], 0);
    assert_eq!(sender.get_status("lite-1", 0).unwrap().state, "failed: peer aborted: reason=9");
}

#[test]
fn test_signed_offer() {
    let keypair = DeviceKeypair::generate();
    let public = keypair.public_key_bytes();
    let mut sender = OtaSender::new(7, Some(keypair));
    let offer = sender.prepare_offer(FirmwareImage::new(vec![5; 600], "1.0"));
    let signature = offer.firmware.signature.unwrap();
    assert!(verify_signed(&public, &offer.firmware.sha256, &signature).is_ok());
    assert_eq!(OTA_FLAG_SIGNED, 1);
    assert_eq!(offer.message.payload.len(), 140);
    assert_eq!(offer.message.payload[58..60], OTA_FLAG_SIGNED.to_le_bytes());
    assert_eq!(offer.message.payload[60..124], signature);
}

#[test]
fn test_session_ids_skip_zero() {
    let mut sender = OtaSender::new(7, None);
    for id in 1..=65535u16 {
        assert_eq!(sender.prepare_offer(FirmwareImage::new(vec![], "")).session_id, id);
    }
    assert_eq!(sender.prepare_offer(FirmwareImage::new(vec![], "")).session_id, 1);
}

#[test]
fn test_offer_that_could_not_be_sent() {
    let mut sender = OtaSender::new(7, None);
    let offer = sender.prepare_offer(FirmwareImage::new(vec![1], "1.0"));
    let sent = sender.offer_to_peer(&NodeId::new("lite-1".to_string()), offer, Err("no route".to_string()), 0);
    assert_eq!(sent.unwrap_err(), "Failed to send OTA offer: no route");
    assert!(sender.get_status("lite-1", 0).is_none());
}

#[test]
fn test_ota_upload_response_debug_impl() {
    let resp = OtaUploadResponse {
        session_id: 1,
        peer_id: "p".to_string(),
        firmware_size: 0,
        total_chunks: 0,
        version: "0".to_string(),
    };
    let debug = format!("{:?}", resp);
    assert!(debug.contains("OtaUploadResponse"));
    assert!(debug.contains("session_id"));
}

#[test]
fn test_upload() {
    assert_eq!(UploadForm::kind_of("firmware"), FieldKind::Firmware);
    assert_eq!(UploadForm::kind_of("version"), FieldKind::Version);
    assert_eq!(UploadForm::kind_of("x"), FieldKind::Unknown);

    let mut sender = OtaSender::new(7, None);
    let mut form = UploadForm::new();
    form.set_firmware(Some(vec![1; 1000]));
    form.set_version(Some("0.2.0".to_string()));
    let pending = upload_firmware(&mut sender, form).unwrap();
    let resp = finish_upload(&mut sender, "lite-1".to_string(), pending, Ok(()), 0).unwrap();
    assert_eq!(resp.session_id, 1);
    assert_eq!(resp.peer_id, "lite-1");
    assert_eq!(resp.firmware_size, 1000);
    assert_eq!(resp.total_chunks, 3);
    assert_eq!(resp.version, "0.2.0");
    assert_eq!(ota_status(&sender, "lite-1", 0).unwrap().total_chunks, 3);
    let missing = ota_status(&sender, "lite-2", 0).unwrap_err();
    assert_eq!((missing.status, missing.error.as_str()), (404, "no OTA session for peer: lite-2"));
}

#[test]
fn test_upload_refusals() {
    let mut sender = OtaSender::new(7, None);
    let refused = |sender: &mut OtaSender, data: Option<Vec<u8>>| {
        let mut form = UploadForm::new();
        form.set_firmware(data);
        match upload_firmware(sender, form) {
            Ok(_) => panic!("refused"),
            Err(e) => (e.status, e.error),
        }
    };
    assert_eq!(refused(&mut sender, None), (400, "missing 'firmware' field".to_string()));
    assert_eq!(refused(&mut sender, Some(vec![])), (400, "firmware file is empty".to_string()));
    assert_eq!(
        refused(&mut sender, Some(vec![0; MAX_FIRMWARE_SIZE + 1])),
        (400, "firmware too large (max 3MB)".to_string())
    );

    let mut form = UploadForm::new();
    form.set_firmware(Some(vec![0; MAX_FIRMWARE_SIZE]));
    let pending = upload_firmware(&mut sender, form).unwrap();
    assert_eq!(pending.version, "0.0.0");
    assert_eq!(pending.offer.session_id, 1);
    let failed = finish_upload(&mut sender, "p".to_string(), pending, Err("down".to_string()), 0).unwrap_err();
    assert_eq!(failed.status, 500);
    assert_eq!(failed.error, "failed to start OTA: Failed to send OTA offer: down");
}
