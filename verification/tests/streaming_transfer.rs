//! Transfer of blobs in chunks.

use peat_mesh::storage::streaming_transfer::{
    ReadStep, StreamingTransferConfig, Transfer, TransferCheckpoint, TransferError, TransferResult,
};
use sha2::Digest;

type CheckpointCallback = Box<dyn Fn(&TransferCheckpoint) -> Result<(), TransferError>>;

fn progress(cp: &TransferCheckpoint) -> f64 {
    if cp.total_size == 0 {
        1.0
    } else {
        cp.offset as f64 / cp.total_size as f64
    }
}

/// Runs a transfer from one buffer to another.
fn stream_transfer(
    source: &[u8],
    target: &mut Vec<u8>,
    config: &StreamingTransferConfig,
    checkpoint: &mut TransferCheckpoint,
    on_checkpoint: Option<CheckpointCallback>,
) -> Result<TransferResult, TransferError> {
    let mut transfer = Transfer::begin(checkpoint);
    let mut at = 0;
    loop {
        let n = transfer.next_read(config).min(source.len() - at);
        let data = &source[at..at + n];
        at += n;
        match transfer.on_read(config, checkpoint, data)? {
            ReadStep::Skipped => {}
            ReadStep::Finish => break,
            ReadStep::Write => {
                target.extend_from_slice(data);
                if Transfer::on_written(checkpoint, config, n) {
                    if let Some(save) = &on_checkpoint {
                        save(checkpoint)?;
                        transfer.on_checkpoint_saved();
                    }
                }
            }
        }
    }
    transfer.finish(config, checkpoint)
}


#[test]
fn test_config_profiles() {
    let dc = StreamingTransferConfig::datacenter();
    assert_eq!(dc.chunk_size, 32 * 1024 * 1024);
    assert_eq!(dc.checkpoint_interval, 128);
    assert_eq!(dc.checkpoint_bytes(), 32 * 1024 * 1024 * 128);

    let tac = StreamingTransferConfig::tactical();
    assert_eq!(tac.chunk_size, 8 * 1024 * 1024);

    let edge = StreamingTransferConfig::edge();
    assert_eq!(edge.chunk_size, 1024 * 1024);
    assert_eq!(edge.checkpoint_interval, 32);
}

#[test]
fn test_config_custom() {
    let c = StreamingTransferConfig::custom(4096, 10);
    assert_eq!(c.chunk_size, 4096);
    assert_eq!(c.checkpoint_interval, 10);
    assert_eq!(c.checkpoint_bytes(), 40960);
}

#[test]
fn test_checkpoint_new() {
    let cp = TransferCheckpoint::new("sess-1", "sha256:abc", 1000);
    assert_eq!(cp.session_id, "sess-1");
    assert_eq!(cp.offset, 0);
    assert!(!cp.is_complete());
    assert_eq!(cp.remaining(), 1000);
    assert!((progress(&cp) - 0.0).abs() < f64::EPSILON);
}

#[test]
fn test_checkpoint_progress() {
    let mut cp = TransferCheckpoint::new("sess-1", "sha256:abc", 1000);
    cp.offset = 500;
    assert!((progress(&cp) - 0.5).abs() < f64::EPSILON);
    assert_eq!(cp.remaining(), 500);
    assert!(!cp.is_complete());

    cp.offset = 1000;
    assert!(cp.is_complete());
    assert_eq!(cp.remaining(), 0);
}

#[test]
fn test_checkpoint_zero_size() {
    let cp = TransferCheckpoint::new("sess-1", "", 0);
    assert!(cp.is_complete());
    assert!((progress(&cp) - 1.0).abs() < f64::EPSILON);
}

#[test]
fn test_stream_transfer_small_blob() {
    let data = b"hello world, this is a test blob";
    let source = data.to_vec();
    let mut target = Vec::new();

    let config = StreamingTransferConfig::custom(16, 2); // 16-byte chunks, checkpoint every 2
    let mut checkpoint = TransferCheckpoint::new("test-1", "", data.len() as u64);

    let result = stream_transfer(&source, &mut target, &config, &mut checkpoint, None)
        
        .unwrap();

    assert_eq!(target, data);
    assert_eq!(result.bytes_transferred, data.len() as u64);
    assert_eq!(result.total_size, data.len() as u64);
    assert!(!result.resumed);
    assert!(result.computed_digest.starts_with("sha256:"));
}

#[test]
fn test_stream_transfer_with_checkpoints() {
    let data = vec![0xABu8; 1024]; // 1KB of 0xAB
    let source = data.clone();
    let mut target = Vec::new();

    let config = StreamingTransferConfig::custom(100, 2); // 100-byte chunks, checkpoint every 2
    let mut checkpoint = TransferCheckpoint::new("test-2", "", data.len() as u64);

    let on_checkpoint: CheckpointCallback = Box::new(|_cp| Ok(()));

    let result = stream_transfer(
        &source,
        &mut target,
        &config,
        &mut checkpoint,
        Some(on_checkpoint),
    )
    
    .unwrap();

    assert_eq!(target, data);
    assert!(result.checkpoints_saved > 0);
    // 1024 bytes / 100 byte chunks = ~10 chunks, checkpoint every 2 = ~5 checkpoints
    assert!(result.checkpoints_saved >= 4);
}

#[test]
fn test_stream_transfer_digest_verification() {
    let data = b"test data for digest verification";

    // Compute expected digest
    let mut hasher = sha2::Sha256::new();
    hasher.update(data);
    let expected = format!("sha256:{}", hex::encode(hasher.finalize()));

    // Transfer with correct expected digest
    let source = data.to_vec();
    let mut target = Vec::new();
    let config = StreamingTransferConfig::custom(1024, 1);
    let mut checkpoint = TransferCheckpoint::new("test-3", &expected, data.len() as u64);

    let result = stream_transfer(&source, &mut target, &config, &mut checkpoint, None)
        
        .unwrap();
    assert_eq!(result.computed_digest, expected);
}

#[test]
fn test_stream_transfer_digest_mismatch() {
    let data = b"test data";
    let source = data.to_vec();
    let mut target = Vec::new();
    let config = StreamingTransferConfig::custom(1024, 1);
    let mut checkpoint = TransferCheckpoint::new("test-4", "sha256:wrong", data.len() as u64);

    let result = stream_transfer(&source, &mut target, &config, &mut checkpoint, None);
    assert!(result.is_err());
    let err = result.unwrap_err();
    match err {
        TransferError::InvalidData(text) => assert!(text.contains("digest mismatch")),
        other => panic!("expected InvalidData, got {:?}", other),
    }
}

#[test]
fn test_stream_transfer_resume() {
    // Simulate: first 50 bytes already transferred, resume from offset 50
    let data = vec![0xCDu8; 200];
    let source = data.clone();
    let mut target = Vec::new();

    let config = StreamingTransferConfig::custom(50, 1);
    let mut checkpoint = TransferCheckpoint::new("test-5", "", data.len() as u64);
    checkpoint.offset = 50; // Already transferred 50 bytes

    let result = stream_transfer(&source, &mut target, &config, &mut checkpoint, None)
        
        .unwrap();

    assert!(result.resumed);
    // Only the remaining 150 bytes should be written to target
    assert_eq!(result.bytes_transferred, 150);
    assert_eq!(target.len(), 150);
    assert_eq!(result.total_size, 200);
}

#[test]
fn test_stream_transfer_empty() {
    let source = Vec::<u8>::new();
    let mut target = Vec::new();
    let config = StreamingTransferConfig::custom(1024, 1);
    let mut checkpoint = TransferCheckpoint::new("test-6", "", 0);

    let result = stream_transfer(&source, &mut target, &config, &mut checkpoint, None)
        
        .unwrap();

    assert!(target.is_empty());
    assert_eq!(result.bytes_transferred, 0);
    assert!(checkpoint.is_complete());
}

#[test]
fn test_stream_transfer_exact_chunk_boundary() {
    // Blob size exactly divisible by chunk size
    let data = vec![0xEFu8; 300];
    let source = data.clone();
    let mut target = Vec::new();
    let config = StreamingTransferConfig::custom(100, 1);
    let mut checkpoint = TransferCheckpoint::new("test-7", "", 300);

    let result = stream_transfer(&source, &mut target, &config, &mut checkpoint, None)
        
        .unwrap();

    assert_eq!(target, data);
    assert_eq!(result.bytes_transferred, 300);
}

#[test]
fn test_stream_transfer_checkpoint_callback_error() {
    let data = vec![0u8; 500];
    let source = data;
    let mut target = Vec::new();
    let config = StreamingTransferConfig::custom(50, 2);
    let mut checkpoint = TransferCheckpoint::new("test-8", "", 500);

    let on_checkpoint: CheckpointCallback = Box::new(|_cp| {
        Err(TransferError::InvalidData("checkpoint store full".to_string()))
    });

    let result = stream_transfer(
        &source,
        &mut target,
        &config,
        &mut checkpoint,
        Some(on_checkpoint),
    )
    ;

    assert!(result.is_err());
}

#[test]
fn test_transfer_result_fields() {
    let result = TransferResult {
        bytes_transferred: 5000,
        total_size: 10000,
        computed_digest: "sha256:abc".to_string(),
        resumed: true,
        checkpoints_saved: 3,
    };
    assert_eq!(result.bytes_transferred, 5000);
    assert!(result.resumed);
}

#[test]
fn test_stream_transfer_source_too_short() {
    let config = StreamingTransferConfig::custom(50, 1);
    let mut checkpoint = TransferCheckpoint::new("test-9", "", 200);
    checkpoint.offset = 150;
    let mut target = Vec::new();
    let err = stream_transfer(&[1u8; 100], &mut target, &config, &mut checkpoint, None).unwrap_err();
    match err {
        TransferError::UnexpectedEof(text) => {
            assert_eq!(text, "source ended at 150 while skipping to offset 150")
        }
        other => panic!("expected UnexpectedEof, got {:?}", other),
    }
    assert!(target.is_empty());
}

#[test]
fn test_resumed_digest_covers_what_was_skipped() {
    let data: Vec<u8> = (0..=255).collect();
    let digest = format!("sha256:{}", hex::encode(sha2::Sha256::digest(&data)));
    let config = StreamingTransferConfig::custom(33, 2);
    let mut checkpoint = TransferCheckpoint::new("test-10", &digest, 256);
    checkpoint.offset = 100;
    let mut target = Vec::new();
    let result = stream_transfer(&data, &mut target, &config, &mut checkpoint, None).unwrap();
    assert_eq!(result.computed_digest, digest);
    assert_eq!(target, data[100..]);
    assert_eq!(checkpoint.chunks_completed, 5);
}

#[test]
fn test_default_profile_is_tactical() {
    assert_eq!(StreamingTransferConfig::default(), StreamingTransferConfig::tactical());
}
