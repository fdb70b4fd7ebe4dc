//! Transfer of large blobs in chunks, with resumable sessions.
//!
//! ```text
//! read -> [SHA-256 hasher] -> [checkpoint] -> write
//! ```
//!
//! A [`Transfer`] says how much is to be read next and what is to be done with what
//! was read; reading, writing and saving checkpoints are the caller's. Memory use
//! does not grow with the blob. A transfer that broke off goes on from its last
//! checkpoint.
//!
//! | Environment | Chunk size | Checkpoint interval |
//! |-------------|------------|---------------------|
//! | Datacenter  | 32 MB      | every 128 chunks    |
//! | Tactical    | 8 MB       | every 64 chunks     |
//! | Edge        | 1 MB       | every 32 chunks     |

use vstd::prelude::*;
use vstd::string::*;

use crate::security::crypto;
use crate::security::crypto::{absorb, finish, new_hasher, Hasher};
use crate::security::error::{joined, joined3};
use crate::text;
use crate::text::{clone_optional, decimal_string, hex_encode, push_text, text_eq};

verus! {

/// Configuration for streaming blob transfer.
#[derive(Clone, Copy, Debug, PartialEq, Eq, Structural)]
pub struct StreamingTransferConfig {
    /// Size of each chunk in bytes (default: 8 MB).
    pub chunk_size: usize,
    /// Number of chunks between checkpoint saves (default: 64).
    pub checkpoint_interval: usize,
    /// Whether to verify the final digest (default: true).
    pub verify_digest: bool,
}

impl Default for StreamingTransferConfig {
    fn default() -> (r: Self)
        ensures
            r == (StreamingTransferConfig { chunk_size: 8388608, checkpoint_interval: 64, verify_digest: true }),
    {
        Self::tactical()
    }
}

impl StreamingTransferConfig {
    /// Datacenter profile: high bandwidth, large chunks.
    pub fn datacenter() -> (r: Self)
        ensures
            r == (StreamingTransferConfig { chunk_size: 33554432, checkpoint_interval: 128, verify_digest: true }),
    {
        StreamingTransferConfig { chunk_size: 32 * 1024 * 1024, checkpoint_interval: 128, verify_digest: true }
    }

    /// Tactical profile: moderate bandwidth (default).
    pub fn tactical() -> (r: Self)
        ensures
            r == (StreamingTransferConfig { chunk_size: 8388608, checkpoint_interval: 64, verify_digest: true }),
    {
        StreamingTransferConfig { chunk_size: 8 * 1024 * 1024, checkpoint_interval: 64, verify_digest: true }
    }

    /// Edge profile: low bandwidth, small chunks.
    pub fn edge() -> (r: Self)
        ensures
            r == (StreamingTransferConfig { chunk_size: 1048576, checkpoint_interval: 32, verify_digest: true }),
    {
        StreamingTransferConfig { chunk_size: 1024 * 1024, checkpoint_interval: 32, verify_digest: true }
    }

    /// Custom profile.
    pub fn custom(chunk_size: usize, checkpoint_interval: usize) -> (r: Self)
        ensures
            r == (StreamingTransferConfig { chunk_size, checkpoint_interval, verify_digest: true }),
    {
        StreamingTransferConfig { chunk_size, checkpoint_interval, verify_digest: true }
    }

    /// Bytes between checkpoint saves.
    pub fn checkpoint_bytes(&self) -> (r: u64)
        requires
            self.chunk_size * self.checkpoint_interval <= u64::MAX,
        ensures
            r == self.chunk_size * self.checkpoint_interval,
    {
        self.chunk_size as u64 * self.checkpoint_interval as u64
    }
}

/// Checkpoint state for a transfer in progress.
#[derive(Debug)]
pub struct TransferCheckpoint {
    /// Unique transfer session identifier.
    pub session_id: String,
    /// Content digest being transferred.
    pub digest: String,
    /// Total blob size in bytes.
    pub total_size: u64,
    /// Bytes successfully transferred and checkpointed.
    pub offset: u64,
    /// Number of chunks completed.
    pub chunks_completed: u64,
    /// Unused: a hasher cannot go on from a digest, so a resumed transfer reads the
    /// skipped bytes again.
    pub partial_sha256: Vec<u8>,
    /// Upload session URL (for chunked upload resume).
    pub upload_session_url: Option<String>,
}

/// A [`TransferCheckpoint`] in terms of sequences.
#[verifier::ext_equal]
pub struct CheckpointView {
    pub session_id: Seq<char>,
    pub digest: Seq<char>,
    pub total_size: u64,
    pub offset: u64,
    pub chunks_completed: u64,
    pub partial_sha256: Seq<u8>,
    pub upload_session_url: Option<Seq<char>>,
}

impl View for TransferCheckpoint {
    type V = CheckpointView;

    open spec fn view(&self) -> CheckpointView {
        CheckpointView {
            session_id: self.session_id@,
            digest: self.digest@,
            total_size: self.total_size,
            offset: self.offset,
            chunks_completed: self.chunks_completed,
            partial_sha256: self.partial_sha256@,
            upload_session_url: text::optional_text(self.upload_session_url),
        }
    }
}

impl CheckpointView {
    /// The checkpoint after one more chunk.
    pub open spec fn advanced(self, n: nat) -> CheckpointView {
        CheckpointView {
            offset: (self.offset + n) as u64,
            chunks_completed: (self.chunks_completed + 1) as u64,
            ..self
        }
    }

    /// Whether a checkpoint is to be saved: every `interval` chunks, and never where
    /// that is 0.
    pub open spec fn is_due(self, interval: nat) -> bool {
        interval > 0 && self.chunks_completed as nat % interval == 0
    }
}

impl TransferCheckpoint {
    /// Create a new checkpoint for a fresh transfer.
    pub fn new(session_id: &str, digest: &str, total_size: u64) -> (r: Self)
        ensures
            r@ == (CheckpointView {
                session_id: session_id@,
                digest: digest@,
                total_size,
                offset: 0,
                chunks_completed: 0,
                partial_sha256: Seq::empty(),
                upload_session_url: None,
            }),
    {
        TransferCheckpoint {
            session_id: session_id.to_owned(),
            digest: digest.to_owned(),
            total_size,
            offset: 0,
            chunks_completed: 0,
            partial_sha256: Vec::new(),
            upload_session_url: None,
        }
    }

    /// Whether the transfer is complete.
    pub fn is_complete(&self) -> (r: bool)
        ensures
            r == (self.offset >= self.total_size),
    {
        self.offset >= self.total_size
    }

    /// Bytes remaining.
    pub fn remaining(&self) -> (r: u64)
        ensures
            r == if self.offset <= self.total_size {
                self.total_size - self.offset
            } else {
                0
            },
    {
        self.total_size.saturating_sub(self.offset)
    }
}

/// Result of a transfer.
#[derive(Debug)]
pub struct TransferResult {
    /// Total bytes transferred in this session (may be less than total if resumed).
    pub bytes_transferred: u64,
    /// Total blob size.
    pub total_size: u64,
    /// Computed SHA-256 digest of the full content.
    pub computed_digest: String,
    /// Whether the transfer was resumed from a checkpoint.
    pub resumed: bool,
    /// Number of checkpoints saved during this transfer.
    pub checkpoints_saved: u64,
}

/// A [`TransferResult`] in terms of sequences.
#[verifier::ext_equal]
pub struct ResultView {
    pub bytes_transferred: u64,
    pub total_size: u64,
    pub computed_digest: Seq<char>,
    pub resumed: bool,
    pub checkpoints_saved: u64,
}

impl View for TransferResult {
    type V = ResultView;

    open spec fn view(&self) -> ResultView {
        ResultView {
            bytes_transferred: self.bytes_transferred,
            total_size: self.total_size,
            computed_digest: self.computed_digest@,
            resumed: self.resumed,
            checkpoints_saved: self.checkpoints_saved,
        }
    }
}

/// Why a transfer failed.
#[derive(Debug)]
pub enum TransferError {
    /// The source ended before the point from which to go on.
    UnexpectedEof(String),
    /// The content is not the expected one.
    InvalidData(String),
}

/// What to do with what was read.
#[derive(Debug, Clone, Copy, PartialEq, Eq, Structural)]
pub enum ReadStep {
    /// Nothing; it was transferred earlier. Read on.
    Skipped,
    /// Write it.
    Write,
    /// Flush; the source is at its end.
    Finish,
}

/// A transfer in progress.
pub struct Transfer {
    hasher: Hasher,
    skip_remaining: u64,
    initial_offset: u64,
    checkpoints_saved: u64,
}

/// A [`Transfer`] in terms of sequences.
#[verifier::ext_equal]
pub struct TransferView {
    /// All bytes read so far.
    pub read: Seq<u8>,
    /// How many more bytes were transferred earlier.
    pub skip_remaining: u64,
    /// Where the transfer began.
    pub initial_offset: u64,
    pub checkpoints_saved: u64,
}

impl View for Transfer {
    type V = TransferView;

    closed spec fn view(&self) -> TransferView {
        TransferView {
            read: crypto::absorbed(self.hasher),
            skip_remaining: self.skip_remaining,
            initial_offset: self.initial_offset,
            checkpoints_saved: self.checkpoints_saved,
        }
    }
}

/// The name of the content with these bytes.
pub open spec fn content_digest(content: Seq<u8>) -> Seq<char> {
    "sha256:"@ + text::hex_text(crypto::sha256_digest(content))
}

impl TransferView {
    /// A transfer that begins at an offset.
    pub open spec fn begun(offset: u64) -> TransferView {
        TransferView { read: Seq::empty(), skip_remaining: offset, initial_offset: offset, checkpoints_saved: 0 }
    }

    /// How many bytes to read next at most.
    pub open spec fn wanted(self, chunk_size: nat) -> nat {
        if 0 < self.skip_remaining < chunk_size {
            self.skip_remaining as nat
        } else {
            chunk_size
        }
    }

    /// The transfer once bytes were read.
    pub open spec fn after_read(self, data: Seq<u8>) -> TransferView {
        TransferView {
            read: self.read + data,
            skip_remaining: if self.skip_remaining > 0 {
                (self.skip_remaining - data.len()) as u64
            } else {
                0
            },
            ..self
        }
    }

    /// What to do with bytes that were read.
    pub open spec fn step(self, data: Seq<u8>) -> ReadStep {
        if self.skip_remaining > 0 {
            ReadStep::Skipped
        } else if data.len() == 0 {
            ReadStep::Finish
        } else {
            ReadStep::Write
        }
    }

    /// Whether the content is refused for its digest.
    pub open spec fn mismatches(self, config: StreamingTransferConfig, checkpoint: CheckpointView) -> bool {
        config.verify_digest && checkpoint.digest.len() > 0 && content_digest(self.read) != checkpoint.digest
    }

    /// What came of the transfer.
    pub open spec fn result(self, checkpoint: CheckpointView) -> ResultView {
        ResultView {
            bytes_transferred: (checkpoint.offset - self.initial_offset) as u64,
            total_size: checkpoint.offset,
            computed_digest: content_digest(self.read),
            resumed: self.initial_offset > 0,
            checkpoints_saved: self.checkpoints_saved,
        }
    }
}

impl Transfer {
    /// Begins or resumes a transfer at a checkpoint.
    pub fn begin(checkpoint: &TransferCheckpoint) -> (r: Self)
        ensures
            r@ == TransferView::begun(checkpoint@.offset),
    {
        Transfer {
            hasher: new_hasher(),
            skip_remaining: checkpoint.offset,
            initial_offset: checkpoint.offset,
            checkpoints_saved: 0,
        }
    }

    /// How many bytes to read next at most.
    pub fn next_read(&self, config: &StreamingTransferConfig) -> (r: usize)
        ensures
            r == self@.wanted(config.chunk_size as nat),
    {
        if self.skip_remaining > 0 && self.skip_remaining < config.chunk_size as u64 {
            self.skip_remaining as usize
        } else {
            config.chunk_size
        }
    }

    /// Takes in what was read: at most as much as was asked for, and nothing where the
    /// source is at its end. Bytes that are skipped count for the digest too.
    pub fn on_read(&mut self, config: &StreamingTransferConfig, checkpoint: &TransferCheckpoint, data: &[u8]) -> (r:
        Result<ReadStep, TransferError>)
        requires
            data@.len() <= old(self)@.wanted(config.chunk_size as nat),
            old(self)@.skip_remaining > 0 && data@.len() == 0 ==> old(self)@.skip_remaining <= checkpoint@.total_size,
        ensures
            r is Err <==> old(self)@.skip_remaining > 0 && data@.len() == 0,
            r matches Err(e) ==> e matches TransferError::UnexpectedEof(t) && t@ == "source ended at "@ + text::decimal(
                (checkpoint@.total_size - old(self)@.skip_remaining) as nat,
            ) + " while skipping to offset "@ + text::decimal(checkpoint@.offset as nat),
            r is Err ==> final(self)@ == old(self)@,
            r matches Ok(step) ==> step == old(self)@.step(data@) && final(self)@ == old(self)@.after_read(data@),
    {
        if self.skip_remaining > 0 {
            if data.len() == 0 {
                let at = decimal_string(checkpoint.total_size - self.skip_remaining);
                let mut message = joined3("source ended at ", at.as_str(), " while skipping to offset ");
                push_text(&mut message, decimal_string(checkpoint.offset).as_str());
                return Err(TransferError::UnexpectedEof(message));
            }
            absorb(&mut self.hasher, data);
            self.skip_remaining = self.skip_remaining - data.len() as u64;
            Ok(ReadStep::Skipped)
        } else if data.len() == 0 {
            assert(old(self)@.read + data@ =~= old(self)@.read);
            Ok(ReadStep::Finish)
        } else {
            absorb(&mut self.hasher, data);
            Ok(ReadStep::Write)
        }
    }

    /// Counts a chunk of `n` bytes that was written; says whether a checkpoint is to
    /// be saved.
    pub fn on_written(checkpoint: &mut TransferCheckpoint, config: &StreamingTransferConfig, n: usize) -> (r: bool)
        requires
            old(checkpoint)@.offset + n <= u64::MAX,
            old(checkpoint)@.chunks_completed < u64::MAX,
        ensures
            final(checkpoint)@ == old(checkpoint)@.advanced(n as nat),
            r == final(checkpoint)@.is_due(config.checkpoint_interval as nat),
    {
        checkpoint.offset = checkpoint.offset + n as u64;
        checkpoint.chunks_completed = checkpoint.chunks_completed + 1;
        config.checkpoint_interval > 0 && checkpoint.chunks_completed % config.checkpoint_interval as u64 == 0
    }

    /// Counts a checkpoint that was saved.
    pub fn on_checkpoint_saved(&mut self)
        requires
            old(self)@.checkpoints_saved < u64::MAX,
        ensures
            final(self)@ == (TransferView {
                checkpoints_saved: (old(self)@.checkpoints_saved + 1) as u64,
                ..old(self)@
            }),
    {
        self.checkpoints_saved = self.checkpoints_saved + 1;
    }

    /// Ends the transfer: checks the content against the digest that the checkpoint
    /// expects, if any.
    pub fn finish(self, config: &StreamingTransferConfig, checkpoint: &TransferCheckpoint) -> (r: Result<
        TransferResult,
        TransferError,
    >)
        requires
            checkpoint@.offset >= self@.initial_offset,
        ensures
            r is Err <==> self@.mismatches(*config, checkpoint@),
            r matches Err(e) ==> e matches TransferError::InvalidData(t) && t@ == "digest mismatch: expected "@
                + checkpoint@.digest + ", computed "@ + content_digest(self@.read),
            r matches Ok(result) ==> result@ == self@.result(checkpoint@),
    {
        let digest = finish(self.hasher);
        let computed_digest = joined("sha256:", hex_encode(digest.as_slice()).as_str());
        if config.verify_digest && !text_eq(checkpoint.digest.as_str(), "") && !text_eq(
            computed_digest.as_str(),
            checkpoint.digest.as_str(),
        ) {
            proof {
                reveal_strlit("");
                assert(checkpoint@.digest.len() > 0) by {
                    if checkpoint@.digest.len() == 0 {
                        assert(checkpoint@.digest =~= ""@);
                    }
                }
            }
            let mut message = joined3("digest mismatch: expected ", checkpoint.digest.as_str(), ", computed ");
            push_text(&mut message, computed_digest.as_str());
            return Err(TransferError::InvalidData(message));
        }
        proof {
            reveal_strlit("");
            assert(""@.len() == 0);
        }
        Ok(
            TransferResult {
                bytes_transferred: checkpoint.offset - self.initial_offset,
                total_size: checkpoint.offset,
                computed_digest,
                resumed: self.initial_offset > 0,
                checkpoints_saved: self.checkpoints_saved,
            },
        )
    }
}

/// A run of a transfer: the transfer, the offset of its checkpoint, and what was
/// written.
#[verifier::ext_equal]
pub struct Run {
    pub transfer: TransferView,
    pub offset: nat,
    pub written: Seq<u8>,
}

/// The run once bytes were read and, where they are new, written.
pub open spec fn run_step(run: Run, data: Seq<u8>) -> Run {
    Run {
        transfer: run.transfer.after_read(data),
        offset: if run.transfer.step(data) is Write {
            run.offset + data.len()
        } else {
            run.offset
        },
        written: if run.transfer.step(data) is Write {
            run.written + data
        } else {
            run.written
        },
    }
}

/// The run after a list of reads.
pub open spec fn run_all(offset: u64, reads: Seq<Seq<u8>>) -> Run
    decreases reads.len(),
{
    if reads.len() == 0 {
        Run { transfer: TransferView::begun(offset), offset: offset as nat, written: Seq::empty() }
    } else {
        run_step(run_all(offset, reads.drop_last()), reads.last())
    }
}

/// Whether each read gave no more than was asked for.
pub open spec fn reads_fit(offset: u64, reads: Seq<Seq<u8>>, chunk_size: nat) -> bool
    decreases reads.len(),
{
    if reads.len() == 0 {
        true
    } else {
        reads_fit(offset, reads.drop_last(), chunk_size) && reads.last().len() <= run_all(
            offset,
            reads.drop_last(),
        ).transfer.wanted(chunk_size)
    }
}

/// What was read, in one piece.
pub open spec fn all_read(reads: Seq<Seq<u8>>) -> Seq<u8>
    decreases reads.len(),
{
    if reads.len() == 0 {
        Seq::empty()
    } else {
        all_read(reads.drop_last()) + reads.last()
    }
}

/// Whatever pieces the source comes in, the digest is taken of all of it, what is
/// written is what follows the offset, and the checkpoint's offset moves to the end of
/// what was read. What was written before the offset and what is written now make up
/// the source.
pub proof fn law_transfer(offset: u64, reads: Seq<Seq<u8>>, chunk_size: nat)
    requires
        reads_fit(offset, reads, chunk_size),
    ensures
        ({
            let run = run_all(offset, reads);
            let source = all_read(reads);
            &&& run.transfer.read == source
            &&& run.transfer.initial_offset == offset
            &&& source.len() + run.transfer.skip_remaining >= offset
            &&& source.len() < offset ==> run.transfer.skip_remaining == offset - source.len() && run.written.len() == 0
                && run.offset == offset
            &&& source.len() >= offset ==> {
                &&& run.transfer.skip_remaining == 0
                &&& run.written == source.skip(offset as int)
                &&& source.take(offset as int) + run.written == source
                &&& run.offset == source.len()
            }
        }),
    decreases reads.len(),
{
    let source = all_read(reads);
    if reads.len() > 0 {
        let before = all_read(reads.drop_last());
        let data = reads.last();
        law_transfer(offset, reads.drop_last(), chunk_size);
        if before.len() >= offset {
            if data.len() > 0 {
                assert(source.skip(offset as int) =~= before.skip(offset as int) + data);
            } else {
                assert(source =~= before);
            }
        } else if source.len() >= offset {
            assert(source.len() == offset);
            assert(source.skip(offset as int) =~= Seq::empty());
            assert(run_all(offset, reads).written =~= Seq::empty());
        }
    } else if offset == 0 {
        assert(source.skip(0) =~= Seq::empty());
    }
    if source.len() >= offset {
        assert(source.take(offset as int) + source.skip(offset as int) =~= source);
    }
}

/// A transfer whose content has the expected digest is accepted, and one with another
/// digest is refused; without an expected digest everything is accepted.
pub proof fn law_digest_check(t: TransferView, config: StreamingTransferConfig, checkpoint: CheckpointView)
    ensures
        checkpoint.digest.len() == 0 || !config.verify_digest ==> !t.mismatches(config, checkpoint),
        checkpoint.digest == content_digest(t.read) ==> !t.mismatches(config, checkpoint),
        config.verify_digest && checkpoint.digest.len() > 0 && checkpoint.digest != content_digest(t.read)
            ==> t.mismatches(config, checkpoint),
{
}

} // verus!
