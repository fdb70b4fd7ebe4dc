//! The sync protocol between nodes.

use vstd::prelude::*;

verus! {

/// ALPN protocol identifier of document sync.
pub const CAP_AUTOMERGE_ALPN: [u8; 15] = [0x63, 0x61, 0x70, 0x2f, 0x61, 0x75, 0x74, 0x6f, 0x6d, 0x65, 0x72, 0x67, 0x65, 0x2f, 0x31];

} // verus!
