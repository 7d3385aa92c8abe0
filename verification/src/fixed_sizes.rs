use vstd::prelude::*;

verus! {

/// Width of a node identifier / lookup key: 256 bits.
pub const KEY_SIZE: usize = 32;

/// Number of distance bands (buckets) in a routing table, one per
/// possible position of the highest differing bit of two identifiers.
pub const N_BUCKETS: usize = 256;

/// Maximum number of contacts held by one bucket.
pub const K_BUCKET_SIZE: usize = 20;

/// Buffer size used for streaming UDP.
pub const UDP_STREAMING_BUFFER_SIZE: usize = 8192;

/// Per-request response timeout, in milliseconds.
pub const RESPONSE_TIMEOUT: u64 = 8000;

/// How many rounds an iterative join lookup may run.
pub const JOIN_ROUND_BUDGET: u32 = 3;

} // verus!
