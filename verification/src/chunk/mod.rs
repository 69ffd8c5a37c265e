//! Chunk references, file manifests and stripe descriptions.

pub mod chunker;
pub mod codec;
pub mod compression;
pub mod stripe_codec;

pub use chunker::{Chunk, ChunkInfo, Chunker};
pub use compression::{compress, compress_or_original, decompress};

use vstd::prelude::*;

verus! {

/// Content-based chunk identifier: lowercase hex of a 256-bit hash.
pub type ChunkId = String;

/// Reference to a chunk stored remotely.
#[derive(Debug, Clone, PartialEq, Eq)]
pub struct ChunkRef {
    /// Content-based id.
    pub id: ChunkId,
    /// Size of the encrypted chunk in bytes.
    pub size: u64,
    /// Handle of the remote object that holds this chunk.
    pub message_id: i32,
    /// Offset within the file that this chunk represents.
    pub offset: u64,
    /// Original (unencrypted, uncompressed) size.
    pub original_size: u64,
    /// Whether compression was applied.
    pub compressed: bool,
}

/// Manifest describing all chunks of a file.
#[derive(Debug, Clone)]
pub struct ChunkManifest {
    /// File version this manifest represents.
    pub version: u64,
    /// Total file size (uncompressed).
    pub total_size: u64,
    /// Ordered list of chunk references.
    pub chunks: Vec<ChunkRef>,
    /// Hash of the complete file content.
    pub file_hash: String,
}

/// Sum of the encrypted sizes of `chunks`.
pub open spec fn stored_total(chunks: Seq<ChunkRef>) -> nat
    decreases chunks.len(),
{
    if chunks.len() == 0 {
        0
    } else {
        stored_total(chunks.drop_last()) + chunks.last().size as nat
    }
}

/// Sum of the original sizes of the first `n` of `chunks`: the file offset at
/// which chunk `n` starts.
pub open spec fn start_of(chunks: Seq<ChunkRef>, n: int) -> nat
    decreases n,
{
    if n <= 0 {
        0
    } else {
        start_of(chunks, n - 1) + chunks[n - 1].original_size as nat
    }
}

/// The chunk starts grow with the index.
pub proof fn lemma_start_of_monotonic(chunks: Seq<ChunkRef>, i: int, j: int)
    requires
        0 <= i <= j,
    ensures
        start_of(chunks, i) <= start_of(chunks, j),
    decreases j - i,
{
    if i < j {
        lemma_start_of_monotonic(chunks, i, j - 1);
    }
}

impl ChunkManifest {
    /// The manifest's own consistency: the original sizes add up to the total
    /// size and every chunk records the offset at which it starts, so the
    /// chunks are ordered, contiguous and do not overlap.
    pub open spec fn well_formed(&self) -> bool {
        &&& start_of(self.chunks@, self.chunks@.len() as int) == self.total_size
        &&& forall|i: int|
            0 <= i < self.chunks@.len() ==> (#[trigger] self.chunks@[i]).offset == start_of(
                self.chunks@,
                i,
            )
    }

    /// Check the manifest's own consistency.
    pub fn is_well_formed(&self) -> (r: bool)
        ensures
            r == self.well_formed(),
    {
        let mut start: u64 = 0;
        let mut i: usize = 0;
        while i < self.chunks.len()
            invariant
                i <= self.chunks@.len(),
                start == start_of(self.chunks@, i as int),
                forall|j: int|
                    0 <= j < i ==> (#[trigger] self.chunks@[j]).offset == start_of(self.chunks@, j),
            decreases self.chunks@.len() - i,
        {
            let chunk = &self.chunks[i];
            if chunk.offset != start {
                return false;
            }
            if chunk.original_size > u64::MAX - start {
                proof {
                    lemma_start_of_monotonic(self.chunks@, i + 1, self.chunks@.len() as int);
                }
                return false;
            }
            start = start + chunk.original_size;
            i += 1;
        }
        start == self.total_size
    }

    /// Create a new empty manifest.
    pub fn new(version: u64) -> (r: Self)
        ensures
            r.version == version,
            r.total_size == 0,
            r.chunks@.len() == 0,
            r.file_hash@.len() == 0,
            r.well_formed(),
    {
        ChunkManifest { version, total_size: 0, chunks: Vec::new(), file_hash: String::new() }
    }

    /// Get the total stored size (after encryption/compression).
    pub fn stored_size(&self) -> (r: u64)
        requires
            stored_total(self.chunks@) <= u64::MAX,
        ensures
            r == stored_total(self.chunks@),
    {
        let mut total: u64 = 0;
        let mut i: usize = 0;
        while i < self.chunks.len()
            invariant
                i <= self.chunks@.len(),
                total == stored_total(self.chunks@.take(i as int)),
                stored_total(self.chunks@) <= u64::MAX,
            decreases self.chunks@.len() - i,
        {
            proof {
                let next = self.chunks@.take(i + 1);
                assert(next.drop_last() =~= self.chunks@.take(i as int));
                assert(next.last() == self.chunks@[i as int]);
                lemma_stored_total_prefix(self.chunks@, i + 1);
            }
            total = total + self.chunks[i].size;
            i += 1;
        }
        assert(self.chunks@.take(i as int) =~= self.chunks@);
        total
    }

    /// Get the number of chunks.
    pub fn chunk_count(&self) -> (r: usize)
        ensures
            r == self.chunks@.len(),
    {
        self.chunks.len()
    }

    /// Find the chunk containing a given offset, by accumulating the original
    /// sizes: the first index `i` with `start_of(i) <= offset < start_of(i + 1)`.
    pub fn chunk_at_offset(&self, offset: u64) -> (r: Option<(usize, &ChunkRef)>)
        ensures
            match r {
                Some((i, chunk)) => {
                    &&& i < self.chunks@.len()
                    &&& *chunk == self.chunks@[i as int]
                    &&& start_of(self.chunks@, i as int) <= offset < start_of(
                        self.chunks@,
                        i + 1,
                    )
                },
                None => start_of(self.chunks@, self.chunks@.len() as int) <= offset,
            },
    {
        let mut remaining: u64 = offset;
        let mut i: usize = 0;
        while i < self.chunks.len()
            invariant
                i <= self.chunks@.len(),
                remaining + start_of(self.chunks@, i as int) == offset,
            decreases self.chunks@.len() - i,
        {
            let chunk = &self.chunks[i];
            if remaining < chunk.original_size {
                return Some((i, chunk));
            }
            remaining = remaining - chunk.original_size;
            i += 1;
        }
        None
    }
}

/// The stored total of a prefix is at most the stored total of the whole.
pub proof fn lemma_stored_total_prefix(chunks: Seq<ChunkRef>, n: int)
    requires
        0 <= n <= chunks.len(),
    ensures
        stored_total(chunks.take(n)) <= stored_total(chunks),
    decreases chunks.len(),
{
    if n < chunks.len() {
        assert(chunks.drop_last().take(n) =~= chunks.take(n));
        lemma_stored_total_prefix(chunks.drop_last(), n);
    } else {
        assert(chunks.take(n) =~= chunks);
    }
}

/// Location of a single block within a stripe.
#[derive(Debug, Clone, PartialEq, Eq)]
pub struct BlockLocation {
    /// Account id (index in pool, 0-255).
    pub account_id: u8,
    /// Remote handle (`None` if the upload failed or has not happened).
    pub message_id: Option<i32>,
    /// Block index within stripe (0..N-1).
    pub block_index: u8,
    /// Upload timestamp (Unix seconds).
    pub uploaded_at: Option<i64>,
}

/// Stripe information for an erasure-coded chunk.
#[derive(Debug, Clone)]
pub struct StripeInfo {
    /// All blocks in this stripe (N total).
    pub blocks: Vec<BlockLocation>,
    /// Number of data blocks (K).
    pub data_count: u8,
    /// Number of parity blocks (N-K).
    pub parity_count: u8,
    /// Size of each block in bytes.
    pub block_size: u64,
}

/// Reference to an erasure-coded chunk stored across multiple accounts.
#[derive(Debug, Clone)]
pub struct ErasureChunkRef {
    /// Content-based id.
    pub id: ChunkId,
    /// Offset within the file that this chunk represents.
    pub offset: u64,
    /// Original (unencrypted, uncompressed) size.
    pub original_size: u64,
    /// Whether compression was applied before erasure coding.
    pub compressed: bool,
    /// Stripe information with block locations.
    pub stripe: StripeInfo,
    /// Version for rebuild tracking.
    pub version: u64,
}

/// Manifest for erasure-coded files.
#[derive(Debug, Clone)]
pub struct ErasureChunkManifest {
    /// File version this manifest represents.
    pub version: u64,
    /// Total file size (uncompressed).
    pub total_size: u64,
    /// Ordered list of erasure chunk references.
    pub chunks: Vec<ErasureChunkRef>,
    /// Hash of the complete file content.
    pub file_hash: String,
    /// Number of data blocks per stripe (K).
    pub data_chunks: u8,
    /// Number of blocks per stripe (N).
    pub total_chunks: u8,
}

/// Number of blocks that carry a remote handle.
pub open spec fn uploaded_count(blocks: Seq<BlockLocation>) -> nat
    decreases blocks.len(),
{
    if blocks.len() == 0 {
        0
    } else {
        uploaded_count(blocks.drop_last()) + if blocks.last().message_id.is_some() {
            1nat
        } else {
            0nat
        }
    }
}

/// The indices of the blocks that carry no handle, in stripe order.
pub open spec fn missing_indices(blocks: Seq<BlockLocation>) -> Seq<u8>
    decreases blocks.len(),
{
    if blocks.len() == 0 {
        Seq::empty()
    } else if blocks.last().message_id.is_none() {
        missing_indices(blocks.drop_last()).push(blocks.last().block_index)
    } else {
        missing_indices(blocks.drop_last())
    }
}

/// No more blocks are uploaded than there are blocks.
pub proof fn lemma_uploaded_count_bound(blocks: Seq<BlockLocation>)
    ensures
        uploaded_count(blocks) <= blocks.len(),
    decreases blocks.len(),
{
    if blocks.len() > 0 {
        lemma_uploaded_count_bound(blocks.drop_last());
    }
}

impl StripeInfo {
    /// The stripe invariant: `data_count + parity_count` blocks, at least one
    /// of each kind, and block `i` carries index `i`.
    pub open spec fn well_formed(&self) -> bool {
        &&& self.data_count >= 1
        &&& self.parity_count >= 1
        &&& self.blocks@.len() == self.data_count + self.parity_count
        &&& forall|i: int|
            0 <= i < self.blocks@.len() ==> (#[trigger] self.blocks@[i]).block_index == i
    }

    /// Create a new stripe info without blocks.
    pub fn new(data_count: u8, parity_count: u8, block_size: u64) -> (r: Self)
        ensures
            r.blocks@.len() == 0,
            r.data_count == data_count,
            r.parity_count == parity_count,
            r.block_size == block_size,
    {
        StripeInfo { blocks: Vec::new(), data_count, parity_count, block_size }
    }

    /// Get total number of blocks (N).
    pub fn total_blocks(&self) -> (r: u8)
        requires
            self.data_count + self.parity_count <= u8::MAX,
        ensures
            r == self.data_count + self.parity_count,
    {
        self.data_count + self.parity_count
    }

    /// Count available (uploaded) blocks.
    pub fn available_blocks(&self) -> (r: usize)
        ensures
            r == uploaded_count(self.blocks@),
    {
        let mut count: usize = 0;
        let mut i: usize = 0;
        while i < self.blocks.len()
            invariant
                i <= self.blocks@.len(),
                count == uploaded_count(self.blocks@.take(i as int)),
                count <= i,
            decreases self.blocks@.len() - i,
        {
            proof {
                let next = self.blocks@.take(i + 1);
                assert(next.drop_last() =~= self.blocks@.take(i as int));
                assert(next.last() == self.blocks@[i as int]);
            }
            if self.blocks[i].message_id.is_some() {
                count += 1;
            }
            i += 1;
        }
        assert(self.blocks@.take(i as int) =~= self.blocks@);
        count
    }

    /// The indices of the blocks that have no handle, ascending by position:
    /// the blocks to rebuild.
    pub fn missing_blocks(&self) -> (r: Vec<u8>)
        ensures
            r@ == missing_indices(self.blocks@),
    {
        let mut out: Vec<u8> = Vec::new();
        let mut i: usize = 0;
        while i < self.blocks.len()
            invariant
                i <= self.blocks@.len(),
                out@ == missing_indices(self.blocks@.take(i as int)),
            decreases self.blocks@.len() - i,
        {
            proof {
                let next = self.blocks@.take(i + 1);
                assert(next.drop_last() =~= self.blocks@.take(i as int));
                assert(next.last() == self.blocks@[i as int]);
            }
            if self.blocks[i].message_id.is_none() {
                out.push(self.blocks[i].block_index);
            }
            i += 1;
        }
        assert(self.blocks@.take(i as int) =~= self.blocks@);
        out
    }

    /// Record that a block was rebuilt on `account_id` under `message_id` at
    /// Unix time `now`: the first block of that index gets the new place.
    /// The index and the order of the blocks stay. The result tells whether
    /// the stripe has a block of that index.
    pub fn record_rebuilt(&mut self, block_index: u8, account_id: u8, message_id: i32, now: i64) -> (r:
        bool)
        ensures
            final(self).data_count == old(self).data_count,
            final(self).parity_count == old(self).parity_count,
            final(self).block_size == old(self).block_size,
            final(self).blocks@.len() == old(self).blocks@.len(),
            r == exists|i: int|
                0 <= i < old(self).blocks@.len() && (#[trigger] old(self).blocks@[i]).block_index
                    == block_index,
            r ==> exists|i: int|
                0 <= i < old(self).blocks@.len() && #[trigger] old(self).blocks@[i].block_index
                    == block_index && final(self).blocks@ == old(self).blocks@.update(
                    i,
                    BlockLocation {
                        account_id,
                        message_id: Some(message_id),
                        block_index,
                        uploaded_at: Some(now),
                    },
                ),
            !r ==> final(self).blocks@ == old(self).blocks@,
            old(self).well_formed() ==> final(self).well_formed(),
    {
        let mut i: usize = 0;
        while i < self.blocks.len()
            invariant
                *self == *old(self),
                i <= self.blocks@.len(),
                forall|j: int| 0 <= j < i ==> (#[trigger] self.blocks@[j]).block_index != block_index,
            decreases self.blocks@.len() - i,
        {
            if self.blocks[i].block_index == block_index {
                let ghost before = self.blocks@;
                let block = &mut self.blocks[i];
                block.account_id = account_id;
                block.message_id = Some(message_id);
                block.uploaded_at = Some(now);
                proof {
                    assert(self.blocks@ =~= before.update(
                        i as int,
                        BlockLocation {
                            account_id,
                            message_id: Some(message_id),
                            block_index,
                            uploaded_at: Some(now),
                        },
                    ));
                    assert(old(self).blocks@[i as int].block_index == block_index);
                }
                return true;
            }
            i += 1;
        }
        false
    }

    /// Check if stripe can be reconstructed (>= K blocks available).
    pub fn can_reconstruct(&self) -> (r: bool)
        ensures
            r == (uploaded_count(self.blocks@) >= self.data_count),
    {
        self.available_blocks() >= self.data_count as usize
    }
}

impl ErasureChunkManifest {
    /// Create a new empty erasure manifest.
    pub fn new(version: u64, data_chunks: u8, total_chunks: u8) -> (r: Self)
        ensures
            r.version == version,
            r.total_size == 0,
            r.chunks@.len() == 0,
            r.file_hash@.len() == 0,
            r.data_chunks == data_chunks,
            r.total_chunks == total_chunks,
    {
        ErasureChunkManifest {
            version,
            total_size: 0,
            chunks: Vec::new(),
            file_hash: String::new(),
            data_chunks,
            total_chunks,
        }
    }
}

} // verus!
