//! Fixed-size chunking and content addressing.
//!
//! A file is cut into chunks of the configured size (the last one may be
//! shorter). Each chunk is identified by the hash of the bytes that are
//! stored for it, that is of its compressed form where it is compressed.

use crate::bytes::copy_range;
use crate::chunk::compression::{compress_if_worthwhile, packed, restored};
use crate::chunk::ChunkId;
use crate::config::{ChunkConfig, MAX_CHUNK_SIZE};
use crate::error::{Error, Result};
use vstd::prelude::*;

verus! {

/// The 32-byte BLAKE3 hash of `data`.
pub uninterp spec fn blake3_digest(data: Seq<u8>) -> Seq<u8>;

/// `blake3::hash` of the blake3 crate.
#[verifier::external_body]
fn blake3_hash(data: &[u8]) -> (r: [u8; 32])
    ensures
        r@ == blake3_digest(data@),
{
    *blake3::hash(data).as_bytes()
}

/// The sixteen lowercase hexadecimal digits.
pub open spec fn hex_digits() -> Seq<char> {
    seq!['0', '1', '2', '3', '4', '5', '6', '7', '8', '9', 'a', 'b', 'c', 'd', 'e', 'f']
}

/// `bytes` in lowercase hexadecimal: two digits per byte, high digit first.
pub open spec fn hex_lower(bytes: Seq<u8>) -> Seq<char> {
    Seq::new(
        2 * bytes.len(),
        |i: int|
            if i % 2 == 0 {
                hex_digits()[bytes[i / 2] as int / 16]
            } else {
                hex_digits()[bytes[i / 2] as int % 16]
            },
    )
}

/// `hex::encode` of the hex crate: two lowercase digits per byte.
#[verifier::external_body]
fn hex_encode(bytes: &[u8]) -> (r: String)
    ensures
        r@ == hex_lower(bytes@),
{
    hex::encode(bytes)
}

/// The id of a chunk that is stored as `stored`: its hash in lowercase hex.
pub open spec fn chunk_id_of(stored: Seq<u8>) -> Seq<char> {
    hex_lower(blake3_digest(stored))
}

/// Compute the content id of stored bytes.
pub fn content_id(stored: &[u8]) -> (r: ChunkId)
    ensures
        r@ == chunk_id_of(stored@),
        r@.len() == 64,
{
    let digest = blake3_hash(stored);
    hex_encode(digest.as_slice())
}

/// Check downloaded bytes against the id under which they were stored.
pub fn verify_chunk(id: &str, stored: &[u8]) -> (r: Result<()>)
    ensures
        r.is_ok() == (id@ == chunk_id_of(stored@)),
        r matches Err(e) ==> (e matches Error::ChunkVerificationFailed { expected, got }
            && expected@ == id@ && got@ == chunk_id_of(stored@)),
{
    let got = content_id(stored);
    let expected = id.to_string();
    if got == expected {
        Ok(())
    } else {
        Err(Error::ChunkVerificationFailed { expected, got })
    }
}

/// What is recorded of a chunk.
#[derive(Debug, Clone)]
pub struct ChunkInfo {
    /// Content id: hash of the stored bytes.
    pub id: ChunkId,
    /// Offset of the chunk within the file.
    pub offset: u64,
    /// Size of the chunk's plaintext.
    pub size: u64,
    /// Whether the stored bytes are the compressed form.
    pub compressed: bool,
}

/// A chunk of a file: transient, never stored as plaintext.
#[derive(Debug, Clone)]
pub struct Chunk {
    /// What is recorded of the chunk.
    pub info: ChunkInfo,
    /// The chunk's plaintext.
    pub data: Vec<u8>,
    /// The compressed form, where the chunk is stored compressed.
    pub compressed_data: Option<Vec<u8>>,
}

impl Chunk {
    /// The bytes that are encrypted and stored for the chunk.
    pub open spec fn stored(&self) -> Seq<u8> {
        match self.compressed_data {
            Some(bytes) => bytes@,
            None => self.data@,
        }
    }

    /// The bytes that are encrypted and stored for the chunk.
    pub fn stored_bytes(&self) -> (r: &[u8])
        ensures
            r@ == self.stored(),
    {
        match &self.compressed_data {
            Some(bytes) => bytes.as_slice(),
            None => self.data.as_slice(),
        }
    }
}

/// Number of chunks of `size` bytes that `len` bytes are cut into.
pub open spec fn chunk_count_for(len: nat, size: nat) -> nat {
    len / size + if len % size > 0 {
        1nat
    } else {
        0nat
    }
}

/// The bytes of chunk `i` of `data` cut into chunks of `size` bytes.
pub open spec fn piece(data: Seq<u8>, size: nat, i: int) -> Seq<u8> {
    data.subrange(
        i * size,
        if (i + 1) * size < data.len() {
            (i + 1) * size
        } else {
            data.len() as int
        },
    )
}

/// The plaintext of the chunks, one after the other.
pub open spec fn chunk_bytes(chunks: Seq<Chunk>) -> Seq<u8>
    decreases chunks.len(),
{
    if chunks.len() == 0 {
        Seq::empty()
    } else {
        chunk_bytes(chunks.drop_last()) + chunks.last().data@
    }
}

/// Sum of the plaintext sizes of the first `n` chunks: the offset at which
/// chunk `n` starts.
pub open spec fn plain_start(chunks: Seq<Chunk>, n: int) -> nat
    decreases n,
{
    if n <= 0 {
        0
    } else {
        plain_start(chunks, n - 1) + chunks[n - 1].info.size as nat
    }
}

/// The start of a chunk depends on the chunks before it only.
pub proof fn lemma_plain_start_prefix(a: Seq<Chunk>, b: Seq<Chunk>, n: int)
    requires
        n <= a.len(),
        n <= b.len(),
        forall|i: int| 0 <= i < n ==> a[i].info.size == b[i].info.size,
    ensures
        plain_start(a, n) == plain_start(b, n),
    decreases n,
{
    if n > 0 {
        lemma_plain_start_prefix(a, b, n - 1);
    }
}

/// Fixed-size chunker.
pub struct Chunker {
    chunk_size: usize,
    compression_enabled: bool,
    compression_threshold: usize,
}

impl Chunker {
    #[verifier::type_invariant]
    spec fn size_in_range(self) -> bool {
        0 < self.chunk_size <= MAX_CHUNK_SIZE
    }

    /// The chunk size.
    pub closed spec fn size(&self) -> nat {
        self.chunk_size as nat
    }

    /// Whether chunks are compressed where worthwhile.
    pub closed spec fn compresses(&self) -> bool {
        self.compression_enabled
    }

    /// Size from which on a chunk is worth compressing.
    pub closed spec fn threshold(&self) -> nat {
        self.compression_threshold as nat
    }

    /// The stored form of a chunk's plaintext and whether it is compressed.
    pub open spec fn packing(&self, plaintext: Seq<u8>) -> (Seq<u8>, bool) {
        if self.compresses() {
            packed(plaintext, self.threshold())
        } else {
            (plaintext, false)
        }
    }

    /// What the chunker makes of chunk `i` of `data`.
    pub open spec fn describes(&self, chunk: Chunk, data: Seq<u8>, i: int) -> bool {
        let plaintext = piece(data, self.size(), i);
        &&& chunk.data@ == plaintext
        &&& chunk.info.offset == i * self.size()
        &&& chunk.info.size == plaintext.len()
        &&& (chunk.stored(), chunk.info.compressed) == self.packing(plaintext)
        &&& chunk.info.id@ == chunk_id_of(chunk.stored())
        &&& restored(chunk.stored(), chunk.info.compressed) == Some(plaintext)
        &&& chunk.stored().len() <= plaintext.len() <= MAX_CHUNK_SIZE
    }

    /// Create a chunker. A chunk size of zero or above 2 GiB is refused.
    pub fn new(config: &ChunkConfig) -> (r: Result<Self>)
        ensures
            r.is_ok() == (0 < config.chunk_size <= MAX_CHUNK_SIZE),
            r matches Ok(chunker) ==> chunker.size() == config.chunk_size && chunker.compresses()
                == config.compression_enabled && chunker.threshold()
                == config.compression_threshold,
            r matches Err(e) ==> (e matches Error::InvalidChunkSize(size) && size
                == config.chunk_size),
    {
        if config.chunk_size == 0 || config.chunk_size as u64 > MAX_CHUNK_SIZE {
            return Err(Error::InvalidChunkSize(config.chunk_size));
        }
        Ok(
            Chunker {
                chunk_size: config.chunk_size,
                compression_enabled: config.compression_enabled,
                compression_threshold: config.compression_threshold,
            },
        )
    }

    /// Make the chunk that starts at `offset` from its plaintext.
    fn make_chunk(&self, plaintext: Vec<u8>, offset: u64) -> (r: Chunk)
        requires
            plaintext@.len() <= MAX_CHUNK_SIZE,
        ensures
            r.data@ == plaintext@,
            r.info.offset == offset,
            r.info.size == plaintext@.len(),
            (r.stored(), r.info.compressed) == self.packing(plaintext@),
            r.info.id@ == chunk_id_of(r.stored()),
            restored(r.stored(), r.info.compressed) == Some(plaintext@),
    {
        let compressed_data = if self.compression_enabled {
            compress_if_worthwhile(plaintext.as_slice(), self.compression_threshold)
        } else {
            None
        };
        let id = match &compressed_data {
            Some(bytes) => content_id(bytes.as_slice()),
            None => content_id(plaintext.as_slice()),
        };
        let compressed = compressed_data.is_some();
        let size = plaintext.len() as u64;
        Chunk { info: ChunkInfo { id, offset, size, compressed }, data: plaintext, compressed_data }
    }

    /// Cut `data` into chunks. The chunks' plaintexts, one after the other,
    /// are the data; each chunk records its offset, its size and the hash of
    /// its stored bytes.
    pub fn chunk_data(&self, data: &[u8]) -> (r: Vec<Chunk>)
        ensures
            r@.len() == chunk_count_for(data@.len(), self.size()),
            forall|i: int| 0 <= i < r@.len() ==> self.describes(#[trigger] r@[i], data@, i),
            chunk_bytes(r@) == data@,
            forall|i: int|
                0 <= i < r@.len() ==> (#[trigger] r@[i]).info.offset == plain_start(r@, i),
            plain_start(r@, r@.len() as int) == data@.len(),
    {
        proof {
            use_type_invariant(self);
        }
        let size = self.chunk_size;
        let len = data.len();
        let mut chunks: Vec<Chunk> = Vec::new();
        let mut start: usize = 0;
        assert(chunks@.len() * size == 0) by (nonlinear_arith)
            requires
                chunks@.len() == 0,
        ;
        assert(data@.take(0) =~= Seq::<u8>::empty());
        while start < len
            invariant
                0 < size <= MAX_CHUNK_SIZE,
                start == len ==> len == 0,
                size == self.chunk_size,
                len == data@.len(),
                start <= len,
                start == chunks@.len() * size,
                forall|i: int|
                    0 <= i < chunks@.len() ==> self.describes(#[trigger] chunks@[i], data@, i),
                chunk_bytes(chunks@) == data@.take(start as int),
                forall|i: int|
                    0 <= i < chunks@.len() ==> (#[trigger] chunks@[i]).info.offset == plain_start(
                        chunks@,
                        i,
                    ),
                plain_start(chunks@, chunks@.len() as int) == start,
            decreases len - start,
        {
            let ghost i = chunks@.len() as int;
            let end = if len - start > size {
                start + size
            } else {
                len
            };
            proof {
                assert((i + 1) * size == i * size + size) by (nonlinear_arith);
                assert(piece(data@, size as nat, i) == data@.subrange(start as int, end as int));
            }
            let plaintext = copy_range(data, start, end);
            let chunk = self.make_chunk(plaintext, start as u64);
            let ghost before = chunks@;
            chunks.push(chunk);
            proof {
                assert(chunks@.drop_last() =~= before);
                assert(data@.take(start as int) + data@.subrange(start as int, end as int)
                    =~= data@.take(end as int));
                assert forall|j: int| 0 <= j < chunks@.len() implies self.describes(
                    #[trigger] chunks@[j],
                    data@,
                    j,
                ) by {
                    if j < i {
                        assert(chunks@[j] == before[j]);
                    }
                }
                assert forall|j: int| 0 <= j < chunks@.len() implies (
                #[trigger] chunks@[j]).info.offset == plain_start(chunks@, j) by {
                    lemma_plain_start_prefix(chunks@, before, j);
                    if j < i {
                        assert(chunks@[j] == before[j]);
                    }
                }
                lemma_plain_start_prefix(chunks@, before, i);
                assert(plain_start(chunks@, i + 1) == plain_start(chunks@, i) + chunks@[i].info.size);
            }
            if end == len {
                proof {
                    lemma_count_at_end(len as nat, size as nat, i);
                    assert(data@.take(len as int) =~= data@);
                }
                return chunks;
            }
            start = end;
        }
        proof {
            assert(len == 0);
            assert(chunks@.len() * size == 0);
            assert(chunks@.len() == 0) by (nonlinear_arith)
                requires
                    chunks@.len() * size == 0,
                    size > 0,
            ;
            assert(data@.take(0) =~= data@);
        }
        chunks
    }

    /// Hash of the complete file content, in lowercase hex.
    pub fn file_hash(&self, data: &[u8]) -> (r: String)
        ensures
            r@ == chunk_id_of(data@),
    {
        content_id(data)
    }
}

/// The chunk that reaches the end of the data is the last of the count.
proof fn lemma_count_at_end(len: nat, size: nat, i: int)
    requires
        size > 0,
        0 <= i,
        i * size < len <= (i + 1) * size,
    ensures
        chunk_count_for(len, size) == i + 1,
{
    vstd::arithmetic::div_mod::lemma_fundamental_div_mod(len as int, size as int);
    vstd::arithmetic::div_mod::lemma_mod_pos_bound(len as int, size as int);
    let q = len as int / size as int;
    let r = len as int % size as int;
    assert(len == size * q + r);
    if r > 0 {
        assert(q == i) by (nonlinear_arith)
            requires
                len == size * q + r,
                0 < r < size,
                i * size < len <= (i + 1) * size,
                size > 0,
        ;
    } else {
        assert(q == i + 1) by (nonlinear_arith)
            requires
                len == size * q,
                i * size < len <= (i + 1) * size,
                size > 0,
        ;
    }
}

} // verus!
