//! The storage orchestrator: writing a file as chunks, reading it back, and
//! releasing its chunks.
//!
//! Talking to the remote store is the caller's part. A write is a session:
//! the orchestrator cuts the data into chunks, reuses every chunk that is
//! stored already, hands out the sealed bytes of the others for upload, and
//! publishes the new manifest as the last step. A read is a plan of pieces,
//! one per chunk that the range touches.

use crate::bytes::append_bytes;
use crate::chunk::chunker::{chunk_bytes, chunk_count_for, chunk_id_of, plain_start, Chunk, Chunker};
use crate::chunk::compression::{restore, restored};
use crate::chunk::{start_of, ChunkManifest, ChunkRef};
use crate::crypto::encryption::{decrypt, decrypted, encrypt, EncryptedData, MAX_PLAINTEXT_LEN};
use crate::crypto::keys::{chunk_label, KeyManager};
use crate::crypto::{NONCE_SIZE, TAG_SIZE};
use crate::error::{Error, Result};
use crate::metadata::inode::{without_child, FileType, Inode};
use crate::metadata::store::{ChunkRow, MetadataStore};
use vstd::prelude::*;
use vstd::string::{StringExecFns, StringSliceAdditionalSpecFns};
use vstd::utf8::encode_utf8;

verus! {

/// What to do with a chunk that is to be written.
#[derive(Debug, Clone, Copy, PartialEq, Eq, Structural)]
pub enum ChunkPlan {
    /// The chunk is stored already, under this handle: only its reference
    /// count grows.
    Reuse(i32),
    /// The chunk is new and must be uploaded.
    Upload,
}

/// The plan for a chunk: reuse where the chunk table has a row for its id.
pub open spec fn plan_of(rows: Map<Seq<char>, ChunkRow>, chunk_id: Seq<char>) -> ChunkPlan {
    if rows.contains_key(chunk_id) {
        ChunkPlan::Reuse(rows[chunk_id].message_id)
    } else {
        ChunkPlan::Upload
    }
}

/// Decide whether a chunk must be uploaded.
pub fn plan_chunk(store: &MetadataStore, chunk_id: &str) -> (r: ChunkPlan)
    requires
        store.wf(),
    ensures
        r == plan_of(store.chunk_rows(), chunk_id@),
{
    match store.get_chunk_ref(chunk_id) {
        Some(message_id) => ChunkPlan::Reuse(message_id),
        None => ChunkPlan::Upload,
    }
}

/// What the wire form of a chunk opens to under `key`: the stored bytes
/// behind the nonce and the tag, if the tag authenticates them together with
/// the chunk id.
pub open spec fn opened_chunk(key: Seq<u8>, chunk_id: Seq<char>, wire: Seq<u8>) -> Option<Seq<u8>> {
    if wire.len() < NONCE_SIZE + TAG_SIZE {
        None
    } else {
        decrypted(
            key,
            wire.take(NONCE_SIZE as int),
            wire.skip(NONCE_SIZE as int),
            encode_utf8(chunk_id),
        )
    }
}

/// Size of the wire form of `stored_len` bytes.
pub open spec fn wire_len(stored_len: nat) -> nat {
    stored_len + NONCE_SIZE as nat + TAG_SIZE as nat
}

/// Seal the stored bytes of a chunk for upload: they are encrypted under the
/// chunk's own key, with the chunk id as additional authenticated data, and
/// put in wire form.
pub fn seal_chunk(keys: &KeyManager, chunk_id: &str, stored: &[u8]) -> (r: Result<Vec<u8>>)
    ensures
        stored@.len() <= MAX_PLAINTEXT_LEN ==> r.is_ok(),
        r matches Ok(wire) ==> wire@.len() == wire_len(stored@.len()) && opened_chunk(
            keys.master().subkey(chunk_label(chunk_id@)),
            chunk_id@,
            wire@,
        ) == Some(stored@),
{
    let chunk_key = match keys.chunk_key(chunk_id) {
        Ok(k) => k,
        Err(e) => {
            return Err(e);
        },
    };
    match encrypt(chunk_key.key(), stored, chunk_id.as_bytes()) {
        Ok(data) => {
            let wire = data.to_bytes();
            proof {
                crate::crypto::encryption::lemma_wire_round_trip(data.nonce@, data.ciphertext@);
            }
            Ok(wire)
        },
        Err(e) => Err(e),
    }
}

/// What a downloaded chunk gives: the plaintext, if the wire form opens
/// under the chunk's key, the stored bytes hash to the chunk id, they
/// restore, and the plaintext has the recorded size.
pub open spec fn chunk_plaintext(key: Seq<u8>, chunk: ChunkRef, wire: Seq<u8>) -> Option<Seq<u8>> {
    match opened_chunk(key, chunk.id@, wire) {
        Some(stored) => if chunk_id_of(stored) != chunk.id@ {
            None
        } else {
            match restored(stored, chunk.compressed) {
                Some(plaintext) => if plaintext.len() == chunk.original_size {
                    Some(plaintext)
                } else {
                    None
                },
                None => None,
            }
        },
        None => None,
    }
}

/// Open a downloaded chunk: decrypt, check the content hash, decompress.
///
/// A wire form that does not authenticate gives `Decryption`; stored bytes
/// that do not hash to the chunk id give `ChunkVerificationFailed`; bytes that
/// do not decompress, or not to the recorded size, give `Deserialization`.
pub fn open_chunk(keys: &KeyManager, chunk: &ChunkRef, wire: &[u8]) -> (r: Result<Vec<u8>>)
    ensures
        match chunk_plaintext(keys.master().subkey(chunk_label(chunk.id@)), *chunk, wire@) {
            Some(plaintext) => r matches Ok(v) && v@ == plaintext,
            None => r.is_err(),
        },
        opened_chunk(keys.master().subkey(chunk_label(chunk.id@)), chunk.id@, wire@) is None ==> (
        r matches Err(e) && e is Decryption),
        r matches Err(e) ==> e is Decryption || e is ChunkVerificationFailed
            || e is Deserialization,
{
    let chunk_key = match keys.chunk_key(chunk.id.as_str()) {
        Ok(k) => k,
        Err(_) => {
            return Err(Error::Decryption("Chunk key derivation failed".to_string()));
        },
    };
    let encrypted = match EncryptedData::from_bytes(wire) {
        Ok(data) => data,
        Err(e) => {
            return Err(e);
        },
    };
    let stored = match decrypt(chunk_key.key(), &encrypted, chunk.id.as_str().as_bytes()) {
        Ok(bytes) => bytes,
        Err(e) => {
            return Err(e);
        },
    };
    match crate::chunk::chunker::verify_chunk(chunk.id.as_str(), stored.as_slice()) {
        Ok(()) => {},
        Err(e) => {
            return Err(e);
        },
    }
    let plaintext = match restore(stored, chunk.compressed) {
        Ok(bytes) => bytes,
        Err(e) => {
            return Err(e);
        },
    };
    if plaintext.len() as u64 != chunk.original_size {
        return Err(Error::Deserialization("Chunk has an unexpected size".to_string()));
    }
    Ok(plaintext)
}

/// A chunk to upload.
#[derive(Debug, Clone)]
pub struct Upload {
    /// Id of the chunk.
    pub chunk_id: String,
    /// The sealed bytes.
    pub wire: Vec<u8>,
}

/// A write in progress: the chunks of the new content, of which the first
/// ones are in the manifest already.
pub struct FileWrite {
    ino: u64,
    chunks: Vec<Chunk>,
    manifest: ChunkManifest,
    pending: bool,
}

/// The chunks start where the chunks before them end, and end at `total`.
pub open spec fn laid_out(chunks: Seq<Chunk>, total: nat) -> bool {
    &&& forall|i: int|
        0 <= i < chunks.len() ==> (#[trigger] chunks[i]).info.offset == plain_start(chunks, i)
    &&& plain_start(chunks, chunks.len() as int) == total
}

/// The manifest entry `entry` records `chunk`.
pub open spec fn records(entry: ChunkRef, chunk: Chunk) -> bool {
    &&& entry.id@ == chunk.info.id@
    &&& entry.size == wire_len(chunk.stored().len())
    &&& entry.offset == chunk.info.offset
    &&& entry.original_size == chunk.info.size
    &&& entry.compressed == chunk.info.compressed
}

/// Entries that record the first chunks start where those chunks start.
pub proof fn lemma_recorded_starts(entries: Seq<ChunkRef>, chunks: Seq<Chunk>, n: int)
    requires
        0 <= n <= entries.len(),
        n <= chunks.len(),
        forall|i: int| 0 <= i < n ==> records(#[trigger] entries[i], chunks[i]),
    ensures
        start_of(entries, n) == plain_start(chunks, n),
    decreases n,
{
    if n > 0 {
        lemma_recorded_starts(entries, chunks, n - 1);
        assert(records(entries[n - 1], chunks[n - 1]));
    }
}

/// The start of a chunk in the manifest depends on the entries before it
/// only.
pub proof fn lemma_start_of_prefix(a: Seq<ChunkRef>, b: Seq<ChunkRef>, n: int)
    requires
        n <= a.len(),
        n <= b.len(),
        forall|i: int| 0 <= i < n ==> a[i].original_size == b[i].original_size,
    ensures
        start_of(a, n) == start_of(b, n),
    decreases n,
{
    if n > 0 {
        lemma_start_of_prefix(a, b, n - 1);
    }
}

/// Where a write stands after it has gone over the chunks that are stored
/// already.
pub struct Advance {
    /// The position of the chunk at which the write stops.
    pub stop: int,
    /// The chunk rows then.
    pub rows: Map<Seq<char>, ChunkRow>,
    /// Whether the write stops because the row of the chunk at `stop` cannot
    /// count another reference.
    pub full: bool,
}

/// The row of a chunk that is referenced once more.
pub open spec fn referenced_again(row: ChunkRow) -> ChunkRow {
    ChunkRow { message_id: row.message_id, ref_count: (row.ref_count + 1) as u32 }
}

/// A write goes over its chunks from position `from` on: a chunk that has a
/// row is reused, and its row counts one reference more. The write stops at
/// the first chunk that has no row, at the first chunk whose row cannot
/// count another reference, or behind the last chunk.
pub open spec fn advance(chunks: Seq<Chunk>, rows: Map<Seq<char>, ChunkRow>, from: int) -> Advance
    decreases chunks.len() - from,
{
    if from < 0 || from >= chunks.len() {
        Advance { stop: from, rows, full: false }
    } else {
        let id = chunks[from].info.id@;
        if !rows.contains_key(id) {
            Advance { stop: from, rows, full: false }
        } else if rows[id].ref_count == u32::MAX {
            Advance { stop: from, rows, full: true }
        } else {
            advance(chunks, rows.insert(id, referenced_again(rows[id])), from + 1)
        }
    }
}

/// Going over stored chunks adds no row and changes no handle, and the
/// write stops at or behind the position it started from.
pub proof fn lemma_advance_keeps_handles(chunks: Seq<Chunk>, rows: Map<Seq<char>, ChunkRow>, from: int)
    requires
        0 <= from <= chunks.len(),
    ensures
        from <= advance(chunks, rows, from).stop <= chunks.len(),
        advance(chunks, rows, from).rows.dom() == rows.dom(),
        forall|id: Seq<char>|
            rows.contains_key(id) ==> (#[trigger] advance(chunks, rows, from).rows[id]).message_id
                == rows[id].message_id,
        forall|i: int|
            from <= i < advance(chunks, rows, from).stop ==> rows.contains_key(
                (#[trigger] chunks[i]).info.id@,
            ),
    decreases chunks.len() - from,
{
    if from < chunks.len() {
        let id = chunks[from].info.id@;
        if rows.contains_key(id) && rows[id].ref_count != u32::MAX {
            let next = rows.insert(id, referenced_again(rows[id]));
            lemma_advance_keeps_handles(chunks, next, from + 1);
            assert(next.dom() =~= rows.dom());
            assert forall|i: int| from <= i < advance(chunks, rows, from).stop implies rows.contains_key(
                (#[trigger] chunks[i]).info.id@,
            ) by {
                if i > from {
                    assert(next.contains_key(chunks[i].info.id@));
                }
            }
        }
    }
}

/// A write does not stop for want of room in a row where every row can
/// count as many references more as chunks are left: on a store without
/// rows no write stops so.
pub proof fn lemma_advance_has_room(chunks: Seq<Chunk>, rows: Map<Seq<char>, ChunkRow>, from: int)
    requires
        0 <= from <= chunks.len(),
        forall|id: Seq<char>|
            rows.contains_key(id) ==> (#[trigger] rows[id]).ref_count + (chunks.len() - from)
                <= u32::MAX,
    ensures
        !advance(chunks, rows, from).full,
    decreases chunks.len() - from,
{
    if from < chunks.len() {
        let id = chunks[from].info.id@;
        if rows.contains_key(id) {
            assert(rows[id].ref_count + (chunks.len() - from) <= u32::MAX);
            let next = rows.insert(id, referenced_again(rows[id]));
            assert forall|other: Seq<char>| next.contains_key(other) implies (
            #[trigger] next[other]).ref_count + (chunks.len() - (from + 1)) <= u32::MAX by {
                if other != id {
                    assert(rows[other].ref_count + (chunks.len() - from) <= u32::MAX);
                }
            }
            lemma_advance_has_room(chunks, next, from + 1);
        }
    }
}

impl FileWrite {
    /// The inode that is written.
    pub closed spec fn target(&self) -> u64 {
        self.ino
    }

    /// The chunks of the new content.
    pub closed spec fn chunks(&self) -> Seq<Chunk> {
        self.chunks@
    }

    /// The manifest so far.
    pub closed spec fn manifest(&self) -> ChunkManifest {
        self.manifest
    }

    /// Number of chunks that are in the manifest.
    pub open spec fn recorded(&self) -> nat {
        self.manifest().chunks@.len()
    }

    /// Whether a chunk was handed out for upload and waits for its handle.
    pub closed spec fn awaiting(&self) -> bool {
        self.pending
    }

    /// The session invariant: the chunks lie one after the other and add up
    /// to the manifest's total size, no chunk is too long to be sealed, and
    /// the manifest records the first chunks.
    pub open spec fn wf(&self) -> bool {
        &&& self.recorded() <= self.chunks().len()
        &&& self.awaiting() ==> self.recorded() < self.chunks().len()
        &&& laid_out(self.chunks(), self.manifest().total_size as nat)
        &&& forall|i: int|
            0 <= i < self.chunks().len() ==> (#[trigger] self.chunks()[i]).stored().len()
                <= crate::config::MAX_CHUNK_SIZE
        &&& forall|i: int|
            0 <= i < self.recorded() ==> records(
                #[trigger] self.manifest().chunks@[i],
                self.chunks()[i],
            )
    }

    /// Begin to write `data` as the new content of the file `ino`: the data
    /// is cut into chunks, and an empty manifest of the next version is set
    /// up for them, with the total size and the hash of the data.
    pub fn begin(store: &MetadataStore, chunker: &Chunker, ino: u64, data: &[u8]) -> (r: Result<
        FileWrite,
    >)
        ensures
            match r {
                Ok(write) => {
                    &&& store.inodes().contains_key(ino)
                    &&& store.inodes()[ino].attrs.kind == FileType::RegularFile
                    &&& store.inodes()[ino].version < u64::MAX
                    &&& write.wf()
                    &&& write.target() == ino
                    &&& write.recorded() == 0
                    &&& !write.awaiting()
                    &&& write.manifest().version == store.inodes()[ino].version + 1
                    &&& write.manifest().total_size == data@.len()
                    &&& write.manifest().file_hash@ == chunk_id_of(data@)
                    &&& write.chunks().len() == chunk_count_for(data@.len(), chunker.size())
                    &&& forall|i: int|
                        0 <= i < write.chunks().len() ==> chunker.describes(
                            #[trigger] write.chunks()[i],
                            data@,
                            i,
                        )
                    &&& chunk_bytes(write.chunks()) == data@
                },
                Err(e) => if !store.inodes().contains_key(ino) {
                    e matches Error::InodeNotFound(n) && n == ino
                } else if store.inodes()[ino].attrs.kind != FileType::RegularFile {
                    e is NotAFile
                } else {
                    e is Internal && store.inodes()[ino].version == u64::MAX
                },
            },
    {
        let inode = match store.get_inode_required(ino) {
            Ok(inode) => inode,
            Err(e) => {
                return Err(e);
            },
        };
        if !inode.is_file() {
            return Err(Error::NotAFile(inode.name.clone()));
        }
        if inode.version == u64::MAX {
            return Err(Error::Internal("File version overflow".to_string()));
        }
        let chunks = chunker.chunk_data(data);
        let mut manifest = ChunkManifest::new(inode.version + 1);
        manifest.total_size = data.len() as u64;
        manifest.file_hash = chunker.file_hash(data);
        proof {
            assert forall|i: int| 0 <= i < chunks@.len() implies (#[trigger] chunks@[i]).stored().len()
                <= crate::config::MAX_CHUNK_SIZE by {
                assert(chunker.describes(chunks@[i], data@, i));
            }
        }
        Ok(FileWrite { ino, chunks, manifest, pending: false })
    }

    /// Put the next chunk into the manifest, stored under `message_id`.
    fn record(&mut self, store: &mut MetadataStore, message_id: i32) -> (r: Result<()>)
        requires
            old(self).wf(),
            old(store).wf(),
            old(self).recorded() < old(self).chunks().len(),
        ensures
            final(self).chunks() == old(self).chunks(),
            final(self).target() == old(self).target(),
            final(self).awaiting() == old(self).awaiting(),
            final(self).manifest().version == old(self).manifest().version,
            final(self).manifest().total_size == old(self).manifest().total_size,
            final(self).manifest().file_hash == old(self).manifest().file_hash,
            final(store).wf(),
            final(store).inodes() == old(store).inodes(),
            final(store).index() == old(store).index(),
            final(store).next() == old(store).next(),
            r.is_ok() == !(old(store).chunk_rows().contains_key(
                old(self).chunks()[old(self).recorded() as int].info.id@,
            ) && old(store).chunk_rows()[old(self).chunks()[old(self).recorded() as int].info.id@].ref_count
                == u32::MAX),
            r.is_ok() ==> {
                let chunk = old(self).chunks()[old(self).recorded() as int];
                &&& final(self).recorded() == old(self).recorded() + 1
                &&& final(self).manifest().chunks@ == old(self).manifest().chunks@.push(
                    final(self).manifest().chunks@.last(),
                )
                &&& records(final(self).manifest().chunks@.last(), chunk)
                &&& final(self).manifest().chunks@.last().message_id == message_id
                &&& final(store).chunk_rows() == old(store).chunk_rows().insert(
                    chunk.info.id@,
                    ChunkRow {
                        message_id,
                        ref_count: if old(store).chunk_rows().contains_key(chunk.info.id@) {
                            (old(store).chunk_rows()[chunk.info.id@].ref_count + 1) as u32
                        } else {
                            1
                        },
                    },
                )
                &&& (old(self).awaiting() ==> final(self).recorded() <= final(self).chunks().len())
                &&& final(self).recorded() <= final(self).chunks().len()
                &&& laid_out(final(self).chunks(), final(self).manifest().total_size as nat)
                &&& forall|i: int|
                    0 <= i < final(self).recorded() ==> records(
                        #[trigger] final(self).manifest().chunks@[i],
                        final(self).chunks()[i],
                    )
            },
            r.is_err() ==> *final(self) == *old(self) && final(store).chunk_rows() == old(store).chunk_rows(),
            r matches Err(e) ==> e is Internal,
    {
        let position = self.manifest.chunks.len();
        let chunk = &self.chunks[position];
        match store.save_chunk_ref(chunk.info.id.as_str(), message_id) {
            Ok(()) => {},
            Err(e) => {
                return Err(e);
            },
        }
        let entry = ChunkRef {
            id: chunk.info.id.clone(),
            size: (chunk.stored_bytes().len() + NONCE_SIZE + TAG_SIZE) as u64,
            message_id,
            offset: chunk.info.offset,
            original_size: chunk.info.size,
            compressed: chunk.info.compressed,
        };
        let ghost before = self.manifest.chunks@;
        self.manifest.chunks.push(entry);
        proof {
            assert forall|i: int| 0 <= i < self.recorded() implies records(
                #[trigger] self.manifest().chunks@[i],
                self.chunks()[i],
            ) by {
                if i < position {
                    assert(self.manifest().chunks@[i] == before[i]);
                }
            }
        }
        Ok(())
    }

    /// Advance the write: every chunk that is stored already is reused (its
    /// reference count grows by one and its handle goes into the manifest),
    /// up to the first chunk that is new, which is sealed and handed out for
    /// upload. Nothing is handed out when all chunks are in the manifest. The
    /// call fails only at a chunk whose row cannot count another reference;
    /// the chunks before it stay reused.
    pub fn next_upload(&mut self, store: &mut MetadataStore, keys: &KeyManager) -> (r: Result<
        Option<Upload>,
    >)
        requires
            old(self).wf(),
            !old(self).awaiting(),
            old(store).wf(),
        ensures
            final(self).wf(),
            final(store).wf(),
            final(self).chunks() == old(self).chunks(),
            final(self).target() == old(self).target(),
            final(self).manifest().version == old(self).manifest().version,
            final(self).manifest().total_size == old(self).manifest().total_size,
            final(self).manifest().file_hash == old(self).manifest().file_hash,
            final(self).recorded() >= old(self).recorded(),
            final(store).inodes() == old(store).inodes(),
            final(store).index() == old(store).index(),
            final(store).next() == old(store).next(),
            forall|i: int|
                0 <= i < old(self).recorded() ==> #[trigger] final(self).manifest().chunks@[i]
                    == old(self).manifest().chunks@[i],
            final(self).recorded() == advance(
                old(self).chunks(),
                old(store).chunk_rows(),
                old(self).recorded() as int,
            ).stop,
            final(store).chunk_rows() == advance(
                old(self).chunks(),
                old(store).chunk_rows(),
                old(self).recorded() as int,
            ).rows,
            r.is_err() == advance(
                old(self).chunks(),
                old(store).chunk_rows(),
                old(self).recorded() as int,
            ).full,
            forall|i: int|
                old(self).recorded() <= i < final(self).recorded() ==> old(store).chunk_rows().contains_key(
                    (#[trigger] final(self).chunks()[i]).info.id@,
                ) && final(self).manifest().chunks@[i].message_id == old(store).chunk_rows()[final(self).chunks()[i].info.id@].message_id,
            match r {
                Ok(Some(upload)) => {
                    let chunk = final(self).chunks()[final(self).recorded() as int];
                    &&& final(self).awaiting()
                    &&& final(self).recorded() < final(self).chunks().len()
                    &&& upload.chunk_id@ == chunk.info.id@
                    &&& !final(store).chunk_rows().contains_key(chunk.info.id@)
                    &&& upload.wire@.len() == wire_len(chunk.stored().len())
                    &&& opened_chunk(
                        keys.master().subkey(chunk_label(chunk.info.id@)),
                        chunk.info.id@,
                        upload.wire@,
                    ) == Some(chunk.stored())
                },
                Ok(None) => !final(self).awaiting() && final(self).recorded() == final(self).chunks().len(),
                Err(e) => !final(self).awaiting() && e is Internal,
            },
    {
        let ghost goal = advance(old(self).chunks(), old(store).chunk_rows(), old(self).recorded() as int);
        loop
            invariant
                self.wf(),
                !self.awaiting(),
                store.wf(),
                self.chunks() == old(self).chunks(),
                self.target() == old(self).target(),
                self.manifest().version == old(self).manifest().version,
                self.manifest().total_size == old(self).manifest().total_size,
                self.manifest().file_hash == old(self).manifest().file_hash,
                self.recorded() >= old(self).recorded(),
                store.inodes() == old(store).inodes(),
                store.index() == old(store).index(),
                store.next() == old(store).next(),
                forall|i: int|
                    0 <= i < old(self).recorded() ==> #[trigger] self.manifest().chunks@[i] == old(self).manifest().chunks@[i],
                goal == advance(old(self).chunks(), old(store).chunk_rows(), old(self).recorded() as int),
                goal == advance(self.chunks(), store.chunk_rows(), self.recorded() as int),
                store.chunk_rows().dom() == old(store).chunk_rows().dom(),
                forall|id: Seq<char>|
                    old(store).chunk_rows().contains_key(id) ==> (#[trigger] store.chunk_rows()[id]).message_id
                        == old(store).chunk_rows()[id].message_id,
                forall|i: int|
                    old(self).recorded() <= i < self.recorded() ==> old(store).chunk_rows().contains_key(
                        (#[trigger] self.chunks()[i]).info.id@,
                    ) && self.manifest().chunks@[i].message_id == old(store).chunk_rows()[self.chunks()[i].info.id@].message_id,
            decreases self.chunks().len() - self.recorded(),
        {
            let position = self.manifest.chunks.len();
            if position >= self.chunks.len() {
                return Ok(None);
            }
            let ghost rows_before = store.chunk_rows();
            let ghost entries_before = self.manifest().chunks@;
            match plan_chunk(store, self.chunks[position].info.id.as_str()) {
                ChunkPlan::Reuse(message_id) => {
                    match self.record(store, message_id) {
                        Ok(()) => {
                            proof {
                                let id = self.chunks()[position as int].info.id@;
                                assert(store.chunk_rows() =~= rows_before.insert(
                                    id,
                                    referenced_again(rows_before[id]),
                                ));
                                assert(store.chunk_rows().dom() =~= old(store).chunk_rows().dom());
                                assert(self.manifest().chunks@[position as int]
                                    == self.manifest().chunks@.last());
                                assert forall|i: int|
                                    old(self).recorded() <= i
                                        < self.recorded() implies old(store).chunk_rows().contains_key(
                                    (#[trigger] self.chunks()[i]).info.id@,
                                ) && self.manifest().chunks@[i].message_id == old(store).chunk_rows()[self.chunks()[i].info.id@].message_id by {
                                    if i < position {
                                        assert(self.manifest().chunks@[i] == entries_before[i]);
                                    }
                                }
                                assert forall|i: int|
                                    0 <= i < old(self).recorded() implies #[trigger] self.manifest().chunks@[i]
                                    == old(self).manifest().chunks@[i] by {
                                    assert(self.manifest().chunks@[i] == entries_before[i]);
                                }
                            }
                        },
                        Err(e) => {
                            return Err(e);
                        },
                    }
                },
                ChunkPlan::Upload => {
                    let chunk = &self.chunks[position];
                    let wire = match seal_chunk(
                        keys,
                        chunk.info.id.as_str(),
                        chunk.stored_bytes(),
                    ) {
                        Ok(wire) => wire,
                        Err(e) => {
                            // No chunk of a session is too long to be sealed.
                            assert(false);
                            return Err(map_seal_error(e));
                        },
                    };
                    let upload = Upload { chunk_id: chunk.info.id.clone(), wire };
                    self.pending = true;
                    return Ok(Some(upload));
                },
            }
        }
    }

    /// Take note that the chunk that was handed out is stored under
    /// `message_id`: its row is created and it goes into the manifest. The
    /// call fails only where the chunk has got a row meanwhile that cannot
    /// count another reference.
    pub fn uploaded(&mut self, store: &mut MetadataStore, message_id: i32) -> (r: Result<()>)
        requires
            old(self).wf(),
            old(self).awaiting(),
            old(store).wf(),
        ensures
            final(self).wf(),
            final(store).wf(),
            final(self).chunks() == old(self).chunks(),
            final(self).target() == old(self).target(),
            final(self).manifest().version == old(self).manifest().version,
            final(self).manifest().total_size == old(self).manifest().total_size,
            final(self).manifest().file_hash == old(self).manifest().file_hash,
            final(store).inodes() == old(store).inodes(),
            final(store).index() == old(store).index(),
            final(store).next() == old(store).next(),
            r.is_ok() == !(old(store).chunk_rows().contains_key(
                old(self).chunks()[old(self).recorded() as int].info.id@,
            ) && old(store).chunk_rows()[old(self).chunks()[old(self).recorded() as int].info.id@].ref_count
                == u32::MAX),
            r.is_ok() ==> {
                let chunk = old(self).chunks()[old(self).recorded() as int];
                &&& !final(self).awaiting()
                &&& final(self).recorded() == old(self).recorded() + 1
                &&& forall|i: int|
                    0 <= i < old(self).recorded() ==> #[trigger] final(self).manifest().chunks@[i]
                        == old(self).manifest().chunks@[i]
                &&& final(self).manifest().chunks@.last().message_id == message_id
                &&& final(store).chunk_rows() == old(store).chunk_rows().insert(
                    chunk.info.id@,
                    ChunkRow {
                        message_id,
                        ref_count: if old(store).chunk_rows().contains_key(chunk.info.id@) {
                            (old(store).chunk_rows()[chunk.info.id@].ref_count + 1) as u32
                        } else {
                            1
                        },
                    },
                )
                &&& plan_of(final(store).chunk_rows(), chunk.info.id@) == ChunkPlan::Reuse(
                    message_id,
                )
            },
            r matches Err(e) ==> e is Internal && *final(self) == *old(self) && final(store).chunk_rows() == old(store).chunk_rows(),
    {
        let ghost entries_before = self.manifest().chunks@;
        match self.record(store, message_id) {
            Ok(()) => {
                self.pending = false;
                proof {
                    assert forall|i: int|
                        0 <= i < old(self).recorded() implies #[trigger] self.manifest().chunks@[i]
                        == old(self).manifest().chunks@[i] by {
                        assert(self.manifest().chunks@[i] == entries_before[i]);
                    }
                }
                Ok(())
            },
            Err(e) => Err(e),
        }
    }

    /// The plaintext of a chunk of the new content, for warming the cache.
    pub fn chunk(&self, i: usize) -> (r: &Chunk)
        requires
            i < self.chunks().len(),
        ensures
            *r == self.chunks()[i as int],
    {
        &self.chunks[i]
    }

    /// Number of chunks of the new content.
    pub fn chunk_count(&self) -> (r: usize)
        ensures
            r == self.chunks().len(),
    {
        self.chunks.len()
    }

    /// Publish the write, as its last step: the complete manifest replaces
    /// the file's manifest, the file's size becomes the total size and its
    /// version is bumped.
    pub fn finish(self, store: &mut MetadataStore) -> (r: Result<()>)
        requires
            self.wf(),
            !self.awaiting(),
            self.recorded() == self.chunks().len(),
            old(store).wf(),
        ensures
            final(store).wf(),
            final(store).chunk_rows() == old(store).chunk_rows(),
            final(store).next() == old(store).next(),
            r.is_ok() == (old(store).inodes().contains_key(self.target()) && old(store).inodes()[self.target()].attrs.kind == FileType::RegularFile && old(store).inodes()[self.target()].version < u64::MAX),
            r.is_ok() ==> {
                let before = old(store).inodes()[self.target()];
                let after = final(store).inodes()[self.target()];
                &&& final(store).inodes().dom() == old(store).inodes().dom()
                &&& forall|ino: u64|
                    ino != self.target() && old(store).inodes().contains_key(ino) ==> final(store).inodes()[ino] == old(store).inodes()[ino]
                &&& after.manifest == Some(self.manifest())
                &&& self.manifest().well_formed()
                &&& after.attrs.size == self.manifest().total_size
                &&& after.version == before.version + 1
                &&& after.well_formed()
                &&& after.ino == before.ino && after.parent == before.parent && after.name
                    == before.name && after.children == before.children
            },
            r.is_ok() ==> publishes(
                old(store).inodes(),
                final(store).inodes(),
                self.target(),
                self.manifest(),
            ),
            r.is_err() ==> final(store).inodes() == old(store).inodes(),
    {
        proof {
            let entries = self.manifest().chunks@;
            let chunks = self.chunks();
            lemma_recorded_starts(entries, chunks, entries.len() as int);
            assert forall|i: int| 0 <= i < entries.len() implies (#[trigger] entries[i]).offset
                == start_of(entries, i) by {
                lemma_recorded_starts(entries, chunks, i);
                assert(records(entries[i], chunks[i]));
            }
        }
        let ino = self.ino;
        let usable = match store.get_inode(ino) {
            Some(inode) => inode.is_file() && inode.version < u64::MAX && inode.ino == ino,
            None => false,
        };
        proof {
            if store.inodes().contains_key(ino) {
                store.lemma_inode_key(ino);
            }
        }
        if !usable {
            return match store.get_inode(ino) {
                Some(inode) => Err(Error::NotAFile(inode.name.clone())),
                None => Err(Error::InodeNotFound(ino)),
            };
        }
        let ghost before = store.inodes();
        match store.take_inode(ino) {
            Some(inode) => {
                let mut inode = inode;
                inode.publish(self.manifest);
                store.save_inode(inode);
                proof {
                    assert(store.inodes().dom() =~= before.dom());
                }
                Ok(())
            },
            None => Err(Error::InodeNotFound(ino)),
        }
    }
}

/// Whether the inodes `after` are the inodes `before` with one write
/// published: the file `ino` holds `manifest`, whole, with its size, at the
/// next version, and every other inode is as it was.
pub open spec fn publishes(
    before: Map<u64, Inode>,
    after: Map<u64, Inode>,
    ino: u64,
    manifest: ChunkManifest,
) -> bool {
    &&& before.contains_key(ino)
    &&& after.dom() == before.dom()
    &&& forall|other: u64|
        other != ino && before.contains_key(other) ==> #[trigger] after[other] == before[other]
    &&& after[ino].manifest == Some(manifest)
    &&& after[ino].attrs.size == manifest.total_size
    &&& after[ino].version == before[ino].version + 1
}

/// Writes take effect one after the other. Of two writes to different
/// files, each file holds the manifest of its own write, whichever came
/// first. Of two writes to the same file, the file holds the manifest of
/// the later one, whole: nothing of the earlier write is left in it. Files
/// that neither wrote to are as they were.
pub proof fn lemma_writes_take_turns(
    start: Map<u64, Inode>,
    between: Map<u64, Inode>,
    end: Map<u64, Inode>,
    first: u64,
    first_manifest: ChunkManifest,
    second: u64,
    second_manifest: ChunkManifest,
)
    requires
        publishes(start, between, first, first_manifest),
        publishes(between, end, second, second_manifest),
    ensures
        end.dom() == start.dom(),
        end[second].manifest == Some(second_manifest),
        end[second].attrs.size == second_manifest.total_size,
        first != second ==> end[first].manifest == Some(first_manifest) && end[first].attrs.size
            == first_manifest.total_size && end[first].version == start[first].version + 1
            && end[second].version == start[second].version + 1,
        first == second ==> end[second].version == start[second].version + 2,
        forall|other: u64|
            other != first && other != second && start.contains_key(other) ==> #[trigger] end[other]
                == start[other],
{
    assert(between.contains_key(first));
    if first != second {
        assert(end[first] == between[first]);
        assert(between[second] == start[second]);
    }
    assert forall|other: u64|
        other != first && other != second && start.contains_key(other) implies #[trigger] end[other]
        == start[other] by {
        assert(between[other] == start[other]);
        assert(between.contains_key(other));
    }
}

/// What a sealing failure is reported as: a failure of the encryption or
/// of the key derivation as it is, any other failure as an internal one.
fn map_seal_error(e: Error) -> (r: Error)
    ensures
        e is Encryption || e is KeyDerivation ==> r == e,
        !(e is Encryption || e is KeyDerivation) ==> r is Internal,
{
    match e {
        Error::Encryption(text) => Error::Encryption(text),
        Error::KeyDerivation(text) => Error::KeyDerivation(text),
        _ => Error::Internal("Sealing a chunk failed".to_string()),
    }
}

/// A piece of a read: the bytes `start..end` of the plaintext of one chunk.
#[derive(Debug, Clone, Copy, PartialEq, Eq, Structural)]
pub struct ReadPiece {
    /// Index of the chunk in the manifest.
    pub chunk_index: usize,
    /// First byte of the piece within the chunk.
    pub start: u64,
    /// End of the piece within the chunk.
    pub end: u64,
}

/// The pieces that the range `offset..end` of a file takes from its first
/// `n` chunks: one piece from every chunk that the range touches, in order.
pub open spec fn pieces_upto(chunks: Seq<ChunkRef>, offset: int, end: int, n: int) -> Seq<ReadPiece>
    decreases n,
{
    if n <= 0 {
        Seq::empty()
    } else {
        let rest = pieces_upto(chunks, offset, end, n - 1);
        let chunk_start = start_of(chunks, n - 1) as int;
        let chunk_end = chunk_start + chunks[n - 1].original_size;
        if chunk_end > offset && chunk_start < end {
            rest.push(
                ReadPiece {
                    chunk_index: (n - 1) as usize,
                    start: if offset > chunk_start {
                        (offset - chunk_start) as u64
                    } else {
                        0
                    },
                    end: if end < chunk_end {
                        (end - chunk_start) as u64
                    } else {
                        chunks[n - 1].original_size
                    },
                },
            )
        } else {
            rest
        }
    }
}

/// The end of a read of `size` bytes at `offset` in a file of `total` bytes.
pub open spec fn read_end(offset: int, size: int, total: int) -> int {
    if offset + size < total {
        offset + size
    } else {
        total
    }
}

/// The pieces of a read of `size` bytes at `offset`: none at or behind the
/// end of the file.
pub open spec fn pieces_for(manifest: ChunkManifest, offset: u64, size: u32) -> Seq<ReadPiece> {
    if offset >= manifest.total_size {
        Seq::empty()
    } else {
        pieces_upto(
            manifest.chunks@,
            offset as int,
            read_end(offset as int, size as int, manifest.total_size as int),
            manifest.chunks@.len() as int,
        )
    }
}

/// The bytes that the pieces take from the chunks' plaintexts.
pub open spec fn assembled(pieces: Seq<ReadPiece>, plaintexts: Seq<Seq<u8>>) -> Seq<u8>
    decreases pieces.len(),
{
    if pieces.len() == 0 {
        Seq::empty()
    } else {
        assembled(pieces.drop_last(), plaintexts) + plaintexts[pieces.last().chunk_index as int].subrange(
            pieces.last().start as int,
            pieces.last().end as int,
        )
    }
}

/// The plaintexts, one after the other: the file.
pub open spec fn file_of(plaintexts: Seq<Seq<u8>>) -> Seq<u8>
    decreases plaintexts.len(),
{
    if plaintexts.len() == 0 {
        Seq::empty()
    } else {
        file_of(plaintexts.drop_last()) + plaintexts.last()
    }
}

/// `x` brought into `0..=hi`.
pub open spec fn clamp(x: int, hi: int) -> int {
    if x < 0 {
        0
    } else if x > hi {
        hi
    } else {
        x
    }
}

/// The pieces of a range, taken from the plaintexts of the chunks, are the
/// range of the file.
pub proof fn lemma_pieces_assemble(
    chunks: Seq<ChunkRef>,
    plaintexts: Seq<Seq<u8>>,
    offset: int,
    end: int,
    n: int,
)
    requires
        0 <= n <= chunks.len() <= usize::MAX,
        plaintexts.len() == chunks.len(),
        forall|i: int| 0 <= i < chunks.len() ==> (#[trigger] plaintexts[i]).len() == chunks[i].original_size,
        0 <= offset <= end,
        start_of(chunks, chunks.len() as int) <= u64::MAX,
    ensures
        file_of(plaintexts.take(n)).len() == start_of(chunks, n),
        assembled(pieces_upto(chunks, offset, end, n), plaintexts) == file_of(
            plaintexts.take(n),
        ).subrange(
            clamp(offset, start_of(chunks, n) as int),
            clamp(end, start_of(chunks, n) as int),
        ),
    decreases n,
{
    if n == 0 {
        assert(plaintexts.take(0) =~= Seq::<Seq<u8>>::empty());
        assert(file_of(plaintexts.take(0)).subrange(0, 0) =~= Seq::<u8>::empty());
    } else {
        lemma_pieces_assemble(chunks, plaintexts, offset, end, n - 1);
        crate::chunk::lemma_start_of_monotonic(chunks, n, chunks.len() as int);
        let before = file_of(plaintexts.take(n - 1));
        let last = plaintexts[n - 1];
        let whole = file_of(plaintexts.take(n));
        assert(plaintexts.take(n).drop_last() =~= plaintexts.take(n - 1));
        assert(plaintexts.take(n).last() == last);
        assert(whole == before + last);
        let s = start_of(chunks, n - 1) as int;
        let e = s + chunks[n - 1].original_size;
        let rest = pieces_upto(chunks, offset, end, n - 1);
        if e > offset && s < end {
            let lo = if offset > s { offset - s } else { 0 };
            let hi = if end < e { end - s } else { chunks[n - 1].original_size as int };
            let pieces = pieces_upto(chunks, offset, end, n);
            assert(pieces.drop_last() =~= rest);
            assert(pieces.last().chunk_index == n - 1);
            assert(pieces.last().start == lo);
            assert(pieces.last().end == hi);
            assert(assembled(pieces, plaintexts) == assembled(rest, plaintexts) + last.subrange(
                lo,
                hi,
            ));
            assert(before.subrange(clamp(offset, s), clamp(end, s)) + last.subrange(lo, hi)
                =~= whole.subrange(clamp(offset, e), clamp(end, e)));
        } else {
            assert(before.subrange(clamp(offset, s), clamp(end, s)) =~= whole.subrange(
                clamp(offset, e),
                clamp(end, e),
            ));
        }
    }
}

/// Reading a whole file that was written takes every byte of its chunks: the
/// pieces of the range from 0 to the total size assemble to the file.
pub proof fn lemma_read_whole_file(manifest: ChunkManifest, plaintexts: Seq<Seq<u8>>, size: u32)
    requires
        manifest.well_formed(),
        plaintexts.len() == manifest.chunks@.len(),
        forall|i: int|
            0 <= i < manifest.chunks@.len() ==> (#[trigger] plaintexts[i]).len()
                == manifest.chunks@[i].original_size,
        size >= manifest.total_size,
    ensures
        assembled(pieces_for(manifest, 0, size), plaintexts) == file_of(plaintexts),
{
    let n = manifest.chunks@.len() as int;
    vstd::std_specs::vec::axiom_spec_len(&manifest.chunks);
    lemma_pieces_assemble(manifest.chunks@, plaintexts, 0, manifest.total_size as int, n);
    assert(plaintexts.take(n) =~= plaintexts);
    if manifest.total_size == 0 {
        assert(file_of(plaintexts) =~= Seq::<u8>::empty());
    } else {
        assert(file_of(plaintexts).subrange(0, manifest.total_size as int) =~= file_of(
            plaintexts,
        ));
    }
}

/// The plaintexts of the chunks.
pub open spec fn plaintexts(chunks: Seq<Chunk>) -> Seq<Seq<u8>> {
    Seq::new(chunks.len(), |i: int| chunks[i].data@)
}

/// The plaintexts of the chunks, one after the other, are the bytes of the
/// chunks.
pub proof fn lemma_file_of_chunks(chunks: Seq<Chunk>)
    ensures
        file_of(plaintexts(chunks)) == chunk_bytes(chunks),
    decreases chunks.len(),
{
    if chunks.len() > 0 {
        lemma_file_of_chunks(chunks.drop_last());
        assert(plaintexts(chunks).drop_last() =~= plaintexts(chunks.drop_last()));
        assert(plaintexts(chunks).last() == chunks.last().data@);
    }
}

/// A file that was written in one write reads back: where the manifest
/// records the chunks of the data, the pieces of the range from 0 to the
/// file's size, taken from the chunks' plaintexts, are the data.
pub proof fn lemma_written_file_reads_back(
    manifest: ChunkManifest,
    chunks: Seq<Chunk>,
    data: Seq<u8>,
    size: u32,
)
    requires
        manifest.well_formed(),
        manifest.chunks@.len() == chunks.len(),
        forall|i: int| 0 <= i < chunks.len() ==> records(#[trigger] manifest.chunks@[i], chunks[i]),
        forall|i: int| 0 <= i < chunks.len() ==> (#[trigger] chunks[i]).info.size == chunks[i].data@.len(),
        chunk_bytes(chunks) == data,
        size >= manifest.total_size,
    ensures
        assembled(pieces_for(manifest, 0, size), plaintexts(chunks)) == data,
{
    lemma_file_of_chunks(chunks);
    assert forall|i: int| 0 <= i < manifest.chunks@.len() implies (#[trigger] plaintexts(
        chunks,
    )[i]).len() == manifest.chunks@[i].original_size by {
        assert(records(manifest.chunks@[i], chunks[i]));
    }
    lemma_read_whole_file(manifest, plaintexts(chunks), size);
}

/// Plan a read of `size` bytes at `offset`: which bytes of which chunks to
/// take, in order. A read at or behind the end of the file takes nothing; a
/// read across the end is cut there.
pub fn plan_read(manifest: &ChunkManifest, offset: u64, size: u32) -> (r: Vec<ReadPiece>)
    requires
        manifest.well_formed(),
    ensures
        r@ == pieces_for(*manifest, offset, size),
{
    let mut pieces: Vec<ReadPiece> = Vec::new();
    if offset >= manifest.total_size {
        return pieces;
    }
    let end: u64 = if manifest.total_size - offset > size as u64 {
        offset + size as u64
    } else {
        manifest.total_size
    };
    let mut current_offset: u64 = 0;
    let mut i: usize = 0;
    while i < manifest.chunks.len()
        invariant
            manifest.well_formed(),
            i <= manifest.chunks@.len(),
            current_offset == start_of(manifest.chunks@, i as int),
            offset <= end <= manifest.total_size,
            pieces@ == pieces_upto(manifest.chunks@, offset as int, end as int, i as int),
        decreases manifest.chunks@.len() - i,
    {
        proof {
            crate::chunk::lemma_start_of_monotonic(
                manifest.chunks@,
                i + 1,
                manifest.chunks@.len() as int,
            );
        }
        let chunk = &manifest.chunks[i];
        let chunk_end = current_offset + chunk.original_size;
        if chunk_end > offset && current_offset < end {
            let start = if offset > current_offset {
                offset - current_offset
            } else {
                0
            };
            let piece_end = if end < chunk_end {
                end - current_offset
            } else {
                chunk.original_size
            };
            pieces.push(ReadPiece { chunk_index: i, start, end: piece_end });
        }
        current_offset = chunk_end;
        i += 1;
    }
    pieces
}

/// Take a piece from the plaintext of its chunk and append it to what was
/// read so far. A plaintext that is shorter than the piece is refused.
pub fn append_piece(out: &mut Vec<u8>, plaintext: &[u8], piece: &ReadPiece) -> (r: Result<()>)
    ensures
        r.is_ok() == (piece.start <= piece.end <= plaintext@.len()),
        r.is_ok() ==> final(out)@ == old(out)@ + plaintext@.subrange(
            piece.start as int,
            piece.end as int,
        ),
        r matches Err(e) ==> e is Deserialization && final(out)@ == old(out)@,
{
    if piece.start > piece.end || piece.end > plaintext.len() as u64 {
        return Err(Error::Deserialization("Chunk is shorter than recorded".to_string()));
    }
    let slice = vstd::slice::slice_subrange(plaintext, piece.start as usize, piece.end as usize);
    append_bytes(out, slice);
    Ok(())
}

/// The chunk rows after the chunks `ids` have been released, one after the
/// other.
pub open spec fn rows_after_release(rows: Map<Seq<char>, ChunkRow>, ids: Seq<Seq<char>>) -> Map<
    Seq<char>,
    ChunkRow,
>
    decreases ids.len(),
{
    if ids.len() == 0 {
        rows
    } else {
        let earlier = rows_after_release(rows, ids.drop_last());
        let id = ids.last();
        if !earlier.contains_key(id) {
            earlier
        } else if earlier[id].ref_count <= 1 {
            earlier.remove(id)
        } else {
            earlier.insert(
                id,
                ChunkRow {
                    message_id: earlier[id].message_id,
                    ref_count: (earlier[id].ref_count - 1) as u32,
                },
            )
        }
    }
}

/// The chunks whose last reference goes when the chunks `ids` are released,
/// one after the other, with their handles: the remote objects to delete.
pub open spec fn orphaned_by_release(rows: Map<Seq<char>, ChunkRow>, ids: Seq<Seq<char>>) -> Seq<
    (Seq<char>, i32),
>
    decreases ids.len(),
{
    if ids.len() == 0 {
        Seq::empty()
    } else {
        let earlier = rows_after_release(rows, ids.drop_last());
        let orphaned = orphaned_by_release(rows, ids.drop_last());
        let id = ids.last();
        if earlier.contains_key(id) && earlier[id].ref_count <= 1 {
            orphaned.push((id, earlier[id].message_id))
        } else {
            orphaned
        }
    }
}

/// The ids of the chunks of a manifest.
pub open spec fn manifest_ids(chunks: Seq<ChunkRef>) -> Seq<Seq<char>> {
    Seq::new(chunks.len(), |i: int| chunks[i].id@)
}

/// The orphaned chunks as character sequences.
pub open spec fn orphan_views(orphans: Seq<(String, i32)>) -> Seq<(Seq<char>, i32)> {
    Seq::new(orphans.len(), |i: int| (orphans[i].0@, orphans[i].1))
}

/// Release the chunks of a manifest: every chunk loses one reference. The
/// chunks whose last reference went come back with their handles, for their
/// remote objects to be deleted and their cache entries to be removed: a
/// chunk is orphaned exactly when its count reaches zero, never while it is
/// referenced.
pub fn release_chunks(store: &mut MetadataStore, manifest: &ChunkManifest) -> (r: Vec<(String, i32)>)
    requires
        old(store).wf(),
    ensures
        final(store).wf(),
        final(store).inodes() == old(store).inodes(),
        final(store).index() == old(store).index(),
        final(store).sealed_values() == old(store).sealed_values(),
        final(store).next() == old(store).next(),
        final(store).chunk_rows() == rows_after_release(
            old(store).chunk_rows(),
            manifest_ids(manifest.chunks@),
        ),
        orphan_views(r@) == orphaned_by_release(
            old(store).chunk_rows(),
            manifest_ids(manifest.chunks@),
        ),
{
    let mut orphans: Vec<(String, i32)> = Vec::new();
    let ghost ids = manifest_ids(manifest.chunks@);
    let mut i: usize = 0;
    assert(orphan_views(orphans@) =~= Seq::<(Seq<char>, i32)>::empty());
    while i < manifest.chunks.len()
        invariant
            store.wf(),
            store.inodes() == old(store).inodes(),
            store.index() == old(store).index(),
            store.sealed_values() == old(store).sealed_values(),
            store.next() == old(store).next(),
            ids == manifest_ids(manifest.chunks@),
            i <= manifest.chunks@.len(),
            store.chunk_rows() == rows_after_release(old(store).chunk_rows(), ids.take(i as int)),
            orphan_views(orphans@) == orphaned_by_release(
                old(store).chunk_rows(),
                ids.take(i as int),
            ),
        decreases manifest.chunks@.len() - i,
    {
        proof {
            assert(ids.take(i + 1).drop_last() =~= ids.take(i as int));
            assert(ids.take(i + 1).last() == manifest.chunks@[i as int].id@);
            if store.chunk_rows().contains_key(manifest.chunks@[i as int].id@) {
                store.lemma_rows_referenced(manifest.chunks@[i as int].id@);
            }
        }
        let chunk = &manifest.chunks[i];
        let ghost views_before = orphan_views(orphans@);
        match store.decrement_chunk_ref(chunk.id.as_str()) {
            Some(message_id) => {
                orphans.push((chunk.id.clone(), message_id));
                assert(orphan_views(orphans@) =~= views_before.push((chunk.id@, message_id)));
            },
            None => {},
        }
        i += 1;
    }
    assert(ids.take(i as int) =~= ids);
    orphans
}

/// Whether `name` is taken in the directory `parent`: the index leads from
/// it to a stored inode.
pub open spec fn name_taken(store: &MetadataStore, parent: u64, name: Seq<char>) -> bool {
    store.index().has((parent, name)) && store.inodes().contains_key(
        store.index().value_of((parent, name)),
    )
}

/// Create an inode of the given kind in a directory and list it there.
fn create_entry(store: &mut MetadataStore, parent: u64, name: &str, directory: bool, uid: u32, gid: u32, mode: u16) -> (r:
    Result<u64>)
    requires
        old(store).wf(),
        old(store).next() < u64::MAX,
    ensures
        final(store).wf(),
        final(store).chunk_rows() == old(store).chunk_rows(),
        final(store).sealed_values() == old(store).sealed_values(),
        r.is_ok() == (old(store).inodes().contains_key(parent) && old(store).inodes()[parent].attrs.kind == FileType::Directory && !name_taken(
            old(store),
            parent,
            name@,
        ) && !(directory && old(store).inodes()[parent].attrs.nlink == u32::MAX)),
        r matches Ok(ino) ==> {
            let child = final(store).inodes()[ino];
            let dir = final(store).inodes()[parent];
            &&& ino == old(store).next()
            &&& final(store).next() == ino + 1
            &&& final(store).inodes().dom() == old(store).inodes().dom().insert(ino).insert(parent)
            &&& forall|other: u64|
                other != ino && other != parent && old(store).inodes().contains_key(other)
                    ==> final(store).inodes()[other] == old(store).inodes()[other]
            &&& ino != parent ==> {
                &&& child.ino == ino
                &&& child.parent == parent
                &&& child.name@ == name@
                &&& child.attrs.kind == if directory {
                    FileType::Directory
                } else {
                    FileType::RegularFile
                }
                &&& child.attrs.uid == uid && child.attrs.gid == gid && child.attrs.perm == mode
                &&& child.attrs.size == 0 && child.manifest.is_none() && child.children@.len() == 0
                &&& dir.children@ == if old(store).inodes()[parent].children@.contains(ino) {
                    old(store).inodes()[parent].children@
                } else {
                    old(store).inodes()[parent].children@.push(ino)
                }
                &&& dir.attrs.nlink == if directory {
                    (old(store).inodes()[parent].attrs.nlink + 1) as u32
                } else {
                    old(store).inodes()[parent].attrs.nlink
                }
                &&& name_taken(final(store), parent, name@)
            }
        },
        r matches Err(e) ==> *final(store) == *old(store) && (if !old(store).inodes().contains_key(parent) {
            e matches Error::InodeNotFound(n) && n == parent
        } else if old(store).inodes()[parent].attrs.kind != FileType::Directory {
            e is NotADirectory
        } else if name_taken(old(store), parent, name@) {
            e is AlreadyExists
        } else {
            e is Internal
        }),
{
    let checked: Result<()> = match store.get_inode_required(parent) {
        Ok(parent_inode) => {
            if !parent_inode.is_dir() {
                Err(Error::NotADirectory(parent_inode.name.clone()))
            } else if directory && parent_inode.attrs.nlink == u32::MAX {
                if store.lookup(parent, name).is_some() {
                    Err(Error::AlreadyExists(name.to_string()))
                } else {
                    Err(Error::Internal("Link count overflow".to_string()))
                }
            } else {
                Ok(())
            }
        },
        Err(e) => Err(e),
    };
    match checked {
        Ok(()) => {},
        Err(e) => {
            return Err(e);
        },
    }
    if store.lookup(parent, name).is_some() {
        return Err(Error::AlreadyExists(name.to_string()));
    }
    proof {
        store.lemma_inode_key(parent);
    }
    let ghost before = store.inodes();
    let ino = store.alloc_ino();
    let child_name = String::from_str(name);
    let inode = if directory {
        Inode::new_directory(ino, parent, child_name, uid, gid, mode)
    } else {
        Inode::new_file(ino, parent, child_name, uid, gid, mode)
    };
    store.save_inode(inode);
    let ghost key = (parent, name@);
    let ghost index_between = store.index()@;
    assert(index_between.contains_key(key) && index_between[key] == ino);
    match store.take_inode(parent) {
        Some(parent_inode) => {
            let mut parent_inode = parent_inode;
            parent_inode.add_child(ino);
            if directory && ino != parent {
                parent_inode.attrs.nlink = parent_inode.attrs.nlink + 1;
            }
            store.save_inode(parent_inode);
        },
        None => {},
    }
    proof {
        assert(store.inodes().dom() =~= before.dom().insert(ino).insert(parent));
        assert(store.index()@.contains_key(key));
        let target = store.index()@[key];
        assert(target == ino || target == parent);
        assert(store.index().has(key) && store.index().value_of(key) == target);
    }
    Ok(ino)
}

/// Create a new file in a directory. The new file gets the next inode
/// number and is listed among its parent's children.
pub fn create_file(store: &mut MetadataStore, parent: u64, name: &str, uid: u32, gid: u32, mode: u16) -> (r:
    Result<u64>)
    requires
        old(store).wf(),
        old(store).next() < u64::MAX,
    ensures
        final(store).wf(),
        final(store).chunk_rows() == old(store).chunk_rows(),
        r.is_ok() == (old(store).inodes().contains_key(parent) && old(store).inodes()[parent].attrs.kind == FileType::Directory && !name_taken(
            old(store),
            parent,
            name@,
        )),
        r matches Ok(ino) ==> {
            &&& ino == old(store).next()
            &&& final(store).next() == ino + 1
            &&& final(store).inodes().contains_key(ino)
            &&& final(store).inodes().contains_key(parent)
            &&& ino != parent ==> {
                let child = final(store).inodes()[ino];
                &&& child.ino == ino && child.parent == parent && child.name@ == name@
                &&& child.attrs.kind == FileType::RegularFile
                &&& child.attrs.size == 0 && child.manifest.is_none()
                &&& final(store).inodes()[parent].children@.contains(ino)
                &&& name_taken(final(store), parent, name@)
            }
        },
        r matches Err(e) ==> *final(store) == *old(store) && (if !old(store).inodes().contains_key(parent) {
            e matches Error::InodeNotFound(n) && n == parent
        } else if old(store).inodes()[parent].attrs.kind != FileType::Directory {
            e is NotADirectory
        } else {
            e is AlreadyExists
        }),
{
    let r = create_entry(store, parent, name, false, uid, gid, mode);
    proof {
        if r.is_ok() {
            let ino = r.unwrap();
            if ino != parent {
                let listed = store.inodes()[parent].children@;
                let before = old(store).inodes()[parent].children@;
                if !before.contains(ino) {
                    assert(listed[before.len() as int] == ino);
                }
            }
        }
    }
    r
}

/// Create a new directory in a directory. The parent gains a link.
pub fn create_directory(store: &mut MetadataStore, parent: u64, name: &str, uid: u32, gid: u32, mode: u16) -> (r:
    Result<u64>)
    requires
        old(store).wf(),
        old(store).next() < u64::MAX,
    ensures
        final(store).wf(),
        final(store).chunk_rows() == old(store).chunk_rows(),
        r.is_ok() == (old(store).inodes().contains_key(parent) && old(store).inodes()[parent].attrs.kind == FileType::Directory && !name_taken(
            old(store),
            parent,
            name@,
        ) && old(store).inodes()[parent].attrs.nlink < u32::MAX),
        r matches Ok(ino) ==> {
            &&& ino == old(store).next()
            &&& final(store).next() == ino + 1
            &&& final(store).inodes().contains_key(ino)
            &&& final(store).inodes().contains_key(parent)
            &&& ino != parent ==> {
                let child = final(store).inodes()[ino];
                &&& child.ino == ino && child.parent == parent && child.name@ == name@
                &&& child.attrs.kind == FileType::Directory
                &&& child.children@.len() == 0
                &&& final(store).inodes()[parent].attrs.nlink == old(store).inodes()[parent].attrs.nlink + 1
                &&& name_taken(final(store), parent, name@)
            }
        },
        r matches Err(e) ==> *final(store) == *old(store),
{
    create_entry(store, parent, name, true, uid, gid, mode)
}

/// Replace the content of a file by nothing: an empty manifest of the next
/// version, size 0.
pub fn truncate(store: &mut MetadataStore, ino: u64) -> (r: Result<()>)
    requires
        old(store).wf(),
    ensures
        final(store).wf(),
        final(store).chunk_rows() == old(store).chunk_rows(),
        final(store).next() == old(store).next(),
        r.is_ok() == (old(store).inodes().contains_key(ino) && old(store).inodes()[ino].attrs.kind
            == FileType::RegularFile && old(store).inodes()[ino].version < u64::MAX),
        r.is_ok() ==> {
            let after = final(store).inodes()[ino];
            &&& final(store).inodes().dom() == old(store).inodes().dom()
            &&& after.manifest matches Some(manifest) && manifest.chunks@.len() == 0
                && manifest.total_size == 0 && manifest.version == old(store).inodes()[ino].version
                + 1
            &&& after.attrs.size == 0
            &&& after.version == old(store).inodes()[ino].version + 1
            &&& forall|other: u64|
                other != ino && old(store).inodes().contains_key(other) ==> final(store).inodes()[other] == old(store).inodes()[other]
        },
        r matches Err(e) ==> final(store).inodes() == old(store).inodes() && (if !old(store).inodes().contains_key(ino) {
            e matches Error::InodeNotFound(n) && n == ino
        } else if old(store).inodes()[ino].attrs.kind != FileType::RegularFile {
            e is NotAFile
        } else {
            e is Internal
        }),
{
    let checked: Result<u64> = match store.get_inode_required(ino) {
        Ok(inode) => {
            if !inode.is_file() {
                Err(Error::NotAFile(inode.name.clone()))
            } else if inode.version == u64::MAX {
                Err(Error::Internal("File version overflow".to_string()))
            } else {
                Ok(inode.version)
            }
        },
        Err(e) => Err(e),
    };
    let version = match checked {
        Ok(version) => version,
        Err(e) => {
            return Err(e);
        },
    };
    proof {
        store.lemma_inode_key(ino);
    }
    let ghost before = store.inodes();
    match store.take_inode(ino) {
        Some(inode) => {
            let mut inode = inode;
            inode.publish(ChunkManifest::new(version + 1));
            store.save_inode(inode);
            proof {
                assert(store.inodes().dom() =~= before.dom());
            }
            Ok(())
        },
        None => Err(Error::InodeNotFound(ino)),
    }
}

/// Remove a file or a symbolic link from a directory: its chunks are
/// released, the inode is deleted and taken off its parent's children. The
/// chunks that are orphaned come back with their handles, for their remote
/// objects to be deleted and their cache entries to be removed.
pub fn remove_file(store: &mut MetadataStore, parent: u64, name: &str) -> (r: Result<
    Vec<(String, i32)>,
>)
    requires
        old(store).wf(),
    ensures
        final(store).wf(),
        final(store).next() == old(store).next(),
        r.is_ok() == (old(store).inodes().contains_key(parent) && name_taken(
            old(store),
            parent,
            name@,
        ) && old(store).inodes()[old(store).index().value_of((parent, name@))].attrs.kind
            != FileType::Directory),
        r matches Ok(orphans) ==> {
            let ino = old(store).index().value_of((parent, name@));
            let removed = old(store).inodes()[ino];
            let ids = match removed.manifest {
                Some(manifest) => manifest_ids(manifest.chunks@),
                None => Seq::empty(),
            };
            &&& final(store).chunk_rows() == rows_after_release(old(store).chunk_rows(), ids)
            &&& orphan_views(orphans@) == orphaned_by_release(old(store).chunk_rows(), ids)
            &&& ino != parent ==> !final(store).inodes().contains_key(ino) && final(store).inodes().contains_key(parent) && final(store).inodes()[parent].children@
                == without_child(old(store).inodes()[parent].children@, ino)
            &&& ino != parent ==> final(store).inodes().dom() == old(store).inodes().dom().remove(
                ino,
            )
            &&& forall|other: u64|
                other != ino && other != parent && old(store).inodes().contains_key(other)
                    ==> #[trigger] final(store).inodes()[other] == old(store).inodes()[other]
        },
        r matches Err(e) ==> *final(store) == *old(store) && (if !old(store).inodes().contains_key(parent) {
            e matches Error::InodeNotFound(n) && n == parent
        } else if !name_taken(old(store), parent, name@) {
            e is PathNotFound
        } else {
            e is NotAFile
        }),
{
    if !store.has_inode(parent) {
        return Err(Error::InodeNotFound(parent));
    }
    let ghost target = store.index().value_of((parent, name@));
    let found: Option<u64> = match store.lookup(parent, name) {
        Some(inode) => {
            proof {
                store.lemma_inode_key(target);
            }
            if !inode.is_file() && !inode.is_symlink() {
                return Err(Error::NotAFile(name.to_string()));
            }
            Some(inode.ino)
        },
        None => None,
    };
    let ino = match found {
        Some(ino) => ino,
        None => {
            return Err(Error::PathNotFound(name.to_string()));
        },
    };
    proof {
        store.lemma_inode_key(ino);
        store.lemma_inode_key(parent);
    }
    let removed = store.take_inode(ino);
    let orphans = match &removed {
        Some(inode) => match &inode.manifest {
            Some(manifest) => release_chunks(store, manifest),
            None => Vec::new(),
        },
        None => Vec::new(),
    };
    proof {
        assert(removed.is_some());
        if removed.unwrap().manifest.is_none() {
            assert(orphan_views(orphans@) =~= Seq::<(Seq<char>, i32)>::empty());
        }
    }
    match removed {
        Some(inode) => {
            store.forget_name(inode.parent, inode.name.as_str());
        },
        None => {},
    }
    if ino != parent {
        match store.take_inode(parent) {
            Some(parent_inode) => {
                let mut parent_inode = parent_inode;
                parent_inode.remove_child(ino);
                store.save_inode(parent_inode);
            },
            None => {},
        }
    }
    Ok(orphans)
}

/// Remove an empty directory from a directory. The parent loses a link.
pub fn remove_directory(store: &mut MetadataStore, parent: u64, name: &str) -> (r: Result<()>)
    requires
        old(store).wf(),
    ensures
        final(store).wf(),
        final(store).next() == old(store).next(),
        final(store).chunk_rows() == old(store).chunk_rows(),
        r.is_ok() == (old(store).inodes().contains_key(parent) && name_taken(
            old(store),
            parent,
            name@,
        ) && old(store).inodes()[old(store).index().value_of((parent, name@))].attrs.kind
            == FileType::Directory && old(store).inodes()[old(store).index().value_of(
            (parent, name@),
        )].children@.len() == 0),
        r.is_ok() ==> {
            let ino = old(store).index().value_of((parent, name@));
            &&& ino != parent ==> !final(store).inodes().contains_key(ino) && final(store).inodes().contains_key(parent) && final(store).inodes()[parent].children@
                == without_child(old(store).inodes()[parent].children@, ino) && final(store).inodes()[parent].attrs.nlink == if old(store).inodes()[parent].attrs.nlink > 0 {
                (old(store).inodes()[parent].attrs.nlink - 1) as u32
            } else {
                0
            }
            &&& ino != parent ==> final(store).inodes().dom() == old(store).inodes().dom().remove(
                ino,
            )
            &&& forall|other: u64|
                other != ino && other != parent && old(store).inodes().contains_key(other)
                    ==> #[trigger] final(store).inodes()[other] == old(store).inodes()[other]
        },
        r matches Err(e) ==> *final(store) == *old(store) && (if !old(store).inodes().contains_key(parent) {
            e matches Error::InodeNotFound(n) && n == parent
        } else if !name_taken(old(store), parent, name@) {
            e is PathNotFound
        } else if old(store).inodes()[old(store).index().value_of((parent, name@))].attrs.kind
            != FileType::Directory {
            e is NotADirectory
        } else {
            e is DirectoryNotEmpty
        }),
{
    if !store.has_inode(parent) {
        return Err(Error::InodeNotFound(parent));
    }
    let ghost target = store.index().value_of((parent, name@));
    let found: Option<u64> = match store.lookup(parent, name) {
        Some(inode) => {
            proof {
                store.lemma_inode_key(target);
            }
            if !inode.is_dir() {
                return Err(Error::NotADirectory(name.to_string()));
            }
            if inode.children.len() != 0 {
                return Err(Error::DirectoryNotEmpty(name.to_string()));
            }
            Some(inode.ino)
        },
        None => None,
    };
    let ino = match found {
        Some(ino) => ino,
        None => {
            return Err(Error::PathNotFound(name.to_string()));
        },
    };
    proof {
        store.lemma_inode_key(ino);
        store.lemma_inode_key(parent);
    }
    store.delete_inode(ino);
    if ino != parent {
        match store.take_inode(parent) {
            Some(parent_inode) => {
                let mut parent_inode = parent_inode;
                parent_inode.remove_child(ino);
                if parent_inode.attrs.nlink > 0 {
                    parent_inode.attrs.nlink = parent_inode.attrs.nlink - 1;
                }
                store.save_inode(parent_inode);
            },
            None => {},
        }
    }
    Ok(())
}

} // verus!
