//! The binary form of chunk references and manifests.
//!
//! A manifest at rest is a format byte followed by the version, the total
//! size, the chunk references behind their number, and the file hash. A
//! chunk reference is its id, its encrypted size, its handle, its offset, its
//! original size and its compression flag. Bytes behind the last field are
//! refused.

use crate::bytes::{be32, be64};
use crate::chunk::{ChunkManifest, ChunkRef};
use crate::codec::{
    get_bool, get_text, get_u32, get_u64, lemma_parse_bool, lemma_parse_text, lemma_parse_u32, lemma_parse_u64,
    parse_bool, parse_text, parse_u32, parse_u64, put_bool, put_text, put_u32, put_u64, ser_bool, ser_text,
};
use crate::error::{Error, Result};
use vstd::prelude::*;
use vstd::utf8::encode_utf8;

verus! {

/// Format byte of a manifest at rest.
pub const MANIFEST_FORMAT: u8 = 1;

/// What a chunk reference says.
pub struct ChunkRefView {
    pub id: Seq<char>,
    pub size: u64,
    pub message_id: i32,
    pub offset: u64,
    pub original_size: u64,
    pub compressed: bool,
}

/// What a manifest says.
pub struct ChunkManifestView {
    pub version: u64,
    pub total_size: u64,
    pub chunks: Seq<ChunkRefView>,
    pub file_hash: Seq<char>,
}

impl View for ChunkRef {
    type V = ChunkRefView;

    open spec fn view(&self) -> ChunkRefView {
        ChunkRefView {
            id: self.id@,
            size: self.size,
            message_id: self.message_id,
            offset: self.offset,
            original_size: self.original_size,
            compressed: self.compressed,
        }
    }
}

/// What the chunk references say.
pub open spec fn ref_views(chunks: Seq<ChunkRef>) -> Seq<ChunkRefView> {
    Seq::new(chunks.len(), |i: int| chunks[i]@)
}

impl View for ChunkManifest {
    type V = ChunkManifestView;

    open spec fn view(&self) -> ChunkManifestView {
        ChunkManifestView {
            version: self.version,
            total_size: self.total_size,
            chunks: ref_views(self.chunks@),
            file_hash: self.file_hash@,
        }
    }
}

/// The binary form of a chunk reference.
#[verifier::opaque]
pub open spec fn ser_chunk_ref(c: ChunkRefView) -> Seq<u8> {
    ser_text(c.id) + be64(c.size) + be32(c.message_id as u32) + be64(c.offset) + be64(
        c.original_size,
    ) + ser_bool(c.compressed)
}

/// The chunk reference at `pos`.
#[verifier::opaque]
pub open spec fn parse_chunk_ref(b: Seq<u8>, pos: int) -> Option<(ChunkRefView, int)> {
    match parse_text(b, pos) {
        Some((id, at1)) => match parse_u64(b, at1) {
            Some((size, at2)) => match parse_u32(b, at2) {
                Some((handle, at3)) => match parse_u64(b, at3) {
                    Some((offset, at4)) => match parse_u64(b, at4) {
                        Some((original_size, at5)) => match parse_bool(b, at5) {
                            Some((compressed, at6)) => Some(
                                (
                                    ChunkRefView {
                                        id,
                                        size,
                                        message_id: handle as i32,
                                        offset,
                                        original_size,
                                        compressed,
                                    },
                                    at6,
                                ),
                            ),
                            None => None,
                        },
                        None => None,
                    },
                    None => None,
                },
                None => None,
            },
            None => None,
        },
        None => None,
    }
}

/// The binary form of chunk references, one after the other.
pub open spec fn ser_chunk_refs(chunks: Seq<ChunkRefView>) -> Seq<u8>
    decreases chunks.len(),
{
    if chunks.len() == 0 {
        Seq::empty()
    } else {
        ser_chunk_refs(chunks.drop_last()) + ser_chunk_ref(chunks.last())
    }
}

/// The `n` chunk references from `pos` on.
pub open spec fn parse_chunk_refs(b: Seq<u8>, pos: int, n: nat) -> Option<(Seq<ChunkRefView>, int)>
    decreases n,
{
    if n == 0 {
        Some((Seq::empty(), pos))
    } else {
        match parse_chunk_refs(b, pos, (n - 1) as nat) {
            Some((earlier, mid)) => match parse_chunk_ref(b, mid) {
                Some((chunk, end)) => Some((earlier.push(chunk), end)),
                None => None,
            },
            None => None,
        }
    }
}

/// The binary form of a manifest, without the format byte.
#[verifier::opaque]
pub open spec fn ser_manifest(m: ChunkManifestView) -> Seq<u8> {
    be64(m.version) + be64(m.total_size) + be64(m.chunks.len() as u64) + ser_chunk_refs(m.chunks)
        + ser_text(m.file_hash)
}

/// The manifest at `pos`.
#[verifier::opaque]
pub open spec fn parse_manifest(b: Seq<u8>, pos: int) -> Option<(ChunkManifestView, int)> {
    match parse_u64(b, pos) {
        Some((version, at1)) => match parse_u64(b, at1) {
            Some((total_size, at2)) => match parse_u64(b, at2) {
                Some((count, at3)) => match parse_chunk_refs(b, at3, count as nat) {
                    Some((chunks, at4)) => match parse_text(b, at4) {
                        Some((file_hash, at5)) => Some(
                            (ChunkManifestView { version, total_size, chunks, file_hash }, at5),
                        ),
                        None => None,
                    },
                    None => None,
                },
                None => None,
            },
            None => None,
        },
        None => None,
    }
}

/// The manifest that bytes at rest hold: behind the format byte, up to the
/// last byte.
pub open spec fn decoded_manifest(b: Seq<u8>) -> Option<ChunkManifestView> {
    if b.len() == 0 || b[0] != MANIFEST_FORMAT {
        None
    } else {
        match parse_manifest(b, 1) {
            Some((m, end)) => if end == b.len() {
                Some(m)
            } else {
                None
            },
            None => None,
        }
    }
}

/// The texts of a chunk reference can be written: their encodings have
/// lengths of 64 bits.
pub open spec fn writable_ref(c: ChunkRefView) -> bool {
    encode_utf8(c.id).len() <= u64::MAX
}

/// The texts and the list of a manifest can be written.
pub open spec fn writable(m: ChunkManifestView) -> bool {
    &&& m.chunks.len() <= u64::MAX
    &&& encode_utf8(m.file_hash).len() <= u64::MAX
    &&& forall|i: int| 0 <= i < m.chunks.len() ==> writable_ref(#[trigger] m.chunks[i])
}

/// A chunk reference that was written is read back.
pub proof fn lemma_parse_chunk_ref(before: Seq<u8>, c: ChunkRefView, after: Seq<u8>)
    requires
        writable_ref(c),
    ensures
        parse_chunk_ref(before + ser_chunk_ref(c) + after, before.len() as int) == Some(
            (c, before.len() as int + ser_chunk_ref(c).len()),
        ),
{
    reveal(ser_chunk_ref);
    reveal(parse_chunk_ref);
    let f1 = ser_text(c.id);
    let f2 = be64(c.size);
    let f3 = be32(c.message_id as u32);
    let f4 = be64(c.offset);
    let f5 = be64(c.original_size);
    let f6 = ser_bool(c.compressed);
    let b = before + ser_chunk_ref(c) + after;
    assert(b =~= before + f1 + (f2 + f3 + f4 + f5 + f6 + after));
    lemma_parse_text(before, c.id, f2 + f3 + f4 + f5 + f6 + after);
    assert(b =~= (before + f1) + f2 + (f3 + f4 + f5 + f6 + after));
    lemma_parse_u64(before + f1, c.size, f3 + f4 + f5 + f6 + after);
    assert(b =~= (before + f1 + f2) + f3 + (f4 + f5 + f6 + after));
    lemma_parse_u32(before + f1 + f2, c.message_id as u32, f4 + f5 + f6 + after);
    assert(b =~= (before + f1 + f2 + f3) + f4 + (f5 + f6 + after));
    lemma_parse_u64(before + f1 + f2 + f3, c.offset, f5 + f6 + after);
    assert(b =~= (before + f1 + f2 + f3 + f4) + f5 + (f6 + after));
    lemma_parse_u64(before + f1 + f2 + f3 + f4, c.original_size, f6 + after);
    assert(b =~= (before + f1 + f2 + f3 + f4 + f5) + f6 + after);
    lemma_parse_bool(before + f1 + f2 + f3 + f4 + f5, c.compressed, after);
    let handle = c.message_id as u32;
    let id = c.message_id;
    assert(handle as i32 == id) by (bit_vector)
        requires
            handle == id as u32,
    ;
}

/// Chunk references that were written are read back.
pub proof fn lemma_parse_chunk_refs(before: Seq<u8>, chunks: Seq<ChunkRefView>, after: Seq<u8>)
    requires
        forall|i: int| 0 <= i < chunks.len() ==> writable_ref(#[trigger] chunks[i]),
    ensures
        parse_chunk_refs(before + ser_chunk_refs(chunks) + after, before.len() as int, chunks.len())
            == Some((chunks, before.len() as int + ser_chunk_refs(chunks).len())),
    decreases chunks.len(),
{
    let b = before + ser_chunk_refs(chunks) + after;
    if chunks.len() == 0 {
        assert(chunks =~= Seq::<ChunkRefView>::empty());
    } else {
        let front = chunks.drop_last();
        let last = chunks.last();
        assert(b =~= before + ser_chunk_refs(front) + (ser_chunk_ref(last) + after));
        lemma_parse_chunk_refs(before, front, ser_chunk_ref(last) + after);
        assert(b =~= (before + ser_chunk_refs(front)) + ser_chunk_ref(last) + after);
        lemma_parse_chunk_ref(before + ser_chunk_refs(front), last, after);
        assert(front.push(last) =~= chunks);
    }
}

/// Where the first references cannot be read, more cannot be read either.
pub proof fn lemma_parse_chunk_refs_fails(b: Seq<u8>, pos: int, k: nat, n: nat)
    requires
        k <= n,
        parse_chunk_refs(b, pos, k).is_none(),
    ensures
        parse_chunk_refs(b, pos, n).is_none(),
    decreases n,
{
    if k < n {
        lemma_parse_chunk_refs_fails(b, pos, k, (n - 1) as nat);
    }
}

/// A manifest that was written is read back.
pub proof fn lemma_parse_manifest(before: Seq<u8>, m: ChunkManifestView, after: Seq<u8>)
    requires
        writable(m),
    ensures
        parse_manifest(before + ser_manifest(m) + after, before.len() as int) == Some(
            (m, before.len() as int + ser_manifest(m).len()),
        ),
{
    reveal(ser_manifest);
    reveal(parse_manifest);
    let f1 = be64(m.version);
    let f2 = be64(m.total_size);
    let f3 = be64(m.chunks.len() as u64);
    let f4 = ser_chunk_refs(m.chunks);
    let f5 = ser_text(m.file_hash);
    let b = before + ser_manifest(m) + after;
    assert(b =~= before + f1 + (f2 + f3 + f4 + f5 + after));
    lemma_parse_u64(before, m.version, f2 + f3 + f4 + f5 + after);
    assert(b =~= (before + f1) + f2 + (f3 + f4 + f5 + after));
    lemma_parse_u64(before + f1, m.total_size, f3 + f4 + f5 + after);
    assert(b =~= (before + f1 + f2) + f3 + (f4 + f5 + after));
    lemma_parse_u64(before + f1 + f2, m.chunks.len() as u64, f4 + f5 + after);
    assert(b =~= (before + f1 + f2 + f3) + f4 + (f5 + after));
    lemma_parse_chunk_refs(before + f1 + f2 + f3, m.chunks, f5 + after);
    assert(b =~= (before + f1 + f2 + f3 + f4) + f5 + after);
    lemma_parse_text(before + f1 + f2 + f3 + f4, m.file_hash, after);
}

/// Write a chunk reference.
pub fn put_chunk_ref(out: &mut Vec<u8>, chunk: &ChunkRef)
    ensures
        final(out)@ == old(out)@ + ser_chunk_ref(chunk@),
        writable_ref(chunk@),
{
    reveal(ser_chunk_ref);
    put_text(out, chunk.id.as_str());
    put_u64(out, chunk.size);
    put_u32(out, chunk.message_id as u32);
    put_u64(out, chunk.offset);
    put_u64(out, chunk.original_size);
    put_bool(out, chunk.compressed);
    assert(out@ =~= old(out)@ + ser_chunk_ref(chunk@));
}

/// Read a chunk reference.
pub fn get_chunk_ref(b: &[u8], pos: usize) -> (r: Option<(ChunkRef, usize)>)
    ensures
        match r {
            Some((chunk, end)) => parse_chunk_ref(b@, pos as int) == Some((chunk@, end as int)),
            None => parse_chunk_ref(b@, pos as int).is_none(),
        },
{
    reveal(parse_chunk_ref);
    let (id, at1) = match get_text(b, pos) {
        Some(x) => x,
        None => {
            return None;
        },
    };
    let (size, at2) = match get_u64(b, at1) {
        Some(x) => x,
        None => {
            return None;
        },
    };
    let (handle, at3) = match get_u32(b, at2) {
        Some(x) => x,
        None => {
            return None;
        },
    };
    let (offset, at4) = match get_u64(b, at3) {
        Some(x) => x,
        None => {
            return None;
        },
    };
    let (original_size, at5) = match get_u64(b, at4) {
        Some(x) => x,
        None => {
            return None;
        },
    };
    let (compressed, at6) = match get_bool(b, at5) {
        Some(x) => x,
        None => {
            return None;
        },
    };
    Some((ChunkRef { id, size, message_id: handle as i32, offset, original_size, compressed }, at6))
}

/// Write a manifest, without the format byte.
pub fn put_manifest(out: &mut Vec<u8>, manifest: &ChunkManifest)
    ensures
        final(out)@ == old(out)@ + ser_manifest(manifest@),
        writable(manifest@),
{
    reveal(ser_manifest);
    put_u64(out, manifest.version);
    put_u64(out, manifest.total_size);
    put_u64(out, manifest.chunks.len() as u64);
    let ghost start = out@;
    let ghost views = ref_views(manifest.chunks@);
    let mut i: usize = 0;
    assert(views.take(0) =~= Seq::<ChunkRefView>::empty());
    while i < manifest.chunks.len()
        invariant
            i <= manifest.chunks@.len(),
            views == ref_views(manifest.chunks@),
            out@ == start + ser_chunk_refs(views.take(i as int)),
            forall|j: int| 0 <= j < i ==> writable_ref(#[trigger] views[j]),
        decreases manifest.chunks@.len() - i,
    {
        proof {
            assert(views.take(i + 1).drop_last() =~= views.take(i as int));
            assert(views.take(i + 1).last() == manifest.chunks@[i as int]@);
        }
        put_chunk_ref(out, &manifest.chunks[i]);
        assert(out@ =~= start + ser_chunk_refs(views.take(i + 1)));
        i += 1;
    }
    assert(views.take(i as int) =~= views);
    put_text(out, manifest.file_hash.as_str());
    assert(out@ =~= old(out)@ + ser_manifest(manifest@));
}

/// Read a manifest.
pub fn get_manifest(b: &[u8], pos: usize) -> (r: Option<(ChunkManifest, usize)>)
    ensures
        match r {
            Some((manifest, end)) => parse_manifest(b@, pos as int) == Some(
                (manifest@, end as int),
            ),
            None => parse_manifest(b@, pos as int).is_none(),
        },
{
    reveal(parse_manifest);
    let (version, at1) = match get_u64(b, pos) {
        Some(x) => x,
        None => {
            return None;
        },
    };
    let (total_size, at2) = match get_u64(b, at1) {
        Some(x) => x,
        None => {
            return None;
        },
    };
    let (count, at3) = match get_u64(b, at2) {
        Some(x) => x,
        None => {
            return None;
        },
    };
    let mut chunks: Vec<ChunkRef> = Vec::new();
    let mut cursor: usize = at3;
    let mut i: u64 = 0;
    assert(ref_views(chunks@) =~= Seq::<ChunkRefView>::empty());
    while i < count
        invariant
            i <= count,
            chunks@.len() == i,
            parse_u64(b@, pos as int) == Some((version, at1 as int)),
            parse_u64(b@, at1 as int) == Some((total_size, at2 as int)),
            parse_u64(b@, at2 as int) == Some((count, at3 as int)),
            parse_chunk_refs(b@, at3 as int, i as nat) == Some((ref_views(chunks@), cursor as int)),
        decreases count - i,
    {
        let ghost earlier = ref_views(chunks@);
        match get_chunk_ref(b, cursor) {
            Some((chunk, end)) => {
                chunks.push(chunk);
                cursor = end;
                assert(ref_views(chunks@) =~= earlier.push(chunk@));
            },
            None => {
                proof {
                    reveal(parse_manifest);
                    assert(parse_chunk_refs(b@, at3 as int, (i + 1) as nat).is_none());
                    lemma_parse_chunk_refs_fails(b@, at3 as int, (i + 1) as nat, count as nat);
                }
                return None;
            },
        }
        i += 1;
    }
    let (file_hash, at5) = match get_text(b, cursor) {
        Some(x) => x,
        None => {
            return None;
        },
    };
    Some((ChunkManifest { version, total_size, chunks, file_hash }, at5))
}

/// The binary form of a manifest at rest. Decoding it gives the manifest.
pub fn encode_manifest(manifest: &ChunkManifest) -> (r: Vec<u8>)
    ensures
        r@ == seq![MANIFEST_FORMAT] + ser_manifest(manifest@),
        decoded_manifest(r@) == Some(manifest@),
{
    let mut out: Vec<u8> = Vec::new();
    out.push(MANIFEST_FORMAT);
    put_manifest(&mut out, manifest);
    proof {
        let m = manifest@;
        assert(out@ =~= seq![MANIFEST_FORMAT] + ser_manifest(m) + Seq::<u8>::empty());
        lemma_parse_manifest(seq![MANIFEST_FORMAT], m, Seq::<u8>::empty());
    }
    out
}

/// Decode a manifest at rest. Another format byte, fields that are cut
/// short or malformed, and bytes behind the last field are refused.
pub fn decode_manifest(b: &[u8]) -> (r: Result<ChunkManifest>)
    ensures
        match decoded_manifest(b@) {
            Some(m) => r matches Ok(manifest) && manifest@ == m,
            None => r matches Err(e) && e is Deserialization,
        },
{
    if b.len() == 0 || b[0] != MANIFEST_FORMAT {
        return Err(Error::Deserialization("Unknown manifest format".to_string()));
    }
    match get_manifest(b, 1) {
        Some((manifest, end)) => {
            if end != b.len() {
                return Err(Error::Deserialization("Trailing bytes behind manifest".to_string()));
            }
            Ok(manifest)
        },
        None => Err(Error::Deserialization("Malformed manifest".to_string())),
    }
}

} // verus!
