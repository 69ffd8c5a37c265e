//! The binary form of stripes and of the manifests of erasure-coded files.
//!
//! A block location is its account, its optional handle, its index and its
//! optional upload time. A stripe is its two counts, its block size and its
//! blocks behind their number. An erasure chunk reference is its id, its
//! offset, its original size, its compression flag, its stripe and its
//! version. A manifest at rest is a format byte followed by the version, the
//! total size, the references behind their number, the file hash and the
//! two counts of the code. Bytes behind the last field are refused.

use crate::bytes::{be32, be64};
use crate::chunk::{BlockLocation, ErasureChunkManifest, ErasureChunkRef, StripeInfo};
use crate::codec::{
    get_bool, get_text, get_u32, get_u64, get_u8, lemma_parse_bool, lemma_parse_text, lemma_parse_u32,
    lemma_parse_u64, lemma_parse_u8, parse_bool, parse_text, parse_u32, parse_u64, parse_u8, put_bool, put_text,
    put_u32, put_u64, put_u8, ser_bool, ser_text, ser_u8,
};
use crate::error::{Error, Result};
use vstd::prelude::*;
use vstd::utf8::encode_utf8;

verus! {

/// The binary form of an optional handle.
pub open spec fn ser_opt_handle(handle: Option<i32>) -> Seq<u8> {
    match handle {
        Some(x) => ser_bool(true) + be32(x as u32),
        None => ser_bool(false),
    }
}

/// The optional handle at `pos`.
#[verifier::opaque]
pub open spec fn parse_opt_handle(b: Seq<u8>, pos: int) -> Option<(Option<i32>, int)> {
    match parse_bool(b, pos) {
        Some((present, at1)) => if present {
            match parse_u32(b, at1) {
                Some((x, at2)) => Some((Some(x as i32), at2)),
                None => None,
            }
        } else {
            Some((None, at1))
        },
        None => None,
    }
}

/// The binary form of an optional time.
pub open spec fn ser_opt_time(time: Option<i64>) -> Seq<u8> {
    match time {
        Some(x) => ser_bool(true) + be64(x as u64),
        None => ser_bool(false),
    }
}

/// The optional time at `pos`.
#[verifier::opaque]
pub open spec fn parse_opt_time(b: Seq<u8>, pos: int) -> Option<(Option<i64>, int)> {
    match parse_bool(b, pos) {
        Some((present, at1)) => if present {
            match parse_u64(b, at1) {
                Some((x, at2)) => Some((Some(x as i64), at2)),
                None => None,
            }
        } else {
            Some((None, at1))
        },
        None => None,
    }
}

/// The binary form of a block location.
#[verifier::opaque]
pub open spec fn ser_block(block: BlockLocation) -> Seq<u8> {
    ser_u8(block.account_id) + ser_opt_handle(block.message_id) + ser_u8(block.block_index)
        + ser_opt_time(block.uploaded_at)
}

/// The block location at `pos`.
#[verifier::opaque]
pub open spec fn parse_block(b: Seq<u8>, pos: int) -> Option<(BlockLocation, int)> {
    match parse_u8(b, pos) {
        Some((account_id, at1)) => match parse_opt_handle(b, at1) {
            Some((message_id, at2)) => match parse_u8(b, at2) {
                Some((block_index, at3)) => match parse_opt_time(b, at3) {
                    Some((uploaded_at, at4)) => Some(
                        (BlockLocation { account_id, message_id, block_index, uploaded_at }, at4),
                    ),
                    None => None,
                },
                None => None,
            },
            None => None,
        },
        None => None,
    }
}

/// The binary form of block locations, one after the other.
pub open spec fn ser_blocks(blocks: Seq<BlockLocation>) -> Seq<u8>
    decreases blocks.len(),
{
    if blocks.len() == 0 {
        Seq::empty()
    } else {
        ser_blocks(blocks.drop_last()) + ser_block(blocks.last())
    }
}

/// The `n` block locations from `pos` on.
pub open spec fn parse_blocks(b: Seq<u8>, pos: int, n: nat) -> Option<(Seq<BlockLocation>, int)>
    decreases n,
{
    if n == 0 {
        Some((Seq::empty(), pos))
    } else {
        match parse_blocks(b, pos, (n - 1) as nat) {
            Some((earlier, mid)) => match parse_block(b, mid) {
                Some((block, end)) => Some((earlier.push(block), end)),
                None => None,
            },
            None => None,
        }
    }
}

/// An optional handle that was written is read back.
pub proof fn lemma_parse_opt_handle(before: Seq<u8>, handle: Option<i32>, after: Seq<u8>)
    ensures
        parse_opt_handle(before + ser_opt_handle(handle) + after, before.len() as int) == Some(
            (handle, before.len() as int + ser_opt_handle(handle).len()),
        ),
{
    reveal(parse_opt_handle);
    let b = before + ser_opt_handle(handle) + after;
    match handle {
        Some(x) => {
            let word = x as u32;
            assert(b =~= before + ser_bool(true) + (be32(word) + after));
            lemma_parse_bool(before, true, be32(word) + after);
            assert(b =~= (before + ser_bool(true)) + be32(word) + after);
            lemma_parse_u32(before + ser_bool(true), word, after);
            assert(word as i32 == x) by (bit_vector)
                requires
                    word == x as u32,
            ;
        },
        None => {
            lemma_parse_bool(before, false, after);
        },
    }
}

/// An optional time that was written is read back.
pub proof fn lemma_parse_opt_time(before: Seq<u8>, time: Option<i64>, after: Seq<u8>)
    ensures
        parse_opt_time(before + ser_opt_time(time) + after, before.len() as int) == Some(
            (time, before.len() as int + ser_opt_time(time).len()),
        ),
{
    reveal(parse_opt_time);
    let b = before + ser_opt_time(time) + after;
    match time {
        Some(x) => {
            let word = x as u64;
            assert(b =~= before + ser_bool(true) + (be64(word) + after));
            lemma_parse_bool(before, true, be64(word) + after);
            assert(b =~= (before + ser_bool(true)) + be64(word) + after);
            lemma_parse_u64(before + ser_bool(true), word, after);
            assert(word as i64 == x) by (bit_vector)
                requires
                    word == x as u64,
            ;
        },
        None => {
            lemma_parse_bool(before, false, after);
        },
    }
}

/// A block location that was written is read back.
pub proof fn lemma_parse_block(before: Seq<u8>, block: BlockLocation, after: Seq<u8>)
    ensures
        parse_block(before + ser_block(block) + after, before.len() as int) == Some(
            (block, before.len() as int + ser_block(block).len()),
        ),
{
    reveal(ser_block);
    reveal(parse_block);
    let f1 = ser_u8(block.account_id);
    let f2 = ser_opt_handle(block.message_id);
    let f3 = ser_u8(block.block_index);
    let f4 = ser_opt_time(block.uploaded_at);
    let b = before + ser_block(block) + after;
    assert(b =~= before + f1 + (f2 + f3 + f4 + after));
    lemma_parse_u8(before, block.account_id, f2 + f3 + f4 + after);
    assert(b =~= (before + f1) + f2 + (f3 + f4 + after));
    lemma_parse_opt_handle(before + f1, block.message_id, f3 + f4 + after);
    assert(b =~= (before + f1 + f2) + f3 + (f4 + after));
    lemma_parse_u8(before + f1 + f2, block.block_index, f4 + after);
    assert(b =~= (before + f1 + f2 + f3) + f4 + after);
    lemma_parse_opt_time(before + f1 + f2 + f3, block.uploaded_at, after);
}

/// Block locations that were written are read back.
pub proof fn lemma_parse_blocks(before: Seq<u8>, blocks: Seq<BlockLocation>, after: Seq<u8>)
    ensures
        parse_blocks(before + ser_blocks(blocks) + after, before.len() as int, blocks.len()) == Some(
            (blocks, before.len() as int + ser_blocks(blocks).len()),
        ),
    decreases blocks.len(),
{
    let b = before + ser_blocks(blocks) + after;
    if blocks.len() == 0 {
        assert(blocks =~= Seq::<BlockLocation>::empty());
    } else {
        let front = blocks.drop_last();
        let last = blocks.last();
        assert(b =~= before + ser_blocks(front) + (ser_block(last) + after));
        lemma_parse_blocks(before, front, ser_block(last) + after);
        assert(b =~= (before + ser_blocks(front)) + ser_block(last) + after);
        lemma_parse_block(before + ser_blocks(front), last, after);
        assert(front.push(last) =~= blocks);
    }
}

/// Where the first block locations cannot be read, more cannot be read
/// either.
pub proof fn lemma_parse_blocks_fails(b: Seq<u8>, pos: int, k: nat, n: nat)
    requires
        k <= n,
        parse_blocks(b, pos, k).is_none(),
    ensures
        parse_blocks(b, pos, n).is_none(),
    decreases n,
{
    if k < n {
        lemma_parse_blocks_fails(b, pos, k, (n - 1) as nat);
    }
}

/// Write a block location.
pub fn put_block(out: &mut Vec<u8>, block: &BlockLocation)
    ensures
        final(out)@ == old(out)@ + ser_block(*block),
{
    reveal(ser_block);
    put_u8(out, block.account_id);
    match block.message_id {
        Some(handle) => {
            put_bool(out, true);
            put_u32(out, handle as u32);
        },
        None => {
            put_bool(out, false);
        },
    }
    put_u8(out, block.block_index);
    match block.uploaded_at {
        Some(time) => {
            put_bool(out, true);
            put_u64(out, time as u64);
        },
        None => {
            put_bool(out, false);
        },
    }
    assert(out@ =~= old(out)@ + ser_block(*block));
}

/// Read a block location.
pub fn get_block(b: &[u8], pos: usize) -> (r: Option<(BlockLocation, usize)>)
    ensures
        match r {
            Some((block, end)) => parse_block(b@, pos as int) == Some((block, end as int)),
            None => parse_block(b@, pos as int).is_none(),
        },
{
    reveal(parse_block);
    reveal(parse_opt_handle);
    reveal(parse_opt_time);
    let (account_id, at1) = match get_u8(b, pos) {
        Some(x) => x,
        None => {
            return None;
        },
    };
    let (has_handle, at1b) = match get_bool(b, at1) {
        Some(x) => x,
        None => {
            return None;
        },
    };
    let (message_id, at2) = if has_handle {
        match get_u32(b, at1b) {
            Some((x, end)) => (Some(x as i32), end),
            None => {
                return None;
            },
        }
    } else {
        (None, at1b)
    };
    let (block_index, at3) = match get_u8(b, at2) {
        Some(x) => x,
        None => {
            return None;
        },
    };
    let (has_time, at3b) = match get_bool(b, at3) {
        Some(x) => x,
        None => {
            return None;
        },
    };
    let (uploaded_at, at4) = if has_time {
        match get_u64(b, at3b) {
            Some((x, end)) => (Some(x as i64), end),
            None => {
                return None;
            },
        }
    } else {
        (None, at3b)
    };
    Some((BlockLocation { account_id, message_id, block_index, uploaded_at }, at4))
}

/// What a stripe says.
pub struct StripeInfoView {
    pub blocks: Seq<BlockLocation>,
    pub data_count: u8,
    pub parity_count: u8,
    pub block_size: u64,
}

impl View for StripeInfo {
    type V = StripeInfoView;

    open spec fn view(&self) -> StripeInfoView {
        StripeInfoView {
            blocks: self.blocks@,
            data_count: self.data_count,
            parity_count: self.parity_count,
            block_size: self.block_size,
        }
    }
}

/// The binary form of a stripe.
#[verifier::opaque]
pub open spec fn ser_stripe(s: StripeInfoView) -> Seq<u8> {
    ser_u8(s.data_count) + ser_u8(s.parity_count) + be64(s.block_size) + be64(s.blocks.len() as u64)
        + ser_blocks(s.blocks)
}

/// The stripe at `pos`.
#[verifier::opaque]
pub open spec fn parse_stripe(b: Seq<u8>, pos: int) -> Option<(StripeInfoView, int)> {
    match parse_u8(b, pos) {
        Some((data_count, at1)) => match parse_u8(b, at1) {
            Some((parity_count, at2)) => match parse_u64(b, at2) {
                Some((block_size, at3)) => match parse_u64(b, at3) {
                    Some((count, at4)) => match parse_blocks(b, at4, count as nat) {
                        Some((blocks, at5)) => Some(
                            (StripeInfoView { blocks, data_count, parity_count, block_size }, at5),
                        ),
                        None => None,
                    },
                    None => None,
                },
                None => None,
            },
            None => None,
        },
        None => None,
    }
}

/// The stripe that bytes at rest hold, up to the last byte.
pub open spec fn decoded_stripe(b: Seq<u8>) -> Option<StripeInfoView> {
    match parse_stripe(b, 0) {
        Some((stripe, end)) => if end == b.len() {
            Some(stripe)
        } else {
            None
        },
        None => None,
    }
}

/// A stripe that was written is read back.
pub proof fn lemma_parse_stripe(before: Seq<u8>, s: StripeInfoView, after: Seq<u8>)
    requires
        s.blocks.len() <= u64::MAX,
    ensures
        parse_stripe(before + ser_stripe(s) + after, before.len() as int) == Some(
            (s, before.len() as int + ser_stripe(s).len()),
        ),
{
    reveal(ser_stripe);
    reveal(parse_stripe);
    let f1 = ser_u8(s.data_count);
    let f2 = ser_u8(s.parity_count);
    let f3 = be64(s.block_size);
    let f4 = be64(s.blocks.len() as u64);
    let f5 = ser_blocks(s.blocks);
    let b = before + ser_stripe(s) + after;
    assert(b =~= before + f1 + (f2 + f3 + f4 + f5 + after));
    lemma_parse_u8(before, s.data_count, f2 + f3 + f4 + f5 + after);
    assert(b =~= (before + f1) + f2 + (f3 + f4 + f5 + after));
    lemma_parse_u8(before + f1, s.parity_count, f3 + f4 + f5 + after);
    assert(b =~= (before + f1 + f2) + f3 + (f4 + f5 + after));
    lemma_parse_u64(before + f1 + f2, s.block_size, f4 + f5 + after);
    assert(b =~= (before + f1 + f2 + f3) + f4 + (f5 + after));
    lemma_parse_u64(before + f1 + f2 + f3, s.blocks.len() as u64, f5 + after);
    assert(b =~= (before + f1 + f2 + f3 + f4) + f5 + after);
    lemma_parse_blocks(before + f1 + f2 + f3 + f4, s.blocks, after);
}

/// Write a stripe.
pub fn put_stripe(out: &mut Vec<u8>, stripe: &StripeInfo)
    ensures
        final(out)@ == old(out)@ + ser_stripe(stripe@),
        stripe@.blocks.len() <= u64::MAX,
{
    reveal(ser_stripe);
    put_u8(out, stripe.data_count);
    put_u8(out, stripe.parity_count);
    put_u64(out, stripe.block_size);
    put_u64(out, stripe.blocks.len() as u64);
    let ghost start = out@;
    let mut i: usize = 0;
    assert(stripe.blocks@.take(0) =~= Seq::<BlockLocation>::empty());
    while i < stripe.blocks.len()
        invariant
            i <= stripe.blocks@.len(),
            out@ == start + ser_blocks(stripe.blocks@.take(i as int)),
        decreases stripe.blocks@.len() - i,
    {
        proof {
            assert(stripe.blocks@.take(i + 1).drop_last() =~= stripe.blocks@.take(i as int));
            assert(stripe.blocks@.take(i + 1).last() == stripe.blocks@[i as int]);
        }
        put_block(out, &stripe.blocks[i]);
        assert(out@ =~= start + ser_blocks(stripe.blocks@.take(i + 1)));
        i += 1;
    }
    assert(stripe.blocks@.take(i as int) =~= stripe.blocks@);
    assert(out@ =~= old(out)@ + ser_stripe(stripe@));
}

/// Read a stripe.
pub fn get_stripe(b: &[u8], pos: usize) -> (r: Option<(StripeInfo, usize)>)
    ensures
        match r {
            Some((stripe, end)) => parse_stripe(b@, pos as int) == Some((stripe@, end as int)),
            None => parse_stripe(b@, pos as int).is_none(),
        },
{
    reveal(parse_stripe);
    let (data_count, at1) = match get_u8(b, pos) {
        Some(x) => x,
        None => {
            return None;
        },
    };
    let (parity_count, at2) = match get_u8(b, at1) {
        Some(x) => x,
        None => {
            return None;
        },
    };
    let (block_size, at3) = match get_u64(b, at2) {
        Some(x) => x,
        None => {
            return None;
        },
    };
    let (count, at4) = match get_u64(b, at3) {
        Some(x) => x,
        None => {
            return None;
        },
    };
    let mut blocks: Vec<BlockLocation> = Vec::new();
    let mut cursor: usize = at4;
    let mut i: u64 = 0;
    while i < count
        invariant
            i <= count,
            blocks@.len() == i,
            parse_u8(b@, pos as int) == Some((data_count, at1 as int)),
            parse_u8(b@, at1 as int) == Some((parity_count, at2 as int)),
            parse_u64(b@, at2 as int) == Some((block_size, at3 as int)),
            parse_u64(b@, at3 as int) == Some((count, at4 as int)),
            parse_blocks(b@, at4 as int, i as nat) == Some((blocks@, cursor as int)),
        decreases count - i,
    {
        match get_block(b, cursor) {
            Some((block, end)) => {
                blocks.push(block);
                cursor = end;
            },
            None => {
                proof {
                    reveal(parse_stripe);
                    assert(parse_blocks(b@, at4 as int, (i + 1) as nat).is_none());
                    lemma_parse_blocks_fails(b@, at4 as int, (i + 1) as nat, count as nat);
                }
                return None;
            },
        }
        i += 1;
    }
    Some((StripeInfo { blocks, data_count, parity_count, block_size }, cursor))
}

/// The binary form of a stripe at rest. Decoding it gives the stripe.
pub fn encode_stripe(stripe: &StripeInfo) -> (r: Vec<u8>)
    ensures
        r@ == ser_stripe(stripe@),
        decoded_stripe(r@) == Some(stripe@),
{
    let mut out: Vec<u8> = Vec::new();
    put_stripe(&mut out, stripe);
    proof {
        assert(out@ =~= Seq::<u8>::empty() + ser_stripe(stripe@) + Seq::<u8>::empty());
        lemma_parse_stripe(Seq::<u8>::empty(), stripe@, Seq::<u8>::empty());
        assert(out@ =~= ser_stripe(stripe@));
    }
    out
}

/// Decode a stripe at rest. Fields that are cut short or malformed, and
/// bytes behind the last block, are refused.
pub fn decode_stripe(b: &[u8]) -> (r: Result<StripeInfo>)
    ensures
        match decoded_stripe(b@) {
            Some(s) => r matches Ok(stripe) && stripe@ == s,
            None => r matches Err(e) && e is Deserialization,
        },
{
    match get_stripe(b, 0) {
        Some((stripe, end)) => {
            if end != b.len() {
                return Err(Error::Deserialization("Trailing bytes behind stripe".to_string()));
            }
            Ok(stripe)
        },
        None => Err(Error::Deserialization("Malformed stripe".to_string())),
    }
}

/// Format byte of the manifest of an erasure-coded file at rest.
pub const ERASURE_MANIFEST_FORMAT: u8 = 1;

/// What an erasure chunk reference says.
pub struct ErasureChunkRefView {
    pub id: Seq<char>,
    pub offset: u64,
    pub original_size: u64,
    pub compressed: bool,
    pub stripe: StripeInfoView,
    pub version: u64,
}

/// What the manifest of an erasure-coded file says.
pub struct ErasureChunkManifestView {
    pub version: u64,
    pub total_size: u64,
    pub chunks: Seq<ErasureChunkRefView>,
    pub file_hash: Seq<char>,
    pub data_chunks: u8,
    pub total_chunks: u8,
}

impl View for ErasureChunkRef {
    type V = ErasureChunkRefView;

    open spec fn view(&self) -> ErasureChunkRefView {
        ErasureChunkRefView {
            id: self.id@,
            offset: self.offset,
            original_size: self.original_size,
            compressed: self.compressed,
            stripe: self.stripe@,
            version: self.version,
        }
    }
}

/// What the erasure chunk references say.
pub open spec fn stripe_ref_views(chunks: Seq<ErasureChunkRef>) -> Seq<ErasureChunkRefView> {
    Seq::new(chunks.len(), |i: int| chunks[i]@)
}

impl View for ErasureChunkManifest {
    type V = ErasureChunkManifestView;

    open spec fn view(&self) -> ErasureChunkManifestView {
        ErasureChunkManifestView {
            version: self.version,
            total_size: self.total_size,
            chunks: stripe_ref_views(self.chunks@),
            file_hash: self.file_hash@,
            data_chunks: self.data_chunks,
            total_chunks: self.total_chunks,
        }
    }
}

/// The binary form of an erasure chunk reference.
#[verifier::opaque]
pub open spec fn ser_stripe_ref(c: ErasureChunkRefView) -> Seq<u8> {
    ser_text(c.id) + be64(c.offset) + be64(c.original_size) + ser_bool(c.compressed) + ser_stripe(
        c.stripe,
    ) + be64(c.version)
}

/// The erasure chunk reference at `pos`.
#[verifier::opaque]
pub open spec fn parse_stripe_ref(b: Seq<u8>, pos: int) -> Option<(ErasureChunkRefView, int)> {
    match parse_text(b, pos) {
        Some((id, at1)) => match parse_u64(b, at1) {
            Some((offset, at2)) => match parse_u64(b, at2) {
                Some((original_size, at3)) => match parse_bool(b, at3) {
                    Some((compressed, at4)) => match parse_stripe(b, at4) {
                        Some((stripe, at5)) => match parse_u64(b, at5) {
                            Some((version, at6)) => Some(
                                (
                                    ErasureChunkRefView {
                                        id,
                                        offset,
                                        original_size,
                                        compressed,
                                        stripe,
                                        version,
                                    },
                                    at6,
                                ),
                            ),
                            None => None,
                        },
                        None => None,
                    },
                    None => None,
                },
                None => None,
            },
            None => None,
        },
        None => None,
    }
}

/// The binary form of erasure chunk references, one after the other.
pub open spec fn ser_stripe_refs(chunks: Seq<ErasureChunkRefView>) -> Seq<u8>
    decreases chunks.len(),
{
    if chunks.len() == 0 {
        Seq::empty()
    } else {
        ser_stripe_refs(chunks.drop_last()) + ser_stripe_ref(chunks.last())
    }
}

/// The `n` erasure chunk references from `pos` on.
pub open spec fn parse_stripe_refs(b: Seq<u8>, pos: int, n: nat) -> Option<
    (Seq<ErasureChunkRefView>, int),
>
    decreases n,
{
    if n == 0 {
        Some((Seq::empty(), pos))
    } else {
        match parse_stripe_refs(b, pos, (n - 1) as nat) {
            Some((earlier, mid)) => match parse_stripe_ref(b, mid) {
                Some((chunk, end)) => Some((earlier.push(chunk), end)),
                None => None,
            },
            None => None,
        }
    }
}

/// The binary form of the manifest of an erasure-coded file, without the
/// format byte.
#[verifier::opaque]
pub open spec fn ser_erasure_manifest(m: ErasureChunkManifestView) -> Seq<u8> {
    be64(m.version) + be64(m.total_size) + be64(m.chunks.len() as u64) + ser_stripe_refs(m.chunks)
        + ser_text(m.file_hash) + ser_u8(m.data_chunks) + ser_u8(m.total_chunks)
}

/// The manifest of an erasure-coded file at `pos`.
#[verifier::opaque]
pub open spec fn parse_erasure_manifest(b: Seq<u8>, pos: int) -> Option<
    (ErasureChunkManifestView, int),
> {
    match parse_u64(b, pos) {
        Some((version, at1)) => match parse_u64(b, at1) {
            Some((total_size, at2)) => match parse_u64(b, at2) {
                Some((count, at3)) => match parse_stripe_refs(b, at3, count as nat) {
                    Some((chunks, at4)) => match parse_text(b, at4) {
                        Some((file_hash, at5)) => match parse_u8(b, at5) {
                            Some((data_chunks, at6)) => match parse_u8(b, at6) {
                                Some((total_chunks, at7)) => Some(
                                    (
                                        ErasureChunkManifestView {
                                            version,
                                            total_size,
                                            chunks,
                                            file_hash,
                                            data_chunks,
                                            total_chunks,
                                        },
                                        at7,
                                    ),
                                ),
                                None => None,
                            },
                            None => None,
                        },
                        None => None,
                    },
                    None => None,
                },
                None => None,
            },
            None => None,
        },
        None => None,
    }
}

/// The manifest that bytes at rest hold: behind the format byte, up to the
/// last byte.
pub open spec fn decoded_erasure_manifest(b: Seq<u8>) -> Option<ErasureChunkManifestView> {
    if b.len() == 0 || b[0] != ERASURE_MANIFEST_FORMAT {
        None
    } else {
        match parse_erasure_manifest(b, 1) {
            Some((m, end)) => if end == b.len() {
                Some(m)
            } else {
                None
            },
            None => None,
        }
    }
}

/// The text and the list of an erasure chunk reference can be written.
pub open spec fn writable_stripe_ref(c: ErasureChunkRefView) -> bool {
    &&& encode_utf8(c.id).len() <= u64::MAX
    &&& c.stripe.blocks.len() <= u64::MAX
}

/// The texts and the lists of a manifest can be written.
pub open spec fn writable_erasure_manifest(m: ErasureChunkManifestView) -> bool {
    &&& m.chunks.len() <= u64::MAX
    &&& encode_utf8(m.file_hash).len() <= u64::MAX
    &&& forall|i: int| 0 <= i < m.chunks.len() ==> writable_stripe_ref(#[trigger] m.chunks[i])
}

/// An erasure chunk reference that was written is read back.
pub proof fn lemma_parse_stripe_ref(before: Seq<u8>, c: ErasureChunkRefView, after: Seq<u8>)
    requires
        writable_stripe_ref(c),
    ensures
        parse_stripe_ref(before + ser_stripe_ref(c) + after, before.len() as int) == Some(
            (c, before.len() as int + ser_stripe_ref(c).len()),
        ),
{
    reveal(ser_stripe_ref);
    reveal(parse_stripe_ref);
    let f1 = ser_text(c.id);
    let f2 = be64(c.offset);
    let f3 = be64(c.original_size);
    let f4 = ser_bool(c.compressed);
    let f5 = ser_stripe(c.stripe);
    let f6 = be64(c.version);
    let b = before + ser_stripe_ref(c) + after;
    assert(b =~= before + f1 + (f2 + f3 + f4 + f5 + f6 + after));
    lemma_parse_text(before, c.id, f2 + f3 + f4 + f5 + f6 + after);
    assert(b =~= (before + f1) + f2 + (f3 + f4 + f5 + f6 + after));
    lemma_parse_u64(before + f1, c.offset, f3 + f4 + f5 + f6 + after);
    assert(b =~= (before + f1 + f2) + f3 + (f4 + f5 + f6 + after));
    lemma_parse_u64(before + f1 + f2, c.original_size, f4 + f5 + f6 + after);
    assert(b =~= (before + f1 + f2 + f3) + f4 + (f5 + f6 + after));
    lemma_parse_bool(before + f1 + f2 + f3, c.compressed, f5 + f6 + after);
    assert(b =~= (before + f1 + f2 + f3 + f4) + f5 + (f6 + after));
    lemma_parse_stripe(before + f1 + f2 + f3 + f4, c.stripe, f6 + after);
    assert(b =~= (before + f1 + f2 + f3 + f4 + f5) + f6 + after);
    lemma_parse_u64(before + f1 + f2 + f3 + f4 + f5, c.version, after);
}

/// Erasure chunk references that were written are read back.
pub proof fn lemma_parse_stripe_refs(before: Seq<u8>, chunks: Seq<ErasureChunkRefView>, after: Seq<u8>)
    requires
        forall|i: int| 0 <= i < chunks.len() ==> writable_stripe_ref(#[trigger] chunks[i]),
    ensures
        parse_stripe_refs(before + ser_stripe_refs(chunks) + after, before.len() as int, chunks.len())
            == Some((chunks, before.len() as int + ser_stripe_refs(chunks).len())),
    decreases chunks.len(),
{
    let b = before + ser_stripe_refs(chunks) + after;
    if chunks.len() == 0 {
        assert(chunks =~= Seq::<ErasureChunkRefView>::empty());
    } else {
        let front = chunks.drop_last();
        let last = chunks.last();
        assert(b =~= before + ser_stripe_refs(front) + (ser_stripe_ref(last) + after));
        lemma_parse_stripe_refs(before, front, ser_stripe_ref(last) + after);
        assert(b =~= (before + ser_stripe_refs(front)) + ser_stripe_ref(last) + after);
        lemma_parse_stripe_ref(before + ser_stripe_refs(front), last, after);
        assert(front.push(last) =~= chunks);
    }
}

/// Where the first references cannot be read, more cannot be read either.
pub proof fn lemma_parse_stripe_refs_fails(b: Seq<u8>, pos: int, k: nat, n: nat)
    requires
        k <= n,
        parse_stripe_refs(b, pos, k).is_none(),
    ensures
        parse_stripe_refs(b, pos, n).is_none(),
    decreases n,
{
    if k < n {
        lemma_parse_stripe_refs_fails(b, pos, k, (n - 1) as nat);
    }
}

/// A manifest that was written is read back.
pub proof fn lemma_parse_erasure_manifest(before: Seq<u8>, m: ErasureChunkManifestView, after: Seq<u8>)
    requires
        writable_erasure_manifest(m),
    ensures
        parse_erasure_manifest(before + ser_erasure_manifest(m) + after, before.len() as int)
            == Some((m, before.len() as int + ser_erasure_manifest(m).len())),
{
    reveal(ser_erasure_manifest);
    reveal(parse_erasure_manifest);
    let f1 = be64(m.version);
    let f2 = be64(m.total_size);
    let f3 = be64(m.chunks.len() as u64);
    let f4 = ser_stripe_refs(m.chunks);
    let f5 = ser_text(m.file_hash);
    let f6 = ser_u8(m.data_chunks);
    let f7 = ser_u8(m.total_chunks);
    let b = before + ser_erasure_manifest(m) + after;
    assert(b =~= before + f1 + (f2 + f3 + f4 + f5 + f6 + f7 + after));
    lemma_parse_u64(before, m.version, f2 + f3 + f4 + f5 + f6 + f7 + after);
    assert(b =~= (before + f1) + f2 + (f3 + f4 + f5 + f6 + f7 + after));
    lemma_parse_u64(before + f1, m.total_size, f3 + f4 + f5 + f6 + f7 + after);
    assert(b =~= (before + f1 + f2) + f3 + (f4 + f5 + f6 + f7 + after));
    lemma_parse_u64(before + f1 + f2, m.chunks.len() as u64, f4 + f5 + f6 + f7 + after);
    assert(b =~= (before + f1 + f2 + f3) + f4 + (f5 + f6 + f7 + after));
    lemma_parse_stripe_refs(before + f1 + f2 + f3, m.chunks, f5 + f6 + f7 + after);
    assert(b =~= (before + f1 + f2 + f3 + f4) + f5 + (f6 + f7 + after));
    lemma_parse_text(before + f1 + f2 + f3 + f4, m.file_hash, f6 + f7 + after);
    assert(b =~= (before + f1 + f2 + f3 + f4 + f5) + f6 + (f7 + after));
    lemma_parse_u8(before + f1 + f2 + f3 + f4 + f5, m.data_chunks, f7 + after);
    assert(b =~= (before + f1 + f2 + f3 + f4 + f5 + f6) + f7 + after);
    lemma_parse_u8(before + f1 + f2 + f3 + f4 + f5 + f6, m.total_chunks, after);
}

/// Write an erasure chunk reference.
pub fn put_stripe_ref(out: &mut Vec<u8>, chunk: &ErasureChunkRef)
    ensures
        final(out)@ == old(out)@ + ser_stripe_ref(chunk@),
        writable_stripe_ref(chunk@),
{
    reveal(ser_stripe_ref);
    put_text(out, chunk.id.as_str());
    put_u64(out, chunk.offset);
    put_u64(out, chunk.original_size);
    put_bool(out, chunk.compressed);
    put_stripe(out, &chunk.stripe);
    put_u64(out, chunk.version);
    assert(out@ =~= old(out)@ + ser_stripe_ref(chunk@));
}

/// Read an erasure chunk reference.
pub fn get_stripe_ref(b: &[u8], pos: usize) -> (r: Option<(ErasureChunkRef, usize)>)
    ensures
        match r {
            Some((chunk, end)) => parse_stripe_ref(b@, pos as int) == Some((chunk@, end as int)),
            None => parse_stripe_ref(b@, pos as int).is_none(),
        },
{
    reveal(parse_stripe_ref);
    let (id, at1) = match get_text(b, pos) {
        Some(x) => x,
        None => {
            return None;
        },
    };
    let (offset, at2) = match get_u64(b, at1) {
        Some(x) => x,
        None => {
            return None;
        },
    };
    let (original_size, at3) = match get_u64(b, at2) {
        Some(x) => x,
        None => {
            return None;
        },
    };
    let (compressed, at4) = match get_bool(b, at3) {
        Some(x) => x,
        None => {
            return None;
        },
    };
    let (stripe, at5) = match get_stripe(b, at4) {
        Some(x) => x,
        None => {
            return None;
        },
    };
    let (version, at6) = match get_u64(b, at5) {
        Some(x) => x,
        None => {
            return None;
        },
    };
    Some((ErasureChunkRef { id, offset, original_size, compressed, stripe, version }, at6))
}

/// Write the manifest of an erasure-coded file, without the format byte.
pub fn put_erasure_manifest(out: &mut Vec<u8>, manifest: &ErasureChunkManifest)
    ensures
        final(out)@ == old(out)@ + ser_erasure_manifest(manifest@),
        writable_erasure_manifest(manifest@),
{
    reveal(ser_erasure_manifest);
    put_u64(out, manifest.version);
    put_u64(out, manifest.total_size);
    put_u64(out, manifest.chunks.len() as u64);
    let ghost start = out@;
    let ghost views = stripe_ref_views(manifest.chunks@);
    let mut i: usize = 0;
    assert(views.take(0) =~= Seq::<ErasureChunkRefView>::empty());
    while i < manifest.chunks.len()
        invariant
            i <= manifest.chunks@.len(),
            views == stripe_ref_views(manifest.chunks@),
            out@ == start + ser_stripe_refs(views.take(i as int)),
            forall|j: int| 0 <= j < i ==> writable_stripe_ref(#[trigger] views[j]),
        decreases manifest.chunks@.len() - i,
    {
        proof {
            assert(views.take(i + 1).drop_last() =~= views.take(i as int));
            assert(views.take(i + 1).last() == manifest.chunks@[i as int]@);
        }
        put_stripe_ref(out, &manifest.chunks[i]);
        assert(out@ =~= start + ser_stripe_refs(views.take(i + 1)));
        i += 1;
    }
    assert(views.take(i as int) =~= views);
    put_text(out, manifest.file_hash.as_str());
    put_u8(out, manifest.data_chunks);
    put_u8(out, manifest.total_chunks);
    assert(out@ =~= old(out)@ + ser_erasure_manifest(manifest@));
}

/// Read the manifest of an erasure-coded file.
pub fn get_erasure_manifest(b: &[u8], pos: usize) -> (r: Option<(ErasureChunkManifest, usize)>)
    ensures
        match r {
            Some((manifest, end)) => parse_erasure_manifest(b@, pos as int) == Some(
                (manifest@, end as int),
            ),
            None => parse_erasure_manifest(b@, pos as int).is_none(),
        },
{
    reveal(parse_erasure_manifest);
    let (version, at1) = match get_u64(b, pos) {
        Some(x) => x,
        None => {
            return None;
        },
    };
    let (total_size, at2) = match get_u64(b, at1) {
        Some(x) => x,
        None => {
            return None;
        },
    };
    let (count, at3) = match get_u64(b, at2) {
        Some(x) => x,
        None => {
            return None;
        },
    };
    let mut chunks: Vec<ErasureChunkRef> = Vec::new();
    let mut cursor: usize = at3;
    let mut i: u64 = 0;
    assert(stripe_ref_views(chunks@) =~= Seq::<ErasureChunkRefView>::empty());
    while i < count
        invariant
            i <= count,
            chunks@.len() == i,
            parse_u64(b@, pos as int) == Some((version, at1 as int)),
            parse_u64(b@, at1 as int) == Some((total_size, at2 as int)),
            parse_u64(b@, at2 as int) == Some((count, at3 as int)),
            parse_stripe_refs(b@, at3 as int, i as nat) == Some(
                (stripe_ref_views(chunks@), cursor as int),
            ),
        decreases count - i,
    {
        let ghost earlier = stripe_ref_views(chunks@);
        match get_stripe_ref(b, cursor) {
            Some((chunk, end)) => {
                chunks.push(chunk);
                cursor = end;
                assert(stripe_ref_views(chunks@) =~= earlier.push(chunk@));
            },
            None => {
                proof {
                    reveal(parse_erasure_manifest);
                    assert(parse_stripe_refs(b@, at3 as int, (i + 1) as nat).is_none());
                    lemma_parse_stripe_refs_fails(b@, at3 as int, (i + 1) as nat, count as nat);
                }
                return None;
            },
        }
        i += 1;
    }
    let (file_hash, at5) = match get_text(b, cursor) {
        Some(x) => x,
        None => {
            return None;
        },
    };
    let (data_chunks, at6) = match get_u8(b, at5) {
        Some(x) => x,
        None => {
            return None;
        },
    };
    let (total_chunks, at7) = match get_u8(b, at6) {
        Some(x) => x,
        None => {
            return None;
        },
    };
    Some((ErasureChunkManifest { version, total_size, chunks, file_hash, data_chunks, total_chunks }, at7))
}

/// The binary form of the manifest of an erasure-coded file at rest.
/// Decoding it gives the manifest.
pub fn encode_erasure_manifest(manifest: &ErasureChunkManifest) -> (r: Vec<u8>)
    ensures
        r@ == seq![ERASURE_MANIFEST_FORMAT] + ser_erasure_manifest(manifest@),
        decoded_erasure_manifest(r@) == Some(manifest@),
{
    let mut out: Vec<u8> = Vec::new();
    out.push(ERASURE_MANIFEST_FORMAT);
    put_erasure_manifest(&mut out, manifest);
    proof {
        assert(out@ =~= seq![ERASURE_MANIFEST_FORMAT] + ser_erasure_manifest(manifest@) + Seq::<
            u8,
        >::empty());
        lemma_parse_erasure_manifest(seq![ERASURE_MANIFEST_FORMAT], manifest@, Seq::<u8>::empty());
    }
    out
}

/// Decode the manifest of an erasure-coded file at rest. Another format
/// byte, fields that are cut short or malformed, and bytes behind the last
/// field are refused.
pub fn decode_erasure_manifest(b: &[u8]) -> (r: Result<ErasureChunkManifest>)
    ensures
        match decoded_erasure_manifest(b@) {
            Some(m) => r matches Ok(manifest) && manifest@ == m,
            None => r matches Err(e) && e is Deserialization,
        },
{
    if b.len() == 0 || b[0] != ERASURE_MANIFEST_FORMAT {
        return Err(Error::Deserialization("Unknown manifest format".to_string()));
    }
    match get_erasure_manifest(b, 1) {
        Some((manifest, end)) => {
            if end != b.len() {
                return Err(Error::Deserialization("Trailing bytes behind manifest".to_string()));
            }
            Ok(manifest)
        },
        None => Err(Error::Deserialization("Malformed manifest".to_string())),
    }
}

} // verus!
