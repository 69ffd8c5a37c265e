//! Chunk compression with LZ4.
//!
//! A chunk is stored compressed only where that is worthwhile: the compressed
//! form must be smaller than the plaintext, and the plaintext at least as
//! long as the configured threshold.

use crate::config::MAX_CHUNK_SIZE;
use crate::error::{Error, Result};
use vstd::prelude::*;

verus! {

/// The LZ4 block that compression gives for `data`, behind its length prefix.
pub uninterp spec fn lz4_compressed(data: Seq<u8>) -> Seq<u8>;

/// The data that decompression gives for a length-prefixed LZ4 block, or
/// nothing where the block is malformed.
pub uninterp spec fn lz4_decompressed(block: Seq<u8>) -> Option<Seq<u8>>;

/// `compress_prepend_size` of lz4_flex. Decompressing the result gives the
/// data back.
#[verifier::external_body]
fn lz4_compress(data: &[u8]) -> (r: Vec<u8>)
    requires
        data@.len() <= MAX_CHUNK_SIZE,
    ensures
        r@ == lz4_compressed(data@),
        lz4_decompressed(r@) == Some(data@),
{
    lz4_flex::compress_prepend_size(data)
}

/// The longest run of bytes 0xFF that a block may hold. In an LZ4 block a
/// length is written as a run of bytes 0xFF and a last byte, and stands for
/// their sum; with a run of this length the sum still is a 32-bit number.
pub const LONGEST_RUN: usize = 16843008;

/// Whether the `len` bytes from `start` on are bytes of the block and all
/// 0xFF.
pub open spec fn run_at(block: Seq<u8>, start: int, len: int) -> bool {
    &&& 0 <= start
    &&& start + len <= block.len()
    &&& forall|j: int| start <= j < start + len ==> block[j] == 0xFFu8
}

/// Whether a block is admitted to decompression: it holds no run of bytes
/// 0xFF that is longer than the longest one that may stand for a length.
pub open spec fn admitted(block: Seq<u8>) -> bool {
    forall|start: int| !#[trigger] run_at(block, start, LONGEST_RUN + 1)
}

/// The data that an admitted block decompresses to; another block is
/// refused like a malformed one.
pub open spec fn decompressed(block: Seq<u8>) -> Option<Seq<u8>> {
    if admitted(block) {
        lz4_decompressed(block)
    } else {
        None
    }
}

/// `decompress_size_prepended` of lz4_flex. It adds up the bytes of a length
/// in a 32-bit number without a check, so a block with a longer run of bytes
/// 0xFF than a length can have is kept from it.
#[verifier::external_body]
fn lz4_decompress(block: &[u8]) -> (r: Option<Vec<u8>>)
    requires
        admitted(block@),
    ensures
        r.is_some() == lz4_decompressed(block@).is_some(),
        r.is_some() ==> r.unwrap()@ == lz4_decompressed(block@).unwrap(),
{
    lz4_flex::decompress_size_prepended(block).ok()
}

/// The form in which a chunk is stored, and whether it is compressed: the
/// compressed candidate where it is smaller than the data, the data is at
/// least `threshold` bytes long and the candidate is admitted to
/// decompression, else the data as it is.
pub open spec fn stored_form(data: Seq<u8>, candidate: Seq<u8>, threshold: nat) -> (Seq<u8>, bool) {
    if candidate.len() < data.len() && data.len() >= threshold && admitted(candidate) {
        (candidate, true)
    } else {
        (data, false)
    }
}

/// The data that a stored form stands for.
pub open spec fn restored(stored: Seq<u8>, compressed: bool) -> Option<Seq<u8>> {
    if compressed {
        decompressed(stored)
    } else {
        Some(stored)
    }
}

/// The form in which `data` is stored under the threshold: data longer than
/// the largest chunk is never compressed.
pub open spec fn packed(data: Seq<u8>, threshold: nat) -> (Seq<u8>, bool) {
    if data.len() <= MAX_CHUNK_SIZE {
        stored_form(data, lz4_compressed(data), threshold)
    } else {
        (data, false)
    }
}

/// Compress data of at most the largest chunk size.
pub fn compress(data: &[u8]) -> (r: Vec<u8>)
    requires
        data@.len() <= MAX_CHUNK_SIZE,
    ensures
        r@ == lz4_compressed(data@),
        lz4_decompressed(r@) == Some(data@),
{
    lz4_compress(data)
}

/// Whether a block is admitted to decompression.
pub fn is_admitted(block: &[u8]) -> (r: bool)
    ensures
        r == admitted(block@),
{
    let mut run: usize = 0;
    let mut i: usize = 0;
    while i < block.len()
        invariant
            i <= block@.len(),
            run <= i,
            run <= LONGEST_RUN,
            run_at(block@, i - run, run as int),
            run < i ==> block@[i - run - 1] != 0xFFu8,
            forall|start: int|
                start + LONGEST_RUN + 1 <= i ==> !#[trigger] run_at(block@, start, LONGEST_RUN + 1),
        decreases block@.len() - i,
    {
        if block[i] == 0xFF {
            if run == LONGEST_RUN {
                assert(run_at(block@, i - run, LONGEST_RUN + 1));
                return false;
            }
            run = run + 1;
        } else {
            run = 0;
        }
        i += 1;
        proof {
            assert forall|start: int| start + LONGEST_RUN + 1 <= i implies !#[trigger] run_at(
                block@,
                start,
                LONGEST_RUN + 1,
            ) by {
                if start + LONGEST_RUN + 1 == i && run_at(block@, start, LONGEST_RUN + 1) {
                    // The window ends at the last byte read and is longer
                    // than the run that ends there.
                    assert(block@[i - 1] == 0xFFu8);
                    assert(run < i);
                    assert(start <= i - run - 1 < start + LONGEST_RUN + 1);
                }
            }
        }
    }
    proof {
        assert forall|start: int| !#[trigger] run_at(block@, start, LONGEST_RUN + 1) by {
            if run_at(block@, start, LONGEST_RUN + 1) {
                assert(start + LONGEST_RUN + 1 <= i);
            }
        }
    }
    true
}

/// Decompress a block; a block that is malformed or not admitted is
/// refused.
pub fn decompress(block: &[u8]) -> (r: Result<Vec<u8>>)
    ensures
        match decompressed(block@) {
            Some(data) => r matches Ok(v) && v@ == data,
            None => r matches Err(e) && e is Deserialization,
        },
{
    if !is_admitted(block) {
        return Err(Error::Deserialization("Block is not admitted to decompression".to_string()));
    }
    match lz4_decompress(block) {
        Some(data) => Ok(data),
        None => Err(Error::Deserialization("Decompression failed".to_string())),
    }
}

/// Choose between the data and its compressed candidate.
pub fn pick_stored_form(data: &[u8], candidate: Vec<u8>, threshold: usize) -> (r: Option<Vec<u8>>)
    ensures
        match r {
            Some(chosen) => stored_form(data@, candidate@, threshold as nat) == (chosen@, true),
            None => stored_form(data@, candidate@, threshold as nat) == (data@, false),
        },
{
    if candidate.len() < data.len() && data.len() >= threshold && is_admitted(candidate.as_slice()) {
        Some(candidate)
    } else {
        None
    }
}

/// Compress if worthwhile: the stored form of `data`, or nothing where the
/// data is stored as it is.
pub fn compress_if_worthwhile(data: &[u8], threshold: usize) -> (r: Option<Vec<u8>>)
    ensures
        match r {
            Some(chosen) => packed(data@, threshold as nat) == (chosen@, true),
            None => packed(data@, threshold as nat) == (data@, false),
        },
        r matches Some(chosen) ==> decompressed(chosen@) == Some(data@),
{
    if data.len() as u64 > MAX_CHUNK_SIZE || data.len() < threshold {
        return None;
    }
    let candidate = compress(data);
    pick_stored_form(data, candidate, threshold)
}

/// Compress if worthwhile, else hand the data back: the stored form and
/// whether it is compressed. Restoring the stored form gives the data.
pub fn compress_or_original(data: &[u8], threshold: usize) -> (r: (Vec<u8>, bool))
    ensures
        (r.0@, r.1) == packed(data@, threshold as nat),
        restored(r.0@, r.1) == Some(data@),
{
    match compress_if_worthwhile(data, threshold) {
        Some(chosen) => (chosen, true),
        None => (vstd::slice::slice_to_vec(data), false),
    }
}

/// Undo `compress_or_original`.
pub fn restore(stored: Vec<u8>, compressed: bool) -> (r: Result<Vec<u8>>)
    ensures
        match restored(stored@, compressed) {
            Some(data) => r matches Ok(v) && v@ == data,
            None => r matches Err(e) && e is Deserialization,
        },
{
    if compressed {
        decompress(stored.as_slice())
    } else {
        Ok(stored)
    }
}

} // verus!
