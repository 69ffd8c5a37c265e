//! Reed-Solomon erasure coding for data redundancy.
//!
//! The data is framed with an 8-byte big-endian length header, padded with
//! zeros and cut into K data shards of equal size; N-K parity shards of the
//! same size are computed over GF(2^8). Any K of the N shards give the data
//! back.

use crate::bytes::{append_bytes, be64, copy_range, from_be64, lemma_be64_round_trip, u64_from_be, u64_to_be};
use crate::error::{Error, Result};
use reed_solomon_erasure::galois_8::ReedSolomon;
use vstd::arithmetic::div_mod::{lemma_fundamental_div_mod, lemma_mod_pos_bound};
use vstd::prelude::*;

verus! {

/// The parity shards that the codec computes for `data_shards`, which are
/// shards of one nonzero length: `parity_count` shards of that length.
pub uninterp spec fn rs_parity(data_shards: Seq<Seq<u8>>, parity_count: nat) -> Seq<Seq<u8>>;

/// The full set of shards that the codec rebuilds from `shards`, of which the
/// first `data_count` places are data shards and the others parity shards.
pub uninterp spec fn rs_reconstructed(shards: Seq<Option<Seq<u8>>>, data_count: nat) -> Seq<
    Seq<u8>,
>;

/// The byte strings held by a vector of shards.
pub open spec fn shard_views(shards: Seq<Vec<u8>>) -> Seq<Seq<u8>> {
    Seq::new(shards.len(), |i: int| shards[i]@)
}

/// The byte strings held by a vector of shards of which some are missing.
pub open spec fn slot_views(shards: Seq<Option<Vec<u8>>>) -> Seq<Option<Seq<u8>>> {
    Seq::new(
        shards.len(),
        |i: int|
            match shards[i] {
                Some(bytes) => Some(bytes@),
                None => None,
            },
    )
}

/// Number of shards at hand.
pub open spec fn present_count(shards: Seq<Option<Seq<u8>>>) -> nat
    decreases shards.len(),
{
    if shards.len() == 0 {
        0
    } else {
        present_count(shards.drop_last()) + if shards.last().is_some() {
            1nat
        } else {
            0nat
        }
    }
}

/// The shards at hand all have one length, which is not zero.
pub open spec fn same_nonzero_lengths(shards: Seq<Option<Seq<u8>>>) -> bool {
    &&& forall|i: int|
        0 <= i < shards.len() && (#[trigger] shards[i]).is_some() ==> shards[i].unwrap().len() > 0
    &&& forall|i: int, j: int|
        0 <= i < shards.len() && 0 <= j < shards.len() && (#[trigger] shards[i]).is_some() && (
        #[trigger] shards[j]).is_some() ==> shards[i].unwrap().len() == shards[j].unwrap().len()
}

/// All shards have the length `len`.
pub open spec fn uniform(shards: Seq<Seq<u8>>, len: nat) -> bool {
    forall|i: int| 0 <= i < shards.len() ==> (#[trigger] shards[i]).len() == len
}

/// `full` is a code word of the code with `data_count` data shards: data
/// shards of one nonzero length followed by the parity computed from them.
pub open spec fn is_codeword(full: Seq<Seq<u8>>, data_count: nat) -> bool {
    &&& 1 <= data_count <= full.len()
    &&& full[0].len() > 0
    &&& uniform(full.take(data_count as int), full[0].len())
    &&& full.skip(data_count as int) == rs_parity(
        full.take(data_count as int),
        (full.len() - data_count) as nat,
    )
}

/// `shards` is `full` with some shards erased.
pub open spec fn erasure_of(shards: Seq<Option<Seq<u8>>>, full: Seq<Seq<u8>>) -> bool {
    &&& shards.len() == full.len()
    &&& forall|i: int|
        0 <= i < shards.len() && (#[trigger] shards[i]).is_some() ==> shards[i].unwrap() == full[i]
}

/// `ReedSolomon::new` followed by `ReedSolomon::encode` of reed-solomon-erasure,
/// on `data_count + parity_count` shards of one nonzero length: the call
/// succeeds, leaves the data shards as they are and overwrites the parity
/// shards with the parity of the data shards, which has their length. The
/// result says whether the codec reported success.
#[verifier::external_body]
fn rs_encode(data_count: usize, parity_count: usize, shards: &mut Vec<Vec<u8>>) -> (r: bool)
    requires
        1 <= data_count,
        1 <= parity_count,
        data_count + parity_count <= 256,
        old(shards)@.len() == data_count + parity_count,
        old(shards)@[0]@.len() > 0,
        uniform(shard_views(old(shards)@), old(shards)@[0]@.len()),
    ensures
        r,
        final(shards)@.len() == old(shards)@.len(),
        forall|i: int| 0 <= i < data_count ==> (#[trigger] final(shards)@[i])@ == old(shards)@[i]@,
        rs_parity(
            shard_views(old(shards)@).take(data_count as int),
            parity_count as nat,
        ).len() == parity_count,
        forall|j: int|
            0 <= j < parity_count ==> (#[trigger] final(shards)@[data_count + j])@ == rs_parity(
                shard_views(old(shards)@).take(data_count as int),
                parity_count as nat,
            )[j],
        uniform(shard_views(final(shards)@), old(shards)@[0]@.len()),
{
    ReedSolomon::new(data_count, parity_count).and_then(|codec| codec.encode(shards)).is_ok()
}

/// `ReedSolomon::new` followed by `ReedSolomon::reconstruct` of
/// reed-solomon-erasure.
///
/// The call succeeds exactly on `data_count + parity_count` places of which at
/// least `data_count` hold a shard, the shards at hand being of one nonzero
/// length; on failure nothing is touched. On success every place holds a
/// shard, the shards that were at hand are kept, and where the shards at hand
/// come from a code word the result is that code word: any `data_count`
/// shards of a Reed-Solomon code word determine it. The result says whether
/// the codec reported success.
#[verifier::external_body]
fn rs_reconstruct(data_count: usize, parity_count: usize, shards: &mut Vec<Option<Vec<u8>>>) -> (r:
    bool)
    requires
        1 <= data_count,
        1 <= parity_count,
        data_count + parity_count <= 256,
    ensures
        r <==> {
            &&& old(shards)@.len() == data_count + parity_count
            &&& same_nonzero_lengths(slot_views(old(shards)@))
            &&& present_count(slot_views(old(shards)@)) >= data_count
        },
        !r ==> final(shards)@ == old(shards)@,
        r ==> {
            let before = slot_views(old(shards)@);
            let rebuilt = rs_reconstructed(before, data_count as nat);
            &&& final(shards)@.len() == old(shards)@.len()
            &&& rebuilt.len() == before.len()
            &&& forall|i: int|
                0 <= i < before.len() ==> #[trigger] slot_views(final(shards)@)[i] == Some(
                    rebuilt[i],
                )
            &&& forall|i: int|
                0 <= i < before.len() && (#[trigger] before[i]).is_some() ==> rebuilt[i]
                    == before[i].unwrap()
            &&& forall|full: Seq<Seq<u8>>|
                #[trigger] is_codeword(full, data_count as nat) && erasure_of(before, full)
                    ==> rebuilt == full
        },
{
    ReedSolomon::new(data_count, parity_count).and_then(|codec| codec.reconstruct(shards)).is_ok()
}

/// `n / k`, rounded up.
pub open spec fn ceil_div(n: nat, k: nat) -> nat {
    n / k + if n % k > 0 {
        1nat
    } else {
        0nat
    }
}

/// Size of each shard for `data_len` bytes of data and `k` data shards: the
/// data and its 8-byte header, divided by `k` and rounded up.
pub open spec fn shard_len(data_len: nat, k: nat) -> nat {
    ceil_div(data_len + 8, k)
}

/// `data` behind its length header.
pub open spec fn framed(data: Seq<u8>) -> Seq<u8> {
    be64(data.len() as u64) + data
}

/// The framed data, padded with zeros to `k` shards.
pub open spec fn padded(data: Seq<u8>, k: nat) -> Seq<u8> {
    framed(data) + Seq::new(
        (shard_len(data.len(), k) * k - (data.len() + 8)) as nat,
        |i: int| 0u8,
    )
}

/// `bytes` cut into `k` pieces of `s` bytes.
pub open spec fn split_even(bytes: Seq<u8>, k: nat, s: nat) -> Seq<Seq<u8>> {
    Seq::new(k, |i: int| bytes.subrange(i * s, (i + 1) * s))
}

/// The data shards of `data`.
pub open spec fn data_shards_of(data: Seq<u8>, k: nat) -> Seq<Seq<u8>> {
    split_even(padded(data, k), k, shard_len(data.len(), k))
}

/// All shards of `data`: `k` data shards and `m` parity shards.
pub open spec fn encoded(data: Seq<u8>, k: nat, m: nat) -> Seq<Seq<u8>> {
    data_shards_of(data, k) + rs_parity(data_shards_of(data, k), m)
}

/// The shards, one after the other.
pub open spec fn joined(shards: Seq<Seq<u8>>) -> Seq<u8>
    decreases shards.len(),
{
    if shards.len() == 0 {
        Seq::empty()
    } else {
        joined(shards.drop_last()) + shards.last()
    }
}

/// The data that `bytes` frames: as many bytes behind the 8-byte header as
/// the header says, if `bytes` holds them.
pub open spec fn unframed(bytes: Seq<u8>) -> Option<Seq<u8>> {
    if bytes.len() < 8 {
        None
    } else if from_be64(bytes) > bytes.len() - 8 {
        None
    } else {
        Some(bytes.subrange(8, 8 + from_be64(bytes)))
    }
}

/// The shards cover the framed data and waste less than one byte per shard.
pub proof fn lemma_shard_len_bounds(data_len: nat, k: nat)
    requires
        k > 0,
    ensures
        shard_len(data_len, k) >= 1,
        shard_len(data_len, k) * k >= data_len + 8,
        shard_len(data_len, k) * k < data_len + 8 + k,
{
    let n = (data_len + 8) as int;
    let d = k as int;
    lemma_fundamental_div_mod(n, d);
    lemma_mod_pos_bound(n, d);
    let q = n / d;
    let r = n % d;
    assert(n == d * q + r);
    assert(q >= 0) by (nonlinear_arith)
        requires
            n == d * q + r,
            0 <= r < d,
            n >= 0,
            d > 0,
    ;
    if r > 0 {
        assert((q + 1) * d == d * q + d) by (nonlinear_arith);
    } else {
        assert(q * d == d * q) by (nonlinear_arith);
        assert(q >= 1) by (nonlinear_arith)
            requires
                n == d * q,
                n >= 8,
                d > 0,
        ;
    }
}

/// Cutting a byte string into `k` pieces of `s` bytes and joining them gives
/// the first `k * s` bytes back.
pub proof fn lemma_join_split(bytes: Seq<u8>, k: nat, s: nat)
    requires
        bytes.len() >= k * s,
    ensures
        joined(split_even(bytes, k, s)) == bytes.take((k * s) as int),
    decreases k,
{
    if k == 0 {
        assert(k * s == 0) by (nonlinear_arith)
            requires
                k == 0,
        ;
        assert(bytes.take(0) =~= Seq::<u8>::empty());
        assert(split_even(bytes, k, s).len() == 0);
    } else {
        let shorter = (k - 1) as nat;
        assert(k * s == shorter * s + s) by (nonlinear_arith)
            requires
                shorter == k - 1,
        ;
        assert(split_even(bytes, k, s).drop_last() =~= split_even(bytes, shorter, s));
        lemma_join_split(bytes, shorter, s);
        assert(split_even(bytes, k, s).last() == bytes.subrange(
            (shorter * s) as int,
            ((shorter + 1) * s) as int,
        ));
        assert((shorter + 1) * s == k * s) by (nonlinear_arith)
            requires
                shorter == k - 1,
        ;
        assert(bytes.take((shorter * s) as int) + bytes.subrange(
            (shorter * s) as int,
            (k * s) as int,
        ) =~= bytes.take((k * s) as int));
        assert(joined(split_even(bytes, k, s)) == joined(split_even(bytes, k, s).drop_last())
            + split_even(bytes, k, s).last());
    }
}

/// Joining the data shards of `data` and reading the frame gives `data` back.
pub proof fn lemma_frame_round_trip(data: Seq<u8>, k: nat)
    requires
        k > 0,
        data.len() <= u64::MAX,
    ensures
        data_shards_of(data, k).len() == k,
        uniform(data_shards_of(data, k), shard_len(data.len(), k)),
        joined(data_shards_of(data, k)) == padded(data, k),
        unframed(joined(data_shards_of(data, k))) == Some(data),
{
    let s = shard_len(data.len(), k);
    let p = padded(data, k);
    lemma_shard_len_bounds(data.len(), k);
    lemma_be64_round_trip(data.len() as u64);
    assert(p.len() == s * k);
    assert(k * s == s * k) by (nonlinear_arith);
    lemma_join_split(p, k, s);
    assert(p.take((k * s) as int) =~= p);
    assert forall|i: int| 0 <= i < k implies (#[trigger] data_shards_of(data, k)[i]).len() == s by {
        assert(0 <= i * s && (i + 1) * s <= k * s && (i + 1) * s == i * s + s)
            by (nonlinear_arith)
            requires
                0 <= i < k,
        ;
    }
    let header = be64(data.len() as u64);
    assert(from_be64(p) == from_be64(header)) by {
        assert(p[0] == header[0] && p[1] == header[1] && p[2] == header[2] && p[3] == header[3]
            && p[4] == header[4] && p[5] == header[5] && p[6] == header[6] && p[7] == header[7]);
    }
    assert(p.subrange(8, 8 + data.len() as int) =~= data);
}

/// Data shards of one nonzero length followed by their parity are a code
/// word, whose first shards are the data shards.
pub proof fn lemma_codeword_parts(pieces: Seq<Seq<u8>>, parity: Seq<Seq<u8>>, len: nat)
    requires
        pieces.len() >= 1,
        len > 0,
        uniform(pieces, len),
        parity == rs_parity(pieces, parity.len()),
    ensures
        is_codeword(pieces + parity, pieces.len()),
        (pieces + parity).take(pieces.len() as int) == pieces,
{
    let full = pieces + parity;
    let k = pieces.len() as int;
    assert(full.take(k) =~= pieces);
    assert(full.skip(k) =~= parity);
    assert(full[0] == pieces[0]);
    assert(full.len() - k == parity.len());
}

/// Where the codec rebuilds the code word from any of its erasures, the data
/// shards rebuilt from an erasure of an encoding frame the encoded data.
pub proof fn lemma_rebuilt_encoding(
    before: Seq<Option<Seq<u8>>>,
    rebuilt: Seq<Seq<u8>>,
    k: nat,
    m: nat,
    data: Seq<u8>,
)
    requires
        k >= 1,
        before.len() == k + m,
        data.len() <= u64::MAX,
        erasure_of(before, encoded(data, k, m)),
        is_codeword(encoded(data, k, m), k) && erasure_of(before, encoded(data, k, m)) ==> rebuilt
            == encoded(data, k, m),
    ensures
        unframed(joined(rebuilt.take(k as int))) == Some(data),
{
    let pieces = data_shards_of(data, k);
    let parity = rs_parity(pieces, m);
    let len = shard_len(data.len(), k);
    assert(pieces.len() == k && uniform(pieces, len) && len >= 1 && unframed(joined(pieces))
        == Some(data)) by {
        lemma_frame_round_trip(data, k);
        lemma_shard_len_bounds(data.len(), k);
    }
    assert(encoded(data, k, m) == pieces + parity);
    assert(parity.len() == m) by {
        assert((pieces + parity).len() == before.len());
    }
    lemma_codeword_parts(pieces, parity, len);
}

/// Reed-Solomon encoder/decoder with K data shards out of N.
pub struct Encoder {
    /// K.
    data_shards: usize,
    /// N-K.
    parity_shards: usize,
}

impl Encoder {
    #[verifier::type_invariant]
    spec fn parameters_in_range(self) -> bool {
        1 <= self.data_shards && 1 <= self.parity_shards && self.data_shards + self.parity_shards
            <= 255
    }

    /// Number of data shards (K).
    pub closed spec fn data_count(&self) -> nat {
        self.data_shards as nat
    }

    /// Number of parity shards (N-K).
    pub closed spec fn parity_count(&self) -> nat {
        self.parity_shards as nat
    }

    /// Create new encoder with K data shards and N total shards, where
    /// `1 <= K < N <= 255`.
    pub fn new(data_shards: usize, total_shards: usize) -> (r: Result<Self>)
        ensures
            r.is_ok() == (1 <= data_shards < total_shards <= 255),
            r matches Ok(e) ==> e.data_count() == data_shards && e.parity_count() == total_shards
                - data_shards,
            r matches Err(e) ==> e is InvalidErasureConfig,
    {
        if data_shards == 0 {
            return Err(
                Error::InvalidErasureConfig("data_shards must be greater than 0".to_string()),
            );
        }
        if total_shards <= data_shards {
            return Err(
                Error::InvalidErasureConfig(
                    "total_shards must be greater than data_shards".to_string(),
                ),
            );
        }
        if total_shards > 255 {
            return Err(Error::InvalidErasureConfig("total_shards must be at most 255".to_string()));
        }
        Ok(Encoder { data_shards, parity_shards: total_shards - data_shards })
    }

    /// Encode data into N shards (K data + parity), all of the size
    /// `shard_len`. Data too long for its shards to be addressed is refused.
    pub fn encode(&self, data: &[u8]) -> (r: Result<Vec<Vec<u8>>>)
        ensures
            r.is_ok() == (data@.len() + 8 + self.data_count() <= usize::MAX),
            r matches Ok(shards) ==> {
                &&& shard_views(shards@) == encoded(data@, self.data_count(), self.parity_count())
                &&& shards@.len() == self.data_count() + self.parity_count()
                &&& uniform(shard_views(shards@), shard_len(data@.len(), self.data_count()))
                &&& is_codeword(shard_views(shards@), self.data_count())
            },
            r matches Err(e) ==> e is ErasureEncode,
    {
        proof {
            use_type_invariant(self);
        }
        let k = self.data_shards;
        let m = self.parity_shards;
        if data.len() > usize::MAX - 8 - k {
            return Err(Error::ErasureEncode("data too large".to_string()));
        }
        let shard_size = self.shard_size(data.len());
        proof {
            lemma_shard_len_bounds(data@.len(), k as nat);
            lemma_frame_round_trip(data@, k as nat);
        }
        let total_data_len = shard_size * k;
        let header = u64_to_be(data.len() as u64);
        let mut buffer: Vec<u8> = Vec::new();
        append_bytes(&mut buffer, header.as_slice());
        append_bytes(&mut buffer, data);
        assert(buffer@ =~= framed(data@));
        while buffer.len() < total_data_len
            invariant
                data@.len() + 8 <= buffer@.len() <= total_data_len,
                buffer@ == framed(data@) + Seq::new(
                    (buffer@.len() - (data@.len() + 8)) as nat,
                    |i: int| 0u8,
                ),
            decreases total_data_len - buffer@.len(),
        {
            let ghost before = buffer@;
            buffer.push(0);
            assert(buffer@ =~= framed(data@) + Seq::new(
                (buffer@.len() - (data@.len() + 8)) as nat,
                |i: int| 0u8,
            ));
        }
        assert(buffer@ == padded(data@, k as nat));
        let ghost pieces = data_shards_of(data@, k as nat);
        let mut shards: Vec<Vec<u8>> = Vec::new();
        let mut i: usize = 0;
        while i < k
            invariant
                i <= k,
                shard_size * k == total_data_len,
                total_data_len == buffer@.len(),
                buffer@ == padded(data@, k as nat),
                shard_size == shard_len(data@.len(), k as nat),
                pieces == data_shards_of(data@, k as nat),
                shards@.len() == i,
                forall|j: int| 0 <= j < i ==> (#[trigger] shards@[j])@ == pieces[j],
            decreases k - i,
        {
            assert(i * shard_size + shard_size <= shard_size * k && (i + 1) * shard_size == i
                * shard_size + shard_size) by (nonlinear_arith)
                requires
                    i < k,
            ;
            let piece = copy_range(buffer.as_slice(), i * shard_size, i * shard_size + shard_size);
            shards.push(piece);
            i += 1;
        }
        let mut j: usize = 0;
        while j < m
            invariant
                j <= m,
                shard_size >= 1,
                shard_size == shard_len(data@.len(), k as nat),
                pieces == data_shards_of(data@, k as nat),
                uniform(pieces, shard_size as nat),
                shards@.len() == k + j,
                forall|a: int| 0 <= a < k ==> (#[trigger] shards@[a])@ == pieces[a],
                forall|a: int| k <= a < k + j ==> (#[trigger] shards@[a])@.len() == shard_size,
            decreases m - j,
        {
            let mut blank: Vec<u8> = Vec::new();
            while blank.len() < shard_size
                invariant
                    blank@.len() <= shard_size,
                decreases shard_size - blank@.len(),
            {
                blank.push(0);
            }
            shards.push(blank);
            j += 1;
        }
        let ghost before = shards@;
        assert(shard_views(before).take(k as int) =~= pieces);
        if !rs_encode(k, m, &mut shards) {
            return Err(Error::ErasureEncode("Reed-Solomon encoding failed".to_string()));
        }
        proof {
            let parity = rs_parity(pieces, m as nat);
            assert forall|a: int| 0 <= a < k + m implies shard_views(shards@)[a] == (pieces
                + parity)[a] by {
                if a < k {
                    assert(shards@[a]@ == before[a]@);
                } else {
                    let j = a - k;
                    assert(shards@[k + j]@ == parity[j]);
                }
            }
            assert(shard_views(shards@) =~= pieces + parity);
            assert(shard_views(shards@).take(k as int) =~= pieces);
            assert(shard_views(shards@).skip(k as int) =~= parity);
        }
        Ok(shards)
    }

    /// Join the first K shards of a complete set and read the framed data.
    pub fn assemble(&self, shards: &Vec<Option<Vec<u8>>>) -> (r: Result<Vec<u8>>)
        requires
            shards@.len() >= self.data_count(),
            forall|i: int| 0 <= i < self.data_count() ==> (#[trigger] shards@[i]).is_some(),
        ensures
            match unframed(
                joined(
                    Seq::new(self.data_count(), |i: int| slot_views(shards@)[i].unwrap()),
                ),
            ) {
                Some(data) => r matches Ok(v) && v@ == data,
                None => r matches Err(e) && e is ErasureDecode,
            },
    {
        let k = self.data_shards;
        let ghost pieces = Seq::new(k as nat, |i: int| slot_views(shards@)[i].unwrap());
        let mut reconstructed: Vec<u8> = Vec::new();
        let mut i: usize = 0;
        while i < k
            invariant
                i <= k <= shards@.len(),
                forall|a: int| 0 <= a < k ==> (#[trigger] shards@[a]).is_some(),
                pieces == Seq::new(k as nat, |a: int| slot_views(shards@)[a].unwrap()),
                reconstructed@ == joined(pieces.take(i as int)),
            decreases k - i,
        {
            proof {
                let next = pieces.take(i + 1);
                assert(next.drop_last() =~= pieces.take(i as int));
                assert(next.last() == pieces[i as int]);
            }
            match &shards[i] {
                Some(bytes) => {
                    append_bytes(&mut reconstructed, bytes.as_slice());
                },
                None => {},
            }
            i += 1;
        }
        assert(pieces.take(k as int) =~= pieces);
        if reconstructed.len() < 8 {
            return Err(
                Error::ErasureDecode(
                    "Reconstructed data too short to contain length header".to_string(),
                ),
            );
        }
        let original_len = u64_from_be(reconstructed.as_slice());
        if original_len > (reconstructed.len() - 8) as u64 {
            return Err(
                Error::ErasureDecode("Invalid original length exceeds available data".to_string()),
            );
        }
        let end = 8 + original_len as usize;
        Ok(copy_range(reconstructed.as_slice(), 8, end))
    }

    /// Decode from available shards back to original data; `None` marks a
    /// missing shard. Missing shards are rebuilt in place.
    ///
    /// With fewer than K shards at hand the call fails with `NotEnoughShards`.
    /// From any K or more shards of an encoding, of one nonzero length, it
    /// gives the encoded data back.
    #[verifier::spinoff_prover]
    pub fn decode(&self, shards: &mut Vec<Option<Vec<u8>>>) -> (r: Result<Vec<u8>>)
        ensures
            ({
                let before = slot_views(old(shards)@);
                let k = self.data_count();
                let n = k + self.parity_count();
                let rebuilt = rs_reconstructed(before, k);
                &&& before.len() != n ==> (r matches Err(e) && e is ErasureDecode)
                &&& before.len() == n && present_count(before) < k ==> (r matches Err(
                    Error::NotEnoughShards { available, required },
                ) && available == present_count(before) && required == k)
                &&& before.len() == n && present_count(before) >= k && !same_nonzero_lengths(before)
                    ==> (r matches Err(e) && e is ErasureDecode)
                &&& before.len() == n && present_count(before) >= k && same_nonzero_lengths(before)
                    ==> {
                    &&& rebuilt.len() == n
                    &&& forall|i: int|
                        0 <= i < n ==> #[trigger] slot_views(final(shards)@)[i] == Some(rebuilt[i])
                    &&& match unframed(joined(rebuilt.take(k as int))) {
                        Some(data) => r matches Ok(v) && v@ == data,
                        None => r matches Err(e) && e is ErasureDecode,
                    }
                }
                &&& !(before.len() == n && present_count(before) >= k && same_nonzero_lengths(
                    before,
                )) ==> final(shards)@ == old(shards)@
                &&& forall|data: Seq<u8>|
                    before.len() == n && erasure_of(
                        before,
                        #[trigger] encoded(data, k, self.parity_count()),
                    ) && present_count(before) >= k && same_nonzero_lengths(before) && data.len()
                        <= u64::MAX ==> (r matches Ok(v) && v@ == data)
            }),
    {
        proof {
            use_type_invariant(self);
        }
        let k = self.data_shards;
        let m = self.parity_shards;
        let total_shards = k + m;
        let ghost before = slot_views(shards@);
        if shards.len() != total_shards {
            return Err(Error::ErasureDecode("Unexpected number of shards".to_string()));
        }
        let available = count_present(shards.as_slice());
        if available < k {
            return Err(Error::NotEnoughShards { available, required: k });
        }
        if !rs_reconstruct(k, m, shards) {
            return Err(Error::ErasureDecode("Reed-Solomon reconstruction failed".to_string()));
        }
        let ghost rebuilt = rs_reconstructed(before, k as nat);
        proof {
            assert forall|i: int| 0 <= i < k implies (#[trigger] shards@[i]).is_some() by {
                assert(slot_views(shards@)[i] == Some(rebuilt[i]));
            }
            assert(Seq::new(k as nat, |i: int| slot_views(shards@)[i].unwrap()) =~= rebuilt.take(
                k as int,
            )) by {
                assert forall|i: int| 0 <= i < k implies slot_views(shards@)[i].unwrap()
                    == rebuilt[i] by {
                    assert(slot_views(shards@)[i] == Some(rebuilt[i]));
                }
            }
        }
        let r = self.assemble(shards);
        proof {
            assert forall|data: Seq<u8>|
                erasure_of(before, #[trigger] encoded(data, k as nat, m as nat)) && present_count(
                    before,
                ) >= k && same_nonzero_lengths(before) && data.len() <= u64::MAX implies (r matches Ok(
                v,
            ) && v@ == data) by {
                lemma_rebuilt_encoding(before, rebuilt, k as nat, m as nat, data);
            }
        }
        r
    }

    /// Get the required shard size for given data length: the data and its
    /// 8-byte length header, divided by K and rounded up.
    pub fn shard_size(&self, data_len: usize) -> (r: usize)
        requires
            data_len + 8 <= usize::MAX,
        ensures
            r == shard_len(data_len as nat, self.data_count()),
    {
        proof {
            use_type_invariant(self);
        }
        let total_len = data_len + 8;
        let whole = total_len / self.data_shards;
        proof {
            lemma_fundamental_div_mod(total_len as int, self.data_shards as int);
            lemma_mod_pos_bound(total_len as int, self.data_shards as int);
            assert(whole * self.data_shards <= total_len) by (nonlinear_arith)
                requires
                    total_len == self.data_shards * (total_len as int / self.data_shards as int) + (
                    total_len as int % self.data_shards as int),
                    whole == total_len as int / self.data_shards as int,
                    0 <= total_len as int % self.data_shards as int,
            ;
            if total_len % self.data_shards > 0 {
                assert(whole < total_len) by (nonlinear_arith)
                    requires
                        total_len == self.data_shards * whole + (total_len as int
                            % self.data_shards as int),
                        0 < total_len as int % self.data_shards as int,
                        self.data_shards >= 1,
                        whole >= 0,
                ;
            }
        }
        if total_len % self.data_shards > 0 {
            whole + 1
        } else {
            whole
        }
    }

    /// Check if we have enough shards to reconstruct: at least K.
    pub fn can_reconstruct(&self, shards: &[Option<Vec<u8>>]) -> (r: bool)
        ensures
            r == (present_count(slot_views(shards@)) >= self.data_count()),
    {
        count_present(shards) >= self.data_shards
    }

    /// Get K (data shards).
    pub fn data_shards(&self) -> (r: usize)
        ensures
            r == self.data_count(),
            r >= 1,
    {
        proof {
            use_type_invariant(self);
        }
        self.data_shards
    }

    /// Get N (total shards).
    pub fn total_shards(&self) -> (r: usize)
        ensures
            r == self.data_count() + self.parity_count(),
            self.data_count() < r <= 255,
    {
        proof {
            use_type_invariant(self);
        }
        self.data_shards + self.parity_shards
    }
}

/// Count the shards at hand.
fn count_present(shards: &[Option<Vec<u8>>]) -> (r: usize)
    ensures
        r == present_count(slot_views(shards@)),
        r <= shards@.len(),
{
    let mut count: usize = 0;
    let mut i: usize = 0;
    while i < shards.len()
        invariant
            i <= shards@.len(),
            count == present_count(slot_views(shards@).take(i as int)),
            count <= i,
        decreases shards@.len() - i,
    {
        proof {
            let next = slot_views(shards@).take(i + 1);
            assert(next.drop_last() =~= slot_views(shards@).take(i as int));
            assert(next.last() == slot_views(shards@)[i as int]);
        }
        if shards[i].is_some() {
            count += 1;
        }
        i += 1;
    }
    assert(slot_views(shards@).take(i as int) =~= slot_views(shards@));
    count
}

/// The shards of a stripe of `total` places after the blocks have been put
/// at their indices: a block with an index outside the stripe is left out,
/// and where an index occurs twice the last block counts.
pub open spec fn placed(blocks: Seq<(u8, Seq<u8>)>, total: nat) -> Seq<Option<Seq<u8>>>
    decreases blocks.len(),
{
    if blocks.len() == 0 {
        Seq::new(total, |i: int| None)
    } else {
        let earlier = placed(blocks.drop_last(), total);
        if blocks.last().0 < total {
            earlier.update(blocks.last().0 as int, Some(blocks.last().1))
        } else {
            earlier
        }
    }
}

/// Put fetched blocks at their places in a stripe of `total` shards, for
/// decoding; the places of the missing blocks stay empty.
pub fn place_blocks(blocks: Vec<(u8, Vec<u8>)>, total: usize) -> (r: Vec<Option<Vec<u8>>>)
    ensures
        r@.len() == total,
        slot_views(r@) == placed(Seq::new(blocks@.len(), |i: int| (blocks@[i].0, blocks@[i].1@)), total as nat),
{
    let ghost all = Seq::new(blocks@.len(), |i: int| (blocks@[i].0, blocks@[i].1@));
    let mut shards: Vec<Option<Vec<u8>>> = Vec::new();
    while shards.len() < total
        invariant
            shards@.len() <= total,
            forall|i: int| 0 <= i < shards@.len() ==> (#[trigger] shards@[i]).is_none(),
        decreases total - shards@.len(),
    {
        shards.push(None);
    }
    assert(slot_views(shards@) =~= placed(all.take(0), total as nat));
    let mut blocks = blocks;
    let n = blocks.len();
    let mut i: usize = 0;
    while i < n
        invariant
            n == blocks@.len(),
            n == all.len(),
            i <= n,
            shards@.len() == total,
            forall|j: int| i <= j < n ==> (blocks@[j].0, blocks@[j].1@) == all[j],
            slot_views(shards@) == placed(all.take(i as int), total as nat),
        decreases n - i,
    {
        proof {
            assert(all.take(i + 1).drop_last() =~= all.take(i as int));
            assert(all.take(i + 1).last() == all[i as int]);
        }
        let mut block: (u8, Vec<u8>) = (0, Vec::new());
        core::mem::swap(&mut block, &mut blocks[i]);
        let index = block.0 as usize;
        if index < total {
            let ghost before = slot_views(shards@);
            shards[index] = Some(block.1);
            assert(slot_views(shards@) =~= before.update(index as int, Some(all[i as int].1)));
        }
        i += 1;
    }
    assert(all.take(n as int) =~= all);
    shards
}

} // verus!
