//! Erasure coding across several remote accounts: parameters, Reed-Solomon
//! codec, stripe placement, account health and the account pool's policy.

pub mod config;
pub mod erasure;
pub mod health;
pub mod pool;
pub mod records;
pub mod stripe;

pub use config::{AccountConfig, ErasureConfig, ErasurePreset, PoolConfig};
pub use health::{AccountHealth, AccountStatus, ArrayHealth, ArrayStatus, HealthTracker};
pub use stripe::{Stripe, StripeManager};
pub use erasure::Encoder;
pub use pool::AccountPool;

use crate::error::{Error, Result};
use crate::raid::erasure::{
    encoded, erasure_of, joined, place_blocks, placed, present_count, rs_reconstructed, same_nonzero_lengths,
    shard_views, unframed,
};
use crate::raid::stripe::rotation;
use vstd::prelude::*;

verus! {

/// Encode one chunk's sealed bytes into the shards of a stripe and place
/// the shards on the accounts: shard `i` is for the account of chunk `i` of
/// the stripe. Without an account, or with the stripe ids used up, nothing
/// is encoded.
pub fn stripe_chunk(encoder: &Encoder, manager: &mut StripeManager, sealed: &[u8], accounts: &[u8]) -> (r:
    Result<(Stripe, Vec<Vec<u8>>)>)
    requires
        old(manager).data() == encoder.data_count(),
        old(manager).total() == encoder.data_count() + encoder.parity_count(),
    ensures
        final(manager).data() == old(manager).data(),
        final(manager).total() == old(manager).total(),
        r.is_ok() == (accounts@.len() > 0 && old(manager).next_id() < u64::MAX && sealed@.len() + 8
            + encoder.data_count() <= usize::MAX),
        r matches Ok(planned) ==> {
            &&& final(manager).next_id() == old(manager).next_id() + 1
            &&& planned.0.well_formed()
            &&& planned.0.stripe_id == old(manager).next_id()
            &&& planned.0.original_size == sealed@.len()
            &&& planned.0.chunks@.len() == planned.1@.len()
            &&& shard_views(planned.1@) == encoded(
                sealed@,
                encoder.data_count(),
                encoder.parity_count(),
            )
            &&& forall|i: int|
                0 <= i < planned.0.chunks@.len() ==> (#[trigger] planned.0.chunks@[i]).account_id
                    == stripe::assigned_account(
                    accounts@,
                    rotation(planned.0.stripe_id as int, accounts@.len() as int),
                    i,
                )
        },
        r matches Err(e) ==> final(manager).next_id() == old(manager).next_id() && (
        e is ErasureFailed || e is ErasureEncode),
{
    let k = encoder.data_shards();
    let n = encoder.total_shards();
    if accounts.len() == 0 {
        return Err(Error::ErasureFailed { available: 0, required: k });
    }
    if !manager.has_stripe_ids() {
        return Err(Error::ErasureEncode("Stripe ids are used up".to_string()));
    }
    let shards = match encoder.encode(sealed) {
        Ok(shards) => shards,
        Err(e) => {
            return Err(e);
        },
    };
    let shard_size = shards[0].len();
    let stripe = manager.create_stripe(sealed.len() as u64, shard_size, accounts);
    proof {
        assert forall|i: int| 0 <= i < stripe.chunks@.len() implies (
        #[trigger] stripe.chunks@[i]).chunk_index == i by {
            assert(i < 256);
        }
    }
    Ok((stripe, shards))
}

/// Give back one chunk's sealed bytes from the blocks of its stripe that
/// could be fetched. From any K blocks of the stripe, of one nonzero length,
/// the bytes that were encoded come back; with fewer than K blocks the call
/// fails with `NotEnoughShards`, with blocks of unlike or zero length, or
/// with rebuilt data shards that do not frame a chunk, with `ErasureDecode`.
pub fn unstripe_chunk(encoder: &Encoder, blocks: Vec<(u8, Vec<u8>)>) -> (r: Result<Vec<u8>>)
    ensures
        ({
            let k = encoder.data_count();
            let before = placed(
                Seq::new(blocks@.len(), |i: int| (blocks@[i].0, blocks@[i].1@)),
                k + encoder.parity_count(),
            );
            &&& present_count(before) < k ==> (r matches Err(
                Error::NotEnoughShards { available, required },
            ) && available == present_count(before) && required == k)
            &&& present_count(before) >= k && !same_nonzero_lengths(before) ==> (r matches Err(e)
                && e is ErasureDecode)
            &&& present_count(before) >= k && same_nonzero_lengths(before) ==> match unframed(
                joined(rs_reconstructed(before, k).take(k as int)),
            ) {
                Some(data) => r matches Ok(v) && v@ == data,
                None => r matches Err(e) && e is ErasureDecode,
            }
            &&& forall|data: Seq<u8>|
                erasure_of(before, #[trigger] encoded(data, k, encoder.parity_count()))
                    && present_count(before) >= k && same_nonzero_lengths(before) && data.len()
                    <= u64::MAX ==> (r matches Ok(v) && v@ == data)
        }),
{
    let n = encoder.total_shards();
    let mut shards = place_blocks(blocks, n);
    encoder.decode(&mut shards)
}

} // verus!
