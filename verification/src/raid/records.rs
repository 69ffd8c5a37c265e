//! Where the stripes of chunks are kept.
//!
//! A chunk that is stored across the accounts has a stripe: the places of
//! its blocks. The stripe is kept among the metadata values of the store,
//! sealed like every value there, under a name made of the chunk's id. It is
//! what a read needs to fetch the blocks, and what a rebuild changes.

use crate::chunk::stripe_codec::{decode_stripe, decoded_stripe, encode_stripe, ser_stripe, StripeInfoView};
use crate::chunk::StripeInfo;
use crate::crypto::encryption::MAX_PLAINTEXT_LEN;
use crate::error::Result;
use crate::metadata::store::{opened, MetadataStore};
use vstd::prelude::*;
use vstd::string::StringExecFns;

verus! {

/// The name under which the stripe of a chunk is kept.
pub open spec fn stripe_name(chunk_id: Seq<char>) -> Seq<char> {
    "stripe:"@ + chunk_id
}

/// The stripe that the store keeps for a chunk: what the value under the
/// chunk's name opens and decodes to.
pub open spec fn kept_stripe(store: &MetadataStore, chunk_id: Seq<char>) -> Option<StripeInfoView> {
    if store.sealed_values().contains_key(stripe_name(chunk_id)) {
        match opened(store.key_bytes(), store.sealed_values()[stripe_name(chunk_id)]@) {
            Some(bytes) => decoded_stripe(bytes),
            None => None,
        }
    } else {
        None
    }
}

/// The name under which the stripe of a chunk is kept.
pub fn stripe_key(chunk_id: &str) -> (r: String)
    ensures
        r@ == stripe_name(chunk_id@),
{
    let mut name = String::from_str("stripe:");
    name.append(chunk_id);
    name
}

/// Keep the stripe of a chunk, in place of the one that was kept for it.
pub fn save_stripe(store: &mut MetadataStore, chunk_id: &str, info: &StripeInfo) -> (r: Result<()>)
    requires
        old(store).wf(),
    ensures
        final(store).wf(),
        final(store).inodes() == old(store).inodes(),
        final(store).index() == old(store).index(),
        final(store).chunk_rows() == old(store).chunk_rows(),
        final(store).key_bytes() == old(store).key_bytes(),
        final(store).namespace() == old(store).namespace(),
        final(store).next() == old(store).next(),
        ser_stripe(info@).len() <= MAX_PLAINTEXT_LEN ==> r.is_ok(),
        r.is_ok() ==> kept_stripe(final(store), chunk_id@) == Some(info@) && final(store).sealed_values().remove(stripe_name(chunk_id@)) == old(store).sealed_values().remove(
            stripe_name(chunk_id@),
        ),
        r matches Err(e) ==> e is Encryption && final(store).sealed_values() == old(store).sealed_values(),
{
    let name = stripe_key(chunk_id);
    let bytes = encode_stripe(info);
    store.save_metadata(name.as_str(), bytes.as_slice())
}

/// The stripe that is kept for a chunk, if one is. A value that does not
/// authenticate gives `Decryption`, one that holds no stripe
/// `Deserialization`.
pub fn load_stripe(store: &MetadataStore, chunk_id: &str) -> (r: Result<Option<StripeInfo>>)
    requires
        store.wf(),
    ensures
        match r {
            Ok(Some(info)) => kept_stripe(store, chunk_id@) == Some(info@),
            Ok(None) => !store.sealed_values().contains_key(stripe_name(chunk_id@)),
            Err(e) => store.sealed_values().contains_key(stripe_name(chunk_id@)) && kept_stripe(
                store,
                chunk_id@,
            ).is_none() && (e is Decryption || e is Deserialization),
        },
{
    let name = stripe_key(chunk_id);
    match store.get_metadata(name.as_str()) {
        Ok(Some(bytes)) => {
            match decode_stripe(bytes.as_slice()) {
                Ok(info) => Ok(Some(info)),
                Err(e) => Err(e),
            }
        },
        Ok(None) => Ok(None),
        Err(e) => Err(e),
    }
}

/// Forget the stripe of a chunk, when the chunk itself goes. The result
/// tells whether one was kept.
pub fn forget_stripe(store: &mut MetadataStore, chunk_id: &str) -> (r: bool)
    requires
        old(store).wf(),
    ensures
        final(store).wf(),
        final(store).inodes() == old(store).inodes(),
        final(store).index() == old(store).index(),
        final(store).chunk_rows() == old(store).chunk_rows(),
        final(store).key_bytes() == old(store).key_bytes(),
        final(store).namespace() == old(store).namespace(),
        final(store).next() == old(store).next(),
        r == old(store).sealed_values().contains_key(stripe_name(chunk_id@)),
        final(store).sealed_values() == old(store).sealed_values().remove(stripe_name(chunk_id@)),
        kept_stripe(final(store), chunk_id@).is_none(),
{
    let name = stripe_key(chunk_id);
    store.remove_metadata(name.as_str())
}

} // verus!
