use tgcryptfs::chunk::stripe_codec::{
    decode_erasure_manifest, decode_stripe, encode_erasure_manifest, encode_stripe, get_block, put_block,
};
use tgcryptfs::chunk::{BlockLocation, ErasureChunkManifest, ErasureChunkRef, StripeInfo};
use tgcryptfs::codec::{get_u8, put_u8};
use tgcryptfs::error::Error;

fn stripe() -> StripeInfo {
    let mut stripe = StripeInfo::new(2, 1, 4096);
    stripe.blocks.push(BlockLocation { account_id: 3, message_id: Some(-5), block_index: 0, uploaded_at: Some(-1) });
    stripe.blocks.push(BlockLocation { account_id: 4, message_id: None, block_index: 1, uploaded_at: None });
    stripe.blocks.push(BlockLocation { account_id: 5, message_id: Some(77), block_index: 2, uploaded_at: Some(1_700_000_000) });
    stripe
}

fn erasure_manifest() -> ErasureChunkManifest {
    let mut manifest = ErasureChunkManifest::new(9, 2, 3);
    manifest.total_size = 12;
    manifest.file_hash = "ff".to_string();
    manifest.chunks.push(ErasureChunkRef {
        id: "c0".to_string(),
        offset: 0,
        original_size: 12,
        compressed: true,
        stripe: stripe(),
        version: 4,
    });
    manifest.chunks.push(ErasureChunkRef {
        id: String::new(),
        offset: 12,
        original_size: 0,
        compressed: false,
        stripe: StripeInfo::new(2, 1, 0),
        version: 0,
    });
    manifest
}

#[test]
fn small_numbers_at_rest() {
    let mut out: Vec<u8> = Vec::new();
    put_u8(&mut out, 0);
    put_u8(&mut out, 255);
    assert_eq!(out, vec![0, 255]);
    assert_eq!(get_u8(&out, 0), Some((0, 1)));
    assert_eq!(get_u8(&out, 1), Some((255, 2)));
    assert_eq!(get_u8(&out, 2), None);
}

#[test]
fn block_location_at_rest() {
    let mut out: Vec<u8> = vec![9];
    put_block(&mut out, &stripe().blocks[0]);
    assert_eq!(
        out,
        vec![
            9, // what stood there
            3, // account
            1, 0xff, 0xff, 0xff, 0xfb, // handle -5
            0, // index
            1, 0xff, 0xff, 0xff, 0xff, 0xff, 0xff, 0xff, 0xff, // time -1
        ]
    );
    assert_eq!(get_block(&out, 1), Some((stripe().blocks[0].clone(), out.len())));
    let mut out: Vec<u8> = Vec::new();
    put_block(&mut out, &stripe().blocks[1]);
    assert_eq!(out, vec![4, 0, 1, 0]);
    assert_eq!(get_block(&out, 0), Some((stripe().blocks[1].clone(), 4)));
    // A presence byte is 0 or 1.
    assert_eq!(get_block(&[4, 2, 1, 0], 0), None);
    assert_eq!(get_block(&[4, 0, 1], 0), None);
}

#[test]
fn stripe_at_rest() {
    let bytes = encode_stripe(&stripe());
    assert_eq!(&bytes[..18], &[2, 1, 0, 0, 0, 0, 0, 0, 0x10, 0, 0, 0, 0, 0, 0, 0, 0, 3]);
    assert_eq!(bytes.len(), 18 + 16 + 4 + 16);
    let back = decode_stripe(&bytes).unwrap();
    assert_eq!(back.blocks, stripe().blocks);
    assert_eq!(back.data_count, 2);
    assert_eq!(back.parity_count, 1);
    assert_eq!(back.block_size, 4096);
    for cut in 0..bytes.len() {
        assert!(matches!(decode_stripe(&bytes[..cut]), Err(Error::Deserialization(_))));
    }
    let mut longer = bytes.clone();
    longer.push(0);
    assert!(matches!(decode_stripe(&longer), Err(Error::Deserialization(_))));
    // A count that promises more blocks than there are bytes.
    let mut greedy = bytes.clone();
    greedy[10] = 0xff;
    assert!(matches!(decode_stripe(&greedy), Err(Error::Deserialization(_))));
}

#[test]
fn erasure_manifest_at_rest() {
    let manifest = erasure_manifest();
    let bytes = encode_erasure_manifest(&manifest);
    assert_eq!(bytes[0], 1);
    assert_eq!(&bytes[1..9], &[0, 0, 0, 0, 0, 0, 0, 9]);
    assert_eq!(&bytes[bytes.len() - 2..], &[2, 3]);
    let back = decode_erasure_manifest(&bytes).unwrap();
    assert_eq!(back.version, 9);
    assert_eq!(back.total_size, 12);
    assert_eq!(back.file_hash, "ff");
    assert_eq!(back.data_chunks, 2);
    assert_eq!(back.total_chunks, 3);
    assert_eq!(back.chunks.len(), 2);
    assert_eq!(back.chunks[0].id, "c0");
    assert_eq!(back.chunks[0].original_size, 12);
    assert!(back.chunks[0].compressed);
    assert_eq!(back.chunks[0].version, 4);
    assert_eq!(back.chunks[0].stripe.blocks, stripe().blocks);
    assert_eq!(back.chunks[0].stripe.available_blocks(), 2);
    assert_eq!(back.chunks[0].stripe.missing_blocks(), vec![1]);
    assert_eq!(back.chunks[1].id, "");
    assert_eq!(back.chunks[1].offset, 12);
    assert!(back.chunks[1].stripe.blocks.is_empty());
    assert_eq!(encode_erasure_manifest(&back), bytes);
}

#[test]
fn erasure_manifest_at_rest_is_checked() {
    let bytes = encode_erasure_manifest(&erasure_manifest());
    for cut in 0..bytes.len() {
        assert!(matches!(decode_erasure_manifest(&bytes[..cut]), Err(Error::Deserialization(_))));
    }
    let mut longer = bytes.clone();
    longer.push(0);
    assert!(matches!(decode_erasure_manifest(&longer), Err(Error::Deserialization(_))));
    let mut other = bytes.clone();
    other[0] = 0;
    assert!(matches!(decode_erasure_manifest(&other), Err(Error::Deserialization(_))));
    // The compression flag of the first reference is 0 or 1.
    let flag = 1 + 24 + 8 + 2 + 16;
    assert_eq!(bytes[flag], 1);
    let mut bad = bytes.clone();
    bad[flag] = 2;
    assert!(matches!(decode_erasure_manifest(&bad), Err(Error::Deserialization(_))));
    // An empty manifest is its fixed fields.
    let empty = ErasureChunkManifest::new(0, 4, 6);
    let bytes = encode_erasure_manifest(&empty);
    assert_eq!(bytes.len(), 1 + 24 + 8 + 2);
    assert!(decode_erasure_manifest(&bytes).unwrap().chunks.is_empty());
}
