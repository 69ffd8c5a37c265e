use tgcryptfs::raid::stripe::{AssignmentStrategy, ChunkLocation};
use tgcryptfs::raid::{Stripe, StripeManager};

#[test]
fn test_stripe_creation() {
    let stripe = Stripe::new(1, 1024, 512, 2, 3);
    assert_eq!(stripe.stripe_id, 1);
    assert_eq!(stripe.original_size, 1024);
    assert_eq!(stripe.chunk_size, 512);
    assert_eq!(stripe.data_chunks, 2);
    assert_eq!(stripe.total_chunks, 3);
    assert!(stripe.chunks.is_empty());
}

#[test]
fn test_chunk_location() {
    let location = ChunkLocation::new(0, 1, true)
        .with_message_id(12345)
        .with_hash("abc123".to_string())
        .mark_verified();

    assert_eq!(location.chunk_index, 0);
    assert_eq!(location.account_id, 1);
    assert!(location.is_data);
    assert_eq!(location.message_id, Some(12345));
    assert_eq!(location.hash, Some("abc123".to_string()));
    assert!(location.verified);
}

#[test]
fn test_stripe_add_chunks() {
    let mut stripe = Stripe::new(1, 1024, 512, 2, 3);

    stripe.add_chunk(ChunkLocation::new(0, 0, true));
    stripe.add_chunk(ChunkLocation::new(1, 1, true));
    stripe.add_chunk(ChunkLocation::new(2, 2, false));

    assert_eq!(stripe.chunks.len(), 3);
    assert!(stripe.get_chunk(0).is_some());
    assert!(stripe.get_chunk(1).is_some());
    assert!(stripe.get_chunk(2).is_some());
    assert!(stripe.get_chunk(3).is_none());
}

#[test]
fn test_stripe_is_complete() {
    let mut stripe = Stripe::new(1, 1024, 512, 2, 3);

    stripe.add_chunk(ChunkLocation::new(0, 0, true).with_message_id(1));
    stripe.add_chunk(ChunkLocation::new(1, 1, true).with_message_id(2));

    // Not complete - missing chunk 2
    assert!(!stripe.is_complete());

    stripe.add_chunk(ChunkLocation::new(2, 2, false).with_message_id(3));

    // Now complete
    assert!(stripe.is_complete());
}

#[test]
fn test_stripe_can_reconstruct() {
    let mut stripe = Stripe::new(1, 1024, 512, 2, 3);

    // Add 2 chunks with message IDs (K=2)
    stripe.add_chunk(ChunkLocation::new(0, 0, true).with_message_id(1));
    stripe.add_chunk(ChunkLocation::new(1, 1, true).with_message_id(2));

    assert!(stripe.can_reconstruct());
    assert_eq!(stripe.available_count(), 2);
}

#[test]
fn test_stripe_missing_chunks() {
    let mut stripe = Stripe::new(1, 1024, 512, 2, 3);

    stripe.add_chunk(ChunkLocation::new(0, 0, true));
    stripe.add_chunk(ChunkLocation::new(2, 2, false));

    let missing = stripe.missing_chunks();
    assert_eq!(missing, vec![1]);
}

#[test]
fn test_stripe_chunks_for_account() {
    let mut stripe = Stripe::new(1, 1024, 512, 2, 4);

    stripe.add_chunk(ChunkLocation::new(0, 0, true));
    stripe.add_chunk(ChunkLocation::new(1, 1, true));
    stripe.add_chunk(ChunkLocation::new(2, 0, false)); // Same account as chunk 0
    stripe.add_chunk(ChunkLocation::new(3, 1, false));

    let account_0_chunks = stripe.chunks_for_account(0);
    assert_eq!(account_0_chunks.len(), 2);
    assert_eq!(account_0_chunks[0].chunk_index, 0);
    assert_eq!(account_0_chunks[1].chunk_index, 2);
}

#[test]
fn test_stripe_manager_creation() {
    let manager = StripeManager::new(3, 5);
    assert_eq!(manager.data_chunks(), 3);
    assert_eq!(manager.total_chunks(), 5);
}

#[test]
fn test_stripe_manager_create_stripe() {
    let mut manager = StripeManager::new(2, 3);
    let accounts = vec![0, 1, 2];

    let stripe = manager.create_stripe(1024, 512, &accounts);

    assert_eq!(stripe.stripe_id, 1);
    assert_eq!(stripe.chunks.len(), 3);
    assert_eq!(stripe.data_chunks, 2);
    assert_eq!(stripe.total_chunks, 3);

    // Check assignments
    for chunk in &stripe.chunks {
        assert!(accounts.contains(&chunk.account_id));
    }

    // First 2 chunks should be data, last should be parity
    assert!(stripe.chunks[0].is_data);
    assert!(stripe.chunks[1].is_data);
    assert!(!stripe.chunks[2].is_data);
}

#[test]
fn test_stripe_manager_increments_id() {
    let mut manager = StripeManager::new(2, 3);
    let accounts = vec![0, 1, 2];

    let stripe1 = manager.create_stripe(1024, 512, &accounts);
    let stripe2 = manager.create_stripe(2048, 512, &accounts);

    assert_eq!(stripe1.stripe_id, 1);
    assert_eq!(stripe2.stripe_id, 2);
}

#[test]
fn test_stripe_manager_round_robin() {
    let mut manager = StripeManager::new(4, 6);
    let accounts = vec![0, 1, 2];

    let stripe = manager.create_stripe(1024, 256, &accounts);

    // With 3 accounts and 6 chunks, should see pattern: 0, 1, 2, 0, 1, 2
    assert_eq!(stripe.chunks[0].account_id, 0);
    assert_eq!(stripe.chunks[1].account_id, 1);
    assert_eq!(stripe.chunks[2].account_id, 2);
    assert_eq!(stripe.chunks[3].account_id, 0);
    assert_eq!(stripe.chunks[4].account_id, 1);
    assert_eq!(stripe.chunks[5].account_id, 2);
}

#[test]
fn test_plan_redistribution() {
    let mut manager = StripeManager::new(2, 3);
    let accounts = vec![0, 1, 2];

    let stripe = manager.create_stripe(1024, 512, &accounts);

    // Plan redistribution if account 0 fails
    let remaining = vec![1, 2];
    let plan = manager.plan_redistribution(&stripe, 0, &remaining);

    // Should have a plan for chunk 0 (was on account 0)
    assert!(plan.contains_key(&0));
    let new_account = plan.get(&0).unwrap();
    assert!(remaining.contains(new_account));
}

#[test]
fn test_set_next_stripe_id() {
    let mut manager = StripeManager::new(2, 3);
    manager.set_next_stripe_id(100);

    let accounts = vec![0, 1, 2];
    let stripe = manager.create_stripe(1024, 512, &accounts);

    assert_eq!(stripe.stripe_id, 100);
}

#[test]
fn test_assignment_strategy() {
    let manager = StripeManager::new(2, 3)
        .with_strategy(AssignmentStrategy::LoadBalanced);

    assert_eq!(manager.data_chunks(), 2);
}

#[test]
fn stripes_rotate_their_first_account() {
    let mut manager = StripeManager::new(2, 3);
    let accounts = vec![10, 20, 30];
    let first = manager.create_stripe(1, 1, &accounts);
    let second = manager.create_stripe(1, 1, &accounts);
    let third = manager.create_stripe(1, 1, &accounts);
    let fourth = manager.create_stripe(1, 1, &accounts);
    let placed = |s: &Stripe| -> Vec<u8> { s.chunks.iter().map(|c| c.account_id).collect() };
    assert_eq!(placed(&first), vec![10, 20, 30]);
    assert_eq!(placed(&second), vec![20, 30, 10]);
    assert_eq!(placed(&third), vec![30, 10, 20]);
    assert_eq!(placed(&fourth), vec![10, 20, 30]);
    let indices: Vec<u8> = second.chunks.iter().map(|c| c.chunk_index).collect();
    assert_eq!(indices, vec![0, 1, 2]);
}

#[test]
fn redistribution_moves_every_chunk_of_the_failed_account() {
    let manager = StripeManager::new(2, 4);
    let mut stripe = Stripe::new(7, 100, 25, 2, 4);
    stripe.add_chunk(ChunkLocation::new(0, 5, true));
    stripe.add_chunk(ChunkLocation::new(1, 6, true));
    stripe.add_chunk(ChunkLocation::new(2, 5, false));
    stripe.add_chunk(ChunkLocation::new(3, 5, false));
    let plan = manager.plan_redistribution(&stripe, 5, &[5, 6, 7]);
    assert_eq!(plan.len(), 3);
    assert_eq!(plan.get(&0), Some(&6));
    assert_eq!(plan.get(&2), Some(&7));
    assert_eq!(plan.get(&3), Some(&6));
    // Nowhere to go: nothing moves.
    assert!(manager.plan_redistribution(&stripe, 5, &[5]).is_empty());
    assert!(manager.plan_redistribution(&stripe, 9, &[5, 6]).is_empty());
}

#[test]
fn stripe_missing_chunks_of_an_empty_stripe() {
    let stripe = Stripe::new(1, 0, 0, 2, 4);
    assert_eq!(stripe.missing_chunks(), vec![0, 1, 2, 3]);
    assert!(!stripe.is_complete());
    assert!(!stripe.can_reconstruct());
    assert_eq!(AssignmentStrategy::default(), AssignmentStrategy::RoundRobin);
}
