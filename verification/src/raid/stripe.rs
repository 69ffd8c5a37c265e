//! Stripe management for distributing chunks across accounts.
//!
//! A stripe is the set of chunks (data and parity) derived from one data
//! block, each placed on an account of the pool.

use crate::clock::now_unix_secs;
use std::collections::HashMap;
use vstd::prelude::*;

verus! {

/// A stripe: N chunks (K data and N-K parity) of one data block, of which any
/// K suffice to reconstruct it.
#[derive(Debug, Clone)]
pub struct Stripe {
    /// Unique stripe identifier.
    pub stripe_id: u64,
    /// Original data size before encoding.
    pub original_size: u64,
    /// Chunk size in bytes.
    pub chunk_size: usize,
    /// Number of data chunks (K).
    pub data_chunks: usize,
    /// Total chunks including parity (N).
    pub total_chunks: usize,
    /// Chunk locations indexed by chunk number (0 to N-1).
    pub chunks: Vec<ChunkLocation>,
    /// Timestamp when stripe was created (Unix seconds).
    pub created_at: i64,
}

/// Location of a chunk within the storage pool.
#[derive(Debug, Clone)]
pub struct ChunkLocation {
    /// Chunk index within the stripe (0 to N-1).
    pub chunk_index: u8,
    /// Account id where this chunk is stored.
    pub account_id: u8,
    /// Handle of the remote object that holds the chunk.
    pub message_id: Option<i32>,
    /// Whether this is a data chunk (vs parity).
    pub is_data: bool,
    /// Hash of the chunk data for verification.
    pub hash: Option<String>,
    /// Whether this chunk has been verified as readable.
    pub verified: bool,
}

impl ChunkLocation {
    /// Create a new chunk location: not uploaded, not hashed, not verified.
    pub fn new(chunk_index: u8, account_id: u8, is_data: bool) -> (r: Self)
        ensures
            r == Self::placed(chunk_index, account_id, is_data),
    {
        ChunkLocation {
            chunk_index,
            account_id,
            message_id: None,
            is_data,
            hash: None,
            verified: false,
        }
    }

    /// A location that has been assigned and nothing more.
    pub open spec fn placed(chunk_index: u8, account_id: u8, is_data: bool) -> Self {
        ChunkLocation {
            chunk_index,
            account_id,
            message_id: None,
            is_data,
            hash: None,
            verified: false,
        }
    }

    /// Set the message id after upload.
    pub fn with_message_id(self, message_id: i32) -> (r: Self)
        ensures
            r == (ChunkLocation { message_id: Some(message_id), ..self }),
    {
        let mut location = self;
        location.message_id = Some(message_id);
        location
    }

    /// Set the hash for verification.
    pub fn with_hash(self, hash: String) -> (r: Self)
        ensures
            r == (ChunkLocation { hash: Some(hash), ..self }),
    {
        let mut location = self;
        location.hash = Some(hash);
        location
    }

    /// Mark as verified.
    pub fn mark_verified(self) -> (r: Self)
        ensures
            r == (ChunkLocation { verified: true, ..self }),
    {
        let mut location = self;
        location.verified = true;
        location
    }
}

/// The chunks stored on `account_id`, in stripe order.
pub open spec fn on_account(chunks: Seq<ChunkLocation>, account_id: u8) -> Seq<ChunkLocation>
    decreases chunks.len(),
{
    if chunks.len() == 0 {
        chunks
    } else if chunks.last().account_id == account_id {
        on_account(chunks.drop_last(), account_id).push(chunks.last())
    } else {
        on_account(chunks.drop_last(), account_id)
    }
}

/// Number of chunks that carry a remote handle.
pub open spec fn uploaded_chunks(chunks: Seq<ChunkLocation>) -> nat
    decreases chunks.len(),
{
    if chunks.len() == 0 {
        0
    } else {
        uploaded_chunks(chunks.drop_last()) + if chunks.last().message_id.is_some() {
            1nat
        } else {
            0nat
        }
    }
}

/// Some chunk carries the index `index`.
pub open spec fn has_index(chunks: Seq<ChunkLocation>, index: int) -> bool {
    exists|i: int| 0 <= i < chunks.len() && (#[trigger] chunks[i]).chunk_index == index
}

/// The indices below `limit` that no chunk carries, ascending.
pub open spec fn missing_below(chunks: Seq<ChunkLocation>, limit: int) -> Seq<u8>
    decreases limit,
{
    if limit <= 0 {
        Seq::empty()
    } else if has_index(chunks, limit - 1) {
        missing_below(chunks, limit - 1)
    } else {
        missing_below(chunks, limit - 1).push((limit - 1) as u8)
    }
}

impl Stripe {
    /// A stripe that is ready for upload: at most 255 chunks, at least one of
    /// them data and one parity, and chunk `i` carries index `i`.
    pub open spec fn well_formed(&self) -> bool {
        &&& 1 <= self.data_chunks < self.total_chunks <= 255
        &&& self.chunks@.len() == self.total_chunks
        &&& forall|i: int|
            0 <= i < self.chunks@.len() ==> (#[trigger] self.chunks@[i]).chunk_index == i
    }

    /// Create a new stripe with the given id and parameters, without chunks,
    /// stamped with the current time.
    pub fn new(
        stripe_id: u64,
        original_size: u64,
        chunk_size: usize,
        data_chunks: usize,
        total_chunks: usize,
    ) -> (r: Self)
        ensures
            r.stripe_id == stripe_id,
            r.original_size == original_size,
            r.chunk_size == chunk_size,
            r.data_chunks == data_chunks,
            r.total_chunks == total_chunks,
            r.chunks@.len() == 0,
    {
        Stripe {
            stripe_id,
            original_size,
            chunk_size,
            data_chunks,
            total_chunks,
            chunks: Vec::new(),
            created_at: now_unix_secs(),
        }
    }

    /// Add a chunk location to the stripe.
    pub fn add_chunk(&mut self, location: ChunkLocation)
        ensures
            *final(self) == (Stripe { chunks: final(self).chunks, ..*old(self) }),
            final(self).chunks@ == old(self).chunks@.push(location),
    {
        self.chunks.push(location);
    }

    /// Get chunk location by index: the first chunk that carries it.
    pub fn get_chunk(&self, index: u8) -> (r: Option<&ChunkLocation>)
        ensures
            r.is_some() == has_index(self.chunks@, index as int),
            r matches Some(c) ==> exists|i: int|
                0 <= i < self.chunks@.len() && *c == #[trigger] self.chunks@[i] && c.chunk_index
                    == index && forall|j: int|
                    0 <= j < i ==> (#[trigger] self.chunks@[j]).chunk_index != index,
    {
        let mut i: usize = 0;
        while i < self.chunks.len()
            invariant
                i <= self.chunks@.len(),
                forall|j: int| 0 <= j < i ==> (#[trigger] self.chunks@[j]).chunk_index != index,
            decreases self.chunks@.len() - i,
        {
            if self.chunks[i].chunk_index == index {
                return Some(&self.chunks[i]);
            }
            i += 1;
        }
        None
    }

    /// Get all chunks for a specific account, in stripe order.
    pub fn chunks_for_account(&self, account_id: u8) -> (r: Vec<&ChunkLocation>)
        ensures
            r@.len() == on_account(self.chunks@, account_id).len(),
            forall|i: int|
                0 <= i < r@.len() ==> *(#[trigger] r@[i]) == on_account(self.chunks@, account_id)[i],
    {
        let mut out: Vec<&ChunkLocation> = Vec::new();
        let mut i: usize = 0;
        while i < self.chunks.len()
            invariant
                i <= self.chunks@.len(),
                out@.len() == on_account(self.chunks@.take(i as int), account_id).len(),
                forall|j: int|
                    0 <= j < out@.len() ==> *(#[trigger] out@[j]) == on_account(
                        self.chunks@.take(i as int),
                        account_id,
                    )[j],
            decreases self.chunks@.len() - i,
        {
            proof {
                let next = self.chunks@.take(i + 1);
                assert(next.drop_last() =~= self.chunks@.take(i as int));
                assert(next.last() == self.chunks@[i as int]);
            }
            if self.chunks[i].account_id == account_id {
                out.push(&self.chunks[i]);
            }
            i += 1;
        }
        assert(self.chunks@.take(i as int) =~= self.chunks@);
        out
    }

    /// Check if all chunks have been uploaded (have message ids).
    pub fn is_complete(&self) -> (r: bool)
        ensures
            r == (self.chunks@.len() == self.total_chunks && forall|i: int|
                0 <= i < self.chunks@.len() ==> (#[trigger] self.chunks@[i]).message_id.is_some()),
    {
        if self.chunks.len() != self.total_chunks {
            return false;
        }
        let mut i: usize = 0;
        while i < self.chunks.len()
            invariant
                i <= self.chunks@.len(),
                forall|j: int| 0 <= j < i ==> (#[trigger] self.chunks@[j]).message_id.is_some(),
            decreases self.chunks@.len() - i,
        {
            if self.chunks[i].message_id.is_none() {
                return false;
            }
            i += 1;
        }
        true
    }

    /// Count available chunks (those with message ids).
    pub fn available_count(&self) -> (r: usize)
        ensures
            r == uploaded_chunks(self.chunks@),
    {
        let mut count: usize = 0;
        let mut i: usize = 0;
        while i < self.chunks.len()
            invariant
                i <= self.chunks@.len(),
                count == uploaded_chunks(self.chunks@.take(i as int)),
                count <= i,
            decreases self.chunks@.len() - i,
        {
            proof {
                let next = self.chunks@.take(i + 1);
                assert(next.drop_last() =~= self.chunks@.take(i as int));
                assert(next.last() == self.chunks@[i as int]);
            }
            if self.chunks[i].message_id.is_some() {
                count += 1;
            }
            i += 1;
        }
        assert(self.chunks@.take(i as int) =~= self.chunks@);
        count
    }

    /// Check if stripe can be reconstructed (has at least K chunks).
    pub fn can_reconstruct(&self) -> (r: bool)
        ensures
            r == (uploaded_chunks(self.chunks@) >= self.data_chunks),
    {
        self.available_count() >= self.data_chunks
    }

    /// Whether some chunk carries `index`.
    fn carries(&self, index: u8) -> (r: bool)
        ensures
            r == has_index(self.chunks@, index as int),
    {
        self.get_chunk(index).is_some()
    }

    /// Get missing chunk indices: those below N that no chunk of the stripe
    /// carries, ascending. A stripe has at most 255 chunks.
    pub fn missing_chunks(&self) -> (r: Vec<u8>)
        requires
            self.total_chunks <= 255,
        ensures
            r@ == missing_below(self.chunks@, self.total_chunks as int),
    {
        let limit = self.total_chunks as u8;
        let mut out: Vec<u8> = Vec::new();
        let mut i: u8 = 0;
        while i < limit
            invariant
                i <= limit,
                out@ == missing_below(self.chunks@, i as int),
            decreases limit - i,
        {
            if !self.carries(i) {
                out.push(i);
            }
            i += 1;
        }
        out
    }
}

/// Strategy for assigning chunks to accounts.
#[derive(Debug, Clone, Copy, PartialEq, Eq, Structural)]
pub enum AssignmentStrategy {
    /// Round-robin across all accounts.
    RoundRobin,
    /// Distribute evenly based on current load.
    LoadBalanced,
    /// Assign to accounts with highest priority first.
    PriorityBased,
}

impl Default for AssignmentStrategy {
    fn default() -> (r: Self)
        ensures
            r == AssignmentStrategy::RoundRobin,
    {
        AssignmentStrategy::RoundRobin
    }
}

/// Manages stripe creation and distribution across accounts.
pub struct StripeManager {
    /// Number of data chunks (K).
    data_chunks: usize,
    /// Total chunks (N).
    total_chunks: usize,
    /// Next stripe id to assign.
    next_stripe_id: u64,
    /// Account assignment strategy.
    assignment_strategy: AssignmentStrategy,
}

/// Offset into the account list at which stripe `stripe_id` starts its
/// round-robin: stripe 1 starts at the first account, stripe 2 at the second,
/// and so on around the list.
pub open spec fn rotation(stripe_id: int, num_accounts: int) -> int {
    let r = stripe_id % num_accounts;
    if r == 0 {
        num_accounts - 1
    } else {
        r - 1
    }
}

/// Account of chunk `i` in a stripe that starts its round-robin at `offset`.
pub open spec fn assigned_account(accounts: Seq<u8>, offset: int, i: int) -> u8 {
    accounts[(i + offset) % (accounts.len() as int)]
}

/// The accounts other than `failed`, in order.
pub open spec fn surviving(accounts: Seq<u8>, failed: u8) -> Seq<u8>
    decreases accounts.len(),
{
    if accounts.len() == 0 {
        accounts
    } else if accounts.last() != failed {
        surviving(accounts.drop_last(), failed).push(accounts.last())
    } else {
        surviving(accounts.drop_last(), failed)
    }
}

/// The move plan for the chunks `affected`: the chunk at position `i` goes to
/// `remaining[i % remaining.len()]`; with no account remaining nothing moves.
/// For an index named twice the later position counts.
pub open spec fn redistribution(affected: Seq<ChunkLocation>, remaining: Seq<u8>) -> Map<u8, u8>
    decreases affected.len(),
{
    if affected.len() == 0 || remaining.len() == 0 {
        Map::empty()
    } else {
        redistribution(affected.drop_last(), remaining).insert(
            affected.last().chunk_index,
            remaining[(affected.len() - 1) % (remaining.len() as int)],
        )
    }
}

impl StripeManager {
    /// Number of data chunks (K).
    pub closed spec fn data(&self) -> usize {
        self.data_chunks
    }

    /// Total chunks (N).
    pub closed spec fn total(&self) -> usize {
        self.total_chunks
    }

    /// The id that the next stripe gets.
    pub closed spec fn next_id(&self) -> u64 {
        self.next_stripe_id
    }

    /// The assignment strategy.
    pub closed spec fn strategy(&self) -> AssignmentStrategy {
        self.assignment_strategy
    }

    /// Create a new stripe manager: round-robin, first stripe id 1.
    pub fn new(data_chunks: usize, total_chunks: usize) -> (r: Self)
        ensures
            r.data() == data_chunks,
            r.total() == total_chunks,
            r.next_id() == 1,
            r.strategy() == AssignmentStrategy::RoundRobin,
    {
        StripeManager {
            data_chunks,
            total_chunks,
            next_stripe_id: 1,
            assignment_strategy: AssignmentStrategy::RoundRobin,
        }
    }

    /// Create with a specific assignment strategy.
    pub fn with_strategy(self, strategy: AssignmentStrategy) -> (r: Self)
        ensures
            r.data() == self.data(),
            r.total() == self.total(),
            r.next_id() == self.next_id(),
            r.strategy() == strategy,
    {
        let mut manager = self;
        manager.assignment_strategy = strategy;
        manager
    }

    /// Set the next stripe id (for recovery/continuation).
    pub fn set_next_stripe_id(&mut self, id: u64)
        ensures
            final(self).next_id() == id,
            final(self).data() == old(self).data(),
            final(self).total() == old(self).total(),
            final(self).strategy() == old(self).strategy(),
    {
        self.next_stripe_id = id;
    }

    /// Whether another stripe id can be allocated.
    pub fn has_stripe_ids(&self) -> (r: bool)
        ensures
            r == (self.next_id() < u64::MAX),
    {
        self.next_stripe_id < u64::MAX
    }

    /// Get the number of data chunks.
    pub fn data_chunks(&self) -> (r: usize)
        ensures
            r == self.data(),
    {
        self.data_chunks
    }

    /// Get the total number of chunks.
    pub fn total_chunks(&self) -> (r: usize)
        ensures
            r == self.total(),
    {
        self.total_chunks
    }

    /// Create a new stripe for a data block and allocate its id.
    ///
    /// Chunk `i` carries index `i`, is a data chunk if `i < K`, and is placed
    /// round-robin on `available_accounts`, starting at the stripe's rotating
    /// offset. Every strategy places round-robin. A stripe has at most 255
    /// chunks.
    pub fn create_stripe(&mut self, original_size: u64, chunk_size: usize, available_accounts: &[u8]) -> (r:
        Stripe)
        requires
            available_accounts@.len() > 0,
            old(self).next_id() < u64::MAX,
            old(self).total() <= 255,
        ensures
            final(self).next_id() == old(self).next_id() + 1,
            final(self).data() == old(self).data(),
            final(self).total() == old(self).total(),
            final(self).strategy() == old(self).strategy(),
            r.stripe_id == old(self).next_id(),
            r.original_size == original_size,
            r.chunk_size == chunk_size,
            r.data_chunks == old(self).data(),
            r.total_chunks == old(self).total(),
            r.chunks@.len() == old(self).total(),
            forall|i: int|
                0 <= i < r.chunks@.len() ==> #[trigger] r.chunks@[i] == ChunkLocation::placed(
                    i as u8,
                    assigned_account(
                        available_accounts@,
                        rotation(r.stripe_id as int, available_accounts@.len() as int),
                        i,
                    ),
                    i < old(self).data(),
                ),
    {
        let stripe_id = self.next_stripe_id;
        self.next_stripe_id = self.next_stripe_id + 1;
        let mut stripe = Stripe::new(
            stripe_id,
            original_size,
            chunk_size,
            self.data_chunks,
            self.total_chunks,
        );
        let assignments = self.assign_chunks(stripe_id, available_accounts);
        let mut i: usize = 0;
        while i < assignments.len()
            invariant
                i <= assignments@.len(),
                assignments@.len() == self.total_chunks,
                self.total_chunks <= 255,
                stripe.stripe_id == stripe_id,
                stripe.original_size == original_size,
                stripe.chunk_size == chunk_size,
                stripe.data_chunks == self.data_chunks,
                stripe.total_chunks == self.total_chunks,
                stripe.chunks@.len() == i,
                forall|j: int|
                    0 <= j < i ==> #[trigger] stripe.chunks@[j] == ChunkLocation::placed(
                        j as u8,
                        assignments@[j],
                        j < self.data_chunks,
                    ),
            decreases assignments@.len() - i,
        {
            let is_data = i < self.data_chunks;
            let location = ChunkLocation::new(i as u8, assignments[i], is_data);
            stripe.add_chunk(location);
            i += 1;
        }
        stripe
    }

    /// Assign chunks to accounts based on current strategy.
    fn assign_chunks(&self, stripe_id: u64, available_accounts: &[u8]) -> (r: Vec<u8>)
        requires
            available_accounts@.len() > 0,
        ensures
            r@.len() == self.total_chunks,
            forall|i: int|
                0 <= i < r@.len() ==> #[trigger] r@[i] == assigned_account(
                    available_accounts@,
                    rotation(stripe_id as int, available_accounts@.len() as int),
                    i,
                ),
    {
        match self.assignment_strategy {
            AssignmentStrategy::RoundRobin => self.assign_round_robin(stripe_id, available_accounts),
            AssignmentStrategy::LoadBalanced | AssignmentStrategy::PriorityBased => {
                self.assign_round_robin(stripe_id, available_accounts)
            },
        }
    }

    /// Round-robin assignment across accounts.
    fn assign_round_robin(&self, stripe_id: u64, available_accounts: &[u8]) -> (r: Vec<u8>)
        requires
            available_accounts@.len() > 0,
        ensures
            r@.len() == self.total_chunks,
            forall|i: int|
                0 <= i < r@.len() ==> #[trigger] r@[i] == assigned_account(
                    available_accounts@,
                    rotation(stripe_id as int, available_accounts@.len() as int),
                    i,
                ),
    {
        let num_accounts = available_accounts.len();
        let turn = (stripe_id as u128 % num_accounts as u128) as usize;
        let offset = if turn == 0 {
            num_accounts - 1
        } else {
            turn - 1
        };
        let mut out: Vec<u8> = Vec::new();
        let mut i: usize = 0;
        while i < self.total_chunks
            invariant
                i <= self.total_chunks,
                num_accounts == available_accounts@.len(),
                num_accounts > 0,
                offset == rotation(stripe_id as int, num_accounts as int),
                offset < num_accounts,
                out@.len() == i,
                forall|j: int|
                    0 <= j < i ==> #[trigger] out@[j] == assigned_account(
                        available_accounts@,
                        offset as int,
                        j,
                    ),
            decreases self.total_chunks - i,
        {
            let slot = ((i as u128 + offset as u128) % num_accounts as u128) as usize;
            out.push(available_accounts[slot]);
            i += 1;
        }
        out
    }

    /// Calculate how chunks should be redistributed when an account fails:
    /// the map from chunk index to new account for every chunk of the stripe
    /// on `failed_account`, round-robin over the available accounts other than
    /// the failed one.
    pub fn plan_redistribution(&self, stripe: &Stripe, failed_account: u8, available_accounts: &[u8]) -> (r:
        HashMap<u8, u8>)
        ensures
            r@ == redistribution(
                on_account(stripe.chunks@, failed_account),
                surviving(available_accounts@, failed_account),
            ),
    {
        broadcast use vstd::std_specs::hash::group_hash_axioms;

        let mut redistributions: HashMap<u8, u8> = HashMap::new();
        let mut remaining: Vec<u8> = Vec::new();
        let mut a: usize = 0;
        while a < available_accounts.len()
            invariant
                a <= available_accounts@.len(),
                remaining@ == surviving(available_accounts@.take(a as int), failed_account),
            decreases available_accounts@.len() - a,
        {
            proof {
                let next = available_accounts@.take(a + 1);
                assert(next.drop_last() =~= available_accounts@.take(a as int));
                assert(next.last() == available_accounts@[a as int]);
            }
            if available_accounts[a] != failed_account {
                remaining.push(available_accounts[a]);
            }
            a += 1;
        }
        assert(available_accounts@.take(a as int) =~= available_accounts@);
        let affected = stripe.chunks_for_account(failed_account);
        let ghost moved = on_account(stripe.chunks@, failed_account);
        if remaining.len() == 0 {
            return redistributions;
        }
        let mut i: usize = 0;
        while i < affected.len()
            invariant
                i <= affected@.len(),
                remaining@.len() > 0,
                affected@.len() == moved.len(),
                forall|j: int| 0 <= j < affected@.len() ==> *(#[trigger] affected@[j]) == moved[j],
                redistributions@ == redistribution(moved.take(i as int), remaining@),
            decreases affected@.len() - i,
        {
            proof {
                let next = moved.take(i + 1);
                assert(next.drop_last() =~= moved.take(i as int));
                assert(next.last() == moved[i as int]);
            }
            let new_account = remaining[i % remaining.len()];
            redistributions.insert(affected[i].chunk_index, new_account);
            i += 1;
        }
        assert(moved.take(i as int) =~= moved);
        redistributions
    }
}

} // verus!
