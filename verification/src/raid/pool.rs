//! Policy of the account pool.
//!
//! The pool serves a stripe with one remote account per block. Talking to the
//! accounts is the caller's part; the pool decides which blocks to attempt,
//! keeps the health records, and judges from the outcomes whether a stripe
//! was written or can be read: with at least K blocks stored or fetched the
//! operation succeeds, degraded if need be, with fewer it fails.

use crate::chunk::{uploaded_count, BlockLocation, StripeInfo};
use crate::clock::now_unix_secs;
use crate::config::TelegramConfig;
use crate::error::{Error, Result};
use crate::raid::config::{enabled_count, lemma_ranked_len, ranked_from, AccountConfig, PoolConfig};
use crate::raid::health::{AccountStatus, ArrayHealth, ArrayStatus, HealthTracker, array_status_of, usable_count, usable_ids};
use crate::raid::stripe::Stripe;
use vstd::prelude::*;

verus! {

/// What became of an attempt to store one block.
#[derive(Debug, Clone)]
pub enum UploadOutcome {
    /// The block is stored under this handle.
    Stored(i32),
    /// The upload failed, with this message.
    Failed(String),
}

/// What became of an attempt to fetch one block.
#[derive(Debug, Clone)]
pub enum DownloadOutcome {
    /// The block's bytes.
    Fetched(Vec<u8>),
    /// The download failed, with this message.
    Failed(String),
}

/// A block to fetch.
#[derive(Debug, Clone, Copy, PartialEq, Eq, Structural)]
pub struct DownloadTask {
    /// Block index within the stripe.
    pub block_index: u8,
    /// Account that holds the block.
    pub account_id: u8,
    /// Handle of the block.
    pub message_id: i32,
}

/// Number of outcomes that count as stored, among the blocks that were to be
/// attempted.
pub open spec fn stored_count(outcomes: Seq<UploadOutcome>, attempted: Seq<bool>) -> nat
    decreases outcomes.len(),
{
    if outcomes.len() == 0 {
        0
    } else {
        stored_count(outcomes.drop_last(), attempted.drop_last()) + if attempted.last()
            && outcomes.last() is Stored {
            1nat
        } else {
            0nat
        }
    }
}

/// Number of connections that were made: outcomes without an error.
pub open spec fn connected_count(outcomes: Seq<Option<String>>) -> nat
    decreases outcomes.len(),
{
    if outcomes.len() == 0 {
        0
    } else {
        connected_count(outcomes.drop_last()) + if outcomes.last().is_none() {
            1nat
        } else {
            0nat
        }
    }
}

/// The blocks of a stripe that carry a handle, as tasks, in stripe order.
pub open spec fn tasks_of(blocks: Seq<BlockLocation>) -> Seq<DownloadTask>
    decreases blocks.len(),
{
    if blocks.len() == 0 {
        Seq::empty()
    } else {
        match blocks.last().message_id {
            Some(message_id) => tasks_of(blocks.drop_last()).push(
                DownloadTask {
                    block_index: blocks.last().block_index,
                    account_id: blocks.last().account_id,
                    message_id,
                },
            ),
            None => tasks_of(blocks.drop_last()),
        }
    }
}

/// The blocks that were fetched, with their indices, in task order.
pub open spec fn fetched_blocks(tasks: Seq<DownloadTask>, outcomes: Seq<DownloadOutcome>) -> Seq<
    (u8, Seq<u8>),
>
    decreases tasks.len(),
{
    if tasks.len() == 0 || outcomes.len() != tasks.len() {
        Seq::empty()
    } else {
        match outcomes.last() {
            DownloadOutcome::Fetched(bytes) => fetched_blocks(
                tasks.drop_last(),
                outcomes.drop_last(),
            ).push((tasks.last().block_index, bytes@)),
            DownloadOutcome::Failed(_) => fetched_blocks(tasks.drop_last(), outcomes.drop_last()),
        }
    }
}

/// The indexed blocks as byte strings.
pub open spec fn block_views(blocks: Seq<(u8, Vec<u8>)>) -> Seq<(u8, Seq<u8>)> {
    Seq::new(blocks.len(), |i: int| (blocks[i].0, blocks[i].1@))
}

/// Whether block `i` carries index `i`, as in a stripe that was written.
pub open spec fn indexed_in_order(blocks: Seq<BlockLocation>) -> bool {
    forall|i: int| 0 <= i < blocks.len() ==> (#[trigger] blocks[i]).block_index == i
}

/// Whether the tasks come in ascending order of their block indices, each
/// index once, all below `bound`.
pub open spec fn tasks_ascend(tasks: Seq<DownloadTask>, bound: int) -> bool {
    &&& forall|a: int, b: int|
        0 <= a < b < tasks.len() ==> (#[trigger] tasks[a]).block_index < (
        #[trigger] tasks[b]).block_index
    &&& forall|a: int| 0 <= a < tasks.len() ==> (#[trigger] tasks[a]).block_index < bound
}

/// Whether the blocks come in ascending order of their indices, each index
/// once, all below `bound`.
pub open spec fn blocks_ascend(blocks: Seq<(u8, Seq<u8>)>, bound: int) -> bool {
    &&& forall|a: int, b: int|
        0 <= a < b < blocks.len() ==> (#[trigger] blocks[a]).0 < (#[trigger] blocks[b]).0
    &&& forall|a: int| 0 <= a < blocks.len() ==> (#[trigger] blocks[a]).0 < bound
}

/// The tasks of a stripe whose blocks are indexed in order come in ascending
/// order of their block indices.
pub proof fn lemma_tasks_ascend(blocks: Seq<BlockLocation>)
    requires
        indexed_in_order(blocks),
    ensures
        tasks_ascend(tasks_of(blocks), blocks.len() as int),
    decreases blocks.len(),
{
    if blocks.len() > 0 {
        let front = blocks.drop_last();
        assert(indexed_in_order(front)) by {
            assert forall|i: int| 0 <= i < front.len() implies (#[trigger] front[i]).block_index
                == i by {
                assert(blocks[i].block_index == i);
            }
        }
        lemma_tasks_ascend(front);
        assert(blocks.last().block_index == blocks.len() - 1) by {
            assert(blocks[blocks.len() - 1].block_index == blocks.len() - 1);
        }
    }
}

/// The blocks that were fetched for ascending tasks come in ascending order
/// of their indices, each index once: they are fit to be placed in a stripe.
pub proof fn lemma_fetched_ascend(tasks: Seq<DownloadTask>, outcomes: Seq<DownloadOutcome>, bound: int)
    requires
        tasks_ascend(tasks, bound),
        outcomes.len() == tasks.len(),
    ensures
        blocks_ascend(fetched_blocks(tasks, outcomes), bound),
        fetched_blocks(tasks, outcomes).len() <= tasks.len(),
    decreases tasks.len(),
{
    if tasks.len() > 0 {
        let front = tasks.drop_last();
        let last = tasks.last();
        assert(tasks_ascend(front, last.block_index as int)) by {
            assert forall|a: int| 0 <= a < front.len() implies (#[trigger] front[a]).block_index
                < last.block_index by {
                assert(tasks[a].block_index < tasks[tasks.len() - 1].block_index);
            }
            assert forall|a: int, b: int| 0 <= a < b < front.len() implies (
            #[trigger] front[a]).block_index < (#[trigger] front[b]).block_index by {
                assert(tasks[a].block_index < tasks[b].block_index);
            }
        }
        lemma_fetched_ascend(front, outcomes.drop_last(), last.block_index as int);
        assert(last.block_index < bound) by {
            assert(tasks[tasks.len() - 1].block_index < bound);
        }
    }
}

/// Of a stripe whose blocks are indexed in order, the blocks that a download
/// fetches come in ascending order of their indices, each index once.
pub proof fn lemma_download_in_order(blocks: Seq<BlockLocation>, outcomes: Seq<DownloadOutcome>)
    requires
        indexed_in_order(blocks),
        outcomes.len() == tasks_of(blocks).len(),
    ensures
        blocks_ascend(fetched_blocks(tasks_of(blocks), outcomes), blocks.len() as int),
{
    lemma_tasks_ascend(blocks);
    lemma_fetched_ascend(tasks_of(blocks), outcomes, blocks.len() as int);
}

/// Pool of remote accounts.
pub struct AccountPool {
    /// Connection settings of the backends, one per account, in pool order.
    backends: Vec<TelegramConfig>,
    /// Health tracker.
    health: HealthTracker,
    /// Configuration.
    config: PoolConfig,
}

impl AccountPool {
    /// The health tracker.
    pub closed spec fn tracker(&self) -> HealthTracker {
        self.health
    }

    /// The pool configuration.
    pub closed spec fn settings(&self) -> PoolConfig {
        self.config
    }

    /// Connection settings of the backends.
    pub closed spec fn backend_settings(&self) -> Seq<TelegramConfig> {
        self.backends@
    }

    /// The pool invariant: at most 255 accounts, each with a health record,
    /// and a valid configuration whose K is what the tracker requires.
    pub open spec fn wf(&self) -> bool {
        &&& self.backend_settings().len() <= 255
        &&& self.tracker().accounts().len() == self.backend_settings().len()
        &&& self.tracker().required() == self.settings().erasure.data_chunks
        &&& self.settings().valid()
    }

    /// Whether a block for `account_id` is attempted: the account has a
    /// backend and is not marked unavailable.
    pub open spec fn may_upload(&self, account_id: u8) -> bool {
        account_id < self.tracker().accounts().len() && self.tracker().accounts()[account_id as int].status
            != AccountStatus::Unavailable
    }

    /// Which blocks of a stripe are attempted.
    pub open spec fn attempts(&self, stripe: Stripe) -> Seq<bool> {
        Seq::new(stripe.chunks@.len(), |i: int| self.may_upload(stripe.chunks@[i].account_id))
    }

    /// Convert an account configuration to the connection settings of its
    /// backend.
    fn account_to_telegram_config(account: &AccountConfig) -> (r: TelegramConfig)
        ensures
            r.api_id == account.api_id,
            r.api_hash == account.api_hash,
            r.phone == account.phone,
            r.session_file == account.session_file,
            r.max_concurrent_uploads == 3,
            r.max_concurrent_downloads == 5,
            r.retry_attempts == 3,
            r.retry_base_delay_ms == 1000,
    {
        TelegramConfig {
            api_id: account.api_id,
            api_hash: account.api_hash.clone(),
            phone: match &account.phone {
                Some(phone) => Some(phone.clone()),
                None => None,
            },
            session_file: account.session_file.clone(),
            max_concurrent_uploads: 3,
            max_concurrent_downloads: 5,
            retry_attempts: 3,
            retry_base_delay_ms: 1000,
        }
    }

    /// Create a new account pool (does not connect): one backend per enabled
    /// account, highest priority first, all of them healthy.
    pub fn new(config: PoolConfig) -> (r: Result<Self>)
        ensures
            r.is_ok() == (config.valid() && enabled_count(config.accounts@) <= 255),
            r matches Ok(pool) ==> {
                &&& pool.wf()
                &&& pool.settings() == config
                &&& pool.backend_settings().len() == ranked_from(config.accounts@, 0).len()
                &&& forall|i: int|
                    0 <= i < pool.backend_settings().len() ==> (
                    #[trigger] pool.backend_settings()[i]).api_id == ranked_from(
                        config.accounts@,
                        0,
                    )[i].api_id && pool.backend_settings()[i].session_file == ranked_from(
                        config.accounts@,
                        0,
                    )[i].session_file
                &&& forall|i: int|
                    0 <= i < pool.tracker().accounts().len() ==> (
                    #[trigger] pool.tracker().accounts()[i]).status == AccountStatus::Healthy
            },
            r matches Err(e) ==> (if config.valid() {
                e is InvalidErasureConfig
            } else {
                e is InvalidConfig
            }),
    {
        match config.validate() {
            Ok(()) => {},
            Err(e) => {
                return Err(e);
            },
        }
        let mut backends: Vec<TelegramConfig> = Vec::new();
        proof {
            lemma_ranked_len(config.accounts@);
        }
        {
            let enabled_accounts = config.enabled_accounts();
            if enabled_accounts.len() == 0 {
                return Err(
                    Error::InvalidErasureConfig(
                        "At least one enabled account is required".to_string(),
                    ),
                );
            }
            if enabled_accounts.len() > 255 {
                return Err(Error::InvalidErasureConfig("Maximum 255 accounts supported".to_string()));
            }
            let mut i: usize = 0;
            while i < enabled_accounts.len()
                invariant
                    i <= enabled_accounts@.len(),
                    backends@.len() == i,
                    enabled_accounts@.len() == ranked_from(config.accounts@, 0).len(),
                    forall|j: int|
                        0 <= j < enabled_accounts@.len() ==> *(#[trigger] enabled_accounts@[j])
                            == ranked_from(config.accounts@, 0)[j],
                    forall|j: int|
                        0 <= j < i ==> (#[trigger] backends@[j]).api_id == ranked_from(
                            config.accounts@,
                            0,
                        )[j].api_id && backends@[j].session_file == ranked_from(
                            config.accounts@,
                            0,
                        )[j].session_file,
                decreases enabled_accounts@.len() - i,
            {
                backends.push(Self::account_to_telegram_config(enabled_accounts[i]));
                i += 1;
            }
        }
        let account_count = backends.len();
        let required_accounts = config.erasure.data_chunks;
        let health = HealthTracker::new(account_count, required_accounts);
        Ok(AccountPool { backends, health, config })
    }

    /// Judge the outcome of dialing every account: `outcomes[i]` is the error
    /// of account `i`, or nothing where it connected. Every outcome goes into
    /// the health records. The pool enters service if at least K accounts
    /// connected, else the call fails with `ErasureFailed`.
    pub fn connect_all(&mut self, outcomes: &Vec<Option<String>>) -> (r: Result<()>)
        requires
            old(self).wf(),
            outcomes@.len() == old(self).backend_settings().len(),
            old(self).tracker().headroom(1),
        ensures
            final(self).wf(),
            final(self).settings() == old(self).settings(),
            final(self).backend_settings() == old(self).backend_settings(),
            r.is_ok() == (connected_count(outcomes@) >= old(self).settings().erasure.data_chunks),
            r matches Err(e) ==> (e matches Error::ErasureFailed { available, required }
                && available == connected_count(outcomes@) && required == old(self).settings().erasure.data_chunks),
            forall|i: int|
                0 <= i < outcomes@.len() ==> {
                    let before = old(self).tracker().accounts()[i];
                    let after = #[trigger] final(self).tracker().accounts()[i];
                    &&& after.total_operations == before.total_operations + 1
                    &&& outcomes@[i].is_none() ==> after.failure_count == 0
                        && after.failed_operations == before.failed_operations && after.status
                        == before.status_after_success(
                        before.failed_operations as int,
                        before.total_operations + 1,
                    )
                    &&& outcomes@[i].is_some() ==> after.failure_count == before.failure_count + 1
                        && after.failed_operations == before.failed_operations + 1 && after.status
                        == before.status_after_failure(
                        before.failure_count + 1,
                        before.failed_operations + 1,
                        before.total_operations + 1,
                        old(self).tracker().max_failures() as int,
                    )
                },
    {
        let n = outcomes.len();
        let mut success_count: usize = 0;
        let mut i: usize = 0;
        while i < n
            invariant
                n == outcomes@.len(),
                n <= 255,
                i <= n,
                self.wf(),
                self.settings() == old(self).settings(),
                self.backend_settings() == old(self).backend_settings(),
                self.tracker().max_failures() == old(self).tracker().max_failures(),
                self.tracker().accounts().len() == n,
                old(self).tracker().accounts().len() == n,
                success_count == connected_count(outcomes@.take(i as int)),
                success_count <= i,
                forall|j: int|
                    i <= j < n ==> #[trigger] self.tracker().accounts()[j] == old(self).tracker().accounts()[j],
                old(self).tracker().headroom(1),
                forall|j: int|
                    0 <= j < i ==> {
                        let before = old(self).tracker().accounts()[j];
                        let after = #[trigger] self.tracker().accounts()[j];
                        &&& after.total_operations == before.total_operations + 1
                        &&& outcomes@[j].is_none() ==> after.failure_count == 0
                            && after.failed_operations == before.failed_operations && after.status
                            == before.status_after_success(
                            before.failed_operations as int,
                            before.total_operations + 1,
                        )
                        &&& outcomes@[j].is_some() ==> after.failure_count == before.failure_count
                            + 1 && after.failed_operations == before.failed_operations + 1
                            && after.status == before.status_after_failure(
                            before.failure_count + 1,
                            before.failed_operations + 1,
                            before.total_operations + 1,
                            old(self).tracker().max_failures() as int,
                        )
                    },
            decreases n - i,
        {
            proof {
                let next = outcomes@.take(i + 1);
                assert(next.drop_last() =~= outcomes@.take(i as int));
                assert(next.last() == outcomes@[i as int]);
                assert(old(self).tracker().has_headroom(i as u8, 1));
                assert(self.tracker().accounts()[i as int] == old(self).tracker().accounts()[i as int]);
                assert(self.tracker().has_headroom(i as u8, 1));
            }
            let ghost earlier = self.tracker().accounts();
            match &outcomes[i] {
                None => {
                    self.health.record_success(i as u8);
                    success_count += 1;
                },
                Some(error) => {
                    self.health.record_failure(i as u8, error.as_str());
                },
            }
            proof {
                assert forall|j: int| 0 <= j < i implies #[trigger] self.tracker().accounts()[j]
                    == earlier[j] by {}
            }
            i += 1;
        }
        assert(outcomes@.take(n as int) =~= outcomes@);
        let required = self.config.erasure.data_chunks;
        if success_count < required {
            return Err(Error::ErasureFailed { available: success_count, required });
        }
        Ok(())
    }

    /// Connection settings of the backend of an account.
    pub fn get_backend(&self, account_id: u8) -> (r: Option<&TelegramConfig>)
        ensures
            match r {
                Some(settings) => account_id < self.backend_settings().len() && *settings
                    == self.backend_settings()[account_id as int],
                None => account_id >= self.backend_settings().len(),
            },
    {
        let idx = account_id as usize;
        if idx < self.backends.len() {
            Some(&self.backends[idx])
        } else {
            None
        }
    }

    /// Which blocks of a stripe to upload: those whose account has a backend
    /// and is not marked unavailable.
    pub fn plan_upload(&self, stripe: &Stripe) -> (r: Vec<bool>)
        requires
            self.wf(),
        ensures
            r@ == self.attempts(*stripe),
    {
        let mut plan: Vec<bool> = Vec::new();
        let mut i: usize = 0;
        while i < stripe.chunks.len()
            invariant
                self.wf(),
                i <= stripe.chunks@.len(),
                plan@.len() == i,
                forall|j: int| 0 <= j < i ==> plan@[j] == self.may_upload(stripe.chunks@[j].account_id),
            decreases stripe.chunks@.len() - i,
        {
            let account_id = stripe.chunks[i].account_id;
            let attempt = (account_id as usize) < self.backends.len() && self.health.account_health(
                account_id,
            ).status != AccountStatus::Unavailable;
            plan.push(attempt);
            i += 1;
        }
        assert(plan@ =~= self.attempts(*stripe));
        plan
    }

    /// Judge the upload of a stripe from the outcomes of its blocks:
    /// `outcomes[i]` is what became of block `i`, and is not looked at where
    /// the block was not to be attempted.
    ///
    /// Every attempt goes into the health records. With at least K blocks
    /// stored the stripe is written, degraded if some are missing: the stripe
    /// information lists all N blocks in index order, those that are not
    /// stored without a handle. With fewer the call fails with `ErasureFailed`.
    pub fn upload_stripe(&mut self, stripe: &Stripe, outcomes: &Vec<UploadOutcome>) -> (r: Result<
        StripeInfo,
    >)
        requires
            old(self).wf(),
            stripe.well_formed(),
            outcomes@.len() == stripe.chunks@.len(),
            old(self).tracker().headroom(stripe.chunks@.len()),
        ensures
            final(self).wf(),
            final(self).settings() == old(self).settings(),
            final(self).backend_settings() == old(self).backend_settings(),
            r.is_ok() == (stored_count(outcomes@, old(self).attempts(*stripe)) >= old(self).settings().erasure.data_chunks),
            r matches Err(e) ==> (e matches Error::ErasureFailed { available, required }
                && available == stored_count(outcomes@, old(self).attempts(*stripe)) && required
                == old(self).settings().erasure.data_chunks),
            r matches Ok(info) ==> {
                &&& info.well_formed()
                &&& info.data_count == stripe.data_chunks
                &&& info.parity_count == stripe.total_chunks - stripe.data_chunks
                &&& info.block_size == stripe.chunk_size
                &&& uploaded_count(info.blocks@) == stored_count(
                    outcomes@,
                    old(self).attempts(*stripe),
                )
                &&& forall|i: int|
                    0 <= i < info.blocks@.len() ==> {
                        let block = #[trigger] info.blocks@[i];
                        &&& block.account_id == stripe.chunks@[i].account_id
                        &&& block.message_id == match outcomes@[i] {
                            UploadOutcome::Stored(id) => if old(self).attempts(*stripe)[i] {
                                Some(id)
                            } else {
                                None
                            },
                            UploadOutcome::Failed(_) => None,
                        }
                        &&& block.uploaded_at.is_some() == block.message_id.is_some()
                    }
            },
            forall|a: int|
                0 <= a < old(self).tracker().accounts().len() && (forall|i: int|
                    0 <= i < stripe.chunks@.len() ==> (#[trigger] stripe.chunks@[i]).account_id
                        != a) ==> #[trigger] final(self).tracker().accounts()[a] == old(self).tracker().accounts()[a],
    {
        let plan = self.plan_upload(stripe);
        let n = stripe.chunks.len();
        let data_count = stripe.data_chunks as u8;
        let parity_count = (stripe.total_chunks - stripe.data_chunks) as u8;
        let block_size = stripe.chunk_size as u64;
        let mut stripe_info = StripeInfo::new(data_count, parity_count, block_size);
        let mut success_count: usize = 0;
        let mut i: usize = 0;
        while i < n
            invariant
                n == stripe.chunks@.len(),
                n == outcomes@.len(),
                n == plan@.len(),
                plan@ == old(self).attempts(*stripe),
                stripe.well_formed(),
                i <= n,
                self.wf(),
                self.settings() == old(self).settings(),
                self.backend_settings() == old(self).backend_settings(),
                self.tracker().accounts().len() == old(self).tracker().accounts().len(),
                self.tracker().headroom((n - i) as nat),
                stripe_info.data_count == data_count,
                stripe_info.parity_count == parity_count,
                stripe_info.block_size == block_size,
                stripe_info.blocks@.len() == i,
                success_count == stored_count(outcomes@.take(i as int), plan@.take(i as int)),
                success_count == uploaded_count(stripe_info.blocks@),
                success_count <= i,
                forall|j: int|
                    0 <= j < i ==> {
                        let block = #[trigger] stripe_info.blocks@[j];
                        &&& block.block_index == j
                        &&& block.account_id == stripe.chunks@[j].account_id
                        &&& block.message_id == match outcomes@[j] {
                            UploadOutcome::Stored(id) => if plan@[j] {
                                Some(id)
                            } else {
                                None
                            },
                            UploadOutcome::Failed(_) => None,
                        }
                        &&& block.uploaded_at.is_some() == block.message_id.is_some()
                    },
                forall|a: int|
                    0 <= a < old(self).tracker().accounts().len() && (forall|k: int|
                        0 <= k < i ==> (#[trigger] stripe.chunks@[k]).account_id != a)
                        ==> #[trigger] self.tracker().accounts()[a] == old(self).tracker().accounts()[a],
            decreases n - i,
        {
            proof {
                let next = outcomes@.take(i + 1);
                assert(next.drop_last() =~= outcomes@.take(i as int));
                assert(next.last() == outcomes@[i as int]);
                let next_plan = plan@.take(i + 1);
                assert(next_plan.drop_last() =~= plan@.take(i as int));
                assert(next_plan.last() == plan@[i as int]);
                let left = (n - i - 1) as nat;
                assert(self.tracker().headroom(left + 1));
                assert(self.tracker().has_headroom(stripe.chunks@[i as int].account_id, left + 1));
                assert(self.tracker().has_headroom(stripe.chunks@[i as int].account_id, 1));
            }
            let ghost earlier = self.tracker().accounts();
            let ghost blocks_before = stripe_info.blocks@;
            let location = &stripe.chunks[i];
            let account_id = location.account_id;
            let block_index = location.chunk_index;
            let block = if plan[i] {
                match &outcomes[i] {
                    UploadOutcome::Stored(message_id) => {
                        self.health.record_success(account_id);
                        success_count += 1;
                        BlockLocation {
                            account_id,
                            message_id: Some(*message_id),
                            block_index,
                            uploaded_at: Some(now_unix_secs()),
                        }
                    },
                    UploadOutcome::Failed(error) => {
                        self.health.record_failure(account_id, error.as_str());
                        BlockLocation { account_id, message_id: None, block_index, uploaded_at: None }
                    },
                }
            } else {
                BlockLocation { account_id, message_id: None, block_index, uploaded_at: None }
            };
            stripe_info.blocks.push(block);
            proof {
                assert(stripe_info.blocks@.drop_last() =~= blocks_before);
                let left = (n - i - 1) as nat;
                assert(self.tracker().headroom(left)) by {
                    if !plan@[i as int] {
                        assert forall|id: u8| #[trigger] self.tracker().has_headroom(id, left) by {
                            assert(self.tracker().has_headroom(id, left + 1));
                        }
                    }
                }
                assert forall|a: int|
                    0 <= a < old(self).tracker().accounts().len() && (forall|k: int|
                        0 <= k < i + 1 ==> (#[trigger] stripe.chunks@[k]).account_id
                            != a) implies #[trigger] self.tracker().accounts()[a] == old(self).tracker().accounts()[a] by {
                    assert(stripe.chunks@[i as int].account_id != a);
                    assert(self.tracker().accounts()[a] == earlier[a]);
                }
            }
            i += 1;
        }
        proof {
            assert(outcomes@.take(n as int) =~= outcomes@);
            assert(plan@.take(n as int) =~= plan@);
        }
        let required = self.config.erasure.data_chunks;
        if success_count < required {
            return Err(Error::ErasureFailed { available: success_count, required });
        }
        Ok(stripe_info)
    }

    /// Which blocks of a stripe to fetch: every block that carries a handle,
    /// also where its account is marked unavailable, for the account may
    /// have recovered. A stripe without any handle is unrecoverable.
    pub fn plan_download(&self, stripe_info: &StripeInfo) -> (r: Result<Vec<DownloadTask>>)
        ensures
            r.is_ok() == (tasks_of(stripe_info.blocks@).len() > 0),
            r matches Ok(tasks) ==> tasks@ == tasks_of(stripe_info.blocks@),
            r matches Err(e) ==> (e matches Error::StripeUnrecoverable { available, required }
                && available == 0 && required == stripe_info.data_count),
    {
        let mut tasks: Vec<DownloadTask> = Vec::new();
        let mut i: usize = 0;
        while i < stripe_info.blocks.len()
            invariant
                i <= stripe_info.blocks@.len(),
                tasks@ == tasks_of(stripe_info.blocks@.take(i as int)),
            decreases stripe_info.blocks@.len() - i,
        {
            proof {
                let next = stripe_info.blocks@.take(i + 1);
                assert(next.drop_last() =~= stripe_info.blocks@.take(i as int));
                assert(next.last() == stripe_info.blocks@[i as int]);
            }
            let block = &stripe_info.blocks[i];
            match block.message_id {
                Some(message_id) => {
                    tasks.push(
                        DownloadTask {
                            block_index: block.block_index,
                            account_id: block.account_id,
                            message_id,
                        },
                    );
                },
                None => {},
            }
            i += 1;
        }
        assert(stripe_info.blocks@.take(i as int) =~= stripe_info.blocks@);
        if tasks.len() == 0 {
            return Err(
                Error::StripeUnrecoverable {
                    available: 0,
                    required: stripe_info.data_count as usize,
                },
            );
        }
        Ok(tasks)
    }

    /// Judge the download of a stripe from the outcomes of its tasks:
    /// `outcomes[j]` is what became of `tasks[j]`.
    ///
    /// Every attempt on an account of the pool goes into the health records.
    /// With at least K blocks fetched they come back with their indices, in
    /// task order; with fewer the call fails with `StripeUnrecoverable`.
    pub fn download_blocks(
        &mut self,
        stripe_info: &StripeInfo,
        tasks: &Vec<DownloadTask>,
        outcomes: Vec<DownloadOutcome>,
    ) -> (r: Result<Vec<(u8, Vec<u8>)>>)
        requires
            old(self).wf(),
            tasks@.len() == outcomes@.len(),
            old(self).tracker().headroom(tasks@.len()),
        ensures
            final(self).wf(),
            final(self).settings() == old(self).settings(),
            final(self).backend_settings() == old(self).backend_settings(),
            r.is_ok() == (fetched_blocks(tasks@, outcomes@).len() >= stripe_info.data_count),
            r matches Ok(blocks) ==> block_views(blocks@) == fetched_blocks(tasks@, outcomes@),
            r matches Err(e) ==> (e matches Error::StripeUnrecoverable { available, required }
                && available == fetched_blocks(tasks@, outcomes@).len() && required
                == stripe_info.data_count),
    {
        let n = tasks.len();
        let mut outcomes = outcomes;
        let ghost all = outcomes@;
        let mut blocks: Vec<(u8, Vec<u8>)> = Vec::new();
        let mut i: usize = 0;
        while i < n
            invariant
                n == tasks@.len(),
                n == outcomes@.len(),
                all.len() == n,
                i <= n,
                forall|j: int| i <= j < n ==> #[trigger] outcomes@[j] == all[j],
                self.wf(),
                self.settings() == old(self).settings(),
                self.backend_settings() == old(self).backend_settings(),
                self.tracker().headroom((n - i) as nat),
                block_views(blocks@) == fetched_blocks(tasks@.take(i as int), all.take(i as int)),
            decreases n - i,
        {
            proof {
                let next = tasks@.take(i + 1);
                assert(next.drop_last() =~= tasks@.take(i as int));
                assert(next.last() == tasks@[i as int]);
                let next_all = all.take(i + 1);
                assert(next_all.drop_last() =~= all.take(i as int));
                assert(next_all.last() == all[i as int]);
                let left = (n - i - 1) as nat;
                assert(self.tracker().headroom(left + 1));
                assert(self.tracker().has_headroom(tasks@[i as int].account_id, left + 1));
                assert(self.tracker().has_headroom(tasks@[i as int].account_id, 1));
            }
            let task = tasks[i];
            let mut outcome = DownloadOutcome::Failed(String::new());
            core::mem::swap(&mut outcome, &mut outcomes[i]);
            let ghost views_before = block_views(blocks@);
            match outcome {
                DownloadOutcome::Fetched(data) => {
                    self.health.record_success(task.account_id);
                    blocks.push((task.block_index, data));
                    assert(block_views(blocks@) =~= views_before.push((task.block_index, data@)));
                },
                DownloadOutcome::Failed(error) => {
                    self.health.record_failure(task.account_id, error.as_str());
                },
            }
            i += 1;
        }
        proof {
            assert(tasks@.take(n as int) =~= tasks@);
            assert(all.take(n as int) =~= all);
        }
        let required = stripe_info.data_count as usize;
        if blocks.len() < required {
            return Err(Error::StripeUnrecoverable { available: blocks.len(), required });
        }
        Ok(blocks)
    }

    /// Get current array health.
    pub fn health(&self) -> (r: ArrayHealth)
        ensures
            r.status == array_status_of(self.tracker().accounts(), self.tracker().required()),
            r.accounts@ == self.tracker().accounts(),
    {
        self.health.array_health()
    }

    /// Get the array status (healthy, degraded, failed, rebuilding).
    pub fn status(&self) -> (r: ArrayStatus)
        ensures
            r == array_status_of(self.tracker().accounts(), self.tracker().required()),
    {
        self.health.array_health().status
    }

    /// Check if pool is degraded.
    pub fn is_degraded(&self) -> (r: bool)
        ensures
            r == (array_status_of(self.tracker().accounts(), self.tracker().required())
                == ArrayStatus::Degraded || array_status_of(
                self.tracker().accounts(),
                self.tracker().required(),
            ) == ArrayStatus::Rebuilding),
    {
        self.health.is_degraded()
    }

    /// Check if pool can operate.
    pub fn can_operate(&self) -> (r: bool)
        ensures
            r == (usable_count(self.tracker().accounts()) >= self.tracker().required()),
    {
        self.health.can_operate()
    }

    /// Get number of usable accounts.
    pub fn healthy_count(&self) -> (r: usize)
        ensures
            r == usable_count(self.tracker().accounts()),
    {
        self.health.healthy_count()
    }

    /// Get list of usable account ids.
    pub fn healthy_accounts(&self) -> (r: Vec<u8>)
        ensures
            r@ == usable_ids(self.tracker().accounts()),
    {
        self.health.healthy_accounts()
    }

    /// Get total number of accounts in pool.
    pub fn account_count(&self) -> (r: usize)
        ensures
            r == self.backend_settings().len(),
    {
        self.backends.len()
    }

    /// Get the pool configuration.
    pub fn config(&self) -> (r: &PoolConfig)
        ensures
            *r == self.settings(),
    {
        &self.config
    }

    /// Get data chunk count (K).
    pub fn data_chunks(&self) -> (r: usize)
        ensures
            r == self.settings().erasure.data_chunks,
    {
        self.config.erasure.data_chunks
    }

    /// Get total chunk count (N).
    pub fn total_chunks(&self) -> (r: usize)
        ensures
            r == self.settings().erasure.total_chunks,
    {
        self.config.erasure.total_chunks
    }

    /// Get parity chunk count (N-K).
    pub fn parity_chunks(&self) -> (r: usize)
        requires
            self.wf(),
        ensures
            r == self.settings().erasure.total_chunks - self.settings().erasure.data_chunks,
    {
        self.config.erasure.parity_chunks()
    }

    /// Get the health tracker.
    pub fn health_tracker(&self) -> (r: &HealthTracker)
        ensures
            *r == self.tracker(),
    {
        &self.health
    }

    /// Get the health tracker for maintenance: marking accounts as rebuilding
    /// or healthy, resetting failures.
    pub fn health_tracker_mut(&mut self) -> (r: &mut HealthTracker)
        ensures
            *r == old(self).tracker(),
            final(self).tracker() == *final(r),
            final(self).settings() == old(self).settings(),
            final(self).backend_settings() == old(self).backend_settings(),
    {
        &mut self.health
    }
}

} // verus!
