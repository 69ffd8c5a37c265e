//! Account health monitoring for the erasure coding pool.
//!
//! Tracks the health status of each account and derives the status of the
//! whole array from it.

use crate::clock::now_unix_secs;
use vstd::prelude::*;

verus! {

/// Default number of consecutive failures before marking an account unavailable.
pub const DEFAULT_MAX_FAILURES: u32 = 3;

/// The most accounts that a pool can have: one for each shard of a stripe.
pub const MAX_ACCOUNTS: usize = 255;

/// Status of a single account.
#[derive(Debug, Clone, Copy, PartialEq, Eq, Structural)]
pub enum AccountStatus {
    /// Account is healthy and available.
    Healthy,
    /// Account is degraded (high error rate but functional).
    Degraded,
    /// Account is unavailable.
    Unavailable,
    /// Account is being rebuilt.
    Rebuilding,
}

/// Health information for a single account.
#[derive(Debug)]
pub struct AccountHealth {
    /// Account id.
    pub account_id: u8,
    /// Current status.
    pub status: AccountStatus,
    /// Last successful operation timestamp (Unix seconds).
    pub last_success: Option<i64>,
    /// Last error message if any.
    pub last_error: Option<String>,
    /// Consecutive failure count.
    pub failure_count: u32,
    /// Total operations attempted.
    pub total_operations: u64,
    /// Total failed operations.
    pub failed_operations: u64,
}

/// Whether `failed` out of `total` operations is an error rate of 10% or more.
/// With no operation at all the rate is zero.
pub open spec fn rate_is_high(failed: int, total: int) -> bool {
    total > 0 && failed * 10 >= total
}

impl AccountHealth {
    /// Create new healthy account.
    pub fn new(account_id: u8) -> (r: Self)
        ensures
            r == Self::fresh(account_id),
    {
        AccountHealth {
            account_id,
            status: AccountStatus::Healthy,
            last_success: None,
            last_error: None,
            failure_count: 0,
            total_operations: 0,
            failed_operations: 0,
        }
    }

    /// The record of an account that has done nothing yet.
    pub open spec fn fresh(account_id: u8) -> Self {
        AccountHealth {
            account_id,
            status: AccountStatus::Healthy,
            last_success: None,
            last_error: None,
            failure_count: 0,
            total_operations: 0,
            failed_operations: 0,
        }
    }

    /// Whether the error rate has reached the degraded threshold of 10%.
    pub fn error_rate_high(&self) -> (r: bool)
        ensures
            r == rate_is_high(self.failed_operations as int, self.total_operations as int),
    {
        self.total_operations > 0 && self.failed_operations as u128 * 10
            >= self.total_operations as u128
    }

    /// Whether the account takes part in operations: healthy or degraded.
    pub open spec fn usable(&self) -> bool {
        self.status == AccountStatus::Healthy || self.status == AccountStatus::Degraded
    }

    /// Status after a success that brings the counters to `failed` out of
    /// `total`: an unavailable or rebuilding account keeps its status, any
    /// other is healthy below the threshold and degraded from it on.
    pub open spec fn status_after_success(&self, failed: int, total: int) -> AccountStatus {
        if self.status == AccountStatus::Unavailable || self.status == AccountStatus::Rebuilding {
            self.status
        } else if rate_is_high(failed, total) {
            AccountStatus::Degraded
        } else {
            AccountStatus::Healthy
        }
    }

    /// Status after a failure that brings the run of failures to `run` and the
    /// counters to `failed` out of `total`: a rebuilding account is not
    /// demoted; otherwise `max_failures` failures in a row make the account
    /// unavailable, and a rate at the threshold makes it degraded.
    pub open spec fn status_after_failure(
        &self,
        run: int,
        failed: int,
        total: int,
        max_failures: int,
    ) -> AccountStatus {
        if self.status == AccountStatus::Rebuilding {
            self.status
        } else if run >= max_failures {
            AccountStatus::Unavailable
        } else if rate_is_high(failed, total) {
            AccountStatus::Degraded
        } else {
            self.status
        }
    }
}

impl Clone for AccountHealth {
    fn clone(&self) -> (r: Self)
        ensures
            r == *self,
    {
        AccountHealth {
            account_id: self.account_id,
            status: self.status,
            last_success: self.last_success,
            last_error: match &self.last_error {
                Some(s) => Some(s.clone()),
                None => None,
            },
            failure_count: self.failure_count,
            total_operations: self.total_operations,
            failed_operations: self.failed_operations,
        }
    }
}

impl Default for AccountHealth {
    fn default() -> (r: Self)
        ensures
            r == Self::fresh(0),
    {
        AccountHealth::new(0)
    }
}

/// Overall array status.
#[derive(Debug, Clone, Copy, PartialEq, Eq, Structural)]
pub enum ArrayStatus {
    /// All accounts healthy, full redundancy.
    Healthy,
    /// Operating with reduced redundancy (some accounts down but >= K available).
    Degraded,
    /// Cannot operate (fewer than K accounts available).
    Failed,
    /// Rebuild in progress.
    Rebuilding,
}

/// Overall status of the array of accounts.
#[derive(Debug)]
pub struct ArrayHealth {
    /// Overall status.
    pub status: ArrayStatus,
    /// Individual account health.
    pub accounts: Vec<AccountHealth>,
    /// Required accounts for operation (K).
    pub required_accounts: usize,
    /// Total accounts configured (N).
    pub total_accounts: usize,
    /// Rebuild progress in percent if rebuilding.
    pub rebuild_progress: Option<u8>,
}

/// Number of usable (healthy or degraded) accounts.
pub open spec fn usable_count(accounts: Seq<AccountHealth>) -> nat
    decreases accounts.len(),
{
    if accounts.len() == 0 {
        0
    } else {
        usable_count(accounts.drop_last()) + if accounts.last().usable() {
            1nat
        } else {
            0nat
        }
    }
}

/// The ids of the usable accounts, in pool order.
pub open spec fn usable_ids(accounts: Seq<AccountHealth>) -> Seq<u8>
    decreases accounts.len(),
{
    if accounts.len() == 0 {
        Seq::empty()
    } else if accounts.last().usable() {
        usable_ids(accounts.drop_last()).push(accounts.last().account_id)
    } else {
        usable_ids(accounts.drop_last())
    }
}

/// There are as many usable ids as usable accounts, and no more than accounts.
pub proof fn lemma_usable_ids_len(accounts: Seq<AccountHealth>)
    ensures
        usable_ids(accounts).len() == usable_count(accounts),
        usable_count(accounts) <= accounts.len(),
    decreases accounts.len(),
{
    if accounts.len() > 0 {
        lemma_usable_ids_len(accounts.drop_last());
    }
}

/// Status of the array: rebuilding if any account is rebuilding; else healthy
/// if and only if every account is healthy; else degraded if and only if at
/// least `required` accounts are usable; else failed.
pub open spec fn array_status_of(accounts: Seq<AccountHealth>, required: nat) -> ArrayStatus {
    if exists|i: int| 0 <= i < accounts.len() && (#[trigger] accounts[i]).status == AccountStatus::Rebuilding {
        ArrayStatus::Rebuilding
    } else if forall|i: int| 0 <= i < accounts.len() ==> (#[trigger] accounts[i]).status == AccountStatus::Healthy {
        ArrayStatus::Healthy
    } else if usable_count(accounts) >= required {
        ArrayStatus::Degraded
    } else {
        ArrayStatus::Failed
    }
}

/// Health tracker for the account pool.
pub struct HealthTracker {
    accounts: Vec<AccountHealth>,
    required_accounts: usize,
    max_failures_before_unavailable: u32,
}

impl HealthTracker {
    /// The health records, one per account, in pool order.
    pub closed spec fn accounts(&self) -> Seq<AccountHealth> {
        self.accounts@
    }

    /// Number of usable accounts that the array needs to operate (K).
    pub closed spec fn required(&self) -> nat {
        self.required_accounts as nat
    }

    /// Failures in a row after which an account is unavailable.
    pub closed spec fn max_failures(&self) -> nat {
        self.max_failures_before_unavailable as nat
    }

    /// Account `account_id` can count `n` more operations.
    pub open spec fn has_headroom(&self, account_id: u8, n: nat) -> bool {
        account_id < self.accounts().len() ==> {
            let h = self.accounts()[account_id as int];
            h.total_operations + n <= u64::MAX && h.failed_operations + n <= u64::MAX
                && h.failure_count + n <= u32::MAX
        }
    }

    /// Every account can count `n` more operations.
    pub open spec fn headroom(&self, n: nat) -> bool {
        forall|id: u8| self.has_headroom(id, n)
    }

    /// Whether every account can count `n` more operations: what the
    /// functions that record operations ask for.
    pub fn has_room(&self, n: usize) -> (r: bool)
        ensures
            r == self.headroom(n as nat),
    {
        let mut i: usize = 0;
        while i < self.accounts.len() && i < 256
            invariant
                i <= self.accounts@.len(),
                i <= 256,
                forall|id: u8| id < i ==> self.has_headroom(id, n as nat),
            decreases self.accounts@.len() - i,
        {
            let account = &self.accounts[i];
            let fits = n as u64 <= u64::MAX - account.total_operations && n as u64 <= u64::MAX
                - account.failed_operations && n as u64 <= (u32::MAX - account.failure_count) as u64;
            if !fits {
                assert(!self.has_headroom(i as u8, n as nat));
                return false;
            }
            i += 1;
        }
        assert forall|id: u8| self.has_headroom(id, n as nat) by {
            if id < self.accounts().len() {
                assert(id < i);
            }
        }
        true
    }

    /// Create a new health tracker: `num_accounts` fresh accounts, of which
    /// account `i` has id `i`. A pool has at most 255 accounts.
    pub fn new(num_accounts: usize, required_accounts: usize) -> (r: Self)
        requires
            num_accounts <= MAX_ACCOUNTS,
        ensures
            r.accounts().len() == num_accounts,
            forall|i: int|
                0 <= i < num_accounts ==> #[trigger] r.accounts()[i] == AccountHealth::fresh(
                    i as u8,
                ),
            r.required() == required_accounts,
            r.max_failures() == DEFAULT_MAX_FAILURES,
    {
        Self::with_max_failures(num_accounts, required_accounts, DEFAULT_MAX_FAILURES)
    }

    /// Create a new health tracker with custom max failures threshold.
    pub fn with_max_failures(num_accounts: usize, required_accounts: usize, max_failures: u32) -> (r:
        Self)
        requires
            num_accounts <= MAX_ACCOUNTS,
        ensures
            r.accounts().len() == num_accounts,
            forall|i: int|
                0 <= i < num_accounts ==> #[trigger] r.accounts()[i] == AccountHealth::fresh(
                    i as u8,
                ),
            r.required() == required_accounts,
            r.max_failures() == max_failures,
    {
        let mut accounts: Vec<AccountHealth> = Vec::new();
        let mut i: usize = 0;
        while i < num_accounts
            invariant
                i <= num_accounts <= MAX_ACCOUNTS,
                accounts@.len() == i,
                forall|j: int|
                    0 <= j < i ==> #[trigger] accounts@[j] == AccountHealth::fresh(j as u8),
            decreases num_accounts - i,
        {
            accounts.push(AccountHealth::new(i as u8));
            i += 1;
        }
        HealthTracker {
            accounts,
            required_accounts,
            max_failures_before_unavailable: max_failures,
        }
    }

    /// Record a successful operation that ended at Unix time `now`. An id
    /// outside the pool is ignored.
    pub fn record_success_at(&mut self, account_id: u8, now: i64)
        requires
            old(self).has_headroom(account_id, 1),
        ensures
            final(self).required() == old(self).required(),
            final(self).max_failures() == old(self).max_failures(),
            final(self).accounts().len() == old(self).accounts().len(),
            forall|i: int|
                0 <= i < old(self).accounts().len() && i != account_id
                    ==> #[trigger] final(self).accounts()[i] == old(self).accounts()[i],
            forall|n: nat| old(self).headroom(n + 1) ==> #[trigger] final(self).headroom(n),
            account_id >= old(self).accounts().len() ==> final(self).accounts() == old(
                self,
            ).accounts(),
            account_id < old(self).accounts().len() ==> {
                let before = old(self).accounts()[account_id as int];
                final(self).accounts() == old(self).accounts().update(
                    account_id as int,
                    AccountHealth {
                        total_operations: (before.total_operations + 1) as u64,
                        last_success: Some(now),
                        failure_count: 0,
                        status: before.status_after_success(
                            before.failed_operations as int,
                            before.total_operations + 1,
                        ),
                        ..before
                    },
                )
            },
    {
        let idx = account_id as usize;
        if idx < self.accounts.len() {
            let ghost before = self.accounts@;
            let account = &mut self.accounts[idx];
            account.total_operations = account.total_operations + 1;
            account.last_success = Some(now);
            account.failure_count = 0;
            if account.status == AccountStatus::Unavailable {
                // Recovery needs an explicit reset or a rebuild.
            } else if account.status != AccountStatus::Rebuilding {
                if account.error_rate_high() {
                    account.status = AccountStatus::Degraded;
                } else {
                    account.status = AccountStatus::Healthy;
                }
            }
            assert(self.accounts@ =~= before.update(idx as int, self.accounts@[idx as int]));
        }
        proof {
            assert forall|n: nat| old(self).headroom(n + 1) implies #[trigger] self.headroom(n) by {
                assert forall|id: u8| self.has_headroom(id, n) by {
                    assert(old(self).has_headroom(id, n + 1));
                }
            }
        }
    }

    /// Record a successful operation for an account, stamped with the current
    /// time. An id outside the pool is ignored.
    pub fn record_success(&mut self, account_id: u8)
        requires
            old(self).has_headroom(account_id, 1),
        ensures
            final(self).required() == old(self).required(),
            final(self).max_failures() == old(self).max_failures(),
            final(self).accounts().len() == old(self).accounts().len(),
            forall|i: int|
                0 <= i < old(self).accounts().len() && i != account_id
                    ==> #[trigger] final(self).accounts()[i] == old(self).accounts()[i],
            forall|n: nat| old(self).headroom(n + 1) ==> #[trigger] final(self).headroom(n),
            account_id >= old(self).accounts().len() ==> final(self).accounts() == old(
                self,
            ).accounts(),
            account_id < old(self).accounts().len() ==> {
                let before = old(self).accounts()[account_id as int];
                let after = final(self).accounts()[account_id as int];
                after.last_success.is_some() && final(self).accounts() == old(
                    self,
                ).accounts().update(
                    account_id as int,
                    AccountHealth {
                        total_operations: (before.total_operations + 1) as u64,
                        last_success: after.last_success,
                        failure_count: 0,
                        status: before.status_after_success(
                            before.failed_operations as int,
                            before.total_operations + 1,
                        ),
                        ..before
                    },
                )
            },
    {
        let now = now_unix_secs();
        self.record_success_at(account_id, now);
    }

    /// Record a failed operation for an account. An id outside the pool is
    /// ignored.
    pub fn record_failure(&mut self, account_id: u8, error: &str)
        requires
            old(self).has_headroom(account_id, 1),
        ensures
            final(self).required() == old(self).required(),
            final(self).max_failures() == old(self).max_failures(),
            final(self).accounts().len() == old(self).accounts().len(),
            forall|i: int|
                0 <= i < old(self).accounts().len() && i != account_id
                    ==> #[trigger] final(self).accounts()[i] == old(self).accounts()[i],
            forall|n: nat| old(self).headroom(n + 1) ==> #[trigger] final(self).headroom(n),
            account_id < old(self).accounts().len() ==> {
                let before = old(self).accounts()[account_id as int];
                let after = final(self).accounts()[account_id as int];
                &&& after.last_error matches Some(text) && text@ == error@
                &&& after == AccountHealth {
                    total_operations: (before.total_operations + 1) as u64,
                    failed_operations: (before.failed_operations + 1) as u64,
                    failure_count: (before.failure_count + 1) as u32,
                    last_error: after.last_error,
                    status: before.status_after_failure(
                        before.failure_count + 1,
                        before.failed_operations + 1,
                        before.total_operations + 1,
                        old(self).max_failures() as int,
                    ),
                    ..before
                }
            },
    {
        let idx = account_id as usize;
        if idx < self.accounts.len() {
            let max_failures = self.max_failures_before_unavailable;
            let account = &mut self.accounts[idx];
            account.total_operations = account.total_operations + 1;
            account.failed_operations = account.failed_operations + 1;
            account.failure_count = account.failure_count + 1;
            account.last_error = Some(error.to_string());
            if account.status != AccountStatus::Rebuilding {
                if account.failure_count >= max_failures {
                    account.status = AccountStatus::Unavailable;
                } else if account.error_rate_high() {
                    account.status = AccountStatus::Degraded;
                }
            }
        }
        proof {
            assert forall|n: nat| old(self).headroom(n + 1) implies #[trigger] self.headroom(n) by {
                assert forall|id: u8| self.has_headroom(id, n) by {
                    assert(old(self).has_headroom(id, n + 1));
                }
            }
        }
    }

    /// Get health status of a specific account; a fresh record for an id
    /// outside the pool.
    pub fn account_health(&self, account_id: u8) -> (r: AccountHealth)
        ensures
            r == if account_id < self.accounts().len() {
                self.accounts()[account_id as int]
            } else {
                AccountHealth::fresh(account_id)
            },
    {
        let idx = account_id as usize;
        if idx < self.accounts.len() {
            self.accounts[idx].clone()
        } else {
            AccountHealth::new(account_id)
        }
    }

    /// Get overall array health. The rebuild progress is 0 percent while an
    /// account is rebuilding and absent otherwise.
    pub fn array_health(&self) -> (r: ArrayHealth)
        ensures
            r.status == array_status_of(self.accounts(), self.required()),
            r.accounts@ == self.accounts(),
            r.required_accounts == self.required(),
            r.total_accounts == self.accounts().len(),
            r.rebuild_progress == if r.status == ArrayStatus::Rebuilding {
                Some(0u8)
            } else {
                None
            },
    {
        let n = self.accounts.len();
        let mut copies: Vec<AccountHealth> = Vec::new();
        let mut usable: usize = 0;
        let mut rebuilding = false;
        let mut all_healthy = true;
        let mut i: usize = 0;
        while i < n
            invariant
                n == self.accounts@.len(),
                i <= n,
                copies@ == self.accounts@.take(i as int),
                usable == usable_count(self.accounts@.take(i as int)),
                usable <= i,
                rebuilding == exists|j: int|
                    0 <= j < i && (#[trigger] self.accounts@[j]).status == AccountStatus::Rebuilding,
                all_healthy == forall|j: int|
                    0 <= j < i ==> (#[trigger] self.accounts@[j]).status == AccountStatus::Healthy,
            decreases n - i,
        {
            proof {
                let next = self.accounts@.take(i + 1);
                assert(next.drop_last() =~= self.accounts@.take(i as int));
                assert(next.last() == self.accounts@[i as int]);
            }
            let account = &self.accounts[i];
            if account.status == AccountStatus::Healthy || account.status
                == AccountStatus::Degraded {
                usable += 1;
            }
            if account.status == AccountStatus::Rebuilding {
                rebuilding = true;
            }
            if account.status != AccountStatus::Healthy {
                all_healthy = false;
            }
            copies.push(account.clone());
            assert(copies@ =~= self.accounts@.take(i + 1));
            i += 1;
        }
        assert(self.accounts@.take(i as int) =~= self.accounts@);
        let status = if rebuilding {
            ArrayStatus::Rebuilding
        } else if all_healthy {
            ArrayStatus::Healthy
        } else if usable >= self.required_accounts {
            ArrayStatus::Degraded
        } else {
            ArrayStatus::Failed
        };
        ArrayHealth {
            status,
            accounts: copies,
            required_accounts: self.required_accounts,
            total_accounts: n,
            rebuild_progress: if rebuilding {
                Some(0)
            } else {
                None
            },
        }
    }

    /// Check if array is degraded: degraded or rebuilding.
    pub fn is_degraded(&self) -> (r: bool)
        ensures
            r == (array_status_of(self.accounts(), self.required()) == ArrayStatus::Degraded
                || array_status_of(self.accounts(), self.required()) == ArrayStatus::Rebuilding),
    {
        let health = self.array_health();
        health.status == ArrayStatus::Degraded || health.status == ArrayStatus::Rebuilding
    }

    /// Check if array can operate (>= K accounts usable).
    pub fn can_operate(&self) -> (r: bool)
        ensures
            r == (usable_count(self.accounts()) >= self.required()),
    {
        self.healthy_count() >= self.required_accounts
    }

    /// Get list of usable account ids, in pool order.
    pub fn healthy_accounts(&self) -> (r: Vec<u8>)
        ensures
            r@ == usable_ids(self.accounts()),
    {
        let mut out: Vec<u8> = Vec::new();
        let mut i: usize = 0;
        while i < self.accounts.len()
            invariant
                i <= self.accounts@.len(),
                out@ == usable_ids(self.accounts@.take(i as int)),
            decreases self.accounts@.len() - i,
        {
            proof {
                let next = self.accounts@.take(i + 1);
                assert(next.drop_last() =~= self.accounts@.take(i as int));
                assert(next.last() == self.accounts@[i as int]);
            }
            let account = &self.accounts[i];
            if account.status == AccountStatus::Healthy || account.status
                == AccountStatus::Degraded {
                out.push(account.account_id);
            }
            i += 1;
        }
        assert(self.accounts@.take(i as int) =~= self.accounts@);
        out
    }

    /// Get count of usable accounts.
    pub fn healthy_count(&self) -> (r: usize)
        ensures
            r == usable_count(self.accounts()),
    {
        let mut count: usize = 0;
        let mut i: usize = 0;
        while i < self.accounts.len()
            invariant
                i <= self.accounts@.len(),
                count == usable_count(self.accounts@.take(i as int)),
                count <= i,
            decreases self.accounts@.len() - i,
        {
            proof {
                let next = self.accounts@.take(i + 1);
                assert(next.drop_last() =~= self.accounts@.take(i as int));
                assert(next.last() == self.accounts@[i as int]);
            }
            let account = &self.accounts[i];
            if account.status == AccountStatus::Healthy || account.status
                == AccountStatus::Degraded {
                count += 1;
            }
            i += 1;
        }
        assert(self.accounts@.take(i as int) =~= self.accounts@);
        count
    }

    /// Mark account as rebuilding. An id outside the pool is ignored.
    pub fn set_rebuilding(&mut self, account_id: u8)
        ensures
            final(self).required() == old(self).required(),
            final(self).max_failures() == old(self).max_failures(),
            account_id >= old(self).accounts().len() ==> final(self).accounts() == old(
                self,
            ).accounts(),
            account_id < old(self).accounts().len() ==> final(self).accounts() == old(
                self,
            ).accounts().update(
                account_id as int,
                AccountHealth {
                    status: AccountStatus::Rebuilding,
                    ..old(self).accounts()[account_id as int]
                },
            ),
    {
        let idx = account_id as usize;
        if idx < self.accounts.len() {
            let ghost before = self.accounts@;
            let account = &mut self.accounts[idx];
            account.status = AccountStatus::Rebuilding;
            assert(self.accounts@ =~= before.update(idx as int, self.accounts@[idx as int]));
        }
    }

    /// Mark account as healthy after rebuild: the run of failures and the
    /// last error are cleared. An id outside the pool is ignored.
    pub fn set_healthy(&mut self, account_id: u8)
        ensures
            final(self).required() == old(self).required(),
            final(self).max_failures() == old(self).max_failures(),
            account_id >= old(self).accounts().len() ==> final(self).accounts() == old(
                self,
            ).accounts(),
            account_id < old(self).accounts().len() ==> final(self).accounts() == old(
                self,
            ).accounts().update(
                account_id as int,
                AccountHealth {
                    status: AccountStatus::Healthy,
                    failure_count: 0,
                    last_error: None,
                    ..old(self).accounts()[account_id as int]
                },
            ),
    {
        let idx = account_id as usize;
        if idx < self.accounts.len() {
            let ghost before = self.accounts@;
            let account = &mut self.accounts[idx];
            account.status = AccountStatus::Healthy;
            account.failure_count = 0;
            account.last_error = None;
            assert(self.accounts@ =~= before.update(idx as int, self.accounts@[idx as int]));
        }
    }

    /// Reset failure count (e.g., after manual intervention): the failure
    /// counters and the last error are cleared, and an unavailable account is
    /// healthy again. An id outside the pool is ignored.
    pub fn reset_failures(&mut self, account_id: u8)
        ensures
            final(self).required() == old(self).required(),
            final(self).max_failures() == old(self).max_failures(),
            account_id >= old(self).accounts().len() ==> final(self).accounts() == old(
                self,
            ).accounts(),
            account_id < old(self).accounts().len() ==> {
                let before = old(self).accounts()[account_id as int];
                final(self).accounts() == old(self).accounts().update(
                    account_id as int,
                    AccountHealth {
                        status: if before.status == AccountStatus::Unavailable {
                            AccountStatus::Healthy
                        } else {
                            before.status
                        },
                        failure_count: 0,
                        failed_operations: 0,
                        last_error: None,
                        ..before
                    },
                )
            },
    {
        let idx = account_id as usize;
        if idx < self.accounts.len() {
            let ghost before = self.accounts@;
            let account = &mut self.accounts[idx];
            account.failure_count = 0;
            account.failed_operations = 0;
            account.last_error = None;
            if account.status == AccountStatus::Unavailable {
                account.status = AccountStatus::Healthy;
            }
            assert(self.accounts@ =~= before.update(idx as int, self.accounts@[idx as int]));
        }
    }
}

} // verus!
