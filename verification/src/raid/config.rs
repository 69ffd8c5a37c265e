//! Configuration types for erasure coding over a pool of accounts.

use crate::error::{Error, Result};
use std::path::PathBuf;
use vstd::prelude::*;

verus! {

/// A filesystem path, carried through without being read.
#[verifier::external_type_specification]
#[verifier::external_body]
pub struct ExPathBuf(std::path::PathBuf);

/// `PathBuf::clone` of std: the copy is the same path.
pub assume_specification[ <std::path::PathBuf as Clone>::clone ](p: &std::path::PathBuf) -> (r:
    std::path::PathBuf)
    ensures
        r == *p,
;

/// Erasure coding preset configurations.
#[derive(Debug, Clone, Copy, PartialEq, Eq, Structural)]
pub enum ErasurePreset {
    /// Can tolerate 1 account failure (N-1 of N).
    Raid5,
    /// Can tolerate 2 account failures (N-2 of N).
    Raid6,
    /// Custom K-of-N configuration.
    Custom,
}

impl Default for ErasurePreset {
    fn default() -> (r: Self)
        ensures
            r == ErasurePreset::Raid5,
    {
        ErasurePreset::Raid5
    }
}

/// Erasure coding configuration: any `data_chunks` (K) blocks out of
/// `total_chunks` (N) reconstruct the data.
#[derive(Debug, Clone)]
pub struct ErasureConfig {
    /// Number of data chunks required to reconstruct (K).
    pub data_chunks: usize,
    /// Total number of chunks including parity (N).
    pub total_chunks: usize,
    /// Preset used for this configuration.
    pub preset: ErasurePreset,
    /// Whether erasure coding is enabled.
    pub enabled: bool,
}

/// Whether erasure coding is enabled when nothing is configured.
pub fn default_enabled() -> (r: bool)
    ensures
        r,
{
    true
}

/// The most shards that a stripe can have.
pub const MAX_TOTAL_CHUNKS: usize = 255;

impl Default for ErasureConfig {
    fn default() -> (r: Self)
        ensures
            r.data_chunks == 2,
            r.total_chunks == 3,
            r.preset == ErasurePreset::Raid5,
            r.enabled,
    {
        ErasureConfig { data_chunks: 2, total_chunks: 3, preset: ErasurePreset::Raid5, enabled: true }
    }
}

impl ErasureConfig {
    /// The validation rules: K at least 1, N at least 2, K below N, and N
    /// at most 255, the most shards that the code has.
    pub open spec fn valid(&self) -> bool {
        &&& self.data_chunks >= 1
        &&& self.total_chunks >= 2
        &&& self.data_chunks < self.total_chunks
        &&& self.total_chunks <= MAX_TOTAL_CHUNKS
    }

    /// Create a new erasure config with custom K and N values.
    pub fn new(data_chunks: usize, total_chunks: usize) -> (r: Self)
        ensures
            r.data_chunks == data_chunks,
            r.total_chunks == total_chunks,
            r.preset == ErasurePreset::Custom,
            r.enabled,
    {
        ErasureConfig { data_chunks, total_chunks, preset: ErasurePreset::Custom, enabled: true }
    }

    /// Create an erasure config from a preset and the number of accounts,
    /// which becomes N. RAID5 takes K = N - 1 and needs two accounts, RAID6
    /// takes K = N - 2 and needs three; the custom preset gives no
    /// parameters. More than 255 accounts are refused.
    pub fn from_preset(preset: ErasurePreset, num_accounts: usize) -> (r: Result<Self>)
        ensures
            match preset {
                ErasurePreset::Raid5 => r.is_ok() == (2 <= num_accounts <= MAX_TOTAL_CHUNKS),
                ErasurePreset::Raid6 => r.is_ok() == (3 <= num_accounts <= MAX_TOTAL_CHUNKS),
                ErasurePreset::Custom => r.is_err(),
            },
            match r {
                Ok(c) => {
                    &&& c.total_chunks == num_accounts
                    &&& c.data_chunks == match preset {
                        ErasurePreset::Raid5 => num_accounts - 1,
                        _ => num_accounts - 2,
                    }
                    &&& c.preset == preset
                    &&& c.enabled
                    &&& c.valid()
                },
                Err(e) => e is InvalidConfig,
            },
    {
        if num_accounts > MAX_TOTAL_CHUNKS {
            return match preset {
                ErasurePreset::Custom => Err(
                    Error::InvalidConfig(
                        "Custom preset requires explicit K and N values".to_string(),
                    ),
                ),
                _ => Err(Error::InvalidConfig("At most 255 accounts make a stripe".to_string())),
            };
        }
        let (data_chunks, total_chunks) = match preset {
            ErasurePreset::Raid5 => {
                if num_accounts < 2 {
                    return Err(
                        Error::InvalidConfig("RAID5 requires at least 2 accounts".to_string()),
                    );
                }
                (num_accounts - 1, num_accounts)
            },
            ErasurePreset::Raid6 => {
                if num_accounts < 3 {
                    return Err(
                        Error::InvalidConfig("RAID6 requires at least 3 accounts".to_string()),
                    );
                }
                (num_accounts - 2, num_accounts)
            },
            ErasurePreset::Custom => {
                return Err(
                    Error::InvalidConfig(
                        "Custom preset requires explicit K and N values".to_string(),
                    ),
                );
            },
        };
        Ok(ErasureConfig { data_chunks, total_chunks, preset, enabled: true })
    }

    /// Validate the erasure configuration.
    pub fn validate(&self) -> (r: Result<()>)
        ensures
            r.is_ok() == self.valid(),
            r matches Err(e) ==> e is InvalidConfig,
    {
        if self.data_chunks < 1 {
            return Err(Error::InvalidConfig("data_chunks (K) must be at least 1".to_string()));
        }
        if self.total_chunks < 2 {
            return Err(Error::InvalidConfig("total_chunks (N) must be at least 2".to_string()));
        }
        if self.data_chunks >= self.total_chunks {
            return Err(
                Error::InvalidConfig(
                    "data_chunks (K) must be less than total_chunks (N)".to_string(),
                ),
            );
        }
        if self.total_chunks > MAX_TOTAL_CHUNKS {
            return Err(Error::InvalidConfig("total_chunks (N) must be at most 255".to_string()));
        }
        Ok(())
    }

    /// Get the number of parity chunks.
    pub fn parity_chunks(&self) -> (r: usize)
        requires
            self.data_chunks <= self.total_chunks,
        ensures
            r == self.total_chunks - self.data_chunks,
    {
        self.total_chunks - self.data_chunks
    }

    /// Get the maximum number of failures that can be tolerated.
    pub fn fault_tolerance(&self) -> (r: usize)
        requires
            self.data_chunks <= self.total_chunks,
        ensures
            r == self.total_chunks - self.data_chunks,
    {
        self.parity_chunks()
    }
}

/// Configuration for a single account in the pool.
#[derive(Debug, Clone)]
pub struct AccountConfig {
    /// Unique identifier for this account within the pool (0-255).
    pub account_id: u8,
    /// API id of the remote account.
    pub api_id: i32,
    /// API hash of the remote account.
    pub api_hash: String,
    /// Phone number for authentication (optional, can be provided at runtime).
    pub phone: Option<String>,
    /// Session file path for this account.
    pub session_file: PathBuf,
    /// Priority for chunk distribution (higher = preferred, 0-255).
    pub priority: u8,
    /// Whether this account is enabled.
    pub enabled: bool,
}

/// Priority of an account when nothing is configured.
pub fn default_priority() -> (r: u8)
    ensures
        r == 100,
{
    100
}

impl AccountConfig {
    /// Create a new account configuration: enabled, priority 100, no phone.
    pub fn new(account_id: u8, api_id: i32, api_hash: String, session_file: PathBuf) -> (r: Self)
        ensures
            r.account_id == account_id,
            r.api_id == api_id,
            r.api_hash == api_hash,
            r.phone.is_none(),
            r.session_file == session_file,
            r.priority == 100,
            r.enabled,
    {
        AccountConfig {
            account_id,
            api_id,
            api_hash,
            phone: None,
            session_file,
            priority: default_priority(),
            enabled: true,
        }
    }

    /// Set the phone number.
    pub fn with_phone(self, phone: String) -> (r: Self)
        ensures
            r == (AccountConfig { phone: Some(phone), ..self }),
    {
        let mut account = self;
        account.phone = Some(phone);
        account
    }

    /// Set the priority.
    pub fn with_priority(self, priority: u8) -> (r: Self)
        ensures
            r == (AccountConfig { priority, ..self }),
    {
        let mut account = self;
        account.priority = priority;
        account
    }

    /// Disable this account.
    pub fn disabled(self) -> (r: Self)
        ensures
            r == (AccountConfig { enabled: false, ..self }),
    {
        let mut account = self;
        account.enabled = false;
        account
    }
}

/// Pool configuration for managing multiple accounts.
#[derive(Debug, Clone)]
pub struct PoolConfig {
    /// List of account configurations.
    pub accounts: Vec<AccountConfig>,
    /// Erasure coding configuration.
    pub erasure: ErasureConfig,
    /// Maximum concurrent uploads across all accounts.
    pub max_concurrent_uploads: usize,
    /// Maximum concurrent downloads across all accounts.
    pub max_concurrent_downloads: usize,
    /// Number of retry attempts for failed operations.
    pub retry_attempts: u32,
    /// Health check interval in seconds.
    pub health_check_interval_secs: u64,
}

/// Concurrent uploads when nothing is configured.
pub fn default_max_concurrent_uploads() -> (r: usize)
    ensures
        r == 6,
{
    6
}

/// Concurrent downloads when nothing is configured.
pub fn default_max_concurrent_downloads() -> (r: usize)
    ensures
        r == 10,
{
    10
}

/// Retry attempts when nothing is configured.
pub fn default_retry_attempts() -> (r: u32)
    ensures
        r == 3,
{
    3
}

/// Seconds between health checks when nothing is configured: five minutes.
pub fn default_health_check_interval() -> (r: u64)
    ensures
        r == 300,
{
    300
}

impl Default for PoolConfig {
    fn default() -> (r: Self)
        ensures
            r.accounts@.len() == 0,
            r.erasure.data_chunks == 2,
            r.erasure.total_chunks == 3,
            r.erasure.preset == ErasurePreset::Raid5,
            r.erasure.enabled,
            r.max_concurrent_uploads == 6,
            r.max_concurrent_downloads == 10,
            r.retry_attempts == 3,
            r.health_check_interval_secs == 300,
    {
        PoolConfig {
            accounts: Vec::new(),
            erasure: ErasureConfig::default(),
            max_concurrent_uploads: default_max_concurrent_uploads(),
            max_concurrent_downloads: default_max_concurrent_downloads(),
            retry_attempts: default_retry_attempts(),
            health_check_interval_secs: default_health_check_interval(),
        }
    }
}

/// Number of enabled accounts.
pub open spec fn enabled_count(accounts: Seq<AccountConfig>) -> nat
    decreases accounts.len(),
{
    if accounts.len() == 0 {
        0
    } else {
        enabled_count(accounts.drop_last()) + if accounts.last().enabled {
            1nat
        } else {
            0nat
        }
    }
}

/// The enabled accounts of priority `p`, in configuration order.
pub open spec fn enabled_with_priority(accounts: Seq<AccountConfig>, p: int) -> Seq<AccountConfig>
    decreases accounts.len(),
{
    if accounts.len() == 0 {
        accounts
    } else if accounts.last().enabled && accounts.last().priority == p {
        enabled_with_priority(accounts.drop_last(), p).push(accounts.last())
    } else {
        enabled_with_priority(accounts.drop_last(), p)
    }
}

/// The enabled accounts of priority `lo` and above, highest priority first;
/// accounts of equal priority keep their configuration order.
pub open spec fn ranked_from(accounts: Seq<AccountConfig>, lo: int) -> Seq<AccountConfig>
    decreases 256 - lo,
{
    if lo > 255 {
        Seq::empty()
    } else {
        ranked_from(accounts, lo + 1) + enabled_with_priority(accounts, lo)
    }
}

/// Number of enabled accounts of priority `lo` and above.
pub open spec fn enabled_from(accounts: Seq<AccountConfig>, lo: int) -> nat
    decreases accounts.len(),
{
    if accounts.len() == 0 {
        0
    } else {
        enabled_from(accounts.drop_last(), lo) + if accounts.last().enabled
            && accounts.last().priority >= lo {
            1nat
        } else {
            0nat
        }
    }
}

/// The accounts of priority `lo` and above are those of priority `lo` and
/// those above it.
proof fn lemma_enabled_from_step(accounts: Seq<AccountConfig>, lo: int)
    ensures
        enabled_from(accounts, lo) == enabled_from(accounts, lo + 1) + enabled_with_priority(
            accounts,
            lo,
        ).len(),
    decreases accounts.len(),
{
    if accounts.len() > 0 {
        lemma_enabled_from_step(accounts.drop_last(), lo);
    }
}

/// The ranking from `lo` on lists every enabled account of that priority or
/// above once.
proof fn lemma_ranked_from_len(accounts: Seq<AccountConfig>, lo: int)
    requires
        0 <= lo,
    ensures
        ranked_from(accounts, lo).len() == enabled_from(accounts, lo),
    decreases 256 - lo,
{
    if lo > 255 {
        lemma_enabled_from_none(accounts, lo);
    } else {
        lemma_ranked_from_len(accounts, lo + 1);
        lemma_enabled_from_step(accounts, lo);
    }
}

/// No account has a priority above 255.
proof fn lemma_enabled_from_none(accounts: Seq<AccountConfig>, lo: int)
    requires
        lo > 255,
    ensures
        enabled_from(accounts, lo) == 0,
    decreases accounts.len(),
{
    if accounts.len() > 0 {
        lemma_enabled_from_none(accounts.drop_last(), lo);
    }
}

/// Every enabled account has priority 0 or above.
proof fn lemma_enabled_from_zero(accounts: Seq<AccountConfig>)
    ensures
        enabled_from(accounts, 0) == enabled_count(accounts),
    decreases accounts.len(),
{
    if accounts.len() > 0 {
        lemma_enabled_from_zero(accounts.drop_last());
    }
}

/// The ranking lists every enabled account once.
pub proof fn lemma_ranked_len(accounts: Seq<AccountConfig>)
    ensures
        ranked_from(accounts, 0).len() == enabled_count(accounts),
{
    lemma_ranked_from_len(accounts, 0);
    lemma_enabled_from_zero(accounts);
}

/// Index of the first account with the given id, if there is one.
pub open spec fn first_with_id(accounts: Seq<AccountConfig>, account_id: u8) -> Option<int> {
    if exists|i: int| 0 <= i < accounts.len() && (#[trigger] accounts[i]).account_id == account_id {
        Some(
            choose|i: int|
                0 <= i < accounts.len() && (#[trigger] accounts[i]).account_id == account_id
                    && forall|j: int| 0 <= j < i ==> (#[trigger] accounts[j]).account_id != account_id,
        )
    } else {
        None
    }
}

impl PoolConfig {
    /// The validation rules: valid erasure parameters, at least N enabled
    /// accounts, no account id twice, and credentials on every enabled account.
    pub open spec fn valid(&self) -> bool {
        &&& self.erasure.valid()
        &&& enabled_count(self.accounts@) >= self.erasure.total_chunks
        &&& forall|i: int, j: int|
            0 <= i < j < self.accounts@.len() ==> (#[trigger] self.accounts@[i]).account_id != (
            #[trigger] self.accounts@[j]).account_id
        &&& forall|i: int|
            0 <= i < self.accounts@.len() && (#[trigger] self.accounts@[i]).enabled
                ==> self.accounts@[i].api_id != 0 && self.accounts@[i].api_hash@.len() > 0
    }

    /// Create a new pool configuration with the default limits.
    pub fn new(accounts: Vec<AccountConfig>, erasure: ErasureConfig) -> (r: Self)
        ensures
            r.accounts == accounts,
            r.erasure == erasure,
            r.max_concurrent_uploads == 6,
            r.max_concurrent_downloads == 10,
            r.retry_attempts == 3,
            r.health_check_interval_secs == 300,
    {
        PoolConfig {
            accounts,
            erasure,
            max_concurrent_uploads: default_max_concurrent_uploads(),
            max_concurrent_downloads: default_max_concurrent_downloads(),
            retry_attempts: default_retry_attempts(),
            health_check_interval_secs: default_health_check_interval(),
        }
    }

    /// Count the enabled accounts.
    fn count_enabled(&self) -> (r: usize)
        ensures
            r == enabled_count(self.accounts@),
    {
        let mut count: usize = 0;
        let mut i: usize = 0;
        while i < self.accounts.len()
            invariant
                i <= self.accounts@.len(),
                count == enabled_count(self.accounts@.take(i as int)),
                count <= i,
            decreases self.accounts@.len() - i,
        {
            proof {
                let next = self.accounts@.take(i + 1);
                assert(next.drop_last() =~= self.accounts@.take(i as int));
                assert(next.last() == self.accounts@[i as int]);
            }
            if self.accounts[i].enabled {
                count += 1;
            }
            i += 1;
        }
        assert(self.accounts@.take(i as int) =~= self.accounts@);
        count
    }

    /// Validate the pool configuration.
    pub fn validate(&self) -> (r: Result<()>)
        ensures
            r.is_ok() == self.valid(),
            r matches Err(e) ==> e is InvalidConfig,
    {
        match self.erasure.validate() {
            Ok(()) => {},
            Err(e) => {
                return Err(e);
            },
        }
        let enabled = self.count_enabled();
        if enabled < self.erasure.total_chunks {
            return Err(Error::InvalidConfig("Not enough enabled accounts".to_string()));
        }
        let n = self.accounts.len();
        let mut j: usize = 0;
        while j < n
            invariant
                n == self.accounts@.len(),
                j <= n,
                forall|a: int, b: int|
                    0 <= a < b < j ==> (#[trigger] self.accounts@[a]).account_id != (
                    #[trigger] self.accounts@[b]).account_id,
            decreases n - j,
        {
            let mut i: usize = 0;
            while i < j
                invariant
                    n == self.accounts@.len(),
                    i <= j < n,
                    forall|a: int|
                        0 <= a < i ==> (#[trigger] self.accounts@[a]).account_id
                            != self.accounts@[j as int].account_id,
                decreases j - i,
            {
                if self.accounts[i].account_id == self.accounts[j].account_id {
                    return Err(Error::InvalidConfig("Duplicate account_id".to_string()));
                }
                i += 1;
            }
            j += 1;
        }
        let mut k: usize = 0;
        while k < n
            invariant
                n == self.accounts@.len(),
                k <= n,
                forall|a: int|
                    0 <= a < k && (#[trigger] self.accounts@[a]).enabled ==> self.accounts@[a].api_id
                        != 0 && self.accounts@[a].api_hash@.len() > 0,
            decreases n - k,
        {
            let account = &self.accounts[k];
            if account.enabled {
                if account.api_id == 0 {
                    return Err(Error::InvalidConfig("Account has invalid api_id (0)".to_string()));
                }
                if account.api_hash.as_str().unicode_len() == 0 {
                    return Err(Error::InvalidConfig("Account has empty api_hash".to_string()));
                }
            }
            k += 1;
        }
        Ok(())
    }

    /// Get all enabled accounts sorted by priority (highest first); accounts
    /// of equal priority stay in configuration order.
    pub fn enabled_accounts(&self) -> (r: Vec<&AccountConfig>)
        ensures
            r@.len() == ranked_from(self.accounts@, 0).len(),
            forall|i: int| 0 <= i < r@.len() ==> *(#[trigger] r@[i]) == ranked_from(self.accounts@, 0)[i],
    {
        let mut out: Vec<&AccountConfig> = Vec::new();
        let mut lo: u16 = 256;
        while lo > 0
            invariant
                lo <= 256,
                out@.len() == ranked_from(self.accounts@, lo as int).len(),
                forall|i: int|
                    0 <= i < out@.len() ==> *(#[trigger] out@[i]) == ranked_from(
                        self.accounts@,
                        lo as int,
                    )[i],
            decreases lo,
        {
            let ghost base = ranked_from(self.accounts@, lo as int);
            lo -= 1;
            let mut i: usize = 0;
            while i < self.accounts.len()
                invariant
                    i <= self.accounts@.len(),
                    lo < 256,
                    base == ranked_from(self.accounts@, lo + 1),
                    out@.len() == (base + enabled_with_priority(
                        self.accounts@.take(i as int),
                        lo as int,
                    )).len(),
                    forall|j: int|
                        0 <= j < out@.len() ==> *(#[trigger] out@[j]) == (base
                            + enabled_with_priority(self.accounts@.take(i as int), lo as int))[j],
                decreases self.accounts@.len() - i,
            {
                proof {
                    let next = self.accounts@.take(i + 1);
                    assert(next.drop_last() =~= self.accounts@.take(i as int));
                    assert(next.last() == self.accounts@[i as int]);
                }
                let account = &self.accounts[i];
                if account.enabled && account.priority as u16 == lo {
                    out.push(account);
                }
                i += 1;
            }
            assert(self.accounts@.take(i as int) =~= self.accounts@);
        }
        out
    }

    /// Index of the first account with the given id.
    fn position_of(&self, account_id: u8) -> (r: Option<usize>)
        ensures
            match r {
                Some(i) => first_with_id(self.accounts@, account_id) == Some(i as int),
                None => first_with_id(self.accounts@, account_id).is_none(),
            },
            r matches Some(i) ==> i < self.accounts@.len() && self.accounts@[i as int].account_id
                == account_id,
    {
        let mut i: usize = 0;
        while i < self.accounts.len()
            invariant
                i <= self.accounts@.len(),
                forall|j: int| 0 <= j < i ==> (#[trigger] self.accounts@[j]).account_id != account_id,
            decreases self.accounts@.len() - i,
        {
            if self.accounts[i].account_id == account_id {
                return Some(i);
            }
            i += 1;
        }
        None
    }

    /// Get an account by id: the first one configured with it.
    pub fn get_account(&self, account_id: u8) -> (r: Option<&AccountConfig>)
        ensures
            match first_with_id(self.accounts@, account_id) {
                Some(i) => r == Some(&self.accounts@[i]),
                None => r.is_none(),
            },
    {
        match self.position_of(account_id) {
            Some(i) => Some(&self.accounts[i]),
            None => None,
        }
    }

    /// Get a mutable reference to an account by id: the first one configured
    /// with it. Only that account can change through the reference.
    pub fn get_account_mut(&mut self, account_id: u8) -> (r: Option<&mut AccountConfig>)
        ensures
            match first_with_id(old(self).accounts@, account_id) {
                Some(i) => r matches Some(a) && *a == old(self).accounts@[i] && *final(self) == (
                PoolConfig { accounts: final(self).accounts, ..*old(self) })
                    && final(self).accounts@ == old(self).accounts@.update(i, *final(a)),
                None => r.is_none() && *final(self) == *old(self),
            },
    {
        match self.position_of(account_id) {
            Some(i) => Some(&mut self.accounts[i]),
            None => None,
        }
    }

    /// Add a new account to the pool; an id that is already configured is
    /// refused and the pool stays as it was.
    pub fn add_account(&mut self, account: AccountConfig) -> (r: Result<()>)
        ensures
            r.is_ok() == first_with_id(old(self).accounts@, account.account_id).is_none(),
            r.is_ok() ==> *final(self) == (PoolConfig {
                accounts: final(self).accounts,
                ..*old(self)
            }) && final(self).accounts@ == old(self).accounts@.push(account),
            r matches Err(e) ==> e is InvalidConfig && *final(self) == *old(self),
    {
        if self.position_of(account.account_id).is_some() {
            return Err(Error::InvalidConfig("Account with this id already exists".to_string()));
        }
        self.accounts.push(account);
        Ok(())
    }

    /// Remove an account from the pool by id: the first one configured with it.
    pub fn remove_account(&mut self, account_id: u8) -> (r: Option<AccountConfig>)
        ensures
            *final(self) == (PoolConfig { accounts: final(self).accounts, ..*old(self) }),
            match first_with_id(old(self).accounts@, account_id) {
                Some(i) => r == Some(old(self).accounts@[i]) && final(self).accounts@ == old(
                    self,
                ).accounts@.remove(i),
                None => r.is_none() && final(self).accounts@ == old(self).accounts@,
            },
    {
        match self.position_of(account_id) {
            Some(pos) => Some(self.accounts.remove(pos)),
            None => None,
        }
    }
}

} // verus!
