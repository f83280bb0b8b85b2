//! The pool registry: for each pool key, the pool's custodial account, its LP
//! token, and the bounded list of wallets that provided liquidity to it.
use crate::ledger::AccountId;
use crate::pair::TokenId;
use vstd::prelude::*;

verus! {

/// A registered pool.
#[derive(Clone, Copy, Debug, PartialEq, Eq, Structural)]
pub struct Pool {
    /// Custodial account holding the pool's reserves and its LP supply.
    pub account: AccountId,
    /// The pool's LP token.
    pub lp_token: TokenId,
}

/// Why the registry refused a change.
#[derive(Clone, Copy, Debug, PartialEq, Eq, Structural)]
pub enum RegistryError {
    /// A pool with this key exists already.
    PoolExists,
    /// The pool has as many providers as it may have.
    ProvidersFull,
}

/// Abstract view of one registry entry.
#[verifier::ext_equal]
pub struct PoolRecord {
    pub pair_id: Seq<u8>,
    pub pool: Pool,
    pub providers: Seq<u64>,
}

/// Index of the first record whose key is `key`.
pub open spec fn find_pool(s: Seq<PoolRecord>, key: Seq<u8>) -> Option<int>
    decreases s.len(),
{
    if s.len() == 0 {
        None
    } else {
        match find_pool(s.drop_last(), key) {
            Some(i) => Some(i),
            None => if s.last().pair_id == key {
                Some(s.len() - 1)
            } else {
                None
            },
        }
    }
}

/// `find_pool` finds the first record with the key, and `None` means that
/// no record has it.
pub proof fn lemma_find_pool(s: Seq<PoolRecord>, key: Seq<u8>)
    ensures
        match find_pool(s, key) {
            Some(i) => 0 <= i < s.len() && s[i].pair_id == key && forall|j: int|
                0 <= j < i ==> #[trigger] s[j].pair_id != key,
            None => forall|j: int| 0 <= j < s.len() ==> #[trigger] s[j].pair_id != key,
        },
    decreases s.len(),
{
    if s.len() > 0 {
        let d = s.drop_last();
        lemma_find_pool(d, key);
        assert forall|j: int| 0 <= j < d.len() implies d[j] == s[j] by {}
        match find_pool(d, key) {
            Some(i) => {
                assert forall|j: int| 0 <= j < i implies #[trigger] s[j].pair_id != key by {
                    assert(d[j].pair_id != key);
                }
            },
            None => {
                assert forall|j: int| 0 <= j < d.len() implies #[trigger] s[j].pair_id != key by {
                    assert(d[j].pair_id != key);
                }
            },
        }
    }
}

/// Replacing a record by one with the same key leaves every lookup as it was.
pub proof fn lemma_find_pool_update(s: Seq<PoolRecord>, i: int, r: PoolRecord, key: Seq<u8>)
    requires
        0 <= i < s.len(),
        r.pair_id == s[i].pair_id,
    ensures
        find_pool(s.update(i, r), key) == find_pool(s, key),
{
    let u = s.update(i, r);
    lemma_find_pool(s, key);
    lemma_find_pool(u, key);
    assert forall|j: int| 0 <= j < s.len() implies (u[j].pair_id == key) == (s[j].pair_id
        == key) by {
        if j == i {
        }
    }
    match find_pool(s, key) {
        Some(a) => match find_pool(u, key) {
            Some(b) => {
                if a < b {
                    assert(u[a].pair_id == key);
                } else if b < a {
                    assert(s[b].pair_id == key);
                }
            },
            None => {
                assert(u[a].pair_id == key);
            },
        },
        None => match find_pool(u, key) {
            Some(b) => {
                assert(s[b].pair_id == key);
            },
            None => {},
        },
    }
}

/// One registered pool and its liquidity providers.
pub struct PoolEntry {
    pair_id: [u8; 16],
    pool: Pool,
    providers: Vec<u64>,
}

impl View for PoolEntry {
    type V = PoolRecord;

    closed spec fn view(&self) -> PoolRecord {
        PoolRecord { pair_id: self.pair_id@, pool: self.pool, providers: self.providers@ }
    }
}

/// The set of registered pools, in order of creation.
pub struct PoolRegistry {
    entries: Vec<PoolEntry>,
}

impl View for PoolRegistry {
    type V = Seq<PoolRecord>;

    closed spec fn view(&self) -> Seq<PoolRecord> {
        self.entries@.map_values(|e: PoolEntry| e@)
    }
}

/// Whether two pool keys are equal.
fn same_key(a: &[u8; 16], b: &[u8; 16]) -> (r: bool)
    ensures
        r == (a@ == b@),
{
    let mut i: usize = 0;
    while i < 16
        invariant
            i <= 16,
            a@.len() == 16,
            b@.len() == 16,
            forall|j: int| 0 <= j < i ==> a@[j] == b@[j],
        decreases 16 - i,
    {
        if a[i] != b[i] {
            return false;
        }
        i = i + 1;
    }
    assert(a@ =~= b@);
    true
}

impl PoolRegistry {
    /// A registry without pools.
    pub fn new() -> (r: PoolRegistry)
        ensures
            r@ == Seq::<PoolRecord>::empty(),
    {
        let r = PoolRegistry { entries: Vec::new() };
        assert(r@ =~= Seq::<PoolRecord>::empty());
        r
    }

    /// Number of registered pools.
    pub fn len(&self) -> (r: usize)
        ensures
            r == self@.len(),
    {
        self.entries.len()
    }

    /// Index of the pool registered under `pair_id`.
    pub fn lookup(&self, pair_id: &[u8; 16]) -> (r: Option<usize>)
        ensures
            r matches Some(i) ==> find_pool(self@, pair_id@) == Some(i as int),
            r is None ==> find_pool(self@, pair_id@) is None,
    {
        proof {
            lemma_find_pool(self@, pair_id@);
        }
        let mut i: usize = 0;
        while i < self.entries.len()
            invariant
                i <= self.entries@.len(),
                self@.len() == self.entries@.len(),
                forall|j: int| 0 <= j < i ==> #[trigger] self@[j].pair_id != pair_id@,
                match find_pool(self@, pair_id@) {
                    Some(k) => 0 <= k < self@.len() && self@[k].pair_id == pair_id@ && forall|
                        j: int,
                    | 0 <= j < k ==> #[trigger] self@[j].pair_id != pair_id@,
                    None => forall|j: int|
                        0 <= j < self@.len() ==> #[trigger] self@[j].pair_id != pair_id@,
                },
            decreases self.entries@.len() - i,
        {
            assert(self@[i as int] == self.entries@[i as int]@);
            if same_key(&self.entries[i].pair_id, pair_id) {
                proof {
                    assert(self@[i as int].pair_id == pair_id@);
                    match find_pool(self@, pair_id@) {
                        Some(k) => {
                            if k > i {
                                assert(self@[i as int].pair_id != pair_id@);
                            }
                        },
                        None => {
                            assert(self@[i as int].pair_id != pair_id@);
                        },
                    }
                }
                return Some(i);
            }
            i = i + 1;
        }
        None
    }

    /// The pool at index `i`.
    pub fn pool(&self, i: usize) -> (r: Pool)
        requires
            i < self@.len(),
        ensures
            r == self@[i as int].pool,
    {
        self.entries[i].pool
    }

    /// Number of providers of the pool at index `i`.
    pub fn provider_count(&self, i: usize) -> (r: usize)
        requires
            i < self@.len(),
        ensures
            r == self@[i as int].providers.len(),
    {
        self.entries[i].providers.len()
    }

    /// The providers of the pool at index `i`, in the order they joined.
    pub fn providers(&self, i: usize) -> (r: Vec<u64>)
        requires
            i < self@.len(),
        ensures
            r@ == self@[i as int].providers,
    {
        let providers = &self.entries[i].providers;
        assert(self@[i as int] == self.entries@[i as int]@);
        let mut r: Vec<u64> = Vec::new();
        let mut j: usize = 0;
        while j < providers.len()
            invariant
                j <= providers@.len(),
                r@ =~= providers@.take(j as int),
            decreases providers@.len() - j,
        {
            r.push(providers[j]);
            j = j + 1;
        }
        assert(r@ =~= providers@);
        r
    }

    /// Whether `wallet` provided liquidity to the pool at index `i`.
    pub fn is_provider(&self, i: usize, wallet: u64) -> (r: bool)
        requires
            i < self@.len(),
        ensures
            r == self@[i as int].providers.contains(wallet),
    {
        let providers = &self.entries[i].providers;
        assert(self@[i as int] == self.entries@[i as int]@);
        assert(providers@ == self@[i as int].providers);
        let mut j: usize = 0;
        while j < providers.len()
            invariant
                j <= providers@.len(),
                i < self@.len(),
                providers@ == self@[i as int].providers,
                forall|k: int| 0 <= k < j ==> providers@[k] != wallet,
            decreases providers@.len() - j,
        {
            if providers[j] == wallet {
                assert(self@[i as int].providers[j as int] == wallet);
                return true;
            }
            j = j + 1;
        }
        false
    }

    /// Records `wallet` as a provider of the pool at index `i`: nothing to do
    /// when it is one already; refused when the pool has `max_providers`.
    pub fn add_provider(&mut self, i: usize, wallet: u64, max_providers: u32) -> (r: Result<
        (),
        RegistryError,
    >)
        requires
            i < old(self)@.len(),
        ensures
            ({
                let rec = old(self)@[i as int];
                if rec.providers.contains(wallet) {
                    r is Ok && final(self)@ == old(self)@
                } else if rec.providers.len() < max_providers {
                    r is Ok && final(self)@ == old(self)@.update(
                        i as int,
                        PoolRecord {
                            pair_id: rec.pair_id,
                            pool: rec.pool,
                            providers: rec.providers.push(wallet),
                        },
                    )
                } else {
                    r == Err::<(), RegistryError>(RegistryError::ProvidersFull) && final(self)@
                        == old(self)@
                }
            }),
    {
        if self.is_provider(i, wallet) {
            return Ok(());
        }
        if self.provider_count(i) >= max_providers as usize {
            return Err(RegistryError::ProvidersFull);
        }
        let mut entry = self.entries.remove(i);
        entry.providers.push(wallet);
        self.entries.insert(i, entry);
        assert(self@ =~= old(self)@.update(
            i as int,
            PoolRecord {
                pair_id: old(self)@[i as int].pair_id,
                pool: old(self)@[i as int].pool,
                providers: old(self)@[i as int].providers.push(wallet),
            },
        ));
        Ok(())
    }

    /// Registers `pool` under `pair_id`, without providers; refused when a
    /// pool has that key already.
    pub fn create(&mut self, pair_id: [u8; 16], pool: Pool) -> (r: Result<(), RegistryError>)
        ensures
            match find_pool(old(self)@, pair_id@) {
                Some(_) => {
                    &&& r == Err::<(), RegistryError>(RegistryError::PoolExists)
                    &&& final(self)@ == old(self)@
                },
                None => r is Ok && final(self)@ == old(self)@.push(
                    PoolRecord { pair_id: pair_id@, pool, providers: Seq::empty() },
                ),
            },
    {
        if self.lookup(&pair_id).is_some() {
            return Err(RegistryError::PoolExists);
        }
        let providers: Vec<u64> = Vec::new();
        let entry = PoolEntry { pair_id, pool, providers };
        assert(entry@ =~= PoolRecord { pair_id: pair_id@, pool, providers: Seq::empty() });
        self.entries.push(entry);
        assert(self@ =~= old(self)@.push(
            PoolRecord { pair_id: pair_id@, pool, providers: Seq::empty() },
        ));
        Ok(())
    }
}

} // verus!
