//! The token ledger the exchange works on: balances per token and account,
//! and the set of created assets. Every operation either applies in full or
//! fails and leaves the ledger as it was.
use crate::pair::{Balance, TokenId};
use vstd::prelude::*;

verus! {

/// An account holding balances: a user's wallet, or the custodial account
/// of a pool.
#[derive(Clone, Copy, Debug, PartialEq, Eq, Structural)]
pub enum AccountId {
    Wallet(u64),
    Pool(u64),
}

/// Why a ledger operation was refused.
#[derive(Clone, Copy, Debug, PartialEq, Eq, Structural)]
pub enum LedgerError {
    /// The asset was never created.
    UnknownAsset,
    /// An asset with this id exists already.
    AssetExists,
    /// The account holds less than the amount asked for.
    InsufficientBalance,
    /// The receiving balance would leave the `u128` range.
    Overflow,
}

/// Abstract state of a ledger: every account's balance of every token
/// (zero where nothing was ever credited), and the created assets.
#[verifier::ext_equal]
pub struct LedgerState {
    pub balances: Map<(TokenId, AccountId), Balance>,
    pub assets: Set<TokenId>,
}

impl LedgerState {
    /// No assets and no balances.
    pub open spec fn empty() -> LedgerState {
        LedgerState {
            balances: Map::new(|k: (TokenId, AccountId)| true, |k: (TokenId, AccountId)| 0u128),
            assets: Set::empty(),
        }
    }

    /// Only created assets have holders.
    pub open spec fn wf(self) -> bool {
        forall|t: TokenId, a: AccountId| #[trigger] self.bal(t, a) > 0 ==> self.assets.contains(t)
    }

    /// Balance of `token` held by `account`.
    pub open spec fn bal(self, token: TokenId, account: AccountId) -> Balance {
        self.balances[(token, account)]
    }

    /// The state with `account`'s balance of `token` set to `value`.
    pub open spec fn with_bal(self, token: TokenId, account: AccountId, value: int) -> LedgerState {
        LedgerState {
            balances: self.balances.insert((token, account), value as u128),
            assets: self.assets,
        }
    }

    /// Outcome of creating the asset `token`.
    pub open spec fn create_spec(self, token: TokenId) -> Result<LedgerState, LedgerError> {
        if self.assets.contains(token) {
            Err(LedgerError::AssetExists)
        } else {
            Ok(LedgerState { balances: self.balances, assets: self.assets.insert(token) })
        }
    }

    /// Outcome of minting `amount` of `token` into `account`.
    pub open spec fn mint_spec(self, token: TokenId, account: AccountId, amount: Balance) -> Result<
        LedgerState,
        LedgerError,
    > {
        if !self.assets.contains(token) {
            Err(LedgerError::UnknownAsset)
        } else if self.bal(token, account) + amount > u128::MAX {
            Err(LedgerError::Overflow)
        } else {
            Ok(self.with_bal(token, account, self.bal(token, account) + amount))
        }
    }

    /// Outcome of burning `amount` of `token` from `account`.
    pub open spec fn burn_spec(self, token: TokenId, account: AccountId, amount: Balance) -> Result<
        LedgerState,
        LedgerError,
    > {
        if self.bal(token, account) < amount {
            Err(LedgerError::InsufficientBalance)
        } else {
            Ok(self.with_bal(token, account, self.bal(token, account) - amount))
        }
    }

    /// Outcome of moving `amount` of `token` from `from` to `to`.
    pub open spec fn transfer_spec(
        self,
        token: TokenId,
        from: AccountId,
        to: AccountId,
        amount: Balance,
    ) -> Result<LedgerState, LedgerError> {
        if self.bal(token, from) < amount {
            Err(LedgerError::InsufficientBalance)
        } else {
            let debited = self.with_bal(token, from, self.bal(token, from) - amount);
            if debited.bal(token, to) + amount > u128::MAX {
                Err(LedgerError::Overflow)
            } else {
                Ok(debited.with_bal(token, to, debited.bal(token, to) + amount))
            }
        }
    }
}

/// Every ledger operation keeps holders to created assets.
pub proof fn lemma_ledger_ops_keep_wf(
    s: LedgerState,
    token: TokenId,
    a: AccountId,
    b: AccountId,
    amount: Balance,
)
    requires
        s.wf(),
    ensures
        s.create_spec(token) matches Ok(n) ==> n.wf(),
        s.mint_spec(token, a, amount) matches Ok(n) ==> n.wf(),
        s.burn_spec(token, a, amount) matches Ok(n) ==> n.wf(),
        s.transfer_spec(token, a, b, amount) matches Ok(n) ==> n.wf(),
{
    if let Ok(n) = s.create_spec(token) {
        assert forall|t: TokenId, c: AccountId| #[trigger] n.bal(t, c) > 0 implies n.assets.contains(
            t,
        ) by {
            assert(s.bal(t, c) > 0);
        }
    }
    if let Ok(n) = s.mint_spec(token, a, amount) {
        assert forall|t: TokenId, c: AccountId| #[trigger] n.bal(t, c) > 0 implies n.assets.contains(
            t,
        ) by {
            if !(t == token && c == a) {
                assert(s.bal(t, c) > 0);
            }
        }
    }
    if let Ok(n) = s.burn_spec(token, a, amount) {
        assert forall|t: TokenId, c: AccountId| #[trigger] n.bal(t, c) > 0 implies n.assets.contains(
            t,
        ) by {
            if t == token && c == a {
                assert(s.bal(token, a) > 0);
            } else {
                assert(s.bal(t, c) > 0);
            }
        }
    }
    if let Ok(n) = s.transfer_spec(token, a, b, amount) {
        let d = s.with_bal(token, a, s.bal(token, a) - amount);
        assert forall|t: TokenId, c: AccountId| #[trigger] n.bal(t, c) > 0 implies n.assets.contains(
            t,
        ) by {
            if t == token && c == b {
                if amount > 0 {
                    assert(s.bal(token, a) > 0);
                } else if b != a {
                    assert(s.bal(token, b) > 0);
                } else {
                    assert(s.bal(token, a) > 0);
                }
            } else if t == token && c == a {
                assert(s.bal(token, a) > 0);
            } else {
                assert(s.bal(t, c) > 0);
            }
        }
    }
}

/// Balance recorded for `(token, account)` in a list of entries: the value of
/// the last matching entry, or zero.
pub open spec fn entry_lookup(
    s: Seq<(TokenId, AccountId, Balance)>,
    token: TokenId,
    account: AccountId,
) -> Balance
    decreases s.len(),
{
    if s.len() == 0 {
        0
    } else if s.last().0 == token && s.last().1 == account {
        s.last().2
    } else {
        entry_lookup(s.drop_last(), token, account)
    }
}

/// Entries past `k` that do not match leave the lookup to the prefix.
proof fn lemma_lookup_prefix(
    s: Seq<(TokenId, AccountId, Balance)>,
    k: int,
    token: TokenId,
    account: AccountId,
)
    requires
        0 <= k <= s.len(),
        forall|j: int| k <= j < s.len() ==> !(#[trigger] s[j].0 == token && s[j].1 == account),
    ensures
        entry_lookup(s, token, account) == entry_lookup(s.take(k), token, account),
    decreases s.len(),
{
    if s.len() > k {
        assert(s.drop_last().take(k) =~= s.take(k));
        lemma_lookup_prefix(s.drop_last(), k, token, account);
    } else {
        assert(s.take(k) =~= s);
    }
}

/// Replacing the last entry of a key changes the lookup of that key only.
proof fn lemma_lookup_update(s: Seq<(TokenId, AccountId, Balance)>, i: int, e: (
    TokenId,
    AccountId,
    Balance,
))
    requires
        0 <= i < s.len(),
        s[i].0 == e.0 && s[i].1 == e.1,
        forall|j: int| i < j < s.len() ==> !(#[trigger] s[j].0 == e.0 && s[j].1 == e.1),
    ensures
        forall|t: TokenId, a: AccountId|
            #[trigger] entry_lookup(s.update(i, e), t, a) == if t == e.0 && a == e.1 {
                e.2
            } else {
                entry_lookup(s, t, a)
            },
    decreases s.len(),
{
    let u = s.update(i, e);
    if i < s.len() - 1 {
        lemma_lookup_update(s.drop_last(), i, e);
    }
    assert forall|t: TokenId, a: AccountId|
        #[trigger] entry_lookup(u, t, a) == if t == e.0 && a == e.1 {
            e.2
        } else {
            entry_lookup(s, t, a)
        } by {
        if i == s.len() - 1 {
            assert(u.drop_last() =~= s.drop_last());
            assert(u.last() == e);
        } else {
            let d = s.drop_last().update(i, e);
            assert(u.drop_last() =~= d);
            assert(u.last() == s.last());
            assert(entry_lookup(d, t, a) == if t == e.0 && a == e.1 {
                e.2
            } else {
                entry_lookup(s.drop_last(), t, a)
            });
        }
    }
}

/// An in-memory token ledger.
pub struct Ledger {
    entries: Vec<(TokenId, AccountId, Balance)>,
    assets: Vec<TokenId>,
}

impl View for Ledger {
    type V = LedgerState;

    closed spec fn view(&self) -> LedgerState {
        LedgerState {
            balances: Map::new(
                |k: (TokenId, AccountId)| true,
                |k: (TokenId, AccountId)| entry_lookup(self.entries@, k.0, k.1),
            ),
            assets: Set::new(|t: TokenId| self.assets@.contains(t)),
        }
    }
}

impl Ledger {
    /// An empty ledger.
    pub fn new() -> (r: Ledger)
        ensures
            r@ == LedgerState::empty(),
            r@.wf(),
    {
        let r = Ledger { entries: Vec::new(), assets: Vec::new() };
        assert(r@.balances =~= LedgerState::empty().balances);
        assert(r@.assets =~= LedgerState::empty().assets);
        r
    }

    /// A copy of this ledger, to stage a sequence of operations on.
    pub fn duplicate(&self) -> (r: Ledger)
        ensures
            r@ == self@,
    {
        let mut entries: Vec<(TokenId, AccountId, Balance)> = Vec::new();
        let mut i: usize = 0;
        while i < self.entries.len()
            invariant
                i <= self.entries@.len(),
                entries@ =~= self.entries@.take(i as int),
            decreases self.entries@.len() - i,
        {
            entries.push(self.entries[i]);
            i = i + 1;
        }
        let mut assets: Vec<TokenId> = Vec::new();
        let mut j: usize = 0;
        while j < self.assets.len()
            invariant
                j <= self.assets@.len(),
                assets@ =~= self.assets@.take(j as int),
            decreases self.assets@.len() - j,
        {
            assets.push(self.assets[j]);
            j = j + 1;
        }
        assert(entries@ =~= self.entries@);
        assert(assets@ =~= self.assets@);
        Ledger { entries, assets }
    }

    /// Index of the last entry for `(token, account)`.
    fn find_entry(&self, token: TokenId, account: AccountId) -> (r: Option<usize>)
        ensures
            match r {
                Some(i) => {
                    &&& i < self.entries@.len()
                    &&& self.entries@[i as int].0 == token
                    &&& self.entries@[i as int].1 == account
                    &&& forall|j: int|
                        i < j < self.entries@.len() ==> !(#[trigger] self.entries@[j].0 == token
                            && self.entries@[j].1 == account)
                },
                None => forall|j: int|
                    0 <= j < self.entries@.len() ==> !(#[trigger] self.entries@[j].0 == token
                        && self.entries@[j].1 == account),
            },
    {
        let mut i: usize = self.entries.len();
        while i > 0
            invariant
                i <= self.entries@.len(),
                forall|j: int|
                    i <= j < self.entries@.len() ==> !(#[trigger] self.entries@[j].0 == token
                        && self.entries@[j].1 == account),
            decreases i,
        {
            i = i - 1;
            if self.entries[i].0 == token && self.entries[i].1 == account {
                return Some(i);
            }
        }
        None
    }

    /// Balance of `token` held by `account`.
    pub fn balance(&self, token: TokenId, account: AccountId) -> (r: Balance)
        ensures
            r == self@.bal(token, account),
    {
        match self.find_entry(token, account) {
            Some(i) => {
                proof {
                    let s = self.entries@;
                    lemma_lookup_prefix(s, i + 1, token, account);
                    assert(s.take(i + 1).drop_last() =~= s.take(i as int));
                }
                self.entries[i].2
            },
            None => {
                proof {
                    lemma_lookup_prefix(self.entries@, 0, token, account);
                }
                0
            },
        }
    }

    /// Sets `account`'s balance of `token` to `value`.
    fn set_balance(&mut self, token: TokenId, account: AccountId, value: Balance)
        ensures
            final(self)@ == old(self)@.with_bal(token, account, value as int),
    {
        let e = (token, account, value);
        match self.find_entry(token, account) {
            Some(i) => {
                proof {
                    lemma_lookup_update(old(self).entries@, i as int, e);
                }
                self.entries.set(i, e);
            },
            None => {
                self.entries.push(e);
                proof {
                    assert(self.entries@.drop_last() =~= old(self).entries@);
                }
            },
        }
        assert(self@.balances =~= old(self)@.with_bal(token, account, value as int).balances);
        assert(self@.assets =~= old(self)@.assets);
    }

    /// Whether the asset `token` was created.
    pub fn has_asset(&self, token: TokenId) -> (r: bool)
        ensures
            r == self@.assets.contains(token),
    {
        let mut i: usize = 0;
        while i < self.assets.len()
            invariant
                i <= self.assets@.len(),
                forall|j: int| 0 <= j < i ==> self.assets@[j] != token,
            decreases self.assets@.len() - i,
        {
            if self.assets[i] == token {
                assert(self.assets@.contains(token));
                return true;
            }
            i = i + 1;
        }
        false
    }

    /// Creates the asset `token`; refused when it exists already.
    pub fn create_asset(&mut self, token: TokenId) -> (r: Result<(), LedgerError>)
        ensures
            match old(self)@.create_spec(token) {
                Ok(s) => r is Ok && final(self)@ == s,
                Err(e) => r == Err::<(), LedgerError>(e) && *final(self) == *old(self),
            },
            old(self)@.wf() ==> final(self)@.wf(),
    {
        proof {
            if self@.wf() {
                lemma_ledger_ops_keep_wf(self@, token, AccountId::Pool(0), AccountId::Pool(0), 0);
            }
        }
        if self.has_asset(token) {
            return Err(LedgerError::AssetExists);
        }
        self.assets.push(token);
        proof {
            assert forall|t: TokenId|
                self.assets@.contains(t) == old(self)@.assets.insert(token).contains(t) by {
                if old(self).assets@.contains(t) {
                    let j = choose|j: int|
                        0 <= j < old(self).assets@.len() && old(self).assets@[j] == t;
                    assert(self.assets@[j] == t);
                }
                if t == token {
                    assert(self.assets@[self.assets@.len() - 1] == t);
                }
                if self.assets@.contains(t) && t != token {
                    let j = choose|j: int| 0 <= j < self.assets@.len() && self.assets@[j] == t;
                    assert(old(self).assets@[j] == t);
                }
            }
            assert(self@.assets =~= old(self)@.assets.insert(token));
            assert(self@.balances =~= old(self)@.balances);
        }
        Ok(())
    }

    /// Mints `amount` of `token` into `account`.
    pub fn mint_into(&mut self, token: TokenId, account: AccountId, amount: Balance) -> (r: Result<
        (),
        LedgerError,
    >)
        ensures
            match old(self)@.mint_spec(token, account, amount) {
                Ok(s) => r is Ok && final(self)@ == s,
                Err(e) => r == Err::<(), LedgerError>(e) && *final(self) == *old(self),
            },
            old(self)@.wf() ==> final(self)@.wf(),
    {
        proof {
            if self@.wf() {
                lemma_ledger_ops_keep_wf(self@, token, account, account, amount);
            }
        }
        if !self.has_asset(token) {
            return Err(LedgerError::UnknownAsset);
        }
        let current = self.balance(token, account);
        match current.checked_add(amount) {
            Some(v) => {
                self.set_balance(token, account, v);
                Ok(())
            },
            None => Err(LedgerError::Overflow),
        }
    }

    /// Burns `amount` of `token` from `account`.
    pub fn burn_from(&mut self, token: TokenId, account: AccountId, amount: Balance) -> (r: Result<
        (),
        LedgerError,
    >)
        ensures
            match old(self)@.burn_spec(token, account, amount) {
                Ok(s) => r is Ok && final(self)@ == s,
                Err(e) => r == Err::<(), LedgerError>(e) && *final(self) == *old(self),
            },
            old(self)@.wf() ==> final(self)@.wf(),
    {
        proof {
            if self@.wf() {
                lemma_ledger_ops_keep_wf(self@, token, account, account, amount);
            }
        }
        let current = self.balance(token, account);
        if current < amount {
            return Err(LedgerError::InsufficientBalance);
        }
        self.set_balance(token, account, current - amount);
        Ok(())
    }

    /// Moves `amount` of `token` from `from` to `to`.
    pub fn transfer(&mut self, token: TokenId, from: AccountId, to: AccountId, amount: Balance) -> (r:
        Result<(), LedgerError>)
        ensures
            match old(self)@.transfer_spec(token, from, to, amount) {
                Ok(s) => r is Ok && final(self)@ == s,
                Err(e) => r == Err::<(), LedgerError>(e) && *final(self) == *old(self),
            },
            old(self)@.wf() ==> final(self)@.wf(),
    {
        proof {
            if self@.wf() {
                lemma_ledger_ops_keep_wf(self@, token, from, to, amount);
            }
        }
        let from_balance = self.balance(token, from);
        if from_balance < amount {
            return Err(LedgerError::InsufficientBalance);
        }
        let to_balance = if from == to {
            from_balance - amount
        } else {
            self.balance(token, to)
        };
        let credited = match to_balance.checked_add(amount) {
            Some(v) => v,
            None => return Err(LedgerError::Overflow),
        };
        self.set_balance(token, from, from_balance - amount);
        self.set_balance(token, to, credited);
        Ok(())
    }
}

} // verus!
