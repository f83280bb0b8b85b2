//! The exchange's operations: deposit liquidity, withdraw it, and swap. Each
//! operation validates and prices first, stages its ledger changes on a copy,
//! and commits only when every step succeeded: a failed operation leaves the
//! exchange exactly as it was.
use crate::ledger::{AccountId, Ledger, LedgerError, LedgerState};
use crate::pair::{
    create_deposit, create_withdrawal, le_u32, lp_token_of, pair_id, pair_id_of, Balance, Deposit, TokenId,
    Withdrawal,
};
use crate::pricing::{floor_sqrt, scaled_share, swap_quote, DexPricer};
use crate::registry::{find_pool, lemma_find_pool, Pool, PoolRecord, PoolRegistry};
use vstd::prelude::*;

verus! {

/// Token id of DOT, one of the four tokens the exchange accepts.
pub const DOT: TokenId = 1;

/// Token id of ETH.
pub const ETH: TokenId = 2;

/// Token id of ADA.
pub const ADA: TokenId = 3;

/// Token id of BTC.
pub const BTC: TokenId = 4;

/// Whether `token` is on the allow-list.
pub open spec fn is_allowed(token: TokenId) -> bool {
    token == DOT || token == ETH || token == ADA || token == BTC
}

/// Why an operation was refused.
#[derive(Clone, Copy, Debug, PartialEq, Eq, Structural)]
pub enum Error {
    /// Both tokens of the pair are the same.
    IdenticalTokens,
    /// The wallet holds too little of both tokens.
    NotEnoughFunds,
    /// The wallet holds too little of the first token.
    NotEnoughFundsTokenA,
    /// The wallet holds too little of the second token.
    NotEnoughFundsTokenB,
    /// No pool exists for the pair.
    PoolNotFound,
    /// The pool has as many liquidity providers as it may have.
    LiqProvidersOverflow,
    /// A token is not on the allow-list.
    InvalidToken,
    /// The wallet holds none of the named LP token.
    NoTokens,
    /// The wallet never provided liquidity to the pool.
    NoLiquidityProvided,
    /// A pricing step overflowed or divided by zero.
    MathProblem,
    /// The ledger refused an operation.
    Ledger(LedgerError),
}

/// What a successful operation reports.
#[derive(Clone, Copy, Debug, PartialEq, Eq, Structural)]
pub enum Event {
    LiquidityWithdrawn { from: AccountId, to: AccountId, lp_token: TokenId },
    LiquidityDeposited { from: AccountId, to: AccountId, token_a: TokenId, token_b: TokenId },
    SwapOccured { from: AccountId, to: AccountId },
}

/// Which balances a swap is priced against.
#[derive(Clone, Copy, Debug, PartialEq, Eq, Structural)]
pub enum SwapReserves {
    /// The pool's reserves of the two tokens.
    Pool,
    /// The caller's own balances of the two tokens, for deployments that
    /// price swaps that way.
    Caller,
}

/// Configuration of an exchange.
#[derive(Clone, Copy, Debug, PartialEq, Eq, Structural)]
pub struct Config {
    /// Most wallets that may provide liquidity to one pool.
    pub max_liq_providers: u32,
    /// Balances that swaps are priced against.
    pub swap_reserves: SwapReserves,
}

/// Abstract state of an exchange.
#[verifier::ext_equal]
pub struct PalletState {
    pub ledger: LedgerState,
    pub pools: Seq<PoolRecord>,
    pub events: Seq<Event>,
    pub config: Config,
}

/// The smaller token of a pair.
pub open spec fn first_of(a: TokenId, b: TokenId) -> TokenId {
    if a <= b {
        a
    } else {
        b
    }
}

/// The larger token of a pair.
pub open spec fn second_of(a: TokenId, b: TokenId) -> TokenId {
    if a <= b {
        b
    } else {
        a
    }
}

/// The funds error of a deposit of `qa` of `a` and `qb` of `b` by `w`, if any.
pub open spec fn funds_error(
    l: LedgerState,
    w: AccountId,
    a: TokenId,
    b: TokenId,
    qa: Balance,
    qb: Balance,
) -> Option<Error> {
    let valid_a = l.bal(a, w) >= qa;
    let valid_b = l.bal(b, w) >= qb;
    if !valid_a && !valid_b {
        Some(Error::NotEnoughFunds)
    } else if !valid_a {
        Some(Error::NotEnoughFundsTokenA)
    } else if !valid_b {
        Some(Error::NotEnoughFundsTokenB)
    } else {
        None
    }
}

/// Minting `reward` of the LP token `lp` into the wallet and into the pool.
pub open spec fn mint_lp_spec(
    l: LedgerState,
    lp: TokenId,
    reward: Balance,
    w: AccountId,
    pool: AccountId,
) -> Result<LedgerState, LedgerError> {
    match l.mint_spec(lp, w, reward) {
        Err(e) => Err(e),
        Ok(l1) => l1.mint_spec(lp, pool, reward),
    }
}

/// Moving both deposited amounts from the wallet to the pool.
pub open spec fn pay_in_spec(
    l: LedgerState,
    w: AccountId,
    pool: AccountId,
    t0: TokenId,
    t1: TokenId,
    q0: Balance,
    q1: Balance,
) -> Result<LedgerState, LedgerError> {
    match l.transfer_spec(t0, w, pool, q0) {
        Err(e) => Err(e),
        Ok(l1) => l1.transfer_spec(t1, w, pool, q1),
    }
}

/// Burning `n` of the LP token `lp` from the pool and from the wallet.
pub open spec fn burn_lp_spec(l: LedgerState, lp: TokenId, n: Balance, w: AccountId, pool: AccountId) -> Result<
    LedgerState,
    LedgerError,
> {
    match l.burn_spec(lp, pool, n) {
        Err(e) => Err(e),
        Ok(l1) => l1.burn_spec(lp, w, n),
    }
}

/// Moving the two redeemed amounts from the pool to the wallet.
pub open spec fn pay_out_spec(
    l: LedgerState,
    w: AccountId,
    pool: AccountId,
    t0: TokenId,
    t1: TokenId,
    r0: Balance,
    r1: Balance,
) -> Result<LedgerState, LedgerError> {
    match l.transfer_spec(t0, pool, w, r0) {
        Err(e) => Err(e),
        Ok(l1) => l1.transfer_spec(t1, pool, w, r1),
    }
}

impl PalletState {
    /// The exchange's invariant: the ledger's holders hold created assets;
    /// pool `i` has the account `Pool(i)`; no two pools share a key; and
    /// each pool's providers are distinct and at most the configured number.
    pub open spec fn wf(self) -> bool {
        &&& self.ledger.wf()
        &&& forall|i: int|
            0 <= i < self.pools.len() ==> #[trigger] self.pools[i].pool.account == AccountId::Pool(
                i as u64,
            )
        &&& forall|i: int, j: int|
            0 <= i < j < self.pools.len() ==> #[trigger] self.pools[i].pair_id
                != #[trigger] self.pools[j].pair_id
        &&& forall|i: int|
            0 <= i < self.pools.len() ==> #[trigger] self.pools[i].providers.len()
                <= self.config.max_liq_providers && self.pools[i].providers.no_duplicates()
    }

    /// Outcome of the request checks of a deposit.
    pub open spec fn validate_deposit(
        self,
        wallet: u64,
        token_a: TokenId,
        token_b: TokenId,
        qa: Balance,
        qb: Balance,
    ) -> Result<(), Error> {
        if token_a == token_b {
            Err(Error::IdenticalTokens)
        } else if !is_allowed(token_a) || !is_allowed(token_b) {
            Err(Error::InvalidToken)
        } else {
            match funds_error(self.ledger, AccountId::Wallet(wallet), token_a, token_b, qa, qb) {
                Some(e) => Err(e),
                None => Ok(()),
            }
        }
    }

    /// Outcome of depositing `q0` of `t0` and `q1` of `t1` (ascending
    /// tokens) into the existing pool at index `i`.
    pub open spec fn deposit_existing_spec(
        self,
        i: int,
        wallet: u64,
        t0: TokenId,
        t1: TokenId,
        q0: Balance,
        q1: Balance,
    ) -> Result<PalletState, Error> {
        let rec = self.pools[i];
        let pool = rec.pool.account;
        let lp = rec.pool.lp_token;
        let w = AccountId::Wallet(wallet);
        let joins = !rec.providers.contains(wallet);
        if joins && rec.providers.len() >= self.config.max_liq_providers {
            Err(Error::LiqProvidersOverflow)
        } else {
            match scaled_share(q0, self.ledger.bal(t0, pool), self.ledger.bal(lp, pool)) {
                None => Err(Error::MathProblem),
                Some(reward) => match mint_lp_spec(self.ledger, lp, reward, w, pool) {
                    Err(e) => Err(Error::Ledger(e)),
                    Ok(l1) => match pay_in_spec(l1, w, pool, t0, t1, q0, q1) {
                        Err(e) => Err(Error::Ledger(e)),
                        Ok(l2) => Ok(
                            PalletState {
                                ledger: l2,
                                pools: if joins {
                                    self.pools.update(
                                        i,
                                        PoolRecord {
                                            pair_id: rec.pair_id,
                                            pool: rec.pool,
                                            providers: rec.providers.push(wallet),
                                        },
                                    )
                                } else {
                                    self.pools
                                },
                                events: self.events.push(
                                    Event::LiquidityDeposited {
                                        from: w,
                                        to: pool,
                                        token_a: t0,
                                        token_b: t1,
                                    },
                                ),
                                config: self.config,
                            },
                        ),
                    },
                },
            }
        }
    }

    /// Outcome of the first deposit into the pool with key `key`.
    pub open spec fn deposit_new_spec(
        self,
        key: Seq<u8>,
        wallet: u64,
        t0: TokenId,
        t1: TokenId,
        q0: Balance,
        q1: Balance,
    ) -> Result<PalletState, Error> {
        let pool = AccountId::Pool(self.pools.len() as u64);
        let lp = le_u32(key) as TokenId;
        let w = AccountId::Wallet(wallet);
        if q0 * q1 > u128::MAX {
            Err(Error::MathProblem)
        } else {
            let reward = floor_sqrt(q0 * q1) as Balance;
            match self.ledger.create_spec(lp) {
                Err(e) => Err(Error::Ledger(e)),
                Ok(l0) => match mint_lp_spec(l0, lp, reward, w, pool) {
                    Err(e) => Err(Error::Ledger(e)),
                    Ok(l1) => if self.config.max_liq_providers == 0 {
                        Err(Error::LiqProvidersOverflow)
                    } else {
                        match pay_in_spec(l1, w, pool, t0, t1, q0, q1) {
                            Err(e) => Err(Error::Ledger(e)),
                            Ok(l2) => Ok(
                                PalletState {
                                    ledger: l2,
                                    pools: self.pools.push(
                                        PoolRecord {
                                            pair_id: key,
                                            pool: Pool { account: pool, lp_token: lp },
                                            providers: seq![wallet],
                                        },
                                    ),
                                    events: self.events.push(
                                        Event::LiquidityDeposited {
                                            from: w,
                                            to: pool,
                                            token_a: t0,
                                            token_b: t1,
                                        },
                                    ),
                                    config: self.config,
                                },
                            ),
                        }
                    },
                },
            }
        }
    }

    /// Outcome of `wallet` depositing `qa` of `token_a` and `qb` of `token_b`.
    pub open spec fn deposit_spec(
        self,
        wallet: u64,
        token_a: TokenId,
        token_b: TokenId,
        qa: Balance,
        qb: Balance,
    ) -> Result<PalletState, Error> {
        match self.validate_deposit(wallet, token_a, token_b, qa, qb) {
            Err(e) => Err(e),
            Ok(_) => {
                let t0 = first_of(token_a, token_b);
                let t1 = second_of(token_a, token_b);
                let q0 = if token_a <= token_b {
                    qa
                } else {
                    qb
                };
                let q1 = if token_a <= token_b {
                    qb
                } else {
                    qa
                };
                let key = pair_id_of(token_a, token_b);
                match find_pool(self.pools, key) {
                    Some(i) => self.deposit_existing_spec(i, wallet, t0, t1, q0, q1),
                    None => self.deposit_new_spec(key, wallet, t0, t1, q0, q1),
                }
            },
        }
    }

    /// Amounts of the two reserves `(reserve_a, reserve_b)` owed for
    /// redeeming `lp_tokens` out of `lp_minted`: the whole reserves when the
    /// wallet holds at least the recorded supply.
    pub open spec fn redemption_spec(
        lp_tokens: Balance,
        lp_minted: Balance,
        reserve_a: Balance,
        reserve_b: Balance,
    ) -> Option<(Balance, Balance)> {
        if lp_tokens >= lp_minted {
            Some((reserve_a, reserve_b))
        } else {
            match (
                scaled_share(lp_tokens, lp_minted, reserve_a),
                scaled_share(lp_tokens, lp_minted, reserve_b),
            ) {
                (Some(x), Some(y)) => Some((x, y)),
                _ => None,
            }
        }
    }

    /// Outcome of `wallet` redeeming its whole LP balance of the pool at
    /// index `i`, whose tokens are `t0 < t1`.
    pub open spec fn withdraw_from_spec(self, i: int, wallet: u64, t0: TokenId, t1: TokenId) -> Result<
        PalletState,
        Error,
    > {
        let rec = self.pools[i];
        let pool = rec.pool.account;
        let lp = rec.pool.lp_token;
        let w = AccountId::Wallet(wallet);
        let lp_tokens = self.ledger.bal(lp, w);
        match PalletState::redemption_spec(
            lp_tokens,
            self.ledger.bal(lp, pool),
            self.ledger.bal(t0, pool),
            self.ledger.bal(t1, pool),
        ) {
            None => Err(Error::MathProblem),
            Some(rewards) => match burn_lp_spec(self.ledger, lp, lp_tokens, w, pool) {
                Err(e) => Err(Error::Ledger(e)),
                Ok(l1) => match pay_out_spec(l1, w, pool, t0, t1, rewards.0, rewards.1) {
                    Err(e) => Err(Error::Ledger(e)),
                    Ok(l2) => Ok(
                        PalletState {
                            ledger: l2,
                            pools: self.pools,
                            events: self.events.push(
                                Event::LiquidityWithdrawn { from: w, to: pool, lp_token: lp },
                            ),
                            config: self.config,
                        },
                    ),
                },
            },
        }
    }

    /// Outcome of `wallet` withdrawing its liquidity from the pool of
    /// `{token_a, token_b}`, having named the LP token `lp_token`.
    pub open spec fn withdraw_spec(
        self,
        wallet: u64,
        token_a: TokenId,
        token_b: TokenId,
        lp_token: TokenId,
    ) -> Result<PalletState, Error> {
        if token_a == token_b {
            Err(Error::IdenticalTokens)
        } else if !is_allowed(token_a) || !is_allowed(token_b) {
            Err(Error::InvalidToken)
        } else if self.ledger.bal(lp_token, AccountId::Wallet(wallet)) == 0 {
            Err(Error::NoTokens)
        } else {
            match find_pool(self.pools, pair_id_of(token_a, token_b)) {
                None => Err(Error::PoolNotFound),
                Some(i) => if !self.pools[i].providers.contains(wallet) {
                    Err(Error::NoLiquidityProvided)
                } else {
                    self.withdraw_from_spec(
                        i,
                        wallet,
                        first_of(token_a, token_b),
                        second_of(token_a, token_b),
                    )
                },
            }
        }
    }

    /// The reserves `(in, out)` that a swap from `from_token` to `to_token`
    /// by `w` through `pool` is priced against.
    pub open spec fn swap_reserves_spec(
        self,
        w: AccountId,
        pool: AccountId,
        from_token: TokenId,
        to_token: TokenId,
    ) -> (Balance, Balance) {
        match self.config.swap_reserves {
            SwapReserves::Pool => (self.ledger.bal(from_token, pool), self.ledger.bal(to_token, pool)),
            SwapReserves::Caller => (self.ledger.bal(from_token, w), self.ledger.bal(to_token, w)),
        }
    }

    /// Outcome of `wallet` swapping `swap_amount` of `from_token` for
    /// `to_token`.
    pub open spec fn swap_spec(
        self,
        wallet: u64,
        from_token: TokenId,
        to_token: TokenId,
        swap_amount: Balance,
    ) -> Result<PalletState, Error> {
        let w = AccountId::Wallet(wallet);
        if !is_allowed(from_token) || !is_allowed(to_token) {
            Err(Error::InvalidToken)
        } else if self.ledger.bal(from_token, w) < swap_amount {
            Err(Error::NotEnoughFunds)
        } else {
            match find_pool(self.pools, pair_id_of(from_token, to_token)) {
                None => Err(Error::PoolNotFound),
                Some(i) => {
                    let pool = self.pools[i].pool.account;
                    let reserves = self.swap_reserves_spec(w, pool, from_token, to_token);
                    match swap_quote(swap_amount, reserves.0, reserves.1) {
                        None => Err(Error::MathProblem),
                        Some(reward) => match self.ledger.transfer_spec(
                            from_token,
                            w,
                            pool,
                            swap_amount,
                        ) {
                            Err(e) => Err(Error::Ledger(e)),
                            Ok(l1) => match l1.transfer_spec(to_token, pool, w, reward) {
                                Err(e) => Err(Error::Ledger(e)),
                                Ok(l2) => Ok(
                                    PalletState {
                                        ledger: l2,
                                        pools: self.pools,
                                        events: self.events.push(
                                            Event::SwapOccured { from: w, to: pool },
                                        ),
                                        config: self.config,
                                    },
                                ),
                            },
                        },
                    }
                },
            }
        }
    }
}

/// An exchange: its ledger, its pools, and the events it reported.
pub struct Pallet {
    ledger: Ledger,
    registry: PoolRegistry,
    events: Vec<Event>,
    config: Config,
}

impl View for Pallet {
    type V = PalletState;

    closed spec fn view(&self) -> PalletState {
        PalletState {
            ledger: self.ledger@,
            pools: self.registry@,
            events: self.events@,
            config: self.config,
        }
    }
}

/// Mints `reward` of `lp` into the wallet and into the pool.
fn mint_lp(ledger: &mut Ledger, lp: TokenId, reward: Balance, w: AccountId, pool: AccountId) -> (r:
    Result<(), LedgerError>)
    ensures
        match mint_lp_spec(old(ledger)@, lp, reward, w, pool) {
            Ok(s) => r is Ok && final(ledger)@ == s,
            Err(e) => r == Err::<(), LedgerError>(e),
        },
{
    match ledger.mint_into(lp, w, reward) {
        Err(e) => Err(e),
        Ok(()) => ledger.mint_into(lp, pool, reward),
    }
}

/// Moves both deposited amounts from the wallet to the pool.
fn pay_in(
    ledger: &mut Ledger,
    w: AccountId,
    pool: AccountId,
    t0: TokenId,
    t1: TokenId,
    q0: Balance,
    q1: Balance,
) -> (r: Result<(), LedgerError>)
    ensures
        match pay_in_spec(old(ledger)@, w, pool, t0, t1, q0, q1) {
            Ok(s) => r is Ok && final(ledger)@ == s,
            Err(e) => r == Err::<(), LedgerError>(e),
        },
{
    match ledger.transfer(t0, w, pool, q0) {
        Err(e) => Err(e),
        Ok(()) => ledger.transfer(t1, w, pool, q1),
    }
}

/// Burns `n` of `lp` from the pool and from the wallet.
fn burn_lp(ledger: &mut Ledger, lp: TokenId, n: Balance, w: AccountId, pool: AccountId) -> (r:
    Result<(), LedgerError>)
    ensures
        match burn_lp_spec(old(ledger)@, lp, n, w, pool) {
            Ok(s) => r is Ok && final(ledger)@ == s,
            Err(e) => r == Err::<(), LedgerError>(e),
        },
{
    match ledger.burn_from(lp, pool, n) {
        Err(e) => Err(e),
        Ok(()) => ledger.burn_from(lp, w, n),
    }
}

/// Moves the two redeemed amounts from the pool to the wallet.
fn pay_out(
    ledger: &mut Ledger,
    w: AccountId,
    pool: AccountId,
    t0: TokenId,
    t1: TokenId,
    r0: Balance,
    r1: Balance,
) -> (r: Result<(), LedgerError>)
    ensures
        match pay_out_spec(old(ledger)@, w, pool, t0, t1, r0, r1) {
            Ok(s) => r is Ok && final(ledger)@ == s,
            Err(e) => r == Err::<(), LedgerError>(e),
        },
{
    match ledger.transfer(t0, pool, w, r0) {
        Err(e) => Err(e),
        Ok(()) => ledger.transfer(t1, pool, w, r1),
    }
}

impl Pallet {
    /// An exchange with an empty ledger and no pools.
    pub fn new(config: Config) -> (r: Pallet)
        ensures
            r@ == (PalletState {
                ledger: LedgerState::empty(),
                pools: Seq::empty(),
                events: Seq::empty(),
                config,
            }),
            r@.wf(),
    {
        let r = Pallet {
            ledger: Ledger::new(),
            registry: PoolRegistry::new(),
            events: Vec::new(),
            config,
        };
        assert(r@ =~= PalletState {
            ledger: LedgerState::empty(),
            pools: Seq::empty(),
            events: Seq::empty(),
            config,
        });
        r
    }

    /// The ledger the exchange works on.
    pub fn ledger(&self) -> (r: &Ledger)
        ensures
            r@ == self@.ledger,
    {
        &self.ledger
    }

    /// The ledger, for operations outside the exchange (creating assets,
    /// funding wallets).
    pub fn ledger_mut(&mut self) -> (r: &mut Ledger)
        ensures
            r@ == old(self)@.ledger,
            final(self)@ == (PalletState {
                ledger: final(r)@,
                pools: old(self)@.pools,
                events: old(self)@.events,
                config: old(self)@.config,
            }),
    {
        &mut self.ledger
    }

    /// The configuration the exchange was made with.
    pub fn config(&self) -> (r: Config)
        ensures
            r == self@.config,
    {
        self.config
    }

    /// Events reported by successful operations, oldest first.
    pub fn events(&self) -> (r: &Vec<Event>)
        ensures
            r@ == self@.events,
    {
        &self.events
    }

    /// Number of pools.
    pub fn pool_count(&self) -> (r: usize)
        ensures
            r == self@.pools.len(),
    {
        self.registry.len()
    }

    /// The pool of the pair `{token_a, token_b}`, if one exists.
    pub fn pool_of(&self, token_a: TokenId, token_b: TokenId) -> (r: Option<Pool>)
        ensures
            r == (match find_pool(self@.pools, pair_id_of(token_a, token_b)) {
                Some(i) => Some(self@.pools[i].pool),
                None => None::<Pool>,
            }),
    {
        let key = pair_id(token_a, token_b);
        proof {
            lemma_find_pool(self@.pools, key@);
        }
        match self.registry.lookup(&key) {
            Some(i) => Some(self.registry.pool(i)),
            None => None,
        }
    }

    /// The wallets that provided liquidity to the pool of
    /// `{token_a, token_b}`, in the order they joined; empty without a pool.
    pub fn liquidity_providers(&self, token_a: TokenId, token_b: TokenId) -> (r: Vec<u64>)
        ensures
            r@ == (match find_pool(self@.pools, pair_id_of(token_a, token_b)) {
                Some(i) => self@.pools[i].providers,
                None => Seq::<u64>::empty(),
            }),
    {
        let key = pair_id(token_a, token_b);
        proof {
            lemma_find_pool(self@.pools, key@);
        }
        match self.registry.lookup(&key) {
            Some(i) => self.registry.providers(i),
            None => Vec::new(),
        }
    }

    /// Whether both tokens are on the allow-list.
    pub fn check_if_valid_tokens(token_a: TokenId, token_b: TokenId) -> (r: Result<(), Error>)
        ensures
            r == (if is_allowed(token_a) && is_allowed(token_b) {
                Ok::<(), Error>(())
            } else {
                Err(Error::InvalidToken)
            }),
    {
        if !(token_a == DOT || token_a == ETH || token_a == ADA || token_a == BTC) {
            return Err(Error::InvalidToken);
        }
        if !(token_b == DOT || token_b == ETH || token_b == ADA || token_b == BTC) {
            return Err(Error::InvalidToken);
        }
        Ok(())
    }

    /// Whether `wallet` holds at least `quantity_token` of `token`.
    pub fn check_balance(&self, wallet: u64, token: TokenId, quantity_token: Balance) -> (r: bool)
        ensures
            r == (self@.ledger.bal(token, AccountId::Wallet(wallet)) >= quantity_token),
    {
        self.ledger.balance(token, AccountId::Wallet(wallet)) >= quantity_token
    }

    /// Whether `wallet` holds both amounts, and if not, which fall short.
    pub fn check_balances(
        &self,
        wallet: u64,
        token_a: TokenId,
        token_b: TokenId,
        quantity_token_a: Balance,
        quantity_token_b: Balance,
    ) -> (r: Result<(), Error>)
        ensures
            r == match funds_error(
                self@.ledger,
                AccountId::Wallet(wallet),
                token_a,
                token_b,
                quantity_token_a,
                quantity_token_b,
            ) {
                Some(e) => Err(e),
                None => Ok::<(), Error>(()),
            },
    {
        let valid_token_a = self.check_balance(wallet, token_a, quantity_token_a);
        let valid_token_b = self.check_balance(wallet, token_b, quantity_token_b);
        if !valid_token_a && !valid_token_b {
            Err(Error::NotEnoughFunds)
        } else if !valid_token_a {
            Err(Error::NotEnoughFundsTokenA)
        } else if !valid_token_b {
            Err(Error::NotEnoughFundsTokenB)
        } else {
            Ok(())
        }
    }

    /// Checks a deposit request against the rules that do not depend on a
    /// pool: distinct tokens, both on the allow-list, and enough funds.
    pub fn add_liquidity(
        &self,
        wallet: u64,
        token_a: TokenId,
        token_b: TokenId,
        quantity_token_a: Balance,
        quantity_token_b: Balance,
    ) -> (r: Result<(), Error>)
        ensures
            r == self@.validate_deposit(
                wallet,
                token_a,
                token_b,
                quantity_token_a,
                quantity_token_b,
            ),
    {
        if token_a == token_b {
            return Err(Error::IdenticalTokens);
        }
        match Self::check_if_valid_tokens(token_a, token_b) {
            Err(e) => return Err(e),
            Ok(()) => {},
        }
        self.check_balances(wallet, token_a, token_b, quantity_token_a, quantity_token_b)
    }

    /// Whether `wallet` may deposit into the pool at index `i`: it is one of
    /// its providers already, or there is room for one more.
    fn check_liq_providers_overflow(&self, wallet: u64, i: usize) -> (r: Result<(), Error>)
        requires
            i < self@.pools.len(),
        ensures
            r == (if !self@.pools[i as int].providers.contains(wallet)
                && self@.pools[i as int].providers.len() >= self@.config.max_liq_providers {
                Err(Error::LiqProvidersOverflow)
            } else {
                Ok::<(), Error>(())
            }),
    {
        if self.registry.is_provider(i, wallet) {
            Ok(())
        } else if self.registry.provider_count(i) >= self.config.max_liq_providers as usize {
            Err(Error::LiqProvidersOverflow)
        } else {
            Ok(())
        }
    }

    /// Deposit into the existing pool at index `i`.
    fn deposit_to_existing_pool(&mut self, deposit: &Deposit, wallet: u64, i: usize) -> (r:
        Result<(), Error>)
        requires
            i < old(self)@.pools.len(),
            deposit.tokenpair@.len() == 2,
        ensures
            match old(self)@.deposit_existing_spec(
                i as int,
                wallet,
                deposit.tokenpair@[0],
                deposit.tokenpair@[1],
                deposit.quantity_token_a,
                deposit.quantity_token_b,
            ) {
                Ok(s) => r is Ok && final(self)@ == s,
                Err(e) => r == Err::<(), Error>(e) && *final(self) == *old(self),
            },
    {
        let pool = self.registry.pool(i);
        match self.check_liq_providers_overflow(wallet, i) {
            Err(e) => return Err(e),
            Ok(()) => {},
        }
        let w = AccountId::Wallet(wallet);
        let t0 = deposit.tokenpair[0];
        let t1 = deposit.tokenpair[1];
        let pool_amount_a = self.ledger.balance(t0, pool.account);
        let lp_minted = self.ledger.balance(pool.lp_token, pool.account);
        let lp_reward = match DexPricer::existing_pool_function(
            deposit.quantity_token_a,
            pool_amount_a,
            lp_minted,
        ) {
            Some(x) => x,
            None => return Err(Error::MathProblem),
        };
        let mut staged = self.ledger.duplicate();
        match mint_lp(&mut staged, pool.lp_token, lp_reward, w, pool.account) {
            Err(e) => return Err(Error::Ledger(e)),
            Ok(()) => {},
        }
        match pay_in(
            &mut staged,
            w,
            pool.account,
            t0,
            t1,
            deposit.quantity_token_a,
            deposit.quantity_token_b,
        ) {
            Err(e) => return Err(Error::Ledger(e)),
            Ok(()) => {},
        }
        match self.registry.add_provider(i, wallet, self.config.max_liq_providers) {
            Err(_) => {
                // there is room for the wallet: checked before pricing
                proof {
                    assert(false);
                }
                return Err(Error::LiqProvidersOverflow);
            },
            Ok(()) => {},
        }
        self.ledger = staged;
        self.events.push(
            Event::LiquidityDeposited { from: w, to: pool.account, token_a: t0, token_b: t1 },
        );
        proof {
            let s = old(self)@.deposit_existing_spec(
                i as int,
                wallet,
                t0,
                t1,
                deposit.quantity_token_a,
                deposit.quantity_token_b,
            );
            assert(self@ =~= s.unwrap());
        }
        Ok(())
    }

    /// First deposit into the pool with the deposit's key, which creates it.
    fn deposit_to_new_pool(&mut self, deposit: &Deposit, wallet: u64) -> (r: Result<(), Error>)
        requires
            deposit.tokenpair@.len() == 2,
            find_pool(old(self)@.pools, deposit.tokenpair_id@) is None,
        ensures
            match old(self)@.deposit_new_spec(
                deposit.tokenpair_id@,
                wallet,
                deposit.tokenpair@[0],
                deposit.tokenpair@[1],
                deposit.quantity_token_a,
                deposit.quantity_token_b,
            ) {
                Ok(s) => r is Ok && final(self)@ == s,
                Err(e) => r == Err::<(), Error>(e) && *final(self) == *old(self),
            },
    {
        let w = AccountId::Wallet(wallet);
        let account = AccountId::Pool(self.registry.len() as u64);
        let lp_token = lp_token_of(&deposit.tokenpair_id);
        let t0 = deposit.tokenpair[0];
        let t1 = deposit.tokenpair[1];
        let lp_reward = match DexPricer::new_pool_function(
            deposit.quantity_token_a,
            deposit.quantity_token_b,
        ) {
            Some(x) => x,
            None => return Err(Error::MathProblem),
        };
        let mut staged = self.ledger.duplicate();
        match staged.create_asset(lp_token) {
            Err(e) => return Err(Error::Ledger(e)),
            Ok(()) => {},
        }
        match mint_lp(&mut staged, lp_token, lp_reward, w, account) {
            Err(e) => return Err(Error::Ledger(e)),
            Ok(()) => {},
        }
        // the depositor becomes the pool's first provider, which needs room
        // for one
        if self.config.max_liq_providers == 0 {
            return Err(Error::LiqProvidersOverflow);
        }
        match pay_in(
            &mut staged,
            w,
            account,
            t0,
            t1,
            deposit.quantity_token_a,
            deposit.quantity_token_b,
        ) {
            Err(e) => return Err(Error::Ledger(e)),
            Ok(()) => {},
        }
        match self.registry.create(deposit.tokenpair_id, Pool { account, lp_token }) {
            Err(_) => {
                // no pool has this key: the caller looked it up
                proof {
                    assert(false);
                }
                return Err(Error::PoolNotFound);
            },
            Ok(()) => {},
        }
        let created = self.registry.len() - 1;
        match self.registry.add_provider(created, wallet, self.config.max_liq_providers) {
            Err(_) => {
                // a new pool has room for its first provider: checked above
                proof {
                    assert(false);
                }
                return Err(Error::LiqProvidersOverflow);
            },
            Ok(()) => {},
        }
        proof {
            assert(Seq::<u64>::empty().push(wallet) =~= seq![wallet]);
        }
        self.ledger = staged;
        self.events.push(
            Event::LiquidityDeposited { from: w, to: account, token_a: t0, token_b: t1 },
        );
        proof {
            let s = old(self)@.deposit_new_spec(
                deposit.tokenpair_id@,
                wallet,
                t0,
                t1,
                deposit.quantity_token_a,
                deposit.quantity_token_b,
            );
            assert(self@ =~= s.unwrap());
        }
        Ok(())
    }

    /// `wallet` deposits `quantity_token_a` of `token_a` and
    /// `quantity_token_b` of `token_b` and receives LP tokens of the pool of
    /// the pair, which is created by the first deposit.
    pub fn deposit_liquidity(
        &mut self,
        wallet: u64,
        token_a: TokenId,
        token_b: TokenId,
        quantity_token_a: Balance,
        quantity_token_b: Balance,
    ) -> (r: Result<(), Error>)
        ensures
            match old(self)@.deposit_spec(
                wallet,
                token_a,
                token_b,
                quantity_token_a,
                quantity_token_b,
            ) {
                Ok(s) => r is Ok && final(self)@ == s,
                Err(e) => r == Err::<(), Error>(e) && *final(self) == *old(self),
            },
    {
        match self.add_liquidity(wallet, token_a, token_b, quantity_token_a, quantity_token_b) {
            Err(e) => return Err(e),
            Ok(()) => {},
        }
        let deposit = create_deposit(token_a, token_b, quantity_token_a, quantity_token_b);
        proof {
            lemma_find_pool(self@.pools, deposit.tokenpair_id@);
        }
        match self.registry.lookup(&deposit.tokenpair_id) {
            Some(i) => self.deposit_to_existing_pool(&deposit, wallet, i),
            None => self.deposit_to_new_pool(&deposit, wallet),
        }
    }
    /// Whether `wallet` provided liquidity to the pool at index `i`.
    fn check_if_liq_is_provided(&self, wallet: u64, i: usize) -> (r: Result<(), Error>)
        requires
            i < self@.pools.len(),
        ensures
            r == (if self@.pools[i as int].providers.contains(wallet) {
                Ok::<(), Error>(())
            } else {
                Err(Error::NoLiquidityProvided)
            }),
    {
        if self.registry.is_provider(i, wallet) {
            Ok(())
        } else {
            Err(Error::NoLiquidityProvided)
        }
    }

    /// Redeems `wallet`'s whole LP balance of the pool at index `i`.
    fn withdraw(&mut self, withdrawal: &Withdrawal, wallet: u64, i: usize) -> (r: Result<
        (),
        Error,
    >)
        requires
            i < old(self)@.pools.len(),
            withdrawal.tokenpair@.len() == 2,
        ensures
            match old(self)@.withdraw_from_spec(
                i as int,
                wallet,
                withdrawal.tokenpair@[0],
                withdrawal.tokenpair@[1],
            ) {
                Ok(s) => r is Ok && final(self)@ == s,
                Err(e) => r == Err::<(), Error>(e) && *final(self) == *old(self),
            },
    {
        let pool = self.registry.pool(i);
        let w = AccountId::Wallet(wallet);
        let t0 = withdrawal.tokenpair[0];
        let t1 = withdrawal.tokenpair[1];
        let quantity_token_a = self.ledger.balance(t0, pool.account);
        let quantity_token_b = self.ledger.balance(t1, pool.account);
        let lp_tokens = self.ledger.balance(pool.lp_token, w);
        let lp_minted = self.ledger.balance(pool.lp_token, pool.account);
        let (liq_reward_a, liq_reward_b) = if lp_tokens >= lp_minted {
            (quantity_token_a, quantity_token_b)
        } else {
            let a = match DexPricer::liquidity_reward(lp_tokens, lp_minted, quantity_token_a) {
                Some(x) => x,
                None => return Err(Error::MathProblem),
            };
            let b = match DexPricer::liquidity_reward(lp_tokens, lp_minted, quantity_token_b) {
                Some(x) => x,
                None => return Err(Error::MathProblem),
            };
            (a, b)
        };
        let mut staged = self.ledger.duplicate();
        match burn_lp(&mut staged, pool.lp_token, lp_tokens, w, pool.account) {
            Err(e) => return Err(Error::Ledger(e)),
            Ok(()) => {},
        }
        match pay_out(&mut staged, w, pool.account, t0, t1, liq_reward_a, liq_reward_b) {
            Err(e) => return Err(Error::Ledger(e)),
            Ok(()) => {},
        }
        self.ledger = staged;
        self.events.push(
            Event::LiquidityWithdrawn { from: w, to: pool.account, lp_token: pool.lp_token },
        );
        proof {
            let s = old(self)@.withdraw_from_spec(i as int, wallet, t0, t1);
            assert(self@ =~= s.unwrap());
        }
        Ok(())
    }

    /// `wallet` redeems its whole LP balance of the pool of
    /// `{token_a, token_b}` for its share of both reserves. `lp_token` is the
    /// LP token the caller names; it must hold some of it.
    pub fn withdraw_liquidity(
        &mut self,
        wallet: u64,
        token_a: TokenId,
        token_b: TokenId,
        lp_token: TokenId,
    ) -> (r: Result<(), Error>)
        ensures
            match old(self)@.withdraw_spec(wallet, token_a, token_b, lp_token) {
                Ok(s) => r is Ok && final(self)@ == s,
                Err(e) => r == Err::<(), Error>(e) && *final(self) == *old(self),
            },
    {
        if token_a == token_b {
            return Err(Error::IdenticalTokens);
        }
        match Self::check_if_valid_tokens(token_a, token_b) {
            Err(e) => return Err(e),
            Ok(()) => {},
        }
        let lp_balance = self.ledger.balance(lp_token, AccountId::Wallet(wallet));
        if lp_balance == 0 {
            return Err(Error::NoTokens);
        }
        let withdrawal = create_withdrawal(token_a, token_b, lp_token);
        proof {
            lemma_find_pool(self@.pools, withdrawal.tokenpair_id@);
        }
        match self.registry.lookup(&withdrawal.tokenpair_id) {
            Some(i) => {
                match self.check_if_liq_is_provided(wallet, i) {
                    Err(e) => return Err(e),
                    Ok(()) => {},
                }
                self.withdraw(&withdrawal, wallet, i)
            },
            None => Err(Error::PoolNotFound),
        }
    }

    /// Prices and performs a swap through the pool at index `i`.
    fn make_swap(
        &mut self,
        wallet: u64,
        i: usize,
        from_token: TokenId,
        to_token: TokenId,
        swap_amount: Balance,
    ) -> (r: Result<(), Error>)
        requires
            i < old(self)@.pools.len(),
            find_pool(old(self)@.pools, pair_id_of(from_token, to_token)) == Some(i as int),
            is_allowed(from_token) && is_allowed(to_token),
            old(self)@.ledger.bal(from_token, AccountId::Wallet(wallet)) >= swap_amount,
        ensures
            match old(self)@.swap_spec(wallet, from_token, to_token, swap_amount) {
                Ok(s) => r is Ok && final(self)@ == s,
                Err(e) => r == Err::<(), Error>(e) && *final(self) == *old(self),
            },
    {
        let pool = self.registry.pool(i);
        let w = AccountId::Wallet(wallet);
        let holder = match self.config.swap_reserves {
            SwapReserves::Pool => pool.account,
            SwapReserves::Caller => w,
        };
        let reserve_in = self.ledger.balance(from_token, holder);
        let reserve_out = self.ledger.balance(to_token, holder);
        let swap_reward = match DexPricer::swap(swap_amount, (reserve_in, reserve_out)) {
            Some(x) => x,
            None => return Err(Error::MathProblem),
        };
        let mut staged = self.ledger.duplicate();
        match staged.transfer(from_token, w, pool.account, swap_amount) {
            Err(e) => return Err(Error::Ledger(e)),
            Ok(()) => {},
        }
        match staged.transfer(to_token, pool.account, w, swap_reward) {
            Err(e) => return Err(Error::Ledger(e)),
            Ok(()) => {},
        }
        self.ledger = staged;
        self.events.push(Event::SwapOccured { from: w, to: pool.account });
        proof {
            let s = old(self)@.swap_spec(wallet, from_token, to_token, swap_amount);
            assert(self@ =~= s.unwrap());
        }
        Ok(())
    }

    /// `wallet` swaps `swap_amount` of `from_token` for `to_token` through
    /// the pool of the pair.
    pub fn swap(&mut self, wallet: u64, from_token: TokenId, to_token: TokenId, swap_amount: Balance) -> (r:
        Result<(), Error>)
        ensures
            match old(self)@.swap_spec(wallet, from_token, to_token, swap_amount) {
                Ok(s) => r is Ok && final(self)@ == s,
                Err(e) => r == Err::<(), Error>(e) && *final(self) == *old(self),
            },
    {
        match Self::check_if_valid_tokens(from_token, to_token) {
            Err(e) => return Err(e),
            Ok(()) => {},
        }
        let from_token_balance = self.ledger.balance(from_token, AccountId::Wallet(wallet));
        if from_token_balance < swap_amount {
            return Err(Error::NotEnoughFunds);
        }
        let token_pair_id = pair_id(from_token, to_token);
        proof {
            lemma_find_pool(self@.pools, token_pair_id@);
        }
        match self.registry.lookup(&token_pair_id) {
            Some(i) => self.make_swap(wallet, i, from_token, to_token, swap_amount),
            None => Err(Error::PoolNotFound),
        }
    }
}

} // verus!
