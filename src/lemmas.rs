//! Facts about the exchange's operations that hold of every state and every
//! request, proved from the spec functions that describe their outcomes.
use crate::ledger::{lemma_ledger_ops_keep_wf, AccountId, LedgerState};
use crate::pair::{pair_id_of, Balance, TokenId};
use crate::pair::le_u32;
use crate::pallet::{
    burn_lp_spec, first_of, is_allowed, mint_lp_spec, pay_in_spec, pay_out_spec, second_of, Error,
    PalletState,
};
use crate::pricing::{floor_sqrt, is_floor_sqrt, lemma_floor_sqrt_unique, scaled_share, swap_quote};
use crate::registry::{find_pool, lemma_find_pool, Pool, PoolRecord};
use vstd::prelude::*;

verus! {

/// A deposit whose two tokens are the same is refused with
/// `IdenticalTokens`, whatever the amounts.
pub proof fn lemma_identical_tokens_rejected(
    s: PalletState,
    wallet: u64,
    token: TokenId,
    qa: Balance,
    qb: Balance,
)
    ensures
        s.deposit_spec(wallet, token, token, qa, qb) == Err::<PalletState, Error>(
            Error::IdenticalTokens,
        ),
{
}

/// A deposit of two distinct tokens one of which is not on the allow-list is
/// refused with `InvalidToken`.
pub proof fn lemma_unlisted_token_rejected(
    s: PalletState,
    wallet: u64,
    token_a: TokenId,
    token_b: TokenId,
    qa: Balance,
    qb: Balance,
)
    requires
        token_a != token_b,
        !is_allowed(token_a) || !is_allowed(token_b),
    ensures
        s.deposit_spec(wallet, token_a, token_b, qa, qb) == Err::<PalletState, Error>(
            Error::InvalidToken,
        ),
{
}

/// A withdrawal for a valid pair by a wallet that holds none of the named LP
/// token is refused with `NoTokens`.
pub proof fn lemma_withdraw_without_lp_tokens(
    s: PalletState,
    wallet: u64,
    token_a: TokenId,
    token_b: TokenId,
    lp_token: TokenId,
)
    requires
        token_a != token_b,
        is_allowed(token_a) && is_allowed(token_b),
        s.ledger.bal(lp_token, AccountId::Wallet(wallet)) == 0,
    ensures
        s.withdraw_spec(wallet, token_a, token_b, lp_token) == Err::<PalletState, Error>(
            Error::NoTokens,
        ),
{
}

/// A withdrawal from a pair that has no pool is refused with `PoolNotFound`,
/// once the request itself passed its checks.
pub proof fn lemma_withdraw_without_pool(
    s: PalletState,
    wallet: u64,
    token_a: TokenId,
    token_b: TokenId,
    lp_token: TokenId,
)
    requires
        token_a != token_b,
        is_allowed(token_a) && is_allowed(token_b),
        s.ledger.bal(lp_token, AccountId::Wallet(wallet)) > 0,
        find_pool(s.pools, pair_id_of(token_a, token_b)) is None,
    ensures
        s.withdraw_spec(wallet, token_a, token_b, lp_token) == Err::<PalletState, Error>(
            Error::PoolNotFound,
        ),
{
}

/// A withdrawal from an existing pool by a wallet that is not among its
/// providers is refused with `NoLiquidityProvided`, whatever LP token it
/// names and holds.
pub proof fn lemma_withdraw_requires_provider(
    s: PalletState,
    wallet: u64,
    token_a: TokenId,
    token_b: TokenId,
    lp_token: TokenId,
)
    requires
        token_a != token_b,
        is_allowed(token_a) && is_allowed(token_b),
        s.ledger.bal(lp_token, AccountId::Wallet(wallet)) > 0,
        find_pool(s.pools, pair_id_of(token_a, token_b)) matches Some(i) && !s.pools[
            i
        ].providers.contains(wallet),
    ensures
        s.withdraw_spec(wallet, token_a, token_b, lp_token) == Err::<PalletState, Error>(
            Error::NoLiquidityProvided,
        ),
{
}

/// A wallet becomes a provider of a pool only by its own deposit: another
/// wallet's deposit adds no one else, and withdrawals and swaps leave the
/// pools as they are.
pub proof fn lemma_providers_join_only_by_deposit(
    s: PalletState,
    wallet: u64,
    other: u64,
    token_a: TokenId,
    token_b: TokenId,
    qa: Balance,
    qb: Balance,
    lp_token: TokenId,
)
    requires
        other != wallet,
    ensures
        s.deposit_spec(wallet, token_a, token_b, qa, qb) matches Ok(n) ==> forall|i: int|
            0 <= i < n.pools.len() && #[trigger] n.pools[i].providers.contains(other) ==> i
                < s.pools.len() && s.pools[i].providers.contains(other),
        s.withdraw_spec(wallet, token_a, token_b, lp_token) matches Ok(n) ==> n.pools == s.pools,
        s.swap_spec(wallet, token_a, token_b, qa) matches Ok(n) ==> n.pools == s.pools,
{
    if let Ok(n) = s.deposit_spec(wallet, token_a, token_b, qa, qb) {
        let key = pair_id_of(token_a, token_b);
        lemma_find_pool(s.pools, key);
        match find_pool(s.pools, key) {
            Some(j) => {
                let rec = s.pools[j];
                let grown = s.pools.update(
                    j,
                    PoolRecord {
                        pair_id: rec.pair_id,
                        pool: rec.pool,
                        providers: rec.providers.push(wallet),
                    },
                );
                assert(n.pools == s.pools || n.pools == grown);
                assert forall|i: int|
                    0 <= i < n.pools.len() && #[trigger] n.pools[i].providers.contains(
                        other,
                    ) implies i < s.pools.len() && s.pools[i].providers.contains(other) by {
                    if n.pools == grown && i == j {
                        let ps = rec.providers.push(wallet);
                        let k = choose|k: int| 0 <= k < ps.len() && ps[k] == other;
                        assert(k < rec.providers.len());
                        assert(rec.providers[k] == other);
                    }
                }
            },
            None => {
                let first = PoolRecord {
                    pair_id: key,
                    pool: n.pools.last().pool,
                    providers: seq![wallet],
                };
                assert(n.pools == s.pools.push(first));
                assert forall|i: int|
                    0 <= i < n.pools.len() && #[trigger] n.pools[i].providers.contains(
                        other,
                    ) implies i < s.pools.len() && s.pools[i].providers.contains(other) by {
                    if i == s.pools.len() {
                        let k = choose|k: int|
                            0 <= k < n.pools[i].providers.len() && n.pools[i].providers[k]
                                == other;
                        assert(n.pools[i].providers == seq![wallet]);
                    } else {
                        assert(n.pools[i] == s.pools[i]);
                    }
                }
            },
        }
    }
}

/// A wallet that is not a provider of a pool whose provider list is full
/// cannot deposit into it: the request is refused with
/// `LiqProvidersOverflow` once it passed its own checks.
pub proof fn lemma_full_pool_rejects_new_provider(
    s: PalletState,
    wallet: u64,
    token_a: TokenId,
    token_b: TokenId,
    qa: Balance,
    qb: Balance,
)
    requires
        s.validate_deposit(wallet, token_a, token_b, qa, qb) is Ok,
        find_pool(s.pools, pair_id_of(token_a, token_b)) matches Some(i) && !s.pools[
            i
        ].providers.contains(wallet) && s.pools[i].providers.len()
            >= s.config.max_liq_providers,
    ensures
        s.deposit_spec(wallet, token_a, token_b, qa, qb) == Err::<PalletState, Error>(
            Error::LiqProvidersOverflow,
        ),
{
}

/// A swap of more than the caller holds is refused with `NotEnoughFunds`
/// before any pool is looked at (and a refused swap changes nothing).
pub proof fn lemma_swap_beyond_balance_rejected(
    s: PalletState,
    wallet: u64,
    from_token: TokenId,
    to_token: TokenId,
    swap_amount: Balance,
)
    requires
        is_allowed(from_token) && is_allowed(to_token),
        s.ledger.bal(from_token, AccountId::Wallet(wallet)) < swap_amount,
    ensures
        s.swap_spec(wallet, from_token, to_token, swap_amount) == Err::<PalletState, Error>(
            Error::NotEnoughFunds,
        ),
{
}

/// A single provider's round trip loses nothing: when a wallet's deposit
/// creates a pool and its withdrawal from that pool then goes through, it
/// holds at least as much of each of the two tokens as before the deposit,
/// since all LP tokens of the pool are its own and it redeems the whole
/// reserves.
#[verifier::rlimit(50)]
pub proof fn lemma_single_provider_round_trip(
    s: PalletState,
    wallet: u64,
    token_a: TokenId,
    token_b: TokenId,
    qa: Balance,
    qb: Balance,
    lp_token: TokenId,
)
    requires
        s.ledger.wf(),
        find_pool(s.pools, pair_id_of(token_a, token_b)) is None,
        s.deposit_spec(wallet, token_a, token_b, qa, qb) is Ok,
        s.deposit_spec(wallet, token_a, token_b, qa, qb).unwrap().withdraw_spec(
            wallet,
            token_a,
            token_b,
            lp_token,
        ) is Ok,
    ensures
        ({
            let s2 = s.deposit_spec(wallet, token_a, token_b, qa, qb).unwrap().withdraw_spec(
                wallet,
                token_a,
                token_b,
                lp_token,
            ).unwrap();
            &&& s2.ledger.bal(token_a, AccountId::Wallet(wallet)) >= s.ledger.bal(
                token_a,
                AccountId::Wallet(wallet),
            )
            &&& s2.ledger.bal(token_b, AccountId::Wallet(wallet)) >= s.ledger.bal(
                token_b,
                AccountId::Wallet(wallet),
            )
        }),
{
    let w = AccountId::Wallet(wallet);
    let key = pair_id_of(token_a, token_b);
    let t0 = first_of(token_a, token_b);
    let t1 = second_of(token_a, token_b);
    let q0 = if token_a <= token_b {
        qa
    } else {
        qb
    };
    let q1 = if token_a <= token_b {
        qb
    } else {
        qa
    };
    let s1 = s.deposit_new_spec(key, wallet, t0, t1, q0, q1).unwrap();
    assert(s.deposit_spec(wallet, token_a, token_b, qa, qb) == s.deposit_new_spec(
        key,
        wallet,
        t0,
        t1,
        q0,
        q1,
    ));
    let pool = AccountId::Pool(s.pools.len() as u64);
    let lp = le_u32(key) as TokenId;
    let reward = floor_sqrt(q0 * q1) as Balance;
    let l0 = s.ledger.create_spec(lp).unwrap();
    let l1 = mint_lp_spec(l0, lp, reward, w, pool).unwrap();
    let l2 = pay_in_spec(l1, w, pool, t0, t1, q0, q1).unwrap();
    assert(s1.ledger == l2);
    assert(!s.ledger.assets.contains(lp));
    assert(s.ledger.bal(lp, w) == 0);
    assert(s.ledger.bal(lp, pool) == 0);
    assert(s.ledger.bal(t0, w) >= q0 && s.ledger.bal(t1, w) >= q1);
    if lp == t0 || lp == t1 {
        assert(is_floor_sqrt(0, 0));
        lemma_floor_sqrt_unique(0, floor_sqrt(0), 0);
        if lp == t0 {
            assert(q0 == 0);
        } else {
            assert(q1 == 0);
        }
        assert(q0 * q1 == 0) by (nonlinear_arith)
            requires
                q0 == 0 || q1 == 0,
        ;
        assert(reward == 0);
    }
    assert(l2.bal(lp, w) == l2.bal(lp, pool));
    assert(s1.pools == s.pools.push(
        PoolRecord {
            pair_id: key,
            pool: Pool { account: pool, lp_token: lp },
            providers: seq![wallet],
        },
    ));
    assert(s1.pools.drop_last() =~= s.pools);
    assert(find_pool(s1.pools, key) == Some(s.pools.len() as int));
    assert(s1.pools[s.pools.len() as int].providers[0] == wallet);
    let i = s.pools.len() as int;
    assert(s1.withdraw_spec(wallet, token_a, token_b, lp_token) == s1.withdraw_from_spec(
        i,
        wallet,
        t0,
        t1,
    ));
    let r0 = l2.bal(t0, pool);
    let r1 = l2.bal(t1, pool);
    assert(PalletState::redemption_spec(l2.bal(lp, w), l2.bal(lp, pool), r0, r1) == Some(
        (r0, r1),
    ));
    let l3 = burn_lp_spec(l2, lp, l2.bal(lp, w), w, pool).unwrap();
    let l4 = pay_out_spec(l3, w, pool, t0, t1, r0, r1).unwrap();
    assert(s1.withdraw_spec(wallet, token_a, token_b, lp_token).unwrap().ledger == l4);
    assert(l3.bal(t0, w) == l2.bal(t0, w) && l3.bal(t1, w) == l2.bal(t1, w));
    assert(l2.bal(t0, w) == s.ledger.bal(t0, w) - q0);
    assert(l2.bal(t1, w) == s.ledger.bal(t1, w) - q1);
    assert(r0 >= q0 && r1 >= q1);
    assert(l4.bal(t0, w) == l3.bal(t0, w) + r0);
    assert(l4.bal(t1, w) == l3.bal(t1, w) + r1);
}

/// The two-step ledger changes of the operations keep holders to created
/// assets.
proof fn lemma_ledger_steps_keep_wf(
    l: LedgerState,
    token: TokenId,
    other: TokenId,
    amount: Balance,
    amount2: Balance,
    w: AccountId,
    pool: AccountId,
)
    requires
        l.wf(),
    ensures
        mint_lp_spec(l, token, amount, w, pool) matches Ok(n) ==> n.wf(),
        burn_lp_spec(l, token, amount, w, pool) matches Ok(n) ==> n.wf(),
        pay_in_spec(l, w, pool, token, other, amount, amount2) matches Ok(n) ==> n.wf(),
        pay_out_spec(l, w, pool, token, other, amount, amount2) matches Ok(n) ==> n.wf(),
        l.transfer_spec(token, w, pool, amount) matches Ok(n) ==> (n.transfer_spec(
            other,
            pool,
            w,
            amount2,
        ) matches Ok(m) ==> m.wf()),
{
    lemma_ledger_ops_keep_wf(l, token, w, pool, amount);
    lemma_ledger_ops_keep_wf(l, token, pool, w, amount);
    if let Ok(n) = l.mint_spec(token, w, amount) {
        lemma_ledger_ops_keep_wf(n, token, pool, w, amount);
    }
    if let Ok(n) = l.burn_spec(token, pool, amount) {
        lemma_ledger_ops_keep_wf(n, token, w, pool, amount);
    }
    if let Ok(n) = l.transfer_spec(token, w, pool, amount) {
        lemma_ledger_ops_keep_wf(n, other, w, pool, amount2);
        lemma_ledger_ops_keep_wf(n, other, pool, w, amount2);
    }
    if let Ok(n) = l.transfer_spec(token, pool, w, amount) {
        lemma_ledger_ops_keep_wf(n, other, pool, w, amount2);
    }
}

/// Deposits, withdrawals and swaps keep the exchange's invariant: pool keys
/// stay unique, each pool keeps its own account, provider lists stay
/// distinct and within the configured capacity, and only created assets
/// have holders.
pub proof fn lemma_operations_keep_wf(
    s: PalletState,
    wallet: u64,
    token_a: TokenId,
    token_b: TokenId,
    qa: Balance,
    qb: Balance,
    lp_token: TokenId,
)
    requires
        s.wf(),
    ensures
        s.deposit_spec(wallet, token_a, token_b, qa, qb) matches Ok(n) ==> n.wf(),
        s.withdraw_spec(wallet, token_a, token_b, lp_token) matches Ok(n) ==> n.wf(),
        s.swap_spec(wallet, token_a, token_b, qa) matches Ok(n) ==> n.wf(),
{
    let w = AccountId::Wallet(wallet);
    let key = pair_id_of(token_a, token_b);
    let t0 = first_of(token_a, token_b);
    let t1 = second_of(token_a, token_b);
    let q0 = if token_a <= token_b {
        qa
    } else {
        qb
    };
    let q1 = if token_a <= token_b {
        qb
    } else {
        qa
    };
    lemma_find_pool(s.pools, key);
    if let Ok(n) = s.deposit_spec(wallet, token_a, token_b, qa, qb) {
        match find_pool(s.pools, key) {
            Some(i) => {
                let rec = s.pools[i];
                let pool = rec.pool.account;
                let lp = rec.pool.lp_token;
                let reward = scaled_share(q0, s.ledger.bal(t0, pool), s.ledger.bal(lp, pool)).unwrap();
                lemma_ledger_steps_keep_wf(s.ledger, lp, lp, reward, reward, w, pool);
                let l1 = mint_lp_spec(s.ledger, lp, reward, w, pool).unwrap();
                lemma_ledger_steps_keep_wf(l1, t0, t1, q0, q1, w, pool);
                if !rec.providers.contains(wallet) {
                    let ps = rec.providers.push(wallet);
                    assert(ps.no_duplicates()) by {
                        assert forall|x: int, y: int|
                            0 <= x < ps.len() && 0 <= y < ps.len() && x != y implies ps[x]
                            != ps[y] by {
                            if y == ps.len() - 1 && x < rec.providers.len() {
                                assert(rec.providers[x] == ps[x]);
                            } else if x == ps.len() - 1 && y < rec.providers.len() {
                                assert(rec.providers[y] == ps[y]);
                            }
                        }
                    }
                }
                assert(forall|j: int| 0 <= j < n.pools.len() ==> #[trigger] n.pools[j].pair_id == s.pools[j].pair_id);
            },
            None => {
                let pool = AccountId::Pool(s.pools.len() as u64);
                let lp = le_u32(key) as TokenId;
                let reward = floor_sqrt(q0 * q1) as Balance;
                lemma_ledger_ops_keep_wf(s.ledger, lp, w, pool, 0);
                let l0 = s.ledger.create_spec(lp).unwrap();
                lemma_ledger_steps_keep_wf(l0, lp, lp, reward, reward, w, pool);
                let l1 = mint_lp_spec(l0, lp, reward, w, pool).unwrap();
                lemma_ledger_steps_keep_wf(l1, t0, t1, q0, q1, w, pool);
                let last = n.pools.len() - 1;
                assert(n.pools[last].providers == seq![wallet]);
                assert(n.pools[last].providers.no_duplicates());
                assert(forall|j: int| 0 <= j < s.pools.len() ==> n.pools[j] == s.pools[j]);
                assert(n.pools[last].pair_id == key);
            },
        }
    }
    if let Ok(n) = s.withdraw_spec(wallet, token_a, token_b, lp_token) {
        let i = find_pool(s.pools, key).unwrap();
        let rec = s.pools[i];
        let pool = rec.pool.account;
        let lp = rec.pool.lp_token;
        let lp_tokens = s.ledger.bal(lp, w);
        let rewards = PalletState::redemption_spec(
            lp_tokens,
            s.ledger.bal(lp, pool),
            s.ledger.bal(t0, pool),
            s.ledger.bal(t1, pool),
        ).unwrap();
        lemma_ledger_steps_keep_wf(s.ledger, lp, lp, lp_tokens, lp_tokens, w, pool);
        let l1 = burn_lp_spec(s.ledger, lp, lp_tokens, w, pool).unwrap();
        lemma_ledger_steps_keep_wf(l1, t0, t1, rewards.0, rewards.1, w, pool);
    }
    if let Ok(n) = s.swap_spec(wallet, token_a, token_b, qa) {
        let i = find_pool(s.pools, key).unwrap();
        let pool = s.pools[i].pool.account;
        let reserves = s.swap_reserves_spec(w, pool, token_a, token_b);
        let reward = swap_quote(qa, reserves.0, reserves.1).unwrap();
        lemma_ledger_steps_keep_wf(s.ledger, token_a, token_b, qa, reward, w, pool);
    }
}

} // verus!
