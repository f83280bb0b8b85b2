use pallet_dex::{
    create_token_pair_id, AccountId, Config, Error, Event, LedgerError, Pallet, SwapReserves,
};
use parity_scale_codec::Decode;

const USER: u64 = 1;
const USER2: u64 = 2;
const DOT: u32 = 1;
const ETH: u32 = 2;
const ADA: u32 = 3;
const BTC: u32 = 4;
const LP: u32 = 100;
const NOASSET1: u32 = 0;
const NOASSET2: u32 = 5;
const A_LOT: u128 = 1_000_000_000_000;
const TOO_MUCH: u128 = 1_000_000_000_000_000_000_000_000_000_000u128;
const PLEDGE: u128 = 50_000_000;
const NOT_ENOUGH: u128 = 49_000_000;

fn new_test_ext() -> Pallet {
    Pallet::new(Config { max_liq_providers: 4, swap_reserves: SwapReserves::Pool })
}

fn create_user_with_one_asset(pallet: &mut Pallet, user: u64, asset: u32, balance: u128) -> u64 {
    let ledger = pallet.ledger_mut();
    let _ = ledger.create_asset(asset);
    ledger.mint_into(asset, AccountId::Wallet(user), balance).unwrap();
    user
}

fn create_user_with_two_assets(
    pallet: &mut Pallet,
    user: u64,
    asset1: u32,
    asset2: u32,
    balance: u128,
) -> u64 {
    create_user_with_one_asset(pallet, user, asset1, balance);
    create_user_with_one_asset(pallet, user, asset2, balance)
}

fn balance(pallet: &Pallet, token: u32, user: u64) -> u128 {
    pallet.ledger().balance(token, AccountId::Wallet(user))
}

fn lp_of_dot_eth() -> u32 {
    let tokenpair_id = create_token_pair_id(DOT, ETH);
    u32::decode(&mut &tokenpair_id[..]).unwrap()
}

#[test]
fn test_identicaltokens_error() {
    let mut p = new_test_ext();
    assert_eq!(p.deposit_liquidity(USER, DOT, DOT, PLEDGE, PLEDGE), Err(Error::IdenticalTokens));
    assert_eq!(p.deposit_liquidity(USER, BTC, BTC, PLEDGE, PLEDGE), Err(Error::IdenticalTokens));
    assert_eq!(
        p.deposit_liquidity(USER, NOASSET1, NOASSET1, PLEDGE, PLEDGE),
        Err(Error::IdenticalTokens)
    );
    assert_eq!(p.withdraw_liquidity(USER, ETH, ETH, LP), Err(Error::IdenticalTokens));
    assert_eq!(p.withdraw_liquidity(USER, ADA, ADA, LP), Err(Error::IdenticalTokens));
    assert_eq!(p.withdraw_liquidity(USER, NOASSET2, NOASSET2, LP), Err(Error::IdenticalTokens));
}

#[test]
fn test_invalidtoken_error() {
    let mut p = new_test_ext();
    assert_eq!(p.deposit_liquidity(USER, NOASSET1, ETH, PLEDGE, PLEDGE), Err(Error::InvalidToken));
    assert_eq!(p.deposit_liquidity(USER, DOT, NOASSET2, PLEDGE, PLEDGE), Err(Error::InvalidToken));
    assert_eq!(
        p.deposit_liquidity(USER, NOASSET1, NOASSET2, PLEDGE, PLEDGE),
        Err(Error::InvalidToken)
    );
    assert_eq!(p.withdraw_liquidity(USER, NOASSET1, ETH, LP), Err(Error::InvalidToken));
    assert_eq!(p.withdraw_liquidity(USER, DOT, NOASSET2, LP), Err(Error::InvalidToken));
    assert_eq!(p.withdraw_liquidity(USER, NOASSET1, NOASSET2, LP), Err(Error::InvalidToken));
    assert_eq!(p.swap(USER, NOASSET1, ETH, PLEDGE), Err(Error::InvalidToken));
    assert_eq!(p.swap(USER, DOT, NOASSET2, PLEDGE), Err(Error::InvalidToken));
    assert_eq!(p.swap(USER, NOASSET1, NOASSET2, PLEDGE), Err(Error::InvalidToken));
}

#[test]
fn test_notenoughfunds_error() {
    let mut p = new_test_ext();
    let user = create_user_with_two_assets(&mut p, USER, DOT, ETH, NOT_ENOUGH);
    assert_eq!(p.deposit_liquidity(user, DOT, ETH, PLEDGE, PLEDGE), Err(Error::NotEnoughFunds));
    assert_eq!(p.swap(user, DOT, ETH, PLEDGE), Err(Error::NotEnoughFunds));
}

#[test]
fn test_notenoughfundstokena_error() {
    let mut p = new_test_ext();
    let user = create_user_with_two_assets(&mut p, USER, DOT, ETH, PLEDGE);
    assert_eq!(
        p.deposit_liquidity(user, DOT, ETH, A_LOT, PLEDGE),
        Err(Error::NotEnoughFundsTokenA)
    );
}

#[test]
fn test_notenoughfundstokenb_error() {
    let mut p = new_test_ext();
    let user = create_user_with_two_assets(&mut p, USER, DOT, ETH, PLEDGE);
    assert_eq!(
        p.deposit_liquidity(user, DOT, ETH, PLEDGE, A_LOT),
        Err(Error::NotEnoughFundsTokenB)
    );
}

#[test]
fn test_deposit_ok() {
    let mut p = new_test_ext();
    let user = create_user_with_two_assets(&mut p, USER, DOT, ETH, A_LOT);
    assert_eq!(p.deposit_liquidity(user, DOT, ETH, PLEDGE, PLEDGE), Ok(()));
}

#[test]
fn test_maxliqproviders_error() {
    let mut p = new_test_ext();
    let user1 = create_user_with_two_assets(&mut p, 1, DOT, ETH, A_LOT);
    assert_eq!(p.deposit_liquidity(user1, DOT, ETH, PLEDGE, PLEDGE), Ok(()));
    let user2 = create_user_with_two_assets(&mut p, 2, DOT, ETH, A_LOT);
    assert_eq!(p.deposit_liquidity(user2, DOT, ETH, PLEDGE, PLEDGE), Ok(()));
    let user3 = create_user_with_two_assets(&mut p, 3, DOT, ETH, A_LOT);
    assert_eq!(p.deposit_liquidity(user3, DOT, ETH, PLEDGE, PLEDGE), Ok(()));
    let user4 = create_user_with_two_assets(&mut p, 4, DOT, ETH, A_LOT);
    assert_eq!(p.deposit_liquidity(user4, DOT, ETH, PLEDGE, PLEDGE), Ok(()));
    let user5 = create_user_with_two_assets(&mut p, 5, DOT, ETH, A_LOT);
    assert_eq!(
        p.deposit_liquidity(user5, DOT, ETH, PLEDGE, PLEDGE),
        Err(Error::LiqProvidersOverflow)
    );
    assert_eq!(p.liquidity_providers(DOT, ETH), vec![1, 2, 3, 4]);
    assert_eq!(balance(&p, DOT, user5), A_LOT);
}

#[test]
fn test_mathoverflow_error() {
    let mut p = new_test_ext();
    let user = create_user_with_two_assets(&mut p, USER, DOT, ETH, TOO_MUCH);
    assert_eq!(p.deposit_liquidity(user, DOT, ETH, TOO_MUCH, TOO_MUCH), Err(Error::MathProblem));
    assert_eq!(p.pool_count(), 0);
    assert_eq!(balance(&p, DOT, user), TOO_MUCH);
}

#[test]
fn test_nolptokens_error() {
    let mut p = new_test_ext();
    assert_eq!(p.withdraw_liquidity(USER, DOT, ETH, LP), Err(Error::NoTokens));
    let user = create_user_with_one_asset(&mut p, USER, LP, 0);
    assert_eq!(p.withdraw_liquidity(user, DOT, ETH, LP), Err(Error::NoTokens));
}

#[test]
fn test_poolnotfound_error() {
    let mut p = new_test_ext();
    let user = create_user_with_two_assets(&mut p, USER, DOT, ETH, A_LOT);
    assert_eq!(p.withdraw_liquidity(user, DOT, ETH, ETH), Err(Error::PoolNotFound));
    assert_eq!(p.swap(user, DOT, ETH, PLEDGE), Err(Error::PoolNotFound));
}

#[test]
fn test_noliquidityprovided_error() {
    let mut p = new_test_ext();
    let user1 = create_user_with_two_assets(&mut p, USER, DOT, ETH, A_LOT);
    assert_eq!(p.deposit_liquidity(user1, DOT, ETH, PLEDGE, PLEDGE), Ok(()));
    let user2 = create_user_with_one_asset(&mut p, USER2, ETH, A_LOT);
    assert_eq!(p.withdraw_liquidity(user2, DOT, ETH, ETH), Err(Error::NoLiquidityProvided));
}

#[test]
fn test_withdrawal_ok() {
    let mut p = new_test_ext();
    let lp_token_id = lp_of_dot_eth();
    let user = create_user_with_two_assets(&mut p, USER, DOT, ETH, A_LOT);
    assert_eq!(p.deposit_liquidity(user, DOT, ETH, PLEDGE, PLEDGE), Ok(()));
    let user2 = create_user_with_two_assets(&mut p, USER2, DOT, ETH, A_LOT);
    assert_eq!(p.deposit_liquidity(user2, DOT, ETH, PLEDGE, PLEDGE), Ok(()));
    assert_eq!(p.withdraw_liquidity(user, DOT, ETH, lp_token_id), Ok(()));
}

#[test]
fn test_swap_ok() {
    let mut p = new_test_ext();
    let user = create_user_with_two_assets(&mut p, USER, DOT, ETH, A_LOT);
    assert_eq!(p.deposit_liquidity(user, DOT, ETH, PLEDGE, PLEDGE), Ok(()));
    assert_eq!(p.swap(user, DOT, ETH, NOT_ENOUGH), Ok(()));
}

#[test]
fn first_deposit_creates_one_pool_and_mints_the_square_root() {
    let mut p = new_test_ext();
    let user = create_user_with_two_assets(&mut p, USER, DOT, ETH, A_LOT);
    assert_eq!(p.deposit_liquidity(user, DOT, ETH, PLEDGE, PLEDGE), Ok(()));
    assert_eq!(p.pool_count(), 1);
    let pool = p.pool_of(ETH, DOT).unwrap();
    assert_eq!(pool.lp_token, lp_of_dot_eth());
    assert_eq!(pool.account, AccountId::Pool(0));
    assert_eq!(balance(&p, pool.lp_token, user), 50_000_000);
    assert_eq!(p.ledger().balance(pool.lp_token, pool.account), 50_000_000);
    assert_eq!(p.ledger().balance(DOT, pool.account), PLEDGE);
    assert_eq!(p.ledger().balance(ETH, pool.account), PLEDGE);
    assert_eq!(balance(&p, DOT, user), A_LOT - PLEDGE);
    assert_eq!(p.liquidity_providers(DOT, ETH), vec![USER]);
    assert_eq!(
        p.events().clone(),
        vec![Event::LiquidityDeposited {
            from: AccountId::Wallet(USER),
            to: pool.account,
            token_a: DOT,
            token_b: ETH,
        }]
    );
}

#[test]
fn reversed_pair_deposits_into_the_same_pool() {
    let mut p = new_test_ext();
    let user = create_user_with_two_assets(&mut p, USER, DOT, ETH, A_LOT);
    assert_eq!(p.deposit_liquidity(user, ETH, DOT, 20, 80), Ok(()));
    let pool = p.pool_of(DOT, ETH).unwrap();
    assert_eq!(p.ledger().balance(DOT, pool.account), 80);
    assert_eq!(p.ledger().balance(ETH, pool.account), 20);
    assert_eq!(balance(&p, pool.lp_token, user), 40);
    assert_eq!(p.deposit_liquidity(user, DOT, ETH, 40, 10), Ok(()));
    assert_eq!(p.pool_count(), 1);
    // floor(floor(40 * 1e9 / 80) * 40 / 1e9) = 20
    assert_eq!(balance(&p, pool.lp_token, user), 60);
    assert_eq!(p.liquidity_providers(DOT, ETH), vec![USER]);
}

#[test]
fn second_wallet_joins_the_existing_pool() {
    let mut p = new_test_ext();
    let user1 = create_user_with_two_assets(&mut p, USER, DOT, ETH, A_LOT);
    assert_eq!(p.deposit_liquidity(user1, DOT, ETH, PLEDGE, PLEDGE), Ok(()));
    let user2 = create_user_with_two_assets(&mut p, USER2, DOT, ETH, A_LOT);
    assert_eq!(p.deposit_liquidity(user2, DOT, ETH, PLEDGE, PLEDGE), Ok(()));
    assert_eq!(p.pool_count(), 1);
    assert_eq!(p.liquidity_providers(DOT, ETH), vec![USER, USER2]);
    let pool = p.pool_of(DOT, ETH).unwrap();
    assert_eq!(balance(&p, pool.lp_token, user2), 50_000_000);
    assert_eq!(p.ledger().balance(pool.lp_token, pool.account), 100_000_000);
}

#[test]
fn identical_tokens_fail_for_any_amounts() {
    let mut p = new_test_ext();
    create_user_with_two_assets(&mut p, USER, DOT, ETH, A_LOT);
    for q in [0u128, 1, PLEDGE, u128::MAX] {
        assert_eq!(p.deposit_liquidity(USER, ETH, ETH, q, PLEDGE), Err(Error::IdenticalTokens));
        assert_eq!(p.deposit_liquidity(USER, ADA, ADA, PLEDGE, q), Err(Error::IdenticalTokens));
    }
    assert_eq!(p.pool_count(), 0);
}

#[test]
fn unlisted_token_fails_even_with_funds() {
    let mut p = new_test_ext();
    create_user_with_two_assets(&mut p, USER, DOT, 7, A_LOT);
    assert_eq!(p.deposit_liquidity(USER, DOT, 7, PLEDGE, PLEDGE), Err(Error::InvalidToken));
    assert_eq!(p.pool_count(), 0);
}

#[test]
fn withdrawal_from_other_pool_holder_fails() {
    let mut p = new_test_ext();
    let user1 = create_user_with_two_assets(&mut p, USER, DOT, ETH, A_LOT);
    assert_eq!(p.deposit_liquidity(user1, DOT, ETH, PLEDGE, PLEDGE), Ok(()));
    let user2 = create_user_with_two_assets(&mut p, USER2, ADA, BTC, A_LOT);
    assert_eq!(p.deposit_liquidity(user2, ADA, BTC, PLEDGE, PLEDGE), Ok(()));
    let ada_btc_lp = p.pool_of(ADA, BTC).unwrap().lp_token;
    assert_eq!(
        p.withdraw_liquidity(user2, DOT, ETH, ada_btc_lp),
        Err(Error::NoLiquidityProvided)
    );
}

#[test]
fn single_provider_round_trip_returns_the_deposit() {
    let mut p = new_test_ext();
    let user = create_user_with_two_assets(&mut p, USER, ADA, BTC, A_LOT);
    assert_eq!(p.deposit_liquidity(user, BTC, ADA, 7_000_001, 3_000_003), Ok(()));
    let pool = p.pool_of(ADA, BTC).unwrap();
    assert_eq!(p.withdraw_liquidity(user, ADA, BTC, pool.lp_token), Ok(()));
    assert_eq!(balance(&p, ADA, user), A_LOT);
    assert_eq!(balance(&p, BTC, user), A_LOT);
    assert_eq!(balance(&p, pool.lp_token, user), 0);
    assert_eq!(p.ledger().balance(ADA, pool.account), 0);
    assert_eq!(p.ledger().balance(pool.lp_token, pool.account), 0);
    assert_eq!(
        p.events().last().cloned(),
        Some(Event::LiquidityWithdrawn {
            from: AccountId::Wallet(USER),
            to: pool.account,
            lp_token: pool.lp_token,
        })
    );
}

#[test]
fn partial_withdrawal_pays_the_share() {
    let mut p = new_test_ext();
    let user1 = create_user_with_two_assets(&mut p, USER, DOT, ETH, A_LOT);
    assert_eq!(p.deposit_liquidity(user1, DOT, ETH, 100, 400), Ok(()));
    let user2 = create_user_with_two_assets(&mut p, USER2, DOT, ETH, A_LOT);
    assert_eq!(p.deposit_liquidity(user2, DOT, ETH, 100, 400), Ok(()));
    let pool = p.pool_of(DOT, ETH).unwrap();
    assert_eq!(p.ledger().balance(pool.lp_token, pool.account), 400);
    assert_eq!(p.withdraw_liquidity(user1, DOT, ETH, pool.lp_token), Ok(()));
    // 200 of 400 LP: half of the reserves (200 DOT, 800 ETH)
    assert_eq!(balance(&p, DOT, user1), A_LOT);
    assert_eq!(balance(&p, ETH, user1), A_LOT);
    assert_eq!(p.ledger().balance(pool.lp_token, pool.account), 200);
    assert_eq!(balance(&p, pool.lp_token, user1), 0);
}

#[test]
fn swap_beyond_balance_fails_and_changes_nothing() {
    let mut p = new_test_ext();
    let user = create_user_with_two_assets(&mut p, USER, DOT, ETH, A_LOT);
    assert_eq!(p.deposit_liquidity(user, DOT, ETH, PLEDGE, PLEDGE), Ok(()));
    let pool = p.pool_of(DOT, ETH).unwrap();
    let events = p.events().len();
    assert_eq!(p.swap(user, DOT, ETH, A_LOT), Err(Error::NotEnoughFunds));
    assert_eq!(p.ledger().balance(DOT, pool.account), PLEDGE);
    assert_eq!(p.ledger().balance(ETH, pool.account), PLEDGE);
    assert_eq!(balance(&p, DOT, user), A_LOT - PLEDGE);
    assert_eq!(p.events().len(), events);
}

#[test]
fn swap_moves_the_quoted_amounts() {
    let mut p = new_test_ext();
    let user = create_user_with_two_assets(&mut p, USER, DOT, ETH, A_LOT);
    assert_eq!(p.deposit_liquidity(user, DOT, ETH, 200, 100), Ok(()));
    let pool = p.pool_of(DOT, ETH).unwrap();
    assert_eq!(p.swap(user, DOT, ETH, 10), Ok(()));
    assert_eq!(p.ledger().balance(DOT, pool.account), 210);
    assert_eq!(p.ledger().balance(ETH, pool.account), 95);
    assert_eq!(balance(&p, ETH, user), A_LOT - 100 + 5);
    assert_eq!(
        p.events().last().cloned(),
        Some(Event::SwapOccured { from: AccountId::Wallet(USER), to: pool.account })
    );
}

#[test]
fn swap_priced_on_caller_balances() {
    let mut p = Pallet::new(Config { max_liq_providers: 4, swap_reserves: SwapReserves::Caller });
    let user = create_user_with_two_assets(&mut p, USER, DOT, ETH, 1_000);
    assert_eq!(p.deposit_liquidity(user, DOT, ETH, 100, 100), Ok(()));
    create_user_with_one_asset(&mut p, USER, ETH, 900);
    // caller holds 900 DOT and 1800 ETH: floor(10 * 1e9 / floor(900 * 1e9 / 1800)) = 20
    assert_eq!(p.swap(user, DOT, ETH, 10), Ok(()));
    assert_eq!(balance(&p, ETH, user), 1_820);
}

#[test]
fn swap_without_output_reserve_is_a_math_problem() {
    let mut p = new_test_ext();
    let user = create_user_with_two_assets(&mut p, USER, DOT, ETH, A_LOT);
    assert_eq!(p.deposit_liquidity(user, DOT, ETH, PLEDGE, 0), Ok(()));
    assert_eq!(p.swap(user, DOT, ETH, 10), Err(Error::MathProblem));
}

#[test]
fn zero_capacity_refuses_the_first_provider() {
    let mut p = Pallet::new(Config { max_liq_providers: 0, swap_reserves: SwapReserves::Pool });
    let user = create_user_with_two_assets(&mut p, USER, DOT, ETH, A_LOT);
    assert_eq!(
        p.deposit_liquidity(user, DOT, ETH, PLEDGE, PLEDGE),
        Err(Error::LiqProvidersOverflow)
    );
    assert_eq!(p.pool_count(), 0);
    assert!(!p.ledger().has_asset(lp_of_dot_eth()));
}

#[test]
fn existing_lp_asset_is_a_ledger_failure() {
    let mut p = new_test_ext();
    let user = create_user_with_two_assets(&mut p, USER, DOT, ETH, A_LOT);
    p.ledger_mut().create_asset(lp_of_dot_eth()).unwrap();
    assert_eq!(
        p.deposit_liquidity(user, DOT, ETH, PLEDGE, PLEDGE),
        Err(Error::Ledger(LedgerError::AssetExists))
    );
    assert_eq!(p.pool_count(), 0);
    assert_eq!(balance(&p, DOT, user), A_LOT);
}

#[test]
fn add_liquidity_checks_the_request() {
    let mut p = new_test_ext();
    let user = create_user_with_two_assets(&mut p, USER, DOT, ETH, PLEDGE);
    assert_eq!(p.add_liquidity(user, DOT, ETH, PLEDGE, PLEDGE), Ok(()));
    assert_eq!(p.add_liquidity(user, DOT, DOT, PLEDGE, PLEDGE), Err(Error::IdenticalTokens));
    assert_eq!(p.add_liquidity(user, DOT, 9, PLEDGE, PLEDGE), Err(Error::InvalidToken));
    assert_eq!(p.add_liquidity(user, DOT, ETH, A_LOT, A_LOT), Err(Error::NotEnoughFunds));
    assert_eq!(p.pool_count(), 0);
}
