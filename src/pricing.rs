//! Integer pricing functions of the exchange: LP amounts minted on deposit,
//! reserve amounts redeemed on withdrawal, and swap quotes. Every step is a
//! checked operation; division truncates toward zero.
use sp_arithmetic::traits::IntegerSquareRoot;
use vstd::prelude::*;

verus! {

/// Scaling factor that keeps fractional precision through floor division.
pub const PRECISION: u128 = 1_000_000_000;

/// `r` is the integer square root of `n`: the largest value whose square is
/// at most `n`.
pub open spec fn is_floor_sqrt(r: int, n: int) -> bool {
    0 <= r && r * r <= n && n < (r + 1) * (r + 1)
}

/// The integer square root of a non-negative `n`.
pub open spec fn floor_sqrt(n: int) -> int {
    choose|r: int| is_floor_sqrt(r, n)
}

/// A value has at most one integer square root.
pub proof fn lemma_floor_sqrt_unique(r1: int, r2: int, n: int)
    requires
        is_floor_sqrt(r1, n),
        is_floor_sqrt(r2, n),
    ensures
        r1 == r2,
{
    if r1 < r2 {
        assert((r1 + 1) * (r1 + 1) <= r2 * r2) by (nonlinear_arith)
            requires
                0 <= r1 + 1 <= r2,
        ;
    } else if r2 < r1 {
        assert((r2 + 1) * (r2 + 1) <= r1 * r1) by (nonlinear_arith)
            requires
                0 <= r2 + 1 <= r1,
        ;
    }
}

/// `floor(floor(x * PRECISION / d) * y / PRECISION)`, or `None` when a
/// product leaves the `u128` range or `d` is zero.
pub open spec fn scaled_share(x: u128, d: u128, y: u128) -> Option<u128> {
    if x * PRECISION > u128::MAX || d == 0 {
        None
    } else {
        let share = (x * PRECISION) as int / d as int;
        if share * y > u128::MAX {
            None
        } else {
            Some((share * y / PRECISION as int) as u128)
        }
    }
}

/// `floor(amount * PRECISION / floor(reserve_in * PRECISION / reserve_out))`,
/// or `None` on overflow or division by zero.
pub open spec fn swap_quote(amount: u128, reserve_in: u128, reserve_out: u128) -> Option<u128> {
    if reserve_in * PRECISION > u128::MAX || reserve_out == 0 {
        None
    } else {
        let ratio = (reserve_in * PRECISION) as int / reserve_out as int;
        if amount * PRECISION > u128::MAX || ratio == 0 {
            None
        } else {
            Some(((amount * PRECISION) as int / ratio) as u128)
        }
    }
}

/// Relies on `IntegerSquareRoot::integer_sqrt_checked` (sp_arithmetic, from
/// integer-sqrt) for `u128`: on an unsigned value it always returns the
/// largest integer whose square does not exceed the input.
#[verifier::external_body]
fn integer_sqrt_checked(n: u128) -> (r: Option<u128>)
    ensures
        r.is_some(),
        is_floor_sqrt(r.unwrap() as int, n as int),
{
    n.integer_sqrt_checked()
}

/// The exchange's pricing functions.
pub struct DexPricer;

impl DexPricer {
    /// LP amount minted by the first deposit into a pool:
    /// `floor(sqrt(a * b))`; `None` when `a * b` overflows.
    pub fn new_pool_function(a: u128, b: u128) -> (r: Option<u128>)
        ensures
            r == (if a * b > u128::MAX {
                None
            } else {
                Some(floor_sqrt(a * b) as u128)
            }),
    {
        match a.checked_mul(b) {
            Some(k) => {
                let r = integer_sqrt_checked(k);
                proof {
                    let x = r.unwrap() as int;
                    assert(is_floor_sqrt(x, k as int));
                    lemma_floor_sqrt_unique(x, floor_sqrt(k as int), k as int);
                }
                r
            },
            None => None,
        }
    }

    /// LP amount minted for a deposit of `wallet_a` into an existing pool
    /// whose reserve of the same token is `pool_a` and whose LP supply is
    /// `lp_minted`.
    pub fn existing_pool_function(wallet_a: u128, pool_a: u128, lp_minted: u128) -> (r: Option<
        u128,
    >)
        ensures
            r == scaled_share(wallet_a, pool_a, lp_minted),
    {
        let incr_wallet_a = match wallet_a.checked_mul(PRECISION) {
            Some(x) => x,
            None => return None,
        };
        match incr_wallet_a.checked_div(pool_a) {
            Some(share) => match share.checked_mul(lp_minted) {
                Some(y) => y.checked_div(PRECISION),
                None => None,
            },
            None => None,
        }
    }

    /// Reserve amount owed for burning `lp_tokens` out of `lp_minted`, for a
    /// reserve of `pool`.
    pub fn liquidity_reward(lp_tokens: u128, lp_minted: u128, pool: u128) -> (r: Option<u128>)
        ensures
            r == scaled_share(lp_tokens, lp_minted, pool),
    {
        let incr_lp_tokens = match lp_tokens.checked_mul(PRECISION) {
            Some(x) => x,
            None => return None,
        };
        match incr_lp_tokens.checked_div(lp_minted) {
            Some(share) => match share.checked_mul(pool) {
                Some(y) => y.checked_div(PRECISION),
                None => None,
            },
            None => None,
        }
    }

    /// Output of swapping `tokens` against the reserves
    /// `(liquidity.0, liquidity.1)` of the input and output token.
    pub fn swap(tokens: u128, liquidity: (u128, u128)) -> (r: Option<u128>)
        ensures
            r == swap_quote(tokens, liquidity.0, liquidity.1),
    {
        let scaled = match liquidity.0.checked_mul(PRECISION) {
            Some(x) => x,
            None => return None,
        };
        match scaled.checked_div(liquidity.1) {
            Some(ratio) => match tokens.checked_mul(PRECISION) {
                Some(y) => y.checked_div(ratio),
                None => None,
            },
            None => None,
        }
    }
}

} // verus!
