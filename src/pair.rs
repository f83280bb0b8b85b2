//! Canonical identity of a token pair: the pool key derived from the two
//! token ids in ascending order, the LP token id read from that key, and the
//! normalised deposit and withdrawal requests built on it.
use frame_support::Hashable;
use vstd::prelude::*;

verus! {

/// Token identifier.
pub type TokenId = u32;

/// Amount of a token.
pub type Balance = u128;

/// The 128-bit blake2 digest of a byte string (16 bytes).
pub uninterp spec fn blake2_128_of(data: Seq<u8>) -> Seq<u8>;

/// The SCALE encoding of a `u32`: its four little-endian bytes.
pub open spec fn le_bytes(x: u32) -> Seq<u8> {
    seq![
        (x % 256) as u8,
        ((x / 256) % 256) as u8,
        ((x / 65536) % 256) as u8,
        (x / 16777216) as u8,
    ]
}

/// The SCALE encoding of a byte vector shorter than 64 bytes: a one-byte
/// compact length prefix (the length times four), then the bytes.
pub open spec fn scale_bytes(s: Seq<u8>) -> Seq<u8> {
    seq![(s.len() * 4) as u8] + s
}

/// Blake2-128 of a token id's encoding, followed by the encoding.
pub open spec fn concat_hash(x: TokenId) -> Seq<u8> {
    blake2_128_of(le_bytes(x)) + le_bytes(x)
}

/// Pool key of the ordered pair `(first, second)`.
pub open spec fn ordered_pair_id(first: TokenId, second: TokenId) -> Seq<u8> {
    blake2_128_of(scale_bytes(concat_hash(first) + concat_hash(second)))
}

/// Pool key of the unordered pair `{a, b}`: the key of the pair sorted
/// ascending.
pub open spec fn pair_id_of(a: TokenId, b: TokenId) -> Seq<u8> {
    if a <= b {
        ordered_pair_id(a, b)
    } else {
        ordered_pair_id(b, a)
    }
}

/// The `u32` held little-endian in the first four bytes of `s`.
pub open spec fn le_u32(s: Seq<u8>) -> int {
    s[0] + 256 * s[1] + 65536 * s[2] + 16777216 * s[3]
}

/// Relies on frame_support's `Hashable::blake2_128_concat` on `u32`: the
/// blake2-128 digest of the value's SCALE encoding, followed by that encoding.
#[verifier::external_body]
fn blake2_128_concat(x: TokenId) -> (r: Vec<u8>)
    ensures
        r@ == blake2_128_of(le_bytes(x)) + le_bytes(x),
        r@.len() == 20,
{
    x.blake2_128_concat()
}

/// Relies on frame_support's `Hashable::blake2_128` on `Vec<u8>`: the
/// blake2-128 digest of the vector's SCALE encoding.
#[verifier::external_body]
fn blake2_128(data: &Vec<u8>) -> (r: [u8; 16])
    requires
        data@.len() < 64,
    ensures
        r@ == blake2_128_of(scale_bytes(data@)),
{
    data.blake2_128()
}

/// Pool key of the pair `(token_a, token_b)` taken in the given order.
pub fn create_token_pair_id(token_a: TokenId, token_b: TokenId) -> (r: [u8; 16])
    ensures
        r@ == ordered_pair_id(token_a, token_b),
{
    let mut hash1 = blake2_128_concat(token_a);
    let mut hash2 = blake2_128_concat(token_b);
    hash1.append(&mut hash2);
    blake2_128(&hash1)
}

/// The two tokens in ascending order.
pub fn sorted_pair(token_a: TokenId, token_b: TokenId) -> (r: (TokenId, TokenId))
    ensures
        r == (if token_a <= token_b {
            (token_a, token_b)
        } else {
            (token_b, token_a)
        }),
{
    if token_a <= token_b {
        (token_a, token_b)
    } else {
        (token_b, token_a)
    }
}

/// The pair of a swap in ascending order, and whether `from_token` comes
/// first in it.
pub fn check_swap_token_a(from_token: TokenId, to_token: TokenId) -> (r: (TokenId, TokenId, bool))
    ensures
        r == (if from_token <= to_token {
            (from_token, to_token, true)
        } else {
            (to_token, from_token, false)
        }),
{
    let (first, _) = sorted_pair(from_token, to_token);
    if first == from_token {
        (from_token, to_token, true)
    } else {
        (to_token, from_token, false)
    }
}

/// Pool key of the unordered pair `{token_a, token_b}`.
pub fn pair_id(token_a: TokenId, token_b: TokenId) -> (r: [u8; 16])
    ensures
        r@ == pair_id_of(token_a, token_b),
{
    let (first, second) = sorted_pair(token_a, token_b);
    create_token_pair_id(first, second)
}

/// The pool key does not depend on the order in which the two tokens are
/// given.
pub proof fn lemma_pair_id_commutative(a: TokenId, b: TokenId)
    requires
        a != b,
    ensures
        pair_id_of(a, b) == pair_id_of(b, a),
{
}

/// LP token id of a pool: the `u32` decoded little-endian from the first
/// four bytes of its key.
pub fn lp_token_of(tokenpair_id: &[u8; 16]) -> (r: TokenId)
    ensures
        r as int == le_u32(tokenpair_id@),
{
    let b0 = tokenpair_id[0] as u32;
    let b1 = tokenpair_id[1] as u32;
    let b2 = tokenpair_id[2] as u32;
    let b3 = tokenpair_id[3] as u32;
    b0 + 256 * b1 + 65536 * b2 + 16777216 * b3
}

/// A deposit request in canonical form: tokens ascending, amounts matched
/// to them, and the pool key.
#[derive(Debug, Clone, PartialEq, Eq)]
pub struct Deposit {
    pub tokenpair: Vec<TokenId>,
    pub tokenpair_id: [u8; 16],
    pub quantity_token_a: Balance,
    pub quantity_token_b: Balance,
}

/// A withdrawal request in canonical form: tokens ascending, the pool key,
/// and the LP token named by the caller.
#[derive(Debug, Clone, PartialEq, Eq)]
pub struct Withdrawal {
    pub tokenpair: Vec<TokenId>,
    pub tokenpair_id: [u8; 16],
    pub lp_token: TokenId,
}

/// Builds the canonical deposit request: when `token_b < token_a` the
/// tokens are swapped and the amounts with them.
pub fn create_deposit(
    token_a: TokenId,
    token_b: TokenId,
    unsorted_quant_token_a: Balance,
    unsorted_quant_token_b: Balance,
) -> (r: Deposit)
    ensures
        r.tokenpair@ == (if token_a <= token_b {
            seq![token_a, token_b]
        } else {
            seq![token_b, token_a]
        }),
        r.tokenpair_id@ == pair_id_of(token_a, token_b),
        (r.quantity_token_a, r.quantity_token_b) == (if token_a <= token_b {
            (unsorted_quant_token_a, unsorted_quant_token_b)
        } else {
            (unsorted_quant_token_b, unsorted_quant_token_a)
        }),
{
    let (first, second) = sorted_pair(token_a, token_b);
    let tokenpair_id = create_token_pair_id(first, second);
    let mut quantity_token_a = unsorted_quant_token_a;
    let mut quantity_token_b = unsorted_quant_token_b;
    if first != token_a {
        quantity_token_a = unsorted_quant_token_b;
        quantity_token_b = unsorted_quant_token_a;
    }
    Deposit { tokenpair: vec![first, second], tokenpair_id, quantity_token_a, quantity_token_b }
}

/// Builds the canonical withdrawal request.
pub fn create_withdrawal(token_a: TokenId, token_b: TokenId, lp_token: TokenId) -> (r:
    Withdrawal)
    ensures
        r.tokenpair@ == (if token_a <= token_b {
            seq![token_a, token_b]
        } else {
            seq![token_b, token_a]
        }),
        r.tokenpair_id@ == pair_id_of(token_a, token_b),
        r.lp_token == lp_token,
{
    let (first, second) = sorted_pair(token_a, token_b);
    let tokenpair_id = create_token_pair_id(first, second);
    Withdrawal { tokenpair: vec![first, second], tokenpair_id, lp_token }
}

} // verus!
