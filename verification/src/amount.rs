//! Amounts of money, in zatoshis.

use vstd::prelude::*;
use zcash_protocol::value::ZatBalance;

verus! {

/// The money supply: no valid amount exceeds it in absolute value.
pub const MAX_MONEY: i64 = 2_100_000_000_000_000;

/// The fee that a payment leaves to the miner, on top of the value paid.
pub const DEFAULT_FEE: i64 = 10_000;

/// `v` is a valid amount.
pub open spec fn in_money_range(v: int) -> bool {
    -MAX_MONEY <= v <= MAX_MONEY
}

/// The 64-bit two's complement pattern of `v`, read as an unsigned integer.
pub open spec fn as_unsigned(v: i64) -> int {
    if v < 0 {
        v + 0x1_0000_0000_0000_0000
    } else {
        v as int
    }
}

/// Reads a signed integer as the unsigned integer with the same bits.
pub fn to_unsigned(v: i64) -> (u: u64)
    ensures
        u == as_unsigned(v),
{
    assert(v < 0 ==> (v as u64) == v + 0x1_0000_0000_0000_0000) by (bit_vector);
    v as u64
}

/// Adds two amounts with `+` of `zcash_protocol::value::ZatBalance`.
///
/// `ZatBalance::from_i64` accepts what lies within the money range, and `+` gives nothing
/// where the sum does not; within it the sum is exact.
#[verifier::external_body]
fn add_amounts(a: i64, b: i64) -> (sum: i64)
    requires
        in_money_range(a as int),
        in_money_range(b as int),
        in_money_range(a + b),
    ensures
        sum == a + b,
{
    let sum = ZatBalance::from_i64(a).unwrap() + ZatBalance::from_i64(b).unwrap();
    i64::from(sum.unwrap())
}

/// The value that the selected notes must reach for a payment of `value`: the value
/// itself and the fee.
pub fn target_value(value: i64) -> (target: i64)
    requires
        in_money_range(value as int),
        in_money_range(value + DEFAULT_FEE),
    ensures
        target == value + DEFAULT_FEE,
{
    add_amounts(value, DEFAULT_FEE)
}

} // verus!
