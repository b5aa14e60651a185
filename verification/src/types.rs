//! Primitive aliases, board constants, the error taxonomy, and the widened
//! multiply-then-divide helper used by the liquidity pool rate conversions.

use vstd::prelude::*;

verus! {

/// A participant's externally visible identifier, the unique account key.
pub type AccountId = String;

/// Balance of the fungible credit token or of the liquidity-share token.
pub type TokenBalance = u128;

/// Cumulative reward-per-pixel accumulator value.
pub type FarmRatio = u128;

/// Dense account index; index 0 is the reserved application account.
pub type AccountIndex = u32;

/// Width of the pixel board.
pub const BOARD_WIDTH: u32 = 50;

/// Height of the pixel board.
pub const BOARD_HEIGHT: u32 = 50;

/// Number of pixels on the board; the application account owns all of them
/// at initialization.
pub const TOTAL_NUM_PIXELS: u32 = 50 * 50;

/// Floor threshold for the credit pool: rate-based conversions are defined
/// only while the pool is at or above this size.
pub const MIN_FT_POOL: u128 = 1_000_000_000_000_000_000;

/// Why an operation was rejected. Every failure aborts the whole operation:
/// the ledger state is left exactly as it was.
#[derive(Clone, Copy, Debug, PartialEq, Eq, Structural)]
pub enum LedgerError {
    /// A charge or debit exceeded the available balance.
    InsufficientBalance,
    /// A computed mint or burn amount violated the caller's stated minimum.
    SlippageExceeded,
    /// The operation would leave, or found, the credit pool under its floor.
    PoolBelowFloor,
    /// The reserved application account attempted a forbidden operation, or
    /// an untrusted caller invoked a privileged notification.
    NotPermitted,
    /// Construction was attempted while ledger state already exists. Only
    /// the host's persistence layer can observe this; the ledger itself is
    /// built at most once per deployment.
    AlreadyInitialized,
}

/// Relies on `primitive_types::U256` (`From<u128>`, `Mul`, `Div`, `as_u128`):
/// the product of two 128-bit values always fits in 256 bits, division is
/// exact truncating division, and `as_u128` returns the value when it fits in
/// 128 bits. The `requires` excludes the two panics (division by zero and a
/// quotient over 128 bits).
#[verifier::external_body]
pub(crate) fn mul_div(a: u128, b: u128, c: u128) -> (r: u128)
    requires
        c > 0,
        (a as int) * (b as int) / (c as int) <= u128::MAX as int,
    ensures
        r as int == (a as int) * (b as int) / (c as int),
{
    let wide = primitive_types::U256::from(a) * primitive_types::U256::from(b);
    (wide / primitive_types::U256::from(c)).as_u128()
}

} // verus!
