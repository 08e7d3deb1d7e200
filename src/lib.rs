//! Core of a perpetual-futures venue: an order book with price priority, a
//! crossing engine, a funding-rate calculator and an oracle price registry.
use vstd::prelude::*;

pub mod order_book;
pub mod matching_engine;
pub mod funding;
pub mod oracle;
pub mod vault;

pub use order_book::{BookError, Order, OrderBook, Side};
pub use matching_engine::{match_orders, TradeMatch};
pub use funding::{funding_for, FundingRate};
pub use oracle::{LinkOraclePrice, Oracle, OraclePrice};
pub use vault::{deposit, initialize, settle_pnl, withdraw, ErrorCode, UserVault, Vault};

verus! {

/// Whether two 32-byte keys hold the same bytes.
pub(crate) fn same_key(a: &[u8; 32], b: &[u8; 32]) -> (r: bool)
    ensures
        r == (a@ == b@),
{
    let mut i: usize = 0;
    while i < 32
        invariant
            i <= 32,
            a@.len() == 32,
            b@.len() == 32,
            forall|j: int| 0 <= j < i ==> a@[j] == b@[j],
        decreases 32 - i,
    {
        if a[i] != b[i] {
            return false;
        }
        i = i + 1;
    }
    assert(a@ =~= b@);
    true
}

} // verus!
