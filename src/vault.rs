//! Collateral balances: deposits, withdrawals and settlement of profit and
//! loss by the operator that the vault names.
use vstd::prelude::*;

use crate::same_key;

verus! {

/// The vault, with the key of the operator allowed to settle.
#[derive(Clone, Copy, Debug)]
pub struct Vault {
    pub authority: [u8; 32],
}

/// One user's collateral.
#[derive(Clone, Copy, Debug, PartialEq, Eq, Structural)]
pub struct UserVault {
    pub collateral_balance: u64,
}

#[derive(Clone, Copy, Debug, PartialEq, Eq, Structural)]
pub enum ErrorCode {
    /// A withdrawal exceeds the balance.
    InsufficientFunds,
    /// Settlement by a key other than the vault's authority.
    UnauthorizedOperator,
}

/// The balance after settling `pnl`: a gain is added, a loss taken off down to zero.
pub open spec fn settled_balance(balance: u64, pnl: i64) -> int {
    if pnl > 0 {
        balance + pnl
    } else if balance >= -pnl {
        balance + pnl
    } else {
        0
    }
}

/// A vault whose settlements only `authority` may make.
pub fn initialize(authority: [u8; 32]) -> (r: Vault)
    ensures
        r.authority == authority,
{
    Vault { authority }
}

/// Credits `amount` of deposited collateral.
pub fn deposit(user_vault: &mut UserVault, amount: u64)
    requires
        old(user_vault).collateral_balance + amount <= u64::MAX,
    ensures
        final(user_vault).collateral_balance == old(user_vault).collateral_balance + amount,
{
    user_vault.collateral_balance = user_vault.collateral_balance + amount;
}

/// Debits `amount`, which must not exceed the balance.
pub fn withdraw(user_vault: &mut UserVault, amount: u64) -> (r: Result<(), ErrorCode>)
    ensures
        r == Err::<(), ErrorCode>(ErrorCode::InsufficientFunds) <==> old(
            user_vault,
        ).collateral_balance < amount,
        r.is_err() ==> *final(user_vault) == *old(user_vault),
        r.is_ok() ==> final(user_vault).collateral_balance == old(user_vault).collateral_balance
            - amount,
{
    if user_vault.collateral_balance < amount {
        return Err(ErrorCode::InsufficientFunds);
    }
    user_vault.collateral_balance = user_vault.collateral_balance - amount;
    Ok(())
}

/// Applies a profit (`pnl > 0`) or loss to the balance, when `operator` is the
/// vault's authority. A loss larger than the balance leaves it at zero.
pub fn settle_pnl(vault: &Vault, operator: &[u8; 32], user_vault: &mut UserVault, pnl: i64) -> (r:
    Result<(), ErrorCode>)
    requires
        pnl != i64::MIN,
        pnl > 0 ==> old(user_vault).collateral_balance + pnl <= u64::MAX,
    ensures
        r == Err::<(), ErrorCode>(ErrorCode::UnauthorizedOperator) <==> vault.authority@
            != operator@,
        r.is_err() ==> *final(user_vault) == *old(user_vault),
        r.is_ok() ==> final(user_vault).collateral_balance == settled_balance(
            old(user_vault).collateral_balance,
            pnl,
        ),
{
    if !same_key(&vault.authority, operator) {
        return Err(ErrorCode::UnauthorizedOperator);
    }
    if pnl > 0 {
        user_vault.collateral_balance = user_vault.collateral_balance + pnl as u64;
    } else {
        let loss = (-pnl) as u64;
        if user_vault.collateral_balance < loss {
            user_vault.collateral_balance = 0;
        } else {
            user_vault.collateral_balance = user_vault.collateral_balance - loss;
        }
    }
    Ok(())
}

} // verus!
