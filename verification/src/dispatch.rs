//! The error that a dispatchable call of any pallet returns.
use vstd::prelude::*;
use crate::account;
use crate::currency;
use crate::fund_raising;
use crate::rating;

verus! {

/// Why a dispatchable call failed.
#[derive(Clone, Copy, Debug, PartialEq, Eq, Structural)]
pub enum DispatchError {
    /// An error of the account pallet.
    Account(account::Error),
    /// An error of the fund-raising pallet.
    FundRaising(fund_raising::Error),
    /// An error of the rating pallet.
    Rating(rating::Error),
    /// A failed currency operation.
    Currency(currency::Error),
}

} // verus!
