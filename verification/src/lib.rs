//! Verified state machines for a crowdfunding chain: an account registry
//! with roles and scores, fund raising with voting, and peer rating, over
//! the balances of the chain's currency.
pub mod account;
pub mod currency;
pub mod dispatch;
pub mod fund_raising;
pub mod rating;
