//! A small ledger of fitness activities kept for registered users and
//! guarded by a set of administrator accounts.
use vstd::prelude::*;

pub mod account;
pub mod error;
pub mod ledger;
pub mod record;
pub mod text;

pub use account::AccountId;
pub use error::CustomError;
pub use ledger::Inkfit;
pub use record::ActivityRecord;

verus! {

} // verus!
