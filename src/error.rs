use vstd::prelude::*;

verus! {

/// Why a call to the ledger was turned down.
#[derive(Clone, Copy, Debug, PartialEq, Eq, Structural)]
pub enum CustomError {
    /// The named user was never registered.
    UserDoesNotExist,
    /// The caller is not an administrator.
    AccessOnlyForAdmins,
    /// The account to remove is not an administrator.
    AdminNotFound,
    /// The activity lasted fewer minutes than the threshold asks for.
    TooLittleMins,
    /// The activity has fewer steps than the threshold asks for.
    TooLittleSteps,
}

} // verus!
