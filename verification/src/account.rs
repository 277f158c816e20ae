//! Accounts. The service keys everything else by an account's numeric
//! identifier; the implied system account has id 0.

use vstd::prelude::*;

verus! {

/// One account.
#[derive(Debug, Clone)]
pub struct Account {
    pub id: i64,
}

impl Account {
    /// An account with the given identifier.
    pub fn new(id: i64) -> (r: Account)
        ensures
            r.id == id,
    {
        Account { id }
    }
}

} // verus!
