use vstd::prelude::*;

verus! {

/// An account (a player, a spender, an admin, ...) is identified by a number.
pub type AccountId = u64;

/// What an entry point learns from the ledger it runs on: the current ledger
/// sequence number and the accounts that authorized the invocation.
pub struct CallContext {
    pub sequence: u32,
    pub signers: Vec<AccountId>,
}

impl CallContext {
    /// `who` authorized the current invocation.
    pub open spec fn authorizes(&self, who: AccountId) -> bool {
        self.signers@.contains(who)
    }

    pub fn new(sequence: u32, signers: Vec<AccountId>) -> (ctx: CallContext)
        ensures
            ctx.sequence == sequence,
            ctx.signers@ == signers@,
    {
        CallContext { sequence, signers }
    }

    /// The current ledger sequence number.
    pub fn sequence(&self) -> (r: u32)
        ensures
            r == self.sequence,
    {
        self.sequence
    }

    /// Whether `who` authorized the current invocation.
    pub fn is_authorized(&self, who: AccountId) -> (r: bool)
        ensures
            r == self.authorizes(who),
    {
        let n = self.signers.len();
        let mut i: usize = 0;
        while i < n
            invariant
                n == self.signers@.len(),
                i <= n,
                forall|j: int| 0 <= j < i ==> self.signers@[j] != who,
            decreases n - i,
        {
            if self.signers[i] == who {
                return true;
            }
            i = i + 1;
        }
        false
    }
}

} // verus!
