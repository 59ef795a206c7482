use vstd::prelude::*;

verus! {

/// A point-in-time view of the game contract's accounting: the player
/// balances it holds, the stakes locked in escrow, what it owes to players,
/// and the treasury's own share.
pub struct TreasurySnapshot {
    pub sum_of_balances: u64,
    pub escrow: u64,
    pub liabilities: u64,
    pub treasury: u64,
}

impl TreasurySnapshot {
    /// The treasury invariant: what the contract holds (balances plus escrow)
    /// covers what it owes (liabilities plus the treasury's share).
    pub open spec fn spec_invariant(self) -> bool {
        self.sum_of_balances + self.escrow >= self.liabilities + self.treasury
    }

    /// Whether the treasury invariant holds.
    pub fn invariant_holds(&self) -> (r: bool)
        ensures
            r == self.spec_invariant(),
    {
        (self.sum_of_balances as u128) + (self.escrow as u128) >= (self.liabilities as u128)
            + (self.treasury as u128)
    }

    /// Asserts the treasury invariant: it may only be called on a snapshot
    /// that keeps it, which verified callers must prove; it checks nothing
    /// at run time (use `invariant_holds` for that).
    pub fn assert_invariant(&self)
        requires
            self.spec_invariant(),
    {
    }

    /// The snapshot after `stake` moves from the balances into escrow.
    pub open spec fn locked(self, stake: u64) -> TreasurySnapshot {
        TreasurySnapshot {
            sum_of_balances: (self.sum_of_balances - stake) as u64,
            escrow: (self.escrow + stake) as u64,
            ..self
        }
    }

    /// The snapshot after `stake` moves from escrow back into the balances.
    pub open spec fn released(self, stake: u64) -> TreasurySnapshot {
        TreasurySnapshot {
            sum_of_balances: (self.sum_of_balances + stake) as u64,
            escrow: (self.escrow - stake) as u64,
            ..self
        }
    }

    /// The snapshot after the treasury withdraws `amount` from the balances.
    pub open spec fn withdrawn(self, amount: u64) -> TreasurySnapshot {
        TreasurySnapshot {
            sum_of_balances: (self.sum_of_balances - amount) as u64,
            treasury: (self.treasury - amount) as u64,
            ..self
        }
    }

    /// Locking a stake in escrow, or releasing it, keeps the treasury
    /// invariant.
    pub proof fn lemma_escrow_moves_keep_invariant(self, stake: u64)
        requires
            self.spec_invariant(),
        ensures
            stake <= self.sum_of_balances && self.escrow + stake <= u64::MAX ==> self.locked(
                stake,
            ).spec_invariant(),
            stake <= self.escrow && self.sum_of_balances + stake <= u64::MAX ==> self.released(
                stake,
            ).spec_invariant(),
    {
    }

    /// A withdrawal by the treasury of at most its share keeps the treasury
    /// invariant.
    pub proof fn lemma_withdrawal_keeps_invariant(self, amount: u64)
        requires
            self.spec_invariant(),
            amount <= self.sum_of_balances,
            amount <= self.treasury,
        ensures
            self.withdrawn(amount).spec_invariant(),
    {
    }
}

} // verus!
