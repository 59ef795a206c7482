use vstd::prelude::*;

use crate::context::AccountId;

verus! {

/// An allowance: how much a spender may still move out of an owner's
/// balance, and the last ledger at which it may be used (`0`: no expiry).
#[derive(Clone, Copy, Debug, PartialEq, Eq, Structural)]
pub struct AllowanceValue {
    pub amount: i128,
    pub expiration_ledger: u32,
}

/// The stored allowances, one entry per (owner, spender) pair that has been
/// written.
pub struct AllowanceTable {
    entries: Vec<(AccountId, AccountId, AllowanceValue)>,
}

/// The pair (`from`, `spender`) has an entry in `s`.
pub open spec fn has_pair(
    s: Seq<(AccountId, AccountId, AllowanceValue)>,
    from: AccountId,
    spender: AccountId,
) -> bool {
    exists|i: int| 0 <= i < s.len() && s[i].0 == from && s[i].1 == spender
}

/// No pair has two entries in `s`.
pub open spec fn unique_pairs(s: Seq<(AccountId, AccountId, AllowanceValue)>) -> bool {
    forall|i: int, j: int|
        0 <= i < s.len() && 0 <= j < s.len() && i != j ==> !(s[i].0 == s[j].0 && s[i].1 == s[j].1)
}

/// The (owner, spender)-to-allowance map that the entries of `s` describe.
pub open spec fn pairs_map(s: Seq<(AccountId, AccountId, AllowanceValue)>) -> Map<
    (AccountId, AccountId),
    AllowanceValue,
> {
    Map::new(
        |k: (AccountId, AccountId)| has_pair(s, k.0, k.1),
        |k: (AccountId, AccountId)|
            s[choose|i: int| 0 <= i < s.len() && s[i].0 == k.0 && s[i].1 == k.1].2,
    )
}

proof fn lemma_pair_lookup(s: Seq<(AccountId, AccountId, AllowanceValue)>, k: int)
    requires
        unique_pairs(s),
        0 <= k < s.len(),
    ensures
        pairs_map(s).dom().contains((s[k].0, s[k].1)),
        pairs_map(s)[(s[k].0, s[k].1)] == s[k].2,
{
    assert(has_pair(s, s[k].0, s[k].1));
    let i = choose|i: int| 0 <= i < s.len() && s[i].0 == s[k].0 && s[i].1 == s[k].1;
    assert(i == k);
}

impl View for AllowanceTable {
    type V = Map<(AccountId, AccountId), AllowanceValue>;

    closed spec fn view(&self) -> Map<(AccountId, AccountId), AllowanceValue> {
        pairs_map(self.entries@)
    }
}

impl AllowanceTable {
    /// No (owner, spender) pair has two entries.
    #[verifier::type_invariant]
    pub closed spec fn wf(self) -> bool {
        unique_pairs(self.entries@)
    }

    pub fn new() -> (t: AllowanceTable)
        ensures
            t@ == Map::<(AccountId, AccountId), AllowanceValue>::empty(),
    {
        let t = AllowanceTable { entries: Vec::new() };
        assert(t@ =~= Map::<(AccountId, AccountId), AllowanceValue>::empty());
        t
    }

    fn position(&self, from: AccountId, spender: AccountId) -> (r: Option<usize>)
        ensures
            match r {
                Some(i) => i < self.entries@.len() && self.entries@[i as int].0 == from
                    && self.entries@[i as int].1 == spender,
                None => !has_pair(self.entries@, from, spender),
            },
    {
        let n = self.entries.len();
        let mut i: usize = 0;
        while i < n
            invariant
                n == self.entries@.len(),
                i <= n,
                forall|j: int|
                    0 <= j < i ==> !(self.entries@[j].0 == from && self.entries@[j].1 == spender),
            decreases n - i,
        {
            if self.entries[i].0 == from && self.entries[i].1 == spender {
                return Some(i);
            }
            i = i + 1;
        }
        None
    }

    /// The stored allowance of `spender` over `from`'s balance, if any.
    pub fn get(&self, from: AccountId, spender: AccountId) -> (r: Option<AllowanceValue>)
        ensures
            r == (if self@.dom().contains((from, spender)) {
                Some(self@[(from, spender)])
            } else {
                None
            }),
    {
        proof {
            use_type_invariant(self);
        }
        match self.position(from, spender) {
            Some(i) => {
                proof {
                    lemma_pair_lookup(self.entries@, i as int);
                }
                Some(self.entries[i].2)
            },
            None => {
                assert(!self@.dom().contains((from, spender)));
                None
            },
        }
    }

    /// Records `value` as the allowance of `spender` over `from`'s balance.
    pub fn set(&mut self, from: AccountId, spender: AccountId, value: AllowanceValue)
        ensures
            final(self)@ == old(self)@.insert((from, spender), value),
    {
        proof {
            use_type_invariant(&*self);
        }
        let ghost s = self.entries@;
        let pos = self.position(from, spender);
        let mut entries: Vec<(AccountId, AccountId, AllowanceValue)> = Vec::new();
        std::mem::swap(&mut entries, &mut self.entries);
        let ghost key = (from, spender);
        match pos {
            Some(k) => {
                entries.set(k, (from, spender, value));
                let ghost t = entries@;
                proof {
                    assert(t == s.update(k as int, (from, spender, value)));
                    assert forall|a: AccountId, b: AccountId| #[trigger]
                        has_pair(t, a, b) == has_pair(s, a, b) by {
                        if has_pair(s, a, b) {
                            let i = choose|i: int| 0 <= i < s.len() && s[i].0 == a && s[i].1 == b;
                            assert(t[i].0 == a && t[i].1 == b);
                        }
                        if has_pair(t, a, b) {
                            let i = choose|i: int| 0 <= i < t.len() && t[i].0 == a && t[i].1 == b;
                            assert(s[i].0 == a && s[i].1 == b);
                        }
                    }
                    assert(unique_pairs(t));
                    lemma_pair_lookup(t, k as int);
                    assert forall|x: (AccountId, AccountId)|
                        pairs_map(t).dom().contains(x) && x != key implies pairs_map(t)[x]
                        == pairs_map(s)[x] by {
                        assert(has_pair(t, x.0, x.1));
                        let i = choose|i: int| 0 <= i < s.len() && s[i].0 == x.0 && s[i].1 == x.1;
                        lemma_pair_lookup(s, i);
                        lemma_pair_lookup(t, i);
                    }
                    assert(pairs_map(t) =~= pairs_map(s).insert(key, value));
                }
            },
            None => {
                entries.push((from, spender, value));
                let ghost t = entries@;
                proof {
                    assert(t == s.push((from, spender, value)));
                    assert(unique_pairs(t));
                    assert forall|a: AccountId, b: AccountId| #[trigger]
                        has_pair(t, a, b) == (has_pair(s, a, b) || (a == from && b == spender)) by {
                        if has_pair(s, a, b) {
                            let i = choose|i: int| 0 <= i < s.len() && s[i].0 == a && s[i].1 == b;
                            assert(t[i].0 == a && t[i].1 == b);
                        }
                        if a == from && b == spender {
                            assert(t[s.len() as int].0 == a && t[s.len() as int].1 == b);
                        }
                        if has_pair(t, a, b) && !(a == from && b == spender) {
                            let i = choose|i: int| 0 <= i < t.len() && t[i].0 == a && t[i].1 == b;
                            assert(s[i].0 == a && s[i].1 == b);
                        }
                    }
                    lemma_pair_lookup(t, s.len() as int);
                    assert forall|x: (AccountId, AccountId)|
                        pairs_map(t).dom().contains(x) && x != key implies pairs_map(t)[x]
                        == pairs_map(s)[x] by {
                        assert(has_pair(t, x.0, x.1));
                        let i = choose|i: int| 0 <= i < s.len() && s[i].0 == x.0 && s[i].1 == x.1;
                        lemma_pair_lookup(s, i);
                        lemma_pair_lookup(t, i);
                    }
                    assert(pairs_map(t) =~= pairs_map(s).insert(key, value));
                }
            },
        }
        self.entries = entries;
    }
}

} // verus!
