use vstd::prelude::*;

use crate::context::AccountId;
use vstd::set::fold::{is_fun_commutative, lemma_fold_empty, lemma_fold_insert};

verus! {

/// The stored balance of every account that has been written, one entry per
/// account. An account without an entry holds nothing.
pub struct BalanceTable {
    entries: Vec<(AccountId, i128)>,
}

/// `id` has an entry in `s`.
pub open spec fn has_account(s: Seq<(AccountId, i128)>, id: AccountId) -> bool {
    exists|i: int| 0 <= i < s.len() && s[i].0 == id
}

/// No account has two entries in `s`.
pub open spec fn unique_accounts(s: Seq<(AccountId, i128)>) -> bool {
    forall|i: int, j: int| 0 <= i < s.len() && 0 <= j < s.len() && i != j ==> s[i].0 != s[j].0
}

/// The sum of the amounts of all entries of `s`.
pub open spec fn entries_sum(s: Seq<(AccountId, i128)>) -> int
    decreases s.len(),
{
    if s.len() == 0 {
        0
    } else {
        entries_sum(s.drop_last()) + s.last().1
    }
}

/// The account-to-amount map that the entries of `s` describe.
pub open spec fn entries_map(s: Seq<(AccountId, i128)>) -> Map<AccountId, i128> {
    Map::new(
        |id: AccountId| has_account(s, id),
        |id: AccountId| s[choose|i: int| 0 <= i < s.len() && s[i].0 == id].1,
    )
}

proof fn lemma_lookup(s: Seq<(AccountId, i128)>, k: int)
    requires
        unique_accounts(s),
        0 <= k < s.len(),
    ensures
        entries_map(s).dom().contains(s[k].0),
        entries_map(s)[s[k].0] == s[k].1,
{
    let id = s[k].0;
    assert(has_account(s, id));
    let i = choose|i: int| 0 <= i < s.len() && s[i].0 == id;
    assert(i == k);
}

proof fn lemma_sum_update(s: Seq<(AccountId, i128)>, k: int, e: (AccountId, i128))
    requires
        0 <= k < s.len(),
    ensures
        entries_sum(s.update(k, e)) == entries_sum(s) - s[k].1 + e.1,
    decreases s.len(),
{
    let t = s.update(k, e);
    if k == s.len() - 1 {
        assert(t.drop_last() =~= s.drop_last());
    } else {
        assert(t.drop_last() =~= s.drop_last().update(k, e));
        lemma_sum_update(s.drop_last(), k, e);
    }
}

proof fn lemma_sum_push(s: Seq<(AccountId, i128)>, e: (AccountId, i128))
    ensures
        entries_sum(s.push(e)) == entries_sum(s) + e.1,
{
    assert(s.push(e).drop_last() =~= s);
}

proof fn lemma_sum_bounds(s: Seq<(AccountId, i128)>)
    requires
        forall|i: int| 0 <= i < s.len() ==> s[i].1 >= 0,
    ensures
        entries_sum(s) >= 0,
        forall|k: int| 0 <= k < s.len() ==> s[k].1 <= entries_sum(s),
        forall|k1: int, k2: int|
            0 <= k1 < s.len() && 0 <= k2 < s.len() && k1 != k2 ==> s[k1].1 + s[k2].1
                <= entries_sum(s),
    decreases s.len(),
{
    if s.len() > 0 {
        let d = s.drop_last();
        lemma_sum_bounds(d);
        assert forall|k: int| 0 <= k < s.len() implies s[k].1 <= entries_sum(s) by {
            if k < s.len() - 1 {
                assert(s[k] == d[k]);
            }
        }
        assert forall|k1: int, k2: int|
            0 <= k1 < s.len() && 0 <= k2 < s.len() && k1 != k2 implies s[k1].1 + s[k2].1
                <= entries_sum(s) by {
            if k1 < s.len() - 1 && k2 < s.len() - 1 {
                assert(s[k1] == d[k1] && s[k2] == d[k2]);
            } else if k1 < s.len() - 1 {
                assert(s[k1] == d[k1]);
            } else {
                assert(s[k2] == d[k2]);
            }
        }
    }
}

/// Adds the amount of `id` in `m` to the running sum `acc`.
pub open spec fn add_amount(m: Map<AccountId, i128>) -> spec_fn(int, AccountId) -> int {
    |acc: int, id: AccountId| acc + m[id]
}

/// The sum of the amounts of all accounts of `m`.
pub open spec fn balance_sum(m: Map<AccountId, i128>) -> int {
    m.dom().fold(0int, add_amount(m))
}

proof fn lemma_add_amount_commutative(m: Map<AccountId, i128>)
    ensures
        is_fun_commutative(add_amount(m)),
{
}

/// Summing over a finite set of accounts only looks at the amounts of those
/// accounts.
proof fn lemma_fold_congruent(set: Set<AccountId>, m1: Map<AccountId, i128>, m2: Map<AccountId, i128>)
    requires
        set.finite(),
        forall|x: AccountId| set.contains(x) ==> m1[x] == m2[x],
    ensures
        set.fold(0int, add_amount(m1)) == set.fold(0int, add_amount(m2)),
    decreases set.len(),
{
    lemma_add_amount_commutative(m1);
    lemma_add_amount_commutative(m2);
    if set.len() == 0 {
        assert(set =~= Set::<AccountId>::empty());
        lemma_fold_empty(0int, add_amount(m1));
        lemma_fold_empty(0int, add_amount(m2));
    } else {
        let x = set.choose();
        assert(set.contains(x));
        let rest = set.remove(x);
        assert(rest.insert(x) =~= set);
        lemma_fold_congruent(rest, m1, m2);
        lemma_fold_insert(rest, 0int, add_amount(m1), x);
        lemma_fold_insert(rest, 0int, add_amount(m2), x);
    }
}

/// The map of a list of entries grows by its last entry, which adds a new
/// account; its domain is finite.
proof fn lemma_entries_map_push(s: Seq<(AccountId, i128)>)
    requires
        unique_accounts(s),
    ensures
        entries_map(s).dom().finite(),
        s.len() > 0 ==> !entries_map(s.drop_last()).dom().contains(s.last().0),
        s.len() > 0 ==> entries_map(s) == entries_map(s.drop_last()).insert(s.last().0, s.last().1),
    decreases s.len(),
{
    if s.len() == 0 {
        assert(entries_map(s).dom() =~= Set::<AccountId>::empty());
    } else {
        let d = s.drop_last();
        let k = s.last().0;
        assert(unique_accounts(d));
        lemma_entries_map_push(d);
        if has_account(d, k) {
            let i = choose|i: int| 0 <= i < d.len() && d[i].0 == k;
            assert(s[i].0 == s[s.len() - 1].0);
        }
        assert forall|x: AccountId| #[trigger] has_account(s, x) == (has_account(d, x) || x == k) by {
            if has_account(s, x) && x != k {
                let i = choose|i: int| 0 <= i < s.len() && s[i].0 == x;
                assert(d[i].0 == x);
            }
            if has_account(d, x) {
                let i = choose|i: int| 0 <= i < d.len() && d[i].0 == x;
                assert(s[i].0 == x);
            }
            if x == k {
                assert(s[s.len() - 1].0 == x);
            }
        }
        lemma_lookup(s, s.len() - 1);
        assert forall|x: AccountId| entries_map(s).dom().contains(x) && x != k implies entries_map(s)[x]
            == entries_map(d)[x] by {
            let i = choose|i: int| 0 <= i < d.len() && d[i].0 == x;
            lemma_lookup(d, i);
            assert(s[i] == d[i]);
            lemma_lookup(s, i);
        }
        assert(entries_map(s) =~= entries_map(d).insert(k, s.last().1));
        assert(entries_map(s).dom() =~= entries_map(d).dom().insert(k));
    }
}

/// The sum of the entries is the sum of the balances they describe.
proof fn lemma_sum_is_balance_sum(s: Seq<(AccountId, i128)>)
    requires
        unique_accounts(s),
    ensures
        entries_sum(s) == balance_sum(entries_map(s)),
    decreases s.len(),
{
    lemma_entries_map_push(s);
    lemma_add_amount_commutative(entries_map(s));
    if s.len() == 0 {
        assert(entries_map(s).dom() =~= Set::<AccountId>::empty());
        lemma_fold_empty(0int, add_amount(entries_map(s)));
    } else {
        let d = s.drop_last();
        let k = s.last().0;
        assert(unique_accounts(d));
        lemma_sum_is_balance_sum(d);
        lemma_entries_map_push(d);
        let md = entries_map(d);
        let ms = entries_map(s);
        assert(ms.dom() =~= md.dom().insert(k));
        lemma_fold_insert(md.dom(), 0int, add_amount(ms), k);
        lemma_fold_congruent(md.dom(), ms, md);
    }
}

impl View for BalanceTable {
    type V = Map<AccountId, i128>;

    closed spec fn view(&self) -> Map<AccountId, i128> {
        entries_map(self.entries@)
    }
}

impl BalanceTable {
    /// No account has two entries.
    #[verifier::type_invariant]
    pub closed spec fn wf(self) -> bool {
        unique_accounts(self.entries@)
    }

    /// The amount held by `id` (nothing when it has no entry).
    pub open spec fn amount_of(self, id: AccountId) -> i128 {
        if self@.dom().contains(id) {
            self@[id]
        } else {
            0
        }
    }

    /// The sum of the amounts of all accounts.
    pub open spec fn total(self) -> int {
        balance_sum(self@)
    }

    pub fn new() -> (t: BalanceTable)
        ensures
            t@ == Map::<AccountId, i128>::empty(),
            t.total() == 0,
    {
        let t = BalanceTable { entries: Vec::new() };
        assert(t@ =~= Map::<AccountId, i128>::empty());
        proof {
            lemma_sum_is_balance_sum(t.entries@);
        }
        t
    }

    fn position(&self, id: AccountId) -> (r: Option<usize>)
        ensures
            match r {
                Some(i) => i < self.entries@.len() && self.entries@[i as int].0 == id,
                None => !has_account(self.entries@, id),
            },
    {
        let n = self.entries.len();
        let mut i: usize = 0;
        while i < n
            invariant
                n == self.entries@.len(),
                i <= n,
                forall|j: int| 0 <= j < i ==> self.entries@[j].0 != id,
            decreases n - i,
        {
            if self.entries[i].0 == id {
                return Some(i);
            }
            i = i + 1;
        }
        None
    }

    /// The amount held by `id`.
    pub fn get(&self, id: AccountId) -> (r: i128)
        ensures
            r == self.amount_of(id),
    {
        proof {
            use_type_invariant(self);
        }
        match self.position(id) {
            Some(i) => {
                proof {
                    lemma_lookup(self.entries@, i as int);
                }
                self.entries[i].1
            },
            None => 0,
        }
    }

    /// Records `amount` as the amount held by `id`.
    pub fn set(&mut self, id: AccountId, amount: i128)
        ensures
            final(self)@ == old(self)@.insert(id, amount),
            final(self).total() == old(self).total() - old(self).amount_of(id) + amount,
    {
        proof {
            use_type_invariant(&*self);
        }
        let ghost s = self.entries@;
        let pos = self.position(id);
        let mut entries: Vec<(AccountId, i128)> = Vec::new();
        std::mem::swap(&mut entries, &mut self.entries);
        match pos {
            Some(k) => {
                entries.set(k, (id, amount));
                let ghost t = entries@;
                proof {
                    assert(t == s.update(k as int, (id, amount)));
                    lemma_lookup(s, k as int);
                    lemma_sum_update(s, k as int, (id, amount));
                    assert forall|x: AccountId| #[trigger] has_account(t, x) == has_account(s, x) by {
                        if has_account(s, x) {
                            let i = choose|i: int| 0 <= i < s.len() && s[i].0 == x;
                            assert(t[i].0 == x);
                        }
                        if has_account(t, x) {
                            let i = choose|i: int| 0 <= i < t.len() && t[i].0 == x;
                            assert(s[i].0 == x);
                        }
                    }
                    assert(unique_accounts(t));
                    lemma_lookup(t, k as int);
                    assert forall|x: AccountId| entries_map(t).dom().contains(x) && x != id implies
                        entries_map(t)[x] == entries_map(s)[x] by {
                        let i = choose|i: int| 0 <= i < s.len() && s[i].0 == x;
                        lemma_lookup(s, i);
                        lemma_lookup(t, i);
                    }
                    assert(entries_map(t) =~= entries_map(s).insert(id, amount));
                }
            },
            None => {
                entries.push((id, amount));
                let ghost t = entries@;
                proof {
                    assert(t == s.push((id, amount)));
                    lemma_sum_push(s, (id, amount));
                    assert(unique_accounts(t));
                    assert forall|x: AccountId| #[trigger] has_account(t, x) == (has_account(s, x) || x == id) by {
                        if has_account(s, x) {
                            let i = choose|i: int| 0 <= i < s.len() && s[i].0 == x;
                            assert(t[i].0 == x);
                        }
                        if x == id {
                            assert(t[s.len() as int].0 == x);
                        }
                        if has_account(t, x) && x != id {
                            let i = choose|i: int| 0 <= i < t.len() && t[i].0 == x;
                            assert(s[i].0 == x);
                        }
                    }
                    lemma_lookup(t, s.len() as int);
                    assert forall|x: AccountId| entries_map(t).dom().contains(x) && x != id implies
                        entries_map(t)[x] == entries_map(s)[x] by {
                        let i = choose|i: int| 0 <= i < s.len() && s[i].0 == x;
                        lemma_lookup(s, i);
                        lemma_lookup(t, i);
                    }
                    assert(entries_map(t) =~= entries_map(s).insert(id, amount));
                }
            },
        }
        proof {
            lemma_sum_is_balance_sum(s);
            lemma_sum_is_balance_sum(entries@);
        }
        self.entries = entries;
    }

    /// When no account holds a negative amount, the total bounds every amount
    /// and every pair of amounts held by two distinct accounts.
    pub proof fn lemma_nonneg_bounds(self)
        requires
            self.wf(),
            forall|id: AccountId| self.amount_of(id) >= 0,
        ensures
            self.total() >= 0,
            forall|a: AccountId| self.amount_of(a) <= self.total(),
            forall|a: AccountId, b: AccountId| a != b ==> self.amount_of(a) + self.amount_of(b)
                <= self.total(),
    {
        let s = self.entries@;
        lemma_sum_is_balance_sum(s);
        assert forall|i: int| 0 <= i < s.len() implies s[i].1 >= 0 by {
            lemma_lookup(s, i);
            assert(self.amount_of(s[i].0) >= 0);
        }
        lemma_sum_bounds(s);
        assert forall|a: AccountId| self.amount_of(a) <= self.total() by {
            if self@.dom().contains(a) {
                let i = choose|i: int| 0 <= i < s.len() && s[i].0 == a;
                lemma_lookup(s, i);
            }
        }
        assert forall|a: AccountId, b: AccountId| a != b implies self.amount_of(a) + self.amount_of(
            b,
        ) <= self.total() by {
            if self@.dom().contains(a) {
                let i = choose|i: int| 0 <= i < s.len() && s[i].0 == a;
                lemma_lookup(s, i);
                if self@.dom().contains(b) {
                    let j = choose|j: int| 0 <= j < s.len() && s[j].0 == b;
                    lemma_lookup(s, j);
                }
            } else if self@.dom().contains(b) {
                let j = choose|j: int| 0 <= j < s.len() && s[j].0 == b;
                lemma_lookup(s, j);
            }
        }
    }
}

} // verus!
