use vstd::prelude::*;

use crate::boost::Boost;
use crate::context::AccountId;

verus! {

/// The stored boost lists, one entry per player whose list has been written.
/// A player without an entry holds no boosts.
pub struct BoostBook {
    entries: Vec<(AccountId, Vec<Boost>)>,
}

/// `p` has an entry in `s`.
pub open spec fn has_player(s: Seq<(AccountId, Vec<Boost>)>, p: AccountId) -> bool {
    exists|i: int| 0 <= i < s.len() && s[i].0 == p
}

/// No player has two entries in `s`.
pub open spec fn unique_players(s: Seq<(AccountId, Vec<Boost>)>) -> bool {
    forall|i: int, j: int| 0 <= i < s.len() && 0 <= j < s.len() && i != j ==> s[i].0 != s[j].0
}

/// The player-to-boost-list map that the entries of `s` describe.
pub open spec fn players_map(s: Seq<(AccountId, Vec<Boost>)>) -> Map<AccountId, Seq<Boost>> {
    Map::new(
        |p: AccountId| has_player(s, p),
        |p: AccountId| s[choose|i: int| 0 <= i < s.len() && s[i].0 == p].1@,
    )
}

proof fn lemma_player_lookup(s: Seq<(AccountId, Vec<Boost>)>, k: int)
    requires
        unique_players(s),
        0 <= k < s.len(),
    ensures
        players_map(s).dom().contains(s[k].0),
        players_map(s)[s[k].0] == s[k].1@,
{
    let p = s[k].0;
    assert(has_player(s, p));
    let i = choose|i: int| 0 <= i < s.len() && s[i].0 == p;
    assert(i == k);
}

/// A copy of `v`.
pub fn copy_boosts(v: &Vec<Boost>) -> (r: Vec<Boost>)
    ensures
        r@ == v@,
{
    let mut r: Vec<Boost> = Vec::new();
    let n = v.len();
    let mut i: usize = 0;
    while i < n
        invariant
            n == v@.len(),
            i <= n,
            r@ == v@.take(i as int),
        decreases n - i,
    {
        r.push(v[i]);
        proof {
            assert(v@.take(i + 1) =~= v@.take(i as int).push(v@[i as int]));
        }
        i = i + 1;
    }
    assert(v@.take(n as int) =~= v@);
    r
}

impl View for BoostBook {
    type V = Map<AccountId, Seq<Boost>>;

    closed spec fn view(&self) -> Map<AccountId, Seq<Boost>> {
        players_map(self.entries@)
    }
}

impl BoostBook {
    /// No player has two entries.
    #[verifier::type_invariant]
    pub closed spec fn wf(self) -> bool {
        unique_players(self.entries@)
    }

    /// The boosts stored for `p` (none when it has no entry).
    pub open spec fn boosts_of(self, p: AccountId) -> Seq<Boost> {
        if self@.dom().contains(p) {
            self@[p]
        } else {
            Seq::empty()
        }
    }

    pub fn new() -> (b: BoostBook)
        ensures
            b@ == Map::<AccountId, Seq<Boost>>::empty(),
    {
        let b = BoostBook { entries: Vec::new() };
        assert(b@ =~= Map::<AccountId, Seq<Boost>>::empty());
        b
    }

    fn position(&self, p: AccountId) -> (r: Option<usize>)
        ensures
            match r {
                Some(i) => i < self.entries@.len() && self.entries@[i as int].0 == p,
                None => !has_player(self.entries@, p),
            },
    {
        let n = self.entries.len();
        let mut i: usize = 0;
        while i < n
            invariant
                n == self.entries@.len(),
                i <= n,
                forall|j: int| 0 <= j < i ==> self.entries@[j].0 != p,
            decreases n - i,
        {
            if self.entries[i].0 == p {
                return Some(i);
            }
            i = i + 1;
        }
        None
    }

    /// A copy of the boosts stored for `p`.
    pub fn get(&self, p: AccountId) -> (r: Vec<Boost>)
        ensures
            r@ == self.boosts_of(p),
    {
        proof {
            use_type_invariant(self);
        }
        match self.position(p) {
            Some(i) => {
                proof {
                    lemma_player_lookup(self.entries@, i as int);
                }
                copy_boosts(&self.entries[i].1)
            },
            None => Vec::new(),
        }
    }

    /// Stores `boosts` as the list of `p`.
    pub fn set(&mut self, p: AccountId, boosts: Vec<Boost>)
        ensures
            final(self)@ == old(self)@.insert(p, boosts@),
    {
        proof {
            use_type_invariant(&*self);
        }
        let ghost s = self.entries@;
        let ghost v = boosts@;
        let pos = self.position(p);
        let mut entries: Vec<(AccountId, Vec<Boost>)> = Vec::new();
        std::mem::swap(&mut entries, &mut self.entries);
        match pos {
            Some(k) => {
                entries.set(k, (p, boosts));
                let ghost t = entries@;
                proof {
                    assert(t == s.update(k as int, t[k as int]));
                    assert forall|x: AccountId| #[trigger] has_player(t, x) == has_player(s, x) by {
                        if has_player(s, x) {
                            let i = choose|i: int| 0 <= i < s.len() && s[i].0 == x;
                            assert(t[i].0 == x);
                        }
                        if has_player(t, x) {
                            let i = choose|i: int| 0 <= i < t.len() && t[i].0 == x;
                            assert(s[i].0 == x);
                        }
                    }
                    assert(unique_players(t));
                    lemma_player_lookup(t, k as int);
                    assert forall|x: AccountId| players_map(t).dom().contains(x) && x != p implies
                        players_map(t)[x] == players_map(s)[x] by {
                        let i = choose|i: int| 0 <= i < s.len() && s[i].0 == x;
                        lemma_player_lookup(s, i);
                        lemma_player_lookup(t, i);
                    }
                    assert(players_map(t) =~= players_map(s).insert(p, v));
                }
            },
            None => {
                entries.push((p, boosts));
                let ghost t = entries@;
                proof {
                    assert(t == s.push(t[s.len() as int]));
                    assert(unique_players(t));
                    assert forall|x: AccountId| #[trigger] has_player(t, x) == (has_player(s, x) || x == p) by {
                        if has_player(s, x) {
                            let i = choose|i: int| 0 <= i < s.len() && s[i].0 == x;
                            assert(t[i].0 == x);
                        }
                        if x == p {
                            assert(t[s.len() as int].0 == x);
                        }
                        if has_player(t, x) && x != p {
                            let i = choose|i: int| 0 <= i < t.len() && t[i].0 == x;
                            assert(s[i].0 == x);
                        }
                    }
                    lemma_player_lookup(t, s.len() as int);
                    assert forall|x: AccountId| players_map(t).dom().contains(x) && x != p implies
                        players_map(t)[x] == players_map(s)[x] by {
                        let i = choose|i: int| 0 <= i < s.len() && s[i].0 == x;
                        lemma_player_lookup(s, i);
                        lemma_player_lookup(t, i);
                    }
                    assert(players_map(t) =~= players_map(s).insert(p, v));
                }
            },
        }
        self.entries = entries;
    }
}

} // verus!
