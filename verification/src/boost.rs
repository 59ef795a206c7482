use vstd::prelude::*;

use crate::boost_book::BoostBook;
use crate::context::{AccountId, CallContext};

verus! {

/// Maximum number of boosts a single player may hold simultaneously.
pub const MAX_BOOSTS_PER_PLAYER: u32 = 10;

/// Why a boost operation was refused. The operation then changes nothing.
#[derive(Clone, Copy, Debug, PartialEq, Eq, Structural)]
pub enum BoostError {
    CapExceeded,
    DuplicateId,
    InvalidValue,
    InvalidExpiry,
    NotInitialized,
    AlreadyInitialized,
    Unauthorized,
}

/// The text with which the contract reports each refusal.
pub open spec fn boost_error_text(e: BoostError) -> &'static str {
    match e {
        BoostError::CapExceeded => "CapExceeded",
        BoostError::DuplicateId => "DuplicateId",
        BoostError::InvalidValue => "InvalidValue",
        BoostError::InvalidExpiry => "InvalidExpiry",
        BoostError::NotInitialized => "NotInitialized",
        BoostError::AlreadyInitialized => "AlreadyInitialized",
        BoostError::Unauthorized => "Unauthorized",
    }
}

impl BoostError {
    pub fn message(&self) -> (m: &'static str)
        ensures
            m == boost_error_text(*self),
    {
        match self {
            BoostError::CapExceeded => "CapExceeded",
            BoostError::DuplicateId => "DuplicateId",
            BoostError::InvalidValue => "InvalidValue",
            BoostError::InvalidExpiry => "InvalidExpiry",
            BoostError::NotInitialized => "NotInitialized",
            BoostError::AlreadyInitialized => "AlreadyInitialized",
            BoostError::Unauthorized => "Unauthorized",
        }
    }
}

/// How a boost combines with the others.
#[derive(Clone, Copy, Debug, PartialEq, Eq, Structural)]
pub enum BoostType {
    /// Scales the running multiplier (1.5x then 1.2x gives 1.8x).
    Multiplicative,
    /// Adds to the bonus percentage (+10% and +5% give +15%).
    Additive,
    /// Replaces everything; among several, the highest priority wins.
    Override,
}

/// A boost held by a player.
#[derive(Clone, Copy, Debug, PartialEq, Eq, Structural)]
pub struct Boost {
    pub id: u128,
    pub boost_type: BoostType,
    /// Magnitude in basis points (10 000 = 100 %).
    pub value: u32,
    /// Higher priority wins when two Override boosts compete.
    pub priority: u32,
    /// Ledger sequence number at which this boost expires; `0` never expires.
    pub expires_at_ledger: u32,
}

/// A boost counts at ledger `sequence` unless it has an expiry that has been
/// reached.
pub open spec fn is_active(b: Boost, sequence: u32) -> bool {
    b.expires_at_ledger == 0 || b.expires_at_ledger > sequence
}

/// The boosts of `s` that count at ledger `sequence`, in order.
pub open spec fn active_boosts(s: Seq<Boost>, sequence: u32) -> Seq<Boost> {
    s.filter(|b: Boost| is_active(b, sequence))
}

/// The boosts of `s` that no longer count at ledger `sequence`, in order.
pub open spec fn expired_boosts(s: Seq<Boost>, sequence: u32) -> Seq<Boost> {
    s.filter(|b: Boost| !is_active(b, sequence))
}

/// The running multiplier in basis points: starting from 10 000, each
/// multiplicative boost in turn scales it by its value / 10 000, rounding down
/// and keeping the low 32 bits.
pub open spec fn multiplicative_chain(s: Seq<Boost>) -> u32
    decreases s.len(),
{
    if s.len() == 0 {
        10000
    } else {
        let m = multiplicative_chain(s.drop_last());
        let b = s.last();
        if b.boost_type == BoostType::Multiplicative {
            ((m as int * b.value as int) / 10000) as u32
        } else {
            m
        }
    }
}

/// The additive bonus in basis points: the values of the additive boosts
/// added up in a 32-bit register (wrapping around on overflow).
pub open spec fn additive_total(s: Seq<Boost>) -> u32
    decreases s.len(),
{
    if s.len() == 0 {
        0
    } else {
        let a = additive_total(s.drop_last());
        let b = s.last();
        if b.boost_type == BoostType::Additive {
            ((a as int + b.value as int) % 0x1_0000_0000) as u32
        } else {
            a
        }
    }
}

/// The sum of the values of the additive boosts of `s`.
pub open spec fn additive_sum(s: Seq<Boost>) -> int
    decreases s.len(),
{
    if s.len() == 0 {
        0
    } else {
        additive_sum(s.drop_last()) + if s.last().boost_type == BoostType::Additive {
            s.last().value as int
        } else {
            0
        }
    }
}

/// The override that applies: the first override boost of highest priority.
pub open spec fn override_winner(s: Seq<Boost>) -> Option<Boost>
    decreases s.len(),
{
    if s.len() == 0 {
        None
    } else {
        let w = override_winner(s.drop_last());
        let b = s.last();
        if b.boost_type == BoostType::Override {
            match w {
                Some(c) => if b.priority > c.priority {
                    Some(b)
                } else {
                    w
                },
                None => Some(b),
            }
        } else {
            w
        }
    }
}

/// The combined multiplier of `s` in basis points (10 000 = 100 %): 10 000
/// without boosts; the winning override's value when there is an override;
/// otherwise the multiplicative chain times (10 000 + additive bonus) / 10 000,
/// the product kept to 64 bits and the result to 32 bits.
pub open spec fn stacked_total(s: Seq<Boost>) -> u32 {
    if s.len() == 0 {
        10000
    } else {
        match override_winner(s) {
            Some(b) => b.value,
            None => ((((multiplicative_chain(s) as int) * (10000 + additive_total(s) as int))
                % 0x1_0000_0000_0000_0000) / 10000) as u32,
        }
    }
}



/// Emitted when a boost is added to a player.
#[derive(Clone, Copy, Debug, PartialEq, Eq, Structural)]
pub struct BoostActivatedEvent {
    pub player: AccountId,
    pub boost_id: u128,
    pub boost_type: BoostType,
    pub value: u32,
    pub expires_at_ledger: u32,
}

/// Emitted for each expired boost pruned from a player's list (the id is
/// reported in its low 32 bits).
#[derive(Clone, Copy, Debug, PartialEq, Eq, Structural)]
pub struct BoostExpiredEvent {
    pub player: AccountId,
    pub boost_id: u32,
}

/// Emitted when all boosts of a player are cleared.
#[derive(Clone, Copy, Debug, PartialEq, Eq, Structural)]
pub struct BoostsClearedEvent {
    pub player: AccountId,
    pub count: u32,
}

/// Emitted when the administrator grants a boost to a player.
#[derive(Clone, Copy, Debug, PartialEq, Eq, Structural)]
pub struct AdminBoostGrantedEvent {
    pub player: AccountId,
    pub boost_id: u128,
    pub boost_type: BoostType,
    pub value: u32,
    pub expires_at_ledger: u32,
}

/// Emitted when the administrator revokes a boost of a player.
#[derive(Clone, Copy, Debug, PartialEq, Eq, Structural)]
pub struct AdminBoostRevokedEvent {
    pub player: AccountId,
    pub boost_id: u128,
}

/// Emitted when a deprecated entry point is called: a code for the function,
/// the caller, and a code for its replacement.
#[derive(Clone, Copy, Debug, PartialEq, Eq, Structural)]
pub struct DeprecatedFunctionCalledEvent {
    pub function_name: u32,
    pub caller: AccountId,
    pub replacement_hint: u32,
}

/// Any event of the boost system.
#[derive(Clone, Copy, Debug, PartialEq, Eq, Structural)]
pub enum BoostEvent {
    Activated(BoostActivatedEvent),
    Expired(BoostExpiredEvent),
    Cleared(BoostsClearedEvent),
    AdminGranted(AdminBoostGrantedEvent),
    AdminRevoked(AdminBoostRevokedEvent),
    DeprecatedCall(DeprecatedFunctionCalledEvent),
}

/// The event reporting that `b` expired from `player`'s list.
pub open spec fn expiry_event(player: AccountId, b: Boost) -> BoostEvent {
    BoostEvent::Expired(BoostExpiredEvent { player, boost_id: b.id as u32 })
}

/// The events of pruning `s` at ledger `sequence`: one per expired boost, in
/// order.
pub open spec fn expiry_events(s: Seq<Boost>, player: AccountId, sequence: u32) -> Seq<BoostEvent> {
    expired_boosts(s, sequence).map_values(|b: Boost| expiry_event(player, b))
}

/// Some boost of `s` has id `id`.
pub open spec fn has_id(s: Seq<Boost>, id: u128) -> bool {
    exists|i: int| 0 <= i < s.len() && s[i].id == id
}

/// No two boosts of `s` share an id.
pub open spec fn unique_ids(s: Seq<Boost>) -> bool {
    forall|i: int, j: int| 0 <= i < s.len() && 0 <= j < s.len() && i != j ==> s[i].id != s[j].id
}

/// `s` without its boosts of id `id`, in order.
pub open spec fn without_id(s: Seq<Boost>, id: u128) -> Seq<Boost> {
    s.filter(|b: Boost| b.id != id)
}

/// Keeping some of the boosts of a list keeps their ids distinct and does not
/// lengthen it.
pub proof fn lemma_filter_keeps_ids_unique(s: Seq<Boost>, pred: spec_fn(Boost) -> bool)
    requires
        unique_ids(s),
    ensures
        unique_ids(s.filter(pred)),
        s.filter(pred).len() <= s.len(),
        forall|i: int| 0 <= i < s.filter(pred).len() ==> s.contains(#[trigger] s.filter(pred)[i]),
    decreases s.len(),
{
    reveal_with_fuel(Seq::<_>::filter, 1);
    if s.len() > 0 {
        let d = s.drop_last();
        assert forall|i: int, j: int| 0 <= i < d.len() && 0 <= j < d.len() && i != j implies d[i].id
            != d[j].id by {
            assert(d[i] == s[i] && d[j] == s[j]);
        }
        lemma_filter_keeps_ids_unique(d, pred);
        let f = d.filter(pred);
        assert forall|i: int| 0 <= i < f.len() implies f[i].id != s.last().id by {
            assert(d.contains(f[i]));
            let k = choose|k: int| 0 <= k < d.len() && d[k] == f[i];
            assert(s[k] == d[k]);
        }
        assert forall|i: int| 0 <= i < f.len() implies s.contains(#[trigger] f[i]) by {
            assert(d.contains(f[i]));
            let k = choose|k: int| 0 <= k < d.len() && d[k] == f[i];
            assert(s[k] == f[i]);
        }
        if pred(s.last()) {
            assert(s.contains(s.last()));
        }
    }
}

/// Whether some boost of `boosts` has id `id`.
fn contains_id(boosts: &Vec<Boost>, id: u128) -> (r: bool)
    ensures
        r == has_id(boosts@, id),
{
    let n = boosts.len();
    let mut i: usize = 0;
    while i < n
        invariant
            n == boosts@.len(),
            i <= n,
            forall|j: int| 0 <= j < i ==> boosts@[j].id != id,
        decreases n - i,
    {
        if boosts[i].id == id {
            return true;
        }
        i = i + 1;
    }
    false
}


/// The boosts of `boosts` that are active at the current ledger.
fn active_only(ctx: &CallContext, boosts: &Vec<Boost>) -> (r: Vec<Boost>)
    ensures
        r@ == active_boosts(boosts@, ctx.sequence),
{
    let current = ctx.sequence();
    let mut active: Vec<Boost> = Vec::new();
    let n = boosts.len();
    let mut i: usize = 0;
    while i < n
        invariant
            n == boosts@.len(),
            i <= n,
            current == ctx.sequence,
            active@ == active_boosts(boosts@.take(i as int), current),
        decreases n - i,
    {
        let b = boosts[i];
        proof {
            assert(boosts@.take(i + 1).drop_last() =~= boosts@.take(i as int));
            assert(boosts@.take(i + 1).last() == b);
            reveal_with_fuel(Seq::<_>::filter, 1);
        }
        if b.expires_at_ledger == 0 || b.expires_at_ledger > current {
            active.push(b);
        }
        i = i + 1;
    }
    assert(boosts@.take(n as int) =~= boosts@);
    active
}

/// `boosts` without its boosts of id `id`, and whether there was one.
fn remove_id(boosts: &Vec<Boost>, id: u128) -> (r: (Vec<Boost>, bool))
    ensures
        r.0@ == without_id(boosts@, id),
        r.1 == has_id(boosts@, id),
{
    let mut kept: Vec<Boost> = Vec::new();
    let mut found = false;
    let n = boosts.len();
    let mut i: usize = 0;
    while i < n
        invariant
            n == boosts@.len(),
            i <= n,
            kept@ == without_id(boosts@.take(i as int), id),
            found == has_id(boosts@.take(i as int), id),
        decreases n - i,
    {
        let b = boosts[i];
        proof {
            let t = boosts@.take(i + 1);
            assert(t.drop_last() =~= boosts@.take(i as int));
            assert(t.last() == b);
            reveal_with_fuel(Seq::<_>::filter, 1);
            if has_id(boosts@.take(i as int), id) {
                let k = choose|k: int| 0 <= k < i && boosts@.take(i as int)[k].id == id;
                assert(t[k].id == id);
            }
            if has_id(t, id) && b.id != id {
                let k = choose|k: int| 0 <= k < i + 1 && t[k].id == id;
                assert(boosts@.take(i as int)[k].id == id);
            }
        }
        if b.id == id {
            found = true;
        } else {
            kept.push(b);
        }
        i = i + 1;
    }
    assert(boosts@.take(n as int) =~= boosts@);
    (kept, found)
}


/// The abstract state of the boost system: the administrator (present once
/// initialized) and the stored boost list of each player.
pub struct BoostState {
    pub admin: Option<AccountId>,
    pub boosts: Map<AccountId, Seq<Boost>>,
}

impl BoostState {
    /// The boosts stored for `p` (none when nothing is stored).
    pub open spec fn boosts_of(self, p: AccountId) -> Seq<Boost> {
        if self.boosts.dom().contains(p) {
            self.boosts[p]
        } else {
            Seq::empty()
        }
    }

    pub open spec fn with_boosts(self, p: AccountId, list: Seq<Boost>) -> BoostState {
        BoostState { boosts: self.boosts.insert(p, list), ..self }
    }
}

/// Why an administrator-only operation would refuse, if it would.
pub open spec fn admin_check(s: BoostState, ctx: CallContext) -> Option<BoostError> {
    match s.admin {
        None => Some(BoostError::NotInitialized),
        Some(a) => if !ctx.authorizes(a) {
            Some(BoostError::Unauthorized)
        } else {
            None
        },
    }
}

/// Why adding `boost` to `player`'s list at ledger `sequence` would refuse,
/// if it would. The cap and the duplicate check look at the active boosts
/// only.
pub open spec fn placement_refusal(s: BoostState, sequence: u32, player: AccountId, boost: Boost) -> Option<
    BoostError,
> {
    let active = active_boosts(s.boosts_of(player), sequence);
    if boost.value == 0 {
        Some(BoostError::InvalidValue)
    } else if boost.expires_at_ledger != 0 && boost.expires_at_ledger <= sequence {
        Some(BoostError::InvalidExpiry)
    } else if active.len() >= MAX_BOOSTS_PER_PLAYER {
        Some(BoostError::CapExceeded)
    } else if has_id(active, boost.id) {
        Some(BoostError::DuplicateId)
    } else {
        None
    }
}

/// Why a player's own operation on their list would refuse before looking
/// at its other arguments, if it would: the system must be initialized and
/// the player must authorize the call.
pub open spec fn player_check(s: BoostState, ctx: CallContext, player: AccountId) -> Option<
    BoostError,
> {
    if s.admin is None {
        Some(BoostError::NotInitialized)
    } else if !ctx.authorizes(player) {
        Some(BoostError::Unauthorized)
    } else {
        None
    }
}

/// Why `add_boost` would refuse, if it would.
pub open spec fn self_add_refusal(s: BoostState, ctx: CallContext, player: AccountId, boost: Boost) -> Option<
    BoostError,
> {
    if player_check(s, ctx, player) is Some {
        player_check(s, ctx, player)
    } else {
        placement_refusal(s, ctx.sequence, player, boost)
    }
}

/// Why `admin_grant_boost` would refuse, if it would.
pub open spec fn grant_refusal(s: BoostState, ctx: CallContext, player: AccountId, boost: Boost) -> Option<
    BoostError,
> {
    if admin_check(s, ctx) is Some {
        admin_check(s, ctx)
    } else {
        placement_refusal(s, ctx.sequence, player, boost)
    }
}

/// The state after `boost` is added to `player`'s list at ledger `sequence`:
/// the expired boosts are dropped and `boost` goes last.
pub open spec fn placed(s: BoostState, sequence: u32, player: AccountId, boost: Boost) -> BoostState {
    s.with_boosts(player, active_boosts(s.boosts_of(player), sequence).push(boost))
}

/// The boost system: an administrator and the boosts of each player.
pub struct TycoonBoostSystem {
    admin: Option<AccountId>,
    book: BoostBook,
}

impl View for TycoonBoostSystem {
    type V = BoostState;

    closed spec fn view(&self) -> BoostState {
        BoostState { admin: self.admin, boosts: self.book@ }
    }
}

impl TycoonBoostSystem {

    /// Combines `boosts` by the stacking rules.
    pub fn apply_stacking_rules(boosts: &Vec<Boost>) -> (r: u32)
        ensures
            r == stacked_total(boosts@),
    {
        if boosts.len() == 0 {
            return 10000;
        }
        let mut multiplicative: u32 = 10000;
        let mut additive: u32 = 0;
        let mut winner: Option<Boost> = None;
        let n = boosts.len();
        let mut i: usize = 0;
        while i < n
            invariant
                n == boosts@.len(),
                i <= n,
                multiplicative == multiplicative_chain(boosts@.take(i as int)),
                additive == additive_total(boosts@.take(i as int)),
                winner == override_winner(boosts@.take(i as int)),
            decreases n - i,
        {
            let b = boosts[i];
            proof {
                assert(boosts@.take(i + 1).drop_last() =~= boosts@.take(i as int));
                assert(boosts@.take(i + 1).last() == b);
            }
            match b.boost_type {
                BoostType::Multiplicative => {
                    let m64 = multiplicative as u64;
                    let v64 = b.value as u64;
                    assert(m64 * v64 <= 0xFFFF_FFFFu64 * 0xFFFF_FFFFu64) by (nonlinear_arith)
                        requires
                            m64 <= 0xFFFF_FFFFu64,
                            v64 <= 0xFFFF_FFFFu64,
                    ;
                    multiplicative = #[verifier::truncate] ((m64 * v64 / 10000) as u32);
                },
                BoostType::Additive => {
                    additive = (((additive as u64) + (b.value as u64)) % 0x1_0000_0000) as u32;
                },
                BoostType::Override => {
                    match winner {
                        Some(c) => {
                            if b.priority > c.priority {
                                winner = Some(b);
                            }
                        },
                        None => {
                            winner = Some(b);
                        },
                    }
                },
            }
            i = i + 1;
        }
        assert(boosts@.take(n as int) =~= boosts@);
        match winner {
            Some(w) => w.value,
            None => {
                let m128 = multiplicative as u128;
                let factor = 10000u128 + additive as u128;
                assert(m128 * factor <= 0xFFFF_FFFFu128 * 0x1_0000_2710u128) by (nonlinear_arith)
                    requires
                        m128 <= 0xFFFF_FFFFu128,
                        factor <= 0x1_0000_2710u128,
                ;
                let product: u128 = m128 * factor;
                let wrapped: u64 = (product % 0x1_0000_0000_0000_0000u128) as u64;
                #[verifier::truncate] ((wrapped / 10000) as u32)
            },
        }
    }

    /// Splits `boosts` into the active ones and the events reporting the expired
    /// ones.
    fn prune_expired(ctx: &CallContext, boosts: &Vec<Boost>, player: AccountId) -> (r: (
        Vec<Boost>,
        Vec<BoostEvent>,
    ))
        ensures
            r.0@ == active_boosts(boosts@, ctx.sequence),
            r.1@ == expiry_events(boosts@, player, ctx.sequence),
    {
        let current = ctx.sequence();
        let mut active: Vec<Boost> = Vec::new();
        let mut events: Vec<BoostEvent> = Vec::new();
        let n = boosts.len();
        let mut i: usize = 0;
        while i < n
            invariant
                n == boosts@.len(),
                i <= n,
                current == ctx.sequence,
                active@ == active_boosts(boosts@.take(i as int), current),
                events@ == expiry_events(boosts@.take(i as int), player, current),
            decreases n - i,
        {
            let b = boosts[i];
            let ghost t = boosts@.take(i + 1);
            proof {
                assert(t.drop_last() =~= boosts@.take(i as int));
                assert(t.last() == b);
                reveal_with_fuel(Seq::<_>::filter, 1);
            }
            if b.expires_at_ledger != 0 && b.expires_at_ledger <= current {
                events.push(
                    BoostEvent::Expired(BoostExpiredEvent { player, boost_id: #[verifier::truncate] (b.id as u32) }),
                );
                proof {
                    assert(expired_boosts(t, current) == expired_boosts(boosts@.take(i as int), current).push(b));
                    assert(events@ =~= expiry_events(t, player, current));
                }
            } else {
                active.push(b);
            }
            i = i + 1;
        }
        assert(boosts@.take(n as int) =~= boosts@);
        (active, events)
    }
    /// Every stored list respects the cap and holds no id twice.
    pub open spec fn consistent(self) -> bool {
        forall|p: AccountId| #[trigger]
            self@.boosts.dom().contains(p) ==> self@.boosts[p].len() <= MAX_BOOSTS_PER_PLAYER
                && unique_ids(self@.boosts[p])
    }

    /// Fresh contract storage: nothing is stored yet.
    pub fn new() -> (b: TycoonBoostSystem)
        ensures
            b@ == (BoostState { admin: None, boosts: Map::empty() }),
            b.consistent(),
    {
        TycoonBoostSystem { admin: None, book: BoostBook::new() }
    }

    /// Contract storage holding the given administrator and no boost list
    /// yet; lists read from storage are added with `restore_boosts`.
    pub fn restore(admin: Option<AccountId>) -> (b: TycoonBoostSystem)
        ensures
            b@ == (BoostState { admin, boosts: Map::empty() }),
    {
        TycoonBoostSystem { admin, book: BoostBook::new() }
    }

    /// Records a boost list read from storage.
    pub fn restore_boosts(&mut self, player: AccountId, boosts: Vec<Boost>)
        ensures
            final(self)@ == old(self)@.with_boosts(player, boosts@),
    {
        self.book.set(player, boosts);
    }

    /// Sets the administrator (authorized by it). Allowed once.
    pub fn initialize(&mut self, ctx: &CallContext, admin: AccountId) -> (r: Result<(), BoostError>)
        ensures
            old(self)@.admin is Some ==> r == Err::<(), BoostError>(BoostError::AlreadyInitialized)
                && *final(self) == *old(self),
            old(self)@.admin is None && !ctx.authorizes(admin) ==> r == Err::<(), BoostError>(
                BoostError::Unauthorized,
            ) && *final(self) == *old(self),
            old(self)@.admin is None && ctx.authorizes(admin) ==> r == Ok::<(), BoostError>(())
                && final(self)@ == (BoostState { admin: Some(admin), ..old(self)@ }),
            old(self).consistent() ==> final(self).consistent(),
    {
        if self.admin.is_some() {
            return Err(BoostError::AlreadyInitialized);
        }
        if !ctx.is_authorized(admin) {
            return Err(BoostError::Unauthorized);
        }
        self.admin = Some(admin);
        Ok(())
    }

    fn require_admin(&self, ctx: &CallContext) -> (r: Result<(), BoostError>)
        ensures
            match admin_check(self@, *ctx) {
                Some(e) => r == Err::<(), BoostError>(e),
                None => r == Ok::<(), BoostError>(()),
            },
    {
        match self.admin {
            None => Err(BoostError::NotInitialized),
            Some(a) => {
                if !ctx.is_authorized(a) {
                    Err(BoostError::Unauthorized)
                } else {
                    Ok(())
                }
            },
        }
    }

    fn require_player(&self, ctx: &CallContext, player: AccountId) -> (r: Result<(), BoostError>)
        ensures
            match player_check(self@, *ctx, player) {
                Some(e) => r == Err::<(), BoostError>(e),
                None => r == Ok::<(), BoostError>(()),
            },
    {
        if self.admin.is_none() {
            return Err(BoostError::NotInitialized);
        }
        if !ctx.is_authorized(player) {
            return Err(BoostError::Unauthorized);
        }
        Ok(())
    }

    /// Adds `boost` to `player`'s list after dropping its expired boosts;
    /// returns the expiry events.
    fn place(&mut self, ctx: &CallContext, player: AccountId, boost: Boost) -> (r: Result<
        Vec<BoostEvent>,
        BoostError,
    >)
        ensures
            match placement_refusal(old(self)@, ctx.sequence, player, boost) {
                Some(e) => r == Err::<Vec<BoostEvent>, BoostError>(e) && *final(self) == *old(self),
                None => r matches Ok(v) && v@ == expiry_events(
                    old(self)@.boosts_of(player),
                    player,
                    ctx.sequence,
                ) && final(self)@ == placed(old(self)@, ctx.sequence, player, boost),
            },
            old(self).consistent() ==> final(self).consistent(),
    {
        if boost.value == 0 {
            return Err(BoostError::InvalidValue);
        }
        let current = ctx.sequence();
        if boost.expires_at_ledger != 0 && boost.expires_at_ledger <= current {
            return Err(BoostError::InvalidExpiry);
        }
        let stored = self.book.get(player);
        let (mut active, events) = Self::prune_expired(ctx, &stored, player);
        if active.len() >= MAX_BOOSTS_PER_PLAYER as usize {
            return Err(BoostError::CapExceeded);
        }
        if contains_id(&active, boost.id) {
            return Err(BoostError::DuplicateId);
        }
        proof {
            if old(self).consistent() {
                let old_list = old(self)@.boosts_of(player);
                if old(self)@.boosts.dom().contains(player) {
                    assert(unique_ids(old(self)@.boosts[player]));
                }
                lemma_filter_keeps_ids_unique(old_list, |b: Boost| is_active(b, ctx.sequence));
            }
        }
        active.push(boost);
        proof {
            if old(self).consistent() {
                let l = active@;
                assert forall|i: int, j: int| 0 <= i < l.len() && 0 <= j < l.len() && i != j implies l[i].id
                    != l[j].id by {
                    if i == l.len() - 1 {
                        assert(!has_id(active@.drop_last(), boost.id));
                        assert(active@.drop_last()[j] == l[j]);
                    } else if j == l.len() - 1 {
                        assert(!has_id(active@.drop_last(), boost.id));
                        assert(active@.drop_last()[i] == l[i]);
                    } else {
                        assert(active@.drop_last()[i] == l[i]);
                        assert(active@.drop_last()[j] == l[j]);
                    }
                }
            }
        }
        self.book.set(player, active);
        Ok(events)
    }

    /// Grants `boost` to `player` on their behalf (administrator only).
    /// Expired boosts of the player are dropped first; the cap and the
    /// duplicate check apply to the boosts that remain.
    pub fn admin_grant_boost(&mut self, ctx: &CallContext, player: AccountId, boost: Boost) -> (r:
        Result<Vec<BoostEvent>, BoostError>)
        ensures
            match grant_refusal(old(self)@, *ctx, player, boost) {
                Some(e) => r == Err::<Vec<BoostEvent>, BoostError>(e) && *final(self) == *old(self),
                None => r matches Ok(v) && v@ == expiry_events(
                    old(self)@.boosts_of(player),
                    player,
                    ctx.sequence,
                ).push(
                    BoostEvent::AdminGranted(
                        AdminBoostGrantedEvent {
                            player,
                            boost_id: boost.id,
                            boost_type: boost.boost_type,
                            value: boost.value,
                            expires_at_ledger: boost.expires_at_ledger,
                        },
                    ),
                ) && final(self)@ == placed(old(self)@, ctx.sequence, player, boost),
            },
            r is Ok ==> final(self)@.boosts_of(player) == active_boosts(
                old(self)@.boosts_of(player),
                ctx.sequence,
            ).push(boost),
            old(self).consistent() ==> final(self).consistent(),
    {
        match self.require_admin(ctx) {
            Ok(()) => {},
            Err(e) => {
                return Err(e);
            },
        }
        let mut events = match self.place(ctx, player, boost) {
            Ok(v) => v,
            Err(e) => {
                return Err(e);
            },
        };
        events.push(
            BoostEvent::AdminGranted(
                AdminBoostGrantedEvent {
                    player,
                    boost_id: boost.id,
                    boost_type: boost.boost_type,
                    value: boost.value,
                    expires_at_ledger: boost.expires_at_ledger,
                },
            ),
        );
        Ok(events)
    }

    /// Removes the boosts of id `boost_id` from `player`'s list
    /// (administrator only). Revoking an id the player does not hold
    /// succeeds and changes nothing.
    pub fn admin_revoke_boost(&mut self, ctx: &CallContext, player: AccountId, boost_id: u128) -> (r:
        Result<Option<AdminBoostRevokedEvent>, BoostError>)
        ensures
            match admin_check(old(self)@, *ctx) {
                Some(e) => r == Err::<Option<AdminBoostRevokedEvent>, BoostError>(e) && *final(self)
                    == *old(self),
                None => if has_id(old(self)@.boosts_of(player), boost_id) {
                    r == Ok::<Option<AdminBoostRevokedEvent>, BoostError>(
                        Some(AdminBoostRevokedEvent { player, boost_id }),
                    ) && final(self)@ == old(self)@.with_boosts(
                        player,
                        without_id(old(self)@.boosts_of(player), boost_id),
                    )
                } else {
                    r == Ok::<Option<AdminBoostRevokedEvent>, BoostError>(None) && *final(self)
                        == *old(self)
                },
            },
            r is Ok ==> forall|i: int|
                0 <= i < old(self)@.boosts_of(player).len() && old(self)@.boosts_of(player)[i].id
                    != boost_id ==> final(self)@.boosts_of(player).contains(
                    #[trigger] old(self)@.boosts_of(player)[i],
                ),
            r is Ok ==> !has_id(final(self)@.boosts_of(player), boost_id),
            old(self).consistent() ==> final(self).consistent(),
    {
        match self.require_admin(ctx) {
            Ok(()) => {},
            Err(e) => {
                return Err(e);
            },
        }
        let stored = self.book.get(player);
        let (kept, found) = remove_id(&stored, boost_id);
        proof {
            lemma_revoke_removes_only_that_id(stored@, boost_id);
        }
        if !found {
            proof {
                assert forall|i: int| 0 <= i < stored@.len() implies stored@.contains(
                    #[trigger] stored@[i],
                ) by {}
            }
            return Ok(None);
        }
        proof {
            if old(self).consistent() {
                if old(self)@.boosts.dom().contains(player) {
                    assert(unique_ids(old(self)@.boosts[player]));
                }
                lemma_filter_keeps_ids_unique(stored@, |b: Boost| b.id != boost_id);
            }
        }
        self.book.set(player, kept);
        Ok(Some(AdminBoostRevokedEvent { player, boost_id }))
    }

    /// The administrator, once initialized.
    pub fn admin(&self) -> (r: Option<AccountId>)
        ensures
            r == self@.admin,
    {
        self.admin
    }

    /// Adds `boost` to `player`'s own list (authorized by the player, once
    /// the system is initialized); the placement rules of `admin_grant_boost`
    /// apply.
    pub fn add_boost(&mut self, ctx: &CallContext, player: AccountId, boost: Boost) -> (r: Result<
        Vec<BoostEvent>,
        BoostError,
    >)
        ensures
            match self_add_refusal(old(self)@, *ctx, player, boost) {
                Some(e) => r == Err::<Vec<BoostEvent>, BoostError>(e) && *final(self) == *old(self),
                None => r matches Ok(v) && v@ == expiry_events(
                    old(self)@.boosts_of(player),
                    player,
                    ctx.sequence,
                ).push(
                    BoostEvent::Activated(
                        BoostActivatedEvent {
                            player,
                            boost_id: boost.id,
                            boost_type: boost.boost_type,
                            value: boost.value,
                            expires_at_ledger: boost.expires_at_ledger,
                        },
                    ),
                ) && final(self)@ == placed(old(self)@, ctx.sequence, player, boost),
            },
            r is Ok ==> final(self)@.boosts_of(player) == active_boosts(
                old(self)@.boosts_of(player),
                ctx.sequence,
            ).push(boost),
            old(self).consistent() ==> final(self).consistent(),
    {
        match self.require_player(ctx, player) {
            Ok(()) => {},
            Err(e) => {
                return Err(e);
            },
        }
        let mut events = match self.place(ctx, player, boost) {
            Ok(v) => v,
            Err(e) => {
                return Err(e);
            },
        };
        events.push(
            BoostEvent::Activated(
                BoostActivatedEvent {
                    player,
                    boost_id: boost.id,
                    boost_type: boost.boost_type,
                    value: boost.value,
                    expires_at_ledger: boost.expires_at_ledger,
                },
            ),
        );
        Ok(events)
    }

    /// Removes all boosts of `player` (authorized by the player, once the
    /// system is initialized).
    pub fn clear_boosts(&mut self, ctx: &CallContext, player: AccountId) -> (r: Result<
        BoostsClearedEvent,
        BoostError,
    >)
        ensures
            match player_check(old(self)@, *ctx, player) {
                Some(e) => r == Err::<BoostsClearedEvent, BoostError>(e) && *final(self) == *old(self),
                None => r == Ok::<BoostsClearedEvent, BoostError>(
                    BoostsClearedEvent {
                        player,
                        count: old(self)@.boosts_of(player).len() as u32,
                    },
                ) && final(self)@ == old(self)@.with_boosts(player, Seq::empty()),
            },
            old(self).consistent() ==> final(self).consistent(),
    {
        match self.require_player(ctx, player) {
            Ok(()) => {},
            Err(e) => {
                return Err(e);
            },
        }
        let stored = self.book.get(player);
        let count = #[verifier::truncate] (stored.len() as u32);
        self.book.set(player, Vec::new());
        Ok(BoostsClearedEvent { player, count })
    }

    /// Drops the expired boosts of `player` and reports how many were
    /// dropped. Deprecated: adding a boost drops them by itself.
    pub fn prune_expired_boosts(&mut self, ctx: &CallContext, player: AccountId) -> (r: (
        u32,
        Vec<BoostEvent>,
    ))
        ensures
            r.0 == (old(self)@.boosts_of(player).len() - active_boosts(
                old(self)@.boosts_of(player),
                ctx.sequence,
            ).len()) as u32,
            r.1@ == seq![
                BoostEvent::DeprecatedCall(
                    DeprecatedFunctionCalledEvent {
                        function_name: 1,
                        caller: player,
                        replacement_hint: 2,
                    },
                ),
            ] + expiry_events(old(self)@.boosts_of(player), player, ctx.sequence),
            final(self)@ == old(self)@.with_boosts(
                player,
                active_boosts(old(self)@.boosts_of(player), ctx.sequence),
            ),
            old(self).consistent() ==> final(self).consistent(),
    {
        let mut events: Vec<BoostEvent> = Vec::new();
        events.push(
            BoostEvent::DeprecatedCall(
                DeprecatedFunctionCalledEvent { function_name: 1, caller: player, replacement_hint: 2 },
            ),
        );
        let stored = self.book.get(player);
        let before = stored.len();
        let (active, mut expired) = Self::prune_expired(ctx, &stored, player);
        let after = active.len();
        proof {
            stored@.lemma_filter_len(|b: Boost| is_active(b, ctx.sequence));
            if old(self).consistent() {
                if old(self)@.boosts.dom().contains(player) {
                    assert(unique_ids(old(self)@.boosts[player]));
                }
                lemma_filter_keeps_ids_unique(stored@, |b: Boost| is_active(b, ctx.sequence));
            }
        }
        events.append(&mut expired);
        self.book.set(player, active);
        (#[verifier::truncate] ((before - after) as u32), events)
    }

    /// The combined multiplier of `player`'s active boosts, in basis points.
    pub fn calculate_total_boost(&self, ctx: &CallContext, player: AccountId) -> (r: u32)
        ensures
            r == stacked_total(active_boosts(self@.boosts_of(player), ctx.sequence)),
    {
        let stored = self.book.get(player);
        let active = active_only(ctx, &stored);
        Self::apply_stacking_rules(&active)
    }

    /// Every stored boost of `player`, expired ones included, and the
    /// deprecation event. Deprecated: use `get_active_boosts`.
    pub fn get_boosts(&self, player: AccountId) -> (r: (Vec<Boost>, BoostEvent))
        ensures
            r.0@ == self@.boosts_of(player),
            r.1 == BoostEvent::DeprecatedCall(
                DeprecatedFunctionCalledEvent { function_name: 3, caller: player, replacement_hint: 4 },
            ),
    {
        (
            self.book.get(player),
            BoostEvent::DeprecatedCall(
                DeprecatedFunctionCalledEvent { function_name: 3, caller: player, replacement_hint: 4 },
            ),
        )
    }

    /// The active boosts of `player` at the current ledger, in order.
    pub fn get_active_boosts(&self, ctx: &CallContext, player: AccountId) -> (r: Vec<Boost>)
        ensures
            r@ == active_boosts(self@.boosts_of(player), ctx.sequence),
    {
        let stored = self.book.get(player);
        active_only(ctx, &stored)
    }
}


/// The additive bonus is the sum of the additive values modulo 2^32.
pub proof fn lemma_additive_total_wraps_sum(s: Seq<Boost>)
    ensures
        additive_total(s) as int == additive_sum(s) % 0x1_0000_0000,
    decreases s.len(),
{
    if s.len() > 0 {
        lemma_additive_total_wraps_sum(s.drop_last());
        if s.last().boost_type == BoostType::Additive {
            vstd::arithmetic::div_mod::lemma_add_mod_noop_right(
                s.last().value as int,
                additive_sum(s.drop_last()),
                0x1_0000_0000,
            );
        }
    }
}

/// Without an override, and while neither the additive bonus nor the product
/// leaves its register, the combined multiplier is the multiplicative chain
/// times (10 000 + the sum of the additive values) / 10 000.
pub proof fn lemma_stacking_without_override(s: Seq<Boost>)
    requires
        s.len() > 0,
        override_winner(s) is None,
        additive_sum(s) < 0x1_0000_0000,
        (multiplicative_chain(s) as int) * (10000 + additive_sum(s)) < 0x1_0000_0000_0000_0000,
    ensures
        stacked_total(s) == (((multiplicative_chain(s) as int) * (10000 + additive_sum(s))) / 10000) as u32,
{
    lemma_additive_total_wraps_sum(s);
    lemma_additive_sum_nonneg(s);
    vstd::arithmetic::div_mod::lemma_small_mod(additive_sum(s) as nat, 0x1_0000_0000);
    let p = (multiplicative_chain(s) as int) * (10000 + additive_sum(s));
    assert(p >= 0) by (nonlinear_arith)
        requires
            multiplicative_chain(s) >= 0,
            additive_sum(s) >= 0,
            p == (multiplicative_chain(s) as int) * (10000 + additive_sum(s)),
    ;
    vstd::arithmetic::div_mod::lemma_small_mod(p as nat, 0x1_0000_0000_0000_0000);
}

proof fn lemma_additive_sum_nonneg(s: Seq<Boost>)
    ensures
        additive_sum(s) >= 0,
    decreases s.len(),
{
    if s.len() > 0 {
        lemma_additive_sum_nonneg(s.drop_last());
    }
}

/// The winning override is an override boost of `s` whose priority is at
/// least that of every override in `s`, and it comes before any other
/// override of the same priority; there is a winner exactly when `s` holds
/// an override.
pub proof fn lemma_override_winner_is_highest(s: Seq<Boost>)
    ensures
        override_winner(s) is None <==> forall|i: int|
            0 <= i < s.len() ==> #[trigger] s[i].boost_type != BoostType::Override,
        override_winner(s) matches Some(w) ==> {
            &&& w.boost_type == BoostType::Override
            &&& exists|k: int|
                0 <= k < s.len() && s[k] == w && (forall|j: int|
                    0 <= j < k && s[j].boost_type == BoostType::Override ==> s[j].priority
                        < w.priority)
            &&& forall|i: int|
                0 <= i < s.len() && s[i].boost_type == BoostType::Override ==> #[trigger] s[i].priority
                    <= w.priority
        },
    decreases s.len(),
{
    if s.len() > 0 {
        let d = s.drop_last();
        lemma_override_winner_is_highest(d);
        let b = s.last();
        let n = s.len() - 1;
        assert forall|i: int| 0 <= i < d.len() implies d[i] == s[i] by {}
        match override_winner(d) {
            Some(c) => {
                let k = choose|k: int|
                    0 <= k < d.len() && d[k] == c && (forall|j: int|
                        0 <= j < k && d[j].boost_type == BoostType::Override ==> d[j].priority
                            < c.priority);
                if b.boost_type == BoostType::Override && b.priority > c.priority {
                    assert forall|j: int|
                        0 <= j < n && s[j].boost_type == BoostType::Override implies s[j].priority
                        < b.priority by {
                        assert(d[j].priority <= c.priority);
                    }
                    assert(s[n] == b);
                } else {
                    assert(s[k] == c);
                }
            },
            None => {
                if b.boost_type == BoostType::Override {
                    assert(s[n] == b);
                    assert forall|j: int|
                        0 <= j < n && s[j].boost_type == BoostType::Override implies s[j].priority
                        < b.priority by {
                        assert(d[j].boost_type != BoostType::Override);
                    }
                } else {
                    assert forall|i: int|
                        0 <= i < s.len() implies #[trigger] s[i].boost_type != BoostType::Override by {
                        if i < n {
                            assert(d[i].boost_type != BoostType::Override);
                        }
                    }
                }
            },
        }
    }
}

/// The override boosts of `s`, in order.
pub open spec fn overrides_of(s: Seq<Boost>) -> Seq<Boost> {
    s.filter(|b: Boost| b.boost_type == BoostType::Override)
}

/// The winning override depends only on the override boosts of the list.
pub proof fn lemma_winner_from_overrides(s: Seq<Boost>)
    ensures
        override_winner(s) == override_winner(overrides_of(s)),
        overrides_of(s).len() <= s.len(),
        overrides_of(s).len() > 0 ==> override_winner(s) is Some,
    decreases s.len(),
{
    reveal_with_fuel(Seq::<_>::filter, 1);
    if s.len() > 0 {
        let d = s.drop_last();
        lemma_winner_from_overrides(d);
        if s.last().boost_type == BoostType::Override {
            let t = overrides_of(s);
            assert(t == overrides_of(d).push(s.last()));
            assert(t.drop_last() =~= overrides_of(d));
        }
    }
}

/// Overrides supersede everything else: two lists with the same override
/// boosts, in the same order, and at least one of them, combine to the same
/// multiplier, the value of the winning override, whatever additive or
/// multiplicative boosts either list holds.
pub proof fn lemma_override_ignores_other_boosts(s1: Seq<Boost>, s2: Seq<Boost>)
    requires
        overrides_of(s1) == overrides_of(s2),
        overrides_of(s1).len() > 0,
    ensures
        override_winner(s1) is Some,
        stacked_total(s1) == override_winner(s1).unwrap().value,
        stacked_total(s2) == stacked_total(s1),
{
    lemma_winner_from_overrides(s1);
    lemma_winner_from_overrides(s2);
}

/// An expired boost has no effect: appending it to a list leaves the active
/// boosts, and so the combined multiplier, as they were.
pub proof fn lemma_expired_boost_has_no_effect(s: Seq<Boost>, b: Boost, sequence: u32)
    requires
        !is_active(b, sequence),
    ensures
        active_boosts(s.push(b), sequence) == active_boosts(s, sequence),
        stacked_total(active_boosts(s.push(b), sequence)) == stacked_total(
            active_boosts(s, sequence),
        ),
{
    reveal_with_fuel(Seq::<_>::filter, 1);
    assert(s.push(b).drop_last() =~= s);
}

/// A player without active boosts is at the base multiplier of 10 000 basis
/// points; this is so right after their boosts are cleared.
pub proof fn lemma_no_active_boosts_is_base(st: BoostState, player: AccountId, sequence: u32)
    ensures
        active_boosts(st.boosts_of(player), sequence).len() == 0 ==> stacked_total(
            active_boosts(st.boosts_of(player), sequence),
        ) == 10000,
        stacked_total(
            active_boosts(st.with_boosts(player, Seq::empty()).boosts_of(player), sequence),
        ) == 10000,
{
    reveal_with_fuel(Seq::<_>::filter, 1);
}

/// Changing one player's list leaves every other player's list as it was.
pub proof fn lemma_players_are_isolated(st: BoostState, player: AccountId, list: Seq<Boost>)
    ensures
        st.with_boosts(player, list).boosts_of(player) == list,
        forall|other: AccountId|
            other != player ==> #[trigger] st.with_boosts(player, list).boosts_of(other)
                == st.boosts_of(other),
        st.with_boosts(player, list).admin == st.admin,
{
}

/// Revoking an id twice is the same as revoking it once; afterwards no boost
/// of that id is left.
pub proof fn lemma_revoke_idempotent(s: Seq<Boost>, id: u128)
    ensures
        without_id(without_id(s, id), id) == without_id(s, id),
        !has_id(without_id(s, id), id),
    decreases s.len(),
{
    reveal_with_fuel(Seq::<_>::filter, 1);
    if s.len() > 0 {
        lemma_revoke_idempotent(s.drop_last(), id);
        let w = without_id(s.drop_last(), id);
        if s.last().id != id {
            assert(w.push(s.last()).drop_last() =~= w);
            assert(!has_id(w.push(s.last()), id)) by {
                if has_id(w.push(s.last()), id) {
                    let k = choose|k: int| 0 <= k < w.len() + 1 && w.push(s.last())[k].id == id;
                    assert(w[k].id == id);
                }
            }
        }
    }
}

/// The active boosts of a list are active boosts of that list.
pub proof fn lemma_active_boosts_come_from_list(s: Seq<Boost>, sequence: u32)
    ensures
        active_boosts(s, sequence).len() <= s.len(),
        forall|i: int|
            0 <= i < active_boosts(s, sequence).len() ==> s.contains(
                #[trigger] active_boosts(s, sequence)[i],
            ) && is_active(active_boosts(s, sequence)[i], sequence),
    decreases s.len(),
{
    reveal_with_fuel(Seq::<_>::filter, 1);
    if s.len() > 0 {
        let d = s.drop_last();
        lemma_active_boosts_come_from_list(d, sequence);
        let f = active_boosts(d, sequence);
        assert forall|i: int| 0 <= i < f.len() implies s.contains(#[trigger] f[i]) by {
            let k = choose|k: int| 0 <= k < d.len() && d[k] == f[i];
            assert(s[k] == f[i]);
        }
        assert(s[s.len() - 1] == s.last());
    }
}

/// Adding a boost stores that very boost, every field as given, after the
/// player's boosts that are still active, which keep their order; other
/// players' lists and the administrator stay as they were.
pub proof fn lemma_placed_stores_boost_as_given(
    s: BoostState,
    sequence: u32,
    player: AccountId,
    boost: Boost,
)
    ensures
        ({
            let after = placed(s, sequence, player, boost).boosts_of(player);
            &&& after.len() == active_boosts(s.boosts_of(player), sequence).len() + 1
            &&& after.last() == boost
            &&& after[after.len() - 1].priority == boost.priority
            &&& after.drop_last() == active_boosts(s.boosts_of(player), sequence)
            &&& forall|i: int|
                0 <= i < after.len() - 1 ==> s.boosts_of(player).contains(#[trigger] after[i])
                    && is_active(after[i], sequence)
        }),
        forall|other: AccountId|
            other != player ==> #[trigger] placed(s, sequence, player, boost).boosts_of(other)
                == s.boosts_of(other),
        placed(s, sequence, player, boost).admin == s.admin,
{
    let after = placed(s, sequence, player, boost).boosts_of(player);
    let act = active_boosts(s.boosts_of(player), sequence);
    assert(after == act.push(boost));
    assert(after.drop_last() =~= act);
    lemma_active_boosts_come_from_list(s.boosts_of(player), sequence);
    assert forall|i: int| 0 <= i < after.len() - 1 implies s.boosts_of(player).contains(
        #[trigger] after[i],
    ) && is_active(after[i], sequence) by {
        assert(after[i] == act[i]);
    }
}

/// The boosts of `s` with id `id`, in order.
pub open spec fn with_id(s: Seq<Boost>, id: u128) -> Seq<Boost> {
    s.filter(|b: Boost| b.id == id)
}

/// Revoking an id removes exactly the boosts of that id: every boost of
/// another id is still there, nothing of that id is left, nothing new
/// appears, and the list shrinks by the number of boosts of that id (by one
/// when the ids of the list are distinct and the id is present).
pub proof fn lemma_revoke_removes_only_that_id(s: Seq<Boost>, id: u128)
    ensures
        forall|i: int|
            0 <= i < s.len() && s[i].id != id ==> without_id(s, id).contains(#[trigger] s[i]),
        forall|j: int|
            0 <= j < without_id(s, id).len() ==> (#[trigger] without_id(s, id)[j]).id != id
                && s.contains(without_id(s, id)[j]),
        without_id(s, id).len() + with_id(s, id).len() == s.len(),
        !has_id(s, id) ==> without_id(s, id) == s,
        unique_ids(s) && has_id(s, id) ==> without_id(s, id).len() == s.len() - 1,
    decreases s.len(),
{
    reveal_with_fuel(Seq::<_>::filter, 1);
    if s.len() > 0 {
        let d = s.drop_last();
        let x = s.last();
        lemma_revoke_removes_only_that_id(d, id);
        let wd = without_id(d, id);
        let w = without_id(s, id);
        assert forall|i: int| 0 <= i < d.len() implies d[i] == s[i] by {}
        if x.id != id {
            assert(w == wd.push(x));
            assert(w.drop_last() =~= wd);
        } else {
            assert(w == wd);
        }
        assert forall|i: int| 0 <= i < s.len() && s[i].id != id implies w.contains(
            #[trigger] s[i],
        ) by {
            if i < s.len() - 1 {
                assert(d[i] == s[i]);
                let k = choose|k: int| 0 <= k < wd.len() && wd[k] == d[i];
                assert(w[k] == wd[k]);
            } else {
                assert(w[w.len() - 1] == x);
            }
        }
        assert forall|j: int| 0 <= j < w.len() implies (#[trigger] w[j]).id != id && s.contains(w[j]) by {
            if j < wd.len() {
                assert(w[j] == wd[j]);
                let k = choose|k: int| 0 <= k < d.len() && d[k] == wd[j];
                assert(s[k] == d[k]);
            } else {
                assert(w[j] == x);
                assert(s[s.len() - 1] == x);
            }
        }
        if !has_id(s, id) {
            assert(!has_id(d, id)) by {
                if has_id(d, id) {
                    let k = choose|k: int| 0 <= k < d.len() && d[k].id == id;
                    assert(s[k].id == id);
                }
            }
            assert(w =~= s);
        }
        if unique_ids(s) && has_id(s, id) {
            assert(unique_ids(d));
            if x.id == id {
                assert(!has_id(d, id)) by {
                    if has_id(d, id) {
                        let k = choose|k: int| 0 <= k < d.len() && d[k].id == id;
                        assert(s[k].id == s[s.len() - 1].id);
                    }
                }
            } else {
                assert(has_id(d, id)) by {
                    let k = choose|k: int| 0 <= k < s.len() && s[k].id == id;
                    assert(k < s.len() - 1);
                    assert(d[k].id == id);
                }
            }
        }
    }
}

} // verus!
