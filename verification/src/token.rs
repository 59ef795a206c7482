use vstd::prelude::*;

use crate::allowances::{AllowanceTable, AllowanceValue};
use crate::balances::{balance_sum, BalanceTable};
use crate::context::{AccountId, CallContext};

verus! {

/// Why a token operation was refused. The operation then changes nothing.
#[derive(Clone, Copy, Debug, PartialEq, Eq, Structural)]
pub enum TokenError {
    AlreadyInitialized,
    NegativeInitialSupply,
    NotInitialized,
    Unauthorized,
    NonPositiveAmount,
    NegativeAmount,
    InsufficientBalance,
    InsufficientAllowance,
    AllowanceExpired,
    BalanceOverflow,
    SupplyOverflow,
    SupplyUnderflow,
    LegacyMintDeprecated,
    LegacyBurnDeprecated,
    LegacyTransferDeprecated,
}

/// The text with which the contract reports each refusal.
pub open spec fn token_error_text(e: TokenError) -> &'static str {
    match e {
        TokenError::AlreadyInitialized => "Already initialized",
        TokenError::NegativeInitialSupply => "Initial supply cannot be negative",
        TokenError::NotInitialized => "Not initialized",
        TokenError::Unauthorized => "Unauthorized",
        TokenError::NonPositiveAmount => "Amount must be positive",
        TokenError::NegativeAmount => "Amount cannot be negative",
        TokenError::InsufficientBalance => "Insufficient balance",
        TokenError::InsufficientAllowance => "Insufficient allowance",
        TokenError::AllowanceExpired => "Allowance expired",
        TokenError::BalanceOverflow => "Balance overflow",
        TokenError::SupplyOverflow => "Supply overflow",
        TokenError::SupplyUnderflow => "Supply underflow",
        TokenError::LegacyMintDeprecated => "legacy_mint is deprecated; use mint instead",
        TokenError::LegacyBurnDeprecated => "legacy_burn is deprecated; use burn instead",
        TokenError::LegacyTransferDeprecated => "legacy_transfer is deprecated; use transfer instead",
    }
}

impl TokenError {
    pub fn message(&self) -> (m: &'static str)
        ensures
            m == token_error_text(*self),
    {
        match self {
            TokenError::AlreadyInitialized => "Already initialized",
            TokenError::NegativeInitialSupply => "Initial supply cannot be negative",
            TokenError::NotInitialized => "Not initialized",
            TokenError::Unauthorized => "Unauthorized",
            TokenError::NonPositiveAmount => "Amount must be positive",
            TokenError::NegativeAmount => "Amount cannot be negative",
            TokenError::InsufficientBalance => "Insufficient balance",
            TokenError::InsufficientAllowance => "Insufficient allowance",
            TokenError::AllowanceExpired => "Allowance expired",
            TokenError::BalanceOverflow => "Balance overflow",
            TokenError::SupplyOverflow => "Supply overflow",
            TokenError::SupplyUnderflow => "Supply underflow",
            TokenError::LegacyMintDeprecated => "legacy_mint is deprecated; use mint instead",
            TokenError::LegacyBurnDeprecated => "legacy_burn is deprecated; use burn instead",
            TokenError::LegacyTransferDeprecated => "legacy_transfer is deprecated; use transfer instead",
        }
    }
}


/// Emitted when tokens are created for an account.
#[derive(Clone, Copy, Debug, PartialEq, Eq, Structural)]
pub struct MintEvent {
    pub to: AccountId,
    pub amount: i128,
}

/// Emitted when tokens move from one account to another.
#[derive(Clone, Copy, Debug, PartialEq, Eq, Structural)]
pub struct TransferEvent {
    pub from: AccountId,
    pub to: AccountId,
    pub amount: i128,
}

/// Emitted when tokens are destroyed.
#[derive(Clone, Copy, Debug, PartialEq, Eq, Structural)]
pub struct BurnEvent {
    pub from: AccountId,
    pub amount: i128,
}

/// Emitted when an owner sets a spender's allowance.
#[derive(Clone, Copy, Debug, PartialEq, Eq, Structural)]
pub struct ApproveEvent {
    pub from: AccountId,
    pub spender: AccountId,
    pub amount: i128,
    pub expiration_ledger: u32,
}

/// Emitted when the administrator hands over the role.
#[derive(Clone, Copy, Debug, PartialEq, Eq, Structural)]
pub struct SetAdminEvent {
    pub old_admin: AccountId,
    pub new_admin: AccountId,
}

/// The abstract state of the token: the administrator (present once the
/// token is initialized), the recorded total supply, the stored balances and
/// the stored allowances.
pub struct TokenState {
    pub admin: Option<AccountId>,
    pub total_supply: i128,
    pub balances: Map<AccountId, i128>,
    pub allowances: Map<(AccountId, AccountId), AllowanceValue>,
}

impl TokenState {
    /// The balance of `id`: its stored amount, or nothing.
    pub open spec fn balance(self, id: AccountId) -> i128 {
        if self.balances.dom().contains(id) {
            self.balances[id]
        } else {
            0
        }
    }

    /// The stored allowance of `spender` over `from`'s balance, if any.
    pub open spec fn allowance_entry(self, from: AccountId, spender: AccountId) -> Option<
        AllowanceValue,
    > {
        if self.allowances.dom().contains((from, spender)) {
            Some(self.allowances[(from, spender)])
        } else {
            None
        }
    }

    /// The stored allowance, or an empty one that never expires.
    pub open spec fn allowance_or_empty(self, from: AccountId, spender: AccountId) -> AllowanceValue {
        match self.allowance_entry(from, spender) {
            Some(v) => v,
            None => AllowanceValue { amount: 0, expiration_ledger: 0 },
        }
    }

    pub open spec fn with_balance(self, id: AccountId, amount: int) -> TokenState {
        TokenState { balances: self.balances.insert(id, amount as i128), ..self }
    }

    pub open spec fn with_supply(self, supply: int) -> TokenState {
        TokenState { total_supply: supply as i128, ..self }
    }

    pub open spec fn with_allowance(
        self,
        from: AccountId,
        spender: AccountId,
        v: AllowanceValue,
    ) -> TokenState {
        TokenState { allowances: self.allowances.insert((from, spender), v), ..self }
    }

    pub open spec fn with_admin(self, admin: AccountId) -> TokenState {
        TokenState { admin: Some(admin), ..self }
    }

    /// `amount` moved out of `from`'s balance and then into `to`'s.
    pub open spec fn moved(self, from: AccountId, to: AccountId, amount: int) -> TokenState {
        let debited = self.with_balance(from, self.balance(from) - amount);
        debited.with_balance(to, debited.balance(to) + amount)
    }
}

/// An allowance stops being usable after its expiration ledger; `0` never
/// expires.
pub open spec fn is_expired(v: AllowanceValue, sequence: u32) -> bool {
    v.expiration_ledger > 0 && sequence > v.expiration_ledger
}

/// What a spender may still move: nothing without an entry or once it has
/// expired, else the stored amount.
pub open spec fn usable_allowance(entry: Option<AllowanceValue>, sequence: u32) -> i128 {
    match entry {
        None => 0,
        Some(v) => if is_expired(v, sequence) {
            0
        } else {
            v.amount
        },
    }
}


/// Why `initialize` would refuse, if it would.
pub open spec fn initialize_refusal(s: TokenState, initial_supply: i128) -> Option<TokenError> {
    if s.admin is Some {
        Some(TokenError::AlreadyInitialized)
    } else if initial_supply < 0 {
        Some(TokenError::NegativeInitialSupply)
    } else {
        None
    }
}

/// Why an administrator-only operation would refuse before looking at its
/// arguments, if it would.
pub open spec fn admin_refusal(s: TokenState, ctx: CallContext) -> Option<TokenError> {
    match s.admin {
        None => Some(TokenError::NotInitialized),
        Some(a) => if !ctx.authorizes(a) {
            Some(TokenError::Unauthorized)
        } else {
            None
        },
    }
}

/// Why `mint` would refuse, if it would.
pub open spec fn mint_refusal(
    s: TokenState,
    ctx: CallContext,
    to: AccountId,
    amount: i128,
) -> Option<TokenError> {
    if admin_refusal(s, ctx) is Some {
        admin_refusal(s, ctx)
    } else if amount <= 0 {
        Some(TokenError::NonPositiveAmount)
    } else if s.balance(to) + amount > i128::MAX {
        Some(TokenError::BalanceOverflow)
    } else if s.total_supply + amount > i128::MAX {
        Some(TokenError::SupplyOverflow)
    } else {
        None
    }
}

/// Why `approve` would refuse, if it would.
pub open spec fn approve_refusal(ctx: CallContext, from: AccountId, amount: i128) -> Option<
    TokenError,
> {
    if !ctx.authorizes(from) {
        Some(TokenError::Unauthorized)
    } else if amount < 0 {
        Some(TokenError::NegativeAmount)
    } else {
        None
    }
}

/// Why moving `amount` (already known positive) out of `from` and into `to`
/// would refuse, if it would.
pub open spec fn move_refusal(s: TokenState, from: AccountId, to: AccountId, amount: i128) -> Option<
    TokenError,
> {
    if s.balance(from) < amount {
        Some(TokenError::InsufficientBalance)
    } else if s.with_balance(from, s.balance(from) - amount).balance(to) + amount > i128::MAX {
        Some(TokenError::BalanceOverflow)
    } else {
        None
    }
}

/// Why `transfer` would refuse, if it would.
pub open spec fn transfer_refusal(
    s: TokenState,
    ctx: CallContext,
    from: AccountId,
    to: AccountId,
    amount: i128,
) -> Option<TokenError> {
    if !ctx.authorizes(from) {
        Some(TokenError::Unauthorized)
    } else if amount < 0 {
        Some(TokenError::NegativeAmount)
    } else if amount == 0 {
        None
    } else {
        move_refusal(s, from, to, amount)
    }
}

/// Why spending `amount` (already known positive) of `spender`'s allowance
/// over `from` would refuse, if it would.
pub open spec fn spend_refusal(
    s: TokenState,
    sequence: u32,
    from: AccountId,
    spender: AccountId,
    amount: i128,
) -> Option<TokenError> {
    let entry = s.allowance_or_empty(from, spender);
    if is_expired(entry, sequence) {
        Some(TokenError::AllowanceExpired)
    } else if entry.amount < amount {
        Some(TokenError::InsufficientAllowance)
    } else {
        None
    }
}

/// The state after `amount` of `spender`'s allowance over `from` is spent.
pub open spec fn spent(s: TokenState, from: AccountId, spender: AccountId, amount: i128) -> TokenState {
    let entry = s.allowance_or_empty(from, spender);
    s.with_allowance(
        from,
        spender,
        AllowanceValue {
            amount: (entry.amount - amount) as i128,
            expiration_ledger: entry.expiration_ledger,
        },
    )
}

/// Why `transfer_from` would refuse, if it would.
pub open spec fn transfer_from_refusal(
    s: TokenState,
    ctx: CallContext,
    spender: AccountId,
    from: AccountId,
    to: AccountId,
    amount: i128,
) -> Option<TokenError> {
    if !ctx.authorizes(spender) {
        Some(TokenError::Unauthorized)
    } else if amount < 0 {
        Some(TokenError::NegativeAmount)
    } else if amount == 0 {
        None
    } else if spend_refusal(s, ctx.sequence, from, spender, amount) is Some {
        spend_refusal(s, ctx.sequence, from, spender, amount)
    } else {
        move_refusal(spent(s, from, spender, amount), from, to, amount)
    }
}

/// Why destroying `amount` (already known positive) of `from`'s balance would
/// refuse, if it would.
pub open spec fn destroy_refusal(s: TokenState, from: AccountId, amount: i128) -> Option<TokenError> {
    if s.balance(from) < amount {
        Some(TokenError::InsufficientBalance)
    } else if s.admin is None {
        Some(TokenError::NotInitialized)
    } else if s.total_supply - amount < i128::MIN {
        Some(TokenError::SupplyUnderflow)
    } else {
        None
    }
}

/// The state after `amount` of `from`'s balance is destroyed.
pub open spec fn destroyed(s: TokenState, from: AccountId, amount: i128) -> TokenState {
    s.with_balance(from, s.balance(from) - amount).with_supply(s.total_supply - amount)
}

/// Why `burn` would refuse, if it would.
pub open spec fn burn_refusal(s: TokenState, ctx: CallContext, from: AccountId, amount: i128) -> Option<
    TokenError,
> {
    if !ctx.authorizes(from) {
        Some(TokenError::Unauthorized)
    } else if amount <= 0 {
        Some(TokenError::NonPositiveAmount)
    } else {
        destroy_refusal(s, from, amount)
    }
}

/// Why `burn_from` would refuse, if it would.
pub open spec fn burn_from_refusal(
    s: TokenState,
    ctx: CallContext,
    spender: AccountId,
    from: AccountId,
    amount: i128,
) -> Option<TokenError> {
    if !ctx.authorizes(spender) {
        Some(TokenError::Unauthorized)
    } else if amount <= 0 {
        Some(TokenError::NonPositiveAmount)
    } else if spend_refusal(s, ctx.sequence, from, spender, amount) is Some {
        spend_refusal(s, ctx.sequence, from, spender, amount)
    } else {
        destroy_refusal(spent(s, from, spender, amount), from, amount)
    }
}

/// The TYC token: an administrator, a total supply, balances and allowances.
pub struct TycoonToken {
    admin: Option<AccountId>,
    total_supply: i128,
    balances: BalanceTable,
    allowances: AllowanceTable,
}

impl View for TycoonToken {
    type V = TokenState;

    closed spec fn view(&self) -> TokenState {
        TokenState {
            admin: self.admin,
            total_supply: self.total_supply,
            balances: self.balances@,
            allowances: self.allowances@,
        }
    }
}

impl TycoonToken {
    /// The supply law: the stored balances are finitely many, the total
    /// supply is their sum, and no balance is negative.
    pub open spec fn supply_matches_balances(self) -> bool {
        &&& self@.balances.dom().finite()
        &&& balance_sum(self@.balances) == self@.total_supply
        &&& forall|id: AccountId| #[trigger] self@.balances.dom().contains(id) ==> self@.balances[id] >= 0
    }

    /// The ledger is consistent: the supply law holds, no allowance is
    /// negative, and there is no supply before the token is initialized.
    pub open spec fn consistent(self) -> bool {
        &&& self.supply_matches_balances()
        &&& forall|k: (AccountId, AccountId)|
            #[trigger] self@.allowances.dom().contains(k) ==> self@.allowances[k].amount >= 0
        &&& self@.admin is None ==> self@.total_supply == 0
    }

    /// Fresh contract storage: nothing is stored yet.
    pub fn new() -> (t: TycoonToken)
        ensures
            t@ == (TokenState {
                admin: None,
                total_supply: 0,
                balances: Map::empty(),
                allowances: Map::empty(),
            }),
            t.consistent(),
    {
        TycoonToken {
            admin: None,
            total_supply: 0,
            balances: BalanceTable::new(),
            allowances: AllowanceTable::new(),
        }
    }

    proof fn lemma_bounds(&self)
        requires
            self.balances.wf(),
            self.consistent(),
        ensures
            forall|a: AccountId| 0 <= #[trigger] self@.balance(a) <= self@.total_supply,
            forall|a: AccountId, b: AccountId|
                a != b ==> #[trigger] self@.balance(a) + #[trigger] self@.balance(b)
                    <= self@.total_supply,
    {
        assert forall|id: AccountId| self.balances.amount_of(id) >= 0 by {
            if self@.balances.dom().contains(id) {
                assert(self@.balances[id] >= 0);
            }
        }
        self.balances.lemma_nonneg_bounds();
        assert forall|a: AccountId| 0 <= #[trigger] self@.balance(a) <= self@.total_supply by {
            assert(self@.balance(a) == self.balances.amount_of(a));
        }
        assert forall|a: AccountId, b: AccountId|
            a != b implies #[trigger] self@.balance(a) + #[trigger] self@.balance(b)
                <= self@.total_supply by {
            assert(self@.balance(a) == self.balances.amount_of(a));
            assert(self@.balance(b) == self.balances.amount_of(b));
        }
    }

    /// Contract storage holding the given administrator and total supply and
    /// no balance or allowance yet; balances and allowances read from storage
    /// are added with `restore_balance` and `restore_allowance`.
    pub fn restore(admin: Option<AccountId>, total_supply: i128) -> (t: TycoonToken)
        ensures
            t@ == (TokenState {
                admin,
                total_supply,
                balances: Map::empty(),
                allowances: Map::empty(),
            }),
    {
        TycoonToken {
            admin,
            total_supply,
            balances: BalanceTable::new(),
            allowances: AllowanceTable::new(),
        }
    }

    /// Records a balance read from storage.
    pub fn restore_balance(&mut self, id: AccountId, amount: i128)
        ensures
            final(self)@ == old(self)@.with_balance(id, amount as int),
    {
        self.balances.set(id, amount);
    }

    /// Records an allowance read from storage.
    pub fn restore_allowance(&mut self, from: AccountId, spender: AccountId, value: AllowanceValue)
        ensures
            final(self)@ == old(self)@.with_allowance(from, spender, value),
    {
        self.allowances.set(from, spender, value);
    }

    /// The stored allowance of `spender` over `from`'s balance, if any,
    /// expired or not.
    pub fn allowance_entry(&self, from: AccountId, spender: AccountId) -> (r: Option<AllowanceValue>)
        ensures
            r == self@.allowance_entry(from, spender),
    {
        self.allowances.get(from, spender)
    }

    /// Sets the administrator and creates the initial supply on its balance.
    /// Allowed once.
    pub fn initialize(&mut self, admin: AccountId, initial_supply: i128) -> (r: Result<
        MintEvent,
        TokenError,
    >)
        ensures
            match initialize_refusal(old(self)@, initial_supply) {
                Some(e) => r == Err::<MintEvent, TokenError>(e) && *final(self) == *old(self),
                None => r == Ok::<MintEvent, TokenError>(
                    MintEvent { to: admin, amount: initial_supply },
                ) && final(self)@ == old(self)@.with_admin(admin).with_supply(
                    initial_supply as int,
                ).with_balance(admin, initial_supply as int),
            },
            old(self).consistent() ==> final(self).consistent(),
    {
        if self.admin.is_some() {
            return Err(TokenError::AlreadyInitialized);
        }
        if initial_supply < 0 {
            return Err(TokenError::NegativeInitialSupply);
        }
        proof {
            use_type_invariant(&self.balances);
            if self.consistent() {
                self.lemma_bounds();
                assert(self@.balance(admin) == 0);
            }
        }
        self.admin = Some(admin);
        self.total_supply = initial_supply;
        self.balances.set(admin, initial_supply);
        Ok(MintEvent { to: admin, amount: initial_supply })
    }

    /// Creates `amount` new tokens on `to`'s balance (administrator only).
    pub fn mint(&mut self, ctx: &CallContext, to: AccountId, amount: i128) -> (r: Result<
        MintEvent,
        TokenError,
    >)
        ensures
            match mint_refusal(old(self)@, *ctx, to, amount) {
                Some(e) => r == Err::<MintEvent, TokenError>(e) && *final(self) == *old(self),
                None => r == Ok::<MintEvent, TokenError>(MintEvent { to, amount }) && final(self)@
                    == old(self)@.with_balance(to, old(self)@.balance(to) + amount).with_supply(
                    old(self)@.total_supply + amount,
                ),
            },
            old(self).consistent() ==> final(self).consistent(),
            old(self).supply_matches_balances() ==> final(self).supply_matches_balances(),
    {
        match self.admin {
            None => {
                return Err(TokenError::NotInitialized);
            },
            Some(a) => {
                if !ctx.is_authorized(a) {
                    return Err(TokenError::Unauthorized);
                }
            },
        }
        if amount <= 0 {
            return Err(TokenError::NonPositiveAmount);
        }
        let balance = self.balances.get(to);
        let new_balance = match balance.checked_add(amount) {
            Some(v) => v,
            None => {
                return Err(TokenError::BalanceOverflow);
            },
        };
        let new_supply = match self.total_supply.checked_add(amount) {
            Some(v) => v,
            None => {
                return Err(TokenError::SupplyOverflow);
            },
        };
        self.balances.set(to, new_balance);
        self.total_supply = new_supply;
        Ok(MintEvent { to, amount })
    }

    /// Hands the administrator role to `new_admin` (administrator only).
    pub fn set_admin(&mut self, ctx: &CallContext, new_admin: AccountId) -> (r: Result<
        SetAdminEvent,
        TokenError,
    >)
        ensures
            match admin_refusal(old(self)@, *ctx) {
                Some(e) => r == Err::<SetAdminEvent, TokenError>(e) && *final(self) == *old(self),
                None => r == Ok::<SetAdminEvent, TokenError>(
                    SetAdminEvent { old_admin: old(self)@.admin.unwrap(), new_admin },
                ) && final(self)@ == old(self)@.with_admin(new_admin),
            },
            old(self).consistent() ==> final(self).consistent(),
            old(self).supply_matches_balances() ==> final(self).supply_matches_balances(),
    {
        let old_admin = match self.admin {
            None => {
                return Err(TokenError::NotInitialized);
            },
            Some(a) => {
                if !ctx.is_authorized(a) {
                    return Err(TokenError::Unauthorized);
                }
                a
            },
        };
        self.admin = Some(new_admin);
        Ok(SetAdminEvent { old_admin, new_admin })
    }

    /// The administrator, once the token is initialized.
    pub fn admin(&self) -> (r: Option<AccountId>)
        ensures
            r == self@.admin,
    {
        self.admin
    }

    /// The recorded total supply (nothing before initialization).
    pub fn total_supply(&self) -> (r: i128)
        ensures
            r == self@.total_supply,
    {
        self.total_supply
    }

    /// What `spender` may still move out of `from`'s balance at the current
    /// ledger.
    pub fn allowance(&self, ctx: &CallContext, from: AccountId, spender: AccountId) -> (r: i128)
        ensures
            r == usable_allowance(self@.allowance_entry(from, spender), ctx.sequence),
    {
        match self.allowances.get(from, spender) {
            None => 0,
            Some(v) => {
                if v.expiration_ledger > 0 && ctx.sequence() > v.expiration_ledger {
                    0
                } else {
                    v.amount
                }
            },
        }
    }

    /// Sets the allowance of `spender` over `from`'s balance (authorized by
    /// `from`).
    pub fn approve(
        &mut self,
        ctx: &CallContext,
        from: AccountId,
        spender: AccountId,
        amount: i128,
        expiration_ledger: u32,
    ) -> (r: Result<ApproveEvent, TokenError>)
        ensures
            match approve_refusal(*ctx, from, amount) {
                Some(e) => r == Err::<ApproveEvent, TokenError>(e) && *final(self) == *old(self),
                None => r == Ok::<ApproveEvent, TokenError>(
                    ApproveEvent { from, spender, amount, expiration_ledger },
                ) && final(self)@ == old(self)@.with_allowance(
                    from,
                    spender,
                    AllowanceValue { amount, expiration_ledger },
                ),
            },
            old(self).consistent() ==> final(self).consistent(),
            old(self).supply_matches_balances() ==> final(self).supply_matches_balances(),
            ctx.authorizes(from) ==> r != Err::<ApproveEvent, TokenError>(TokenError::Unauthorized),
    {
        if !ctx.is_authorized(from) {
            return Err(TokenError::Unauthorized);
        }
        if amount < 0 {
            return Err(TokenError::NegativeAmount);
        }
        self.allowances.set(from, spender, AllowanceValue { amount, expiration_ledger });
        Ok(ApproveEvent { from, spender, amount, expiration_ledger })
    }

    /// The balance of `id`.
    pub fn balance(&self, id: AccountId) -> (r: i128)
        ensures
            r == self@.balance(id),
    {
        self.balances.get(id)
    }

    /// Moves `amount` (positive, already checked) from `from` to `to`.
    fn move_balance(&mut self, from: AccountId, to: AccountId, amount: i128) -> (r: Result<
        (),
        TokenError,
    >)
        requires
            amount > 0,
        ensures
            match move_refusal(old(self)@, from, to, amount) {
                Some(e) => r == Err::<(), TokenError>(e) && *final(self) == *old(self),
                None => r == Ok::<(), TokenError>(()) && final(self)@ == old(self)@.moved(
                    from,
                    to,
                    amount as int,
                ),
            },
            old(self).consistent() ==> final(self).consistent() && r != Err::<(), TokenError>(
                TokenError::BalanceOverflow,
            ),
            old(self).supply_matches_balances() ==> final(self).supply_matches_balances(),
    {
        proof {
            use_type_invariant(&self.balances);
            if self.consistent() {
                self.lemma_bounds();
            }
        }
        let from_balance = self.balances.get(from);
        if from_balance < amount {
            return Err(TokenError::InsufficientBalance);
        }
        let new_from = from_balance - amount;
        let to_balance = if to == from {
            new_from
        } else {
            self.balances.get(to)
        };
        proof {
            if self.consistent() && to != from {
                assert(self@.balance(from) + self@.balance(to) <= self@.total_supply);
            }
        }
        let new_to = match to_balance.checked_add(amount) {
            Some(v) => v,
            None => {
                return Err(TokenError::BalanceOverflow);
            },
        };
        self.balances.set(from, new_from);
        self.balances.set(to, new_to);
        Ok(())
    }

    /// Moves `amount` from `from` to `to` (authorized by `from`). Moving
    /// nothing succeeds and changes nothing.
    pub fn transfer(&mut self, ctx: &CallContext, from: AccountId, to: AccountId, amount: i128) -> (r:
        Result<Option<TransferEvent>, TokenError>)
        ensures
            match transfer_refusal(old(self)@, *ctx, from, to, amount) {
                Some(e) => r == Err::<Option<TransferEvent>, TokenError>(e) && *final(self)
                    == *old(self),
                None => if amount == 0 {
                    r == Ok::<Option<TransferEvent>, TokenError>(None) && *final(self)
                        == *old(self)
                } else {
                    r == Ok::<Option<TransferEvent>, TokenError>(
                        Some(TransferEvent { from, to, amount }),
                    ) && final(self)@ == old(self)@.moved(from, to, amount as int)
                },
            },
            old(self).consistent() ==> final(self).consistent() && r != Err::<
                Option<TransferEvent>,
                TokenError,
            >(TokenError::BalanceOverflow),
            old(self).supply_matches_balances() ==> final(self).supply_matches_balances(),
            ctx.authorizes(from) ==> r != Err::<Option<TransferEvent>, TokenError>(
                TokenError::Unauthorized,
            ),
    {
        if !ctx.is_authorized(from) {
            return Err(TokenError::Unauthorized);
        }
        if amount < 0 {
            return Err(TokenError::NegativeAmount);
        }
        if amount == 0 {
            return Ok(None);
        }
        match self.move_balance(from, to, amount) {
            Ok(()) => Ok(Some(TransferEvent { from, to, amount })),
            Err(e) => Err(e),
        }
    }

    /// Spends `amount` (positive, already checked) of `spender`'s allowance
    /// over `from`, refusing when it has expired or is too small.
    fn check_allowance(&self, ctx: &CallContext, from: AccountId, spender: AccountId, amount: i128) -> (r:
        Result<AllowanceValue, TokenError>)
        requires
            amount > 0,
        ensures
            match spend_refusal(self@, ctx.sequence, from, spender, amount) {
                Some(e) => r == Err::<AllowanceValue, TokenError>(e),
                None => r == Ok::<AllowanceValue, TokenError>(
                    AllowanceValue {
                        amount: (self@.allowance_or_empty(from, spender).amount - amount) as i128,
                        expiration_ledger: self@.allowance_or_empty(from, spender).expiration_ledger,
                    },
                ),
            },
    {
        let entry = match self.allowances.get(from, spender) {
            Some(v) => v,
            None => AllowanceValue { amount: 0, expiration_ledger: 0 },
        };
        if entry.expiration_ledger > 0 && ctx.sequence() > entry.expiration_ledger {
            return Err(TokenError::AllowanceExpired);
        }
        if entry.amount < amount {
            return Err(TokenError::InsufficientAllowance);
        }
        Ok(AllowanceValue { amount: entry.amount - amount, expiration_ledger: entry.expiration_ledger })
    }

    /// Moves `amount` from `from` to `to` on behalf of `spender`, spending
    /// `spender`'s allowance (authorized by `spender`). Moving nothing succeeds
    /// and changes nothing.
    pub fn transfer_from(
        &mut self,
        ctx: &CallContext,
        spender: AccountId,
        from: AccountId,
        to: AccountId,
        amount: i128,
    ) -> (r: Result<Option<TransferEvent>, TokenError>)
        ensures
            match transfer_from_refusal(old(self)@, *ctx, spender, from, to, amount) {
                Some(e) => r == Err::<Option<TransferEvent>, TokenError>(e) && *final(self)
                    == *old(self),
                None => if amount == 0 {
                    r == Ok::<Option<TransferEvent>, TokenError>(None) && *final(self)
                        == *old(self)
                } else {
                    r == Ok::<Option<TransferEvent>, TokenError>(
                        Some(TransferEvent { from, to, amount }),
                    ) && final(self)@ == spent(old(self)@, from, spender, amount).moved(
                        from,
                        to,
                        amount as int,
                    )
                },
            },
            old(self).consistent() ==> final(self).consistent() && r != Err::<
                Option<TransferEvent>,
                TokenError,
            >(TokenError::BalanceOverflow),
            old(self).supply_matches_balances() ==> final(self).supply_matches_balances(),
            ctx.authorizes(spender) ==> r != Err::<Option<TransferEvent>, TokenError>(
                TokenError::Unauthorized,
            ),
    {
        if !ctx.is_authorized(spender) {
            return Err(TokenError::Unauthorized);
        }
        if amount < 0 {
            return Err(TokenError::NegativeAmount);
        }
        if amount == 0 {
            return Ok(None);
        }
        let remaining = match self.check_allowance(ctx, from, spender, amount) {
            Ok(v) => v,
            Err(e) => {
                return Err(e);
            },
        };
        match self.move_balance(from, to, amount) {
            Ok(()) => {},
            Err(e) => {
                return Err(e);
            },
        }
        self.allowances.set(from, spender, remaining);
        assert(final(self)@ =~~= spent(old(self)@, from, spender, amount).moved(from, to, amount as int));
        Ok(Some(TransferEvent { from, to, amount }))
    }

    /// Destroys `amount` (positive, already checked) of `from`'s balance.
    fn destroy(&mut self, from: AccountId, amount: i128) -> (r: Result<(), TokenError>)
        requires
            amount > 0,
        ensures
            match destroy_refusal(old(self)@, from, amount) {
                Some(e) => r == Err::<(), TokenError>(e) && *final(self) == *old(self),
                None => r == Ok::<(), TokenError>(()) && final(self)@ == destroyed(
                    old(self)@,
                    from,
                    amount,
                ),
            },
            old(self).consistent() ==> final(self).consistent() && r != Err::<(), TokenError>(
                TokenError::SupplyUnderflow,
            ) && r != Err::<(), TokenError>(TokenError::NotInitialized),
            old(self).supply_matches_balances() ==> final(self).supply_matches_balances(),
    {
        proof {
            use_type_invariant(&self.balances);
            if self.consistent() {
                self.lemma_bounds();
            }
        }
        let balance = self.balances.get(from);
        if balance < amount {
            return Err(TokenError::InsufficientBalance);
        }
        if self.admin.is_none() {
            return Err(TokenError::NotInitialized);
        }
        let new_supply = match self.total_supply.checked_sub(amount) {
            Some(v) => v,
            None => {
                return Err(TokenError::SupplyUnderflow);
            },
        };
        self.balances.set(from, balance - amount);
        self.total_supply = new_supply;
        Ok(())
    }

    /// Destroys `amount` of `from`'s balance (authorized by `from`).
    pub fn burn(&mut self, ctx: &CallContext, from: AccountId, amount: i128) -> (r: Result<
        BurnEvent,
        TokenError,
    >)
        ensures
            match burn_refusal(old(self)@, *ctx, from, amount) {
                Some(e) => r == Err::<BurnEvent, TokenError>(e) && *final(self) == *old(self),
                None => r == Ok::<BurnEvent, TokenError>(BurnEvent { from, amount }) && final(self)@ == destroyed(old(self)@, from, amount),
            },
            old(self).consistent() ==> final(self).consistent() && r != Err::<BurnEvent, TokenError>(
                TokenError::SupplyUnderflow,
            ) && r != Err::<BurnEvent, TokenError>(TokenError::NotInitialized),
            old(self).supply_matches_balances() ==> final(self).supply_matches_balances(),
            ctx.authorizes(from) ==> r != Err::<BurnEvent, TokenError>(TokenError::Unauthorized),
    {
        if !ctx.is_authorized(from) {
            return Err(TokenError::Unauthorized);
        }
        if amount <= 0 {
            return Err(TokenError::NonPositiveAmount);
        }
        match self.destroy(from, amount) {
            Ok(()) => Ok(BurnEvent { from, amount }),
            Err(e) => Err(e),
        }
    }

    /// Destroys `amount` of `from`'s balance on behalf of `spender`, spending
    /// `spender`'s allowance (authorized by `spender`).
    pub fn burn_from(&mut self, ctx: &CallContext, spender: AccountId, from: AccountId, amount: i128) -> (r:
        Result<BurnEvent, TokenError>)
        ensures
            match burn_from_refusal(old(self)@, *ctx, spender, from, amount) {
                Some(e) => r == Err::<BurnEvent, TokenError>(e) && *final(self) == *old(self),
                None => r == Ok::<BurnEvent, TokenError>(BurnEvent { from, amount }) && final(self)@ == destroyed(spent(old(self)@, from, spender, amount), from, amount),
            },
            old(self).consistent() ==> final(self).consistent() && r != Err::<BurnEvent, TokenError>(
                TokenError::SupplyUnderflow,
            ) && r != Err::<BurnEvent, TokenError>(TokenError::NotInitialized),
            old(self).supply_matches_balances() ==> final(self).supply_matches_balances(),
            ctx.authorizes(spender) ==> r != Err::<BurnEvent, TokenError>(
                TokenError::Unauthorized,
            ),
    {
        if !ctx.is_authorized(spender) {
            return Err(TokenError::Unauthorized);
        }
        if amount <= 0 {
            return Err(TokenError::NonPositiveAmount);
        }
        let remaining = match self.check_allowance(ctx, from, spender, amount) {
            Ok(v) => v,
            Err(e) => {
                return Err(e);
            },
        };
        match self.destroy(from, amount) {
            Ok(()) => {},
            Err(e) => {
                return Err(e);
            },
        }
        self.allowances.set(from, spender, remaining);
        assert(final(self)@ =~~= destroyed(spent(old(self)@, from, spender, amount), from, amount));
        Ok(BurnEvent { from, amount })
    }

    /// The number of decimals of the token.
    pub fn decimals(&self) -> (r: u32)
        ensures
            r == 18,
    {
        18
    }

    /// The token's name.
    pub fn name(&self) -> (r: &'static str)
        ensures
            r == "Tycoon",
    {
        "Tycoon"
    }

    /// The token's symbol.
    pub fn symbol(&self) -> (r: &'static str)
        ensures
            r == "TYC",
    {
        "TYC"
    }

    /// The retired name of `mint`: always refused, changes nothing.
    pub fn legacy_mint(&self, ctx: &CallContext, to: AccountId, amount: i128) -> (r: Result<
        (),
        TokenError,
    >)
        ensures
            r == Err::<(), TokenError>(TokenError::LegacyMintDeprecated),
    {
        Err(TokenError::LegacyMintDeprecated)
    }

    /// The retired name of `burn`: always refused, changes nothing.
    pub fn legacy_burn(&self, ctx: &CallContext, from: AccountId, amount: i128) -> (r: Result<
        (),
        TokenError,
    >)
        ensures
            r == Err::<(), TokenError>(TokenError::LegacyBurnDeprecated),
    {
        Err(TokenError::LegacyBurnDeprecated)
    }

    /// The retired name of `transfer`: always refused, changes nothing.
    pub fn legacy_transfer(
        &self,
        ctx: &CallContext,
        from: AccountId,
        to: AccountId,
        amount: i128,
    ) -> (r: Result<(), TokenError>)
        ensures
            r == Err::<(), TokenError>(TokenError::LegacyTransferDeprecated),
    {
        Err(TokenError::LegacyTransferDeprecated)
    }
}


/// A transfer keeps the total supply; it takes `amount` from the sender and
/// gives it to the receiver, leaves every other balance as it was, and a
/// transfer to oneself leaves the balance unchanged.
pub proof fn lemma_move_conserves(s: TokenState, from: AccountId, to: AccountId, amount: int)
    requires
        0 <= amount <= s.balance(from),
        from != to ==> s.balance(to) + amount <= i128::MAX,
    ensures
        s.moved(from, to, amount).total_supply == s.total_supply,
        s.moved(from, to, amount).admin == s.admin,
        s.moved(from, to, amount).allowances == s.allowances,
        from != to ==> s.moved(from, to, amount).balance(from) == s.balance(from) - amount,
        from != to ==> s.moved(from, to, amount).balance(to) == s.balance(to) + amount,
        from == to ==> s.moved(from, to, amount).balance(from) == s.balance(from),
        forall|x: AccountId|
            x != from && x != to ==> #[trigger] s.moved(from, to, amount).balance(x) == s.balance(x),
{
}

/// Creating `amount` on an account and then destroying it again restores the
/// account's balance and the total supply.
pub proof fn lemma_mint_then_burn_restores(s: TokenState, to: AccountId, amount: i128)
    requires
        amount > 0,
        s.balance(to) + amount <= i128::MAX,
        s.total_supply + amount <= i128::MAX,
    ensures
        ({
            let minted = s.with_balance(to, s.balance(to) + amount).with_supply(
                s.total_supply + amount,
            );
            let burned = destroyed(minted, to, amount);
            &&& burned.balance(to) == s.balance(to)
            &&& burned.total_supply == s.total_supply
            &&& forall|x: AccountId| #[trigger] burned.balance(x) == s.balance(x)
        }),
{
}

/// After `approve`, the allowance reads as the approved amount up to and
/// including the expiration ledger, and as nothing afterwards; an expiration
/// ledger of `0` never expires.
pub proof fn lemma_approve_then_allowance(
    s: TokenState,
    from: AccountId,
    spender: AccountId,
    amount: i128,
    expiration_ledger: u32,
    sequence: u32,
)
    ensures
        ({
            let after = s.with_allowance(
                from,
                spender,
                AllowanceValue { amount, expiration_ledger },
            );
            &&& (expiration_ledger == 0 || sequence <= expiration_ledger) ==> usable_allowance(
                after.allowance_entry(from, spender),
                sequence,
            ) == amount
            &&& (expiration_ledger > 0 && sequence > expiration_ledger) ==> usable_allowance(
                after.allowance_entry(from, spender),
                sequence,
            ) == 0
        }),
{
}

/// Spending from an allowance lowers it by exactly the amount spent and keeps
/// its expiration ledger; other allowances stay as they were.
pub proof fn lemma_spend_lowers_allowance(
    s: TokenState,
    from: AccountId,
    spender: AccountId,
    amount: i128,
)
    requires
        0 <= amount <= s.allowance_or_empty(from, spender).amount,
    ensures
        spent(s, from, spender, amount).allowance_or_empty(from, spender).amount == s.allowance_or_empty(
            from,
            spender,
        ).amount - amount,
        spent(s, from, spender, amount).allowance_or_empty(from, spender).expiration_ledger
            == s.allowance_or_empty(from, spender).expiration_ledger,
        forall|a: AccountId, b: AccountId|
            !(a == from && b == spender) ==> #[trigger] spent(s, from, spender, amount).allowance_entry(
                a,
                b,
            ) == s.allowance_entry(a, b),
        spent(s, from, spender, amount).balances == s.balances,
        spent(s, from, spender, amount).total_supply == s.total_supply,
{
}

/// `transfer` asks for the sender's signature and nobody else's: signed by
/// the sender it is never refused as unauthorized, unsigned by the sender it
/// always is, and who else signs makes no difference to its answer.
pub proof fn lemma_transfer_signed_by_sender(
    s: TokenState,
    ctx: CallContext,
    other: CallContext,
    from: AccountId,
    to: AccountId,
    amount: i128,
)
    ensures
        ctx.authorizes(from) ==> transfer_refusal(s, ctx, from, to, amount) != Some(
            TokenError::Unauthorized,
        ),
        !ctx.authorizes(from) ==> transfer_refusal(s, ctx, from, to, amount) == Some(
            TokenError::Unauthorized,
        ),
        ctx.authorizes(from) == other.authorizes(from) ==> transfer_refusal(s, ctx, from, to, amount)
            == transfer_refusal(s, other, from, to, amount),
{
}

/// `transfer_from` asks for the spender's signature and nobody else's (not
/// the owner's): signed by the spender it is never refused as unauthorized,
/// unsigned by the spender it always is, and at one ledger who else signs
/// makes no difference to its answer.
pub proof fn lemma_transfer_from_signed_by_spender(
    s: TokenState,
    ctx: CallContext,
    other: CallContext,
    spender: AccountId,
    from: AccountId,
    to: AccountId,
    amount: i128,
)
    ensures
        ctx.authorizes(spender) ==> transfer_from_refusal(s, ctx, spender, from, to, amount) != Some(
            TokenError::Unauthorized,
        ),
        !ctx.authorizes(spender) ==> transfer_from_refusal(s, ctx, spender, from, to, amount)
            == Some(TokenError::Unauthorized),
        ctx.authorizes(spender) == other.authorizes(spender) && ctx.sequence == other.sequence
            ==> transfer_from_refusal(s, ctx, spender, from, to, amount) == transfer_from_refusal(
            s,
            other,
            spender,
            from,
            to,
            amount,
        ),
{
}

/// `burn_from` asks for the spender's signature and nobody else's (not the
/// owner's): signed by the spender it is never refused as unauthorized,
/// unsigned by the spender it always is, and at one ledger who else signs
/// makes no difference to its answer.
pub proof fn lemma_burn_from_signed_by_spender(
    s: TokenState,
    ctx: CallContext,
    other: CallContext,
    spender: AccountId,
    from: AccountId,
    amount: i128,
)
    ensures
        ctx.authorizes(spender) ==> burn_from_refusal(s, ctx, spender, from, amount) != Some(
            TokenError::Unauthorized,
        ),
        !ctx.authorizes(spender) ==> burn_from_refusal(s, ctx, spender, from, amount) == Some(
            TokenError::Unauthorized,
        ),
        ctx.authorizes(spender) == other.authorizes(spender) && ctx.sequence == other.sequence
            ==> burn_from_refusal(s, ctx, spender, from, amount) == burn_from_refusal(
            s,
            other,
            spender,
            from,
            amount,
        ),
{
}

/// `burn` and `approve` ask for the owner's signature and nobody else's;
/// `mint` and `set_admin` ask for the administrator's and nobody else's.
pub proof fn lemma_other_operations_signed_by_one(
    s: TokenState,
    ctx: CallContext,
    other: CallContext,
    owner: AccountId,
    to: AccountId,
    amount: i128,
)
    ensures
        ctx.authorizes(owner) ==> burn_refusal(s, ctx, owner, amount) != Some(
            TokenError::Unauthorized,
        ),
        !ctx.authorizes(owner) ==> burn_refusal(s, ctx, owner, amount) == Some(
            TokenError::Unauthorized,
        ),
        ctx.authorizes(owner) == other.authorizes(owner) ==> burn_refusal(s, ctx, owner, amount)
            == burn_refusal(s, other, owner, amount),
        ctx.authorizes(owner) ==> approve_refusal(ctx, owner, amount) != Some(
            TokenError::Unauthorized,
        ),
        !ctx.authorizes(owner) ==> approve_refusal(ctx, owner, amount) == Some(
            TokenError::Unauthorized,
        ),
        s.admin matches Some(a) && ctx.authorizes(a) ==> mint_refusal(s, ctx, to, amount) != Some(
            TokenError::Unauthorized,
        ) && admin_refusal(s, ctx) is None,
        s.admin matches Some(a) && !ctx.authorizes(a) ==> mint_refusal(s, ctx, to, amount) == Some(
            TokenError::Unauthorized,
        ) && admin_refusal(s, ctx) == Some(TokenError::Unauthorized),
{
}

} // verus!
