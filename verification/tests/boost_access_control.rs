use tycoon::{Boost, BoostError, BoostType, CallContext, TycoonBoostSystem, MAX_BOOSTS_PER_PLAYER};

const ADMIN: u64 = 1;
const PLAYER: u64 = 2;
const PLAYER_B: u64 = 3;

/// Every account of the scenario authorizes the call.
fn signed_by_all(sequence: u32) -> CallContext {
    CallContext::new(sequence, vec![ADMIN, PLAYER, PLAYER_B])
}

fn setup_initialized() -> TycoonBoostSystem {
    let mut system = TycoonBoostSystem::new();
    system.initialize(&signed_by_all(0), ADMIN).unwrap();
    system
}

fn nb(id: u128, boost_type: BoostType, value: u32) -> Boost {
    Boost { id, boost_type, value, priority: 0, expires_at_ledger: 0 }
}

fn eb(id: u128, boost_type: BoostType, value: u32, expires_at_ledger: u32) -> Boost {
    Boost { id, boost_type, value, priority: 0, expires_at_ledger }
}

#[test]
fn test_initialize_sets_admin() {
    let system = setup_initialized();
    assert_eq!(system.admin(), Some(ADMIN));
}

#[test]
fn test_initialize_twice_panics() {
    let mut system = setup_initialized();
    let r = system.initialize(&signed_by_all(0), ADMIN);
    assert_eq!(r, Err(BoostError::AlreadyInitialized));
    assert_eq!(BoostError::AlreadyInitialized.message(), "AlreadyInitialized");
}

#[test]
fn test_admin_grant_boost_succeeds() {
    let mut system = setup_initialized();
    let ctx = signed_by_all(0);
    system.admin_grant_boost(&ctx, PLAYER, nb(1, BoostType::Additive, 500)).unwrap();
    let active = system.get_active_boosts(&ctx, PLAYER);
    assert_eq!(active.len(), 1);
    assert_eq!(active[0].id, 1);
}

#[test]
fn test_admin_grant_boost_emits_event() {
    let mut system = setup_initialized();
    let ctx = signed_by_all(0);
    let events = system
        .admin_grant_boost(&ctx, PLAYER, nb(42, BoostType::Multiplicative, 15000))
        .unwrap();
    assert_eq!(
        events,
        vec![tycoon::BoostEvent::AdminGranted(tycoon::AdminBoostGrantedEvent {
            player: PLAYER,
            boost_id: 42,
            boost_type: BoostType::Multiplicative,
            value: 15000,
            expires_at_ledger: 0,
        })]
    );
    let active = system.get_active_boosts(&ctx, PLAYER);
    assert_eq!(active.len(), 1);
    assert_eq!(active[0].id, 42);
    assert_eq!(active[0].value, 15000);
}

#[test]
fn test_admin_grant_boost_zero_value_panics() {
    let mut system = setup_initialized();
    let r = system.admin_grant_boost(&signed_by_all(0), PLAYER, nb(1, BoostType::Additive, 0));
    assert_eq!(r, Err(BoostError::InvalidValue));
    assert_eq!(BoostError::InvalidValue.message(), "InvalidValue");
}

#[test]
fn test_admin_grant_boost_past_expiry_panics() {
    let mut system = setup_initialized();
    let r = system.admin_grant_boost(&signed_by_all(200), PLAYER, eb(1, BoostType::Additive, 500, 100));
    assert_eq!(r, Err(BoostError::InvalidExpiry));
    assert_eq!(BoostError::InvalidExpiry.message(), "InvalidExpiry");
}

#[test]
fn test_admin_grant_boost_duplicate_id_panics() {
    let mut system = setup_initialized();
    let ctx = signed_by_all(0);
    system.admin_grant_boost(&ctx, PLAYER, nb(1, BoostType::Additive, 500)).unwrap();
    let r = system.admin_grant_boost(&ctx, PLAYER, nb(1, BoostType::Additive, 200));
    assert_eq!(r, Err(BoostError::DuplicateId));
    assert_eq!(BoostError::DuplicateId.message(), "DuplicateId");
}

#[test]
fn test_admin_grant_boost_cap_exceeded_panics() {
    let mut system = setup_initialized();
    let ctx = signed_by_all(0);
    for i in 0..MAX_BOOSTS_PER_PLAYER {
        system.admin_grant_boost(&ctx, PLAYER, nb(i as u128, BoostType::Additive, 100)).unwrap();
    }
    let r = system.admin_grant_boost(
        &ctx,
        PLAYER,
        nb(MAX_BOOSTS_PER_PLAYER as u128, BoostType::Additive, 100),
    );
    assert_eq!(r, Err(BoostError::CapExceeded));
    assert_eq!(BoostError::CapExceeded.message(), "CapExceeded");
}

#[test]
fn test_admin_revoke_boost_removes_boost() {
    let mut system = setup_initialized();
    let ctx = signed_by_all(0);
    system.admin_grant_boost(&ctx, PLAYER, nb(1, BoostType::Additive, 500)).unwrap();
    system.admin_grant_boost(&ctx, PLAYER, nb(2, BoostType::Additive, 300)).unwrap();
    assert_eq!(system.get_active_boosts(&ctx, PLAYER).len(), 2);

    system.admin_revoke_boost(&ctx, PLAYER, 1).unwrap();

    let active = system.get_active_boosts(&ctx, PLAYER);
    assert_eq!(active.len(), 1);
    assert_eq!(active[0].id, 2);
}

#[test]
fn test_admin_revoke_boost_nonexistent_is_noop() {
    let mut system = setup_initialized();
    let ctx = signed_by_all(0);
    system.admin_grant_boost(&ctx, PLAYER, nb(1, BoostType::Additive, 500)).unwrap();
    assert_eq!(system.admin_revoke_boost(&ctx, PLAYER, 999), Ok(None));
    assert_eq!(system.get_active_boosts(&ctx, PLAYER).len(), 1);
}

#[test]
fn test_admin_revoke_boost_emits_event() {
    let mut system = setup_initialized();
    let ctx = signed_by_all(0);
    system.admin_grant_boost(&ctx, PLAYER, nb(7, BoostType::Override, 20000)).unwrap();
    let r = system.admin_revoke_boost(&ctx, PLAYER, 7u128);
    assert_eq!(r, Ok(Some(tycoon::AdminBoostRevokedEvent { player: PLAYER, boost_id: 7 })));
    assert_eq!(
        system.get_active_boosts(&ctx, PLAYER).len(),
        0,
        "Boost should be removed after admin_revoke_boost"
    );
}

#[test]
fn test_add_boost_player_auth_succeeds() {
    let mut system = setup_initialized();
    let ctx = signed_by_all(0);
    system.add_boost(&ctx, PLAYER, nb(1, BoostType::Additive, 1000)).unwrap();
    assert_eq!(system.get_active_boosts(&ctx, PLAYER).len(), 1);
}

#[test]
fn test_clear_boosts_player_auth_succeeds() {
    let mut system = setup_initialized();
    let ctx = signed_by_all(0);
    system.add_boost(&ctx, PLAYER, nb(1, BoostType::Additive, 1000)).unwrap();
    system.add_boost(&ctx, PLAYER, nb(2, BoostType::Additive, 500)).unwrap();
    let cleared = system.clear_boosts(&ctx, PLAYER).unwrap();
    assert_eq!(cleared.count, 2);
    assert_eq!(system.get_active_boosts(&ctx, PLAYER).len(), 0);
}

#[test]
fn test_admin_grant_and_player_add_coexist() {
    let mut system = setup_initialized();
    let ctx = signed_by_all(0);
    system.admin_grant_boost(&ctx, PLAYER, nb(1, BoostType::Additive, 500)).unwrap();
    system.add_boost(&ctx, PLAYER, nb(2, BoostType::Multiplicative, 15000)).unwrap();
    assert_eq!(system.get_active_boosts(&ctx, PLAYER).len(), 2);
}

#[test]
fn test_admin_revoke_does_not_affect_other_players() {
    let mut system = setup_initialized();
    let ctx = signed_by_all(0);
    system.admin_grant_boost(&ctx, PLAYER, nb(1, BoostType::Additive, 500)).unwrap();
    system.admin_grant_boost(&ctx, PLAYER_B, nb(1, BoostType::Additive, 500)).unwrap();
    system.admin_revoke_boost(&ctx, PLAYER, 1).unwrap();
    assert_eq!(system.get_active_boosts(&ctx, PLAYER).len(), 0);
    assert_eq!(system.get_active_boosts(&ctx, PLAYER_B).len(), 1);
}

#[test]
fn test_calculate_total_boost_includes_admin_granted() {
    let mut system = setup_initialized();
    let ctx = signed_by_all(0);
    system.admin_grant_boost(&ctx, PLAYER, nb(1, BoostType::Additive, 5000)).unwrap();
    assert_eq!(system.calculate_total_boost(&ctx, PLAYER), 15000);
}

#[test]
fn test_calculate_total_boost_excludes_revoked() {
    let mut system = setup_initialized();
    let ctx = signed_by_all(0);
    system.admin_grant_boost(&ctx, PLAYER, nb(1, BoostType::Additive, 5000)).unwrap();
    system.admin_revoke_boost(&ctx, PLAYER, 1).unwrap();
    assert_eq!(system.calculate_total_boost(&ctx, PLAYER), 10000);
}

#[test]
fn test_admin_view_returns_correct_address() {
    let system = setup_initialized();
    assert_eq!(system.admin(), Some(ADMIN));
}

#[test]
fn test_admin_grant_boost_rejects_without_auth() {
    let mut system = setup_initialized();
    let unsigned = CallContext::new(0, vec![]);
    let r = system.admin_grant_boost(&unsigned, PLAYER, nb(1, BoostType::Additive, 500));
    assert_eq!(r, Err(BoostError::Unauthorized));
    assert_eq!(system.get_boosts(PLAYER).0.len(), 0);
}

#[test]
fn test_admin_revoke_boost_rejects_without_auth() {
    let mut system = setup_initialized();
    system.admin_grant_boost(&signed_by_all(0), PLAYER, nb(1, BoostType::Additive, 500)).unwrap();
    let unsigned = CallContext::new(0, vec![]);
    let r = system.admin_revoke_boost(&unsigned, PLAYER, 1u128);
    assert_eq!(r, Err(BoostError::Unauthorized));
    assert_eq!(system.get_boosts(PLAYER).0.len(), 1);
}

fn additive(id: u128, value: u32) -> Boost {
    Boost { id, boost_type: BoostType::Additive, value, priority: 0, expires_at_ledger: 0 }
}

#[test]
fn additive_bonus_wraps_at_32_bits() {
    let mut system = setup_initialized();
    let ctx = signed_by_all(0);
    let per_boost: u32 = u32::MAX / 10 + 1;
    for i in 0..10u128 {
        system.add_boost(&ctx, PLAYER, additive(i, per_boost)).unwrap();
    }
    // 10 x 429_496_730 = 4_294_967_300 wraps to 4 in 32 bits: 10000 * 10004 / 10000.
    assert_eq!(system.calculate_total_boost(&ctx, PLAYER), 10004);
}

#[test]
fn test_mixed_overflow_truncates() {
    let mut system = setup_initialized();
    let ctx = signed_by_all(0);
    let large = u32::MAX / 2;
    system
        .add_boost(&ctx, PLAYER, Boost {
            id: 1,
            boost_type: BoostType::Multiplicative,
            value: large,
            priority: 0,
            expires_at_ledger: 0,
        })
        .unwrap();
    system
        .add_boost(&ctx, PLAYER, Boost {
            id: 2,
            boost_type: BoostType::Multiplicative,
            value: large,
            priority: 0,
            expires_at_ledger: 0,
        })
        .unwrap();

    let total = system.calculate_total_boost(&ctx, PLAYER);

    let step1 = 10000u64 * large as u64 / 10000;
    let step2 = step1 * large as u64 / 10000;
    let correct_u64 = step2 * 10000 / 10000;

    if correct_u64 > u32::MAX as u64 {
        assert_eq!(total, correct_u64 as u32, "SEC-03: truncation behavior changed — update checklist");
    }
}
