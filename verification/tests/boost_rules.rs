use tycoon::{
    Boost, BoostError, BoostEvent, BoostExpiredEvent, BoostType, BoostsClearedEvent, CallContext,
    DeprecatedFunctionCalledEvent, TycoonBoostSystem,
};

const ADMIN: u64 = 50;
const P: u64 = 51;
const Q: u64 = 52;

fn at(sequence: u32) -> CallContext {
    CallContext::new(sequence, vec![ADMIN, P, Q])
}

fn system() -> TycoonBoostSystem {
    let mut s = TycoonBoostSystem::new();
    s.initialize(&at(0), ADMIN).unwrap();
    s
}

fn b(id: u128, boost_type: BoostType, value: u32, priority: u32, expires: u32) -> Boost {
    Boost { id, boost_type, value, priority, expires_at_ledger: expires }
}

#[test]
fn stacking_rules_on_lists() {
    assert_eq!(TycoonBoostSystem::apply_stacking_rules(&vec![]), 10000);
    let mixed = vec![
        b(1, BoostType::Multiplicative, 15000, 0, 0),
        b(2, BoostType::Multiplicative, 12000, 0, 0),
        b(3, BoostType::Additive, 1000, 0, 0),
        b(4, BoostType::Additive, 500, 0, 0),
    ];
    // 10000 * 1.5 = 15000; * 1.2 = 18000; * (1 + 0.15) = 20700
    assert_eq!(TycoonBoostSystem::apply_stacking_rules(&mixed), 20700);
    // multiplicative steps round down: 10000 * 3333 / 10000 = 3333; 3333 * 3333 / 10000 = 1110
    let rounding = vec![b(1, BoostType::Multiplicative, 3333, 0, 0), b(2, BoostType::Multiplicative, 3333, 0, 0)];
    assert_eq!(TycoonBoostSystem::apply_stacking_rules(&rounding), 1110);
}

#[test]
fn override_highest_priority_wins_first_on_ties() {
    let list = vec![
        b(1, BoostType::Override, 30000, 5, 0),
        b(2, BoostType::Additive, 9000, 0, 0),
        b(3, BoostType::Override, 40000, 9, 0),
        b(4, BoostType::Override, 50000, 9, 0),
        b(5, BoostType::Override, 60000, 2, 0),
    ];
    assert_eq!(TycoonBoostSystem::apply_stacking_rules(&list), 40000);
}

#[test]
fn expired_boosts_have_no_effect() {
    let mut s = system();
    s.add_boost(&at(10), P, b(1, BoostType::Additive, 2000, 0, 0)).unwrap();
    s.add_boost(&at(10), P, b(2, BoostType::Override, 90000, 1, 20)).unwrap();
    assert_eq!(s.calculate_total_boost(&at(19), P), 90000);
    assert_eq!(s.calculate_total_boost(&at(20), P), 12000);
    assert_eq!(s.get_active_boosts(&at(20), P).len(), 1);
    assert_eq!(s.get_boosts(P).0.len(), 2);
}

#[test]
fn prune_reports_and_drops_expired() {
    let mut s = system();
    s.add_boost(&at(1), P, b(5, BoostType::Additive, 100, 0, 3)).unwrap();
    s.add_boost(&at(1), P, b(6, BoostType::Additive, 100, 0, 0)).unwrap();
    let (count, events) = s.prune_expired_boosts(&at(3), P);
    assert_eq!(count, 1);
    assert_eq!(
        events,
        vec![
            BoostEvent::DeprecatedCall(DeprecatedFunctionCalledEvent { function_name: 1, caller: P, replacement_hint: 2 }),
            BoostEvent::Expired(BoostExpiredEvent { player: P, boost_id: 5 }),
        ]
    );
    assert_eq!(s.get_boosts(P).0.len(), 1);
    let (again, _) = s.prune_expired_boosts(&at(3), P);
    assert_eq!(again, 0);
}

#[test]
fn get_boosts_reports_deprecation() {
    let s = system();
    let (list, event) = s.get_boosts(Q);
    assert!(list.is_empty());
    assert_eq!(
        event,
        BoostEvent::DeprecatedCall(DeprecatedFunctionCalledEvent { function_name: 3, caller: Q, replacement_hint: 4 })
    );
}

#[test]
fn expired_event_reports_low_32_bits_of_id() {
    let mut s = system();
    let id: u128 = (1u128 << 40) + 7;
    s.add_boost(&at(1), P, b(id, BoostType::Additive, 100, 0, 2)).unwrap();
    let events = s.add_boost(&at(5), P, b(9, BoostType::Additive, 100, 0, 0)).unwrap();
    assert_eq!(events[0], BoostEvent::Expired(BoostExpiredEvent { player: P, boost_id: 7 }));
}

#[test]
fn revoke_twice_is_revoke_once() {
    let mut s = system();
    s.add_boost(&at(0), P, b(1, BoostType::Additive, 100, 0, 0)).unwrap();
    s.add_boost(&at(0), P, b(2, BoostType::Additive, 200, 0, 0)).unwrap();
    assert!(s.admin_revoke_boost(&at(0), P, 1).unwrap().is_some());
    assert_eq!(s.admin_revoke_boost(&at(0), P, 1), Ok(None));
    assert_eq!(s.get_boosts(P).0.len(), 1);
    assert_eq!(s.get_boosts(P).0[0].id, 2);
}

#[test]
fn clear_reports_count_and_isolates_players() {
    let mut s = system();
    s.add_boost(&at(0), P, b(1, BoostType::Additive, 100, 0, 0)).unwrap();
    s.add_boost(&at(0), Q, b(1, BoostType::Additive, 300, 0, 0)).unwrap();
    assert_eq!(s.clear_boosts(&at(0), P), Ok(BoostsClearedEvent { player: P, count: 1 }));
    assert_eq!(s.calculate_total_boost(&at(0), P), 10000);
    assert_eq!(s.calculate_total_boost(&at(0), Q), 10300);
}

#[test]
fn refusals_before_initialization_and_without_signature() {
    let mut s = TycoonBoostSystem::new();
    assert_eq!(s.add_boost(&at(0), P, b(1, BoostType::Additive, 1, 0, 0)), Err(BoostError::NotInitialized));
    assert_eq!(s.clear_boosts(&at(0), P), Err(BoostError::NotInitialized));
    assert_eq!(s.admin_revoke_boost(&at(0), P, 1), Err(BoostError::NotInitialized));
    assert_eq!(BoostError::NotInitialized.message(), "NotInitialized");
    assert_eq!(s.initialize(&CallContext::new(0, vec![P]), ADMIN), Err(BoostError::Unauthorized));
    assert_eq!(BoostError::Unauthorized.message(), "Unauthorized");
    assert_eq!(s.admin(), None);
    s.initialize(&CallContext::new(0, vec![ADMIN]), ADMIN).unwrap();
    let only_admin = CallContext::new(0, vec![ADMIN]);
    assert_eq!(s.add_boost(&only_admin, P, b(1, BoostType::Additive, 1, 0, 0)), Err(BoostError::Unauthorized));
    assert_eq!(s.clear_boosts(&only_admin, P), Err(BoostError::Unauthorized));
    let only_player = CallContext::new(0, vec![P]);
    assert_eq!(s.admin_grant_boost(&only_player, P, b(1, BoostType::Additive, 1, 0, 0)), Err(BoostError::Unauthorized));
    assert_eq!(s.admin_revoke_boost(&only_player, P, 1), Err(BoostError::Unauthorized));
}

#[test]
fn add_boost_is_signed_by_the_player() {
    let mut s = system();
    let only_player = CallContext::new(0, vec![P]);
    assert!(s.add_boost(&only_player, P, b(1, BoostType::Additive, 500, 0, 0)).is_ok());
    assert_eq!(s.calculate_total_boost(&only_player, P), 10500);
    // Another player's signature does not do.
    let only_q = CallContext::new(0, vec![Q]);
    assert_eq!(s.add_boost(&only_q, P, b(2, BoostType::Additive, 500, 0, 0)), Err(BoostError::Unauthorized));
    assert_eq!(s.get_boosts(P).0.len(), 1);
}

#[test]
fn clear_boosts_is_signed_by_the_player() {
    let mut s = system();
    s.admin_grant_boost(&CallContext::new(0, vec![ADMIN]), P, b(1, BoostType::Additive, 500, 0, 0)).unwrap();
    assert_eq!(s.clear_boosts(&CallContext::new(0, vec![Q]), P), Err(BoostError::Unauthorized));
    assert_eq!(s.get_boosts(P).0.len(), 1);
    assert_eq!(s.clear_boosts(&CallContext::new(0, vec![P]), P), Ok(BoostsClearedEvent { player: P, count: 1 }));
    assert_eq!(s.calculate_total_boost(&at(0), P), 10000);
}

#[test]
fn expiry_equal_to_current_ledger_is_refused() {
    let mut s = system();
    assert_eq!(s.add_boost(&at(7), P, b(1, BoostType::Additive, 1, 0, 7)), Err(BoostError::InvalidExpiry));
    assert!(s.add_boost(&at(7), P, b(1, BoostType::Additive, 1, 0, 8)).is_ok());
}

#[test]
fn duplicate_check_ignores_expired_boosts() {
    let mut s = system();
    s.add_boost(&at(1), P, b(1, BoostType::Additive, 100, 0, 5)).unwrap();
    assert_eq!(s.add_boost(&at(4), P, b(1, BoostType::Additive, 100, 0, 0)), Err(BoostError::DuplicateId));
    assert!(s.add_boost(&at(5), P, b(1, BoostType::Additive, 100, 0, 0)).is_ok());
    assert_eq!(s.get_boosts(P).0.len(), 1);
}

#[test]
fn other_boosts_do_not_change_an_override_result() {
    let overrides_only = vec![b(1, BoostType::Override, 30000, 4, 0), b(2, BoostType::Override, 45000, 4, 0)];
    let mixed = vec![
        b(3, BoostType::Additive, 7000, 0, 0),
        b(1, BoostType::Override, 30000, 4, 0),
        b(4, BoostType::Multiplicative, 20000, 0, 0),
        b(2, BoostType::Override, 45000, 4, 0),
        b(5, BoostType::Additive, 100, 0, 0),
    ];
    assert_eq!(TycoonBoostSystem::apply_stacking_rules(&overrides_only), 30000);
    assert_eq!(TycoonBoostSystem::apply_stacking_rules(&mixed), 30000);
}
