use std::cell::RefCell;
use std::collections::HashSet;
use stealth_sidecar::common::{
    EpochInfo, MandatorySubnetSource, StealthConfig, StealthError, SubnetId,
};
use stealth_sidecar::prng::Prng;
use stealth_sidecar::subnet_juggler::{
    CommandOutcome, JugglerPhase, NetworkingProvider, SubnetCommand, SubnetEvent, SubnetJuggler,
    TickOutcome,
};

struct MockProvider {
    subscribed_subnets: RefCell<HashSet<u8>>,
    epoch: RefCell<u64>,
    mandatory: RefCell<Vec<SubnetId>>,
    refuse_subscribe: RefCell<HashSet<u8>>,
    refuse_unsubscribe: RefCell<HashSet<u8>>,
    fail_epoch: RefCell<bool>,
}

impl MockProvider {
    fn new() -> Self {
        Self {
            subscribed_subnets: RefCell::new(HashSet::new()),
            epoch: RefCell::new(100),
            mandatory: RefCell::new(vec![SubnetId(0), SubnetId(1)]),
            refuse_subscribe: RefCell::new(HashSet::new()),
            refuse_unsubscribe: RefCell::new(HashSet::new()),
            fail_epoch: RefCell::new(false),
        }
    }
}

impl NetworkingProvider for &MockProvider {
    fn subscribe_to_subnet(&self, subnet_id: SubnetId) -> Result<(), StealthError> {
        if self.refuse_subscribe.borrow().contains(&subnet_id.0) {
            return Err(StealthError::SubnetManagement("refused".to_string()));
        }
        self.subscribed_subnets.borrow_mut().insert(subnet_id.0);
        Ok(())
    }

    fn unsubscribe_from_subnet(&self, subnet_id: SubnetId) -> Result<(), StealthError> {
        if self.refuse_unsubscribe.borrow().contains(&subnet_id.0) {
            return Err(StealthError::SubnetManagement("refused".to_string()));
        }
        self.subscribed_subnets.borrow_mut().remove(&subnet_id.0);
        Ok(())
    }

    fn get_current_epoch_info(&self) -> Result<EpochInfo, StealthError> {
        if *self.fail_epoch.borrow() {
            return Err(StealthError::Network("unreachable".to_string()));
        }
        let epoch = *self.epoch.borrow();
        Ok(EpochInfo { epoch, slot: epoch * 32, slots_per_epoch: 32, seconds_per_slot: 12 })
    }

    fn get_validator_subnets(&self, _validator_pubkey: &str) -> Result<Vec<SubnetId>, StealthError> {
        Ok(self.mandatory.borrow().clone())
    }
}

fn config_with(k: usize) -> StealthConfig {
    let mut config = StealthConfig::default();
    config.extra_subnets_per_epoch = k;
    config
}

fn ids(list: Vec<SubnetId>) -> HashSet<u8> {
    list.into_iter().map(|s| s.0).collect()
}

fn extras<P: NetworkingProvider>(juggler: &SubnetJuggler<P>) -> HashSet<u8> {
    ids(juggler.get_state().extra_subnets.to_vec())
}

fn mandatory<P: NetworkingProvider>(juggler: &SubnetJuggler<P>) -> HashSet<u8> {
    ids(juggler.get_state().mandatory_subnets.to_vec())
}

fn subscribed<P: NetworkingProvider>(juggler: &SubnetJuggler<P>) -> HashSet<u8> {
    ids(juggler.get_state().subscribed_subnets.to_vec())
}

fn check_invariants<P: NetworkingProvider>(juggler: &SubnetJuggler<P>, k: usize) {
    let m = mandatory(juggler);
    let e = extras(juggler);
    let s = subscribed(juggler);
    assert!(e.len() <= k.min(64 - m.len()));
    assert!(m.is_disjoint(&e));
    let union: HashSet<u8> = m.union(&e).cloned().collect();
    assert_eq!(s, union);
    assert!(s.iter().all(|id| *id <= 63));
}

#[test]
fn test_subnet_juggler_initialization() {
    let provider = MockProvider::new();
    let mut juggler = SubnetJuggler::new(StealthConfig::default(), &provider, Prng::from_seed(1));

    assert!(juggler.initialize(1_000).is_ok());
    assert_eq!(juggler.get_state().current_epoch, 100);
    assert_eq!(juggler.get_state().mandatory_subnets.len(), 2);
    assert!(juggler.get_state().extra_subnets.len() > 0);
}

#[test]
fn test_subnet_reshuffle() {
    let provider = MockProvider::new();
    let mut juggler = SubnetJuggler::new(StealthConfig::default(), &provider, Prng::from_seed(1));
    juggler.initialize(1_000).unwrap();

    let initial_extra_subnets = extras(&juggler);

    let report = juggler.reshuffle_extra_subnets(1_001);

    assert_ne!(initial_extra_subnets, extras(&juggler));
    assert_eq!(report.selected.len(), 8);
    assert_eq!(report.joined.len(), 8);
}

#[test]
fn initialization_sets_up_state_and_timer() {
    let provider = MockProvider::new();
    let mut juggler = SubnetJuggler::new(config_with(8), &provider, Prng::from_seed(3));
    assert_eq!(juggler.get_phase(), JugglerPhase::Uninitialized);
    juggler.initialize(5_000).unwrap();
    assert_eq!(juggler.get_phase(), JugglerPhase::Running);
    let state = juggler.get_state();
    assert_eq!(state.next_reshuffle, 5_384);
    assert_eq!(state.last_reshuffle, 5_000);
    assert_eq!(mandatory(&juggler), [0u8, 1].into_iter().collect());
    assert_eq!(extras(&juggler).len(), 8);
    check_invariants(&juggler, 8);
    let at_engine = provider.subscribed_subnets.borrow().clone();
    assert_eq!(at_engine, subscribed(&juggler));
    let events = juggler.take_events();
    assert_eq!(events.len(), 1);
    match &events[0] {
        SubnetEvent::SubnetsJoined(list) => assert_eq!(ids(list.clone()), extras(&juggler)),
        other => panic!("unexpected event {:?}", other),
    }
}

#[test]
fn initializing_twice_is_refused() {
    let provider = MockProvider::new();
    let mut juggler = SubnetJuggler::new(config_with(8), &provider, Prng::from_seed(3));
    juggler.initialize(5_000).unwrap();
    let before = extras(&juggler);
    match juggler.initialize(6_000) {
        Err(StealthError::Internal(m)) => assert_eq!(m, "Juggler is already initialized"),
        other => panic!("unexpected result {:?}", other),
    }
    assert_eq!(before, extras(&juggler));
}

#[test]
fn failed_initialization_leaves_the_juggler_untouched() {
    let provider = MockProvider::new();
    *provider.fail_epoch.borrow_mut() = true;
    let mut juggler = SubnetJuggler::new(config_with(8), &provider, Prng::from_seed(3));
    assert!(juggler.initialize(5_000).is_err());
    assert_eq!(juggler.get_phase(), JugglerPhase::Uninitialized);
    assert!(subscribed(&juggler).is_empty());
    *provider.fail_epoch.borrow_mut() = false;
    provider.refuse_subscribe.borrow_mut().insert(1);
    assert!(juggler.initialize(5_000).is_err());
    assert_eq!(juggler.get_phase(), JugglerPhase::Uninitialized);
    assert!(mandatory(&juggler).is_empty());
    provider.refuse_subscribe.borrow_mut().clear();
    assert!(juggler.initialize(5_000).is_ok());
}

#[test]
fn reshuffle_is_reproducible_from_a_seed() {
    let provider_a = MockProvider::new();
    let provider_b = MockProvider::new();
    let mut a = SubnetJuggler::new(config_with(8), &provider_a, Prng::from_seed(42));
    let mut b = SubnetJuggler::new(config_with(8), &provider_b, Prng::from_seed(42));
    a.initialize(0).unwrap();
    b.initialize(0).unwrap();
    let first = a.get_state().extra_subnets.to_vec();
    assert_eq!(first, b.get_state().extra_subnets.to_vec());
    assert_eq!(first.len(), 8);
    assert!(first.iter().all(|s| s.0 >= 2 && s.0 <= 63));
    let mut c = SubnetJuggler::new(config_with(8), &provider_a, Prng::from_seed(43));
    c.initialize(0).unwrap();
    assert_ne!(first, c.get_state().extra_subnets.to_vec());
}

#[test]
fn no_extras_with_a_quota_of_zero() {
    let provider = MockProvider::new();
    let mut juggler = SubnetJuggler::new(config_with(0), &provider, Prng::from_seed(5));
    juggler.initialize(0).unwrap();
    assert!(extras(&juggler).is_empty());
    assert_eq!(subscribed(&juggler), mandatory(&juggler));
    let report = juggler.reshuffle_extra_subnets(10);
    assert!(report.selected.is_empty());
    assert!(extras(&juggler).is_empty());
    *provider.epoch.borrow_mut() = 101;
    assert!(juggler.handle_epoch_boundary(20).is_ok());
    assert_eq!(juggler.get_state().current_epoch, 101);
    assert!(extras(&juggler).is_empty());
    let added = juggler.add_subnets(&vec![SubnetId(9)]);
    assert!(added.changed.is_empty());
    check_invariants(&juggler, 0);
}

#[test]
fn a_full_quota_takes_every_subnet_that_is_not_mandatory() {
    let provider = MockProvider::new();
    let mut config = config_with(62);
    config.mandatory_subnet_source = MandatorySubnetSource::Static(vec![SubnetId(0), SubnetId(1)]);
    let mut juggler = SubnetJuggler::new(config, &provider, Prng::from_seed(5));
    juggler.initialize(0).unwrap();
    let all: HashSet<u8> = (2u8..64).collect();
    assert_eq!(extras(&juggler), all);
    *provider.epoch.borrow_mut() = 101;
    juggler.handle_epoch_boundary(400).unwrap();
    assert_eq!(extras(&juggler), all);
    assert_eq!(juggler.get_state().current_epoch, 101);
    assert_eq!(juggler.get_state().last_reshuffle, 400);
    check_invariants(&juggler, 62);
}

#[test]
fn the_quota_is_clamped_to_the_room_beside_the_mandatory_subnets() {
    let provider = MockProvider::new();
    let mut config = config_with(1_000);
    let many: Vec<SubnetId> = (0u8..60).map(SubnetId).collect();
    config.mandatory_subnet_source = MandatorySubnetSource::Static(many);
    let mut juggler = SubnetJuggler::new(config, &provider, Prng::from_seed(5));
    juggler.initialize(0).unwrap();
    assert_eq!(extras(&juggler), (60u8..64).collect());
    check_invariants(&juggler, 1_000);
}

#[test]
fn the_same_epoch_skips_the_reshuffle() {
    let provider = MockProvider::new();
    let mut juggler = SubnetJuggler::new(config_with(8), &provider, Prng::from_seed(3));
    juggler.initialize(5_000).unwrap();
    juggler.take_events();
    let before = juggler.get_state().extra_subnets.to_vec();
    assert!(juggler.handle_epoch_boundary(5_100).is_ok());
    assert_eq!(before, juggler.get_state().extra_subnets.to_vec());
    assert_eq!(juggler.get_state().last_reshuffle, 5_000);
    assert_eq!(juggler.get_state().next_reshuffle, 5_484);
    assert!(juggler.take_events().is_empty());
}

#[test]
fn a_new_epoch_reshuffles_and_announces() {
    let provider = MockProvider::new();
    let mut juggler = SubnetJuggler::new(config_with(8), &provider, Prng::from_seed(3));
    juggler.initialize(5_000).unwrap();
    juggler.take_events();
    let before = extras(&juggler);
    *provider.epoch.borrow_mut() = 101;
    assert!(juggler.handle_epoch_boundary(5_384).is_ok());
    assert_eq!(juggler.get_state().current_epoch, 101);
    assert_eq!(juggler.get_state().last_reshuffle, 5_384);
    let after = extras(&juggler);
    assert_eq!(after.len(), 8);
    check_invariants(&juggler, 8);
    let at_engine = provider.subscribed_subnets.borrow().clone();
    assert_eq!(at_engine, subscribed(&juggler));
    for s in before.difference(&after) {
        assert!(!at_engine.contains(s));
    }
    let events = juggler.take_events();
    assert_eq!(events.len(), 3);
    assert!(matches!(&events[0], SubnetEvent::SubnetsLeft(list) if ids(list.clone()) == before));
    assert!(matches!(&events[1], SubnetEvent::SubnetsJoined(list) if ids(list.clone()) == after));
    match &events[2] {
        SubnetEvent::EpochReshuffle { epoch, new_subnets } => {
            assert_eq!(*epoch, 101);
            assert_eq!(ids(new_subnets.clone()), after);
        }
        other => panic!("unexpected event {:?}", other),
    }
}

#[test]
fn an_epoch_tick_before_initialization_is_refused() {
    let provider = MockProvider::new();
    let mut juggler = SubnetJuggler::new(config_with(8), &provider, Prng::from_seed(3));
    match juggler.handle_epoch_boundary(0) {
        Err(StealthError::Internal(m)) => assert_eq!(m, "Juggler is not running"),
        other => panic!("unexpected result {:?}", other),
    }
}

#[test]
fn a_provider_error_at_the_boundary_changes_nothing() {
    let provider = MockProvider::new();
    let mut juggler = SubnetJuggler::new(config_with(8), &provider, Prng::from_seed(3));
    juggler.initialize(5_000).unwrap();
    let before = juggler.get_state().extra_subnets.to_vec();
    *provider.fail_epoch.borrow_mut() = true;
    assert!(juggler.handle_epoch_boundary(5_384).is_err());
    assert_eq!(before, juggler.get_state().extra_subnets.to_vec());
    assert_eq!(juggler.get_state().current_epoch, 100);
}

#[test]
fn changed_mandatory_subnets_are_taken_up_at_the_boundary() {
    let provider = MockProvider::new();
    let mut juggler = SubnetJuggler::new(config_with(8), &provider, Prng::from_seed(3));
    juggler.initialize(0).unwrap();
    *provider.mandatory.borrow_mut() = vec![SubnetId(1), SubnetId(5), SubnetId(200)];
    *provider.epoch.borrow_mut() = 101;
    juggler.handle_epoch_boundary(400).unwrap();
    assert_eq!(mandatory(&juggler), [1u8, 5].into_iter().collect());
    assert!(!subscribed(&juggler).contains(&0) || extras(&juggler).contains(&0));
    check_invariants(&juggler, 8);
    let at_engine = provider.subscribed_subnets.borrow().clone();
    assert_eq!(at_engine, subscribed(&juggler));
}

#[test]
fn adding_twice_is_adding_once() {
    let provider = MockProvider::new();
    let mut config = config_with(8);
    config.mandatory_subnet_source = MandatorySubnetSource::Static(vec![SubnetId(0), SubnetId(1)]);
    let mut juggler = SubnetJuggler::new(config, &provider, Prng::from_seed(3));
    let report = juggler.add_subnets(&vec![SubnetId(7)]);
    assert_eq!(report.changed, vec![SubnetId(7)]);
    let once = juggler.get_state().extra_subnets.to_vec();
    let again = juggler.add_subnets(&vec![SubnetId(7)]);
    assert!(again.changed.is_empty());
    assert_eq!(once, juggler.get_state().extra_subnets.to_vec());
    check_invariants(&juggler, 8);
}

#[test]
fn adding_and_removing_restores_the_state() {
    let provider = MockProvider::new();
    let mut juggler = SubnetJuggler::new(config_with(9), &provider, Prng::from_seed(3));
    juggler.initialize(0).unwrap();
    juggler.remove_subnets(&juggler.get_state().extra_subnets.to_vec()[..1].to_vec());
    let before_extra = extras(&juggler);
    let before_subscribed = subscribed(&juggler);
    let free = (2u8..64).find(|id| !before_extra.contains(id)).unwrap();
    let added = juggler.add_subnets(&vec![SubnetId(free)]);
    assert_eq!(added.changed, vec![SubnetId(free)]);
    assert!(extras(&juggler).contains(&free));
    let removed = juggler.remove_subnets(&vec![SubnetId(free)]);
    assert_eq!(removed.changed, vec![SubnetId(free)]);
    assert_eq!(before_extra, extras(&juggler));
    assert_eq!(before_subscribed, subscribed(&juggler));
}

#[test]
fn add_respects_the_quota_and_skips_what_cannot_be_added() {
    let provider = MockProvider::new();
    let mut config = config_with(2);
    config.mandatory_subnet_source = MandatorySubnetSource::Static(vec![SubnetId(0), SubnetId(1)]);
    let mut juggler = SubnetJuggler::new(config, &provider, Prng::from_seed(3));
    juggler.update_mandatory(&vec![SubnetId(0), SubnetId(1)]);
    provider.refuse_subscribe.borrow_mut().insert(11);
    let report = juggler.add_subnets(&vec![
        SubnetId(0),
        SubnetId(64),
        SubnetId(10),
        SubnetId(10),
        SubnetId(11),
        SubnetId(11),
        SubnetId(12),
        SubnetId(13),
    ]);
    assert_eq!(report.changed, vec![SubnetId(10), SubnetId(12)]);
    assert_eq!(report.refused, vec![SubnetId(11)]);
    assert_eq!(extras(&juggler), [10u8, 12].into_iter().collect());
    check_invariants(&juggler, 2);
    let events = juggler.take_events();
    assert_eq!(events.len(), 2);
    match &events[0] {
        SubnetEvent::Error(m) => assert_eq!(m, "Failed to subscribe to 1 subnets"),
        other => panic!("unexpected event {:?}", other),
    }
    assert!(matches!(&events[1], SubnetEvent::SubnetsJoined(list) if *list == vec![SubnetId(10), SubnetId(12)]));
}

#[test]
fn remove_never_takes_a_mandatory_subnet() {
    let provider = MockProvider::new();
    let mut juggler = SubnetJuggler::new(config_with(8), &provider, Prng::from_seed(3));
    juggler.initialize(0).unwrap();
    juggler.take_events();
    let some_extra = juggler.get_state().extra_subnets.to_vec()[0];
    provider.refuse_unsubscribe.borrow_mut().insert(some_extra.0);
    let other_extra = juggler.get_state().extra_subnets.to_vec()[1];
    let report = juggler.remove_subnets(&vec![SubnetId(0), SubnetId(1), some_extra, other_extra]);
    assert_eq!(report.changed, vec![other_extra]);
    assert_eq!(report.refused, vec![some_extra]);
    assert_eq!(mandatory(&juggler), [0u8, 1].into_iter().collect());
    assert!(extras(&juggler).contains(&some_extra.0));
    assert!(!extras(&juggler).contains(&other_extra.0));
    check_invariants(&juggler, 8);
    let events = juggler.take_events();
    assert_eq!(events.len(), 2);
    assert!(matches!(&events[0], SubnetEvent::SubnetsLeft(list) if *list == vec![other_extra]));
    match &events[1] {
        SubnetEvent::Error(m) => assert_eq!(m, "Failed to unsubscribe from 1 subnets"),
        other => panic!("unexpected event {:?}", other),
    }
}

#[test]
fn a_subnet_that_cannot_be_left_stays_an_extra() {
    let provider = MockProvider::new();
    let mut juggler = SubnetJuggler::new(config_with(8), &provider, Prng::from_seed(3));
    juggler.initialize(0).unwrap();
    let stuck = juggler.get_state().extra_subnets.to_vec()[0];
    provider.refuse_unsubscribe.borrow_mut().insert(stuck.0);
    let before = extras(&juggler);
    let report = juggler.reshuffle_extra_subnets(10);
    assert_eq!(report.stuck, vec![stuck]);
    assert_eq!(report.left.len(), 7);
    assert_eq!(report.selected.len(), 7);
    let after = extras(&juggler);
    assert!(after.contains(&stuck.0));
    assert_eq!(after.len(), 8);
    for s in before.iter() {
        assert!(after.contains(s) || report.left.contains(&SubnetId(*s)));
    }
    check_invariants(&juggler, 8);
    let at_engine = provider.subscribed_subnets.borrow().clone();
    assert_eq!(at_engine, subscribed(&juggler));
}

#[test]
fn a_subnet_that_cannot_be_joined_is_no_extra() {
    let provider = MockProvider::new();
    for id in 2u8..40 {
        provider.refuse_subscribe.borrow_mut().insert(id);
    }
    let mut juggler = SubnetJuggler::new(config_with(8), &provider, Prng::from_seed(3));
    juggler.initialize(0).unwrap();
    let report = juggler.reshuffle_extra_subnets(10);
    assert_eq!(report.selected.len(), 8);
    assert!(report.joined.iter().all(|s| s.0 >= 40));
    assert_eq!(extras(&juggler), ids(report.joined.clone()));
    check_invariants(&juggler, 8);
    let at_engine = provider.subscribed_subnets.borrow().clone();
    assert_eq!(at_engine, subscribed(&juggler));
}

#[test]
fn commands_are_carried_out() {
    let provider = MockProvider::new();
    let mut juggler = SubnetJuggler::new(config_with(8), &provider, Prng::from_seed(3));
    juggler.initialize(0).unwrap();
    let before = juggler.get_state().extra_subnets.to_vec();
    assert!(juggler.handle_command(SubnetCommand::GetStatus, 5).is_ok());
    assert_eq!(before, juggler.get_state().extra_subnets.to_vec());
    assert!(juggler.handle_command(SubnetCommand::ForceReshuffle, 6).is_ok());
    assert_eq!(juggler.get_state().last_reshuffle, 6);
    let extra = juggler.get_state().extra_subnets.to_vec()[0];
    assert!(juggler.handle_command(SubnetCommand::RemoveSubnets(vec![extra]), 7).is_ok());
    assert!(!extras(&juggler).contains(&extra.0));
    assert!(juggler.handle_command(SubnetCommand::AddSubnets(vec![extra]), 8).is_ok());
    assert!(extras(&juggler).contains(&extra.0));
    match juggler.handle_command(SubnetCommand::Stop, 9) {
        Err(StealthError::SubnetManagement(m)) => assert_eq!(m, "Stop requested"),
        other => panic!("unexpected result {:?}", other),
    }
    assert_eq!(juggler.get_phase(), JugglerPhase::ShuttingDown);
    let snapshot = juggler.status();
    assert_eq!(snapshot.current_epoch, 100);
    assert_eq!(ids(snapshot.extra_subnets.to_vec()), extras(&juggler));
}

#[test]
fn cleanup_leaves_the_mandatory_subnets_and_runs_once() {
    let provider = MockProvider::new();
    let mut juggler = SubnetJuggler::new(config_with(8), &provider, Prng::from_seed(3));
    juggler.initialize(0).unwrap();
    juggler.take_events();
    let before = extras(&juggler);
    let left = juggler.cleanup();
    assert_eq!(ids(left.clone()), before);
    assert_eq!(juggler.get_phase(), JugglerPhase::Stopped);
    assert!(extras(&juggler).is_empty());
    assert_eq!(mandatory(&juggler), [0u8, 1].into_iter().collect());
    let at_engine = provider.subscribed_subnets.borrow().clone();
    assert_eq!(at_engine, [0u8, 1].into_iter().collect());
    assert_eq!(juggler.take_events().len(), 1);
    assert!(juggler.cleanup().is_empty());
    assert!(juggler.take_events().is_empty());
}

#[test]
fn selection_covers_all_subnets_over_many_reshuffles() {
    let provider = MockProvider::new();
    let mut juggler = SubnetJuggler::new(config_with(8), &provider, Prng::from_seed(2024));
    juggler.initialize(0).unwrap();
    let mut counts = [0u32; 64];
    let rounds = 2_000;
    for round in 0..rounds {
        let report = juggler.reshuffle_extra_subnets(round);
        assert_eq!(report.joined.len(), 8);
        for s in report.joined {
            counts[s.0 as usize] += 1;
        }
    }
    assert_eq!(counts[0], 0);
    assert_eq!(counts[1], 0);
    let expected = (rounds as f64) * 8.0 / 62.0;
    for id in 2..64 {
        let seen = counts[id] as f64;
        assert!(seen > expected * 0.7 && seen < expected * 1.3, "subnet {} seen {} times", id, seen);
    }
}

#[test]
fn first_reshuffle_from_seed_42_gives_the_known_extras() {
    let provider = MockProvider::new();
    let mut config = config_with(8);
    config.mandatory_subnet_source = MandatorySubnetSource::Static(vec![SubnetId(0), SubnetId(1)]);
    let mut juggler = SubnetJuggler::new(config, &provider, Prng::from_seed(42));
    juggler.initialize(0).unwrap();
    let first: Vec<u8> = juggler.get_state().extra_subnets.to_vec().iter().map(|s| s.0).collect();
    assert_eq!(first, vec![41, 51, 44, 36, 25, 53, 61, 33]);
}

#[test]
fn outcomes_tell_what_was_done() {
    let provider = MockProvider::new();
    let mut juggler = SubnetJuggler::new(config_with(8), &provider, Prng::from_seed(3));
    let started = juggler.initialize(50).unwrap();
    assert_eq!(started.info.epoch, 100);
    let change = started.change.expect("a first choice of extras");
    assert_eq!(change.mandatory, vec![SubnetId(0), SubnetId(1)]);
    assert_eq!(change.failures, (0, 0));
    assert_eq!(ids(change.reshuffle.joined), extras(&juggler));
    assert!(change.reshuffle.left.is_empty());

    let same = juggler.process_tick(60).expect("the provider answers");
    assert!(same.change.is_none());
    *provider.epoch.borrow_mut() = 102;
    let next = juggler.process_tick(70).expect("the provider answers");
    assert_eq!(next.info.epoch, 102);
    assert_eq!(next.change.unwrap().reshuffle.left.len(), 8);
    juggler.take_events();
    *provider.fail_epoch.borrow_mut() = true;
    assert!(juggler.process_tick(80).is_none());
    let events = juggler.take_events();
    assert_eq!(events.len(), 1);
    match &events[0] {
        SubnetEvent::Error(m) => assert_eq!(m, "Network error: unreachable"),
        other => panic!("unexpected event {:?}", other),
    }

    match juggler.process_command(SubnetCommand::GetStatus, 90) {
        Some(CommandOutcome::Status(state)) => {
            assert_eq!(state.current_epoch, 102);
            assert_eq!(ids(state.extra_subnets.to_vec()), extras(&juggler));
        }
        other => panic!("unexpected outcome {:?}", other),
    }
    match juggler.process_command(SubnetCommand::ForceReshuffle, 91) {
        Some(CommandOutcome::Reshuffled(report)) => assert_eq!(report.selected.len(), 8),
        other => panic!("unexpected outcome {:?}", other),
    }
    let extra = juggler.get_state().extra_subnets.to_vec()[0];
    match juggler.process_command(SubnetCommand::RemoveSubnets(vec![extra]), 92) {
        Some(CommandOutcome::Removed(report)) => assert_eq!(report.changed, vec![extra]),
        other => panic!("unexpected outcome {:?}", other),
    }
    match juggler.process_command(SubnetCommand::AddSubnets(vec![extra]), 93) {
        Some(CommandOutcome::Added(report)) => assert_eq!(report.changed, vec![extra]),
        other => panic!("unexpected outcome {:?}", other),
    }
    assert!(juggler.process_command(SubnetCommand::Stop, 94).is_none());
    assert_eq!(juggler.get_phase(), JugglerPhase::ShuttingDown);
}

struct Broken;

impl NetworkingProvider for Broken {
    fn subscribe_to_subnet(&self, _s: SubnetId) -> Result<(), StealthError> {
        Ok(())
    }

    fn unsubscribe_from_subnet(&self, _s: SubnetId) -> Result<(), StealthError> {
        Ok(())
    }

    fn get_current_epoch_info(&self) -> Result<EpochInfo, StealthError> {
        Ok(EpochInfo { epoch: 1, slot: 32, slots_per_epoch: 0, seconds_per_slot: 12 })
    }

    fn get_validator_subnets(&self, _k: &str) -> Result<Vec<SubnetId>, StealthError> {
        Ok(vec![])
    }
}

#[test]
fn malformed_epoch_information_is_refused() {
    let mut juggler = SubnetJuggler::new(config_with(8), Broken, Prng::from_seed(3));
    match juggler.initialize(0) {
        Err(StealthError::ProviderApi(m)) => assert_eq!(m, "Malformed epoch information"),
        other => panic!("unexpected result {:?}", other),
    }
    assert_eq!(juggler.get_phase(), JugglerPhase::Uninitialized);
}

fn info_of(epoch: u64) -> EpochInfo {
    EpochInfo { epoch, slot: epoch * 32, slots_per_epoch: 32, seconds_per_slot: 12 }
}

#[test]
fn service_starts_exactly_on_good_answers() {
    let provider = MockProvider::new();
    let list = vec![SubnetId(0), SubnetId(1)];

    let mut juggler = SubnetJuggler::new(config_with(8), &provider, Prng::from_seed(1));
    let broken = EpochInfo { epoch: 100, slot: 3200, slots_per_epoch: 0, seconds_per_slot: 12 };
    match juggler.start_with(broken, &list, Ok(()), 1_000) {
        Err(StealthError::ProviderApi(m)) => assert_eq!(m, "Malformed epoch information"),
        other => panic!("unexpected result: {:?}", other),
    }
    assert_eq!(juggler.get_phase(), JugglerPhase::Uninitialized);
    assert!(juggler.take_events().is_empty());

    let refusal = StealthError::SubnetManagement("refused".to_string());
    match juggler.start_with(info_of(100), &list, Err(refusal), 1_000) {
        Err(StealthError::SubnetManagement(m)) => assert_eq!(m, "refused"),
        other => panic!("unexpected result: {:?}", other),
    }
    assert_eq!(juggler.get_phase(), JugglerPhase::Uninitialized);
    assert_eq!(juggler.get_state().current_epoch, 0);
    assert!(subscribed(&juggler).is_empty());

    let outcome = juggler.start_with(info_of(100), &list, Ok(()), 1_000).unwrap();
    assert_eq!(outcome.info, info_of(100));
    let change = outcome.change.unwrap();
    assert_eq!(ids(change.mandatory), [0u8, 1].into_iter().collect());
    assert_eq!(change.failures, (0, 0));
    assert_eq!(juggler.get_phase(), JugglerPhase::Running);
    assert_eq!(juggler.get_state().current_epoch, 100);
    assert_eq!(juggler.get_state().next_reshuffle, 1_000 + 384);
    assert_eq!(juggler.get_state().last_reshuffle, 1_000);
    assert_eq!(mandatory(&juggler), [0u8, 1].into_iter().collect());
    assert_eq!(extras(&juggler).len(), 8);
    check_invariants(&juggler, 8);

    match juggler.start_with(info_of(101), &list, Ok(()), 2_000) {
        Err(StealthError::Internal(m)) => assert_eq!(m, "Juggler is already initialized"),
        other => panic!("unexpected result: {:?}", other),
    }
    assert_eq!(juggler.get_state().current_epoch, 100);
}

#[test]
fn epoch_information_decides_what_a_tick_does() {
    let provider = MockProvider::new();
    let mut juggler = SubnetJuggler::new(config_with(8), &provider, Prng::from_seed(1));
    let list = vec![SubnetId(0), SubnetId(1)];

    match juggler.take_epoch_info(info_of(100), &list, 1_000) {
        Err(StealthError::Internal(m)) => assert_eq!(m, "Juggler is not running"),
        other => panic!("unexpected result: {:?}", other),
    }
    assert!(!juggler.is_new_epoch(&info_of(100), 1_000));

    juggler.initialize(1_000).unwrap();
    juggler.take_events();
    let before = extras(&juggler);

    let broken = EpochInfo { epoch: 101, slot: 3232, slots_per_epoch: 0, seconds_per_slot: 12 };
    assert!(!juggler.is_new_epoch(&broken, 1_100));
    match juggler.take_epoch_info(broken, &list, 1_100) {
        Err(StealthError::ProviderApi(m)) => assert_eq!(m, "Malformed epoch information"),
        other => panic!("unexpected result: {:?}", other),
    }
    assert_eq!(juggler.get_state().current_epoch, 100);
    assert_eq!(juggler.get_state().next_reshuffle, 1_384);

    let same = EpochInfo { epoch: 100, slot: 3210, slots_per_epoch: 32, seconds_per_slot: 12 };
    assert!(!juggler.is_new_epoch(&same, 1_120));
    let outcome = juggler.take_epoch_info(same, &Vec::new(), 1_120).unwrap();
    assert_eq!(outcome.info, same);
    assert!(outcome.change.is_none());
    assert_eq!(juggler.get_state().next_reshuffle, 1_120 + 22 * 12);
    assert_eq!(juggler.get_state().last_reshuffle, 1_000);
    assert_eq!(extras(&juggler), before);
    assert_eq!(mandatory(&juggler), [0u8, 1].into_iter().collect());
    assert!(juggler.take_events().is_empty());

    assert!(juggler.is_new_epoch(&info_of(101), 1_384));
    let moved = vec![SubnetId(1), SubnetId(2)];
    let outcome = juggler.take_epoch_info(info_of(101), &moved, 1_384).unwrap();
    let change = outcome.change.unwrap();
    assert_eq!(ids(change.mandatory), [1u8, 2].into_iter().collect());
    assert_eq!(change.failures, (0, 0));
    assert_eq!(juggler.get_state().current_epoch, 101);
    assert_eq!(juggler.get_state().next_reshuffle, 1_384 + 384);
    assert_eq!(juggler.get_state().last_reshuffle, 1_384);
    assert_eq!(mandatory(&juggler), [1u8, 2].into_iter().collect());
    assert_eq!(extras(&juggler).len(), 8);
    check_invariants(&juggler, 8);
    let events = juggler.take_events();
    match events.last() {
        Some(SubnetEvent::EpochReshuffle { epoch, new_subnets }) => {
            assert_eq!(*epoch, 101);
            assert_eq!(ids(new_subnets.clone()), extras(&juggler));
        }
        other => panic!("unexpected event: {:?}", other),
    }
}

#[test]
fn a_failed_tick_is_announced_with_its_text() {
    let provider = MockProvider::new();
    let mut juggler = SubnetJuggler::new(config_with(8), &provider, Prng::from_seed(1));
    juggler.initialize(1_000).unwrap();
    juggler.take_events();

    let failure: Result<TickOutcome, StealthError> =
        Err(StealthError::Network("unreachable".to_string()));
    assert!(juggler.close_tick(failure).is_none());
    let events = juggler.take_events();
    assert_eq!(events.len(), 1);
    assert!(matches!(&events[0], SubnetEvent::Error(m) if m == "Network error: unreachable"));

    let outcome = TickOutcome { info: info_of(100), change: None };
    let told = juggler.close_tick(Ok(outcome)).unwrap();
    assert_eq!(told.info, info_of(100));
    assert!(told.change.is_none());
    assert!(juggler.take_events().is_empty());
    assert_eq!(juggler.get_phase(), JugglerPhase::Running);
}

#[test]
fn a_tick_of_a_juggler_out_of_service_is_an_internal_error() {
    let provider = MockProvider::new();
    let mut juggler = SubnetJuggler::new(config_with(8), &provider, Prng::from_seed(1));
    assert!(juggler.process_tick(1_000).is_none());
    let events = juggler.take_events();
    assert_eq!(events.len(), 1);
    assert!(
        matches!(&events[0], SubnetEvent::Error(m) if m == "Internal error: Juggler is not running")
    );
}
