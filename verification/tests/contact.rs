use vr_contact::contact::{
    Classified, Collision, ContactPair, ContactRegistry, ContactState, Outcome, Phase, Role, Zone,
    HEAD_PIECES,
};

const STICK: u64 = 11;
const GRIP: u64 = 12;
const OTHER_STICK: u64 = 13;
const OTHER_GRIP: u64 = 14;
const HEAD: u64 = 21;
const RIM: u64 = 22;
const STRANGER: u64 = 99;

fn begin(first: u64, second: u64) -> Collision {
    Collision { phase: Phase::Begin, first, second }
}

fn end(first: u64, second: u64) -> Collision {
    Collision { phase: Phase::End, first, second }
}

fn drum() -> ContactRegistry {
    let mut registry = ContactRegistry::new();
    registry.register_body(STICK, GRIP);
    registry.register_body(OTHER_STICK, OTHER_GRIP);
    registry.register_zone(HEAD, Zone::Don);
    registry.register_zone(RIM, Zone::Ka);
    registry
}

fn state(registry: &ContactRegistry, id: u64) -> ContactState {
    registry.pair_of(id).unwrap().state
}

#[test]
fn idle_body_engages_on_begin() {
    assert_eq!(
        ContactState::Idle.notify(Phase::Begin, Zone::Don),
        (ContactState::Engaged(Zone::Don), Outcome::Dispatched(Zone::Don))
    );
    assert_eq!(
        ContactState::Idle.notify(Phase::Begin, Zone::Ka),
        (ContactState::Engaged(Zone::Ka), Outcome::Dispatched(Zone::Ka))
    );
}

#[test]
fn engaged_body_ignores_begin() {
    let engaged = ContactState::Engaged(Zone::Don);
    assert_eq!(engaged.notify(Phase::Begin, Zone::Don), (engaged, Outcome::Ignored));
    assert_eq!(engaged.notify(Phase::Begin, Zone::Ka), (engaged, Outcome::Ignored));
}

#[test]
fn engaged_body_is_released_by_matching_end() {
    assert_eq!(
        ContactState::Engaged(Zone::Ka).notify(Phase::End, Zone::Ka),
        (ContactState::Idle, Outcome::Released)
    );
}

#[test]
fn engaged_body_ignores_end_of_other_zone() {
    let engaged = ContactState::Engaged(Zone::Ka);
    assert_eq!(engaged.notify(Phase::End, Zone::Don), (engaged, Outcome::Ignored));
}

#[test]
fn idle_body_ignores_end() {
    assert_eq!(
        ContactState::Idle.notify(Phase::End, Zone::Don),
        (ContactState::Idle, Outcome::Ignored)
    );
}

#[test]
fn new_registry_knows_nothing() {
    let registry = ContactRegistry::new();
    assert_eq!(registry.role_of(STICK), None);
    assert_eq!(registry.pair_of(STICK), None);
    assert_eq!(registry.zone_of(HEAD), None);
}

#[test]
fn registered_body_starts_idle_with_its_parent() {
    let registry = drum();
    assert_eq!(
        registry.role_of(STICK),
        Some(Role::ContactBody(ContactPair { state: ContactState::Idle, parent: GRIP }))
    );
    assert_eq!(
        registry.pair_of(OTHER_STICK),
        Some(ContactPair { state: ContactState::Idle, parent: OTHER_GRIP })
    );
    assert_eq!(registry.zone_of(STICK), None);
}

#[test]
fn registered_zone_has_its_category() {
    let registry = drum();
    assert_eq!(registry.role_of(HEAD), Some(Role::ZoneCollider(Zone::Don)));
    assert_eq!(registry.zone_of(HEAD), Some(Zone::Don));
    assert_eq!(registry.zone_of(RIM), Some(Zone::Ka));
    assert_eq!(registry.pair_of(RIM), None);
}

#[test]
fn registering_again_replaces_the_role() {
    let mut registry = drum();
    registry.register_zone(STICK, Zone::Ka);
    assert_eq!(registry.role_of(STICK), Some(Role::ZoneCollider(Zone::Ka)));
    registry.register_body(HEAD, GRIP);
    assert_eq!(
        registry.role_of(HEAD),
        Some(Role::ContactBody(ContactPair { state: ContactState::Idle, parent: GRIP }))
    );
}

#[test]
fn registering_an_engaged_body_again_resets_it() {
    let mut registry = drum();
    registry.notify(begin(STICK, HEAD));
    registry.register_body(STICK, OTHER_GRIP);
    assert_eq!(
        registry.pair_of(STICK),
        Some(ContactPair { state: ContactState::Idle, parent: OTHER_GRIP })
    );
}

#[test]
fn unregistered_collider_is_forgotten() {
    let mut registry = drum();
    registry.unregister(HEAD);
    assert_eq!(registry.role_of(HEAD), None);
    assert_eq!(registry.zone_of(RIM), Some(Zone::Ka));
    registry.unregister(STRANGER);
    assert_eq!(registry.pair_of(STICK).map(|p| p.parent), Some(GRIP));
}

#[test]
fn classify_finds_body_and_zone_on_either_side() {
    let registry = drum();
    assert_eq!(
        registry.classify(begin(STICK, HEAD)),
        Classified::Contact { body: STICK, zone: Zone::Don }
    );
    assert_eq!(
        registry.classify(end(RIM, OTHER_STICK)),
        Classified::Contact { body: OTHER_STICK, zone: Zone::Ka }
    );
}

#[test]
fn classify_reports_a_body_without_zone() {
    let registry = drum();
    assert_eq!(registry.classify(begin(STICK, STRANGER)), Classified::NoZone { body: STICK });
    assert_eq!(registry.classify(begin(STRANGER, STICK)), Classified::NoZone { body: STICK });
    assert_eq!(registry.classify(begin(STICK, STICK)), Classified::NoZone { body: STICK });
}

#[test]
fn classify_prefers_the_first_of_two_bodies() {
    let registry = drum();
    assert_eq!(registry.classify(begin(STICK, OTHER_STICK)), Classified::NoZone { body: STICK });
    assert_eq!(
        registry.classify(begin(OTHER_STICK, STICK)),
        Classified::NoZone { body: OTHER_STICK }
    );
}

#[test]
fn classify_reports_a_pair_without_body() {
    let registry = drum();
    assert_eq!(registry.classify(begin(HEAD, RIM)), Classified::NoBody);
    assert_eq!(registry.classify(begin(HEAD, STRANGER)), Classified::NoBody);
    assert_eq!(registry.classify(end(STRANGER, STRANGER)), Classified::NoBody);
}

#[test]
fn begin_dispatches_the_zone_action_and_engages() {
    let mut registry = drum();
    assert_eq!(registry.notify(begin(STICK, HEAD)), Outcome::Dispatched(Zone::Don));
    assert_eq!(state(&registry, STICK), ContactState::Engaged(Zone::Don));
    assert_eq!(registry.notify(begin(RIM, OTHER_STICK)), Outcome::Dispatched(Zone::Ka));
    assert_eq!(state(&registry, OTHER_STICK), ContactState::Engaged(Zone::Ka));
}

#[test]
fn second_begin_for_the_same_pair_dispatches_nothing() {
    let mut registry = drum();
    let outcomes = registry.process(&vec![begin(STICK, HEAD), begin(STICK, HEAD)]);
    assert_eq!(outcomes, vec![Outcome::Dispatched(Zone::Don), Outcome::Ignored]);
    let dispatched = outcomes.iter().filter(|o| matches!(o, Outcome::Dispatched(_))).count();
    assert_eq!(dispatched, 1);
    assert_eq!(state(&registry, STICK), ContactState::Engaged(Zone::Don));
}

#[test]
fn second_begin_with_sides_swapped_dispatches_nothing() {
    let mut registry = drum();
    let outcomes = registry.process(&vec![begin(STICK, HEAD), begin(HEAD, STICK)]);
    assert_eq!(outcomes, vec![Outcome::Dispatched(Zone::Don), Outcome::Ignored]);
}

#[test]
fn begin_of_another_zone_while_engaged_changes_nothing() {
    let mut registry = drum();
    registry.notify(begin(STICK, RIM));
    assert_eq!(registry.notify(begin(STICK, HEAD)), Outcome::Ignored);
    assert_eq!(state(&registry, STICK), ContactState::Engaged(Zone::Ka));
}

#[test]
fn first_begin_of_a_pass_wins() {
    let mut registry = drum();
    let outcomes = registry.process(&vec![begin(STICK, RIM), begin(STICK, HEAD)]);
    assert_eq!(outcomes, vec![Outcome::Dispatched(Zone::Ka), Outcome::Ignored]);
    assert_eq!(state(&registry, STICK), ContactState::Engaged(Zone::Ka));
}

#[test]
fn end_of_another_zone_leaves_the_body_engaged() {
    let mut registry = drum();
    registry.notify(begin(STICK, HEAD));
    assert_eq!(registry.notify(end(STICK, RIM)), Outcome::Ignored);
    assert_eq!(state(&registry, STICK), ContactState::Engaged(Zone::Don));
}

#[test]
fn matching_end_releases_and_the_next_begin_dispatches_again() {
    let mut registry = drum();
    let outcomes = registry.process(&vec![
        begin(STICK, HEAD),
        end(HEAD, STICK),
        begin(STICK, HEAD),
    ]);
    assert_eq!(
        outcomes,
        vec![Outcome::Dispatched(Zone::Don), Outcome::Released, Outcome::Dispatched(Zone::Don)]
    );
    assert_eq!(state(&registry, STICK), ContactState::Engaged(Zone::Don));
}

#[test]
fn end_of_an_idle_body_is_ignored() {
    let mut registry = drum();
    assert_eq!(registry.notify(end(STICK, HEAD)), Outcome::Ignored);
    assert_eq!(state(&registry, STICK), ContactState::Idle);
}

#[test]
fn notification_without_zone_is_ignored() {
    let mut registry = drum();
    assert_eq!(registry.notify(begin(STICK, STRANGER)), Outcome::Ignored);
    assert_eq!(registry.notify(begin(STICK, OTHER_STICK)), Outcome::Ignored);
    assert_eq!(state(&registry, STICK), ContactState::Idle);
    assert_eq!(state(&registry, OTHER_STICK), ContactState::Idle);
}

#[test]
fn notification_without_body_is_unresolved() {
    let mut registry = drum();
    assert_eq!(registry.notify(begin(HEAD, RIM)), Outcome::Unresolved);
    assert_eq!(registry.notify(end(STRANGER, HEAD)), Outcome::Unresolved);
    assert_eq!(registry.notify(begin(STRANGER, STRANGER)), Outcome::Unresolved);
    assert_eq!(state(&registry, STICK), ContactState::Idle);
}

#[test]
fn unresolved_notification_does_not_stop_the_pass() {
    let mut registry = drum();
    let outcomes = registry.process(&vec![begin(STRANGER, HEAD), begin(STICK, HEAD)]);
    assert_eq!(outcomes, vec![Outcome::Unresolved, Outcome::Dispatched(Zone::Don)]);
}

#[test]
fn bodies_are_debounced_independently() {
    let mut registry = drum();
    let outcomes = registry.process(&vec![
        begin(STICK, HEAD),
        begin(OTHER_STICK, HEAD),
        begin(STICK, HEAD),
        end(OTHER_STICK, HEAD),
    ]);
    assert_eq!(
        outcomes,
        vec![
            Outcome::Dispatched(Zone::Don),
            Outcome::Dispatched(Zone::Don),
            Outcome::Ignored,
            Outcome::Released,
        ]
    );
    assert_eq!(state(&registry, STICK), ContactState::Engaged(Zone::Don));
    assert_eq!(state(&registry, OTHER_STICK), ContactState::Idle);
}

#[test]
fn notifications_keep_parents_and_zones() {
    let mut registry = drum();
    registry.process(&vec![begin(STICK, HEAD), end(STICK, HEAD), begin(STICK, RIM)]);
    assert_eq!(registry.pair_of(STICK).unwrap().parent, GRIP);
    assert_eq!(registry.pair_of(OTHER_STICK).unwrap().parent, OTHER_GRIP);
    assert_eq!(registry.zone_of(HEAD), Some(Zone::Don));
    assert_eq!(registry.zone_of(RIM), Some(Zone::Ka));
    assert_eq!(registry.role_of(STRANGER), None);
}

#[test]
fn empty_pass_reports_nothing() {
    let mut registry = drum();
    assert_eq!(registry.process(&Vec::new()), Vec::<Outcome>::new());
    assert_eq!(state(&registry, STICK), ContactState::Idle);
}

#[test]
fn hitboxes_of_the_head_come_first() {
    assert_eq!(HEAD_PIECES, 2);
    assert_eq!(Zone::of_hitbox(0), Zone::Don);
    assert_eq!(Zone::of_hitbox(1), Zone::Don);
    assert_eq!(Zone::of_hitbox(2), Zone::Ka);
    assert_eq!(Zone::of_hitbox(3), Zone::Ka);
    assert_eq!(Zone::of_hitbox(usize::MAX), Zone::Ka);
}

#[test]
fn hitboxes_are_registered_by_their_place() {
    let mut registry = ContactRegistry::new();
    registry.register_body(STICK, GRIP);
    registry.register_hitboxes(&vec![31, 32, 33, 34]);
    assert_eq!(registry.zone_of(31), Some(Zone::Don));
    assert_eq!(registry.zone_of(32), Some(Zone::Don));
    assert_eq!(registry.zone_of(33), Some(Zone::Ka));
    assert_eq!(registry.zone_of(34), Some(Zone::Ka));
    assert_eq!(registry.pair_of(STICK).unwrap().parent, GRIP);
    assert_eq!(registry.notify(begin(STICK, 34)), Outcome::Dispatched(Zone::Ka));
}

#[test]
fn hitbox_listed_twice_takes_its_later_place() {
    let mut registry = ContactRegistry::new();
    registry.register_hitboxes(&vec![31, 32, 31]);
    assert_eq!(registry.zone_of(31), Some(Zone::Ka));
    assert_eq!(registry.zone_of(32), Some(Zone::Don));
}

#[test]
fn two_passes_leave_what_one_pass_leaves() {
    let queue = vec![
        begin(STICK, HEAD),
        begin(OTHER_STICK, RIM),
        end(STICK, RIM),
        end(STICK, HEAD),
        begin(STRANGER, HEAD),
        begin(STICK, RIM),
    ];
    let mut whole = drum();
    let outcomes = whole.process(&queue);
    for cut in 0..=queue.len() {
        let mut parts = drum();
        let mut seen = parts.process(&queue[..cut].to_vec());
        seen.extend(parts.process(&queue[cut..].to_vec()));
        assert_eq!(seen, outcomes);
        for id in [STICK, OTHER_STICK, HEAD, RIM, STRANGER] {
            assert_eq!(parts.role_of(id), whole.role_of(id));
        }
    }
}

#[test]
fn dispatches_and_releases_take_turns() {
    let mut registry = drum();
    let queue = vec![
        begin(STICK, HEAD),
        begin(STICK, RIM),
        begin(HEAD, STICK),
        end(STICK, RIM),
        end(STICK, HEAD),
        end(STICK, HEAD),
        begin(STICK, RIM),
        begin(STICK, RIM),
        end(RIM, STICK),
    ];
    let outcomes = registry.process(&queue);
    let mut engaged = false;
    for outcome in &outcomes {
        match outcome {
            Outcome::Dispatched(_) => {
                assert!(!engaged);
                engaged = true;
            }
            Outcome::Released => {
                assert!(engaged);
                engaged = false;
            }
            Outcome::Ignored | Outcome::Unresolved => (),
        }
    }
    assert!(!engaged);
    assert_eq!(outcomes.iter().filter(|o| matches!(o, Outcome::Dispatched(_))).count(), 2);
    assert_eq!(outcomes.iter().filter(|o| matches!(o, Outcome::Released)).count(), 2);
}
