//! Contact debounce: at most one action per engagement of a contact body.
//!
//! A contact body (a drumstick) is `Idle` until a collision begins between it
//! and a categorised zone collider; it is then `Engaged` with that zone's
//! category, and the zone's action is dispatched once. While engaged, further
//! collision-begins change nothing. A collision-end with a collider of the
//! engaged category returns the body to `Idle`.

use std::collections::HashMap;
use vstd::prelude::*;

verus! {

broadcast use vstd::std_specs::hash::group_hash_axioms;

/// Category of a contact zone: the centre of the drum head or its rim.
#[derive(Clone, Copy, Debug, PartialEq, Eq, Structural)]
pub enum Zone {
    Don,
    Ka,
}

/// Debounce state of one contact body.
#[derive(Clone, Copy, Debug, PartialEq, Eq, Structural)]
pub enum ContactState {
    /// Not in contact with any zone.
    Idle,
    /// In contact; the category is that of the zone that engaged the body.
    Engaged(Zone),
}

/// The debounce state of a contact body, and the body it follows when free.
#[derive(Clone, Copy, Debug, PartialEq, Eq, Structural)]
pub struct ContactPair {
    pub state: ContactState,
    /// Identity of the reference body (the hand grip) that the contact body
    /// is pulled towards while it is not held in place by the scene graph.
    pub parent: u64,
}

/// Whether a collision notification reports the start or the end of a contact.
#[derive(Clone, Copy, Debug, PartialEq, Eq, Structural)]
pub enum Phase {
    Begin,
    End,
}

/// A collision notification: two collider identities, in the order in which
/// the physics engine names them.
#[derive(Clone, Copy, Debug, PartialEq, Eq, Structural)]
pub struct Collision {
    pub phase: Phase,
    pub first: u64,
    pub second: u64,
}

/// What a notification did.
#[derive(Clone, Copy, Debug, PartialEq, Eq, Structural)]
pub enum Outcome {
    /// The body went from idle to engaged: the zone's action is due, once.
    Dispatched(Zone),
    /// The body went from engaged back to idle.
    Released,
    /// A contact body was found, and nothing changed.
    Ignored,
    /// Neither collider is a contact body: the notification is dropped, and
    /// the caller owes a diagnostic.
    Unresolved,
}

/// The transition of one contact body on a notification that names a zone of
/// category `zone`: the next state, and what happened.
pub open spec fn step(state: ContactState, phase: Phase, zone: Zone) -> (ContactState, Outcome) {
    match phase {
        Phase::Begin => match state {
            ContactState::Idle => (ContactState::Engaged(zone), Outcome::Dispatched(zone)),
            ContactState::Engaged(_) => (state, Outcome::Ignored),
        },
        Phase::End => if state == ContactState::Engaged(zone) {
            (ContactState::Idle, Outcome::Released)
        } else {
            (state, Outcome::Ignored)
        },
    }
}

impl ContactState {
    /// Takes one notification that names a zone of category `zone`.
    pub fn notify(self, phase: Phase, zone: Zone) -> (r: (ContactState, Outcome))
        ensures
            r == step(self, phase, zone),
    {
        match phase {
            Phase::Begin => match self {
                ContactState::Idle => (ContactState::Engaged(zone), Outcome::Dispatched(zone)),
                ContactState::Engaged(_) => (self, Outcome::Ignored),
            },
            Phase::End => match self {
                ContactState::Engaged(engaged) => if engaged == zone {
                    (ContactState::Idle, Outcome::Released)
                } else {
                    (self, Outcome::Ignored)
                },
                ContactState::Idle => (self, Outcome::Ignored),
            },
        }
    }
}

/// Number of hitboxes that make up the head of a drum. A drum lists the
/// pieces of its head first and the pieces of its rim after them.
pub const HEAD_PIECES: usize = 2;

/// The category of the hitbox at `index` of a drum's list.
pub open spec fn hitbox_zone(index: int) -> Zone {
    if index < HEAD_PIECES {
        Zone::Don
    } else {
        Zone::Ka
    }
}

impl Zone {
    /// The category of the hitbox at `index` of a drum's list.
    pub fn of_hitbox(index: usize) -> (r: Zone)
        ensures
            r == hitbox_zone(index as int),
    {
        if index < HEAD_PIECES {
            Zone::Don
        } else {
            Zone::Ka
        }
    }
}

/// What the registry knows of a collider identity.
#[derive(Clone, Copy, Debug, PartialEq, Eq, Structural)]
pub enum Role {
    /// A contact body, with its debounce state.
    ContactBody(ContactPair),
    /// A zone collider of the given category.
    ZoneCollider(Zone),
}

/// A notification, with each side resolved against the registry.
#[derive(Clone, Copy, Debug, PartialEq, Eq, Structural)]
pub enum Classified {
    /// A contact body on one side, a zone collider on the other.
    Contact { body: u64, zone: Zone },
    /// A contact body, and no zone collider on the other side.
    NoZone { body: u64 },
    /// No contact body on either side.
    NoBody,
}

/// `id` is registered as a contact body.
pub open spec fn is_body(roles: Map<u64, Role>, id: u64) -> bool {
    roles.contains_key(id) && roles[id] is ContactBody
}

/// The category of `id`, where it is registered as a zone collider.
pub open spec fn zone_of(roles: Map<u64, Role>, id: u64) -> Option<Zone> {
    if roles.contains_key(id) {
        match roles[id] {
            Role::ZoneCollider(zone) => Some(zone),
            Role::ContactBody(_) => None,
        }
    } else {
        None
    }
}

/// The side that carries the debounce state: the first collider if it is a
/// contact body, else the second if that one is.
pub open spec fn body_side(roles: Map<u64, Role>, c: Collision) -> Option<u64> {
    if is_body(roles, c.first) {
        Some(c.first)
    } else if is_body(roles, c.second) {
        Some(c.second)
    } else {
        None
    }
}

/// The collider of `c` that faces `body`.
pub open spec fn other_side(c: Collision, body: u64) -> u64 {
    if body == c.first {
        c.second
    } else {
        c.first
    }
}

/// Resolves both sides of a notification.
pub open spec fn classify(roles: Map<u64, Role>, c: Collision) -> Classified {
    match body_side(roles, c) {
        None => Classified::NoBody,
        Some(body) => match zone_of(roles, other_side(c, body)) {
            None => Classified::NoZone { body },
            Some(zone) => Classified::Contact { body, zone },
        },
    }
}

/// The registry after one notification, and what the notification did.
///
/// Only the state of the contact body that the notification names can
/// change; its parent, every other body and every zone collider stay.
pub open spec fn apply(roles: Map<u64, Role>, c: Collision) -> (Map<u64, Role>, Outcome) {
    match classify(roles, c) {
        Classified::NoBody => (roles, Outcome::Unresolved),
        Classified::NoZone { .. } => (roles, Outcome::Ignored),
        Classified::Contact { body, zone } => {
            let pair = roles[body]->ContactBody_0;
            let (next, outcome) = step(pair.state, c.phase, zone);
            (
                roles.insert(
                    body,
                    Role::ContactBody(ContactPair { state: next, parent: pair.parent }),
                ),
                outcome,
            )
        },
    }
}

/// The registry after a queue of notifications taken in delivery order, and
/// the outcome of each.
pub open spec fn apply_all(roles: Map<u64, Role>, queue: Seq<Collision>) -> (
    Map<u64, Role>,
    Seq<Outcome>,
)
    decreases queue.len(),
{
    if queue.len() == 0 {
        (roles, Seq::empty())
    } else {
        let (before, outcomes) = apply_all(roles, queue.drop_last());
        let (after, outcome) = apply(before, queue.last());
        (after, outcomes.push(outcome))
    }
}

/// The registry after the hitboxes of one drum are registered in the order
/// of the drum's list, each with the category of its place.
pub open spec fn with_hitboxes(roles: Map<u64, Role>, ids: Seq<u64>) -> Map<u64, Role>
    decreases ids.len(),
{
    if ids.len() == 0 {
        roles
    } else {
        with_hitboxes(roles, ids.drop_last()).insert(
            ids.last(),
            Role::ZoneCollider(hitbox_zone(ids.len() - 1)),
        )
    }
}

/// The colliders that take part in contact detection, by identity.
///
/// An identity has at most one role: it is a contact body or a zone
/// collider, never both.
pub struct ContactRegistry {
    roles: HashMap<u64, Role>,
}

impl View for ContactRegistry {
    type V = Map<u64, Role>;

    closed spec fn view(&self) -> Map<u64, Role> {
        self.roles@
    }
}

impl ContactRegistry {
    /// A registry that knows no collider.
    pub fn new() -> (r: Self)
        ensures
            r@ == Map::<u64, Role>::empty(),
    {
        ContactRegistry { roles: HashMap::new() }
    }

    /// Registers `id` as a contact body that follows `parent`. The body starts
    /// idle; an earlier role of `id` is replaced.
    pub fn register_body(&mut self, id: u64, parent: u64)
        ensures
            final(self)@ == old(self)@.insert(
                id,
                Role::ContactBody(ContactPair { state: ContactState::Idle, parent }),
            ),
    {
        self.roles.insert(id, Role::ContactBody(ContactPair { state: ContactState::Idle, parent }));
    }

    /// Registers `id` as a zone collider of category `zone`; an earlier role
    /// of `id` is replaced.
    pub fn register_zone(&mut self, id: u64, zone: Zone)
        ensures
            final(self)@ == old(self)@.insert(id, Role::ZoneCollider(zone)),
    {
        self.roles.insert(id, Role::ZoneCollider(zone));
    }

    /// Registers the hitboxes of one drum, given in the order of the drum's
    /// list: the pieces of the head as `Don`, those after them as `Ka`.
    pub fn register_hitboxes(&mut self, ids: &Vec<u64>)
        ensures
            final(self)@ == with_hitboxes(old(self)@, ids@),
    {
        let mut i: usize = 0;
        while i < ids.len()
            invariant
                i <= ids.len(),
                self@ == with_hitboxes(old(self)@, ids@.take(i as int)),
            decreases ids.len() - i,
        {
            proof {
                assert(ids@.take(i + 1).drop_last() == ids@.take(i as int));
            }
            self.register_zone(ids[i], Zone::of_hitbox(i));
            i = i + 1;
        }
        proof {
            assert(ids@.take(i as int) == ids@);
        }
    }

    /// Forgets `id`.
    pub fn unregister(&mut self, id: u64)
        ensures
            final(self)@ == old(self)@.remove(id),
    {
        self.roles.remove(&id);
    }

    /// The role of `id`, if it has one.
    pub fn role_of(&self, id: u64) -> (r: Option<Role>)
        ensures
            r == (if self@.contains_key(id) {
                Some(self@[id])
            } else {
                None
            }),
    {
        match self.roles.get(&id) {
            Some(role) => Some(*role),
            None => None,
        }
    }

    /// The debounce state and parent of `id`, if it is a contact body.
    pub fn pair_of(&self, id: u64) -> (r: Option<ContactPair>)
        ensures
            r == (if is_body(self@, id) {
                Some(self@[id]->ContactBody_0)
            } else {
                None
            }),
    {
        match self.role_of(id) {
            Some(Role::ContactBody(pair)) => Some(pair),
            _ => None,
        }
    }

    /// The category of `id`, if it is a zone collider.
    pub fn zone_of(&self, id: u64) -> (r: Option<Zone>)
        ensures
            r == zone_of(self@, id),
    {
        match self.role_of(id) {
            Some(Role::ZoneCollider(zone)) => Some(zone),
            _ => None,
        }
    }

    /// Resolves which side of `c` is the contact body and which the zone.
    pub fn classify(&self, c: Collision) -> (r: Classified)
        ensures
            r == classify(self@, c),
    {
        let body = if self.pair_of(c.first).is_some() {
            c.first
        } else if self.pair_of(c.second).is_some() {
            c.second
        } else {
            return Classified::NoBody;
        };
        let other = if body == c.first {
            c.second
        } else {
            c.first
        };
        match self.zone_of(other) {
            Some(zone) => Classified::Contact { body, zone },
            None => Classified::NoZone { body },
        }
    }

    /// Takes one collision notification.
    pub fn notify(&mut self, c: Collision) -> (outcome: Outcome)
        ensures
            (final(self)@, outcome) == apply(old(self)@, c),
    {
        let (body, zone) = match self.classify(c) {
            Classified::NoBody => {
                return Outcome::Unresolved;
            },
            Classified::NoZone { .. } => {
                return Outcome::Ignored;
            },
            Classified::Contact { body, zone } => (body, zone),
        };
        let pair = self.pair_of(body).unwrap();
        let (next, outcome) = pair.state.notify(c.phase, zone);
        self.roles.insert(body, Role::ContactBody(ContactPair { state: next, parent: pair.parent }));
        outcome
    }

    /// Drains one tick's queue of notifications in delivery order, and
    /// reports the outcome of each.
    pub fn process(&mut self, queue: &Vec<Collision>) -> (outcomes: Vec<Outcome>)
        ensures
            (final(self)@, outcomes@) == apply_all(old(self)@, queue@),
    {
        let mut outcomes: Vec<Outcome> = Vec::new();
        let mut i: usize = 0;
        while i < queue.len()
            invariant
                i <= queue.len(),
                (self@, outcomes@) == apply_all(old(self)@, queue@.take(i as int)),
            decreases queue.len() - i,
        {
            proof {
                assert(queue@.take(i + 1).drop_last() == queue@.take(i as int));
            }
            let outcome = self.notify(queue[i]);
            outcomes.push(outcome);
            i = i + 1;
        }
        proof {
            assert(queue@.take(i as int) == queue@);
        }
        outcomes
    }
}

/// Registered from a list, a hitbox has the category of its last place in
/// the list, and a collider that the list does not name keeps its role.
pub proof fn lemma_hitboxes_by_place(roles: Map<u64, Role>, ids: Seq<u64>, id: u64)
    ensures
        !ids.contains(id) ==> with_hitboxes(roles, ids).contains_key(id) == roles.contains_key(id),
        !ids.contains(id) && roles.contains_key(id) ==> with_hitboxes(roles, ids)[id] == roles[id],
        forall|i: int|
            0 <= i < ids.len() && ids[i] == id && !ids.skip(i + 1).contains(id) ==> {
                &&& with_hitboxes(roles, ids).contains_key(id)
                &&& with_hitboxes(roles, ids)[id] == Role::ZoneCollider(hitbox_zone(i))
            },
    decreases ids.len(),
{
    if ids.len() > 0 {
        let earlier = ids.drop_last();
        lemma_hitboxes_by_place(roles, earlier, id);
        if !ids.contains(id) {
            assert(ids.last() != id);
            assert forall|k: int| 0 <= k < earlier.len() implies #[trigger] earlier[k] != id by {
                assert(ids[k] == earlier[k]);
            }
        }
        assert forall|i: int|
            0 <= i < ids.len() && ids[i] == id && !ids.skip(i + 1).contains(id) implies {
            &&& with_hitboxes(roles, ids).contains_key(id)
            &&& with_hitboxes(roles, ids)[id] == Role::ZoneCollider(hitbox_zone(i))
        } by {
            if i < ids.len() - 1 {
                let rest = ids.skip(i + 1);
                assert(rest.last() == ids.last());
                assert(ids.last() != id);
                assert(earlier[i] == id);
                let between = earlier.skip(i + 1);
                assert forall|k: int| 0 <= k < between.len() implies #[trigger] between[k]
                    != id by {
                    assert(between[k] == rest[k]);
                }
            }
        }
    }
}

/// A body becomes engaged only from idle and only on a collision-begin, and
/// that is the one transition that dispatches; it becomes idle again only on
/// a collision-end whose zone has the category that engaged it.
pub proof fn lemma_step_transitions(state: ContactState, phase: Phase, zone: Zone)
    ensures
        step(state, phase, zone).1 is Dispatched <==> state is Idle && phase is Begin,
        step(state, phase, zone).1 is Dispatched ==> step(state, phase, zone) == (
            ContactState::Engaged(zone),
            Outcome::Dispatched(zone),
        ),
        step(state, phase, zone).1 is Released <==> phase is End && state
            == ContactState::Engaged(zone),
        step(state, phase, zone).1 is Released ==> step(state, phase, zone).0 is Idle,
        step(state, phase, zone).1 is Ignored <==> step(state, phase, zone).0 == state,
        !(step(state, phase, zone).1 is Unresolved),
{
}

/// A notification touches nothing but the state of the contact body it
/// names: the registered identities, every parent, every zone collider and
/// every other body stay as they were.
pub proof fn lemma_apply_frame(roles: Map<u64, Role>, c: Collision, id: u64)
    ensures
        apply(roles, c).0.contains_key(id) == roles.contains_key(id),
        zone_of(apply(roles, c).0, id) == zone_of(roles, id),
        is_body(apply(roles, c).0, id) == is_body(roles, id),
        is_body(roles, id) ==> apply(roles, c).0[id]->ContactBody_0.parent
            == roles[id]->ContactBody_0.parent,
        body_side(roles, c) != Some(id) ==> apply(roles, c).0.contains_key(id) ==> apply(
            roles,
            c,
        ).0[id] == roles[id],
{
}

/// A dispatch happens only where an idle body meets a zone at a
/// collision-begin, and it leaves that body engaged with the zone's category:
/// no second dispatch can follow before the body is released.
pub proof fn lemma_dispatch_engages(roles: Map<u64, Role>, c: Collision, zone: Zone)
    requires
        apply(roles, c).1 == Outcome::Dispatched(zone),
    ensures
        c.phase is Begin,
        classify(roles, c) is Contact,
        classify(roles, c)->Contact_zone == zone,
        roles[classify(roles, c)->Contact_body]->ContactBody_0.state is Idle,
        apply(roles, c).0[classify(roles, c)->Contact_body]->ContactBody_0.state
            == ContactState::Engaged(zone),
{
}

/// A collision-begin for a body that is already engaged, whatever the
/// category of the zone it names, changes no state and dispatches nothing.
pub proof fn lemma_begin_while_engaged(roles: Map<u64, Role>, c: Collision, body: u64)
    requires
        c.phase is Begin,
        body_side(roles, c) == Some(body),
        roles[body]->ContactBody_0.state is Engaged,
    ensures
        apply(roles, c) == (roles, Outcome::Ignored),
{
    assert(apply(roles, c).0 =~= roles);
}

/// A collision-end whose zone is of another category than the one that
/// engaged the body leaves the body engaged as it was.
pub proof fn lemma_end_of_other_zone(roles: Map<u64, Role>, c: Collision, body: u64, zone: Zone)
    requires
        c.phase is End,
        classify(roles, c) == (Classified::Contact { body, zone }),
        roles[body]->ContactBody_0.state is Engaged,
        roles[body]->ContactBody_0.state != ContactState::Engaged(zone),
    ensures
        apply(roles, c) == (roles, Outcome::Ignored),
{
    assert(apply(roles, c).0 =~= roles);
}

/// Two notifications name the same pair of colliders, in either order.
pub open spec fn same_pair(a: Collision, b: Collision) -> bool {
    ||| a.first == b.first && a.second == b.second
    ||| a.first == b.second && a.second == b.first
}

/// Two collision-begins in a row for the same pair, the body idle before
/// them, dispatch the zone's action exactly once: at the first. The second
/// is ignored and the body stays engaged.
pub proof fn lemma_second_begin_is_debounced(
    roles: Map<u64, Role>,
    c1: Collision,
    c2: Collision,
    body: u64,
    zone: Zone,
)
    requires
        c1.phase is Begin,
        c2.phase is Begin,
        same_pair(c1, c2),
        classify(roles, c1) == (Classified::Contact { body, zone }),
        roles[body]->ContactBody_0.state is Idle,
    ensures
        apply_all(roles, seq![c1, c2]).1 == seq![Outcome::Dispatched(zone), Outcome::Ignored],
        apply_all(roles, seq![c1, c2]).0 == apply(roles, c1).0,
        apply_all(roles, seq![c1, c2]).0[body]->ContactBody_0.state == ContactState::Engaged(zone),
{
    let queue = seq![c1, c2];
    let first = seq![c1];
    assert(queue.drop_last() =~= first);
    assert(first.drop_last() =~= Seq::<Collision>::empty());
    assert(apply_all(roles, first.drop_last()) == (roles, Seq::<Outcome>::empty()));
    assert(apply_all(roles, first) == (apply(roles, c1).0, seq![apply(roles, c1).1])) by {
        assert(Seq::<Outcome>::empty().push(apply(roles, c1).1) =~= seq![apply(roles, c1).1]);
    }
    let engaged = apply(roles, c1).0;
    assert(body_side(engaged, c2) == Some(body));
    lemma_begin_while_engaged(engaged, c2, body);
    assert(seq![Outcome::Dispatched(zone)].push(Outcome::Ignored) =~= seq![
        Outcome::Dispatched(zone),
        Outcome::Ignored,
    ]);
}

/// Delivery order is all that counts: a queue drained in two passes, one
/// after the other, leaves the registry and the outcomes that one pass over
/// the whole queue leaves.
pub proof fn lemma_passes_compose(roles: Map<u64, Role>, first: Seq<Collision>, second: Seq<Collision>)
    ensures
        apply_all(roles, first + second).0 == apply_all(apply_all(roles, first).0, second).0,
        apply_all(roles, first + second).1 == apply_all(roles, first).1 + apply_all(
            apply_all(roles, first).0,
            second,
        ).1,
    decreases second.len(),
{
    let after_first = apply_all(roles, first);
    if second.len() == 0 {
        assert(first + second =~= first);
        assert(after_first.1 + Seq::<Outcome>::empty() =~= after_first.1);
    } else {
        lemma_passes_compose(roles, first, second.drop_last());
        assert((first + second).drop_last() =~= first + second.drop_last());
        assert((first + second).last() == second.last());
        let before = apply_all(after_first.0, second.drop_last());
        let outcome = apply(before.0, second.last()).1;
        assert((after_first.1 + before.1).push(outcome) =~= after_first.1 + before.1.push(outcome));
    }
}

/// `id` is a contact body that is engaged.
pub open spec fn is_engaged(roles: Map<u64, Role>, id: u64) -> bool {
    is_body(roles, id) && roles[id]->ContactBody_0.state is Engaged
}

/// How many notifications of the queue dispatched an action for `body`.
pub open spec fn dispatches_for(roles: Map<u64, Role>, queue: Seq<Collision>, body: u64) -> nat
    decreases queue.len(),
{
    if queue.len() == 0 {
        0
    } else {
        let before = apply_all(roles, queue.drop_last()).0;
        let counted = dispatches_for(roles, queue.drop_last(), body);
        if body_side(before, queue.last()) == Some(body) && apply(before, queue.last()).1
            is Dispatched {
            counted + 1
        } else {
            counted
        }
    }
}

/// How many notifications of the queue released `body`.
pub open spec fn releases_for(roles: Map<u64, Role>, queue: Seq<Collision>, body: u64) -> nat
    decreases queue.len(),
{
    if queue.len() == 0 {
        0
    } else {
        let before = apply_all(roles, queue.drop_last()).0;
        let counted = releases_for(roles, queue.drop_last(), body);
        if body_side(before, queue.last()) == Some(body) && apply(before, queue.last()).1
            is Released {
            counted + 1
        } else {
            counted
        }
    }
}

/// The debounce guarantee, over any queue: every notification has its
/// outcome, and for each contact body the dispatches and the releases take
/// turns. A body that starts idle is dispatched for once more than it is
/// released if it ends engaged, and as often if it ends idle; so there is at
/// most one dispatch per engagement, however many contacts overlap.
pub proof fn lemma_one_dispatch_per_engagement(
    roles: Map<u64, Role>,
    queue: Seq<Collision>,
    body: u64,
)
    requires
        is_body(roles, body),
    ensures
        apply_all(roles, queue).1.len() == queue.len(),
        is_body(apply_all(roles, queue).0, body),
        dispatches_for(roles, queue, body) + (if is_engaged(roles, body) {
            1nat
        } else {
            0nat
        }) == releases_for(roles, queue, body) + (if is_engaged(
            apply_all(roles, queue).0,
            body,
        ) {
            1nat
        } else {
            0nat
        }),
    decreases queue.len(),
{
    if queue.len() > 0 {
        lemma_one_dispatch_per_engagement(roles, queue.drop_last(), body);
        let before = apply_all(roles, queue.drop_last()).0;
        let c = queue.last();
        lemma_apply_frame(before, c, body);
        if body_side(before, c) == Some(body) {
            if classify(before, c) is Contact {
                lemma_step_transitions(
                    before[body]->ContactBody_0.state,
                    c.phase,
                    classify(before, c)->Contact_zone,
                );
            }
        }
    }
}

} // verus!
