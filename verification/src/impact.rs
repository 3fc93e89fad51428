//! Kinematic impact detection: a floor strike from a stream of positions.
//!
//! The detector keeps one sample of history per tracked body. With one
//! evaluation per fixed tick, the displacement since the last tick stands for
//! the velocity, and the change of that displacement for the acceleration. A
//! strike is declared on every tick on which both vertical components are
//! below their thresholds; the history then moves on, strike or not.

use crate::geometry::{span, Displacement, Position, Vector};
use crate::thresholds::Thresholds;
use std::collections::HashMap;
use vstd::prelude::*;

verus! {

broadcast use vstd::std_specs::hash::group_hash_axioms;

/// The model of a body's history: the position evaluated last, and the
/// displacement computed then.
pub struct History {
    pub last_pos: Vector,
    pub last_vel: Vector,
}

impl History {
    /// The history of a body that has not been evaluated yet: at the origin,
    /// at rest.
    pub open spec fn origin() -> History {
        History { last_pos: Vector::zero(), last_vel: Vector::zero() }
    }
}

/// This tick's displacement.
pub open spec fn velocity(history: History, current: Vector) -> Vector {
    current.minus(history.last_pos)
}

/// This tick's change of displacement.
pub open spec fn acceleration(history: History, current: Vector) -> Vector {
    velocity(history, current).minus(history.last_vel)
}

/// The strike condition, on the history from before the tick.
pub open spec fn impact(history: History, current: Vector, thresholds: Thresholds) -> bool {
    &&& acceleration(history, current).y < thresholds.acc_factor
    &&& velocity(history, current).y < thresholds.vel_factor
}

/// The history after a tick at `current`.
pub open spec fn advance(history: History, current: Vector) -> History {
    History { last_pos: current, last_vel: velocity(history, current) }
}

/// The retained history of one tracked body.
#[derive(Clone, Copy, Debug)]
pub struct ImpactDetectorState {
    last_pos: Position,
    last_vel: Displacement,
}

impl View for ImpactDetectorState {
    type V = History;

    closed spec fn view(&self) -> History {
        History { last_pos: self.last_pos@, last_vel: self.last_vel@ }
    }
}

impl ImpactDetectorState {
    /// The retained displacement is one that two positions can have.
    #[verifier::type_invariant]
    spec fn bounded(self) -> bool {
        self.last_vel@.within(span())
    }

    /// The history of a newly tracked body: at the origin, at rest. The
    /// first tick therefore sees the body's whole position as displacement.
    pub fn new() -> (r: Self)
        ensures
            r@ == History::origin(),
    {
        ImpactDetectorState { last_pos: Position::origin(), last_vel: Displacement::zero() }
    }

    /// The position evaluated last.
    pub fn last_pos(&self) -> (r: Position)
        ensures
            r@ == self@.last_pos,
    {
        self.last_pos
    }

    /// The displacement computed at the last evaluation.
    pub fn last_vel(&self) -> (r: Displacement)
        ensures
            r@ == self@.last_vel,
    {
        self.last_vel
    }

    /// Evaluates one tick at `current`, and says whether it is a strike.
    ///
    /// The decision rests on the history from before the tick. The history
    /// then becomes `current` and this tick's displacement, whatever was
    /// decided.
    pub fn tick(&mut self, current: Position, thresholds: &Thresholds) -> (fired: bool)
        ensures
            fired == impact(old(self)@, current@, *thresholds),
            final(self)@ == advance(old(self)@, current@),
    {
        proof {
            use_type_invariant(&*self);
        }
        let v = current.since(&self.last_pos);
        let a = v.since(&self.last_vel);
        let fired = a.y < thresholds.acc_factor && v.y < thresholds.vel_factor;
        self.last_vel = v;
        self.last_pos = current;
        fired
    }
}

/// The latest pose of one body, as the tracking layer supplies it for a tick.
#[derive(Clone, Copy, Debug, PartialEq, Eq, Structural)]
pub struct PoseSample {
    pub body: u64,
    pub position: Position,
}

/// A floor strike of one body.
#[derive(Clone, Copy, Debug, PartialEq, Eq, Structural)]
pub struct ImpactEvent {
    pub body: u64,
    /// The time of the tick that raised the event, as the caller counts it.
    pub timestamp: u64,
}

/// The histories after one sample, and whether the sample is a strike. A
/// sample of a body that is not tracked is passed over.
pub open spec fn observe(bodies: Map<u64, History>, sample: PoseSample, thresholds: Thresholds) -> (
    Map<u64, History>,
    bool,
) {
    if bodies.contains_key(sample.body) {
        (
            bodies.insert(sample.body, advance(bodies[sample.body], sample.position@)),
            impact(bodies[sample.body], sample.position@, thresholds),
        )
    } else {
        (bodies, false)
    }
}

/// The histories after one tick's samples, taken in order, and the strikes
/// among them, each stamped with the tick's time.
pub open spec fn observe_all(
    bodies: Map<u64, History>,
    samples: Seq<PoseSample>,
    thresholds: Thresholds,
    timestamp: u64,
) -> (Map<u64, History>, Seq<ImpactEvent>)
    decreases samples.len(),
{
    if samples.len() == 0 {
        (bodies, Seq::empty())
    } else {
        let (before, events) = observe_all(bodies, samples.drop_last(), thresholds, timestamp);
        let (after, fired) = observe(before, samples.last(), thresholds);
        (
            after,
            if fired {
                events.push(ImpactEvent { body: samples.last().body, timestamp })
            } else {
                events
            },
        )
    }
}

/// One tick of the detector. Without thresholds nothing is evaluated: no
/// history moves and no event is raised.
pub open spec fn evaluate(
    bodies: Map<u64, History>,
    samples: Seq<PoseSample>,
    thresholds: Option<Thresholds>,
    timestamp: u64,
) -> (Map<u64, History>, Seq<ImpactEvent>) {
    match thresholds {
        Some(limits) => observe_all(bodies, samples, limits, timestamp),
        None => (bodies, Seq::empty()),
    }
}

/// The tracked bodies and the history of each, by identity.
pub struct ImpactDetector {
    bodies: HashMap<u64, ImpactDetectorState>,
}

impl View for ImpactDetector {
    type V = Map<u64, History>;

    closed spec fn view(&self) -> Map<u64, History> {
        self.bodies@.map_values(|state: ImpactDetectorState| state@)
    }
}

impl ImpactDetector {
    /// A detector that tracks no body.
    pub fn new() -> (r: Self)
        ensures
            r@ == Map::<u64, History>::empty(),
    {
        let r = ImpactDetector { bodies: HashMap::new() };
        assert(r@ =~= Map::<u64, History>::empty());
        r
    }

    /// Begins to track `body`, at the origin and at rest, unless it is
    /// tracked already; says whether it was added.
    pub fn track(&mut self, body: u64) -> (added: bool)
        ensures
            added == !old(self)@.contains_key(body),
            final(self)@ == (if added {
                old(self)@.insert(body, History::origin())
            } else {
                old(self)@
            }),
    {
        if self.bodies.contains_key(&body) {
            false
        } else {
            self.bodies.insert(body, ImpactDetectorState::new());
            assert(self@ =~= old(self)@.insert(body, History::origin()));
            true
        }
    }

    /// Ends the tracking of `body`, and drops its history.
    pub fn untrack(&mut self, body: u64)
        ensures
            final(self)@ == old(self)@.remove(body),
    {
        self.bodies.remove(&body);
        assert(self@ =~= old(self)@.remove(body));
    }

    /// The retained history of `body`, if it is tracked.
    pub fn history(&self, body: u64) -> (r: Option<ImpactDetectorState>)
        ensures
            r is Some == self@.contains_key(body),
            r matches Some(state) ==> state@ == self@[body],
    {
        match self.bodies.get(&body) {
            Some(state) => Some(*state),
            None => None,
        }
    }

    /// Evaluates one sample, and says whether it is a strike.
    pub fn observe(&mut self, sample: PoseSample, thresholds: &Thresholds) -> (fired: bool)
        ensures
            (final(self)@, fired) == observe(old(self)@, sample, *thresholds),
    {
        match self.history(sample.body) {
            Some(state) => {
                let mut state = state;
                let fired = state.tick(sample.position, thresholds);
                self.bodies.insert(sample.body, state);
                assert(self@ =~= old(self)@.insert(
                    sample.body,
                    advance(old(self)@[sample.body], sample.position@),
                ));
                fired
            },
            None => false,
        }
    }

    /// Evaluates one tick: the samples in the order given, each against the
    /// history of its body, under the thresholds in effect.
    ///
    /// A body without a sample keeps its history, a sample without a tracked
    /// body is passed over, and without thresholds the whole tick is.
    pub fn evaluate(
        &mut self,
        samples: &Vec<PoseSample>,
        thresholds: Option<Thresholds>,
        timestamp: u64,
    ) -> (events: Vec<ImpactEvent>)
        ensures
            (final(self)@, events@) == evaluate(old(self)@, samples@, thresholds, timestamp),
    {
        let mut events: Vec<ImpactEvent> = Vec::new();
        let limits = match thresholds {
            Some(limits) => limits,
            None => {
                return events;
            },
        };
        let mut i: usize = 0;
        while i < samples.len()
            invariant
                i <= samples.len(),
                (self@, events@) == observe_all(
                    old(self)@,
                    samples@.take(i as int),
                    limits,
                    timestamp,
                ),
            decreases samples.len() - i,
        {
            proof {
                assert(samples@.take(i + 1).drop_last() == samples@.take(i as int));
            }
            let sample = samples[i];
            if self.observe(sample, &limits) {
                events.push(ImpactEvent { body: sample.body, timestamp });
            }
            i = i + 1;
        }
        proof {
            assert(samples@.take(i as int) == samples@);
        }
        events
    }
}

/// The history of a body after a stream of ticks, one position per tick.
pub open spec fn history_after(history: History, positions: Seq<Vector>) -> History
    decreases positions.len(),
{
    if positions.len() == 0 {
        history
    } else {
        advance(history_after(history, positions.drop_last()), positions.last())
    }
}

/// Tick `i` of the stream is a strike.
pub open spec fn fires_at(
    history: History,
    positions: Seq<Vector>,
    thresholds: Thresholds,
    i: int,
) -> bool {
    impact(history_after(history, positions.take(i)), positions[i], thresholds)
}

/// The position that tick `i` of the stream is measured from: the sample of
/// the tick before, or the retained position at the first tick.
pub open spec fn previous_position(history: History, positions: Seq<Vector>, i: int) -> Vector {
    if i == 0 {
        history.last_pos
    } else {
        positions[i - 1]
    }
}

/// After any tick the retained position is the sample just evaluated and
/// the retained displacement is the one just computed, strike or not.
pub proof fn lemma_history_follows_stream(history: History, positions: Seq<Vector>, i: int)
    requires
        0 <= i < positions.len(),
    ensures
        history_after(history, positions.take(i)).last_pos == previous_position(
            history,
            positions,
            i,
        ),
        history_after(history, positions.take(i + 1)).last_pos == positions[i],
        history_after(history, positions.take(i + 1)).last_vel == positions[i].minus(
            previous_position(history, positions, i),
        ),
        velocity(history_after(history, positions.take(i)), positions[i]) == positions[i].minus(
            previous_position(history, positions, i),
        ),
{
    let upto = positions.take(i + 1);
    assert(upto.drop_last() =~= positions.take(i));
    assert(upto.last() == positions[i]);
    if i > 0 {
        let before = positions.take(i);
        assert(before.drop_last() =~= positions.take(i - 1));
        assert(before.last() == positions[i - 1]);
    }
}

/// A stream in which no tick's vertical displacement falls below the
/// velocity threshold raises no strike, whatever the history it starts from
/// and whatever the acceleration threshold.
pub proof fn lemma_no_strike_without_fall(
    history: History,
    positions: Seq<Vector>,
    thresholds: Thresholds,
)
    requires
        forall|i: int|
            0 <= i < positions.len() ==> positions[i].y - previous_position(
                history,
                positions,
                i,
            ).y >= thresholds.vel_factor,
    ensures
        forall|i: int| 0 <= i < positions.len() ==> !fires_at(history, positions, thresholds, i),
{
    assert forall|i: int| 0 <= i < positions.len() implies !fires_at(
        history,
        positions,
        thresholds,
        i,
    ) by {
        lemma_history_follows_stream(history, positions, i);
    }
}

/// A body that is newly tracked, rests at the origin for two ticks and then
/// drops by more than both thresholds in one tick raises exactly one strike:
/// at the tick of the drop. The thresholds are such that rest is no strike.
pub proof fn lemma_sudden_drop_strikes_once(drop: Vector, thresholds: Thresholds)
    requires
        thresholds.acc_factor <= 0 || thresholds.vel_factor <= 0,
        drop.y < thresholds.acc_factor,
        drop.y < thresholds.vel_factor,
    ensures
        !fires_at(History::origin(), seq![Vector::zero(), Vector::zero(), drop], thresholds, 0),
        !fires_at(History::origin(), seq![Vector::zero(), Vector::zero(), drop], thresholds, 1),
        fires_at(History::origin(), seq![Vector::zero(), Vector::zero(), drop], thresholds, 2),
{
    let stream = seq![Vector::zero(), Vector::zero(), drop];
    let start = History::origin();
    lemma_history_follows_stream(start, stream, 0);
    lemma_history_follows_stream(start, stream, 1);
    lemma_history_follows_stream(start, stream, 2);
    assert(stream.take(0) =~= Seq::<Vector>::empty());
    assert(history_after(start, stream.take(0)) == start);
    assert(history_after(start, stream.take(1)).last_vel == Vector::zero());
    assert(history_after(start, stream.take(2)).last_vel == Vector::zero());
}

/// Ticks under the same thresholds compose: the samples of two ticks,
/// evaluated tick by tick, leave the histories that the samples of both
/// leave when taken in one row, and raise the same strikes.
pub proof fn lemma_ticks_compose(
    bodies: Map<u64, History>,
    first: Seq<PoseSample>,
    second: Seq<PoseSample>,
    thresholds: Thresholds,
    timestamp: u64,
)
    ensures
        observe_all(bodies, first + second, thresholds, timestamp).0 == observe_all(
            observe_all(bodies, first, thresholds, timestamp).0,
            second,
            thresholds,
            timestamp,
        ).0,
        observe_all(bodies, first + second, thresholds, timestamp).1 == observe_all(
            bodies,
            first,
            thresholds,
            timestamp,
        ).1 + observe_all(
            observe_all(bodies, first, thresholds, timestamp).0,
            second,
            thresholds,
            timestamp,
        ).1,
    decreases second.len(),
{
    let after_first = observe_all(bodies, first, thresholds, timestamp);
    if second.len() == 0 {
        assert(first + second =~= first);
        assert(after_first.1 + Seq::<ImpactEvent>::empty() =~= after_first.1);
    } else {
        lemma_ticks_compose(bodies, first, second.drop_last(), thresholds, timestamp);
        assert((first + second).drop_last() =~= first + second.drop_last());
        assert((first + second).last() == second.last());
        let before = observe_all(after_first.0, second.drop_last(), thresholds, timestamp);
        let event = ImpactEvent { body: second.last().body, timestamp };
        assert((after_first.1 + before.1).push(event) =~= after_first.1 + before.1.push(event));
    }
}

/// The positions that the samples of one tick, or of many ticks one after
/// the other, hold for `body`, in order.
pub open spec fn stream_of(samples: Seq<PoseSample>, body: u64) -> Seq<Vector>
    decreases samples.len(),
{
    if samples.len() == 0 {
        Seq::empty()
    } else if samples.last().body == body {
        stream_of(samples.drop_last(), body).push(samples.last().position@)
    } else {
        stream_of(samples.drop_last(), body)
    }
}

/// Tracked bodies do not disturb one another: whatever samples of other
/// bodies stand between its own, a body's history moves along its own
/// stream, and the set of tracked bodies stays as it is.
pub proof fn lemma_bodies_are_independent(
    bodies: Map<u64, History>,
    samples: Seq<PoseSample>,
    thresholds: Thresholds,
    timestamp: u64,
    body: u64,
)
    ensures
        observe_all(bodies, samples, thresholds, timestamp).0.contains_key(body)
            == bodies.contains_key(body),
        bodies.contains_key(body) ==> observe_all(bodies, samples, thresholds, timestamp).0[body]
            == history_after(bodies[body], stream_of(samples, body)),
    decreases samples.len(),
{
    if samples.len() > 0 {
        lemma_bodies_are_independent(bodies, samples.drop_last(), thresholds, timestamp, body);
        if samples.last().body == body {
            let stream = stream_of(samples, body);
            assert(stream.drop_last() =~= stream_of(samples.drop_last(), body));
        }
    }
}

/// A tracked body whose stream never falls by more than the velocity
/// threshold within one tick raises no event, whatever the other bodies do
/// and whatever the acceleration threshold.
pub proof fn lemma_no_event_without_fall(
    bodies: Map<u64, History>,
    samples: Seq<PoseSample>,
    thresholds: Thresholds,
    timestamp: u64,
    body: u64,
)
    requires
        bodies.contains_key(body),
        forall|i: int|
            0 <= i < stream_of(samples, body).len() ==> stream_of(samples, body)[i].y
                - previous_position(bodies[body], stream_of(samples, body), i).y
                >= thresholds.vel_factor,
    ensures
        forall|k: int|
            0 <= k < observe_all(bodies, samples, thresholds, timestamp).1.len()
                ==> #[trigger] observe_all(bodies, samples, thresholds, timestamp).1[k].body
                != body,
    decreases samples.len(),
{
    if samples.len() > 0 {
        let earlier = samples.drop_last();
        let stream = stream_of(samples, body);
        let start = bodies[body];
        if samples.last().body == body {
            assert(stream.drop_last() =~= stream_of(earlier, body));
            assert forall|i: int| 0 <= i < stream_of(earlier, body).len() implies stream_of(
                earlier,
                body,
            )[i].y - previous_position(start, stream_of(earlier, body), i).y
                >= thresholds.vel_factor by {
                assert(stream_of(earlier, body)[i] == stream[i]);
                assert(previous_position(start, stream_of(earlier, body), i) == previous_position(
                    start,
                    stream,
                    i,
                ));
            }
        }
        lemma_no_event_without_fall(bodies, earlier, thresholds, timestamp, body);
        lemma_bodies_are_independent(bodies, earlier, thresholds, timestamp, body);
        if samples.last().body == body {
            let last = stream.len() - 1;
            lemma_no_strike_without_fall(start, stream, thresholds);
            assert(stream.take(last) =~= stream.drop_last());
            assert(!fires_at(start, stream, thresholds, last));
        }
    }
}

} // verus!
