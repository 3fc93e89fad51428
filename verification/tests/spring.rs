use vr_contact::geometry::Position;
use vr_contact::spring::{Force, Pull, Spring};

/// Coordinate units per metre in these tests: micrometres.
const SCALE: f64 = 1_000_000.0;

fn at(x: f64, y: f64, z: f64) -> Position {
    Position {
        x: (x * SCALE).round() as i32,
        y: (y * SCALE).round() as i32,
        z: (z * SCALE).round() as i32,
    }
}

fn grip_spring() -> Spring {
    Spring::new(at(0.0, 0.0, 0.3))
}

#[test]
fn new_spring_has_strength_one() {
    assert_eq!(grip_spring(), Spring { offset: Position { x: 0, y: 0, z: 300_000 }, strength: 1 });
}

#[test]
fn body_at_rest_is_not_pulled() {
    let parent = at(0.25, 1.1, -0.4);
    let body = at(0.25, 1.1, -0.1);
    let pull = grip_spring().pull(parent, body);
    assert_eq!(pull.force, Force { x: 0, y: 0, z: 0 });
}

#[test]
fn body_at_rest_is_not_pulled_by_a_stronger_spring() {
    let spring = Spring { offset: at(0.0, 0.0, 0.3), strength: 1_000_000_000_000 };
    let pull = spring.pull(at(-3.0, 0.0, 2.0), at(-3.0, 0.0, 2.3));
    assert_eq!(pull.force, Force { x: 0, y: 0, z: 0 });
}

#[test]
fn torque_is_the_offset() {
    let spring = grip_spring();
    let pull = spring.pull(at(1.0, 2.0, 3.0), at(-1.0, 0.5, 0.0));
    assert_eq!(pull.torque, Position { x: 0, y: 0, z: 300_000 });
    let pull = spring.pull(at(0.0, 0.0, 0.0), at(0.0, 0.0, 0.3));
    assert_eq!(pull.torque, spring.offset);
}

#[test]
fn force_is_the_way_to_the_rest_place() {
    let pull = grip_spring().pull(at(1.0, 2.0, 3.0), at(1.5, 1.0, 3.3));
    assert_eq!(
        pull,
        Pull {
            force: Force { x: -500_000, y: 1_000_000, z: 0 },
            torque: Position { x: 0, y: 0, z: 300_000 },
        }
    );
}

#[test]
fn force_grows_with_the_strength() {
    let spring = Spring { offset: Position { x: 1, y: 2, z: 3 }, strength: 7 };
    let pull = spring.pull(Position { x: 10, y: 20, z: 30 }, Position { x: 1, y: 42, z: 33 });
    assert_eq!(pull.force, Force { x: 70, y: -140, z: 0 });
    let spring = Spring { offset: Position { x: 1, y: 2, z: 3 }, strength: -2 };
    let pull = spring.pull(Position { x: 10, y: 20, z: 30 }, Position { x: 1, y: 42, z: 33 });
    assert_eq!(pull.force, Force { x: -20, y: 40, z: 0 });
}

#[test]
fn spring_without_strength_does_not_pull() {
    let spring = Spring { offset: Position { x: 1, y: 2, z: 3 }, strength: 0 };
    let pull = spring.pull(Position { x: 10, y: 20, z: 30 }, Position { x: -5, y: 0, z: 5 });
    assert_eq!(pull.force, Force { x: 0, y: 0, z: 0 });
    assert_eq!(pull.torque, Position { x: 1, y: 2, z: 3 });
}

#[test]
fn force_is_exact_at_the_limits() {
    let high = Position { x: i32::MAX, y: i32::MAX, z: i32::MAX };
    let low = Position { x: i32::MIN, y: i32::MIN, z: i32::MIN };
    let spring = Spring { offset: high, strength: i64::MAX };
    let pull = spring.pull(high, low);
    let way: i128 = 3 * (i32::MAX as i128) + 1;
    assert_eq!(way, 6_442_450_942);
    let force = way * i64::MAX as i128;
    assert_eq!(pull.force, Force { x: force, y: force, z: force });
    let spring = Spring { offset: low, strength: i64::MIN };
    let pull = spring.pull(low, high);
    let way: i128 = 3 * (i32::MIN as i128) + 1;
    let force = way * i64::MIN as i128;
    assert_eq!(pull.force, Force { x: force, y: force, z: force });
}
