//! The restoring pull on a free contact body.
//!
//! A contact body that the scene graph does not hold in place is pulled, on
//! every tick, towards its rest place: the position of its parent plus a
//! fixed offset. The pull acts along the unit direction from the body to the
//! rest place and grows with the strength of the spring and with the
//! distance. A unit direction times a distance is the displacement itself,
//! so the force is the displacement scaled by the strength; it is exact in
//! whole units, and it is zero at rest, where there is no direction to take.
//! The torque is the offset, as it stands.

use crate::geometry::{Position, Vector};
use vstd::prelude::*;

verus! {

/// A force, in units of coordinate times strength.
#[derive(Clone, Copy, Debug, PartialEq, Eq, Structural)]
pub struct Force {
    pub x: i128,
    pub y: i128,
    pub z: i128,
}

impl View for Force {
    type V = Vector;

    open spec fn view(&self) -> Vector {
        Vector { x: self.x as int, y: self.y as int, z: self.z as int }
    }
}

/// What the physics integrator is handed for one body and one tick. It
/// replaces what was handed over the tick before.
#[derive(Clone, Copy, Debug, PartialEq, Eq, Structural)]
pub struct Pull {
    pub force: Force,
    pub torque: Position,
}

/// The spring between a contact body and its parent.
#[derive(Clone, Copy, Debug, PartialEq, Eq, Structural)]
pub struct Spring {
    /// Where the body rests, seen from its parent.
    pub offset: Position,
    /// The factor between displacement and force, in whole strength units.
    pub strength: i64,
}

/// The place at which a body with this parent and offset is at rest.
pub open spec fn rest_place(parent: Vector, offset: Vector) -> Vector {
    parent.plus(offset)
}

/// The force on a body at `body`: the way to the rest place, `strength` times.
pub open spec fn restoring_force(parent: Vector, offset: Vector, strength: int, body: Vector) -> Vector {
    rest_place(parent, offset).minus(body).times(strength)
}

impl Spring {
    /// A spring of strength one, under which the force is the displacement.
    pub fn new(offset: Position) -> (r: Spring)
        ensures
            r == (Spring { offset, strength: 1 }),
    {
        Spring { offset, strength: 1 }
    }

    /// The pull on a body at `body` whose parent is at `parent`.
    pub fn pull(&self, parent: Position, body: Position) -> (r: Pull)
        ensures
            r.force@ == restoring_force(parent@, self.offset@, self.strength as int, body@),
            r.torque == self.offset,
    {
        let strength = self.strength as i128;
        let x = parent.x as i128 + self.offset.x as i128 - body.x as i128;
        let y = parent.y as i128 + self.offset.y as i128 - body.y as i128;
        let z = parent.z as i128 + self.offset.z as i128 - body.z as i128;
        assert(-0x2_0000_0000 <= x <= 0x2_0000_0000);
        assert(-0x2_0000_0000 <= y <= 0x2_0000_0000);
        assert(-0x2_0000_0000 <= z <= 0x2_0000_0000);
        assert(-0x8000_0000_0000_0000 <= strength <= 0x8000_0000_0000_0000);
        proof {
            lemma_product_fits(x as int, strength as int);
            lemma_product_fits(y as int, strength as int);
            lemma_product_fits(z as int, strength as int);
        }
        Pull { force: Force { x: x * strength, y: y * strength, z: z * strength }, torque: self.offset }
    }
}

/// The product of a displacement to rest and a strength fits in 128 bits.
proof fn lemma_product_fits(way: int, strength: int)
    requires
        -0x2_0000_0000 <= way <= 0x2_0000_0000,
        -0x8000_0000_0000_0000 <= strength <= 0x8000_0000_0000_0000,
    ensures
        -0x1_0000_0000_0000_0000_0000_0000 <= way * strength <= 0x1_0000_0000_0000_0000_0000_0000,
{
    assert(-0x1_0000_0000_0000_0000_0000_0000 <= way * strength
        <= 0x1_0000_0000_0000_0000_0000_0000) by (nonlinear_arith)
        requires
            -0x2_0000_0000 <= way <= 0x2_0000_0000,
            -0x8000_0000_0000_0000 <= strength <= 0x8000_0000_0000_0000,
    ;
}

/// A body at its rest place is not pulled, whatever the strength.
pub proof fn lemma_no_force_at_rest(parent: Vector, offset: Vector, strength: int, body: Vector)
    requires
        body == rest_place(parent, offset),
    ensures
        restoring_force(parent, offset, strength, body) == Vector::zero(),
{
    assert(0 * strength == 0) by (nonlinear_arith);
}

/// Away from rest, a spring of non-zero strength does pull, and a spring of
/// strength one pulls with exactly the way to the rest place.
pub proof fn lemma_force_away_from_rest(parent: Vector, offset: Vector, strength: int, body: Vector)
    ensures
        strength != 0 && body != rest_place(parent, offset) ==> restoring_force(
            parent,
            offset,
            strength,
            body,
        ) != Vector::zero(),
        restoring_force(parent, offset, 1, body) == rest_place(parent, offset).minus(body),
{
    let way = rest_place(parent, offset).minus(body);
    if strength != 0 && body != rest_place(parent, offset) {
        assert(way.x != 0 || way.y != 0 || way.z != 0);
        assert(way.x != 0 ==> way.x * strength != 0) by (nonlinear_arith)
            requires
                strength != 0,
        ;
        assert(way.y != 0 ==> way.y * strength != 0) by (nonlinear_arith)
            requires
                strength != 0,
        ;
        assert(way.z != 0 ==> way.z * strength != 0) by (nonlinear_arith)
            requires
                strength != 0,
        ;
    }
}

/// The force is the unit direction to the rest place, times the strength,
/// times the distance: it is parallel to the way to the rest place, points
/// along it under a strength that is not negative, and its length is the
/// strength times the distance (stated of the squares, which are whole).
pub proof fn lemma_force_is_direction_times_distance(
    parent: Vector,
    offset: Vector,
    strength: int,
    body: Vector,
)
    ensures
        ({
            let way = rest_place(parent, offset).minus(body);
            let force = restoring_force(parent, offset, strength, body);
            &&& force.cross(way) == Vector::zero()
            &&& strength >= 0 ==> force.dot(way) >= 0
            &&& force.dot(force) == strength * strength * way.dot(way)
        }),
{
    let way = rest_place(parent, offset).minus(body);
    let force = restoring_force(parent, offset, strength, body);
    let (x, y, z) = (way.x, way.y, way.z);
    assert(force.x == x * strength && force.y == y * strength && force.z == z * strength);
    assert((y * strength) * z - (z * strength) * y == 0) by (nonlinear_arith);
    assert((z * strength) * x - (x * strength) * z == 0) by (nonlinear_arith);
    assert((x * strength) * y - (y * strength) * x == 0) by (nonlinear_arith);
    assert(strength >= 0 ==> (x * strength) * x + (y * strength) * y + (z * strength) * z >= 0)
        by (nonlinear_arith);
    assert((x * strength) * (x * strength) + (y * strength) * (y * strength) + (z * strength) * (z
        * strength) == strength * strength * (x * x + y * y + z * z)) by (nonlinear_arith);
}

} // verus!
