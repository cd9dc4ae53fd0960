//! Surfaces, boxes and the boundary between them.

use crate::binary64::{
    is_max, is_min, law_infinities_bound_every_number, Binary64, INFINITY_BITS, SIGN_WEIGHT,
};
use crate::text::same_text;
use vstd::prelude::*;

verus! {

/// What happens to a particle that meets a surface.
#[derive(Clone, Copy, Debug, PartialEq, Eq, Structural)]
pub enum BoundaryCondition {
    Transmission,
    Vacuum,
    Reflective,
}

/// The boundary condition that a word stands for.
pub open spec fn bc_of(word: Seq<char>) -> Option<BoundaryCondition> {
    if word == "transmission"@ {
        Some(BoundaryCondition::Transmission)
    } else if word == "reflective"@ || word == "reflection"@ {
        Some(BoundaryCondition::Reflective)
    } else if word == "vacuum"@ {
        Some(BoundaryCondition::Vacuum)
    } else {
        None
    }
}

/// Reads a boundary condition, or nothing where the word is not one.
pub fn parse_bc(word: &str) -> (r: Option<BoundaryCondition>)
    ensures
        r == bc_of(word@),
{
    if same_text(word, "transmission") {
        Some(BoundaryCondition::Transmission)
    } else if same_text(word, "reflective") || same_text(word, "reflection") {
        Some(BoundaryCondition::Reflective)
    } else if same_text(word, "vacuum") {
        Some(BoundaryCondition::Vacuum)
    } else {
        None
    }
}

/// The number of a boundary condition on the device.
pub fn bc_code(bc: BoundaryCondition) -> (r: i32)
    ensures
        r == match bc {
            BoundaryCondition::Transmission => 0int,
            BoundaryCondition::Vacuum => 1int,
            BoundaryCondition::Reflective => 2int,
        },
{
    match bc {
        BoundaryCondition::Transmission => 0,
        BoundaryCondition::Vacuum => 1,
        BoundaryCondition::Reflective => 2,
    }
}

/// A point or direction.
#[derive(Clone, Copy, Debug, PartialEq, Eq, Structural)]
pub struct Vec3 {
    pub x: Binary64,
    pub y: Binary64,
    pub z: Binary64,
}

/// An axis-aligned box.
#[derive(Clone, Copy, Debug, PartialEq, Eq, Structural)]
pub struct Aabb {
    pub min: Vec3,
    pub max: Vec3,
}

/// `p` lies in the box, its boundary included.
pub open spec fn in_box(b: Aabb, p: Vec3) -> bool {
    &&& b.min.x.at_most(p.x) && p.x.at_most(b.max.x)
    &&& b.min.y.at_most(p.y) && p.y.at_most(b.max.y)
    &&& b.min.z.at_most(p.z) && p.z.at_most(b.max.z)
}

/// The numbers of a point are numbers.
pub open spec fn is_point(p: Vec3) -> bool {
    !p.x.nan() && !p.y.nan() && !p.z.nan()
}

/// The bounds of the box that holds every point.
pub open spec fn whole_space() -> Aabb {
    let low = Binary64 { bits: 0xfff0_0000_0000_0000 };
    let high = Binary64 { bits: INFINITY_BITS };
    Aabb { min: Vec3 { x: low, y: low, z: low }, max: Vec3 { x: high, y: high, z: high } }
}

/// Every point lies in the whole space.
pub proof fn law_whole_space_holds_every_point(p: Vec3)
    requires
        is_point(p),
    ensures
        in_box(whole_space(), p),
{
    let low = Binary64 { bits: 0xfff0_0000_0000_0000 };
    let high = Binary64 { bits: INFINITY_BITS };
    law_infinities_bound_every_number(p.x, low, high);
    law_infinities_bound_every_number(p.y, low, high);
    law_infinities_bound_every_number(p.z, low, high);
}

/// The shape of a surface.
#[derive(Clone, Copy, Debug, PartialEq, Eq, Structural)]
pub enum Shape {
    PlaneX { x0: Binary64 },
    PlaneY { y0: Binary64 },
    PlaneZ { z0: Binary64 },
    /// A plane with a given normal, at a given distance from the origin.
    Plane { normal: Vec3, offset: Binary64 },
    Sphere { center: Vec3, radius: Binary64 },
    CylinderX { center_y: Binary64, center_z: Binary64, radius: Binary64 },
    CylinderY { center_x: Binary64, center_z: Binary64, radius: Binary64 },
    CylinderZ { center_x: Binary64, center_y: Binary64, radius: Binary64 },
}

/// A surface with its boundary condition and the box around what it encloses.
#[derive(Clone, Copy, Debug, PartialEq, Eq, Structural)]
pub struct Surface {
    pub shape: Shape,
    pub bc: BoundaryCondition,
    pub bounds: Aabb,
}

/// The box around one side of a surface. Planes across an axis bound one side of
/// that axis. Of any other surface the inside has the surface's own box, and the
/// outside is not bounded.
pub open spec fn half_space_box(s: Surface, positive: bool) -> Aabb {
    let all = whole_space();
    match s.shape {
        Shape::PlaneX { x0 } => if positive {
            Aabb { min: Vec3 { x: x0, ..all.min }, max: all.max }
        } else {
            Aabb { min: all.min, max: Vec3 { x: x0, ..all.max } }
        },
        Shape::PlaneY { y0 } => if positive {
            Aabb { min: Vec3 { y: y0, ..all.min }, max: all.max }
        } else {
            Aabb { min: all.min, max: Vec3 { y: y0, ..all.max } }
        },
        Shape::PlaneZ { z0 } => if positive {
            Aabb { min: Vec3 { z: z0, ..all.min }, max: all.max }
        } else {
            Aabb { min: all.min, max: Vec3 { z: z0, ..all.max } }
        },
        _ => if positive {
            all
        } else {
            s.bounds
        },
    }
}

/// `v` is an exact value, counted in units of the smallest positive number, rounded
/// to a binary64 number: no number lies between the two.
pub open spec fn is_rounded(v: Binary64, exact: int) -> bool {
    &&& !v.nan()
    &&& forall|w: Binary64|
        !w.nan() ==> (exact <= #[trigger] w.scaled() ==> v.scaled() <= w.scaled()) && (w.scaled() <= exact
            ==> w.scaled() <= v.scaled())
}

/// A box reaches from `radius` below to `radius` above a coordinate.
pub open spec fn reaches(min: Binary64, max: Binary64, center: Binary64, radius: Binary64) -> bool {
    &&& !center.nan() && !radius.nan() && 0 <= radius.scaled()
    &&& is_rounded(min, center.scaled() - radius.scaled())
    &&& is_rounded(max, center.scaled() + radius.scaled())
}

/// The box of a surface is the one around what it encloses, each bound rounded to a
/// number; where that is not bounded along an axis, neither is the box. The box of a
/// plane across an axis is not looked at.
pub open spec fn box_fits(s: Surface) -> bool {
    let b = s.bounds;
    let all = whole_space();
    match s.shape {
        Shape::Sphere { center, radius } => {
            &&& reaches(b.min.x, b.max.x, center.x, radius)
            &&& reaches(b.min.y, b.max.y, center.y, radius)
            &&& reaches(b.min.z, b.max.z, center.z, radius)
        },
        Shape::CylinderX { center_y, center_z, radius } => {
            &&& b.min.x == all.min.x && b.max.x == all.max.x
            &&& reaches(b.min.y, b.max.y, center_y, radius)
            &&& reaches(b.min.z, b.max.z, center_z, radius)
        },
        Shape::CylinderY { center_x, center_z, radius } => {
            &&& reaches(b.min.x, b.max.x, center_x, radius)
            &&& b.min.y == all.min.y && b.max.y == all.max.y
            &&& reaches(b.min.z, b.max.z, center_z, radius)
        },
        Shape::CylinderZ { center_x, center_y, radius } => {
            &&& reaches(b.min.x, b.max.x, center_x, radius)
            &&& reaches(b.min.y, b.max.y, center_y, radius)
            &&& b.min.z == all.min.z && b.max.z == all.max.z
        },
        Shape::Plane { .. } => b == all,
        _ => true,
    }
}

/// The square of the distance between two coordinates.
pub open spec fn square_apart(a: Binary64, b: Binary64) -> int {
    (a.scaled() - b.scaled()) * (a.scaled() - b.scaled())
}

/// A squared distance lies on a side of a radius, which belongs to both sides.
pub open spec fn radius_side(squared: int, radius: Binary64, positive: bool) -> bool {
    if positive {
        radius.scaled() * radius.scaled() <= squared
    } else {
        squared <= radius.scaled() * radius.scaled()
    }
}

/// A coordinate lies on a side of another, which belongs to both sides.
pub open spec fn coordinate_side(at: Binary64, bound: Binary64, positive: bool) -> bool {
    if positive {
        bound.at_most(at)
    } else {
        at.at_most(bound)
    }
}

/// `p` lies on a side of a surface, in exact geometry; the surface itself belongs to
/// both sides. Of a plane that is not across an axis either side may hold any point,
/// since neither is bounded by a box.
pub open spec fn lies_on(s: Surface, positive: bool, p: Vec3) -> bool {
    match s.shape {
        Shape::PlaneX { x0 } => coordinate_side(p.x, x0, positive),
        Shape::PlaneY { y0 } => coordinate_side(p.y, y0, positive),
        Shape::PlaneZ { z0 } => coordinate_side(p.z, z0, positive),
        Shape::Plane { .. } => true,
        Shape::Sphere { center, radius } => radius_side(
            square_apart(p.x, center.x) + square_apart(p.y, center.y) + square_apart(p.z, center.z),
            radius,
            positive,
        ),
        Shape::CylinderX { center_y, center_z, radius } => radius_side(
            square_apart(p.y, center_y) + square_apart(p.z, center_z),
            radius,
            positive,
        ),
        Shape::CylinderY { center_x, center_z, radius } => radius_side(
            square_apart(p.x, center_x) + square_apart(p.z, center_z),
            radius,
            positive,
        ),
        Shape::CylinderZ { center_x, center_y, radius } => radius_side(
            square_apart(p.x, center_x) + square_apart(p.y, center_y),
            radius,
            positive,
        ),
    }
}

proof fn lemma_square_bounds(d: int, r: int, rest: int)
    requires
        0 <= r,
        0 <= rest,
        d * d + rest <= r * r,
    ensures
        -r <= d <= r,
{
    assert(d * d <= r * r);
    assert(-r <= d <= r) by (nonlinear_arith)
        requires
            0 <= r,
            d * d <= r * r,
    ;
}

proof fn lemma_within_reach(at: Binary64, min: Binary64, max: Binary64, center: Binary64, radius: Binary64, rest: int)
    requires
        !at.nan(),
        reaches(min, max, center, radius),
        0 <= rest,
        square_apart(at, center) + rest <= radius.scaled() * radius.scaled(),
    ensures
        min.at_most(at),
        at.at_most(max),
{
    lemma_square_bounds(at.scaled() - center.scaled(), radius.scaled(), rest);
    assert(center.scaled() - radius.scaled() <= at.scaled() <= center.scaled() + radius.scaled());
}

proof fn lemma_squares(a: Binary64, b: Binary64)
    ensures
        0 <= square_apart(a, b),
{
    let d = a.scaled() - b.scaled();
    assert(0 <= d * d) by (nonlinear_arith);
}

/// Every point on a side of a surface lies in the box of that side.
pub proof fn law_side_lies_in_its_box(s: Surface, positive: bool, p: Vec3)
    requires
        is_point(p),
        box_fits(s),
        lies_on(s, positive, p),
    ensures
        in_box(half_space_box(s, positive), p),
{
    law_whole_space_holds_every_point(p);
    let b = s.bounds;
    if !positive {
        match s.shape {
            Shape::Sphere { center, radius } => {
                let (x, y, z) = (
                    square_apart(p.x, center.x),
                    square_apart(p.y, center.y),
                    square_apart(p.z, center.z),
                );
                lemma_squares(p.x, center.x);
                lemma_squares(p.y, center.y);
                lemma_squares(p.z, center.z);
                lemma_within_reach(p.x, b.min.x, b.max.x, center.x, radius, y + z);
                lemma_within_reach(p.y, b.min.y, b.max.y, center.y, radius, x + z);
                lemma_within_reach(p.z, b.min.z, b.max.z, center.z, radius, x + y);
            },
            Shape::CylinderX { center_y, center_z, radius } => {
                lemma_squares(p.y, center_y);
                lemma_squares(p.z, center_z);
                lemma_within_reach(p.y, b.min.y, b.max.y, center_y, radius, square_apart(p.z, center_z));
                lemma_within_reach(p.z, b.min.z, b.max.z, center_z, radius, square_apart(p.y, center_y));
            },
            Shape::CylinderY { center_x, center_z, radius } => {
                lemma_squares(p.x, center_x);
                lemma_squares(p.z, center_z);
                lemma_within_reach(p.x, b.min.x, b.max.x, center_x, radius, square_apart(p.z, center_z));
                lemma_within_reach(p.z, b.min.z, b.max.z, center_z, radius, square_apart(p.x, center_x));
            },
            Shape::CylinderZ { center_x, center_y, radius } => {
                lemma_squares(p.x, center_x);
                lemma_squares(p.y, center_y);
                lemma_within_reach(p.x, b.min.x, b.max.x, center_x, radius, square_apart(p.y, center_y));
                lemma_within_reach(p.y, b.min.y, b.max.y, center_y, radius, square_apart(p.x, center_x));
            },
            _ => {},
        }
    }
}

impl Aabb {
    /// The box that holds every point.
    pub fn infinite() -> (r: Self)
        ensures
            r == whole_space(),
    {
        let low = Binary64::negative_infinity();
        let high = Binary64::infinity();
        assert(SIGN_WEIGHT + INFINITY_BITS == 0xfff0_0000_0000_0000);
        Aabb { min: Vec3 { x: low, y: low, z: low }, max: Vec3 { x: high, y: high, z: high } }
    }
}

/// The box around one side of a surface.
pub fn half_space_aabb(s: &Surface, positive: bool) -> (r: Aabb)
    ensures
        r == half_space_box(*s, positive),
{
    let all = Aabb::infinite();
    let mut min = all.min;
    let mut max = all.max;
    match s.shape {
        Shape::PlaneX { x0 } => {
            if positive {
                min.x = x0;
            } else {
                max.x = x0;
            }
        },
        Shape::PlaneY { y0 } => {
            if positive {
                min.y = y0;
            } else {
                max.y = y0;
            }
        },
        Shape::PlaneZ { z0 } => {
            if positive {
                min.z = z0;
            } else {
                max.z = z0;
            }
        },
        _ => {
            if !positive {
                return s.bounds;
            }
        },
    }
    Aabb { min, max }
}

/// `r` is the largest of `values`: one of them, and no smaller than any that is a
/// number.
pub open spec fn is_largest(r: Binary64, values: Seq<Binary64>) -> bool {
    &&& values.contains(r)
    &&& forall|i: int| 0 <= i < values.len() && !(#[trigger] values[i]).nan() ==> values[i].at_most(r)
}

/// `r` is the smallest of `values`: one of them, and no larger than any that is a
/// number.
pub open spec fn is_smallest(r: Binary64, values: Seq<Binary64>) -> bool {
    &&& values.contains(r)
    &&& forall|i: int| 0 <= i < values.len() && !(#[trigger] values[i]).nan() ==> r.at_most(values[i])
}

/// `r` is what the boxes have in common.
pub open spec fn is_meet(r: Aabb, boxes: Seq<Aabb>) -> bool {
    &&& is_largest(r.min.x, boxes.map_values(|b: Aabb| b.min.x))
    &&& is_largest(r.min.y, boxes.map_values(|b: Aabb| b.min.y))
    &&& is_largest(r.min.z, boxes.map_values(|b: Aabb| b.min.z))
    &&& is_smallest(r.max.x, boxes.map_values(|b: Aabb| b.max.x))
    &&& is_smallest(r.max.y, boxes.map_values(|b: Aabb| b.max.y))
    &&& is_smallest(r.max.z, boxes.map_values(|b: Aabb| b.max.z))
}

/// `r` is the smallest box around the boxes.
pub open spec fn is_join(r: Aabb, boxes: Seq<Aabb>) -> bool {
    &&& is_smallest(r.min.x, boxes.map_values(|b: Aabb| b.min.x))
    &&& is_smallest(r.min.y, boxes.map_values(|b: Aabb| b.min.y))
    &&& is_smallest(r.min.z, boxes.map_values(|b: Aabb| b.min.z))
    &&& is_largest(r.max.x, boxes.map_values(|b: Aabb| b.max.x))
    &&& is_largest(r.max.y, boxes.map_values(|b: Aabb| b.max.y))
    &&& is_largest(r.max.z, boxes.map_values(|b: Aabb| b.max.z))
}

proof fn lemma_largest_step(r: Binary64, values: Seq<Binary64>, v: Binary64, s: Binary64)
    requires
        is_largest(r, values),
        is_max(r, v, s),
    ensures
        is_largest(s, values.push(v)),
{
    let longer = values.push(v);
    assert(longer.last() == v);
    if s == r {
        let i = choose|i: int| 0 <= i < values.len() && values[i] == r;
        assert(longer[i] == r);
    }
    assert forall|i: int| 0 <= i < longer.len() && !(#[trigger] longer[i]).nan() implies longer[i].at_most(s) by {
        if i < values.len() {
            assert(values[i] == longer[i]);
        }
    }
}

proof fn lemma_smallest_step(r: Binary64, values: Seq<Binary64>, v: Binary64, s: Binary64)
    requires
        is_smallest(r, values),
        is_min(r, v, s),
    ensures
        is_smallest(s, values.push(v)),
{
    let longer = values.push(v);
    assert(longer.last() == v);
    if s == r {
        let i = choose|i: int| 0 <= i < values.len() && values[i] == r;
        assert(longer[i] == r);
    }
    assert forall|i: int| 0 <= i < longer.len() && !(#[trigger] longer[i]).nan() implies s.at_most(longer[i]) by {
        if i < values.len() {
            assert(values[i] == longer[i]);
        }
    }
}

impl Aabb {
    /// What two boxes have in common.
    pub fn meet(&self, other: &Aabb) -> (r: Aabb)
        ensures
            is_meet(r, seq![*self, *other]),
            forall|boxes: Seq<Aabb>| #[trigger] is_meet(*self, boxes) ==> is_meet(r, boxes.push(*other)),
    {
        let r = Aabb {
            min: Vec3 {
                x: self.min.x.max(other.min.x),
                y: self.min.y.max(other.min.y),
                z: self.min.z.max(other.min.z),
            },
            max: Vec3 {
                x: self.max.x.min(other.max.x),
                y: self.max.y.min(other.max.y),
                z: self.max.z.min(other.max.z),
            },
        };
        proof {
            assert forall|boxes: Seq<Aabb>| #[trigger] is_meet(*self, boxes) implies is_meet(
                r,
                boxes.push(*other),
            ) by {
                lemma_meet_step(*self, boxes, *other, r);
            }
            lemma_meet_single(*self);
            assert(seq![*self].push(*other) =~= seq![*self, *other]);
        }
        r
    }

    /// The smallest box around two boxes.
    pub fn join(&self, other: &Aabb) -> (r: Aabb)
        ensures
            is_join(r, seq![*self, *other]),
            forall|boxes: Seq<Aabb>| #[trigger] is_join(*self, boxes) ==> is_join(r, boxes.push(*other)),
    {
        let r = Aabb {
            min: Vec3 {
                x: self.min.x.min(other.min.x),
                y: self.min.y.min(other.min.y),
                z: self.min.z.min(other.min.z),
            },
            max: Vec3 {
                x: self.max.x.max(other.max.x),
                y: self.max.y.max(other.max.y),
                z: self.max.z.max(other.max.z),
            },
        };
        proof {
            assert forall|boxes: Seq<Aabb>| #[trigger] is_join(*self, boxes) implies is_join(
                r,
                boxes.push(*other),
            ) by {
                lemma_join_step(*self, boxes, *other, r);
            }
            lemma_meet_single(*self);
            assert(seq![*self].push(*other) =~= seq![*self, *other]);
        }
        r
    }
}

pub(crate) proof fn lemma_meet_single(b: Aabb)
    ensures
        is_meet(b, seq![b]),
        is_join(b, seq![b]),
{
    let one = seq![b];
    assert(one.map_values(|b: Aabb| b.min.x)[0] == b.min.x);
    assert(one.map_values(|b: Aabb| b.min.y)[0] == b.min.y);
    assert(one.map_values(|b: Aabb| b.min.z)[0] == b.min.z);
    assert(one.map_values(|b: Aabb| b.max.x)[0] == b.max.x);
    assert(one.map_values(|b: Aabb| b.max.y)[0] == b.max.y);
    assert(one.map_values(|b: Aabb| b.max.z)[0] == b.max.z);
}

proof fn lemma_mapped_push(boxes: Seq<Aabb>, b: Aabb)
    ensures
        boxes.push(b).map_values(|b: Aabb| b.min.x) == boxes.map_values(|b: Aabb| b.min.x).push(b.min.x),
        boxes.push(b).map_values(|b: Aabb| b.min.y) == boxes.map_values(|b: Aabb| b.min.y).push(b.min.y),
        boxes.push(b).map_values(|b: Aabb| b.min.z) == boxes.map_values(|b: Aabb| b.min.z).push(b.min.z),
        boxes.push(b).map_values(|b: Aabb| b.max.x) == boxes.map_values(|b: Aabb| b.max.x).push(b.max.x),
        boxes.push(b).map_values(|b: Aabb| b.max.y) == boxes.map_values(|b: Aabb| b.max.y).push(b.max.y),
        boxes.push(b).map_values(|b: Aabb| b.max.z) == boxes.map_values(|b: Aabb| b.max.z).push(b.max.z),
{
    assert(boxes.push(b).map_values(|b: Aabb| b.min.x) =~= boxes.map_values(|b: Aabb| b.min.x).push(b.min.x));
    assert(boxes.push(b).map_values(|b: Aabb| b.min.y) =~= boxes.map_values(|b: Aabb| b.min.y).push(b.min.y));
    assert(boxes.push(b).map_values(|b: Aabb| b.min.z) =~= boxes.map_values(|b: Aabb| b.min.z).push(b.min.z));
    assert(boxes.push(b).map_values(|b: Aabb| b.max.x) =~= boxes.map_values(|b: Aabb| b.max.x).push(b.max.x));
    assert(boxes.push(b).map_values(|b: Aabb| b.max.y) =~= boxes.map_values(|b: Aabb| b.max.y).push(b.max.y));
    assert(boxes.push(b).map_values(|b: Aabb| b.max.z) =~= boxes.map_values(|b: Aabb| b.max.z).push(b.max.z));
}

proof fn lemma_meet_step(a: Aabb, boxes: Seq<Aabb>, b: Aabb, r: Aabb)
    requires
        is_meet(a, boxes),
        is_max(a.min.x, b.min.x, r.min.x) && is_max(a.min.y, b.min.y, r.min.y) && is_max(
            a.min.z,
            b.min.z,
            r.min.z,
        ),
        is_min(a.max.x, b.max.x, r.max.x) && is_min(a.max.y, b.max.y, r.max.y) && is_min(
            a.max.z,
            b.max.z,
            r.max.z,
        ),
    ensures
        is_meet(r, boxes.push(b)),
{
    lemma_mapped_push(boxes, b);
    lemma_largest_step(a.min.x, boxes.map_values(|b: Aabb| b.min.x), b.min.x, r.min.x);
    lemma_largest_step(a.min.y, boxes.map_values(|b: Aabb| b.min.y), b.min.y, r.min.y);
    lemma_largest_step(a.min.z, boxes.map_values(|b: Aabb| b.min.z), b.min.z, r.min.z);
    lemma_smallest_step(a.max.x, boxes.map_values(|b: Aabb| b.max.x), b.max.x, r.max.x);
    lemma_smallest_step(a.max.y, boxes.map_values(|b: Aabb| b.max.y), b.max.y, r.max.y);
    lemma_smallest_step(a.max.z, boxes.map_values(|b: Aabb| b.max.z), b.max.z, r.max.z);
}

proof fn lemma_join_step(a: Aabb, boxes: Seq<Aabb>, b: Aabb, r: Aabb)
    requires
        is_join(a, boxes),
        is_min(a.min.x, b.min.x, r.min.x) && is_min(a.min.y, b.min.y, r.min.y) && is_min(
            a.min.z,
            b.min.z,
            r.min.z,
        ),
        is_max(a.max.x, b.max.x, r.max.x) && is_max(a.max.y, b.max.y, r.max.y) && is_max(
            a.max.z,
            b.max.z,
            r.max.z,
        ),
    ensures
        is_join(r, boxes.push(b)),
{
    lemma_mapped_push(boxes, b);
    lemma_smallest_step(a.min.x, boxes.map_values(|b: Aabb| b.min.x), b.min.x, r.min.x);
    lemma_smallest_step(a.min.y, boxes.map_values(|b: Aabb| b.min.y), b.min.y, r.min.y);
    lemma_smallest_step(a.min.z, boxes.map_values(|b: Aabb| b.min.z), b.min.z, r.min.z);
    lemma_largest_step(a.max.x, boxes.map_values(|b: Aabb| b.max.x), b.max.x, r.max.x);
    lemma_largest_step(a.max.y, boxes.map_values(|b: Aabb| b.max.y), b.max.y, r.max.y);
    lemma_largest_step(a.max.z, boxes.map_values(|b: Aabb| b.max.z), b.max.z, r.max.z);
}

/// A point in every box is in what they have in common.
pub proof fn law_meet_holds_common_points(r: Aabb, boxes: Seq<Aabb>, p: Vec3)
    requires
        is_meet(r, boxes),
        forall|i: int| 0 <= i < boxes.len() ==> in_box(#[trigger] boxes[i], p),
    ensures
        in_box(r, p),
{
    let v = boxes.map_values(|b: Aabb| b.min.x);
    let i = choose|i: int| 0 <= i < v.len() && v[i] == r.min.x;
    assert(in_box(boxes[i], p));
    let v = boxes.map_values(|b: Aabb| b.min.y);
    let i = choose|i: int| 0 <= i < v.len() && v[i] == r.min.y;
    assert(in_box(boxes[i], p));
    let v = boxes.map_values(|b: Aabb| b.min.z);
    let i = choose|i: int| 0 <= i < v.len() && v[i] == r.min.z;
    assert(in_box(boxes[i], p));
    let v = boxes.map_values(|b: Aabb| b.max.x);
    let i = choose|i: int| 0 <= i < v.len() && v[i] == r.max.x;
    assert(in_box(boxes[i], p));
    let v = boxes.map_values(|b: Aabb| b.max.y);
    let i = choose|i: int| 0 <= i < v.len() && v[i] == r.max.y;
    assert(in_box(boxes[i], p));
    let v = boxes.map_values(|b: Aabb| b.max.z);
    let i = choose|i: int| 0 <= i < v.len() && v[i] == r.max.z;
    assert(in_box(boxes[i], p));
}

/// A point in any box is in the box around them.
pub proof fn law_join_holds_all_points(r: Aabb, boxes: Seq<Aabb>, i: int, p: Vec3)
    requires
        is_join(r, boxes),
        0 <= i < boxes.len(),
        in_box(boxes[i], p),
    ensures
        in_box(r, p),
{
    assert(boxes.map_values(|b: Aabb| b.min.x)[i] == boxes[i].min.x);
    assert(boxes.map_values(|b: Aabb| b.min.y)[i] == boxes[i].min.y);
    assert(boxes.map_values(|b: Aabb| b.min.z)[i] == boxes[i].min.z);
    assert(boxes.map_values(|b: Aabb| b.max.x)[i] == boxes[i].max.x);
    assert(boxes.map_values(|b: Aabb| b.max.y)[i] == boxes[i].max.y);
    assert(boxes.map_values(|b: Aabb| b.max.z)[i] == boxes[i].max.z);
}

/// The words for the boundary conditions, and their numbers on the device, tell them
/// apart.
pub proof fn law_boundaries_have_their_words(word: &str, r: Option<BoundaryCondition>, bc: BoundaryCondition, code: i32)
    requires
        call_ensures(parse_bc, (word,), r),
        call_ensures(bc_code, (bc,), code),
    ensures
        r == Some(BoundaryCondition::Transmission) <==> word@ == "transmission"@,
        r == Some(BoundaryCondition::Vacuum) <==> word@ == "vacuum"@,
        r == Some(BoundaryCondition::Reflective) <==> word@ == "reflective"@ || word@ == "reflection"@,
        code == 0 <==> bc == BoundaryCondition::Transmission,
        code == 1 <==> bc == BoundaryCondition::Vacuum,
        code == 2 <==> bc == BoundaryCondition::Reflective,
{
    reveal_strlit("transmission");
    reveal_strlit("vacuum");
    reveal_strlit("reflective");
    reveal_strlit("reflection");
    assert("transmission"@.len() == 12 && "vacuum"@.len() == 6 && "reflective"@.len() == 10 && "reflection"@.len()
        == 10);
}

/// The box of a side of a plane across an axis holds exactly the points of that side;
/// that of the inside of any other surface is the surface's own, and its outside is not
/// bounded.
pub proof fn law_plane_bounds_one_side(s: &Surface, positive: bool, r: Aabb, p: Vec3)
    requires
        call_ensures(half_space_aabb, (s, positive), r),
        is_point(p),
    ensures
        s.shape matches Shape::PlaneX { x0 } ==> (!x0.nan() ==> (in_box(r, p) <==> if positive {
            x0.scaled() <= p.x.scaled()
        } else {
            p.x.scaled() <= x0.scaled()
        })),
        s.shape matches Shape::PlaneY { y0 } ==> (!y0.nan() ==> (in_box(r, p) <==> if positive {
            y0.scaled() <= p.y.scaled()
        } else {
            p.y.scaled() <= y0.scaled()
        })),
        s.shape matches Shape::PlaneZ { z0 } ==> (!z0.nan() ==> (in_box(r, p) <==> if positive {
            z0.scaled() <= p.z.scaled()
        } else {
            p.z.scaled() <= z0.scaled()
        })),
        !(s.shape is PlaneX || s.shape is PlaneY || s.shape is PlaneZ) ==> if positive {
            in_box(r, p)
        } else {
            r == s.bounds
        },
{
    law_whole_space_holds_every_point(p);
}

/// Where the bounds are numbers, what two boxes have in common holds exactly the points
/// of both, and the box around two boxes holds the points of either.
pub proof fn law_common_and_joint_boxes(a: &Aabb, b: &Aabb, both: Aabb, either: Aabb, p: Vec3)
    requires
        call_ensures(Aabb::meet, (a, b), both),
        call_ensures(Aabb::join, (a, b), either),
        is_point(a.min) && is_point(a.max) && is_point(b.min) && is_point(b.max),
    ensures
        in_box(both, p) <==> in_box(*a, p) && in_box(*b, p),
        in_box(*a, p) || in_box(*b, p) ==> in_box(either, p),
{
    let boxes = seq![*a, *b];
    assert(boxes[0] == *a && boxes[1] == *b);
    if in_box(*a, p) && in_box(*b, p) {
        law_meet_holds_common_points(both, boxes, p);
    }
    if in_box(*a, p) {
        law_join_holds_all_points(either, boxes, 0, p);
    }
    if in_box(*b, p) {
        law_join_holds_all_points(either, boxes, 1, p);
    }
    if in_box(both, p) {
        let (ix, iy, iz) = (
            boxes.map_values(|c: Aabb| c.min.x),
            boxes.map_values(|c: Aabb| c.min.y),
            boxes.map_values(|c: Aabb| c.min.z),
        );
        let (ax, ay, az) = (
            boxes.map_values(|c: Aabb| c.max.x),
            boxes.map_values(|c: Aabb| c.max.y),
            boxes.map_values(|c: Aabb| c.max.z),
        );
        assert(ix[0] == a.min.x && ix[1] == b.min.x && iy[0] == a.min.y && iy[1] == b.min.y && iz[0] == a.min.z && iz[1]
            == b.min.z);
        assert(ax[0] == a.max.x && ax[1] == b.max.x && ay[0] == a.max.y && ay[1] == b.max.y && az[0] == a.max.z && az[1]
            == b.max.z);
    }
}

} // verus!
