use vstd::prelude::*;

use crate::direction::{axis_of, Axis, Direction};

verus! {

/// Lengths are fixed-point: one unit is a thousandth of a model pixel, and a
/// block is sixteen pixels.
pub const UNITS_PER_BLOCK: i64 = 16000;

/// Half a block, the offset between block corner and block center.
pub const HALF_BLOCK: i64 = 8000;

/// A point or extent in fixed-point units.
#[derive(Debug, Clone, Copy, PartialEq, Eq, Structural)]
pub struct Vec3 {
    pub x: i32,
    pub y: i32,
    pub z: i32,
}

impl Vec3 {
    pub fn new(x: i32, y: i32, z: i32) -> (r: Vec3)
        ensures
            r == (Vec3 { x, y, z }),
    {
        Vec3 { x, y, z }
    }

    /// The component along `axis`.
    pub fn component(&self, axis: Axis) -> (r: i32)
        ensures
            r == component_of(*self, axis),
    {
        match axis {
            Axis::X => self.x,
            Axis::Y => self.y,
            Axis::Z => self.z,
        }
    }
}

pub open spec fn component_of(v: Vec3, axis: Axis) -> i32 {
    match axis {
        Axis::X => v.x,
        Axis::Y => v.y,
        Axis::Z => v.z,
    }
}

/// A rotation of one element about a pivot; `angle` is in thousandths of a degree.
#[derive(Debug, Clone, Copy, PartialEq, Eq, Structural)]
pub struct ElementRotation {
    pub origin: Vec3,
    pub axis: Axis,
    pub angle: i32,
    pub rescale: bool,
}

/// The two in-plane axes (horizontal, vertical) of a face on the given axis.
pub open spec fn plane_axes(a: Axis) -> (Axis, Axis) {
    match a {
        Axis::X => (Axis::Z, Axis::Y),
        Axis::Y => (Axis::X, Axis::Z),
        Axis::Z => (Axis::X, Axis::Y),
    }
}

/// Sign multipliers (horizontal, vertical) of a face's texture axes.
pub open spec fn uv_signs(d: Direction) -> (int, int) {
    if d == Direction::WEST || d == Direction::SOUTH {
        (1, -1)
    } else if d == Direction::UP {
        (1, 1)
    } else {
        (-1, 1)
    }
}

pub open spec fn min_int(a: int, b: int) -> int {
    if a <= b { a } else { b }
}

pub open spec fn max_int(a: int, b: int) -> int {
    if a <= b { b } else { a }
}

/// One inferred UV interval: shift to the block center, apply the sign, sort,
/// shift back.
pub open spec fn uv_interval(from: int, to: int, sign: int) -> (int, int) {
    let a = (from - HALF_BLOCK) * sign;
    let b = (to - HALF_BLOCK) * sign;
    (min_int(a, b) + HALF_BLOCK, max_int(a, b) + HALF_BLOCK)
}

/// The UV box (from_x, from_y, to_x, to_y) inferred for face `d` of the
/// element spanning `from`..`to`.
pub open spec fn dynamic_uv(from: Vec3, to: Vec3, d: Direction) -> (int, int, int, int) {
    let (h, v) = plane_axes(axis_of(d));
    let (nx, ny) = uv_signs(d);
    let x = uv_interval(component_of(from, h) as int, component_of(to, h) as int, nx);
    let y = uv_interval(component_of(from, v) as int, component_of(to, v) as int, ny);
    (x.0, y.0, x.1, y.1)
}

fn sorted_interval(from: i32, to: i32, negate: bool) -> (r: (i64, i64))
    ensures
        r.0 == uv_interval(from as int, to as int, if negate { -1 } else { 1 }).0,
        r.1 == uv_interval(from as int, to as int, if negate { -1 } else { 1 }).1,
{
    let mut a: i64 = from as i64 - HALF_BLOCK;
    let mut b: i64 = to as i64 - HALF_BLOCK;
    if negate {
        a = -a;
        b = -b;
    }
    if a <= b {
        (a + HALF_BLOCK, b + HALF_BLOCK)
    } else {
        (b + HALF_BLOCK, a + HALF_BLOCK)
    }
}

/// The UV box inferred for face `direction` of an element spanning `from`..`to`.
pub fn infer_uv(from: Vec3, to: Vec3, direction: Direction) -> (r: (i64, i64, i64, i64))
    ensures
        (r.0 as int, r.1 as int, r.2 as int, r.3 as int) == dynamic_uv(from, to, direction),
{
    let (h, v) = match direction.axis() {
        Axis::X => (Axis::Z, Axis::Y),
        Axis::Y => (Axis::X, Axis::Z),
        Axis::Z => (Axis::X, Axis::Y),
    };
    let (negate_x, negate_y) = if direction == Direction::WEST || direction == Direction::SOUTH {
        (false, true)
    } else if direction == Direction::UP {
        (false, false)
    } else {
        (true, false)
    };
    let x = sorted_interval(from.component(h), to.component(h), negate_x);
    let y = sorted_interval(from.component(v), to.component(v), negate_y);
    (x.0, y.0, x.1, y.1)
}

/// An element's placement as the factors of `translate(center) * rotate * scale`:
/// twice the center (so that it stays whole), the size, and the rotation.
#[derive(Debug, Clone, Copy, PartialEq, Eq)]
pub struct ModelTransform {
    pub center_twice: (i64, i64, i64),
    pub size: (i64, i64, i64),
    pub rotation: Option<(Axis, i32)>,
}

/// The transform of an element spanning `from`..`to` with an optional rotation.
pub open spec fn model_transform(
    from: Vec3,
    to: Vec3,
    rotation: Option<ElementRotation>,
) -> ModelTransform {
    ModelTransform {
        center_twice: (
            (from.x + to.x) as i64,
            (from.y + to.y) as i64,
            (from.z + to.z) as i64,
        ),
        size: ((to.x - from.x) as i64, (to.y - from.y) as i64, (to.z - from.z) as i64),
        rotation: match rotation {
            Some(r) => Some((r.axis, r.angle)),
            None => None,
        },
    }
}

/// Computes the transform factors of an element.
pub fn transform_of(from: Vec3, to: Vec3, rotation: Option<ElementRotation>) -> (r: ModelTransform)
    ensures
        r == model_transform(from, to, rotation),
{
    let center_twice = (
        from.x as i64 + to.x as i64,
        from.y as i64 + to.y as i64,
        from.z as i64 + to.z as i64,
    );
    let size = (to.x as i64 - from.x as i64, to.y as i64 - from.y as i64, to.z as i64 - from.z as i64);
    let rotation = match rotation {
        Some(r) => Some((r.axis, r.angle)),
        None => None,
    };
    ModelTransform { center_twice, size, rotation }
}

} // verus!
