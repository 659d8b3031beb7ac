//! Geometry primitives: axis-aligned boxes, positions and the
//! cell/world coordinate transforms.
//!
//! Positions and extents are fixed-point integers in milli-units
//! (one thousandth of a world unit), so a cell edge of 2.5 world units
//! is exactly `CELL_SIZE_MILLI = 2500`.

use vstd::prelude::*;

verus! {

/// Edge length of one grid cell, in milli-units (2.5 world units).
pub const CELL_SIZE_MILLI: i64 = 2500;

/// Largest coordinate magnitude (in milli-units) the map pipeline accepts
/// from raw input; keeps all box arithmetic far from `i64` overflow.
pub const MAX_RAW_COORD: i64 = 1_000_000_000_000;

/// A position or extent in world space, in milli-units.
#[derive(Debug, Clone, Copy, PartialEq, Eq, Structural)]
pub struct Vec3 {
    pub x: i64,
    pub y: i64,
    pub z: i64,
}

/// An axis-aligned bounding box in world space, in milli-units.
#[derive(Debug, Clone, Copy, PartialEq, Eq, Structural)]
pub struct AABB {
    pub min_x: i64,
    pub min_y: i64,
    pub min_z: i64,
    pub max_x: i64,
    pub max_y: i64,
    pub max_z: i64,
}

impl AABB {
    /// The box with every bound at the origin.
    pub fn zero() -> (r: Self)
        ensures
            r == (AABB { min_x: 0, min_y: 0, min_z: 0, max_x: 0, max_y: 0, max_z: 0 }),
    {
        AABB { min_x: 0, min_y: 0, min_z: 0, max_x: 0, max_y: 0, max_z: 0 }
    }

    /// Pointwise expansion of `self` so that it encloses `other` as well.
    pub open spec fn spec_extend_by(self, other: Self) -> Self {
        AABB {
            min_x: if other.min_x < self.min_x { other.min_x } else { self.min_x },
            min_y: if other.min_y < self.min_y { other.min_y } else { self.min_y },
            min_z: if other.min_z < self.min_z { other.min_z } else { self.min_z },
            max_x: if other.max_x > self.max_x { other.max_x } else { self.max_x },
            max_y: if other.max_y > self.max_y { other.max_y } else { self.max_y },
            max_z: if other.max_z > self.max_z { other.max_z } else { self.max_z },
        }
    }

    /// Pointwise clamp of `self` so that it lies within `other`.
    pub open spec fn spec_limit_by(self, other: Self) -> Self {
        AABB {
            min_x: if self.min_x < other.min_x { other.min_x } else { self.min_x },
            min_y: if self.min_y < other.min_y { other.min_y } else { self.min_y },
            min_z: if self.min_z < other.min_z { other.min_z } else { self.min_z },
            max_x: if self.max_x > other.max_x { other.max_x } else { self.max_x },
            max_y: if self.max_y > other.max_y { other.max_y } else { self.max_y },
            max_z: if self.max_z > other.max_z { other.max_z } else { self.max_z },
        }
    }

    pub fn extend_by(&mut self, other: &Self)
        ensures
            *final(self) == old(self).spec_extend_by(*other),
    {
        if other.min_x < self.min_x {
            self.min_x = other.min_x;
        }
        if other.min_y < self.min_y {
            self.min_y = other.min_y;
        }
        if other.min_z < self.min_z {
            self.min_z = other.min_z;
        }
        if other.max_x > self.max_x {
            self.max_x = other.max_x;
        }
        if other.max_y > self.max_y {
            self.max_y = other.max_y;
        }
        if other.max_z > self.max_z {
            self.max_z = other.max_z;
        }
    }

    pub fn limit_by(&mut self, other: &Self)
        ensures
            *final(self) == old(self).spec_limit_by(*other),
    {
        if self.min_x < other.min_x {
            self.min_x = other.min_x;
        }
        if self.min_y < other.min_y {
            self.min_y = other.min_y;
        }
        if self.min_z < other.min_z {
            self.min_z = other.min_z;
        }
        if self.max_x > other.max_x {
            self.max_x = other.max_x;
        }
        if self.max_y > other.max_y {
            self.max_y = other.max_y;
        }
        if self.max_z > other.max_z {
            self.max_z = other.max_z;
        }
    }

    /// Strict (open-interval) overlap on all three axes.
    pub open spec fn spec_intersects(self, other: Self) -> bool {
        &&& self.min_x < other.max_x && self.max_x > other.min_x
        &&& self.min_y < other.max_y && self.max_y > other.min_y
        &&& self.min_z < other.max_z && self.max_z > other.min_z
    }

    pub fn intersects(&self, other: &Self) -> (r: bool)
        ensures
            r == self.spec_intersects(*other),
    {
        (self.min_x < other.max_x && self.max_x > other.min_x)
            && (self.min_y < other.max_y && self.max_y > other.min_y)
            && (self.min_z < other.max_z && self.max_z > other.min_z)
    }

    /// Closed-interval membership of a point.
    pub open spec fn spec_contains(self, position: Vec3) -> bool {
        &&& self.min_x <= position.x <= self.max_x
        &&& self.min_y <= position.y <= self.max_y
        &&& self.min_z <= position.z <= self.max_z
    }

    pub fn contains(&self, position: &Vec3) -> (r: bool)
        ensures
            r == self.spec_contains(*position),
    {
        (self.min_x <= position.x && self.max_x >= position.x)
            && (self.min_y <= position.y && self.max_y >= position.y)
            && (self.min_z <= position.z && self.max_z >= position.z)
    }
}

impl Vec3 {
    /// Whether `self` and `other` are within `max_diff` on both the x and
    /// z axes.
    pub open spec fn spec_max_diff_xz(self, other: Self, max_diff: i64) -> bool {
        &&& -max_diff <= self.x - other.x <= max_diff
        &&& -max_diff <= self.z - other.z <= max_diff
    }

    /// Whether `self` and `other` are within `max_diff` on the y axis.
    pub open spec fn spec_max_diff_y(self, other: Self, max_diff: i64) -> bool {
        -max_diff <= self.y - other.y <= max_diff
    }

    pub fn max_diff_xz(&self, other: &Self, max_diff: i64) -> (r: bool)
        requires
            -MAX_RAW_COORD <= self.x <= MAX_RAW_COORD,
            -MAX_RAW_COORD <= self.z <= MAX_RAW_COORD,
            -MAX_RAW_COORD <= other.x <= MAX_RAW_COORD,
            -MAX_RAW_COORD <= other.z <= MAX_RAW_COORD,
            0 <= max_diff,
        ensures
            r == self.spec_max_diff_xz(*other, max_diff),
    {
        let dx: i64 = self.x - other.x;
        let dz: i64 = self.z - other.z;
        -max_diff <= dx && dx <= max_diff && -max_diff <= dz && dz <= max_diff
    }

    pub fn max_diff_y(&self, other: &Self, max_diff: i64) -> (r: bool)
        requires
            -MAX_RAW_COORD <= self.y <= MAX_RAW_COORD,
            -MAX_RAW_COORD <= other.y <= MAX_RAW_COORD,
            0 <= max_diff,
        ensures
            r == self.spec_max_diff_y(*other, max_diff),
    {
        let dy: i64 = self.y - other.y;
        -max_diff <= dy && dy <= max_diff
    }
}

/// A box is a sane map boundary when its bounds are ordered and all
/// coordinates are small enough for cell arithmetic.
pub open spec fn bounds_wf(b: AABB) -> bool {
    &&& b.min_x <= b.max_x && b.min_y <= b.max_y && b.min_z <= b.max_z
    &&& -MAX_RAW_COORD <= b.min_x && b.max_x <= MAX_RAW_COORD
    &&& -MAX_RAW_COORD <= b.min_y && b.max_y <= MAX_RAW_COORD
    &&& -MAX_RAW_COORD <= b.min_z && b.max_z <= MAX_RAW_COORD
}

/// The grid cell whose box contains `position`, relative to `map_bounds`:
/// the floor of the offset from the minimum corner divided by the cell size.
pub open spec fn spec_position_to_cell(map_bounds: AABB, position: Vec3) -> (int, int, int) {
    (
        (position.x - map_bounds.min_x) / (CELL_SIZE_MILLI as int),
        (position.y - map_bounds.min_y) / (CELL_SIZE_MILLI as int),
        (position.z - map_bounds.min_z) / (CELL_SIZE_MILLI as int),
    )
}

pub fn position_to_cell(map_bounds: &AABB, position: &Vec3) -> (r: (usize, usize, usize))
    requires
        bounds_wf(*map_bounds),
        map_bounds.spec_contains(*position),
    ensures
        (r.0 as int, r.1 as int, r.2 as int) == spec_position_to_cell(*map_bounds, *position),
{
    let cx: i64 = (position.x - map_bounds.min_x) / CELL_SIZE_MILLI;
    let cy: i64 = (position.y - map_bounds.min_y) / CELL_SIZE_MILLI;
    let cz: i64 = (position.z - map_bounds.min_z) / CELL_SIZE_MILLI;
    (cx as usize, cy as usize, cz as usize)
}

/// The world-space centre of a cell: its minimum corner plus half a cell.
pub open spec fn spec_cell_to_position(map_bounds: AABB, cell: (usize, usize, usize)) -> Vec3 {
    Vec3 {
        x: (map_bounds.min_x + cell.0 * CELL_SIZE_MILLI + CELL_SIZE_MILLI / 2) as i64,
        y: (map_bounds.min_y + cell.1 * CELL_SIZE_MILLI + CELL_SIZE_MILLI / 2) as i64,
        z: (map_bounds.min_z + cell.2 * CELL_SIZE_MILLI + CELL_SIZE_MILLI / 2) as i64,
    }
}

pub fn cell_to_position(map_bounds: &AABB, cell: &(usize, usize, usize)) -> (r: Vec3)
    requires
        bounds_wf(*map_bounds),
        cell.0 <= 1_000_000,
        cell.1 <= 1_000_000,
        cell.2 <= 1_000_000,
    ensures
        r == spec_cell_to_position(*map_bounds, *cell),
{
    Vec3 {
        x: map_bounds.min_x + cell.0 as i64 * CELL_SIZE_MILLI + CELL_SIZE_MILLI / 2,
        y: map_bounds.min_y + cell.1 as i64 * CELL_SIZE_MILLI + CELL_SIZE_MILLI / 2,
        z: map_bounds.min_z + cell.2 as i64 * CELL_SIZE_MILLI + CELL_SIZE_MILLI / 2,
    }
}

} // verus!
