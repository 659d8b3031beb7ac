//! The map preprocessor and pathfinder.
//!
//! A raw map (name, size table, object list, spawn list) is turned into
//! an axis-aligned bound, a chunk index, a 3D occupancy grid, and a
//! walkable grid computed by a flood fill from the spawn cells. Paths
//! are found over the walkable grid and then simplified.
//!
//! All coordinates are fixed-point milli-units (see `utils`).

use crate::grid::{cell_at, flat_idx, grid_cells, grid_dims, grid_wf, in_dims, CellGrid};
use crate::grid::{lemma_flat_idx_bounds, lemma_flat_idx_injective};
use crate::utils::{bounds_wf, Vec3, AABB, CELL_SIZE_MILLI, MAX_RAW_COORD};
use std::collections::VecDeque;
use vstd::prelude::*;

verus! {

/// Height of the player column in cells: `floor(15 / 2.5)`.
pub const PLAYER_HEIGHT: usize = 6;

/// A chunk spans 130 cells on the x and z axes.
pub const CHUNK_CELLS: usize = 130;

/// Edge length of one chunk in milli-units: `130 * CELL_SIZE_MILLI`.
pub const CHUNK_SIZE_MILLI: i64 = 325_000;

/// Coordinate magnitude cap on raw object positions and sizes, so every
/// derived box stays within `MAX_RAW_COORD`.
pub const RAW_COORD_LIMIT: i64 = 250_000_000_000;

/// The hard clamp applied to every map's bounds.
pub open spec fn spec_max_map_bounds() -> AABB {
    AABB {
        min_x: -800_000i64,
        min_y: -200_000i64,
        min_z: -800_000i64,
        max_x: 800_000i64,
        max_y: 200_000i64,
        max_z: 800_000i64,
    }
}

/// The hard clamp applied to every map's bounds (±800 world units on x
/// and z, ±200 on y).
pub fn max_map_bounds() -> (r: AABB)
    ensures
        r == spec_max_map_bounds(),
{
    AABB {
        min_x: -800_000,
        min_y: -200_000,
        min_z: -800_000,
        max_x: 800_000,
        max_y: 200_000,
        max_z: 800_000,
    }
}

/// Object ids the collision filter drops.
pub open spec fn spec_excluded_id(id: u32) -> bool {
    id == 4 || id == 13 || id == 14 || id == 15 || id == 18 || id == 23 || id == 26 || id == 29
        || id == 32 || id == 38 || id == 45 || id == 77
}

fn is_excluded_id(id: u32) -> (r: bool)
    ensures
        r == spec_excluded_id(id),
{
    id == 4 || id == 13 || id == 14 || id == 15 || id == 18 || id == 23 || id == 26 || id == 29
        || id == 32 || id == 38 || id == 45 || id == 77
}

/// One object of a raw map, with its position in milli-units.
#[derive(Debug, Clone, Copy)]
pub struct RawMapObject {
    pub position: [i64; 3],
    pub size_index: Option<usize>,
    pub id: Option<u32>,
    pub not_collidable: Option<u8>,
    pub border: Option<u8>,
    pub direction: Option<u8>,
}

/// The mode list of a raw map.
#[derive(Debug, Clone)]
pub struct RawMapConfig {
    pub modes: Vec<u32>,
}

/// A raw map as handed in by the catalog: the interleaved size table
/// `sizes` holds triples of milli-unit extents, and each spawn entry is
/// a row of optional milli-unit coordinates.
#[derive(Debug, Clone)]
pub struct RawMap {
    pub name: String,
    pub sizes: Vec<i64>,
    pub objects: Vec<RawMapObject>,
    pub config: RawMapConfig,
    pub spawns: Vec<Vec<Option<i64>>>,
}

/// Errors that abort map preprocessing.
#[derive(Debug, Clone, Copy, PartialEq, Eq, Structural)]
pub enum MapParseError {
    /// An object's size index points outside the size table.
    MissingSize,
    /// A spawn entry has fewer than three coordinates.
    SpawnTooShort,
    /// A spawn coordinate is null.
    NullSpawn,
    /// A spawn's cell lies outside the map's grid.
    OutOfBoundsCell,
}

/// A ramp: its box and the direction it faces (0..3).
#[derive(Debug, Clone, Copy, PartialEq, Eq, Structural)]
pub struct Ramp {
    pub bounds: AABB,
    pub direction: u8,
}

/// Every raw coordinate within the cap that keeps box arithmetic exact.
pub open spec fn raw_map_wf(raw: RawMap) -> bool {
    &&& forall|i: int, k: int|
        0 <= i < raw.objects@.len() && 0 <= k < 3 ==> -RAW_COORD_LIMIT
            <= #[trigger] raw.objects@[i].position@[k] <= RAW_COORD_LIMIT
    &&& forall|i: int| 0 <= i < raw.sizes@.len() ==> 0 <= #[trigger] raw.sizes@[i] <= RAW_COORD_LIMIT
    &&& forall|i: int|
        0 <= i < raw.objects@.len() && (#[trigger] raw.objects@[i].direction) is Some
            ==> raw.objects@[i].direction->0 <= 3
    &&& forall|i: int, k: int|
        0 <= i < raw.spawns@.len() && 0 <= k < raw.spawns@[i]@.len()
            && #[trigger] raw.spawns@[i]@[k] is Some ==> -MAX_RAW_COORD
            <= raw.spawns@[i]@[k]->0 <= MAX_RAW_COORD
}

/// The size table folded into triples; a trailing partial triple is
/// dropped.
pub open spec fn spec_size_groups(sizes: Seq<i64>) -> Seq<Vec3> {
    Seq::new(
        (sizes.len() / 3) as nat,
        |i: int| Vec3 { x: sizes[3 * i], y: sizes[3 * i + 1], z: sizes[3 * i + 2] },
    )
}

impl RawMap {
    /// Folds the interleaved `sizes` table into extent triples.
    pub fn get_size_groups(&self) -> (r: Vec<Vec3>)
        ensures
            r@ == spec_size_groups(self.sizes@),
    {
        let mut res: Vec<Vec3> = Vec::new();
        let len_u: usize = self.sizes.len();
        let n: usize = len_u / 3;
        proof {
            vstd::arithmetic::div_mod::lemma_fundamental_div_mod(len_u as int, 3);
        }
        let mut i: usize = 0;
        while i < n
            invariant
                i <= n,
                len_u == self.sizes@.len(),
                n == len_u / 3,
                3 * n <= len_u,
                r_matches_prefix(res@, self.sizes@, i as int),
            decreases n - i,
        {
            res.push(
                Vec3 {
                    x: self.sizes[3 * i],
                    y: self.sizes[3 * i + 1],
                    z: self.sizes[3 * i + 2],
                },
            );
            i += 1;
        }
        proof {
            assert(res@ =~= spec_size_groups(self.sizes@));
        }
        res
    }
}

/// The first `i` size triples, already folded.
pub open spec fn r_matches_prefix(res: Seq<Vec3>, sizes: Seq<i64>, i: int) -> bool {
    &&& res.len() == i
    &&& forall|j: int|
        0 <= j < i ==> #[trigger] res[j] == (Vec3 {
            x: sizes[3 * j],
            y: sizes[3 * j + 1],
            z: sizes[3 * j + 2],
        })
}

/// The box of an object with the given extents: centred on x and z,
/// sitting on its base on y.
pub open spec fn spec_object_box(o: RawMapObject, size: Vec3) -> AABB {
    AABB {
        min_x: (o.position@[0] - size.x / 2) as i64,
        min_y: o.position@[1],
        min_z: (o.position@[2] - size.z / 2) as i64,
        max_x: (o.position@[0] + size.x / 2) as i64,
        max_y: (o.position@[1] + size.y) as i64,
        max_z: (o.position@[2] + size.z / 2) as i64,
    }
}

/// Whether the collision filter keeps an object (before the size-index
/// range check).
pub open spec fn spec_object_considered(o: RawMapObject) -> bool {
    &&& o.not_collidable is None
    &&& !(o.id is Some && spec_excluded_id(o.id->0))
    &&& o.size_index is Some
}

/// The accumulated result of the collision filter over a prefix of the
/// object list: the running map bound and the kept boxes, split into
/// plain objects, ramps and ladders.
pub struct FilteredObjects {
    pub bounds: AABB,
    pub objects: Seq<AABB>,
    pub ramps: Seq<Ramp>,
    pub ladders: Seq<AABB>,
}

/// The filter state after the first `i` objects; the running bound
/// grows by each kept box before any border extension, and the box is
/// classified by id (9 for ramps, 3 for ladders) after the border
/// extension.
pub open spec fn spec_filter_state(objects: Seq<RawMapObject>, sizes: Seq<Vec3>, i: int) -> FilteredObjects
    decreases i,
{
    if i <= 0 {
        FilteredObjects {
            bounds: AABB { min_x: 0, min_y: 0, min_z: 0, max_x: 0, max_y: 0, max_z: 0 },
            objects: Seq::empty(),
            ramps: Seq::empty(),
            ladders: Seq::empty(),
        }
    } else {
        let prev = spec_filter_state(objects, sizes, i - 1);
        let o = objects[i - 1];
        if spec_object_considered(o) && o.size_index->0 < sizes.len() {
            let bx = spec_object_box(o, sizes[o.size_index->0 as int]);
            let bounds = prev.bounds.spec_extend_by(bx);
            let bx = if o.border is Some {
                AABB { max_y: spec_max_map_bounds().max_y, ..bx }
            } else {
                bx
            };
            if o.id is Some && o.id->0 == 9 {
                FilteredObjects {
                    bounds,
                    ramps: prev.ramps.push(
                        Ramp {
                            bounds: bx,
                            direction: if o.direction is Some {
                                o.direction->0
                            } else {
                                0
                            },
                        },
                    ),
                    ..prev
                }
            } else if o.id is Some && o.id->0 == 3 {
                FilteredObjects { bounds, ladders: prev.ladders.push(bx), ..prev }
            } else {
                FilteredObjects { bounds, objects: prev.objects.push(bx), ..prev }
            }
        } else {
            prev
        }
    }
}

/// Whether some considered object in the prefix has a size index beyond
/// the size table, which aborts preprocessing.
pub open spec fn spec_filter_bad_index(objects: Seq<RawMapObject>, sizes: Seq<Vec3>, i: int) -> bool {
    exists|j: int|
        0 <= j < i && spec_object_considered(#[trigger] objects[j]) && objects[j].size_index->0
            >= sizes.len()
}

} // verus!

verus! {

/// The filter keeps the running bound around the zero box.
proof fn lemma_filter_bounds_around_zero(objects: Seq<RawMapObject>, sizes: Seq<Vec3>, i: int)
    ensures
        ({
            let b = spec_filter_state(objects, sizes, i).bounds;
            b.min_x <= 0 && b.min_y <= 0 && b.min_z <= 0 && b.max_x >= 0 && b.max_y >= 0
                && b.max_z >= 0
        }),
    decreases i,
{
    if i > 0 {
        lemma_filter_bounds_around_zero(objects, sizes, i - 1);
    }
}

/// Filters a raw map's objects: drops non-collidable and excluded-id
/// objects and those without a size index; computes each kept object's
/// box; grows the running map bound by it (before any border
/// extension); extends border objects up to the bound cap; classifies
/// by id into ramps (9), ladders (3) and plain objects; and finally
/// clamps the map bound. Fails when a considered size index lies
/// outside the size table.
pub fn filter_objects(raw: &RawMap) -> (r: Result<
    (AABB, Vec<AABB>, Vec<Ramp>, Vec<AABB>),
    MapParseError,
>)
    requires
        raw_map_wf(*raw),
    ensures
        ({
            let sizes = spec_size_groups(raw.sizes@);
            let n = raw.objects@.len() as int;
            match r {
                Result::Ok((bounds, objects, ramps, ladders)) => {
                    let st = spec_filter_state(raw.objects@, sizes, n);
                    &&& !spec_filter_bad_index(raw.objects@, sizes, n)
                    &&& bounds == st.bounds.spec_limit_by(spec_max_map_bounds())
                    &&& bounds_wf(bounds)
                    &&& objects@ == st.objects
                    &&& ramps@ == st.ramps
                    &&& ladders@ == st.ladders
                },
                Result::Err(e) => {
                    &&& e == MapParseError::MissingSize
                    &&& spec_filter_bad_index(raw.objects@, sizes, n)
                },
            }
        }),
{
    let sizes: Vec<Vec3> = raw.get_size_groups();
    let mut map_bounds = AABB::zero();
    let mut objects: Vec<AABB> = Vec::new();
    let mut ramps: Vec<Ramp> = Vec::new();
    let mut ladders: Vec<AABB> = Vec::new();
    let n: usize = raw.objects.len();
    let mut i: usize = 0;
    while i < n
        invariant
            i <= n,
            n == raw.objects@.len(),
            raw_map_wf(*raw),
            sizes@ == spec_size_groups(raw.sizes@),
            !spec_filter_bad_index(raw.objects@, sizes@, i as int),
            map_bounds == spec_filter_state(raw.objects@, sizes@, i as int).bounds,
            objects@ == spec_filter_state(raw.objects@, sizes@, i as int).objects,
            ramps@ == spec_filter_state(raw.objects@, sizes@, i as int).ramps,
            ladders@ == spec_filter_state(raw.objects@, sizes@, i as int).ladders,
        decreases n - i,
    {
        let o: RawMapObject = raw.objects[i];
        let considered: bool = o.not_collidable.is_none() && match o.id {
            Option::Some(id) => !is_excluded_id(id),
            Option::None => true,
        } && o.size_index.is_some();
        if considered {
            let si: usize = match o.size_index {
                Option::Some(si) => si,
                Option::None => 0,
            };
            if si >= sizes.len() {
                assert(spec_filter_bad_index(raw.objects@, sizes@, n as int)) by {
                    assert(spec_object_considered(raw.objects@[i as int]));
                }
                return Err(MapParseError::MissingSize);
            }
            let size: Vec3 = sizes[si];
            proof {
                assert(raw.sizes@[3 * si] == size.x && raw.sizes@[3 * si + 1] == size.y
                    && raw.sizes@[3 * si + 2] == size.z);
                assert(-RAW_COORD_LIMIT <= o.position@[0] <= RAW_COORD_LIMIT);
                assert(-RAW_COORD_LIMIT <= o.position@[1] <= RAW_COORD_LIMIT);
                assert(-RAW_COORD_LIMIT <= o.position@[2] <= RAW_COORD_LIMIT);
            }
            let mut bounds = AABB {
                min_x: o.position[0] - size.x / 2,
                min_y: o.position[1],
                min_z: o.position[2] - size.z / 2,
                max_x: o.position[0] + size.x / 2,
                max_y: o.position[1] + size.y,
                max_z: o.position[2] + size.z / 2,
            };
            map_bounds.extend_by(&bounds);
            if o.border.is_some() {
                bounds.max_y = 200_000;
            }
            let mut classified = false;
            match o.id {
                Option::Some(id) => {
                    if id == 9 {
                        let direction: u8 = match o.direction {
                            Option::Some(d) => d,
                            Option::None => 0,
                        };
                        ramps.push(Ramp { bounds, direction });
                        classified = true;
                    } else if id == 3 {
                        ladders.push(bounds);
                        classified = true;
                    }
                },
                Option::None => {},
            }
            if !classified {
                objects.push(bounds);
            }
        }
        i += 1;
    }
    proof {
        lemma_filter_bounds_around_zero(raw.objects@, sizes@, n as int);
    }
    map_bounds.limit_by(&max_map_bounds());
    Ok((map_bounds, objects, ramps, ladders))
}

} // verus!

verus! {

/// A chunk of the map: a coarse x/z tile holding the indices of every
/// object, ramp and ladder box that intersects it, to keep the
/// voxelization from scanning all objects for every cell.
#[derive(Debug, Clone)]
pub struct Chunk {
    pub bounds: AABB,
    pub objects: Vec<usize>,
    pub ramps: Vec<usize>,
    pub ladders: Vec<usize>,
}

/// The box of the chunk at chunk coordinates `(cx, cz)`: a
/// `CHUNK_SIZE_MILLI` square on x/z, spanning the full bound cap on y.
pub open spec fn spec_chunk_bounds(map_bounds: AABB, cx: int, cz: int) -> AABB {
    AABB {
        min_x: (map_bounds.min_x + cx * CHUNK_SIZE_MILLI) as i64,
        min_y: spec_max_map_bounds().min_y,
        min_z: (map_bounds.min_z + cz * CHUNK_SIZE_MILLI) as i64,
        max_x: (map_bounds.min_x + cx * CHUNK_SIZE_MILLI + CHUNK_SIZE_MILLI) as i64,
        max_y: spec_max_map_bounds().max_y,
        max_z: (map_bounds.min_z + cz * CHUNK_SIZE_MILLI + CHUNK_SIZE_MILLI) as i64,
    }
}

/// The indices below `i` of the boxes intersecting `cb`, in order.
pub open spec fn spec_box_hits(boxes: Seq<AABB>, cb: AABB, i: int) -> Seq<usize>
    decreases i,
{
    if i <= 0 {
        Seq::empty()
    } else if cb.spec_intersects(boxes[i - 1]) {
        spec_box_hits(boxes, cb, i - 1).push((i - 1) as usize)
    } else {
        spec_box_hits(boxes, cb, i - 1)
    }
}

/// The indices below `i` of the ramps whose boxes intersect `cb`.
pub open spec fn spec_ramp_hits(ramps: Seq<Ramp>, cb: AABB, i: int) -> Seq<usize>
    decreases i,
{
    if i <= 0 {
        Seq::empty()
    } else if cb.spec_intersects(ramps[i - 1].bounds) {
        spec_ramp_hits(ramps, cb, i - 1).push((i - 1) as usize)
    } else {
        spec_ramp_hits(ramps, cb, i - 1)
    }
}

/// A chunk list is the full row-major chunk index for the given bound
/// and object lists.
pub open spec fn chunks_wf(
    chunks: Seq<Chunk>,
    map_bounds: AABB,
    ncx: int,
    ncz: int,
    objects: Seq<AABB>,
    ramps: Seq<Ramp>,
    ladders: Seq<AABB>,
) -> bool {
    &&& chunks.len() == ncx * ncz
    &&& forall|cx: int, cz: int|
        0 <= cx < ncx && 0 <= cz < ncz ==> {
            let ch = #[trigger] chunks[cx * ncz + cz];
            &&& ch.bounds == spec_chunk_bounds(map_bounds, cx, cz)
            &&& ch.objects@ == spec_box_hits(objects, ch.bounds, objects.len() as int)
            &&& ch.ramps@ == spec_ramp_hits(ramps, ch.bounds, ramps.len() as int)
            &&& ch.ladders@ == spec_box_hits(ladders, ch.bounds, ladders.len() as int)
        }
}

/// Builds one chunk: its box and the indices of the boxes that
/// intersect it.
fn build_chunk(
    map_bounds: &AABB,
    cx: usize,
    cz: usize,
    objects: &Vec<AABB>,
    ramps: &Vec<Ramp>,
    ladders: &Vec<AABB>,
) -> (r: Chunk)
    requires
        bounds_wf(*map_bounds),
        cx <= 1_000_000,
        cz <= 1_000_000,
    ensures
        r.bounds == spec_chunk_bounds(*map_bounds, cx as int, cz as int),
        r.objects@ == spec_box_hits(objects@, r.bounds, objects@.len() as int),
        r.ramps@ == spec_ramp_hits(ramps@, r.bounds, ramps@.len() as int),
        r.ladders@ == spec_box_hits(ladders@, r.bounds, ladders@.len() as int),
{
    let chunk_bounds = AABB {
        min_x: map_bounds.min_x + cx as i64 * CHUNK_SIZE_MILLI,
        min_y: -200_000,
        min_z: map_bounds.min_z + cz as i64 * CHUNK_SIZE_MILLI,
        max_x: map_bounds.min_x + cx as i64 * CHUNK_SIZE_MILLI + CHUNK_SIZE_MILLI,
        max_y: 200_000,
        max_z: map_bounds.min_z + cz as i64 * CHUNK_SIZE_MILLI + CHUNK_SIZE_MILLI,
    };
    let mut chunk_objects: Vec<usize> = Vec::new();
    let mut i: usize = 0;
    while i < objects.len()
        invariant
            i <= objects@.len(),
            chunk_objects@ == spec_box_hits(objects@, chunk_bounds, i as int),
        decreases objects@.len() - i,
    {
        if chunk_bounds.intersects(&objects[i]) {
            chunk_objects.push(i);
        }
        i += 1;
    }
    let mut chunk_ramps: Vec<usize> = Vec::new();
    let mut i: usize = 0;
    while i < ramps.len()
        invariant
            i <= ramps@.len(),
            chunk_ramps@ == spec_ramp_hits(ramps@, chunk_bounds, i as int),
        decreases ramps@.len() - i,
    {
        if chunk_bounds.intersects(&ramps[i].bounds) {
            chunk_ramps.push(i);
        }
        i += 1;
    }
    let mut chunk_ladders: Vec<usize> = Vec::new();
    let mut i: usize = 0;
    while i < ladders.len()
        invariant
            i <= ladders@.len(),
            chunk_ladders@ == spec_box_hits(ladders@, chunk_bounds, i as int),
        decreases ladders@.len() - i,
    {
        if chunk_bounds.intersects(&ladders[i]) {
            chunk_ladders.push(i);
        }
        i += 1;
    }
    Chunk { bounds: chunk_bounds, objects: chunk_objects, ramps: chunk_ramps, ladders: chunk_ladders }
}

/// The chunk at a flat row-major index is the chunk of its coordinates.
pub open spec fn chunk_entry_wf(
    ch: Chunk,
    idx: int,
    map_bounds: AABB,
    ncz: int,
    objects: Seq<AABB>,
    ramps: Seq<Ramp>,
    ladders: Seq<AABB>,
) -> bool {
    &&& ch.bounds == spec_chunk_bounds(map_bounds, idx / ncz, idx % ncz)
    &&& ch.objects@ == spec_box_hits(objects, ch.bounds, objects.len() as int)
    &&& ch.ramps@ == spec_ramp_hits(ramps, ch.bounds, ramps.len() as int)
    &&& ch.ladders@ == spec_box_hits(ladders, ch.bounds, ladders.len() as int)
}

/// Builds the row-major chunk index over the map's x/z extent.
pub fn generate_object_chunks(
    map_bounds: &AABB,
    ncx: usize,
    ncz: usize,
    objects: &Vec<AABB>,
    ramps: &Vec<Ramp>,
    ladders: &Vec<AABB>,
) -> (r: Vec<Chunk>)
    requires
        bounds_wf(*map_bounds),
        ncx <= 1_000_000,
        ncz <= 1_000_000,
    ensures
        chunks_wf(r@, *map_bounds, ncx as int, ncz as int, objects@, ramps@, ladders@),
{
    let mut chunks: Vec<Chunk> = Vec::new();
    let mut cx: usize = 0;
    while cx < ncx
        invariant
            cx <= ncx,
            ncx <= 1_000_000,
            ncz <= 1_000_000,
            bounds_wf(*map_bounds),
            chunks@.len() == cx * ncz,
            forall|idx: int|
                0 <= idx < chunks@.len() ==> chunk_entry_wf(
                    #[trigger] chunks@[idx],
                    idx,
                    *map_bounds,
                    ncz as int,
                    objects@,
                    ramps@,
                    ladders@,
                ),
        decreases ncx - cx,
    {
        let mut cz: usize = 0;
        while cz < ncz
            invariant
                cz <= ncz,
                cx < ncx,
                ncx <= 1_000_000,
                ncz <= 1_000_000,
                bounds_wf(*map_bounds),
                chunks@.len() == cx * ncz + cz,
                forall|idx: int|
                    0 <= idx < chunks@.len() ==> chunk_entry_wf(
                        #[trigger] chunks@[idx],
                        idx,
                        *map_bounds,
                        ncz as int,
                        objects@,
                        ramps@,
                        ladders@,
                    ),
            decreases ncz - cz,
        {
            let ch = build_chunk(map_bounds, cx, cz, objects, ramps, ladders);
            chunks.push(ch);
            proof {
                vstd::arithmetic::div_mod::lemma_fundamental_div_mod_converse(
                    cx * (ncz as int) + cz,
                    ncz as int,
                    cx as int,
                    cz as int,
                );
            }
            cz += 1;
        }
        proof {
            assert((cx + 1) * ncz == cx * ncz + ncz) by (nonlinear_arith);
        }
        cx += 1;
    }
    proof {
        assert forall|cx: int, cz: int| 0 <= cx < ncx && 0 <= cz < ncz implies {
            let ch = #[trigger] chunks@[cx * (ncz as int) + cz];
            &&& ch.bounds == spec_chunk_bounds(*map_bounds, cx, cz)
            &&& ch.objects@ == spec_box_hits(objects@, ch.bounds, objects@.len() as int)
            &&& ch.ramps@ == spec_ramp_hits(ramps@, ch.bounds, ramps@.len() as int)
            &&& ch.ladders@ == spec_box_hits(ladders@, ch.bounds, ladders@.len() as int)
        } by {
            assert(0 <= cx * (ncz as int) + cz < ncx * ncz) by (nonlinear_arith)
                requires
                    0 <= cx < ncx,
                    0 <= cz < ncz,
            ;
            vstd::arithmetic::div_mod::lemma_fundamental_div_mod_converse(
                cx * (ncz as int) + cz,
                ncz as int,
                cx,
                cz,
            );
        }
    }
    chunks
}

} // verus!

verus! {

/// The box of the cell at grid coordinates `(x, y, z)`.
pub open spec fn spec_cell_box(map_bounds: AABB, x: int, y: int, z: int) -> AABB {
    AABB {
        min_x: (map_bounds.min_x + x * CELL_SIZE_MILLI) as i64,
        min_y: (map_bounds.min_y + y * CELL_SIZE_MILLI) as i64,
        min_z: (map_bounds.min_z + z * CELL_SIZE_MILLI) as i64,
        max_x: (map_bounds.min_x + x * CELL_SIZE_MILLI + CELL_SIZE_MILLI) as i64,
        max_y: (map_bounds.min_y + y * CELL_SIZE_MILLI + CELL_SIZE_MILLI) as i64,
        max_z: (map_bounds.min_z + z * CELL_SIZE_MILLI + CELL_SIZE_MILLI) as i64,
    }
}

/// Whether any box referenced by the index list intersects `cb`.
pub open spec fn spec_box_hit_any(idxs: Seq<usize>, boxes: Seq<AABB>, cb: AABB) -> bool {
    exists|k: int|
        0 <= k < idxs.len() && #[trigger] idxs[k] < boxes.len() && cb.spec_intersects(
            boxes[idxs[k] as int],
        )
}

/// The code of the first referenced ramp whose box intersects `cb`:
/// 2 plus its direction.
pub open spec fn spec_ramp_code(idxs: Seq<usize>, ramps: Seq<Ramp>, cb: AABB) -> Option<u8>
    decreases idxs.len(),
{
    if idxs.len() == 0 {
        Option::None
    } else if idxs[0] < ramps.len() && cb.spec_intersects(ramps[idxs[0] as int].bounds) {
        Option::Some((2 + ramps[idxs[0] as int].direction) as u8)
    } else {
        spec_ramp_code(idxs.drop_first(), ramps, cb)
    }
}

/// Every ramp direction within 0..3.
pub open spec fn ramps_wf(ramps: Seq<Ramp>) -> bool {
    forall|i: int| 0 <= i < ramps.len() ==> #[trigger] ramps[i].direction <= 3
}

/// The occupancy code of one cell, decided from one chunk's index
/// lists with the priority ladder (6) over solid object (1) over the
/// first matching ramp (2 plus direction); empty cells stay 0.
pub open spec fn spec_cell_code(
    ch: Chunk,
    objects: Seq<AABB>,
    ramps: Seq<Ramp>,
    ladders: Seq<AABB>,
    cb: AABB,
) -> u8 {
    if spec_box_hit_any(ch.ladders@, ladders, cb) {
        6u8
    } else if spec_box_hit_any(ch.objects@, objects, cb) {
        1u8
    } else {
        match spec_ramp_code(ch.ramps@, ramps, cb) {
            Option::Some(c) => c,
            Option::None => 0u8,
        }
    }
}

/// The occupancy code of the cell at `(x, y, z)`, using the chunk that
/// covers it.
pub open spec fn spec_occ_code_at(
    map_bounds: AABB,
    chunks: Seq<Chunk>,
    ncz: int,
    objects: Seq<AABB>,
    ramps: Seq<Ramp>,
    ladders: Seq<AABB>,
    x: int,
    y: int,
    z: int,
) -> u8 {
    spec_cell_code(
        chunks[(x / CHUNK_CELLS as int) * ncz + z / CHUNK_CELLS as int],
        objects,
        ramps,
        ladders,
        spec_cell_box(map_bounds, x, y, z),
    )
}

/// Lexicographic order of cell coordinates, the voxelizer's sweep order.
pub open spec fn lex3_lt(a: int, b: int, c: int, x: int, y: int, z: int) -> bool {
    a < x || (a == x && (b < y || (b == y && c < z)))
}

/// The grid holds the occupancy code at every cell the sweep has
/// passed, and zero elsewhere.
pub open spec fn voxel_done_upto(
    g: CellGrid,
    map_bounds: AABB,
    chunks: Seq<Chunk>,
    ncz: int,
    objects: Seq<AABB>,
    ramps: Seq<Ramp>,
    ladders: Seq<AABB>,
    x: int,
    y: int,
    z: int,
) -> bool {
    forall|a: int, b: int, c: int|
        in_dims(grid_dims(g), a, b, c) ==> #[trigger] cell_at(g, a, b, c) == (if lex3_lt(
            a,
            b,
            c,
            x,
            y,
            z,
        ) {
            spec_occ_code_at(map_bounds, chunks, ncz, objects, ramps, ladders, a, b, c)
        } else {
            0u8
        })
}

/// Computes the occupancy code of one cell from its chunk's lists.
fn compute_cell_code(
    ch: &Chunk,
    objects: &Vec<AABB>,
    ramps: &Vec<Ramp>,
    ladders: &Vec<AABB>,
    cell_bounds: &AABB,
) -> (code: u8)
    requires
        ramps_wf(ramps@),
    ensures
        code == spec_cell_code(*ch, objects@, ramps@, ladders@, *cell_bounds),
{
    let mut k: usize = 0;
    while k < ch.ladders.len()
        invariant
            k <= ch.ladders@.len(),
            forall|j: int|
                0 <= j < k ==> !(#[trigger] ch.ladders@[j] < ladders@.len()
                    && cell_bounds.spec_intersects(ladders@[ch.ladders@[j] as int])),
        decreases ch.ladders@.len() - k,
    {
        let idx: usize = ch.ladders[k];
        if idx < ladders.len() {
            if cell_bounds.intersects(&ladders[idx]) {
                assert(spec_box_hit_any(ch.ladders@, ladders@, *cell_bounds));
                return 6;
            }
        }
        k += 1;
    }
    assert(!spec_box_hit_any(ch.ladders@, ladders@, *cell_bounds));
    let mut k: usize = 0;
    while k < ch.objects.len()
        invariant
            k <= ch.objects@.len(),
            !spec_box_hit_any(ch.ladders@, ladders@, *cell_bounds),
            forall|j: int|
                0 <= j < k ==> !(#[trigger] ch.objects@[j] < objects@.len()
                    && cell_bounds.spec_intersects(objects@[ch.objects@[j] as int])),
        decreases ch.objects@.len() - k,
    {
        let idx: usize = ch.objects[k];
        if idx < objects.len() {
            if cell_bounds.intersects(&objects[idx]) {
                assert(spec_box_hit_any(ch.objects@, objects@, *cell_bounds));
                return 1;
            }
        }
        k += 1;
    }
    assert(!spec_box_hit_any(ch.objects@, objects@, *cell_bounds));
    let mut k: usize = 0;
    proof {
        assert(ch.ramps@.skip(0) =~= ch.ramps@);
    }
    while k < ch.ramps.len()
        invariant
            k <= ch.ramps@.len(),
            ramps_wf(ramps@),
            !spec_box_hit_any(ch.ladders@, ladders@, *cell_bounds),
            !spec_box_hit_any(ch.objects@, objects@, *cell_bounds),
            spec_ramp_code(ch.ramps@, ramps@, *cell_bounds) == spec_ramp_code(
                ch.ramps@.skip(k as int),
                ramps@,
                *cell_bounds,
            ),
        decreases ch.ramps@.len() - k,
    {
        let idx: usize = ch.ramps[k];
        proof {
            assert(ch.ramps@.skip(k as int)[0] == ch.ramps@[k as int]);
        }
        if idx < ramps.len() {
            let r: Ramp = ramps[idx];
            if cell_bounds.intersects(&r.bounds) {
                return 2 + r.direction;
            }
        }
        proof {
            assert(ch.ramps@.skip(k as int).drop_first() =~= ch.ramps@.skip(k as int + 1));
        }
        k += 1;
    }
    proof {
        assert(ch.ramps@.skip(ch.ramps@.len() as int).len() == 0);
    }
    0
}

/// Voxelizes the occupancy grid: every cell gets the code of its
/// covering chunk's first matching box, ladder over object over ramp.
pub fn generate_grid(
    map_bounds: &AABB,
    chunks: &Vec<Chunk>,
    ncx: usize,
    ncz: usize,
    nx: usize,
    ny: usize,
    nz: usize,
    objects: &Vec<AABB>,
    ramps: &Vec<Ramp>,
    ladders: &Vec<AABB>,
) -> (g: CellGrid)
    requires
        bounds_wf(*map_bounds),
        chunks_wf(chunks@, *map_bounds, ncx as int, ncz as int, objects@, ramps@, ladders@),
        ramps_wf(ramps@),
        ncx == (nx + 129) / 130,
        ncz == (nz + 129) / 130,
        nx <= 1_000_000,
        ny <= 1_000_000,
        nz <= 1_000_000,
        nx * ny * nz <= 1_000_000_000,
    ensures
        grid_wf(g),
        grid_dims(g) == (nx, ny, nz),
        forall|a: int, b: int, c: int|
            in_dims((nx, ny, nz), a, b, c) ==> #[trigger] cell_at(g, a, b, c) == spec_occ_code_at(
                *map_bounds,
                chunks@,
                ncz as int,
                objects@,
                ramps@,
                ladders@,
                a,
                b,
                c,
            ),
{
    let mut g = CellGrid::zeros(nx, ny, nz);
    proof {
        assert forall|a: int, b: int, c: int| in_dims((nx, ny, nz), a, b, c) implies #[trigger]
        cell_at(g, a, b, c) == 0u8 by {
            lemma_flat_idx_bounds((nx, ny, nz), a, b, c);
        }
    }
    let mut x: usize = 0;
    while x < nx
        invariant
            x <= nx,
            bounds_wf(*map_bounds),
            chunks_wf(chunks@, *map_bounds, ncx as int, ncz as int, objects@, ramps@, ladders@),
            ramps_wf(ramps@),
            ncx == (nx + 129) / 130,
            ncz == (nz + 129) / 130,
            nx <= 1_000_000,
            ny <= 1_000_000,
            nz <= 1_000_000,
            grid_wf(g),
            grid_dims(g) == (nx, ny, nz),
            voxel_done_upto(
                g,
                *map_bounds,
                chunks@,
                ncz as int,
                objects@,
                ramps@,
                ladders@,
                x as int,
                0,
                0,
            ),
        decreases nx - x,
    {
        let mut y: usize = 0;
        while y < ny
            invariant
                x < nx,
                y <= ny,
                bounds_wf(*map_bounds),
                chunks_wf(chunks@, *map_bounds, ncx as int, ncz as int, objects@, ramps@, ladders@),
                ramps_wf(ramps@),
                ncx == (nx + 129) / 130,
                ncz == (nz + 129) / 130,
                nx <= 1_000_000,
                ny <= 1_000_000,
                nz <= 1_000_000,
                grid_wf(g),
                grid_dims(g) == (nx, ny, nz),
                voxel_done_upto(
                    g,
                    *map_bounds,
                    chunks@,
                    ncz as int,
                    objects@,
                    ramps@,
                    ladders@,
                    x as int,
                    y as int,
                    0,
                ),
            decreases ny - y,
        {
            let mut z: usize = 0;
            while z < nz
                invariant
                    x < nx,
                    y < ny,
                    z <= nz,
                    bounds_wf(*map_bounds),
                    chunks_wf(
                        chunks@,
                        *map_bounds,
                        ncx as int,
                        ncz as int,
                        objects@,
                        ramps@,
                        ladders@,
                    ),
                    ramps_wf(ramps@),
                    ncx == (nx + 129) / 130,
                    ncz == (nz + 129) / 130,
                    nx <= 1_000_000,
                    ny <= 1_000_000,
                    nz <= 1_000_000,
                    grid_wf(g),
                    grid_dims(g) == (nx, ny, nz),
                    voxel_done_upto(
                        g,
                        *map_bounds,
                        chunks@,
                        ncz as int,
                        objects@,
                        ramps@,
                        ladders@,
                        x as int,
                        y as int,
                        z as int,
                    ),
                decreases nz - z,
            {
                let cx: usize = x / 130;
                let cz: usize = z / 130;
                proof {
                    vstd::arithmetic::div_mod::lemma_fundamental_div_mod(x as int, 130);
                    vstd::arithmetic::div_mod::lemma_fundamental_div_mod(nx as int + 129, 130);
                    vstd::arithmetic::div_mod::lemma_fundamental_div_mod(z as int, 130);
                    vstd::arithmetic::div_mod::lemma_fundamental_div_mod(nz as int + 129, 130);
                    assert(cx < ncx);
                    assert(cz < ncz);
                    assert(ncx <= 7694);
                    assert(ncz <= 7694);
                    assert(cx * ncz + cz < ncx * ncz && ncx * ncz <= 7694 * 7694) by (
                    nonlinear_arith)
                        requires
                            0 <= cx < ncx,
                            0 <= cz < ncz,
                            ncx <= 7694,
                            ncz <= 7694,
                    ;
                }
                let ci: usize = cx * ncz + cz;
                let ch: &Chunk = &chunks[ci];
                let cell_bounds = AABB {
                    min_x: map_bounds.min_x + x as i64 * CELL_SIZE_MILLI,
                    min_y: map_bounds.min_y + y as i64 * CELL_SIZE_MILLI,
                    min_z: map_bounds.min_z + z as i64 * CELL_SIZE_MILLI,
                    max_x: map_bounds.min_x + x as i64 * CELL_SIZE_MILLI + CELL_SIZE_MILLI,
                    max_y: map_bounds.min_y + y as i64 * CELL_SIZE_MILLI + CELL_SIZE_MILLI,
                    max_z: map_bounds.min_z + z as i64 * CELL_SIZE_MILLI + CELL_SIZE_MILLI,
                };
                let code: u8 = compute_cell_code(ch, objects, ramps, ladders, &cell_bounds);
                let ghost g_old = g;
                g.set(x, y, z, code);
                proof {
                    lemma_flat_idx_bounds(
                        grid_dims(g_old),
                        x as int,
                        y as int,
                        z as int,
                    );
                    assert forall|a: int, b: int, c: int| in_dims(grid_dims(g), a, b, c)
                        implies #[trigger] cell_at(g, a, b, c) == if lex3_lt(
                        a,
                        b,
                        c,
                        x as int,
                        y as int,
                        z as int + 1,
                    ) {
                        spec_occ_code_at(
                            *map_bounds,
                            chunks@,
                            ncz as int,
                            objects@,
                            ramps@,
                            ladders@,
                            a,
                            b,
                            c,
                        )
                    } else {
                        0u8
                    } by {
                        lemma_flat_idx_bounds(grid_dims(g_old), a, b, c);
                        if (a, b, c) != (x as int, y as int, z as int) {
                            lemma_flat_idx_injective(
                                grid_dims(g_old),
                                a,
                                b,
                                c,
                                x as int,
                                y as int,
                                z as int,
                            );
                            assert(cell_at(g, a, b, c) == cell_at(g_old, a, b, c));
                        } else {
                            assert(cell_at(g, a, b, c) == code);
                        }
                    }
                }
                z += 1;
            }
            y += 1;
        }
        x += 1;
    }
    g
}

} // verus!

verus! {

/// Tuple form of `in_dims`.
pub open spec fn in_dims3(dims: (usize, usize, usize), c: (int, int, int)) -> bool {
    in_dims(dims, c.0, c.1, c.2)
}

/// A cell triple as mathematical integers.
pub open spec fn c2i(t: (usize, usize, usize)) -> (int, int, int) {
    (t.0 as int, t.1 as int, t.2 as int)
}

/// Whether the player column can stand at `c`: the cell is inside the
/// grid with margins; no solid cell in the player column; a supporting
/// cell below; for ground cells, no wrong-side ramp beside the feet, no
/// two-cell-deep air gap and no solid overhang around any horizontal
/// neighbour; a ladder cell must continue on both sides of one axis.
pub open spec fn spec_is_cell_walkable(g: CellGrid, c: (int, int, int)) -> bool {
    let d = grid_dims(g);
    let x = c.0;
    let y = c.1;
    let z = c.2;
    if x == 0 || x + 1 >= d.0 || y < 2 || y + PLAYER_HEIGHT > d.1 || z == 0 || z + 1 >= d.2 {
        false
    } else if exists|yy: int| y <= yy < y + PLAYER_HEIGHT - 1 && #[trigger] cell_at(g, x, yy, z)
        == 1 {
        false
    } else if cell_at(g, x, y - 1, z) == 0 {
        false
    } else if cell_at(g, x, y, z) == 0 {
        !spec_wrong_side_ramp(g, x, y, z) && !spec_ledge_gap(g, x, y, z) && !spec_overhang(
            g,
            x,
            y,
            z,
        )
    } else if cell_at(g, x, y, z) == 6 {
        (cell_at(g, x - 1, y, z) == 6 && cell_at(g, x + 1, y, z) == 6) || (cell_at(g, x, y, z - 1)
            == 6 && cell_at(g, x, y, z + 1) == 6)
    } else {
        true
    }
}

/// A ramp code on its wrong side next to the feet: codes 3 or 5 on the
/// x-axis neighbours, 2 or 4 on the z-axis neighbours, at the cell's
/// height or one below.
pub open spec fn spec_ramp_bad_at(g: CellGrid, x: int, yy: int, z: int) -> bool {
    let a = cell_at(g, x - 1, yy, z);
    let b = cell_at(g, x + 1, yy, z);
    let p = cell_at(g, x, yy, z - 1);
    let q = cell_at(g, x, yy, z + 1);
    a == 3 || a == 5 || b == 3 || b == 5 || p == 2 || p == 4 || q == 2 || q == 4
}

pub open spec fn spec_wrong_side_ramp(g: CellGrid, x: int, y: int, z: int) -> bool {
    exists|yy: int| y - 1 <= yy <= y && #[trigger] spec_ramp_bad_at(g, x, yy, z)
}

/// Three stacked air cells at or below a horizontal neighbour.
pub open spec fn spec_gap_at(g: CellGrid, nx: int, ny: int, nz: int) -> bool {
    cell_at(g, nx, ny - 2, nz) == 0 && cell_at(g, nx, ny - 1, nz) == 0 && cell_at(g, nx, ny, nz)
        == 0
}

/// A two-cell-deep air gap beside any of the eight horizontal Moore
/// neighbours.
pub open spec fn spec_ledge_gap(g: CellGrid, x: int, y: int, z: int) -> bool {
    ||| spec_gap_at(g, x - 1, y, z)
    ||| spec_gap_at(g, x + 1, y, z)
    ||| spec_gap_at(g, x, y, z - 1)
    ||| spec_gap_at(g, x, y, z + 1)
    ||| spec_gap_at(g, x - 1, y, z - 1)
    ||| spec_gap_at(g, x - 1, y, z + 1)
    ||| spec_gap_at(g, x + 1, y, z - 1)
    ||| spec_gap_at(g, x + 1, y, z + 1)
}

/// A solid cell right above any of the eight horizontal Moore
/// neighbours.
pub open spec fn spec_overhang(g: CellGrid, x: int, y: int, z: int) -> bool {
    ||| cell_at(g, x - 1, y + 1, z) == 1
    ||| cell_at(g, x + 1, y + 1, z) == 1
    ||| cell_at(g, x, y + 1, z - 1) == 1
    ||| cell_at(g, x, y + 1, z + 1) == 1
    ||| cell_at(g, x - 1, y + 1, z - 1) == 1
    ||| cell_at(g, x - 1, y + 1, z + 1) == 1
    ||| cell_at(g, x + 1, y + 1, z - 1) == 1
    ||| cell_at(g, x + 1, y + 1, z + 1) == 1
}

/// Executable walkability check, total over any cell coordinates.
pub fn is_cell_walkable(g: &CellGrid, cx: usize, cy: usize, cz: usize) -> (r: bool)
    requires
        grid_wf(*g),
        grid_dims(*g).0 <= 1_000_000,
        grid_dims(*g).1 <= 1_000_000,
        grid_dims(*g).2 <= 1_000_000,
        cx <= 2_000_000,
        cy <= 2_000_000,
        cz <= 2_000_000,
    ensures
        r == spec_is_cell_walkable(*g, (cx as int, cy as int, cz as int)),
{
    let (d0, d1, d2): (usize, usize, usize) = g.dims();
    if cx == 0 || cx + 1 >= d0 || cy < 2 || cy + PLAYER_HEIGHT > d1 || cz == 0 || cz + 1 >= d2 {
        return false;
    }
    let mut i: usize = 0;
    while i < PLAYER_HEIGHT - 1
        invariant
            i <= PLAYER_HEIGHT - 1,
            grid_wf(*g),
            grid_dims(*g) == (d0, d1, d2),
            cx <= 2_000_000 && cy <= 2_000_000 && cz <= 2_000_000,
            0 < cx && cx + 1 < d0 && 2 <= cy && cy + PLAYER_HEIGHT <= d1 && 0 < cz && cz + 1 < d2,
            forall|yy: int| cy <= yy < cy + i ==> #[trigger] cell_at(*g, cx as int, yy, cz as int) != 1,
        decreases PLAYER_HEIGHT - 1 - i,
    {
        if g.get(cx, cy + i, cz) == 1 {
            return false;
        }
        i += 1;
    }
    if g.get(cx, cy - 1, cz) == 0 {
        return false;
    }
    let own: u8 = g.get(cx, cy, cz);
    if own == 0 {
        let mut i: usize = 0;
        while i < 2
            invariant
                i <= 2,
                grid_wf(*g),
                grid_dims(*g) == (d0, d1, d2),
                cx <= 2_000_000 && cy <= 2_000_000 && cz <= 2_000_000,
                0 < cx && cx + 1 < d0 && 2 <= cy && cy + PLAYER_HEIGHT <= d1 && 0 < cz && cz + 1
                    < d2,
                !(exists|yy: int|
                    cy <= yy < cy + PLAYER_HEIGHT - 1 && #[trigger] cell_at(
                        *g,
                        cx as int,
                        yy,
                        cz as int,
                    ) == 1),
                cell_at(*g, cx as int, cy - 1, cz as int) != 0,
                cell_at(*g, cx as int, cy as int, cz as int) == 0,
                forall|yy: int|
                    cy - i < yy <= cy ==> !#[trigger] spec_ramp_bad_at(
                        *g,
                        cx as int,
                        yy,
                        cz as int,
                    ),
            decreases 2 - i,
        {
            let a = g.get(cx - 1, cy - i, cz);
            let b = g.get(cx + 1, cy - i, cz);
            let p = g.get(cx, cy - i, cz - 1);
            let q = g.get(cx, cy - i, cz + 1);
            if a == 3 || a == 5 || b == 3 || b == 5 || p == 2 || p == 4 || q == 2 || q == 4 {
                assert(spec_ramp_bad_at(*g, cx as int, cy as int - i, cz as int));
                assert(spec_wrong_side_ramp(*g, cx as int, cy as int, cz as int));
                return false;
            }
            i += 1;
        }
        assert(!spec_wrong_side_ramp(*g, cx as int, cy as int, cz as int));
        if g.get(cx - 1, cy - 2, cz) == 0 && g.get(cx - 1, cy - 1, cz) == 0 && g.get(cx - 1, cy, cz)
            == 0 {
            return false;
        }
        if g.get(cx + 1, cy - 2, cz) == 0 && g.get(cx + 1, cy - 1, cz) == 0 && g.get(cx + 1, cy, cz)
            == 0 {
            return false;
        }
        if g.get(cx, cy - 2, cz - 1) == 0 && g.get(cx, cy - 1, cz - 1) == 0 && g.get(cx, cy, cz - 1)
            == 0 {
            return false;
        }
        if g.get(cx, cy - 2, cz + 1) == 0 && g.get(cx, cy - 1, cz + 1) == 0 && g.get(cx, cy, cz + 1)
            == 0 {
            return false;
        }
        if g.get(cx - 1, cy - 2, cz - 1) == 0 && g.get(cx - 1, cy - 1, cz - 1) == 0 && g.get(
            cx - 1,
            cy,
            cz - 1,
        ) == 0 {
            return false;
        }
        if g.get(cx - 1, cy - 2, cz + 1) == 0 && g.get(cx - 1, cy - 1, cz + 1) == 0 && g.get(
            cx - 1,
            cy,
            cz + 1,
        ) == 0 {
            return false;
        }
        if g.get(cx + 1, cy - 2, cz - 1) == 0 && g.get(cx + 1, cy - 1, cz - 1) == 0 && g.get(
            cx + 1,
            cy,
            cz - 1,
        ) == 0 {
            return false;
        }
        if g.get(cx + 1, cy - 2, cz + 1) == 0 && g.get(cx + 1, cy - 1, cz + 1) == 0 && g.get(
            cx + 1,
            cy,
            cz + 1,
        ) == 0 {
            return false;
        }
        if g.get(cx - 1, cy + 1, cz) == 1 || g.get(cx + 1, cy + 1, cz) == 1 || g.get(
            cx,
            cy + 1,
            cz - 1,
        ) == 1 || g.get(cx, cy + 1, cz + 1) == 1 || g.get(cx - 1, cy + 1, cz - 1) == 1 || g.get(
            cx - 1,
            cy + 1,
            cz + 1,
        ) == 1 || g.get(cx + 1, cy + 1, cz - 1) == 1 || g.get(cx + 1, cy + 1, cz + 1) == 1 {
            return false;
        }
        true
    } else if own == 6 {
        (g.get(cx - 1, cy, cz) == 6 && g.get(cx + 1, cy, cz) == 6) || (g.get(cx, cy, cz - 1) == 6
            && g.get(cx, cy, cz + 1) == 6)
    } else {
        true
    }
}

} // verus!

verus! {

/// The 26-cell Moore neighbourhood relation.
pub open spec fn is_moore26(a: (int, int, int), b: (int, int, int)) -> bool {
    &&& -1 <= b.0 - a.0 <= 1
    &&& -1 <= b.1 - a.1 <= 1
    &&& -1 <= b.2 - a.2 <= 1
    &&& b != a
}

/// The 4 axis-aligned horizontal neighbours relation.
pub open spec fn is_h4(a: (int, int, int), n: (int, int, int)) -> bool {
    n.1 == a.1 && ((n.0 == a.0 - 1 && n.2 == a.2) || (n.0 == a.0 + 1 && n.2 == a.2) || (n.0 == a.0
        && n.2 == a.2 - 1) || (n.0 == a.0 && n.2 == a.2 + 1))
}

/// The flood fill's step from a horizontal neighbour of an air cell:
/// the neighbour itself when walkable, else one cell up, else one cell
/// down.
pub open spec fn spec_cascade(g: CellGrid, n: (int, int, int), b: (int, int, int)) -> bool {
    if spec_is_cell_walkable(g, n) {
        b == n
    } else if spec_is_cell_walkable(g, (n.0, n.1 + 1, n.2)) {
        b == (n.0, n.1 + 1, n.2)
    } else if n.1 > 0 && spec_is_cell_walkable(g, (n.0, n.1 - 1, n.2)) {
        b == (n.0, n.1 - 1, n.2)
    } else {
        false
    }
}

/// One step of the flood fill from a visited cell `a` to a cell `b` it
/// enqueues: air cells step through the cascade on their 4 horizontal
/// neighbours; ramp and ladder cells enqueue every walkable cell of
/// their full Moore neighbourhood.
pub open spec fn bfs_edge(g: CellGrid, a: (int, int, int), b: (int, int, int)) -> bool {
    let d = grid_dims(g);
    &&& in_dims3(d, a)
    &&& in_dims3(d, b)
    &&& if cell_at(g, a.0, a.1, a.2) == 0 {
        exists|n: (int, int, int)|
            #[trigger] is_h4(a, n) && 0 <= n.0 < d.0 && 0 <= n.2 < d.2 && spec_cascade(g, n, b)
    } else {
        is_moore26(a, b) && spec_is_cell_walkable(g, b)
    }
}

/// The starting cell for a spawn point: its grid cell, bumped one cell
/// up when that cell is occupied.
pub open spec fn spec_spawn_cell(bounds: AABB, g: CellGrid, s: Vec3) -> (int, int, int) {
    let c = crate::utils::spec_position_to_cell(bounds, s);
    if in_dims3(grid_dims(g), c) && cell_at(g, c.0, c.1, c.2) != 0 {
        (c.0, c.1 + 1, c.2)
    } else {
        c
    }
}

/// A flood-fill path from some spawn's starting cell to `c`.
pub open spec fn bfs_path_ok(
    g: CellGrid,
    bounds: AABB,
    spawns: Seq<Vec3>,
    p: Seq<(int, int, int)>,
    c: (int, int, int),
) -> bool {
    &&& p.len() >= 1
    &&& exists|i: int|
        0 <= i < spawns.len() && p[0] == spec_spawn_cell(bounds, g, #[trigger] spawns[i])
    &&& in_dims3(grid_dims(g), p[0])
    &&& forall|k: int| 0 <= k < p.len() - 1 ==> bfs_edge(g, #[trigger] p[k], p[k + 1])
    &&& p[p.len() - 1] == c
}

/// A cell the flood fill can reach from some spawn.
pub open spec fn spec_reachable(
    g: CellGrid,
    bounds: AABB,
    spawns: Seq<Vec3>,
    c: (int, int, int),
) -> bool {
    exists|p: Seq<(int, int, int)>| #[trigger] bfs_path_ok(g, bounds, spawns, p, c)
}

/// Reachability extends along flood-fill edges.
proof fn lemma_reach_step(
    g: CellGrid,
    bounds: AABB,
    spawns: Seq<Vec3>,
    a: (int, int, int),
    b: (int, int, int),
)
    requires
        spec_reachable(g, bounds, spawns, a),
        bfs_edge(g, a, b),
    ensures
        spec_reachable(g, bounds, spawns, b),
{
    let p = choose|p: Seq<(int, int, int)>| #[trigger] bfs_path_ok(g, bounds, spawns, p, a);
    let q = p.push(b);
    assert forall|k: int| 0 <= k < q.len() - 1 implies bfs_edge(g, #[trigger] q[k], q[k + 1]) by {
        if k < p.len() - 1 {
            assert(bfs_edge(g, p[k], p[k + 1]));
        }
    }
    assert(bfs_path_ok(g, bounds, spawns, q, b));
}

/// The marked set of a closed, spawn-complete grid contains every
/// reachable cell: induction over the flood-fill path.
proof fn lemma_path_marked(
    g: CellGrid,
    w: CellGrid,
    bounds: AABB,
    spawns: Seq<Vec3>,
    p: Seq<(int, int, int)>,
    c: (int, int, int),
)
    requires
        grid_dims(w) == grid_dims(g),
        bfs_path_ok(g, bounds, spawns, p, c),
        forall|i: int|
            0 <= i < spawns.len() && in_dims3(
                grid_dims(g),
                spec_spawn_cell(bounds, g, #[trigger] spawns[i]),
            ) ==> {
                let s = spec_spawn_cell(bounds, g, spawns[i]);
                cell_at(w, s.0, s.1, s.2) != 0
            },
        forall|a: (int, int, int), b: (int, int, int)|
            in_dims3(grid_dims(g), a) && cell_at(w, a.0, a.1, a.2) != 0 && #[trigger] bfs_edge(
                g,
                a,
                b,
            ) ==> cell_at(w, b.0, b.1, b.2) != 0,
    ensures
        in_dims3(grid_dims(g), c),
        cell_at(w, c.0, c.1, c.2) != 0,
    decreases p.len(),
{
    if p.len() == 1 {
        assert(c == p[0]);
    } else {
        let q = p.drop_last();
        let prev = p[p.len() - 2];
        assert forall|k: int| 0 <= k < q.len() - 1 implies bfs_edge(g, #[trigger] q[k], q[k + 1]) by {
            assert(bfs_edge(g, p[k], p[k + 1]));
        }
        assert(bfs_path_ok(g, bounds, spawns, q, prev));
        lemma_path_marked(g, w, bounds, spawns, q, prev);
        assert(bfs_edge(g, p[p.len() - 2], p[p.len() - 1]));
    }
}

/// A finite set of in-shape cells has at most as many members as the
/// shape has cells.
proof fn lemma_cells_card(dims: (usize, usize, usize), s: Set<(int, int, int)>)
    requires
        s.finite(),
        forall|c: (int, int, int)| s.contains(c) ==> in_dims3(dims, c),
    ensures
        s.len() <= dims.0 * dims.1 * dims.2,
{
    let f = |c: (int, int, int)| flat_idx(dims, c.0, c.1, c.2);
    let img = s.map(f);
    assert(vstd::relations::injective_on(f, s)) by {
        assert forall|c1: (int, int, int), c2: (int, int, int)|
            #![trigger s.contains(c1), s.contains(c2)]
            s.contains(c1) && s.contains(c2) && f(c1) == f(c2) implies c1 == c2 by {
            if c1 != c2 {
                lemma_flat_idx_injective(dims, c1.0, c1.1, c1.2, c2.0, c2.1, c2.2);
            }
        }
    }
    vstd::set_lib::lemma_map_size(s, img, f);
    let rng = vstd::set_lib::set_int_range(0, (dims.0 * dims.1 * dims.2) as int);
    vstd::set_lib::lemma_int_range(0, (dims.0 * dims.1 * dims.2) as int);
    assert(img.subset_of(rng)) by {
        assert forall|i: int| img.contains(i) implies rng.contains(i) by {
            let c = choose|c: (int, int, int)| s.contains(c) && f(c) == i;
            lemma_flat_idx_bounds(dims, c.0, c.1, c.2);
        }
    }
    vstd::set_lib::lemma_len_subset(img, rng);
}

} // verus!

verus! {

/// Whether the queue holds a cell.
pub open spec fn queue_has(q: Seq<(usize, usize, usize)>, c: (int, int, int)) -> bool {
    exists|k: int| 0 <= k < q.len() && c2i(#[trigger] q[k]) == c
}

/// Floor division of a milli-unit offset by the cell size.
fn div_floor_cell(a: i64) -> (r: i64)
    requires
        -4_000_000_000_000 <= a <= 4_000_000_000_000,
    ensures
        r == a as int / CELL_SIZE_MILLI as int,
{
    let shifted: u64 = (a + 4_000_000_000_000) as u64;
    let q: u64 = shifted / 2500;
    proof {
        vstd::arithmetic::div_mod::lemma_fundamental_div_mod(shifted as int, 2500);
        vstd::arithmetic::div_mod::lemma_fundamental_div_mod_converse(
            a as int,
            2500,
            q as int - 1_600_000_000,
            shifted as int % 2500,
        );
    }
    q as i64 - 1_600_000_000
}

/// Appends the flood fill's cascade target for the horizontal
/// neighbour `n`, when there is one.
fn cascade_push(
    grid: &CellGrid,
    queue: &mut VecDeque<(usize, usize, usize)>,
    nx: usize,
    ny: usize,
    nz: usize,
) -> (pushed: bool)
    requires
        grid_wf(*grid),
        grid_dims(*grid).0 <= 1_000_000,
        grid_dims(*grid).1 <= 1_000_000,
        grid_dims(*grid).2 <= 1_000_000,
        nx < grid_dims(*grid).0,
        ny < grid_dims(*grid).1,
        nz < grid_dims(*grid).2,
    ensures
        final(queue)@.len() >= old(queue)@.len(),
        forall|k: int| 0 <= k < old(queue)@.len() ==> final(queue)@[k] == old(queue)@[k],
        forall|c: (int, int, int)| queue_has(old(queue)@, c) ==> queue_has(final(queue)@, c),
        forall|k: int|
            old(queue)@.len() <= k < final(queue)@.len() ==> spec_cascade(
                *grid,
                (nx as int, ny as int, nz as int),
                c2i(#[trigger] final(queue)@[k]),
            ) && in_dims3(grid_dims(*grid), c2i(final(queue)@[k])),
        forall|b: (int, int, int)|
            spec_cascade(*grid, (nx as int, ny as int, nz as int), b) ==> queue_has(
                final(queue)@,
                b,
            ),
{
    let pushed: bool;
    if is_cell_walkable(grid, nx, ny, nz) {
        queue.push_back((nx, ny, nz));
        proof {
            assert(queue_has(queue@, (nx as int, ny as int, nz as int))) by {
                assert(c2i(queue@[queue@.len() - 1]) == (nx as int, ny as int, nz as int));
            }
        }
        pushed = true;
    } else if is_cell_walkable(grid, nx, ny + 1, nz) {
        queue.push_back((nx, ny + 1, nz));
        proof {
            assert(queue_has(queue@, (nx as int, ny as int + 1, nz as int))) by {
                assert(c2i(queue@[queue@.len() - 1]) == (nx as int, ny as int + 1, nz as int));
            }
        }
        pushed = true;
    } else if ny > 0 && is_cell_walkable(grid, nx, ny - 1, nz) {
        queue.push_back((nx, ny - 1, nz));
        proof {
            assert(queue_has(queue@, (nx as int, ny as int - 1, nz as int))) by {
                assert(c2i(queue@[queue@.len() - 1]) == (nx as int, ny as int - 1, nz as int));
            }
        }
        pushed = true;
    } else {
        pushed = false;
    }
    proof {
        assert forall|c: (int, int, int)| queue_has(old(queue)@, c) implies queue_has(
            queue@,
            c,
        ) by {
            let k = choose|k: int| 0 <= k < old(queue)@.len() && c2i(old(queue)@[k]) == c;
            assert(c2i(queue@[k]) == c);
        }
    }
    pushed
}

/// The 27 offsets of the 3x3x3 block around a cell, row-major.
fn moore_offsets() -> (r: Vec<(i64, i64, i64)>)
    ensures
        r@.len() == 27,
        forall|k: int|
            #![trigger r@[k]]
            0 <= k < 27 ==> (r@[k].0 == k / 9 - 1 && r@[k].1 == (k % 9) / 3 - 1 && r@[k].2 == k % 3 - 1),
{
    let mut r: Vec<(i64, i64, i64)> = Vec::new();
    let mut a: usize = 0;
    while a < 3
        invariant
            a <= 3,
            r@.len() == 9 * a,
            forall|k: int|
                #![trigger r@[k]]
                0 <= k < r@.len() ==> (r@[k].0 == k / 9 - 1 && r@[k].1 == (k % 9) / 3 - 1 && r@[k].2 == k % 3 - 1),
        decreases 3 - a,
    {
        let mut b: usize = 0;
        while b < 3
            invariant
                a < 3,
                b <= 3,
                r@.len() == 9 * a + 3 * b,
                forall|k: int|
                    #![trigger r@[k]]
                    0 <= k < r@.len() ==> (r@[k].0 == k / 9 - 1 && r@[k].1 == (k % 9) / 3 - 1
                        && r@[k].2 == k % 3 - 1),
            decreases 3 - b,
        {
            let mut c: usize = 0;
            while c < 3
                invariant
                    a < 3,
                    b < 3,
                    c <= 3,
                    r@.len() == 9 * a + 3 * b + c,
                    forall|k: int|
                        #![trigger r@[k]]
                        0 <= k < r@.len() ==> (r@[k].0 == k / 9 - 1 && r@[k].1 == (k % 9) / 3 - 1
                            && r@[k].2 == k % 3 - 1),
                decreases 3 - c,
            {
                r.push((a as i64 - 1, b as i64 - 1, c as i64 - 1));
                proof {
                    let k0 = 9 * a + 3 * b + c;
                    vstd::arithmetic::div_mod::lemma_fundamental_div_mod_converse(
                        k0 as int,
                        9,
                        a as int,
                        3 * b + c,
                    );
                    vstd::arithmetic::div_mod::lemma_fundamental_div_mod_converse(
                        3 * b + c,
                        3,
                        b as int,
                        c as int,
                    );
                    vstd::arithmetic::div_mod::lemma_fundamental_div_mod_converse(
                        k0 as int,
                        3,
                        3 * a + b,
                        c as int,
                    );
                }
                c += 1;
            }
            b += 1;
        }
        a += 1;
    }
    r
}

} // verus!

verus! {

/// Every spawn coordinate within the accepted range.
pub open spec fn spawns_wf(spawns: Seq<Vec3>) -> bool {
    forall|i: int|
        0 <= i < spawns.len() ==> {
            let s = #[trigger] spawns[i];
            -MAX_RAW_COORD <= s.x <= MAX_RAW_COORD && -MAX_RAW_COORD <= s.y <= MAX_RAW_COORD
                && -MAX_RAW_COORD <= s.z <= MAX_RAW_COORD
        }
}

/// The walkable grid under construction: dimensions match the
/// occupancy grid, every cell is 0 or the final code of its occupancy
/// (2 on ladders, 1 elsewhere), and every non-zero cell is reachable.
pub open spec fn wgrid_ok(grid: CellGrid, w: CellGrid, bounds: AABB, spawns: Seq<Vec3>) -> bool {
    &&& grid_dims(w) == grid_dims(grid)
    &&& grid_wf(w)
    &&& forall|a: int, b: int, c: int|
        in_dims(grid_dims(w), a, b, c) ==> {
            let v = #[trigger] cell_at(w, a, b, c);
            &&& (v == 0 || v == (if cell_at(grid, a, b, c) == 6 {
                2u8
            } else {
                1u8
            }))
            &&& (v != 0 ==> spec_reachable(grid, bounds, spawns, (a, b, c)))
        }
}

/// Every queued cell is inside the grid and reachable.
pub open spec fn queue_ok(
    grid: CellGrid,
    bounds: AABB,
    spawns: Seq<Vec3>,
    q: Seq<(usize, usize, usize)>,
) -> bool {
    forall|k: int|
        0 <= k < q.len() ==> in_dims3(grid_dims(grid), c2i(#[trigger] q[k])) && spec_reachable(
            grid,
            bounds,
            spawns,
            c2i(q[k]),
        )
}

/// Every spawn's starting cell is inside the grid and already marked
/// or still queued.
pub open spec fn spawns_pending(
    grid: CellGrid,
    w: CellGrid,
    bounds: AABB,
    spawns: Seq<Vec3>,
    q: Seq<(usize, usize, usize)>,
) -> bool {
    forall|i: int|
        0 <= i < spawns.len() ==> {
            let s = spec_spawn_cell(bounds, grid, #[trigger] spawns[i]);
            in_dims3(grid_dims(grid), s) && (cell_at(w, s.0, s.1, s.2) != 0 || queue_has(q, s))
        }
}

/// Every flood-fill edge out of a marked cell leads to a cell that is
/// marked or still queued.
pub open spec fn closure_pending(grid: CellGrid, w: CellGrid, q: Seq<(usize, usize, usize)>) -> bool {
    forall|a: (int, int, int), b: (int, int, int)|
        in_dims3(grid_dims(grid), a) && cell_at(w, a.0, a.1, a.2) != 0 && #[trigger] bfs_edge(
            grid,
            a,
            b,
        ) ==> cell_at(w, b.0, b.1, b.2) != 0 || queue_has(q, b)
}

/// The ghost marked set mirrors the non-zero cells of `w`.
pub open spec fn marked_ok(w: CellGrid, m: Set<(int, int, int)>) -> bool {
    &&& m.finite()
    &&& forall|c: (int, int, int)| #[trigger] m.contains(c) <==> (in_dims3(grid_dims(w), c)
        && cell_at(w, c.0, c.1, c.2) != 0)
}

/// Popping an already-marked head keeps the flood fill's invariants.
proof fn lemma_bfs_skip(
    grid: CellGrid,
    w: CellGrid,
    bounds: AABB,
    spawns: Seq<Vec3>,
    q0: Seq<(usize, usize, usize)>,
    q1: Seq<(usize, usize, usize)>,
)
    requires
        q0.len() >= 1,
        q1 == q0.subrange(1, q0.len() as int),
        grid_dims(w) == grid_dims(grid),
        cell_at(w, c2i(q0[0]).0, c2i(q0[0]).1, c2i(q0[0]).2) != 0,
        queue_ok(grid, bounds, spawns, q0),
        spawns_pending(grid, w, bounds, spawns, q0),
        closure_pending(grid, w, q0),
    ensures
        queue_ok(grid, bounds, spawns, q1),
        spawns_pending(grid, w, bounds, spawns, q1),
        closure_pending(grid, w, q1),
{
    let ci = c2i(q0[0]);
    assert forall|k: int| 0 <= k < q1.len() implies in_dims3(grid_dims(grid), c2i(#[trigger] q1[k]))
        && spec_reachable(grid, bounds, spawns, c2i(q1[k])) by {
        assert(q1[k] == q0[k + 1]);
    }
    assert forall|a: (int, int, int), b: (int, int, int)| in_dims3(grid_dims(grid), a) && cell_at(
        w,
        a.0,
        a.1,
        a.2,
    ) != 0 && #[trigger] bfs_edge(grid, a, b) implies cell_at(w, b.0, b.1, b.2) != 0 || queue_has(
        q1,
        b,
    ) by {
        if cell_at(w, b.0, b.1, b.2) == 0 && queue_has(q0, b) {
            let k = choose|k: int| 0 <= k < q0.len() && c2i(#[trigger] q0[k]) == b;
            if k == 0 {
                assert(b == ci);
            } else {
                assert(c2i(q1[k - 1]) == b);
            }
        }
    }
    assert forall|i: int| 0 <= i < spawns.len() implies {
        let sc = spec_spawn_cell(bounds, grid, #[trigger] spawns[i]);
        in_dims3(grid_dims(grid), sc) && (cell_at(w, sc.0, sc.1, sc.2) != 0 || queue_has(q1, sc))
    } by {
        let sc = spec_spawn_cell(bounds, grid, spawns[i]);
        if cell_at(w, sc.0, sc.1, sc.2) == 0 && queue_has(q0, sc) {
            let k = choose|k: int| 0 <= k < q0.len() && c2i(#[trigger] q0[k]) == sc;
            if k == 0 {
                assert(sc == ci);
            } else {
                assert(c2i(q1[k - 1]) == sc);
            }
        }
    }
}

/// Marking the popped head and enqueueing all its edge successors
/// keeps the flood fill's invariants.
proof fn lemma_bfs_mark(
    grid: CellGrid,
    w_old: CellGrid,
    w: CellGrid,
    bounds: AABB,
    spawns: Seq<Vec3>,
    q0: Seq<(usize, usize, usize)>,
    q1: Seq<(usize, usize, usize)>,
    qnew: Seq<(usize, usize, usize)>,
    ci: (int, int, int),
)
    requires
        q0.len() >= 1,
        q1 == q0.subrange(1, q0.len() as int),
        c2i(q0[0]) == ci,
        grid_dims(w_old) == grid_dims(grid),
        grid_dims(w) == grid_dims(grid),
        in_dims3(grid_dims(grid), ci),
        cell_at(w, ci.0, ci.1, ci.2) != 0,
        forall|a: int, b: int, c: int|
            in_dims(grid_dims(grid), a, b, c) && (a, b, c) != ci ==> #[trigger] cell_at(w, a, b, c)
                == cell_at(w_old, a, b, c),
        spawns_pending(grid, w_old, bounds, spawns, q0),
        closure_pending(grid, w_old, q0),
        qnew.len() >= q1.len(),
        forall|k: int| 0 <= k < q1.len() ==> #[trigger] qnew[k] == q1[k],
        forall|b: (int, int, int)| #[trigger] bfs_edge(grid, ci, b) ==> queue_has(qnew, b),
    ensures
        spawns_pending(grid, w, bounds, spawns, qnew),
        closure_pending(grid, w, qnew),
{
    assert forall|a: (int, int, int), b: (int, int, int)| in_dims3(grid_dims(grid), a) && cell_at(
        w,
        a.0,
        a.1,
        a.2,
    ) != 0 && #[trigger] bfs_edge(grid, a, b) implies cell_at(w, b.0, b.1, b.2) != 0 || queue_has(
        qnew,
        b,
    ) by {
        if a == ci {
            assert(queue_has(qnew, b));
        } else {
            assert(cell_at(w_old, a.0, a.1, a.2) != 0);
            if cell_at(w_old, b.0, b.1, b.2) != 0 {
                if b != ci {
                    assert(cell_at(w, b.0, b.1, b.2) != 0);
                }
            } else if queue_has(q0, b) {
                let k = choose|k: int| 0 <= k < q0.len() && c2i(#[trigger] q0[k]) == b;
                if k == 0 {
                    assert(b == ci);
                } else {
                    assert(c2i(q1[k - 1]) == b);
                    assert(c2i(qnew[k - 1]) == b);
                }
            }
        }
    }
    assert forall|i: int| 0 <= i < spawns.len() implies {
        let sc = spec_spawn_cell(bounds, grid, #[trigger] spawns[i]);
        in_dims3(grid_dims(grid), sc) && (cell_at(w, sc.0, sc.1, sc.2) != 0 || queue_has(qnew, sc))
    } by {
        let sc = spec_spawn_cell(bounds, grid, spawns[i]);
        if sc != ci {
            if cell_at(w_old, sc.0, sc.1, sc.2) == 0 && queue_has(q0, sc) {
                let k = choose|k: int| 0 <= k < q0.len() && c2i(#[trigger] q0[k]) == sc;
                if k == 0 {
                    assert(sc == ci);
                } else {
                    assert(c2i(q1[k - 1]) == sc);
                    assert(c2i(qnew[k - 1]) == sc);
                }
            }
        }
    }
}

/// Computes the walkable grid by a flood fill over the occupancy grid,
/// starting from every spawn's cell (bumped up one cell when occupied).
/// A cell is marked 2 when its occupancy is a ladder and 1 otherwise,
/// exactly when the flood fill reaches it. Fails when a spawn's
/// starting cell lies outside the grid.
#[verifier::rlimit(100)]
pub fn generate_walkable_grid(
    grid: &CellGrid,
    map_bounds: &AABB,
    spawns: &Vec<Vec3>,
) -> (r: Result<CellGrid, MapParseError>)
    requires
        grid_wf(*grid),
        bounds_wf(*map_bounds),
        grid_dims(*grid).0 <= 1_000_000,
        grid_dims(*grid).1 <= 1_000_000,
        grid_dims(*grid).2 <= 1_000_000,
        grid_dims(*grid).0 * grid_dims(*grid).1 * grid_dims(*grid).2 <= 1_000_000_000,
        spawns_wf(spawns@),
    ensures
        match r {
            Result::Ok(w) => {
                &&& grid_dims(w) == grid_dims(*grid)
                &&& grid_wf(w)
                &&& forall|i: int|
                    0 <= i < spawns@.len() ==> in_dims3(
                        grid_dims(*grid),
                        spec_spawn_cell(*map_bounds, *grid, #[trigger] spawns@[i]),
                    )
                &&& forall|a: int, b: int, c: int|
                    in_dims(grid_dims(*grid), a, b, c) ==> #[trigger] cell_at(w, a, b, c) == (
                    if spec_reachable(*grid, *map_bounds, spawns@, (a, b, c)) {
                        if cell_at(*grid, a, b, c) == 6 {
                            2u8
                        } else {
                            1u8
                        }
                    } else {
                        0u8
                    })
            },
            Result::Err(e) => {
                &&& e == MapParseError::OutOfBoundsCell
                &&& exists|i: int|
                    0 <= i < spawns@.len() && !in_dims3(
                        grid_dims(*grid),
                        spec_spawn_cell(*map_bounds, *grid, #[trigger] spawns@[i]),
                    )
            },
        },
{
    let (d0, d1, d2): (usize, usize, usize) = grid.dims();
    let ghost d = grid_dims(*grid);
    let ghost total = (d.0 * d.1 * d.2) as int;
    let mut w = CellGrid::zeros(d0, d1, d2);
    proof {
        assert forall|a: int, b: int, c: int| in_dims((d0, d1, d2), a, b, c) implies #[trigger]
        cell_at(w, a, b, c) == 0u8 by {
            lemma_flat_idx_bounds((d0, d1, d2), a, b, c);
        }
    }
    let ghost marked: Set<(int, int, int)> = Set::empty();
    let mut marked = Ghost(marked);
    let mut queue: VecDeque<(usize, usize, usize)> = VecDeque::new();
    let mut si: usize = 0;
    while si < spawns.len()
        invariant
            si <= spawns@.len(),
            spawns_wf(spawns@),
            grid_wf(*grid),
            bounds_wf(*map_bounds),
            d == grid_dims(*grid),
            d == (d0, d1, d2),
            d0 <= 1_000_000 && d1 <= 1_000_000 && d2 <= 1_000_000,
            wgrid_ok(*grid, w, *map_bounds, spawns@),
            forall|a: int, b: int, c: int|
                in_dims(d, a, b, c) ==> #[trigger] cell_at(w, a, b, c) == 0u8,
            queue_ok(*grid, *map_bounds, spawns@, queue@),
            forall|i: int|
                0 <= i < si ==> {
                    let s = spec_spawn_cell(*map_bounds, *grid, #[trigger] spawns@[i]);
                    in_dims3(d, s) && queue_has(queue@, s)
                },
        decreases spawns@.len() - si,
    {
        let s: Vec3 = spawns[si];
        let bx: i64 = div_floor_cell(s.x - map_bounds.min_x);
        let by: i64 = div_floor_cell(s.y - map_bounds.min_y);
        let bz: i64 = div_floor_cell(s.z - map_bounds.min_z);
        let ghost base = crate::utils::spec_position_to_cell(*map_bounds, spawns@[si as int]);
        proof {
            assert(base == (bx as int, by as int, bz as int));
        }
        if bx < 0 || bx >= d0 as i64 || by < 0 || by >= d1 as i64 || bz < 0 || bz >= d2 as i64 {
            proof {
                assert(spec_spawn_cell(*map_bounds, *grid, spawns@[si as int]) == base);
                assert(!in_dims3(d, base));
            }
            return Err(MapParseError::OutOfBoundsCell);
        }
        let mut cyu: usize = by as usize;
        if grid.get(bx as usize, cyu, bz as usize) != 0 {
            if cyu + 1 >= d1 {
                proof {
                    assert(spec_spawn_cell(*map_bounds, *grid, spawns@[si as int]) == (
                    base.0,
                    base.1 + 1,
                    base.2,
                ));
                }
                return Err(MapParseError::OutOfBoundsCell);
            }
            cyu += 1;
        }
        let start: (usize, usize, usize) = (bx as usize, cyu, bz as usize);
        proof {
            assert(c2i(start) == spec_spawn_cell(*map_bounds, *grid, spawns@[si as int]));
        }
        let ghost qpre = queue@;
        queue.push_back(start);
        proof {
            let p = seq![c2i(start)];
            assert(p[0] == spec_spawn_cell(*map_bounds, *grid, spawns@[si as int]));
            assert(bfs_path_ok(*grid, *map_bounds, spawns@, p, c2i(start)));
            assert(spec_reachable(*grid, *map_bounds, spawns@, c2i(start)));
            assert forall|i: int| 0 <= i < si + 1 implies {
                let sc = spec_spawn_cell(*map_bounds, *grid, #[trigger] spawns@[i]);
                in_dims3(d, sc) && queue_has(queue@, sc)
            } by {
                let sc = spec_spawn_cell(*map_bounds, *grid, spawns@[i]);
                if i < si {
                    let k = choose|k: int| 0 <= k < qpre.len() && c2i(qpre[k]) == sc;
                    assert(c2i(queue@[k]) == sc);
                } else {
                    assert(c2i(queue@[queue@.len() - 1]) == sc);
                }
            }
        }
        si += 1;
    }
    let offs: Vec<(i64, i64, i64)> = moore_offsets();
    proof {
        assert(marked@.len() <= total) by {
            lemma_cells_card(d, marked@);
        }
    }
    while queue.len() > 0
        invariant
            spawns_wf(spawns@),
            grid_wf(*grid),
            bounds_wf(*map_bounds),
            d == grid_dims(*grid),
            d == (d0, d1, d2),
            d0 <= 1_000_000 && d1 <= 1_000_000 && d2 <= 1_000_000,
            total == d.0 * d.1 * d.2,
            offs@.len() == 27,
            forall|k: int|
                #![trigger offs@[k]]
                0 <= k < 27 ==> (offs@[k].0 == k / 9 - 1 && offs@[k].1 == (k % 9) / 3 - 1
                    && offs@[k].2 == k % 3 - 1),
            wgrid_ok(*grid, w, *map_bounds, spawns@),
            queue_ok(*grid, *map_bounds, spawns@, queue@),
            spawns_pending(*grid, w, *map_bounds, spawns@, queue@),
            closure_pending(*grid, w, queue@),
            marked_ok(w, marked@),
            marked@.len() <= total,
        decreases total - marked@.len(), queue@.len(),
    {
        let ghost q0 = queue@;
        let cell: (usize, usize, usize) = match queue.pop_front() {
            Option::Some(cell) => cell,
            Option::None => {
                proof {
                    assert(false);
                }
                (0, 0, 0)
            },
        };
        let ghost q1 = queue@;
        let (ux, uy, uz): (usize, usize, usize) = cell;
        let ghost ci = c2i(cell);
        proof {
            assert(c2i(q0[0]) == ci);
            assert(in_dims3(d, ci) && spec_reachable(*grid, *map_bounds, spawns@, ci));
            assert forall|k: int| 0 <= k < q1.len() implies q1[k] == q0[k + 1] by {}
        }
        if w.get(ux, uy, uz) == 0 {
            let own: u8 = grid.get(ux, uy, uz);
            let v: u8 = if own == 6 {
                2
            } else {
                1
            };
            let ghost w_old = w;
            w.set(ux, uy, uz, v);
            proof {
                marked@ = marked@.insert(ci);
                lemma_flat_idx_bounds(d, ci.0, ci.1, ci.2);
                assert forall|a: int, b: int, c: int| in_dims(d, a, b, c) && (a, b, c) != ci
                    implies #[trigger] cell_at(w, a, b, c) == cell_at(w_old, a, b, c) by {
                    lemma_flat_idx_bounds(d, a, b, c);
                    lemma_flat_idx_injective(d, a, b, c, ci.0, ci.1, ci.2);
                }
                assert(cell_at(w, ci.0, ci.1, ci.2) == v);
                assert(marked_ok(w, marked@));
                lemma_cells_card(d, marked@);
                assert(wgrid_ok(*grid, w, *map_bounds, spawns@));
            }
            let ghost marked_now = marked@;
            if own == 0 {
                let ghost q_mark = queue@;
                let ghost n1 = (ux as int - 1, uy as int, uz as int);
                let ghost n2 = (ux as int + 1, uy as int, uz as int);
                let ghost n3 = (ux as int, uy as int, uz as int - 1);
                let ghost n4 = (ux as int, uy as int, uz as int + 1);
                if ux >= 1 {
                    cascade_push(grid, &mut queue, ux - 1, uy, uz);
                }
                let ghost qa = queue@;
                proof {
                    assert forall|k: int| q_mark.len() <= k < qa.len() implies in_dims3(
                        d,
                        c2i(#[trigger] qa[k]),
                    ) && bfs_edge(*grid, ci, c2i(qa[k])) by {
                        assert(is_h4(ci, n1) && spec_cascade(*grid, n1, c2i(qa[k])));
                    }
                }
                if ux + 1 < d0 {
                    cascade_push(grid, &mut queue, ux + 1, uy, uz);
                }
                let ghost qb = queue@;
                proof {
                    assert forall|k: int| q_mark.len() <= k < qb.len() implies in_dims3(
                        d,
                        c2i(#[trigger] qb[k]),
                    ) && bfs_edge(*grid, ci, c2i(qb[k])) by {
                        if k < qa.len() {
                            assert(qb[k] == qa[k]);
                        } else {
                            assert(is_h4(ci, n2) && spec_cascade(*grid, n2, c2i(qb[k])));
                        }
                    }
                }
                if uz >= 1 {
                    cascade_push(grid, &mut queue, ux, uy, uz - 1);
                }
                let ghost qc = queue@;
                proof {
                    assert forall|k: int| q_mark.len() <= k < qc.len() implies in_dims3(
                        d,
                        c2i(#[trigger] qc[k]),
                    ) && bfs_edge(*grid, ci, c2i(qc[k])) by {
                        if k < qb.len() {
                            assert(qc[k] == qb[k]);
                        } else {
                            assert(is_h4(ci, n3) && spec_cascade(*grid, n3, c2i(qc[k])));
                        }
                    }
                }
                if uz + 1 < d2 {
                    cascade_push(grid, &mut queue, ux, uy, uz + 1);
                }
                proof {
                    assert forall|k: int| q_mark.len() <= k < queue@.len() implies in_dims3(
                        d,
                        c2i(#[trigger] queue@[k]),
                    ) && bfs_edge(*grid, ci, c2i(queue@[k])) by {
                        if k < qc.len() {
                            assert(queue@[k] == qc[k]);
                        } else {
                            assert(is_h4(ci, n4) && spec_cascade(*grid, n4, c2i(queue@[k])));
                        }
                    }
                    assert forall|k: int| 0 <= k < queue@.len() implies in_dims3(
                        d,
                        c2i(#[trigger] queue@[k]),
                    ) && spec_reachable(*grid, *map_bounds, spawns@, c2i(queue@[k])) by {
                        if k < q_mark.len() {
                            assert(queue@[k] == q_mark[k]);
                        } else {
                            let b = c2i(queue@[k]);
                            assert(bfs_edge(*grid, ci, b));
                            lemma_reach_step(*grid, *map_bounds, spawns@, ci, b);
                        }
                    }
                    assert forall|b: (int, int, int)| #[trigger] bfs_edge(*grid, ci, b) implies
                    queue_has(queue@, b) by {
                        let n = choose|n: (int, int, int)|
                            #[trigger] is_h4(ci, n) && 0 <= n.0 < d.0 && 0 <= n.2 < d.2
                                && spec_cascade(*grid, n, b);
                        if n == n1 {
                            assert(queue_has(qa, b));
                            let k = choose|k: int| 0 <= k < qa.len() && c2i(#[trigger] qa[k]) == b;
                            assert(c2i(queue@[k]) == b);
                        } else if n == n2 {
                            assert(queue_has(qb, b));
                            let k = choose|k: int| 0 <= k < qb.len() && c2i(#[trigger] qb[k]) == b;
                            assert(c2i(queue@[k]) == b);
                        } else if n == n3 {
                            assert(queue_has(qc, b));
                            let k = choose|k: int| 0 <= k < qc.len() && c2i(#[trigger] qc[k]) == b;
                            assert(c2i(queue@[k]) == b);
                        } else {
                            assert(n == n4);
                            assert(queue_has(queue@, b));
                        }
                    }
                }
            } else {
                let ghost q_mark = queue@;
                let mut j: usize = 0;
                while j < 27
                    invariant
                        j <= 27,
                        grid_wf(*grid),
                        d == grid_dims(*grid),
                        d == (d0, d1, d2),
                        d0 <= 1_000_000 && d1 <= 1_000_000 && d2 <= 1_000_000,
                        in_dims3(d, ci),
                        ci == c2i((ux, uy, uz)),
                        spec_reachable(*grid, *map_bounds, spawns@, ci),
                        cell_at(*grid, ci.0, ci.1, ci.2) != 0,
                        offs@.len() == 27,
                        forall|k: int|
                            #![trigger offs@[k]]
                            0 <= k < 27 ==> (offs@[k].0 == k / 9 - 1 && offs@[k].1 == (k % 9) / 3
                                - 1 && offs@[k].2 == k % 3 - 1),
                        queue@.len() >= q_mark.len(),
                        forall|k: int| 0 <= k < q_mark.len() ==> #[trigger] queue@[k] == q_mark[k],
                        forall|k: int|
                            q_mark.len() <= k < queue@.len() ==> in_dims3(
                                d,
                                c2i(#[trigger] queue@[k]),
                            ) && spec_reachable(*grid, *map_bounds, spawns@, c2i(queue@[k])),
                        forall|jj: int|
                            0 <= jj < j ==> {
                                let b = (
                                    ci.0 + offs@[jj].0,
                                    ci.1 + #[trigger] offs@[jj].1,
                                    ci.2 + offs@[jj].2,
                                );
                                (in_dims3(d, b) && spec_is_cell_walkable(*grid, b)) ==> queue_has(
                                    queue@,
                                    b,
                                )
                            },
                    decreases 27 - j,
                {
                    let off: (i64, i64, i64) = offs[j];
                    let bx: i64 = ux as i64 + off.0;
                    let by: i64 = uy as i64 + off.1;
                    let bz: i64 = uz as i64 + off.2;
                    let ghost qj = queue@;
                    if bx >= 0 && bx < d0 as i64 && by >= 0 && by < d1 as i64 && bz >= 0 && bz
                        < d2 as i64 {
                        if is_cell_walkable(grid, bx as usize, by as usize, bz as usize) {
                            queue.push_back((bx as usize, by as usize, bz as usize));
                            proof {
                                let b = (bx as int, by as int, bz as int);
                                assert(c2i(queue@[queue@.len() - 1]) == b);
                                if b != ci {
                                    assert(is_moore26(ci, b));
                                    assert(bfs_edge(*grid, ci, b));
                                    lemma_reach_step(*grid, *map_bounds, spawns@, ci, b);
                                }
                            }
                        }
                    }
                    proof {
                        assert forall|c: (int, int, int)| queue_has(qj, c) implies queue_has(
                            queue@,
                            c,
                        ) by {
                            let k = choose|k: int| 0 <= k < qj.len() && c2i(qj[k]) == c;
                            assert(c2i(queue@[k]) == c);
                        }
                    }
                    j += 1;
                }
                proof {
                    assert forall|b: (int, int, int)| #[trigger] bfs_edge(*grid, ci, b) implies
                    queue_has(queue@, b) by {
                        let dx = b.0 - ci.0;
                        let dy = b.1 - ci.1;
                        let dz = b.2 - ci.2;
                        let k = (dx + 1) * 9 + (dy + 1) * 3 + (dz + 1);
                        vstd::arithmetic::div_mod::lemma_fundamental_div_mod_converse(
                            k,
                            9,
                            dx + 1,
                            (dy + 1) * 3 + (dz + 1),
                        );
                        vstd::arithmetic::div_mod::lemma_fundamental_div_mod_converse(
                            (dy + 1) * 3 + (dz + 1),
                            3,
                            dy + 1,
                            dz + 1,
                        );
                        assert(offs@[k].0 == dx && offs@[k].1 == dy && offs@[k].2 == dz);
                        assert((ci.0 + offs@[k].0, ci.1 + offs@[k].1, ci.2 + offs@[k].2) == b);
                    }
                }
            }
            proof {
                lemma_bfs_mark(*grid, w_old, w, *map_bounds, spawns@, q0, q1, queue@, ci);
            }
        } else {
            proof {
                lemma_bfs_skip(*grid, w, *map_bounds, spawns@, q0, q1);
            }
        }
    }
    proof {
        assert forall|a: int, b: int, c: int| in_dims(d, a, b, c) implies #[trigger] cell_at(
            w,
            a,
            b,
            c,
        ) == (if spec_reachable(*grid, *map_bounds, spawns@, (a, b, c)) {
            if cell_at(*grid, a, b, c) == 6 {
                2u8
            } else {
                1u8
            }
        } else {
            0u8
        }) by {
            if spec_reachable(*grid, *map_bounds, spawns@, (a, b, c)) {
                let p = choose|p: Seq<(int, int, int)>|
                    #[trigger] bfs_path_ok(*grid, *map_bounds, spawns@, p, (a, b, c));
                lemma_path_marked(*grid, w, *map_bounds, spawns@, p, (a, b, c));
            }
        }
    }
    Ok(w)
}

} // verus!

verus! {

/// Filtered ramps inherit their directions from the raw objects, so
/// they stay within 0..3.
proof fn lemma_filter_ramp_dirs(objects: Seq<RawMapObject>, sizes: Seq<Vec3>, i: int)
    requires
        i <= objects.len(),
        forall|j: int|
            0 <= j < objects.len() && (#[trigger] objects[j].direction) is Some
                ==> objects[j].direction->0 <= 3,
    ensures
        ramps_wf(spec_filter_state(objects, sizes, i).ramps),
    decreases i,
{
    if i > 0 {
        lemma_filter_ramp_dirs(objects, sizes, i - 1);
        let prev = spec_filter_state(objects, sizes, i - 1);
        let cur = spec_filter_state(objects, sizes, i);
        assert forall|k: int| 0 <= k < cur.ramps.len() implies #[trigger] cur.ramps[k].direction
            <= 3 by {
            if k < prev.ramps.len() {
                assert(prev.ramps[k].direction <= 3);
            } else {
                assert((objects[i - 1].direction) is Some ==> objects[i - 1].direction->0 <= 3);
            }
        }
    }
}

/// The spawn rows parsed into positions, stopping at the first bad
/// row: fewer than three coordinates, or a null among the first three.
pub open spec fn spec_parse_spawns(rows: Seq<Vec<Option<i64>>>, i: int) -> Result<
    Seq<Vec3>,
    MapParseError,
>
    decreases i,
{
    if i <= 0 {
        Result::Ok(Seq::empty())
    } else {
        match spec_parse_spawns(rows, i - 1) {
            Result::Err(e) => Result::Err(e),
            Result::Ok(prefix) => {
                let row = rows[i - 1]@;
                if row.len() < 3 {
                    Result::Err(MapParseError::SpawnTooShort)
                } else if row[0] is None || row[1] is None || row[2] is None {
                    Result::Err(MapParseError::NullSpawn)
                } else {
                    Result::Ok(prefix.push(Vec3 { x: row[0]->0, y: row[1]->0, z: row[2]->0 }))
                }
            },
        }
    }
}

/// A parse failure at a prefix persists over longer prefixes.
proof fn lemma_parse_spawns_err(rows: Seq<Vec<Option<i64>>>, j: int, j2: int)
    requires
        j <= j2,
        spec_parse_spawns(rows, j) is Err,
    ensures
        spec_parse_spawns(rows, j2) == spec_parse_spawns(rows, j),
    decreases j2 - j,
{
    if j < j2 {
        lemma_parse_spawns_err(rows, j, j2 - 1);
    }
}

/// Parses the spawn rows of a raw map into positions.
pub fn parse_spawns(rows: &Vec<Vec<Option<i64>>>) -> (r: Result<Vec<Vec3>, MapParseError>)
    ensures
        match r {
            Result::Ok(v) => spec_parse_spawns(rows@, rows@.len() as int) == Result::<
                Seq<Vec3>,
                MapParseError,
            >::Ok(v@),
            Result::Err(e) => spec_parse_spawns(rows@, rows@.len() as int) == Result::<
                Seq<Vec3>,
                MapParseError,
            >::Err(e),
        },
{
    let mut out: Vec<Vec3> = Vec::new();
    let mut i: usize = 0;
    while i < rows.len()
        invariant
            i <= rows@.len(),
            spec_parse_spawns(rows@, i as int) == Result::<Seq<Vec3>, MapParseError>::Ok(out@),
        decreases rows@.len() - i,
    {
        let row: &Vec<Option<i64>> = &rows[i];
        if row.len() < 3 {
            proof {
                lemma_parse_spawns_err(rows@, i as int + 1, rows@.len() as int);
            }
            return Err(MapParseError::SpawnTooShort);
        }
        let x: i64 = match row[0] {
            Option::Some(v) => v,
            Option::None => {
                proof {
                    lemma_parse_spawns_err(rows@, i as int + 1, rows@.len() as int);
                }
                return Err(MapParseError::NullSpawn);
            },
        };
        let y: i64 = match row[1] {
            Option::Some(v) => v,
            Option::None => {
                proof {
                    lemma_parse_spawns_err(rows@, i as int + 1, rows@.len() as int);
                }
                return Err(MapParseError::NullSpawn);
            },
        };
        let z: i64 = match row[2] {
            Option::Some(v) => v,
            Option::None => {
                proof {
                    lemma_parse_spawns_err(rows@, i as int + 1, rows@.len() as int);
                }
                return Err(MapParseError::NullSpawn);
            },
        };
        out.push(Vec3 { x, y, z });
        i += 1;
    }
    Ok(out)
}

/// The occupancy code of a cell, written out from the map bound and
/// the filtered box lists alone: the covering chunk is the cell's
/// coordinates divided by the chunk width, and its index lists are the
/// boxes intersecting the chunk's bounds.
pub open spec fn spec_occ_pure(
    map_bounds: AABB,
    objects: Seq<AABB>,
    ramps: Seq<Ramp>,
    ladders: Seq<AABB>,
    x: int,
    y: int,
    z: int,
) -> u8 {
    let chb = spec_chunk_bounds(map_bounds, x / CHUNK_CELLS as int, z / CHUNK_CELLS as int);
    let cellb = spec_cell_box(map_bounds, x, y, z);
    if spec_box_hit_any(spec_box_hits(ladders, chb, ladders.len() as int), ladders, cellb) {
        6u8
    } else if spec_box_hit_any(spec_box_hits(objects, chb, objects.len() as int), objects, cellb) {
        1u8
    } else {
        match spec_ramp_code(spec_ramp_hits(ramps, chb, ramps.len() as int), ramps, cellb) {
            Option::Some(c) => c,
            Option::None => 0u8,
        }
    }
}

/// Number of cells along one axis: the bound's extent divided by the
/// cell size, rounded up.
pub open spec fn spec_axis_cells(lo: i64, hi: i64) -> int {
    (hi - lo + (CELL_SIZE_MILLI - 1)) / (CELL_SIZE_MILLI as int)
}

/// A preprocessed map: its name, spawn positions, clamped bound, and
/// the walkable grid derived by the flood fill.
pub struct GameMap {
    pub name: String,
    pub spawns: Vec<Vec3>,
    pub bounds: AABB,
    pub walkable_grid: CellGrid,
}

impl GameMap {
    /// The map's structural invariant: an ordered, clamped bound whose
    /// grid shape matches it, walkable codes in 0..2, and spawn
    /// positions in the accepted range.
    pub open spec fn wf(self) -> bool {
        &&& bounds_wf(self.bounds)
        &&& spec_max_map_bounds().min_x <= self.bounds.min_x
        &&& spec_max_map_bounds().min_y <= self.bounds.min_y
        &&& spec_max_map_bounds().min_z <= self.bounds.min_z
        &&& self.bounds.max_x <= spec_max_map_bounds().max_x
        &&& self.bounds.max_y <= spec_max_map_bounds().max_y
        &&& self.bounds.max_z <= spec_max_map_bounds().max_z
        &&& grid_wf(self.walkable_grid)
        &&& grid_dims(self.walkable_grid).0 == spec_axis_cells(self.bounds.min_x, self.bounds.max_x)
        &&& grid_dims(self.walkable_grid).1 == spec_axis_cells(self.bounds.min_y, self.bounds.max_y)
        &&& grid_dims(self.walkable_grid).2 == spec_axis_cells(self.bounds.min_z, self.bounds.max_z)
        &&& grid_dims(self.walkable_grid).0 <= 1_000_000
        &&& grid_dims(self.walkable_grid).1 <= 1_000_000
        &&& grid_dims(self.walkable_grid).2 <= 1_000_000
        &&& forall|a: int, b: int, c: int|
            in_dims(grid_dims(self.walkable_grid), a, b, c) ==> #[trigger] cell_at(
                self.walkable_grid,
                a,
                b,
                c,
            ) <= 2
        &&& spawns_wf(self.spawns@)
    }

    /// The walkable code of a cell: 0 not walkable, 1 walkable ground
    /// or ramp, 2 walkable ladder.
    pub open spec fn spec_walkable_at(self, c: (int, int, int)) -> u8 {
        cell_at(self.walkable_grid, c.0, c.1, c.2)
    }

    /// The map's grid shape.
    pub open spec fn spec_dims(self) -> (usize, usize, usize) {
        grid_dims(self.walkable_grid)
    }

    pub fn name(&self) -> (r: String)
        ensures
            r@ == self.name@,
    {
        self.name.clone()
    }

    pub fn spawns(&self) -> (r: Vec<Vec3>)
        ensures
            r@ == self.spawns@,
    {
        self.spawns.clone()
    }

    /// The map's clamped bound.
    pub fn bounds(&self) -> (r: AABB)
        ensures
            r == self.bounds,
    {
        self.bounds
    }

    /// The walkable code of a cell, 0 for cells outside the grid.
    pub fn walkable_code(&self, cell: (usize, usize, usize)) -> (r: u8)
        requires
            self.wf(),
        ensures
            r == (if in_dims3(self.spec_dims(), c2i(cell)) {
                self.spec_walkable_at(c2i(cell))
            } else {
                0u8
            }),
    {
        let (d0, d1, d2): (usize, usize, usize) = self.walkable_grid.dims();
        if cell.0 < d0 && cell.1 < d1 && cell.2 < d2 {
            self.walkable_grid.get(cell.0, cell.1, cell.2)
        } else {
            0
        }
    }
}

impl Clone for GameMap {
    /// An independent map with the same name, spawns, bound and grid.
    fn clone(&self) -> (r: Self)
        ensures
            r.name@ == self.name@,
            r.spawns@ == self.spawns@,
            r.bounds == self.bounds,
            grid_dims(r.walkable_grid) == grid_dims(self.walkable_grid),
            grid_cells(r.walkable_grid) == grid_cells(self.walkable_grid),
            self.wf() ==> r.wf(),
    {
        let r = GameMap {
            name: self.name.clone(),
            spawns: self.spawns.clone(),
            bounds: self.bounds,
            walkable_grid: self.walkable_grid.clone_grid(),
        };
        proof {
            assert forall|a: int, b: int, c: int|
                in_dims(grid_dims(r.walkable_grid), a, b, c) implies #[trigger] cell_at(
                r.walkable_grid,
                a,
                b,
                c,
            ) == cell_at(self.walkable_grid, a, b, c) by {}
        }
        r
    }
}

} // verus!

verus! {

/// Spawn positions parsed from well-formed rows stay in range.
proof fn lemma_parse_spawns_wf(rows: Seq<Vec<Option<i64>>>, i: int)
    requires
        i <= rows.len(),
        forall|j: int, k: int|
            0 <= j < rows.len() && 0 <= k < rows[j]@.len() && #[trigger] rows[j]@[k] is Some
                ==> -MAX_RAW_COORD <= rows[j]@[k]->0 <= MAX_RAW_COORD,
        spec_parse_spawns(rows, i) is Ok,
    ensures
        spawns_wf(spec_parse_spawns(rows, i)->Ok_0),
    decreases i,
{
    if i > 0 {
        lemma_parse_spawns_wf(rows, i - 1);
        let prev = spec_parse_spawns(rows, i - 1)->Ok_0;
        let cur = spec_parse_spawns(rows, i)->Ok_0;
        assert forall|k: int| 0 <= k < cur.len() implies {
            let s = #[trigger] cur[k];
            -MAX_RAW_COORD <= s.x <= MAX_RAW_COORD && -MAX_RAW_COORD <= s.y <= MAX_RAW_COORD
                && -MAX_RAW_COORD <= s.z <= MAX_RAW_COORD
        } by {
            if k < prev.len() {
                assert(prev[k] == cur[k]);
            } else {
                assert(rows[i - 1]@[0] is Some && rows[i - 1]@[1] is Some && rows[i - 1]@[2]
                    is Some);
            }
        }
    }
}

impl GameMap {
    /// Preprocesses a raw map: filters its objects, parses its spawns,
    /// builds the chunk index and occupancy grid, and floods the
    /// walkable grid from the spawn cells. The walkable grid marks
    /// exactly the cells the flood fill reaches from some spawn, 2 on
    /// ladder cells and 1 elsewhere. Fails exactly when `spec_map_error`
    /// names a failure, with that error: a considered size index beyond
    /// the size table, a bad spawn row, or a spawn seed cell outside
    /// the grid.
    #[verifier::rlimit(100)]
    pub fn new(raw_map: &RawMap) -> (r: Result<GameMap, MapParseError>)
        requires
            raw_map_wf(*raw_map),
        ensures
            ({
                let sizes = spec_size_groups(raw_map.sizes@);
                let n = raw_map.objects@.len() as int;
                let st = spec_filter_state(raw_map.objects@, sizes, n);
                let bounds = st.bounds.spec_limit_by(spec_max_map_bounds());
                match r {
                    Result::Ok(m) => {
                        &&& spec_map_error(*raw_map) is None
                        &&& m.wf()
                        &&& m.name@ == raw_map.name@
                        &&& !spec_filter_bad_index(raw_map.objects@, sizes, n)
                        &&& m.bounds == bounds
                        &&& spec_parse_spawns(raw_map.spawns@, raw_map.spawns@.len() as int)
                            == Result::<Seq<Vec3>, MapParseError>::Ok(m.spawns@)
                        &&& exists|occ: CellGrid|
                            {
                                &&& grid_wf(occ)
                                &&& grid_dims(occ) == grid_dims(m.walkable_grid)
                                &&& forall|x: int, y: int, z: int|
                                    in_dims(grid_dims(occ), x, y, z) ==> #[trigger] cell_at(
                                        occ,
                                        x,
                                        y,
                                        z,
                                    ) == spec_occ_pure(
                                        bounds,
                                        st.objects,
                                        st.ramps,
                                        st.ladders,
                                        x,
                                        y,
                                        z,
                                    )
                                &&& forall|x: int, y: int, z: int|
                                    in_dims(grid_dims(occ), x, y, z) ==> #[trigger] cell_at(
                                        m.walkable_grid,
                                        x,
                                        y,
                                        z,
                                    ) == (if spec_reachable(occ, bounds, m.spawns@, (x, y, z)) {
                                        if cell_at(occ, x, y, z) == 6 {
                                            2u8
                                        } else {
                                            1u8
                                        }
                                    } else {
                                        0u8
                                    })
                            }
                    },
                    Result::Err(e) => spec_map_error(*raw_map) == Option::Some(e),
                }
            }),
    {
        let filtered = match filter_objects(raw_map) {
            Ok(f) => f,
            Err(e) => {
                return Err(e);
            },
        };
        let (map_bounds, objects, ramps, ladders): (AABB, Vec<AABB>, Vec<Ramp>, Vec<AABB>) =
            filtered;
        let spawns: Vec<Vec3> = match parse_spawns(&raw_map.spawns) {
            Ok(s) => s,
            Err(e) => {
                return Err(e);
            },
        };
        proof {
            lemma_parse_spawns_wf(raw_map.spawns@, raw_map.spawns@.len() as int);
        }
        let nx: usize = ((map_bounds.max_x - map_bounds.min_x + (CELL_SIZE_MILLI - 1))
            / CELL_SIZE_MILLI) as usize;
        let ny: usize = ((map_bounds.max_y - map_bounds.min_y + (CELL_SIZE_MILLI - 1))
            / CELL_SIZE_MILLI) as usize;
        let nz: usize = ((map_bounds.max_z - map_bounds.min_z + (CELL_SIZE_MILLI - 1))
            / CELL_SIZE_MILLI) as usize;
        proof {
            vstd::arithmetic::div_mod::lemma_fundamental_div_mod(
                map_bounds.max_x - map_bounds.min_x + (CELL_SIZE_MILLI - 1) as int,
                CELL_SIZE_MILLI as int,
            );
            vstd::arithmetic::div_mod::lemma_fundamental_div_mod(
                map_bounds.max_y - map_bounds.min_y + (CELL_SIZE_MILLI - 1) as int,
                CELL_SIZE_MILLI as int,
            );
            vstd::arithmetic::div_mod::lemma_fundamental_div_mod(
                map_bounds.max_z - map_bounds.min_z + (CELL_SIZE_MILLI - 1) as int,
                CELL_SIZE_MILLI as int,
            );
            assert(nx <= 641 && ny <= 641 && nz <= 641);
            assert(nx * ny * nz <= 641 * 641 * 641) by (nonlinear_arith)
                requires
                    nx <= 641,
                    ny <= 641,
                    nz <= 641,
            ;
        }
        let ncx: usize = (nx + 129) / 130;
        let ncz: usize = (nz + 129) / 130;
        let chunks: Vec<Chunk> = generate_object_chunks(
            &map_bounds,
            ncx,
            ncz,
            &objects,
            &ramps,
            &ladders,
        );
        proof {
            lemma_filter_ramp_dirs(
                raw_map.objects@,
                spec_size_groups(raw_map.sizes@),
                raw_map.objects@.len() as int,
            );
        }
        let occ: CellGrid = generate_grid(
            &map_bounds,
            &chunks,
            ncx,
            ncz,
            nx,
            ny,
            nz,
            &objects,
            &ramps,
            &ladders,
        );
        proof {
            assert forall|x: int, y: int, z: int| in_dims((nx, ny, nz), x, y, z) implies #[trigger]
            cell_at(occ, x, y, z) == spec_occ_pure(
                map_bounds,
                objects@,
                ramps@,
                ladders@,
                x,
                y,
                z,
            ) by {
                let cx = x / CHUNK_CELLS as int;
                let cz = z / CHUNK_CELLS as int;
                vstd::arithmetic::div_mod::lemma_fundamental_div_mod(x, 130);
                vstd::arithmetic::div_mod::lemma_fundamental_div_mod(nx as int + 129, 130);
                vstd::arithmetic::div_mod::lemma_fundamental_div_mod(z, 130);
                vstd::arithmetic::div_mod::lemma_fundamental_div_mod(nz as int + 129, 130);
                assert(0 <= cx < ncx && 0 <= cz < ncz);
                assert(0 <= cx * (ncz as int) + cz < ncx * ncz) by (nonlinear_arith)
                    requires
                        0 <= cx < ncx,
                        0 <= cz < ncz,
                ;
                vstd::arithmetic::div_mod::lemma_fundamental_div_mod_converse(
                    cx * (ncz as int) + cz,
                    ncz as int,
                    cx,
                    cz,
                );
            }
        }
        let walkable_grid: CellGrid = match generate_walkable_grid(&occ, &map_bounds, &spawns) {
            Ok(w) => w,
            Err(e) => {
                return Err(e);
            },
        };
        let m = GameMap { name: raw_map.name.clone(), spawns, bounds: map_bounds, walkable_grid };
        proof {
            assert(m.wf());
            assert(grid_wf(occ) && grid_dims(occ) == grid_dims(m.walkable_grid));
        }
        Ok(m)
    }
}

} // verus!

verus! {

/// The 14-cell neighbourhood the pathfinder steps through: the Moore
/// neighbourhood without the four diagonal x/z columns.
pub open spec fn is_nbr14(a: (int, int, int), b: (int, int, int)) -> bool {
    &&& -1 <= b.0 - a.0 <= 1
    &&& -1 <= b.1 - a.1 <= 1
    &&& -1 <= b.2 - a.2 <= 1
    &&& !(b.0 != a.0 && b.2 != a.2)
    &&& b != a
}

/// The 8 horizontal Moore neighbours relation.
pub open spec fn is_h8(a: (int, int, int), n: (int, int, int)) -> bool {
    &&& n.1 == a.1
    &&& -1 <= n.0 - a.0 <= 1
    &&& -1 <= n.2 - a.2 <= 1
    &&& !(n.0 == a.0 && n.2 == a.2)
}

/// Whether a successor entry's cell is the base cell shifted by the
/// offset at index `jj`.
pub open spec fn succ_entry_matches(
    ci: (int, int, int),
    offs: Seq<(i64, i64, i64)>,
    e: ((usize, usize, usize), i32),
    jj: int,
) -> bool {
    c2i(e.0) == (ci.0 + offs[jj].0, ci.1 + offs[jj].1, ci.2 + offs[jj].2)
}

/// Distinct indices of the offset table carry distinct offsets.
proof fn lemma_moore_offsets_distinct(offs: Seq<(i64, i64, i64)>, a: int, b: int)
    requires
        offs.len() == 27,
        forall|k: int|
            #![trigger offs[k]]
            0 <= k < 27 ==> (offs[k].0 == k / 9 - 1 && offs[k].1 == (k % 9) / 3 - 1 && offs[k].2
                == k % 3 - 1),
        0 <= a < 27,
        0 <= b < 27,
        a != b,
    ensures
        !(offs[a].0 == offs[b].0 && offs[a].1 == offs[b].1 && offs[a].2 == offs[b].2),
{
    if offs[a].0 == offs[b].0 && offs[a].1 == offs[b].1 && offs[a].2 == offs[b].2 {
        vstd::arithmetic::div_mod::lemma_fundamental_div_mod(a, 9);
        vstd::arithmetic::div_mod::lemma_fundamental_div_mod(a % 9, 3);
        vstd::arithmetic::div_mod::lemma_fundamental_div_mod(b, 9);
        vstd::arithmetic::div_mod::lemma_fundamental_div_mod(b % 9, 3);
        assert(a == b);
    }
}

impl GameMap {
    /// A cell borders the void: some horizontal Moore neighbour has no
    /// walkable cell at its own height nor one above or below.
    pub open spec fn spec_exposed(self, b: (int, int, int)) -> bool {
        exists|n: (int, int, int)|
            {
                let d = self.spec_dims();
                &&& #[trigger] is_h8(b, n)
                &&& 0 <= n.0 < d.0
                &&& 0 <= n.2 < d.2
                &&& 0 <= n.1 - 1
                &&& n.1 + 1 < d.1
                &&& self.spec_walkable_at(n) == 0
                &&& self.spec_walkable_at((n.0, n.1 + 1, n.2)) == 0
                &&& self.spec_walkable_at((n.0, n.1 - 1, n.2)) == 0
            }
    }

    /// One pathfinder step: a walkable cell of the 14-neighbourhood.
    pub open spec fn spec_is_successor(self, a: (int, int, int), b: (int, int, int)) -> bool {
        &&& in_dims3(self.spec_dims(), b)
        &&& is_nbr14(a, b)
        &&& (self.spec_walkable_at(b) == 1 || self.spec_walkable_at(b) == 2)
    }

    /// The step cost: 3 onto a ladder or a cell that borders the void,
    /// else 1 on the same height and 2 across heights.
    pub open spec fn spec_successor_cost(self, a: (int, int, int), b: (int, int, int)) -> int {
        if self.spec_walkable_at(b) == 2 {
            3
        } else if self.spec_exposed(b) {
            3
        } else if a.1 == b.1 {
            1
        } else {
            2
        }
    }

    /// Executable check of `spec_exposed`.
    fn is_exposed(&self, bx: usize, by: usize, bz: usize) -> (r: bool)
        requires
            self.wf(),
            in_dims3(self.spec_dims(), (bx as int, by as int, bz as int)),
        ensures
            r == self.spec_exposed((bx as int, by as int, bz as int)),
    {
        let (d0, d1, d2): (usize, usize, usize) = self.walkable_grid.dims();
        let offs: Vec<(i64, i64, i64)> = moore_offsets();
        let ghost b = (bx as int, by as int, bz as int);
        let mut j: usize = 0;
        while j < 27
            invariant
                j <= 27,
                self.wf(),
                b == (bx as int, by as int, bz as int),
                in_dims3(self.spec_dims(), b),
                (d0, d1, d2) == self.spec_dims(),
                offs@.len() == 27,
                forall|k: int|
                    #![trigger offs@[k]]
                    0 <= k < 27 ==> (offs@[k].0 == k / 9 - 1 && offs@[k].1 == (k % 9) / 3 - 1
                        && offs@[k].2 == k % 3 - 1),
                forall|jj: int|
                    0 <= jj < j ==> {
                        let n = (b.0 + offs@[jj].0, b.1 + #[trigger] offs@[jj].1, b.2 + offs@[jj].2);
                        !(is_h8(b, n) && 0 <= n.0 < d0 && 0 <= n.2 < d2 && 0 <= n.1 - 1 && n.1 + 1
                            < d1 && self.spec_walkable_at(n) == 0 && self.spec_walkable_at(
                            (n.0, n.1 + 1, n.2),
                        ) == 0 && self.spec_walkable_at((n.0, n.1 - 1, n.2)) == 0)
                    },
            decreases 27 - j,
        {
            let off: (i64, i64, i64) = offs[j];
            if off.1 == 0 && !(off.0 == 0 && off.2 == 0) {
                let nx: i64 = bx as i64 + off.0;
                let nz: i64 = bz as i64 + off.2;
                if nx >= 0 && nx < d0 as i64 && nz >= 0 && nz < d2 as i64 && by >= 1 && by + 1
                    < d1 {
                    if self.walkable_grid.get(nx as usize, by, nz as usize) == 0
                        && self.walkable_grid.get(nx as usize, by + 1, nz as usize) == 0
                        && self.walkable_grid.get(nx as usize, by - 1, nz as usize) == 0 {
                        assert(self.spec_exposed(b)) by {
                            assert(is_h8(b, (nx as int, by as int, nz as int)));
                        }
                        return true;
                    }
                }
            }
            j += 1;
        }
        proof {
            if self.spec_exposed(b) {
                let n = choose|n: (int, int, int)|
                    {
                        let d = self.spec_dims();
                        &&& #[trigger] is_h8(b, n)
                        &&& 0 <= n.0 < d.0
                        &&& 0 <= n.2 < d.2
                        &&& 0 <= n.1 - 1
                        &&& n.1 + 1 < d.1
                        &&& self.spec_walkable_at(n) == 0
                        &&& self.spec_walkable_at((n.0, n.1 + 1, n.2)) == 0
                        &&& self.spec_walkable_at((n.0, n.1 - 1, n.2)) == 0
                    };
                let dx = n.0 - b.0;
                let dz = n.2 - b.2;
                let k = (dx + 1) * 9 + 3 + (dz + 1);
                vstd::arithmetic::div_mod::lemma_fundamental_div_mod_converse(
                    k,
                    9,
                    dx + 1,
                    3 + (dz + 1),
                );
                vstd::arithmetic::div_mod::lemma_fundamental_div_mod_converse(
                    3 + (dz + 1),
                    3,
                    1,
                    dz + 1,
                );
                assert(offs@[k].0 == dx && offs@[k].1 == 0 && offs@[k].2 == dz);
                assert(false);
            }
        }
        false
    }

    /// The pathfinder's successor list for a cell: every walkable cell
    /// of the 14-neighbourhood, once each, with its step cost.
    #[verifier::rlimit(100)]
    pub fn successors(&self, cell: (usize, usize, usize)) -> (r: Vec<((usize, usize, usize), i32)>)
        requires
            self.wf(),
            cell.0 <= 1_000_000,
            cell.1 <= 1_000_000,
            cell.2 <= 1_000_000,
        ensures
            forall|k: int|
                0 <= k < r@.len() ==> self.spec_is_successor(c2i(cell), c2i(#[trigger] r@[k].0))
                    && r@[k].1 == self.spec_successor_cost(c2i(cell), c2i(r@[k].0)),
            forall|b: (int, int, int)|
                self.spec_is_successor(c2i(cell), b) ==> exists|k: int|
                    0 <= k < r@.len() && c2i(#[trigger] r@[k].0) == b,
            forall|k1: int, k2: int|
                0 <= k1 < k2 < r@.len() ==> c2i(#[trigger] r@[k1].0) != c2i(#[trigger] r@[k2].0),
    {
        let (d0, d1, d2): (usize, usize, usize) = self.walkable_grid.dims();
        let offs: Vec<(i64, i64, i64)> = moore_offsets();
        let ghost ci = c2i(cell);
        let mut r: Vec<((usize, usize, usize), i32)> = Vec::new();
        let ghost mut idxs: Seq<int> = Seq::empty();
        let mut j: usize = 0;
        while j < 27
            invariant
                j <= 27,
                self.wf(),
                ci == c2i(cell),
                cell.0 <= 1_000_000 && cell.1 <= 1_000_000 && cell.2 <= 1_000_000,
                (d0, d1, d2) == self.spec_dims(),
                offs@.len() == 27,
                forall|k: int|
                    #![trigger offs@[k]]
                    0 <= k < 27 ==> (offs@[k].0 == k / 9 - 1 && offs@[k].1 == (k % 9) / 3 - 1
                        && offs@[k].2 == k % 3 - 1),
                forall|k: int|
                    0 <= k < r@.len() ==> self.spec_is_successor(ci, c2i(#[trigger] r@[k].0))
                        && r@[k].1 == self.spec_successor_cost(ci, c2i(r@[k].0)),
                forall|jj: int|
                    0 <= jj < j ==> {
                        let b = (
                            ci.0 + offs@[jj].0,
                            ci.1 + #[trigger] offs@[jj].1,
                            ci.2 + offs@[jj].2,
                        );
                        self.spec_is_successor(ci, b) ==> exists|k: int|
                            0 <= k < r@.len() && c2i(#[trigger] r@[k].0) == b
                    },
                idxs.len() == r@.len(),
                forall|k: int|
                    #![trigger idxs[k]]
                    0 <= k < idxs.len() ==> 0 <= idxs[k] < j && succ_entry_matches(
                        ci,
                        offs@,
                        r@[k],
                        idxs[k],
                    ),
                forall|k1: int, k2: int|
                    0 <= k1 < k2 < idxs.len() ==> #[trigger] idxs[k1] < #[trigger] idxs[k2],
            decreases 27 - j,
        {
            let off: (i64, i64, i64) = offs[j];
            let ghost r_pre = r@;
            if !(off.0 == 0 && off.1 == 0 && off.2 == 0) && !(off.0 != 0 && off.2 != 0) {
                let bx: i64 = cell.0 as i64 + off.0;
                let by: i64 = cell.1 as i64 + off.1;
                let bz: i64 = cell.2 as i64 + off.2;
                if bx >= 0 && bx < d0 as i64 && by >= 0 && by < d1 as i64 && bz >= 0 && bz
                    < d2 as i64 {
                    let code: u8 = self.walkable_grid.get(bx as usize, by as usize, bz as usize);
                    if code == 2 {
                        r.push(((bx as usize, by as usize, bz as usize), 3));
                        proof {
                            idxs = idxs.push(j as int);
                        }
                    } else if code == 1 {
                        let cost: i32 = if self.is_exposed(bx as usize, by as usize, bz as usize) {
                            3
                        } else if by == cell.1 as i64 {
                            1
                        } else {
                            2
                        };
                        r.push(((bx as usize, by as usize, bz as usize), cost));
                        proof {
                            idxs = idxs.push(j as int);
                        }
                    }
                }
            }
            proof {
                assert forall|k: int| 0 <= k < r@.len() implies self.spec_is_successor(
                    ci,
                    c2i(#[trigger] r@[k].0),
                ) && r@[k].1 == self.spec_successor_cost(ci, c2i(r@[k].0)) by {
                    if k < r_pre.len() {
                        assert(r@[k] == r_pre[k]);
                    }
                }
                assert forall|jj: int| 0 <= jj < j + 1 implies {
                    let b = (ci.0 + offs@[jj].0, ci.1 + #[trigger] offs@[jj].1, ci.2 + offs@[jj].2);
                    self.spec_is_successor(ci, b) ==> exists|k: int|
                        0 <= k < r@.len() && c2i(#[trigger] r@[k].0) == b
                } by {
                    let b = (ci.0 + offs@[jj].0, ci.1 + offs@[jj].1, ci.2 + offs@[jj].2);
                    if self.spec_is_successor(ci, b) {
                        if jj < j {
                            let k = choose|k: int|
                                0 <= k < r_pre.len() && c2i(#[trigger] r_pre[k].0) == b;
                            assert(c2i(r@[k].0) == b);
                        } else {
                            assert(c2i(r@[r@.len() - 1].0) == b);
                        }
                    }
                }
            }
            j += 1;
        }
        proof {
            assert forall|k1: int, k2: int| 0 <= k1 < k2 < r@.len() implies c2i(
                #[trigger] r@[k1].0,
            ) != c2i(#[trigger] r@[k2].0) by {
                assert(0 <= idxs[k1] < 27 && 0 <= idxs[k2] < 27 && idxs[k1] < idxs[k2]);
                assert(succ_entry_matches(ci, offs@, r@[k1], idxs[k1]));
                assert(succ_entry_matches(ci, offs@, r@[k2], idxs[k2]));
                lemma_moore_offsets_distinct(offs@, idxs[k1], idxs[k2]);
            }
            assert forall|b: (int, int, int)| self.spec_is_successor(ci, b) implies exists|k: int|
                0 <= k < r@.len() && c2i(#[trigger] r@[k].0) == b by {
                let dx = b.0 - ci.0;
                let dy = b.1 - ci.1;
                let dz = b.2 - ci.2;
                let k = (dx + 1) * 9 + (dy + 1) * 3 + (dz + 1);
                vstd::arithmetic::div_mod::lemma_fundamental_div_mod_converse(
                    k,
                    9,
                    dx + 1,
                    (dy + 1) * 3 + (dz + 1),
                );
                vstd::arithmetic::div_mod::lemma_fundamental_div_mod_converse(
                    (dy + 1) * 3 + (dz + 1),
                    3,
                    dy + 1,
                    dz + 1,
                );
                assert(offs@[k].0 == dx && offs@[k].1 == dy && offs@[k].2 == dz);
                assert((ci.0 + offs@[k].0, ci.1 + offs@[k].1, ci.2 + offs@[k].2) == b);
            }
        }
        r
    }
}

/// Integer square root by bisection.
fn isqrt(n: u64) -> (r: u64)
    requires
        n <= 20_000_000_000_000,
    ensures
        r * r <= n < (r + 1) * (r + 1),
{
    let mut lo: u64 = 0;
    let mut hi: u64 = 5_000_000;
    proof {
        assert((5_000_000u64 + 1) * (5_000_000u64 + 1) > 20_000_000_000_000) by (nonlinear_arith);
    }
    while lo < hi
        invariant
            lo <= hi <= 5_000_000,
            lo * lo <= n,
            n < (hi + 1) * (hi + 1),
        decreases hi - lo,
    {
        let mid: u64 = lo + (hi - lo + 1) / 2;
        proof {
            assert(mid * mid <= 25_000_000_000_000) by (nonlinear_arith)
                requires
                    mid <= 5_000_000,
            ;
        }
        if mid * mid <= n {
            lo = mid;
        } else {
            hi = mid - 1;
        }
    }
    lo
}

impl GameMap {
    /// The pathfinder's heuristic: the integer part of the Euclidean
    /// distance between two cells, with each axis clamped to the
    /// accepted grid range.
    pub fn heuristic(&self, cell: (usize, usize, usize), end: (usize, usize, usize)) -> (r: i32)
        ensures
            r >= 0,
            ({
                let dx = spec_clamp_diff(cell.0 as int, end.0 as int);
                let dy = spec_clamp_diff(cell.1 as int, end.1 as int);
                let dz = spec_clamp_diff(cell.2 as int, end.2 as int);
                let s = dx * dx + dy * dy + dz * dz;
                r * r <= s < (r + 1) * (r + 1)
            }),
    {
        let dx: u64 = clamp_abs_diff(cell.0, end.0);
        let dy: u64 = clamp_abs_diff(cell.1, end.1);
        let dz: u64 = clamp_abs_diff(cell.2, end.2);
        proof {
            assert(dx * dx <= 4_000_000_000_000 && dy * dy <= 4_000_000_000_000 && dz * dz
                <= 4_000_000_000_000) by (nonlinear_arith)
                requires
                    dx <= 2_000_000,
                    dy <= 2_000_000,
                    dz <= 2_000_000,
            ;
        }
        let s: u64 = dx * dx + dy * dy + dz * dz;
        let root: u64 = isqrt(s);
        proof {
            assert(root <= 4_000_000) by (nonlinear_arith)
                requires
                    root * root <= 12_000_000_000_000,
            ;
        }
        root as i32
    }

    /// Goal test for the pathfinder.
    pub fn is_goal(&self, cell: (usize, usize, usize), end: (usize, usize, usize)) -> (r: bool)
        ensures
            r == (cell == end),
    {
        cell.0 == end.0 && cell.1 == end.1 && cell.2 == end.2
    }
}

/// The absolute difference of two cell indices, clamped to the
/// accepted grid range.
pub open spec fn spec_clamp_diff(a: int, b: int) -> int {
    let d = if a >= b {
        a - b
    } else {
        b - a
    };
    if d > 2_000_000 {
        2_000_000
    } else {
        d
    }
}

fn clamp_abs_diff(a: usize, b: usize) -> (r: u64)
    ensures
        r <= 2_000_000,
        r == spec_clamp_diff(a as int, b as int),
{
    let d: usize = if a >= b {
        a - b
    } else {
        b - a
    };
    if d > 2_000_000 {
        2_000_000
    } else {
        d as u64
    }
}

/// A successor-relation path between two cells.
pub open spec fn spec_succ_path(
    m: GameMap,
    p: Seq<(int, int, int)>,
    s: (int, int, int),
    e: (int, int, int),
) -> bool {
    &&& p.len() >= 1
    &&& p[0] == s
    &&& p[p.len() - 1] == e
    &&& forall|k: int| 0 <= k < p.len() - 1 ==> m.spec_is_successor(#[trigger] p[k], p[k + 1])
}

/// Relies on `pathfinding::prelude::astar`: the returned path starts at
/// the start node, every consecutive pair steps through the successor
/// function, the last node satisfies the goal test, and `None` comes
/// back only when no such path exists. The search also minimises the
/// summed step cost, but nothing here relies on that, so this contract
/// does not state it.
#[verifier::external_body]
fn astar_search(
    map: &GameMap,
    start: (usize, usize, usize),
    end: (usize, usize, usize),
) -> (r: Option<Vec<(usize, usize, usize)>>)
    requires
        map.wf(),
        in_dims3(map.spec_dims(), c2i(start)),
    ensures
        match r {
            Option::Some(p) => {
                &&& p@.len() >= 1
                &&& p@[0] == start
                &&& p@[p@.len() - 1] == end
                &&& forall|k: int|
                    0 <= k < p@.len() - 1 ==> map.spec_is_successor(
                        c2i(#[trigger] p@[k]),
                        c2i(p@[k + 1]),
                    )
            },
            Option::None => !exists|p: Seq<(int, int, int)>|
                spec_succ_path(*map, p, c2i(start), c2i(end)),
        },
{
    pathfinding::prelude::astar(
        &start,
        |c: &(usize, usize, usize)| map.successors(*c),
        |c: &(usize, usize, usize)| map.heuristic(*c, end),
        |c: &(usize, usize, usize)| map.is_goal(*c, end),
    ).map(|(p, _)| p)
}

} // verus!

verus! {

/// Whether the column `(x, z)` holds a walkable cell with `ylo <= y <= yhi`.
pub open spec fn spec_column_filled(m: GameMap, x: int, ylo: int, yhi: int, z: int) -> bool {
    exists|y: int| ylo <= y <= yhi && #[trigger] cell_at(m.walkable_grid, x, y, z) > 0
}

/// Whether `(x, z)` lies in the swept corridor rectangle between two
/// cells: their x/z rectangle widened by one cell, clamped to the grid.
pub open spec fn spec_in_corridor(
    m: GameMap,
    f: (int, int, int),
    c: (int, int, int),
    x: int,
    z: int,
) -> bool {
    let d = m.spec_dims();
    let xlo = if f.0 <= c.0 { f.0 } else { c.0 };
    let xhi = if f.0 >= c.0 { f.0 } else { c.0 };
    let zlo = if f.2 <= c.2 { f.2 } else { c.2 };
    let zhi = if f.2 >= c.2 { f.2 } else { c.2 };
    let xs = if xlo >= 1 { xlo - 1 } else { 0 };
    let xe = if xhi + 2 <= d.0 { xhi + 2 } else { d.0 as int };
    let zs = if zlo >= 1 { zlo - 1 } else { 0 };
    let ze = if zhi + 2 <= d.2 { zhi + 2 } else { d.2 as int };
    xs <= x < xe && zs <= z < ze
}

/// Whether the corridor column `(x, z)` between two cells holds a
/// walkable cell within the cells' y-range.
pub open spec fn spec_corridor_col(
    m: GameMap,
    f: (int, int, int),
    c: (int, int, int),
    x: int,
    z: int,
) -> bool {
    let ylo = if f.1 <= c.1 { f.1 } else { c.1 };
    let yhi = if f.1 >= c.1 { f.1 } else { c.1 };
    spec_column_filled(m, x, ylo, yhi, z)
}

/// The corridor between two cells: every column of the swept rectangle
/// holds a walkable cell within the two cells' y-range.
pub open spec fn spec_corridor_ok(m: GameMap, f: (int, int, int), c: (int, int, int)) -> bool {
    forall|x: int, z: int|
        spec_in_corridor(m, f, c, x, z) ==> #[trigger] spec_corridor_col(m, f, c, x, z)
}

/// The simplifier's sweep from loop state `(from, last)` at index `i`:
/// a cell that moves on x or z and breaks the corridor from `from`
/// commits `last` and starts a new segment; any other cell extends the
/// current one; the final `last` is always appended.
pub open spec fn spec_simplify_from(
    m: GameMap,
    path: Seq<(usize, usize, usize)>,
    i: int,
    from: (usize, usize, usize),
    last: (usize, usize, usize),
    acc: Seq<(usize, usize, usize)>,
) -> Seq<(usize, usize, usize)>
    decreases path.len() - i,
{
    if i < 0 || i >= path.len() {
        acc.push(last)
    } else {
        let cell = path[i];
        if (cell.0 != last.0 || cell.2 != last.2) && !spec_corridor_ok(m, c2i(from), c2i(cell)) {
            spec_simplify_from(m, path, i + 1, last, cell, acc.push(last))
        } else {
            spec_simplify_from(m, path, i + 1, from, cell, acc)
        }
    }
}

/// The simplified form of a path: paths of up to two cells stay as
/// they are; longer ones go through the corridor sweep.
pub open spec fn spec_simplified(m: GameMap, path: Seq<(usize, usize, usize)>) -> Seq<
    (usize, usize, usize),
> {
    if path.len() <= 2 {
        path
    } else {
        spec_simplify_from(m, path, 2, path[0], path[1], seq![path[0]])
    }
}

impl GameMap {
    /// Executable check of `spec_corridor_ok`.
    fn corridor_ok(&self, from: (usize, usize, usize), cell: (usize, usize, usize)) -> (r: bool)
        requires
            self.wf(),
            in_dims3(self.spec_dims(), c2i(from)),
            in_dims3(self.spec_dims(), c2i(cell)),
        ensures
            r == spec_corridor_ok(*self, c2i(from), c2i(cell)),
    {
        let (d0, d1, d2): (usize, usize, usize) = self.walkable_grid.dims();
        let xlo: usize = if cell.0 < from.0 {
            cell.0
        } else {
            from.0
        };
        let xhi: usize = if cell.0 > from.0 {
            cell.0
        } else {
            from.0
        };
        let zlo: usize = if cell.2 < from.2 {
            cell.2
        } else {
            from.2
        };
        let zhi: usize = if cell.2 > from.2 {
            cell.2
        } else {
            from.2
        };
        let ylo: usize = if cell.1 < from.1 {
            cell.1
        } else {
            from.1
        };
        let yhi: usize = if cell.1 > from.1 {
            cell.1
        } else {
            from.1
        };
        let xstart: usize = if xlo >= 1 {
            xlo - 1
        } else {
            0
        };
        let xend: usize = if xhi + 2 <= d0 {
            xhi + 2
        } else {
            d0
        };
        let zstart: usize = if zlo >= 1 {
            zlo - 1
        } else {
            0
        };
        let zend: usize = if zhi + 2 <= d2 {
            zhi + 2
        } else {
            d2
        };
        let mut all_filled: bool = true;
        let ghost mut wx: int = 0;
        let ghost mut wz: int = 0;
        let mut x: usize = xstart;
        while x < xend
            invariant
                self.wf(),
                (d0, d1, d2) == self.spec_dims(),
                xstart <= x <= xend,
                xend <= d0,
                zstart <= zend,
                zend <= d2,
                ylo <= yhi,
                yhi < d1,
                all_filled ==> forall|xx: int, zz: int|
                    xstart <= xx < x && zstart <= zz < zend ==> #[trigger] spec_column_filled(
                        *self,
                        xx,
                        ylo as int,
                        yhi as int,
                        zz,
                    ),
                !all_filled ==> xstart <= wx < xend && zstart <= wz < zend
                    && !spec_column_filled(*self, wx, ylo as int, yhi as int, wz),
            decreases xend - x,
        {
            let mut z: usize = zstart;
            while z < zend
                invariant
                    self.wf(),
                    (d0, d1, d2) == self.spec_dims(),
                    xstart <= x < xend,
                    xend <= d0,
                    zstart <= z <= zend,
                    zend <= d2,
                    ylo <= yhi,
                    yhi < d1,
                    all_filled ==> forall|xx: int, zz: int|
                        xstart <= xx < x && zstart <= zz < zend ==> #[trigger] spec_column_filled(
                            *self,
                            xx,
                            ylo as int,
                            yhi as int,
                            zz,
                        ),
                    all_filled ==> forall|zz: int|
                        zstart <= zz < z ==> #[trigger] spec_column_filled(
                            *self,
                            x as int,
                            ylo as int,
                            yhi as int,
                            zz,
                        ),
                    !all_filled ==> xstart <= wx < xend && zstart <= wz < zend
                        && !spec_column_filled(*self, wx, ylo as int, yhi as int, wz),
                decreases zend - z,
            {
                let mut found_filled: bool = false;
                let mut y: usize = ylo;
                while y <= yhi && !found_filled
                    invariant
                        self.wf(),
                        (d0, d1, d2) == self.spec_dims(),
                        x < xend,
                        xend <= d0,
                        z < zend,
                        zend <= d2,
                        yhi < d1,
                        ylo <= y <= yhi + 1,
                        found_filled ==> spec_column_filled(
                            *self,
                            x as int,
                            ylo as int,
                            yhi as int,
                            z as int,
                        ),
                        !found_filled ==> forall|yy: int|
                            ylo <= yy < y ==> #[trigger] cell_at(
                                self.walkable_grid,
                                x as int,
                                yy,
                                z as int,
                            ) == 0,
                    decreases yhi + 1 - y,
                {
                    if self.walkable_grid.get(x, y, z) > 0 {
                        found_filled = true;
                    }
                    y += 1;
                }
                if !found_filled {
                    all_filled = false;
                    proof {
                        wx = x as int;
                        wz = z as int;
                        assert(!spec_column_filled(*self, wx, ylo as int, yhi as int, wz));
                    }
                }
                z += 1;
            }
            x += 1;
        }
        proof {
            let f = c2i(from);
            let c = c2i(cell);
            let ylo_s = if f.1 <= c.1 {
                f.1
            } else {
                c.1
            };
            let yhi_s = if f.1 >= c.1 {
                f.1
            } else {
                c.1
            };
            assert(ylo_s == ylo as int && yhi_s == yhi as int);
            let d = self.spec_dims();
            let xlo_s = if f.0 <= c.0 {
                f.0
            } else {
                c.0
            };
            let xhi_s = if f.0 >= c.0 {
                f.0
            } else {
                c.0
            };
            let zlo_s = if f.2 <= c.2 {
                f.2
            } else {
                c.2
            };
            let zhi_s = if f.2 >= c.2 {
                f.2
            } else {
                c.2
            };
            let xs_s = if xlo_s >= 1 {
                xlo_s - 1
            } else {
                0
            };
            let xe_s = if xhi_s + 2 <= d.0 {
                xhi_s + 2
            } else {
                d.0 as int
            };
            let zs_s = if zlo_s >= 1 {
                zlo_s - 1
            } else {
                0
            };
            let ze_s = if zhi_s + 2 <= d.2 {
                zhi_s + 2
            } else {
                d.2 as int
            };
            assert(xs_s == xstart as int && xe_s == xend as int && zs_s == zstart as int && ze_s
                == zend as int);
            if all_filled {
                assert forall|x: int, z: int| spec_in_corridor(*self, f, c, x, z)
                    implies #[trigger] spec_corridor_col(*self, f, c, x, z) by {
                    assert(spec_column_filled(*self, x, ylo_s, yhi_s, z));
                }
                assert(spec_corridor_ok(*self, f, c));
            } else {
                if spec_corridor_ok(*self, f, c) {
                    assert(spec_in_corridor(*self, f, c, wx, wz));
                    assert(spec_corridor_col(*self, f, c, wx, wz));
                    assert(spec_column_filled(*self, wx, ylo_s, yhi_s, wz));
                    assert(false);
                }
            }
        }
        all_filled
    }

    /// Simplifies a path: walks the raw cells, extending the current
    /// straight segment while the axis-aligned corridor between its
    /// ends keeps at least one walkable cell in every x/z column, and
    /// committing the previous cell when it no longer does. The result
    /// is exactly the corridor sweep of the input; it keeps the
    /// endpoints, is never longer than the input, and holds only cells
    /// of the input.
    pub fn simplify_path(&self, path: &Vec<(usize, usize, usize)>) -> (r: Vec<
        (usize, usize, usize),
    >)
        requires
            self.wf(),
            path@.len() >= 1,
            forall|k: int|
                0 <= k < path@.len() ==> in_dims3(self.spec_dims(), c2i(#[trigger] path@[k])),
        ensures
            r@ == spec_simplified(*self, path@),
            r@.len() >= 1,
            r@.len() <= path@.len(),
            r@[0] == path@[0],
            r@[r@.len() - 1] == path@[path@.len() - 1],
            forall|j: int|
                0 <= j < r@.len() ==> exists|ii: int|
                    0 <= ii < path@.len() && #[trigger] r@[j] == path@[ii],
    {
        let n: usize = path.len();
        if n <= 2 {
            let mut copy: Vec<(usize, usize, usize)> = Vec::new();
            let mut k: usize = 0;
            while k < n
                invariant
                    k <= n,
                    n == path@.len(),
                    copy@ == path@.subrange(0, k as int),
                decreases n - k,
            {
                copy.push(path[k]);
                assert(copy@ =~= path@.subrange(0, k + 1 as int));
                k += 1;
            }
            assert(copy@ =~= path@);
            return copy;
        }
        let mut simplified: Vec<(usize, usize, usize)> = Vec::new();
        simplified.push(path[0]);
        let mut from_cell: (usize, usize, usize) = path[0];
        let mut last_cell: (usize, usize, usize) = path[1];
        let mut i: usize = 2;
        proof {
            assert(simplified@ =~= seq![path@[0]]);
        }
        while i < n
            invariant
                2 <= i <= n,
                n == path@.len(),
                n >= 3,
                self.wf(),
                forall|k: int|
                    0 <= k < path@.len() ==> in_dims3(self.spec_dims(), c2i(#[trigger] path@[k])),
                simplified@.len() >= 1,
                simplified@.len() <= i - 1,
                simplified@[0] == path@[0],
                last_cell == path@[i - 1],
                exists|ii: int| 0 <= ii < path@.len() && from_cell == #[trigger] path@[ii],
                forall|j: int|
                    0 <= j < simplified@.len() ==> exists|ii: int|
                        0 <= ii < path@.len() && #[trigger] simplified@[j] == path@[ii],
                spec_simplified(*self, path@) == spec_simplify_from(
                    *self,
                    path@,
                    i as int,
                    from_cell,
                    last_cell,
                    simplified@,
                ),
            decreases n - i,
        {
            let cell: (usize, usize, usize) = path[i];
            let mut commit: bool = false;
            if cell.0 != last_cell.0 || cell.2 != last_cell.2 {
                commit = !self.corridor_ok(from_cell, cell);
            }
            if commit {
                simplified.push(last_cell);
                from_cell = last_cell;
                proof {
                    assert(simplified@[simplified@.len() - 1] == path@[i as int - 1]);
                }
            }
            last_cell = cell;
            i += 1;
        }
        simplified.push(last_cell);
        proof {
            assert(simplified@[simplified@.len() - 1] == path@[n - 1]);
        }
        simplified
    }

    /// Point-to-point pathfinding: A* over the walkable grid from
    /// `start_cell` to `end_cell`, followed by the path simplifier.
    /// The result is the corridor-wise simplification of a
    /// successor-relation path between the query cells; `None` comes
    /// back exactly when no successor-relation path exists, and equal
    /// query cells give exactly the one-cell path.
    pub fn find_path(
        &self,
        start_cell: &(usize, usize, usize),
        end_cell: &(usize, usize, usize),
    ) -> (r: Option<Vec<(usize, usize, usize)>>)
        requires
            self.wf(),
            in_dims3(self.spec_dims(), c2i(*start_cell)),
        ensures
            match r {
                Option::Some(sp) => {
                    &&& sp@.len() >= 1
                    &&& sp@[0] == *start_cell
                    &&& sp@[sp@.len() - 1] == *end_cell
                    &&& exists|p: Seq<(usize, usize, usize)>|
                        {
                            &&& p.len() >= 1
                            &&& p[0] == *start_cell
                            &&& p[p.len() - 1] == *end_cell
                            &&& (forall|k: int|
                                0 <= k < p.len() - 1 ==> self.spec_is_successor(
                                    c2i(#[trigger] p[k]),
                                    c2i(p[k + 1]),
                                ))
                            &&& sp@ == spec_simplified(*self, p)
                            &&& sp@.len() <= p.len()
                            &&& (forall|j: int|
                                0 <= j < sp@.len() ==> exists|ii: int|
                                    0 <= ii < p.len() && #[trigger] sp@[j] == p[ii])
                        }
                },
                Option::None => !exists|p: Seq<(int, int, int)>|
                    spec_succ_path(*self, p, c2i(*start_cell), c2i(*end_cell)),
            },
            *start_cell == *end_cell ==> r is Some && r->0@ == seq![*start_cell],
    {
        if start_cell.0 == end_cell.0 && start_cell.1 == end_cell.1 && start_cell.2 == end_cell.2 {
            let mut single: Vec<(usize, usize, usize)> = Vec::new();
            single.push(*start_cell);
            proof {
                let p = seq![*start_cell];
                assert(single@ =~= p);
                assert(spec_simplified(*self, p) == p);
                assert forall|j: int| 0 <= j < single@.len() implies exists|ii: int|
                    0 <= ii < p.len() && #[trigger] single@[j] == p[ii] by {
                    assert(single@[j] == p[0]);
                }
            }
            return Some(single);
        }
        match astar_search(self, *start_cell, *end_cell) {
            Option::Some(p) => {
                proof {
                    assert forall|k: int| 0 <= k < p@.len() implies in_dims3(
                        self.spec_dims(),
                        c2i(#[trigger] p@[k]),
                    ) by {
                        if k > 0 {
                            assert(self.spec_is_successor(c2i(p@[k - 1]), c2i(p@[k])));
                        }
                    }
                }
                let sp = self.simplify_path(&p);
                proof {
                    assert(p@.len() >= 1 && p@[0] == *start_cell && p@[p@.len() - 1] == *end_cell);
                }
                Some(sp)
            },
            Option::None => None,
        }
    }
}

} // verus!

verus! {

/// The nine scan candidates around a cell: the cell itself, its four
/// axis-aligned horizontal neighbours, then its four diagonal ones.
pub open spec fn cwc_candidates(c: (int, int, int)) -> Seq<(int, int, int)> {
    seq![
        c,
        (c.0 - 1, c.1, c.2),
        (c.0 + 1, c.1, c.2),
        (c.0, c.1, c.2 - 1),
        (c.0, c.1, c.2 + 1),
        (c.0 - 1, c.1, c.2 - 1),
        (c.0 - 1, c.1, c.2 + 1),
        (c.0 + 1, c.1, c.2 - 1),
        (c.0 + 1, c.1, c.2 + 1),
    ]
}

impl GameMap {
    /// The vertical scan over one candidate column: for growing
    /// offsets, first the cell `off` above, then the cell `off` below,
    /// returning the first walkable cell found.
    pub open spec fn cwc_scan_offsets(self, cand: (int, int, int), off: int) -> Option<
        (int, int, int),
    >
        decreases 2 * PLAYER_HEIGHT - off,
    {
        if off < 0 || off >= 2 * PLAYER_HEIGHT {
            Option::None
        } else if cand.1 + off < self.spec_dims().1 && self.spec_walkable_at(
            (cand.0, cand.1 + off, cand.2),
        ) != 0 {
            Option::Some((cand.0, cand.1 + off, cand.2))
        } else if cand.1 >= off && cand.1 - off < self.spec_dims().1 && self.spec_walkable_at(
            (cand.0, cand.1 - off, cand.2),
        ) != 0 {
            Option::Some((cand.0, cand.1 - off, cand.2))
        } else {
            self.cwc_scan_offsets(cand, off + 1)
        }
    }

    /// The scan over the candidate list: candidates outside the grid
    /// on x or z are skipped, and the first column with a hit decides.
    pub open spec fn cwc_scan(self, cands: Seq<(int, int, int)>, i: int) -> Option<(int, int, int)>
        decreases cands.len() - i,
    {
        if i < 0 || i >= cands.len() {
            Option::None
        } else if !(0 <= cands[i].0 < self.spec_dims().0 && 0 <= cands[i].2
            < self.spec_dims().2) {
            self.cwc_scan(cands, i + 1)
        } else {
            match self.cwc_scan_offsets(cands[i], 0) {
                Option::Some(c) => Option::Some(c),
                Option::None => self.cwc_scan(cands, i + 1),
            }
        }
    }

    /// The walkable cell closest to a position: `None` outside the
    /// map's bounds; otherwise the first hit of the vertical scan over
    /// the position's cell and its eight horizontal neighbours.
    pub fn closest_walkable_cell(&self, position: &Vec3) -> (r: Option<(usize, usize, usize)>)
        requires
            self.wf(),
        ensures
            !self.bounds.spec_contains(*position) ==> r is None,
            self.bounds.spec_contains(*position) ==> match r {
                Option::Some(c) => {
                    &&& self.cwc_scan(
                        cwc_candidates(
                            crate::utils::spec_position_to_cell(self.bounds, *position),
                        ),
                        0,
                    ) == Option::Some(c2i(c))
                    &&& in_dims3(self.spec_dims(), c2i(c))
                    &&& self.spec_walkable_at(c2i(c)) != 0
                },
                Option::None => self.cwc_scan(
                    cwc_candidates(crate::utils::spec_position_to_cell(self.bounds, *position)),
                    0,
                ) is None,
            },
    {
        if !self.bounds.contains(position) {
            return None;
        }
        let (d0, d1, d2): (usize, usize, usize) = self.walkable_grid.dims();
        let base: (usize, usize, usize) = crate::utils::position_to_cell(&self.bounds, position);
        let ghost bi = c2i(base);
        let ghost cands = cwc_candidates(bi);
        let mut i: usize = 0;
        while i < 9
            invariant
                i <= 9,
                self.wf(),
                self.bounds.spec_contains(*position),
                (d0, d1, d2) == self.spec_dims(),
                bi == c2i(base),
                bi == crate::utils::spec_position_to_cell(self.bounds, *position),
                base.0 <= 1_000_000 && base.1 <= 1_000_000 && base.2 <= 1_000_000,
                cands == cwc_candidates(bi),
                self.cwc_scan(cands, 0) == self.cwc_scan(cands, i as int),
            decreases 9 - i,
        {
            let cx: i64 = match i {
                0 => base.0 as i64,
                1 => base.0 as i64 - 1,
                2 => base.0 as i64 + 1,
                3 => base.0 as i64,
                4 => base.0 as i64,
                5 => base.0 as i64 - 1,
                6 => base.0 as i64 - 1,
                7 => base.0 as i64 + 1,
                _ => base.0 as i64 + 1,
            };
            let cz: i64 = match i {
                0 => base.2 as i64,
                1 => base.2 as i64,
                2 => base.2 as i64,
                3 => base.2 as i64 - 1,
                4 => base.2 as i64 + 1,
                5 => base.2 as i64 - 1,
                6 => base.2 as i64 + 1,
                7 => base.2 as i64 - 1,
                _ => base.2 as i64 + 1,
            };
            proof {
                assert(cands[i as int] == (cx as int, base.1 as int, cz as int));
            }
            if cx >= 0 && cx < d0 as i64 && cz >= 0 && cz < d2 as i64 {
                let cand: (usize, usize, usize) = (cx as usize, base.1, cz as usize);
                let mut off: usize = 0;
                while off < 2 * PLAYER_HEIGHT
                    invariant
                        off <= 2 * PLAYER_HEIGHT,
                        self.wf(),
                        self.bounds.spec_contains(*position),
                        (d0, d1, d2) == self.spec_dims(),
                        i < 9,
                        bi == crate::utils::spec_position_to_cell(self.bounds, *position),
                        cands == cwc_candidates(bi),
                        c2i(cand) == cands[i as int],
                        self.cwc_scan(cands, 0) == self.cwc_scan(cands, i as int),
                        cand.0 < d0 && cand.2 < d2,
                        cand.1 <= 1_000_000,
                        self.cwc_scan_offsets(c2i(cand), 0) == self.cwc_scan_offsets(
                            c2i(cand),
                            off as int,
                        ),
                    decreases 2 * PLAYER_HEIGHT - off,
                {
                    if cand.1 + off < d1 {
                        if self.walkable_grid.get(cand.0, cand.1 + off, cand.2) != 0 {
                            proof {
                                assert(self.cwc_scan_offsets(c2i(cand), off as int) == Option::Some(
                                    (cand.0 as int, cand.1 + off, cand.2 as int),
                                ));
                            }
                            return Some((cand.0, cand.1 + off, cand.2));
                        }
                    }
                    if cand.1 >= off && cand.1 - off < d1 {
                        if self.walkable_grid.get(cand.0, cand.1 - off, cand.2) != 0 {
                            proof {
                                assert(self.cwc_scan_offsets(c2i(cand), off as int) == Option::Some(
                                    (cand.0 as int, cand.1 - off, cand.2 as int),
                                ));
                            }
                            return Some((cand.0, cand.1 - off, cand.2));
                        }
                    }
                    off += 1;
                }
                proof {
                    assert(self.cwc_scan_offsets(c2i(cand), 0) is None);
                }
            }
            i += 1;
        }
        None
    }
}

} // verus!

verus! {

/// The grid shape a bound yields, per axis.
pub open spec fn spec_grid_dims_of(b: AABB) -> (int, int, int) {
    (
        spec_axis_cells(b.min_x, b.max_x),
        spec_axis_cells(b.min_y, b.max_y),
        spec_axis_cells(b.min_z, b.max_z),
    )
}

/// Cell membership for a shape given as mathematical integers.
pub open spec fn in_dims_of(d: (int, int, int), c: (int, int, int)) -> bool {
    0 <= c.0 < d.0 && 0 <= c.1 < d.1 && 0 <= c.2 < d.2
}

/// The flood fill's seed cell for a spawn, written out from the bound
/// and the filtered box lists alone: the spawn's grid cell, bumped one
/// cell up when its occupancy code is non-zero.
pub open spec fn spec_spawn_cell_pure(
    bounds: AABB,
    objects: Seq<AABB>,
    ramps: Seq<Ramp>,
    ladders: Seq<AABB>,
    s: Vec3,
) -> (int, int, int) {
    let c = crate::utils::spec_position_to_cell(bounds, s);
    if in_dims_of(spec_grid_dims_of(bounds), c) && spec_occ_pure(
        bounds,
        objects,
        ramps,
        ladders,
        c.0,
        c.1,
        c.2,
    ) != 0 {
        (c.0, c.1 + 1, c.2)
    } else {
        c
    }
}

/// Every spawn's seed cell lies inside the grid.
pub open spec fn spec_spawn_cells_ok(
    bounds: AABB,
    objects: Seq<AABB>,
    ramps: Seq<Ramp>,
    ladders: Seq<AABB>,
    spawns: Seq<Vec3>,
) -> bool {
    forall|i: int|
        0 <= i < spawns.len() ==> in_dims_of(
            spec_grid_dims_of(bounds),
            spec_spawn_cell_pure(bounds, objects, ramps, ladders, #[trigger] spawns[i]),
        )
}

/// The first failure preprocessing hits for a raw map, if any: a
/// considered size index outside the size table, then a bad spawn row,
/// then a spawn seed cell outside the grid.
pub open spec fn spec_map_error(raw: RawMap) -> Option<MapParseError> {
    let sizes = spec_size_groups(raw.sizes@);
    let n = raw.objects@.len() as int;
    let st = spec_filter_state(raw.objects@, sizes, n);
    let bounds = st.bounds.spec_limit_by(spec_max_map_bounds());
    if spec_filter_bad_index(raw.objects@, sizes, n) {
        Option::Some(MapParseError::MissingSize)
    } else {
        match spec_parse_spawns(raw.spawns@, raw.spawns@.len() as int) {
            Result::Err(e) => Option::Some(e),
            Result::Ok(spawns) => if !spec_spawn_cells_ok(
                bounds,
                st.objects,
                st.ramps,
                st.ladders,
                spawns,
            ) {
                Option::Some(MapParseError::OutOfBoundsCell)
            } else {
                Option::None
            },
        }
    }
}

} // verus!

verus! {

/// The first matching ramp over the first `n` ramps, by direct box
/// test: 2 plus its direction.
pub open spec fn spec_ramp_direct_upto(ramps: Seq<Ramp>, cb: AABB, n: int) -> Option<u8>
    decreases n,
{
    if n <= 0 {
        Option::None
    } else {
        match spec_ramp_direct_upto(ramps, cb, n - 1) {
            Option::Some(c) => Option::Some(c),
            Option::None => if cb.spec_intersects(ramps[n - 1].bounds) {
                Option::Some((2 + ramps[n - 1].direction) as u8)
            } else {
                Option::None
            },
        }
    }
}

/// The occupancy code of a cell box by direct tests against the full
/// box lists: ladder over solid object over the first matching ramp.
pub open spec fn spec_occ_direct(
    objects: Seq<AABB>,
    ramps: Seq<Ramp>,
    ladders: Seq<AABB>,
    cb: AABB,
) -> u8 {
    if exists|i: int| 0 <= i < ladders.len() && cb.spec_intersects(#[trigger] ladders[i]) {
        6u8
    } else if exists|i: int| 0 <= i < objects.len() && cb.spec_intersects(#[trigger] objects[i]) {
        1u8
    } else {
        match spec_ramp_direct_upto(ramps, cb, ramps.len() as int) {
            Option::Some(c) => c,
            Option::None => 0u8,
        }
    }
}

/// Every box of the list reaches below the bound cap's ceiling.
pub open spec fn boxes_below_cap(boxes: Seq<AABB>) -> bool {
    forall|i: int| 0 <= i < boxes.len() ==> (#[trigger] boxes[i]).min_y < spec_max_map_bounds().max_y
}

/// Every ramp's box reaches below the bound cap's ceiling.
pub open spec fn ramps_below_cap(ramps: Seq<Ramp>) -> bool {
    forall|i: int|
        0 <= i < ramps.len() ==> (#[trigger] ramps[i]).bounds.min_y < spec_max_map_bounds().max_y
}

/// A box that reaches below the cap's ceiling and strictly intersects a
/// cell's box also strictly intersects the covering chunk's box.
proof fn lemma_cell_box_in_chunk(bounds: AABB, x: int, y: int, z: int, b: AABB)
    requires
        bounds_wf(bounds),
        spec_max_map_bounds().min_y <= bounds.min_y,
        bounds.max_y <= spec_max_map_bounds().max_y,
        0 <= x < spec_axis_cells(bounds.min_x, bounds.max_x),
        0 <= y < spec_axis_cells(bounds.min_y, bounds.max_y),
        0 <= z < spec_axis_cells(bounds.min_z, bounds.max_z),
        b.min_y < spec_max_map_bounds().max_y,
        spec_cell_box(bounds, x, y, z).spec_intersects(b),
    ensures
        spec_chunk_bounds(bounds, x / CHUNK_CELLS as int, z / CHUNK_CELLS as int).spec_intersects(
            b,
        ),
{
    let cellb = spec_cell_box(bounds, x, y, z);
    let chb = spec_chunk_bounds(bounds, x / CHUNK_CELLS as int, z / CHUNK_CELLS as int);
    vstd::arithmetic::div_mod::lemma_fundamental_div_mod(x, 130);
    vstd::arithmetic::div_mod::lemma_fundamental_div_mod(z, 130);
    let qx = x / 130;
    let qz = z / 130;
    assert(qx * 325_000 <= x * 2500 && (x + 1) * 2500 <= (qx + 1) * 325_000) by (nonlinear_arith)
        requires
            0 <= x,
            qx == x / 130,
            x == 130 * qx + x % 130,
            0 <= x % 130 < 130,
    ;
    assert(qz * 325_000 <= z * 2500 && (z + 1) * 2500 <= (qz + 1) * 325_000) by (nonlinear_arith)
        requires
            0 <= z,
            qz == z / 130,
            z == 130 * qz + z % 130,
            0 <= z % 130 < 130,
    ;
    assert(chb.min_x <= cellb.min_x && cellb.max_x <= chb.max_x);
    assert(chb.min_z <= cellb.min_z && cellb.max_z <= chb.max_z);
    assert(b.max_y > cellb.min_y && cellb.min_y >= bounds.min_y >= chb.min_y);
}

/// `spec_ramp_code` over an index list with one more index appended.
proof fn lemma_ramp_code_snoc(idxs: Seq<usize>, i: usize, ramps: Seq<Ramp>, cb: AABB)
    ensures
        spec_ramp_code(idxs.push(i), ramps, cb) == (match spec_ramp_code(idxs, ramps, cb) {
            Option::Some(c) => Option::Some(c),
            Option::None => if i < ramps.len() && cb.spec_intersects(ramps[i as int].bounds) {
                Option::Some((2 + ramps[i as int].direction) as u8)
            } else {
                Option::None
            },
        }),
    decreases idxs.len(),
{
    if idxs.len() == 0 {
        assert(idxs.push(i).drop_first() =~= Seq::<usize>::empty());
    } else {
        assert(idxs.push(i).drop_first() =~= idxs.drop_first().push(i));
        lemma_ramp_code_snoc(idxs.drop_first(), i, ramps, cb);
    }
}

/// For transparent prefixes, the chunk's ramp list gives the same
/// first match as the direct scan.
proof fn lemma_ramp_equiv(ramps: Seq<Ramp>, chb: AABB, cb: AABB, n: int)
    requires
        0 <= n <= ramps.len() <= usize::MAX,
        forall|i: int|
            0 <= i < n && cb.spec_intersects((#[trigger] ramps[i]).bounds) ==> chb.spec_intersects(
                ramps[i].bounds,
            ),
    ensures
        spec_ramp_code(spec_ramp_hits(ramps, chb, n), ramps, cb) == spec_ramp_direct_upto(
            ramps,
            cb,
            n,
        ),
    decreases n,
{
    if n > 0 {
        lemma_ramp_equiv(ramps, chb, cb, n - 1);
        if chb.spec_intersects(ramps[n - 1].bounds) {
            lemma_ramp_code_snoc(spec_ramp_hits(ramps, chb, n - 1), (n - 1) as usize, ramps, cb);
        } else {
            assert(!cb.spec_intersects(ramps[n - 1].bounds));
        }
    }
}

/// For transparent prefixes, the chunk's box list hits the cell box
/// exactly when some box of the prefix does.
proof fn lemma_hit_equiv(boxes: Seq<AABB>, chb: AABB, cb: AABB, n: int)
    requires
        0 <= n <= boxes.len() <= usize::MAX,
        forall|i: int|
            0 <= i < n && cb.spec_intersects(#[trigger] boxes[i]) ==> chb.spec_intersects(
                boxes[i],
            ),
    ensures
        spec_box_hit_any(spec_box_hits(boxes, chb, n), boxes, cb) == exists|i: int|
            0 <= i < n && cb.spec_intersects(#[trigger] boxes[i]),
    decreases n,
{
    if n > 0 {
        lemma_hit_equiv(boxes, chb, cb, n - 1);
        let prev = spec_box_hits(boxes, chb, n - 1);
        let cur = spec_box_hits(boxes, chb, n);
        if spec_box_hit_any(prev, boxes, cb) {
            let k = choose|k: int|
                0 <= k < prev.len() && #[trigger] prev[k] < boxes.len() && cb.spec_intersects(
                    boxes[prev[k] as int],
                );
            assert(cur[k] == prev[k]);
            assert(spec_box_hit_any(cur, boxes, cb));
        } else if cb.spec_intersects(boxes[n - 1]) {
            assert(chb.spec_intersects(boxes[n - 1]));
            assert(cur[cur.len() - 1] == (n - 1) as usize);
            assert(spec_box_hit_any(cur, boxes, cb));
        } else {
            if spec_box_hit_any(cur, boxes, cb) {
                let k = choose|k: int|
                    0 <= k < cur.len() && #[trigger] cur[k] < boxes.len() && cb.spec_intersects(
                        boxes[cur[k] as int],
                    );
                if chb.spec_intersects(boxes[n - 1]) {
                    if k < prev.len() {
                        assert(prev[k] == cur[k]);
                    }
                } else {
                    assert(prev[k] == cur[k]);
                }
                assert(false);
            }
        }
    }
}

/// The chunk index is transparent: when every box reaches below the
/// bound cap's ceiling, the occupancy code of a cell equals the direct
/// per-box intersection tests, ladder over object over first ramp.
pub proof fn lemma_occ_chunk_transparent(
    bounds: AABB,
    objects: Seq<AABB>,
    ramps: Seq<Ramp>,
    ladders: Seq<AABB>,
    x: int,
    y: int,
    z: int,
)
    requires
        bounds_wf(bounds),
        spec_max_map_bounds().min_y <= bounds.min_y,
        bounds.max_y <= spec_max_map_bounds().max_y,
        0 <= x < spec_axis_cells(bounds.min_x, bounds.max_x),
        0 <= y < spec_axis_cells(bounds.min_y, bounds.max_y),
        0 <= z < spec_axis_cells(bounds.min_z, bounds.max_z),
        objects.len() <= usize::MAX,
        ramps.len() <= usize::MAX,
        ladders.len() <= usize::MAX,
        boxes_below_cap(objects),
        ramps_below_cap(ramps),
        boxes_below_cap(ladders),
    ensures
        spec_occ_pure(bounds, objects, ramps, ladders, x, y, z) == spec_occ_direct(
            objects,
            ramps,
            ladders,
            spec_cell_box(bounds, x, y, z),
        ),
{
    let cb = spec_cell_box(bounds, x, y, z);
    let chb = spec_chunk_bounds(bounds, x / CHUNK_CELLS as int, z / CHUNK_CELLS as int);
    assert forall|i: int| 0 <= i < ladders.len() && cb.spec_intersects(#[trigger] ladders[i])
        implies chb.spec_intersects(ladders[i]) by {
        lemma_cell_box_in_chunk(bounds, x, y, z, ladders[i]);
    }
    assert forall|i: int| 0 <= i < objects.len() && cb.spec_intersects(#[trigger] objects[i])
        implies chb.spec_intersects(objects[i]) by {
        lemma_cell_box_in_chunk(bounds, x, y, z, objects[i]);
    }
    assert forall|i: int| 0 <= i < ramps.len() && cb.spec_intersects(
        (#[trigger] ramps[i]).bounds,
    ) implies chb.spec_intersects(ramps[i].bounds) by {
        lemma_cell_box_in_chunk(bounds, x, y, z, ramps[i].bounds);
    }
    lemma_hit_equiv(ladders, chb, cb, ladders.len() as int);
    lemma_hit_equiv(objects, chb, cb, objects.len() as int);
    lemma_ramp_equiv(ramps, chb, cb, ramps.len() as int);
}

} // verus!
