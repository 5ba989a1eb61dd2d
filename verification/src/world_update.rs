//! How new observations are taken up near planes that are already known.

use vstd::prelude::*;

use crate::cell::{SurfacePlane, SurfaceStatus, VoxelCell};
use crate::float::Float32;
use crate::numerics::{
    computes, narrow_pose, narrow_pose_spec, world_point, world_point_spec, Arithmetic, Numerics,
    Point3, Pose, Pose64,
};
use crate::ransac::{signed_distance, signed_distance_spec, PlaneEquation};
use crate::surface::reach;
use crate::voxel::{
    lemma_next_key, occupied, occupied_is_the_cube, voxel_key, voxel_key_spec, within, KeyMap,
    VoxelKey,
};
use crate::voxel_map::{
    finite_points_spec, mean_of, sum_by_voxel, sums_by_voxel, with_points, LOCALMap,
    PendingVoxelCell, COUNT_MARGIN,
};

verus! {

/// How new observations are held against planes that are already known.
///
/// A point at most `accept_distance_m` away from the nearest plane belongs to it.
/// One that is farther, but at most `pending_distance_m` away, may be the second
/// layer of a doubled wall and is held back.
#[derive(Clone, Copy, Debug)]
pub struct WorldMapUpdateFilterConfig {
    pub mature_plane_search_radius_voxels: i32,
    pub min_mature_observed_frames: u64,
    pub accept_distance_m: Float32,
    pub pending_distance_m: Float32,
    pub project_accepted_points: bool,
    pub pending_max_age_frames: u64,
}

impl WorldMapUpdateFilterConfig {
    /// Both distances are finite, the first is positive and the second no smaller.
    pub open spec fn is_valid_spec(self) -> bool {
        &&& self.accept_distance_m.is_finite_spec()
        &&& Float32::zero_spec().lt_spec(self.accept_distance_m)
        &&& self.pending_distance_m.is_finite_spec()
        &&& self.accept_distance_m.le_spec(self.pending_distance_m)
    }

    #[verifier::when_used_as_spec(is_valid_spec)]
    pub fn is_valid(self) -> (r: bool)
        ensures
            r == self.is_valid_spec(),
    {
        self.accept_distance_m.is_finite() && Float32::zero().lt(self.accept_distance_m)
            && self.pending_distance_m.is_finite() && self.accept_distance_m.le(
            self.pending_distance_m,
        )
    }
}

/// What becomes of a point.
#[derive(Clone, Copy, Debug, PartialEq, Eq, Structural)]
pub enum WorldPointUpdateDecision {
    /// No known plane is near: it may be new structure.
    InsertProvisional { point: Point3 },
    /// It belongs to a known plane.
    InsertOnMaturePlane { original: Point3, insertion: Point3 },
    HoldPending { point: Point3 },
    RejectNonFinite,
}

pub open spec fn equation_of(plane: SurfacePlane) -> PlaneEquation {
    PlaneEquation { normal: plane.normal, d: plane.d }
}

/// The plane of `cell` and its distance from `point`, where the cell is a planar
/// one, was seen in enough frames and lies no farther than the pending distance.
pub open spec fn mature_plane(
    g: Arithmetic,
    cell: VoxelCell,
    point: Point3,
    config: WorldMapUpdateFilterConfig,
) -> Option<(SurfacePlane, Float32)> {
    if cell.surface_status != SurfaceStatus::Planar || cell.observed_frames
        < config.min_mature_observed_frames {
        None
    } else {
        match cell.surface_plane {
            None => None,
            Some(plane) => {
                let distance = signed_distance_spec(g, equation_of(plane), point).abs_spec();
                if !distance.is_finite_spec() || config.pending_distance_m.lt_spec(distance) {
                    None
                } else {
                    Some((plane, distance))
                }
            },
        }
    }
}

/// The nearer of two planes; of two at the same distance, the one that fitted its
/// points better, and else the first.
pub open spec fn nearer(
    best: Option<(SurfacePlane, Float32)>,
    next: Option<(SurfacePlane, Float32)>,
) -> Option<(SurfacePlane, Float32)> {
    match (best, next) {
        (_, None) => best,
        (None, Some(_)) => next,
        (Some((best_plane, best_distance)), Some((plane, distance))) => {
            if distance.lt_spec(best_distance) || (distance.equals_spec(best_distance)
                && plane.rmse_m.lt_spec(best_plane.rmse_m)) {
                next
            } else {
                best
            }
        },
    }
}

/// The nearest plane of the first `k` voxels of `keys`.
pub open spec fn nearest_upto(
    g: Arithmetic,
    cells: Map<VoxelKey, VoxelCell>,
    keys: Seq<VoxelKey>,
    point: Point3,
    config: WorldMapUpdateFilterConfig,
    k: int,
) -> Option<(SurfacePlane, Float32)>
    decreases k,
{
    if k <= 0 {
        None
    } else {
        nearer(
            nearest_upto(g, cells, keys, point, config, k - 1),
            mature_plane(g, cells[keys[k - 1]], point, config),
        )
    }
}

/// The voxels in which a plane near `point` is looked for.
pub open spec fn searched_voxels(
    g: Arithmetic,
    cells: Map<VoxelKey, VoxelCell>,
    voxel_size: Float32,
    point: Point3,
    config: WorldMapUpdateFilterConfig,
) -> Seq<VoxelKey> {
    occupied(
        cells.dom(),
        voxel_key_spec(g, point, voxel_size),
        reach(config.mature_plane_search_radius_voxels),
    )
}

/// The known plane nearest to `point`, and its distance.
pub open spec fn nearest_mature_plane(
    g: Arithmetic,
    cells: Map<VoxelKey, VoxelCell>,
    voxel_size: Float32,
    point: Point3,
    config: WorldMapUpdateFilterConfig,
) -> Option<(SurfacePlane, Float32)> {
    let keys = searched_voxels(g, cells, voxel_size, point, config);
    nearest_upto(g, cells, keys, point, config, keys.len() as int)
}

proof fn lemma_nearest_upto(
    g: Arithmetic,
    cells: Map<VoxelKey, VoxelCell>,
    keys: Seq<VoxelKey>,
    point: Point3,
    config: WorldMapUpdateFilterConfig,
    k: int,
)
    requires
        0 <= k <= keys.len(),
    ensures
        nearest_upto(g, cells, keys, point, config, k) matches Some((plane, distance))
            ==> distance.is_finite_spec() && exists|i: int|
            0 <= i < k && #[trigger] mature_plane(g, cells[keys[i]], point, config) == Some(
                (plane, distance),
            ),
        forall|i: int|
            0 <= i < k ==> (#[trigger] mature_plane(
                g,
                cells[keys[i]],
                point,
                config,
            ) matches Some((_, other)) ==> nearest_upto(
                g,
                cells,
                keys,
                point,
                config,
                k,
            ) matches Some((_, distance)) && distance.le_spec(other)),
    decreases k,
{
    if k > 0 {
        lemma_nearest_upto(g, cells, keys, point, config, k - 1);
        let before = nearest_upto(g, cells, keys, point, config, k - 1);
        let next = mature_plane(g, cells[keys[k - 1]], point, config);
        if let Some((plane, distance)) = before {
            let i = choose|i: int|
                0 <= i < k - 1 && #[trigger] mature_plane(g, cells[keys[i]], point, config) == Some(
                    (plane, distance),
                );
            assert(mature_plane(g, cells[keys[i]], point, config) == before);
        }
    }
}

/// The plane that a point is held against is that of a voxel in reach, and no voxel
/// in reach has a nearer one; where there is none, no voxel in reach has any.
pub proof fn nearest_mature_plane_is_nearest(
    g: Arithmetic,
    cells: Map<VoxelKey, VoxelCell>,
    voxel_size: Float32,
    point: Point3,
    config: WorldMapUpdateFilterConfig,
)
    ensures
        nearest_mature_plane(g, cells, voxel_size, point, config) matches Some((plane, distance))
            ==> exists|key: VoxelKey|
            cells.contains_key(key) && within(
                voxel_key_spec(g, point, voxel_size),
                reach(config.mature_plane_search_radius_voxels),
                key,
            ) && #[trigger] mature_plane(g, cells[key], point, config) == Some((plane, distance)),
        forall|key: VoxelKey|
            cells.contains_key(key) && within(
                voxel_key_spec(g, point, voxel_size),
                reach(config.mature_plane_search_radius_voxels),
                key,
            ) ==> (#[trigger] mature_plane(g, cells[key], point, config) matches Some((_, other))
                ==> nearest_mature_plane(g, cells, voxel_size, point, config) matches Some(
                (_, distance),
            ) && distance.le_spec(other)),
{
    let keys = searched_voxels(g, cells, voxel_size, point, config);
    let center = voxel_key_spec(g, point, voxel_size);
    let radius = reach(config.mature_plane_search_radius_voxels);
    lemma_nearest_upto(g, cells, keys, point, config, keys.len() as int);
    occupied_is_the_cube(cells.dom(), center, radius);
    if let Some((plane, distance)) = nearest_mature_plane(g, cells, voxel_size, point, config) {
        let i = choose|i: int|
            0 <= i < keys.len() && #[trigger] mature_plane(g, cells[keys[i]], point, config)
                == Some((plane, distance));
        assert(occupied(cells.dom(), center, radius).contains(keys[i]));
        assert(mature_plane(g, cells[keys[i]], point, config) == Some((plane, distance)));
    }
    assert forall|key: VoxelKey|
        cells.contains_key(key) && within(center, radius, key) implies (#[trigger] mature_plane(
        g,
        cells[key],
        point,
        config,
    ) matches Some((_, other)) ==> nearest_mature_plane(g, cells, voxel_size, point, config)
        matches Some((_, distance)) && distance.le_spec(other)) by {
        assert(occupied(cells.dom(), center, radius).contains(key));
        let i = keys.index_of(key);
        assert(mature_plane(g, cells[keys[i]], point, config) == mature_plane(
            g,
            cells[key],
            point,
            config,
        ));
    }
}

/// What becomes of the point `point` in world coordinates.
pub open spec fn decision_at(
    g: Arithmetic,
    cells: Map<VoxelKey, VoxelCell>,
    voxel_size: Float32,
    point: Point3,
    config: WorldMapUpdateFilterConfig,
) -> WorldPointUpdateDecision {
    match nearest_mature_plane(g, cells, voxel_size, point, config) {
        None => WorldPointUpdateDecision::InsertProvisional { point },
        Some((plane, _)) => {
            let distance = signed_distance_spec(g, equation_of(plane), point);
            if distance.abs_spec().le_spec(config.accept_distance_m) {
                WorldPointUpdateDecision::InsertOnMaturePlane {
                    original: point,
                    insertion: if config.project_accepted_points {
                        (g.vector_difference)(point, (g.vector_scaled)(plane.normal, distance))
                    } else {
                        point
                    },
                }
            } else {
                WorldPointUpdateDecision::HoldPending { point }
            }
        },
    }
}

/// What becomes of the point `point` in sensor coordinates.
pub open spec fn decision(
    g: Arithmetic,
    cells: Map<VoxelKey, VoxelCell>,
    voxel_size: Float32,
    pose: Pose,
    point: Point3,
    config: WorldMapUpdateFilterConfig,
) -> WorldPointUpdateDecision {
    if !point.is_finite_spec() {
        WorldPointUpdateDecision::RejectNonFinite
    } else {
        decision_at(g, cells, voxel_size, world_point_spec(g, pose, point), config)
    }
}

impl LOCALMap {
    pub fn find_nearest_mature_plane<N: Numerics>(
        &self,
        n: &N,
        world_point: Point3,
        config: &WorldMapUpdateFilterConfig,
    ) -> (r: Option<SurfacePlane>)
        ensures
            forall|g: Arithmetic| #[trigger]
                computes(*n, g) ==> match nearest_mature_plane(
                    g,
                    self.voxel_map@,
                    self.config.index_voxel_size,
                    world_point,
                    *config,
                ) {
                    None => r is None,
                    Some((plane, _)) => r == Some(plane),
                },
    {
        let center = voxel_key(n, world_point, self.config.index_voxel_size);
        let radius: i32 = if config.mature_plane_search_radius_voxels < 0 {
            0
        } else {
            config.mature_plane_search_radius_voxels
        };
        let keys = self.voxel_map.occupied_cube(center, radius);
        proof {
            occupied_is_the_cube(self.voxel_map@.dom(), center, radius as int);
            assert forall|j: int| 0 <= j < keys.len() implies self.voxel_map@.contains_key(
                #[trigger] keys[j],
            ) by {
                assert(occupied(self.voxel_map@.dom(), center, radius as int).contains(keys[j]));
            }
        }
        let mut best: Option<(SurfacePlane, Float32)> = None;
        let mut k: usize = 0;
        while k < keys.len()
            invariant
                k <= keys.len(),
                forall|j: int|
                    0 <= j < keys.len() ==> self.voxel_map@.contains_key(#[trigger] keys[j]),
                forall|g: Arithmetic| #[trigger]
                    computes(*n, g) ==> best == nearest_upto(
                        g,
                        self.voxel_map@,
                        keys@,
                        world_point,
                        *config,
                        k as int,
                    ),
            decreases keys.len() - k,
        {
            if let Some(cell) = self.voxel_map.get(keys[k]) {
                if let Some((plane, distance)) = plane_in_reach(n, cell, world_point, config) {
                    let replace = match best {
                        None => true,
                        Some((best_plane, best_distance)) => distance.lt(best_distance) || (
                        distance.equals(best_distance) && plane.rmse_m.lt(best_plane.rmse_m)),
                    };
                    if replace {
                        best = Some((plane, distance));
                    }
                }
            }
            k += 1;
        }
        match best {
            None => None,
            Some((plane, _)) => Some(plane),
        }
    }

    pub fn classify_world_point_update<N: Numerics>(
        &self,
        n: &N,
        world_point: Point3,
        config: &WorldMapUpdateFilterConfig,
    ) -> (r: WorldPointUpdateDecision)
        ensures
            forall|g: Arithmetic| #[trigger]
                computes(*n, g) ==> r == decision_at(
                    g,
                    self.voxel_map@,
                    self.config.index_voxel_size,
                    world_point,
                    *config,
                ),
    {
        let plane = match self.find_nearest_mature_plane(n, world_point, config) {
            None => {
                return WorldPointUpdateDecision::InsertProvisional { point: world_point };
            },
            Some(plane) => plane,
        };
        let equation = PlaneEquation { normal: plane.normal, d: plane.d };
        let distance = signed_distance(n, equation, world_point);
        if distance.abs().le(config.accept_distance_m) {
            let insertion = if config.project_accepted_points {
                n.vector_difference(world_point, n.vector_scaled(plane.normal, distance))
            } else {
                world_point
            };
            WorldPointUpdateDecision::InsertOnMaturePlane { original: world_point, insertion }
        } else {
            WorldPointUpdateDecision::HoldPending { point: world_point }
        }
    }
}

fn plane_in_reach<N: Numerics>(
    n: &N,
    cell: &VoxelCell,
    point: Point3,
    config: &WorldMapUpdateFilterConfig,
) -> (r: Option<(SurfacePlane, Float32)>)
    ensures
        forall|g: Arithmetic| #[trigger]
            computes(*n, g) ==> r == mature_plane(g, *cell, point, *config),
{
    if cell.surface_status != SurfaceStatus::Planar || cell.observed_frames
        < config.min_mature_observed_frames {
        return None;
    }
    match cell.surface_plane {
        None => None,
        Some(plane) => {
            let equation = PlaneEquation { normal: plane.normal, d: plane.d };
            let distance = signed_distance(n, equation, point).abs();
            if !distance.is_finite() || config.pending_distance_m.lt(distance) {
                None
            } else {
                Some((plane, distance))
            }
        },
    }
}

// ---------------------------------------------------------------------------
// What is held back
// ---------------------------------------------------------------------------

/// A held voxel after `point` was observed in frame `frame_id`.
pub open spec fn held_again(
    g: Arithmetic,
    cell: PendingVoxelCell,
    point: Point3,
    frame_id: u64,
) -> PendingVoxelCell {
    let count = (cell.sample_count + 1) as u64;
    PendingVoxelCell {
        mean: (g.vector_sum)(
            cell.mean,
            (g.vector_divided)((g.vector_difference)(point, cell.mean), (g.from_count)(count)),
        ),
        sample_count: count,
        last_observed_frame_id: frame_id,
    }
}

/// The held voxels after the held points of a frame, summed by voxel, were added.
pub open spec fn with_held(
    g: Arithmetic,
    pending: Map<VoxelKey, PendingVoxelCell>,
    sums: Map<VoxelKey, (Point3, usize)>,
    frame_id: u64,
) -> Map<VoxelKey, PendingVoxelCell> {
    Map::new(
        |key: VoxelKey| pending.contains_key(key) || sums.contains_key(key),
        |key: VoxelKey|
            {
                if !sums.contains_key(key) {
                    pending[key]
                } else if pending.contains_key(key) {
                    held_again(g, pending[key], mean_of(g, sums[key]), frame_id)
                } else {
                    PendingVoxelCell {
                        mean: mean_of(g, sums[key]),
                        sample_count: 1,
                        last_observed_frame_id: frame_id,
                    }
                }
            },
    )
}

/// The held voxels that were observed in one of the last `max_age` frames.
pub open spec fn not_expired(
    pending: Map<VoxelKey, PendingVoxelCell>,
    frame_id: u64,
    max_age: u64,
) -> Map<VoxelKey, PendingVoxelCell> {
    pending.restrict(
        Set::new(
            |key: VoxelKey| frame_id - pending[key].last_observed_frame_id <= max_age,
        ),
    )
}

impl PendingVoxelCell {
    pub fn new(point: Point3, frame_id: u64) -> (r: PendingVoxelCell)
        ensures
            r == (PendingVoxelCell {
                mean: point,
                sample_count: 1,
                last_observed_frame_id: frame_id,
            }),
    {
        PendingVoxelCell { mean: point, sample_count: 1, last_observed_frame_id: frame_id }
    }

    pub fn update<N: Numerics>(&mut self, n: &N, point: Point3, frame_id: u64)
        requires
            old(self).sample_count < u64::MAX,
        ensures
            final(self).sample_count == old(self).sample_count + 1,
            forall|g: Arithmetic| #[trigger]
                computes(*n, g) ==> *final(self) == held_again(g, *old(self), point, frame_id),
    {
        self.sample_count = self.sample_count + 1;
        self.mean = n.vector_sum(
            self.mean,
            n.vector_divided(
                n.vector_difference(point, self.mean),
                n.from_count(self.sample_count),
            ),
        );
        self.last_observed_frame_id = frame_id;
    }
}

/// Whether every held voxel has at most `bound` samples.
spec fn counts_within(pending: Map<VoxelKey, PendingVoxelCell>, bound: int) -> bool {
    forall|key: VoxelKey| #[trigger]
        pending.contains_key(key) ==> pending[key].sample_count <= bound
}

fn hold<N: Numerics>(
    n: &N,
    pending: &mut KeyMap<PendingVoxelCell>,
    sums: &KeyMap<(Point3, usize)>,
    frame_id: u64,
)
    requires
        frame_id < COUNT_MARGIN,
        counts_within(old(pending)@, frame_id + COUNT_MARGIN),
    ensures
        counts_within(final(pending)@, frame_id + COUNT_MARGIN + 1),
        forall|g: Arithmetic| #[trigger]
            computes(*n, g) ==> final(pending)@ == with_held(g, old(pending)@, sums@, frame_id),
{
    let keys = sums.keys();
    let ghost held = pending@;
    let mut i: usize = 0;
    proof {
        assert(sums@.restrict(keys@.take(0).to_set()) =~= Map::<
            VoxelKey,
            (Point3, usize),
        >::empty());
        assert forall|g: Arithmetic| #[trigger] computes(*n, g) implies held == with_held(
            g,
            held,
            sums@.restrict(keys@.take(0).to_set()),
            frame_id,
        ) by {
            assert(held =~= with_held(
                g,
                held,
                sums@.restrict(keys@.take(0).to_set()),
                frame_id,
            ));
        }
    }
    while i < keys.len()
        invariant
            i <= keys.len(),
            keys@.no_duplicates(),
            keys@.to_set() == sums@.dom(),
            frame_id < COUNT_MARGIN,
            counts_within(pending@, frame_id + COUNT_MARGIN + 1),
            forall|j: int|
                i <= j < keys.len() && pending@.contains_key(#[trigger] keys[j])
                    ==> pending@[keys[j]].sample_count <= frame_id + COUNT_MARGIN,
            forall|g: Arithmetic| #[trigger]
                computes(*n, g) ==> pending@ == with_held(
                    g,
                    held,
                    sums@.restrict(keys@.take(i as int).to_set()),
                    frame_id,
                ),
        decreases keys.len() - i,
    {
        let key = keys[i];
        assert(keys@.to_set().contains(key));
        if let Some((sum, count)) = sums.get(key) {
            let mean = n.vector_divided(*sum, n.from_count(*count as u64));
            let cell = match pending.get(key) {
                Some(cell) => {
                    let mut cell = *cell;
                    cell.update(n, mean, frame_id);
                    cell
                },
                None => PendingVoxelCell::new(mean, frame_id),
            };
            let ghost before = pending@;
            pending.insert(key, cell);
            proof {
                let now = keys@.take(i + 1).to_set();
                lemma_next_key(keys@, i as int);
                assert forall|g: Arithmetic| #[trigger] computes(*n, g) implies pending@
                    == with_held(g, held, sums@.restrict(now), frame_id) by {
                    assert(before.contains_key(key) == held.contains_key(key));
                    assert(pending@ =~= with_held(g, held, sums@.restrict(now), frame_id));
                }
            }
        }
        i += 1;
    }
    proof {
        assert(keys@.take(i as int) =~= keys@);
        assert(sums@.restrict(keys@.to_set()) =~= sums@);
    }
}

fn drop_expired(pending: &mut KeyMap<PendingVoxelCell>, frame_id: u64, max_age: u64)
    ensures
        final(pending)@ == not_expired(old(pending)@, frame_id, max_age),
{
    let keys = pending.keys();
    let ghost all = pending@;
    let mut i: usize = 0;
    while i < keys.len()
        invariant
            i <= keys.len(),
            keys@.no_duplicates(),
            keys@.to_set() == all.dom(),
            pending@ <= all,
            forall|j: int| i <= j < keys.len() ==> pending@.contains_key(#[trigger] keys[j]),
            forall|key: VoxelKey| #[trigger]
                pending@.contains_key(key) <==> all.contains_key(key) && (keys@.take(
                    i as int,
                ).to_set().contains(key) ==> frame_id - all[key].last_observed_frame_id
                    <= max_age),
        decreases keys.len() - i,
    {
        let key = keys[i];
        proof {
            lemma_next_key(keys@, i as int);
        }
        if let Some(cell) = pending.get(key) {
            let last: u64 = cell.last_observed_frame_id;
            if last < frame_id && frame_id - last > max_age {
                pending.remove(key);
            }
        }
        i += 1;
    }
    assert(keys@.take(i as int) =~= keys@);
    assert(pending@ =~= not_expired(all, frame_id, max_age));
}

// ---------------------------------------------------------------------------
// The update
// ---------------------------------------------------------------------------

/// What became of the points of a frame.
#[derive(Clone, Copy, Debug, PartialEq, Eq, Structural)]
pub struct WorldMapUpdateStats {
    pub input_points: usize,
    /// Points with no known plane nearby, inserted as new structure.
    pub inserted_provisional: usize,
    /// Points that belong to a known plane.
    pub projected_to_mature_plane: usize,
    /// Points near a known plane that do not belong to it.
    pub held_pending: usize,
    pub rejected_non_finite: usize,
    /// How many voxels are held after the update.
    pub pending_voxels: usize,
}

impl Default for WorldMapUpdateStats {
    fn default() -> (r: WorldMapUpdateStats)
        ensures
            r == (WorldMapUpdateStats {
                input_points: 0,
                inserted_provisional: 0,
                projected_to_mature_plane: 0,
                held_pending: 0,
                rejected_non_finite: 0,
                pending_voxels: 0,
            }),
    {
        WorldMapUpdateStats {
            input_points: 0,
            inserted_provisional: 0,
            projected_to_mature_plane: 0,
            held_pending: 0,
            rejected_non_finite: 0,
            pending_voxels: 0,
        }
    }
}

/// What becomes of each point.
pub open spec fn decisions_spec(
    g: Arithmetic,
    map: LOCALMap,
    pose: Pose,
    points: Seq<Point3>,
    config: WorldMapUpdateFilterConfig,
) -> Seq<WorldPointUpdateDecision> {
    points.map_values(
        |p: Point3|
            decision(g, map.voxel_map@, map.config.index_voxel_size, pose, p, config),
    )
}

/// The points that the first `k` decisions insert.
pub open spec fn accepted_upto(decisions: Seq<WorldPointUpdateDecision>, k: int) -> Seq<Point3>
    decreases k,
{
    if k <= 0 {
        Seq::empty()
    } else {
        let before = accepted_upto(decisions, k - 1);
        match decisions[k - 1] {
            WorldPointUpdateDecision::InsertProvisional { point } => before.push(point),
            WorldPointUpdateDecision::InsertOnMaturePlane { insertion, .. } => before.push(
                insertion,
            ),
            _ => before,
        }
    }
}

/// The points that the first `k` decisions hold back.
pub open spec fn held_upto(decisions: Seq<WorldPointUpdateDecision>, k: int) -> Seq<Point3>
    decreases k,
{
    if k <= 0 {
        Seq::empty()
    } else {
        let before = held_upto(decisions, k - 1);
        match decisions[k - 1] {
            WorldPointUpdateDecision::HoldPending { point } => before.push(point),
            _ => before,
        }
    }
}

/// The voxels that points were accepted in, before any projection.
pub open spec fn freed_upto(
    g: Arithmetic,
    decisions: Seq<WorldPointUpdateDecision>,
    voxel_size: Float32,
    k: int,
) -> Set<VoxelKey>
    decreases k,
{
    if k <= 0 {
        Set::empty()
    } else {
        let before = freed_upto(g, decisions, voxel_size, k - 1);
        match decisions[k - 1] {
            WorldPointUpdateDecision::InsertProvisional { point } => before.insert(
                voxel_key_spec(g, point, voxel_size),
            ),
            WorldPointUpdateDecision::InsertOnMaturePlane { original, .. } => before.insert(
                voxel_key_spec(g, original, voxel_size),
            ),
            _ => before,
        }
    }
}

/// How many of the first `k` decisions are provisional insertions, insertions on a
/// plane, points held back and points rejected.
pub open spec fn kinds_upto(decisions: Seq<WorldPointUpdateDecision>, k: int) -> (
    int,
    int,
    int,
    int,
)
    decreases k,
{
    if k <= 0 {
        (0, 0, 0, 0)
    } else {
        let (provisional, projected, held, rejected) = kinds_upto(decisions, k - 1);
        match decisions[k - 1] {
            WorldPointUpdateDecision::InsertProvisional { .. } => (
                provisional + 1,
                projected,
                held,
                rejected,
            ),
            WorldPointUpdateDecision::InsertOnMaturePlane { .. } => (
                provisional,
                projected + 1,
                held,
                rejected,
            ),
            WorldPointUpdateDecision::HoldPending { .. } => (
                provisional,
                projected,
                held + 1,
                rejected,
            ),
            WorldPointUpdateDecision::RejectNonFinite => (
                provisional,
                projected,
                held,
                rejected + 1,
            ),
        }
    }
}

/// The held voxels after the decisions of a frame: a voxel that a point was accepted
/// in is held no longer, the points held back are added, and what was not observed
/// for too long is dropped.
pub open spec fn pending_after(
    g: Arithmetic,
    map: LOCALMap,
    decisions: Seq<WorldPointUpdateDecision>,
    config: WorldMapUpdateFilterConfig,
) -> Map<VoxelKey, PendingVoxelCell> {
    let voxel_size = map.config.index_voxel_size;
    let len = decisions.len() as int;
    let kept = map.pending_voxel_map@.remove_keys(freed_upto(g, decisions, voxel_size, len));
    let sums = sums_by_voxel(g, held_upto(decisions, len), voxel_size);
    not_expired(
        with_held(g, kept, sums, map.next_frame_id),
        map.next_frame_id,
        config.pending_max_age_frames,
    )
}

/// Whether `after` and `stats` are what a frame makes of `before`: the accepted points
/// are inserted, the others held back or rejected, and the changed voxels noted.
pub open spec fn is_filtered_update(
    g: Arithmetic,
    before: LOCALMap,
    points: Seq<Point3>,
    global_pose: Pose64,
    config: WorldMapUpdateFilterConfig,
    after: LOCALMap,
    stats: WorldMapUpdateStats,
) -> bool {
    let pose = narrow_pose_spec(g, global_pose);
    let decisions = decisions_spec(g, before, pose, points, config);
    let accepted = accepted_upto(decisions, decisions.len() as int);
    &&& after.voxel_map@ == with_points(g, before, accepted)
    &&& after.pending_voxel_map@ == pending_after(g, before, decisions, config)
    &&& after.frame_index@.len() == before.frame_index@.len() + 1
    &&& after.frame_index@.drop_last() == before.frame_index@
    &&& after.frame_index@.last().frame_id == before.next_frame_id
    &&& after.frame_index@.last().origin == pose.translation
    &&& after.frame_index@.last().dirty_keys@.dom() == sums_by_voxel(
        g,
        finite_points_spec(accepted),
        before.config.index_voxel_size,
    ).dom()
    &&& after.next_frame_id == before.next_frame_id + 1
    &&& after.config == before.config
    &&& after.surface_filter_config == before.surface_filter_config
    &&& after.surface_evaluation_epoch == before.surface_evaluation_epoch
    &&& stats.input_points == points.len()
    &&& (
        stats.inserted_provisional as int,
        stats.projected_to_mature_plane as int,
        stats.held_pending as int,
        stats.rejected_non_finite as int,
    ) == kinds_upto(decisions, decisions.len() as int)
    &&& stats.pending_voxels == after.pending_voxel_map@.len()
}

impl LOCALMap {
    /// Decides what becomes of each point.
    fn decide<N: Numerics>(
        &self,
        n: &N,
        source_points: &[Point3],
        pose: Pose,
        config: &WorldMapUpdateFilterConfig,
    ) -> (r: Vec<WorldPointUpdateDecision>)
        ensures
            r.len() == source_points.len(),
            forall|g: Arithmetic| #[trigger]
                computes(*n, g) ==> r@ == decisions_spec(g, *self, pose, source_points@, *config),
    {
        let mut r: Vec<WorldPointUpdateDecision> = Vec::new();
        let mut k: usize = 0;
        while k < source_points.len()
            invariant
                k <= source_points.len(),
                r.len() == k,
                forall|g: Arithmetic| #[trigger]
                    computes(*n, g) ==> forall|j: int|
                        0 <= j < k ==> #[trigger] r[j] == decision(
                            g,
                            self.voxel_map@,
                            self.config.index_voxel_size,
                            pose,
                            source_points[j],
                            *config,
                        ),
            decreases source_points.len() - k,
        {
            let point = source_points[k];
            if !point.is_finite() {
                r.push(WorldPointUpdateDecision::RejectNonFinite);
            } else {
                let in_world = world_point(n, pose, point);
                r.push(self.classify_world_point_update(n, in_world, config));
            }
            k += 1;
        }
        proof {
            assert forall|g: Arithmetic| #[trigger] computes(*n, g) implies r@ == decisions_spec(
                g,
                *self,
                pose,
                source_points@,
                *config,
            ) by {
                assert(r@ =~= decisions_spec(g, *self, pose, source_points@, *config));
            }
        }
        r
    }

    /// Inserts a frame into a map of the world, held against the planes that are
    /// already known.
    ///
    /// Points near such a plane are put on it. Points that are a little farther away
    /// are held back: they are in no voxel, and are dropped when they were not seen
    /// again for some frames. All other points become new voxels.
    pub fn update_world_map_filtered<N: Numerics>(
        &mut self,
        n: &N,
        source_points: &[Point3],
        global_pose: &Pose64,
        filter_config: &WorldMapUpdateFilterConfig,
    ) -> (r: WorldMapUpdateStats)
        requires
            old(self).wf(),
            old(self).has_room(),
            filter_config.is_valid(),
        ensures
            final(self).wf(),
            final(self).next_frame_id == old(self).next_frame_id + 1,
            final(self).config == old(self).config,
            final(self).surface_filter_config == old(self).surface_filter_config,
            final(self).surface_evaluation_epoch == old(self).surface_evaluation_epoch,
            final(self).frame_index.len() == old(self).frame_index.len() + 1,
            final(self).frame_index@.drop_last() == old(self).frame_index@,
            final(self).frame_index@.last().frame_id == old(self).next_frame_id,
            r.input_points == source_points.len(),
            r.inserted_provisional + r.projected_to_mature_plane + r.held_pending
                + r.rejected_non_finite == r.input_points,
            r.pending_voxels == final(self).pending_voxel_map@.len(),
            forall|g: Arithmetic| #[trigger]
                computes(*n, g) ==> is_filtered_update(
                    g,
                    *old(self),
                    source_points@,
                    *global_pose,
                    *filter_config,
                    *final(self),
                    r,
                ),
    {
        let pose = narrow_pose(n, global_pose);
        let frame_id: u64 = self.next_frame_id;
        let voxel_size = self.config.index_voxel_size;
        let decisions = self.decide(n, source_points, pose, filter_config);
        let mut stats = WorldMapUpdateStats {
            input_points: source_points.len(),
            inserted_provisional: 0,
            projected_to_mature_plane: 0,
            held_pending: 0,
            rejected_non_finite: 0,
            pending_voxels: 0,
        };
        let mut accepted: Vec<Point3> = Vec::new();
        let mut held: Vec<Point3> = Vec::new();
        let ghost pending = self.pending_voxel_map@;
        let mut k: usize = 0;
        proof {
            assert(pending.remove_keys(Set::empty()) =~= pending);
        }
        while k < decisions.len()
            invariant
                k <= decisions.len(),
                decisions.len() == source_points.len(),
                stats.input_points == source_points.len(),
                stats.inserted_provisional + stats.projected_to_mature_plane + stats.held_pending
                    + stats.rejected_non_finite == k,
                self.voxel_map == old(self).voxel_map,
                self.frame_index == old(self).frame_index,
                self.config == old(self).config,
                self.next_frame_id == old(self).next_frame_id,
                self.surface_filter_config == old(self).surface_filter_config,
                self.surface_evaluation_epoch == old(self).surface_evaluation_epoch,
                voxel_size == self.config.index_voxel_size,
                forall|key: VoxelKey| #[trigger]
                    self.pending_voxel_map@.contains_key(key) ==> pending.contains_key(key)
                        && self.pending_voxel_map@[key] == pending[key],
                accepted@ == accepted_upto(decisions@, k as int),
                held@ == held_upto(decisions@, k as int),
                (
                    stats.inserted_provisional as int,
                    stats.projected_to_mature_plane as int,
                    stats.held_pending as int,
                    stats.rejected_non_finite as int,
                ) == kinds_upto(decisions@, k as int),
                forall|g: Arithmetic| #[trigger]
                    computes(*n, g) ==> self.pending_voxel_map@ == pending.remove_keys(
                        freed_upto(g, decisions@, voxel_size, k as int),
                    ),
            decreases decisions.len() - k,
        {
            let ghost kept = self.pending_voxel_map@;
            match decisions[k] {
                WorldPointUpdateDecision::InsertProvisional { point } => {
                    accepted.push(point);
                    let key = voxel_key(n, point, voxel_size);
                    self.pending_voxel_map.remove(key);
                    stats.inserted_provisional = stats.inserted_provisional + 1;
                },
                WorldPointUpdateDecision::InsertOnMaturePlane { original, insertion } => {
                    accepted.push(insertion);
                    let key = voxel_key(n, original, voxel_size);
                    self.pending_voxel_map.remove(key);
                    stats.projected_to_mature_plane = stats.projected_to_mature_plane + 1;
                },
                WorldPointUpdateDecision::HoldPending { point } => {
                    held.push(point);
                    stats.held_pending = stats.held_pending + 1;
                },
                WorldPointUpdateDecision::RejectNonFinite => {
                    stats.rejected_non_finite = stats.rejected_non_finite + 1;
                },
            }
            k += 1;
            proof {
                assert forall|g: Arithmetic| #[trigger]
                    computes(*n, g) implies self.pending_voxel_map@ == pending.remove_keys(
                    freed_upto(g, decisions@, voxel_size, k as int),
                ) by {
                    assert(self.pending_voxel_map@ =~= pending.remove_keys(
                        freed_upto(g, decisions@, voxel_size, k as int),
                    ));
                }
            }
        }
        let held_sums = sum_by_voxel(n, &held, voxel_size);
        let entry = self.insert_world_points(n, &accepted, pose.translation);
        hold(n, &mut self.pending_voxel_map, &held_sums, frame_id);
        self.frame_index.push_back(entry);
        drop_expired(
            &mut self.pending_voxel_map,
            frame_id,
            filter_config.pending_max_age_frames,
        );
        stats.pending_voxels = self.pending_voxel_map.len();
        assert(self.frame_index@.drop_last() =~= old(self).frame_index@);
        stats
    }

    /// How many voxels are held back.
    pub fn pending_voxel_count(&self) -> (r: usize)
        ensures
            r == self.pending_voxel_map@.len(),
    {
        self.pending_voxel_map.len()
    }
}

// ---------------------------------------------------------------------------
// Laws
// ---------------------------------------------------------------------------

/// What becomes of a point goes by its distance from the nearest known plane: within
/// the accept distance it belongs to the plane, beyond that and within the pending
/// distance it is held back, and with no plane that near it is new structure.
pub proof fn decisions_go_by_distance(
    g: Arithmetic,
    cells: Map<VoxelKey, VoxelCell>,
    voxel_size: Float32,
    point: Point3,
    config: WorldMapUpdateFilterConfig,
)
    requires
        config.is_valid(),
    ensures
        ({
            let nearest = nearest_mature_plane(g, cells, voxel_size, point, config);
            match decision_at(g, cells, voxel_size, point, config) {
                WorldPointUpdateDecision::InsertProvisional { point: p } => nearest is None && p
                    == point,
                WorldPointUpdateDecision::InsertOnMaturePlane { original, .. } => original == point
                    && (nearest matches Some((_, distance)) && distance.le_spec(
                    config.accept_distance_m,
                )),
                WorldPointUpdateDecision::HoldPending { point: p } => p == point && (
                nearest matches Some((_, distance)) && config.accept_distance_m.lt_spec(distance)
                    && distance.le_spec(config.pending_distance_m)),
                WorldPointUpdateDecision::RejectNonFinite => false,
            }
        }),
{
    let keys = searched_voxels(g, cells, voxel_size, point, config);
    lemma_nearest_upto(g, cells, keys, point, config, keys.len() as int);
}

proof fn lemma_nothing_accepted(decisions: Seq<WorldPointUpdateDecision>, k: int)
    requires
        0 <= k <= decisions.len(),
        forall|i: int|
            0 <= i < decisions.len() ==> (#[trigger] decisions[i] is HoldPending
                || decisions[i] is RejectNonFinite),
    ensures
        accepted_upto(decisions, k) == Seq::<Point3>::empty(),
    decreases k,
{
    if k > 0 {
        lemma_nothing_accepted(decisions, k - 1);
    }
}

/// Points that are held back or rejected reach no voxel of the map.
pub proof fn held_points_leave_the_map_alone(
    g: Arithmetic,
    map: LOCALMap,
    decisions: Seq<WorldPointUpdateDecision>,
)
    requires
        forall|i: int|
            0 <= i < decisions.len() ==> (#[trigger] decisions[i] is HoldPending
                || decisions[i] is RejectNonFinite),
    ensures
        with_points(g, map, accepted_upto(decisions, decisions.len() as int))
            == map.voxel_map@,
{
    lemma_nothing_accepted(decisions, decisions.len() as int);
    assert(with_points(g, map, Seq::<Point3>::empty()) =~= map.voxel_map@);
}

/// What is held was observed in one of the last frames, the age of which is given.
pub proof fn held_voxels_are_recent(
    g: Arithmetic,
    map: LOCALMap,
    decisions: Seq<WorldPointUpdateDecision>,
    config: WorldMapUpdateFilterConfig,
    key: VoxelKey,
)
    requires
        pending_after(g, map, decisions, config).contains_key(key),
    ensures
        map.next_frame_id - pending_after(g, map, decisions, config)[key].last_observed_frame_id
            <= config.pending_max_age_frames,
{
}

// ---------------------------------------------------------------------------
// What updates are
// ---------------------------------------------------------------------------

/// A cell lends a point its plane exactly where it is planar, was seen in enough frames,
/// and the distance `|normal . p + d|` is finite and at most the pending distance; that
/// is the distance.
pub proof fn mature_cells_lend_their_plane_to_near_points(
    g: Arithmetic,
    cell: VoxelCell,
    point: Point3,
    config: WorldMapUpdateFilterConfig,
)
    requires
        !config.pending_distance_m.is_nan_spec(),
    ensures
        ({
            let distance = |plane: SurfacePlane|
                (g.sum)((g.dot)(plane.normal, point), plane.d).abs_spec();
            &&& mature_plane(g, cell, point, config) is Some <==> cell.surface_status is Planar
                && cell.observed_frames >= config.min_mature_observed_frames && (
            cell.surface_plane matches Some(plane) && distance(plane).is_finite_spec()
                && distance(plane).le_spec(config.pending_distance_m))
            &&& mature_plane(g, cell, point, config) matches Some((plane, away))
                ==> cell.surface_plane == Some(plane) && away == distance(plane)
        }),
{
}

/// Of two planes the nearer one is taken, and of two as near the one with the smaller
/// error.
pub proof fn ties_go_to_the_smaller_error(
    a: (SurfacePlane, Float32),
    b: (SurfacePlane, Float32),
)
    requires
        a.1.is_finite_spec(),
        b.1.is_finite_spec(),
    ensures
        b.1.lt_spec(a.1) ==> nearer(Some(a), Some(b)) == Some(b),
        a.1.lt_spec(b.1) ==> nearer(Some(a), Some(b)) == Some(a),
        a.1.equals_spec(b.1) && b.0.rmse_m.lt_spec(a.0.rmse_m) ==> nearer(Some(a), Some(b))
            == Some(b),
        a.1.equals_spec(b.1) && a.0.rmse_m.le_spec(b.0.rmse_m) ==> nearer(Some(a), Some(b))
            == Some(a),
        nearer(None, Some(b)) == Some(b),
        nearer(Some(a), None) == Some(a),
{
}

/// A point that is put on a plane lies on it: its distance from the plane is zero, where
/// going back along the normal by a way takes the way from the distance, and a number
/// less itself is zero. Without projection it stays where it is.
pub proof fn accepted_points_are_put_on_the_plane(
    g: Arithmetic,
    cells: Map<VoxelKey, VoxelCell>,
    voxel_size: Float32,
    point: Point3,
    config: WorldMapUpdateFilterConfig,
)
    requires
        forall|x: Float32| #[trigger] (g.difference)(x, x) == Float32::zero_spec(),
        forall|plane: SurfacePlane, way: Float32|
            (g.sum)(
                #[trigger] (g.dot)(
                    plane.normal,
                    (g.vector_difference)(point, (g.vector_scaled)(plane.normal, way)),
                ),
                plane.d,
            ) == (g.difference)((g.sum)((g.dot)(plane.normal, point), plane.d), way),
    ensures
        decision_at(g, cells, voxel_size, point, config) matches
            WorldPointUpdateDecision::InsertOnMaturePlane { original, insertion } ==> {
            &&& original == point
            &&& !config.project_accepted_points ==> insertion == point
            &&& config.project_accepted_points ==> (nearest_mature_plane(
                g,
                cells,
                voxel_size,
                point,
                config,
            ) matches Some((plane, _)) && (g.sum)((g.dot)(plane.normal, insertion), plane.d)
                == Float32::zero_spec())
        },
{
    if let Some((plane, _)) = nearest_mature_plane(g, cells, voxel_size, point, config) {
        let way = (g.sum)((g.dot)(plane.normal, point), plane.d);
        let there = (g.vector_difference)(point, (g.vector_scaled)(plane.normal, way));
        assert((g.sum)((g.dot)(plane.normal, there), plane.d) == (g.difference)(way, way));
    }
}

/// A point of the sensor is rejected exactly where a coordinate is not finite; any other
/// one is decided on at its place in the world, turned and shifted by the pose.
pub proof fn points_are_decided_on_in_the_world(
    g: Arithmetic,
    cells: Map<VoxelKey, VoxelCell>,
    voxel_size: Float32,
    pose: Pose,
    p: Point3,
    config: WorldMapUpdateFilterConfig,
)
    ensures
        ({
            let finite = p.x.is_finite_spec() && p.y.is_finite_spec() && p.z.is_finite_spec();
            let there = (g.vector_sum)((g.transformed)(pose.rotation, p), pose.translation);
            let made = decision(g, cells, voxel_size, pose, p, config);
            &&& made is RejectNonFinite <==> !finite
            &&& finite ==> made == decision_at(g, cells, voxel_size, there, config)
        }),
{
}

/// A held voxel counts one more sample, remembers the frame, and moves its mean towards
/// the point by its share, where differences undo sums and dividing undoes scaling.
pub proof fn held_means_move_by_their_share(
    g: Arithmetic,
    cell: PendingVoxelCell,
    point: Point3,
    frame_id: u64,
)
    requires
        cell.sample_count < u64::MAX,
        forall|a: Point3, b: Point3| #[trigger]
            (g.vector_difference)((g.vector_sum)(a, b), a) == b,
        forall|v: Point3, s: Float32| #[trigger]
            (g.vector_scaled)((g.vector_divided)(v, s), s) == v,
    ensures
        ({
            let after = held_again(g, cell, point, frame_id);
            &&& after.sample_count == cell.sample_count + 1
            &&& after.last_observed_frame_id == frame_id
            &&& (g.vector_scaled)(
                (g.vector_difference)(after.mean, cell.mean),
                (g.from_count)(after.sample_count),
            ) == (g.vector_difference)(point, cell.mean)
        }),
{
}

/// Of the decisions, each is of one kind: the counts of the four kinds add up to their
/// number. As many points are inserted as are provisional or on a plane, and as many are
/// held as are counted so.
pub proof fn every_decision_is_of_one_kind(decisions: Seq<WorldPointUpdateDecision>, k: int)
    requires
        0 <= k <= decisions.len(),
    ensures
        ({
            let (provisional, projected, held, rejected) = kinds_upto(decisions, k);
            &&& provisional + projected + held + rejected == k
            &&& accepted_upto(decisions, k).len() == provisional + projected
            &&& held_upto(decisions, k).len() == held
            &&& 0 <= provisional && 0 <= projected && 0 <= held && 0 <= rejected
            &&& k > 0 ==> {
                let before = kinds_upto(decisions, k - 1);
                &&& decisions[k - 1] is InsertProvisional <==> provisional == before.0 + 1
                &&& decisions[k - 1] is InsertOnMaturePlane <==> projected == before.1 + 1
                &&& decisions[k - 1] is HoldPending <==> held == before.2 + 1
                &&& decisions[k - 1] is RejectNonFinite <==> rejected == before.3 + 1
            }
        }),
    decreases k,
{
    if k > 0 {
        every_decision_is_of_one_kind(decisions, k - 1);
    }
}

/// A point is among those that are inserted exactly where a decision inserts it: as it is
/// where no plane is near, and at its insertion where one is. It is among those that are
/// held exactly where a decision holds it.
pub proof fn decisions_insert_or_hold_their_point(
    decisions: Seq<WorldPointUpdateDecision>,
    p: Point3,
    k: int,
)
    requires
        0 <= k <= decisions.len(),
    ensures
        accepted_upto(decisions, k).contains(p) <==> exists|i: int|
            0 <= i < k && match #[trigger] decisions[i] {
                WorldPointUpdateDecision::InsertProvisional { point } => point == p,
                WorldPointUpdateDecision::InsertOnMaturePlane { insertion, .. } => insertion == p,
                _ => false,
            },
        held_upto(decisions, k).contains(p) <==> exists|i: int|
            0 <= i < k && match #[trigger] decisions[i] {
                WorldPointUpdateDecision::HoldPending { point } => point == p,
                _ => false,
            },
    decreases k,
{
    if k > 0 {
        decisions_insert_or_hold_their_point(decisions, p, k - 1);
        let last = decisions[k - 1];
        let (a, b) = (accepted_upto(decisions, k - 1), accepted_upto(decisions, k));
        let (c, d) = (held_upto(decisions, k - 1), held_upto(decisions, k));
        if a.contains(p) {
            let j = a.index_of(p);
            assert(b[j] == p);
        }
        if b.contains(p) {
            let j = b.index_of(p);
            if j < a.len() {
                assert(a[j] == p);
            }
        }
        if b.len() > a.len() {
            assert(b[a.len() as int] == b.last());
        }
        if c.contains(p) {
            let j = c.index_of(p);
            assert(d[j] == p);
        }
        if d.contains(p) {
            let j = d.index_of(p);
            if j < c.len() {
                assert(c[j] == p);
            }
        }
        if d.len() > c.len() {
            assert(d[c.len() as int] == d.last());
        }
        assert(decisions[k - 1] == last);
    }
}

proof fn lemma_freed(
    g: Arithmetic,
    decisions: Seq<WorldPointUpdateDecision>,
    voxel_size: Float32,
    key: VoxelKey,
    k: int,
)
    requires
        0 <= k <= decisions.len(),
    ensures
        freed_upto(g, decisions, voxel_size, k).contains(key) <==> exists|i: int|
            0 <= i < k && match #[trigger] decisions[i] {
                WorldPointUpdateDecision::InsertProvisional { point } => voxel_key_spec(
                    g,
                    point,
                    voxel_size,
                ) == key,
                WorldPointUpdateDecision::InsertOnMaturePlane { original, .. } => voxel_key_spec(
                    g,
                    original,
                    voxel_size,
                ) == key,
                _ => false,
            },
    decreases k,
{
    if k > 0 {
        lemma_freed(g, decisions, voxel_size, key, k - 1);
        assert(decisions[k - 1] == decisions[k - 1]);
    }
}

/// After an update a voxel is held exactly where points are held in it now, or where it
/// was held before, no point was inserted in it, and its last frame is not too old. One
/// that is held now has the frame's id, and one more sample where it stayed held, or
/// else its first; one that is not stays as it was.
pub proof fn voxels_are_held_until_they_are_freed_or_expire(
    g: Arithmetic,
    map: LOCALMap,
    decisions: Seq<WorldPointUpdateDecision>,
    config: WorldMapUpdateFilterConfig,
    key: VoxelKey,
)
    requires
        map.wf(),
        map.has_room(),
    ensures
        ({
            let size = map.config.index_voxel_size;
            let len = decisions.len() as int;
            let old = map.pending_voxel_map@;
            let now = pending_after(g, map, decisions, config);
            let held = sums_by_voxel(g, held_upto(decisions, len), size);
            let freed = exists|i: int|
                0 <= i < len && match #[trigger] decisions[i] {
                    WorldPointUpdateDecision::InsertProvisional { point } => voxel_key_spec(
                        g,
                        point,
                        size,
                    ) == key,
                    WorldPointUpdateDecision::InsertOnMaturePlane {
                        original,
                        ..
                    } => voxel_key_spec(g, original, size) == key,
                    _ => false,
                };
            &&& now.contains_key(key) <==> held.contains_key(key) || (old.contains_key(key)
                && !freed && map.next_frame_id - old[key].last_observed_frame_id
                <= config.pending_max_age_frames)
            &&& held.contains_key(key) ==> now[key].last_observed_frame_id == map.next_frame_id
            &&& held.contains_key(key) && old.contains_key(key) && !freed
                ==> now[key].sample_count == old[key].sample_count + 1
            &&& held.contains_key(key) && (!old.contains_key(key) || freed) ==> now[key].mean
                == mean_of(g, held[key]) && now[key].sample_count == 1
            &&& now.contains_key(key) && !held.contains_key(key) ==> now[key] == old[key]
        }),
{
    lemma_freed(
        g,
        decisions,
        map.config.index_voxel_size,
        key,
        decisions.len() as int,
    );
}

/// Limits are valid where points are accepted up to a positive distance and held up to one
/// that is no smaller, and both are finite; narrower limits for holding are not.
pub proof fn valid_limits_hold_beyond_what_they_accept(config: WorldMapUpdateFilterConfig)
    ensures
        config.is_valid_spec() <==> 0 < config.accept_distance_m.bits
            <= config.pending_distance_m.bits < 0x7f80_0000,
{
}

} // verus!
