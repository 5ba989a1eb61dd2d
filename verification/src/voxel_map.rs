//! The map of observed voxels, and how frames go into it.

use std::collections::VecDeque;

use vstd::prelude::*;

use crate::cell::{first_observation, observed, SurfaceStatus, VoxelCell, VoxelMap};
use crate::float::Float32;
use crate::numerics::{
    computes, narrow_pose, narrow_pose_spec, world_point, world_point_spec, Arithmetic, Numerics,
    Point3, Pose, Pose64,
};
use crate::surface::SurfaceFilterConfig;
use crate::voxel::{lemma_next_key, voxel_key, voxel_key_spec, KeyMap, VoxelKey};

verus! {

/// How a map is kept.
#[derive(Clone, Copy, Debug)]
pub struct LocalMapConfig {
    /// The edge of a voxel.
    pub index_voxel_size: Float32,
    pub max_points_per_voxel: usize,
    pub min_points_per_voxel: usize,
    pub min_observed_frames_per_voxel: usize,
    pub max_frames: usize,
    /// How far from the sensor voxels are kept.
    pub max_distance: Float32,
}

/// The voxels that a frame changed.
pub struct FrameEntry {
    pub frame_id: u64,
    pub origin: Point3,
    pub dirty_keys: KeyMap<()>,
}

/// Observations that are held back from the map.
#[derive(Clone, Copy, Debug)]
pub struct PendingVoxelCell {
    pub mean: Point3,
    pub sample_count: u64,
    pub last_observed_frame_id: u64,
}

/// A map of voxels.
pub struct LOCALMap {
    pub voxel_map: VoxelMap,
    pub frame_index: VecDeque<FrameEntry>,
    pub config: LocalMapConfig,
    pub next_frame_id: u64,
    pub pending_voxel_map: KeyMap<PendingVoxelCell>,
    pub surface_filter_config: Option<SurfaceFilterConfig>,
    pub surface_evaluation_epoch: u64,
}

/// How far the counts of a cell may be ahead of the frame count.
pub const COUNT_MARGIN: u64 = 0x7fff_ffff_ffff_ffff;

impl LOCALMap {
    /// No count of a cell is far ahead of the number of frames, and no cell was judged
    /// under a configuration that is yet to come. Every frame adds at most one to a
    /// count, so the counts of a map stay within this.
    pub open spec fn wf(self) -> bool {
        &&& forall|key: VoxelKey| #[trigger]
            self.voxel_map@.contains_key(key) ==> self.voxel_map@[key].sample_count
                <= self.next_frame_id + COUNT_MARGIN && self.voxel_map@[key].observed_frames
                <= self.next_frame_id + COUNT_MARGIN
                && self.voxel_map@[key].surface_evaluation_epoch <= self.surface_evaluation_epoch
        &&& forall|key: VoxelKey| #[trigger]
            self.pending_voxel_map@.contains_key(key)
                ==> self.pending_voxel_map@[key].sample_count <= self.next_frame_id + COUNT_MARGIN
    }

    /// Whether another frame can be counted.
    pub open spec fn has_room(self) -> bool {
        self.next_frame_id < COUNT_MARGIN
    }

    /// An empty map.
    pub fn new(config: LocalMapConfig) -> (r: LOCALMap)
        ensures
            r.wf(),
            r.has_room(),
            r.voxel_map@ == Map::<VoxelKey, VoxelCell>::empty(),
            r.pending_voxel_map@ == Map::<VoxelKey, PendingVoxelCell>::empty(),
            r.frame_index@ == Seq::<FrameEntry>::empty(),
            r.config == config,
            r.next_frame_id == 0,
            r.surface_filter_config is None,
            r.surface_evaluation_epoch == 0,
    {
        LOCALMap {
            voxel_map: KeyMap::new(),
            frame_index: VecDeque::new(),
            config,
            next_frame_id: 0,
            pending_voxel_map: KeyMap::new(),
            surface_filter_config: None,
            surface_evaluation_epoch: 0,
        }
    }
}

// ---------------------------------------------------------------------------
// Points by voxel
// ---------------------------------------------------------------------------

/// The sum and the number of the first `k` points, by voxel.
pub open spec fn sums_upto(
    g: Arithmetic,
    points: Seq<Point3>,
    voxel_size: Float32,
    k: int,
) -> Map<VoxelKey, (Point3, usize)>
    decreases k,
{
    if k <= 0 {
        Map::empty()
    } else {
        let before = sums_upto(g, points, voxel_size, k - 1);
        let p = points[k - 1];
        let key = voxel_key_spec(g, p, voxel_size);
        before.insert(
            key,
            if before.contains_key(key) {
                ((g.vector_sum)(before[key].0, p), (before[key].1 + 1) as usize)
            } else {
                (p, 1)
            },
        )
    }
}

/// The sum and the number of the points in each voxel that has some.
pub open spec fn sums_by_voxel(
    g: Arithmetic,
    points: Seq<Point3>,
    voxel_size: Float32,
) -> Map<VoxelKey, (Point3, usize)> {
    sums_upto(g, points, voxel_size, points.len() as int)
}

/// The mean of the points of a voxel.
pub open spec fn mean_of(g: Arithmetic, entry: (Point3, usize)) -> Point3 {
    (g.vector_divided)(entry.0, (g.from_count)(entry.1 as u64))
}

pub fn sum_by_voxel<N: Numerics>(n: &N, points: &[Point3], voxel_size: Float32) -> (r: KeyMap<
    (Point3, usize),
>)
    ensures
        forall|g: Arithmetic| #[trigger]
            computes(*n, g) ==> r@ == sums_by_voxel(g, points@, voxel_size),
{
    let mut sums: KeyMap<(Point3, usize)> = KeyMap::new();
    let mut k: usize = 0;
    while k < points.len()
        invariant
            k <= points.len(),
            forall|key: VoxelKey| #[trigger] sums@.contains_key(key) ==> sums@[key].1 <= k,
            forall|g: Arithmetic| #[trigger]
                computes(*n, g) ==> sums@ == sums_upto(g, points@, voxel_size, k as int),
        decreases points.len() - k,
    {
        let p = points[k];
        let key = voxel_key(n, p, voxel_size);
        let entry = match sums.get(key) {
            Some((sum, count)) => (n.vector_sum(*sum, p), *count + 1),
            None => (p, 1),
        };
        sums.insert(key, entry);
        k += 1;
    }
    sums
}

/// The finite points among the first `k`.
pub open spec fn finite_upto(points: Seq<Point3>, k: int) -> Seq<Point3>
    decreases k,
{
    if k <= 0 {
        Seq::empty()
    } else if points[k - 1].is_finite_spec() {
        finite_upto(points, k - 1).push(points[k - 1])
    } else {
        finite_upto(points, k - 1)
    }
}

/// The finite points, in their order.
pub open spec fn finite_points_spec(points: Seq<Point3>) -> Seq<Point3> {
    finite_upto(points, points.len() as int)
}

fn finite_points(points: &[Point3]) -> (r: Vec<Point3>)
    ensures
        r@ == finite_points_spec(points@),
{
    let mut r: Vec<Point3> = Vec::new();
    let mut k: usize = 0;
    while k < points.len()
        invariant
            k <= points.len(),
            r@ == finite_upto(points@, k as int),
        decreases points.len() - k,
    {
        if points[k].is_finite() {
            r.push(points[k]);
        }
        k += 1;
    }
    r
}

// ---------------------------------------------------------------------------
// Insertion
// ---------------------------------------------------------------------------

/// The cell at `key` after the points of a frame, summed by voxel, were inserted.
pub open spec fn inserted_cell(
    g: Arithmetic,
    cells: Map<VoxelKey, VoxelCell>,
    sums: Map<VoxelKey, (Point3, usize)>,
    frame_id: u64,
    min_samples: usize,
    key: VoxelKey,
) -> VoxelCell {
    if !sums.contains_key(key) {
        cells[key]
    } else if cells.contains_key(key) {
        VoxelCell {
            surface_status: SurfaceStatus::Unknown,
            surface_plane: None,
            ..observed(g, cells[key], mean_of(g, sums[key]), frame_id, min_samples)
        }
    } else {
        first_observation(key, mean_of(g, sums[key]), frame_id)
    }
}

/// The cells after the points of a frame, summed by voxel, were inserted: each voxel
/// takes the mean of its points as one observation, and its surface is open again.
pub open spec fn inserted(
    g: Arithmetic,
    cells: Map<VoxelKey, VoxelCell>,
    sums: Map<VoxelKey, (Point3, usize)>,
    frame_id: u64,
    min_samples: usize,
) -> Map<VoxelKey, VoxelCell> {
    Map::new(
        |key: VoxelKey| cells.contains_key(key) || sums.contains_key(key),
        |key: VoxelKey| inserted_cell(g, cells, sums, frame_id, min_samples, key),
    )
}

/// The cells of `map` after `points` were inserted.
pub open spec fn with_points(
    g: Arithmetic,
    map: LOCALMap,
    points: Seq<Point3>,
) -> Map<VoxelKey, VoxelCell> {
    inserted(
        g,
        map.voxel_map@,
        sums_by_voxel(g, finite_points_spec(points), map.config.index_voxel_size),
        map.next_frame_id,
        map.config.min_points_per_voxel,
    )
}

/// Whether `after` differs from `before` in its voxels and its frame count alone.
pub open spec fn only_voxels_changed(before: LOCALMap, after: LOCALMap) -> bool {
    &&& after.frame_index == before.frame_index
    &&& after.config == before.config
    &&& after.pending_voxel_map == before.pending_voxel_map
    &&& after.surface_filter_config == before.surface_filter_config
    &&& after.surface_evaluation_epoch == before.surface_evaluation_epoch
}

impl LOCALMap {
    /// Inserts points in world coordinates, as one frame.
    pub fn insert_world_points<N: Numerics>(
        &mut self,
        n: &N,
        world_points: &[Point3],
        origin: Point3,
    ) -> (r: FrameEntry)
        requires
            old(self).wf(),
            old(self).has_room(),
        ensures
            final(self).wf(),
            only_voxels_changed(*old(self), *final(self)),
            final(self).next_frame_id == old(self).next_frame_id + 1,
            r.frame_id == old(self).next_frame_id,
            r.origin == origin,
            forall|g: Arithmetic| #[trigger]
                computes(*n, g) ==> {
                    &&& final(self).voxel_map@ == with_points(g, *old(self), world_points@)
                    &&& r.dirty_keys@.dom() == sums_by_voxel(
                        g,
                        finite_points_spec(world_points@),
                        old(self).config.index_voxel_size,
                    ).dom()
                },
    {
        let frame_id: u64 = self.next_frame_id;
        let min_samples: usize = self.config.min_points_per_voxel;
        let voxel_size = self.config.index_voxel_size;
        let finite = finite_points(world_points);
        let sums = sum_by_voxel(n, &finite, voxel_size);
        let keys = sums.keys();
        let mut dirty_keys: KeyMap<()> = KeyMap::new();
        let ghost cells = self.voxel_map@;
        let mut i: usize = 0;
        proof {
            assert(sums@.restrict(keys@.take(0).to_set()) =~= Map::<
                VoxelKey,
                (Point3, usize),
            >::empty());
            assert forall|g: Arithmetic| #[trigger] computes(*n, g) implies cells == inserted(
                g,
                cells,
                sums@.restrict(keys@.take(0).to_set()),
                frame_id,
                min_samples,
            ) by {
                assert(cells =~= inserted(
                    g,
                    cells,
                    sums@.restrict(keys@.take(0).to_set()),
                    frame_id,
                    min_samples,
                ));
            }
        }
        while i < keys.len()
            invariant
                i <= keys.len(),
                keys@.no_duplicates(),
                keys@.to_set() == sums@.dom(),
                only_voxels_changed(*old(self), *self),
                self.next_frame_id == old(self).next_frame_id,
                self.config.index_voxel_size == voxel_size,
                frame_id == old(self).next_frame_id,
                frame_id < COUNT_MARGIN,
                dirty_keys@.dom() == keys@.take(i as int).to_set(),
                forall|j: int|
                    i <= j < keys.len() && self.voxel_map@.contains_key(#[trigger] keys[j])
                        ==> self.voxel_map@[keys[j]].sample_count <= frame_id + COUNT_MARGIN
                        && self.voxel_map@[keys[j]].observed_frames <= frame_id + COUNT_MARGIN,
                forall|key: VoxelKey| #[trigger]
                    self.voxel_map@.contains_key(key) ==> self.voxel_map@[key].sample_count
                        <= frame_id + COUNT_MARGIN + 1 && self.voxel_map@[key].observed_frames
                        <= frame_id + COUNT_MARGIN + 1
                        && self.voxel_map@[key].surface_evaluation_epoch
                        <= self.surface_evaluation_epoch,
                forall|g: Arithmetic| #[trigger]
                    computes(*n, g) ==> self.voxel_map@ == inserted(
                        g,
                        cells,
                        sums@.restrict(keys@.take(i as int).to_set()),
                        frame_id,
                        min_samples,
                    ),
            decreases keys.len() - i,
        {
            let key = keys[i];
            let ghost before = self.voxel_map@;
            assert(keys@.to_set().contains(key));
            if let Some((sum, count)) = sums.get(key) {
                let mean = n.vector_divided(*sum, n.from_count(*count as u64));
                let cell = match self.voxel_map.get(key) {
                    Some(cell) => {
                        let mut cell = *cell;
                        cell.update_statistics(n, mean, frame_id, min_samples);
                        cell.surface_status = SurfaceStatus::Unknown;
                        cell.surface_plane = None;
                        cell
                    },
                    None => VoxelCell::from_key(&key, voxel_size, mean, frame_id),
                };
                self.voxel_map.insert(key, cell);
                dirty_keys.insert(key, ());
                proof {
                    let done = keys@.take(i as int).to_set();
                    let now = keys@.take(i + 1).to_set();
                    lemma_next_key(keys@, i as int);
                    assert forall|g: Arithmetic| #[trigger]
                        computes(*n, g) implies self.voxel_map@ == inserted(
                        g,
                        cells,
                        sums@.restrict(now),
                        frame_id,
                        min_samples,
                    ) by {
                        assert(before.contains_key(key) == cells.contains_key(key));
                        assert(self.voxel_map@ =~= inserted(
                            g,
                            cells,
                            sums@.restrict(now),
                            frame_id,
                            min_samples,
                        ));
                    }
                }
            }
            i += 1;
        }
        proof {
            assert(keys@.take(i as int) =~= keys@);
            assert(sums@.restrict(keys@.to_set()) =~= sums@);
        }
        self.next_frame_id = frame_id + 1;
        FrameEntry { frame_id, origin, dirty_keys }
    }
}

// ---------------------------------------------------------------------------
// Frames
// ---------------------------------------------------------------------------

/// The points, taken into the world.
pub open spec fn world_points_spec(g: Arithmetic, pose: Pose, points: Seq<Point3>) -> Seq<
    Point3,
> {
    points.map_values(|p: Point3| world_point_spec(g, pose, p))
}

fn world_points<N: Numerics>(n: &N, pose: Pose, points: &[Point3]) -> (r: Vec<Point3>)
    ensures
        forall|g: Arithmetic| #[trigger]
            computes(*n, g) ==> r@ == world_points_spec(g, pose, points@),
{
    let mut r: Vec<Point3> = Vec::new();
    let mut k: usize = 0;
    while k < points.len()
        invariant
            k <= points.len(),
            r.len() == k,
            forall|g: Arithmetic| #[trigger]
                computes(*n, g) ==> forall|j: int|
                    0 <= j < k ==> #[trigger] r[j] == world_point_spec(g, pose, points[j]),
        decreases points.len() - k,
    {
        r.push(world_point(n, pose, points[k]));
        k += 1;
    }
    proof {
        assert forall|g: Arithmetic| #[trigger] computes(*n, g) implies r@ == world_points_spec(
            g,
            pose,
            points@,
        ) by {
            assert(r@ =~= world_points_spec(g, pose, points@));
        }
    }
    r
}

/// Whether a cell is less than `max_distance` away from `origin`.
pub open spec fn is_near(
    g: Arithmetic,
    cell: VoxelCell,
    origin: Point3,
    max_distance: Float32,
) -> bool {
    (g.norm_squared)((g.vector_difference)(cell.mean, origin)).lt_spec(
        (g.product)(max_distance, max_distance),
    )
}

/// The cells less than `max_distance` away from `origin`.
pub open spec fn near_cells(
    g: Arithmetic,
    cells: Map<VoxelKey, VoxelCell>,
    origin: Point3,
    max_distance: Float32,
) -> Map<VoxelKey, VoxelCell> {
    cells.restrict(Set::new(|key: VoxelKey| is_near(g, cells[key], origin, max_distance)))
}

fn keep_near<N: Numerics>(n: &N, cells: &mut VoxelMap, origin: Point3, max_distance: Float32)
    ensures
        forall|key: VoxelKey| #[trigger]
            final(cells)@.contains_key(key) ==> old(cells)@.contains_key(key) && final(cells)@[key]
                == old(cells)@[key],
        forall|g: Arithmetic| #[trigger]
            computes(*n, g) ==> final(cells)@ == near_cells(g, old(cells)@, origin, max_distance),
{
    let max_squared = n.product(max_distance, max_distance);
    let keys = cells.keys();
    let ghost all = cells@;
    let mut i: usize = 0;
    while i < keys.len()
        invariant
            i <= keys.len(),
            keys@.no_duplicates(),
            keys@.to_set() == all.dom(),
            cells@ <= all,
            forall|j: int| i <= j < keys.len() ==> cells@.contains_key(#[trigger] keys[j]),
            forall|g: Arithmetic| #[trigger]
                computes(*n, g) ==> max_squared == (g.product)(max_distance, max_distance)
                    && forall|key: VoxelKey| #[trigger]
                    cells@.contains_key(key) <==> all.contains_key(key) && (keys@.take(
                        i as int,
                    ).to_set().contains(key) ==> is_near(g, all[key], origin, max_distance)),
        decreases keys.len() - i,
    {
        let key = keys[i];
        proof {
            lemma_next_key(keys@, i as int);
        }
        if let Some(cell) = cells.get(key) {
            let squared = n.norm_squared(n.vector_difference(cell.mean, origin));
            if !squared.lt(max_squared) {
                cells.remove(key);
            }
        }
        i += 1;
    }
    proof {
        assert(keys@.take(i as int) =~= keys@);
        assert forall|g: Arithmetic| #[trigger] computes(*n, g) implies cells@ == near_cells(
            g,
            all,
            origin,
            max_distance,
        ) by {
            assert(cells@ =~= near_cells(g, all, origin, max_distance));
        }
    }
}

impl LOCALMap {
    /// Inserts points in sensor coordinates, as one frame taken at `global_pose`.
    fn insert_points<N: Numerics>(
        &mut self,
        n: &N,
        source_points: &[Point3],
        global_pose: &Pose64,
    ) -> (r: FrameEntry)
        requires
            old(self).wf(),
            old(self).has_room(),
        ensures
            final(self).wf(),
            only_voxels_changed(*old(self), *final(self)),
            final(self).next_frame_id == old(self).next_frame_id + 1,
            r.frame_id == old(self).next_frame_id,
            forall|g: Arithmetic| #[trigger]
                computes(*n, g) ==> {
                    let pose = narrow_pose_spec(g, *global_pose);
                    let points = world_points_spec(g, pose, source_points@);
                    &&& final(self).voxel_map@ == with_points(g, *old(self), points)
                    &&& r.origin == pose.translation
                    &&& r.dirty_keys@.dom() == sums_by_voxel(
                        g,
                        finite_points_spec(points),
                        old(self).config.index_voxel_size,
                    ).dom()
                },
    {
        let pose = narrow_pose(n, global_pose);
        let points = world_points(n, pose, source_points);
        self.insert_world_points(n, &points, pose.translation)
    }

    /// Inserts a frame into a map that follows the sensor: voxels at the configured
    /// distance or farther away are dropped.
    pub fn update_with_new_frame<N: Numerics>(
        &mut self,
        n: &N,
        source_points: &[Point3],
        global_pose: &Pose64,
    )
        requires
            old(self).wf(),
            old(self).has_room(),
        ensures
            final(self).wf(),
            only_voxels_changed(*old(self), *final(self)),
            final(self).next_frame_id == old(self).next_frame_id + 1,
            forall|g: Arithmetic| #[trigger]
                computes(*n, g) ==> {
                    let pose = narrow_pose_spec(g, *global_pose);
                    final(self).voxel_map@ == near_cells(
                        g,
                        with_points(g, *old(self), world_points_spec(g, pose, source_points@)),
                        pose.translation,
                        old(self).config.max_distance,
                    )
                },
    {
        let _ = self.insert_points(n, source_points, global_pose);
        let origin = narrow_pose(n, global_pose).translation;
        keep_near(n, &mut self.voxel_map, origin, self.config.max_distance);
    }

    /// Inserts a frame into a map of the world, and notes which voxels it changed.
    pub fn update_world_map<N: Numerics>(
        &mut self,
        n: &N,
        source_points: &[Point3],
        global_pose: &Pose64,
    )
        requires
            old(self).wf(),
            old(self).has_room(),
        ensures
            final(self).wf(),
            final(self).next_frame_id == old(self).next_frame_id + 1,
            final(self).config == old(self).config,
            final(self).pending_voxel_map == old(self).pending_voxel_map,
            final(self).surface_filter_config == old(self).surface_filter_config,
            final(self).surface_evaluation_epoch == old(self).surface_evaluation_epoch,
            final(self).frame_index.len() == old(self).frame_index.len() + 1,
            final(self).frame_index@.drop_last() == old(self).frame_index@,
            final(self).frame_index@.last().frame_id == old(self).next_frame_id,
            forall|g: Arithmetic| #[trigger]
                computes(*n, g) ==> {
                    let pose = narrow_pose_spec(g, *global_pose);
                    let points = world_points_spec(g, pose, source_points@);
                    &&& final(self).voxel_map@ == with_points(g, *old(self), points)
                    &&& final(self).frame_index@.last().origin == pose.translation
                    &&& final(self).frame_index@.last().dirty_keys@.dom() == sums_by_voxel(
                        g,
                        finite_points_spec(points),
                        old(self).config.index_voxel_size,
                    ).dom()
                },
    {
        let entry = self.insert_points(n, source_points, global_pose);
        self.frame_index.push_back(entry);
        assert(self.frame_index@.drop_last() =~= old(self).frame_index@);
    }
}

// ---------------------------------------------------------------------------
// Laws
// ---------------------------------------------------------------------------

/// The points among the first `k` that fall into the voxel `key`.
pub open spec fn points_in_voxel(
    g: Arithmetic,
    points: Seq<Point3>,
    voxel_size: Float32,
    key: VoxelKey,
    k: int,
) -> int
    decreases k,
{
    if k <= 0 {
        0
    } else {
        points_in_voxel(g, points, voxel_size, key, k - 1) + if voxel_key_spec(
            g,
            points[k - 1],
            voxel_size,
        ) == key {
            1int
        } else {
            0
        }
    }
}

proof fn lemma_sums_count(
    g: Arithmetic,
    points: Seq<Point3>,
    voxel_size: Float32,
    key: VoxelKey,
    k: int,
)
    requires
        0 <= k <= points.len() <= usize::MAX,
    ensures
        0 <= points_in_voxel(g, points, voxel_size, key, k) <= k,
        sums_upto(g, points, voxel_size, k).contains_key(key) <==> points_in_voxel(
            g,
            points,
            voxel_size,
            key,
            k,
        ) > 0,
        sums_upto(g, points, voxel_size, k).contains_key(key) ==> sums_upto(
            g,
            points,
            voxel_size,
            k,
        )[key].1 == points_in_voxel(g, points, voxel_size, key, k),
    decreases k,
{
    if k > 0 {
        lemma_sums_count(g, points, voxel_size, key, k - 1);
    }
}

/// A voxel has a sum exactly where a point falls into it, and counts every such point.
pub proof fn sums_count_every_point(
    g: Arithmetic,
    points: Seq<Point3>,
    voxel_size: Float32,
    key: VoxelKey,
)
    requires
        points.len() <= usize::MAX,
    ensures
        sums_by_voxel(g, points, voxel_size).contains_key(key) <==> points_in_voxel(
            g,
            points,
            voxel_size,
            key,
            points.len() as int,
        ) > 0,
        sums_by_voxel(g, points, voxel_size).contains_key(key) ==> sums_by_voxel(
            g,
            points,
            voxel_size,
        )[key].1 == points_in_voxel(g, points, voxel_size, key, points.len() as int),
{
    lemma_sums_count(g, points, voxel_size, key, points.len() as int);
}

/// A voxel that a frame adds to is undecided afterwards, every other voxel stays as
/// it was, and no voxel goes away.
pub proof fn insertion_reopens_what_it_changes(
    g: Arithmetic,
    map: LOCALMap,
    points: Seq<Point3>,
    key: VoxelKey,
)
    ensures
        ({
            let changed = sums_by_voxel(
                g,
                finite_points_spec(points),
                map.config.index_voxel_size,
            ).contains_key(key);
            let after = with_points(g, map, points);
            &&& changed ==> after.contains_key(key) && after[key].surface_status
                == SurfaceStatus::Unknown && after[key].surface_plane is None
            &&& !changed ==> after.contains_key(key) == map.voxel_map@.contains_key(key)
            &&& !changed && after.contains_key(key) ==> after[key] == map.voxel_map@[key]
        }),
{
}

/// One observation more never makes the count of samples or of frames smaller, and
/// makes each at most one larger.
pub proof fn insertion_counts_one_frame(
    g: Arithmetic,
    map: LOCALMap,
    points: Seq<Point3>,
    key: VoxelKey,
)
    requires
        map.wf(),
        map.has_room(),
        map.voxel_map@.contains_key(key),
    ensures
        map.voxel_map@[key].sample_count <= with_points(g, map, points)[key].sample_count
            <= map.voxel_map@[key].sample_count + 1,
        map.voxel_map@[key].observed_frames <= with_points(g, map, points)[key].observed_frames
            <= map.voxel_map@[key].observed_frames + 1,
{
}

// ---------------------------------------------------------------------------
// What insertions are
// ---------------------------------------------------------------------------

/// Those of the first `k` points that fall in the voxel `key`, in their order.
pub open spec fn points_of_voxel_upto(
    g: Arithmetic,
    points: Seq<Point3>,
    voxel_size: Float32,
    key: VoxelKey,
    k: int,
) -> Seq<Point3>
    decreases k,
{
    if k <= 0 {
        Seq::empty()
    } else {
        let before = points_of_voxel_upto(g, points, voxel_size, key, k - 1);
        let p = points[k - 1];
        if (g.floor_i32)((g.quotient)(p.x, voxel_size)) == key.ix && (g.floor_i32)(
            (g.quotient)(p.y, voxel_size),
        ) == key.iy && (g.floor_i32)((g.quotient)(p.z, voxel_size)) == key.iz {
            before.push(p)
        } else {
            before
        }
    }
}

/// The first `k` points of a list, each added to those before it.
pub open spec fn total_upto(g: Arithmetic, points: Seq<Point3>, k: int) -> Point3
    decreases k,
{
    if k <= 1 {
        points[0]
    } else {
        (g.vector_sum)(total_upto(g, points, k - 1), points[k - 1])
    }
}

proof fn lemma_total_push(g: Arithmetic, points: Seq<Point3>, p: Point3, k: int)
    requires
        0 < points.len(),
        k <= points.len(),
    ensures
        total_upto(g, points.push(p), k) == total_upto(g, points, k),
    decreases k,
{
    assert(points.push(p)[0] == points[0]);
    if k > 1 {
        lemma_total_push(g, points, p, k - 1);
        assert(points.push(p)[k - 1] == points[k - 1]);
    }
}

/// What is gathered for a voxel is the sum and the number of exactly those points whose
/// coordinates, divided by the size and rounded down, are the indices of the voxel.
pub proof fn sums_gather_the_points_of_a_voxel(
    g: Arithmetic,
    points: Seq<Point3>,
    voxel_size: Float32,
    key: VoxelKey,
    k: int,
)
    requires
        0 <= k <= points.len() <= usize::MAX,
    ensures
        ({
            let sums = sums_upto(g, points, voxel_size, k);
            let mates = points_of_voxel_upto(g, points, voxel_size, key, k);
            &&& mates.len() <= k
            &&& sums.contains_key(key) <==> mates.len() > 0
            &&& mates.len() > 0 ==> sums[key] == (
                total_upto(g, mates, mates.len() as int),
                mates.len() as usize,
            )
        }),
    decreases k,
{
    if k > 0 {
        sums_gather_the_points_of_a_voxel(g, points, voxel_size, key, k - 1);
        let before = points_of_voxel_upto(g, points, voxel_size, key, k - 1);
        let now = points_of_voxel_upto(g, points, voxel_size, key, k);
        if now != before {
            assert(now[now.len() - 1] == points[k - 1]);
            if before.len() > 0 {
                lemma_total_push(g, before, points[k - 1], before.len() as int);
            }
        }
    }
}

/// The mean of a voxel, as often as it has points, is their sum, where dividing a vector
/// undoes scaling it.
pub proof fn voxel_means_are_shares_of_the_sum(g: Arithmetic, entry: (Point3, usize))
    requires
        forall|v: Point3, s: Float32| #[trigger]
            (g.vector_scaled)((g.vector_divided)(v, s), s) == v,
    ensures
        (g.vector_scaled)(mean_of(g, entry), (g.from_count)(entry.1 as u64)) == entry.0,
{
}

/// The finite points of a list are those with three finite coordinates, in their order.
pub proof fn finite_points_have_finite_coordinates(points: Seq<Point3>, k: int)
    requires
        0 <= k <= points.len(),
    ensures
        finite_upto(points, k) == points.take(k).filter(
            |p: Point3|
                p.x.is_finite_spec() && p.y.is_finite_spec() && p.z.is_finite_spec(),
        ),
        k == points.len() ==> finite_points_spec(points) == finite_upto(points, k),
    decreases k,
{
    let finite = |p: Point3|
        p.x.is_finite_spec() && p.y.is_finite_spec() && p.z.is_finite_spec();
    if k > 0 {
        finite_points_have_finite_coordinates(points, k - 1);
        assert(points.take(k) =~= points.take(k - 1).push(points[k - 1]));
        points.take(k - 1).lemma_filter_push(points[k - 1], finite);
    } else {
        assert(points.take(k) =~= Seq::empty());
        reveal(Seq::filter);
    }
}

/// A frame shows each voxel that its points fall in once, at the mean of these points: a
/// voxel that was there has one more observation there, and a new one has its first.
pub proof fn frames_show_a_voxel_at_the_mean_of_its_points(
    g: Arithmetic,
    map: LOCALMap,
    points: Seq<Point3>,
    key: VoxelKey,
)
    requires
        map.wf(),
        map.has_room(),
    ensures
        ({
            let sums = sums_by_voxel(g, finite_points_spec(points), map.config.index_voxel_size);
            let before = map.voxel_map@;
            let after = with_points(g, map, points);
            let mean = mean_of(g, sums[key]);
            &&& after.contains_key(key) <==> before.contains_key(key) || sums.contains_key(key)
            &&& sums.contains_key(key) && !before.contains_key(key) ==> {
                &&& after[key].mean == mean
                &&& after[key].sample_count == 1 && after[key].observed_frames == 1
                &&& after[key].last_observed_frame_id == Some(map.next_frame_id)
                &&& after[key].voxel_key == key
            }
            &&& sums.contains_key(key) && before.contains_key(key) && mean.is_finite_spec() ==> {
                &&& after[key].sample_count == before[key].sample_count + 1
                &&& after[key].mean == crate::cell::running_mean(
                    g,
                    before[key].mean,
                    mean,
                    after[key].sample_count,
                )
                &&& after[key].last_observed_frame_id == Some(map.next_frame_id)
                &&& after[key].voxel_key == before[key].voxel_key
            }
        }),
{
}

/// A voxel stays in a map that follows the sensor exactly where the squared length of the
/// way from the sensor to its mean is below the square of the limit; it stays as it is.
pub proof fn voxels_stay_where_they_are_near(
    g: Arithmetic,
    cells: Map<VoxelKey, VoxelCell>,
    origin: Point3,
    max_distance: Float32,
    key: VoxelKey,
)
    ensures
        ({
            let near = near_cells(g, cells, origin, max_distance);
            let way = (g.vector_difference)(cells[key].mean, origin);
            &&& near.contains_key(key) <==> cells.contains_key(key) && (g.norm_squared)(
                way,
            ).lt_spec((g.product)(max_distance, max_distance))
            &&& near.contains_key(key) ==> near[key] == cells[key]
        }),
{
}

/// The points of a frame are taken to the world one by one: each is turned and shifted.
pub proof fn world_points_are_turned_and_shifted(
    g: Arithmetic,
    pose: Pose,
    points: Seq<Point3>,
    i: int,
)
    requires
        0 <= i < points.len(),
    ensures
        world_points_spec(g, pose, points).len() == points.len(),
        world_points_spec(g, pose, points)[i] == (g.vector_sum)(
            (g.transformed)(pose.rotation, points[i]),
            pose.translation,
        ),
{
}

} // verus!
