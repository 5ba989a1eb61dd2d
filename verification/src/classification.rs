//! Which voxels of a map lie on a surface, judged again as the map grows.

use vstd::prelude::*;

use crate::cell::{same_observations, SurfaceStatus, VoxelCell, VoxelMap};
use crate::numerics::{computes, Arithmetic, Numerics};
use crate::surface::{
    evaluate_surface_voxel, evaluation, immature, reach, SurfaceEvaluation, SurfaceFilterConfig,
};
use crate::voxel::{lemma_next_key, occupied, occupied_is_the_cube, within, KeyMap, VoxelKey};
use crate::voxel_map::{FrameEntry, LOCALMap};

verus! {

/// How many voxels were judged, and with which result.
#[derive(Clone, Copy, Debug, PartialEq, Eq, Structural)]
pub struct SurfaceClassificationStats {
    pub evaluated: usize,
    pub planar: usize,
    pub non_planar: usize,
    pub unknown: usize,
    /// How often a changed voxel had a voxel in reach that needed no new judgement.
    pub skipped_unchanged_probes: usize,
    /// How many of the voxels were seen in too few frames to look at others.
    pub immature_fast_path: usize,
}

pub open spec fn no_stats() -> SurfaceClassificationStats {
    SurfaceClassificationStats {
        evaluated: 0,
        planar: 0,
        non_planar: 0,
        unknown: 0,
        skipped_unchanged_probes: 0,
        immature_fast_path: 0,
    }
}

impl Default for SurfaceClassificationStats {
    fn default() -> (r: SurfaceClassificationStats)
        ensures
            r == no_stats(),
    {
        SurfaceClassificationStats {
            evaluated: 0,
            planar: 0,
            non_planar: 0,
            unknown: 0,
            skipped_unchanged_probes: 0,
            immature_fast_path: 0,
        }
    }
}

// ---------------------------------------------------------------------------
// Judging given voxels
// ---------------------------------------------------------------------------

/// The cell at `key` with what is decided about it now.
pub open spec fn classified_cell(
    g: Arithmetic,
    cells: Map<VoxelKey, VoxelCell>,
    key: VoxelKey,
    config: SurfaceFilterConfig,
    through: Option<u64>,
    epoch: u64,
) -> VoxelCell {
    let decided = evaluation(g, cells, key, config);
    VoxelCell {
        surface_status: decided.status,
        surface_plane: decided.plane,
        surface_evaluation_epoch: epoch,
        surface_evaluated_through_frame_id: through,
        ..cells[key]
    }
}

/// The cells after those in `centers` were judged.
pub open spec fn classified(
    g: Arithmetic,
    cells: Map<VoxelKey, VoxelCell>,
    centers: Set<VoxelKey>,
    config: SurfaceFilterConfig,
    through: Option<u64>,
    epoch: u64,
) -> Map<VoxelKey, VoxelCell> {
    Map::new(
        |key: VoxelKey| cells.contains_key(key),
        |key: VoxelKey|
            if centers.contains(key) {
                classified_cell(g, cells, key, config, through, epoch)
            } else {
                cells[key]
            },
    )
}

/// The voxels in `centers` that are decided to be `status`.
pub open spec fn decided_as(
    g: Arithmetic,
    cells: Map<VoxelKey, VoxelCell>,
    centers: Set<VoxelKey>,
    config: SurfaceFilterConfig,
    status: SurfaceStatus,
) -> Set<VoxelKey> {
    centers.filter(|key: VoxelKey| evaluation(g, cells, key, config).status == status)
}

/// Whether `after` has the voxels and the observations of `before`.
pub open spec fn observations_kept(
    before: Map<VoxelKey, VoxelCell>,
    after: Map<VoxelKey, VoxelCell>,
) -> bool {
    &&& after.dom() == before.dom()
    &&& forall|key: VoxelKey| #[trigger]
        before.contains_key(key) ==> same_observations(after[key], before[key])
}

/// How many of the first `k` decisions are `status`.
spec fn count_status(decided: Seq<SurfaceEvaluation>, status: SurfaceStatus, k: int) -> int
    decreases k,
{
    if k <= 0 {
        0
    } else {
        count_status(decided, status, k - 1) + if decided[k - 1].status == status {
            1int
        } else {
            0
        }
    }
}

proof fn lemma_count_status(
    g: Arithmetic,
    cells: Map<VoxelKey, VoxelCell>,
    keys: Seq<VoxelKey>,
    config: SurfaceFilterConfig,
    decided: Seq<SurfaceEvaluation>,
    status: SurfaceStatus,
    k: int,
)
    requires
        0 <= k <= keys.len(),
        keys.len() == decided.len(),
        keys.no_duplicates(),
        forall|j: int|
            0 <= j < keys.len() ==> #[trigger] decided[j] == evaluation(g, cells, keys[j], config),
    ensures
        decided_as(g, cells, keys.take(k).to_set(), config, status).finite(),
        decided_as(g, cells, keys.take(k).to_set(), config, status).len() == count_status(
            decided,
            status,
            k,
        ),
    decreases k,
{
    let now = decided_as(g, cells, keys.take(k).to_set(), config, status);
    if k <= 0 {
        assert(now =~= Set::empty());
    } else {
        lemma_count_status(g, cells, keys, config, decided, status, k - 1);
        lemma_next_key(keys, k - 1);
        let before = decided_as(g, cells, keys.take(k - 1).to_set(), config, status);
        assert(decided[k - 1] == evaluation(g, cells, keys[k - 1], config));
        if decided[k - 1].status == status {
            assert(now =~= before.insert(keys[k - 1]));
        } else {
            assert(now =~= before);
        }
    }
}

fn evaluate_all<N: Numerics>(
    n: &N,
    voxel_map: &VoxelMap,
    center_keys: &[VoxelKey],
    config: &SurfaceFilterConfig,
) -> (r: Vec<SurfaceEvaluation>)
    requires
        forall|j: int|
            0 <= j < center_keys.len() ==> voxel_map@.contains_key(#[trigger] center_keys[j]),
    ensures
        r.len() == center_keys.len(),
        forall|g: Arithmetic| #[trigger]
            computes(*n, g) ==> forall|j: int|
                0 <= j < center_keys.len() ==> #[trigger] r[j] == evaluation(
                    g,
                    voxel_map@,
                    center_keys[j],
                    *config,
                ),
{
    let mut r: Vec<SurfaceEvaluation> = Vec::new();
    let mut k: usize = 0;
    while k < center_keys.len()
        invariant
            k <= center_keys.len(),
            r.len() == k,
            forall|j: int|
                0 <= j < center_keys.len() ==> voxel_map@.contains_key(#[trigger] center_keys[j]),
            forall|g: Arithmetic| #[trigger]
                computes(*n, g) ==> forall|j: int|
                    0 <= j < k ==> #[trigger] r[j] == evaluation(
                        g,
                        voxel_map@,
                        center_keys[j],
                        *config,
                    ),
        decreases center_keys.len() - k,
    {
        if let Some(decided) = evaluate_surface_voxel(n, voxel_map, center_keys[k], config) {
            r.push(decided);
        }
        k += 1;
    }
    r
}

/// Whether `after` differs from `before` in its voxels alone.
pub open spec fn only_cells_changed(before: LOCALMap, after: LOCALMap) -> bool {
    &&& after.frame_index == before.frame_index
    &&& after.config == before.config
    &&& after.next_frame_id == before.next_frame_id
    &&& after.pending_voxel_map == before.pending_voxel_map
    &&& after.surface_filter_config == before.surface_filter_config
    &&& after.surface_evaluation_epoch == before.surface_evaluation_epoch
}

impl LOCALMap {
    fn classify_surface_voxels<N: Numerics>(
        &mut self,
        n: &N,
        center_keys: &[VoxelKey],
        config: &SurfaceFilterConfig,
        through: Option<u64>,
        epoch: u64,
    ) -> (r: SurfaceClassificationStats)
        requires
            old(self).wf(),
            epoch == old(self).surface_evaluation_epoch,
            center_keys@.no_duplicates(),
            forall|j: int|
                0 <= j < center_keys.len() ==> old(self).voxel_map@.contains_key(
                    #[trigger] center_keys[j],
                ),
        ensures
            final(self).wf(),
            only_cells_changed(*old(self), *final(self)),
            observations_kept(old(self).voxel_map@, final(self).voxel_map@),
            r.evaluated == center_keys.len(),
            r.planar + r.non_planar + r.unknown == r.evaluated,
            r.skipped_unchanged_probes == 0,
            r.immature_fast_path == 0,
            forall|g: Arithmetic| #[trigger]
                computes(*n, g) ==> {
                    let cells = old(self).voxel_map@;
                    let centers = center_keys@.to_set();
                    &&& final(self).voxel_map@ == classified(
                        g,
                        cells,
                        centers,
                        *config,
                        through,
                        epoch,
                    )
                    &&& r.planar == decided_as(
                        g,
                        cells,
                        centers,
                        *config,
                        SurfaceStatus::Planar,
                    ).len()
                    &&& r.non_planar == decided_as(
                        g,
                        cells,
                        centers,
                        *config,
                        SurfaceStatus::NonPlanar,
                    ).len()
                    &&& r.unknown == decided_as(
                        g,
                        cells,
                        centers,
                        *config,
                        SurfaceStatus::Unknown,
                    ).len()
                },
    {
        let decided = evaluate_all(n, &self.voxel_map, center_keys, config);
        let ghost cells = self.voxel_map@;
        let mut stats = SurfaceClassificationStats {
            evaluated: 0,
            planar: 0,
            non_planar: 0,
            unknown: 0,
            skipped_unchanged_probes: 0,
            immature_fast_path: 0,
        };
        let mut k: usize = 0;
        while k < center_keys.len()
            invariant
                k <= center_keys.len(),
                decided.len() == center_keys.len(),
                only_cells_changed(*old(self), *self),
                center_keys@.no_duplicates(),
                forall|j: int|
                    0 <= j < center_keys.len() ==> cells.contains_key(#[trigger] center_keys[j]),
                self.voxel_map@.dom() == cells.dom(),
                stats.evaluated == k,
                stats.planar + stats.non_planar + stats.unknown == k,
                stats.skipped_unchanged_probes == 0,
                stats.immature_fast_path == 0,
                stats.planar == count_status(decided@, SurfaceStatus::Planar, k as int),
                stats.non_planar == count_status(decided@, SurfaceStatus::NonPlanar, k as int),
                stats.unknown == count_status(decided@, SurfaceStatus::Unknown, k as int),
                forall|key: VoxelKey| #[trigger]
                    cells.contains_key(key) && !center_keys@.take(k as int).to_set().contains(key)
                        ==> self.voxel_map@[key] == cells[key],
                forall|j: int|
                    0 <= j < k ==> self.voxel_map@[#[trigger] center_keys[j]] == (VoxelCell {
                        surface_status: decided[j].status,
                        surface_plane: decided[j].plane,
                        surface_evaluation_epoch: epoch,
                        surface_evaluated_through_frame_id: through,
                        ..cells[center_keys[j]]
                    }),
            decreases center_keys.len() - k,
        {
            let key = center_keys[k];
            proof {
                lemma_next_key(center_keys@, k as int);
            }
            if let Some(cell) = self.voxel_map.get(key) {
                let mut cell = *cell;
                cell.surface_status = decided[k].status;
                cell.surface_plane = decided[k].plane;
                cell.surface_evaluation_epoch = epoch;
                cell.surface_evaluated_through_frame_id = through;
                self.voxel_map.insert(key, cell);
                assert(self.voxel_map@.dom() =~= cells.dom());
            }
            stats.evaluated = stats.evaluated + 1;
            match decided[k].status {
                SurfaceStatus::Unknown => {
                    stats.unknown = stats.unknown + 1;
                },
                SurfaceStatus::Planar => {
                    stats.planar = stats.planar + 1;
                },
                SurfaceStatus::NonPlanar => {
                    stats.non_planar = stats.non_planar + 1;
                },
            }
            k += 1;
        }
        proof {
            assert(center_keys@.take(k as int) =~= center_keys@);
            assert forall|key: VoxelKey| #[trigger] cells.contains_key(key) implies
                same_observations(self.voxel_map@[key], cells[key]) by {
                if center_keys@.to_set().contains(key) {
                    let j = choose|j: int| 0 <= j < center_keys.len() && center_keys[j] == key;
                    assert(self.voxel_map@[center_keys[j]].mean == cells[key].mean);
                }
            }
            assert forall|key: VoxelKey| #[trigger] self.voxel_map@.contains_key(key) implies
                self.voxel_map@[key].sample_count <= self.next_frame_id
                + crate::voxel_map::COUNT_MARGIN && self.voxel_map@[key].observed_frames
                <= self.next_frame_id + crate::voxel_map::COUNT_MARGIN
                && self.voxel_map@[key].surface_evaluation_epoch <= epoch by {
                assert(cells.contains_key(key));
                if center_keys@.to_set().contains(key) {
                    let j = choose|j: int| 0 <= j < center_keys.len() && center_keys[j] == key;
                    assert(self.voxel_map@[center_keys[j]].surface_evaluation_epoch == epoch);
                }
            }
            assert forall|g: Arithmetic| #[trigger] computes(*n, g) implies self.voxel_map@
                == classified(g, cells, center_keys@.to_set(), *config, through, epoch) by {
                let wanted = classified(
                    g,
                    cells,
                    center_keys@.to_set(),
                    *config,
                    through,
                    epoch,
                );
                assert forall|key: VoxelKey| cells.contains_key(key) implies #[trigger] wanted[key]
                    == self.voxel_map@[key] by {
                    if center_keys@.to_set().contains(key) {
                        let j = choose|j: int| 0 <= j < center_keys.len() && center_keys[j] == key;
                        assert(decided[j] == evaluation(g, cells, center_keys[j], *config));
                        assert(self.voxel_map@[center_keys[j]].mean == cells[key].mean);
                    }
                }
                assert(self.voxel_map@ =~= wanted);
            }
            assert forall|g: Arithmetic| #[trigger] computes(*n, g) implies stats.planar
                == decided_as(
                g,
                cells,
                center_keys@.to_set(),
                *config,
                SurfaceStatus::Planar,
            ).len() && stats.non_planar == decided_as(
                g,
                cells,
                center_keys@.to_set(),
                *config,
                SurfaceStatus::NonPlanar,
            ).len() && stats.unknown == decided_as(
                g,
                cells,
                center_keys@.to_set(),
                *config,
                SurfaceStatus::Unknown,
            ).len() by {
                let len = center_keys.len() as int;
                lemma_count_status(
                    g,
                    cells,
                    center_keys@,
                    *config,
                    decided@,
                    SurfaceStatus::Planar,
                    len,
                );
                lemma_count_status(
                    g,
                    cells,
                    center_keys@,
                    *config,
                    decided@,
                    SurfaceStatus::NonPlanar,
                    len,
                );
                lemma_count_status(
                    g,
                    cells,
                    center_keys@,
                    *config,
                    decided@,
                    SurfaceStatus::Unknown,
                    len,
                );
            }
        }
        stats
    }
}

// ---------------------------------------------------------------------------
// The generation of the configuration
// ---------------------------------------------------------------------------

/// The generation that judgements under `config` belong to: a configuration other
/// than the last one begins a new one.
pub open spec fn epoch_for(map: LOCALMap, config: SurfaceFilterConfig) -> int {
    match map.surface_filter_config {
        Some(last) => if last.same_spec(config) {
            map.surface_evaluation_epoch as int
        } else {
            map.surface_evaluation_epoch + 1
        },
        None => map.surface_evaluation_epoch + 1,
    }
}

/// Whether the last configuration was an equal one.
pub open spec fn config_known(map: LOCALMap, config: SurfaceFilterConfig) -> bool {
    map.surface_filter_config matches Some(last) && last.same_spec(config)
}

impl LOCALMap {
    fn enter_epoch(&mut self, config: &SurfaceFilterConfig) -> (r: u64)
        requires
            epoch_for(*old(self), *config) <= u64::MAX,
        ensures
            r == epoch_for(*old(self), *config),
            final(self).surface_evaluation_epoch == r,
            final(self).surface_filter_config == if config_known(*old(self), *config) {
                old(self).surface_filter_config
            } else {
                Some(*config)
            },
            final(self).voxel_map == old(self).voxel_map,
            final(self).frame_index == old(self).frame_index,
            final(self).config == old(self).config,
            final(self).next_frame_id == old(self).next_frame_id,
            final(self).pending_voxel_map == old(self).pending_voxel_map,
    {
        let known = match &self.surface_filter_config {
            Some(last) => last.same(config),
            None => false,
        };
        if !known {
            self.surface_filter_config = Some(*config);
            self.surface_evaluation_epoch = self.surface_evaluation_epoch + 1;
        }
        self.surface_evaluation_epoch
    }

    /// Judges every voxel.
    pub fn classify_all_surface_voxels<N: Numerics>(
        &mut self,
        n: &N,
        filter_config: &SurfaceFilterConfig,
    ) -> (r: SurfaceClassificationStats)
        requires
            old(self).wf(),
            epoch_for(*old(self), *filter_config) <= u64::MAX,
        ensures
            final(self).wf(),
            observations_kept(old(self).voxel_map@, final(self).voxel_map@),
            final(self).frame_index == old(self).frame_index,
            final(self).config == old(self).config,
            final(self).next_frame_id == old(self).next_frame_id,
            final(self).pending_voxel_map == old(self).pending_voxel_map,
            final(self).surface_evaluation_epoch == epoch_for(*old(self), *filter_config),
            final(self).surface_filter_config == if config_known(*old(self), *filter_config) {
                old(self).surface_filter_config
            } else {
                Some(*filter_config)
            },
            r.evaluated == old(self).voxel_map@.len(),
            r.planar + r.non_planar + r.unknown == r.evaluated,
            r.skipped_unchanged_probes == 0,
            r.immature_fast_path == 0,
            forall|g: Arithmetic| #[trigger]
                computes(*n, g) ==> {
                    let cells = old(self).voxel_map@;
                    &&& final(self).voxel_map@ == classified(
                        g,
                        cells,
                        cells.dom(),
                        *filter_config,
                        if old(self).next_frame_id == 0 {
                            None
                        } else {
                            Some((old(self).next_frame_id - 1) as u64)
                        },
                        epoch_for(*old(self), *filter_config) as u64,
                    )
                    &&& r.planar == decided_as(
                        g,
                        cells,
                        cells.dom(),
                        *filter_config,
                        SurfaceStatus::Planar,
                    ).len()
                    &&& r.non_planar == decided_as(
                        g,
                        cells,
                        cells.dom(),
                        *filter_config,
                        SurfaceStatus::NonPlanar,
                    ).len()
                    &&& r.unknown == decided_as(
                        g,
                        cells,
                        cells.dom(),
                        *filter_config,
                        SurfaceStatus::Unknown,
                    ).len()
                },
    {
        let epoch: u64 = self.enter_epoch(filter_config);
        let through: Option<u64> = if self.next_frame_id == 0 {
            None
        } else {
            Some(self.next_frame_id - 1)
        };
        let keys = self.voxel_map.keys();
        proof {
            assert forall|j: int| 0 <= j < keys.len() implies self.voxel_map@.contains_key(
                #[trigger] keys[j],
            ) by {
                assert(keys@.to_set().contains(keys[j]));
            }
        }
        self.classify_surface_voxels(n, &keys, filter_config, through, epoch)
    }
}

// ---------------------------------------------------------------------------
// Which voxels to judge again
// ---------------------------------------------------------------------------

/// Whether a voxel has to be judged again because of a change in frame `frame_id`:
/// it was judged under another configuration, or before that frame.
pub open spec fn needs_evaluation(cell: VoxelCell, epoch: u64, frame_id: u64) -> bool {
    cell.surface_evaluation_epoch != epoch || match cell.surface_evaluated_through_frame_id {
        None => true,
        Some(through) => through < frame_id,
    }
}

/// The voxels to be judged again because a voxel of `dirty` in reach was changed.
pub open spec fn affected_by(
    cells: Map<VoxelKey, VoxelCell>,
    versions: Map<VoxelKey, u64>,
    dirty: Set<VoxelKey>,
    radius: int,
    epoch: u64,
) -> Set<VoxelKey> {
    Set::new(
        |center: VoxelKey|
            cells.contains_key(center) && exists|key: VoxelKey| #[trigger]
                dirty.contains(key) && within(key, radius, center) && needs_evaluation(
                    cells[center],
                    epoch,
                    versions[key],
                ),
    )
}

/// The voxels to be judged again because of the changed voxels in `versions`, each of
/// which is given with the last frame that changed it.
pub open spec fn affected(
    cells: Map<VoxelKey, VoxelCell>,
    versions: Map<VoxelKey, u64>,
    radius: int,
    epoch: u64,
) -> Set<VoxelKey> {
    affected_by(cells, versions, versions.dom(), radius, epoch)
}

/// Whether the voxel `probe.1` is in reach of the changed voxel `probe.0` and need
/// not be judged again because of it.
pub open spec fn is_unchanged_probe(
    cells: Map<VoxelKey, VoxelCell>,
    versions: Map<VoxelKey, u64>,
    radius: int,
    epoch: u64,
    probe: (VoxelKey, VoxelKey),
) -> bool {
    &&& versions.contains_key(probe.0)
    &&& cells.contains_key(probe.1)
    &&& within(probe.0, radius, probe.1)
    &&& !needs_evaluation(cells[probe.1], epoch, versions[probe.0])
}

/// All such pairs.
pub open spec fn unchanged_probes(
    cells: Map<VoxelKey, VoxelCell>,
    versions: Map<VoxelKey, u64>,
    radius: int,
    epoch: u64,
) -> Set<(VoxelKey, VoxelKey)> {
    Set::new(
        |probe: (VoxelKey, VoxelKey)| is_unchanged_probe(cells, versions, radius, epoch, probe),
    )
}

/// `count`, and the largest `usize` where it is larger.
pub open spec fn saturated(count: int) -> int {
    if count <= usize::MAX {
        count
    } else {
        usize::MAX as int
    }
}

fn cell_needs_evaluation(cell: &VoxelCell, epoch: u64, frame_id: u64) -> (r: bool)
    ensures
        r == needs_evaluation(*cell, epoch, frame_id),
{
    let unseen = match cell.surface_evaluated_through_frame_id {
        None => true,
        Some(through) => through < frame_id,
    };
    cell.surface_evaluation_epoch != epoch || unseen
}

#[verifier::rlimit(40)]
fn affected_centers(
    cells: &VoxelMap,
    versions: &KeyMap<u64>,
    radius: i32,
    epoch: u64,
) -> (r: (KeyMap<()>, usize))
    ensures
        r.0@.dom() == affected(cells@, versions@, radius as int, epoch),
        unchanged_probes(cells@, versions@, radius as int, epoch).finite(),
        r.1 == saturated(
            unchanged_probes(cells@, versions@, radius as int, epoch).len() as int,
        ),
{
    let mut centers: KeyMap<()> = KeyMap::new();
    let mut skipped: usize = 0;
    let dirty = versions.keys();
    let ghost mut probes: Set<(VoxelKey, VoxelKey)> = Set::empty();
    let mut i: usize = 0;
    assert(centers@.dom() =~= affected_by(
        cells@,
        versions@,
        dirty@.take(0).to_set(),
        radius as int,
        epoch,
    ));
    while i < dirty.len()
        invariant
            i <= dirty.len(),
            dirty@.no_duplicates(),
            dirty@.to_set() == versions@.dom(),
            centers@.dom() == affected_by(
                cells@,
                versions@,
                dirty@.take(i as int).to_set(),
                radius as int,
                epoch,
            ),
            probes.finite(),
            skipped == saturated(probes.len() as int),
            forall|probe: (VoxelKey, VoxelKey)| #[trigger]
                probes.contains(probe) <==> is_unchanged_probe(
                    cells@,
                    versions@,
                    radius as int,
                    epoch,
                    probe,
                ) && dirty@.take(i as int).to_set().contains(probe.0),
        decreases dirty.len() - i,
    {
        let key = dirty[i];
        let ghost done = dirty@.take(i as int).to_set();
        let ghost centers_before = centers@.dom();
        proof {
            lemma_next_key(dirty@, i as int);
            assert(dirty@.to_set().contains(key));
            occupied_is_the_cube(cells@.dom(), key, radius as int);
        }
        let frame_id: u64 = match versions.get(key) {
            Some(frame_id) => *frame_id,
            None => 0,
        };
        let cube = cells.occupied_cube(key, radius);
        let mut j: usize = 0;
        proof {
            assert forall|k: int| 0 <= k < cube.len() implies cells@.contains_key(
                #[trigger] cube[k],
            ) && within(key, radius as int, cube[k]) by {
                assert(occupied(cells@.dom(), key, radius as int).contains(cube[k]));
            }
        }
        while j < cube.len()
            invariant
                j <= cube.len(),
                cube@.no_duplicates(),
                versions@.contains_key(key),
                frame_id == versions@[key],
                !done.contains(key),
                forall|k: int|
                    0 <= k < cube.len() ==> cells@.contains_key(#[trigger] cube[k]) && within(
                        key,
                        radius as int,
                        cube[k],
                    ),
                forall|center: VoxelKey| #[trigger]
                    centers@.dom().contains(center) <==> centers_before.contains(center) || (
                    cube@.take(j as int).to_set().contains(center) && needs_evaluation(
                        cells@[center],
                        epoch,
                        frame_id,
                    )),
                probes.finite(),
                skipped == saturated(probes.len() as int),
                forall|probe: (VoxelKey, VoxelKey)| #[trigger]
                    probes.contains(probe) <==> is_unchanged_probe(
                        cells@,
                        versions@,
                        radius as int,
                        epoch,
                        probe,
                    ) && (done.contains(probe.0) || (probe.0 == key && cube@.take(
                        j as int,
                    ).to_set().contains(probe.1))),
            decreases cube.len() - j,
        {
            let center = cube[j];
            proof {
                lemma_next_key(cube@, j as int);
            }
            if let Some(cell) = cells.get(center) {
                if cell_needs_evaluation(cell, epoch, frame_id) {
                    centers.insert(center, ());
                } else {
                    skipped = skipped.saturating_add(1);
                    proof {
                        assert(!probes.contains((key, center)));
                        probes = probes.insert((key, center));
                    }
                }
            }
            j += 1;
        }
        proof {
            assert(cube@.take(j as int) =~= cube@);
            assert forall|center: VoxelKey| #[trigger]
                centers@.dom().contains(center) <==> affected_by(
                cells@,
                versions@,
                done.insert(key),
                radius as int,
                epoch,
            ).contains(center) by {
                if cube@.to_set().contains(center) {
                    assert(occupied(cells@.dom(), key, radius as int).contains(center));
                }
                if centers_before.contains(center) {
                    let k = choose|k: VoxelKey| #[trigger]
                        done.contains(k) && within(k, radius as int, center) && needs_evaluation(
                            cells@[center],
                            epoch,
                            versions@[k],
                        );
                    assert(done.insert(key).contains(k));
                }
                if cube@.to_set().contains(center) && needs_evaluation(
                    cells@[center],
                    epoch,
                    frame_id,
                ) {
                    assert(done.insert(key).contains(key));
                }
                if affected_by(
                    cells@,
                    versions@,
                    done.insert(key),
                    radius as int,
                    epoch,
                ).contains(center) {
                    let k = choose|k: VoxelKey| #[trigger]
                        done.insert(key).contains(k) && within(k, radius as int, center)
                            && needs_evaluation(cells@[center], epoch, versions@[k]);
                    if k == key {
                        assert(occupied(cells@.dom(), key, radius as int).contains(center));
                    } else {
                        assert(done.contains(k));
                    }
                }
            }
            assert(centers@.dom() =~= affected_by(
                cells@,
                versions@,
                done.insert(key),
                radius as int,
                epoch,
            ));
            assert forall|probe: (VoxelKey, VoxelKey)| #[trigger]
                probes.contains(probe) <==> is_unchanged_probe(
                    cells@,
                    versions@,
                    radius as int,
                    epoch,
                    probe,
                ) && done.insert(key).contains(probe.0) by {
                if is_unchanged_probe(cells@, versions@, radius as int, epoch, probe) && probe.0
                    == key {
                    assert(occupied(cells@.dom(), key, radius as int).contains(probe.1));
                }
            }
        }
        i += 1;
    }
    proof {
        assert(dirty@.take(i as int) =~= dirty@);
        assert(probes =~= unchanged_probes(cells@, versions@, radius as int, epoch));
    }
    (centers, skipped)
}

// ---------------------------------------------------------------------------
// Frames that are old enough
// ---------------------------------------------------------------------------

/// How many frames ago `frame_id` was.
pub open spec fn age(current: u64, frame_id: u64) -> int {
    if current >= frame_id {
        current - frame_id
    } else {
        0
    }
}

/// The end of the run of frames, from `k` on, that are at least `delay` frames old.
pub open spec fn released_from(
    frames: Seq<FrameEntry>,
    current: u64,
    delay: u64,
    k: int,
) -> int
    decreases frames.len() - k,
{
    if k >= frames.len() || age(current, frames[k].frame_id) < delay {
        k
    } else {
        released_from(frames, current, delay, k + 1)
    }
}

/// How many frames at the front of the queue are at least `delay` frames old.
pub open spec fn released(frames: Seq<FrameEntry>, current: u64, delay: u64) -> int {
    released_from(frames, current, delay, 0)
}

/// `versions` with the voxels that `entry` changed: each has the last frame that
/// changed it.
pub open spec fn with_entry(versions: Map<VoxelKey, u64>, entry: FrameEntry) -> Map<
    VoxelKey,
    u64,
> {
    Map::new(
        |key: VoxelKey| versions.contains_key(key) || entry.dirty_keys@.contains_key(key),
        |key: VoxelKey|
            {
                if !entry.dirty_keys@.contains_key(key) {
                    versions[key]
                } else if versions.contains_key(key) && versions[key] >= entry.frame_id {
                    versions[key]
                } else {
                    entry.frame_id
                }
            },
    )
}

/// The voxels that the first `k` frames changed, each with the last of these frames
/// that changed it.
pub open spec fn versions_upto(frames: Seq<FrameEntry>, k: int) -> Map<VoxelKey, u64>
    decreases k,
{
    if k <= 0 {
        Map::empty()
    } else {
        with_entry(versions_upto(frames, k - 1), frames[k - 1])
    }
}

fn add_entry(versions: &mut KeyMap<u64>, entry: &FrameEntry)
    ensures
        final(versions)@ == with_entry(old(versions)@, *entry),
{
    let keys = entry.dirty_keys.keys();
    let ghost before = versions@;
    let mut i: usize = 0;
    while i < keys.len()
        invariant
            i <= keys.len(),
            keys@.no_duplicates(),
            keys@.to_set() == entry.dirty_keys@.dom(),
            forall|key: VoxelKey| #[trigger]
                versions@.contains_key(key) <==> before.contains_key(key) || keys@.take(
                    i as int,
                ).to_set().contains(key),
            forall|key: VoxelKey| #[trigger]
                versions@.contains_key(key) ==> versions@[key] == if keys@.take(
                    i as int,
                ).to_set().contains(key) {
                    with_entry(before, *entry)[key]
                } else {
                    before[key]
                },
        decreases keys.len() - i,
    {
        let key = keys[i];
        proof {
            lemma_next_key(keys@, i as int);
            assert(keys@.to_set().contains(key));
            assert(with_entry(before, *entry).contains_key(key));
        }
        let frame_id: u64 = match versions.get(key) {
            Some(known) => if *known >= entry.frame_id {
                *known
            } else {
                entry.frame_id
            },
            None => entry.frame_id,
        };
        versions.insert(key, frame_id);
        i += 1;
    }
    assert(keys@.take(i as int) =~= keys@);
    assert(versions@ =~= with_entry(before, *entry));
}

impl LOCALMap {
    /// Takes the frames that are old enough from the queue, and collects the voxels
    /// that they changed.
    fn release_frames(&mut self, current: u64, delay: u64) -> (r: KeyMap<u64>)
        ensures
            0 <= released(old(self).frame_index@, current, delay) <= old(self).frame_index.len(),
            final(self).frame_index@ == old(self).frame_index@.skip(
                released(old(self).frame_index@, current, delay),
            ),
            r@ == versions_upto(
                old(self).frame_index@,
                released(old(self).frame_index@, current, delay),
            ),
            final(self).voxel_map == old(self).voxel_map,
            final(self).config == old(self).config,
            final(self).next_frame_id == old(self).next_frame_id,
            final(self).pending_voxel_map == old(self).pending_voxel_map,
            final(self).surface_filter_config == old(self).surface_filter_config,
            final(self).surface_evaluation_epoch == old(self).surface_evaluation_epoch,
    {
        let mut versions: KeyMap<u64> = KeyMap::new();
        let ghost frames = self.frame_index@;
        let ghost mut k: int = 0;
        let mut more = true;
        assert(frames.skip(0) =~= frames);
        while more
            invariant
                0 <= k <= frames.len(),
                self.frame_index@ == frames.skip(k),
                versions@ == versions_upto(frames, k),
                released(frames, current, delay) == released_from(frames, current, delay, k),
                !more ==> released_from(frames, current, delay, k) == k,
                self.voxel_map == old(self).voxel_map,
                self.config == old(self).config,
                self.next_frame_id == old(self).next_frame_id,
                self.pending_voxel_map == old(self).pending_voxel_map,
                self.surface_filter_config == old(self).surface_filter_config,
                self.surface_evaluation_epoch == old(self).surface_evaluation_epoch,
            decreases frames.len() - k, (if more { 1int } else { 0 }),
        {
            let old_enough = self.frame_index.len() > 0 && current.saturating_sub(
                self.frame_index[0].frame_id,
            ) >= delay;
            if !old_enough {
                more = false;
            } else if let Some(entry) = self.frame_index.pop_front() {
                add_entry(&mut versions, &entry);
                proof {
                    assert(entry == frames[k]);
                    assert(frames.skip(k).skip(1) =~= frames.skip(k + 1));
                    k = k + 1;
                }
            }
        }
        versions
    }
}

/// The voxels of `keys` that were seen in enough frames to be judged by others, and
/// those that were not.
fn by_maturity(
    cells: &VoxelMap,
    keys: &Vec<VoxelKey>,
    config: &SurfaceFilterConfig,
) -> (r: (Vec<VoxelKey>, Vec<VoxelKey>))
    requires
        keys@.no_duplicates(),
        forall|j: int| 0 <= j < keys.len() ==> cells@.contains_key(#[trigger] keys[j]),
    ensures
        r.0.len() + r.1.len() == keys.len(),
        r.0@.no_duplicates(),
        r.1@.no_duplicates(),
        forall|key: VoxelKey| #[trigger]
            r.0@.to_set().contains(key) <==> keys@.to_set().contains(key) && !immature(
                cells@[key],
                *config,
            ),
        forall|key: VoxelKey| #[trigger]
            r.1@.to_set().contains(key) <==> keys@.to_set().contains(key) && immature(
                cells@[key],
                *config,
            ),
{
    let mut mature: Vec<VoxelKey> = Vec::new();
    let mut young: Vec<VoxelKey> = Vec::new();
    let mut i: usize = 0;
    while i < keys.len()
        invariant
            i <= keys.len(),
            keys@.no_duplicates(),
            forall|j: int| 0 <= j < keys.len() ==> cells@.contains_key(#[trigger] keys[j]),
            mature.len() + young.len() == i,
            mature@.no_duplicates(),
            young@.no_duplicates(),
            forall|key: VoxelKey| #[trigger]
                mature@.to_set().contains(key) <==> keys@.take(i as int).to_set().contains(key)
                    && !immature(cells@[key], *config),
            forall|key: VoxelKey| #[trigger]
                young@.to_set().contains(key) <==> keys@.take(i as int).to_set().contains(key)
                    && immature(cells@[key], *config),
        decreases keys.len() - i,
    {
        let key = keys[i];
        proof {
            lemma_next_key(keys@, i as int);
            assert(!mature@.to_set().contains(key));
            assert(!young@.to_set().contains(key));
        }
        if let Some(cell) = cells.get(key) {
            let ghost (mature_before, young_before) = (mature@, young@);
            if cell.observed_frames < config.min_center_observed_frames {
                young.push(key);
                proof {
                    lemma_next_key(young@, young@.len() - 1);
                    assert(young@.take(young@.len() - 1) =~= young_before);
                    assert(young@.take(young@.len() as int) =~= young@);
                }
            } else {
                mature.push(key);
                proof {
                    lemma_next_key(mature@, mature@.len() - 1);
                    assert(mature@.take(mature@.len() - 1) =~= mature_before);
                    assert(mature@.take(mature@.len() as int) =~= mature@);
                }
            }
        }
        i += 1;
    }
    assert(keys@.take(i as int) =~= keys@);
    (mature, young)
}

/// The voxels of `centers` that were seen in too few frames to be judged by others.
pub open spec fn immature_among(
    cells: Map<VoxelKey, VoxelCell>,
    centers: Set<VoxelKey>,
    config: SurfaceFilterConfig,
) -> Set<VoxelKey> {
    centers.filter(|key: VoxelKey| immature(cells[key], config))
}

/// What is counted when the voxels in `centers` are judged again.
pub open spec fn affected_stats(
    g: Arithmetic,
    cells: Map<VoxelKey, VoxelCell>,
    centers: Set<VoxelKey>,
    probes: Set<(VoxelKey, VoxelKey)>,
    config: SurfaceFilterConfig,
) -> SurfaceClassificationStats {
    SurfaceClassificationStats {
        evaluated: centers.len() as usize,
        planar: decided_as(g, cells, centers, config, SurfaceStatus::Planar).len() as usize,
        non_planar: decided_as(
            g,
            cells,
            centers,
            config,
            SurfaceStatus::NonPlanar,
        ).len() as usize,
        unknown: decided_as(g, cells, centers, config, SurfaceStatus::Unknown).len() as usize,
        skipped_unchanged_probes: saturated(probes.len() as int) as usize,
        immature_fast_path: immature_among(cells, centers, config).len() as usize,
    }
}

proof fn lemma_split_by_maturity(
    g: Arithmetic,
    cells: Map<VoxelKey, VoxelCell>,
    centers: Set<VoxelKey>,
    mature: Set<VoxelKey>,
    young: Set<VoxelKey>,
    config: SurfaceFilterConfig,
)
    requires
        centers.finite(),
        forall|key: VoxelKey| #[trigger]
            mature.contains(key) <==> centers.contains(key) && !immature(cells[key], config),
        forall|key: VoxelKey| #[trigger]
            young.contains(key) <==> centers.contains(key) && immature(cells[key], config),
    ensures
        young == immature_among(cells, centers, config),
        decided_as(g, cells, centers, config, SurfaceStatus::Planar) == decided_as(
            g,
            cells,
            mature,
            config,
            SurfaceStatus::Planar,
        ),
        decided_as(g, cells, centers, config, SurfaceStatus::NonPlanar) == decided_as(
            g,
            cells,
            mature,
            config,
            SurfaceStatus::NonPlanar,
        ),
        decided_as(g, cells, centers, config, SurfaceStatus::Unknown).len() == decided_as(
            g,
            cells,
            mature,
            config,
            SurfaceStatus::Unknown,
        ).len() + young.len(),
{
    assert(young =~= immature_among(cells, centers, config));
    assert(decided_as(g, cells, centers, config, SurfaceStatus::Planar) =~= decided_as(
        g,
        cells,
        mature,
        config,
        SurfaceStatus::Planar,
    ));
    assert(decided_as(g, cells, centers, config, SurfaceStatus::NonPlanar) =~= decided_as(
        g,
        cells,
        mature,
        config,
        SurfaceStatus::NonPlanar,
    ));
    let unknown = decided_as(g, cells, mature, config, SurfaceStatus::Unknown);
    assert(decided_as(g, cells, centers, config, SurfaceStatus::Unknown) =~= unknown.union(young));
    assert(unknown.subset_of(centers));
    assert(young.subset_of(centers));
    vstd::set_lib::lemma_set_subset_finite(centers, unknown);
    vstd::set_lib::lemma_set_subset_finite(centers, young);
    vstd::set_lib::lemma_set_disjoint_lens(unknown, young);
}

/// Whether `after` and `stats` are what judging again makes of `before`: the frames that
/// are old enough leave the queue, and the voxels that they bear on are judged by all
/// points up to now.
pub open spec fn is_delayed_judgement(
    g: Arithmetic,
    before: LOCALMap,
    delay_frames: u64,
    config: SurfaceFilterConfig,
    after: LOCALMap,
    stats: SurfaceClassificationStats,
) -> bool {
    if before.next_frame_id == 0 {
        after == before && stats == no_stats()
    } else {
        let current = (before.next_frame_id - 1) as u64;
        let epoch = epoch_for(before, config) as u64;
        let count = released(before.frame_index@, current, delay_frames);
        let versions = versions_upto(before.frame_index@, count);
        let radius = reach(config.neighbor_radius_voxels);
        let cells = before.voxel_map@;
        let centers = affected(cells, versions, radius, epoch);
        let probes = unchanged_probes(cells, versions, radius, epoch);
        &&& after.voxel_map@ == classified(g, cells, centers, config, Some(current), epoch)
        &&& after.frame_index@ == before.frame_index@.skip(count)
        &&& after.config == before.config
        &&& after.next_frame_id == before.next_frame_id
        &&& after.pending_voxel_map == before.pending_voxel_map
        &&& after.surface_filter_config == if config_known(before, config) {
            before.surface_filter_config
        } else {
            Some(config)
        }
        &&& after.surface_evaluation_epoch == epoch
        &&& stats == affected_stats(g, cells, centers, probes, config)
    }
}

impl LOCALMap {
    /// Notes of each voxel in `keys` that nothing can be said of it yet.
    fn mark_immature(&mut self, keys: &[VoxelKey], current: u64, epoch: u64)
        requires
            old(self).wf(),
            epoch == old(self).surface_evaluation_epoch,
            keys@.no_duplicates(),
            forall|j: int|
                0 <= j < keys.len() ==> old(self).voxel_map@.contains_key(#[trigger] keys[j]),
        ensures
            final(self).wf(),
            only_cells_changed(*old(self), *final(self)),
            final(self).voxel_map@.dom() == old(self).voxel_map@.dom(),
            forall|key: VoxelKey| #[trigger]
                old(self).voxel_map@.contains_key(key) ==> final(self).voxel_map@[key]
                    == if keys@.to_set().contains(key) {
                    VoxelCell {
                        surface_status: SurfaceStatus::Unknown,
                        surface_plane: None,
                        surface_evaluation_epoch: epoch,
                        surface_evaluated_through_frame_id: Some(current),
                        ..old(self).voxel_map@[key]
                    }
                } else {
                    old(self).voxel_map@[key]
                },
    {
        let ghost cells = self.voxel_map@;
        let mut k: usize = 0;
        while k < keys.len()
            invariant
                k <= keys.len(),
                old(self).wf(),
                cells == old(self).voxel_map@,
                only_cells_changed(*old(self), *self),
                keys@.no_duplicates(),
                forall|j: int| 0 <= j < keys.len() ==> cells.contains_key(#[trigger] keys[j]),
                self.voxel_map@.dom() == cells.dom(),
                forall|key: VoxelKey| #[trigger]
                    cells.contains_key(key) ==> self.voxel_map@[key] == if keys@.take(
                        k as int,
                    ).to_set().contains(key) {
                        VoxelCell {
                            surface_status: SurfaceStatus::Unknown,
                            surface_plane: None,
                            surface_evaluation_epoch: epoch,
                            surface_evaluated_through_frame_id: Some(current),
                            ..cells[key]
                        }
                    } else {
                        cells[key]
                    },
            decreases keys.len() - k,
        {
            let key = keys[k];
            proof {
                lemma_next_key(keys@, k as int);
            }
            if let Some(cell) = self.voxel_map.get(key) {
                let mut cell = *cell;
                cell.surface_status = SurfaceStatus::Unknown;
                cell.surface_plane = None;
                cell.surface_evaluation_epoch = epoch;
                cell.surface_evaluated_through_frame_id = Some(current);
                self.voxel_map.insert(key, cell);
                assert(self.voxel_map@.dom() =~= cells.dom());
            }
            k += 1;
        }
        proof {
            assert(keys@.take(k as int) =~= keys@);
            assert forall|key: VoxelKey| #[trigger] self.voxel_map@.contains_key(key) implies
                self.voxel_map@[key].sample_count == cells[key].sample_count
                && self.voxel_map@[key].observed_frames == cells[key].observed_frames
                && self.voxel_map@[key].surface_evaluation_epoch <= epoch by {
                assert(cells.contains_key(key));
            }
        }
    }

    /// Judges the voxels again that the changed voxels in `versions` bear on.
    fn classify_surface_voxels_affected_by<N: Numerics>(
        &mut self,
        n: &N,
        versions: &KeyMap<u64>,
        config: &SurfaceFilterConfig,
        current: u64,
        epoch: u64,
    ) -> (r: SurfaceClassificationStats)
        requires
            old(self).wf(),
            epoch == old(self).surface_evaluation_epoch,
        ensures
            final(self).wf(),
            only_cells_changed(*old(self), *final(self)),
            observations_kept(old(self).voxel_map@, final(self).voxel_map@),
            r.planar + r.non_planar + r.unknown == r.evaluated,
            r.immature_fast_path <= r.unknown,
            r.evaluated == affected(
                old(self).voxel_map@,
                versions@,
                reach(config.neighbor_radius_voxels),
                epoch,
            ).len(),
            forall|g: Arithmetic| #[trigger]
                computes(*n, g) ==> {
                    let cells = old(self).voxel_map@;
                    let radius = reach(config.neighbor_radius_voxels);
                    let centers = affected(cells, versions@, radius, epoch);
                    let probes = unchanged_probes(cells, versions@, radius, epoch);
                    &&& final(self).voxel_map@ == classified(
                        g,
                        cells,
                        centers,
                        *config,
                        Some(current),
                        epoch,
                    )
                    &&& r == affected_stats(g, cells, centers, probes, *config)
                },
    {
        let radius: i32 = if config.neighbor_radius_voxels < 0 {
            0
        } else {
            config.neighbor_radius_voxels
        };
        let ghost cells = self.voxel_map@;
        let (centers, skipped) = affected_centers(&self.voxel_map, versions, radius, epoch);
        let keys = centers.keys();
        proof {
            assert forall|j: int| 0 <= j < keys.len() implies cells.contains_key(
                #[trigger] keys[j],
            ) by {
                assert(keys@.to_set().contains(keys[j]));
                assert(affected(cells, versions@, radius as int, epoch).contains(keys[j]));
            }
        }
        let (mature, young) = by_maturity(&self.voxel_map, &keys, config);
        proof {
            assert forall|j: int| 0 <= j < mature.len() implies cells.contains_key(
                #[trigger] mature[j],
            ) by {
                assert(mature@.to_set().contains(mature[j]));
                let k = choose|k: int| 0 <= k < keys.len() && keys[k] == mature[j];
                assert(cells.contains_key(keys[k]));
            }
            assert forall|j: int| 0 <= j < young.len() implies cells.contains_key(
                #[trigger] young[j],
            ) by {
                assert(young@.to_set().contains(young[j]));
                let k = choose|k: int| 0 <= k < keys.len() && keys[k] == young[j];
                assert(cells.contains_key(keys[k]));
            }
        }
        let mut stats = self.classify_surface_voxels(n, &mature, config, Some(current), epoch);
        let ghost between = self.voxel_map@;
        self.mark_immature(&young, current, epoch);
        stats.evaluated = stats.evaluated + young.len();
        stats.unknown = stats.unknown + young.len();
        stats.immature_fast_path = stats.immature_fast_path + young.len();
        stats.skipped_unchanged_probes = skipped;
        proof {
            let found = affected(cells, versions@, radius as int, epoch);
            assert(keys@.to_set() == found);
            vstd::seq_lib::seq_to_set_is_finite(keys@);
            young@.unique_seq_to_set();
            assert forall|key: VoxelKey| #[trigger] cells.contains_key(key) implies
                same_observations(self.voxel_map@[key], cells[key]) by {
                assert(between.contains_key(key));
                assert(same_observations(between[key], cells[key]));
            }
            assert forall|g: Arithmetic| #[trigger] computes(*n, g) implies self.voxel_map@
                == classified(g, cells, found, *config, Some(current), epoch) && stats
                == affected_stats(
                g,
                cells,
                found,
                unchanged_probes(cells, versions@, radius as int, epoch),
                *config,
            ) by {
                lemma_split_by_maturity(
                    g,
                    cells,
                    found,
                    mature@.to_set(),
                    young@.to_set(),
                    *config,
                );
                let wanted = classified(g, cells, found, *config, Some(current), epoch);
                assert forall|key: VoxelKey| cells.contains_key(key) implies #[trigger] wanted[key]
                    == self.voxel_map@[key] by {
                    assert(between.contains_key(key));
                    assert(mature@.to_set().contains(key) || young@.to_set().contains(key)
                        <==> found.contains(key));
                }
                assert(self.voxel_map@ =~= wanted);
            }
        }
        stats
    }

    /// Judges the voxels again that frames at least `delay_frames` old bear on, by all
    /// points up to now. A voxel that was already judged by points up to such a frame,
    /// under the same configuration, is left alone.
    pub fn classify_delayed_surface_voxels<N: Numerics>(
        &mut self,
        n: &N,
        delay_frames: u64,
        filter_config: &SurfaceFilterConfig,
    ) -> (r: SurfaceClassificationStats)
        requires
            old(self).wf(),
            old(self).next_frame_id > 0 ==> epoch_for(*old(self), *filter_config) <= u64::MAX,
        ensures
            final(self).wf(),
            observations_kept(old(self).voxel_map@, final(self).voxel_map@),
            final(self).config == old(self).config,
            final(self).next_frame_id == old(self).next_frame_id,
            final(self).pending_voxel_map == old(self).pending_voxel_map,
            r.planar + r.non_planar + r.unknown == r.evaluated,
            r.immature_fast_path <= r.unknown,
            old(self).next_frame_id == 0 ==> *final(self) == *old(self) && r == no_stats(),
            old(self).next_frame_id > 0 ==> {
                let current = (old(self).next_frame_id - 1) as u64;
                let epoch = epoch_for(*old(self), *filter_config) as u64;
                let count = released(old(self).frame_index@, current, delay_frames);
                &&& final(self).frame_index@ == old(self).frame_index@.skip(count)
                &&& final(self).surface_evaluation_epoch == epoch
                &&& r.evaluated == affected(
                    old(self).voxel_map@,
                    versions_upto(old(self).frame_index@, count),
                    reach(filter_config.neighbor_radius_voxels),
                    epoch,
                ).len()
            },
            forall|g: Arithmetic| #[trigger]
                computes(*n, g) ==> is_delayed_judgement(
                    g,
                    *old(self),
                    delay_frames,
                    *filter_config,
                    *final(self),
                    r,
                ),
    {
        if self.next_frame_id == 0 {
            return SurfaceClassificationStats {
                evaluated: 0,
                planar: 0,
                non_planar: 0,
                unknown: 0,
                skipped_unchanged_probes: 0,
                immature_fast_path: 0,
            };
        }
        let current: u64 = self.next_frame_id - 1;
        let versions = self.release_frames(current, delay_frames);
        let epoch: u64 = self.enter_epoch(filter_config);
        self.classify_surface_voxels_affected_by(n, &versions, filter_config, current, epoch)
    }
}

/// A voxel that was just judged needs no other judgement because of any frame up to
/// that time, under the same configuration.
pub proof fn judged_voxels_are_not_judged_again(
    g: Arithmetic,
    cells: Map<VoxelKey, VoxelCell>,
    centers: Set<VoxelKey>,
    config: SurfaceFilterConfig,
    current: u64,
    epoch: u64,
    key: VoxelKey,
    frame_id: u64,
)
    requires
        cells.contains_key(key),
        centers.contains(key),
        frame_id <= current,
    ensures
        !needs_evaluation(
            classified(g, cells, centers, config, Some(current), epoch)[key],
            epoch,
            frame_id,
        ),
{
}

/// Under another configuration every voxel in reach of a change is judged again.
pub proof fn another_configuration_reopens_every_voxel(
    map: LOCALMap,
    config: SurfaceFilterConfig,
    key: VoxelKey,
    frame_id: u64,
)
    requires
        map.wf(),
        map.voxel_map@.contains_key(key),
        !config_known(map, config),
        epoch_for(map, config) <= u64::MAX,
    ensures
        needs_evaluation(map.voxel_map@[key], epoch_for(map, config) as u64, frame_id),
{
}

/// Judging changes no observation: the same voxels are occupied, with the same means
/// and counts.
pub proof fn judging_keeps_observations(
    g: Arithmetic,
    cells: Map<VoxelKey, VoxelCell>,
    centers: Set<VoxelKey>,
    config: SurfaceFilterConfig,
    through: Option<u64>,
    epoch: u64,
)
    ensures
        observations_kept(cells, classified(g, cells, centers, config, through, epoch)),
{
    assert(classified(g, cells, centers, config, through, epoch).dom() =~= cells.dom());
}

// ---------------------------------------------------------------------------
// What judgements are
// ---------------------------------------------------------------------------

/// A voxel that was judged in this epoch needs a new judgement exactly where something
/// changed after the frame through which it was judged; one of another epoch, or that
/// was never judged, always does.
pub proof fn voxels_are_judged_when_something_changed(
    cell: VoxelCell,
    epoch: u64,
    frame_id: u64,
)
    ensures
        cell.surface_evaluation_epoch != epoch ==> needs_evaluation(cell, epoch, frame_id),
        cell.surface_evaluated_through_frame_id is None ==> needs_evaluation(
            cell,
            epoch,
            frame_id,
        ),
        cell.surface_evaluation_epoch == epoch && (
        cell.surface_evaluated_through_frame_id matches Some(through) && frame_id <= through)
            ==> !needs_evaluation(cell, epoch, frame_id),
        cell.surface_evaluation_epoch == epoch && (
        cell.surface_evaluated_through_frame_id matches Some(through) && through < frame_id)
            ==> needs_evaluation(cell, epoch, frame_id),
{
}

/// A change affects every occupied voxel that is at most the radius away from it along each
/// axis and needs a new judgement for it, and only those.
pub proof fn changes_affect_the_voxels_around_them(
    cells: Map<VoxelKey, VoxelCell>,
    versions: Map<VoxelKey, u64>,
    radius: int,
    epoch: u64,
    center: VoxelKey,
    changed: VoxelKey,
)
    ensures
        versions.contains_key(changed) && cells.contains_key(center) && {
            &&& changed.ix - radius <= center.ix <= changed.ix + radius
            &&& changed.iy - radius <= center.iy <= changed.iy + radius
            &&& changed.iz - radius <= center.iz <= changed.iz + radius
        } && needs_evaluation(cells[center], epoch, versions[changed]) ==> affected(
            cells,
            versions,
            radius,
            epoch,
        ).contains(center),
        affected(cells, versions, radius, epoch).contains(center) ==> cells.contains_key(center)
            && exists|key: VoxelKey| #[trigger]
            versions.contains_key(key) && {
                &&& key.ix - radius <= center.ix <= key.ix + radius
                &&& key.iy - radius <= center.iy <= key.iy + radius
                &&& key.iz - radius <= center.iz <= key.iz + radius
            } && needs_evaluation(cells[center], epoch, versions[key]),
{
    if versions.contains_key(changed) {
        assert(versions.dom().contains(changed));
    }
    if affected(cells, versions, radius, epoch).contains(center) {
        let key = choose|key: VoxelKey| #[trigger]
            versions.dom().contains(key) && within(key, radius, center) && needs_evaluation(
                cells[center],
                epoch,
                versions[key],
            );
        assert(versions.contains_key(key));
    }
}

proof fn lemma_released(frames: Seq<FrameEntry>, current: u64, delay: u64, k: int)
    requires
        0 <= k <= frames.len(),
    ensures
        ({
            let count = released_from(frames, current, delay, k);
            &&& k <= count <= frames.len()
            &&& forall|i: int|
                k <= i < count ==> age(current, (#[trigger] frames[i]).frame_id) >= delay
            &&& count < frames.len() ==> age(current, frames[count].frame_id) < delay
        }),
    decreases frames.len() - k,
{
    if k < frames.len() && age(current, frames[k].frame_id) >= delay {
        lemma_released(frames, current, delay, k + 1);
    }
}

/// Frames are released from the oldest on while they are at least the delay old: each one
/// that is released is, and the first that stays is not.
pub proof fn frames_are_released_at_their_age(
    frames: Seq<FrameEntry>,
    current: u64,
    delay: u64,
    i: int,
)
    requires
        0 <= i < frames.len(),
        frames[i].frame_id <= current,
    ensures
        ({
            let count = released(frames, current, delay);
            &&& 0 <= count <= frames.len()
            &&& i < count ==> current - frames[i].frame_id >= delay
            &&& i == count ==> current - frames[i].frame_id < delay
        }),
{
    lemma_released(frames, current, delay, 0);
}

/// The version of a voxel is the latest of the frames that changed it; a voxel that none
/// changed has none.
pub proof fn versions_are_the_latest_changes(frames: Seq<FrameEntry>, k: int, key: VoxelKey)
    requires
        0 <= k <= frames.len(),
    ensures
        ({
            let versions = versions_upto(frames, k);
            &&& versions.contains_key(key) <==> exists|i: int|
                0 <= i < k && (#[trigger] frames[i]).dirty_keys@.contains_key(key)
            &&& forall|i: int|
                0 <= i < k && (#[trigger] frames[i]).dirty_keys@.contains_key(key)
                    ==> frames[i].frame_id <= versions[key]
            &&& versions.contains_key(key) ==> exists|i: int|
                0 <= i < k && (#[trigger] frames[i]).dirty_keys@.contains_key(key)
                    && frames[i].frame_id == versions[key]
        }),
    decreases k,
{
    if k > 0 {
        versions_are_the_latest_changes(frames, k - 1, key);
        let before = versions_upto(frames, k - 1);
        let now = versions_upto(frames, k);
        let last = frames[k - 1];
        assert(frames[k - 1] == last);
        if before.contains_key(key) {
            let i = choose|i: int|
                0 <= i < k - 1 && (#[trigger] frames[i]).dirty_keys@.contains_key(key)
                    && frames[i].frame_id == before[key];
            assert(frames[i].dirty_keys@.contains_key(key));
        }
    }
}

/// The epoch goes on by one where the configuration is not the one of the last judgement,
/// and stays where it is.
pub proof fn epochs_go_with_the_configuration(map: LOCALMap, config: SurfaceFilterConfig)
    ensures
        config_known(map, config) ==> epoch_for(map, config) == map.surface_evaluation_epoch,
        !config_known(map, config) ==> epoch_for(map, config) == map.surface_evaluation_epoch + 1,
        map.surface_filter_config is None ==> !config_known(map, config),
{
}

/// Judging sets the status and the plane of each chosen voxel to what its surroundings
/// say, with the epoch and the frame, and leaves every other voxel as it is. All are
/// judged by the map as it was.
pub proof fn judging_changes_the_chosen_voxels(
    g: Arithmetic,
    cells: Map<VoxelKey, VoxelCell>,
    centers: Set<VoxelKey>,
    config: SurfaceFilterConfig,
    through: Option<u64>,
    epoch: u64,
    key: VoxelKey,
)
    requires
        cells.contains_key(key),
    ensures
        ({
            let after = classified(g, cells, centers, config, through, epoch);
            &&& after.contains_key(key)
            &&& !centers.contains(key) ==> after[key] == cells[key]
            &&& centers.contains(key) ==> {
                &&& after[key].surface_status == evaluation(g, cells, key, config).status
                &&& after[key].surface_plane == evaluation(g, cells, key, config).plane
                &&& after[key].surface_evaluation_epoch == epoch
                &&& after[key].surface_evaluated_through_frame_id == through
                &&& after[key].mean == cells[key].mean
                &&& after[key].sample_count == cells[key].sample_count
            }
        }),
{
}

/// Every voxel that is judged comes out as planar, not planar or unknown: the three
/// counts add up to their number. Immature ones are among the unknown.
pub proof fn judged_voxels_have_one_status(
    g: Arithmetic,
    cells: Map<VoxelKey, VoxelCell>,
    centers: Set<VoxelKey>,
    config: SurfaceFilterConfig,
)
    requires
        centers.finite(),
    ensures
        ({
            let planar = decided_as(g, cells, centers, config, SurfaceStatus::Planar);
            let other = decided_as(g, cells, centers, config, SurfaceStatus::NonPlanar);
            let unknown = decided_as(g, cells, centers, config, SurfaceStatus::Unknown);
            &&& planar.len() + other.len() + unknown.len() == centers.len()
            &&& immature_among(cells, centers, config).subset_of(unknown)
            &&& forall|key: VoxelKey| #[trigger]
                planar.contains(key) <==> centers.contains(key) && evaluation(
                    g,
                    cells,
                    key,
                    config,
                ).status is Planar
        }),
{
    let planar = decided_as(g, cells, centers, config, SurfaceStatus::Planar);
    let other = decided_as(g, cells, centers, config, SurfaceStatus::NonPlanar);
    let unknown = decided_as(g, cells, centers, config, SurfaceStatus::Unknown);
    let both = planar.union(other);
    assert(planar.disjoint(other));
    assert(both.disjoint(unknown));
    assert(both.union(unknown) =~= centers);
    vstd::set_lib::lemma_set_disjoint_lens(planar, other);
    vstd::set_lib::lemma_set_disjoint_lens(both, unknown);
}

/// A delayed judgement lets go of the frames that are old enough, and settles what they
/// changed: no voxel around a change of theirs needs another judgement in this epoch for
/// any frame so far. What is counted as planar, not planar and unknown is what was judged.
pub proof fn delayed_judgements_settle_old_changes(
    g: Arithmetic,
    before: LOCALMap,
    delay_frames: u64,
    config: SurfaceFilterConfig,
    after: LOCALMap,
    stats: SurfaceClassificationStats,
    center: VoxelKey,
    changed: VoxelKey,
    i: int,
    frame: u64,
)
    requires
        before.next_frame_id > 0,
        epoch_for(before, config) <= u64::MAX,
        is_delayed_judgement(g, before, delay_frames, config, after, stats),
        before.voxel_map@.dom().finite(),
        before.voxel_map@.len() <= usize::MAX,
        0 <= i < before.frame_index@.len(),
        frame < before.next_frame_id,
    ensures
        ({
            let current = (before.next_frame_id - 1) as u64;
            let count = before.frame_index@.len() - after.frame_index@.len();
            let radius = reach(config.neighbor_radius_voxels);
            &&& 0 <= count <= before.frame_index@.len()
            &&& i < count ==> age(current, before.frame_index@[i].frame_id) >= delay_frames
            &&& i >= count ==> after.frame_index@[i - count] == before.frame_index@[i]
            &&& i < count && before.frame_index@[i].dirty_keys@.contains_key(changed)
                && before.voxel_map@.contains_key(center) && {
                &&& changed.ix - radius <= center.ix <= changed.ix + radius
                &&& changed.iy - radius <= center.iy <= changed.iy + radius
                &&& changed.iz - radius <= center.iz <= changed.iz + radius
            } && needs_evaluation(
                before.voxel_map@[center],
                after.surface_evaluation_epoch,
                before.frame_index@[i].frame_id,
            ) ==> !needs_evaluation(
                after.voxel_map@[center],
                after.surface_evaluation_epoch,
                frame,
            )
            &&& stats.planar + stats.non_planar + stats.unknown == stats.evaluated
            &&& stats.immature_fast_path <= stats.unknown
        }),
{
    let current = (before.next_frame_id - 1) as u64;
    let epoch = epoch_for(before, config) as u64;
    let frames = before.frame_index@;
    lemma_released(frames, current, delay_frames, 0);
    let count = released(frames, current, delay_frames);
    let versions = versions_upto(frames, count);
    let radius = reach(config.neighbor_radius_voxels);
    let cells = before.voxel_map@;
    let centers = affected(cells, versions, radius, epoch);
    assert(after.frame_index@.len() == frames.len() - count);
    if i < count && frames[i].dirty_keys@.contains_key(changed) {
        versions_are_the_latest_changes(frames, count, changed);
        changes_affect_the_voxels_around_them(cells, versions, radius, epoch, center, changed);
    }
    assert(centers.subset_of(cells.dom()));
    vstd::set_lib::lemma_set_subset_finite(cells.dom(), centers);
    vstd::set_lib::lemma_len_subset(centers, cells.dom());
    judged_voxels_have_one_status(g, cells, centers, config);
    let unknown = decided_as(g, cells, centers, config, SurfaceStatus::Unknown);
    vstd::set_lib::lemma_set_subset_finite(centers, unknown);
    vstd::set_lib::lemma_len_subset(immature_among(cells, centers, config), unknown);
}

/// What is passed over as unchanged is each pair of a change and an occupied voxel at most
/// the radius away from it that does not need a judgement for it.
pub proof fn passed_over_pairs_need_no_judgement(
    cells: Map<VoxelKey, VoxelCell>,
    versions: Map<VoxelKey, u64>,
    radius: int,
    epoch: u64,
    changed: VoxelKey,
    center: VoxelKey,
)
    ensures
        unchanged_probes(cells, versions, radius, epoch).contains((changed, center)) <==> {
            &&& versions.contains_key(changed)
            &&& cells.contains_key(center)
            &&& changed.ix - radius <= center.ix <= changed.ix + radius
            &&& changed.iy - radius <= center.iy <= changed.iy + radius
            &&& changed.iz - radius <= center.iz <= changed.iz + radius
            &&& !needs_evaluation(cells[center], epoch, versions[changed])
        },
{
}

} // verus!
