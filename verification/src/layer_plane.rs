//! Planes through the densest layer of points.

use vstd::prelude::*;

use crate::filter_config::FilterConfig;
use crate::float::{Float32, F32_HALF, F32_ONE, F32_TWO};
use crate::numerics::{computes, Arithmetic, Eigen3, Numerics, Point3};
use crate::plane::{centroid, centroid_spec, scatter, scatter_spec};
use crate::random::{first_state, sample_three_unique, three_unique, XorShift64};
use crate::ransac::beats;

verus! {

/// A fitted plane, with the eigenvalues of its points and how many there are.
#[derive(Clone, Copy, Debug, PartialEq, Eq, Structural)]
pub struct PlaneModel {
    pub center: Point3,
    pub normal: Point3,
    pub lambda_min: Float32,
    pub lambda_mid: Float32,
    pub lambda_max: Float32,
    pub inlier_count: usize,
    pub inlier_ratio: Float32,
}

/// How far `p` lies from the plane through `origin` across `normal`, on the side of
/// `normal` if positive.
pub open spec fn height(g: Arithmetic, normal: Point3, origin: Point3, p: Point3) -> Float32 {
    (g.dot)(normal, (g.vector_difference)(p, origin))
}

fn height_of<N: Numerics>(n: &N, normal: Point3, origin: Point3, p: Point3) -> (r: Float32)
    ensures
        forall|g: Arithmetic| #[trigger] computes(*n, g) ==> r == height(g, normal, origin, p),
{
    n.dot(normal, n.vector_difference(p, origin))
}

impl PlaneModel {
    pub open spec fn distance_spec(self, g: Arithmetic, point: Point3) -> Float32 {
        height(g, self.normal, self.center, point).abs_spec()
    }

    pub fn distance<N: Numerics>(&self, n: &N, point: Point3) -> (r: Float32)
        ensures
            forall|g: Arithmetic| #[trigger] computes(*n, g) ==> r == self.distance_spec(g, point),
    {
        height_of(n, self.normal, self.center, point).abs()
    }
}

// ---------------------------------------------------------------------------
// Principal components
// ---------------------------------------------------------------------------

/// The length, 1e-8, up to which a normal is none.
pub const MIN_PCA_NORMAL: u32 = 0x322b_cc77;

/// An eigenvalue and its eigenvector.
pub open spec fn eigen_pair(eigen: Eigen3, i: int) -> (Float32, Point3) {
    if i == 0 {
        (eigen.values.x, eigen.vectors.c0)
    } else if i == 1 {
        (eigen.values.y, eigen.vectors.c1)
    } else {
        (eigen.values.z, eigen.vectors.c2)
    }
}

/// The positions of the eigenvalues in increasing order, equal ones in their own order.
pub open spec fn eigen_order(values: Point3) -> (int, int, int) {
    let (x, y, z) = (values.x, values.y, values.z);
    if y.lt_spec(x) {
        if z.lt_spec(y) {
            (2, 1, 0)
        } else if z.lt_spec(x) {
            (1, 2, 0)
        } else {
            (1, 0, 2)
        }
    } else {
        if z.lt_spec(x) {
            (2, 0, 1)
        } else if z.lt_spec(y) {
            (0, 2, 1)
        } else {
            (0, 1, 2)
        }
    }
}

/// The plane of `points` by their principal components, where there is one.
pub open spec fn pca_plane(g: Arithmetic, points: Seq<Point3>) -> Option<PlaneModel> {
    if points.len() < 3 {
        None
    } else {
        let center = centroid_spec(g, points);
        let covariance = (g.matrix_divided)(
            scatter_spec(g, points, center),
            (g.from_count)(points.len() as u64),
        );
        let eigen = (g.symmetric_eigen)(covariance);
        let order = eigen_order(eigen.values);
        let (low, direction) = eigen_pair(eigen, order.0);
        let length = (g.norm)(direction);
        let zero = Float32::zero_spec();
        if !covariance.is_finite_spec() || !length.is_finite_spec() || length.le_spec(
            Float32 { bits: MIN_PCA_NORMAL },
        ) {
            None
        } else {
            Some(
                PlaneModel {
                    center,
                    normal: (g.vector_divided)(direction, length),
                    lambda_min: low.max_spec(zero),
                    lambda_mid: eigen_pair(eigen, order.1).0.max_spec(zero),
                    lambda_max: eigen_pair(eigen, order.2).0.max_spec(zero),
                    inlier_count: points.len() as usize,
                    inlier_ratio: Float32 { bits: F32_ONE },
                },
            )
        }
    }
}

fn ordered_eigen(eigen: Eigen3) -> (r: ((Float32, Point3), Float32, Float32))
    ensures
        r.0 == eigen_pair(eigen, eigen_order(eigen.values).0),
        r.1 == eigen_pair(eigen, eigen_order(eigen.values).1).0,
        r.2 == eigen_pair(eigen, eigen_order(eigen.values).2).0,
{
    let (x, y, z) = (eigen.values.x, eigen.values.y, eigen.values.z);
    let (a, b, c) = ((x, eigen.vectors.c0), (y, eigen.vectors.c1), (z, eigen.vectors.c2));
    if y.lt(x) {
        if z.lt(y) {
            (c, y, x)
        } else if z.lt(x) {
            (b, z, x)
        } else {
            (b, x, z)
        }
    } else {
        if z.lt(x) {
            (c, x, y)
        } else if z.lt(y) {
            (a, z, y)
        } else {
            (a, y, z)
        }
    }
}

/// The points at `indices`.
pub open spec fn gathered(points: Seq<Point3>, indices: Seq<usize>) -> Seq<Point3> {
    indices.map_values(|i: usize| points[i as int])
}

/// Whether all indices are below `len`.
pub open spec fn in_range(indices: Seq<usize>, len: int) -> bool {
    forall|i: int| 0 <= i < indices.len() ==> #[trigger] indices[i] < len
}

fn gather(points: &[Point3], indices: &[usize]) -> (r: Vec<Point3>)
    requires
        in_range(indices@, points.len() as int),
    ensures
        r@ == gathered(points@, indices@),
{
    let mut r: Vec<Point3> = Vec::new();
    let mut i: usize = 0;
    while i < indices.len()
        invariant
            i <= indices.len(),
            in_range(indices@, points.len() as int),
            r@ == gathered(points@, indices@).take(i as int),
        decreases indices.len() - i,
    {
        r.push(points[indices[i]]);
        i += 1;
        assert(r@ =~= gathered(points@, indices@).take(i as int));
    }
    assert(r@ =~= gathered(points@, indices@));
    r
}

fn plane_of<N: Numerics>(n: &N, points: &[Point3]) -> (r: Option<PlaneModel>)
    ensures
        forall|g: Arithmetic| #[trigger] computes(*n, g) ==> r == pca_plane(g, points@),
{
    if points.len() < 3 {
        return None;
    }
    let center = centroid(n, points);
    let covariance = n.matrix_divided(
        scatter(n, points, center),
        n.from_count(points.len() as u64),
    );
    if !covariance.is_finite() {
        return None;
    }
    let ((low, direction), middle, high) = ordered_eigen(n.symmetric_eigen(covariance));
    let length = n.norm(direction);
    if !length.is_finite() || length.le(Float32 { bits: MIN_PCA_NORMAL }) {
        return None;
    }
    let zero = Float32::zero();
    Some(
        PlaneModel {
            center,
            normal: n.vector_divided(direction, length),
            lambda_min: low.max(zero),
            lambda_mid: middle.max(zero),
            lambda_max: high.max(zero),
            inlier_count: points.len(),
            inlier_ratio: Float32 { bits: F32_ONE },
        },
    )
}

/// The plane of the points at `indices` by their principal components.
pub fn fit_plane_pca<N: Numerics>(n: &N, points: &[Point3], indices: &[usize]) -> (r: Option<
    PlaneModel,
>)
    requires
        in_range(indices@, points.len() as int),
    ensures
        indices.len() < 3 ==> r is None,
        forall|g: Arithmetic| #[trigger]
            computes(*n, g) ==> r == pca_plane(g, gathered(points@, indices@)),
{
    if indices.len() < 3 {
        return None;
    }
    plane_of(n, gather(points, indices).as_slice())
}

// ---------------------------------------------------------------------------
// Layers
// ---------------------------------------------------------------------------

/// A layer of heights: how many there are in it, and their sum.
#[derive(Clone, Copy, Debug, PartialEq, Eq, Structural)]
pub struct ResidualLayer {
    pub bin: u64,
    pub count: u64,
    pub sum: Float32,
}

/// The highest layer.
pub open spec fn last_bin(g: Arithmetic, config: FilterConfig) -> u64 {
    let width = (g.product)(Float32 { bits: F32_TWO }, config.fit_distance_threshold);
    let layers = (g.ceil_u64)((g.quotient)(width, config.residual_bin_size));
    if layers < 1 {
        1
    } else {
        layers
    }
}

/// The layer that a height falls in.
pub open spec fn bin_of(g: Arithmetic, config: FilterConfig, h: Float32) -> u64 {
    let bin = (g.floor_u64)(
        (g.quotient)((g.sum)(h, config.fit_distance_threshold), config.residual_bin_size),
    );
    if bin > last_bin(g, config) {
        last_bin(g, config)
    } else {
        bin
    }
}

/// The position of the first layer from `i` on that is not below `bin`.
pub open spec fn layer_place(layers: Seq<ResidualLayer>, bin: u64, i: int) -> int
    decreases layers.len() - i,
{
    if i >= layers.len() || layers[i].bin >= bin {
        i
    } else {
        layer_place(layers, bin, i + 1)
    }
}

/// The layers with one more height in layer `bin`.
pub open spec fn with_height(
    g: Arithmetic,
    layers: Seq<ResidualLayer>,
    bin: u64,
    h: Float32,
) -> Seq<ResidualLayer> {
    let i = layer_place(layers, bin, 0);
    if i < layers.len() && layers[i].bin == bin {
        layers.update(
            i,
            ResidualLayer {
                bin,
                count: (layers[i].count + 1) as u64,
                sum: (g.sum)(layers[i].sum, h),
            },
        )
    } else {
        layers.insert(
            i,
            ResidualLayer { bin, count: 1, sum: (g.sum)(Float32::zero_spec(), h) },
        )
    }
}

/// The layers of the heights of the first `k` points, lowest first; a height that is
/// further from zero than the fit allows is in none.
pub open spec fn layers_upto(
    g: Arithmetic,
    points: Seq<Point3>,
    origin: Point3,
    normal: Point3,
    config: FilterConfig,
    k: int,
) -> Seq<ResidualLayer>
    decreases k,
{
    if k <= 0 {
        Seq::empty()
    } else {
        let before = layers_upto(g, points, origin, normal, config, k - 1);
        let h = height(g, normal, origin, points[k - 1]);
        if config.fit_distance_threshold.lt_spec(h.abs_spec()) {
            before
        } else {
            with_height(g, before, bin_of(g, config, h), h)
        }
    }
}

/// How far the middle of a layer is from the rough plane.
pub open spec fn layer_offset(g: Arithmetic, config: FilterConfig, bin: u64) -> Float32 {
    (g.difference)(
        (g.product)(
            (g.sum)((g.from_count)(bin), Float32 { bits: F32_HALF }),
            config.residual_bin_size,
        ),
        config.fit_distance_threshold,
    ).abs_spec()
}

/// Whether `best` stays the best layer next to `other`, which is higher: it has more
/// heights, or as many and is nearer to the rough plane.
pub open spec fn stays_best(
    g: Arithmetic,
    config: FilterConfig,
    best: ResidualLayer,
    other: ResidualLayer,
) -> bool {
    best.count > other.count || (best.count == other.count && layer_offset(
        g,
        config,
        best.bin,
    ).lt_spec(layer_offset(g, config, other.bin)))
}

/// The best of the first `k` layers, for `k` of at least 1.
pub open spec fn best_layer(
    g: Arithmetic,
    config: FilterConfig,
    layers: Seq<ResidualLayer>,
    k: int,
) -> ResidualLayer
    decreases k,
{
    if k <= 1 {
        layers[0]
    } else {
        let best = best_layer(g, config, layers, k - 1);
        if stays_best(g, config, best, layers[k - 1]) {
            best
        } else {
            layers[k - 1]
        }
    }
}

/// A point of the densest layer: `origin`, moved along `normal` by the mean height in it.
pub open spec fn dominant_layer(
    g: Arithmetic,
    points: Seq<Point3>,
    origin: Point3,
    normal: Point3,
    config: FilterConfig,
) -> Option<Point3> {
    let layers = layers_upto(g, points, origin, normal, config, points.len() as int);
    if layers.len() == 0 {
        None
    } else {
        let best = best_layer(g, config, layers, layers.len() as int);
        let mean = (g.quotient)(best.sum, (g.from_count)(best.count));
        Some((g.vector_sum)(origin, (g.vector_scaled)(normal, mean)))
    }
}

/// The layer that is taken is one of the first `k`, none of them has more heights, and none
/// with as many is nearer to the rough plane, where all their distances from it are numbers.
pub proof fn the_densest_layer_is_taken(
    g: Arithmetic,
    config: FilterConfig,
    layers: Seq<ResidualLayer>,
    k: int,
    i: int,
)
    requires
        0 <= i < k <= layers.len(),
    ensures
        layers.take(k).contains(best_layer(g, config, layers, k)),
        layers[i].count <= best_layer(g, config, layers, k).count,
        layers[i].count == best_layer(g, config, layers, k).count && (forall|j: int|
            0 <= j < k ==> !layer_offset(g, config, (#[trigger] layers[j]).bin).is_nan_spec())
            ==> layer_offset(g, config, best_layer(g, config, layers, k).bin).le_spec(
            layer_offset(g, config, layers[i].bin),
        ),
    decreases k,
{
    let now = best_layer(g, config, layers, k);
    if k > 1 {
        let at = if i < k - 1 {
            i
        } else {
            0
        };
        the_densest_layer_is_taken(g, config, layers, k - 1, at);
        let before = best_layer(g, config, layers, k - 1);
        let j = layers.take(k - 1).index_of(before);
        assert(layers.take(k)[j] == before);
        assert(layers[j] == before);
    }
    assert(layers.take(k)[k - 1] == layers[k - 1]);
}

/// How many of the first `k` points have a height in layer `bin`.
pub open spec fn in_layer(
    g: Arithmetic,
    points: Seq<Point3>,
    origin: Point3,
    normal: Point3,
    config: FilterConfig,
    bin: u64,
    k: int,
) -> int
    decreases k,
{
    if k <= 0 {
        0
    } else {
        let h = height(g, normal, origin, points[k - 1]);
        let before = in_layer(g, points, origin, normal, config, bin, k - 1);
        if !config.fit_distance_threshold.lt_spec(h.abs_spec()) && bin_of(g, config, h) == bin {
            before + 1
        } else {
            before
        }
    }
}

/// Whether the layers are in increasing order.
pub open spec fn increasing(layers: Seq<ResidualLayer>) -> bool {
    forall|i: int, j: int|
        0 <= i < j < layers.len() ==> (#[trigger] layers[i]).bin < (#[trigger] layers[j]).bin
}

proof fn lemma_layer_place(layers: Seq<ResidualLayer>, bin: u64, i: int)
    requires
        0 <= i <= layers.len(),
    ensures
        i <= layer_place(layers, bin, i) <= layers.len(),
        layer_place(layers, bin, i) < layers.len() ==> layers[layer_place(layers, bin, i)].bin
            >= bin,
        forall|j: int|
            i <= j < layer_place(layers, bin, i) ==> (#[trigger] layers[j]).bin < bin,
    decreases layers.len() - i,
{
    if i < layers.len() && layers[i].bin < bin {
        lemma_layer_place(layers, bin, i + 1);
    }
}

/// The layers are those that hold a height, each once and in increasing order, and each
/// counts the heights in it.
pub proof fn layers_count_every_height(
    g: Arithmetic,
    points: Seq<Point3>,
    origin: Point3,
    normal: Point3,
    config: FilterConfig,
    k: int,
)
    requires
        0 <= k <= points.len() <= u64::MAX,
    ensures
        increasing(layers_upto(g, points, origin, normal, config, k)),
        forall|i: int|
            0 <= i < layers_upto(g, points, origin, normal, config, k).len() ==> {
                let layer = #[trigger] layers_upto(g, points, origin, normal, config, k)[i];
                &&& 1 <= layer.count <= k
                &&& layer.count == in_layer(g, points, origin, normal, config, layer.bin, k)
            },
        forall|bin: u64| #[trigger]
            in_layer(g, points, origin, normal, config, bin, k) > 0 ==> exists|i: int|
                0 <= i < layers_upto(g, points, origin, normal, config, k).len() && (
                #[trigger] layers_upto(g, points, origin, normal, config, k)[i]).bin == bin,
    decreases k,
{
    if k > 0 {
        layers_count_every_height(g, points, origin, normal, config, k - 1);
        let before = layers_upto(g, points, origin, normal, config, k - 1);
        let now = layers_upto(g, points, origin, normal, config, k);
        let h = height(g, normal, origin, points[k - 1]);
        let counted = !config.fit_distance_threshold.lt_spec(h.abs_spec());
        let bin = bin_of(g, config, h);
        let p = layer_place(before, bin, 0);
        lemma_layer_place(before, bin, 0);
        if counted {
            if p < before.len() && before[p].bin == bin {
                assert(now =~= before.update(p, now[p]));
                assert(now[p].count == before[p].count + 1);
            } else {
                assert(now =~= before.insert(p, now[p]));
                assert(forall|i: int| 0 <= i < now.len() ==> #[trigger] now[i] == if i < p {
                    before[i]
                } else if i == p {
                    now[p]
                } else {
                    before[i - 1]
                });
                assert(in_layer(g, points, origin, normal, config, bin, k - 1) == 0) by {
                    if in_layer(g, points, origin, normal, config, bin, k - 1) > 0 {
                        let i = choose|i: int|
                            0 <= i < before.len() && (#[trigger] before[i]).bin == bin;
                        if i > p {
                            assert(before[p].bin < before[i].bin);
                        }
                    } else {
                        lemma_in_layer(g, points, origin, normal, config, bin, k - 1);
                    }
                }
            }
        }
        assert forall|i: int| 0 <= i < now.len() implies {
            let layer = #[trigger] now[i];
            &&& 1 <= layer.count <= k
            &&& layer.count == in_layer(g, points, origin, normal, config, layer.bin, k)
        } by {
            if counted {
                if p < before.len() && before[p].bin == bin {
                    if i != p {
                        assert(now[i] == before[i]);
                        assert(before[i].bin != bin) by {
                            if i < p {
                                assert(before[i].bin < before[p].bin);
                            } else {
                                assert(before[p].bin < before[i].bin);
                            }
                        }
                    }
                } else {
                    if i < p {
                        assert(now[i] == before[i]);
                        assert(before[i].bin < bin);
                    } else if i > p {
                        assert(now[i] == before[i - 1]);
                        if i - 1 > p {
                            assert(before[p].bin < before[i - 1].bin);
                        }
                    }
                }
            } else {
                assert(now[i] == before[i]);
            }
        }
        assert forall|b: u64| #[trigger]
            in_layer(g, points, origin, normal, config, b, k) > 0 implies exists|i: int|
            0 <= i < now.len() && (#[trigger] now[i]).bin == b by {
            if counted && b == bin {
                assert(now[p].bin == b);
            } else {
                assert(in_layer(g, points, origin, normal, config, b, k - 1) > 0);
                let i = choose|i: int| 0 <= i < before.len() && (#[trigger] before[i]).bin == b;
                if counted && !(p < before.len() && before[p].bin == bin) && i >= p {
                    assert(now[i + 1] == before[i]);
                } else {
                    assert(now[i].bin == before[i].bin);
                }
            }
        }
        assert(increasing(now)) by {
            assert forall|i: int, j: int| 0 <= i < j < now.len() implies (#[trigger] now[i]).bin
                < (#[trigger] now[j]).bin by {
                if counted && !(p < before.len() && before[p].bin == bin) {
                    let bi = if i < p { i } else { i - 1 };
                    let bj = if j < p { j } else { j - 1 };
                    if i != p && j != p {
                        assert(before[bi].bin < before[bj].bin);
                    } else if j == p {
                        assert(before[i].bin < bin);
                    } else if bj > p {
                        assert(before[p].bin < before[bj].bin);
                    }
                } else {
                    assert(before[i].bin < before[j].bin);
                }
            }
        }
    }
}

proof fn lemma_in_layer(
    g: Arithmetic,
    points: Seq<Point3>,
    origin: Point3,
    normal: Point3,
    config: FilterConfig,
    bin: u64,
    k: int,
)
    ensures
        in_layer(g, points, origin, normal, config, bin, k) >= 0,
    decreases k,
{
    if k > 0 {
        lemma_in_layer(g, points, origin, normal, config, bin, k - 1);
    }
}

fn add_height<N: Numerics>(
    n: &N,
    layers: &mut Vec<ResidualLayer>,
    bin: u64,
    h: Float32,
    Ghost(counted): Ghost<int>,
)
    requires
        counted < u64::MAX,
        forall|i: int| 0 <= i < old(layers).len() ==> (#[trigger] old(layers)[i]).count <= counted,
    ensures
        forall|g: Arithmetic| #[trigger]
            computes(*n, g) ==> final(layers)@ == with_height(g, old(layers)@, bin, h),
        0 <= counted ==> forall|i: int|
            0 <= i < final(layers).len() ==> (#[trigger] final(layers)[i]).count <= counted + 1,
{
    let ghost before = layers@;
    let mut i: usize = 0;
    while i < layers.len() && layers[i].bin < bin
        invariant
            i <= layers.len(),
            layers@ == before,
            layer_place(before, bin, 0) == layer_place(before, bin, i as int),
        decreases layers.len() - i,
    {
        i += 1;
    }
    if i < layers.len() && layers[i].bin == bin {
        let layer = layers[i];
        let sum = n.sum(layer.sum, h);
        layers.set(i, ResidualLayer { bin, count: layer.count + 1, sum });
        proof {
            assert(forall|j: int|
                0 <= j < layers.len() ==> (#[trigger] layers[j]).count <= counted + 1) by {
                assert forall|j: int| 0 <= j < layers.len() implies (#[trigger] layers[j]).count
                    <= counted + 1 by {
                    if j != i {
                        assert(layers[j] == before[j]);
                    }
                }
            }
        }
    } else {
        let sum = n.sum(Float32::zero(), h);
        layers.insert(i, ResidualLayer { bin, count: 1, sum });
        proof {
            assert forall|j: int| 0 <= j < layers.len() && 0 <= counted implies (
            #[trigger] layers[j]).count <= counted + 1 by {
                if j < i {
                    assert(layers[j] == before[j]);
                } else if j > i {
                    assert(layers[j] == before[j - 1]);
                }
            }
        }
    }
}

fn residual_layers<N: Numerics>(
    n: &N,
    points: &[Point3],
    origin: Point3,
    normal: Point3,
    config: &FilterConfig,
) -> (r: Vec<ResidualLayer>)
    ensures
        forall|g: Arithmetic| #[trigger]
            computes(*n, g) ==> r@ == layers_upto(
                g,
                points@,
                origin,
                normal,
                *config,
                points.len() as int,
            ),
{
    let fit = config.fit_distance_threshold;
    let size = config.residual_bin_size;
    let ceiling: u64 = n.ceil_u64(n.quotient(n.product(Float32 { bits: F32_TWO }, fit), size));
    let last: u64 = if ceiling < 1 { 1 } else { ceiling };
    let mut layers: Vec<ResidualLayer> = Vec::new();
    let mut k: usize = 0;
    while k < points.len()
        invariant
            k <= points.len(),
            fit == config.fit_distance_threshold,
            size == config.residual_bin_size,
            forall|g: Arithmetic| #[trigger] computes(*n, g) ==> last == last_bin(g, *config),
            forall|i: int| 0 <= i < layers.len() ==> (#[trigger] layers[i]).count <= k,
            forall|g: Arithmetic| #[trigger]
                computes(*n, g) ==> layers@ == layers_upto(
                    g,
                    points@,
                    origin,
                    normal,
                    *config,
                    k as int,
                ),
        decreases points.len() - k,
    {
        let h = height_of(n, normal, origin, points[k]);
        if !fit.lt(h.abs()) {
            let floor: u64 = n.floor_u64(n.quotient(n.sum(h, fit), size));
            let bin: u64 = if floor > last { last } else { floor };
            assert(usize::MAX <= u64::MAX);
            add_height(n, &mut layers, bin, h, Ghost(k as int));
        }
        k += 1;
    }
    layers
}

fn layer_offset_of<N: Numerics>(n: &N, config: &FilterConfig, bin: u64) -> (r: Float32)
    ensures
        forall|g: Arithmetic| #[trigger] computes(*n, g) ==> r == layer_offset(g, *config, bin),
{
    let middle = n.sum(n.from_count(bin), Float32 { bits: F32_HALF });
    n.difference(n.product(middle, config.residual_bin_size), config.fit_distance_threshold).abs()
}

fn densest<N: Numerics>(n: &N, config: &FilterConfig, layers: &[ResidualLayer]) -> (r:
    ResidualLayer)
    requires
        layers.len() > 0,
    ensures
        forall|g: Arithmetic| #[trigger]
            computes(*n, g) ==> r == best_layer(g, *config, layers@, layers.len() as int),
{
    let mut best = layers[0];
    let mut k: usize = 1;
    while k < layers.len()
        invariant
            1 <= k <= layers.len(),
            forall|g: Arithmetic| #[trigger]
                computes(*n, g) ==> best == best_layer(g, *config, layers@, k as int),
        decreases layers.len() - k,
    {
        let other = layers[k];
        let stays: bool = if best.count == other.count {
            layer_offset_of(n, config, best.bin).lt(layer_offset_of(n, config, other.bin))
        } else {
            best.count > other.count
        };
        if !stays {
            best = other;
        }
        k += 1;
    }
    best
}

fn layer_point<N: Numerics>(
    n: &N,
    points: &[Point3],
    origin: Point3,
    normal: Point3,
    config: &FilterConfig,
) -> (r: Option<Point3>)
    ensures
        forall|g: Arithmetic| #[trigger]
            computes(*n, g) ==> r == dominant_layer(g, points@, origin, normal, *config),
{
    let layers = residual_layers(n, points, origin, normal, config);
    if layers.len() == 0 {
        return None;
    }
    let best = densest(n, config, layers.as_slice());
    let mean = n.quotient(best.sum, n.from_count(best.count));
    Some(n.vector_sum(origin, n.vector_scaled(normal, mean)))
}

/// A point of the densest layer of the points at `candidate_indices`, along the normal of
/// a rough plane.
pub fn find_dominant_residual_layer<N: Numerics>(
    n: &N,
    points: &[Point3],
    candidate_indices: &[usize],
    rough_origin: Point3,
    rough_normal: Point3,
    config: &FilterConfig,
) -> (r: Option<Point3>)
    requires
        in_range(candidate_indices@, points.len() as int),
    ensures
        forall|g: Arithmetic| #[trigger]
            computes(*n, g) ==> r == dominant_layer(
                g,
                gathered(points@, candidate_indices@),
                rough_origin,
                rough_normal,
                *config,
            ),
{
    let candidates = gather(points, candidate_indices);
    layer_point(n, candidates.as_slice(), rough_origin, rough_normal, config)
}

// ---------------------------------------------------------------------------
// Search
// ---------------------------------------------------------------------------

/// The squared length, 1e-10, up to which three points span no plane.
pub const MIN_CROSS_SQUARED: u32 = 0x2edb_e6ff;

/// The least denominator, 1e-12, of the planarity ratio.
pub const MIN_LAMBDA_MID: u32 = 0x2b8c_bccc;

/// How many of the first `k` points are within `threshold` of the plane through `origin`
/// across `normal`, and the sum of their squared distances.
pub open spec fn inliers_upto(
    g: Arithmetic,
    points: Seq<Point3>,
    origin: Point3,
    normal: Point3,
    threshold: Float32,
    k: int,
) -> (int, Float32)
    decreases k,
{
    if k <= 0 {
        (0, Float32::zero_spec())
    } else {
        let (count, error) = inliers_upto(g, points, origin, normal, threshold, k - 1);
        let distance = height(g, normal, origin, points[k - 1]).abs_spec();
        if distance.le_spec(threshold) {
            (count + 1, (g.sum)(error, (g.product)(distance, distance)))
        } else {
            (count, error)
        }
    }
}

fn count_inliers<N: Numerics>(
    n: &N,
    points: &[Point3],
    origin: Point3,
    normal: Point3,
    threshold: Float32,
) -> (r: (usize, Float32))
    ensures
        r.0 <= points.len(),
        forall|g: Arithmetic| #[trigger]
            computes(*n, g) ==> (r.0 as int, r.1) == inliers_upto(
                g,
                points@,
                origin,
                normal,
                threshold,
                points.len() as int,
            ),
{
    let mut count: usize = 0;
    let mut error = Float32::zero();
    let mut k: usize = 0;
    while k < points.len()
        invariant
            k <= points.len(),
            count <= k,
            forall|g: Arithmetic| #[trigger]
                computes(*n, g) ==> (count as int, error) == inliers_upto(
                    g,
                    points@,
                    origin,
                    normal,
                    threshold,
                    k as int,
                ),
        decreases points.len() - k,
    {
        let distance = height_of(n, normal, origin, points[k]).abs();
        if distance.le(threshold) {
            count += 1;
            error = n.sum(error, n.product(distance, distance));
        }
        k += 1;
    }
    (count, error)
}

/// The best plane so far, and the state of the generator.
pub ghost struct RoughSearch {
    pub state: u64,
    pub normal: Point3,
    pub origin: Point3,
    pub count: int,
    pub error: Float32,
}

/// One more sample: three points are drawn, and their plane is taken over if it has more
/// inliers, or as many with a smaller error.
pub open spec fn rough_step(
    g: Arithmetic,
    points: Seq<Point3>,
    config: FilterConfig,
    s: RoughSearch,
) -> RoughSearch {
    let (sample, state) = three_unique(s.state, points.len() as int);
    match sample {
        None => RoughSearch { state, ..s },
        Some((a, b, c)) => {
            let origin = points[a];
            let cross = (g.cross)(
                (g.vector_difference)(points[b], origin),
                (g.vector_difference)(points[c], origin),
            );
            let squared = (g.norm_squared)(cross);
            let normal = (g.vector_divided)(cross, (g.square_root)(squared));
            let (count, error) = inliers_upto(
                g,
                points,
                origin,
                normal,
                config.fit_distance_threshold,
                points.len() as int,
            );
            if squared.le_spec(Float32 { bits: MIN_CROSS_SQUARED }) {
                RoughSearch { state, ..s }
            } else if count > s.count || (count == s.count && error.lt_spec(s.error)) {
                RoughSearch { state, normal, origin, count, error }
            } else {
                RoughSearch { state, ..s }
            }
        },
    }
}

/// The search after `k` samples.
pub open spec fn rough_search(
    g: Arithmetic,
    points: Seq<Point3>,
    config: FilterConfig,
    seed: u64,
    k: int,
) -> RoughSearch
    decreases k,
{
    if k <= 0 {
        RoughSearch {
            state: first_state(seed),
            normal: Point3::origin_spec(),
            origin: Point3::origin_spec(),
            count: 0,
            error: Float32::infinity_spec(),
        }
    } else {
        rough_step(g, points, config, rough_search(g, points, config, seed, k - 1))
    }
}

/// More samples never lose inliers.
pub proof fn search_keeps_the_best(
    g: Arithmetic,
    points: Seq<Point3>,
    config: FilterConfig,
    seed: u64,
    j: int,
    k: int,
)
    requires
        j <= k,
    ensures
        rough_search(g, points, config, seed, j).count <= rough_search(
            g,
            points,
            config,
            seed,
            k,
        ).count,
    decreases k - j,
{
    if j < k {
        search_keeps_the_best(g, points, config, seed, j, k - 1);
    }
}

/// The point and the normal of the plane that sample `j` gives, counted from 0, unless
/// there is no sample or its points are too close to one line.
pub open spec fn sampled_plane(
    g: Arithmetic,
    points: Seq<Point3>,
    config: FilterConfig,
    seed: u64,
    j: int,
) -> Option<(Point3, Point3)> {
    let state = rough_search(g, points, config, seed, j).state;
    match three_unique(state, points.len() as int).0 {
        None => None,
        Some((a, b, c)) => {
            let cross = (g.cross)(
                (g.vector_difference)(points[b], points[a]),
                (g.vector_difference)(points[c], points[a]),
            );
            let squared = (g.norm_squared)(cross);
            if squared.le_spec(Float32 { bits: MIN_CROSS_SQUARED }) {
                None
            } else {
                Some((points[a], (g.vector_divided)(cross, (g.square_root)(squared))))
            }
        },
    }
}

/// The search keeps the best of the planes that it sampled: the plane of no sample has more
/// inliers, or as many with a smaller error.
pub proof fn no_sampled_plane_is_better(
    g: Arithmetic,
    points: Seq<Point3>,
    config: FilterConfig,
    seed: u64,
    j: int,
    k: int,
)
    requires
        0 <= j < k,
    ensures
        sampled_plane(g, points, config, seed, j) matches Some((origin, normal)) ==> {
            let fit = config.fit_distance_threshold;
            let (count, error) = inliers_upto(
                g,
                points,
                origin,
                normal,
                fit,
                points.len() as int,
            );
            let best = rough_search(g, points, config, seed, k);
            !beats(count, error, best.count, best.error)
        },
    decreases k,
{
    if j < k - 1 {
        no_sampled_plane_is_better(g, points, config, seed, j, k - 1);
    }
}

/// The counts of the search are those of its plane, which one of the samples gave; without
/// a plane they are those that any plane beats.
pub proof fn the_kept_plane_is_sampled(
    g: Arithmetic,
    points: Seq<Point3>,
    config: FilterConfig,
    seed: u64,
    k: int,
)
    requires
        0 <= k,
    ensures
        ({
            let best = rough_search(g, points, config, seed, k);
            ||| best.count == 0 && best.error == Float32::infinity_spec()
            ||| (best.count, best.error) == inliers_upto(
                g,
                points,
                best.origin,
                best.normal,
                config.fit_distance_threshold,
                points.len() as int,
            ) && exists|j: int|
                0 <= j < k && #[trigger] sampled_plane(g, points, config, seed, j) == Some(
                    (best.origin, best.normal),
                )
        }),
    decreases k,
{
    if k > 0 {
        the_kept_plane_is_sampled(g, points, config, seed, k - 1);
        let before = rough_search(g, points, config, seed, k - 1);
        let now = rough_search(g, points, config, seed, k);
        assert(now == (RoughSearch { state: now.state, ..before }) || sampled_plane(
            g,
            points,
            config,
            seed,
            k - 1,
        ) == Some((now.origin, now.normal)));
    }
}

/// Those of the first `k` points that are within `threshold` of the plane through
/// `origin` across `normal`.
pub open spec fn near_upto(
    g: Arithmetic,
    points: Seq<Point3>,
    origin: Point3,
    normal: Point3,
    threshold: Float32,
    k: int,
) -> Seq<Point3>
    decreases k,
{
    if k <= 0 {
        Seq::empty()
    } else {
        let before = near_upto(g, points, origin, normal, threshold, k - 1);
        if height(g, normal, origin, points[k - 1]).abs_spec().le_spec(threshold) {
            before.push(points[k - 1])
        } else {
            before
        }
    }
}

pub open spec fn near(
    g: Arithmetic,
    points: Seq<Point3>,
    origin: Point3,
    normal: Point3,
    threshold: Float32,
) -> Seq<Point3> {
    near_upto(g, points, origin, normal, threshold, points.len() as int)
}

fn near_points<N: Numerics>(
    n: &N,
    points: &[Point3],
    origin: Point3,
    normal: Point3,
    threshold: Float32,
) -> (r: Vec<Point3>)
    ensures
        forall|g: Arithmetic| #[trigger]
            computes(*n, g) ==> r@ == near(g, points@, origin, normal, threshold),
{
    let mut r: Vec<Point3> = Vec::new();
    let mut k: usize = 0;
    while k < points.len()
        invariant
            k <= points.len(),
            forall|g: Arithmetic| #[trigger]
                computes(*n, g) ==> r@ == near_upto(
                    g,
                    points@,
                    origin,
                    normal,
                    threshold,
                    k as int,
                ),
        decreases points.len() - k,
    {
        if height_of(n, normal, origin, points[k]).abs().le(threshold) {
            r.push(points[k]);
        }
        k += 1;
    }
    r
}

/// Whether a plane is flat enough and its points spread wide enough.
pub open spec fn is_flat(g: Arithmetic, plane: PlaneModel, config: FilterConfig) -> bool {
    let ratio = (g.quotient)(
        plane.lambda_min,
        plane.lambda_mid.max_spec(Float32 { bits: MIN_LAMBDA_MID }),
    );
    let spread = (g.square_root)(plane.lambda_mid.max_spec(Float32::zero_spec()));
    &&& ratio.is_finite_spec()
    &&& !config.max_planarity_ratio.lt_spec(ratio)
    &&& !spread.lt_spec(config.min_planar_spread)
}

/// The plane through the densest layer near the rough plane that `rough` has found: fitted
/// to the points near the layer, and again to those near the first fit.
pub open spec fn refined_plane(
    g: Arithmetic,
    points: Seq<Point3>,
    config: FilterConfig,
    rough: RoughSearch,
) -> Option<PlaneModel> {
    let ratio = (g.quotient)(
        (g.from_count)(rough.count as u64),
        (g.from_count)(points.len() as u64),
    );
    if rough.count < config.min_inliers || ratio.lt_spec(config.min_inlier_ratio) {
        None
    } else {
        match dominant_layer(g, points, rough.origin, rough.normal, config) {
            None => None,
            Some(layer) => {
                let close = near(g, points, layer, rough.normal, config.refit_distance_threshold);
                match pca_plane(g, close) {
                    Some(first) if close.len() >= config.min_inliers => {
                        let last = near(
                            g,
                            points,
                            first.center,
                            first.normal,
                            config.refit_distance_threshold,
                        );
                        match pca_plane(g, last) {
                            Some(plane) if last.len() >= config.min_inliers && is_flat(
                                g,
                                plane,
                                config,
                            ) => Some(
                                PlaneModel {
                                    inlier_count: last.len() as usize,
                                    inlier_ratio: ratio,
                                    ..plane
                                },
                            ),
                            _ => None,
                        }
                    },
                    _ => None,
                }
            },
        }
    }
}

/// The plane of `points` that a search from `seed` finds.
pub open spec fn layer_plane(
    g: Arithmetic,
    points: Seq<Point3>,
    config: FilterConfig,
    seed: u64,
) -> Option<PlaneModel> {
    if points.len() < 3 {
        None
    } else {
        refined_plane(
            g,
            points,
            config,
            rough_search(g, points, config, seed, config.max_iterations as int),
        )
    }
}

/// Whether the search `s` is at what the variables hold.
pub open spec fn stands_at(
    s: RoughSearch,
    state: u64,
    normal: Point3,
    origin: Point3,
    count: usize,
    error: Float32,
) -> bool {
    s == (RoughSearch { state, normal, origin, count: count as int, error })
}

/// A rough plane: its normal, a point of it, and how many points are near it.
struct RoughPlane {
    normal: Point3,
    origin: Point3,
    count: usize,
}

fn find_rough_plane<N: Numerics>(
    n: &N,
    points: &[Point3],
    config: &FilterConfig,
    seed: u64,
) -> (r: RoughPlane)
    requires
        points.len() >= 3,
    ensures
        forall|g: Arithmetic| #[trigger]
            computes(*n, g) ==> {
                let s = rough_search(g, points@, *config, seed, config.max_iterations as int);
                r.normal == s.normal && r.origin == s.origin && r.count == s.count
            },
{
    let mut rng = XorShift64::new(seed);
    let mut best_normal = Point3::origin();
    let mut best_origin = Point3::origin();
    let mut best_count: usize = 0;
    let mut best_error = Float32::infinity();
    let mut k: usize = 0;
    while k < config.max_iterations
        invariant
            k <= config.max_iterations,
            points.len() >= 3,
            forall|g: Arithmetic| #[trigger]
                computes(*n, g) ==> stands_at(
                    rough_search(g, points@, *config, seed, k as int),
                    rng.state,
                    best_normal,
                    best_origin,
                    best_count,
                    best_error,
                ),
        decreases config.max_iterations - k,
    {
        let ghost before = rng.state;
        let sample = sample_three_unique(&mut rng, points.len());
        if let Some((a, b, c)) = sample {
            let origin = points[a];
            let cross = n.cross(
                n.vector_difference(points[b], origin),
                n.vector_difference(points[c], origin),
            );
            let squared = n.norm_squared(cross);
            if !squared.le(Float32 { bits: MIN_CROSS_SQUARED }) {
                let normal = n.vector_divided(cross, n.square_root(squared));
                let (count, error) = count_inliers(
                    n,
                    points,
                    origin,
                    normal,
                    config.fit_distance_threshold,
                );
                if count > best_count || (count == best_count && error.lt(best_error)) {
                    best_normal = normal;
                    best_origin = origin;
                    best_count = count;
                    best_error = error;
                }
            }
        }
        k += 1;
    }
    RoughPlane { normal: best_normal, origin: best_origin, count: best_count }
}

fn flat<N: Numerics>(n: &N, plane: PlaneModel, config: &FilterConfig) -> (r: bool)
    ensures
        forall|g: Arithmetic| #[trigger] computes(*n, g) ==> r == is_flat(g, plane, *config),
{
    let ratio = n.quotient(
        plane.lambda_min,
        plane.lambda_mid.max(Float32 { bits: MIN_LAMBDA_MID }),
    );
    let spread = n.square_root(plane.lambda_mid.max(Float32::zero()));
    ratio.is_finite() && !config.max_planarity_ratio.lt(ratio) && !spread.lt(
        config.min_planar_spread,
    )
}

fn refit<N: Numerics>(
    n: &N,
    points: &[Point3],
    origin: Point3,
    normal: Point3,
    config: &FilterConfig,
) -> (r: Option<(PlaneModel, usize)>)
    ensures
        forall|g: Arithmetic| #[trigger]
            computes(*n, g) ==> {
                let close = near(g, points@, origin, normal, config.refit_distance_threshold);
                match r {
                    Some((plane, count)) => close.len() >= config.min_inliers && count
                        == close.len() && pca_plane(g, close) == Some(plane),
                    None => close.len() < config.min_inliers || pca_plane(g, close) is None,
                }
            },
{
    let close = near_points(n, points, origin, normal, config.refit_distance_threshold);
    if close.len() < config.min_inliers {
        return None;
    }
    match plane_of(n, close.as_slice()) {
        Some(plane) => Some((plane, close.len())),
        None => None,
    }
}

/// Searches the points at `candidate_indices` for a plane.
pub fn fit_plane_ransac<N: Numerics>(
    n: &N,
    points: &[Point3],
    candidate_indices: &[usize],
    config: &FilterConfig,
    seed: u64,
) -> (r: Option<PlaneModel>)
    requires
        in_range(candidate_indices@, points.len() as int),
    ensures
        candidate_indices.len() < 3 ==> r is None,
        forall|g: Arithmetic| #[trigger]
            computes(*n, g) ==> r == layer_plane(
                g,
                gathered(points@, candidate_indices@),
                *config,
                seed,
            ),
{
    if candidate_indices.len() < 3 {
        return None;
    }
    let candidates = gather(points, candidate_indices);
    let near_points = candidates.as_slice();
    let rough = find_rough_plane(n, near_points, config, seed);
    if rough.count < config.min_inliers {
        return None;
    }
    let ratio = n.quotient(
        n.from_count(rough.count as u64),
        n.from_count(near_points.len() as u64),
    );
    if ratio.lt(config.min_inlier_ratio) {
        return None;
    }
    let layer = match layer_point(n, near_points, rough.origin, rough.normal, config) {
        Some(layer) => layer,
        None => {
            return None;
        },
    };
    let first = match refit(n, near_points, layer, rough.normal, config) {
        Some((first, _)) => first,
        None => {
            return None;
        },
    };
    let (plane, count) = match refit(n, near_points, first.center, first.normal, config) {
        Some(last) => last,
        None => {
            return None;
        },
    };
    if !flat(n, plane, config) {
        return None;
    }
    Some(PlaneModel { inlier_count: count, inlier_ratio: ratio, ..plane })
}

// ---------------------------------------------------------------------------
// What heights, layers and planes are
// ---------------------------------------------------------------------------

/// A point at some way along the normal from the origin is that high, where the normal
/// times a multiple of itself is the factor; a plane is as far from it as it is high or
/// deep.
pub proof fn heights_are_ways_along_the_normal(
    g: Arithmetic,
    normal: Point3,
    origin: Point3,
    way: Float32,
    plane: PlaneModel,
)
    requires
        forall|a: Point3, b: Point3| #[trigger]
            (g.vector_difference)((g.vector_sum)(a, b), a) == b,
        (g.dot)(normal, (g.vector_scaled)(normal, way)) == way,
    ensures
        ({
            let p = (g.vector_sum)(origin, (g.vector_scaled)(normal, way));
            &&& height(g, normal, origin, p) == way
            &&& plane.normal == normal && plane.center == origin ==> plane.distance_spec(g, p)
                == way.abs_spec()
        }),
{
}

/// Fitting orders the eigenvalues, takes the direction of the smallest as the normal, at
/// length one, and counts the points. The plane goes through their centroid.
pub proof fn normals_are_across_the_least_spread(g: Arithmetic, points: Seq<Point3>)
    requires
        pca_plane(g, points) is Some,
        forall|v: Point3, s: Float32| #[trigger]
            (g.vector_scaled)((g.vector_divided)(v, s), s) == v,
    ensures
        ({
            let plane = pca_plane(g, points)->0;
            let spread = (g.matrix_divided)(
                scatter_spec(g, points, centroid_spec(g, points)),
                (g.from_count)(points.len() as u64),
            );
            let eigen = (g.symmetric_eigen)(spread);
            let (x, y, z) = (eigen.values.x, eigen.values.y, eigen.values.z);
            let (a, b, c) = (eigen.vectors.c0, eigen.vectors.c1, eigen.vectors.c2);
            let zero = Float32::zero_spec();
            &&& points.len() >= 3
            &&& plane.center == centroid_spec(g, points)
            &&& plane.inlier_count == points.len() as usize
            &&& plane.inlier_ratio == (Float32 { bits: 0x3f80_0000 })
            &&& !x.is_nan_spec() && !y.is_nan_spec() && !z.is_nan_spec() ==> {
                &&& zero.le_spec(plane.lambda_min)
                &&& plane.lambda_min.le_spec(plane.lambda_mid)
                &&& plane.lambda_mid.le_spec(plane.lambda_max)
                &&& x.le_spec(plane.lambda_max) && y.le_spec(plane.lambda_max) && z.le_spec(
                    plane.lambda_max,
                )
            }
            &&& x.lt_spec(y) && x.lt_spec(z) ==> (g.vector_scaled)(plane.normal, (g.norm)(a)) == a
            &&& y.lt_spec(x) && y.lt_spec(z) ==> (g.vector_scaled)(plane.normal, (g.norm)(b)) == b
            &&& z.lt_spec(x) && z.lt_spec(y) ==> (g.vector_scaled)(plane.normal, (g.norm)(c)) == c
            &&& zero.le_spec(x) && x.lt_spec(y) && y.lt_spec(z) ==> plane.lambda_min == x
                && plane.lambda_mid == y && plane.lambda_max == z
            &&& zero.le_spec(z) && z.lt_spec(y) && y.lt_spec(x) ==> plane.lambda_min == z
                && plane.lambda_mid == y && plane.lambda_max == x
            &&& zero.le_spec(y) && y.lt_spec(z) && z.lt_spec(x) ==> plane.lambda_min == y
                && plane.lambda_mid == z && plane.lambda_max == x
        }),
{
}

/// The points of a list of places are the points at these places, in its order.
pub proof fn gathered_points_are_those_at_the_places(
    points: Seq<Point3>,
    indices: Seq<usize>,
    i: int,
)
    requires
        0 <= i < indices.len(),
    ensures
        gathered(points, indices).len() == indices.len(),
        gathered(points, indices)[i] == points[indices[i] as int],
{
}

/// Layers are as thick as the bins: a height in the middle of a layer falls in it, the
/// lowest height in the first one, and a height above the last one in the last. How far
/// off a layer is is how far its middle is.
pub proof fn heights_fall_in_the_layer_around_them(
    g: Arithmetic,
    config: FilterConfig,
    bin: u64,
    h: Float32,
)
    requires
        forall|a: Float32, b: Float32| #[trigger] (g.sum)((g.difference)(a, b), b) == a,
        forall|a: Float32, b: Float32| #[trigger] (g.quotient)((g.product)(a, b), b) == a,
        (g.floor_u64)((g.sum)((g.from_count)(bin), Float32 { bits: 0x3f00_0000 })) == bin,
    ensures
        ({
            let middle = (g.difference)(
                (g.product)(
                    (g.sum)((g.from_count)(bin), Float32 { bits: 0x3f00_0000 }),
                    config.residual_bin_size,
                ),
                config.fit_distance_threshold,
            );
            &&& bin <= last_bin(g, config) ==> bin_of(g, config, middle) == bin
            &&& bin > last_bin(g, config) ==> bin_of(g, config, middle) == last_bin(g, config)
            &&& layer_offset(g, config, bin) == middle.abs_spec()
        }),
        bin_of(g, config, h) <= last_bin(g, config),
        1 <= last_bin(g, config),
{
}

/// The layers reach from the lowest height to the highest: as many as the bins that twice
/// the threshold takes, and at least one.
pub proof fn layers_cover_both_sides(g: Arithmetic, config: FilterConfig)
    requires
        forall|a: Float32| #[trigger]
            (g.product)(Float32 { bits: 0x4000_0000 }, a) == (g.sum)(a, a),
        forall|a: Float32| #[trigger] (g.floor_u64)(a) <= (g.ceil_u64)(a),
    ensures
        ({
            let thickness = config.residual_bin_size;
            let top = config.fit_distance_threshold;
            let count = (g.quotient)((g.sum)(top, top), thickness);
            &&& bin_of(g, config, top) == (g.floor_u64)(count)
            &&& (g.ceil_u64)(count) >= 1 ==> last_bin(g, config) == (g.ceil_u64)(count)
        }),
        (g.floor_u64)(
            (g.quotient)(
                (g.sum)(
                    config.fit_distance_threshold.neg_spec(),
                    config.fit_distance_threshold,
                ),
                config.residual_bin_size,
            ),
        ) == 0 ==> bin_of(g, config, config.fit_distance_threshold.neg_spec()) == 0,
{
}

/// A height makes the layer of its bin one longer and adds to its sum, or begins it, and
/// leaves the other layers as they are.
pub proof fn heights_are_added_to_their_layer(
    g: Arithmetic,
    layers: Seq<ResidualLayer>,
    bin: u64,
    h: Float32,
    i: int,
)
    requires
        increasing(layers),
        0 <= i < layers.len(),
        layers[i].count < u64::MAX,
    ensures
        layers[i].bin != bin ==> with_height(g, layers, bin, h).contains(layers[i]),
        layers[i].bin == bin ==> with_height(g, layers, bin, h)[i] == (ResidualLayer {
            bin,
            count: (layers[i].count + 1) as u64,
            sum: (g.sum)(layers[i].sum, h),
        }) && with_height(g, layers, bin, h).len() == layers.len(),
        (forall|j: int| 0 <= j < layers.len() ==> (#[trigger] layers[j]).bin != bin)
            ==> with_height(g, layers, bin, h).len() == layers.len() + 1 && with_height(
            g,
            layers,
            bin,
            h,
        ).contains(ResidualLayer { bin, count: 1, sum: (g.sum)(Float32::zero_spec(), h) }),
{
    lemma_layer_place(layers, bin, 0);
    let at = layer_place(layers, bin, 0);
    let after = with_height(g, layers, bin, h);
    if at < layers.len() && layers[at].bin == bin {
        if layers[i].bin != bin {
            assert(after[i] == layers[i]);
        } else if i < at {
            assert(layers[i].bin < layers[at].bin);
        } else if at < i {
            assert(layers[at].bin < layers[i].bin);
        }
    } else {
        assert(after[at] == (ResidualLayer {
            bin,
            count: 1,
            sum: (g.sum)(Float32::zero_spec(), h),
        }));
        if i < at {
            assert(after[i] == layers[i]);
        } else {
            assert(after[i + 1] == layers[i]);
            if at < i {
                assert(layers[at].bin < layers[i].bin);
            }
        }
    }
}

/// The place of the densest layer is as high over the origin as its points are in the
/// mean: that height times their number is the sum of their heights.
pub proof fn dominant_layers_are_at_their_mean_height(
    g: Arithmetic,
    points: Seq<Point3>,
    origin: Point3,
    normal: Point3,
    config: FilterConfig,
)
    requires
        dominant_layer(g, points, origin, normal, config) is Some,
        forall|a: Point3, b: Point3| #[trigger]
            (g.vector_difference)((g.vector_sum)(a, b), a) == b,
        forall|s: Float32| (g.dot)(normal, #[trigger] (g.vector_scaled)(normal, s)) == s,
        forall|a: Float32, b: Float32| #[trigger] (g.product)((g.quotient)(a, b), b) == a,
    ensures
        ({
            let layers = layers_upto(g, points, origin, normal, config, points.len() as int);
            let best = best_layer(g, config, layers, layers.len() as int);
            let place = dominant_layer(g, points, origin, normal, config)->0;
            (g.product)((g.dot)(normal, (g.vector_difference)(place, origin)), (g.from_count)(best.count))
                == best.sum
        }),
{
}

/// The points near a plane are those that are no farther from it than the threshold, in
/// their order, and as many are counted.
pub proof fn near_points_are_counted(
    g: Arithmetic,
    points: Seq<Point3>,
    origin: Point3,
    normal: Point3,
    threshold: Float32,
    k: int,
    p: Point3,
)
    requires
        0 <= k <= points.len(),
    ensures
        near_upto(g, points, origin, normal, threshold, k).len() == inliers_upto(
            g,
            points,
            origin,
            normal,
            threshold,
            k,
        ).0,
        near_upto(g, points, origin, normal, threshold, k).contains(p) <==> exists|i: int|
            0 <= i < k && (#[trigger] points[i]) == p && (g.dot)(
                normal,
                (g.vector_difference)(p, origin),
            ).abs_spec().le_spec(threshold),
    decreases k,
{
    if k > 0 {
        near_points_are_counted(g, points, origin, normal, threshold, k - 1, p);
        let before = near_upto(g, points, origin, normal, threshold, k - 1);
        let now = near_upto(g, points, origin, normal, threshold, k);
        let last = points[k - 1];
        if height(g, normal, origin, last).abs_spec().le_spec(threshold) {
            assert(now == before.push(last));
            assert(now[now.len() - 1] == last);
            if before.contains(p) {
                let j = before.index_of(p);
                assert(now[j] == p);
            }
            if now.contains(p) && p != last {
                let j = now.index_of(p);
                assert(before[j] == p);
            }
        }
    }
}

/// A near point adds the square of its distance to the error, and any other nothing.
pub proof fn errors_add_up_squared_distances(
    g: Arithmetic,
    points: Seq<Point3>,
    origin: Point3,
    normal: Point3,
    threshold: Float32,
    k: int,
)
    requires
        0 <= k < points.len(),
    ensures
        ({
            let (count, error) = inliers_upto(g, points, origin, normal, threshold, k);
            let next = inliers_upto(g, points, origin, normal, threshold, k + 1);
            let away = (g.dot)(normal, (g.vector_difference)(points[k], origin)).abs_spec();
            &&& away.le_spec(threshold) ==> next == (
                count + 1,
                (g.sum)(error, (g.product)(away, away)),
            )
            &&& !away.le_spec(threshold) ==> next == (count, error)
        }),
        inliers_upto(g, points, origin, normal, threshold, 0) == (0int, Float32::zero_spec()),
{
}

/// Planes are flat where they are thin and wide: the smallest eigenvalue is at most the
/// given share of the next one, and the square of the least spread is not above it.
pub proof fn flat_planes_are_thin_and_wide(
    g: Arithmetic,
    plane: PlaneModel,
    config: FilterConfig,
)
    requires
        forall|a: Float32, b: Float32| #[trigger] (g.product)((g.quotient)(a, b), b) == a,
        (Float32 { bits: 0x2b8c_bccc }).le_spec(plane.lambda_mid),
    ensures
        is_flat(g, plane, config) ==> exists|share: Float32|
            share.is_finite_spec() && !config.max_planarity_ratio.lt_spec(share) && #[trigger] (
            g.product)(share, plane.lambda_mid) == plane.lambda_min,
        ({
            let share = (g.quotient)(plane.lambda_min, plane.lambda_mid);
            is_flat(g, plane, config) <==> share.is_finite_spec()
                && !config.max_planarity_ratio.lt_spec(share) && !(g.square_root)(
                plane.lambda_mid,
            ).lt_spec(config.min_planar_spread)
        }),
{
    let share = (g.quotient)(plane.lambda_min, plane.lambda_mid);
    assert((g.product)(share, plane.lambda_mid) == plane.lambda_min);
}

/// A refined plane is flat, is fitted to at least the least number of points near the
/// plane that was fitted to the points near the densest layer, and comes of a search that
/// found enough of them; its share is theirs among all points.
pub proof fn refined_planes_are_fitted_twice(
    g: Arithmetic,
    points: Seq<Point3>,
    config: FilterConfig,
    rough: RoughSearch,
)
    requires
        forall|a: Float32, b: Float32| #[trigger] (g.product)((g.quotient)(a, b), b) == a,
    ensures
        refined_plane(g, points, config, rough) matches Some(plane) ==> {
            let layer = dominant_layer(g, points, rough.origin, rough.normal, config)->0;
            let close = near(g, points, layer, rough.normal, config.refit_distance_threshold);
            let first = pca_plane(g, close)->0;
            let last = near(
                g,
                points,
                first.center,
                first.normal,
                config.refit_distance_threshold,
            );
            &&& rough.count >= config.min_inliers
            &&& close.len() >= config.min_inliers
            &&& last.len() >= config.min_inliers
            &&& plane.inlier_count == last.len() as usize
            &&& plane.center == centroid_spec(g, last)
            &&& plane.normal == (pca_plane(g, last)->0).normal
            &&& plane.lambda_min == (pca_plane(g, last)->0).lambda_min
            &&& plane.lambda_mid == (pca_plane(g, last)->0).lambda_mid
            &&& plane.lambda_max == (pca_plane(g, last)->0).lambda_max
            &&& is_flat(g, plane, config)
            &&& (g.product)(plane.inlier_ratio, (g.from_count)(points.len() as u64)) == (
            g.from_count)(rough.count as u64)
            &&& !plane.inlier_ratio.lt_spec(config.min_inlier_ratio)
        },
{
}

/// A plane is fitted to three points or more where their covariance is finite and the
/// direction of the least spread is a finite one with a length.
pub proof fn planes_are_fitted_where_there_is_a_direction(g: Arithmetic, points: Seq<Point3>)
    ensures
        ({
            let spread = (g.matrix_divided)(
                scatter_spec(g, points, centroid_spec(g, points)),
                (g.from_count)(points.len() as u64),
            );
            let eigen = (g.symmetric_eigen)(spread);
            let least = eigen_pair(eigen, eigen_order(eigen.values).0).1;
            let length = (g.norm)(least);
            pca_plane(g, points) is Some <==> points.len() >= 3 && spread.is_finite_spec()
                && length.is_finite_spec() && (Float32 { bits: 0x322b_cc77 }).lt_spec(length)
        }),
{
}

} // verus!
