//! Voxel keys, the cube of keys around one, and maps from keys.

use rustc_hash::{FxBuildHasher, FxHashMap};
use vstd::prelude::*;

use crate::float::Float32;
use crate::numerics::{computes, Arithmetic, Numerics, Point3};

verus! {

/// The cell of the voxel grid that a point falls in.
#[derive(Clone, Copy, Debug, PartialEq, Eq, Hash, Structural)]
pub struct VoxelKey {
    pub ix: i32,
    pub iy: i32,
    pub iz: i32,
}

/// The key of `p` in a grid of cells of `voxel_size`.
pub open spec fn voxel_key_spec(g: Arithmetic, p: Point3, voxel_size: Float32) -> VoxelKey {
    VoxelKey {
        ix: (g.floor_i32)((g.quotient)(p.x, voxel_size)),
        iy: (g.floor_i32)((g.quotient)(p.y, voxel_size)),
        iz: (g.floor_i32)((g.quotient)(p.z, voxel_size)),
    }
}

pub fn voxel_key<N: Numerics>(n: &N, p: Point3, voxel_size: Float32) -> (r: VoxelKey)
    ensures
        forall|g: Arithmetic| #[trigger]
            computes(*n, g) ==> r == voxel_key_spec(g, p, voxel_size),
{
    VoxelKey {
        ix: n.floor_i32(n.quotient(p.x, voxel_size)),
        iy: n.floor_i32(n.quotient(p.y, voxel_size)),
        iz: n.floor_i32(n.quotient(p.z, voxel_size)),
    }
}

// ---------------------------------------------------------------------------
// The cube around a key
// ---------------------------------------------------------------------------

/// How many keys lie on an edge of the cube of `radius`.
pub open spec fn cube_side(radius: int) -> int {
    if radius < 0 {
        0
    } else {
        2 * radius + 1
    }
}

/// How many positions the cube of `radius` has.
pub open spec fn cube_len(radius: int) -> int {
    cube_side(radius) * cube_side(radius) * cube_side(radius)
}

/// The key at `(x, y, z)`, where there is one.
pub open spec fn key_at(x: int, y: int, z: int) -> Option<VoxelKey> {
    if i32::MIN <= x <= i32::MAX && i32::MIN <= y <= i32::MAX && i32::MIN <= z <= i32::MAX {
        Some(VoxelKey { ix: x as i32, iy: y as i32, iz: z as i32 })
    } else {
        None
    }
}

/// Position `i` of the cube around `center`: `x` runs fastest and `z` slowest.
pub open spec fn cube_key(center: VoxelKey, radius: int, i: int) -> Option<VoxelKey> {
    let side = cube_side(radius);
    key_at(
        center.ix + i % side - radius,
        center.iy + (i / side) % side - radius,
        center.iz + (i / side) / side - radius,
    )
}

/// Whether `key` is at most `radius` away from `center` along each axis.
pub open spec fn within(center: VoxelKey, radius: int, key: VoxelKey) -> bool {
    &&& -radius <= key.ix - center.ix <= radius
    &&& -radius <= key.iy - center.iy <= radius
    &&& -radius <= key.iz - center.iz <= radius
}

/// The keys in `keys` among the first `n` positions of the cube, in order.
pub open spec fn occupied_upto(
    keys: Set<VoxelKey>,
    center: VoxelKey,
    radius: int,
    n: int,
) -> Seq<VoxelKey>
    decreases n,
{
    if n <= 0 {
        Seq::empty()
    } else {
        let before = occupied_upto(keys, center, radius, n - 1);
        match cube_key(center, radius, n - 1) {
            Some(key) => if keys.contains(key) {
                before.push(key)
            } else {
                before
            },
            None => before,
        }
    }
}

/// The keys in `keys` that lie in the cube around `center`, in the cube's order.
pub open spec fn occupied(keys: Set<VoxelKey>, center: VoxelKey, radius: int) -> Seq<VoxelKey> {
    occupied_upto(keys, center, radius, cube_len(radius))
}

proof fn lemma_cube_bounds(side: int)
    requires
        0 <= side < 0x1_0000_0000,
    ensures
        0 <= side * side * side < 0x1_0000_0000_0000_0000_0000_0000,
{
    assert(0 <= side * side <= 0xffff_ffff * 0xffff_ffff) by (nonlinear_arith)
        requires
            0 <= side < 0x1_0000_0000,
    ;
    let square = side * side;
    assert(0 <= square * side <= 0xffff_ffff * 0xffff_ffff * 0xffff_ffff) by (nonlinear_arith)
        requires
            0 <= side < 0x1_0000_0000,
            0 <= square <= 0xffff_ffff * 0xffff_ffff,
    ;
}

/// A position below `side * side * side` has digits below `side`, and is
/// determined by them.
proof fn lemma_cube_digits(i: int, side: int)
    requires
        0 < side,
        0 <= i < side * side * side,
    ensures
        0 <= i % side < side,
        0 <= (i / side) % side < side,
        0 <= (i / side) / side < side,
        i == ((i / side) / side * side + (i / side) % side) * side + i % side,
{
    vstd::arithmetic::div_mod::lemma_fundamental_div_mod(i, side);
    vstd::arithmetic::div_mod::lemma_fundamental_div_mod(i / side, side);
    vstd::arithmetic::div_mod::lemma_mod_bound(i, side);
    vstd::arithmetic::div_mod::lemma_mod_bound(i / side, side);
    let (q, r) = (i / side, i % side);
    let (z, y) = (q / side, q % side);
    assert(q * side == side * q) by (nonlinear_arith);
    assert(z * side == side * z) by (nonlinear_arith);
    assert(0 <= q && 0 <= z && z < side) by (nonlinear_arith)
        requires
            0 < side,
            0 <= i < side * side * side,
            i == side * q + r,
            0 <= r < side,
            q == side * z + y,
            0 <= y < side,
    ;
}

/// The position with digits `x`, `y` and `z`.
proof fn lemma_cube_position(x: int, y: int, z: int, side: int) -> (i: int)
    requires
        0 <= x < side,
        0 <= y < side,
        0 <= z < side,
    ensures
        0 <= i < side * side * side,
        i % side == x,
        (i / side) % side == y,
        (i / side) / side == z,
{
    let q = z * side + y;
    let i = q * side + x;
    vstd::arithmetic::div_mod::lemma_fundamental_div_mod_converse(i, side, q, x);
    vstd::arithmetic::div_mod::lemma_fundamental_div_mod_converse(q, side, z, y);
    assert(0 <= i < side * side * side) by (nonlinear_arith)
        requires
            0 <= x < side,
            0 <= y < side,
            0 <= z < side,
            q == z * side + y,
            i == q * side + x,
    ;
    i
}

proof fn lemma_occupied_upto_members(
    keys: Set<VoxelKey>,
    center: VoxelKey,
    radius: int,
    n: int,
    key: VoxelKey,
)
    requires
        0 <= n <= cube_len(radius),
    ensures
        occupied_upto(keys, center, radius, n).contains(key) <==> keys.contains(key) && exists|i: int|
            0 <= i < n && #[trigger] cube_key(center, radius, i) == Some(key),
    decreases n,
{
    if n > 0 {
        lemma_occupied_upto_members(keys, center, radius, n - 1, key);
        let before = occupied_upto(keys, center, radius, n - 1);
        let now = occupied_upto(keys, center, radius, n);
        let last = cube_key(center, radius, n - 1);
        if now.contains(key) && !before.contains(key) {
            assert(last == Some(key));
        }
        if before.contains(key) {
            let j = before.index_of(key);
            assert(now[j] == key);
        }
        if keys.contains(key) && last == Some(key) {
            assert(now[before.len() as int] == key);
        }
    }
}

proof fn lemma_cube_key_injective(center: VoxelKey, radius: int, i: int, j: int)
    requires
        0 <= i < cube_len(radius),
        0 <= j < cube_len(radius),
        cube_key(center, radius, i) == cube_key(center, radius, j),
        cube_key(center, radius, i) is Some,
    ensures
        i == j,
{
    assert(cube_side(radius) > 0) by {
        if radius < 0 {
            assert(0int * 0int * 0int == 0);
        }
    }
    lemma_cube_digits(i, cube_side(radius));
    lemma_cube_digits(j, cube_side(radius));
}

proof fn lemma_occupied_upto_distinct(
    keys: Set<VoxelKey>,
    center: VoxelKey,
    radius: int,
    n: int,
)
    requires
        0 <= n <= cube_len(radius),
    ensures
        occupied_upto(keys, center, radius, n).no_duplicates(),
    decreases n,
{
    if n > 0 {
        lemma_occupied_upto_distinct(keys, center, radius, n - 1);
        let before = occupied_upto(keys, center, radius, n - 1);
        if let Some(key) = cube_key(center, radius, n - 1) {
            lemma_occupied_upto_members(keys, center, radius, n - 1, key);
            if before.contains(key) {
                let i = choose|i: int|
                    0 <= i < n - 1 && #[trigger] cube_key(center, radius, i) == Some(key);
                lemma_cube_key_injective(center, radius, i, n - 1);
            }
        }
    }
}

/// A walk over the cube meets every key of `keys` that is within `radius` of
/// `center`, no other, and none twice.
pub proof fn occupied_is_the_cube(keys: Set<VoxelKey>, center: VoxelKey, radius: int)
    ensures
        occupied(keys, center, radius).no_duplicates(),
        forall|key: VoxelKey| #[trigger]
            occupied(keys, center, radius).contains(key) <==> keys.contains(key) && within(
                center,
                radius,
                key,
            ),
{
    let side = cube_side(radius);
    assert(0 <= cube_len(radius)) by (nonlinear_arith)
        requires
            cube_len(radius) == side * side * side,
            0 <= side,
    ;
    lemma_occupied_upto_distinct(keys, center, radius, cube_len(radius));
    assert forall|key: VoxelKey| #[trigger]
        occupied(keys, center, radius).contains(key) <==> keys.contains(key) && within(
            center,
            radius,
            key,
        ) by {
        lemma_occupied_upto_members(keys, center, radius, cube_len(radius), key);
        if within(center, radius, key) {
            let i = lemma_cube_position(
                key.ix - center.ix + radius,
                key.iy - center.iy + radius,
                key.iz - center.iz + radius,
                side,
            );
            assert(cube_key(center, radius, i) == Some(key));
        }
        if exists|i: int|
            0 <= i < cube_len(radius) && #[trigger] cube_key(center, radius, i) == Some(key) {
            let i = choose|i: int|
                0 <= i < cube_len(radius) && #[trigger] cube_key(center, radius, i) == Some(key);
            assert(side > 0) by {
                if radius < 0 {
                    assert(0int * 0int * 0int == 0);
                }
            }
            lemma_cube_digits(i, side);
        }
    }
}

/// The number of positions in the cube of `radius`.
fn cube_count(radius: i32) -> (r: u128)
    ensures
        r == cube_len(radius as int),
        radius >= 0 ==> r < 0x1_0000_0000_0000_0000_0000_0000,
{
    if radius < 0 {
        assert(0int * 0int * 0int == 0);
        return 0;
    }
    let side: u128 = 2 * (radius as u128) + 1;
    proof {
        lemma_cube_bounds(side as int);
        assert(0 <= side * side <= 0xffff_ffff * 0xffff_ffff) by (nonlinear_arith)
            requires
                0 <= side < 0x1_0000_0000,
        ;
    }
    side * side * side
}

fn offset_key(center: VoxelKey, radius: i32, i: u128) -> (r: Option<VoxelKey>)
    requires
        radius >= 0,
        i < cube_len(radius as int),
    ensures
        r == cube_key(center, radius as int, i as int),
{
    let side: u128 = 2 * (radius as u128) + 1;
    proof {
        lemma_cube_digits(i as int, side as int);
    }
    let x: i64 = center.ix as i64 + (i % side) as i64 - radius as i64;
    let y: i64 = center.iy as i64 + ((i / side) % side) as i64 - radius as i64;
    let z: i64 = center.iz as i64 + ((i / side) / side) as i64 - radius as i64;
    let low: i64 = i32::MIN as i64;
    let high: i64 = i32::MAX as i64;
    if low <= x && x <= high && low <= y && y <= high && low <= z && z <= high {
        Some(VoxelKey { ix: x as i32, iy: y as i32, iz: z as i32 })
    } else {
        None
    }
}

// ---------------------------------------------------------------------------
// Maps from keys
// ---------------------------------------------------------------------------

#[verifier::external_type_specification]
#[verifier::external_body]
pub struct ExFxBuildHasher(FxBuildHasher);

/// Calls `get` of the hash map that [`rustc_hash::FxHashMap`] names: the value
/// at the key, where the map holds the key.
#[verifier::external_body]
fn fx_get<V>(map: &FxHashMap<(i32, i32, i32), V>, key: (i32, i32, i32)) -> (r: Option<&V>)
    ensures
        r == if map@.contains_key(key) { Some(&map@[key]) } else { None },
{
    map.get(&key)
}

/// Calls `insert` of the hash map that [`rustc_hash::FxHashMap`] names: the key
/// then has the value, and every other key has what it had.
#[verifier::external_body]
fn fx_insert<V>(map: &mut FxHashMap<(i32, i32, i32), V>, key: (i32, i32, i32), value: V)
    ensures
        final(map)@ == old(map)@.insert(key, value),
{
    map.insert(key, value);
}

/// Calls `remove` of the hash map that [`rustc_hash::FxHashMap`] names: the key
/// is then gone, every other key has what it had, and the value that the key had is
/// returned.
#[verifier::external_body]
fn fx_remove<V>(map: &mut FxHashMap<(i32, i32, i32), V>, key: (i32, i32, i32)) -> (r: Option<V>)
    ensures
        final(map)@ == old(map)@.remove(key),
        r == if old(map)@.contains_key(key) { Some(old(map)@[key]) } else { None },
{
    map.remove(&key)
}

/// Calls `keys` of the hash map that [`rustc_hash::FxHashMap`] names: each key of
/// the map once. Their order is not stated.
#[verifier::external_body]
fn fx_keys<V>(map: &FxHashMap<(i32, i32, i32), V>) -> (r: Vec<(i32, i32, i32)>)
    ensures
        r@.no_duplicates(),
        r@.to_set() == map@.dom(),
{
    map.keys().copied().collect()
}

/// Calls `len` of the hash map that [`rustc_hash::FxHashMap`] names: how many
/// keys the map holds.
#[verifier::external_body]
fn fx_len<V>(map: &FxHashMap<(i32, i32, i32), V>) -> (r: usize)
    ensures
        r == map@.len(),
{
    map.len()
}

/// One more key makes the set of the keys so far one key larger.
pub proof fn lemma_next_key<A>(keys: Seq<A>, i: int)
    requires
        0 <= i < keys.len(),
    ensures
        keys.take(i + 1).to_set() == keys.take(i).to_set().insert(keys[i]),
        keys.no_duplicates() ==> !keys.take(i).to_set().contains(keys[i]),
{
    let before = keys.take(i);
    let now = keys.take(i + 1);
    assert forall|key: A| now.to_set().contains(key) <==> before.to_set().insert(
        keys[i],
    ).contains(key) by {
        if now.to_set().contains(key) {
            let j = choose|j: int| 0 <= j < now.len() && now[j] == key;
            if j < i {
                assert(before[j] == key);
            }
        }
        if before.to_set().contains(key) {
            let j = choose|j: int| 0 <= j < before.len() && before[j] == key;
            assert(now[j] == key);
        }
        assert(now[i] == keys[i]);
    }
    assert(now.to_set() =~= before.to_set().insert(keys[i]));
    if keys.no_duplicates() && before.to_set().contains(keys[i]) {
        let j = choose|j: int| 0 <= j < before.len() && before[j] == keys[i];
        assert(keys[j] == keys[i]);
    }
}

pub open spec fn coordinates(key: VoxelKey) -> (i32, i32, i32) {
    (key.ix, key.iy, key.iz)
}

pub open spec fn key_of(coordinates: (i32, i32, i32)) -> VoxelKey {
    VoxelKey { ix: coordinates.0, iy: coordinates.1, iz: coordinates.2 }
}

/// A hash map from voxel keys.
pub struct KeyMap<V> {
    inner: FxHashMap<(i32, i32, i32), V>,
}

impl<V> View for KeyMap<V> {
    type V = Map<VoxelKey, V>;

    closed spec fn view(&self) -> Map<VoxelKey, V> {
        Map::new(
            |key: VoxelKey| self.inner@.contains_key(coordinates(key)),
            |key: VoxelKey| self.inner@[coordinates(key)],
        )
    }
}

impl<V> KeyMap<V> {
    #[verifier::type_invariant]
    spec fn has_finitely_many_keys(self) -> bool {
        self.inner@.dom().finite()
    }

    pub fn new() -> (r: KeyMap<V>)
        ensures
            r@ == Map::<VoxelKey, V>::empty(),
    {
        let r = KeyMap { inner: FxHashMap::default() };
        assert(r@ =~= Map::<VoxelKey, V>::empty());
        r
    }

    pub fn get(&self, key: VoxelKey) -> (r: Option<&V>)
        ensures
            r == if self@.contains_key(key) { Some(&self@[key]) } else { None },
    {
        fx_get(&self.inner, (key.ix, key.iy, key.iz))
    }

    pub fn contains_key(&self, key: VoxelKey) -> (r: bool)
        ensures
            r == self@.contains_key(key),
    {
        fx_get(&self.inner, (key.ix, key.iy, key.iz)).is_some()
    }

    pub fn insert(&mut self, key: VoxelKey, value: V)
        ensures
            final(self)@ == old(self)@.insert(key, value),
    {
        proof {
            use_type_invariant(&*self);
        }
        let mut inner: FxHashMap<(i32, i32, i32), V> = FxHashMap::default();
        std::mem::swap(&mut inner, &mut self.inner);
        fx_insert(&mut inner, (key.ix, key.iy, key.iz), value);
        self.inner = inner;
        assert(self@ =~= old(self)@.insert(key, value));
    }

    pub fn remove(&mut self, key: VoxelKey) -> (r: Option<V>)
        ensures
            final(self)@ == old(self)@.remove(key),
            r == if old(self)@.contains_key(key) { Some(old(self)@[key]) } else { None },
    {
        proof {
            use_type_invariant(&*self);
        }
        let mut inner: FxHashMap<(i32, i32, i32), V> = FxHashMap::default();
        std::mem::swap(&mut inner, &mut self.inner);
        let r = fx_remove(&mut inner, (key.ix, key.iy, key.iz));
        self.inner = inner;
        assert(self@ =~= old(self)@.remove(key));
        r
    }

    /// The keys of the map, each once, in no stated order.
    pub fn keys(&self) -> (r: Vec<VoxelKey>)
        ensures
            r@.no_duplicates(),
            r@.to_set() == self@.dom(),
            r@.len() == self@.len(),
            self@.dom().finite(),
    {
        let listed = fx_keys(&self.inner);
        let mut r: Vec<VoxelKey> = Vec::new();
        let mut i: usize = 0;
        while i < listed.len()
            invariant
                i <= listed.len(),
                r.len() == i,
                forall|j: int| 0 <= j < i ==> #[trigger] r[j] == key_of(listed[j]),
            decreases listed.len() - i,
        {
            let (ix, iy, iz) = listed[i];
            r.push(VoxelKey { ix, iy, iz });
            i += 1;
        }
        proof {
            assert(r@.no_duplicates()) by {
                assert forall|a: int, b: int| 0 <= a < r.len() && 0 <= b < r.len() && a != b implies
                    r[a] != r[b] by {
                    assert(listed[a] != listed[b]);
                }
            }
            assert forall|key: VoxelKey| r@.to_set().contains(key) <==> self@.dom().contains(key) by {
                if r@.to_set().contains(key) {
                    let j = choose|j: int| 0 <= j < r.len() && r[j] == key;
                    assert(listed@.to_set().contains(listed[j]));
                    assert(coordinates(key) == listed[j]);
                }
                if self@.dom().contains(key) {
                    assert(listed@.to_set().contains(coordinates(key)));
                    let j = choose|j: int| 0 <= j < listed.len() && listed[j] == coordinates(key);
                    assert(r[j] == key);
                }
            }
            assert(r@.to_set() =~= self@.dom());
            vstd::seq_lib::seq_to_set_is_finite(r@);
            r@.unique_seq_to_set();
        }
        r
    }

    pub fn len(&self) -> (r: usize)
        ensures
            r == self@.len(),
            self@.dom().finite(),
    {
        let r: usize = fx_len(&self.inner);
        proof {
            let listed = self.inner@.dom();
            use_type_invariant(self);
            assert(self@.dom() =~= listed.map(|c: (i32, i32, i32)| key_of(c))) by {
                assert forall|key: VoxelKey| self@.dom().contains(key) implies listed.map(
                    |c: (i32, i32, i32)| key_of(c),
                ).contains(key) by {
                    assert(key_of(coordinates(key)) == key);
                }
            }
            vstd::set_lib::lemma_map_size(listed, self@.dom(), |c: (i32, i32, i32)| key_of(c));
        }
        r
    }

    /// The keys of the map that lie in the cube around `center`, in the cube's
    /// order.
    pub fn occupied_cube(&self, center: VoxelKey, radius: i32) -> (r: Vec<VoxelKey>)
        ensures
            r@ == occupied(self@.dom(), center, radius as int),
    {
        let mut r: Vec<VoxelKey> = Vec::new();
        let count: u128 = cube_count(radius);
        let mut i: u128 = 0;
        while i < count
            invariant
                i <= count,
                count == cube_len(radius as int),
                i < count ==> radius >= 0,
                r@ == occupied_upto(self@.dom(), center, radius as int, i as int),
            decreases count - i,
        {
            if let Some(key) = offset_key(center, radius, i) {
                if self.contains_key(key) {
                    r.push(key);
                }
            }
            i += 1;
        }
        r
    }
}

// ---------------------------------------------------------------------------
// What keys are
// ---------------------------------------------------------------------------

/// Each index of a key goes by one coordinate alone: the floor of the coordinate over the
/// size. Points that agree along an axis have the same index along it.
pub proof fn keys_go_by_each_coordinate(g: Arithmetic, p: Point3, q: Point3, voxel_size: Float32)
    ensures
        ({
            let a = voxel_key_spec(g, p, voxel_size);
            let b = voxel_key_spec(g, q, voxel_size);
            let index = |c: Float32| (g.floor_i32)((g.quotient)(c, voxel_size));
            &&& a == b <==> index(p.x) == index(q.x) && index(p.y) == index(q.y) && index(p.z)
                == index(q.z)
            &&& p.x == q.x ==> a.ix == b.ix
            &&& p.y == q.y ==> a.iy == b.iy
            &&& p.z == q.z ==> a.iz == b.iz
            &&& a.ix == index(p.x) && a.iy == index(p.y) && a.iz == index(p.z)
        }),
{
}

/// The occupied keys around a center are those that differ from it by at most the radius
/// along each axis; they do not depend on which of them is the center.
pub proof fn neighbors_differ_by_the_radius(
    keys: Set<VoxelKey>,
    center: VoxelKey,
    radius: int,
    key: VoxelKey,
)
    ensures
        occupied(keys, center, radius).contains(key) <==> keys.contains(key) && {
            &&& key.ix <= center.ix + radius && center.ix <= key.ix + radius
            &&& key.iy <= center.iy + radius && center.iy <= key.iy + radius
            &&& key.iz <= center.iz + radius && center.iz <= key.iz + radius
        },
        keys.contains(key) && keys.contains(center) ==> (occupied(keys, center, radius).contains(
            key,
        ) <==> occupied(keys, key, radius).contains(center)),
{
    occupied_is_the_cube(keys, center, radius);
    occupied_is_the_cube(keys, key, radius);
}

} // verus!
