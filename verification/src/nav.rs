//! Deterministic navigation over voxel authority: the walkable-cell
//! projection, and breadth-first path queries over it.

use vstd::prelude::*;
use crate::fnv::{fnv_bytes, fnv_offset, feed_u64, feed_i64, le_i64, le_u64, lemma_fnv_concat, FNV_OFFSET};
use crate::text::{dec_digits, hex16, int_text, push_dec, push_hex16, push_int};

verus! {

/// Integer voxel coordinate.
#[derive(Debug, Clone, Copy, PartialEq, Eq, Structural)]
pub struct VoxelCoord {
    pub x: i64,
    pub y: i64,
    pub z: i64,
}

impl VoxelCoord {
    pub fn new(x: i64, y: i64, z: i64) -> (c: Self)
        ensures
            c == (VoxelCoord { x, y, z }),
    {
        VoxelCoord { x, y, z }
    }
}

/// Lexicographic (x, y, z) order of coordinates.
pub open spec fn coord_lt(a: VoxelCoord, b: VoxelCoord) -> bool {
    a.x < b.x || (a.x == b.x && (a.y < b.y || (a.y == b.y && a.z < b.z)))
}

/// Lexicographic (x, y, z) comparison of coordinates.
pub fn coord_less(a: VoxelCoord, b: VoxelCoord) -> (r: bool)
    ensures
        r == coord_lt(a, b),
{
    a.x < b.x || (a.x == b.x && (a.y < b.y || (a.y == b.y && a.z < b.z)))
}

/// The coordinates of a voxel listing.
pub open spec fn coord_keys(cells: Seq<(VoxelCoord, bool)>) -> Seq<VoxelCoord> {
    cells.map_values(|e: (VoxelCoord, bool)| e.0)
}

/// Strictly increasing in coordinate order (so free of duplicates).
pub open spec fn strictly_sorted(s: Seq<VoxelCoord>) -> bool {
    forall|i: int, j: int| 0 <= i < j < s.len() ==> coord_lt(#[trigger] s[i], #[trigger] s[j])
}

/// Position of `c` in a strictly sorted vector, by binary search.
pub fn sorted_index_of(cells: &Vec<VoxelCoord>, c: VoxelCoord) -> (r: Option<usize>)
    requires
        strictly_sorted(cells@),
    ensures
        match r {
            Some(i) => i < cells@.len() && cells@[i as int] == c,
            None => !cells@.contains(c),
        },
{
    let mut lo: usize = 0;
    let mut hi: usize = cells.len();
    while lo < hi
        invariant
            0 <= lo <= hi <= cells@.len(),
            strictly_sorted(cells@),
            forall|i: int| 0 <= i < lo ==> coord_lt(#[trigger] cells@[i], c),
            forall|i: int| hi <= i < cells@.len() ==> coord_lt(c, #[trigger] cells@[i]),
        decreases hi - lo,
    {
        let mid = lo + (hi - lo) / 2;
        let m = cells[mid];
        if m == c {
            return Some(mid);
        } else if coord_less(m, c) {
            lo = mid + 1;
        } else {
            hi = mid;
        }
    }
    proof {
        if cells@.contains(c) {
            let i = choose|i: int| 0 <= i < cells@.len() && cells@[i] == c;
            assert(coord_lt(cells@[i], c) || coord_lt(c, cells@[i]));
        }
    }
    None
}

/// The bytes hashed for one coordinate: x, y, z as little-endian `i64`.
pub open spec fn coord_bytes(c: VoxelCoord) -> Seq<u8> {
    le_i64(c.x) + le_i64(c.y) + le_i64(c.z)
}

/// The coordinate bytes of a sequence, in order.
pub open spec fn coords_bytes(s: Seq<VoxelCoord>) -> Seq<u8>
    decreases s.len(),
{
    if s.len() == 0 {
        Seq::empty()
    } else {
        coords_bytes(s.drop_last()) + coord_bytes(s.last())
    }
}

/// FNV-1a over the element count (little-endian `u64`) and every coordinate.
pub open spec fn coords_hash(s: Seq<VoxelCoord>) -> u64 {
    fnv_bytes(FNV_OFFSET, le_u64(s.len() as u64) + coords_bytes(s))
}

/// Hash a coordinate list: its length, then every coordinate in order.
pub fn hash_coords(cells: &[VoxelCoord]) -> (h: u64)
    ensures
        h == coords_hash(cells@),
{
    let mut h = fnv_offset();
    feed_u64(&mut h, cells.len() as u64);
    let ghost head = le_u64(cells@.len() as u64);
    let mut i: usize = 0;
    while i < cells.len()
        invariant
            i <= cells@.len(),
            head == le_u64(cells@.len() as u64),
            h == fnv_bytes(FNV_OFFSET, head + coords_bytes(cells@.take(i as int))),
        decreases cells@.len() - i,
    {
        let c = cells[i];
        let ghost prefix = head + coords_bytes(cells@.take(i as int));
        feed_i64(&mut h, c.x);
        feed_i64(&mut h, c.y);
        feed_i64(&mut h, c.z);
        proof {
            lemma_fnv_concat(FNV_OFFSET, prefix, le_i64(c.x));
            lemma_fnv_concat(FNV_OFFSET, prefix + le_i64(c.x), le_i64(c.y));
            lemma_fnv_concat(FNV_OFFSET, prefix + le_i64(c.x) + le_i64(c.y), le_i64(c.z));
            assert(cells@.take(i + 1).drop_last() =~= cells@.take(i as int));
            assert(prefix + le_i64(c.x) + le_i64(c.y) + le_i64(c.z) =~= head + coords_bytes(
                cells@.take(i + 1),
            ));
        }
        i = i + 1;
    }
    assert(cells@.take(i as int) =~= cells@);
    h
}

/// The resident voxels of a world with their solidity, strictly sorted by
/// coordinate. Voxels outside resident chunks are absent and count as empty.
pub struct VoxelOccupancy {
    cells: Vec<(VoxelCoord, bool)>,
}

impl VoxelOccupancy {
    /// The resident voxels, in coordinate order.
    pub closed spec fn cells(&self) -> Seq<(VoxelCoord, bool)> {
        self.cells@
    }

    pub closed spec fn well_formed(&self) -> bool {
        strictly_sorted(self.cells@.map_values(|e: (VoxelCoord, bool)| e.0))
    }

    /// Whether the voxel at `c` is resident and solid.
    pub open spec fn solid_at(&self, c: VoxelCoord) -> bool {
        exists|i: int| 0 <= i < self.cells().len() && self.cells()[i].0 == c && self.cells()[i].1
    }

    /// Accept a resident-voxel listing that is strictly sorted by coordinate.
    pub fn from_sorted_cells(cells: Vec<(VoxelCoord, bool)>) -> (r: Option<Self>)
        ensures
            strictly_sorted(cells@.map_values(|e: (VoxelCoord, bool)| e.0)) <==> r is Some,
            r matches Some(o) ==> o.cells() == cells@ && o.well_formed(),
    {
        let ghost keys = cells@.map_values(|e: (VoxelCoord, bool)| e.0);
        let mut i: usize = 1;
        if cells.len() == 0 {
            assert(strictly_sorted(keys));
            return Some(VoxelOccupancy { cells });
        }
        while i < cells.len()
            invariant
                1 <= i <= cells@.len(),
                keys == cells@.map_values(|e: (VoxelCoord, bool)| e.0),
                strictly_sorted(keys.take(i as int)),
            decreases cells@.len() - i,
        {
            if !coord_less(cells[i - 1].0, cells[i].0) {
                assert(!coord_lt(keys[i - 1], keys[i as int]));
                return None;
            }
            assert(strictly_sorted(keys.take(i + 1))) by {
                assert forall|a: int, b: int| 0 <= a < b < i + 1 implies coord_lt(
                    #[trigger] keys.take(i + 1)[a],
                    #[trigger] keys.take(i + 1)[b],
                ) by {
                    if b == i {
                        if a < i - 1 {
                            assert(coord_lt(keys.take(i as int)[a], keys.take(i as int)[i - 1]));
                        }
                    } else {
                        assert(coord_lt(keys.take(i as int)[a], keys.take(i as int)[b]));
                    }
                }
            }
            i = i + 1;
        }
        assert(keys.take(i as int) =~= keys);
        Some(VoxelOccupancy { cells })
    }

    /// Accept a resident-voxel listing in any order: sorted by coordinate,
    /// refused when a coordinate is listed twice.
    pub fn from_cells(cells: Vec<(VoxelCoord, bool)>) -> (r: Option<Self>)
        ensures
            r is Some <==> coord_keys(cells@).no_duplicates(),
            r matches Some(o) ==> o.well_formed() && o.cells().to_multiset() == cells@.to_multiset(),
    {
        let ghost input = cells@;
        let mut src = cells;
        let mut out: Vec<(VoxelCoord, bool)> = Vec::new();
        proof {
            broadcast use vstd::seq_lib::group_to_multiset_ensures;
            assert(coord_keys(out@) =~= Seq::<VoxelCoord>::empty());
            assert(out@.to_multiset().add(src@.to_multiset()) =~= input.to_multiset());
            assert(coord_keys(out@).to_multiset().add(coord_keys(src@).to_multiset()) =~= coord_keys(input).to_multiset());
        }
        while src.len() > 0
            invariant
                input == cells@,
                strictly_sorted(coord_keys(out@)),
                out@.to_multiset().add(src@.to_multiset()) == input.to_multiset(),
                coord_keys(out@).to_multiset().add(coord_keys(src@).to_multiset()) == coord_keys(input).to_multiset(),
            decreases src@.len(),
        {
            let ghost src0 = src@;
            let ghost out0 = out@;
            let ghost k0 = coord_keys(out@);
            let x = src.pop().unwrap();
            proof {
                assert(src0 =~= src@.push(x));
                assert(coord_keys(src0) =~= coord_keys(src@).push(x.0));
                vstd::seq_lib::to_multiset_build(src@, x);
                vstd::seq_lib::to_multiset_build(coord_keys(src@), x.0);
            }
            let mut p: usize = 0;
            while p < out.len() && coord_less(out[p].0, x.0)
                invariant
                    p <= out@.len(),
                    out0 == out@,
                    k0 == coord_keys(out@),
                    forall|t: int| 0 <= t < p ==> coord_lt(#[trigger] k0[t], x.0),
                decreases out@.len() - p,
            {
                assert(k0[p as int] == out@[p as int].0);
                p = p + 1;
            }
            if p < out.len() && out[p].0 == x.0 {
                proof {
                    broadcast use vstd::seq_lib::group_to_multiset_ensures;
                    assert(k0[p as int] == x.0);
                    assert(k0.to_multiset().count(x.0) >= 1) by {
                        assert(k0.contains(x.0));
                    }
                    let all = coord_keys(input);
                    assert(coord_keys(src0).contains(x.0)) by {
                        assert(coord_keys(src0)[src0.len() - 1] == x.0);
                    }
                    assert(coord_keys(src0).to_multiset().count(x.0) >= 1);
                    assert(k0.to_multiset().add(coord_keys(src0).to_multiset()) == all.to_multiset());
                    assert(all.to_multiset().count(x.0) >= 2);
                    assert(!all.no_duplicates()) by {
                        if all.no_duplicates() {
                            all.lemma_multiset_has_no_duplicates();
                            assert(all.to_multiset().contains(x.0));
                            assert(all.to_multiset().count(x.0) == 1);
                        }
                    }
                    assert(input == cells@);
                }
                return None;
            }
            proof {
                if p < out@.len() {
                    assert(k0[p as int] == out@[p as int].0);
                    assert(!coord_lt(k0[p as int], x.0) && k0[p as int] != x.0);
                }
            }
            out.insert(p, x);
            proof {
                broadcast use vstd::seq_lib::group_to_multiset_ensures;
                let k = coord_keys(out@);
                assert(out@ =~= out0.insert(p as int, x));
                assert(k =~= k0.insert(p as int, x.0));
                vstd::seq_lib::to_multiset_insert(out0, p as int, x);
                vstd::seq_lib::to_multiset_insert(k0, p as int, x.0);
                assert forall|i: int, j: int| 0 <= i < j < k.len() implies coord_lt(#[trigger] k[i], #[trigger] k[j]) by {
                    if j < p {
                        assert(k[i] == k0[i] && k[j] == k0[j]);
                    } else if j == p {
                        assert(k[i] == k0[i]);
                    } else if i == p {
                        assert(k[j] == k0[j - 1]);
                        if j - 1 > p {
                            assert(coord_lt(k0[p as int], k0[j - 1]));
                        }
                    } else if i < p {
                        assert(k[i] == k0[i] && k[j] == k0[j - 1]);
                        if j - 1 > p {
                            assert(coord_lt(k0[p as int], k0[j - 1]));
                        }
                    } else {
                        assert(k[i] == k0[i - 1] && k[j] == k0[j - 1]);
                    }
                }
                assert(out@.to_multiset().add(src@.to_multiset()) =~= input.to_multiset());
                assert(k.to_multiset().add(coord_keys(src@).to_multiset()) =~= coord_keys(input).to_multiset());
            }
        }
        proof {
            broadcast use vstd::seq_lib::group_to_multiset_ensures;
            assert(src@ =~= Seq::<(VoxelCoord, bool)>::empty());
            assert(coord_keys(src@) =~= Seq::<VoxelCoord>::empty());
            assert(out@.to_multiset() =~= input.to_multiset());
            let k = coord_keys(out@);
            assert(k.to_multiset() =~= coord_keys(input).to_multiset());
            assert(k.no_duplicates()) by {
                assert forall|i: int, j: int| 0 <= i < k.len() && 0 <= j < k.len() && i != j implies k[i] != k[j] by {
                    if i < j {
                        assert(coord_lt(k[i], k[j]));
                    } else {
                        assert(coord_lt(k[j], k[i]));
                    }
                }
            }
            k.lemma_multiset_has_no_duplicates();
            coord_keys(input).lemma_multiset_has_no_duplicates_conv();
        }
        Some(VoxelOccupancy { cells: out })
    }

    /// Whether the voxel at `c` is resident and solid.
    pub fn is_solid(&self, c: VoxelCoord) -> (b: bool)
        requires
            self.well_formed(),
        ensures
            b == self.solid_at(c),
    {
        let ghost keys = self.cells@.map_values(|e: (VoxelCoord, bool)| e.0);
        let mut lo: usize = 0;
        let mut hi: usize = self.cells.len();
        while lo < hi
            invariant
                0 <= lo <= hi <= self.cells@.len(),
                keys == self.cells@.map_values(|e: (VoxelCoord, bool)| e.0),
                strictly_sorted(keys),
                forall|i: int| 0 <= i < lo ==> coord_lt(#[trigger] keys[i], c),
                forall|i: int| hi <= i < keys.len() ==> coord_lt(c, #[trigger] keys[i]),
            decreases hi - lo,
        {
            let mid = lo + (hi - lo) / 2;
            let (m, solid) = self.cells[mid];
            assert(keys[mid as int] == m);
            if m == c {
                proof {
                    assert(self.cells()[mid as int].0 == c);
                    assert(self.cells()[mid as int].1 == solid);
                    if !solid {
                        assert forall|i: int|
                            0 <= i < self.cells().len() && self.cells()[i].0 == c implies !self.cells()[i].1 by {
                            assert(keys[i] == c);
                            if i < mid {
                                assert(coord_lt(keys[i], keys[mid as int]));
                            } else if i > mid {
                                assert(coord_lt(keys[mid as int], keys[i]));
                            }
                        }
                    }
                }
                return solid;
            } else if coord_less(m, c) {
                lo = mid + 1;
            } else {
                hi = mid;
            }
        }
        proof {
            assert forall|i: int| 0 <= i < self.cells().len() implies self.cells()[i].0 != c by {
                assert(keys[i] == self.cells()[i].0);
            }
        }
        false
    }
}

/// Configuration for deriving walkable nav cells from voxel authority.
#[derive(Debug, Clone, Copy, PartialEq, Eq, Structural)]
pub struct NavProjectionConfig {
    /// Number of empty vertical cells required for an agent to stand.
    pub agent_height_voxels: u32,
    /// Whether the cell immediately below the agent must be solid.
    pub require_solid_floor: bool,
}

impl Default for NavProjectionConfig {
    fn default() -> (c: Self)
        ensures
            c == (NavProjectionConfig { agent_height_voxels: 2, require_solid_floor: true }),
    {
        NavProjectionConfig { agent_height_voxels: 2, require_solid_floor: true }
    }
}

/// An agent can stand at `c`: a solid floor below (when required) and
/// `agent_height_voxels` cells of headroom starting at `c`.
pub open spec fn walkable_cell(world: &VoxelOccupancy, c: VoxelCoord, config: NavProjectionConfig) -> bool {
    &&& config.require_solid_floor ==> world.solid_at(VoxelCoord { x: c.x, y: (c.y - 1) as i64, z: c.z })
    &&& forall|dy: int| 0 <= dy < config.agent_height_voxels ==> !#[trigger] world.solid_at(
        VoxelCoord { x: c.x, y: (c.y + dy) as i64, z: c.z },
    )
}

/// The vertical probes of the walkable test stay inside `i64` for every
/// non-solid resident voxel.
pub open spec fn probes_in_range(world: &VoxelOccupancy, config: NavProjectionConfig) -> bool {
    forall|i: int|
        0 <= i < world.cells().len() && !world.cells()[i].1 ==> {
            &&& config.require_solid_floor ==> world.cells()[i].0.y > i64::MIN
            &&& world.cells()[i].0.y + config.agent_height_voxels - 1 <= i64::MAX
        }
}

impl VoxelOccupancy {
    /// Whether the walkable test of every non-solid resident voxel stays
    /// inside `i64` (see `probes_in_range`).
    pub fn probes_fit(&self, config: NavProjectionConfig) -> (r: bool)
        ensures
            r == probes_in_range(self, config),
    {
        let mut i: usize = 0;
        while i < self.cells.len()
            invariant
                i <= self.cells@.len(),
                forall|k: int|
                    0 <= k < i && !self.cells()[k].1 ==> {
                        &&& config.require_solid_floor ==> self.cells()[k].0.y > i64::MIN
                        &&& self.cells()[k].0.y + config.agent_height_voxels - 1 <= i64::MAX
                    },
            decreases self.cells@.len() - i,
        {
            let (c, solid) = self.cells[i];
            assert(self.cells()[i as int] == (c, solid));
            if !solid {
                if config.require_solid_floor && c.y == i64::MIN {
                    return false;
                }
                if config.agent_height_voxels > 0 && c.y > i64::MAX - (config.agent_height_voxels - 1) as i64 {
                    return false;
                }
            }
            i = i + 1;
        }
        true
    }
}

} // verus!

verus! {

/// The walkable cells among a resident-voxel listing, in listing order.
pub open spec fn walkable_among(
    world: &VoxelOccupancy,
    config: NavProjectionConfig,
    cells: Seq<(VoxelCoord, bool)>,
) -> Seq<VoxelCoord>
    decreases cells.len(),
{
    if cells.len() == 0 {
        Seq::empty()
    } else {
        let rest = walkable_among(world, config, cells.drop_last());
        if !cells.last().1 && walkable_cell(world, cells.last().0, config) {
            rest.push(cells.last().0)
        } else {
            rest
        }
    }
}

/// The walkable cells of a world: its resident non-solid voxels where an
/// agent can stand, in coordinate order.
pub open spec fn world_walkable(world: &VoxelOccupancy, config: NavProjectionConfig) -> Seq<VoxelCoord> {
    walkable_among(world, config, world.cells())
}

/// Whether an agent can stand at `c`.
fn is_walkable_cell(world: &VoxelOccupancy, coord: VoxelCoord, config: NavProjectionConfig) -> (b: bool)
    requires
        world.well_formed(),
        config.require_solid_floor ==> coord.y > i64::MIN,
        coord.y + config.agent_height_voxels - 1 <= i64::MAX,
    ensures
        b == walkable_cell(world, coord, config),
{
    if config.require_solid_floor && !world.is_solid(VoxelCoord::new(coord.x, coord.y - 1, coord.z)) {
        return false;
    }
    let mut dy: u32 = 0;
    while dy < config.agent_height_voxels
        invariant
            world.well_formed(),
            dy <= config.agent_height_voxels,
            coord.y + config.agent_height_voxels - 1 <= i64::MAX,
            forall|d: int| 0 <= d < dy ==> !#[trigger] world.solid_at(
                VoxelCoord { x: coord.x, y: (coord.y + d) as i64, z: coord.z },
            ),
        decreases config.agent_height_voxels - dy,
    {
        let check = VoxelCoord::new(coord.x, coord.y + dy as i64, coord.z);
        if world.is_solid(check) {
            return false;
        }
        dy = dy + 1;
    }
    true
}

/// Why a nav projection or query failed.
#[derive(Debug, Clone, Copy, PartialEq, Eq, Structural)]
pub enum NavError {
    InvalidAgentHeight,
    InvalidQueryBudget,
    StartNotWalkable { start: VoxelCoord },
    GoalNotWalkable { goal: VoxelCoord },
}

impl NavError {
    pub open spec fn label_text(self) -> Seq<char> {
        match self {
            NavError::InvalidAgentHeight => "invalidAgentHeight"@,
            NavError::InvalidQueryBudget => "invalidQueryBudget"@,
            NavError::StartNotWalkable { .. } => "startNotWalkable"@,
            NavError::GoalNotWalkable { .. } => "goalNotWalkable"@,
        }
    }

    pub fn label(self) -> (s: &'static str)
        ensures
            s@ == self.label_text(),
    {
        match self {
            NavError::InvalidAgentHeight => "invalidAgentHeight",
            NavError::InvalidQueryBudget => "invalidQueryBudget",
            NavError::StartNotWalkable { .. } => "startNotWalkable",
            NavError::GoalNotWalkable { .. } => "goalNotWalkable",
        }
    }
}

/// Read-only navigation projection: the walkable cells in coordinate order
/// and their hash.
pub struct NavProjection {
    walkable: Vec<VoxelCoord>,
    projection_hash: u64,
}

impl NavProjection {
    #[verifier::type_invariant]
    spec fn inv(&self) -> bool {
        &&& strictly_sorted(self.walkable@)
        &&& self.projection_hash == coords_hash(self.walkable@)
    }

    /// The walkable cells, in coordinate order.
    pub closed spec fn cells(&self) -> Seq<VoxelCoord> {
        self.walkable@
    }

    pub fn walkable_len(&self) -> (n: usize)
        ensures
            n == self.cells().len(),
    {
        self.walkable.len()
    }

    /// FNV-1a over the number of walkable cells and every cell in order.
    pub fn projection_hash(&self) -> (h: u64)
        ensures
            h == coords_hash(self.cells()),
    {
        proof {
            use_type_invariant(self);
        }
        self.projection_hash
    }

    pub fn is_walkable(&self, coord: VoxelCoord) -> (b: bool)
        ensures
            b == self.cells().contains(coord),
    {
        proof {
            use_type_invariant(self);
        }
        sorted_index_of(&self.walkable, coord).is_some()
    }

    /// The walkable cells, in coordinate order.
    pub fn walkable_cells(&self) -> (v: Vec<VoxelCoord>)
        ensures
            v@ == self.cells(),
    {
        self.walkable.clone()
    }

    /// Whether every walkable cell can step to its four neighbours without
    /// leaving `i64` (see `cells_steppable`).
    pub fn steppable(&self) -> (r: bool)
        ensures
            r == cells_steppable(self.cells()),
    {
        let mut i: usize = 0;
        while i < self.walkable.len()
            invariant
                i <= self.walkable@.len(),
                forall|k: int| 0 <= k < i ==> steps_in_range(#[trigger] self.walkable@[k]),
            decreases self.walkable@.len() - i,
        {
            let c = self.walkable[i];
            if c.x == i64::MIN || c.x == i64::MAX || c.z == i64::MIN || c.z == i64::MAX {
                return false;
            }
            i = i + 1;
        }
        true
    }

    /// The same projection with `coord` no longer walkable, re-hashed.
    pub fn without_walkable(self, coord: VoxelCoord) -> (r: Self)
        ensures
            forall|c: VoxelCoord| r.cells().contains(c) <==> (self.cells().contains(c) && c != coord),
    {
        proof {
            use_type_invariant(&self);
        }
        let mut kept: Vec<VoxelCoord> = Vec::new();
        let mut i: usize = 0;
        while i < self.walkable.len()
            invariant
                i <= self.walkable@.len(),
                strictly_sorted(self.walkable@),
                strictly_sorted(kept@),
                forall|t: int| 0 <= t < kept@.len() ==> exists|j: int| 0 <= j < i && self.walkable@[j] == #[trigger] kept@[t],
                forall|c: VoxelCoord| kept@.contains(c) <==> (self.walkable@.take(i as int).contains(c) && c != coord),
            decreases self.walkable@.len() - i,
        {
            let c = self.walkable[i];
            let ghost prev = kept@;
            if c != coord {
                kept.push(c);
                proof {
                    assert forall|a: int, b: int| 0 <= a < b < kept@.len() implies coord_lt(
                        #[trigger] kept@[a],
                        #[trigger] kept@[b],
                    ) by {
                        if b == kept@.len() - 1 {
                            let j = choose|j: int| 0 <= j < i && self.walkable@[j] == prev[a];
                            assert(coord_lt(self.walkable@[j], self.walkable@[i as int]));
                        } else {
                            assert(coord_lt(prev[a], prev[b]));
                        }
                    }
                    assert forall|t: int| 0 <= t < kept@.len() implies exists|j: int| 0 <= j < i + 1 && self.walkable@[j] == #[trigger] kept@[t] by {
                        if t == kept@.len() - 1 {
                            assert(self.walkable@[i as int] == kept@[t]);
                        } else {
                            assert(prev[t] == kept@[t]);
                            let j = choose|j: int| 0 <= j < i && self.walkable@[j] == prev[t];
                        }
                    }
                }
            } else {
                proof {
                    assert forall|t: int| 0 <= t < kept@.len() implies exists|j: int| 0 <= j < i + 1 && self.walkable@[j] == #[trigger] kept@[t] by {
                        let j = choose|j: int| 0 <= j < i && self.walkable@[j] == prev[t];
                    }
                }
            }
            proof {
                assert(self.walkable@.take(i + 1) =~= self.walkable@.take(i as int).push(c));
                assert forall|x: VoxelCoord| kept@.contains(x) <==> (self.walkable@.take(i + 1).contains(x) && x != coord) by {
                    if kept@.contains(x) && !prev.contains(x) {
                        assert(x == c);
                        assert(self.walkable@.take(i + 1)[i as int] == x);
                    }
                    if self.walkable@.take(i + 1).contains(x) && x != coord {
                        let w = self.walkable@.take(i + 1);
                        let k = choose|k: int| 0 <= k < w.len() && w[k] == x;
                        if k < i {
                            assert(self.walkable@.take(i as int)[k] == x);
                        } else {
                            assert(kept@[kept@.len() - 1] == x);
                        }
                    }
                    if prev.contains(x) {
                        let k = choose|k: int| 0 <= k < prev.len() && prev[k] == x;
                        assert(kept@[k] == x);
                    }
                }
            }
            i = i + 1;
        }
        assert(self.walkable@.take(i as int) =~= self.walkable@);
        let projection_hash = hash_coords(kept.as_slice());
        NavProjection { walkable: kept, projection_hash }
    }
}

/// Build the read-only nav projection of a world: every resident, non-solid
/// voxel where an agent can stand, in coordinate order, with its hash.
pub fn build_nav_projection(world: &VoxelOccupancy, config: NavProjectionConfig) -> (r: Result<
    NavProjection,
    NavError,
>)
    requires
        world.well_formed(),
        config.agent_height_voxels > 0 ==> probes_in_range(world, config),
    ensures
        config.agent_height_voxels == 0 ==> r == Err::<NavProjection, _>(NavError::InvalidAgentHeight),
        config.agent_height_voxels > 0 ==> r is Ok && r->Ok_0.cells() == world_walkable(world, config),
{
    if config.agent_height_voxels == 0 {
        return Err(NavError::InvalidAgentHeight);
    }
    let ghost keys = world.cells().map_values(|e: (VoxelCoord, bool)| e.0);
    let mut walkable: Vec<VoxelCoord> = Vec::new();
    let mut i: usize = 0;
    while i < world.cells.len()
        invariant
            i <= world.cells@.len(),
            world.well_formed(),
            probes_in_range(world, config),
            keys == world.cells().map_values(|e: (VoxelCoord, bool)| e.0),
            strictly_sorted(keys),
            walkable@ == walkable_among(world, config, world.cells().take(i as int)),
            strictly_sorted(walkable@),
            forall|t: int| 0 <= t < walkable@.len() ==> exists|j: int| 0 <= j < i && keys[j] == #[trigger] walkable@[t],
        decreases world.cells@.len() - i,
    {
        let (coord, solid) = world.cells[i];
        proof {
            assert(world.cells().take(i + 1).drop_last() =~= world.cells().take(i as int));
            assert(world.cells().take(i + 1).last() == world.cells()[i as int]);
            assert(keys[i as int] == coord);
        }
        let ghost prev = walkable@;
        if !solid && is_walkable_cell(world, coord, config) {
            walkable.push(coord);
            proof {
                assert forall|a: int, b: int| 0 <= a < b < walkable@.len() implies coord_lt(
                    #[trigger] walkable@[a],
                    #[trigger] walkable@[b],
                ) by {
                    if b == walkable@.len() - 1 {
                        let j = choose|j: int| 0 <= j < i && keys[j] == prev[a];
                        assert(coord_lt(keys[j], keys[i as int]));
                    } else {
                        assert(coord_lt(prev[a], prev[b]));
                    }
                }
                assert forall|t: int| 0 <= t < walkable@.len() implies exists|j: int| 0 <= j < i + 1 && keys[j] == #[trigger] walkable@[t] by {
                    if t < walkable@.len() - 1 {
                        assert(prev[t] == walkable@[t]);
                        let j = choose|j: int| 0 <= j < i && keys[j] == prev[t];
                    } else {
                        assert(keys[i as int] == walkable@[t]);
                    }
                }
            }
        } else {
            proof {
                assert forall|t: int| 0 <= t < walkable@.len() implies exists|j: int| 0 <= j < i + 1 && keys[j] == #[trigger] walkable@[t] by {
                    let j = choose|j: int| 0 <= j < i && keys[j] == prev[t];
                }
            }
        }
        i = i + 1;
    }
    assert(world.cells().take(i as int) =~= world.cells());
    let projection_hash = hash_coords(walkable.as_slice());
    Ok(NavProjection { walkable, projection_hash })
}

} // verus!

verus! {

/// Path query over an existing nav projection.
#[derive(Debug, Clone, Copy, PartialEq, Eq, Structural)]
pub struct NavPathQuery {
    pub start: VoxelCoord,
    pub goal: VoxelCoord,
    pub max_visited: usize,
}

#[derive(Debug, Clone, Copy, PartialEq, Eq, Structural)]
pub enum NavPathOutcome {
    Reached,
    NoPath,
}

/// Deterministic path readout.
#[derive(Debug, Clone, PartialEq, Eq)]
pub struct NavPathReadout {
    pub outcome: NavPathOutcome,
    pub visited: usize,
    pub path: Vec<VoxelCoord>,
    pub path_hash: u64,
}

/// `b` is one of the four horizontal neighbours of `a` (same height, one
/// step along x or z).
pub open spec fn adjacent(a: VoxelCoord, b: VoxelCoord) -> bool {
    &&& b.y == a.y
    &&& (b.z == a.z && (b.x == a.x + 1 || b.x == a.x - 1)) || (b.x == a.x && (b.z == a.z + 1 || b.z
        == a.z - 1))
}

/// The `k`-th neighbour of `c` in query order: +x, +z, -x, -z.
pub open spec fn neighbor(c: VoxelCoord, k: int) -> VoxelCoord {
    if k == 0 {
        VoxelCoord { x: (c.x + 1) as i64, y: c.y, z: c.z }
    } else if k == 1 {
        VoxelCoord { x: c.x, y: c.y, z: (c.z + 1) as i64 }
    } else if k == 2 {
        VoxelCoord { x: (c.x - 1) as i64, y: c.y, z: c.z }
    } else {
        VoxelCoord { x: c.x, y: c.y, z: (c.z - 1) as i64 }
    }
}

/// Neighbour coordinates of `c` stay inside `i64`.
pub open spec fn steps_in_range(c: VoxelCoord) -> bool {
    i64::MIN < c.x < i64::MAX && i64::MIN < c.z < i64::MAX
}

/// Every walkable cell can step to each of its neighbours without overflow.
pub open spec fn cells_steppable(cells: Seq<VoxelCoord>) -> bool {
    forall|i: int| 0 <= i < cells.len() ==> steps_in_range(#[trigger] cells[i])
}

/// `path` walks from `start` to `goal` through walkable cells, one
/// horizontal step at a time.
pub open spec fn is_walk_path(
    cells: Seq<VoxelCoord>,
    path: Seq<VoxelCoord>,
    start: VoxelCoord,
    goal: VoxelCoord,
) -> bool {
    &&& path.len() > 0
    &&& path[0] == start
    &&& path.last() == goal
    &&& forall|i: int| 0 <= i < path.len() ==> cells.contains(#[trigger] path[i])
    &&& forall|i: int| 0 <= i < path.len() - 1 ==> adjacent(#[trigger] path[i], path[i + 1])
}

proof fn lemma_neighbor_adjacent(c: VoxelCoord, k: int)
    requires
        steps_in_range(c),
        0 <= k < 4,
    ensures
        adjacent(c, neighbor(c, k)),
{
}

proof fn lemma_adjacent_is_neighbor(a: VoxelCoord, b: VoxelCoord)
    requires
        steps_in_range(a),
        adjacent(a, b),
    ensures
        exists|k: int| 0 <= k < 4 && b == #[trigger] neighbor(a, k),
{
    if b.z == a.z && b.x == a.x + 1 {
        assert(b == neighbor(a, 0));
    } else if b.x == a.x && b.z == a.z + 1 {
        assert(b == neighbor(a, 1));
    } else if b.z == a.z && b.x == a.x - 1 {
        assert(b == neighbor(a, 2));
    } else {
        assert(b == neighbor(a, 3));
    }
}

/// The four neighbours of `coord` in query order: +x, +z, -x, -z.
fn nav_neighbors(coord: VoxelCoord) -> (r: [VoxelCoord; 4])
    requires
        steps_in_range(coord),
    ensures
        forall|k: int| 0 <= k < 4 ==> r@[k] == #[trigger] neighbor(coord, k),
{
    let r = [
        VoxelCoord::new(coord.x + 1, coord.y, coord.z),
        VoxelCoord::new(coord.x, coord.y, coord.z + 1),
        VoxelCoord::new(coord.x - 1, coord.y, coord.z),
        VoxelCoord::new(coord.x, coord.y, coord.z - 1),
    ];
    r
}

/// A duplicate-free list of indices below `n` that misses `x` is shorter than `n`.
proof fn lemma_distinct_below(s: Seq<usize>, n: nat, x: usize)
    requires
        s.no_duplicates(),
        forall|i: int| 0 <= i < s.len() ==> s[i] < n,
        x < n,
        !s.contains(x),
    ensures
        s.len() < n,
{
    let t = s.map_values(|v: usize| v as int);
    assert(t.no_duplicates()) by {
        assert forall|i: int, j: int| 0 <= i < t.len() && 0 <= j < t.len() && i != j implies t[i]
            != t[j] by {
            assert(s[i] != s[j]);
        }
    }
    t.unique_seq_to_set();
    let r = vstd::set_lib::set_int_range(0, n as int).remove(x as int);
    vstd::set_lib::lemma_int_range(0, n as int);
    assert(t.to_set().subset_of(r)) by {
        assert forall|v: int| t.to_set().contains(v) implies r.contains(v) by {
            let i = choose|i: int| 0 <= i < t.len() && t[i] == v;
            assert(s[i] < n);
            assert(s[i] != x);
        }
    }
    vstd::set_lib::lemma_len_subset(t.to_set(), r);
}

/// In a strictly sorted sequence, equal elements sit at the same index.
proof fn lemma_sorted_index_unique(cells: Seq<VoxelCoord>, a: int, b: int)
    requires
        strictly_sorted(cells),
        0 <= a < cells.len(),
        0 <= b < cells.len(),
        cells[a] == cells[b],
    ensures
        a == b,
{
    if a < b {
        assert(coord_lt(cells[a], cells[b]));
    } else if b < a {
        assert(coord_lt(cells[b], cells[a]));
    }
}

/// When every visited cell has all its walkable neighbours visited, every
/// cell of a walk from a visited start is visited.
proof fn lemma_walk_stays_visited(
    cells: Seq<VoxelCoord>,
    visited: Seq<bool>,
    path: Seq<VoxelCoord>,
    start: VoxelCoord,
    goal: VoxelCoord,
    i: int,
)
    requires
        strictly_sorted(cells),
        visited.len() == cells.len(),
        is_walk_path(cells, path, start, goal),
        forall|j: int| 0 <= j < cells.len() && cells[j] == start ==> visited[j],
        forall|a: int, b: int|
            0 <= a < cells.len() && 0 <= b < cells.len() && visited[a] && adjacent(
                #[trigger] cells[a],
                #[trigger] cells[b],
            ) ==> visited[b],
        0 <= i < path.len(),
    ensures
        forall|j: int| 0 <= j < cells.len() && cells[j] == path[i] ==> visited[j],
    decreases i,
{
    if i > 0 {
        lemma_walk_stays_visited(cells, visited, path, start, goal, i - 1);
        assert(adjacent(path[i - 1], path[i]));
        assert(cells.contains(path[i - 1]));
        let a = choose|a: int| 0 <= a < cells.len() && cells[a] == path[i - 1];
        assert forall|j: int| 0 <= j < cells.len() && cells[j] == path[i] implies visited[j] by {
            assert(adjacent(cells[a], cells[j]));
        }
    }
}

/// The search state of a breadth-first query from cell `si` towards cell
/// `gi`: visited flags, parent links, ghost depths and the FIFO queue.
#[verifier::opaque]
pub open spec fn bfs_ok(
    cells: Seq<VoxelCoord>,
    si: int,
    gi: int,
    visited: Seq<bool>,
    parent: Seq<usize>,
    dist: Seq<int>,
    queue: Seq<usize>,
) -> bool {
    let n = cells.len();
    &&& n <= usize::MAX
    &&& 0 <= si < n
    &&& 0 <= gi < n
    &&& si != gi
    &&& visited.len() == n
    &&& parent.len() == n
    &&& dist.len() == n
    &&& queue.no_duplicates()
    &&& forall|k: int| 0 <= k < queue.len() ==> #[trigger] queue[k] < n
    &&& forall|j: int| 0 <= j < n ==> (#[trigger] visited[j] <==> queue.contains(j as usize))
    &&& visited[si]
    &&& !visited[gi]
    &&& dist[si] == 0
    &&& forall|j: int| 0 <= j < n ==> #[trigger] dist[j] >= 0
    &&& forall|j: int|
        0 <= j < n && #[trigger] visited[j] && j != si ==> {
            &&& parent[j] < n
            &&& visited[parent[j] as int]
            &&& adjacent(cells[parent[j] as int], cells[j])
            &&& dist[j] == dist[parent[j] as int] + 1
        }
}

/// Every neighbour of the first `h` queued cells has been visited.
pub open spec fn bfs_closed(cells: Seq<VoxelCoord>, visited: Seq<bool>, queue: Seq<usize>, h: int) -> bool {
    forall|t: int, j: int|
        0 <= t < h && 0 <= j < cells.len() && adjacent(
            cells[#[trigger] queue[t] as int],
            #[trigger] cells[j],
        ) ==> visited[j]
}

proof fn lemma_bfs_facts(
    cells: Seq<VoxelCoord>,
    si: int,
    gi: int,
    visited: Seq<bool>,
    parent: Seq<usize>,
    dist: Seq<int>,
    queue: Seq<usize>,
)
    requires
        bfs_ok(cells, si, gi, visited, parent, dist, queue),
    ensures
        visited.len() == cells.len(),
        parent.len() == cells.len(),
        dist.len() == cells.len(),
        forall|k: int| 0 <= k < queue.len() ==> #[trigger] queue[k] < cells.len(),
        queue.len() < cells.len(),
        forall|k: int| 0 <= k < queue.len() ==> visited[#[trigger] queue[k] as int],
        0 <= si < cells.len(),
        0 <= gi < cells.len(),
        si != gi,
{
    reveal(bfs_ok);
    assert(!queue.contains(gi as usize));
    lemma_distinct_below(queue, cells.len(), gi as usize);
    assert forall|k: int| 0 <= k < queue.len() implies visited[#[trigger] queue[k] as int] by {
        assert(queue.contains(queue[k]));
    }
}

/// In a finished search every neighbour of a visited cell is visited.
proof fn lemma_bfs_closed_visited(
    cells: Seq<VoxelCoord>,
    si: int,
    gi: int,
    visited: Seq<bool>,
    parent: Seq<usize>,
    dist: Seq<int>,
    queue: Seq<usize>,
)
    requires
        bfs_ok(cells, si, gi, visited, parent, dist, queue),
        bfs_closed(cells, visited, queue, queue.len() as int),
    ensures
        visited.len() == cells.len(),
        visited[si],
        !visited[gi],
        forall|a: int, b: int|
            0 <= a < cells.len() && 0 <= b < cells.len() && visited[a] && adjacent(
                #[trigger] cells[a],
                #[trigger] cells[b],
            ) ==> visited[b],
{
    reveal(bfs_ok);
    assert forall|a: int, b: int|
        0 <= a < cells.len() && 0 <= b < cells.len() && visited[a] && adjacent(
            #[trigger] cells[a],
            #[trigger] cells[b],
        ) implies visited[b] by {
        assert(queue.contains(a as usize));
        let t = choose|t: int| 0 <= t < queue.len() && queue[t] == a as usize;
        assert(adjacent(cells[queue[t] as int], cells[b]));
    }
}

/// A finished search (every queued cell processed) that never visited the
/// goal proves that no walk reaches it.
proof fn lemma_bfs_exhausted(
    cells: Seq<VoxelCoord>,
    si: int,
    gi: int,
    visited: Seq<bool>,
    parent: Seq<usize>,
    dist: Seq<int>,
    queue: Seq<usize>,
)
    requires
        bfs_ok(cells, si, gi, visited, parent, dist, queue),
        bfs_closed(cells, visited, queue, queue.len() as int),
        strictly_sorted(cells),
        0 <= si < cells.len(),
        0 <= gi < cells.len(),
    ensures
        !exists|p: Seq<VoxelCoord>| is_walk_path(cells, p, cells[si], cells[gi]),
{
    lemma_bfs_closed_visited(cells, si, gi, visited, parent, dist, queue);
    let start = cells[si];
    let goal = cells[gi];
    assert forall|p: Seq<VoxelCoord>| !is_walk_path(cells, p, start, goal) by {
        if is_walk_path(cells, p, start, goal) {
            assert forall|j: int| 0 <= j < cells.len() && cells[j] == start implies visited[j] by {
                lemma_sorted_index_unique(cells, j, si);
            }
            lemma_walk_stays_visited(cells, visited, p, start, goal, p.len() - 1);
        }
    }
}

/// Visiting a new, non-goal neighbour `ni` of the visited cell `cur` keeps the
/// search state and the closure of already processed cells.
#[verifier::rlimit(60)]
proof fn lemma_bfs_visit(
    cells: Seq<VoxelCoord>,
    si: int,
    gi: int,
    visited: Seq<bool>,
    parent: Seq<usize>,
    dist: Seq<int>,
    queue: Seq<usize>,
    cur: usize,
    ni: usize,
    h: int,
)
    requires
        bfs_ok(cells, si, gi, visited, parent, dist, queue),
        bfs_closed(cells, visited, queue, h),
        0 <= h <= queue.len(),
        cur < cells.len(),
        visited[cur as int],
        ni < cells.len(),
        !visited[ni as int],
        ni != gi,
        adjacent(cells[cur as int], cells[ni as int]),
    ensures
        bfs_ok(
            cells,
            si,
            gi,
            visited.update(ni as int, true),
            parent.update(ni as int, cur),
            dist.update(ni as int, dist[cur as int] + 1),
            queue.push(ni),
        ),
        bfs_closed(cells, visited.update(ni as int, true), queue.push(ni), h),
{
    reveal(bfs_ok);
    let n = cells.len();
    let v2 = visited.update(ni as int, true);
    let p2 = parent.update(ni as int, cur);
    let d2 = dist.update(ni as int, dist[cur as int] + 1);
    let q2 = queue.push(ni);
    assert(!queue.contains(ni));
    assert(q2.no_duplicates()) by {
        assert forall|a: int, b: int| 0 <= a < q2.len() && 0 <= b < q2.len() && a != b implies q2[a]
            != q2[b] by {
            if a == q2.len() - 1 {
                assert(queue[b] == q2[b]);
            } else if b == q2.len() - 1 {
                assert(queue[a] == q2[a]);
            } else {
                assert(queue[a] == q2[a]);
                assert(queue[b] == q2[b]);
            }
        }
    }
    assert forall|j: int| 0 <= j < n implies (#[trigger] v2[j] <==> q2.contains(j as usize)) by {
        if j == ni {
            assert(q2[q2.len() - 1] == ni);
        } else {
            assert(v2[j] == visited[j]);
            assert(visited[j] <==> queue.contains(j as usize));
            if queue.contains(j as usize) {
                let p = choose|p: int| 0 <= p < queue.len() && queue[p] == j as usize;
                assert(q2[p] == j as usize);
            }
            if q2.contains(j as usize) {
                let p = choose|p: int| 0 <= p < q2.len() && q2[p] == j as usize;
                if p < queue.len() {
                    assert(queue[p] == j as usize);
                }
            }
        }
    }
    assert forall|j: int| 0 <= j < n && #[trigger] v2[j] && j != si implies {
        &&& p2[j] < n
        &&& v2[p2[j] as int]
        &&& adjacent(cells[p2[j] as int], cells[j])
        &&& d2[j] == d2[p2[j] as int] + 1
    } by {
        if j != ni {
            assert(visited[j]);
            assert(visited[parent[j] as int]);
            assert(parent[j] != ni);
        }
    }
    assert forall|k: int| 0 <= k < q2.len() implies #[trigger] q2[k] < n by {
        if k < queue.len() {
            assert(q2[k] == queue[k]);
        }
    }
    assert forall|t: int, j: int|
        0 <= t < h && 0 <= j < n && adjacent(cells[#[trigger] q2[t] as int], #[trigger] cells[j])
        implies v2[j] by {
        assert(q2[t] == queue[t]);
    }
}

/// Breadth-first order of a search whose current cell sits at queue
/// position `c`: depths never decrease along the queue, none exceeds the
/// depth of the current cell by more than one, and the depth of every
/// visited cell is a lower bound on the steps of any walk to it from the
/// start.
#[verifier::opaque]
pub open spec fn bfs_levels(
    cells: Seq<VoxelCoord>,
    si: int,
    visited: Seq<bool>,
    dist: Seq<int>,
    queue: Seq<usize>,
    c: int,
) -> bool {
    &&& forall|t1: int, t2: int|
        0 <= t1 < t2 < queue.len() ==> dist[#[trigger] queue[t1] as int] <= dist[#[trigger] queue[t2] as int]
    &&& 0 <= c < queue.len() ==> forall|t: int|
        0 <= t < queue.len() ==> dist[#[trigger] queue[t] as int] <= dist[queue[c] as int] + 1
    &&& forall|j: int, p: Seq<VoxelCoord>|
        0 <= j < cells.len() && visited[j] && #[trigger] is_walk_path(cells, p, cells[si], cells[j]) ==> p.len() - 1 >= dist[j]
}

/// A walk from a visited cell to an unvisited one has a first step that
/// leaves the visited cells.
proof fn lemma_first_unvisited(
    cells: Seq<VoxelCoord>,
    visited: Seq<bool>,
    p: Seq<VoxelCoord>,
    m: int,
) -> (i: int)
    requires
        visited.len() == cells.len(),
        0 < m < p.len(),
        exists|a: int| 0 <= a < cells.len() && cells[a] == p[0] && visited[a],
        forall|a: int| 0 <= a < cells.len() && cells[a] == p[m] ==> !visited[a],
    ensures
        0 < i <= m,
        exists|a: int| 0 <= a < cells.len() && cells[a] == p[i - 1] && visited[a],
        forall|a: int| 0 <= a < cells.len() && cells[a] == p[i] ==> !visited[a],
    decreases m,
{
    if exists|a: int| 0 <= a < cells.len() && cells[a] == p[m - 1] && visited[a] {
        m
    } else {
        lemma_first_unvisited(cells, visited, p, m - 1)
    }
}

/// Every walk from the start to an unvisited cell takes more steps than the
/// depth of the current cell.
#[verifier::spinoff_prover]
#[verifier::rlimit(50)]
proof fn lemma_walk_lower(
    cells: Seq<VoxelCoord>,
    si: int,
    gi: int,
    visited: Seq<bool>,
    parent: Seq<usize>,
    dist: Seq<int>,
    queue: Seq<usize>,
    c: int,
    u: int,
    p: Seq<VoxelCoord>,
)
    requires
        bfs_ok(cells, si, gi, visited, parent, dist, queue),
        bfs_levels(cells, si, visited, dist, queue, c),
        bfs_closed(cells, visited, queue, c),
        strictly_sorted(cells),
        0 <= c < queue.len(),
        0 <= u < cells.len(),
        !visited[u],
        is_walk_path(cells, p, cells[si], cells[u]),
    ensures
        p.len() - 1 >= dist[queue[c] as int] + 1,
{
    reveal(bfs_ok);
    reveal(bfs_levels);
    let n = cells.len();
    let m = p.len() - 1;
    if m == 0 {
        lemma_sorted_index_unique(cells, si, u);
    }
    assert forall|a: int| 0 <= a < n && cells[a] == p[m] implies !visited[a] by {
        lemma_sorted_index_unique(cells, a, u);
    }
    let i = lemma_first_unvisited(cells, visited, p, m);
    let a = choose|a: int| 0 <= a < n && cells[a] == p[i - 1] && visited[a];
    assert(cells.contains(p[i]));
    let w = choose|w: int| 0 <= w < n && cells[w] == p[i];
    assert(!visited[w]);
    assert(queue.contains(a as usize));
    let t = choose|t: int| 0 <= t < queue.len() && queue[t] == a as usize;
    assert(adjacent(p[i - 1], p[i]));
    if t < c {
        assert(adjacent(cells[queue[t] as int], cells[w]));
        assert(false);
    }
    if t > c {
        assert(dist[queue[c] as int] <= dist[queue[t] as int]);
    }
    let q = p.take(i);
    assert(is_walk_path(cells, q, cells[si], cells[a])) by {
        assert forall|k: int| 0 <= k < q.len() implies cells.contains(#[trigger] q[k]) by {
            assert(q[k] == p[k]);
        }
        assert forall|k: int| 0 <= k < q.len() - 1 implies adjacent(#[trigger] q[k], q[k + 1]) by {
            assert(q[k] == p[k] && q[k + 1] == p[k + 1]);
        }
    }
}

/// The breadth-first order survives visiting a new neighbour of the
/// current cell.
proof fn lemma_levels_visit(
    cells: Seq<VoxelCoord>,
    si: int,
    gi: int,
    visited: Seq<bool>,
    parent: Seq<usize>,
    dist: Seq<int>,
    queue: Seq<usize>,
    c: int,
    cur: usize,
    ni: usize,
)
    requires
        bfs_ok(cells, si, gi, visited, parent, dist, queue),
        bfs_levels(cells, si, visited, dist, queue, c),
        bfs_closed(cells, visited, queue, c),
        strictly_sorted(cells),
        0 <= c < queue.len(),
        queue[c] == cur,
        ni < cells.len(),
        !visited[ni as int],
    ensures
        bfs_levels(
            cells,
            si,
            visited.update(ni as int, true),
            dist.update(ni as int, dist[cur as int] + 1),
            queue.push(ni),
            c,
        ),
{
    let n = cells.len();
    let v2 = visited.update(ni as int, true);
    let d2 = dist.update(ni as int, dist[cur as int] + 1);
    let q2 = queue.push(ni);
    reveal(bfs_ok);
    assert forall|p: Seq<VoxelCoord>| #[trigger] is_walk_path(cells, p, cells[si], cells[ni as int]) implies p.len() - 1 >= d2[ni as int] by {
        lemma_walk_lower(cells, si, gi, visited, parent, dist, queue, c, ni as int, p);
    }
    reveal(bfs_levels);
    assert(!queue.contains(ni));
    assert forall|t: int| 0 <= t < queue.len() implies #[trigger] queue[t] != ni by {
        assert(queue.contains(queue[t]));
    }
    assert forall|t1: int, t2: int|
        0 <= t1 < t2 < q2.len() implies d2[#[trigger] q2[t1] as int] <= d2[#[trigger] q2[t2] as int] by {
        assert(q2[t1] == queue[t1]);
        if t2 < queue.len() {
            assert(q2[t2] == queue[t2]);
        } else {
            assert(dist[queue[t1] as int] <= dist[queue[c] as int] + 1);
        }
    }
    assert forall|t: int| 0 <= t < q2.len() implies d2[#[trigger] q2[t] as int] <= d2[q2[c] as int] + 1 by {
        assert(q2[c] == queue[c]);
        if t < queue.len() {
            assert(q2[t] == queue[t]);
            assert(dist[queue[t] as int] <= dist[queue[c] as int] + 1);
        }
    }
    assert forall|j: int, p: Seq<VoxelCoord>|
        0 <= j < n && v2[j] && #[trigger] is_walk_path(cells, p, cells[si], cells[j]) implies p.len() - 1 >= d2[j] by {
        if j != ni {
            assert(visited[j] && d2[j] == dist[j]);
        }
    }
}

/// Moving on from the cell at position `c` keeps the breadth-first order.
proof fn lemma_levels_advance(
    cells: Seq<VoxelCoord>,
    si: int,
    visited: Seq<bool>,
    dist: Seq<int>,
    queue: Seq<usize>,
    c: int,
)
    requires
        bfs_levels(cells, si, visited, dist, queue, c),
        0 <= c < queue.len(),
    ensures
        bfs_levels(cells, si, visited, dist, queue, c + 1),
{
    reveal(bfs_levels);
    if c + 1 < queue.len() {
        assert forall|t: int| 0 <= t < queue.len() implies dist[#[trigger] queue[t] as int] <= dist[queue[c + 1] as int] + 1 by {
            assert(dist[queue[t] as int] <= dist[queue[c] as int] + 1);
            assert(dist[queue[c] as int] <= dist[queue[c + 1] as int]);
        }
    }
}

/// Where a bounded breadth-first search stands.
#[derive(PartialEq, Eq, Structural)]
pub enum BfsState {
    /// Cells remain to be processed.
    Running,
    /// The goal was found among the neighbours of a processed cell.
    Found,
    /// A cell was taken from the queue while more than the budget had been visited.
    OverBudget,
    /// The queue ran out.
    Exhausted,
}

/// The state of the breadth-first search over the indices of the walkable
/// cells: visited flags, parent links, the queue in visiting order, how many
/// queued cells have been taken, and where the search stands.
pub struct BfsSearch {
    pub visited: Seq<bool>,
    pub parent: Seq<usize>,
    pub queue: Seq<usize>,
    pub head: nat,
    pub state: BfsState,
}

/// The index of cell `c` among `cells`, if it is one of them.
pub open spec fn cell_index(cells: Seq<VoxelCoord>, c: VoxelCoord) -> Option<int> {
    if exists|j: int| 0 <= j < cells.len() && cells[j] == c {
        Some(choose|j: int| 0 <= j < cells.len() && cells[j] == c)
    } else {
        None
    }
}

/// The search before anything is processed: only the start is visited and queued.
pub open spec fn bfs_initial(n: nat, si: int) -> BfsSearch {
    BfsSearch {
        visited: Seq::new(n, |j: int| j == si),
        parent: Seq::new(n, |j: int| 0usize),
        queue: seq![si as usize],
        head: 0,
        state: BfsState::Running,
    }
}

/// Look at the `k`-th neighbour of the processed cell `cur`: a walkable,
/// unvisited neighbour gets `cur` as its parent and is queued, unless it is
/// the goal, which ends the search.
pub open spec fn visit_neighbor(cells: Seq<VoxelCoord>, gi: int, cur: usize, s: BfsSearch, k: int) -> BfsSearch {
    if s.state != BfsState::Running {
        s
    } else {
        match cell_index(cells, neighbor(cells[cur as int], k)) {
            None => s,
            Some(j) => if s.visited[j] {
                s
            } else if j == gi {
                BfsSearch { parent: s.parent.update(j, cur), state: BfsState::Found, ..s }
            } else {
                BfsSearch {
                    visited: s.visited.update(j, true),
                    parent: s.parent.update(j, cur),
                    queue: s.queue.push(j as usize),
                    ..s
                }
            },
        }
    }
}

/// The first `k` neighbours of `cur` looked at, in +x, +z, -x, -z order.
pub open spec fn expand_upto(cells: Seq<VoxelCoord>, gi: int, cur: usize, s: BfsSearch, k: nat) -> BfsSearch
    decreases k,
{
    if k == 0 {
        s
    } else {
        visit_neighbor(cells, gi, cur, expand_upto(cells, gi, cur, s, (k - 1) as nat), k - 1)
    }
}

/// One round of the search: take the next queued cell; stop if the queue is
/// empty or more cells than `max` have been visited, else look at its
/// neighbours.
pub open spec fn bfs_step(cells: Seq<VoxelCoord>, gi: int, max: nat, s: BfsSearch) -> BfsSearch {
    if s.state != BfsState::Running {
        s
    } else if s.head >= s.queue.len() {
        BfsSearch { state: BfsState::Exhausted, ..s }
    } else {
        let cur = s.queue[s.head as int];
        let taken = BfsSearch { head: s.head + 1, ..s };
        if s.queue.len() > max {
            BfsSearch { state: BfsState::OverBudget, ..taken }
        } else {
            expand_upto(cells, gi, cur, taken, 4)
        }
    }
}

/// The search after `k` rounds.
pub open spec fn bfs_rounds(cells: Seq<VoxelCoord>, si: int, gi: int, max: nat, k: nat) -> BfsSearch
    decreases k,
{
    if k == 0 {
        bfs_initial(cells.len(), si)
    } else {
        bfs_step(cells, gi, max, bfs_rounds(cells, si, gi, max, (k - 1) as nat))
    }
}

/// The finished search from `start` to `goal` with budget `max`: it takes
/// at most one round per walkable cell and one more to notice an empty queue.
pub open spec fn bounded_search(cells: Seq<VoxelCoord>, start: VoxelCoord, goal: VoxelCoord, max: nat) -> BfsSearch {
    bfs_rounds(cells, cell_index(cells, start)->Some_0, cell_index(cells, goal)->Some_0, max, cells.len() + 1)
}

/// `path` is what following the parent links from the goal back to the
/// start rebuilds: cell indices `q` with `q[0]` the start, the last the
/// goal, each the parent of the next, and the start nowhere else.
pub open spec fn rebuilt_path(cells: Seq<VoxelCoord>, parent: Seq<usize>, si: int, gi: int, path: Seq<VoxelCoord>) -> bool {
    exists|q: Seq<usize>| {
        &&& #[trigger] q.len() == path.len()
        &&& q.len() > 0
        &&& q[0] == si
        &&& q.last() == gi
        &&& forall|i: int| 0 <= i < q.len() ==> #[trigger] q[i] < cells.len() && path[i] == cells[q[i] as int]
        &&& forall|i: int| 0 < i < q.len() ==> #[trigger] parent_link(parent, si, q, i)
    }
}

/// The `i`-th cell of the chain `q` is not the start, and its parent is the one before it.
pub open spec fn parent_link(parent: Seq<usize>, si: int, q: Seq<usize>, i: int) -> bool {
    q[i] != si && q[i - 1] == parent[q[i] as int]
}

proof fn lemma_cell_index(cells: Seq<VoxelCoord>, c: VoxelCoord, j: int)
    requires
        strictly_sorted(cells),
        0 <= j < cells.len(),
        cells[j] == c,
    ensures
        cell_index(cells, c) == Some(j),
{
    let k = choose|k: int| 0 <= k < cells.len() && cells[k] == c;
    lemma_sorted_index_unique(cells, j, k);
}

proof fn lemma_expand_settled(cells: Seq<VoxelCoord>, gi: int, cur: usize, s: BfsSearch, k: nat, m: nat)
    requires
        k <= m,
        expand_upto(cells, gi, cur, s, k).state != BfsState::Running,
    ensures
        expand_upto(cells, gi, cur, s, m) == expand_upto(cells, gi, cur, s, k),
    decreases m,
{
    if m > k {
        lemma_expand_settled(cells, gi, cur, s, k, (m - 1) as nat);
    }
}

proof fn lemma_rounds_settled(cells: Seq<VoxelCoord>, si: int, gi: int, max: nat, k: nat, m: nat)
    requires
        k <= m,
        bfs_rounds(cells, si, gi, max, k).state != BfsState::Running,
    ensures
        bfs_rounds(cells, si, gi, max, m) == bfs_rounds(cells, si, gi, max, k),
    decreases m,
{
    if m > k {
        lemma_rounds_settled(cells, si, gi, max, k, (m - 1) as nat);
    }
}

proof fn lemma_rounds_budget(cells: Seq<VoxelCoord>, si: int, gi: int, m1: nat, m2: nat, k: nat)
    requires
        m1 <= m2,
        bfs_rounds(cells, si, gi, m1, k).state != BfsState::OverBudget,
    ensures
        bfs_rounds(cells, si, gi, m2, k) == bfs_rounds(cells, si, gi, m1, k),
    decreases k,
{
    if k > 0 {
        let prev = bfs_rounds(cells, si, gi, m1, (k - 1) as nat);
        assert(prev.state != BfsState::OverBudget);
        lemma_rounds_budget(cells, si, gi, m1, m2, (k - 1) as nat);
    }
}

/// A larger budget never changes a search that reached its goal: the same
/// cells are visited in the same order and the same path is rebuilt.
pub proof fn law_reached_search_ignores_larger_budget(
    cells: Seq<VoxelCoord>,
    start: VoxelCoord,
    goal: VoxelCoord,
    budget: nat,
    larger: nat,
)
    requires
        budget <= larger,
        bounded_search(cells, start, goal, budget).state == BfsState::Found,
    ensures
        bounded_search(cells, start, goal, larger) == bounded_search(cells, start, goal, budget),
{
    lemma_rounds_budget(
        cells,
        cell_index(cells, start)->Some_0,
        cell_index(cells, goal)->Some_0,
        budget,
        larger,
        cells.len() + 1,
    );
}

/// Query a deterministic breadth-first path through the projection.
///
/// The search visits cells in first-in first-out order, trying the +x, +z,
/// -x, -z neighbours of each, and stops early once more cells have been
/// visited than `max_visited` allows.
#[verifier::rlimit(100)]
#[verifier::spinoff_prover]
pub fn find_path(projection: &NavProjection, query: NavPathQuery) -> (r: Result<NavPathReadout, NavError>)
    requires
        cells_steppable(projection.cells()),
    ensures
        query.max_visited == 0 ==> r == Err::<NavPathReadout, _>(NavError::InvalidQueryBudget),
        query.max_visited > 0 && !projection.cells().contains(query.start) ==> r == Err::<
            NavPathReadout,
            _,
        >(NavError::StartNotWalkable { start: query.start }),
        query.max_visited > 0 && projection.cells().contains(query.start)
            && !projection.cells().contains(query.goal) ==> r == Err::<NavPathReadout, _>(
            NavError::GoalNotWalkable { goal: query.goal },
        ),
        query.max_visited > 0 && projection.cells().contains(query.start)
            && projection.cells().contains(query.goal) ==> {
            let out = r->Ok_0;
            &&& r is Ok
            &&& out.path_hash == coords_hash(out.path@)
            &&& out.visited <= projection.cells().len()
            &&& out.outcome == NavPathOutcome::Reached ==> is_walk_path(
                projection.cells(),
                out.path@,
                query.start,
                query.goal,
            )
            &&& out.outcome == NavPathOutcome::Reached ==> forall|p: Seq<VoxelCoord>|
                is_walk_path(projection.cells(), p, query.start, query.goal) ==> out.path@.len()
                    <= p.len()
            &&& out.outcome == NavPathOutcome::NoPath ==> out.path@.len() == 0
            &&& out.outcome == NavPathOutcome::NoPath && out.visited <= query.max_visited ==> !exists|
                p: Seq<VoxelCoord>,
            | is_walk_path(projection.cells(), p, query.start, query.goal)
            &&& query.start == query.goal ==> out.outcome == NavPathOutcome::Reached && out.path@
                == seq![query.start] && out.visited == 1
        },
        query.max_visited > 0 && projection.cells().contains(query.start)
            && projection.cells().contains(query.goal) && query.start != query.goal ==> {
            let out = r->Ok_0;
            let s = bounded_search(projection.cells(), query.start, query.goal, query.max_visited as nat);
            &&& out.outcome == NavPathOutcome::Reached <==> s.state == BfsState::Found
            &&& out.outcome == NavPathOutcome::Reached ==> out.visited == s.queue.len() + 1 && rebuilt_path(
                projection.cells(),
                s.parent,
                cell_index(projection.cells(), query.start)->Some_0,
                cell_index(projection.cells(), query.goal)->Some_0,
                out.path@,
            )
            &&& out.outcome == NavPathOutcome::NoPath ==> out.visited == s.queue.len()
        },
{
    proof {
        use_type_invariant(projection);
    }
    if query.max_visited == 0 {
        return Err(NavError::InvalidQueryBudget);
    }
    let si = match sorted_index_of(&projection.walkable, query.start) {
        Some(i) => i,
        None => {
            return Err(NavError::StartNotWalkable { start: query.start });
        },
    };
    let gi = match sorted_index_of(&projection.walkable, query.goal) {
        Some(i) => i,
        None => {
            return Err(NavError::GoalNotWalkable { goal: query.goal });
        },
    };
    if query.start == query.goal {
        let path = vec![query.start];
        let path_hash = hash_coords(path.as_slice());
        proof {
            assert(projection.cells().len() > 0);
            assert(path@ =~= seq![query.start]);
        }
        return Ok(NavPathReadout { outcome: NavPathOutcome::Reached, visited: 1, path_hash, path });
    }
    let cells = &projection.walkable;
    let n = cells.len();
    let mut visited: Vec<bool> = Vec::new();
    let mut parent: Vec<usize> = Vec::new();
    let mut t: usize = 0;
    while t < n
        invariant
            t <= n,
            n == cells@.len(),
            visited@.len() == t,
            parent@.len() == t,
            forall|j: int| 0 <= j < t ==> !visited@[j],
            forall|j: int| 0 <= j < t ==> parent@[j] == 0,
        decreases n - t,
    {
        visited.push(false);
        parent.push(0);
        t = t + 1;
    }
    visited.set(si, true);
    let mut queue: Vec<usize> = Vec::new();
    queue.push(si);
    let mut head: usize = 0;
    let ghost mut dist: Seq<int> = Seq::new(n as nat, |j: int| 0);
    proof {
        reveal(bfs_ok);
        assert forall|j: int| 0 <= j < n implies (#[trigger] visited@[j] <==> queue@.contains(j as usize)) by {
            if j == si {
                assert(queue@[0] == si);
            } else {
                assert(!visited@[j]);
                if queue@.contains(j as usize) {
                    assert(queue@[0] == j as usize);
                }
            }
        }
        assert(bfs_ok(cells@, si as int, gi as int, visited@, parent@, dist, queue@));
        reveal(bfs_levels);
        assert forall|j: int, p: Seq<VoxelCoord>|
            0 <= j < n && visited@[j] && #[trigger] is_walk_path(cells@, p, cells@[si as int], cells@[j]) implies p.len() - 1 >= dist[j] by {
            if j != si {
                assert(!visited@[j]);
            }
        }
        assert(bfs_levels(cells@, si as int, visited@, dist, queue@, 0));
        lemma_cell_index(cells@, query.start, si as int);
        lemma_cell_index(cells@, query.goal, gi as int);
        let init = bfs_initial(n as nat, si as int);
        assert(visited@ =~= init.visited);
        assert(parent@ =~= init.parent);
        assert(queue@ =~= init.queue);
        assert(bfs_rounds(cells@, si as int, gi as int, query.max_visited as nat, 0) == (BfsSearch {
            visited: visited@,
            parent: parent@,
            queue: queue@,
            head: 0,
            state: BfsState::Running,
        }));
    }
    let mut stopped = false;
    while !stopped && head < queue.len()
        invariant
            n == cells@.len(),
            cells@ == projection.cells(),
            strictly_sorted(cells@),
            cells_steppable(cells@),
            si < n,
            gi < n,
            cells@[si as int] == query.start,
            cells@[gi as int] == query.goal,
            bfs_ok(cells@, si as int, gi as int, visited@, parent@, dist, queue@),
            bfs_levels(cells@, si as int, visited@, dist, queue@, head as int),
            head <= queue@.len(),
            queue@.len() <= n,
            !stopped ==> bfs_closed(cells@, visited@, queue@, head as int),
            stopped ==> queue@.len() > query.max_visited,
            bfs_rounds(cells@, si as int, gi as int, query.max_visited as nat, head as nat) == (BfsSearch {
                visited: visited@,
                parent: parent@,
                queue: queue@,
                head: head as nat,
                state: if stopped { BfsState::OverBudget } else { BfsState::Running },
            }),
        decreases n - queue@.len(), queue@.len() - head,
    {
        proof {
            lemma_bfs_facts(cells@, si as int, gi as int, visited@, parent@, dist, queue@);
        }
        let cur = queue[head];
        let ghost before = bfs_rounds(cells@, si as int, gi as int, query.max_visited as nat, head as nat);
        head = head + 1;
        proof {
            assert(bfs_rounds(cells@, si as int, gi as int, query.max_visited as nat, head as nat)
                == bfs_step(cells@, gi as int, query.max_visited as nat, before));
        }
        if queue.len() > query.max_visited {
            stopped = true;
            proof {
                lemma_levels_advance(cells@, si as int, visited@, dist, queue@, head - 1);
            }
        } else {
            let (found, Ghost(next_dist)) = expand_cell(
                cells,
                si,
                gi,
                cur,
                head,
                &mut visited,
                &mut parent,
                &mut queue,
                Ghost(dist),
            );
            proof {
                dist = next_dist;
            }
            match found {
                Some(path) => {
                    proof {
                        lemma_rounds_settled(cells@, si as int, gi as int, query.max_visited as nat, head as nat, (n + 1) as nat);
                    }
                    let path_hash = hash_coords(path.as_slice());
                    return Ok(
                        NavPathReadout {
                            outcome: NavPathOutcome::Reached,
                            visited: queue.len() + 1,
                            path_hash,
                            path,
                        },
                    );
                },
                None => {},
            }
        }
    }
    proof {
        lemma_bfs_facts(cells@, si as int, gi as int, visited@, parent@, dist, queue@);
        if queue@.len() <= query.max_visited {
            lemma_bfs_exhausted(cells@, si as int, gi as int, visited@, parent@, dist, queue@);
        }
        if stopped {
            lemma_rounds_settled(cells@, si as int, gi as int, query.max_visited as nat, head as nat, (n + 1) as nat);
        } else {
            assert(bfs_rounds(cells@, si as int, gi as int, query.max_visited as nat, (head + 1) as nat).state == BfsState::Exhausted);
            lemma_rounds_settled(cells@, si as int, gi as int, query.max_visited as nat, (head + 1) as nat, (n + 1) as nat);
        }
    }
    let path: Vec<VoxelCoord> = Vec::new();
    let path_hash = hash_coords(path.as_slice());
    Ok(NavPathReadout { outcome: NavPathOutcome::NoPath, visited: queue.len(), path, path_hash })
}

/// Process the queued cell `cur` (position `head - 1`): visit its unvisited
/// walkable neighbours in +x, +z, -x, -z order, or stop with the path when
/// the goal is among them.
#[verifier::rlimit(100)]
#[verifier::spinoff_prover]
fn expand_cell(
    cells: &Vec<VoxelCoord>,
    si: usize,
    gi: usize,
    cur: usize,
    head: usize,
    visited: &mut Vec<bool>,
    parent: &mut Vec<usize>,
    queue: &mut Vec<usize>,
    Ghost(dist0): Ghost<Seq<int>>,
) -> (res: (Option<Vec<VoxelCoord>>, Ghost<Seq<int>>))
    requires
        strictly_sorted(cells@),
        cells_steppable(cells@),
        bfs_ok(cells@, si as int, gi as int, old(visited)@, old(parent)@, dist0, old(queue)@),
        0 < head <= old(queue)@.len(),
        cur == old(queue)@[head - 1],
        bfs_closed(cells@, old(visited)@, old(queue)@, head - 1),
        bfs_levels(cells@, si as int, old(visited)@, dist0, old(queue)@, head - 1),
    ensures
        final(queue)@.len() >= old(queue)@.len(),
        final(queue)@.len() <= cells@.len(),
        match res.0 {
            Some(path) => {
                &&& is_walk_path(cells@, path@, cells@[si as int], cells@[gi as int])
                &&& forall|p: Seq<VoxelCoord>|
                    is_walk_path(cells@, p, cells@[si as int], cells@[gi as int]) ==> path@.len()
                        <= p.len()
                &&& final(queue)@.len() < cells@.len()
            },
            None => {
                &&& bfs_ok(cells@, si as int, gi as int, final(visited)@, final(parent)@, res.1@, final(queue)@)
                &&& bfs_closed(cells@, final(visited)@, final(queue)@, head as int)
                &&& bfs_levels(cells@, si as int, final(visited)@, res.1@, final(queue)@, head as int)
            },
        },
        res.0 is Some ==> expand_upto(
            cells@,
            gi as int,
            cur,
            (BfsSearch { visited: old(visited)@, parent: old(parent)@, queue: old(queue)@, head: head as nat, state: BfsState::Running }),
            4,
        ) == (BfsSearch {
            visited: final(visited)@,
            parent: final(parent)@.update(gi as int, cur),
            queue: final(queue)@,
            head: head as nat,
            state: BfsState::Found,
        }),
        res.0 is Some ==> rebuilt_path(cells@, final(parent)@.update(gi as int, cur), si as int, gi as int, res.0->Some_0@),
        res.0 is None ==> expand_upto(
            cells@,
            gi as int,
            cur,
            (BfsSearch { visited: old(visited)@, parent: old(parent)@, queue: old(queue)@, head: head as nat, state: BfsState::Running }),
            4,
        ) == (BfsSearch {
            visited: final(visited)@,
            parent: final(parent)@,
            queue: final(queue)@,
            head: head as nat,
            state: BfsState::Running,
        }),
{
    let ghost s0 = BfsSearch { visited: visited@, parent: parent@, queue: queue@, head: head as nat, state: BfsState::Running };
    let n = cells.len();
    let ghost mut dist = dist0;
    proof {
        lemma_bfs_facts(cells@, si as int, gi as int, visited@, parent@, dist, queue@);
        assert(queue@[head - 1] == cur);
        assert(visited@[cur as int]);
    }
    let ghost qstart = queue@;
    let cc = cells[cur];
    assert(steps_in_range(cells@[cur as int]));
    let nbs = nav_neighbors(cc);
    let mut k: usize = 0;
    let ghost qlen0 = queue@.len();
    proof {
        assert(queue@[head - 1] == cur);
        assert(visited@[cur as int]);
    }
    while k < 4
        invariant
            n == cells@.len(),
            strictly_sorted(cells@),
            cells_steppable(cells@),
            si < n,
            gi < n,
            qstart.len() <= queue@.len(),
            qstart == old(queue)@,
            bfs_ok(cells@, si as int, gi as int, visited@, parent@, dist, queue@),
            0 < head <= queue@.len(),
            queue@.len() <= n,
            qlen0 <= queue@.len(),
            cur == queue@[head - 1],
            cur < n,
            visited@[cur as int],
            cc == cells@[cur as int],
            k <= 4,
            bfs_closed(cells@, visited@, queue@, head - 1),
            bfs_levels(cells@, si as int, visited@, dist, queue@, head - 1),
            forall|d: int, j: int|
                0 <= d < k && 0 <= j < n && #[trigger] cells@[j] == #[trigger] neighbor(cc, d)
                    ==> visited@[j],
            forall|t: int| 0 <= t < 4 ==> nbs@[t] == #[trigger] neighbor(cc, t),
            s0 == (BfsSearch { visited: old(visited)@, parent: old(parent)@, queue: old(queue)@, head: head as nat, state: BfsState::Running }),
            expand_upto(cells@, gi as int, cur, s0, k as nat) == (BfsSearch {
                visited: visited@,
                parent: parent@,
                queue: queue@,
                head: head as nat,
                state: BfsState::Running,
            }),
        decreases 4 - k,
    {
        proof {
            lemma_bfs_facts(cells@, si as int, gi as int, visited@, parent@, dist, queue@);
        }
        let next = nbs[k];
        match sorted_index_of(cells, next) {
            None => {
                proof {
                    assert forall|d: int, j: int|
                        0 <= d < k + 1 && 0 <= j < n && #[trigger] cells@[j] == #[trigger] neighbor(cc, d)
                            implies visited@[j] by {
                        if d == k {
                            assert(cells@.contains(next));
                        }
                    }
                    assert(!(exists|j: int| 0 <= j < cells@.len() && cells@[j] == next)) by {
                        if exists|j: int| 0 <= j < cells@.len() && cells@[j] == next {
                            let j = choose|j: int| 0 <= j < cells@.len() && cells@[j] == next;
                            assert(cells@.contains(next));
                        }
                    }
                    assert(cell_index(cells@, neighbor(cells@[cur as int], k as int)) is None);
                }
            },
            Some(ni) => {
                proof {
                    lemma_cell_index(cells@, next, ni as int);
                }
                if visited[ni] {
                    proof {
                        assert forall|d: int, j: int|
                            0 <= d < k + 1 && 0 <= j < n && #[trigger] cells@[j] == #[trigger] neighbor(cc, d)
                                implies visited@[j] by {
                            if d == k {
                                lemma_sorted_index_unique(cells@, j, ni as int);
                            }
                        }
                    }
                } else {
                    proof {
                        lemma_neighbor_adjacent(cc, k as int);
                    }
                    if ni == gi {
                        let path = reconstruct_path(
                            cells,
                            si,
                            gi,
                            cur,
                            Ghost(visited@),
                            &*parent,
                            Ghost(dist),
                            Ghost(queue@),
                        );
                        proof {
                            lemma_bfs_facts(cells@, si as int, gi as int, visited@, parent@, dist, queue@);
                            assert forall|p: Seq<VoxelCoord>|
                                is_walk_path(cells@, p, cells@[si as int], cells@[gi as int]) implies path@.len()
                                    <= p.len() by {
                                reveal(bfs_ok);
                                lemma_walk_lower(
                                    cells@,
                                    si as int,
                                    gi as int,
                                    visited@,
                                    parent@,
                                    dist,
                                    queue@,
                                    head - 1,
                                    gi as int,
                                    p,
                                );
                            }
                        }
                        proof {
                            assert(next == neighbor(cells@[cur as int], k as int));
                            let before = expand_upto(cells@, gi as int, cur, s0, k as nat);
                            assert(expand_upto(cells@, gi as int, cur, s0, (k + 1) as nat)
                                == visit_neighbor(cells@, gi as int, cur, before, k as int));
                            assert(!before.visited[gi as int]);
                            assert(visit_neighbor(cells@, gi as int, cur, before, k as int) == (BfsSearch {
                                visited: visited@,
                                parent: parent@.update(gi as int, cur),
                                queue: queue@,
                                head: head as nat,
                                state: BfsState::Found,
                            }));
                            lemma_expand_settled(cells@, gi as int, cur, s0, (k + 1) as nat, 4);
                        }
                        return (Some(path), Ghost(dist));
                    }
                    let ghost vprev = visited@;
                    let ghost pprev = parent@;
                    let ghost qprev = queue@;
                    proof {
                        lemma_levels_visit(
                            cells@,
                            si as int,
                            gi as int,
                            visited@,
                            parent@,
                            dist,
                            queue@,
                            head - 1,
                            cur,
                            ni,
                        );
                        lemma_bfs_visit(
                            cells@,
                            si as int,
                            gi as int,
                            visited@,
                            parent@,
                            dist,
                            queue@,
                            cur,
                            ni,
                            head - 1,
                        );
                    }
                    parent.set(ni, cur);
                    visited.set(ni, true);
                    queue.push(ni);
                    proof {
                        dist = dist.update(ni as int, dist[cur as int] + 1);
                        assert(queue@[head - 1] == qprev[head - 1]);
                        assert forall|d: int, j: int|
                            0 <= d < k + 1 && 0 <= j < n && #[trigger] cells@[j] == #[trigger] neighbor(cc, d)
                                implies visited@[j] by {
                            if d == k {
                                lemma_sorted_index_unique(cells@, j, ni as int);
                            } else {
                                assert(vprev[j]);
                            }
                        }
                    }
                }
            },
        }
        k = k + 1;
    }
    proof {
        assert forall|t: int, j: int|
            0 <= t < head && 0 <= j < n && adjacent(
                cells@[#[trigger] queue@[t] as int],
                #[trigger] cells@[j],
            ) implies visited@[j] by {
            if t == head - 1 {
                lemma_adjacent_is_neighbor(cc, cells@[j]);
            }
        }
        lemma_levels_advance(cells@, si as int, visited@, dist, queue@, head - 1);
    }
    (None, Ghost(dist))
}

/// `revq` follows the parent links `links` from its first cell, never
/// passing the start before its end, and `rev` lists its cells.
spec fn links_step(links: Seq<usize>, si: int, revq: Seq<usize>, t: int) -> bool {
    revq[t] != si && revq[t + 1] == links[revq[t] as int]
}

#[verifier::opaque]
spec fn chain_ok(cells: Seq<VoxelCoord>, links: Seq<usize>, si: int, revq: Seq<usize>, rev: Seq<VoxelCoord>) -> bool {
    &&& revq.len() == rev.len()
    &&& forall|t: int| 0 <= t < revq.len() ==> #[trigger] revq[t] < cells.len() && rev[t] == cells[revq[t] as int]
    &&& forall|t: int| 0 <= t < revq.len() - 1 ==> #[trigger] links_step(links, si, revq, t)
}

proof fn lemma_chain_step(cells: Seq<VoxelCoord>, links: Seq<usize>, si: int, revq: Seq<usize>, rev: Seq<VoxelCoord>, next: usize)
    requires
        chain_ok(cells, links, si, revq, rev),
        revq.len() > 0,
        revq.last() != si,
        next == links[revq.last() as int],
        next < cells.len(),
    ensures
        chain_ok(cells, links, si, revq.push(next), rev.push(cells[next as int])),
{
    reveal(chain_ok);
    let q = revq.push(next);
    let r = rev.push(cells[next as int]);
    assert forall|t: int| 0 <= t < q.len() implies #[trigger] q[t] < cells.len() && r[t] == cells[q[t] as int] by {
        if t < revq.len() {
            assert(q[t] == revq[t] && r[t] == rev[t]);
        }
    }
    assert forall|t: int| 0 <= t < q.len() - 1 implies #[trigger] links_step(links, si, q, t) by {
        if t < revq.len() - 1 {
            assert(q[t] == revq[t] && q[t + 1] == revq[t + 1]);
            assert(links_step(links, si, revq, t));
        } else {
            assert(t == revq.len() - 1);
            assert(q[t] == revq.last());
            assert(q[t + 1] == next);
        }
    }
    assert(q.len() == r.len());

}

/// The parent chain gathered from the goal back to the start, reversed, is
/// the rebuilt path.
proof fn lemma_reversed_chain(
    cells: Seq<VoxelCoord>,
    links: Seq<usize>,
    si: int,
    gi: int,
    revq: Seq<usize>,
    rev: Seq<VoxelCoord>,
    path: Seq<VoxelCoord>,
)
    requires
        revq.len() == rev.len(),
        rev.len() > 0,
        revq[0] == gi,
        revq.last() == si,
        path.len() == rev.len(),
        forall|p: int| 0 <= p < path.len() ==> path[p] == rev[rev.len() - 1 - p],
        forall|t: int| 0 <= t < revq.len() ==> #[trigger] revq[t] < cells.len() && rev[t] == cells[revq[t] as int],
        forall|t: int| 0 <= t < revq.len() - 1 ==> #[trigger] links_step(links, si, revq, t),
    ensures
        rebuilt_path(cells, links, si, gi, path),
{
    let len = revq.len() as int;
    let q = revq.reverse();
    assert(q.len() == path.len());
    assert forall|i: int| 0 <= i < q.len() implies #[trigger] q[i] < cells.len() && path[i] == cells[q[i] as int] by {
        assert(q[i] == revq[len - 1 - i]);
    }
    assert forall|i: int| 0 < i < q.len() implies #[trigger] parent_link(links, si, q, i) by {
        let t = len - 1 - i;
        assert(q[i] == revq[t]);
        assert(q[i - 1] == revq[t + 1]);
        assert(links_step(links, si, revq, t));
    }
    assert(q[0] == revq[len - 1]);
    assert(q.last() == revq[0]);

}

/// Walk the parent links back from the goal (reached from `cur`) to the
/// start, and return the cells from start to goal.
#[verifier::rlimit(60)]
fn reconstruct_path(
    cells: &Vec<VoxelCoord>,
    si: usize,
    gi: usize,
    cur: usize,
    Ghost(visited): Ghost<Seq<bool>>,
    parent: &Vec<usize>,
    Ghost(dist): Ghost<Seq<int>>,
    Ghost(queue): Ghost<Seq<usize>>,
) -> (path: Vec<VoxelCoord>)
    requires
        strictly_sorted(cells@),
        bfs_ok(cells@, si as int, gi as int, visited, parent@, dist, queue),
        cur < cells@.len(),
        visited[cur as int],
        adjacent(cells@[cur as int], cells@[gi as int]),
    ensures
        is_walk_path(cells@, path@, cells@[si as int], cells@[gi as int]),
        path@.len() == dist[cur as int] + 2,
        rebuilt_path(cells@, parent@.update(gi as int, cur), si as int, gi as int, path@),
{
    reveal(bfs_ok);
    let ghost links = parent@.update(gi as int, cur);
    let mut rev: Vec<VoxelCoord> = Vec::new();
    rev.push(cells[gi]);
    rev.push(cells[cur]);
    let ghost mut revq: Seq<usize> = seq![gi, cur];
    proof {
        reveal(chain_ok);
        assert(links[gi as int] == cur);
    }
    let mut node = cur;
    while node != si
        invariant
            links == parent@.update(gi as int, cur),
            revq.len() == rev@.len(),
            revq[0] == gi,
            revq.last() == node,
            !visited[gi as int],
            chain_ok(cells@, links, si as int, revq, rev@),
            strictly_sorted(cells@),
            si < cells@.len(),
            gi < cells@.len(),
            node < cells@.len(),
            visited.len() == cells@.len(),
            parent@.len() == cells@.len(),
            dist.len() == cells@.len(),
            visited[node as int],
            forall|j: int| 0 <= j < cells@.len() ==> #[trigger] dist[j] >= 0,
            forall|j: int|
                0 <= j < cells@.len() && #[trigger] visited[j] && j != si ==> {
                    &&& parent@[j] < cells@.len()
                    &&& visited[parent@[j] as int]
                    &&& adjacent(cells@[parent@[j] as int], cells@[j])
                    &&& dist[j] == dist[parent@[j] as int] + 1
                },
            rev@.len() >= 2,
            rev@.len() == dist[cur as int] - dist[node as int] + 2,
            cur < cells@.len(),
            dist[si as int] == 0,
            rev@[0] == cells@[gi as int],
            rev@.last() == cells@[node as int],
            forall|t: int| 0 <= t < rev@.len() ==> cells@.contains(#[trigger] rev@[t]),
            forall|t: int| 0 <= t < rev@.len() - 1 ==> adjacent(rev@[t + 1], #[trigger] rev@[t]),
        decreases dist[node as int],
    {
        let ghost prev = rev@;
        let ghost prevq = revq;
        let ghost old_node = node;
        node = parent[node];
        rev.push(cells[node]);
        proof {
            revq = revq.push(node);
            assert(old_node != gi);
            assert(rev@ == prev.push(cells@[node as int]));
            lemma_chain_step(cells@, links, si as int, prevq, prev, node);
            assert(cells@.contains(cells@[node as int]));
            assert forall|t: int| 0 <= t < rev@.len() - 1 implies adjacent(rev@[t + 1], #[trigger] rev@[t]) by {
                if t < prev.len() - 1 {
                    assert(prev[t] == rev@[t]);
                    assert(prev[t + 1] == rev@[t + 1]);
                }
            }
            assert forall|t: int| 0 <= t < rev@.len() implies cells@.contains(#[trigger] rev@[t]) by {
                if t < prev.len() {
                    assert(prev[t] == rev@[t]);
                }
            }
        }
    }
    proof {
        assert(cells@.contains(cells@[gi as int]));
    }
    let len = rev.len();
    let mut path: Vec<VoxelCoord> = Vec::new();
    let mut t = len;
    while t > 0
        invariant
            t <= len,
            len == rev@.len(),
            path@.len() == len - t,
            forall|p: int| 0 <= p < path@.len() ==> path@[p] == rev@[len - 1 - p],
        decreases t,
    {
        t = t - 1;
        path.push(rev[t]);
    }
    proof {
        assert forall|i: int| 0 <= i < path@.len() - 1 implies adjacent(#[trigger] path@[i], path@[i + 1]) by {
            assert(adjacent(rev@[(len - 2 - i) + 1], rev@[len - 2 - i]));
        }
        assert forall|i: int| 0 <= i < path@.len() implies cells@.contains(#[trigger] path@[i]) by {
            assert(cells@.contains(rev@[len - 1 - i]));
        }
        reveal(chain_ok);
        lemma_reversed_chain(cells@, links, si as int, gi as int, revq, rev@, path@);
    }
    path
}

/// `x,y,z` in decimal.
pub open spec fn coord_text(c: VoxelCoord) -> Seq<char> {
    int_text(c.x as int) + ","@ + int_text(c.y as int) + ","@ + int_text(c.z as int)
}

/// The cells of a path joined by ` -> `.
pub open spec fn path_text(path: Seq<VoxelCoord>) -> Seq<char>
    decreases path.len(),
{
    if path.len() == 0 {
        Seq::empty()
    } else if path.len() == 1 {
        coord_text(path[0])
    } else {
        path_text(path.drop_last()) + " -> "@ + coord_text(path.last())
    }
}

pub open spec fn outcome_text(o: NavPathOutcome) -> Seq<char> {
    match o {
        NavPathOutcome::Reached => "Reached"@,
        NavPathOutcome::NoPath => "NoPath"@,
    }
}

/// The reviewable summary of a path query over a projection.
pub open spec fn nav_path_text(
    walkable: nat,
    projection_hash: u64,
    outcome: NavPathOutcome,
    visited: nat,
    path: Seq<VoxelCoord>,
    path_hash: u64,
) -> Seq<char> {
    "nav-path 1\n"@ + "walkable="@ + dec_digits(walkable) + "\n"@ + "projection_hash="@ + hex16(
        projection_hash,
    ) + "\n"@ + "outcome="@ + outcome_text(outcome) + "\n"@ + "visited="@ + dec_digits(visited)
        + "\n"@ + "path_len="@ + dec_digits(path.len()) + "\n"@ + "path="@ + path_text(path) + "\n"@
        + "path_hash="@ + hex16(path_hash) + "\n"@
}

fn push_coord(out: &mut String, c: VoxelCoord)
    ensures
        final(out)@ == old(out)@ + coord_text(c),
{
    push_int(out, c.x);
    out.append(",");
    push_int(out, c.y);
    out.append(",");
    push_int(out, c.z);
    assert(out@ =~= old(out)@ + coord_text(c));
}

/// Human-reviewable deterministic summary of a path readout: the walkable
/// count and hash of the projection, the outcome, the visit count, the path
/// and its hash, one per line.
pub fn describe_nav_path(projection: &NavProjection, readout: &NavPathReadout) -> (s: String)
    ensures
        s@ == nav_path_text(
            projection.cells().len(),
            coords_hash(projection.cells()),
            readout.outcome,
            readout.visited as nat,
            readout.path@,
            readout.path_hash,
        ),
{
    let mut out = String::new();
    out.append("nav-path 1\n");
    out.append("walkable=");
    push_dec(&mut out, projection.walkable_len() as u64);
    out.append("\n");
    out.append("projection_hash=");
    push_hex16(&mut out, projection.projection_hash());
    out.append("\n");
    out.append("outcome=");
    match readout.outcome {
        NavPathOutcome::Reached => out.append("Reached"),
        NavPathOutcome::NoPath => out.append("NoPath"),
    }
    out.append("\n");
    out.append("visited=");
    push_dec(&mut out, readout.visited as u64);
    out.append("\n");
    out.append("path_len=");
    push_dec(&mut out, readout.path.len() as u64);
    out.append("\n");
    out.append("path=");
    let ghost head = out@;
    let mut i: usize = 0;
    while i < readout.path.len()
        invariant
            i <= readout.path@.len(),
            out@ == head + path_text(readout.path@.take(i as int)),
        decreases readout.path@.len() - i,
    {
        let ghost before = out@;
        if i > 0 {
            out.append(" -> ");
        }
        push_coord(&mut out, readout.path[i]);
        proof {
            let t = readout.path@.take(i + 1);
            assert(t.drop_last() =~= readout.path@.take(i as int));
            if i == 0 {
                assert(readout.path@.take(0) =~= Seq::<VoxelCoord>::empty());
                assert(out@ =~= head + path_text(t));
            } else {
                assert(out@ =~= head + path_text(t));
            }
        }
        i = i + 1;
    }
    assert(readout.path@.take(i as int) =~= readout.path@);
    out.append("\n");
    out.append("path_hash=");
    push_hex16(&mut out, readout.path_hash);
    out.append("\n");
    assert(out@ =~= nav_path_text(
        projection.cells().len(),
        coords_hash(projection.cells()),
        readout.outcome,
        readout.visited as nat,
        readout.path@,
        readout.path_hash,
    ));
    out
}

} // verus!
