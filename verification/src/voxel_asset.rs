//! The sparse form of a voxel asset: the resident solid voxels of a world,
//! ordered by depth, height and then width, packed into runs along x, and
//! the bounding box of those voxels.

use vstd::prelude::*;
use crate::nav::VoxelCoord;

verus! {

/// A resident solid voxel and its material.
pub type MaterialVoxel = (VoxelCoord, u16);

/// Order of voxels in a sparse asset: by z, then y, then x, then material.
pub open spec fn zyx_lt(a: MaterialVoxel, b: MaterialVoxel) -> bool {
    a.0.z < b.0.z || (a.0.z == b.0.z && (a.0.y < b.0.y || (a.0.y == b.0.y && (a.0.x < b.0.x || (
    a.0.x == b.0.x && a.1 < b.1)))))
}

pub open spec fn zyx_sorted(s: Seq<MaterialVoxel>) -> bool {
    forall|i: int, j: int| 0 <= i < j < s.len() ==> zyx_lt(#[trigger] s[i], #[trigger] s[j])
}

/// No coordinate occurs twice.
pub open spec fn coords_distinct(s: Seq<MaterialVoxel>) -> bool {
    forall|i: int, j: int| 0 <= i < j < s.len() ==> (#[trigger] s[i]).0 != (#[trigger] s[j]).0
}

/// `s` and `t` hold the same voxels.
pub open spec fn same_voxels(s: Seq<MaterialVoxel>, t: Seq<MaterialVoxel>) -> bool {
    forall|v: MaterialVoxel| s.contains(v) <==> t.contains(v)
}

/// The voxels of `v` in sparse-asset order (there is exactly one such
/// arrangement, see `lemma_zyx_sorted_unique`).
pub open spec fn zyx_sorted_of(v: Seq<MaterialVoxel>) -> Seq<MaterialVoxel> {
    choose|s: Seq<MaterialVoxel>| zyx_sorted(s) && same_voxels(s, v)
}

/// Two sequences in sparse-asset order holding the same voxels are equal.
pub proof fn lemma_zyx_sorted_unique(s: Seq<MaterialVoxel>, t: Seq<MaterialVoxel>)
    requires
        zyx_sorted(s),
        zyx_sorted(t),
        same_voxels(s, t),
    ensures
        s == t,
    decreases s.len(),
{
    if s.len() == 0 {
        if t.len() > 0 {
            assert(t.contains(t[0]));
        }
        assert(s =~= t);
    } else {
        assert(s.contains(s[0]));
        let j = choose|j: int| 0 <= j < t.len() && t[j] == s[0];
        assert(t.contains(t[0]));
        let i = choose|i: int| 0 <= i < s.len() && s[i] == t[0];
        if j > 0 {
            assert(zyx_lt(t[0], t[j]));
            if i > 0 {
                assert(zyx_lt(s[0], s[i]));
            }
            assert(false);
        }
        let s1 = s.drop_first();
        let t1 = t.drop_first();
        assert forall|v: MaterialVoxel| s1.contains(v) <==> t1.contains(v) by {
            if s1.contains(v) {
                let a = choose|a: int| 0 <= a < s1.len() && s1[a] == v;
                assert(s[a + 1] == v && s.contains(v));
                assert(zyx_lt(s[0], s[a + 1]));
                let b = choose|b: int| 0 <= b < t.len() && t[b] == v;
                assert(b != 0);
                assert(t1[b - 1] == v);
            }
            if t1.contains(v) {
                let a = choose|a: int| 0 <= a < t1.len() && t1[a] == v;
                assert(t[a + 1] == v && t.contains(v));
                assert(zyx_lt(t[0], t[a + 1]));
                let b = choose|b: int| 0 <= b < s.len() && s[b] == v;
                assert(b != 0);
                assert(s1[b - 1] == v);
            }
        }
        assert forall|a: int, b: int| 0 <= a < b < s1.len() implies zyx_lt(#[trigger] s1[a], #[trigger] s1[b]) by {
            assert(s1[a] == s[a + 1] && s1[b] == s[b + 1]);
        }
        assert forall|a: int, b: int| 0 <= a < b < t1.len() implies zyx_lt(#[trigger] t1[a], #[trigger] t1[b]) by {
            assert(t1[a] == t[a + 1] && t1[b] == t[b + 1]);
        }
        lemma_zyx_sorted_unique(s1, t1);
        assert(s =~= seq![s[0]] + s1);
        assert(t =~= seq![t[0]] + t1);
    }
}

fn zyx_less(a: MaterialVoxel, b: MaterialVoxel) -> (r: bool)
    ensures
        r == zyx_lt(a, b),
{
    a.0.z < b.0.z || (a.0.z == b.0.z && (a.0.y < b.0.y || (a.0.y == b.0.y && (a.0.x < b.0.x || (
    a.0.x == b.0.x && a.1 < b.1)))))
}

/// The voxels in sparse-asset order.
pub fn sort_zyx(voxels: &[MaterialVoxel]) -> (r: Vec<MaterialVoxel>)
    requires
        coords_distinct(voxels@),
    ensures
        r@ == zyx_sorted_of(voxels@),
        zyx_sorted(r@),
        same_voxels(r@, voxels@),
        r@.len() == voxels@.len(),
{
    let mut out: Vec<MaterialVoxel> = Vec::new();
    let mut i: usize = 0;
    while i < voxels.len()
        invariant
            i <= voxels@.len(),
            coords_distinct(voxels@),
            zyx_sorted(out@),
            same_voxels(out@, voxels@.take(i as int)),
            out@.len() == i,
        decreases voxels@.len() - i,
    {
        let x = voxels[i];
        let mut pos: usize = 0;
        while pos < out.len()
            invariant
                pos <= out@.len(),
                forall|t: int| 0 <= t < pos ==> !zyx_lt(x, #[trigger] out@[t]),
            ensures
                pos <= out@.len(),
                forall|t: int| 0 <= t < pos ==> !zyx_lt(x, #[trigger] out@[t]),
                pos < out@.len() ==> zyx_lt(x, out@[pos as int]),
            decreases out@.len() - pos,
        {
            if zyx_less(x, out[pos]) {
                break;
            }
            pos = pos + 1;
        }
        let ghost before = out@;
        proof {
            // `x` differs from every voxel already placed.
            assert forall|t: int| 0 <= t < before.len() implies before[t] != x by {
                let t0 = voxels@.take(i as int);
                assert(t0.contains(before[t])) by {
                    assert(before.contains(before[t]));
                }
                let k = choose|k: int| 0 <= k < t0.len() && t0[k] == before[t];
                assert(voxels@[k] == before[t]);
                assert(voxels@[i as int] == x);
                assert(voxels@[k].0 != voxels@[i as int].0);
            }
        }
        out.insert(pos, x);
        proof {
            let q = out@;
            assert forall|a: int, b: int| 0 <= a < b < q.len() implies zyx_lt(#[trigger] q[a], #[trigger] q[b]) by {
                if b < pos {
                    assert(q[a] == before[a] && q[b] == before[b]);
                } else if a > pos {
                    assert(q[a] == before[a - 1] && q[b] == before[b - 1]);
                } else if a < pos && b > pos {
                    assert(q[a] == before[a] && q[b] == before[b - 1]);
                } else if a == pos {
                    assert(q[b] == before[b - 1]);
                    if b - 1 > pos {
                        assert(zyx_lt(before[pos as int], before[b - 1]));
                    }
                } else {
                    assert(q[a] == before[a]);
                    assert(!zyx_lt(x, before[a]));
                    assert(before[a] != x);
                }
            }
            let t0 = voxels@.take(i as int);
            let t1 = voxels@.take(i + 1);
            assert(t1 =~= t0.push(x));
            assert forall|v: MaterialVoxel| q.contains(v) <==> t1.contains(v) by {
                if q.contains(v) {
                    let a = choose|a: int| 0 <= a < q.len() && q[a] == v;
                    if a < pos {
                        assert(before[a] == v && before.contains(v));
                    } else if a > pos {
                        assert(before[a - 1] == v && before.contains(v));
                    }
                    if v != x {
                        assert(t0.contains(v));
                        let k = choose|k: int| 0 <= k < t0.len() && t0[k] == v;
                        assert(t1[k] == v);
                    } else {
                        assert(t1[i as int] == v);
                    }
                }
                if t1.contains(v) {
                    let k = choose|k: int| 0 <= k < t1.len() && t1[k] == v;
                    if k == i {
                        assert(q[pos as int] == v);
                    } else {
                        assert(t0[k] == v);
                        assert(t0.contains(v));
                        assert(before.contains(v));
                        let a = choose|a: int| 0 <= a < before.len() && before[a] == v;
                        if a < pos {
                            assert(q[a] == v);
                        } else {
                            assert(q[a + 1] == v);
                        }
                    }
                }
            }
        }
        i = i + 1;
    }
    proof {
        assert(voxels@.take(i as int) =~= voxels@);
        let c = zyx_sorted_of(voxels@);
        assert(zyx_sorted(c) && same_voxels(c, voxels@));
        lemma_zyx_sorted_unique(out@, c);
    }
    out
}

/// A run of voxels of one material along +x, starting at `start`.
#[derive(Debug, Clone, Copy, PartialEq, Eq, Structural)]
pub struct SparseRun {
    pub start: VoxelCoord,
    pub length: u32,
    pub material: u16,
}

/// The voxel `v` continues the run `r`: same row, same material, the next x.
pub open spec fn extends(r: SparseRun, v: MaterialVoxel) -> bool {
    &&& r.start.y == v.0.y
    &&& r.start.z == v.0.z
    &&& r.material == v.1
    &&& r.start.x + r.length == v.0.x
}

/// The run-length encoding of an ordered voxel list: each voxel continues
/// the last run when it can, else starts a new one.
pub open spec fn runs_of(s: Seq<MaterialVoxel>) -> Seq<SparseRun>
    decreases s.len(),
{
    if s.len() == 0 {
        Seq::empty()
    } else {
        let r = runs_of(s.drop_last());
        let v = s.last();
        if r.len() > 0 && extends(r.last(), v) {
            r.update(
                r.len() - 1,
                SparseRun {
                    start: r.last().start,
                    length: (r.last().length + 1) as u32,
                    material: r.last().material,
                },
            )
        } else {
            r.push(SparseRun { start: v.0, length: 1, material: v.1 })
        }
    }
}

/// The voxels a run stands for.
pub open spec fn run_voxels(r: SparseRun) -> Seq<MaterialVoxel> {
    Seq::new(
        r.length as nat,
        |k: int| (VoxelCoord { x: (r.start.x + k) as i64, y: r.start.y, z: r.start.z }, r.material),
    )
}

/// The voxels a list of runs stands for, in order.
pub open spec fn expand_runs(runs: Seq<SparseRun>) -> Seq<MaterialVoxel>
    decreases runs.len(),
{
    if runs.len() == 0 {
        Seq::empty()
    } else {
        expand_runs(runs.drop_last()) + run_voxels(runs.last())
    }
}

/// Expanding the runs of a voxel list gives the list back; every run is
/// non-empty and no longer than the list, and the last run ends at the last
/// voxel.
pub proof fn law_runs_expand_back(s: Seq<MaterialVoxel>)
    requires
        s.len() <= u32::MAX,
    ensures
        expand_runs(runs_of(s)) == s,
        forall|k: int| 0 <= k < runs_of(s).len() ==> 1 <= (#[trigger] runs_of(s)[k]).length <= s.len(),
        s.len() > 0 ==> runs_of(s).len() > 0 && runs_of(s).last().start.x + runs_of(s).last().length - 1
            == s.last().0.x,
    decreases s.len(),
{
    if s.len() > 0 {
        let p = s.drop_last();
        law_runs_expand_back(p);
        let r = runs_of(p);
        let v = s.last();
        if r.len() > 0 && extends(r.last(), v) {
            let last = r.last();
            let grown = SparseRun { start: last.start, length: (last.length + 1) as u32, material: last.material };
            let r2 = r.update(r.len() - 1, grown);
            assert(r2.drop_last() =~= r.drop_last());
            assert(run_voxels(grown) =~= run_voxels(last).push(v));
            assert(expand_runs(r) == expand_runs(r.drop_last()) + run_voxels(last));
            assert(expand_runs(r2) == expand_runs(r2.drop_last()) + run_voxels(r2.last()));
            assert(expand_runs(r2) =~= p.push(v));
            assert(s =~= p.push(v));
        } else {
            let fresh = SparseRun { start: v.0, length: 1, material: v.1 };
            let r2 = r.push(fresh);
            assert(r2.drop_last() =~= r);
            assert(run_voxels(fresh) =~= seq![v]);
            assert(s =~= p.push(v));
            assert(expand_runs(r2) =~= p + seq![v]);
        }
    }
}

/// The sparse runs of a voxel asset: the voxels in asset order, packed into
/// maximal runs along x. Expanding them gives the voxels back in that order.
pub fn sparse_runs(voxels: &[MaterialVoxel]) -> (runs: Vec<SparseRun>)
    requires
        coords_distinct(voxels@),
        voxels@.len() <= u32::MAX,
        forall|k: int| 0 <= k < voxels@.len() ==> (#[trigger] voxels@[k]).0.x < i64::MAX,
    ensures
        runs@ == runs_of(zyx_sorted_of(voxels@)),
        expand_runs(runs@) == zyx_sorted_of(voxels@),
{
    let sorted = sort_zyx(voxels);
    let mut runs: Vec<SparseRun> = Vec::new();
    let mut i: usize = 0;
    while i < sorted.len()
        invariant
            i <= sorted@.len() == voxels@.len() <= u32::MAX,
            same_voxels(sorted@, voxels@),
            forall|k: int| 0 <= k < voxels@.len() ==> (#[trigger] voxels@[k]).0.x < i64::MAX,
            runs@ == runs_of(sorted@.take(i as int)),
        decreases sorted@.len() - i,
    {
        let v = sorted[i];
        let ghost t = sorted@.take(i as int);
        proof {
            assert(sorted@.take(i + 1).drop_last() =~= t);
            assert(sorted@.take(i + 1).last() == v);
            law_runs_expand_back(t);
            if i > 0 {
                assert(t.last() == sorted@[i - 1]);
                assert(sorted@.contains(sorted@[i - 1]));
                let k = choose|k: int| 0 <= k < voxels@.len() && voxels@[k] == sorted@[i - 1];
                assert(voxels@[k].0.x < i64::MAX);
            }
        }
        let n = runs.len();
        let mut extended = false;
        if n > 0 {
            let last = runs[n - 1];
            if last.start.y == v.0.y && last.start.z == v.0.z && last.material == v.1
                && last.start.x + last.length as i64 == v.0.x {
                runs.set(n - 1, SparseRun { start: last.start, length: last.length + 1, material: last.material });
                extended = true;
            }
        }
        if !extended {
            runs.push(SparseRun { start: v.0, length: 1, material: v.1 });
        }
        i = i + 1;
    }
    proof {
        assert(sorted@.take(i as int) =~= sorted@);
        law_runs_expand_back(sorted@);
    }
    runs
}

/// The smallest box holding a set of voxels.
#[derive(Debug, Clone, Copy, PartialEq, Eq, Structural)]
pub struct VoxelBounds {
    pub min: VoxelCoord,
    pub max: VoxelCoord,
}

/// `b` is the bounding box of the voxels `v`: it holds every voxel and each
/// face touches one.
pub open spec fn is_bounds(b: VoxelBounds, v: Seq<MaterialVoxel>) -> bool {
    &&& forall|k: int|
        0 <= k < v.len() ==> b.min.x <= (#[trigger] v[k]).0.x <= b.max.x && b.min.y <= v[k].0.y
            <= b.max.y && b.min.z <= v[k].0.z <= b.max.z
    &&& exists|k: int| 0 <= k < v.len() && (#[trigger] v[k]).0.x == b.min.x
    &&& exists|k: int| 0 <= k < v.len() && (#[trigger] v[k]).0.y == b.min.y
    &&& exists|k: int| 0 <= k < v.len() && (#[trigger] v[k]).0.z == b.min.z
    &&& exists|k: int| 0 <= k < v.len() && (#[trigger] v[k]).0.x == b.max.x
    &&& exists|k: int| 0 <= k < v.len() && (#[trigger] v[k]).0.y == b.max.y
    &&& exists|k: int| 0 <= k < v.len() && (#[trigger] v[k]).0.z == b.max.z
}

/// The bounding box of the voxels, or `None` when there are none.
pub fn voxel_bounds(voxels: &[MaterialVoxel]) -> (r: Option<VoxelBounds>)
    ensures
        voxels@.len() == 0 <==> r is None,
        r matches Some(b) ==> is_bounds(b, voxels@),
{
    if voxels.len() == 0 {
        return None;
    }
    let first = voxels[0].0;
    let mut min = first;
    let mut max = first;
    let mut i: usize = 1;
    assert(voxels@.take(1)[0] == voxels@[0]);
    while i < voxels.len()
        invariant
            1 <= i <= voxels@.len(),
            is_bounds(VoxelBounds { min, max }, voxels@.take(i as int)),
        decreases voxels@.len() - i,
    {
        let c = voxels[i].0;
        let ghost t = voxels@.take(i as int);
        let ghost t1 = voxels@.take(i + 1);
        let ghost (min0, max0) = (min, max);
        min = VoxelCoord {
            x: if c.x < min.x { c.x } else { min.x },
            y: if c.y < min.y { c.y } else { min.y },
            z: if c.z < min.z { c.z } else { min.z },
        };
        max = VoxelCoord {
            x: if c.x > max.x { c.x } else { max.x },
            y: if c.y > max.y { c.y } else { max.y },
            z: if c.z > max.z { c.z } else { max.z },
        };
        proof {
            let b0 = VoxelBounds { min: min0, max: max0 };
            let b = VoxelBounds { min, max };
            assert forall|k: int| 0 <= k < t1.len() implies b.min.x <= (#[trigger] t1[k]).0.x <= b.max.x
                && b.min.y <= t1[k].0.y <= b.max.y && b.min.z <= t1[k].0.z <= b.max.z by {
                if k < i {
                    assert(t1[k] == t[k]);
                }
            }
            let kx = choose|k: int| 0 <= k < t.len() && (#[trigger] t[k]).0.x == b0.min.x;
            let ky = choose|k: int| 0 <= k < t.len() && (#[trigger] t[k]).0.y == b0.min.y;
            let kz = choose|k: int| 0 <= k < t.len() && (#[trigger] t[k]).0.z == b0.min.z;
            let lx = choose|k: int| 0 <= k < t.len() && (#[trigger] t[k]).0.x == b0.max.x;
            let ly = choose|k: int| 0 <= k < t.len() && (#[trigger] t[k]).0.y == b0.max.y;
            let lz = choose|k: int| 0 <= k < t.len() && (#[trigger] t[k]).0.z == b0.max.z;
            assert(t1[kx] == t[kx] && t1[ky] == t[ky] && t1[kz] == t[kz]);
            assert(t1[lx] == t[lx] && t1[ly] == t[ly] && t1[lz] == t[lz]);
            assert(t1[i as int].0 == c);
        }
        i = i + 1;
    }
    assert(voxels@.take(i as int) =~= voxels@);
    Some(VoxelBounds { min, max })
}

} // verus!
