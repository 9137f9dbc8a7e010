use asha_services::nav::VoxelCoord;
use asha_services::voxel_asset::{sparse_runs, voxel_bounds, SparseRun, VoxelBounds};

fn v(x: i64, y: i64, z: i64, m: u16) -> (VoxelCoord, u16) {
    (VoxelCoord::new(x, y, z), m)
}

#[test]
fn runs_pack_rows_along_x() {
    let voxels = vec![v(2, 0, 0, 1), v(0, 0, 0, 1), v(1, 0, 0, 1), v(0, 1, 0, 1), v(3, 0, 0, 2), v(0, 0, 1, 1)];
    assert_eq!(
        sparse_runs(&voxels),
        vec![
            SparseRun { start: VoxelCoord::new(0, 0, 0), length: 3, material: 1 },
            SparseRun { start: VoxelCoord::new(3, 0, 0), length: 1, material: 2 },
            SparseRun { start: VoxelCoord::new(0, 1, 0), length: 1, material: 1 },
            SparseRun { start: VoxelCoord::new(0, 0, 1), length: 1, material: 1 },
        ]
    );
    assert!(sparse_runs(&[]).is_empty());
}

#[test]
fn runs_expand_back_to_the_voxels() {
    let mut voxels = Vec::new();
    for z in 0..3 {
        for x in (0..5).rev() {
            if (x + z) % 4 != 0 {
                voxels.push(v(x, 1, z, (x % 2) as u16));
            }
        }
    }
    let runs = sparse_runs(&voxels);
    let mut expanded = Vec::new();
    for r in &runs {
        for k in 0..r.length as i64 {
            expanded.push(v(r.start.x + k, r.start.y, r.start.z, r.material));
        }
    }
    let mut sorted = voxels.clone();
    sorted.sort_by_key(|(c, m)| (c.z, c.y, c.x, *m));
    assert_eq!(expanded, sorted);
}

#[test]
fn bounds_cover_every_voxel() {
    assert_eq!(voxel_bounds(&[]), None);
    let voxels = vec![v(2, 5, -1, 1), v(-3, 0, 4, 1), v(0, 7, 0, 2)];
    assert_eq!(
        voxel_bounds(&voxels),
        Some(VoxelBounds { min: VoxelCoord::new(-3, 0, -1), max: VoxelCoord::new(2, 7, 4) })
    );
}
