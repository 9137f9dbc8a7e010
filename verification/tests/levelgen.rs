use asha_services::levelgen::{
    hash_config, hash_output, material_for_cell, player_yaw, spawn_markers, tunnel_layout,
    validate_tunnel_shape, ChunkCoord, GeneratedRenderChunk, TunnelPreset, TunnelShape,
    TunnelShapeError,
};
use asha_services::nav::VoxelCoord;

fn fnv(bytes: &[u8]) -> u64 {
    let mut h = 0xcbf2_9ce4_8422_2325u64;
    for b in bytes {
        h ^= *b as u64;
        h = h.wrapping_mul(0x0000_0100_0000_01b3);
    }
    h
}

fn tiny_shape() -> TunnelShape {
    TunnelShape {
        width: 5,
        height: 4,
        length: 9,
        chunk_dims: [8, 6, 12],
        wall_material: 1,
        floor_material: 2,
        accent_material: 3,
    }
}

#[test]
fn invalid_config_is_rejected() {
    let mut shape = tiny_shape();
    shape.width = 2;
    assert!(matches!(
        validate_tunnel_shape(&shape),
        Err(TunnelShapeError::TooSmall { .. })
    ));

    let mut shape = tiny_shape();
    shape.accent_material = shape.wall_material;
    assert!(matches!(
        validate_tunnel_shape(&shape),
        Err(TunnelShapeError::DuplicateMaterials { .. })
    ));
}

#[test]
fn oversized_tunnel_does_not_fit_its_chunk() {
    let mut shape = tiny_shape();
    shape.length = 13;
    assert_eq!(
        validate_tunnel_shape(&shape),
        Err(TunnelShapeError::ExceedsChunkDims {
            dims: [8, 6, 12],
            width: 5,
            height: 4,
            length: 13
        })
    );
    let mut shape = tiny_shape();
    shape.floor_material = 3;
    assert_eq!(
        validate_tunnel_shape(&shape),
        Err(TunnelShapeError::DuplicateMaterials { material: 2 + 1 })
    );
    assert_eq!(validate_tunnel_shape(&tiny_shape()), Ok(()));
}

#[test]
fn layout_is_the_shell_of_the_box() {
    let shape = tiny_shape();
    let cells = tunnel_layout(&shape, true, 2);
    // 5 * 4 * 9 cells, less the 3 * 2 * 7 interior.
    assert_eq!(cells.len(), 180 - 42);
    let floors = cells.iter().filter(|c| c.y == 0).count();
    assert_eq!(floors, 45);
    assert!(cells.iter().filter(|c| c.y == 0).all(|c| c.material == 2));
    let accents: Vec<_> = cells.iter().filter(|c| c.material == 3).collect();
    assert_eq!(accents.len(), 1);
    assert_eq!((accents[0].x, accents[0].y, accents[0].z), (4, 1, 3));
    for pair in cells.windows(2) {
        let a = (pair[0].z, pair[0].y, pair[0].x);
        let b = (pair[1].z, pair[1].y, pair[1].x);
        assert!(a < b);
    }
}

#[test]
fn accent_moves_with_side_and_offset() {
    let shape = tiny_shape();
    let cells = tunnel_layout(&shape, false, 0);
    let accents: Vec<_> = cells.iter().filter(|c| c.material == 3).collect();
    assert_eq!(accents.len(), 1);
    assert_eq!((accents[0].x, accents[0].y, accents[0].z), (0, 1, 1));
    assert_eq!(material_for_cell(&shape, 0, 1, 1, false, 1), Some(3));
    assert_eq!(material_for_cell(&shape, 2, 1, 4, false, 1), None);
    assert_eq!(material_for_cell(&shape, 2, 0, 4, false, 1), Some(2));
    assert_eq!(material_for_cell(&shape, 2, 3, 4, false, 1), Some(1));
}

#[test]
fn spawn_markers_stand_in_open_air() {
    let shape = tiny_shape();
    let markers = spawn_markers(&shape, player_yaw(true));
    assert_eq!(markers.len(), 2);
    assert_eq!(markers[0].id, "player_start");
    assert_eq!(markers[0].kind, "player");
    assert_eq!(markers[0].voxel, VoxelCoord::new(1, 1, 1));
    assert_eq!(markers[0].yaw_degrees, 0);
    assert_eq!(markers[1].id, "exit_hint");
    assert_eq!(markers[1].kind, "navigation");
    assert_eq!(markers[1].voxel, VoxelCoord::new(3, 1, 7));
    assert_eq!(markers[1].yaw_degrees, 180);
    let cells = tunnel_layout(&shape, true, 2);
    for m in &markers {
        assert!(!cells.iter().any(|c| c.x as i64 == m.voxel.x
            && c.y as i64 == m.voxel.y
            && c.z as i64 == m.voxel.z));
    }
    assert_eq!(player_yaw(false), 90);
}

#[test]
fn config_hash_covers_every_field() {
    let shape = tiny_shape();
    let mut bytes = b"tiny-enclosed".to_vec();
    bytes.extend_from_slice(&17u64.to_le_bytes());
    bytes.extend_from_slice(&0u32.to_le_bytes());
    bytes.extend_from_slice(&1.0f64.to_bits().to_le_bytes());
    for v in [8u32, 6, 12, 5, 4, 9, 1, 2, 3] {
        bytes.extend_from_slice(&v.to_le_bytes());
    }
    let seventeen = hash_config(TunnelPreset::TinyEnclosed, 17, 0, 1.0f64.to_bits(), &shape);
    assert_eq!(seventeen, fnv(&bytes));
    assert_ne!(
        seventeen,
        hash_config(TunnelPreset::TinyEnclosed, 18, 0, 1.0f64.to_bits(), &shape)
    );
    assert_eq!(TunnelPreset::TinyEnclosed.label(), "tiny-enclosed");
}

#[test]
fn output_hash_covers_chunks_markers_and_colliders() {
    let shape = tiny_shape();
    let markers = spawn_markers(&shape, 90);
    let chunks = [GeneratedRenderChunk {
        chunk: ChunkCoord { x: 0, y: 0, z: 0 },
        content_hash: 0x1234,
        solid_voxels: 138,
    }];
    let mut bytes = 99u64.to_le_bytes().to_vec();
    for v in [0i64, 0, 0] {
        bytes.extend_from_slice(&v.to_le_bytes());
    }
    bytes.extend_from_slice(&0x1234u64.to_le_bytes());
    bytes.extend_from_slice(&138u32.to_le_bytes());
    for (id, kind, v, yaw) in [
        ("player_start", "player", [1i64, 1, 1], 90i64),
        ("exit_hint", "navigation", [3, 1, 7], 180),
    ] {
        bytes.extend_from_slice(id.as_bytes());
        bytes.extend_from_slice(kind.as_bytes());
        for c in v {
            bytes.extend_from_slice(&c.to_le_bytes());
        }
        bytes.extend_from_slice(&yaw.to_le_bytes());
    }
    bytes.extend_from_slice(&1u64.to_le_bytes());
    assert_eq!(hash_output(99, &chunks, &markers, 1), fnv(&bytes));
}
