//! Deterministic enclosed-tunnel generation: shape validation, the voxel
//! layout of the tunnel shell, spawn markers and the replay hashes.
//!
//! Random draws (accent side, accent offset, player yaw) and the voxel
//! chunk storage are supplied from outside; everything decided from them is
//! here.

use vstd::prelude::*;
use vstd::string::StringSliceAdditionalSpecFns;
use crate::fnv::{fnv_bytes, fnv_offset, feed_u32, feed_u64, feed_i64, feed_str, le_u32, le_u64, le_i64, lemma_fnv_concat, FNV_OFFSET};
use crate::nav::VoxelCoord;

verus! {

/// Identity of the tunnel generator in records and provenance.
pub const TUNNEL_GENERATOR_ID: &'static str = "asha.tunnel.enclosed.v1";

/// Version of the tunnel generator in records and provenance.
pub const TUNNEL_GENERATOR_VERSION: u32 = 1;

/// Minimal generic preset vocabulary for enclosed voxel tunnel spaces.
#[derive(Debug, Clone, Copy, PartialEq, Eq, Structural)]
pub enum TunnelPreset {
    TinyEnclosed,
}

impl TunnelPreset {
    pub open spec fn label_text(self) -> Seq<char> {
        match self {
            TunnelPreset::TinyEnclosed => "tiny-enclosed"@,
        }
    }

    pub fn label(self) -> (s: &'static str)
        ensures
            s@ == self.label_text(),
    {
        match self {
            TunnelPreset::TinyEnclosed => "tiny-enclosed",
        }
    }
}

/// The integer shape of a tunnel: its size in voxels, the chunk it must fit
/// in, and the three role materials.
#[derive(Debug, Clone, Copy, PartialEq, Eq)]
pub struct TunnelShape {
    pub width: u32,
    pub height: u32,
    pub length: u32,
    pub chunk_dims: [u32; 3],
    pub wall_material: u16,
    pub floor_material: u16,
    pub accent_material: u16,
}

/// Classified validation failures of a tunnel shape.
#[derive(Debug, Clone, Copy, PartialEq, Eq)]
pub enum TunnelShapeError {
    TooSmall { width: u32, height: u32, length: u32 },
    ExceedsChunkDims { dims: [u32; 3], width: u32, height: u32, length: u32 },
    DuplicateMaterials { material: u16 },
}

/// Shape validation: size first, then the chunk bounds, then distinct
/// materials (wall/floor, wall/accent, floor/accent); the first failing
/// check names the error.
pub open spec fn shape_check(s: TunnelShape) -> Result<(), TunnelShapeError> {
    if s.width < 3 || s.height < 3 || s.length < 4 {
        Err(TunnelShapeError::TooSmall { width: s.width, height: s.height, length: s.length })
    } else if s.width > s.chunk_dims[0] || s.height > s.chunk_dims[1] || s.length > s.chunk_dims[2] {
        Err(
            TunnelShapeError::ExceedsChunkDims {
                dims: s.chunk_dims,
                width: s.width,
                height: s.height,
                length: s.length,
            },
        )
    } else if s.wall_material == s.floor_material {
        Err(TunnelShapeError::DuplicateMaterials { material: s.wall_material })
    } else if s.wall_material == s.accent_material {
        Err(TunnelShapeError::DuplicateMaterials { material: s.wall_material })
    } else if s.floor_material == s.accent_material {
        Err(TunnelShapeError::DuplicateMaterials { material: s.floor_material })
    } else {
        Ok(())
    }
}

/// Reject a tunnel that is too small, does not fit its chunk, or reuses a
/// material for two roles.
pub fn validate_tunnel_shape(s: &TunnelShape) -> (r: Result<(), TunnelShapeError>)
    ensures
        r == shape_check(*s),
{
    if s.width < 3 || s.height < 3 || s.length < 4 {
        return Err(TunnelShapeError::TooSmall { width: s.width, height: s.height, length: s.length });
    }
    let dims = s.chunk_dims;
    if s.width > dims[0] || s.height > dims[1] || s.length > dims[2] {
        return Err(
            TunnelShapeError::ExceedsChunkDims {
                dims,
                width: s.width,
                height: s.height,
                length: s.length,
            },
        );
    }
    if s.wall_material == s.floor_material {
        return Err(TunnelShapeError::DuplicateMaterials { material: s.wall_material });
    }
    if s.wall_material == s.accent_material {
        return Err(TunnelShapeError::DuplicateMaterials { material: s.wall_material });
    }
    if s.floor_material == s.accent_material {
        return Err(TunnelShapeError::DuplicateMaterials { material: s.floor_material });
    }
    Ok(())
}

/// The cell lies on the outer shell of the tunnel box.
pub open spec fn on_shell(s: TunnelShape, x: u32, y: u32, z: u32) -> bool {
    x == 0 || x + 1 == s.width || y == 0 || y + 1 == s.height || z == 0 || z + 1 == s.length
}

/// The material of a tunnel cell: shell cells are floor at `y == 0`, the
/// single accent at (accent x, 1, accent z), wall otherwise; interior cells
/// are empty.
pub open spec fn cell_material(
    s: TunnelShape,
    x: u32,
    y: u32,
    z: u32,
    accent_side_is_positive_x: bool,
    accent_z: u32,
) -> Option<u16> {
    if !on_shell(s, x, y, z) {
        None
    } else {
        let accent_x = if accent_side_is_positive_x {
            s.width - 1
        } else {
            0
        };
        if x == accent_x && y == 1 && z == accent_z {
            Some(s.accent_material)
        } else if y == 0 {
            Some(s.floor_material)
        } else {
            Some(s.wall_material)
        }
    }
}

/// Material of one tunnel cell (see [`cell_material`]).
pub fn material_for_cell(
    s: &TunnelShape,
    x: u32,
    y: u32,
    z: u32,
    accent_side_is_positive_x: bool,
    accent_z: u32,
) -> (m: Option<u16>)
    requires
        x < s.width,
        y < s.height,
        z < s.length,
    ensures
        m == cell_material(*s, x, y, z, accent_side_is_positive_x, accent_z),
{
    let on_shell = x == 0 || x + 1 == s.width || y == 0 || y + 1 == s.height || z == 0 || z + 1
        == s.length;
    if !on_shell {
        return None;
    }
    let accent_x = if accent_side_is_positive_x {
        s.width - 1
    } else {
        0
    };
    if x == accent_x && y == 1 && z == accent_z {
        return Some(s.accent_material);
    }
    if y == 0 {
        Some(s.floor_material)
    } else {
        Some(s.wall_material)
    }
}

/// One solid voxel of the tunnel layout.
#[derive(Debug, Clone, Copy, PartialEq, Eq, Structural)]
pub struct TunnelCell {
    pub x: u32,
    pub y: u32,
    pub z: u32,
    pub material: u16,
}

/// Generation order of cells: by z, then y, then x.
pub open spec fn cell_order_lt(a: TunnelCell, b: TunnelCell) -> bool {
    a.z < b.z || (a.z == b.z && (a.y < b.y || (a.y == b.y && a.x < b.x)))
}

/// The cell comes before generation position (z, y, x).
pub open spec fn before_pos(c: TunnelCell, z: int, y: int, x: int) -> bool {
    c.z < z || (c.z == z && (c.y < y || (c.y == y && c.x < x)))
}

/// `c` is a solid cell of the layout.
pub open spec fn layout_cell(s: TunnelShape, side: bool, accent_z: u32, c: TunnelCell) -> bool {
    &&& c.x < s.width
    &&& c.y < s.height
    &&& c.z < s.length
    &&& cell_material(s, c.x, c.y, c.z, side, accent_z) == Some(c.material)
}

/// `cells` is the tunnel layout: exactly its solid cells, in generation order.
pub open spec fn is_tunnel_layout(
    s: TunnelShape,
    side: bool,
    accent_z: u32,
    cells: Seq<TunnelCell>,
) -> bool {
    &&& forall|i: int, j: int| 0 <= i < j < cells.len() ==> cell_order_lt(cells[i], cells[j])
    &&& forall|i: int| 0 <= i < cells.len() ==> layout_cell(s, side, accent_z, #[trigger] cells[i])
    &&& forall|c: TunnelCell| layout_cell(s, side, accent_z, c) ==> cells.contains(c)
}

/// Largest accent offset (exclusive) drawn from the generator's stream.
pub open spec fn accent_span(length: u32) -> u32 {
    if length >= 3 {
        (length - 2) as u32
    } else {
        1
    }
}

/// The number of depths the accent may take: the tunnel length less its two
/// end walls, and at least one.
pub fn tunnel_accent_span(length: u32) -> (r: u32)
    ensures
        r == accent_span(length),
        r >= 1,
{
    if length >= 3 {
        length - 2
    } else {
        1
    }
}

/// The solid voxels of a validated tunnel, in generation order (z, then y,
/// then x). The accent sits on the +x wall when `accent_side_is_positive_x`,
/// else on the -x wall, at z = 1 + `accent_offset`.
pub fn tunnel_layout(s: &TunnelShape, accent_side_is_positive_x: bool, accent_offset: u32) -> (cells: Vec<TunnelCell>)
    requires
        shape_check(*s) is Ok,
        accent_offset < accent_span(s.length),
    ensures
        is_tunnel_layout(*s, accent_side_is_positive_x, (accent_offset + 1) as u32, cells@),
{
    let accent_z = accent_offset + 1;
    let ghost side = accent_side_is_positive_x;
    let mut out: Vec<TunnelCell> = Vec::new();
    let mut z: u32 = 0;
    while z < s.length
        invariant
            shape_check(*s) is Ok,
            side == accent_side_is_positive_x,
            accent_z == accent_offset + 1,
            z <= s.length,
            forall|i: int, j: int| 0 <= i < j < out@.len() ==> cell_order_lt(out@[i], out@[j]),
            forall|i: int| 0 <= i < out@.len() ==> layout_cell(*s, side, accent_z, #[trigger] out@[i]),
            forall|i: int| 0 <= i < out@.len() ==> before_pos(#[trigger] out@[i], z as int, 0, 0),
            forall|c: TunnelCell| layout_cell(*s, side, accent_z, c) && before_pos(c, z as int, 0, 0) ==> out@.contains(c),
        decreases s.length - z,
    {
        let mut y: u32 = 0;
        while y < s.height
            invariant
                shape_check(*s) is Ok,
                side == accent_side_is_positive_x,
                z < s.length,
                y <= s.height,
                forall|i: int, j: int| 0 <= i < j < out@.len() ==> cell_order_lt(out@[i], out@[j]),
                forall|i: int| 0 <= i < out@.len() ==> layout_cell(*s, side, accent_z, #[trigger] out@[i]),
                forall|i: int| 0 <= i < out@.len() ==> before_pos(#[trigger] out@[i], z as int, y as int, 0),
                forall|c: TunnelCell| layout_cell(*s, side, accent_z, c) && before_pos(c, z as int, y as int, 0) ==> out@.contains(c),
            decreases s.height - y,
        {
            let mut x: u32 = 0;
            while x < s.width
                invariant
                    shape_check(*s) is Ok,
                    side == accent_side_is_positive_x,
                    z < s.length,
                    y < s.height,
                    x <= s.width,
                    forall|i: int, j: int| 0 <= i < j < out@.len() ==> cell_order_lt(out@[i], out@[j]),
                    forall|i: int| 0 <= i < out@.len() ==> layout_cell(*s, side, accent_z, #[trigger] out@[i]),
                    forall|i: int| 0 <= i < out@.len() ==> before_pos(#[trigger] out@[i], z as int, y as int, x as int),
                    forall|c: TunnelCell| layout_cell(*s, side, accent_z, c) && before_pos(c, z as int, y as int, x as int) ==> out@.contains(c),
                decreases s.width - x,
            {
                let ghost prev = out@;
                let m = material_for_cell(s, x, y, z, accent_side_is_positive_x, accent_z);
                match m {
                    Some(material) => {
                        let cell = TunnelCell { x, y, z, material };
                        out.push(cell);
                        proof {
                            assert forall|i: int| 0 <= i < out@.len() implies layout_cell(*s, side, accent_z, #[trigger] out@[i]) by {
                                if i < prev.len() {
                                    assert(prev[i] == out@[i]);
                                }
                            }
                            assert forall|i: int| 0 <= i < out@.len() implies before_pos(#[trigger] out@[i], z as int, y as int, x + 1) by {
                                if i < prev.len() {
                                    assert(prev[i] == out@[i]);
                                }
                            }
                            assert forall|i: int, j: int| 0 <= i < j < out@.len() implies cell_order_lt(out@[i], out@[j]) by {
                                if j < prev.len() {
                                    assert(prev[i] == out@[i]);
                                    assert(prev[j] == out@[j]);
                                } else {
                                    assert(prev[i] == out@[i]);
                                    assert(before_pos(prev[i], z as int, y as int, x as int));
                                }
                            }
                            assert forall|c: TunnelCell| layout_cell(*s, side, accent_z, c) && before_pos(c, z as int, y as int, x + 1) implies out@.contains(c) by {
                                if before_pos(c, z as int, y as int, x as int) {
                                    assert(prev.contains(c));
                                    let k = choose|k: int| 0 <= k < prev.len() && prev[k] == c;
                                    assert(out@[k] == c);
                                } else {
                                    assert(c.x == x && c.y == y && c.z == z);
                                    assert(c.material == material);
                                    assert(c == cell);
                                    assert(out@[out@.len() - 1] == c);
                                }
                            }
                        }
                    },
                    None => {
                        proof {
                            assert forall|c: TunnelCell| layout_cell(*s, side, accent_z, c) && before_pos(c, z as int, y as int, x + 1) implies out@.contains(c) by {
                                if !before_pos(c, z as int, y as int, x as int) {
                                    assert(c.x == x && c.y == y && c.z == z);
                                }
                            }
                        }
                    },
                }
                x = x + 1;
            }
            y = y + 1;
        }
        z = z + 1;
    }
    out
}

/// Yaw of the player start marker from the generator's coin flip.
pub fn player_yaw(flip: bool) -> (yaw: i32)
    ensures
        yaw == (if flip {
            0i32
        } else {
            90i32
        }),
{
    if flip {
        0
    } else {
        90
    }
}

/// Integer chunk coordinate.
#[derive(Debug, Clone, Copy, PartialEq, Eq, Structural)]
pub struct ChunkCoord {
    pub x: i64,
    pub y: i64,
    pub z: i64,
}

/// Per-chunk render projection input.
#[derive(Debug, Clone, Copy, PartialEq, Eq, Structural)]
pub struct GeneratedRenderChunk {
    pub chunk: ChunkCoord,
    pub content_hash: u64,
    pub solid_voxels: u32,
}

/// In a valid tunnel both spawn voxels, the player start (1, 1, 1) and the
/// exit hint, are open air: the layout puts no solid cell there.
pub proof fn law_spawn_voxels_are_open(s: TunnelShape, side: bool, accent_z: u32)
    requires
        shape_check(s) is Ok,
    ensures
        cell_material(s, 1, 1, 1, side, accent_z) is None,
        cell_material(s, (s.width - 2) as u32, 1, (s.length - 2) as u32, side, accent_z) is None,
{
}

/// In a valid tunnel the floor is exactly the bottom layer: a shell cell is
/// laid in the floor material exactly when `y == 0`; a shell cell above it
/// that is not the accent cell is wall; an interior cell is open.
pub proof fn law_floor_is_the_bottom_layer(
    s: TunnelShape,
    side: bool,
    accent_z: u32,
    x: u32,
    y: u32,
    z: u32,
)
    requires
        shape_check(s) is Ok,
        x < s.width,
        y < s.height,
        z < s.length,
    ensures
        cell_material(s, x, y, z, side, accent_z) == Some(s.floor_material) <==> (on_shell(s, x, y, z) && y == 0),
        on_shell(s, x, y, z) && y > 0 && !(x == (if side { (s.width - 1) as u32 } else { 0u32 }) && y == 1
            && z == accent_z) ==> cell_material(s, x, y, z, side, accent_z) == Some(s.wall_material),
        !on_shell(s, x, y, z) ==> cell_material(s, x, y, z, side, accent_z) is None,
{
}

/// In a valid tunnel the accent material marks exactly one cell: the cell
/// at height 1 on the chosen side wall at the accent depth, which lies on the
/// shell whenever that depth is inside the tunnel.
pub proof fn law_single_accent_cell(s: TunnelShape, side: bool, accent_z: u32, c: TunnelCell)
    requires
        shape_check(s) is Ok,
        1 <= accent_z <= s.length - 2,
    ensures
        layout_cell(s, side, accent_z, c) && c.material == s.accent_material <==> (c.x == (if side {
            (s.width - 1) as u32
        } else {
            0u32
        }) && c.y == 1 && c.z == accent_z && c.material == s.accent_material),
{
}

/// A generated marker consumers can map to game-specific spawn concepts
/// (its world position is derived from the grid by the caller).
#[derive(Debug, Clone, Copy, PartialEq, Eq)]
pub struct SpawnMarkerRecord {
    pub id: &'static str,
    pub kind: &'static str,
    pub voxel: VoxelCoord,
    pub yaw_degrees: i32,
}

/// The voxel of the exit hint: one cell in from the +x wall and the far end.
pub open spec fn exit_hint_voxel(s: TunnelShape) -> VoxelCoord {
    VoxelCoord { x: (s.width - 2) as i64, y: 1, z: (s.length - 2) as i64 }
}

/// The two spawn markers of a tunnel: the player start at (1, 1, 1) facing
/// `player_yaw`, and the exit hint facing 180 degrees.
pub fn spawn_markers(s: &TunnelShape, player_yaw: i32) -> (m: Vec<SpawnMarkerRecord>)
    requires
        shape_check(*s) is Ok,
    ensures
        m@.len() == 2,
        m@[0].id@ == "player_start"@,
        m@[0].kind@ == "player"@,
        m@[0].voxel == (VoxelCoord { x: 1, y: 1, z: 1 }),
        m@[0].yaw_degrees == player_yaw,
        m@[1].id@ == "exit_hint"@,
        m@[1].kind@ == "navigation"@,
        m@[1].voxel == exit_hint_voxel(*s),
        m@[1].yaw_degrees == 180,
{
    let mut m: Vec<SpawnMarkerRecord> = Vec::new();
    m.push(
        SpawnMarkerRecord {
            id: "player_start",
            kind: "player",
            voxel: VoxelCoord::new(1, 1, 1),
            yaw_degrees: player_yaw,
        },
    );
    m.push(
        SpawnMarkerRecord {
            id: "exit_hint",
            kind: "navigation",
            voxel: VoxelCoord::new(s.width as i64 - 2, 1, s.length as i64 - 2),
            yaw_degrees: 180,
        },
    );
    m
}

} // verus!

verus! {

/// The bytes of a generator configuration hash.
pub open spec fn config_bytes(
    preset: TunnelPreset,
    seed: u64,
    grid_id: u32,
    voxel_size_bits: u64,
    s: TunnelShape,
) -> Seq<u8> {
    preset.label_text().map_values(|c: char| c as u8) + le_u64(seed) + le_u32(grid_id) + le_u64(
        voxel_size_bits,
    ) + le_u32(s.chunk_dims[0]) + le_u32(s.chunk_dims[1]) + le_u32(s.chunk_dims[2]) + le_u32(
        s.width,
    ) + le_u32(s.height) + le_u32(s.length) + le_u32(s.wall_material as u32) + le_u32(
        s.floor_material as u32,
    ) + le_u32(s.accent_material as u32)
}

/// Stable hash of a generator configuration: FNV-1a over the preset label,
/// seed, grid id, the bit pattern of the voxel size, chunk dims, tunnel dims
/// and the three materials.
pub fn hash_config(
    preset: TunnelPreset,
    seed: u64,
    grid_id: u32,
    voxel_size_bits: u64,
    s: &TunnelShape,
) -> (h: u64)
    ensures
        h == fnv_bytes(FNV_OFFSET, config_bytes(preset, seed, grid_id, voxel_size_bits, *s)),
{
    let mut h = fnv_offset();
    let label = preset.label();
    proof {
        reveal_strlit("tiny-enclosed");
        vstd::string::is_ascii_spec_bytes(label);
        assert(label.spec_bytes() =~= preset.label_text().map_values(|c: char| c as u8));
    }
    feed_str(&mut h, label);
    let ghost mut acc = label.spec_bytes();
    proof {
        lemma_fnv_concat(FNV_OFFSET, acc, le_u64(seed));
        acc = acc + le_u64(seed);
    }
    feed_u64(&mut h, seed);
    proof {
        lemma_fnv_concat(FNV_OFFSET, acc, le_u32(grid_id));
        acc = acc + le_u32(grid_id);
    }
    feed_u32(&mut h, grid_id);
    proof {
        lemma_fnv_concat(FNV_OFFSET, acc, le_u64(voxel_size_bits));
        acc = acc + le_u64(voxel_size_bits);
    }
    feed_u64(&mut h, voxel_size_bits);
    let rest: [u32; 9] = [
        s.chunk_dims[0],
        s.chunk_dims[1],
        s.chunk_dims[2],
        s.width,
        s.height,
        s.length,
        s.wall_material as u32,
        s.floor_material as u32,
        s.accent_material as u32,
    ];
    let ghost base = acc;
    let mut i: usize = 0;
    while i < 9
        invariant
            i <= 9,
            h == fnv_bytes(FNV_OFFSET, acc),
            acc == base + u32s_bytes(rest@.take(i as int)),
        decreases 9 - i,
    {
        proof {
            lemma_fnv_concat(FNV_OFFSET, acc, le_u32(rest[i as int]));
            assert(rest@.take(i + 1).drop_last() =~= rest@.take(i as int));
            assert(base + u32s_bytes(rest@.take(i as int)) + le_u32(rest[i as int]) =~= base
                + u32s_bytes(rest@.take(i + 1)));
            acc = acc + le_u32(rest[i as int]);
        }
        feed_u32(&mut h, rest[i]);
        i = i + 1;
    }
    proof {
        assert(rest@.take(9) =~= rest@);
        reveal_with_fuel(u32s_bytes, 10);
        assert(acc =~= config_bytes(preset, seed, grid_id, voxel_size_bits, *s));
    }
    h
}

/// Little-endian bytes of a sequence of `u32`s, in order.
pub open spec fn u32s_bytes(v: Seq<u32>) -> Seq<u8>
    decreases v.len(),
{
    if v.len() == 0 {
        Seq::empty()
    } else {
        u32s_bytes(v.drop_last()) + le_u32(v.last())
    }
}

} // verus!

verus! {

/// The bytes hashed for one render chunk.
pub open spec fn render_chunk_bytes(c: GeneratedRenderChunk) -> Seq<u8> {
    le_i64(c.chunk.x) + le_i64(c.chunk.y) + le_i64(c.chunk.z) + le_u64(c.content_hash) + le_u32(
        c.solid_voxels,
    )
}

/// The bytes hashed for one spawn marker.
pub open spec fn marker_bytes(m: SpawnMarkerRecord) -> Seq<u8> {
    m.id.spec_bytes() + m.kind.spec_bytes() + le_i64(m.voxel.x) + le_i64(m.voxel.y) + le_i64(
        m.voxel.z,
    ) + le_i64(m.yaw_degrees as i64)
}

pub open spec fn render_chunks_bytes(s: Seq<GeneratedRenderChunk>) -> Seq<u8>
    decreases s.len(),
{
    if s.len() == 0 {
        Seq::empty()
    } else {
        render_chunks_bytes(s.drop_last()) + render_chunk_bytes(s.last())
    }
}

pub open spec fn markers_bytes(s: Seq<SpawnMarkerRecord>) -> Seq<u8>
    decreases s.len(),
{
    if s.len() == 0 {
        Seq::empty()
    } else {
        markers_bytes(s.drop_last()) + marker_bytes(s.last())
    }
}

/// The bytes of a generated-output hash.
pub open spec fn output_bytes(
    config_hash: u64,
    chunks: Seq<GeneratedRenderChunk>,
    markers: Seq<SpawnMarkerRecord>,
    collision_count: nat,
) -> Seq<u8> {
    le_u64(config_hash) + render_chunks_bytes(chunks) + markers_bytes(markers) + le_u64(
        collision_count as u64,
    )
}

/// Stable hash of a generated tunnel: the config hash, every render chunk,
/// every spawn marker and the number of collision boxes.
pub fn hash_output(
    config_hash: u64,
    render_chunks: &[GeneratedRenderChunk],
    spawn_markers: &[SpawnMarkerRecord],
    collision_count: usize,
) -> (h: u64)
    ensures
        h == fnv_bytes(
            FNV_OFFSET,
            output_bytes(config_hash, render_chunks@, spawn_markers@, collision_count as nat),
        ),
{
    let mut h = fnv_offset();
    feed_u64(&mut h, config_hash);
    let ghost mut acc = le_u64(config_hash);
    let ghost base = acc;
    let mut i: usize = 0;
    while i < render_chunks.len()
        invariant
            i <= render_chunks@.len(),
            h == fnv_bytes(FNV_OFFSET, acc),
            acc == base + render_chunks_bytes(render_chunks@.take(i as int)),
        decreases render_chunks@.len() - i,
    {
        let c = render_chunks[i];
        let ghost a0 = acc;
        feed_i64(&mut h, c.chunk.x);
        feed_i64(&mut h, c.chunk.y);
        feed_i64(&mut h, c.chunk.z);
        feed_u64(&mut h, c.content_hash);
        feed_u32(&mut h, c.solid_voxels);
        proof {
            lemma_fnv_concat(FNV_OFFSET, a0, le_i64(c.chunk.x));
            lemma_fnv_concat(FNV_OFFSET, a0 + le_i64(c.chunk.x), le_i64(c.chunk.y));
            lemma_fnv_concat(FNV_OFFSET, a0 + le_i64(c.chunk.x) + le_i64(c.chunk.y), le_i64(c.chunk.z));
            lemma_fnv_concat(
                FNV_OFFSET,
                a0 + le_i64(c.chunk.x) + le_i64(c.chunk.y) + le_i64(c.chunk.z),
                le_u64(c.content_hash),
            );
            lemma_fnv_concat(
                FNV_OFFSET,
                a0 + le_i64(c.chunk.x) + le_i64(c.chunk.y) + le_i64(c.chunk.z) + le_u64(c.content_hash),
                le_u32(c.solid_voxels),
            );
            assert(render_chunks@.take(i + 1).drop_last() =~= render_chunks@.take(i as int));
            acc = a0 + render_chunk_bytes(c);
            assert(acc =~= a0 + le_i64(c.chunk.x) + le_i64(c.chunk.y) + le_i64(c.chunk.z) + le_u64(
                c.content_hash,
            ) + le_u32(c.solid_voxels));
            assert(acc =~= base + render_chunks_bytes(render_chunks@.take(i + 1)));
        }
        i = i + 1;
    }
    assert(render_chunks@.take(i as int) =~= render_chunks@);
    let ghost base2 = acc;
    let mut j: usize = 0;
    while j < spawn_markers.len()
        invariant
            j <= spawn_markers@.len(),
            h == fnv_bytes(FNV_OFFSET, acc),
            acc == base2 + markers_bytes(spawn_markers@.take(j as int)),
        decreases spawn_markers@.len() - j,
    {
        let m = spawn_markers[j];
        let ghost a0 = acc;
        feed_str(&mut h, m.id);
        feed_str(&mut h, m.kind);
        feed_i64(&mut h, m.voxel.x);
        feed_i64(&mut h, m.voxel.y);
        feed_i64(&mut h, m.voxel.z);
        feed_i64(&mut h, m.yaw_degrees as i64);
        proof {
            let p1 = m.id.spec_bytes();
            let p2 = m.kind.spec_bytes();
            let p3 = le_i64(m.voxel.x);
            let p4 = le_i64(m.voxel.y);
            let p5 = le_i64(m.voxel.z);
            let p6 = le_i64(m.yaw_degrees as i64);
            lemma_fnv_concat(FNV_OFFSET, a0, p1);
            lemma_fnv_concat(FNV_OFFSET, a0 + p1, p2);
            lemma_fnv_concat(FNV_OFFSET, a0 + p1 + p2, p3);
            lemma_fnv_concat(FNV_OFFSET, a0 + p1 + p2 + p3, p4);
            lemma_fnv_concat(FNV_OFFSET, a0 + p1 + p2 + p3 + p4, p5);
            lemma_fnv_concat(FNV_OFFSET, a0 + p1 + p2 + p3 + p4 + p5, p6);
            assert(spawn_markers@.take(j + 1).drop_last() =~= spawn_markers@.take(j as int));
            acc = a0 + marker_bytes(m);
            assert(acc =~= a0 + p1 + p2 + p3 + p4 + p5 + p6);
            assert(acc =~= base2 + markers_bytes(spawn_markers@.take(j + 1)));
        }
        j = j + 1;
    }
    assert(spawn_markers@.take(j as int) =~= spawn_markers@);
    let ghost a1 = acc;
    feed_u64(&mut h, collision_count as u64);
    proof {
        lemma_fnv_concat(FNV_OFFSET, a1, le_u64(collision_count as u64));
        assert(a1 + le_u64(collision_count as u64) =~= output_bytes(
            config_hash,
            render_chunks@,
            spawn_markers@,
            collision_count as nat,
        ));
    }
    h
}

} // verus!
