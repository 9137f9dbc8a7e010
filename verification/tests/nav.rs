use asha_services::levelgen::{tunnel_layout, TunnelShape};
use asha_services::nav::{
    build_nav_projection, find_path, hash_coords, NavError, NavPathOutcome, NavPathQuery,
    NavProjection, NavProjectionConfig, VoxelCoord, VoxelOccupancy,
};

fn tiny_shape() -> TunnelShape {
    TunnelShape {
        width: 5,
        height: 4,
        length: 9,
        chunk_dims: [8, 6, 12],
        wall_material: 1,
        floor_material: 2,
        accent_material: 3,
    }
}

/// The resident voxels of the tiny tunnel's single chunk: every cell of the
/// chunk, solid where the layout puts a cell.
fn tiny_world() -> VoxelOccupancy {
    let shape = tiny_shape();
    let layout = tunnel_layout(&shape, true, 2);
    let mut cells = Vec::new();
    for x in 0..8i64 {
        for y in 0..6i64 {
            for z in 0..12i64 {
                let solid = layout
                    .iter()
                    .any(|c| c.x as i64 == x && c.y as i64 == y && c.z as i64 == z);
                cells.push((VoxelCoord::new(x, y, z), solid));
            }
        }
    }
    VoxelOccupancy::from_sorted_cells(cells).expect("sorted chunk")
}

fn projection() -> NavProjection {
    let world = tiny_world();
    let config = NavProjectionConfig::default();
    assert!(world.probes_fit(config));
    let projection = build_nav_projection(&world, config).expect("nav");
    assert!(projection.steppable());
    projection
}

fn query(start: VoxelCoord) -> NavPathQuery {
    NavPathQuery {
        start,
        goal: VoxelCoord::new(1, 1, 1),
        max_visited: 128,
    }
}

#[test]
fn generated_tunnel_has_reachable_player_path() {
    let projection = projection();
    let readout = find_path(&projection, query(VoxelCoord::new(3, 1, 7))).expect("path");
    assert_eq!(readout.outcome, NavPathOutcome::Reached);
    assert_eq!(readout.path.first(), Some(&VoxelCoord::new(3, 1, 7)));
    assert_eq!(readout.path.last(), Some(&VoxelCoord::new(1, 1, 1)));
}

#[test]
fn blocked_tunnel_reports_no_path() {
    let mut projection = projection();
    for x in 1..=3 {
        projection = projection.without_walkable(VoxelCoord::new(x, 1, 4));
    }
    let readout = find_path(&projection, query(VoxelCoord::new(3, 1, 7))).expect("no path readout");
    assert_eq!(readout.outcome, NavPathOutcome::NoPath);
    assert!(readout.path.is_empty());
}

#[test]
fn invalid_query_rejects_unwalkable_start() {
    let projection = projection();
    assert_eq!(
        find_path(&projection, query(VoxelCoord::new(0, 1, 0))),
        Err(NavError::StartNotWalkable {
            start: VoxelCoord::new(0, 1, 0)
        })
    );
}

#[test]
fn reached_path_is_a_shortest_walk() {
    let projection = projection();
    let readout = find_path(&projection, query(VoxelCoord::new(3, 1, 7))).expect("path");
    // Two steps along x and six along z: nine cells.
    assert_eq!(readout.path.len(), 9);
    for pair in readout.path.windows(2) {
        let (a, b) = (pair[0], pair[1]);
        assert_eq!(a.y, b.y);
        assert_eq!((a.x - b.x).abs() + (a.z - b.z).abs(), 1);
        assert!(projection.is_walkable(b));
    }
    assert_eq!(readout.path_hash, hash_coords(&readout.path));
}

#[test]
fn interior_floor_cells_are_walkable_and_walls_are_not() {
    let projection = projection();
    for x in 1..=3 {
        for z in 1..=7 {
            assert!(projection.is_walkable(VoxelCoord::new(x, 1, z)));
            assert!(!projection.is_walkable(VoxelCoord::new(x, 2, z)));
        }
    }
    assert!(!projection.is_walkable(VoxelCoord::new(0, 1, 3)));
    assert!(!projection.is_walkable(VoxelCoord::new(2, 0, 3)));
    // The roof of the tunnel is a floor too.
    assert!(projection.is_walkable(VoxelCoord::new(2, 4, 3)));
    let cells = projection.walkable_cells();
    assert_eq!(cells.len(), projection.walkable_len());
    assert_eq!(projection.projection_hash(), hash_coords(&cells));
}

#[test]
fn path_queries_reject_bad_budget_and_unwalkable_goal() {
    let projection = projection();
    let mut q = query(VoxelCoord::new(3, 1, 7));
    q.max_visited = 0;
    assert_eq!(find_path(&projection, q), Err(NavError::InvalidQueryBudget));
    let q = NavPathQuery {
        start: VoxelCoord::new(3, 1, 7),
        goal: VoxelCoord::new(3, 2, 7),
        max_visited: 128,
    };
    assert_eq!(
        find_path(&projection, q),
        Err(NavError::GoalNotWalkable {
            goal: VoxelCoord::new(3, 2, 7)
        })
    );
}

#[test]
fn start_equal_to_goal_is_reached_at_once() {
    let projection = projection();
    let readout = find_path(&projection, query(VoxelCoord::new(1, 1, 1))).expect("path");
    assert_eq!(readout.outcome, NavPathOutcome::Reached);
    assert_eq!(readout.path, vec![VoxelCoord::new(1, 1, 1)]);
    assert_eq!(readout.visited, 1);
}

#[test]
fn a_small_budget_stops_the_search() {
    let projection = projection();
    let q = NavPathQuery {
        start: VoxelCoord::new(3, 1, 7),
        goal: VoxelCoord::new(1, 1, 1),
        max_visited: 2,
    };
    let readout = find_path(&projection, q).expect("readout");
    assert_eq!(readout.outcome, NavPathOutcome::NoPath);
    assert!(readout.visited > 2);
}

#[test]
fn zero_agent_height_is_rejected() {
    let world = tiny_world();
    let config = NavProjectionConfig {
        agent_height_voxels: 0,
        require_solid_floor: true,
    };
    assert!(matches!(
        build_nav_projection(&world, config),
        Err(NavError::InvalidAgentHeight)
    ));
    assert_eq!(NavError::InvalidAgentHeight.label(), "invalidAgentHeight");
}

#[test]
fn unsorted_voxels_are_refused() {
    let cells = vec![
        (VoxelCoord::new(1, 0, 0), false),
        (VoxelCoord::new(0, 0, 0), false),
    ];
    assert!(VoxelOccupancy::from_sorted_cells(cells).is_none());
}

use asha_services::nav::describe_nav_path;

#[test]
fn path_readout_lists_every_line() {
    let projection = projection();
    let readout = find_path(&projection, query(VoxelCoord::new(1, 1, 2))).expect("path");
    let text = describe_nav_path(&projection, &readout);
    let expected = format!(
        "nav-path 1\nwalkable={}\nprojection_hash={:016x}\noutcome=Reached\nvisited={}\npath_len=2\npath=1,1,2 -> 1,1,1\npath_hash={:016x}\n",
        projection.walkable_len(),
        projection.projection_hash(),
        readout.visited,
        readout.path_hash
    );
    assert_eq!(text, expected);
}

#[test]
fn a_one_cell_budget_still_reaches_a_neighbouring_goal() {
    let projection = projection();
    let q = NavPathQuery {
        start: VoxelCoord::new(1, 1, 1),
        goal: VoxelCoord::new(2, 1, 1),
        max_visited: 1,
    };
    let readout = find_path(&projection, q).expect("readout");
    assert_eq!(readout.outcome, NavPathOutcome::Reached);
    assert_eq!(readout.visited, 2);
    assert_eq!(
        readout.path,
        vec![VoxelCoord::new(1, 1, 1), VoxelCoord::new(2, 1, 1)]
    );
    // The goal is the last neighbour looked at: the two earlier walkable
    // neighbours are visited first.
    let q = NavPathQuery {
        start: VoxelCoord::new(1, 1, 2),
        goal: VoxelCoord::new(1, 1, 1),
        max_visited: 1,
    };
    let readout = find_path(&projection, q).expect("readout");
    assert_eq!(readout.outcome, NavPathOutcome::Reached);
    assert_eq!(readout.visited, 4);
}

#[test]
fn ties_between_shortest_paths_follow_the_neighbour_order() {
    let projection = projection();
    let q = NavPathQuery {
        start: VoxelCoord::new(1, 1, 1),
        goal: VoxelCoord::new(2, 1, 2),
        max_visited: 128,
    };
    let readout = find_path(&projection, q).expect("readout");
    assert_eq!(readout.outcome, NavPathOutcome::Reached);
    assert_eq!(
        readout.path,
        vec![
            VoxelCoord::new(1, 1, 1),
            VoxelCoord::new(2, 1, 1),
            VoxelCoord::new(2, 1, 2)
        ]
    );
}

#[test]
fn a_larger_budget_keeps_a_reached_answer() {
    let projection = projection();
    let small = NavPathQuery {
        start: VoxelCoord::new(1, 1, 2),
        goal: VoxelCoord::new(1, 1, 1),
        max_visited: 1,
    };
    let large = NavPathQuery { max_visited: 128, ..small };
    let a = find_path(&projection, small).expect("small budget");
    let b = find_path(&projection, large).expect("large budget");
    assert_eq!(a.outcome, NavPathOutcome::Reached);
    assert_eq!(a, b);
}

#[test]
fn unsorted_voxels_are_sorted_and_repeats_refused() {
    let cells = vec![
        (VoxelCoord::new(1, 0, 0), true),
        (VoxelCoord::new(0, 0, 1), false),
        (VoxelCoord::new(0, 0, 0), true),
    ];
    let world = VoxelOccupancy::from_cells(cells).expect("distinct voxels");
    assert!(world.is_solid(VoxelCoord::new(0, 0, 0)));
    assert!(!world.is_solid(VoxelCoord::new(0, 0, 1)));
    assert!(world.is_solid(VoxelCoord::new(1, 0, 0)));
    let repeated = vec![
        (VoxelCoord::new(1, 0, 0), true),
        (VoxelCoord::new(0, 0, 0), true),
        (VoxelCoord::new(1, 0, 0), false),
    ];
    assert!(VoxelOccupancy::from_cells(repeated).is_none());
}
