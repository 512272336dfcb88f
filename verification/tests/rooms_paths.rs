use gridforge::collab::{BuiltinEval, SimpleNoise};
use gridforge::command::{CommandMode, MapGenCommand};
use gridforge::datagrid::DataGrid;
use gridforge::dense::Dense;
use gridforge::errors::GenError;
use gridforge::pathfind::SearchMap;
use gridforge::rooms::{AlgorithmHelper, RectPrism};
use gridforge::scalar::{Value, FIX_SCALE};

fn run(cmd: &MapGenCommand, grid: DataGrid) -> Result<DataGrid, GenError> {
    cmd.run_one(7, grid, &BuiltinEval {}, Some(&SimpleNoise {}))
}

fn init(nx: i64, ny: i64, nz: i64) -> DataGrid {
    let mut c = MapGenCommand::default();
    c.init_size = (nx, ny, nz);
    c.run_none(7).ok().unwrap()
}

fn place_rooms(seed: i64) -> (Vec<gridforge::fields::Room>, gridforge::selection::Selection) {
    let within = RectPrism { min: (0, 0, 0), max: (14, 14, 14) };
    let sized = RectPrism { min: (2, 2, 2), max: (4, 4, 4) };
    AlgorithmHelper::random_rooms(5, seed, within, sized, false)
        .ok()
        .unwrap()
}

#[test]
fn rooms_are_pairwise_disjoint_and_union_is_exact() {
    let (rooms, uni) = place_rooms(99);
    for i in 0..rooms.len() {
        for j in (i + 1)..rooms.len() {
            assert!(rooms[i].members.is_disjoint(&rooms[j].members));
        }
    }
    // The union field holds exactly the rooms' members.
    for x in 0..16i64 {
        for y in 0..16i64 {
            for z in 0..16i64 {
                let c = (x, y, z);
                let in_any = rooms.iter().any(|r| r.members.contains(c));
                assert_eq!(uni.contains(c), in_any, "at {:?}", c);
            }
        }
    }
}

#[test]
fn rooms_have_centers_inside_their_members() {
    let (rooms, _) = place_rooms(5);
    assert!(rooms.len() >= 1);
    for r in &rooms {
        let c = r.center.unwrap();
        assert!(r.members.contains(c), "center {:?} outside its room", c);
    }
}

#[test]
fn rooms_stay_inside_the_placement_region() {
    // The random draws are promised to stay in their ranges; every member
    // of every room must lie inside the configured region.
    let (rooms, _) = place_rooms(77);
    for r in &rooms {
        for m in r.members.members() {
            assert!(
                m.0 >= 0 && m.0 < 14 && m.1 >= 0 && m.1 < 14 && m.2 >= 0 && m.2 < 14,
                "member {:?} escaped the region",
                m
            );
        }
    }
}

#[test]
fn rooms_are_deterministic_for_a_seed() {
    let (r1, u1) = place_rooms(1234);
    let (r2, u2) = place_rooms(1234);
    assert_eq!(r1.len(), r2.len());
    for (a, b) in r1.iter().zip(r2.iter()) {
        assert_eq!(a.center, b.center);
        for x in 0..16i64 {
            for y in 0..16i64 {
                for z in 0..16i64 {
                    assert_eq!(a.members.contains((x, y, z)), b.members.contains((x, y, z)));
                }
            }
        }
    }
    for x in 0..16i64 {
        for y in 0..16i64 {
            for z in 0..16i64 {
                assert_eq!(u1.contains((x, y, z)), u2.contains((x, y, z)));
            }
        }
    }
}

#[test]
fn get_room_centers_lists_every_center() {
    let mut rr = MapGenCommand::default();
    rr.mode = CommandMode::RandomRooms;
    rr.save = "rooms".to_string();
    rr.save_union = "uni".to_string();
    rr.count = 4;
    rr.min_size = (2, 2, 2);
    rr.max_size = (3, 3, 3);
    rr.min_within = (0, 0, 0);
    rr.max_within = (12, 12, 12);
    let g = run(&rr, init(12, 12, 12)).ok().unwrap();
    let mut gc = MapGenCommand::default();
    gc.mode = CommandMode::GetRoomCenters;
    gc.source = "rooms".to_string();
    gc.save = "centers".to_string();
    let g = run(&gc, g).ok().unwrap();
    let centers = g.get_list(&"centers".to_string()).unwrap();
    assert!(centers.len() >= 1 && centers.len() <= 4);
    // Every center indexes back into some room.
    for c in &centers {
        match g.sample_grid(&"rooms".to_string(), *c) {
            Some(Value::Int(idx)) => assert!(idx >= 0),
            other => panic!("expected a room index, got {:?}", other),
        }
    }
}

/// A flat weight field of uniform ones (fixed-point).
fn flat_map(n: usize, max_slope: i64) -> SearchMap {
    let mut w = Dense::new(n, n, n);
    for x in 0..n {
        for y in 0..n {
            for z in 0..n {
                w.set(x, y, z, FIX_SCALE);
            }
        }
    }
    SearchMap { weight_array: w, max_slope, vertical_skew: FIX_SCALE }
}

#[test]
fn theta_star_connects_adjacent_voxels() {
    let sm = flat_map(4, 2 * FIX_SCALE);
    let path = sm.thstar((1, 1, 1), (2, 1, 1)).ok().unwrap();
    assert!(path.len() >= 1);
    assert!(path.contains((1, 1, 1)));
    assert!(path.contains((2, 1, 1)));
}

#[test]
fn theta_star_slope_constraint_makes_goal_unreachable() {
    let sm = flat_map(4, 0);
    match sm.thstar((1, 1, 1), (1, 2, 1)) {
        Err(()) => {},
        Ok(_) => panic!("a vertical goal must be unreachable at slope 0"),
    }
}

#[test]
fn carve_paths_connects_waypoints() {
    let mut n = MapGenCommand::default();
    n.mode = CommandMode::SampleNoise;
    n.save = "w".to_string();
    let g = run(&n, init(6, 6, 6)).ok().unwrap();
    let mut li = MapGenCommand::default();
    li.mode = CommandMode::ListInput;
    li.save = "pts".to_string();
    li.position_list = vec![(1, 1, 1), (2, 1, 1)];
    let g = run(&li, g).ok().unwrap();
    let mut cp = MapGenCommand::default();
    cp.mode = CommandMode::CarvePaths;
    cp.source = "w".to_string();
    cp.points_list = "pts".to_string();
    cp.save = "path".to_string();
    cp.max_slope = 2 * FIX_SCALE;
    cp.vertical_skew = FIX_SCALE;
    let g = run(&cp, g).ok().unwrap();
    assert_eq!(g.sample_grid(&"path".to_string(), (1, 1, 1)), Some(Value::Bool(true)));
    assert_eq!(g.sample_grid(&"path".to_string(), (2, 1, 1)), Some(Value::Bool(true)));
    // The weights and waypoint fields were consumed.
    assert_eq!(g.sample_grid(&"w".to_string(), (0, 0, 0)), None);
    assert_eq!(g.sample_grid(&"pts".to_string(), (0, 0, 0)), None);
}

#[test]
fn carve_paths_unreachable_segment_is_search_failure() {
    let mut n = MapGenCommand::default();
    n.mode = CommandMode::SampleNoise;
    n.save = "w".to_string();
    let g = run(&n, init(6, 6, 6)).ok().unwrap();
    let mut li = MapGenCommand::default();
    li.mode = CommandMode::ListInput;
    li.save = "pts".to_string();
    li.position_list = vec![(1, 1, 1), (1, 4, 1)];
    let g = run(&li, g).ok().unwrap();
    let mut cp = MapGenCommand::default();
    cp.mode = CommandMode::CarvePaths;
    cp.source = "w".to_string();
    cp.points_list = "pts".to_string();
    cp.save = "path".to_string();
    cp.max_slope = 0;
    match run(&cp, g) {
        Err(e) => assert_eq!(e, GenError::SearchFailure),
        Ok(_) => panic!("a vertical segment must fail at slope 0"),
    }
}

#[test]
fn search_select_zero_length_leaves_selection_unchanged() {
    let sm = flat_map(4, 2 * FIX_SCALE);
    let mut sel = gridforge::selection::Selection::new();
    sel.insert((9, 9, 9));
    let sel = sm.search_select((1, 1, 1), (0, 0, 0), sel);
    assert!(sel.contains((9, 9, 9)));
    assert!(!sel.contains((1, 1, 1)));
    assert_eq!(sel.len(), 1);
}

#[test]
fn theta_star_adjacent_climb_within_slope_succeeds() {
    // One admissible move with a vertical delta: owed to succeed by the
    // one-step clause of the search's contract.
    let sm = flat_map(4, 2 * FIX_SCALE);
    let path = sm.thstar((1, 1, 1), (2, 2, 1)).ok().unwrap();
    assert!(path.contains((1, 1, 1)));
    assert!(path.contains((2, 2, 1)));
}

#[test]
fn rooms_with_overlap_place_the_full_count() {
    let within = RectPrism { min: (0, 0, 0), max: (14, 14, 14) };
    let sized = RectPrism { min: (2, 2, 2), max: (4, 4, 4) };
    let (rooms, _) = AlgorithmHelper::random_rooms(5, 3, within, sized, true)
        .ok()
        .unwrap();
    assert_eq!(rooms.len(), 5);
}

#[test]
fn theta_star_trivial_goal_is_an_empty_path() {
    let sm = flat_map(4, 2 * FIX_SCALE);
    let path = sm.thstar((2, 2, 2), (2, 2, 2)).ok().unwrap();
    assert_eq!(path.len(), 0);
}

#[test]
fn rooms_bad_configuration_is_domain_error() {
    let mut rr = MapGenCommand::default();
    rr.mode = CommandMode::RandomRooms;
    rr.save = "rooms".to_string();
    rr.count = 4;
    rr.min_size = (5, 5, 5);
    rr.max_size = (3, 3, 3);
    match run(&rr, init(12, 12, 12)) {
        Err(e) => assert_eq!(e, GenError::Domain),
        Ok(_) => panic!("an inverted size range must be refused"),
    }
}
