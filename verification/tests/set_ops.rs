use gridforge::collab::{BuiltinEval, SimpleNoise};
use gridforge::command::{CommandMode, MapGenCommand, SetBoolean};
use gridforge::datagrid::DataGrid;
use gridforge::errors::GenError;
use gridforge::scalar::Value;

fn run(cmd: &MapGenCommand, grid: DataGrid) -> Result<DataGrid, GenError> {
    cmd.run_one(7, grid, &BuiltinEval {}, Some(&SimpleNoise {}))
}

fn init(nx: i64, ny: i64, nz: i64) -> DataGrid {
    let mut c = MapGenCommand::default();
    c.init_size = (nx, ny, nz);
    c.run_none(7).ok().unwrap()
}

/// Stores `cells` as a selection called `name`.
fn with_sel(grid: DataGrid, name: &str, cells: Vec<(i64, i64, i64)>) -> DataGrid {
    let mut li = MapGenCommand::default();
    li.mode = CommandMode::ListInput;
    li.save = "tmp_list".to_string();
    li.position_list = cells;
    let g = run(&li, grid).ok().unwrap();
    let mut ts = MapGenCommand::default();
    ts.mode = CommandMode::ListToSel;
    ts.source = "tmp_list".to_string();
    ts.save = name.to_string();
    run(&ts, g).ok().unwrap()
}

fn member(g: &DataGrid, name: &str, c: (i64, i64, i64)) -> bool {
    match g.sample_grid(&name.to_string(), c) {
        Some(Value::Bool(b)) => b,
        other => panic!("expected a selection sample, got {:?}", other),
    }
}

fn setup() -> DataGrid {
    let g = init(4, 4, 4);
    let g = with_sel(g, "a", vec![(0, 0, 0), (1, 0, 0), (2, 0, 0)]);
    with_sel(g, "b", vec![(1, 0, 0), (3, 0, 0)])
}

fn set_op(g: DataGrid, op: SetBoolean, first: &str, second: &str, save: &str) -> DataGrid {
    let mut c = MapGenCommand::default();
    c.mode = CommandMode::SetOps;
    c.operation = op;
    c.source = first.to_string();
    c.second_source = second.to_string();
    c.save = save.to_string();
    run(&c, g).ok().unwrap()
}

const PROBE: [(i64, i64, i64); 5] = [(0, 0, 0), (1, 0, 0), (2, 0, 0), (3, 0, 0), (2, 2, 2)];

#[test]
fn union_is_commutative() {
    let g = setup();
    let g = set_op(g, SetBoolean::Union, "a", "b", "ab");
    let g = set_op(g, SetBoolean::Union, "b", "a", "ba");
    for p in PROBE {
        assert_eq!(member(&g, "ab", p), member(&g, "ba", p), "at {:?}", p);
    }
    assert!(member(&g, "ab", (0, 0, 0)));
    assert!(member(&g, "ab", (3, 0, 0)));
    assert!(!member(&g, "ab", (2, 2, 2)));
}

#[test]
fn intersection_is_commutative() {
    let g = setup();
    let g = set_op(g, SetBoolean::Intersection, "a", "b", "ab");
    let g = set_op(g, SetBoolean::Intersection, "b", "a", "ba");
    for p in PROBE {
        assert_eq!(member(&g, "ab", p), member(&g, "ba", p), "at {:?}", p);
    }
    assert!(member(&g, "ab", (1, 0, 0)));
    assert!(!member(&g, "ab", (0, 0, 0)));
}

#[test]
fn difference_is_disjoint_from_subtrahend() {
    let g = setup();
    let g = set_op(g, SetBoolean::Difference, "a", "b", "amb");
    for p in PROBE {
        if member(&g, "b", p) {
            assert!(!member(&g, "amb", p), "difference must avoid b at {:?}", p);
        }
    }
    assert!(member(&g, "amb", (0, 0, 0)));
    assert!(member(&g, "amb", (2, 0, 0)));
    assert!(!member(&g, "amb", (1, 0, 0)));
}

#[test]
fn set_ops_on_non_selection_is_type_mismatch() {
    let g = setup();
    let mut n = MapGenCommand::default();
    n.mode = CommandMode::SampleNoise;
    n.save = "dense".to_string();
    let g = run(&n, g).ok().unwrap();
    let mut c = MapGenCommand::default();
    c.mode = CommandMode::SetOps;
    c.source = "dense".to_string();
    c.second_source = "b".to_string();
    c.save = "out".to_string();
    match run(&c, g) {
        Err(e) => assert_eq!(e, GenError::TypeMismatch),
        Ok(_) => panic!("dense source must be refused"),
    }
}

#[test]
fn set_ops_missing_source_is_missing_field() {
    let g = setup();
    let mut c = MapGenCommand::default();
    c.mode = CommandMode::SetOps;
    c.source = "absent".to_string();
    c.second_source = "b".to_string();
    c.save = "out".to_string();
    match run(&c, g) {
        Err(e) => assert_eq!(e, GenError::MissingField),
        Ok(_) => panic!("a missing source must be MissingField, not TypeMismatch"),
    }
}

#[test]
fn sort_list_missing_source_is_missing_field() {
    let mut s = MapGenCommand::default();
    s.mode = CommandMode::SortList;
    s.source = "absent".to_string();
    s.save = "sorted".to_string();
    match run(&s, init(4, 4, 4)) {
        Err(e) => assert_eq!(e, GenError::MissingField),
        Ok(_) => panic!("a missing list must be MissingField"),
    }
}

#[test]
fn sel_to_list_and_back_preserves_membership() {
    let g = setup();
    let mut sl = MapGenCommand::default();
    sl.mode = CommandMode::SelToList;
    sl.source = "a".to_string();
    sl.save = "al".to_string();
    let g = run(&sl, g).ok().unwrap();
    let l = g.get_list(&"al".to_string()).unwrap();
    // A selection built from a list keeps first-occurrence order, and the
    // conversion back is order-preserving.
    assert_eq!(l, vec![(0, 0, 0), (1, 0, 0), (2, 0, 0)]);
}

#[test]
fn sort_list_orders_by_axis() {
    let mut li = MapGenCommand::default();
    li.mode = CommandMode::ListInput;
    li.save = "pts".to_string();
    li.position_list = vec![(3, 0, 0), (1, 2, 0), (2, 1, 0), (1, 0, 0)];
    let g = run(&li, init(4, 4, 4)).ok().unwrap();
    let mut s = MapGenCommand::default();
    s.mode = CommandMode::SortList;
    s.source = "pts".to_string();
    s.save = "sorted".to_string();
    s.sort_axis = gridforge::sortlist::SortAxis::X;
    let g = run(&s, g).ok().unwrap();
    let l = g.get_list(&"sorted".to_string()).unwrap();
    // Ascending by x, stable for the two x == 1 entries.
    assert_eq!(l, vec![(1, 2, 0), (1, 0, 0), (2, 1, 0), (3, 0, 0)]);
}

#[test]
fn sort_list_reversed_orders_descending() {
    let mut li = MapGenCommand::default();
    li.mode = CommandMode::ListInput;
    li.save = "pts".to_string();
    li.position_list = vec![(0, 1, 0), (0, 3, 0), (0, 2, 0)];
    let g = run(&li, init(4, 4, 4)).ok().unwrap();
    let mut s = MapGenCommand::default();
    s.mode = CommandMode::SortList;
    s.source = "pts".to_string();
    s.save = "sorted".to_string();
    s.sort_axis = gridforge::sortlist::SortAxis::Y;
    s.reverse = true;
    let g = run(&s, g).ok().unwrap();
    let l = g.get_list(&"sorted".to_string()).unwrap();
    assert_eq!(l, vec![(0, 3, 0), (0, 2, 0), (0, 1, 0)]);
}
