use gridforge::automata::CellAutoRule;
use gridforge::collab::{BuiltinEval, SimpleNoise};
use gridforge::command::{CommandMode, MapGenCommand, MapGenExpression};
use gridforge::convolve::Neighborhood;
use gridforge::datagrid::DataGrid;
use gridforge::errors::GenError;
use gridforge::scalar::{ElemType, Value, FIX_SCALE};

fn run(cmd: &MapGenCommand, grid: DataGrid) -> Result<DataGrid, GenError> {
    cmd.run_one(7, grid, &BuiltinEval {}, Some(&SimpleNoise {}))
}

fn init(nx: i64, ny: i64, nz: i64) -> DataGrid {
    let mut c = MapGenCommand::default();
    c.init_size = (nx, ny, nz);
    c.run_none(7).ok().unwrap()
}

fn with_x_field(grid: DataGrid) -> DataGrid {
    let mut e = MapGenCommand::default();
    e.mode = CommandMode::Expressions;
    e.expression_list = vec![MapGenExpression {
        name: "x".to_string(),
        expr: "position.x".to_string(),
        result_kind: ElemType::Int,
    }];
    run(&e, grid).ok().unwrap()
}

fn ca_command(steps: i64, offsets: Vec<(i64, i64, i64)>, base: i64) -> MapGenCommand {
    let mut c = MapGenCommand::default();
    c.mode = CommandMode::CellularAutomata;
    c.source = "x".to_string();
    c.save = "ca".to_string();
    c.steps = steps;
    c.apply_min = (0, 0, 0);
    c.apply_max = (4, 4, 4);
    c.ca_rule = Some(CellAutoRule {
        neighborhood: Some(Neighborhood {
            offsets,
            summing_expr: String::new(),
            accumulator_base: base,
        }),
        result_expr: String::new(),
    });
    c
}

fn int_at(g: &DataGrid, name: &str, c: (i64, i64, i64)) -> i64 {
    match g.sample_grid(&name.to_string(), c) {
        Some(Value::Int(v)) => v,
        other => panic!("expected an Int sample, got {:?}", other),
    }
}

#[test]
fn ca_zero_steps_returns_input_unchanged() {
    let g = with_x_field(init(4, 4, 4));
    let g = run(&ca_command(0, vec![(1, 0, 0)], 0), g).ok().unwrap();
    for x in 0..4i64 {
        for y in 0..4i64 {
            assert_eq!(int_at(&g, "ca", (x, y, 0)), x);
        }
    }
}

#[test]
fn ca_empty_kernel_default_rules_write_the_base() {
    // With no offsets and the default rules every region voxel becomes the
    // base accumulator each step — only a synchronous (never in-place)
    // update behaves this way regardless of prior contents.
    let g = with_x_field(init(4, 4, 4));
    let base_raw = 5 * FIX_SCALE;
    let g = run(&ca_command(3, vec![], base_raw), g).ok().unwrap();
    for x in 0..4i64 {
        for y in 0..4i64 {
            for z in 0..4i64 {
                assert_eq!(int_at(&g, "ca", (x, y, z)), 5);
            }
        }
    }
}

#[test]
fn ca_sums_neighbors_one_step() {
    let g = with_x_field(init(4, 4, 4));
    let g = run(&ca_command(1, vec![(1, 0, 0), (-1, 0, 0)], 0), g).ok().unwrap();
    // Interior voxel (1,y,z): neighbors hold 0 and 2 in the pre-step field.
    assert_eq!(int_at(&g, "ca", (1, 0, 0)), 2);
    // Edge voxel (0,y,z): only the neighbor at x == 1 is in bounds.
    assert_eq!(int_at(&g, "ca", (0, 0, 0)), 1);
}

#[test]
fn ca_region_limits_the_update() {
    let g = with_x_field(init(4, 4, 4));
    let mut c = ca_command(1, vec![], 9 * FIX_SCALE);
    c.apply_min = (0, 0, 0);
    c.apply_max = (2, 4, 4);
    let g = run(&c, g).ok().unwrap();
    assert_eq!(int_at(&g, "ca", (1, 1, 1)), 9);
    // Outside the region the pre-step value stands.
    assert_eq!(int_at(&g, "ca", (3, 1, 1)), 3);
}

#[test]
fn ca_without_rule_is_configuration_error() {
    let g = with_x_field(init(4, 4, 4));
    let mut c = ca_command(1, vec![], 0);
    c.ca_rule = None;
    match run(&c, g) {
        Err(e) => assert_eq!(e, GenError::Configuration),
        Ok(_) => panic!("a missing rule must be refused"),
    }
}

#[test]
fn ca_on_selection_is_type_mismatch() {
    let mut w = MapGenCommand::default();
    w.mode = CommandMode::OuterWalls;
    w.save = "walls".to_string();
    let g = run(&w, init(4, 4, 4)).ok().unwrap();
    let mut c = ca_command(1, vec![], 0);
    c.source = "walls".to_string();
    match run(&c, g) {
        Err(e) => assert_eq!(e, GenError::TypeMismatch),
        Ok(_) => panic!("an automaton needs a dense field"),
    }
}

fn with_sel(grid: DataGrid, name: &str, cells: Vec<(i64, i64, i64)>) -> DataGrid {
    let mut li = MapGenCommand::default();
    li.mode = CommandMode::ListInput;
    li.save = "tmp_list".to_string();
    li.position_list = cells;
    let g = run(&li, grid).ok().unwrap();
    let mut ts = MapGenCommand::default();
    ts.mode = CommandMode::ListToSel;
    ts.source = "tmp_list".to_string();
    ts.save = name.to_string();
    run(&ts, g).ok().unwrap()
}

fn bool_at(g: &DataGrid, name: &str, c: (i64, i64, i64)) -> bool {
    match g.sample_grid(&name.to_string(), c) {
        Some(Value::Bool(b)) => b,
        other => panic!("expected a selection sample, got {:?}", other),
    }
}

fn fall_command(column: bool) -> MapGenCommand {
    let mut c = MapGenCommand::default();
    c.mode = CommandMode::SelectFall;
    c.source = "src".to_string();
    c.solid = "floor".to_string();
    c.save = "fell".to_string();
    c.column = column;
    c
}

#[test]
fn select_fall_emits_one_resting_cell_per_member() {
    let g = init(4, 6, 4);
    let g = with_sel(g, "src", vec![(0, 4, 0)]);
    let g = with_sel(g, "floor", vec![(0, 0, 0)]);
    let g = run(&fall_command(false), g).ok().unwrap();
    // The walk from y == 4 stops above the solid cell at y == 0.
    for y in 0..6i64 {
        assert_eq!(bool_at(&g, "fell", (0, y, 0)), y == 1, "at y {}", y);
    }
}

#[test]
fn select_fall_column_emits_every_traversed_cell() {
    let g = init(4, 6, 4);
    let g = with_sel(g, "src", vec![(0, 4, 0)]);
    let g = with_sel(g, "floor", vec![(0, 0, 0)]);
    let g = run(&fall_command(true), g).ok().unwrap();
    for y in 0..6i64 {
        let expected = y >= 1 && y <= 4;
        assert_eq!(bool_at(&g, "fell", (0, y, 0)), expected, "at y {}", y);
    }
}

#[test]
fn select_fall_blocked_start_emits_the_start() {
    let g = init(4, 6, 4);
    let g = with_sel(g, "src", vec![(2, 1, 2)]);
    let g = with_sel(g, "floor", vec![(2, 0, 2)]);
    let g = run(&fall_command(false), g).ok().unwrap();
    assert!(bool_at(&g, "fell", (2, 1, 2)));
    assert!(!bool_at(&g, "fell", (2, 0, 2)));
}

#[test]
fn select_fall_reversed_walks_upward() {
    let g = init(4, 6, 4);
    let g = with_sel(g, "src", vec![(1, 1, 1)]);
    let g = with_sel(g, "floor", vec![(1, 4, 1)]);
    let mut c = fall_command(false);
    c.sf_reverse = true;
    let g = run(&c, g).ok().unwrap();
    // Rising from y == 1, the walk rests just below the solid cell.
    for y in 0..6i64 {
        assert_eq!(bool_at(&g, "fell", (1, y, 1)), y == 3, "at y {}", y);
    }
}

#[test]
fn select_fall_walks_past_the_grid_to_a_distant_solid() {
    // The walk is not confined to the grid: a member at the floor falls
    // through and rests just above a solid far below.
    let g = init(4, 4, 4);
    let g = with_sel(g, "src", vec![(0, 0, 0)]);
    let g = with_sel(g, "floor", vec![(0, -4, 0)]);
    let g = run(&fall_command(false), g).ok().unwrap();
    assert!(bool_at(&g, "fell", (0, -3, 0)));
    assert!(!bool_at(&g, "fell", (0, -1, 0)));
    assert!(!bool_at(&g, "fell", (0, 0, 0)));
}

#[test]
fn select_fall_column_spans_past_the_grid() {
    let g = init(4, 4, 4);
    let g = with_sel(g, "src", vec![(0, 0, 0)]);
    let g = with_sel(g, "floor", vec![(0, -4, 0)]);
    let g = run(&fall_command(true), g).ok().unwrap();
    for y in -5i64..2 {
        let expected = y >= -3 && y <= 0;
        assert_eq!(bool_at(&g, "fell", (0, y, 0)), expected, "at y {}", y);
    }
}

#[test]
fn select_fall_missing_solid_is_missing_field() {
    let g = init(4, 6, 4);
    let g = with_sel(g, "src", vec![(0, 4, 0)]);
    match run(&fall_command(false), g) {
        Err(e) => assert_eq!(e, GenError::MissingField),
        Ok(_) => panic!("a missing solid field must be refused"),
    }
}
