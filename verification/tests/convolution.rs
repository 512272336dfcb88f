use gridforge::collab::{BuiltinEval, SimpleNoise};
use gridforge::command::{CommandMode, MapGenCommand, MapGenExpression};
use gridforge::convolve::Neighborhood;
use gridforge::datagrid::DataGrid;
use gridforge::edge::EdgeMode;
use gridforge::errors::GenError;
use gridforge::scalar::{ElemType, Value};

fn run(cmd: &MapGenCommand, grid: DataGrid) -> Result<DataGrid, GenError> {
    cmd.run_one(7, grid, &BuiltinEval {}, Some(&SimpleNoise {}))
}

fn init(nx: i64, ny: i64, nz: i64) -> DataGrid {
    let mut c = MapGenCommand::default();
    c.init_size = (nx, ny, nz);
    c.run_none(7).ok().unwrap()
}

/// A grid with an Int field "x" holding each voxel's x coordinate.
fn with_x_field(grid: DataGrid) -> DataGrid {
    let mut e = MapGenCommand::default();
    e.mode = CommandMode::Expressions;
    e.expression_list = vec![MapGenExpression {
        name: "x".to_string(),
        expr: "position.x".to_string(),
        result_kind: ElemType::Int,
    }];
    run(&e, grid).ok().unwrap()
}

fn int_at(g: &DataGrid, name: &str, c: (i64, i64, i64)) -> i64 {
    match g.sample_grid(&name.to_string(), c) {
        Some(Value::Int(v)) => v,
        other => panic!("expected an Int sample, got {:?}", other),
    }
}

#[test]
fn expressions_write_position_component() {
    let g = with_x_field(init(4, 4, 4));
    for x in 0..4i64 {
        assert_eq!(int_at(&g, "x", (x, 1, 2)), x);
    }
}

#[test]
fn loop_edge_wraps_to_the_far_side() {
    let g = with_x_field(init(4, 4, 4));
    let mut c = MapGenCommand::default();
    c.mode = CommandMode::SampleNeighborhood;
    c.source = "x".to_string();
    c.save = "n".to_string();
    c.edge_mode = EdgeMode::Loop;
    c.neighborhood = Some(Neighborhood {
        offsets: vec![(1, 0, 0)],
        summing_expr: String::new(),
        accumulator_base: 0,
    });
    let g = run(&c, g).ok().unwrap();
    // Sampling at the top x face with offset +1 wraps to x == 0.
    assert_eq!(int_at(&g, "n", (3, 1, 1)), int_at(&g, "x", (0, 1, 1)));
    // An interior voxel just reads its neighbor.
    assert_eq!(int_at(&g, "n", (1, 1, 1)), 2);
}

#[test]
fn loop_edge_wraps_backward_too() {
    let g = with_x_field(init(4, 4, 4));
    let mut c = MapGenCommand::default();
    c.mode = CommandMode::SampleNeighborhood;
    c.source = "x".to_string();
    c.save = "n".to_string();
    c.edge_mode = EdgeMode::Loop;
    c.neighborhood = Some(Neighborhood {
        offsets: vec![(-1, 0, 0)],
        summing_expr: String::new(),
        accumulator_base: 0,
    });
    let g = run(&c, g).ok().unwrap();
    // Stepping below the bottom x face wraps to the top index.
    assert_eq!(int_at(&g, "n", (0, 2, 2)), 3);
}

#[test]
fn clamp_edge_reads_the_nearest_cell() {
    let g = with_x_field(init(4, 4, 4));
    let mut c = MapGenCommand::default();
    c.mode = CommandMode::SampleNeighborhood;
    c.source = "x".to_string();
    c.save = "n".to_string();
    c.edge_mode = EdgeMode::Clamp;
    c.neighborhood = Some(Neighborhood {
        offsets: vec![(1, 0, 0)],
        summing_expr: String::new(),
        accumulator_base: 0,
    });
    let g = run(&c, g).ok().unwrap();
    // Past the top face the lookup clamps to the top cell itself.
    assert_eq!(int_at(&g, "n", (3, 1, 1)), 3);
}

#[test]
fn neighbor_sum_end_to_end() {
    // Initialize(4,4,4), write x = position.x, then sum the two x-axis
    // neighbors with out-of-bounds offsets ignored.
    let g = with_x_field(init(4, 4, 4));
    let mut c = MapGenCommand::default();
    c.mode = CommandMode::SampleNeighborhood;
    c.source = "x".to_string();
    c.save = "nsum".to_string();
    c.edge_mode = EdgeMode::Ignore;
    c.neighborhood = Some(Neighborhood {
        offsets: vec![(1, 0, 0), (-1, 0, 0)],
        summing_expr: String::new(),
        accumulator_base: 0,
    });
    let g = run(&c, g).ok().unwrap();
    for y in 0..4i64 {
        for z in 0..4i64 {
            assert_eq!(int_at(&g, "nsum", (0, y, z)), 1);
            assert_eq!(int_at(&g, "nsum", (1, y, z)), 2);
            assert_eq!(int_at(&g, "nsum", (3, y, z)), 2);
        }
    }
}

#[test]
fn float_convolution_sums_fixed_point_values() {
    // A zero-offset kernel over a fixed-point field reproduces the field:
    // base 0 plus the voxel's own value.
    let mut n = MapGenCommand::default();
    n.mode = CommandMode::SampleNoise;
    n.save = "w".to_string();
    let g = run(&n, init(3, 3, 3)).ok().unwrap();
    let mut c = MapGenCommand::default();
    c.mode = CommandMode::SampleNeighborhood;
    c.source = "w".to_string();
    c.save = "copy".to_string();
    c.edge_mode = EdgeMode::Ignore;
    c.neighborhood = Some(Neighborhood {
        offsets: vec![(0, 0, 0)],
        summing_expr: String::new(),
        accumulator_base: 0,
    });
    let g = run(&c, g).ok().unwrap();
    for x in 0..3i64 {
        for y in 0..3i64 {
            for z in 0..3i64 {
                assert_eq!(
                    g.sample_grid(&"copy".to_string(), (x, y, z)),
                    g.sample_grid(&"w".to_string(), (x, y, z))
                );
            }
        }
    }
}

#[test]
fn storing_an_existing_name_replaces_the_field() {
    let g = with_x_field(init(4, 4, 4));
    let mut e = MapGenCommand::default();
    e.mode = CommandMode::Expressions;
    e.expression_list = vec![MapGenExpression {
        name: "x".to_string(),
        expr: "position.y".to_string(),
        result_kind: ElemType::Int,
    }];
    let g = run(&e, g).ok().unwrap();
    assert_eq!(g.get_fields().len(), 1);
    assert_eq!(int_at(&g, "x", (3, 1, 2)), 1);
}

#[test]
fn convolution_missing_source_errors() {
    let mut c = MapGenCommand::default();
    c.mode = CommandMode::SampleNeighborhood;
    c.source = "absent".to_string();
    c.save = "n".to_string();
    c.neighborhood = Some(Neighborhood {
        offsets: vec![(1, 0, 0)],
        summing_expr: String::new(),
        accumulator_base: 0,
    });
    match run(&c, init(4, 4, 4)) {
        Err(e) => assert_eq!(e, GenError::MissingField),
        Ok(_) => panic!("missing source must be refused"),
    }
}

#[test]
fn convolution_without_kernel_errors() {
    let g = with_x_field(init(4, 4, 4));
    let mut c = MapGenCommand::default();
    c.mode = CommandMode::SampleNeighborhood;
    c.source = "x".to_string();
    c.save = "n".to_string();
    match run(&c, g) {
        Err(e) => assert_eq!(e, GenError::Configuration),
        Ok(_) => panic!("missing kernel must be refused"),
    }
}

#[test]
fn unknown_expression_fails_evaluation() {
    let mut e = MapGenCommand::default();
    e.mode = CommandMode::Expressions;
    e.expression_list = vec![MapGenExpression {
        name: "bad".to_string(),
        expr: "no.such.thing".to_string(),
        result_kind: ElemType::Int,
    }];
    match run(&e, init(3, 3, 3)) {
        Err(err) => assert_eq!(err, GenError::Configuration),
        Ok(_) => panic!("an unknown expression must abort the command"),
    }
}

#[test]
fn boolean_expression_builds_selection() {
    // A field referencing another selection per voxel: first mark walls,
    // then copy them through a bare-identifier expression.
    let mut w = MapGenCommand::default();
    w.mode = CommandMode::OuterWalls;
    w.save = "walls".to_string();
    let g = run(&w, init(3, 3, 3)).ok().unwrap();
    let mut e = MapGenCommand::default();
    e.mode = CommandMode::Expressions;
    e.expression_list = vec![MapGenExpression {
        name: "copy".to_string(),
        expr: "walls".to_string(),
        result_kind: ElemType::Bool,
    }];
    let g = run(&e, g).ok().unwrap();
    for x in 0..3i64 {
        for y in 0..3i64 {
            for z in 0..3i64 {
                assert_eq!(
                    g.sample_grid(&"copy".to_string(), (x, y, z)),
                    g.sample_grid(&"walls".to_string(), (x, y, z))
                );
            }
        }
    }
}
