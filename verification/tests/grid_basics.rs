use gridforge::collab::{BuiltinEval, SimpleNoise};
use gridforge::command::{CommandMode, MapGenCommand};
use gridforge::datagrid::DataGrid;
use gridforge::errors::GenError;
use gridforge::scalar::Value;

fn run(cmd: &MapGenCommand, grid: DataGrid) -> Result<DataGrid, GenError> {
    cmd.run_one(7, grid, &BuiltinEval {}, Some(&SimpleNoise {}))
}

fn init(nx: i64, ny: i64, nz: i64) -> DataGrid {
    let mut c = MapGenCommand::default();
    c.init_size = (nx, ny, nz);
    c.run_none(7).ok().unwrap()
}

#[test]
fn initialize_rejects_zero_dimension() {
    let mut c = MapGenCommand::default();
    c.init_size = (0, 4, 4);
    match c.run_none(7) {
        Err(e) => assert_eq!(e, GenError::Domain),
        Ok(_) => panic!("zero dimension must be refused"),
    }
}

#[test]
fn initialize_rejects_negative_dimension() {
    let mut c = MapGenCommand::default();
    c.init_size = (4, -1, 4);
    match c.run_none(7) {
        Err(e) => assert_eq!(e, GenError::Domain),
        Ok(_) => panic!("negative dimension must be refused"),
    }
}

#[test]
fn initialize_valid_yields_empty_grid() {
    let g = init(4, 5, 6);
    assert_eq!(g.size(), (4usize, 5usize, 6usize));
    assert!(g.get_fields().is_empty());
}

#[test]
fn run_none_refuses_non_root_command() {
    let mut c = MapGenCommand::default();
    c.mode = CommandMode::OuterWalls;
    c.save = "walls".to_string();
    match c.run_none(7) {
        Err(e) => assert_eq!(e, GenError::Configuration),
        Ok(_) => panic!("non-root command must not run without input"),
    }
}

#[test]
fn run_one_refuses_initialize() {
    let mut c = MapGenCommand::default();
    c.init_size = (4, 4, 4);
    let g = init(4, 4, 4);
    match run(&c, g) {
        Err(e) => assert_eq!(e, GenError::Configuration),
        Ok(_) => panic!("Initialize must not run with input"),
    }
}

#[test]
fn sample_missing_field_is_none() {
    let g = init(4, 4, 4);
    assert_eq!(g.sample_grid(&"nope".to_string(), (0, 0, 0)), None);
}

#[test]
fn sample_noise_writes_exact_hash_values() {
    let mut c = MapGenCommand::default();
    c.mode = CommandMode::SampleNoise;
    c.save = "n".to_string();
    c.seed_salt = 3;
    let g = run(&c, init(4, 4, 4)).ok().unwrap();
    // The built-in noise is a documented bit-mixing hash of seed and
    // coordinate; recompute it here and hold the stored field to it.
    let eff = 7i64.wrapping_add(3);
    let expect = |x: i64, y: i64, z: i64| -> i64 {
        eff.wrapping_mul(0x9E3779B97F4A7C15u64 as i64)
            .wrapping_add(x.wrapping_mul(0x1000193))
            .wrapping_add(y.wrapping_mul(0x10001A7))
            .wrapping_add(z.wrapping_mul(0x10001B3))
    };
    assert_eq!(
        g.sample_grid(&"n".to_string(), (1, 2, 3)),
        Some(Value::Float(expect(1, 2, 3)))
    );
    assert_eq!(
        g.sample_grid(&"n".to_string(), (0, 0, 0)),
        Some(Value::Float(expect(0, 0, 0)))
    );
}

#[test]
fn sample_noise_without_collaborator_errors() {
    let mut c = MapGenCommand::default();
    c.mode = CommandMode::SampleNoise;
    c.save = "n".to_string();
    let g = init(4, 4, 4);
    match c.run_one(7, g, &BuiltinEval {}, None::<&SimpleNoise>) {
        Err(e) => assert_eq!(e, GenError::Configuration),
        Ok(_) => panic!("missing noise collaborator must be refused"),
    }
}

#[test]
fn list_input_then_get_list_round_trips() {
    let mut c = MapGenCommand::default();
    c.mode = CommandMode::ListInput;
    c.save = "pts".to_string();
    c.position_list = vec![(3, 1, 2), (0, 0, 0), (5, 5, 5)];
    let g = run(&c, init(4, 4, 4)).ok().unwrap();
    let l = g.get_list(&"pts".to_string()).unwrap();
    assert_eq!(l, vec![(3, 1, 2), (0, 0, 0), (5, 5, 5)]);
}

#[test]
fn drop_fields_removes_and_ignores_missing() {
    let mut li = MapGenCommand::default();
    li.mode = CommandMode::ListInput;
    li.save = "pts".to_string();
    li.position_list = vec![(1, 1, 1)];
    let g = run(&li, init(4, 4, 4)).ok().unwrap();
    let mut dr = MapGenCommand::default();
    dr.mode = CommandMode::DropFields;
    dr.to_drop = vec!["pts".to_string(), "absent".to_string()];
    let g = run(&dr, g).ok().unwrap();
    assert!(g.get_fields().is_empty());
}

#[test]
fn outer_walls_marks_exactly_the_boundary() {
    let mut c = MapGenCommand::default();
    c.mode = CommandMode::OuterWalls;
    c.save = "walls".to_string();
    let g = run(&c, init(3, 3, 3)).ok().unwrap();
    for x in 0..3i64 {
        for y in 0..3i64 {
            for z in 0..3i64 {
                let boundary = x == 0 || x == 2 || y == 0 || y == 2 || z == 0 || z == 2;
                assert_eq!(
                    g.sample_grid(&"walls".to_string(), (x, y, z)),
                    Some(Value::Bool(boundary))
                );
            }
        }
    }
}

#[test]
fn outer_walls_empty_save_is_domain_error() {
    let mut c = MapGenCommand::default();
    c.mode = CommandMode::OuterWalls;
    match run(&c, init(3, 3, 3)) {
        Err(e) => assert_eq!(e, GenError::Domain),
        Ok(_) => panic!("empty save name must be refused"),
    }
}

#[test]
fn interval_select_marks_the_lattice() {
    let mut c = MapGenCommand::default();
    c.mode = CommandMode::IntervalSelect;
    c.save = "lat".to_string();
    c.interval = (2, 3, 2);
    c.offset = (1, 0, 0);
    let g = run(&c, init(6, 6, 6)).ok().unwrap();
    for x in 0..6i64 {
        for y in 0..6i64 {
            for z in 0..6i64 {
                let on = x >= 1 && (x - 1) % 2 == 0 && y % 3 == 0 && z % 2 == 0;
                assert_eq!(
                    g.sample_grid(&"lat".to_string(), (x, y, z)),
                    Some(Value::Bool(on)),
                    "at {:?}",
                    (x, y, z)
                );
            }
        }
    }
}

#[test]
fn interval_select_zero_stride_is_domain_error() {
    let mut c = MapGenCommand::default();
    c.mode = CommandMode::IntervalSelect;
    c.save = "lat".to_string();
    c.interval = (0, 1, 1);
    match run(&c, init(4, 4, 4)) {
        Err(e) => assert_eq!(e, GenError::Domain),
        Ok(_) => panic!("zero stride must be refused"),
    }
}
