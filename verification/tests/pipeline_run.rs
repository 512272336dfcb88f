use gridforge::collab::{BuiltinEval, SimpleNoise};
use gridforge::command::{CommandMode, MapGenCommand, MapGenExpression};
use gridforge::convolve::Neighborhood;
use gridforge::datagrid::DataGrid;
use gridforge::edge::EdgeMode;
use gridforge::pipeline::{generate, MapGenNode};
use gridforge::scalar::{ElemType, Value};

fn node(name: &str, command: MapGenCommand, child: Option<usize>) -> MapGenNode {
    MapGenNode { name: name.to_string(), command, child }
}

fn demo_graph(seed_salt: i64) -> Vec<MapGenNode> {
    let mut root = MapGenCommand::default();
    root.init_size = (4, 4, 4);

    let mut exprs = MapGenCommand::default();
    exprs.mode = CommandMode::Expressions;
    exprs.expression_list = vec![MapGenExpression {
        name: "x".to_string(),
        expr: "position.x".to_string(),
        result_kind: ElemType::Int,
    }];

    let mut conv = MapGenCommand::default();
    conv.mode = CommandMode::SampleNeighborhood;
    conv.source = "x".to_string();
    conv.save = "nsum".to_string();
    conv.edge_mode = EdgeMode::Ignore;
    conv.neighborhood = Some(Neighborhood {
        offsets: vec![(1, 0, 0), (-1, 0, 0)],
        summing_expr: String::new(),
        accumulator_base: 0,
    });

    let mut rooms = MapGenCommand::default();
    rooms.mode = CommandMode::RandomRooms;
    rooms.save = "rooms".to_string();
    rooms.save_union = "uni".to_string();
    rooms.count = 2;
    rooms.min_size = (1, 1, 1);
    rooms.max_size = (2, 2, 2);
    rooms.min_within = (0, 0, 0);
    rooms.max_within = (4, 4, 4);
    rooms.seed_salt = seed_salt;

    vec![
        node("root", root, None),
        node("exprs", exprs, Some(0)),
        node("conv", conv, Some(1)),
        node("rooms", rooms, Some(2)),
    ]
}

fn run_graph(nodes: &Vec<MapGenNode>, seed: i64) -> DataGrid {
    generate(nodes, nodes.len() - 1, seed, &BuiltinEval {}, Some(&SimpleNoise {}))
        .ok()
        .unwrap()
}

#[test]
fn pipeline_runs_the_chain_depth_first() {
    let g = run_graph(&demo_graph(1), 7);
    // The convolution of the x field, checked through the whole chain.
    for y in 0..4i64 {
        for z in 0..4i64 {
            assert_eq!(g.sample_grid(&"nsum".to_string(), (0, y, z)), Some(Value::Int(1)));
            assert_eq!(g.sample_grid(&"nsum".to_string(), (1, y, z)), Some(Value::Int(2)));
            assert_eq!(g.sample_grid(&"nsum".to_string(), (3, y, z)), Some(Value::Int(2)));
        }
    }
    assert_eq!(g.get_fields().len(), 4);
}

#[test]
fn pipeline_is_deterministic_for_a_seed() {
    // The same seed, salts and graph give byte-identical observable
    // fields — the random rooms included.
    let g1 = run_graph(&demo_graph(3), 42);
    let g2 = run_graph(&demo_graph(3), 42);
    assert_eq!(g1.get_fields(), g2.get_fields());
    for name in g1.get_fields() {
        for x in 0..4i64 {
            for y in 0..4i64 {
                for z in 0..4i64 {
                    assert_eq!(
                        g1.sample_grid(&name, (x, y, z)),
                        g2.sample_grid(&name, (x, y, z)),
                        "field {} at {:?}",
                        name,
                        (x, y, z)
                    );
                }
            }
        }
    }
}

#[test]
fn pipeline_differs_across_seeds() {
    let g1 = run_graph(&demo_graph(3), 1);
    let g2 = run_graph(&demo_graph(3), 2);
    let mut any_diff = false;
    for x in 0..4i64 {
        for y in 0..4i64 {
            for z in 0..4i64 {
                if g1.sample_grid(&"uni".to_string(), (x, y, z))
                    != g2.sample_grid(&"uni".to_string(), (x, y, z))
                {
                    any_diff = true;
                }
            }
        }
    }
    assert!(any_diff, "different seeds should move the rooms");
}

#[test]
fn pipeline_error_names_the_failing_node() {
    let mut orphan = MapGenCommand::default();
    orphan.mode = CommandMode::OuterWalls;
    orphan.save = "walls".to_string();
    let nodes = vec![node("lonely", orphan, None)];
    match generate(&nodes, 0, 7, &BuiltinEval {}, Some(&SimpleNoise {})) {
        Err(e) => {
            assert_eq!(e.node, "lonely".to_string());
            assert_eq!(e.error, gridforge::errors::GenError::Configuration);
        },
        Ok(_) => panic!("a non-root node without a child must fail"),
    }
}

#[test]
fn pipeline_propagates_child_failure() {
    let mut root = MapGenCommand::default();
    root.init_size = (0, 4, 4);
    let mut walls = MapGenCommand::default();
    walls.mode = CommandMode::OuterWalls;
    walls.save = "walls".to_string();
    let nodes = vec![node("badroot", root, None), node("walls", walls, Some(0))];
    match generate(&nodes, 1, 7, &BuiltinEval {}, Some(&SimpleNoise {})) {
        Err(e) => {
            assert_eq!(e.node, "badroot".to_string());
            assert_eq!(e.error, gridforge::errors::GenError::Domain);
        },
        Ok(_) => panic!("the root's failure must propagate"),
    }
}
