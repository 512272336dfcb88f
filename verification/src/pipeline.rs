use vstd::prelude::*;

use crate::collab::{Evaluator, NoiseField};
use crate::command::{run_none_post, run_one_post, MapGenCommand, NeedsInput};
use crate::datagrid::DataGrid;
use crate::errors::{GenError, RunError};

verus! {

/// One node of the generation graph: a named command and at most one child
/// supplying its input.
pub struct MapGenNode {
    pub name: String,
    pub command: MapGenCommand,
    pub child: Option<usize>,
}

/// The graph is held as an arena; children come before their parents, so
/// the dependency chain is acyclic by construction.
pub open spec fn graph_wf(nodes: Seq<MapGenNode>) -> bool {
    forall|i: int|
        0 <= i < nodes.len() ==> match (#[trigger] nodes[i]).child {
            Some(c) => c < i,
            None => true,
        }
}

/// A node-annotated result with its annotation dropped, for comparison
/// with a command's own contract.
pub open spec fn strip_node(r: Result<DataGrid, RunError>) -> Result<DataGrid, GenError> {
    match r {
        Ok(g) => Ok(g),
        Err(e) => Err(e.error),
    }
}

/// The executor's full semantics, node by node.  A root `Initialize`
/// satisfies its own contract; a chain node either propagates its child's
/// failure unchanged, or there is a child grid satisfying this predicate
/// whose transformation by the node's command — per that command's whole
/// per-mode contract — is the node's result, errors annotated with the
/// node's name.
pub open spec fn exec_post<E: Evaluator, N: NoiseField>(
    nodes: Seq<MapGenNode>,
    idx: int,
    seed: i64,
    ev: &E,
    noise: Option<&N>,
    r: Result<DataGrid, RunError>,
) -> bool
    decreases idx,
    when 0 <= idx < nodes.len() && graph_wf(nodes)
{
    let nd = nodes[idx];
    if nd.command.mode is Initialize {
        match r {
            Ok(g) => run_none_post(&nd.command, Ok(g)),
            Err(e) => e.node@ == nd.name@ && run_none_post(&nd.command, Err(e.error)),
        }
    } else {
        match nd.child {
            None => r matches Err(e) && e.node@ == nd.name@ && e.error == GenError::Configuration,
            Some(c) => {
                ||| (r matches Err(e) && exec_post(
                    nodes,
                    c as int,
                    seed,
                    ev,
                    noise,
                    Err::<DataGrid, RunError>(e),
                ))
                ||| exists|gc: DataGrid|
                    {
                        &&& gc.wf()
                        &&& exec_post(
                            nodes,
                            c as int,
                            seed,
                            ev,
                            noise,
                            Ok::<DataGrid, RunError>(gc),
                        )
                        &&& #[trigger] run_one_post(
                            &nd.command,
                            seed,
                            gc.fields(),
                            gc.spec_size(),
                            ev,
                            noise,
                            strip_node(r),
                        )
                        &&& (r matches Err(e) ==> e.node@ == nd.name@)
                    }
            },
        }
    }
}

/// One chain step: a child grid satisfying the executor's contract,
/// transformed per the node's command contract, satisfies it at the node.
proof fn lemma_exec_step<E: Evaluator, N: NoiseField>(
    nodes: Seq<MapGenNode>,
    idx: int,
    seed: i64,
    ev: &E,
    noise: Option<&N>,
    gc: DataGrid,
    r: Result<DataGrid, RunError>,
)
    requires
        0 <= idx < nodes.len(),
        graph_wf(nodes),
        !(nodes[idx].command.mode is Initialize),
        nodes[idx].child is Some,
        gc.wf(),
        exec_post(
            nodes,
            nodes[idx].child.unwrap() as int,
            seed,
            ev,
            noise,
            Ok::<DataGrid, RunError>(gc),
        ),
        run_one_post(
            &nodes[idx].command,
            seed,
            gc.fields(),
            gc.spec_size(),
            ev,
            noise,
            strip_node(r),
        ),
        r matches Err(e) ==> e.node@ == nodes[idx].name@,
    ensures
        exec_post(nodes, idx, seed, ev, noise, r),
{
    let nd = nodes[idx];
    let c = nd.child.unwrap();
    assert(exec_post(nodes, idx, seed, ev, noise, r)) by {
        assert(gc.wf() && exec_post(nodes, c as int, seed, ev, noise, Ok::<DataGrid, RunError>(gc))
            && run_one_post(
            &nd.command,
            seed,
            gc.fields(),
            gc.spec_size(),
            ev,
            noise,
            strip_node(r),
        ) && (r matches Err(e) ==> e.node@ == nd.name@));
    }
}

/// Executes the node at `idx`: resolves its single child first (children
/// always stand earlier in the arena), then runs the node's command on the
/// child's grid.  The first failure aborts everything above it, annotated
/// with the failing node's name.
pub fn generate<E: Evaluator, N: NoiseField>(
    nodes: &Vec<MapGenNode>,
    idx: usize,
    seed: i64,
    ev: &E,
    noise: Option<&N>,
) -> (r: Result<DataGrid, RunError>)
    requires
        graph_wf(nodes@),
        idx < nodes@.len(),
    ensures
        r matches Ok(g) ==> g.wf(),
        r matches Err(e) ==> exists|i: int|
            0 <= i < nodes@.len() && e.node@ == (#[trigger] nodes@[i]).name@,
        nodes@[idx as int].command.mode is Initialize ==> match r {
            Ok(g) => run_none_post(&nodes@[idx as int].command, Ok(g)),
            Err(e) => e.node@ == nodes@[idx as int].name@ && run_none_post(
                &nodes@[idx as int].command,
                Err(e.error),
            ),
        },
        !(nodes@[idx as int].command.mode is Initialize) && nodes@[idx as int].child is None ==> (
        r matches Err(e) && e.node@ == nodes@[idx as int].name@ && e.error
            == GenError::Configuration),
        exec_post(nodes@, idx as int, seed, ev, noise, r),
    decreases idx,
{
    let node = &nodes[idx];
    proof {
        assert(*node == nodes@[idx as int]);
    }
    match node.command.needs_input() {
        NeedsInput::No => {
            match node.command.run_none(seed) {
                Ok(g) => {
                    let r: Result<DataGrid, RunError> = Ok(g);
                    proof {
                        assert(exec_post(nodes@, idx as int, seed, ev, noise, r));
                    }
                    r
                },
                Err(e) => {
                    let r: Result<DataGrid, RunError> = Err(
                        RunError { node: node.name.clone(), error: e },
                    );
                    proof {
                        assert(exec_post(nodes@, idx as int, seed, ev, noise, r));
                    }
                    r
                },
            }
        },
        NeedsInput::One => {
            let c = match node.child {
                Some(c) => c,
                None => {
                    let r: Result<DataGrid, RunError> = Err(
                        RunError { node: node.name.clone(), error: GenError::Configuration },
                    );
                    proof {
                        assert(exec_post(nodes@, idx as int, seed, ev, noise, r));
                    }
                    return r;
                },
            };
            match generate(nodes, c, seed, ev, noise) {
                Ok(g) => {
                    let ghost gsnap = g;
                    let rr = node.command.run_one(seed, g, ev, noise);
                    match rr {
                        Ok(g2) => {
                            let r: Result<DataGrid, RunError> = Ok(g2);
                            proof {
                                assert(strip_node(r) == Ok::<DataGrid, GenError>(r->Ok_0));
                                lemma_exec_step(nodes@, idx as int, seed, ev, noise, gsnap, r);
                            }
                            r
                        },
                        Err(e) => {
                            let r: Result<DataGrid, RunError> = Err(
                                RunError { node: node.name.clone(), error: e },
                            );
                            proof {
                                assert(strip_node(r) == Err::<DataGrid, GenError>(e));
                                lemma_exec_step(nodes@, idx as int, seed, ev, noise, gsnap, r);
                            }
                            r
                        },
                    }
                },
                Err(e) => {
                    let r: Result<DataGrid, RunError> = Err(e);
                    proof {
                        assert(exec_post(nodes@, idx as int, seed, ev, noise, r));
                    }
                    r
                },
            }
        },
    }
}

} // verus!
