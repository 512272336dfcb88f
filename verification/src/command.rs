use vstd::prelude::*;

use crate::automata::{ca_run_post, CellAutoRule};
use crate::collab::{Evaluator, NoiseField};
use crate::convolve::{sample_neighborhood_post, Neighborhood};
use crate::datagrid::{
    fields_overwrote, fields_removed, grid_get, grid_has, DataGrid,
};
use crate::dense::{Dense, MAX_CELLS};
use crate::errors::GenError;
use crate::exprs::{expr_num_val, expr_bool_val};
use crate::fall::fall_contrib;
use crate::fields::{GridElement, Room};
use crate::pathfind::SearchMap;
use crate::rooms::{room_shaped, rooms_union, AlgorithmHelper, RectPrism};
use crate::scalar::ElemType;
use crate::selection::{copy_cells, Selection};
use crate::sortlist::{sort_spec, SortAxis};

verus! {

/// The closed set of command kinds the dispatcher implements.
#[derive(Clone, Copy, Debug, PartialEq, Eq, Structural)]
pub enum CommandMode {
    Initialize,
    Expressions,
    SampleNoise,
    SampleNeighborhood,
    OuterWalls,
    DropFields,
    SetOps,
    RandomRooms,
    GetRoomCenters,
    SortList,
    ListToSel,
    SelToList,
    CarvePaths,
    ListInput,
    CellularAutomata,
    IntervalSelect,
    SelectFall,
}

/// Whether a command consumes a grid from a child node.
#[derive(Clone, Copy, Debug, PartialEq, Eq, Structural)]
pub enum NeedsInput {
    No,
    One,
}

/// The three set operations.
#[derive(Clone, Copy, Debug, PartialEq, Eq, Structural)]
pub enum SetBoolean {
    Union,
    Intersection,
    Difference,
}

/// One entry of an Expressions command: the field to write, the expression
/// to evaluate per voxel, and the category of the result.
pub struct MapGenExpression {
    pub name: String,
    pub expr: String,
    pub result_kind: ElemType,
}

/// Two multiples of a positive stride that differ, differ by at least the
/// stride.
proof fn lemma_multiples_apart(s: int, a: int, b: int)
    requires
        s >= 1,
        a % s == 0,
        b % s == 0,
        a < b,
    ensures
        b - a >= s,
{
    let qa = a / s;
    let qb = b / s;
    vstd::arithmetic::div_mod::lemma_fundamental_div_mod(a, s);
    vstd::arithmetic::div_mod::lemma_fundamental_div_mod(b, s);
    assert(a == s * qa && b == s * qb);
    assert(qa < qb) by (nonlinear_arith)
        requires
            a == s * qa,
            b == s * qb,
            a < b,
            s >= 1,
    ;
    assert(b - a >= s) by (nonlinear_arith)
        requires
            a == s * qa,
            b == s * qb,
            qa < qb,
            s >= 1,
    ;
}

/// The boundary of a grid: every voxel on one of the six faces.
pub open spec fn walls_spec(size: (int, int, int)) -> Set<(i64, i64, i64)> {
    Set::new(
        |c: (i64, i64, i64)|
            {
                &&& 0 <= c.0 < size.0
                &&& 0 <= c.1 < size.1
                &&& 0 <= c.2 < size.2
                &&& (c.0 == 0 || c.0 == size.0 - 1 || c.1 == 0 || c.1 == size.1 - 1 || c.2 == 0
                    || c.2 == size.2 - 1)
            },
    )
}

/// The selection of all voxels on the grid's six boundary faces.
pub fn outer_walls(size: (usize, usize, usize)) -> (r: Selection)
    requires
        1 <= size.0 <= MAX_CELLS,
        1 <= size.1 <= MAX_CELLS,
        1 <= size.2 <= MAX_CELLS,
    ensures
        r.inv(),
        r@ == walls_spec((size.0 as int, size.1 as int, size.2 as int)),
{
    let (nx, ny, nz) = (size.0, size.1, size.2);
    let ghost szi = (size.0 as int, size.1 as int, size.2 as int);
    let mut out = Selection::new();
    let mut x: usize = 0;
    while x < nx
        invariant
            out.inv(),
            szi == (nx as int, ny as int, nz as int),
            1 <= nx <= MAX_CELLS && 1 <= ny <= MAX_CELLS && 1 <= nz <= MAX_CELLS,
            x <= nx,
            forall|c: (i64, i64, i64)| #[trigger]
                out@.contains(c) <==> (walls_spec(szi).contains(c) && c.0 < x),
        decreases nx - x,
    {
        let mut y: usize = 0;
        while y < ny
            invariant
                out.inv(),
                szi == (nx as int, ny as int, nz as int),
                1 <= nx <= MAX_CELLS && 1 <= ny <= MAX_CELLS && 1 <= nz <= MAX_CELLS,
                x < nx,
                y <= ny,
                forall|c: (i64, i64, i64)| #[trigger]
                    out@.contains(c) <==> (walls_spec(szi).contains(c) && (c.0 < x || (c.0
                        == x as i64 && c.1 < y))),
            decreases ny - y,
        {
            let mut z: usize = 0;
            while z < nz
                invariant
                    out.inv(),
                    szi == (nx as int, ny as int, nz as int),
                    1 <= nx <= MAX_CELLS && 1 <= ny <= MAX_CELLS && 1 <= nz <= MAX_CELLS,
                    x < nx,
                    y < ny,
                    z <= nz,
                    forall|c: (i64, i64, i64)| #[trigger]
                        out@.contains(c) <==> (walls_spec(szi).contains(c) && (c.0 < x || (c.0
                            == x as i64 && (c.1 < y || (c.1 == y as i64 && c.2 < z))))),
                decreases nz - z,
            {
                let boundary = x == 0 || x == nx - 1 || y == 0 || y == ny - 1 || z == 0 || z == nz
                    - 1;
                if boundary {
                    out.insert((x as i64, y as i64, z as i64));
                }
                z += 1;
            }
            y += 1;
        }
        x += 1;
    }
    out
}

/// The lattice of voxels at `offset` plus any whole number of `stride`s,
/// per axis.
pub open spec fn lattice_spec(
    size: (int, int, int),
    stride: (int, int, int),
    off: (int, int, int),
) -> Set<(i64, i64, i64)> {
    Set::new(
        |c: (i64, i64, i64)|
            {
                &&& off.0 <= c.0 < size.0 && (c.0 - off.0) % stride.0 == 0
                &&& off.1 <= c.1 < size.1 && (c.1 - off.1) % stride.1 == 0
                &&& off.2 <= c.2 < size.2 && (c.2 - off.2) % stride.2 == 0
                &&& c.0 >= 0 && c.1 >= 0 && c.2 >= 0
            },
    )
}

/// The selection of every voxel on a fixed lattice of the given stride and
/// offset.
pub fn interval_select(
    size: (usize, usize, usize),
    stride: (usize, usize, usize),
    off: (usize, usize, usize),
) -> (r: Selection)
    requires
        1 <= size.0 <= MAX_CELLS,
        1 <= size.1 <= MAX_CELLS,
        1 <= size.2 <= MAX_CELLS,
        1 <= stride.0 <= MAX_CELLS,
        1 <= stride.1 <= MAX_CELLS,
        1 <= stride.2 <= MAX_CELLS,
        off.0 <= MAX_CELLS,
        off.1 <= MAX_CELLS,
        off.2 <= MAX_CELLS,
    ensures
        r.inv(),
        r@ == lattice_spec(
            (size.0 as int, size.1 as int, size.2 as int),
            (stride.0 as int, stride.1 as int, stride.2 as int),
            (off.0 as int, off.1 as int, off.2 as int),
        ),
{
    let (nx, ny, nz) = (size.0, size.1, size.2);
    let ghost szi = (size.0 as int, size.1 as int, size.2 as int);
    let ghost sti = (stride.0 as int, stride.1 as int, stride.2 as int);
    let ghost ofi = (off.0 as int, off.1 as int, off.2 as int);
    let mut out = Selection::new();
    let mut x: usize = off.0;
    proof {
        vstd::arithmetic::div_mod::lemma_small_mod(0nat, stride.0 as nat);
    }
    while x < nx
        invariant
            out.inv(),
            szi == (nx as int, ny as int, nz as int),
            sti == (stride.0 as int, stride.1 as int, stride.2 as int),
            ofi == (off.0 as int, off.1 as int, off.2 as int),
            1 <= nx <= MAX_CELLS && 1 <= ny <= MAX_CELLS && 1 <= nz <= MAX_CELLS,
            1 <= stride.0 <= MAX_CELLS && 1 <= stride.1 <= MAX_CELLS && 1 <= stride.2
                <= MAX_CELLS,
            off.0 <= MAX_CELLS && off.1 <= MAX_CELLS && off.2 <= MAX_CELLS,
            off.0 <= x,
            x == off.0 || x <= nx - 1 + stride.0,
            (x - off.0) % (stride.0 as int) == 0,
            forall|c: (i64, i64, i64)| #[trigger]
                out@.contains(c) <==> (lattice_spec(szi, sti, ofi).contains(c) && c.0 < x),
        decreases (if x < nx {
            nx - x
        } else {
            0
        }),
    {
        let mut y: usize = off.1;
        proof {
            vstd::arithmetic::div_mod::lemma_small_mod(0nat, stride.1 as nat);
        }
        while y < ny
            invariant
                out.inv(),
                szi == (nx as int, ny as int, nz as int),
                sti == (stride.0 as int, stride.1 as int, stride.2 as int),
                ofi == (off.0 as int, off.1 as int, off.2 as int),
                1 <= nx <= MAX_CELLS && 1 <= ny <= MAX_CELLS && 1 <= nz <= MAX_CELLS,
                1 <= stride.0 <= MAX_CELLS && 1 <= stride.1 <= MAX_CELLS && 1 <= stride.2
                    <= MAX_CELLS,
                off.0 <= MAX_CELLS && off.1 <= MAX_CELLS && off.2 <= MAX_CELLS,
                off.0 <= x < nx,
                (x - off.0) % (stride.0 as int) == 0,
                off.1 <= y,
                y == off.1 || y <= ny - 1 + stride.1,
                (y - off.1) % (stride.1 as int) == 0,
                forall|c: (i64, i64, i64)| #[trigger]
                    out@.contains(c) <==> (lattice_spec(szi, sti, ofi).contains(c) && (c.0 < x || (
                    c.0 == x as i64 && c.1 < y))),
            decreases (if y < ny {
                ny - y
            } else {
                0
            }),
        {
            let mut z: usize = off.2;
            proof {
                vstd::arithmetic::div_mod::lemma_small_mod(0nat, stride.2 as nat);
            }
            while z < nz
                invariant
                    out.inv(),
                    szi == (nx as int, ny as int, nz as int),
                    sti == (stride.0 as int, stride.1 as int, stride.2 as int),
                    ofi == (off.0 as int, off.1 as int, off.2 as int),
                    1 <= nx <= MAX_CELLS && 1 <= ny <= MAX_CELLS && 1 <= nz <= MAX_CELLS,
                    1 <= stride.0 <= MAX_CELLS && 1 <= stride.1 <= MAX_CELLS && 1 <= stride.2
                        <= MAX_CELLS,
                    off.0 <= MAX_CELLS && off.1 <= MAX_CELLS && off.2 <= MAX_CELLS,
                    off.0 <= x < nx,
                    (x - off.0) % (stride.0 as int) == 0,
                    off.1 <= y < ny,
                    (y - off.1) % (stride.1 as int) == 0,
                    off.2 <= z,
                    z == off.2 || z <= nz - 1 + stride.2,
                    (z - off.2) % (stride.2 as int) == 0,
                    forall|c: (i64, i64, i64)| #[trigger]
                        out@.contains(c) <==> (lattice_spec(szi, sti, ofi).contains(c) && (c.0 < x
                            || (c.0 == x as i64 && (c.1 < y || (c.1 == y as i64 && c.2 < z))))),
                decreases (if z < nz {
                    nz - z
                } else {
                    0
                }),
            {
                out.insert((x as i64, y as i64, z as i64));
                proof {
                    assert(lattice_spec(szi, sti, ofi).contains((x as i64, y as i64, z as i64)));
                    assert forall|c: (i64, i64, i64)| #[trigger]
                        out@.contains(c) <==> (lattice_spec(szi, sti, ofi).contains(c) && (c.0 < x
                            || (c.0 == x as i64 && (c.1 < y || (c.1 == y as i64 && c.2 < z
                            + stride.2))))) by {
                        if out@.contains(c) && c != (x as i64, y as i64, z as i64) {
                        }
                        if lattice_spec(szi, sti, ofi).contains(c) && c.0 == x as i64 && c.1
                            == y as i64 && z < c.2 < z + stride.2 {
                            assert((c.2 - ofi.2) % sti.2 == 0);
                            assert((z - off.2) % (stride.2 as int) == 0);
                            lemma_multiples_apart(sti.2, z - ofi.2, c.2 - ofi.2);
                        }
                    }
                }
                proof {
                    vstd::arithmetic::div_mod::lemma_mod_multiples_vanish(1, z - ofi.2, sti.2);
                }
                z += stride.2;
            }
            proof {
                vstd::arithmetic::div_mod::lemma_mod_multiples_vanish(1, y - ofi.1, sti.1);
                assert forall|c: (i64, i64, i64)|
                    lattice_spec(szi, sti, ofi).contains(c) && c.0 == x as i64 && (y as i64) < c.1
                        < y + stride.1 implies false by {
                    lemma_multiples_apart(sti.1, y - ofi.1, c.1 - ofi.1);
                }
            }
            y += stride.1;
        }
        proof {
            vstd::arithmetic::div_mod::lemma_mod_multiples_vanish(1, x - ofi.0, sti.0);
            assert forall|c: (i64, i64, i64)|
                lattice_spec(szi, sti, ofi).contains(c) && (x as i64) < c.0 < x + stride.0
                implies false by {
                lemma_multiples_apart(sti.0, x - ofi.0, c.0 - ofi.0);
            }
        }
        x += stride.0;
    }
    proof {
        assert forall|c: (i64, i64, i64)|
            lattice_spec(szi, sti, ofi).contains(c) implies c.0 < x by {
            if c.0 >= x {
                assert((c.0 - ofi.0) % sti.0 == 0);
                assert((x - off.0) % (stride.0 as int) == 0);
                if c.0 < x {
                } else {
                    assert(ofi.0 <= x <= c.0 < szi.0);
                    lemma_multiples_apart(sti.0, x - ofi.0, c.0 - ofi.0);
                }
            }
        }
    }
    out
}

/// The centers of the rooms at positions `k..`, in room order, skipping
/// rooms without one.
pub open spec fn centers_from(rooms: Seq<Room>, k: int) -> Seq<(i64, i64, i64)>
    decreases rooms.len() - k,
{
    if !(0 <= k < rooms.len()) {
        Seq::<(i64, i64, i64)>::empty()
    } else {
        match rooms[k].center {
            Some(c) => seq![c] + centers_from(rooms, k + 1),
            None => centers_from(rooms, k + 1),
        }
    }
}

/// Extracts the rooms' centers as an ordered coordinate list.
pub fn room_centers(rooms: &Vec<Room>) -> (r: Vec<(i64, i64, i64)>)
    ensures
        r@ == centers_from(rooms@, 0),
{
    let mut out: Vec<(i64, i64, i64)> = Vec::new();
    let n = rooms.len();
    let mut i: usize = 0;
    while i < n
        invariant
            i <= n,
            n == rooms@.len(),
            out@ + centers_from(rooms@, i as int) == centers_from(rooms@, 0),
        decreases n - i,
    {
        match &rooms[i].center {
            Some(c) => {
                out.push(*c);
            },
            None => {},
        }
        proof {
            assert(out@ + centers_from(rooms@, i + 1) =~= centers_from(rooms@, 0));
        }
        i += 1;
    }
    out
}

/// A dense fixed-point field sampled from the noise collaborator, seeded
/// with the effective seed.
pub fn noise_fill<N: NoiseField>(n: &N, eff_seed: i64, size: (usize, usize, usize)) -> (r: Dense)
    requires
        1 <= size.0,
        1 <= size.1,
        1 <= size.2,
        size.0 * size.1 * size.2 <= MAX_CELLS,
    ensures
        r.wf(),
        r.dim() == (size.0 as int, size.1 as int, size.2 as int),
        forall|x: int, y: int, z: int|
            r.in_bounds(x, y, z) ==> #[trigger] r.at(x, y, z) == n.noise_spec(eff_seed, x, y, z),
{
    let (nx, ny, nz) = (size.0, size.1, size.2);
    proof {
        crate::dense::lemma_dims_bounded((nx as int, ny as int, nz as int));
    }
    let mut out = Dense::new(nx, ny, nz);
    let mut x: usize = 0;
    while x < nx
        invariant
            out.wf(),
            out.dim() == (nx as int, ny as int, nz as int),
            1 <= nx && 1 <= ny && 1 <= nz,
            x <= nx,
            forall|a: int, b: int, c: int|
                0 <= a < x && 0 <= b < ny && 0 <= c < nz ==> #[trigger] out.at(a, b, c)
                    == n.noise_spec(eff_seed, a, b, c),
        decreases nx - x,
    {
        let mut y: usize = 0;
        while y < ny
            invariant
                out.wf(),
                out.dim() == (nx as int, ny as int, nz as int),
                1 <= nx && 1 <= ny && 1 <= nz,
                x < nx,
                y <= ny,
                forall|a: int, b: int, c: int|
                    0 <= a < x && 0 <= b < ny && 0 <= c < nz ==> #[trigger] out.at(a, b, c)
                        == n.noise_spec(eff_seed, a, b, c),
                forall|b: int, c: int|
                    0 <= b < y && 0 <= c < nz ==> #[trigger] out.at(x as int, b, c) == n.noise_spec(
                        eff_seed,
                        x as int,
                        b,
                        c,
                    ),
            decreases ny - y,
        {
            let mut z: usize = 0;
            while z < nz
                invariant
                    out.wf(),
                    out.dim() == (nx as int, ny as int, nz as int),
                    1 <= nx && 1 <= ny && 1 <= nz,
                    x < nx,
                    y < ny,
                    z <= nz,
                    forall|a: int, b: int, c: int|
                        0 <= a < x && 0 <= b < ny && 0 <= c < nz ==> #[trigger] out.at(a, b, c)
                            == n.noise_spec(eff_seed, a, b, c),
                    forall|b: int, c: int|
                        0 <= b < y && 0 <= c < nz ==> #[trigger] out.at(x as int, b, c)
                            == n.noise_spec(eff_seed, x as int, b, c),
                    forall|c: int|
                        0 <= c < z ==> #[trigger] out.at(x as int, y as int, c) == n.noise_spec(
                            eff_seed,
                            x as int,
                            y as int,
                            c,
                        ),
                decreases nz - z,
            {
                let v = n.sample(eff_seed, x, y, z);
                out.set(x, y, z, v);
                z += 1;
            }
            y += 1;
        }
        x += 1;
    }
    out
}

/// One generation command: a mode and the parameters of every mode, flat,
/// as a host configures it.
pub struct MapGenCommand {
    pub mode: CommandMode,
    pub seed_salt: i64,
    pub source: String,
    pub save: String,
    pub init_size: (i64, i64, i64),
    pub expression_list: Vec<MapGenExpression>,
    pub neighborhood: Option<Neighborhood>,
    pub edge_mode: crate::edge::EdgeMode,
    pub to_drop: Vec<String>,
    pub second_source: String,
    pub operation: SetBoolean,
    pub allow_overlap: bool,
    pub count: i64,
    pub min_size: (i64, i64, i64),
    pub max_size: (i64, i64, i64),
    pub min_within: (i64, i64, i64),
    pub max_within: (i64, i64, i64),
    pub save_union: String,
    pub sort_axis: SortAxis,
    pub reverse: bool,
    pub max_slope: i64,
    pub vertical_skew: i64,
    pub points_list: String,
    pub position_list: Vec<(i64, i64, i64)>,
    pub ca_rule: Option<CellAutoRule>,
    pub steps: i64,
    pub apply_min: (i64, i64, i64),
    pub apply_max: (i64, i64, i64),
    pub interval: (i64, i64, i64),
    pub offset: (i64, i64, i64),
    pub solid: String,
    pub sf_reverse: bool,
    pub column: bool,
}

impl MapGenCommand {
    /// Only the root `Initialize` command runs without an input grid.
    pub fn needs_input(&self) -> (r: NeedsInput)
        ensures
            r == (if self.mode is Initialize {
                NeedsInput::No
            } else {
                NeedsInput::One
            }),
    {
        match self.mode {
            CommandMode::Initialize => NeedsInput::No,
            _ => NeedsInput::One,
        }
    }

    /// Runs a command that takes no input.  `Initialize` yields a fresh
    /// empty grid of the configured extent; any dimension below 1 (or an
    /// extent too large to allocate) is a domain error, and every other
    /// mode refuses to run without input.
    pub fn run_none(&self, _seed: i64) -> (r: Result<DataGrid, GenError>)
        ensures
            !(self.mode is Initialize) ==> r == Err::<DataGrid, GenError>(GenError::Configuration),
            self.mode is Initialize ==> run_none_post(self, r),
    {
        match self.mode {
            CommandMode::Initialize => {
                let (sx, sy, sz) = self.init_size;
                if sx < 1 || sy < 1 || sz < 1 {
                    return Err(GenError::Domain);
                }
                if sx > MAX_CELLS as i64 || sy > MAX_CELLS as i64 || sz > MAX_CELLS as i64 {
                    proof {
                        assert(self.init_size.0 * self.init_size.1 * self.init_size.2 > MAX_CELLS)
                            by (nonlinear_arith)
                            requires
                                1 <= self.init_size.0 && 1 <= self.init_size.1 && 1
                                    <= self.init_size.2,
                                self.init_size.0 > MAX_CELLS || self.init_size.1 > MAX_CELLS
                                    || self.init_size.2 > MAX_CELLS,
                        ;
                    }
                    return Err(GenError::Domain);
                }
                let (ux, uy, uz) = (sx as usize, sy as usize, sz as usize);
                proof {
                    assert(ux * uy <= MAX_CELLS * MAX_CELLS) by (nonlinear_arith)
                        requires
                            1 <= ux <= MAX_CELLS,
                            1 <= uy <= MAX_CELLS,
                    ;
                }
                let prod2 = (ux as u64) * (uy as u64);
                if prod2 > MAX_CELLS as u64 {
                    proof {
                        assert(ux * uy * uz > MAX_CELLS) by (nonlinear_arith)
                            requires
                                ux * uy > MAX_CELLS,
                                1 <= uz,
                        ;
                    }
                    return Err(GenError::Domain);
                }
                proof {
                    assert(prod2 * uz <= MAX_CELLS * MAX_CELLS) by (nonlinear_arith)
                        requires
                            prod2 <= MAX_CELLS,
                            1 <= uz <= MAX_CELLS,
                    ;
                }
                let prod3 = prod2 * (uz as u64);
                if prod3 > MAX_CELLS as u64 {
                    return Err(GenError::Domain);
                }
                Ok(DataGrid::sized((ux, uy, uz)))
            },
            _ => Err(GenError::Configuration),
        }
    }
}

/// What one Expressions entry does to the stored fields.
pub open spec fn expr_step_ok<E: Evaluator>(
    ev: &E,
    e: MapGenExpression,
    s0: Seq<(String, GridElement)>,
    size: (int, int, int),
    s1: Seq<(String, GridElement)>,
) -> bool {
    &&& fields_overwrote(s0, s1, e.name@)
    &&& match e.result_kind {
        ElemType::Int => grid_get(s1, e.name@) matches GridElement::Int(d) && d.dim() == size
            && forall|x: int, y: int, z: int|
            d.in_bounds(x, y, z) ==> expr_num_val(ev, e.expr@, s0, x, y, z, false) == Some(
                #[trigger] d.at(x, y, z),
            ),
        ElemType::Float => grid_get(s1, e.name@) matches GridElement::Float(d) && d.dim() == size
            && forall|x: int, y: int, z: int|
            d.in_bounds(x, y, z) ==> expr_num_val(ev, e.expr@, s0, x, y, z, true) == Some(
                #[trigger] d.at(x, y, z),
            ),
        ElemType::Bool => grid_get(s1, e.name@) matches GridElement::Sel(o) && forall|
            x: int,
            y: int,
            z: int,
        |
            0 <= x < size.0 && 0 <= y < size.1 && 0 <= z < size.2 ==> #[trigger] expr_bool_val(
                ev,
                e.expr@,
                s0,
                x,
                y,
                z,
            ) == Some(o@.contains((x as i64, y as i64, z as i64))),
    }
}

/// The whole Expressions command: each entry applied in order.
pub open spec fn exprs_chain<E: Evaluator>(
    ev: &E,
    list: Seq<MapGenExpression>,
    s0: Seq<(String, GridElement)>,
    size: (int, int, int),
    s1: Seq<(String, GridElement)>,
) -> bool
    decreases list.len(),
{
    if list.len() == 0 {
        s1 == s0
    } else {
        exists|mid: Seq<(String, GridElement)>|
            #[trigger] expr_step_ok(ev, list[0], s0, size, mid) && exprs_chain(
                ev,
                list.drop_first(),
                mid,
                size,
                s1,
            )
    }
}

/// A chain extends by one applied entry.
proof fn lemma_exprs_chain_push<E: Evaluator>(
    ev: &E,
    list: Seq<MapGenExpression>,
    s0: Seq<(String, GridElement)>,
    size: (int, int, int),
    s1: Seq<(String, GridElement)>,
    e: MapGenExpression,
    s2: Seq<(String, GridElement)>,
)
    requires
        exprs_chain(ev, list, s0, size, s1),
        expr_step_ok(ev, e, s1, size, s2),
    ensures
        exprs_chain(ev, list.push(e), s0, size, s2),
    decreases list.len(),
{
    let p = list.push(e);
    if list.len() == 0 {
        assert(p[0] == e);
        assert(p.drop_first() =~= Seq::<MapGenExpression>::empty());
        assert(expr_step_ok(ev, p[0], s0, size, s2) && exprs_chain(
            ev,
            p.drop_first(),
            s2,
            size,
            s2,
        ));
    } else {
        let mid = choose|mid: Seq<(String, GridElement)>|
            #[trigger] expr_step_ok(ev, list[0], s0, size, mid) && exprs_chain(
                ev,
                list.drop_first(),
                mid,
                size,
                s1,
            );
        lemma_exprs_chain_push(ev, list.drop_first(), mid, size, s1, e, s2);
        assert(p.drop_first() =~= list.drop_first().push(e));
        assert(p[0] == list[0]);
        assert(expr_step_ok(ev, p[0], s0, size, mid) && exprs_chain(
            ev,
            p.drop_first(),
            mid,
            size,
            s2,
        ));
    }
}

/// The absolute value of a tuning parameter, capped so the pathfinder's
/// squared comparisons stay exact.
pub open spec fn clamp_tuning_spec(v: i64) -> i64 {
    if v <= -0x4000_0000 {
        0x4000_0000
    } else if v < 0 {
        (-v) as i64
    } else if v > 0x4000_0000 {
        0x4000_0000
    } else {
        v
    }
}

fn clamp_tuning(v: i64) -> (r: i64)
    ensures
        r == clamp_tuning_spec(v),
        0 <= r <= 0x4000_0000,
{
    if v <= -0x4000_0000 {
        0x4000_0000
    } else if v < 0 {
        -v
    } else if v > 0x4000_0000 {
        0x4000_0000
    } else {
        v
    }
}

/// The placement region, as the algorithm receives it.
pub open spec fn rooms_area_spec(c: &MapGenCommand) -> RectPrism {
    RectPrism {
        min: (
            c.min_within.0 as usize,
            c.min_within.1 as usize,
            c.min_within.2 as usize,
        ),
        max: (
            c.max_within.0 as usize,
            c.max_within.1 as usize,
            c.max_within.2 as usize,
        ),
    }
}

/// The size range, as the algorithm receives it.
pub open spec fn rooms_sizes_spec(c: &MapGenCommand) -> RectPrism {
    RectPrism {
        min: (c.min_size.0 as usize, c.min_size.1 as usize, c.min_size.2 as usize),
        max: (c.max_size.0 as usize, c.max_size.1 as usize, c.max_size.2 as usize),
    }
}

/// A room-placement configuration the algorithm can always satisfy.
pub open spec fn rooms_config_ok(c: &MapGenCommand) -> bool {
    &&& 0 <= c.count <= 0x4000_0000
    &&& 0 <= c.min_size.0 <= c.max_size.0
    &&& 0 <= c.min_size.1 <= c.max_size.1
    &&& 0 <= c.min_size.2 <= c.max_size.2
    &&& 0 <= c.min_within.0 && 0 <= c.min_within.1 && 0 <= c.min_within.2
    &&& c.max_within.0 <= 0x2000_0000 && c.max_within.1 <= 0x2000_0000 && c.max_within.2
        <= 0x2000_0000
    &&& c.max_size.0 < c.max_within.0 - c.min_within.0
    &&& c.max_size.1 < c.max_within.1 - c.min_within.1
    &&& c.max_size.2 < c.max_within.2 - c.min_within.2
}

/// The whole contract of `run_one`, one clause per mode, as a function of
/// the input grid's fields and extent — named so the pipeline executor's
/// contract can apply it to each node of a chain.
pub open spec fn run_one_post<E: Evaluator, N: NoiseField>(
    cmd: &MapGenCommand,
    seed: i64,
    olds: Seq<(String, GridElement)>,
    size: (int, int, int),
    ev: &E,
    noise: Option<&N>,
    r: Result<DataGrid, GenError>,
) -> bool {
    &&& ({
            r matches Ok(g) ==> g.wf() && g.spec_size() == size
    })
    &&& ({
            cmd.mode is Initialize ==> r == Err::<DataGrid, GenError>(GenError::Configuration)
    })
    &&& ({
            cmd.mode is Expressions ==> match r {
                Ok(g) => exprs_chain(
                    ev,
                    cmd.expression_list@,
                    olds,
                    size,
                    g.fields(),
                ),
                Err(e) => {
                    &&& e == GenError::Configuration
                    &&& exists|k: int, mid: Seq<(String, GridElement)>|
                        {
                            &&& 0 <= k < cmd.expression_list@.len()
                            &&& #[trigger] exprs_chain(
                                ev,
                                cmd.expression_list@.take(k),
                                olds,
                                size,
                                mid,
                            )
                            &&& exists|x: int, y: int, z: int|
                                0 <= x < size.0 && 0 <= y < size.1 && 0
                                    <= z < size.2 && (#[trigger] crate::exprs::expr_cell(
                                    ev,
                                    cmd.expression_list@[k].expr@,
                                    mid,
                                    x,
                                    y,
                                    z,
                                )) is None
                        }
                },
            }
    })
    &&& ({
            cmd.mode is SampleNoise ==> match r {
                Ok(g) => {
                    &&& noise is Some
                    &&& fields_overwrote(olds, g.fields(), cmd.save@)
                    &&& grid_get(g.fields(), cmd.save@) matches GridElement::Float(d) && d.dim()
                        == size && forall|x: int, y: int, z: int|
                        d.in_bounds(x, y, z) ==> #[trigger] d.at(x, y, z)
                            == noise.unwrap().noise_spec(
                            seed.wrapping_add(cmd.seed_salt),
                            x,
                            y,
                            z,
                        )
                },
                Err(e) => e == GenError::Configuration && noise is None,
            }
    })
    &&& ({
            cmd.mode is SampleNeighborhood ==> match r {
                Ok(g) => cmd.neighborhood matches Some(nh) && sample_neighborhood_post(
                    ev,
                    nh.offsets@,
                    nh.summing_expr@,
                    nh.accumulator_base,
                    cmd.edge_mode,
                    olds,
                    size,
                    cmd.source@,
                    cmd.save@,
                    g.fields(),
                    Ok(()),
                ),
                Err(e) => match &cmd.neighborhood {
                    None => e == GenError::Configuration,
                    Some(nh) => sample_neighborhood_post(
                        ev,
                        nh.offsets@,
                        nh.summing_expr@,
                        nh.accumulator_base,
                        cmd.edge_mode,
                        olds,
                        size,
                        cmd.source@,
                        cmd.save@,
                        olds,
                        Err(e),
                    ),
                },
            }
    })
    &&& ({
            cmd.mode is OuterWalls ==> match r {
                Ok(g) => {
                    &&& cmd.save@.len() > 0
                    &&& fields_overwrote(olds, g.fields(), cmd.save@)
                    &&& grid_get(g.fields(), cmd.save@) matches GridElement::Sel(s) && s@
                        == walls_spec(size)
                },
                Err(e) => e == GenError::Domain && cmd.save@.len() == 0,
            }
    })
    &&& ({
            cmd.mode is DropFields ==> match r {
                Ok(g) => g.fields() == drop_all(
                    olds,
                    cmd.to_drop@.map_values(|s: String| s@),
                    0,
                ),
                Err(_) => false,
            }
    })
    &&& ({
            cmd.mode is SetOps ==> match r {
                Ok(g) => {
                    &&& grid_has(olds, cmd.source@)
                    &&& grid_get(olds, cmd.source@) matches GridElement::Sel(a)
                    &&& grid_has(olds, cmd.second_source@)
                    &&& grid_get(olds, cmd.second_source@) matches GridElement::Sel(b)
                    &&& fields_overwrote(olds, g.fields(), cmd.save@)
                    &&& {
                        let a = grid_get(olds, cmd.source@)->Sel_0;
                        let b = grid_get(olds, cmd.second_source@)->Sel_0;
                        grid_get(g.fields(), cmd.save@) matches GridElement::Sel(o) && o@ == (
                        match cmd.operation {
                            SetBoolean::Union => a@ + b@,
                            SetBoolean::Intersection => a@.intersect(b@),
                            SetBoolean::Difference => a@.difference(b@),
                        })
                    }
                },
                Err(e) => {
                    ||| e == GenError::MissingField && (!grid_has(olds, cmd.source@)
                        || !grid_has(olds, cmd.second_source@))
                    ||| e == GenError::TypeMismatch && ((grid_has(olds, cmd.source@)
                        && !(grid_get(olds, cmd.source@) matches GridElement::Sel(_)))
                        || (grid_has(olds, cmd.second_source@) && !(grid_get(
                        olds,
                        cmd.second_source@,
                    ) matches GridElement::Sel(_))))
                },
            }
    })
    &&& ({
            cmd.mode is RandomRooms ==> match r {
                Ok(g) => {
                    &&& rooms_config_ok(cmd)
                    &&& exists|mid: Seq<(String, GridElement)>|
                        {
                            &&& #[trigger] fields_overwrote(olds, mid, cmd.save@)
                            &&& grid_get(mid, cmd.save@) matches GridElement::Rooms(rooms)
                            &&& {
                                let rooms = grid_get(mid, cmd.save@)->Rooms_0;
                                &&& rooms@.len() <= cmd.count
                                &&& (!cmd.allow_overlap ==> forall|i: int, j: int|
                                    0 <= i < j < rooms@.len() ==> (
                                    #[trigger] rooms@[i]).members@.disjoint(
                                        (#[trigger] rooms@[j]).members@,
                                    ))
                                &&& (if cmd.save_union@.len() > 0 {
                                    &&& fields_overwrote(mid, g.fields(), cmd.save_union@)
                                    &&& grid_get(g.fields(), cmd.save_union@) matches
                                        GridElement::Sel(u) && u@ == rooms_union(rooms@)
                                } else {
                                    g.fields() == mid
                                })
                            }
                        }
                },
                Err(e) => e == GenError::Domain && !rooms_config_ok(cmd),
            }
    })
    &&& ({
            cmd.mode is GetRoomCenters ==> match r {
                Ok(g) => {
                    &&& grid_has(olds, cmd.source@)
                    &&& grid_get(olds, cmd.source@) matches GridElement::Rooms(rooms)
                        && fields_overwrote(olds, g.fields(), cmd.save@) && (grid_get(
                        g.fields(),
                        cmd.save@,
                    ) matches GridElement::List(l) && l@ == centers_from(rooms@, 0))
                },
                Err(e) => {
                    ||| e == GenError::MissingField && !grid_has(olds, cmd.source@)
                    ||| e == GenError::TypeMismatch && grid_has(olds, cmd.source@)
                        && !(grid_get(olds, cmd.source@) matches GridElement::Rooms(_))
                },
            }
    })
    &&& ({
            cmd.mode is SortList ==> match r {
                Ok(g) => {
                    &&& grid_has(olds, cmd.source@)
                    &&& grid_get(olds, cmd.source@) matches GridElement::List(l)
                        && exists|mid: Seq<(String, GridElement)>|
                        #[trigger] fields_removed(olds, mid, cmd.source@)
                            && fields_overwrote(mid, g.fields(), cmd.save@) && (grid_get(
                            g.fields(),
                            cmd.save@,
                        ) matches GridElement::List(o) && o@ == sort_spec(
                            cmd.sort_axis,
                            cmd.reverse,
                            l@,
                        ))
                },
                Err(e) => {
                    ||| e == GenError::MissingField && !grid_has(olds, cmd.source@)
                    ||| e == GenError::TypeMismatch && grid_has(olds, cmd.source@)
                        && !(grid_get(olds, cmd.source@) matches GridElement::List(_))
                },
            }
    })
    &&& ({
            cmd.mode is ListToSel ==> match r {
                Ok(g) => {
                    &&& grid_has(olds, cmd.source@)
                    &&& grid_get(olds, cmd.source@) matches GridElement::List(l)
                        && exists|mid: Seq<(String, GridElement)>|
                        #[trigger] fields_removed(olds, mid, cmd.source@)
                            && fields_overwrote(mid, g.fields(), cmd.save@) && (grid_get(
                            g.fields(),
                            cmd.save@,
                        ) matches GridElement::Sel(o) && o@ == l@.to_set() && o.order()
                            == crate::selection::first_occurrences(l@))
                },
                Err(e) => {
                    ||| e == GenError::MissingField && !grid_has(olds, cmd.source@)
                    ||| e == GenError::TypeMismatch && grid_has(olds, cmd.source@)
                        && !(grid_get(olds, cmd.source@) matches GridElement::List(_))
                },
            }
    })
    &&& ({
            cmd.mode is SelToList ==> match r {
                Ok(g) => {
                    &&& grid_has(olds, cmd.source@)
                    &&& grid_get(olds, cmd.source@) matches GridElement::Sel(s)
                        && exists|mid: Seq<(String, GridElement)>|
                        #[trigger] fields_removed(olds, mid, cmd.source@)
                            && fields_overwrote(mid, g.fields(), cmd.save@) && (grid_get(
                            g.fields(),
                            cmd.save@,
                        ) matches GridElement::List(o) && o@ == s.order() && o@.no_duplicates()
                            && o@.to_set() == s@)
                },
                Err(e) => {
                    ||| e == GenError::MissingField && !grid_has(olds, cmd.source@)
                    ||| e == GenError::TypeMismatch && grid_has(olds, cmd.source@)
                        && !(grid_get(olds, cmd.source@) matches GridElement::Sel(_))
                },
            }
    })
    &&& ({
            cmd.mode is CarvePaths ==> match r {
                Ok(g) => {
                    &&& grid_has(olds, cmd.source@)
                    &&& grid_get(olds, cmd.source@) matches GridElement::Float(_)
                    &&& grid_has(olds, cmd.points_list@)
                    &&& grid_get(olds, cmd.points_list@) matches GridElement::List(_)
                    &&& {
                        let pts = grid_get(olds, cmd.points_list@)->List_0;
                        &&& pts@.len() >= 1
                        &&& exists|mid1: Seq<(String, GridElement)>, mid2: Seq<(String, GridElement)>|
                            {
                                &&& #[trigger] fields_removed(olds, mid1, cmd.source@)
                                &&& #[trigger] fields_removed(mid1, mid2, cmd.points_list@)
                                &&& fields_overwrote(mid2, g.fields(), cmd.save@)
                            }
                        &&& grid_get(g.fields(), cmd.save@) matches GridElement::Sel(o) && (forall|
                            i: int,
                        |
                            0 <= i < pts@.len() - 1 && pts@[i] != pts@[i + 1]
                                ==> o@.contains(#[trigger] pts@[i]) && o@.contains(pts@[i + 1]))
                            && (forall|c: (i64, i64, i64)| #[trigger]
                            o@.contains(c) ==> 0 <= c.0 < size.0 && 0 <= c.1
                                < size.1 && 0 <= c.2 < size.2)
                    &&& {
                        let smv = carve_map_spec(cmd, olds);
                        &&& (forall|i: int|
                            0 <= i < pts@.len() - 1 && pts@[i] != pts@[i + 1] ==> smv.slope_reach(
                                #[trigger] pts@[i],
                                pts@[i + 1],
                            ))
                        &&& (grid_get(g.fields(), cmd.save@) matches GridElement::Sel(o2)
                            && exists|chains: Seq<Seq<(i64, i64, i64)>>|
                            {
                                &&& chains.len() == pts@.len() - 1
                                &&& (forall|i: int|
                                    0 <= i < chains.len() ==> (if pts@[i] == pts@[i + 1] {
                                        (#[trigger] chains[i]) == Seq::<(i64, i64, i64)>::empty()
                                    } else {
                                        chains[i].len() >= 2 && chains[i].first() == pts@[i]
                                            && chains[i].last() == pts@[i + 1]
                                    }))
                                &&& o2@ == #[trigger] chains_union(chains)
                            })
                    }
                    }
                },
                Err(e) => carve_err_ok(cmd, olds, size, e),
            }
    })
    &&& ({
            cmd.mode is ListInput ==> match r {
                Ok(g) => {
                    &&& fields_overwrote(olds, g.fields(), cmd.save@)
                    &&& grid_get(g.fields(), cmd.save@) matches GridElement::List(l) && l@
                        == cmd.position_list@
                },
                Err(_) => false,
            }
    })
    &&& ({
            cmd.mode is CellularAutomata ==> match r {
                Ok(g) => {
                    &&& cmd.steps >= 0
                    &&& cmd.ca_rule matches Some(rule)
                    &&& grid_has(olds, cmd.source@)
                    &&& {
                        let rule = cmd.ca_rule.unwrap();
                        let data = grid_get(olds, cmd.source@);
                        &&& rule.neighborhood is Some
                        &&& exists|mid: Seq<(String, GridElement)>|
                            #[trigger] fields_removed(olds, mid, cmd.source@)
                                && fields_overwrote(mid, g.fields(), cmd.save@)
                        &&& ca_run_post(
                            ev,
                            rule.neighborhood.unwrap().offsets@,
                            rule.neighborhood.unwrap().summing_expr@,
                            rule.neighborhood.unwrap().accumulator_base,
                            rule.result_expr@,
                            data,
                            ca_area_spec(cmd, size),
                            cmd.steps as int,
                            Ok(grid_get(g.fields(), cmd.save@)),
                        )
                    }
                },
                Err(e) => {
                    ||| e == GenError::Domain && (cmd.steps < 0 || cmd.steps > MAX_CELLS)
                    ||| e == GenError::Configuration && (cmd.ca_rule is None
                        || cmd.ca_rule.unwrap().neighborhood is None || (grid_has(
                        olds,
                        cmd.source@,
                    ) && ca_run_post(
                        ev,
                        cmd.ca_rule.unwrap().neighborhood.unwrap().offsets@,
                        cmd.ca_rule.unwrap().neighborhood.unwrap().summing_expr@,
                        cmd.ca_rule.unwrap().neighborhood.unwrap().accumulator_base,
                        cmd.ca_rule.unwrap().result_expr@,
                        grid_get(olds, cmd.source@),
                        ca_area_spec(cmd, size),
                        cmd.steps as int,
                        Err(e),
                    )))
                    ||| e == GenError::MissingField && !grid_has(olds, cmd.source@)
                    ||| e == GenError::TypeMismatch && grid_has(olds, cmd.source@)
                        && !(grid_get(olds, cmd.source@) matches GridElement::Int(_))
                        && !(grid_get(olds, cmd.source@) matches GridElement::Float(_))
                },
            }
    })
    &&& ({
            cmd.mode is IntervalSelect ==> match r {
                Ok(g) => {
                    &&& 1 <= cmd.interval.0 <= MAX_CELLS && 1 <= cmd.interval.1 <= MAX_CELLS && 1
                        <= cmd.interval.2 <= MAX_CELLS
                    &&& 0 <= cmd.offset.0 <= MAX_CELLS && 0 <= cmd.offset.1 <= MAX_CELLS && 0
                        <= cmd.offset.2 <= MAX_CELLS
                    &&& fields_overwrote(olds, g.fields(), cmd.save@)
                    &&& grid_get(g.fields(), cmd.save@) matches GridElement::Sel(o) && o@
                        == lattice_spec(
                        size,
                        (cmd.interval.0 as int, cmd.interval.1 as int, cmd.interval.2 as int),
                        (cmd.offset.0 as int, cmd.offset.1 as int, cmd.offset.2 as int),
                    )
                },
                Err(e) => e == GenError::Domain && !(1 <= cmd.interval.0 <= MAX_CELLS && 1
                    <= cmd.interval.1 <= MAX_CELLS && 1 <= cmd.interval.2 <= MAX_CELLS && 0
                    <= cmd.offset.0 <= MAX_CELLS && 0 <= cmd.offset.1 <= MAX_CELLS && 0
                    <= cmd.offset.2 <= MAX_CELLS),
            }
    })
    &&& ({
            cmd.mode is SelectFall ==> match r {
                Ok(g) => {
                    &&& grid_has(olds, cmd.source@)
                    &&& grid_get(olds, cmd.source@) matches GridElement::Sel(src)
                    &&& grid_has(olds, cmd.solid@)
                    &&& grid_get(olds, cmd.solid@) matches GridElement::Sel(wall)
                    &&& fields_overwrote(olds, g.fields(), cmd.save@)
                    &&& {
                        let src = grid_get(olds, cmd.source@)->Sel_0;
                        let wall = grid_get(olds, cmd.solid@)->Sel_0;
                        grid_get(g.fields(), cmd.save@) matches GridElement::Sel(o) && forall|
                            c: (i64, i64, i64),
                        | #[trigger]
                            o@.contains(c) <==> exists|i: int|
                                0 <= i < src.order().len() && fall_contrib(
                                    wall@,
                                    #[trigger] src.order()[i],
                                    cmd.sf_reverse,
                                    cmd.column,
                                ).contains(c)
                    }
                },
                Err(e) => {
                    ||| e == GenError::MissingField && (!grid_has(olds, cmd.source@)
                        || !grid_has(olds, cmd.solid@))
                    ||| e == GenError::TypeMismatch && (!(grid_get(olds, cmd.source@)
                        matches GridElement::Sel(_)) || !(grid_get(olds, cmd.solid@)
                        matches GridElement::Sel(_)))
                },
            }
    })
}

impl MapGenCommand {
    /// Runs a command on the grid a child produced.
    ///
    /// Each mode's exact effect and failure conditions are stated in the
    /// mode's clause below; every command consumes the grid and returns a
    /// new one, so nothing partial is ever observable on failure.
    pub fn run_one<E: Evaluator, N: NoiseField>(
        &self,
        seed: i64,
        input: DataGrid,
        ev: &E,
        noise: Option<&N>,
    ) -> (r: Result<DataGrid, GenError>)
        requires
            input.wf(),
        ensures
            run_one_post(self, seed, input.fields(), input.spec_size(), ev, noise, r),
    {
        let sz = self.run_size(&input);
        match self.mode {
            CommandMode::Expressions => self.run_expressions(input, ev),
            CommandMode::SampleNoise => self.run_sample_noise(seed, input, noise),
            CommandMode::SampleNeighborhood => {
                match &self.neighborhood {
                    Some(nh) => {
                        let mut g = input;
                        match g.sample_neighborhood(nh, self.edge_mode, &self.source, &self.save, ev)
                        {
                            Ok(_) => Ok(g),
                            Err(e) => Err(e),
                        }
                    },
                    None => Err(GenError::Configuration),
                }
            },
            CommandMode::OuterWalls => {
                if self.save.as_str().is_empty() {
                    return Err(GenError::Domain);
                }
                proof {
                    input.lemma_wf_facts();
                    crate::dense::lemma_dims_bounded(input.spec_size());
                }
                let walls = outer_walls(sz);
                let mut g = input;
                g.set_field(self.save.clone(), GridElement::Sel(walls));
                Ok(g)
            },
            CommandMode::DropFields => self.run_drop_fields(input),
            CommandMode::SetOps => self.run_set_ops(input),
            CommandMode::RandomRooms => self.run_random_rooms(seed, input),
            CommandMode::GetRoomCenters => {
                let centers = match input.get_field(&self.source) {
                    Some(GridElement::Rooms(rooms)) => room_centers(rooms),
                    Some(_) => {
                        return Err(GenError::TypeMismatch);
                    },
                    None => {
                        return Err(GenError::MissingField);
                    },
                };
                let mut g = input;
                g.set_field(self.save.clone(), GridElement::List(centers));
                Ok(g)
            },
            CommandMode::SortList => {
                let mut g = input;
                match g.remove_field(&self.source) {
                    Some(GridElement::List(l)) => {
                        let sorted = crate::sortlist::sort_by_axis(&l, self.sort_axis, self.reverse);
                        g.set_field(self.save.clone(), GridElement::List(sorted));
                        Ok(g)
                    },
                    Some(_) => Err(GenError::TypeMismatch),
                    None => Err(GenError::MissingField),
                }
            },
            CommandMode::ListToSel => {
                let mut g = input;
                match g.remove_field(&self.source) {
                    Some(GridElement::List(l)) => {
                        let o = Selection::from_list(&l);
                        g.set_field(self.save.clone(), GridElement::Sel(o));
                        Ok(g)
                    },
                    Some(_) => Err(GenError::TypeMismatch),
                    None => Err(GenError::MissingField),
                }
            },
            CommandMode::SelToList => {
                let mut g = input;
                match g.remove_field(&self.source) {
                    Some(GridElement::Sel(s)) => {
                        proof {
                            input.lemma_field_wf(self.source@);
                            s.lemma_order_view();
                        }
                        let o = copy_cells(s.members());
                        g.set_field(self.save.clone(), GridElement::List(o));
                        Ok(g)
                    },
                    Some(_) => Err(GenError::TypeMismatch),
                    None => Err(GenError::MissingField),
                }
            },
            CommandMode::CarvePaths => self.run_carve_paths(input),
            CommandMode::ListInput => {
                let l = copy_cells(&self.position_list);
                let mut g = input;
                g.set_field(self.save.clone(), GridElement::List(l));
                Ok(g)
            },
            CommandMode::CellularAutomata => self.run_cellular(input, ev),
            CommandMode::IntervalSelect => {
                let iv = self.interval;
                let of = self.offset;
                if iv.0 < 1 || iv.0 > MAX_CELLS as i64 || iv.1 < 1 || iv.1 > MAX_CELLS as i64
                    || iv.2 < 1 || iv.2 > MAX_CELLS as i64 || of.0 < 0 || of.0 > MAX_CELLS as i64
                    || of.1 < 0 || of.1 > MAX_CELLS as i64 || of.2 < 0 || of.2 > MAX_CELLS as i64 {
                    return Err(GenError::Domain);
                }
                proof {
                    input.lemma_wf_facts();
                    crate::dense::lemma_dims_bounded(input.spec_size());
                }
                let sel = interval_select(
                    sz,
                    (iv.0 as usize, iv.1 as usize, iv.2 as usize),
                    (of.0 as usize, of.1 as usize, of.2 as usize),
                );
                let mut g = input;
                g.set_field(self.save.clone(), GridElement::Sel(sel));
                Ok(g)
            },
            CommandMode::SelectFall => {
                proof {
                    input.lemma_wf_facts();
                    crate::dense::lemma_dims_bounded(input.spec_size());
                }
                let o = match (input.get_field(&self.source), input.get_field(&self.solid)) {
                    (Some(GridElement::Sel(src)), Some(GridElement::Sel(wall))) => crate::fall::select_fall(
                        src,
                        wall,
                        self.sf_reverse,
                        self.column,
                    ),
                    (None, _) => {
                        return Err(GenError::MissingField);
                    },
                    (_, None) => {
                        return Err(GenError::MissingField);
                    },
                    _ => {
                        return Err(GenError::TypeMismatch);
                    },
                };
                let mut g = input;
                g.set_field(self.save.clone(), GridElement::Sel(o));
                Ok(g)
            },
            CommandMode::Initialize => Err(GenError::Configuration),
        }
    }

    /// The grid's extent, as machine sizes.
    fn run_size(&self, input: &DataGrid) -> (r: (usize, usize, usize))
        requires
            input.wf(),
        ensures
            (r.0 as int, r.1 as int, r.2 as int) == input.spec_size(),
    {
        input.size()
    }

    fn run_expressions<E: Evaluator>(&self, input: DataGrid, ev: &E) -> (r: Result<
        DataGrid,
        GenError,
    >)
        requires
            input.wf(),
        ensures
            r matches Ok(g) ==> g.wf() && g.spec_size() == input.spec_size() && exprs_chain(
                ev,
                self.expression_list@,
                input.fields(),
                input.spec_size(),
                g.fields(),
            ),
            r matches Err(e) ==> {
                &&& e == GenError::Configuration
                &&& exists|k: int, mid: Seq<(String, GridElement)>|
                    {
                        &&& 0 <= k < self.expression_list@.len()
                        &&& #[trigger] exprs_chain(
                            ev,
                            self.expression_list@.take(k),
                            input.fields(),
                            input.spec_size(),
                            mid,
                        )
                        &&& exists|x: int, y: int, z: int|
                            0 <= x < input.spec_size().0 && 0 <= y < input.spec_size().1 && 0 <= z
                                < input.spec_size().2 && (#[trigger] crate::exprs::expr_cell(
                                ev,
                                self.expression_list@[k].expr@,
                                mid,
                                x,
                                y,
                                z,
                            )) is None
                    }
            },
    {
        let ghost s0 = input.fields();
        let ghost size = input.spec_size();
        let mut g = input;
        let n = self.expression_list.len();
        let mut i: usize = 0;
        while i < n
            invariant
                g.wf(),
                g.spec_size() == size,
                s0 == input.fields(),
                size == input.spec_size(),
                n == self.expression_list@.len(),
                i <= n,
                exprs_chain(ev, self.expression_list@.take(i as int), s0, size, g.fields()),
            decreases n - i,
        {
            let e = &self.expression_list[i];
            let ghost before = g.fields();
            match g.parallel_expr(e.name.clone(), &e.expr, &e.result_kind, ev) {
                Ok(_) => {},
                Err(err) => {
                    proof {
                        assert(*e == self.expression_list@[i as int]);
                        let (x, y, z) = choose|x: int, y: int, z: int|
                            0 <= x < size.0 && 0 <= y < size.1 && 0 <= z < size.2 && (
                            #[trigger] crate::exprs::expr_cell(ev, e.expr@, before, x, y, z))
                                is None;
                        assert(exprs_chain(
                            ev,
                            self.expression_list@.take(i as int),
                            s0,
                            size,
                            before,
                        ));
                        assert((crate::exprs::expr_cell(
                            ev,
                            self.expression_list@[i as int].expr@,
                            before,
                            x,
                            y,
                            z,
                        )) is None);
                    }
                    return Err(err);
                },
            }
            proof {
                assert(expr_step_ok(ev, self.expression_list@[i as int], before, size, g.fields()));
                lemma_exprs_chain_push(
                    ev,
                    self.expression_list@.take(i as int),
                    s0,
                    size,
                    before,
                    self.expression_list@[i as int],
                    g.fields(),
                );
                assert(self.expression_list@.take(i + 1) =~= self.expression_list@.take(
                    i as int,
                ).push(self.expression_list@[i as int]));
            }
            i += 1;
        }
        proof {
            assert(self.expression_list@.take(n as int) == self.expression_list@);
        }
        Ok(g)
    }

    fn run_sample_noise<N: NoiseField>(&self, seed: i64, input: DataGrid, noise: Option<&N>) -> (r:
        Result<DataGrid, GenError>)
        requires
            input.wf(),
        ensures
            r matches Ok(g) ==> g.wf() && g.spec_size() == input.spec_size() && {
                &&& noise is Some
                &&& fields_overwrote(input.fields(), g.fields(), self.save@)
                &&& grid_get(g.fields(), self.save@) matches GridElement::Float(d) && d.dim()
                    == input.spec_size() && forall|x: int, y: int, z: int|
                    d.in_bounds(x, y, z) ==> #[trigger] d.at(x, y, z) == noise.unwrap().noise_spec(
                        seed.wrapping_add(self.seed_salt),
                        x,
                        y,
                        z,
                    )
            },
            r matches Err(e) ==> e == GenError::Configuration && noise is None,
    {
        let n = match noise {
            Some(n) => n,
            None => {
                return Err(GenError::Configuration);
            },
        };
        proof {
            input.lemma_wf_facts();
        }
        let sz = self.run_size(&input);
        let d = noise_fill(n, seed.wrapping_add(self.seed_salt), sz);
        let mut g = input;
        g.set_field(self.save.clone(), GridElement::Float(d));
        Ok(g)
    }

    fn run_drop_fields(&self, input: DataGrid) -> (r: Result<DataGrid, GenError>)
        requires
            input.wf(),
        ensures
            r matches Ok(g) ==> g.wf() && g.spec_size() == input.spec_size() && g.fields()
                == drop_all(input.fields(), self.to_drop@.map_values(|s: String| s@), 0),
            !(r is Err),
    {
        let ghost s0 = input.fields();
        let ghost views = self.to_drop@.map_values(|s: String| s@);
        let mut g = input;
        let n = self.to_drop.len();
        let mut i: usize = 0;
        while i < n
            invariant
                g.wf(),
                g.spec_size() == input.spec_size(),
                n == self.to_drop@.len(),
                views == self.to_drop@.map_values(|s: String| s@),
                i <= n,
                drop_all(s0, views, 0) == drop_all(g.fields(), views, i as int),
            decreases n - i,
        {
            g.remove_field(&self.to_drop[i]);
            i += 1;
        }
        Ok(g)
    }

    fn run_set_ops(&self, input: DataGrid) -> (r: Result<DataGrid, GenError>)
        requires
            input.wf(),
        ensures
            r matches Ok(g) ==> g.wf() && g.spec_size() == input.spec_size() && {
                &&& grid_has(input.fields(), self.source@)
                &&& grid_get(input.fields(), self.source@) matches GridElement::Sel(a)
                &&& grid_has(input.fields(), self.second_source@)
                &&& grid_get(input.fields(), self.second_source@) matches GridElement::Sel(b)
                &&& fields_overwrote(input.fields(), g.fields(), self.save@)
                &&& {
                    let a = grid_get(input.fields(), self.source@)->Sel_0;
                    let b = grid_get(input.fields(), self.second_source@)->Sel_0;
                    grid_get(g.fields(), self.save@) matches GridElement::Sel(o) && o@ == (
                    match self.operation {
                        SetBoolean::Union => a@ + b@,
                        SetBoolean::Intersection => a@.intersect(b@),
                        SetBoolean::Difference => a@.difference(b@),
                    })
                }
            },
            r matches Err(e) ==> {
                ||| e == GenError::MissingField && (!grid_has(input.fields(), self.source@)
                    || !grid_has(input.fields(), self.second_source@))
                ||| e == GenError::TypeMismatch && ((grid_has(input.fields(), self.source@) && !(
                grid_get(input.fields(), self.source@) matches GridElement::Sel(_))) || (grid_has(
                    input.fields(),
                    self.second_source@,
                ) && !(grid_get(input.fields(), self.second_source@) matches GridElement::Sel(
                    _,
                ))))
            },
    {
        proof {
            input.lemma_wf_facts();
        }
        let a = match input.get_field(&self.source) {
            Some(GridElement::Sel(a)) => a,
            Some(_) => {
                return Err(GenError::TypeMismatch);
            },
            None => {
                return Err(GenError::MissingField);
            },
        };
        let b = match input.get_field(&self.second_source) {
            Some(GridElement::Sel(b)) => b,
            Some(_) => {
                return Err(GenError::TypeMismatch);
            },
            None => {
                return Err(GenError::MissingField);
            },
        };
        proof {
            input.lemma_field_wf(self.source@);
        }
        let o = match self.operation {
            SetBoolean::Union => a.union_with(b),
            SetBoolean::Intersection => a.intersect_with(b),
            SetBoolean::Difference => a.difference_with(b),
        };
        let mut g = input;
        g.set_field(self.save.clone(), GridElement::Sel(o));
        Ok(g)
    }

    fn run_random_rooms(&self, seed: i64, input: DataGrid) -> (r: Result<DataGrid, GenError>)
        requires
            input.wf(),
        ensures
            r matches Ok(g) ==> g.wf() && g.spec_size() == input.spec_size() && {
                &&& rooms_config_ok(self)
                &&& exists|mid: Seq<(String, GridElement)>|
                    {
                        &&& #[trigger] fields_overwrote(input.fields(), mid, self.save@)
                        &&& grid_get(mid, self.save@) matches GridElement::Rooms(rooms)
                        &&& {
                            let rooms = grid_get(mid, self.save@)->Rooms_0;
                            &&& rooms@.len() <= self.count
                            &&& (forall|i: int|
                                0 <= i < rooms@.len() ==> (#[trigger] rooms@[i]).wf()
                                    && room_shaped(
                                    rooms@[i],
                                    rooms_area_spec(self),
                                    rooms_sizes_spec(self),
                                ))
                            &&& (!self.allow_overlap ==> forall|i: int, j: int|
                                0 <= i < j < rooms@.len() ==> (
                                #[trigger] rooms@[i]).members@.disjoint(
                                    (#[trigger] rooms@[j]).members@,
                                ))
                            &&& (if self.save_union@.len() > 0 {
                                &&& fields_overwrote(mid, g.fields(), self.save_union@)
                                &&& grid_get(g.fields(), self.save_union@) matches
                                    GridElement::Sel(u) && u@ == rooms_union(rooms@)
                            } else {
                                g.fields() == mid
                            })
                        }
                    }
            },
            r matches Err(e) ==> e == GenError::Domain && !rooms_config_ok(self),
    {
        if !(0 <= self.count && self.count <= 0x4000_0000 && 0 <= self.min_size.0
            && self.min_size.0 <= self.max_size.0 && 0 <= self.min_size.1 && self.min_size.1
            <= self.max_size.1 && 0 <= self.min_size.2 && self.min_size.2 <= self.max_size.2 && 0
            <= self.min_within.0 && 0 <= self.min_within.1 && 0 <= self.min_within.2
            && self.max_within.0 <= 0x2000_0000 && self.max_within.1 <= 0x2000_0000
            && self.max_within.2 <= 0x2000_0000 && (self.max_size.0 as i128) < (
        self.max_within.0 as i128) - (self.min_within.0 as i128) && (self.max_size.1 as i128) < (
        self.max_within.1 as i128) - (self.min_within.1 as i128) && (self.max_size.2 as i128) < (
        self.max_within.2 as i128) - (self.min_within.2 as i128)) {
            return Err(GenError::Domain);
        }
        let sizes = RectPrism {
            min: (
                self.min_size.0 as usize,
                self.min_size.1 as usize,
                self.min_size.2 as usize,
            ),
            max: (
                self.max_size.0 as usize,
                self.max_size.1 as usize,
                self.max_size.2 as usize,
            ),
        };
        let area = RectPrism {
            min: (
                self.min_within.0 as usize,
                self.min_within.1 as usize,
                self.min_within.2 as usize,
            ),
            max: (
                self.max_within.0 as usize,
                self.max_within.1 as usize,
                self.max_within.2 as usize,
            ),
        };
        match AlgorithmHelper::random_rooms(
            self.count,
            seed.wrapping_add(self.seed_salt),
            area,
            sizes,
            self.allow_overlap,
        ) {
            Ok((rooms, uni)) => {
                let mut g = input;
                g.set_field(self.save.clone(), GridElement::Rooms(rooms));
                let ghost mid = g.fields();
                if !self.save_union.as_str().is_empty() {
                    g.set_field(self.save_union.clone(), GridElement::Sel(uni));
                }
                Ok(g)
            },
            Err(_) => Err(GenError::Domain),
        }
    }

    fn run_carve_paths(&self, input: DataGrid) -> (r: Result<DataGrid, GenError>)
        requires
            input.wf(),
        ensures
            r matches Ok(g) ==> g.wf() && g.spec_size() == input.spec_size() && {
                &&& grid_has(input.fields(), self.source@)
                &&& grid_get(input.fields(), self.source@) matches GridElement::Float(_)
                &&& grid_has(input.fields(), self.points_list@)
                &&& grid_get(input.fields(), self.points_list@) matches GridElement::List(_)
                &&& {
                    let pts = grid_get(input.fields(), self.points_list@)->List_0;
                    &&& pts@.len() >= 1
                    &&& exists|mid1: Seq<(String, GridElement)>, mid2: Seq<(String, GridElement)>|
                        {
                            &&& #[trigger] fields_removed(input.fields(), mid1, self.source@)
                            &&& #[trigger] fields_removed(mid1, mid2, self.points_list@)
                            &&& fields_overwrote(mid2, g.fields(), self.save@)
                        }
                    &&& grid_get(g.fields(), self.save@) matches GridElement::Sel(o) && (forall|
                        i: int,
                    |
                        0 <= i < pts@.len() - 1 && pts@[i] != pts@[i + 1] ==> o@.contains(
                            #[trigger] pts@[i],
                        ) && o@.contains(pts@[i + 1])) && (forall|c: (i64, i64, i64)| #[trigger]
                        o@.contains(c) ==> 0 <= c.0 < input.spec_size().0 && 0 <= c.1
                            < input.spec_size().1 && 0 <= c.2 < input.spec_size().2)
                    &&& {
                        let smv = carve_map_spec(self, input.fields());
                        &&& (forall|i: int|
                            0 <= i < pts@.len() - 1 && pts@[i] != pts@[i + 1] ==> smv.slope_reach(
                                #[trigger] pts@[i],
                                pts@[i + 1],
                            ))
                        &&& (grid_get(g.fields(), self.save@) matches GridElement::Sel(o2)
                            && exists|chains: Seq<Seq<(i64, i64, i64)>>|
                            {
                                &&& chains.len() == pts@.len() - 1
                                &&& (forall|i: int|
                                    0 <= i < chains.len() ==> (if pts@[i] == pts@[i + 1] {
                                        (#[trigger] chains[i]) == Seq::<(i64, i64, i64)>::empty()
                                    } else {
                                        chains[i].len() >= 2 && chains[i].first() == pts@[i]
                                            && chains[i].last() == pts@[i + 1]
                                    }))
                                &&& o2@ == #[trigger] chains_union(chains)
                            })
                    }
                }
            },
            r matches Err(e) ==> carve_err_ok(self, input.fields(), input.spec_size(), e),
    {
        proof {
            input.lemma_wf_facts();
        }
        let sz = self.run_size(&input);
        // The pathfinder's exact line arithmetic caps each axis at 2^20,
        // tighter than the grid's own voxel-count cap: a legal but very
        // elongated grid is refused here with a domain error.
        if sz.0 > 0x10_0000 || sz.1 > 0x10_0000 || sz.2 > 0x10_0000 {
            return Err(GenError::Domain);
        }
        let mut g = input;
        let weights = match g.remove_field(&self.source) {
            Some(GridElement::Float(d)) => d,
            Some(_) => {
                return Err(GenError::TypeMismatch);
            },
            None => {
                return Err(GenError::MissingField);
            },
        };
        let ghost mid1 = g.fields();
        let pts = match g.remove_field(&self.points_list) {
            Some(GridElement::List(l)) => l,
            Some(_) => {
                return Err(GenError::TypeMismatch);
            },
            None => {
                return Err(GenError::MissingField);
            },
        };
        let ghost mid2 = g.fields();
        if pts.len() == 0 {
            return Err(GenError::Domain);
        }
        proof {
            assert(!grid_has(mid1, self.source@));
            assert(self.points_list@ != self.source@);
            assert(grid_has(input.fields(), self.points_list@));
            assert(grid_get(input.fields(), self.points_list@) == grid_get(
                mid1,
                self.points_list@,
            ));
        }
        let sm = SearchMap {
            weight_array: weights,
            max_slope: clamp_tuning(self.max_slope),
            vertical_skew: clamp_tuning(self.vertical_skew),
        };
        let mut uni = Selection::new();
        let n = pts.len();
        let ghost gsize = g.spec_size();
        let ghost mut chains: Seq<Seq<(i64, i64, i64)>> = Seq::empty();
        proof {
            assert(uni@ =~= chains_union(chains));
            assert(sm == carve_map_spec(self, input.fields()));
        }
        let mut i: usize = 0;
        while i < n - 1
            invariant
                sm.wf(),
                (sm.weight_array.dim().0 <= 0x10_0000 && sm.weight_array.dim().1 <= 0x10_0000
                    && sm.weight_array.dim().2 <= 0x10_0000),
                sm.weight_array.dim() == gsize,
                gsize == input.spec_size(),
                grid_has(input.fields(), self.source@),
                grid_get(input.fields(), self.source@) matches GridElement::Float(_),
                grid_has(input.fields(), self.points_list@),
                (grid_get(input.fields(), self.points_list@) matches GridElement::List(l2) && l2@
                    == pts@),
                uni.inv(),
                n == pts@.len(),
                1 <= n,
                i <= n - 1,
                sm == carve_map_spec(self, input.fields()),
                chains.len() == i as int,
                uni@ == chains_union(chains),
                forall|j: int|
                    0 <= j < chains.len() ==> (if pts@[j] == pts@[j + 1] {
                        (#[trigger] chains[j]) == Seq::<(i64, i64, i64)>::empty()
                    } else {
                        chains[j].len() >= 2 && chains[j].first() == pts@[j] && chains[j].last()
                            == pts@[j + 1]
                    }),
                forall|j: int|
                    0 <= j < i && pts@[j] != pts@[j + 1] ==> sm.slope_reach(
                        #[trigger] pts@[j],
                        pts@[j + 1],
                    ),
                forall|j: int|
                    0 <= j < i && pts@[j] != pts@[j + 1] ==> uni@.contains(#[trigger] pts@[j])
                        && uni@.contains(pts@[j + 1]),
                forall|c: (i64, i64, i64)| #[trigger]
                    uni@.contains(c) ==> 0 <= c.0 < gsize.0 && 0 <= c.1 < gsize.1 && 0 <= c.2
                        < gsize.2,
            decreases n - i,
        {
            let ca = pts[i];
            let cb = pts[i + 1];
            let dims = sm.weight_array.size();
            if ca.0 < 0 || ca.0 >= dims.0 as i64 || ca.1 < 0 || ca.1 >= dims.1 as i64 || ca.2 < 0
                || ca.2 >= dims.2 as i64 || cb.0 < 0 || cb.0 >= dims.0 as i64 || cb.1 < 0 || cb.1
                >= dims.1 as i64 || cb.2 < 0 || cb.2 >= dims.2 as i64 {
                proof {
                    assert(!in_box(pts@[i as int], input.spec_size()) || !in_box(
                        pts@[i + 1],
                        input.spec_size(),
                    ));
                }
                return Err(GenError::SearchFailure);
            }
            match sm.thstar(ca, cb) {
                Ok(path) => {
                    let ghost prevu = uni@;
                    uni = uni.union_with(&path);
                    proof {
                        let w = if pts@[i as int] == pts@[i + 1] {
                            Seq::<(i64, i64, i64)>::empty()
                        } else {
                            choose|w: Seq<(i64, i64, i64)>|
                                w.len() >= 2 && w.first() == pts@[i as int] && w.last() == pts@[i
                                    + 1] && path@ == #[trigger] crate::pathfind::links_union(w)
                        };
                        lemma_chains_union_push(chains, w);
                        if pts@[i as int] == pts@[i + 1] {
                            assert(path@ =~= crate::pathfind::links_union(w));
                        }
                        chains = chains.push(w);
                        assert(uni@ =~= chains_union(chains));
                    }
                },
                Err(_) => {
                    proof {
                        assert(pts@[i as int] != pts@[i + 1]);
                        assert(!sm.slope_edge(pts@[i as int], pts@[i + 1]));
                    }
                    return Err(GenError::SearchFailure);
                },
            }
            i += 1;
        }
        proof {
            assert(chains.len() == pts@.len() - 1);
            assert(uni@ == chains_union(chains));
        }
        g.set_field(self.save.clone(), GridElement::Sel(uni));
        Ok(g)
    }

    fn run_cellular<E: Evaluator>(&self, input: DataGrid, ev: &E) -> (r: Result<
        DataGrid,
        GenError,
    >)
        requires
            input.wf(),
        ensures
            r matches Ok(g) ==> g.wf() && g.spec_size() == input.spec_size() && {
                &&& self.steps >= 0
                &&& self.ca_rule matches Some(rule)
                &&& grid_has(input.fields(), self.source@)
                &&& {
                    let rule = self.ca_rule.unwrap();
                    let data = grid_get(input.fields(), self.source@);
                    &&& rule.neighborhood is Some
                    &&& exists|mid: Seq<(String, GridElement)>|
                        #[trigger] fields_removed(input.fields(), mid, self.source@)
                            && fields_overwrote(mid, g.fields(), self.save@)
                    &&& ca_run_post(
                        ev,
                        rule.neighborhood.unwrap().offsets@,
                        rule.neighborhood.unwrap().summing_expr@,
                        rule.neighborhood.unwrap().accumulator_base,
                        rule.result_expr@,
                        data,
                        ca_area_spec(self, input.spec_size()),
                        self.steps as int,
                        Ok(grid_get(g.fields(), self.save@)),
                    )
                }
            },
            r matches Err(e) ==> {
                ||| e == GenError::Domain && (self.steps < 0 || self.steps > MAX_CELLS)
                ||| e == GenError::Configuration && (self.ca_rule is None
                    || self.ca_rule.unwrap().neighborhood is None || (grid_has(
                    input.fields(),
                    self.source@,
                ) && ca_run_post(
                    ev,
                    self.ca_rule.unwrap().neighborhood.unwrap().offsets@,
                    self.ca_rule.unwrap().neighborhood.unwrap().summing_expr@,
                    self.ca_rule.unwrap().neighborhood.unwrap().accumulator_base,
                    self.ca_rule.unwrap().result_expr@,
                    grid_get(input.fields(), self.source@),
                    ca_area_spec(self, input.spec_size()),
                    self.steps as int,
                    Err(e),
                )))
                ||| e == GenError::MissingField && !grid_has(input.fields(), self.source@)
                ||| e == GenError::TypeMismatch && grid_has(input.fields(), self.source@)
                    && !(grid_get(input.fields(), self.source@) matches GridElement::Int(_))
                    && !(grid_get(input.fields(), self.source@) matches GridElement::Float(_))
            },
    {
        let rule = match &self.ca_rule {
            Some(rule) => rule,
            None => {
                return Err(GenError::Configuration);
            },
        };
        if self.steps < 0 {
            return Err(GenError::Domain);
        }
        if self.steps > MAX_CELLS as i64 {
            return Err(GenError::Domain);
        }
        proof {
            input.lemma_wf_facts();
        }
        let mut g = input;
        let data = match g.remove_field(&self.source) {
            Some(ge) => ge,
            None => {
                return Err(GenError::MissingField);
            },
        };
        proof {
            crate::dense::lemma_dims_bounded(g.spec_size());
        }
        let area = RectPrism {
            min: (
                clamp_coord(self.apply_min.0),
                clamp_coord(self.apply_min.1),
                clamp_coord(self.apply_min.2),
            ),
            max: (
                clamp_coord(self.apply_max.0),
                clamp_coord(self.apply_max.1),
                clamp_coord(self.apply_max.2),
            ),
        };
        match rule.run(data, area, self.steps as usize, ev) {
            Ok(nge) => {
                g.set_field(self.save.clone(), nge);
                Ok(g)
            },
            Err(e) => Err(e),
        }
    }
}

impl Default for MapGenCommand {
    /// An `Initialize` command with empty names and zeroed parameters — the
    /// base a host fills in per mode.
    fn default() -> (r: Self)
        ensures
            r.mode is Initialize,
            r.seed_salt == 0,
            r.source@.len() == 0,
            r.save@.len() == 0,
            r.init_size == (0i64, 0i64, 0i64),
            r.expression_list@.len() == 0,
            r.neighborhood is None,
            r.edge_mode is Ignore,
            r.to_drop@.len() == 0,
            r.second_source@.len() == 0,
            r.operation is Union,
            r.allow_overlap == false,
            r.count == 0,
            r.save_union@.len() == 0,
            r.sort_axis is Y,
            r.reverse == false,
            r.max_slope == 0,
            r.vertical_skew == 0,
            r.points_list@.len() == 0,
            r.position_list@.len() == 0,
            r.ca_rule is None,
            r.steps == 0,
            r.interval == (1i64, 1i64, 1i64),
            r.offset == (0i64, 0i64, 0i64),
            r.solid@.len() == 0,
            r.sf_reverse == false,
            r.column == false,
    {
        MapGenCommand {
            mode: CommandMode::Initialize,
            seed_salt: 0,
            source: String::new(),
            save: String::new(),
            init_size: (0, 0, 0),
            expression_list: Vec::new(),
            neighborhood: None,
            edge_mode: crate::edge::EdgeMode::Ignore,
            to_drop: Vec::new(),
            second_source: String::new(),
            operation: SetBoolean::Union,
            allow_overlap: false,
            count: 0,
            min_size: (0, 0, 0),
            max_size: (0, 0, 0),
            min_within: (0, 0, 0),
            max_within: (0, 0, 0),
            save_union: String::new(),
            sort_axis: SortAxis::Y,
            reverse: false,
            max_slope: 0,
            vertical_skew: 0,
            points_list: String::new(),
            position_list: Vec::new(),
            ca_rule: None,
            steps: 0,
            apply_min: (0, 0, 0),
            apply_max: (0, 0, 0),
            interval: (1, 1, 1),
            offset: (0, 0, 0),
            solid: String::new(),
            sf_reverse: false,
            column: false,
        }
    }
}

/// The automaton's target region as configured, coordinates clamped into
/// machine range.
pub open spec fn ca_area_spec(c: &MapGenCommand, size: (int, int, int)) -> RectPrism {
    RectPrism {
        min: (
            clamp_coord_spec(c.apply_min.0),
            clamp_coord_spec(c.apply_min.1),
            clamp_coord_spec(c.apply_min.2),
        ),
        max: (
            clamp_coord_spec(c.apply_max.0),
            clamp_coord_spec(c.apply_max.1),
            clamp_coord_spec(c.apply_max.2),
        ),
    }
}

/// A configured coordinate clamped into `[0, MAX_CELLS]`.
pub open spec fn clamp_coord_spec(v: i64) -> usize {
    if v < 0 {
        0
    } else if v > MAX_CELLS {
        MAX_CELLS as usize
    } else {
        v as usize
    }
}

fn clamp_coord(v: i64) -> (r: usize)
    ensures
        r == clamp_coord_spec(v),
{
    if v < 0 {
        0
    } else if v > MAX_CELLS as i64 {
        MAX_CELLS
    } else {
        v as usize
    }
}

/// Determinism of the root command: any two grids that `run_none` can
/// yield for the same command agree in extent and are both empty — the
/// per-mode clauses of `run_one` pin every other deterministic command's
/// observable output in the same way, as a function of its inputs alone.
pub proof fn lemma_run_none_deterministic(
    c: &MapGenCommand,
    r1: Result<DataGrid, GenError>,
    r2: Result<DataGrid, GenError>,
)
    requires
        c.mode is Initialize,
        run_none_post(c, r1),
        run_none_post(c, r2),
    ensures
        r1 is Ok <==> r2 is Ok,
        r1 matches Ok(g1) ==> r2 matches Ok(g2) && g1.spec_size() == g2.spec_size() && g1.fields()
            == g2.fields(),
        r1 matches Err(e1) ==> r2 matches Err(e2) && e1 == e2,
{
}

/// What `run_none` promises of an `Initialize` command.
pub open spec fn run_none_post(c: &MapGenCommand, r: Result<DataGrid, GenError>) -> bool {
    match r {
        Ok(g) => {
            &&& g.wf()
            &&& 1 <= c.init_size.0 && 1 <= c.init_size.1 && 1 <= c.init_size.2
            &&& c.init_size.0 * c.init_size.1 * c.init_size.2 <= MAX_CELLS
            &&& g.spec_size() == (c.init_size.0 as int, c.init_size.1 as int, c.init_size.2 as int)
            &&& g.fields() == Seq::<(String, GridElement)>::empty()
        },
        Err(e) => {
            &&& e == GenError::Domain
            &&& (c.init_size.0 < 1 || c.init_size.1 < 1 || c.init_size.2 < 1 || c.init_size.0
                * c.init_size.1 * c.init_size.2 > MAX_CELLS)
        },
    }
}

/// Determinism of a grid-writing command, shown on OuterWalls: any two
/// selections the command can store for the same input extent have the
/// same members, because the contract pins them to one set.  The other
/// deterministic modes pin their outputs the same way.
pub proof fn lemma_outer_walls_deterministic(
    size: (int, int, int),
    s1: Selection,
    s2: Selection,
)
    requires
        s1@ == walls_spec(size),
        s2@ == walls_spec(size),
    ensures
        s1@ == s2@,
{
}

/// The union of several traversal chains' voxels.
pub open spec fn chains_union(chains: Seq<Seq<(i64, i64, i64)>>) -> Set<(i64, i64, i64)>
    decreases chains.len(),
{
    if chains.len() == 0 {
        Set::<(i64, i64, i64)>::empty()
    } else {
        crate::pathfind::links_union(chains[0]) + chains_union(chains.drop_first())
    }
}

/// Appending a chain adds exactly its voxels.
proof fn lemma_chains_union_push(chains: Seq<Seq<(i64, i64, i64)>>, w: Seq<(i64, i64, i64)>)
    ensures
        chains_union(chains.push(w)) =~= chains_union(chains) + crate::pathfind::links_union(w),
    decreases chains.len(),
{
    let pw = chains.push(w);
    assert(chains_union(pw) == crate::pathfind::links_union(pw[0]) + chains_union(
        pw.drop_first(),
    ));
    if chains.len() == 0 {
        assert(pw[0] == w);
        assert(pw.drop_first() =~= Seq::<Seq<(i64, i64, i64)>>::empty());
        assert(chains_union(pw.drop_first()) == Set::<(i64, i64, i64)>::empty());
    } else {
        lemma_chains_union_push(chains.drop_first(), w);
        assert(pw[0] == chains[0]);
        assert(pw.drop_first() =~= chains.drop_first().push(w));
        assert(chains_union(chains) == crate::pathfind::links_union(chains[0]) + chains_union(
            chains.drop_first(),
        ));
    }
}

/// The terrain CarvePaths searches over: the command's weight field with
/// its clamped tuning values.
pub open spec fn carve_map_spec(
    c: &MapGenCommand,
    olds: Seq<(String, GridElement)>,
) -> SearchMap {
    SearchMap {
        weight_array: grid_get(olds, c.source@)->Float_0,
        max_slope: clamp_tuning_spec(c.max_slope),
        vertical_skew: clamp_tuning_spec(c.vertical_skew),
    }
}

/// The failure causes CarvePaths can report: an unusable extent or an
/// empty waypoint list, a missing weight or waypoint field, a field of the
/// wrong category, or a segment the search could not route.
pub open spec fn carve_err_ok(
    c: &MapGenCommand,
    olds: Seq<(String, GridElement)>,
    size: (int, int, int),
    e: GenError,
) -> bool {
    ||| e == GenError::Domain && (size.0 > 0x10_0000 || size.1 > 0x10_0000 || size.2 > 0x10_0000
        || (grid_has(olds, c.points_list@) && (grid_get(olds, c.points_list@) matches
        GridElement::List(l) && l@.len() == 0)))
    ||| e == GenError::MissingField && (!grid_has(olds, c.source@) || !grid_has(
        olds,
        c.points_list@,
    ) || c.points_list@ == c.source@)
    ||| e == GenError::TypeMismatch && (!(grid_get(olds, c.source@) matches GridElement::Float(_))
        || !(grid_get(olds, c.points_list@) matches GridElement::List(_)))
    ||| e == GenError::SearchFailure && grid_has(olds, c.source@) && (grid_get(olds, c.source@)
        matches GridElement::Float(_)) && grid_has(olds, c.points_list@) && (grid_get(
        olds,
        c.points_list@,
    ) matches GridElement::List(l) && l@.len() >= 2 && exists|i: int|
        0 <= i < l@.len() - 1 && (!in_box(#[trigger] l@[i], size) || !in_box(l@[i + 1], size) || (
        l@[i] != l@[i + 1] && !carve_map_spec(c, olds).slope_edge(l@[i], l@[i + 1]))))
}

/// True when the coordinate lies inside the grid's extent.
pub open spec fn in_box(c: (i64, i64, i64), size: (int, int, int)) -> bool {
    0 <= c.0 < size.0 && 0 <= c.1 < size.1 && 0 <= c.2 < size.2
}

/// The fields after removing each named field in order, from position `k`.
pub open spec fn drop_all(
    s: Seq<(String, GridElement)>,
    names: Seq<Seq<char>>,
    k: int,
) -> Seq<(String, GridElement)>
    decreases names.len() - k,
{
    if !(0 <= k < names.len()) {
        s
    } else {
        drop_all(crate::datagrid::grid_remove(s, names[k]), names, k + 1)
    }
}

} // verus!
