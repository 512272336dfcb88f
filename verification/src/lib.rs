//! Procedural generation of typed 3-D voxel grids.
//!
//! A `DataGrid` stores named, typed fields over one fixed three-dimensional
//! extent.  A chain of commands (`MapGenCommand`) progressively builds those
//! fields: noise sampling, room placement, neighborhood convolution, cellular
//! automata, any-angle path carving, and set operations over sparse voxel
//! selections.  A small pipeline executor walks a tree of command nodes and
//! threads the grid from child to parent.
//!
//! Scalar "float" fields are represented as fixed-point integers (see
//! `scalar`): hosts convert at the boundary.  Collaborators that the engine
//! treats as injected pure functions — the expression evaluator and the noise
//! source — are traits implemented by the caller.

pub mod automata;
pub mod collab;
pub mod command;
pub mod convolve;
pub mod datagrid;
pub mod dense;
pub mod edge;
pub mod errors;
pub mod fall;
pub mod fields;
pub mod exprs;
pub mod pathfind;
pub mod pipeline;
pub mod raycast;
pub mod rooms;
pub mod scalar;
pub mod selection;
pub mod sortlist;
