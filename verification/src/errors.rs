use vstd::prelude::*;

verus! {

/// Why a command refused to run.
///
/// Every command either succeeds or reports one of these; commands never
/// mutate their input on failure, so no partially-applied field is ever
/// visible to the caller.
#[derive(Clone, Copy, Debug, PartialEq, Eq, Structural)]
pub enum GenError {
    /// A required collaborator or resource is missing or unusable: no kernel,
    /// no rule, no noise source, or an expression that does not evaluate.
    Configuration,
    /// A command was applied to a field of the wrong category.
    TypeMismatch,
    /// A named source field is absent from the grid.
    MissingField,
    /// An input value is outside the command's domain: an invalid grid size,
    /// an empty stride, an impossible room-size range.
    Domain,
    /// The pathfinder found no route — an expected, data-dependent outcome.
    SearchFailure,
}

/// A command failure annotated with the identity of the failing node.
pub struct RunError {
    pub node: String,
    pub error: GenError,
}

} // verus!
