use vstd::prelude::*;

use crate::dense::Dense;
use crate::selection::Selection;

verus! {

/// One placed room: the set of voxels it occupies and, normally, its center.
pub struct Room {
    pub members: Selection,
    pub center: Option<(i64, i64, i64)>,
}

impl Room {
    pub open spec fn wf(&self) -> bool {
        self.members.inv()
    }
}

/// One named field of a grid — the tagged union of the storable categories.
///
/// `Int` and `Float` are dense (one scalar per voxel; `Float` holds
/// fixed-point raw values), `Sel` is a sparse boolean field, `List` an
/// ordered sequence of coordinates, `Rooms` an ordered sequence of rooms.
pub enum GridElement {
    Int(Dense),
    Float(Dense),
    Sel(Selection),
    Rooms(Vec<Room>),
    List(Vec<(i64, i64, i64)>),
}

/// Well-formedness of a field stored on a grid of extent `size`:
/// dense fields match the grid's shape exactly, sparse fields satisfy
/// their set invariant.
pub open spec fn ge_wf(ge: GridElement, size: (int, int, int)) -> bool {
    match ge {
        GridElement::Int(d) => d.wf() && d.dim() == size,
        GridElement::Float(d) => d.wf() && d.dim() == size,
        GridElement::Sel(s) => s.inv(),
        GridElement::Rooms(rooms) => forall|i: int|
            0 <= i < rooms@.len() ==> (#[trigger] rooms@[i]).wf(),
        GridElement::List(_) => true,
    }
}

} // verus!
