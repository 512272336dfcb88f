use vstd::prelude::*;

use crate::dense::MAX_CELLS;
use crate::fields::{ge_wf, GridElement, Room};
use crate::scalar::Value;
use crate::selection::copy_cells;

verus! {

/// True when the name sequence holds an entry called `name`.
pub open spec fn grid_has(s: Seq<(String, GridElement)>, name: Seq<char>) -> bool {
    exists|i: int| 0 <= i < s.len() && (#[trigger] s[i].0)@ == name
}

/// The index of the entry called `name` (meaningful when `grid_has`).
pub open spec fn grid_idx(s: Seq<(String, GridElement)>, name: Seq<char>) -> int {
    choose|i: int| 0 <= i < s.len() && (#[trigger] s[i].0)@ == name
}

/// The field called `name` (meaningful when `grid_has`).
pub open spec fn grid_get(s: Seq<(String, GridElement)>, name: Seq<char>) -> GridElement {
    s[grid_idx(s, name)].1
}

/// The field sequence after storing `ge` under `nm`: replacement in place
/// when the name exists, append otherwise.
pub open spec fn grid_set(s: Seq<(String, GridElement)>, nm: String, ge: GridElement) -> Seq<
    (String, GridElement),
> {
    if grid_has(s, nm@) {
        s.update(grid_idx(s, nm@), (nm, ge))
    } else {
        s.push((nm, ge))
    }
}

/// The field sequence after removing `name`; unchanged when it is absent.
pub open spec fn grid_remove(s: Seq<(String, GridElement)>, name: Seq<char>) -> Seq<
    (String, GridElement),
> {
    if grid_has(s, name) {
        s.remove(grid_idx(s, name))
    } else {
        s
    }
}

/// The field names in storage order, as character sequences.
pub open spec fn names_of(s: Seq<(String, GridElement)>) -> Seq<Seq<char>> {
    s.map_values(|p: (String, GridElement)| p.0@)
}

/// Observation-level description of storing a field: `name` is present in
/// `new`, the name list is unchanged (replacement) or extended by `name`
/// (fresh insertion), and every other field is untouched.
pub open spec fn fields_overwrote(
    old_s: Seq<(String, GridElement)>,
    new_s: Seq<(String, GridElement)>,
    name: Seq<char>,
) -> bool {
    &&& grid_has(new_s, name)
    &&& names_of(new_s) == if grid_has(old_s, name) {
        names_of(old_s)
    } else {
        names_of(old_s).push(name)
    }
    &&& forall|m: Seq<char>| m != name ==> #[trigger] grid_has(new_s, m) == grid_has(old_s, m)
    &&& forall|m: Seq<char>|
        m != name && grid_has(old_s, m) ==> #[trigger] grid_get(new_s, m) == grid_get(old_s, m)
}

/// Observation-level description of removing a field: `name` is absent from
/// `new`, the name list loses exactly its entry, and every other field is
/// untouched.
pub open spec fn fields_removed(
    old_s: Seq<(String, GridElement)>,
    new_s: Seq<(String, GridElement)>,
    name: Seq<char>,
) -> bool {
    &&& !grid_has(new_s, name)
    &&& names_of(new_s) == if grid_has(old_s, name) {
        names_of(old_s).remove(grid_idx(old_s, name))
    } else {
        names_of(old_s)
    }
    &&& forall|m: Seq<char>| m != name ==> #[trigger] grid_has(new_s, m) == grid_has(old_s, m)
    &&& forall|m: Seq<char>|
        m != name && grid_has(old_s, m) ==> #[trigger] grid_get(new_s, m) == grid_get(old_s, m)
}

/// Typed, named, voxel-indexed field storage over one fixed 3-D extent.
///
/// The extent is set at construction and never changes; fields are stored
/// in insertion order under unique names, and storing an existing name
/// replaces the field in place.
pub struct DataGrid {
    size: (usize, usize, usize),
    elements: Vec<(String, GridElement)>,
}

impl DataGrid {
    pub closed spec fn spec_size(&self) -> (int, int, int) {
        (self.size.0 as int, self.size.1 as int, self.size.2 as int)
    }

    /// The named fields, in storage order.
    pub closed spec fn fields(&self) -> Seq<(String, GridElement)> {
        self.elements@
    }

    /// Every dimension is at least 1 and the voxel count is allocatable;
    /// names are unique; every field is well-formed for this extent.
    pub closed spec fn wf(&self) -> bool {
        &&& 1 <= self.size.0
        &&& 1 <= self.size.1
        &&& 1 <= self.size.2
        &&& self.size.0 * self.size.1 * self.size.2 <= MAX_CELLS
        &&& forall|i: int, j: int|
            0 <= i < j < self.elements@.len() ==> (#[trigger] self.elements@[i].0)@ != (
            #[trigger] self.elements@[j].0)@
        &&& forall|i: int|
            0 <= i < self.elements@.len() ==> ge_wf(
                (#[trigger] self.elements@[i]).1,
                self.spec_size(),
            )
    }

    /// True when the voxel lies inside the grid's extent.
    pub open spec fn in_grid(&self, x: int, y: int, z: int) -> bool {
        0 <= x < self.spec_size().0 && 0 <= y < self.spec_size().1 && 0 <= z < self.spec_size().2
    }

    /// The number of stored fields.
    pub fn field_count(&self) -> (r: usize)
        ensures
            r == self.fields().len(),
    {
        self.elements.len()
    }

    /// The stored name/field pair at one position.
    pub fn field_pair(&self, i: usize) -> (r: &(String, GridElement))
        requires
            i < self.fields().len(),
        ensures
            *r == self.fields()[i as int],
    {
        &self.elements[i]
    }

    /// The field at one position of a well-formed grid is well-formed.
    pub proof fn lemma_field_wf_at(&self, i: int)
        requires
            self.wf(),
            0 <= i < self.fields().len(),
        ensures
            ge_wf(self.fields()[i].1, self.spec_size()),
    {
    }

    /// The consequences of well-formedness, for use outside this module:
    /// positive bounded extent, well-formed fields, and each field name
    /// held exactly once.
    pub proof fn lemma_wf_facts(&self)
        requires
            self.wf(),
        ensures
            1 <= self.spec_size().0,
            1 <= self.spec_size().1,
            1 <= self.spec_size().2,
            self.spec_size().0 * self.spec_size().1 * self.spec_size().2 <= MAX_CELLS,
            forall|i: int|
                0 <= i < self.fields().len() ==> ge_wf(
                    (#[trigger] self.fields()[i]).1,
                    self.spec_size(),
                ),
            forall|i: int, j: int|
                0 <= i < j < self.fields().len() ==> (#[trigger] self.fields()[i].0)@ != (
                #[trigger] self.fields()[j].0)@,
    {
    }

    /// Any field present on a well-formed grid is well-formed for its
    /// extent.
    pub proof fn lemma_field_wf(&self, name: Seq<char>)
        requires
            self.wf(),
            grid_has(self.fields(), name),
        ensures
            ge_wf(grid_get(self.fields(), name), self.spec_size()),
    {
        let i = grid_idx(self.fields(), name);
        assert(0 <= i < self.fields().len() && self.fields()[i].0@ == name);
        assert(ge_wf(self.fields()[i].1, self.spec_size()));
    }

    /// A fresh grid of the given extent with no fields.
    pub fn sized(sz: (usize, usize, usize)) -> (r: DataGrid)
        requires
            1 <= sz.0,
            1 <= sz.1,
            1 <= sz.2,
            sz.0 * sz.1 * sz.2 <= MAX_CELLS,
        ensures
            r.wf(),
            r.spec_size() == (sz.0 as int, sz.1 as int, sz.2 as int),
            r.fields() == Seq::<(String, GridElement)>::empty(),
    {
        DataGrid { size: sz, elements: Vec::new() }
    }

    pub fn size(&self) -> (r: (usize, usize, usize))
        ensures
            (r.0 as int, r.1 as int, r.2 as int) == self.spec_size(),
    {
        self.size
    }

    /// The position of `name` in the field list, if present.
    fn find_index(&self, name: &String) -> (r: Option<usize>)
        requires
            self.wf(),
        ensures
            match r {
                Some(i) => i < self.fields().len() && self.fields()[i as int].0@ == name@
                    && grid_has(self.fields(), name@) && grid_idx(self.fields(), name@) == i,
                None => !grid_has(self.fields(), name@),
            },
    {
        let mut i: usize = 0;
        while i < self.elements.len()
            invariant
                self.wf(),
                i <= self.elements.len(),
                forall|j: int| 0 <= j < i ==> (#[trigger] self.elements@[j].0)@ != name@,
            decreases self.elements.len() - i,
        {
            if self.elements[i].0.eq(name) {
                proof {
                    let k = grid_idx(self.fields(), name@);
                    assert(0 <= k < self.fields().len() && self.fields()[k].0@ == name@);
                }
                return Some(i);
            }
            i += 1;
        }
        None
    }

    /// The field stored under `name`, if any.
    pub fn get_field(&self, name: &String) -> (r: Option<&GridElement>)
        requires
            self.wf(),
        ensures
            match r {
                Some(ge) => grid_has(self.fields(), name@) && *ge == grid_get(
                    self.fields(),
                    name@,
                ),
                None => !grid_has(self.fields(), name@),
            },
    {
        match self.find_index(name) {
            Some(i) => Some(&self.elements[i].1),
            None => None,
        }
    }

    /// Stores `ge` under `nm`, replacing any existing field of that name.
    pub fn set_field(&mut self, nm: String, ge: GridElement)
        requires
            old(self).wf(),
            ge_wf(ge, old(self).spec_size()),
        ensures
            final(self).wf(),
            final(self).spec_size() == old(self).spec_size(),
            final(self).fields() == grid_set(old(self).fields(), nm, ge),
            fields_overwrote(old(self).fields(), final(self).fields(), nm@),
            grid_get(final(self).fields(), nm@) == ge,
    {
        let ghost s = self.elements@;
        match self.find_index(&nm) {
            Some(i) => {
                self.elements.remove(i);
                self.elements.insert(i, (nm, ge));
                proof {
                    assert(self.elements@ =~= grid_set(old(self).fields(), nm, ge));
                    lemma_overwrote_update(s, i as int, nm, ge);
                }
            },
            None => {
                self.elements.push((nm, ge));
                proof {
                    lemma_overwrote_push(s, nm, ge);
                }
            },
        }
    }

    /// Removes and returns the field stored under `name`.
    pub fn remove_field(&mut self, name: &String) -> (r: Option<GridElement>)
        requires
            old(self).wf(),
        ensures
            final(self).wf(),
            final(self).spec_size() == old(self).spec_size(),
            final(self).fields() == grid_remove(old(self).fields(), name@),
            fields_removed(old(self).fields(), final(self).fields(), name@),
            match r {
                Some(ge) => grid_has(old(self).fields(), name@) && ge == grid_get(
                    old(self).fields(),
                    name@,
                ),
                None => !grid_has(old(self).fields(), name@),
            },
    {
        let ghost s = self.elements@;
        match self.find_index(name) {
            Some(i) => {
                let pair = self.elements.remove(i);
                proof {
                    lemma_removed_at(s, i as int, name@);
                }
                Some(pair.1)
            },
            None => None,
        }
    }

    /// The field names, in storage order.
    pub fn get_fields(&self) -> (r: Vec<String>)
        ensures
            r@.len() == self.fields().len(),
            forall|i: int| 0 <= i < r@.len() ==> r@[i] == (#[trigger] self.fields()[i]).0,
    {
        let mut r: Vec<String> = Vec::new();
        let mut i: usize = 0;
        while i < self.elements.len()
            invariant
                i <= self.elements.len(),
                r@.len() == i,
                forall|j: int| 0 <= j < i ==> r@[j] == (#[trigger] self.elements@[j]).0,
            decreases self.elements.len() - i,
        {
            r.push(self.elements[i].0.clone());
            i += 1;
        }
        r
    }

    /// The coordinate list stored under `name`, if that field is a list.
    pub fn get_list(&self, name: &String) -> (r: Option<Vec<(i64, i64, i64)>>)
        requires
            self.wf(),
        ensures
            match r {
                Some(v) => grid_has(self.fields(), name@) && (grid_get(self.fields(), name@)
                    matches GridElement::List(l) && v@ == l@),
                None => !grid_has(self.fields(), name@) || !(grid_get(self.fields(), name@)
                    matches GridElement::List(_)),
            },
    {
        match self.get_field(name) {
            Some(GridElement::List(l)) => Some(copy_cells(l)),
            _ => None,
        }
    }

    /// Samples the field `name` at `pos`.
    ///
    /// Dense fields yield their scalar (`None` when `pos` is outside the
    /// grid); selections yield membership; room lists and coordinate lists
    /// yield the index of the first room containing / entry equal to `pos`,
    /// or -1.
    pub fn sample_grid(&self, name: &String, pos: (i64, i64, i64)) -> (r: Option<Value>)
        requires
            self.wf(),
        ensures
            r == sample_spec(self.fields(), self.spec_size(), name@, pos),
    {
        let sz = self.size;
        let ge = match self.get_field(name) {
            Some(ge) => ge,
            None => { return None; },
        };
        proof {
            assert(self.spec_size().0 <= MAX_CELLS && self.spec_size().1 <= MAX_CELLS
                && self.spec_size().2 <= MAX_CELLS) by (nonlinear_arith)
                requires
                    self.wf(),
                    1 <= self.spec_size().0,
                    1 <= self.spec_size().1,
                    1 <= self.spec_size().2,
                    self.spec_size().0 * self.spec_size().1 * self.spec_size().2 <= MAX_CELLS,
            ;
        }
        let in_b = 0 <= pos.0 && pos.0 < sz.0 as i64 && 0 <= pos.1 && pos.1 < sz.1 as i64 && 0
            <= pos.2 && pos.2 < sz.2 as i64;
        match ge {
            GridElement::Int(d) => {
                if in_b {
                    Some(Value::Int(d.get(pos.0 as usize, pos.1 as usize, pos.2 as usize)))
                } else {
                    None
                }
            },
            GridElement::Float(d) => {
                if in_b {
                    Some(Value::Float(d.get(pos.0 as usize, pos.1 as usize, pos.2 as usize)))
                } else {
                    None
                }
            },
            GridElement::Sel(s) => Some(Value::Bool(s.contains(pos))),
            GridElement::Rooms(rooms) => Some(Value::Int(room_index(rooms, pos))),
            GridElement::List(list) => Some(Value::Int(list_index(list, pos))),
        }
    }
}

/// What sampling returns, as a function of the stored fields.
pub open spec fn sample_spec(
    s: Seq<(String, GridElement)>,
    size: (int, int, int),
    name: Seq<char>,
    pos: (i64, i64, i64),
) -> Option<Value> {
    if !grid_has(s, name) {
        None
    } else {
        let in_b = 0 <= pos.0 < size.0 && 0 <= pos.1 < size.1 && 0 <= pos.2 < size.2;
        match grid_get(s, name) {
            GridElement::Int(d) => if in_b {
                Some(Value::Int(d.at(pos.0 as int, pos.1 as int, pos.2 as int)))
            } else {
                None
            },
            GridElement::Float(d) => if in_b {
                Some(Value::Float(d.at(pos.0 as int, pos.1 as int, pos.2 as int)))
            } else {
                None
            },
            GridElement::Sel(sel) => Some(Value::Bool(sel@.contains(pos))),
            GridElement::Rooms(rooms) => Some(Value::Int(room_index_spec(rooms@, pos, 0))),
            GridElement::List(list) => Some(Value::Int(list_index_spec(list@, pos, 0))),
        }
    }
}

/// The index of the first room at or after `i` whose members contain `pos`,
/// or -1.
pub open spec fn room_index_spec(rooms: Seq<Room>, pos: (i64, i64, i64), i: int) -> i64
    decreases rooms.len() - i,
{
    if i < 0 || i >= rooms.len() {
        -1i64
    } else if rooms[i].members@.contains(pos) {
        if i <= i64::MAX {
            i as i64
        } else {
            -1i64
        }
    } else {
        room_index_spec(rooms, pos, i + 1)
    }
}

/// The index of the first list entry at or after `i` equal to `pos`, or -1.
pub open spec fn list_index_spec(list: Seq<(i64, i64, i64)>, pos: (i64, i64, i64), i: int) -> i64
    decreases list.len() - i,
{
    if i < 0 || i >= list.len() {
        -1i64
    } else if list[i] == pos {
        if i <= i64::MAX {
            i as i64
        } else {
            -1i64
        }
    } else {
        list_index_spec(list, pos, i + 1)
    }
}

/// The index of the first room containing `pos`, or -1.
fn room_index(rooms: &Vec<Room>, pos: (i64, i64, i64)) -> (r: i64)
    ensures
        r == room_index_spec(rooms@, pos, 0),
{
    let n = rooms.len();
    let mut i: usize = 0;
    while i < n
        invariant
            i <= n,
            n == rooms@.len(),
            n <= usize::MAX,
            room_index_spec(rooms@, pos, 0) == room_index_spec(rooms@, pos, i as int),
        decreases n - i,
    {
        if rooms[i].members.contains(pos) {
            if (i as u64) <= (i64::MAX as u64) {
                return i as i64;
            } else {
                return -1;
            }
        }
        i += 1;
    }
    -1
}

/// The index of the first list entry equal to `pos`, or -1.
fn list_index(list: &Vec<(i64, i64, i64)>, pos: (i64, i64, i64)) -> (r: i64)
    ensures
        r == list_index_spec(list@, pos, 0),
{
    let n = list.len();
    let mut i: usize = 0;
    while i < n
        invariant
            i <= n,
            n == list@.len(),
            list_index_spec(list@, pos, 0) == list_index_spec(list@, pos, i as int),
        decreases n - i,
    {
        let e = list[i];
        if e.0 == pos.0 && e.1 == pos.1 && e.2 == pos.2 {
            if (i as u64) <= (i64::MAX as u64) {
                return i as i64;
            } else {
                return -1;
            }
        }
        i += 1;
    }
    -1
}


/// After replacing the entry at the (unique) index of `nm`, the stored
/// fields read as an overwrite of `nm` and nothing else.
proof fn lemma_overwrote_update(s: Seq<(String, GridElement)>, i: int, nm: String, ge: GridElement)
    requires
        0 <= i < s.len(),
        s[i].0@ == nm@,
        forall|a: int, b: int|
            0 <= a < b < s.len() ==> (#[trigger] s[a].0)@ != (#[trigger] s[b].0)@,
    ensures
        fields_overwrote(s, s.update(i, (nm, ge)), nm@),
        grid_get(s.update(i, (nm, ge)), nm@) == ge,
{
    let n = s.update(i, (nm, ge));
    assert(n[i].0@ == nm@);
    assert(grid_has(n, nm@));
    assert(grid_has(s, nm@));
    assert(names_of(n) =~= names_of(s));
    assert forall|a: int, b: int|
        0 <= a < b < n.len() implies (#[trigger] n[a].0)@ != (#[trigger] n[b].0)@ by {
        assert(n[a].0@ == s[a].0@ && n[b].0@ == s[b].0@);
    }
    let k = grid_idx(n, nm@);
    assert(0 <= k < n.len() && n[k].0@ == nm@);
    if k != i {
        assert(n[k].0@ == s[k].0@ && n[i].0@ == s[i].0@);
        assert(false);
    }
    assert(grid_get(n, nm@) == ge);
    assert forall|m: Seq<char>| m != nm@ implies #[trigger] grid_has(n, m) == grid_has(s, m) by {
        if grid_has(n, m) {
            let j = choose|j: int| 0 <= j < n.len() && (#[trigger] n[j].0)@ == m;
            assert(j != i);
            assert(s[j].0@ == m);
        }
        if grid_has(s, m) {
            let j = choose|j: int| 0 <= j < s.len() && (#[trigger] s[j].0)@ == m;
            assert(j != i);
            assert(n[j].0@ == m);
        }
    }
    assert forall|m: Seq<char>|
        m != nm@ && grid_has(s, m) implies #[trigger] grid_get(n, m) == grid_get(s, m) by {
        let w = choose|j: int| 0 <= j < s.len() && (#[trigger] s[j].0)@ == m;
        assert(w != i);
        assert(n[w].0@ == m);
        assert(grid_has(n, m));
        let j1 = grid_idx(n, m);
        let j2 = grid_idx(s, m);
        assert(0 <= j1 < n.len() && n[j1].0@ == m);
        assert(0 <= j2 < s.len() && s[j2].0@ == m);
        assert(j1 != i);
        assert(s[j1].0@ == m);
        if j1 < j2 {
            assert(s[j1].0@ != s[j2].0@);
            assert(false);
        } else if j2 < j1 {
            assert(s[j2].0@ != s[j1].0@);
            assert(false);
        }
    }
}

/// After appending an entry whose name is fresh, the stored fields read as
/// an overwrite of that name and nothing else.
proof fn lemma_overwrote_push(s: Seq<(String, GridElement)>, nm: String, ge: GridElement)
    requires
        !grid_has(s, nm@),
        forall|a: int, b: int|
            0 <= a < b < s.len() ==> (#[trigger] s[a].0)@ != (#[trigger] s[b].0)@,
    ensures
        fields_overwrote(s, s.push((nm, ge)), nm@),
        grid_get(s.push((nm, ge)), nm@) == ge,
{
    let n = s.push((nm, ge));
    let last = s.len() as int;
    assert(n[last].0@ == nm@);
    assert(grid_has(n, nm@));
    assert(names_of(n) =~= names_of(s).push(nm@));
    let k = grid_idx(n, nm@);
    assert(0 <= k < n.len() && n[k].0@ == nm@);
    if k != last {
        assert(s[k].0@ == nm@);
        assert(false);
    }
    assert(grid_get(n, nm@) == ge);
    assert forall|m: Seq<char>| m != nm@ implies #[trigger] grid_has(n, m) == grid_has(s, m) by {
        if grid_has(n, m) {
            let j = choose|j: int| 0 <= j < n.len() && (#[trigger] n[j].0)@ == m;
            assert(j != last);
            assert(s[j].0@ == m);
        }
        if grid_has(s, m) {
            let j = choose|j: int| 0 <= j < s.len() && (#[trigger] s[j].0)@ == m;
            assert(n[j].0@ == m);
        }
    }
    assert forall|m: Seq<char>|
        m != nm@ && grid_has(s, m) implies #[trigger] grid_get(n, m) == grid_get(s, m) by {
        let w = choose|j: int| 0 <= j < s.len() && (#[trigger] s[j].0)@ == m;
        assert(n[w].0@ == m);
        assert(grid_has(n, m));
        let j1 = grid_idx(n, m);
        let j2 = grid_idx(s, m);
        assert(0 <= j1 < n.len() && n[j1].0@ == m);
        assert(0 <= j2 < s.len() && s[j2].0@ == m);
        assert(j1 != last);
        assert(s[j1].0@ == m);
        if j1 < j2 {
            assert(s[j1].0@ != s[j2].0@);
            assert(false);
        } else if j2 < j1 {
            assert(s[j2].0@ != s[j1].0@);
            assert(false);
        }
    }
}

/// After removing the entry at the (unique) index of `name`, the stored
/// fields read as a removal of `name` and nothing else.
proof fn lemma_removed_at(s: Seq<(String, GridElement)>, i: int, name: Seq<char>)
    requires
        0 <= i < s.len(),
        s[i].0@ == name,
        forall|a: int, b: int|
            0 <= a < b < s.len() ==> (#[trigger] s[a].0)@ != (#[trigger] s[b].0)@,
    ensures
        fields_removed(s, s.remove(i), name),
        grid_idx(s, name) == i,
{
    let n = s.remove(i);
    assert(grid_has(s, name));
    let k = grid_idx(s, name);
    assert(0 <= k < s.len() && s[k].0@ == name);
    if k != i {
        assert(false);
    }
    assert(names_of(n) =~= names_of(s).remove(i));
    assert forall|j: int| 0 <= j < n.len() implies (#[trigger] n[j].0)@ != name by {
        if j < i {
            assert(n[j].0@ == s[j].0@);
        } else {
            assert(n[j].0@ == s[j + 1].0@);
        }
    }
    assert(!grid_has(n, name));
    assert forall|m: Seq<char>| m != name implies #[trigger] grid_has(n, m) == grid_has(s, m) by {
        if grid_has(n, m) {
            let j = choose|j: int| 0 <= j < n.len() && (#[trigger] n[j].0)@ == m;
            if j < i {
                assert(s[j].0@ == m);
            } else {
                assert(s[j + 1].0@ == m);
            }
        }
        if grid_has(s, m) {
            let j = choose|j: int| 0 <= j < s.len() && (#[trigger] s[j].0)@ == m;
            assert(j != i);
            if j < i {
                assert(n[j].0@ == m);
            } else {
                assert(n[j - 1].0@ == m);
            }
        }
    }
    assert forall|m: Seq<char>|
        m != name && grid_has(s, m) implies #[trigger] grid_get(n, m) == grid_get(s, m) by {
        let w = choose|j: int| 0 <= j < s.len() && (#[trigger] s[j].0)@ == m;
        assert(w != i);
        if w < i {
            assert(n[w].0@ == m);
        } else {
            assert(n[w - 1].0@ == m);
        }
        assert(grid_has(n, m));
        let j1 = grid_idx(n, m);
        let j2 = grid_idx(s, m);
        assert(0 <= j1 < n.len() && n[j1].0@ == m);
        assert(0 <= j2 < s.len() && s[j2].0@ == m);
        let j1s = if j1 < i { j1 } else { j1 + 1 };
        assert(s[j1s].0@ == m);
        if j1s != j2 {
            assert(false);
        }
        assert(n[j1].1 == s[j1s].1);
    }
}

} // verus!
