use vstd::prelude::*;

verus! {

/// A sparse set of voxel coordinates — the boolean fields of a grid.
///
/// Coordinates are signed and deliberately not bounds-checked here: list and
/// selection fields may hold voxels outside the owning grid's extent, and
/// bounds are enforced only by the operations that require them.
///
/// The view of a `Selection` is the mathematical set of its coordinates.
/// `inv` (no duplicate entries) is established by every constructor and
/// preserved by every method, and lets the entry count stand for the set's
/// cardinality.
pub struct Selection {
    cells: Vec<(i64, i64, i64)>,
}

impl View for Selection {
    type V = Set<(i64, i64, i64)>;

    closed spec fn view(&self) -> Set<(i64, i64, i64)> {
        self.cells@.to_set()
    }
}

/// The first occurrences of a list's coordinates, in encounter order —
/// the stored order a selection built from the list takes.
pub open spec fn first_occurrences(s: Seq<(i64, i64, i64)>) -> Seq<(i64, i64, i64)>
    decreases s.len(),
{
    if s.len() == 0 {
        Seq::<(i64, i64, i64)>::empty()
    } else {
        let rest = first_occurrences(s.drop_last());
        if s.drop_last().to_set().contains(s.last()) {
            rest
        } else {
            rest.push(s.last())
        }
    }
}

/// An element-for-element copy of a coordinate list.
pub fn copy_cells(v: &Vec<(i64, i64, i64)>) -> (r: Vec<(i64, i64, i64)>)
    ensures
        r@ == v@,
{
    let mut r: Vec<(i64, i64, i64)> = Vec::new();
    let mut i: usize = 0;
    while i < v.len()
        invariant
            i <= v.len(),
            r@ == v@.take(i as int),
        decreases v.len() - i,
    {
        r.push(v[i]);
        proof {
            assert(v@.take(i + 1) == v@.take(i as int).push(v@[i as int]));
        }
        i += 1;
    }
    proof {
        assert(v@.take(v@.len() as int) == v@);
    }
    r
}

impl Selection {
    /// No coordinate is stored twice.
    pub closed spec fn inv(&self) -> bool {
        self.cells@.no_duplicates()
    }

    /// The stored order of the coordinates, for conversion to lists.
    pub closed spec fn order(&self) -> Seq<(i64, i64, i64)> {
        self.cells@
    }

    pub fn new() -> (r: Selection)
        ensures
            r@ == Set::<(i64, i64, i64)>::empty(),
            r.inv(),
            r.order() == Seq::<(i64, i64, i64)>::empty(),
    {
        let r = Selection { cells: Vec::new() };
        proof {
            assert(r@ =~= Set::<(i64, i64, i64)>::empty());
        }
        r
    }

    pub fn contains(&self, c: (i64, i64, i64)) -> (r: bool)
        ensures
            r == self@.contains(c),
    {
        let mut i: usize = 0;
        while i < self.cells.len()
            invariant
                i <= self.cells.len(),
                forall|j: int| 0 <= j < i ==> self.cells@[j] != c,
            decreases self.cells.len() - i,
        {
            let e = self.cells[i];
            if e.0 == c.0 && e.1 == c.1 && e.2 == c.2 {
                assert(self.cells@.contains(c));
                return true;
            }
            i += 1;
        }
        assert(!self.cells@.contains(c));
        false
    }

    /// Inserts a coordinate; a no-op when it is already a member.
    pub fn insert(&mut self, c: (i64, i64, i64))
        requires
            old(self).inv(),
        ensures
            final(self).inv(),
            final(self)@ == old(self)@.insert(c),
            final(self).order() == if old(self)@.contains(c) {
                old(self).order()
            } else {
                old(self).order().push(c)
            },
    {
        if !self.contains(c) {
            proof {
                self.cells@.lemma_push_to_set_commute(c);
            }
            self.cells.push(c);
        } else {
            proof {
                assert(self@ =~= old(self)@.insert(c));
            }
        }
    }

    /// The number of members.
    pub fn len(&self) -> (r: usize)
        requires
            self.inv(),
        ensures
            r == self@.len(),
    {
        proof {
            self.cells@.unique_seq_to_set();
        }
        self.cells.len()
    }

    pub fn is_empty(&self) -> (r: bool)
        requires
            self.inv(),
        ensures
            r == self@.is_empty(),
    {
        proof {
            self.cells@.unique_seq_to_set();
            if self.cells@.len() == 0 {
                assert(self@ =~= Set::<(i64, i64, i64)>::empty());
            } else {
                assert(self@.contains(self.cells@[0]));
            }
        }
        self.cells.len() == 0
    }

    /// The stored order underlies the set view: it repeats no coordinate,
    /// and its members are exactly the view — so a list made from it is a
    /// duplicate-free enumeration of the set.
    pub proof fn lemma_order_view(&self)
        requires
            self.inv(),
        ensures
            self.order().no_duplicates(),
            self.order().to_set() == self@,
    {
    }

    /// The members in their stored order.
    pub fn members(&self) -> (r: &Vec<(i64, i64, i64)>)
        ensures
            r@ == self.order(),
            r@.to_set() == self@,
    {
        &self.cells
    }

    /// Builds a selection from a list, dropping duplicates: the stored
    /// order is the list's first occurrences, so the conversion is a
    /// function of the list.
    pub fn from_list(list: &Vec<(i64, i64, i64)>) -> (r: Selection)
        ensures
            r.inv(),
            r@ == list@.to_set(),
            r.order() == first_occurrences(list@),
    {
        let mut r = Selection::new();
        let mut i: usize = 0;
        while i < list.len()
            invariant
                i <= list.len(),
                r.inv(),
                r@ == list@.take(i as int).to_set(),
                r.order() == first_occurrences(list@.take(i as int)),
            decreases list.len() - i,
        {
            let ghost prev = r@;
            r.insert(list[i]);
            proof {
                assert(list@.take(i + 1).drop_last() == list@.take(i as int));
                assert(list@.take(i + 1).last() == list@[i as int]);
                assert(list@.take(i + 1).to_set() =~= list@.take(i as int).to_set().insert(
                    list@[i as int],
                ));
            }
            i += 1;
        }
        proof {
            assert(list@.take(list@.len() as int) == list@);
        }
        r
    }

    /// Set union.
    pub fn union_with(&self, other: &Selection) -> (r: Selection)
        requires
            self.inv(),
        ensures
            r.inv(),
            r@ == self@ + other@,
    {
        let mut r = Selection { cells: copy_cells(&self.cells) };
        proof {
            assert(r@ =~= self@ + other.cells@.take(0).to_set());
        }
        let mut i: usize = 0;
        while i < other.cells.len()
            invariant
                i <= other.cells.len(),
                r.inv(),
                r@ == self@ + other.cells@.take(i as int).to_set(),
            decreases other.cells.len() - i,
        {
            r.insert(other.cells[i]);
            proof {
                assert(other.cells@.take(i + 1).drop_last() == other.cells@.take(i as int));
                assert(other.cells@.take(i + 1).last() == other.cells@[i as int]);
                assert(other.cells@.take(i + 1).to_set() =~= other.cells@.take(i as int).to_set()
                    .insert(other.cells@[i as int]));
                assert(r@ =~= self@ + other.cells@.take(i + 1).to_set());
            }
            i += 1;
        }
        proof {
            assert(other.cells@.take(other.cells@.len() as int) == other.cells@);
        }
        r
    }

    /// Set intersection.
    pub fn intersect_with(&self, other: &Selection) -> (r: Selection)
        requires
            self.inv(),
        ensures
            r.inv(),
            r@ == self@.intersect(other@),
    {
        let mut r = Selection::new();
        let mut i: usize = 0;
        while i < self.cells.len()
            invariant
                i <= self.cells.len(),
                r.inv(),
                r@ == self.cells@.take(i as int).to_set().intersect(other@),
            decreases self.cells.len() - i,
        {
            let c = self.cells[i];
            if other.contains(c) {
                r.insert(c);
            }
            proof {
                assert(self.cells@.take(i + 1).drop_last() == self.cells@.take(i as int));
                assert(self.cells@.take(i + 1).last() == self.cells@[i as int]);
                assert(r@ =~= self.cells@.take(i + 1).to_set().intersect(other@));
            }
            i += 1;
        }
        proof {
            assert(self.cells@.take(self.cells@.len() as int) == self.cells@);
        }
        r
    }

    /// Set difference: the members of `self` that are not members of `other`.
    pub fn difference_with(&self, other: &Selection) -> (r: Selection)
        requires
            self.inv(),
        ensures
            r.inv(),
            r@ == self@.difference(other@),
    {
        let mut r = Selection::new();
        let mut i: usize = 0;
        while i < self.cells.len()
            invariant
                i <= self.cells.len(),
                r.inv(),
                r@ == self.cells@.take(i as int).to_set().difference(other@),
            decreases self.cells.len() - i,
        {
            let c = self.cells[i];
            if !other.contains(c) {
                r.insert(c);
            }
            proof {
                assert(self.cells@.take(i + 1).drop_last() == self.cells@.take(i as int));
                assert(self.cells@.take(i + 1).last() == self.cells@[i as int]);
                assert(r@ =~= self.cells@.take(i + 1).to_set().difference(other@));
            }
            i += 1;
        }
        proof {
            assert(self.cells@.take(self.cells@.len() as int) == self.cells@);
        }
        r
    }

    /// True when no member of `self` is a member of `other`.
    pub fn is_disjoint(&self, other: &Selection) -> (r: bool)
        ensures
            r == self@.disjoint(other@),
    {
        let mut i: usize = 0;
        while i < self.cells.len()
            invariant
                i <= self.cells.len(),
                forall|j: int| 0 <= j < i ==> !other@.contains(#[trigger] self.cells@[j]),
            decreases self.cells.len() - i,
        {
            if other.contains(self.cells[i]) {
                assert(self@.contains(self.cells@[i as int]));
                return false;
            }
            i += 1;
        }
        proof {
            assert forall|c: (i64, i64, i64)| self@.contains(c) implies !other@.contains(c) by {
                let j = choose|j: int| 0 <= j < self.cells@.len() && self.cells@[j] == c;
            }
        }
        true
    }
}

impl Clone for Selection {
    fn clone(&self) -> (r: Self)
        ensures
            r@ == self@,
            r.inv() == self.inv(),
            r.order() == self.order(),
    {
        Selection { cells: copy_cells(&self.cells) }
    }
}

/// Union is commutative.
pub proof fn lemma_union_commutative(a: Set<(i64, i64, i64)>, b: Set<(i64, i64, i64)>)
    ensures
        a + b == b + a,
{
    assert(a + b =~= b + a);
}

/// Intersection is commutative.
pub proof fn lemma_intersection_commutative(a: Set<(i64, i64, i64)>, b: Set<(i64, i64, i64)>)
    ensures
        a.intersect(b) == b.intersect(a),
{
    assert(a.intersect(b) =~= b.intersect(a));
}

/// A difference is disjoint from the subtracted set.
pub proof fn lemma_difference_disjoint(a: Set<(i64, i64, i64)>, b: Set<(i64, i64, i64)>)
    ensures
        a.difference(b).disjoint(b),
{
}

} // verus!
