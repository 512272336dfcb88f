use vstd::prelude::*;

use crate::selection::Selection;

verus! {

/// The next cell of a gravity walk: one step along the y axis, upward when
/// `up` is set, downward otherwise (wrapping at the representation's edge,
/// where the walk below never steps).
pub open spec fn fall_next(pos: (i64, i64, i64), up: bool) -> (i64, i64, i64) {
    (
        pos.0,
        if up {
            if pos.1 == i64::MAX {
                i64::MIN
            } else {
                (pos.1 + 1) as i64
            }
        } else {
            if pos.1 == i64::MIN {
                i64::MAX
            } else {
                (pos.1 - 1) as i64
            }
        },
        pos.2,
    )
}

/// True when the walk has no representable next cell: it has reached the
/// coordinate type's edge in its direction.  Whenever a solid cell is met
/// at all, the walk stops there first and this guard never fires.
pub open spec fn fall_at_edge(cur: (i64, i64, i64), up: bool) -> bool {
    if up {
        cur.1 == i64::MAX
    } else {
        cur.1 == i64::MIN
    }
}

/// The resting cell of a walk from `cur`: the walk advances one step at a
/// time and stops when the next cell is a member of `solid` — the rest is
/// the last non-solid cell reached.  A walk whose very first step is
/// blocked rests at its starting cell.
pub open spec fn fall_rest(
    solid: Set<(i64, i64, i64)>,
    cur: (i64, i64, i64),
    up: bool,
) -> (i64, i64, i64)
    decreases (if up {
        i64::MAX - cur.1
    } else {
        cur.1 - i64::MIN
    }),
{
    let fore = fall_next(cur, up);
    if fall_at_edge(cur, up) || solid.contains(fore) {
        cur
    } else {
        fall_rest(solid, fore, up)
    }
}

/// Every cell such a walk visits, the resting cell included.
pub open spec fn fall_column(
    solid: Set<(i64, i64, i64)>,
    cur: (i64, i64, i64),
    up: bool,
) -> Set<(i64, i64, i64)>
    decreases (if up {
        i64::MAX - cur.1
    } else {
        cur.1 - i64::MIN
    }),
{
    let fore = fall_next(cur, up);
    if fall_at_edge(cur, up) || solid.contains(fore) {
        Set::<(i64, i64, i64)>::empty().insert(cur)
    } else {
        fall_column(solid, fore, up).insert(cur)
    }
}

/// What one source member contributes to the output: its full visited
/// column, or only its resting cell.
pub open spec fn fall_contrib(
    solid: Set<(i64, i64, i64)>,
    m: (i64, i64, i64),
    up: bool,
    column: bool,
) -> Set<(i64, i64, i64)> {
    if column {
        fall_column(solid, m, up)
    } else {
        Set::<(i64, i64, i64)>::empty().insert(fall_rest(solid, m, up))
    }
}

/// Without `column`, a member's contribution is exactly one cell — its
/// resting cell.
pub proof fn lemma_fall_single(solid: Set<(i64, i64, i64)>, m: (i64, i64, i64), up: bool)
    ensures
        fall_contrib(solid, m, up, false) == Set::<(i64, i64, i64)>::empty().insert(
            fall_rest(solid, m, up),
        ),
        fall_contrib(solid, m, up, false).len() == 1,
{
    let s = Set::<(i64, i64, i64)>::empty().insert(fall_rest(solid, m, up));
    assert(s.len() == 1);
}

/// The visited column holds the start, holds the resting cell, and stays
/// on the start's vertical line between start and rest.
pub proof fn lemma_fall_column_props(solid: Set<(i64, i64, i64)>, cur: (i64, i64, i64), up: bool)
    ensures
        fall_column(solid, cur, up).contains(cur),
        fall_column(solid, cur, up).contains(fall_rest(solid, cur, up)),
        forall|c: (i64, i64, i64)| #[trigger]
            fall_column(solid, cur, up).contains(c) ==> c.0 == cur.0 && c.2 == cur.2 && (if up {
                cur.1 <= c.1 <= fall_rest(solid, cur, up).1
            } else {
                fall_rest(solid, cur, up).1 <= c.1 <= cur.1
            }),
    decreases (if up {
        i64::MAX - cur.1
    } else {
        cur.1 - i64::MIN
    }),
{
    let fore = fall_next(cur, up);
    if fall_at_edge(cur, up) || solid.contains(fore) {
    } else {
        lemma_fall_column_props(solid, fore, up);
    }
}

/// True when the walk from `cur` cannot advance: it is at the coordinate
/// edge, or the next cell is solid.
fn fall_blocked(solid: &Selection, cur: (i64, i64, i64), up: bool) -> (r: bool)
    ensures
        r == (fall_at_edge(cur, up) || solid@.contains(fall_next(cur, up))),
{
    if up {
        if cur.1 == i64::MAX {
            true
        } else {
            solid.contains((cur.0, cur.1 + 1, cur.2))
        }
    } else {
        if cur.1 == i64::MIN {
            true
        } else {
            solid.contains((cur.0, cur.1 - 1, cur.2))
        }
    }
}

/// The gravity walk of every member of `source`, as one selection.
///
/// With `column` unset, each member contributes exactly its one resting
/// cell; with `column` set, every visited cell up to and including the
/// resting cell.
pub fn select_fall(source: &Selection, solid: &Selection, up: bool, column: bool) -> (r: Selection)
    ensures
        r.inv(),
        forall|c: (i64, i64, i64)| #[trigger]
            r@.contains(c) <==> exists|i: int|
                0 <= i < source.order().len() && fall_contrib(
                    solid@,
                    #[trigger] source.order()[i],
                    up,
                    column,
                ).contains(c),
{
    let members = source.members();
    let n = members.len();
    let mut out = Selection::new();
    let mut i: usize = 0;
    while i < n
        invariant
            out.inv(),
            n == source.order().len(),
            members@ == source.order(),
            i <= n,
            forall|c: (i64, i64, i64)| #[trigger]
                out@.contains(c) <==> exists|j: int|
                    0 <= j < i && fall_contrib(
                        solid@,
                        #[trigger] source.order()[j],
                        up,
                        column,
                    ).contains(c),
        decreases n - i,
    {
        let m = members[i];
        let ghost fell = fall_contrib(solid@, m, up, column);
        let mut cur = m;
        let ghost added_start = out@;
        if column {
            out.insert(cur);
        }
        while !fall_blocked(solid, cur, up)
            invariant
                out.inv(),
                fall_rest(solid@, m, up) == fall_rest(solid@, cur, up),
                column ==> out@ == added_start + fall_column(solid@, m, up).difference(
                    fall_column(solid@, cur, up),
                ).insert(cur),
                !column ==> out@ == added_start,
                fall_column(solid@, cur, up).subset_of(fall_column(solid@, m, up)),
            decreases (if up {
                i64::MAX - cur.1
            } else {
                cur.1 - i64::MIN
            }),
        {
            proof {
                lemma_fall_column_props(solid@, cur, up);
                lemma_fall_column_props(solid@, fall_next(cur, up), up);
            }
            cur = if up {
                (cur.0, cur.1 + 1, cur.2)
            } else {
                (cur.0, cur.1 - 1, cur.2)
            };
            if column {
                out.insert(cur);
            }
        }
        if !column {
            out.insert(cur);
        }
        proof {
            assert(fall_rest(solid@, cur, up) == cur);
            assert(fall_rest(solid@, m, up) == cur);
            if column {
                lemma_fall_column_props(solid@, cur, up);
                assert(fall_column(solid@, cur, up) =~= Set::<(i64, i64, i64)>::empty().insert(
                    cur,
                ));
                assert(out@ =~= added_start + fall_column(solid@, m, up));
            } else {
                assert(out@ =~= added_start + fell);
            }
            assert forall|c: (i64, i64, i64)| #[trigger]
                out@.contains(c) <==> exists|j: int|
                    0 <= j < i + 1 && fall_contrib(
                        solid@,
                        #[trigger] source.order()[j],
                        up,
                        column,
                    ).contains(c) by {
                if out@.contains(c) {
                    if added_start.contains(c) {
                        let j = choose|j: int|
                            0 <= j < i && fall_contrib(
                                solid@,
                                #[trigger] source.order()[j],
                                up,
                                column,
                            ).contains(c);
                        assert(fall_contrib(solid@, source.order()[j], up, column).contains(c));
                    } else {
                        assert(fell.contains(c));
                        assert(source.order()[i as int] == m);
                    }
                }
                if exists|j: int|
                    0 <= j < i + 1 && fall_contrib(
                        solid@,
                        #[trigger] source.order()[j],
                        up,
                        column,
                    ).contains(c) {
                    let j = choose|j: int|
                        0 <= j < i + 1 && fall_contrib(
                            solid@,
                            #[trigger] source.order()[j],
                            up,
                            column,
                        ).contains(c);
                    if j < i {
                        assert(added_start.contains(c));
                    } else {
                        assert(fell.contains(c));
                    }
                }
            }
        }
        i += 1;
    }
    out
}

} // verus!
