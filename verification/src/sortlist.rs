use vstd::prelude::*;

use vstd::multiset::Multiset;

verus! {

/// Which coordinate axis a list sort orders by.
#[derive(Clone, Copy, Debug, PartialEq, Eq, Structural)]
pub enum SortAxis {
    X,
    Y,
    Z,
}

/// The sort key of a coordinate under one axis.
pub open spec fn axis_key(a: SortAxis, c: (i64, i64, i64)) -> i64 {
    match a {
        SortAxis::X => c.0,
        SortAxis::Y => c.1,
        SortAxis::Z => c.2,
    }
}

/// The ordering the sort obeys: ascending by the axis key, or descending
/// when reversed.
pub open spec fn sort_le(a: SortAxis, rev: bool, u: (i64, i64, i64), v: (i64, i64, i64)) -> bool {
    if rev {
        axis_key(a, u) >= axis_key(a, v)
    } else {
        axis_key(a, u) <= axis_key(a, v)
    }
}

/// Stable insertion of `x` into an already sorted sequence: `x` goes after
/// every element that may stay before it.
pub open spec fn insert_sorted(a: SortAxis, rev: bool, x: (i64, i64, i64), s: Seq<(i64, i64, i64)>)
    -> Seq<(i64, i64, i64)>
    decreases s.len(),
{
    if s.len() == 0 {
        seq![x]
    } else if sort_le(a, rev, s[0], x) {
        seq![s[0]] + insert_sorted(a, rev, x, s.drop_first())
    } else {
        seq![x] + s
    }
}

/// The stable sort, defined as repeated insertion in input order.
pub open spec fn sort_spec(a: SortAxis, rev: bool, s: Seq<(i64, i64, i64)>) -> Seq<(i64, i64, i64)>
    decreases s.len(),
{
    if s.len() == 0 {
        Seq::<(i64, i64, i64)>::empty()
    } else {
        insert_sorted(a, rev, s.last(), sort_spec(a, rev, s.drop_last()))
    }
}

/// Insertion keeps length, adds the element, and preserves sortedness.
pub proof fn lemma_insert_sorted_props(
    a: SortAxis,
    rev: bool,
    x: (i64, i64, i64),
    s: Seq<(i64, i64, i64)>,
)
    requires
        forall|i: int, j: int| 0 <= i < j < s.len() ==> sort_le(a, rev, s[i], s[j]),
    ensures
        insert_sorted(a, rev, x, s).len() == s.len() + 1,
        forall|i: int, j: int|
            0 <= i < j < insert_sorted(a, rev, x, s).len() ==> sort_le(
                a,
                rev,
                insert_sorted(a, rev, x, s)[i],
                insert_sorted(a, rev, x, s)[j],
            ),
        insert_sorted(a, rev, x, s).to_multiset() == s.to_multiset().insert(x),
    decreases s.len(),
{
    broadcast use vstd::seq_lib::group_seq_properties;

    let r = insert_sorted(a, rev, x, s);
    if s.len() == 0 {
        assert(r =~= seq![x]);
        assert(r.to_multiset() =~= s.to_multiset().insert(x)) by {
            lemma_singleton_multiset(x);
            assert(s =~= Seq::<(i64, i64, i64)>::empty());
        }
    } else if sort_le(a, rev, s[0], x) {
        let t = s.drop_first();
        assert(forall|i: int, j: int|
            0 <= i < j < t.len() ==> sort_le(a, rev, #[trigger] t[i], #[trigger] t[j]));
        lemma_insert_sorted_props(a, rev, x, t);
        let rt = insert_sorted(a, rev, x, t);
        assert(r == seq![s[0]] + rt);
        assert(r.len() == s.len() + 1);
        assert forall|i: int, j: int| 0 <= i < j < r.len() implies sort_le(a, rev, r[i], r[j]) by {
            if i == 0 {
                assert(r[0] == s[0]);
                assert(r[j] == rt[j - 1]);
                if j - 1 < t.len() + 1 {
                    // r[j] is either x or an element of t; both follow s[0].
                    assert(rt.to_multiset().contains(rt[j - 1]));
                    assert(t.to_multiset().insert(x).contains(rt[j - 1]));
                    if rt[j - 1] == x {
                    } else {
                        assert(t.to_multiset().contains(rt[j - 1]));
                        assert(t.contains(rt[j - 1]));
                        let w = choose|w: int| 0 <= w < t.len() && t[w] == rt[j - 1];
                        assert(sort_le(a, rev, s[0], t[w]));
                    }
                }
            } else {
                assert(r[i] == rt[i - 1] && r[j] == rt[j - 1]);
            }
        }
        assert(r.to_multiset() =~= s.to_multiset().insert(x)) by {
            vstd::seq_lib::lemma_multiset_commutative(seq![s[0]], rt);
            vstd::seq_lib::lemma_multiset_commutative(seq![s[0]], t);
            assert(seq![s[0]] + t =~= s);
            lemma_singleton_multiset(s[0]);
            assert(rt.to_multiset() == t.to_multiset().insert(x));
        }
    } else {
        assert(r == seq![x] + s);
        assert forall|i: int, j: int| 0 <= i < j < r.len() implies sort_le(a, rev, r[i], r[j]) by {
            if i == 0 {
                assert(r[0] == x);
                assert(r[j] == s[j - 1]);
                assert(!sort_le(a, rev, s[0], x));
                if j - 1 > 0 {
                    assert(sort_le(a, rev, s[0], s[j - 1]));
                }
            } else {
                assert(r[i] == s[i - 1] && r[j] == s[j - 1]);
            }
        }
        assert(r.to_multiset() =~= s.to_multiset().insert(x)) by {
            vstd::seq_lib::lemma_multiset_commutative(seq![x], s);
            lemma_singleton_multiset(x);
        }
    }
}

/// A one-element sequence's multiset is the singleton.
proof fn lemma_singleton_multiset(x: (i64, i64, i64))
    ensures
        seq![x].to_multiset() == Multiset::<(i64, i64, i64)>::empty().insert(x),
{
    let e = Seq::<(i64, i64, i64)>::empty();
    e.to_multiset_ensures();
    assert(e.push(x) =~= seq![x]);
    assert(e.to_multiset() =~= Multiset::<(i64, i64, i64)>::empty()) by {
        assert(forall|a: (i64, i64, i64)| !e.contains(a));
    }
}

/// The sort's result is sorted and holds exactly the input's elements.
pub proof fn lemma_sort_spec_props(a: SortAxis, rev: bool, s: Seq<(i64, i64, i64)>)
    ensures
        sort_spec(a, rev, s).len() == s.len(),
        forall|i: int, j: int|
            0 <= i < j < sort_spec(a, rev, s).len() ==> sort_le(
                a,
                rev,
                sort_spec(a, rev, s)[i],
                sort_spec(a, rev, s)[j],
            ),
        sort_spec(a, rev, s).to_multiset() == s.to_multiset(),
    decreases s.len(),
{
    if s.len() == 0 {
        assert(s =~= Seq::<(i64, i64, i64)>::empty());
    } else {
        let t = s.drop_last();
        lemma_sort_spec_props(a, rev, t);
        lemma_insert_sorted_props(a, rev, s.last(), sort_spec(a, rev, t));
        assert(s.to_multiset() =~= t.to_multiset().insert(s.last())) by {
            vstd::seq_lib::lemma_multiset_commutative(t, seq![s.last()]);
            assert(t + seq![s.last()] =~= s);
            lemma_singleton_multiset(s.last());
        }
        assert(sort_spec(a, rev, s).to_multiset() =~= s.to_multiset()) by {
            assert(sort_spec(a, rev, s).to_multiset() == sort_spec(a, rev, t).to_multiset().insert(
                s.last(),
            ));
            assert(sort_spec(a, rev, t).to_multiset() == t.to_multiset());
        }
    }
}

/// The ordering, executably.
fn sort_le_exec(a: SortAxis, rev: bool, u: (i64, i64, i64), v: (i64, i64, i64)) -> (r: bool)
    ensures
        r == sort_le(a, rev, u, v),
{
    match a {
        SortAxis::X => if rev {
            u.0 >= v.0
        } else {
            u.0 <= v.0
        },
        SortAxis::Y => if rev {
            u.1 >= v.1
        } else {
            u.1 <= v.1
        },
        SortAxis::Z => if rev {
            u.2 >= v.2
        } else {
            u.2 <= v.2
        },
    }
}

/// Stably sorts a coordinate list by one axis, ascending or descending.
pub fn sort_by_axis(list: &Vec<(i64, i64, i64)>, axis: SortAxis, reverse: bool) -> (r: Vec<
    (i64, i64, i64),
>)
    ensures
        r@ == sort_spec(axis, reverse, list@),
{
    let mut acc: Vec<(i64, i64, i64)> = Vec::new();
    let mut i: usize = 0;
    let n = list.len();
    while i < n
        invariant
            i <= n,
            n == list@.len(),
            acc@ == sort_spec(axis, reverse, list@.take(i as int)),
        decreases n - i,
    {
        let x = list[i];
        let m = acc.len();
        let mut j: usize = 0;
        while j < m && sort_le_exec(axis, reverse, acc[j], x)
            invariant
                j <= m,
                m == acc@.len(),
                forall|q: int| 0 <= q < j ==> sort_le(axis, reverse, #[trigger] acc@[q], x),
            decreases m - j,
        {
            j += 1;
        }
        proof {
            lemma_insert_at(axis, reverse, x, acc@, j as int);
        }
        acc.insert(j, x);
        proof {
            assert(acc@ =~= sort_spec(axis, reverse, list@.take(i as int)).take(j as int) + seq![x]
                + sort_spec(axis, reverse, list@.take(i as int)).skip(j as int));
            assert(list@.take(i + 1).drop_last() == list@.take(i as int));
            assert(list@.take(i + 1).last() == list@[i as int]);
        }
        i += 1;
    }
    proof {
        assert(list@.take(n as int) == list@);
    }
    acc
}

/// Inserting at the first position whose element may not stay before `x`
/// is exactly the stable insertion.
proof fn lemma_insert_at(
    a: SortAxis,
    rev: bool,
    x: (i64, i64, i64),
    s: Seq<(i64, i64, i64)>,
    j: int,
)
    requires
        0 <= j <= s.len(),
        forall|q: int| 0 <= q < j ==> sort_le(a, rev, #[trigger] s[q], x),
        j < s.len() ==> !sort_le(a, rev, s[j], x),
    ensures
        insert_sorted(a, rev, x, s) == s.take(j) + seq![x] + s.skip(j),
    decreases s.len(),
{
    if s.len() == 0 {
        assert(insert_sorted(a, rev, x, s) =~= s.take(0) + seq![x] + s.skip(0));
    } else if j == 0 {
        assert(insert_sorted(a, rev, x, s) == seq![x] + s);
        assert(seq![x] + s =~= s.take(0) + seq![x] + s.skip(0));
    } else {
        let t = s.drop_first();
        assert(sort_le(a, rev, s[0], x));
        assert forall|q: int| 0 <= q < j - 1 implies sort_le(a, rev, #[trigger] t[q], x) by {
            assert(t[q] == s[q + 1]);
        }
        if j - 1 < t.len() {
            assert(t[j - 1] == s[j]);
        }
        lemma_insert_at(a, rev, x, t, j - 1);
        assert(insert_sorted(a, rev, x, s) == seq![s[0]] + (t.take(j - 1) + seq![x] + t.skip(j
            - 1)));
        assert(seq![s[0]] + (t.take(j - 1) + seq![x] + t.skip(j - 1)) =~= s.take(j) + seq![x]
            + s.skip(j));
    }
}

} // verus!
