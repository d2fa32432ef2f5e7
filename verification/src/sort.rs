//! The stable painter's sort used by shading and rasterization.
//!
//! Surviving polygons are ordered by ascending depth key, the sum of their
//! stored (negated) z components rounded to whole world units.  The sort is
//! an insertion sort that places each new element after all elements of
//! equal key, so equal-depth polygons keep their original relative order;
//! its result is pinned exactly by the recursive [`sort_pairs_s`], making
//! the ordering deterministic.

use vstd::prelude::*;
use crate::fixed::SCALE;
use crate::fixed::lemma_rnd_bound;
use crate::fixed::rnd;
use crate::fixed::div_rnd;
use crate::polygon::Polygon;
use crate::polygon::tri_in_range;

verus! {

/// The painter's key of a screen polygon: the negated sum of its stored z
/// components, rounded to the nearest whole world unit.
pub open spec fn depth_key_s(p: Polygon) -> int {
    rnd(-(p.points.a.z + p.points.b.z + p.points.c.z), SCALE as int)
}

/// Insert `x` into `s` after every element whose key is at most `x`'s key.
pub open spec fn insert_sorted_s(x: (i64, Polygon), s: Seq<(i64, Polygon)>) -> Seq<(i64, Polygon)>
    decreases s.len(),
{
    if s.len() == 0 {
        seq![x]
    } else if s[0].0 <= x.0 {
        seq![s[0]] + insert_sorted_s(x, s.subrange(1, s.len() as int))
    } else {
        seq![x] + s
    }
}

/// Stable insertion sort by the cached key, processing left to right.
pub open spec fn sort_pairs_s(s: Seq<(i64, Polygon)>) -> Seq<(i64, Polygon)>
    decreases s.len(),
{
    if s.len() == 0 {
        s
    } else {
        insert_sorted_s(s.last(), sort_pairs_s(s.drop_last()))
    }
}

/// Inserting at the first position whose key exceeds the new key is the
/// recursive insertion.
proof fn lemma_insert_at(x: (i64, Polygon), s: Seq<(i64, Polygon)>, j: int)
    requires
        0 <= j <= s.len(),
        forall|k: int| 0 <= k < j ==> (#[trigger] s[k]).0 <= x.0,
        j < s.len() ==> s[j].0 > x.0,
    ensures
        insert_sorted_s(x, s) == s.subrange(0, j) + seq![x] + s.subrange(j, s.len() as int),
    decreases j,
{
    if j == 0 {
        if s.len() == 0 {
            assert(insert_sorted_s(x, s) == seq![x]);
            assert(s.subrange(0, 0) + seq![x] + s.subrange(0, 0) =~= seq![x]);
        } else {
            assert(insert_sorted_s(x, s) == seq![x] + s);
            assert(s.subrange(0, 0) + seq![x] + s.subrange(0, s.len() as int) =~= seq![x] + s);
        }
    } else {
        let tail = s.subrange(1, s.len() as int);
        lemma_insert_at(x, tail, j - 1);
        assert(tail.subrange(0, j - 1) =~= s.subrange(1, j));
        assert(tail.subrange(j - 1, tail.len() as int) =~= s.subrange(j, s.len() as int));
        assert(insert_sorted_s(x, s) == seq![s[0]] + insert_sorted_s(x, tail));
        assert(seq![s[0]] + (s.subrange(1, j) + seq![x] + s.subrange(j, s.len() as int)) =~= s
            .subrange(0, j) + seq![x] + s.subrange(j, s.len() as int));
    }
}

/// Insertion preserves the multiset of elements.
proof fn lemma_insert_multiset(x: (i64, Polygon), s: Seq<(i64, Polygon)>)
    ensures
        insert_sorted_s(x, s).to_multiset() == s.to_multiset().insert(x),
    decreases s.len(),
{
    broadcast use vstd::seq_lib::group_to_multiset_ensures;

    if s.len() == 0 {
        assert(insert_sorted_s(x, s) =~= Seq::empty().push(x));
        assert(seq![x].to_multiset() == s.to_multiset().insert(x));
    } else if s[0].0 <= x.0 {
        let tail = s.subrange(1, s.len() as int);
        lemma_insert_multiset(x, tail);
        assert(insert_sorted_s(x, s) =~= seq![s[0]] + insert_sorted_s(x, tail));
        assert((seq![s[0]] + insert_sorted_s(x, tail)).drop_first() =~= insert_sorted_s(x, tail));
        lemma_multiset_first(seq![s[0]] + insert_sorted_s(x, tail));
        lemma_multiset_first(s);
        assert(s.drop_first() =~= tail);
    } else {
        assert(insert_sorted_s(x, s) =~= seq![x] + s);
        lemma_multiset_first(seq![x] + s);
        assert((seq![x] + s).drop_first() =~= s);
    }
}

/// A nonempty sequence's multiset is its first element plus the rest.
proof fn lemma_multiset_first(s: Seq<(i64, Polygon)>)
    requires
        s.len() > 0,
    ensures
        s.to_multiset() == s.drop_first().to_multiset().insert(s[0]),
    decreases s.len(),
{
    broadcast use vstd::seq_lib::group_to_multiset_ensures;

    assert(s =~= seq![s[0]] + s.drop_first());
    lemma_multiset_prepend(s[0], s.drop_first());
}

/// Prepending one element inserts it into the multiset.
proof fn lemma_multiset_prepend(x: (i64, Polygon), s: Seq<(i64, Polygon)>)
    ensures
        (seq![x] + s).to_multiset() == s.to_multiset().insert(x),
{
    broadcast use vstd::seq_lib::group_to_multiset_ensures;
    broadcast use vstd::multiset::group_multiset_axioms;

    vstd::seq_lib::lemma_multiset_commutative(seq![x], s);
    assert(seq![x] =~= Seq::empty().push(x));
    assert(seq![x].to_multiset() == Seq::<(i64, Polygon)>::empty().to_multiset().insert(x));
    assert(s.to_multiset().insert(x) =~= seq![x].to_multiset().add(s.to_multiset()));
}

/// The sort is a permutation: it keeps exactly the input elements.
pub proof fn lemma_sort_pairs_multiset(s: Seq<(i64, Polygon)>)
    ensures
        sort_pairs_s(s).to_multiset() == s.to_multiset(),
    decreases s.len(),
{
    broadcast use vstd::seq_lib::group_to_multiset_ensures;

    if s.len() > 0 {
        lemma_sort_pairs_multiset(s.drop_last());
        lemma_insert_multiset(s.last(), sort_pairs_s(s.drop_last()));
        assert(s =~= s.drop_last().push(s.last()));
        assert(s.to_multiset() == s.drop_last().to_multiset().insert(s.last()));
    }
}

/// The sorted sequence is nondecreasing in the cached key.
pub proof fn lemma_sort_pairs_sorted(s: Seq<(i64, Polygon)>)
    ensures
        forall|i: int, j: int|
            0 <= i <= j < sort_pairs_s(s).len() ==> (#[trigger] sort_pairs_s(s)[i]).0 <= (
            #[trigger] sort_pairs_s(s)[j]).0,
    decreases s.len(),
{
    if s.len() > 0 {
        lemma_sort_pairs_sorted(s.drop_last());
        lemma_insert_sorted(s.last(), sort_pairs_s(s.drop_last()));
    }
}

/// Inserting into a nondecreasing sequence keeps it nondecreasing.
proof fn lemma_insert_sorted(x: (i64, Polygon), s: Seq<(i64, Polygon)>)
    requires
        forall|i: int, j: int| 0 <= i <= j < s.len() ==> (#[trigger] s[i]).0 <= (#[trigger] s[j]).0,
    ensures
        forall|i: int, j: int|
            0 <= i <= j < insert_sorted_s(x, s).len() ==> (#[trigger] insert_sorted_s(x, s)[i]).0
                <= (#[trigger] insert_sorted_s(x, s)[j]).0,
    decreases s.len(),
{
    if s.len() == 0 {
    } else if s[0].0 <= x.0 {
        let tail = s.subrange(1, s.len() as int);
        assert(forall|i: int, j: int|
            0 <= i <= j < tail.len() ==> (#[trigger] tail[i]).0 <= (#[trigger] tail[j]).0);
        lemma_insert_sorted(x, tail);
        let r = seq![s[0]] + insert_sorted_s(x, tail);
        assert(insert_sorted_s(x, s) == r);
        assert forall|i: int, j: int| 0 <= i <= j < r.len() implies (#[trigger] r[i]).0 <= (
        #[trigger] r[j]).0 by {
            if i == 0 && j > 0 {
                let it = insert_sorted_s(x, tail);
                assert(r[j] == it[j - 1]);
                lemma_insert_member(x, tail, j - 1);
                if it[j - 1] != x {
                    let k = choose|k: int| 0 <= k < tail.len() && #[trigger] tail[k] == it[j - 1];
                    assert(tail[k] == s[k + 1]);
                    assert(s[0].0 <= s[k + 1].0);
                }
            }
        }
    } else {
        let r = seq![x] + s;
        assert forall|i: int, j: int| 0 <= i <= j < r.len() implies (#[trigger] r[i]).0 <= (
        #[trigger] r[j]).0 by {
            if i == 0 && j > 0 {
                assert(r[j] == s[j - 1]);
                assert(x.0 < s[0].0);
                assert(s[0].0 <= s[j - 1].0);
            }
        }
    }
}

/// Every element of an insertion result is the new element or an element
/// of the old sequence with its position's key floor.
proof fn lemma_insert_member(x: (i64, Polygon), s: Seq<(i64, Polygon)>, i: int)
    requires
        0 <= i < insert_sorted_s(x, s).len(),
    ensures
        insert_sorted_s(x, s)[i] == x || (exists|k: int|
            0 <= k < s.len() && #[trigger] s[k] == insert_sorted_s(x, s)[i]),
    decreases s.len(),
{
    if s.len() == 0 {
    } else if s[0].0 <= x.0 {
        if i > 0 {
            let tail = s.subrange(1, s.len() as int);
            lemma_insert_member(x, tail, i - 1);
            if insert_sorted_s(x, s)[i] != x {
                let k = choose|k: int|
                    0 <= k < tail.len() && #[trigger] tail[k] == insert_sorted_s(x, tail)[i - 1];
                assert(s[k + 1] == insert_sorted_s(x, s)[i]);
            }
        } else {
            assert(s[0] == insert_sorted_s(x, s)[0]);
        }
    } else {
        if i > 0 {
            assert(s[i - 1] == insert_sorted_s(x, s)[i]);
        }
    }
}

/// Stability: among the elements of any one key, the sort keeps the
/// original order exactly.
pub proof fn lemma_sort_pairs_stable(s: Seq<(i64, Polygon)>, key: i64)
    ensures
        sort_pairs_s(s).filter(|p: (i64, Polygon)| p.0 == key) == s.filter(
            |p: (i64, Polygon)| p.0 == key,
        ),
    decreases s.len(),
{
    let pred = |p: (i64, Polygon)| p.0 == key;
    if s.len() > 0 {
        lemma_sort_pairs_stable(s.drop_last(), key);
        lemma_sort_pairs_sorted(s.drop_last());
        lemma_insert_filter(s.last(), sort_pairs_s(s.drop_last()), key);
        assert(s =~= s.drop_last().push(s.last()));
        reveal_with_fuel(Seq::filter, 2);
        assert(s.filter(pred) == if pred(s.last()) {
            s.drop_last().filter(pred).push(s.last())
        } else {
            s.drop_last().filter(pred)
        });
    }
}

/// Inserting appends the new element to its key's subsequence and leaves
/// every other key's subsequence unchanged.
proof fn lemma_insert_filter(x: (i64, Polygon), s: Seq<(i64, Polygon)>, key: i64)
    requires
        forall|i: int, j: int| 0 <= i <= j < s.len() ==> (#[trigger] s[i]).0 <= (#[trigger] s[j]).0,
    ensures
        insert_sorted_s(x, s).filter(|p: (i64, Polygon)| p.0 == key) == if x.0 == key {
            s.filter(|p: (i64, Polygon)| p.0 == key).push(x)
        } else {
            s.filter(|p: (i64, Polygon)| p.0 == key)
        },
    decreases s.len(),
{
    let pred = |p: (i64, Polygon)| p.0 == key;
    reveal_with_fuel(Seq::filter, 2);
    if s.len() == 0 {
        assert(seq![x] =~= Seq::empty().push(x));
        assert(Seq::<(i64, Polygon)>::empty().filter(pred) =~= Seq::empty());
        assert(seq![x].filter(pred) == if pred(x) {
            Seq::empty().push(x)
        } else {
            Seq::<(i64, Polygon)>::empty()
        });
        if x.0 == key {
            assert(s.filter(pred).push(x) =~= Seq::empty().push(x));
        }
    } else if s[0].0 <= x.0 {
        let tail = s.subrange(1, s.len() as int);
        assert(forall|i: int, j: int|
            0 <= i <= j < tail.len() ==> (#[trigger] tail[i]).0 <= (#[trigger] tail[j]).0);
        lemma_insert_filter(x, tail, key);
        lemma_filter_prepend(s[0], insert_sorted_s(x, tail), key);
        lemma_filter_prepend(s[0], tail, key);
        assert(s =~= seq![s[0]] + tail);
        if pred(s[0]) {
            if x.0 == key {
                assert(seq![s[0]] + tail.filter(pred).push(x) =~= (seq![s[0]] + tail.filter(
                    pred,
                )).push(x));
            }
        } else {
            if x.0 == key {
            }
        }
    } else {
        lemma_filter_prepend(x, s, key);
        if x.0 == key {
            assert forall|i: int| 0 <= i < s.len() implies !pred(s[i]) by {
                assert(s[0].0 <= s[i].0);
            }
            lemma_filter_none(s, key);
            assert(s.filter(pred).push(x) =~= seq![x] + s.filter(pred));
        }
    }
}

/// Filtering a sequence none of whose elements match gives the empty
/// sequence.
proof fn lemma_filter_none(s: Seq<(i64, Polygon)>, key: i64)
    requires
        forall|i: int| 0 <= i < s.len() ==> (#[trigger] s[i]).0 != key,
    ensures
        s.filter(|p: (i64, Polygon)| p.0 == key) =~= Seq::empty(),
    decreases s.len(),
{
    reveal_with_fuel(Seq::filter, 2);
    if s.len() > 0 {
        assert(forall|i: int| 0 <= i < s.drop_last().len() ==> (#[trigger] s.drop_last()[i]).0
            != key);
        lemma_filter_none(s.drop_last(), key);
    }
}

/// Filtering distributes over prepending a single element.
proof fn lemma_filter_prepend(x: (i64, Polygon), s: Seq<(i64, Polygon)>, key: i64)
    ensures
        (seq![x] + s).filter(|p: (i64, Polygon)| p.0 == key) == if x.0 == key {
            seq![x] + s.filter(|p: (i64, Polygon)| p.0 == key)
        } else {
            s.filter(|p: (i64, Polygon)| p.0 == key)
        },
    decreases s.len(),
{
    let pred = |p: (i64, Polygon)| p.0 == key;
    reveal_with_fuel(Seq::filter, 2);
    if s.len() == 0 {
        assert(seq![x] + s =~= Seq::empty().push(x));
        assert(Seq::<(i64, Polygon)>::empty().filter(pred) =~= Seq::empty());
        if x.0 == key {
            assert(seq![x] + s.filter(pred) =~= Seq::empty().push(x));
        }
    } else {
        let t = seq![x] + s;
        assert(t.drop_last() =~= seq![x] + s.drop_last());
        lemma_filter_prepend(x, s.drop_last(), key);
        assert(t =~= t.drop_last().push(s.last()));
        if pred(s.last()) {
            if x.0 == key {
                assert(seq![x] + s.drop_last().filter(pred).push(s.last()) =~= (seq![x] + s
                    .drop_last().filter(pred)).push(s.last()));
            }
        }
    }
}

/// The depth key of one screen polygon.
pub fn depth_key(p: &Polygon) -> (k: i64)
    requires
        tri_in_range(p.points, 0x4000_0000),
    ensures
        k == depth_key_s(*p),
{
    let sum = -(p.points.a.z + p.points.b.z + p.points.c.z);
    proof {
        lemma_rnd_bound(sum as int, SCALE as int, 0xc000);
    }
    div_rnd(sum as i128, SCALE as i128) as i64
}

/// Sort key-tagged polygons by ascending key, stably; the result is the
/// unique stable ordering given by [`sort_pairs_s`].
pub fn sort_pairs(items: Vec<(i64, Polygon)>) -> (r: Vec<(i64, Polygon)>)
    ensures
        r@ == sort_pairs_s(items@),
{
    let mut out: Vec<(i64, Polygon)> = Vec::new();
    assert(out@ =~= items@.subrange(0, 0));
    assert(out@ == sort_pairs_s(items@.subrange(0, 0)));
    let n = items.len();
    for idx in 0..n
        invariant
            n == items@.len(),
            out@ == sort_pairs_s(items@.subrange(0, idx as int)),
            out@.len() == idx,
    {
        let x = items[idx];
        let mut j: usize = 0;
        while j < out.len() && out[j].0 <= x.0
            invariant
                0 <= j <= out@.len(),
                forall|k: int| 0 <= k < j ==> (#[trigger] out@[k]).0 <= x.0,
            decreases out@.len() - j,
        {
            j += 1;
        }
        proof {
            lemma_insert_at(x, out@, j as int);
        }
        out.insert(j, x);
        proof {
            assert(out@ =~= sort_pairs_s(items@.subrange(0, idx as int)).subrange(
                0,
                j as int,
            ) + seq![x] + sort_pairs_s(items@.subrange(0, idx as int)).subrange(
                j as int,
                sort_pairs_s(items@.subrange(0, idx as int)).len() as int,
            ));
            let pre = items@.subrange(0, idx as int);
            let cur = items@.subrange(0, idx as int + 1);
            assert(cur.drop_last() =~= pre);
            assert(cur.last() == x);
            assert(out@ == insert_sorted_s(x, sort_pairs_s(pre)));
        }
    }
    proof {
        assert(items@.subrange(0, n as int) =~= items@);
    }
    out
}

} // verus!
