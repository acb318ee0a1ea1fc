//! Stable sorting of status entries by path.

use vstd::prelude::*;
use crate::order::{
    path_le,
    string_le,
    lemma_path_le_total,
    lemma_path_le_transitive,
    lemma_path_le_reflexive,
};
use crate::status::{EntryView, StatusEntry, entry_views};

verus! {

/// `x` put into `s` after every entry whose path is at most its own, scanning
/// from the end: into a sorted `s`, this keeps it sorted and keeps equal paths
/// in the order they came.
pub open spec fn insert_by_path(s: Seq<EntryView>, x: EntryView) -> Seq<EntryView>
    decreases s.len(),
{
    if s.len() == 0 {
        seq![x]
    } else if path_le(s.last().1, x.1) {
        s.push(x)
    } else {
        insert_by_path(s.drop_last(), x).push(s.last())
    }
}

/// The stable sort of `s` by path: what `slice::sort` on entries ordered by
/// their paths gives.
pub open spec fn sort_by_path(s: Seq<EntryView>) -> Seq<EntryView>
    decreases s.len(),
{
    if s.len() == 0 {
        s
    } else {
        insert_by_path(sort_by_path(s.drop_last()), s.last())
    }
}

/// The paths of `s` ascend.
pub open spec fn sorted_by_path(s: Seq<EntryView>) -> bool {
    forall|i: int, j: int| 0 <= i < j < s.len() ==> path_le(#[trigger] s[i].1, #[trigger] s[j].1)
}

/// Where the scan from the end stops, the entry goes in.
pub proof fn lemma_insert_at(t: Seq<EntryView>, x: EntryView, p: int)
    requires
        0 <= p <= t.len(),
        forall|j: int| p <= j < t.len() ==> !path_le(#[trigger] t[j].1, x.1),
        p == 0 || path_le(t[p - 1].1, x.1),
    ensures
        insert_by_path(t, x) == t.take(p).push(x) + t.skip(p),
    decreases t.len(),
{
    if t.len() == p {
        assert(t.take(p) =~= t);
        assert(t.skip(p) =~= Seq::<EntryView>::empty());
        assert(t.take(p).push(x) + t.skip(p) =~= t.push(x));
    } else {
        assert(!path_le(t.last().1, x.1));
        let u = t.drop_last();
        assert forall|j: int| p <= j < u.len() implies !path_le(#[trigger] u[j].1, x.1) by {
            assert(u[j] == t[j]);
        }
        lemma_insert_at(u, x, p);
        assert(u.take(p) =~= t.take(p));
        assert((u.take(p).push(x) + u.skip(p)).push(t.last()) =~= t.take(p).push(x) + t.skip(p));
    }
}

/// Inserting keeps the entries: those of `t` and `x`.
pub proof fn lemma_insert_multiset(t: Seq<EntryView>, x: EntryView)
    ensures
        insert_by_path(t, x).to_multiset() == t.to_multiset().insert(x),
        insert_by_path(t, x).len() == t.len() + 1,
    decreases t.len(),
{
    broadcast use vstd::seq_lib::group_to_multiset_ensures;

    if t.len() == 0 {
        assert(seq![x] =~= Seq::<EntryView>::empty().push(x));
    } else if path_le(t.last().1, x.1) {
    } else {
        lemma_insert_multiset(t.drop_last(), x);
        assert(t.drop_last().push(t.last()) =~= t);
        assert(t.to_multiset() == t.drop_last().to_multiset().insert(t.last()));
        assert(t.to_multiset().insert(x) =~= t.drop_last().to_multiset().insert(x).insert(
            t.last(),
        ));
    }
}

/// Inserting into a sorted sequence keeps it sorted.
pub proof fn lemma_insert_sorted(t: Seq<EntryView>, x: EntryView)
    requires
        sorted_by_path(t),
    ensures
        sorted_by_path(insert_by_path(t, x)),
    decreases t.len(),
{
    broadcast use vstd::seq_lib::group_to_multiset_ensures;

    let r = insert_by_path(t, x);
    if t.len() == 0 {
    } else if path_le(t.last().1, x.1) {
        assert forall|i: int, j: int| 0 <= i < j < r.len() implies path_le(
            #[trigger] r[i].1,
            #[trigger] r[j].1,
        ) by {
            if j == r.len() - 1 {
                if i < t.len() - 1 {
                    assert(path_le(t[i].1, t[t.len() - 1].1));
                    lemma_path_le_transitive(t[i].1, t.last().1, x.1);
                }
            } else {
                assert(path_le(t[i].1, t[j].1));
            }
        }
    } else {
        let u = t.drop_last();
        assert(sorted_by_path(u)) by {
            assert forall|i: int, j: int| 0 <= i < j < u.len() implies path_le(
                #[trigger] u[i].1,
                #[trigger] u[j].1,
            ) by {
                assert(u[i] == t[i] && u[j] == t[j]);
            }
        }
        lemma_insert_sorted(u, x);
        lemma_insert_multiset(u, x);
        lemma_path_le_total(t.last().1, x.1);
        let v = insert_by_path(u, x);
        assert forall|i: int, j: int| 0 <= i < j < r.len() implies path_le(
            #[trigger] r[i].1,
            #[trigger] r[j].1,
        ) by {
            if j == r.len() - 1 {
                assert(r[j] == t.last());
                assert(r[i] == v[i]);
                assert(v.to_multiset().count(v[i]) > 0);
                assert(u.to_multiset().insert(x).count(v[i]) > 0);
                if v[i] != x {
                    assert(u.to_multiset().count(v[i]) > 0);
                    assert(u.contains(v[i]));
                    let k = choose|k: int| 0 <= k < u.len() && u[k] == v[i];
                    assert(path_le(t[k].1, t[t.len() - 1].1));
                } else {
                    assert(path_le(x.1, t.last().1));
                }
            } else {
                assert(r[i] == v[i] && r[j] == v[j]);
            }
        }
    }
}

/// The sort gives a sorted sequence of the same entries.
pub proof fn lemma_sort_by_path(s: Seq<EntryView>)
    ensures
        sorted_by_path(sort_by_path(s)),
        sort_by_path(s).to_multiset() == s.to_multiset(),
        sort_by_path(s).len() == s.len(),
    decreases s.len(),
{
    broadcast use vstd::seq_lib::group_to_multiset_ensures;

    if s.len() > 0 {
        lemma_sort_by_path(s.drop_last());
        lemma_insert_sorted(sort_by_path(s.drop_last()), s.last());
        lemma_insert_multiset(sort_by_path(s.drop_last()), s.last());
        assert(s.drop_last().push(s.last()) =~= s);
    }
}

/// The entries with path `p`, in order.
pub open spec fn with_path(s: Seq<EntryView>, p: Seq<char>) -> Seq<EntryView> {
    s.filter(|e: EntryView| e.1 == p)
}

/// Inserting `x` puts it after every entry that has its path.
proof fn lemma_insert_with_path(t: Seq<EntryView>, x: EntryView, p: Seq<char>)
    ensures
        with_path(insert_by_path(t, x), p) == (if x.1 == p {
            with_path(t, p).push(x)
        } else {
            with_path(t, p)
        }),
    decreases t.len(),
{
    reveal(Seq::filter);
    if t.len() == 0 {
        assert(seq![x].drop_last() =~= t);
        assert(seq![x].last() == x);
    } else if path_le(t.last().1, x.1) {
        assert(t.push(x).drop_last() =~= t);
    } else {
        let u = t.drop_last();
        lemma_insert_with_path(u, x, p);
        lemma_path_le_reflexive(x.1);
        assert(t.last().1 != x.1);
        let v = insert_by_path(u, x);
        assert(v.push(t.last()).drop_last() =~= v);
        assert(v.push(t.last()).last() == t.last());
    }
}

/// The sort is stable: the entries that share a path come out in the order
/// they came in.
pub proof fn lemma_sort_stable(s: Seq<EntryView>, p: Seq<char>)
    ensures
        with_path(sort_by_path(s), p) == with_path(s, p),
    decreases s.len(),
{
    reveal(Seq::filter);
    if s.len() > 0 {
        lemma_sort_stable(s.drop_last(), p);
        lemma_insert_with_path(sort_by_path(s.drop_last()), s.last(), p);
    }
}

/// Sorts entries by path, stably, as `slice::sort` does with entries that
/// compare by their paths.
pub fn sort_entries(entries: Vec<StatusEntry>) -> (res: Vec<StatusEntry>)
    ensures
        entry_views(res@) == sort_by_path(entry_views(entries@)),
{
    let ghost input = entry_views(entries@);
    let mut rest = entries;
    let mut out: Vec<StatusEntry> = Vec::new();
    let ghost mut k: int = 0;
    assert(input.take(0) =~= Seq::<EntryView>::empty());
    assert(input.skip(0) =~= input);
    while rest.len() > 0
        invariant
            0 <= k <= input.len(),
            entry_views(rest@) == input.skip(k),
            entry_views(out@) == sort_by_path(input.take(k)),
        decreases rest@.len(),
    {
        let ghost old_rest = entry_views(rest@);
        assert(old_rest.len() == rest@.len());
        assert(old_rest[0] == input.skip(k)[0]);
        let x = rest.remove(0);
        let ghost t = entry_views(out@);
        assert(x@ == input[k]);
        assert(entry_views(rest@) =~= old_rest.drop_first());
        assert(input.skip(k).drop_first() =~= input.skip(k + 1));
        let mut p = out.len();
        while p > 0 && !string_le(&out[p - 1].path, &x.path)
            invariant
                p <= out@.len(),
                t == entry_views(out@),
                forall|j: int| p <= j < t.len() ==> !path_le(#[trigger] t[j].1, x@.1),
            decreases p,
        {
            p -= 1;
        }
        proof {
            lemma_insert_at(t, x@, p as int);
            assert(input.take(k + 1).drop_last() =~= input.take(k));
        }
        out.insert(p, x);
        assert(entry_views(out@) =~= t.take(p as int).push(x@) + t.skip(p as int));
        proof {
            k = k + 1;
        }
    }
    assert(input.take(k) =~= input);
    out
}

} // verus!
