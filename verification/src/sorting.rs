//! The order in which a group lists its workspaces: by their coordinates.
//!
//! Coordinates are compared place by place; the first place where two tuples
//! differ decides. Workspaces of which neither comes before the other keep
//! the order that they had.
use vstd::prelude::*;
use crate::workspace::{workspace_views, Workspace, WorkspaceView};

verus! {

/// The place `k` decides that the coordinate tuple `a` comes before `b`: both
/// have a component there, that of `a` is the smaller, and before that place
/// the two tuples are the same.
pub open spec fn decides(a: Seq<u32>, b: Seq<u32>, k: int) -> bool {
    0 <= k < a.len() && k < b.len() && a[k] < b[k] && a.subrange(0, k) == b.subrange(0, k)
}

/// The coordinate tuple `a` comes before `b`: at the first place where both
/// have a component and the components differ, that of `a` is the smaller.
/// Of two tuples of which one begins the other, neither comes before the
/// other.
pub open spec fn precedes(a: Seq<u32>, b: Seq<u32>) -> bool {
    exists|k: int| decides(a, b, k)
}

/// Where a workspace goes into a list that is in order: behind the last
/// workspace that it does not come before.
pub open spec fn insertion_point(s: Seq<WorkspaceView>, w: WorkspaceView) -> int
    decreases s.len(),
{
    if s.len() > 0 && precedes(w.coordinates, s.last().coordinates) {
        insertion_point(s.drop_last(), w)
    } else {
        s.len() as int
    }
}

/// The list in the order of the coordinates: each workspace in turn goes
/// behind the last of those before it that it does not come before. Workspaces
/// of which neither comes before the other keep their order.
pub open spec fn sorted(s: Seq<WorkspaceView>) -> Seq<WorkspaceView>
    decreases s.len(),
{
    if s.len() == 0 {
        s
    } else {
        let head = sorted(s.drop_last());
        head.insert(insertion_point(head, s.last()), s.last())
    }
}

/// No workspace of the list comes before one that stands earlier in it.
pub open spec fn in_order(s: Seq<WorkspaceView>) -> bool {
    forall|i: int, j: int|
        0 <= i < j < s.len() ==> !precedes(
            (#[trigger] s[j]).coordinates,
            (#[trigger] s[i]).coordinates,
        )
}

/// No two workspaces of the list belong to one handle.
pub open spec fn list_distinct(ws: Seq<WorkspaceView>) -> bool {
    forall|a: int, b: int|
        0 <= a < b < ws.len() ==> (#[trigger] ws[a]).workspace_handle != (
        #[trigger] ws[b]).workspace_handle
}

/// Sorting rearranges: the sorted list is as long as the list, each of its
/// workspaces is one of the list's, and it has no duplicates where the list
/// has none.
pub proof fn lemma_sorted_rearranges(s: Seq<WorkspaceView>)
    ensures
        sorted(s).len() == s.len(),
        forall|j: int| 0 <= j < s.len() ==> s.contains(#[trigger] sorted(s)[j]),
        forall|j: int| 0 <= j < s.len() ==> sorted(s).contains(#[trigger] s[j]),
        list_distinct(s) ==> list_distinct(sorted(s)),
    decreases s.len(),
{
    if s.len() > 0 {
        let init = s.drop_last();
        let head = sorted(init);
        let w = s.last();
        lemma_sorted_rearranges(init);
        lemma_insertion_point(head, w);
        let k = insertion_point(head, w);
        let out = head.insert(k, w);
        assert(out == sorted(s));
        assert forall|j: int| 0 <= j < s.len() implies s.contains(#[trigger] out[j]) by {
            if j == k {
                assert(s[s.len() - 1] == w);
            } else {
                let j0 = if j < k { j } else { j - 1 };
                assert(out[j] == head[j0]);
                assert(init.contains(head[j0]));
                let m = choose|m: int| 0 <= m < init.len() && init[m] == head[j0];
                assert(s[m] == head[j0]);
            }
        }
        assert forall|j: int| 0 <= j < s.len() implies out.contains(#[trigger] s[j]) by {
            if j == s.len() - 1 {
                assert(out[k] == w);
            } else {
                assert(init[j] == s[j]);
                assert(head.contains(init[j]));
                let m = choose|m: int| 0 <= m < head.len() && head[m] == init[j];
                let m1 = if m < k { m } else { m + 1 };
                assert(out[m1] == head[m]);
            }
        }
        if list_distinct(s) {
            assert(list_distinct(init)) by {
                assert forall|a: int, b: int|
                    0 <= a < b < init.len() implies (#[trigger] init[a]).workspace_handle
                    != (#[trigger] init[b]).workspace_handle by {
                    assert(init[a] == s[a] && init[b] == s[b]);
                }
            }
            assert forall|a: int, b: int|
                0 <= a < b < out.len() implies (#[trigger] out[a]).workspace_handle
                != (#[trigger] out[b]).workspace_handle by {
                let a0 = if a < k { a } else { a - 1 };
                let b0 = if b < k { b } else { b - 1 };
                if a == k || b == k {
                    let o = if a == k { b0 } else { a0 };
                    assert(init.contains(head[o]));
                    let m = choose|m: int| 0 <= m < init.len() && init[m] == head[o];
                    assert(s[m].workspace_handle != s[s.len() - 1].workspace_handle);
                } else {
                    assert(out[a] == head[a0] && out[b] == head[b0]);
                    assert(head[a0].workspace_handle != head[b0].workspace_handle);
                }
            }
        }
    }
}

/// All the workspaces of the list have coordinates of one length.
pub open spec fn same_dimension(s: Seq<WorkspaceView>) -> bool {
    forall|i: int, j: int|
        0 <= i < s.len() && 0 <= j < s.len() ==> (#[trigger] s[i]).coordinates.len() == (
        #[trigger] s[j]).coordinates.len()
}

/// No workspace of the list comes before the one that stands just before it.
pub open spec fn neighbours_in_order(s: Seq<WorkspaceView>) -> bool {
    forall|i: int|
        0 <= i < s.len() - 1 ==> !precedes(s[i + 1].coordinates, (#[trigger] s[i]).coordinates)
}

/// The test that a workspace has the coordinates `c`.
pub open spec fn has_coordinates(c: Seq<u32>) -> spec_fn(WorkspaceView) -> bool {
    |w: WorkspaceView| w.coordinates == c
}

/// Of two tuples at most one comes before the other, and none comes before
/// itself.
pub proof fn lemma_precedes_one_way(a: Seq<u32>, b: Seq<u32>)
    ensures
        precedes(a, b) ==> !precedes(b, a),
        !precedes(a, a),
{
    if precedes(a, b) && precedes(b, a) {
        let k1 = choose|k: int| decides(a, b, k);
        let k2 = choose|k: int| decides(b, a, k);
        if k1 < k2 {
            assert(a[k1] == a.subrange(0, k2)[k1]);
            assert(b[k1] == b.subrange(0, k2)[k1]);
        } else if k2 < k1 {
            assert(a[k2] == a.subrange(0, k1)[k2]);
            assert(b[k2] == b.subrange(0, k1)[k2]);
        }
    }
    assert forall|k: int| !decides(a, a, k) by {}
}

/// Up to the place `k`, two tuples are the same or there is a first place
/// where they differ. The result is that place, or `k + 1` where they are the
/// same.
proof fn lemma_first_difference(a: Seq<u32>, b: Seq<u32>, k: int) -> (j: int)
    requires
        0 <= k < a.len(),
        k < b.len(),
    ensures
        0 <= j <= k + 1,
        a.subrange(0, j) == b.subrange(0, j),
        j <= k ==> a[j] != b[j],
    decreases k,
{
    let j = if k == 0 {
        0
    } else {
        lemma_first_difference(a, b, k - 1)
    };
    if j < k {
        j
    } else {
        assert(a.subrange(0, k) =~= b.subrange(0, k)) by {
            if k == 0 {
            }
        }
        if a[k] != b[k] {
            k
        } else {
            assert(a.subrange(0, k + 1) =~= a.subrange(0, k).push(a[k]));
            assert(b.subrange(0, k + 1) =~= b.subrange(0, k).push(b[k]));
            k + 1
        }
    }
}

/// Among tuples of one length, not to come before is handed on: where `a`
/// does not come before `b`, nor `b` before `c`, `a` does not come before
/// `c`.
pub proof fn lemma_not_before_is_handed_on(a: Seq<u32>, b: Seq<u32>, c: Seq<u32>)
    requires
        a.len() == b.len(),
        b.len() == c.len(),
        !precedes(a, b),
        !precedes(b, c),
    ensures
        !precedes(a, c),
{
    if precedes(a, c) {
        let k = choose|k: int| decides(a, c, k);
        let j = lemma_first_difference(a, b, k);
        if j > k {
            assert(b[k] == b.subrange(0, k + 1)[k]);
            assert(a[k] == a.subrange(0, k + 1)[k]);
            assert(b.subrange(0, k) =~= c.subrange(0, k)) by {
                assert forall|m: int| 0 <= m < k implies b.subrange(0, k)[m] == c.subrange(
                    0,
                    k,
                )[m] by {
                    assert(b[m] == b.subrange(0, k + 1)[m]);
                    assert(a[m] == a.subrange(0, k + 1)[m]);
                    assert(a[m] == a.subrange(0, k)[m]);
                    assert(c[m] == c.subrange(0, k)[m]);
                }
            }
            assert(decides(b, c, k));
        } else {
            if a[j] < b[j] {
                assert(decides(a, b, j));
            } else {
                assert(b.subrange(0, j) =~= c.subrange(0, j)) by {
                    assert forall|m: int| 0 <= m < j implies b.subrange(0, j)[m] == c.subrange(
                        0,
                        j,
                    )[m] by {
                        assert(a[m] == a.subrange(0, j)[m]);
                        assert(a[m] == a.subrange(0, k)[m]);
                        assert(c[m] == c.subrange(0, k)[m]);
                    }
                }
                if j < k {
                    assert(a[j] == a.subrange(0, k)[j]);
                    assert(c[j] == c.subrange(0, k)[j]);
                }
                assert(decides(b, c, j));
            }
        }
    }
}

/// The insertion point parts the list: the workspace comes before every one
/// from the point on, and does not come before the one just ahead of the
/// point.
pub proof fn lemma_insertion_point(s: Seq<WorkspaceView>, w: WorkspaceView)
    ensures
        0 <= insertion_point(s, w) <= s.len(),
        forall|m: int|
            insertion_point(s, w) <= m < s.len() ==> precedes(
                w.coordinates,
                (#[trigger] s[m]).coordinates,
            ),
        insertion_point(s, w) > 0 ==> !precedes(
            w.coordinates,
            s[insertion_point(s, w) - 1].coordinates,
        ),
    decreases s.len(),
{
    if s.len() > 0 && precedes(w.coordinates, s.last().coordinates) {
        let init = s.drop_last();
        lemma_insertion_point(init, w);
        let k = insertion_point(init, w);
        assert forall|m: int| k <= m < s.len() implies precedes(
            w.coordinates,
            (#[trigger] s[m]).coordinates,
        ) by {
            if m < s.len() - 1 {
                assert(init[m] == s[m]);
            }
        }
        if k > 0 {
            assert(init[k - 1] == s[k - 1]);
        }
    }
}

/// In a sorted list no workspace comes before the one that stands just before
/// it, whatever the coordinates are.
pub proof fn lemma_sorted_neighbours(s: Seq<WorkspaceView>)
    ensures
        neighbours_in_order(sorted(s)),
    decreases s.len(),
{
    if s.len() > 0 {
        let head = sorted(s.drop_last());
        let w = s.last();
        lemma_sorted_neighbours(s.drop_last());
        lemma_insertion_point(head, w);
        let k = insertion_point(head, w);
        let out = head.insert(k, w);
        assert forall|i: int| 0 <= i < out.len() - 1 implies !precedes(
            out[i + 1].coordinates,
            (#[trigger] out[i]).coordinates,
        ) by {
            if i + 1 < k {
                assert(out[i] == head[i] && out[i + 1] == head[i + 1]);
            } else if i + 1 == k {
                assert(out[i] == head[k - 1]);
            } else if i == k {
                assert(out[i + 1] == head[k]);
                lemma_precedes_one_way(w.coordinates, head[k].coordinates);
            } else {
                assert(out[i] == head[i - 1] && out[i + 1] == head[i]);
                assert(!precedes(head[i - 1 + 1].coordinates, head[i - 1].coordinates));
            }
        }
    }
}

/// Where all coordinates have one length, the sorted list is in order
/// throughout: no workspace comes before any that stands earlier.
pub proof fn lemma_sorted_in_order(s: Seq<WorkspaceView>)
    requires
        same_dimension(s),
    ensures
        in_order(sorted(s)),
        same_dimension(sorted(s)),
    decreases s.len(),
{
    if s.len() > 0 {
        let init = s.drop_last();
        let head = sorted(init);
        let w = s.last();
        assert(same_dimension(init)) by {
            assert forall|i: int, j: int| 0 <= i < init.len() && 0 <= j < init.len() implies (
            #[trigger] init[i]).coordinates.len() == (#[trigger] init[j]).coordinates.len() by {
                assert(init[i] == s[i] && init[j] == s[j]);
            }
        }
        lemma_sorted_in_order(init);
        lemma_sorted_rearranges(init);
        lemma_sorted_rearranges(s);
        lemma_insertion_point(head, w);
        let k = insertion_point(head, w);
        let out = head.insert(k, w);
        let n = w.coordinates.len();
        assert(w == s[s.len() - 1]);
        assert forall|i: int| 0 <= i < out.len() implies (#[trigger] out[i]).coordinates.len()
            == n by {
            assert(s.contains(out[i]));
            let m = choose|m: int| 0 <= m < s.len() && s[m] == out[i];
            assert(s[m].coordinates.len() == s[s.len() - 1].coordinates.len());
        }
        assert forall|i: int, j: int| 0 <= i < j < out.len() implies !precedes(
            (#[trigger] out[j]).coordinates,
            (#[trigger] out[i]).coordinates,
        ) by {
            if j == k {
                assert(out[i] == head[i]);
                assert(out[k - 1] == head[k - 1]);
                if i < k - 1 {
                    assert(!precedes(head[k - 1].coordinates, head[i].coordinates));
                    lemma_not_before_is_handed_on(
                        w.coordinates,
                        head[k - 1].coordinates,
                        head[i].coordinates,
                    );
                }
            } else if i == k {
                assert(out[j] == head[j - 1]);
                lemma_precedes_one_way(w.coordinates, head[j - 1].coordinates);
            } else {
                let i0 = if i < k { i } else { i - 1 };
                let j0 = if j < k { j } else { j - 1 };
                assert(out[i] == head[i0] && out[j] == head[j0]);
                assert(!precedes(head[j0].coordinates, head[i0].coordinates));
            }
        }
    }
}

/// A filter whose test no item of the list meets keeps nothing.
proof fn lemma_filter_keeps_none(s: Seq<WorkspaceView>, test: spec_fn(WorkspaceView) -> bool)
    requires
        forall|i: int| 0 <= i < s.len() ==> !test(#[trigger] s[i]),
    ensures
        s.filter(test) == Seq::<WorkspaceView>::empty(),
    decreases s.len(),
{
    reveal(Seq::filter);
    if s.len() > 0 {
        let init = s.drop_last();
        assert forall|i: int| 0 <= i < init.len() implies !test(#[trigger] init[i]) by {
            assert(init[i] == s[i]);
        }
        lemma_filter_keeps_none(init, test);
        assert(!test(s[s.len() - 1]));
    }
}

/// Sorting keeps workspaces with the same coordinates in the order that they
/// had: for any coordinates, the workspaces that have them are the same in
/// the sorted list as in the list, and in the same order.
pub proof fn lemma_sorted_is_stable(s: Seq<WorkspaceView>, c: Seq<u32>)
    ensures
        sorted(s).filter(has_coordinates(c)) == s.filter(has_coordinates(c)),
    decreases s.len(),
{
    reveal(Seq::filter);
    if s.len() > 0 {
        let test = has_coordinates(c);
        let init = s.drop_last();
        let head = sorted(init);
        let w = s.last();
        lemma_sorted_is_stable(init, c);
        lemma_insertion_point(head, w);
        let k = insertion_point(head, w);
        let out = head.insert(k, w);
        let front = head.subrange(0, k);
        let back = head.subrange(k, head.len() as int);
        assert(head =~= front + back);
        assert(out =~= front + seq![w] + back);
        Seq::filter_distributes_over_add(front, back, test);
        Seq::filter_distributes_over_add(front + seq![w], back, test);
        Seq::filter_distributes_over_add(front, seq![w], test);
        assert(seq![w].drop_last() =~= Seq::<WorkspaceView>::empty());
        assert(seq![w].last() == w);
        if test(w) {
            assert forall|i: int| 0 <= i < back.len() implies !test(#[trigger] back[i]) by {
                assert(back[i] == head[k + i]);
                lemma_precedes_one_way(w.coordinates, w.coordinates);
            }
            lemma_filter_keeps_none(back, test);
            assert(seq![w].filter(test) =~= seq![w]);
            assert(out.filter(test) =~= head.filter(test).push(w));
        } else {
            assert(!test(seq![w][0]));
            lemma_filter_keeps_none(seq![w], test);
            assert(out.filter(test) =~= head.filter(test));
        }
    }
}

/// Sorting rearranges and no more: the sorted list holds each workspace as
/// many times as the list does.
pub proof fn lemma_sorted_permutes(s: Seq<WorkspaceView>)
    ensures
        sorted(s).to_multiset() == s.to_multiset(),
    decreases s.len(),
{
    broadcast use vstd::seq_lib::group_to_multiset_ensures;

    if s.len() > 0 {
        let init = s.drop_last();
        let head = sorted(init);
        let w = s.last();
        lemma_sorted_permutes(init);
        lemma_insertion_point(head, w);
        let k = insertion_point(head, w);
        let out = head.insert(k, w);
        assert(out.remove(k) =~= head);
        assert(out[k] == w);
        assert(out.to_multiset() =~= head.to_multiset().insert(w));
        assert(init.push(w) =~= s);
        assert(s.to_multiset() =~= init.to_multiset().insert(w));
    }
}

/// Compares two coordinate tuples.
pub fn comes_before(a: &Vec<u32>, b: &Vec<u32>) -> (r: bool)
    ensures
        r == precedes(a@, b@),
{
    let mut k: usize = 0;
    while k < a.len() && k < b.len()
        invariant
            0 <= k <= a@.len(),
            k <= b@.len(),
            a@.subrange(0, k as int) == b@.subrange(0, k as int),
        decreases a@.len() - k,
    {
        if a[k] != b[k] {
            let r = a[k] < b[k];
            proof {
                if !r {
                    assert forall|m: int| !decides(a@, b@, m) by {
                        if decides(a@, b@, m) {
                            if m < k {
                                assert(a@[m] == a@.subrange(0, k as int)[m]);
                                assert(b@[m] == b@.subrange(0, k as int)[m]);
                            } else if m > k {
                                assert(a@[k as int] == a@.subrange(0, m)[k as int]);
                                assert(b@[k as int] == b@.subrange(0, m)[k as int]);
                            }
                        }
                    }
                } else {
                    assert(decides(a@, b@, k as int));
                }
            }
            return r;
        }
        assert(a@.subrange(0, k + 1) =~= a@.subrange(0, k as int).push(a@[k as int]));
        assert(b@.subrange(0, k + 1) =~= b@.subrange(0, k as int).push(b@[k as int]));
        k = k + 1;
    }
    proof {
        assert forall|m: int| !decides(a@, b@, m) by {
            if decides(a@, b@, m) {
                assert(a@[m] == a@.subrange(0, k as int)[m]);
                assert(b@[m] == b@.subrange(0, k as int)[m]);
            }
        }
    }
    false
}

/// Puts a list of workspaces into the order of their coordinates.
pub fn sort_workspaces(v: &mut Vec<Workspace>)
    ensures
        workspace_views(final(v)@) == sorted(workspace_views(old(v)@)),
{
    let ghost before = workspace_views(v@);
    let n: usize = v.len();
    let mut i: usize = 0;
    while i < n
        invariant
            0 <= i <= n,
            n == before.len(),
            v@.len() == n,
            workspace_views(v@).subrange(0, i as int) == sorted(before.subrange(0, i as int)),
            workspace_views(v@).subrange(i as int, n as int) == before.subrange(i as int, n as int),
        decreases n - i,
    {
        let ghost head = workspace_views(v@).subrange(0, i as int);
        let ghost cur = workspace_views(v@);
        let w: Workspace = v.remove(i);
        assert(w@ == cur[i as int]);
        assert(w@ == before.subrange(i as int, n as int)[0]);
        assert(workspace_views(v@).subrange(0, i as int) =~= head);
        assert(head.subrange(0, i as int) =~= head);
        let mut pos: usize = i;
        while pos > 0 && comes_before(&w.coordinates, &v[pos - 1].coordinates)
            invariant
                0 <= pos <= i,
                i < n,
                v@.len() == n - 1,
                workspace_views(v@).subrange(0, i as int) == head,
                insertion_point(head, w@) == insertion_point(head.subrange(0, pos as int), w@),
            decreases pos,
        {
            proof {
                let part = head.subrange(0, pos as int);
                assert(part.last() == workspace_views(v@).subrange(0, i as int)[pos - 1]);
                assert(part.drop_last() =~= head.subrange(0, pos - 1));
            }
            pos = pos - 1;
        }
        proof {
            let part = head.subrange(0, pos as int);
            if pos > 0 {
                assert(part.last() == workspace_views(v@).subrange(0, i as int)[pos - 1]);
            }
            assert(insertion_point(part, w@) == pos);
        }
        let ghost mid = workspace_views(v@);
        v.insert(pos, w);
        proof {
            let now = workspace_views(v@);
            let grown = before.subrange(0, i + 1);
            assert(grown.drop_last() =~= before.subrange(0, i as int));
            assert(grown.last() == w@);
            assert(mid =~= cur.remove(i as int));
            assert(now =~= mid.insert(pos as int, w@));
            assert(mid.subrange(0, i as int) =~= head);
            assert(now.subrange(0, i + 1) =~= head.insert(pos as int, w@));
            assert(now.subrange(i + 1, n as int) =~= before.subrange(i + 1, n as int)) by {
                assert forall|k: int| 0 <= k < n - i - 1 implies #[trigger] now.subrange(
                    i + 1,
                    n as int,
                )[k] == before.subrange(i + 1, n as int)[k] by {
                    assert(now[i + 1 + k] == mid[i + k]);
                    assert(mid[i + k] == cur[i + k + 1]);
                    assert(cur[i + k + 1] == cur.subrange(i as int, n as int)[k + 1]);
                }
            }
        }
        i = i + 1;
    }
    assert(workspace_views(v@) =~= workspace_views(v@).subrange(0, n as int));
    assert(before =~= before.subrange(0, n as int));
}

} // verus!
