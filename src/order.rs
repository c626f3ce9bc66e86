use vstd::prelude::*;
use crate::contest::{Contest, ContestView, views};

verus! {

/// Places `c` after every element that starts no later than it, keeping the
/// relative order of the others.
pub open spec fn insert_by_start(s: Seq<ContestView>, c: ContestView) -> Seq<ContestView>
    decreases s.len(),
{
    if s.len() == 0 {
        seq![c]
    } else if s.last().start_time <= c.start_time {
        s.push(c)
    } else {
        insert_by_start(s.drop_last(), c).push(s.last())
    }
}

/// Stable ascending order by start time.
pub open spec fn sort_by_start(s: Seq<ContestView>) -> Seq<ContestView>
    decreases s.len(),
{
    if s.len() == 0 {
        s
    } else {
        insert_by_start(sort_by_start(s.drop_last()), s.last())
    }
}

pub open spec fn sorted_by_start(s: Seq<ContestView>) -> bool {
    forall|i: int, j: int| 0 <= i < j < s.len() ==> s[i].start_time <= s[j].start_time
}

proof fn lemma_insert_at(s: Seq<ContestView>, c: ContestView, j: int)
    requires
        0 <= j <= s.len(),
        forall|k: int| j <= k < s.len() ==> s[k].start_time > c.start_time,
        j > 0 ==> s[j - 1].start_time <= c.start_time,
    ensures
        insert_by_start(s, c) == s.insert(j, c),
    decreases s.len(),
{
    if s.len() == 0 {
        assert(s.insert(j, c) =~= seq![c]);
    } else if j == s.len() {
        assert(s.insert(j, c) =~= s.push(c));
    } else {
        let d = s.drop_last();
        lemma_insert_at(d, c, j);
        assert(s.insert(j, c) =~= d.insert(j, c).push(s.last()));
    }
}

proof fn lemma_insert_members(s: Seq<ContestView>, c: ContestView)
    ensures
        insert_by_start(s, c).len() == s.len() + 1,
        forall|x: ContestView| #[trigger] insert_by_start(s, c).contains(x) <==> (s.contains(x) || x == c),
        sorted_by_start(s) ==> sorted_by_start(insert_by_start(s, c)),
    decreases s.len(),
{
    if s.len() == 0 {
        assert(seq![c][0] == c);
    } else if s.last().start_time <= c.start_time {
        assert forall|x: ContestView| #[trigger] s.push(c).contains(x) <==> (s.contains(x) || x == c) by {
            if s.push(c).contains(x) {
                let k = choose|k: int| 0 <= k < s.push(c).len() && s.push(c)[k] == x;
                if k < s.len() {
                    assert(s[k] == x);
                }
            }
            if s.contains(x) {
                let k = choose|k: int| 0 <= k < s.len() && s[k] == x;
                assert(s.push(c)[k] == x);
            }
            if x == c {
                assert(s.push(c)[s.len() as int] == x);
            }
        }
    } else {
        let d = s.drop_last();
        lemma_insert_members(d, c);
        let r = insert_by_start(d, c);
        assert forall|x: ContestView| #[trigger] r.push(s.last()).contains(x) <==> (s.contains(x) || x == c) by {
            if r.push(s.last()).contains(x) {
                let k = choose|k: int| 0 <= k < r.push(s.last()).len() && r.push(s.last())[k] == x;
                if k < r.len() {
                    assert(r[k] == x);
                    assert(r.contains(x));
                    if d.contains(x) {
                        let m = choose|m: int| 0 <= m < d.len() && d[m] == x;
                        assert(s[m] == x);
                    }
                } else {
                    assert(s[s.len() - 1] == x);
                }
            }
            if s.contains(x) {
                let k = choose|k: int| 0 <= k < s.len() && s[k] == x;
                if k < s.len() - 1 {
                    assert(d[k] == x);
                    assert(r.contains(x));
                    let m = choose|m: int| 0 <= m < r.len() && r[m] == x;
                    assert(r.push(s.last())[m] == x);
                } else {
                    assert(r.push(s.last())[r.len() as int] == x);
                }
            }
            if x == c {
                assert(r.contains(x));
                let m = choose|m: int| 0 <= m < r.len() && r[m] == x;
                assert(r.push(s.last())[m] == x);
            }
        }
        if sorted_by_start(s) {
            assert(sorted_by_start(d));
            assert forall|i: int, j: int| 0 <= i < j < r.push(s.last()).len() implies r.push(s.last())[i].start_time
                <= r.push(s.last())[j].start_time by {
                if j == r.len() {
                    let y = r[i];
                    assert(r.contains(y));
                    if y == c {
                    } else {
                        let m = choose|m: int| 0 <= m < d.len() && d[m] == y;
                        assert(s[m] == y);
                    }
                }
            }
        }
    }
}

/// Sorting keeps exactly the elements it was given and orders them by start time.
pub proof fn lemma_sort_by_start(s: Seq<ContestView>)
    ensures
        sort_by_start(s).len() == s.len(),
        forall|x: ContestView| #[trigger] sort_by_start(s).contains(x) <==> s.contains(x),
        sorted_by_start(sort_by_start(s)),
    decreases s.len(),
{
    if s.len() > 0 {
        let d = s.drop_last();
        lemma_sort_by_start(d);
        lemma_insert_members(sort_by_start(d), s.last());
        assert forall|x: ContestView| #[trigger] sort_by_start(s).contains(x) <==> s.contains(x) by {
            if d.contains(x) {
                let m = choose|m: int| 0 <= m < d.len() && d[m] == x;
                assert(s[m] == x);
            }
            if s.contains(x) {
                let k = choose|k: int| 0 <= k < s.len() && s[k] == x;
                if k < s.len() - 1 {
                    assert(d[k] == x);
                }
            }
        }
    }
}

/// Sorts contests by start time, ascending; contests that start together keep
/// their relative order.
pub fn sort_contests(v: Vec<Contest>) -> (r: Vec<Contest>)
    ensures
        views(r@) == sort_by_start(views(v@)),
        sorted_by_start(views(r@)),
{
    let mut rest = v;
    let mut out: Vec<Contest> = Vec::new();
    let ghost all = views(v@);
    let n: usize = rest.len();
    let mut i: usize = 0;
    while rest.len() > 0
        invariant
            all == views(v@),
            i + rest@.len() == n,
            n == v@.len(),
            views(rest@) == all.skip(i as int),
            views(out@) == sort_by_start(all.take(i as int)),
        decreases rest@.len(),
    {
        let ghost rest_before = rest@;
        let c = rest.remove(0);
        proof {
            assert(c@ == views(rest_before)[0]);
            assert(all[i as int] == c@);
            assert forall|k: int| 0 <= k < rest@.len() implies views(rest@)[k] == all.skip(
                i as int + 1,
            )[k] by {
                assert(rest@[k] == rest_before[k + 1]);
                assert(views(rest_before)[k + 1] == all.skip(i as int)[k + 1]);
            }
            assert(views(rest@) =~= all.skip(i as int + 1));
        }
        let mut j: usize = out.len();
        while j > 0 && out[j - 1].start_time > c.start_time
            invariant
                j <= out@.len(),
                forall|k: int| j <= k < out@.len() ==> out@[k].start_time > c.start_time,
            decreases j,
        {
            j = j - 1;
        }
        proof {
            lemma_insert_at(views(out@), c@, j as int);
            assert(all.take(i as int + 1).drop_last() =~= all.take(i as int));
            assert(all.take(i as int + 1).last() == c@);
        }
        let ghost before = out@;
        out.insert(j, c);
        i = i + 1;
        proof {
            assert(views(out@) =~= views(before).insert(j as int, c@));
        }
    }
    proof {
        assert(all.take(i as int) =~= all);
        lemma_sort_by_start(all);
    }
    out
}

} // verus!
