use vstd::prelude::*;
use crate::contest::{Contest, ContestView, views};
use crate::order::{sort_by_start, sorted_by_start, sort_contests};
use crate::atcoder::{atcoder_contests, atcoder_outcome};
use crate::codeforces::{codeforces_contests, codeforces_outcome};
use crate::contest::Host;
use crate::error::FetchError;

verus! {

/// Length of the look-ahead window, in seconds: one week.
pub const WINDOW_SECONDS: i64 = 604800;

/// The contest starts strictly after `now` and strictly before one week later.
pub open spec fn in_window(c: ContestView, now: int) -> bool {
    now < c.start_time && c.start_time < now + WINDOW_SECONDS
}

/// The contests of `s` that lie in the window, in their order.
pub open spec fn within_window(s: Seq<ContestView>, now: int) -> Seq<ContestView>
    decreases s.len(),
{
    if s.len() == 0 {
        s
    } else {
        let r = within_window(s.drop_last(), now);
        if in_window(s.last(), now) {
            r.push(s.last())
        } else {
            r
        }
    }
}

/// Every contest that the window keeps lies in the window, and no contest of
/// the input that lies in it is lost.
pub proof fn lemma_within_window(s: Seq<ContestView>, now: int)
    ensures
        forall|i: int| 0 <= i < within_window(s, now).len() ==> in_window(#[trigger] within_window(s, now)[i], now),
        forall|x: ContestView| #[trigger] within_window(s, now).contains(x) <==> (s.contains(x) && in_window(x, now)),
        sorted_by_start(s) ==> sorted_by_start(within_window(s, now)),
    decreases s.len(),
{
    if s.len() > 0 {
        let d = s.drop_last();
        lemma_within_window(d, now);
        let r = within_window(d, now);
        assert forall|x: ContestView| #[trigger] within_window(s, now).contains(x) <==> (s.contains(x) && in_window(x, now)) by {
            if within_window(s, now).contains(x) {
                let k = choose|k: int| 0 <= k < within_window(s, now).len() && within_window(s, now)[k] == x;
                if k < r.len() {
                    assert(r[k] == x);
                    assert(r.contains(x));
                    let m = choose|m: int| 0 <= m < d.len() && d[m] == x;
                    assert(s[m] == x);
                } else {
                    assert(s[s.len() - 1] == x);
                }
            }
            if s.contains(x) && in_window(x, now) {
                let k = choose|k: int| 0 <= k < s.len() && s[k] == x;
                if k < s.len() - 1 {
                    assert(d[k] == x);
                    assert(r.contains(x));
                    let m = choose|m: int| 0 <= m < r.len() && r[m] == x;
                    assert(within_window(s, now)[m] == x);
                } else {
                    assert(within_window(s, now)[r.len() as int] == x);
                }
            }
        }
        if sorted_by_start(s) {
            assert(sorted_by_start(d));
            assert forall|i: int, j: int| 0 <= i < j < within_window(s, now).len() implies within_window(s, now)[i].start_time
                <= within_window(s, now)[j].start_time by {
                if j == r.len() && in_window(s.last(), now) {
                    let y = r[i];
                    assert(r.contains(y));
                    let m = choose|m: int| 0 <= m < d.len() && d[m] == y;
                    assert(s[m] == y);
                }
            }
        }
    }
}

/// Keeps the contests that lie in the window after `now`, in their order.
pub fn keep_within_window(v: Vec<Contest>, now: i64) -> (r: Vec<Contest>)
    ensures
        views(r@) == within_window(views(v@), now as int),
{
    let mut rest = v;
    let mut out: Vec<Contest> = Vec::new();
    let ghost all = views(v@);
    let n: usize = rest.len();
    let mut i: usize = 0;
    while rest.len() > 0
        invariant
            all == views(v@),
            i + rest@.len() == n,
            n == v@.len(),
            views(rest@) == all.skip(i as int),
            views(out@) == within_window(all.take(i as int), now as int),
        decreases rest@.len(),
    {
        let ghost rest_before = rest@;
        let c = rest.remove(0);
        proof {
            assert(c@ == views(rest_before)[0]);
            assert(all[i as int] == c@);
            assert forall|k: int| 0 <= k < rest@.len() implies views(rest@)[k] == all.skip(
                i as int + 1,
            )[k] by {
                assert(rest@[k] == rest_before[k + 1]);
                assert(views(rest_before)[k + 1] == all.skip(i as int)[k + 1]);
            }
            assert(views(rest@) =~= all.skip(i as int + 1));
            assert(all.take(i as int + 1).drop_last() =~= all.take(i as int));
            assert(all.take(i as int + 1).last() == c@);
        }
        let start = c.start_time as i128;
        let lo = now as i128;
        if lo < start && start < lo + WINDOW_SECONDS as i128 {
            let ghost before = out@;
            out.push(c);
            proof {
                assert(views(out@) =~= views(before).push(c@));
            }
        }
        i = i + 1;
    }
    proof {
        assert(all.take(i as int) =~= all);
    }
    out
}

/// The contests of both providers that start within the coming week, ordered
/// by start time (stable, so contests that start together keep provider order).
pub fn upcoming_contests(atcoder: Vec<Contest>, codeforces: Vec<Contest>, now: i64) -> (r: Vec<Contest>)
    ensures
        views(r@) == within_window(sort_by_start(views(atcoder@) + views(codeforces@)), now as int),
        forall|i: int| 0 <= i < r@.len() ==> in_window(#[trigger] r@[i]@, now as int),
        sorted_by_start(views(r@)),
{
    let mut all = atcoder;
    let mut more = codeforces;
    let ghost a = all@;
    let ghost b = more@;
    all.append(&mut more);
    proof {
        assert(views(all@) =~= views(a) + views(b));
    }
    let sorted = sort_contests(all);
    let r = keep_within_window(sorted, now);
    proof {
        lemma_within_window(views(sorted@), now as int);
        assert forall|i: int| 0 <= i < r@.len() implies in_window(#[trigger] r@[i]@, now as int) by {
            assert(views(r@)[i] == r@[i]@);
        }
    }
    r
}

/// Reads both providers' responses and keeps the contests that start within
/// the coming week, ordered by start time. A failure in either response fails
/// the whole run, the page's first.
pub fn collect_upcoming(atcoder_page: &str, codeforces_body: &str, now: i64) -> (r: Result<Vec<Contest>, FetchError>)
    ensures
        r is Err <==> (atcoder_outcome(atcoder_page@) is Err || codeforces_outcome(codeforces_body@) is Err),
        r is Err ==> r->Err_0 == (if atcoder_outcome(atcoder_page@) is Err {
            atcoder_outcome(atcoder_page@)->Err_0
        } else {
            codeforces_outcome(codeforces_body@)->Err_0
        }),
        r is Ok ==> views(r->Ok_0@) == within_window(
            sort_by_start(atcoder_outcome(atcoder_page@)->Ok_0 + codeforces_outcome(codeforces_body@)->Ok_0),
            now as int,
        ),
        r is Ok ==> forall|i: int| 0 <= i < r->Ok_0@.len() ==> in_window(#[trigger] r->Ok_0@[i]@, now as int),
        r is Ok ==> forall|i: int|
            0 <= i < r->Ok_0@.len() ==> (#[trigger] r->Ok_0@[i]).host == Host::AtCoder || r->Ok_0@[i].host
                == Host::Codeforces,
        r is Ok ==> sorted_by_start(views(r->Ok_0@)),
{
    let atcoder = match atcoder_contests(atcoder_page) {
        Ok(v) => v,
        Err(e) => {
            return Err(e);
        },
    };
    let codeforces = match codeforces_contests(codeforces_body) {
        Ok(v) => v,
        Err(e) => {
            return Err(e);
        },
    };
    let ghost sa = atcoder@;
    let ghost sb = codeforces@;
    let ghost a = views(atcoder@);
    let ghost b = views(codeforces@);
    let kept = upcoming_contests(atcoder, codeforces, now);
    proof {
        let both = a + b;
        crate::order::lemma_sort_by_start(both);
        lemma_within_window(sort_by_start(both), now as int);
        assert forall|i: int| 0 <= i < kept@.len() implies (#[trigger] kept@[i]).host == Host::AtCoder
            || kept@[i].host == Host::Codeforces by {
            let x = kept@[i]@;
            assert(views(kept@)[i] == x);
            assert(within_window(sort_by_start(both), now as int).contains(x));
            assert(both.contains(x));
            let k = choose|k: int| 0 <= k < both.len() && both[k] == x;
            if k < a.len() {
                assert(a[k] == both[k]);
                assert(a[k] == sa[k]@);
                assert(sa[k].host == Host::AtCoder);
            } else {
                assert(b[k - a.len()] == both[k]);
                assert(b[k - a.len()] == sb[k - a.len()]@);
                assert(sb[k - a.len()].host == Host::Codeforces);
            }
        }
    }
    Ok(kept)
}

} // verus!
