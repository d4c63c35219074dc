use vstd::prelude::*;

use crate::address_set::{lemma_take_next, sorted_addresses, AddressSet};
use crate::db::models::BackfillJob;
use crate::db::types::Address;

verus! {

/// `p` is a bound of the job, and the job is not empty.
pub open spec fn job_has_point(job: BackfillJob, p: int) -> bool {
    job.low != job.high && (job.low == p || job.high == p)
}

/// `p` is the low or the high bound of some job that is not empty.
pub open spec fn is_point(jobs: Seq<BackfillJob>, p: int) -> bool {
    exists|k: int| 0 <= k < jobs.len() && job_has_point(#[trigger] jobs[k], p)
}

/// `s` and `e` are bounds of the jobs, `s` below `e`, with no bound between
/// them.
pub open spec fn consecutive_points(jobs: Seq<BackfillJob>, s: int, e: int) -> bool {
    &&& is_point(jobs, s)
    &&& is_point(jobs, e)
    &&& s < e
    &&& forall|p: int| s < p < e ==> !is_point(jobs, p)
}

/// The job's range holds all of `[s, e)`, and the job searches for `a`.
pub open spec fn job_covers(job: BackfillJob, s: int, e: int, a: Address) -> bool {
    job.low <= s && e <= job.high && job.addresses@.contains(a)
}

/// Some job searches all of `[s, e)` for `a`.
pub open spec fn covering(jobs: Seq<BackfillJob>, s: int, e: int, a: Address) -> bool {
    exists|k: int| 0 <= k < jobs.len() && job_covers(#[trigger] jobs[k], s, e, a)
}

/// `seg` is a segment between two consecutive bounds of `jobs`, and it
/// searches for exactly the addresses whose jobs hold the whole segment, each
/// once, in ascending order.
pub open spec fn segment_of(jobs: Seq<BackfillJob>, seg: BackfillJob) -> bool {
    &&& consecutive_points(jobs, seg.low as int, seg.high as int)
    &&& sorted_addresses(seg.addresses@)
    &&& seg.addresses@.len() > 0
    &&& forall|a: Address|
        seg.addresses@.contains(a) <==> covering(jobs, seg.low as int, seg.high as int, a)
}

/// `out` is the rearrangement of `jobs`: the segments between consecutive
/// bounds that some job holds, in ascending order of their ranges.
pub open spec fn rearranged(jobs: Seq<BackfillJob>, out: Seq<BackfillJob>) -> bool {
    &&& forall|i: int| 0 <= i < out.len() ==> segment_of(jobs, #[trigger] out[i])
    &&& forall|i: int, j: int|
        0 <= i < j < out.len() ==> (#[trigger] out[i]).high <= (#[trigger] out[j]).low
    &&& forall|s: int, e: int, a: Address|
        consecutive_points(jobs, s, e) && #[trigger] covering(jobs, s, e, a) ==> exists|i: int|
            0 <= i < out.len() && (#[trigger] out[i]).low == s && out[i].high == e
}

/// Every item is below every later one.
pub open spec fn increasing(s: Seq<u64>) -> bool {
    forall|i: int, j: int| 0 <= i < j < s.len() ==> s[i] < s[j]
}

/// Puts `p` at its place in the ascending `points`, unless it is there.
fn insert_point(points: &mut Vec<u64>, p: u64)
    requires
        increasing(old(points)@),
    ensures
        increasing(final(points)@),
        forall|x: u64| final(points)@.contains(x) <==> (old(points)@.contains(x) || x == p),
{
    let mut lo: usize = 0;
    let mut hi: usize = points.len();
    while lo < hi
        invariant
            increasing(points@),
            0 <= lo <= hi <= points@.len(),
            forall|j: int| 0 <= j < lo ==> points@[j] < p,
            forall|j: int| hi <= j < points@.len() ==> points@[j] >= p,
        decreases hi - lo,
    {
        let mid = lo + (hi - lo) / 2;
        if points[mid] < p {
            lo = mid + 1;
        } else {
            hi = mid;
        }
    }
    if lo < points.len() && points[lo] == p {
        assert(points@.contains(p));
        return ;
    }
    let ghost s = points@;
    points.insert(lo, p);
    proof {
        let t = points@;
        assert forall|x: u64| t.contains(x) <==> (s.contains(x) || x == p) by {
            if t.contains(x) {
                let k = choose|k: int| 0 <= k < t.len() && t[k] == x;
                if k < lo {
                    assert(s[k] == x);
                } else if k > lo {
                    assert(s[k - 1] == x);
                }
            }
            if s.contains(x) {
                let k = choose|k: int| 0 <= k < s.len() && s[k] == x;
                if k < lo {
                    assert(t[k] == x);
                } else {
                    assert(t[k + 1] == x);
                }
            }
            if x == p {
                assert(t[lo as int] == p);
            }
        }
    }
}

/// The bounds of the jobs that are not empty, each once, in ascending order.
fn boundary_points(jobs: &Vec<BackfillJob>) -> (points: Vec<u64>)
    ensures
        increasing(points@),
        forall|p: u64| points@.contains(p) <==> is_point(jobs@, p as int),
{
    let mut points: Vec<u64> = Vec::new();
    let mut k: usize = 0;
    while k < jobs.len()
        invariant
            0 <= k <= jobs@.len(),
            increasing(points@),
            forall|p: u64| points@.contains(p) <==> is_point(jobs@.take(k as int), p as int),
        decreases jobs@.len() - k,
    {
        let ghost before = points@;
        let low = jobs[k].low;
        let high = jobs[k].high;
        if low != high {
            insert_point(&mut points, low);
            insert_point(&mut points, high);
        }
        proof {
            let prev = jobs@.take(k as int);
            let next = jobs@.take(k + 1);
            assert forall|p: u64| points@.contains(p) <==> is_point(next, p as int) by {
                if is_point(next, p as int) {
                    let m = choose|m: int| 0 <= m < next.len() && job_has_point(next[m], p as int);
                    if m < k {
                        assert(job_has_point(prev[m], p as int));
                    }
                }
                if is_point(prev, p as int) {
                    let m = choose|m: int| 0 <= m < prev.len() && job_has_point(prev[m], p as int);
                    assert(job_has_point(next[m], p as int));
                }
                if low != high && (p == low || p == high) {
                    assert(job_has_point(next[k as int], p as int));
                }
            }
        }
        k += 1;
    }
    assert(jobs@.take(k as int) =~= jobs@);
    points
}

/// The addresses of the jobs that hold all of `[s, e)`.
fn segment_addresses(jobs: &Vec<BackfillJob>, s: u64, e: u64) -> (set: AddressSet)
    ensures
        forall|a: Address| set@.contains(a) <==> covering(jobs@, s as int, e as int, a),
{
    let mut set = AddressSet::new();
    let mut k: usize = 0;
    while k < jobs.len()
        invariant
            0 <= k <= jobs@.len(),
            forall|a: Address|
                set@.contains(a) <==> covering(jobs@.take(k as int), s as int, e as int, a),
        decreases jobs@.len() - k,
    {
        let ghost before = set@;
        if jobs[k].low <= s && e <= jobs[k].high {
            let mut m: usize = 0;
            while m < jobs[k as usize].addresses.len()
                invariant
                    0 <= k < jobs@.len(),
                    0 <= m <= jobs@[k as int].addresses@.len(),
                    forall|a: Address|
                        #[trigger] set@.contains(a) <==> (before.contains(a) || jobs@[k as int].addresses@.take(
                            m as int,
                        ).contains(a)),
                decreases jobs@[k as int].addresses@.len() - m,
            {
                let a = jobs[k].addresses[m];
                let ghost addrs = jobs@[k as int].addresses@;
                let ghost prior = set@;
                set.insert(a);
                proof {
                    lemma_take_next(addrs, m as int);
                    assert forall|b: Address|
                        set@.contains(b) <==> (before.contains(b) || addrs.take(m + 1).contains(
                            b,
                        )) by {
                        assert(prior.contains(b) <==> (before.contains(b) || addrs.take(
                            m as int,
                        ).contains(b)));
                    }
                }
                m += 1;
            }
            proof {
                let addrs = jobs@[k as int].addresses@;
                assert(addrs.take(m as int) =~= addrs);
            }
        }
        proof {
            let prev = jobs@.take(k as int);
            let next = jobs@.take(k + 1);
            let (si, ei) = (s as int, e as int);
            assert(next[k as int] == jobs@[k as int]);
            assert forall|a: Address| set@.contains(a) <==> covering(next, si, ei, a) by {
                assert(before.contains(a) <==> covering(prev, si, ei, a));
                if covering(next, si, ei, a) {
                    let i = choose|i: int| 0 <= i < next.len() && job_covers(next[i], si, ei, a);
                    if i < k {
                        assert(job_covers(prev[i], si, ei, a));
                    }
                }
                if covering(prev, si, ei, a) {
                    let i = choose|i: int| 0 <= i < prev.len() && job_covers(prev[i], si, ei, a);
                    assert(job_covers(next[i], si, ei, a));
                }
                if set@.contains(a) && !before.contains(a) {
                    assert(job_covers(next[k as int], si, ei, a));
                }
            }
        }
        k += 1;
    }
    assert(jobs@.take(k as int) =~= jobs@);
    set
}

/// Two bounds are consecutive exactly when they stand side by side in the
/// ascending sequence of all bounds.
proof fn lemma_consecutive_in_points(jobs: Seq<BackfillJob>, points: Seq<u64>, s: int, e: int)
    requires
        increasing(points),
        forall|p: u64| points.contains(p) <==> is_point(jobs, p as int),
    ensures
        consecutive_points(jobs, s, e) <==> exists|t: int|
            0 <= t && t + 1 < points.len() && #[trigger] points[t] == s && points[t + 1] == e,
{
    lemma_points_are_u64(jobs);
    if consecutive_points(jobs, s, e) {
        assert(points.contains(s as u64));
        assert(points.contains(e as u64));
        let t = choose|t: int| 0 <= t < points.len() && points[t] == s as u64;
        let u = choose|u: int| 0 <= u < points.len() && points[u] == e as u64;
        if u <= t {
            if u < t {
                assert(points[u] < points[t]);
            }
        }
        if u > t + 1 {
            assert(points[t] < points[t + 1]);
            assert(points[t + 1] < points[u]);
            assert(points.contains(points[t + 1]));
        }
        assert(points[t] == s && points[t + 1] == e);
    }
    if exists|t: int| 0 <= t && t + 1 < points.len() && #[trigger] points[t] == s && points[t + 1]
        == e {
        let t = choose|t: int|
            0 <= t && t + 1 < points.len() && #[trigger] points[t] == s && points[t + 1] == e;
        assert(points.contains(points[t]));
        assert(points.contains(points[t + 1]));
        assert(points[t] < points[t + 1]);
        assert forall|p: int| s < p < e implies !is_point(jobs, p) by {
            if is_point(jobs, p) {
                assert(points.contains(p as u64));
                let m = choose|m: int| 0 <= m < points.len() && points[m] == p as u64;
                if m < t {
                    assert(points[m] < points[t]);
                } else if m > t + 1 {
                    assert(points[t + 1] < points[m]);
                }
            }
        }
    }
}

/// A bound of a job is a block number.
proof fn lemma_points_are_u64(jobs: Seq<BackfillJob>)
    ensures
        forall|p: int| is_point(jobs, p) ==> 0 <= p <= u64::MAX,
{
    assert forall|p: int| is_point(jobs, p) implies 0 <= p <= u64::MAX by {
        let k = choose|k: int| 0 <= k < jobs.len() && job_has_point(jobs[k], p);
    }
}

/// Cuts the ranges of `jobs` at every bound of a job and gives each piece
/// the addresses of all the jobs that held it. Jobs with `low == high` are
/// left out.
pub fn rearrange(jobs: &Vec<BackfillJob>) -> (out: Vec<BackfillJob>)
    ensures
        rearranged(jobs@, out@),
{
    let points = boundary_points(jobs);
    let mut out: Vec<BackfillJob> = Vec::new();
    let last: usize = if points.len() == 0 {
        0
    } else {
        points.len() - 1
    };
    let mut i: usize = 0;
    while i < last
        invariant
            increasing(points@),
            forall|p: u64| points@.contains(p) <==> is_point(jobs@, p as int),
            0 <= i <= last,
            last + 1 == points@.len() || (last == 0 && points@.len() == 0),
            forall|m: int| 0 <= m < out@.len() ==> segment_of(jobs@, #[trigger] out@[m]),
            forall|m: int, n: int|
                0 <= m < n < out@.len() ==> (#[trigger] out@[m]).high <= (#[trigger] out@[n]).low,
            forall|m: int|
                0 <= m < out@.len() && i < points@.len() ==> (#[trigger] out@[m]).high
                    <= points@[i as int],
            forall|t: int, a: Address|
                0 <= t < i && t + 1 < points@.len() && #[trigger] covering(
                    jobs@,
                    points@[t] as int,
                    points@[t + 1] as int,
                    a,
                ) ==> exists|m: int|
                    0 <= m < out@.len() && (#[trigger] out@[m]).low == points@[t] && out@[m].high
                        == points@[t + 1],
        decreases points@.len() - i,
    {
        let s = points[i];
        let e = points[i + 1];
        let addresses = segment_addresses(jobs, s, e);
        let ghost before = out@;
        assert(points@[i as int] < points@[i + 1]);
        if !addresses.is_empty() {
            let seg = BackfillJob { addresses: addresses.to_vec(), low: s, high: e };
            proof {
                lemma_consecutive_in_points(jobs@, points@, s as int, e as int);
                assert(consecutive_points(jobs@, s as int, e as int));
                assert forall|a: Address|
                    seg.addresses@.contains(a) <==> covering(jobs@, s as int, e as int, a) by {
                    assert(seg.addresses@.to_set().contains(a) == addresses@.contains(a));
                }
                assert(segment_of(jobs@, seg));
            }
            out.push(seg);
            assert(out@[before.len() as int].low == s && out@[before.len() as int].high == e);
        }
        proof {
            assert forall|t: int, a: Address|
                0 <= t < i + 1 && t + 1 < points@.len() && #[trigger] covering(
                    jobs@,
                    points@[t] as int,
                    points@[t + 1] as int,
                    a,
                ) implies exists|m: int|
                0 <= m < out@.len() && (#[trigger] out@[m]).low == points@[t] && out@[m].high
                    == points@[t + 1] by {
                if t < i {
                    let m = choose|m: int|
                        0 <= m < before.len() && (#[trigger] before[m]).low == points@[t]
                            && before[m].high == points@[t + 1];
                    assert(out@[m] == before[m]);
                } else {
                    assert(addresses@.contains(a));
                    assert(out@[before.len() as int].low == s);
                }
            }
            assert forall|m: int| 0 <= m < out@.len() && i + 1 < points@.len() implies (
            #[trigger] out@[m]).high <= points@[i + 1] by {
                if m < before.len() {
                    assert(out@[m] == before[m]);
                }
            }
            assert forall|m: int, n: int| 0 <= m < n < out@.len() implies (#[trigger] out@[m]).high
                <= (#[trigger] out@[n]).low by {
                assert(out@[m] == before[m]);
                if n < before.len() {
                    assert(out@[n] == before[n]);
                }
            }
        }
        i += 1;
    }
    proof {
        assert forall|s: int, e: int, a: Address|
            consecutive_points(jobs@, s, e) && #[trigger] covering(jobs@, s, e, a) implies exists|
            m: int,
        |
            0 <= m < out@.len() && (#[trigger] out@[m]).low == s && out@[m].high == e by {
            lemma_consecutive_in_points(jobs@, points@, s, e);
            let t = choose|t: int|
                0 <= t && t + 1 < points@.len() && #[trigger] points@[t] == s && points@[t + 1]
                    == e;
            assert(covering(jobs@, points@[t] as int, points@[t + 1] as int, a));
        }
    }
    out
}

} // verus!
