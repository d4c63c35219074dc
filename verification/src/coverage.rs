use vstd::multiset::Multiset;
use vstd::prelude::*;

use crate::address_set::{lemma_sorted_no_duplicates, sorted_addresses};
use crate::db::models::BackfillJob;
use crate::db::types::Address;
use crate::rearrange::{
    consecutive_points, covering, is_point, job_covers, job_has_point, rearranged, segment_of,
};

verus! {

/// Block `b` lies in the range of the job.
pub open spec fn job_holds(job: BackfillJob, b: int) -> bool {
    job.low <= b < job.high
}

/// The job searches block `b` for `a`.
pub open spec fn job_searches(job: BackfillJob, a: Address, b: int) -> bool {
    job_holds(job, b) && job.addresses@.contains(a)
}

/// Some job searches block `b` for `a`.
pub open spec fn searched(jobs: Seq<BackfillJob>, a: Address, b: int) -> bool {
    exists|k: int| 0 <= k < jobs.len() && job_searches(#[trigger] jobs[k], a, b)
}

/// How often `a` stands in `addresses`.
pub open spec fn occurrences(addresses: Seq<Address>, a: Address) -> nat
    decreases addresses.len(),
{
    if addresses.len() == 0 {
        0
    } else {
        occurrences(addresses.drop_last(), a) + if addresses.last() == a {
            1nat
        } else {
            0nat
        }
    }
}

/// How often the jobs search block `b` for `a`: once for every job whose
/// range holds `b`, times the occurrences of `a` among its addresses.
pub open spec fn coverage_count(jobs: Seq<BackfillJob>, a: Address, b: int) -> nat
    decreases jobs.len(),
{
    if jobs.len() == 0 {
        0
    } else {
        coverage_count(jobs.drop_last(), a, b) + if job_holds(jobs.last(), b) {
            occurrences(jobs.last().addresses@, a)
        } else {
            0nat
        }
    }
}

/// The ranges of the jobs do not overlap, in the order in which they stand.
pub open spec fn disjoint_ranges(jobs: Seq<BackfillJob>) -> bool {
    forall|i: int, j: int|
        0 <= i < j < jobs.len() ==> (#[trigger] jobs[i]).high <= (#[trigger] jobs[j]).low
}

proof fn lemma_occurrences_positive(addresses: Seq<Address>, a: Address)
    ensures
        occurrences(addresses, a) > 0 <==> addresses.contains(a),
    decreases addresses.len(),
{
    if addresses.len() > 0 {
        let rest = addresses.drop_last();
        lemma_occurrences_positive(rest, a);
        if rest.contains(a) {
            let i = choose|i: int| 0 <= i < rest.len() && rest[i] == a;
            assert(addresses[i] == a);
        }
        if addresses.contains(a) && addresses.last() != a {
            let i = choose|i: int| 0 <= i < addresses.len() && addresses[i] == a;
            assert(rest[i] == a);
        }
    }
}

proof fn lemma_occurrences_sorted(addresses: Seq<Address>, a: Address)
    requires
        sorted_addresses(addresses),
    ensures
        occurrences(addresses, a) <= 1,
    decreases addresses.len(),
{
    if addresses.len() > 0 {
        let rest = addresses.drop_last();
        assert forall|i: int, j: int| 0 <= i < j < rest.len() implies crate::db::types::addr_lt(
            #[trigger] rest[i],
            #[trigger] rest[j],
        ) by {
            assert(crate::db::types::addr_lt(addresses[i], addresses[j]));
        }
        lemma_occurrences_sorted(rest, a);
        lemma_occurrences_positive(rest, a);
        if addresses.last() == a && rest.contains(a) {
            let i = choose|i: int| 0 <= i < rest.len() && rest[i] == a;
            lemma_sorted_no_duplicates(addresses);
            assert(addresses[i] == addresses[addresses.len() - 1]);
        }
    }
}

/// A pair of address and block is counted at all exactly when it is searched.
pub proof fn lemma_count_positive(jobs: Seq<BackfillJob>, a: Address, b: int)
    ensures
        coverage_count(jobs, a, b) > 0 <==> searched(jobs, a, b),
    decreases jobs.len(),
{
    if jobs.len() > 0 {
        let rest = jobs.drop_last();
        lemma_count_positive(rest, a, b);
        lemma_occurrences_positive(jobs.last().addresses@, a);
        if searched(rest, a, b) {
            let k = choose|k: int| 0 <= k < rest.len() && job_searches(rest[k], a, b);
            assert(job_searches(jobs[k], a, b));
        }
        if searched(jobs, a, b) {
            let k = choose|k: int| 0 <= k < jobs.len() && job_searches(jobs[k], a, b);
            if k < rest.len() {
                assert(job_searches(rest[k], a, b));
            }
        }
        if job_searches(jobs.last(), a, b) {
            assert(job_searches(jobs[jobs.len() - 1], a, b));
        }
    }
}

/// Jobs whose ranges do not overlap and whose addresses are in ascending
/// order search no block twice for one address.
pub proof fn lemma_count_at_most_once(jobs: Seq<BackfillJob>, a: Address, b: int)
    requires
        disjoint_ranges(jobs),
        forall|i: int| 0 <= i < jobs.len() ==> sorted_addresses((#[trigger] jobs[i]).addresses@),
    ensures
        coverage_count(jobs, a, b) <= 1,
    decreases jobs.len(),
{
    if jobs.len() > 0 {
        let rest = jobs.drop_last();
        let last = jobs.last();
        assert forall|i: int, j: int| 0 <= i < j < rest.len() implies (#[trigger] rest[i]).high <= (
        #[trigger] rest[j]).low by {
            assert(jobs[i].high <= jobs[j].low);
        }
        assert forall|i: int| 0 <= i < rest.len() implies sorted_addresses(
            (#[trigger] rest[i]).addresses@,
        ) by {
            assert(sorted_addresses(jobs[i].addresses@));
        }
        lemma_count_at_most_once(rest, a, b);
        assert(sorted_addresses(jobs[jobs.len() - 1].addresses@));
        lemma_occurrences_sorted(last.addresses@, a);
        if job_holds(last, b) {
            lemma_count_positive(rest, a, b);
            if searched(rest, a, b) {
                let k = choose|k: int| 0 <= k < rest.len() && job_searches(rest[k], a, b);
                assert(jobs[k].high <= jobs[jobs.len() - 1].low);
            }
        }
    }
}

/// Between two bounds that hold block `b` between them stand two consecutive
/// bounds that do.
proof fn lemma_segment_around(jobs: Seq<BackfillJob>, lo: int, hi: int, b: int) -> (r: (int, int))
    requires
        is_point(jobs, lo),
        is_point(jobs, hi),
        lo <= b < hi,
    ensures
        consecutive_points(jobs, r.0, r.1),
        lo <= r.0 <= b < r.1 <= hi,
    decreases hi - lo,
{
    if exists|p: int| lo < p < hi && is_point(jobs, p) {
        let p = choose|p: int| lo < p < hi && is_point(jobs, p);
        if p <= b {
            lemma_segment_around(jobs, p, hi, b)
        } else {
            lemma_segment_around(jobs, lo, p, b)
        }
    } else {
        (lo, hi)
    }
}

/// Rearranging changes nothing in what is searched: a block is searched for
/// an address after it exactly when it was before.
pub proof fn lemma_rearrange_keeps_coverage(jobs: Seq<BackfillJob>, out: Seq<BackfillJob>)
    requires
        rearranged(jobs, out),
    ensures
        forall|a: Address, b: int| searched(out, a, b) <==> searched(jobs, a, b),
{
    assert forall|a: Address, b: int| searched(out, a, b) <==> searched(jobs, a, b) by {
        if searched(out, a, b) {
            let i = choose|i: int| 0 <= i < out.len() && job_searches(out[i], a, b);
            assert(segment_of(jobs, out[i]));
            assert(covering(jobs, out[i].low as int, out[i].high as int, a));
            let k = choose|k: int|
                0 <= k < jobs.len() && job_covers(
                    #[trigger] jobs[k],
                    out[i].low as int,
                    out[i].high as int,
                    a,
                );
            assert(job_searches(jobs[k], a, b));
        }
        if searched(jobs, a, b) {
            let k = choose|k: int| 0 <= k < jobs.len() && job_searches(jobs[k], a, b);
            assert(job_has_point(jobs[k], jobs[k].low as int));
            assert(job_has_point(jobs[k], jobs[k].high as int));
            let (s, e) = lemma_segment_around(jobs, jobs[k].low as int, jobs[k].high as int, b);
            assert(job_covers(jobs[k], s, e, a));
            assert(covering(jobs, s, e, a));
            let i = choose|i: int|
                0 <= i < out.len() && (#[trigger] out[i]).low == s && out[i].high == e;
            assert(segment_of(jobs, out[i]));
            assert(job_searches(out[i], a, b));
        }
    }
}

/// Rearranging keeps how often each block is searched for each address,
/// wherever the jobs did not search a block twice for one address.
pub proof fn lemma_rearrange_keeps_count(
    jobs: Seq<BackfillJob>,
    out: Seq<BackfillJob>,
    a: Address,
    b: int,
)
    requires
        rearranged(jobs, out),
        coverage_count(jobs, a, b) <= 1,
    ensures
        coverage_count(out, a, b) == coverage_count(jobs, a, b),
{
    lemma_rearrange_keeps_coverage(jobs, out);
    lemma_count_positive(jobs, a, b);
    lemma_count_positive(out, a, b);
    lemma_rearranged_disjoint(jobs, out);
    assert forall|i: int| 0 <= i < out.len() implies sorted_addresses(
        (#[trigger] out[i]).addresses@,
    ) by {
        assert(segment_of(jobs, out[i]));
    }
    lemma_count_at_most_once(out, a, b);
}

/// After rearranging, no block lies in the ranges of two jobs.
pub proof fn lemma_rearranged_disjoint(jobs: Seq<BackfillJob>, out: Seq<BackfillJob>)
    requires
        rearranged(jobs, out),
    ensures
        disjoint_ranges(out),
        forall|i: int, j: int, b: int|
            0 <= i < out.len() && 0 <= j < out.len() && i != j && #[trigger] job_holds(out[i], b)
                ==> !#[trigger] job_holds(out[j], b),
{
    assert forall|i: int, j: int, b: int|
        0 <= i < out.len() && 0 <= j < out.len() && i != j && #[trigger] job_holds(
            out[i],
            b,
        ) implies !#[trigger] job_holds(out[j], b) by {
        if i < j {
            assert(out[i].high <= out[j].low);
        } else {
            assert(out[j].high <= out[i].low);
        }
    }
}

/// The bounds of rearranged jobs that lie within the range of one of them
/// are the two bounds of that job.
proof fn lemma_points_of_rearranged(jobs: Seq<BackfillJob>, out: Seq<BackfillJob>, i: int, p: int)
    requires
        rearranged(jobs, out),
        0 <= i < out.len(),
        is_point(out, p),
        out[i].low <= p <= out[i].high,
    ensures
        p == out[i].low || p == out[i].high,
{
    let j = choose|j: int| 0 <= j < out.len() && job_has_point(out[j], p);
    assert(segment_of(jobs, out[j]));
    assert(segment_of(jobs, out[i]));
    if j < i {
        assert(out[j].high <= out[i].low);
    } else if i < j {
        assert(out[i].high <= out[j].low);
    }
}

/// A job of a rearrangement is a segment of the rearrangement itself.
proof fn lemma_segment_of_itself(jobs: Seq<BackfillJob>, out: Seq<BackfillJob>, i: int)
    requires
        rearranged(jobs, out),
        0 <= i < out.len(),
    ensures
        segment_of(out, out[i]),
{
    let seg = out[i];
    let (s, e) = (seg.low as int, seg.high as int);
    assert(segment_of(jobs, seg));
    assert(job_has_point(out[i], s));
    assert(job_has_point(out[i], e));
    assert forall|p: int| s < p < e implies !is_point(out, p) by {
        if is_point(out, p) {
            lemma_points_of_rearranged(jobs, out, i, p);
        }
    }
    assert(consecutive_points(out, s, e));
    assert forall|a: Address| seg.addresses@.contains(a) <==> covering(out, s, e, a) by {
        if seg.addresses@.contains(a) {
            assert(job_covers(out[i], s, e, a));
        }
        if covering(out, s, e, a) {
            let k = choose|k: int| 0 <= k < out.len() && job_covers(#[trigger] out[k], s, e, a);
            lemma_same_job(jobs, out, i, k);
        }
    }
}

/// Two jobs of a rearrangement of which one holds the range of the other
/// are one job.
proof fn lemma_same_job(jobs: Seq<BackfillJob>, out: Seq<BackfillJob>, i: int, k: int)
    requires
        rearranged(jobs, out),
        0 <= i < out.len(),
        0 <= k < out.len(),
        out[k].low <= out[i].low,
        out[i].high <= out[k].high,
    ensures
        i == k,
{
    assert(segment_of(jobs, out[i]));
    if k < i {
        assert(out[k].high <= out[i].low);
    } else if i < k {
        assert(out[i].high <= out[k].low);
    }
}

/// Two consecutive bounds of a rearrangement within the range of one of its
/// jobs are the bounds of that job.
proof fn lemma_segment_is_job(
    jobs: Seq<BackfillJob>,
    out: Seq<BackfillJob>,
    k: int,
    s: int,
    e: int,
)
    requires
        rearranged(jobs, out),
        0 <= k < out.len(),
        is_point(out, s),
        is_point(out, e),
        s < e,
        out[k].low <= s,
        e <= out[k].high,
    ensures
        out[k].low == s,
        out[k].high == e,
{
    lemma_points_of_rearranged(jobs, out, k, s);
    lemma_points_of_rearranged(jobs, out, k, e);
}

/// The pairs of an address of `addresses` and block `b`, each as often as the
/// address stands there.
pub open spec fn block_pairs(addresses: Seq<Address>, b: int) -> Multiset<(Address, int)>
    decreases addresses.len(),
{
    if addresses.len() == 0 {
        Multiset::empty()
    } else {
        block_pairs(addresses.drop_last(), b).insert((addresses.last(), b))
    }
}

/// The pairs of an address of `addresses` and a block of `[low, high)`.
pub open spec fn range_pairs(addresses: Seq<Address>, low: int, high: int) -> Multiset<
    (Address, int),
>
    decreases high - low,
{
    if high <= low {
        Multiset::empty()
    } else {
        range_pairs(addresses, low, high - 1).add(block_pairs(addresses, high - 1))
    }
}

/// What the jobs search: the pairs of an address and a block, each as often
/// as a job searches the block for the address.
pub open spec fn coverage(jobs: Seq<BackfillJob>) -> Multiset<(Address, int)>
    decreases jobs.len(),
{
    if jobs.len() == 0 {
        Multiset::empty()
    } else {
        coverage(jobs.drop_last()).add(
            range_pairs(jobs.last().addresses@, jobs.last().low as int, jobs.last().high as int),
        )
    }
}

proof fn lemma_block_pairs_count(addresses: Seq<Address>, b: int, a: Address, c: int)
    ensures
        block_pairs(addresses, b).count((a, c)) == if c == b {
            occurrences(addresses, a)
        } else {
            0
        },
    decreases addresses.len(),
{
    if addresses.len() > 0 {
        lemma_block_pairs_count(addresses.drop_last(), b, a, c);
    }
}

proof fn lemma_range_pairs_count(addresses: Seq<Address>, low: int, high: int, a: Address, c: int)
    ensures
        range_pairs(addresses, low, high).count((a, c)) == if low <= c < high {
            occurrences(addresses, a)
        } else {
            0
        },
    decreases high - low,
{
    if high > low {
        lemma_range_pairs_count(addresses, low, high - 1, a, c);
        lemma_block_pairs_count(addresses, high - 1, a, c);
    }
}

/// A pair stands in the coverage as often as the jobs search its block for
/// its address.
pub proof fn lemma_coverage_count(jobs: Seq<BackfillJob>, a: Address, b: int)
    ensures
        coverage(jobs).count((a, b)) == coverage_count(jobs, a, b),
    decreases jobs.len(),
{
    if jobs.len() > 0 {
        let last = jobs.last();
        lemma_coverage_count(jobs.drop_last(), a, b);
        lemma_range_pairs_count(last.addresses@, last.low as int, last.high as int, a, b);
    }
}

/// Rearranging keeps the coverage, pair for pair and count for count, of
/// jobs that search no block twice for one address.
pub proof fn lemma_rearrange_keeps_multiset(jobs: Seq<BackfillJob>, out: Seq<BackfillJob>)
    requires
        rearranged(jobs, out),
        forall|p: (Address, int)| coverage(jobs).count(p) <= 1,
    ensures
        coverage(out) == coverage(jobs),
{
    assert forall|p: (Address, int)| coverage(out).count(p) == coverage(jobs).count(p) by {
        lemma_coverage_count(jobs, p.0, p.1);
        lemma_coverage_count(out, p.0, p.1);
        lemma_rearrange_keeps_count(jobs, out, p.0, p.1);
    }
    assert(coverage(out) =~= coverage(jobs));
}

/// What a job searched before the jobs were rearranged is searched after it.
pub proof fn lemma_job_survives_rearrange(
    jobs: Seq<BackfillJob>,
    out: Seq<BackfillJob>,
    k: int,
    a: Address,
    b: int,
)
    requires
        rearranged(jobs, out),
        0 <= k < jobs.len(),
        job_searches(jobs[k], a, b),
    ensures
        searched(out, a, b),
{
    lemma_rearrange_keeps_coverage(jobs, out);
}

/// The two jobs have the same range.
pub open spec fn same_range(x: BackfillJob, y: BackfillJob) -> bool {
    x.low == y.low && x.high == y.high
}

/// The job at place `i` of one rearrangement has its range at place `i` or
/// later in every other rearrangement of the same jobs.
proof fn lemma_range_not_before(
    jobs: Seq<BackfillJob>,
    x: Seq<BackfillJob>,
    y: Seq<BackfillJob>,
    i: int,
) -> (j: int)
    requires
        rearranged(jobs, x),
        rearranged(jobs, y),
        0 <= i < x.len(),
    ensures
        i <= j < y.len(),
        same_range(x[i], y[j]),
    decreases i,
{
    assert(segment_of(jobs, x[i]));
    let a = x[i].addresses@[0];
    assert(x[i].addresses@.contains(a));
    assert(covering(jobs, x[i].low as int, x[i].high as int, a));
    let j = choose|j: int|
        0 <= j < y.len() && (#[trigger] y[j]).low == x[i].low && y[j].high == x[i].high;
    if i > 0 {
        let before = lemma_range_not_before(jobs, x, y, i - 1);
        assert(x[i - 1].high <= x[i].low);
        assert(segment_of(jobs, x[i - 1]));
        assert(segment_of(jobs, y[j]));
        if j < before {
            assert(y[j].high <= y[before].low);
        }
    }
    j
}

/// The jobs have one rearrangement only: two of them have the same ranges
/// with the same addresses, in the same order.
pub proof fn lemma_rearranged_unique(
    jobs: Seq<BackfillJob>,
    x: Seq<BackfillJob>,
    y: Seq<BackfillJob>,
)
    requires
        rearranged(jobs, x),
        rearranged(jobs, y),
    ensures
        x.len() == y.len(),
        forall|i: int|
            0 <= i < x.len() ==> same_range(#[trigger] x[i], y[i]) && x[i].addresses@
                == y[i].addresses@,
{
    if x.len() > y.len() {
        let j = lemma_range_not_before(jobs, x, y, y.len() as int);
    }
    if y.len() > x.len() {
        let j = lemma_range_not_before(jobs, y, x, x.len() as int);
    }
    assert forall|i: int| 0 <= i < x.len() implies same_range(#[trigger] x[i], y[i])
        && x[i].addresses@ == y[i].addresses@ by {
        let j = lemma_range_not_before(jobs, x, y, i);
        let k = lemma_range_not_before(jobs, y, x, j);
        assert(segment_of(jobs, x[i]));
        assert(segment_of(jobs, x[k]));
        if i < k {
            assert(x[i].high <= x[k].low);
        }
        assert(j == i);
        assert(segment_of(jobs, y[i]));
        crate::address_set::lemma_sorted_unique(x[i].addresses@, y[i].addresses@);
    }
}

/// Every job of a rearrangement is a segment of the rearrangement itself.
proof fn lemma_segments_of_itself(jobs: Seq<BackfillJob>, out: Seq<BackfillJob>)
    requires
        rearranged(jobs, out),
    ensures
        forall|i: int| 0 <= i < out.len() ==> segment_of(out, #[trigger] out[i]),
{
    assert forall|i: int| 0 <= i < out.len() implies segment_of(out, #[trigger] out[i]) by {
        lemma_segment_of_itself(jobs, out, i);
    }
}

/// Every segment of a rearrangement that one of its jobs holds is one of its
/// jobs.
proof fn lemma_segments_are_jobs(jobs: Seq<BackfillJob>, out: Seq<BackfillJob>)
    requires
        rearranged(jobs, out),
    ensures
        forall|s: int, e: int, a: Address|
            consecutive_points(out, s, e) && #[trigger] covering(out, s, e, a) ==> exists|i: int|
                0 <= i < out.len() && (#[trigger] out[i]).low == s && out[i].high == e,
{
    assert forall|s: int, e: int, a: Address|
        consecutive_points(out, s, e) && #[trigger] covering(out, s, e, a) implies exists|i: int|
        0 <= i < out.len() && (#[trigger] out[i]).low == s && out[i].high == e by {
        let k = choose|k: int| 0 <= k < out.len() && job_covers(#[trigger] out[k], s, e, a);
        lemma_segment_is_job(jobs, out, k, s, e);
    }
}

/// Rearranging what was rearranged changes nothing.
pub proof fn lemma_rearrange_idempotent(jobs: Seq<BackfillJob>, out: Seq<BackfillJob>)
    requires
        rearranged(jobs, out),
    ensures
        rearranged(out, out),
{
    lemma_segments_of_itself(jobs, out);
    lemma_segments_are_jobs(jobs, out);
}

} // verus!
