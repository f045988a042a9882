//! Feed-time statistics of a streaming run: whether the recognizer keeps up
//! with the microphone.

use vstd::prelude::*;
use vstd::relations::{sorted_by, total_ordering};
use vstd::seq_lib::{lemma_sorted_unique, to_multiset_build, to_multiset_insert};

verus! {

/// How long feeding one chunk may take for streaming to keep up: the audio
/// length of a chunk, 160 ms.
pub const CHUNK_BUDGET_NANOS: u64 = 160_000_000;

/// Ascending order on feed times.
pub open spec fn ascending() -> spec_fn(u64, u64) -> bool {
    |a: u64, b: u64| a <= b
}

/// The total of all feed times.
pub open spec fn total_nanos(s: Seq<u64>) -> nat
    decreases s.len(),
{
    if s.len() == 0 {
        0
    } else {
        total_nanos(s.drop_last()) + (s.last() as nat)
    }
}

/// The longest feed time; zero for no feeds.
pub open spec fn longest_nanos(s: Seq<u64>) -> u64
    decreases s.len(),
{
    if s.len() == 0 {
        0
    } else if s.last() > longest_nanos(s.drop_last()) {
        s.last()
    } else {
        longest_nanos(s.drop_last())
    }
}

/// The position of the 95th percentile among `n` sorted values.
pub open spec fn p95_index(n: nat) -> int {
    (if n == 0 { 0 } else { n - 1 }) * 95 / 100
}

/// The steady-state 95th percentile: the first feed (the backend warming up)
/// is left out; zero when no other feed is left.
pub open spec fn steady_p95(s: Seq<u64>) -> u64 {
    if s.len() <= 1 {
        0
    } else {
        let rest = s.subrange(1, s.len() as int);
        rest.sort_by(ascending())[p95_index(rest.len())]
    }
}

/// Summary of the feed times of a streaming run.
#[derive(Debug, Clone, Copy, PartialEq, Eq)]
pub struct FeedStats {
    pub count: usize,
    pub avg_nanos: u128,
    pub p95_nanos: u64,
    pub max_nanos: u64,
    /// The steady-state 95th percentile fits the chunk budget.
    pub realtime: bool,
}

proof fn lemma_total_bound(s: Seq<u64>)
    ensures
        total_nanos(s) <= s.len() * (u64::MAX as int),
    decreases s.len(),
{
    if s.len() > 0 {
        lemma_total_bound(s.drop_last());
    }
}

proof fn lemma_ascending_total()
    ensures
        total_ordering(ascending()),
{
}

/// Sorts a copy of `s[from..]` ascending.
fn sorted_from(s: &Vec<u64>, from: usize) -> (v: Vec<u64>)
    requires
        from <= s.len(),
    ensures
        v@ == s@.subrange(from as int, s.len() as int).sort_by(ascending()),
        v@.len() == s.len() - from,
{
    let ghost src = s@.subrange(from as int, s.len() as int);
    let mut v: Vec<u64> = Vec::new();
    let mut i: usize = from;
    assert(v@ =~= src.subrange(0, 0));
    while i < s.len()
        invariant
            from <= i <= s.len(),
            src == s@.subrange(from as int, s.len() as int),
            sorted_by(v@, ascending()),
            v@.len() == i - from,
            v@.to_multiset() == src.subrange(0, i - from).to_multiset(),
        decreases s.len() - i,
    {
        let x = s[i];
        let mut p: usize = 0;
        while p < v.len() && v[p] <= x
            invariant
                p <= v.len(),
                forall|k: int| 0 <= k < p ==> v@[k] <= x,
            decreases v.len() - p,
        {
            p = p + 1;
        }
        let ghost old_v = v@;
        v.insert(p, x);
        assert(sorted_by(v@, ascending())) by {
            assert forall|a: int, b: int| 0 <= a < b < v@.len() implies #[trigger] ascending()(v@[a], v@[b]) by {
                if b < p {
                    assert(ascending()(old_v[a], old_v[b]));
                } else if b == p {
                    assert(old_v[a] <= x);
                } else if a <= p {
                    // v[a] <= x < old_v[p] <= old_v[b - 1] == v[b]
                    assert(x < old_v[p as int]);
                    if p < b - 1 {
                        assert(ascending()(old_v[p as int], old_v[b - 1]));
                    }
                } else {
                    assert(ascending()(old_v[a - 1], old_v[b - 1]));
                }
            }
        }
        assert(v@.to_multiset() == old_v.to_multiset().insert(x)) by {
            assert(v@ == old_v.insert(p as int, x));
            to_multiset_insert(old_v, p as int, x);
        }
        assert(src.subrange(0, i + 1 - from) =~= src.subrange(0, i - from).push(x));
        proof {
            to_multiset_build(src.subrange(0, i - from), x);
        }
        i = i + 1;
    }
    assert(src.subrange(0, i - from) =~= src);
    proof {
        lemma_ascending_total();
        src.lemma_sort_by_ensures(ascending());
        lemma_sorted_unique(v@, src.sort_by(ascending()), ascending());
    }
    v
}

/// Average, steady-state 95th percentile and maximum of the feed times, and
/// whether that percentile fits the chunk budget.
pub fn feed_stats(nanos: &Vec<u64>) -> (r: FeedStats)
    requires
        nanos.len() <= u32::MAX,
    ensures
        r.count == nanos.len(),
        r.avg_nanos == total_nanos(nanos@) / (if nanos.len() == 0 { 1 } else { nanos.len() as nat }),
        r.max_nanos == longest_nanos(nanos@),
        r.p95_nanos == steady_p95(nanos@),
        r.realtime == (r.p95_nanos < CHUNK_BUDGET_NANOS),
{
    let mut sum: u128 = 0;
    let mut max: u64 = 0;
    let mut i: usize = 0;
    while i < nanos.len()
        invariant
            i <= nanos.len() <= u32::MAX,
            sum == total_nanos(nanos@.subrange(0, i as int)),
            max == longest_nanos(nanos@.subrange(0, i as int)),
        decreases nanos.len() - i,
    {
        let ghost pre = nanos@.subrange(0, i as int);
        assert(nanos@.subrange(0, i + 1).drop_last() =~= pre);
        proof {
            lemma_total_bound(pre);
            assert(pre.len() * (u64::MAX as int) <= (u32::MAX as int) * (u64::MAX as int)) by (nonlinear_arith)
                requires
                    pre.len() <= u32::MAX,
            ;
        }
        sum = sum + nanos[i] as u128;
        if nanos[i] > max {
            max = nanos[i];
        }
        i = i + 1;
    }
    assert(nanos@.subrange(0, i as int) =~= nanos@);
    let n: usize = if nanos.len() == 0 { 1 } else { nanos.len() };
    let avg = sum / (n as u128);
    let p95: u64 = if nanos.len() <= 1 {
        0
    } else {
        let sorted = sorted_from(nanos, 1);
        let m: u64 = (sorted.len() - 1) as u64;
        let k: usize = (m * 95 / 100) as usize;
        sorted[k]
    };
    FeedStats { count: nanos.len(), avg_nanos: avg, p95_nanos: p95, max_nanos: max, realtime: p95 < CHUNK_BUDGET_NANOS }
}

} // verus!
