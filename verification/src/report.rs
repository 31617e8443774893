use vstd::prelude::*;

use crate::stats::{lemma_seq_sum_concat, seq_sum, Stats, StatsView};
use crate::tally::{count_of, CountMap};

verus! {

broadcast use vstd::seq_lib::group_to_multiset_ensures;

/// The sequence is in non-decreasing order.
pub open spec fn sorted_ascending(s: Seq<u64>) -> bool {
    forall|i: int, j: int| 0 <= i <= j < s.len() ==> s[i] <= s[j]
}

/// The nearest-rank index of the `pct`-th percentile in a sorted sequence of `n` values:
/// `floor(n * pct / 100)`.
pub open spec fn percentile_index(n: nat, pct: nat) -> int {
    (n * pct / 100) as int
}

/// The latency figures `(min, max, avg, p50, p95, p99)` of a sorted sequence of latencies
/// whose sum is `total`; all zero for no latency. The average is rounded down.
pub open spec fn latency_metrics(sorted: Seq<u64>, total: nat) -> (u64, u64, u64, u64, u64, u64) {
    let n = sorted.len();
    if n == 0 {
        (0, 0, 0, 0, 0, 0)
    } else {
        (
            sorted[0],
            sorted[n - 1],
            (total / n) as u64,
            sorted[percentile_index(n, 50)],
            sorted[percentile_index(n, 95)],
            sorted[percentile_index(n, 99)],
        )
    }
}

/// `r` lists every key of `m` once with its count, largest counts first.
pub open spec fn is_ranking(m: Map<Seq<char>, nat>, r: Seq<(String, u64)>) -> bool {
    &&& r.len() == m.len()
    &&& forall|i: int|
        0 <= i < r.len() ==> m.contains_key(#[trigger] r[i].0@) && m[r[i].0@] == r[i].1 as nat
    &&& forall|k: Seq<char>| #[trigger]
        m.contains_key(k) ==> exists|i: int| 0 <= i < r.len() && r[i].0@ == k
    &&& forall|i: int, j: int|
        0 <= i < r.len() && 0 <= j < r.len() && i != j ==> #[trigger] r[i].0@ != #[trigger] r[j].0@
    &&& forall|i: int, j: int| 0 <= i && i <= j && j < r.len() ==> #[trigger] r[i].1 >= #[trigger] r[j].1
}

/// `r` lists the `n` keys of `m` with the largest counts (all keys where `m` has fewer), each
/// once with its count, largest first: no key left out has a larger count than one listed.
pub open spec fn is_top(m: Map<Seq<char>, nat>, r: Seq<(String, u64)>, n: nat) -> bool {
    &&& r.len() == if n < m.len() {
        n
    } else {
        m.len()
    }
    &&& forall|i: int|
        0 <= i < r.len() ==> m.contains_key(#[trigger] r[i].0@) && m[r[i].0@] == r[i].1 as nat
    &&& forall|i: int, j: int|
        0 <= i < r.len() && 0 <= j < r.len() && i != j ==> #[trigger] r[i].0@ != #[trigger] r[j].0@
    &&& forall|i: int, j: int| 0 <= i && i <= j && j < r.len() ==> #[trigger] r[i].1 >= #[trigger] r[j].1
    &&& forall|k: Seq<char>, i: int|
        #![trigger m.contains_key(k), r[i]]
        m.contains_key(k) && (forall|j: int| 0 <= j < r.len() ==> r[j].0@ != k) && 0 <= i < r.len()
            ==> m[k] <= r[i].1
}

/// The entries of a tally, largest counts first.
pub fn ranked(m: &CountMap) -> (r: Vec<(String, u64)>)
    ensures
        is_ranking(m@, r@),
{
    let src = m.entries();
    let n = src.len();
    let mut out: Vec<(String, u64)> = Vec::new();
    assert(src@.take(0) =~= Seq::<(String, u64)>::empty());
    for i in 0..n
        invariant
            n == src@.len(),
            forall|a: int, b: int|
                0 <= a < src@.len() && 0 <= b < src@.len() && a != b ==> #[trigger] src@[a].0@
                    != #[trigger] src@[b].0@,
            out@.len() == i,
            out@.to_multiset() == src@.take(i as int).to_multiset(),
            forall|a: int, b: int|
                0 <= a < out@.len() && 0 <= b < out@.len() && a != b ==> #[trigger] out@[a].0@
                    != #[trigger] out@[b].0@,
            forall|a: int, b: int|
                0 <= a && a <= b && b < out@.len() ==> #[trigger] out@[a].1 >= #[trigger] out@[b].1,
    {
        let key = src[i].0.clone();
        let count = src[i].1;
        let e = (key, count);
        assert(e == src@[i as int]);
        let mut p: usize = 0;
        while p < out.len() && out[p].1 >= count
            invariant
                p <= out@.len(),
                forall|q: int| 0 <= q < p ==> #[trigger] out@[q].1 >= count,
            decreases out@.len() - p,
        {
            p = p + 1;
        }
        let ghost before = out@;
        proof {
            assert forall|a: int| 0 <= a < before.len() implies #[trigger] before[a].0@ != e.0@ by {
                assert(before.contains(before[a]));
                vstd::seq_lib::to_multiset_contains(before, before[a]);
                vstd::seq_lib::to_multiset_contains(src@.take(i as int), before[a]);
                let b = choose|b: int| 0 <= b < i && src@.take(i as int)[b] == before[a];
                assert(src@[b].0@ != src@[i as int].0@);
            }
        }
        out.insert(p, e);
        proof {
            vstd::seq_lib::to_multiset_insert(before, p as int, e);
            assert(src@.take(i + 1) =~= src@.take(i as int).push(e));
            vstd::seq_lib::to_multiset_build(src@.take(i as int), e);
            assert forall|a: int, b: int|
                0 <= a && a <= b && b < out@.len() implies #[trigger] out@[a].1 >= #[trigger] out@[b].1 by {
                if a < p && b == p {
                } else if a == p && b > p {
                    assert(before[p as int].1 < count);
                    assert(before[p as int].1 >= before[b - 1].1);
                } else if a < p && b > p {
                    assert(before[a].1 >= before[b - 1].1);
                } else if a > p {
                    assert(before[a - 1].1 >= before[b - 1].1);
                }
            }
            assert forall|a: int, b: int|
                0 <= a < out@.len() && 0 <= b < out@.len() && a != b implies #[trigger] out@[a].0@
                != #[trigger] out@[b].0@ by {
                if a < p && b < p {
                    assert(before[a].0@ != before[b].0@);
                } else if a < p && b > p {
                    assert(before[a].0@ != before[b - 1].0@);
                } else if a > p && b < p {
                    assert(before[a - 1].0@ != before[b].0@);
                } else if a > p && b > p {
                    assert(before[a - 1].0@ != before[b - 1].0@);
                } else if a == p {
                    if b < p {
                        assert(before[b].0@ != e.0@);
                    } else {
                        assert(before[b - 1].0@ != e.0@);
                    }
                } else {
                    if a < p {
                        assert(before[a].0@ != e.0@);
                    } else {
                        assert(before[a - 1].0@ != e.0@);
                    }
                }
            }
        }
    }
    proof {
        assert(src@.take(n as int) =~= src@);
        assert forall|i: int| 0 <= i < out@.len() implies m@.contains_key(#[trigger] out@[i].0@)
            && m@[out@[i].0@] == out@[i].1 as nat by {
            vstd::seq_lib::to_multiset_contains(out@, out@[i]);
            vstd::seq_lib::to_multiset_contains(src@, out@[i]);
            assert(out@.contains(out@[i]));
            let b = choose|b: int| 0 <= b < src@.len() && src@[b] == out@[i];
            assert(m@.contains_key(src@[b].0@));
        }
        assert forall|k: Seq<char>| #[trigger] m@.contains_key(k) implies exists|i: int|
            0 <= i < out@.len() && out@[i].0@ == k by {
            let b = choose|b: int| 0 <= b < src@.len() && src@[b].0@ == k;
            assert(src@.contains(src@[b]));
            vstd::seq_lib::to_multiset_contains(out@, src@[b]);
            vstd::seq_lib::to_multiset_contains(src@, src@[b]);
            let a = choose|a: int| 0 <= a < out@.len() && out@[a] == src@[b];
            assert(out@[a].0@ == k);
        }
    }
    out
}

/// The `n` entries of a tally with the largest counts, largest first.
pub fn top_entries(m: &CountMap, n: usize) -> (r: Vec<(String, u64)>)
    ensures
        is_top(m@, r@, n as nat),
{
    let mut all = ranked(m);
    let ghost full = all@;
    if n < all.len() {
        all.truncate(n);
    }
    proof {
        let r = all@;
        assert forall|k: Seq<char>, i: int|
            #![trigger m@.contains_key(k), r[i]]
            m@.contains_key(k) && (forall|j: int| 0 <= j < r.len() ==> r[j].0@ != k) && 0 <= i
                < r.len() implies m@[k] <= r[i].1 by {
            let a = choose|a: int| 0 <= a < full.len() && full[a].0@ == k;
            if a < r.len() {
                assert(r[a].0@ == k);
            }
            assert(full[i] == r[i]);
            assert(full[i].1 >= full[a].1);
        }
        assert forall|i: int| 0 <= i < r.len() implies m@.contains_key(#[trigger] r[i].0@)
            && m@[r[i].0@] == r[i].1 as nat by {
            assert(full[i] == r[i]);
        }
        assert forall|i: int, j: int|
            0 <= i < r.len() && 0 <= j < r.len() && i != j implies #[trigger] r[i].0@
            != #[trigger] r[j].0@ by {
            assert(full[i] == r[i]);
            assert(full[j] == r[j]);
        }
        assert forall|i: int, j: int| 0 <= i && i <= j && j < r.len() implies #[trigger] r[i].1
            >= #[trigger] r[j].1 by {
            assert(full[i] == r[i]);
            assert(full[j] == r[j]);
        }
    }
    all
}

/// `<[u64]>::sort_unstable`, through the `Vec`. Its documentation: it sorts the slice in
/// ascending order, without keeping the order of equal elements. The contract: the result is
/// in ascending order and holds the same values with the same multiplicities.
#[verifier::external_body]
fn sort_unstable_u64(v: &mut Vec<u64>)
    ensures
        sorted_ascending(final(v)@),
        final(v)@.to_multiset() == old(v)@.to_multiset(),
{
    v.sort_unstable();
}

/// The percentile index of `n` values, computed without overflow.
fn percentile_position(n: usize, pct: u8) -> (r: usize)
    requires
        n > 0,
        pct <= 100,
    ensures
        r == percentile_index(n as nat, pct as nat),
        r < n || pct == 100,
{
    let wide_n = n as u128;
    let wide_pct = pct as u128;
    assert(wide_n * wide_pct <= wide_n * 100) by (nonlinear_arith)
        requires
            wide_pct <= 100,
    ;
    let prod = wide_n * wide_pct;
    let q = prod / 100;
    assert(q <= wide_n) by (nonlinear_arith)
        requires
            prod <= wide_n * 100,
            q == prod / 100,
    ;
    assert(wide_pct < 100 ==> q < wide_n) by (nonlinear_arith)
        requires
            wide_n > 0,
            prod == wide_n * wide_pct,
            q == prod / 100,
    ;
    q as usize
}

impl Stats {
    /// The sum of all latencies, or `None` where it does not fit in a `u64`.
    pub fn latency_total(&self) -> (r: Option<u64>)
        ensures
            r matches Some(t) ==> t == seq_sum(self.latencies@),
            r is None ==> seq_sum(self.latencies@) > u64::MAX,
    {
        let n = self.latencies.len();
        let mut total: u64 = 0;
        for i in 0..n
            invariant
                n == self.latencies@.len(),
                total == seq_sum(self.latencies@.take(i as int)),
        {
            assert(self.latencies@.take(i + 1).drop_last() =~= self.latencies@.take(i as int));
            let x = self.latencies[i];
            if total > u64::MAX - x {
                proof {
                    lemma_sum_prefix_bounded(self.latencies@, i + 1);
                }
                return None;
            }
            total = total + x;
        }
        assert(self.latencies@.take(n as int) =~= self.latencies@);
        Some(total)
    }
}

/// The sum of a prefix is at most the sum of the whole.
proof fn lemma_sum_prefix_bounded(s: Seq<u64>, k: int)
    requires
        0 <= k <= s.len(),
    ensures
        seq_sum(s.take(k)) <= seq_sum(s),
    decreases s.len() - k,
{
    if k < s.len() {
        lemma_sum_prefix_bounded(s, k + 1);
        assert(s.take(k + 1).drop_last() =~= s.take(k));
    } else {
        assert(s.take(k) =~= s);
    }
}

/// Sorts the latencies of `stats` and computes `(min, max, avg, p50, p95, p99)` from them;
/// all zero where there is no latency.
pub fn calculate_latency_metrics(stats: &mut Stats) -> (r: (u64, u64, u64, u64, u64, u64))
    requires
        seq_sum(old(stats).latencies@) <= u64::MAX,
    ensures
        sorted_ascending(final(stats).latencies@),
        final(stats).latencies@.to_multiset() == old(stats).latencies@.to_multiset(),
        final(stats)@ == (StatsView { latencies: final(stats).latencies@, ..old(stats)@ }),
        r == latency_metrics(final(stats).latencies@, seq_sum(old(stats).latencies@)),
        sorted_ascending(old(stats).latencies@) ==> final(stats).latencies@ == old(
            stats,
        ).latencies@,
        old(stats).latencies@.len() == 0 ==> r == (0u64, 0u64, 0u64, 0u64, 0u64, 0u64),
        old(stats).latencies@.len() > 0 ==> {
            let s = final(stats).latencies@;
            let n = old(stats).latencies@.len();
            &&& s.len() == n
            &&& r.0 == s[0]
            &&& r.1 == s[n - 1]
            &&& r.2 == seq_sum(old(stats).latencies@) / n
            &&& r.3 == s[(n * 50 / 100) as int]
            &&& r.4 == s[(n * 95 / 100) as int]
            &&& r.5 == s[(n * 99 / 100) as int]
        },
{
    let total = stats.latency_total().unwrap();
    if stats.latencies.len() == 0 {
        return (0, 0, 0, 0, 0, 0);
    }
    sort_unstable_u64(&mut stats.latencies);
    let ghost sorted = stats.latencies@;
    proof {
        if sorted_ascending(old(stats).latencies@) {
            lemma_sorted_unique(sorted, old(stats).latencies@);
        }
    }
    let n = stats.latencies.len();
    proof {
        assert(sorted.len() == old(stats).latencies@.len()) by {
            assert(sorted.to_multiset().len() == old(stats).latencies@.to_multiset().len());
        }
    }
    let min = stats.latencies[0];
    let max = stats.latencies[n - 1];
    let avg = total / n as u64;
    let p50 = stats.latencies[percentile_position(n, 50)];
    let p95 = stats.latencies[percentile_position(n, 95)];
    let p99 = stats.latencies[percentile_position(n, 99)];
    (min, max, avg, p50, p95, p99)
}

/// For `n > 0` sorted latencies summing to `total`, the figures are the first and the last
/// latency, `total / n` rounded down (so that `avg * n <= total < (avg + 1) * n`), and the
/// latencies of rank `floor(n / 2)`, `floor(n * 95 / 100)` and `floor(n * 99 / 100)`.
pub proof fn law_latency_metrics_closed_form(sorted: Seq<u64>, total: nat)
    requires
        sorted.len() > 0,
        total <= u64::MAX,
    ensures
        ({
            let n = sorted.len();
            let (min, max, avg, p50, p95, p99) = latency_metrics(sorted, total);
            &&& min == sorted[0]
            &&& max == sorted[n - 1]
            &&& avg == total / n
            &&& avg * n <= total
            &&& total < (avg + 1) * n
            &&& p50 == sorted[(n / 2) as int]
            &&& p95 == sorted[(n * 95 / 100) as int]
            &&& p99 == sorted[(n * 99 / 100) as int]
        }),
{
    let n = sorted.len();
    let avg = total / n;
    assert(avg * n <= total && total < (avg + 1) * n) by (nonlinear_arith)
        requires
            n > 0,
            avg == total / n,
    ;
    assert(n * 50 / 100 == n / 2) by (nonlinear_arith);
}

/// A sum of values that all lie in `[lo, hi]` lies in `[n * lo, n * hi]`.
proof fn lemma_sum_between(s: Seq<u64>, lo: nat, hi: nat)
    requires
        forall|i: int| 0 <= i < s.len() ==> lo <= #[trigger] s[i] && s[i] <= hi,
    ensures
        s.len() * lo <= seq_sum(s),
        seq_sum(s) <= s.len() * hi,
    decreases s.len(),
{
    if s.len() > 0 {
        let t = s.drop_last();
        assert forall|i: int| 0 <= i < t.len() implies lo <= #[trigger] t[i] && t[i] <= hi by {
            assert(t[i] == s[i]);
        }
        lemma_sum_between(t, lo, hi);
        let n = s.len();
        let x = s.last() as nat;
        assert(lo <= x && x <= hi) by {
            assert(s[n - 1] == s.last());
        }
        assert(n * lo == t.len() * lo + lo) by (nonlinear_arith)
            requires
                n == t.len() + 1,
        ;
        assert(n * hi == t.len() * hi + hi) by (nonlinear_arith)
            requires
                n == t.len() + 1,
        ;
    }
}

/// The latency figures are ordered: `min <= p50 <= p95 <= p99 <= max`, and the average lies
/// between `min` and `max`, for any non-empty latencies `before` and their sorted form `after`.
pub proof fn law_latency_metrics_ordered(before: Seq<u64>, after: Seq<u64>)
    requires
        before.len() > 0,
        sorted_ascending(after),
        after.to_multiset() == before.to_multiset(),
    ensures
        ({
            let (min, max, avg, p50, p95, p99) = latency_metrics(after, seq_sum(before));
            &&& min <= p50
            &&& p50 <= p95
            &&& p95 <= p99
            &&& p99 <= max
            &&& min <= avg
            &&& avg <= max
        }),
{
    let n = after.len();
    assert(n == before.len()) by {
        vstd::seq_lib::to_multiset_len(after);
        vstd::seq_lib::to_multiset_len(before);
    }
    let i50 = percentile_index(n, 50);
    let i95 = percentile_index(n, 95);
    let i99 = percentile_index(n, 99);
    assert(0 <= i50 <= i95 && i95 <= i99 && i99 < n) by (nonlinear_arith)
        requires
            n > 0,
            i50 == (n * 50 / 100) as int,
            i95 == (n * 95 / 100) as int,
            i99 == (n * 99 / 100) as int,
    ;
    let lo = after[0] as nat;
    let hi = after[n - 1] as nat;
    assert forall|i: int| 0 <= i < before.len() implies lo <= #[trigger] before[i] && before[i]
        <= hi by {
        let x = before[i];
        assert(before.contains(x));
        assert(before.to_multiset().count(x) > 0);
        assert(after.contains(x));
        let j = choose|j: int| 0 <= j < after.len() && after[j] == x;
        assert(after[0] <= after[j]);
        assert(after[j] <= after[n - 1]);
    }
    lemma_sum_between(before, lo, hi);
    let total = seq_sum(before);
    assert(lo <= total / n && total / n <= hi) by (nonlinear_arith)
        requires
            n > 0,
            n * lo <= total,
            total <= n * hi,
    ;
}

/// One line of the endpoint table: an endpoint, its number of requests and its average
/// latency in milliseconds (rounded down), `None` where it has no request to divide by.
pub struct EndpointLine {
    pub endpoint: String,
    pub count: u64,
    pub avg_latency_ms: Option<u64>,
}

/// The overview part of the console report.
pub struct Overview {
    pub total_requests: u64,
    pub status_2xx: u64,
    pub status_3xx: u64,
    pub status_4xx: u64,
    pub status_5xx: u64,
    pub avg_latency_ms: u64,
    pub p50_latency_ms: u64,
    pub p95_latency_ms: u64,
    pub p99_latency_ms: u64,
    /// Requests by HTTP method, most frequent first.
    pub methods: Vec<(String, u64)>,
    /// The endpoints with the most requests, most frequent first.
    pub top_endpoints: Vec<EndpointLine>,
}

/// What the console report shows: the overview unless only errors are asked for, and the
/// server errors by endpoint when asked for only errors or when there are any.
pub struct ConsoleReport {
    pub overview: Option<Overview>,
    pub server_errors: Option<Vec<(String, u64)>>,
}

/// The (endpoint, count) pairs of endpoint lines.
pub open spec fn line_pairs(lines: Seq<EndpointLine>) -> Seq<(String, u64)> {
    lines.map_values(|l: EndpointLine| (l.endpoint, l.count))
}

/// The average latency of an endpoint line: the summed latency of its endpoint divided by its
/// count, rounded down; `None` for a zero count.
pub open spec fn line_average(latencies: Map<Seq<char>, nat>, l: EndpointLine) -> Option<u64> {
    if l.count > 0 {
        Some((count_of(latencies, l.endpoint@) / (l.count as nat)) as u64)
    } else {
        None
    }
}

/// Every endpoint requested at least once has an average latency: its summed latency divided
/// by its number of requests, rounded down; only a zero count has none.
pub proof fn law_line_average(latencies: Map<Seq<char>, nat>, l: EndpointLine)
    ensures
        l.count >= 1 ==> line_average(latencies, l) == Some(
            (count_of(latencies, l.endpoint@) / (l.count as nat)) as u64,
        ),
        l.count >= 1 ==> line_average(latencies, l) is Some,
        l.count == 0 ==> line_average(latencies, l) is None,
{
}

/// A reporter that prints a human-readable table to the console.
pub struct ConsoleReporter;

impl ConsoleReporter {
    /// The content of the console report on `stats` with `top_n` endpoints. Unless
    /// `errors_only`, the latencies of `stats` are sorted on the way, as
    /// `calculate_latency_metrics` does.
    pub fn prepare(&self, stats: &mut Stats, top_n: usize, errors_only: bool) -> (r: ConsoleReport)
        requires
            errors_only || seq_sum(old(stats).latencies@) <= u64::MAX,
        ensures
            errors_only ==> final(stats)@ == old(stats)@,
            !errors_only ==> {
                &&& sorted_ascending(final(stats).latencies@)
                &&& final(stats).latencies@.to_multiset() == old(stats).latencies@.to_multiset()
                &&& final(stats)@ == (StatsView { latencies: final(stats).latencies@, ..old(stats)@ })
            },
            r.overview is Some <==> !errors_only,
            r.overview matches Some(o) ==> {
                let (_, _, avg, p50, p95, p99) = latency_metrics(
                    final(stats).latencies@,
                    seq_sum(old(stats).latencies@),
                );
                &&& o.total_requests == old(stats).total_requests
                &&& o.status_2xx == old(stats).status_2xx
                &&& o.status_3xx == old(stats).status_3xx
                &&& o.status_4xx == old(stats).status_4xx
                &&& o.status_5xx == old(stats).status_5xx
                &&& o.avg_latency_ms == avg
                &&& o.p50_latency_ms == p50
                &&& o.p95_latency_ms == p95
                &&& o.p99_latency_ms == p99
                &&& is_ranking(old(stats)@.method_counts, o.methods@)
                &&& is_top(old(stats)@.endpoint_counts, line_pairs(o.top_endpoints@), top_n as nat)
                &&& forall|i: int|
                    0 <= i < o.top_endpoints@.len() ==> #[trigger] o.top_endpoints@[i].avg_latency_ms
                        == line_average(old(stats)@.endpoint_latencies, o.top_endpoints@[i])
                &&& forall|i: int|
                    0 <= i < o.top_endpoints@.len() && #[trigger] o.top_endpoints@[i].count >= 1
                        ==> o.top_endpoints@[i].avg_latency_ms == Some(
                        (count_of(old(stats)@.endpoint_latencies, o.top_endpoints@[i].endpoint@)
                            / (o.top_endpoints@[i].count as nat)) as u64,
                    )
            },
            r.server_errors is Some <==> (errors_only || old(stats)@.server_errors.len() > 0),
            r.server_errors matches Some(list) ==> is_ranking(old(stats)@.server_errors, list@),
    {
        let overview = if !errors_only {
            let (_min, _max, avg, p50, p95, p99) = calculate_latency_metrics(stats);
            let methods = ranked(&stats.method_counts);
            let top = top_entries(&stats.endpoint_counts, top_n);
            let mut lines: Vec<EndpointLine> = Vec::new();
            let k = top.len();
            for i in 0..k
                invariant
                    k == top@.len(),
                    lines@.len() == i,
                    forall|j: int|
                        0 <= j < i ==> (#[trigger] lines@[j]).endpoint == top@[j].0 && lines@[j].count
                            == top@[j].1 && lines@[j].avg_latency_ms == line_average(
                            stats@.endpoint_latencies,
                            lines@[j],
                        ),
            {
                let endpoint = top[i].0.clone();
                let count = top[i].1;
                let avg_latency_ms = if count > 0 {
                    let total: u64 = match stats.endpoint_latencies.get(endpoint.as_str()) {
                        Some(v) => *v,
                        None => 0,
                    };
                    Some(total / count)
                } else {
                    None
                };
                lines.push(EndpointLine { endpoint, count, avg_latency_ms });
            }
            assert(line_pairs(lines@) =~= top@);
            Some(
                Overview {
                    total_requests: stats.total_requests,
                    status_2xx: stats.status_2xx,
                    status_3xx: stats.status_3xx,
                    status_4xx: stats.status_4xx,
                    status_5xx: stats.status_5xx,
                    avg_latency_ms: avg,
                    p50_latency_ms: p50,
                    p95_latency_ms: p95,
                    p99_latency_ms: p99,
                    methods,
                    top_endpoints: lines,
                },
            )
        } else {
            None
        };
        let server_errors = if errors_only || !stats.server_errors.is_empty() {
            Some(ranked(&stats.server_errors))
        } else {
            None
        };
        ConsoleReport { overview, server_errors }
    }
}

/// The part of the JSON report that is left out when only errors are asked for: the
/// non-error counters, the latency figures, the methods and the top endpoints.
pub struct JsonOverview {
    pub total_requests: u64,
    pub status_2xx: u64,
    pub status_3xx: u64,
    pub min_latency_ms: u64,
    pub max_latency_ms: u64,
    pub avg_latency_ms: u64,
    pub p50_latency_ms: u64,
    pub p95_latency_ms: u64,
    pub p99_latency_ms: u64,
    /// Requests by HTTP method.
    pub method_counts: CountMap,
    /// The endpoints with the most requests, most frequent first.
    pub endpoint_counts: Vec<(String, u64)>,
}

/// The content of the JSON report: the overview unless only errors are asked for, and the
/// error statistics always.
pub struct JsonReport {
    pub overview: Option<JsonOverview>,
    pub status_4xx: u64,
    pub status_5xx: u64,
    pub server_errors: CountMap,
}

/// A reporter that outputs statistics as a JSON document.
pub struct JsonReporter;

impl JsonReporter {
    /// The content of the JSON report on `stats` with `top_n` endpoints, or only its error
    /// statistics when `errors_only`. Unless `errors_only`, the latencies of `stats` are sorted
    /// on the way, as `calculate_latency_metrics` does.
    pub fn prepare(&self, stats: &mut Stats, top_n: usize, errors_only: bool) -> (r: JsonReport)
        requires
            errors_only || seq_sum(old(stats).latencies@) <= u64::MAX,
        ensures
            errors_only ==> final(stats)@ == old(stats)@,
            !errors_only ==> {
                &&& sorted_ascending(final(stats).latencies@)
                &&& final(stats).latencies@.to_multiset() == old(stats).latencies@.to_multiset()
                &&& final(stats)@ == (StatsView { latencies: final(stats).latencies@, ..old(stats)@ })
            },
            r.status_4xx == old(stats).status_4xx,
            r.status_5xx == old(stats).status_5xx,
            r.server_errors@ == old(stats)@.server_errors,
            r.overview is Some <==> !errors_only,
            r.overview matches Some(o) ==> {
                &&& (o.min_latency_ms, o.max_latency_ms, o.avg_latency_ms, o.p50_latency_ms,
                o.p95_latency_ms, o.p99_latency_ms) == latency_metrics(
                    final(stats).latencies@,
                    seq_sum(old(stats).latencies@),
                )
                &&& o.total_requests == old(stats).total_requests
                &&& o.status_2xx == old(stats).status_2xx
                &&& o.status_3xx == old(stats).status_3xx
                &&& o.method_counts@ == old(stats)@.method_counts
                &&& is_top(old(stats)@.endpoint_counts, o.endpoint_counts@, top_n as nat)
            },
    {
        let overview = if !errors_only {
            let (min, max, avg, p50, p95, p99) = calculate_latency_metrics(stats);
            Some(
                JsonOverview {
                    total_requests: stats.total_requests,
                    status_2xx: stats.status_2xx,
                    status_3xx: stats.status_3xx,
                    min_latency_ms: min,
                    max_latency_ms: max,
                    avg_latency_ms: avg,
                    p50_latency_ms: p50,
                    p95_latency_ms: p95,
                    p99_latency_ms: p99,
                    method_counts: stats.method_counts.clone(),
                    endpoint_counts: top_entries(&stats.endpoint_counts, top_n),
                },
            )
        } else {
            None
        };
        JsonReport {
            overview,
            status_4xx: stats.status_4xx,
            status_5xx: stats.status_5xx,
            server_errors: stats.server_errors.clone(),
        }
    }
}

/// Two sorted sequences with the same values, each as often, are equal: the sorted order of
/// a collection of latencies is unique.
pub proof fn lemma_sorted_unique(a: Seq<u64>, b: Seq<u64>)
    requires
        sorted_ascending(a),
        sorted_ascending(b),
        a.to_multiset() == b.to_multiset(),
    ensures
        a == b,
    decreases a.len(),
{
    vstd::seq_lib::to_multiset_len(a);
    vstd::seq_lib::to_multiset_len(b);
    if a.len() == 0 {
        assert(a =~= b);
    } else {
        assert(a.contains(a[0]));
        vstd::seq_lib::to_multiset_contains(a, a[0]);
        vstd::seq_lib::to_multiset_contains(b, a[0]);
        let j = choose|j: int| 0 <= j < b.len() && b[j] == a[0];
        assert(b[0] <= b[j]);
        assert(b.contains(b[0]));
        vstd::seq_lib::to_multiset_contains(b, b[0]);
        vstd::seq_lib::to_multiset_contains(a, b[0]);
        let i = choose|i: int| 0 <= i < a.len() && a[i] == b[0];
        assert(a[0] <= a[i]);
        vstd::seq_lib::to_multiset_remove(a, 0);
        vstd::seq_lib::to_multiset_remove(b, 0);
        assert(a.remove(0) =~= a.drop_first());
        assert(b.remove(0) =~= b.drop_first());
        lemma_sorted_unique(a.drop_first(), b.drop_first());
        assert(a =~= b) by {
            assert forall|k: int| 0 <= k < a.len() implies a[k] == b[k] by {
                if k > 0 {
                    assert(a[k] == a.drop_first()[k - 1]);
                    assert(b[k] == b.drop_first()[k - 1]);
                }
            }
        }
    }
}

/// Removing one latency takes it off the sum.
proof fn lemma_seq_sum_remove(s: Seq<u64>, j: int)
    requires
        0 <= j < s.len(),
    ensures
        seq_sum(s) == seq_sum(s.remove(j)) + s[j] as nat,
{
    let p = s.take(j);
    let q = s.skip(j + 1);
    assert(s =~= p + seq![s[j]] + q);
    assert(s.remove(j) =~= p + q);
    lemma_seq_sum_concat(p + seq![s[j]], q);
    lemma_seq_sum_concat(p, seq![s[j]]);
    lemma_seq_sum_concat(p, q);
    assert(seq![s[j]].drop_last() =~= Seq::<u64>::empty());
    assert(seq_sum(Seq::<u64>::empty()) == 0);
    assert(seq_sum(seq![s[j]]) == s[j] as nat);
}

/// Sequences with the same values, each as often, have the same sum.
pub proof fn lemma_seq_sum_permutation(a: Seq<u64>, b: Seq<u64>)
    requires
        a.to_multiset() == b.to_multiset(),
    ensures
        seq_sum(a) == seq_sum(b),
    decreases a.len(),
{
    vstd::seq_lib::to_multiset_len(a);
    vstd::seq_lib::to_multiset_len(b);
    if a.len() == 0 {
        assert(b.len() == 0);
    } else {
        let x = a.last();
        assert(a.contains(x)) by {
            assert(a[a.len() - 1] == x);
        }
        vstd::seq_lib::to_multiset_contains(a, x);
        vstd::seq_lib::to_multiset_contains(b, x);
        let j = choose|j: int| 0 <= j < b.len() && b[j] == x;
        vstd::seq_lib::to_multiset_remove(b, j);
        vstd::seq_lib::to_multiset_remove(a, a.len() - 1);
        assert(a.remove(a.len() - 1) =~= a.drop_last());
        lemma_seq_sum_permutation(a.drop_last(), b.remove(j));
        lemma_seq_sum_remove(b, j);
    }
}

/// The latency figures depend only on the latencies as a collection of values: two sets of
/// statistics whose latencies are the same values, each as often, sort them into the same
/// sequence and have the same sum, hence the same figures, whatever their other fields.
pub proof fn law_latency_metrics_depend_on_values_only(
    before1: Seq<u64>,
    after1: Seq<u64>,
    before2: Seq<u64>,
    after2: Seq<u64>,
)
    requires
        before1.to_multiset() == before2.to_multiset(),
        sorted_ascending(after1),
        after1.to_multiset() == before1.to_multiset(),
        sorted_ascending(after2),
        after2.to_multiset() == before2.to_multiset(),
    ensures
        after1 == after2,
        seq_sum(before1) == seq_sum(before2),
        latency_metrics(after1, seq_sum(before1)) == latency_metrics(after2, seq_sum(before2)),
{
    lemma_sorted_unique(after1, after2);
    lemma_seq_sum_permutation(before1, before2);
}

} // verus!
