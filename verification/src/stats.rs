use vstd::prelude::*;

use crate::error::ParseError;
use crate::models::{EntryView, LogEntry};
use crate::parser::{line_outcome, parse_line, LineOutcome};
use crate::tally::{
    bump, count_of, fits_u64, lemma_bump_fits, lemma_sum_fits, lemma_total_bump, lemma_total_empty,
    lemma_total_sum, sum_counts, total_count, CountMap,
};

verus! {

/// The status is a success (2xx).
pub open spec fn is_2xx(status: u16) -> bool {
    200 <= status && status <= 299
}

/// The status is a redirect (3xx).
pub open spec fn is_3xx(status: u16) -> bool {
    300 <= status && status <= 399
}

/// The status is a client error (4xx).
pub open spec fn is_4xx(status: u16) -> bool {
    400 <= status && status <= 499
}

/// The status is a server error (5xx).
pub open spec fn is_5xx(status: u16) -> bool {
    500 <= status && status <= 599
}

/// The sum of a sequence of latencies.
pub open spec fn seq_sum(s: Seq<u64>) -> nat
    decreases s.len(),
{
    if s.len() == 0 {
        0
    } else {
        seq_sum(s.drop_last()) + s.last() as nat
    }
}

/// The sum of a concatenation is the sum of the sums.
pub proof fn lemma_seq_sum_concat(a: Seq<u64>, b: Seq<u64>)
    ensures
        seq_sum(a + b) == seq_sum(a) + seq_sum(b),
    decreases b.len(),
{
    if b.len() == 0 {
        assert(a + b =~= a);
    } else {
        assert((a + b).drop_last() =~= a + b.drop_last());
        lemma_seq_sum_concat(a, b.drop_last());
    }
}

/// The mathematical value of `Stats`: its counters as natural numbers and its tallies as maps.
#[verifier::ext_equal]
pub struct StatsView {
    pub total_requests: nat,
    pub status_2xx: nat,
    pub status_3xx: nat,
    pub status_4xx: nat,
    pub status_5xx: nat,
    pub latencies: Seq<u64>,
    pub endpoint_counts: Map<Seq<char>, nat>,
    pub endpoint_latencies: Map<Seq<char>, nat>,
    pub method_counts: Map<Seq<char>, nat>,
    pub server_errors: Map<Seq<char>, nat>,
}

impl StatsView {
    /// The statistics of no request at all.
    pub open spec fn empty() -> StatsView {
        StatsView {
            total_requests: 0,
            status_2xx: 0,
            status_3xx: 0,
            status_4xx: 0,
            status_5xx: 0,
            latencies: Seq::empty(),
            endpoint_counts: Map::empty(),
            endpoint_latencies: Map::empty(),
            method_counts: Map::empty(),
            server_errors: Map::empty(),
        }
    }

    /// These statistics with one more request counted.
    pub open spec fn record(self, e: EntryView) -> StatsView {
        StatsView {
            total_requests: self.total_requests + 1,
            status_2xx: if is_2xx(e.status) {
                self.status_2xx + 1
            } else {
                self.status_2xx
            },
            status_3xx: if is_3xx(e.status) {
                self.status_3xx + 1
            } else {
                self.status_3xx
            },
            status_4xx: if is_4xx(e.status) {
                self.status_4xx + 1
            } else {
                self.status_4xx
            },
            status_5xx: if is_5xx(e.status) {
                self.status_5xx + 1
            } else {
                self.status_5xx
            },
            latencies: self.latencies.push(e.response_time_ms),
            endpoint_counts: bump(self.endpoint_counts, e.endpoint, 1),
            endpoint_latencies: bump(self.endpoint_latencies, e.endpoint, e.response_time_ms as nat),
            method_counts: bump(self.method_counts, e.method, 1),
            server_errors: if is_5xx(e.status) {
                bump(self.server_errors, e.endpoint, 1)
            } else {
                self.server_errors
            },
        }
    }

    /// These statistics with every request of `es` counted, in order.
    pub open spec fn record_all(self, es: Seq<EntryView>) -> StatsView
        decreases es.len(),
    {
        if es.len() == 0 {
            self
        } else {
            self.record_all(es.drop_last()).record(es.last())
        }
    }

    /// The statistics of the requests of both: counters and tallies added, latencies of `self`
    /// followed by those of `other`.
    pub open spec fn combine(self, other: StatsView) -> StatsView {
        StatsView {
            total_requests: self.total_requests + other.total_requests,
            status_2xx: self.status_2xx + other.status_2xx,
            status_3xx: self.status_3xx + other.status_3xx,
            status_4xx: self.status_4xx + other.status_4xx,
            status_5xx: self.status_5xx + other.status_5xx,
            latencies: self.latencies + other.latencies,
            endpoint_counts: sum_counts(self.endpoint_counts, other.endpoint_counts),
            endpoint_latencies: sum_counts(self.endpoint_latencies, other.endpoint_latencies),
            method_counts: sum_counts(self.method_counts, other.method_counts),
            server_errors: sum_counts(self.server_errors, other.server_errors),
        }
    }

    /// The relations between the fields that counting requests keeps: one latency per
    /// request; no more classified requests than requests; finitely many keys in each tally;
    /// the same endpoints in the count and latency tallies; no zero count of an endpoint or a
    /// method, and no endpoint with fewer requests than server errors or with none of these;
    /// the endpoint counts and the method counts each summing to the number of requests, the
    /// server errors to the number of 5xx responses, and the endpoint latencies to the sum of
    /// all latencies.
    pub open spec fn consistent(self) -> bool {
        &&& self.latencies.len() == self.total_requests
        &&& self.status_2xx + self.status_3xx + self.status_4xx + self.status_5xx
            <= self.total_requests
        &&& self.endpoint_counts.dom().finite()
        &&& self.endpoint_latencies.dom().finite()
        &&& self.method_counts.dom().finite()
        &&& self.server_errors.dom().finite()
        &&& self.endpoint_counts.dom() == self.endpoint_latencies.dom()
        &&& forall|k: Seq<char>| #[trigger]
            self.endpoint_counts.contains_key(k) ==> self.endpoint_counts[k] >= 1
        &&& forall|k: Seq<char>| #[trigger]
            self.method_counts.contains_key(k) ==> self.method_counts[k] >= 1
        &&& forall|k: Seq<char>| #[trigger]
            self.server_errors.contains_key(k) ==> 1 <= self.server_errors[k]
                <= count_of(self.endpoint_counts, k)
        &&& total_count(self.endpoint_counts) == self.total_requests
        &&& total_count(self.method_counts) == self.total_requests
        &&& total_count(self.server_errors) == self.status_5xx
        &&& total_count(self.endpoint_latencies) == seq_sum(self.latencies)
    }

    /// Every counter and every count of a tally fits in a `u64`.
    pub open spec fn fits_u64(self) -> bool {
        &&& self.total_requests <= u64::MAX
        &&& self.status_2xx <= u64::MAX
        &&& self.status_3xx <= u64::MAX
        &&& self.status_4xx <= u64::MAX
        &&& self.status_5xx <= u64::MAX
        &&& fits_u64(self.endpoint_counts)
        &&& fits_u64(self.endpoint_latencies)
        &&& fits_u64(self.method_counts)
        &&& fits_u64(self.server_errors)
    }
}

/// What became of one line of the log.
#[derive(Debug)]
pub enum LineTally {
    /// The line was parsed and counted.
    Counted,
    /// The line does not parse; nothing was counted.
    Skipped(ParseError),
    /// Counting the line would take a counter past `u64::MAX`; nothing was counted.
    Overflow,
}

/// The statistics computed from log entries.
#[derive(Debug, Clone)]
pub struct Stats {
    pub total_requests: u64,
    pub status_2xx: u64,
    pub status_3xx: u64,
    pub status_4xx: u64,
    pub status_5xx: u64,
    /// The latency of every request, in the order in which they were counted.
    pub latencies: Vec<u64>,
    /// The number of requests by endpoint.
    pub endpoint_counts: CountMap,
    /// The sum of the latencies by endpoint.
    pub endpoint_latencies: CountMap,
    /// The number of requests by HTTP method.
    pub method_counts: CountMap,
    /// The number of 5xx responses by endpoint.
    pub server_errors: CountMap,
}

impl View for Stats {
    type V = StatsView;

    open spec fn view(&self) -> StatsView {
        StatsView {
            total_requests: self.total_requests as nat,
            status_2xx: self.status_2xx as nat,
            status_3xx: self.status_3xx as nat,
            status_4xx: self.status_4xx as nat,
            status_5xx: self.status_5xx as nat,
            latencies: self.latencies@,
            endpoint_counts: self.endpoint_counts@,
            endpoint_latencies: self.endpoint_latencies@,
            method_counts: self.method_counts@,
            server_errors: self.server_errors@,
        }
    }
}

impl Default for Stats {
    fn default() -> (r: Self)
        ensures
            r@ == StatsView::empty(),
    {
        Stats {
            total_requests: 0,
            status_2xx: 0,
            status_3xx: 0,
            status_4xx: 0,
            status_5xx: 0,
            latencies: Vec::new(),
            endpoint_counts: CountMap::new(),
            endpoint_latencies: CountMap::new(),
            method_counts: CountMap::new(),
            server_errors: CountMap::new(),
        }
    }
}

impl Stats {
    /// Every counter and count of a `Stats` fits in a `u64`.
    pub proof fn lemma_fits(&self)
        ensures
            self@.fits_u64(),
    {
        self.endpoint_counts.lemma_counts_fit();
        self.endpoint_latencies.lemma_counts_fit();
        self.method_counts.lemma_counts_fit();
        self.server_errors.lemma_counts_fit();
    }

    /// When counting `e` stays within `u64`: exactly when each tally it touches does.
    proof fn lemma_record_fits(&self, e: EntryView)
        ensures
            self@.fits_u64(),
            fits_u64(bump(self@.endpoint_counts, e.endpoint, 1)) <==> count_of(
                self@.endpoint_counts,
                e.endpoint,
            ) + 1 <= u64::MAX,
            fits_u64(bump(self@.endpoint_latencies, e.endpoint, e.response_time_ms as nat))
                <==> count_of(self@.endpoint_latencies, e.endpoint) + e.response_time_ms
                <= u64::MAX,
            fits_u64(bump(self@.method_counts, e.method, 1)) <==> count_of(
                self@.method_counts,
                e.method,
            ) + 1 <= u64::MAX,
            fits_u64(bump(self@.server_errors, e.endpoint, 1)) <==> count_of(
                self@.server_errors,
                e.endpoint,
            ) + 1 <= u64::MAX,
    {
        self.lemma_fits();
        lemma_bump_fits(self@.endpoint_counts, e.endpoint, 1);
        lemma_bump_fits(self@.endpoint_latencies, e.endpoint, e.response_time_ms as nat);
        lemma_bump_fits(self@.method_counts, e.method, 1);
        lemma_bump_fits(self@.server_errors, e.endpoint, 1);
    }

    /// When merging `other` stays within `u64`: exactly when each pair of tallies does.
    proof fn lemma_combine_fits(&self, other: &Stats)
        ensures
            self@.fits_u64(),
            other@.fits_u64(),
            fits_u64(sum_counts(self@.endpoint_counts, other@.endpoint_counts)) <==> (forall|
                k: Seq<char>,
            | #[trigger]
                other@.endpoint_counts.contains_key(k) ==> count_of(self@.endpoint_counts, k)
                    + other@.endpoint_counts[k] <= u64::MAX),
            fits_u64(sum_counts(self@.endpoint_latencies, other@.endpoint_latencies)) <==> (forall|
                k: Seq<char>,
            | #[trigger]
                other@.endpoint_latencies.contains_key(k) ==> count_of(
                    self@.endpoint_latencies,
                    k,
                ) + other@.endpoint_latencies[k] <= u64::MAX),
            fits_u64(sum_counts(self@.method_counts, other@.method_counts)) <==> (forall|
                k: Seq<char>,
            | #[trigger]
                other@.method_counts.contains_key(k) ==> count_of(self@.method_counts, k)
                    + other@.method_counts[k] <= u64::MAX),
            fits_u64(sum_counts(self@.server_errors, other@.server_errors)) <==> (forall|
                k: Seq<char>,
            | #[trigger]
                other@.server_errors.contains_key(k) ==> count_of(self@.server_errors, k)
                    + other@.server_errors[k] <= u64::MAX),
    {
        self.lemma_fits();
        other.lemma_fits();
        lemma_sum_fits(self@.endpoint_counts, other@.endpoint_counts);
        lemma_sum_fits(self@.endpoint_latencies, other@.endpoint_latencies);
        lemma_sum_fits(self@.method_counts, other@.method_counts);
        lemma_sum_fits(self@.server_errors, other@.server_errors);
    }

    /// Creates empty statistics.
    pub fn new() -> (r: Self)
        ensures
            r@ == StatsView::empty(),
    {
        Stats::default()
    }

    /// Whether counting `entry` keeps every counter and count within `u64`: the condition of
    /// `add_entry`.
    pub fn can_add(&self, entry: &LogEntry) -> (b: bool)
        ensures
            b == self@.record(entry@).fits_u64(),
    {
        proof {
            self.lemma_record_fits(entry@);
        }
        let status = entry.status;
        if self.total_requests == u64::MAX {
            return false;
        }
        if 200 <= status && status <= 299 && self.status_2xx == u64::MAX {
            return false;
        }
        if 300 <= status && status <= 399 && self.status_3xx == u64::MAX {
            return false;
        }
        if 400 <= status && status <= 499 && self.status_4xx == u64::MAX {
            return false;
        }
        if 500 <= status && status <= 599 {
            if self.status_5xx == u64::MAX {
                return false;
            }
            let errors: u64 = match self.server_errors.get(entry.endpoint.as_str()) {
                Some(v) => *v,
                None => 0,
            };
            if errors == u64::MAX {
                return false;
            }
        }
        let count: u64 = match self.endpoint_counts.get(entry.endpoint.as_str()) {
            Some(v) => *v,
            None => 0,
        };
        if count == u64::MAX {
            return false;
        }
        let latency: u64 = match self.endpoint_latencies.get(entry.endpoint.as_str()) {
            Some(v) => *v,
            None => 0,
        };
        if latency > u64::MAX - entry.response_time_ms {
            return false;
        }
        let method: u64 = match self.method_counts.get(entry.method.as_str()) {
            Some(v) => *v,
            None => 0,
        };
        if method == u64::MAX {
            return false;
        }
        true
    }

    /// Counts one log entry: the total, its status class, its latency, its endpoint and its
    /// method, and, for a 5xx status, a server error of its endpoint.
    pub fn add_entry(&mut self, entry: &LogEntry)
        requires
            old(self)@.record(entry@).fits_u64(),
        ensures
            final(self)@ == old(self)@.record(entry@),
            final(self).total_requests == old(self).total_requests + 1,
            final(self).status_2xx == old(self).status_2xx + if 200 <= entry.status
                && entry.status <= 299 {
                1int
            } else {
                0int
            },
            final(self).status_3xx == old(self).status_3xx + if 300 <= entry.status
                && entry.status <= 399 {
                1int
            } else {
                0int
            },
            final(self).status_4xx == old(self).status_4xx + if 400 <= entry.status
                && entry.status <= 499 {
                1int
            } else {
                0int
            },
            final(self).status_5xx == old(self).status_5xx + if 500 <= entry.status
                && entry.status <= 599 {
                1int
            } else {
                0int
            },
            final(self)@.server_errors == if 500 <= entry.status && entry.status <= 599 {
                old(self)@.server_errors.insert(
                    entry.endpoint@,
                    count_of(old(self)@.server_errors, entry.endpoint@) + 1,
                )
            } else {
                old(self)@.server_errors
            },
            final(self).latencies@ == old(self).latencies@.push(entry.response_time_ms),
            final(self)@.endpoint_counts == old(self)@.endpoint_counts.insert(
                entry.endpoint@,
                count_of(old(self)@.endpoint_counts, entry.endpoint@) + 1,
            ),
            final(self)@.endpoint_latencies == old(self)@.endpoint_latencies.insert(
                entry.endpoint@,
                count_of(old(self)@.endpoint_latencies, entry.endpoint@) + entry.response_time_ms as nat,
            ),
            final(self)@.method_counts == old(self)@.method_counts.insert(
                entry.method@,
                count_of(old(self)@.method_counts, entry.method@) + 1,
            ),
    {
        proof {
            self.lemma_record_fits(entry@);
        }
        self.total_requests += 1;
        self.latencies.push(entry.response_time_ms);
        let status = entry.status;
        if 200 <= status && status <= 299 {
            self.status_2xx += 1;
        } else if 300 <= status && status <= 399 {
            self.status_3xx += 1;
        } else if 400 <= status && status <= 499 {
            self.status_4xx += 1;
        } else if 500 <= status && status <= 599 {
            self.status_5xx += 1;
            self.server_errors.add(entry.endpoint.clone(), 1);
        }
        self.endpoint_counts.add(entry.endpoint.clone(), 1);
        self.endpoint_latencies.add(entry.endpoint.clone(), entry.response_time_ms);
        self.method_counts.add(entry.method.clone(), 1);
    }

    /// Parses `line` and counts the entry that it describes; a line that does not parse is
    /// skipped, and one whose counting would overflow a counter is refused.
    pub fn add_line(&mut self, line: &str) -> (r: LineTally)
        ensures
            match line_outcome(line@) {
                LineOutcome::Parsed(e) => if old(self)@.record(e).fits_u64() {
                    r is Counted && final(self)@ == old(self)@.record(e)
                } else {
                    r is Overflow && final(self)@ == old(self)@
                },
                LineOutcome::MissingFields => r matches LineTally::Skipped(ParseError::MissingFields)
                    && final(self)@ == old(self)@,
                LineOutcome::InvalidNumber => r matches LineTally::Skipped(
                    ParseError::InvalidNumber(_),
                ) && final(self)@ == old(self)@,
                LineOutcome::InvalidLatencyFormat => r matches LineTally::Skipped(
                    ParseError::InvalidLatencyFormat,
                ) && final(self)@ == old(self)@,
            },
    {
        match parse_line(line) {
            Ok(entry) => {
                if self.can_add(&entry) {
                    self.add_entry(&entry);
                    LineTally::Counted
                } else {
                    LineTally::Overflow
                }
            },
            Err(e) => LineTally::Skipped(e),
        }
    }

    /// Whether merging `other` keeps every counter and count within `u64`: the condition of
    /// `merge`.
    pub fn can_merge(&self, other: &Stats) -> (b: bool)
        ensures
            b == self@.combine(other@).fits_u64(),
    {
        proof {
            self.lemma_combine_fits(other);
        }
        self.total_requests <= u64::MAX - other.total_requests
            && self.status_2xx <= u64::MAX - other.status_2xx
            && self.status_3xx <= u64::MAX - other.status_3xx
            && self.status_4xx <= u64::MAX - other.status_4xx
            && self.status_5xx <= u64::MAX - other.status_5xx
            && self.endpoint_counts.can_absorb(&other.endpoint_counts)
            && self.endpoint_latencies.can_absorb(&other.endpoint_latencies)
            && self.method_counts.can_absorb(&other.method_counts)
            && self.server_errors.can_absorb(&other.server_errors)
    }

    /// Merges the statistics of `other` into these: counters and tallies added, the latencies
    /// of `other` appended.
    pub fn merge(&mut self, other: Stats)
        requires
            old(self)@.combine(other@).fits_u64(),
        ensures
            final(self)@ == old(self)@.combine(other@),
    {
        proof {
            self.lemma_combine_fits(&other);
        }
        let Stats {
            total_requests,
            status_2xx,
            status_3xx,
            status_4xx,
            status_5xx,
            latencies,
            endpoint_counts,
            endpoint_latencies,
            method_counts,
            server_errors,
        } = other;
        self.total_requests += total_requests;
        self.status_2xx += status_2xx;
        self.status_3xx += status_3xx;
        self.status_4xx += status_4xx;
        self.status_5xx += status_5xx;
        let mut latencies = latencies;
        self.latencies.append(&mut latencies);
        self.endpoint_counts.absorb(endpoint_counts);
        self.endpoint_latencies.absorb(endpoint_latencies);
        self.method_counts.absorb(method_counts);
        self.server_errors.absorb(server_errors);
    }
}

/// Counting a request adds one to the total and to the class of its status (200-299,
/// 300-399, 400-499 or 500-599, none for other codes), appends its latency, adds one request
/// and its latency to its endpoint and one request to its method, and, for a status in
/// 500-599 only, one server error to its endpoint.
pub proof fn law_record_counts_by_status(s: StatsView, e: EntryView)
    ensures
        s.record(e).total_requests == s.total_requests + 1,
        s.record(e).status_2xx == s.status_2xx + if 200 <= e.status && e.status <= 299 {
            1int
        } else {
            0int
        },
        s.record(e).status_3xx == s.status_3xx + if 300 <= e.status && e.status <= 399 {
            1int
        } else {
            0int
        },
        s.record(e).status_4xx == s.status_4xx + if 400 <= e.status && e.status <= 499 {
            1int
        } else {
            0int
        },
        s.record(e).status_5xx == s.status_5xx + if 500 <= e.status && e.status <= 599 {
            1int
        } else {
            0int
        },
        s.record(e).server_errors == if 500 <= e.status && e.status <= 599 {
            s.server_errors.insert(e.endpoint, count_of(s.server_errors, e.endpoint) + 1)
        } else {
            s.server_errors
        },
        s.record(e).latencies == s.latencies.push(e.response_time_ms),
        s.record(e).endpoint_counts == s.endpoint_counts.insert(
            e.endpoint,
            count_of(s.endpoint_counts, e.endpoint) + 1,
        ),
        s.record(e).endpoint_latencies == s.endpoint_latencies.insert(
            e.endpoint,
            count_of(s.endpoint_latencies, e.endpoint) + e.response_time_ms as nat,
        ),
        s.record(e).method_counts == s.method_counts.insert(
            e.method,
            count_of(s.method_counts, e.method) + 1,
        ),
{
}

/// Counting `e` in the statistics of `t` and then merging into `s` gives what merging and then
/// counting `e` gives.
pub proof fn lemma_combine_record(s: StatsView, t: StatsView, e: EntryView)
    ensures
        s.combine(t.record(e)) == s.combine(t).record(e),
{
    assert(s.latencies + t.latencies.push(e.response_time_ms) =~= (s.latencies
        + t.latencies).push(e.response_time_ms));
    assert(sum_counts(s.endpoint_counts, bump(t.endpoint_counts, e.endpoint, 1)) =~= bump(
        sum_counts(s.endpoint_counts, t.endpoint_counts),
        e.endpoint,
        1,
    ));
    assert(sum_counts(
        s.endpoint_latencies,
        bump(t.endpoint_latencies, e.endpoint, e.response_time_ms as nat),
    ) =~= bump(
        sum_counts(s.endpoint_latencies, t.endpoint_latencies),
        e.endpoint,
        e.response_time_ms as nat,
    ));
    assert(sum_counts(s.method_counts, bump(t.method_counts, e.method, 1)) =~= bump(
        sum_counts(s.method_counts, t.method_counts),
        e.method,
        1,
    ));
    assert(sum_counts(s.server_errors, bump(t.server_errors, e.endpoint, 1)) =~= bump(
        sum_counts(s.server_errors, t.server_errors),
        e.endpoint,
        1,
    ));
    assert(s.combine(t.record(e)) =~= s.combine(t).record(e));
}

/// Counting the requests of `a` and then those of `b` is counting those of `a + b`.
pub proof fn lemma_record_all_concat(s: StatsView, a: Seq<EntryView>, b: Seq<EntryView>)
    ensures
        s.record_all(a + b) == s.record_all(a).record_all(b),
    decreases b.len(),
{
    if b.len() == 0 {
        assert(a + b =~= a);
    } else {
        assert((a + b).drop_last() =~= a + b.drop_last());
        assert((a + b).last() == b.last());
        lemma_record_all_concat(s, a, b.drop_last());
    }
}

/// Merging the statistics of a batch of requests is counting that batch:
/// `s.combine(t.record_all(es)) == s.combine(t).record_all(es)`.
pub proof fn law_combine_then_record(s: StatsView, t: StatsView, es: Seq<EntryView>)
    ensures
        s.combine(t.record_all(es)) == s.combine(t).record_all(es),
    decreases es.len(),
{
    if es.len() > 0 {
        law_combine_then_record(s, t, es.drop_last());
        lemma_combine_record(s, t.record_all(es.drop_last()), es.last());
    }
}

/// Empty statistics are neutral for `merge`, on either side.
pub proof fn law_combine_empty(s: StatsView)
    ensures
        s.combine(StatsView::empty()) == s,
        StatsView::empty().combine(s) == s,
{
    assert(s.latencies + Seq::<u64>::empty() =~= s.latencies);
    assert(Seq::<u64>::empty() + s.latencies =~= s.latencies);
    assert(sum_counts(s.endpoint_counts, Map::empty()) =~= s.endpoint_counts);
    assert(sum_counts(s.endpoint_latencies, Map::empty()) =~= s.endpoint_latencies);
    assert(sum_counts(s.method_counts, Map::empty()) =~= s.method_counts);
    assert(sum_counts(s.server_errors, Map::empty()) =~= s.server_errors);
    assert(sum_counts(Map::empty(), s.endpoint_counts) =~= s.endpoint_counts);
    assert(sum_counts(Map::empty(), s.endpoint_latencies) =~= s.endpoint_latencies);
    assert(sum_counts(Map::empty(), s.method_counts) =~= s.method_counts);
    assert(sum_counts(Map::empty(), s.server_errors) =~= s.server_errors);
    assert(s.combine(StatsView::empty()) =~= s);
    assert(StatsView::empty().combine(s) =~= s);
}

/// Splitting the log in two, counting each part on its own and merging the two results gives
/// the statistics of counting the whole log in one pass.
pub proof fn law_split_then_merge(a: Seq<EntryView>, b: Seq<EntryView>)
    ensures
        StatsView::empty().record_all(a).combine(StatsView::empty().record_all(b))
            == StatsView::empty().record_all(a + b),
{
    let sa = StatsView::empty().record_all(a);
    law_combine_then_record(sa, StatsView::empty(), b);
    law_combine_empty(sa);
    lemma_record_all_concat(StatsView::empty(), a, b);
}

/// `merge` is associative.
pub proof fn law_combine_associative(a: StatsView, b: StatsView, c: StatsView)
    ensures
        a.combine(b).combine(c) == a.combine(b.combine(c)),
{
    assert(a.latencies + b.latencies + c.latencies =~= a.latencies + (b.latencies + c.latencies));
    assert(sum_counts(sum_counts(a.endpoint_counts, b.endpoint_counts), c.endpoint_counts)
        =~= sum_counts(a.endpoint_counts, sum_counts(b.endpoint_counts, c.endpoint_counts)));
    assert(sum_counts(sum_counts(a.endpoint_latencies, b.endpoint_latencies), c.endpoint_latencies)
        =~= sum_counts(a.endpoint_latencies, sum_counts(b.endpoint_latencies, c.endpoint_latencies)));
    assert(sum_counts(sum_counts(a.method_counts, b.method_counts), c.method_counts)
        =~= sum_counts(a.method_counts, sum_counts(b.method_counts, c.method_counts)));
    assert(sum_counts(sum_counts(a.server_errors, b.server_errors), c.server_errors)
        =~= sum_counts(a.server_errors, sum_counts(b.server_errors, c.server_errors)));
    assert(a.combine(b).combine(c) =~= a.combine(b.combine(c)));
}

/// `merge` is commutative but for the order of the latencies, which are the same values with
/// the same multiplicities either way.
pub proof fn law_combine_commutative(a: StatsView, b: StatsView)
    ensures
        a.combine(b).total_requests == b.combine(a).total_requests,
        a.combine(b).status_2xx == b.combine(a).status_2xx,
        a.combine(b).status_3xx == b.combine(a).status_3xx,
        a.combine(b).status_4xx == b.combine(a).status_4xx,
        a.combine(b).status_5xx == b.combine(a).status_5xx,
        a.combine(b).endpoint_counts == b.combine(a).endpoint_counts,
        a.combine(b).endpoint_latencies == b.combine(a).endpoint_latencies,
        a.combine(b).method_counts == b.combine(a).method_counts,
        a.combine(b).server_errors == b.combine(a).server_errors,
        a.combine(b).latencies.to_multiset() == b.combine(a).latencies.to_multiset(),
{
    vstd::seq_lib::lemma_seq_union_to_multiset_commutative(a.latencies, b.latencies);
    assert(sum_counts(a.endpoint_counts, b.endpoint_counts) =~= sum_counts(
        b.endpoint_counts,
        a.endpoint_counts,
    ));
    assert(sum_counts(a.endpoint_latencies, b.endpoint_latencies) =~= sum_counts(
        b.endpoint_latencies,
        a.endpoint_latencies,
    ));
    assert(sum_counts(a.method_counts, b.method_counts) =~= sum_counts(
        b.method_counts,
        a.method_counts,
    ));
    assert(sum_counts(a.server_errors, b.server_errors) =~= sum_counts(
        b.server_errors,
        a.server_errors,
    ));
}

/// The empty statistics are consistent, and counting a request or merging consistent
/// statistics keeps them consistent; so every `Stats` built by `new`, `add_entry` and `merge`
/// is consistent.
pub proof fn law_consistency_kept(s: StatsView, t: StatsView, e: EntryView)
    ensures
        StatsView::empty().consistent(),
        s.consistent() ==> s.record(e).consistent(),
        s.consistent() && t.consistent() ==> s.combine(t).consistent(),
{
    lemma_total_empty();
    if s.consistent() {
        let r = s.record(e);
        lemma_total_bump(s.endpoint_counts, e.endpoint, 1);
        lemma_total_bump(s.endpoint_latencies, e.endpoint, e.response_time_ms as nat);
        lemma_total_bump(s.method_counts, e.method, 1);
        lemma_total_bump(s.server_errors, e.endpoint, 1);
        assert(r.latencies.drop_last() =~= s.latencies);
        assert(r.endpoint_counts.dom() =~= r.endpoint_latencies.dom());
        assert forall|k: Seq<char>| #[trigger] r.server_errors.contains_key(k) implies 1
            <= r.server_errors[k] <= count_of(r.endpoint_counts, k) by {
            if k != e.endpoint {
                assert(s.server_errors.contains_key(k));
            }
        }
    }
    if s.consistent() && t.consistent() {
        let c = s.combine(t);
        lemma_total_sum(s.endpoint_counts, t.endpoint_counts);
        lemma_total_sum(s.endpoint_latencies, t.endpoint_latencies);
        lemma_total_sum(s.method_counts, t.method_counts);
        lemma_total_sum(s.server_errors, t.server_errors);
        lemma_seq_sum_concat(s.latencies, t.latencies);
        assert(c.endpoint_counts.dom() =~= c.endpoint_latencies.dom());
        assert forall|k: Seq<char>| #[trigger] c.server_errors.contains_key(k) implies 1
            <= c.server_errors[k] <= count_of(c.endpoint_counts, k) by {
            if s.server_errors.contains_key(k) {
                assert(s.server_errors[k] <= count_of(s.endpoint_counts, k));
            }
            if t.server_errors.contains_key(k) {
                assert(t.server_errors[k] <= count_of(t.endpoint_counts, k));
            }
        }
    }
}

/// The two statistics agree on every counter and tally, and hold the same latencies with the
/// same multiplicities, in whatever order.
pub open spec fn same_but_latency_order(a: StatsView, b: StatsView) -> bool {
    &&& a.total_requests == b.total_requests
    &&& a.status_2xx == b.status_2xx
    &&& a.status_3xx == b.status_3xx
    &&& a.status_4xx == b.status_4xx
    &&& a.status_5xx == b.status_5xx
    &&& a.latencies.to_multiset() == b.latencies.to_multiset()
    &&& a.endpoint_counts == b.endpoint_counts
    &&& a.endpoint_latencies == b.endpoint_latencies
    &&& a.method_counts == b.method_counts
    &&& a.server_errors == b.server_errors
}

/// Counting a request keeps two statistics alike.
proof fn lemma_record_keeps_alike(a: StatsView, b: StatsView, e: EntryView)
    requires
        same_but_latency_order(a, b),
    ensures
        same_but_latency_order(a.record(e), b.record(e)),
{
    vstd::seq_lib::to_multiset_build(a.latencies, e.response_time_ms);
    vstd::seq_lib::to_multiset_build(b.latencies, e.response_time_ms);
}

/// Counting two requests in either order gives alike statistics.
proof fn lemma_record_swap(t: StatsView, x: EntryView, y: EntryView)
    ensures
        same_but_latency_order(t.record(x).record(y), t.record(y).record(x)),
{
    let a = t.record(x).record(y);
    let b = t.record(y).record(x);
    vstd::seq_lib::to_multiset_build(t.latencies, x.response_time_ms);
    vstd::seq_lib::to_multiset_build(t.latencies, y.response_time_ms);
    vstd::seq_lib::to_multiset_build(t.latencies.push(x.response_time_ms), y.response_time_ms);
    vstd::seq_lib::to_multiset_build(t.latencies.push(y.response_time_ms), x.response_time_ms);
    assert(a.latencies.to_multiset() =~= b.latencies.to_multiset());
    assert(a.endpoint_counts =~= b.endpoint_counts);
    assert(a.endpoint_latencies =~= b.endpoint_latencies);
    assert(a.method_counts =~= b.method_counts);
    assert(a.server_errors =~= b.server_errors);
}

/// Counting `p`, then `y`, then `q` is alike to counting `p` and `q` and then `y`.
proof fn lemma_move_to_end(s: StatsView, p: Seq<EntryView>, y: EntryView, q: Seq<EntryView>)
    ensures
        same_but_latency_order(s.record_all(p.push(y) + q), s.record_all(p + q).record(y)),
    decreases q.len(),
{
    if q.len() == 0 {
        assert(p.push(y) + q =~= p.push(y));
        assert(p + q =~= p);
        assert(p.push(y).drop_last() =~= p);
    } else {
        let q1 = q.drop_last();
        let z = q.last();
        lemma_move_to_end(s, p, y, q1);
        assert((p.push(y) + q).drop_last() =~= p.push(y) + q1);
        assert((p + q).drop_last() =~= p + q1);
        let left = s.record_all(p.push(y) + q1);
        let mid = s.record_all(p + q1);
        lemma_record_keeps_alike(left, mid.record(y), z);
        lemma_record_swap(mid, y, z);
    }
}

/// Counting the same requests in another order gives the same statistics, but for the order
/// of the latencies: every counter and tally is equal, and the latencies are the same values
/// with the same multiplicities.
pub proof fn law_order_of_requests_is_immaterial(
    s: StatsView,
    es1: Seq<EntryView>,
    es2: Seq<EntryView>,
)
    requires
        es1.to_multiset() == es2.to_multiset(),
    ensures
        same_but_latency_order(s.record_all(es1), s.record_all(es2)),
    decreases es2.len(),
{
    vstd::seq_lib::to_multiset_len(es1);
    vstd::seq_lib::to_multiset_len(es2);
    if es2.len() == 0 {
        assert(es1.len() == 0);
    } else {
        let y = es2.last();
        assert(es2.contains(y)) by {
            assert(es2[es2.len() - 1] == y);
        }
        vstd::seq_lib::to_multiset_contains(es2, y);
        vstd::seq_lib::to_multiset_contains(es1, y);
        let j = choose|j: int| 0 <= j < es1.len() && es1[j] == y;
        let p = es1.take(j);
        let q = es1.skip(j + 1);
        assert(es1 =~= p.push(y) + q);
        let rest = p + q;
        assert(rest =~= es1.remove(j));
        vstd::seq_lib::to_multiset_remove(es1, j);
        vstd::seq_lib::to_multiset_build(es2.drop_last(), y);
        assert(es2.drop_last().push(y) =~= es2);
        assert(rest.to_multiset() =~= es2.drop_last().to_multiset());
        law_order_of_requests_is_immaterial(s, rest, es2.drop_last());
        lemma_move_to_end(s, p, y, q);
        lemma_record_keeps_alike(s.record_all(rest), s.record_all(es2.drop_last()), y);
    }
}

} // verus!
