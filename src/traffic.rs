//! The bounded in-memory record of recent requests.
//!
//! [`TrafficLog`] keeps at most `capacity` records and evicts the oldest when
//! full. It feeds the aggregate statistics, the recency queries and the
//! per-backend health signal that Escalate consults.

use std::collections::VecDeque;
use vstd::prelude::*;
use crate::config::position_of;
use crate::config::{lookup, lemma_lookup_entry, names_unique};
use crate::text::copy_opt_text;

verus! {

/// Smallest number of records in the window before a backend can be judged
/// unhealthy.
pub const MIN_HEALTH_SAMPLES: usize = 3;

/// One completed request.
#[derive(Debug)]
pub struct TrafficEntry {
    /// Unique request identifier.
    pub id: String,
    /// Wall-clock time of the request, in milliseconds since the Unix epoch.
    pub timestamp_ms: i64,
    /// Profile active for the request.
    pub profile: Option<String>,
    /// Model string from the request body.
    pub requested_model: Option<String>,
    /// Tier that served the request.
    pub tier: String,
    /// Backend that served the request.
    pub backend: String,
    /// `"dispatch"`, `"escalate"` or `"stream"`.
    pub routing_mode: Option<String>,
    /// Whether Escalate landed above the cheapest tier.
    pub escalated: bool,
    /// End-to-end latency in milliseconds.
    pub latency_ms: u64,
    pub success: bool,
    /// Error description when `success` is false.
    pub error: Option<String>,
}

impl Clone for TrafficEntry {
    fn clone(&self) -> (r: Self)
        ensures
            r == *self,
    {
        TrafficEntry {
            id: self.id.clone(),
            timestamp_ms: self.timestamp_ms,
            profile: copy_opt_text(&self.profile),
            requested_model: copy_opt_text(&self.requested_model),
            tier: self.tier.clone(),
            backend: self.backend.clone(),
            routing_mode: copy_opt_text(&self.routing_mode),
            escalated: self.escalated,
            latency_ms: self.latency_ms,
            success: self.success,
            error: copy_opt_text(&self.error),
        }
    }
}

/// Relies on `uuid::Uuid::new_v4` and its `Display`: a random version-4
/// identifier, written in the 36-character hyphenated form.
#[verifier::external_body]
fn new_uuid() -> (r: String)
    ensures
        r@.len() == 36,
{
    uuid::Uuid::new_v4().to_string()
}

/// Relies on `chrono::Utc::now` and `DateTime::timestamp_millis`: the current
/// time in milliseconds since the Unix epoch.
#[verifier::external_body]
fn now_millis() -> (r: i64) {
    chrono::Utc::now().timestamp_millis()
}

impl TrafficEntry {
    /// A record with a fresh identifier and the current time; the optional
    /// fields are empty and `escalated` is false.
    pub fn new(tier: String, backend: String, latency_ms: u64, success: bool) -> (r: Self)
        ensures
            r.id@.len() == 36,
            r.tier == tier,
            r.backend == backend,
            r.latency_ms == latency_ms,
            r.success == success,
            r.profile is None,
            r.requested_model is None,
            r.routing_mode is None,
            !r.escalated,
            r.error is None,
    {
        TrafficEntry {
            id: new_uuid(),
            timestamp_ms: now_millis(),
            profile: None,
            requested_model: None,
            tier,
            backend,
            routing_mode: None,
            escalated: false,
            latency_ms,
            success,
            error: None,
        }
    }

    /// Attaches the active profile name.
    pub fn with_profile(self, profile: &str) -> (r: Self)
        ensures
            r == (TrafficEntry { profile: Some(r.profile->0), ..self }),
            r.profile->0@ == profile@,
    {
        TrafficEntry { profile: Some(profile.to_owned()), ..self }
    }

    /// Attaches the model string of the request.
    pub fn with_requested_model(self, model: &str) -> (r: Self)
        ensures
            r == (TrafficEntry { requested_model: Some(r.requested_model->0), ..self }),
            r.requested_model->0@ == model@,
    {
        TrafficEntry { requested_model: Some(model.to_owned()), ..self }
    }

    /// Attaches the routing-mode label.
    pub fn with_routing_mode(self, mode: &str) -> (r: Self)
        ensures
            r == (TrafficEntry { routing_mode: Some(r.routing_mode->0), ..self }),
            r.routing_mode->0@ == mode@,
    {
        TrafficEntry { routing_mode: Some(mode.to_owned()), ..self }
    }

    /// Replaces the identifier with the request's correlation identifier.
    pub fn with_id(self, id: &str) -> (r: Self)
        ensures
            r == (TrafficEntry { id: r.id, ..self }),
            r.id@ == id@,
    {
        TrafficEntry { id: id.to_owned(), ..self }
    }

    /// Marks the record as escalated.
    pub fn mark_escalated(self) -> (r: Self)
        ensures
            r == (TrafficEntry { escalated: true, ..self }),
    {
        TrafficEntry { escalated: true, ..self }
    }

    /// Attaches an error description.
    pub fn with_error(self, err: &str) -> (r: Self)
        ensures
            r == (TrafficEntry { error: Some(r.error->0), ..self }),
            r.error->0@ == err@,
    {
        TrafficEntry { error: Some(err.to_owned()), ..self }
    }
}

/// The last `cap` records of `s`, oldest first.
pub open spec fn last_records(cap: nat, s: Seq<TrafficEntry>) -> Seq<TrafficEntry> {
    if s.len() <= cap {
        s
    } else {
        s.subrange(s.len() - cap, s.len() as int)
    }
}

/// The contents after one push into a ring of capacity `cap` holding `s`.
pub open spec fn pushed(cap: nat, s: Seq<TrafficEntry>, e: TrafficEntry) -> Seq<TrafficEntry> {
    if cap == 0 {
        s
    } else if s.len() >= cap {
        s.drop_first().push(e)
    } else {
        s.push(e)
    }
}

/// The first `n` of the records, newest first.
pub open spec fn newest_first(s: Seq<TrafficEntry>, n: nat) -> Seq<TrafficEntry> {
    let k = if n < s.len() { n as int } else { s.len() as int };
    Seq::new(k as nat, |i: int| s[s.len() - 1 - i])
}

/// Fixed-capacity ring of recent records.
pub struct TrafficLog {
    capacity: usize,
    entries: VecDeque<TrafficEntry>,
}

impl TrafficLog {
    /// The records held, oldest first.
    pub closed spec fn view(&self) -> Seq<TrafficEntry> {
        self.entries@
    }

    pub closed spec fn cap(&self) -> nat {
        self.capacity as nat
    }

    /// Never more records than the capacity.
    pub open spec fn wf(&self) -> bool {
        self.view().len() <= self.cap()
    }

    /// An empty ring of the given capacity; zero disables recording.
    pub fn new(capacity: usize) -> (r: Self)
        ensures
            r.wf(),
            r.view() == Seq::<TrafficEntry>::empty(),
            r.cap() == capacity,
    {
        TrafficLog { capacity, entries: VecDeque::new() }
    }

    /// The capacity set at construction.
    pub fn capacity(&self) -> (r: usize)
        ensures
            r == self.cap(),
    {
        self.capacity
    }

    /// Number of records held.
    pub fn len(&self) -> (r: usize)
        ensures
            r == self.view().len(),
    {
        self.entries.len()
    }

    /// Records a request, evicting the oldest record when full.
    pub fn push(&mut self, entry: TrafficEntry)
        requires
            old(self).wf(),
        ensures
            final(self).wf(),
            final(self).cap() == old(self).cap(),
            final(self).view() == pushed(old(self).cap(), old(self).view(), entry),
    {
        if self.capacity == 0 {
            return;
        }
        if self.entries.len() >= self.capacity {
            self.entries.pop_front();
        }
        self.entries.push_back(entry);
    }

    /// Up to `limit` records, newest first.
    pub fn recent(&self, limit: usize) -> (r: Vec<TrafficEntry>)
        ensures
            r@ == newest_first(self.view(), limit as nat),
    {
        let n = self.entries.len();
        let mut out: Vec<TrafficEntry> = Vec::new();
        let mut k: usize = 0;
        while k < n && k < limit
            invariant
                n == self.view().len(),
                k <= n,
                k <= limit,
                out@ == newest_first(self.view(), k as nat),
            decreases n - k,
        {
            let e = self.entries[n - 1 - k].clone();
            out.push(e);
            k = k + 1;
            proof {
                assert(out@ =~= newest_first(self.view(), k as nat));
            }
        }
        proof {
            assert(out@ =~= newest_first(self.view(), limit as nat));
        }
        out
    }

    /// Totals, error and escalation counts, latency sum and per-tier counts
    /// over every buffered record.
    pub fn stats(&self) -> (r: TrafficStats)
        ensures
            r.total_requests == self.view().len(),
            r.error_count == count_errors(self.view()),
            r.escalation_count == count_escalations(self.view()),
            r.latency_sum_ms == latency_sum(self.view()),
            names_unique(r.tier_counts@),
            forall|k: int| 0 <= k < r.tier_counts@.len() ==> {
                &&& #[trigger] r.tier_counts@[k].1 == count_tier(self.view(), r.tier_counts@[k].0@)
                &&& r.tier_counts@[k].1 > 0
            },
            forall|j: int| 0 <= j < self.view().len() ==> lookup(r.tier_counts@, #[trigger] self.view()[j].tier@) is Some,
    {
        let n = self.entries.len();
        let ghost all = self.view();
        let mut errors: usize = 0;
        let mut escalations: usize = 0;
        let mut sum: u128 = 0;
        let mut counts: Vec<(String, usize)> = Vec::new();
        let mut i: usize = 0;
        while i < n
            invariant
                n == all.len(),
                all == self.view(),
                i <= n,
                errors == count_errors(all.subrange(0, i as int)),
                escalations == count_escalations(all.subrange(0, i as int)),
                sum == latency_sum(all.subrange(0, i as int)),
                names_unique(counts@),
                forall|k: int| 0 <= k < counts@.len() ==> {
                    &&& #[trigger] counts@[k].1 == count_tier(all.subrange(0, i as int), counts@[k].0@)
                    &&& counts@[k].1 > 0
                },
                forall|j: int| 0 <= j < i ==> lookup(counts@, #[trigger] all[j].tier@) is Some,
            decreases n - i,
        {
            let e = &self.entries[i];
            let ghost prefix = all.subrange(0, i as int);
            let ghost next = all.subrange(0, i + 1);
            proof {
                assert(next.drop_last() =~= prefix);
                assert(next.last() == *e);
                lemma_counts_bounded(prefix, e.tier@);
            }
            if !e.success {
                errors = errors + 1;
            }
            if e.escalated {
                escalations = escalations + 1;
            }
            proof {
                assert(latency_sum(prefix) <= i as nat * 0xffff_ffff_ffff_ffff);
                assert(i as nat * 0xffff_ffff_ffff_ffff <= 0xffff_ffff_ffff_ffff * 0xffff_ffff_ffff_ffff)
                    by (nonlinear_arith)
                    requires i <= 0xffff_ffff_ffff_ffff;
            }
            sum = sum + e.latency_ms as u128;
            let ghost old_counts = counts@;
            match position_of(&counts, e.tier.as_str()) {
                Some(j) => {
                    let c = counts[j].1;
                    proof {
                        assert(c == count_tier(prefix, e.tier@));
                    }
                    let name = counts[j].0.clone();
                    counts.set(j, (name, c + 1));
                    proof {
                        assert forall|k: int| 0 <= k < counts@.len() implies {
                            &&& #[trigger] counts@[k].1 == count_tier(next, counts@[k].0@)
                            &&& counts@[k].1 > 0
                        } by {
                            if k != j {
                                assert(old_counts[k].0@ != old_counts[j as int].0@);
                            }
                        }
                        assert forall|a: int, b: int| 0 <= a < b < counts@.len()
                            implies counts@[a].0@ != counts@[b].0@ by {
                            assert(old_counts[a].0@ != old_counts[b].0@);
                        }
                        assert forall|jj: int| 0 <= jj < i + 1 implies lookup(counts@, #[trigger] all[jj].tier@) is Some by {
                            if jj < i {
                                let t = all[jj].tier@;
                                lemma_lookup_entry(old_counts, t);
                                let kk = choose|kk: int| 0 <= kk < old_counts.len() && old_counts[kk].0@ == t
                                    && old_counts[kk].1 == lookup(old_counts, t)->0;
                                lemma_present_key(counts@, t, kk);
                            } else {
                                lemma_present_key(counts@, e.tier@, j as int);
                            }
                        }
                    }
                },
                None => {
                    proof {
                        lemma_lookup_none(old_counts, e.tier@);
                    }
                    counts.push((e.tier.clone(), 1));
                    proof {
                        assert forall|k: int| 0 <= k < counts@.len() implies {
                            &&& #[trigger] counts@[k].1 == count_tier(next, counts@[k].0@)
                            &&& counts@[k].1 > 0
                        } by {
                            if k < old_counts.len() {
                                assert(old_counts[k].0@ != e.tier@);
                                assert(counts@[k] == old_counts[k]);
                            } else {
                                lemma_lookup_none_count(prefix, e.tier@, i as int, all);
                            }
                        }
                        assert forall|jj: int| 0 <= jj < i + 1 implies lookup(counts@, #[trigger] all[jj].tier@) is Some by {
                            if jj < i {
                                let t = all[jj].tier@;
                                lemma_lookup_entry(old_counts, t);
                                let kk = choose|kk: int| 0 <= kk < old_counts.len() && old_counts[kk].0@ == t
                                    && old_counts[kk].1 == lookup(old_counts, t)->0;
                                assert(counts@[kk] == old_counts[kk]);
                                lemma_present_key(counts@, t, kk);
                            } else {
                                lemma_present_key(counts@, e.tier@, old_counts.len() as int);
                            }
                        }
                    }
                },
            }
            i = i + 1;
        }
        proof {
            assert(all.subrange(0, n as int) =~= all);
        }
        TrafficStats {
            total_requests: n,
            error_count: errors,
            escalation_count: escalations,
            latency_sum_ms: sum,
            tier_counts: counts,
        }
    }

    /// Per-backend totals, error counts and health over the `window` most
    /// recent records; `threshold_permille` is the highest healthy error rate,
    /// in thousandths.
    pub fn backend_health(&self, window: usize, threshold_permille: u32) -> (r: Vec<(String, BackendHealth)>)
        ensures
            names_unique(r@),
            forall|k: int| 0 <= k < r@.len() ==> {
                let w = last_records(window as nat, self.view());
                &&& (#[trigger] r@[k]).1.total == count_backend(w, r@[k].0@)
                &&& r@[k].1.errors == count_backend_errors(w, r@[k].0@)
                &&& r@[k].1.healthy == is_healthy(r@[k].1.total as nat, r@[k].1.errors as nat, threshold_permille as nat)
                &&& r@[k].1.total > 0
            },
            forall|j: int| 0 <= j < last_records(window as nat, self.view()).len()
                ==> lookup(r@, #[trigger] last_records(window as nat, self.view())[j].backend@) is Some,
    {
        let n = self.entries.len();
        let ghost all = self.view();
        let start: usize = if window < n { n - window } else { 0 };
        let ghost w = last_records(window as nat, all);
        proof {
            assert(w =~= all.subrange(start as int, n as int));
        }
        let mut out: Vec<(String, BackendHealth)> = Vec::new();
        let mut i: usize = start;
        while i < n
            invariant
                n == all.len(),
                all == self.view(),
                start <= i <= n,
                w == all.subrange(start as int, n as int),
                names_unique(out@),
                forall|k: int| 0 <= k < out@.len() ==> {
                    let p = all.subrange(start as int, i as int);
                    &&& (#[trigger] out@[k]).1.total == count_backend(p, out@[k].0@)
                    &&& out@[k].1.errors == count_backend_errors(p, out@[k].0@)
                    &&& out@[k].1.healthy == is_healthy(out@[k].1.total as nat, out@[k].1.errors as nat, threshold_permille as nat)
                    &&& out@[k].1.total > 0
                },
                forall|j: int| start <= j < i ==> lookup(out@, #[trigger] all[j].backend@) is Some,
            decreases n - i,
        {
            let e = &self.entries[i];
            let ghost prefix = all.subrange(start as int, i as int);
            let ghost next = all.subrange(start as int, i + 1);
            proof {
                assert(next.drop_last() =~= prefix);
                assert(next.last() == *e);
                lemma_counts_bounded(prefix, e.backend@);
            }
            let failed: usize = if e.success { 0 } else { 1 };
            let ghost old_out = out@;
            match position_of(&out, e.backend.as_str()) {
                Some(j) => {
                    let h = out[j].1;
                    let name = out[j].0.clone();
                    out.set(j, (name, health_of(h.total + 1, h.errors + failed, threshold_permille)));
                    proof {
                        assert forall|k: int| 0 <= k < out@.len() implies {
                            &&& (#[trigger] out@[k]).1.total == count_backend(next, out@[k].0@)
                            &&& out@[k].1.errors == count_backend_errors(next, out@[k].0@)
                            &&& out@[k].1.healthy == is_healthy(out@[k].1.total as nat, out@[k].1.errors as nat, threshold_permille as nat)
                            &&& out@[k].1.total > 0
                        } by {
                            if k != j {
                                assert(old_out[k].0@ != old_out[j as int].0@);
                            }
                        }
                        assert forall|a: int, b: int| 0 <= a < b < out@.len()
                            implies out@[a].0@ != out@[b].0@ by {
                            assert(old_out[a].0@ != old_out[b].0@);
                        }
                        assert forall|jj: int| start <= jj < i + 1 implies lookup(out@, #[trigger] all[jj].backend@) is Some by {
                            if jj < i {
                                let t = all[jj].backend@;
                                lemma_lookup_entry(old_out, t);
                                let kk = choose|kk: int| 0 <= kk < old_out.len() && old_out[kk].0@ == t
                                    && old_out[kk].1 == lookup(old_out, t)->0;
                                lemma_present_key(out@, t, kk);
                            } else {
                                lemma_present_key(out@, e.backend@, j as int);
                            }
                        }
                    }
                },
                None => {
                    proof {
                        lemma_lookup_none(old_out, e.backend@);
                        assert forall|jj: int| 0 <= jj < prefix.len() implies prefix[jj].backend@ != e.backend@ by {
                            assert(prefix[jj] == all[start + jj]);
                            if prefix[jj].backend@ == e.backend@ {
                                lemma_lookup_entry(old_out, e.backend@);
                            }
                        }
                        lemma_count_backend_absent(prefix, e.backend@);
                    }
                    out.push((e.backend.clone(), health_of(1, failed, threshold_permille)));
                    proof {
                        assert forall|k: int| 0 <= k < out@.len() implies {
                            &&& (#[trigger] out@[k]).1.total == count_backend(next, out@[k].0@)
                            &&& out@[k].1.errors == count_backend_errors(next, out@[k].0@)
                            &&& out@[k].1.healthy == is_healthy(out@[k].1.total as nat, out@[k].1.errors as nat, threshold_permille as nat)
                            &&& out@[k].1.total > 0
                        } by {
                            if k < old_out.len() {
                                assert(old_out[k].0@ != e.backend@);
                                assert(out@[k] == old_out[k]);
                            }
                        }
                        assert forall|jj: int| start <= jj < i + 1 implies lookup(out@, #[trigger] all[jj].backend@) is Some by {
                            if jj < i {
                                let t = all[jj].backend@;
                                lemma_lookup_entry(old_out, t);
                                let kk = choose|kk: int| 0 <= kk < old_out.len() && old_out[kk].0@ == t
                                    && old_out[kk].1 == lookup(old_out, t)->0;
                                assert(out@[kk] == old_out[kk]);
                                lemma_present_key(out@, t, kk);
                            } else {
                                lemma_present_key(out@, e.backend@, old_out.len() as int);
                            }
                        }
                    }
                },
            }
            i = i + 1;
        }
        proof {
            assert forall|j: int| 0 <= j < w.len() implies lookup(out@, #[trigger] w[j].backend@) is Some by {
                assert(w[j] == all[start + j]);
            }
        }
        out
    }
}

/// Number of failed records.
pub open spec fn count_errors(s: Seq<TrafficEntry>) -> nat
    decreases s.len(),
{
    if s.len() == 0 {
        0
    } else {
        count_errors(s.drop_last()) + if s.last().success { 0nat } else { 1nat }
    }
}

/// Number of escalated records.
pub open spec fn count_escalations(s: Seq<TrafficEntry>) -> nat
    decreases s.len(),
{
    if s.len() == 0 {
        0
    } else {
        count_escalations(s.drop_last()) + if s.last().escalated { 1nat } else { 0nat }
    }
}

/// Sum of the latencies.
pub open spec fn latency_sum(s: Seq<TrafficEntry>) -> nat
    decreases s.len(),
{
    if s.len() == 0 {
        0
    } else {
        latency_sum(s.drop_last()) + s.last().latency_ms as nat
    }
}

/// Number of records served by the tier `t`.
pub open spec fn count_tier(s: Seq<TrafficEntry>, t: Seq<char>) -> nat
    decreases s.len(),
{
    if s.len() == 0 {
        0
    } else {
        count_tier(s.drop_last(), t) + if s.last().tier@ == t { 1nat } else { 0nat }
    }
}

/// Number of records served by the backend `b`.
pub open spec fn count_backend(s: Seq<TrafficEntry>, b: Seq<char>) -> nat
    decreases s.len(),
{
    if s.len() == 0 {
        0
    } else {
        count_backend(s.drop_last(), b) + if s.last().backend@ == b { 1nat } else { 0nat }
    }
}

/// Number of failed records served by the backend `b`.
pub open spec fn count_backend_errors(s: Seq<TrafficEntry>, b: Seq<char>) -> nat
    decreases s.len(),
{
    if s.len() == 0 {
        0
    } else {
        count_backend_errors(s.drop_last(), b) + if s.last().backend@ == b && !s.last().success {
            1nat
        } else {
            0nat
        }
    }
}

proof fn lemma_counts_bounded(s: Seq<TrafficEntry>, t: Seq<char>)
    ensures
        count_errors(s) <= s.len(),
        count_escalations(s) <= s.len(),
        count_tier(s, t) <= s.len(),
        count_backend(s, t) <= s.len(),
        count_backend_errors(s, t) <= count_backend(s, t),
        latency_sum(s) <= s.len() * 0xffff_ffff_ffff_ffff,
    decreases s.len(),
{
    if s.len() > 0 {
        lemma_counts_bounded(s.drop_last(), t);
        assert((s.len() - 1) * 0xffff_ffff_ffff_ffff + 0xffff_ffff_ffff_ffff == s.len() * 0xffff_ffff_ffff_ffff)
            by (nonlinear_arith);
    }
}

/// An absent name is the name of no entry.
pub proof fn lemma_lookup_none<V>(entries: Seq<(String, V)>, key: Seq<char>)
    requires
        lookup(entries, key) is None,
    ensures
        forall|i: int| 0 <= i < entries.len() ==> #[trigger] entries[i].0@ != key,
    decreases entries.len(),
{
    if entries.len() > 0 {
        lemma_lookup_none(entries.drop_first(), key);
        assert forall|i: int| 0 <= i < entries.len() implies #[trigger] entries[i].0@ != key by {
            if i > 0 {
                assert(entries[i] == entries.drop_first()[i - 1]);
            }
        }
    }
}

/// A name held by some entry has a value under `lookup`.
pub proof fn lemma_present_key<V>(entries: Seq<(String, V)>, key: Seq<char>, k: int)
    requires
        0 <= k < entries.len(),
        entries[k].0@ == key,
    ensures
        lookup(entries, key) is Some,
    decreases entries.len(),
{
    if k > 0 && entries[0].0@ != key {
        assert(entries.drop_first()[k - 1] == entries[k]);
        lemma_present_key(entries.drop_first(), key, k - 1);
    }
}

/// A tier that occurs in no earlier record of the prefix has count zero there.
proof fn lemma_lookup_none_count(prefix: Seq<TrafficEntry>, t: Seq<char>, i: int, all: Seq<TrafficEntry>)
    requires
        0 <= i < all.len(),
        prefix == all.subrange(0, i),
        all[i].tier@ == t,
        forall|j: int| 0 <= j < i ==> all[j].tier@ != t,
    ensures
        count_tier(all.subrange(0, i + 1), t) == 1,
{
    lemma_count_tier_absent(prefix, t);
    assert(all.subrange(0, i + 1).drop_last() =~= prefix);
}

proof fn lemma_count_tier_absent(s: Seq<TrafficEntry>, t: Seq<char>)
    requires
        forall|j: int| 0 <= j < s.len() ==> s[j].tier@ != t,
    ensures
        count_tier(s, t) == 0,
    decreases s.len(),
{
    if s.len() > 0 {
        lemma_count_tier_absent(s.drop_last(), t);
    }
}

/// Aggregates over every buffered record.
#[derive(Debug)]
pub struct TrafficStats {
    pub total_requests: usize,
    pub error_count: usize,
    pub escalation_count: usize,
    /// Sum of the latencies, in milliseconds; the average is this over
    /// `total_requests`.
    pub latency_sum_ms: u128,
    /// Number of records per tier, one pair per tier that occurs.
    pub tier_counts: Vec<(String, usize)>,
}

impl TrafficStats {
    /// The number of records counted for `tier`, zero when it does not occur.
    pub fn tier_count(&self, tier: &str) -> (r: usize)
        ensures
            r == match lookup(self.tier_counts@, tier@) { Some(n) => n, None => 0 },
    {
        match position_of(&self.tier_counts, tier) {
            Some(i) => self.tier_counts[i].1,
            None => 0,
        }
    }
}

/// Health of one backend over the recent window.
#[derive(Debug, Clone, Copy)]
pub struct BackendHealth {
    pub total: usize,
    pub errors: usize,
    pub healthy: bool,
}

/// A backend is healthy with fewer than the minimum samples, or when its
/// error rate is at most the threshold (given in thousandths).
pub open spec fn is_healthy(total: nat, errors: nat, threshold_permille: nat) -> bool {
    total < MIN_HEALTH_SAMPLES || errors * 1000 <= threshold_permille * total
}

/// The health entry of one backend, for the `errors` among `total` records.
fn health_of(total: usize, errors: usize, threshold_permille: u32) -> (r: BackendHealth)
    ensures
        r.total == total,
        r.errors == errors,
        r.healthy == is_healthy(total as nat, errors as nat, threshold_permille as nat),
{
    proof {
        assert((threshold_permille as u128) * (total as u128) <= 0xffff_ffff * 0xffff_ffff_ffff_ffff)
            by (nonlinear_arith)
            requires threshold_permille <= 0xffff_ffff, total <= 0xffff_ffff_ffff_ffff;
    }
    let healthy = total < MIN_HEALTH_SAMPLES || (errors as u128) * 1000 <= (threshold_permille as u128) * (total as u128);
    BackendHealth { total, errors, healthy }
}

proof fn lemma_count_backend_absent(s: Seq<TrafficEntry>, b: Seq<char>)
    requires
        forall|j: int| 0 <= j < s.len() ==> s[j].backend@ != b,
    ensures
        count_backend(s, b) == 0,
        count_backend_errors(s, b) == 0,
    decreases s.len(),
{
    if s.len() > 0 {
        lemma_count_backend_absent(s.drop_last(), b);
    }
}

/// Ring capacity bound: pushing onto the last `cap` records of a sequence
/// gives the last `cap` records of the longer sequence, and the ring holds
/// `min(N, cap)` of the `N` records pushed. Hence after any run of pushes
/// into a fresh ring, `recent` with a limit at or above the capacity returns
/// the last `min(N, cap)` records pushed, newest first.
pub proof fn law_ring_keeps_last(cap: nat, s: Seq<TrafficEntry>, e: TrafficEntry)
    ensures
        pushed(cap, last_records(cap, s), e) == last_records(cap, s.push(e)),
        last_records(cap, s).len() == if s.len() < cap { s.len() } else { cap },
        last_records(cap, Seq::<TrafficEntry>::empty()) == Seq::<TrafficEntry>::empty(),
        newest_first(last_records(cap, s), cap).len() == last_records(cap, s).len(),
{
    assert(last_records(cap, Seq::<TrafficEntry>::empty()) =~= Seq::<TrafficEntry>::empty());
    let w = last_records(cap, s);
    if cap == 0 {
        assert(last_records(cap, s) =~= Seq::<TrafficEntry>::empty());
        assert(last_records(cap, s.push(e)) =~= Seq::<TrafficEntry>::empty());
    } else if s.len() < cap {
        assert(last_records(cap, s.push(e)) =~= s.push(e));
    } else {
        assert(w.len() == cap);
        assert(w.drop_first().push(e) =~= s.push(e).subrange(s.push(e).len() - cap, s.push(e).len() as int));
    }
}

} // verus!
