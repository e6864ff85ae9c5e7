//! The figures of the pi stats pane, derived from what the queries returned.
//!
//! Everything here is a pure projection of rows the caller already read: what
//! the session cost and how fast it ran, which models it reached, how its
//! governance verdicts fell, and how much of the visitor's credit is left.
use vstd::prelude::*;

use crate::display::{median, median_spec};

verus! {

/// One governance trace row, as far as the counts read it.
pub struct TraceRow {
    pub kind: String,
    pub outcome: String,
}

/// How the session's verdicts fell.
pub struct TraceCounts {
    pub allowed: i64,
    pub denied: i64,
    pub prompts_blocked: i64,
    pub tools_blocked: i64,
    pub tool_calls: i64,
}

/// How many rows have the given kind (when one is given) and the given
/// outcome (when one is given).
pub open spec fn count_rows(rows: Seq<TraceRow>, kind: Option<Seq<char>>, outcome: Option<Seq<char>>) -> nat
    decreases rows.len(),
{
    if rows.len() == 0 {
        0
    } else {
        let r = rows.last();
        let hit = (match kind {
            Some(k) => r.kind@ == k,
            None => true,
        }) && (match outcome {
            Some(o) => r.outcome@ == o,
            None => true,
        });
        count_rows(rows.drop_last(), kind, outcome) + (if hit {
            1nat
        } else {
            0nat
        })
    }
}

proof fn lemma_count_rows_bound(rows: Seq<TraceRow>, kind: Option<Seq<char>>, outcome: Option<Seq<char>>)
    ensures
        count_rows(rows, kind, outcome) <= rows.len(),
    decreases rows.len(),
{
    if rows.len() > 0 {
        lemma_count_rows_bound(rows.drop_last(), kind, outcome);
    }
}

fn text_is(s: &String, lit: &str) -> (b: bool)
    ensures
        b == (s@ == lit@),
{
    let a = crate::text::chars_of(s.as_str());
    let l = crate::text::chars_of(lit);
    crate::text::chars_eq(&a, &l)
}

fn count_matching(rows: &Vec<TraceRow>, kind: Option<&str>, outcome: Option<&str>) -> (n: i64)
    requires
        rows.len() <= i64::MAX,
    ensures
        n == count_rows(
            rows@,
            match kind {
                Some(k) => Some(k@),
                None => None,
            },
            match outcome {
                Some(o) => Some(o@),
                None => None,
            },
        ),
{
    let ghost k = match kind {
        Some(k) => Some(k@),
        None => None::<Seq<char>>,
    };
    let ghost o = match outcome {
        Some(o) => Some(o@),
        None => None::<Seq<char>>,
    };
    let mut n: i64 = 0;
    let mut i: usize = 0;
    while i < rows.len()
        invariant
            rows.len() <= i64::MAX,
            i <= rows.len(),
            n == count_rows(rows@.take(i as int), k, o),
            k == match kind {
                Some(kk) => Some(kk@),
                None => None::<Seq<char>>,
            },
            o == match outcome {
                Some(oo) => Some(oo@),
                None => None::<Seq<char>>,
            },
        decreases rows.len() - i,
    {
        proof {
            assert(rows@.take(i + 1).drop_last() =~= rows@.take(i as int));
            lemma_count_rows_bound(rows@.take(i as int), k, o);
        }
        let r = &rows[i];
        let kind_ok = match kind {
            Some(want) => text_is(&r.kind, want),
            None => true,
        };
        let outcome_ok = match outcome {
            Some(want) => text_is(&r.outcome, want),
            None => true,
        };
        if kind_ok && outcome_ok {
            n = n + 1;
        }
        assert(rows@.take(i + 1).last() == rows@[i as int]);
        i = i + 1;
    }
    assert(rows@.take(rows.len() as int) =~= rows@);
    n
}

/// The verdict counts of a session's trace: every allow and deny, the denials
/// of prompts and of tools, and the tool fires.
pub fn trace_counts(trace: &Vec<TraceRow>) -> (c: TraceCounts)
    requires
        trace.len() <= i64::MAX,
    ensures
        c.allowed == count_rows(trace@, None, Some("allow"@)),
        c.denied == count_rows(trace@, None, Some("deny"@)),
        c.prompts_blocked == count_rows(trace@, Some("prompt"@), Some("deny"@)),
        c.tools_blocked == count_rows(trace@, Some("tool"@), Some("deny"@)),
        c.tool_calls == count_rows(trace@, Some("fire"@), None),
{
    TraceCounts {
        allowed: count_matching(trace, None, Some("allow")),
        denied: count_matching(trace, None, Some("deny")),
        prompts_blocked: count_matching(trace, Some("prompt"), Some("deny")),
        tools_blocked: count_matching(trace, Some("tool"), Some("deny")),
        tool_calls: count_matching(trace, Some("fire"), None),
    }
}

/// A policy's verdict counts over the window, as the repository returns them.
pub struct PerPolicyCounts {
    pub policy: String,
    pub allowed: i64,
    pub denied: i64,
}

/// One stage of the chain as the pane shows it: every configured stage
/// appears, with zero counts and `active` false when it recorded nothing.
pub struct PiPolicyStage {
    pub id: String,
    pub label: String,
    pub passed: i64,
    pub failed: i64,
    pub active: bool,
}

/// The first counts row for `policy`.
pub open spec fn row_for(rows: Seq<PerPolicyCounts>, policy: Seq<char>) -> Option<PerPolicyCounts>
    decreases rows.len(),
{
    if rows.len() == 0 {
        None
    } else if rows[0].policy@ == policy {
        Some(rows[0])
    } else {
        row_for(rows.subrange(1, rows.len() as int), policy)
    }
}

/// What the pane shows for the stage `(id, label)`.
pub open spec fn stage_matches(s: PiPolicyStage, id: Seq<char>, label: Seq<char>, rows: Seq<PerPolicyCounts>) -> bool {
    &&& s.id@ == id
    &&& s.label@ == label
    &&& match row_for(rows, id) {
        Some(r) => s.passed == r.allowed && s.failed == r.denied && s.active,
        None => s.passed == 0 && s.failed == 0 && !s.active,
    }
}

fn find_row(rows: &Vec<PerPolicyCounts>, policy: &String) -> (r: Option<usize>)
    ensures
        match r {
            Some(k) => k < rows.len() && row_for(rows@, policy@) == Some(rows@[k as int]),
            None => row_for(rows@, policy@) is None,
        },
{
    let n = rows.len();
    let mut i: usize = 0;
    assert(rows@.subrange(0, n as int) =~= rows@);
    while i < n
        invariant
            n == rows.len(),
            i <= n,
            row_for(rows@, policy@) == row_for(rows@.subrange(i as int, n as int), policy@),
        decreases n - i,
    {
        let ghost rest = rows@.subrange(i as int, n as int);
        assert(rest[0] == rows@[i as int]);
        assert(rest.subrange(1, rest.len() as int) =~= rows@.subrange(i + 1, n as int));
        if text_is(&rows[i].policy, policy.as_str()) {
            return Some(i);
        }
        i = i + 1;
    }
    None
}

/// Every configured stage, in the chain's order, with its counts.
pub fn policy_stages(stages: &Vec<(String, String)>, rows: &Vec<PerPolicyCounts>) -> (out: Vec<
    PiPolicyStage,
>)
    ensures
        out.len() == stages.len(),
        forall|i: int|
            0 <= i < out.len() ==> stage_matches(
                #[trigger] out@[i],
                stages@[i].0@,
                stages@[i].1@,
                rows@,
            ),
{
    let mut out: Vec<PiPolicyStage> = Vec::new();
    let mut i: usize = 0;
    while i < stages.len()
        invariant
            i <= stages.len(),
            out.len() == i,
            forall|k: int|
                0 <= k < i ==> stage_matches(#[trigger] out@[k], stages@[k].0@, stages@[k].1@, rows@),
        decreases stages.len() - i,
    {
        let id = &stages[i].0;
        let s = match find_row(rows, id) {
            Some(k) => PiPolicyStage {
                id: id.clone(),
                label: stages[i].1.clone(),
                passed: rows[k].allowed,
                failed: rows[k].denied,
                active: true,
            },
            None => PiPolicyStage {
                id: id.clone(),
                label: stages[i].1.clone(),
                passed: 0,
                failed: 0,
                active: false,
            },
        };
        out.push(s);
        i = i + 1;
    }
    out
}

/// `v` clamped to the range of an `i64`, as the saturating operations give it.
pub open spec fn saturate(v: int) -> int {
    if v > i64::MAX {
        i64::MAX as int
    } else if v < i64::MIN {
        i64::MIN as int
    } else {
        v
    }
}

/// Whole percent of the grant still unspent, clamped to 0–100 so a meter can
/// bind to it directly and an overshoot renders as empty, not inverted; zero
/// when nothing was granted.
pub open spec fn remaining_percent_spec(balance: int, granted: int) -> int {
    if granted > 0 {
        let p = saturate(balance * 100);
        if p <= 0 {
            0
        } else if p / granted > 100 {
            100
        } else {
            p / granted
        }
    } else {
        0
    }
}

/// The visitor's credit position: what is left, as a percentage of the grant,
/// and whether it is gone. The gateway refuses the next request once it is,
/// so the pane says so before the terminal has to.
pub fn credit_gauge(balance: i64, granted: i64) -> (r: (i64, bool))
    ensures
        r.0 == remaining_percent_spec(balance as int, granted as int),
        r.1 == (granted > 0 && balance <= 0),
{
    let exhausted = granted > 0 && balance <= 0;
    if granted <= 0 {
        return (0, exhausted);
    }
    if balance <= 0 {
        return (0, exhausted);
    }
    let p: i64 = if balance > i64::MAX / 100 {
        i64::MAX
    } else {
        balance * 100
    };
    let q = p / granted;
    if q > 100 {
        (100, exhausted)
    } else {
        (q, exhausted)
    }
}

/// One request of the session, newest first, as far as the pane reads it.
pub struct RequestRow {
    pub model: Option<String>,
    pub provider: Option<String>,
    pub route_match: Option<String>,
    pub requested_model: Option<String>,
    pub latency_ms: Option<i32>,
}

/// What the pane shows of the session's requests: the newest one's latency,
/// model, provider and route, the median latency, and the model that was
/// asked for when the gateway routed elsewhere.
pub struct Facets {
    pub latency_last_ms: Option<i32>,
    pub latency_p50_ms: Option<i32>,
    pub model: Option<String>,
    pub provider: Option<String>,
    pub route_match: Option<String>,
    pub requested_model: Option<String>,
}

pub open spec fn opt_view(o: Option<String>) -> Option<Seq<char>> {
    match o {
        Some(s) => Some(s@),
        None => None,
    }
}

/// The latencies that were recorded, in row order.
pub open spec fn latencies(rows: Seq<RequestRow>) -> Seq<i32>
    decreases rows.len(),
{
    if rows.len() == 0 {
        seq![]
    } else {
        let p = latencies(rows.drop_last());
        match rows.last().latency_ms {
            Some(l) => p.push(l),
            None => p,
        }
    }
}

pub open spec fn facets_match(f: Facets, rows: Seq<RequestRow>) -> bool {
    &&& f.latency_p50_ms == median_spec(latencies(rows))
    &&& if rows.len() == 0 {
        &&& f.latency_last_ms is None
        &&& f.model is None
        &&& f.provider is None
        &&& f.route_match is None
        &&& f.requested_model is None
    } else {
        let latest = rows[0];
        &&& f.latency_last_ms == latest.latency_ms
        &&& opt_view(f.model) == opt_view(latest.model)
        &&& opt_view(f.provider) == opt_view(latest.provider)
        &&& opt_view(f.route_match) == opt_view(latest.route_match)
        &&& opt_view(f.requested_model) == (match latest.requested_model {
            Some(asked) => if opt_view(latest.model) == Some(asked@) {
                None
            } else {
                Some(asked@)
            },
            None => None,
        })
    }
}

fn clone_opt(o: &Option<String>) -> (r: Option<String>)
    ensures
        opt_view(r) == opt_view(*o),
{
    match o {
        Some(s) => Some(s.clone()),
        None => None,
    }
}

/// The pane's facets of a session's requests, newest first.
pub fn facets(requests: &Vec<RequestRow>) -> (f: Facets)
    ensures
        facets_match(f, requests@),
{
    let mut lat: Vec<i32> = Vec::new();
    let mut i: usize = 0;
    while i < requests.len()
        invariant
            i <= requests.len(),
            lat@ == latencies(requests@.take(i as int)),
        decreases requests.len() - i,
    {
        assert(requests@.take(i + 1).drop_last() =~= requests@.take(i as int));
        match requests[i].latency_ms {
            Some(l) => lat.push(l),
            None => {},
        }
        i = i + 1;
    }
    assert(requests@.take(requests.len() as int) =~= requests@);
    let p50 = median(lat);
    if requests.len() == 0 {
        return Facets {
            latency_last_ms: None,
            latency_p50_ms: p50,
            model: None,
            provider: None,
            route_match: None,
            requested_model: None,
        };
    }
    let latest = &requests[0];
    let model = clone_opt(&latest.model);
    let requested = match &latest.requested_model {
        Some(asked) => {
            let same = match &latest.model {
                Some(m) => text_is(m, asked.as_str()),
                None => false,
            };
            if same {
                None
            } else {
                Some(asked.clone())
            }
        },
        None => None,
    };
    Facets {
        latency_last_ms: latest.latency_ms,
        latency_p50_ms: p50,
        model,
        provider: clone_opt(&latest.provider),
        route_match: clone_opt(&latest.route_match),
        requested_model: requested,
    }
}

/// The models the requests reached, in row order; a request rejected before
/// routing has none and is left out.
pub open spec fn models_of(rows: Seq<RequestRow>) -> Seq<Seq<char>>
    decreases rows.len(),
{
    if rows.len() == 0 {
        seq![]
    } else {
        let p = models_of(rows.drop_last());
        match rows.last().model {
            Some(m) => p.push(m@),
            None => p,
        }
    }
}

/// How many times `m` occurs in `ms`.
pub open spec fn occurrences(ms: Seq<Seq<char>>, m: Seq<char>) -> nat
    decreases ms.len(),
{
    if ms.len() == 0 {
        0
    } else {
        occurrences(ms.drop_last(), m) + (if ms.last() == m {
            1nat
        } else {
            0nat
        })
    }
}

/// Where `m` first occurs in `ms` (meaningful when it occurs at all).
pub open spec fn first_seen(ms: Seq<Seq<char>>, m: Seq<char>) -> int
    decreases ms.len(),
{
    if ms.len() == 0 {
        0
    } else if ms.drop_last().contains(m) {
        first_seen(ms.drop_last(), m)
    } else {
        ms.len() - 1
    }
}

/// Whether share `a` is listed before share `b`: more requests first, and
/// among equals the model that appeared first.
pub open spec fn listed_before(ms: Seq<Seq<char>>, a: (Seq<char>, int), b: (Seq<char>, int)) -> bool {
    a.1 > b.1 || (a.1 == b.1 && first_seen(ms, a.0) < first_seen(ms, b.0))
}

/// One model's share of the routed requests.
pub struct ModelShare {
    pub model: String,
    pub requests: i64,
    pub percent: i64,
}

pub open spec fn share_view(s: ModelShare) -> (Seq<char>, int) {
    (s.model@, s.requests as int)
}

/// The model mix: one share per distinct model the requests reached, with its
/// request count and its whole percentage of the routed requests, most used
/// first and ties in order of first appearance; empty when nothing was routed.
pub open spec fn model_mix_matches(out: Seq<ModelShare>, rows: Seq<RequestRow>) -> bool {
    let ms = models_of(rows);
    &&& forall|i: int| 0 <= i < out.len() ==> ms.contains(#[trigger] out[i].model@)
    &&& forall|i: int|
        0 <= i < out.len() ==> #[trigger] out[i].requests == occurrences(ms, out[i].model@)
    &&& forall|i: int|
        0 <= i < out.len() ==> #[trigger] out[i].percent == saturate(out[i].requests * 100)
            / (ms.len() as int)
    &&& forall|m: Seq<char>| ms.contains(m) ==> exists|i: int| 0 <= i < out.len() && #[trigger] out[i].model@ == m
    &&& forall|i: int, j: int| 0 <= i < j < out.len() ==> out[i].model@ != out[j].model@
    &&& forall|i: int, j: int|
        0 <= i < j < out.len() ==> listed_before(ms, share_view(#[trigger] out[i]), share_view(#[trigger] out[j]))
}

proof fn lemma_push_models(ms: Seq<Seq<char>>, x: Seq<char>)
    ensures
        forall|m: Seq<char>| #[trigger] occurrences(ms.push(x), m) == occurrences(ms, m) + (if m == x {
            1nat
        } else {
            0nat
        }),
        forall|m: Seq<char>| #[trigger] ms.push(x).contains(m) == (ms.contains(m) || m == x),
        forall|m: Seq<char>| ms.contains(m) ==> #[trigger] first_seen(ms.push(x), m) == first_seen(ms, m),
        !ms.contains(x) ==> first_seen(ms.push(x), x) == ms.len(),
{
    assert(ms.push(x).drop_last() =~= ms);
    assert forall|m: Seq<char>| #[trigger] ms.push(x).contains(m) == (ms.contains(m) || m == x) by {
        if ms.contains(m) {
            let k = choose|k: int| 0 <= k < ms.len() && ms[k] == m;
            assert(ms.push(x)[k] == m);
        }
        if m == x {
            assert(ms.push(x)[ms.len() as int] == m);
        }
        if ms.push(x).contains(m) && m != x {
            let k = choose|k: int| 0 <= k < ms.push(x).len() && ms.push(x)[k] == m;
            assert(ms[k] == m);
        }
    }
}

proof fn lemma_first_seen_bound(ms: Seq<Seq<char>>, m: Seq<char>)
    requires
        ms.contains(m),
    ensures
        0 <= first_seen(ms, m) < ms.len(),
    decreases ms.len(),
{
    if ms.drop_last().contains(m) {
        lemma_first_seen_bound(ms.drop_last(), m);
    }
}

fn find_model(tally: &Vec<(String, i64)>, m: &String) -> (r: Option<usize>)
    ensures
        match r {
            Some(k) => k < tally.len() && tally@[k as int].0@ == m@,
            None => forall|k: int| 0 <= k < tally.len() ==> #[trigger] tally@[k].0@ != m@,
        },
{
    let mut i: usize = 0;
    while i < tally.len()
        invariant
            i <= tally.len(),
            forall|k: int| 0 <= k < i ==> #[trigger] tally@[k].0@ != m@,
        decreases tally.len() - i,
    {
        if text_is(&tally[i].0, m.as_str()) {
            return Some(i);
        }
        i = i + 1;
    }
    None
}

/// Each distinct model, in order of first appearance, with its count.
fn tally_models(requests: &Vec<RequestRow>) -> (r: (Vec<(String, i64)>, i64))
    requires
        requests.len() <= i64::MAX,
    ensures
        r.1 == models_of(requests@).len(),
        forall|k: int| 0 <= k < r.0.len() ==> models_of(requests@).contains(#[trigger] r.0@[k].0@),
        forall|k: int|
            0 <= k < r.0.len() ==> #[trigger] r.0@[k].1 == occurrences(models_of(requests@), r.0@[k].0@),
        forall|m: Seq<char>|
            models_of(requests@).contains(m) ==> exists|k: int| 0 <= k < r.0.len() && #[trigger] r.0@[k].0@ == m,
        forall|a: int, b: int| 0 <= a < b < r.0.len() ==> r.0@[a].0@ != r.0@[b].0@,
        forall|a: int, b: int|
            0 <= a < b < r.0.len() ==> first_seen(models_of(requests@), #[trigger] r.0@[a].0@)
                < first_seen(models_of(requests@), #[trigger] r.0@[b].0@),
{
    let mut tally: Vec<(String, i64)> = Vec::new();
    let mut total: i64 = 0;
    let mut i: usize = 0;
    while i < requests.len()
        invariant
            requests.len() <= i64::MAX,
            i <= requests.len(),
            models_of(requests@.take(i as int)).len() <= i,
            total == models_of(requests@.take(i as int)).len(),
            forall|k: int|
                0 <= k < tally.len() ==> models_of(requests@.take(i as int)).contains(
                    #[trigger] tally@[k].0@,
                ),
            forall|k: int|
                0 <= k < tally.len() ==> #[trigger] tally@[k].1 == occurrences(
                    models_of(requests@.take(i as int)),
                    tally@[k].0@,
                ),
            forall|m: Seq<char>|
                models_of(requests@.take(i as int)).contains(m) ==> exists|k: int|
                    0 <= k < tally.len() && #[trigger] tally@[k].0@ == m,
            forall|a: int, b: int| 0 <= a < b < tally.len() ==> tally@[a].0@ != tally@[b].0@,
            forall|a: int, b: int|
                0 <= a < b < tally.len() ==> first_seen(
                    models_of(requests@.take(i as int)),
                    #[trigger] tally@[a].0@,
                ) < first_seen(models_of(requests@.take(i as int)), #[trigger] tally@[b].0@),
        decreases requests.len() - i,
    {
        let ghost ms = models_of(requests@.take(i as int));
        proof {
            assert(requests@.take(i + 1).drop_last() =~= requests@.take(i as int));
            assert(requests@.take(i + 1).last() == requests@[i as int]);
        }
        match &requests[i].model {
            Some(m) => {
                let ghost x = m@;
                assert(models_of(requests@.take(i + 1)) == ms.push(x));
                proof {
                    lemma_push_models(ms, x);
                }
                match find_model(&tally, m) {
                    Some(k) => {
                        let ghost before = tally@;
                        proof {
                            lemma_first_seen_bound(ms, x);
                            assert(ms.contains(x));
                        }
                        let cur = tally[k].1;
                        assert(cur <= ms.len()) by {
                            lemma_occurrences_bound(ms, x);
                        }
                        let name = tally[k].0.clone();
                        tally.set(k, (name, cur + 1));
                        proof {
                            assert forall|kk: int| 0 <= kk < tally.len() implies #[trigger] tally@[kk].1
                                == occurrences(ms.push(x), tally@[kk].0@) by {
                                if kk != k {
                                    assert(before[kk].0@ != before[k as int].0@);
                                }
                            }
                            assert forall|mm: Seq<char>|
                                ms.push(x).contains(mm) implies exists|kk: int|
                                0 <= kk < tally.len() && #[trigger] tally@[kk].0@ == mm by {
                                if mm == x {
                                    assert(tally@[k as int].0@ == mm);
                                } else {
                                    let kk = choose|kk: int|
                                        0 <= kk < before.len() && #[trigger] before[kk].0@ == mm;
                                    assert(tally@[kk].0@ == mm);
                                }
                            }
                        }
                    },
                    None => {
                        proof {
                            if ms.contains(x) {
                                let kk = choose|kk: int|
                                    0 <= kk < tally.len() && #[trigger] tally@[kk].0@ == x;
                                assert(tally@[kk].0@ != x);
                            }
                            assert forall|k: int| 0 <= k < tally.len() implies first_seen(
                                ms,
                                #[trigger] tally@[k].0@,
                            ) < ms.len() by {
                                lemma_first_seen_bound(ms, tally@[k].0@);
                            }
                        }
                        let ghost before = tally@;
                        tally.push((m.clone(), 1));
                        proof {
                            lemma_occurrences_absent(ms, x);
                            assert forall|kk: int| 0 <= kk < tally.len() implies #[trigger] tally@[kk].1
                                == occurrences(ms.push(x), tally@[kk].0@) by {
                                if kk < before.len() {
                                    assert(before[kk].0@ != x);
                                }
                            }
                            assert forall|mm: Seq<char>|
                                ms.push(x).contains(mm) implies exists|kk: int|
                                0 <= kk < tally.len() && #[trigger] tally@[kk].0@ == mm by {
                                if mm == x {
                                    assert(tally@[before.len() as int].0@ == mm);
                                } else {
                                    let kk = choose|kk: int|
                                        0 <= kk < before.len() && #[trigger] before[kk].0@ == mm;
                                    assert(tally@[kk].0@ == mm);
                                }
                            }
                        }
                    },
                }
                total = total + 1;
            },
            None => {
                assert(models_of(requests@.take(i + 1)) == ms);
            },
        }
        i = i + 1;
    }
    assert(requests@.take(requests.len() as int) =~= requests@);
    let r = (tally, total);
    assert forall|m: Seq<char>| models_of(requests@).contains(m) implies exists|k: int|
        0 <= k < r.0.len() && #[trigger] r.0@[k].0@ == m by {
        assert(models_of(requests@.take(requests.len() as int)).contains(m));
        let k = choose|k: int| 0 <= k < r.0.len() && #[trigger] r.0@[k].0@ == m;
        assert(r.0@[k].0@ == m);
    }
    r
}

proof fn lemma_occurrences_absent(ms: Seq<Seq<char>>, m: Seq<char>)
    requires
        !ms.contains(m),
    ensures
        occurrences(ms, m) == 0,
    decreases ms.len(),
{
    if ms.len() > 0 {
        assert(ms.last() == ms[ms.len() - 1]);
        assert(!ms.drop_last().contains(m)) by {
            if ms.drop_last().contains(m) {
                let k = choose|k: int| 0 <= k < ms.drop_last().len() && ms.drop_last()[k] == m;
                assert(ms[k] == m);
            }
        }
        lemma_occurrences_absent(ms.drop_last(), m);
    }
}

proof fn lemma_occurrences_bound(ms: Seq<Seq<char>>, m: Seq<char>)
    ensures
        occurrences(ms, m) <= ms.len(),
    decreases ms.len(),
{
    if ms.len() > 0 {
        lemma_occurrences_bound(ms.drop_last(), m);
    }
}

/// The model mix of a session's requests: one share per distinct model, most
/// used first. A request rejected before routing has no model and is not in
/// the denominator, so the shares of the models that did run add up to the
/// whole.
pub fn model_mix(requests: &Vec<RequestRow>) -> (out: Vec<ModelShare>)
    requires
        requests.len() <= i64::MAX,
    ensures
        model_mix_matches(out@, requests@),
{
    let ghost ms = models_of(requests@);
    let (tally, total) = tally_models(requests);
    let ghost t = tally@;
    let mut sorted: Vec<(String, i64)> = Vec::new();
    let ghost mut pos: Seq<int> = seq![];
    let ghost mut at: Seq<int> = seq![];
    let mut k: usize = 0;
    while k < tally.len()
        invariant
            t == tally@,
            k <= tally.len(),
            sorted.len() == k,
            pos.len() == k,
            at.len() == k,
            forall|a: int, b: int|
                0 <= a < b < t.len() ==> first_seen(ms, #[trigger] t[a].0@) < first_seen(
                    ms,
                    #[trigger] t[b].0@,
                ),
            forall|j: int|
                0 <= j < k ==> 0 <= #[trigger] pos[j] < k && sorted@[j].0@ == t[pos[j]].0@
                    && sorted@[j].1 == t[pos[j]].1,
            forall|q: int| 0 <= q < k ==> 0 <= #[trigger] at[q] < k && sorted@[at[q]].0@ == t[q].0@,
            forall|a: int, b: int|
                0 <= a < b < k ==> listed_before(
                    ms,
                    (#[trigger] sorted@[a].0@, sorted@[a].1 as int),
                    (#[trigger] sorted@[b].0@, sorted@[b].1 as int),
                ),
        decreases tally.len() - k,
    {
        let x = tally[k].1;
        let mut p: usize = 0;
        while p < sorted.len() && sorted[p].1 >= x
            invariant
                p <= sorted.len(),
                forall|j: int| 0 <= j < p ==> #[trigger] sorted@[j].1 >= x,
            decreases sorted.len() - p,
        {
            p = p + 1;
        }
        let ghost before = sorted@;
        let ghost old_pos = pos;
        let ghost old_at = at;
        sorted.insert(p, (tally[k].0.clone(), x));
        proof {
            pos = old_pos.insert(p as int, k as int);
            at = old_at.map_values(|v: int| if v >= p { v + 1 } else { v }).push(p as int);
            assert forall|j: int|
                0 <= j < k + 1 implies 0 <= #[trigger] pos[j] < k + 1 && sorted@[j].0@
                == t[pos[j]].0@ && sorted@[j].1 == t[pos[j]].1 by {
                if j < p {
                    assert(sorted@[j] == before[j]);
                } else if j > p {
                    assert(sorted@[j] == before[j - 1]);
                    assert(pos[j] == old_pos[j - 1]);
                }
            }
            assert forall|q: int| 0 <= q < k + 1 implies 0 <= #[trigger] at[q] < k + 1
                && sorted@[at[q]].0@ == t[q].0@ by {
                if q < k {
                    let v = old_at[q];
                    if v >= p {
                        assert(sorted@[v + 1] == before[v]);
                    } else {
                        assert(sorted@[v] == before[v]);
                    }
                }
            }
            assert forall|a: int, b: int| 0 <= a < b < k + 1 implies listed_before(
                ms,
                (#[trigger] sorted@[a].0@, sorted@[a].1 as int),
                (#[trigger] sorted@[b].0@, sorted@[b].1 as int),
            ) by {
                if a == p {
                    let bb = b - 1;
                    assert(sorted@[b] == before[bb]);
                    if bb > p {
                        assert(listed_before(ms, (before[p as int].0@, before[p as int].1 as int), (before[bb].0@, before[bb].1 as int)));
                    }
                } else if b == p {
                    assert(sorted@[a] == before[a]);
                    let pa = old_pos[a];
                    assert(first_seen(ms, t[pa].0@) < first_seen(ms, t[k as int].0@));
                } else {
                    let aa = if a < p { a } else { a - 1 };
                    let bb = if b < p { b } else { b - 1 };
                    assert(sorted@[a] == before[aa]);
                    assert(sorted@[b] == before[bb]);
                    assert(listed_before(ms, (before[aa].0@, before[aa].1 as int), (before[bb].0@, before[bb].1 as int)));
                }
            }
        }
        k = k + 1;
    }
    proof {
        assert forall|j: int| 0 <= j < sorted.len() implies 0 <= #[trigger] sorted@[j].1 <= total by {
            lemma_occurrences_bound(ms, t[pos[j]].0@);
        }
        assert forall|m: Seq<char>| ms.contains(m) implies exists|j: int|
            0 <= j < sorted.len() && #[trigger] sorted@[j].0@ == m by {
            let q = choose|q: int| 0 <= q < t.len() && #[trigger] t[q].0@ == m;
            assert(sorted@[at[q]].0@ == m);
        }
        assert forall|j: int| 0 <= j < sorted.len() implies ms.contains(#[trigger] sorted@[j].0@)
            && sorted@[j].1 == occurrences(ms, sorted@[j].0@) by {
            assert(t[pos[j]].0@ == sorted@[j].0@);
        }
    }
    let mut out: Vec<ModelShare> = Vec::new();
    if total == 0 {
        assert forall|m: Seq<char>| ms.contains(m) implies exists|j: int|
            0 <= j < out.len() && #[trigger] out@[j].model@ == m by {
            let k = choose|k: int| 0 <= k < ms.len() && ms[k] == m;
        }
        return out;
    }
    let mut i: usize = 0;
    while i < sorted.len()
        invariant
            i <= sorted.len(),
            total == ms.len(),
            total > 0,
            total <= i64::MAX,
            out.len() == i,
            forall|j: int|
                0 <= j < i ==> #[trigger] out@[j].model@ == sorted@[j].0@ && out@[j].requests
                    == sorted@[j].1 && out@[j].percent == saturate(out@[j].requests * 100) / (
                ms.len() as int),
            forall|j: int| 0 <= j < sorted.len() ==> 0 <= #[trigger] sorted@[j].1 <= total,
            forall|m: Seq<char>| ms.contains(m) ==> exists|j: int|
                0 <= j < sorted.len() && #[trigger] sorted@[j].0@ == m,
            forall|j: int| 0 <= j < sorted.len() ==> ms.contains(#[trigger] sorted@[j].0@)
                && sorted@[j].1 == occurrences(ms, sorted@[j].0@),
            forall|a: int, b: int|
                0 <= a < b < sorted.len() ==> listed_before(
                    ms,
                    (#[trigger] sorted@[a].0@, sorted@[a].1 as int),
                    (#[trigger] sorted@[b].0@, sorted@[b].1 as int),
                ),
            ms == models_of(requests@),
        decreases sorted.len() - i,
    {
        let n = sorted[i].1;
        let scaled: i64 = if n > i64::MAX / 100 {
            i64::MAX
        } else {
            n * 100
        };
        assert(scaled == saturate(n * 100));
        out.push(ModelShare { model: sorted[i].0.clone(), requests: n, percent: scaled / total });
        i = i + 1;
    }
    proof {
        assert forall|m: Seq<char>| ms.contains(m) implies exists|j: int|
            0 <= j < out.len() && #[trigger] out@[j].model@ == m by {
            let j = choose|j: int| 0 <= j < sorted.len() && #[trigger] sorted@[j].0@ == m;
            assert(out@[j].model@ == m);
        }
        assert forall|a: int, b: int| 0 <= a < b < out.len() implies listed_before(
            ms,
            share_view(#[trigger] out@[a]),
            share_view(#[trigger] out@[b]),
        ) by {
            assert(listed_before(ms, (sorted@[a].0@, sorted@[a].1 as int), (sorted@[b].0@, sorted@[b].1 as int)));
        }
        assert forall|a: int, b: int| 0 <= a < b < out.len() implies out@[a].model@ != out@[b].model@ by {
            assert(listed_before(ms, (sorted@[a].0@, sorted@[a].1 as int), (sorted@[b].0@, sorted@[b].1 as int)));
        }
        let o = out@;
        assert forall|i: int| 0 <= i < o.len() implies ms.contains(#[trigger] o[i].model@) by {
            assert(o[i].model@ == sorted@[i].0@);
        }
        assert forall|i: int| 0 <= i < o.len() implies #[trigger] o[i].requests == occurrences(
            ms,
            o[i].model@,
        ) by {
            assert(o[i].model@ == sorted@[i].0@);
        }
        assert forall|i: int| 0 <= i < o.len() implies #[trigger] o[i].percent == saturate(
            o[i].requests * 100,
        ) / (ms.len() as int) by {
            assert(o[i].model@ == sorted@[i].0@);
        }
    }
    out
}

} // verus!
