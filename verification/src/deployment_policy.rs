//! The canary deployment policy: keeps a sliding window of inference outcomes
//! per model version, counts the failures in it, tells a canary track from
//! the stable one and keeps the latest decision of each track. The divergence
//! rate and the rollback threshold are floats; the service's shell computes
//! them from the counts kept here, and decisions carry them as bit patterns.

use vstd::prelude::*;
use crate::error::NebulaError;
use crate::order::{lemma_lex_order, lex_less, lex_lt};
use crate::text::{chars_of, contains_seq, contains_str};

verus! {

pub const INPUT_TOPIC: &'static str = "pulsar.telemetry.inference_results";
pub const COGNITIVE_DIVERGENCE_METRIC: &'static str = "nebula.cognitive_divergence";

/// The outcome of one inference of a model version.
#[derive(Debug, Clone, PartialEq, Eq)]
pub struct InferenceOutcome {
    pub model_version: String,
    pub timestamp_ms: u64,
    pub diverged: bool,
    pub escalated: bool,
}

/// A tag of a custom metric.
#[derive(Debug, Clone, PartialEq, Eq)]
pub struct MetricTag {
    pub key: String,
    pub value: String,
}

/// The kind of a custom metric.
#[derive(Debug, Clone, Copy, PartialEq, Eq)]
pub enum MetricType {
    Gauge,
    Counter,
}

/// The tags of the divergence metric of a model version: the version and its
/// rollout track, in that order.
pub fn divergence_metric_tags(model_version: &str) -> (tags: Vec<MetricTag>)
    ensures
        tags@.len() == 2,
        tags@[0].key@ == "model_version"@,
        tags@[0].value@ == model_version@,
        tags@[1].key@ == "rollout_track"@,
        tags@[1].value@ == track_of(model_version@),
{
    let mut tags: Vec<MetricTag> = Vec::new();
    tags.push(MetricTag { key: crate::text::owned("model_version"), value: crate::text::owned(model_version) });
    tags.push(MetricTag { key: crate::text::owned("rollout_track"), value: crate::text::owned(rollout_track(model_version)) });
    tags
}

/// The store of recent outcomes, per model version.
pub trait OutcomeStore {
    fn load(&mut self, model_version: &str) -> Result<Vec<InferenceOutcome>, NebulaError>;

    fn save(&mut self, model_version: &str, outcomes: &[InferenceOutcome]) -> Result<(), NebulaError>;
}

/// `load`, called through `store` with `key`, may answer `answer`.
#[verifier::inline]
pub open spec fn outcomes_loaded<S: OutcomeStore>(store: &mut S, key: &str, answer: Result<Vec<InferenceOutcome>, NebulaError>) -> bool {
    call_ensures(S::load, (store, key), answer)
}

/// `save`, called through `store` with `key` and `items`, may answer `answer`.
#[verifier::inline]
pub open spec fn outcomes_saved<S: OutcomeStore>(
    store: &mut S,
    key: &str,
    items: &[InferenceOutcome],
    answer: Result<(), NebulaError>,
) -> bool {
    call_ensures(S::save, (store, key, items), answer)
}

/// The start of the window that ends at `timestamp_ms` (saturating at zero).
pub open spec fn window_start(timestamp_ms: u64, window_ms: u64) -> u64 {
    if timestamp_ms >= window_ms {
        (timestamp_ms - window_ms) as u64
    } else {
        0
    }
}

/// The outcomes at or after `start`, in order.
pub open spec fn outcomes_since(outcomes: Seq<InferenceOutcome>, start: u64) -> Seq<InferenceOutcome>
    decreases outcomes.len(),
{
    if outcomes.len() == 0 {
        Seq::empty()
    } else {
        let earlier = outcomes_since(outcomes.drop_last(), start);
        if outcomes.last().timestamp_ms >= start {
            earlier.push(outcomes.last())
        } else {
            earlier
        }
    }
}

/// A copy of an outcome.
fn copy_outcome(o: &InferenceOutcome) -> (r: InferenceOutcome)
    ensures
        r == *o,
{
    InferenceOutcome {
        model_version: o.model_version.clone(),
        timestamp_ms: o.timestamp_ms,
        diverged: o.diverged,
        escalated: o.escalated,
    }
}

/// The outcomes at or after `start`, in order.
pub fn retain_since(outcomes: &Vec<InferenceOutcome>, start: u64) -> (r: Vec<InferenceOutcome>)
    ensures
        r@ == outcomes_since(outcomes@, start),
{
    let mut r: Vec<InferenceOutcome> = Vec::new();
    let mut i: usize = 0;
    while i < outcomes.len()
        invariant
            i <= outcomes@.len(),
            r@ == outcomes_since(outcomes@.take(i as int), start),
        decreases outcomes.len() - i,
    {
        proof {
            let t = outcomes@.take(i + 1);
            assert(t.drop_last() =~= outcomes@.take(i as int));
            assert(t.last() == outcomes@[i as int]);
        }
        if outcomes[i].timestamp_ms >= start {
            r.push(copy_outcome(&outcomes[i]));
        }
        i = i + 1;
    }
    assert(outcomes@.take(outcomes@.len() as int) =~= outcomes@);
    r
}

/// Adds an outcome to its model version's window: loads the stored
/// outcomes, appends the new one, keeps those no older than `window_ms`
/// before it, saves them and returns them. A failing store ends the call with
/// its error.
pub fn store_outcome<S: OutcomeStore>(store: &mut S, outcome: &InferenceOutcome, window_ms: u64) -> (r: Result<
    Vec<InferenceOutcome>,
    NebulaError,
>)
    ensures
        exists|m1: &mut S, key: &str, loaded: Result<Vec<InferenceOutcome>, NebulaError>|
            #[trigger] outcomes_loaded(m1, key, loaded) && *m1 == *old(store) && key@ == outcome.model_version@
                && match loaded {
                Err(e) => r == Err::<Vec<InferenceOutcome>, NebulaError>(e) && *final(store) == *final(m1),
                Ok(stored) => exists|
                    m2: &mut S,
                    key2: &str,
                    saved: &[InferenceOutcome],
                    x: Result<(), NebulaError>,
                |
                    #[trigger] outcomes_saved(m2, key2, saved, x) && *m2 == *final(m1) && *final(m2)
                        == *final(store) && key2@ == outcome.model_version@ && saved@ == outcomes_since(
                        stored@.push(*outcome),
                        window_start(outcome.timestamp_ms, window_ms),
                    ) && match x {
                        Err(e) => r == Err::<Vec<InferenceOutcome>, NebulaError>(e),
                        Ok(_) => r matches Ok(w) && w@ == saved@,
                    },
            },
{
    let mut outcomes = store.load(outcome.model_version.as_str())?;
    let ghost stored = outcomes@;
    outcomes.push(copy_outcome(outcome));
    let start: u64 = if outcome.timestamp_ms >= window_ms {
        outcome.timestamp_ms - window_ms
    } else {
        0
    };
    let window = retain_since(&outcomes, start);
    store.save(outcome.model_version.as_str(), window.as_slice())?;
    assert(window@ == outcomes_since(stored.push(*outcome), window_start(outcome.timestamp_ms, window_ms)));
    Ok(window)
}

/// Whether an outcome counts as a failure: it diverged or was escalated.
pub open spec fn is_failure(o: InferenceOutcome) -> bool {
    o.diverged || o.escalated
}

/// The number of failures among outcomes.
pub open spec fn failure_count(outcomes: Seq<InferenceOutcome>) -> nat
    decreases outcomes.len(),
{
    if outcomes.len() == 0 {
        0
    } else {
        failure_count(outcomes.drop_last()) + if is_failure(outcomes.last()) {
            1nat
        } else {
            0nat
        }
    }
}

/// The number of outcomes that diverged or were escalated.
pub fn count_failures(outcomes: &[InferenceOutcome]) -> (n: usize)
    ensures
        n == failure_count(outcomes@),
{
    let mut n: usize = 0;
    let mut i: usize = 0;
    while i < outcomes.len()
        invariant
            i <= outcomes@.len(),
            n == failure_count(outcomes@.take(i as int)),
            n <= i,
        decreases outcomes.len() - i,
    {
        proof {
            let t = outcomes@.take(i + 1);
            assert(t.drop_last() =~= outcomes@.take(i as int));
            assert(t.last() == outcomes@[i as int]);
        }
        if outcomes[i].diverged || outcomes[i].escalated {
            n = n + 1;
        }
        i = i + 1;
    }
    assert(outcomes@.take(outcomes@.len() as int) =~= outcomes@);
    n
}

/// The track of a model version: `canary` when its name contains `canary`,
/// `stable` otherwise.
pub open spec fn track_of(model_version: Seq<char>) -> Seq<char> {
    if contains_seq(model_version, "canary"@) {
        "canary"@
    } else {
        "stable"@
    }
}

/// The rollout track of a model version.
pub fn rollout_track(model_version: &str) -> (t: &'static str)
    ensures
        t@ == track_of(model_version@),
{
    if contains_str(model_version, "canary") {
        "canary"
    } else {
        "stable"
    }
}

/// Every outcome kept in a window is no older than its start.
proof fn lemma_outcomes_since_recent(items: Seq<InferenceOutcome>, start: u64)
    ensures
        forall|i: int| 0 <= i < outcomes_since(items, start).len() ==> #[trigger] outcomes_since(items, start)[i].timestamp_ms >= start,
    decreases items.len(),
{
    if items.len() > 0 {
        lemma_outcomes_since_recent(items.drop_last(), start);
        let earlier = outcomes_since(items.drop_last(), start);
        let w = outcomes_since(items, start);
        assert forall|i: int| 0 <= i < w.len() implies #[trigger] w[i].timestamp_ms >= start by {
            if i < earlier.len() {
                assert(w[i] == earlier[i]);
            }
        }
    }
}

/// A window updated with a new outcome ends with that outcome, and holds
/// nothing older than `window_ms` before it.
pub proof fn law_window_keeps_newest(stored: Seq<InferenceOutcome>, outcome: InferenceOutcome, window_ms: u64)
    ensures
        ({
            let start = window_start(outcome.timestamp_ms, window_ms);
            let w = outcomes_since(stored.push(outcome), start);
            &&& w.len() >= 1
            &&& w.last() == outcome
            &&& forall|i: int| 0 <= i < w.len() ==> #[trigger] w[i].timestamp_ms >= start
        }),
{
    let start = window_start(outcome.timestamp_ms, window_ms);
    let s = stored.push(outcome);
    assert(s.drop_last() =~= stored);
    lemma_outcomes_since_recent(s, start);
}

/// What the policy recommends for a model version. The divergence rate and
/// the threshold are `f64` values, held here as their bit patterns.
#[derive(Debug, Clone, PartialEq, Eq)]
pub struct RolloutDecision {
    pub model_version: String,
    pub rollout_track: String,
    pub divergence_rate_bits: u64,
    pub threshold_bits: u64,
    pub rollback: bool,
}

/// A copy of a decision.
fn copy_decision(d: &RolloutDecision) -> (r: RolloutDecision)
    ensures
        r == *d,
{
    RolloutDecision {
        model_version: d.model_version.clone(),
        rollout_track: d.rollout_track.clone(),
        divergence_rate_bits: d.divergence_rate_bits,
        threshold_bits: d.threshold_bits,
        rollback: d.rollback,
    }
}

/// The index of the last of the first `n` decisions that is on `track`, or -1
/// when none is.
pub open spec fn last_on_track(ds: Seq<RolloutDecision>, n: nat, track: Seq<char>) -> int
    decreases n,
{
    if n == 0 {
        -1
    } else if ds[n - 1].rollout_track@ == track {
        n - 1
    } else {
        last_on_track(ds, (n - 1) as nat, track)
    }
}

/// The entries' tracks are in strictly ascending order, so no track occurs
/// twice.
pub open spec fn tracks_ascending(cache: Seq<(String, RolloutDecision)>) -> bool {
    forall|a: int, b: int|
        #![trigger cache[a], cache[b]]
        0 <= a < b < cache.len() ==> lex_lt(cache[a].0@, cache[b].0@)
}

/// Each entry is keyed by the track of its decision.
pub open spec fn keyed_by_track(cache: Seq<(String, RolloutDecision)>) -> bool {
    forall|i: int| 0 <= i < cache.len() ==> #[trigger] cache[i].0@ == cache[i].1.rollout_track@
}

/// `cache` holds, once per track and in the order of the tracks, the last of
/// the first `n` decisions on each track that occurs among them.
pub open spec fn is_latest_cache(ds: Seq<RolloutDecision>, n: nat, cache: Seq<(String, RolloutDecision)>) -> bool {
    &&& tracks_ascending(cache)
    &&& keyed_by_track(cache)
    &&& forall|i: int|
        0 <= i < cache.len() ==> {
            let j = last_on_track(ds, n, #[trigger] cache[i].0@);
            0 <= j < n && cache[i].1 == ds[j]
        }
    &&& forall|j: int|
        #![trigger ds[j]]
        0 <= j < n ==> exists|i: int| 0 <= i < cache.len() && #[trigger] cache[i].0@ == ds[j].rollout_track@
}

/// In a cache with ascending tracks, two entries with one track are one entry.
proof fn lemma_track_unique(cache: Seq<(String, RolloutDecision)>, a: int, b: int)
    requires
        tracks_ascending(cache),
        0 <= a < cache.len(),
        0 <= b < cache.len(),
        cache[a].0@ == cache[b].0@,
    ensures
        a == b,
{
    lemma_lex_order(cache[a].0@, cache[a].0@, cache[a].0@);
    if a < b {
        assert(lex_lt(cache[a].0@, cache[b].0@));
    } else if b < a {
        assert(lex_lt(cache[b].0@, cache[a].0@));
    }
}

/// Puts `d` under its track: it replaces the entry of that track, or enters
/// where its track belongs in the order.
fn put_latest(cache: &mut Vec<(String, RolloutDecision)>, d: &RolloutDecision)
    requires
        tracks_ascending(old(cache)@),
        keyed_by_track(old(cache)@),
    ensures
        tracks_ascending(final(cache)@),
        keyed_by_track(final(cache)@),
        exists|p: int| 0 <= p < final(cache)@.len() && #[trigger] final(cache)@[p] == (d.rollout_track, *d),
        forall|i: int|
            0 <= i < final(cache)@.len() && final(cache)@[i].0@ != d.rollout_track@ ==> exists|k: int|
                0 <= k < old(cache)@.len() && #[trigger] old(cache)@[k] == #[trigger] final(cache)@[i],
        forall|k: int|
            0 <= k < old(cache)@.len() ==> exists|i: int|
                0 <= i < final(cache)@.len() && #[trigger] final(cache)@[i].0@ == #[trigger] old(cache)@[k].0@,
{
    let ghost c0 = cache@;
    let track = chars_of(d.rollout_track.as_str());
    let mut i: usize = 0;
    while i < cache.len()
        invariant
            cache@ == c0,
            c0 == old(cache)@,
            tracks_ascending(c0),
            keyed_by_track(c0),
            track@ == d.rollout_track@,
            i <= cache.len(),
            forall|k: int| 0 <= k < i ==> lex_lt(#[trigger] c0[k].0@, track@),
        decreases cache.len() - i,
    {
        if cache[i].0 == d.rollout_track {
            let entry = (d.rollout_track.clone(), copy_decision(d));
            cache.set(i, entry);
            proof {
                let c1 = cache@;
                assert(c1 == c0.update(i as int, (d.rollout_track, *d)));
                assert(c1[i as int] == (d.rollout_track, *d));
                assert forall|a: int, b: int| #![trigger c1[a], c1[b]] 0 <= a < b < c1.len() implies lex_lt(c1[a].0@, c1[b].0@) by {
                    assert(c0[a].0@ == c1[a].0@ && c0[b].0@ == c1[b].0@);
                    assert(lex_lt(c0[a].0@, c0[b].0@));
                }
                assert forall|x: int| 0 <= x < c1.len() && c1[x].0@ != d.rollout_track@ implies exists|k: int|
                    0 <= k < c0.len() && #[trigger] c0[k] == #[trigger] c1[x] by {
                    assert(c0[x] == c1[x]);
                }
                assert forall|k: int| 0 <= k < c0.len() implies exists|x: int|
                    0 <= x < c1.len() && #[trigger] c1[x].0@ == #[trigger] c0[k].0@ by {
                    assert(c1[k].0@ == c0[k].0@);
                }
            }
            return;
        }
        let entry_chars = chars_of(cache[i].0.as_str());
        if lex_less(&track, &entry_chars) {
            let entry = (d.rollout_track.clone(), copy_decision(d));
            cache.insert(i, entry);
            proof {
                let c1 = cache@;
                let t = d.rollout_track@;
                assert(c1 == c0.insert(i as int, (d.rollout_track, *d)));
                assert(c1[i as int] == (d.rollout_track, *d));
                assert forall|k: int| i <= k < c0.len() implies lex_lt(t, #[trigger] c0[k].0@) by {
                    if k > i {
                        assert(lex_lt(c0[i as int].0@, c0[k].0@));
                        lemma_lex_order(t, c0[i as int].0@, c0[k].0@);
                    }
                }
                assert forall|a: int, b: int| #![trigger c1[a], c1[b]] 0 <= a < b < c1.len() implies lex_lt(c1[a].0@, c1[b].0@) by {
                    if b < i {
                        assert(c1[a] == c0[a] && c1[b] == c0[b]);
                    } else if b == i {
                        assert(c1[a] == c0[a]);
                    } else if a < i {
                        assert(c1[a] == c0[a] && c1[b] == c0[b - 1]);
                        assert(lex_lt(c0[a].0@, c0[b - 1].0@));
                    } else if a == i {
                        assert(c1[b] == c0[b - 1]);
                    } else {
                        assert(c1[a] == c0[a - 1] && c1[b] == c0[b - 1]);
                        assert(lex_lt(c0[a - 1].0@, c0[b - 1].0@));
                    }
                }
                assert forall|x: int| 0 <= x < c1.len() implies #[trigger] c1[x].0@ == c1[x].1.rollout_track@ by {
                    if x < i {
                        assert(c1[x] == c0[x]);
                    } else if x > i {
                        assert(c1[x] == c0[x - 1]);
                    }
                }
                assert forall|x: int| 0 <= x < c1.len() && c1[x].0@ != t implies exists|k: int|
                    0 <= k < c0.len() && #[trigger] c0[k] == #[trigger] c1[x] by {
                    if x < i {
                        assert(c0[x] == c1[x]);
                    } else {
                        assert(c0[x - 1] == c1[x]);
                    }
                }
                assert forall|k: int| 0 <= k < c0.len() implies exists|x: int|
                    0 <= x < c1.len() && #[trigger] c1[x].0@ == #[trigger] c0[k].0@ by {
                    if k < i {
                        assert(c1[k] == c0[k]);
                    } else {
                        assert(c1[k + 1] == c0[k]);
                    }
                }
            }
            return;
        }
        proof {
            lemma_lex_order(track@, entry_chars@, track@);
        }
        i = i + 1;
    }
    let entry = (d.rollout_track.clone(), copy_decision(d));
    cache.push(entry);
    proof {
        let c1 = cache@;
        assert(c1 == c0.push((d.rollout_track, *d)));
        assert(c1[c0.len() as int] == (d.rollout_track, *d));
        assert forall|a: int, b: int| #![trigger c1[a], c1[b]] 0 <= a < b < c1.len() implies lex_lt(c1[a].0@, c1[b].0@) by {
            assert(c1[a] == c0[a]);
            if b < c0.len() {
                assert(c1[b] == c0[b]);
            }
        }
        assert forall|x: int| 0 <= x < c1.len() implies #[trigger] c1[x].0@ == c1[x].1.rollout_track@ by {
            if x < c0.len() {
                assert(c1[x] == c0[x]);
            }
        }
        assert forall|x: int| 0 <= x < c1.len() && c1[x].0@ != d.rollout_track@ implies exists|k: int|
            0 <= k < c0.len() && #[trigger] c0[k] == #[trigger] c1[x] by {
            assert(c0[x] == c1[x]);
        }
        assert forall|k: int| 0 <= k < c0.len() implies exists|x: int|
            0 <= x < c1.len() && #[trigger] c1[x].0@ == #[trigger] c0[k].0@ by {
            assert(c1[k] == c0[k]);
        }
    }
}

/// Putting the next decision under its track extends a latest cache of the
/// decisions before it to one of the decisions up to it.
proof fn lemma_latest_cache_step(
    ds: Seq<RolloutDecision>,
    n: nat,
    c0: Seq<(String, RolloutDecision)>,
    c1: Seq<(String, RolloutDecision)>,
)
    requires
        n < ds.len(),
        is_latest_cache(ds, n, c0),
        tracks_ascending(c1),
        keyed_by_track(c1),
        exists|p: int| 0 <= p < c1.len() && #[trigger] c1[p] == (ds[n as int].rollout_track, ds[n as int]),
        forall|i: int|
            0 <= i < c1.len() && c1[i].0@ != ds[n as int].rollout_track@ ==> exists|k: int|
                0 <= k < c0.len() && #[trigger] c0[k] == #[trigger] c1[i],
        forall|k: int|
            0 <= k < c0.len() ==> exists|i: int|
                0 <= i < c1.len() && #[trigger] c1[i].0@ == #[trigger] c0[k].0@,
    ensures
        is_latest_cache(ds, n + 1, c1),
{
    let t = ds[n as int].rollout_track@;
    let p = choose|p: int| 0 <= p < c1.len() && #[trigger] c1[p] == (ds[n as int].rollout_track, ds[n as int]);
    assert forall|i: int| 0 <= i < c1.len() implies {
        let j = last_on_track(ds, n + 1, #[trigger] c1[i].0@);
        0 <= j < n + 1 && c1[i].1 == ds[j]
    } by {
        let s = c1[i].0@;
        if s == t {
            lemma_track_unique(c1, i, p);
        } else {
            let k = choose|k: int| 0 <= k < c0.len() && #[trigger] c0[k] == #[trigger] c1[i];
            assert(c0[k].0@ == s);
        }
    }
    assert forall|j: int| #![trigger ds[j]] 0 <= j < n + 1 implies exists|i: int|
        0 <= i < c1.len() && #[trigger] c1[i].0@ == ds[j].rollout_track@ by {
        if j == n {
            assert(c1[p].0@ == t);
        } else {
            let k = choose|k: int| 0 <= k < c0.len() && #[trigger] c0[k].0@ == ds[j].rollout_track@;
            let x = choose|x: int| 0 <= x < c1.len() && #[trigger] c1[x].0@ == #[trigger] c0[k].0@;
            assert(c1[x].0@ == ds[j].rollout_track@);
        }
    }
}

/// The latest decision of each rollout track among `decisions`, one entry
/// per track, ordered by track.
pub fn latest_metric_cache(decisions: &[RolloutDecision]) -> (cache: Vec<(String, RolloutDecision)>)
    ensures
        is_latest_cache(decisions@, decisions@.len(), cache@),
{
    let mut cache: Vec<(String, RolloutDecision)> = Vec::new();
    let mut n: usize = 0;
    while n < decisions.len()
        invariant
            n <= decisions.len(),
            is_latest_cache(decisions@, n as nat, cache@),
        decreases decisions.len() - n,
    {
        let ghost c0 = cache@;
        let d = &decisions[n];
        put_latest(&mut cache, d);
        proof {
            lemma_latest_cache_step(decisions@, n as nat, c0, cache@);
        }
        n = n + 1;
    }
    cache
}

/// Every outcome that diverged or was escalated counts as one failure, and no
/// other outcome counts: the failure count of a window is the number of its
/// outcomes with `diverged || escalated`, and adding an outcome adds one
/// exactly when it diverged or was escalated.
pub proof fn law_failures_are_diverged_or_escalated(outcomes: Seq<InferenceOutcome>, o: InferenceOutcome)
    ensures
        failure_count(outcomes) == outcomes.filter(|x: InferenceOutcome| x.diverged || x.escalated).len(),
        failure_count(outcomes.push(o)) == failure_count(outcomes) + if o.diverged || o.escalated {
            1nat
        } else {
            0nat
        },
        failure_count(outcomes) <= outcomes.len(),
    decreases outcomes.len(),
{
    reveal(Seq::filter);
    assert(outcomes.push(o).drop_last() =~= outcomes);
    if outcomes.len() > 0 {
        law_failures_are_diverged_or_escalated(outcomes.drop_last(), outcomes.last());
    }
}

} // verus!
