//! The drift monitor: keeps a sliding window of inference metrics per topic
//! and counts the uncertain ones (those that fell back to a tool or showed
//! high variance). The confidence score and its threshold are floats; the
//! service's shell computes them from the counts kept here.

use vstd::prelude::*;
use crate::error::NebulaError;

verus! {

pub const INPUT_TOPIC: &'static str = "pulsar.telemetry.inference_results";
pub const DRIFT_TOPIC: &'static str = "nebula.drift.detected";

/// One inference on a topic.
#[derive(Debug, Clone, PartialEq, Eq)]
pub struct InferenceMetric {
    pub topic: String,
    pub timestamp_ms: u64,
    pub fallback_tool_called: bool,
    pub high_variance: bool,
}

/// The store of recent metrics, per topic.
pub trait MetricStore {
    fn load(&mut self, topic: &str) -> Result<Vec<InferenceMetric>, NebulaError>;

    fn save(&mut self, topic: &str, metrics: &[InferenceMetric]) -> Result<(), NebulaError>;
}

/// `load`, called through `store` with `key`, may answer `answer`.
#[verifier::inline]
pub open spec fn metrics_loaded<S: MetricStore>(store: &mut S, key: &str, answer: Result<Vec<InferenceMetric>, NebulaError>) -> bool {
    call_ensures(S::load, (store, key), answer)
}

/// `save`, called through `store` with `key` and `items`, may answer `answer`.
#[verifier::inline]
pub open spec fn metrics_saved<S: MetricStore>(
    store: &mut S,
    key: &str,
    items: &[InferenceMetric],
    answer: Result<(), NebulaError>,
) -> bool {
    call_ensures(S::save, (store, key, items), answer)
}

impl InferenceMetric {
    /// Whether the inference was uncertain: it fell back to a tool or its
    /// answers varied widely.
    pub fn is_uncertain(&self) -> (b: bool)
        ensures
            b == (self.fallback_tool_called || self.high_variance),
    {
        self.fallback_tool_called || self.high_variance
    }
}

/// The start of the window that ends at `timestamp_ms` (saturating at zero).
pub open spec fn window_start(timestamp_ms: u64, window_ms: u64) -> u64 {
    if timestamp_ms >= window_ms {
        (timestamp_ms - window_ms) as u64
    } else {
        0
    }
}

/// The metrics at or after `start`, in order.
pub open spec fn metrics_since(metrics: Seq<InferenceMetric>, start: u64) -> Seq<InferenceMetric>
    decreases metrics.len(),
{
    if metrics.len() == 0 {
        Seq::empty()
    } else {
        let earlier = metrics_since(metrics.drop_last(), start);
        if metrics.last().timestamp_ms >= start {
            earlier.push(metrics.last())
        } else {
            earlier
        }
    }
}

/// The number of uncertain metrics.
pub open spec fn uncertain_count(metrics: Seq<InferenceMetric>) -> nat
    decreases metrics.len(),
{
    if metrics.len() == 0 {
        0
    } else {
        uncertain_count(metrics.drop_last()) + if metrics.last().fallback_tool_called
            || metrics.last().high_variance {
            1nat
        } else {
            0nat
        }
    }
}

/// A copy of a metric.
fn copy_metric(m: &InferenceMetric) -> (r: InferenceMetric)
    ensures
        r == *m,
{
    InferenceMetric {
        topic: m.topic.clone(),
        timestamp_ms: m.timestamp_ms,
        fallback_tool_called: m.fallback_tool_called,
        high_variance: m.high_variance,
    }
}

/// The metrics at or after `start`, in order.
pub fn retain_since(metrics: &Vec<InferenceMetric>, start: u64) -> (r: Vec<InferenceMetric>)
    ensures
        r@ == metrics_since(metrics@, start),
{
    let mut r: Vec<InferenceMetric> = Vec::new();
    let mut i: usize = 0;
    while i < metrics.len()
        invariant
            i <= metrics@.len(),
            r@ == metrics_since(metrics@.take(i as int), start),
        decreases metrics.len() - i,
    {
        proof {
            let t = metrics@.take(i + 1);
            assert(t.drop_last() =~= metrics@.take(i as int));
            assert(t.last() == metrics@[i as int]);
        }
        if metrics[i].timestamp_ms >= start {
            r.push(copy_metric(&metrics[i]));
        }
        i = i + 1;
    }
    assert(metrics@.take(metrics@.len() as int) =~= metrics@);
    r
}

/// Adds a metric to its topic's window: loads the stored metrics, appends
/// the new one, keeps those no older than `window_ms` before it, saves them
/// and returns them. A failing store ends the call with its error.
pub fn store_metric<S: MetricStore>(store: &mut S, metric: &InferenceMetric, window_ms: u64) -> (r: Result<
    Vec<InferenceMetric>,
    NebulaError,
>)
    ensures
        exists|m1: &mut S, key: &str, loaded: Result<Vec<InferenceMetric>, NebulaError>|
            #[trigger] metrics_loaded(m1, key, loaded) && *m1 == *old(store) && key@ == metric.topic@
                && match loaded {
                Err(e) => r == Err::<Vec<InferenceMetric>, NebulaError>(e) && *final(store) == *final(m1),
                Ok(stored) => exists|
                    m2: &mut S,
                    key2: &str,
                    saved: &[InferenceMetric],
                    x: Result<(), NebulaError>,
                |
                    #[trigger] metrics_saved(m2, key2, saved, x) && *m2 == *final(m1) && *final(m2)
                        == *final(store) && key2@ == metric.topic@ && saved@ == metrics_since(
                        stored@.push(*metric),
                        window_start(metric.timestamp_ms, window_ms),
                    ) && match x {
                        Err(e) => r == Err::<Vec<InferenceMetric>, NebulaError>(e),
                        Ok(_) => r matches Ok(w) && w@ == saved@,
                    },
            },
{
    let mut metrics = store.load(metric.topic.as_str())?;
    let ghost stored = metrics@;
    metrics.push(copy_metric(metric));
    let start: u64 = if metric.timestamp_ms >= window_ms {
        metric.timestamp_ms - window_ms
    } else {
        0
    };
    let window = retain_since(&metrics, start);
    store.save(metric.topic.as_str(), window.as_slice())?;
    assert(window@ == metrics_since(stored.push(*metric), window_start(metric.timestamp_ms, window_ms)));
    Ok(window)
}

/// The number of uncertain metrics.
pub fn count_uncertain(metrics: &[InferenceMetric]) -> (n: usize)
    ensures
        n == uncertain_count(metrics@),
{
    let mut n: usize = 0;
    let mut i: usize = 0;
    while i < metrics.len()
        invariant
            i <= metrics@.len(),
            n == uncertain_count(metrics@.take(i as int)),
            n <= i,
        decreases metrics.len() - i,
    {
        proof {
            let t = metrics@.take(i + 1);
            assert(t.drop_last() =~= metrics@.take(i as int));
            assert(t.last() == metrics@[i as int]);
        }
        if metrics[i].is_uncertain() {
            n = n + 1;
        }
        i = i + 1;
    }
    assert(metrics@.take(metrics@.len() as int) =~= metrics@);
    n
}

/// Every metric kept in a window is no older than its start.
proof fn lemma_metrics_since_recent(items: Seq<InferenceMetric>, start: u64)
    ensures
        forall|i: int| 0 <= i < metrics_since(items, start).len() ==> #[trigger] metrics_since(items, start)[i].timestamp_ms >= start,
    decreases items.len(),
{
    if items.len() > 0 {
        lemma_metrics_since_recent(items.drop_last(), start);
        let earlier = metrics_since(items.drop_last(), start);
        let w = metrics_since(items, start);
        assert forall|i: int| 0 <= i < w.len() implies #[trigger] w[i].timestamp_ms >= start by {
            if i < earlier.len() {
                assert(w[i] == earlier[i]);
            }
        }
    }
}

/// A window updated with a new metric ends with that metric, and holds
/// nothing older than `window_ms` before it.
pub proof fn law_window_keeps_newest(stored: Seq<InferenceMetric>, metric: InferenceMetric, window_ms: u64)
    ensures
        ({
            let start = window_start(metric.timestamp_ms, window_ms);
            let w = metrics_since(stored.push(metric), start);
            &&& w.len() >= 1
            &&& w.last() == metric
            &&& forall|i: int| 0 <= i < w.len() ==> #[trigger] w[i].timestamp_ms >= start
        }),
{
    let start = window_start(metric.timestamp_ms, window_ms);
    let s = stored.push(metric);
    assert(s.drop_last() =~= stored);
    lemma_metrics_since_recent(s, start);
}

/// Every metric that fell back to a tool or had high variance counts as
/// uncertain, and no other metric counts: the uncertain count is the number
/// of metrics with `fallback_tool_called || high_variance`, and adding a
/// metric adds one exactly when it is such a metric.
pub proof fn law_uncertain_is_fallback_or_high_variance(metrics: Seq<InferenceMetric>, m: InferenceMetric)
    ensures
        uncertain_count(metrics) == metrics.filter(
            |x: InferenceMetric| x.fallback_tool_called || x.high_variance,
        ).len(),
        uncertain_count(metrics.push(m)) == uncertain_count(metrics) + if m.fallback_tool_called
            || m.high_variance {
            1nat
        } else {
            0nat
        },
        uncertain_count(metrics) <= metrics.len(),
    decreases metrics.len(),
{
    reveal(Seq::filter);
    assert(metrics.push(m).drop_last() =~= metrics);
    if metrics.len() > 0 {
        law_uncertain_is_fallback_or_high_variance(metrics.drop_last(), metrics.last());
    }
}

} // verus!
