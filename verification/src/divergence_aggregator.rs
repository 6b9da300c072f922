//! The divergence aggregator: queues every divergent evaluation result for
//! the tier-3 teacher, as an arbitration task.

use vstd::prelude::*;
use crate::error::NebulaError;
use crate::text::str_eq;

verus! {

pub const RESULTS_TOPIC: &'static str = "nebula.eval.results";
pub const TIER3_QUEUE_KEY: &'static str = "nebula:tier3:arbitration";

/// An evaluator's verdict on three answers. `context` holds JSON text.
#[derive(Debug, Clone, PartialEq, Eq)]
pub struct EvaluationResult {
    pub diverged: bool,
    pub evaluator: String,
    pub reason: String,
    pub prompt: String,
    pub responses: [String; 3],
    pub context: String,
}

/// A task for the teacher. `pulsar_context` holds JSON text.
#[derive(Debug, Clone, PartialEq, Eq)]
pub struct ArbitrationTask {
    pub prompt: String,
    pub pulsar_context: String,
    pub hallucinations: [String; 3],
    pub evaluator: String,
    pub reason: String,
}

/// A key-value store of JSON lists.
pub trait KvListStore {
    fn push_json(&mut self, key: &str, value: &ArbitrationTask) -> Result<usize, NebulaError>;
}

/// `push_json`, called through `store` with `key` and `value`, may answer
/// `answer`.
#[verifier::inline]
pub open spec fn task_pushed<S: KvListStore>(
    store: &mut S,
    key: &str,
    value: &ArbitrationTask,
    answer: Result<usize, NebulaError>,
) -> bool {
    call_ensures(S::push_json, (store, key, value), answer)
}

/// The arbitration task of a result: its prompt, context, answers (as the
/// hallucinations to arbitrate), evaluator and reason.
pub open spec fn task_of(result: EvaluationResult, task: ArbitrationTask) -> bool {
    &&& task.prompt == result.prompt
    &&& task.pulsar_context == result.context
    &&& task.hallucinations == result.responses
    &&& task.evaluator == result.evaluator
    &&& task.reason == result.reason
}

/// The task queued for a result.
pub fn arbitration_task(result: EvaluationResult) -> (task: ArbitrationTask)
    ensures
        task_of(result, task),
{
    ArbitrationTask {
        prompt: result.prompt,
        pulsar_context: result.context,
        hallucinations: result.responses,
        evaluator: result.evaluator,
        reason: result.reason,
    }
}

/// Queues a divergent result that arrived on `RESULTS_TOPIC` under
/// `TIER3_QUEUE_KEY` and returns the queue's new length; anything else is
/// ignored with `None`. A failing store ends the call with its error.
pub fn aggregate_and_persist<S: KvListStore>(store: &mut S, topic: &str, result: EvaluationResult) -> (r: Result<
    Option<usize>,
    NebulaError,
>)
    ensures
        topic@ != RESULTS_TOPIC@ || !result.diverged ==> r == Ok::<Option<usize>, NebulaError>(
            None,
        ),
        r matches Ok(Some(_)) ==> topic@ == RESULTS_TOPIC@ && result.diverged,
        topic@ != RESULTS_TOPIC@ || !result.diverged ==> *final(store) == *old(store),
        topic@ == RESULTS_TOPIC@ && result.diverged ==> exists|
            m: &mut S,
            key: &str,
            task: &ArbitrationTask,
            x: Result<usize, NebulaError>,
        |
            #[trigger] task_pushed(m, key, task, x) && *m == *old(store) && *final(m) == *final(store) && key@ == TIER3_QUEUE_KEY@ && task_of(result, *task) && r == (match x {
                Ok(n) => Ok::<Option<usize>, NebulaError>(Some(n)),
                Err(e) => Err(e),
            }),
{
    if !str_eq(topic, RESULTS_TOPIC) || !result.diverged {
        return Ok(None);
    }
    let task = arbitration_task(result);
    let length = store.push_json(TIER3_QUEUE_KEY, &task)?;
    Ok(Some(length))
}

} // verus!
