//! The teacher arbitrator: takes a batch of arbitration tasks, streams the
//! teacher model through them one layer at a time (load, forward, unload),
//! decodes one perfect answer per task and appends the answers to the
//! dataset.

use vstd::prelude::*;
use crate::error::NebulaError;
use crate::ports::call_index;
use crate::text::owned;

verus! {

pub const DATASET_APPEND_TOPIC: &'static str = "nebula.dataset.append";

/// The JSON schema of a decoded answer.
pub const ANSWER_SCHEMA: &'static str = "{\"properties\":{\"answer\":{\"type\":\"string\"}},\"required\":[\"answer\"],\"type\":\"object\"}";

/// A prompt on which the cheap models diverged. `pulsar_context` holds JSON
/// text.
#[derive(Debug, Clone, PartialEq, Eq)]
pub struct ArbitrationTask {
    pub prompt: String,
    pub pulsar_context: String,
    pub hallucinations: [String; 3],
    pub evaluator: String,
    pub reason: String,
}

/// The teacher's answer to a task. `context` holds JSON text.
#[derive(Debug, Clone, PartialEq, Eq)]
pub struct PerfectAnswer {
    pub prompt: String,
    pub answer: String,
    pub source: String,
    pub context: String,
}

/// The queue of pending arbitrations.
pub trait ArbitrationQueue {
    fn pop_batch(&mut self, limit: usize) -> Result<Vec<ArbitrationTask>, NebulaError>;
}

/// A teacher model run one layer at a time. `schema` is JSON text.
pub trait LayeredInference {
    fn layer_count(&self, model: &str) -> Result<usize, NebulaError>;

    fn load_layer(&mut self, model: &str, layer: usize) -> Result<(), NebulaError>;

    fn forward_layer(&mut self, model: &str, layer: usize, batch: &[ArbitrationTask]) -> Result<
        (),
        NebulaError,
    >;

    fn unload_layer(&mut self, model: &str, layer: usize) -> Result<(), NebulaError>;

    fn decode_json(&mut self, model: &str, schema: &str, batch: &[ArbitrationTask]) -> Result<
        Vec<PerfectAnswer>,
        NebulaError,
    >;
}

/// Where answers go.
pub trait EventBus {
    fn publish(&mut self, topic: &str, answer: &PerfectAnswer) -> Result<(), NebulaError>;
}

/// `pop_batch`, called through `queue` with `limit`, may answer `answer`.
#[verifier::inline]
pub open spec fn batch_popped<Q: ArbitrationQueue>(
    queue: &mut Q,
    limit: usize,
    answer: Result<Vec<ArbitrationTask>, NebulaError>,
) -> bool {
    call_ensures(Q::pop_batch, (queue, limit), answer)
}

/// `layer_count`, called on `inference` with `model`, may answer `answer`.
#[verifier::inline]
pub open spec fn layers_counted<I: LayeredInference>(
    inference: &I,
    model: &str,
    answer: Result<usize, NebulaError>,
) -> bool {
    call_ensures(I::layer_count, (inference, model), answer)
}

/// `load_layer`, called through `inference` with `model` and `layer`, may
/// answer `answer`.
#[verifier::inline]
pub open spec fn layer_loaded<I: LayeredInference>(
    inference: &mut I,
    model: &str,
    layer: usize,
    answer: Result<(), NebulaError>,
) -> bool {
    call_ensures(I::load_layer, (inference, model, layer), answer)
}

/// `forward_layer`, called through `inference` with `model`, `layer` and
/// `batch`, may answer `answer`.
#[verifier::inline]
pub open spec fn layer_forwarded<I: LayeredInference>(
    inference: &mut I,
    model: &str,
    layer: usize,
    batch: &[ArbitrationTask],
    answer: Result<(), NebulaError>,
) -> bool {
    call_ensures(I::forward_layer, (inference, model, layer, batch), answer)
}

/// `unload_layer`, called through `inference` with `model` and `layer`, may
/// answer `answer`.
#[verifier::inline]
pub open spec fn layer_unloaded<I: LayeredInference>(
    inference: &mut I,
    model: &str,
    layer: usize,
    answer: Result<(), NebulaError>,
) -> bool {
    call_ensures(I::unload_layer, (inference, model, layer), answer)
}

/// `decode_json`, called through `inference` with `model`, `schema` and
/// `batch`, may answer `answer`.
#[verifier::inline]
pub open spec fn answers_decoded<I: LayeredInference>(
    inference: &mut I,
    model: &str,
    schema: &str,
    batch: &[ArbitrationTask],
    answer: Result<Vec<PerfectAnswer>, NebulaError>,
) -> bool {
    call_ensures(I::decode_json, (inference, model, schema, batch), answer)
}

/// `publish`, called through `bus` with `topic` and `answer`, may answer
/// `result`.
#[verifier::inline]
pub open spec fn answer_published<B: EventBus>(
    bus: &mut B,
    topic: &str,
    answer: &PerfectAnswer,
    result: Result<(), NebulaError>,
) -> bool {
    call_ensures(B::publish, (bus, topic, answer), result)
}

/// The answers of the teacher to the streaming of one layer, in call order:
/// load, forward, unload. An answer to a call that was not made is never
/// used.
pub struct LayerAnswers {
    pub loaded: Result<(), NebulaError>,
    pub forwarded: Result<(), NebulaError>,
    pub unloaded: Result<(), NebulaError>,
}

/// The first failure among the answers for a layer, in call order.
pub open spec fn layer_error(a: LayerAnswers) -> Option<NebulaError> {
    match a.loaded {
        Err(e) => Some(e),
        Ok(_) => match a.forwarded {
            Err(e) => Some(e),
            Ok(_) => match a.unloaded {
                Err(e) => Some(e),
                Ok(_) => None,
            },
        },
    }
}

/// Whether streaming layer `layer` of `model` over `batch` made the calls
/// that `a` answers: load, then forward over the batch, then unload, each
/// after the previous one succeeded.
pub open spec fn layer_calls<I: LayeredInference>(
    model: Seq<char>,
    batch: Seq<ArbitrationTask>,
    layer: int,
    a: LayerAnswers,
) -> bool {
    &&& exists|m: &mut I, md: &str, l: usize|
        #[trigger] layer_loaded(m, md, l, a.loaded) && md@ == model && l == layer
    &&& a.loaded is Ok ==> exists|m: &mut I, md: &str, l: usize, b: &[ArbitrationTask]|
        #[trigger] layer_forwarded(m, md, l, b, a.forwarded) && md@ == model && l == layer && b@
            == batch
    &&& a.loaded is Ok && a.forwarded is Ok ==> exists|m: &mut I, md: &str, l: usize|
        #[trigger] layer_unloaded(m, md, l, a.unloaded) && md@ == model && l == layer
}

/// Whether streaming the layers of `model`, from the first, made the calls
/// that `answers` answer, every layer but the last succeeding.
pub open spec fn layers_made<I: LayeredInference>(
    model: Seq<char>,
    batch: Seq<ArbitrationTask>,
    answers: Seq<LayerAnswers>,
) -> bool {
    &&& forall|k: int|
        0 <= k < answers.len() ==> #[trigger] layer_calls::<I>(model, batch, k, answers[k])
    &&& forall|k: int| 0 <= k < answers.len() - 1 ==> #[trigger] layer_error(answers[k]) is None
}

/// Whether the `k`-th publish, answered `results[k]`, sent `answers[k]` on
/// `DATASET_APPEND_TOPIC`.
pub open spec fn answer_published_at<B: EventBus>(
    answers: Seq<PerfectAnswer>,
    results: Seq<Result<(), NebulaError>>,
    k: int,
) -> bool {
    exists|mb: &mut B, topic: &str, a: &PerfectAnswer|
        #[trigger] answer_published(mb, topic, a, results[k]) && topic@ == DATASET_APPEND_TOPIC@
            && *a == answers[k]
}

/// Whether publishing `answers` in order made the calls that `results`
/// answer: one publish per answer, every one but the last succeeding.
pub open spec fn answers_published<B: EventBus>(
    answers: Seq<PerfectAnswer>,
    results: Seq<Result<(), NebulaError>>,
) -> bool {
    &&& results.len() <= answers.len()
    &&& forall|k: int| 0 <= k < results.len() ==> #[trigger] answer_published_at::<B>(answers, results, k)
    &&& forall|k: int| 0 <= k < results.len() - 1 ==> #[trigger] results[k] is Ok
}

/// The schema handed to the decoder, as JSON text.
pub fn answer_schema() -> (s: String)
    ensures
        s@ == ANSWER_SCHEMA@,
{
    owned(ANSWER_SCHEMA)
}

/// Pops up to `limit` tasks; when there are any, runs every layer of `model`
/// over the batch in order (load, forward, unload), decodes the answers with
/// `ANSWER_SCHEMA` and publishes each on `DATASET_APPEND_TOPIC`. A limit of
/// zero is refused with `ZeroBatchLimit`; an empty queue gives no answer; a
/// failing port ends the run with its error.
pub fn arbitrate_batch<Q: ArbitrationQueue, I: LayeredInference, B: EventBus>(
    queue: &mut Q,
    inference: &mut I,
    bus: &mut B,
    model: &str,
    limit: usize,
) -> (r: Result<Vec<PerfectAnswer>, NebulaError>)
    ensures
        limit == 0 ==> r == Err::<Vec<PerfectAnswer>, NebulaError>(NebulaError::ZeroBatchLimit)
            && *final(queue) == *old(queue) && *final(inference) == *old(inference) && *final(bus)
            == *old(bus),
        r is Ok ==> limit > 0,
        limit > 0 ==> exists|mq: &mut Q, l: usize, popped: Result<Vec<ArbitrationTask>, NebulaError>|
            #[trigger] batch_popped(mq, l, popped) && *mq == *old(queue) && *final(mq) == *final(queue) && l == limit && match popped {
                Err(e) => r == Err::<Vec<PerfectAnswer>, NebulaError>(e) && *final(inference)
                    == *old(inference) && *final(bus) == *old(bus),
                Ok(batch) => if batch@.len() == 0 {
                    (r matches Ok(v) && v@.len() == 0) && *final(inference) == *old(inference)
                        && *final(bus) == *old(bus)
                } else {
                    exists|md: &str, counted: Result<usize, NebulaError>|
                        #[trigger] layers_counted(&*old(inference), md, counted) && md@ == model@
                            && match counted {
                            Err(e) => r == Err::<Vec<PerfectAnswer>, NebulaError>(e) && *final(inference)
                                == *old(inference) && *final(bus) == *old(bus),
                            Ok(n) => exists|la: Seq<LayerAnswers>, istates: Seq<I>|
                                #![trigger layers_made::<I>(model@, batch@, la), istates[0]]
                                layers_made::<I>(model@, batch@, la) && la.len() <= n
                                    && istates.len() == la.len() + 1 && istates[0] == *old(inference)
                                    && (forall|k: int|
                                    #![trigger call_index(k)]
                                    call_index(k) && k < la.len() ==> exists|m1: &mut I, md1: &str, l1: usize|
                                        *m1 == istates[k] && #[trigger] layer_loaded(m1, md1, l1, la[k].loaded) && md1@ == model@
                                            && l1 == k && (la[k].loaded is Err ==> *final(m1) == istates[k + 1]) && (la[k].loaded is Ok
                                            ==> exists|m2: &mut I, md2: &str, l2: usize, b2: &[ArbitrationTask]|
                                            *m2 == *final(m1) && #[trigger] layer_forwarded(m2, md2, l2, b2, la[k].forwarded) && md2@
                                                == model@ && l2 == k && b2@ == batch@ && (la[k].forwarded is Err ==> *final(m2)
                                                == istates[k + 1]) && (la[k].forwarded is Ok ==> exists|m3: &mut I, md3: &str, l3: usize|
                                                *m3 == *final(m2) && *final(m3) == istates[k + 1] && #[trigger] layer_unloaded(
                                                    m3,
                                                    md3,
                                                    l3,
                                                    la[k].unloaded,
                                                ) && md3@ == model@ && l3 == k)))
                                    && if la.len() > 0 && layer_error(la.last()) is Some {
                                    r == Err::<Vec<PerfectAnswer>, NebulaError>(
                                        layer_error(la.last())->Some_0,
                                    ) && *final(bus) == *old(bus) && *final(inference) == istates.last()
                                } else {
                                    la.len() == n && exists|
                                        m: &mut I,
                                        md2: &str,
                                        schema: &str,
                                        b: &[ArbitrationTask],
                                        decoded: Result<Vec<PerfectAnswer>, NebulaError>,
                                    |
                                        #[trigger] answers_decoded(m, md2, schema, b, decoded) && *m
                                            == istates.last() && *final(m) == *final(inference) && md2@
                                            == model@ && schema@ == ANSWER_SCHEMA@ && b@ == batch@
                                            && match decoded {
                                            Err(e) => r == Err::<Vec<PerfectAnswer>, NebulaError>(e)
                                                && *final(bus) == *old(bus),
                                            Ok(answers) => exists|
                                                results: Seq<Result<(), NebulaError>>,
                                                bstates: Seq<B>,
                                            |
                                                #![trigger answers_published::<B>(answers@, results), bstates[0]]
                                                answers_published::<B>(answers@, results)
                                                    && bstates.len() == results.len() + 1 && bstates[0]
                                                    == *old(bus) && bstates.last() == *final(bus) && (forall|
                                                    k: int,
                                                |
                                                    #![trigger call_index(k)]
                                                    call_index(k) && k < results.len() ==> exists|mb: &mut B, topic: &str, sent: &PerfectAnswer|
                                                        *mb == bstates[k] && *final(mb) == bstates[k + 1] && #[trigger] answer_published(
                                                            mb,
                                                            topic,
                                                            sent,
                                                            results[k],
                                                        ) && topic@ == DATASET_APPEND_TOPIC@ && *sent == answers@[k])
                                                    && if results.len() > 0 && results.last() is Err {
                                                    r == Err::<Vec<PerfectAnswer>, NebulaError>(
                                                        results.last()->Err_0,
                                                    )
                                                } else {
                                                    results.len() == answers@.len() && (r matches Ok(
                                                        v,
                                                    ) && v@ == answers@)
                                                },
                                        }
                                },
                        }
                },
            },
{
    if limit == 0 {
        return Err(NebulaError::ZeroBatchLimit);
    }
    let batch = queue.pop_batch(limit)?;
    if batch.len() == 0 {
        return Ok(Vec::new());
    }
    let layer_count = inference.layer_count(model)?;
    let ghost bus_before = *bus;
    let ghost mut la: Seq<LayerAnswers> = Seq::empty();
    let ghost mut istates: Seq<I> = seq![*inference];
    let mut layer: usize = 0;
    while layer < layer_count
        invariant
            limit > 0,
            layer <= layer_count,
            la.len() == layer,
            *bus == bus_before,
            batch@.len() > 0,
            exists|mq: &mut Q, l: usize, popped: Result<Vec<ArbitrationTask>, NebulaError>|
                #[trigger] batch_popped(mq, l, popped) && *mq == *old(queue) && *final(mq) == *final(queue)
                    && l == limit && popped == Ok::<Vec<ArbitrationTask>, NebulaError>(batch),
            exists|md: &str, counted: Result<usize, NebulaError>|
                #[trigger] layers_counted(&*old(inference), md, counted) && md@ == model@ && counted
                    == Ok::<usize, NebulaError>(layer_count),
            layers_made::<I>(model@, batch@, la),
            forall|k: int| 0 <= k < layer ==> #[trigger] layer_error(la[k]) is None,
            istates.len() == layer + 1,
            istates[0] == *old(inference),
            istates.last() == *inference,
            forall|k: int|
                #![trigger call_index(k)]
                call_index(k) && k < layer ==> exists|m1: &mut I, md1: &str, l1: usize|
                    *m1 == istates[k] && #[trigger] layer_loaded(m1, md1, l1, la[k].loaded) && md1@ == model@
                        && l1 == k && (la[k].loaded is Err ==> *final(m1) == istates[k + 1]) && (la[k].loaded is Ok
                        ==> exists|m2: &mut I, md2: &str, l2: usize, b2: &[ArbitrationTask]|
                        *m2 == *final(m1) && #[trigger] layer_forwarded(m2, md2, l2, b2, la[k].forwarded) && md2@
                            == model@ && l2 == k && b2@ == batch@ && (la[k].forwarded is Err ==> *final(m2)
                            == istates[k + 1]) && (la[k].forwarded is Ok ==> exists|m3: &mut I, md3: &str, l3: usize|
                            *m3 == *final(m2) && *final(m3) == istates[k + 1] && #[trigger] layer_unloaded(
                                m3,
                                md3,
                                l3,
                                la[k].unloaded,
                            ) && md3@ == model@ && l3 == k)),
        decreases layer_count - layer,
    {
        let ghost pre = *inference;
        let loaded = load_layer_call(inference, model, layer);
        let ghost s1 = *inference;
        let ghost mut w = LayerAnswers { loaded, forwarded: Ok(()), unloaded: Ok(()) };
        let mut failed: Option<NebulaError> = None;
        if let Err(e) = loaded {
            failed = Some(e);
        } else {
            let forwarded = forward_layer_call(inference, model, layer, batch.as_slice());
            proof {
                w = LayerAnswers { loaded, forwarded, unloaded: Ok(()) };
            }
            if let Err(e) = forwarded {
                failed = Some(e);
            } else {
                let unloaded = unload_layer_call(inference, model, layer);
                proof {
                    w = LayerAnswers { loaded, forwarded, unloaded };
                }
                if let Err(e) = unloaded {
                    failed = Some(e);
                }
            }
        }
        proof {
            assert(exists|m1: &mut I, md1: &str, l1: usize|
                *m1 == pre && #[trigger] layer_loaded(m1, md1, l1, w.loaded) && md1@ == model@
                    && l1 == layer as int && (w.loaded is Err ==> *final(m1) == *inference) && (w.loaded is Ok
                    ==> exists|m2: &mut I, md2: &str, l2: usize, b2: &[ArbitrationTask]|
                    *m2 == *final(m1) && #[trigger] layer_forwarded(m2, md2, l2, b2, w.forwarded) && md2@
                        == model@ && l2 == layer as int && b2@ == batch@ && (w.forwarded is Err ==> *final(m2)
                        == *inference) && (w.forwarded is Ok ==> exists|m3: &mut I, md3: &str, l3: usize|
                        *m3 == *final(m2) && *final(m3) == *inference && #[trigger] layer_unloaded(
                            m3,
                            md3,
                            l3,
                            w.unloaded,
                        ) && md3@ == model@ && l3 == layer as int)));
            let old_la = la;
            let old_states = istates;
            lemma_layers_extend::<I>(model@, batch@, la, w);
            la = la.push(w);
            istates = istates.push(*inference);
            assert forall|k: int|
                #![trigger call_index(k)]
                call_index(k) && k < layer + 1 implies exists|m1: &mut I, md1: &str, l1: usize|
                    *m1 == istates[k] && #[trigger] layer_loaded(m1, md1, l1, la[k].loaded) && md1@ == model@
                        && l1 == k && (la[k].loaded is Err ==> *final(m1) == istates[k + 1]) && (la[k].loaded is Ok
                        ==> exists|m2: &mut I, md2: &str, l2: usize, b2: &[ArbitrationTask]|
                        *m2 == *final(m1) && #[trigger] layer_forwarded(m2, md2, l2, b2, la[k].forwarded) && md2@
                            == model@ && l2 == k && b2@ == batch@ && (la[k].forwarded is Err ==> *final(m2)
                            == istates[k + 1]) && (la[k].forwarded is Ok ==> exists|m3: &mut I, md3: &str, l3: usize|
                            *m3 == *final(m2) && *final(m3) == istates[k + 1] && #[trigger] layer_unloaded(
                                m3,
                                md3,
                                l3,
                                la[k].unloaded,
                            ) && md3@ == model@ && l3 == k)) by {
                if k < layer {
                    assert(istates[k] == old_states[k] && istates[k + 1] == old_states[k + 1]
                        && la[k] == old_la[k]);
                } else {
                    assert(istates[k] == pre && istates[k + 1] == *inference && la[k] == w);
                }
            }
        }
        if let Some(e) = failed {
            proof {
                assert(layer_error(la.last()) == Some(e));
                assert(istates.last() == *inference);
                assert(istates.len() == la.len() + 1 && istates[0] == *old(inference));
                assert(la.len() <= layer_count);
                assert(layers_made::<I>(model@, batch@, la));
            }
            return Err(e);
        }
        proof {
            assert(layer_error(w) is None);
        }
        layer = layer + 1;
    }
    assert(la.len() == layer_count);
    let schema = answer_schema();
    let ghost before_decode = *inference;
    let answers = decode_call(inference, model, schema.as_str(), batch.as_slice())?;
    let ghost mut results: Seq<Result<(), NebulaError>> = Seq::empty();
    let ghost mut bstates: Seq<B> = seq![*bus];
    let mut i: usize = 0;
    while i < answers.len()
        invariant
            limit > 0,
            i <= answers.len(),
            results.len() == i,
            answers_published::<B>(answers@, results),
            forall|k: int| 0 <= k < i ==> #[trigger] results[k] is Ok,
            batch@.len() > 0,
            exists|mq: &mut Q, l: usize, popped: Result<Vec<ArbitrationTask>, NebulaError>|
                #[trigger] batch_popped(mq, l, popped) && *mq == *old(queue) && *final(mq) == *final(queue)
                    && l == limit && popped == Ok::<Vec<ArbitrationTask>, NebulaError>(batch),
            exists|md: &str, counted: Result<usize, NebulaError>|
                #[trigger] layers_counted(&*old(inference), md, counted) && md@ == model@ && counted
                    == Ok::<usize, NebulaError>(layer_count),
            la.len() == layer_count,
            layers_made::<I>(model@, batch@, la),
            forall|k: int| 0 <= k < layer_count ==> #[trigger] layer_error(la[k]) is None,
            istates.len() == layer_count + 1,
            istates[0] == *old(inference),
            istates.last() == before_decode,
            forall|k: int|
                #![trigger call_index(k)]
                call_index(k) && k < layer_count ==> exists|m1: &mut I, md1: &str, l1: usize|
                    *m1 == istates[k] && #[trigger] layer_loaded(m1, md1, l1, la[k].loaded) && md1@ == model@
                        && l1 == k && (la[k].loaded is Err ==> *final(m1) == istates[k + 1]) && (la[k].loaded is Ok
                        ==> exists|m2: &mut I, md2: &str, l2: usize, b2: &[ArbitrationTask]|
                        *m2 == *final(m1) && #[trigger] layer_forwarded(m2, md2, l2, b2, la[k].forwarded) && md2@
                            == model@ && l2 == k && b2@ == batch@ && (la[k].forwarded is Err ==> *final(m2)
                            == istates[k + 1]) && (la[k].forwarded is Ok ==> exists|m3: &mut I, md3: &str, l3: usize|
                            *m3 == *final(m2) && *final(m3) == istates[k + 1] && #[trigger] layer_unloaded(
                                m3,
                                md3,
                                l3,
                                la[k].unloaded,
                            ) && md3@ == model@ && l3 == k)),
            exists|
                m: &mut I,
                md2: &str,
                schema: &str,
                b: &[ArbitrationTask],
                decoded: Result<Vec<PerfectAnswer>, NebulaError>,
            |
                #[trigger] answers_decoded(m, md2, schema, b, decoded) && *m == before_decode
                    && *final(m) == *final(inference) && md2@ == model@ && schema@ == ANSWER_SCHEMA@
                    && b@ == batch@ && decoded is Ok && decoded->Ok_0 == answers,
            bstates.len() == i + 1,
            bstates[0] == *old(bus),
            bstates.last() == *bus,
            forall|k: int|
                #![trigger call_index(k)]
                call_index(k) && k < i ==> exists|mb: &mut B, topic: &str, sent: &PerfectAnswer|
                    *mb == bstates[k] && *final(mb) == bstates[k + 1] && #[trigger] answer_published(
                        mb,
                        topic,
                        sent,
                        results[k],
                    ) && topic@ == DATASET_APPEND_TOPIC@ && *sent == answers@[k],
        decreases answers.len() - i,
    {
        let ghost pre = *bus;
        let x = publish_answer_call(bus, &answers[i]);
        proof {
            let all = results.push(x);
            assert forall|k: int| 0 <= k < all.len() implies #[trigger] answer_published_at::<B>(answers@, all, k) by {
                if k < i {
                    assert(answer_published_at::<B>(answers@, results, k));
                    assert(all[k] == results[k]);
                } else {
                    assert(all[k] == x);
                }
            }
            assert forall|k: int| 0 <= k < all.len() - 1 implies #[trigger] all[k] is Ok by {
                assert(all[k] == results[k]);
            }
            let old_results = results;
            let old_states = bstates;
            results = all;
            bstates = bstates.push(*bus);
            assert forall|k: int|
                #![trigger call_index(k)]
                call_index(k) && k < i + 1 implies exists|mb: &mut B, topic: &str, sent: &PerfectAnswer|
                    *mb == bstates[k] && *final(mb) == bstates[k + 1] && #[trigger] answer_published(
                        mb,
                        topic,
                        sent,
                        results[k],
                    ) && topic@ == DATASET_APPEND_TOPIC@ && *sent == answers@[k] by {
                if k < i {
                    assert(bstates[k] == old_states[k] && bstates[k + 1] == old_states[k + 1]
                        && results[k] == old_results[k]);
                } else {
                    assert(bstates[k] == pre && bstates[k + 1] == *bus && results[k] == x);
                }
            }
        }
        if let Err(e) = x {
            assert(results.last() == x);
            assert(answers_published::<B>(answers@, results));
            assert(la.len() > 0 ==> la.last() == la[la.len() - 1] && layer_error(la[la.len() - 1]) is None);
            assert(layers_made::<I>(model@, batch@, la));
            assert(bstates.len() == results.len() + 1 && bstates[0] == *old(bus) && bstates.last() == *bus);
            return Err(e);
        }
        i = i + 1;
    }
    assert(la.len() > 0 ==> la.last() == la[la.len() - 1] && layer_error(la[la.len() - 1]) is None);
    assert(bstates.len() == results.len() + 1 && bstates[0] == *old(bus) && bstates.last() == *bus);
    Ok(answers)
}

/// Loads a layer of the model.
fn load_layer_call<I: LayeredInference>(inference: &mut I, model: &str, layer: usize) -> (x: Result<(), NebulaError>)
    ensures
        exists|m: &mut I| *m == *old(inference) && *final(m) == *final(inference) && #[trigger] layer_loaded(m, model, layer, x),
{
    inference.load_layer(model, layer)
}

/// Runs a layer of the model over the batch.
fn forward_layer_call<I: LayeredInference>(inference: &mut I, model: &str, layer: usize, batch: &[ArbitrationTask]) -> (x: Result<(), NebulaError>)
    ensures
        exists|m: &mut I| *m == *old(inference) && *final(m) == *final(inference) && #[trigger] layer_forwarded(m, model, layer, batch, x),
{
    inference.forward_layer(model, layer, batch)
}

/// Unloads a layer of the model.
fn unload_layer_call<I: LayeredInference>(inference: &mut I, model: &str, layer: usize) -> (x: Result<(), NebulaError>)
    ensures
        exists|m: &mut I| *m == *old(inference) && *final(m) == *final(inference) && #[trigger] layer_unloaded(m, model, layer, x),
{
    inference.unload_layer(model, layer)
}

/// Decodes the answers of the batch with `schema`.
fn decode_call<I: LayeredInference>(inference: &mut I, model: &str, schema: &str, batch: &[ArbitrationTask]) -> (x: Result<Vec<PerfectAnswer>, NebulaError>)
    ensures
        exists|m: &mut I| *m == *old(inference) && *final(m) == *final(inference) && #[trigger] answers_decoded(m, model, schema, batch, x),
{
    inference.decode_json(model, schema, batch)
}

/// Publishes one answer on `DATASET_APPEND_TOPIC`.
fn publish_answer_call<B: EventBus>(bus: &mut B, answer: &PerfectAnswer) -> (x: Result<(), NebulaError>)
    ensures
        exists|mb: &mut B, topic: &str, sent: &PerfectAnswer|
            *mb == *old(bus) && *final(mb) == *final(bus) && #[trigger] answer_published(mb, topic, sent, x)
                && topic@ == DATASET_APPEND_TOPIC@ && *sent == *answer,
{
    bus.publish(DATASET_APPEND_TOPIC, answer)
}

/// Streaming one more layer after layers that all succeeded keeps the
/// calls made.
proof fn lemma_layers_extend<I: LayeredInference>(
    model: Seq<char>,
    batch: Seq<ArbitrationTask>,
    answers: Seq<LayerAnswers>,
    w: LayerAnswers,
)
    requires
        layers_made::<I>(model, batch, answers),
        forall|k: int| 0 <= k < answers.len() ==> #[trigger] layer_error(answers[k]) is None,
        layer_calls::<I>(model, batch, answers.len() as int, w),
    ensures
        layers_made::<I>(model, batch, answers.push(w)),
        forall|k: int| 0 <= k < answers.len() ==> #[trigger] layer_error(answers.push(w)[k]) is None,
{
    let all = answers.push(w);
    assert forall|k: int| 0 <= k < all.len() implies #[trigger] layer_calls::<I>(model, batch, k, all[k]) by {
        if k < answers.len() {
            assert(all[k] == answers[k]);
        }
    }
    assert forall|k: int| 0 <= k < all.len() - 1 implies #[trigger] layer_error(all[k]) is None by {
        assert(all[k] == answers[k]);
    }
    assert forall|k: int| 0 <= k < answers.len() implies #[trigger] layer_error(all[k]) is None by {
        assert(all[k] == answers[k]);
    }
}

} // verus!
