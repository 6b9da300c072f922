//! The LoRA validator: replays prompts that failed before training through the
//! new adapter, has the AST evaluator judge the replays, and publishes the
//! report on the success or failure topic. It also frames and unframes the
//! gRPC messages exchanged with the AST evaluator's micro-VM.

use vstd::prelude::*;
use crate::error::NebulaError;
use crate::ports::call_index;

verus! {

pub const INPUT_TOPIC: &'static str = "nebula.training.complete";
pub const VALIDATION_SUCCESS_TOPIC: &'static str = "nebula.validation.success";
pub const VALIDATION_FAILED_TOPIC: &'static str = "nebula.validation.failed";
pub const AST_MICROVM_URL: &'static str =
    "http://nebula-eval-ast.microvm.internal/nebula.ast.AstEvaluator/EvaluateTriplets";

/// How many failed prompts are replayed at most.
pub const SAMPLE_LIMIT: usize = 20;

/// The sampling temperature of the first replay, in tenths.
pub const FOCUSED_TEMPERATURE_TENTHS: u32 = 1;

/// The sampling temperature of the second and third replays, in tenths.
pub const CREATIVE_TEMPERATURE_TENTHS: u32 = 8;

/// A finished training run.
#[derive(Debug, Clone, PartialEq, Eq)]
pub struct TrainingCompleteEvent {
    pub artifact_ref: String,
    pub output_model: String,
    pub examples: usize,
    pub batch_id: Option<String>,
}

/// A prompt whose three answers diverged before training.
#[derive(Debug, Clone, PartialEq, Eq)]
pub struct FailedPrompt {
    pub prompt: String,
    pub language: String,
    pub before: [String; 3],
}

/// A failed prompt replayed through the trained adapter, with the verdict.
#[derive(Debug, Clone, PartialEq, Eq)]
pub struct ReplaySample {
    pub prompt: String,
    pub language: String,
    pub before: [String; 3],
    pub after: [String; 3],
    pub diverged: bool,
    pub fallback_reason: Option<String>,
}

/// The outcome of a validation run. The pass rate is `passed` over the
/// number of samples.
#[derive(Debug, Clone, PartialEq, Eq)]
pub struct ValidationReport {
    pub artifact_ref: String,
    pub output_model: String,
    pub passed: usize,
    pub samples: Vec<ReplaySample>,
}

/// The AST evaluator's verdict on three answers.
#[derive(Debug, Clone, PartialEq, Eq)]
pub struct AstEvaluationResponse {
    pub diverged: bool,
    pub fallback_reason: Option<String>,
}

/// Where failed prompts are sampled from.
pub trait FailedPromptStore {
    fn sample_failed_prompts(&mut self, batch_id: Option<&str>, limit: usize) -> Result<
        Vec<FailedPrompt>,
        NebulaError,
    >;
}

/// The inference host that serves the trained adapter. The temperature is
/// given in tenths.
pub trait InferenceHost {
    fn generate_with_adapter(
        &mut self,
        artifact_ref: &str,
        output_model: &str,
        prompt: &str,
        temperature_tenths: u32,
    ) -> Result<String, NebulaError>;
}

/// The AST evaluator.
pub trait AstEvaluator {
    fn evaluate_triplets(&mut self, language: &str, responses: &[String; 3]) -> Result<
        AstEvaluationResponse,
        NebulaError,
    >;
}

/// Where validation reports go.
pub trait EventBus {
    fn publish(&mut self, topic: &str, report: &ValidationReport) -> Result<(), NebulaError>;
}

/// The HTTP client that reaches the AST evaluator's micro-VM.
pub trait WasiHttpClient {
    fn post_grpc(&mut self, url: &str, body: &[u8]) -> Result<Vec<u8>, NebulaError>;
}

/// `sample_failed_prompts`, called through `store` with `batch_id` and
/// `limit`, may answer `answer`.
#[verifier::inline]
pub open spec fn prompts_sampled<S: FailedPromptStore>(
    store: &mut S,
    batch_id: Option<&str>,
    limit: usize,
    answer: Result<Vec<FailedPrompt>, NebulaError>,
) -> bool {
    call_ensures(S::sample_failed_prompts, (store, batch_id, limit), answer)
}

/// `generate_with_adapter`, called through `inference` with these arguments,
/// may answer `answer`.
#[verifier::inline]
pub open spec fn adapter_generated<I: InferenceHost>(
    inference: &mut I,
    artifact_ref: &str,
    output_model: &str,
    prompt: &str,
    temperature_tenths: u32,
    answer: Result<String, NebulaError>,
) -> bool {
    call_ensures(
        I::generate_with_adapter,
        (inference, artifact_ref, output_model, prompt, temperature_tenths),
        answer,
    )
}

/// `evaluate_triplets`, called through `evaluator` with `language` and
/// `responses`, may answer `answer`.
#[verifier::inline]
pub open spec fn triplets_evaluated<E: AstEvaluator>(
    evaluator: &mut E,
    language: &str,
    responses: &[String; 3],
    answer: Result<AstEvaluationResponse, NebulaError>,
) -> bool {
    call_ensures(E::evaluate_triplets, (evaluator, language, responses), answer)
}

/// `publish`, called through `bus` with `topic` and `report`, may answer
/// `answer`.
#[verifier::inline]
pub open spec fn report_published<B: EventBus>(
    bus: &mut B,
    topic: &str,
    report: &ValidationReport,
    answer: Result<(), NebulaError>,
) -> bool {
    call_ensures(B::publish, (bus, topic, report), answer)
}

/// `post_grpc`, called through `client` with `url` and `body`, may answer
/// `answer`.
#[verifier::inline]
pub open spec fn grpc_posted<C: WasiHttpClient>(
    client: &mut C,
    url: &str,
    body: &[u8],
    answer: Result<Vec<u8>, NebulaError>,
) -> bool {
    call_ensures(C::post_grpc, (client, url, body), answer)
}

/// Whether the borrowed batch id `a` spells the owned one `b`.
pub open spec fn same_batch(a: Option<&str>, b: Option<String>) -> bool {
    match (a, b) {
        (Some(x), Some(y)) => x@ == y@,
        (None, None) => true,
        _ => false,
    }
}

/// The answers of the ports to the replay of one failed prompt: the
/// adapter's three generations and the evaluator's verdict, in call order.
/// An answer after a failed call is never used.
pub struct ReplayAnswers {
    pub first: Result<String, NebulaError>,
    pub second: Result<String, NebulaError>,
    pub third: Result<String, NebulaError>,
    pub verdict: Result<AstEvaluationResponse, NebulaError>,
}

/// Whether the adapter of `event`, asked for `prompt` at
/// `temperature_tenths`, may have answered `answer`.
pub open spec fn generated_by<I: InferenceHost>(
    event: TrainingCompleteEvent,
    prompt: Seq<char>,
    temperature_tenths: u32,
    answer: Result<String, NebulaError>,
) -> bool {
    exists|m: &mut I, a: &str, o: &str, p: &str|
        #[trigger] adapter_generated(m, a, o, p, temperature_tenths, answer) && a@
            == event.artifact_ref@ && o@ == event.output_model@ && p@ == prompt
}

/// Whether the three generations of `a` are the adapter's answers to
/// `prompt`: the first at the focused temperature, then, while the calls
/// succeed, two at the creative one.
pub open spec fn generations_made<I: InferenceHost>(
    event: TrainingCompleteEvent,
    prompt: Seq<char>,
    a: ReplayAnswers,
) -> bool {
    &&& generated_by::<I>(event, prompt, FOCUSED_TEMPERATURE_TENTHS, a.first)
    &&& a.first is Ok ==> generated_by::<I>(event, prompt, CREATIVE_TEMPERATURE_TENTHS, a.second)
    &&& a.first is Ok && a.second is Ok ==> generated_by::<I>(
        event,
        prompt,
        CREATIVE_TEMPERATURE_TENTHS,
        a.third,
    )
}

/// Whether the replay of `failed` made the calls that `a` answers: the three
/// generations, then, when they all succeeded, the evaluator on the failed
/// prompt's language and the three new answers.
pub open spec fn replay_calls<I: InferenceHost, E: AstEvaluator>(
    event: TrainingCompleteEvent,
    failed: FailedPrompt,
    a: ReplayAnswers,
) -> bool {
    &&& generations_made::<I>(event, failed.prompt@, a)
    &&& (a.first is Ok && a.second is Ok && a.third is Ok) ==> exists|
        m: &mut E,
        language: &str,
        responses: &[String; 3],
    |
        #[trigger] triplets_evaluated(m, language, responses, a.verdict) && language@
            == failed.language@ && Ok::<String, NebulaError>(responses[0]) == a.first && Ok::<
            String,
            NebulaError,
        >(responses[1]) == a.second && Ok::<String, NebulaError>(responses[2]) == a.third
}

/// The first failure among the answers of a replay, in call order.
pub open spec fn replay_error(a: ReplayAnswers) -> Option<NebulaError> {
    match a.first {
        Err(e) => Some(e),
        Ok(_) => match a.second {
            Err(e) => Some(e),
            Ok(_) => match a.third {
                Err(e) => Some(e),
                Ok(_) => match a.verdict {
                    Err(e) => Some(e),
                    Ok(_) => None,
                },
            },
        },
    }
}

/// Whether the replays of the sampled prompts made the calls that `answers`
/// answer, one entry per replayed prompt in order, every replay but the last
/// succeeding.
pub open spec fn replays_made<I: InferenceHost, E: AstEvaluator>(
    event: TrainingCompleteEvent,
    prompts: Seq<FailedPrompt>,
    answers: Seq<ReplayAnswers>,
) -> bool {
    &&& 1 <= answers.len() <= prompts.len()
    &&& forall|k: int|
        0 <= k < answers.len() ==> #[trigger] replay_calls::<I, E>(event, prompts[k], answers[k])
    &&& forall|k: int| 0 <= k < answers.len() - 1 ==> #[trigger] replay_error(answers[k]) is None
}

/// Whether `sample` is the replay of `failed` made of the answers `a`, all
/// successful: the prompt, language and earlier answers are kept, the new
/// answers are the three generations, and the verdict is the evaluator's.
pub open spec fn replay_sample(failed: FailedPrompt, a: ReplayAnswers, sample: ReplaySample) -> bool {
    &&& replay_error(a) is None
    &&& sample.prompt == failed.prompt
    &&& sample.language == failed.language
    &&& sample.before == failed.before
    &&& a.first == Ok::<String, NebulaError>(sample.after[0])
    &&& a.second == Ok::<String, NebulaError>(sample.after[1])
    &&& a.third == Ok::<String, NebulaError>(sample.after[2])
    &&& a.verdict matches Ok(v) && sample.diverged == v.diverged && sample.fallback_reason
        == v.fallback_reason
}

/// Whether `r` is what three generations `a` give: the three answers in
/// order, or the first failure.
pub open spec fn generations_give(a: ReplayAnswers, r: Result<[String; 3], NebulaError>) -> bool {
    match a.first {
        Err(e) => r == Err::<[String; 3], NebulaError>(e),
        Ok(x) => match a.second {
            Err(e) => r == Err::<[String; 3], NebulaError>(e),
            Ok(y) => match a.third {
                Err(e) => r == Err::<[String; 3], NebulaError>(e),
                Ok(z) => r matches Ok(after) && after[0] == x && after[1] == y && after[2] == z,
            },
        },
    }
}

/// Whether `r` is what unframing `frame` gives: a frame shorter than its
/// header is refused with `InvalidGrpcFrame`, one shorter than the length it
/// declares with `TruncatedGrpcFrame`; otherwise the declared payload.
pub open spec fn is_unframing(frame: Seq<u8>, r: Result<Vec<u8>, NebulaError>) -> bool {
    if frame.len() < 5 {
        r == Err::<Vec<u8>, NebulaError>(NebulaError::InvalidGrpcFrame)
    } else if 5 + declared_len(frame) > frame.len() {
        r == Err::<Vec<u8>, NebulaError>(NebulaError::TruncatedGrpcFrame)
    } else {
        r matches Ok(p) && p@ == frame.subrange(5, 5 + declared_len(frame) as int)
    }
}

// ---------------------------------------------------------------------------
// Validation
// ---------------------------------------------------------------------------

/// The number of samples that no longer diverge.
pub open spec fn count_passed(samples: Seq<ReplaySample>) -> nat
    decreases samples.len(),
{
    if samples.len() == 0 {
        0
    } else {
        count_passed(samples.drop_last()) + if samples.last().diverged {
            0nat
        } else {
            1nat
        }
    }
}

/// Whether `report` is a validation report of the run `event`: it names the
/// run's artifact and model, holds at least one sample, and counts as passed
/// exactly the samples that no longer diverge.
pub open spec fn is_report_of(event: TrainingCompleteEvent, report: ValidationReport) -> bool {
    &&& report.artifact_ref == event.artifact_ref
    &&& report.output_model == event.output_model
    &&& report.samples@.len() >= 1
    &&& report.passed == count_passed(report.samples@)
}

/// The topic a report goes to: success when every sample passed.
pub open spec fn report_topic(report: ValidationReport) -> Seq<char> {
    if report.passed == report.samples@.len() {
        VALIDATION_SUCCESS_TOPIC@
    } else {
        VALIDATION_FAILED_TOPIC@
    }
}

/// The topic a report is published on: `VALIDATION_SUCCESS_TOPIC` when every
/// replayed prompt converged, `VALIDATION_FAILED_TOPIC` otherwise.
pub fn validation_topic(report: &ValidationReport) -> (t: &'static str)
    ensures
        t@ == report_topic(*report),
{
    if report.passed == report.samples.len() {
        VALIDATION_SUCCESS_TOPIC
    } else {
        VALIDATION_FAILED_TOPIC
    }
}

/// Has the evaluator judge three answers in `language`.
fn evaluate_call<E: AstEvaluator>(evaluator: &mut E, language: &str, responses: &[String; 3]) -> (x: Result<
    AstEvaluationResponse,
    NebulaError,
>)
    ensures
        exists|m: &mut E|
            *m == *old(evaluator) && *final(m) == *final(evaluator) && #[trigger] triplets_evaluated(
                m,
                language,
                responses,
                x,
            ),
{
    evaluator.evaluate_triplets(language, responses)
}

/// Generates three answers with the trained adapter: one focused, two
/// creative.
fn replay_prompt<I: InferenceHost>(inference: &mut I, event: &TrainingCompleteEvent, prompt: &str) -> (out: (
    Result<[String; 3], NebulaError>,
    Ghost<ReplayAnswers>,
))
    ensures
        ({
            let answers = out.1@;
            generations_made::<I>(*event, prompt@, answers) && generations_give(answers, out.0) && (exists|m1: &mut I, a1: &str, o1: &str, p1: &str|
                    *m1 == *old(inference) && #[trigger] adapter_generated(m1, a1, o1, p1, FOCUSED_TEMPERATURE_TENTHS, answers.first)
                        && a1@ == event.artifact_ref@ && o1@ == event.output_model@ && p1@ == prompt@ && (answers.first is Err ==> *final(m1)
                        == *final(inference)) && (answers.first is Ok ==> exists|m2: &mut I, a2: &str, o2: &str, p2: &str|
                        *m2 == *final(m1) && #[trigger] adapter_generated(
                            m2,
                            a2,
                            o2,
                            p2,
                            CREATIVE_TEMPERATURE_TENTHS,
                            answers.second,
                        ) && a2@ == event.artifact_ref@ && o2@ == event.output_model@ && p2@ == prompt@ && (answers.second is Err ==> *final(m2)
                            == *final(inference)) && (answers.second is Ok ==> exists|m3: &mut I, a3: &str, o3: &str, p3: &str|
                            *m3 == *final(m2) && *final(m3) == *final(inference) && #[trigger] adapter_generated(
                                m3,
                                a3,
                                o3,
                                p3,
                                CREATIVE_TEMPERATURE_TENTHS,
                                answers.third,
                            ) && a3@ == event.artifact_ref@ && o3@ == event.output_model@ && p3@ == prompt@)))
        }),
{
    let x = inference.generate_with_adapter(
        event.artifact_ref.as_str(),
        event.output_model.as_str(),
        prompt,
        FOCUSED_TEMPERATURE_TENTHS,
    );
    let a = match x {
        Ok(v) => v,
        Err(e) => {
            proof {
                let w = ReplayAnswers { first: x, second: x, third: x, verdict: Err(e) };
                assert(generations_made::<I>(*event, prompt@, w));
            }
            return (Err(e), Ghost(ReplayAnswers { first: x, second: x, third: x, verdict: Err(e) }));
        },
    };
    let y = inference.generate_with_adapter(
        event.artifact_ref.as_str(),
        event.output_model.as_str(),
        prompt,
        CREATIVE_TEMPERATURE_TENTHS,
    );
    let b = match y {
        Ok(v) => v,
        Err(e) => {
            proof {
                let w = ReplayAnswers { first: x, second: y, third: y, verdict: Err(e) };
                assert(generations_made::<I>(*event, prompt@, w));
            }
            return (Err(e), Ghost(ReplayAnswers { first: x, second: y, third: y, verdict: Err(e) }));
        },
    };
    let z = inference.generate_with_adapter(
        event.artifact_ref.as_str(),
        event.output_model.as_str(),
        prompt,
        CREATIVE_TEMPERATURE_TENTHS,
    );
    let c = match z {
        Ok(v) => v,
        Err(e) => {
            proof {
                let w = ReplayAnswers { first: x, second: y, third: z, verdict: Err(e) };
                assert(generations_made::<I>(*event, prompt@, w));
            }
            return (Err(e), Ghost(ReplayAnswers { first: x, second: y, third: z, verdict: Err(e) }));
        },
    };
    let after = [a, b, c];
    proof {
        let w = ReplayAnswers {
            first: x,
            second: y,
            third: z,
            verdict: Err(NebulaError::NoFailedPrompts),
        };
        assert(after[0] == a && after[1] == b && after[2] == c);
        assert(generations_made::<I>(*event, prompt@, w));
        assert(generations_give(w, Ok::<[String; 3], NebulaError>(after)));
    }
    (Ok(after), Ghost(ReplayAnswers {
        first: x,
        second: y,
        third: z,
        verdict: Err(NebulaError::NoFailedPrompts),
    }))
}

/// Samples up to `SAMPLE_LIMIT` failed prompts of the run's batch, replays
/// each through the trained adapter, has the evaluator judge the replays, and
/// publishes the report on the topic `validation_topic` picks. No failed
/// prompt at all is refused with `NoFailedPrompts`; a failing port ends the
/// run with its error.
pub fn validate_lora<S: FailedPromptStore, I: InferenceHost, E: AstEvaluator, B: EventBus>(
    store: &mut S,
    inference: &mut I,
    evaluator: &mut E,
    bus: &mut B,
    event: TrainingCompleteEvent,
) -> (r: Result<ValidationReport, NebulaError>)
    ensures
        r matches Ok(report) ==> is_report_of(event, report),
        exists|
            m: &mut S,
            batch: Option<&str>,
            limit: usize,
            sampled: Result<Vec<FailedPrompt>, NebulaError>,
        |
            #[trigger] prompts_sampled(m, batch, limit, sampled) && *m == *old(store) && *final(m)
                == *final(store) && same_batch(batch, event.batch_id) && limit == SAMPLE_LIMIT
                && match sampled {
                Err(e) => r == Err::<ValidationReport, NebulaError>(e) && *final(inference) == *old(inference) && *final(evaluator) == *old(evaluator) && *final(bus) == *old(bus),
                Ok(prompts) => if prompts@.len() == 0 {
                    r == Err::<ValidationReport, NebulaError>(NebulaError::NoFailedPrompts)
                        && *final(inference) == *old(inference) && *final(evaluator) == *old(evaluator) && *final(bus) == *old(bus)
                } else {
                    exists|answers: Seq<ReplayAnswers>, istates: Seq<I>, estates: Seq<E>|
                        #![trigger replays_made::<I, E>(event, prompts@, answers), istates[0], estates[0]]
                        replays_made::<I, E>(event, prompts@, answers) && istates.len() == answers.len()
                            + 1 && istates[0] == *old(inference) && istates.last() == *final(inference)
                            && estates.len() == answers.len() + 1 && estates[0] == *old(evaluator)
                            && estates.last() == *final(evaluator) && (forall|k: int|
                            #![trigger call_index(k)]
                            call_index(k) && k < answers.len() ==> (exists|m1: &mut I, a1: &str, o1: &str, p1: &str|
                                *m1 == istates[k] && #[trigger] adapter_generated(m1, a1, o1, p1, FOCUSED_TEMPERATURE_TENTHS, answers[k].first)
                                    && a1@ == event.artifact_ref@ && o1@ == event.output_model@ && p1@ == prompts@[k].prompt@ && (answers[k].first is Err ==> *final(m1)
                                    == istates[k + 1]) && (answers[k].first is Ok ==> exists|m2: &mut I, a2: &str, o2: &str, p2: &str|
                                    *m2 == *final(m1) && #[trigger] adapter_generated(
                                        m2,
                                        a2,
                                        o2,
                                        p2,
                                        CREATIVE_TEMPERATURE_TENTHS,
                                        answers[k].second,
                                    ) && a2@ == event.artifact_ref@ && o2@ == event.output_model@ && p2@ == prompts@[k].prompt@ && (answers[k].second is Err ==> *final(m2)
                                        == istates[k + 1]) && (answers[k].second is Ok ==> exists|m3: &mut I, a3: &str, o3: &str, p3: &str|
                                        *m3 == *final(m2) && *final(m3) == istates[k + 1] && #[trigger] adapter_generated(
                                            m3,
                                            a3,
                                            o3,
                                            p3,
                                            CREATIVE_TEMPERATURE_TENTHS,
                                            answers[k].third,
                                        ) && a3@ == event.artifact_ref@ && o3@ == event.output_model@ && p3@ == prompts@[k].prompt@)))
                                && (answers[k].first is Ok && answers[k].second is Ok && answers[k].third is Ok ==> exists|
                                    me: &mut E,
                                    language: &str,
                                    responses: &[String; 3],
                                |
                                    *me == estates[k] && *final(me) == estates[k + 1] && #[trigger] triplets_evaluated(
                                        me,
                                        language,
                                        responses,
                                        answers[k].verdict,
                                    ) && language@ == prompts@[k].language@ && Ok::<String, NebulaError>(responses[0]) == answers[k].first
                                        && Ok::<String, NebulaError>(responses[1]) == answers[k].second && Ok::<String, NebulaError>(
                                        responses[2],
                                    ) == answers[k].third) && (!(answers[k].first is Ok && answers[k].second is Ok && answers[k].third is Ok) ==> estates[k
                                    + 1] == estates[k]))
                            && match replay_error(
                            answers.last(),
                        ) {
                            Some(e) => r == Err::<ValidationReport, NebulaError>(e) && *final(bus)
                                == *old(bus),
                            None => answers.len() == prompts@.len() && exists|
                                mb: &mut B,
                                topic: &str,
                                sent: &ValidationReport,
                                x: Result<(), NebulaError>,
                            |
                                #[trigger] report_published(mb, topic, sent, x) && *mb == *old(bus)
                                    && *final(mb) == *final(bus) && topic@ == report_topic(*sent)
                                    && is_report_of(event, *sent) && sent.samples@.len()
                                    == prompts@.len() && (forall|k: int|
                                    0 <= k < prompts@.len() ==> replay_sample(
                                        prompts@[k],
                                        answers[k],
                                        #[trigger] sent.samples@[k],
                                    )) && r == (match x {
                                    Ok(_) => Ok::<ValidationReport, NebulaError>(*sent),
                                    Err(e) => Err(e),
                                }),
                        }
                },
            },
{
    let prompts = match &event.batch_id {
        Some(b) => store.sample_failed_prompts(Some(b.as_str()), SAMPLE_LIMIT)?,
        None => store.sample_failed_prompts(None, SAMPLE_LIMIT)?,
    };
    let ghost bus_before = *bus;
    if prompts.len() == 0 {
        return Err(NebulaError::NoFailedPrompts);
    }
    let mut samples: Vec<ReplaySample> = Vec::new();
    let mut passed: usize = 0;
    let mut i: usize = 0;
    let ghost mut answers: Seq<ReplayAnswers> = Seq::empty();
    let ghost mut istates: Seq<I> = seq![*inference];
    let ghost mut estates: Seq<E> = seq![*evaluator];
    while i < prompts.len()
        invariant
            i <= prompts.len(),
            samples@.len() == i,
            answers.len() == i,
            passed == count_passed(samples@),
            passed <= i,
            *bus == bus_before,
            prompts@.len() > 0,
            exists|m: &mut S, batch: Option<&str>, limit: usize|
                #[trigger] prompts_sampled(
                    m,
                    batch,
                    limit,
                    Ok::<Vec<FailedPrompt>, NebulaError>(prompts),
                ) && *m == *old(store) && *final(m) == *final(store) && same_batch(
                    batch,
                    event.batch_id,
                ) && limit == SAMPLE_LIMIT,
            forall|k: int|
                0 <= k < i ==> #[trigger] replay_calls::<I, E>(event, prompts@[k], answers[k]),
            forall|k: int|
                0 <= k < i ==> replay_sample(prompts@[k], answers[k], #[trigger] samples@[k]),
            istates.len() == i + 1,
            istates[0] == *old(inference),
            istates.last() == *inference,
            estates.len() == i + 1,
            estates[0] == *old(evaluator),
            estates.last() == *evaluator,
            forall|k: int|
                #![trigger call_index(k)]
                call_index(k) && k < i ==> (exists|m1: &mut I, a1: &str, o1: &str, p1: &str|
                    *m1 == istates[k] && #[trigger] adapter_generated(m1, a1, o1, p1, FOCUSED_TEMPERATURE_TENTHS, answers[k].first)
                        && a1@ == event.artifact_ref@ && o1@ == event.output_model@ && p1@ == prompts@[k].prompt@ && (answers[k].first is Err ==> *final(m1)
                        == istates[k + 1]) && (answers[k].first is Ok ==> exists|m2: &mut I, a2: &str, o2: &str, p2: &str|
                        *m2 == *final(m1) && #[trigger] adapter_generated(
                            m2,
                            a2,
                            o2,
                            p2,
                            CREATIVE_TEMPERATURE_TENTHS,
                            answers[k].second,
                        ) && a2@ == event.artifact_ref@ && o2@ == event.output_model@ && p2@ == prompts@[k].prompt@ && (answers[k].second is Err ==> *final(m2)
                            == istates[k + 1]) && (answers[k].second is Ok ==> exists|m3: &mut I, a3: &str, o3: &str, p3: &str|
                            *m3 == *final(m2) && *final(m3) == istates[k + 1] && #[trigger] adapter_generated(
                                m3,
                                a3,
                                o3,
                                p3,
                                CREATIVE_TEMPERATURE_TENTHS,
                                answers[k].third,
                            ) && a3@ == event.artifact_ref@ && o3@ == event.output_model@ && p3@ == prompts@[k].prompt@)))
                    && (answers[k].first is Ok && answers[k].second is Ok && answers[k].third is Ok ==> exists|
                        me: &mut E,
                        language: &str,
                        responses: &[String; 3],
                    |
                        *me == estates[k] && *final(me) == estates[k + 1] && #[trigger] triplets_evaluated(
                            me,
                            language,
                            responses,
                            answers[k].verdict,
                        ) && language@ == prompts@[k].language@ && Ok::<String, NebulaError>(responses[0]) == answers[k].first
                            && Ok::<String, NebulaError>(responses[1]) == answers[k].second && Ok::<String, NebulaError>(
                            responses[2],
                        ) == answers[k].third) && (!(answers[k].first is Ok && answers[k].second is Ok && answers[k].third is Ok) ==> estates[k
                        + 1] == estates[k]),
        decreases prompts.len() - i,
    {
        let failed = &prompts[i];
        let ghost ipre = *inference;
        let ghost epre = *evaluator;
        let (replayed, Ghost(g)) = replay_prompt(inference, &event, failed.prompt.as_str());
        let after = match replayed {
            Ok(after) => after,
            Err(e) => {
                proof {
                    let w = g;
                    let all = answers.push(w);
                    assert(all[i as int] == w);
                    assert(forall|k: int| 0 <= k < i ==> all[k] == answers[k]);
                    assert(replay_calls::<I, E>(event, prompts@[i as int], w));
                    assert(replay_error(all.last()) == Some(e));
                    assert(forall|k: int|
                        0 <= k < all.len() ==> #[trigger] replay_calls::<I, E>(event, prompts@[k], all[k]));
                    assert forall|k: int| 0 <= k < all.len() - 1 implies #[trigger] replay_error(all[k]) is None by {
                        assert(replay_sample(prompts@[k], answers[k], samples@[k]));
                    }
                    assert(replays_made::<I, E>(event, prompts@, all));
                    let old_answers = answers;
                    let old_is = istates;
                    let old_es = estates;
                    answers = answers.push(w);
                    istates = istates.push(*inference);
                    estates = estates.push(*evaluator);
                    assert forall|k: int|
                        #![trigger call_index(k)]
                        call_index(k) && k < i + 1 implies (exists|m1: &mut I, a1: &str, o1: &str, p1: &str|
                            *m1 == istates[k] && #[trigger] adapter_generated(m1, a1, o1, p1, FOCUSED_TEMPERATURE_TENTHS, answers[k].first)
                                && a1@ == event.artifact_ref@ && o1@ == event.output_model@ && p1@ == prompts@[k].prompt@ && (answers[k].first is Err ==> *final(m1)
                                == istates[k + 1]) && (answers[k].first is Ok ==> exists|m2: &mut I, a2: &str, o2: &str, p2: &str|
                                *m2 == *final(m1) && #[trigger] adapter_generated(
                                    m2,
                                    a2,
                                    o2,
                                    p2,
                                    CREATIVE_TEMPERATURE_TENTHS,
                                    answers[k].second,
                                ) && a2@ == event.artifact_ref@ && o2@ == event.output_model@ && p2@ == prompts@[k].prompt@ && (answers[k].second is Err ==> *final(m2)
                                    == istates[k + 1]) && (answers[k].second is Ok ==> exists|m3: &mut I, a3: &str, o3: &str, p3: &str|
                                    *m3 == *final(m2) && *final(m3) == istates[k + 1] && #[trigger] adapter_generated(
                                        m3,
                                        a3,
                                        o3,
                                        p3,
                                        CREATIVE_TEMPERATURE_TENTHS,
                                        answers[k].third,
                                    ) && a3@ == event.artifact_ref@ && o3@ == event.output_model@ && p3@ == prompts@[k].prompt@)))
                            && (answers[k].first is Ok && answers[k].second is Ok && answers[k].third is Ok ==> exists|
                                me: &mut E,
                                language: &str,
                                responses: &[String; 3],
                            |
                                *me == estates[k] && *final(me) == estates[k + 1] && #[trigger] triplets_evaluated(
                                    me,
                                    language,
                                    responses,
                                    answers[k].verdict,
                                ) && language@ == prompts@[k].language@ && Ok::<String, NebulaError>(responses[0]) == answers[k].first
                                    && Ok::<String, NebulaError>(responses[1]) == answers[k].second && Ok::<String, NebulaError>(
                                    responses[2],
                                ) == answers[k].third) && (!(answers[k].first is Ok && answers[k].second is Ok && answers[k].third is Ok) ==> estates[k
                                + 1] == estates[k]) by {
                        if k < i {
                            assert(istates[k] == old_is[k] && istates[k + 1] == old_is[k + 1] && estates[k]
                                == old_es[k] && estates[k + 1] == old_es[k + 1] && answers[k] == old_answers[k]);
                        } else {
                            assert(istates[k] == ipre && istates[k + 1] == *inference && estates[k] == epre
                                && estates[k + 1] == *evaluator && answers[k] == w);
                        }
                    }
                    assert(istates.len() == answers.len() + 1 && istates[0] == *old(inference));
                    assert(estates.len() == answers.len() + 1 && estates[0] == *old(evaluator));
                    assert(answers == all);
                }
                return Err(e);
            },
        };
        let evaluated = evaluate_call(evaluator, failed.language.as_str(), &after);
        let ghost w = ReplayAnswers {
            first: g.first,
            second: g.second,
            third: g.third,
            verdict: evaluated,
        };
        proof {
            assert(replay_calls::<I, E>(event, prompts@[i as int], w));
        }
        let evaluation = match evaluated {
            Ok(v) => v,
            Err(e) => {
                proof {
                    let all = answers.push(w);
                    assert(all[i as int] == w);
                    assert(forall|k: int| 0 <= k < i ==> all[k] == answers[k]);
                    assert(replay_error(all.last()) == Some(e));
                    assert(forall|k: int|
                        0 <= k < all.len() ==> #[trigger] replay_calls::<I, E>(event, prompts@[k], all[k]));
                    assert forall|k: int| 0 <= k < all.len() - 1 implies #[trigger] replay_error(all[k]) is None by {
                        assert(replay_sample(prompts@[k], answers[k], samples@[k]));
                    }
                    assert(replays_made::<I, E>(event, prompts@, all));
                    let old_answers = answers;
                    let old_is = istates;
                    let old_es = estates;
                    answers = answers.push(w);
                    istates = istates.push(*inference);
                    estates = estates.push(*evaluator);
                    assert forall|k: int|
                        #![trigger call_index(k)]
                        call_index(k) && k < i + 1 implies (exists|m1: &mut I, a1: &str, o1: &str, p1: &str|
                            *m1 == istates[k] && #[trigger] adapter_generated(m1, a1, o1, p1, FOCUSED_TEMPERATURE_TENTHS, answers[k].first)
                                && a1@ == event.artifact_ref@ && o1@ == event.output_model@ && p1@ == prompts@[k].prompt@ && (answers[k].first is Err ==> *final(m1)
                                == istates[k + 1]) && (answers[k].first is Ok ==> exists|m2: &mut I, a2: &str, o2: &str, p2: &str|
                                *m2 == *final(m1) && #[trigger] adapter_generated(
                                    m2,
                                    a2,
                                    o2,
                                    p2,
                                    CREATIVE_TEMPERATURE_TENTHS,
                                    answers[k].second,
                                ) && a2@ == event.artifact_ref@ && o2@ == event.output_model@ && p2@ == prompts@[k].prompt@ && (answers[k].second is Err ==> *final(m2)
                                    == istates[k + 1]) && (answers[k].second is Ok ==> exists|m3: &mut I, a3: &str, o3: &str, p3: &str|
                                    *m3 == *final(m2) && *final(m3) == istates[k + 1] && #[trigger] adapter_generated(
                                        m3,
                                        a3,
                                        o3,
                                        p3,
                                        CREATIVE_TEMPERATURE_TENTHS,
                                        answers[k].third,
                                    ) && a3@ == event.artifact_ref@ && o3@ == event.output_model@ && p3@ == prompts@[k].prompt@)))
                            && (answers[k].first is Ok && answers[k].second is Ok && answers[k].third is Ok ==> exists|
                                me: &mut E,
                                language: &str,
                                responses: &[String; 3],
                            |
                                *me == estates[k] && *final(me) == estates[k + 1] && #[trigger] triplets_evaluated(
                                    me,
                                    language,
                                    responses,
                                    answers[k].verdict,
                                ) && language@ == prompts@[k].language@ && Ok::<String, NebulaError>(responses[0]) == answers[k].first
                                    && Ok::<String, NebulaError>(responses[1]) == answers[k].second && Ok::<String, NebulaError>(
                                    responses[2],
                                ) == answers[k].third) && (!(answers[k].first is Ok && answers[k].second is Ok && answers[k].third is Ok) ==> estates[k
                                + 1] == estates[k]) by {
                        if k < i {
                            assert(istates[k] == old_is[k] && istates[k + 1] == old_is[k + 1] && estates[k]
                                == old_es[k] && estates[k + 1] == old_es[k + 1] && answers[k] == old_answers[k]);
                        } else {
                            assert(istates[k] == ipre && istates[k + 1] == *inference && estates[k] == epre
                                && estates[k + 1] == *evaluator && answers[k] == w);
                        }
                    }
                    assert(istates.len() == answers.len() + 1 && istates[0] == *old(inference));
                    assert(estates.len() == answers.len() + 1 && estates[0] == *old(evaluator));
                    assert(answers == all);
                }
                return Err(e);
            },
        };
        let sample = ReplaySample {
            prompt: failed.prompt.clone(),
            language: failed.language.clone(),
            before: failed.before.clone(),
            after,
            diverged: evaluation.diverged,
            fallback_reason: evaluation.fallback_reason,
        };
        proof {
            assert(samples@.push(sample).drop_last() =~= samples@);
            assert(sample.before@ =~= failed.before@);
            assert(sample.before == failed.before);
            assert(replay_sample(prompts@[i as int], w, sample));
            let old_answers = answers;
            let old_is = istates;
            let old_es = estates;
            answers = answers.push(w);
            istates = istates.push(*inference);
            estates = estates.push(*evaluator);
            assert forall|k: int|
                #![trigger call_index(k)]
                call_index(k) && k < i + 1 implies (exists|m1: &mut I, a1: &str, o1: &str, p1: &str|
                    *m1 == istates[k] && #[trigger] adapter_generated(m1, a1, o1, p1, FOCUSED_TEMPERATURE_TENTHS, answers[k].first)
                        && a1@ == event.artifact_ref@ && o1@ == event.output_model@ && p1@ == prompts@[k].prompt@ && (answers[k].first is Err ==> *final(m1)
                        == istates[k + 1]) && (answers[k].first is Ok ==> exists|m2: &mut I, a2: &str, o2: &str, p2: &str|
                        *m2 == *final(m1) && #[trigger] adapter_generated(
                            m2,
                            a2,
                            o2,
                            p2,
                            CREATIVE_TEMPERATURE_TENTHS,
                            answers[k].second,
                        ) && a2@ == event.artifact_ref@ && o2@ == event.output_model@ && p2@ == prompts@[k].prompt@ && (answers[k].second is Err ==> *final(m2)
                            == istates[k + 1]) && (answers[k].second is Ok ==> exists|m3: &mut I, a3: &str, o3: &str, p3: &str|
                            *m3 == *final(m2) && *final(m3) == istates[k + 1] && #[trigger] adapter_generated(
                                m3,
                                a3,
                                o3,
                                p3,
                                CREATIVE_TEMPERATURE_TENTHS,
                                answers[k].third,
                            ) && a3@ == event.artifact_ref@ && o3@ == event.output_model@ && p3@ == prompts@[k].prompt@)))
                    && (answers[k].first is Ok && answers[k].second is Ok && answers[k].third is Ok ==> exists|
                        me: &mut E,
                        language: &str,
                        responses: &[String; 3],
                    |
                        *me == estates[k] && *final(me) == estates[k + 1] && #[trigger] triplets_evaluated(
                            me,
                            language,
                            responses,
                            answers[k].verdict,
                        ) && language@ == prompts@[k].language@ && Ok::<String, NebulaError>(responses[0]) == answers[k].first
                            && Ok::<String, NebulaError>(responses[1]) == answers[k].second && Ok::<String, NebulaError>(
                            responses[2],
                        ) == answers[k].third) && (!(answers[k].first is Ok && answers[k].second is Ok && answers[k].third is Ok) ==> estates[k
                        + 1] == estates[k]) by {
                if k < i {
                    assert(istates[k] == old_is[k] && istates[k + 1] == old_is[k + 1] && estates[k]
                        == old_es[k] && estates[k + 1] == old_es[k + 1] && answers[k] == old_answers[k]);
                } else {
                    assert(istates[k] == ipre && istates[k + 1] == *inference && estates[k] == epre
                        && estates[k + 1] == *evaluator && answers[k] == w);
                }
            }
            assert(istates.len() == answers.len() + 1 && istates[0] == *old(inference));
            assert(estates.len() == answers.len() + 1 && estates[0] == *old(evaluator));
        }
        if !sample.diverged {
            passed = passed + 1;
        }
        samples.push(sample);
        i = i + 1;
    }
    let report = ValidationReport {
        artifact_ref: event.artifact_ref,
        output_model: event.output_model,
        passed,
        samples,
    };
    let topic = validation_topic(&report);
    let published = bus.publish(topic, &report);
    proof {
        assert(answers.len() >= 1);
        assert(answers.last() == answers[answers.len() - 1]);
        assert(replay_sample(prompts@[answers.len() - 1], answers[answers.len() - 1], report.samples@[answers.len() - 1]));
        assert forall|k: int| 0 <= k < answers.len() - 1 implies #[trigger] replay_error(answers[k]) is None by {
            assert(replay_sample(prompts@[k], answers[k], report.samples@[k]));
        }
        assert(replays_made::<I, E>(event, prompts@, answers));
        assert(istates.len() == answers.len() + 1 && istates[0] == *old(inference));
        assert(estates.len() == answers.len() + 1 && estates[0] == *old(evaluator));
    }
    match published {
        Ok(_) => Ok(report),
        Err(e) => Err(e),
    }
}

// ---------------------------------------------------------------------------
// gRPC framing
// ---------------------------------------------------------------------------

/// The big-endian bytes of a 32-bit length.
pub open spec fn be32(n: u32) -> Seq<u8> {
    seq![
        (n / 16777216) as u8,
        ((n / 65536) % 256) as u8,
        ((n / 256) % 256) as u8,
        (n % 256) as u8,
    ]
}

/// The number that four big-endian bytes spell.
pub open spec fn be32_value(b: Seq<u8>) -> nat {
    (b[0] * 16777216 + b[1] * 65536 + b[2] * 256 + b[3]) as nat
}

/// A gRPC message frame: an uncompressed flag, the payload length in four
/// big-endian bytes (the length taken modulo 2^32), then the payload.
pub open spec fn grpc_frame(payload: Seq<u8>) -> Seq<u8> {
    seq![0u8] + be32(payload.len() as u32) + payload
}

/// The length that a frame of at least five bytes declares.
pub open spec fn declared_len(frame: Seq<u8>) -> nat {
    be32_value(frame.subrange(1, 5))
}

/// Frames an encoded protobuf message for gRPC.
pub fn encode_grpc_frame(payload: &[u8]) -> (frame: Vec<u8>)
    ensures
        frame@ == grpc_frame(payload@),
{
    let n: u32 = payload.len() as u32;
    let mut frame: Vec<u8> = Vec::new();
    frame.push(0u8);
    frame.push((n / 16777216) as u8);
    frame.push(((n / 65536) % 256) as u8);
    frame.push(((n / 256) % 256) as u8);
    frame.push((n % 256) as u8);
    let mut i: usize = 0;
    while i < payload.len()
        invariant
            i <= payload@.len(),
            n == payload@.len() as u32,
            frame@ == seq![0u8] + be32(n) + payload@.take(i as int),
        decreases payload.len() - i,
    {
        frame.push(payload[i]);
        proof {
            assert(payload@.take(i + 1) =~= payload@.take(i as int).push(payload@[i as int]));
        }
        i = i + 1;
    }
    proof {
        assert(payload@.take(payload@.len() as int) =~= payload@);
    }
    frame
}

/// Takes the payload out of a gRPC frame. A frame shorter than its header is
/// refused with `InvalidGrpcFrame`; one shorter than the length it declares,
/// with `TruncatedGrpcFrame`. Bytes after the payload are ignored.
pub fn decode_grpc_response(frame: &[u8]) -> (r: Result<Vec<u8>, NebulaError>)
    ensures
        frame@.len() < 5 ==> r == Err::<Vec<u8>, NebulaError>(NebulaError::InvalidGrpcFrame),
        frame@.len() >= 5 && 5 + declared_len(frame@) > frame@.len() ==> r == Err::<
            Vec<u8>,
            NebulaError,
        >(NebulaError::TruncatedGrpcFrame),
        frame@.len() >= 5 && 5 + declared_len(frame@) <= frame@.len() ==> (r matches Ok(p)
            && p@ == frame@.subrange(5, 5 + declared_len(frame@) as int)),
{
    if frame.len() < 5 {
        return Err(NebulaError::InvalidGrpcFrame);
    }
    let len: u64 = (frame[1] as u64) * 16777216 + (frame[2] as u64) * 65536 + (frame[3] as u64)
        * 256 + (frame[4] as u64);
    proof {
        let h = frame@.subrange(1, 5);
        assert(h[0] == frame@[1] && h[1] == frame@[2] && h[2] == frame@[3] && h[3] == frame@[4]);
    }
    let available: u64 = (frame.len() - 5) as u64;
    if len > available {
        return Err(NebulaError::TruncatedGrpcFrame);
    }
    let end: usize = 5 + len as usize;
    let mut payload: Vec<u8> = Vec::new();
    let mut i: usize = 5;
    while i < end
        invariant
            5 <= i <= end <= frame@.len(),
            payload@ == frame@.subrange(5, i as int),
        decreases end - i,
    {
        payload.push(frame[i]);
        proof {
            assert(frame@.subrange(5, i + 1) =~= frame@.subrange(5, i as int).push(frame@[i as int]));
        }
        i = i + 1;
    }
    Ok(payload)
}

/// Posts an encoded evaluation request to the AST evaluator's micro-VM at
/// `AST_MICROVM_URL`, framed for gRPC, and unframes the reply. The protobuf
/// encoding of the request and decoding of the reply belong to the caller.
/// A failing client or a malformed reply frame ends the call with its error.
pub fn evaluate_triplets_via_grpc<C: WasiHttpClient>(client: &mut C, request_payload: &[u8]) -> (r:
    Result<Vec<u8>, NebulaError>)
    ensures
        r matches Ok(p) ==> exists|reply: Seq<u8>|
            reply.len() >= 5 && 5 + declared_len(reply) <= reply.len() && p@ == reply.subrange(
                5,
                5 + declared_len(reply) as int,
            ),
        exists|m: &mut C, url: &str, body: &[u8], reply: Result<Vec<u8>, NebulaError>|
            #[trigger] grpc_posted(m, url, body, reply) && *m == *old(client) && *final(m)
                == *final(client) && url@ == AST_MICROVM_URL@ && body@ == grpc_frame(
                request_payload@,
            ) && match reply {
                Err(e) => r == Err::<Vec<u8>, NebulaError>(e),
                Ok(frame) => is_unframing(frame@, r),
            },
{
    let frame = encode_grpc_frame(request_payload);
    let reply = client.post_grpc(AST_MICROVM_URL, frame.as_slice())?;
    let decoded = decode_grpc_response(reply.as_slice());
    assert(is_unframing(reply@, decoded));
    let payload = decoded?;
    assert(reply@.len() >= 5 && 5 + declared_len(reply@) <= reply@.len());
    Ok(payload)
}

/// The four bytes of a 32-bit length spell it back.
proof fn lemma_be32_roundtrip(n: u32)
    ensures
        be32_value(be32(n)) == n,
{
    let b = be32(n);
    assert(((n / 16777216) as u8) as int * 16777216 + (((n / 65536) % 256) as u8) as int * 65536
        + (((n / 256) % 256) as u8) as int * 256 + ((n % 256) as u8) as int == n as int)
        by (bit_vector);
}

/// Unframing a framed payload gives the payload back, for every payload whose
/// length fits the frame's 32-bit length field.
pub proof fn law_grpc_frame_roundtrip(payload: Seq<u8>)
    requires
        payload.len() <= u32::MAX,
    ensures
        grpc_frame(payload).len() >= 5,
        declared_len(grpc_frame(payload)) == payload.len(),
        grpc_frame(payload).subrange(5, 5 + payload.len() as int) == payload,
{
    let f = grpc_frame(payload);
    let n = payload.len() as u32;
    lemma_be32_roundtrip(n);
    assert(f.subrange(1, 5) =~= be32(n));
    assert(f.subrange(5, 5 + payload.len() as int) =~= payload);
}

} // verus!
