//! The curriculum generator: asks a teacher model for practice tasks on a
//! subject, or on a topic where drift was detected, and injects each task as
//! an agent inference event carrying correlation headers.

use vstd::prelude::*;
use crate::error::NebulaError;
use crate::ports::call_index;
use crate::text::{append_str, join, join_strings, owned, views};

verus! {

pub const AGENT_INFERENCE_TOPIC: &'static str = "tachyon.agents.inference.pending";
pub const CORRELATION_HEADER: &'static str = "x-nebula-curriculum-id";
pub const DRIFT_CORRELATION_HEADER: &'static str = "x-nebula-drift-topic";
pub const DRIFT_TOPIC: &'static str = "nebula.drift.detected";

/// The JSON schema a teacher's answer must follow: an array of tasks, each
/// with a title, a description and a list of constraints.
pub const CURRICULUM_SCHEMA: &'static str = "{\"items\":{\"properties\":{\"constraints\":{\"items\":{\"type\":\"string\"},\"type\":\"array\"},\"description\":{\"type\":\"string\"},\"title\":{\"type\":\"string\"}},\"required\":[\"title\",\"description\",\"constraints\"],\"type\":\"object\"},\"type\":\"array\"}";

/// A request for `count` tasks on `subject`.
#[derive(Debug, Clone, PartialEq, Eq)]
pub struct CurriculumRequest {
    pub curriculum_id: String,
    pub subject: String,
    pub count: usize,
}

/// A task the teacher proposes.
#[derive(Debug, Clone, PartialEq, Eq)]
pub struct CurriculumTask {
    pub title: String,
    pub description: String,
    pub constraints: Vec<String>,
}

/// A pending agent inference. `headers` holds the header names and values,
/// in name order.
#[derive(Debug, Clone, PartialEq, Eq)]
pub struct AgentInferenceEvent {
    pub topic: String,
    pub prompt: String,
    pub headers: Vec<(String, String)>,
}

/// The teacher model. `schema` is JSON text.
pub trait TeacherModel {
    fn generate_curriculum(&self, subject: &str, count: usize, schema: &str) -> Result<
        Vec<CurriculumTask>,
        NebulaError,
    >;
}

/// Where agent inferences go.
pub trait EventBus {
    fn publish(&mut self, topic: &str, event: &AgentInferenceEvent) -> Result<(), NebulaError>;
}

/// `generate_curriculum`, called on `teacher` with `subject`, `count` and
/// `schema`, may answer `answer`.
#[verifier::inline]
pub open spec fn curriculum_asked<T: TeacherModel>(
    teacher: &T,
    subject: &str,
    count: usize,
    schema: &str,
    answer: Result<Vec<CurriculumTask>, NebulaError>,
) -> bool {
    call_ensures(T::generate_curriculum, (teacher, subject, count, schema), answer)
}

/// `publish`, called through `bus` with `topic` and `event`, may answer
/// `answer`.
#[verifier::inline]
pub open spec fn inference_published<B: EventBus>(
    bus: &mut B,
    topic: &str,
    event: &AgentInferenceEvent,
    answer: Result<(), NebulaError>,
) -> bool {
    call_ensures(B::publish, (bus, topic, event), answer)
}

/// Whether the `k`-th publish, answered `answers[k]`, sent `events[k]` on
/// `AGENT_INFERENCE_TOPIC`.
pub open spec fn event_published_at<B: EventBus>(
    events: Seq<AgentInferenceEvent>,
    answers: Seq<Result<(), NebulaError>>,
    k: int,
) -> bool {
    exists|mb: &mut B, topic: &str, ev: &AgentInferenceEvent|
        #[trigger] inference_published(mb, topic, ev, answers[k]) && topic@
            == AGENT_INFERENCE_TOPIC@ && *ev == events[k]
}

/// Whether publishing `events` in order made the calls that `answers`
/// answer: one publish per event, every one but the last succeeding.
pub open spec fn events_published<B: EventBus>(
    events: Seq<AgentInferenceEvent>,
    answers: Seq<Result<(), NebulaError>>,
) -> bool {
    &&& answers.len() <= events.len()
    &&& forall|k: int| 0 <= k < answers.len() ==> #[trigger] event_published_at::<B>(events, answers, k)
    &&& forall|k: int| 0 <= k < answers.len() - 1 ==> #[trigger] answers[k] is Ok
}

/// The outcome of publishing `events` with the bus's `answers`: the failing
/// publish's error, or success once every event went out.
pub open spec fn publish_outcome(
    events: Seq<AgentInferenceEvent>,
    answers: Seq<Result<(), NebulaError>>,
    r: Result<(), NebulaError>,
) -> bool {
    if answers.len() > 0 && answers.last() is Err {
        r == answers.last()
    } else {
        answers.len() == events.len() && r is Ok
    }
}

/// The schema handed to the teacher, as JSON text.
pub fn curriculum_schema() -> (s: String)
    ensures
        s@ == CURRICULUM_SCHEMA@,
{
    owned(CURRICULUM_SCHEMA)
}

/// The body of a task's prompt: title, description and the constraints one
/// per line.
pub open spec fn task_body(task: CurriculumTask) -> Seq<char> {
    task.title@ + "\n\n"@ + task.description@ + "\n\nConstraints:\n"@ + join(
        views(task.constraints@),
        "\n"@,
    )
}

/// The prompt of a drift task: the failing topic, then the task body.
pub open spec fn drift_prompt(drift_topic: Seq<char>, task: CurriculumTask) -> Seq<char> {
    "The swarm is failing on tasks related to '"@ + drift_topic + "'.\n"@ + task_body(task)
}

/// Whether `e` injects a task of a curriculum: pending-inference topic, the
/// task's body as prompt, the curriculum id as its only header.
pub open spec fn is_curriculum_event(curriculum_id: Seq<char>, e: AgentInferenceEvent) -> bool {
    &&& e.topic@ == AGENT_INFERENCE_TOPIC@
    &&& exists|t: CurriculumTask| e.prompt@ == task_body(t)
    &&& e.headers@.len() == 1
    &&& e.headers@[0].0@ == CORRELATION_HEADER@
    &&& e.headers@[0].1@ == curriculum_id
}

/// Whether `e` injects a task on the drifting `topic`: the prompt names the
/// topic before the task's body; the headers correlate the curriculum as
/// `drift:<topic>` and the drift topic itself.
pub open spec fn is_drift_event(drift_topic: Seq<char>, e: AgentInferenceEvent) -> bool {
    &&& e.topic@ == AGENT_INFERENCE_TOPIC@
    &&& exists|t: CurriculumTask| e.prompt@ == drift_prompt(drift_topic, t)
    &&& e.headers@.len() == 2
    &&& e.headers@[0].0@ == CORRELATION_HEADER@
    &&& e.headers@[0].1@ == "drift:"@ + drift_topic
    &&& e.headers@[1].0@ == DRIFT_CORRELATION_HEADER@
    &&& e.headers@[1].1@ == drift_topic
}

/// Whether `e` is the event that injects `task` into the curriculum
/// `curriculum_id`.
pub open spec fn curriculum_event_of(curriculum_id: Seq<char>, task: CurriculumTask, e: AgentInferenceEvent) -> bool {
    &&& e.topic@ == AGENT_INFERENCE_TOPIC@
    &&& e.prompt@ == task_body(task)
    &&& e.headers@.len() == 1
    &&& e.headers@[0].0@ == CORRELATION_HEADER@
    &&& e.headers@[0].1@ == curriculum_id
}

/// Whether `e` is the event that injects `task` on the drifting topic.
pub open spec fn drift_event_of(drift_topic: Seq<char>, task: CurriculumTask, e: AgentInferenceEvent) -> bool {
    &&& e.topic@ == AGENT_INFERENCE_TOPIC@
    &&& e.prompt@ == drift_prompt(drift_topic, task)
    &&& e.headers@.len() == 2
    &&& e.headers@[0].0@ == CORRELATION_HEADER@
    &&& e.headers@[0].1@ == "drift:"@ + drift_topic
    &&& e.headers@[1].0@ == DRIFT_CORRELATION_HEADER@
    &&& e.headers@[1].1@ == drift_topic
}

/// The body of a task's prompt.
fn task_prompt(task: &CurriculumTask) -> (p: String)
    ensures
        p@ == task_body(*task),
{
    let mut p = task.title.clone();
    append_str(&mut p, "\n\n");
    append_str(&mut p, task.description.as_str());
    append_str(&mut p, "\n\nConstraints:\n");
    let constraints = join_strings(&task.constraints, "\n");
    append_str(&mut p, constraints.as_str());
    p
}

/// The events that inject `tasks`, in order, into the curriculum
/// `curriculum_id`.
pub fn curriculum_events(curriculum_id: &str, tasks: &Vec<CurriculumTask>) -> (events: Vec<
    AgentInferenceEvent,
>)
    ensures
        events@.len() == tasks@.len(),
        forall|k: int|
            0 <= k < tasks@.len() ==> curriculum_event_of(
                curriculum_id@,
                tasks@[k],
                #[trigger] events@[k],
            ),
{
    let mut events: Vec<AgentInferenceEvent> = Vec::new();
    let mut i: usize = 0;
    while i < tasks.len()
        invariant
            i <= tasks@.len(),
            events@.len() == i,
            forall|k: int|
                0 <= k < i ==> curriculum_event_of(curriculum_id@, tasks@[k], #[trigger] events@[k]),
        decreases tasks.len() - i,
    {
        let prompt = task_prompt(&tasks[i]);
        let mut headers: Vec<(String, String)> = Vec::new();
        headers.push((owned(CORRELATION_HEADER), owned(curriculum_id)));
        let event = AgentInferenceEvent { topic: owned(AGENT_INFERENCE_TOPIC), prompt, headers };
        events.push(event);
        i = i + 1;
    }
    events
}

/// The events that inject `tasks`, in order, on the drifting topic.
pub fn drift_events(drift_topic: &str, tasks: &Vec<CurriculumTask>) -> (events: Vec<AgentInferenceEvent>)
    ensures
        events@.len() == tasks@.len(),
        forall|k: int|
            0 <= k < tasks@.len() ==> drift_event_of(drift_topic@, tasks@[k], #[trigger] events@[k]),
{
    let mut events: Vec<AgentInferenceEvent> = Vec::new();
    let mut i: usize = 0;
    while i < tasks.len()
        invariant
            i <= tasks@.len(),
            events@.len() == i,
            forall|k: int| 0 <= k < i ==> drift_event_of(drift_topic@, tasks@[k], #[trigger] events@[k]),
        decreases tasks.len() - i,
    {
        let body = task_prompt(&tasks[i]);
        let mut prompt = owned("The swarm is failing on tasks related to '");
        append_str(&mut prompt, drift_topic);
        append_str(&mut prompt, "'.\n");
        append_str(&mut prompt, body.as_str());
        let mut correlation = owned("drift:");
        append_str(&mut correlation, drift_topic);
        let mut headers: Vec<(String, String)> = Vec::new();
        headers.push((owned(CORRELATION_HEADER), correlation));
        headers.push((owned(DRIFT_CORRELATION_HEADER), owned(drift_topic)));
        let event = AgentInferenceEvent { topic: owned(AGENT_INFERENCE_TOPIC), prompt, headers };
        assert(event.prompt@ == drift_prompt(drift_topic@, tasks@[i as int]));
        events.push(event);
        i = i + 1;
    }
    events
}

/// Publishes one event on `AGENT_INFERENCE_TOPIC`.
fn publish_event<B: EventBus>(bus: &mut B, event: &AgentInferenceEvent) -> (x: Result<(), NebulaError>)
    ensures
        exists|mb: &mut B, topic: &str, sent: &AgentInferenceEvent|
            *mb == *old(bus) && *final(mb) == *final(bus) && #[trigger] inference_published(
                mb,
                topic,
                sent,
                x,
            ) && topic@ == AGENT_INFERENCE_TOPIC@ && *sent == *event,
{
    bus.publish(AGENT_INFERENCE_TOPIC, event)
}

/// Publishes the events on `AGENT_INFERENCE_TOPIC`, in order, until one
/// publish fails. The bus goes through one state per publish, from its state
/// before the first to its state after the last.
fn publish_events<B: EventBus>(bus: &mut B, events: &Vec<AgentInferenceEvent>) -> (r: Result<
    (),
    NebulaError,
>)
    ensures
        exists|answers: Seq<Result<(), NebulaError>>, states: Seq<B>|
            #![trigger events_published::<B>(events@, answers), states[0]]
            events_published::<B>(events@, answers) && publish_outcome(events@, answers, r)
                && states.len() == answers.len() + 1 && states[0] == *old(bus) && states.last()
                == *final(bus) && forall|k: int|
                #![trigger call_index(k)]
                call_index(k) && k < answers.len() ==> exists|
                    mb: &mut B,
                    topic: &str,
                    sent: &AgentInferenceEvent,
                |
                    *mb == states[k] && *final(mb) == states[k + 1] && #[trigger] inference_published(
                        mb,
                        topic,
                        sent,
                        answers[k],
                    ) && topic@ == AGENT_INFERENCE_TOPIC@ && *sent == events@[k],
{
    let ghost mut answers: Seq<Result<(), NebulaError>> = Seq::empty();
    let ghost mut states: Seq<B> = seq![*bus];
    let mut i: usize = 0;
    while i < events.len()
        invariant
            i <= events@.len(),
            answers.len() == i,
            states.len() == i + 1,
            states[0] == *old(bus),
            states.last() == *bus,
            events_published::<B>(events@, answers),
            forall|k: int| 0 <= k < i ==> #[trigger] answers[k] is Ok,
            forall|k: int|
                #![trigger call_index(k)]
                call_index(k) && k < i ==> exists|
                    mb: &mut B,
                    topic: &str,
                    sent: &AgentInferenceEvent,
                |
                    *mb == states[k] && *final(mb) == states[k + 1] && #[trigger] inference_published(
                        mb,
                        topic,
                        sent,
                        answers[k],
                    ) && topic@ == AGENT_INFERENCE_TOPIC@ && *sent == events@[k],
        decreases events.len() - i,
    {
        let ghost pre = *bus;
        let x = publish_event(bus, &events[i]);
        proof {
            let old_answers = answers;
            let old_states = states;
            answers = answers.push(x);
            states = states.push(*bus);
            assert forall|k: int| 0 <= k < answers.len() implies #[trigger] event_published_at::<B>(events@, answers, k) by {
                if k < i {
                    assert(event_published_at::<B>(events@, old_answers, k));
                    assert(answers[k] == old_answers[k]);
                } else {
                    assert(answers[k] == x);
                }
            }
            assert forall|k: int| 0 <= k < answers.len() - 1 implies #[trigger] answers[k] is Ok by {
                assert(answers[k] == old_answers[k]);
            }
            assert forall|k: int|
                #![trigger call_index(k)]
                call_index(k) && k < i + 1 implies exists|
                    mb: &mut B,
                    topic: &str,
                    sent: &AgentInferenceEvent,
                |
                    *mb == states[k] && *final(mb) == states[k + 1] && #[trigger] inference_published(
                        mb,
                        topic,
                        sent,
                        answers[k],
                    ) && topic@ == AGENT_INFERENCE_TOPIC@ && *sent == events@[k] by {
                if k < i {
                    assert(states[k] == old_states[k] && states[k + 1] == old_states[k + 1]
                        && answers[k] == old_answers[k]);
                } else {
                    assert(states[k] == pre && states[k + 1] == *bus && answers[k] == x);
                }
            }
        }
        if let Err(e) = x {
            assert(answers.last() == x);
            assert(events_published::<B>(events@, answers));
            assert(states.len() == answers.len() + 1 && states[0] == *old(bus) && states.last() == *bus);
            return Err(e);
        }
        i = i + 1;
    }
    assert(states.len() == answers.len() + 1 && states[0] == *old(bus) && states.last() == *bus);
    Ok(())
}

/// Asks the teacher for `request.count` tasks on the subject, then publishes
/// one inference event per task, in the teacher's order, each correlated with
/// the curriculum id. A count of zero is refused with `ZeroCount`; a failing
/// port ends the run with its error.
pub fn generate_and_inject<T: TeacherModel, B: EventBus>(
    teacher: &T,
    bus: &mut B,
    request: CurriculumRequest,
) -> (r: Result<Vec<AgentInferenceEvent>, NebulaError>)
    ensures
        request.count == 0 ==> r == Err::<Vec<AgentInferenceEvent>, NebulaError>(
            NebulaError::ZeroCount,
        ) && *final(bus) == *old(bus),
        r matches Ok(events) ==> request.count > 0 && forall|i: int|
            0 <= i < events@.len() ==> is_curriculum_event(
                request.curriculum_id@,
                #[trigger] events@[i],
            ),
        request.count > 0 ==> exists|
            subject: &str,
            count: usize,
            schema: &str,
            answer: Result<Vec<CurriculumTask>, NebulaError>,
        |
            #[trigger] curriculum_asked(teacher, subject, count, schema, answer) && subject@
                == request.subject@ && count == request.count && schema@ == CURRICULUM_SCHEMA@
                && match answer {
                Err(e) => r == Err::<Vec<AgentInferenceEvent>, NebulaError>(e) && *final(bus)
                    == *old(bus),
                Ok(tasks) => exists|
                    events: Seq<AgentInferenceEvent>,
                    answers: Seq<Result<(), NebulaError>>,
                    states: Seq<B>,
                |
                    #![trigger events_published::<B>(events, answers), states[0]]
                    events_published::<B>(events, answers) && states.len() == answers.len()
                        + 1 && states[0] == *old(bus) && states.last() == *final(bus) && (forall|
                        k: int,
                    |
                        #![trigger call_index(k)]
                        call_index(k) && k < answers.len() ==> exists|
                            mb: &mut B,
                            topic: &str,
                            sent: &AgentInferenceEvent,
                        |
                            *mb == states[k] && *final(mb) == states[k + 1]
                                && #[trigger] inference_published(mb, topic, sent, answers[k])
                                && topic@ == AGENT_INFERENCE_TOPIC@ && *sent == events[k])
                        && events.len() == tasks@.len() && (forall|k: int|
                        0 <= k < events.len() ==> curriculum_event_of(
                            request.curriculum_id@,
                            tasks@[k],
                            #[trigger] events[k],
                        )) && if answers.len() > 0 && answers.last() is Err {
                        r == Err::<Vec<AgentInferenceEvent>, NebulaError>(answers.last()->Err_0)
                    } else {
                        answers.len() == events.len() && (r matches Ok(v) && v@ == events)
                    },
            },
{
    if request.count == 0 {
        return Err(NebulaError::ZeroCount);
    }
    let schema = curriculum_schema();
    let tasks = teacher.generate_curriculum(request.subject.as_str(), request.count, schema.as_str())?;
    let events = curriculum_events(request.curriculum_id.as_str(), &tasks);
    proof {
        assert forall|i: int| 0 <= i < events@.len() implies #[trigger] is_curriculum_event(
            request.curriculum_id@,
            events@[i],
        ) by {
            assert(curriculum_event_of(request.curriculum_id@, tasks@[i], events@[i]));
        }
    }
    match publish_events(bus, &events) {
        Ok(_) => Ok(events),
        Err(e) => Err(e),
    }
}

/// Asks the teacher for `count` tasks on `subject` (the drifting topic with
/// its confidence and threshold, written by the caller) and publishes one
/// inference event per task, each naming the drifting topic in its prompt and
/// headers. A count of zero is refused with `ZeroCount`; a failing port ends
/// the run with its error.
pub fn generate_drift_curriculum<T: TeacherModel, B: EventBus>(
    teacher: &T,
    bus: &mut B,
    drift_topic: &str,
    subject: &str,
    count: usize,
) -> (r: Result<Vec<AgentInferenceEvent>, NebulaError>)
    ensures
        count == 0 ==> r == Err::<Vec<AgentInferenceEvent>, NebulaError>(NebulaError::ZeroCount)
            && *final(bus) == *old(bus),
        r matches Ok(events) ==> count > 0 && forall|i: int|
            0 <= i < events@.len() ==> is_drift_event(drift_topic@, #[trigger] events@[i]),
        count > 0 ==> exists|
            asked_subject: &str,
            asked_count: usize,
            schema: &str,
            answer: Result<Vec<CurriculumTask>, NebulaError>,
        |
            #[trigger] curriculum_asked(teacher, asked_subject, asked_count, schema, answer)
                && asked_subject@ == subject@ && asked_count == count && schema@
                == CURRICULUM_SCHEMA@ && match answer {
                Err(e) => r == Err::<Vec<AgentInferenceEvent>, NebulaError>(e) && *final(bus)
                    == *old(bus),
                Ok(tasks) => exists|
                    events: Seq<AgentInferenceEvent>,
                    answers: Seq<Result<(), NebulaError>>,
                    states: Seq<B>,
                |
                    #![trigger events_published::<B>(events, answers), states[0]]
                    events_published::<B>(events, answers) && states.len() == answers.len()
                        + 1 && states[0] == *old(bus) && states.last() == *final(bus) && (forall|
                        k: int,
                    |
                        #![trigger call_index(k)]
                        call_index(k) && k < answers.len() ==> exists|
                            mb: &mut B,
                            topic: &str,
                            sent: &AgentInferenceEvent,
                        |
                            *mb == states[k] && *final(mb) == states[k + 1]
                                && #[trigger] inference_published(mb, topic, sent, answers[k])
                                && topic@ == AGENT_INFERENCE_TOPIC@ && *sent == events[k])
                        && events.len() == tasks@.len() && (forall|k: int|
                        0 <= k < events.len() ==> drift_event_of(
                            drift_topic@,
                            tasks@[k],
                            #[trigger] events[k],
                        )) && if answers.len() > 0 && answers.last() is Err {
                        r == Err::<Vec<AgentInferenceEvent>, NebulaError>(answers.last()->Err_0)
                    } else {
                        answers.len() == events.len() && (r matches Ok(v) && v@ == events)
                    },
            },
{
    if count == 0 {
        return Err(NebulaError::ZeroCount);
    }
    let schema = curriculum_schema();
    let tasks = teacher.generate_curriculum(subject, count, schema.as_str())?;
    let events = drift_events(drift_topic, &tasks);
    proof {
        assert forall|i: int| 0 <= i < events@.len() implies #[trigger] is_drift_event(
            drift_topic@,
            events@[i],
        ) by {
            assert(drift_event_of(drift_topic@, tasks@[i], events@[i]));
        }
    }
    match publish_events(bus, &events) {
        Ok(_) => Ok(events),
        Err(e) => Err(e),
    }
}

} // verus!
