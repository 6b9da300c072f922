//! The telemetry gateway: routes inference triplets to the AST evaluator when
//! the task is about code, and to the semantic evaluator otherwise.

use vstd::prelude::*;
use crate::error::NebulaError;
use crate::text::{contains_seq, contains_str, push_char, str_eq};

verus! {

pub const INPUT_TOPIC: &'static str = "pulsar.telemetry.inference_triplets";
pub const AST_TOPIC: &'static str = "nebula.eval.ast.pending";
pub const SEMANTIC_TOPIC: &'static str = "nebula.eval.semantic.pending";

/// A prompt with three sampled responses. `context` holds JSON text.
#[derive(Debug, Clone, PartialEq, Eq)]
pub struct InferenceTriplet {
    pub prompt: String,
    pub task_type: String,
    pub responses: [String; 3],
    pub context: String,
}

/// A triplet with the topic it is routed to.
#[derive(Debug, Clone, PartialEq, Eq)]
pub struct RoutedEvent {
    pub topic: String,
    pub payload: InferenceTriplet,
}

/// Where routed triplets go.
pub trait EventBus {
    fn publish(&mut self, topic: &str, payload: &InferenceTriplet) -> Result<(), NebulaError>;
}

/// A character with ASCII letters lowered (as `char::to_ascii_lowercase`).
pub open spec fn ascii_lower(c: char) -> char {
    if 'A' <= c <= 'Z' {
        ((c as u32) + 32) as char
    } else {
        c
    }
}

/// A string with ASCII letters lowered (as `str::to_ascii_lowercase`).
pub open spec fn ascii_lowercase(s: Seq<char>) -> Seq<char> {
    s.map_values(|c: char| ascii_lower(c))
}

/// `s` with its ASCII letters lowered.
pub fn to_ascii_lowercase(s: &str) -> (r: String)
    ensures
        r@ == ascii_lowercase(s@),
{
    let chars = crate::text::chars_of(s);
    let mut r = String::new();
    let mut i: usize = 0;
    while i < chars.len()
        invariant
            i <= chars@.len(),
            chars@ == s@,
            r@ == ascii_lowercase(chars@.take(i as int)),
        decreases chars.len() - i,
    {
        let c = chars[i];
        let lower = if 'A' <= c && c <= 'Z' { char_from_ascii_upper(c) } else { c };
        push_char(&mut r, lower);
        proof {
            assert(ascii_lowercase(chars@.take(i + 1)) =~= ascii_lowercase(chars@.take(i as int)).push(
                ascii_lower(c),
            ));
        }
        i = i + 1;
    }
    assert(chars@.take(chars@.len() as int) =~= chars@);
    r
}

/// The lowercase letter of an ASCII uppercase letter.
fn char_from_ascii_upper(c: char) -> (l: char)
    requires
        'A' <= c <= 'Z',
    ensures
        l == ascii_lower(c),
{
    if c == 'A' { 'a' } else if c == 'B' { 'b' } else if c == 'C' { 'c' } else if c == 'D' { 'd' }
    else if c == 'E' { 'e' } else if c == 'F' { 'f' } else if c == 'G' { 'g' } else if c == 'H' { 'h' }
    else if c == 'I' { 'i' } else if c == 'J' { 'j' } else if c == 'K' { 'k' } else if c == 'L' { 'l' }
    else if c == 'M' { 'm' } else if c == 'N' { 'n' } else if c == 'O' { 'o' } else if c == 'P' { 'p' }
    else if c == 'Q' { 'q' } else if c == 'R' { 'r' } else if c == 'S' { 's' } else if c == 'T' { 't' }
    else if c == 'U' { 'u' } else if c == 'V' { 'v' } else if c == 'W' { 'w' } else if c == 'X' { 'x' }
    else if c == 'Y' { 'y' } else { 'z' }
}

/// Whether a (lowercased) task type is about code: one of the code task
/// names, or containing a code tag.
pub open spec fn is_code_task_spec(t: Seq<char>) -> bool {
    ||| t == "code_generation"@ || t == "rust"@ || t == "cobol"@ || t == "wasm"@
    ||| contains_seq(t, "code"@) || contains_seq(t, "rust"@) || contains_seq(t, "cobol"@)
        || contains_seq(t, "wasm"@) || contains_seq(t, "typescript"@) || contains_seq(t, "python"@)
}

/// Whether a (lowercased) task type is about code.
pub fn is_code_task(task_type: &str) -> (b: bool)
    ensures
        b == is_code_task_spec(task_type@),
{
    str_eq(task_type, "code_generation") || str_eq(task_type, "rust") || str_eq(task_type, "cobol")
        || str_eq(task_type, "wasm") || contains_str(task_type, "code") || contains_str(
        task_type,
        "rust",
    ) || contains_str(task_type, "cobol") || contains_str(task_type, "wasm") || contains_str(
        task_type,
        "typescript",
    ) || contains_str(task_type, "python")
}

/// The topic a triplet goes to: the AST evaluator's when its task type,
/// lowered, is about code; the semantic evaluator's otherwise.
pub open spec fn route_topic(task_type: Seq<char>) -> Seq<char> {
    if is_code_task_spec(ascii_lowercase(task_type)) {
        AST_TOPIC@
    } else {
        SEMANTIC_TOPIC@
    }
}

/// Routes a triplet by its task type; the payload goes unchanged.
pub fn route_triplet(payload: InferenceTriplet) -> (e: RoutedEvent)
    ensures
        e.topic@ == route_topic(payload.task_type@),
        e.payload == payload,
{
    let normalized = to_ascii_lowercase(payload.task_type.as_str());
    let topic = if is_code_task(normalized.as_str()) { AST_TOPIC } else { SEMANTIC_TOPIC };
    RoutedEvent { topic: crate::text::owned(topic), payload }
}

/// `publish`, called through `bus` with `topic` and `payload`, may answer
/// `answer`.
#[verifier::inline]
pub open spec fn triplet_published<B: EventBus>(
    bus: &mut B,
    topic: &str,
    payload: &InferenceTriplet,
    answer: Result<(), NebulaError>,
) -> bool {
    call_ensures(B::publish, (bus, topic, payload), answer)
}

/// Routes a triplet that arrived on `topic` and publishes it on its route. A
/// topic other than `INPUT_TOPIC` is refused; a failing bus ends the call
/// with its error.
pub fn handle_event<B: EventBus>(bus: &mut B, topic: &str, triplet: InferenceTriplet) -> (r: Result<
    RoutedEvent,
    NebulaError,
>)
    ensures
        topic@ != INPUT_TOPIC@ ==> (r matches Err(NebulaError::UnsupportedTopic(t)) && t@ == topic@),
        r matches Ok(e) ==> topic@ == INPUT_TOPIC@ && e.topic@ == route_topic(triplet.task_type@)
            && e.payload == triplet,
        topic@ != INPUT_TOPIC@ ==> *final(bus) == *old(bus),
        topic@ == INPUT_TOPIC@ ==> exists|
            m: &mut B,
            route: &str,
            payload: &InferenceTriplet,
            x: Result<(), NebulaError>,
        |
            #[trigger] triplet_published(m, route, payload, x) && *m == *old(bus) && *final(m)
                == *final(bus) && route@ == route_topic(triplet.task_type@) && *payload == triplet
                && match x {
                Err(e) => r == Err::<RoutedEvent, NebulaError>(e),
                Ok(_) => r matches Ok(ev) && ev.topic@ == route@ && ev.payload == triplet,
            },
{
    crate::error::require_topic(topic, INPUT_TOPIC)?;
    let event = route_triplet(triplet);
    bus.publish(event.topic.as_str(), &event.payload)?;
    Ok(event)
}

/// Lowering a character twice lowers it once.
proof fn lemma_ascii_lower_idempotent(c: char)
    ensures
        ascii_lower(ascii_lower(c)) == ascii_lower(c),
{
    if 'A' <= c <= 'Z' {
        let v = (c as u32) + 32;
        assert(vstd::utf8::has_width_1_encoding(v as u32));
        vstd::utf8::char_u32_cast(ascii_lower(c), v as u32);
    }
}

/// Routing ignores the case of ASCII letters in the task type: a task type
/// routes as its lowercase form does.
pub proof fn law_route_ignores_ascii_case(task_type: Seq<char>)
    ensures
        route_topic(ascii_lowercase(task_type)) == route_topic(task_type),
{
    let l = ascii_lowercase(task_type);
    assert forall|i: int| 0 <= i < l.len() implies #[trigger] ascii_lowercase(l)[i] == l[i] by {
        lemma_ascii_lower_idempotent(task_type[i]);
    }
    assert(ascii_lowercase(l) =~= l);
}

} // verus!
