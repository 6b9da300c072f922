use nebula::curriculum::{
    curriculum_schema, generate_and_inject, generate_drift_curriculum, AgentInferenceEvent,
    CurriculumRequest, CurriculumTask, EventBus as CurriculumBus, TeacherModel,
    CORRELATION_HEADER, CURRICULUM_SCHEMA, DRIFT_CORRELATION_HEADER,
};
use nebula::divergence_aggregator::{
    aggregate_and_persist, ArbitrationTask as QueuedTask, EvaluationResult as DivergentResult,
    KvListStore, RESULTS_TOPIC as DIVERGENCE_RESULTS_TOPIC,
};
use nebula::dpo_judge::{
    judge_and_forward, ConstitutionRule, ConstitutionStore, DpoJudgementRequest, PreferencePair,
    PreferenceSink,
};
use nebula::error::NebulaError;
use nebula::eval_ast::{
    evaluate, evaluate_and_publish, extract_code_block, structural_features, structural_hash,
    AstDecision, AstEvaluationRequest, EvaluationResult, EventBus as AstBus, GrammarRegistry,
};
use nebula::telemetry_gateway::{
    handle_event, route_triplet, EventBus as GatewayBus, InferenceTriplet, AST_TOPIC,
    INPUT_TOPIC as GATEWAY_TOPIC, SEMANTIC_TOPIC,
};

struct Registry;

impl GrammarRegistry for Registry {
    fn load_wasm_grammar(&self, _language: &str) -> Result<Vec<u8>, NebulaError> {
        Ok(vec![0])
    }
}

fn ast_request(a: &str, b: &str, c: &str) -> AstEvaluationRequest {
    AstEvaluationRequest {
        prompt: "p".into(),
        language: "rust".into(),
        responses: [a.into(), b.into(), c.into()],
        context: "{}".into(),
    }
}

#[test]
fn matching_structure_is_ignored() {
    let request = ast_request(
        "```rust\nfn a() { if true {} }\n```",
        "```rust\nfn b() { if false {} }\n```",
        "```rust\nfn c() { if true {} }\n```",
    );

    assert_eq!(evaluate(&Registry, request).unwrap(), AstDecision::Ignore);
}

#[test]
fn different_structure_diverges() {
    let request = ast_request(
        "```rust\nfn a() { if true {} }\n```",
        "```rust\nfn b() { loop {} }\n```",
        "```rust\nfn c() { if true {} }\n```",
    );
    match evaluate(&Registry, request).unwrap() {
        AstDecision::Diverged(result) => {
            assert!(result.diverged);
            assert_eq!(result.evaluator, "nebula-eval-ast");
            assert_eq!(result.reason, "structural hashes differ");
        }
        other => panic!("expected divergence, got {other:?}"),
    }
}

#[test]
fn answer_without_code_falls_back() {
    let request = ast_request("no code here", "```rust\nfn b() {}\n```", "```rust\nfn c() {}\n```");
    assert_eq!(evaluate(&Registry, request.clone()).unwrap(), AstDecision::Fallback(request));
}

#[test]
fn extracts_first_fenced_block_and_features() {
    assert_eq!(extract_code_block("text\n```rust\nlet x = 1;\n```\n").as_deref(), Some("let x = 1;\n"));
    assert_eq!(extract_code_block("no fence"), None);
    assert_eq!(extract_code_block("```rust\nunterminated"), None);
    assert_eq!(
        structural_features("fn a(x: i32) { if x > 0 { return; } }"),
        vec!["fn", "(", ")", "{", "if", ">", "{", "return", ";", "}", "}"]
    );
    assert_eq!(structural_hash("no fence"), Err(NebulaError::NoCodeBlock));
    assert_eq!(structural_hash("```\nlet value\n```"), Err(NebulaError::NoStructuralFeatures));
}

struct AstEvents(Vec<String>);

impl AstBus for AstEvents {
    fn publish_result(&mut self, topic: &str, _result: &EvaluationResult) -> Result<(), NebulaError> {
        self.0.push(topic.into());
        Ok(())
    }

    fn publish_fallback(&mut self, topic: &str, _request: &AstEvaluationRequest) -> Result<(), NebulaError> {
        self.0.push(topic.into());
        Ok(())
    }
}

#[test]
fn publishes_fallback_for_semantic_evaluation() {
    let mut bus = AstEvents(Vec::new());
    let request = ast_request("plain", "plain", "plain");
    let decision = evaluate_and_publish(&mut bus, &Registry, request).unwrap();
    assert!(matches!(decision, AstDecision::Fallback(_)));
    assert_eq!(bus.0, vec!["nebula.eval.semantic.pending".to_string()]);
}

struct Gateway(Vec<String>);

impl GatewayBus for Gateway {
    fn publish(&mut self, topic: &str, _payload: &InferenceTriplet) -> Result<(), NebulaError> {
        self.0.push(topic.into());
        Ok(())
    }
}

fn triplet(prompt: &str, task_type: &str) -> InferenceTriplet {
    InferenceTriplet {
        prompt: prompt.into(),
        task_type: task_type.into(),
        responses: ["a".into(), "b".into(), "c".into()],
        context: "{}".into(),
    }
}

#[test]
fn routes_code_to_ast() {
    let event = route_triplet(triplet("write rust", "rust_code_generation"));
    assert_eq!(event.topic, AST_TOPIC);
}

#[test]
fn routes_free_text_to_semantic() {
    let event = route_triplet(triplet("reason", "reasoning"));
    assert_eq!(event.topic, SEMANTIC_TOPIC);
}

#[test]
fn routing_ignores_ascii_case() {
    assert_eq!(route_triplet(triplet("p", "TypeScript")).topic, AST_TOPIC);
    assert_eq!(route_triplet(triplet("p", "WASM")).topic, AST_TOPIC);
    let mut bus = Gateway(Vec::new());
    let event = handle_event(&mut bus, GATEWAY_TOPIC, triplet("p", "Python scripts")).unwrap();
    assert_eq!(event.topic, AST_TOPIC);
    assert_eq!(bus.0, vec![AST_TOPIC.to_string()]);
    assert!(handle_event(&mut bus, "elsewhere", triplet("p", "rust")).is_err());
}

struct Store;
struct Sink(Vec<PreferencePair>);

impl ConstitutionStore for Store {
    fn load_rules(&self, _tenant_id: Option<&str>) -> Result<Vec<ConstitutionRule>, NebulaError> {
        Ok(vec![ConstitutionRule {
            id: "rust-safety".into(),
            instruction: "Do not use unwrap in generated Rust.".into(),
            forbidden_terms: vec!["unwrap()".into()],
        }])
    }
}

impl PreferenceSink for Sink {
    fn write_preference(&mut self, pair: PreferencePair) -> Result<(), NebulaError> {
        self.0.push(pair);
        Ok(())
    }
}

#[test]
fn forwards_constitutional_preference_pair() {
    let mut sink = Sink(Vec::new());
    let pair = judge_and_forward(
        &Store,
        &mut sink,
        DpoJudgementRequest {
            prompt: "read a file".into(),
            tier1_answer: "unwrap()".into(),
            tier3_answer: "std::fs::read_to_string(path)?".into(),
            tenant_id: Some("acme".into()),
        },
    )
    .unwrap();

    assert!(pair.prompt.contains("Do not use unwrap"));
    assert_eq!(sink.0.len(), 1);
}

#[test]
fn refuses_chosen_answer_that_breaks_the_constitution() {
    let mut sink = Sink(Vec::new());
    let result = judge_and_forward(
        &Store,
        &mut sink,
        DpoJudgementRequest {
            prompt: "read a file".into(),
            tier1_answer: "?".into(),
            tier3_answer: "value.unwrap()".into(),
            tenant_id: None,
        },
    );
    assert_eq!(result, Err(NebulaError::ConstitutionViolation("rust-safety".into())));
    assert!(sink.0.is_empty());
}

struct Teacher;
struct Injected(Vec<AgentInferenceEvent>);

impl TeacherModel for Teacher {
    fn generate_curriculum(&self, _subject: &str, count: usize, _schema: &str) -> Result<Vec<CurriculumTask>, NebulaError> {
        Ok((0..count)
            .map(|idx| CurriculumTask {
                title: format!("Task {idx}"),
                description: "Solve it".into(),
                constraints: vec!["No docs".into()],
            })
            .collect())
    }
}

impl CurriculumBus for Injected {
    fn publish(&mut self, _topic: &str, event: &AgentInferenceEvent) -> Result<(), NebulaError> {
        self.0.push(event.clone());
        Ok(())
    }
}

fn header<'a>(event: &'a AgentInferenceEvent, name: &str) -> Option<&'a str> {
    event.headers.iter().find(|(key, _)| key == name).map(|(_, value)| value.as_str())
}

#[test]
fn injects_correlation_header() {
    let mut bus = Injected(Vec::new());
    let events = generate_and_inject(
        &Teacher,
        &mut bus,
        CurriculumRequest { curriculum_id: "cur-1".into(), subject: "Cobol".into(), count: 2 },
    )
    .unwrap();

    assert_eq!(events.len(), 2);
    assert_eq!(header(&bus.0[0], CORRELATION_HEADER), Some("cur-1"));
    assert_eq!(events[0].prompt, "Task 0\n\nSolve it\n\nConstraints:\nNo docs");
}

#[test]
fn drift_event_generates_targeted_curriculum() {
    let mut bus = Injected(Vec::new());
    let (topic, confidence, threshold) = ("React 19 hooks", 0.82f32, 0.90f32);
    let subject = format!("{topic} drift confidence {confidence:.2} below {threshold:.2}");
    let events = generate_drift_curriculum(&Teacher, &mut bus, topic, &subject, 1).unwrap();

    assert!(events[0].prompt.contains("React 19 hooks"));
    assert_eq!(header(&events[0], DRIFT_CORRELATION_HEADER), Some("React 19 hooks"));
    assert_eq!(header(&events[0], CORRELATION_HEADER), Some("drift:React 19 hooks"));
}

#[test]
fn curriculum_refuses_zero_count() {
    let mut bus = Injected(Vec::new());
    let result = generate_and_inject(
        &Teacher,
        &mut bus,
        CurriculumRequest { curriculum_id: "cur-1".into(), subject: "Cobol".into(), count: 0 },
    );
    assert_eq!(result, Err(NebulaError::ZeroCount));
    let schema: serde_json::Value = serde_json::from_str(&curriculum_schema()).unwrap();
    assert_eq!(schema["items"]["required"][0], "title");
    assert_eq!(curriculum_schema(), CURRICULUM_SCHEMA);
}

struct Queue(Vec<QueuedTask>);

impl KvListStore for Queue {
    fn push_json(&mut self, _key: &str, value: &QueuedTask) -> Result<usize, NebulaError> {
        self.0.push(value.clone());
        Ok(self.0.len())
    }
}

fn divergent(diverged: bool) -> DivergentResult {
    DivergentResult {
        diverged,
        evaluator: "eval".into(),
        reason: "r".into(),
        prompt: "p".into(),
        responses: ["a".into(), "b".into(), "c".into()],
        context: "{\"agent\":\"pulsar\"}".into(),
    }
}

#[test]
fn persists_only_divergent_results() {
    let mut store = Queue(Vec::new());
    assert_eq!(aggregate_and_persist(&mut store, DIVERGENCE_RESULTS_TOPIC, divergent(true)).unwrap(), Some(1));
}

#[test]
fn ignores_agreeing_results_and_other_topics() {
    let mut store = Queue(Vec::new());
    assert_eq!(aggregate_and_persist(&mut store, DIVERGENCE_RESULTS_TOPIC, divergent(false)).unwrap(), None);
    assert_eq!(aggregate_and_persist(&mut store, "other", divergent(true)).unwrap(), None);
    assert!(store.0.is_empty());
}
