use nebula::deployment_policy::{
    count_failures, latest_metric_cache, rollout_track, store_outcome, InferenceOutcome, OutcomeStore,
    RolloutDecision,
};
use nebula::drift_monitor::{count_uncertain, store_metric, InferenceMetric, MetricStore};
use nebula::economic_governor::{
    estimate_tokens, evaluate_budget, reconcile_exact_usage, ArbitrationRequest, BudgetDecision,
    BudgetStore, TenantBudget, TokenUsageEvent,
};
use nebula::error::NebulaError;
use nebula::lora_validator::{
    decode_grpc_response, encode_grpc_frame, validate_lora, AstEvaluationResponse, AstEvaluator,
    EventBus as ValidationBus, FailedPrompt, FailedPromptStore, InferenceHost,
    TrainingCompleteEvent, ValidationReport, VALIDATION_FAILED_TOPIC, VALIDATION_SUCCESS_TOPIC,
};
use nebula::p2p_sync::{
    build_manifest, deterministic_record_id, handle_remote_manifest, has_remote_delta,
    publish_manifest, DatasetStore, GossipBus, KnowledgeManifest, KnowledgeRecord, SyncClient,
    SyncOutcome,
};
use nebula::redis_budget::{reconcile_adjustment, reservation_result, usage_key, UsageAdjustment, RESERVE_LUA};
use nebula::teacher_arbitrator::{
    arbitrate_batch, ArbitrationQueue, ArbitrationTask, EventBus as AnswerBus, LayeredInference,
    PerfectAnswer,
};
use nebula::tenant_core::deterministic_test_tenant;
use std::collections::{BTreeMap, BTreeSet};

#[test]
fn reservation_lua_uses_single_atomic_eval_script() {
    assert!(RESERVE_LUA.contains("redis.call(\"GET\""));
    assert!(RESERVE_LUA.contains("redis.call(\"SET\""));
    assert!(RESERVE_LUA.contains("next <= limit"));
    assert!(RESERVE_LUA.contains("return -1"));
}

#[test]
fn redis_keys_replies_and_adjustments() {
    let tenant = deterministic_test_tenant("acme");
    assert_eq!(
        usage_key("nebula:finops:budget", tenant),
        format!("nebula:finops:budget:{}:daily_tokens_used", tenant.to_hyphenated())
    );
    assert_eq!(reservation_result(-1), None);
    assert_eq!(reservation_result(42), Some(42));
    assert_eq!(reconcile_adjustment(10, 15), UsageAdjustment::Increment(5));
    assert_eq!(reconcile_adjustment(10, 10), UsageAdjustment::Unchanged);
    assert_eq!(reconcile_adjustment(10, 4), UsageAdjustment::Decrement(6));
}

struct Budget {
    budget: TenantBudget,
    reserved: u64,
    reconciled: Option<u64>,
}

impl BudgetStore for Budget {
    fn load_budget(&self, _tenant_id: &str) -> Result<TenantBudget, NebulaError> {
        Ok(self.budget.clone())
    }

    fn reserve_tokens(&mut self, _tenant_id: &str, tokens: u64) -> Result<(), NebulaError> {
        self.reserved += tokens;
        Ok(())
    }

    fn reconcile_tokens(&mut self, _tenant_id: &str, _estimated: u64, exact: u64) -> Result<(), NebulaError> {
        self.reconciled = Some(exact);
        Ok(())
    }
}

fn budget(limit: u64, used: u64) -> Budget {
    Budget {
        budget: TenantBudget { tenant_id: "acme".into(), daily_token_limit: limit, daily_tokens_used: used },
        reserved: 0,
        reconciled: None,
    }
}

#[test]
fn reserves_when_under_budget() {
    let mut store = budget(100, 0);
    let decision = evaluate_budget(
        &mut store,
        &ArbitrationRequest { tenant_id: "acme".into(), prompt: "small request".into(), context: "{}".into() },
    )
    .unwrap();

    assert!(matches!(decision, BudgetDecision::Forward { .. }));
    assert!(store.reserved > 0);
}

#[test]
fn drops_when_budget_exhausted() {
    let mut store = budget(1, 1);
    let decision = evaluate_budget(
        &mut store,
        &ArbitrationRequest { tenant_id: "acme".into(), prompt: "expensive request".into(), context: "{}".into() },
    )
    .unwrap();

    assert!(matches!(decision, BudgetDecision::Exhausted { .. }));
}

#[test]
fn token_estimate_and_reconciliation() {
    assert_eq!(estimate_tokens(""), 1);
    assert_eq!(estimate_tokens("small request"), 4);
    assert_eq!(estimate_tokens("a b c d e f"), 6);
    assert_eq!(estimate_tokens("  two\twords \n"), 4);
    let mut store = budget(10, 8);
    let decision = evaluate_budget(
        &mut store,
        &ArbitrationRequest { tenant_id: "acme".into(), prompt: "abcdefghijkl".into(), context: "{}".into() },
    )
    .unwrap();
    assert_eq!(decision, BudgetDecision::Exhausted { topic: "nebula.finops.budget_exhausted", remaining_tokens: 2 });
    assert_eq!(store.reserved, 0);
    reconcile_exact_usage(&mut store, &TokenUsageEvent { tenant_id: "acme".into(), estimated_tokens: 3, exact_tokens: None }).unwrap();
    assert_eq!(store.reconciled, None);
    reconcile_exact_usage(&mut store, &TokenUsageEvent { tenant_id: "acme".into(), estimated_tokens: 3, exact_tokens: Some(5) }).unwrap();
    assert_eq!(store.reconciled, Some(5));
}

struct Queue(Vec<ArbitrationTask>);
struct Layers(Vec<String>);
struct Answers(usize);

impl ArbitrationQueue for Queue {
    fn pop_batch(&mut self, limit: usize) -> Result<Vec<ArbitrationTask>, NebulaError> {
        let n = limit.min(self.0.len());
        Ok(self.0.drain(..n).collect())
    }
}

impl LayeredInference for Layers {
    fn layer_count(&self, _model: &str) -> Result<usize, NebulaError> {
        Ok(2)
    }
    fn load_layer(&mut self, _model: &str, layer: usize) -> Result<(), NebulaError> {
        self.0.push(format!("load:{layer}"));
        Ok(())
    }
    fn forward_layer(&mut self, _model: &str, layer: usize, _batch: &[ArbitrationTask]) -> Result<(), NebulaError> {
        self.0.push(format!("forward:{layer}"));
        Ok(())
    }
    fn unload_layer(&mut self, _model: &str, layer: usize) -> Result<(), NebulaError> {
        self.0.push(format!("unload:{layer}"));
        Ok(())
    }
    fn decode_json(&mut self, _model: &str, _schema: &str, batch: &[ArbitrationTask]) -> Result<Vec<PerfectAnswer>, NebulaError> {
        Ok(batch
            .iter()
            .map(|task| PerfectAnswer {
                prompt: task.prompt.clone(),
                answer: "fixed".into(),
                source: "tier3".into(),
                context: task.pulsar_context.clone(),
            })
            .collect())
    }
}

impl AnswerBus for Answers {
    fn publish(&mut self, _topic: &str, _answer: &PerfectAnswer) -> Result<(), NebulaError> {
        self.0 += 1;
        Ok(())
    }
}

fn task() -> ArbitrationTask {
    ArbitrationTask {
        prompt: "p".into(),
        pulsar_context: "{}".into(),
        hallucinations: ["a".into(), "b".into(), "c".into()],
        evaluator: "eval".into(),
        reason: "diverged".into(),
    }
}

#[test]
fn runs_layer_by_layer_before_publish() {
    let mut queue = Queue(vec![task()]);
    let mut inference = Layers(Vec::new());
    let mut bus = Answers(0);

    let answers = arbitrate_batch(&mut queue, &mut inference, &mut bus, "deepseek", 8).unwrap();

    assert_eq!(answers.len(), 1);
    assert_eq!(bus.0, 1);
    assert_eq!(inference.0[0], "load:0");
    assert_eq!(inference.0, vec!["load:0", "forward:0", "unload:0", "load:1", "forward:1", "unload:1"]);
}

#[test]
fn arbitration_refuses_zero_limit_and_skips_empty_queues() {
    let mut inference = Layers(Vec::new());
    let mut bus = Answers(0);
    assert_eq!(
        arbitrate_batch(&mut Queue(vec![task()]), &mut inference, &mut bus, "m", 0),
        Err(NebulaError::ZeroBatchLimit)
    );
    assert_eq!(arbitrate_batch(&mut Queue(Vec::new()), &mut inference, &mut bus, "m", 4).unwrap(), Vec::new());
    assert!(inference.0.is_empty());
}

struct Prompts(Vec<FailedPrompt>);
struct Replayer;
struct Evaluator(bool);
struct Reports(String);

impl FailedPromptStore for Prompts {
    fn sample_failed_prompts(&mut self, _batch_id: Option<&str>, limit: usize) -> Result<Vec<FailedPrompt>, NebulaError> {
        Ok(self.0.iter().take(limit).cloned().collect())
    }
}

impl InferenceHost for Replayer {
    fn generate_with_adapter(&mut self, _artifact_ref: &str, _output_model: &str, prompt: &str, temperature_tenths: u32) -> Result<String, NebulaError> {
        let temperature = temperature_tenths as f32 / 10.0;
        Ok(format!("fixed:{prompt}:{temperature}"))
    }
}

impl AstEvaluator for Evaluator {
    fn evaluate_triplets(&mut self, _language: &str, _responses: &[String; 3]) -> Result<AstEvaluationResponse, NebulaError> {
        Ok(AstEvaluationResponse { diverged: self.0, fallback_reason: None })
    }
}

impl ValidationBus for Reports {
    fn publish(&mut self, topic: &str, _report: &ValidationReport) -> Result<(), NebulaError> {
        self.0 = topic.to_string();
        Ok(())
    }
}

fn failed() -> Prompts {
    Prompts(vec![FailedPrompt {
        prompt: "write rust".into(),
        language: "rust".into(),
        before: ["a".into(), "b".into(), "c".into()],
    }])
}

fn pass_rate(report: &ValidationReport) -> f32 {
    report.passed as f32 / report.samples.len() as f32
}

#[test]
fn emits_success_when_all_prompts_converge() {
    let mut bus = Reports(String::new());
    let report = validate_lora(
        &mut failed(),
        &mut Replayer,
        &mut Evaluator(false),
        &mut bus,
        TrainingCompleteEvent {
            artifact_ref: "oci://localhost:5000/pulsar-lora:v2".into(),
            output_model: "pulsar-base-v2.safetensors".into(),
            examples: 500,
            batch_id: Some("batch-1".into()),
        },
    )
    .unwrap();

    assert_eq!(pass_rate(&report), 1.0);
    assert_eq!(bus.0, VALIDATION_SUCCESS_TOPIC);
    assert_eq!(report.samples[0].after[0], "fixed:write rust:0.1");
}

#[test]
fn emits_failure_when_any_prompt_still_diverges() {
    let mut bus = Reports(String::new());
    let report = validate_lora(
        &mut failed(),
        &mut Replayer,
        &mut Evaluator(true),
        &mut bus,
        TrainingCompleteEvent {
            artifact_ref: "oci://localhost:5000/pulsar-lora:v2".into(),
            output_model: "pulsar-base-v2.safetensors".into(),
            examples: 500,
            batch_id: None,
        },
    )
    .unwrap();

    assert_eq!(pass_rate(&report), 0.0);
    assert_eq!(bus.0, VALIDATION_FAILED_TOPIC);
}

#[test]
fn validation_needs_failed_prompts() {
    let mut bus = Reports(String::new());
    let result = validate_lora(
        &mut Prompts(Vec::new()),
        &mut Replayer,
        &mut Evaluator(false),
        &mut bus,
        TrainingCompleteEvent { artifact_ref: "a".into(), output_model: "m".into(), examples: 1, batch_id: None },
    );
    assert_eq!(result, Err(NebulaError::NoFailedPrompts));
    assert!(bus.0.is_empty());
}

#[test]
fn decodes_ast_microvm_grpc_response() {
    // An `AstEvaluationResponse` with `diverged: false` and no reason encodes
    // to an empty protobuf message.
    let frame = encode_grpc_frame(&[]);
    assert_eq!(frame, vec![0, 0, 0, 0, 0]);
    assert_eq!(decode_grpc_response(&frame).unwrap(), Vec::<u8>::new());
}

#[test]
fn grpc_frames_round_trip_and_reject_short_frames() {
    let payload = vec![0x08, 0x01, 0x12, 0x02, b'o', b'k'];
    let frame = encode_grpc_frame(&payload);
    assert_eq!(&frame[..5], &[0, 0, 0, 0, 6]);
    assert_eq!(decode_grpc_response(&frame).unwrap(), payload);
    assert_eq!(decode_grpc_response(&[0, 0, 0]), Err(NebulaError::InvalidGrpcFrame));
    assert_eq!(decode_grpc_response(&[0, 0, 0, 0, 9, 1]), Err(NebulaError::TruncatedGrpcFrame));
}

#[derive(Default)]
struct Records {
    records: Vec<KnowledgeRecord>,
}

struct Gossip(Option<KnowledgeManifest>);
struct Peer {
    called: bool,
    delta: Vec<KnowledgeRecord>,
}

impl DatasetStore for Records {
    fn record_ids(&mut self) -> Result<Vec<String>, NebulaError> {
        Ok(self.records.iter().map(|record| record.id.clone()).collect())
    }

    fn upsert_records(&mut self, records: &[KnowledgeRecord]) -> Result<usize, NebulaError> {
        let existing = self.records.iter().map(|record| record.id.clone()).collect::<BTreeSet<_>>();
        let mut inserted = 0;
        for record in records {
            if !existing.contains(&record.id) {
                self.records.push(record.clone());
                inserted += 1;
            }
        }
        Ok(inserted)
    }
}

impl GossipBus for Gossip {
    fn publish(&mut self, _topic: &str, manifest: &KnowledgeManifest) -> Result<(), NebulaError> {
        self.0 = Some(manifest.clone());
        Ok(())
    }
}

impl SyncClient for Peer {
    fn pull_delta(&mut self, _endpoint: &str, _known_ids: &[String]) -> Result<Vec<KnowledgeRecord>, NebulaError> {
        self.called = true;
        Ok(self.delta.clone())
    }
}

fn record(prompt: &str, response: &str) -> KnowledgeRecord {
    KnowledgeRecord {
        id: deterministic_record_id(prompt, response),
        prompt: prompt.into(),
        response: response.into(),
        metadata: "{}".into(),
    }
}

#[test]
fn publishes_deterministic_manifest() {
    let mut store = Records { records: vec![record("p1", "r1"), record("p2", "r2")] };
    let mut bus = Gossip(None);

    let manifest = publish_manifest(&mut store, &mut bus, "node-a", "root-ca", "https://node-a/sync").unwrap();

    assert_eq!(manifest.record_count, 2);
    assert_eq!(manifest.bloom.len(), 32);
    assert_eq!(bus.0.unwrap(), manifest);
}

#[test]
fn manifest_ignores_order_and_duplicates() {
    let a = deterministic_record_id("p1", "r1");
    let b = deterministic_record_id("p2", "r2");
    let first = build_manifest("n", "ca", "e", &[a.clone(), b.clone()]);
    let second = build_manifest("n", "ca", "e", &[b.clone(), a.clone(), b.clone()]);
    assert_eq!(first, second);
    assert_eq!(first.record_count, 2);
    let mut expected = vec![a, b];
    expected.sort();
    expected.reverse();
    assert_eq!(first.recent_ids, expected);
    assert_eq!(first.bloom.iter().map(|byte| byte.count_ones()).sum::<u32>() <= 6, true);
    assert!(first.bloom.iter().any(|byte| *byte != 0));
}

#[test]
fn pulls_and_inserts_missing_remote_records() {
    let mut store = Records { records: vec![record("p1", "r1")] };
    let remote_record = record("p2", "r2");
    let manifest = build_manifest("node-b", "root-ca", "https://node-b/sync", &[remote_record.id.clone()]);
    let mut client = Peer { called: false, delta: vec![remote_record] };

    let outcome = handle_remote_manifest(&mut store, &mut client, "root-ca", &manifest).unwrap();

    assert_eq!(outcome, SyncOutcome::Pulled { inserted: 1 });
    assert!(client.called);
    assert_eq!(store.records.len(), 2);
}

#[test]
fn rejects_untrusted_manifest_without_delta_request() {
    let mut store = Records::default();
    let mut client = Peer { called: false, delta: Vec::new() };
    let manifest = build_manifest("node-b", "other-root", "https://node-b/sync", &[]);

    let outcome = handle_remote_manifest(&mut store, &mut client, "root-ca", &manifest).unwrap();

    assert_eq!(outcome, SyncOutcome::RejectedUntrusted);
    assert!(!client.called);
}

#[test]
fn current_peers_are_left_alone() {
    let local = record("p1", "r1");
    let manifest = build_manifest("node-b", "root-ca", "e", &[local.id.clone()]);
    assert!(!has_remote_delta(&[local.id.clone(), local.id.clone()], &manifest));
    let mut store = Records { records: vec![local] };
    let mut client = Peer { called: false, delta: Vec::new() };
    let outcome = handle_remote_manifest(&mut store, &mut client, "root-ca", &manifest).unwrap();
    assert_eq!(outcome, SyncOutcome::AlreadyCurrent);
    assert!(!client.called);
}

#[derive(Default)]
struct Outcomes(BTreeMap<String, Vec<InferenceOutcome>>);

impl OutcomeStore for Outcomes {
    fn load(&mut self, model_version: &str) -> Result<Vec<InferenceOutcome>, NebulaError> {
        Ok(self.0.get(model_version).cloned().unwrap_or_default())
    }

    fn save(&mut self, model_version: &str, outcomes: &[InferenceOutcome]) -> Result<(), NebulaError> {
        self.0.insert(model_version.into(), outcomes.to_vec());
        Ok(())
    }
}

fn outcome(timestamp_ms: u64, diverged: bool) -> InferenceOutcome {
    InferenceOutcome { model_version: "pulsar-base:v2-canary".into(), timestamp_ms, diverged, escalated: false }
}

#[test]
fn outcome_window_drops_stale_entries_and_counts_failures() {
    let mut store = Outcomes::default();
    store_outcome(&mut store, &outcome(1_000, true), 10_000).unwrap();
    store_outcome(&mut store, &outcome(5_000, false), 10_000).unwrap();
    let window = store_outcome(&mut store, &outcome(12_000, false), 10_000).unwrap();
    assert_eq!(window.iter().map(|o| o.timestamp_ms).collect::<Vec<_>>(), vec![5_000, 12_000]);
    assert_eq!(count_failures(&window), 0);
    assert_eq!(count_failures(&[outcome(1, true), outcome(2, false)]), 1);
    assert_eq!(rollout_track("pulsar-base:v2-canary"), "canary");
    assert_eq!(rollout_track("pulsar-base:v2"), "stable");
}

#[derive(Default)]
struct Metrics(BTreeMap<String, Vec<InferenceMetric>>);

impl MetricStore for Metrics {
    fn load(&mut self, topic: &str) -> Result<Vec<InferenceMetric>, NebulaError> {
        Ok(self.0.get(topic).cloned().unwrap_or_default())
    }

    fn save(&mut self, topic: &str, metrics: &[InferenceMetric]) -> Result<(), NebulaError> {
        self.0.insert(topic.into(), metrics.to_vec());
        Ok(())
    }
}

#[test]
fn metric_window_counts_uncertain_inferences() {
    let mut store = Metrics::default();
    let mut window = Vec::new();
    for idx in 0..3u64 {
        let metric = InferenceMetric {
            topic: "React 19 hooks".into(),
            timestamp_ms: idx,
            fallback_tool_called: idx < 2,
            high_variance: false,
        };
        window = store_metric(&mut store, &metric, 1000).unwrap();
    }
    assert_eq!(window.len(), 3);
    assert_eq!(count_uncertain(&window), 2);
}

#[test]
fn record_ids_hash_prompt_zero_byte_and_response() {
    assert_eq!(
        deterministic_record_id("p1", "r1"),
        "ee610e6abc6e739e393a666149634cd89331efcfcb00743d7388852731abaa3c"
    );
}

fn decision(model_version: &str, rate: f64, rollback: bool) -> RolloutDecision {
    RolloutDecision {
        model_version: model_version.to_string(),
        rollout_track: rollout_track(model_version).to_string(),
        divergence_rate_bits: rate.to_bits(),
        threshold_bits: 0.04f64.to_bits(),
        rollback,
    }
}

#[test]
fn latest_metric_cache_keeps_last_decision_per_track() {
    let decisions = vec![
        decision("v2-canary", 0.01, false),
        decision("v1", 0.0, false),
        decision("v3-canary", 0.5, true),
        decision("v1.1", 0.02, false),
    ];
    let cache = latest_metric_cache(&decisions);
    assert_eq!(cache.len(), 2);
    assert_eq!(cache[0].0, "canary");
    assert_eq!(cache[0].1, decisions[2]);
    assert_eq!(f64::from_bits(cache[0].1.divergence_rate_bits), 0.5);
    assert_eq!(cache[1].0, "stable");
    assert_eq!(cache[1].1, decisions[3]);
}

#[test]
fn latest_metric_cache_of_nothing_is_empty() {
    assert!(latest_metric_cache(&[]).is_empty());
}

#[test]
fn latest_metric_cache_orders_tracks() {
    let decisions = vec![decision("v1", 0.0, false), decision("v2-canary", 0.1, true)];
    let cache = latest_metric_cache(&decisions);
    let tracks: Vec<&str> = cache.iter().map(|(t, _)| t.as_str()).collect();
    assert_eq!(tracks, vec!["canary", "stable"]);
}
