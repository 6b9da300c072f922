use nebula::crdt_merger::{
    deterministic_row_id, merge_remote_rows, DatasetRow, DatasetStore, EventBus as MergeBus,
    RemoteTrainingRow, TrainingReadyEvent as MergeReadyEvent,
};
use nebula::dataset_forge::{
    append_example, append_preference_example, append_preference_example_checked,
    dataset_index_key, mix_with_golden, ratio_allows, tenant_dataset_path,
    tenant_dataset_path_checked, CounterStore, DatasetCounters, EventBus, ExampleSource,
    GoldenTrainingRow, IndexStore, PreferenceExample, ReplayConfig, TrainingExample,
    TrainingReadyEvent, VolumeStore,
};
use nebula::error::NebulaError;
use nebula::golden_dataset::{promote_if_stable, CandidateRow, GoldenRow, GoldenStore};
use nebula::tenant_core::{deterministic_test_tenant, resolve_tenant, TenantError, TenantId, TenantRegistry};
use nebula::tenant_router::{route_tenant_triplet_with_registry, TelemetryTriplet, TenantRouterConfig};
use std::collections::BTreeSet;

#[derive(Default)]
struct Counters(DatasetCounters);
struct Volume(Vec<String>);
struct Index(Vec<String>);
struct Bus(usize);

impl CounterStore for Counters {
    fn counters(&self) -> Result<DatasetCounters, NebulaError> {
        Ok(self.0)
    }
    fn increment(&mut self, source: &ExampleSource) -> Result<DatasetCounters, NebulaError> {
        match source {
            ExampleSource::Escalated => self.0.escalated += 1,
            ExampleSource::Direct => self.0.direct += 1,
        }
        Ok(self.0)
    }
}

impl VolumeStore for Volume {
    fn append_line(&mut self, _path: &str, line: &str) -> Result<(), NebulaError> {
        self.0.push(line.into());
        Ok(())
    }
}

impl IndexStore for Index {
    fn put_index_key(&mut self, key: &str) -> Result<(), NebulaError> {
        self.0.push(key.into());
        Ok(())
    }
}

impl EventBus for Bus {
    fn publish_training_ready(&mut self, _topic: &str, _event: &TrainingReadyEvent) -> Result<(), NebulaError> {
        self.0 += 1;
        Ok(())
    }
}

#[test]
fn appends_jsonl_and_emits_threshold() {
    let mut counters = Counters::default();
    let mut volume = Volume(Vec::new());
    let mut index = Index(Vec::new());
    let mut bus = Bus(0);
    let example = TrainingExample {
        prompt: "p".into(),
        answer: "a".into(),
        source: ExampleSource::Escalated,
        context: "{}".into(),
    };

    assert!(append_example(&mut counters, &mut volume, &mut index, &mut bus, example, 1).unwrap());
    assert_eq!(volume.0.len(), 1);
    assert_eq!(index.0, vec![dataset_index_key("p")]);
    assert_eq!(bus.0, 1);
}

#[test]
fn writes_preference_triplets() {
    let mut volume = Volume(Vec::new());
    let mut index = Index(Vec::new());

    append_preference_example(
        &mut volume,
        &mut index,
        PreferenceExample {
            prompt: "p".into(),
            chosen: "safe".into(),
            rejected: "unsafe".into(),
            tenant_id: Some(deterministic_test_tenant("acme").to_hyphenated()),
            context: "{}".into(),
        },
    )
    .unwrap();

    assert!(volume.0[0].contains("\"chosen\":\"safe\""));
    assert_eq!(index.0, vec![dataset_index_key("p")]);
}

#[test]
fn refuses_preference_with_invalid_tenant_before_writing() {
    let mut volume = Volume(Vec::new());
    let mut index = Index(Vec::new());
    let result = append_preference_example_checked(
        &mut volume,
        &mut index,
        PreferenceExample {
            prompt: "p".into(),
            chosen: "safe".into(),
            rejected: "unsafe".into(),
            tenant_id: Some("acme/prod".into()),
            context: "{}".into(),
        },
    );
    assert_eq!(result, Err(NebulaError::InvalidTenantId("acme/prod".into())));
    assert!(volume.0.is_empty());
    assert_eq!(tenant_dataset_path_checked("acme/prod"), None);
}

#[test]
fn builds_tenant_paths_and_mixes_replay_rows() {
    let tenant_id = deterministic_test_tenant("acme/prod").to_hyphenated();
    assert_eq!(
        tenant_dataset_path(&tenant_id),
        format!("/mnt/forge/tenants/{}/dataset_v1.jsonl", deterministic_test_tenant("acme/prod").to_hyphenated())
    );

    let live = vec![TrainingExample {
        prompt: "live".into(),
        answer: "a".into(),
        source: ExampleSource::Direct,
        context: "{}".into(),
    }];
    let golden = vec![GoldenTrainingRow {
        prompt: "gold".into(),
        answer: "b".into(),
        vector_score: 0.9f32.to_bits(),
        locked: false,
    }];

    let batch = mix_with_golden(&live, &golden, ReplayConfig { live_rows: 1, golden_rows: 1 });

    assert_eq!(batch.len(), 2);
    assert_eq!(batch[1].prompt, "gold");
}

#[test]
fn replay_puts_locked_then_higher_scores_first() {
    let golden = vec![
        GoldenTrainingRow { prompt: "low".into(), answer: "x".into(), vector_score: 0.2f32.to_bits(), locked: false },
        GoldenTrainingRow { prompt: "high".into(), answer: "x".into(), vector_score: 0.9f32.to_bits(), locked: false },
        GoldenTrainingRow { prompt: "locked".into(), answer: "x".into(), vector_score: 0.1f32.to_bits(), locked: true },
        GoldenTrainingRow { prompt: "negative".into(), answer: "x".into(), vector_score: (-0.5f32).to_bits(), locked: false },
    ];
    let batch = mix_with_golden(&[], &golden, ReplayConfig { live_rows: 10, golden_rows: 3 });
    let prompts: Vec<&str> = batch.iter().map(|e| e.prompt.as_str()).collect();
    assert_eq!(prompts, vec!["locked", "high", "low"]);
    assert_eq!(batch[0].source, ExampleSource::Escalated);
    assert_eq!(batch[0].context, "{\"source\":\"golden_dataset\"}");
}

#[test]
fn ratio_guard_keeps_source_mix() {
    assert!(ratio_allows(DatasetCounters { escalated: 3, direct: 3 }, &ExampleSource::Escalated));
    assert!(ratio_allows(DatasetCounters { escalated: 6, direct: 3 }, &ExampleSource::Escalated));
    assert!(!ratio_allows(DatasetCounters { escalated: 7, direct: 2 }, &ExampleSource::Escalated));
    assert!(!ratio_allows(DatasetCounters { escalated: 4, direct: 5 }, &ExampleSource::Direct));
    assert!(ratio_allows(DatasetCounters { escalated: 5, direct: 4 }, &ExampleSource::Direct));
}

#[derive(Default)]
struct Golden {
    rows: usize,
    vectors: usize,
    promoted: Vec<GoldenRow>,
}

impl GoldenStore for Golden {
    fn append(&mut self, row: &GoldenRow) -> Result<(), NebulaError> {
        self.rows += 1;
        self.promoted.push(row.clone());
        Ok(())
    }

    fn vectorize(&mut self, _namespace: &str, _row: &GoldenRow) -> Result<(), NebulaError> {
        self.vectors += 1;
        Ok(())
    }
}

#[test]
fn promotes_rows_after_stable_production_window() {
    let mut store = Golden::default();
    let promoted = promote_if_stable(
        &mut store,
        CandidateRow {
            prompt: "p".into(),
            answer: "a".into(),
            tenant_id: "acme".into(),
            days_in_production: 8,
            rollback_count: 0,
            drift_count: 0,
        },
    )
    .unwrap();

    assert!(promoted.is_some());
    assert_eq!(store.rows, 1);
    assert_eq!(store.vectors, 1);
}

#[test]
fn keeps_rows_younger_than_a_week() {
    let mut store = Golden::default();
    let promoted = promote_if_stable(
        &mut store,
        CandidateRow {
            prompt: "p".into(),
            answer: "a".into(),
            tenant_id: "acme".into(),
            days_in_production: 7,
            rollback_count: 0,
            drift_count: 0,
        },
    )
    .unwrap();
    assert!(promoted.is_none());
    assert_eq!(store.rows, 0);
}

#[derive(Default)]
struct Rows {
    ids: BTreeSet<String>,
    rows: Vec<DatasetRow>,
    counter: usize,
}

struct MergeEvents(usize);

impl DatasetStore for Rows {
    fn contains_row(&mut self, id: &str) -> Result<bool, NebulaError> {
        Ok(self.ids.contains(id))
    }

    fn append_row(&mut self, row: &DatasetRow) -> Result<(), NebulaError> {
        self.ids.insert(row.id.clone());
        self.rows.push(row.clone());
        Ok(())
    }

    fn increment_counter(&mut self) -> Result<usize, NebulaError> {
        self.counter += 1;
        Ok(self.counter)
    }
}

impl MergeBus for MergeEvents {
    fn publish_training_ready(&mut self, _topic: &str, _event: &MergeReadyEvent) -> Result<(), NebulaError> {
        self.0 += 1;
        Ok(())
    }
}

fn remote_row(prompt: &str) -> RemoteTrainingRow {
    RemoteTrainingRow {
        prompt: prompt.into(),
        correction: "fixed".into(),
        teacher_score: Some(0.99f32.to_bits()),
        source_node: Some("node-b".into()),
    }
}

#[test]
fn uses_prompt_hash_as_stable_row_id() {
    assert_eq!(deterministic_row_id("same"), deterministic_row_id("same"));
    assert_ne!(deterministic_row_id("same"), deterministic_row_id("other"));
}

#[test]
fn row_id_is_hex_sha256_of_prompt() {
    assert_eq!(
        deterministic_row_id("abc"),
        "ba7816bf8f01cfea414140de5dae2223b00361a396177a9cb410ff61f20015ad"
    );
}

#[test]
fn skips_existing_rows() {
    let existing = deterministic_row_id("p");
    let mut store = Rows { ids: BTreeSet::from([existing]), ..Rows::default() };
    let mut bus = MergeEvents(0);

    let report = merge_remote_rows(&mut store, &mut bus, &[remote_row("p")], 1).unwrap();

    assert_eq!(report.inserted, 0);
    assert_eq!(report.skipped, 1);
    assert_eq!(store.rows.len(), 0);
    assert_eq!(bus.0, 0);
}

#[test]
fn appends_unique_rows_and_triggers_training() {
    let mut store = Rows::default();
    let mut bus = MergeEvents(0);

    let report = merge_remote_rows(&mut store, &mut bus, &[remote_row("p")], 1).unwrap();

    assert_eq!(report.inserted, 1);
    assert_eq!(store.rows.len(), 1);
    assert!(report.training_triggered);
    assert_eq!(bus.0, 1);
}

#[test]
fn merging_the_same_prompt_twice_lands_once_and_triggers_once() {
    let mut store = Rows::default();
    let mut bus = MergeEvents(0);
    let report =
        merge_remote_rows(&mut store, &mut bus, &[remote_row("p"), remote_row("q"), remote_row("p")], 1).unwrap();
    assert_eq!(report.inserted, 2);
    assert_eq!(report.skipped, 1);
    assert_eq!(report.total, 2);
    assert_eq!(bus.0, 1);
}

struct Registry;

impl TenantRegistry for Registry {
    fn lookup_tenant_uuid(&self, raw_id: &str) -> Result<Option<TenantId>, NebulaError> {
        Ok((raw_id == "acme").then(|| deterministic_test_tenant(raw_id)))
    }

    fn tenant_row_count(&self, _tenant_id: TenantId) -> Result<usize, NebulaError> {
        Ok(42)
    }
}

#[test]
fn resolves_only_registered_tenants() {
    assert!(resolve_tenant("acme", &Registry).is_ok());
    assert!(matches!(resolve_tenant("acme/prod", &Registry), Err(TenantError::Unregistered(_))));
}

#[test]
fn resolve_trims_and_refuses_blank_ids() {
    assert_eq!(resolve_tenant("  acme \n", &Registry), Ok(deterministic_test_tenant("acme")));
    assert_eq!(resolve_tenant("   ", &Registry), Err(TenantError::Empty));
    assert_eq!(
        resolve_tenant("acme/prod", &Registry).unwrap_err().message(),
        "tenant id is not registered: acme/prod"
    );
}

#[test]
fn tenant_id_renders_and_parses_back() {
    let t = deterministic_test_tenant("acme");
    let text = t.to_hyphenated();
    assert_eq!(text.len(), 36);
    assert_eq!(TenantId::parse(&text), Some(t));
    assert_eq!(TenantId::parse("acme"), None);
}

#[test]
fn routes_registered_payload_into_golden_replay_batch() {
    let routed = route_tenant_triplet_with_registry(
        TelemetryTriplet {
            prompt: "Write safe Rust file IO".into(),
            answer: "Return Result from read_to_string".into(),
            context: vec![("x-tenant-id".into(), "acme".into())],
        },
        &TenantRouterConfig::default(),
        &Registry,
    )
    .unwrap()
    .unwrap();

    let mut store = Golden::default();
    let promoted = promote_if_stable(
        &mut store,
        CandidateRow {
            prompt: routed.payload.prompt.clone(),
            answer: routed.payload.answer.clone(),
            tenant_id: routed.tenant_id.to_hyphenated(),
            days_in_production: 8,
            rollback_count: 0,
            drift_count: 0,
        },
    )
    .unwrap()
    .unwrap();

    let live = vec![TrainingExample {
        prompt: "live".into(),
        answer: "answer".into(),
        source: ExampleSource::Direct,
        context: format!("{{\"tenant_id\":\"{}\"}}", routed.tenant_id.to_hyphenated()),
    }];
    let golden = vec![GoldenTrainingRow {
        prompt: promoted.prompt,
        answer: promoted.answer,
        vector_score: 1.0f32.to_bits(),
        locked: true,
    }];

    let batch = mix_with_golden(&live, &golden, ReplayConfig { live_rows: 1, golden_rows: 1 });

    assert_eq!(batch.len(), 2);
    assert_eq!(batch[1].prompt, "Write safe Rust file IO");
}

#[test]
fn routes_registered_tenant() {
    let routed = route_tenant_triplet_with_registry(
        TelemetryTriplet {
            prompt: "p".into(),
            answer: "a".into(),
            context: vec![("x-tenant-id".into(), "acme".into())],
        },
        &TenantRouterConfig::default(),
        &Registry,
    )
    .unwrap()
    .unwrap();

    assert_eq!(routed.tenant_id, deterministic_test_tenant("acme"));
}

#[test]
fn drops_unregistered_tenant() {
    let routed = route_tenant_triplet_with_registry(
        TelemetryTriplet {
            prompt: "p".into(),
            answer: "a".into(),
            context: vec![("x-tenant-id".into(), "acme/prod".into())],
        },
        &TenantRouterConfig::default(),
        &Registry,
    )
    .unwrap();

    assert!(routed.is_none());
}

#[test]
fn drops_everything_when_registration_is_not_required() {
    let routed = route_tenant_triplet_with_registry(
        TelemetryTriplet {
            prompt: "p".into(),
            answer: "a".into(),
            context: vec![("x-tenant-id".into(), "acme".into())],
        },
        &TenantRouterConfig { require_registered_tenant: false },
        &Registry,
    )
    .unwrap();
    assert!(routed.is_none());
}

#[test]
fn test_tenants_are_version_five_url_uuids() {
    assert_eq!(deterministic_test_tenant("acme").to_hyphenated(), "84bd48b5-f596-5ad0-9543-02fa8b841fab");
}

#[test]
fn json_lines_escape_strings() {
    let mut volume = Volume(Vec::new());
    let mut index = Index(Vec::new());
    append_preference_example(
        &mut volume,
        &mut index,
        PreferenceExample {
            prompt: "say \"hi\"\nnow".into(),
            chosen: "tab\there".into(),
            rejected: "back\\slash".into(),
            tenant_id: None,
            context: "{\"k\":1}".into(),
        },
    )
    .unwrap();
    let parsed: serde_json::Value = serde_json::from_str(&volume.0[0]).unwrap();
    assert_eq!(parsed["prompt"], "say \"hi\"\nnow");
    assert_eq!(parsed["chosen"], "tab\there");
    assert_eq!(parsed["rejected"], "back\\slash");
    assert_eq!(parsed["tenant_id"], serde_json::Value::Null);
    assert_eq!(parsed["context"]["k"], 1);
}
