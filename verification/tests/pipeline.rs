use nebula::doc_parser::{
    ingest_file, looks_like_heading, parse_document_to_markdown, EventBus as DocBus,
    FileUpdatedEvent, MarkdownReadyEvent as DocMarkdown, WebDavClient,
};
use nebula::error::NebulaError;
use nebula::quantization::{
    compact, quantize_validated_artifact, variant_path, DeterministicQuantizer,
    EventBus as QuantBus, QuantizationCompletedEvent as QuantCompleted, QuantizationFormat,
    Quantizer, ValidationSuccessEvent, VolumeStore as ModelVolume,
};
use nebula::semantic_chunker::{
    chunk_embed_and_store, split_markdown, InferenceHost as Embedder, MarkdownReadyEvent,
    VectorRecord, VectorStore,
};
use nebula::tool_architect::{architect_tool, MissingToolEvent, Tier3Model};
use nebula::tool_gap::{evaluate_gate, GateDecision, MissingToolSignal, SynthesisMode, ToolSynthesisConfig};
use nebula::training_orchestrator::{
    build_oci_image_index, handle_training_ready, ArtifactPublisher, OciImageIndex,
    QuantizationCompletedEvent, QuantizedVariant, Trainer, TrainingCompleteEvent, TrainingConfig,
    TrainingReadyEvent, UiNotifier,
};
use nebula::wasm_foundry::{build_tool, cargo_diagnostics_have_error, BuildToolRequest, FoundryRunner};
use std::collections::BTreeMap;

struct Model;

impl Tier3Model for Model {
    fn generate_tool(&self, _prompt: &str) -> Result<String, NebulaError> {
        Ok("src/lib.rs\n```rust\npub fn run() {}\n```\nCargo.toml\n```toml\n[package]\nname=\"tool\"\n```".into())
    }
}

#[test]
fn extracts_generated_source_and_manifest() {
    let tool = architect_tool(
        &Model,
        &MissingToolEvent {
            capability: "lookup".into(),
            prompt: "need lookup".into(),
            wit_context: "world config-ai".into(),
        },
    )
    .unwrap();

    assert!(tool.lib_rs.contains("pub fn run"));
    assert!(tool.cargo_toml.contains("[package]"));
}

#[test]
fn requires_approval_in_human_loop_mode() {
    let decision = evaluate_gate(
        &ToolSynthesisConfig {
            mode: SynthesisMode::HumanInLoop,
            max_retries: 2,
            allowed_wit_imports: vec!["wasi:clocks".into()],
        },
        &MissingToolSignal { capability: "time".into(), wit_imports: vec!["wasi:clocks".into()] },
    );

    assert_eq!(decision, GateDecision::ApprovalRequired);
}

#[test]
fn rejects_imports_outside_the_allow_list() {
    let decision = evaluate_gate(
        &ToolSynthesisConfig {
            mode: SynthesisMode::FullyAutonomous,
            max_retries: 2,
            allowed_wit_imports: vec!["wasi:clocks".into()],
        },
        &MissingToolSignal {
            capability: "net".into(),
            wit_imports: vec!["wasi:clocks".into(), "wasi:sockets".into()],
        },
    );
    assert_eq!(decision, GateDecision::Reject("WIT import not allowed: wasi:sockets".into()));
}

struct TrainerStub;
struct PublisherStub;
struct NotifierStub(bool);

impl Trainer for TrainerStub {
    fn train_lora(&mut self, _dataset_path: &str, _config: &TrainingConfig) -> Result<String, NebulaError> {
        Ok("adapter.safetensors".into())
    }

    fn merge_adapter(&mut self, _adapter_path: &str, config: &TrainingConfig) -> Result<String, NebulaError> {
        Ok(config.output_model.clone())
    }
}

impl ArtifactPublisher for PublisherStub {
    fn publish_with_wkg(&mut self, _model_path: &str, oci_ref: &str) -> Result<String, NebulaError> {
        Ok(oci_ref.into())
    }

    fn publish_index(&mut self, _index: &OciImageIndex) -> Result<String, NebulaError> {
        Ok("oci://localhost:5000/pulsar-models/base:v2".into())
    }
}

impl UiNotifier for NotifierStub {
    fn notify(&mut self, _topic: &str, _event: &TrainingCompleteEvent) -> Result<(), NebulaError> {
        self.0 = true;
        Ok(())
    }
}

#[test]
fn trains_merges_publishes_and_notifies() {
    let mut trainer = TrainerStub;
    let mut publisher = PublisherStub;
    let mut notifier = NotifierStub(false);

    let complete = handle_training_ready(
        &mut trainer,
        &mut publisher,
        &mut notifier,
        TrainingReadyEvent { dataset_path: "dataset_v1.jsonl".into(), examples: 500 },
        TrainingConfig::default(),
    )
    .unwrap();

    assert_eq!(complete.artifact_ref, "oci://localhost:5000/pulsar-models/base:v2");
    assert!(notifier.0);
}

#[test]
fn builds_quantized_oci_index_with_vram_annotations() {
    let event = QuantizationCompletedEvent {
        source_artifact: "fp16".into(),
        output_model: "model.safetensors".into(),
        variants: vec![QuantizedVariant {
            title: "q4_k".into(),
            artifact_ref: "oci://localhost:5000/model:q4_k".into(),
            digest: "sha256:abc".into(),
            size_bytes: 128,
            min_vram_gb: 4,
        }],
    };

    let index = build_oci_image_index(&event, "oci://localhost:5000/model:v3");

    assert_eq!(index.manifests.len(), 1);
    assert_eq!(
        index.manifests[0].annotations,
        vec![
            ("org.opencontainers.image.title".to_string(), "q4_k".to_string()),
            ("tachyon.mesh/min-vram".to_string(), "4GB".to_string())
        ]
    );
}

struct Runner;

impl FoundryRunner for Runner {
    fn build_component(&mut self, _request: &BuildToolRequest) -> Result<Vec<String>, NebulaError> {
        Ok(vec![
            "{\"message\":{\"level\":\"warning\",\"message\":\"contains word error in warning text\"},\"reason\":\"compiler-message\"}"
                .into(),
        ])
    }

    fn push_artifact(&mut self, artifact_ref: &str) -> Result<String, NebulaError> {
        Ok(artifact_ref.into())
    }
}

#[test]
fn builds_and_pushes_wasm_artifact() {
    let response = build_tool(
        &mut Runner,
        BuildToolRequest {
            src_lib_rs: "pub fn run() {}".into(),
            cargo_toml: "[package]\nname=\"tool\"".into(),
            artifact_ref: "oci://localhost:5000/tools/lookup:v1".into(),
        },
    )
    .unwrap();

    assert!(response.success);
    assert_eq!(response.artifact_ref.unwrap(), "oci://localhost:5000/tools/lookup:v1");
}

#[test]
fn detects_only_structured_cargo_errors() {
    assert!(!cargo_diagnostics_have_error(&["plain text error".into()]));
    assert!(cargo_diagnostics_have_error(&["{\"message\":{\"level\":\"error\"}}".into()]));
}

struct Volume {
    source: Vec<u8>,
    writes: BTreeMap<String, Vec<u8>>,
}

struct Announced(Option<QuantCompleted>);

impl ModelVolume for Volume {
    fn read_artifact(&mut self, _artifact_ref: &str) -> Result<Vec<u8>, NebulaError> {
        Ok(self.source.clone())
    }

    fn write_artifact(&mut self, path: &str, bytes: &[u8]) -> Result<String, NebulaError> {
        self.writes.insert(path.into(), bytes.to_vec());
        Ok(format!("oci://localhost:5000/{path}"))
    }
}

impl QuantBus for Announced {
    fn publish(&mut self, _topic: &str, event: &QuantCompleted) -> Result<(), NebulaError> {
        self.0 = Some(event.clone());
        Ok(())
    }
}

#[test]
fn creates_fp16_q8_and_q4_variants() {
    let mut volume = Volume { source: (0..64).collect(), writes: BTreeMap::new() };
    let mut bus = Announced(None);

    let event = quantize_validated_artifact(
        &mut volume,
        &mut DeterministicQuantizer,
        &mut bus,
        ValidationSuccessEvent {
            artifact_ref: "oci://localhost:5000/pulsar:v3".into(),
            output_model: "pulsar-v3.safetensors".into(),
            pass_rate: 1.0f32.to_bits(),
        },
    )
    .unwrap();

    assert_eq!(event.variants.len(), 3);
    assert_eq!(event.variants[0].title, "fp16");
    assert_eq!(event.variants[1].title, "q8_0");
    assert_eq!(event.variants[2].min_vram_gb, 4);
    assert_eq!(volume.writes.len(), 3);
    assert_eq!(bus.0.unwrap(), event);
}

#[test]
fn quantized_variants_sample_the_source() {
    let source: Vec<u8> = (0..10).collect();
    assert_eq!(compact(&source, 4, b"Q4_K"), b"Q4_K\x00\x04".to_vec());
    assert_eq!(compact(&[7u8], 4, b"T"), b"T\x07".to_vec());
    assert_eq!(compact(&[], 2, b"T"), b"T".to_vec());
    let q8 = DeterministicQuantizer.quantize(&source, QuantizationFormat::Q8_0).unwrap();
    assert_eq!(q8, b"Q8_0\x00\x02\x04\x06\x08".to_vec());
    assert_eq!(variant_path("m.safetensors", QuantizationFormat::Q4K), "m.q4_k.safetensors");
    assert_eq!(variant_path("m.bin", QuantizationFormat::Fp16), "m.bin.fp16.safetensors");
    let mut empty = Volume { source: Vec::new(), writes: BTreeMap::new() };
    let result = quantize_validated_artifact(
        &mut empty,
        &mut DeterministicQuantizer,
        &mut Announced(None),
        ValidationSuccessEvent { artifact_ref: "a".into(), output_model: "m".into(), pass_rate: 0 },
    );
    assert_eq!(result, Err(NebulaError::EmptyArtifact));
}

fn markdown_event(markdown: &str) -> MarkdownReadyEvent {
    MarkdownReadyEvent {
        source_path: "/docs/a.md".into(),
        source_sha256: "source".into(),
        markdown_sha256: "markdown".into(),
        markdown: markdown.into(),
    }
}

#[test]
fn keeps_hierarchical_heading_context() {
    let chunks = split_markdown(&markdown_event("# A\n## B\n### C\nParagraph")).unwrap();
    assert_eq!(chunks[0].heading_path, vec!["A", "B", "C"]);
    assert!(chunks[0].text.starts_with("A > B > C"));
}

#[test]
fn a_heading_replaces_its_level_and_deeper() {
    let chunks = split_markdown(&markdown_event("# A\n## B\ntext b\n## C\n  text c  \n\n# D\ntext d")).unwrap();
    assert_eq!(chunks.len(), 3);
    assert_eq!(chunks[0].heading_path, vec!["A", "B"]);
    assert_eq!(chunks[1].heading_path, vec!["A", "C"]);
    assert_eq!(chunks[1].text, "A > C\n\ntext c");
    assert_eq!(chunks[2].heading_path, vec!["D"]);
    assert_eq!(split_markdown(&markdown_event("# Only\n## Headings")), Err(NebulaError::NoSemanticChunks));
    assert_eq!(split_markdown(&markdown_event("#NotAHeading")).unwrap()[0].text, "#NotAHeading");
}

struct Inference;
struct Vectors(usize);

impl Embedder for Inference {
    fn embed(&mut self, _model: &str, text: &str) -> Result<Vec<u32>, NebulaError> {
        Ok(vec![(text.len() as f32).to_bits(), 1.0f32.to_bits()])
    }
}

impl VectorStore for Vectors {
    fn upsert(&mut self, _record: &VectorRecord) -> Result<(), NebulaError> {
        self.0 += 1;
        Ok(())
    }
}

#[test]
fn embeds_and_persists_chunks() {
    let mut inference = Inference;
    let mut store = Vectors(0);

    let records = chunk_embed_and_store(&mut inference, &mut store, markdown_event("# A\nBody")).unwrap();

    assert_eq!(records.len(), 1);
    assert_eq!(store.0, 1);
}

struct Client(Vec<u8>);
struct DocEvents(usize);

impl WebDavClient for Client {
    fn fetch(&mut self, _tunnel_host: &str, _path: &str) -> Result<Vec<u8>, NebulaError> {
        Ok(self.0.clone())
    }
}

impl DocBus for DocEvents {
    fn publish(&mut self, _topic: &str, _event: &DocMarkdown) -> Result<(), NebulaError> {
        self.0 += 1;
        Ok(())
    }
}

#[test]
fn converts_plain_text_to_markdown() {
    let mut client = Client(b"ARCHITECTURE\n\nBody paragraph".to_vec());
    let mut bus = DocEvents(0);
    let output = ingest_file(
        &mut client,
        &mut bus,
        FileUpdatedEvent {
            path: "/docs/a.txt".into(),
            mime_type: "text/plain".into(),
            sha256: "source".into(),
            tunnel_host: "https://webdav.tenant-acme.wormhole.internal".into(),
        },
    )
    .unwrap();

    assert!(output.markdown.starts_with("# ARCHITECTURE"));
    assert_eq!(bus.0, 1);
}

#[test]
fn text_rules_for_headings_and_paragraphs() {
    assert_eq!(
        parse_document_to_markdown(b"  INTRO  \r\nfirst line\n\n\nsecond\n", "application/pdf").unwrap(),
        "# INTRO\n\nfirst line\n\n\nsecond\n"
    );
    assert!(!looks_like_heading("API"));
    assert!(looks_like_heading("API DESIGN"));
    assert!(!looks_like_heading("Api Design"));
    assert_eq!(parse_document_to_markdown(b" \n\t\n", "text/plain"), Err(NebulaError::EmptyDocument));
    assert_eq!(parse_document_to_markdown(b"# kept\n", "text/markdown").unwrap(), "# kept\n");
    assert_eq!(
        parse_document_to_markdown(&[0xff, 0xfe], "text/markdown"),
        Err(NebulaError::InvalidUtf8("invalid utf-8 sequence of 1 bytes from index 0".into()))
    );
    assert_eq!(
        parse_document_to_markdown(b"x", "image/png"),
        Err(NebulaError::UnsupportedMimeType("image/png".into()))
    );
}

#[test]
fn plain_text_is_read_lossily() {
    let markdown = parse_document_to_markdown(b"caf\xff notes", "text/plain").unwrap();
    assert_eq!(markdown, "caf\u{fffd} notes\n");
}
