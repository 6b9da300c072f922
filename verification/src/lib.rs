use vstd::prelude::*;

pub mod anonymizer;
pub mod crdt_merger;
pub mod curriculum;
pub mod dataset_forge;
pub mod deployment_policy;
pub mod divergence_aggregator;
pub mod doc_parser;
pub mod dpo_judge;
pub mod drift_monitor;
pub mod economic_governor;
pub mod error;
pub mod eval_ast;
pub mod golden_dataset;
pub mod hashing;
pub mod jsonl;
pub mod lora_validator;
pub mod order;
pub mod p2p_sync;
pub mod ports;
pub mod quantization;
pub mod redis_budget;
pub mod semantic_chunker;
pub mod teacher_arbitrator;
pub mod telemetry_gateway;
pub mod tenant_core;
pub mod tenant_router;
pub mod text;
pub mod tool_architect;
pub mod tool_gap;
pub mod training_orchestrator;
pub mod wasm_foundry;

verus! {
} // verus!
