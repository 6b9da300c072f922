//! The tool-gap gate: decides what happens when the swarm reports a missing
//! tool, according to the synthesis mode and the allowed WIT imports.

use vstd::prelude::*;
use crate::text::{append_str, owned};

verus! {

pub const MISSING_TOOL_TOPIC: &'static str = "nebula.telemetry.missing_tool";
pub const APPROVAL_REQUIRED_TOPIC: &'static str = "nebula.foundry.approval_required";

/// How far tool synthesis may proceed on its own.
#[derive(Debug, Clone, Copy, PartialEq, Eq)]
pub enum SynthesisMode {
    Disabled,
    HumanInLoop,
    FullyAutonomous,
}

/// Tool synthesis settings.
#[derive(Debug, Clone, PartialEq, Eq)]
pub struct ToolSynthesisConfig {
    pub mode: SynthesisMode,
    pub max_retries: u8,
    pub allowed_wit_imports: Vec<String>,
}

/// A report that a capability is missing, with the WIT imports a tool for it needs.
#[derive(Debug, Clone, PartialEq, Eq)]
pub struct MissingToolSignal {
    pub capability: String,
    pub wit_imports: Vec<String>,
}

/// What to do about a missing tool.
#[derive(Debug, Clone, PartialEq, Eq)]
pub enum GateDecision {
    EmitMissingTool,
    ApprovalRequired,
    AutoBuild,
    Reject(String),
}

/// Whether `s` is among the views of `allowed`.
pub open spec fn is_allowed(allowed: Seq<String>, s: Seq<char>) -> bool {
    exists|j: int| 0 <= j < allowed.len() && allowed[j]@ == s
}

/// The index of the first import that is not allowed.
pub open spec fn first_disallowed(imports: Seq<String>, allowed: Seq<String>, from: nat) -> Option<nat>
    decreases imports.len() - from,
{
    if from >= imports.len() {
        None
    } else if !is_allowed(allowed, imports[from as int]@) {
        Some(from)
    } else {
        first_disallowed(imports, allowed, from + 1)
    }
}

/// The decision on a missing tool: a rejection naming the first import that
/// is not allowed; otherwise what the configured mode decides.
pub open spec fn gate_decision_ok(config: ToolSynthesisConfig, signal: MissingToolSignal, d: GateDecision) -> bool {
    match first_disallowed(signal.wit_imports@, config.allowed_wit_imports@, 0) {
        Some(i) => d matches GateDecision::Reject(msg) && msg@ == "WIT import not allowed: "@
            + signal.wit_imports@[i as int]@,
        None => d == match config.mode {
            SynthesisMode::Disabled => GateDecision::EmitMissingTool,
            SynthesisMode::HumanInLoop => GateDecision::ApprovalRequired,
            SynthesisMode::FullyAutonomous => GateDecision::AutoBuild,
        },
    }
}

/// Whether `s` is among `allowed`.
fn contains_string(allowed: &Vec<String>, s: &String) -> (b: bool)
    ensures
        b == is_allowed(allowed@, s@),
{
    let mut j: usize = 0;
    while j < allowed.len()
        invariant
            j <= allowed.len(),
            forall|k: int| 0 <= k < j ==> allowed@[k]@ != s@,
        decreases allowed.len() - j,
    {
        if allowed[j] == *s {
            return true;
        }
        j = j + 1;
    }
    false
}

/// Decides what to do about a missing tool.
pub fn evaluate_gate(config: &ToolSynthesisConfig, signal: &MissingToolSignal) -> (d: GateDecision)
    ensures
        gate_decision_ok(*config, *signal, d),
{
    let mut i: usize = 0;
    while i < signal.wit_imports.len()
        invariant
            i <= signal.wit_imports.len(),
            first_disallowed(signal.wit_imports@, config.allowed_wit_imports@, 0)
                == first_disallowed(signal.wit_imports@, config.allowed_wit_imports@, i as nat),
        decreases signal.wit_imports.len() - i,
    {
        if !contains_string(&config.allowed_wit_imports, &signal.wit_imports[i]) {
            let mut msg = owned("WIT import not allowed: ");
            append_str(&mut msg, signal.wit_imports[i].as_str());
            return GateDecision::Reject(msg);
        }
        i = i + 1;
    }
    match config.mode {
        SynthesisMode::Disabled => GateDecision::EmitMissingTool,
        SynthesisMode::HumanInLoop => GateDecision::ApprovalRequired,
        SynthesisMode::FullyAutonomous => GateDecision::AutoBuild,
    }
}

} // verus!
