//! The Wasm foundry: builds a generated tool as a component and pushes it,
//! unless cargo reported an error.

use vstd::prelude::*;
use crate::error::NebulaError;
use crate::jsonl::opt_string_view;

verus! {

/// The arguments of the cargo invocation that builds a component with JSON
/// diagnostics.
pub const CARGO_COMPONENT_BUILD_ARGS: [&'static str; 4] = [
    "component",
    "build",
    "--release",
    "--message-format=json",
];

/// A generated tool to build.
#[derive(Debug, Clone, PartialEq, Eq)]
pub struct BuildToolRequest {
    pub src_lib_rs: String,
    pub cargo_toml: String,
    pub artifact_ref: String,
}

/// The outcome of a build.
#[derive(Debug, Clone, PartialEq, Eq)]
pub struct BuildToolResponse {
    pub artifact_ref: Option<String>,
    pub diagnostics: Vec<String>,
    pub success: bool,
}

/// Builds components and pushes artifacts.
pub trait FoundryRunner {
    fn build_component(&mut self, request: &BuildToolRequest) -> Result<Vec<String>, NebulaError>;

    fn push_artifact(&mut self, artifact_ref: &str) -> Result<String, NebulaError>;
}

/// `build_component`, called through `runner` with `request`, may answer
/// `answer`.
#[verifier::inline]
pub open spec fn component_built<R: FoundryRunner>(
    runner: &mut R,
    request: &BuildToolRequest,
    answer: Result<Vec<String>, NebulaError>,
) -> bool {
    call_ensures(R::build_component, (runner, request), answer)
}

/// `push_artifact`, called through `runner` with `artifact_ref`, may answer
/// `answer`.
#[verifier::inline]
pub open spec fn artifact_pushed<R: FoundryRunner>(
    runner: &mut R,
    artifact_ref: &str,
    answer: Result<String, NebulaError>,
) -> bool {
    call_ensures(R::push_artifact, (runner, artifact_ref), answer)
}

/// The string at `outer.inner` of the JSON document `line`, when `line`
/// parses as JSON, `outer` is a member of the document, `inner` a member of
/// that, and its value is a string.
pub uninterp spec fn spec_json_string_at(line: Seq<char>, outer: Seq<char>, inner: Seq<char>) -> Option<
    Seq<char>,
>;

/// Calls `serde_json::from_str::<serde_json::Value>` on the line and reads
/// the member `inner` of the member `outer` with `Value::get` and
/// `Value::as_str`. The result is named by `spec_json_string_at`.
#[verifier::external_body]
fn json_string_at(line: &str, outer: &str, inner: &str) -> (r: Option<String>)
    ensures
        opt_string_view(r) == spec_json_string_at(line@, outer@, inner@),
{
    let value: serde_json::Value = serde_json::from_str(line).ok()?;
    let found = value.get(outer)?.get(inner)?.as_str()?;
    Some(found.to_string())
}

/// The JSON member that holds a cargo diagnostic's details.
pub const DIAGNOSTIC_MESSAGE_MEMBER: &'static str = "message";

/// The member of a diagnostic's details that holds its level.
pub const DIAGNOSTIC_LEVEL_MEMBER: &'static str = "level";

/// The level of a cargo diagnostic line: the string at `message.level` of
/// the line's JSON, if any.
pub open spec fn diagnostic_level(line: Seq<char>) -> Option<Seq<char>> {
    spec_json_string_at(line, DIAGNOSTIC_MESSAGE_MEMBER@, DIAGNOSTIC_LEVEL_MEMBER@)
}

/// Whether a diagnostic level marks an error.
pub open spec fn is_error_level(level: Option<Seq<char>>) -> bool {
    level == Some("error"@)
}

/// Whether the level read from a diagnostic line is `error`; no level
/// (plain text, or JSON without a string level) never counts.
pub fn level_is_error(level: &Option<String>) -> (b: bool)
    ensures
        b == is_error_level(opt_string_view(*level)),
{
    proof {
        reveal_strlit("error");
    }
    match level {
        Some(l) => crate::text::str_eq(l.as_str(), "error"),
        None => false,
    }
}

/// Whether a cargo diagnostic line is a JSON message at level `error`.
pub open spec fn is_error_diagnostic(line: Seq<char>) -> bool {
    is_error_level(diagnostic_level(line))
}

/// Whether some line is a structured cargo error.
pub open spec fn has_error_diagnostic(lines: Seq<String>) -> bool {
    exists|i: int| 0 <= i < lines.len() && is_error_diagnostic(#[trigger] lines[i]@)
}

/// Whether some line is a structured cargo error; plain text never counts.
pub fn cargo_diagnostics_have_error(lines: &[String]) -> (b: bool)
    ensures
        b == has_error_diagnostic(lines@),
{
    let mut i: usize = 0;
    while i < lines.len()
        invariant
            i <= lines@.len(),
            forall|k: int| 0 <= k < i ==> !is_error_diagnostic(#[trigger] lines@[k]@),
        decreases lines.len() - i,
    {
        let level = json_string_at(
            lines[i].as_str(),
            DIAGNOSTIC_MESSAGE_MEMBER,
            DIAGNOSTIC_LEVEL_MEMBER,
        );
        if level_is_error(&level) {
            return true;
        }
        i = i + 1;
    }
    false
}

/// Builds the tool. When the diagnostics hold a structured error nothing is
/// pushed and the response reports failure with the diagnostics; otherwise
/// the artifact is pushed and the response carries the pushed reference.
pub fn build_tool<R: FoundryRunner>(runner: &mut R, request: BuildToolRequest) -> (r: Result<
    BuildToolResponse,
    NebulaError,
>)
    ensures
        r matches Ok(resp) ==> (resp.success <==> !has_error_diagnostic(resp.diagnostics@)),
        r matches Ok(resp) ==> (resp.success <==> resp.artifact_ref is Some),
        exists|m1: &mut R, sent: &BuildToolRequest, built: Result<Vec<String>, NebulaError>|
            #[trigger] component_built(m1, sent, built) && *m1 == *old(runner) && *sent == request
                && match built {
                Err(e) => r == Err::<BuildToolResponse, NebulaError>(e) && *final(runner) == *final(m1),
                Ok(diagnostics) => if has_error_diagnostic(diagnostics@) {
                    *final(runner) == *final(m1) && (r matches Ok(resp) && resp.artifact_ref is None
                        && resp.diagnostics == diagnostics && !resp.success)
                } else {
                    exists|m2: &mut R, artifact_ref: &str, pushed: Result<String, NebulaError>|
                        #[trigger] artifact_pushed(m2, artifact_ref, pushed) && *m2 == *final(m1)
                            && *final(m2) == *final(runner) && artifact_ref@
                            == request.artifact_ref@ && match pushed {
                            Err(e) => r == Err::<BuildToolResponse, NebulaError>(e),
                            Ok(reference) => r matches Ok(resp) && resp.artifact_ref == Some::<String>(
                                reference,
                            ) && resp.diagnostics == diagnostics && resp.success,
                        }
                },
            },
{
    let diagnostics = runner.build_component(&request)?;
    let found = cargo_diagnostics_have_error(diagnostics.as_slice());
    if found {
        return Ok(BuildToolResponse { artifact_ref: None, diagnostics, success: false });
    }
    let artifact_ref = runner.push_artifact(request.artifact_ref.as_str())?;
    Ok(BuildToolResponse { artifact_ref: Some(artifact_ref), diagnostics, success: true })
}

} // verus!
