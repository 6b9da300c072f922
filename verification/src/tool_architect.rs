//! The tool architect: asks the tier-3 model for a Wasm component and
//! extracts the generated `src/lib.rs` and `Cargo.toml` from its answer.

use vstd::prelude::*;
use crate::error::NebulaError;
use crate::text::{
    append_str, chars_of, find_exec, find_from, owned, string_of_range, trim, trim_bounds,
};

verus! {

pub const INPUT_TOPIC: &'static str = "nebula.eval.missing_tool_detected";

/// A missing capability reported by the evaluators.
#[derive(Debug, Clone, PartialEq, Eq)]
pub struct MissingToolEvent {
    pub capability: String,
    pub prompt: String,
    pub wit_context: String,
}

/// The sources of a generated tool.
#[derive(Debug, Clone, PartialEq, Eq)]
pub struct GeneratedTool {
    pub name: String,
    pub lib_rs: String,
    pub cargo_toml: String,
}

/// The tier-3 model.
pub trait Tier3Model {
    fn generate_tool(&self, prompt: &str) -> Result<String, NebulaError>;
}

/// `generate_tool`, called on `model` with `prompt`, may answer `answer`.
#[verifier::inline]
pub open spec fn tool_generated<M: Tier3Model>(model: &M, prompt: &str, answer: Result<String, NebulaError>) -> bool {
    call_ensures(M::generate_tool, (model, prompt), answer)
}

/// The prompt asking for a Wasm component for a missing capability.
pub open spec fn tool_prompt(e: MissingToolEvent) -> Seq<char> {
    "Generate a Rust Wasm component for capability '"@ + e.capability@ + "'.\nWIT context:\n"@
        + e.wit_context@ + "\nUser need:\n"@ + e.prompt@
}

/// The prompt asking for a Wasm component for a missing capability.
pub fn build_tool_prompt(event: &MissingToolEvent) -> (p: String)
    ensures
        p@ == tool_prompt(*event),
{
    let mut p = owned("Generate a Rust Wasm component for capability '");
    append_str(&mut p, event.capability.as_str());
    append_str(&mut p, "'.\nWIT context:\n");
    append_str(&mut p, event.wit_context.as_str());
    append_str(&mut p, "\nUser need:\n");
    append_str(&mut p, event.prompt.as_str());
    p
}

/// Why a block could not be extracted.
pub enum BlockFailure {
    MissingMarker,
    MissingOpeningFence,
    MissingClosingFence,
}

/// The block that follows `marker` in `s`: after the first `marker`, the
/// first fence opens; the body starts at the first line feed after the
/// fence (or right after the fence when there is none) and ends at the next
/// fence; the body is trimmed.
pub open spec fn extract_block_spec(s: Seq<char>, marker: Seq<char>) -> Result<Seq<char>, BlockFailure> {
    let fence = "```"@;
    match find_from(s, marker, 0) {
        None => Err(BlockFailure::MissingMarker),
        Some(start) => {
            let rest = s.subrange((start + marker.len()) as int, s.len() as int);
            match find_from(rest, fence, 0) {
                None => Err(BlockFailure::MissingOpeningFence),
                Some(f) => {
                    let after = rest.subrange((f + fence.len()) as int, rest.len() as int);
                    let nl: int = match find_from(after, seq!['\n'], 0) {
                        Some(k) => k as int,
                        None => 0,
                    };
                    let body = after.subrange(nl, after.len() as int);
                    match find_from(body, fence, 0) {
                        None => Err(BlockFailure::MissingClosingFence),
                        Some(end) => Ok(trim(body.subrange(0, end as int))),
                    }
                },
            }
        },
    }
}

/// Whether `e` reports the failure `f` for `marker`.
pub open spec fn failure_error(f: BlockFailure, marker: Seq<char>, e: NebulaError) -> bool {
    match f {
        BlockFailure::MissingMarker => e matches NebulaError::MissingBlock(m) && m@ == marker,
        BlockFailure::MissingOpeningFence => e matches NebulaError::MissingOpeningFence(m) && m@
            == marker,
        BlockFailure::MissingClosingFence => e matches NebulaError::MissingClosingFence(m) && m@
            == marker,
    }
}

/// Whether `r` is what extracting `marker` from `response` gives.
pub open spec fn extract_block_result(response: Seq<char>, marker: Seq<char>, r: Result<String, NebulaError>) -> bool {
    match extract_block_spec(response, marker) {
        Ok(b) => r matches Ok(t) && t@ == b,
        Err(f) => r matches Err(e) && failure_error(f, marker, e),
    }
}

/// The suffix `v[lo..]` as a new vector.
fn suffix(v: &Vec<char>, lo: usize) -> (r: Vec<char>)
    requires
        lo <= v.len(),
    ensures
        r@ == v@.subrange(lo as int, v.len() as int),
{
    let mut r: Vec<char> = Vec::new();
    let mut i = lo;
    while i < v.len()
        invariant
            lo <= i <= v.len(),
            r@ == v@.subrange(lo as int, i as int),
        decreases v.len() - i,
    {
        r.push(v[i]);
        i = i + 1;
    }
    r
}

/// Extracts the fenced block that follows `marker` in `response`.
pub fn extract_block(response: &str, marker: &str) -> (r: Result<String, NebulaError>)
    ensures
        extract_block_result(response@, marker@, r),
{
    let s = chars_of(response);
    let m = chars_of(marker);
    let fence = chars_of("```");
    let newline: Vec<char> = vec!['\n'];
    assert(newline@ =~= seq!['\n']);
    let start = match find_exec(&s, &m, 0) {
        Some(k) => k,
        None => return Err(NebulaError::MissingBlock(owned(marker))),
    };
    proof {
        crate::text::lemma_find_from(s@, m@, 0);
        assert(crate::text::occurs_at(s@, m@, start as int));
        assert(start + m@.len() <= s@.len());
    }
    let mlen = m.len();
    assert(start + mlen <= s.len());
    let rest = suffix(&s, start + mlen);
    let f = match find_exec(&rest, &fence, 0) {
        Some(k) => k,
        None => return Err(NebulaError::MissingOpeningFence(owned(marker))),
    };
    proof {
        crate::text::lemma_find_from(rest@, fence@, 0);
    }
    let after = suffix(&rest, f + fence.len());
    let nl = match find_exec(&after, &newline, 0) {
        Some(k) => k,
        None => 0,
    };
    proof {
        crate::text::lemma_find_from(after@, newline@, 0);
    }
    let body = suffix(&after, nl);
    let end = match find_exec(&body, &fence, 0) {
        Some(k) => k,
        None => return Err(NebulaError::MissingClosingFence(owned(marker))),
    };
    proof {
        crate::text::lemma_find_from(body@, fence@, 0);
    }
    let mut inner: Vec<char> = Vec::new();
    let mut i: usize = 0;
    while i < end
        invariant
            end <= body.len(),
            i <= end,
            inner@ == body@.subrange(0, i as int),
        decreases end - i,
    {
        inner.push(body[i]);
        i = i + 1;
    }
    let (lo, hi) = trim_bounds(&inner);
    Ok(string_of_range(&inner, lo, hi))
}

/// The generated tool named `name` from the model's response, or why not.
pub open spec fn generated_tool_result(name: Seq<char>, response: Seq<char>, r: Result<GeneratedTool, NebulaError>) -> bool {
    match extract_block_spec(response, "src/lib.rs"@) {
        Err(f) => r matches Err(e) && failure_error(f, "src/lib.rs"@, e),
        Ok(lib) => match extract_block_spec(response, "Cargo.toml"@) {
            Err(f) => r matches Err(e) && failure_error(f, "Cargo.toml"@, e),
            Ok(toml) => r matches Ok(t) && t.name@ == name && t.lib_rs@ == lib && t.cargo_toml@
                == toml,
        },
    }
}

/// Extracts the `src/lib.rs` and `Cargo.toml` blocks of a model response.
pub fn extract_generated_tool(name: &str, response: &str) -> (r: Result<GeneratedTool, NebulaError>)
    ensures
        generated_tool_result(name@, response@, r),
{
    let lib_rs = match extract_block(response, "src/lib.rs") {
        Ok(b) => b,
        Err(e) => return Err(e),
    };
    let cargo_toml = match extract_block(response, "Cargo.toml") {
        Ok(b) => b,
        Err(e) => return Err(e),
    };
    Ok(GeneratedTool { name: owned(name), lib_rs, cargo_toml })
}

/// Asks the model for a component for the missing capability and extracts
/// its sources; the tool is named after the capability.
pub fn architect_tool<M: Tier3Model>(model: &M, event: &MissingToolEvent) -> (r: Result<
    GeneratedTool,
    NebulaError,
>)
    ensures
        r matches Ok(t) ==> t.name@ == event.capability@,
        r is Ok ==> exists|response: Seq<char>|
            generated_tool_result(event.capability@, response, r),
        exists|prompt: &str, answer: Result<String, NebulaError>|
            #[trigger] tool_generated(model, prompt, answer) && prompt@ == tool_prompt(*event)
                && match answer {
                Err(e) => r == Err::<GeneratedTool, NebulaError>(e),
                Ok(response) => generated_tool_result(event.capability@, response@, r),
            },
{
    let prompt = build_tool_prompt(event);
    let response = model.generate_tool(prompt.as_str())?;
    let r = extract_generated_tool(event.capability.as_str(), response.as_str());
    assert(generated_tool_result(event.capability@, response@, r));
    r
}

} // verus!
