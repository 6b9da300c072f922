//! The DPO judge: checks the tier-3 answer against the tenant's
//! constitution and forwards a preference pair whose prompt carries the
//! constitution.

use vstd::prelude::*;
use crate::error::NebulaError;
use crate::text::{append_str, contains_seq, contains_str, join, join_strings, owned, views};

verus! {

/// One rule of a constitution.
#[derive(Debug, Clone, PartialEq, Eq)]
pub struct ConstitutionRule {
    pub id: String,
    pub instruction: String,
    pub forbidden_terms: Vec<String>,
}

/// A request to judge a tier-1 answer against a tier-3 answer.
#[derive(Debug, Clone, PartialEq, Eq)]
pub struct DpoJudgementRequest {
    pub prompt: String,
    pub tier1_answer: String,
    pub tier3_answer: String,
    pub tenant_id: Option<String>,
}

/// A chosen/rejected pair for preference training.
#[derive(Debug, Clone, PartialEq, Eq)]
pub struct PreferencePair {
    pub prompt: String,
    pub chosen: String,
    pub rejected: String,
    pub tenant_id: Option<String>,
}

/// Where constitutions are kept.
pub trait ConstitutionStore {
    fn load_rules(&self, tenant_id: Option<&str>) -> Result<Vec<ConstitutionRule>, NebulaError>;
}

/// Where preference pairs go.
pub trait PreferenceSink {
    fn write_preference(&mut self, pair: PreferencePair) -> Result<(), NebulaError>;
}

/// `load_rules`, called on `store` with `tenant_id`, may answer `answer`.
#[verifier::inline]
pub open spec fn rules_loaded<S: ConstitutionStore>(
    store: &S,
    tenant_id: Option<&str>,
    answer: Result<Vec<ConstitutionRule>, NebulaError>,
) -> bool {
    call_ensures(S::load_rules, (store, tenant_id), answer)
}

/// `write_preference`, called through `sink` with `pair`, may answer
/// `answer`.
#[verifier::inline]
pub open spec fn preference_written<P: PreferenceSink>(
    sink: &mut P,
    pair: PreferencePair,
    answer: Result<(), NebulaError>,
) -> bool {
    call_ensures(P::write_preference, (sink, pair), answer)
}

/// Whether the borrowed tenant id `a` spells the owned one `b`.
pub open spec fn same_tenant(a: Option<&str>, b: Option<String>) -> bool {
    match (a, b) {
        (Some(x), Some(y)) => x@ == y@,
        (None, None) => true,
        _ => false,
    }
}

/// The bullet line of a rule: `- <id>: <instruction>`.
pub open spec fn rule_line(r: ConstitutionRule) -> Seq<char> {
    "- "@ + r.id@ + ": "@ + r.instruction@
}

/// The bullet lines of the rules.
pub open spec fn rule_lines(rules: Seq<ConstitutionRule>) -> Seq<Seq<char>> {
    rules.map_values(|r: ConstitutionRule| rule_line(r))
}

/// The teacher prompt: the constitution's rules, one per line, then the user prompt.
pub open spec fn teacher_prompt(prompt: Seq<char>, rules: Seq<ConstitutionRule>) -> Seq<char> {
    "Constitution:\n"@ + join(rule_lines(rules), "\n"@) + "\n\nUser prompt:\n"@ + prompt
        + "\n\nReturn the safest corrected answer."@
}

/// The teacher prompt carrying the constitution.
pub fn build_teacher_prompt(prompt: &str, rules: &[ConstitutionRule]) -> (p: String)
    ensures
        p@ == teacher_prompt(prompt@, rules@),
{
    let mut lines: Vec<String> = Vec::new();
    let mut i: usize = 0;
    while i < rules.len()
        invariant
            i <= rules@.len(),
            views(lines@) == rule_lines(rules@).take(i as int),
        decreases rules.len() - i,
    {
        let mut line = owned("- ");
        append_str(&mut line, rules[i].id.as_str());
        append_str(&mut line, ": ");
        append_str(&mut line, rules[i].instruction.as_str());
        let ghost before = lines@;
        lines.push(line);
        proof {
            assert(views(lines@) =~= views(before).push(line@));
            assert(rule_lines(rules@).take(i + 1) =~= rule_lines(rules@).take(i as int).push(
                rule_line(rules@[i as int]),
            ));
        }
        i = i + 1;
    }
    assert(rule_lines(rules@).take(rules@.len() as int) =~= rule_lines(rules@));
    let mut p = owned("Constitution:\n");
    append_str(&mut p, join_strings(&lines, "\n").as_str());
    append_str(&mut p, "\n\nUser prompt:\n");
    append_str(&mut p, prompt);
    append_str(&mut p, "\n\nReturn the safest corrected answer.");
    p
}

/// Whether some rule forbids a term that `answer` contains.
pub open spec fn violates(rules: Seq<ConstitutionRule>, answer: Seq<char>) -> bool {
    exists|i: int, j: int|
        0 <= i < rules.len() && 0 <= j < rules[i].forbidden_terms@.len() && contains_seq(
            answer,
            #[trigger] rules[i].forbidden_terms@[j]@,
        )
}

/// The first rule (in order) with a forbidden term that `answer` contains.
pub open spec fn first_violated(rules: Seq<ConstitutionRule>, answer: Seq<char>, i: int) -> bool {
    &&& 0 <= i < rules.len()
    &&& exists|j: int|
        0 <= j < rules[i].forbidden_terms@.len() && contains_seq(
            answer,
            #[trigger] rules[i].forbidden_terms@[j]@,
        )
    &&& forall|k: int, j: int|
        0 <= k < i && 0 <= j < rules[k].forbidden_terms@.len() ==> !contains_seq(
            answer,
            #[trigger] rules[k].forbidden_terms@[j]@,
        )
}

/// The judgement under a loaded constitution: a violation error naming the
/// first rule whose forbidden term the tier-3 answer contains, otherwise the
/// pair with the tier-3 answer chosen, the tier-1 answer rejected and the
/// teacher prompt.
pub open spec fn judgement(rules: Seq<ConstitutionRule>, request: DpoJudgementRequest, r: Result<PreferencePair, NebulaError>) -> bool {
    if violates(rules, request.tier3_answer@) {
        exists|i: int|
            first_violated(rules, request.tier3_answer@, i) && (r matches Err(
                NebulaError::ConstitutionViolation(id),
            ) && id == rules[i].id)
    } else {
        r matches Ok(pair) && pair.prompt@ == teacher_prompt(request.prompt@, rules)
            && pair.chosen == request.tier3_answer && pair.rejected == request.tier1_answer
            && pair.tenant_id == request.tenant_id
    }
}

/// Judges a request under the given constitution.
pub fn judge_with_rules(rules: &Vec<ConstitutionRule>, request: DpoJudgementRequest) -> (r: Result<
    PreferencePair,
    NebulaError,
>)
    ensures
        judgement(rules@, request, r),
{
    let mut i: usize = 0;
    while i < rules.len()
        invariant
            i <= rules@.len(),
            forall|k: int, j: int|
                0 <= k < i && 0 <= j < rules@[k].forbidden_terms@.len() ==> !contains_seq(
                    request.tier3_answer@,
                    #[trigger] rules@[k].forbidden_terms@[j]@,
                ),
        decreases rules.len() - i,
    {
        let terms = &rules[i].forbidden_terms;
        let mut j: usize = 0;
        while j < terms.len()
            invariant
                i < rules@.len(),
                terms == &rules@[i as int].forbidden_terms,
                j <= terms@.len(),
                forall|k: int, jj: int|
                    0 <= k < i && 0 <= jj < rules@[k].forbidden_terms@.len() ==> !contains_seq(
                        request.tier3_answer@,
                        #[trigger] rules@[k].forbidden_terms@[jj]@,
                    ),
                forall|jj: int|
                    0 <= jj < j ==> !contains_seq(request.tier3_answer@, #[trigger] terms@[jj]@),
            decreases terms.len() - j,
        {
            if contains_str(request.tier3_answer.as_str(), terms[j].as_str()) {
                proof {
                    assert(first_violated(rules@, request.tier3_answer@, i as int));
                }
                return Err(NebulaError::ConstitutionViolation(rules[i].id.clone()));
            }
            j = j + 1;
        }
        i = i + 1;
    }
    let prompt = build_teacher_prompt(request.prompt.as_str(), rules.as_slice());
    Ok(PreferencePair {
        prompt,
        chosen: request.tier3_answer,
        rejected: request.tier1_answer,
        tenant_id: request.tenant_id,
    })
}

/// A copy of a pair.
fn copy_pair(p: &PreferencePair) -> (q: PreferencePair)
    ensures
        q == *p,
{
    PreferencePair {
        prompt: p.prompt.clone(),
        chosen: p.chosen.clone(),
        rejected: p.rejected.clone(),
        tenant_id: match &p.tenant_id {
            Some(t) => Some(t.clone()),
            None => None,
        },
    }
}

/// Loads the tenant's constitution, judges the request under it and writes
/// the resulting pair to the sink.
pub fn judge_and_forward<S: ConstitutionStore, P: PreferenceSink>(
    store: &S,
    sink: &mut P,
    request: DpoJudgementRequest,
) -> (r: Result<PreferencePair, NebulaError>)
    ensures
        r is Ok ==> exists|rules: Seq<ConstitutionRule>| judgement(rules, request, r),
        exists|tenant: Option<&str>, loaded: Result<Vec<ConstitutionRule>, NebulaError>|
            #[trigger] rules_loaded(store, tenant, loaded) && same_tenant(tenant, request.tenant_id)
                && match loaded {
                Err(e) => r == Err::<PreferencePair, NebulaError>(e) && *final(sink) == *old(sink),
                Ok(rules) => exists|judged: Result<PreferencePair, NebulaError>|
                    #[trigger] judgement(rules@, request, judged) && match judged {
                        Err(e) => r == Err::<PreferencePair, NebulaError>(e) && *final(sink)
                            == *old(sink),
                        Ok(pair) => exists|
                            m: &mut P,
                            sent: PreferencePair,
                            x: Result<(), NebulaError>,
                        |
                            #[trigger] preference_written(m, sent, x) && *m == *old(sink)
                                && *final(m) == *final(sink) && sent == pair && r == (match x {
                                Ok(_) => Ok::<PreferencePair, NebulaError>(pair),
                                Err(e) => Err(e),
                            }),
                    },
            },
{
    let rules = match &request.tenant_id {
        Some(t) => store.load_rules(Some(t.as_str()))?,
        None => store.load_rules(None)?,
    };
    let judged = judge_with_rules(&rules, request);
    let pair = judged?;
    sink.write_preference(copy_pair(&pair))?;
    Ok(pair)
}

} // verus!
