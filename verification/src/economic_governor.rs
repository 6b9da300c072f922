//! The economic governor: estimates the tokens a teacher arbitration will
//! cost, forwards the request and reserves the tokens when the tenant's daily
//! budget allows it, and reconciles the reservation with the exact usage.

use vstd::prelude::*;
use crate::error::NebulaError;
use crate::text::{chars_of, is_whitespace, spec_is_whitespace};

verus! {

pub const FORWARD_TOPIC: &'static str = "nebula.teacher.arbitration.request";
pub const BUDGET_EXHAUSTED_TOPIC: &'static str = "nebula.finops.budget_exhausted";
pub const TOKEN_RESERVED_TOPIC: &'static str = "nebula.finops.token_reserved";

/// A request for a teacher arbitration. `context` holds JSON text.
#[derive(Debug, Clone, PartialEq, Eq)]
pub struct ArbitrationRequest {
    pub tenant_id: String,
    pub prompt: String,
    pub context: String,
}

/// A tenant's daily token budget.
#[derive(Debug, Clone, PartialEq, Eq)]
pub struct TenantBudget {
    pub tenant_id: String,
    pub daily_token_limit: u64,
    pub daily_tokens_used: u64,
}

/// The usage reported after an arbitration.
#[derive(Debug, Clone, PartialEq, Eq)]
pub struct TokenUsageEvent {
    pub tenant_id: String,
    pub estimated_tokens: u64,
    pub exact_tokens: Option<u64>,
}

/// What the governor decided on a request.
#[derive(Debug, Clone, PartialEq, Eq)]
pub enum BudgetDecision {
    Forward { topic: &'static str, reserved_tokens: u64 },
    Exhausted { topic: &'static str, remaining_tokens: u64 },
}

/// The budget store.
pub trait BudgetStore {
    fn load_budget(&self, tenant_id: &str) -> Result<TenantBudget, NebulaError>;

    fn reserve_tokens(&mut self, tenant_id: &str, tokens: u64) -> Result<(), NebulaError>;

    fn reconcile_tokens(&mut self, tenant_id: &str, estimated: u64, exact: u64) -> Result<
        (),
        NebulaError,
    >;
}

/// `load_budget`, called on `store` with `tenant_id`, may answer `answer`.
#[verifier::inline]
pub open spec fn budget_loaded<S: BudgetStore>(store: &S, tenant_id: &str, answer: Result<
    TenantBudget,
    NebulaError,
>) -> bool {
    call_ensures(S::load_budget, (store, tenant_id), answer)
}

/// `reserve_tokens`, called through `store` with `tenant_id` and `tokens`,
/// may answer `answer`.
#[verifier::inline]
pub open spec fn tokens_reserved<S: BudgetStore>(
    store: &mut S,
    tenant_id: &str,
    tokens: u64,
    answer: Result<(), NebulaError>,
) -> bool {
    call_ensures(S::reserve_tokens, (store, tenant_id, tokens), answer)
}

/// `reconcile_tokens`, called through `store` with `tenant_id`, `estimated`
/// and `exact`, may answer `answer`.
#[verifier::inline]
pub open spec fn tokens_reconciled<S: BudgetStore>(
    store: &mut S,
    tenant_id: &str,
    estimated: u64,
    exact: u64,
    answer: Result<(), NebulaError>,
) -> bool {
    call_ensures(S::reconcile_tokens, (store, tenant_id, estimated, exact), answer)
}

// ---------------------------------------------------------------------------
// Token estimate
// ---------------------------------------------------------------------------

/// The number of whitespace-separated words of `s` (as
/// `str::split_whitespace` counts them).
pub open spec fn word_count(s: Seq<char>) -> nat
    decreases s.len(),
{
    if s.len() == 0 {
        0
    } else {
        word_count(s.drop_last()) + if !spec_is_whitespace(s.last()) && (s.len() == 1
            || spec_is_whitespace(s[s.len() - 2])) {
            1nat
        } else {
            0nat
        }
    }
}

/// The token estimate of a text: the larger of its word count and a quarter
/// of its characters (rounded up), and at least one.
pub open spec fn estimate_spec(s: Seq<char>) -> nat {
    let words = word_count(s);
    let quarter = (s.len() + 3) / 4;
    let m = if words >= quarter { words } else { quarter };
    if m >= 1 { m } else { 1 }
}

/// The token estimate of a text.
pub fn estimate_tokens(text: &str) -> (n: u64)
    ensures
        n == estimate_spec(text@),
{
    let chars = chars_of(text);
    let mut words: u64 = 0;
    let mut i: usize = 0;
    while i < chars.len()
        invariant
            i <= chars@.len(),
            words == word_count(chars@.take(i as int)),
            words <= i,
        decreases chars.len() - i,
    {
        proof {
            let t = chars@.take(i + 1);
            assert(t.drop_last() =~= chars@.take(i as int));
            assert(t.last() == chars@[i as int]);
            if i > 0 {
                assert(t[t.len() - 2] == chars@[i - 1]);
            }
        }
        if !is_whitespace(chars[i]) && (i == 0 || is_whitespace(chars[i - 1])) {
            words = words + 1;
        }
        i = i + 1;
    }
    assert(chars@.take(chars@.len() as int) =~= chars@);
    let n = chars.len() as u64;
    let quarter: u64 = n / 4 + if n % 4 != 0 { 1 } else { 0 };
    assert(quarter == (chars@.len() + 3) / 4);
    let m = if words >= quarter { words } else { quarter };
    if m >= 1 { m } else { 1 }
}

// ---------------------------------------------------------------------------
// Decisions
// ---------------------------------------------------------------------------

/// The tokens left in a budget (saturating at zero).
pub open spec fn remaining_spec(limit: u64, used: u64) -> u64 {
    if limit >= used { (limit - used) as u64 } else { 0 }
}

/// The decision on a request estimated at `estimated` tokens under a budget:
/// forward and reserve the estimate when it fits in what is left; otherwise
/// report the budget exhausted with what is left.
pub open spec fn is_budget_decision(limit: u64, used: u64, estimated: nat, d: BudgetDecision) -> bool {
    let remaining = remaining_spec(limit, used);
    if estimated > remaining {
        d matches BudgetDecision::Exhausted { topic, remaining_tokens } && topic@
            == BUDGET_EXHAUSTED_TOPIC@ && remaining_tokens == remaining
    } else {
        d matches BudgetDecision::Forward { topic, reserved_tokens } && topic@ == FORWARD_TOPIC@
            && reserved_tokens == estimated
    }
}

/// Whether `d` is the decision on a prompt under some budget.
pub open spec fn is_decision_for(prompt: Seq<char>, d: BudgetDecision) -> bool {
    exists|limit: u64, used: u64| is_budget_decision(limit, used, estimate_spec(prompt), d)
}

/// Loads the tenant's budget and decides on the request; on forward, reserves
/// the estimated tokens first. A failing store ends the call with its error.
pub fn evaluate_budget<S: BudgetStore>(store: &mut S, request: &ArbitrationRequest) -> (r: Result<
    BudgetDecision,
    NebulaError,
>)
    ensures
        exists|t: &str, answer: Result<TenantBudget, NebulaError>|
            #[trigger] budget_loaded(&*old(store), t, answer) && t@ == request.tenant_id@
                && match answer {
                Err(e) => r == Err::<BudgetDecision, NebulaError>(e) && *final(store) == *old(store),
                Ok(b) => {
                    let est = estimate_spec(request.prompt@);
                    if est > remaining_spec(b.daily_token_limit, b.daily_tokens_used) {
                        *final(store) == *old(store) && r == Ok::<BudgetDecision, NebulaError>(
                            BudgetDecision::Exhausted {
                                topic: BUDGET_EXHAUSTED_TOPIC,
                                remaining_tokens: remaining_spec(
                                    b.daily_token_limit,
                                    b.daily_tokens_used,
                                ),
                            },
                        )
                    } else {
                        exists|m: &mut S, t2: &str, tokens: u64, reserved: Result<(), NebulaError>|
                            #[trigger] tokens_reserved(m, t2, tokens, reserved) && tokens == est
                                && *m == *old(store) && *final(m) == *final(store) && t2@
                                == request.tenant_id@ && r == (
                            match reserved {
                                Ok(_) => Ok::<BudgetDecision, NebulaError>(
                                    BudgetDecision::Forward {
                                        topic: FORWARD_TOPIC,
                                        reserved_tokens: est as u64,
                                    },
                                ),
                                Err(e) => Err(e),
                            })
                    }
                },
            },
        r matches Ok(d) ==> is_decision_for(request.prompt@, d),
{
    let budget = store.load_budget(request.tenant_id.as_str())?;
    let estimated = estimate_tokens(request.prompt.as_str());
    let remaining = if budget.daily_token_limit >= budget.daily_tokens_used {
        budget.daily_token_limit - budget.daily_tokens_used
    } else {
        0
    };
    if estimated > remaining {
        let d = BudgetDecision::Exhausted {
            topic: BUDGET_EXHAUSTED_TOPIC,
            remaining_tokens: remaining,
        };
        assert(is_budget_decision(budget.daily_token_limit, budget.daily_tokens_used, estimated as nat, d));
        return Ok(d);
    }
    store.reserve_tokens(request.tenant_id.as_str(), estimated)?;
    let d = BudgetDecision::Forward { topic: FORWARD_TOPIC, reserved_tokens: estimated };
    assert(is_budget_decision(budget.daily_token_limit, budget.daily_tokens_used, estimated as nat, d));
    Ok(d)
}

/// Reconciles a reservation with the exact usage, when the event reports it;
/// an event without exact usage changes nothing.
pub fn reconcile_exact_usage<S: BudgetStore>(store: &mut S, event: &TokenUsageEvent) -> (r: Result<
    (),
    NebulaError,
>)
    ensures
        event.exact_tokens is None ==> r is Ok && *final(store) == *old(store),
        event.exact_tokens matches Some(exact) ==> exists|
            m: &mut S,
            t: &str,
            answer: Result<(), NebulaError>,
        |
            #[trigger] tokens_reconciled(m, t, event.estimated_tokens, exact, answer) && *m
                == *old(store) && *final(m) == *final(store) && t@ == event.tenant_id@ && r
                == answer,
{
    match event.exact_tokens {
        Some(exact) => store.reconcile_tokens(
            event.tenant_id.as_str(),
            event.estimated_tokens,
            exact,
        ),
        None => Ok(()),
    }
}

/// A forwarded request never reserves more than what is left of the budget,
/// and a request is refused only when its estimate exceeds what is left.
pub proof fn law_reservation_within_budget(limit: u64, used: u64, estimated: nat, d: BudgetDecision)
    requires
        is_budget_decision(limit, used, estimated, d),
    ensures
        d matches BudgetDecision::Forward { reserved_tokens, .. } ==> reserved_tokens <= remaining_spec(
            limit,
            used,
        ),
        d matches BudgetDecision::Exhausted { .. } ==> estimated > remaining_spec(limit, used),
        remaining_spec(limit, used) <= limit,
{
}

/// Every text is estimated at one token or more, and at least at its word
/// count and at a quarter of its characters.
pub proof fn law_estimate_bounds(s: Seq<char>)
    ensures
        estimate_spec(s) >= 1,
        estimate_spec(s) >= word_count(s),
        4 * estimate_spec(s) >= s.len(),
{
}

} // verus!
