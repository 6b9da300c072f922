//! Promotion of rows that stayed stable in production into the golden dataset.

use vstd::prelude::*;
use crate::error::NebulaError;
use crate::text::owned;

verus! {

pub const GOLDEN_VECTOR_NAMESPACE: &'static str = "golden_dataset";

/// A row that has run in production.
#[derive(Debug, Clone, PartialEq, Eq)]
pub struct CandidateRow {
    pub prompt: String,
    pub answer: String,
    pub tenant_id: String,
    pub days_in_production: u32,
    pub rollback_count: u32,
    pub drift_count: u32,
}

/// A row of the golden dataset.
#[derive(Debug, Clone, PartialEq, Eq)]
pub struct GoldenRow {
    pub prompt: String,
    pub answer: String,
    pub tenant_id: String,
    pub locked: bool,
    pub vector_namespace: String,
}

/// The golden dataset and its vector index.
pub trait GoldenStore {
    fn append(&mut self, row: &GoldenRow) -> Result<(), NebulaError>;

    fn vectorize(&mut self, namespace: &str, row: &GoldenRow) -> Result<(), NebulaError>;
}

/// `append`, called through `store` with `row`, may answer `answer`.
#[verifier::inline]
pub open spec fn golden_appended<S: GoldenStore>(store: &mut S, row: &GoldenRow, answer: Result<(), NebulaError>) -> bool {
    call_ensures(S::append, (store, row), answer)
}

/// `vectorize`, called through `store` with `namespace` and `row`, may
/// answer `answer`.
#[verifier::inline]
pub open spec fn golden_vectorized<S: GoldenStore>(
    store: &mut S,
    namespace: &str,
    row: &GoldenRow,
    answer: Result<(), NebulaError>,
) -> bool {
    call_ensures(S::vectorize, (store, namespace, row), answer)
}

/// A row is stable after more than seven days in production without any
/// rollback or drift.
pub open spec fn is_stable(c: CandidateRow) -> bool {
    c.days_in_production > 7 && c.rollback_count == 0 && c.drift_count == 0
}

/// The golden row a stable candidate becomes: unlocked, in the golden namespace.
pub open spec fn promoted_row(c: CandidateRow, row: GoldenRow) -> bool {
    &&& row.prompt == c.prompt
    &&& row.answer == c.answer
    &&& row.tenant_id == c.tenant_id
    &&& !row.locked
    &&& row.vector_namespace@ == GOLDEN_VECTOR_NAMESPACE@
}

/// Promotes a stable candidate: appends its golden row and vectorizes it in
/// `GOLDEN_VECTOR_NAMESPACE`. An unstable candidate gives `Ok(None)` and
/// touches nothing.
pub fn promote_if_stable<S: GoldenStore>(store: &mut S, candidate: CandidateRow) -> (r: Result<
    Option<GoldenRow>,
    NebulaError,
>)
    ensures
        !is_stable(candidate) ==> r == Ok::<Option<GoldenRow>, NebulaError>(None),
        r matches Ok(Some(row)) ==> is_stable(candidate) && promoted_row(candidate, row),
        is_stable(candidate) ==> !(r matches Ok(None)),
        !is_stable(candidate) ==> *final(store) == *old(store),
        is_stable(candidate) ==> exists|
            m1: &mut S,
            row: &GoldenRow,
            appended: Result<(), NebulaError>,
        |
            #[trigger] golden_appended(m1, row, appended) && *m1 == *old(store) && promoted_row(
                candidate,
                *row,
            ) && match appended {
                Err(e) => r == Err::<Option<GoldenRow>, NebulaError>(e) && *final(store) == *final(m1),
                Ok(_) => exists|
                    m2: &mut S,
                    namespace: &str,
                    row2: &GoldenRow,
                    vectorized: Result<(), NebulaError>,
                |
                    #[trigger] golden_vectorized(m2, namespace, row2, vectorized) && *m2 == *final(m1)
                        && *final(m2) == *final(store) && namespace@ == GOLDEN_VECTOR_NAMESPACE@
                        && *row2 == *row && r == (match vectorized {
                        Ok(_) => Ok::<Option<GoldenRow>, NebulaError>(Some(*row)),
                        Err(e) => Err(e),
                    }),
            },
{
    if candidate.days_in_production <= 7 || candidate.rollback_count > 0
        || candidate.drift_count > 0 {
        return Ok(None);
    }
    let row = GoldenRow {
        prompt: candidate.prompt,
        answer: candidate.answer,
        tenant_id: candidate.tenant_id,
        locked: false,
        vector_namespace: owned(GOLDEN_VECTOR_NAMESPACE),
    };
    store.append(&row)?;
    store.vectorize(GOLDEN_VECTOR_NAMESPACE, &row)?;
    Ok(Some(row))
}

} // verus!
