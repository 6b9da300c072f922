//! The CRDT merger: merges training rows pulled from peer nodes into the local
//! dataset. A row's id is the hex SHA-256 of its prompt, so the same prompt
//! merged twice, from any node, lands once; the training run is triggered the
//! first time the dataset counter reaches the threshold during a merge.

use vstd::prelude::*;
use crate::error::NebulaError;
use crate::ports::call_index;
use crate::hashing::{sha256_hex, sha256_hex_spec};
use crate::text::owned;

verus! {

pub const DATASET_FILE: &'static str = "dataset_v1.jsonl";
pub const TRAINING_READY_TOPIC: &'static str = "nebula.training.ready";

/// A row as a peer sends it. `teacher_score` holds the bits of an `f32`.
#[derive(Debug, Clone, PartialEq, Eq)]
pub struct RemoteTrainingRow {
    pub prompt: String,
    pub correction: String,
    pub teacher_score: Option<u32>,
    pub source_node: Option<String>,
}

/// A row of the local dataset, keyed by `id`. `teacher_score` holds the bits
/// of an `f32`.
#[derive(Debug, Clone, PartialEq, Eq)]
pub struct DatasetRow {
    pub id: String,
    pub prompt: String,
    pub correction: String,
    pub teacher_score: Option<u32>,
    pub source_node: Option<String>,
}

/// A dataset ready for training.
#[derive(Debug, Clone, PartialEq, Eq)]
pub struct TrainingReadyEvent {
    pub dataset_path: String,
    pub examples: usize,
}

/// What a merge did.
#[derive(Debug, Clone, PartialEq, Eq)]
pub struct MergeReport {
    pub inserted: usize,
    pub skipped: usize,
    pub total: usize,
    pub training_triggered: bool,
}

/// The local dataset.
pub trait DatasetStore {
    fn contains_row(&mut self, id: &str) -> Result<bool, NebulaError>;

    fn append_row(&mut self, row: &DatasetRow) -> Result<(), NebulaError>;

    fn increment_counter(&mut self) -> Result<usize, NebulaError>;
}

/// Where the training trigger goes.
pub trait EventBus {
    fn publish_training_ready(&mut self, topic: &str, event: &TrainingReadyEvent) -> Result<
        (),
        NebulaError,
    >;
}

/// `contains_row`, called through `store` with `id`, may answer `answer`.
#[verifier::inline]
pub open spec fn presence_checked<S: DatasetStore>(store: &mut S, id: &str, answer: Result<bool, NebulaError>) -> bool {
    call_ensures(S::contains_row, (store, id), answer)
}

/// `append_row`, called through `store` with `row`, may answer `answer`.
#[verifier::inline]
pub open spec fn row_appended<S: DatasetStore>(store: &mut S, row: &DatasetRow, answer: Result<(), NebulaError>) -> bool {
    call_ensures(S::append_row, (store, row), answer)
}

/// `increment_counter`, called through `store`, may answer `answer`.
#[verifier::inline]
pub open spec fn counter_incremented<S: DatasetStore>(store: &mut S, answer: Result<usize, NebulaError>) -> bool {
    call_ensures(S::increment_counter, (store,), answer)
}

/// `publish_training_ready`, called through `bus` with `topic` and `event`,
/// may answer `answer`.
#[verifier::inline]
pub open spec fn trigger_published<B: EventBus>(
    bus: &mut B,
    topic: &str,
    event: &TrainingReadyEvent,
    answer: Result<(), NebulaError>,
) -> bool {
    call_ensures(B::publish_training_ready, (bus, topic, event), answer)
}

/// The answers of the ports while one row is merged, in call order: whether
/// its id is stored, then the append, the counter and the trigger. An answer
/// to a call that was not made is never used.
pub struct RowAnswers {
    pub present: Result<bool, NebulaError>,
    pub appended: Result<(), NebulaError>,
    pub counted: Result<usize, NebulaError>,
    pub published: Result<(), NebulaError>,
}

/// The report before any row is merged.
pub open spec fn empty_report() -> MergeReport {
    MergeReport { inserted: 0, skipped: 0, total: 0, training_triggered: false }
}

/// The merge of one row given the ports' answers, from the report so far: a
/// stored id skips the row; otherwise the row is appended, the counter's new
/// value becomes the total, and the first time in the merge that it reaches
/// `threshold` the trigger is published. The first failing answer ends the
/// merge with its error.
pub open spec fn merge_step(rep: MergeReport, threshold: usize, a: RowAnswers) -> Result<
    MergeReport,
    NebulaError,
> {
    match a.present {
        Err(e) => Err(e),
        Ok(true) => Ok(
            MergeReport {
                inserted: rep.inserted,
                skipped: (rep.skipped + 1) as usize,
                total: rep.total,
                training_triggered: rep.training_triggered,
            },
        ),
        Ok(false) => match a.appended {
            Err(e) => Err(e),
            Ok(_) => match a.counted {
                Err(e) => Err(e),
                Ok(t) => if t >= threshold && !rep.training_triggered {
                    match a.published {
                        Err(e) => Err(e),
                        Ok(_) => Ok(
                            MergeReport {
                                inserted: (rep.inserted + 1) as usize,
                                skipped: rep.skipped,
                                total: t,
                                training_triggered: true,
                            },
                        ),
                    }
                } else {
                    Ok(
                        MergeReport {
                            inserted: (rep.inserted + 1) as usize,
                            skipped: rep.skipped,
                            total: t,
                            training_triggered: rep.training_triggered,
                        },
                    )
                },
            },
        },
    }
}

/// The outcome of merging rows whose ports gave `answers`, one entry per row
/// in order.
pub open spec fn merge_run(threshold: usize, answers: Seq<RowAnswers>) -> Result<MergeReport, NebulaError>
    decreases answers.len(),
{
    if answers.len() == 0 {
        Ok(empty_report())
    } else {
        match merge_run(threshold, answers.drop_last()) {
            Err(e) => Err(e),
            Ok(rep) => merge_step(rep, threshold, answers.last()),
        }
    }
}

/// Whether merging `row` from the report `rep` made the calls that `a`
/// answers: the presence check on the row's id; when absent, the append of
/// its normalized row, then the counter; and when the counter reaches
/// `threshold` for the first time, the trigger on `TRAINING_READY_TOPIC` for
/// `DATASET_FILE` with the counter's value.
pub open spec fn row_calls<S: DatasetStore, B: EventBus>(
    row: RemoteTrainingRow,
    threshold: usize,
    rep: MergeReport,
    a: RowAnswers,
) -> bool {
    &&& exists|m: &mut S, id: &str|
        #[trigger] presence_checked(m, id, a.present) && id@ == sha256_hex_spec(row.prompt@)
    &&& a.present == Ok::<bool, NebulaError>(false) ==> exists|m: &mut S, stored: &DatasetRow|
        #[trigger] row_appended(m, stored, a.appended) && is_normalized(row, *stored)
    &&& a.present == Ok::<bool, NebulaError>(false) && a.appended is Ok ==> exists|m: &mut S|
        #[trigger] counter_incremented(m, a.counted)
    &&& a.counted matches Ok(t) ==> (a.present == Ok::<bool, NebulaError>(false) && a.appended is Ok
        && t >= threshold && !rep.training_triggered ==> exists|
        mb: &mut B,
        topic: &str,
        ev: &TrainingReadyEvent,
    |
        #[trigger] trigger_published(mb, topic, ev, a.published) && topic@ == TRAINING_READY_TOPIC@
            && ev.dataset_path@ == DATASET_FILE@ && ev.examples == t)
}

/// Whether merging a row from the report `rep` publishes the training
/// trigger: the row was appended, the counter answered a value at or above
/// `threshold`, and no trigger went out earlier in the merge.
pub open spec fn publish_due(rep: MergeReport, threshold: usize, a: RowAnswers) -> bool {
    &&& a.present == Ok::<bool, NebulaError>(false)
    &&& a.appended is Ok
    &&& a.counted is Ok
    &&& a.counted->Ok_0 >= threshold
    &&& !rep.training_triggered
}

/// Whether merging `rows` made the calls that `answers` answer: one entry per
/// row merged, in order, every row before the last merged without failure.
pub open spec fn merges_made<S: DatasetStore, B: EventBus>(
    rows: Seq<RemoteTrainingRow>,
    threshold: usize,
    answers: Seq<RowAnswers>,
) -> bool {
    &&& answers.len() <= rows.len()
    &&& forall|k: int| 0 <= k < answers.len() ==> #[trigger] merged_row::<S, B>(rows, threshold, answers, k)
}

/// Whether row `k` was merged, after the rows before it merged without
/// failure, with the calls that `answers[k]` answers.
pub open spec fn merged_row<S: DatasetStore, B: EventBus>(
    rows: Seq<RemoteTrainingRow>,
    threshold: usize,
    answers: Seq<RowAnswers>,
    k: int,
) -> bool {
    &&& merge_run(threshold, answers.take(k)) is Ok
    &&& row_calls::<S, B>(rows[k], threshold, merge_run(threshold, answers.take(k))->Ok_0, answers[k])
}

/// The id of a row: the lowercase hex SHA-256 of its prompt's UTF-8 bytes.
pub fn deterministic_row_id(prompt: &str) -> (id: String)
    ensures
        id@ == sha256_hex_spec(prompt@),
{
    sha256_hex(prompt)
}

/// Whether `row` is `remote` keyed by its prompt's id.
pub open spec fn is_normalized(remote: RemoteTrainingRow, row: DatasetRow) -> bool {
    &&& row.id@ == sha256_hex_spec(remote.prompt@)
    &&& row.prompt@ == remote.prompt@
    &&& row.correction@ == remote.correction@
    &&& row.teacher_score == remote.teacher_score
    &&& row.source_node == remote.source_node
}

/// The dataset row of a remote row.
pub fn normalize_row(row: &RemoteTrainingRow) -> (r: DatasetRow)
    ensures
        is_normalized(*row, r),
{
    DatasetRow {
        id: deterministic_row_id(row.prompt.as_str()),
        prompt: row.prompt.clone(),
        correction: row.correction.clone(),
        teacher_score: row.teacher_score,
        source_node: match &row.source_node {
            Some(s) => Some(s.clone()),
            None => None,
        },
    }
}

/// Whether a report is consistent with merging `n` rows: every row was
/// inserted or skipped, a report with no insertion carries no total and no
/// trigger.
pub open spec fn is_merge_report(n: nat, report: MergeReport) -> bool {
    &&& report.inserted + report.skipped == n
    &&& report.inserted == 0 ==> report.total == 0 && !report.training_triggered
}

/// Adding the answers for the next row to a merge made without failure
/// keeps the calls made and runs one more step.
proof fn lemma_merge_extend<S: DatasetStore, B: EventBus>(
    rows: Seq<RemoteTrainingRow>,
    threshold: usize,
    answers: Seq<RowAnswers>,
    w: RowAnswers,
)
    requires
        merges_made::<S, B>(rows, threshold, answers),
        answers.len() < rows.len(),
        merge_run(threshold, answers) is Ok,
        row_calls::<S, B>(rows[answers.len() as int], threshold, merge_run(threshold, answers)->Ok_0, w),
    ensures
        merges_made::<S, B>(rows, threshold, answers.push(w)),
        merge_run(threshold, answers.push(w)) == merge_step(merge_run(threshold, answers)->Ok_0, threshold, w),
{
    let all = answers.push(w);
    assert(all.drop_last() =~= answers);
    assert(all.take(answers.len() as int) =~= answers);
    assert forall|k: int| 0 <= k < all.len() implies #[trigger] merged_row::<S, B>(rows, threshold, all, k) by {
        if k < answers.len() {
            assert(all.take(k) =~= answers.take(k));
            assert(all[k] == answers[k]);
            assert(merged_row::<S, B>(rows, threshold, answers, k));
        } else {
            assert(all[k] == w);
        }
    }
    assert(all.len() <= rows.len());
    assert(merges_made::<S, B>(rows, threshold, all));
}

/// Asks the store whether it holds the row `id`.
fn contains_call<S: DatasetStore>(store: &mut S, id: &str) -> (x: Result<bool, NebulaError>)
    ensures
        exists|m: &mut S| *m == *old(store) && *final(m) == *final(store) && #[trigger] presence_checked(m, id, x),
{
    store.contains_row(id)
}

/// Appends a row to the store.
fn append_call<S: DatasetStore>(store: &mut S, row: &DatasetRow) -> (x: Result<(), NebulaError>)
    ensures
        exists|m: &mut S| *m == *old(store) && *final(m) == *final(store) && #[trigger] row_appended(m, row, x),
{
    store.append_row(row)
}

/// Increments the store's row counter.
fn increment_call<S: DatasetStore>(store: &mut S) -> (x: Result<usize, NebulaError>)
    ensures
        exists|m: &mut S| *m == *old(store) && *final(m) == *final(store) && #[trigger] counter_incremented(m, x),
{
    store.increment_counter()
}

/// Publishes the training trigger on `TRAINING_READY_TOPIC`.
fn publish_call<B: EventBus>(bus: &mut B, event: &TrainingReadyEvent) -> (x: Result<(), NebulaError>)
    ensures
        exists|mb: &mut B, topic: &str|
            *mb == *old(bus) && *final(mb) == *final(bus) && #[trigger] trigger_published(mb, topic, event, x)
                && topic@ == TRAINING_READY_TOPIC@,
{
    bus.publish_training_ready(TRAINING_READY_TOPIC, event)
}

/// Merges remote rows into the dataset: skips a row whose id is already
/// stored, otherwise appends it and bumps the counter; the first time in
/// this merge that the counter reaches `threshold`, publishes a training
/// trigger with the counter as its size. A failing port ends the merge with
/// its error.
pub fn merge_remote_rows<S: DatasetStore, B: EventBus>(
    store: &mut S,
    bus: &mut B,
    rows: &[RemoteTrainingRow],
    threshold: usize,
) -> (r: Result<MergeReport, NebulaError>)
    ensures
        r matches Ok(report) ==> is_merge_report(rows@.len(), report),
        rows@.len() == 0 ==> r == Ok::<MergeReport, NebulaError>(
            MergeReport { inserted: 0, skipped: 0, total: 0, training_triggered: false },
        ),
        exists|answers: Seq<RowAnswers>, sstates: Seq<S>, bstates: Seq<B>|
            #![trigger merges_made::<S, B>(rows@, threshold, answers), sstates[0], bstates[0]]
            merges_made::<S, B>(rows@, threshold, answers) && r == merge_run(threshold, answers) && (r is Ok
                ==> answers.len() == rows@.len()) && sstates.len() == answers.len() + 1 && sstates[0]
                == *old(store) && sstates.last() == *final(store) && bstates.len() == answers.len()
                + 1 && bstates[0] == *old(bus) && bstates.last() == *final(bus) && forall|k: int|
                #![trigger call_index(k)]
                call_index(k) && k < answers.len() ==> (exists|m1: &mut S, id: &str|
                    *m1 == sstates[k] && #[trigger] presence_checked(m1, id, answers[k].present) && id@ == sha256_hex_spec(
                        rows@[k].prompt@,
                    ) && (answers[k].present != Ok::<bool, NebulaError>(false) ==> *final(m1) == sstates[k + 1]) && (answers[k].present
                        == Ok::<bool, NebulaError>(false) ==> exists|m2: &mut S, stored: &DatasetRow|
                        *m2 == *final(m1) && #[trigger] row_appended(m2, stored, answers[k].appended) && is_normalized(
                            rows@[k],
                            *stored,
                        ) && (answers[k].appended is Err ==> *final(m2) == sstates[k + 1]) && (answers[k].appended is Ok ==> exists|
                            m3: &mut S,
                        |
                            *m3 == *final(m2) && *final(m3) == sstates[k + 1] && #[trigger] counter_incremented(
                                m3,
                                answers[k].counted,
                            ))))
                    && (publish_due(merge_run(threshold, answers.take(k))->Ok_0, threshold, answers[k]) ==> exists|
                        mb: &mut B,
                        topic: &str,
                        ev: &TrainingReadyEvent,
                    |
                        *mb == bstates[k] && *final(mb) == bstates[k + 1] && #[trigger] trigger_published(
                            mb,
                            topic,
                            ev,
                            answers[k].published,
                        ) && topic@ == TRAINING_READY_TOPIC@ && ev.dataset_path@ == DATASET_FILE@ && Ok::<
                            usize,
                            NebulaError,
                        >(ev.examples) == answers[k].counted)
                    && (!publish_due(merge_run(threshold, answers.take(k))->Ok_0, threshold, answers[k]) ==> bstates[k + 1] == bstates[k]),
{
    let mut inserted: usize = 0;
    let mut skipped: usize = 0;
    let mut total: usize = 0;
    let mut training_triggered = false;
    let mut i: usize = 0;
    let ghost mut answers: Seq<RowAnswers> = Seq::empty();
    let ghost mut sstates: Seq<S> = seq![*store];
    let ghost mut bstates: Seq<B> = seq![*bus];
    while i < rows.len()
        invariant
            i <= rows@.len(),
            inserted + skipped == i,
            inserted == 0 ==> total == 0 && !training_triggered,
            answers.len() == i,
            merge_run(threshold, answers) == Ok::<MergeReport, NebulaError>(
                MergeReport { inserted, skipped, total, training_triggered },
            ),
            merges_made::<S, B>(rows@, threshold, answers),
            sstates.len() == i + 1,
            sstates[0] == *old(store),
            sstates.last() == *store,
            bstates.len() == i + 1,
            bstates[0] == *old(bus),
            bstates.last() == *bus,
            forall|k: int|
                #![trigger call_index(k)]
                call_index(k) && k < i ==> (exists|m1: &mut S, id: &str|
                    *m1 == sstates[k] && #[trigger] presence_checked(m1, id, answers[k].present) && id@ == sha256_hex_spec(
                        rows@[k].prompt@,
                    ) && (answers[k].present != Ok::<bool, NebulaError>(false) ==> *final(m1) == sstates[k + 1]) && (answers[k].present
                        == Ok::<bool, NebulaError>(false) ==> exists|m2: &mut S, stored: &DatasetRow|
                        *m2 == *final(m1) && #[trigger] row_appended(m2, stored, answers[k].appended) && is_normalized(
                            rows@[k],
                            *stored,
                        ) && (answers[k].appended is Err ==> *final(m2) == sstates[k + 1]) && (answers[k].appended is Ok ==> exists|
                            m3: &mut S,
                        |
                            *m3 == *final(m2) && *final(m3) == sstates[k + 1] && #[trigger] counter_incremented(
                                m3,
                                answers[k].counted,
                            ))))
                    && (publish_due(merge_run(threshold, answers.take(k))->Ok_0, threshold, answers[k]) ==> exists|
                        mb: &mut B,
                        topic: &str,
                        ev: &TrainingReadyEvent,
                    |
                        *mb == bstates[k] && *final(mb) == bstates[k + 1] && #[trigger] trigger_published(
                            mb,
                            topic,
                            ev,
                            answers[k].published,
                        ) && topic@ == TRAINING_READY_TOPIC@ && ev.dataset_path@ == DATASET_FILE@ && Ok::<
                            usize,
                            NebulaError,
                        >(ev.examples) == answers[k].counted)
                    && (!publish_due(merge_run(threshold, answers.take(k))->Ok_0, threshold, answers[k]) ==> bstates[k + 1] == bstates[k]),
        decreases rows.len() - i,
    {
        let normalized = normalize_row(&rows[i]);
        let ghost rep = MergeReport { inserted, skipped, total, training_triggered };
        let ghost spre = *store;
        let ghost bpre = *bus;
        let present = contains_call(store, normalized.id.as_str());
        let ghost s1 = *store;
        let ghost mut s2 = *store;
        let ghost mut w = RowAnswers {
            present,
            appended: Ok(()),
            counted: Ok(0),
            published: Ok(()),
        };
        let mut failed: Option<NebulaError> = None;
        match present {
            Err(e) => {
                failed = Some(e);
            },
            Ok(true) => {
                skipped = skipped + 1;
            },
            Ok(false) => {
                let appended = append_call(store, &normalized);
                proof {
                    s2 = *store;
                    w = RowAnswers { present, appended, counted: Ok(0), published: Ok(()) };
                }
                match appended {
                    Err(e) => {
                        failed = Some(e);
                    },
                    Ok(_) => {
                        let counted = increment_call(store);
                        proof {
                            w = RowAnswers { present, appended, counted, published: Ok(()) };
                        }
                        match counted {
                            Err(e) => {
                                failed = Some(e);
                            },
                            Ok(t) => {
                                total = t;
                                inserted = inserted + 1;
                                if total >= threshold && !training_triggered {
                                    let event = TrainingReadyEvent {
                                        dataset_path: owned(DATASET_FILE),
                                        examples: total,
                                    };
                                    let published = publish_call(bus, &event);
                                    proof {
                                        w = RowAnswers { present, appended, counted, published };
                                    }
                                    match published {
                                        Err(e) => {
                                            failed = Some(e);
                                        },
                                        Ok(_) => {
                                            training_triggered = true;
                                        },
                                    }
                                }
                            },
                        }
                    },
                }
            },
        }
        proof {
            assert(row_calls::<S, B>(rows@[i as int], threshold, rep, w));
            assert(answers.take(i as int) =~= answers);
            lemma_merge_extend::<S, B>(rows@, threshold, answers, w);
            let old_answers = answers;
            let old_ss = sstates;
            let old_bs = bstates;
            answers = answers.push(w);
            sstates = sstates.push(*store);
            bstates = bstates.push(*bus);
            assert(answers.take(i as int) =~= old_answers);
            assert forall|k: int|
                #![trigger call_index(k)]
                call_index(k) && k < i + 1 implies (exists|m1: &mut S, id: &str|
                    *m1 == sstates[k] && #[trigger] presence_checked(m1, id, answers[k].present) && id@ == sha256_hex_spec(
                        rows@[k].prompt@,
                    ) && (answers[k].present != Ok::<bool, NebulaError>(false) ==> *final(m1) == sstates[k + 1]) && (answers[k].present
                        == Ok::<bool, NebulaError>(false) ==> exists|m2: &mut S, stored: &DatasetRow|
                        *m2 == *final(m1) && #[trigger] row_appended(m2, stored, answers[k].appended) && is_normalized(
                            rows@[k],
                            *stored,
                        ) && (answers[k].appended is Err ==> *final(m2) == sstates[k + 1]) && (answers[k].appended is Ok ==> exists|
                            m3: &mut S,
                        |
                            *m3 == *final(m2) && *final(m3) == sstates[k + 1] && #[trigger] counter_incremented(
                                m3,
                                answers[k].counted,
                            ))))
                    && (publish_due(merge_run(threshold, answers.take(k))->Ok_0, threshold, answers[k]) ==> exists|
                        mb: &mut B,
                        topic: &str,
                        ev: &TrainingReadyEvent,
                    |
                        *mb == bstates[k] && *final(mb) == bstates[k + 1] && #[trigger] trigger_published(
                            mb,
                            topic,
                            ev,
                            answers[k].published,
                        ) && topic@ == TRAINING_READY_TOPIC@ && ev.dataset_path@ == DATASET_FILE@ && Ok::<
                            usize,
                            NebulaError,
                        >(ev.examples) == answers[k].counted)
                    && (!publish_due(merge_run(threshold, answers.take(k))->Ok_0, threshold, answers[k]) ==> bstates[k + 1] == bstates[k]) by {
                if k < i {
                    assert(sstates[k] == old_ss[k] && sstates[k + 1] == old_ss[k + 1]
                        && bstates[k] == old_bs[k] && bstates[k + 1] == old_bs[k + 1]
                        && answers[k] == old_answers[k]);
                    assert(answers.take(k) =~= old_answers.take(k));
                } else {
                    assert(sstates[k] == spre && sstates[k + 1] == *store && bstates[k] == bpre
                        && bstates[k + 1] == *bus && answers[k] == w);
                }
            }
            assert(sstates.len() == answers.len() + 1 && sstates[0] == *old(store));
            assert(bstates.len() == answers.len() + 1 && bstates[0] == *old(bus));
        }
        if let Some(e) = failed {
            return Err(e);
        }
        i = i + 1;
    }
    Ok(MergeReport { inserted, skipped, total, training_triggered })
}

} // verus!
