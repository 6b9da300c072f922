//! The dataset forge: appends training, preference and tool examples as JSON
//! lines, keeps the escalated/direct mix near its 60/40 target, keys an index
//! by prompt digest, signals when enough examples are ready, computes tenant
//! dataset paths, and mixes golden rows into replay batches.

use vstd::prelude::*;
use crate::error::NebulaError;
use crate::hashing::{sha256_hex, sha256_hex_spec, hex, sha256, hex_spec, spec_sha256};
use crate::jsonl::{json_opt, json_opt_string, json_quote, json_quoted};
use crate::tenant_core::{
    resolve_tenant, spec_uuid_parse, tenant_dataset_path_spec,
    tenant_dataset_path_with_prefix_spec, tenant_looked_up, uuid_hyphenated, TenantError, TenantId,
    TenantRegistry,
};
use crate::order::{is_stable_desc_order, stable_desc_order};
use crate::text::{append_str, owned};

verus! {

pub const DATASET_FILE: &'static str = "dataset_v1.jsonl";
pub const PREFERENCE_DATASET_FILE: &'static str = "preference_v1.jsonl";
pub const TOOL_DATASET_FILE: &'static str = "tool_calls_v1.jsonl";
pub const GOLDEN_DATASET_FILE: &'static str = "golden_v1.jsonl";
pub const TRAINING_READY_TOPIC: &'static str = "nebula.training.ready";
pub const DATASET_INDEX_PREFIX: &'static str = "nebula.dataset.index";
pub const TENANT_ROW_QUOTA: usize = 50000;

/// Where a training example came from.
#[derive(Debug, Clone, Copy, PartialEq, Eq)]
pub enum ExampleSource {
    Escalated,
    Direct,
}

/// A supervised example. `context` holds the example's context as JSON text.
#[derive(Debug, Clone, PartialEq, Eq)]
pub struct TrainingExample {
    pub prompt: String,
    pub answer: String,
    pub source: ExampleSource,
    pub context: String,
}

/// A preference triplet. `context` holds JSON text.
#[derive(Debug, Clone, PartialEq, Eq)]
pub struct PreferenceExample {
    pub prompt: String,
    pub chosen: String,
    pub rejected: String,
    pub tenant_id: Option<String>,
    pub context: String,
}

/// A tool-calling example. `tool_schema` and `tool_call` hold JSON text.
#[derive(Debug, Clone, PartialEq, Eq)]
pub struct ToolTrainingExample {
    pub prompt: String,
    pub chosen: String,
    pub rejected: Option<String>,
    pub tool_schema: String,
    pub tool_call: String,
    pub tenant_id: Option<String>,
}

/// A golden row. `vector_score` holds the IEEE-754 bits of the row's `f32`
/// similarity score.
#[derive(Debug, Clone, PartialEq, Eq)]
pub struct GoldenTrainingRow {
    pub prompt: String,
    pub answer: String,
    pub vector_score: u32,
    pub locked: bool,
}

/// How many live and golden rows a replay batch takes.
#[derive(Debug, Clone, Copy, PartialEq, Eq)]
pub struct ReplayConfig {
    pub live_rows: usize,
    pub golden_rows: usize,
}

impl ReplayConfig {
    /// 500 live rows and 100 golden rows.
    pub fn default() -> (c: ReplayConfig)
        ensures
            c.live_rows == 500 && c.golden_rows == 100,
    {
        ReplayConfig { live_rows: 500, golden_rows: 100 }
    }
}

/// Announces that a dataset holds enough examples to train on.
#[derive(Debug, Clone, PartialEq, Eq)]
pub struct TrainingReadyEvent {
    pub dataset_path: String,
    pub examples: usize,
}

/// Numbers of escalated and direct examples in the dataset.
#[derive(Debug, Clone, Copy, Default, PartialEq, Eq)]
pub struct DatasetCounters {
    pub escalated: usize,
    pub direct: usize,
}

impl DatasetCounters {
    /// The number of examples of both sources.
    pub fn total(self) -> (t: usize)
        requires
            self.escalated + self.direct <= usize::MAX,
        ensures
            t == self.escalated + self.direct,
    {
        self.escalated + self.direct
    }
}

/// Persistent counters of the dataset's examples.
pub trait CounterStore {
    fn counters(&self) -> Result<DatasetCounters, NebulaError>;

    fn increment(&mut self, source: &ExampleSource) -> Result<DatasetCounters, NebulaError>;
}

/// The dataset volume.
pub trait VolumeStore {
    fn append_line(&mut self, path: &str, line: &str) -> Result<(), NebulaError>;
}

/// The prompt index.
pub trait IndexStore {
    fn put_index_key(&mut self, key: &str) -> Result<(), NebulaError>;
}

/// Where training-ready events go.
pub trait EventBus {
    fn publish_training_ready(&mut self, topic: &str, event: &TrainingReadyEvent) -> Result<
        (),
        NebulaError,
    >;
}

/// `counters`, called on `store`, may answer `answer`.
#[verifier::inline]
pub open spec fn counters_read<C: CounterStore>(store: &C, answer: Result<DatasetCounters, NebulaError>) -> bool {
    call_ensures(C::counters, (store,), answer)
}

/// `increment`, called through `store` with `source`, may answer `answer`.
#[verifier::inline]
pub open spec fn counters_incremented<C: CounterStore>(
    store: &mut C,
    source: &ExampleSource,
    answer: Result<DatasetCounters, NebulaError>,
) -> bool {
    call_ensures(C::increment, (store, source), answer)
}

/// `append_line`, called through `volume` with `path` and `line`, may answer
/// `answer`.
#[verifier::inline]
pub open spec fn line_appended<V: VolumeStore>(
    volume: &mut V,
    path: &str,
    line: &str,
    answer: Result<(), NebulaError>,
) -> bool {
    call_ensures(V::append_line, (volume, path, line), answer)
}

/// `put_index_key`, called through `index` with `key`, may answer `answer`.
#[verifier::inline]
pub open spec fn index_key_put<I: IndexStore>(index: &mut I, key: &str, answer: Result<(), NebulaError>) -> bool {
    call_ensures(I::put_index_key, (index, key), answer)
}

/// `publish_training_ready`, called through `bus` with `topic` and `event`,
/// may answer `answer`.
#[verifier::inline]
pub open spec fn ready_published<B: EventBus>(
    bus: &mut B,
    topic: &str,
    event: &TrainingReadyEvent,
    answer: Result<(), NebulaError>,
) -> bool {
    call_ensures(B::publish_training_ready, (bus, topic, event), answer)
}

// ---------------------------------------------------------------------------
// Source mix
// ---------------------------------------------------------------------------

/// Whether adding one example of `source` to `c` keeps the mix within ten
/// points of the 60/40 escalated/direct target: after the addition, either
/// fewer than ten examples exist, or at most 70% are escalated and at most
/// 50% are direct (compared as exact fractions).
pub open spec fn ratio_allows_spec(c: DatasetCounters, source: ExampleSource) -> bool {
    let e: int = if source == ExampleSource::Escalated { c.escalated + 1 } else { c.escalated as int };
    let d: int = if source == ExampleSource::Direct { c.direct + 1 } else { c.direct as int };
    let t = e + d;
    t < 10 || (10 * e <= 7 * t && 10 * d <= 5 * t)
}

/// Whether an example of `source` may be added to a dataset with counters `c`.
pub fn ratio_allows(c: DatasetCounters, source: &ExampleSource) -> (b: bool)
    ensures
        b == ratio_allows_spec(c, *source),
{
    let e: u128 = match source {
        ExampleSource::Escalated => c.escalated as u128 + 1,
        ExampleSource::Direct => c.escalated as u128,
    };
    let d: u128 = match source {
        ExampleSource::Direct => c.direct as u128 + 1,
        ExampleSource::Escalated => c.direct as u128,
    };
    let t = e + d;
    if t < 10 {
        return true;
    }
    10 * e <= 7 * t && 10 * d <= 5 * t
}

// ---------------------------------------------------------------------------
// JSON lines and index keys
// ---------------------------------------------------------------------------

/// The name `serde` writes for a source.
pub open spec fn source_name(s: ExampleSource) -> Seq<char> {
    match s {
        ExampleSource::Escalated => "Escalated"@,
        ExampleSource::Direct => "Direct"@,
    }
}

/// The JSON line of a training example, fields in declaration order.
pub open spec fn training_line(e: TrainingExample) -> Seq<char> {
    "{\"prompt\":"@ + json_quoted(e.prompt@) + ",\"answer\":"@ + json_quoted(e.answer@)
        + ",\"source\":"@ + json_quoted(source_name(e.source)) + ",\"context\":"@ + e.context@
        + "}"@
}

/// The JSON line of a training example.
pub fn training_example_line(e: &TrainingExample) -> (line: String)
    ensures
        line@ == training_line(*e),
{
    let mut line = owned("{\"prompt\":");
    append_str(&mut line, json_quote(e.prompt.as_str()).as_str());
    append_str(&mut line, ",\"answer\":");
    append_str(&mut line, json_quote(e.answer.as_str()).as_str());
    append_str(&mut line, ",\"source\":");
    let name = match e.source {
        ExampleSource::Escalated => json_quote("Escalated"),
        ExampleSource::Direct => json_quote("Direct"),
    };
    append_str(&mut line, name.as_str());
    append_str(&mut line, ",\"context\":");
    append_str(&mut line, e.context.as_str());
    append_str(&mut line, "}");
    line
}

/// The optional string of an optional `String`, as a view.
pub open spec fn opt_view(s: Option<String>) -> Option<Seq<char>> {
    match s {
        Some(t) => Some(t@),
        None => None,
    }
}

/// The JSON line of a preference example, fields in declaration order.
pub open spec fn preference_line(e: PreferenceExample) -> Seq<char> {
    "{\"prompt\":"@ + json_quoted(e.prompt@) + ",\"chosen\":"@ + json_quoted(e.chosen@)
        + ",\"rejected\":"@ + json_quoted(e.rejected@) + ",\"tenant_id\":"@ + json_opt_string(
        opt_view(e.tenant_id),
    ) + ",\"context\":"@ + e.context@ + "}"@
}

/// The JSON line of a preference example.
pub fn preference_example_line(e: &PreferenceExample) -> (line: String)
    ensures
        line@ == preference_line(*e),
{
    let mut line = owned("{\"prompt\":");
    append_str(&mut line, json_quote(e.prompt.as_str()).as_str());
    append_str(&mut line, ",\"chosen\":");
    append_str(&mut line, json_quote(e.chosen.as_str()).as_str());
    append_str(&mut line, ",\"rejected\":");
    append_str(&mut line, json_quote(e.rejected.as_str()).as_str());
    append_str(&mut line, ",\"tenant_id\":");
    append_str(&mut line, json_opt(&e.tenant_id).as_str());
    append_str(&mut line, ",\"context\":");
    append_str(&mut line, e.context.as_str());
    append_str(&mut line, "}");
    line
}

/// The JSON line of a tool example, fields in declaration order.
pub open spec fn tool_line(e: ToolTrainingExample) -> Seq<char> {
    "{\"prompt\":"@ + json_quoted(e.prompt@) + ",\"chosen\":"@ + json_quoted(e.chosen@)
        + ",\"rejected\":"@ + json_opt_string(opt_view(e.rejected)) + ",\"tool_schema\":"@
        + e.tool_schema@ + ",\"tool_call\":"@ + e.tool_call@ + ",\"tenant_id\":"@
        + json_opt_string(opt_view(e.tenant_id)) + "}"@
}

/// The JSON line of a tool example.
pub fn tool_example_line(e: &ToolTrainingExample) -> (line: String)
    ensures
        line@ == tool_line(*e),
{
    let mut line = owned("{\"prompt\":");
    append_str(&mut line, json_quote(e.prompt.as_str()).as_str());
    append_str(&mut line, ",\"chosen\":");
    append_str(&mut line, json_quote(e.chosen.as_str()).as_str());
    append_str(&mut line, ",\"rejected\":");
    append_str(&mut line, json_opt(&e.rejected).as_str());
    append_str(&mut line, ",\"tool_schema\":");
    append_str(&mut line, e.tool_schema.as_str());
    append_str(&mut line, ",\"tool_call\":");
    append_str(&mut line, e.tool_call.as_str());
    append_str(&mut line, ",\"tenant_id\":");
    append_str(&mut line, json_opt(&e.tenant_id).as_str());
    append_str(&mut line, "}");
    line
}

/// The index key of a prompt: `nebula.dataset.index:<sha256 hex>`.
pub open spec fn dataset_index_key_spec(prompt: Seq<char>) -> Seq<char> {
    DATASET_INDEX_PREFIX@ + ":"@ + sha256_hex_spec(prompt)
}

/// The index key of a prompt.
pub fn dataset_index_key(prompt: &str) -> (k: String)
    ensures
        k@ == dataset_index_key_spec(prompt@),
{
    let mut k = owned(DATASET_INDEX_PREFIX);
    append_str(&mut k, ":");
    append_str(&mut k, sha256_hex(prompt).as_str());
    k
}

/// Whether an append that left the counters at `updated` reaches `threshold`.
pub open spec fn ready_due(updated: DatasetCounters, threshold: usize) -> bool {
    updated.escalated + updated.direct >= threshold
}

/// Whether `ev` is the training-ready event for the counters `updated`: it
/// names `DATASET_FILE` and the new total, reported as `usize::MAX` beyond it.
pub open spec fn is_ready_event(updated: DatasetCounters, ev: TrainingReadyEvent) -> bool {
    &&& ev.dataset_path@ == DATASET_FILE@
    &&& ev.examples == (if updated.escalated + updated.direct <= usize::MAX {
        updated.escalated + updated.direct
    } else {
        usize::MAX as int
    })
}

/// The training-ready event due after an append that left the counters at
/// `updated`: an event for `DATASET_FILE` with the new total once the total
/// reaches `threshold`, none before. A total beyond `usize::MAX` is reported
/// as `usize::MAX`.
pub fn training_ready_event(updated: DatasetCounters, threshold: usize) -> (r: Option<
    TrainingReadyEvent,
>)
    ensures
        r is Some <==> ready_due(updated, threshold),
        r matches Some(ev) ==> is_ready_event(updated, ev),
{
    let total = if updated.escalated > usize::MAX - updated.direct {
        usize::MAX
    } else {
        updated.total()
    };
    if updated.escalated as u128 + updated.direct as u128 >= threshold as u128 {
        Some(TrainingReadyEvent { dataset_path: owned(DATASET_FILE), examples: total })
    } else {
        None
    }
}

/// Appends a training example if the source mix allows it: writes its JSON
/// line to `DATASET_FILE`, indexes its prompt, increments the counters, and
/// publishes a training-ready event when the new total reaches `threshold`.
/// Returns `Ok(false)`, with nothing written, when the mix refuses it.
pub fn append_example<C: CounterStore, V: VolumeStore, I: IndexStore, B: EventBus>(
    counters: &mut C,
    volume: &mut V,
    index: &mut I,
    bus: &mut B,
    example: TrainingExample,
    threshold: usize,
) -> (r: Result<bool, NebulaError>)
    ensures
        exists|c: Result<DatasetCounters, NebulaError>|
            #[trigger] counters_read(&*old(counters), c) && match c {
                Err(e) => r == Err::<bool, NebulaError>(e) && *final(counters) == *old(counters)
                    && *final(volume) == *old(volume) && *final(index) == *old(index)
                    && *final(bus) == *old(bus),
                Ok(current) => if !ratio_allows_spec(current, example.source) {
                    r == Ok::<bool, NebulaError>(false) && *final(counters) == *old(counters)
                        && *final(volume) == *old(volume) && *final(index) == *old(index)
                        && *final(bus) == *old(bus)
                } else {
                    exists|mv: &mut V, path: &str, line: &str, a: Result<(), NebulaError>|
                        #[trigger] line_appended(mv, path, line, a) && *mv == *old(volume)
                            && *final(mv) == *final(volume) && path@ == DATASET_FILE@ && line@
                            == training_line(example) && match a {
                            Err(e) => r == Err::<bool, NebulaError>(e) && *final(index) == *old(index) && *final(counters) == *old(counters) && *final(bus) == *old(bus),
                            Ok(_) => exists|mi: &mut I, key: &str, b: Result<(), NebulaError>|
                                #[trigger] index_key_put(mi, key, b) && *mi == *old(index)
                                    && *final(mi) == *final(index) && key@ == dataset_index_key_spec(
                                    example.prompt@,
                                ) && match b {
                                    Err(e) => r == Err::<bool, NebulaError>(e) && *final(counters)
                                        == *old(counters) && *final(bus) == *old(bus),
                                    Ok(_) => exists|
                                        mc: &mut C,
                                        source: &ExampleSource,
                                        u: Result<DatasetCounters, NebulaError>,
                                    |
                                        #[trigger] counters_incremented(mc, source, u) && *mc
                                            == *old(counters) && *final(mc) == *final(counters)
                                            && *source == example.source && match u {
                                            Err(e) => r == Err::<bool, NebulaError>(e) && *final(bus) == *old(bus),
                                            Ok(updated) => if ready_due(updated, threshold) {
                                                exists|
                                                    mb: &mut B,
                                                    topic: &str,
                                                    ev: &TrainingReadyEvent,
                                                    x: Result<(), NebulaError>,
                                                |
                                                    #[trigger] ready_published(mb, topic, ev, x)
                                                        && *mb == *old(bus) && *final(mb) == *final(bus) && topic@ == TRAINING_READY_TOPIC@
                                                        && is_ready_event(updated, *ev) && r == (
                                                    match x {
                                                        Ok(_) => Ok::<bool, NebulaError>(true),
                                                        Err(e) => Err(e),
                                                    })
                                            } else {
                                                r == Ok::<bool, NebulaError>(true) && *final(bus)
                                                    == *old(bus)
                                            },
                                        },
                                },
                        }
                },
            },
{
    let current = counters.counters()?;
    if !ratio_allows(current, &example.source) {
        return Ok(false);
    }
    let line = training_example_line(&example);
    volume.append_line(DATASET_FILE, line.as_str())?;
    let key = dataset_index_key(example.prompt.as_str());
    index.put_index_key(key.as_str())?;
    let updated = counters.increment(&example.source)?;
    if let Some(event) = training_ready_event(updated, threshold) {
        bus.publish_training_ready(TRAINING_READY_TOPIC, &event)?;
    }
    Ok(true)
}

/// Where a preference example is written: its tenant's preference dataset,
/// or `PREFERENCE_DATASET_FILE` when it names no tenant.
pub open spec fn preference_path(e: PreferenceExample) -> Seq<char> {
    match e.tenant_id {
        Some(t) => tenant_dataset_path_spec(parsed_tenant(t@), PREFERENCE_DATASET_FILE@),
        None => PREFERENCE_DATASET_FILE@,
    }
}

/// Appends a preference example's JSON line to its path and indexes its prompt.
pub fn append_preference_example<V: VolumeStore, I: IndexStore>(
    volume: &mut V,
    index: &mut I,
    example: PreferenceExample,
) -> (r: Result<(), NebulaError>)
    requires
        example.tenant_id matches Some(t) ==> spec_uuid_parse(t@) is Some,
    ensures
        exists|mv: &mut V, path: &str, line: &str, a: Result<(), NebulaError>|
            #[trigger] line_appended(mv, path, line, a) && *mv == *old(volume) && *final(mv)
                == *final(volume) && path@ == preference_path(example) && line@ == preference_line(
                example,
            ) && match a {
                Err(e) => r == Err::<(), NebulaError>(e) && *final(index) == *old(index),
                Ok(_) => exists|mi: &mut I, key: &str, b: Result<(), NebulaError>|
                    #[trigger] index_key_put(mi, key, b) && *mi == *old(index) && *final(mi)
                        == *final(index) && key@ == dataset_index_key_spec(example.prompt@) && r
                        == b,
            },
{
    let path = match &example.tenant_id {
        Some(t) => tenant_preference_dataset_path(t.as_str()),
        None => owned(PREFERENCE_DATASET_FILE),
    };
    assert(path@ == preference_path(example));
    let line = preference_example_line(&example);
    volume.append_line(path.as_str(), line.as_str())?;
    let key = dataset_index_key(example.prompt.as_str());
    index.put_index_key(key.as_str())?;
    Ok(())
}

/// Where a tool example is written: its tenant's tool dataset, or
/// `TOOL_DATASET_FILE` when it names no tenant.
pub open spec fn tool_path(e: ToolTrainingExample) -> Seq<char> {
    match e.tenant_id {
        Some(t) => tenant_dataset_path_spec(parsed_tenant(t@), TOOL_DATASET_FILE@),
        None => TOOL_DATASET_FILE@,
    }
}

/// Appends a tool example's JSON line to its path.
pub fn append_tool_example<V: VolumeStore>(volume: &mut V, example: ToolTrainingExample) -> (r:
    Result<(), NebulaError>)
    requires
        example.tenant_id matches Some(t) ==> spec_uuid_parse(t@) is Some,
    ensures
        exists|mv: &mut V, path: &str, line: &str, a: Result<(), NebulaError>|
            #[trigger] line_appended(mv, path, line, a) && *mv == *old(volume) && *final(mv)
                == *final(volume) && path@ == tool_path(example) && line@ == tool_line(example)
                && r == a,
{
    let path = match &example.tenant_id {
        Some(t) => tenant_tool_dataset_path(t.as_str()),
        None => owned(TOOL_DATASET_FILE),
    };
    assert(path@ == tool_path(example));
    let line = tool_example_line(&example);
    volume.append_line(path.as_str(), line.as_str())?;
    Ok(())
}

/// Whether an example's tenant, if it names one, is a valid UUID.
pub open spec fn tenant_ok(tenant_id: Option<String>) -> bool {
    tenant_id matches Some(t) ==> spec_uuid_parse(t@) is Some
}

/// Refuses an example whose tenant id is not a valid UUID, holding the id.
fn check_example_tenant(tenant_id: &Option<String>) -> (r: Result<(), NebulaError>)
    ensures
        r is Ok <==> tenant_ok(*tenant_id),
        r matches Err(e) ==> (tenant_id matches Some(t) && e == NebulaError::InvalidTenantId(*t)),
{
    match tenant_id {
        Some(t) => if is_valid_tenant_id(t.as_str()) {
            Ok(())
        } else {
            Err(NebulaError::InvalidTenantId(t.clone()))
        },
        None => Ok(()),
    }
}

/// Appends a preference example as `append_preference_example` does, after
/// refusing, before any write, a tenant id that is not a valid UUID.
pub fn append_preference_example_checked<V: VolumeStore, I: IndexStore>(
    volume: &mut V,
    index: &mut I,
    example: PreferenceExample,
) -> (r: Result<(), NebulaError>)
    ensures
        !tenant_ok(example.tenant_id) ==> (example.tenant_id matches Some(t) && r == Err::<
            (),
            NebulaError,
        >(NebulaError::InvalidTenantId(t))) && *final(volume) == *old(volume) && *final(index)
            == *old(index),
        tenant_ok(example.tenant_id) ==> exists|
            mv: &mut V,
            path: &str,
            line: &str,
            a: Result<(), NebulaError>,
        |
            #[trigger] line_appended(mv, path, line, a) && *mv == *old(volume) && *final(mv)
                == *final(volume) && path@ == preference_path(example) && line@ == preference_line(
                example,
            ) && match a {
                Err(e) => r == Err::<(), NebulaError>(e) && *final(index) == *old(index),
                Ok(_) => exists|mi: &mut I, key: &str, b: Result<(), NebulaError>|
                    #[trigger] index_key_put(mi, key, b) && *mi == *old(index) && *final(mi)
                        == *final(index) && key@ == dataset_index_key_spec(example.prompt@) && r
                        == b,
            },
{
    check_example_tenant(&example.tenant_id)?;
    append_preference_example(volume, index, example)
}

/// Appends a tool example as `append_tool_example` does, after refusing,
/// before any write, a tenant id that is not a valid UUID.
pub fn append_tool_example_checked<V: VolumeStore>(volume: &mut V, example: ToolTrainingExample) -> (r:
    Result<(), NebulaError>)
    ensures
        !tenant_ok(example.tenant_id) ==> (example.tenant_id matches Some(t) && r == Err::<
            (),
            NebulaError,
        >(NebulaError::InvalidTenantId(t))) && *final(volume) == *old(volume),
        tenant_ok(example.tenant_id) ==> exists|
            mv: &mut V,
            path: &str,
            line: &str,
            a: Result<(), NebulaError>,
        |
            #[trigger] line_appended(mv, path, line, a) && *mv == *old(volume) && *final(mv)
                == *final(volume) && path@ == tool_path(example) && line@ == tool_line(example)
                && r == a,
{
    check_example_tenant(&example.tenant_id)?;
    append_tool_example(volume, example)
}

// ---------------------------------------------------------------------------
// Tenant paths and keys
// ---------------------------------------------------------------------------

/// The id that a valid tenant id string denotes.
pub open spec fn parsed_tenant(raw: Seq<char>) -> TenantId {
    TenantId(spec_uuid_parse(raw)->0)
}

/// `file_name` in the dataset directory of the tenant `tenant_id`, which must
/// be a valid UUID.
fn tenant_path_for(tenant_id: &str, file_name: &str) -> (p: String)
    requires
        spec_uuid_parse(tenant_id@) is Some,
    ensures
        p@ == tenant_dataset_path_spec(parsed_tenant(tenant_id@), file_name@),
{
    let id = TenantId::parse(tenant_id);
    match id {
        Some(id) => crate::tenant_core::tenant_dataset_path(id, file_name),
        None => vstd::pervasive::unreached(),
    }
}

/// The training dataset path of a tenant, given as a UUID string.
pub fn tenant_dataset_path(tenant_id: &str) -> (p: String)
    requires
        spec_uuid_parse(tenant_id@) is Some,
    ensures
        p@ == tenant_dataset_path_spec(parsed_tenant(tenant_id@), DATASET_FILE@),
{
    tenant_path_for(tenant_id, DATASET_FILE)
}

/// The preference dataset path of a tenant, given as a UUID string.
pub fn tenant_preference_dataset_path(tenant_id: &str) -> (p: String)
    requires
        spec_uuid_parse(tenant_id@) is Some,
    ensures
        p@ == tenant_dataset_path_spec(parsed_tenant(tenant_id@), PREFERENCE_DATASET_FILE@),
{
    tenant_path_for(tenant_id, PREFERENCE_DATASET_FILE)
}

/// The tool-call dataset path of a tenant, given as a UUID string.
pub fn tenant_tool_dataset_path(tenant_id: &str) -> (p: String)
    requires
        spec_uuid_parse(tenant_id@) is Some,
    ensures
        p@ == tenant_dataset_path_spec(parsed_tenant(tenant_id@), TOOL_DATASET_FILE@),
{
    tenant_path_for(tenant_id, TOOL_DATASET_FILE)
}

/// The golden dataset path of a tenant, given as a UUID string.
pub fn tenant_golden_dataset_path(tenant_id: &str) -> (p: String)
    requires
        spec_uuid_parse(tenant_id@) is Some,
    ensures
        p@ == tenant_dataset_path_spec(parsed_tenant(tenant_id@), GOLDEN_DATASET_FILE@),
{
    tenant_path_for(tenant_id, GOLDEN_DATASET_FILE)
}

/// Whether a tenant id string is a UUID that `uuid::Uuid::parse_str` accepts.
pub fn is_valid_tenant_id(tenant_id: &str) -> (b: bool)
    ensures
        b == (spec_uuid_parse(tenant_id@) is Some),
        forall|t: TenantId| tenant_id@ == uuid_hyphenated(t.0) ==> b && parsed_tenant(tenant_id@) == t,
{
    TenantId::parse(tenant_id).is_some()
}

/// The training dataset path of a tenant id string; `None` where the string
/// is not a valid UUID.
pub fn tenant_dataset_path_checked(tenant_id: &str) -> (p: Option<String>)
    ensures
        p is Some <==> spec_uuid_parse(tenant_id@) is Some,
        p matches Some(p) ==> p@ == tenant_dataset_path_spec(parsed_tenant(tenant_id@), DATASET_FILE@),
        forall|t: TenantId|
            tenant_id@ == uuid_hyphenated(t.0) ==> (p matches Some(p) && p@ == tenant_dataset_path_spec(
                t,
                DATASET_FILE@,
            )),
{
    if is_valid_tenant_id(tenant_id) {
        Some(tenant_dataset_path(tenant_id))
    } else {
        None
    }
}

/// The preference dataset path of a tenant id string; `None` where the
/// string is not a valid UUID.
pub fn tenant_preference_dataset_path_checked(tenant_id: &str) -> (p: Option<String>)
    ensures
        p is Some <==> spec_uuid_parse(tenant_id@) is Some,
        p matches Some(p) ==> p@ == tenant_dataset_path_spec(
            parsed_tenant(tenant_id@),
            PREFERENCE_DATASET_FILE@,
        ),
{
    if is_valid_tenant_id(tenant_id) {
        Some(tenant_preference_dataset_path(tenant_id))
    } else {
        None
    }
}

/// The tool-call dataset path of a tenant id string; `None` where the string
/// is not a valid UUID.
pub fn tenant_tool_dataset_path_checked(tenant_id: &str) -> (p: Option<String>)
    ensures
        p is Some <==> spec_uuid_parse(tenant_id@) is Some,
        p matches Some(p) ==> p@ == tenant_dataset_path_spec(parsed_tenant(tenant_id@), TOOL_DATASET_FILE@),
{
    if is_valid_tenant_id(tenant_id) {
        Some(tenant_tool_dataset_path(tenant_id))
    } else {
        None
    }
}

/// The golden dataset path of a tenant id string; `None` where the string is
/// not a valid UUID.
pub fn tenant_golden_dataset_path_checked(tenant_id: &str) -> (p: Option<String>)
    ensures
        p is Some <==> spec_uuid_parse(tenant_id@) is Some,
        p matches Some(p) ==> p@ == tenant_dataset_path_spec(
            parsed_tenant(tenant_id@),
            GOLDEN_DATASET_FILE@,
        ),
{
    if is_valid_tenant_id(tenant_id) {
        Some(tenant_golden_dataset_path(tenant_id))
    } else {
        None
    }
}

/// The training dataset path of a raw tenant id resolved through the registry.
pub fn tenant_dataset_path_with_registry<R: TenantRegistry>(raw_tenant_id: &str, registry: &R) -> (r:
    Result<String, NebulaError>)
    ensures
        r matches Ok(p) ==> exists|id: TenantId| p@ == tenant_dataset_path_spec(id, DATASET_FILE@),
        r matches Err(e) ==> e is Tenant,
        crate::text::trim(raw_tenant_id@).len() == 0 <==> r == Err::<String, NebulaError>(
            NebulaError::Tenant(TenantError::Empty),
        ),
        crate::text::trim(raw_tenant_id@).len() > 0 ==> exists|
            t: &str,
            answer: Result<Option<TenantId>, NebulaError>,
        |
            #[trigger] tenant_looked_up(registry, t, answer) && t@ == crate::text::trim(
                raw_tenant_id@,
            ) && match answer {
                Ok(Some(id)) => r matches Ok(p) && p@ == tenant_dataset_path_spec(id, DATASET_FILE@),
                _ => r matches Err(NebulaError::Tenant(TenantError::Unregistered(u))) && u@
                    == crate::text::trim(raw_tenant_id@),
            },
{
    match resolve_tenant(raw_tenant_id, registry) {
        Ok(id) => Ok(crate::tenant_core::tenant_dataset_path(id, DATASET_FILE)),
        Err(e) => Err(NebulaError::Tenant(e)),
    }
}

/// `file_name` under `prefix` for a tenant given as a UUID string; an invalid
/// tenant id is refused.
pub fn tenant_dataset_path_with_prefix_checked(tenant_id: &str, prefix: &str, file_name: &str) -> (r:
    Result<String, NebulaError>)
    ensures
        r is Ok <==> spec_uuid_parse(tenant_id@) is Some,
        r matches Ok(p) ==> p@ == tenant_dataset_path_with_prefix_spec(
            parsed_tenant(tenant_id@),
            prefix@,
            file_name@,
        ),
        r matches Err(e) ==> (e matches NebulaError::InvalidTenantId(s) && s@ == tenant_id@),
{
    match TenantId::parse(tenant_id) {
        Some(id) => Ok(crate::tenant_core::tenant_dataset_path_with_prefix(id, prefix, file_name)),
        None => Err(NebulaError::InvalidTenantId(owned(tenant_id))),
    }
}

/// The per-tenant index key of a prompt:
/// `tenant:<uuid>:dataset:index:<sha256 hex of prompt>`.
pub open spec fn tenant_index_key_spec(tenant_id: TenantId, prompt: Seq<char>) -> Seq<char> {
    "tenant:"@ + uuid_hyphenated(tenant_id.0) + ":dataset:index:"@ + sha256_hex_spec(prompt)
}

/// The per-tenant index key of a prompt, for a tenant given as a UUID string.
pub fn tenant_index_key(tenant_id: &str, prompt: &str) -> (k: String)
    requires
        spec_uuid_parse(tenant_id@) is Some,
    ensures
        k@ == tenant_index_key_spec(parsed_tenant(tenant_id@), prompt@),
{
    let id = match TenantId::parse(tenant_id) {
        Some(id) => id,
        None => TenantId(0),
    };
    let mut k = owned("tenant:");
    append_str(&mut k, id.to_hyphenated().as_str());
    append_str(&mut k, ":dataset:index:");
    append_str(&mut k, sha256_hex(prompt).as_str());
    k
}

/// The per-tenant index key of a prompt for a tenant id string; `None`
/// where the string is not a valid UUID.
pub fn tenant_index_key_checked(tenant_id: &str, prompt: &str) -> (k: Option<String>)
    ensures
        k is Some <==> spec_uuid_parse(tenant_id@) is Some,
        k matches Some(k) ==> k@ == tenant_index_key_spec(parsed_tenant(tenant_id@), prompt@),
{
    if is_valid_tenant_id(tenant_id) {
        Some(tenant_index_key(tenant_id, prompt))
    } else {
        None
    }
}

/// Refuses an append once a tenant holds `TENANT_ROW_QUOTA` rows.
pub fn enforce_tenant_quota(current_rows: usize) -> (r: Result<(), NebulaError>)
    ensures
        r is Ok <==> current_rows < TENANT_ROW_QUOTA,
        r matches Err(e) ==> e == NebulaError::QuotaExceeded,
{
    if current_rows < TENANT_ROW_QUOTA {
        Ok(())
    } else {
        Err(NebulaError::QuotaExceeded)
    }
}

} // verus!

verus! {

// ---------------------------------------------------------------------------
// Golden replay
// ---------------------------------------------------------------------------

/// The position of an `f32` with bits `bits` in the order of `f32::total_cmp`.
pub open spec fn score_key(bits: u32) -> int {
    if bits < 0x8000_0000 {
        bits as int
    } else {
        0x7fff_ffff - bits as int
    }
}

/// The replay rank of a golden row: locked rows first, then by descending
/// score in the order of `f32::total_cmp`.
pub open spec fn golden_rank(row: GoldenTrainingRow) -> i64 {
    ((if row.locked { 0x1_0000_0000int } else { 0int }) + score_key(row.vector_score)
        + 0x8000_0000) as i64
}

/// The replay ranks of golden rows.
pub open spec fn golden_ranks(rows: Seq<GoldenTrainingRow>) -> Seq<i64> {
    rows.map_values(|r: GoldenTrainingRow| golden_rank(r))
}

/// The replay rank of a golden row.
pub fn golden_rank_of(row: &GoldenTrainingRow) -> (r: i64)
    ensures
        r == golden_rank(*row),
{
    let key: i64 = if row.vector_score < 0x8000_0000 {
        row.vector_score as i64
    } else {
        0x7fff_ffff - row.vector_score as i64
    };
    let lock: i64 = if row.locked { 0x1_0000_0000 } else { 0 };
    lock + key + 0x8000_0000
}

/// `x` comes before `y` in the order of `f32::total_cmp`, for `f32` values
/// given by their bits: every value with the sign bit set comes before every
/// value without it; among non-negative values a larger bit pattern is
/// larger, and among negative values a larger bit pattern is smaller.
pub open spec fn f32_total_lt(x: u32, y: u32) -> bool {
    let x_neg = x >= 0x8000_0000;
    let y_neg = y >= 0x8000_0000;
    if x_neg != y_neg {
        x_neg
    } else if !x_neg {
        x < y
    } else {
        x > y
    }
}

/// Locked golden rows replay before unlocked ones whatever their scores, and
/// rows with the same lock flag replay in descending order of score as
/// `f32::total_cmp` orders them: the rank of a locked row is above that of
/// any unlocked row, and between rows with one lock flag the ranks compare
/// as the scores do.
pub proof fn law_golden_rank_order(a: GoldenTrainingRow, b: GoldenTrainingRow)
    ensures
        a.locked && !b.locked ==> golden_rank(a) > golden_rank(b),
        a.locked == b.locked ==> (golden_rank(a) < golden_rank(b) <==> f32_total_lt(
            a.vector_score,
            b.vector_score,
        )),
        a.locked == b.locked ==> (golden_rank(a) == golden_rank(b) <==> a.vector_score
            == b.vector_score),
{
}

/// The context given to golden rows in a replay batch.
pub open spec fn golden_context() -> Seq<char> {
    "{\"source\":\"golden_dataset\"}"@
}

/// A copy of a training example.
pub fn copy_example(e: &TrainingExample) -> (r: TrainingExample)
    ensures
        r == *e,
{
    TrainingExample {
        prompt: e.prompt.clone(),
        answer: e.answer.clone(),
        source: e.source,
        context: e.context.clone(),
    }
}

/// The smaller of two counts.
pub open spec fn min_nat(a: int, b: int) -> int {
    if a < b { a } else { b }
}

/// A replay batch: the first `config.live_rows` live rows, then the first
/// `config.golden_rows` golden rows in replay order (locked first, then by
/// descending score, ties kept in input order) turned into escalated
/// examples with the golden context.
pub fn mix_with_golden(
    live_rows: &[TrainingExample],
    golden_rows: &[GoldenTrainingRow],
    config: ReplayConfig,
) -> (batch: Vec<TrainingExample>)
    ensures
        batch@.len() == min_nat(live_rows@.len() as int, config.live_rows as int) + min_nat(
            golden_rows@.len() as int,
            config.golden_rows as int,
        ),
        forall|k: int|
            0 <= k < min_nat(live_rows@.len() as int, config.live_rows as int) ==> batch@[k]
                == live_rows@[k],
        exists|perm: Seq<usize>|
            {
                &&& is_stable_desc_order(golden_ranks(golden_rows@), perm)
                &&& forall|k: int|
                    0 <= k < min_nat(golden_rows@.len() as int, config.golden_rows as int) ==> {
                        let e = #[trigger] batch@[min_nat(live_rows@.len() as int, config.live_rows as int) + k];
                        let g = golden_rows@[perm[k] as int];
                        &&& e.prompt == g.prompt
                        &&& e.answer == g.answer
                        &&& e.source == ExampleSource::Escalated
                        &&& e.context@ == golden_context()
                    }
            },
{
    let n_live = if live_rows.len() < config.live_rows { live_rows.len() } else { config.live_rows };
    let mut batch: Vec<TrainingExample> = Vec::new();
    let mut i: usize = 0;
    while i < n_live
        invariant
            n_live <= live_rows@.len(),
            i <= n_live,
            batch@.len() == i,
            forall|k: int| 0 <= k < i ==> batch@[k] == live_rows@[k],
        decreases n_live - i,
    {
        batch.push(copy_example(&live_rows[i]));
        i = i + 1;
    }
    let mut ranks: Vec<i64> = Vec::new();
    let mut j: usize = 0;
    while j < golden_rows.len()
        invariant
            j <= golden_rows@.len(),
            ranks@ == golden_ranks(golden_rows@).take(j as int),
        decreases golden_rows.len() - j,
    {
        ranks.push(golden_rank_of(&golden_rows[j]));
        proof {
            assert(golden_ranks(golden_rows@).take(j + 1) =~= golden_ranks(golden_rows@).take(
                j as int,
            ).push(golden_rank(golden_rows@[j as int])));
        }
        j = j + 1;
    }
    assert(ranks@ =~= golden_ranks(golden_rows@));
    let perm = stable_desc_order(&ranks);
    let n_gold = if golden_rows.len() < config.golden_rows {
        golden_rows.len()
    } else {
        config.golden_rows
    };
    let mut k: usize = 0;
    while k < n_gold
        invariant
            n_gold <= golden_rows@.len(),
            k <= n_gold,
            n_live <= live_rows@.len(),
            is_stable_desc_order(golden_ranks(golden_rows@), perm@),
            batch@.len() == n_live + k,
            forall|q: int| 0 <= q < n_live ==> batch@[q] == live_rows@[q],
            forall|q: int|
                0 <= q < k ==> {
                    let e = #[trigger] batch@[n_live + q];
                    let g = golden_rows@[perm@[q] as int];
                    &&& e.prompt == g.prompt
                    &&& e.answer == g.answer
                    &&& e.source == ExampleSource::Escalated
                    &&& e.context@ == golden_context()
                },
        decreases n_gold - k,
    {
        let idx = perm[k];
        assert(idx < golden_rows@.len());
        let g = &golden_rows[idx];
        let e = TrainingExample {
            prompt: g.prompt.clone(),
            answer: g.answer.clone(),
            source: ExampleSource::Escalated,
            context: owned("{\"source\":\"golden_dataset\"}"),
        };
        batch.push(e);
        k = k + 1;
    }
    batch
}

} // verus!
