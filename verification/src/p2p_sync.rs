//! The peer-to-peer sync agent: gossips a manifest of the local dataset
//! (record count, a 256-bit Bloom filter of the record ids and the most
//! recent ids) and, on a trusted peer's manifest that shows records missing
//! here, pulls the delta and inserts the missing records.

use vstd::prelude::*;
use crate::error::NebulaError;
use crate::hashing::{hex, hex_spec, sha256, spec_sha256};
use crate::order::{lex_lt, lemma_lex_order, sorted_distinct, strictly_sorted};
use crate::text::{owned, str_eq, views};

verus! {

pub const GOSSIP_TOPIC: &'static str = "nebula.knowledge.manifest";

/// The number of bits of the Bloom filter.
pub const BLOOM_BITS: usize = 256;

/// How many of the most recent ids a manifest lists at most.
pub const RECENT_ID_LIMIT: usize = 128;

/// A record of the shared dataset. `metadata` holds JSON text.
#[derive(Debug, Clone, PartialEq, Eq)]
pub struct KnowledgeRecord {
    pub id: String,
    pub prompt: String,
    pub response: String,
    pub metadata: String,
}

/// What a node gossips about its dataset.
#[derive(Debug, Clone, PartialEq, Eq)]
pub struct KnowledgeManifest {
    pub node_id: String,
    pub root_ca_fingerprint: String,
    pub sync_endpoint: String,
    pub record_count: usize,
    pub bloom: Vec<u8>,
    pub recent_ids: Vec<String>,
}

/// The local dataset.
pub trait DatasetStore {
    fn record_ids(&mut self) -> Result<Vec<String>, NebulaError>;

    fn upsert_records(&mut self, records: &[KnowledgeRecord]) -> Result<usize, NebulaError>;
}

/// The gossip channel.
pub trait GossipBus {
    fn publish(&mut self, topic: &str, manifest: &KnowledgeManifest) -> Result<(), NebulaError>;
}

/// The client that pulls records from a peer.
pub trait SyncClient {
    fn pull_delta(&mut self, endpoint: &str, known_ids: &[String]) -> Result<
        Vec<KnowledgeRecord>,
        NebulaError,
    >;
}

/// `record_ids`, called through `store`, may answer `answer`.
#[verifier::inline]
pub open spec fn ids_read<S: DatasetStore>(store: &mut S, answer: Result<Vec<String>, NebulaError>) -> bool {
    call_ensures(S::record_ids, (store,), answer)
}

/// `upsert_records`, called through `store` with `records`, may answer
/// `answer`.
#[verifier::inline]
pub open spec fn records_upserted<S: DatasetStore>(
    store: &mut S,
    records: &[KnowledgeRecord],
    answer: Result<usize, NebulaError>,
) -> bool {
    call_ensures(S::upsert_records, (store, records), answer)
}

/// `publish`, called through `bus` with `topic` and `manifest`, may answer
/// `answer`.
#[verifier::inline]
pub open spec fn manifest_published<B: GossipBus>(
    bus: &mut B,
    topic: &str,
    manifest: &KnowledgeManifest,
    answer: Result<(), NebulaError>,
) -> bool {
    call_ensures(B::publish, (bus, topic, manifest), answer)
}

/// `pull_delta`, called through `client` with `endpoint` and `known_ids`, may
/// answer `answer`.
#[verifier::inline]
pub open spec fn delta_pulled<C: SyncClient>(
    client: &mut C,
    endpoint: &str,
    known_ids: &[String],
    answer: Result<Vec<KnowledgeRecord>, NebulaError>,
) -> bool {
    call_ensures(C::pull_delta, (client, endpoint, known_ids), answer)
}

/// What handling a peer's manifest did.
#[derive(Debug, Clone, PartialEq, Eq)]
pub enum SyncOutcome {
    RejectedUntrusted,
    AlreadyCurrent,
    Pulled { inserted: usize },
}

// ---------------------------------------------------------------------------
// Record ids
// ---------------------------------------------------------------------------

/// The id of a record: the hex SHA-256 of the prompt's UTF-8 bytes, a zero
/// byte, and the response's UTF-8 bytes.
pub open spec fn record_id_spec(prompt: Seq<char>, response: Seq<char>) -> Seq<char> {
    hex_spec(
        spec_sha256(
            vstd::utf8::encode_utf8(prompt) + seq![0u8] + vstd::utf8::encode_utf8(response),
        ),
    )
}

/// The id of a record with this prompt and response.
pub fn deterministic_record_id(prompt: &str, response: &str) -> (id: String)
    ensures
        id@ == record_id_spec(prompt@, response@),
{
    let p = prompt.as_bytes();
    let r = response.as_bytes();
    let mut bytes: Vec<u8> = Vec::new();
    let mut i: usize = 0;
    while i < p.len()
        invariant
            i <= p@.len(),
            bytes@ == p@.take(i as int),
        decreases p.len() - i,
    {
        bytes.push(p[i]);
        proof {
            assert(p@.take(i + 1) =~= p@.take(i as int).push(p@[i as int]));
        }
        i = i + 1;
    }
    assert(p@.take(p@.len() as int) =~= p@);
    bytes.push(0u8);
    let ghost head = bytes@;
    let mut j: usize = 0;
    while j < r.len()
        invariant
            j <= r@.len(),
            bytes@ == head + r@.take(j as int),
        decreases r.len() - j,
    {
        bytes.push(r[j]);
        proof {
            assert(r@.take(j + 1) =~= r@.take(j as int).push(r@[j as int]));
        }
        j = j + 1;
    }
    assert(r@.take(r@.len() as int) =~= r@);
    assert(bytes@ =~= vstd::utf8::encode_utf8(prompt@) + seq![0u8] + vstd::utf8::encode_utf8(
        response@,
    ));
    let d = sha256(bytes.as_slice());
    hex(d.as_slice())
}

// ---------------------------------------------------------------------------
// Bloom filter
// ---------------------------------------------------------------------------

/// The `k`-th Bloom index of an id (`k < 3`): the big-endian 16-bit value of
/// bytes `2k` and `2k + 1` of the id's SHA-256, modulo the filter size.
pub open spec fn bloom_index(id: Seq<char>, k: int) -> int {
    let d = spec_sha256(vstd::utf8::encode_utf8(id));
    (d[2 * k] * 256 + d[2 * k + 1]) % 256
}

/// Whether one of an id's three Bloom indexes is `p`.
pub open spec fn hits(id: Seq<char>, p: int) -> bool {
    bloom_index(id, 0) == p || bloom_index(id, 1) == p || bloom_index(id, 2) == p
}

/// Whether bit `k` (from the least significant) of a byte is set.
pub open spec fn bit_set(b: u8, k: u8) -> bool {
    ((b >> k) & 1u8) == 1u8
}

/// Whether bit `p` of the filter is set: bit `p % 8` of byte `p / 8`.
pub open spec fn bloom_bit(bloom: Seq<u8>, p: int) -> bool {
    bit_set(bloom[p / 8], (p % 8) as u8)
}

/// Whether `bloom` is the 256-bit filter of the ids: exactly the bits that
/// some id hits are set.
pub open spec fn is_bloom_of(ids: Set<Seq<char>>, bloom: Seq<u8>) -> bool {
    &&& bloom.len() == 32
    &&& forall|p: int| 0 <= p < 256 ==> (#[trigger] bloom_bit(bloom, p) <==> exists|id: Seq<char>|
        ids.contains(id) && hits(id, p))
}

/// Setting bit `k` of a byte sets it and keeps the others.
proof fn lemma_set_bit(b: u8, k: u8, j: u8)
    requires
        k < 8,
        j < 8,
    ensures
        bit_set(b | (1u8 << k), j) == (bit_set(b, j) || j == k),
{
    assert(((((b | (1u8 << k)) >> j) & 1u8) == 1u8) == ((((b >> j) & 1u8) == 1u8) || j == k))
        by (bit_vector)
        requires
            k < 8,
            j < 8,
    ;
}

/// No bit of zero is set.
proof fn lemma_zero_bits(j: u8)
    requires
        j < 8,
    ensures
        !bit_set(0u8, j),
{
    assert(((0u8 >> j) & 1u8) != 1u8) by (bit_vector);
}

/// The three Bloom indexes of an id.
fn bloom_indexes(id: &str) -> (r: [usize; 3])
    ensures
        forall|k: int| 0 <= k < 3 ==> r@[k] == bloom_index(id@, k) && #[trigger] r@[k] < 256,
{
    let d = sha256(id.as_bytes());
    let a: usize = ((d[0] as usize) * 256 + (d[1] as usize)) % 256;
    let b: usize = ((d[2] as usize) * 256 + (d[3] as usize)) % 256;
    let c: usize = ((d[4] as usize) * 256 + (d[5] as usize)) % 256;
    [a, b, c]
}

/// Sets bit `p` of the filter.
fn set_bloom_bit(bloom: &mut Vec<u8>, p: usize)
    requires
        old(bloom)@.len() == 32,
        p < 256,
    ensures
        final(bloom)@.len() == 32,
        forall|q: int| 0 <= q < 256 ==> #[trigger] bloom_bit(final(bloom)@, q) == (bloom_bit(old(bloom)@, q) || q == p),
{
    let byte = bloom[p / 8];
    let shift: u8 = (p % 8) as u8;
    bloom.set(p / 8, byte | (1u8 << shift));
    proof {
        assert forall|q: int| 0 <= q < 256 implies #[trigger] bloom_bit(bloom@, q) == (bloom_bit(
            old(bloom)@,
            q,
        ) || q == p) by {
            lemma_set_bit(byte, shift, (q % 8) as u8);
            if q / 8 != p / 8 {
                assert(bloom@[q / 8] == old(bloom)@[q / 8]);
                assert(q != p);
            } else {
                assert((q % 8 == p % 8) == (q == p));
            }
        }
    }
}

/// The Bloom filter of distinct ids.
fn bloom_for_ids(ids: &Vec<String>) -> (bloom: Vec<u8>)
    ensures
        is_bloom_of(views(ids@).to_set(), bloom@),
{
    let mut bloom: Vec<u8> = Vec::new();
    let mut z: usize = 0;
    while z < 32
        invariant
            z <= 32,
            bloom@.len() == z,
            forall|k: int| 0 <= k < z ==> #[trigger] bloom@[k] == 0u8,
        decreases 32 - z,
    {
        bloom.push(0u8);
        z = z + 1;
    }
    proof {
        assert forall|p: int| 0 <= p < 256 implies !#[trigger] bloom_bit(bloom@, p) by {
            lemma_zero_bits((p % 8) as u8);
        }
    }
    let ghost v = views(ids@);
    let mut i: usize = 0;
    while i < ids.len()
        invariant
            i <= ids@.len(),
            v == views(ids@),
            bloom@.len() == 32,
            forall|p: int|
                0 <= p < 256 ==> (#[trigger] bloom_bit(bloom@, p) <==> exists|j: int|
                    0 <= j < i && hits(v[j], p)),
        decreases ids.len() - i,
    {
        let idx = bloom_indexes(ids[i].as_str());
        let ghost before = bloom@;
        set_bloom_bit(&mut bloom, idx[0]);
        set_bloom_bit(&mut bloom, idx[1]);
        set_bloom_bit(&mut bloom, idx[2]);
        proof {
            assert forall|p: int| 0 <= p < 256 implies (#[trigger] bloom_bit(bloom@, p) <==> exists|
                j: int,
            | 0 <= j < i + 1 && hits(v[j], p)) by {
                if bloom_bit(bloom@, p) {
                    if !bloom_bit(before, p) {
                        assert(hits(v[i as int], p));
                    }
                }
                if exists|j: int| 0 <= j < i + 1 && hits(v[j], p) {
                    let j = choose|j: int| 0 <= j < i + 1 && hits(v[j], p);
                    if j < i {
                        assert(bloom_bit(before, p));
                    }
                }
            }
        }
        i = i + 1;
    }
    proof {
        assert forall|p: int| 0 <= p < 256 implies (#[trigger] bloom_bit(bloom@, p) <==> exists|
            id: Seq<char>,
        | v.to_set().contains(id) && hits(id, p)) by {
            if bloom_bit(bloom@, p) {
                let j = choose|j: int| 0 <= j < ids@.len() && hits(v[j], p);
                assert(v.to_set().contains(v[j]));
            }
            if exists|id: Seq<char>| v.to_set().contains(id) && hits(id, p) {
                let id = choose|id: Seq<char>| v.to_set().contains(id) && hits(id, p);
                assert(v.contains(id));
                let j = choose|j: int| 0 <= j < v.len() && v[j] == id;
                assert(hits(v[j], p));
            }
        }
    }
    bloom
}

// ---------------------------------------------------------------------------
// Manifests
// ---------------------------------------------------------------------------

/// Whether `recent` lists the largest ids of `ids`, at most
/// `RECENT_ID_LIMIT` of them, largest first.
pub open spec fn is_recent_of(ids: Set<Seq<char>>, recent: Seq<Seq<char>>) -> bool {
    &&& recent.len() == (if ids.len() < RECENT_ID_LIMIT { ids.len() } else {
        RECENT_ID_LIMIT as nat
    })
    &&& forall|i: int, j: int| 0 <= i < j < recent.len() ==> lex_lt(#[trigger] recent[j], #[trigger] recent[i])
    &&& forall|i: int| 0 <= i < recent.len() ==> ids.contains(#[trigger] recent[i])
    &&& forall|id: Seq<char>, i: int|
        #![trigger ids.contains(id), recent[i]]
        ids.contains(id) && !recent.contains(id) && 0 <= i < recent.len() ==> lex_lt(id, recent[i])
}

/// Whether `m` is the manifest of a node with these ids: the node's
/// identity, the number of distinct ids, their Bloom filter and the largest
/// ones, largest first.
pub open spec fn is_manifest_of(
    node_id: Seq<char>,
    root_ca_fingerprint: Seq<char>,
    sync_endpoint: Seq<char>,
    ids: Seq<Seq<char>>,
    m: KnowledgeManifest,
) -> bool {
    &&& m.node_id@ == node_id
    &&& m.root_ca_fingerprint@ == root_ca_fingerprint
    &&& m.sync_endpoint@ == sync_endpoint
    &&& m.record_count == ids.to_set().len()
    &&& is_bloom_of(ids.to_set(), m.bloom@)
    &&& is_recent_of(ids.to_set(), views(m.recent_ids@))
}

/// The manifest of a node with these record ids.
pub fn build_manifest(node_id: &str, root_ca_fingerprint: &str, sync_endpoint: &str, ids: &[String]) -> (m: KnowledgeManifest)
    ensures
        is_manifest_of(node_id@, root_ca_fingerprint@, sync_endpoint@, views(ids@), m),
{
    let ordered = sorted_distinct(ids);
    let ghost o = views(ordered@);
    let ghost set = views(ids@).to_set();
    proof {
        o.unique_seq_to_set();
    }
    let n = ordered.len();
    let take: usize = if n < RECENT_ID_LIMIT { n } else { RECENT_ID_LIMIT };
    let mut recent: Vec<String> = Vec::new();
    let mut k: usize = 0;
    while k < take
        invariant
            k <= take <= n,
            n == o.len(),
            o == views(ordered@),
            recent@.len() == k,
            forall|q: int| 0 <= q < k ==> (#[trigger] views(recent@)[q]) == o[n - 1 - q],
        decreases take - k,
    {
        let s = ordered[n - 1 - k].clone();
        assert(s@ == o[n - 1 - k]);
        let ghost before = recent@;
        recent.push(s);
        proof {
            assert(recent@ == before.push(s));
            assert forall|q: int| 0 <= q < k + 1 implies (#[trigger] views(recent@)[q]) == o[n - 1
                - q] by {
                if q < k {
                    assert(recent@[q] == before[q]);
                    assert(views(before)[q] == o[n - 1 - q]);
                } else {
                    assert(recent@[q] == s);
                }
            }
        }
        k = k + 1;
    }
    let bloom = bloom_for_ids(&ordered);
    proof {
        let r = views(recent@);
        assert(o.to_set() == set);
        assert forall|i: int, j: int| 0 <= i < j < r.len() implies lex_lt(#[trigger] r[j], #[trigger] r[i]) by {
            assert(r[j] == o[n - 1 - j] && r[i] == o[n - 1 - i]);
        }
        assert forall|i: int| 0 <= i < r.len() implies set.contains(#[trigger] r[i]) by {
            assert(r[i] == o[n - 1 - i]);
            assert(o.contains(o[n - 1 - i]));
        }
        assert forall|id: Seq<char>, i: int|
            #![trigger set.contains(id), r[i]]
            set.contains(id) && !r.contains(id) && 0 <= i < r.len() implies lex_lt(id, r[i]) by {
            assert(o.contains(id));
            let j = choose|j: int| 0 <= j < o.len() && o[j] == id;
            assert(r[i] == o[n - 1 - i]);
            if j >= n - take {
                assert(r[n - 1 - j] == o[j]);
                assert(r.contains(id));
            }
            assert(j < n - 1 - i);
        }
    }
    KnowledgeManifest {
        node_id: owned(node_id),
        root_ca_fingerprint: owned(root_ca_fingerprint),
        sync_endpoint: owned(sync_endpoint),
        record_count: n,
        bloom,
        recent_ids: recent,
    }
}

/// Whether a peer's manifest shows records missing here: it counts more
/// distinct records than the local ids, or lists a recent id not held here.
pub open spec fn has_delta(local_ids: Seq<Seq<char>>, manifest: KnowledgeManifest) -> bool {
    ||| manifest.record_count > local_ids.to_set().len()
    ||| exists|k: int|
        0 <= k < manifest.recent_ids@.len() && !local_ids.contains(
            #[trigger] manifest.recent_ids@[k]@,
        )
}

/// Whether `id` is one of `ids`.
fn contains_id(ids: &[String], id: &str) -> (b: bool)
    ensures
        b == views(ids@).contains(id@),
{
    let mut i: usize = 0;
    while i < ids.len()
        invariant
            i <= ids@.len(),
            forall|k: int| 0 <= k < i ==> ids@[k]@ != id@,
        decreases ids.len() - i,
    {
        if str_eq(ids[i].as_str(), id) {
            assert(views(ids@)[i as int] == id@);
            return true;
        }
        i = i + 1;
    }
    proof {
        if views(ids@).contains(id@) {
            let k = choose|k: int| 0 <= k < views(ids@).len() && views(ids@)[k] == id@;
            assert(ids@[k]@ == id@);
        }
    }
    false
}

/// Whether a peer's manifest shows records missing here.
pub fn has_remote_delta(local_ids: &[String], manifest: &KnowledgeManifest) -> (b: bool)
    ensures
        b == has_delta(views(local_ids@), *manifest),
{
    let distinct = sorted_distinct(local_ids);
    proof {
        views(distinct@).unique_seq_to_set();
    }
    if manifest.record_count > distinct.len() {
        return true;
    }
    let mut k: usize = 0;
    while k < manifest.recent_ids.len()
        invariant
            k <= manifest.recent_ids@.len(),
            forall|q: int|
                0 <= q < k ==> views(local_ids@).contains(#[trigger] manifest.recent_ids@[q]@),
        decreases manifest.recent_ids.len() - k,
    {
        if !contains_id(local_ids, manifest.recent_ids[k].as_str()) {
            return true;
        }
        k = k + 1;
    }
    false
}

/// A copy of a record.
fn copy_record(r: &KnowledgeRecord) -> (c: KnowledgeRecord)
    ensures
        c == *r,
{
    KnowledgeRecord {
        id: r.id.clone(),
        prompt: r.prompt.clone(),
        response: r.response.clone(),
        metadata: r.metadata.clone(),
    }
}

/// The records whose id is not among the local ids, in order.
pub open spec fn missing_spec(delta: Seq<KnowledgeRecord>, local_ids: Seq<Seq<char>>) -> Seq<KnowledgeRecord>
    decreases delta.len(),
{
    if delta.len() == 0 {
        Seq::empty()
    } else {
        let earlier = missing_spec(delta.drop_last(), local_ids);
        if local_ids.contains(delta.last().id@) {
            earlier
        } else {
            earlier.push(delta.last())
        }
    }
}

/// The records of the delta whose id is not held here, in order.
pub fn missing_records(delta: &Vec<KnowledgeRecord>, local_ids: &[String]) -> (r: Vec<KnowledgeRecord>)
    ensures
        r@ == missing_spec(delta@, views(local_ids@)),
{
    let mut r: Vec<KnowledgeRecord> = Vec::new();
    let mut i: usize = 0;
    while i < delta.len()
        invariant
            i <= delta@.len(),
            r@ == missing_spec(delta@.take(i as int), views(local_ids@)),
        decreases delta.len() - i,
    {
        proof {
            let t = delta@.take(i + 1);
            assert(t.drop_last() =~= delta@.take(i as int));
            assert(t.last() == delta@[i as int]);
        }
        if !contains_id(local_ids, delta[i].id.as_str()) {
            r.push(copy_record(&delta[i]));
        }
        i = i + 1;
    }
    assert(delta@.take(delta@.len() as int) =~= delta@);
    r
}

/// Whether `m` is the manifest of the node for some set of ids.
pub open spec fn is_manifest_of_some(
    node_id: Seq<char>,
    root_ca_fingerprint: Seq<char>,
    sync_endpoint: Seq<char>,
    m: KnowledgeManifest,
) -> bool {
    exists|ids: Seq<Seq<char>>| is_manifest_of(node_id, root_ca_fingerprint, sync_endpoint, ids, m)
}

/// Publishes the manifest of the local dataset on `GOSSIP_TOPIC`.
pub fn publish_manifest<S: DatasetStore, B: GossipBus>(
    store: &mut S,
    bus: &mut B,
    node_id: &str,
    root_ca_fingerprint: &str,
    sync_endpoint: &str,
) -> (r: Result<KnowledgeManifest, NebulaError>)
    ensures
        r matches Ok(m) ==> is_manifest_of_some(node_id@, root_ca_fingerprint@, sync_endpoint@, m),
        exists|m1: &mut S, ids: Result<Vec<String>, NebulaError>|
            #[trigger] ids_read(m1, ids) && *m1 == *old(store) && *final(m1) == *final(store)
                && match ids {
                Err(e) => r == Err::<KnowledgeManifest, NebulaError>(e) && *final(bus) == *old(bus),
                Ok(v) => exists|
                    mb: &mut B,
                    topic: &str,
                    sent: &KnowledgeManifest,
                    x: Result<(), NebulaError>,
                |
                    #[trigger] manifest_published(mb, topic, sent, x) && *mb == *old(bus)
                        && *final(mb) == *final(bus) && topic@ == GOSSIP_TOPIC@ && is_manifest_of(
                        node_id@,
                        root_ca_fingerprint@,
                        sync_endpoint@,
                        views(v@),
                        *sent,
                    ) && r == (match x {
                        Ok(_) => Ok::<KnowledgeManifest, NebulaError>(*sent),
                        Err(e) => Err(e),
                    }),
            },
{
    let ids = store.record_ids()?;
    let manifest = build_manifest(node_id, root_ca_fingerprint, sync_endpoint, ids.as_slice());
    bus.publish(GOSSIP_TOPIC, &manifest)?;
    assert(is_manifest_of(node_id@, root_ca_fingerprint@, sync_endpoint@, views(ids@), manifest));
    assert(is_manifest_of_some(node_id@, root_ca_fingerprint@, sync_endpoint@, manifest));
    Ok(manifest)
}

/// Handles a peer's manifest: a manifest signed under another root CA is
/// rejected before anything else; one that shows nothing missing here is
/// left alone; otherwise the delta is pulled from the peer's endpoint and the
/// records not held here are upserted.
pub fn handle_remote_manifest<S: DatasetStore, C: SyncClient>(
    store: &mut S,
    client: &mut C,
    local_root_ca_fingerprint: &str,
    manifest: &KnowledgeManifest,
) -> (r: Result<SyncOutcome, NebulaError>)
    ensures
        manifest.root_ca_fingerprint@ != local_root_ca_fingerprint@ ==> r == Ok::<
            SyncOutcome,
            NebulaError,
        >(SyncOutcome::RejectedUntrusted),
        r matches Ok(SyncOutcome::AlreadyCurrent) ==> manifest.root_ca_fingerprint@
            == local_root_ca_fingerprint@ && exists|ids: Seq<Seq<char>>| !has_delta(ids, *manifest),
        r matches Ok(SyncOutcome::Pulled { .. }) ==> manifest.root_ca_fingerprint@
            == local_root_ca_fingerprint@ && exists|ids: Seq<Seq<char>>| has_delta(ids, *manifest),
        manifest.root_ca_fingerprint@ != local_root_ca_fingerprint@ ==> *final(store) == *old(store)
            && *final(client) == *old(client),
        manifest.root_ca_fingerprint@ == local_root_ca_fingerprint@ ==> exists|
            m1: &mut S,
            ids: Result<Vec<String>, NebulaError>,
        |
            #[trigger] ids_read(m1, ids) && *m1 == *old(store) && match ids {
                Err(e) => r == Err::<SyncOutcome, NebulaError>(e) && *final(store) == *final(m1)
                    && *final(client) == *old(client),
                Ok(local) => if !has_delta(views(local@), *manifest) {
                    r == Ok::<SyncOutcome, NebulaError>(SyncOutcome::AlreadyCurrent) && *final(store)
                        == *final(m1) && *final(client) == *old(client)
                } else {
                    exists|
                        mc: &mut C,
                        endpoint: &str,
                        known: &[String],
                        d: Result<Vec<KnowledgeRecord>, NebulaError>,
                    |
                        #[trigger] delta_pulled(mc, endpoint, known, d) && *mc == *old(client)
                            && *final(mc) == *final(client) && endpoint@ == manifest.sync_endpoint@
                            && known@ == local@ && match d {
                            Err(e) => r == Err::<SyncOutcome, NebulaError>(e) && *final(store)
                                == *final(m1),
                            Ok(delta) => exists|
                                m2: &mut S,
                                records: &[KnowledgeRecord],
                                u: Result<usize, NebulaError>,
                            |
                                #[trigger] records_upserted(m2, records, u) && *m2 == *final(m1)
                                    && *final(m2) == *final(store) && records@ == missing_spec(
                                    delta@,
                                    views(local@),
                                ) && r == (match u {
                                    Ok(n) => Ok::<SyncOutcome, NebulaError>(
                                        SyncOutcome::Pulled { inserted: n },
                                    ),
                                    Err(e) => Err(e),
                                }),
                        }
                },
            },
{
    if !str_eq(manifest.root_ca_fingerprint.as_str(), local_root_ca_fingerprint) {
        return Ok(SyncOutcome::RejectedUntrusted);
    }
    let local_ids = store.record_ids()?;
    if !has_remote_delta(local_ids.as_slice(), manifest) {
        return Ok(SyncOutcome::AlreadyCurrent);
    }
    let delta = client.pull_delta(manifest.sync_endpoint.as_str(), local_ids.as_slice())?;
    let missing = missing_records(&delta, local_ids.as_slice());
    let inserted = store.upsert_records(missing.as_slice())?;
    Ok(SyncOutcome::Pulled { inserted })
}

// ---------------------------------------------------------------------------
// Determinism of manifests
// ---------------------------------------------------------------------------

/// A byte is determined by its eight bits.
proof fn lemma_byte_from_bits(x: u8, y: u8)
    requires
        forall|j: u8| j < 8 ==> bit_set(x, j) == bit_set(y, j),
    ensures
        x == y,
{
    assert(bit_set(x, 0) == bit_set(y, 0));
    assert(bit_set(x, 1) == bit_set(y, 1));
    assert(bit_set(x, 2) == bit_set(y, 2));
    assert(bit_set(x, 3) == bit_set(y, 3));
    assert(bit_set(x, 4) == bit_set(y, 4));
    assert(bit_set(x, 5) == bit_set(y, 5));
    assert(bit_set(x, 6) == bit_set(y, 6));
    assert(bit_set(x, 7) == bit_set(y, 7));
    assert(x == y) by (bit_vector)
        requires
            (((x >> 0u8) & 1u8) == 1u8) == (((y >> 0u8) & 1u8) == 1u8),
            (((x >> 1u8) & 1u8) == 1u8) == (((y >> 1u8) & 1u8) == 1u8),
            (((x >> 2u8) & 1u8) == 1u8) == (((y >> 2u8) & 1u8) == 1u8),
            (((x >> 3u8) & 1u8) == 1u8) == (((y >> 3u8) & 1u8) == 1u8),
            (((x >> 4u8) & 1u8) == 1u8) == (((y >> 4u8) & 1u8) == 1u8),
            (((x >> 5u8) & 1u8) == 1u8) == (((y >> 5u8) & 1u8) == 1u8),
            (((x >> 6u8) & 1u8) == 1u8) == (((y >> 6u8) & 1u8) == 1u8),
            (((x >> 7u8) & 1u8) == 1u8) == (((y >> 7u8) & 1u8) == 1u8),
    ;
}

/// Two filters of the same ids are the same bytes.
proof fn lemma_bloom_unique(ids: Set<Seq<char>>, b1: Seq<u8>, b2: Seq<u8>)
    requires
        is_bloom_of(ids, b1),
        is_bloom_of(ids, b2),
    ensures
        b1 == b2,
{
    assert forall|i: int| 0 <= i < 32 implies b1[i] == b2[i] by {
        assert forall|j: u8| j < 8 implies bit_set(b1[i], j) == bit_set(b2[i], j) by {
            let p = 8 * i + j;
            assert(p / 8 == i && p % 8 == j);
            assert(bloom_bit(b1, p) == bloom_bit(b2, p));
        }
        lemma_byte_from_bits(b1[i], b2[i]);
    }
    assert(b1 =~= b2);
}

/// Two lists of the largest ids of the same set are the same list.
proof fn lemma_recent_unique(ids: Set<Seq<char>>, r1: Seq<Seq<char>>, r2: Seq<Seq<char>>)
    requires
        is_recent_of(ids, r1),
        is_recent_of(ids, r2),
    ensures
        r1 == r2,
{
    assert forall|i: int| 0 <= i < r1.len() implies r1[i] == r2[i] by {
        lemma_recent_prefix(ids, r1, r2, i);
    }
    assert(r1 =~= r2);
}

/// The lists agree up to and at index `i`.
proof fn lemma_recent_prefix(ids: Set<Seq<char>>, r1: Seq<Seq<char>>, r2: Seq<Seq<char>>, i: int)
    requires
        is_recent_of(ids, r1),
        is_recent_of(ids, r2),
        0 <= i < r1.len(),
    ensures
        forall|k: int| 0 <= k <= i ==> r1[k] == r2[k],
    decreases i,
{
    if i > 0 {
        lemma_recent_prefix(ids, r1, r2, i - 1);
    }
    let a = r1[i];
    let b = r2[i];
    lemma_lex_order(a, b, a);
    lemma_recent_step(ids, r1, r2, i);
    lemma_recent_step(ids, r2, r1, i);
}

/// With the lists equal before `i`, the `i`-th id of the second list does
/// not come before that of the first: otherwise the first one would be
/// missing from the second list while larger than an id it holds.
proof fn lemma_recent_step(ids: Set<Seq<char>>, r1: Seq<Seq<char>>, r2: Seq<Seq<char>>, i: int)
    requires
        is_recent_of(ids, r1),
        is_recent_of(ids, r2),
        0 <= i < r1.len(),
        forall|k: int| 0 <= k < i ==> r1[k] == r2[k],
    ensures
        !lex_lt(r2[i], r1[i]),
{
    if !lex_lt(r2[i], r1[i]) {
        return;
    }
    let a = r1[i];
    let b = r2[i];
    assert(r2.len() == r1.len());
    assert(ids.contains(a));
    lemma_lex_order(a, a, a);
    lemma_lex_order(a, b, a);
    if r2.contains(a) {
        let j = choose|j: int| 0 <= j < r2.len() && r2[j] == a;
        if j < i {
            assert(r1[j] == a);
            assert(lex_lt(r1[i], r1[j]));
            lemma_lex_order(a, a, a);
        } else if j > i {
            assert(lex_lt(r2[j], r2[i]));
            lemma_lex_order(a, r2[i], a);
        }
    } else {
        assert(lex_lt(a, b));
    }
}

/// A manifest depends on the set of record ids alone: two manifests of the
/// same node over ids with the same distinct values, in any order and with
/// any repetition, carry the same count, filter and recent ids.
pub proof fn law_manifest_deterministic(
    node_id: Seq<char>,
    root_ca_fingerprint: Seq<char>,
    sync_endpoint: Seq<char>,
    ids1: Seq<Seq<char>>,
    ids2: Seq<Seq<char>>,
    m1: KnowledgeManifest,
    m2: KnowledgeManifest,
)
    requires
        ids1.to_set() == ids2.to_set(),
        is_manifest_of(node_id, root_ca_fingerprint, sync_endpoint, ids1, m1),
        is_manifest_of(node_id, root_ca_fingerprint, sync_endpoint, ids2, m2),
    ensures
        m1.node_id@ == m2.node_id@,
        m1.root_ca_fingerprint@ == m2.root_ca_fingerprint@,
        m1.sync_endpoint@ == m2.sync_endpoint@,
        m1.record_count == m2.record_count,
        m1.bloom@ == m2.bloom@,
        views(m1.recent_ids@) == views(m2.recent_ids@),
{
    lemma_bloom_unique(ids1.to_set(), m1.bloom@, m2.bloom@);
    lemma_recent_unique(ids1.to_set(), views(m1.recent_ids@), views(m2.recent_ids@));
}

} // verus!
