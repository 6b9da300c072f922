//! The quantization engine: turns a validated model into fp16, q8_0 and q4_k
//! variants, writes each to the volume with its digest and VRAM floor, and
//! announces the variants.

use vstd::prelude::*;
use crate::error::NebulaError;
use crate::ports::call_index;
use crate::hashing::{hex, hex_spec, sha256, spec_sha256};
use crate::text::{append_str, chars_of, ends_with, has_suffix, string_of_range};

verus! {

pub const INPUT_TOPIC: &'static str = "nebula.validation.success";
pub const OUTPUT_TOPIC: &'static str = "nebula.quantization.completed";

/// The file suffix of model weights.
pub const SAFETENSORS_SUFFIX: &'static str = ".safetensors";

/// A model that passed validation. `pass_rate` holds the bits of an `f32`.
#[derive(Debug, Clone, PartialEq, Eq)]
pub struct ValidationSuccessEvent {
    pub artifact_ref: String,
    pub output_model: String,
    pub pass_rate: u32,
}

/// One quantized variant, as written to the volume.
#[derive(Debug, Clone, PartialEq, Eq)]
pub struct QuantizedVariant {
    pub title: String,
    pub artifact_ref: String,
    pub path: String,
    pub digest: String,
    pub size_bytes: u64,
    pub min_vram_gb: u32,
}

/// The variants of a model.
#[derive(Debug, Clone, PartialEq, Eq)]
pub struct QuantizationCompletedEvent {
    pub source_artifact: String,
    pub output_model: String,
    pub variants: Vec<QuantizedVariant>,
}

/// The model volume.
pub trait VolumeStore {
    fn read_artifact(&mut self, artifact_ref: &str) -> Result<Vec<u8>, NebulaError>;

    fn write_artifact(&mut self, path: &str, bytes: &[u8]) -> Result<String, NebulaError>;
}

/// A quantizer.
pub trait Quantizer {
    fn quantize(&mut self, source: &[u8], format: QuantizationFormat) -> Result<Vec<u8>, NebulaError>;
}

/// Where the variants are announced.
pub trait EventBus {
    fn publish(&mut self, topic: &str, event: &QuantizationCompletedEvent) -> Result<(), NebulaError>;
}

/// `read_artifact`, called through `volume` with `artifact_ref`, may answer
/// `answer`.
#[verifier::inline]
pub open spec fn artifact_read<V: VolumeStore>(
    volume: &mut V,
    artifact_ref: &str,
    answer: Result<Vec<u8>, NebulaError>,
) -> bool {
    call_ensures(V::read_artifact, (volume, artifact_ref), answer)
}

/// `write_artifact`, called through `volume` with `path` and `bytes`, may
/// answer `answer`.
#[verifier::inline]
pub open spec fn artifact_written<V: VolumeStore>(
    volume: &mut V,
    path: &str,
    bytes: &[u8],
    answer: Result<String, NebulaError>,
) -> bool {
    call_ensures(V::write_artifact, (volume, path, bytes), answer)
}

/// `quantize`, called through `quantizer` with `source` and `format`, may
/// answer `answer`.
#[verifier::inline]
pub open spec fn source_quantized<Q: Quantizer>(
    quantizer: &mut Q,
    source: &[u8],
    format: QuantizationFormat,
    answer: Result<Vec<u8>, NebulaError>,
) -> bool {
    call_ensures(Q::quantize, (quantizer, source, format), answer)
}

/// `publish`, called through `bus` with `topic` and `event`, may answer
/// `answer`.
#[verifier::inline]
pub open spec fn completion_published<B: EventBus>(
    bus: &mut B,
    topic: &str,
    event: &QuantizationCompletedEvent,
    answer: Result<(), NebulaError>,
) -> bool {
    call_ensures(B::publish, (bus, topic, event), answer)
}

/// The quantization formats, in the order the variants are produced.
#[derive(Debug, Clone, Copy, PartialEq, Eq)]
pub enum QuantizationFormat {
    Fp16,
    Q8_0,
    Q4K,
}

/// The title of a format.
pub open spec fn title_spec(format: QuantizationFormat) -> Seq<char> {
    match format {
        QuantizationFormat::Fp16 => "fp16"@,
        QuantizationFormat::Q8_0 => "q8_0"@,
        QuantizationFormat::Q4K => "q4_k"@,
    }
}

/// The VRAM, in GB, that a format needs at least.
pub open spec fn min_vram_spec(format: QuantizationFormat) -> u32 {
    match format {
        QuantizationFormat::Fp16 => 16,
        QuantizationFormat::Q8_0 => 8,
        QuantizationFormat::Q4K => 4,
    }
}

impl QuantizationFormat {
    /// The format's title: `fp16`, `q8_0` or `q4_k`.
    pub fn title(self) -> (t: &'static str)
        ensures
            t@ == title_spec(self),
    {
        match self {
            QuantizationFormat::Fp16 => "fp16",
            QuantizationFormat::Q8_0 => "q8_0",
            QuantizationFormat::Q4K => "q4_k",
        }
    }

    /// The VRAM floor in GB: 16 for fp16, 8 for q8_0, 4 for q4_k.
    pub fn min_vram_gb(self) -> (g: u32)
        ensures
            g == min_vram_spec(self),
    {
        match self {
            QuantizationFormat::Fp16 => 16,
            QuantizationFormat::Q8_0 => 8,
            QuantizationFormat::Q4K => 4,
        }
    }
}

/// The `k`-th format produced.
pub open spec fn format_at(k: int) -> QuantizationFormat {
    if k == 0 {
        QuantizationFormat::Fp16
    } else if k == 1 {
        QuantizationFormat::Q8_0
    } else {
        QuantizationFormat::Q4K
    }
}

// ---------------------------------------------------------------------------
// The deterministic quantizer
// ---------------------------------------------------------------------------

/// How many bytes `compact` keeps: one every `divisor`, at most
/// `max(len / divisor, 1)`.
pub open spec fn compact_count(len: nat, divisor: nat) -> nat {
    let target: nat = if len / divisor >= 1 { len / divisor } else { 1 };
    let available: nat = ((len + divisor - 1) as nat) / divisor;
    if target <= available { target } else { available }
}

/// The tag followed by every `divisor`-th byte of the source, from the first,
/// at most `max(len / divisor, 1)` of them.
pub open spec fn compact_spec(source: Seq<u8>, divisor: nat, tag: Seq<u8>) -> Seq<u8> {
    tag + Seq::new(compact_count(source.len(), divisor), |k: int| source[k * divisor])
}

/// Samples every `divisor`-th byte of `source` after `tag`.
pub fn compact(source: &[u8], divisor: usize, tag: &[u8]) -> (out: Vec<u8>)
    requires
        divisor > 0,
    ensures
        out@ == compact_spec(source@, divisor as nat, tag@),
{
    let len = source.len();
    let target: usize = if len / divisor >= 1 { len / divisor } else { 1 };
    let mut out: Vec<u8> = Vec::new();
    let mut i: usize = 0;
    while i < tag.len()
        invariant
            i <= tag@.len(),
            out@ == tag@.take(i as int),
        decreases tag.len() - i,
    {
        out.push(tag[i]);
        proof {
            assert(tag@.take(i + 1) =~= tag@.take(i as int).push(tag@[i as int]));
        }
        i = i + 1;
    }
    assert(tag@.take(tag@.len() as int) =~= tag@);
    let ghost count: int = compact_count(len as nat, divisor as nat) as int;
    let ghost avail: int = (len as int + divisor as int - 1) / (divisor as int);
    let ghost picked = |k: int| source@[k * divisor];
    let mut taken: usize = 0;
    let mut pos: usize = 0;
    while taken < target && pos < len
        invariant
            divisor > 0,
            len == source@.len(),
            target == (if len / divisor >= 1 { len / divisor } else { 1 }),
            avail == (len as int + divisor as int - 1) / (divisor as int),
            count == (if target <= avail { target as int } else { avail }),
            pos <= len,
            pos < len ==> pos == taken * divisor,
            pos == len ==> taken * divisor >= len,
            taken <= target,
            taken <= count,
            out@ == tag@ + Seq::new(taken as nat, picked),
            picked == (|k: int| source@[k * divisor]),
        decreases target - taken,
    {
        proof {
            assert(taken < avail) by (nonlinear_arith)
                requires
                    pos == taken * divisor,
                    pos < len,
                    divisor > 0,
                    avail == (len as int + divisor as int - 1) / (divisor as int),
            ;
        }
        out.push(source[pos]);
        proof {
            assert(Seq::new((taken + 1) as nat, picked) =~= Seq::new(taken as nat, picked).push(
                source@[pos as int],
            ));
            assert((taken + 1) * divisor == taken * divisor + divisor) by (nonlinear_arith);
        }
        taken = taken + 1;
        if len - pos > divisor {
            pos = pos + divisor;
        } else {
            pos = len;
        }
    }
    proof {
        if taken < count {
            assert(pos == len);
            assert(taken >= avail) by (nonlinear_arith)
                requires
                    taken * divisor >= len,
                    divisor > 0,
                    avail == (len as int + divisor as int - 1) / (divisor as int),
            ;
        }
        assert(taken == count);
    }
    out
}

/// What the deterministic quantizer makes of `source` in `format`: the source
/// itself for fp16; every second byte after `Q8_0` for q8_0; every fourth
/// byte after `Q4_K` for q4_k.
pub open spec fn deterministic_quantization(source: Seq<u8>, format: QuantizationFormat) -> Seq<u8> {
    match format {
        QuantizationFormat::Fp16 => source,
        QuantizationFormat::Q8_0 => compact_spec(source, 2, seq![0x51u8, 0x38u8, 0x5fu8, 0x30u8]),
        QuantizationFormat::Q4K => compact_spec(source, 4, seq![0x51u8, 0x34u8, 0x5fu8, 0x4bu8]),
    }
}

/// A quantizer that samples the source bytes, for tests and dry runs.
pub struct DeterministicQuantizer;

impl Quantizer for DeterministicQuantizer {
    fn quantize(&mut self, source: &[u8], format: QuantizationFormat) -> (r: Result<Vec<u8>, NebulaError>)
        ensures
            r matches Ok(b) && b@ == deterministic_quantization(source@, format),
    {
        match format {
            QuantizationFormat::Fp16 => {
                let mut out: Vec<u8> = Vec::new();
                let mut i: usize = 0;
                while i < source.len()
                    invariant
                        i <= source@.len(),
                        out@ == source@.take(i as int),
                    decreases source.len() - i,
                {
                    out.push(source[i]);
                    proof {
                        assert(source@.take(i + 1) =~= source@.take(i as int).push(source@[i as int]));
                    }
                    i = i + 1;
                }
                assert(source@.take(source@.len() as int) =~= source@);
                Ok(out)
            },
            QuantizationFormat::Q8_0 => {
                let tag: [u8; 4] = [0x51u8, 0x38u8, 0x5fu8, 0x30u8];
                let r = compact(source, 2, &tag);
                assert(tag@ =~= seq![0x51u8, 0x38u8, 0x5fu8, 0x30u8]);
                Ok(r)
            },
            QuantizationFormat::Q4K => {
                let tag: [u8; 4] = [0x51u8, 0x34u8, 0x5fu8, 0x4bu8];
                let r = compact(source, 4, &tag);
                assert(tag@ =~= seq![0x51u8, 0x34u8, 0x5fu8, 0x4bu8]);
                Ok(r)
            },
        }
    }
}

// ---------------------------------------------------------------------------
// Variants
// ---------------------------------------------------------------------------

/// The model name without its `.safetensors` suffix, if it has one.
pub open spec fn model_stem(output_model: Seq<char>) -> Seq<char> {
    if has_suffix(output_model, SAFETENSORS_SUFFIX@) {
        output_model.subrange(0, output_model.len() - SAFETENSORS_SUFFIX@.len())
    } else {
        output_model
    }
}

/// The volume path of a variant: `<stem>.<title>.safetensors`.
pub open spec fn variant_path_spec(output_model: Seq<char>, format: QuantizationFormat) -> Seq<char> {
    model_stem(output_model) + "."@ + title_spec(format) + SAFETENSORS_SUFFIX@
}

/// The volume path of a variant.
pub fn variant_path(output_model: &str, format: QuantizationFormat) -> (p: String)
    ensures
        p@ == variant_path_spec(output_model@, format),
{
    let chars = chars_of(output_model);
    let suffix = chars_of(SAFETENSORS_SUFFIX);
    let stem_len = if ends_with(&chars, &suffix) { chars.len() - suffix.len() } else { chars.len() };
    let mut p = string_of_range(&chars, 0, stem_len);
    assert(chars@.subrange(0, chars@.len() as int) =~= chars@);
    append_str(&mut p, ".");
    append_str(&mut p, format.title());
    append_str(&mut p, SAFETENSORS_SUFFIX);
    p
}

/// The lowercase hex SHA-256 of `bytes`.
pub fn digest(bytes: &[u8]) -> (d: String)
    ensures
        d@ == hex_spec(spec_sha256(bytes@)),
{
    let h = sha256(bytes);
    hex(h.as_slice())
}

/// Whether `v` describes the bytes `b` written for `format` of `output_model`.
pub open spec fn is_variant(output_model: Seq<char>, format: QuantizationFormat, b: Seq<u8>, v: QuantizedVariant) -> bool {
    &&& v.title@ == title_spec(format)
    &&& v.path@ == variant_path_spec(output_model, format)
    &&& v.digest@ == hex_spec(spec_sha256(b))
    &&& v.size_bytes == b.len()
    &&& v.min_vram_gb == min_vram_spec(format)
}

/// Whether `v` describes some bytes written for `format` of `output_model`.
pub open spec fn describes(output_model: Seq<char>, format: QuantizationFormat, v: QuantizedVariant) -> bool {
    exists|b: Seq<u8>| is_variant(output_model, format, b, v)
}

/// The answers of the ports to the making of one variant: the quantizer's,
/// then the volume's to the write. An answer after a failed call is never
/// used.
pub struct VariantAnswers {
    pub quantized: Result<Vec<u8>, NebulaError>,
    pub written: Result<String, NebulaError>,
}

/// Whether making the variant in `format` of `output_model` from `source`
/// made the calls that `a` answers: the quantizer on the source and format,
/// then, when it succeeded, the write of its bytes at the variant's path.
pub open spec fn variant_calls<V: VolumeStore, Q: Quantizer>(
    output_model: Seq<char>,
    source: Seq<u8>,
    format: QuantizationFormat,
    a: VariantAnswers,
) -> bool {
    &&& exists|mq: &mut Q, src: &[u8], fmt: QuantizationFormat|
        #[trigger] source_quantized(mq, src, fmt, a.quantized) && src@ == source && fmt == format
    &&& a.quantized matches Ok(bytes) ==> exists|mv: &mut V, path: &str, data: &[u8]|
        #[trigger] artifact_written(mv, path, data, a.written) && path@ == variant_path_spec(
            output_model,
            format,
        ) && data@ == bytes@
}

/// The first failure among the answers for a variant, in call order.
pub open spec fn variant_error(a: VariantAnswers) -> Option<NebulaError> {
    match a.quantized {
        Err(e) => Some(e),
        Ok(_) => match a.written {
            Err(e) => Some(e),
            Ok(_) => None,
        },
    }
}

/// Whether `v` is the variant made of the successful answers `a`: it
/// describes the quantizer's bytes, and its reference is the volume's.
pub open spec fn variant_built(
    output_model: Seq<char>,
    format: QuantizationFormat,
    a: VariantAnswers,
    v: QuantizedVariant,
) -> bool {
    &&& a.quantized matches Ok(bytes) && is_variant(output_model, format, bytes@, v)
    &&& a.written == Ok::<String, NebulaError>(v.artifact_ref)
}

/// Whether making the variants, in the order fp16, q8_0, q4_k, made the
/// calls that `answers` answer, every variant but the last succeeding.
pub open spec fn variants_made<V: VolumeStore, Q: Quantizer>(
    output_model: Seq<char>,
    source: Seq<u8>,
    answers: Seq<VariantAnswers>,
) -> bool {
    &&& 1 <= answers.len() <= 3
    &&& forall|k: int|
        0 <= k < answers.len() ==> #[trigger] variant_calls::<V, Q>(
            output_model,
            source,
            format_at(k),
            answers[k],
        )
    &&& forall|k: int| 0 <= k < answers.len() - 1 ==> #[trigger] variant_error(answers[k]) is None
}

/// Reads the artifact `artifact_ref` from the volume.
fn read_call<V: VolumeStore>(volume: &mut V, artifact_ref: &str) -> (x: Result<Vec<u8>, NebulaError>)
    ensures
        exists|m: &mut V, a: &str|
            *m == *old(volume) && *final(m) == *final(volume) && #[trigger] artifact_read(m, a, x)
                && a@ == artifact_ref@,
{
    volume.read_artifact(artifact_ref)
}

/// Quantizes `source` in `format`.
fn quantize_call<Q: Quantizer>(quantizer: &mut Q, source: &[u8], format: QuantizationFormat) -> (x: Result<Vec<u8>, NebulaError>)
    ensures
        exists|m: &mut Q| *m == *old(quantizer) && *final(m) == *final(quantizer) && #[trigger] source_quantized(m, source, format, x),
{
    quantizer.quantize(source, format)
}

/// Writes `bytes` to the volume at `path`.
fn write_call<V: VolumeStore>(volume: &mut V, path: &str, bytes: &[u8]) -> (x: Result<String, NebulaError>)
    ensures
        exists|m: &mut V| *m == *old(volume) && *final(m) == *final(volume) && #[trigger] artifact_written(m, path, bytes, x),
{
    volume.write_artifact(path, bytes)
}

/// Publishes the completion on `OUTPUT_TOPIC`.
fn publish_call<B: EventBus>(bus: &mut B, event: &QuantizationCompletedEvent) -> (x: Result<(), NebulaError>)
    ensures
        exists|mb: &mut B, topic: &str|
            *mb == *old(bus) && *final(mb) == *final(bus) && #[trigger] completion_published(mb, topic, event, x)
                && topic@ == OUTPUT_TOPIC@,
{
    bus.publish(OUTPUT_TOPIC, event)
}

/// Whether `c` announces the three variants of `event`'s model, in the order
/// fp16, q8_0, q4_k.
pub open spec fn is_completion_of(event: ValidationSuccessEvent, c: QuantizationCompletedEvent) -> bool {
    &&& c.source_artifact == event.artifact_ref
    &&& c.output_model == event.output_model
    &&& c.variants@.len() == 3
    &&& forall|k: int|
        0 <= k < 3 ==> describes(event.output_model@, format_at(k), #[trigger] c.variants@[k])
}

/// Reads the validated model, quantizes it to fp16, q8_0 and q4_k, writes
/// each variant to `<stem>.<title>.safetensors` and announces them on
/// `OUTPUT_TOPIC`. An empty source is refused with `EmptyArtifact`; a failing
/// port ends the run with its error.
pub fn quantize_validated_artifact<V: VolumeStore, Q: Quantizer, B: EventBus>(
    volume: &mut V,
    quantizer: &mut Q,
    bus: &mut B,
    event: ValidationSuccessEvent,
) -> (r: Result<QuantizationCompletedEvent, NebulaError>)
    ensures
        r matches Ok(c) ==> is_completion_of(event, c),
        exists|m: &mut V, artifact_ref: &str, read: Result<Vec<u8>, NebulaError>|
            #[trigger] artifact_read(m, artifact_ref, read) && *m == *old(volume) && artifact_ref@
                == event.artifact_ref@ && match read {
                Err(e) => r == Err::<QuantizationCompletedEvent, NebulaError>(e) && *final(volume)
                    == *final(m) && *final(quantizer) == *old(quantizer) && *final(bus) == *old(bus),
                Ok(source) => if source@.len() == 0 {
                    r == Err::<QuantizationCompletedEvent, NebulaError>(NebulaError::EmptyArtifact)
                        && *final(volume) == *final(m) && *final(quantizer) == *old(quantizer)
                        && *final(bus) == *old(bus)
                } else {
                    exists|answers: Seq<VariantAnswers>, qstates: Seq<Q>, vstates: Seq<V>|
                        #![trigger variants_made::<V, Q>(event.output_model@, source@, answers), qstates[0], vstates[0]]
                        variants_made::<V, Q>(event.output_model@, source@, answers)
                            && qstates.len() == answers.len() + 1 && qstates[0] == *old(quantizer)
                            && qstates.last() == *final(quantizer) && vstates.len() == answers.len()
                            + 1 && vstates[0] == *final(m) && vstates.last() == *final(volume)
                            && (forall|k: int|
                            #![trigger call_index(k)]
                            call_index(k) && k < answers.len() ==> (exists|mq: &mut Q, src: &[u8], fmt: QuantizationFormat|
                                *mq == qstates[k] && *final(mq) == qstates[k + 1] && #[trigger] source_quantized(
                                    mq,
                                    src,
                                    fmt,
                                    answers[k].quantized,
                                ) && src@ == source@ && fmt == format_at(k)) && (answers[k].quantized is Err ==> vstates[k + 1]
                                == vstates[k]) && (answers[k].quantized is Ok ==> exists|mv: &mut V, path: &str, data: &[u8]|
                                *mv == vstates[k] && *final(mv) == vstates[k + 1] && #[trigger] artifact_written(
                                    mv,
                                    path,
                                    data,
                                    answers[k].written,
                                ) && path@ == variant_path_spec(event.output_model@, format_at(k)) && data@ == answers[k].quantized->Ok_0@))
                            && match variant_error(answers.last()) {
                            Some(e) => r == Err::<QuantizationCompletedEvent, NebulaError>(e)
                                && *final(bus) == *old(bus),
                            None => answers.len() == 3 && exists|
                                mb: &mut B,
                                topic: &str,
                                sent: &QuantizationCompletedEvent,
                                x: Result<(), NebulaError>,
                            |
                                #[trigger] completion_published(mb, topic, sent, x) && *mb == *old(bus) && *final(mb) == *final(bus) && topic@ == OUTPUT_TOPIC@
                                    && is_completion_of(event, *sent) && (forall|k: int|
                                    0 <= k < 3 ==> variant_built(
                                        event.output_model@,
                                        format_at(k),
                                        answers[k],
                                        #[trigger] sent.variants@[k],
                                    )) && r == (match x {
                                    Ok(_) => Ok::<QuantizationCompletedEvent, NebulaError>(*sent),
                                    Err(e) => Err(e),
                                }),
                        }
                },
            },
{
    let source = read_call(volume, event.artifact_ref.as_str())?;
    if source.len() == 0 {
        return Err(NebulaError::EmptyArtifact);
    }
    let ghost bus_before = *bus;
    let ghost vstart = *volume;
    let ghost mut qstates: Seq<Q> = seq![*quantizer];
    let ghost mut vstates: Seq<V> = seq![*volume];
    let formats: [QuantizationFormat; 3] = [
        QuantizationFormat::Fp16,
        QuantizationFormat::Q8_0,
        QuantizationFormat::Q4K,
    ];
    let mut variants: Vec<QuantizedVariant> = Vec::new();
    let ghost mut answers: Seq<VariantAnswers> = Seq::empty();
    let mut k: usize = 0;
    while k < 3
        invariant
            k <= 3,
            variants@.len() == k,
            answers.len() == k,
            forall|q: int| 0 <= q < 3 ==> #[trigger] formats@[q] == format_at(q),
            forall|q: int|
                0 <= q < k ==> describes(event.output_model@, format_at(q), #[trigger] variants@[q]),
            forall|q: int|
                0 <= q < k ==> #[trigger] variant_calls::<V, Q>(
                    event.output_model@,
                    source@,
                    format_at(q),
                    answers[q],
                ),
            forall|q: int|
                0 <= q < k ==> variant_built(
                    event.output_model@,
                    format_at(q),
                    answers[q],
                    #[trigger] variants@[q],
                ),
            *bus == bus_before,
            source@.len() > 0,
            exists|m: &mut V, artifact_ref: &str|
                #[trigger] artifact_read(
                    m,
                    artifact_ref,
                    Ok::<Vec<u8>, NebulaError>(source),
                ) && *m == *old(volume) && *final(m) == vstart && artifact_ref@ == event.artifact_ref@,
            qstates.len() == k + 1,
            qstates[0] == *old(quantizer),
            qstates.last() == *quantizer,
            vstates.len() == k + 1,
            vstates[0] == vstart,
            vstates.last() == *volume,
            forall|q: int|
                #![trigger call_index(q)]
                call_index(q) && q < k ==> (exists|mq: &mut Q, src: &[u8], fmt: QuantizationFormat|
                    *mq == qstates[q] && *final(mq) == qstates[q + 1] && #[trigger] source_quantized(
                        mq,
                        src,
                        fmt,
                        answers[q].quantized,
                    ) && src@ == source@ && fmt == format_at(q)) && (answers[q].quantized is Err ==> vstates[q + 1]
                    == vstates[q]) && (answers[q].quantized is Ok ==> exists|mv: &mut V, path: &str, data: &[u8]|
                    *mv == vstates[q] && *final(mv) == vstates[q + 1] && #[trigger] artifact_written(
                        mv,
                        path,
                        data,
                        answers[q].written,
                    ) && path@ == variant_path_spec(event.output_model@, format_at(q)) && data@ == answers[q].quantized->Ok_0@),
        decreases 3 - k,
    {
        let ghost qpre = *quantizer;
        let ghost vpre = *volume;
        let format = formats[k];
        let quantized = quantize_call(quantizer, source.as_slice(), format);
        let bytes = match quantized {
            Ok(b) => b,
            Err(e) => {
                proof {
                    let w = VariantAnswers { quantized, written: Err(e) };
                    let all = answers.push(w);
                    assert(all[k as int] == w);
                    assert(forall|q: int| 0 <= q < k ==> all[q] == answers[q]);
                    assert(variant_calls::<V, Q>(event.output_model@, source@, format_at(k as int), w));
                    assert forall|q: int| 0 <= q < all.len() - 1 implies #[trigger] variant_error(all[q]) is None by {
                        assert(variant_built(event.output_model@, format_at(q), answers[q], variants@[q]));
                    }
                    assert(variants_made::<V, Q>(event.output_model@, source@, all));
                    assert(variant_error(all.last()) == Some(e));
                    let old_answers = answers;
                    let old_qs = qstates;
                    let old_vs = vstates;
                    answers = answers.push(w);
                    qstates = qstates.push(*quantizer);
                    vstates = vstates.push(*volume);
                    assert forall|q: int|
                        #![trigger call_index(q)]
                        call_index(q) && q < k + 1 implies (exists|mq: &mut Q, src: &[u8], fmt: QuantizationFormat|
                            *mq == qstates[q] && *final(mq) == qstates[q + 1] && #[trigger] source_quantized(
                                mq,
                                src,
                                fmt,
                                answers[q].quantized,
                            ) && src@ == source@ && fmt == format_at(q)) && (answers[q].quantized is Err ==> vstates[q + 1]
                            == vstates[q]) && (answers[q].quantized is Ok ==> exists|mv: &mut V, path: &str, data: &[u8]|
                            *mv == vstates[q] && *final(mv) == vstates[q + 1] && #[trigger] artifact_written(
                                mv,
                                path,
                                data,
                                answers[q].written,
                            ) && path@ == variant_path_spec(event.output_model@, format_at(q)) && data@ == answers[q].quantized->Ok_0@) by {
                        if q < k {
                            assert(qstates[q] == old_qs[q] && qstates[q + 1] == old_qs[q + 1] && vstates[q]
                                == old_vs[q] && vstates[q + 1] == old_vs[q + 1] && answers[q] == old_answers[q]);
                        } else {
                            assert(qstates[q] == qpre && qstates[q + 1] == *quantizer && vstates[q] == vpre
                                && vstates[q + 1] == *volume && answers[q] == w);
                        }
                    }
                    assert(qstates.len() == answers.len() + 1 && qstates[0] == *old(quantizer));
                    assert(vstates.len() == answers.len() + 1 && vstates[0] == vstart);
                }
                return Err(e);
            },
        };
        let path = variant_path(event.output_model.as_str(), format);
        let written = write_call(volume, path.as_str(), bytes.as_slice());
        let ghost w = VariantAnswers { quantized, written };
        proof {
            assert(variant_calls::<V, Q>(event.output_model@, source@, format_at(k as int), w));
        }
        let artifact_ref = match written {
            Ok(a) => a,
            Err(e) => {
                proof {
                    let all = answers.push(w);
                    assert(all[k as int] == w);
                    assert(forall|q: int| 0 <= q < k ==> all[q] == answers[q]);
                    assert forall|q: int| 0 <= q < all.len() - 1 implies #[trigger] variant_error(all[q]) is None by {
                        assert(variant_built(event.output_model@, format_at(q), answers[q], variants@[q]));
                    }
                    assert(variants_made::<V, Q>(event.output_model@, source@, all));
                    assert(variant_error(all.last()) == Some(e));
                    let old_answers = answers;
                    let old_qs = qstates;
                    let old_vs = vstates;
                    answers = answers.push(w);
                    qstates = qstates.push(*quantizer);
                    vstates = vstates.push(*volume);
                    assert forall|q: int|
                        #![trigger call_index(q)]
                        call_index(q) && q < k + 1 implies (exists|mq: &mut Q, src: &[u8], fmt: QuantizationFormat|
                            *mq == qstates[q] && *final(mq) == qstates[q + 1] && #[trigger] source_quantized(
                                mq,
                                src,
                                fmt,
                                answers[q].quantized,
                            ) && src@ == source@ && fmt == format_at(q)) && (answers[q].quantized is Err ==> vstates[q + 1]
                            == vstates[q]) && (answers[q].quantized is Ok ==> exists|mv: &mut V, path: &str, data: &[u8]|
                            *mv == vstates[q] && *final(mv) == vstates[q + 1] && #[trigger] artifact_written(
                                mv,
                                path,
                                data,
                                answers[q].written,
                            ) && path@ == variant_path_spec(event.output_model@, format_at(q)) && data@ == answers[q].quantized->Ok_0@) by {
                        if q < k {
                            assert(qstates[q] == old_qs[q] && qstates[q + 1] == old_qs[q + 1] && vstates[q]
                                == old_vs[q] && vstates[q + 1] == old_vs[q + 1] && answers[q] == old_answers[q]);
                        } else {
                            assert(qstates[q] == qpre && qstates[q + 1] == *quantizer && vstates[q] == vpre
                                && vstates[q + 1] == *volume && answers[q] == w);
                        }
                    }
                    assert(qstates.len() == answers.len() + 1 && qstates[0] == *old(quantizer));
                    assert(vstates.len() == answers.len() + 1 && vstates[0] == vstart);
                }
                return Err(e);
            },
        };
        let v = QuantizedVariant {
            title: crate::text::owned(format.title()),
            artifact_ref,
            path,
            digest: digest(bytes.as_slice()),
            size_bytes: bytes.len() as u64,
            min_vram_gb: format.min_vram_gb(),
        };
        assert(is_variant(event.output_model@, format_at(k as int), bytes@, v));
        assert(describes(event.output_model@, format_at(k as int), v));
        assert(variant_built(event.output_model@, format_at(k as int), w, v));
        variants.push(v);
        proof {
            let old_answers = answers;
            let old_qs = qstates;
            let old_vs = vstates;
            answers = answers.push(w);
            qstates = qstates.push(*quantizer);
            vstates = vstates.push(*volume);
            assert forall|q: int|
                #![trigger call_index(q)]
                call_index(q) && q < k + 1 implies (exists|mq: &mut Q, src: &[u8], fmt: QuantizationFormat|
                    *mq == qstates[q] && *final(mq) == qstates[q + 1] && #[trigger] source_quantized(
                        mq,
                        src,
                        fmt,
                        answers[q].quantized,
                    ) && src@ == source@ && fmt == format_at(q)) && (answers[q].quantized is Err ==> vstates[q + 1]
                    == vstates[q]) && (answers[q].quantized is Ok ==> exists|mv: &mut V, path: &str, data: &[u8]|
                    *mv == vstates[q] && *final(mv) == vstates[q + 1] && #[trigger] artifact_written(
                        mv,
                        path,
                        data,
                        answers[q].written,
                    ) && path@ == variant_path_spec(event.output_model@, format_at(q)) && data@ == answers[q].quantized->Ok_0@) by {
                if q < k {
                    assert(qstates[q] == old_qs[q] && qstates[q + 1] == old_qs[q + 1] && vstates[q]
                        == old_vs[q] && vstates[q + 1] == old_vs[q + 1] && answers[q] == old_answers[q]);
                } else {
                    assert(qstates[q] == qpre && qstates[q + 1] == *quantizer && vstates[q] == vpre
                        && vstates[q + 1] == *volume && answers[q] == w);
                }
            }
            assert(qstates.len() == answers.len() + 1 && qstates[0] == *old(quantizer));
            assert(vstates.len() == answers.len() + 1 && vstates[0] == vstart);
        }
        k = k + 1;
    }
    let completed = QuantizationCompletedEvent {
        source_artifact: event.artifact_ref,
        output_model: event.output_model,
        variants,
    };
    let published = publish_call(bus, &completed);
    proof {
        assert(answers.last() == answers[2]);
        assert(variant_built(completed.output_model@, format_at(2), answers[2], completed.variants@[2]));
        assert forall|q: int| 0 <= q < answers.len() - 1 implies #[trigger] variant_error(answers[q]) is None by {
            assert(variant_built(completed.output_model@, format_at(q), answers[q], completed.variants@[q]));
        }
        assert(variants_made::<V, Q>(completed.output_model@, source@, answers));
    }
    match published {
        Ok(_) => Ok(completed),
        Err(e) => Err(e),
    }
}

} // verus!
