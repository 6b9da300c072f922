//! The training orchestrator: trains and merges a LoRA adapter when a dataset
//! is ready, publishes the merged model, and publishes an OCI image index for
//! the quantized variants.

use vstd::prelude::*;
use crate::error::NebulaError;
use crate::text::{append_str, decimal, decimal_string, owned};

verus! {

pub const TRAINING_READY_TOPIC: &'static str = "nebula.training.ready";
pub const TRAINING_COMPLETE_TOPIC: &'static str = "nebula.training.complete";
pub const QUANTIZATION_COMPLETE_TOPIC: &'static str = "nebula.quantization.completed";

/// A dataset ready for training.
#[derive(Debug, Clone, PartialEq, Eq)]
pub struct TrainingReadyEvent {
    pub dataset_path: String,
    pub examples: usize,
}

/// Models, registry reference and LoRA hyper-parameters of a training run.
#[derive(Debug, Clone, PartialEq, Eq)]
pub struct TrainingConfig {
    pub base_model: String,
    pub output_model: String,
    pub oci_ref: String,
    pub lora_dim: usize,
    pub lora_alpha: usize,
}

impl TrainingConfig {
    /// The default run: `pulsar-base-v1` to `pulsar-base-v2`, rank 16, alpha 32.
    pub fn default() -> (c: TrainingConfig)
        ensures
            c.base_model@ == "pulsar-base-v1.safetensors"@,
            c.output_model@ == "pulsar-base-v2.safetensors"@,
            c.oci_ref@ == "oci://localhost:5000/pulsar-models/base:v2"@,
            c.lora_dim == 16,
            c.lora_alpha == 32,
    {
        TrainingConfig {
            base_model: owned("pulsar-base-v1.safetensors"),
            output_model: owned("pulsar-base-v2.safetensors"),
            oci_ref: owned("oci://localhost:5000/pulsar-models/base:v2"),
            lora_dim: 16,
            lora_alpha: 32,
        }
    }
}

/// A finished training run.
#[derive(Debug, Clone, PartialEq, Eq)]
pub struct TrainingCompleteEvent {
    pub artifact_ref: String,
    pub output_model: String,
    pub examples: usize,
}

/// One quantized variant of a model.
#[derive(Debug, Clone, PartialEq, Eq)]
pub struct QuantizedVariant {
    pub title: String,
    pub artifact_ref: String,
    pub digest: String,
    pub size_bytes: u64,
    pub min_vram_gb: u32,
}

/// The quantized variants of a model.
#[derive(Debug, Clone, PartialEq, Eq)]
pub struct QuantizationCompletedEvent {
    pub source_artifact: String,
    pub output_model: String,
    pub variants: Vec<QuantizedVariant>,
}

/// An OCI descriptor with its annotations, in order.
#[derive(Debug, Clone, PartialEq, Eq)]
pub struct OciDescriptor {
    pub artifact_ref: String,
    pub digest: String,
    pub size_bytes: u64,
    pub annotations: Vec<(String, String)>,
}

/// An OCI image index under a tag.
#[derive(Debug, Clone, PartialEq, Eq)]
pub struct OciImageIndex {
    pub tag: String,
    pub manifests: Vec<OciDescriptor>,
}

/// The trainer.
pub trait Trainer {
    fn train_lora(&mut self, dataset_path: &str, config: &TrainingConfig) -> Result<String, NebulaError>;

    fn merge_adapter(&mut self, adapter_path: &str, config: &TrainingConfig) -> Result<
        String,
        NebulaError,
    >;
}

/// The artifact registry.
pub trait ArtifactPublisher {
    fn publish_with_wkg(&mut self, model_path: &str, oci_ref: &str) -> Result<String, NebulaError>;

    fn publish_index(&mut self, index: &OciImageIndex) -> Result<String, NebulaError>;
}

/// The operator UI.
pub trait UiNotifier {
    fn notify(&mut self, topic: &str, event: &TrainingCompleteEvent) -> Result<(), NebulaError>;
}

/// `train_lora`, called through `trainer` with `dataset_path` and `config`,
/// may answer `answer`.
#[verifier::inline]
pub open spec fn lora_trained<T: Trainer>(
    trainer: &mut T,
    dataset_path: &str,
    config: &TrainingConfig,
    answer: Result<String, NebulaError>,
) -> bool {
    call_ensures(T::train_lora, (trainer, dataset_path, config), answer)
}

/// `merge_adapter`, called through `trainer` with `adapter_path` and
/// `config`, may answer `answer`.
#[verifier::inline]
pub open spec fn adapter_merged<T: Trainer>(
    trainer: &mut T,
    adapter_path: &str,
    config: &TrainingConfig,
    answer: Result<String, NebulaError>,
) -> bool {
    call_ensures(T::merge_adapter, (trainer, adapter_path, config), answer)
}

/// `publish_with_wkg`, called through `publisher` with `model_path` and
/// `oci_ref`, may answer `answer`.
#[verifier::inline]
pub open spec fn model_published<P: ArtifactPublisher>(
    publisher: &mut P,
    model_path: &str,
    oci_ref: &str,
    answer: Result<String, NebulaError>,
) -> bool {
    call_ensures(P::publish_with_wkg, (publisher, model_path, oci_ref), answer)
}

/// `publish_index`, called through `publisher` with `index`, may answer
/// `answer`.
#[verifier::inline]
pub open spec fn index_published<P: ArtifactPublisher>(
    publisher: &mut P,
    index: &OciImageIndex,
    answer: Result<String, NebulaError>,
) -> bool {
    call_ensures(P::publish_index, (publisher, index), answer)
}

/// `notify`, called through `notifier` with `topic` and `event`, may answer
/// `answer`.
#[verifier::inline]
pub open spec fn ui_notified<U: UiNotifier>(
    notifier: &mut U,
    topic: &str,
    event: &TrainingCompleteEvent,
    answer: Result<(), NebulaError>,
) -> bool {
    call_ensures(U::notify, (notifier, topic, event), answer)
}

/// Trains an adapter on the ready dataset, merges it, publishes the merged
/// model under `config.oci_ref` and notifies the UI on
/// `TRAINING_COMPLETE_TOPIC`. The completion event carries the registry's
/// reference, the merged model and the dataset's example count.
pub fn handle_training_ready<T: Trainer, P: ArtifactPublisher, U: UiNotifier>(
    trainer: &mut T,
    publisher: &mut P,
    notifier: &mut U,
    event: TrainingReadyEvent,
    config: TrainingConfig,
) -> (r: Result<TrainingCompleteEvent, NebulaError>)
    ensures
        r matches Ok(c) ==> c.examples == event.examples,
        exists|t1: &mut T, path: &str, cfg: &TrainingConfig, trained: Result<String, NebulaError>|
            #[trigger] lora_trained(t1, path, cfg, trained) && *t1 == *old(trainer) && path@
                == event.dataset_path@ && *cfg == config && match trained {
                Err(e) => r == Err::<TrainingCompleteEvent, NebulaError>(e) && *final(trainer)
                    == *final(t1) && *final(publisher) == *old(publisher) && *final(notifier)
                    == *old(notifier),
                Ok(adapter) => exists|
                    t2: &mut T,
                    adapter_path: &str,
                    cfg2: &TrainingConfig,
                    merged: Result<String, NebulaError>,
                |
                    #[trigger] adapter_merged(t2, adapter_path, cfg2, merged) && *t2 == *final(t1)
                        && *final(t2) == *final(trainer) && adapter_path@ == adapter@ && *cfg2
                        == config && match merged {
                        Err(e) => r == Err::<TrainingCompleteEvent, NebulaError>(e) && *final(publisher) == *old(publisher) && *final(notifier) == *old(notifier),
                        Ok(model) => exists|
                            mp: &mut P,
                            model_path: &str,
                            oci_ref: &str,
                            published: Result<String, NebulaError>,
                        |
                            #[trigger] model_published(mp, model_path, oci_ref, published) && *mp
                                == *old(publisher) && *final(mp) == *final(publisher)
                                && model_path@ == model@ && oci_ref@ == config.oci_ref@
                                && match published {
                                Err(e) => r == Err::<TrainingCompleteEvent, NebulaError>(e)
                                    && *final(notifier) == *old(notifier),
                                Ok(artifact_ref) => exists|
                                    mn: &mut U,
                                    topic: &str,
                                    sent: &TrainingCompleteEvent,
                                    x: Result<(), NebulaError>,
                                |
                                    #[trigger] ui_notified(mn, topic, sent, x) && *mn == *old(notifier) && *final(mn) == *final(notifier) && topic@
                                        == TRAINING_COMPLETE_TOPIC@ && sent.artifact_ref
                                        == artifact_ref && sent.output_model == model
                                        && sent.examples == event.examples && r == (match x {
                                        Ok(_) => Ok::<TrainingCompleteEvent, NebulaError>(*sent),
                                        Err(e) => Err(e),
                                    }),
                            },
                    },
            },
{
    let adapter = trainer.train_lora(event.dataset_path.as_str(), &config)?;
    let merged_model = trainer.merge_adapter(adapter.as_str(), &config)?;
    let artifact_ref = publisher.publish_with_wkg(merged_model.as_str(), config.oci_ref.as_str())?;
    let complete = TrainingCompleteEvent {
        artifact_ref,
        output_model: merged_model,
        examples: event.examples,
    };
    notifier.notify(TRAINING_COMPLETE_TOPIC, &complete)?;
    Ok(complete)
}

/// Whether `d` is the descriptor of variant `v`: same reference, digest and
/// size, annotated with the title and the minimum VRAM in GB.
pub open spec fn is_descriptor_of(v: QuantizedVariant, d: OciDescriptor) -> bool {
    &&& d.artifact_ref == v.artifact_ref
    &&& d.digest == v.digest
    &&& d.size_bytes == v.size_bytes
    &&& d.annotations@.len() == 2
    &&& d.annotations@[0].0@ == "org.opencontainers.image.title"@
    &&& d.annotations@[0].1 == v.title
    &&& d.annotations@[1].0@ == "tachyon.mesh/min-vram"@
    &&& d.annotations@[1].1@ == decimal(v.min_vram_gb as nat) + "GB"@
}

/// Whether `index` is the image index of `event` under `tag`: one descriptor
/// per variant, in order.
pub open spec fn is_index_of(event: QuantizationCompletedEvent, tag: Seq<char>, index: OciImageIndex) -> bool {
    &&& index.tag@ == tag
    &&& index.manifests@.len() == event.variants@.len()
    &&& forall|k: int|
        0 <= k < index.manifests@.len() ==> is_descriptor_of(
            event.variants@[k],
            #[trigger] index.manifests@[k],
        )
}

/// The descriptor of one variant.
fn descriptor_of(v: &QuantizedVariant) -> (d: OciDescriptor)
    ensures
        is_descriptor_of(*v, d),
{
    let mut vram = decimal_string(v.min_vram_gb as u64);
    append_str(&mut vram, "GB");
    let mut annotations: Vec<(String, String)> = Vec::new();
    annotations.push((owned("org.opencontainers.image.title"), v.title.clone()));
    annotations.push((owned("tachyon.mesh/min-vram"), vram));
    OciDescriptor {
        artifact_ref: v.artifact_ref.clone(),
        digest: v.digest.clone(),
        size_bytes: v.size_bytes,
        annotations,
    }
}

/// The OCI image index of the quantized variants under `tag`.
pub fn build_oci_image_index(event: &QuantizationCompletedEvent, tag: &str) -> (index: OciImageIndex)
    ensures
        is_index_of(*event, tag@, index),
{
    let mut manifests: Vec<OciDescriptor> = Vec::new();
    let mut k: usize = 0;
    while k < event.variants.len()
        invariant
            k <= event.variants.len(),
            manifests@.len() == k,
            forall|q: int|
                0 <= q < k ==> is_descriptor_of(event.variants@[q], #[trigger] manifests@[q]),
        decreases event.variants.len() - k,
    {
        manifests.push(descriptor_of(&event.variants[k]));
        k = k + 1;
    }
    OciImageIndex { tag: owned(tag), manifests }
}

/// Builds the image index of the quantized variants under `config.oci_ref`
/// and publishes it.
pub fn handle_quantization_completed<P: ArtifactPublisher>(
    publisher: &mut P,
    event: QuantizationCompletedEvent,
    config: &TrainingConfig,
) -> (r: Result<OciImageIndex, NebulaError>)
    ensures
        r matches Ok(index) ==> is_index_of(event, config.oci_ref@, index),
        exists|mp: &mut P, index: &OciImageIndex, x: Result<String, NebulaError>|
            #[trigger] index_published(mp, index, x) && *mp == *old(publisher) && *final(mp)
                == *final(publisher) && is_index_of(event, config.oci_ref@, *index) && r == (
            match x {
                Ok(_) => Ok::<OciImageIndex, NebulaError>(*index),
                Err(e) => Err(e),
            }),
{
    let index = build_oci_image_index(&event, config.oci_ref.as_str());
    publisher.publish_index(&index)?;
    Ok(index)
}

} // verus!
