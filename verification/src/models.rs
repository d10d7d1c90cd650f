//! The manifest of bundled on-device models and the choice of a model and of
//! its build for a platform: the platform's own build when there is one,
//! else the shared build.

use vstd::prelude::*;
use crate::analysis::{InferenceTask, OnlineInferencePolicy};

verus! {

#[derive(PartialEq, Eq, Structural, Clone, Copy, Debug)]
pub enum ModelPlatform {
    Shared,
    Windows,
    Android,
}

pub struct ModelVariant {
    pub platform: ModelPlatform,
    pub format: String,
    pub file: String,
    pub source_url: String,
    pub sha256: String,
    pub size_bytes: u64,
}

pub struct BundledModelSpec {
    pub id: String,
    pub version: String,
    pub task: InferenceTask,
    pub license: String,
    pub homepage: String,
    pub labels: Vec<String>,
    pub variants: Vec<ModelVariant>,
}

pub struct ModelBundleManifest {
    pub schema_version: u32,
    pub online_inference_policy: OnlineInferencePolicy,
    pub models: Vec<BundledModelSpec>,
}

/// `i` is the first position in `models` whose model serves `task`.
pub open spec fn first_for_task(models: Seq<BundledModelSpec>, task: InferenceTask, i: int) -> bool {
    &&& 0 <= i < models.len()
    &&& models[i].task == task
    &&& forall|j: int| 0 <= j < i ==> #[trigger] models[j].task != task
}

/// `i` is the first position in `variants` built for `platform`.
pub open spec fn first_for_platform(variants: Seq<ModelVariant>, platform: ModelPlatform, i: int) -> bool {
    &&& 0 <= i < variants.len()
    &&& variants[i].platform == platform
    &&& forall|j: int| 0 <= j < i ==> #[trigger] variants[j].platform != platform
}

pub open spec fn has_platform(variants: Seq<ModelVariant>, platform: ModelPlatform) -> bool {
    exists|i: int| 0 <= i < variants.len() && #[trigger] variants[i].platform == platform
}

/// The position of the build chosen for `platform`: its own first build,
/// else the first shared build.
pub open spec fn chosen_variant(variants: Seq<ModelVariant>, platform: ModelPlatform, i: int) -> bool {
    if has_platform(variants, platform) {
        first_for_platform(variants, platform, i)
    } else {
        first_for_platform(variants, ModelPlatform::Shared, i)
    }
}

fn find_task(models: &Vec<BundledModelSpec>, task: InferenceTask) -> (res: Option<usize>)
    ensures
        match res {
            Some(i) => first_for_task(models@, task, i as int),
            None => forall|j: int| 0 <= j < models@.len() ==> #[trigger] models@[j].task != task,
        },
{
    let mut i: usize = 0;
    while i < models.len()
        invariant
            i <= models@.len(),
            forall|j: int| 0 <= j < i ==> #[trigger] models@[j].task != task,
        decreases models@.len() - i,
    {
        if models[i].task == task {
            return Some(i);
        }
        i += 1;
    }
    None
}

fn find_platform(variants: &Vec<ModelVariant>, platform: ModelPlatform) -> (res: Option<usize>)
    ensures
        match res {
            Some(i) => first_for_platform(variants@, platform, i as int),
            None => !has_platform(variants@, platform),
        },
{
    let mut i: usize = 0;
    while i < variants.len()
        invariant
            i <= variants@.len(),
            forall|j: int| 0 <= j < i ==> #[trigger] variants@[j].platform != platform,
        decreases variants@.len() - i,
    {
        if variants[i].platform == platform {
            return Some(i);
        }
        i += 1;
    }
    None
}

impl ModelBundleManifest {
    /// The first bundled model for `task`, if any.
    pub fn model_for_task(&self, task: InferenceTask) -> (res: Option<&BundledModelSpec>)
        ensures
            match res {
                Some(m) => exists|i: int| first_for_task(self.models@, task, i) && *m == self.models@[i],
                None => forall|j: int| 0 <= j < self.models@.len() ==> #[trigger] self.models@[j].task != task,
            },
    {
        match find_task(&self.models, task) {
            Some(i) => Some(&self.models[i]),
            None => None,
        }
    }

    /// The model for `task` and its build for `platform`, falling back to the
    /// shared build; `None` when there is no model, or neither build.
    pub fn variant_for(&self, task: InferenceTask, platform: ModelPlatform) -> (res: Option<(&BundledModelSpec, &ModelVariant)>)
        ensures
            match res {
                Some((m, v)) => exists|i: int, k: int| first_for_task(self.models@, task, i) && *m == self.models@[i]
                    && chosen_variant(self.models@[i].variants@, platform, k) && *v == self.models@[i].variants@[k],
                None => forall|i: int| first_for_task(self.models@, task, i)
                    ==> !has_platform(self.models@[i].variants@, platform)
                        && !has_platform(self.models@[i].variants@, ModelPlatform::Shared),
            },
    {
        let i = match find_task(&self.models, task) {
            Some(i) => i,
            None => return None,
        };
        let model = &self.models[i];
        proof {
            assert forall|i2: int| first_for_task(self.models@, task, i2) implies i2 == i as int by {
                if i2 < i as int {
                    assert(self.models@[i2].task != task);
                } else if i2 > i as int {
                    assert(self.models@[i as int].task != task);
                }
            }
        }
        let k = match find_platform(&model.variants, platform) {
            Some(k) => k,
            None => match find_platform(&model.variants, ModelPlatform::Shared) {
                Some(k) => k,
                None => return None,
            },
        };
        Some((model, &model.variants[k]))
    }
}

} // verus!
