//! Portrait or not: where a classified photo is routed and whether portrait
//! retouching may run on it. The classifier's scores are computed outside the
//! library; what it decided is carried here as plain values.

use vstd::prelude::*;

verus! {

#[derive(PartialEq, Eq, Structural, Clone, Copy, Debug)]
pub enum PhotoCategory {
    Portrait,
    NonPortrait,
}

#[derive(PartialEq, Eq, Structural, Clone, Copy, Debug)]
pub enum SceneTag {
    Landscape,
    Architecture,
    Food,
    Night,
    Document,
    Other,
}

#[derive(PartialEq, Eq, Structural, Clone, Copy, Debug)]
pub enum ProcessingRoute {
    Portrait,
    Scene,
}

#[derive(PartialEq, Eq, Structural, Clone, Copy, Debug)]
pub enum ClassificationInvalidationScope {
    SemanticGroupingAndRetouch,
}

#[derive(PartialEq, Eq, Structural, Clone, Copy, Debug)]
pub struct ClassificationInvalidation {
    pub asset_id: u128,
    pub scope: ClassificationInvalidationScope,
}

/// Portraits take the portrait route, everything else the scene route.
pub fn processing_route(category: PhotoCategory) -> (res: ProcessingRoute)
    ensures
        res == (match category {
            PhotoCategory::Portrait => ProcessingRoute::Portrait,
            PhotoCategory::NonPortrait => ProcessingRoute::Scene,
        }),
{
    match category {
        PhotoCategory::Portrait => ProcessingRoute::Portrait,
        PhotoCategory::NonPortrait => ProcessingRoute::Scene,
    }
}

/// Retouching runs only on a portrait the classifier marked as eligible.
pub fn should_run_portrait_retouch(category: PhotoCategory, portrait_retouch_eligible: bool) -> (res: bool)
    ensures
        res == (category == PhotoCategory::Portrait && portrait_retouch_eligible),
{
    category == PhotoCategory::Portrait && portrait_retouch_eligible
}

/// Reclassifying a photo invalidates its semantic grouping and retouching.
pub fn reclassification_invalidation(asset_id: u128) -> (res: ClassificationInvalidation)
    ensures
        res.asset_id == asset_id,
        res.scope == ClassificationInvalidationScope::SemanticGroupingAndRetouch,
{
    ClassificationInvalidation { asset_id, scope: ClassificationInvalidationScope::SemanticGroupingAndRetouch }
}

} // verus!
