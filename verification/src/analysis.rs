//! Local inference tasks, backends and the versioned analysis cache key. A
//! cached result is reused only under its exact key: asset, source and
//! preview revision, task, model, model version and configuration.

use vstd::prelude::*;

verus! {

#[derive(PartialEq, Eq, Structural, Clone, Copy, Debug)]
pub enum InferenceTask {
    PortraitClassification,
    SceneClassification,
    PersonDetection,
    FaceDetection,
    ImageEmbedding,
    FaceEmbedding,
    Segmentation,
    QualityScoring,
}

#[derive(PartialEq, Eq, Structural, Clone, Copy, Debug)]
pub enum InferenceBackend {
    Cpu,
    DirectMl,
    Cuda,
    TensorRt,
    Nnapi,
    Qnn,
    Vulkan,
}

pub struct LocalModelDescriptor {
    pub id: String,
    pub version: String,
    pub task: InferenceTask,
    pub artifact_path: String,
    pub preferred_backends: Vec<InferenceBackend>,
    pub input_revision: String,
}

#[derive(PartialEq, Eq, Structural, Clone, Copy, Debug)]
pub enum OnlineInferencePolicy {
    Disabled,
    ExplicitOnly,
}

impl Default for OnlineInferencePolicy {
    /// Inference stays on the device unless explicitly asked for.
    fn default() -> (res: Self)
        ensures
            res == OnlineInferencePolicy::Disabled,
    {
        OnlineInferencePolicy::Disabled
    }
}

pub struct AnalysisCacheKey {
    pub asset_id: u128,
    pub source_fingerprint: String,
    pub preview_revision: String,
    pub task: InferenceTask,
    pub model_id: String,
    pub model_version: String,
    pub config_hash: String,
}

/// A cached analysis result; the payload is its JSON text.
pub struct AnalysisArtifact {
    pub key: AnalysisCacheKey,
    pub payload_json: String,
}

pub enum AnalysisCacheError {
    Sqlite(String),
    Io(String),
    Json(String),
}

/// The analysis cache kept in the database at `path`.
pub struct AnalysisCache {
    path: String,
}

impl AnalysisCache {
    pub closed spec fn location(&self) -> Seq<char> {
        self.path@
    }

    /// The cache kept at `path`; opening the database is the caller's part.
    pub fn at(path: String) -> (res: Self)
        ensures
            res.location() == path@,
    {
        AnalysisCache { path }
    }

    pub fn path(&self) -> (res: &str)
        ensures
            res@ == self.location(),
    {
        self.path.as_str()
    }
}

impl Clone for AnalysisCache {
    fn clone(&self) -> (res: Self)
        ensures
            res.location() == self.location(),
    {
        AnalysisCache { path: self.path.clone() }
    }
}

/// The name under which a task is stored.
pub open spec fn task_text(task: InferenceTask) -> Seq<char> {
    match task {
        InferenceTask::PortraitClassification => "PORTRAIT_CLASSIFICATION"@,
        InferenceTask::SceneClassification => "SCENE_CLASSIFICATION"@,
        InferenceTask::PersonDetection => "PERSON_DETECTION"@,
        InferenceTask::FaceDetection => "FACE_DETECTION"@,
        InferenceTask::ImageEmbedding => "IMAGE_EMBEDDING"@,
        InferenceTask::FaceEmbedding => "FACE_EMBEDDING"@,
        InferenceTask::Segmentation => "SEGMENTATION"@,
        InferenceTask::QualityScoring => "QUALITY_SCORING"@,
    }
}

pub fn task_to_db(task: InferenceTask) -> (res: &'static str)
    ensures
        res@ == task_text(task),
{
    match task {
        InferenceTask::PortraitClassification => "PORTRAIT_CLASSIFICATION",
        InferenceTask::SceneClassification => "SCENE_CLASSIFICATION",
        InferenceTask::PersonDetection => "PERSON_DETECTION",
        InferenceTask::FaceDetection => "FACE_DETECTION",
        InferenceTask::ImageEmbedding => "IMAGE_EMBEDDING",
        InferenceTask::FaceEmbedding => "FACE_EMBEDDING",
        InferenceTask::Segmentation => "SEGMENTATION",
        InferenceTask::QualityScoring => "QUALITY_SCORING",
    }
}

} // verus!
