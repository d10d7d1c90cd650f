//! Verified core of a local-first RAW photo workflow: import planning, capture
//! timeline parsing, moment grouping, batch stage progression and export planning.

pub mod text;
pub mod path;
pub mod ids;
pub mod raw;
pub mod metadata;
pub mod grouping;
pub mod batch;
pub mod export;
pub mod export_store;
pub mod handoff;
pub mod export_worker;
pub mod batch_export;
pub mod export_stage;
pub mod pipeline;
pub mod analysis;
pub mod models;
pub mod preview;
pub mod catalog;
pub mod culling_store;
pub mod classification;
pub mod classification_store;
pub mod recipe_review_store;
pub mod importer;
pub mod culling;
pub mod color_sync;
pub mod edit_preview;
pub mod bracketing;
pub mod bracketing_store;
pub mod color_sync_store;
pub mod companion_store;
pub mod metadata_store;
pub mod reference_store;
pub mod companion;
pub mod reference;
pub mod worker;
pub mod workflow;
