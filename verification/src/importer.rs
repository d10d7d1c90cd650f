//! RAW import: the scanned RAW files become catalogued assets, a batch whose
//! jobs start at Analyze, and the initial moment groups of that batch. The
//! catalog and batch databases are written by the caller.

use vstd::prelude::*;
use crate::batch::{batch_defaults, fresh_item, Batch, BatchStage};
use crate::catalog::{CatalogError, RawCatalog};
use crate::grouping::{
    group_matches, in_order, initial_group_raw_assets, is_timeline_order, moment_segments,
    InitialGroupingConfig, PhotoGroup,
};
use crate::raw::RawAsset;

verus! {

pub struct RawImportResult {
    pub assets: Vec<RawAsset>,
    pub groups: Vec<PhotoGroup>,
    pub batch: Option<Batch>,
    pub skipped_non_raw: Vec<String>,
}

pub enum RawImportError {
    Catalog(CatalogError),
    Runner(String),
    Io(String),
}

/// Imports RAW files into the project database at `project_db`.
pub struct RawImporter {
    catalog: RawCatalog,
    project_db: String,
    grouping: InitialGroupingConfig,
}

/// `groups` are the moment groups of `assets` under `config`: the runs of
/// the assets' timeline order.
pub open spec fn grouped_as(assets: Seq<RawAsset>, config: InitialGroupingConfig, groups: Seq<PhotoGroup>) -> bool {
    exists|ord: Seq<usize>| {
        &&& is_timeline_order(assets, ord)
        &&& #[trigger] moment_segments(in_order(assets, ord), config).len() == groups.len()
        &&& forall|g: int| 0 <= g < groups.len()
            ==> group_matches(#[trigger] groups[g], moment_segments(in_order(assets, ord), config)[g])
    }
}

impl RawImporter {
    pub closed spec fn grouping_view(&self) -> InitialGroupingConfig {
        self.grouping
    }

    pub closed spec fn project_location(&self) -> Seq<char> {
        self.project_db@
    }

    pub closed spec fn catalog_location(&self) -> Seq<char> {
        self.catalog.location()
    }

    /// The importer for the project database at `project_db`, with the
    /// default grouping gaps; opening the databases is the caller's part.
    pub fn at(project_db: String) -> (res: Self)
        ensures
            res.project_location() == project_db@,
            res.catalog_location() == project_db@,
            res.grouping_view() == (InitialGroupingConfig { short_gap_ms: 1_500, max_gap_ms: 4_000, max_sequence_gap: 1 }),
    {
        let catalog = RawCatalog::at(project_db.clone());
        RawImporter { catalog, project_db, grouping: InitialGroupingConfig::default() }
    }

    pub fn with_grouping_config(self, grouping: InitialGroupingConfig) -> (res: Self)
        ensures
            res.grouping_view() == grouping,
            res.project_location() == self.project_location(),
            res.catalog_location() == self.catalog_location(),
    {
        RawImporter { grouping, ..self }
    }

    pub fn catalog(&self) -> (res: &RawCatalog)
        ensures
            res.location() == self.catalog_location(),
    {
        &self.catalog
    }

    pub fn project_db(&self) -> (res: &str)
        ensures
            res@ == self.project_location(),
    {
        self.project_db.as_str()
    }

    pub fn grouping(&self) -> (res: InitialGroupingConfig)
        ensures
            res == self.grouping_view(),
    {
        self.grouping
    }

    /// What an import of the catalogued `assets` produces: nothing more when
    /// there are none; otherwise a batch named `batch_name` with one Analyze
    /// job per asset (in order, by source path) and the assets' moment groups.
    pub fn import_outcome(&self, batch_name: String, assets: Vec<RawAsset>, skipped_non_raw: Vec<String>) -> (res: RawImportResult)
        ensures
            res.assets@ == assets@,
            res.skipped_non_raw@ == skipped_non_raw@,
            assets@.len() == 0 ==> res.batch is None && res.groups@.len() == 0,
            assets@.len() > 0 ==> (res.batch matches Some(b) && batch_defaults(b, batch_name@)
                && b.items@.len() == assets@.len()
                && (forall|i: int| 0 <= i < assets@.len()
                    ==> fresh_item(#[trigger] b.items@[i], None, assets@[i].source_path@, BatchStage::Analyze))
                && grouped_as(assets@, self.grouping_view(), res.groups@)),
    {
        if assets.len() == 0 {
            return RawImportResult { assets, groups: Vec::new(), batch: None, skipped_non_raw };
        }
        let mut paths: Vec<String> = Vec::new();
        let mut i: usize = 0;
        while i < assets.len()
            invariant
                i <= assets@.len(),
                paths@.len() == i,
                forall|j: int| 0 <= j < i ==> (#[trigger] paths@[j])@ == assets@[j].source_path@,
            decreases assets@.len() - i,
        {
            paths.push(assets[i].source_path.clone());
            i += 1;
        }
        let batch = Batch::from_imported(batch_name, paths);
        let groups = initial_group_raw_assets(assets.as_slice(), self.grouping);
        RawImportResult { assets, groups, batch: Some(batch), skipped_non_raw }
    }
}

} // verus!
