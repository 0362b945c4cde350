//! The records the release builder and the settings file carry.
use vstd::prelude::*;

verus! {

/// How a release is packed.
#[derive(Debug, Clone, Copy, PartialEq, Eq, Structural)]
pub enum CompressionType {
    SevenZip,
    Zip,
}

/// The user's settings.
#[derive(Debug, Clone)]
pub struct Settings {
    pub scratch_dir: Option<String>,
    pub target_dir: Option<String>,
    pub compression_type: Option<CompressionType>,
    pub chunk_size: Option<u32>,
    pub max_compression_threads: Option<u32>,
    pub blender_path: Option<String>,
    pub catalog_root: Option<String>,
    /// Studios the scanner recognizes in folder names to infer a designer.
    pub known_designers: Option<Vec<String>>,
    /// What the catalog's print button does.
    pub print_action: Option<String>,
    /// Release-builder fields kept across drafts, keyed by field id.
    pub release_field_defaults: Option<std::collections::HashMap<String, String>>,
}

/// A renderer installation: where it is and what version it reports.
#[derive(Debug, Clone)]
pub struct BlenderInfo {
    pub path: String,
    pub version: String,
}

/// Where a model referenced by a release lives.
#[derive(Debug, Clone)]
pub enum ModelLocation {
    Local(String),
    External(String),
}

/// A per-file pose/variant assignment recorded in a `model.json`; `name`
/// is the file's base name.
#[derive(Debug, Clone)]
pub struct FilePose {
    pub name: String,
    pub variant: Option<String>,
    pub pose: Option<String>,
    pub support_status: Option<String>,
}

/// A model as its `model.json` describes it; the id is the UUID's text.
#[derive(Debug, Clone)]
pub struct StlModel {
    pub id: Option<String>,
    pub name: String,
    pub description: Option<String>,
    pub tags: Vec<String>,
    pub images: Vec<String>,
    pub model_files: Vec<String>,
    pub group: Option<String>,
    pub variant: Option<String>,
    pub pose: Option<String>,
    pub scale: Option<String>,
    pub support_status: Option<String>,
    pub release_date: Option<String>,
    pub designer: Option<String>,
    pub sculptor: Option<String>,
    pub release_name: Option<String>,
    /// Round base diameter in mm.
    pub base_round_mm: Option<u32>,
    /// Square base side in mm.
    pub base_square_mm: Option<u32>,
    pub file_poses: Vec<FilePose>,
}

} // verus!
