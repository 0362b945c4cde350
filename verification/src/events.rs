//! Progress and outcome events the background jobs report. Plain records:
//! every field is a value the job already computed.
use vstd::prelude::*;

verus! {

/// A compression job started.
#[derive(Debug, Clone)]
pub struct StartedStatus {
    pub job_id: String,
    pub total_files: u32,
    pub total_size_kb: u32,
}

/// A compression job moved forward.
#[derive(Debug, Clone)]
pub struct ProgressStatus {
    pub job_id: String,
    pub processed_files: u32,
    pub total_files: u32,
    pub processed_size_kb: u32,
    pub total_size_kb: u32,
    pub percent_size: u32,
    pub percent_files: u32,
    pub current_file: String,
}

/// A compression job failed.
#[derive(Debug, Clone)]
pub struct FailedStatus {
    pub job_id: String,
    pub error: String,
}

/// A compression job was cancelled.
#[derive(Debug, Clone)]
pub struct CancelledStatus {
    pub job_id: String,
}

/// A catalog scan started.
#[derive(Debug, Clone)]
pub struct ScanStartedStatus {
    pub job_id: String,
    pub root: String,
}

/// A catalog scan moved forward.
#[derive(Debug, Clone)]
pub struct ScanProgressStatus {
    pub job_id: String,
    pub files_indexed: u32,
    pub current_dir: String,
}

/// A catalog scan failed.
#[derive(Debug, Clone)]
pub struct ScanFailedStatus {
    pub job_id: String,
    pub error: String,
}

/// A catalog scan was cancelled.
#[derive(Debug, Clone)]
pub struct ScanCancelledStatus {
    pub job_id: String,
}

/// A duplicate scan started.
#[derive(Debug, Clone)]
pub struct DuplicateStartedStatus {
    pub job_id: String,
}

/// A duplicate scan moved forward.
#[derive(Debug, Clone)]
pub struct DuplicateProgressStatus {
    pub job_id: String,
    pub processed: u32,
    pub total: u32,
}

/// A duplicate scan failed.
#[derive(Debug, Clone)]
pub struct DuplicateFailedStatus {
    pub job_id: String,
    pub error: String,
}

/// A duplicate scan was cancelled.
#[derive(Debug, Clone)]
pub struct DuplicateCancelledStatus {
    pub job_id: String,
}

/// A pack or unpack job started.
#[derive(Debug, Clone)]
pub struct PackStartedStatus {
    pub job_id: String,
    pub action: String,
    pub total_models: u32,
}

/// A pack or unpack job moved forward.
#[derive(Debug, Clone)]
pub struct PackProgressStatus {
    pub job_id: String,
    pub phase: String,
    pub current_model: String,
    pub model_index: u32,
    pub total_models: u32,
    pub processed_size_kb: u32,
    pub total_size_kb: u32,
    pub percent: u32,
}

/// A pack or unpack job failed.
#[derive(Debug, Clone)]
pub struct PackFailedStatus {
    pub job_id: String,
    pub error: String,
    pub succeeded: u32,
}

/// A pack or unpack job was cancelled.
#[derive(Debug, Clone)]
pub struct PackCancelledStatus {
    pub job_id: String,
    pub succeeded: u32,
}

/// Fetching a renderer started.
#[derive(Debug, Clone)]
pub struct ProvisionStartedStatus {
    pub job_id: String,
    pub version: String,
}

/// Fetching a renderer is unpacking it.
#[derive(Debug, Clone)]
pub struct ProvisionExtractingStatus {
    pub job_id: String,
    pub phase: String,
}

/// Fetching a renderer finished.
#[derive(Debug, Clone)]
pub struct ProvisionCompletedStatus {
    pub job_id: String,
    pub info: crate::models::BlenderInfo,
}

/// Fetching a renderer failed.
#[derive(Debug, Clone)]
pub struct ProvisionFailedStatus {
    pub job_id: String,
    pub error: String,
}

/// Fetching a renderer was cancelled.
#[derive(Debug, Clone)]
pub struct ProvisionCancelledStatus {
    pub job_id: String,
}

/// A render started.
#[derive(Debug, Clone)]
pub struct RenderStartedStatus {
    pub job_id: String,
    pub output_path: String,
}

/// A render moved forward.
#[derive(Debug, Clone)]
pub struct RenderProgressStatus {
    pub job_id: String,
    pub current_sample: u32,
    pub total_samples: u32,
    pub percent: u32,
}

/// A render failed.
#[derive(Debug, Clone)]
pub struct RenderFailedStatus {
    pub job_id: String,
    pub error: String,
}

/// A render was cancelled.
#[derive(Debug, Clone)]
pub struct RenderCancelledStatus {
    pub job_id: String,
}

} // verus!
