//! The event payloads the engine hands to the UI layer: throttled progress
//! readings and status transitions.

use vstd::prelude::*;
use vstd::string::StringExecFns;

use crate::fetch::ProgressUpdate;
use crate::status::DownloadStatus;

verus! {

/// The `progress` event: a throttled reading of one job's transfer.
#[derive(Debug)]
pub struct ProgressPayload {
    pub id: String,
    /// Whole percentage in `0..=100`.
    pub progress: u8,
    pub downloaded_bytes: u64,
    /// Bytes per second.
    pub speed: u64,
}

/// The `status` event: one job's lifecycle transition, with the final path
/// on completion and the reason on failure.
#[derive(Debug)]
pub struct StatusPayload {
    pub id: String,
    pub status: String,
    pub file_path: Option<String>,
    pub error: Option<String>,
}

/// Builds the `progress` event for a reading of the job's tracker.
pub fn progress_payload(id: &str, update: &ProgressUpdate) -> (r: ProgressPayload)
    ensures
        r.id@ == id@,
        r.progress == update.percent,
        r.downloaded_bytes == update.downloaded_bytes,
        r.speed == update.speed_bytes_per_sec,
{
    ProgressPayload {
        id: id.to_owned(),
        progress: update.percent,
        downloaded_bytes: update.downloaded_bytes,
        speed: update.speed_bytes_per_sec,
    }
}

/// Builds the `status` event for a transition of the job into `status`.
pub fn status_payload(
    id: &str,
    status: DownloadStatus,
    file_path: Option<String>,
    error: Option<String>,
) -> (r: StatusPayload)
    ensures
        r.id@ == id@,
        r.status@ == status.spec_str(),
        r.file_path == file_path,
        r.error == error,
{
    StatusPayload { id: id.to_owned(), status: String::from_str(status.as_str()), file_path, error }
}

} // verus!
