//! Lifecycle states and quality preferences of a download job, with their
//! wire-format string representations.

use vstd::prelude::*;

verus! {

/// Lifecycle state of a download job. `Completed`, `Failed` and `Cancelled`
/// are terminal.
#[derive(Clone, Copy, Debug, PartialEq, Eq, Structural)]
pub enum DownloadStatus {
    Queued,
    Downloading,
    Paused,
    Completed,
    Failed,
    Cancelled,
}

impl DownloadStatus {
    /// A terminal job admits no further transition other than deletion.
    pub open spec fn is_terminal(self) -> bool {
        self is Completed || self is Failed || self is Cancelled
    }

    /// The string under which this status is stored and reported.
    pub open spec fn spec_str(self) -> Seq<char> {
        match self {
            DownloadStatus::Queued => "queued"@,
            DownloadStatus::Downloading => "downloading"@,
            DownloadStatus::Paused => "paused"@,
            DownloadStatus::Completed => "completed"@,
            DownloadStatus::Failed => "failed"@,
            DownloadStatus::Cancelled => "cancelled"@,
        }
    }

    pub fn as_str(&self) -> (r: &'static str)
        ensures
            r@ == self.spec_str(),
    {
        match self {
            DownloadStatus::Queued => "queued",
            DownloadStatus::Downloading => "downloading",
            DownloadStatus::Paused => "paused",
            DownloadStatus::Completed => "completed",
            DownloadStatus::Failed => "failed",
            DownloadStatus::Cancelled => "cancelled",
        }
    }

    /// The status a stored string decodes to; anything unrecognised reads as
    /// `Cancelled`.
    pub open spec fn spec_from_str(s: Seq<char>) -> DownloadStatus {
        if s == "queued"@ {
            DownloadStatus::Queued
        } else if s == "downloading"@ {
            DownloadStatus::Downloading
        } else if s == "paused"@ {
            DownloadStatus::Paused
        } else if s == "completed"@ {
            DownloadStatus::Completed
        } else if s == "failed"@ {
            DownloadStatus::Failed
        } else {
            DownloadStatus::Cancelled
        }
    }

    pub fn from_str(s: &str) -> (r: Self)
        ensures
            r == Self::spec_from_str(s@),
    {
        if crate::text::str_eq(s, "queued") {
            DownloadStatus::Queued
        } else if crate::text::str_eq(s, "downloading") {
            DownloadStatus::Downloading
        } else if crate::text::str_eq(s, "paused") {
            DownloadStatus::Paused
        } else if crate::text::str_eq(s, "completed") {
            DownloadStatus::Completed
        } else if crate::text::str_eq(s, "failed") {
            DownloadStatus::Failed
        } else {
            DownloadStatus::Cancelled
        }
    }
}

/// HLS variant preference of a job.
#[derive(Clone, Copy, Debug, PartialEq, Eq, Structural)]
pub enum DownloadQuality {
    Standard,
    Higher,
    Best,
}

impl DownloadQuality {
    /// The string under which this preference is stored and reported.
    pub open spec fn spec_str(self) -> Seq<char> {
        match self {
            DownloadQuality::Standard => "standard"@,
            DownloadQuality::Higher => "higher"@,
            DownloadQuality::Best => "best"@,
        }
    }

    pub fn as_str(&self) -> (r: &'static str)
        ensures
            r@ == self.spec_str(),
    {
        match self {
            DownloadQuality::Standard => "standard",
            DownloadQuality::Higher => "higher",
            DownloadQuality::Best => "best",
        }
    }

    /// The preference a stored string decodes to; anything unrecognised reads
    /// as `Standard`.
    pub open spec fn spec_from_str(s: Seq<char>) -> DownloadQuality {
        if s == "higher"@ {
            DownloadQuality::Higher
        } else if s == "best"@ {
            DownloadQuality::Best
        } else {
            DownloadQuality::Standard
        }
    }

    pub fn from_str(s: &str) -> (r: Self)
        ensures
            r == Self::spec_from_str(s@),
    {
        if crate::text::str_eq(s, "higher") {
            DownloadQuality::Higher
        } else if crate::text::str_eq(s, "best") {
            DownloadQuality::Best
        } else {
            DownloadQuality::Standard
        }
    }
}

} // verus!
