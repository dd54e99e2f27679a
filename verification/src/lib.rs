//! Verified core of a media download engine: a durable job store, a bounded
//! concurrent scheduler with a per-job lifecycle state machine, two fetch
//! protocols (range-resumable direct HTTP and segmented HLS) modelled as
//! step machines, and a smart-download policy that chains episodes.


pub mod events;
pub mod fetch;
pub mod hls;
pub mod manager;
pub mod paths;
pub mod record;
pub mod seqs;
pub mod status;
pub mod store;
pub mod text;
