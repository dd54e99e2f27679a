//! Progress accounting of a running fetch, shared by the direct and the HLS
//! engine: resume arithmetic, whole-percent progress with events throttled
//! to one per percent, the notification policy (every crossed 10% boundary
//! or 30 s), and integer transfer speed.
//!
//! The trackers keep a ghost history of every percentage they asked the
//! driver to emit; the history is provably monotone, so no progress event of
//! a job ever reports less than an earlier one.

use vstd::prelude::*;

use crate::text;

verus! {

/// Milliseconds after which a notification fires even without a crossed
/// 10% boundary.
pub const NOTIFY_INTERVAL_MS: u64 = 30_000;

/// A progress event the driver is asked to emit and persist.
#[derive(Clone, Copy, Debug, PartialEq, Eq, Structural)]
pub struct ProgressUpdate {
    /// Whole percentage in `0..=99`; full progress is only ever reported by
    /// the completion transition.
    pub percent: u8,
    /// Bytes written so far, the resume offset included.
    pub downloaded_bytes: u64,
    /// Cumulative transfer speed in bytes per second.
    pub speed_bytes_per_sec: u64,
}

/// What one unit of transferred data asks the driver to do.
#[derive(Clone, Copy, Debug, PartialEq, Eq, Structural)]
pub struct ProgressActions {
    /// Emit a `progress` event and persist the reading, on a >= 1% change.
    pub emit: Option<ProgressUpdate>,
    /// Fire an OS notification.
    pub notify: bool,
}

/// Builds the `Range` request header value for a direct fetch that resumes
/// after `existing_bytes` bytes of the part file; a fresh fetch sends none.
pub fn resume_request(existing_bytes: u64) -> (r: Option<String>)
    ensures
        match r {
            Some(s) => existing_bytes > 0 && s@ == text::spec_range_value(existing_bytes),
            None => existing_bytes == 0,
        },
{
    if existing_bytes > 0 {
        Some(text::range_header_value(existing_bytes))
    } else {
        None
    }
}

/// The total size of a resumed direct download: the advertised content
/// length plus the resume offset; unknown when the server sent no length or
/// the sum does not fit.
pub open spec fn spec_total_with_offset(content_length: Option<u64>, offset: u64) -> Option<u64> {
    match content_length {
        Some(c) => if c + offset > u64::MAX {
            None
        } else {
            Some((c + offset) as u64)
        },
        None => None,
    }
}

/// Adds the resume offset to the advertised content length.
pub fn total_with_offset(content_length: Option<u64>, offset: u64) -> (r: Option<u64>)
    ensures
        r == spec_total_with_offset(content_length, offset),
{
    match content_length {
        Some(c) => c.checked_add(offset),
        None => None,
    }
}

/// The whole-percent progress of a direct fetch: bytes over total, clamped
/// to 99 while running; 0 when the total is unknown or zero.
pub open spec fn spec_direct_percent(downloaded: u64, total: Option<u64>) -> u8 {
    match total {
        Some(t) => if t == 0 {
            0
        } else if downloaded as int * 100 / (t as int) < 99 {
            (downloaded as int * 100 / (t as int)) as u8
        } else {
            99
        },
        None => 0,
    }
}

/// The whole-percent progress of an HLS fetch: segments done over segments
/// total, clamped to 99 while running.
pub open spec fn spec_segment_percent(done: u64, total: u64) -> u8
    recommends
        total > 0,
{
    if total == 0 {
        0
    } else if done as int * 100 / (total as int) < 99 {
        (done as int * 100 / (total as int)) as u8
    } else {
        99
    }
}

/// Cumulative transfer speed: bytes over elapsed seconds, with at least one
/// millisecond of elapsed time counted, saturating.
pub open spec fn spec_speed(bytes: u64, elapsed_ms: u64) -> u64 {
    let ms = if elapsed_ms == 0 {
        1
    } else {
        elapsed_ms as int
    };
    if bytes * 1000 / ms > u64::MAX {
        u64::MAX
    } else {
        (bytes * 1000 / ms) as u64
    }
}

/// Computes the cumulative transfer speed in bytes per second.
pub fn transfer_speed(bytes: u64, elapsed_ms: u64) -> (r: u64)
    ensures
        r == spec_speed(bytes, elapsed_ms),
{
    let ms: u128 = if elapsed_ms == 0 {
        1
    } else {
        elapsed_ms as u128
    };
    let q: u128 = (bytes as u128) * 1000 / ms;
    if q > 0xffff_ffff_ffff_ffff {
        u64::MAX
    } else {
        q as u64
    }
}

/// An event is emitted when no reading was emitted yet, or the percentage
/// rose by at least one whole percent.
pub open spec fn spec_should_emit(last: Option<u8>, percent: u8) -> bool {
    match last {
        Some(l) => percent >= l + 1,
        None => true,
    }
}

/// A notification fires when the reading crosses a 10% boundary or the last
/// notification is 30 s old.
pub open spec fn spec_should_notify(last_pct: u8, percent: u8, ms_since_last: u64) -> bool {
    percent / 10 > last_pct / 10 || ms_since_last >= NOTIFY_INTERVAL_MS
}

/// Progress accounting of one direct HTTP fetch.
pub struct DirectProgress {
    /// Advertised total, resume offset included; `None` when unknown.
    pub total_bytes: Option<u64>,
    /// Bytes in the part file, the resume offset included.
    pub downloaded: u64,
    /// Bytes transferred by this run (the resume offset not included).
    pub run_bytes: u64,
    /// The last emitted percentage.
    pub last_emitted: Option<u8>,
    /// The percentage of the last notification.
    pub last_notified: u8,
    /// Every percentage emitted so far, in order.
    pub emitted: Ghost<Seq<u8>>,
    /// The bytes this run appended to the part file: the concatenation of
    /// the received chunks, in arrival order.
    pub run_content: Ghost<Seq<u8>>,
}

impl DirectProgress {
    /// The percentage the tracker currently stands at.
    pub open spec fn current_percent(self) -> u8 {
        spec_direct_percent(self.downloaded, self.total_bytes)
    }

    /// The emission history is monotone, capped below full progress, ends in
    /// the last emitted reading, and never runs ahead of the current state.
    pub open spec fn wf(self) -> bool {
        &&& forall|i: int, j: int|
            0 <= i <= j < self.emitted@.len() ==> self.emitted@[i] <= self.emitted@[j]
        &&& forall|i: int| 0 <= i < self.emitted@.len() ==> self.emitted@[i] <= 99
        &&& match self.last_emitted {
            Some(l) => self.emitted@.len() > 0 && self.emitted@.last() == l && l
                <= self.current_percent(),
            None => self.emitted@.len() == 0,
        }
        &&& self.run_content@.len() == self.run_bytes
    }

    /// Opens accounting for a fetch that resumes after `resume_offset` bytes
    /// against an advertised content length.
    pub fn start(resume_offset: u64, content_length: Option<u64>) -> (r: Self)
        ensures
            r.wf(),
            r.total_bytes == spec_total_with_offset(content_length, resume_offset),
            r.downloaded == resume_offset,
            r.run_bytes == 0,
            r.last_emitted is None,
            r.last_notified == 0,
            r.emitted@ == Seq::<u8>::empty(),
            r.run_content@ == Seq::<u8>::empty(),
    {
        DirectProgress {
            total_bytes: total_with_offset(content_length, resume_offset),
            downloaded: resume_offset,
            run_bytes: 0,
            last_emitted: None,
            last_notified: 0,
            emitted: Ghost(Seq::empty()),
            run_content: Ghost(Seq::empty()),
        }
    }

    /// Accounts one received chunk: the run's content grows by exactly the
    /// chunk's bytes, the byte counters follow, a progress event is emitted
    /// on a >= 1% change, and a notification fires on a crossed 10% boundary
    /// or after 30 s.
    pub fn on_chunk(&mut self, chunk: &[u8], elapsed_ms: u64, ms_since_notify: u64) -> (r:
        ProgressActions)
        requires
            old(self).wf(),
            old(self).downloaded + chunk@.len() <= u64::MAX,
            old(self).run_bytes + chunk@.len() <= u64::MAX,
        ensures
            final(self).wf(),
            final(self).total_bytes == old(self).total_bytes,
            final(self).downloaded == old(self).downloaded + chunk@.len(),
            final(self).run_bytes == old(self).run_bytes + chunk@.len(),
            final(self).run_content@ == old(self).run_content@ + chunk@,
            ({
                let pct = spec_direct_percent(
                    (old(self).downloaded + chunk@.len()) as u64,
                    old(self).total_bytes,
                );
                &&& r.emit == (if spec_should_emit(old(self).last_emitted, pct) {
                    Some(
                        ProgressUpdate {
                            percent: pct,
                            downloaded_bytes: (old(self).downloaded + chunk@.len()) as u64,
                            speed_bytes_per_sec: spec_speed(
                                (old(self).run_bytes + chunk@.len()) as u64,
                                elapsed_ms,
                            ),
                        },
                    )
                } else {
                    None::<ProgressUpdate>
                })
                &&& r.emit is Some ==> {
                    &&& final(self).emitted@ == old(self).emitted@.push(pct)
                    &&& final(self).last_emitted == Some(pct)
                }
                &&& r.emit is None ==> {
                    &&& final(self).emitted@ == old(self).emitted@
                    &&& final(self).last_emitted == old(self).last_emitted
                }
                &&& r.notify == (r.emit is Some && spec_should_notify(
                    old(self).last_notified,
                    pct,
                    ms_since_notify,
                ))
                &&& final(self).last_notified == (if r.notify {
                    pct
                } else {
                    old(self).last_notified
                })
            }),
    {
        let chunk_len = chunk.len() as u64;
        self.downloaded = self.downloaded + chunk_len;
        self.run_bytes = self.run_bytes + chunk_len;
        proof {
            self.run_content@ = self.run_content@ + chunk@;
        }
        let pct = direct_percent(self.downloaded, self.total_bytes);
        proof {
            lemma_direct_percent_monotone(old(self).downloaded, self.downloaded, self.total_bytes);
        }
        let should = match self.last_emitted {
            Some(l) => pct >= l + 1,
            None => true,
        };
        if should {
            let speed = transfer_speed(self.run_bytes, elapsed_ms);
            self.last_emitted = Some(pct);
            proof {
                self.emitted@ = self.emitted@.push(pct);
            }
            let notify = pct / 10 > self.last_notified / 10 || ms_since_notify
                >= NOTIFY_INTERVAL_MS;
            if notify {
                self.last_notified = pct;
            }
            ProgressActions {
                emit: Some(
                    ProgressUpdate {
                        percent: pct,
                        downloaded_bytes: self.downloaded,
                        speed_bytes_per_sec: speed,
                    },
                ),
                notify,
            }
        } else {
            ProgressActions { emit: None, notify: false }
        }
    }
}

/// Computes the whole-percent progress of a direct fetch.
fn direct_percent(downloaded: u64, total: Option<u64>) -> (r: u8)
    ensures
        r == spec_direct_percent(downloaded, total),
{
    match total {
        Some(t) => {
            if t == 0 {
                0
            } else {
                let p: u128 = (downloaded as u128) * 100 / (t as u128);
                if p < 99 {
                    p as u8
                } else {
                    99
                }
            }
        },
        None => 0,
    }
}

/// Progress never falls: more bytes over the same total give at least the
/// same percentage.
proof fn lemma_direct_percent_monotone(d1: u64, d2: u64, total: Option<u64>)
    requires
        d1 <= d2,
    ensures
        spec_direct_percent(d1, total) <= spec_direct_percent(d2, total),
{
    match total {
        Some(t) => {
            if t > 0 {
                vstd::arithmetic::div_mod::lemma_div_is_ordered(
                    d1 as int * 100,
                    d2 as int * 100,
                    t as int,
                );
            }
        },
        None => {},
    }
}

/// Monotone progress: of two events a tracker asked the driver to emit, the
/// later never carries a smaller percentage than the earlier.
pub proof fn lemma_progress_monotone(t: DirectProgress, i: int, j: int)
    requires
        t.wf(),
        0 <= i <= j < t.emitted@.len(),
    ensures
        t.emitted@[i] <= t.emitted@[j],
{
}

/// Progress accounting of one HLS fetch over a fixed list of segments.
pub struct HlsProgress {
    /// Number of segments of the selected media playlist.
    pub total_segments: u64,
    /// Segments fetched and appended so far.
    pub done: u64,
    /// Bytes appended so far by this run.
    pub run_bytes: u64,
    /// The last emitted percentage.
    pub last_emitted: Option<u8>,
    /// The percentage of the last notification.
    pub last_notified: u8,
    /// Every percentage emitted so far, in order.
    pub emitted: Ghost<Seq<u8>>,
    /// The bytes this run appended to the part file: the concatenation of
    /// the fetched segments, in playlist order.
    pub run_content: Ghost<Seq<u8>>,
}

impl HlsProgress {
    /// The percentage the tracker currently stands at.
    pub open spec fn current_percent(self) -> u8 {
        spec_segment_percent(self.done, self.total_segments)
    }

    /// As for the direct tracker, plus: no more segments are done than the
    /// playlist holds.
    pub open spec fn wf(self) -> bool {
        &&& self.done <= self.total_segments
        &&& forall|i: int, j: int|
            0 <= i <= j < self.emitted@.len() ==> self.emitted@[i] <= self.emitted@[j]
        &&& forall|i: int| 0 <= i < self.emitted@.len() ==> self.emitted@[i] <= 99
        &&& match self.last_emitted {
            Some(l) => self.emitted@.len() > 0 && self.emitted@.last() == l && l
                <= self.current_percent(),
            None => self.emitted@.len() == 0,
        }
        &&& self.run_content@.len() == self.run_bytes
    }

    /// Opens accounting for a fetch of `total_segments` segments.
    pub fn start(total_segments: u64) -> (r: Self)
        requires
            total_segments > 0,
        ensures
            r.wf(),
            r.total_segments == total_segments,
            r.done == 0,
            r.run_bytes == 0,
            r.last_emitted is None,
            r.last_notified == 0,
            r.emitted@ == Seq::<u8>::empty(),
            r.run_content@ == Seq::<u8>::empty(),
    {
        HlsProgress {
            total_segments,
            done: 0,
            run_bytes: 0,
            last_emitted: None,
            last_notified: 0,
            emitted: Ghost(Seq::empty()),
            run_content: Ghost(Seq::empty()),
        }
    }

    /// Accounts one fetched and appended segment: the run's content grows by
    /// exactly the segment's bytes, with the same emission and notification
    /// policy as the direct tracker.
    pub fn on_segment(&mut self, segment: &[u8], elapsed_ms: u64, ms_since_notify: u64) -> (r:
        ProgressActions)
        requires
            old(self).wf(),
            old(self).done < old(self).total_segments,
            old(self).run_bytes + segment@.len() <= u64::MAX,
        ensures
            final(self).wf(),
            final(self).total_segments == old(self).total_segments,
            final(self).done == old(self).done + 1,
            final(self).run_bytes == old(self).run_bytes + segment@.len(),
            final(self).run_content@ == old(self).run_content@ + segment@,
            ({
                let pct = spec_segment_percent(
                    (old(self).done + 1) as u64,
                    old(self).total_segments,
                );
                &&& r.emit == (if spec_should_emit(old(self).last_emitted, pct) {
                    Some(
                        ProgressUpdate {
                            percent: pct,
                            downloaded_bytes: (old(self).run_bytes + segment@.len()) as u64,
                            speed_bytes_per_sec: spec_speed(
                                (old(self).run_bytes + segment@.len()) as u64,
                                elapsed_ms,
                            ),
                        },
                    )
                } else {
                    None::<ProgressUpdate>
                })
                &&& r.emit is Some ==> {
                    &&& final(self).emitted@ == old(self).emitted@.push(pct)
                    &&& final(self).last_emitted == Some(pct)
                }
                &&& r.emit is None ==> {
                    &&& final(self).emitted@ == old(self).emitted@
                    &&& final(self).last_emitted == old(self).last_emitted
                }
                &&& r.notify == (r.emit is Some && spec_should_notify(
                    old(self).last_notified,
                    pct,
                    ms_since_notify,
                ))
                &&& final(self).last_notified == (if r.notify {
                    pct
                } else {
                    old(self).last_notified
                })
            }),
    {
        let segment_len = segment.len() as u64;
        self.done = self.done + 1;
        self.run_bytes = self.run_bytes + segment_len;
        proof {
            self.run_content@ = self.run_content@ + segment@;
        }
        let pct = segment_percent(self.done, self.total_segments);
        proof {
            lemma_segment_percent_monotone(old(self).done, self.done, self.total_segments);
        }
        let should = match self.last_emitted {
            Some(l) => pct >= l + 1,
            None => true,
        };
        if should {
            let speed = transfer_speed(self.run_bytes, elapsed_ms);
            self.last_emitted = Some(pct);
            proof {
                self.emitted@ = self.emitted@.push(pct);
            }
            let notify = pct / 10 > self.last_notified / 10 || ms_since_notify
                >= NOTIFY_INTERVAL_MS;
            if notify {
                self.last_notified = pct;
            }
            ProgressActions {
                emit: Some(
                    ProgressUpdate {
                        percent: pct,
                        downloaded_bytes: self.run_bytes,
                        speed_bytes_per_sec: speed,
                    },
                ),
                notify,
            }
        } else {
            ProgressActions { emit: None, notify: false }
        }
    }
}

/// Computes the whole-percent progress of an HLS fetch.
fn segment_percent(done: u64, total: u64) -> (r: u8)
    ensures
        r == spec_segment_percent(done, total),
{
    if total == 0 {
        0
    } else {
        let p: u128 = (done as u128) * 100 / (total as u128);
        if p < 99 {
            p as u8
        } else {
            99
        }
    }
}

/// Segment progress never falls.
proof fn lemma_segment_percent_monotone(d1: u64, d2: u64, total: u64)
    requires
        d1 <= d2,
    ensures
        spec_segment_percent(d1, total) <= spec_segment_percent(d2, total),
{
    if total > 0 {
        vstd::arithmetic::div_mod::lemma_div_is_ordered(d1 as int * 100, d2 as int * 100, total as int);
    }
}

/// Monotone progress for the HLS tracker: of two emitted events, the later
/// never carries a smaller percentage.
pub proof fn lemma_hls_progress_monotone(t: HlsProgress, i: int, j: int)
    requires
        t.wf(),
        0 <= i <= j < t.emitted@.len(),
    ensures
        t.emitted@[i] <= t.emitted@[j],
{
}

} // verus!
