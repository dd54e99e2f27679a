//! HLS playlist resolution: parsing (through `m3u8_rs`), variant selection
//! by quality preference, segment URI resolution, and the retry policy for
//! segment fetches.

use vstd::prelude::*;

use crate::status::DownloadQuality;
use crate::text;

verus! {

/// Why an HLS playlist could not be turned into a segment plan.
#[derive(Clone, Copy, Debug, PartialEq, Eq, Structural)]
pub enum HlsError {
    /// The bytes did not parse as an HLS playlist.
    ParseFailed,
    /// A master playlist listed no variant streams.
    NoVariants,
    /// The media playlist listed no segments.
    NoSegments,
    /// A media playlist fetch returned another master playlist.
    NestedMaster,
}

impl HlsError {
    /// The message under which the error is reported.
    pub open spec fn spec_message(self) -> Seq<char> {
        match self {
            HlsError::ParseFailed => "Failed to parse HLS playlist"@,
            HlsError::NoVariants => "Master playlist has no variants"@,
            HlsError::NoSegments => "HLS playlist contained no segments"@,
            HlsError::NestedMaster => "Unexpected nested master playlist"@,
        }
    }

    pub fn message(&self) -> (r: &'static str)
        ensures
            r@ == self.spec_message(),
    {
        match self {
            HlsError::ParseFailed => "Failed to parse HLS playlist",
            HlsError::NoVariants => "Master playlist has no variants",
            HlsError::NoSegments => "HLS playlist contained no segments",
            HlsError::NestedMaster => "Unexpected nested master playlist",
        }
    }
}

/// One variant stream of a master playlist, reduced to what selection reads:
/// its advertised bandwidth and its URI.
#[derive(Debug)]
pub struct VariantInfo {
    pub bandwidth: u64,
    pub uri: String,
}

/// A parsed playlist, reduced to what the fetcher reads: a master playlist's
/// variants, or a media playlist's segment URIs in order.
#[derive(Debug)]
pub enum ParsedPlaylist {
    Master(Vec<VariantInfo>),
    Media(Vec<String>),
}

/// The mathematical shape of a parsed playlist: variants as
/// `(bandwidth, uri)` pairs, or segment URIs.
pub enum PlaylistModel {
    Master(Seq<(u64, Seq<char>)>),
    Media(Seq<Seq<char>>),
}

/// The model of a sequence of variants.
pub open spec fn spec_variants_model(vs: Seq<VariantInfo>) -> Seq<(u64, Seq<char>)> {
    vs.map_values(|v: VariantInfo| (v.bandwidth, v.uri@))
}

impl ParsedPlaylist {
    /// The model this parsed value denotes.
    pub open spec fn model(self) -> PlaylistModel {
        match self {
            ParsedPlaylist::Master(vs) => PlaylistModel::Master(spec_variants_model(vs@)),
            ParsedPlaylist::Media(segs) => PlaylistModel::Media(
                segs@.map_values(|s: String| s@),
            ),
        }
    }
}

/// What `m3u8_rs::parse_playlist_res` yields on these bytes: a playlist
/// model, or nothing when the bytes do not parse. Parsing depends on the
/// bytes alone.
pub uninterp spec fn spec_playlist_of(bytes: Seq<u8>) -> Option<PlaylistModel>;

/// Relies on `m3u8_rs::parse_playlist_res`: parses the bytes of an HLS
/// manifest into a master playlist (kept as its variants' bandwidths and
/// URIs) or a media playlist (kept as its segment URIs in order); the result
/// is a function of the bytes alone.
#[verifier::external_body]
fn parse_playlist(bytes: &[u8]) -> (r: Option<ParsedPlaylist>)
    ensures
        match r {
            Some(p) => spec_playlist_of(bytes@) == Some(p.model()),
            None => spec_playlist_of(bytes@) is None,
        },
{
    match m3u8_rs::parse_playlist_res(bytes) {
        Ok(m3u8_rs::Playlist::MasterPlaylist(master)) => Some(ParsedPlaylist::Master(
            master.variants.into_iter().map(
                |v| VariantInfo { bandwidth: v.bandwidth, uri: v.uri },
            ).collect(),
        )),
        Ok(m3u8_rs::Playlist::MediaPlaylist(media)) => Some(ParsedPlaylist::Media(
            media.segments.into_iter().map(|s| s.uri).collect(),
        )),
        Err(_) => None,
    }
}

/// `i` is the first index of a maximal bandwidth.
pub open spec fn spec_is_first_max(vars: Seq<(u64, Seq<char>)>, i: int) -> bool {
    &&& 0 <= i < vars.len()
    &&& forall|j: int| 0 <= j < vars.len() ==> (#[trigger] vars[j]).0 <= vars[i].0
    &&& forall|j: int| 0 <= j < i ==> (#[trigger] vars[j]).0 < vars[i].0
}

/// `i` is the first index of the maximal bandwidth not above `cap`.
pub open spec fn spec_is_first_max_capped(vars: Seq<(u64, Seq<char>)>, cap: u64, i: int) -> bool {
    &&& 0 <= i < vars.len()
    &&& vars[i].0 <= cap
    &&& forall|j: int| 0 <= j < vars.len() && (#[trigger] vars[j]).0 <= cap ==> vars[j].0 <= vars[i].0
    &&& forall|j: int| 0 <= j < i && (#[trigger] vars[j]).0 <= cap ==> vars[j].0 < vars[i].0
}

/// `i` is the first index of the minimal bandwidth not below `floor`.
pub open spec fn spec_is_first_min_floored(vars: Seq<(u64, Seq<char>)>, floor: u64, i: int) -> bool {
    &&& 0 <= i < vars.len()
    &&& vars[i].0 >= floor
    &&& forall|j: int|
        0 <= j < vars.len() && (#[trigger] vars[j]).0 >= floor ==> vars[j].0 >= vars[i].0
    &&& forall|j: int| 0 <= j < i && (#[trigger] vars[j]).0 >= floor ==> vars[j].0 > vars[i].0
}

/// Bandwidth ceiling of the `Higher` preference.
pub const HIGHER_BANDWIDTH_CAP: u64 = 8_000_000;

/// Bandwidth floor of the `Standard` preference.
pub const STANDARD_BANDWIDTH_FLOOR: u64 = 1_000_000;

/// The variant index a quality preference selects from a master playlist:
/// `Best` takes the highest bandwidth; `Higher` the highest not above
/// 8 000 000, falling back to the highest overall; `Standard` the lowest not
/// below 1 000 000, falling back to the highest overall. Ties go to the
/// earliest variant.
pub open spec fn spec_variant_choice(
    vars: Seq<(u64, Seq<char>)>,
    quality: DownloadQuality,
    i: int,
) -> bool {
    match quality {
        DownloadQuality::Best => spec_is_first_max(vars, i),
        DownloadQuality::Higher => if exists|j: int|
            0 <= j < vars.len() && (#[trigger] vars[j]).0 <= HIGHER_BANDWIDTH_CAP {
            spec_is_first_max_capped(vars, HIGHER_BANDWIDTH_CAP, i)
        } else {
            spec_is_first_max(vars, i)
        },
        DownloadQuality::Standard => if exists|j: int|
            0 <= j < vars.len() && (#[trigger] vars[j]).0 >= STANDARD_BANDWIDTH_FLOOR {
            spec_is_first_min_floored(vars, STANDARD_BANDWIDTH_FLOOR, i)
        } else {
            spec_is_first_max(vars, i)
        },
    }
}

/// Variant selection is deterministic: the same master playlist and quality
/// preference admit a single choice.
pub proof fn lemma_variant_choice_deterministic(
    vars: Seq<(u64, Seq<char>)>,
    quality: DownloadQuality,
    i: int,
    j: int,
)
    requires
        spec_variant_choice(vars, quality, i),
        spec_variant_choice(vars, quality, j),
    ensures
        i == j,
{
    if i != j {
        // Instantiate each choice predicate at the other index: the earlier
        // of the two would have to carry a strictly worse bandwidth than the
        // later, and at least as good a one.
        assert(vars[i].0 <= vars[j].0 || vars[j].0 <= vars[i].0);
    }
}

/// First index of a maximal bandwidth.
fn idx_first_max(variants: &Vec<VariantInfo>) -> (r: usize)
    requires
        variants@.len() > 0,
    ensures
        spec_is_first_max(spec_variants_model(variants@), r as int),
{
    let n = variants.len();
    let mut best: usize = 0;
    let mut k: usize = 1;
    while k < n
        invariant
            n == variants@.len(),
            1 <= k <= n,
            best < k,
            forall|j: int|
                0 <= j < k ==> (#[trigger] variants@[j]).bandwidth <= variants@[best as int].bandwidth,
            forall|j: int|
                0 <= j < best ==> (#[trigger] variants@[j]).bandwidth < variants@[best as int].bandwidth,
        decreases n - k,
    {
        if variants[k].bandwidth > variants[best].bandwidth {
            best = k;
        }
        k += 1;
    }
    best
}

/// First index of the maximal bandwidth not above `cap`, if any bandwidth
/// fits under the cap.
fn idx_first_max_capped(variants: &Vec<VariantInfo>, cap: u64) -> (r: Option<usize>)
    ensures
        match r {
            Some(i) => spec_is_first_max_capped(spec_variants_model(variants@), cap, i as int),
            None => forall|j: int|
                0 <= j < variants@.len() ==> (#[trigger] variants@[j]).bandwidth > cap,
        },
{
    let n = variants.len();
    let mut best: Option<usize> = None;
    let mut k: usize = 0;
    while k < n
        invariant
            n == variants@.len(),
            k <= n,
            match best {
                Some(b) => {
                    &&& b < k
                    &&& variants@[b as int].bandwidth <= cap
                    &&& forall|j: int|
                        0 <= j < k && (#[trigger] variants@[j]).bandwidth <= cap
                            ==> variants@[j].bandwidth <= variants@[b as int].bandwidth
                    &&& forall|j: int|
                        0 <= j < b && (#[trigger] variants@[j]).bandwidth <= cap
                            ==> variants@[j].bandwidth < variants@[b as int].bandwidth
                },
                None => forall|j: int|
                    0 <= j < k ==> (#[trigger] variants@[j]).bandwidth > cap,
            },
        decreases n - k,
    {
        if variants[k].bandwidth <= cap {
            best = match best {
                Some(b) => {
                    if variants[k].bandwidth > variants[b].bandwidth {
                        Some(k)
                    } else {
                        Some(b)
                    }
                },
                None => Some(k),
            };
        }
        k += 1;
    }
    best
}

/// First index of the minimal bandwidth not below `floor`, if any bandwidth
/// reaches the floor.
fn idx_first_min_floored(variants: &Vec<VariantInfo>, floor: u64) -> (r: Option<usize>)
    ensures
        match r {
            Some(i) => spec_is_first_min_floored(spec_variants_model(variants@), floor, i as int),
            None => forall|j: int|
                0 <= j < variants@.len() ==> (#[trigger] variants@[j]).bandwidth < floor,
        },
{
    let n = variants.len();
    let mut best: Option<usize> = None;
    let mut k: usize = 0;
    while k < n
        invariant
            n == variants@.len(),
            k <= n,
            match best {
                Some(b) => {
                    &&& b < k
                    &&& variants@[b as int].bandwidth >= floor
                    &&& forall|j: int|
                        0 <= j < k && (#[trigger] variants@[j]).bandwidth >= floor
                            ==> variants@[j].bandwidth >= variants@[b as int].bandwidth
                    &&& forall|j: int|
                        0 <= j < b && (#[trigger] variants@[j]).bandwidth >= floor
                            ==> variants@[j].bandwidth > variants@[b as int].bandwidth
                },
                None => forall|j: int|
                    0 <= j < k ==> (#[trigger] variants@[j]).bandwidth < floor,
            },
        decreases n - k,
    {
        if variants[k].bandwidth >= floor {
            best = match best {
                Some(b) => {
                    if variants[k].bandwidth < variants[b].bandwidth {
                        Some(k)
                    } else {
                        Some(b)
                    }
                },
                None => Some(k),
            };
        }
        k += 1;
    }
    best
}

/// Selects one variant of a master playlist by quality preference and
/// resolves its URI against the master playlist's URL.
pub fn pick_variant(
    variants: &Vec<VariantInfo>,
    base_url: &str,
    quality: DownloadQuality,
) -> (r: Result<String, HlsError>)
    ensures
        match r {
            Ok(url) => variants@.len() > 0 && exists|i: int|
                {
                    &&& #[trigger] spec_variant_choice(
                        spec_variants_model(variants@),
                        quality,
                        i,
                    )
                    &&& url@ == text::spec_resolve_uri(base_url@, variants@[i].uri@)
                },
            Err(e) => variants@.len() == 0 && e == HlsError::NoVariants,
        },
{
    if variants.len() == 0 {
        return Err(HlsError::NoVariants);
    }
    let idx = match quality {
        DownloadQuality::Best => idx_first_max(variants),
        DownloadQuality::Higher => match idx_first_max_capped(variants, HIGHER_BANDWIDTH_CAP) {
            Some(i) => i,
            None => idx_first_max(variants),
        },
        DownloadQuality::Standard => match idx_first_min_floored(
            variants,
            STANDARD_BANDWIDTH_FLOOR,
        ) {
            Some(i) => i,
            None => idx_first_max(variants),
        },
    };
    let url = text::resolve_uri(base_url, variants[idx].uri.as_str());
    proof {
        assert(spec_variant_choice(spec_variants_model(variants@), quality, idx as int));
    }
    Ok(url)
}

/// Resolves every segment URI of a media playlist against the playlist's
/// URL, keeping the playlist order.
pub fn resolve_segments(segments: &Vec<String>, base_url: &str) -> (r: Vec<String>)
    ensures
        r@.len() == segments@.len(),
        forall|i: int|
            0 <= i < segments@.len() ==> (#[trigger] r@[i])@ == text::spec_resolve_uri(
                base_url@,
                segments@[i]@,
            ),
{
    let n = segments.len();
    let mut out: Vec<String> = Vec::new();
    let mut i: usize = 0;
    while i < n
        invariant
            n == segments@.len(),
            i <= n,
            out@.len() == i,
            forall|k: int|
                0 <= k < i ==> (#[trigger] out@[k])@ == text::spec_resolve_uri(
                    base_url@,
                    segments@[k]@,
                ),
        decreases n - i,
    {
        out.push(text::resolve_uri(base_url, segments[i].as_str()));
        i += 1;
    }
    out
}

/// What examining the first playlist of a job yields.
#[derive(Debug)]
pub enum PlaylistStep {
    /// The URL named a master playlist: fetch this media playlist next.
    FetchMedia(String),
    /// The URL named a media playlist: fetch these segment URLs in order.
    Segments(Vec<String>),
}

/// Examines the playlist fetched from a job's stream URL: a master playlist
/// yields the URL of the variant the quality preference selects; a media
/// playlist yields its resolved segment URLs.
pub fn plan_from_playlist(bytes: &[u8], playlist_url: &str, quality: DownloadQuality) -> (r: Result<
    PlaylistStep,
    HlsError,
>)
    ensures
        match spec_playlist_of(bytes@) {
            None => r == Err::<PlaylistStep, HlsError>(HlsError::ParseFailed),
            Some(PlaylistModel::Master(vars)) => {
                if vars.len() == 0 {
                    r == Err::<PlaylistStep, HlsError>(HlsError::NoVariants)
                } else {
                    match r {
                        Ok(PlaylistStep::FetchMedia(url)) => exists|i: int|
                            {
                                &&& #[trigger] spec_variant_choice(vars, quality, i)
                                &&& url@ == text::spec_resolve_uri(playlist_url@, vars[i].1)
                            },
                        _ => false,
                    }
                }
            },
            Some(PlaylistModel::Media(segs)) => {
                if segs.len() == 0 {
                    r == Err::<PlaylistStep, HlsError>(HlsError::NoSegments)
                } else {
                    match r {
                        Ok(PlaylistStep::Segments(urls)) => {
                            &&& urls@.len() == segs.len()
                            &&& forall|i: int|
                                0 <= i < segs.len() ==> (#[trigger] urls@[i])@
                                    == text::spec_resolve_uri(playlist_url@, segs[i])
                        },
                        _ => false,
                    }
                }
            },
        },
{
    match parse_playlist(bytes) {
        None => Err(HlsError::ParseFailed),
        Some(ParsedPlaylist::Master(variants)) => {
            let url = pick_variant(&variants, playlist_url, quality)?;
            Ok(PlaylistStep::FetchMedia(url))
        },
        Some(ParsedPlaylist::Media(segments)) => {
            if segments.len() == 0 {
                Err(HlsError::NoSegments)
            } else {
                Ok(PlaylistStep::Segments(resolve_segments(&segments, playlist_url)))
            }
        },
    }
}

/// Examines the media playlist fetched for a selected variant: its resolved
/// segment URLs, in order. A master playlist here is an error, as is an
/// empty segment list.
pub fn plan_from_media_playlist(bytes: &[u8], media_url: &str) -> (r: Result<Vec<String>, HlsError>)
    ensures
        match spec_playlist_of(bytes@) {
            None => r == Err::<Vec<String>, HlsError>(HlsError::ParseFailed),
            Some(PlaylistModel::Master(vars)) => r == Err::<Vec<String>, HlsError>(
                HlsError::NestedMaster,
            ),
            Some(PlaylistModel::Media(segs)) => {
                if segs.len() == 0 {
                    r == Err::<Vec<String>, HlsError>(HlsError::NoSegments)
                } else {
                    match r {
                        Ok(urls) => {
                            &&& urls@.len() == segs.len()
                            &&& forall|i: int|
                                0 <= i < segs.len() ==> (#[trigger] urls@[i])@
                                    == text::spec_resolve_uri(media_url@, segs[i])
                        },
                        Err(_) => false,
                    }
                }
            },
        },
{
    match parse_playlist(bytes) {
        None => Err(HlsError::ParseFailed),
        Some(ParsedPlaylist::Master(_)) => Err(HlsError::NestedMaster),
        Some(ParsedPlaylist::Media(segments)) => {
            if segments.len() == 0 {
                Err(HlsError::NoSegments)
            } else {
                Ok(resolve_segments(&segments, media_url))
            }
        },
    }
}

/// Backoff before retrying a failed segment fetch: with `retries_so_far`
/// retries already made, the next retry waits `500 ms × attempt`, and no
/// more than three retries are made.
pub fn segment_retry_delay(retries_so_far: u8) -> (r: Option<u64>)
    ensures
        r == if retries_so_far < 3 {
            Some((500 * (retries_so_far + 1)) as u64)
        } else {
            None::<u64>
        },
{
    if retries_so_far < 3 {
        Some(500 * ((retries_so_far + 1) as u64))
    } else {
        None
    }
}

} // verus!
