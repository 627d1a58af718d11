//! Manifests as the mirror reads them, and how many segments of a media
//! manifest a run takes.

use vstd::prelude::*;

use crate::error::MirrorError;

verus! {

/// One playable chunk of a media manifest.
pub struct Segment {
    /// The reference to the chunk, relative to the manifest's own URL.
    pub uri: String,
    /// Its duration in whole microseconds; `None` where the manifest gives no
    /// finite, non-negative duration, or one too large for
    /// `std::time::Duration` (over about 1.8e19 seconds).
    pub duration: Option<u128>,
}

/// A manifest: the renditions of a master manifest, or the segments of a
/// media manifest, in the order the manifest lists them.
pub enum Manifest {
    /// The reference of each variant, relative to the manifest's URL.
    Master(Vec<String>),
    Media(Vec<Segment>),
}

pub ghost struct SegmentView {
    pub uri: Seq<char>,
    pub duration: Option<u128>,
}

pub ghost enum ManifestView {
    Master(Seq<Seq<char>>),
    Media(Seq<SegmentView>),
}

impl View for Segment {
    type V = SegmentView;

    open spec fn view(&self) -> SegmentView {
        SegmentView { uri: self.uri@, duration: self.duration }
    }
}

impl View for Manifest {
    type V = ManifestView;

    open spec fn view(&self) -> ManifestView {
        match self {
            Manifest::Master(v) => ManifestView::Master(v.deep_view()),
            Manifest::Media(s) => ManifestView::Media(s@.map_values(|x: Segment| x@)),
        }
    }
}

/// The manifest that `m3u8_rs::parse_playlist` reads from `bytes`, with each
/// segment duration converted by `std::time::Duration`; `None` where the
/// bytes are no manifest.
pub uninterp spec fn manifest_of(bytes: Seq<u8>) -> Option<ManifestView>;

/// Relies on `m3u8_rs::parse_playlist`, which tells master from media
/// manifests, and on `std::time::Duration::try_from_secs_f32` and
/// `as_micros` for segment durations.
#[verifier::external_body]
fn read_playlist(bytes: &[u8]) -> (r: Option<Manifest>)
    ensures
        match r {
            Some(m) => manifest_of(bytes@) == Some(m@),
            None => manifest_of(bytes@) is None,
        },
{
    match m3u8_rs::parse_playlist(bytes) {
        Ok((_, m3u8_rs::Playlist::MasterPlaylist(pl))) => Some(Manifest::Master(
            pl.variants.into_iter().map(|v| v.uri).collect(),
        )),
        Ok((_, m3u8_rs::Playlist::MediaPlaylist(pl))) => Some(Manifest::Media(
            pl.segments.into_iter().map(|s| Segment {
                uri: s.uri,
                duration: std::time::Duration::try_from_secs_f32(s.duration).ok().map(|d| d.as_micros()),
            }).collect(),
        )),
        Err(_) => None,
    }
}

/// Reads a manifest from `bytes`.
pub fn parse_manifest(bytes: &[u8]) -> (r: Result<Manifest, MirrorError>)
    ensures
        match r {
            Ok(m) => manifest_of(bytes@) == Some(m@),
            Err(e) => manifest_of(bytes@) is None && e == MirrorError::ParseFailure,
        },
{
    match read_playlist(bytes) {
        Some(m) => Ok(m),
        None => Err(MirrorError::ParseFailure),
    }
}


/// How many leading segments of a media manifest a run mirrors.
#[derive(Clone, Copy, Debug, PartialEq, Eq, Structural)]
pub enum FetchLength {
    /// Segments up to and including the first at which the running total of
    /// durations, in microseconds, reaches the threshold.
    Duration(u128),
    /// At most this many segments.
    Count(usize),
    /// Every segment.
    All,
}

impl FetchLength {
    /// The policy that a run's configuration asks for: a duration threshold
    /// (in microseconds) or a segment count, every segment where it gives
    /// neither, and `None` where it gives both, which is ambiguous.
    pub fn from_options(duration: Option<u128>, count: Option<usize>) -> (r: Option<FetchLength>)
        ensures
            r == match (duration, count) {
                (Some(_), Some(_)) => None,
                (Some(t), None) => Some(FetchLength::Duration(t)),
                (None, Some(n)) => Some(FetchLength::Count(n)),
                (None, None) => Some(FetchLength::All),
            },
    {
        match (duration, count) {
            (Some(_), Some(_)) => None,
            (Some(t), None) => Some(FetchLength::Duration(t)),
            (None, Some(n)) => Some(FetchLength::Count(n)),
            (None, None) => Some(FetchLength::All),
        }
    }
}

/// A duration as it counts toward a threshold: one the manifest does not
/// give counts as nothing.
pub open spec fn micros_of(d: Option<u128>) -> int {
    match d {
        Some(m) => m as int,
        None => 0,
    }
}

/// The total duration of the first `k` segments.
pub open spec fn elapsed(segs: Seq<SegmentView>, k: int) -> int
    decreases k,
{
    if k <= 0 || k > segs.len() {
        0
    } else {
        elapsed(segs, k - 1) + micros_of(segs[k - 1].duration)
    }
}

/// `k` is how many segments a duration threshold selects: up to and
/// including the first segment at which the total reaches `threshold`, or all
/// of them where the total never does.
pub open spec fn selects_by_duration(segs: Seq<SegmentView>, threshold: int, k: int) -> bool {
    ||| {
        &&& 1 <= k <= segs.len()
        &&& elapsed(segs, k) >= threshold
        &&& forall|j: int| 1 <= j < k ==> elapsed(segs, j) < threshold
    }
    ||| {
        &&& k == segs.len()
        &&& forall|j: int| 1 <= j <= segs.len() ==> elapsed(segs, j) < threshold
    }
}

/// How many leading segments `length` selects.
pub open spec fn selected_count(segs: Seq<SegmentView>, length: FetchLength) -> int {
    match length {
        FetchLength::All => segs.len() as int,
        FetchLength::Count(n) => if n < segs.len() {
            n as int
        } else {
            segs.len() as int
        },
        FetchLength::Duration(t) => choose|k: int| selects_by_duration(segs, t as int, k),
    }
}

/// A duration threshold selects one count.
pub proof fn lemma_selects_by_duration_unique(segs: Seq<SegmentView>, threshold: int, k: int)
    requires
        selects_by_duration(segs, threshold, k),
    ensures
        (choose|m: int| selects_by_duration(segs, threshold, m)) == k,
{
    let m = choose|m: int| selects_by_duration(segs, threshold, m);
    assert(selects_by_duration(segs, threshold, m));
    if m < k {
        if 1 <= m {
            assert(elapsed(segs, m) < threshold);
        }
    } else if k < m {
        if 1 <= k {
            assert(elapsed(segs, k) < threshold);
        }
    }
}

proof fn lemma_duration_selection_from(segs: Seq<SegmentView>, threshold: int, k: int)
    requires
        0 <= k <= segs.len(),
        forall|j: int| 1 <= j <= k ==> elapsed(segs, j) < threshold,
    ensures
        exists|m: int| selects_by_duration(segs, threshold, m),
    decreases segs.len() - k,
{
    if k == segs.len() {
        assert(selects_by_duration(segs, threshold, k));
    } else if elapsed(segs, k + 1) >= threshold {
        assert(selects_by_duration(segs, threshold, k + 1));
    } else {
        lemma_duration_selection_from(segs, threshold, k + 1);
    }
}

/// Every threshold selects some count.
pub proof fn lemma_duration_selection_exists(segs: Seq<SegmentView>, threshold: int)
    ensures
        selects_by_duration(segs, threshold, choose|m: int| selects_by_duration(segs, threshold, m)),
{
    lemma_duration_selection_from(segs, threshold, 0);
}

pub open spec fn segment_views(segs: Seq<Segment>) -> Seq<SegmentView> {
    segs.map_values(|x: Segment| x@)
}

/// How many leading segments of `segments` the policy `length` selects.
pub fn select_count(segments: &Vec<Segment>, length: &FetchLength) -> (r: usize)
    ensures
        r == selected_count(segment_views(segments@), *length),
        r <= segments.len(),
{
    let ghost sv = segment_views(segments@);
    match length {
        FetchLength::All => segments.len(),
        FetchLength::Count(n) => if *n < segments.len() {
            *n
        } else {
            segments.len()
        },
        FetchLength::Duration(t) => {
            let t = *t;
            let mut total: u128 = 0;
            let mut i: usize = 0;
            while i < segments.len()
                invariant
                    i <= segments.len(),
                    sv == segment_views(segments@),
                    *length == FetchLength::Duration(t),
                    total as int == elapsed(sv, i as int),
                    forall|j: int| 1 <= j <= i ==> elapsed(sv, j) < t,
                decreases segments.len() - i,
            {
                let d: u128 = match segments[i].duration {
                    Some(m) => m,
                    None => 0,
                };
                assert(elapsed(sv, i + 1) == elapsed(sv, i as int) + d);
                match total.checked_add(d) {
                    Some(next) => {
                        if next >= t {
                            proof {
                                lemma_selects_by_duration_unique(sv, t as int, i + 1);
                            }
                            return i + 1;
                        }
                        total = next;
                    },
                    None => {
                        proof {
                            lemma_selects_by_duration_unique(sv, t as int, i + 1);
                        }
                        return i + 1;
                    },
                }
                i += 1;
            }
            proof {
                lemma_selects_by_duration_unique(sv, t as int, i as int);
            }
            i
        },
    }
}

} // verus!
