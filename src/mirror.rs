//! The decisions of a mirroring run: what the root manifest leads to, which
//! segments of a media manifest are fetched and where they are stored, which
//! of them a run can skip, and which failure ends a run.

use vstd::prelude::*;

use crate::error::MirrorError;
use crate::location::{
    lemma_file_name_iff_no_trailing_slash, path_of,
    file_name_of, get_base_url, get_filename_from_url, get_relative_path, href_outcome,
    joined_href, relative_path_of, url_at, AssetUrl, RelativePath, UrlView,
};
use crate::manifest::{
    lemma_duration_selection_exists, select_count, selected_count, segment_views, selects_by_duration,
    FetchLength, Manifest, ManifestView, SegmentView,
};

verus! {

/// A segment to fetch: the URL it comes from and the path it is stored under.
pub struct SegmentJob {
    pub url: AssetUrl,
    pub path: RelativePath,
}

pub ghost struct JobView {
    pub href: Seq<char>,
    pub path: Seq<Seq<char>>,
}

impl View for SegmentJob {
    type V = JobView;

    open spec fn view(&self) -> JobView {
        JobView { href: self.url@.href, path: self.path.segments.deep_view() }
    }
}

impl Clone for SegmentJob {
    fn clone(&self) -> (r: Self)
        ensures
            r@ == self@,
    {
        SegmentJob { url: self.url.clone(), path: self.path.clone() }
    }
}

pub open spec fn job_views(jobs: Seq<SegmentJob>) -> Seq<JobView> {
    jobs.map_values(|j: SegmentJob| j@)
}

/// The job for the segment referenced as `uri` in a manifest whose directory
/// is `seg_base`, stored relative to the run's base URL `outer`.
pub open spec fn job_for(seg_base: Seq<char>, outer: UrlView, uri: Seq<char>) -> Result<JobView, MirrorError> {
    match href_outcome(joined_href(seg_base, uri)) {
        Err(e) => Err(e),
        Ok(h) => match relative_path_of(outer, url_at(h)) {
            Err(e) => Err(e),
            Ok(path) => Ok(JobView { href: h, path }),
        },
    }
}

/// The jobs for the segments referenced as `uris`, in their order, or the
/// failure of the first that has none.
pub open spec fn jobs_for(seg_base: Seq<char>, outer: UrlView, uris: Seq<Seq<char>>) -> Result<Seq<JobView>, MirrorError>
    decreases uris.len(),
{
    if uris.len() == 0 {
        Ok(Seq::empty())
    } else {
        match jobs_for(seg_base, outer, uris.drop_last()) {
            Err(e) => Err(e),
            Ok(jobs) => match job_for(seg_base, outer, uris.last()) {
                Err(e) => Err(e),
                Ok(j) => Ok(jobs.push(j)),
            },
        }
    }
}

/// Once a leading run of references fails, the whole list fails the same way.
proof fn lemma_jobs_for_stays_failed(seg_base: Seq<char>, outer: UrlView, uris: Seq<Seq<char>>, k: int)
    requires
        0 <= k <= uris.len(),
        jobs_for(seg_base, outer, uris.take(k)) is Err,
    ensures
        jobs_for(seg_base, outer, uris) == jobs_for(seg_base, outer, uris.take(k)),
    decreases uris.len() - k,
{
    if k < uris.len() {
        assert(uris.take(k + 1).drop_last() =~= uris.take(k));
        lemma_jobs_for_stays_failed(seg_base, outer, uris, k + 1);
    } else {
        assert(uris.take(k) =~= uris);
    }
}

/// The references of the first `n` segments.
pub open spec fn leading_uris(segs: Seq<SegmentView>, n: int) -> Seq<Seq<char>> {
    segs.take(n).map_values(|s: SegmentView| s.uri)
}

/// What a media manifest leads to: the path it is stored under, and the
/// segments to fetch.
pub struct MediaPlan {
    pub manifest_path: RelativePath,
    pub jobs: Vec<SegmentJob>,
}

pub ghost struct MediaPlanView {
    pub manifest_path: Seq<Seq<char>>,
    pub jobs: Seq<JobView>,
}

impl View for MediaPlan {
    type V = MediaPlanView;

    open spec fn view(&self) -> MediaPlanView {
        MediaPlanView { manifest_path: self.manifest_path.segments.deep_view(), jobs: job_views(self.jobs@) }
    }
}

/// The plan for the media manifest `m` at `url`, in a run whose base URL is
/// `outer`: the manifest is stored at its path relative to `outer`; the
/// segments that `length` selects are resolved against the manifest's own
/// directory and stored at their paths relative to `outer`.
pub open spec fn media_plan_of(outer: UrlView, url: UrlView, m: ManifestView, length: FetchLength) -> Result<MediaPlanView, MirrorError> {
    match relative_path_of(outer, url) {
        Err(e) => Err(e),
        Ok(manifest_path) => match m {
            ManifestView::Master(_) => Err(MirrorError::ParseFailure),
            ManifestView::Media(segs) => match href_outcome(joined_href(url.href, "./"@)) {
                Err(e) => Err(e),
                Ok(seg_base) => match jobs_for(seg_base, outer, leading_uris(segs, selected_count(segs, length))) {
                    Err(e) => Err(e),
                    Ok(jobs) => Ok(MediaPlanView { manifest_path, jobs }),
                },
            },
        },
    }
}

/// Plans the mirroring of the media manifest `manifest`, fetched from `url`,
/// in a run whose base URL is `outer`.
#[verifier::loop_isolation(false)]
pub fn plan_media(outer: &AssetUrl, url: &AssetUrl, manifest: &Manifest, length: &FetchLength) -> (r: Result<MediaPlan, MirrorError>)
    ensures
        match r {
            Ok(p) => media_plan_of(outer@, url@, manifest@, *length) == Ok::<MediaPlanView, MirrorError>(p@),
            Err(e) => media_plan_of(outer@, url@, manifest@, *length) == Err::<MediaPlanView, MirrorError>(e),
        },
{
    let manifest_path = match get_relative_path(outer, url) {
        Ok(p) => p,
        Err(e) => return Err(e),
    };
    let segs = match manifest {
        Manifest::Media(s) => s,
        Manifest::Master(_) => return Err(MirrorError::ParseFailure),
    };
    let n = select_count(segs, length);
    let seg_base = match get_base_url(url) {
        Ok(b) => b,
        Err(e) => return Err(e),
    };
    let ghost sv = segment_views(segs@);
    let ghost uris = leading_uris(sv, n as int);
    let mut jobs: Vec<SegmentJob> = Vec::new();
    let mut i: usize = 0;
    proof {
        assert(uris.take(0) =~= Seq::<Seq<char>>::empty());
        assert(job_views(jobs@) =~= Seq::<JobView>::empty());
    }
    while i < n
        invariant
            n <= segs.len(),
            i <= n,
            jobs@.len() == i,
            sv == segment_views(segs@),
            uris == leading_uris(sv, n as int),
            jobs_for(seg_base@.href, outer@, uris.take(i as int)) == Ok::<Seq<JobView>, MirrorError>(job_views(jobs@)),
        decreases n - i,
    {
        proof {
            assert(uris.take(i + 1).drop_last() =~= uris.take(i as int));
            assert(uris.take(i + 1).last() == segs@[i as int].uri@);
        }
        let u = match seg_base.resolve(segs[i].uri.as_str()) {
            Ok(u) => u,
            Err(e) => {
                proof {
                    lemma_jobs_for_stays_failed(seg_base@.href, outer@, uris, i + 1);
                }
                return Err(e);
            },
        };
        let p = match get_relative_path(outer, &u) {
            Ok(p) => p,
            Err(e) => {
                proof {
                    lemma_jobs_for_stays_failed(seg_base@.href, outer@, uris, i + 1);
                }
                return Err(e);
            },
        };
        let ghost before = job_views(jobs@);
        jobs.push(SegmentJob { url: u, path: p });
        proof {
            assert(job_views(jobs@) =~= before.push(jobs@[i as int]@));
        }
        i += 1;
    }
    proof {
        assert(uris.take(n as int) =~= uris);
    }
    Ok(MediaPlan { manifest_path, jobs })
}


/// What the root manifest leads to.
pub enum RootPlan {
    /// Store the master manifest at `file`, then mirror each variant, in
    /// order, resolved against `base`.
    Master { file: RelativePath, base: AssetUrl, variants: Vec<String> },
    /// Mirror the root itself as a media manifest, with `base` as the run's base URL.
    Media { base: AssetUrl },
}

pub ghost enum RootPlanView {
    Master { file: Seq<Seq<char>>, base: Seq<char>, variants: Seq<Seq<char>> },
    Media { base: Seq<char> },
}

impl View for RootPlan {
    type V = RootPlanView;

    open spec fn view(&self) -> RootPlanView {
        match self {
            RootPlan::Master { file, base, variants } => RootPlanView::Master {
                file: file.segments.deep_view(),
                base: base@.href,
                variants: variants.deep_view(),
            },
            RootPlan::Media { base } => RootPlanView::Media { base: base@.href },
        }
    }
}

/// The plan for the root manifest `m` at `root`: a master manifest needs a
/// file name and is stored under it; either kind has the directory of
/// `root` as the run's base URL.
pub open spec fn root_plan_of(root: UrlView, m: ManifestView) -> Result<RootPlanView, MirrorError> {
    match m {
        ManifestView::Master(variants) => match file_name_of(root.segments) {
            None => Err(MirrorError::FilenameUnresolvable),
            Some(name) => match href_outcome(joined_href(root.href, "./"@)) {
                Err(e) => Err(e),
                Ok(base) => Ok(RootPlanView::Master { file: seq![name], base, variants }),
            },
        },
        ManifestView::Media(_) => match href_outcome(joined_href(root.href, "./"@)) {
            Err(e) => Err(e),
            Ok(base) => Ok(RootPlanView::Media { base }),
        },
    }
}

/// Decides what the root manifest `manifest`, fetched from `root`, leads to.
pub fn plan_root(root: &AssetUrl, manifest: &Manifest) -> (r: Result<RootPlan, MirrorError>)
    ensures
        match r {
            Ok(p) => root_plan_of(root@, manifest@) == Ok::<RootPlanView, MirrorError>(p@),
            Err(e) => root_plan_of(root@, manifest@) == Err::<RootPlanView, MirrorError>(e),
        },
        r matches Ok(RootPlan::Master { base, .. }) ==> base@ == url_at(base@.href),
        r matches Ok(RootPlan::Media { base }) ==> base@ == url_at(base@.href),
{
    match manifest {
        Manifest::Master(variants) => {
            let name = match get_filename_from_url(root) {
                Some(name) => name,
                None => return Err(MirrorError::FilenameUnresolvable),
            };
            let base = match get_base_url(root) {
                Ok(b) => b,
                Err(e) => return Err(e),
            };
            let mut segments: Vec<String> = Vec::new();
            segments.push(name);
            let variants = variants.clone();
            proof {
                assert(segments.deep_view() =~= seq![name@]);
                assert(variants.deep_view() =~= manifest@->Master_0);
            }
            Ok(RootPlan::Master { file: RelativePath { segments }, base, variants })
        },
        Manifest::Media(_) => match get_base_url(root) {
            Ok(base) => Ok(RootPlan::Media { base }),
            Err(e) => Err(e),
        },
    }
}

/// The jobs whose target is not present yet, in their order; `present[i]`
/// tells whether the target of `jobs[i]` exists.
pub open spec fn pending_of(jobs: Seq<JobView>, present: Seq<bool>) -> Seq<JobView>
    decreases jobs.len(),
{
    if jobs.len() == 0 {
        Seq::empty()
    } else {
        let rest = pending_of(jobs.drop_last(), present);
        if present[jobs.len() - 1] {
            rest
        } else {
            rest.push(jobs.last())
        }
    }
}

/// The jobs that a run still has to do: those whose target path is not
/// present on disk, in manifest order.
pub fn pending_jobs(jobs: &Vec<SegmentJob>, present: &Vec<bool>) -> (r: Vec<SegmentJob>)
    requires
        present.len() == jobs.len(),
    ensures
        job_views(r@) == pending_of(job_views(jobs@), present@),
{
    let ghost all = job_views(jobs@);
    let mut out: Vec<SegmentJob> = Vec::new();
    let mut i: usize = 0;
    proof {
        assert(all.take(0) =~= Seq::<JobView>::empty());
        assert(job_views(out@) =~= Seq::<JobView>::empty());
    }
    while i < jobs.len()
        invariant
            i <= jobs.len(),
            present.len() == jobs.len(),
            all == job_views(jobs@),
            job_views(out@) == pending_of(all.take(i as int), present@),
        decreases jobs.len() - i,
    {
        proof {
            assert(all.take(i + 1).drop_last() =~= all.take(i as int));
        }
        if !present[i] {
            let ghost before = job_views(out@);
            out.push(jobs[i].clone());
            proof {
                assert(job_views(out@) =~= before.push(all[i as int]));
            }
        }
        i += 1;
    }
    proof {
        assert(all.take(i as int) =~= all);
    }
    out
}

/// The outcome of a batch of fetches, reported in dispatch order: success
/// when every one succeeded, else the failure of the first that failed.
pub open spec fn first_failure_of(results: Seq<Result<(), MirrorError>>) -> Result<(), MirrorError>
    decreases results.len(),
{
    if results.len() == 0 {
        Ok(())
    } else {
        match first_failure_of(results.drop_last()) {
            Err(e) => Err(e),
            Ok(_) => results.last(),
        }
    }
}

proof fn lemma_first_failure_stays(results: Seq<Result<(), MirrorError>>, k: int)
    requires
        0 <= k <= results.len(),
        first_failure_of(results.take(k)) is Err,
    ensures
        first_failure_of(results) == first_failure_of(results.take(k)),
    decreases results.len() - k,
{
    if k < results.len() {
        assert(results.take(k + 1).drop_last() =~= results.take(k));
        lemma_first_failure_stays(results, k + 1);
    } else {
        assert(results.take(k) =~= results);
    }
}

/// The outcome of a batch of fetches reported in dispatch order: success
/// when every one succeeded, else the failure of the first that failed.
pub fn first_failure(results: &Vec<Result<(), MirrorError>>) -> (r: Result<(), MirrorError>)
    ensures
        r == first_failure_of(results@),
        r is Ok <==> forall|i: int| 0 <= i < results.len() ==> results[i] is Ok,
        r matches Err(e) ==> exists|k: int|
            0 <= k < results.len() && results[k] == Err::<(), MirrorError>(e)
                && forall|j: int| 0 <= j < k ==> results[j] is Ok,
{
    let mut i: usize = 0;
    proof {
        assert(results@.take(0) =~= Seq::<Result<(), MirrorError>>::empty());
    }
    while i < results.len()
        invariant
            i <= results.len(),
            forall|j: int| 0 <= j < i ==> results[j] is Ok,
            first_failure_of(results@.take(i as int)) == Ok::<(), MirrorError>(()),
        decreases results.len() - i,
    {
        proof {
            assert(results@.take(i + 1).drop_last() =~= results@.take(i as int));
        }
        if let Err(e) = &results[i] {
            proof {
                lemma_first_failure_stays(results@, i + 1);
            }
            return Err(*e);
        }
        proof {
            let t = results@.take(i + 1);
            assert(t.drop_last() =~= results@.take(i as int));
            assert(t.last() == results@[i as int]);
            assert(first_failure_of(t) == t.last());
            assert(results@[i as int] matches Ok(u) && u == ());
        }
        i += 1;
    }
    proof {
        assert(results@.take(i as int) =~= results@);
    }
    Ok(())
}

/// Maps the status of a response to the outcome of a fetch: any 2xx status
/// succeeds, any other fails with that status.
pub fn check_status(status: u16) -> (r: Result<(), MirrorError>)
    ensures
        200 <= status <= 299 ==> r is Ok,
        !(200 <= status <= 299) ==> r == Err::<(), MirrorError>(MirrorError::Http(status)),
{
    if 200 <= status && status <= 299 {
        Ok(())
    } else {
        Err(MirrorError::Http(status))
    }
}


/// A run needs no segment fetch where every target of a plan is present: a
/// second run over an unchanged manifest and output directory skips them all.
pub proof fn lemma_nothing_pending_when_all_present(jobs: Seq<JobView>, present: Seq<bool>)
    requires
        present.len() == jobs.len(),
        forall|i: int| 0 <= i < present.len() ==> present[i],
    ensures
        pending_of(jobs, present).len() == 0,
    decreases jobs.len(),
{
    if jobs.len() > 0 {
        lemma_nothing_pending_when_all_present(jobs.drop_last(), present.take(present.len() - 1));
        lemma_pending_ignores_later_flags(jobs.drop_last(), present, present.take(present.len() - 1));
    }
}

proof fn lemma_pending_ignores_later_flags(jobs: Seq<JobView>, p: Seq<bool>, q: Seq<bool>)
    requires
        jobs.len() <= p.len(),
        jobs.len() <= q.len(),
        forall|i: int| 0 <= i < jobs.len() ==> p[i] == q[i],
    ensures
        pending_of(jobs, p) == pending_of(jobs, q),
    decreases jobs.len(),
{
    if jobs.len() > 0 {
        lemma_pending_ignores_later_flags(jobs.drop_last(), p, q);
    }
}

/// The jobs of a list of references are one per reference, in the same order.
proof fn lemma_jobs_for_in_order(seg_base: Seq<char>, outer: UrlView, uris: Seq<Seq<char>>)
    requires
        jobs_for(seg_base, outer, uris) is Ok,
    ensures
        jobs_for(seg_base, outer, uris)->Ok_0.len() == uris.len(),
        forall|i: int| 0 <= i < uris.len() ==> job_for(seg_base, outer, uris[i])
            == Ok::<JobView, MirrorError>(jobs_for(seg_base, outer, uris)->Ok_0[i]),
    decreases uris.len(),
{
    if uris.len() > 0 {
        let rest = uris.drop_last();
        lemma_jobs_for_in_order(seg_base, outer, rest);
        let jobs = jobs_for(seg_base, outer, uris)->Ok_0;
        assert forall|i: int| 0 <= i < uris.len() implies job_for(seg_base, outer, uris[i])
            == Ok::<JobView, MirrorError>(jobs[i]) by {
            if i < uris.len() - 1 {
                assert(rest[i] == uris[i]);
            }
        }
    }
}

/// The segments a media plan fetches match, one for one and in manifest
/// order, the leading segments that the fetch length selects: the i-th job is
/// the i-th segment resolved against the manifest's directory.
pub proof fn lemma_media_plan_keeps_order(outer: UrlView, url: UrlView, m: ManifestView, length: FetchLength)
    requires
        media_plan_of(outer, url, m, length) is Ok,
    ensures
        m is Media,
        ({
            let segs = m->Media_0;
            let n = selected_count(segs, length);
            let jobs = media_plan_of(outer, url, m, length)->Ok_0.jobs;
            let seg_base = href_outcome(joined_href(url.href, "./"@))->Ok_0;
            &&& jobs.len() == n
            &&& forall|i: int| 0 <= i < n ==> job_for(seg_base, outer, segs[i].uri)
                == Ok::<JobView, MirrorError>(jobs[i])
        }),
{
    let segs = m->Media_0;
    let n = selected_count(segs, length);
    let seg_base = href_outcome(joined_href(url.href, "./"@))->Ok_0;
    lemma_selected_count_bounded(segs, length);
    let uris = leading_uris(segs, n);
    assert(href_outcome(joined_href(url.href, "./"@)) is Ok);
    assert(jobs_for(seg_base, outer, uris) is Ok);
    assert(media_plan_of(outer, url, m, length)->Ok_0.jobs == jobs_for(seg_base, outer, uris)->Ok_0);
    lemma_jobs_for_in_order(seg_base, outer, uris);
    let jobs = jobs_for(seg_base, outer, uris)->Ok_0;
    assert(uris.len() == n);
    assert forall|i: int| 0 <= i < n implies job_for(seg_base, outer, segs[i].uri)
        == Ok::<JobView, MirrorError>(jobs[i]) by {
        assert(uris[i] == segs[i].uri);
        assert(job_for(seg_base, outer, uris[i]) == Ok::<JobView, MirrorError>(jobs[i]));
    }
}

proof fn lemma_selected_count_bounded(segs: Seq<SegmentView>, length: FetchLength)
    ensures
        0 <= selected_count(segs, length) <= segs.len(),
{
    if let FetchLength::Duration(t) = length {
        lemma_duration_selection_exists(segs, t as int);
    }
}

/// A master manifest whose URL ends in `/` has no file to be stored under:
/// the run fails with `FilenameUnresolvable` before any variant or segment is
/// planned.
pub proof fn lemma_master_without_file_name_fails(root: UrlView, m: ManifestView)
    requires
        root.well_formed(),
        m is Master,
        path_of(root.segments).last() == '/',
    ensures
        root_plan_of(root, m) == Err::<RootPlanView, MirrorError>(MirrorError::FilenameUnresolvable),
{
    lemma_file_name_iff_no_trailing_slash(root);
}

} // verus!
