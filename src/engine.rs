//! A mirroring run as a state machine. The run asks for one action at a
//! time (fetch a manifest, store bytes, look which files exist, fetch
//! segments); whoever performs it hands the outcome back as an event, and the
//! run decides the next action. Renditions are mirrored one after another;
//! the first failure ends the run.

use vstd::prelude::*;

use crate::error::MirrorError;
use crate::location::{
    get_relative_path, host_of, href_outcome, joined_href, path_of, relative_path_of, url_at, AssetUrl,
    RelativePath, UrlView,
};
use crate::manifest::{manifest_of, parse_manifest, FetchLength, Manifest, ManifestView};
use crate::mirror::{
    first_failure, first_failure_of, job_views, lemma_master_without_file_name_fails,
    lemma_nothing_pending_when_all_present, media_plan_of, pending_jobs, pending_of, plan_media,
    plan_root, root_plan_of, JobView, RootPlan, RootPlanView, SegmentJob,
};

verus! {

/// Where a run stands in the list of renditions: the run's base URL, the
/// variant references of the master manifest, and how many have been taken.
pub struct Walk {
    pub base: AssetUrl,
    pub variants: Vec<String>,
    pub next: usize,
}

pub enum Stage {
    /// Waiting for the root manifest.
    AwaitRoot,
    /// Waiting for the master manifest to be stored.
    SavingMaster(Walk),
    /// Waiting for the media manifest at the given URL.
    AwaitManifest(Walk, AssetUrl),
    /// Waiting for a media manifest to be stored; then its segments, or the
    /// failure that reading it ended in.
    SavingMedia(Walk, Result<Vec<SegmentJob>, MirrorError>),
    /// Waiting to learn which segment targets exist.
    Probing(Walk, Vec<SegmentJob>),
    /// Waiting for segment fetches.
    Fetching(Walk),
    Finished,
    Failed,
}

pub struct MirrorRun {
    pub root: AssetUrl,
    pub length: FetchLength,
    pub stage: Stage,
}

/// What the run asks for next.
pub enum Action {
    /// Fetch the manifest at this URL; answer with `Event::Fetched`.
    FetchManifest(AssetUrl),
    /// Store these bytes at this path under the output directory; answer
    /// with `Event::Saved`.
    Save(RelativePath, Vec<u8>),
    /// Tell which of these paths exist; answer with `Event::Probed`.
    Probe(Vec<RelativePath>),
    /// Fetch and store these segments, any number at once; answer with
    /// `Event::SegmentsDone`, outcomes in this order.
    FetchSegments(Vec<SegmentJob>),
    /// The run is complete.
    Done,
    /// The run failed.
    Fail(MirrorError),
}

/// The outcome of an action.
pub enum Event {
    Fetched(Result<Vec<u8>, MirrorError>),
    Saved(Result<(), MirrorError>),
    /// For each path of the probe, whether it exists.
    Probed(Vec<bool>),
    /// The outcomes of the segment fetches in dispatch order, up to the first
    /// failure or all of them.
    SegmentsDone(Vec<Result<(), MirrorError>>),
}

pub ghost struct WalkView {
    pub base: UrlView,
    pub variants: Seq<Seq<char>>,
    pub next: int,
}

pub ghost enum StageView {
    AwaitRoot,
    SavingMaster(WalkView),
    AwaitManifest(WalkView, UrlView),
    SavingMedia(WalkView, Result<Seq<JobView>, MirrorError>),
    Probing(WalkView, Seq<JobView>),
    Fetching(WalkView),
    Finished,
    Failed,
}

pub ghost struct RunView {
    pub root: UrlView,
    pub length: FetchLength,
    pub stage: StageView,
}

pub ghost enum ActionView {
    FetchManifest(Seq<char>),
    Save(Seq<Seq<char>>, Seq<u8>),
    Probe(Seq<Seq<Seq<char>>>),
    FetchSegments(Seq<JobView>),
    Done,
    Fail(MirrorError),
}

pub ghost enum EventView {
    Fetched(Result<Seq<u8>, MirrorError>),
    Saved(Result<(), MirrorError>),
    Probed(Seq<bool>),
    SegmentsDone(Seq<Result<(), MirrorError>>),
}

impl View for Walk {
    type V = WalkView;

    open spec fn view(&self) -> WalkView {
        WalkView { base: self.base@, variants: self.variants.deep_view(), next: self.next as int }
    }
}

impl View for Stage {
    type V = StageView;

    open spec fn view(&self) -> StageView {
        match self {
            Stage::AwaitRoot => StageView::AwaitRoot,
            Stage::SavingMaster(w) => StageView::SavingMaster(w@),
            Stage::AwaitManifest(w, u) => StageView::AwaitManifest(w@, u@),
            Stage::SavingMedia(w, planned) => StageView::SavingMedia(w@, planned_view(*planned)),
            Stage::Probing(w, jobs) => StageView::Probing(w@, job_views(jobs@)),
            Stage::Fetching(w) => StageView::Fetching(w@),
            Stage::Finished => StageView::Finished,
            Stage::Failed => StageView::Failed,
        }
    }
}

impl View for MirrorRun {
    type V = RunView;

    open spec fn view(&self) -> RunView {
        RunView { root: self.root@, length: self.length, stage: self.stage@ }
    }
}

pub open spec fn planned_view(planned: Result<Vec<SegmentJob>, MirrorError>) -> Result<Seq<JobView>, MirrorError> {
    match planned {
        Ok(jobs) => Ok(job_views(jobs@)),
        Err(e) => Err(e),
    }
}

pub open spec fn path_views(paths: Seq<RelativePath>) -> Seq<Seq<Seq<char>>> {
    paths.map_values(|p: RelativePath| p.segments.deep_view())
}

impl View for Action {
    type V = ActionView;

    open spec fn view(&self) -> ActionView {
        match self {
            Action::FetchManifest(u) => ActionView::FetchManifest(u@.href),
            Action::Save(p, bytes) => ActionView::Save(p.segments.deep_view(), bytes@),
            Action::Probe(paths) => ActionView::Probe(path_views(paths@)),
            Action::FetchSegments(jobs) => ActionView::FetchSegments(job_views(jobs@)),
            Action::Done => ActionView::Done,
            Action::Fail(e) => ActionView::Fail(*e),
        }
    }
}

impl View for Event {
    type V = EventView;

    open spec fn view(&self) -> EventView {
        match self {
            Event::Fetched(Ok(bytes)) => EventView::Fetched(Ok(bytes@)),
            Event::Fetched(Err(e)) => EventView::Fetched(Err(*e)),
            Event::Saved(r) => EventView::Saved(*r),
            Event::Probed(flags) => EventView::Probed(flags@),
            Event::SegmentsDone(results) => EventView::SegmentsDone(results@),
        }
    }
}

impl RunView {
    pub open spec fn with_stage(self, stage: StageView) -> RunView {
        RunView { stage, ..self }
    }

    /// The run waits for an event of this kind: the outcome of the action it
    /// asked for last.
    pub open spec fn accepts(self, e: EventView) -> bool {
        match self.stage {
            StageView::AwaitRoot | StageView::AwaitManifest(..) => e is Fetched,
            StageView::SavingMaster(_) | StageView::SavingMedia(..) => e is Saved,
            StageView::Probing(_, jobs) => e matches EventView::Probed(flags) && flags.len() == jobs.len(),
            StageView::Fetching(_) => e is SegmentsDone,
            StageView::Finished | StageView::Failed => false,
        }
    }
}

pub open spec fn fail_with(run: RunView, e: MirrorError) -> (RunView, ActionView) {
    (run.with_stage(StageView::Failed), ActionView::Fail(e))
}

/// After a rendition, or after the master manifest: fetch the next variant,
/// resolved against the run's base URL, or finish. A variant on another host
/// than the run's is not fetched: the run fails.
pub open spec fn advance(run: RunView, w: WalkView) -> (RunView, ActionView) {
    if 0 <= w.next < w.variants.len() {
        match href_outcome(joined_href(w.base.href, w.variants[w.next])) {
            Err(e) => fail_with(run, e),
            Ok(h) => if host_of(h) != w.base.host {
                fail_with(run, MirrorError::HostMismatch)
            } else { (
                run.with_stage(StageView::AwaitManifest(WalkView { next: w.next + 1, ..w }, url_at(h))),
                ActionView::FetchManifest(h),
            ) },
        }
    } else {
        (run.with_stage(StageView::Finished), ActionView::Done)
    }
}

/// The segments to fetch for the manifest `m` read from `url`, or why there
/// are none: bytes that are no media manifest, or a segment that cannot be
/// mirrored.
pub open spec fn planned_jobs(base: UrlView, url: UrlView, m: Option<ManifestView>, length: FetchLength) -> Result<Seq<JobView>, MirrorError> {
    match m {
        None => Err(MirrorError::ParseFailure),
        Some(m) => match media_plan_of(base, url, m, length) {
            Err(e) => Err(e),
            Ok(p) => Ok(p.jobs),
        },
    }
}

/// A media manifest fetched from `url`: store its bytes at its path relative
/// to the run's base URL first, whatever they hold; what they lead to comes
/// after.
pub open spec fn media_step(run: RunView, w: WalkView, url: UrlView, m: Option<ManifestView>, bytes: Seq<u8>) -> (RunView, ActionView) {
    match relative_path_of(w.base, url) {
        Err(e) => fail_with(run, e),
        Ok(path) => (
            run.with_stage(StageView::SavingMedia(w, planned_jobs(w.base, url, m, run.length))),
            ActionView::Save(path, bytes),
        ),
    }
}

/// The root manifest: a master manifest is stored and its variants follow; a
/// media manifest is mirrored at once.
pub open spec fn root_step(run: RunView, bytes: Seq<u8>) -> (RunView, ActionView) {
    match manifest_of(bytes) {
        None => fail_with(run, MirrorError::ParseFailure),
        Some(m) => match root_plan_of(run.root, m) {
            Err(e) => fail_with(run, e),
            Ok(RootPlanView::Master { file, base, variants }) => (
                run.with_stage(StageView::SavingMaster(WalkView { base: url_at(base), variants, next: 0 })),
                ActionView::Save(file, bytes),
            ),
            Ok(RootPlanView::Media { base }) => media_step(
                run,
                WalkView { base: url_at(base), variants: Seq::empty(), next: 0 },
                run.root,
                Some(m),
                bytes,
            ),
        },
    }
}

/// What the run does on an event it accepts: the next state and action.
pub open spec fn next(run: RunView, e: EventView) -> (RunView, ActionView)
    recommends
        run.accepts(e),
{
    match run.stage {
        StageView::AwaitRoot => match e {
            EventView::Fetched(Ok(bytes)) => root_step(run, bytes),
            EventView::Fetched(Err(x)) => fail_with(run, x),
            _ => arbitrary(),
        },
        StageView::AwaitManifest(w, url) => match e {
            EventView::Fetched(Ok(bytes)) => media_step(run, w, url, manifest_of(bytes), bytes),
            EventView::Fetched(Err(x)) => fail_with(run, x),
            _ => arbitrary(),
        },
        StageView::SavingMaster(w) => match e {
            EventView::Saved(Ok(_)) => advance(run, w),
            EventView::Saved(Err(x)) => fail_with(run, x),
            _ => arbitrary(),
        },
        StageView::SavingMedia(w, planned) => match e {
            EventView::Saved(Ok(_)) => match planned {
                Err(x) => fail_with(run, x),
                Ok(jobs) => (
                    run.with_stage(StageView::Probing(w, jobs)),
                    ActionView::Probe(jobs.map_values(|j: JobView| j.path)),
                ),
            },
            EventView::Saved(Err(x)) => fail_with(run, x),
            _ => arbitrary(),
        },
        StageView::Probing(w, jobs) => match e {
            EventView::Probed(flags) => {
                let pending = pending_of(jobs, flags);
                if pending.len() == 0 {
                    advance(run, w)
                } else {
                    (run.with_stage(StageView::Fetching(w)), ActionView::FetchSegments(pending))
                }
            },
            _ => arbitrary(),
        },
        StageView::Fetching(w) => match e {
            EventView::SegmentsDone(results) => match first_failure_of(results) {
                Err(x) => fail_with(run, x),
                Ok(_) => advance(run, w),
            },
            _ => arbitrary(),
        },
        StageView::Finished | StageView::Failed => arbitrary(),
    }
}


/// Where every segment target of a media manifest already exists, as on a
/// second run into the same output directory, the run fetches no segment:
/// it goes on to the next rendition or finishes.
pub proof fn lemma_present_targets_need_no_fetch(run: RunView, flags: Seq<bool>)
    requires
        run.stage matches StageView::Probing(_, jobs) && flags.len() == jobs.len(),
        forall|i: int| 0 <= i < flags.len() ==> flags[i],
    ensures
        !(next(run, EventView::Probed(flags)).1 is FetchSegments),
{
    let jobs = run.stage->Probing_1;
    lemma_nothing_pending_when_all_present(jobs, flags);
}

/// A master manifest at a URL whose path ends in `/` ends the run with
/// `FilenameUnresolvable` as soon as it arrives; the only action before it
/// fetched the root, so no segment was ever fetched.
pub proof fn lemma_master_root_without_file_name_fails(root: UrlView, length: FetchLength, bytes: Seq<u8>)
    requires
        root.well_formed(),
        manifest_of(bytes) matches Some(m) && m is Master,
        path_of(root.segments).last() == '/',
    ensures
        ({
            let run = RunView { root, length, stage: StageView::AwaitRoot };
            next(run, EventView::Fetched(Ok(bytes))) == fail_with(run, MirrorError::FilenameUnresolvable)
        }),
{
    lemma_master_without_file_name_fails(root, manifest_of(bytes)->0);
}

/// A fetched media manifest is stored before anything is read from it: the
/// next action saves its bytes, whether or not they hold a media manifest, so
/// they stay on disk when reading them then fails.
pub proof fn lemma_media_manifest_stored_first(run: RunView, bytes: Seq<u8>)
    requires
        run.stage matches StageView::AwaitManifest(w, url) && relative_path_of(w.base, url) is Ok,
    ensures
        ({
            let (w, url) = (run.stage->AwaitManifest_0, run.stage->AwaitManifest_1);
            next(run, EventView::Fetched(Ok(bytes))).1
                == ActionView::Save(relative_path_of(w.base, url)->Ok_0, bytes)
        }),
{
}

/// A variant that resolves to another host than the run's is never fetched:
/// the run fails with `HostMismatch` in place of fetching it.
pub proof fn lemma_variant_on_other_host_not_fetched(run: RunView)
    requires
        run.stage is SavingMaster,
        ({
            let w = run.stage->SavingMaster_0;
            &&& 0 <= w.next < w.variants.len()
            &&& href_outcome(joined_href(w.base.href, w.variants[w.next])) is Ok
            &&& host_of(href_outcome(joined_href(w.base.href, w.variants[w.next]))->Ok_0) != w.base.host
        }),
    ensures
        next(run, EventView::Saved(Ok(()))) == fail_with(run, MirrorError::HostMismatch),
{
}

/// A batch of segment fetches with a failure ends the run with the failure
/// of the first in manifest order.
pub proof fn lemma_first_segment_failure_ends_run(run: RunView, results: Seq<Result<(), MirrorError>>, k: int)
    requires
        run.stage is Fetching,
        0 <= k < results.len(),
        results[k] is Err,
        forall|j: int| 0 <= j < k ==> results[j] is Ok,
    ensures
        next(run, EventView::SegmentsDone(results)) == fail_with(run, results[k]->Err_0),
{
    lemma_first_failure_at(results, k);
}

proof fn lemma_first_failure_at(results: Seq<Result<(), MirrorError>>, k: int)
    requires
        0 <= k < results.len(),
        results[k] is Err,
        forall|j: int| 0 <= j < k ==> results[j] is Ok,
    ensures
        first_failure_of(results) == results[k],
    decreases results.len(),
{
    if k < results.len() - 1 {
        lemma_first_failure_at(results.drop_last(), k);
    } else {
        lemma_all_ok_so_far(results.drop_last());
    }
}

proof fn lemma_all_ok_so_far(results: Seq<Result<(), MirrorError>>)
    requires
        forall|j: int| 0 <= j < results.len() ==> results[j] is Ok,
    ensures
        first_failure_of(results) is Ok,
    decreases results.len(),
{
    if results.len() > 0 {
        lemma_all_ok_so_far(results.drop_last());
    }
}

fn fail(root: AssetUrl, length: FetchLength, e: MirrorError) -> (r: (MirrorRun, Action))
    ensures
        (r.0@, r.1@) == fail_with(RunView { root: root@, length, stage: StageView::AwaitRoot }, e),
{
    (MirrorRun { root, length, stage: Stage::Failed }, Action::Fail(e))
}

fn advance_walk(root: AssetUrl, length: FetchLength, w: Walk) -> (r: (MirrorRun, Action))
    ensures
        (r.0@, r.1@) == advance(RunView { root: root@, length, stage: StageView::AwaitRoot }, w@),
{
    proof {
        use_type_invariant(&w.base);
    }
    if w.next < w.variants.len() {
        proof {
            assert(w.variants@[w.next as int]@ == w@.variants[w@.next]);
        }
        match w.base.resolve(w.variants[w.next].as_str()) {
            Err(e) => fail(root, length, e),
            Ok(url) => {
                if !url.same_host(&w.base) {
                    return fail(root, length, MirrorError::HostMismatch);
                }
                let action = Action::FetchManifest(url.clone());
                let next = w.next + 1;
                let walk = Walk { base: w.base, variants: w.variants, next };
                (MirrorRun { root, length, stage: Stage::AwaitManifest(walk, url) }, action)
            },
        }
    } else {
        (MirrorRun { root, length, stage: Stage::Finished }, Action::Done)
    }
}

fn media_step_exec(
    root: AssetUrl,
    length: FetchLength,
    w: Walk,
    url: &AssetUrl,
    m: Result<Manifest, MirrorError>,
    bytes: Vec<u8>,
) -> (r: (MirrorRun, Action))
    requires
        m matches Ok(mm) ==> manifest_of(bytes@) == Some(mm@),
        m is Err ==> manifest_of(bytes@) is None,
    ensures
        (r.0@, r.1@) == media_step(
            RunView { root: root@, length, stage: StageView::AwaitRoot },
            w@,
            url@,
            manifest_of(bytes@),
            bytes@,
        ),
{
    let path = match get_relative_path(&w.base, url) {
        Ok(p) => p,
        Err(e) => return fail(root, length, e),
    };
    let planned = match m {
        Err(_) => Err(MirrorError::ParseFailure),
        Ok(m) => match plan_media(&w.base, url, &m, &length) {
            Ok(plan) => Ok(plan.jobs),
            Err(e) => Err(e),
        },
    };
    (MirrorRun { root, length, stage: Stage::SavingMedia(w, planned) }, Action::Save(path, bytes))
}

fn probe_paths(jobs: &Vec<SegmentJob>) -> (r: Vec<RelativePath>)
    ensures
        path_views(r@) == job_views(jobs@).map_values(|j: JobView| j.path),
{
    let ghost want = job_views(jobs@).map_values(|j: JobView| j.path);
    let mut paths: Vec<RelativePath> = Vec::new();
    let mut i: usize = 0;
    while i < jobs.len()
        invariant
            i <= jobs.len(),
            want == job_views(jobs@).map_values(|j: JobView| j.path),
            path_views(paths@) == want.take(i as int),
        decreases jobs.len() - i,
    {
        let ghost before = path_views(paths@);
        paths.push(jobs[i].path.clone());
        proof {
            assert(path_views(paths@) =~= before.push(want[i as int]));
            assert(want.take(i + 1) =~= want.take(i as int).push(want[i as int]));
        }
        i += 1;
    }
    proof {
        assert(want.take(i as int) =~= want);
    }
    paths
}

impl MirrorRun {
    /// A run that mirrors the tree under `root`, taking `length` of each
    /// media manifest. Its first action fetches the root manifest.
    pub fn start(root: AssetUrl, length: FetchLength) -> (r: (MirrorRun, Action))
        ensures
            r.0@ == (RunView { root: root@, length, stage: StageView::AwaitRoot }),
            r.1@ == ActionView::FetchManifest(root@.href),
    {
        let action = Action::FetchManifest(root.clone());
        (MirrorRun { root, length, stage: Stage::AwaitRoot }, action)
    }

    /// Whether the run waits for an event like `e`.
    pub fn accepts(&self, e: &Event) -> (r: bool)
        ensures
            r == self@.accepts(e@),
    {
        match &self.stage {
            Stage::AwaitRoot | Stage::AwaitManifest(..) => matches!(e, Event::Fetched(_)),
            Stage::SavingMaster(_) | Stage::SavingMedia(..) => matches!(e, Event::Saved(_)),
            Stage::Probing(_, jobs) => match e {
                Event::Probed(flags) => flags.len() == jobs.len(),
                _ => false,
            },
            Stage::Fetching(_) => matches!(e, Event::SegmentsDone(_)),
            Stage::Finished | Stage::Failed => false,
        }
    }

    /// Takes the outcome of the last action and gives the next action.
    pub fn step(self, e: Event) -> (r: (MirrorRun, Action))
        requires
            self@.accepts(e@),
        ensures
            (r.0@, r.1@) == next(self@, e@),
    {
        let MirrorRun { root, length, stage } = self;
        match stage {
            Stage::AwaitRoot => match e {
                Event::Fetched(Ok(bytes)) => {
                    let m = parse_manifest(bytes.as_slice());
                    let m = match m {
                        Ok(m) => m,
                        Err(_) => return fail(root, length, MirrorError::ParseFailure),
                    };
                    match plan_root(&root, &m) {
                        Err(e) => fail(root, length, e),
                        Ok(RootPlan::Master { file, base, variants }) => {
                            let walk = Walk { base, variants, next: 0 };
                            (MirrorRun { root, length, stage: Stage::SavingMaster(walk) }, Action::Save(file, bytes))
                        },
                        Ok(RootPlan::Media { base }) => {
                            let walk = Walk { base, variants: Vec::new(), next: 0 };
                            proof {
                                assert(walk@.variants =~= Seq::<Seq<char>>::empty());
                            }
                            let url = root.clone();
                            media_step_exec(root, length, walk, &url, Ok(m), bytes)
                        },
                    }
                },
                Event::Fetched(Err(x)) => fail(root, length, x),
                _ => unreached(),
            },
            Stage::AwaitManifest(w, url) => match e {
                Event::Fetched(Ok(bytes)) => {
                    let m = parse_manifest(bytes.as_slice());
                    media_step_exec(root, length, w, &url, m, bytes)
                },
                Event::Fetched(Err(x)) => fail(root, length, x),
                _ => unreached(),
            },
            Stage::SavingMaster(w) => match e {
                Event::Saved(Ok(_)) => advance_walk(root, length, w),
                Event::Saved(Err(x)) => fail(root, length, x),
                _ => unreached(),
            },
            Stage::SavingMedia(w, planned) => match e {
                Event::Saved(Ok(_)) => match planned {
                    Err(x) => fail(root, length, x),
                    Ok(jobs) => {
                        let paths = probe_paths(&jobs);
                        (MirrorRun { root, length, stage: Stage::Probing(w, jobs) }, Action::Probe(paths))
                    },
                },
                Event::Saved(Err(x)) => fail(root, length, x),
                _ => unreached(),
            },
            Stage::Probing(w, jobs) => match e {
                Event::Probed(flags) => {
                    let pending = pending_jobs(&jobs, &flags);
                    if pending.len() == 0 {
                        advance_walk(root, length, w)
                    } else {
                        (MirrorRun { root, length, stage: Stage::Fetching(w) }, Action::FetchSegments(pending))
                    }
                },
                _ => unreached(),
            },
            Stage::Fetching(w) => match e {
                Event::SegmentsDone(results) => match first_failure(&results) {
                    Err(x) => fail(root, length, x),
                    Ok(_) => advance_walk(root, length, w),
                },
                _ => unreached(),
            },
            Stage::Finished | Stage::Failed => unreached(),
        }
    }
}

} // verus!
