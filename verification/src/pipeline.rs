//! The whole pipeline as a state machine: list the runs, and for each
//! eligible run in turn hand out the span of the run, look up its archive
//! and hand out the spans of its logs; then have the sink flushed, and
//! end.
//!
//! The machine asks for one thing at a time. Whoever drives it talks to
//! the provider, the disk and the sink, and hands back what came of it.

use vstd::prelude::*;
use crate::cache::{archive_path, ArchiveCache, CacheKey, KeyView};
use crate::fetch::{first_request, parting_request, start, ArchiveFetch, CacheReply, CacheRequest, FetchView, ReplyView, RequestView, Step, StepView};
use crate::run::{eligible, eligible_runs, Run, RunSelector};
use crate::span::{run_span, trace_of, RunTrace, SpanNode, SpanTreeBuilder, TraceView};

verus! {

/// What the pipeline works on.
#[derive(Debug, PartialEq, Eq)]
pub struct Settings {
    pub owner: String,
    pub repo: String,
    /// The name of the workflow whose runs are read.
    pub target_name: String,
    /// How many runs the provider is asked for at a time.
    pub page_size: u32,
    pub cache_root: String,
    pub archive_extension: String,
    /// Whether a cached file is trusted only where it is an archive.
    pub validate_cache: bool,
}

/// What the pipeline is waiting for.
#[derive(Clone, Copy, Debug, PartialEq, Eq, Structural)]
pub enum Stage {
    /// For the list of runs.
    Listing,
    /// For the span of the run at hand to be with the sink.
    Opening,
    /// For the reply to a request of the lookup of the run at hand.
    Fetching,
    /// For the trace of the run at hand to be with the sink.
    Emitting,
    /// For the claim of a lookup that was broken off to be given up.
    Stopping,
    /// For the sink to be flushed.
    Flushing,
    /// For nothing: the pipeline is over.
    Over,
}

/// What the driver of the pipeline is asked to do.
#[derive(Debug, PartialEq, Eq)]
pub enum Request {
    /// List all runs of the repository, page by page, and reply `Listed`
    /// with all of them; reply `ListFailed` where any page fails.
    ListRuns { owner: String, repo: String, page_size: u32 },
    /// Serve the request of a lookup and reply `Cache` with its reply.
    Cache(CacheRequest),
    /// Hand the spans of `trace` from the place `from` on to the sink, in
    /// their order, each below the span at the place of its parent, and
    /// log the notices. The spans before `from` are with the sink since
    /// the request before. Reply `Emitted`.
    Emit { trace: RunTrace, from: usize },
    /// Flush the sink and reply `Flushed`.
    Flush,
    /// End, with an error where `failed`.
    Exit { failed: bool },
}

pub enum RequestModel {
    ListRuns { owner: Seq<char>, repo: Seq<char>, page_size: u32 },
    Cache(RequestView),
    Emit { trace: TraceView, from: usize },
    Flush,
    Exit { failed: bool },
}

impl View for Request {
    type V = RequestModel;

    open spec fn view(&self) -> RequestModel {
        match self {
            Request::ListRuns { owner, repo, page_size } => RequestModel::ListRuns {
                owner: owner@,
                repo: repo@,
                page_size: *page_size,
            },
            Request::Cache(request) => RequestModel::Cache(request@),
            Request::Emit { trace, from } => RequestModel::Emit { trace: trace@, from: *from },
            Request::Flush => RequestModel::Flush,
            Request::Exit { failed } => RequestModel::Exit { failed: *failed },
        }
    }
}

/// What came of a request of the pipeline.
#[derive(Debug, PartialEq, Eq)]
pub enum Reply {
    Listed(Vec<Run>),
    ListFailed(String),
    Cache(CacheReply),
    Emitted,
    Flushed,
    /// In place of any reply: the pipeline is to stop.
    Cancelled,
}

pub enum ReplyModel {
    Listed(Seq<Run>),
    ListFailed,
    Cache(ReplyView),
    Emitted,
    Flushed,
    Cancelled,
}

impl View for Reply {
    type V = ReplyModel;

    open spec fn view(&self) -> ReplyModel {
        match self {
            Reply::Listed(runs) => ReplyModel::Listed(runs@),
            Reply::ListFailed(_) => ReplyModel::ListFailed,
            Reply::Cache(reply) => ReplyModel::Cache(reply@),
            Reply::Emitted => ReplyModel::Emitted,
            Reply::Flushed => ReplyModel::Flushed,
            Reply::Cancelled => ReplyModel::Cancelled,
        }
    }
}

/// The state of the pipeline.
pub struct PipelineView {
    pub owner: Seq<char>,
    pub repo: Seq<char>,
    pub target_name: Seq<char>,
    pub page_size: u32,
    pub cache_root: Seq<char>,
    pub archive_extension: Seq<char>,
    pub validate_cache: bool,
    pub stage: Stage,
    /// The eligible runs, once they are listed.
    pub runs: Seq<Run>,
    /// The place of the run at hand.
    pub at: nat,
    /// The lookup of the run at hand, while there is one.
    pub fetch: Option<FetchView>,
    /// Something went wrong that no later step makes good.
    pub failed: bool,
}

/// The pipeline as it begins.
pub open spec fn pipeline_start(settings: Settings) -> PipelineView {
    PipelineView {
        owner: settings.owner@,
        repo: settings.repo@,
        target_name: settings.target_name@,
        page_size: settings.page_size,
        cache_root: settings.cache_root@,
        archive_extension: settings.archive_extension@,
        validate_cache: settings.validate_cache,
        stage: Stage::Listing,
        runs: Seq::empty(),
        at: 0,
        fetch: None,
        failed: false,
    }
}

/// What the pipeline asks first.
pub open spec fn pipeline_first_request(s: PipelineView) -> RequestModel {
    RequestModel::ListRuns { owner: s.owner, repo: s.repo, page_size: s.page_size }
}

/// The key that the archive of run `at` is filed under.
pub open spec fn key_at(s: PipelineView, at: nat) -> KeyView {
    KeyView {
        owner: s.owner,
        repo: s.repo,
        branch: s.runs[at as int].branch@,
        run_id: s.runs[at as int].id,
    }
}

/// The trace of a run before its archive is looked up: the span of the
/// run.
pub open spec fn opening_trace(run: Run) -> TraceView {
    TraceView { spans: seq![run_span(run)], notices: Seq::empty() }
}

/// Turns to run `at`: hands out the span of the run, or, behind the last
/// run, has the sink flushed.
pub open spec fn turn_to(s: PipelineView, at: nat) -> (PipelineView, RequestModel) {
    if at < s.runs.len() {
        (
            PipelineView { stage: Stage::Opening, at, fetch: None, ..s },
            RequestModel::Emit { trace: opening_trace(s.runs[at as int]), from: 0 },
        )
    } else {
        (PipelineView { stage: Stage::Flushing, fetch: None, ..s }, RequestModel::Flush)
    }
}

/// Begins the lookup of the archive of the run at hand.
pub open spec fn look_up(s: PipelineView) -> (PipelineView, RequestModel) {
    let fetch = start(s.cache_root, key_at(s, s.at), s.archive_extension, s.validate_cache);
    (
        PipelineView { stage: Stage::Fetching, fetch: Some(fetch), ..s },
        RequestModel::Cache(first_request(fetch)),
    )
}

/// Stops before the runs are done, with an error where `failed`: the
/// claim of a lookup that is under way is given up first, then the sink
/// is flushed.
pub open spec fn halt(s: PipelineView, failed: bool) -> (PipelineView, RequestModel) {
    let parting = match s.fetch {
        Some(fetch) => parting_request(fetch),
        None => None,
    };
    match parting {
        Some(release) => (
            PipelineView { stage: Stage::Stopping, fetch: None, failed, ..s },
            RequestModel::Cache(release),
        ),
        None => (
            PipelineView { stage: Stage::Flushing, fetch: None, failed, ..s },
            RequestModel::Flush,
        ),
    }
}

/// Gives up: stops, to end with an error.
pub open spec fn abort(s: PipelineView) -> (PipelineView, RequestModel) {
    halt(s, true)
}

/// The state that follows `s` on `reply`, and the next request.
///
/// A listing that fails ends the pipeline: no run of a listing that is not
/// whole is read. The span of a run is with the sink before its archive is
/// looked up. A lookup that fails ends nothing: its run stays without
/// children, and the next run follows. `Cancelled` stops the pipeline
/// where it stands, and is no error. However the pipeline ends, the sink
/// is flushed first. A reply that does not answer the request ends the
/// pipeline like a failed listing.
pub open spec fn pipeline_next(s: PipelineView, reply: ReplyModel) -> (PipelineView, RequestModel) {
    match s.stage {
        Stage::Listing => match reply {
            ReplyModel::Listed(runs) => turn_to(
                PipelineView { runs: eligible_runs(runs, s.target_name), ..s },
                0,
            ),
            ReplyModel::Cancelled => halt(s, s.failed),
            _ => abort(s),
        },
        Stage::Opening => match reply {
            ReplyModel::Emitted => if s.at < s.runs.len() {
                look_up(s)
            } else {
                abort(s)
            },
            ReplyModel::Cancelled => halt(s, s.failed),
            _ => abort(s),
        },
        Stage::Fetching => match (s.fetch, reply) {
            (Some(fetch), ReplyModel::Cache(answer)) => if s.at < s.runs.len() {
                let (then, step) = crate::fetch::next(fetch, answer);
                match step {
                    StepView::Ask(asked) => (
                        PipelineView { fetch: Some(then), ..s },
                        RequestModel::Cache(asked),
                    ),
                    StepView::Done(outcome) => (
                        PipelineView { stage: Stage::Emitting, fetch: None, ..s },
                        RequestModel::Emit { trace: trace_of(s.runs[s.at as int], outcome), from: 1 },
                    ),
                }
            } else {
                abort(s)
            },
            (_, ReplyModel::Cancelled) => halt(s, s.failed),
            _ => abort(s),
        },
        Stage::Emitting => match reply {
            ReplyModel::Emitted => turn_to(s, s.at + 1),
            ReplyModel::Cancelled => halt(s, s.failed),
            _ => abort(s),
        },
        Stage::Stopping => (PipelineView { stage: Stage::Flushing, ..s }, RequestModel::Flush),
        Stage::Flushing => (
            PipelineView { stage: Stage::Over, ..s },
            RequestModel::Exit { failed: s.failed || !(reply is Flushed) },
        ),
        Stage::Over => (s, RequestModel::Exit { failed: true }),
    }
}

/// The pipeline.
pub struct Pipeline {
    settings: Settings,
    stage: Stage,
    runs: Vec<Run>,
    at: usize,
    fetch: Option<ArchiveFetch>,
    failed: bool,
}

impl View for Pipeline {
    type V = PipelineView;

    closed spec fn view(&self) -> PipelineView {
        PipelineView {
            owner: self.settings.owner@,
            repo: self.settings.repo@,
            target_name: self.settings.target_name@,
            page_size: self.settings.page_size,
            cache_root: self.settings.cache_root@,
            archive_extension: self.settings.archive_extension@,
            validate_cache: self.settings.validate_cache,
            stage: self.stage,
            runs: self.runs@,
            at: self.at as nat,
            fetch: match self.fetch {
                Some(fetch) => Some(fetch@),
                None => None,
            },
            failed: self.failed,
        }
    }
}

impl Pipeline {
    /// Begins the pipeline: the state, and the first request.
    pub fn begin(settings: Settings) -> (r: (Pipeline, Request))
        ensures
            r.0@ == pipeline_start(settings),
            r.1@ == pipeline_first_request(r.0@),
    {
        let request = Request::ListRuns {
            owner: settings.owner.clone(),
            repo: settings.repo.clone(),
            page_size: settings.page_size,
        };
        (
            Pipeline {
                settings,
                stage: Stage::Listing,
                runs: Vec::new(),
                at: 0,
                fetch: None,
                failed: false,
            },
            request,
        )
    }

    /// What the pipeline is waiting for.
    pub fn stage(&self) -> (stage: Stage)
        ensures
            stage == self@.stage,
    {
        self.stage
    }

    /// The lookup of the run at hand, while there is one: a `Store`
    /// request writes its payload.
    pub fn lookup(&self) -> (r: Option<&ArchiveFetch>)
        ensures
            match r {
                Some(fetch) => self@.fetch == Some(fetch@),
                None => self@.fetch is None,
            },
    {
        self.fetch.as_ref()
    }

    /// Stops before the runs are done.
    fn stop(self, failed: bool) -> (r: (Pipeline, Request))
        ensures
            (r.0@, r.1@) == halt(self@, failed),
    {
        let parting: Option<CacheRequest> = match self.fetch {
            Some(fetch) => fetch.abandon(),
            None => None,
        };
        let (stage, request): (Stage, Request) = match parting {
            Some(release) => (Stage::Stopping, Request::Cache(release)),
            None => (Stage::Flushing, Request::Flush),
        };
        (
            Pipeline {
                settings: self.settings,
                stage,
                runs: self.runs,
                at: self.at,
                fetch: None,
                failed,
            },
            request,
        )
    }

    fn give_up(self) -> (r: (Pipeline, Request))
        ensures
            (r.0@, r.1@) == abort(self@),
    {
        self.stop(true)
    }

    /// Passes on to the flush, behind the last run.
    fn wind_up(self) -> (r: (Pipeline, Request))
        ensures
            r.0@ == (PipelineView { stage: Stage::Flushing, fetch: None, ..self@ }),
            r.1@ == RequestModel::Flush,
    {
        (
            Pipeline {
                settings: self.settings,
                stage: Stage::Flushing,
                runs: self.runs,
                at: self.at,
                fetch: None,
                failed: self.failed,
            },
            Request::Flush,
        )
    }

    /// Turns to run `at`.
    fn turn(self, at: usize) -> (r: (Pipeline, Request))
        ensures
            (r.0@, r.1@) == turn_to(self@, at as nat),
    {
        if at < self.runs.len() {
            let mut spans: Vec<SpanNode> = Vec::new();
            spans.push(SpanTreeBuilder::open_run(&self.runs[at]));
            let trace = RunTrace { spans, notices: Vec::new() };
            proof {
                assert(trace@.spans =~= opening_trace(self.runs[at as int]).spans);
                assert(trace@.notices =~= opening_trace(self.runs[at as int]).notices);
            }
            (
                Pipeline {
                    settings: self.settings,
                    stage: Stage::Opening,
                    runs: self.runs,
                    at,
                    fetch: None,
                    failed: self.failed,
                },
                Request::Emit { trace, from: 0 },
            )
        } else {
            self.wind_up()
        }
    }

    /// Begins the lookup of the archive of the run at hand.
    fn seek(self) -> (r: (Pipeline, Request))
        requires
            self@.at < self@.runs.len(),
        ensures
            (r.0@, r.1@) == look_up(self@),
    {
        let cache = ArchiveCache {
            root: self.settings.cache_root.clone(),
            extension: self.settings.archive_extension.clone(),
            validate: self.settings.validate_cache,
        };
        let key = CacheKey::for_run(
            self.settings.owner.as_str(),
            self.settings.repo.as_str(),
            &self.runs[self.at],
        );
        let (fetch, asked) = ArchiveFetch::begin(&cache, key);
        (
            Pipeline {
                settings: self.settings,
                stage: Stage::Fetching,
                runs: self.runs,
                at: self.at,
                fetch: Some(fetch),
                failed: self.failed,
            },
            Request::Cache(asked),
        )
    }

    /// Takes the reply to the last request and gives the next request.
    pub fn advance(self, reply: Reply) -> (r: (Pipeline, Request))
        ensures
            (r.0@, r.1@) == pipeline_next(self@, reply@),
    {
        match self.stage {
            Stage::Listing => match reply {
                Reply::Listed(listed) => {
                    let selector = RunSelector::new(self.settings.target_name.clone());
                    let runs = selector.select(&listed);
                    let listed_state = Pipeline {
                        settings: self.settings,
                        stage: self.stage,
                        runs,
                        at: self.at,
                        fetch: self.fetch,
                        failed: self.failed,
                    };
                    listed_state.turn(0)
                },
                Reply::Cancelled => {
                    let failed: bool = self.failed;
                    self.stop(failed)
                },
                _ => self.give_up(),
            },
            Stage::Opening => match reply {
                Reply::Emitted => {
                    if self.at < self.runs.len() {
                        self.seek()
                    } else {
                        self.give_up()
                    }
                },
                Reply::Cancelled => {
                    let failed: bool = self.failed;
                    self.stop(failed)
                },
                _ => self.give_up(),
            },
            Stage::Fetching => {
                let known: bool = self.at < self.runs.len();
                match (self.fetch, reply) {
                    (Some(fetch), Reply::Cache(answer)) => {
                        if !known {
                            let astray = Pipeline {
                                settings: self.settings,
                                stage: self.stage,
                                runs: self.runs,
                                at: self.at,
                                fetch: Some(fetch),
                                failed: self.failed,
                            };
                            return astray.stop(true);
                        }
                        let (then, step) = fetch.advance(answer);
                        match step {
                            Step::Ask(asked) => (
                                Pipeline {
                                    settings: self.settings,
                                    stage: Stage::Fetching,
                                    runs: self.runs,
                                    at: self.at,
                                    fetch: Some(then),
                                    failed: self.failed,
                                },
                                Request::Cache(asked),
                            ),
                            Step::Done(outcome) => {
                                let trace = SpanTreeBuilder::process_run(&self.runs[self.at], outcome);
                                (
                                    Pipeline {
                                        settings: self.settings,
                                        stage: Stage::Emitting,
                                        runs: self.runs,
                                        at: self.at,
                                        fetch: None,
                                        failed: self.failed,
                                    },
                                    Request::Emit { trace, from: 1 },
                                )
                            },
                        }
                    },
                    (fetch, reply) => {
                        let failed: bool = match reply {
                            Reply::Cancelled => self.failed,
                            _ => true,
                        };
                        let broken_off = Pipeline {
                            settings: self.settings,
                            stage: self.stage,
                            runs: self.runs,
                            at: self.at,
                            fetch,
                            failed: self.failed,
                        };
                        broken_off.stop(failed)
                    },
                }
            },
            Stage::Emitting => match reply {
                Reply::Emitted => {
                    if self.at < usize::MAX {
                        let at: usize = self.at + 1;
                        self.turn(at)
                    } else {
                        let count: usize = self.runs.len();
                        assert(self@.at + 1 > count);
                        self.wind_up()
                    }
                },
                Reply::Cancelled => {
                    let failed: bool = self.failed;
                    self.stop(failed)
                },
                _ => self.give_up(),
            },
            Stage::Stopping => (
                Pipeline {
                    settings: self.settings,
                    stage: Stage::Flushing,
                    runs: self.runs,
                    at: self.at,
                    fetch: self.fetch,
                    failed: self.failed,
                },
                Request::Flush,
            ),
            Stage::Flushing => {
                let flushed: bool = match reply {
                    Reply::Flushed => true,
                    _ => false,
                };
                let failed: bool = self.failed || !flushed;
                (
                    Pipeline {
                        settings: self.settings,
                        stage: Stage::Over,
                        runs: self.runs,
                        at: self.at,
                        fetch: self.fetch,
                        failed: self.failed,
                    },
                    Request::Exit { failed },
                )
            },
            Stage::Over => (self, Request::Exit { failed: true }),
        }
    }
}


/// What holds of every state that the pipeline comes to: the runs it holds
/// are eligible, the run at hand is one of them, and a lookup is under
/// way exactly while the pipeline is fetching, for the archive of the run
/// at hand.
pub open spec fn pipeline_wf(s: PipelineView) -> bool {
    &&& forall|i: int| 0 <= i < s.runs.len() ==> eligible(#[trigger] s.runs[i], s.target_name)
    &&& s.stage is Opening || s.stage is Fetching || s.stage is Emitting ==> s.at < s.runs.len()
    &&& s.stage is Listing ==> s.runs.len() == 0 && !s.failed
    &&& match s.fetch {
        Some(fetch) => {
            &&& s.stage is Fetching
            &&& fetch.key == key_at(s, s.at)
            &&& fetch.path == archive_path(s.cache_root, fetch.key, s.archive_extension)
        },
        None => !(s.stage is Fetching),
    }
}

/// The pipeline begins well.
pub proof fn lemma_pipeline_begins_well(settings: Settings)
    ensures
        pipeline_wf(pipeline_start(settings)),
{
}

/// No reply leads the pipeline astray.
pub proof fn lemma_pipeline_stays_well(s: PipelineView, reply: ReplyModel)
    requires
        pipeline_wf(s),
    ensures
        pipeline_wf(pipeline_next(s, reply).0),
{
    if let ReplyModel::Listed(listed) = reply {
        let kept = eligible_runs(listed, s.target_name);
        assert forall|i: int| 0 <= i < kept.len() implies eligible(
            #[trigger] kept[i],
            s.target_name,
        ) by {
            listed.lemma_filter_pred(|run: Run| eligible(run, s.target_name), i);
        }
    }
}

/// The pipeline never ends without having had the sink flushed: the end
/// is asked for only in reply to the flush, and the flush is asked for in
/// every state from which nothing else follows.
pub proof fn lemma_exit_follows_flush(s: PipelineView, reply: ReplyModel)
    ensures
        pipeline_next(s, reply).1 is Exit <==> s.stage is Flushing || s.stage is Over,
        pipeline_next(s, reply).0.stage is Over <==> s.stage is Flushing || s.stage is Over,
        pipeline_next(s, reply).1 is Flush <==> pipeline_next(s, reply).0.stage is Flushing,
        s.stage is Flushing ==> pipeline_next(s, reply).1 == (RequestModel::Exit {
            failed: s.failed || !(reply is Flushed),
        }),
{
}

/// A listing that fails is the end of the pipeline: the sink is flushed,
/// no run is read, and the end is an error.
pub proof fn lemma_failed_listing_is_fatal(s: PipelineView)
    requires
        pipeline_wf(s),
        s.stage is Listing,
    ensures
        pipeline_next(s, ReplyModel::ListFailed) == abort(s),
        abort(s).1 is Flush,
        abort(s).0.failed,
        pipeline_next(abort(s).0, ReplyModel::Flushed).1 == (RequestModel::Exit { failed: true }),
{
}

/// The span of a run is with the sink before the archive of the run is
/// looked up: turning to a run hands out its span, and the lookup begins
/// when the sink has it.
pub proof fn lemma_run_span_comes_first(s: PipelineView, at: nat)
    requires
        pipeline_wf(s),
        at < s.runs.len(),
    ensures
        ({
            let (opening, request) = turn_to(s, at);
            &&& opening.stage is Opening
            &&& request == (RequestModel::Emit { trace: opening_trace(s.runs[at as int]), from: 0 })
            &&& pipeline_next(opening, ReplyModel::Emitted) == look_up(opening)
            &&& look_up(opening).0.stage is Fetching
            &&& look_up(opening).1 is Cache
        }),
{
}

/// No lookup ends the pipeline, whatever comes of it. While the pipeline
/// is fetching, every reply of the cache leads to the next request of the
/// lookup or, when the lookup is over, to the whole trace of the run at
/// hand, of which the span of the run is with the sink already. Once the
/// rest is with the sink too, the next run follows.
pub proof fn lemma_lookup_failures_stay_with_their_run(s: PipelineView, answer: ReplyView)
    requires
        pipeline_wf(s),
        s.stage is Fetching,
    ensures
        ({
            let (then, request) = pipeline_next(s, ReplyModel::Cache(answer));
            &&& then.failed == s.failed
            &&& then.at == s.at
            &&& then.runs == s.runs
            &&& match request {
                RequestModel::Cache(_) => then.stage is Fetching,
                RequestModel::Emit { trace, from } => {
                    &&& then.stage is Emitting
                    &&& from == 1
                    &&& trace.spans.len() >= 1
                    &&& trace.spans[0] == run_span(s.runs[s.at as int])
                    &&& pipeline_next(then, ReplyModel::Emitted) == turn_to(then, s.at + 1)
                },
                _ => false,
            }
        }),
{
}

/// A pipeline that is cancelled begins no further run and is no failure
/// for that. Where a lookup holds a claim, the claim is given up; then,
/// or at once, the sink is flushed, and the end follows the flush.
pub proof fn lemma_cancelled_pipeline_winds_down(s: PipelineView, reply: ReplyModel)
    requires
        pipeline_wf(s),
        s.stage is Listing || s.stage is Opening || s.stage is Fetching || s.stage is Emitting,
    ensures
        ({
            let (then, request) = pipeline_next(s, ReplyModel::Cancelled);
            &&& then.failed == s.failed
            &&& then.fetch is None
            &&& match request {
                RequestModel::Flush => then.stage is Flushing,
                RequestModel::Cache(RequestView::Release { path }) => {
                    &&& then.stage is Stopping
                    &&& s.fetch matches Some(fetch) && path == fetch.path
                    &&& pipeline_next(then, reply).1 is Flush
                    &&& pipeline_next(then, reply).0.failed == s.failed
                },
                _ => false,
            }
        }),
{
}

} // verus!
