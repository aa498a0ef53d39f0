//! The course of a whole pipeline among surroundings that do what they are
//! asked: every eligible run of the listing is traced once, in the order
//! of the listing, its own span first and the rest when its archive was
//! looked up, whatever became of the lookup; then the sink is flushed
//! once, and the pipeline ends without an error.

use vstd::prelude::*;
use crate::fetch::{claim_held, Phase};
use crate::pipeline::{opening_trace, pipeline_first_request, pipeline_next, pipeline_start, pipeline_wf, PipelineView, ReplyModel, RequestModel, Settings, Stage};
use crate::protocol::{request_of, serve, World};
use crate::run::{eligible_runs, Run};
use crate::span::{run_span, TraceView};

verus! {

/// What the sink was handed at one time: the spans of `trace` from the
/// place `from` on.
pub struct Emission {
    pub trace: TraceView,
    pub from: usize,
}

/// The surroundings of a pipeline.
pub struct Scene {
    /// The disk, the claims and the downloads.
    pub world: World,
    /// What the provider lists; `None` where the listing fails.
    pub listing: Option<Seq<Run>>,
    /// What the sink was handed, in its order.
    pub emitted: Seq<Emission>,
    /// How often the sink was flushed.
    pub flushes: nat,
}

/// The bytes that a `Store` request of the pipeline writes.
pub open spec fn payload_of(s: PipelineView) -> Seq<u8> {
    match s.fetch {
        Some(fetch) => fetch.payload,
        None => Seq::empty(),
    }
}

/// What the surroundings do on a request of the pipeline, and what they
/// reply.
pub open spec fn attend(
    scene: Scene,
    provider: spec_fn(Seq<char>, Seq<char>, u64) -> Option<Seq<u8>>,
    payload: Seq<u8>,
    request: RequestModel,
) -> (Scene, ReplyModel) {
    match request {
        RequestModel::ListRuns { .. } => (
            scene,
            match scene.listing {
                Some(runs) => ReplyModel::Listed(runs),
                None => ReplyModel::ListFailed,
            },
        ),
        RequestModel::Cache(asked) => {
            let (world, reply) = serve(scene.world, provider, payload, asked);
            (Scene { world, ..scene }, ReplyModel::Cache(reply))
        },
        RequestModel::Emit { trace, from } => (
            Scene { emitted: scene.emitted.push(Emission { trace, from }), ..scene },
            ReplyModel::Emitted,
        ),
        RequestModel::Flush => (Scene { flushes: scene.flushes + 1, ..scene }, ReplyModel::Flushed),
        RequestModel::Exit { .. } => (scene, ReplyModel::Flushed),
    }
}

/// A pipeline driven for at most `fuel` requests: the surroundings that it
/// leaves, and whether it ended with an error; `None` while it has not
/// ended.
pub open spec fn conduct(
    scene: Scene,
    provider: spec_fn(Seq<char>, Seq<char>, u64) -> Option<Seq<u8>>,
    s: PipelineView,
    request: RequestModel,
    fuel: nat,
) -> (Scene, Option<bool>)
    decreases fuel,
{
    match request {
        RequestModel::Exit { failed } => (scene, Some(failed)),
        _ => if fuel == 0 {
            (scene, None)
        } else {
            let (after, reply) = attend(scene, provider, payload_of(s), request);
            let (then, asked) = pipeline_next(s, reply);
            conduct(after, provider, then, asked, (fuel - 1) as nat)
        },
    }
}

/// The requests that a lookup makes at most from its phase on.
pub open spec fn lookup_cost(phase: Phase) -> nat {
    match phase {
        Phase::Acquiring => 6,
        Phase::Probing => 5,
        Phase::Loading => 4,
        Phase::Downloading => 3,
        Phase::Storing => 2,
        Phase::Releasing => 1,
        Phase::Done => 0,
    }
}

/// The requests that a pipeline makes at most from `s` on, where no
/// lookup has to wait for its claim: eight for each run, and the flush.
pub open spec fn cost(s: PipelineView) -> nat {
    let behind = (s.runs.len() - s.at - 1) as nat;
    match s.stage {
        Stage::Opening => 8 + 8 * behind + 1,
        Stage::Fetching => match s.fetch {
            Some(fetch) => lookup_cost(fetch.phase) + 1 + 8 * behind + 1,
            None => 0,
        },
        Stage::Emitting => 1 + 8 * behind + 1,
        Stage::Flushing => 1,
        _ => 0,
    }
}

/// Whether the span of the run at hand is with the sink already.
pub open spec fn opened(s: PipelineView) -> nat {
    match s.stage {
        Stage::Fetching => 1,
        Stage::Emitting => 1,
        _ => 0,
    }
}

/// How often the sink is still to be handed something in `s`: twice for
/// each run, less the span of the run at hand where the sink has it.
pub open spec fn remaining(s: PipelineView) -> nat {
    match s.stage {
        Stage::Opening => (2 * (s.runs.len() - s.at)) as nat,
        Stage::Fetching => (2 * (s.runs.len() - s.at) - 1) as nat,
        Stage::Emitting => (2 * (s.runs.len() - s.at) - 1) as nat,
        _ => 0,
    }
}

/// What the sink is handed as number `j` of the runs from `at` on, counted
/// from 0: for the even numbers the span of a run alone, for the odd
/// numbers the whole trace of the same run, from behind that span on.
pub open spec fn as_due(emission: Emission, runs: Seq<Run>, at: nat, j: int) -> bool {
    let run = runs[at + j / 2];
    &&& emission.from == j % 2
    &&& emission.trace.spans.len() >= 1
    &&& emission.trace.spans[0] == run_span(run)
    &&& j % 2 == 0 ==> emission.trace == opening_trace(run)
}

/// `request` is what the pipeline has asked in `s`, and the claims of the
/// world are those of the lookup under way.
pub open spec fn on_course(scene: Scene, s: PipelineView, request: RequestModel) -> bool {
    &&& pipeline_wf(s)
    &&& s.runs.len() <= usize::MAX
    &&& match s.stage {
        Stage::Opening => {
            &&& request == (RequestModel::Emit {
                trace: opening_trace(s.runs[s.at as int]),
                from: 0,
            })
            &&& forall|p: Seq<char>| !scene.world.claims.contains(p)
        },
        Stage::Fetching => s.fetch matches Some(fetch) && {
            &&& request_of(fetch) == Some(request->Cache_0)
            &&& request is Cache
            &&& !(fetch.phase is Done)
            &&& forall|p: Seq<char>|
                scene.world.claims.contains(p) <==> claim_held(fetch) && p == fetch.path
        },
        Stage::Emitting => {
            &&& request matches RequestModel::Emit { trace, from } && from == 1
                && trace.spans.len() >= 1 && trace.spans[0] == run_span(s.runs[s.at as int])
            &&& forall|p: Seq<char>| !scene.world.claims.contains(p)
        },
        Stage::Flushing => {
            &&& request is Flush
            &&& forall|p: Seq<char>| !scene.world.claims.contains(p)
        },
        _ => false,
    }
}

/// From any state on its course the pipeline traces the runs that remain,
/// one after the other, flushes the sink and ends.
proof fn lemma_rest_of_course(
    scene: Scene,
    provider: spec_fn(Seq<char>, Seq<char>, u64) -> Option<Seq<u8>>,
    s: PipelineView,
    request: RequestModel,
    fuel: nat,
)
    requires
        on_course(scene, s, request),
        fuel >= cost(s),
    ensures
        ({
            let (end, exit) = conduct(scene, provider, s, request, fuel);
            &&& exit == Some(s.failed)
            &&& end.flushes == scene.flushes + 1
            &&& end.emitted.len() == scene.emitted.len() + remaining(s)
            &&& forall|j: int| 0 <= j < scene.emitted.len() ==> end.emitted[j] == scene.emitted[j]
            &&& forall|k: int|
                0 <= k < remaining(s) ==> as_due(
                    #[trigger] end.emitted[scene.emitted.len() + k],
                    s.runs,
                    s.at,
                    k + opened(s),
                )
            &&& forall|p: Seq<char>| !end.world.claims.contains(p)
        }),
    decreases cost(s),
{
    let (after, reply) = attend(scene, provider, payload_of(s), request);
    let (then, asked) = pipeline_next(s, reply);
    let (end, exit) = conduct(scene, provider, s, request, fuel);
    let base = scene.emitted.len() as int;
    assert((end, exit) == conduct(after, provider, then, asked, (fuel - 1) as nat));
    match s.stage {
        Stage::Flushing => {
            assert(asked == RequestModel::Exit { failed: s.failed });
            assert(conduct(after, provider, then, asked, (fuel - 1) as nat) == (
                after,
                Some(s.failed),
            ));
        },
        Stage::Opening => {
            crate::pipeline::lemma_pipeline_stays_well(s, reply);
            assert(on_course(after, then, asked));
            lemma_rest_of_course(after, provider, then, asked, (fuel - 1) as nat);
            assert(after.emitted[base] == Emission {
                trace: opening_trace(s.runs[s.at as int]),
                from: 0,
            });
            assert forall|k: int| 0 <= k < remaining(s) implies as_due(
                #[trigger] end.emitted[base + k],
                s.runs,
                s.at,
                k + opened(s),
            ) by {
                if k == 0 {
                    assert(end.emitted[base] == after.emitted[base]);
                } else {
                    assert(as_due(
                        end.emitted[after.emitted.len() + (k - 1)],
                        then.runs,
                        then.at,
                        (k - 1) + opened(then),
                    ));
                }
            }
        },
        Stage::Emitting => {
            crate::pipeline::lemma_pipeline_stays_well(s, reply);
            assert(on_course(after, then, asked));
            assert(cost(then) < cost(s));
            lemma_rest_of_course(after, provider, then, asked, (fuel - 1) as nat);
            assert(after.emitted[base] == Emission {
                trace: request->Emit_trace,
                from: request->Emit_from,
            });
            assert forall|k: int| 0 <= k < remaining(s) implies as_due(
                #[trigger] end.emitted[base + k],
                s.runs,
                s.at,
                k + opened(s),
            ) by {
                if k == 0 {
                    assert(end.emitted[base] == after.emitted[base]);
                } else {
                    assert(as_due(
                        end.emitted[after.emitted.len() + (k - 1)],
                        then.runs,
                        then.at,
                        (k - 1) + opened(then),
                    ));
                    assert((k + 1) / 2 == (k - 1) / 2 + 1);
                    assert((k + 1) % 2 == (k - 1) % 2);
                }
            }
        },
        Stage::Fetching => {
            crate::pipeline::lemma_pipeline_stays_well(s, reply);
            assert(on_course(after, then, asked));
            assert(cost(then) < cost(s));
            lemma_rest_of_course(after, provider, then, asked, (fuel - 1) as nat);
        },
        _ => {},
    }
}

/// Among surroundings that list the runs and hold no claim, the pipeline
/// ends without an error after it has handed the sink, for each eligible
/// run in the order of the listing, first the span of the run and then,
/// below that span, what the archive of the run gave; and after it has
/// had the sink flushed once. No failure of a download, a disk or an
/// archive changes that.
pub proof fn lemma_every_eligible_run_is_traced(
    scene: Scene,
    provider: spec_fn(Seq<char>, Seq<char>, u64) -> Option<Seq<u8>>,
    settings: Settings,
    listed: Seq<Run>,
    fuel: nat,
)
    requires
        scene.listing == Some(listed),
        listed.len() <= usize::MAX,
        forall|p: Seq<char>| !scene.world.claims.contains(p),
        fuel >= 2 + 8 * eligible_runs(listed, settings.target_name@).len(),
    ensures
        ({
            let begun = pipeline_start(settings);
            let kept = eligible_runs(listed, settings.target_name@);
            let base = scene.emitted.len();
            let (end, exit) = conduct(scene, provider, begun, pipeline_first_request(begun), fuel);
            &&& exit == Some(false)
            &&& end.flushes == scene.flushes + 1
            &&& end.emitted.len() == base + 2 * kept.len()
            &&& forall|j: int| 0 <= j < base ==> end.emitted[j] == scene.emitted[j]
            &&& forall|i: int|
                0 <= i < kept.len() ==> {
                    &&& (#[trigger] end.emitted[base + 2 * i]) == (Emission {
                        trace: opening_trace(kept[i]),
                        from: 0,
                    })
                    &&& end.emitted[base + 2 * i + 1].from == 1
                    &&& end.emitted[base + 2 * i + 1].trace.spans.len() >= 1
                    &&& end.emitted[base + 2 * i + 1].trace.spans[0] == run_span(kept[i])
                }
            &&& forall|p: Seq<char>| !end.world.claims.contains(p)
        }),
{
    let begun = pipeline_start(settings);
    let request = pipeline_first_request(begun);
    let kept = eligible_runs(listed, settings.target_name@);
    let base = scene.emitted.len() as int;
    listed.lemma_filter_len(|run: Run| crate::run::eligible(run, settings.target_name@));
    let (after, reply) = attend(scene, provider, payload_of(begun), request);
    let (then, asked) = pipeline_next(begun, reply);
    crate::pipeline::lemma_pipeline_begins_well(settings);
    crate::pipeline::lemma_pipeline_stays_well(begun, reply);
    assert(conduct(scene, provider, begun, request, fuel) == conduct(
        after,
        provider,
        then,
        asked,
        (fuel - 1) as nat,
    ));
    assert(then.runs == kept);
    assert(on_course(after, then, asked));
    lemma_rest_of_course(after, provider, then, asked, (fuel - 1) as nat);
    let (end, exit) = conduct(after, provider, then, asked, (fuel - 1) as nat);
    assert forall|i: int| 0 <= i < kept.len() implies {
        &&& (#[trigger] end.emitted[base + 2 * i]) == (Emission {
            trace: opening_trace(kept[i]),
            from: 0,
        })
        &&& end.emitted[base + 2 * i + 1].from == 1
        &&& end.emitted[base + 2 * i + 1].trace.spans.len() >= 1
        &&& end.emitted[base + 2 * i + 1].trace.spans[0] == run_span(kept[i])
    } by {
        assert(as_due(end.emitted[base + 2 * i], kept, 0, 2 * i));
        assert(as_due(end.emitted[base + (2 * i + 1)], kept, 0, 2 * i + 1));
        assert((2 * i) / 2 == i && (2 * i) % 2 == 0);
        assert((2 * i + 1) / 2 == i && (2 * i + 1) % 2 == 1);
    }
}

} // verus!
