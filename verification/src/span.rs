//! The span tree of a run: one span for the run, from its metadata, and
//! below it one span for each log of its archive that has an interval.
//!
//! Every span is made with both of its ends known, so a plan of spans can
//! be handed to a trace sink in one go, parents before children.

use vstd::prelude::*;
use vstd::string::StringExecFns;
use crate::archive::{zip_directory, ArchiveHandle, FileModel, LogArchiveReader, LogEntry};
use crate::decimal::{decimal, to_decimal};
use crate::fetch::{Failure, Fault, FetchError};
use crate::interval::{interval_of, LogIntervalParser, TimeInterval};
use crate::run::Run;
use crate::timestamp::Timestamp;

verus! {

/// A span that is still to be handed to the sink.
#[derive(Debug, PartialEq, Eq)]
pub struct SpanNode {
    pub name: String,
    pub interval: TimeInterval,
    /// The place of the parent in the plan that holds this span; `None`
    /// for a span that hangs below the context that the plan is made for.
    pub parent: Option<usize>,
}

/// What a span is, apart from how its name is stored.
pub struct SpanView {
    pub name: Seq<char>,
    pub interval: TimeInterval,
    pub parent: Option<usize>,
}

impl View for SpanNode {
    type V = SpanView;

    open spec fn view(&self) -> SpanView {
        SpanView { name: self.name@, interval: self.interval, parent: self.parent }
    }
}

/// Something that went wrong without ending the work, to be logged.
#[derive(Debug, PartialEq, Eq)]
pub enum Notice {
    /// The archive of the run could not be had.
    ArchiveUnavailable { failure: Failure, reason: String },
    /// What was had is no archive.
    ArchiveRejected { reason: String },
    /// The file at `index` of the archive could not be read.
    EntryUnreadable { index: usize, reason: String },
    /// The log `name` has no interval: it is too short, or one of its edge
    /// lines does not begin with a timestamp.
    EntrySkipped { name: String },
}

/// A notice without the words that an archive was rejected with, which
/// are for people.
pub enum NoticeView {
    ArchiveUnavailable { failure: Failure, reason: Seq<char> },
    ArchiveRejected,
    EntryUnreadable { index: usize },
    EntrySkipped { name: Seq<char> },
}

impl View for Notice {
    type V = NoticeView;

    open spec fn view(&self) -> NoticeView {
        match self {
            Notice::ArchiveUnavailable { failure, reason } => NoticeView::ArchiveUnavailable {
                failure: *failure,
                reason: reason@,
            },
            Notice::ArchiveRejected { .. } => NoticeView::ArchiveRejected,
            Notice::EntryUnreadable { index, .. } => NoticeView::EntryUnreadable { index: *index },
            Notice::EntrySkipped { name } => NoticeView::EntrySkipped { name: name@ },
        }
    }
}

/// The spans of one run, parents before children, and what there is to
/// log about it.
#[derive(Debug, PartialEq, Eq)]
pub struct RunTrace {
    pub spans: Vec<SpanNode>,
    pub notices: Vec<Notice>,
}

pub struct TraceView {
    pub spans: Seq<SpanView>,
    pub notices: Seq<NoticeView>,
}

pub open spec fn span_views(spans: Seq<SpanNode>) -> Seq<SpanView> {
    spans.map_values(|s: SpanNode| s@)
}

pub open spec fn notice_views(notices: Seq<Notice>) -> Seq<NoticeView> {
    notices.map_values(|n: Notice| n@)
}

impl View for RunTrace {
    type V = TraceView;

    open spec fn view(&self) -> TraceView {
        TraceView { spans: span_views(self.spans@), notices: notice_views(self.notices@) }
    }
}

/// Every parent stands before its children.
pub open spec fn parents_first(spans: Seq<SpanView>) -> bool {
    forall|i: int|
        0 <= i < spans.len() ==> match (#[trigger] spans[i]).parent {
            Some(p) => p < i,
            None => true,
        }
}

/// The span of a run: named by the run's number, from the time the run was
/// created to the time it was last updated, below the caller's context.
/// The logs have no part in it.
pub open spec fn run_span(run: Run) -> SpanView {
    SpanView {
        name: decimal(run.id as nat),
        interval: TimeInterval { start: run.created_at, end: run.updated_at },
        parent: None,
    }
}

/// The span of a log below the span at `parent`: named after the log, over
/// the interval of its text. `None` where the text has no interval.
pub open spec fn log_span(name: Seq<char>, text: Seq<u8>, parent: usize) -> Option<SpanView> {
    match interval_of(text) {
        Some(interval) => Some(SpanView { name, interval, parent: Some(parent) }),
        None => None,
    }
}

/// The span that a file of an archive gives, `None` where it gives none:
/// where it cannot be read, or has no interval.
pub open spec fn file_span(file: FileModel, parent: usize) -> Option<SpanView> {
    match file {
        Some((name, text)) => log_span(name, text, parent),
        None => None,
    }
}

/// The notice that file `index` of an archive gives, `None` where it gives
/// a span.
pub open spec fn file_notice(file: FileModel, index: usize) -> Option<NoticeView> {
    match file {
        Some((name, text)) => if interval_of(text) is None {
            Some(NoticeView::EntrySkipped { name })
        } else {
            None
        },
        None => Some(NoticeView::EntryUnreadable { index }),
    }
}

/// The spans of the files of an archive, in the order of the files.
pub open spec fn file_spans(files: Seq<FileModel>, parent: usize) -> Seq<SpanView>
    decreases files.len(),
{
    if files.len() == 0 {
        Seq::empty()
    } else {
        let before = file_spans(files.drop_last(), parent);
        match file_span(files.last(), parent) {
            Some(span) => before.push(span),
            None => before,
        }
    }
}

/// The notices of the files of an archive, in the order of the files.
pub open spec fn file_notices(files: Seq<FileModel>) -> Seq<NoticeView>
    decreases files.len(),
{
    if files.len() == 0 {
        Seq::empty()
    } else {
        let before = file_notices(files.drop_last());
        match file_notice(files.last(), (files.len() - 1) as usize) {
            Some(notice) => before.push(notice),
            None => before,
        }
    }
}

/// What the archive of a run gives, where it was fetched as `fetched`: the
/// bytes, or the failure of the lookup.
///
/// Where the archive was not had, or is none, that is noted and there are
/// no spans. Else every file gives a span below the span at `parent`, or a
/// notice.
pub open spec fn archive_trace(fetched: Result<Seq<u8>, Fault>, parent: usize) -> TraceView {
    match fetched {
        Err(fault) => TraceView {
            spans: Seq::empty(),
            notices: seq![
                NoticeView::ArchiveUnavailable { failure: fault.failure, reason: fault.reason },
            ],
        },
        Ok(bytes) => match zip_directory(bytes) {
            None => TraceView { spans: Seq::empty(), notices: seq![NoticeView::ArchiveRejected] },
            Some(files) => TraceView {
                spans: file_spans(files, parent),
                notices: file_notices(files),
            },
        },
    }
}

/// The trace of a run: the span of the run first, whatever becomes of its
/// archive, then as its children the spans that the archive gives.
pub open spec fn trace_of(run: Run, fetched: Result<Seq<u8>, Fault>) -> TraceView {
    TraceView {
        spans: seq![run_span(run)] + archive_trace(fetched, 0).spans,
        notices: archive_trace(fetched, 0).notices,
    }
}

/// What was fetched, as plain values.
pub open spec fn fetched_view(fetched: Result<Vec<u8>, FetchError>) -> Result<Seq<u8>, Fault> {
    match fetched {
        Ok(blob) => Ok(blob@),
        Err(error) => Err(error@),
    }
}

/// Builds the span tree of a run.
pub struct SpanTreeBuilder {}

impl SpanTreeBuilder {
    /// The span of `run` itself.
    pub fn open_run(run: &Run) -> (span: SpanNode)
        ensures
            span@ == run_span(*run),
    {
        SpanNode {
            name: to_decimal(run.id),
            interval: TimeInterval { start: run.created_at, end: run.updated_at },
            parent: None,
        }
    }

    /// The span of one log below the span at `parent`, or the notice that
    /// the log is skipped.
    pub fn plan_entry(entry: LogEntry, parent: usize) -> (r: Result<SpanNode, Notice>)
        ensures
            match r {
                Ok(span) => log_span(entry.name@, entry.text@, parent) == Some(span@),
                Err(notice) => log_span(entry.name@, entry.text@, parent) is None && notice@
                    == (NoticeView::EntrySkipped { name: entry.name@ }),
            },
    {
        match LogIntervalParser::parse(entry.text.as_slice()) {
            Some(interval) => Ok(SpanNode { name: entry.name, interval, parent: Some(parent) }),
            None => Err(Notice::EntrySkipped { name: entry.name }),
        }
    }

    /// Adds to `trace` what the files of `archive` give: for each file, in
    /// order, a child of the span at `parent` or a notice. No file ends
    /// the work for those behind it.
    pub fn plan_files(archive: &mut ArchiveHandle, parent: usize, trace: &mut RunTrace)
        ensures
            final(archive).contents() == old(archive).contents(),
            final(trace)@.spans == old(trace)@.spans + file_spans(old(archive).contents(), parent),
            final(trace)@.notices == old(trace)@.notices + file_notices(old(archive).contents()),
    {
        let count: usize = archive.len();
        let ghost files = archive.contents();
        let mut i: usize = 0;
        proof {
            assert(files.take(0) =~= Seq::empty());
            assert(trace@.spans + file_spans(files.take(0), parent) =~= trace@.spans);
            assert(trace@.notices + file_notices(files.take(0)) =~= trace@.notices);
        }
        while i < count
            invariant
                i <= count,
                count == files.len(),
                archive.contents() == files,
                trace@.spans == old(trace)@.spans + file_spans(files.take(i as int), parent),
                trace@.notices == old(trace)@.notices + file_notices(files.take(i as int)),
            decreases count - i,
        {
            let ghost spans_before = trace.spans@;
            let ghost notices_before = trace.notices@;
            proof {
                assert(files.take(i + 1).drop_last() =~= files.take(i as int));
                assert(files.take(i + 1).last() == files[i as int]);
            }
            match archive.entry(i) {
                Ok(entry) => match Self::plan_entry(entry, parent) {
                    Ok(span) => {
                        trace.spans.push(span);
                        proof {
                            assert(span_views(trace.spans@) =~= span_views(spans_before).push(
                                span@,
                            ));
                        }
                    },
                    Err(notice) => {
                        trace.notices.push(notice);
                        proof {
                            assert(notice_views(trace.notices@) =~= notice_views(
                                notices_before,
                            ).push(notice@));
                        }
                    },
                },
                Err(error) => {
                    let notice = Notice::EntryUnreadable { index: i, reason: error.reason };
                    trace.notices.push(notice);
                    proof {
                        assert(notice_views(trace.notices@) =~= notice_views(notices_before).push(
                            notice@,
                        ));
                    }
                },
            }
            proof {
                assert(trace@.spans =~= old(trace)@.spans + file_spans(
                    files.take(i + 1),
                    parent,
                ));
                assert(trace@.notices =~= old(trace)@.notices + file_notices(files.take(i + 1)));
            }
            i = i + 1;
        }
        proof {
            assert(files.take(i as int) =~= files);
        }
    }

    /// Adds to `trace` what the archive of a run gives, where it was
    /// fetched as `fetched`: the children of the span at `parent`, and the
    /// notices.
    pub fn trace_archive(fetched: Result<Vec<u8>, FetchError>, parent: usize, trace: &mut RunTrace)
        ensures
            final(trace)@.spans == old(trace)@.spans + archive_trace(
                fetched_view(fetched),
                parent,
            ).spans,
            final(trace)@.notices == old(trace)@.notices + archive_trace(
                fetched_view(fetched),
                parent,
            ).notices,
    {
        let ghost notices_before = trace.notices@;
        let blob: Vec<u8> = match fetched {
            Ok(blob) => blob,
            Err(error) => {
                let notice = Notice::ArchiveUnavailable {
                    failure: error.failure,
                    reason: error.reason,
                };
                trace.notices.push(notice);
                proof {
                    assert(notice_views(trace.notices@) =~= notice_views(notices_before) + seq![
                        notice@,
                    ]);
                    assert(trace@.spans + Seq::<SpanView>::empty() =~= trace@.spans);
                }
                return ;
            },
        };
        let mut archive: ArchiveHandle = match LogArchiveReader::open(blob) {
            Ok(archive) => archive,
            Err(error) => {
                let notice = Notice::ArchiveRejected { reason: error.reason };
                trace.notices.push(notice);
                proof {
                    assert(notice_views(trace.notices@) =~= notice_views(notices_before) + seq![
                        notice@,
                    ]);
                    assert(trace@.spans + Seq::<SpanView>::empty() =~= trace@.spans);
                }
                return ;
            },
        };
        Self::plan_files(&mut archive, parent, trace);
    }

    /// The trace of `run`, whose archive was fetched as `fetched`.
    pub fn process_run(run: &Run, fetched: Result<Vec<u8>, FetchError>) -> (trace: RunTrace)
        ensures
            trace@ == trace_of(*run, fetched_view(fetched)),
    {
        let mut trace = RunTrace { spans: Vec::new(), notices: Vec::new() };
        let root = Self::open_run(run);
        trace.spans.push(root);
        proof {
            assert(span_views(trace.spans@) =~= seq![run_span(*run)]);
            assert(notice_views(trace.notices@) =~= Seq::empty());
        }
        Self::trace_archive(fetched, 0, &mut trace);
        proof {
            assert(trace@.notices =~= archive_trace(fetched_view(fetched), 0).notices);
        }
        trace
    }
}

/// Every file of an archive gives a span or a notice and never both, and
/// every span that a file gives hangs below `parent`.
pub proof fn lemma_each_file_gives_one(files: Seq<FileModel>, parent: usize)
    ensures
        file_spans(files, parent).len() + file_notices(files).len() == files.len(),
        forall|i: int|
            0 <= i < file_spans(files, parent).len() ==> (#[trigger] file_spans(files, parent)[i]).parent
                == Some(parent),
    decreases files.len(),
{
    if files.len() > 0 {
        lemma_each_file_gives_one(files.drop_last(), parent);
    }
}

/// A file behind the others adds its span or its notice behind theirs, and
/// changes nothing of what they gave: no file ends the work for another.
pub proof fn lemma_files_do_not_interfere(files: Seq<FileModel>, file: FileModel, parent: usize)
    ensures
        file_spans(files.push(file), parent) == match file_span(file, parent) {
            Some(span) => file_spans(files, parent).push(span),
            None => file_spans(files, parent),
        },
        file_notices(files.push(file)) == match file_notice(file, files.len() as usize) {
            Some(notice) => file_notices(files).push(notice),
            None => file_notices(files),
        },
{
    assert(files.push(file).drop_last() =~= files);
}

/// The trace of a run begins with the span of the run, whatever became of
/// its archive, and every other span is a child of that one. Where the
/// archive was read, its files gave one span or one notice each; where it
/// was not, the run has no children and one notice says why.
pub proof fn lemma_trace_shape(run: Run, fetched: Result<Seq<u8>, Fault>)
    ensures
        ({
            let trace = trace_of(run, fetched);
            &&& trace.spans.len() >= 1
            &&& trace.spans[0] == run_span(run)
            &&& forall|i: int|
                1 <= i < trace.spans.len() ==> (#[trigger] trace.spans[i]).parent == Some(0usize)
            &&& parents_first(trace.spans)
            &&& match fetched {
                Ok(bytes) => match zip_directory(bytes) {
                    Some(files) => trace.spans.len() - 1 + trace.notices.len() == files.len(),
                    None => trace.spans.len() == 1 && trace.notices == seq![
                        NoticeView::ArchiveRejected,
                    ],
                },
                Err(fault) => trace.spans.len() == 1 && trace.notices == seq![
                    NoticeView::ArchiveUnavailable { failure: fault.failure, reason: fault.reason },
                ],
            }
        }),
{
    let trace = trace_of(run, fetched);
    if let Ok(bytes) = fetched {
        if let Some(files) = zip_directory(bytes) {
            lemma_each_file_gives_one(files, 0);
            assert(trace.spans.len() == 1 + file_spans(files, 0).len());
            assert forall|i: int| 1 <= i < trace.spans.len() implies (#[trigger] trace.spans[i]).parent
                == Some(0usize) by {
                assert(trace.spans[i] == file_spans(files, 0)[i - 1]);
            }
        }
    }
    assert(trace.spans[0] == run_span(run));
    assert forall|i: int| 0 <= i < trace.spans.len() implies match (#[trigger] trace.spans[i]).parent {
        Some(p) => p < i,
        None => true,
    } by {
        if i >= 1 {
            assert(trace.spans[i].parent == Some(0usize));
        }
    }
}

/// The name of every span of a probe.
pub open spec fn probe_name() -> Seq<char> {
    "recurse"@
}

/// Span `i` of a probe of `depth` spans made at `now`: it ends ten seconds
/// before `now` and lasts one second for itself and for each span below
/// it, and it hangs below the span before it.
pub open spec fn probe_span(depth: usize, i: int, now: Timestamp) -> SpanView {
    SpanView {
        name: probe_name(),
        interval: TimeInterval {
            start: Timestamp { secs: (now.secs - (depth - i) - 10) as i64, nanos: now.nanos },
            end: Timestamp { secs: (now.secs - 10) as i64, nanos: now.nanos },
        },
        parent: if i == 0 {
            None
        } else {
            Some((i - 1) as usize)
        },
    }
}

/// The earliest start of the probe is an instant that `Timestamp` holds.
pub open spec fn probe_fits(depth: usize, now: Timestamp) -> bool {
    depth == 0 || now.secs - depth - 10 >= i64::MIN
}

/// A chain of `depth` spans, each the only child of the one before, to
/// see how a sink draws spans that are handed to it with both ends in the
/// past. `None` where the chain would begin before the earliest instant.
pub fn nested_probe(depth: usize, now: Timestamp) -> (r: Option<Vec<SpanNode>>)
    ensures
        match r {
            Some(spans) => {
                &&& probe_fits(depth, now)
                &&& spans.len() == depth
                &&& forall|i: int| 0 <= i < depth ==> (#[trigger] spans[i])@ == probe_span(depth, i, now)
            },
            None => !probe_fits(depth, now),
        },
{
    let mut spans: Vec<SpanNode> = Vec::new();
    if depth == 0 {
        return Some(spans);
    }
    if depth as u64 > u64::MAX - 10 {
        return None;
    }
    if now.minus_secs(depth as u64 + 10).is_none() {
        return None;
    }
    let end: Timestamp = match now.minus_secs(10) {
        Some(t) => t,
        None => { return None; },
    };
    let mut i: usize = 0;
    while i < depth
        invariant
            i <= depth,
            depth + 10 <= u64::MAX,
            now.secs - depth - 10 >= i64::MIN,
            end == (Timestamp { secs: (now.secs - 10) as i64, nanos: now.nanos }),
            spans.len() == i,
            forall|j: int| 0 <= j < i ==> (#[trigger] spans[j])@ == probe_span(depth, j, now),
        decreases depth - i,
    {
        let start: Timestamp = match now.minus_secs((depth - i) as u64 + 10) {
            Some(t) => t,
            None => { return None; },
        };
        let parent: Option<usize> = if i == 0 {
            None
        } else {
            Some(i - 1)
        };
        spans.push(
            SpanNode {
                name: String::from_str("recurse"),
                interval: TimeInterval { start, end },
                parent,
            },
        );
        i = i + 1;
    }
    Some(spans)
}

/// In a probe every span lies within its parent, and the parents come
/// first.
pub proof fn lemma_probe_nests(depth: usize, now: Timestamp, i: int)
    requires
        probe_fits(depth, now),
        0 < i < depth,
    ensures
        probe_span(depth, i, now).parent == Some((i - 1) as usize),
        probe_span(depth, i, now).interval.within(probe_span(depth, i - 1, now).interval),
        probe_span(depth, i, now).interval.ordered(),
{
}

} // verus!
