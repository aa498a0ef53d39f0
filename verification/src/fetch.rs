//! One lookup of an archive in the cache, as a state machine.
//!
//! The machine claims the place of the archive, so that no second lookup
//! of the same run downloads beside it, then looks whether the archive is
//! there. If it is, it is read. If not, it is downloaded, written beside
//! its place and moved into place. Then the claim is given up, whatever
//! came of the lookup, and the archive or the failure is handed out.

use vstd::prelude::*;
use vstd::string::StringExecFns;
use crate::archive::{zip_directory, LogArchiveReader};
use crate::cache::{archive_path, staging_path, ArchiveCache, CacheKey, KeyView};

verus! {

/// What a lookup is waiting for.
#[derive(Clone, Copy, Debug, PartialEq, Eq, Structural)]
pub enum Phase {
    /// For the claim on the place of the archive.
    Acquiring,
    /// For word whether the archive is in the cache.
    Probing,
    /// For the bytes of the cached archive.
    Loading,
    /// For the bytes from the provider.
    Downloading,
    /// For the downloaded bytes to be in place.
    Storing,
    /// For the claim to be given up.
    Releasing,
    /// For nothing: the lookup is over.
    Done,
}

/// Why a lookup gave no archive.
#[derive(Clone, Copy, Debug, PartialEq, Eq, Structural)]
pub enum Failure {
    /// The provider did not hand out the archive.
    Download,
    /// The cached archive could not be read.
    Load,
    /// The downloaded archive could not be put in place.
    Store,
    /// A reply did not answer what was asked.
    Protocol,
}

/// A failure, with the words of whoever reported it.
#[derive(Debug, PartialEq, Eq)]
pub struct FetchError {
    pub failure: Failure,
    pub reason: String,
}

/// A failure and the words that came with it, as plain values.
pub struct Fault {
    pub failure: Failure,
    pub reason: Seq<char>,
}

impl View for FetchError {
    type V = Fault;

    open spec fn view(&self) -> Fault {
        Fault { failure: self.failure, reason: self.reason@ }
    }
}

/// The words for a reply that does not answer the request.
pub open spec fn out_of_turn() -> Seq<char> {
    "the reply does not answer the request"@
}

/// The failure of the protocol.
pub open spec fn protocol_fault() -> Fault {
    Fault { failure: Failure::Protocol, reason: out_of_turn() }
}

/// What the driver of a lookup is asked to do.
#[derive(Debug, PartialEq, Eq)]
pub enum CacheRequest {
    /// Claim `path` against other lookups, and reply `Acquired`; reply
    /// `Busy` where another lookup holds the claim.
    Acquire { path: String },
    /// Look whether a file lies at `path`: reply `Present` or `Missing`.
    Probe { path: String },
    /// Read the file at `path`: reply `Loaded` with all of its bytes.
    Load { path: String },
    /// Ask the provider for the log archive of the run: reply `Downloaded`
    /// with its bytes.
    Download { owner: String, repo: String, run_id: u64 },
    /// Write the payload of the lookup to `staging`, making the
    /// directories above it where they are missing, and when all of it is
    /// written move the file to `path`: reply `Stored`.
    Store { staging: String, path: String },
    /// Give up the claim on `path`: reply `Released`.
    Release { path: String },
}

pub enum RequestView {
    Acquire { path: Seq<char> },
    Probe { path: Seq<char> },
    Load { path: Seq<char> },
    Download { owner: Seq<char>, repo: Seq<char>, run_id: u64 },
    Store { staging: Seq<char>, path: Seq<char> },
    Release { path: Seq<char> },
}

impl View for CacheRequest {
    type V = RequestView;

    open spec fn view(&self) -> RequestView {
        match self {
            CacheRequest::Acquire { path } => RequestView::Acquire { path: path@ },
            CacheRequest::Probe { path } => RequestView::Probe { path: path@ },
            CacheRequest::Load { path } => RequestView::Load { path: path@ },
            CacheRequest::Download { owner, repo, run_id } => RequestView::Download {
                owner: owner@,
                repo: repo@,
                run_id: *run_id,
            },
            CacheRequest::Store { staging, path } => RequestView::Store {
                staging: staging@,
                path: path@,
            },
            CacheRequest::Release { path } => RequestView::Release { path: path@ },
        }
    }
}

/// What came of a request.
#[derive(Debug, PartialEq, Eq)]
pub enum CacheReply {
    Acquired,
    Busy,
    Present,
    Missing,
    Loaded(Vec<u8>),
    LoadFailed(String),
    Downloaded(Vec<u8>),
    DownloadFailed(String),
    Stored,
    StoreFailed(String),
    Released,
}

pub enum ReplyView {
    Acquired,
    Busy,
    Present,
    Missing,
    Loaded(Seq<u8>),
    LoadFailed(Seq<char>),
    Downloaded(Seq<u8>),
    DownloadFailed(Seq<char>),
    Stored,
    StoreFailed(Seq<char>),
    Released,
}

impl View for CacheReply {
    type V = ReplyView;

    open spec fn view(&self) -> ReplyView {
        match self {
            CacheReply::Acquired => ReplyView::Acquired,
            CacheReply::Busy => ReplyView::Busy,
            CacheReply::Present => ReplyView::Present,
            CacheReply::Missing => ReplyView::Missing,
            CacheReply::Loaded(bytes) => ReplyView::Loaded(bytes@),
            CacheReply::LoadFailed(reason) => ReplyView::LoadFailed(reason@),
            CacheReply::Downloaded(bytes) => ReplyView::Downloaded(bytes@),
            CacheReply::DownloadFailed(reason) => ReplyView::DownloadFailed(reason@),
            CacheReply::Stored => ReplyView::Stored,
            CacheReply::StoreFailed(reason) => ReplyView::StoreFailed(reason@),
            CacheReply::Released => ReplyView::Released,
        }
    }
}

/// How a lookup goes on: with a request, or not at all.
#[derive(Debug, PartialEq, Eq)]
pub enum Step {
    Ask(CacheRequest),
    Done(Result<Vec<u8>, FetchError>),
}

pub enum StepView {
    Ask(RequestView),
    Done(Result<Seq<u8>, Fault>),
}

impl View for Step {
    type V = StepView;

    open spec fn view(&self) -> StepView {
        match self {
            Step::Ask(request) => StepView::Ask(request@),
            Step::Done(Ok(bytes)) => StepView::Done(Ok(bytes@)),
            Step::Done(Err(error)) => StepView::Done(Err(error@)),
        }
    }
}

/// The state of a lookup.
pub struct FetchView {
    pub key: KeyView,
    pub path: Seq<char>,
    pub staging: Seq<char>,
    /// Whether a cached file is trusted only where it is an archive.
    pub validate: bool,
    pub phase: Phase,
    /// The bytes that were read or downloaded; empty before.
    pub payload: Seq<u8>,
    /// The failure that the lookup will end with, once there is one.
    pub failure: Option<Fault>,
}

/// A lookup as it begins: waiting for its claim.
pub open spec fn start(
    root: Seq<char>,
    key: KeyView,
    extension: Seq<char>,
    validate: bool,
) -> FetchView {
    FetchView {
        key,
        path: archive_path(root, key, extension),
        staging: staging_path(root, key, extension),
        validate,
        phase: Phase::Acquiring,
        payload: Seq::empty(),
        failure: None,
    }
}

/// What a lookup asks first.
pub open spec fn first_request(s: FetchView) -> RequestView {
    RequestView::Acquire { path: s.path }
}

/// A lookup that holds the claim and has failed: it gives up the claim.
pub open spec fn give_up(s: FetchView, fault: Fault) -> (FetchView, StepView) {
    (
        FetchView { phase: Phase::Releasing, failure: Some(fault), ..s },
        StepView::Ask(RequestView::Release { path: s.path }),
    )
}

/// What was read from the cache is taken for the archive: always where
/// the lookup does not validate, else where the bytes encode an archive.
pub open spec fn trusted(s: FetchView, bytes: Seq<u8>) -> bool {
    !s.validate || zip_directory(bytes) is Some
}

/// What a lookup asks of the provider.
pub open spec fn download_request(s: FetchView) -> RequestView {
    RequestView::Download { owner: s.key.owner, repo: s.key.repo, run_id: s.key.run_id }
}

/// The state that follows `s` on `reply`, and how the lookup goes on.
///
/// A cached file that is not trusted is treated as missing: the archive is
/// downloaded and takes its place.
///
/// A reply that does not answer the request of the phase is a failure of
/// the protocol. While the claim is not held the lookup then ends at once;
/// later it first gives up the claim.
pub open spec fn next(s: FetchView, reply: ReplyView) -> (FetchView, StepView) {
    match s.phase {
        Phase::Acquiring => match reply {
            ReplyView::Acquired => (
                FetchView { phase: Phase::Probing, ..s },
                StepView::Ask(RequestView::Probe { path: s.path }),
            ),
            ReplyView::Busy => (s, StepView::Ask(RequestView::Acquire { path: s.path })),
            _ => (
                FetchView { phase: Phase::Done, failure: Some(protocol_fault()), ..s },
                StepView::Done(Err(protocol_fault())),
            ),
        },
        Phase::Probing => match reply {
            ReplyView::Present => (
                FetchView { phase: Phase::Loading, ..s },
                StepView::Ask(RequestView::Load { path: s.path }),
            ),
            ReplyView::Missing => (
                FetchView { phase: Phase::Downloading, ..s },
                StepView::Ask(download_request(s)),
            ),
            _ => give_up(s, protocol_fault()),
        },
        Phase::Loading => match reply {
            ReplyView::Loaded(bytes) => if trusted(s, bytes) {
                (
                    FetchView { phase: Phase::Releasing, payload: bytes, ..s },
                    StepView::Ask(RequestView::Release { path: s.path }),
                )
            } else {
                (FetchView { phase: Phase::Downloading, ..s }, StepView::Ask(download_request(s)))
            },
            ReplyView::LoadFailed(reason) => give_up(s, Fault { failure: Failure::Load, reason }),
            _ => give_up(s, protocol_fault()),
        },
        Phase::Downloading => match reply {
            ReplyView::Downloaded(bytes) => (
                FetchView { phase: Phase::Storing, payload: bytes, ..s },
                StepView::Ask(RequestView::Store { staging: s.staging, path: s.path }),
            ),
            ReplyView::DownloadFailed(reason) => give_up(
                s,
                Fault { failure: Failure::Download, reason },
            ),
            _ => give_up(s, protocol_fault()),
        },
        Phase::Storing => match reply {
            ReplyView::Stored => (
                FetchView { phase: Phase::Releasing, ..s },
                StepView::Ask(RequestView::Release { path: s.path }),
            ),
            ReplyView::StoreFailed(reason) => give_up(s, Fault { failure: Failure::Store, reason }),
            _ => give_up(s, protocol_fault()),
        },
        Phase::Releasing => (
            FetchView { phase: Phase::Done, payload: Seq::empty(), ..s },
            StepView::Done(
                match s.failure {
                    Some(failure) => Err(failure),
                    None => Ok(s.payload),
                },
            ),
        ),
        Phase::Done => (s, StepView::Done(Err(protocol_fault()))),
    }
}

/// The lookup holds the claim on its place: it is past `Acquiring` and not
/// over.
pub open spec fn claim_held(s: FetchView) -> bool {
    s.phase != Phase::Acquiring && s.phase != Phase::Done
}

/// What is left to do for a lookup that is broken off: its claim is given
/// up where it holds one.
pub open spec fn parting_request(s: FetchView) -> Option<RequestView> {
    if claim_held(s) {
        Some(RequestView::Release { path: s.path })
    } else {
        None
    }
}

/// One lookup of an archive.
pub struct ArchiveFetch {
    key: CacheKey,
    path: String,
    staging: String,
    validate: bool,
    phase: Phase,
    payload: Vec<u8>,
    failure: Option<FetchError>,
}

impl View for ArchiveFetch {
    type V = FetchView;

    closed spec fn view(&self) -> FetchView {
        FetchView {
            key: self.key@,
            path: self.path@,
            staging: self.staging@,
            validate: self.validate,
            phase: self.phase,
            payload: self.payload@,
            failure: match self.failure {
                Some(error) => Some(error@),
                None => None,
            },
        }
    }
}

impl ArchiveFetch {
    /// Begins the lookup of `key` in `cache`: the state, and the first
    /// request.
    pub fn begin(cache: &ArchiveCache, key: CacheKey) -> (r: (ArchiveFetch, CacheRequest))
        ensures
            r.0@ == start(cache.root@, key@, cache.extension@, cache.validate),
            r.1@ == first_request(r.0@),
    {
        let path: String = cache.path(&key);
        let staging: String = cache.staging(&key);
        let request = CacheRequest::Acquire { path: path.clone() };
        (
            ArchiveFetch {
                key,
                path,
                staging,
                validate: cache.validate,
                phase: Phase::Acquiring,
                payload: Vec::new(),
                failure: None,
            },
            request,
        )
    }

    /// What the lookup is waiting for.
    pub fn phase(&self) -> (p: Phase)
        ensures
            p == self@.phase,
    {
        self.phase
    }

    /// The bytes that were read or downloaded: what a `Store` request is
    /// to write.
    pub fn payload(&self) -> (bytes: &Vec<u8>)
        ensures
            bytes@ == self@.payload,
    {
        &self.payload
    }

    /// Breaks the lookup off: the request that gives up its claim, where
    /// it holds one.
    pub fn abandon(self) -> (r: Option<CacheRequest>)
        ensures
            match r {
                Some(request) => parting_request(self@) == Some(request@),
                None => parting_request(self@) is None,
            },
    {
        match self.phase {
            Phase::Acquiring => None,
            Phase::Done => None,
            _ => Some(CacheRequest::Release { path: self.path }),
        }
    }

    /// Gives up the claim after `failure`.
    fn fail(self, failure: Failure, reason: String) -> (r: (ArchiveFetch, Step))
        ensures
            (r.0@, r.1@) == give_up(self@, Fault { failure, reason: reason@ }),
    {
        let request = CacheRequest::Release { path: self.path.clone() };
        (
            ArchiveFetch {
                key: self.key,
                path: self.path,
                staging: self.staging,
                validate: self.validate,
                phase: Phase::Releasing,
                payload: self.payload,
                failure: Some(FetchError { failure, reason }),
            },
            Step::Ask(request),
        )
    }

    /// Moves to `phase` with `request`.
    fn ask(self, phase: Phase, request: CacheRequest) -> (r: (ArchiveFetch, Step))
        ensures
            r.0@ == (FetchView { phase, ..self@ }),
            r.1@ == StepView::Ask(request@),
    {
        (
            ArchiveFetch {
                key: self.key,
                path: self.path,
                staging: self.staging,
                validate: self.validate,
                phase,
                payload: self.payload,
                failure: self.failure,
            },
            Step::Ask(request),
        )
    }

    /// Moves to `phase` with `request`, holding `payload`.
    fn hold(self, phase: Phase, payload: Vec<u8>, request: CacheRequest) -> (r: (
        ArchiveFetch,
        Step,
    ))
        ensures
            r.0@ == (FetchView { phase, payload: payload@, ..self@ }),
            r.1@ == StepView::Ask(request@),
    {
        (
            ArchiveFetch {
                key: self.key,
                path: self.path,
                staging: self.staging,
                validate: self.validate,
                phase,
                payload,
                failure: self.failure,
            },
            Step::Ask(request),
        )
    }

    /// The request for the archive of the run.
    fn download(&self) -> (request: CacheRequest)
        ensures
            request@ == download_request(self@),
    {
        CacheRequest::Download {
            owner: self.key.owner.clone(),
            repo: self.key.repo.clone(),
            run_id: self.key.run_id,
        }
    }

    /// The words for a reply that does not answer the request.
    fn unexpected() -> (reason: String)
        ensures
            reason@ == out_of_turn(),
    {
        String::from_str("the reply does not answer the request")
    }

    /// Takes the reply to the last request and says how the lookup goes
    /// on: with the next request, or, when it is over, with the archive or
    /// the failure.
    pub fn advance(self, reply: CacheReply) -> (r: (ArchiveFetch, Step))
        ensures
            (r.0@, r.1@) == next(self@, reply@),
    {
        match self.phase {
            Phase::Acquiring => match reply {
                CacheReply::Acquired => {
                    let request = CacheRequest::Probe { path: self.path.clone() };
                    self.ask(Phase::Probing, request)
                },
                CacheReply::Busy => {
                    let request = CacheRequest::Acquire { path: self.path.clone() };
                    self.ask(Phase::Acquiring, request)
                },
                _ => {
                    let error = FetchError {
                        failure: Failure::Protocol,
                        reason: Self::unexpected(),
                    };
                    (
                        ArchiveFetch {
                            key: self.key,
                            path: self.path,
                            staging: self.staging,
                            validate: self.validate,
                            phase: Phase::Done,
                            payload: self.payload,
                            failure: Some(
                                FetchError {
                                    failure: Failure::Protocol,
                                    reason: Self::unexpected(),
                                },
                            ),
                        },
                        Step::Done(Err(error)),
                    )
                },
            },
            Phase::Probing => match reply {
                CacheReply::Present => {
                    let request = CacheRequest::Load { path: self.path.clone() };
                    self.ask(Phase::Loading, request)
                },
                CacheReply::Missing => {
                    let request = self.download();
                    self.ask(Phase::Downloading, request)
                },
                _ => self.fail(Failure::Protocol, Self::unexpected()),
            },
            Phase::Loading => match reply {
                CacheReply::Loaded(bytes) => {
                    if !self.validate || LogArchiveReader::is_archive(&bytes) {
                        let request = CacheRequest::Release { path: self.path.clone() };
                        self.hold(Phase::Releasing, bytes, request)
                    } else {
                        let request = self.download();
                        self.ask(Phase::Downloading, request)
                    }
                },
                CacheReply::LoadFailed(reason) => self.fail(Failure::Load, reason),
                _ => self.fail(Failure::Protocol, Self::unexpected()),
            },
            Phase::Downloading => match reply {
                CacheReply::Downloaded(bytes) => {
                    let request = CacheRequest::Store {
                        staging: self.staging.clone(),
                        path: self.path.clone(),
                    };
                    self.hold(Phase::Storing, bytes, request)
                },
                CacheReply::DownloadFailed(reason) => self.fail(Failure::Download, reason),
                _ => self.fail(Failure::Protocol, Self::unexpected()),
            },
            Phase::Storing => match reply {
                CacheReply::Stored => {
                    let request = CacheRequest::Release { path: self.path.clone() };
                    self.ask(Phase::Releasing, request)
                },
                CacheReply::StoreFailed(reason) => self.fail(Failure::Store, reason),
                _ => self.fail(Failure::Protocol, Self::unexpected()),
            },
            Phase::Releasing => {
                let (outcome, failure): (Result<Vec<u8>, FetchError>, Option<FetchError>) =
                    match self.failure {
                    Some(error) => {
                        let kept = FetchError {
                            failure: error.failure,
                            reason: error.reason.clone(),
                        };
                        (Err(error), Some(kept))
                    },
                    None => (Ok(self.payload), None),
                };
                (
                    ArchiveFetch {
                        key: self.key,
                        path: self.path,
                        staging: self.staging,
                        validate: self.validate,
                        phase: Phase::Done,
                        payload: Vec::new(),
                        failure,
                    },
                    Step::Done(outcome),
                )
            },
            Phase::Done => {
                let error = FetchError { failure: Failure::Protocol, reason: Self::unexpected() };
                (self, Step::Done(Err(error)))
            },
        }
    }
}

} // verus!
