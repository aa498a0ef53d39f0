//! What the lookup protocol achieves, shown on a model of its
//! surroundings: a disk that keeps what is moved into place, a table of
//! claims that grants each place to one lookup at a time, and a provider
//! that counts the downloads asked of it.

use vstd::prelude::*;
use crate::cache::{archive_path, KeyView};
use crate::fetch::{claim_held, first_request, next, start, trusted, Fault, FetchView, Phase, ReplyView, RequestView, StepView};

verus! {

/// The surroundings of the lookups.
pub struct World {
    /// The files of the cache, by their paths.
    pub files: Map<Seq<char>, Seq<u8>>,
    /// The places that are claimed.
    pub claims: Set<Seq<char>>,
    /// How many downloads the provider was asked for.
    pub downloads: nat,
}

/// The words of the model's failures: it has none to say.
pub open spec fn no_words() -> Seq<char> {
    Seq::empty()
}

/// What the surroundings do on a request of a lookup that holds `payload`,
/// and what they reply. `provider` says what the provider hands out for
/// the run of an owner and a repository, `None` where it refuses.
///
/// A claim is granted where the place is free. A file is present where one
/// was moved to its path, and is read whole. A download is counted, served
/// or not. A store moves all of the payload into place at once.
pub open spec fn serve(
    world: World,
    provider: spec_fn(Seq<char>, Seq<char>, u64) -> Option<Seq<u8>>,
    payload: Seq<u8>,
    request: RequestView,
) -> (World, ReplyView) {
    match request {
        RequestView::Acquire { path } => if world.claims.contains(path) {
            (world, ReplyView::Busy)
        } else {
            (World { claims: world.claims.insert(path), ..world }, ReplyView::Acquired)
        },
        RequestView::Probe { path } => (
            world,
            if world.files.contains_key(path) {
                ReplyView::Present
            } else {
                ReplyView::Missing
            },
        ),
        RequestView::Load { path } => (
            world,
            if world.files.contains_key(path) {
                ReplyView::Loaded(world.files[path])
            } else {
                ReplyView::LoadFailed(no_words())
            },
        ),
        RequestView::Download { owner, repo, run_id } => (
            World { downloads: world.downloads + 1, ..world },
            match provider(owner, repo, run_id) {
                Some(bytes) => ReplyView::Downloaded(bytes),
                None => ReplyView::DownloadFailed(no_words()),
            },
        ),
        RequestView::Store { staging, path } => (
            World { files: world.files.insert(path, payload), ..world },
            ReplyView::Stored,
        ),
        RequestView::Release { path } => (
            World { claims: world.claims.remove(path), ..world },
            ReplyView::Released,
        ),
    }
}

/// A lookup driven for at most `fuel` requests: the world it leaves, and
/// what it handed out, `None` while it is not over.
pub open spec fn drive(
    world: World,
    provider: spec_fn(Seq<char>, Seq<char>, u64) -> Option<Seq<u8>>,
    state: FetchView,
    request: RequestView,
    fuel: nat,
) -> (World, Option<Result<Seq<u8>, Fault>>)
    decreases fuel,
{
    if fuel == 0 {
        (world, None)
    } else {
        let (served, reply) = serve(world, provider, state.payload, request);
        let (then, step) = next(state, reply);
        match step {
            StepView::Done(outcome) => (served, Some(outcome)),
            StepView::Ask(asked) => drive(served, provider, then, asked, (fuel - 1) as nat),
        }
    }
}

/// One whole lookup from the state `begun`, alone in the world. Six
/// requests are the most that a lookup makes once its claim is granted.
pub open spec fn get_archive(
    world: World,
    provider: spec_fn(Seq<char>, Seq<char>, u64) -> Option<Seq<u8>>,
    begun: FetchView,
) -> (World, Option<Result<Seq<u8>, Fault>>) {
    drive(world, provider, begun, first_request(begun), 6)
}

/// The cache holds a file for the lookup that the lookup trusts.
pub open spec fn cached(world: World, begun: FetchView) -> bool {
    world.files.contains_key(begun.path) && trusted(begun, world.files[begun.path])
}

/// A lookup whose place is free comes to an end, gives its claim back, and
/// asks for one download where the cache holds no file that it trusts,
/// and for none where it does. Where it hands out an archive, that archive
/// is then in the cache, and a second lookup of the same key hands out
/// the same bytes without a download; a lookup that validates does so
/// where these bytes encode an archive.
pub proof fn lemma_second_lookup_is_a_hit(
    world: World,
    provider: spec_fn(Seq<char>, Seq<char>, u64) -> Option<Seq<u8>>,
    root: Seq<char>,
    key: KeyView,
    extension: Seq<char>,
    validate: bool,
)
    requires
        !world.claims.contains(archive_path(root, key, extension)),
    ensures
        ({
            let begun = start(root, key, extension, validate);
            let (first_world, first) = get_archive(world, provider, begun);
            let (second_world, second) = get_archive(first_world, provider, begun);
            &&& first is Some
            &&& first_world.claims == world.claims
            &&& cached(world, begun) ==> first_world.downloads == world.downloads
            &&& !cached(world, begun) ==> first_world.downloads == world.downloads + 1
            &&& first matches Some(Ok(bytes)) ==> {
                &&& first_world.files.contains_key(begun.path)
                &&& first_world.files[begun.path] == bytes
                &&& trusted(begun, bytes) ==> {
                    &&& second == first
                    &&& second_world.downloads == first_world.downloads
                    &&& second_world.files == first_world.files
                }
            }
        }),
{
    reveal_with_fuel(drive, 7);
    let begun = start(root, key, extension, validate);
    let path = begun.path;
    let (first_world, first) = get_archive(world, provider, begun);
    assert(world.claims.insert(path).remove(path) =~= world.claims);
    assert(first_world.claims =~= world.claims);
    if let Some(Ok(bytes)) = first {
        if trusted(begun, bytes) {
            let (second_world, second) = get_archive(first_world, provider, begun);
            assert(first_world.claims.insert(path).remove(path) =~= first_world.claims);
            assert(second_world.files =~= first_world.files);
        }
    }
}

/// A lookup among others: its state, and the request that it has made and
/// that is not served yet; `None` once the lookup is over.
pub struct Lookup {
    pub state: FetchView,
    pub pending: Option<RequestView>,
}

/// Two lookups in one world.
pub struct Pair {
    pub world: World,
    pub first: Lookup,
    pub second: Lookup,
}

/// A lookup that has made its first request.
pub open spec fn lookup_of(begun: FetchView) -> Lookup {
    Lookup { state: begun, pending: Some(first_request(begun)) }
}

/// The world serves the pending request of a lookup, and the lookup takes
/// the reply. A lookup that is over stays as it is.
pub open spec fn act(
    world: World,
    provider: spec_fn(Seq<char>, Seq<char>, u64) -> Option<Seq<u8>>,
    lookup: Lookup,
) -> (World, Lookup) {
    match lookup.pending {
        None => (world, lookup),
        Some(request) => {
            let (served, reply) = serve(world, provider, lookup.state.payload, request);
            let (then, step) = next(lookup.state, reply);
            (
                served,
                Lookup {
                    state: then,
                    pending: match step {
                        StepView::Ask(asked) => Some(asked),
                        StepView::Done(_) => None,
                    },
                },
            )
        },
    }
}

/// One of the two lookups acts: the first where `first_acts`, else the
/// second.
pub open spec fn pair_step(
    pair: Pair,
    provider: spec_fn(Seq<char>, Seq<char>, u64) -> Option<Seq<u8>>,
    first_acts: bool,
) -> Pair {
    if first_acts {
        let (world, first) = act(pair.world, provider, pair.first);
        Pair { world, first, ..pair }
    } else {
        let (world, second) = act(pair.world, provider, pair.second);
        Pair { world, second, ..pair }
    }
}

/// Two lookups of one key, both in the state `begun`, after they have
/// acted in `world` in the order that `schedule` gives.
pub open spec fn interleave(
    world: World,
    provider: spec_fn(Seq<char>, Seq<char>, u64) -> Option<Seq<u8>>,
    begun: FetchView,
    schedule: Seq<bool>,
) -> Pair
    decreases schedule.len(),
{
    if schedule.len() == 0 {
        Pair { world, first: lookup_of(begun), second: lookup_of(begun) }
    } else {
        pair_step(interleave(world, provider, begun, schedule.drop_last()), provider, schedule.last())
    }
}

/// The request that a lookup in state `s` has made.
pub open spec fn request_of(s: FetchView) -> Option<RequestView> {
    match s.phase {
        Phase::Acquiring => Some(RequestView::Acquire { path: s.path }),
        Phase::Probing => Some(RequestView::Probe { path: s.path }),
        Phase::Loading => Some(RequestView::Load { path: s.path }),
        Phase::Downloading => Some(
            RequestView::Download { owner: s.key.owner, repo: s.key.repo, run_id: s.key.run_id },
        ),
        Phase::Storing => Some(RequestView::Store { staging: s.staging, path: s.path }),
        Phase::Releasing => Some(RequestView::Release { path: s.path }),
        Phase::Done => None,
    }
}

/// The provider serves the archive of the lookup, and serves bytes that
/// the lookup trusts.
pub open spec fn well_served(
    provider: spec_fn(Seq<char>, Seq<char>, u64) -> Option<Seq<u8>>,
    begun: FetchView,
) -> bool {
    match provider(begun.key.owner, begun.key.repo, begun.key.run_id) {
        Some(bytes) => trusted(begun, bytes),
        None => false,
    }
}

/// What stays true of two lookups from the state `begun` however they take
/// turns, from a world with `downloads` downloads in which their place was
/// free.
pub open spec fn pair_inv(
    pair: Pair,
    provider: spec_fn(Seq<char>, Seq<char>, u64) -> Option<Seq<u8>>,
    begun: FetchView,
    downloads: nat,
) -> bool {
    let a = pair.first;
    let b = pair.second;
    let w = pair.world;
    let path = begun.path;
    &&& a.state.path == path && b.state.path == path
    &&& a.state.key == begun.key && b.state.key == begun.key
    &&& a.state.validate == begun.validate && b.state.validate == begun.validate
    &&& a.pending == request_of(a.state) && b.pending == request_of(b.state)
    &&& !(claim_held(a.state) && claim_held(b.state))
    &&& w.claims.contains(path) <==> claim_held(a.state) || claim_held(b.state)
    &&& well_served(provider, begun) ==> {
        &&& w.downloads == downloads || w.downloads == downloads + 1
        &&& w.downloads == downloads + 1 ==> cached(w, begun) || a.state.phase == Phase::Storing
            || b.state.phase == Phase::Storing
        &&& a.state.phase == Phase::Downloading ==> !cached(w, begun)
        &&& b.state.phase == Phase::Downloading ==> !cached(w, begun)
        &&& a.state.phase == Phase::Storing ==> trusted(begun, a.state.payload)
        &&& b.state.phase == Phase::Storing ==> trusted(begun, b.state.payload)
    }
}

/// No step of either lookup breaks `pair_inv`.
proof fn lemma_step_keeps_inv(
    pair: Pair,
    provider: spec_fn(Seq<char>, Seq<char>, u64) -> Option<Seq<u8>>,
    begun: FetchView,
    downloads: nat,
    first_acts: bool,
)
    requires
        pair_inv(pair, provider, begun, downloads),
    ensures
        pair_inv(pair_step(pair, provider, first_acts), provider, begun, downloads),
{
}

/// `pair_inv` holds of two lookups of one key from their start on.
proof fn lemma_interleave_keeps_inv(
    world: World,
    provider: spec_fn(Seq<char>, Seq<char>, u64) -> Option<Seq<u8>>,
    begun: FetchView,
    schedule: Seq<bool>,
)
    requires
        begun.phase is Acquiring,
        !world.claims.contains(begun.path),
    ensures
        pair_inv(interleave(world, provider, begun, schedule), provider, begun, world.downloads),
    decreases schedule.len(),
{
    if schedule.len() > 0 {
        lemma_interleave_keeps_inv(world, provider, begun, schedule.drop_last());
        lemma_step_keeps_inv(
            interleave(world, provider, begun, schedule.drop_last()),
            provider,
            begun,
            world.downloads,
            schedule.last(),
        );
    }
}

/// Two lookups of one key that run side by side, in whatever order they
/// take their turns, never hold the claim on their place at once: what one
/// of them does between claim and release, the probe and the download
/// among it, the other does not do meanwhile.
pub proof fn lemma_lookups_take_turns(
    world: World,
    provider: spec_fn(Seq<char>, Seq<char>, u64) -> Option<Seq<u8>>,
    root: Seq<char>,
    key: KeyView,
    extension: Seq<char>,
    validate: bool,
    schedule: Seq<bool>,
)
    requires
        !world.claims.contains(archive_path(root, key, extension)),
    ensures
        ({
            let begun = start(root, key, extension, validate);
            let pair = interleave(world, provider, begun, schedule);
            !(claim_held(pair.first.state) && claim_held(pair.second.state))
        }),
{
    lemma_interleave_keeps_inv(world, provider, start(root, key, extension, validate), schedule);
}

/// Where the provider serves the archive, and serves what the lookups
/// trust, two lookups of one key that run side by side ask for one
/// download between them at most, in whatever order they take their
/// turns.
pub proof fn lemma_one_download_for_two_lookups(
    world: World,
    provider: spec_fn(Seq<char>, Seq<char>, u64) -> Option<Seq<u8>>,
    root: Seq<char>,
    key: KeyView,
    extension: Seq<char>,
    validate: bool,
    schedule: Seq<bool>,
)
    requires
        !world.claims.contains(archive_path(root, key, extension)),
        well_served(provider, start(root, key, extension, validate)),
    ensures
        interleave(
            world,
            provider,
            start(root, key, extension, validate),
            schedule,
        ).world.downloads <= world.downloads + 1,
{
    lemma_interleave_keeps_inv(world, provider, start(root, key, extension, validate), schedule);
}

} // verus!
