//! The cache of log archives: one file for each run, below a directory for
//! its owner, repository and branch.
//!
//! The cache itself is on disk and the archives come over the network, so
//! this module does neither. It says where an archive lies, and it holds
//! the protocol of one lookup as a state machine: the machine asks for one
//! thing at a time, and whoever drives it does that thing and hands back
//! what came of it.

use vstd::prelude::*;
use vstd::string::StringExecFns;
use crate::decimal::{decimal, push_decimal};
use crate::run::Run;

verus! {

/// What an archive is filed under.
#[derive(Debug, PartialEq, Eq)]
pub struct CacheKey {
    pub owner: String,
    pub repo: String,
    pub branch: String,
    pub run_id: u64,
}

pub struct KeyView {
    pub owner: Seq<char>,
    pub repo: Seq<char>,
    pub branch: Seq<char>,
    pub run_id: u64,
}

impl View for CacheKey {
    type V = KeyView;

    open spec fn view(&self) -> KeyView {
        KeyView {
            owner: self.owner@,
            repo: self.repo@,
            branch: self.branch@,
            run_id: self.run_id,
        }
    }
}

impl Clone for CacheKey {
    fn clone(&self) -> (r: CacheKey)
        ensures
            r == *self,
    {
        CacheKey {
            owner: self.owner.clone(),
            repo: self.repo.clone(),
            branch: self.branch.clone(),
            run_id: self.run_id,
        }
    }
}

impl CacheKey {
    /// The key of a run of the repository `owner`/`repo`.
    pub fn for_run(owner: &str, repo: &str, run: &Run) -> (key: CacheKey)
        ensures
            key@ == (KeyView { owner: owner@, repo: repo@, branch: run.branch@, run_id: run.id }),
    {
        CacheKey {
            owner: String::from_str(owner),
            repo: String::from_str(repo),
            branch: run.branch.clone(),
            run_id: run.id,
        }
    }
}

/// What parts the steps of a path.
pub open spec fn slash() -> Seq<char> {
    seq!['/']
}

/// What parts a file's name from its extension.
pub open spec fn dot() -> Seq<char> {
    seq!['.']
}

/// What a file is called while it is being written.
pub open spec fn part_suffix() -> Seq<char> {
    seq!['.', 'p', 'a', 'r', 't']
}

/// Where the archive of `key` lies: `root/owner/repo/branch/run.extension`,
/// the run by its number in decimal.
pub open spec fn archive_path(root: Seq<char>, key: KeyView, extension: Seq<char>) -> Seq<char> {
    root + slash() + key.owner + slash() + key.repo + slash() + key.branch + slash() + decimal(
        key.run_id as nat,
    ) + dot() + extension
}

/// Where the archive of `key` is written before it is moved into place: a
/// file beside it, so that the move stays within one directory.
pub open spec fn staging_path(root: Seq<char>, key: KeyView, extension: Seq<char>) -> Seq<char> {
    archive_path(root, key, extension) + part_suffix()
}

/// Where the cache lies and what its files are called.
#[derive(Debug, PartialEq, Eq)]
pub struct ArchiveCache {
    pub root: String,
    pub extension: String,
    /// Whether a cached file is trusted only where it is an archive. Where
    /// this is off, a file that lies in place is a hit, whatever it holds.
    pub validate: bool,
}

impl ArchiveCache {
    /// A cache below the directory `root`, of files that end in
    /// `.extension`, that trusts every file in place.
    pub fn new(root: String, extension: String) -> (cache: ArchiveCache)
        ensures
            cache.root == root,
            cache.extension == extension,
            !cache.validate,
    {
        ArchiveCache { root, extension, validate: false }
    }

    /// The same cache, but one that trusts a file in place only where it
    /// is an archive, and downloads anew where it is none.
    pub fn validating(self) -> (cache: ArchiveCache)
        ensures
            cache.root == self.root,
            cache.extension == self.extension,
            cache.validate,
    {
        ArchiveCache { root: self.root, extension: self.extension, validate: true }
    }

    /// Where the archive of `key` lies.
    pub fn path(&self, key: &CacheKey) -> (p: String)
        ensures
            p@ == archive_path(self.root@, key@, self.extension@),
    {
        proof {
            reveal_strlit("/");
            reveal_strlit(".");
            assert("/"@ =~= slash());
            assert("."@ =~= dot());
        }
        let mut p: String = self.root.clone();
        p.append("/");
        p.append(key.owner.as_str());
        p.append("/");
        p.append(key.repo.as_str());
        p.append("/");
        p.append(key.branch.as_str());
        p.append("/");
        push_decimal(&mut p, key.run_id);
        p.append(".");
        p.append(self.extension.as_str());
        p
    }

    /// Where the archive of `key` is written before it is moved into place.
    pub fn staging(&self, key: &CacheKey) -> (p: String)
        ensures
            p@ == staging_path(self.root@, key@, self.extension@),
    {
        proof {
            reveal_strlit(".part");
            assert(".part"@ =~= part_suffix());
        }
        let mut p: String = self.path(key);
        p.append(".part");
        p
    }
}

/// An archive is never written at the place where it is looked for: what
/// lies there was moved there whole.
pub proof fn lemma_staging_is_not_in_place(root: Seq<char>, key: KeyView, extension: Seq<char>)
    ensures
        staging_path(root, key, extension) != archive_path(root, key, extension),
{
    assert(staging_path(root, key, extension).len() == archive_path(root, key, extension).len()
        + 5);
}

/// Two runs of one branch lie at two places: their writes never collide.
pub proof fn lemma_runs_lie_apart(root: Seq<char>, a: KeyView, b: KeyView, extension: Seq<char>)
    requires
        a.owner == b.owner,
        a.repo == b.repo,
        a.branch == b.branch,
        a.run_id != b.run_id,
    ensures
        archive_path(root, a, extension) != archive_path(root, b, extension),
        staging_path(root, a, extension) != staging_path(root, b, extension),
{
    let head = root + slash() + a.owner + slash() + a.repo + slash() + a.branch + slash();
    let tail = dot() + extension;
    let da = decimal(a.run_id as nat);
    let db = decimal(b.run_id as nat);
    let pa = archive_path(root, a, extension);
    let pb = archive_path(root, b, extension);
    assert(pa =~= head + da + tail);
    assert(pb =~= head + db + tail);
    crate::decimal::lemma_decimal_reads_back(a.run_id as nat);
    crate::decimal::lemma_decimal_reads_back(b.run_id as nat);
    assert(da != db);
    if pa == pb {
        assert(da.len() == db.len()) by {
            assert(pa.len() == head.len() + da.len() + tail.len());
            assert(pb.len() == head.len() + db.len() + tail.len());
        }
        assert forall|i: int| 0 <= i < da.len() implies da[i] == db[i] by {
            assert(pa[head.len() + i] == da[i]);
            assert(pb[head.len() + i] == db[i]);
        }
        assert(da =~= db);
    }
    if staging_path(root, a, extension) == staging_path(root, b, extension) {
        let sa = staging_path(root, a, extension);
        let sb = staging_path(root, b, extension);
        assert(pa.len() == pb.len()) by {
            assert(sa.len() == pa.len() + 5);
            assert(sb.len() == pb.len() + 5);
        }
        assert forall|i: int| 0 <= i < pa.len() implies pa[i] == pb[i] by {
            assert(sa[i] == pa[i]);
            assert(sb[i] == pb[i]);
        }
        assert(pa =~= pb);
    }
}

} // verus!
