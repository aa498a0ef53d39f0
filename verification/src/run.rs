//! Runs of a CI workflow, and the choice of those whose logs are read.

use vstd::prelude::*;
use vstd::string::StringExecFns;
use crate::timestamp::Timestamp;

verus! {

/// One execution of a workflow, as the provider lists it.
#[derive(Debug, PartialEq, Eq)]
pub struct Run {
    /// The provider's number of the run.
    pub id: u64,
    /// The name of the workflow.
    pub name: String,
    /// The branch that the run was started for.
    pub branch: String,
    /// `queued`, `in_progress`, `completed`, or whatever else the provider
    /// says.
    pub status: String,
    /// `success`, `failure`, `cancelled` and the like; `None` while the run
    /// has none.
    pub conclusion: Option<String>,
    pub created_at: Timestamp,
    pub updated_at: Timestamp,
}

impl Clone for Run {
    fn clone(&self) -> (r: Run)
        ensures
            r == *self,
    {
        let conclusion: Option<String> = match &self.conclusion {
            Some(text) => Some(text.clone()),
            None => None,
        };
        Run {
            id: self.id,
            name: self.name.clone(),
            branch: self.branch.clone(),
            status: self.status.clone(),
            conclusion,
            created_at: self.created_at,
            updated_at: self.updated_at,
        }
    }
}

/// The status of a run that has ended, whatever its conclusion.
pub open spec fn completed() -> Seq<char> {
    "completed"@
}

/// A run is read when it is a run of the workflow named `target` and has
/// ended. Its conclusion has no say.
pub open spec fn eligible(run: Run, target: Seq<char>) -> bool {
    run.name@ == target && run.status@ == completed()
}

/// The eligible runs of a listing, in the order of the listing.
pub open spec fn eligible_runs(listed: Seq<Run>, target: Seq<char>) -> Seq<Run> {
    listed.filter(|run: Run| eligible(run, target))
}

/// Chooses the runs of one workflow that have completed.
pub struct RunSelector {
    pub target_name: String,
}

impl RunSelector {
    /// A selector for the workflow named `target_name`.
    pub fn new(target_name: String) -> (r: RunSelector)
        ensures
            r.target_name == target_name,
    {
        RunSelector { target_name }
    }

    /// Whether `run` is read.
    pub fn is_eligible(&self, run: &Run) -> (r: bool)
        ensures
            r == eligible(*run, self.target_name@),
    {
        let done: String = String::from_str("completed");
        run.name == self.target_name && run.status == done
    }

    /// The runs of `listed` that are read, in the order of the listing.
    pub fn select(&self, listed: &Vec<Run>) -> (kept: Vec<Run>)
        ensures
            kept@ == eligible_runs(listed@, self.target_name@),
    {
        let ghost keep = |run: Run| eligible(run, self.target_name@);
        let mut kept: Vec<Run> = Vec::new();
        let mut i: usize = 0;
        proof {
            reveal(Seq::filter);
            assert(listed@.take(0) =~= Seq::<Run>::empty());
        }
        while i < listed.len()
            invariant
                i <= listed.len(),
                keep == |run: Run| eligible(run, self.target_name@),
                kept@ == listed@.take(i as int).filter(keep),
            decreases listed.len() - i,
        {
            proof {
                reveal(Seq::filter);
                assert(listed@.take(i + 1).drop_last() =~= listed@.take(i as int));
                assert(listed@.take(i + 1).last() == listed@[i as int]);
            }
            if self.is_eligible(&listed[i]) {
                kept.push(listed[i].clone());
            }
            i = i + 1;
        }
        proof {
            assert(listed@.take(i as int) =~= listed@);
        }
        kept
    }
}

/// No run is kept that is a run of another workflow or has not completed.
pub proof fn lemma_ineligible_runs_are_excluded(listed: Seq<Run>, target: Seq<char>, run: Run)
    requires
        run.name@ != target || run.status@ != completed(),
    ensures
        !eligible_runs(listed, target).contains(run),
{
    let keep = |r: Run| eligible(r, target);
    let kept = listed.filter(keep);
    if kept.contains(run) {
        let i = choose|i: int| 0 <= i < kept.len() && kept[i] == run;
        listed.lemma_filter_pred(keep, i);
    }
}

/// Every listed run of the workflow that has completed is kept, and every
/// run that is kept was listed.
pub proof fn lemma_eligible_runs_are_kept(listed: Seq<Run>, target: Seq<char>, run: Run)
    ensures
        listed.contains(run) && eligible(run, target) <==> eligible_runs(listed, target).contains(
            run,
        ),
{
    let keep = |r: Run| eligible(r, target);
    let kept = listed.filter(keep);
    if listed.contains(run) && eligible(run, target) {
        let i = choose|i: int| 0 <= i < listed.len() && listed[i] == run;
        listed.lemma_filter_contains(keep, i);
    }
    if kept.contains(run) {
        let i = choose|i: int| 0 <= i < kept.len() && kept[i] == run;
        listed.lemma_filter_pred(keep, i);
        lemma_filter_keeps_members(listed, target, i);
    }
}

/// What a filter keeps, it took from the listing.
proof fn lemma_filter_keeps_members(listed: Seq<Run>, target: Seq<char>, i: int)
    requires
        0 <= i < eligible_runs(listed, target).len(),
    ensures
        listed.contains(eligible_runs(listed, target)[i]),
    decreases listed.len(),
{
    reveal(Seq::filter);
    let keep = |r: Run| eligible(r, target);
    if listed.len() > 0 {
        let head = listed.drop_last();
        let sub = head.filter(keep);
        if i < sub.len() {
            lemma_filter_keeps_members(head, target, i);
            let j = choose|j: int| 0 <= j < head.len() && head[j] == sub[i];
            assert(listed[j] == sub[i]);
        } else {
            assert(listed[listed.len() - 1] == listed.last());
        }
    }
}

/// A listing that comes page by page can be filtered page by page.
pub proof fn lemma_selection_goes_page_by_page(page: Seq<Run>, next: Seq<Run>, target: Seq<char>)
    ensures
        eligible_runs(page + next, target) == eligible_runs(page, target) + eligible_runs(
            next,
            target,
        ),
{
    Seq::filter_distributes_over_add(page, next, |run: Run| eligible(run, target));
}

} // verus!
