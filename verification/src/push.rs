//! The step-by-step plan of a push run.
//!
//! Pushing one base is a fixed sequence of `git` calls: classify the base,
//! refresh `origin`, prune it, list the remotes, then mirror-push to every
//! remote whose name contains `mirror`. The driver performs one call at a
//! time and feeds its outcome back through [`push_step`]; the machine decides
//! what comes next. A run over the whole root hands the bases out one by one
//! through [`PushAllSession`], which never drops a base on account of an
//! earlier one's outcome.

use vstd::prelude::*;

use crate::lifecycle::classify_repo_output;
use crate::remotes::{filter_mirror_remotes, mirror_selection, split_lines, split_lines_spec, strs_view};
use crate::stamp::{lemma_mirror_name_bears_mirror, mirror_name};
use crate::text::contains_seq;

verus! {

/// How pushing one base ended.
#[derive(Debug, PartialEq, Eq)]
pub enum BaseOutcome {
    /// The base is not a repository of the store; it was skipped silently.
    Skipped,
    /// Refreshing `origin` failed; nothing further was attempted.
    UpdateFailed,
    /// Pruning `origin` failed; nothing further was attempted.
    PruneFailed,
    /// Every mirror remote was pushed; `any_push_failed` records whether at
    /// least one of those pushes exited nonzero.
    Completed { any_push_failed: bool },
}

/// What the driver must do next for the current base.
#[derive(Debug, PartialEq, Eq)]
pub enum PushPhase {
    /// Run the bareness query against the base.
    Classify,
    /// Run `git remote update origin`.
    Update,
    /// Run `git remote prune origin`.
    Prune,
    /// Run `git remote` to list the base's remotes.
    List,
    /// Mirror-push to `remotes[next]`; `failed` records whether an earlier
    /// push of this base exited nonzero.
    Pushing { remotes: Vec<String>, next: usize, failed: bool },
    /// The base is finished.
    Done { outcome: BaseOutcome },
}

/// The outcome of the one `git` call the current phase asked for.
#[derive(Debug, PartialEq, Eq)]
pub enum PushEvent {
    /// The bareness query exited (`success`) and printed `output`.
    Classified { success: bool, output: String },
    /// `git remote update origin` exited with `ok`.
    UpdateDone { ok: bool },
    /// `git remote prune origin` exited with `ok`.
    PruneDone { ok: bool },
    /// `git remote` printed `output`.
    Listed { output: String },
    /// The push to the current remote exited with `ok`.
    PushDone { ok: bool },
}

/// The event answers the question the phase asked.
pub open spec fn phase_accepts(p: PushPhase, e: PushEvent) -> bool {
    match (p, e) {
        (PushPhase::Classify, PushEvent::Classified { .. }) => true,
        (PushPhase::Update, PushEvent::UpdateDone { .. }) => true,
        (PushPhase::Prune, PushEvent::PruneDone { .. }) => true,
        (PushPhase::List, PushEvent::Listed { .. }) => true,
        (PushPhase::Pushing { .. }, PushEvent::PushDone { .. }) => true,
        _ => false,
    }
}

/// While pushing, the index always points at a remote still to push.
pub open spec fn phase_wf(p: PushPhase) -> bool {
    match p {
        PushPhase::Pushing { remotes, next, .. } => next < remotes@.len(),
        _ => true,
    }
}

/// The transition relation of the per-base machine. Every arrow of §4.4 is
/// here: a base that fails classification is skipped; a failed update or
/// prune finishes the base at once with the matching outcome; the listing
/// is narrowed to the remotes whose name contains `mirror`; each push is
/// attempted whether or not an earlier one failed.
pub open spec fn is_push_step(p: PushPhase, e: PushEvent, r: PushPhase) -> bool {
    match (p, e) {
        (PushPhase::Classify, PushEvent::Classified { success, output }) => {
            let is_repo = success && contains_seq(output@, "false"@);
            r == if is_repo {
                PushPhase::Update
            } else {
                PushPhase::Done { outcome: BaseOutcome::Skipped }
            }
        },
        (PushPhase::Update, PushEvent::UpdateDone { ok }) => {
            r == if ok {
                PushPhase::Prune
            } else {
                PushPhase::Done { outcome: BaseOutcome::UpdateFailed }
            }
        },
        (PushPhase::Prune, PushEvent::PruneDone { ok }) => {
            r == if ok {
                PushPhase::List
            } else {
                PushPhase::Done { outcome: BaseOutcome::PruneFailed }
            }
        },
        (PushPhase::List, PushEvent::Listed { output }) => {
            let sel = mirror_selection(split_lines_spec(output@));
            if sel.len() == 0 {
                r == PushPhase::Done { outcome: BaseOutcome::Completed { any_push_failed: false } }
            } else {
                r matches PushPhase::Pushing { remotes, next, failed } && strs_view(remotes@)
                    == sel && next == 0 && failed == false
            }
        },
        (PushPhase::Pushing { remotes, next, failed }, PushEvent::PushDone { ok }) => {
            let f2 = failed || !ok;
            if next + 1 < remotes@.len() {
                r matches PushPhase::Pushing { remotes: rr, next: rn, failed: rf } && rr@
                    == remotes@ && rn == next + 1 && rf == f2
            } else {
                r == PushPhase::Done { outcome: BaseOutcome::Completed { any_push_failed: f2 } }
            }
        },
        _ => false,
    }
}

/// One step of pushing a base: take the outcome of the call the current
/// phase asked for, and decide what to do next.
pub fn push_step(p: PushPhase, e: PushEvent) -> (r: PushPhase)
    requires
        phase_accepts(p, e),
        phase_wf(p),
    ensures
        phase_wf(r),
        is_push_step(p, e, r),
{
    match (p, e) {
        (PushPhase::Classify, PushEvent::Classified { success, output }) => {
            if classify_repo_output(success, output.as_str()) {
                PushPhase::Update
            } else {
                PushPhase::Done { outcome: BaseOutcome::Skipped }
            }
        },
        (PushPhase::Update, PushEvent::UpdateDone { ok }) => {
            if ok {
                PushPhase::Prune
            } else {
                PushPhase::Done { outcome: BaseOutcome::UpdateFailed }
            }
        },
        (PushPhase::Prune, PushEvent::PruneDone { ok }) => {
            if ok {
                PushPhase::List
            } else {
                PushPhase::Done { outcome: BaseOutcome::PruneFailed }
            }
        },
        (PushPhase::List, PushEvent::Listed { output }) => {
            let names = split_lines(output.as_str());
            let mirrors = filter_mirror_remotes(&names);
            if mirrors.len() == 0 {
                PushPhase::Done { outcome: BaseOutcome::Completed { any_push_failed: false } }
            } else {
                PushPhase::Pushing { remotes: mirrors, next: 0, failed: false }
            }
        },
        (PushPhase::Pushing { remotes, next, failed }, PushEvent::PushDone { ok }) => {
            let f2 = failed || !ok;
            let len = remotes.len();
            assert(next < remotes@.len());
            if next + 1 < len {
                PushPhase::Pushing { remotes, next: next + 1, failed: f2 }
            } else {
                PushPhase::Done { outcome: BaseOutcome::Completed { any_push_failed: f2 } }
            }
        },
        _ => unreached(),
    }
}

/// One directory entry of the root, as the driver found it.
pub struct RootEntry {
    pub name: String,
    pub is_dir: bool,
}

/// The names of the directory entries, in listed order: the bases a push
/// run visits. Non-directory entries are skipped silently.
pub open spec fn dir_targets(entries: Seq<RootEntry>) -> Seq<Seq<char>>
    decreases entries.len(),
{
    if entries.len() == 0 {
        Seq::empty()
    } else if entries.last().is_dir {
        dir_targets(entries.drop_last()).push(entries.last().name@)
    } else {
        dir_targets(entries.drop_last())
    }
}

/// A run over every base under the root. The session fixes its list of
/// targets once, and [`PushAllSession::next_target`] hands them out in
/// order: nothing a base's machine reports can remove, reorder or skip the
/// bases that come after it.
pub struct PushAllSession {
    pub targets: Vec<String>,
    pub visited: usize,
}

impl PushAllSession {
    /// Start a run over the directories among `entries`.
    pub fn new(entries: Vec<RootEntry>) -> (s: PushAllSession)
        ensures
            s.visited == 0,
            strs_view(s.targets@) == dir_targets(entries@),
    {
        let ghost all = entries@;
        let mut targets = Vec::<String>::new();
        let mut i: usize = 0;
        assert(strs_view(targets@) =~= dir_targets(all.take(0)));
        while i < entries.len()
            invariant
                i <= entries@.len(),
                all == entries@,
                strs_view(targets@) == dir_targets(all.take(i as int)),
            decreases entries@.len() - i,
        {
            proof {
                assert(all.take(i + 1).drop_last() =~= all.take(i as int));
                assert(all.take(i + 1).last() == all[i as int]);
            }
            if entries[i].is_dir {
                let ghost old_t = targets@;
                targets.push(entries[i].name.clone());
                assert(strs_view(targets@) =~= strs_view(old_t).push(all[i as int].name@)) by {
                    assert forall|k: int| 0 <= k < targets@.len() implies strs_view(targets@)[k]
                        == strs_view(old_t).push(all[i as int].name@)[k] by {
                        if k < old_t.len() {
                            assert(targets@[k] == old_t[k]);
                        }
                    }
                }
            }
            i = i + 1;
        }
        proof {
            assert(all.take(all.len() as int) =~= all);
        }
        PushAllSession { targets, visited: 0 }
    }

    /// The next base to push, if any is left. Advancing depends on nothing
    /// but the count of bases already handed out — in particular not on how
    /// the previous base fared — so a run that saw a base fail still visits
    /// every remaining base.
    pub fn next_target(&mut self) -> (r: Option<String>)
        ensures
            final(self).targets == old(self).targets,
            match r {
                Some(name) => {
                    &&& old(self).visited < old(self).targets@.len()
                    &&& name@ == old(self).targets@[old(self).visited as int]@
                    &&& final(self).visited == old(self).visited + 1
                },
                None => {
                    &&& old(self).visited >= old(self).targets@.len()
                    &&& final(self).visited == old(self).visited
                },
            },
    {
        if self.visited < self.targets.len() {
            let name = self.targets[self.visited].clone();
            self.visited = self.visited + 1;
            Some(name)
        } else {
            None
        }
    }
}

/// A base whose origin-update (or prune) step fails is merely finished with
/// the matching outcome: the machine lands in `Done`, never in a state that
/// could stall the run. Together with `next_target`, whose advance reads
/// nothing of any outcome, one failing base costs exactly that base — every
/// other base under the root is still attempted.
pub proof fn lemma_failed_step_only_finishes_base(p: PushPhase, e: PushEvent, r: PushPhase)
    requires
        is_push_step(p, e, r),
        (p is Update && e == (PushEvent::UpdateDone { ok: false })) || (p is Prune && e == (
        PushEvent::PruneDone { ok: false })),
    ensures
        p is Update ==> r == (PushPhase::Done { outcome: BaseOutcome::UpdateFailed }),
        p is Prune ==> r == (PushPhase::Done { outcome: BaseOutcome::PruneFailed }),
{
}

/// The selection keeps every listed name that carries the `mirror` token.
proof fn lemma_selection_keeps_matching(names: Seq<Seq<char>>, i: int)
    requires
        0 <= i < names.len(),
        contains_seq(names[i], "mirror"@),
    ensures
        mirror_selection(names).contains(names[i]),
    decreases names.len(),
{
    if i == names.len() - 1 {
        let s = mirror_selection(names);
        assert(s == mirror_selection(names.drop_last()).push(names.last()));
        assert(s[s.len() - 1] == names[i]);
    } else {
        assert(names.drop_last()[i] == names[i]);
        lemma_selection_keeps_matching(names.drop_last(), i);
        let sp = mirror_selection(names.drop_last());
        let j = choose|j: int| 0 <= j < sp.len() && sp[j] == names[i];
        if contains_seq(names.last(), "mirror"@) {
            assert(mirror_selection(names)[j] == sp[j]);
        } else {
            assert(mirror_selection(names) == sp);
        }
    }
}

/// Every remote that `mirror` registers is a target of every later push run
/// of its base: its name carries the `mirror` token, so any listing that
/// shows it puts it among the selected remotes.
pub proof fn lemma_mirrored_remotes_are_pushed(names: Seq<Seq<char>>, i: int, ts: nat)
    requires
        0 <= i < names.len(),
        names[i] == mirror_name(ts),
    ensures
        mirror_selection(names).contains(names[i]),
{
    lemma_mirror_name_bears_mirror(ts);
    lemma_selection_keeps_matching(names, i);
}

/// A failed push of one mirror remote does not end the base either: the
/// machine goes on to the next remote of the same base, and only the
/// recorded flag changes.
pub proof fn lemma_failed_push_continues_remotes(
    remotes: Vec<String>,
    next: usize,
    failed: bool,
    r: PushPhase,
)
    requires
        next + 1 < remotes@.len(),
        is_push_step(
            PushPhase::Pushing { remotes, next, failed },
            PushEvent::PushDone { ok: false },
            r,
        ),
    ensures
        r matches PushPhase::Pushing { remotes: rr, next: rn, failed: rf } && rr@ == remotes@ && rn
            == next + 1 && rf == true,
{
}

} // verus!
