//! What holds of every merge, rebase and search for objects.

use vstd::prelude::*;

use crate::git::lookup;
use crate::git::operations::{
    self, ChangeInfoView, CherryPickStatus, ConflictInfoView, MergeResultView, MergeStatus,
    TreeMergeView,
};
use crate::git::{GitErrorView, StorageConfigView};
use crate::host::{self, HostCallView, ItemView, OutcomeView, ReplyView, StepView};

verus! {

/// The paths of conflicts.
pub open spec fn conflict_paths(conflicts: Seq<ConflictInfoView>) -> Seq<Seq<char>> {
    conflicts.map_values(|c: ConflictInfoView| c.path)
}

/// Membership in a list of which some elements are picked and mapped.
pub proof fn lemma_filter_map_contains<A, B>(s: Seq<A>, f: spec_fn(A) -> Option<B>, b: B)
    ensures
        s.filter_map(f).contains(b) <==> exists|i: int|
            0 <= i < s.len() && f(#[trigger] s[i]) == Some(b),
    decreases s.len(),
{
    if s.len() > 0 {
        let rest = s.drop_last();
        lemma_filter_map_contains(rest, f, b);
        s.lemma_filter_map_take_succ(f, s.len() - 1);
        assert(s.take(s.len() as int) == s);
        assert(s.take(s.len() - 1) == rest);
        let before = rest.filter_map(f);
        let after = s.filter_map(f);
        let last = f(s.last());
        if after.contains(b) {
            let k = choose|k: int| 0 <= k < after.len() && after[k] == b;
            if k < before.len() {
                assert(before[k] == b);
                assert(before.contains(b));
                let i = choose|i: int| 0 <= i < rest.len() && f(#[trigger] rest[i]) == Some(b);
                assert(s[i] == rest[i]);
            } else {
                assert(f(s[s.len() - 1]) == Some(b));
            }
        }
        if exists|i: int| 0 <= i < s.len() && f(#[trigger] s[i]) == Some(b) {
            let i = choose|i: int| 0 <= i < s.len() && f(#[trigger] s[i]) == Some(b);
            if i < rest.len() {
                assert(f(rest[i]) == Some(b));
                let k = choose|k: int| 0 <= k < before.len() && before[k] == b;
                assert(after[k] == b);
            } else {
                assert(after[before.len() as int] == b);
            }
        }
    }
}

/// A path has a conflict exactly if it is among the conflicts.
pub proof fn lemma_conflict_listed(
    ours: Seq<ChangeInfoView>,
    theirs: Seq<ChangeInfoView>,
    path: Seq<char>,
)
    ensures
        conflict_paths(operations::conflicts_of(ours, theirs)).contains(path)
            <==> operations::conflict_at(ours, theirs, path) is Some,
{
    let f = |p: Seq<char>| operations::conflict_at(ours, theirs, p);
    let conflicts = operations::conflicts_of(ours, theirs);
    let paths = operations::changed_paths(ours);
    if conflict_paths(conflicts).contains(path) {
        let k = choose|k: int|
            0 <= k < conflict_paths(conflicts).len() && conflict_paths(conflicts)[k] == path;
        lemma_filter_map_contains(paths, f, conflicts[k]);
        assert(conflicts.contains(conflicts[k]));
        let i = choose|i: int| 0 <= i < paths.len() && f(#[trigger] paths[i]) == Some(conflicts[k]);
        assert(operations::conflict_at(ours, theirs, paths[i]) == Some(conflicts[k]));
    }
    if operations::conflict_at(ours, theirs, path) is Some {
        let conflict = operations::conflict_at(ours, theirs, path)->0;
        operations::lemma_changed_paths(ours, path);
        let i = choose|i: int| 0 <= i < paths.len() && paths[i] == path;
        assert(f(paths[i]) == Some(conflict));
        lemma_filter_map_contains(paths, f, conflict);
        let k = choose|k: int| 0 <= k < conflicts.len() && conflicts[k] == conflict;
        assert(conflict_paths(conflicts)[k] == path);
    }
}

/// A path that either side changes is merged or in conflict, and never both; a
/// path that neither changes is neither.
pub proof fn law_every_change_is_judged_once(
    ours: Seq<ChangeInfoView>,
    theirs: Seq<ChangeInfoView>,
    path: Seq<char>,
)
    ensures
        ({
            let changed = operations::last_change(ours, path) is Some || operations::last_change(
                theirs,
                path,
            ) is Some;
            let merged = operations::merged_of(ours, theirs).contains(path);
            let conflict = conflict_paths(operations::conflicts_of(ours, theirs)).contains(path);
            &&& changed <==> merged || conflict
            &&& !(merged && conflict)
        }),
{
    lemma_conflict_listed(ours, theirs, path);
    let our_paths = operations::changed_paths(ours);
    let their_paths = operations::changed_paths(theirs);
    let calm = |p: Seq<char>|
        if operations::conflict_at(ours, theirs, p) is None {
            Some(p)
        } else {
            None
        };
    let only_theirs = |p: Seq<char>|
        if operations::last_change(ours, p) is None {
            Some(p)
        } else {
            None
        };
    let first = our_paths.filter_map(calm);
    let second = their_paths.filter_map(only_theirs);
    let merged = operations::merged_of(ours, theirs);
    assert(merged == first + second);
    operations::lemma_changed_paths(ours, path);
    operations::lemma_changed_paths(theirs, path);
    lemma_filter_map_contains(our_paths, calm, path);
    lemma_filter_map_contains(their_paths, only_theirs, path);
    if merged.contains(path) {
        let k = choose|k: int| 0 <= k < merged.len() && merged[k] == path;
        if k < first.len() {
            assert(first[k] == path);
            assert(first.contains(path));
        } else {
            assert(second[k - first.len()] == path);
            assert(second.contains(path));
        }
    }
    if first.contains(path) {
        let k = choose|k: int| 0 <= k < first.len() && first[k] == path;
        assert(merged[k] == path);
        let i = choose|i: int| 0 <= i < our_paths.len() && calm(#[trigger] our_paths[i]) == Some(
            path,
        );
        assert(our_paths[i] == path);
    }
    if second.contains(path) {
        let k = choose|k: int| 0 <= k < second.len() && second[k] == path;
        assert(merged[first.len() + k] == path);
        let i = choose|i: int|
            0 <= i < their_paths.len() && only_theirs(#[trigger] their_paths[i]) == Some(path);
        assert(their_paths[i] == path);
    }
    if operations::last_change(ours, path) is Some && operations::conflict_at(
        ours,
        theirs,
        path,
    ) is None {
        let i = choose|i: int| 0 <= i < our_paths.len() && our_paths[i] == path;
        assert(calm(our_paths[i]) == Some(path));
        assert(first.contains(path));
    }
    if operations::last_change(ours, path) is None && operations::last_change(
        theirs,
        path,
    ) is Some {
        let i = choose|i: int| 0 <= i < their_paths.len() && their_paths[i] == path;
        assert(only_theirs(their_paths[i]) == Some(path));
        assert(second.contains(path));
    }
}

/// Who merges whom decides which side is ours, not what is in conflict.
pub proof fn law_conflicts_are_mutual(
    ours: Seq<ChangeInfoView>,
    theirs: Seq<ChangeInfoView>,
    path: Seq<char>,
)
    ensures
        match (
            operations::conflict_at(ours, theirs, path),
            operations::conflict_at(theirs, ours, path),
        ) {
            (Some(a), Some(b)) => a.ours_oid == b.theirs_oid && a.theirs_oid == b.ours_oid,
            (None, None) => true,
            _ => false,
        },
{
}

/// Sides that make the same changes have no conflicts.
pub proof fn law_same_changes_never_conflict(infos: Seq<ChangeInfoView>)
    ensures
        operations::conflicts_of(infos, infos).len() == 0,
{
    let conflicts = operations::conflicts_of(infos, infos);
    if conflicts.len() > 0 {
        let path = conflicts[0].path;
        assert(conflict_paths(conflicts)[0] == path);
        lemma_conflict_listed(infos, infos, path);
    }
}

/// A merge of trees ends as a conflict exactly if there is one, and so does a
/// cherry-pick; neither makes a commit.
pub proof fn law_conflict_status(merge: TreeMergeView)
    ensures
        operations::merge_outcome(merge).status == MergeStatus::Conflict <==> merge.conflicts.len()
            > 0,
        operations::pick_outcome(merge).status == CherryPickStatus::Conflict
            <==> merge.conflicts.len() > 0,
        operations::merge_outcome(merge).commit_oid is None,
        operations::pick_outcome(merge).commit_oid is None,
{
}

/// A commit merged into itself is up to date, and nothing is looked up for that.
pub proof fn law_merge_into_itself(
    k: Seq<(HostCallView, ReplyView)>,
    commit: Seq<char>,
    allow_fast_forward: bool,
)
    ensures
        operations::merged_commits(k, commit, commit, allow_fast_forward) == StepView::<
            MergeResultView,
            GitErrorView,
        >::Done(operations::settled(commit, MergeStatus::AlreadyUpToDate)),
{
}

/// A merge into an ancestor is a fast-forward to the head where that is allowed,
/// and never one where it is not.
pub proof fn law_fast_forward(
    k: Seq<(HostCallView, ReplyView)>,
    base: Seq<char>,
    head: Seq<char>,
    allow_fast_forward: bool,
)
    requires
        base != head,
        lookup::base_of(k, base, head) == StepView::<Seq<char>, GitErrorView>::Done(base),
    ensures
        allow_fast_forward ==> operations::merged_commits(k, base, head, allow_fast_forward)
            == StepView::<MergeResultView, GitErrorView>::Done(
            operations::settled(head, MergeStatus::FastForward),
        ),
        !allow_fast_forward ==> match operations::merged_commits(
            k,
            base,
            head,
            allow_fast_forward,
        ) {
            StepView::Done(result) => result.status == MergeStatus::Success || result.status
                == MergeStatus::Conflict,
            _ => true,
        },
{
}

/// What [`operations::walked`] says.
proof fn lemma_walked_is_before(steps: Seq<OutcomeView<Seq<char>>>, base: Seq<char>)
    ensures
        ({
            let n = operations::walked(steps, base);
            &&& n <= steps.len()
            &&& forall|i: int|
                0 <= i < n ==> (#[trigger] steps[i]) is Got && steps[i]->Got_0 != base
        }),
    decreases steps.len(),
{
    if steps.len() > 0 && steps[0] is Got && steps[0]->Got_0 != base {
        lemma_walked_is_before(steps.skip(1), base);
        assert forall|i: int| 0 <= i < operations::walked(steps, base) implies (
        #[trigger] steps[i]) is Got && steps[i]->Got_0 != base by {
            if i > 0 {
                assert(steps.skip(1)[i - 1] == steps[i]);
            }
        }
    }
}

/// A rebase takes the commits of the walk from the branch up to the base, which
/// is not among them, and takes the oldest first.
pub proof fn law_rebase_takes_oldest_first(steps: Seq<OutcomeView<Seq<char>>>, base: Seq<char>)
    ensures
        match operations::commits_since(steps, base) {
            StepView::Done(commits) => {
                &&& commits.len() <= steps.len()
                &&& forall|i: int|
                    0 <= i < commits.len() ==> #[trigger] commits[i] == steps[commits.len() - 1
                        - i]->Got_0 && commits[i] != base
            },
            StepView::Failed(error) => error is Gix,
            StepView::Ask(calls) => false,
        },
{
    lemma_walked_is_before(steps, base);
    if let StepView::Done(commits) = operations::commits_since(steps, base) {
        assert forall|i: int| 0 <= i < commits.len() implies #[trigger] commits[i]
            == steps[commits.len() - 1 - i]->Got_0 && commits[i] != base by {
            assert(steps[commits.len() - 1 - i] is Got);
        }
    }
}

/// A search for objects tells of each of them, in the order given.
pub proof fn law_each_object_is_told(
    k: Seq<(HostCallView, ReplyView)>,
    config: StorageConfigView,
    owner: Seq<char>,
    name: Seq<char>,
    oids: Seq<Seq<char>>,
)
    ensures
        match operations::objects_exist(k, config, owner, name, oids) {
            StepView::Done(told) => told.len() == oids.len() && forall|i: int|
                0 <= i < oids.len() ==> (#[trigger] told[i]).0 == oids[i],
            _ => true,
        },
{
    let items = oids.map_values(|oid: Seq<char>| operations::existence(k, oid));
    super::host::law_gather_done(items);
    if let StepView::Done(told) = host::gather(items) {
        assert forall|i: int| 0 <= i < oids.len() implies (#[trigger] told[i]).0 == oids[i] by {
            assert(items[i] == ItemView::<(Seq<char>, bool), GitErrorView>::Value(told[i]));
        }
    }
}

} // verus!
