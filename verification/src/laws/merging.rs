//! What a merge, a cherry-pick, a rebase and a search for objects come to, in terms of
//! what the machine has told.

use vstd::prelude::*;

use super::host::law_gather_done;
use super::operations::{conflict_paths, lemma_conflict_listed, lemma_filter_map_contains};
use crate::git::objects;
use crate::git::operations::{
    self, ChangeInfoView, CherryPickStatus, ConflictInfoView, MergeStatus, RebaseStatus,
};
use crate::git::{GitErrorView, StorageConfigView};
use crate::host::{self, HostCallView, ItemView, OutcomeView, ReplyView, StepView, TreeChangeView};

verus! {

/// The path that a change is about; one that moves a file is about none.
pub open spec fn about(change: TreeChangeView) -> Option<Seq<char>> {
    match change {
        TreeChangeView::Addition { path, mode, oid } => Some(path),
        TreeChangeView::Deletion { path, mode, oid } => Some(path),
        TreeChangeView::Modification { path, old_mode, old_oid, mode, oid } => Some(path),
        TreeChangeView::Rewrite { old_path, old_mode, old_oid, path, mode, oid } => None,
    }
}

/// The object that a change leaves at its path: a deletion leaves none.
pub open spec fn leaves(change: TreeChangeView) -> Option<Seq<char>> {
    match change {
        TreeChangeView::Addition { path, mode, oid } => Some(oid),
        TreeChangeView::Deletion { path, mode, oid } => None,
        TreeChangeView::Modification { path, old_mode, old_oid, mode, oid } => Some(oid),
        TreeChangeView::Rewrite { old_path, old_mode, old_oid, path, mode, oid } => None,
    }
}

/// The object that was at the path of a change before: an addition found none.
pub open spec fn found(change: TreeChangeView) -> Option<Seq<char>> {
    match change {
        TreeChangeView::Addition { path, mode, oid } => None,
        TreeChangeView::Deletion { path, mode, oid } => Some(oid),
        TreeChangeView::Modification { path, old_mode, old_oid, mode, oid } => Some(old_oid),
        TreeChangeView::Rewrite { old_path, old_mode, old_oid, path, mode, oid } => None,
    }
}

/// Whether the change at a position is the last one about a path.
pub open spec fn last_about(changes: Seq<TreeChangeView>, path: Seq<char>, i: int) -> bool {
    &&& 0 <= i < changes.len()
    &&& about(changes[i]) == Some(path)
    &&& forall|j: int| i < j < changes.len() ==> about(#[trigger] changes[j]) != Some(path)
}

/// Whether any change is about a path.
pub open spec fn is_about(changes: Seq<TreeChangeView>, path: Seq<char>) -> bool {
    exists|i: int| 0 <= i < changes.len() && about(#[trigger] changes[i]) == Some(path)
}

/// The last change of a path is that at the last position that is about it.
proof fn lemma_last_change(changes: Seq<TreeChangeView>, path: Seq<char>)
    ensures
        is_about(changes, path) <==> operations::last_change(
            operations::change_infos(changes),
            path,
        ) is Some,
        is_about(changes, path) ==> exists|i: int| #[trigger] last_about(changes, path, i),
        forall|i: int| #[trigger]
            last_about(changes, path, i) ==> operations::last_change(
                operations::change_infos(changes),
                path,
            ) == Some(
                ChangeInfoView { path, old_oid: found(changes[i]), new_oid: leaves(changes[i]) },
            ),
    decreases changes.len(),
{
    let f = |change: TreeChangeView| operations::change_info(change);
    let infos = operations::change_infos(changes);
    if changes.len() == 0 {
        assert(infos.len() == 0);
    } else {
        let rest = changes.drop_last();
        let last = changes[changes.len() - 1];
        let before = operations::change_infos(rest);
        lemma_last_change(rest, path);
        changes.lemma_filter_map_take_succ(f, changes.len() - 1);
        assert(changes.take(changes.len() as int) == changes);
        assert(changes.take(changes.len() - 1) == rest);
        if about(last) is Some {
            let info = operations::change_info(last)->0;
            assert(infos == before.push(info));
            assert(infos.drop_last() == before);
        } else {
            assert(infos == before);
        }
        if about(last) == Some(path) {
            assert(last_about(changes, path, changes.len() - 1));
            assert forall|i: int| #[trigger] last_about(changes, path, i) implies i
                == changes.len() - 1 by {
                assert(about(changes[changes.len() - 1]) == Some(path));
            }
        } else {
            if is_about(changes, path) {
                let i = choose|i: int|
                    0 <= i < changes.len() && about(#[trigger] changes[i]) == Some(path);
                assert(rest[i] == changes[i]);
                assert(is_about(rest, path));
                let n = choose|n: int| #[trigger] last_about(rest, path, n);
                assert(rest[n] == changes[n]);
                assert forall|j: int| n < j < changes.len() implies about(
                    #[trigger] changes[j],
                ) != Some(path) by {
                    if j < rest.len() {
                        assert(rest[j] == changes[j]);
                    }
                }
                assert(last_about(changes, path, n));
            }
            if is_about(rest, path) {
                let i = choose|i: int|
                    0 <= i < rest.len() && about(#[trigger] rest[i]) == Some(path);
                assert(rest[i] == changes[i]);
            }
            assert forall|i: int| #[trigger] last_about(changes, path, i) implies last_about(
                rest,
                path,
                i,
            ) by {
                assert(rest[i] == changes[i]);
                assert forall|j: int| i < j < rest.len() implies about(#[trigger] rest[j]) != Some(
                    path,
                ) by {
                    assert(rest[j] == changes[j]);
                }
            }
        }
    }
}

/// The conflict that two changes make: what each side leaves, and what was there.
pub open spec fn clash(
    path: Seq<char>,
    our: TreeChangeView,
    their: TreeChangeView,
) -> ConflictInfoView {
    ConflictInfoView {
        path,
        ours_oid: leaves(our),
        theirs_oid: leaves(their),
        ancestor_oid: found(our),
    }
}

/// A path is in conflict exactly if both sides change it and what they leave there
/// differs, be it different objects or an object on one side and nothing on the other.
/// The conflict names what each side leaves and what the ancestor had.
pub proof fn law_conflicts_are_exact(
    ours: Seq<TreeChangeView>,
    theirs: Seq<TreeChangeView>,
    conflict: ConflictInfoView,
)
    ensures
        operations::merged_changes(ours, theirs).conflicts.contains(conflict) <==> exists|
            i: int,
            j: int,
        |
            #[trigger] last_about(ours, conflict.path, i) && #[trigger] last_about(
                theirs,
                conflict.path,
                j,
            ) && leaves(ours[i]) != leaves(theirs[j]) && conflict == clash(
                conflict.path,
                ours[i],
                theirs[j],
            ),
{
    let a = operations::change_infos(ours);
    let b = operations::change_infos(theirs);
    let f = |path: Seq<char>| operations::conflict_at(a, b, path);
    let paths = operations::changed_paths(a);
    let path = conflict.path;
    lemma_filter_map_contains(paths, f, conflict);
    lemma_last_change(ours, path);
    lemma_last_change(theirs, path);
    operations::lemma_changed_paths(a, path);
    operations::lemma_changed_paths(b, path);
    if operations::merged_changes(ours, theirs).conflicts.contains(conflict) {
        let n = choose|n: int| 0 <= n < paths.len() && f(#[trigger] paths[n]) == Some(conflict);
        assert(operations::conflict_at(a, b, paths[n]) == Some(conflict));
        let i = choose|i: int| #[trigger] last_about(ours, path, i);
        let j = choose|j: int| #[trigger] last_about(theirs, path, j);
        assert(last_about(ours, path, i) && last_about(theirs, path, j));
    }
    if exists|i: int, j: int|
        #[trigger] last_about(ours, path, i) && #[trigger] last_about(theirs, path, j) && leaves(
            ours[i],
        ) != leaves(theirs[j]) && conflict == clash(path, ours[i], theirs[j]) {
        let (i, j) = choose|i: int, j: int|
            #[trigger] last_about(ours, path, i) && #[trigger] last_about(theirs, path, j)
                && leaves(ours[i]) != leaves(theirs[j]) && conflict == clash(
                path,
                ours[i],
                theirs[j],
            );
        assert(about(ours[i]) == Some(path));
        assert(is_about(ours, path));
        let n = choose|n: int| 0 <= n < paths.len() && paths[n] == path;
        assert(f(paths[n]) == Some(conflict));
    }
}

/// Picking from a list without repetitions by what can be told from the pick repeats
/// nothing.
proof fn lemma_picks_differ<A, B>(
    s: Seq<A>,
    f: spec_fn(A) -> Option<B>,
    key: spec_fn(B) -> A,
)
    requires
        s.no_duplicates(),
        forall|x: A| (#[trigger] f(x)) is Some ==> key(f(x)->0) == x,
    ensures
        s.filter_map(f).map_values(key).no_duplicates(),
    decreases s.len(),
{
    if s.len() > 0 {
        let rest = s.drop_last();
        lemma_picks_differ(rest, f, key);
        s.lemma_filter_map_take_succ(f, s.len() - 1);
        assert(s.take(s.len() as int) == s);
        assert(s.take(s.len() - 1) == rest);
        let before = rest.filter_map(f);
        let after = s.filter_map(f);
        let keys = after.map_values(key);
        if f(s.last()) is Some {
            assert forall|i: int| 0 <= i < before.len() implies key(#[trigger] before[i])
                != s.last() by {
                assert(before.contains(before[i]));
                lemma_filter_map_contains(rest, f, before[i]);
                let n = choose|n: int|
                    0 <= n < rest.len() && f(#[trigger] rest[n]) == Some(before[i]);
                assert(key(before[i]) == rest[n]);
                assert(rest[n] == s[n]);
            }
            assert forall|i: int, j: int| 0 <= i < j < keys.len() implies keys[i] != keys[j] by {
                assert(before.map_values(key)[i] == key(before[i]));
                if j < before.len() {
                    assert(before.map_values(key)[j] == key(before[j]));
                }
            }
        }
    } else {
        assert(s.filter_map(f).len() == 0);
    }
}

/// A merge takes every path that either side changes exactly once: as a conflict where
/// there is one, and as merged otherwise.
pub proof fn law_changes_are_merged_once(
    ours: Seq<TreeChangeView>,
    theirs: Seq<TreeChangeView>,
    path: Seq<char>,
)
    ensures
        ({
            let merge = operations::merged_changes(ours, theirs);
            let clashes = conflict_paths(merge.conflicts);
            &&& merge.merged_files.contains(path) <==> (is_about(ours, path) || is_about(
                theirs,
                path,
            )) && !clashes.contains(path)
            &&& clashes.contains(path) ==> is_about(ours, path) && is_about(theirs, path)
            &&& clashes.no_duplicates()
            &&& merge.merged_files.no_duplicates()
        }),
{
    let a = operations::change_infos(ours);
    let b = operations::change_infos(theirs);
    lemma_last_change(ours, path);
    lemma_last_change(theirs, path);
    super::operations::law_every_change_is_judged_once(a, b, path);
    lemma_conflict_listed(a, b, path);
    operations::lemma_changed_paths_distinct(a);
    operations::lemma_changed_paths_distinct(b);
    let clashing = |p: Seq<char>| operations::conflict_at(a, b, p);
    lemma_picks_differ(
        operations::changed_paths(a),
        clashing,
        |c: ConflictInfoView| c.path,
    );
    let calm = |p: Seq<char>|
        if operations::conflict_at(a, b, p) is None {
            Some(p)
        } else {
            None
        };
    let only_theirs = |p: Seq<char>|
        if operations::last_change(a, p) is None {
            Some(p)
        } else {
            None
        };
    let first = operations::changed_paths(a).filter_map(calm);
    let second = operations::changed_paths(b).filter_map(only_theirs);
    let same = |p: Seq<char>| p;
    lemma_picks_differ(operations::changed_paths(a), calm, same);
    lemma_picks_differ(operations::changed_paths(b), only_theirs, same);
    assert(first.map_values(same) =~= first);
    assert(second.map_values(same) =~= second);
    let merged = operations::merged_of(a, b);
    assert(merged == first + second);
    assert forall|i: int, j: int| 0 <= i < j < merged.len() implies merged[i] != merged[j] by {
        if j < first.len() {
            assert(first[i] != first[j]);
        } else if i >= first.len() {
            assert(second[i - first.len()] != second[j - first.len()]);
        } else {
            let p = merged[i];
            assert(first.contains(first[i]));
            lemma_filter_map_contains(operations::changed_paths(a), calm, first[i]);
            let n = choose|n: int|
                0 <= n < operations::changed_paths(a).len() && calm(
                    #[trigger] operations::changed_paths(a)[n],
                ) == Some(first[i]);
            operations::lemma_changed_paths(a, p);
            assert(operations::changed_paths(a).contains(p));
            let q = second[j - first.len()];
            assert(second.contains(q));
            lemma_filter_map_contains(operations::changed_paths(b), only_theirs, q);
        }
    }
}

/// The tree that the machine has told of a commit.
pub open spec fn tree_told(k: Seq<(HostCallView, ReplyView)>, oid: Seq<char>) -> Option<
    Seq<char>,
> {
    match host::reply_to(k, HostCallView::Commit { oid }) {
        Some(ReplyView::Commit(OutcomeView::Got(record))) => match record.tree {
            OutcomeView::Got(tree) => Some(tree),
            OutcomeView::Error(error) => None,
        },
        _ => None,
    }
}

/// The changes that the machine has told of between two trees.
pub open spec fn changes_told(
    k: Seq<(HostCallView, ReplyView)>,
    old: Seq<char>,
    new: Seq<char>,
) -> Option<Seq<TreeChangeView>> {
    match host::reply_to(k, HostCallView::TreeChanges { old, new }) {
        Some(ReplyView::Changes(OutcomeView::Got(changes))) => Some(changes),
        _ => None,
    }
}

/// The best common ancestor that the machine has told of two commits.
pub open spec fn base_told(
    k: Seq<(HostCallView, ReplyView)>,
    one: Seq<char>,
    two: Seq<char>,
) -> Option<Seq<char>> {
    match host::reply_to(k, HostCallView::MergeBase { one, two }) {
        Some(ReplyView::Text(OutcomeView::Got(oid))) => Some(oid),
        _ => None,
    }
}

/// The object that the machine has told that a revision names.
pub open spec fn revision_told(k: Seq<(HostCallView, ReplyView)>, spec: Seq<char>) -> Option<
    Seq<char>,
> {
    match host::reply_to(k, HostCallView::Revision { spec }) {
        Some(ReplyView::Id(Some(oid))) => Some(oid),
        _ => None,
    }
}

/// Whether trees are merged by what the machine has told of the changes from the tree
/// of one commit to those of two others.
pub open spec fn merges_trees_of(
    k: Seq<(HostCallView, ReplyView)>,
    ancestor: Seq<char>,
    ours: Seq<char>,
    theirs: Seq<char>,
    conflicts: Seq<ConflictInfoView>,
    files: Seq<Seq<char>>,
) -> bool {
    let from = tree_told(k, ancestor);
    let our_tree = tree_told(k, ours);
    let their_tree = tree_told(k, theirs);
    &&& from is Some && our_tree is Some && their_tree is Some
    &&& changes_told(k, from->0, our_tree->0) is Some
    &&& changes_told(k, from->0, their_tree->0) is Some
    &&& ({
        let merge = operations::merged_changes(
            changes_told(k, from->0, our_tree->0)->0,
            changes_told(k, from->0, their_tree->0)->0,
        );
        conflicts == merge.conflicts && files == merge.merged_files
    })
}

/// A merge that is done is that of the commits which the revisions name: nothing to do
/// where they are one, a fast-forward to the head where the base is the common ancestor
/// and that is allowed, and else what the changes from the common ancestor to both come
/// to, in which a conflict is told exactly if there is one.
pub proof fn law_merge_by_what_is_told(
    k: Seq<(HostCallView, ReplyView)>,
    config: StorageConfigView,
    owner: Seq<char>,
    name: Seq<char>,
    base_ref: Seq<char>,
    head_ref: Seq<char>,
    allow_fast_forward: bool,
)
    ensures
        operations::merge(
            k,
            config,
            owner,
            name,
            base_ref,
            head_ref,
            allow_fast_forward,
        ) matches StepView::Done(result) ==> {
            let base = revision_told(k, base_ref)->0;
            let head = revision_told(k, head_ref)->0;
            let ancestor = base_told(k, base, head)->0;
            &&& revision_told(k, base_ref) is Some && revision_told(k, head_ref) is Some
            &&& result.status == MergeStatus::AlreadyUpToDate <==> base == head
            &&& base != head ==> base_told(k, base, head) is Some
            &&& result.status == MergeStatus::FastForward <==> base != head && allow_fast_forward
                && ancestor == base
            &&& result.status == MergeStatus::AlreadyUpToDate ==> result.commit_oid == Some(base)
                && result.conflicts.len() == 0 && result.merged_files.len() == 0
            &&& result.status == MergeStatus::FastForward ==> result.commit_oid == Some(head)
                && result.conflicts.len() == 0 && result.merged_files.len() == 0
            &&& result.status == MergeStatus::Success || result.status == MergeStatus::Conflict
                ==> result.commit_oid is None && merges_trees_of(
                k,
                ancestor,
                base,
                head,
                result.conflicts,
                result.merged_files,
            )
            &&& result.status == MergeStatus::Conflict <==> result.conflicts.len() > 0
        },
{
}

/// A cherry-pick that is done is that of a commit with a parent: what the commit changes
/// since its first parent is merged into the commit that it goes onto. It is a conflict
/// exactly if there is one, and empty exactly if there is none and nothing is merged.
pub proof fn law_cherry_pick_by_what_is_told(
    k: Seq<(HostCallView, ReplyView)>,
    config: StorageConfigView,
    owner: Seq<char>,
    name: Seq<char>,
    commit_ref: Seq<char>,
    onto_ref: Seq<char>,
)
    ensures
        operations::cherry_pick(
            k,
            config,
            owner,
            name,
            commit_ref,
            onto_ref,
        ) matches StepView::Done(result) ==> {
            let commit = revision_told(k, commit_ref)->0;
            let onto = revision_told(k, onto_ref)->0;
            let parents = host::commit(k, HostCallView::Commit { oid: commit })->0->Got_0.parents;
            &&& revision_told(k, commit_ref) is Some && revision_told(k, onto_ref) is Some
            &&& parents.len() > 0
            &&& result.commit_oid is None
            &&& exists|files: Seq<Seq<char>>|
                #[trigger] merges_trees_of(
                    k,
                    parents[0],
                    onto,
                    commit,
                    result.conflicts,
                    files,
                ) && (result.status == CherryPickStatus::EmptyCommit <==> result.conflicts.len()
                    == 0 && files.len() == 0)
            &&& result.status == CherryPickStatus::Conflict <==> result.conflicts.len() > 0
        },
{
    if let StepView::Done(result) = operations::cherry_pick(
        k,
        config,
        owner,
        name,
        commit_ref,
        onto_ref,
    ) {
        let commit = revision_told(k, commit_ref)->0;
        let onto = revision_told(k, onto_ref)->0;
        let parents = host::commit(k, HostCallView::Commit { oid: commit })->0->Got_0.parents;
        let from = tree_told(k, parents[0])->0;
        let merge = operations::merged_changes(
            changes_told(k, from, tree_told(k, onto)->0)->0,
            changes_told(k, from, tree_told(k, commit)->0)->0,
        );
        assert(merges_trees_of(
            k,
            parents[0],
            onto,
            commit,
            result.conflicts,
            merge.merged_files,
        ));
    }
}

/// Whether commits are those of a walk before a base, the oldest first: every one of
/// them, up to the base or to the end of the walk.
pub open spec fn all_before(
    commits: Seq<Seq<char>>,
    steps: Seq<OutcomeView<Seq<char>>>,
    base: Seq<char>,
) -> bool {
    let n = commits.len() as int;
    &&& n <= steps.len()
    &&& forall|i: int|
        0 <= i < n ==> (#[trigger] steps[i]) == OutcomeView::Got(commits[n - 1 - i])
            && commits[n - 1 - i] != base
    &&& n == steps.len() || steps[n] == OutcomeView::Got(base)
}

/// How far [`operations::walked`] goes.
proof fn lemma_walked(steps: Seq<OutcomeView<Seq<char>>>, base: Seq<char>)
    ensures
        ({
            let n = operations::walked(steps, base) as int;
            &&& n <= steps.len()
            &&& forall|i: int|
                0 <= i < n ==> (#[trigger] steps[i]) is Got && steps[i]->Got_0 != base
            &&& n < steps.len() ==> steps[n] is Error || steps[n] == OutcomeView::Got(base)
        }),
    decreases steps.len(),
{
    if steps.len() > 0 && steps[0] is Got && steps[0]->Got_0 != base {
        lemma_walked(steps.skip(1), base);
        assert forall|i: int| 0 <= i < operations::walked(steps, base) implies (
        #[trigger] steps[i]) is Got && steps[i]->Got_0 != base by {
            if i > 0 {
                assert(steps.skip(1)[i - 1] == steps[i]);
            }
        }
    }
}

/// The commits since a base are all those of the walk before it, none left out, the
/// oldest first; a walk that fails before it comes to the base fails the list.
pub proof fn law_commits_since_are_all(steps: Seq<OutcomeView<Seq<char>>>, base: Seq<char>)
    ensures
        match operations::commits_since(steps, base) {
            StepView::Done(commits) => all_before(commits, steps, base),
            StepView::Failed(error) => exists|n: int|
                0 <= n < steps.len() && error == GitErrorView::Gix(
                    (#[trigger] steps[n])->Error_0,
                ) && steps[n] is Error && forall|i: int|
                    0 <= i < n ==> (#[trigger] steps[i]) is Got && steps[i]->Got_0 != base,
            StepView::Ask(calls) => false,
        },
{
    lemma_walked(steps, base);
}

/// A rebase that is done lists every commit of the walk from the branch before the
/// common ancestor, the oldest first. Where there is none, there is nothing to rebase and
/// the head is that of the other side.
pub proof fn law_rebase_by_what_is_told(
    k: Seq<(HostCallView, ReplyView)>,
    config: StorageConfigView,
    owner: Seq<char>,
    name: Seq<char>,
    branch_ref: Seq<char>,
    onto_ref: Seq<char>,
)
    ensures
        operations::rebase(
            k,
            config,
            owner,
            name,
            branch_ref,
            onto_ref,
        ) matches StepView::Done(result) ==> {
            let branch = revision_told(k, branch_ref)->0;
            let onto = revision_told(k, onto_ref)->0;
            let base = base_told(k, branch, onto)->0;
            let walk = HostCallView::Walk { start: branch, until: Some(base), limit: None };
            &&& revision_told(k, branch_ref) is Some && revision_told(k, onto_ref) is Some
            &&& base_told(k, branch, onto) is Some
            &&& base == branch ==> result.rebased_commits.len() == 0
            &&& base != branch ==> {
                let steps = host::reply_to(k, walk)->0->Walk_0->Got_0;
                &&& host::reply_to(k, walk) is Some
                &&& all_before(result.rebased_commits, steps, base)
            }
            &&& result.conflicts.len() == 0
            &&& result.rebased_commits.len() == 0 ==> result.status
                == RebaseStatus::NothingToRebase && result.new_head_oid == Some(onto)
            &&& result.rebased_commits.len() > 0 ==> result.status == RebaseStatus::Success
                && result.new_head_oid is None
        },
{
    if let StepView::Done(result) = operations::rebase(
        k,
        config,
        owner,
        name,
        branch_ref,
        onto_ref,
    ) {
        let branch = revision_told(k, branch_ref)->0;
        let onto = revision_told(k, onto_ref)->0;
        let base = base_told(k, branch, onto)->0;
        let walk = HostCallView::Walk { start: branch, until: Some(base), limit: None };
        if base != branch {
            law_commits_since_are_all(host::reply_to(k, walk)->0->Walk_0->Got_0, base);
        }
    }
}

/// A search for objects tells of each text whether it spells the id of an object that
/// the machine has told to be there.
pub proof fn law_objects_exist_as_told(
    k: Seq<(HostCallView, ReplyView)>,
    config: StorageConfigView,
    owner: Seq<char>,
    name: Seq<char>,
    oids: Seq<Seq<char>>,
)
    ensures
        operations::objects_exist(
            k,
            config,
            owner,
            name,
            oids,
        ) matches StepView::Done(told) ==> told.len() == oids.len() && forall|i: int|
            0 <= i < oids.len() ==> (#[trigger] told[i]).0 == oids[i] && (told[i].1
                <==> objects::object_id(oids[i]) is Some && host::reply_to(
                k,
                HostCallView::ObjectExists { oid: objects::object_id(oids[i])->0 },
            ) == Some(ReplyView::Flag(true))),
{
    let items = oids.map_values(|oid: Seq<char>| operations::existence(k, oid));
    law_gather_done(items);
    if let StepView::Done(told) = operations::objects_exist(k, config, owner, name, oids) {
        assert(host::gather(items) == StepView::<Seq<(Seq<char>, bool)>, GitErrorView>::Done(told));
        assert forall|i: int| 0 <= i < oids.len() implies (#[trigger] told[i]).0 == oids[i] && (
        told[i].1 <==> objects::object_id(oids[i]) is Some && host::reply_to(
            k,
            HostCallView::ObjectExists { oid: objects::object_id(oids[i])->0 },
        ) == Some(ReplyView::Flag(true))) by {
            assert(items[i] == ItemView::<(Seq<char>, bool), GitErrorView>::Value(told[i]));
        }
    }
}

/// An object id is forty hexadecimal digits; what spells one is read in either case.
pub proof fn law_ids_are_forty_digits(hex: Seq<char>)
    ensures
        objects::object_id(hex) is Some <==> hex.len() == 40 && forall|i: int|
            0 <= i < hex.len() ==> ('0' <= #[trigger] hex[i] <= '9' || 'a' <= hex[i] <= 'f' || 'A'
                <= hex[i] <= 'F'),
        objects::object_id(hex) is Some ==> {
            let id = objects::object_id(hex)->0;
            &&& id.len() == 40
            &&& forall|i: int|
                0 <= i < 40 ==> if 'A' <= #[trigger] hex[i] <= 'F' {
                    id[i] as u32 == hex[i] as u32 + 32
                } else {
                    id[i] == hex[i]
                }
        },
{
    if hex.len() == 40 && forall|i: int|
        0 <= i < hex.len() ==> ('0' <= #[trigger] hex[i] <= '9' || 'a' <= hex[i] <= 'f' || 'A'
            <= hex[i] <= 'F') {
        assert forall|i: int| 0 <= i < 40 implies objects::is_hex_digit(#[trigger] hex[i]) by {}
    }
    if objects::object_id(hex) is Some {
        assert forall|i: int| 0 <= i < hex.len() implies ('0' <= #[trigger] hex[i] <= '9' || 'a'
            <= hex[i] <= 'f' || 'A' <= hex[i] <= 'F') by {
            assert(objects::is_hex_digit(hex[i]));
        }
    }
}

} // verus!
