//! Merging, cherry-picking and rebasing.

use vstd::prelude::*;

use super::commits::GitActor;
use super::objects::{self, CommitRecordView};
use super::{lookup, open_repo_by_name};
use super::{GitError, GitErrorView, StorageConfig, StorageConfigView};
use crate::host::{
    self, Gathering, HostCall, HostCallView, ItemView, Outcome, OutcomeView, Replies, ReplyView,
    Step, StepView, TreeChange, TreeChangeView,
};
use crate::text;
use vstd::hash_map::StringHashMap;

verus! {

/// Merges, cherry-picks and rebases.
pub struct OperationsService {
    config: StorageConfig,
}

/// What a merge comes to.
#[derive(Debug, Clone)]
pub struct MergeResult {
    pub commit_oid: Option<String>,
    pub conflicts: Vec<ConflictInfo>,
    pub merged_files: Vec<String>,
    pub status: MergeStatus,
}

/// How a merge ends.
#[derive(Debug, Clone, Copy, PartialEq, Eq, Structural)]
pub enum MergeStatus {
    Success,
    Conflict,
    AlreadyUpToDate,
    FastForward,
}

/// A path that both sides changed, each in its own way.
#[derive(Debug, Clone)]
pub struct ConflictInfo {
    pub path: String,
    pub ours_oid: Option<String>,
    pub theirs_oid: Option<String>,
    pub ancestor_oid: Option<String>,
}

/// What a rebase comes to.
#[derive(Debug, Clone)]
pub struct RebaseResult {
    pub new_head_oid: Option<String>,
    pub rebased_commits: Vec<String>,
    pub conflicts: Vec<ConflictInfo>,
    pub status: RebaseStatus,
}

/// How a rebase ends.
#[derive(Debug, Clone, Copy, PartialEq, Eq, Structural)]
pub enum RebaseStatus {
    Success,
    Conflict,
    NothingToRebase,
}

/// What a cherry-pick comes to.
#[derive(Debug, Clone)]
pub struct CherryPickResult {
    pub commit_oid: Option<String>,
    pub conflicts: Vec<ConflictInfo>,
    pub status: CherryPickStatus,
}

/// How a cherry-pick ends.
#[derive(Debug, Clone, Copy, PartialEq, Eq, Structural)]
pub enum CherryPickStatus {
    Success,
    Conflict,
    EmptyCommit,
}

/// The value of a [`MergeResult`].
pub struct MergeResultView {
    pub commit_oid: Option<Seq<char>>,
    pub conflicts: Seq<ConflictInfoView>,
    pub merged_files: Seq<Seq<char>>,
    pub status: MergeStatus,
}

/// The value of a [`ConflictInfo`].
pub struct ConflictInfoView {
    pub path: Seq<char>,
    pub ours_oid: Option<Seq<char>>,
    pub theirs_oid: Option<Seq<char>>,
    pub ancestor_oid: Option<Seq<char>>,
}

/// The value of a [`RebaseResult`].
pub struct RebaseResultView {
    pub new_head_oid: Option<Seq<char>>,
    pub rebased_commits: Seq<Seq<char>>,
    pub conflicts: Seq<ConflictInfoView>,
    pub status: RebaseStatus,
}

/// The value of a [`CherryPickResult`].
pub struct CherryPickResultView {
    pub commit_oid: Option<Seq<char>>,
    pub conflicts: Seq<ConflictInfoView>,
    pub status: CherryPickStatus,
}

impl DeepView for MergeResult {
    type V = MergeResultView;

    open spec fn deep_view(&self) -> MergeResultView {
        MergeResultView {
            commit_oid: self.commit_oid.deep_view(),
            conflicts: self.conflicts.deep_view(),
            merged_files: self.merged_files.deep_view(),
            status: self.status,
        }
    }
}

impl DeepView for ConflictInfo {
    type V = ConflictInfoView;

    open spec fn deep_view(&self) -> ConflictInfoView {
        ConflictInfoView {
            path: self.path@,
            ours_oid: self.ours_oid.deep_view(),
            theirs_oid: self.theirs_oid.deep_view(),
            ancestor_oid: self.ancestor_oid.deep_view(),
        }
    }
}

impl DeepView for RebaseResult {
    type V = RebaseResultView;

    open spec fn deep_view(&self) -> RebaseResultView {
        RebaseResultView {
            new_head_oid: self.new_head_oid.deep_view(),
            rebased_commits: self.rebased_commits.deep_view(),
            conflicts: self.conflicts.deep_view(),
            status: self.status,
        }
    }
}

impl DeepView for CherryPickResult {
    type V = CherryPickResultView;

    open spec fn deep_view(&self) -> CherryPickResultView {
        CherryPickResultView {
            commit_oid: self.commit_oid.deep_view(),
            conflicts: self.conflicts.deep_view(),
            status: self.status,
        }
    }
}

/// The file that a change is about, before and after it.
pub struct ChangeInfo {
    pub path: String,
    pub old_oid: Option<String>,
    pub new_oid: Option<String>,
}

/// The value of a [`ChangeInfo`].
pub struct ChangeInfoView {
    pub path: Seq<char>,
    pub old_oid: Option<Seq<char>>,
    pub new_oid: Option<Seq<char>>,
}

impl DeepView for ChangeInfo {
    type V = ChangeInfoView;

    open spec fn deep_view(&self) -> ChangeInfoView {
        ChangeInfoView {
            path: self.path@,
            old_oid: self.old_oid.deep_view(),
            new_oid: self.new_oid.deep_view(),
        }
    }
}

/// The file that a change is about; a rewrite is passed over.
pub open spec fn change_info(change: TreeChangeView) -> Option<ChangeInfoView> {
    match change {
        TreeChangeView::Addition { path, oid, .. } => Some(
            ChangeInfoView { path, old_oid: None, new_oid: Some(oid) },
        ),
        TreeChangeView::Deletion { path, oid, .. } => Some(
            ChangeInfoView { path, old_oid: Some(oid), new_oid: None },
        ),
        TreeChangeView::Modification { path, old_oid, oid, .. } => Some(
            ChangeInfoView { path, old_oid: Some(old_oid), new_oid: Some(oid) },
        ),
        TreeChangeView::Rewrite { .. } => None,
    }
}

/// The files that changes are about.
pub open spec fn change_infos(changes: Seq<TreeChangeView>) -> Seq<ChangeInfoView> {
    changes.filter_map(|change: TreeChangeView| change_info(change))
}

/// The last change of a path.
pub open spec fn last_change(infos: Seq<ChangeInfoView>, path: Seq<char>) -> Option<ChangeInfoView>
    decreases infos.len(),
{
    if infos.len() == 0 {
        None
    } else if infos.last().path == path {
        Some(infos.last())
    } else {
        last_change(infos.drop_last(), path)
    }
}

/// The paths that change, each of them once, in the order in which they first
/// come up.
pub open spec fn changed_paths(infos: Seq<ChangeInfoView>) -> Seq<Seq<char>>
    decreases infos.len(),
{
    if infos.len() == 0 {
        Seq::empty()
    } else {
        let paths = changed_paths(infos.drop_last());
        if paths.contains(infos.last().path) {
            paths
        } else {
            paths.push(infos.last().path)
        }
    }
}

/// The conflict at a path, if both sides change it and leave different objects
/// there.
pub open spec fn conflict_at(
    ours: Seq<ChangeInfoView>,
    theirs: Seq<ChangeInfoView>,
    path: Seq<char>,
) -> Option<ConflictInfoView> {
    match (last_change(ours, path), last_change(theirs, path)) {
        (Some(our), Some(their)) => if our.new_oid == their.new_oid {
            None
        } else {
            Some(
                ConflictInfoView {
                    path,
                    ours_oid: our.new_oid,
                    theirs_oid: their.new_oid,
                    ancestor_oid: our.old_oid,
                },
            )
        },
        _ => None,
    }
}

/// The conflicts between two sides.
pub open spec fn conflicts_of(ours: Seq<ChangeInfoView>, theirs: Seq<ChangeInfoView>) -> Seq<
    ConflictInfoView,
> {
    changed_paths(ours).filter_map(|path: Seq<char>| conflict_at(ours, theirs, path))
}

/// The paths that two sides change without a conflict: first those that our
/// side changes, then those that only theirs does.
pub open spec fn merged_of(ours: Seq<ChangeInfoView>, theirs: Seq<ChangeInfoView>) -> Seq<
    Seq<char>,
> {
    changed_paths(ours).filter_map(
        |path: Seq<char>|
            if conflict_at(ours, theirs, path) is None {
                Some(path)
            } else {
                None
            },
    ) + changed_paths(theirs).filter_map(
        |path: Seq<char>|
            if last_change(ours, path) is None {
                Some(path)
            } else {
                None
            },
    )
}

/// A path changes exactly if it has a last change.
pub proof fn lemma_changed_paths(infos: Seq<ChangeInfoView>, path: Seq<char>)
    ensures
        changed_paths(infos).contains(path) <==> last_change(infos, path) is Some,
        last_change(infos, path) is Some ==> last_change(infos, path)->0.path == path,
    decreases infos.len(),
{
    if infos.len() > 0 {
        let rest = infos.drop_last();
        lemma_changed_paths(rest, path);
        lemma_changed_paths(rest, infos.last().path);
        let before = changed_paths(rest);
        let after = changed_paths(infos);
        if !before.contains(infos.last().path) {
            assert(after.last() == infos.last().path);
            if before.contains(path) {
                let k = choose|k: int| 0 <= k < before.len() && before[k] == path;
                assert(after[k] == path);
            }
            if after.contains(path) && path != infos.last().path {
                let k = choose|k: int| 0 <= k < after.len() && after[k] == path;
                assert(before[k] == path);
            }
        }
    }
}

/// No path is listed twice.
pub proof fn lemma_changed_paths_distinct(infos: Seq<ChangeInfoView>)
    ensures
        changed_paths(infos).no_duplicates(),
    decreases infos.len(),
{
    if infos.len() > 0 {
        lemma_changed_paths_distinct(infos.drop_last());
    }
}

/// The file that a change is about, [`change_info`].
fn info_of(change: &TreeChange) -> (r: Option<ChangeInfo>)
    ensures
        r.deep_view() == change_info(change.deep_view()),
{
    match change {
        TreeChange::Addition { path, oid, .. } => Some(
            ChangeInfo { path: path.clone(), old_oid: None, new_oid: Some(oid.clone()) },
        ),
        TreeChange::Deletion { path, oid, .. } => Some(
            ChangeInfo { path: path.clone(), old_oid: Some(oid.clone()), new_oid: None },
        ),
        TreeChange::Modification { path, old_oid, oid, .. } => Some(
            ChangeInfo {
                path: path.clone(),
                old_oid: Some(old_oid.clone()),
                new_oid: Some(oid.clone()),
            },
        ),
        TreeChange::Rewrite { .. } => None,
    }
}

/// The last change of each path, and the paths in order.
struct Latest {
    order: Vec<String>,
    changes: StringHashMap<ChangeInfo>,
}

impl Latest {
    /// Whether this holds the last change of each path in a list of changes.
    spec fn stands_for(self, infos: Seq<ChangeInfoView>) -> bool {
        &&& self.order.deep_view() == changed_paths(infos)
        &&& forall|path: Seq<char>| #[trigger]
            self.changes@.contains_key(path) <==> last_change(infos, path) is Some
        &&& forall|path: Seq<char>| #[trigger]
            self.changes@.contains_key(path) ==> last_change(infos, path) == Some(
                self.changes@[path].deep_view(),
            )
    }

    /// The last change of each path.
    fn of(changes: &Vec<TreeChange>) -> (r: Self)
        ensures
            r.stands_for(change_infos(changes.deep_view())),
    {
        let ghost all = changes.deep_view();
        let ghost f = |change: TreeChangeView| change_info(change);
        let mut latest = Latest { order: Vec::new(), changes: StringHashMap::new() };
        let mut i: usize = 0;
        proof {
            assert(change_infos(all.take(0)) == Seq::<ChangeInfoView>::empty());
            assert(latest.order.deep_view() =~= Seq::<Seq<char>>::empty());
        }
        while i < changes.len()
            invariant
                i <= changes@.len(),
                all == changes.deep_view(),
                all.len() == changes@.len(),
                f == |change: TreeChangeView| change_info(change),
                latest.stands_for(change_infos(all.take(i as int))),
            decreases changes.len() - i,
        {
            let ghost infos = change_infos(all.take(i as int));
            let ghost next = change_infos(all.take(i + 1));
            proof {
                all.lemma_filter_map_take_succ(f, i as int);
                assert(all[i as int] == changes@[i as int].deep_view());
            }
            match info_of(&changes[i]) {
                Some(info) => {
                    let ghost value = info.deep_view();
                    let ghost order = latest.order.deep_view();
                    proof {
                        assert(next == infos.push(value));
                        assert(next.drop_last() == infos);
                        lemma_changed_paths(infos, value.path);
                    }
                    if !latest.changes.contains_key(&info.path) {
                        latest.order.push(info.path.clone());
                        assert(latest.order.deep_view() =~= order.push(value.path));
                    }
                    latest.changes.insert(info.path.clone(), info);
                    proof {
                        assert forall|path: Seq<char>| #[trigger]
                            latest.changes@.contains_key(path) implies last_change(next, path)
                            == Some(latest.changes@[path].deep_view()) by {
                            if path != value.path {
                                assert(last_change(infos, path) is Some);
                            }
                        }
                    }
                },
                None => {
                    assert(next == infos);
                },
            }
            i = i + 1;
        }
        assert(all.take(i as int) == all);
        latest
    }
}

/// What the merge of two sides comes to.
pub struct TreeMergeResult {
    pub conflicts: Vec<ConflictInfo>,
    pub merged_files: Vec<String>,
}

/// The value of a [`TreeMergeResult`].
pub struct TreeMergeView {
    pub conflicts: Seq<ConflictInfoView>,
    pub merged_files: Seq<Seq<char>>,
}

impl DeepView for TreeMergeResult {
    type V = TreeMergeView;

    open spec fn deep_view(&self) -> TreeMergeView {
        TreeMergeView {
            conflicts: self.conflicts.deep_view(),
            merged_files: self.merged_files.deep_view(),
        }
    }
}

/// The merge of two sides' changes to one tree.
pub open spec fn merged_changes(
    our_changes: Seq<TreeChangeView>,
    their_changes: Seq<TreeChangeView>,
) -> TreeMergeView {
    let ours = change_infos(our_changes);
    let theirs = change_infos(their_changes);
    TreeMergeView { conflicts: conflicts_of(ours, theirs), merged_files: merged_of(ours, theirs) }
}

/// Whether two options hold the same text, or neither holds one.
fn same_object(a: &Option<String>, b: &Option<String>) -> (r: bool)
    ensures
        r == (a.deep_view() == b.deep_view()),
{
    match (a, b) {
        (Some(x), Some(y)) => text::same(x, y),
        (None, None) => true,
        _ => false,
    }
}

/// An optional text once more.
fn copy_option(a: &Option<String>) -> (r: Option<String>)
    ensures
        r.deep_view() == a.deep_view(),
{
    match a {
        Some(x) => Some(x.clone()),
        None => None,
    }
}

/// The conflict at a path, [`conflict_at`].
fn find_conflict(
    our: &Latest,
    their: &Latest,
    path: &String,
    Ghost(ours): Ghost<Seq<ChangeInfoView>>,
    Ghost(theirs): Ghost<Seq<ChangeInfoView>>,
) -> (r: Option<ConflictInfo>)
    requires
        our.stands_for(ours),
        their.stands_for(theirs),
    ensures
        r.deep_view() == conflict_at(ours, theirs, path@),
{
    match (our.changes.get(path), their.changes.get(path)) {
        (Some(our_change), Some(their_change)) => {
            if same_object(&our_change.new_oid, &their_change.new_oid) {
                None
            } else {
                Some(
                    ConflictInfo {
                        path: path.clone(),
                        ours_oid: copy_option(&our_change.new_oid),
                        theirs_oid: copy_option(&their_change.new_oid),
                        ancestor_oid: copy_option(&our_change.old_oid),
                    },
                )
            }
        },
        _ => None,
    }
}

/// Merges two sides' changes to one tree, [`merged_changes`].
pub fn merge_changes(our_changes: &Vec<TreeChange>, their_changes: &Vec<TreeChange>) -> (r:
    TreeMergeResult)
    ensures
        r.deep_view() == merged_changes(our_changes.deep_view(), their_changes.deep_view()),
{
    let ghost ours = change_infos(our_changes.deep_view());
    let ghost theirs = change_infos(their_changes.deep_view());
    let our = Latest::of(our_changes);
    let their = Latest::of(their_changes);
    let mut conflicts: Vec<ConflictInfo> = Vec::new();
    let mut merged: Vec<String> = Vec::new();
    let ghost clash = |path: Seq<char>| conflict_at(ours, theirs, path);
    let ghost calm = |path: Seq<char>|
        if conflict_at(ours, theirs, path) is None {
            Some(path)
        } else {
            None
        };
    let ghost only_theirs = |path: Seq<char>|
        if last_change(ours, path) is None {
            Some(path)
        } else {
            None
        };
    let ghost our_paths = changed_paths(ours);
    let ghost their_paths = changed_paths(theirs);
    let mut i: usize = 0;
    proof {
        assert(conflicts.deep_view() =~= our_paths.take(0).filter_map(clash));
        assert(merged.deep_view() =~= our_paths.take(0).filter_map(calm));
    }
    while i < our.order.len()
        invariant
            i <= our.order@.len(),
            our.stands_for(ours),
            their.stands_for(theirs),
            our_paths == changed_paths(ours),
            clash == |path: Seq<char>| conflict_at(ours, theirs, path),
            calm == |path: Seq<char>|
                if conflict_at(ours, theirs, path) is None {
                    Some(path)
                } else {
                    None
                },
            conflicts.deep_view() == our_paths.take(i as int).filter_map(clash),
            merged.deep_view() == our_paths.take(i as int).filter_map(calm),
        decreases our.order.len() - i,
    {
        let ghost conflicts_before = conflicts.deep_view();
        let ghost merged_before = merged.deep_view();
        let path = &our.order[i];
        proof {
            assert(our_paths[i as int] == path@);
            our_paths.lemma_filter_map_take_succ(clash, i as int);
            our_paths.lemma_filter_map_take_succ(calm, i as int);
        }
        match find_conflict(&our, &their, path, Ghost(ours), Ghost(theirs)) {
            Some(conflict) => {
                conflicts.push(conflict);
                assert(conflicts.deep_view() =~= conflicts_before + seq![conflict.deep_view()]);
            },
            None => {
                merged.push(path.clone());
                assert(merged.deep_view() =~= merged_before + seq![path@]);
            },
        }
        i = i + 1;
    }
    assert(our_paths.take(i as int) == our_paths);
    let ghost from_ours = merged.deep_view();
    let mut j: usize = 0;
    assert(merged.deep_view() =~= from_ours + their_paths.take(0).filter_map(only_theirs));
    while j < their.order.len()
        invariant
            j <= their.order@.len(),
            our.stands_for(ours),
            their.stands_for(theirs),
            their_paths == changed_paths(theirs),
            only_theirs == |path: Seq<char>|
                if last_change(ours, path) is None {
                    Some(path)
                } else {
                    None
                },
            merged.deep_view() == from_ours + their_paths.take(j as int).filter_map(only_theirs),
        decreases their.order.len() - j,
    {
        let ghost merged_before = merged.deep_view();
        let path = &their.order[j];
        proof {
            assert(their_paths[j as int] == path@);
            their_paths.lemma_filter_map_take_succ(only_theirs, j as int);
        }
        if !our.changes.contains_key(path) {
            merged.push(path.clone());
            assert(merged.deep_view() =~= merged_before + seq![path@]);
        }
        j = j + 1;
    }
    assert(their_paths.take(j as int) == their_paths);
    TreeMergeResult { conflicts, merged_files: merged }
}

/// The merge of two trees that come from one.
pub open spec fn merged_trees(
    k: Seq<(HostCallView, ReplyView)>,
    ancestor: Seq<char>,
    ours: Seq<char>,
    theirs: Seq<char>,
) -> StepView<TreeMergeView, GitErrorView> {
    host::chain(
        lookup::changes_between(k, ancestor, ours),
        |our_changes: Seq<TreeChangeView>|
            host::chain(
                lookup::changes_between(k, ancestor, theirs),
                |their_changes: Seq<TreeChangeView>|
                    StepView::Done(merged_changes(our_changes, their_changes)),
            ),
    )
}

/// The merge that leaves a commit as it is.
pub open spec fn settled(commit: Seq<char>, status: MergeStatus) -> MergeResultView {
    MergeResultView {
        commit_oid: Some(commit),
        conflicts: Seq::empty(),
        merged_files: Seq::empty(),
        status,
    }
}

/// What a merge of trees makes of a merge.
pub open spec fn merge_outcome(merge: TreeMergeView) -> MergeResultView {
    MergeResultView {
        commit_oid: None,
        conflicts: merge.conflicts,
        merged_files: merge.merged_files,
        status: if merge.conflicts.len() > 0 {
            MergeStatus::Conflict
        } else {
            MergeStatus::Success
        },
    }
}

/// The merge of two commits by way of the trees that they and their base have.
pub open spec fn three_way(
    k: Seq<(HostCallView, ReplyView)>,
    base: Seq<char>,
    head: Seq<char>,
    ancestor: Seq<char>,
) -> StepView<TreeMergeView, GitErrorView> {
    host::chain(
        lookup::commit_at(k, base),
        |base_commit: CommitRecordView|
            host::chain(
                lookup::commit_at(k, head),
                |head_commit: CommitRecordView|
                    host::chain(
                        lookup::commit_at(k, ancestor),
                        |ancestor_commit: CommitRecordView|
                            host::chain(
                                lookup::root_of(k, base_commit),
                                |base_tree: Seq<char>|
                                    host::chain(
                                        lookup::root_of(k, head_commit),
                                        |head_tree: Seq<char>|
                                            host::chain(
                                                lookup::root_of(k, ancestor_commit),
                                                |ancestor_tree: Seq<char>|
                                                    merged_trees(
                                                        k,
                                                        ancestor_tree,
                                                        base_tree,
                                                        head_tree,
                                                    ),
                                            ),
                                    ),
                            ),
                    ),
            ),
    )
}

/// The merge of one commit into another: nothing to do where they are the same,
/// a fast-forward where the first is an ancestor of the second and that is
/// allowed, and otherwise a merge of their trees.
pub open spec fn merged_commits(
    k: Seq<(HostCallView, ReplyView)>,
    base: Seq<char>,
    head: Seq<char>,
    allow_fast_forward: bool,
) -> StepView<MergeResultView, GitErrorView> {
    if base == head {
        StepView::Done(settled(base, MergeStatus::AlreadyUpToDate))
    } else {
        host::chain(
            lookup::base_of(k, base, head),
            |ancestor: Seq<char>|
                if allow_fast_forward && ancestor == base {
                    StepView::Done(settled(head, MergeStatus::FastForward))
                } else {
                    host::chain(
                        three_way(k, base, head, ancestor),
                        |merge: TreeMergeView| StepView::Done(merge_outcome(merge)),
                    )
                },
        )
    }
}

/// The merge of one revision into another.
pub open spec fn merge(
    k: Seq<(HostCallView, ReplyView)>,
    config: StorageConfigView,
    owner: Seq<char>,
    name: Seq<char>,
    base_ref: Seq<char>,
    head_ref: Seq<char>,
    allow_fast_forward: bool,
) -> StepView<MergeResultView, GitErrorView> {
    host::chain(
        super::opened(k, config, owner, name),
        |open: ()|
            host::chain(
                lookup::resolved(k, base_ref),
                |base: Seq<char>|
                    host::chain(
                        lookup::resolved(k, head_ref),
                        |head: Seq<char>| merged_commits(k, base, head, allow_fast_forward),
                    ),
            ),
    )
}

/// What a merge of trees makes of a cherry-pick.
pub open spec fn pick_outcome(merge: TreeMergeView) -> CherryPickResultView {
    CherryPickResultView {
        commit_oid: None,
        conflicts: merge.conflicts,
        status: if merge.conflicts.len() > 0 {
            CherryPickStatus::Conflict
        } else if merge.merged_files.len() == 0 {
            CherryPickStatus::EmptyCommit
        } else {
            CherryPickStatus::Success
        },
    }
}

/// The cherry-pick of a commit that has a parent: what the commit changed since
/// its first parent is merged into the tree of the commit it goes onto.
pub open spec fn picked_commit(
    k: Seq<(HostCallView, ReplyView)>,
    commit: CommitRecordView,
    onto: CommitRecordView,
) -> StepView<CherryPickResultView, GitErrorView> {
    host::chain(
        lookup::commit_at(k, commit.parents[0]),
        |parent: CommitRecordView|
            host::chain(
                lookup::root_of(k, parent),
                |parent_tree: Seq<char>|
                    host::chain(
                        lookup::root_of(k, commit),
                        |commit_tree: Seq<char>|
                            host::chain(
                                lookup::root_of(k, onto),
                                |onto_tree: Seq<char>|
                                    host::chain(
                                        merged_trees(k, parent_tree, onto_tree, commit_tree),
                                        |merge: TreeMergeView| StepView::Done(pick_outcome(merge)),
                                    ),
                            ),
                    ),
            ),
    )
}

/// The cherry-pick of one revision onto another.
pub open spec fn cherry_pick(
    k: Seq<(HostCallView, ReplyView)>,
    config: StorageConfigView,
    owner: Seq<char>,
    name: Seq<char>,
    commit_ref: Seq<char>,
    onto_ref: Seq<char>,
) -> StepView<CherryPickResultView, GitErrorView> {
    host::chain(
        super::opened(k, config, owner, name),
        |open: ()|
            host::chain(
                lookup::resolved(k, commit_ref),
                |commit_id: Seq<char>|
                    host::chain(
                        lookup::resolved(k, onto_ref),
                        |onto_id: Seq<char>|
                            host::chain(
                                lookup::commit_at(k, commit_id),
                                |commit: CommitRecordView|
                                    host::chain(
                                        lookup::commit_at(k, onto_id),
                                        |onto: CommitRecordView|
                                            if commit.parents.len() == 0 {
                                                StepView::Failed(
                                                    GitErrorView::Internal(
                                                        "Cannot cherry-pick initial commit"@,
                                                    ),
                                                )
                                            } else {
                                                picked_commit(k, commit, onto)
                                            },
                                    ),
                            ),
                    ),
            ),
    )
}

/// The number of commits in a walk before one that could not be read or that is
/// `base`.
pub open spec fn walked(steps: Seq<OutcomeView<Seq<char>>>, base: Seq<char>) -> nat
    decreases steps.len(),
{
    if steps.len() == 0 || steps[0] is Error || steps[0]->Got_0 == base {
        0
    } else {
        1 + walked(steps.skip(1), base)
    }
}

/// The commits of a walk before `base`, oldest first, unless one of them could
/// not be read.
pub open spec fn commits_since(steps: Seq<OutcomeView<Seq<char>>>, base: Seq<char>) -> StepView<
    Seq<Seq<char>>,
    GitErrorView,
> {
    let n = walked(steps, base);
    if n < steps.len() && steps[n as int] is Error {
        StepView::Failed(GitErrorView::Gix(steps[n as int]->Error_0))
    } else {
        StepView::Done(Seq::new(n, |i: int| steps[n - 1 - i]->Got_0))
    }
}

/// What the commits to be rebased make of a rebase.
pub open spec fn rebase_outcome(onto: Seq<char>, commits: Seq<Seq<char>>) -> RebaseResultView {
    if commits.len() == 0 {
        RebaseResultView {
            new_head_oid: Some(onto),
            rebased_commits: Seq::empty(),
            conflicts: Seq::empty(),
            status: RebaseStatus::NothingToRebase,
        }
    } else {
        RebaseResultView {
            new_head_oid: None,
            rebased_commits: commits,
            conflicts: Seq::empty(),
            status: RebaseStatus::Success,
        }
    }
}

/// The rebase of one commit onto another: the commits since their base.
pub open spec fn rebased_commits(
    k: Seq<(HostCallView, ReplyView)>,
    branch: Seq<char>,
    onto: Seq<char>,
) -> StepView<RebaseResultView, GitErrorView> {
    host::chain(
        lookup::base_of(k, branch, onto),
        |base: Seq<char>|
            if base == branch {
                StepView::Done(rebase_outcome(onto, Seq::empty()))
            } else {
                let call = HostCallView::Walk { start: branch, until: Some(base), limit: None };
                host::await_reply(
                    host::walk(k, call),
                    call,
                    |walk: OutcomeView<Seq<OutcomeView<Seq<char>>>>|
                        host::chain(
                            lookup::got_or_gix(walk),
                            |steps: Seq<OutcomeView<Seq<char>>>|
                                host::chain(
                                    commits_since(steps, base),
                                    |commits: Seq<Seq<char>>|
                                        StepView::Done(rebase_outcome(onto, commits)),
                                ),
                        ),
                )
            },
    )
}

/// The rebase of one revision onto another.
pub open spec fn rebase(
    k: Seq<(HostCallView, ReplyView)>,
    config: StorageConfigView,
    owner: Seq<char>,
    name: Seq<char>,
    branch_ref: Seq<char>,
    onto_ref: Seq<char>,
) -> StepView<RebaseResultView, GitErrorView> {
    host::chain(
        super::opened(k, config, owner, name),
        |open: ()|
            host::chain(
                lookup::resolved(k, branch_ref),
                |branch: Seq<char>|
                    host::chain(
                        lookup::resolved(k, onto_ref),
                        |onto: Seq<char>| rebased_commits(k, branch, onto),
                    ),
            ),
    )
}

/// Whether there is an object with an id; what is no id names no object.
pub open spec fn existence(k: Seq<(HostCallView, ReplyView)>, oid: Seq<char>) -> ItemView<
    (Seq<char>, bool),
    GitErrorView,
> {
    match objects::object_id(oid) {
        None => ItemView::Value((oid, false)),
        Some(id) => {
            let call = HostCallView::ObjectExists { oid: id };
            match host::flag(k, call) {
                None => ItemView::Need(call),
                Some(exists) => ItemView::Value((oid, exists)),
            }
        },
    }
}

/// Which of the given objects exist.
pub open spec fn objects_exist(
    k: Seq<(HostCallView, ReplyView)>,
    config: StorageConfigView,
    owner: Seq<char>,
    name: Seq<char>,
    oids: Seq<Seq<char>>,
) -> StepView<Seq<(Seq<char>, bool)>, GitErrorView> {
    host::chain(
        super::opened(k, config, owner, name),
        |open: ()| host::gather(oids.map_values(|oid: Seq<char>| existence(k, oid))),
    )
}

/// Where a walk stops.
proof fn lemma_walked(steps: Seq<OutcomeView<Seq<char>>>, base: Seq<char>, n: nat)
    requires
        n <= steps.len(),
        forall|i: int|
            0 <= i < n ==> (#[trigger] steps[i]) is Got && steps[i]->Got_0 != base,
        n < steps.len() ==> steps[n as int] is Error || steps[n as int]->Got_0 == base,
    ensures
        walked(steps, base) == n,
    decreases n,
{
    if n > 0 {
        let rest = steps.skip(1);
        assert(steps[0] is Got);
        assert forall|i: int| 0 <= i < n - 1 implies (#[trigger] rest[i]) is Got && rest[i]->Got_0
            != base by {
            assert(steps[i + 1] is Got);
        }
        lemma_walked(rest, base, (n - 1) as nat);
    }
}

/// The commits of a walk before `base`, [`commits_since`].
fn list_commits_since(steps: &Vec<Outcome<String>>, base: &str) -> (r: Step<Vec<String>, GitError>)
    ensures
        r.deep_view() == commits_since(steps.deep_view(), base@),
{
    let ghost all = steps.deep_view();
    let mut n: usize = 0;
    let mut stopped = false;
    while n < steps.len() && !stopped
        invariant
            n <= steps@.len(),
            all == steps.deep_view(),
            all.len() == steps@.len(),
            forall|i: int| 0 <= i < n ==> (#[trigger] all[i]) is Got && all[i]->Got_0 != base@,
            stopped ==> n < steps@.len() && all[n as int] is Got && all[n as int]->Got_0 == base@,
        decreases steps.len() - n + (if stopped { 0int } else { 1 }),
    {
        assert(all[n as int] == steps@[n as int].deep_view());
        match &steps[n] {
            Outcome::Error(error) => {
                proof {
                    lemma_walked(all, base@, n as nat);
                }
                return Step::Failed(GitError::Gix(error.clone()));
            },
            Outcome::Got(id) => {
                if text::same(id, base) {
                    stopped = true;
                } else {
                    n = n + 1;
                }
            },
        }
    }
    proof {
        lemma_walked(all, base@, n as nat);
    }
    let mut commits: Vec<String> = Vec::new();
    let mut left: usize = n;
    while left > 0
        invariant
            left <= n <= steps@.len(),
            all == steps.deep_view(),
            all.len() == steps@.len(),
            forall|i: int| 0 <= i < n ==> (#[trigger] all[i]) is Got,
            commits@.len() == n - left,
            forall|i: int| 0 <= i < n - left ==> (#[trigger] commits@[i])@ == all[n - 1 - i]->Got_0,
        decreases left,
    {
        left = left - 1;
        assert(all[left as int] == steps@[left as int].deep_view());
        match &steps[left] {
            Outcome::Got(id) => commits.push(id.clone()),
            Outcome::Error(_) => {},
        }
    }
    assert(commits.deep_view() =~= Seq::new(n as nat, |i: int| all[n - 1 - i]->Got_0));
    Step::Done(commits)
}

impl OperationsService {
    /// The configuration that the service works with.
    pub closed spec fn config(&self) -> StorageConfigView {
        self.config.deep_view()
    }

    /// The service for a configuration.
    pub fn new(config: StorageConfig) -> (r: Self)
        ensures
            r.config() == config.deep_view(),
    {
        OperationsService { config }
    }

    /// Merges one revision into another, [`merge`]. No commit is made of it, so
    /// neither its author nor its message matter.
    pub fn merge(
        &self,
        owner: &str,
        name: &str,
        base_ref: &str,
        head_ref: &str,
        _author: &GitActor,
        _message: Option<&str>,
        allow_fast_forward: bool,
        replies: &Replies,
    ) -> (r: Step<MergeResult, GitError>)
        ensures
            r.deep_view() == merge(
                replies.deep_view(),
                self.config(),
                owner@,
                name@,
                base_ref@,
                head_ref@,
                allow_fast_forward,
            ),
    {
        match open_repo_by_name(&self.config, owner, name, replies) {
            Step::Ask(calls) => return Step::Ask(calls),
            Step::Failed(error) => return Step::Failed(error),
            Step::Done(_) => {},
        }
        let base = match lookup::resolve(replies, base_ref) {
            Step::Ask(calls) => return Step::Ask(calls),
            Step::Failed(error) => return Step::Failed(error),
            Step::Done(base) => base,
        };
        let head = match lookup::resolve(replies, head_ref) {
            Step::Ask(calls) => return Step::Ask(calls),
            Step::Failed(error) => return Step::Failed(error),
            Step::Done(head) => head,
        };
        if text::same(&base, &head) {
            return Step::Done(settle(base, MergeStatus::AlreadyUpToDate));
        }
        let ancestor = match lookup::merge_base(replies, &base, &head) {
            Step::Ask(calls) => return Step::Ask(calls),
            Step::Failed(error) => return Step::Failed(error),
            Step::Done(ancestor) => ancestor,
        };
        if allow_fast_forward && text::same(&ancestor, &base) {
            return Step::Done(settle(head, MergeStatus::FastForward));
        }
        let merge = match merge_three_way(replies, &base, &head, &ancestor) {
            Step::Ask(calls) => return Step::Ask(calls),
            Step::Failed(error) => return Step::Failed(error),
            Step::Done(merge) => merge,
        };
        assert(merge.conflicts.deep_view().len() == merge.conflicts@.len());
        let status = if merge.conflicts.len() > 0 {
            MergeStatus::Conflict
        } else {
            MergeStatus::Success
        };
        Step::Done(
            MergeResult {
                commit_oid: None,
                conflicts: merge.conflicts,
                merged_files: merge.merged_files,
                status,
            },
        )
    }

    /// Cherry-picks one revision onto another, [`cherry_pick`]. No commit is
    /// made of it, so its author does not matter.
    pub fn cherry_pick(
        &self,
        owner: &str,
        name: &str,
        commit_ref: &str,
        onto_ref: &str,
        _author: Option<&GitActor>,
        replies: &Replies,
    ) -> (r: Step<CherryPickResult, GitError>)
        ensures
            r.deep_view() == cherry_pick(
                replies.deep_view(),
                self.config(),
                owner@,
                name@,
                commit_ref@,
                onto_ref@,
            ),
    {
        match open_repo_by_name(&self.config, owner, name, replies) {
            Step::Ask(calls) => return Step::Ask(calls),
            Step::Failed(error) => return Step::Failed(error),
            Step::Done(_) => {},
        }
        let commit_id = match lookup::resolve(replies, commit_ref) {
            Step::Ask(calls) => return Step::Ask(calls),
            Step::Failed(error) => return Step::Failed(error),
            Step::Done(id) => id,
        };
        let onto_id = match lookup::resolve(replies, onto_ref) {
            Step::Ask(calls) => return Step::Ask(calls),
            Step::Failed(error) => return Step::Failed(error),
            Step::Done(id) => id,
        };
        let commit = match lookup::find_commit(replies, &commit_id) {
            Step::Ask(calls) => return Step::Ask(calls),
            Step::Failed(error) => return Step::Failed(error),
            Step::Done(commit) => commit,
        };
        let onto = match lookup::find_commit(replies, &onto_id) {
            Step::Ask(calls) => return Step::Ask(calls),
            Step::Failed(error) => return Step::Failed(error),
            Step::Done(commit) => commit,
        };
        assert(commit.deep_view().parents.len() == commit.parents@.len());
        if commit.parents.len() == 0 {
            return Step::Failed(
                GitError::Internal("Cannot cherry-pick initial commit".to_owned()),
            );
        }
        assert(commit.deep_view().parents[0] == commit.parents@[0]@);
        let parent = match lookup::find_commit(replies, &commit.parents[0]) {
            Step::Ask(calls) => return Step::Ask(calls),
            Step::Failed(error) => return Step::Failed(error),
            Step::Done(commit) => commit,
        };
        let parent_tree = match lookup::root_tree(replies, parent) {
            Step::Ask(calls) => return Step::Ask(calls),
            Step::Failed(error) => return Step::Failed(error),
            Step::Done(tree) => tree,
        };
        let commit_tree = match lookup::root_tree(replies, commit) {
            Step::Ask(calls) => return Step::Ask(calls),
            Step::Failed(error) => return Step::Failed(error),
            Step::Done(tree) => tree,
        };
        let onto_tree = match lookup::root_tree(replies, onto) {
            Step::Ask(calls) => return Step::Ask(calls),
            Step::Failed(error) => return Step::Failed(error),
            Step::Done(tree) => tree,
        };
        let merge = match merge_trees(replies, &parent_tree, &onto_tree, &commit_tree) {
            Step::Ask(calls) => return Step::Ask(calls),
            Step::Failed(error) => return Step::Failed(error),
            Step::Done(merge) => merge,
        };
        assert(merge.conflicts.deep_view().len() == merge.conflicts@.len());
        assert(merge.merged_files.deep_view().len() == merge.merged_files@.len());
        let status = if merge.conflicts.len() > 0 {
            CherryPickStatus::Conflict
        } else if merge.merged_files.len() == 0 {
            CherryPickStatus::EmptyCommit
        } else {
            CherryPickStatus::Success
        };
        Step::Done(CherryPickResult { commit_oid: None, conflicts: merge.conflicts, status })
    }

    /// Rebases one revision onto another, [`rebase`]. No commits are made of
    /// it, so its author does not matter.
    pub fn rebase(
        &self,
        owner: &str,
        name: &str,
        branch_ref: &str,
        onto_ref: &str,
        _author: Option<&GitActor>,
        replies: &Replies,
    ) -> (r: Step<RebaseResult, GitError>)
        ensures
            r.deep_view() == rebase(
                replies.deep_view(),
                self.config(),
                owner@,
                name@,
                branch_ref@,
                onto_ref@,
            ),
    {
        match open_repo_by_name(&self.config, owner, name, replies) {
            Step::Ask(calls) => return Step::Ask(calls),
            Step::Failed(error) => return Step::Failed(error),
            Step::Done(_) => {},
        }
        let branch = match lookup::resolve(replies, branch_ref) {
            Step::Ask(calls) => return Step::Ask(calls),
            Step::Failed(error) => return Step::Failed(error),
            Step::Done(id) => id,
        };
        let onto = match lookup::resolve(replies, onto_ref) {
            Step::Ask(calls) => return Step::Ask(calls),
            Step::Failed(error) => return Step::Failed(error),
            Step::Done(id) => id,
        };
        let base = match lookup::merge_base(replies, &branch, &onto) {
            Step::Ask(calls) => return Step::Ask(calls),
            Step::Failed(error) => return Step::Failed(error),
            Step::Done(base) => base,
        };
        if text::same(&base, &branch) {
            return Step::Done(conclude_rebase(onto, Vec::new()));
        }
        let call = HostCall::Walk { start: branch, until: Some(base.clone()), limit: None };
        let steps = match replies.walk(&call) {
            None => return host::ask(call),
            Some(Outcome::Error(error)) => return Step::Failed(GitError::Gix(error.clone())),
            Some(Outcome::Got(steps)) => steps,
        };
        match list_commits_since(steps, &base) {
            Step::Ask(calls) => Step::Ask(calls),
            Step::Failed(error) => Step::Failed(error),
            Step::Done(commits) => Step::Done(conclude_rebase(onto, commits)),
        }
    }

    /// Tells of each of the given objects whether it exists, [`objects_exist`].
    pub fn check_objects_exist(
        &self,
        owner: &str,
        name: &str,
        oids: &Vec<String>,
        replies: &Replies,
    ) -> (r: Step<Vec<(String, bool)>, GitError>)
        ensures
            r.deep_view() == objects_exist(
                replies.deep_view(),
                self.config(),
                owner@,
                name@,
                oids.deep_view(),
            ),
    {
        match open_repo_by_name(&self.config, owner, name, replies) {
            Step::Ask(calls) => return Step::Ask(calls),
            Step::Failed(error) => return Step::Failed(error),
            Step::Done(_) => {},
        }
        let ghost k = replies.deep_view();
        let ghost items = oids.deep_view().map_values(|oid: Seq<char>| existence(k, oid));
        let mut g: Gathering<(String, bool), GitError> = Gathering::new();
        let mut i: usize = 0;
        while i < oids.len()
            invariant
                i <= oids@.len(),
                k == replies.deep_view(),
                items == oids.deep_view().map_values(|oid: Seq<char>| existence(k, oid)),
                items.len() == oids@.len(),
                g.deep_view() == host::absorb_all(host::nothing(), items.take(i as int)),
            decreases oids.len() - i,
        {
            let oid = &oids[i];
            proof {
                assert(items.take(i + 1).drop_last() == items.take(i as int));
                assert(items[i as int] == existence(k, oid@));
            }
            match objects::parse_object_id(oid) {
                None => g.value((oid.clone(), false)),
                Some(id) => {
                    let call = HostCall::ObjectExists { oid: id };
                    match replies.flag(&call) {
                        None => g.need(call),
                        Some(exists) => g.value((oid.clone(), exists)),
                    }
                },
            }
            i = i + 1;
        }
        assert(items.take(i as int) == items);
        g.conclude()
    }
}

/// The merge that leaves a commit as it is, [`settled`].
fn settle(commit: String, status: MergeStatus) -> (r: MergeResult)
    ensures
        r.deep_view() == settled(commit@, status),
{
    let r = MergeResult {
        commit_oid: Some(commit),
        conflicts: Vec::new(),
        merged_files: Vec::new(),
        status,
    };
    assert(r.conflicts.deep_view() =~= Seq::<ConflictInfoView>::empty());
    assert(r.merged_files.deep_view() =~= Seq::<Seq<char>>::empty());
    r
}

/// What the commits to be rebased make of a rebase, [`rebase_outcome`].
fn conclude_rebase(onto: String, commits: Vec<String>) -> (r: RebaseResult)
    ensures
        r.deep_view() == rebase_outcome(onto@, commits.deep_view()),
{
    assert(commits.deep_view().len() == commits@.len());
    let conflicts: Vec<ConflictInfo> = Vec::new();
    assert(conflicts.deep_view() =~= Seq::<ConflictInfoView>::empty());
    if commits.len() == 0 {
        assert(commits.deep_view() =~= Seq::<Seq<char>>::empty());
        RebaseResult {
            new_head_oid: Some(onto),
            rebased_commits: commits,
            conflicts,
            status: RebaseStatus::NothingToRebase,
        }
    } else {
        RebaseResult {
            new_head_oid: None,
            rebased_commits: commits,
            conflicts,
            status: RebaseStatus::Success,
        }
    }
}

/// Merges two trees that come from one, [`merged_trees`].
fn merge_trees(replies: &Replies, ancestor: &str, ours: &str, theirs: &str) -> (r: Step<
    TreeMergeResult,
    GitError,
>)
    ensures
        r.deep_view() == merged_trees(replies.deep_view(), ancestor@, ours@, theirs@),
{
    let our_changes = match lookup::tree_changes(replies, ancestor, ours) {
        Step::Ask(calls) => return Step::Ask(calls),
        Step::Failed(error) => return Step::Failed(error),
        Step::Done(changes) => changes,
    };
    let their_changes = match lookup::tree_changes(replies, ancestor, theirs) {
        Step::Ask(calls) => return Step::Ask(calls),
        Step::Failed(error) => return Step::Failed(error),
        Step::Done(changes) => changes,
    };
    Step::Done(merge_changes(our_changes, their_changes))
}

/// Merges two commits by way of their trees, [`three_way`].
fn merge_three_way(replies: &Replies, base: &str, head: &str, ancestor: &str) -> (r: Step<
    TreeMergeResult,
    GitError,
>)
    ensures
        r.deep_view() == three_way(replies.deep_view(), base@, head@, ancestor@),
{
    let base_commit = match lookup::find_commit(replies, base) {
        Step::Ask(calls) => return Step::Ask(calls),
        Step::Failed(error) => return Step::Failed(error),
        Step::Done(commit) => commit,
    };
    let head_commit = match lookup::find_commit(replies, head) {
        Step::Ask(calls) => return Step::Ask(calls),
        Step::Failed(error) => return Step::Failed(error),
        Step::Done(commit) => commit,
    };
    let ancestor_commit = match lookup::find_commit(replies, ancestor) {
        Step::Ask(calls) => return Step::Ask(calls),
        Step::Failed(error) => return Step::Failed(error),
        Step::Done(commit) => commit,
    };
    let base_tree = match lookup::root_tree(replies, base_commit) {
        Step::Ask(calls) => return Step::Ask(calls),
        Step::Failed(error) => return Step::Failed(error),
        Step::Done(tree) => tree,
    };
    let head_tree = match lookup::root_tree(replies, head_commit) {
        Step::Ask(calls) => return Step::Ask(calls),
        Step::Failed(error) => return Step::Failed(error),
        Step::Done(tree) => tree,
    };
    let ancestor_tree = match lookup::root_tree(replies, ancestor_commit) {
        Step::Ask(calls) => return Step::Ask(calls),
        Step::Failed(error) => return Step::Failed(error),
        Step::Done(tree) => tree,
    };
    merge_trees(replies, &ancestor_tree, &base_tree, &head_tree)
}

} // verus!
