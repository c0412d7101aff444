//! What holds of operations that follow each other on one disk.

use vstd::prelude::*;

use crate::git::repository;
use crate::git::{self, GitErrorView, StorageConfigView};
use crate::host::{self, HostCallView, ReplyView, StepView};

verus! {

/// Whether a path is that of a directory or of something below it.
pub open spec fn within(path: Seq<char>, dir: Seq<char>) -> bool {
    path == dir || (dir + "/"@).is_prefix_of(path)
}

/// What a call does to a disk, given by the paths at which there is something:
/// looking changes nothing and tells what is there, and what succeeds leaves or
/// takes what it is for. Nothing is claimed of a failure or of any other call.
pub open spec fn becomes(
    before: Set<Seq<char>>,
    call: HostCallView,
    reply: ReplyView,
    after: Set<Seq<char>>,
) -> bool {
    let succeeds = reply == ReplyView::Effect(None);
    match call {
        HostCallView::PathExists { path } => after == before && reply == ReplyView::Flag(
            before.contains(path),
        ),
        HostCallView::ParentIsEmpty { path } => after == before,
        HostCallView::CreateParent { path } => succeeds ==> before.subset_of(after),
        HostCallView::InitBare { path } => succeeds ==> before.subset_of(after) && after.contains(
            path,
        ),
        HostCallView::WriteFile { path, contents } => succeeds ==> before.subset_of(after)
            && after.contains(path),
        HostCallView::RemoveDirectory { path } => succeeds ==> forall|p: Seq<char>| #[trigger]
            after.contains(p) <==> before.contains(p) && !within(p, path),
        HostCallView::RemoveParent { path } => after.subset_of(before),
        HostCallView::Rename { from, to } => succeeds ==> after.contains(to) && !after.contains(
            from,
        ) && forall|rest: Seq<char>|
            before.contains(#[trigger] (from + "/"@ + rest)) ==> after.contains(to + "/"@ + rest),
        _ => true,
    }
}

/// Whether an operation that makes one call at a time is run on a disk: each call
/// is the one that it asks for, gets a reply of its kind and does to the disk what
/// it is for.
pub open spec fn runs<T>(
    op: spec_fn(Seq<(HostCallView, ReplyView)>) -> StepView<T, GitErrorView>,
    disks: Seq<Set<Seq<char>>>,
    k: Seq<(HostCallView, ReplyView)>,
) -> bool {
    &&& disks.len() == k.len() + 1
    &&& forall|i: int|
        0 <= i < k.len() ==> op(#[trigger] k.take(i)) == StepView::<T, GitErrorView>::Ask(
            seq![k[i].0],
        ) && host::fits(k[i].0, k[i].1) && becomes(disks[i], k[i].0, k[i].1, disks[i + 1])
}

/// What is known after one more reply.
pub proof fn lemma_known(k: Seq<(HostCallView, ReplyView)>, i: int)
    requires
        0 <= i < k.len(),
    ensures
        forall|call: HostCallView| #[trigger]
            host::reply_to(k.take(i + 1), call) == match host::reply_to(k.take(i), call) {
                Some(reply) => Some(reply),
                None => if call == k[i].0 {
                    Some(k[i].1)
                } else {
                    None
                },
            },
{
    assert(k.take(i + 1) == k.take(i).push(k[i]));
    assert forall|call: HostCallView| #[trigger]
        host::reply_to(k.take(i + 1), call) == match host::reply_to(k.take(i), call) {
            Some(reply) => Some(reply),
            None => if call == k[i].0 {
                Some(k[i].1)
            } else {
                None
            },
        } by {
        host::law_recorded(k.take(i), k[i].0, k[i].1, call);
    }
}

/// The next call of an operation that asks for one.
proof fn lemma_next<T>(
    op: spec_fn(Seq<(HostCallView, ReplyView)>) -> StepView<T, GitErrorView>,
    disks: Seq<Set<Seq<char>>>,
    k: Seq<(HostCallView, ReplyView)>,
    i: int,
    call: HostCallView,
)
    requires
        runs(op, disks, k),
        op(k) is Done,
        0 <= i <= k.len(),
        op(k.take(i)) == StepView::<T, GitErrorView>::Ask(seq![call]),
    ensures
        i < k.len(),
        k[i].0 == call,
        host::fits(call, k[i].1),
        becomes(disks[i], call, k[i].1, disks[i + 1]),
{
    assert(k.take(k.len() as int) == k);
    assert(seq![k[i].0][0] == seq![call][0]);
}

/// An operation that is done asks for nothing more.
proof fn lemma_done<T>(
    op: spec_fn(Seq<(HostCallView, ReplyView)>) -> StepView<T, GitErrorView>,
    disks: Seq<Set<Seq<char>>>,
    k: Seq<(HostCallView, ReplyView)>,
    i: int,
)
    requires
        runs(op, disks, k),
        op(k) is Done,
        0 <= i <= k.len(),
        !(op(k.take(i)) is Ask),
    ensures
        k.len() == i,
        op(k.take(i)) == op(k),
{
    assert(k.take(k.len() as int) == k);
}

/// What creating a repository leaves on the disk.
proof fn lemma_init_leaves(
    disks: Seq<Set<Seq<char>>>,
    k: Seq<(HostCallView, ReplyView)>,
    config: StorageConfigView,
    owner: Seq<char>,
    name: Seq<char>,
    branch: Option<Seq<char>>,
)
    requires
        runs(
            |k: Seq<(HostCallView, ReplyView)>|
                repository::init(k, config, owner, name, branch),
            disks,
            k,
        ),
        repository::init(k, config, owner, name, branch) is Done,
    ensures
        ({
            let path = git::repo_path(config, owner, name);
            disks.last().contains(path) && disks.last().contains(git::join(path, "HEAD"@))
        }),
{
    let op = |k: Seq<(HostCallView, ReplyView)>| repository::init(k, config, owner, name, branch);
    let path = git::repo_path(config, owner, name);
    let chosen = match branch {
        Some(branch) => branch,
        None => config.default_branch,
    };
    assert(k.take(0).len() == 0);
    lemma_next(op, disks, k, 0, HostCallView::PathExists { path });
    lemma_known(k, 0);
    if k[0].1 == ReplyView::Flag(true) {
        lemma_done(op, disks, k, 1);
    }
    lemma_next(op, disks, k, 1, HostCallView::CreateParent { path });
    lemma_known(k, 1);
    if k[1].1 != ReplyView::Effect(None) {
        lemma_done(op, disks, k, 2);
    }
    lemma_next(op, disks, k, 2, HostCallView::InitBare { path });
    lemma_known(k, 2);
    if k[2].1 != ReplyView::Effect(None) {
        lemma_done(op, disks, k, 3);
    }
    lemma_next(op, disks, k, 3, repository::head_file(path, chosen));
    lemma_known(k, 3);
    lemma_done(op, disks, k, 4);
}

/// What looking for a repository tells of the disk.
proof fn lemma_exists_tells(
    disks: Seq<Set<Seq<char>>>,
    k: Seq<(HostCallView, ReplyView)>,
    config: StorageConfigView,
    owner: Seq<char>,
    name: Seq<char>,
)
    requires
        runs(
            |k: Seq<(HostCallView, ReplyView)>|
                repository::repository_exists(k, config, owner, name),
            disks,
            k,
        ),
        repository::repository_exists(k, config, owner, name) is Done,
    ensures
        ({
            let path = git::repo_path(config, owner, name);
            repository::repository_exists(k, config, owner, name)->Done_0 == (disks[0].contains(
                path,
            ) && disks[0].contains(git::join(path, "HEAD"@)))
        }),
{
    let op = |k: Seq<(HostCallView, ReplyView)>|
        repository::repository_exists(k, config, owner, name);
    let path = git::repo_path(config, owner, name);
    let head = git::join(path, "HEAD"@);
    assert(k.take(0).len() == 0);
    lemma_next(op, disks, k, 0, HostCallView::PathExists { path });
    lemma_known(k, 0);
    if k[0].1 == ReplyView::Flag(false) {
        lemma_done(op, disks, k, 1);
    } else if head == path {
        lemma_done(op, disks, k, 1);
    } else {
        lemma_next(op, disks, k, 1, HostCallView::PathExists { path: head });
        lemma_known(k, 1);
        lemma_done(op, disks, k, 2);
    }
}

/// A repository that was created is there: whoever looks for it on the disk that
/// its creation left finds it.
pub proof fn law_created_is_there(
    disks: Seq<Set<Seq<char>>>,
    k: Seq<(HostCallView, ReplyView)>,
    later_disks: Seq<Set<Seq<char>>>,
    later: Seq<(HostCallView, ReplyView)>,
    config: StorageConfigView,
    owner: Seq<char>,
    name: Seq<char>,
    branch: Option<Seq<char>>,
)
    requires
        runs(
            |k: Seq<(HostCallView, ReplyView)>|
                repository::init(k, config, owner, name, branch),
            disks,
            k,
        ),
        repository::init(k, config, owner, name, branch) is Done,
        runs(
            |k: Seq<(HostCallView, ReplyView)>|
                repository::repository_exists(k, config, owner, name),
            later_disks,
            later,
        ),
        repository::repository_exists(later, config, owner, name) is Done,
        later_disks[0] == disks.last(),
    ensures
        repository::repository_exists(later, config, owner, name) == StepView::<
            bool,
            GitErrorView,
        >::Done(true),
{
    lemma_init_leaves(disks, k, config, owner, name, branch);
    lemma_exists_tells(later_disks, later, config, owner, name);
}

/// What deleting a repository leaves on the disk: nothing at its path.
proof fn lemma_delete_leaves(
    disks: Seq<Set<Seq<char>>>,
    k: Seq<(HostCallView, ReplyView)>,
    config: StorageConfigView,
    owner: Seq<char>,
    name: Seq<char>,
)
    requires
        runs(
            |k: Seq<(HostCallView, ReplyView)>| repository::delete(k, config, owner, name),
            disks,
            k,
        ),
        repository::delete(k, config, owner, name) is Done,
    ensures
        !disks.last().contains(git::repo_path(config, owner, name)),
        repository::delete(k, config, owner, name)->Done_0 == disks[0].contains(
            git::repo_path(config, owner, name),
        ),
{
    let op = |k: Seq<(HostCallView, ReplyView)>| repository::delete(k, config, owner, name);
    let path = git::repo_path(config, owner, name);
    assert(k.take(0).len() == 0);
    lemma_next(op, disks, k, 0, HostCallView::PathExists { path });
    lemma_known(k, 0);
    if k[0].1 == ReplyView::Flag(false) {
        lemma_done(op, disks, k, 1);
    } else {
        lemma_next(op, disks, k, 1, HostCallView::RemoveDirectory { path });
        lemma_known(k, 1);
        if k[1].1 != ReplyView::Effect(None) {
            lemma_done(op, disks, k, 2);
        }
        lemma_next(op, disks, k, 2, HostCallView::ParentIsEmpty { path });
        lemma_known(k, 2);
        assert(!disks[2].contains(path));
        if host::answer(k.take(3), HostCallView::ParentIsEmpty { path }) == Some(
            host::OutcomeView::Got(true),
        ) {
            lemma_next(op, disks, k, 3, HostCallView::RemoveParent { path });
            lemma_known(k, 3);
            lemma_done(op, disks, k, 4);
        } else {
            lemma_done(op, disks, k, 3);
        }
    }
}

/// A repository that was deleted is gone: whoever looks for it on the disk that
/// its deletion left finds none.
pub proof fn law_deleted_is_not_there(
    disks: Seq<Set<Seq<char>>>,
    k: Seq<(HostCallView, ReplyView)>,
    later_disks: Seq<Set<Seq<char>>>,
    later: Seq<(HostCallView, ReplyView)>,
    config: StorageConfigView,
    owner: Seq<char>,
    name: Seq<char>,
)
    requires
        runs(
            |k: Seq<(HostCallView, ReplyView)>| repository::delete(k, config, owner, name),
            disks,
            k,
        ),
        repository::delete(k, config, owner, name) is Done,
        runs(
            |k: Seq<(HostCallView, ReplyView)>|
                repository::repository_exists(k, config, owner, name),
            later_disks,
            later,
        ),
        repository::repository_exists(later, config, owner, name) is Done,
        later_disks[0] == disks.last(),
    ensures
        repository::repository_exists(later, config, owner, name) == StepView::<
            bool,
            GitErrorView,
        >::Done(false),
{
    lemma_delete_leaves(disks, k, config, owner, name);
    lemma_exists_tells(later_disks, later, config, owner, name);
}

/// The HEAD of a repository lies right below its path.
proof fn lemma_head_is_below(config: StorageConfigView, owner: Seq<char>, name: Seq<char>)
    ensures
        git::join(git::repo_path(config, owner, name), "HEAD"@) == git::repo_path(
            config,
            owner,
            name,
        ) + "/"@ + "HEAD"@,
{
    reveal_strlit(".git");
    reveal_strlit("HEAD");
    let path = git::repo_path(config, owner, name);
    let file = name + ".git"@;
    assert(file.last() == 't');
    assert(path.last() == 't');
}

/// A repository that was renamed is there under its new name, as complete as it
/// was, and no longer under the old one.
pub proof fn law_renamed_is_there(
    disks: Seq<Set<Seq<char>>>,
    k: Seq<(HostCallView, ReplyView)>,
    config: StorageConfigView,
    owner: Seq<char>,
    old_name: Seq<char>,
    new_name: Seq<char>,
)
    requires
        old_name != new_name,
        runs(
            |k: Seq<(HostCallView, ReplyView)>|
                repository::rename(k, config, owner, old_name, new_name),
            disks,
            k,
        ),
        repository::rename(k, config, owner, old_name, new_name) == StepView::<
            bool,
            GitErrorView,
        >::Done(true),
    ensures
        ({
            let from = git::repo_path(config, owner, old_name);
            let to = git::repo_path(config, owner, new_name);
            &&& disks[0].contains(from)
            &&& !disks[0].contains(to)
            &&& !disks.last().contains(from)
            &&& disks.last().contains(to)
            &&& disks[0].contains(git::join(from, "HEAD"@)) ==> disks.last().contains(
                git::join(to, "HEAD"@),
            )
        }),
{
    let op = |k: Seq<(HostCallView, ReplyView)>|
        repository::rename(k, config, owner, old_name, new_name);
    let from = git::repo_path(config, owner, old_name);
    let to = git::repo_path(config, owner, new_name);
    lemma_head_is_below(config, owner, old_name);
    lemma_head_is_below(config, owner, new_name);
    assert(k.take(0).len() == 0);
    lemma_next(op, disks, k, 0, HostCallView::PathExists { path: from });
    lemma_known(k, 0);
    if k[0].1 == ReplyView::Flag(false) {
        lemma_done(op, disks, k, 1);
    }
    if from == to {
        lemma_done(op, disks, k, 1);
    }
    lemma_next(op, disks, k, 1, HostCallView::PathExists { path: to });
    lemma_known(k, 1);
    if k[1].1 == ReplyView::Flag(true) {
        lemma_done(op, disks, k, 2);
    }
    lemma_next(op, disks, k, 2, HostCallView::Rename { from, to });
    lemma_known(k, 2);
    lemma_done(op, disks, k, 3);
}

} // verus!
