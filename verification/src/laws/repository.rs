//! What holds of every repository that is created, renamed or deleted.

use vstd::prelude::*;

use crate::git::repository;
use crate::git::{self, GitErrorView, StorageConfigView};
use crate::host::{self, HostCallView, OutcomeView, ReplyView, StepView};

verus! {

/// Whether a step wants a call made.
pub open spec fn asks_for<T, E>(step: StepView<T, E>, call: HostCallView) -> bool {
    match step {
        StepView::Ask(calls) => calls.contains(call),
        _ => false,
    }
}

/// The calls of a step that wants one made.
proof fn lemma_asks_for_one<T, E>(call: HostCallView, other: HostCallView)
    ensures
        asks_for(StepView::<T, E>::Ask(seq![call]), other) <==> other == call,
{
    assert(seq![call][0] == call);
}

/// Creating a repository makes the very things by which it is found: once it is
/// done, the machine has made a repository at the path, and the HEAD in it, at
/// which [`repository::repository_exists`] looks.
pub proof fn law_created_is_found(
    k: Seq<(HostCallView, ReplyView)>,
    later: Seq<(HostCallView, ReplyView)>,
    config: StorageConfigView,
    owner: Seq<char>,
    name: Seq<char>,
    branch: Seq<char>,
)
    ensures
        ({
            let path = git::repo_path(config, owner, name);
            let head = git::join(path, "HEAD"@);
            &&& repository::init(k, config, owner, name, Some(branch)) matches StepView::Done(made)
                ==> {
                &&& made == path
                &&& host::effect(k, HostCallView::InitBare { path }) == Some(None::<Seq<char>>)
                &&& host::effect(
                    k,
                    HostCallView::WriteFile {
                        path: head,
                        contents: "ref: refs/heads/"@ + branch + "\n"@,
                    },
                ) == Some(None::<Seq<char>>)
            }
            &&& host::flag(later, HostCallView::PathExists { path }) == Some(true) && host::flag(
                later,
                HostCallView::PathExists { path: head },
            ) == Some(true) ==> repository::repository_exists(later, config, owner, name)
                == StepView::<bool, GitErrorView>::Done(true)
        }),
{
}

/// A repository that exists is not created again, and nothing is done to it.
pub proof fn law_existing_is_not_overwritten(
    k: Seq<(HostCallView, ReplyView)>,
    config: StorageConfigView,
    owner: Seq<char>,
    name: Seq<char>,
    branch: Option<Seq<char>>,
)
    requires
        host::flag(
            k,
            HostCallView::PathExists { path: git::repo_path(config, owner, name) },
        ) == Some(true),
    ensures
        repository::init(k, config, owner, name, branch) == StepView::<
            Seq<char>,
            GitErrorView,
        >::Failed(GitErrorView::RepositoryExists { owner, name }),
{
}

/// Deleting a repository removes it: once it is done, the machine has removed
/// the directory at which [`repository::repository_exists`] looks, and where
/// there is nothing it finds none.
pub proof fn law_deleted_is_gone(
    k: Seq<(HostCallView, ReplyView)>,
    later: Seq<(HostCallView, ReplyView)>,
    config: StorageConfigView,
    owner: Seq<char>,
    name: Seq<char>,
)
    ensures
        ({
            let path = git::repo_path(config, owner, name);
            &&& repository::delete(k, config, owner, name) == StepView::<bool, GitErrorView>::Done(
                true,
            ) ==> host::effect(k, HostCallView::RemoveDirectory { path }) == Some(
                None::<Seq<char>>,
            )
            &&& host::flag(later, HostCallView::PathExists { path }) == Some(false)
                ==> repository::repository_exists(later, config, owner, name) == StepView::<
                bool,
                GitErrorView,
            >::Done(false) && repository::delete(later, config, owner, name) == StepView::<
                bool,
                GitErrorView,
            >::Done(false)
        }),
{
}

/// The directory of an owner is removed only once the machine has told that it
/// is empty.
pub proof fn law_owner_removed_only_when_empty(
    k: Seq<(HostCallView, ReplyView)>,
    config: StorageConfigView,
    owner: Seq<char>,
    name: Seq<char>,
)
    ensures
        ({
            let path = git::repo_path(config, owner, name);
            asks_for(
                repository::delete(k, config, owner, name),
                HostCallView::RemoveParent { path },
            ) ==> host::answer(k, HostCallView::ParentIsEmpty { path }) == Some(
                OutcomeView::Got(true),
            )
        }),
{
    let path = git::repo_path(config, owner, name);
    let remove = HostCallView::RemoveParent { path };
    lemma_asks_for_one::<bool, GitErrorView>(HostCallView::PathExists { path }, remove);
    lemma_asks_for_one::<bool, GitErrorView>(HostCallView::RemoveDirectory { path }, remove);
    lemma_asks_for_one::<bool, GitErrorView>(HostCallView::ParentIsEmpty { path }, remove);
    lemma_asks_for_one::<bool, GitErrorView>(remove, remove);
}

/// A rename never overwrites another repository: it is asked for only once the
/// machine has told that there is something to rename and nothing in its way.
pub proof fn law_rename_never_overwrites(
    k: Seq<(HostCallView, ReplyView)>,
    config: StorageConfigView,
    owner: Seq<char>,
    old_name: Seq<char>,
    new_name: Seq<char>,
)
    ensures
        ({
            let from = git::repo_path(config, owner, old_name);
            let to = git::repo_path(config, owner, new_name);
            asks_for(
                repository::rename(k, config, owner, old_name, new_name),
                HostCallView::Rename { from, to },
            ) ==> host::flag(k, HostCallView::PathExists { path: from }) == Some(true)
                && host::flag(k, HostCallView::PathExists { path: to }) == Some(false)
        }),
{
    let from = git::repo_path(config, owner, old_name);
    let to = git::repo_path(config, owner, new_name);
    let rename = HostCallView::Rename { from, to };
    lemma_asks_for_one::<bool, GitErrorView>(HostCallView::PathExists { path: from }, rename);
    lemma_asks_for_one::<bool, GitErrorView>(HostCallView::PathExists { path: to }, rename);
}

/// A rename to the same name does nothing and succeeds.
pub proof fn law_rename_to_itself(
    k: Seq<(HostCallView, ReplyView)>,
    config: StorageConfigView,
    owner: Seq<char>,
    name: Seq<char>,
)
    ensures
        repository::rename(k, config, owner, name, name) == StepView::<bool, GitErrorView>::Done(
            true,
        ),
{
}

} // verus!
