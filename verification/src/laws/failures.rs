//! That nothing fails but for a reason that the machine has told or that lies in what was
//! asked.

use vstd::prelude::*;

use super::contents::{is_directory, is_file, item_told, items_told, root_told, whole};
use super::merging::revision_told;
use super::shown::record_told;
use super::told::{head_told, meant, reference_told, there};
use crate::git::commits;
use crate::git::diff::{self, FileDiffView};
use crate::git::objects::{self, CommitRecordView, TreeItemView};
use crate::git::operations;
use crate::git::refs::{self, RefInfoView, RefType};
use crate::git::repository;
use crate::git::trees::{self, TreeEntryView};
use crate::git::{self, GitErrorView, StorageConfigView};
use crate::host::{
    self, HostCallView, ItemView, OutcomeView, RawRefView, ReplyView, StepView, TreeChangeView,
};

verus! {

/// Whether a reply tells of an error in the given words.
pub open spec fn tells(reply: Option<ReplyView>, words: Seq<char>) -> bool {
    match reply {
        Some(ReplyView::Effect(error)) => error == Some(words),
        Some(ReplyView::Text(told)) => told == OutcomeView::<Seq<char>>::Error(words),
        Some(ReplyView::Commit(OutcomeView::Error(error))) => error == words,
        Some(ReplyView::Commit(OutcomeView::Got(record))) => record.tree == OutcomeView::<
            Seq<char>,
        >::Error(words),
        Some(ReplyView::Tree(OutcomeView::Error(error))) => error == words,
        Some(ReplyView::Tree(OutcomeView::Got(items))) => items.contains(OutcomeView::Error(words)),
        Some(ReplyView::Blob(OutcomeView::Error(error))) => error == words,
        Some(ReplyView::Entry(OutcomeView::Error(error))) => error == words,
        Some(ReplyView::Changes(OutcomeView::Error(error))) => error == words,
        Some(ReplyView::References(OutcomeView::Error(error))) => error == words,
        Some(ReplyView::References(OutcomeView::Got(list))) => exists|i: int|
            0 <= i < list.len() && unreadable(#[trigger] list[i], words),
        Some(ReplyView::Walk(OutcomeView::Error(error))) => error == words,
        Some(ReplyView::Walk(OutcomeView::Got(steps))) => steps.contains(OutcomeView::Error(words)),
        Some(ReplyView::Directory(OutcomeView::Error(error))) => error == words,
        Some(ReplyView::Answer(OutcomeView::Error(error))) => error == words,
        _ => false,
    }
}

/// Whether a reference cannot be read, or what it comes to cannot.
pub open spec fn unreadable(reference: OutcomeView<RawRefView>, words: Seq<char>) -> bool {
    match reference {
        OutcomeView::Error(error) => error == words,
        OutcomeView::Got(raw) => raw.peeled == OutcomeView::<Seq<char>>::Error(words),
    }
}

/// Whether the machine has told of an error in the given words.
pub open spec fn reported(k: Seq<(HostCallView, ReplyView)>, words: Seq<char>) -> bool {
    exists|call: HostCallView| tells(#[trigger] host::reply_to(k, call), words)
}

/// Whether there is a reason for an error: the machine has told it, or that the
/// repository, the revision or the object is not there.
pub open spec fn reasoned(
    k: Seq<(HostCallView, ReplyView)>,
    config: StorageConfigView,
    owner: Seq<char>,
    name: Seq<char>,
    error: GitErrorView,
) -> bool {
    match error {
        GitErrorView::RepositoryNotFound { owner: o, name: n } => o == owner && n == name && there(
            k,
            git::repo_path(config, owner, name),
            false,
        ),
        GitErrorView::RefNotFound { reference } => host::reply_to(
            k,
            HostCallView::Revision { spec: reference },
        ) == Some(ReplyView::Id(None)),
        GitErrorView::ObjectNotFound { oid } => missing(k, oid),
        GitErrorView::Io(words) => reported(k, words),
        GitErrorView::Gix(words) => reported(k, words),
        _ => false,
    }
}

/// Whether an object has no id, or is one that the machine cannot read.
pub open spec fn missing(k: Seq<(HostCallView, ReplyView)>, oid: Seq<char>) -> bool {
    match objects::object_id(oid) {
        None => true,
        Some(id) => {
            ||| (exists|words: Seq<char>| #[trigger]
                tells(host::reply_to(k, HostCallView::Commit { oid: id }), words))
            ||| (exists|words: Seq<char>| #[trigger]
                tells(host::reply_to(k, HostCallView::Blob { oid: id }), words))
        },
    }
}

/// A list that fails does so by one of its items.
pub proof fn law_lists_fail_by_an_item<T, E>(items: Seq<ItemView<T, E>>)
    ensures
        host::gather(items) matches StepView::Failed(error) ==> items.contains(
            ItemView::Fail(error),
        ),
{
    lemma_failure(items);
}

/// The failure of a list is among its items.
proof fn lemma_failure<T, E>(items: Seq<ItemView<T, E>>)
    ensures
        host::absorb_all(host::nothing::<T, E>(), items).failure matches Some(error)
            ==> items.contains(ItemView::Fail(error)),
    decreases items.len(),
{
    if items.len() > 0 {
        let rest = items.drop_last();
        lemma_failure(rest);
        let before = host::absorb_all(host::nothing::<T, E>(), rest);
        if let Some(error) = before.failure {
            let i = choose|i: int| 0 <= i < rest.len() && #[trigger] rest[i] == ItemView::<
                T,
                E,
            >::Fail(error);
            assert(items[i] == rest[i]);
        } else {
            assert(items[items.len() - 1] == items.last());
        }
    }
}

/// What is in lists that are put together is in one of them.
proof fn lemma_from<A, B>(xs: Seq<A>, f: spec_fn(A) -> Seq<B>, y: B)
    requires
        xs.flat_map(f).contains(y),
    ensures
        exists|i: int| 0 <= i < xs.len() && f(#[trigger] xs[i]).contains(y),
    decreases xs.len(),
{
    if xs.len() == 0 {
        assert(xs.flat_map(f).len() == 0);
    } else {
        let rest = xs.drop_last();
        xs.lemma_flat_map_take_append(f, xs.len() - 1);
        assert(xs.take(xs.len() as int) == xs);
        assert(xs.take(xs.len() - 1) == rest);
        let a = rest.flat_map(f);
        let b = f(xs.last());
        assert(xs.flat_map(f) == a + b);
        let n = choose|n: int| 0 <= n < (a + b).len() && #[trigger] (a + b)[n] == y;
        if n < a.len() {
            assert(a[n] == y);
            lemma_from(rest, f, y);
            let i = choose|i: int| 0 <= i < rest.len() && f(#[trigger] rest[i]).contains(y);
            assert(xs[i] == rest[i]);
        } else {
            assert(b[n - a.len()] == y);
            assert(xs[xs.len() - 1] == xs.last());
        }
    }
}

/// References are looked up, created and deleted unless there is a reason why not: the
/// machine tells one, or the one to be deleted is not there, or is the default and
/// nothing forces it.
pub proof fn law_reference_calls_fail_for_a_reason(
    k: Seq<(HostCallView, ReplyView)>,
    config: StorageConfigView,
    owner: Seq<char>,
    name: Seq<char>,
    a: Seq<char>,
    b: Seq<char>,
    force: bool,
)
    ensures
        refs::resolve_ref(k, config, owner, name, a) matches StepView::Failed(error) ==> reasoned(
            k,
            config,
            owner,
            name,
            error,
        ),
        refs::create_branch(k, config, owner, name, a, b) matches StepView::Failed(error)
            ==> reasoned(k, config, owner, name, error),
        refs::create_tag(k, config, owner, name, a, b) matches StepView::Failed(error) ==> reasoned(
            k,
            config,
            owner,
            name,
            error,
        ),
        refs::delete_branch(k, config, owner, name, a, force) matches StepView::Failed(error) ==> {
            let full = meant("refs/heads/"@, a);
            ||| reasoned(k, config, owner, name, error)
            ||| reference_told(k, full) == Some(None::<Seq<char>>) && error
                == (GitErrorView::RefNotFound { reference: a })
            ||| !force && head_told(k) == Some(Some(full)) && error is InvalidRef
        },
        refs::delete_tag(k, config, owner, name, a) matches StepView::Failed(error) ==> {
            ||| reasoned(k, config, owner, name, error)
            ||| reference_told(k, meant("refs/tags/"@, a)) == Some(None::<Seq<char>>) && error
                == (GitErrorView::RefNotFound { reference: a })
        },
        refs::set_default_branch(k, config, owner, name, a) matches StepView::Failed(error) ==> {
            ||| reasoned(k, config, owner, name, error)
            ||| reference_told(k, "refs/heads/"@ + a) == Some(None::<Seq<char>>) && error
                == (GitErrorView::RefNotFound { reference: a })
        },
{
    super::told::lemma_meant("refs/heads/"@, a);
    super::told::lemma_meant("refs/tags/"@, a);
}

/// References are listed unless the machine tells why not.
pub proof fn law_listing_references_fails_for_a_reason(
    k: Seq<(HostCallView, ReplyView)>,
    config: StorageConfigView,
    owner: Seq<char>,
    name: Seq<char>,
    filter: Option<RefType>,
    pattern: Option<Seq<char>>,
)
    ensures
        refs::list_refs(k, config, owner, name, filter, pattern) matches StepView::Failed(error)
            ==> reasoned(k, config, owner, name, error),
{
    let call = HostCallView::References { filter };
    if let Some(ReplyView::References(OutcomeView::Got(list))) = host::reply_to(k, call) {
        if let Some(ReplyView::Id(head)) = host::reply_to(k, HostCallView::Head) {
            let f = |reference: OutcomeView<RawRefView>| refs::listed(head, pattern, reference);
            let items = list.flat_map(f);
            law_lists_fail_by_an_item(items);
            if let StepView::Failed(error) = host::gather(items) {
                let fail = ItemView::<RefInfoView, GitErrorView>::Fail(error);
                lemma_from(list, f, fail);
                let i = choose|i: int| 0 <= i < list.len() && f(#[trigger] list[i]).contains(fail);
                assert(f(list[i]).contains(fail));
                let words = error->Gix_0;
                assert(unreadable(list[i], words));
                assert(tells(host::reply_to(k, call), words));
            }
        }
    }
}

/// Repositories are created, renamed, deleted and described unless there is a reason why
/// not: the machine tells one, or the one to be created is there.
pub proof fn law_repository_calls_fail_for_a_reason(
    k: Seq<(HostCallView, ReplyView)>,
    config: StorageConfigView,
    owner: Seq<char>,
    name: Seq<char>,
    other: Seq<char>,
    branch: Option<Seq<char>>,
)
    ensures
        repository::init(k, config, owner, name, branch) matches StepView::Failed(error) ==> {
            ||| reasoned(k, config, owner, name, error)
            ||| there(k, git::repo_path(config, owner, name), true) && error
                == (GitErrorView::RepositoryExists { owner, name })
        },
        !(repository::repository_exists(k, config, owner, name) is Failed),
        repository::rename(k, config, owner, name, other) matches StepView::Failed(error)
            ==> error is Io && reasoned(k, config, owner, name, error),
        repository::delete(k, config, owner, name) matches StepView::Failed(error) ==> error is Io
            && reasoned(k, config, owner, name, error),
        repository::get_info(k, config, owner, name) matches StepView::Failed(error) ==> reasoned(
            k,
            config,
            owner,
            name,
            error,
        ),
{
}

/// Commits are shown unless there is a reason why not.
pub proof fn law_commit_calls_fail_for_a_reason(
    k: Seq<(HostCallView, ReplyView)>,
    config: StorageConfigView,
    owner: Seq<char>,
    name: Seq<char>,
    a: Seq<char>,
    b: Seq<char>,
    limit: Option<u32>,
    skip: Option<u32>,
    path: Option<Seq<char>>,
)
    ensures
        commits::get_commit(k, config, owner, name, a) matches StepView::Failed(error) ==> reasoned(
            k,
            config,
            owner,
            name,
            error,
        ),
        commits::find_merge_base(k, config, owner, name, a, b) matches StepView::Failed(error)
            ==> reasoned(k, config, owner, name, error),
        commits::get_log(k, config, owner, name, a, limit, skip, path) matches StepView::Failed(
            error,
        ) ==> reasoned(k, config, owner, name, error),
        commits::get_ancestors(k, config, owner, name, a, limit) matches StepView::Failed(error)
            ==> reasoned(k, config, owner, name, error),
{
    if let StepView::Failed(error) = commits::get_commit(k, config, owner, name, a) {
        if let Some(id) = objects::object_id(a) {
            let reply = host::reply_to(k, HostCallView::Commit { oid: id });
            if let Some(ReplyView::Commit(OutcomeView::Error(words))) = reply {
                assert(tells(reply, words));
            }
        }
    }
    if let Some(start) = revision_told(k, a) {
        lemma_history_fails(
            k,
            start,
            commits::given_or(skip, 0),
            commits::given_or(limit, commits::DEFAULT_LIMIT),
            path,
        );
    }
    if let Some(start) = objects::object_id(a) {
        lemma_history_fails(k, start, 1, commits::given_or(limit, commits::DEFAULT_LIMIT), None);
    }
}

/// A history fails only as the machine tells.
proof fn lemma_history_fails(
    k: Seq<(HostCallView, ReplyView)>,
    start: Seq<char>,
    skip: u32,
    take: u32,
    path: Option<Seq<char>>,
)
    ensures
        commits::history(k, start, skip, take, path) matches StepView::Failed(error)
            ==> error is Gix && reported(k, error->Gix_0),
{
    let call = HostCallView::Walk { start, until: None, limit: Some((skip + take) as u64) };
    if let Some(ReplyView::Walk(OutcomeView::Got(steps))) = host::reply_to(k, call) {
        let part = commits::window(steps, skip as nat, take as nat);
        let f = |step: OutcomeView<Seq<char>>| commits::log_items(k, step, path);
        let items = part.flat_map(f);
        law_lists_fail_by_an_item(items);
        if let StepView::Failed(error) = host::gather(items) {
            let fail = ItemView::<(Seq<char>, CommitRecordView), GitErrorView>::Fail(error);
            lemma_from(part, f, fail);
            let i = choose|i: int| 0 <= i < part.len() && f(#[trigger] part[i]).contains(fail);
            assert(f(part[i]).contains(fail));
            match part[i] {
                OutcomeView::Error(words) => {
                    let n = commits::at_most(skip as int, steps.len() as int) + i;
                    assert(steps[n] == part[i]);
                    assert(error == GitErrorView::Gix(words));
                    assert(tells(host::reply_to(k, call), words));
                },
                OutcomeView::Got(oid) => {
                    lemma_log_item_fails(k, oid, path, error);
                },
            }
        }
    }
}

/// A commit of a log fails only as the machine tells.
proof fn lemma_log_item_fails(
    k: Seq<(HostCallView, ReplyView)>,
    oid: Seq<char>,
    path: Option<Seq<char>>,
    error: GitErrorView,
)
    requires
        commits::log_items(k, OutcomeView::Got(oid), path).contains(ItemView::Fail(error)),
    ensures
        error is Gix && reported(k, error->Gix_0),
{
    let call = HostCallView::Commit { oid };
    let items = commits::log_items(k, OutcomeView::Got(oid), path);
    let fail = ItemView::<(Seq<char>, CommitRecordView), GitErrorView>::Fail(error);
    assert(items.contains(fail));
    match host::commit(k, call) {
        Some(OutcomeView::Error(words)) => {
            assert(error == GitErrorView::Gix(words));
            assert(tells(host::reply_to(k, call), words));
        },
        Some(OutcomeView::Got(record)) => {
            if let Some(p) = path {
                match commits::touches(k, record, p) {
                    StepView::Ask(calls) => {
                        let n = choose|n: int| 0 <= n < items.len() && #[trigger] items[n] == fail;
                        assert(items[n] is Need);
                    },
                    StepView::Failed(e) => {
                        assert(e == error);
                        let words = error->Gix_0;
                        if record.tree is Error {
                            assert(tells(host::reply_to(k, call), words));
                        } else {
                            let tree = HostCallView::Tree { oid: record.tree->Got_0 };
                            assert(tells(host::reply_to(k, tree), words));
                        }
                    },
                    _ => {},
                }
            }
        },
        None => {},
    }
}

/// Trees are merged unless there is a reason why not: the machine tells one, or a commit
/// that is picked has no parent.
pub proof fn law_merges_fail_for_a_reason(
    k: Seq<(HostCallView, ReplyView)>,
    config: StorageConfigView,
    owner: Seq<char>,
    name: Seq<char>,
    a: Seq<char>,
    b: Seq<char>,
    flag: bool,
    oids: Seq<Seq<char>>,
)
    ensures
        operations::merge(k, config, owner, name, a, b, flag) matches StepView::Failed(error)
            ==> reasoned(k, config, owner, name, error),
        operations::cherry_pick(k, config, owner, name, a, b) matches StepView::Failed(error) ==> {
            ||| reasoned(k, config, owner, name, error)
            ||| revision_told(k, a) is Some && record_told(k, revision_told(k, a)->0) is Some
                && record_told(k, revision_told(k, a)->0)->0.parents.len() == 0 && error
                == GitErrorView::Internal("Cannot cherry-pick initial commit"@)
        },
        operations::rebase(k, config, owner, name, a, b) matches StepView::Failed(error)
            ==> reasoned(k, config, owner, name, error),
        operations::objects_exist(k, config, owner, name, oids) matches StepView::Failed(error)
            ==> reasoned(k, config, owner, name, error),
{
    if let (Some(one), Some(two)) = (revision_told(k, a), revision_told(k, b)) {
        if let StepView::Done(base) = crate::git::lookup::base_of(k, one, two) {
            lemma_three_way_fails(k, one, two, base);
            let call = HostCallView::Walk { start: one, until: Some(base), limit: None };
            if let Some(ReplyView::Walk(OutcomeView::Got(steps))) = host::reply_to(k, call) {
                if let StepView::Failed(error) = operations::commits_since(steps, base) {
                    let n = operations::walked(steps, base) as int;
                    assert(steps[n] == OutcomeView::<Seq<char>>::Error(error->Gix_0));
                    assert(tells(host::reply_to(k, call), error->Gix_0));
                }
            }
        }
    }
    let f = |oid: Seq<char>| operations::existence(k, oid);
    let items = oids.map_values(f);
    law_lists_fail_by_an_item(items);
    if let StepView::Failed(error) = host::gather(items) {
        let fail = ItemView::<(Seq<char>, bool), GitErrorView>::Fail(error);
        let i = choose|i: int| 0 <= i < items.len() && #[trigger] items[i] == fail;
        assert(items[i] == operations::existence(k, oids[i]));
    }
}

/// A merge of three trees fails only as the machine tells.
proof fn lemma_three_way_fails(
    k: Seq<(HostCallView, ReplyView)>,
    one: Seq<char>,
    two: Seq<char>,
    base: Seq<char>,
)
    ensures
        operations::three_way(k, one, two, base) matches StepView::Failed(error) ==> error is Gix
            && reported(k, error->Gix_0),
{
}

/// Whether the machine has told of a tree with an entry that cannot be read, in the given
/// words.
pub open spec fn in_a_tree(k: Seq<(HostCallView, ReplyView)>, words: Seq<char>) -> bool {
    exists|oid: Seq<char>|
        items_told(k, oid) is Some && (#[trigger] items_told(k, oid))->0.contains(
            OutcomeView::Error(words),
        )
}

/// An entry that cannot be read is told of.
proof fn lemma_in_a_tree(k: Seq<(HostCallView, ReplyView)>, words: Seq<char>)
    requires
        in_a_tree(k, words),
    ensures
        reported(k, words),
{
    let oid = choose|oid: Seq<char>|
        items_told(k, oid) is Some && (#[trigger] items_told(k, oid))->0.contains(
            OutcomeView::Error(words),
        );
    assert(tells(host::reply_to(k, HostCallView::Tree { oid }), words));
}

/// Whether the errors that a directory holds are ones that the machine has told of.
pub open spec fn errors_told(
    k: Seq<(HostCallView, ReplyView)>,
    items: Seq<OutcomeView<TreeItemView>>,
) -> bool {
    forall|i: int|
        0 <= i < items.len() && (#[trigger] items[i]) is Error ==> in_a_tree(
            k,
            items[i]->Error_0,
        )
}

/// The errors in a tree that the machine has told of are told.
proof fn lemma_errors_told(k: Seq<(HostCallView, ReplyView)>, oid: Seq<char>)
    ensures
        host::reply_to(k, HostCallView::Tree { oid }) matches Some(
            ReplyView::Tree(OutcomeView::Got(items)),
        ) ==> errors_told(k, items),
{
    let call = HostCallView::Tree { oid };
    if let Some(ReplyView::Tree(OutcomeView::Got(items))) = host::reply_to(k, call) {
        assert forall|i: int| 0 <= i < items.len() && (#[trigger] items[i]) is Error implies in_a_tree(
            k,
            items[i]->Error_0,
        ) by {
            assert(items.contains(items[i]));
            assert(items_told(k, oid) == Some(items));
        }
    }
}

/// A listing fails only as the machine tells.
proof fn lemma_collected_fails(
    k: Seq<(HostCallView, ReplyView)>,
    items: Seq<OutcomeView<TreeItemView>>,
    base: Seq<char>,
    depth: nat,
    error: GitErrorView,
)
    requires
        errors_told(k, items),
        trees::collected(k, items, base, depth).contains(ItemView::Fail(error)),
    ensures
        error is Gix && in_a_tree(k, error->Gix_0),
    decreases depth, items.len(),
{
    let all = trees::collected(k, items, base, depth);
    let fail = ItemView::<TreeEntryView, GitErrorView>::Fail(error);
    let n = choose|n: int| 0 <= n < all.len() && #[trigger] all[n] == fail;
    if items.len() > 0 {
        let rest = items.drop_last();
        let last = items.last();
        let a = trees::collected(k, rest, base, depth);
        let c = trees::below(k, last, base, depth);
        assert(all == a + seq![trees::listed(k, base, last)] + c);
        if n < a.len() {
            assert(a[n] == fail);
            assert forall|i: int| 0 <= i < rest.len() && (#[trigger] rest[i]) is Error implies in_a_tree(
                k,
                rest[i]->Error_0,
            ) by {
                assert(rest[i] == items[i]);
            }
            lemma_collected_fails(k, rest, base, depth, error);
        } else if n == a.len() {
            assert(trees::listed(k, base, last) == fail);
            assert(items[items.len() - 1] == last);
        } else {
            assert(c[n - a.len() - 1] == fail);
            let dir = last->Got_0;
            let call = HostCallView::Tree { oid: dir.oid };
            lemma_errors_told(k, dir.oid);
            if let Some(OutcomeView::Got(inner)) = host::tree(k, call) {
                lemma_collected_fails(
                    k,
                    inner,
                    base + dir.name + "/"@,
                    (depth - 1) as nat,
                    error,
                );
            }
        }
    }
}

/// What is not a directory, where one is asked for.
pub open spec fn no_directory(
    k: Seq<(HostCallView, ReplyView)>,
    revision: Seq<char>,
    path: Option<Seq<char>>,
    error: GitErrorView,
) -> bool {
    &&& !whole(path)
    &&& root_told(k, revision) is Some
    &&& no_item(k, root_told(k, revision)->0, path->0, error) || item_told(
        k,
        root_told(k, revision)->0,
        path->0,
    ) is Some && !is_directory(item_told(k, root_told(k, revision)->0, path->0)->0.mode) && error
        == (GitErrorView::InvalidRef { reference: path->0 + " is not a directory"@ })
}

/// What is not there, where something is asked for.
pub open spec fn no_item(
    k: Seq<(HostCallView, ReplyView)>,
    tree: Seq<char>,
    path: Seq<char>,
    error: GitErrorView,
) -> bool {
    host::reply_to(k, HostCallView::EntryAt { tree, path }) == Some(
        ReplyView::Entry(OutcomeView::Got(None)),
    ) && error == (GitErrorView::ObjectNotFound { oid: path })
}

/// Directories are listed unless there is a reason why not: the machine tells one, or
/// there is none at the path.
pub proof fn law_directory_calls_fail_for_a_reason(
    k: Seq<(HostCallView, ReplyView)>,
    config: StorageConfigView,
    owner: Seq<char>,
    name: Seq<char>,
    revision: Seq<char>,
    path: Option<Seq<char>>,
    depth: Option<u32>,
)
    ensures
        trees::get_tree(k, config, owner, name, revision, path) matches StepView::Failed(error)
            ==> reasoned(k, config, owner, name, error) || no_directory(k, revision, path, error),
        trees::get_tree_recursive(
            k,
            config,
            owner,
            name,
            revision,
            path,
            depth,
        ) matches StepView::Failed(error) ==> reasoned(k, config, owner, name, error)
            || no_directory(k, revision, path, error),
{
    reveal_strlit("/");
    assert("/"@ =~= seq!['/']);
    let step = trees::directory_at(k, config, owner, name, revision, path);
    if let StepView::Done(dir) = step {
        let root = root_told(k, revision)->0;
        lemma_errors_told(k, root);
        if !whole(path) {
            lemma_errors_told(k, item_told(k, root, path->0)->0.oid);
        }
        assert(errors_told(k, dir.0));
        let levels = match depth {
            Some(n) => n,
            None => trees::DEFAULT_DEPTH,
        };
        let all = trees::collected(k, dir.0, dir.1, levels as nat);
        law_lists_fail_by_an_item(all);
        if let StepView::Failed(error) = host::gather(all) {
            lemma_collected_fails(k, dir.0, dir.1, levels as nat, error);
            lemma_in_a_tree(k, error->Gix_0);
        }
        let flat = dir.0.map_values(
            |item: OutcomeView<TreeItemView>| trees::listed(k, dir.1, item),
        );
        law_lists_fail_by_an_item(flat);
        if let StepView::Failed(error) = host::gather(flat) {
            let fail = ItemView::<TreeEntryView, GitErrorView>::Fail(error);
            let i = choose|i: int| 0 <= i < flat.len() && #[trigger] flat[i] == fail;
            assert(flat[i] == trees::listed(k, dir.1, dir.0[i]));
            lemma_in_a_tree(k, error->Gix_0);
        }
    }
}

/// A directory below the one that is asked for, or below the tree that is compared with
/// nothing, may be one that cannot be read: that is no reason to fail, only an entry is.
pub proof fn law_unreadable_directories_are_passed_over(
    k: Seq<(HostCallView, ReplyView)>,
    config: StorageConfigView,
    owner: Seq<char>,
    name: Seq<char>,
    revision: Seq<char>,
    path: Option<Seq<char>>,
    depth: u32,
    tree: Seq<char>,
    filter: Option<Seq<char>>,
    lines: Option<u32>,
)
    ensures
        trees::directory_at(k, config, owner, name, revision, path) is Done ==> (
        trees::get_tree_recursive(
            k,
            config,
            owner,
            name,
            revision,
            path,
            Some(depth),
        ) matches StepView::Failed(error) ==> error is Gix && in_a_tree(k, error->Gix_0)),
        items_told(k, tree) is Some ==> (diff::diff_initial(
            k,
            tree,
            filter,
            lines,
        ) matches StepView::Failed(error) ==> error is Gix && in_a_tree(k, error->Gix_0)),
{
    super::contents::law_directories_are_found_as_told(k, config, owner, name, revision, path);
    if let StepView::Done(dir) = trees::directory_at(k, config, owner, name, revision, path) {
        let root = root_told(k, revision)->0;
        lemma_errors_told(k, root);
        if !whole(path) {
            lemma_errors_told(k, item_told(k, root, path->0)->0.oid);
        }
        let all = trees::collected(k, dir.0, dir.1, depth as nat);
        law_lists_fail_by_an_item(all);
        if let StepView::Failed(error) = host::gather(all) {
            lemma_collected_fails(k, dir.0, dir.1, depth as nat, error);
        }
    }
    if let Some(items) = items_told(k, tree) {
        lemma_errors_told(k, tree);
        let context = diff::context_of(lines);
        let all = diff::initial_items(k, items, Seq::empty(), filter, context, k.len());
        law_lists_fail_by_an_item(all);
        if let StepView::Failed(error) = host::gather(all) {
            lemma_initial_fails(k, items, Seq::empty(), filter, context, k.len(), error);
        }
    }
}

/// Files are read unless there is a reason why not: the machine tells one, or there is
/// none at the path.
pub proof fn law_file_calls_fail_for_a_reason(
    k: Seq<(HostCallView, ReplyView)>,
    config: StorageConfigView,
    owner: Seq<char>,
    name: Seq<char>,
    a: Seq<char>,
    path: Seq<char>,
)
    ensures
        trees::get_blob(k, config, owner, name, a) matches StepView::Failed(error) ==> reasoned(
            k,
            config,
            owner,
            name,
            error,
        ),
        trees::get_blob_by_path(k, config, owner, name, a, path) matches StepView::Failed(error)
            ==> reasoned(k, config, owner, name, error) || root_told(k, a) is Some && (no_item(
            k,
            root_told(k, a)->0,
            path,
            error,
        ) || item_told(k, root_told(k, a)->0, path) is Some && !is_file(
            item_told(k, root_told(k, a)->0, path)->0.mode,
        ) && error == (GitErrorView::InvalidRef { reference: path + " is not a file"@ })),
{
    if let StepView::Failed(error) = trees::get_blob(k, config, owner, name, a) {
        if let Some(id) = objects::object_id(a) {
            let reply = host::reply_to(k, HostCallView::Blob { oid: id });
            if let Some(ReplyView::Blob(OutcomeView::Error(words))) = reply {
                assert(tells(reply, words));
            }
        }
    }
}

/// What is compared does not fail.
proof fn lemma_compared_never_fails(
    k: Seq<(HostCallView, ReplyView)>,
    change: diff::DiffChangeView,
    context: nat,
    error: GitErrorView,
)
    ensures
        !diff::compared(k, change, context).contains(ItemView::Fail(error)),
{
}

/// The difference from nothing fails only as the machine tells.
proof fn lemma_initial_fails(
    k: Seq<(HostCallView, ReplyView)>,
    items: Seq<OutcomeView<TreeItemView>>,
    base: Seq<char>,
    filter: Option<Seq<char>>,
    context: nat,
    depth: nat,
    error: GitErrorView,
)
    requires
        errors_told(k, items),
        diff::initial_items(k, items, base, filter, context, depth).contains(ItemView::Fail(error)),
    ensures
        error is Gix && in_a_tree(k, error->Gix_0),
    decreases depth, items.len(),
{
    let all = diff::initial_items(k, items, base, filter, context, depth);
    let fail = ItemView::<FileDiffView, GitErrorView>::Fail(error);
    let n = choose|n: int| 0 <= n < all.len() && #[trigger] all[n] == fail;
    if items.len() > 0 {
        let rest = items.drop_last();
        let last = items.last();
        let a = diff::initial_items(k, rest, base, filter, context, depth);
        let b = diff::initial_item(k, last, base, filter, context, depth);
        assert(all == a + b);
        if n < a.len() {
            assert(a[n] == fail);
            assert forall|i: int| 0 <= i < rest.len() && (#[trigger] rest[i]) is Error implies in_a_tree(
                k,
                rest[i]->Error_0,
            ) by {
                assert(rest[i] == items[i]);
            }
            lemma_initial_fails(k, rest, base, filter, context, depth, error);
        } else {
            assert(b[n - a.len()] == fail);
            assert(b.contains(fail));
            assert(items[items.len() - 1] == last);
            if let OutcomeView::Got(item) = last {
                let path = diff::path_in(base, item.name);
                let call = HostCallView::Tree { oid: item.oid };
                lemma_compared_never_fails(
                    k,
                    diff::added(path, item.mode, item.oid),
                    context,
                    error,
                );
                lemma_errors_told(k, item.oid);
                if let Some(OutcomeView::Got(inner)) = host::tree(k, call) {
                    if objects::kind_of(item.mode) == objects::EntryKind::Tree && depth > 0 {
                        lemma_initial_fails(
                            k,
                            inner,
                            path,
                            filter,
                            context,
                            (depth - 1) as nat,
                            error,
                        );
                    }
                }
            }
        }
    }
}

/// Trees are compared unless the machine tells why not.
proof fn lemma_diffs_fail(
    k: Seq<(HostCallView, ReplyView)>,
    old: Seq<char>,
    new: Seq<char>,
    filter: Option<Seq<char>>,
    lines: Option<u32>,
)
    ensures
        diff::diff_trees(k, old, new, filter, lines) matches StepView::Failed(error)
            ==> error is Gix && reported(k, error->Gix_0),
        diff::diff_initial(k, new, filter, lines) matches StepView::Failed(error) ==> error is Gix
            && reported(k, error->Gix_0),
{
    let context = diff::context_of(lines);
    if let StepView::Done(changes) = crate::git::lookup::changes_between(k, old, new) {
        let f = |change: TreeChangeView| diff::change_items(k, change, filter, context);
        let items = changes.flat_map(f);
        law_lists_fail_by_an_item(items);
        if let StepView::Failed(error) = host::gather(items) {
            let fail = ItemView::<FileDiffView, GitErrorView>::Fail(error);
            lemma_from(changes, f, fail);
            let i = choose|i: int| 0 <= i < changes.len() && f(#[trigger] changes[i]).contains(fail);
            assert(f(changes[i]).contains(fail));
            lemma_compared_never_fails(k, diff::diff_change(changes[i]), context, error);
        }
    }
    if let StepView::Done(items) = crate::git::lookup::tree_at(k, new) {
        lemma_errors_told(k, new);
        let all = diff::initial_items(k, items, Seq::empty(), filter, context, k.len());
        law_lists_fail_by_an_item(all);
        if let StepView::Failed(error) = host::gather(all) {
            lemma_initial_fails(k, items, Seq::empty(), filter, context, k.len(), error);
            lemma_in_a_tree(k, error->Gix_0);
        }
    }
}

/// Commits are compared unless there is a reason why not.
pub proof fn law_diff_calls_fail_for_a_reason(
    k: Seq<(HostCallView, ReplyView)>,
    config: StorageConfigView,
    owner: Seq<char>,
    name: Seq<char>,
    a: Seq<char>,
    b: Seq<char>,
    filter: Option<Seq<char>>,
    lines: Option<u32>,
)
    ensures
        diff::diff_commits(k, config, owner, name, a, b, filter, lines) matches StepView::Failed(
            error,
        ) ==> reasoned(k, config, owner, name, error),
        diff::diff_commit(k, config, owner, name, a, filter, lines) matches StepView::Failed(error)
            ==> reasoned(k, config, owner, name, error),
{
    if let (Some(old), Some(new)) = (root_told(k, a), root_told(k, b)) {
        lemma_diffs_fail(k, old, new, filter, lines);
    }
    if let Some(new) = root_told(k, b) {
        lemma_diffs_fail(k, new, new, filter, lines);
    }
    if let Some(new) = root_told(k, a) {
        lemma_diffs_fail(k, new, new, filter, lines);
        let parents = record_told(k, revision_told(k, a)->0)->0.parents;
        if parents.len() > 0 {
            if let Some(old) = super::merging::tree_told(k, parents[0]) {
                lemma_diffs_fail(k, old, new, filter, lines);
            }
        }
    }
}

} // verus!
