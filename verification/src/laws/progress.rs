//! Every operation gets somewhere: what it asks for is not known yet.
//!
//! So whoever runs an operation and records a reply of the right kind to each of
//! its calls, never makes a call twice.

use vstd::prelude::*;

use super::host::{law_gather_progresses, progresses, wants_news};
use crate::git::commits;
use crate::git::hook::{self, UpdateLineView};
use crate::git::objects::TreeItemView;
use crate::git::operations;
use crate::git::refs::{self, RefType};
use crate::git::repository;
use crate::git::trees;
use crate::git::{self, StorageConfigView};
use crate::host::{self, HostCallView, ItemView, OutcomeView, RawRefView, ReplyView, StepView};

verus! {

/// A merge asks only for what is not known yet.
pub proof fn law_merge_progresses(
    k: Seq<(HostCallView, ReplyView)>,
    config: StorageConfigView,
    owner: Seq<char>,
    name: Seq<char>,
    base_ref: Seq<char>,
    head_ref: Seq<char>,
    allow_fast_forward: bool,
)
    ensures
        progresses(
            k,
            operations::merge(k, config, owner, name, base_ref, head_ref, allow_fast_forward),
        ),
{
}

/// A cherry-pick asks only for what is not known yet.
pub proof fn law_cherry_pick_progresses(
    k: Seq<(HostCallView, ReplyView)>,
    config: StorageConfigView,
    owner: Seq<char>,
    name: Seq<char>,
    commit_ref: Seq<char>,
    onto_ref: Seq<char>,
)
    ensures
        progresses(k, operations::cherry_pick(k, config, owner, name, commit_ref, onto_ref)),
{
}

/// A rebase asks only for what is not known yet.
pub proof fn law_rebase_progresses(
    k: Seq<(HostCallView, ReplyView)>,
    config: StorageConfigView,
    owner: Seq<char>,
    name: Seq<char>,
    branch_ref: Seq<char>,
    onto_ref: Seq<char>,
)
    ensures
        progresses(k, operations::rebase(k, config, owner, name, branch_ref, onto_ref)),
{
}

/// Looking for objects asks only for what is not known yet.
pub proof fn law_objects_exist_progresses(
    k: Seq<(HostCallView, ReplyView)>,
    config: StorageConfigView,
    owner: Seq<char>,
    name: Seq<char>,
    oids: Seq<Seq<char>>,
)
    ensures
        progresses(k, operations::objects_exist(k, config, owner, name, oids)),
{
    let items = oids.map_values(|oid: Seq<char>| operations::existence(k, oid));
    law_gather_progresses(k, items);
}

/// Creating, finding, renaming and deleting repositories asks only for what is
/// not known yet.
pub proof fn law_repository_progresses(
    k: Seq<(HostCallView, ReplyView)>,
    config: StorageConfigView,
    owner: Seq<char>,
    name: Seq<char>,
    new_name: Seq<char>,
    branch: Option<Seq<char>>,
)
    ensures
        progresses(k, repository::init(k, config, owner, name, branch)),
        progresses(k, repository::repository_exists(k, config, owner, name)),
        progresses(k, repository::rename(k, config, owner, name, new_name)),
        progresses(k, repository::delete(k, config, owner, name)),
        progresses(k, repository::get_info(k, config, owner, name)),
        progresses(k, git::ensure_hook(k, config)),
{
}

/// Resolving, creating and deleting references asks only for what is not known yet.
pub proof fn law_refs_progress(
    k: Seq<(HostCallView, ReplyView)>,
    config: StorageConfigView,
    owner: Seq<char>,
    name: Seq<char>,
    reference: Seq<char>,
    target: Seq<char>,
    force: bool,
)
    ensures
        progresses(k, refs::resolve_ref(k, config, owner, name, reference)),
        progresses(k, refs::create_branch(k, config, owner, name, reference, target)),
        progresses(k, refs::delete_branch(k, config, owner, name, reference, force)),
        progresses(k, refs::set_default_branch(k, config, owner, name, reference)),
        progresses(k, refs::create_tag(k, config, owner, name, reference, target)),
        progresses(k, refs::delete_tag(k, config, owner, name, reference)),
{
}

/// What every part of a list has, the whole has.
pub proof fn lemma_flat_map_wants_news<A, T, E>(
    k: Seq<(HostCallView, ReplyView)>,
    xs: Seq<A>,
    f: spec_fn(A) -> Seq<ItemView<T, E>>,
)
    requires
        forall|i: int| 0 <= i < xs.len() ==> wants_news(k, f(#[trigger] xs[i])),
    ensures
        wants_news(k, xs.flat_map(f)),
    decreases xs.len(),
{
    let all = xs.flat_map(f);
    if xs.len() == 0 {
        assert(all.len() == 0);
    } else {
        let rest = xs.drop_last();
        assert forall|i: int| 0 <= i < rest.len() implies wants_news(k, f(#[trigger] rest[i])) by {
            assert(rest[i] == xs[i]);
        }
        lemma_flat_map_wants_news(k, rest, f);
        xs.lemma_flat_map_take_append(f, xs.len() - 1);
        assert(xs.take(xs.len() as int) == xs);
        assert(xs.take(xs.len() - 1) == rest);
        assert(all == rest.flat_map(f) + f(xs.last()));
        assert(wants_news(k, f(xs[xs.len() - 1])));
        lemma_concat_wants_news(k, rest.flat_map(f), f(xs.last()));
    }
}

/// What two lists have, they have one after the other.
pub proof fn lemma_concat_wants_news<T, E>(
    k: Seq<(HostCallView, ReplyView)>,
    a: Seq<ItemView<T, E>>,
    b: Seq<ItemView<T, E>>,
)
    requires
        wants_news(k, a),
        wants_news(k, b),
    ensures
        wants_news(k, a + b),
{
    let all = a + b;
    assert forall|i: int| 0 <= i < all.len() implies match #[trigger] all[i] {
        ItemView::Need(call) => !host::answered(k, call),
        _ => true,
    } by {
        if i < a.len() {
            assert(all[i] == a[i]);
        } else {
            assert(all[i] == b[i - a.len()]);
        }
    }
}

/// Listing references asks only for what is not known yet.
pub proof fn law_list_refs_progresses(
    k: Seq<(HostCallView, ReplyView)>,
    config: StorageConfigView,
    owner: Seq<char>,
    name: Seq<char>,
    filter: Option<RefType>,
    pattern: Option<Seq<char>>,
)
    ensures
        progresses(k, refs::list_refs(k, config, owner, name, filter, pattern)),
{
    if let Some(OutcomeView::Got(references)) = host::references(
        k,
        HostCallView::References { filter },
    ) {
        if let Some(head) = host::id(k, HostCallView::Head) {
            let f = |reference: OutcomeView<RawRefView>| refs::listed(head, pattern, reference);
            lemma_flat_map_wants_news(k, references, f);
            law_gather_progresses(k, references.flat_map(f));
        }
    }
}

/// Reading files asks only for what is not known yet.
pub proof fn law_blobs_progress(
    k: Seq<(HostCallView, ReplyView)>,
    config: StorageConfigView,
    owner: Seq<char>,
    name: Seq<char>,
    revision: Seq<char>,
    path: Seq<char>,
)
    ensures
        progresses(k, trees::get_blob(k, config, owner, name, path)),
        progresses(k, trees::get_blob_info(k, config, owner, name, path)),
        progresses(k, trees::get_blob_by_path(k, config, owner, name, revision, path)),
{
}

/// What a directory and those below it want is news.
proof fn lemma_collected_wants_news(
    k: Seq<(HostCallView, ReplyView)>,
    items: Seq<OutcomeView<TreeItemView>>,
    base: Seq<char>,
    depth: nat,
)
    ensures
        wants_news(k, trees::collected(k, items, base, depth)),
    decreases depth, items.len(), 1nat,
{
    if items.len() > 0 {
        lemma_collected_wants_news(k, items.drop_last(), base, depth);
        lemma_below_wants_news(k, items.last(), base, depth);
        let before = trees::collected(k, items.drop_last(), base, depth);
        let one = seq![trees::listed(k, base, items.last())];
        lemma_concat_wants_news(k, before, one);
        lemma_concat_wants_news(
            k,
            before + one,
            trees::below(k, items.last(), base, depth),
        );
    }
}

/// What is below an entry wants news.
proof fn lemma_below_wants_news(
    k: Seq<(HostCallView, ReplyView)>,
    item: OutcomeView<TreeItemView>,
    base: Seq<char>,
    depth: nat,
)
    ensures
        wants_news(k, trees::below(k, item, base, depth)),
    decreases depth, 0nat, 0nat,
{
    if let OutcomeView::Got(entry) = item {
        if depth > 0 {
            if let Some(OutcomeView::Got(inner)) = host::tree(
                k,
                HostCallView::Tree { oid: entry.oid },
            ) {
                lemma_collected_wants_news(
                    k,
                    inner,
                    base + entry.name + "/"@,
                    (depth - 1) as nat,
                );
            }
        }
    }
}

/// Listing directories asks only for what is not known yet.
pub proof fn law_trees_progress(
    k: Seq<(HostCallView, ReplyView)>,
    config: StorageConfigView,
    owner: Seq<char>,
    name: Seq<char>,
    revision: Seq<char>,
    path: Option<Seq<char>>,
    max_depth: Option<u32>,
)
    ensures
        progresses(k, trees::get_tree(k, config, owner, name, revision, path)),
        progresses(
            k,
            trees::get_tree_recursive(k, config, owner, name, revision, path, max_depth),
        ),
{
    let dir = trees::directory_at(k, config, owner, name, revision, path);
    if let StepView::Done(found) = dir {
        law_gather_progresses(
            k,
            found.0.map_values(
                |item: OutcomeView<TreeItemView>| trees::listed(k, found.1, item),
            ),
        );
        let depth = match max_depth {
            Some(depth) => depth,
            None => trees::DEFAULT_DEPTH,
        };
        lemma_collected_wants_news(k, found.0, found.1, depth as nat);
        law_gather_progresses(k, trees::collected(k, found.0, found.1, depth as nat));
    }
}

/// A history that a walk has told.
proof fn lemma_history_progresses(
    k: Seq<(HostCallView, ReplyView)>,
    start: Seq<char>,
    skip: u32,
    take: u32,
    path: Option<Seq<char>>,
)
    ensures
        progresses(k, commits::history(k, start, skip, take, path)),
{
    let call = HostCallView::Walk { start, until: None, limit: Some((skip + take) as u64) };
    if let Some(OutcomeView::Got(steps)) = host::walk(k, call) {
        let f = |step: OutcomeView<Seq<char>>| commits::log_items(k, step, path);
        let shown = commits::window(steps, skip as nat, take as nat);
        lemma_flat_map_wants_news(k, shown, f);
        law_gather_progresses(k, shown.flat_map(f));
    }
}

/// Reading commits and their history asks only for what is not known yet.
pub proof fn law_commits_progress(
    k: Seq<(HostCallView, ReplyView)>,
    config: StorageConfigView,
    owner: Seq<char>,
    name: Seq<char>,
    revision: Seq<char>,
    other: Seq<char>,
    limit: Option<u32>,
    skip: Option<u32>,
    path: Option<Seq<char>>,
)
    ensures
        progresses(k, commits::get_commit(k, config, owner, name, revision)),
        progresses(k, commits::get_log(k, config, owner, name, revision, limit, skip, path)),
        progresses(k, commits::get_ancestors(k, config, owner, name, revision, limit)),
        progresses(k, commits::find_merge_base(k, config, owner, name, revision, other)),
{
    if let StepView::Done(start) = git::lookup::resolved(k, revision) {
        lemma_history_progresses(
            k,
            start,
            commits::given_or(skip, 0),
            commits::given_or(limit, commits::DEFAULT_LIMIT),
            path,
        );
    }
    if let Some(start) = git::objects::object_id(revision) {
        lemma_history_progresses(
            k,
            start,
            1,
            commits::given_or(limit, commits::DEFAULT_LIMIT),
            None,
        );
    }
}

/// The paths that a push changes.
proof fn lemma_changed_paths_progress(k: Seq<(HostCallView, ReplyView)>, new: Seq<char>)
    ensures
        progresses(k, hook::changed_paths(k, new)),
{
    if let Some(run) = host::process(k, hook::rev_list(new)) {
        if let Ok(output) = hook::printed("git rev-list"@, run) {
            let f = |commit: Seq<char>| hook::commit_paths(k, commit);
            let commits = hook::filled_lines(output);
            lemma_flat_map_wants_news(k, commits, f);
            law_gather_progresses(k, commits.flat_map(f));
        }
    }
}

/// The steps of a list want news.
proof fn lemma_step_wants_news<T, E>(k: Seq<(HostCallView, ReplyView)>, step: StepView<T, E>)
    requires
        progresses(k, step),
    ensures
        wants_news(k, host::step_items(step)),
{
}

/// Judging a push asks only for what is not known yet.
pub proof fn law_hook_progresses(
    k: Seq<(HostCallView, ReplyView)>,
    refs: Option<Seq<char>>,
    paths: Option<Seq<char>>,
    protected: Option<Seq<char>>,
    input: Option<Seq<char>>,
)
    ensures
        progresses(k, hook::pre_receive(k, refs, paths, protected, input)),
{
    if let Some(updates) = input {
        let lines = hook::update_lines(updates);
        let want = hook::patterns_of(paths) is Some;
        let f = |line: UpdateLineView| host::step_items(hook::update_of(k, want, line));
        assert forall|i: int| 0 <= i < lines.len() implies wants_news(k, f(#[trigger] lines[i])) by {
            lemma_changed_paths_progress(k, lines[i].new);
            lemma_step_wants_news(k, hook::update_of(k, want, lines[i]));
        }
        lemma_flat_map_wants_news(k, lines, f);
        law_gather_progresses(k, lines.flat_map(f));
        if let Some(list) = hook::protected_of(protected) {
            let g = |line: UpdateLineView| hook::protection(k, list, line);
            lemma_flat_map_wants_news(k, lines, g);
            law_gather_progresses(k, lines.flat_map(g));
        }
    }
}

} // verus!
