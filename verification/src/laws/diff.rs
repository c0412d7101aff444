//! What holds of every difference between trees.

use vstd::prelude::*;

use super::host::{
    all_values, keeps, law_gather_done, law_gather_progresses, lemma_concat_values_have,
    lemma_done_items, lemma_filter_all, lemma_filter_none, lemma_filter_values,
    lemma_flat_map_filter, lemma_flat_map_values_have, lemma_parts_are_values,
    lemma_values_are_done, progresses, values_have, wants_news,
};
use super::progress::{lemma_concat_wants_news, lemma_flat_map_wants_news};
use crate::git::diff::{
    self, DiffChangeView, DiffResultView, FileDiffView, FileStatus, LineType,
};
use crate::git::hunks;
use crate::git::objects::{self, CommitRecordView, EntryKind, TreeItemView};
use crate::git::{lookup, GitErrorView, StorageConfigView};
use crate::host::{self, HostCallView, ItemView, OutcomeView, ReplyView, StepView, TreeChangeView};

verus! {

/// A file is shown as the lines it takes to get from one version to the other;
/// of a binary one none are shown, and a filter is kept to.
pub open spec fn sound(filter: Option<Seq<char>>) -> spec_fn(FileDiffView) -> bool {
    |file: FileDiffView|
        diff::passes(filter, file.path) && (file.is_binary ==> file.hunks.len() == 0)
}

/// The difference between two trees shows only files that the filter lets
/// through, and no lines of binary ones.
pub proof fn law_diff_trees_is_sound(
    k: Seq<(HostCallView, ReplyView)>,
    old_tree: Seq<char>,
    new_tree: Seq<char>,
    filter: Option<Seq<char>>,
    context_lines: Option<u32>,
)
    ensures
        match diff::diff_trees(k, old_tree, new_tree, filter, context_lines) {
            StepView::Done(result) => {
                &&& forall|i: int|
                    0 <= i < result.files.len() ==> #[trigger] diff::passes(
                        filter,
                        result.files[i].path,
                    )
                &&& forall|i: int|
                    0 <= i < result.files.len() && (#[trigger] result.files[i]).is_binary
                        ==> result.files[i].hunks.len() == 0
            },
            _ => true,
        },
{
    if let StepView::Done(changes) = lookup::changes_between(k, old_tree, new_tree) {
        let f = |change: TreeChangeView|
            diff::change_items(k, change, filter, diff::context_of(context_lines));
        let p = sound(filter);
        let items = changes.flat_map(f);
        lemma_flat_map_values_have(changes, f, p);
        law_gather_done(items);
        if let StepView::Done(files) = host::gather(items) {
            assert forall|i: int| 0 <= i < files.len() implies p(#[trigger] files[i]) by {
                assert(items[i] == ItemView::<FileDiffView, GitErrorView>::Value(files[i]));
            }
            assert forall|i: int| 0 <= i < files.len() implies #[trigger] diff::passes(
                filter,
                files[i].path,
            ) by {
                assert(p(files[i]));
            }
            assert forall|i: int| 0 <= i < files.len() && (#[trigger] files[i]).is_binary implies files[i].hunks.len()
                == 0 by {
                assert(p(files[i]));
            }
        }
    }
}

/// A file of a first commit: added, with no old version and no deleted lines.
pub open spec fn wholly_new(filter: Option<Seq<char>>) -> spec_fn(FileDiffView) -> bool {
    |file: FileDiffView|
        {
            &&& file.status == FileStatus::Added
            &&& file.old_oid is None
            &&& file.old_mode is None
            &&& diff::passes(filter, file.path)
            &&& hunks::total_type(file.hunks, LineType::Deletion) == 0
        }
}

/// A file that was added has no deleted lines.
proof fn lemma_added_deletes_nothing(
    k: Seq<(HostCallView, ReplyView)>,
    change: DiffChangeView,
    filter: Option<Seq<char>>,
    context: nat,
)
    requires
        change.status == FileStatus::Added,
        change.old_oid is None,
        change.old_mode is None,
        diff::passes(filter, change.path),
    ensures
        values_have(diff::compared(k, change, context), wholly_new(filter)),
{
    if let Ok(new) = diff::contents(k, change.new_oid) {
        let lines = diff::lines_of(new);
        let nothing = diff::lines_of(None);
        super::hunks::law_changes_shown(nothing, lines, context);
        assert(nothing.len() * lines.len() == 0);
        let file = diff::file_diff(change, None, new, context);
        if file.is_binary {
            assert(hunks::total_type(file.hunks, LineType::Deletion) == 0);
        }
        assert(wholly_new(filter)(file));
    }
}

/// The files of a first commit are wholly new.
proof fn lemma_initial_values(
    k: Seq<(HostCallView, ReplyView)>,
    items: Seq<OutcomeView<TreeItemView>>,
    base: Seq<char>,
    filter: Option<Seq<char>>,
    context: nat,
    depth: nat,
)
    ensures
        values_have(
            diff::initial_items(k, items, base, filter, context, depth),
            wholly_new(filter),
        ),
    decreases depth, items.len(), 1nat,
{
    if items.len() > 0 {
        lemma_initial_values(k, items.drop_last(), base, filter, context, depth);
        lemma_initial_value(k, items.last(), base, filter, context, depth);
        lemma_concat_values_have(
            diff::initial_items(k, items.drop_last(), base, filter, context, depth),
            diff::initial_item(k, items.last(), base, filter, context, depth),
            wholly_new(filter),
        );
    }
}

/// The files that an entry stands for are wholly new.
proof fn lemma_initial_value(
    k: Seq<(HostCallView, ReplyView)>,
    item: OutcomeView<TreeItemView>,
    base: Seq<char>,
    filter: Option<Seq<char>>,
    context: nat,
    depth: nat,
)
    ensures
        values_have(
            diff::initial_item(k, item, base, filter, context, depth),
            wholly_new(filter),
        ),
    decreases depth, 0nat, 0nat,
{
    if let OutcomeView::Got(entry) = item {
        let path = diff::path_in(base, entry.name);
        match objects::kind_of(entry.mode) {
            EntryKind::Tree => {
                if let Some(OutcomeView::Got(inner)) = host::tree(
                    k,
                    HostCallView::Tree { oid: entry.oid },
                ) {
                    if depth > 0 {
                        lemma_initial_values(k, inner, path, filter, context, (depth - 1) as nat);
                    }
                }
            },
            EntryKind::Blob | EntryKind::BlobExecutable => {
                if diff::passes(filter, path) {
                    lemma_added_deletes_nothing(
                        k,
                        diff::added(path, entry.mode, entry.oid),
                        filter,
                        context,
                    );
                }
            },
            _ => {},
        }
    }
}

/// The deleted lines of files none of which has any.
proof fn lemma_no_deleted_lines(files: Seq<FileDiffView>)
    requires
        forall|i: int|
            0 <= i < files.len() ==> hunks::total_type(
                (#[trigger] files[i]).hunks,
                LineType::Deletion,
            ) == 0,
    ensures
        diff::total_lines(files, LineType::Deletion) == 0,
    decreases files.len(),
{
    if files.len() > 0 {
        let rest = files.drop_last();
        assert forall|i: int| 0 <= i < rest.len() implies hunks::total_type(
            (#[trigger] rest[i]).hunks,
            LineType::Deletion,
        ) == 0 by {
            assert(rest[i] == files[i]);
        }
        lemma_no_deleted_lines(rest);
        assert(hunks::total_type(files[files.len() - 1].hunks, LineType::Deletion) == 0);
    }
}

/// Against nothing every file is added and nothing is deleted.
pub proof fn law_initial_only_adds(
    k: Seq<(HostCallView, ReplyView)>,
    tree: Seq<char>,
    filter: Option<Seq<char>>,
    context_lines: Option<u32>,
)
    ensures
        match diff::diff_initial(k, tree, filter, context_lines) {
            StepView::Done(result) => {
                &&& result.old_oid is None
                &&& result.stats.deletions == 0
                &&& forall|i: int|
                    0 <= i < result.files.len() ==> (#[trigger] result.files[i]).status
                        == FileStatus::Added && result.files[i].old_oid is None
            },
            _ => true,
        },
{
    if let StepView::Done(items) = lookup::tree_at(k, tree) {
        let context = diff::context_of(context_lines);
        let found = diff::initial_items(k, items, Seq::empty(), filter, context, k.len());
        lemma_initial_values(k, items, Seq::empty(), filter, context, k.len());
        law_gather_done(found);
        if let StepView::Done(files) = host::gather(found) {
            let p = wholly_new(filter);
            assert forall|i: int| 0 <= i < files.len() implies p(#[trigger] files[i]) by {
                assert(found[i] == ItemView::<FileDiffView, GitErrorView>::Value(files[i]));
            }
            assert forall|i: int| 0 <= i < files.len() implies hunks::total_type(
                (#[trigger] files[i]).hunks,
                LineType::Deletion,
            ) == 0 by {
                assert(p(files[i]));
            }
            lemma_no_deleted_lines(files);
            assert forall|i: int| 0 <= i < files.len() implies (#[trigger] files[i]).status
                == FileStatus::Added && files[i].old_oid is None by {
                assert(p(files[i]));
            }
        }
    }
}

/// Where a reply to a call stands among the replies.
pub open spec fn position(k: Seq<(HostCallView, ReplyView)>, call: HostCallView) -> nat
    decreases k.len(),
{
    if k.len() == 0 || k[0].0 == call {
        0
    } else {
        1 + position(k.skip(1), call)
    }
}

/// A call that has a reply has it at its position.
proof fn lemma_position(k: Seq<(HostCallView, ReplyView)>, call: HostCallView)
    requires
        host::reply_to(k, call) is Some,
    ensures
        position(k, call) < k.len(),
        k[position(k, call) as int].0 == call,
    decreases k.len(),
{
    if k.len() > 0 && k[0].0 != call {
        lemma_position(k.skip(1), call);
    }
}

/// No more different calls have replies than there are replies.
pub proof fn law_replies_bound_calls(
    k: Seq<(HostCallView, ReplyView)>,
    calls: Seq<HostCallView>,
)
    requires
        calls.no_duplicates(),
        forall|i: int| 0 <= i < calls.len() ==> host::reply_to(k, #[trigger] calls[i]) is Some,
    ensures
        calls.len() <= k.len(),
{
    let places = Seq::new(calls.len(), |i: int| position(k, calls[i]) as int);
    assert forall|i: int| 0 <= i < places.len() implies 0 <= #[trigger] places[i] < k.len() by {
        lemma_position(k, calls[i]);
    }
    assert forall|i: int, j: int| 0 <= i < places.len() && 0 <= j < places.len() && i
        != j implies places[i] != places[j] by {
        lemma_position(k, calls[i]);
        lemma_position(k, calls[j]);
        assert(calls[i] != calls[j]);
    }
    places.unique_seq_to_set();
    let range = vstd::set_lib::set_int_range(0, k.len() as int);
    vstd::set_lib::lemma_int_range(0, k.len() as int);
    assert(places.to_set().subset_of(range));
    vstd::set_lib::lemma_len_subset(places.to_set(), range);
}

/// Whether an item of a tree is a certain tree.
pub open spec fn is_tree(item: OutcomeView<TreeItemView>, oid: Seq<char>) -> bool {
    match item {
        OutcomeView::Got(entry) => entry.oid == oid && objects::kind_of(entry.mode)
            == EntryKind::Tree,
        OutcomeView::Error(error) => false,
    }
}

/// Whether one tree is known to hold another.
pub open spec fn holds(
    k: Seq<(HostCallView, ReplyView)>,
    outer: Seq<char>,
    inner: Seq<char>,
) -> bool {
    match host::tree(k, HostCallView::Tree { oid: outer }) {
        Some(OutcomeView::Got(items)) => exists|i: int|
            0 <= i < items.len() && is_tree(#[trigger] items[i], inner),
        _ => false,
    }
}

/// Whether a ranking shows that no tree lies within itself: each known tree
/// ranks above the trees in it.
pub open spec fn ranked(
    k: Seq<(HostCallView, ReplyView)>,
    rank: spec_fn(Seq<char>) -> nat,
) -> bool {
    forall|outer: Seq<char>, inner: Seq<char>| #[trigger]
        holds(k, outer, inner) ==> rank(inner) < rank(outer)
}

/// Whether trees lie one within the other: each is known and ranks below the
/// ones before it.
pub open spec fn nested(
    k: Seq<(HostCallView, ReplyView)>,
    rank: spec_fn(Seq<char>) -> nat,
    chain: Seq<Seq<char>>,
) -> bool {
    &&& forall|i: int|
        0 <= i < chain.len() ==> host::tree(
            k,
            HostCallView::Tree { oid: #[trigger] chain[i] },
        ) is Some
    &&& forall|i: int, j: int|
        0 <= i < j < chain.len() ==> rank(#[trigger] chain[j]) < rank(#[trigger] chain[i])
}

/// Trees that lie one within the other are no more than the replies.
proof fn lemma_nested_is_short(
    k: Seq<(HostCallView, ReplyView)>,
    rank: spec_fn(Seq<char>) -> nat,
    chain: Seq<Seq<char>>,
)
    requires
        nested(k, rank, chain),
    ensures
        chain.len() <= k.len(),
{
    let calls = chain.map_values(|oid: Seq<char>| HostCallView::Tree { oid });
    assert forall|i: int, j: int| 0 <= i < calls.len() && 0 <= j < calls.len() && i
        != j implies calls[i] != calls[j] by {
        if i < j {
            assert(rank(chain[j]) < rank(chain[i]));
        } else {
            assert(rank(chain[i]) < rank(chain[j]));
        }
    }
    assert forall|i: int| 0 <= i < calls.len() implies host::reply_to(
        k,
        #[trigger] calls[i],
    ) is Some by {
        assert(host::tree(k, HostCallView::Tree { oid: chain[i] }) is Some);
    }
    law_replies_bound_calls(k, calls);
}

/// What a tree that is known wants is news, as long as the trees around it leave
/// room.
proof fn lemma_initial_wants_news(
    k: Seq<(HostCallView, ReplyView)>,
    rank: spec_fn(Seq<char>) -> nat,
    chain: Seq<Seq<char>>,
    items: Seq<OutcomeView<TreeItemView>>,
    base: Seq<char>,
    filter: Option<Seq<char>>,
    context: nat,
    depth: nat,
)
    requires
        ranked(k, rank),
        nested(k, rank, chain),
        chain.len() > 0,
        depth + chain.len() > k.len(),
        host::tree(k, HostCallView::Tree { oid: chain.last() }) matches Some(
            OutcomeView::Got(whole),
        ) && items.is_prefix_of(whole),
    ensures
        wants_news(k, diff::initial_items(k, items, base, filter, context, depth)),
    decreases depth, items.len(),
{
    if items.len() > 0 {
        let whole = host::tree(k, HostCallView::Tree { oid: chain.last() })->0->Got_0;
        let rest = items.drop_last();
        let n = items.len() - 1;
        assert(items[n] == whole.subrange(0, items.len() as int)[n]);
        assert(rest == whole.subrange(0, n)) by {
            assert(whole.subrange(0, items.len() as int).drop_last() == whole.subrange(0, n));
        }
        lemma_initial_wants_news(k, rank, chain, rest, base, filter, context, depth);
        let these = diff::initial_item(k, items.last(), base, filter, context, depth);
        if let OutcomeView::Got(entry) = items.last() {
            if objects::kind_of(entry.mode) == EntryKind::Tree {
                let call = HostCallView::Tree { oid: entry.oid };
                if let Some(OutcomeView::Got(inner)) = host::tree(k, call) {
                    assert(is_tree(whole[n], entry.oid));
                    assert(holds(k, chain.last(), entry.oid));
                    let longer = chain.push(entry.oid);
                    assert forall|i: int, j: int| 0 <= i < j < longer.len() implies rank(
                        #[trigger] longer[j],
                    ) < rank(#[trigger] longer[i]) by {
                        if j == chain.len() && i < chain.len() - 1 {
                            assert(rank(chain[chain.len() - 1]) < rank(chain[i]));
                        }
                    }
                    lemma_nested_is_short(k, rank, longer);
                    assert(inner.is_prefix_of(inner)) by {
                        assert(inner.subrange(0, inner.len() as int) == inner);
                    }
                    lemma_initial_wants_news(
                        k,
                        rank,
                        longer,
                        inner,
                        diff::path_in(base, entry.name),
                        filter,
                        context,
                        (depth - 1) as nat,
                    );
                }
            }
        }
        assert(wants_news(k, these));
        lemma_concat_wants_news(
            k,
            diff::initial_items(k, rest, base, filter, context, depth),
            these,
        );
    }
}

/// Comparing revisions asks only for what is not known, as long as no tree lies
/// within itself.
pub proof fn law_diff_progresses(
    k: Seq<(HostCallView, ReplyView)>,
    config: StorageConfigView,
    owner: Seq<char>,
    name: Seq<char>,
    old_ref: Seq<char>,
    new_ref: Seq<char>,
    filter: Option<Seq<char>>,
    context_lines: Option<u32>,
    rank: spec_fn(Seq<char>) -> nat,
)
    requires
        ranked(k, rank),
    ensures
        progresses(
            k,
            diff::diff_commits(k, config, owner, name, old_ref, new_ref, filter, context_lines),
        ),
        progresses(k, diff::diff_commit(k, config, owner, name, new_ref, filter, context_lines)),
{
    assert forall|tree: Seq<char>| progresses(
        k,
        #[trigger] diff::diff_initial(k, tree, filter, context_lines),
    ) by {
        lemma_initial_progresses(k, tree, filter, context_lines, rank);
    }
    assert forall|old_tree: Seq<char>, new_tree: Seq<char>| progresses(
        k,
        #[trigger] diff::diff_trees(k, old_tree, new_tree, filter, context_lines),
    ) by {
        lemma_diff_trees_progresses(k, old_tree, new_tree, filter, context_lines);
    }
}

/// Comparing two trees.
proof fn lemma_diff_trees_progresses(
    k: Seq<(HostCallView, ReplyView)>,
    old_tree: Seq<char>,
    new_tree: Seq<char>,
    filter: Option<Seq<char>>,
    context_lines: Option<u32>,
)
    ensures
        progresses(k, diff::diff_trees(k, old_tree, new_tree, filter, context_lines)),
{
    if let StepView::Done(changes) = lookup::changes_between(k, old_tree, new_tree) {
        let f = |change: TreeChangeView|
            diff::change_items(k, change, filter, diff::context_of(context_lines));
        lemma_flat_map_wants_news(k, changes, f);
        law_gather_progresses(k, changes.flat_map(f));
    }
}

/// Comparing a tree to nothing.
proof fn lemma_initial_progresses(
    k: Seq<(HostCallView, ReplyView)>,
    tree: Seq<char>,
    filter: Option<Seq<char>>,
    context_lines: Option<u32>,
    rank: spec_fn(Seq<char>) -> nat,
)
    requires
        ranked(k, rank),
    ensures
        progresses(k, diff::diff_initial(k, tree, filter, context_lines)),
{
    if let StepView::Done(items) = lookup::tree_at(k, tree) {
        let context = diff::context_of(context_lines);
        let chain = seq![tree];
        assert(chain.last() == tree);
        assert(items.subrange(0, items.len() as int) == items);
        lemma_initial_wants_news(
            k,
            rank,
            chain,
            items,
            Seq::empty(),
            filter,
            context,
            k.len(),
        );
        law_gather_progresses(
            k,
            diff::initial_items(k, items, Seq::empty(), filter, context, k.len()),
        );
    }
}

/// A commit is compared with its first parent, whatever others it has: the
/// difference is that from the parent's id to the commit, and for a first commit
/// that from nothing, wherever an id that is taken as a revision names itself.
pub proof fn law_commit_is_compared_with_its_parent(
    k: Seq<(HostCallView, ReplyView)>,
    config: StorageConfigView,
    owner: Seq<char>,
    name: Seq<char>,
    commit_ref: Seq<char>,
    oid: Seq<char>,
    commit: CommitRecordView,
    filter: Option<Seq<char>>,
    context_lines: Option<u32>,
)
    requires
        lookup::resolved(k, commit_ref) == StepView::<Seq<char>, GitErrorView>::Done(oid),
        lookup::commit_at(k, oid) == StepView::<CommitRecordView, GitErrorView>::Done(commit),
        commit.parents.len() > 0 ==> commit.parents[0].len() > 0 && lookup::resolved(
            k,
            commit.parents[0],
        ) == StepView::<Seq<char>, GitErrorView>::Done(commit.parents[0]),
    ensures
        diff::diff_commit(k, config, owner, name, commit_ref, filter, context_lines)
            == diff::diff_commits(
            k,
            config,
            owner,
            name,
            if commit.parents.len() > 0 {
                commit.parents[0]
            } else {
                Seq::empty()
            },
            commit_ref,
            filter,
            context_lines,
        ),
{
}

/// Whether the path of a file begins with a prefix.
pub open spec fn begins(prefix: Seq<char>) -> spec_fn(FileDiffView) -> bool {
    |file: FileDiffView| prefix.is_prefix_of(file.path)
}

/// A difference restricted to the files whose path begins with a prefix: those files
/// in the same order, and counts of them alone.
pub open spec fn restricted(result: DiffResultView, prefix: Seq<char>) -> DiffResultView {
    let files = result.files.filter(begins(prefix));
    DiffResultView { files, stats: diff::stats_of(files), ..result }
}

/// A file that is compared comes up under its path alone.
proof fn lemma_compared_restricted(
    k: Seq<(HostCallView, ReplyView)>,
    change: DiffChangeView,
    prefix: Seq<char>,
    context: nat,
)
    requires
        all_values(diff::compared(k, change, context)),
    ensures
        diff::compared(k, change, context).filter(
            keeps::<FileDiffView, GitErrorView>(begins(prefix)),
        ) == if prefix.is_prefix_of(change.path) {
            diff::compared(k, change, context)
        } else {
            Seq::empty()
        },
{
    let items = diff::compared(k, change, context);
    let q = keeps::<FileDiffView, GitErrorView>(begins(prefix));
    assert(items[0] is Value);
    if prefix.is_prefix_of(change.path) {
        lemma_filter_all(items, q);
    } else {
        lemma_filter_none(items, q);
    }
}

/// A filter restricts the difference between two trees to the files whose path begins
/// with it, in the same order.
pub proof fn law_filter_restricts_trees(
    k: Seq<(HostCallView, ReplyView)>,
    old_tree: Seq<char>,
    new_tree: Seq<char>,
    prefix: Seq<char>,
    context_lines: Option<u32>,
)
    requires
        diff::diff_trees(k, old_tree, new_tree, None, context_lines) is Done,
    ensures
        diff::diff_trees(k, old_tree, new_tree, Some(prefix), context_lines) == StepView::<
            DiffResultView,
            GitErrorView,
        >::Done(
            restricted(
                diff::diff_trees(k, old_tree, new_tree, None, context_lines)->Done_0,
                prefix,
            ),
        ),
{
    let context = diff::context_of(context_lines);
    let changes = lookup::changes_between(k, old_tree, new_tree)->Done_0;
    let all = diff::diff_trees(k, old_tree, new_tree, None, context_lines)->Done_0.files;
    let f = |change: TreeChangeView| diff::change_items(k, change, None, context);
    let g = |change: TreeChangeView| diff::change_items(k, change, Some(prefix), context);
    let q = keeps::<FileDiffView, GitErrorView>(begins(prefix));
    lemma_done_items(changes.flat_map(f));
    assert(host::gather(changes.flat_map(f)) == StepView::<
        Seq<FileDiffView>,
        GitErrorView,
    >::Done(all));
    assert forall|i: int|
        0 <= i < changes.len() && all_values(f(#[trigger] changes[i])) implies g(changes[i]) == f(
        changes[i],
    ).filter(q) by {
        lemma_compared_restricted(k, diff::diff_change(changes[i]), prefix, context);
    }
    lemma_flat_map_filter(changes, f, g, q);
    lemma_filter_values::<FileDiffView, GitErrorView>(all, begins(prefix));
    lemma_values_are_done::<FileDiffView, GitErrorView>(all.filter(begins(prefix)));
}

/// A filter restricts the files of a directory that is compared to nothing.
proof fn lemma_initial_restricted(
    k: Seq<(HostCallView, ReplyView)>,
    items: Seq<OutcomeView<TreeItemView>>,
    base: Seq<char>,
    prefix: Seq<char>,
    context: nat,
    depth: nat,
)
    requires
        all_values(diff::initial_items(k, items, base, None, context, depth)),
    ensures
        diff::initial_items(k, items, base, Some(prefix), context, depth) == diff::initial_items(
            k,
            items,
            base,
            None,
            context,
            depth,
        ).filter(keeps::<FileDiffView, GitErrorView>(begins(prefix))),
    decreases depth, items.len(), 1nat,
{
    let q = keeps::<FileDiffView, GitErrorView>(begins(prefix));
    if items.len() == 0 {
        lemma_filter_none(diff::initial_items(k, items, base, None, context, depth), q);
    } else {
        let before = diff::initial_items(k, items.drop_last(), base, None, context, depth);
        let one = diff::initial_item(k, items.last(), base, None, context, depth);
        lemma_parts_are_values(before, one);
        lemma_initial_restricted(k, items.drop_last(), base, prefix, context, depth);
        lemma_initial_one_restricted(k, items.last(), base, prefix, context, depth);
        Seq::filter_distributes_over_add(before, one, q);
    }
}

/// A filter restricts the files that an entry stands for.
proof fn lemma_initial_one_restricted(
    k: Seq<(HostCallView, ReplyView)>,
    item: OutcomeView<TreeItemView>,
    base: Seq<char>,
    prefix: Seq<char>,
    context: nat,
    depth: nat,
)
    requires
        all_values(diff::initial_item(k, item, base, None, context, depth)),
    ensures
        diff::initial_item(k, item, base, Some(prefix), context, depth) == diff::initial_item(
            k,
            item,
            base,
            None,
            context,
            depth,
        ).filter(keeps::<FileDiffView, GitErrorView>(begins(prefix))),
    decreases depth, 0nat, 0nat,
{
    let q = keeps::<FileDiffView, GitErrorView>(begins(prefix));
    let one = diff::initial_item(k, item, base, None, context, depth);
    match item {
        OutcomeView::Error(_) => {
            assert(!(one[0] is Value));
        },
        OutcomeView::Got(entry) => {
            let path = diff::path_in(base, entry.name);
            match objects::kind_of(entry.mode) {
                EntryKind::Tree => match host::tree(k, HostCallView::Tree { oid: entry.oid }) {
                    None => {
                        assert(!(one[0] is Value));
                    },
                    Some(OutcomeView::Error(_)) => {
                        lemma_filter_none(one, q);
                    },
                    Some(OutcomeView::Got(inner)) => {
                        if depth == 0 {
                            assert(!(one[0] is Value));
                        } else {
                            lemma_initial_restricted(
                                k,
                                inner,
                                path,
                                prefix,
                                context,
                                (depth - 1) as nat,
                            );
                        }
                    },
                },
                EntryKind::Blob | EntryKind::BlobExecutable => {
                    lemma_compared_restricted(
                        k,
                        diff::added(path, entry.mode, entry.oid),
                        prefix,
                        context,
                    );
                },
                _ => {
                    lemma_filter_none(one, q);
                },
            }
        },
    }
}

/// A filter restricts the comparison of a tree to nothing in the same way.
pub proof fn law_filter_restricts_initial(
    k: Seq<(HostCallView, ReplyView)>,
    tree: Seq<char>,
    prefix: Seq<char>,
    context_lines: Option<u32>,
)
    requires
        diff::diff_initial(k, tree, None, context_lines) is Done,
    ensures
        diff::diff_initial(k, tree, Some(prefix), context_lines) == StepView::<
            DiffResultView,
            GitErrorView,
        >::Done(restricted(diff::diff_initial(k, tree, None, context_lines)->Done_0, prefix)),
{
    let context = diff::context_of(context_lines);
    let items = lookup::tree_at(k, tree)->Done_0;
    let all = diff::diff_initial(k, tree, None, context_lines)->Done_0.files;
    let found = diff::initial_items(k, items, Seq::empty(), None, context, k.len());
    lemma_done_items(found);
    assert(host::gather(found) == StepView::<Seq<FileDiffView>, GitErrorView>::Done(all));
    lemma_initial_restricted(k, items, Seq::empty(), prefix, context, k.len());
    lemma_filter_values::<FileDiffView, GitErrorView>(all, begins(prefix));
    lemma_values_are_done::<FileDiffView, GitErrorView>(all.filter(begins(prefix)));
}

/// A filter restricts the comparison of two revisions to the files whose path begins
/// with it, in the same order, and counts these files alone.
pub proof fn law_filter_restricts_commits(
    k: Seq<(HostCallView, ReplyView)>,
    config: StorageConfigView,
    owner: Seq<char>,
    name: Seq<char>,
    old_ref: Seq<char>,
    new_ref: Seq<char>,
    prefix: Seq<char>,
    context_lines: Option<u32>,
)
    requires
        diff::diff_commits(k, config, owner, name, old_ref, new_ref, None, context_lines) is Done,
    ensures
        diff::diff_commits(k, config, owner, name, old_ref, new_ref, Some(prefix), context_lines)
            == StepView::<DiffResultView, GitErrorView>::Done(
            restricted(
                diff::diff_commits(
                    k,
                    config,
                    owner,
                    name,
                    old_ref,
                    new_ref,
                    None,
                    context_lines,
                )->Done_0,
                prefix,
            ),
        ),
{
    let new_tree = diff::revision_tree(k, new_ref)->Done_0;
    if old_ref.len() == 0 {
        law_filter_restricts_initial(k, new_tree, prefix, context_lines);
    } else {
        let old_tree = diff::revision_tree(k, old_ref)->Done_0;
        law_filter_restricts_trees(k, old_tree, new_tree, prefix, context_lines);
    }
}

/// A filter restricts the comparison of a commit with its parent in the same way.
pub proof fn law_filter_restricts_commit(
    k: Seq<(HostCallView, ReplyView)>,
    config: StorageConfigView,
    owner: Seq<char>,
    name: Seq<char>,
    commit_ref: Seq<char>,
    prefix: Seq<char>,
    context_lines: Option<u32>,
)
    requires
        diff::diff_commit(k, config, owner, name, commit_ref, None, context_lines) is Done,
    ensures
        diff::diff_commit(k, config, owner, name, commit_ref, Some(prefix), context_lines)
            == StepView::<DiffResultView, GitErrorView>::Done(
            restricted(
                diff::diff_commit(
                    k,
                    config,
                    owner,
                    name,
                    commit_ref,
                    None,
                    context_lines,
                )->Done_0,
                prefix,
            ),
        ),
{
    let oid = lookup::resolved(k, commit_ref)->Done_0;
    let commit = lookup::commit_at(k, oid)->Done_0;
    let new_tree = lookup::root_of(k, commit)->Done_0;
    if commit.parents.len() == 0 {
        law_filter_restricts_initial(k, new_tree, prefix, context_lines);
    } else {
        let parent = lookup::commit_at(k, commit.parents[0])->Done_0;
        let old_tree = lookup::root_of(k, parent)->Done_0;
        law_filter_restricts_trees(k, old_tree, new_tree, prefix, context_lines);
    }
}

/// Where no number of lines of context is given, three are shown.
pub proof fn law_context_defaults(
    k: Seq<(HostCallView, ReplyView)>,
    config: StorageConfigView,
    owner: Seq<char>,
    name: Seq<char>,
    old_ref: Seq<char>,
    new_ref: Seq<char>,
    filter: Option<Seq<char>>,
)
    ensures
        diff::diff_commits(k, config, owner, name, old_ref, new_ref, filter, None)
            == diff::diff_commits(k, config, owner, name, old_ref, new_ref, filter, Some(3)),
        diff::diff_commit(k, config, owner, name, new_ref, filter, None) == diff::diff_commit(
            k,
            config,
            owner,
            name,
            new_ref,
            filter,
            Some(3),
        ),
        forall|old_tree: Seq<char>, new_tree: Seq<char>| #[trigger]
            diff::diff_trees(k, old_tree, new_tree, filter, None) == diff::diff_trees(
                k,
                old_tree,
                new_tree,
                filter,
                Some(3),
            ),
{
    assert(forall|tree: Seq<char>| #[trigger]
        diff::diff_initial(k, tree, filter, None) == diff::diff_initial(k, tree, filter, Some(3)));
}

} // verus!
