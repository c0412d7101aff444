//! What holds of every listing of commits and of directories.

use vstd::prelude::*;

use super::host::{law_gather_done, lemma_flat_map_at_most, lemma_flat_map_singles};
use crate::git::commits;
use crate::git::diff;
use crate::git::lookup;
use crate::git::objects::{CommitRecordView, TreeItemView};
use crate::git::trees::{self, TreeEntryView};
use crate::git::{self, GitErrorView, StorageConfigView};
use crate::host::{self, HostCallView, ItemView, OutcomeView, ReplyView, StepView};

verus! {

/// Pages of a history that follow each other make up one larger page.
pub proof fn law_pages_follow(
    steps: Seq<OutcomeView<Seq<char>>>,
    skip: nat,
    first: nat,
    second: nat,
)
    ensures
        commits::window(steps, skip, first) + commits::window(steps, skip + first, second)
            == commits::window(steps, skip, first + second),
{
}

/// A page is no longer than its limit, and holds the walk in its order.
pub proof fn law_page_is_limited(steps: Seq<OutcomeView<Seq<char>>>, skip: nat, take: nat)
    ensures
        commits::window(steps, skip, take).len() <= take,
        forall|i: int|
            0 <= i < commits::window(steps, skip, take).len() ==> #[trigger] commits::window(
                steps,
                skip,
                take,
            )[i] == steps[skip + i],
{
}

/// Where no number is given, the log lists a hundred commits from the first one.
pub proof fn law_log_defaults(
    k: Seq<(HostCallView, ReplyView)>,
    config: StorageConfigView,
    owner: Seq<char>,
    name: Seq<char>,
    start_ref: Seq<char>,
    limit: Option<u32>,
    skip: Option<u32>,
    path: Option<Seq<char>>,
)
    ensures
        commits::get_log(k, config, owner, name, start_ref, None, skip, path) == commits::get_log(
            k,
            config,
            owner,
            name,
            start_ref,
            Some(100),
            skip,
            path,
        ),
        commits::get_log(k, config, owner, name, start_ref, limit, None, path) == commits::get_log(
            k,
            config,
            owner,
            name,
            start_ref,
            limit,
            Some(0),
            path,
        ),
{
}

/// A commit comes up in a log at most once for each step of the walk.
pub proof fn lemma_log_items(
    k: Seq<(HostCallView, ReplyView)>,
    step: OutcomeView<Seq<char>>,
    path: Option<Seq<char>>,
)
    ensures
        commits::log_items(k, step, path).len() <= 1,
        path is None ==> commits::log_items(k, step, path).len() == 1,
{
}

/// A log has no more commits than its limit, whatever path it is confined to; one
/// that is limited to none has none.
pub proof fn law_log_is_limited(
    k: Seq<(HostCallView, ReplyView)>,
    config: StorageConfigView,
    owner: Seq<char>,
    name: Seq<char>,
    start_ref: Seq<char>,
    limit: u32,
    skip: Option<u32>,
    path: Option<Seq<char>>,
)
    ensures
        commits::get_log(
            k,
            config,
            owner,
            name,
            start_ref,
            Some(limit),
            skip,
            path,
        ) matches StepView::Done(log) ==> log.len() <= limit,
{
    if let StepView::Done(found) = commits::found_log(
        k,
        config,
        owner,
        name,
        start_ref,
        Some(limit),
        skip,
        path,
    ) {
        let start = lookup::resolved(k, start_ref)->Done_0;
        let first = commits::given_or(skip, 0);
        let steps = walked(k, start, first, limit);
        let f = |step: OutcomeView<Seq<char>>| commits::log_items(k, step, path);
        let page = commits::window(steps, first as nat, limit as nat);
        assert forall|i: int| 0 <= i < page.len() implies f(#[trigger] page[i]).len() <= 1 by {
            lemma_log_items(k, page[i], path);
        }
        lemma_flat_map_at_most(page, f);
        law_gather_done(page.flat_map(f));
        assert(host::gather(page.flat_map(f)) == StepView::<
            Seq<(Seq<char>, CommitRecordView)>,
            GitErrorView,
        >::Done(found));
    }
}

/// The steps that the machine has told of the walk behind a page of a log.
pub open spec fn walked(
    k: Seq<(HostCallView, ReplyView)>,
    start: Seq<char>,
    skip: u32,
    take: u32,
) -> Seq<OutcomeView<Seq<char>>> {
    let call = HostCallView::Walk { start, until: None, limit: Some((skip + take) as u64) };
    host::walk(k, call)->0->Got_0
}

/// What a page of a whole log holds.
pub proof fn lemma_page(
    k: Seq<(HostCallView, ReplyView)>,
    start: Seq<char>,
    skip: u32,
    take: u32,
)
    ensures
        commits::history(k, start, skip, take, None) matches StepView::Done(found) ==> {
            let page = commits::window(walked(k, start, skip, take), skip as nat, take as nat);
            &&& found.len() == page.len()
            &&& forall|i: int|
                0 <= i < page.len() ==> commits::log_items(k, #[trigger] page[i], None) == seq![
                    ItemView::<(Seq<char>, CommitRecordView), GitErrorView>::Value(found[i]),
                ]
        },
{
    if let StepView::Done(found) = commits::history(k, start, skip, take, None) {
        let f = |step: OutcomeView<Seq<char>>| commits::log_items(k, step, None);
        let page = commits::window(walked(k, start, skip, take), skip as nat, take as nat);
        assert forall|i: int| 0 <= i < page.len() implies f(#[trigger] page[i]).len() == 1 by {
            lemma_log_items(k, page[i], None);
        }
        lemma_flat_map_singles(page, f);
        let items = page.flat_map(f);
        law_gather_done(items);
        assert(host::gather(items) == StepView::<
            Seq<(Seq<char>, CommitRecordView)>,
            GitErrorView,
        >::Done(found));
        assert forall|i: int| 0 <= i < page.len() implies commits::log_items(
            k,
            #[trigger] page[i],
            None,
        ) == seq![ItemView::<(Seq<char>, CommitRecordView), GitErrorView>::Value(found[i])] by {
            assert(items[i] == f(page[i])[0]);
            assert(f(page[i]) =~= seq![f(page[i])[0]]);
        }
    }
}

/// A page of a log is what the log up to its end holds after the commits that the
/// page leaves out.
pub proof fn law_log_pages(
    k: Seq<(HostCallView, ReplyView)>,
    config: StorageConfigView,
    owner: Seq<char>,
    name: Seq<char>,
    start_ref: Seq<char>,
    limit: u32,
    skip: u32,
)
    requires
        skip + limit <= u32::MAX,
        commits::get_log(
            k,
            config,
            owner,
            name,
            start_ref,
            Some((skip + limit) as u32),
            None,
            None,
        ) is Done,
    ensures
        ({
            let whole = commits::get_log(
                k,
                config,
                owner,
                name,
                start_ref,
                Some((skip + limit) as u32),
                None,
                None,
            )->Done_0;
            commits::get_log(k, config, owner, name, start_ref, Some(limit), Some(skip), None)
                == StepView::<Seq<commits::CommitInfoView>, GitErrorView>::Done(
                whole.skip(commits::at_most(skip as int, whole.len() as int)),
            )
        }),
{
    let both = (skip + limit) as u32;
    let start = lookup::resolved(k, start_ref)->Done_0;
    let steps = walked(k, start, 0, both);
    let whole = commits::window(steps, 0, both as nat);
    let page = commits::window(steps, skip as nat, limit as nat);
    let found = commits::history(k, start, 0, both, None)->Done_0;
    lemma_page(k, start, 0, both);
    let f = |step: OutcomeView<Seq<char>>| commits::log_items(k, step, None);
    let from = commits::at_most(skip as int, steps.len() as int);
    assert(commits::at_most(skip as int, whole.len() as int) == from);
    assert forall|i: int| 0 <= i < page.len() implies f(#[trigger] page[i]).len() == 1 by {
        lemma_log_items(k, page[i], None);
    }
    lemma_flat_map_singles(page, f);
    let items = page.flat_map(f);
    law_gather_done(items);
    let rest = found.skip(from);
    assert(page.len() == rest.len());
    assert forall|i: int| 0 <= i < items.len() implies #[trigger] items[i] == ItemView::<
        (Seq<char>, CommitRecordView),
        GitErrorView,
    >::Value(rest[i]) by {
        assert(page[i] == whole[from + i]);
        assert(items[i] == f(page[i])[0]);
    }
    let values = host::gather(items)->Done_0;
    assert forall|i: int| 0 <= i < rest.len() implies #[trigger] values[i] == rest[i] by {
        assert(items[i] == ItemView::<(Seq<char>, CommitRecordView), GitErrorView>::Value(
            values[i],
        ));
    }
    assert(values =~= rest);
    assert(commits::infos_of(found).skip(from) =~= commits::infos_of(rest));
}

/// A log that is confined to no path tells the commits that the machine has walked,
/// in that order: none of them twice, if the walk has none twice, and first the
/// commit that the revision names, if the walk starts with it.
pub proof fn law_log_follows_the_walk(
    k: Seq<(HostCallView, ReplyView)>,
    config: StorageConfigView,
    owner: Seq<char>,
    name: Seq<char>,
    start_ref: Seq<char>,
    start: Seq<char>,
    limit: u32,
    skip: u32,
)
    requires
        lookup::resolved(k, start_ref) == StepView::<Seq<char>, GitErrorView>::Done(start),
        commits::get_log(
            k,
            config,
            owner,
            name,
            start_ref,
            Some(limit),
            Some(skip),
            None,
        ) is Done,
    ensures
        ({
            let log = commits::get_log(
                k,
                config,
                owner,
                name,
                start_ref,
                Some(limit),
                Some(skip),
                None,
            )->Done_0;
            let steps = walked(k, start, skip, limit);
            &&& log.len() == commits::window(steps, skip as nat, limit as nat).len()
            &&& forall|i: int|
                0 <= i < log.len() ==> steps[skip + i] == OutcomeView::Got(
                    (#[trigger] log[i]).oid,
                )
            &&& steps.no_duplicates() ==> forall|i: int, j: int|
                0 <= i < j < log.len() ==> (#[trigger] log[i]).oid != (#[trigger] log[j]).oid
            &&& skip == 0 && log.len() > 0 && steps[0] == OutcomeView::Got(start) ==> log[0].oid
                == start
        }),
{
    let steps = walked(k, start, skip, limit);
    let page = commits::window(steps, skip as nat, limit as nat);
    let found = commits::history(k, start, skip, limit, None)->Done_0;
    lemma_page(k, start, skip, limit);
    let log = commits::infos_of(found);
    assert forall|i: int| 0 <= i < log.len() implies steps[skip + i] == OutcomeView::Got(
        (#[trigger] log[i]).oid,
    ) by {
        assert(page[i] == steps[skip + i]);
        let items = commits::log_items(k, page[i], None);
        assert(items[0] == ItemView::<(Seq<char>, CommitRecordView), GitErrorView>::Value(
            found[i],
        ));
        assert(log[i] == commits::info_of(found[i].0, found[i].1));
    }
    if steps.no_duplicates() {
        assert forall|i: int, j: int| 0 <= i < j < log.len() implies (#[trigger] log[i]).oid != (
        #[trigger] log[j]).oid by {
            assert(steps[skip + i] != steps[skip + j]);
        }
    }
}

/// Whether every value in a list has a path that begins with another.
pub open spec fn paths_begin(
    items: Seq<ItemView<TreeEntryView, GitErrorView>>,
    base: Seq<char>,
) -> bool {
    forall|i: int|
        0 <= i < items.len() ==> match #[trigger] items[i] {
            ItemView::Value(entry) => base.is_prefix_of(entry.path),
            _ => true,
        }
}

/// What two lists have, they have one after the other.
proof fn lemma_concat_paths_begin(
    a: Seq<ItemView<TreeEntryView, GitErrorView>>,
    b: Seq<ItemView<TreeEntryView, GitErrorView>>,
    base: Seq<char>,
)
    requires
        paths_begin(a, base),
        paths_begin(b, base),
    ensures
        paths_begin(a + b, base),
{
    let all = a + b;
    assert forall|i: int| 0 <= i < all.len() implies match #[trigger] all[i] {
        ItemView::Value(entry) => base.is_prefix_of(entry.path),
        _ => true,
    } by {
        if i < a.len() {
            assert(all[i] == a[i]);
        } else {
            assert(all[i] == b[i - a.len()]);
        }
    }
}

/// What begins with a longer text begins with a shorter one.
proof fn lemma_begins_shorter(
    items: Seq<ItemView<TreeEntryView, GitErrorView>>,
    base: Seq<char>,
    more: Seq<char>,
)
    requires
        paths_begin(items, base + more),
    ensures
        paths_begin(items, base),
{
    assert forall|i: int| 0 <= i < items.len() implies match #[trigger] items[i] {
        ItemView::Value(entry) => base.is_prefix_of(entry.path),
        _ => true,
    } by {
        if let ItemView::Value(entry) = items[i] {
            let longer = base + more;
            assert(longer.is_prefix_of(entry.path));
            assert(entry.path.subrange(0, longer.len() as int).subrange(0, base.len() as int)
                == entry.path.subrange(0, base.len() as int));
            assert(longer.subrange(0, base.len() as int) == base);
        }
    }
}

/// What is listed below a directory lies below it: its path begins with that of
/// the directory.
pub proof fn law_listed_lies_below(
    k: Seq<(HostCallView, ReplyView)>,
    items: Seq<OutcomeView<TreeItemView>>,
    base: Seq<char>,
    depth: nat,
)
    ensures
        paths_begin(trees::collected(k, items, base, depth), base),
    decreases depth, items.len(), 1nat,
{
    if items.len() > 0 {
        let before = trees::collected(k, items.drop_last(), base, depth);
        let one = seq![trees::listed(k, base, items.last())];
        law_listed_lies_below(k, items.drop_last(), base, depth);
        if let ItemView::Value(entry) = one[0] {
            let name = items.last()->Got_0.name;
            assert(entry.path == base + name);
            assert((base + name).subrange(0, base.len() as int) == base);
        }
        lemma_concat_paths_begin(before, one, base);
        lemma_below_begins(k, items.last(), base, depth);
        lemma_concat_paths_begin(
            before + one,
            trees::below(k, items.last(), base, depth),
            base,
        );
    }
}

/// What an entry holds lies below it.
proof fn lemma_below_begins(
    k: Seq<(HostCallView, ReplyView)>,
    item: OutcomeView<TreeItemView>,
    base: Seq<char>,
    depth: nat,
)
    ensures
        paths_begin(trees::below(k, item, base, depth), base),
    decreases depth, 0nat, 0nat,
{
    if let OutcomeView::Got(entry) = item {
        if depth > 0 {
            if let Some(OutcomeView::Got(inner)) = host::tree(
                k,
                HostCallView::Tree { oid: entry.oid },
            ) {
                let deeper = base + entry.name + "/"@;
                let found = trees::collected(k, inner, deeper, (depth - 1) as nat);
                law_listed_lies_below(k, inner, deeper, (depth - 1) as nat);
                assert(deeper == base + (entry.name + "/"@));
                lemma_begins_shorter(found, base, entry.name + "/"@);
            }
        }
    }
}

/// A revision compared to an empty one is compared to nothing.
pub proof fn law_empty_base_is_nothing(
    k: Seq<(HostCallView, ReplyView)>,
    config: StorageConfigView,
    owner: Seq<char>,
    name: Seq<char>,
    new_ref: Seq<char>,
    filter: Option<Seq<char>>,
    context_lines: Option<u32>,
)
    ensures
        diff::diff_commits(k, config, owner, name, Seq::empty(), new_ref, filter, context_lines)
            == host::chain(
            git::opened(k, config, owner, name),
            |open: ()|
                host::chain(
                    diff::revision_tree(k, new_ref),
                    |tree: Seq<char>| diff::diff_initial(k, tree, filter, context_lines),
                ),
        ),
{
}

} // verus!
