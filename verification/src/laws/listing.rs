//! What holds of every listing of a directory and of those below it.

use vstd::prelude::*;

use super::history::law_listed_lies_below;
use super::host::{
    all_values, as_items, keeps, lemma_done_items, lemma_filter_agrees, lemma_filter_all,
    lemma_filter_none, lemma_filter_values, lemma_parts_are_values, lemma_values_are_done,
};
use super::scope::{lemma_slashes_skip, slashes};
use crate::git::objects::{self, EntryKind, TreeItemView};
use crate::git::trees::{self, EntryType, TreeEntryView};
use crate::git::{GitErrorView, StorageConfigView};
use crate::host::{self, HostCallView, ItemView, OutcomeView, ReplyView, StepView};

verus! {

/// Whether no name in a directory has a slash in it.
pub open spec fn plain(items: Seq<OutcomeView<TreeItemView>>) -> bool {
    forall|i: int|
        0 <= i < items.len() && (#[trigger] items[i]) is Got ==> !items[i]->Got_0.name.contains('/')
}

/// Whether no name in a directory is there twice.
pub open spec fn distinct(items: Seq<OutcomeView<TreeItemView>>) -> bool {
    forall|i: int, j: int|
        0 <= i < j < items.len() && (#[trigger] items[i]) is Got && (#[trigger] items[j]) is Got
            ==> items[i]->Got_0.name != items[j]->Got_0.name
}

/// Whether no name in the directories that the machine has told of has a slash in
/// it, as is so of all that git keeps.
pub open spec fn plain_trees(k: Seq<(HostCallView, ReplyView)>) -> bool {
    forall|oid: Seq<char>|
        (#[trigger] host::tree(k, HostCallView::Tree { oid })) matches Some(
            OutcomeView::Got(items),
        ) ==> plain(items)
}

/// Whether no name in the directories that the machine has told of is there twice.
pub open spec fn distinct_trees(k: Seq<(HostCallView, ReplyView)>) -> bool {
    forall|oid: Seq<char>|
        (#[trigger] host::tree(k, HostCallView::Tree { oid })) matches Some(
            OutcomeView::Got(items),
        ) ==> distinct(items)
}

/// How many directories below one a path lies.
pub open spec fn level(base: Seq<char>, path: Seq<char>) -> nat {
    slashes(path.skip(base.len() as int))
}

/// Whether an entry lies no more than a number of directories below one.
pub open spec fn within(base: Seq<char>, depth: nat) -> spec_fn(TreeEntryView) -> bool {
    |entry: TreeEntryView| level(base, entry.path) <= depth
}

/// What lies below a directory in another lies one further below that one.
proof fn lemma_one_level_down(base: Seq<char>, name: Seq<char>, path: Seq<char>)
    requires
        !name.contains('/'),
        (base + name + "/"@).is_prefix_of(path),
    ensures
        level(base, path) == 1 + level(base + name + "/"@, path),
{
    reveal_strlit("/");
    let inner = base + name + "/"@;
    let rest = path.skip(base.len() as int);
    assert(path.subrange(0, inner.len() as int) == inner);
    assert forall|i: int| 0 <= i < name.len() implies #[trigger] rest[i] != '/' by {
        assert(rest[i] == path.subrange(0, inner.len() as int)[base.len() + i]);
        assert(rest[i] == name[i]);
        assert(name.contains(name[i]));
    }
    lemma_slashes_skip(rest, name.len() as int);
    let slash = rest.skip(name.len() as int);
    assert(slash[0] == path.subrange(0, inner.len() as int)[(base.len() + name.len()) as int]);
    assert(slash[0] == '/');
    assert(slash.skip(1) == path.skip(inner.len() as int));
}

/// What is right in a directory lies no further below it.
proof fn lemma_level_of_own(base: Seq<char>, name: Seq<char>)
    requires
        !name.contains('/'),
    ensures
        level(base, base + name) == 0,
{
    assert((base + name).skip(base.len() as int) == name);
    assert forall|i: int| 0 <= i < name.len() implies #[trigger] name[i] != '/' by {
        assert(name.contains(name[i]));
    }
    lemma_slashes_skip(name, name.len() as int);
    assert(name.skip(name.len() as int).len() == 0);
}

/// The listing to a depth is the part of a deeper one that lies within it.
proof fn lemma_shallower(
    k: Seq<(HostCallView, ReplyView)>,
    items: Seq<OutcomeView<TreeItemView>>,
    base: Seq<char>,
    shallow: nat,
    deep: nat,
)
    requires
        shallow <= deep,
        plain_trees(k),
        plain(items),
        all_values(trees::collected(k, items, base, deep)),
    ensures
        trees::collected(k, items, base, shallow) == trees::collected(k, items, base, deep).filter(
            keeps(within(base, shallow)),
        ),
    decreases deep, items.len(), 1nat,
{
    let p = keeps(within(base, shallow));
    if items.len() == 0 {
        reveal(Seq::filter);
    } else {
        let rest = items.drop_last();
        let last = items.last();
        let before = trees::collected(k, rest, base, deep);
        let one = seq![trees::listed(k, base, last)];
        let under = trees::below(k, last, base, deep);
        lemma_parts_are_values(before + one, under);
        lemma_parts_are_values(before, one);
        lemma_rest_is_plain(items);
        lemma_shallower(k, rest, base, shallow, deep);
        assert(one[0] is Value);
        assert(items[items.len() - 1] is Got);
        assert(!last->Got_0.name.contains('/'));
        lemma_below_shallower(k, last->Got_0, base, shallow, deep);
        lemma_level_of_own(base, last->Got_0.name);
        assert(p(one[0]));
        lemma_filter_all(one, p);
        Seq::filter_distributes_over_add(before + one, under, p);
        Seq::filter_distributes_over_add(before, one, p);
    }
}

/// Names without slashes are so without the last one.
proof fn lemma_rest_is_plain(items: Seq<OutcomeView<TreeItemView>>)
    requires
        plain(items),
        items.len() > 0,
    ensures
        plain(items.drop_last()),
{
    let rest = items.drop_last();
    assert forall|i: int| 0 <= i < rest.len() && (#[trigger] rest[i]) is Got implies !rest[
        i
    ]->Got_0.name.contains('/') by {
        assert(rest[i] == items[i]);
    }
}

/// What an entry holds to a depth is the part of what it holds to a larger one that
/// lies within it.
proof fn lemma_below_shallower(
    k: Seq<(HostCallView, ReplyView)>,
    item: TreeItemView,
    base: Seq<char>,
    shallow: nat,
    deep: nat,
)
    requires
        shallow <= deep,
        plain_trees(k),
        !item.name.contains('/'),
        all_values(trees::below(k, OutcomeView::Got(item), base, deep)),
    ensures
        trees::below(k, OutcomeView::Got(item), base, shallow) == trees::below(
            k,
            OutcomeView::Got(item),
            base,
            deep,
        ).filter(keeps(within(base, shallow))),
    decreases deep, 0nat, 0nat,
{
    let p = keeps(within(base, shallow));
    let under = trees::below(k, OutcomeView::Got(item), base, deep);
    if deep > 0 && objects::kind_of(item.mode) == EntryKind::Tree {
        let call = HostCallView::Tree { oid: item.oid };
        match host::tree(k, call) {
            None => {
                assert(!(under[0] is Value));
            },
            Some(OutcomeView::Error(_)) => {
                lemma_filter_none(under, p);
                assert(under.filter(p) =~= under);
            },
            Some(OutcomeView::Got(inner)) => {
                let deeper = base + item.name + "/"@;
                law_listed_lies_below(k, inner, deeper, (deep - 1) as nat);
                assert forall|i: int| 0 <= i < under.len() implies level(
                    base,
                    (#[trigger] under[i])->Value_0.path,
                ) == 1 + level(deeper, under[i]->Value_0.path) by {
                    assert(under[i] is Value);
                    lemma_one_level_down(base, item.name, under[i]->Value_0.path);
                }
                if shallow == 0 {
                    assert forall|i: int| 0 <= i < under.len() implies !p(#[trigger] under[i]) by {
                        assert(under[i] is Value);
                    }
                    lemma_filter_none(under, p);
                    assert(under.filter(p) =~= Seq::empty());
                } else {
                    let q = keeps(within(deeper, (shallow - 1) as nat));
                    assert(plain(inner));
                    lemma_shallower(k, inner, deeper, (shallow - 1) as nat, (deep - 1) as nat);
                    assert forall|i: int| 0 <= i < under.len() implies p(#[trigger] under[i]) == q(
                        under[i],
                    ) by {
                        assert(under[i] is Value);
                    }
                    lemma_filter_agrees(under, p, q);
                }
            },
        }
    } else {
        lemma_filter_none(under, p);
        assert(under.filter(p) =~= under);
    }
}

/// What leads the paths of a listing.
pub open spec fn leading(
    k: Seq<(HostCallView, ReplyView)>,
    config: StorageConfigView,
    owner: Seq<char>,
    name: Seq<char>,
    tree_ish: Seq<char>,
    path: Option<Seq<char>>,
) -> Seq<char> {
    trees::directory_at(k, config, owner, name, tree_ish, path)->Done_0.1
}

/// The items behind a listing that is done.
proof fn lemma_behind(
    k: Seq<(HostCallView, ReplyView)>,
    config: StorageConfigView,
    owner: Seq<char>,
    name: Seq<char>,
    tree_ish: Seq<char>,
    path: Option<Seq<char>>,
    depth: u32,
)
    requires
        trees::get_tree_recursive(k, config, owner, name, tree_ish, path, Some(depth)) is Done,
    ensures
        trees::directory_at(k, config, owner, name, tree_ish, path) is Done,
        ({
            let all = trees::get_tree_recursive(
                k,
                config,
                owner,
                name,
                tree_ish,
                path,
                Some(depth),
            )->Done_0;
            let dir = trees::directory_at(k, config, owner, name, tree_ish, path)->Done_0;
            let items = trees::collected(k, dir.0, dir.1, depth as nat);
            &&& all_values(items)
            &&& items == as_items::<TreeEntryView, GitErrorView>(all)
            &&& plain_trees(k) ==> plain(dir.0)
            &&& distinct_trees(k) ==> distinct(dir.0)
        }),
{
    let all = trees::get_tree_recursive(
        k,
        config,
        owner,
        name,
        tree_ish,
        path,
        Some(depth),
    )->Done_0;
    let dir = trees::directory_at(k, config, owner, name, tree_ish, path)->Done_0;
    let items = trees::collected(k, dir.0, dir.1, depth as nat);
    lemma_done_items(items);
    assert(host::gather(items) == StepView::<Seq<TreeEntryView>, GitErrorView>::Done(all));
}

/// The listing to a depth is what lies within it of the listing to a larger one, in
/// the same order, and nothing that is listed lies deeper than was asked for.
pub proof fn law_depth_restricts(
    k: Seq<(HostCallView, ReplyView)>,
    config: StorageConfigView,
    owner: Seq<char>,
    name: Seq<char>,
    tree_ish: Seq<char>,
    path: Option<Seq<char>>,
    shallow: u32,
    deep: u32,
)
    requires
        shallow <= deep,
        plain_trees(k),
        trees::get_tree_recursive(k, config, owner, name, tree_ish, path, Some(deep)) is Done,
    ensures
        ({
            let all = trees::get_tree_recursive(
                k,
                config,
                owner,
                name,
                tree_ish,
                path,
                Some(deep),
            )->Done_0;
            let base = leading(k, config, owner, name, tree_ish, path);
            &&& trees::get_tree_recursive(k, config, owner, name, tree_ish, path, Some(shallow))
                == StepView::<Seq<TreeEntryView>, GitErrorView>::Done(
                all.filter(within(base, shallow as nat)),
            )
            &&& forall|i: int|
                0 <= i < all.len() ==> level(base, (#[trigger] all[i]).path) <= deep
        }),
{
    let all = trees::get_tree_recursive(
        k,
        config,
        owner,
        name,
        tree_ish,
        path,
        Some(deep),
    )->Done_0;
    let dir = trees::directory_at(k, config, owner, name, tree_ish, path)->Done_0;
    lemma_behind(k, config, owner, name, tree_ish, path, deep);
    lemma_shallower(k, dir.0, dir.1, shallow as nat, deep as nat);
    lemma_filter_values::<TreeEntryView, GitErrorView>(all, within(dir.1, shallow as nat));
    lemma_values_are_done::<TreeEntryView, GitErrorView>(
        all.filter(within(dir.1, shallow as nat)),
    );
    lemma_shallower(k, dir.0, dir.1, deep as nat, deep as nat);
    let items = trees::collected(k, dir.0, dir.1, deep as nat);
    let p = keeps(within(dir.1, deep as nat));
    assert forall|i: int| 0 <= i < all.len() implies level(dir.1, (#[trigger] all[i]).path)
        <= deep by {
        broadcast use vstd::seq_lib::group_filter_ensures;

        assert(items[i] == ItemView::<TreeEntryView, GitErrorView>::Value(all[i]));
        assert(p(items.filter(p)[i]));
    }
}

/// Where no depth is given, ten directories below the first are listed.
pub proof fn law_depth_defaults(
    k: Seq<(HostCallView, ReplyView)>,
    config: StorageConfigView,
    owner: Seq<char>,
    name: Seq<char>,
    tree_ish: Seq<char>,
    path: Option<Seq<char>>,
)
    ensures
        trees::get_tree_recursive(k, config, owner, name, tree_ish, path, None)
            == trees::get_tree_recursive(k, config, owner, name, tree_ish, path, Some(10)),
{
}

/// To no depth a listing is that of the directory alone, item by item.
proof fn lemma_flat(
    k: Seq<(HostCallView, ReplyView)>,
    items: Seq<OutcomeView<TreeItemView>>,
    base: Seq<char>,
)
    ensures
        trees::collected(k, items, base, 0) == items.map_values(
            |item: OutcomeView<TreeItemView>| trees::listed(k, base, item),
        ),
    decreases items.len(),
{
    let f = |item: OutcomeView<TreeItemView>| trees::listed(k, base, item);
    if items.len() > 0 {
        lemma_flat(k, items.drop_last(), base);
        assert(trees::below(k, items.last(), base, 0).len() == 0);
    }
    assert(trees::collected(k, items, base, 0) =~= items.map_values(f));
}

/// To no depth the same entries are listed as those of the directory, which come in
/// order there.
pub proof fn law_no_depth_is_the_directory(
    k: Seq<(HostCallView, ReplyView)>,
    config: StorageConfigView,
    owner: Seq<char>,
    name: Seq<char>,
    tree_ish: Seq<char>,
    path: Option<Seq<char>>,
)
    ensures
        trees::get_tree(k, config, owner, name, tree_ish, path) == host::chain(
            trees::get_tree_recursive(k, config, owner, name, tree_ish, path, Some(0)),
            |entries: Seq<TreeEntryView>| StepView::Done(trees::in_order(entries)),
        ),
        trees::get_tree(
            k,
            config,
            owner,
            name,
            tree_ish,
            path,
        ) matches StepView::Done(entries) ==> entries.to_multiset()
            == trees::get_tree_recursive(
            k,
            config,
            owner,
            name,
            tree_ish,
            path,
            Some(0),
        )->Done_0.to_multiset(),
{
    if let StepView::Done(dir) = trees::directory_at(k, config, owner, name, tree_ish, path) {
        lemma_flat(k, dir.0, dir.1);
    }
    if let StepView::Done(entries) = trees::get_tree_recursive(
        k,
        config,
        owner,
        name,
        tree_ish,
        path,
        Some(0),
    ) {
        trees::law_in_order(entries);
    }
}

/// Whether an entry is right in a directory, or comes after the directory that it is
/// right in.
spec fn after_its_directory(
    items: Seq<ItemView<TreeEntryView, GitErrorView>>,
    base: Seq<char>,
    i: int,
) -> bool {
    items[i]->Value_0.path == base + items[i]->Value_0.name || exists|j: int|
        0 <= j < i && (#[trigger] items[j])->Value_0.entry_type == EntryType::Tree
            && items[i]->Value_0.path == items[j]->Value_0.path + "/"@ + items[i]->Value_0.name
}

/// In a listing a directory comes before what is in it.
proof fn lemma_after_directories(
    k: Seq<(HostCallView, ReplyView)>,
    items: Seq<OutcomeView<TreeItemView>>,
    base: Seq<char>,
    depth: nat,
)
    requires
        all_values(trees::collected(k, items, base, depth)),
    ensures
        forall|i: int|
            0 <= i < trees::collected(k, items, base, depth).len()
                ==> #[trigger] after_its_directory(
                trees::collected(k, items, base, depth),
                base,
                i,
            ),
    decreases depth, items.len(),
{
    if items.len() > 0 {
        let all = trees::collected(k, items, base, depth);
        let last = items.last();
        let before = trees::collected(k, items.drop_last(), base, depth);
        let one = seq![trees::listed(k, base, last)];
        let under = trees::below(k, last, base, depth);
        lemma_parts_are_values(before + one, under);
        lemma_parts_are_values(before, one);
        lemma_after_directories(k, items.drop_last(), base, depth);
        assert(one[0] is Value);
        let entry = one[0]->Value_0;
        let n = before.len() as int;
        assert(all[n] == one[0]);
        assert forall|i: int| 0 <= i < all.len() implies #[trigger] after_its_directory(
            all,
            base,
            i,
        ) by {
            if i < n {
                assert(all[i] == before[i]);
                assert(after_its_directory(before, base, i));
                if before[i]->Value_0.path != base + before[i]->Value_0.name {
                    let j = choose|j: int|
                        0 <= j < i && (#[trigger] before[j])->Value_0.entry_type == EntryType::Tree
                            && before[i]->Value_0.path == before[j]->Value_0.path + "/"@
                            + before[i]->Value_0.name;
                    assert(all[j] == before[j]);
                }
            } else if i > n {
                let t = i - n - 1;
                assert(all[i] == under[t]);
                let inner = host::tree(
                    k,
                    HostCallView::Tree { oid: last->Got_0.oid },
                )->0->Got_0;
                let deeper = base + last->Got_0.name + "/"@;
                assert(under[t] is Value);
                assert(under == trees::collected(k, inner, deeper, (depth - 1) as nat));
                lemma_after_directories(k, inner, deeper, (depth - 1) as nat);
                assert(after_its_directory(under, deeper, t));
                if under[t]->Value_0.path == deeper + under[t]->Value_0.name {
                    assert(all[n]->Value_0.path == base + last->Got_0.name);
                    assert(all[n]->Value_0.entry_type == EntryType::Tree);
                } else {
                    let j = choose|j: int|
                        0 <= j < t && (#[trigger] under[j])->Value_0.entry_type == EntryType::Tree
                            && under[t]->Value_0.path == under[j]->Value_0.path + "/"@
                            + under[t]->Value_0.name;
                    assert(all[n + 1 + j] == under[j]);
                }
            }
        }
    }
}

/// In a listing a directory comes before what is in it: an entry is right in the
/// directory that is listed, or comes after the one that it is right in.
pub proof fn law_directories_come_first(
    k: Seq<(HostCallView, ReplyView)>,
    config: StorageConfigView,
    owner: Seq<char>,
    name: Seq<char>,
    tree_ish: Seq<char>,
    path: Option<Seq<char>>,
    depth: u32,
    i: int,
)
    requires
        trees::get_tree_recursive(k, config, owner, name, tree_ish, path, Some(depth)) is Done,
        0 <= i < trees::get_tree_recursive(
            k,
            config,
            owner,
            name,
            tree_ish,
            path,
            Some(depth),
        )->Done_0.len(),
    ensures
        ({
            let all = trees::get_tree_recursive(
                k,
                config,
                owner,
                name,
                tree_ish,
                path,
                Some(depth),
            )->Done_0;
            let base = leading(k, config, owner, name, tree_ish, path);
            all[i].path == base + all[i].name || exists|j: int|
                0 <= j < i && (#[trigger] all[j]).entry_type == EntryType::Tree && all[i].path
                    == all[j].path + "/"@ + all[i].name
        }),
{
    let all = trees::get_tree_recursive(
        k,
        config,
        owner,
        name,
        tree_ish,
        path,
        Some(depth),
    )->Done_0;
    let dir = trees::directory_at(k, config, owner, name, tree_ish, path)->Done_0;
    let items = trees::collected(k, dir.0, dir.1, depth as nat);
    lemma_behind(k, config, owner, name, tree_ish, path, depth);
    lemma_after_directories(k, dir.0, dir.1, depth as nat);
    assert(after_its_directory(items, dir.1, i));
    if all[i].path != dir.1 + all[i].name {
        let j = choose|j: int|
            0 <= j < i && (#[trigger] items[j])->Value_0.entry_type == EntryType::Tree
                && items[i]->Value_0.path == items[j]->Value_0.path + "/"@ + items[i]->Value_0.name;
        assert(items[j] == ItemView::<TreeEntryView, GitErrorView>::Value(all[j]));
    }
}

/// Whether a path is that of a name in a directory or lies below it.
spec fn part_of(base: Seq<char>, name: Seq<char>, path: Seq<char>) -> bool {
    path == base + name || (base + name + "/"@).is_prefix_of(path)
}

/// A path belongs to one name alone.
proof fn lemma_one_part(base: Seq<char>, a: Seq<char>, b: Seq<char>, path: Seq<char>)
    requires
        !a.contains('/'),
        !b.contains('/'),
        part_of(base, a, path),
        part_of(base, b, path),
    ensures
        a == b,
{
    lemma_no_longer_part(base, a, b, path);
    lemma_no_longer_part(base, b, a, path);
    lemma_part_reads(base, a, path);
    lemma_part_reads(base, b, path);
    assert forall|i: int| 0 <= i < a.len() implies #[trigger] a[i] == b[i] by {
        assert(path[base.len() + i] == b[i]);
    }
    assert(a =~= b);
}

/// A path that belongs to a name goes on with it after the directory, and then ends
/// or goes on with a slash.
proof fn lemma_part_reads(base: Seq<char>, name: Seq<char>, path: Seq<char>)
    requires
        part_of(base, name, path),
    ensures
        path.len() >= base.len() + name.len(),
        forall|i: int| 0 <= i < name.len() ==> path[base.len() + i] == #[trigger] name[i],
        path.len() > base.len() + name.len() ==> path[(base.len() + name.len()) as int] == '/',
{
    reveal_strlit("/");
    if path != base + name {
        let inner = base + name + "/"@;
        let start = path.subrange(0, inner.len() as int);
        assert(start == inner);
        assert forall|i: int| 0 <= i < name.len() implies path[base.len() + i]
            == #[trigger] name[i] by {
            assert(start[base.len() + i] == path[base.len() + i]);
        }
        let n = (base.len() + name.len()) as int;
        assert(start[n] == path[n]);
    }
}

/// Of two names that a path belongs to, none is longer.
proof fn lemma_no_longer_part(base: Seq<char>, a: Seq<char>, b: Seq<char>, path: Seq<char>)
    requires
        !b.contains('/'),
        part_of(base, a, path),
        part_of(base, b, path),
    ensures
        b.len() <= a.len(),
{
    lemma_part_reads(base, a, path);
    lemma_part_reads(base, b, path);
    if a.len() < b.len() {
        let n = a.len() as int;
        assert(path[base.len() + n] == b[n]);
        assert(b.contains(b[n]));
    }
}

/// Whether a path belongs to a name in a directory.
spec fn belongs(items: Seq<OutcomeView<TreeItemView>>, base: Seq<char>, path: Seq<char>) -> bool {
    exists|n: int|
        0 <= n < items.len() && (#[trigger] items[n]) is Got && part_of(
            base,
            items[n]->Got_0.name,
            path,
        )
}

/// What an entry holds belongs to its name, and is not the entry itself.
proof fn lemma_below_belongs(
    k: Seq<(HostCallView, ReplyView)>,
    item: TreeItemView,
    base: Seq<char>,
    depth: nat,
)
    ensures
        forall|i: int|
            0 <= i < trees::below(k, OutcomeView::Got(item), base, depth).len() && (
            #[trigger] trees::below(k, OutcomeView::Got(item), base, depth)[i]) is Value ==> (base
                + item.name + "/"@).is_prefix_of(
                trees::below(k, OutcomeView::Got(item), base, depth)[i]->Value_0.path,
            ),
{
    if let Some(OutcomeView::Got(inner)) = host::tree(k, HostCallView::Tree { oid: item.oid }) {
        if depth > 0 {
            law_listed_lies_below(k, inner, base + item.name + "/"@, (depth - 1) as nat);
        }
    }
}

/// What is listed belongs to a name in the directory.
proof fn lemma_all_belong(
    k: Seq<(HostCallView, ReplyView)>,
    items: Seq<OutcomeView<TreeItemView>>,
    base: Seq<char>,
    depth: nat,
)
    requires
        all_values(trees::collected(k, items, base, depth)),
    ensures
        forall|i: int|
            0 <= i < trees::collected(k, items, base, depth).len() ==> belongs(
                items,
                base,
                (#[trigger] trees::collected(k, items, base, depth)[i])->Value_0.path,
            ),
    decreases items.len(),
{
    if items.len() > 0 {
        let all = trees::collected(k, items, base, depth);
        let rest = items.drop_last();
        let last = items.last();
        let before = trees::collected(k, rest, base, depth);
        let one = seq![trees::listed(k, base, last)];
        let under = trees::below(k, last, base, depth);
        lemma_parts_are_values(before + one, under);
        lemma_parts_are_values(before, one);
        lemma_all_belong(k, rest, base, depth);
        assert(one[0] is Value);
        lemma_below_belongs(k, last->Got_0, base, depth);
        let n = before.len() as int;
        assert forall|i: int| 0 <= i < all.len() implies belongs(
            items,
            base,
            (#[trigger] all[i])->Value_0.path,
        ) by {
            let path = all[i]->Value_0.path;
            if i < n {
                assert(all[i] == before[i]);
                let t = choose|t: int|
                    0 <= t < rest.len() && (#[trigger] rest[t]) is Got && part_of(
                        base,
                        rest[t]->Got_0.name,
                        path,
                    );
                assert(rest[t] == items[t]);
            } else {
                if i > n {
                    assert(all[i] == under[i - n - 1]);
                } else {
                    assert(all[i] == one[0]);
                }
                assert(part_of(base, items[items.len() - 1]->Got_0.name, path));
            }
        }
    }
}

/// Whether no two entries of a list have the same path.
spec fn paths_differ(items: Seq<ItemView<TreeEntryView, GitErrorView>>) -> bool {
    forall|i: int, j: int|
        0 <= i < j < items.len() ==> (#[trigger] items[i])->Value_0.path != (
        #[trigger] items[j])->Value_0.path
}

/// No path is listed twice.
proof fn lemma_paths_differ(
    k: Seq<(HostCallView, ReplyView)>,
    items: Seq<OutcomeView<TreeItemView>>,
    base: Seq<char>,
    depth: nat,
)
    requires
        plain_trees(k),
        distinct_trees(k),
        plain(items),
        distinct(items),
        all_values(trees::collected(k, items, base, depth)),
    ensures
        paths_differ(trees::collected(k, items, base, depth)),
    decreases depth, items.len(),
{
    if items.len() > 0 {
        let all = trees::collected(k, items, base, depth);
        let rest = items.drop_last();
        let last = items.last();
        let before = trees::collected(k, rest, base, depth);
        let one = seq![trees::listed(k, base, last)];
        let under = trees::below(k, last, base, depth);
        lemma_parts_are_values(before + one, under);
        lemma_parts_are_values(before, one);
        lemma_rest_is_plain(items);
        assert forall|i: int, j: int|
            0 <= i < j < rest.len() && (#[trigger] rest[i]) is Got && (
            #[trigger] rest[j]) is Got implies rest[i]->Got_0.name != rest[j]->Got_0.name by {
            assert(rest[i] == items[i]);
            assert(rest[j] == items[j]);
        }
        lemma_paths_differ(k, rest, base, depth);
        lemma_all_belong(k, rest, base, depth);
        assert(one[0] is Value);
        let own = last->Got_0.name;
        assert(items[items.len() - 1] is Got);
        lemma_below_belongs(k, last->Got_0, base, depth);
        if under.len() > 0 {
            assert(under[0] is Value);
            let inner = host::tree(k, HostCallView::Tree { oid: last->Got_0.oid })->0->Got_0;
            assert(plain(inner));
            assert(distinct(inner));
            lemma_paths_differ(k, inner, base + own + "/"@, (depth - 1) as nat);
        }
        assert(paths_differ(under));
        let n = before.len() as int;
        assert forall|i: int, j: int| 0 <= i < j < all.len() implies (
        #[trigger] all[i])->Value_0.path != (#[trigger] all[j])->Value_0.path by {
            let path = all[j]->Value_0.path;
            if j > n {
                assert(all[j] == under[j - n - 1]);
                assert((base + own + "/"@).is_prefix_of(path));
            } else if j == n {
                assert(all[j] == one[0]);
            }
            if i < n {
                assert(all[i] == before[i]);
                if j < n {
                    assert(all[j] == before[j]);
                } else if all[i]->Value_0.path == path {
                    let t = choose|t: int|
                        0 <= t < rest.len() && (#[trigger] rest[t]) is Got && part_of(
                            base,
                            rest[t]->Got_0.name,
                            path,
                        );
                    assert(rest[t] == items[t]);
                    lemma_one_part(base, rest[t]->Got_0.name, own, path);
                    assert(items[t]->Got_0.name != items[items.len() - 1]->Got_0.name);
                }
            } else if i == n {
                assert(all[i] == one[0]);
                reveal_strlit("/");
                assert((base + own + "/"@).len() <= path.len());
            } else {
                assert(all[i] == under[i - n - 1]);
            }
        }
    }
}

/// No path is listed twice, where no directory has a name twice.
pub proof fn law_no_path_twice(
    k: Seq<(HostCallView, ReplyView)>,
    config: StorageConfigView,
    owner: Seq<char>,
    name: Seq<char>,
    tree_ish: Seq<char>,
    path: Option<Seq<char>>,
    depth: u32,
)
    requires
        plain_trees(k),
        distinct_trees(k),
    ensures
        trees::get_tree_recursive(
            k,
            config,
            owner,
            name,
            tree_ish,
            path,
            Some(depth),
        ) matches StepView::Done(all) ==> forall|i: int, j: int|
            0 <= i < j < all.len() ==> (#[trigger] all[i]).path != (#[trigger] all[j]).path,
{
    if let StepView::Done(all) = trees::get_tree_recursive(
        k,
        config,
        owner,
        name,
        tree_ish,
        path,
        Some(depth),
    ) {
        let dir = trees::directory_at(k, config, owner, name, tree_ish, path)->Done_0;
        let items = trees::collected(k, dir.0, dir.1, depth as nat);
        lemma_behind(k, config, owner, name, tree_ish, path, depth);
        lemma_paths_differ(k, dir.0, dir.1, depth as nat);
        assert forall|i: int, j: int| 0 <= i < j < all.len() implies (#[trigger] all[i]).path != (
        #[trigger] all[j]).path by {
            assert(items[i] == ItemView::<TreeEntryView, GitErrorView>::Value(all[i]));
            assert(items[j] == ItemView::<TreeEntryView, GitErrorView>::Value(all[j]));
        }
    }
}

} // verus!
