//! What is shown of directories, files and differences, in terms of what the machine has
//! told.

use vstd::prelude::*;

use super::host::{
    all_values, law_gather_done, lemma_done_items, lemma_flat_map_part, lemma_flat_map_singles,
    lemma_parts_are_values,
};
use super::merging::{changes_told, revision_told, tree_told};
use crate::git::diff::{self, FileDiffView, FileStatus};
use crate::git::hunks::{self, DiffHunkView, DiffLineView, LineType};
use crate::git::objects::{self, EntryKind, TreeItemView};
use crate::git::trees::{self, EntryType, TreeEntryView};
use crate::git::{GitErrorView, StorageConfigView};
use crate::host::{self, HostCallView, ItemView, OutcomeView, ReplyView, StepView, TreeChangeView};
use crate::text;

verus! {

/// Whether a mode is that of a directory.
pub open spec fn is_directory(mode: u16) -> bool {
    mode & 0o170000 == 0o040000
}

/// Whether a mode is that of a file.
pub open spec fn is_file(mode: u16) -> bool {
    mode & 0o170000 == 0o100000
}

/// Whether a mode is that of a symbolic link.
pub open spec fn is_link(mode: u16) -> bool {
    mode & 0o170000 == 0o120000
}

/// What the machine has told to be in a tree.
pub open spec fn items_told(k: Seq<(HostCallView, ReplyView)>, oid: Seq<char>) -> Option<
    Seq<OutcomeView<TreeItemView>>,
> {
    match host::reply_to(k, HostCallView::Tree { oid }) {
        Some(ReplyView::Tree(OutcomeView::Got(items))) => Some(items),
        _ => None,
    }
}

/// What the machine has told to be at a path below a tree.
pub open spec fn item_told(
    k: Seq<(HostCallView, ReplyView)>,
    tree: Seq<char>,
    path: Seq<char>,
) -> Option<TreeItemView> {
    match host::reply_to(k, HostCallView::EntryAt { tree, path }) {
        Some(ReplyView::Entry(OutcomeView::Got(found))) => found,
        _ => None,
    }
}

/// The tree that the machine has told to be that of a revision.
pub open spec fn root_told(k: Seq<(HostCallView, ReplyView)>, revision: Seq<char>) -> Option<
    Seq<char>,
> {
    match revision_told(k, revision) {
        Some(oid) => tree_told(k, oid),
        None => None,
    }
}

/// Whether a path stands for the whole tree.
pub open spec fn whole(path: Option<Seq<char>>) -> bool {
    path is None || path->0.len() == 0 || path->0 == seq!['/']
}

/// Whether the machine has told what is in the directory at a path of a revision, and
/// what the paths of its entries begin with.
pub open spec fn directory_told(
    k: Seq<(HostCallView, ReplyView)>,
    revision: Seq<char>,
    path: Option<Seq<char>>,
    items: Seq<OutcomeView<TreeItemView>>,
    base: Seq<char>,
) -> bool {
    let root = root_told(k, revision);
    &&& root is Some
    &&& whole(path) ==> items_told(k, root->0) == Some(items) && base.len() == 0
    &&& !whole(path) ==> {
        let item = item_told(k, root->0, path->0);
        &&& item is Some
        &&& is_directory(item->0.mode)
        &&& items_told(k, item->0.oid) == Some(items)
        &&& base == text::trim_end_of(path->0, '/') + seq!['/']
    }
}

/// Whether an entry shows what the machine has told of an item: its name, below the
/// directory its path, its object, its mode and what that says, and for a file its size.
pub open spec fn entry_told(
    k: Seq<(HostCallView, ReplyView)>,
    base: Seq<char>,
    item: OutcomeView<TreeItemView>,
    entry: TreeEntryView,
) -> bool {
    &&& item is Got
    &&& entry.name == item->Got_0.name
    &&& entry.path == base + item->Got_0.name
    &&& entry.oid == item->Got_0.oid
    &&& entry.mode == item->Got_0.mode
    &&& entry.entry_type == if is_file(item->Got_0.mode) {
        EntryType::Blob
    } else if is_directory(item->Got_0.mode) {
        EntryType::Tree
    } else if is_link(item->Got_0.mode) {
        EntryType::Link
    } else {
        EntryType::Commit
    }
    &&& if is_file(item->Got_0.mode) {
        host::reply_to(k, HostCallView::BlobSize { oid: entry.oid }) == Some(
            ReplyView::Count(entry.size),
        )
    } else {
        entry.size is None
    }
}

/// Whether entries show the items of a directory one by one.
pub open spec fn entries_told(
    k: Seq<(HostCallView, ReplyView)>,
    base: Seq<char>,
    items: Seq<OutcomeView<TreeItemView>>,
    entries: Seq<TreeEntryView>,
) -> bool {
    &&& entries.len() == items.len()
    &&& forall|i: int|
        0 <= i < items.len() ==> entry_told(k, base, #[trigger] items[i], entries[i])
}

/// An item is listed by what is told of it.
pub proof fn lemma_listed(
    k: Seq<(HostCallView, ReplyView)>,
    base: Seq<char>,
    item: OutcomeView<TreeItemView>,
)
    ensures
        trees::listed(k, base, item) matches ItemView::Value(entry) ==> entry_told(
            k,
            base,
            item,
            entry,
        ),
{
}

/// The directory that is listed is the one that the machine tells of.
pub proof fn law_directories_are_found_as_told(
    k: Seq<(HostCallView, ReplyView)>,
    config: StorageConfigView,
    owner: Seq<char>,
    name: Seq<char>,
    revision: Seq<char>,
    path: Option<Seq<char>>,
)
    ensures
        trees::directory_at(k, config, owner, name, revision, path) matches StepView::Done(dir)
            ==> directory_told(k, revision, path, dir.0, dir.1),
{
    reveal_strlit("/");
    assert("/"@ =~= seq!['/']);
}

/// A directory is listed with every item that the machine tells to be in it and no other,
/// directories before the rest and each of both by name.
pub proof fn law_directory_is_listed_as_told(
    k: Seq<(HostCallView, ReplyView)>,
    config: StorageConfigView,
    owner: Seq<char>,
    name: Seq<char>,
    revision: Seq<char>,
    path: Option<Seq<char>>,
)
    ensures
        trees::get_tree(k, config, owner, name, revision, path) matches StepView::Done(entries)
            ==> {
            &&& exists|
                items: Seq<OutcomeView<TreeItemView>>,
                base: Seq<char>,
                told: Seq<TreeEntryView>,
            |
                directory_told(k, revision, path, items, base) && #[trigger] entries_told(
                    k,
                    base,
                    items,
                    told,
                ) && entries.to_multiset() == told.to_multiset()
            &&& forall|i: int, j: int|
                0 <= i < j < entries.len() && (#[trigger] entries[j]).entry_type == EntryType::Tree
                    ==> (#[trigger] entries[i]).entry_type == EntryType::Tree
            &&& forall|i: int, j: int|
                0 <= i < j < entries.len() && ((#[trigger] entries[j]).entry_type
                    == EntryType::Tree <==> (#[trigger] entries[i]).entry_type == EntryType::Tree)
                    ==> !text::before(entries[j].name, entries[i].name)
        },
{
    if let StepView::Done(entries) = trees::get_tree(k, config, owner, name, revision, path) {
        law_directories_are_found_as_told(k, config, owner, name, revision, path);
        let dir = trees::directory_at(k, config, owner, name, revision, path)->Done_0;
        let items = dir.0.map_values(
            |item: OutcomeView<TreeItemView>| trees::listed(k, dir.1, item),
        );
        law_gather_done(items);
        let told = host::gather(items)->Done_0;
        assert forall|i: int| 0 <= i < dir.0.len() implies entry_told(
            k,
            dir.1,
            #[trigger] dir.0[i],
            told[i],
        ) by {
            assert(items[i] == ItemView::<TreeEntryView, GitErrorView>::Value(told[i]));
            lemma_listed(k, dir.1, dir.0[i]);
        }
        assert(entries_told(k, dir.1, dir.0, told));
        trees::law_in_order(told);
        assert(trees::ordered(entries));
        assert forall|i: int, j: int|
            0 <= i < j < entries.len() && (#[trigger] entries[j]).entry_type
                == EntryType::Tree implies (#[trigger] entries[i]).entry_type
            == EntryType::Tree by {
            assert(!trees::precedes(entries[j], entries[i]));
        }
        assert forall|i: int, j: int|
            0 <= i < j < entries.len() && ((#[trigger] entries[j]).entry_type == EntryType::Tree
                <==> (#[trigger] entries[i]).entry_type == EntryType::Tree) implies !text::before(
            entries[j].name,
            entries[i].name,
        ) by {
            assert(!trees::precedes(entries[j], entries[i]));
        }
    }
}

/// Whether values are among items.
pub open spec fn among(
    items: Seq<ItemView<TreeEntryView, GitErrorView>>,
    item: ItemView<TreeEntryView, GitErrorView>,
) -> bool {
    exists|i: int| 0 <= i < items.len() && #[trigger] items[i] == item
}

/// What is in a directory is listed with one level more.
proof fn lemma_one_level_more(
    k: Seq<(HostCallView, ReplyView)>,
    items: Seq<OutcomeView<TreeItemView>>,
    base: Seq<char>,
    depth: nat,
    entry: TreeEntryView,
    j: int,
)
    requires
        among(trees::collected(k, items, base, depth), ItemView::Value(entry)),
        entry.entry_type == EntryType::Tree,
        items_told(k, entry.oid) is Some,
        0 <= j < items_told(k, entry.oid)->0.len(),
    ensures
        among(
            trees::collected(k, items, base, depth + 1),
            trees::listed(k, entry.path + "/"@, items_told(k, entry.oid)->0[j]),
        ),
    decreases depth, items.len(),
{
    let all = trees::collected(k, items, base, depth);
    let inner = items_told(k, entry.oid)->0;
    let wanted = trees::listed(k, entry.path + "/"@, inner[j]);
    if items.len() > 0 {
        let rest = items.drop_last();
        let last = items.last();
        let a = trees::collected(k, rest, base, depth);
        let b = seq![trees::listed(k, base, last)];
        let c = trees::below(k, last, base, depth);
        let x = trees::collected(k, rest, base, depth + 1);
        let y = trees::below(k, last, base, depth + 1);
        let more = trees::collected(k, items, base, depth + 1);
        assert(all == a + b + c);
        assert(more == x + b + y);
        let i = choose|i: int| 0 <= i < all.len() && #[trigger] all[i] == ItemView::<
            TreeEntryView,
            GitErrorView,
        >::Value(entry);
        if i < a.len() {
            assert(a[i] == all[i]);
            lemma_one_level_more(k, rest, base, depth, entry, j);
            let n = choose|n: int| 0 <= n < x.len() && #[trigger] x[n] == wanted;
            assert(more[n] == wanted);
        } else if i == a.len() {
            assert(all[i] == b[0]);
            lemma_listed(k, base, last);
            let deeper = base + last->Got_0.name + "/"@;
            assert(entry.path + "/"@ =~= deeper);
            assert(y == trees::collected(k, inner, deeper, depth));
            lemma_right_below(k, inner, deeper, depth, j);
            let n = choose|n: int| 0 <= n < y.len() && #[trigger] y[n] == wanted;
            assert(more[x.len() + 1 + n] == wanted);
        } else {
            assert(c[i - a.len() - 1] == all[i]);
            let dir = last->Got_0;
            let under = items_told(k, dir.oid)->0;
            let deeper = base + dir.name + "/"@;
            if depth > 0 {
                if host::tree(k, HostCallView::Tree { oid: dir.oid }) is None {
                    assert(c[0] is Need);
                    assert(c.len() == 1);
                }
                assert(c == trees::collected(k, under, deeper, (depth - 1) as nat));
                lemma_one_level_more(k, under, deeper, (depth - 1) as nat, entry, j);
                assert(y == trees::collected(k, under, deeper, depth));
                let n = choose|n: int| 0 <= n < y.len() && #[trigger] y[n] == wanted;
                assert(more[x.len() + 1 + n] == wanted);
            }
        }
    }
}

/// What is right in a directory is listed to any depth.
proof fn lemma_right_below(
    k: Seq<(HostCallView, ReplyView)>,
    items: Seq<OutcomeView<TreeItemView>>,
    base: Seq<char>,
    depth: nat,
    j: int,
)
    requires
        0 <= j < items.len(),
    ensures
        among(trees::collected(k, items, base, depth), trees::listed(k, base, items[j])),
    decreases items.len(),
{
    let rest = items.drop_last();
    let all = trees::collected(k, items, base, depth);
    let a = trees::collected(k, rest, base, depth);
    if j < rest.len() {
        lemma_right_below(k, rest, base, depth, j);
        let n = choose|n: int| 0 <= n < a.len() && #[trigger] a[n] == trees::listed(
            k,
            base,
            rest[j],
        );
        assert(all[n] == a[n]);
    } else {
        assert(all[a.len() as int] == trees::listed(k, base, items[j]));
    }
}

/// A listing to any depth holds every item that the machine tells to be right in the
/// directory, and with one level more also every item that it tells to be right in a
/// directory that was listed.
pub proof fn law_one_level_more_lists_what_is_below(
    k: Seq<(HostCallView, ReplyView)>,
    config: StorageConfigView,
    owner: Seq<char>,
    name: Seq<char>,
    revision: Seq<char>,
    path: Option<Seq<char>>,
    depth: u32,
    entry: TreeEntryView,
    items: Seq<OutcomeView<TreeItemView>>,
    base: Seq<char>,
    j: int,
)
    requires
        depth < u32::MAX,
        directory_told(k, revision, path, items, base),
    ensures
        trees::get_tree_recursive(
            k,
            config,
            owner,
            name,
            revision,
            path,
            Some(depth),
        ) matches StepView::Done(all) ==> {
            &&& 0 <= j < items.len() ==> exists|n: int|
                0 <= n < all.len() && entry_told(k, base, items[j], #[trigger] all[n])
            &&& all.contains(entry) && entry.entry_type == EntryType::Tree && items_told(
                k,
                entry.oid,
            ) is Some ==> {
                let inner = items_told(k, entry.oid)->0;
                trees::get_tree_recursive(
                    k,
                    config,
                    owner,
                    name,
                    revision,
                    path,
                    Some((depth + 1) as u32),
                ) matches StepView::Done(more) ==> (0 <= j < inner.len() ==> exists|n: int|
                    0 <= n < more.len() && entry_told(
                        k,
                        entry.path + seq!['/'],
                        inner[j],
                        #[trigger] more[n],
                    ))
            }
        },
{
    law_directories_are_found_as_told(k, config, owner, name, revision, path);
    reveal_strlit("/");
    assert("/"@ =~= seq!['/']);
    let step = trees::get_tree_recursive(k, config, owner, name, revision, path, Some(depth));
    if let StepView::Done(all) = step {
        let dir = trees::directory_at(k, config, owner, name, revision, path)->Done_0;
        assert(dir.0 == items);
        assert(dir.1 =~= base);
        let found = trees::collected(k, items, base, depth as nat);
        law_gather_done(found);
        assert(host::gather(found) == StepView::<Seq<TreeEntryView>, GitErrorView>::Done(all));
        if 0 <= j < items.len() {
            lemma_right_below(k, items, base, depth as nat, j);
            let n = choose|n: int| 0 <= n < found.len() && #[trigger] found[n] == trees::listed(
                k,
                base,
                items[j],
            );
            lemma_listed(k, base, items[j]);
            assert(entry_told(k, base, items[j], all[n]));
        }
        let next = trees::get_tree_recursive(
            k,
            config,
            owner,
            name,
            revision,
            path,
            Some((depth + 1) as u32),
        );
        if all.contains(entry) && entry.entry_type == EntryType::Tree && items_told(
            k,
            entry.oid,
        ) is Some && next is Done {
            let inner = items_told(k, entry.oid)->0;
            let more = next->Done_0;
            let wider = trees::collected(k, items, base, depth as nat + 1);
            law_gather_done(wider);
            assert(host::gather(wider) == StepView::<Seq<TreeEntryView>, GitErrorView>::Done(more));
            if 0 <= j < inner.len() {
                let i = choose|i: int| 0 <= i < all.len() && #[trigger] all[i] == entry;
                assert(found[i] == ItemView::<TreeEntryView, GitErrorView>::Value(entry));
                lemma_one_level_more(k, items, base, depth as nat, entry, j);
                let n = choose|n: int|
                    0 <= n < wider.len() && #[trigger] wider[n] == trees::listed(
                        k,
                        entry.path + "/"@,
                        inner[j],
                    );
                lemma_listed(k, entry.path + "/"@, inner[j]);
                assert(entry_told(k, entry.path + seq!['/'], inner[j], more[n]));
            }
        }
    }
}

/// Whether an entry shows an item that the machine has told to be right in the directory,
/// or right in a directory that is listed before.
pub open spec fn listed_from(
    k: Seq<(HostCallView, ReplyView)>,
    items: Seq<OutcomeView<TreeItemView>>,
    base: Seq<char>,
    all: Seq<TreeEntryView>,
    n: int,
) -> bool {
    ||| exists|j: int| 0 <= j < items.len() && entry_told(k, base, #[trigger] items[j], all[n])
    ||| exists|m: int| 0 <= m < n && shows_below(k, #[trigger] all[m], all[n])
}

/// Whether an entry shows an item that the machine has told to be right in the directory
/// that another shows.
pub open spec fn shows_below(
    k: Seq<(HostCallView, ReplyView)>,
    directory: TreeEntryView,
    entry: TreeEntryView,
) -> bool {
    &&& directory.entry_type == EntryType::Tree
    &&& items_told(k, directory.oid) is Some
    &&& exists|j: int|
        0 <= j < items_told(k, directory.oid)->0.len() && entry_told(
            k,
            directory.path + seq!['/'],
            #[trigger] items_told(k, directory.oid)->0[j],
            entry,
        )
}

/// The values of items.
pub open spec fn values_of(items: Seq<ItemView<TreeEntryView, GitErrorView>>) -> Seq<
    TreeEntryView,
> {
    Seq::new(items.len(), |i: int| items[i]->Value_0)
}

/// Every entry of a listing shows an item.
proof fn lemma_listed_from(
    k: Seq<(HostCallView, ReplyView)>,
    items: Seq<OutcomeView<TreeItemView>>,
    base: Seq<char>,
    depth: nat,
    n: int,
)
    requires
        all_values(trees::collected(k, items, base, depth)),
        0 <= n < trees::collected(k, items, base, depth).len(),
    ensures
        listed_from(k, items, base, values_of(trees::collected(k, items, base, depth)), n),
    decreases depth, items.len(),
{
    reveal_strlit("/");
    assert("/"@ =~= seq!['/']);
    let found = trees::collected(k, items, base, depth);
    let all = values_of(found);
    if items.len() > 0 {
        let rest = items.drop_last();
        let last = items.last();
        let a = trees::collected(k, rest, base, depth);
        let b = seq![trees::listed(k, base, last)];
        let c = trees::below(k, last, base, depth);
        assert(found == a + b + c);
        lemma_parts_are_values(a + b, c);
        lemma_parts_are_values(a, b);
        assert(b[0] is Value);
        lemma_listed(k, base, last);
        assert(found[a.len() as int] == b[0]);
        if n < a.len() {
            lemma_listed_from(k, rest, base, depth, n);
            assert(values_of(a)[n] == all[n]);
            if exists|j: int|
                0 <= j < rest.len() && entry_told(k, base, #[trigger] rest[j], all[n]) {
                let j = choose|j: int|
                    0 <= j < rest.len() && entry_told(k, base, #[trigger] rest[j], all[n]);
                assert(items[j] == rest[j]);
            } else {
                let m = choose|m: int|
                    0 <= m < n && shows_below(k, #[trigger] values_of(a)[m], values_of(a)[n]);
                assert(all[m] == values_of(a)[m]);
            }
        } else if n == a.len() {
            assert(items[items.len() - 1] == last);
            assert(entry_told(k, base, items[items.len() - 1], all[n]));
        } else {
            let t = n - a.len() - 1;
            assert(c[t] == found[n]);
            assert(c[t] is Value);
            let dir = last->Got_0;
            let inner = items_told(k, dir.oid)->0;
            let deeper = base + dir.name + "/"@;
            assert(c == trees::collected(k, inner, deeper, (depth - 1) as nat));
            lemma_listed_from(k, inner, deeper, (depth - 1) as nat, t);
            let under = values_of(c);
            assert(under[t] == all[n]);
            let place = a.len() as int;
            assert(all[place].entry_type == EntryType::Tree);
            assert(all[place].path + seq!['/'] =~= deeper);
            if exists|j: int|
                0 <= j < inner.len() && entry_told(k, deeper, #[trigger] inner[j], under[t]) {
                assert(shows_below(k, all[place], all[n]));
            } else {
                let m = choose|m: int| 0 <= m < t && shows_below(k, #[trigger] under[m], under[t]);
                assert(c[m] == found[place + 1 + m]);
                assert(all[place + 1 + m] == under[m]);
            }
        }
    }
}

/// A listing to any depth holds nothing but what the machine tells: every entry shows an
/// item that is right in the directory, or right in one that is listed before.
pub proof fn law_listings_hold_only_what_is_told(
    k: Seq<(HostCallView, ReplyView)>,
    config: StorageConfigView,
    owner: Seq<char>,
    name: Seq<char>,
    revision: Seq<char>,
    path: Option<Seq<char>>,
    depth: Option<u32>,
    items: Seq<OutcomeView<TreeItemView>>,
    base: Seq<char>,
)
    requires
        directory_told(k, revision, path, items, base),
    ensures
        trees::get_tree_recursive(
            k,
            config,
            owner,
            name,
            revision,
            path,
            depth,
        ) matches StepView::Done(all) ==> forall|n: int|
            0 <= n < all.len() ==> #[trigger] listed_from(k, items, base, all, n),
{
    law_directories_are_found_as_told(k, config, owner, name, revision, path);
    let step = trees::get_tree_recursive(k, config, owner, name, revision, path, depth);
    if let StepView::Done(all) = step {
        let dir = trees::directory_at(k, config, owner, name, revision, path)->Done_0;
        assert(dir.0 == items);
        assert(dir.1 =~= base);
        let levels = match depth {
            Some(n) => n,
            None => trees::DEFAULT_DEPTH,
        };
        let found = trees::collected(k, items, base, levels as nat);
        lemma_done_items(found);
        law_gather_done(found);
        assert(values_of(found) =~= all);
        assert forall|n: int| 0 <= n < all.len() implies #[trigger] listed_from(
            k,
            items,
            base,
            all,
            n,
        ) by {
            lemma_listed_from(k, items, base, levels as nat, n);
        }
    }
}

/// What the machine has told to be in a file.
pub open spec fn bytes_told(k: Seq<(HostCallView, ReplyView)>, oid: Seq<char>) -> Option<Seq<u8>> {
    match host::reply_to(k, HostCallView::Blob { oid }) {
        Some(ReplyView::Blob(OutcomeView::Got(data))) => Some(data),
        _ => None,
    }
}

/// Whether contents are taken for binary: among the first 8192 bytes is a zero.
pub open spec fn has_zero(data: Seq<u8>) -> bool {
    exists|i: int| 0 <= i < data.len() && i < 8192 && #[trigger] data[i] == 0
}

/// Whether contents are binary.
proof fn lemma_has_zero(data: Seq<u8>)
    ensures
        objects::looks_binary(data) <==> has_zero(data),
{
}

/// The contents of an object are what the machine tells, and so are its size and whether
/// it is binary.
pub proof fn law_files_are_read_as_told(
    k: Seq<(HostCallView, ReplyView)>,
    config: StorageConfigView,
    owner: Seq<char>,
    name: Seq<char>,
    oid: Seq<char>,
)
    ensures
        trees::get_blob(k, config, owner, name, oid) matches StepView::Done(data)
            ==> objects::object_id(oid) is Some && bytes_told(k, objects::object_id(oid)->0)
            == Some(data),
        trees::get_blob_info(k, config, owner, name, oid) matches StepView::Done(info) ==> {
            &&& objects::object_id(oid) is Some
            &&& bytes_told(k, objects::object_id(oid)->0) is Some
            &&& info.oid == oid
            &&& bytes_told(k, objects::object_id(oid)->0)->0.len() <= u64::MAX ==> info.size
                == bytes_told(k, objects::object_id(oid)->0)->0.len()
            &&& info.is_binary <==> has_zero(bytes_told(k, objects::object_id(oid)->0)->0)
        },
        trees::get_blob(k, config, owner, name, oid) is Done <==> trees::get_blob_info(
            k,
            config,
            owner,
            name,
            oid,
        ) is Done,
{
    if let StepView::Done(data) = trees::get_blob(k, config, owner, name, oid) {
        lemma_has_zero(data);
    }
}

/// The file at a path is what the machine tells to be there; what is no file is refused.
pub proof fn law_paths_are_read_as_told(
    k: Seq<(HostCallView, ReplyView)>,
    config: StorageConfigView,
    owner: Seq<char>,
    name: Seq<char>,
    revision: Seq<char>,
    path: Seq<char>,
)
    ensures
        trees::get_blob_by_path(k, config, owner, name, revision, path) matches StepView::Done(data)
            ==> {
            &&& root_told(k, revision) is Some
            &&& item_told(k, root_told(k, revision)->0, path) is Some
            &&& is_file(item_told(k, root_told(k, revision)->0, path)->0.mode)
            &&& bytes_told(k, item_told(k, root_told(k, revision)->0, path)->0.oid) == Some(data)
        },
{
}

/// The contents that the machine has told of one side of a change: none where there is no
/// such side, or where they cannot be read.
pub open spec fn side_told(k: Seq<(HostCallView, ReplyView)>, oid: Option<Seq<char>>) -> Option<
    Seq<u8>,
> {
    match oid {
        None => None,
        Some(hex) => match objects::object_id(hex) {
            None => None,
            Some(id) => bytes_told(k, id),
        },
    }
}

/// The lines of one side of a change.
pub open spec fn side_lines(data: Option<Seq<u8>>) -> Seq<Seq<char>> {
    if data is Some {
        text::lines(text::utf8_lossy(data->0))
    } else {
        Seq::empty()
    }
}

/// Whether a file shows the two sides of a change: the lines between them, unless one of
/// them is binary.
pub open spec fn sides_shown(
    k: Seq<(HostCallView, ReplyView)>,
    file: FileDiffView,
    context: nat,
) -> bool {
    let old = side_told(k, file.old_oid);
    let new = side_told(k, file.new_oid);
    &&& file.is_binary <==> old is Some && has_zero(old->0) || new is Some && has_zero(new->0)
    &&& !file.is_binary ==> file.hunks == hunks::diff_hunks(
        side_lines(old),
        side_lines(new),
        context,
    )
    &&& file.is_binary ==> file.hunks.len() == 0
}

/// Whether a file shows a change that the machine has told of: both paths where it moved,
/// the object and the mode on each side that there is, and what kind of change it is.
pub open spec fn change_shown(change: TreeChangeView, file: FileDiffView) -> bool {
    match change {
        TreeChangeView::Addition { path, mode, oid } => {
            &&& file.path == path && file.old_path is None
            &&& file.old_oid is None && file.new_oid == Some(oid)
            &&& file.old_mode is None && file.new_mode == Some(mode as u32)
            &&& file.status == FileStatus::Added
        },
        TreeChangeView::Deletion { path, mode, oid } => {
            &&& file.path == path && file.old_path is None
            &&& file.old_oid == Some(oid) && file.new_oid is None
            &&& file.old_mode == Some(mode as u32) && file.new_mode is None
            &&& file.status == FileStatus::Deleted
        },
        TreeChangeView::Modification { path, old_mode, old_oid, mode, oid } => {
            &&& file.path == path && file.old_path is None
            &&& file.old_oid == Some(old_oid) && file.new_oid == Some(oid)
            &&& file.old_mode == Some(old_mode as u32) && file.new_mode == Some(mode as u32)
            &&& mode == old_mode ==> file.status == FileStatus::Modified
            &&& mode != old_mode ==> file.status == FileStatus::TypeChanged
        },
        TreeChangeView::Rewrite { old_path, old_mode, old_oid, path, mode, oid } => {
            &&& file.path == path && file.old_path == Some(old_path)
            &&& file.old_oid == Some(old_oid) && file.new_oid == Some(oid)
            &&& file.old_mode == Some(old_mode as u32) && file.new_mode == Some(mode as u32)
            &&& mode == old_mode ==> file.status == FileStatus::Modified
            &&& mode != old_mode ==> file.status == FileStatus::TypeChanged
        },
    }
}

/// What is compared shows both sides.
proof fn lemma_compared(
    k: Seq<(HostCallView, ReplyView)>,
    change: diff::DiffChangeView,
    context: nat,
)
    ensures
        diff::compared(k, change, context).len() > 0,
        all_values(diff::compared(k, change, context)) ==> {
            let file = diff::compared(k, change, context)[0]->Value_0;
            &&& diff::compared(k, change, context).len() == 1
            &&& sides_shown(k, file, context)
            &&& file.path == change.path && file.old_path == change.old_path
            &&& file.old_oid == change.old_oid && file.new_oid == change.new_oid
            &&& file.old_mode == change.old_mode && file.new_mode == change.new_mode
            &&& file.status == change.status
        },
{
    let items = diff::compared(k, change, context);
    if all_values(items) {
        assert(items[0] is Value);
        let old = diff::contents(k, change.old_oid);
        let new = diff::contents(k, change.new_oid);
        assert(old == Ok::<Option<Seq<u8>>, HostCallView>(side_told(k, change.old_oid)));
        assert(new == Ok::<Option<Seq<u8>>, HostCallView>(side_told(k, change.new_oid)));
        if let Some(data) = side_told(k, change.old_oid) {
            lemma_has_zero(data);
        }
        if let Some(data) = side_told(k, change.new_oid) {
            lemma_has_zero(data);
        }
    }
}

/// The difference of two trees shows every change that the machine tells of, in that
/// order and as it tells.
pub proof fn law_changes_are_shown_as_told(
    k: Seq<(HostCallView, ReplyView)>,
    old_tree: Seq<char>,
    new_tree: Seq<char>,
    lines: u32,
)
    ensures
        diff::diff_trees(k, old_tree, new_tree, None, Some(lines)) matches StepView::Done(result)
            ==> {
            let changes = changes_told(k, old_tree, new_tree);
            &&& changes is Some
            &&& result.old_oid == Some(old_tree)
            &&& result.new_oid == Some(new_tree)
            &&& result.files.len() == changes->0.len()
            &&& forall|i: int|
                0 <= i < result.files.len() ==> change_shown(
                    changes->0[i],
                    #[trigger] result.files[i],
                ) && sides_shown(k, result.files[i], lines as nat)
        },
{
    if let StepView::Done(result) = diff::diff_trees(k, old_tree, new_tree, None, Some(lines)) {
        let changes = changes_told(k, old_tree, new_tree)->0;
        let f = |change: TreeChangeView| diff::change_items(k, change, None, lines as nat);
        let items = changes.flat_map(f);
        lemma_done_items(items);
        assert forall|i: int| 0 <= i < changes.len() implies f(#[trigger] changes[i]).len() == 1 by {
            lemma_flat_map_part(changes, f, i);
            lemma_compared(k, diff::diff_change(changes[i]), lines as nat);
        }
        lemma_flat_map_singles(changes, f);
        law_gather_done(items);
        assert forall|i: int| 0 <= i < result.files.len() implies change_shown(
            changes[i],
            #[trigger] result.files[i],
        ) && sides_shown(k, result.files[i], lines as nat) by {
            lemma_flat_map_part(changes, f, i);
            lemma_compared(k, diff::diff_change(changes[i]), lines as nat);
            assert(items[i] == f(changes[i])[0]);
        }
    }
}

/// Two revisions are compared by the trees that the machine tells of them; against
/// nothing, the tree of the one is compared alone.
pub proof fn law_revisions_are_compared_by_their_trees(
    k: Seq<(HostCallView, ReplyView)>,
    config: StorageConfigView,
    owner: Seq<char>,
    name: Seq<char>,
    old: Seq<char>,
    new: Seq<char>,
    filter: Option<Seq<char>>,
    lines: Option<u32>,
)
    ensures
        diff::diff_commits(k, config, owner, name, old, new, filter, lines) matches StepView::Done(
            result,
        ) ==> {
            let after = root_told(k, new);
            let before = root_told(k, old);
            &&& after is Some
            &&& result.new_oid == after
            &&& old.len() == 0 ==> result.old_oid is None && diff::diff_initial(
                k,
                after->0,
                filter,
                lines,
            ) == StepView::<diff::DiffResultView, GitErrorView>::Done(result)
            &&& old.len() > 0 ==> before is Some && result.old_oid == before && diff::diff_trees(
                k,
                before->0,
                after->0,
                filter,
                lines,
            ) == StepView::<diff::DiffResultView, GitErrorView>::Done(result)
        },
{
}

/// A commit is compared with the tree that the machine tells of its first parent.
pub proof fn law_commit_is_compared_by_its_trees(
    k: Seq<(HostCallView, ReplyView)>,
    config: StorageConfigView,
    owner: Seq<char>,
    name: Seq<char>,
    revision: Seq<char>,
    filter: Option<Seq<char>>,
    lines: Option<u32>,
)
    ensures
        diff::diff_commit(k, config, owner, name, revision, filter, lines) matches StepView::Done(
            result,
        ) ==> {
            let oid = revision_told(k, revision);
            let record = host::reply_to(k, HostCallView::Commit { oid: oid->0 })->0->Commit_0->Got_0;
            let after = root_told(k, revision);
            &&& oid is Some
            &&& after is Some
            &&& result.new_oid == after
            &&& record.parents.len() == 0 ==> result.old_oid is None && diff::diff_initial(
                k,
                after->0,
                filter,
                lines,
            ) == StepView::<diff::DiffResultView, GitErrorView>::Done(result)
            &&& record.parents.len() > 0 ==> {
                let before = tree_told(k, record.parents[0]);
                &&& before is Some
                &&& result.old_oid == before
                &&& diff::diff_trees(k, before->0, after->0, filter, lines) == StepView::<
                    diff::DiffResultView,
                    GitErrorView,
                >::Done(result)
            }
        },
{
}

/// Whether the machine has told of a file at a path, so many levels below a directory.
pub open spec fn stands_at(
    k: Seq<(HostCallView, ReplyView)>,
    items: Seq<OutcomeView<TreeItemView>>,
    base: Seq<char>,
    path: Seq<char>,
    file: TreeItemView,
    level: nat,
) -> bool
    decreases level,
{
    if level == 0 {
        is_file(file.mode) && path == base + file.name && items.contains(OutcomeView::Got(file))
    } else {
        exists|i: int|
            0 <= i < items.len() && (#[trigger] items[i]) is Got && is_directory(
                items[i]->Got_0.mode,
            ) && items_told(k, items[i]->Got_0.oid) is Some && stands_at(
                k,
                items_told(k, items[i]->Got_0.oid)->0,
                base + items[i]->Got_0.name + seq!['/'],
                path,
                file,
                (level - 1) as nat,
            )
    }
}

/// Whether a difference shows a file as added.
pub open spec fn shows_added(
    k: Seq<(HostCallView, ReplyView)>,
    file: FileDiffView,
    path: Seq<char>,
    item: TreeItemView,
    context: nat,
) -> bool {
    &&& file.path == path && file.old_path is None
    &&& file.old_oid is None && file.new_oid == Some(item.oid)
    &&& file.old_mode is None && file.new_mode == Some(item.mode as u32)
    &&& file.status == FileStatus::Added
    &&& sides_shown(k, file, context)
}

/// The beginning that the paths of what is in a directory have.
pub open spec fn beginning(base: Seq<char>) -> Seq<char> {
    if base.len() == 0 {
        base
    } else {
        base + seq!['/']
    }
}

/// A file that stands in a directory is among what is added.
proof fn lemma_all_added(
    k: Seq<(HostCallView, ReplyView)>,
    items: Seq<OutcomeView<TreeItemView>>,
    base: Seq<char>,
    context: nat,
    depth: nat,
    path: Seq<char>,
    file: TreeItemView,
    level: nat,
)
    requires
        all_values(diff::initial_items(k, items, base, None, context, depth)),
        stands_at(k, items, beginning(base), path, file, level),
        named(k, items, level),
    ensures
        exists|i: int|
            0 <= i < diff::initial_items(k, items, base, None, context, depth).len() && shows_added(
                k,
                (#[trigger] diff::initial_items(
                    k,
                    items,
                    base,
                    None,
                    context,
                    depth,
                )[i])->Value_0,
                path,
                file,
                context,
            ),
    decreases level, items.len(),
{
    reveal_strlit("/");
    assert("/"@ =~= seq!['/']);
    let all = diff::initial_items(k, items, base, None, context, depth);
    assert(items.len() > 0);
    let rest = items.drop_last();
    let last = items.last();
    let a = diff::initial_items(k, rest, base, None, context, depth);
    let b = diff::initial_item(k, last, base, None, context, depth);
    assert(all == a + b);
    lemma_parts_are_values(a, b);
    let at = if level == 0 {
        choose|i: int| 0 <= i < items.len() && #[trigger] items[i] == OutcomeView::Got(file)
    } else {
        choose|i: int|
            0 <= i < items.len() && (#[trigger] items[i]) is Got && is_directory(
                items[i]->Got_0.mode,
            ) && items_told(k, items[i]->Got_0.oid) is Some && stands_at(
                k,
                items_told(k, items[i]->Got_0.oid)->0,
                beginning(base) + items[i]->Got_0.name + seq!['/'],
                path,
                file,
                (level - 1) as nat,
            )
    };
    if at < rest.len() {
        assert(rest[at] == items[at]);
        assert(stands_at(k, rest, beginning(base), path, file, level));
        assert(named(k, rest, level)) by {
            assert forall|i: int| 0 <= i < rest.len() && (#[trigger] rest[i]) is Got implies {
                &&& rest[i]->Got_0.name.len() > 0
                &&& level > 0 && is_directory(rest[i]->Got_0.mode) && items_told(
                    k,
                    rest[i]->Got_0.oid,
                ) is Some ==> named(
                    k,
                    items_told(k, rest[i]->Got_0.oid)->0,
                    (level - 1) as nat,
                )
            } by {
                assert(rest[i] == items[i]);
            }
        }
        lemma_all_added(k, rest, base, context, depth, path, file, level);
        let i = choose|i: int|
            0 <= i < a.len() && shows_added(k, (#[trigger] a[i])->Value_0, path, file, context);
        assert(all[i] == a[i]);
    } else if level == 0 {
        assert(last == OutcomeView::Got(file));
        let full = diff::path_in(base, file.name);
        assert(full =~= path);
        assert(b == diff::compared(k, diff::added(full, file.mode, file.oid), context));
        lemma_compared(k, diff::added(full, file.mode, file.oid), context);
        assert(all[a.len() as int] == b[0]);
    } else {
        let dir = last->Got_0;
        assert(items[at] == last);
        let inner = items_told(k, dir.oid)->0;
        let full = diff::path_in(base, dir.name);
        assert(full.len() > 0);
        assert(beginning(full) =~= beginning(base) + dir.name + seq!['/']);
        if depth == 0 {
            assert(b[0] is Need);
        }
        assert(b == diff::initial_items(k, inner, full, None, context, (depth - 1) as nat));
        lemma_all_added(
            k,
            inner,
            full,
            context,
            (depth - 1) as nat,
            path,
            file,
            (level - 1) as nat,
        );
        let i = choose|i: int|
            0 <= i < b.len() && shows_added(k, (#[trigger] b[i])->Value_0, path, file, context);
        assert(all[a.len() + i] == b[i]);
    }
}

/// Whether every item has a name, so many levels below a directory too.
pub open spec fn named(
    k: Seq<(HostCallView, ReplyView)>,
    items: Seq<OutcomeView<TreeItemView>>,
    level: nat,
) -> bool
    decreases level,
{
    forall|i: int|
        0 <= i < items.len() && (#[trigger] items[i]) is Got ==> {
            &&& items[i]->Got_0.name.len() > 0
            &&& level > 0 && is_directory(items[i]->Got_0.mode) && items_told(
                k,
                items[i]->Got_0.oid,
            ) is Some ==> named(k, items_told(k, items[i]->Got_0.oid)->0, (level - 1) as nat)
        }
}

/// Against nothing every file is shown as added that the machine tells of, in whatever
/// directory it is, at its full path.
pub proof fn law_every_file_is_added(
    k: Seq<(HostCallView, ReplyView)>,
    tree: Seq<char>,
    lines: u32,
    path: Seq<char>,
    file: TreeItemView,
    level: nat,
)
    requires
        items_told(k, tree) is Some,
        named(k, items_told(k, tree)->0, level),
        stands_at(k, items_told(k, tree)->0, Seq::empty(), path, file, level),
    ensures
        diff::diff_initial(k, tree, None, Some(lines)) matches StepView::Done(result) ==> {
            &&& result.new_oid == Some(tree)
            &&& exists|i: int|
                0 <= i < result.files.len() && shows_added(
                    k,
                    #[trigger] result.files[i],
                    path,
                    file,
                    lines as nat,
                )
        },
{
    if let StepView::Done(result) = diff::diff_initial(k, tree, None, Some(lines)) {
        let items = items_told(k, tree)->0;
        let none: Seq<char> = Seq::empty();
        let all = diff::initial_items(k, items, none, None, lines as nat, k.len());
        lemma_done_items(all);
        law_gather_done(all);
        lemma_all_added(k, items, none, lines as nat, k.len(), path, file, level);
        let i = choose|i: int|
            0 <= i < all.len() && shows_added(
                k,
                (#[trigger] all[i])->Value_0,
                path,
                file,
                lines as nat,
            );
        assert(all[i] == ItemView::<FileDiffView, GitErrorView>::Value(result.files[i]));
        assert(shows_added(k, result.files[i], path, file, lines as nat));
    }
}

/// Whether a file that is shown as added stands somewhere.
pub open spec fn stands_somewhere(
    k: Seq<(HostCallView, ReplyView)>,
    items: Seq<OutcomeView<TreeItemView>>,
    base: Seq<char>,
    shown: FileDiffView,
    context: nat,
) -> bool {
    exists|file: TreeItemView, level: nat|
        #[trigger] stands_at(k, items, base, shown.path, file, level) && shows_added(
            k,
            shown,
            shown.path,
            file,
            context,
        )
}

/// What is added stands in the directory.
proof fn lemma_added_stands(
    k: Seq<(HostCallView, ReplyView)>,
    items: Seq<OutcomeView<TreeItemView>>,
    base: Seq<char>,
    filter: Option<Seq<char>>,
    context: nat,
    depth: nat,
    n: int,
)
    requires
        all_values(diff::initial_items(k, items, base, filter, context, depth)),
        0 <= n < diff::initial_items(k, items, base, filter, context, depth).len(),
        named(k, items, depth),
    ensures
        stands_somewhere(
            k,
            items,
            beginning(base),
            diff::initial_items(k, items, base, filter, context, depth)[n]->Value_0,
            context,
        ),
    decreases depth, items.len(),
{
    reveal_strlit("/");
    assert("/"@ =~= seq!['/']);
    let all = diff::initial_items(k, items, base, filter, context, depth);
    assert(items.len() > 0);
    let rest = items.drop_last();
    let last = items.last();
    let a = diff::initial_items(k, rest, base, filter, context, depth);
    let b = diff::initial_item(k, last, base, filter, context, depth);
    assert(all == a + b);
    lemma_parts_are_values(a, b);
    let shown = all[n]->Value_0;
    let at = items.len() - 1;
    assert(items[at] == last);
    if n < a.len() {
        assert(a[n] == all[n]);
        assert(named(k, rest, depth)) by {
            assert forall|i: int| 0 <= i < rest.len() && (#[trigger] rest[i]) is Got implies {
                &&& rest[i]->Got_0.name.len() > 0
                &&& depth > 0 && is_directory(rest[i]->Got_0.mode) && items_told(
                    k,
                    rest[i]->Got_0.oid,
                ) is Some ==> named(
                    k,
                    items_told(k, rest[i]->Got_0.oid)->0,
                    (depth - 1) as nat,
                )
            } by {
                assert(rest[i] == items[i]);
            }
        }
        lemma_added_stands(k, rest, base, filter, context, depth, n);
        let (file, level) = choose|file: TreeItemView, level: nat|
            #[trigger] stands_at(k, rest, beginning(base), shown.path, file, level) && shows_added(
                k,
                shown,
                shown.path,
                file,
                context,
            );
        lemma_stands_longer(k, rest, items, beginning(base), shown.path, file, level);
    } else {
        assert(b[n - a.len()] == all[n]);
        assert(b[n - a.len()] is Value);
        assert(last is Got);
        let item = last->Got_0;
        let path = diff::path_in(base, item.name);
        assert(path =~= beginning(base) + item.name);
        if is_directory(item.mode) {
            let inner = items_told(k, item.oid)->0;
            assert(b == diff::initial_items(k, inner, path, filter, context, (depth - 1) as nat));
            assert(path.len() > 0);
            assert(beginning(path) =~= beginning(base) + item.name + seq!['/']);
            lemma_added_stands(k, inner, path, filter, context, (depth - 1) as nat, n - a.len());
            let (file, level) = choose|file: TreeItemView, level: nat|
                #[trigger] stands_at(k, inner, beginning(path), shown.path, file, level)
                    && shows_added(k, shown, shown.path, file, context);
            assert(stands_at(
                k,
                items_told(k, items[at]->Got_0.oid)->0,
                beginning(base) + items[at]->Got_0.name + seq!['/'],
                shown.path,
                file,
                level,
            ));
            assert(stands_at(k, items, beginning(base), shown.path, file, level + 1));
        } else {
            assert(is_file(item.mode));
            assert(b == diff::compared(k, diff::added(path, item.mode, item.oid), context));
            lemma_compared(k, diff::added(path, item.mode, item.oid), context);
            assert(items.contains(OutcomeView::Got(item)));
            assert(stands_at(k, items, beginning(base), shown.path, item, 0));
        }
    }
}

/// What stands in a directory still does with more in it.
proof fn lemma_stands_longer(
    k: Seq<(HostCallView, ReplyView)>,
    rest: Seq<OutcomeView<TreeItemView>>,
    items: Seq<OutcomeView<TreeItemView>>,
    base: Seq<char>,
    path: Seq<char>,
    file: TreeItemView,
    level: nat,
)
    requires
        items.len() > 0,
        rest == items.drop_last(),
        stands_at(k, rest, base, path, file, level),
    ensures
        stands_at(k, items, base, path, file, level),
{
    if level == 0 {
        let i = choose|i: int| 0 <= i < rest.len() && #[trigger] rest[i] == OutcomeView::Got(file);
        assert(items[i] == rest[i]);
    } else {
        let i = choose|i: int|
            0 <= i < rest.len() && (#[trigger] rest[i]) is Got && is_directory(rest[i]->Got_0.mode)
                && items_told(k, rest[i]->Got_0.oid) is Some && stands_at(
                k,
                items_told(k, rest[i]->Got_0.oid)->0,
                base + rest[i]->Got_0.name + seq!['/'],
                path,
                file,
                (level - 1) as nat,
            );
        assert(items[i] == rest[i]);
    }
}

/// Against nothing only files are shown that the machine tells of, at their full paths
/// and as it tells, whatever the filter.
pub proof fn law_only_files_are_added(
    k: Seq<(HostCallView, ReplyView)>,
    tree: Seq<char>,
    filter: Option<Seq<char>>,
    lines: u32,
)
    requires
        items_told(k, tree) is Some,
        named(k, items_told(k, tree)->0, k.len()),
    ensures
        diff::diff_initial(k, tree, filter, Some(lines)) matches StepView::Done(result)
            ==> forall|n: int|
            0 <= n < result.files.len() ==> stands_somewhere(
                k,
                items_told(k, tree)->0,
                Seq::empty(),
                #[trigger] result.files[n],
                lines as nat,
            ),
{
    if let StepView::Done(result) = diff::diff_initial(k, tree, filter, Some(lines)) {
        let items = items_told(k, tree)->0;
        let none: Seq<char> = Seq::empty();
        let all = diff::initial_items(k, items, none, filter, lines as nat, k.len());
        lemma_done_items(all);
        law_gather_done(all);
        assert forall|n: int| 0 <= n < result.files.len() implies stands_somewhere(
            k,
            items,
            none,
            #[trigger] result.files[n],
            lines as nat,
        ) by {
            lemma_added_stands(k, items, none, filter, lines as nat, k.len(), n);
            assert(all[n] == ItemView::<FileDiffView, GitErrorView>::Value(result.files[n]));
        }
    }
}

/// How many lines of a kind a hunk has.
pub open spec fn of_kind(lines: Seq<DiffLineView>, t: LineType) -> nat {
    lines.filter(|line: DiffLineView| line.line_type == t).len()
}

/// How many lines of a kind are counted.
proof fn lemma_count(lines: Seq<DiffLineView>, t: LineType)
    ensures
        hunks::count_type(lines, t) == of_kind(lines, t),
    decreases lines.len(),
{
    reveal(Seq::filter);
    if lines.len() > 0 {
        lemma_count(lines.drop_last(), t);
    }
}

/// The lines of a kind are counted in every hunk of every file: those of two lists add
/// up, and one hunk has as many as are of that kind.
pub proof fn law_lines_add_up(
    a: Seq<FileDiffView>,
    b: Seq<FileDiffView>,
    c: Seq<DiffHunkView>,
    d: Seq<DiffHunkView>,
    hunk: DiffHunkView,
    file: FileDiffView,
    t: LineType,
)
    ensures
        diff::total_lines(Seq::empty(), t) == 0,
        diff::total_lines(seq![file], t) == hunks::total_type(file.hunks, t),
        diff::total_lines(a + b, t) == diff::total_lines(a, t) + diff::total_lines(b, t),
        hunks::total_type(Seq::empty(), t) == 0,
        hunks::total_type(seq![hunk], t) == of_kind(hunk.lines, t),
        hunks::total_type(c + d, t) == hunks::total_type(c, t) + hunks::total_type(d, t),
    decreases b.len() + c.len(),
{
    lemma_count(hunk.lines, t);
    assert(seq![file].drop_last().len() == 0);
    assert(diff::total_lines(seq![file].drop_last(), t) == 0);
    assert(seq![hunk].skip(1).len() == 0);
    assert(hunks::total_type(seq![hunk].skip(1), t) == 0);
    if b.len() > 0 {
        law_lines_add_up(a, b.drop_last(), c, d, hunk, file, t);
        assert((a + b).drop_last() == a + b.drop_last());
        assert((a + b).last() == b.last());
    } else {
        assert(a + b == a);
    }
    if c.len() > 0 {
        law_lines_add_up(a, b, c.skip(1), d, hunk, file, t);
        assert((c + d).skip(1) == c.skip(1) + d);
        assert((c + d)[0] == c[0]);
    } else {
        assert(c + d == d);
    }
}

/// The counts of a difference are those of its files and of the lines added and deleted
/// in them.
pub proof fn law_counts_tell_what_is_shown(
    k: Seq<(HostCallView, ReplyView)>,
    one: Seq<char>,
    two: Seq<char>,
    filter: Option<Seq<char>>,
    lines: Option<u32>,
)
    ensures
        diff::diff_trees(k, one, two, filter, lines) matches StepView::Done(result) ==> counted(
            result,
        ),
        diff::diff_initial(k, two, filter, lines) matches StepView::Done(result) ==> counted(
            result,
        ),
{
}

/// Whether the counts of a difference fit it.
pub open spec fn counted(result: diff::DiffResultView) -> bool {
    let added = diff::total_lines(result.files, LineType::Addition);
    let deleted = diff::total_lines(result.files, LineType::Deletion);
    &&& result.files.len() < 0x1_0000_0000 ==> result.stats.files_changed == result.files.len()
    &&& added < 0x1_0000_0000 ==> result.stats.insertions == added
    &&& deleted < 0x1_0000_0000 ==> result.stats.deletions == deleted
}

/// A mode tells what stands there by its highest four bits, and of a file its owner's bit
/// tells whether it can be executed.
pub proof fn law_modes_tell_kinds(mode: u16)
    ensures
        objects::kind_of(mode) == EntryKind::Tree <==> is_directory(mode),
        objects::kind_of(mode) == EntryKind::Link <==> is_link(mode),
        objects::kind_of(mode) == EntryKind::BlobExecutable <==> is_file(mode) && mode & 0o100
            != 0,
        objects::kind_of(mode) == EntryKind::Blob <==> is_file(mode) && mode & 0o100 == 0,
        objects::kind_of(mode) == EntryKind::Commit <==> !is_file(mode) && !is_directory(mode)
            && !is_link(mode),
{
    assert(mode & 0o100 == 0 || mode & 0o100 == 0o100) by (bit_vector);
}

} // verus!
