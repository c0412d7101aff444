//! Trees and the files in them.

use vstd::prelude::*;

use super::objects::{self, CommitRecordView, EntryKind, TreeItem, TreeItemView};
use super::{lookup, open_repo_by_name};
use super::{GitError, GitErrorView, StorageConfig, StorageConfigView};
use crate::host::{
    self, Gathering, HostCall, HostCallView, ItemView, Outcome, OutcomeView, Replies, ReplyView,
    Step, StepView,
};
use crate::text;

verus! {

/// Lists trees and reads files.
pub struct TreeService {
    config: StorageConfig,
}

/// An entry of a tree, with its path from the root.
#[derive(Debug, Clone)]
pub struct TreeEntry {
    pub name: String,
    pub path: String,
    pub oid: String,
    pub mode: u32,
    pub entry_type: EntryType,
    pub size: Option<u64>,
}

/// What an entry is; a commit is a submodule.
#[derive(Debug, Clone, Copy, PartialEq, Eq, Structural)]
pub enum EntryType {
    Blob,
    Tree,
    Commit,
    Link,
}

/// What there is to say of a file without its contents.
#[derive(Debug, Clone)]
pub struct BlobInfo {
    pub oid: String,
    pub size: u64,
    pub is_binary: bool,
}

/// The value of a [`TreeEntry`].
pub struct TreeEntryView {
    pub name: Seq<char>,
    pub path: Seq<char>,
    pub oid: Seq<char>,
    pub mode: u32,
    pub entry_type: EntryType,
    pub size: Option<u64>,
}

/// The value of a [`BlobInfo`].
pub struct BlobInfoView {
    pub oid: Seq<char>,
    pub size: u64,
    pub is_binary: bool,
}

impl DeepView for TreeEntry {
    type V = TreeEntryView;

    open spec fn deep_view(&self) -> TreeEntryView {
        TreeEntryView {
            name: self.name@,
            path: self.path@,
            oid: self.oid@,
            mode: self.mode,
            entry_type: self.entry_type,
            size: self.size,
        }
    }
}

impl DeepView for BlobInfo {
    type V = BlobInfoView;

    open spec fn deep_view(&self) -> BlobInfoView {
        BlobInfoView { oid: self.oid@, size: self.size, is_binary: self.is_binary }
    }
}

/// What an entry of a kind is.
pub open spec fn type_of(kind: EntryKind) -> EntryType {
    match kind {
        EntryKind::Blob | EntryKind::BlobExecutable => EntryType::Blob,
        EntryKind::Tree => EntryType::Tree,
        EntryKind::Commit => EntryType::Commit,
        EntryKind::Link => EntryType::Link,
    }
}

impl From<EntryKind> for EntryType {
    fn from(kind: EntryKind) -> (r: Self) {
        match kind {
            EntryKind::Blob | EntryKind::BlobExecutable => EntryType::Blob,
            EntryKind::Tree => EntryType::Tree,
            EntryKind::Commit => EntryType::Commit,
            EntryKind::Link => EntryType::Link,
        }
    }
}

impl vstd::std_specs::convert::FromSpecImpl<EntryKind> for EntryType {
    open spec fn obeys_from_spec() -> bool {
        true
    }

    open spec fn from_spec(kind: EntryKind) -> EntryType {
        type_of(kind)
    }
}

/// The tree that a revision stands for, by its id and its entries.
pub open spec fn tree_of(
    k: Seq<(HostCallView, ReplyView)>,
    config: StorageConfigView,
    owner: Seq<char>,
    name: Seq<char>,
    tree_ish: Seq<char>,
) -> StepView<(Seq<char>, Seq<OutcomeView<TreeItemView>>), GitErrorView> {
    host::chain(
        super::opened(k, config, owner, name),
        |open: ()|
            host::chain(
                lookup::resolved(k, tree_ish),
                |commit_id: Seq<char>|
                    host::chain(
                        lookup::commit_at(k, commit_id),
                        |commit: CommitRecordView|
                            host::chain(
                                lookup::got_or_gix(commit.tree),
                                |tree: Seq<char>|
                                    host::chain(
                                        lookup::tree_at(k, tree),
                                        |items: Seq<OutcomeView<TreeItemView>>|
                                            StepView::Done((tree, items)),
                                    ),
                            ),
                    ),
            ),
    )
}

/// The entry at a path below a tree.
pub open spec fn entry_at(
    k: Seq<(HostCallView, ReplyView)>,
    tree: Seq<char>,
    path: Seq<char>,
) -> StepView<TreeItemView, GitErrorView> {
    let call = HostCallView::EntryAt { tree, path };
    match host::entry(k, call) {
        None => StepView::Ask(seq![call]),
        Some(OutcomeView::Error(error)) => StepView::Failed(GitErrorView::Gix(error)),
        Some(OutcomeView::Got(None)) => StepView::Failed(GitErrorView::ObjectNotFound { oid: path }),
        Some(OutcomeView::Got(Some(item))) => StepView::Done(item),
    }
}

/// Whether a path leads nowhere but to the root.
pub open spec fn is_root(path: Option<Seq<char>>) -> bool {
    match path {
        None => true,
        Some(p) => p.len() == 0 || p == "/"@,
    }
}

/// The directory at a path, with what leads the paths of its entries.
pub open spec fn directory_at(
    k: Seq<(HostCallView, ReplyView)>,
    config: StorageConfigView,
    owner: Seq<char>,
    name: Seq<char>,
    tree_ish: Seq<char>,
    path: Option<Seq<char>>,
) -> StepView<(Seq<OutcomeView<TreeItemView>>, Seq<char>), GitErrorView> {
    host::chain(
        tree_of(k, config, owner, name, tree_ish),
        |root: (Seq<char>, Seq<OutcomeView<TreeItemView>>)|
            if is_root(path) {
                StepView::Done((root.1, Seq::empty()))
            } else {
                let p = path->0;
                host::chain(
                    entry_at(k, root.0, p),
                    |item: TreeItemView|
                        if objects::kind_of(item.mode) == EntryKind::Tree {
                            host::chain(
                                lookup::tree_at(k, item.oid),
                                |items: Seq<OutcomeView<TreeItemView>>|
                                    StepView::Done((items, text::trim_end_of(p, '/') + "/"@)),
                            )
                        } else {
                            StepView::Failed(
                                GitErrorView::InvalidRef { reference: p + " is not a directory"@ },
                            )
                        },
                )
            },
    )
}

/// The entry that an item of a tree makes.
pub open spec fn entry_of(base: Seq<char>, item: TreeItemView, size: Option<u64>) -> TreeEntryView {
    TreeEntryView {
        name: item.name,
        path: base + item.name,
        oid: item.oid,
        mode: item.mode as u32,
        entry_type: type_of(objects::kind_of(item.mode)),
        size,
    }
}

/// An item of a tree as an entry; a file's size is looked up.
pub open spec fn listed(
    k: Seq<(HostCallView, ReplyView)>,
    base: Seq<char>,
    item: OutcomeView<TreeItemView>,
) -> ItemView<TreeEntryView, GitErrorView> {
    match item {
        OutcomeView::Error(error) => ItemView::Fail(GitErrorView::Gix(error)),
        OutcomeView::Got(item) => if type_of(objects::kind_of(item.mode)) == EntryType::Blob {
            let call = HostCallView::BlobSize { oid: item.oid };
            match host::count(k, call) {
                None => ItemView::Need(call),
                Some(size) => ItemView::Value(entry_of(base, item, size)),
            }
        } else {
            ItemView::Value(entry_of(base, item, None))
        },
    }
}

/// Whether an entry is listed before another: directories first, then by name.
pub open spec fn precedes(a: TreeEntryView, b: TreeEntryView) -> bool {
    if (a.entry_type == EntryType::Tree) == (b.entry_type == EntryType::Tree) {
        text::before(a.name, b.name)
    } else {
        a.entry_type == EntryType::Tree
    }
}

/// A list with an entry put before the first one that it precedes.
pub open spec fn place(list: Seq<TreeEntryView>, entry: TreeEntryView) -> Seq<TreeEntryView>
    decreases list.len(),
{
    if list.len() == 0 {
        seq![entry]
    } else if precedes(entry, list[0]) {
        seq![entry] + list
    } else {
        seq![list[0]] + place(list.skip(1), entry)
    }
}

/// Entries in order, those of equal rank as they came.
pub open spec fn in_order(entries: Seq<TreeEntryView>) -> Seq<TreeEntryView>
    decreases entries.len(),
{
    if entries.len() == 0 {
        Seq::empty()
    } else {
        place(in_order(entries.drop_last()), entries.last())
    }
}

/// Whether no entry of a list precedes an earlier one.
pub open spec fn ordered(list: Seq<TreeEntryView>) -> bool {
    forall|i: int, j: int|
        0 <= i < j < list.len() ==> !precedes(#[trigger] list[j], #[trigger] list[i])
}

/// The entries of the directory at a path, directories first, then by name.
pub open spec fn get_tree(
    k: Seq<(HostCallView, ReplyView)>,
    config: StorageConfigView,
    owner: Seq<char>,
    name: Seq<char>,
    tree_ish: Seq<char>,
    path: Option<Seq<char>>,
) -> StepView<Seq<TreeEntryView>, GitErrorView> {
    host::chain(
        directory_at(k, config, owner, name, tree_ish, path),
        |dir: (Seq<OutcomeView<TreeItemView>>, Seq<char>)|
            host::chain(
                host::gather(
                    dir.0.map_values(|item: OutcomeView<TreeItemView>| listed(k, dir.1, item)),
                ),
                |entries: Seq<TreeEntryView>| StepView::Done(in_order(entries)),
            ),
    )
}

/// The entries of a tree in its own order, each directory followed by what it
/// holds, down to `depth` levels below; a directory that cannot be read holds
/// nothing.
pub open spec fn collected(
    k: Seq<(HostCallView, ReplyView)>,
    items: Seq<OutcomeView<TreeItemView>>,
    base: Seq<char>,
    depth: nat,
) -> Seq<ItemView<TreeEntryView, GitErrorView>>
    decreases depth, items.len(), 1nat,
{
    if items.len() == 0 {
        Seq::empty()
    } else {
        collected(k, items.drop_last(), base, depth) + seq![listed(k, base, items.last())] + below(
            k,
            items.last(),
            base,
            depth,
        )
    }
}

/// What an entry of a tree holds, down to `depth` levels.
pub open spec fn below(
    k: Seq<(HostCallView, ReplyView)>,
    item: OutcomeView<TreeItemView>,
    base: Seq<char>,
    depth: nat,
) -> Seq<ItemView<TreeEntryView, GitErrorView>>
    decreases depth, 0nat, 0nat,
{
    match item {
        OutcomeView::Error(error) => Seq::empty(),
        OutcomeView::Got(item) => if depth > 0 && objects::kind_of(item.mode) == EntryKind::Tree {
            let call = HostCallView::Tree { oid: item.oid };
            match host::tree(k, call) {
                None => seq![ItemView::Need(call)],
                Some(OutcomeView::Error(error)) => Seq::empty(),
                Some(OutcomeView::Got(items)) => collected(
                    k,
                    items,
                    base + item.name + "/"@,
                    (depth - 1) as nat,
                ),
            }
        } else {
            Seq::empty()
        },
    }
}

/// The number of levels that are listed unless another is given.
pub const DEFAULT_DEPTH: u32 = 10;

/// The entries of the directory at a path and of those below it.
pub open spec fn get_tree_recursive(
    k: Seq<(HostCallView, ReplyView)>,
    config: StorageConfigView,
    owner: Seq<char>,
    name: Seq<char>,
    tree_ish: Seq<char>,
    path: Option<Seq<char>>,
    max_depth: Option<u32>,
) -> StepView<Seq<TreeEntryView>, GitErrorView> {
    let depth = match max_depth {
        Some(depth) => depth,
        None => DEFAULT_DEPTH,
    };
    host::chain(
        directory_at(k, config, owner, name, tree_ish, path),
        |dir: (Seq<OutcomeView<TreeItemView>>, Seq<char>)|
            host::gather(collected(k, dir.0, dir.1, depth as nat)),
    )
}

/// The contents of the file that an id names; what is no id, or cannot be read,
/// is not found.
pub open spec fn get_blob(
    k: Seq<(HostCallView, ReplyView)>,
    config: StorageConfigView,
    owner: Seq<char>,
    name: Seq<char>,
    oid: Seq<char>,
) -> StepView<Seq<u8>, GitErrorView> {
    host::chain(
        super::opened(k, config, owner, name),
        |open: ()|
            match objects::object_id(oid) {
                None => StepView::Failed(GitErrorView::ObjectNotFound { oid }),
                Some(id) => {
                    let call = HostCallView::Blob { oid: id };
                    match host::blob(k, call) {
                        None => StepView::Ask(seq![call]),
                        Some(OutcomeView::Error(error)) => StepView::Failed(
                            GitErrorView::ObjectNotFound { oid },
                        ),
                        Some(OutcomeView::Got(data)) => StepView::Done(data),
                    }
                },
            },
    )
}

/// What there is to say of the file that an id names.
pub open spec fn get_blob_info(
    k: Seq<(HostCallView, ReplyView)>,
    config: StorageConfigView,
    owner: Seq<char>,
    name: Seq<char>,
    oid: Seq<char>,
) -> StepView<BlobInfoView, GitErrorView> {
    host::chain(
        get_blob(k, config, owner, name, oid),
        |data: Seq<u8>|
            StepView::Done(
                BlobInfoView {
                    oid,
                    size: data.len() as u64,
                    is_binary: objects::looks_binary(data),
                },
            ),
    )
}

/// The contents of the file at a path.
pub open spec fn get_blob_by_path(
    k: Seq<(HostCallView, ReplyView)>,
    config: StorageConfigView,
    owner: Seq<char>,
    name: Seq<char>,
    tree_ish: Seq<char>,
    path: Seq<char>,
) -> StepView<Seq<u8>, GitErrorView> {
    host::chain(
        tree_of(k, config, owner, name, tree_ish),
        |root: (Seq<char>, Seq<OutcomeView<TreeItemView>>)|
            host::chain(
                entry_at(k, root.0, path),
                |item: TreeItemView|
                    if type_of(objects::kind_of(item.mode)) == EntryType::Blob {
                        let call = HostCallView::Blob { oid: item.oid };
                        host::await_reply(
                            host::blob(k, call),
                            call,
                            |outcome: OutcomeView<Seq<u8>>| lookup::got_or_gix(outcome),
                        )
                    } else {
                        StepView::Failed(
                            GitErrorView::InvalidRef { reference: path + " is not a file"@ },
                        )
                    },
            ),
    )
}

/// An entry that precedes another precedes all that do not precede that one.
proof fn lemma_precedes(a: TreeEntryView, b: TreeEntryView, c: TreeEntryView)
    ensures
        precedes(a, b) && !precedes(c, b) ==> precedes(a, c),
        precedes(a, b) ==> !precedes(b, a),
        !precedes(a, a),
{
    text::lemma_before_total(a.name, b.name);
    text::lemma_before_total(b.name, c.name);
    text::lemma_before_total(a.name, a.name);
    if text::before(a.name, b.name) && text::before(b.name, c.name) {
        text::lemma_before_transitive(a.name, b.name, c.name);
    }
}

/// Where [`place`] puts an entry in an ordered list: it precedes all that stand
/// from `n` on, and none before.
proof fn lemma_place_at(list: Seq<TreeEntryView>, entry: TreeEntryView, n: int)
    requires
        0 <= n <= list.len(),
        forall|i: int| 0 <= i < n ==> !precedes(entry, #[trigger] list[i]),
        n < list.len() ==> precedes(entry, list[n]),
    ensures
        place(list, entry) == list.insert(n, entry),
    decreases n,
{
    if n == 0 {
        assert(list.insert(0, entry) == seq![entry] + list);
    } else {
        let rest = list.skip(1);
        assert forall|i: int| 0 <= i < n - 1 implies !precedes(entry, #[trigger] rest[i]) by {
            assert(!precedes(entry, list[i + 1]));
        }
        lemma_place_at(rest, entry, n - 1);
        assert(seq![list[0]] + rest.insert(n - 1, entry) == list.insert(n, entry));
    }
}

/// Placing an entry keeps a list ordered.
proof fn lemma_insert_ordered(list: Seq<TreeEntryView>, entry: TreeEntryView, n: int)
    requires
        ordered(list),
        0 <= n <= list.len(),
        forall|i: int| 0 <= i < n ==> !precedes(entry, #[trigger] list[i]),
        forall|i: int| n <= i < list.len() ==> precedes(entry, #[trigger] list[i]),
    ensures
        ordered(list.insert(n, entry)),
{
    let longer = list.insert(n, entry);
    assert forall|i: int, j: int| 0 <= i < j < longer.len() implies !precedes(
        #[trigger] longer[j],
        #[trigger] longer[i],
    ) by {
        if i < n {
            assert(longer[i] == list[i]);
        } else if i > n {
            assert(longer[i] == list[i - 1]);
        }
        if j < n {
            assert(longer[j] == list[j]);
        } else if j > n {
            assert(longer[j] == list[j - 1]);
        }
        if i == n {
            lemma_precedes(entry, list[j - 1], entry);
        }
    }
}

/// [`in_order`] is ordered and holds the same entries as often.
pub proof fn law_in_order(entries: Seq<TreeEntryView>)
    ensures
        ordered(in_order(entries)),
        in_order(entries).to_multiset() == entries.to_multiset(),
    decreases entries.len(),
{
    broadcast use vstd::seq_lib::group_to_multiset_ensures;

    if entries.len() > 0 {
        let rest = entries.drop_last();
        law_in_order(rest);
        let n = lemma_place_somewhere(in_order(rest), entries.last());
        lemma_place_at(in_order(rest), entries.last(), n);
        lemma_insert_ordered(in_order(rest), entries.last(), n);
        assert(entries == rest.push(entries.last()));
        assert(in_order(entries).to_multiset() == entries.to_multiset());
    } else {
        assert(in_order(entries) == entries);
    }
}

/// There is a place for every entry in an ordered list.
proof fn lemma_place_somewhere(list: Seq<TreeEntryView>, entry: TreeEntryView) -> (n: int)
    requires
        ordered(list),
    ensures
        0 <= n <= list.len(),
        forall|i: int| 0 <= i < n ==> !precedes(entry, #[trigger] list[i]),
        forall|i: int| n <= i < list.len() ==> precedes(entry, #[trigger] list[i]),
    decreases list.len(),
{
    if list.len() == 0 {
        0
    } else if precedes(entry, list[0]) {
        assert forall|i: int| 0 <= i < list.len() implies precedes(entry, #[trigger] list[i]) by {
            if i > 0 {
                lemma_precedes(entry, list[0], list[i]);
            }
        }
        0
    } else {
        let rest = list.skip(1);
        assert forall|i: int, j: int| 0 <= i < j < rest.len() implies !precedes(
            #[trigger] rest[j],
            #[trigger] rest[i],
        ) by {
            assert(!precedes(list[j + 1], list[i + 1]));
        }
        let n = lemma_place_somewhere(rest, entry);
        assert forall|i: int| 0 <= i < n + 1 implies !precedes(entry, #[trigger] list[i]) by {
            if i > 0 {
                assert(list[i] == rest[i - 1]);
            }
        }
        assert forall|i: int| n + 1 <= i < list.len() implies precedes(entry, #[trigger] list[i]) by {
            assert(list[i] == rest[i - 1]);
        }
        n + 1
    }
}

/// Whether an entry is listed before another, [`precedes`].
fn entry_precedes(a: &TreeEntry, b: &TreeEntry) -> (r: bool)
    ensures
        r == precedes(a.deep_view(), b.deep_view()),
{
    let a_tree = a.entry_type == EntryType::Tree;
    let b_tree = b.entry_type == EntryType::Tree;
    if a_tree == b_tree {
        text::comes_before(&a.name, &b.name)
    } else {
        a_tree
    }
}

/// Puts an entry into an ordered list, [`place`].
fn place_entry(list: &mut Vec<TreeEntry>, entry: TreeEntry)
    requires
        ordered(old(list).deep_view()),
    ensures
        final(list).deep_view() == place(old(list).deep_view(), entry.deep_view()),
        ordered(final(list).deep_view()),
{
    let ghost all = list.deep_view();
    let ghost e = entry.deep_view();
    let mut low: usize = 0;
    let mut high: usize = list.len();
    while low < high
        invariant
            low <= high <= list@.len(),
            all == list.deep_view(),
            all.len() == list@.len(),
            e == entry.deep_view(),
            ordered(all),
            forall|i: int| 0 <= i < low ==> !precedes(e, #[trigger] all[i]),
            forall|i: int| high <= i < all.len() ==> precedes(e, #[trigger] all[i]),
        decreases high - low,
    {
        let middle: usize = low + (high - low) / 2;
        assert(all[middle as int] == list@[middle as int].deep_view());
        if entry_precedes(&entry, &list[middle]) {
            proof {
                assert forall|i: int| middle <= i < all.len() implies precedes(
                    e,
                    #[trigger] all[i],
                ) by {
                    if i > middle {
                        lemma_precedes(e, all[middle as int], all[i]);
                    }
                }
            }
            high = middle;
        } else {
            proof {
                assert forall|i: int| 0 <= i < middle + 1 implies !precedes(
                    e,
                    #[trigger] all[i],
                ) by {
                    if i < middle && precedes(e, all[i]) {
                        lemma_precedes(e, all[i], all[middle as int]);
                    }
                }
            }
            low = middle + 1;
        }
    }
    proof {
        lemma_place_at(all, e, low as int);
        lemma_insert_ordered(all, e, low as int);
    }
    list.insert(low, entry);
    assert(list.deep_view() =~= all.insert(low as int, e));
}

/// Puts entries in order, [`in_order`].
fn sort_entries(entries: Vec<TreeEntry>) -> (r: Vec<TreeEntry>)
    ensures
        r.deep_view() == in_order(entries.deep_view()),
{
    let ghost all = entries.deep_view();
    let mut sorted: Vec<TreeEntry> = Vec::new();
    assert(sorted.deep_view() =~= in_order(all.take(0)));
    for entry in it: entries
        invariant
            it.seq() == entries@,
            all == entries.deep_view(),
            sorted.deep_view() == in_order(all.take(it.index() as int)),
            ordered(sorted.deep_view()),
    {
        proof {
            let i = it.index() as int;
            assert(all.take(i + 1).drop_last() == all.take(i));
            assert(all[i] == entry.deep_view());
        }
        place_entry(&mut sorted, entry);
    }
    assert(all.take(all.len() as int) == all);
    sorted
}

/// The tree that a revision stands for, [`tree_of`].
fn find_root<'a>(
    config: &StorageConfig,
    owner: &str,
    name: &str,
    tree_ish: &str,
    replies: &'a Replies,
) -> (r: Step<(String, &'a Vec<Outcome<TreeItem>>), GitError>)
    ensures
        r.deep_view() == tree_of(
            replies.deep_view(),
            config.deep_view(),
            owner@,
            name@,
            tree_ish@,
        ),
{
    match open_repo_by_name(config, owner, name, replies) {
        Step::Ask(calls) => return Step::Ask(calls),
        Step::Failed(error) => return Step::Failed(error),
        Step::Done(_) => {},
    }
    let commit_id = match lookup::resolve(replies, tree_ish) {
        Step::Ask(calls) => return Step::Ask(calls),
        Step::Failed(error) => return Step::Failed(error),
        Step::Done(id) => id,
    };
    let commit = match lookup::find_commit(replies, &commit_id) {
        Step::Ask(calls) => return Step::Ask(calls),
        Step::Failed(error) => return Step::Failed(error),
        Step::Done(commit) => commit,
    };
    match &commit.tree {
        Outcome::Error(error) => Step::Failed(GitError::Gix(error.clone())),
        Outcome::Got(tree) => match lookup::find_tree(replies, tree) {
            Step::Ask(calls) => Step::Ask(calls),
            Step::Failed(error) => Step::Failed(error),
            Step::Done(items) => Step::Done((tree.clone(), items)),
        },
    }
}

/// The entry at a path below a tree, [`entry_at`].
fn find_entry<'a>(replies: &'a Replies, tree: &str, path: &str) -> (r: Step<&'a TreeItem, GitError>)
    ensures
        r.deep_view() == entry_at(replies.deep_view(), tree@, path@),
{
    let call = HostCall::EntryAt { tree: tree.to_owned(), path: path.to_owned() };
    match replies.entry(&call) {
        None => host::ask(call),
        Some(Outcome::Error(error)) => Step::Failed(GitError::Gix(error.clone())),
        Some(Outcome::Got(None)) => Step::Failed(GitError::ObjectNotFound { oid: path.to_owned() }),
        Some(Outcome::Got(Some(item))) => Step::Done(item),
    }
}

/// The directory at a path, [`directory_at`].
fn find_directory<'a>(
    config: &StorageConfig,
    owner: &str,
    name: &str,
    tree_ish: &str,
    path: Option<&str>,
    replies: &'a Replies,
) -> (r: Step<(&'a Vec<Outcome<TreeItem>>, String), GitError>)
    ensures
        r.deep_view() == directory_at(
            replies.deep_view(),
            config.deep_view(),
            owner@,
            name@,
            tree_ish@,
            path.deep_view(),
        ),
{
    let (root, items) = match find_root(config, owner, name, tree_ish, replies) {
        Step::Ask(calls) => return Step::Ask(calls),
        Step::Failed(error) => return Step::Failed(error),
        Step::Done(found) => found,
    };
    let p = match path {
        None => return Step::Done((items, String::new())),
        Some(p) => p,
    };
    if p.is_empty() || text::same(p, "/") {
        return Step::Done((items, String::new()));
    }
    let item = match find_entry(replies, &root, p) {
        Step::Ask(calls) => return Step::Ask(calls),
        Step::Failed(error) => return Step::Failed(error),
        Step::Done(item) => item,
    };
    if objects::entry_kind(item.mode) != EntryKind::Tree {
        return Step::Failed(
            GitError::InvalidRef { reference: text::concat(p, " is not a directory") },
        );
    }
    match lookup::find_tree(replies, &item.oid) {
        Step::Ask(calls) => Step::Ask(calls),
        Step::Failed(error) => Step::Failed(error),
        Step::Done(items) => {
            let trimmed = text::trimmed_end_of(p, '/');
            Step::Done((items, text::concat(&trimmed, "/")))
        },
    }
}

/// An item of a tree as an entry, [`entry_of`].
fn make_entry(base: &str, item: &TreeItem, size: Option<u64>) -> (r: TreeEntry)
    ensures
        r.deep_view() == entry_of(base@, item.deep_view(), size),
{
    TreeEntry {
        name: item.name.clone(),
        path: text::concat(base, &item.name),
        oid: item.oid.clone(),
        mode: item.mode as u32,
        entry_type: EntryType::from(objects::entry_kind(item.mode)),
        size,
    }
}

/// An item of a tree comes up as an entry, [`listed`].
fn list_item(
    replies: &Replies,
    base: &str,
    item: &Outcome<TreeItem>,
    g: &mut Gathering<TreeEntry, GitError>,
)
    ensures
        final(g).deep_view() == host::absorb(
            old(g).deep_view(),
            listed(replies.deep_view(), base@, item.deep_view()),
        ),
{
    match item {
        Outcome::Error(error) => g.fail(GitError::Gix(error.clone())),
        Outcome::Got(item) => {
            if EntryType::from(objects::entry_kind(item.mode)) == EntryType::Blob {
                let call = HostCall::BlobSize { oid: item.oid.clone() };
                match replies.count(&call) {
                    None => g.need(call),
                    Some(size) => g.value(make_entry(base, item, size)),
                }
            } else {
                g.value(make_entry(base, item, None))
            }
        },
    }
}

/// The entries of a tree and those below come up, [`collected`].
fn collect_tree_entries(
    replies: &Replies,
    items: &Vec<Outcome<TreeItem>>,
    base: &str,
    depth: u32,
    g: &mut Gathering<TreeEntry, GitError>,
)
    ensures
        final(g).deep_view() == host::absorb_all(
            old(g).deep_view(),
            collected(replies.deep_view(), items.deep_view(), base@, depth as nat),
        ),
    decreases depth,
{
    let ghost k = replies.deep_view();
    let ghost all = items.deep_view();
    let ghost start = g.deep_view();
    let mut i: usize = 0;
    assert(all.take(0).len() == 0);
    while i < items.len()
        invariant
            i <= items@.len(),
            k == replies.deep_view(),
            all == items.deep_view(),
            all.len() == items@.len(),
            g.deep_view() == host::absorb_all(
                start,
                collected(k, all.take(i as int), base@, depth as nat),
            ),
        decreases items.len() - i,
    {
        let ghost before = collected(k, all.take(i as int), base@, depth as nat);
        let ghost one = listed(k, base@, all[i as int]);
        let ghost deeper = below(k, all[i as int], base@, depth as nat);
        proof {
            assert(all.take(i + 1).drop_last() == all.take(i as int));
            assert(all.take(i + 1).last() == all[i as int]);
            assert(all[i as int] == items@[i as int].deep_view());
            host::lemma_absorb_concat(start, before, seq![one]);
            host::lemma_absorb_one(host::absorb_all(start, before), one);
            host::lemma_absorb_concat(start, before + seq![one], deeper);
        }
        list_item(replies, base, &items[i], g);
        match &items[i] {
            Outcome::Error(_) => {},
            Outcome::Got(item) => {
                if depth > 0 && objects::entry_kind(item.mode) == EntryKind::Tree {
                    let call = HostCall::Tree { oid: item.oid.clone() };
                    match replies.tree(&call) {
                        None => {
                            proof {
                                host::lemma_absorb_one(
                                    host::absorb_all(start, before + seq![one]),
                                    ItemView::Need(call.deep_view()),
                                );
                            }
                            g.need(call);
                        },
                        Some(Outcome::Error(_)) => {},
                        Some(Outcome::Got(inner)) => {
                            let inner_base = text::concat3(base, &item.name, "/");
                            collect_tree_entries(replies, inner, &inner_base, depth - 1, g);
                        },
                    }
                }
            },
        }
        i = i + 1;
    }
    assert(all.take(i as int) == all);
}

/// Bytes once more.
fn copy_bytes(data: &Vec<u8>) -> (r: Vec<u8>)
    ensures
        r@ == data@,
        r.deep_view() == data@,
{
    let r = data.clone();
    assert(r@ =~= data@);
    assert(r.deep_view() =~= data@);
    r
}

impl TreeService {
    /// The configuration that the service works with.
    pub closed spec fn config(&self) -> StorageConfigView {
        self.config.deep_view()
    }

    /// The service for a configuration.
    pub fn new(config: StorageConfig) -> (r: Self)
        ensures
            r.config() == config.deep_view(),
    {
        TreeService { config }
    }

    /// Lists the directory at a path, [`get_tree`].
    pub fn get_tree(
        &self,
        owner: &str,
        name: &str,
        tree_ish: &str,
        path: Option<&str>,
        replies: &Replies,
    ) -> (r: Step<Vec<TreeEntry>, GitError>)
        ensures
            r.deep_view() == get_tree(
                replies.deep_view(),
                self.config(),
                owner@,
                name@,
                tree_ish@,
                path.deep_view(),
            ),
    {
        let (items, base) = match find_directory(
            &self.config,
            owner,
            name,
            tree_ish,
            path,
            replies,
        ) {
            Step::Ask(calls) => return Step::Ask(calls),
            Step::Failed(error) => return Step::Failed(error),
            Step::Done(found) => found,
        };
        let ghost k = replies.deep_view();
        let ghost all = items.deep_view().map_values(
            |item: OutcomeView<TreeItemView>| listed(k, base@, item),
        );
        let mut g: Gathering<TreeEntry, GitError> = Gathering::new();
        let mut i: usize = 0;
        while i < items.len()
            invariant
                i <= items@.len(),
                k == replies.deep_view(),
                all == items.deep_view().map_values(
                    |item: OutcomeView<TreeItemView>| listed(k, base@, item),
                ),
                all.len() == items@.len(),
                g.deep_view() == host::absorb_all(host::nothing(), all.take(i as int)),
            decreases items.len() - i,
        {
            proof {
                assert(all.take(i + 1).drop_last() == all.take(i as int));
                assert(all[i as int] == listed(k, base@, items@[i as int].deep_view()));
            }
            list_item(replies, &base, &items[i], &mut g);
            i = i + 1;
        }
        assert(all.take(i as int) == all);
        match g.conclude() {
            Step::Ask(calls) => Step::Ask(calls),
            Step::Failed(error) => Step::Failed(error),
            Step::Done(entries) => Step::Done(sort_entries(entries)),
        }
    }

    /// Lists the directory at a path and those below it,
    /// [`get_tree_recursive`].
    pub fn get_tree_recursive(
        &self,
        owner: &str,
        name: &str,
        tree_ish: &str,
        path: Option<&str>,
        max_depth: Option<u32>,
        replies: &Replies,
    ) -> (r: Step<Vec<TreeEntry>, GitError>)
        ensures
            r.deep_view() == get_tree_recursive(
                replies.deep_view(),
                self.config(),
                owner@,
                name@,
                tree_ish@,
                path.deep_view(),
                max_depth,
            ),
    {
        let (items, base) = match find_directory(
            &self.config,
            owner,
            name,
            tree_ish,
            path,
            replies,
        ) {
            Step::Ask(calls) => return Step::Ask(calls),
            Step::Failed(error) => return Step::Failed(error),
            Step::Done(found) => found,
        };
        let depth = match max_depth {
            Some(depth) => depth,
            None => DEFAULT_DEPTH,
        };
        let mut g: Gathering<TreeEntry, GitError> = Gathering::new();
        collect_tree_entries(replies, items, &base, depth, &mut g);
        g.conclude()
    }

    /// Reads the file that an id names, [`get_blob`].
    pub fn get_blob(&self, owner: &str, name: &str, oid: &str, replies: &Replies) -> (r: Step<
        Vec<u8>,
        GitError,
    >)
        ensures
            r.deep_view() == get_blob(
                replies.deep_view(),
                self.config(),
                owner@,
                name@,
                oid@,
            ),
    {
        match open_repo_by_name(&self.config, owner, name, replies) {
            Step::Ask(calls) => return Step::Ask(calls),
            Step::Failed(error) => return Step::Failed(error),
            Step::Done(_) => {},
        }
        let id = match objects::parse_object_id(oid) {
            None => return Step::Failed(GitError::ObjectNotFound { oid: oid.to_owned() }),
            Some(id) => id,
        };
        let call = HostCall::Blob { oid: id };
        match replies.blob(&call) {
            None => host::ask(call),
            Some(Outcome::Error(_)) => Step::Failed(
                GitError::ObjectNotFound { oid: oid.to_owned() },
            ),
            Some(Outcome::Got(data)) => Step::Done(copy_bytes(data)),
        }
    }

    /// Reads the file at a path, [`get_blob_by_path`].
    pub fn get_blob_by_path(
        &self,
        owner: &str,
        name: &str,
        tree_ish: &str,
        path: &str,
        replies: &Replies,
    ) -> (r: Step<Vec<u8>, GitError>)
        ensures
            r.deep_view() == get_blob_by_path(
                replies.deep_view(),
                self.config(),
                owner@,
                name@,
                tree_ish@,
                path@,
            ),
    {
        let (root, _) = match find_root(&self.config, owner, name, tree_ish, replies) {
            Step::Ask(calls) => return Step::Ask(calls),
            Step::Failed(error) => return Step::Failed(error),
            Step::Done(found) => found,
        };
        let item = match find_entry(replies, &root, path) {
            Step::Ask(calls) => return Step::Ask(calls),
            Step::Failed(error) => return Step::Failed(error),
            Step::Done(item) => item,
        };
        if EntryType::from(objects::entry_kind(item.mode)) != EntryType::Blob {
            return Step::Failed(
                GitError::InvalidRef { reference: text::concat(path, " is not a file") },
            );
        }
        let call = HostCall::Blob { oid: item.oid.clone() };
        match replies.blob(&call) {
            None => host::ask(call),
            Some(Outcome::Error(error)) => Step::Failed(GitError::Gix(error.clone())),
            Some(Outcome::Got(data)) => Step::Done(copy_bytes(data)),
        }
    }

    /// Tells of the file that an id names what there is to say without its
    /// contents, [`get_blob_info`].
    pub fn get_blob_info(&self, owner: &str, name: &str, oid: &str, replies: &Replies) -> (r: Step<
        BlobInfo,
        GitError,
    >)
        ensures
            r.deep_view() == get_blob_info(
                replies.deep_view(),
                self.config(),
                owner@,
                name@,
                oid@,
            ),
    {
        match self.get_blob(owner, name, oid, replies) {
            Step::Ask(calls) => Step::Ask(calls),
            Step::Failed(error) => Step::Failed(error),
            Step::Done(data) => {
                assert(data.deep_view() =~= data@);
                Step::Done(
                    BlobInfo {
                        oid: oid.to_owned(),
                        size: data.len() as u64,
                        is_binary: objects::is_binary_content(&data),
                    },
                )
            },
        }
    }
}

} // verus!
