//! Diffs between commits.

use vstd::prelude::*;

use super::hunks;
use super::objects::{self, CommitRecordView, EntryKind, TreeItem, TreeItemView};
use super::{lookup, open_repo_by_name};
use super::{GitError, GitErrorView, StorageConfig, StorageConfigView};
use crate::host::{
    self, Gathering, HostCall, HostCallView, ItemView, Outcome, OutcomeView, Replies, ReplyView,
    Step, StepView, TreeChange, TreeChangeView,
};
use crate::text;

pub use super::hunks::{
    compute_diff_hunks, DiffHunk, DiffHunkView, DiffLine, DiffLineView, LineType,
};

verus! {

/// Compares commits.
pub struct DiffService {
    config: StorageConfig,
}

/// What became of a file.
#[derive(Debug, Clone, Copy, PartialEq, Eq, Structural)]
pub enum FileStatus {
    Added,
    Deleted,
    Modified,
    Renamed,
    Copied,
    TypeChanged,
}

/// The difference between two trees, by their ids.
#[derive(Debug, Clone)]
pub struct DiffResult {
    pub old_oid: Option<String>,
    pub new_oid: Option<String>,
    pub files: Vec<FileDiff>,
    pub stats: DiffStats,
}

/// The difference between two versions of a file.
#[derive(Debug, Clone)]
pub struct FileDiff {
    pub path: String,
    pub old_path: Option<String>,
    pub old_oid: Option<String>,
    pub new_oid: Option<String>,
    pub old_mode: Option<u32>,
    pub new_mode: Option<u32>,
    pub status: FileStatus,
    pub hunks: Vec<DiffHunk>,
    pub is_binary: bool,
}

/// How many files and lines a difference takes.
#[derive(Debug, Clone, Copy, PartialEq, Eq, Structural)]
pub struct DiffStats {
    pub files_changed: u32,
    pub insertions: u32,
    pub deletions: u32,
}

impl Default for DiffStats {
    fn default() -> (r: Self)
        ensures
            r == (DiffStats { files_changed: 0, insertions: 0, deletions: 0 }),
    {
        DiffStats { files_changed: 0, insertions: 0, deletions: 0 }
    }
}

/// The value of a [`DiffResult`].
pub struct DiffResultView {
    pub old_oid: Option<Seq<char>>,
    pub new_oid: Option<Seq<char>>,
    pub files: Seq<FileDiffView>,
    pub stats: DiffStats,
}

/// The value of a [`FileDiff`].
pub struct FileDiffView {
    pub path: Seq<char>,
    pub old_path: Option<Seq<char>>,
    pub old_oid: Option<Seq<char>>,
    pub new_oid: Option<Seq<char>>,
    pub old_mode: Option<u32>,
    pub new_mode: Option<u32>,
    pub status: FileStatus,
    pub hunks: Seq<DiffHunkView>,
    pub is_binary: bool,
}

impl DeepView for DiffResult {
    type V = DiffResultView;

    open spec fn deep_view(&self) -> DiffResultView {
        DiffResultView {
            old_oid: self.old_oid.deep_view(),
            new_oid: self.new_oid.deep_view(),
            files: self.files.deep_view(),
            stats: self.stats,
        }
    }
}

impl DeepView for FileDiff {
    type V = FileDiffView;

    open spec fn deep_view(&self) -> FileDiffView {
        FileDiffView {
            path: self.path@,
            old_path: self.old_path.deep_view(),
            old_oid: self.old_oid.deep_view(),
            new_oid: self.new_oid.deep_view(),
            old_mode: self.old_mode,
            new_mode: self.new_mode,
            status: self.status,
            hunks: self.hunks.deep_view(),
            is_binary: self.is_binary,
        }
    }
}

/// A file that differs between two trees, before its contents are compared.
pub struct DiffChangeInfo {
    pub path: String,
    pub old_path: Option<String>,
    pub old_oid: Option<String>,
    pub new_oid: Option<String>,
    pub old_mode: Option<u32>,
    pub new_mode: Option<u32>,
    pub status: FileStatus,
}

/// The value of a [`DiffChangeInfo`].
pub struct DiffChangeView {
    pub path: Seq<char>,
    pub old_path: Option<Seq<char>>,
    pub old_oid: Option<Seq<char>>,
    pub new_oid: Option<Seq<char>>,
    pub old_mode: Option<u32>,
    pub new_mode: Option<u32>,
    pub status: FileStatus,
}

impl DeepView for DiffChangeInfo {
    type V = DiffChangeView;

    open spec fn deep_view(&self) -> DiffChangeView {
        DiffChangeView {
            path: self.path@,
            old_path: self.old_path.deep_view(),
            old_oid: self.old_oid.deep_view(),
            new_oid: self.new_oid.deep_view(),
            old_mode: self.old_mode,
            new_mode: self.new_mode,
            status: self.status,
        }
    }
}

/// The file that a change is about: modified where its mode stays, of another
/// type where that changes. A rewrite is a modification that tells the path that
/// the file had before.
pub open spec fn diff_change(change: TreeChangeView) -> DiffChangeView {
    match change {
        TreeChangeView::Addition { path, mode, oid } => added(path, mode, oid),
        TreeChangeView::Deletion { path, mode, oid } => DiffChangeView {
            path,
            old_path: None,
            old_oid: Some(oid),
            new_oid: None,
            old_mode: Some(mode as u32),
            new_mode: None,
            status: FileStatus::Deleted,
        },
        TreeChangeView::Modification { path, old_mode, old_oid, mode, oid } => modified(
            path,
            None,
            old_mode,
            old_oid,
            mode,
            oid,
        ),
        TreeChangeView::Rewrite { old_path, old_mode, old_oid, path, mode, oid } => modified(
            path,
            Some(old_path),
            old_mode,
            old_oid,
            mode,
            oid,
        ),
    }
}

/// A file that was modified.
pub open spec fn modified(
    path: Seq<char>,
    old_path: Option<Seq<char>>,
    old_mode: u16,
    old_oid: Seq<char>,
    mode: u16,
    oid: Seq<char>,
) -> DiffChangeView {
    DiffChangeView {
        path,
        old_path,
        old_oid: Some(old_oid),
        new_oid: Some(oid),
        old_mode: Some(old_mode as u32),
        new_mode: Some(mode as u32),
        status: if old_mode == mode {
            FileStatus::Modified
        } else {
            FileStatus::TypeChanged
        },
    }
}

/// A file that was added.
pub open spec fn added(path: Seq<char>, mode: u16, oid: Seq<char>) -> DiffChangeView {
    DiffChangeView {
        path,
        old_path: None,
        old_oid: None,
        new_oid: Some(oid),
        old_mode: None,
        new_mode: Some(mode as u32),
        status: FileStatus::Added,
    }
}

/// Whether a filter lets a path through: all that begin with it.
pub open spec fn passes(filter: Option<Seq<char>>, path: Seq<char>) -> bool {
    match filter {
        None => true,
        Some(prefix) => prefix.is_prefix_of(path),
    }
}

/// Whether the contents of a version are known, and what they are: nothing
/// where there is no such version or it cannot be read.
pub open spec fn contents(k: Seq<(HostCallView, ReplyView)>, oid: Option<Seq<char>>) -> Result<
    Option<Seq<u8>>,
    HostCallView,
> {
    match oid {
        None => Ok(None),
        Some(hex) => match objects::object_id(hex) {
            None => Ok(None),
            Some(id) => {
                let call = HostCallView::Blob { oid: id };
                match host::blob(k, call) {
                    None => Err(call),
                    Some(OutcomeView::Error(error)) => Ok(None),
                    Some(OutcomeView::Got(data)) => Ok(Some(data)),
                }
            },
        },
    }
}

/// Whether a version looks binary.
pub open spec fn binary(data: Option<Seq<u8>>) -> bool {
    match data {
        None => false,
        Some(bytes) => objects::looks_binary(bytes),
    }
}

/// The lines of a version.
pub open spec fn lines_of(data: Option<Seq<u8>>) -> Seq<Seq<char>> {
    match data {
        None => Seq::empty(),
        Some(bytes) => text::lines(text::utf8_lossy(bytes)),
    }
}

/// The difference between two versions of a file; of binary ones no lines are
/// shown.
pub open spec fn file_diff(
    change: DiffChangeView,
    old: Option<Seq<u8>>,
    new: Option<Seq<u8>>,
    context: nat,
) -> FileDiffView {
    let is_binary = binary(new) || binary(old);
    FileDiffView {
        path: change.path,
        old_path: change.old_path,
        old_oid: change.old_oid,
        new_oid: change.new_oid,
        old_mode: change.old_mode,
        new_mode: change.new_mode,
        status: change.status,
        hunks: if is_binary {
            Seq::empty()
        } else {
            hunks::diff_hunks(lines_of(old), lines_of(new), context)
        },
        is_binary,
    }
}

/// A file that differs, once both of its versions are known.
pub open spec fn compared(
    k: Seq<(HostCallView, ReplyView)>,
    change: DiffChangeView,
    context: nat,
) -> Seq<ItemView<FileDiffView, GitErrorView>> {
    match (contents(k, change.old_oid), contents(k, change.new_oid)) {
        (Ok(old), Ok(new)) => seq![ItemView::Value(file_diff(change, old, new, context))],
        (Err(call), Ok(new)) => seq![ItemView::Need(call)],
        (Ok(old), Err(call)) => seq![ItemView::Need(call)],
        (Err(old_call), Err(new_call)) => seq![ItemView::Need(old_call), ItemView::Need(new_call)],
    }
}

/// What a change contributes to a difference.
pub open spec fn change_items(
    k: Seq<(HostCallView, ReplyView)>,
    change: TreeChangeView,
    filter: Option<Seq<char>>,
    context: nat,
) -> Seq<ItemView<FileDiffView, GitErrorView>> {
    let info = diff_change(change);
    if passes(filter, info.path) {
        compared(k, info, context)
    } else {
        Seq::empty()
    }
}

/// The number of lines of one type over all files.
pub open spec fn total_lines(files: Seq<FileDiffView>, t: LineType) -> nat
    decreases files.len(),
{
    if files.len() == 0 {
        0
    } else {
        total_lines(files.drop_last(), t) + hunks::total_type(files.last().hunks, t)
    }
}

/// How many files and lines a difference takes.
pub open spec fn stats_of(files: Seq<FileDiffView>) -> DiffStats {
    DiffStats {
        files_changed: hunks::low32(files.len() as int),
        insertions: hunks::low32(total_lines(files, LineType::Addition) as int),
        deletions: hunks::low32(total_lines(files, LineType::Deletion) as int),
    }
}

/// The number of unchanged lines around a change, three unless given.
pub open spec fn context_of(context_lines: Option<u32>) -> nat {
    match context_lines {
        Some(lines) => lines as nat,
        None => 3,
    }
}

/// The difference between two trees.
pub open spec fn diff_trees(
    k: Seq<(HostCallView, ReplyView)>,
    old_tree: Seq<char>,
    new_tree: Seq<char>,
    filter: Option<Seq<char>>,
    context_lines: Option<u32>,
) -> StepView<DiffResultView, GitErrorView> {
    host::chain(
        lookup::changes_between(k, old_tree, new_tree),
        |changes: Seq<TreeChangeView>|
            host::chain(
                host::gather(
                    changes.flat_map(
                        |change: TreeChangeView|
                            change_items(k, change, filter, context_of(context_lines)),
                    ),
                ),
                |files: Seq<FileDiffView>|
                    StepView::Done(
                        DiffResultView {
                            old_oid: Some(old_tree),
                            new_oid: Some(new_tree),
                            files,
                            stats: stats_of(files),
                        },
                    ),
            ),
    )
}

/// The path of an entry in a directory.
pub open spec fn path_in(base: Seq<char>, name: Seq<char>) -> Seq<char> {
    if base.len() == 0 {
        name
    } else {
        base + "/"@ + name
    }
}

/// The files of a tree and of those below it, all of them added. A directory
/// that cannot be read holds nothing, and one that is `depth` levels down is
/// read before it is entered.
pub open spec fn initial_items(
    k: Seq<(HostCallView, ReplyView)>,
    items: Seq<OutcomeView<TreeItemView>>,
    base: Seq<char>,
    filter: Option<Seq<char>>,
    context: nat,
    depth: nat,
) -> Seq<ItemView<FileDiffView, GitErrorView>>
    decreases depth, items.len(), 1nat,
{
    if items.len() == 0 {
        Seq::empty()
    } else {
        initial_items(k, items.drop_last(), base, filter, context, depth) + initial_item(
            k,
            items.last(),
            base,
            filter,
            context,
            depth,
        )
    }
}

/// The files that an entry of a tree stands for.
pub open spec fn initial_item(
    k: Seq<(HostCallView, ReplyView)>,
    item: OutcomeView<TreeItemView>,
    base: Seq<char>,
    filter: Option<Seq<char>>,
    context: nat,
    depth: nat,
) -> Seq<ItemView<FileDiffView, GitErrorView>>
    decreases depth, 0nat, 0nat,
{
    match item {
        OutcomeView::Error(error) => seq![ItemView::Fail(GitErrorView::Gix(error))],
        OutcomeView::Got(item) => {
            let path = path_in(base, item.name);
            match objects::kind_of(item.mode) {
                EntryKind::Tree => {
                    let call = HostCallView::Tree { oid: item.oid };
                    match host::tree(k, call) {
                        None => seq![ItemView::Need(call)],
                        Some(OutcomeView::Error(error)) => Seq::empty(),
                        Some(OutcomeView::Got(inner)) => if depth == 0 {
                            seq![ItemView::Need(call)]
                        } else {
                            initial_items(k, inner, path, filter, context, (depth - 1) as nat)
                        },
                    }
                },
                EntryKind::Blob | EntryKind::BlobExecutable => if passes(filter, path) {
                    compared(k, added(path, item.mode, item.oid), context)
                } else {
                    Seq::empty()
                },
                _ => Seq::empty(),
            }
        },
    }
}

/// The difference between nothing and a tree. No chain of different trees, each
/// inside the one before, is longer than the replies that hold them, so that
/// many levels are enough.
pub open spec fn diff_initial(
    k: Seq<(HostCallView, ReplyView)>,
    tree: Seq<char>,
    filter: Option<Seq<char>>,
    context_lines: Option<u32>,
) -> StepView<DiffResultView, GitErrorView> {
    host::chain(
        lookup::tree_at(k, tree),
        |items: Seq<OutcomeView<TreeItemView>>|
            host::chain(
                host::gather(
                    initial_items(
                        k,
                        items,
                        Seq::empty(),
                        filter,
                        context_of(context_lines),
                        k.len(),
                    ),
                ),
                |files: Seq<FileDiffView>|
                    StepView::Done(
                        DiffResultView {
                            old_oid: None,
                            new_oid: Some(tree),
                            files,
                            stats: stats_of(files),
                        },
                    ),
            ),
    )
}

/// The tree of the commit that a revision names.
pub open spec fn revision_tree(k: Seq<(HostCallView, ReplyView)>, revision: Seq<char>) -> StepView<
    Seq<char>,
    GitErrorView,
> {
    host::chain(
        lookup::resolved(k, revision),
        |oid: Seq<char>|
            host::chain(
                lookup::commit_at(k, oid),
                |commit: CommitRecordView| lookup::root_of(k, commit),
            ),
    )
}

/// The difference between two revisions; an empty one stands for nothing.
pub open spec fn diff_commits(
    k: Seq<(HostCallView, ReplyView)>,
    config: StorageConfigView,
    owner: Seq<char>,
    name: Seq<char>,
    old_ref: Seq<char>,
    new_ref: Seq<char>,
    filter: Option<Seq<char>>,
    context_lines: Option<u32>,
) -> StepView<DiffResultView, GitErrorView> {
    host::chain(
        super::opened(k, config, owner, name),
        |open: ()|
            host::chain(
                revision_tree(k, new_ref),
                |new_tree: Seq<char>|
                    if old_ref.len() == 0 {
                        diff_initial(k, new_tree, filter, context_lines)
                    } else {
                        host::chain(
                            revision_tree(k, old_ref),
                            |old_tree: Seq<char>|
                                diff_trees(k, old_tree, new_tree, filter, context_lines),
                        )
                    },
            ),
    )
}

/// The difference that a commit makes to its first parent, or to nothing where
/// it has none.
pub open spec fn diff_commit(
    k: Seq<(HostCallView, ReplyView)>,
    config: StorageConfigView,
    owner: Seq<char>,
    name: Seq<char>,
    commit_ref: Seq<char>,
    filter: Option<Seq<char>>,
    context_lines: Option<u32>,
) -> StepView<DiffResultView, GitErrorView> {
    host::chain(
        super::opened(k, config, owner, name),
        |open: ()|
            host::chain(
                lookup::resolved(k, commit_ref),
                |oid: Seq<char>|
                    host::chain(
                        lookup::commit_at(k, oid),
                        |commit: CommitRecordView|
                            host::chain(
                                lookup::root_of(k, commit),
                                |new_tree: Seq<char>|
                                    if commit.parents.len() == 0 {
                                        diff_initial(k, new_tree, filter, context_lines)
                                    } else {
                                        host::chain(
                                            lookup::commit_at(k, commit.parents[0]),
                                            |parent: CommitRecordView|
                                                host::chain(
                                                    lookup::root_of(k, parent),
                                                    |old_tree: Seq<char>|
                                                        diff_trees(
                                                            k,
                                                            old_tree,
                                                            new_tree,
                                                            filter,
                                                            context_lines,
                                                        ),
                                                ),
                                        )
                                    },
                            ),
                    ),
            ),
    )
}

/// The file that a change is about, [`diff_change`].
fn info_of(change: &TreeChange) -> (r: DiffChangeInfo)
    ensures
        r.deep_view() == diff_change(change.deep_view()),
{
    match change {
        TreeChange::Addition { path, mode, oid } => add_file(path.clone(), *mode, oid),
        TreeChange::Deletion { path, mode, oid } => DiffChangeInfo {
            path: path.clone(),
            old_path: None,
            old_oid: Some(oid.clone()),
            new_oid: None,
            old_mode: Some(*mode as u32),
            new_mode: None,
            status: FileStatus::Deleted,
        },
        TreeChange::Modification { path, old_mode, old_oid, mode, oid } => modify_file(
            path,
            None,
            *old_mode,
            old_oid,
            *mode,
            oid,
        ),
        TreeChange::Rewrite { old_path, old_mode, old_oid, path, mode, oid } => modify_file(
            path,
            Some(old_path.clone()),
            *old_mode,
            old_oid,
            *mode,
            oid,
        ),
    }
}

/// A file that was modified, [`modified`].
fn modify_file(
    path: &String,
    old_path: Option<String>,
    old_mode: u16,
    old_oid: &String,
    mode: u16,
    oid: &String,
) -> (r: DiffChangeInfo)
    ensures
        r.deep_view() == modified(
            path@,
            old_path.deep_view(),
            old_mode,
            old_oid@,
            mode,
            oid@,
        ),
{
    DiffChangeInfo {
        path: path.clone(),
        old_path,
        old_oid: Some(old_oid.clone()),
        new_oid: Some(oid.clone()),
        old_mode: Some(old_mode as u32),
        new_mode: Some(mode as u32),
        status: if old_mode == mode {
            FileStatus::Modified
        } else {
            FileStatus::TypeChanged
        },
    }
}

/// A file that was added, [`added`].
fn add_file(path: String, mode: u16, oid: &String) -> (r: DiffChangeInfo)
    ensures
        r.deep_view() == added(path@, mode, oid@),
{
    DiffChangeInfo {
        path,
        old_path: None,
        old_oid: None,
        new_oid: Some(oid.clone()),
        old_mode: None,
        new_mode: Some(mode as u32),
        status: FileStatus::Added,
    }
}

/// Whether a filter lets a path through, [`passes`].
fn filter_passes(filter: Option<&str>, path: &str) -> (r: bool)
    ensures
        r == passes(filter.deep_view(), path@),
{
    match filter {
        None => true,
        Some(prefix) => text::starts_with(path, prefix),
    }
}

/// The value of a version's contents as far as they are known.
spec fn known(found: Result<Option<&Vec<u8>>, HostCall>) -> Result<Option<Seq<u8>>, HostCallView> {
    match found {
        Ok(Some(data)) => Ok(Some(data@)),
        Ok(None) => Ok(None),
        Err(call) => Err(call.deep_view()),
    }
}

/// The contents of a version, [`contents`].
fn find_contents<'a>(replies: &'a Replies, oid: &Option<String>) -> (r: Result<
    Option<&'a Vec<u8>>,
    HostCall,
>)
    ensures
        known(r) == contents(replies.deep_view(), oid.deep_view()),
{
    match oid {
        None => Ok(None),
        Some(hex) => match objects::parse_object_id(hex) {
            None => Ok(None),
            Some(id) => {
                let call = HostCall::Blob { oid: id };
                match replies.blob(&call) {
                    None => Err(call),
                    Some(Outcome::Error(_)) => Ok(None),
                    Some(Outcome::Got(data)) => Ok(Some(data)),
                }
            },
        },
    }
}

/// Whether one of two versions looks binary, [`binary`].
fn is_file_binary(old: Option<&Vec<u8>>, new: Option<&Vec<u8>>) -> (r: bool)
    ensures
        r == (binary(bytes_of(new)) || binary(bytes_of(old))),
{
    let new_binary = match new {
        None => false,
        Some(data) => objects::is_binary_content(data),
    };
    if new_binary {
        return true;
    }
    match old {
        None => false,
        Some(data) => objects::is_binary_content(data),
    }
}

/// The bytes of a version.
spec fn bytes_of(data: Option<&Vec<u8>>) -> Option<Seq<u8>> {
    match data {
        None => None,
        Some(bytes) => Some(bytes@),
    }
}

/// The lines of a version, [`lines_of`].
fn list_lines(data: Option<&Vec<u8>>) -> (r: Vec<String>)
    ensures
        r.deep_view() == lines_of(bytes_of(data)),
{
    match data {
        None => {
            let none: Vec<String> = Vec::new();
            assert(none.deep_view() =~= Seq::<Seq<char>>::empty());
            none
        },
        Some(bytes) => {
            let content = text::from_utf8_lossy(bytes);
            text::split_lines(&content)
        },
    }
}

/// Texts by reference.
fn borrow_all(lines: &Vec<String>) -> (r: Vec<&str>)
    ensures
        r.deep_view() == lines.deep_view(),
{
    let mut out: Vec<&str> = Vec::new();
    let mut i: usize = 0;
    while i < lines.len()
        invariant
            i <= lines@.len(),
            out@.len() == i,
            forall|j: int| 0 <= j < i ==> (#[trigger] out@[j])@ == lines@[j]@,
        decreases lines.len() - i,
    {
        out.push(lines[i].as_str());
        i = i + 1;
    }
    assert(out.deep_view() =~= lines.deep_view());
    out
}

/// The hunks between two versions of a text file.
fn generate_hunks(old: Option<&Vec<u8>>, new: Option<&Vec<u8>>, context: u32) -> (r: Vec<DiffHunk>)
    ensures
        r.deep_view() == hunks::diff_hunks(
            lines_of(bytes_of(old)),
            lines_of(bytes_of(new)),
            context as nat,
        ),
{
    let old_text = list_lines(old);
    let new_text = list_lines(new);
    let old_lines = borrow_all(&old_text);
    let new_lines = borrow_all(&new_text);
    let old_slice = old_lines.as_slice();
    let new_slice = new_lines.as_slice();
    assert(old_slice.deep_view() =~= old_lines.deep_view());
    assert(new_slice.deep_view() =~= new_lines.deep_view());
    compute_diff_hunks(old_slice, new_slice, context as usize)
}

/// A file that differs comes up, [`compared`].
fn compare_file(
    replies: &Replies,
    change: DiffChangeInfo,
    context: u32,
    g: &mut Gathering<FileDiff, GitError>,
)
    ensures
        final(g).deep_view() == host::absorb_all(
            old(g).deep_view(),
            compared(replies.deep_view(), change.deep_view(), context as nat),
        ),
{
    let ghost start = g.deep_view();
    let old_found = find_contents(replies, &change.old_oid);
    let new_found = find_contents(replies, &change.new_oid);
    match (old_found, new_found) {
        (Ok(old_data), Ok(new_data)) => {
            let is_binary = is_file_binary(old_data, new_data);
            let hunks = if is_binary {
                let none: Vec<DiffHunk> = Vec::new();
                assert(none.deep_view() =~= Seq::<DiffHunkView>::empty());
                none
            } else {
                generate_hunks(old_data, new_data, context)
            };
            let file = FileDiff {
                path: change.path,
                old_path: change.old_path,
                old_oid: change.old_oid,
                new_oid: change.new_oid,
                old_mode: change.old_mode,
                new_mode: change.new_mode,
                status: change.status,
                hunks,
                is_binary,
            };
            proof {
                host::lemma_absorb_one(
                    start,
                    ItemView::<FileDiffView, GitErrorView>::Value(file.deep_view()),
                );
            }
            g.value(file);
        },
        (Err(call), Ok(_)) => {
            proof {
                host::lemma_absorb_one(
                    start,
                    ItemView::<FileDiffView, GitErrorView>::Need(call.deep_view()),
                );
            }
            g.need(call);
        },
        (Ok(_), Err(call)) => {
            proof {
                host::lemma_absorb_one(
                    start,
                    ItemView::<FileDiffView, GitErrorView>::Need(call.deep_view()),
                );
            }
            g.need(call);
        },
        (Err(old_call), Err(new_call)) => {
            proof {
                let first = ItemView::<FileDiffView, GitErrorView>::Need(old_call.deep_view());
                let second = ItemView::<FileDiffView, GitErrorView>::Need(new_call.deep_view());
                host::lemma_absorb_one(start, first);
                host::lemma_absorb_one(host::absorb(start, first), second);
                host::lemma_absorb_concat(start, seq![first], seq![second]);
                assert(seq![first] + seq![second] == seq![first, second]);
            }
            g.need(old_call);
            g.need(new_call);
        },
    }
}

/// The sum of two counts, as it fits into 32 bits.
fn sum32(a: u32, b: u32, Ghost(m): Ghost<int>, Ghost(n): Ghost<int>) -> (r: u32)
    requires
        0 <= m,
        0 <= n,
        a == hunks::low32(m),
        b == hunks::low32(n),
    ensures
        r == hunks::low32(m + n),
{
    ((a as u64 + b as u64) % 0x1_0000_0000) as u32
}

/// How many files and lines a difference takes, [`stats_of`].
fn count_stats(files: &Vec<FileDiff>) -> (r: DiffStats)
    ensures
        r == stats_of(files.deep_view()),
{
    let ghost all = files.deep_view();
    let mut stats = DiffStats::default();
    let mut i: usize = 0;
    assert(all.take(0).len() == 0);
    while i < files.len()
        invariant
            i <= files@.len(),
            all == files.deep_view(),
            all.len() == files@.len(),
            stats.insertions == hunks::low32(
                total_lines(all.take(i as int), LineType::Addition) as int,
            ),
            stats.deletions == hunks::low32(
                total_lines(all.take(i as int), LineType::Deletion) as int,
            ),
        decreases files.len() - i,
    {
        let ghost seen = all.take(i as int);
        let ghost file = all[i as int];
        proof {
            assert(all.take(i + 1).drop_last() == seen);
            assert(file == files@[i as int].deep_view());
        }
        let insertions = hunks::count_lines(&files[i].hunks, LineType::Addition);
        let deletions = hunks::count_lines(&files[i].hunks, LineType::Deletion);
        stats.insertions =
        sum32(
            stats.insertions,
            insertions,
            Ghost(total_lines(seen, LineType::Addition) as int),
            Ghost(hunks::total_type(file.hunks, LineType::Addition) as int),
        );
        stats.deletions =
        sum32(
            stats.deletions,
            deletions,
            Ghost(total_lines(seen, LineType::Deletion) as int),
            Ghost(hunks::total_type(file.hunks, LineType::Deletion) as int),
        );
        i = i + 1;
    }
    assert(all.take(i as int) == all);
    stats.files_changed = hunks::to_low32(files.len());
    stats
}

/// The path of an entry in a directory, [`path_in`].
fn entry_path(base: &str, name: &str) -> (r: String)
    ensures
        r@ == path_in(base@, name@),
{
    if base.is_empty() {
        name.to_owned()
    } else {
        text::concat3(base, "/", name)
    }
}

/// The files of a tree come up, [`initial_items`].
fn collect_initial_entries(
    replies: &Replies,
    items: &Vec<Outcome<TreeItem>>,
    base: &str,
    filter: Option<&str>,
    context: u32,
    depth: usize,
    g: &mut Gathering<FileDiff, GitError>,
)
    ensures
        final(g).deep_view() == host::absorb_all(
            old(g).deep_view(),
            initial_items(
                replies.deep_view(),
                items.deep_view(),
                base@,
                filter.deep_view(),
                context as nat,
                depth as nat,
            ),
        ),
    decreases depth,
{
    let ghost k = replies.deep_view();
    let ghost all = items.deep_view();
    let ghost only = filter.deep_view();
    let ghost start = g.deep_view();
    let mut i: usize = 0;
    assert(all.take(0).len() == 0);
    while i < items.len()
        invariant
            i <= items@.len(),
            k == replies.deep_view(),
            all == items.deep_view(),
            all.len() == items@.len(),
            only == filter.deep_view(),
            g.deep_view() == host::absorb_all(
                start,
                initial_items(k, all.take(i as int), base@, only, context as nat, depth as nat),
            ),
        decreases items.len() - i,
    {
        let ghost before = initial_items(
            k,
            all.take(i as int),
            base@,
            only,
            context as nat,
            depth as nat,
        );
        let ghost these = initial_item(k, all[i as int], base@, only, context as nat, depth as nat);
        proof {
            assert(all.take(i + 1).drop_last() == all.take(i as int));
            assert(all.take(i + 1).last() == all[i as int]);
            assert(all[i as int] == items@[i as int].deep_view());
            host::lemma_absorb_concat(start, before, these);
        }
        match &items[i] {
            Outcome::Error(error) => {
                proof {
                    host::lemma_absorb_one(
                        g.deep_view(),
                        ItemView::<FileDiffView, GitErrorView>::Fail(GitErrorView::Gix(error@)),
                    );
                }
                g.fail(GitError::Gix(error.clone()));
            },
            Outcome::Got(item) => {
                let path = entry_path(base, &item.name);
                match objects::entry_kind(item.mode) {
                    EntryKind::Tree => {
                        let call = HostCall::Tree { oid: item.oid.clone() };
                        proof {
                            host::lemma_absorb_one(
                                g.deep_view(),
                                ItemView::<FileDiffView, GitErrorView>::Need(call.deep_view()),
                            );
                        }
                        match replies.tree(&call) {
                            None => g.need(call),
                            Some(Outcome::Error(_)) => {},
                            Some(Outcome::Got(inner)) => {
                                if depth == 0 {
                                    g.need(call);
                                } else {
                                    collect_initial_entries(
                                        replies,
                                        inner,
                                        &path,
                                        filter,
                                        context,
                                        depth - 1,
                                        g,
                                    );
                                }
                            },
                        }
                    },
                    EntryKind::Blob | EntryKind::BlobExecutable => {
                        if filter_passes(filter, &path) {
                            compare_file(
                                replies,
                                add_file(path, item.mode, &item.oid),
                                context,
                                g,
                            );
                        }
                    },
                    _ => {},
                }
            },
        }
        i = i + 1;
    }
    assert(all.take(i as int) == all);
}

/// The tree of the commit that a revision names, [`revision_tree`].
fn find_revision_tree(replies: &Replies, revision: &str) -> (r: Step<String, GitError>)
    ensures
        r.deep_view() == revision_tree(replies.deep_view(), revision@),
{
    let oid = match lookup::resolve(replies, revision) {
        Step::Ask(calls) => return Step::Ask(calls),
        Step::Failed(error) => return Step::Failed(error),
        Step::Done(oid) => oid,
    };
    match lookup::find_commit(replies, &oid) {
        Step::Ask(calls) => Step::Ask(calls),
        Step::Failed(error) => Step::Failed(error),
        Step::Done(commit) => lookup::root_tree(replies, commit),
    }
}

impl DiffService {
    /// The configuration that the service works with.
    pub closed spec fn config(&self) -> StorageConfigView {
        self.config.deep_view()
    }

    /// The service for a configuration.
    pub fn new(config: StorageConfig) -> (r: Self)
        ensures
            r.config() == config.deep_view(),
    {
        DiffService { config }
    }

    /// Compares two revisions, [`diff_commits`].
    pub fn diff_commits(
        &self,
        owner: &str,
        name: &str,
        old_ref: &str,
        new_ref: &str,
        path_filter: Option<&str>,
        context_lines: Option<u32>,
        replies: &Replies,
    ) -> (r: Step<DiffResult, GitError>)
        ensures
            r.deep_view() == diff_commits(
                replies.deep_view(),
                self.config(),
                owner@,
                name@,
                old_ref@,
                new_ref@,
                path_filter.deep_view(),
                context_lines,
            ),
    {
        match open_repo_by_name(&self.config, owner, name, replies) {
            Step::Ask(calls) => return Step::Ask(calls),
            Step::Failed(error) => return Step::Failed(error),
            Step::Done(_) => {},
        }
        let new_tree = match find_revision_tree(replies, new_ref) {
            Step::Ask(calls) => return Step::Ask(calls),
            Step::Failed(error) => return Step::Failed(error),
            Step::Done(tree) => tree,
        };
        if old_ref.is_empty() {
            return self.diff_initial_commit(new_tree, path_filter, context_lines, replies);
        }
        let old_tree = match find_revision_tree(replies, old_ref) {
            Step::Ask(calls) => return Step::Ask(calls),
            Step::Failed(error) => return Step::Failed(error),
            Step::Done(tree) => tree,
        };
        self.diff_trees(old_tree, new_tree, path_filter, context_lines, replies)
    }

    /// Compares a commit to its first parent, [`diff_commit`].
    pub fn diff_commit(
        &self,
        owner: &str,
        name: &str,
        commit_ref: &str,
        path_filter: Option<&str>,
        context_lines: Option<u32>,
        replies: &Replies,
    ) -> (r: Step<DiffResult, GitError>)
        ensures
            r.deep_view() == diff_commit(
                replies.deep_view(),
                self.config(),
                owner@,
                name@,
                commit_ref@,
                path_filter.deep_view(),
                context_lines,
            ),
    {
        match open_repo_by_name(&self.config, owner, name, replies) {
            Step::Ask(calls) => return Step::Ask(calls),
            Step::Failed(error) => return Step::Failed(error),
            Step::Done(_) => {},
        }
        let oid = match lookup::resolve(replies, commit_ref) {
            Step::Ask(calls) => return Step::Ask(calls),
            Step::Failed(error) => return Step::Failed(error),
            Step::Done(oid) => oid,
        };
        let commit = match lookup::find_commit(replies, &oid) {
            Step::Ask(calls) => return Step::Ask(calls),
            Step::Failed(error) => return Step::Failed(error),
            Step::Done(commit) => commit,
        };
        let new_tree = match lookup::root_tree(replies, commit) {
            Step::Ask(calls) => return Step::Ask(calls),
            Step::Failed(error) => return Step::Failed(error),
            Step::Done(tree) => tree,
        };
        assert(commit.deep_view().parents.len() == commit.parents@.len());
        if commit.parents.len() == 0 {
            return self.diff_initial_commit(new_tree, path_filter, context_lines, replies);
        }
        assert(commit.deep_view().parents[0] == commit.parents@[0]@);
        let parent = match lookup::find_commit(replies, &commit.parents[0]) {
            Step::Ask(calls) => return Step::Ask(calls),
            Step::Failed(error) => return Step::Failed(error),
            Step::Done(commit) => commit,
        };
        let old_tree = match lookup::root_tree(replies, parent) {
            Step::Ask(calls) => return Step::Ask(calls),
            Step::Failed(error) => return Step::Failed(error),
            Step::Done(tree) => tree,
        };
        self.diff_trees(old_tree, new_tree, path_filter, context_lines, replies)
    }

    /// Compares two trees, [`diff_trees`].
    fn diff_trees(
        &self,
        old_tree: String,
        new_tree: String,
        path_filter: Option<&str>,
        context_lines: Option<u32>,
        replies: &Replies,
    ) -> (r: Step<DiffResult, GitError>)
        ensures
            r.deep_view() == diff_trees(
                replies.deep_view(),
                old_tree@,
                new_tree@,
                path_filter.deep_view(),
                context_lines,
            ),
    {
        let changes = match lookup::tree_changes(replies, &old_tree, &new_tree) {
            Step::Ask(calls) => return Step::Ask(calls),
            Step::Failed(error) => return Step::Failed(error),
            Step::Done(changes) => changes,
        };
        let context = match context_lines {
            Some(lines) => lines,
            None => 3,
        };
        let ghost k = replies.deep_view();
        let ghost only = path_filter.deep_view();
        let ghost all = changes.deep_view();
        let ghost f = |change: TreeChangeView|
            change_items(k, change, only, context_of(context_lines));
        let mut g: Gathering<FileDiff, GitError> = Gathering::new();
        let mut i: usize = 0;
        proof {
            assert(all.take(0).flat_map(f) == Seq::<ItemView<FileDiffView, GitErrorView>>::empty());
        }
        while i < changes.len()
            invariant
                i <= changes@.len(),
                k == replies.deep_view(),
                only == path_filter.deep_view(),
                all == changes.deep_view(),
                all.len() == changes@.len(),
                context as nat == context_of(context_lines),
                f == |change: TreeChangeView|
                    change_items(k, change, only, context_of(context_lines)),
                g.deep_view() == host::absorb_all(
                    host::nothing(),
                    all.take(i as int).flat_map(f),
                ),
            decreases changes.len() - i,
        {
            proof {
                all.lemma_flat_map_take_append(f, i as int);
                assert(all[i as int] == changes@[i as int].deep_view());
                host::lemma_absorb_concat(
                    host::nothing(),
                    all.take(i as int).flat_map(f),
                    f(all[i as int]),
                );
            }
            let info = info_of(&changes[i]);
            if filter_passes(path_filter, &info.path) {
                compare_file(replies, info, context, &mut g);
            }
            i = i + 1;
        }
        assert(all.take(i as int) == all);
        match g.conclude() {
            Step::Ask(calls) => Step::Ask(calls),
            Step::Failed(error) => Step::Failed(error),
            Step::Done(files) => {
                let stats = count_stats(&files);
                Step::Done(
                    DiffResult { old_oid: Some(old_tree), new_oid: Some(new_tree), files, stats },
                )
            },
        }
    }

    /// Compares a tree to nothing, [`diff_initial`].
    fn diff_initial_commit(
        &self,
        tree: String,
        path_filter: Option<&str>,
        context_lines: Option<u32>,
        replies: &Replies,
    ) -> (r: Step<DiffResult, GitError>)
        ensures
            r.deep_view() == diff_initial(
                replies.deep_view(),
                tree@,
                path_filter.deep_view(),
                context_lines,
            ),
    {
        let items = match lookup::find_tree(replies, &tree) {
            Step::Ask(calls) => return Step::Ask(calls),
            Step::Failed(error) => return Step::Failed(error),
            Step::Done(items) => items,
        };
        let context = match context_lines {
            Some(lines) => lines,
            None => 3,
        };
        let mut g: Gathering<FileDiff, GitError> = Gathering::new();
        proof {
            reveal_strlit("");
            assert(""@ =~= Seq::<char>::empty());
        }
        collect_initial_entries(replies, items, "", path_filter, context, replies.len(), &mut g);
        match g.conclude() {
            Step::Ask(calls) => Step::Ask(calls),
            Step::Failed(error) => Step::Failed(error),
            Step::Done(files) => {
                let stats = count_stats(&files);
                Step::Done(DiffResult { old_oid: None, new_oid: Some(tree), files, stats })
            },
        }
    }
}

} // verus!
