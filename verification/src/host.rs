//! What the daemon asks of the machine it runs on.
//!
//! An operation never reads or writes anything itself. It is handed the replies
//! that the machine has given so far and either concludes or says which calls it
//! wants made next; whoever runs it makes those calls, records the replies and
//! runs it again.

use vstd::prelude::*;

use crate::git::objects::{CommitRecord, CommitRecordView, TreeItem, TreeItemView};
use crate::git::refs::RefType;
use crate::text;

verus! {

/// What came of something that can fail: its result or the words of its error.
#[derive(Debug, Clone)]
pub enum Outcome<T> {
    Got(T),
    Error(String),
}

/// The value of an [`Outcome`].
pub enum OutcomeView<T> {
    Got(T),
    Error(Seq<char>),
}

impl<T: DeepView> DeepView for Outcome<T> {
    type V = OutcomeView<T::V>;

    open spec fn deep_view(&self) -> OutcomeView<T::V> {
        match self {
            Outcome::Got(value) => OutcomeView::Got(value.deep_view()),
            Outcome::Error(error) => OutcomeView::Error(error@),
        }
    }
}

/// One change from a tree to another. A rewrite is an entry that was found
/// again under another name.
#[derive(Debug, Clone)]
pub enum TreeChange {
    Addition { path: String, mode: u16, oid: String },
    Deletion { path: String, mode: u16, oid: String },
    Modification { path: String, old_mode: u16, old_oid: String, mode: u16, oid: String },
    Rewrite {
        old_path: String,
        old_mode: u16,
        old_oid: String,
        path: String,
        mode: u16,
        oid: String,
    },
}

/// The value of a [`TreeChange`].
pub enum TreeChangeView {
    Addition { path: Seq<char>, mode: u16, oid: Seq<char> },
    Deletion { path: Seq<char>, mode: u16, oid: Seq<char> },
    Modification { path: Seq<char>, old_mode: u16, old_oid: Seq<char>, mode: u16, oid: Seq<char> },
    Rewrite {
        old_path: Seq<char>,
        old_mode: u16,
        old_oid: Seq<char>,
        path: Seq<char>,
        mode: u16,
        oid: Seq<char>,
    },
}

impl DeepView for TreeChange {
    type V = TreeChangeView;

    open spec fn deep_view(&self) -> TreeChangeView {
        match self {
            TreeChange::Addition { path, mode, oid } => TreeChangeView::Addition {
                path: path@,
                mode: *mode,
                oid: oid@,
            },
            TreeChange::Deletion { path, mode, oid } => TreeChangeView::Deletion {
                path: path@,
                mode: *mode,
                oid: oid@,
            },
            TreeChange::Modification { path, old_mode, old_oid, mode, oid } =>
                TreeChangeView::Modification {
                    path: path@,
                    old_mode: *old_mode,
                    old_oid: old_oid@,
                    mode: *mode,
                    oid: oid@,
                },
            TreeChange::Rewrite { old_path, old_mode, old_oid, path, mode, oid } =>
                TreeChangeView::Rewrite {
                    old_path: old_path@,
                    old_mode: *old_mode,
                    old_oid: old_oid@,
                    path: path@,
                    mode: *mode,
                    oid: oid@,
                },
        }
    }
}

/// A reference by its full name, with the object that it comes to.
#[derive(Debug, Clone)]
pub struct RawRef {
    pub name: String,
    pub peeled: Outcome<String>,
}

/// The value of a [`RawRef`].
pub struct RawRefView {
    pub name: Seq<char>,
    pub peeled: OutcomeView<Seq<char>>,
}

impl DeepView for RawRef {
    type V = RawRefView;

    open spec fn deep_view(&self) -> RawRefView {
        RawRefView { name: self.name@, peeled: self.peeled.deep_view() }
    }
}

/// A file by its size, or a directory by what it holds.
#[derive(Debug)]
pub enum DirNode {
    File(u64),
    Directory(Vec<DirNode>),
}

impl DeepView for DirNode {
    type V = DirNode;

    open spec fn deep_view(&self) -> DirNode {
        *self
    }
}

/// What a process left behind.
#[derive(Debug, Clone)]
pub struct ProcessOutput {
    pub success: bool,
    pub stdout: Vec<u8>,
    pub stderr: Vec<u8>,
}

/// The value of a [`ProcessOutput`].
pub struct ProcessOutputView {
    pub success: bool,
    pub stdout: Seq<u8>,
    pub stderr: Seq<u8>,
}

impl DeepView for ProcessOutput {
    type V = ProcessOutputView;

    open spec fn deep_view(&self) -> ProcessOutputView {
        ProcessOutputView { success: self.success, stdout: self.stdout@, stderr: self.stderr@ }
    }
}

/// Something the machine is asked to look up or to do.
#[derive(Debug, Clone)]
pub enum HostCall {
    /// Whether something exists at a path.
    PathExists { path: String },
    /// Whether files can be made in the directory at a path.
    PathWritable { path: String },
    /// Opens the repository at a path, which the calls after this one speak of.
    OpenRepository { path: String },
    /// The object that a revision names.
    Revision { spec: String },
    /// A commit object.
    Commit { oid: String },
    /// A tree object.
    Tree { oid: String },
    /// The contents of a blob object.
    Blob { oid: String },
    /// The size of a blob object.
    BlobSize { oid: String },
    /// Whether there is an object.
    ObjectExists { oid: String },
    /// The entry at a path below a tree.
    EntryAt { tree: String, path: String },
    /// The best common ancestor of two commits.
    MergeBase { one: String, two: String },
    /// The changes that make one tree of another.
    TreeChanges { old: String, new: String },
    /// The references of one type, or all of them.
    References { filter: Option<RefType> },
    /// The full name of the reference that HEAD points at.
    Head,
    /// The commit that HEAD stands for.
    HeadId,
    /// The full name of the reference that a name stands for.
    FindReference { name: String },
    /// Creates a reference that must not exist yet.
    CreateReference { name: String, target: String, log: String },
    /// Deletes a reference.
    DeleteReference { name: String },
    /// Creates a directory and those above it.
    CreateDirectory { path: String },
    /// Lets everyone read and execute a file that its owner may write.
    MakeExecutable { path: String },
    /// Writes a file.
    WriteFile { path: String, contents: String },
    /// The commits reachable from one, newest first, up to a commit or a number of them.
    Walk { start: String, until: Option<String>, limit: Option<u64> },
    /// The number of references of one type.
    CountReferences { kind: RefType },
    /// The number of commits reachable from one.
    CountCommits { start: String },
    /// What a directory holds.
    DirectoryTree { path: String },
    /// Creates the directories above a path.
    CreateParent { path: String },
    /// Creates a bare repository at a path.
    InitBare { path: String },
    /// Moves a directory.
    Rename { from: String, to: String },
    /// Removes a directory with all it holds.
    RemoveDirectory { path: String },
    /// Whether the directory above a path is empty.
    ParentIsEmpty { path: String },
    /// Removes the directory above a path.
    RemoveParent { path: String },
    /// Runs git with arguments.
    Git { args: Vec<String> },
}

/// The value of a [`HostCall`].
pub enum HostCallView {
    PathExists { path: Seq<char> },
    PathWritable { path: Seq<char> },
    OpenRepository { path: Seq<char> },
    Revision { spec: Seq<char> },
    Commit { oid: Seq<char> },
    Tree { oid: Seq<char> },
    Blob { oid: Seq<char> },
    BlobSize { oid: Seq<char> },
    ObjectExists { oid: Seq<char> },
    EntryAt { tree: Seq<char>, path: Seq<char> },
    MergeBase { one: Seq<char>, two: Seq<char> },
    TreeChanges { old: Seq<char>, new: Seq<char> },
    References { filter: Option<RefType> },
    Head,
    HeadId,
    FindReference { name: Seq<char> },
    CreateReference { name: Seq<char>, target: Seq<char>, log: Seq<char> },
    DeleteReference { name: Seq<char> },
    CreateDirectory { path: Seq<char> },
    MakeExecutable { path: Seq<char> },
    WriteFile { path: Seq<char>, contents: Seq<char> },
    Walk { start: Seq<char>, until: Option<Seq<char>>, limit: Option<u64> },
    CountReferences { kind: RefType },
    CountCommits { start: Seq<char> },
    DirectoryTree { path: Seq<char> },
    CreateParent { path: Seq<char> },
    InitBare { path: Seq<char> },
    Rename { from: Seq<char>, to: Seq<char> },
    RemoveDirectory { path: Seq<char> },
    ParentIsEmpty { path: Seq<char> },
    RemoveParent { path: Seq<char> },
    Git { args: Seq<Seq<char>> },
}

impl DeepView for HostCall {
    type V = HostCallView;

    open spec fn deep_view(&self) -> HostCallView {
        match self {
            HostCall::PathExists { path } => HostCallView::PathExists { path: path@ },
            HostCall::PathWritable { path } => HostCallView::PathWritable { path: path@ },
            HostCall::OpenRepository { path } => HostCallView::OpenRepository { path: path@ },
            HostCall::Revision { spec } => HostCallView::Revision { spec: spec@ },
            HostCall::Commit { oid } => HostCallView::Commit { oid: oid@ },
            HostCall::Tree { oid } => HostCallView::Tree { oid: oid@ },
            HostCall::Blob { oid } => HostCallView::Blob { oid: oid@ },
            HostCall::BlobSize { oid } => HostCallView::BlobSize { oid: oid@ },
            HostCall::ObjectExists { oid } => HostCallView::ObjectExists { oid: oid@ },
            HostCall::EntryAt { tree, path } => HostCallView::EntryAt { tree: tree@, path: path@ },
            HostCall::MergeBase { one, two } => HostCallView::MergeBase { one: one@, two: two@ },
            HostCall::TreeChanges { old, new } => HostCallView::TreeChanges {
                old: old@,
                new: new@,
            },
            HostCall::References { filter } => HostCallView::References { filter: *filter },
            HostCall::Head => HostCallView::Head,
            HostCall::HeadId => HostCallView::HeadId,
            HostCall::FindReference { name } => HostCallView::FindReference { name: name@ },
            HostCall::CreateReference { name, target, log } => HostCallView::CreateReference {
                name: name@,
                target: target@,
                log: log@,
            },
            HostCall::DeleteReference { name } => HostCallView::DeleteReference { name: name@ },
            HostCall::CreateDirectory { path } => HostCallView::CreateDirectory { path: path@ },
            HostCall::MakeExecutable { path } => HostCallView::MakeExecutable { path: path@ },
            HostCall::WriteFile { path, contents } => HostCallView::WriteFile {
                path: path@,
                contents: contents@,
            },
            HostCall::Walk { start, until, limit } => HostCallView::Walk {
                start: start@,
                until: until.deep_view(),
                limit: *limit,
            },
            HostCall::CountReferences { kind } => HostCallView::CountReferences { kind: *kind },
            HostCall::CountCommits { start } => HostCallView::CountCommits { start: start@ },
            HostCall::DirectoryTree { path } => HostCallView::DirectoryTree { path: path@ },
            HostCall::CreateParent { path } => HostCallView::CreateParent { path: path@ },
            HostCall::InitBare { path } => HostCallView::InitBare { path: path@ },
            HostCall::Rename { from, to } => HostCallView::Rename { from: from@, to: to@ },
            HostCall::RemoveDirectory { path } => HostCallView::RemoveDirectory { path: path@ },
            HostCall::ParentIsEmpty { path } => HostCallView::ParentIsEmpty { path: path@ },
            HostCall::RemoveParent { path } => HostCallView::RemoveParent { path: path@ },
            HostCall::Git { args } => HostCallView::Git { args: args.deep_view() },
        }
    }
}

/// What the machine replies to a [`HostCall`].
#[derive(Debug)]
pub enum Reply {
    /// Whether something holds.
    Flag(bool),
    /// The error of something that was to be done, if it failed.
    Effect(Option<String>),
    /// A name or an id, if there is one.
    Id(Option<String>),
    /// A name or an id, or why there is none.
    Text(Outcome<String>),
    /// A commit object.
    Commit(Outcome<CommitRecord>),
    /// The entries of a tree object.
    Tree(Outcome<Vec<Outcome<TreeItem>>>),
    /// The contents of a blob object.
    Blob(Outcome<Vec<u8>>),
    /// A number, if it could be told.
    Count(Option<u64>),
    /// An entry below a tree, if there is one.
    Entry(Outcome<Option<TreeItem>>),
    /// Changes from one tree to another.
    Changes(Outcome<Vec<TreeChange>>),
    /// References, each as far as it could be read.
    References(Outcome<Vec<Outcome<RawRef>>>),
    /// Commits, each as far as it could be read.
    Walk(Outcome<Vec<Outcome<String>>>),
    /// What a directory holds.
    Directory(Outcome<DirNode>),
    /// Whether something holds, or why that could not be told.
    Answer(Outcome<bool>),
    /// What a process printed, or why it could not be run.
    Process(Outcome<ProcessOutput>),
}

/// The value of a [`Reply`].
pub enum ReplyView {
    Flag(bool),
    Effect(Option<Seq<char>>),
    Id(Option<Seq<char>>),
    Text(OutcomeView<Seq<char>>),
    Commit(OutcomeView<CommitRecordView>),
    Tree(OutcomeView<Seq<OutcomeView<TreeItemView>>>),
    Blob(OutcomeView<Seq<u8>>),
    Count(Option<u64>),
    Entry(OutcomeView<Option<TreeItemView>>),
    Changes(OutcomeView<Seq<TreeChangeView>>),
    References(OutcomeView<Seq<OutcomeView<RawRefView>>>),
    Walk(OutcomeView<Seq<OutcomeView<Seq<char>>>>),
    Directory(OutcomeView<DirNode>),
    Answer(OutcomeView<bool>),
    Process(OutcomeView<ProcessOutputView>),
}

impl DeepView for Reply {
    type V = ReplyView;

    open spec fn deep_view(&self) -> ReplyView {
        match self {
            Reply::Flag(value) => ReplyView::Flag(*value),
            Reply::Effect(value) => ReplyView::Effect(value.deep_view()),
            Reply::Id(value) => ReplyView::Id(value.deep_view()),
            Reply::Text(value) => ReplyView::Text(value.deep_view()),
            Reply::Commit(value) => ReplyView::Commit(value.deep_view()),
            Reply::Tree(value) => ReplyView::Tree(value.deep_view()),
            Reply::Blob(value) => ReplyView::Blob(blob_view(*value)),
            Reply::Count(value) => ReplyView::Count(*value),
            Reply::Entry(value) => ReplyView::Entry(value.deep_view()),
            Reply::Changes(value) => ReplyView::Changes(value.deep_view()),
            Reply::References(value) => ReplyView::References(value.deep_view()),
            Reply::Walk(value) => ReplyView::Walk(value.deep_view()),
            Reply::Directory(value) => ReplyView::Directory(value.deep_view()),
            Reply::Answer(value) => ReplyView::Answer(value.deep_view()),
            Reply::Process(value) => ReplyView::Process(value.deep_view()),
        }
    }
}

/// The value of the contents of a blob.
pub open spec fn blob_view(blob: Outcome<Vec<u8>>) -> OutcomeView<Seq<u8>> {
    match blob {
        Outcome::Got(data) => OutcomeView::Got(data@),
        Outcome::Error(error) => OutcomeView::Error(error@),
    }
}

/// Whether a reply is of the kind that a call asks for.
pub open spec fn fits(call: HostCallView, reply: ReplyView) -> bool {
    match call {
        HostCallView::PathExists { .. }
        | HostCallView::PathWritable { .. }
        | HostCallView::ObjectExists { .. } => reply is Flag,
        HostCallView::OpenRepository { .. }
        | HostCallView::CreateReference { .. }
        | HostCallView::DeleteReference { .. }
        | HostCallView::CreateDirectory { .. }
        | HostCallView::MakeExecutable { .. }
        | HostCallView::WriteFile { .. }
        | HostCallView::CreateParent { .. }
        | HostCallView::InitBare { .. }
        | HostCallView::Rename { .. }
        | HostCallView::RemoveDirectory { .. }
        | HostCallView::RemoveParent { .. } => reply is Effect,
        HostCallView::Revision { .. }
        | HostCallView::Head
        | HostCallView::HeadId
        | HostCallView::FindReference { .. } => reply is Id,
        HostCallView::MergeBase { .. } => reply is Text,
        HostCallView::Commit { .. } => reply is Commit,
        HostCallView::Tree { .. } => reply is Tree,
        HostCallView::Blob { .. } => reply is Blob,
        HostCallView::BlobSize { .. }
        | HostCallView::CountReferences { .. }
        | HostCallView::CountCommits { .. } => reply is Count,
        HostCallView::EntryAt { .. } => reply is Entry,
        HostCallView::TreeChanges { .. } => reply is Changes,
        HostCallView::References { .. } => reply is References,
        HostCallView::Walk { .. } => reply is Walk,
        HostCallView::DirectoryTree { .. } => reply is Directory,
        HostCallView::ParentIsEmpty { .. } => reply is Answer,
        HostCallView::Git { .. } => reply is Process,
    }
}

/// Whether two options hold the same text, or neither holds one.
fn same_option(a: &Option<String>, b: &Option<String>) -> (r: bool)
    ensures
        r == (a.deep_view() == b.deep_view()),
{
    match (a, b) {
        (Some(x), Some(y)) => text::same(x, y),
        (None, None) => true,
        _ => false,
    }
}

/// Whether two options hold the same number, or neither holds one.
fn same_limit(a: &Option<u64>, b: &Option<u64>) -> (r: bool)
    ensures
        r == (*a == *b),
{
    match (a, b) {
        (Some(x), Some(y)) => *x == *y,
        (None, None) => true,
        _ => false,
    }
}

/// Whether two filters let the same references through.
fn same_filter(a: &Option<RefType>, b: &Option<RefType>) -> (r: bool)
    ensures
        r == (*a == *b),
{
    match (a, b) {
        (Some(x), Some(y)) => *x == *y,
        (None, None) => true,
        _ => false,
    }
}

/// Whether two calls ask for the same.
pub fn same_call(a: &HostCall, b: &HostCall) -> (r: bool)
    ensures
        r == (a.deep_view() == b.deep_view()),
{
    match (a, b) {
        (HostCall::PathExists { path: path_a }, HostCall::PathExists { path: path_b }) => {
            text::same(path_a, path_b)
        },
        (HostCall::PathWritable { path: path_a }, HostCall::PathWritable { path: path_b }) => {
            text::same(path_a, path_b)
        },
        (HostCall::OpenRepository { path: path_a }, HostCall::OpenRepository { path: path_b }) => {
            text::same(path_a, path_b)
        },
        (HostCall::Revision { spec: spec_a }, HostCall::Revision { spec: spec_b }) => {
            text::same(spec_a, spec_b)
        },
        (HostCall::Commit { oid: oid_a }, HostCall::Commit { oid: oid_b }) => {
            text::same(oid_a, oid_b)
        },
        (HostCall::Tree { oid: oid_a }, HostCall::Tree { oid: oid_b }) => {
            text::same(oid_a, oid_b)
        },
        (HostCall::Blob { oid: oid_a }, HostCall::Blob { oid: oid_b }) => {
            text::same(oid_a, oid_b)
        },
        (HostCall::BlobSize { oid: oid_a }, HostCall::BlobSize { oid: oid_b }) => {
            text::same(oid_a, oid_b)
        },
        (HostCall::ObjectExists { oid: oid_a }, HostCall::ObjectExists { oid: oid_b }) => {
            text::same(oid_a, oid_b)
        },
        (
            HostCall::EntryAt { tree: tree_a, path: path_a },
            HostCall::EntryAt { tree: tree_b, path: path_b },
        ) => {
            text::same(tree_a, tree_b) && text::same(path_a, path_b)
        },
        (
            HostCall::MergeBase { one: one_a, two: two_a },
            HostCall::MergeBase { one: one_b, two: two_b },
        ) => {
            text::same(one_a, one_b) && text::same(two_a, two_b)
        },
        (
            HostCall::TreeChanges { old: old_a, new: new_a },
            HostCall::TreeChanges { old: old_b, new: new_b },
        ) => {
            text::same(old_a, old_b) && text::same(new_a, new_b)
        },
        (HostCall::References { filter: filter_a }, HostCall::References { filter: filter_b }) => {
            same_filter(filter_a, filter_b)
        },
        (HostCall::Head, HostCall::Head) => true,
        (HostCall::HeadId, HostCall::HeadId) => true,
        (HostCall::FindReference { name: name_a }, HostCall::FindReference { name: name_b }) => {
            text::same(name_a, name_b)
        },
        (
            HostCall::CreateReference { name: name_a, target: target_a, log: log_a },
            HostCall::CreateReference { name: name_b, target: target_b, log: log_b },
        ) => {
            text::same(name_a, name_b) && text::same(target_a, target_b) && text::same(log_a, log_b)
        },
        (
            HostCall::DeleteReference { name: name_a },
            HostCall::DeleteReference { name: name_b },
        ) => {
            text::same(name_a, name_b)
        },
        (
            HostCall::CreateDirectory { path: path_a },
            HostCall::CreateDirectory { path: path_b },
        ) => {
            text::same(path_a, path_b)
        },
        (HostCall::MakeExecutable { path: path_a }, HostCall::MakeExecutable { path: path_b }) => {
            text::same(path_a, path_b)
        },
        (
            HostCall::WriteFile { path: path_a, contents: contents_a },
            HostCall::WriteFile { path: path_b, contents: contents_b },
        ) => {
            text::same(path_a, path_b) && text::same(contents_a, contents_b)
        },
        (
            HostCall::Walk { start: start_a, until: until_a, limit: limit_a },
            HostCall::Walk { start: start_b, until: until_b, limit: limit_b },
        ) => {
            text::same(start_a, start_b) && same_option(until_a, until_b) && same_limit(
                limit_a,
                limit_b,
            )
        },
        (
            HostCall::CountReferences { kind: kind_a },
            HostCall::CountReferences { kind: kind_b },
        ) => {
            *kind_a == *kind_b
        },
        (HostCall::CountCommits { start: start_a }, HostCall::CountCommits { start: start_b }) => {
            text::same(start_a, start_b)
        },
        (HostCall::DirectoryTree { path: path_a }, HostCall::DirectoryTree { path: path_b }) => {
            text::same(path_a, path_b)
        },
        (HostCall::CreateParent { path: path_a }, HostCall::CreateParent { path: path_b }) => {
            text::same(path_a, path_b)
        },
        (HostCall::InitBare { path: path_a }, HostCall::InitBare { path: path_b }) => {
            text::same(path_a, path_b)
        },
        (
            HostCall::Rename { from: from_a, to: to_a },
            HostCall::Rename { from: from_b, to: to_b },
        ) => {
            text::same(from_a, from_b) && text::same(to_a, to_b)
        },
        (
            HostCall::RemoveDirectory { path: path_a },
            HostCall::RemoveDirectory { path: path_b },
        ) => {
            text::same(path_a, path_b)
        },
        (HostCall::ParentIsEmpty { path: path_a }, HostCall::ParentIsEmpty { path: path_b }) => {
            text::same(path_a, path_b)
        },
        (HostCall::RemoveParent { path: path_a }, HostCall::RemoveParent { path: path_b }) => {
            text::same(path_a, path_b)
        },
        (HostCall::Git { args: args_a }, HostCall::Git { args: args_b }) => {
            text::same_list(args_a, args_b)
        },
        _ => false,
    }
}

/// The replies that the machine has given so far, each with its call.
#[derive(Debug)]
pub struct Replies {
    entries: Vec<(HostCall, Reply)>,
}

impl DeepView for Replies {
    type V = Seq<(HostCallView, ReplyView)>;

    closed spec fn deep_view(&self) -> Seq<(HostCallView, ReplyView)> {
        self.entries.deep_view()
    }
}

/// The first reply to a call.
pub open spec fn reply_to(k: Seq<(HostCallView, ReplyView)>, call: HostCallView) -> Option<
    ReplyView,
>
    decreases k.len(),
{
    if k.len() == 0 {
        None
    } else if k[0].0 == call {
        Some(k[0].1)
    } else {
        reply_to(k.skip(1), call)
    }
}

/// Whether a call has a reply of the kind it asks for.
pub open spec fn answered(k: Seq<(HostCallView, ReplyView)>, call: HostCallView) -> bool {
    match reply_to(k, call) {
        Some(reply) => fits(call, reply),
        None => false,
    }
}

/// A reply that is recorded becomes the reply to its call, unless that has one;
/// every other call keeps what it had.
pub proof fn law_recorded(
    k: Seq<(HostCallView, ReplyView)>,
    call: HostCallView,
    reply: ReplyView,
    other: HostCallView,
)
    ensures
        reply_to(k.push((call, reply)), call) == match reply_to(k, call) {
            Some(earlier) => Some(earlier),
            None => Some(reply),
        },
        other != call ==> reply_to(k.push((call, reply)), other) == reply_to(k, other),
    decreases k.len(),
{
    let longer = k.push((call, reply));
    if k.len() == 0 {
        assert(longer.skip(1) == k);
    } else {
        law_recorded(k.skip(1), call, reply, other);
        assert(longer.skip(1) == k.skip(1).push((call, reply)));
    }
}

/// The reply to a call, where it is of the kind [`Reply::Flag`].
pub open spec fn flag(k: Seq<(HostCallView, ReplyView)>, call: HostCallView) -> Option<bool> {
    match reply_to(k, call) {
        Some(ReplyView::Flag(value)) => Some(value),
        _ => None,
    }
}

/// The reply to a call, where it is of the kind [`Reply::Effect`].
pub open spec fn effect(k: Seq<(HostCallView, ReplyView)>, call: HostCallView) -> Option<
    Option<Seq<char>>,
> {
    match reply_to(k, call) {
        Some(ReplyView::Effect(value)) => Some(value),
        _ => None,
    }
}

/// The reply to a call, where it is of the kind [`Reply::Id`].
pub open spec fn id(k: Seq<(HostCallView, ReplyView)>, call: HostCallView) -> Option<
    Option<Seq<char>>,
> {
    match reply_to(k, call) {
        Some(ReplyView::Id(value)) => Some(value),
        _ => None,
    }
}

/// The reply to a call, where it is of the kind [`Reply::Text`].
pub open spec fn text(k: Seq<(HostCallView, ReplyView)>, call: HostCallView) -> Option<
    OutcomeView<Seq<char>>,
> {
    match reply_to(k, call) {
        Some(ReplyView::Text(value)) => Some(value),
        _ => None,
    }
}

/// The reply to a call, where it is of the kind [`Reply::Commit`].
pub open spec fn commit(k: Seq<(HostCallView, ReplyView)>, call: HostCallView) -> Option<
    OutcomeView<CommitRecordView>,
> {
    match reply_to(k, call) {
        Some(ReplyView::Commit(value)) => Some(value),
        _ => None,
    }
}

/// The reply to a call, where it is of the kind [`Reply::Tree`].
pub open spec fn tree(k: Seq<(HostCallView, ReplyView)>, call: HostCallView) -> Option<
    OutcomeView<Seq<OutcomeView<TreeItemView>>>,
> {
    match reply_to(k, call) {
        Some(ReplyView::Tree(value)) => Some(value),
        _ => None,
    }
}

/// The reply to a call, where it is of the kind [`Reply::Blob`].
pub open spec fn blob(k: Seq<(HostCallView, ReplyView)>, call: HostCallView) -> Option<
    OutcomeView<Seq<u8>>,
> {
    match reply_to(k, call) {
        Some(ReplyView::Blob(value)) => Some(value),
        _ => None,
    }
}

/// The reply to a call, where it is of the kind [`Reply::Count`].
pub open spec fn count(k: Seq<(HostCallView, ReplyView)>, call: HostCallView) -> Option<
    Option<u64>,
> {
    match reply_to(k, call) {
        Some(ReplyView::Count(value)) => Some(value),
        _ => None,
    }
}

/// The reply to a call, where it is of the kind [`Reply::Entry`].
pub open spec fn entry(k: Seq<(HostCallView, ReplyView)>, call: HostCallView) -> Option<
    OutcomeView<Option<TreeItemView>>,
> {
    match reply_to(k, call) {
        Some(ReplyView::Entry(value)) => Some(value),
        _ => None,
    }
}

/// The reply to a call, where it is of the kind [`Reply::Changes`].
pub open spec fn changes(k: Seq<(HostCallView, ReplyView)>, call: HostCallView) -> Option<
    OutcomeView<Seq<TreeChangeView>>,
> {
    match reply_to(k, call) {
        Some(ReplyView::Changes(value)) => Some(value),
        _ => None,
    }
}

/// The reply to a call, where it is of the kind [`Reply::References`].
pub open spec fn references(k: Seq<(HostCallView, ReplyView)>, call: HostCallView) -> Option<
    OutcomeView<Seq<OutcomeView<RawRefView>>>,
> {
    match reply_to(k, call) {
        Some(ReplyView::References(value)) => Some(value),
        _ => None,
    }
}

/// The reply to a call, where it is of the kind [`Reply::Walk`].
pub open spec fn walk(k: Seq<(HostCallView, ReplyView)>, call: HostCallView) -> Option<
    OutcomeView<Seq<OutcomeView<Seq<char>>>>,
> {
    match reply_to(k, call) {
        Some(ReplyView::Walk(value)) => Some(value),
        _ => None,
    }
}

/// The reply to a call, where it is of the kind [`Reply::Directory`].
pub open spec fn directory(k: Seq<(HostCallView, ReplyView)>, call: HostCallView) -> Option<
    OutcomeView<DirNode>,
> {
    match reply_to(k, call) {
        Some(ReplyView::Directory(value)) => Some(value),
        _ => None,
    }
}

/// The reply to a call, where it is of the kind [`Reply::Answer`].
pub open spec fn answer(k: Seq<(HostCallView, ReplyView)>, call: HostCallView) -> Option<
    OutcomeView<bool>,
> {
    match reply_to(k, call) {
        Some(ReplyView::Answer(value)) => Some(value),
        _ => None,
    }
}

/// The reply to a call, where it is of the kind [`Reply::Process`].
pub open spec fn process(k: Seq<(HostCallView, ReplyView)>, call: HostCallView) -> Option<
    OutcomeView<ProcessOutputView>,
> {
    match reply_to(k, call) {
        Some(ReplyView::Process(value)) => Some(value),
        _ => None,
    }
}

impl Replies {
    /// No replies.
    pub fn new() -> (r: Self)
        ensures
            r.deep_view() == Seq::<(HostCallView, ReplyView)>::empty(),
    {
        let r = Replies { entries: Vec::new() };
        assert(r.deep_view() =~= Seq::<(HostCallView, ReplyView)>::empty());
        r
    }

    /// The number of replies.
    pub fn len(&self) -> (r: usize)
        ensures
            r == self.deep_view().len(),
    {
        self.entries.len()
    }

    /// Records the reply to a call.
    pub fn record(&mut self, call: HostCall, reply: Reply)
        ensures
            final(self).deep_view() == old(self).deep_view().push(
                (call.deep_view(), reply.deep_view()),
            ),
    {
        let ghost before = self.deep_view();
        self.entries.push((call, reply));
        assert(self.deep_view() =~= before.push((call.deep_view(), reply.deep_view())));
    }

    /// The first reply to a call.
    fn find(&self, call: &HostCall) -> (r: Option<&Reply>)
        ensures
            r.deep_view() == reply_to(self.deep_view(), call.deep_view()),
    {
        let mut i: usize = 0;
        assert(self.deep_view().skip(0) == self.deep_view());
        while i < self.entries.len()
            invariant
                i <= self.entries@.len(),
                self.deep_view().len() == self.entries@.len(),
                reply_to(self.deep_view().skip(i as int), call.deep_view()) == reply_to(
                    self.deep_view(),
                    call.deep_view(),
                ),
            decreases self.entries.len() - i,
        {
            let ghost rest = self.deep_view().skip(i as int);
            let entry = &self.entries[i];
            assert(rest[0] == entry.deep_view());
            if same_call(&entry.0, call) {
                return Some(&entry.1);
            }
            assert(rest.skip(1) == self.deep_view().skip(i + 1));
            i = i + 1;
        }
        None
    }

    /// The reply to a call, where it is of the kind [`Reply::Flag`].
    pub fn flag(&self, call: &HostCall) -> (r: Option<bool>)
        ensures
            r == flag(self.deep_view(), call.deep_view()),
    {
        match self.find(call) {
            Some(Reply::Flag(value)) => Some(*value),
            _ => None,
        }
    }

    /// The reply to a call, where it is of the kind [`Reply::Effect`].
    pub fn effect(&self, call: &HostCall) -> (r: Option<&Option<String>>)
        ensures
            r.deep_view() == effect(self.deep_view(), call.deep_view()),
    {
        match self.find(call) {
            Some(Reply::Effect(value)) => Some(value),
            _ => None,
        }
    }

    /// The reply to a call, where it is of the kind [`Reply::Id`].
    pub fn id(&self, call: &HostCall) -> (r: Option<&Option<String>>)
        ensures
            r.deep_view() == id(self.deep_view(), call.deep_view()),
    {
        match self.find(call) {
            Some(Reply::Id(value)) => Some(value),
            _ => None,
        }
    }

    /// The reply to a call, where it is of the kind [`Reply::Text`].
    pub fn text(&self, call: &HostCall) -> (r: Option<&Outcome<String>>)
        ensures
            r.deep_view() == text(self.deep_view(), call.deep_view()),
    {
        match self.find(call) {
            Some(Reply::Text(value)) => Some(value),
            _ => None,
        }
    }

    /// The reply to a call, where it is of the kind [`Reply::Commit`].
    pub fn commit(&self, call: &HostCall) -> (r: Option<&Outcome<CommitRecord>>)
        ensures
            r.deep_view() == commit(self.deep_view(), call.deep_view()),
    {
        match self.find(call) {
            Some(Reply::Commit(value)) => Some(value),
            _ => None,
        }
    }

    /// The reply to a call, where it is of the kind [`Reply::Tree`].
    pub fn tree(&self, call: &HostCall) -> (r: Option<&Outcome<Vec<Outcome<TreeItem>>>>)
        ensures
            r.deep_view() == tree(self.deep_view(), call.deep_view()),
    {
        match self.find(call) {
            Some(Reply::Tree(value)) => Some(value),
            _ => None,
        }
    }

    /// The reply to a call, where it is of the kind [`Reply::Blob`].
    pub fn blob(&self, call: &HostCall) -> (r: Option<&Outcome<Vec<u8>>>)
        ensures
            match r {
                Some(value) => blob(self.deep_view(), call.deep_view()) == Some(blob_view(*value)),
                None => blob(self.deep_view(), call.deep_view()) is None,
            },
    {
        match self.find(call) {
            Some(Reply::Blob(value)) => Some(value),
            _ => None,
        }
    }

    /// The reply to a call, where it is of the kind [`Reply::Count`].
    pub fn count(&self, call: &HostCall) -> (r: Option<Option<u64>>)
        ensures
            r == count(self.deep_view(), call.deep_view()),
    {
        match self.find(call) {
            Some(Reply::Count(value)) => Some(*value),
            _ => None,
        }
    }

    /// The reply to a call, where it is of the kind [`Reply::Entry`].
    pub fn entry(&self, call: &HostCall) -> (r: Option<&Outcome<Option<TreeItem>>>)
        ensures
            r.deep_view() == entry(self.deep_view(), call.deep_view()),
    {
        match self.find(call) {
            Some(Reply::Entry(value)) => Some(value),
            _ => None,
        }
    }

    /// The reply to a call, where it is of the kind [`Reply::Changes`].
    pub fn changes(&self, call: &HostCall) -> (r: Option<&Outcome<Vec<TreeChange>>>)
        ensures
            r.deep_view() == changes(self.deep_view(), call.deep_view()),
    {
        match self.find(call) {
            Some(Reply::Changes(value)) => Some(value),
            _ => None,
        }
    }

    /// The reply to a call, where it is of the kind [`Reply::References`].
    pub fn references(&self, call: &HostCall) -> (r: Option<&Outcome<Vec<Outcome<RawRef>>>>)
        ensures
            r.deep_view() == references(self.deep_view(), call.deep_view()),
    {
        match self.find(call) {
            Some(Reply::References(value)) => Some(value),
            _ => None,
        }
    }

    /// The reply to a call, where it is of the kind [`Reply::Walk`].
    pub fn walk(&self, call: &HostCall) -> (r: Option<&Outcome<Vec<Outcome<String>>>>)
        ensures
            r.deep_view() == walk(self.deep_view(), call.deep_view()),
    {
        match self.find(call) {
            Some(Reply::Walk(value)) => Some(value),
            _ => None,
        }
    }

    /// The reply to a call, where it is of the kind [`Reply::Directory`].
    pub fn directory(&self, call: &HostCall) -> (r: Option<&Outcome<DirNode>>)
        ensures
            r.deep_view() == directory(self.deep_view(), call.deep_view()),
    {
        match self.find(call) {
            Some(Reply::Directory(value)) => Some(value),
            _ => None,
        }
    }

    /// The reply to a call, where it is of the kind [`Reply::Answer`].
    pub fn answer(&self, call: &HostCall) -> (r: Option<&Outcome<bool>>)
        ensures
            r.deep_view() == answer(self.deep_view(), call.deep_view()),
    {
        match self.find(call) {
            Some(Reply::Answer(value)) => Some(value),
            _ => None,
        }
    }

    /// The reply to a call, where it is of the kind [`Reply::Process`].
    pub fn process(&self, call: &HostCall) -> (r: Option<&Outcome<ProcessOutput>>)
        ensures
            r.deep_view() == process(self.deep_view(), call.deep_view()),
    {
        match self.find(call) {
            Some(Reply::Process(value)) => Some(value),
            _ => None,
        }
    }

}

/// Where an operation has come to: it wants calls made, it is done, or it has
/// failed.
#[derive(Debug, Clone)]
pub enum Step<T, E> {
    Ask(Vec<HostCall>),
    Done(T),
    Failed(E),
}

/// The value of a [`Step`].
pub enum StepView<T, E> {
    Ask(Seq<HostCallView>),
    Done(T),
    Failed(E),
}

impl<T: DeepView, E: DeepView> DeepView for Step<T, E> {
    type V = StepView<T::V, E::V>;

    open spec fn deep_view(&self) -> StepView<T::V, E::V> {
        match self {
            Step::Ask(calls) => StepView::Ask(calls.deep_view()),
            Step::Done(value) => StepView::Done(value.deep_view()),
            Step::Failed(error) => StepView::Failed(error.deep_view()),
        }
    }
}

/// A step followed by what its result leads to.
pub open spec fn chain<A, B, E>(
    step: StepView<A, E>,
    rest: spec_fn(A) -> StepView<B, E>,
) -> StepView<B, E> {
    match step {
        StepView::Ask(calls) => StepView::Ask(calls),
        StepView::Done(value) => rest(value),
        StepView::Failed(error) => StepView::Failed(error),
    }
}

/// The step that a reply leads to, and that asks for it where there is none.
pub open spec fn await_reply<R, T, E>(
    reply: Option<R>,
    call: HostCallView,
    rest: spec_fn(R) -> StepView<T, E>,
) -> StepView<T, E> {
    match reply {
        Some(value) => rest(value),
        None => StepView::Ask(seq![call]),
    }
}

/// The step that asks for one call.
pub fn ask<T: DeepView, E: DeepView>(call: HostCall) -> (r: Step<T, E>)
    ensures
        r.deep_view() == StepView::<T::V, E::V>::Ask(seq![call.deep_view()]),
{
    let mut calls: Vec<HostCall> = Vec::new();
    calls.push(call);
    assert(calls.deep_view() =~= seq![call.deep_view()]);
    Step::Ask(calls)
}

/// One thing that comes up while an operation goes through a list: a value for
/// its result, a call that is wanted, or a failure.
pub enum ItemView<T, E> {
    Value(T),
    Need(HostCallView),
    Fail(E),
}

/// What has come up so far.
#[derive(Debug, Clone)]
pub struct Gathering<T, E> {
    pub values: Vec<T>,
    pub needs: Vec<HostCall>,
    pub failure: Option<E>,
}

/// The value of a [`Gathering`].
pub struct GatheringView<T, E> {
    pub values: Seq<T>,
    pub needs: Seq<HostCallView>,
    pub failure: Option<E>,
}

impl<T: DeepView, E: DeepView> DeepView for Gathering<T, E> {
    type V = GatheringView<T::V, E::V>;

    open spec fn deep_view(&self) -> GatheringView<T::V, E::V> {
        GatheringView {
            values: self.values.deep_view(),
            needs: self.needs.deep_view(),
            failure: self.failure.deep_view(),
        }
    }
}

/// Nothing has come up yet.
pub open spec fn nothing<T, E>() -> GatheringView<T, E> {
    GatheringView { values: Seq::empty(), needs: Seq::empty(), failure: None }
}

/// One more thing has come up; nothing counts after a failure.
pub open spec fn absorb<T, E>(g: GatheringView<T, E>, item: ItemView<T, E>) -> GatheringView<T, E> {
    if g.failure is Some {
        g
    } else {
        match item {
            ItemView::Value(value) => GatheringView { values: g.values.push(value), ..g },
            ItemView::Need(call) => GatheringView { needs: g.needs.push(call), ..g },
            ItemView::Fail(error) => GatheringView { failure: Some(error), ..g },
        }
    }
}

/// A list of things has come up, one after the other.
pub open spec fn absorb_all<T, E>(
    g: GatheringView<T, E>,
    items: Seq<ItemView<T, E>>,
) -> GatheringView<T, E>
    decreases items.len(),
{
    if items.len() == 0 {
        g
    } else {
        absorb(absorb_all(g, items.drop_last()), items.last())
    }
}

/// Two lists that come up one after the other are one list.
pub proof fn lemma_absorb_concat<T, E>(
    g: GatheringView<T, E>,
    a: Seq<ItemView<T, E>>,
    b: Seq<ItemView<T, E>>,
)
    ensures
        absorb_all(g, a + b) == absorb_all(absorb_all(g, a), b),
    decreases b.len(),
{
    if b.len() == 0 {
        assert(a + b == a);
    } else {
        lemma_absorb_concat(g, a, b.drop_last());
        assert((a + b).drop_last() == a + b.drop_last());
    }
}

/// A list of one thing.
pub proof fn lemma_absorb_one<T, E>(g: GatheringView<T, E>, item: ItemView<T, E>)
    ensures
        absorb_all(g, seq![item]) == absorb(g, item),
{
    let one = seq![item];
    assert(one.drop_last() == Seq::<ItemView<T, E>>::empty());
    assert(absorb_all(g, one.drop_last()) == g);
}

/// Where an operation has come to once all has come up: every call that was
/// wanted before the first failure comes first, then that failure, then the
/// values.
pub open spec fn conclude<T, E>(g: GatheringView<T, E>) -> StepView<Seq<T>, E> {
    if g.needs.len() > 0 {
        StepView::Ask(g.needs)
    } else {
        match g.failure {
            Some(error) => StepView::Failed(error),
            None => StepView::Done(g.values),
        }
    }
}

/// Where a list of things leads.
pub open spec fn gather<T, E>(items: Seq<ItemView<T, E>>) -> StepView<Seq<T>, E> {
    conclude(absorb_all(nothing(), items))
}

/// What a step comes up with: its calls, its result or its failure.
pub open spec fn step_items<T, E>(step: StepView<T, E>) -> Seq<ItemView<T, E>> {
    match step {
        StepView::Ask(calls) => calls.map_values(|call: HostCallView| ItemView::Need(call)),
        StepView::Done(value) => seq![ItemView::Value(value)],
        StepView::Failed(error) => seq![ItemView::Fail(error)],
    }
}

impl<T: DeepView, E: DeepView> Gathering<T, E> {
    /// Nothing has come up yet.
    pub fn new() -> (r: Self)
        ensures
            r.deep_view() == nothing::<T::V, E::V>(),
    {
        let r = Gathering { values: Vec::new(), needs: Vec::new(), failure: None };
        assert(r.values.deep_view() =~= Seq::<T::V>::empty());
        assert(r.needs.deep_view() =~= Seq::<HostCallView>::empty());
        r
    }

    /// A value has come up.
    pub fn value(&mut self, value: T)
        ensures
            final(self).deep_view() == absorb(
                old(self).deep_view(),
                ItemView::Value(value.deep_view()),
            ),
    {
        if self.failure.is_none() {
            let ghost before = self.values.deep_view();
            self.values.push(value);
            assert(self.values.deep_view() =~= before.push(value.deep_view()));
        }
    }

    /// A call is wanted.
    pub fn need(&mut self, call: HostCall)
        ensures
            final(self).deep_view() == absorb(
                old(self).deep_view(),
                ItemView::Need(call.deep_view()),
            ),
    {
        if self.failure.is_none() {
            let ghost before = self.needs.deep_view();
            self.needs.push(call);
            assert(self.needs.deep_view() =~= before.push(call.deep_view()));
        }
    }

    /// A failure has come up.
    pub fn fail(&mut self, error: E)
        ensures
            final(self).deep_view() == absorb(
                old(self).deep_view(),
                ItemView::Fail(error.deep_view()),
            ),
    {
        if self.failure.is_none() {
            self.failure = Some(error);
        }
    }

    /// What a step comes up with has come up, [`step_items`].
    pub fn step(&mut self, step: Step<T, E>)
        ensures
            final(self).deep_view() == absorb_all(
                old(self).deep_view(),
                step_items(step.deep_view()),
            ),
    {
        let ghost start = self.deep_view();
        let ghost items = step_items(step.deep_view());
        match step {
            Step::Ask(calls) => {
                let ghost views = calls.deep_view();
                assert(items.take(0).len() == 0);
                for call in it: calls
                    invariant
                        it.seq() == calls@,
                        views == calls.deep_view(),
                        items == views.map_values(
                            |call: HostCallView| ItemView::<T::V, E::V>::Need(call),
                        ),
                        self.deep_view() == absorb_all(start, items.take(it.index() as int)),
                {
                    proof {
                        let i = it.index() as int;
                        assert(items.take(i + 1).drop_last() == items.take(i));
                        assert(views[i] == call.deep_view());
                    }
                    self.need(call);
                }
                assert(items.take(items.len() as int) == items);
            },
            Step::Done(value) => {
                proof {
                    lemma_absorb_one(start, ItemView::Value(value.deep_view()));
                }
                self.value(value);
            },
            Step::Failed(error) => {
                proof {
                    lemma_absorb_one(start, ItemView::Fail(error.deep_view()));
                }
                self.fail(error);
            },
        }
    }

    /// All has come up, [`conclude`].
    pub fn conclude(self) -> (r: Step<Vec<T>, E>)
        ensures
            r.deep_view() == conclude(self.deep_view()),
    {
        assert(self.needs.deep_view().len() == self.needs@.len());
        if self.needs.len() > 0 {
            Step::Ask(self.needs)
        } else {
            match self.failure {
                Some(error) => Step::Failed(error),
                None => Step::Done(self.values),
            }
        }
    }
}

} // verus!
