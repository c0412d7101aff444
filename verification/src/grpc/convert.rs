//! From what operations give to what the calls carry.

use vstd::prelude::*;

use super::messages::{
    BlobChunk, BlobChunkView, Code, Commit, CommitView, ConflictInfo, ConflictInfoView, DiffEntry,
    DiffEntryView, DiffHunk, DiffHunkView, DiffLine, DiffLineType, DiffLineView, DiffStatus,
    FileDiff, FileDiffView, GitSignature, GitSignatureView, Ref, RefView, RepositoryInfo,
    RepositoryInfoView, RepositoryPath, RepositoryPathView, Status, StatusView, TreeEntry,
    TreeEntryMode, TreeEntryType, TreeEntryView,
};
use crate::git::commits::{CommitInfo, CommitInfoView, GitActor, GitActorView};
use crate::git::diff::{self, FileStatus, LineType};
use crate::git::hunks;
use crate::git::operations;
use crate::git::refs::{RefInfo, RefInfoView};
use crate::git::repository;
use crate::git::trees::{self, EntryType};
use crate::git::{self, GitError, GitErrorView};
use crate::host::{Step, StepView};

verus! {

/// A failure with its words.
pub open spec fn status(code: Code, message: Seq<char>) -> StatusView {
    StatusView { code, message }
}

/// A step whose failures are told under one code.
pub open spec fn as_status<T>(step: StepView<T, GitErrorView>, code: Code) -> StepView<
    T,
    StatusView,
> {
    match step {
        StepView::Ask(calls) => StepView::Ask(calls),
        StepView::Done(value) => StepView::Done(value),
        StepView::Failed(error) => StepView::Failed(status(code, git::error_message(error))),
    }
}

/// A failure with its words, [`status`].
pub fn make_status(code: Code, message: &str) -> (r: Status)
    ensures
        r.deep_view() == status(code, message@),
{
    Status { code, message: message.to_owned() }
}

/// A step whose failures are told under one code, [`as_status`].
pub fn with_code<T: DeepView>(step: Step<T, GitError>, code: Code) -> (r: Step<T, Status>)
    ensures
        r.deep_view() == as_status(step.deep_view(), code),
{
    match step {
        Step::Ask(calls) => Step::Ask(calls),
        Step::Done(value) => Step::Done(value),
        Step::Failed(error) => Step::Failed(Status { code, message: error.message() }),
    }
}

/// An empty text stands for none.
pub open spec fn optional(s: Seq<char>) -> Option<Seq<char>> {
    if s.len() == 0 {
        None
    } else {
        Some(s)
    }
}

/// An empty text stands for none, [`optional`].
pub fn to_optional(s: &str) -> (r: Option<&str>)
    ensures
        r.deep_view() == optional(s@),
{
    if s.is_empty() {
        None
    } else {
        Some(s)
    }
}

/// Zero stands for none.
pub open spec fn optional_number(n: u32) -> Option<u32> {
    if n == 0 {
        None
    } else {
        Some(n)
    }
}

/// Zero stands for none, [`optional_number`].
pub fn to_optional_number(n: u32) -> (r: Option<u32>)
    ensures
        r == optional_number(n),
{
    if n == 0 {
        None
    } else {
        Some(n)
    }
}

/// No text is told as an empty one.
pub open spec fn or_empty(s: Option<Seq<char>>) -> Seq<char> {
    match s {
        Some(text) => text,
        None => Seq::empty(),
    }
}

/// No text is told as an empty one, [`or_empty`].
pub fn to_text(s: Option<String>) -> (r: String)
    ensures
        r@ == or_empty(s.deep_view()),
{
    match s {
        Some(text) => text,
        None => String::new(),
    }
}

/// What a number of 32 bits is when its highest bit counts as its sign.
pub open spec fn signed(n: u32) -> i32 {
    if n < 0x8000_0000 {
        n as i32
    } else {
        (n - 0x1_0000_0000) as i32
    }
}

/// What a number of 32 bits is when its highest bit counts as its sign,
/// [`signed`].
pub fn to_signed(n: u32) -> (r: i32)
    ensures
        r == signed(n),
{
    if n < 0x8000_0000 {
        n as i32
    } else {
        (n as i64 - 0x1_0000_0000) as i32
    }
}

/// What a mode of an entry means.
pub open spec fn mode_message(mode: u32) -> TreeEntryMode {
    if mode == 0o100644 {
        TreeEntryMode::File
    } else if mode == 0o100755 {
        TreeEntryMode::Executable
    } else if mode == 0o120000 {
        TreeEntryMode::Symlink
    } else if mode == 0o040000 {
        TreeEntryMode::Tree
    } else if mode == 0o160000 {
        TreeEntryMode::Submodule
    } else {
        TreeEntryMode::Unspecified
    }
}

/// What a mode of an entry means, [`mode_message`].
pub fn entry_mode_to_proto(mode: u32) -> (r: TreeEntryMode)
    ensures
        r == mode_message(mode),
{
    match mode {
        0o100644 => TreeEntryMode::File,
        0o100755 => TreeEntryMode::Executable,
        0o120000 => TreeEntryMode::Symlink,
        0o040000 => TreeEntryMode::Tree,
        0o160000 => TreeEntryMode::Submodule,
        _ => TreeEntryMode::Unspecified,
    }
}

/// What an entry is; a link is told as a file.
pub open spec fn type_message(entry_type: EntryType) -> TreeEntryType {
    match entry_type {
        EntryType::Blob | EntryType::Link => TreeEntryType::Blob,
        EntryType::Tree => TreeEntryType::Tree,
        EntryType::Commit => TreeEntryType::Commit,
    }
}

/// What an entry is, [`type_message`].
pub fn entry_type_to_proto(entry_type: EntryType) -> (r: TreeEntryType)
    ensures
        r == type_message(entry_type),
{
    match entry_type {
        EntryType::Blob | EntryType::Link => TreeEntryType::Blob,
        EntryType::Tree => TreeEntryType::Tree,
        EntryType::Commit => TreeEntryType::Commit,
    }
}

/// What became of a file.
pub open spec fn status_message(status: FileStatus) -> DiffStatus {
    match status {
        FileStatus::Added => DiffStatus::Added,
        FileStatus::Deleted => DiffStatus::Deleted,
        FileStatus::Modified => DiffStatus::Modified,
        FileStatus::Renamed => DiffStatus::Renamed,
        FileStatus::Copied => DiffStatus::Copied,
        FileStatus::TypeChanged => DiffStatus::TypeChanged,
    }
}

/// What became of a file, [`status_message`].
pub fn file_status_to_proto(status: FileStatus) -> (r: DiffStatus)
    ensures
        r == status_message(status),
{
    match status {
        FileStatus::Added => DiffStatus::Added,
        FileStatus::Deleted => DiffStatus::Deleted,
        FileStatus::Modified => DiffStatus::Modified,
        FileStatus::Renamed => DiffStatus::Renamed,
        FileStatus::Copied => DiffStatus::Copied,
        FileStatus::TypeChanged => DiffStatus::TypeChanged,
    }
}

/// What a line stands for.
pub open spec fn line_message(line_type: LineType) -> DiffLineType {
    match line_type {
        LineType::Context => DiffLineType::Context,
        LineType::Addition => DiffLineType::Addition,
        LineType::Deletion => DiffLineType::Deletion,
    }
}

/// What a line stands for, [`line_message`].
pub fn line_type_to_proto(line_type: LineType) -> (r: DiffLineType)
    ensures
        r == line_message(line_type),
{
    match line_type {
        LineType::Context => DiffLineType::Context,
        LineType::Addition => DiffLineType::Addition,
        LineType::Deletion => DiffLineType::Deletion,
    }
}

/// A person as the calls carry them.
pub open spec fn signature_message(actor: GitActorView) -> GitSignatureView {
    GitSignatureView {
        name: actor.name,
        email: actor.email,
        timestamp: actor.timestamp,
        offset_minutes: actor.offset_minutes,
    }
}

/// A person as the calls carry them, [`signature_message`].
fn signature_to_proto(actor: GitActor) -> (r: GitSignature)
    ensures
        r.deep_view() == signature_message(actor.deep_view()),
{
    GitSignature {
        name: actor.name,
        email: actor.email,
        timestamp: actor.timestamp,
        offset_minutes: actor.offset_minutes,
    }
}

/// A commit as the calls carry it.
pub open spec fn commit_message(commit: CommitInfoView) -> CommitView {
    CommitView {
        oid: commit.oid,
        message: commit.message,
        author: Some(signature_message(commit.author)),
        committer: Some(signature_message(commit.committer)),
        parent_oids: commit.parent_oids,
        tree_oid: commit.tree_oid,
    }
}

/// A commit as the calls carry it, [`commit_message`].
pub fn commit_to_proto(commit: CommitInfo) -> (r: Commit)
    ensures
        r.deep_view() == commit_message(commit.deep_view()),
{
    Commit {
        oid: commit.oid,
        message: commit.message,
        author: Some(signature_to_proto(commit.author)),
        committer: Some(signature_to_proto(commit.committer)),
        parent_oids: commit.parent_oids,
        tree_oid: commit.tree_oid,
    }
}

/// Commits as the calls carry them.
pub fn commits_to_proto(commits: Vec<CommitInfo>) -> (r: Vec<Commit>)
    ensures
        r.deep_view() == commits.deep_view().map_values(|c: CommitInfoView| commit_message(c)),
{
    let ghost all = commits.deep_view();
    let mut out: Vec<Commit> = Vec::new();
    for commit in it: commits
        invariant
            it.seq() == commits@,
            all == commits.deep_view(),
            out@.len() == it.index(),
            forall|j: int|
                0 <= j < out@.len() ==> (#[trigger] out@[j]).deep_view() == commit_message(all[j]),
    {
        assert(all[it.index() as int] == commit.deep_view());
        out.push(commit_to_proto(commit));
    }
    assert(out.deep_view() =~= all.map_values(|c: CommitInfoView| commit_message(c)));
    out
}

/// A reference as the calls carry it.
pub open spec fn ref_message(info: RefInfoView) -> RefView {
    RefView {
        name: info.name,
        short_name: info.short_name,
        oid: info.oid,
        ref_type: info.ref_type,
        is_default: info.is_default,
    }
}

/// A reference as the calls carry it, [`ref_message`].
pub fn ref_to_proto(info: RefInfo) -> (r: Ref)
    ensures
        r.deep_view() == ref_message(info.deep_view()),
{
    Ref {
        name: info.name,
        short_name: info.short_name,
        oid: info.oid,
        ref_type: info.ref_type,
        is_default: info.is_default,
    }
}

/// References as the calls carry them.
pub fn refs_to_proto(infos: Vec<RefInfo>) -> (r: Vec<Ref>)
    ensures
        r.deep_view() == infos.deep_view().map_values(|i: RefInfoView| ref_message(i)),
{
    let ghost all = infos.deep_view();
    let mut out: Vec<Ref> = Vec::new();
    for info in it: infos
        invariant
            it.seq() == infos@,
            all == infos.deep_view(),
            out@.len() == it.index(),
            forall|j: int|
                0 <= j < out@.len() ==> (#[trigger] out@[j]).deep_view() == ref_message(all[j]),
    {
        assert(all[it.index() as int] == info.deep_view());
        out.push(ref_to_proto(info));
    }
    assert(out.deep_view() =~= all.map_values(|i: RefInfoView| ref_message(i)));
    out
}

/// What there is to say of a repository, as the calls carry it.
pub open spec fn info_message(info: repository::RepositoryInfoView) -> RepositoryInfoView {
    RepositoryInfoView {
        repository: Some(RepositoryPathView { owner: info.owner, name: info.name }),
        default_branch: info.default_branch,
        size_bytes: info.size_bytes,
        commit_count: info.commit_count,
        branch_count: info.branch_count,
        tag_count: info.tag_count,
        head_oid: or_empty(info.head_oid),
    }
}

/// What there is to say of a repository, [`info_message`].
pub fn info_to_proto(info: repository::RepositoryInfo) -> (r: RepositoryInfo)
    ensures
        r.deep_view() == info_message(info.deep_view()),
{
    RepositoryInfo {
        repository: Some(RepositoryPath { owner: info.owner, name: info.name }),
        default_branch: info.default_branch,
        size_bytes: info.size_bytes,
        commit_count: info.commit_count,
        branch_count: info.branch_count,
        tag_count: info.tag_count,
        head_oid: to_text(info.head_oid),
    }
}

/// An entry of a tree as the calls carry it.
pub open spec fn entry_message(entry: trees::TreeEntryView) -> TreeEntryView {
    TreeEntryView {
        name: entry.name,
        oid: entry.oid,
        mode: mode_message(entry.mode),
        entry_type: type_message(entry.entry_type),
        size: entry.size,
    }
}

/// Entries of a tree as the calls carry them.
pub fn entries_to_proto(entries: Vec<trees::TreeEntry>) -> (r: Vec<TreeEntry>)
    ensures
        r.deep_view() == entries.deep_view().map_values(
            |e: trees::TreeEntryView| entry_message(e),
        ),
{
    let ghost all = entries.deep_view();
    let mut out: Vec<TreeEntry> = Vec::new();
    for entry in it: entries
        invariant
            it.seq() == entries@,
            all == entries.deep_view(),
            out@.len() == it.index(),
            forall|j: int|
                0 <= j < out@.len() ==> (#[trigger] out@[j]).deep_view() == entry_message(all[j]),
    {
        assert(all[it.index() as int] == entry.deep_view());
        out.push(
            TreeEntry {
                name: entry.name,
                oid: entry.oid,
                mode: entry_mode_to_proto(entry.mode),
                entry_type: entry_type_to_proto(entry.entry_type),
                size: entry.size,
            },
        );
    }
    assert(out.deep_view() =~= all.map_values(|e: trees::TreeEntryView| entry_message(e)));
    out
}

/// A conflict as the calls carry it.
pub open spec fn conflict_message(conflict: operations::ConflictInfoView) -> ConflictInfoView {
    ConflictInfoView {
        path: conflict.path,
        base_oid: or_empty(conflict.ancestor_oid),
        ours_oid: or_empty(conflict.ours_oid),
        theirs_oid: or_empty(conflict.theirs_oid),
    }
}

/// Conflicts as the calls carry them.
pub open spec fn conflict_messages(conflicts: Seq<operations::ConflictInfoView>) -> Seq<
    ConflictInfoView,
> {
    conflicts.map_values(|c: operations::ConflictInfoView| conflict_message(c))
}

/// Conflicts as the calls carry them, [`conflict_messages`].
pub fn conflicts_to_proto(conflicts: Vec<operations::ConflictInfo>) -> (r: Vec<ConflictInfo>)
    ensures
        r.deep_view() == conflict_messages(conflicts.deep_view()),
{
    let ghost all = conflicts.deep_view();
    let mut out: Vec<ConflictInfo> = Vec::new();
    for conflict in it: conflicts
        invariant
            it.seq() == conflicts@,
            all == conflicts.deep_view(),
            out@.len() == it.index(),
            forall|j: int|
                0 <= j < out@.len() ==> (#[trigger] out@[j]).deep_view() == conflict_message(
                    all[j],
                ),
    {
        assert(all[it.index() as int] == conflict.deep_view());
        out.push(
            ConflictInfo {
                path: conflict.path,
                base_oid: to_text(conflict.ancestor_oid),
                ours_oid: to_text(conflict.ours_oid),
                theirs_oid: to_text(conflict.theirs_oid),
            },
        );
    }
    assert(out.deep_view() =~= conflict_messages(all));
    out
}

/// A file that differs, by the number of lines that do.
pub open spec fn diff_message(file: diff::FileDiffView) -> DiffEntryView {
    DiffEntryView {
        path: file.path,
        status: status_message(file.status),
        old_path: file.old_path,
        old_oid: or_empty(file.old_oid),
        new_oid: or_empty(file.new_oid),
        additions: hunks::low32(hunks::total_type(file.hunks, LineType::Addition) as int),
        deletions: hunks::low32(hunks::total_type(file.hunks, LineType::Deletion) as int),
    }
}

/// Files that differ, by the number of lines that do.
pub fn diffs_to_proto(files: Vec<diff::FileDiff>) -> (r: Vec<DiffEntry>)
    ensures
        r.deep_view() == files.deep_view().map_values(|f: diff::FileDiffView| diff_message(f)),
{
    let ghost all = files.deep_view();
    let mut out: Vec<DiffEntry> = Vec::new();
    for file in it: files
        invariant
            it.seq() == files@,
            all == files.deep_view(),
            out@.len() == it.index(),
            forall|j: int|
                0 <= j < out@.len() ==> (#[trigger] out@[j]).deep_view() == diff_message(all[j]),
    {
        assert(all[it.index() as int] == file.deep_view());
        let additions = hunks::count_lines(&file.hunks, LineType::Addition);
        let deletions = hunks::count_lines(&file.hunks, LineType::Deletion);
        out.push(
            DiffEntry {
                path: file.path,
                status: file_status_to_proto(file.status),
                old_path: file.old_path,
                old_oid: to_text(file.old_oid),
                new_oid: to_text(file.new_oid),
                additions,
                deletions,
            },
        );
    }
    assert(out.deep_view() =~= all.map_values(|f: diff::FileDiffView| diff_message(f)));
    out
}

/// A line number as the calls carry it.
pub open spec fn number_message(n: Option<u32>) -> Option<i32> {
    match n {
        Some(number) => Some(signed(number)),
        None => None,
    }
}

/// A line number as the calls carry it, [`number_message`].
fn number_to_proto(n: Option<u32>) -> (r: Option<i32>)
    ensures
        r == number_message(n),
{
    match n {
        Some(number) => Some(to_signed(number)),
        None => None,
    }
}

/// A line of a hunk as the calls carry it.
pub open spec fn diff_line_message(line: diff::DiffLineView) -> DiffLineView {
    DiffLineView {
        line_type: line_message(line.line_type),
        content: line.content,
        old_line_number: number_message(line.old_line_no),
        new_line_number: number_message(line.new_line_no),
    }
}

/// Lines of a hunk as the calls carry them.
fn lines_to_proto(lines: Vec<diff::DiffLine>) -> (r: Vec<DiffLine>)
    ensures
        r.deep_view() == lines.deep_view().map_values(|l: diff::DiffLineView| diff_line_message(l)),
{
    let ghost all = lines.deep_view();
    let mut out: Vec<DiffLine> = Vec::new();
    for line in it: lines
        invariant
            it.seq() == lines@,
            all == lines.deep_view(),
            out@.len() == it.index(),
            forall|j: int|
                0 <= j < out@.len() ==> (#[trigger] out@[j]).deep_view() == diff_line_message(
                    all[j],
                ),
    {
        assert(all[it.index() as int] == line.deep_view());
        out.push(
            DiffLine {
                line_type: line_type_to_proto(line.line_type),
                content: line.content,
                old_line_number: number_to_proto(line.old_line_no),
                new_line_number: number_to_proto(line.new_line_no),
            },
        );
    }
    assert(out.deep_view() =~= all.map_values(|l: diff::DiffLineView| diff_line_message(l)));
    out
}

/// A hunk as the calls carry it.
pub open spec fn hunk_message(hunk: diff::DiffHunkView) -> DiffHunkView {
    DiffHunkView {
        old_start: signed(hunk.old_start),
        old_lines: signed(hunk.old_lines),
        new_start: signed(hunk.new_start),
        new_lines: signed(hunk.new_lines),
        header: hunk.header,
        lines: hunk.lines.map_values(|l: diff::DiffLineView| diff_line_message(l)),
    }
}

/// Hunks as the calls carry them.
fn hunks_to_proto(hunks: Vec<diff::DiffHunk>) -> (r: Vec<DiffHunk>)
    ensures
        r.deep_view() == hunks.deep_view().map_values(|h: diff::DiffHunkView| hunk_message(h)),
{
    let ghost all = hunks.deep_view();
    let mut out: Vec<DiffHunk> = Vec::new();
    for hunk in it: hunks
        invariant
            it.seq() == hunks@,
            all == hunks.deep_view(),
            out@.len() == it.index(),
            forall|j: int|
                0 <= j < out@.len() ==> (#[trigger] out@[j]).deep_view() == hunk_message(all[j]),
    {
        assert(all[it.index() as int] == hunk.deep_view());
        out.push(
            DiffHunk {
                old_start: to_signed(hunk.old_start),
                old_lines: to_signed(hunk.old_lines),
                new_start: to_signed(hunk.new_start),
                new_lines: to_signed(hunk.new_lines),
                header: hunk.header,
                lines: lines_to_proto(hunk.lines),
            },
        );
    }
    assert(out.deep_view() =~= all.map_values(|h: diff::DiffHunkView| hunk_message(h)));
    out
}

/// A file that differs, by the lines that do.
pub open spec fn file_message(file: diff::FileDiffView) -> FileDiffView {
    FileDiffView {
        path: file.path,
        status: status_message(file.status),
        hunks: file.hunks.map_values(|h: diff::DiffHunkView| hunk_message(h)),
        is_binary: file.is_binary,
    }
}

/// A file that differs, by the lines that do, [`file_message`].
pub fn file_to_proto(file: diff::FileDiff) -> (r: FileDiff)
    ensures
        r.deep_view() == file_message(file.deep_view()),
{
    FileDiff {
        path: file.path,
        status: file_status_to_proto(file.status),
        hunks: hunks_to_proto(file.hunks),
        is_binary: file.is_binary,
    }
}

/// The number of bytes in a part of a file, unless it is the last.
pub const CHUNK_SIZE: usize = 65536;

/// A file in parts: each but the last of [`CHUNK_SIZE`] bytes, the last marked
/// as such. An empty file has none.
pub open spec fn chunks(data: Seq<u8>) -> Seq<BlobChunkView>
    decreases data.len(),
{
    if data.len() == 0 {
        Seq::empty()
    } else if data.len() <= CHUNK_SIZE {
        seq![BlobChunkView { data, is_last: true }]
    } else {
        seq![BlobChunkView { data: data.take(CHUNK_SIZE as int), is_last: false }] + chunks(
            data.skip(CHUNK_SIZE as int),
        )
    }
}

/// The bytes of a list from one position to another.
fn copy_range(data: &Vec<u8>, from: usize, to: usize) -> (r: Vec<u8>)
    requires
        from <= to <= data@.len(),
    ensures
        r@ == data@.subrange(from as int, to as int),
{
    let mut out: Vec<u8> = Vec::new();
    let mut i: usize = from;
    while i < to
        invariant
            from <= i <= to <= data@.len(),
            out@ == data@.subrange(from as int, i as int),
        decreases to - i,
    {
        out.push(data[i]);
        i = i + 1;
        assert(out@ == data@.subrange(from as int, i as int));
    }
    out
}

/// A file in parts, [`chunks`].
pub fn split_blob(data: &Vec<u8>) -> (r: Vec<BlobChunk>)
    ensures
        r.deep_view() == chunks(data@),
{
    let mut out: Vec<BlobChunk> = Vec::new();
    let mut from: usize = 0;
    assert(data@.skip(0) == data@);
    assert(out.deep_view() + chunks(data@) =~= chunks(data@));
    while data.len() - from > CHUNK_SIZE
        invariant
            from <= data@.len(),
            out.deep_view() + chunks(data@.skip(from as int)) == chunks(data@),
        decreases data.len() - from,
    {
        let ghost before = out.deep_view();
        let ghost rest = data@.skip(from as int);
        let to: usize = from + CHUNK_SIZE;
        let chunk = BlobChunk { data: copy_range(data, from, to), is_last: false };
        proof {
            assert(chunk.data@ == rest.take(CHUNK_SIZE as int));
            assert(rest.skip(CHUNK_SIZE as int) == data@.skip(to as int));
        }
        out.push(chunk);
        proof {
            assert(out.deep_view() =~= before.push(chunk.deep_view()));
            assert(before.push(chunk.deep_view()) + chunks(data@.skip(to as int)) == before
                + chunks(rest));
        }
        from = to;
    }
    if from < data.len() {
        let ghost before = out.deep_view();
        let ghost rest = data@.skip(from as int);
        let chunk = BlobChunk { data: copy_range(data, from, data.len()), is_last: true };
        assert(chunk.data@ == rest);
        out.push(chunk);
        assert(out.deep_view() =~= before + seq![chunk.deep_view()]);
    } else {
        assert(out.deep_view() + Seq::<BlobChunkView>::empty() == out.deep_view());
    }
    out
}

/// The bytes of parts, one after the other.
pub open spec fn joined(parts: Seq<BlobChunkView>) -> Seq<u8>
    decreases parts.len(),
{
    if parts.len() == 0 {
        Seq::empty()
    } else {
        parts[0].data + joined(parts.skip(1))
    }
}

/// The parts of a file make up that file.
pub proof fn law_chunks_make_up_the_file(data: Seq<u8>)
    ensures
        joined(chunks(data)) == data,
    decreases data.len(),
{
    let parts = chunks(data);
    if data.len() == 0 {
    } else if data.len() <= CHUNK_SIZE {
        assert(parts.skip(1) == Seq::<BlobChunkView>::empty());
        assert(joined(parts.skip(1)) == Seq::<u8>::empty());
        assert(data + Seq::<u8>::empty() == data);
    } else {
        law_chunks_make_up_the_file(data.skip(CHUNK_SIZE as int));
        assert(parts.skip(1) == chunks(data.skip(CHUNK_SIZE as int)));
        assert(data.take(CHUNK_SIZE as int) + data.skip(CHUNK_SIZE as int) == data);
    }
}

/// Of the parts of a file the last one is marked, and only that one; none is
/// empty or larger than [`CHUNK_SIZE`].
pub proof fn law_last_chunk_is_marked(data: Seq<u8>)
    ensures
        forall|i: int|
            0 <= i < chunks(data).len() ==> {
                &&& (#[trigger] chunks(data)[i]).is_last == (i == chunks(data).len() - 1)
                &&& 0 < chunks(data)[i].data.len() <= CHUNK_SIZE
            },
    decreases data.len(),
{
    let parts = chunks(data);
    if data.len() > CHUNK_SIZE {
        let rest = chunks(data.skip(CHUNK_SIZE as int));
        law_last_chunk_is_marked(data.skip(CHUNK_SIZE as int));
        assert(rest.len() > 0);
        assert forall|i: int| 0 <= i < parts.len() implies {
            &&& (#[trigger] parts[i]).is_last == (i == parts.len() - 1)
            &&& 0 < parts[i].data.len() <= CHUNK_SIZE
        } by {
            if i > 0 {
                assert(parts[i] == rest[i - 1]);
            }
        }
    }
}

} // verus!
