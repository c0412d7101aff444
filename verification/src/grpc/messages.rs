//! What the calls carry.

use vstd::prelude::*;

use crate::git::refs::RefType;

verus! {

/// What kind of failure a call ends with.
#[derive(Debug, Clone, Copy, PartialEq, Eq, Structural)]
pub enum Code {
    InvalidArgument,
    NotFound,
    Internal,
}

/// What a mode of an entry means.
#[derive(Debug, Clone, Copy, PartialEq, Eq, Structural)]
pub enum TreeEntryMode {
    Unspecified,
    File,
    Executable,
    Symlink,
    Tree,
    Submodule,
}

/// What an entry is.
#[derive(Debug, Clone, Copy, PartialEq, Eq, Structural)]
pub enum TreeEntryType {
    Blob,
    Tree,
    Commit,
}

/// What became of a file.
#[derive(Debug, Clone, Copy, PartialEq, Eq, Structural)]
pub enum DiffStatus {
    Added,
    Deleted,
    Modified,
    Renamed,
    Copied,
    TypeChanged,
}

/// What a line of a hunk stands for.
#[derive(Debug, Clone, Copy, PartialEq, Eq, Structural)]
pub enum DiffLineType {
    Context,
    Addition,
    Deletion,
}

/// How a call fails.
#[derive(Debug, Clone)]
pub struct Status {
    pub code: Code,
    pub message: String,
}

/// The value of a [`Status`].
pub struct StatusView {
    pub code: Code,
    pub message: Seq<char>,
}

impl DeepView for Status {
    type V = StatusView;

    open spec fn deep_view(&self) -> StatusView {
        StatusView {
            code: self.code,
            message: self.message@,
        }
    }
}

/// A repository by its owner and its name.
#[derive(Debug, Clone)]
pub struct RepositoryPath {
    pub owner: String,
    pub name: String,
}

/// The value of a [`RepositoryPath`].
pub struct RepositoryPathView {
    pub owner: Seq<char>,
    pub name: Seq<char>,
}

impl DeepView for RepositoryPath {
    type V = RepositoryPathView;

    open spec fn deep_view(&self) -> RepositoryPathView {
        RepositoryPathView {
            owner: self.owner@,
            name: self.name@,
        }
    }
}

/// What there is to say of a repository; the commit of HEAD is empty where there is none.
#[derive(Debug, Clone)]
pub struct RepositoryInfo {
    pub repository: Option<RepositoryPath>,
    pub default_branch: String,
    pub size_bytes: u64,
    pub commit_count: u32,
    pub branch_count: u32,
    pub tag_count: u32,
    pub head_oid: String,
}

/// The value of a [`RepositoryInfo`].
pub struct RepositoryInfoView {
    pub repository: Option<RepositoryPathView>,
    pub default_branch: Seq<char>,
    pub size_bytes: u64,
    pub commit_count: u32,
    pub branch_count: u32,
    pub tag_count: u32,
    pub head_oid: Seq<char>,
}

impl DeepView for RepositoryInfo {
    type V = RepositoryInfoView;

    open spec fn deep_view(&self) -> RepositoryInfoView {
        RepositoryInfoView {
            repository: self.repository.deep_view(),
            default_branch: self.default_branch@,
            size_bytes: self.size_bytes,
            commit_count: self.commit_count,
            branch_count: self.branch_count,
            tag_count: self.tag_count,
            head_oid: self.head_oid@,
        }
    }
}

/// A reference.
#[derive(Debug, Clone)]
pub struct Ref {
    pub name: String,
    pub short_name: String,
    pub oid: String,
    pub ref_type: RefType,
    pub is_default: bool,
}

/// The value of a [`Ref`].
pub struct RefView {
    pub name: Seq<char>,
    pub short_name: Seq<char>,
    pub oid: Seq<char>,
    pub ref_type: RefType,
    pub is_default: bool,
}

impl DeepView for Ref {
    type V = RefView;

    open spec fn deep_view(&self) -> RefView {
        RefView {
            name: self.name@,
            short_name: self.short_name@,
            oid: self.oid@,
            ref_type: self.ref_type,
            is_default: self.is_default,
        }
    }
}

/// A person and the time at which they acted.
#[derive(Debug, Clone)]
pub struct GitSignature {
    pub name: String,
    pub email: String,
    pub timestamp: i64,
    pub offset_minutes: i32,
}

/// The value of a [`GitSignature`].
pub struct GitSignatureView {
    pub name: Seq<char>,
    pub email: Seq<char>,
    pub timestamp: i64,
    pub offset_minutes: i32,
}

impl DeepView for GitSignature {
    type V = GitSignatureView;

    open spec fn deep_view(&self) -> GitSignatureView {
        GitSignatureView {
            name: self.name@,
            email: self.email@,
            timestamp: self.timestamp,
            offset_minutes: self.offset_minutes,
        }
    }
}

/// A commit.
#[derive(Debug, Clone)]
pub struct Commit {
    pub oid: String,
    pub message: String,
    pub author: Option<GitSignature>,
    pub committer: Option<GitSignature>,
    pub parent_oids: Vec<String>,
    pub tree_oid: String,
}

/// The value of a [`Commit`].
pub struct CommitView {
    pub oid: Seq<char>,
    pub message: Seq<char>,
    pub author: Option<GitSignatureView>,
    pub committer: Option<GitSignatureView>,
    pub parent_oids: Seq<Seq<char>>,
    pub tree_oid: Seq<char>,
}

impl DeepView for Commit {
    type V = CommitView;

    open spec fn deep_view(&self) -> CommitView {
        CommitView {
            oid: self.oid@,
            message: self.message@,
            author: self.author.deep_view(),
            committer: self.committer.deep_view(),
            parent_oids: self.parent_oids.deep_view(),
            tree_oid: self.tree_oid@,
        }
    }
}

/// An entry of a tree.
#[derive(Debug, Clone)]
pub struct TreeEntry {
    pub name: String,
    pub oid: String,
    pub mode: TreeEntryMode,
    pub entry_type: TreeEntryType,
    pub size: Option<u64>,
}

/// The value of a [`TreeEntry`].
pub struct TreeEntryView {
    pub name: Seq<char>,
    pub oid: Seq<char>,
    pub mode: TreeEntryMode,
    pub entry_type: TreeEntryType,
    pub size: Option<u64>,
}

impl DeepView for TreeEntry {
    type V = TreeEntryView;

    open spec fn deep_view(&self) -> TreeEntryView {
        TreeEntryView {
            name: self.name@,
            oid: self.oid@,
            mode: self.mode,
            entry_type: self.entry_type,
            size: self.size,
        }
    }
}

/// The entries of a tree.
#[derive(Debug, Clone)]
pub struct GetTreeResponse {
    pub tree_oid: String,
    pub entries: Vec<TreeEntry>,
}

/// The value of a [`GetTreeResponse`].
pub struct GetTreeResponseView {
    pub tree_oid: Seq<char>,
    pub entries: Seq<TreeEntryView>,
}

impl DeepView for GetTreeResponse {
    type V = GetTreeResponseView;

    open spec fn deep_view(&self) -> GetTreeResponseView {
        GetTreeResponseView {
            tree_oid: self.tree_oid@,
            entries: self.entries.deep_view(),
        }
    }
}

/// A part of a file.
#[derive(Debug, Clone)]
pub struct BlobChunk {
    pub data: Vec<u8>,
    pub is_last: bool,
}

/// The value of a [`BlobChunk`].
pub struct BlobChunkView {
    pub data: Seq<u8>,
    pub is_last: bool,
}

impl DeepView for BlobChunk {
    type V = BlobChunkView;

    open spec fn deep_view(&self) -> BlobChunkView {
        BlobChunkView {
            data: self.data@,
            is_last: self.is_last,
        }
    }
}

/// What there is to say of a file.
#[derive(Debug, Clone)]
pub struct BlobInfo {
    pub oid: String,
    pub size: u64,
    pub is_binary: bool,
    pub mime_type: Option<String>,
}

/// The value of a [`BlobInfo`].
pub struct BlobInfoView {
    pub oid: Seq<char>,
    pub size: u64,
    pub is_binary: bool,
    pub mime_type: Option<Seq<char>>,
}

impl DeepView for BlobInfo {
    type V = BlobInfoView;

    open spec fn deep_view(&self) -> BlobInfoView {
        BlobInfoView {
            oid: self.oid@,
            size: self.size,
            is_binary: self.is_binary,
            mime_type: self.mime_type.deep_view(),
        }
    }
}

/// A file that differs, by the number of lines that do.
#[derive(Debug, Clone)]
pub struct DiffEntry {
    pub path: String,
    pub status: DiffStatus,
    pub old_path: Option<String>,
    pub old_oid: String,
    pub new_oid: String,
    pub additions: u32,
    pub deletions: u32,
}

/// The value of a [`DiffEntry`].
pub struct DiffEntryView {
    pub path: Seq<char>,
    pub status: DiffStatus,
    pub old_path: Option<Seq<char>>,
    pub old_oid: Seq<char>,
    pub new_oid: Seq<char>,
    pub additions: u32,
    pub deletions: u32,
}

impl DeepView for DiffEntry {
    type V = DiffEntryView;

    open spec fn deep_view(&self) -> DiffEntryView {
        DiffEntryView {
            path: self.path@,
            status: self.status,
            old_path: self.old_path.deep_view(),
            old_oid: self.old_oid@,
            new_oid: self.new_oid@,
            additions: self.additions,
            deletions: self.deletions,
        }
    }
}

/// A line of a hunk.
#[derive(Debug, Clone)]
pub struct DiffLine {
    pub line_type: DiffLineType,
    pub content: String,
    pub old_line_number: Option<i32>,
    pub new_line_number: Option<i32>,
}

/// The value of a [`DiffLine`].
pub struct DiffLineView {
    pub line_type: DiffLineType,
    pub content: Seq<char>,
    pub old_line_number: Option<i32>,
    pub new_line_number: Option<i32>,
}

impl DeepView for DiffLine {
    type V = DiffLineView;

    open spec fn deep_view(&self) -> DiffLineView {
        DiffLineView {
            line_type: self.line_type,
            content: self.content@,
            old_line_number: self.old_line_number,
            new_line_number: self.new_line_number,
        }
    }
}

/// A run of changed lines with those around it.
#[derive(Debug, Clone)]
pub struct DiffHunk {
    pub old_start: i32,
    pub old_lines: i32,
    pub new_start: i32,
    pub new_lines: i32,
    pub header: String,
    pub lines: Vec<DiffLine>,
}

/// The value of a [`DiffHunk`].
pub struct DiffHunkView {
    pub old_start: i32,
    pub old_lines: i32,
    pub new_start: i32,
    pub new_lines: i32,
    pub header: Seq<char>,
    pub lines: Seq<DiffLineView>,
}

impl DeepView for DiffHunk {
    type V = DiffHunkView;

    open spec fn deep_view(&self) -> DiffHunkView {
        DiffHunkView {
            old_start: self.old_start,
            old_lines: self.old_lines,
            new_start: self.new_start,
            new_lines: self.new_lines,
            header: self.header@,
            lines: self.lines.deep_view(),
        }
    }
}

/// A file that differs, by the lines that do.
#[derive(Debug, Clone)]
pub struct FileDiff {
    pub path: String,
    pub status: DiffStatus,
    pub hunks: Vec<DiffHunk>,
    pub is_binary: bool,
}

/// The value of a [`FileDiff`].
pub struct FileDiffView {
    pub path: Seq<char>,
    pub status: DiffStatus,
    pub hunks: Seq<DiffHunkView>,
    pub is_binary: bool,
}

impl DeepView for FileDiff {
    type V = FileDiffView;

    open spec fn deep_view(&self) -> FileDiffView {
        FileDiffView {
            path: self.path@,
            status: self.status,
            hunks: self.hunks.deep_view(),
            is_binary: self.is_binary,
        }
    }
}

/// A path that both sides changed; an object is empty where there is none.
#[derive(Debug, Clone)]
pub struct ConflictInfo {
    pub path: String,
    pub base_oid: String,
    pub ours_oid: String,
    pub theirs_oid: String,
}

/// The value of a [`ConflictInfo`].
pub struct ConflictInfoView {
    pub path: Seq<char>,
    pub base_oid: Seq<char>,
    pub ours_oid: Seq<char>,
    pub theirs_oid: Seq<char>,
}

impl DeepView for ConflictInfo {
    type V = ConflictInfoView;

    open spec fn deep_view(&self) -> ConflictInfoView {
        ConflictInfoView {
            path: self.path@,
            base_oid: self.base_oid@,
            ours_oid: self.ours_oid@,
            theirs_oid: self.theirs_oid@,
        }
    }
}

/// What a merge came to.
#[derive(Debug, Clone)]
pub struct MergeResponse {
    pub success: bool,
    pub merge_commit_oid: Option<String>,
    pub conflicts: Vec<ConflictInfo>,
}

/// The value of a [`MergeResponse`].
pub struct MergeResponseView {
    pub success: bool,
    pub merge_commit_oid: Option<Seq<char>>,
    pub conflicts: Seq<ConflictInfoView>,
}

impl DeepView for MergeResponse {
    type V = MergeResponseView;

    open spec fn deep_view(&self) -> MergeResponseView {
        MergeResponseView {
            success: self.success,
            merge_commit_oid: self.merge_commit_oid.deep_view(),
            conflicts: self.conflicts.deep_view(),
        }
    }
}

/// What a rebase came to.
#[derive(Debug, Clone)]
pub struct RebaseResponse {
    pub success: bool,
    pub rewritten_commits: Vec<String>,
    pub conflicts: Vec<ConflictInfo>,
}

/// The value of a [`RebaseResponse`].
pub struct RebaseResponseView {
    pub success: bool,
    pub rewritten_commits: Seq<Seq<char>>,
    pub conflicts: Seq<ConflictInfoView>,
}

impl DeepView for RebaseResponse {
    type V = RebaseResponseView;

    open spec fn deep_view(&self) -> RebaseResponseView {
        RebaseResponseView {
            success: self.success,
            rewritten_commits: self.rewritten_commits.deep_view(),
            conflicts: self.conflicts.deep_view(),
        }
    }
}

/// What cherry-picks came to.
#[derive(Debug, Clone)]
pub struct CherryPickResponse {
    pub success: bool,
    pub new_commit_oids: Vec<String>,
    pub conflicts: Vec<ConflictInfo>,
}

/// The value of a [`CherryPickResponse`].
pub struct CherryPickResponseView {
    pub success: bool,
    pub new_commit_oids: Seq<Seq<char>>,
    pub conflicts: Seq<ConflictInfoView>,
}

impl DeepView for CherryPickResponse {
    type V = CherryPickResponseView;

    open spec fn deep_view(&self) -> CherryPickResponseView {
        CherryPickResponseView {
            success: self.success,
            new_commit_oids: self.new_commit_oids.deep_view(),
            conflicts: self.conflicts.deep_view(),
        }
    }
}

} // verus!
