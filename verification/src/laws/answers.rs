//! What the calls of the service answer, in terms of what the operations come to.

use vstd::prelude::*;

use super::contents::has_zero;
use super::merging::law_cherry_pick_by_what_is_told;
use super::told::there;
use crate::git::commits::{self, CommitInfoView, GitActorView};
use crate::git::diff::{self, FileStatus};
use crate::git::hunks::{self, LineType};
use crate::git::operations::{self, CherryPickStatus, MergeStatus, RebaseStatus};
use crate::git::refs::{self, RefInfoView, RefType};
use crate::git::repository;
use crate::git::trees::{self, EntryType};
use crate::git::{self, GitErrorView, StorageConfigView};
use crate::grpc::convert;
use crate::grpc::messages::{
    BlobChunkView, CherryPickResponseView, Code, CommitView, ConflictInfoView, DiffEntryView,
    DiffHunkView, DiffLineType, DiffLineView, DiffStatus, FileDiffView, GitSignatureView, RefView,
    RepositoryPathView, StatusView, TreeEntryMode, TreeEntryType, TreeEntryView,
};
use crate::grpc::pack::{self, PackInitView, PackRequestView};
use crate::grpc::service;
use crate::host::{HostCallView, ReplyView, StepView};
use crate::server;

verus! {

/// Whether an answer passes on what an operation comes to: the same questions, a failure
/// with a code and its words, and a result that is shown as told.
pub open spec fn passes_on<T, U>(
    step: StepView<T, GitErrorView>,
    code: Code,
    answer: StepView<U, StatusView>,
    shown: spec_fn(T, U) -> bool,
) -> bool {
    match step {
        StepView::Ask(calls) => answer == StepView::<U, StatusView>::Ask(calls),
        StepView::Failed(error) => answer == StepView::<U, StatusView>::Failed(
            StatusView { code, message: git::error_message(error) },
        ),
        StepView::Done(value) => answer is Done && shown(value, answer->Done_0),
    }
}

/// Shown as it is.
pub open spec fn same<T>() -> spec_fn(T, T) -> bool {
    |a: T, b: T| a == b
}

/// Each one of a list shown.
pub open spec fn each<T, U>(shown: spec_fn(T, U) -> bool) -> spec_fn(Seq<T>, Seq<U>) -> bool {
    |a: Seq<T>, b: Seq<U>|
        a.len() == b.len() && forall|i: int| 0 <= i < a.len() ==> shown(a[i], #[trigger] b[i])
}

/// A text that is given where it is not empty.
pub open spec fn given(s: Seq<char>) -> Option<Seq<char>> {
    if s.len() > 0 {
        Some(s)
    } else {
        None
    }
}

/// A number that is given where it is not zero.
pub open spec fn given_number(n: u32) -> Option<u32> {
    if n > 0 {
        Some(n)
    } else {
        None
    }
}

/// Whether a text is that which is there, and empty where there is none.
pub open spec fn or_nothing(a: Option<Seq<char>>, b: Seq<char>) -> bool {
    &&& a is Some ==> b == a->0
    &&& a is None ==> b.len() == 0
}

/// Whether an answer shows a signature.
pub open spec fn signature_shown(actor: GitActorView, shown: Option<GitSignatureView>) -> bool {
    &&& shown is Some
    &&& shown->0.name == actor.name
    &&& shown->0.email == actor.email
    &&& shown->0.timestamp == actor.timestamp
    &&& shown->0.offset_minutes == actor.offset_minutes
}

/// Whether an answer shows a commit.
pub open spec fn commit_shown() -> spec_fn(CommitInfoView, CommitView) -> bool {
    |commit: CommitInfoView, shown: CommitView|
        {
            &&& shown.oid == commit.oid
            &&& shown.message == commit.message
            &&& signature_shown(commit.author, shown.author)
            &&& signature_shown(commit.committer, shown.committer)
            &&& shown.parent_oids == commit.parent_oids
            &&& shown.tree_oid == commit.tree_oid
        }
}

/// Whether an answer shows a reference.
pub open spec fn reference_shown() -> spec_fn(RefInfoView, RefView) -> bool {
    |info: RefInfoView, shown: RefView|
        {
            &&& shown.name == info.name
            &&& shown.short_name == info.short_name
            &&& shown.oid == info.oid
            &&& shown.ref_type == info.ref_type
            &&& shown.is_default == info.is_default
        }
}

/// Whether an answer shows an entry: of its mode what that means, and a link as a file.
pub open spec fn entry_shown() -> spec_fn(trees::TreeEntryView, TreeEntryView) -> bool {
    |entry: trees::TreeEntryView, shown: TreeEntryView|
        {
            &&& shown.name == entry.name
            &&& shown.oid == entry.oid
            &&& shown.size == entry.size
            &&& shown.mode == TreeEntryMode::File <==> entry.mode == 0o100644
            &&& shown.mode == TreeEntryMode::Executable <==> entry.mode == 0o100755
            &&& shown.mode == TreeEntryMode::Symlink <==> entry.mode == 0o120000
            &&& shown.mode == TreeEntryMode::Tree <==> entry.mode == 0o040000
            &&& shown.mode == TreeEntryMode::Submodule <==> entry.mode == 0o160000
            &&& shown.entry_type == TreeEntryType::Tree <==> entry.entry_type == EntryType::Tree
            &&& shown.entry_type == TreeEntryType::Commit <==> entry.entry_type
                == EntryType::Commit
            &&& shown.entry_type == TreeEntryType::Blob <==> entry.entry_type == EntryType::Blob
                || entry.entry_type == EntryType::Link
        }
}

/// Whether an answer shows a conflict.
pub open spec fn conflict_shown() -> spec_fn(
    operations::ConflictInfoView,
    ConflictInfoView,
) -> bool {
    |conflict: operations::ConflictInfoView, shown: ConflictInfoView|
        {
            &&& shown.path == conflict.path
            &&& or_nothing(conflict.ancestor_oid, shown.base_oid)
            &&& or_nothing(conflict.ours_oid, shown.ours_oid)
            &&& or_nothing(conflict.theirs_oid, shown.theirs_oid)
        }
}

/// Whether an answer shows what happened to a file.
pub open spec fn status_shown(status: FileStatus, shown: DiffStatus) -> bool {
    &&& shown == DiffStatus::Added <==> status == FileStatus::Added
    &&& shown == DiffStatus::Deleted <==> status == FileStatus::Deleted
    &&& shown == DiffStatus::Modified <==> status == FileStatus::Modified
    &&& shown == DiffStatus::Renamed <==> status == FileStatus::Renamed
    &&& shown == DiffStatus::Copied <==> status == FileStatus::Copied
    &&& shown == DiffStatus::TypeChanged <==> status == FileStatus::TypeChanged
}

/// Whether an answer shows that a file changed, with how many lines were added and
/// deleted.
pub open spec fn change_shown() -> spec_fn(diff::FileDiffView, DiffEntryView) -> bool {
    |file: diff::FileDiffView, shown: DiffEntryView|
        {
            let added = hunks::total_type(file.hunks, LineType::Addition);
            let deleted = hunks::total_type(file.hunks, LineType::Deletion);
            &&& shown.path == file.path
            &&& status_shown(file.status, shown.status)
            &&& shown.old_path == file.old_path
            &&& or_nothing(file.old_oid, shown.old_oid)
            &&& or_nothing(file.new_oid, shown.new_oid)
            &&& added < 0x1_0000_0000 ==> shown.additions == added
            &&& deleted < 0x1_0000_0000 ==> shown.deletions == deleted
        }
}

/// Whether an answer shows a number, where it has room for it.
pub open spec fn number_shown(n: Option<u32>, shown: Option<i32>) -> bool {
    &&& n is Some <==> shown is Some
    &&& n is Some && n->0 <= i32::MAX ==> shown->0 == n->0
}

/// Whether an answer shows a line.
pub open spec fn line_shown(line: diff::DiffLineView, shown: DiffLineView) -> bool {
    &&& shown.content == line.content
    &&& shown.line_type == DiffLineType::Context <==> line.line_type == LineType::Context
    &&& shown.line_type == DiffLineType::Addition <==> line.line_type == LineType::Addition
    &&& shown.line_type == DiffLineType::Deletion <==> line.line_type == LineType::Deletion
    &&& number_shown(line.old_line_no, shown.old_line_number)
    &&& number_shown(line.new_line_no, shown.new_line_number)
}

/// Whether an answer shows a hunk.
pub open spec fn hunk_shown(hunk: diff::DiffHunkView, shown: DiffHunkView) -> bool {
    &&& number_shown(Some(hunk.old_start), Some(shown.old_start))
    &&& number_shown(Some(hunk.old_lines), Some(shown.old_lines))
    &&& number_shown(Some(hunk.new_start), Some(shown.new_start))
    &&& number_shown(Some(hunk.new_lines), Some(shown.new_lines))
    &&& shown.header == hunk.header
    &&& shown.lines.len() == hunk.lines.len()
    &&& forall|i: int|
        0 <= i < hunk.lines.len() ==> line_shown(hunk.lines[i], #[trigger] shown.lines[i])
}

/// Whether an answer shows a file with its hunks.
pub open spec fn file_shown(file: diff::FileDiffView, shown: FileDiffView) -> bool {
    &&& shown.path == file.path
    &&& status_shown(file.status, shown.status)
    &&& shown.is_binary == file.is_binary
    &&& shown.hunks.len() == file.hunks.len()
    &&& forall|i: int|
        0 <= i < file.hunks.len() ==> hunk_shown(file.hunks[i], #[trigger] shown.hunks[i])
}

/// The calls about a repository as a whole pass on what becomes of it; what fails to be
/// described is not found.
pub proof fn law_repository_calls_pass_on(
    k: Seq<(HostCallView, ReplyView)>,
    config: StorageConfigView,
    r: RepositoryPathView,
    branch: Seq<char>,
)
    ensures
        passes_on(
            repository::init(k, config, r.owner, r.name, given(branch)),
            Code::Internal,
            service::init_repository(k, config, Some(r), branch),
            same(),
        ),
        passes_on(
            repository::delete(k, config, r.owner, r.name),
            Code::Internal,
            service::delete_repository(k, config, Some(r)),
            same(),
        ),
        passes_on(
            repository::repository_exists(k, config, r.owner, r.name),
            Code::Internal,
            service::repository_exists(k, config, Some(r)),
            same(),
        ),
        passes_on(
            repository::get_info(k, config, r.owner, r.name),
            Code::NotFound,
            service::get_repository_info(k, config, Some(r)),
            |info: repository::RepositoryInfoView, shown: crate::grpc::messages::RepositoryInfoView|
                {
                    &&& shown.repository == Some(
                        RepositoryPathView { owner: info.owner, name: info.name },
                    )
                    &&& shown.default_branch == info.default_branch
                    &&& shown.size_bytes == info.size_bytes
                    &&& shown.commit_count == info.commit_count
                    &&& shown.branch_count == info.branch_count
                    &&& shown.tag_count == info.tag_count
                    &&& or_nothing(info.head_oid, shown.head_oid)
                },
        ),
{
}

/// The type of reference that a number asks for.
pub open spec fn type_asked(n: i32) -> Option<RefType> {
    match n {
        1 => Some(RefType::Branch),
        2 => Some(RefType::Tag),
        3 => Some(RefType::Remote),
        _ => None,
    }
}

/// The calls about references pass on what becomes of them; what cannot be resolved is
/// not found.
pub proof fn law_reference_calls_pass_on(
    k: Seq<(HostCallView, ReplyView)>,
    config: StorageConfigView,
    r: RepositoryPathView,
    a: Seq<char>,
    b: Seq<char>,
    n: i32,
    force: bool,
)
    ensures
        passes_on(
            refs::list_refs(k, config, r.owner, r.name, type_asked(n), given(a)),
            Code::Internal,
            service::list_refs(k, config, Some(r), n, a),
            each(reference_shown()),
        ),
        passes_on(
            refs::resolve_ref(k, config, r.owner, r.name, a),
            Code::NotFound,
            service::resolve_ref(k, config, Some(r), a),
            same(),
        ),
        passes_on(
            refs::create_branch(k, config, r.owner, r.name, a, b),
            Code::Internal,
            service::create_branch(k, config, Some(r), a, b),
            reference_shown(),
        ),
        passes_on(
            refs::delete_branch(k, config, r.owner, r.name, a, force),
            Code::Internal,
            service::delete_branch(k, config, Some(r), a, force),
            same(),
        ),
        passes_on(
            refs::set_default_branch(k, config, r.owner, r.name, a),
            Code::Internal,
            service::set_default_branch(k, config, Some(r), a),
            |done: (), shown: bool| shown,
        ),
        passes_on(
            refs::create_tag(k, config, r.owner, r.name, a, b),
            Code::Internal,
            service::create_tag(k, config, Some(r), a, b),
            reference_shown(),
        ),
        passes_on(
            refs::delete_tag(k, config, r.owner, r.name, a),
            Code::Internal,
            service::delete_tag(k, config, Some(r), a),
            same(),
        ),
{
    assert(type_asked(n) == service::filter_of(n));
}

/// The calls about commits pass on what is found, every commit of a list in its place; a
/// commit that is not there is not found.
pub proof fn law_commit_calls_pass_on(
    k: Seq<(HostCallView, ReplyView)>,
    config: StorageConfigView,
    r: RepositoryPathView,
    a: Seq<char>,
    limit: u32,
    skip: u32,
    path: Option<Seq<char>>,
)
    ensures
        passes_on(
            commits::get_commit(k, config, r.owner, r.name, a),
            Code::NotFound,
            service::get_commit(k, config, Some(r), a),
            commit_shown(),
        ),
        passes_on(
            commits::get_log(
                k,
                config,
                r.owner,
                r.name,
                a,
                given_number(limit),
                given_number(skip),
                path,
            ),
            Code::Internal,
            service::get_commit_log(k, config, Some(r), a, limit, skip, path),
            each(commit_shown()),
        ),
        passes_on(
            commits::get_ancestors(k, config, r.owner, r.name, a, given_number(limit)),
            Code::Internal,
            service::get_commit_ancestors(k, config, Some(r), a, limit),
            each(commit_shown()),
        ),
{
}

/// The calls about directories and files pass on what is in them: a directory entry by
/// entry and to ten levels where it is asked for whole, and a file in parts.
pub proof fn law_content_calls_pass_on(
    k: Seq<(HostCallView, ReplyView)>,
    config: StorageConfigView,
    r: RepositoryPathView,
    a: Seq<char>,
    path: Seq<char>,
)
    ensures
        passes_on(
            trees::get_tree(k, config, r.owner, r.name, a, given(path)),
            Code::Internal,
            service::get_tree(k, config, Some(r), a, path, false),
            |entries: Seq<trees::TreeEntryView>, shown: crate::grpc::messages::GetTreeResponseView|
                each(entry_shown())(entries, shown.entries),
        ),
        passes_on(
            trees::get_tree_recursive(k, config, r.owner, r.name, a, given(path), Some(10)),
            Code::Internal,
            service::get_tree(k, config, Some(r), a, path, true),
            |entries: Seq<trees::TreeEntryView>, shown: crate::grpc::messages::GetTreeResponseView|
                each(entry_shown())(entries, shown.entries),
        ),
        passes_on(
            trees::get_blob(k, config, r.owner, r.name, a),
            Code::NotFound,
            service::get_blob(k, config, Some(r), a),
            |data: Seq<u8>, shown: Seq<BlobChunkView>| makes_up(shown, data, 0),
        ),
        passes_on(
            trees::get_blob_by_path(k, config, r.owner, r.name, a, path),
            Code::NotFound,
            service::get_blob_info(k, config, Some(r), a, path),
            |data: Seq<u8>, shown: crate::grpc::messages::BlobInfoView|
                {
                    &&& data.len() <= u64::MAX ==> shown.size == data.len()
                    &&& shown.is_binary <==> has_zero(data)
                },
        ),
{
    if let StepView::Done(data) = trees::get_blob(k, config, r.owner, r.name, a) {
        lemma_makes_up(data);
    }
}

/// Whether parts make up contents from a place on: each of 65536 bytes but the last,
/// which is marked and not empty, and each where the one before ends.
pub open spec fn makes_up(parts: Seq<BlobChunkView>, data: Seq<u8>, from: int) -> bool {
    &&& parts.len() == (data.len() - from + 65535) / 65536
    &&& forall|i: int| 0 <= i < parts.len() ==> part_of(data, from + i * 65536, #[trigger] parts[i])
}

/// Whether a part is that of contents at a place.
pub open spec fn part_of(data: Seq<u8>, at: int, part: BlobChunkView) -> bool {
    &&& 0 <= at < data.len()
    &&& part.is_last <==> at + 65536 >= data.len()
    &&& part.is_last ==> part.data == data.skip(at)
    &&& !part.is_last ==> part.data == data.subrange(at, at + 65536)
}

/// Contents are made up by their parts.
proof fn lemma_makes_up(data: Seq<u8>)
    ensures
        makes_up(convert::chunks(data), data, 0),
    decreases data.len(),
{
    let parts = convert::chunks(data);
    if data.len() == 0 {
    } else if data.len() <= 65536 {
        assert(data.skip(0) == data);
        assert(parts.len() == 1);
        assert(part_of(data, 0, parts[0]));
    } else {
        let rest = data.skip(65536);
        let others = convert::chunks(rest);
        lemma_makes_up(rest);
        assert(parts.len() == others.len() + 1);
        assert forall|i: int| 0 <= i < parts.len() implies part_of(
            data,
            i * 65536,
            #[trigger] parts[i],
        ) by {
            if i == 0 {
                assert(data.take(65536) == data.subrange(0, 65536));
            } else {
                let at = (i - 1) * 65536;
                assert(parts[i] == others[i - 1]);
                assert(part_of(rest, 0 + at, others[i - 1]));
                assert(rest.skip(at) =~= data.skip(i * 65536));
                if at + 65536 <= rest.len() {
                    assert(rest.subrange(at, at + 65536) =~= data.subrange(
                        i * 65536,
                        i * 65536 + 65536,
                    ));
                }
            }
        }
    }
}

/// The call for what changed passes on every file of the difference in its place.
pub proof fn law_diff_calls_pass_on(
    k: Seq<(HostCallView, ReplyView)>,
    config: StorageConfigView,
    r: RepositoryPathView,
    base: Seq<char>,
    head: Seq<char>,
    path: Option<Seq<char>>,
)
    ensures
        passes_on(
            diff::diff_commits(k, config, r.owner, r.name, base, head, path, Some(3)),
            Code::Internal,
            service::get_diff(k, config, Some(r), base, head, path),
            |result: diff::DiffResultView, shown: Seq<DiffEntryView>|
                each(change_shown())(result.files, shown),
        ),
{
}

/// The file that is looked for is the first at its path.
proof fn lemma_file_at(files: Seq<diff::FileDiffView>, path: Seq<char>)
    ensures
        service::file_at(files, path) is None ==> forall|i: int|
            0 <= i < files.len() ==> (#[trigger] files[i]).path != path,
        service::file_at(files, path) matches Some(file) ==> exists|i: int|
            first_at(files, path, i) && #[trigger] files[i] == file,
    decreases files.len(),
{
    if files.len() > 0 {
        let rest = files.skip(1);
        if files[0].path == path {
            assert(first_at(files, path, 0));
            assert(files[0] == files[0]);
        } else {
            lemma_file_at(rest, path);
            if service::file_at(rest, path) is None {
                assert forall|i: int| 0 <= i < files.len() implies (#[trigger] files[i]).path
                    != path by {
                    if i > 0 {
                        assert(files[i] == rest[i - 1]);
                    }
                }
            } else {
                let j = choose|j: int|
                    first_at(rest, path, j) && #[trigger] rest[j] == service::file_at(
                        rest,
                        path,
                    )->0;
                assert forall|i: int| 0 <= i < j + 1 implies (#[trigger] files[i]).path
                    != path by {
                    if i > 0 {
                        assert(files[i] == rest[i - 1]);
                    }
                }
                assert(files[j + 1] == rest[j]);
                assert(first_at(files, path, j + 1));
            }
        }
    }
}

/// Whether a file is the first at its path.
pub open spec fn first_at(files: Seq<diff::FileDiffView>, path: Seq<char>, i: int) -> bool {
    &&& 0 <= i < files.len()
    &&& files[i].path == path
    &&& forall|j: int| 0 <= j < i ==> (#[trigger] files[j]).path != path
}

/// Whether an answer shows the first file at a path, or says that there is none.
pub open spec fn one_file_shown(
    files: Seq<diff::FileDiffView>,
    path: Seq<char>,
    answer: StepView<FileDiffView, StatusView>,
) -> bool {
    match answer {
        StepView::Ask(calls) => false,
        StepView::Done(shown) => exists|i: int|
            first_at(files, path, i) && file_shown(#[trigger] files[i], shown),
        StepView::Failed(status) => {
            &&& status == (StatusView { code: Code::NotFound, message: "File not in diff"@ })
            &&& forall|i: int| 0 <= i < files.len() ==> (#[trigger] files[i]).path != path
        },
    }
}

/// The call for the difference of one file passes on the first file of the difference at
/// that path, with all its hunks and with three lines of context unless more or fewer
/// are asked for; without such a file it is not found.
pub proof fn law_file_diff_calls_pass_on(
    k: Seq<(HostCallView, ReplyView)>,
    config: StorageConfigView,
    r: RepositoryPathView,
    base: Seq<char>,
    head: Seq<char>,
    path: Seq<char>,
    lines: u32,
)
    ensures
        ({
            let context: u32 = if lines > 0 {
                lines
            } else {
                3
            };
            let answer = service::get_file_diff(k, config, Some(r), base, head, path, lines);
            match diff::diff_commits(
                k,
                config,
                r.owner,
                r.name,
                base,
                head,
                Some(path),
                Some(context),
            ) {
                StepView::Ask(calls) => answer == StepView::<FileDiffView, StatusView>::Ask(calls),
                StepView::Failed(error) => answer == StepView::<FileDiffView, StatusView>::Failed(
                    StatusView { code: Code::Internal, message: git::error_message(error) },
                ),
                StepView::Done(result) => one_file_shown(result.files, path, answer),
            }
        }),
{
    let context: u32 = if lines > 0 {
        lines
    } else {
        3
    };
    let answer = service::get_file_diff(k, config, Some(r), base, head, path, lines);
    if let StepView::Done(result) = diff::diff_commits(
        k,
        config,
        r.owner,
        r.name,
        base,
        head,
        Some(path),
        Some(context),
    ) {
        lemma_file_at(result.files, path);
        if let Some(file) = service::file_at(result.files, path) {
            let i = choose|i: int|
                first_at(result.files, path, i) && #[trigger] result.files[i] == file;
            lemma_file_shown(file);
            assert(answer == StepView::<FileDiffView, StatusView>::Done(
                convert::file_message(file),
            ));
            assert(file_shown(result.files[i], answer->Done_0));
        }
        assert(one_file_shown(result.files, path, answer));
    }
}

/// A file is shown with its hunks.
proof fn lemma_file_shown(file: diff::FileDiffView)
    ensures
        file_shown(file, convert::file_message(file)),
{
    let shown = convert::file_message(file);
    assert forall|i: int| 0 <= i < file.hunks.len() implies hunk_shown(
        file.hunks[i],
        #[trigger] shown.hunks[i],
    ) by {
        let hunk = file.hunks[i];
        assert(shown.hunks[i] == convert::hunk_message(hunk));
        assert forall|j: int| 0 <= j < hunk.lines.len() implies line_shown(
            hunk.lines[j],
            #[trigger] shown.hunks[i].lines[j],
        ) by {
            assert(shown.hunks[i].lines[j] == convert::diff_line_message(hunk.lines[j]));
        }
    }
}

/// The calls for a merge and a rebase pass on what these come to, every conflict in its
/// place; they succeed unless there is a conflict. So does the call that asks which
/// objects there are.
pub proof fn law_merge_calls_pass_on(
    k: Seq<(HostCallView, ReplyView)>,
    config: StorageConfigView,
    r: RepositoryPathView,
    a: Seq<char>,
    b: Seq<char>,
    oids: Seq<Seq<char>>,
)
    ensures
        passes_on(
            operations::merge(k, config, r.owner, r.name, a, b, true),
            Code::Internal,
            service::merge(k, config, Some(r), a, b),
            |result: operations::MergeResultView, shown: crate::grpc::messages::MergeResponseView|
                {
                    &&& shown.success <==> result.status != MergeStatus::Conflict
                    &&& shown.merge_commit_oid == result.commit_oid
                    &&& each(conflict_shown())(result.conflicts, shown.conflicts)
                },
        ),
        passes_on(
            operations::rebase(k, config, r.owner, r.name, a, b),
            Code::Internal,
            service::rebase(k, config, Some(r), a, b),
            |
                result: operations::RebaseResultView,
                shown: crate::grpc::messages::RebaseResponseView,
            |
                {
                    &&& shown.success <==> result.status != RebaseStatus::Conflict
                    &&& shown.rewritten_commits == result.rebased_commits
                    &&& each(conflict_shown())(result.conflicts, shown.conflicts)
                },
        ),
        passes_on(
            operations::objects_exist(k, config, r.owner, r.name, oids),
            Code::Internal,
            service::check_objects_exist(k, config, Some(r), oids),
            same(),
        ),
{
}

/// What one commit that is picked comes to.
pub open spec fn picked(
    k: Seq<(HostCallView, ReplyView)>,
    config: StorageConfigView,
    r: RepositoryPathView,
    commit: Seq<char>,
    onto: Seq<char>,
) -> StepView<operations::CherryPickResultView, GitErrorView> {
    operations::cherry_pick(k, config, r.owner, r.name, commit, onto)
}

/// Whether a commit can be picked without conflict.
pub open spec fn picks_well(
    k: Seq<(HostCallView, ReplyView)>,
    config: StorageConfigView,
    r: RepositoryPathView,
    commit: Seq<char>,
    onto: Seq<char>,
) -> bool {
    picked(k, config, r, commit, onto) is Done && picked(
        k,
        config,
        r,
        commit,
        onto,
    )->Done_0.status != CherryPickStatus::Conflict
}

/// Commits are picked one after the other until one does not go well, and that one
/// decides: its questions are asked, its failure is passed on, or its conflicts are
/// shown. Where all go well there are no conflicts, and no new commit is made.
pub proof fn law_commits_are_picked_in_order(
    k: Seq<(HostCallView, ReplyView)>,
    config: StorageConfigView,
    r: RepositoryPathView,
    commits: Seq<Seq<char>>,
    onto: Seq<char>,
    n: int,
)
    requires
        0 <= n <= commits.len(),
        forall|i: int| 0 <= i < n ==> picks_well(k, config, r, #[trigger] commits[i], onto),
        n < commits.len() ==> !picks_well(k, config, r, commits[n], onto),
    ensures
        ({
            let answer = service::cherry_pick(k, config, Some(r), commits, onto);
            &&& n == commits.len() ==> answer is Done && answer->Done_0.success
                && answer->Done_0.new_commit_oids.len() == 0
                && answer->Done_0.conflicts.len() == 0
            &&& n < commits.len() ==> passes_on(
                picked(k, config, r, commits[n], onto),
                Code::Internal,
                answer,
                |result: operations::CherryPickResultView, shown: CherryPickResponseView|
                    {
                        &&& !shown.success
                        &&& shown.new_commit_oids.len() == 0
                        &&& each(conflict_shown())(result.conflicts, shown.conflicts)
                    },
            )
        }),
    decreases commits.len(),
{
    if commits.len() > 0 {
        law_cherry_pick_by_what_is_told(k, config, r.owner, r.name, commits[0], onto);
        if n > 0 {
            let rest = commits.skip(1);
            assert(picks_well(k, config, r, commits[0], onto));
            assert forall|i: int| 0 <= i < n - 1 implies picks_well(
                k,
                config,
                r,
                #[trigger] rest[i],
                onto,
            ) by {
                assert(rest[i] == commits[i + 1]);
            }
            law_commits_are_picked_in_order(k, config, r, rest, onto, n - 1);
            if n < commits.len() {
                assert(rest[n - 1] == commits[n]);
            }
        }
    }
}

/// The words of an error tell what it is about.
pub proof fn law_errors_say_what_they_are_about(a: Seq<char>, b: Seq<char>)
    ensures
        git::error_message(GitErrorView::RepositoryNotFound { owner: a, name: b })
            == "Repository not found: "@ + a + "/"@ + b,
        git::error_message(GitErrorView::RepositoryExists { owner: a, name: b })
            == "Repository already exists: "@ + a + "/"@ + b,
        git::error_message(GitErrorView::RefNotFound { reference: a })
            == "Reference not found: "@ + a,
        git::error_message(GitErrorView::ObjectNotFound { oid: a }) == "Object not found: "@ + a,
        git::error_message(GitErrorView::InvalidRef { reference: a })
            == "Invalid reference: "@ + a,
        git::error_message(GitErrorView::MergeConflict { path: a }) == "Merge conflict in "@ + a,
        git::error_message(GitErrorView::Io(a)) == "IO error: "@ + a,
        git::error_message(GitErrorView::Gix(a)) == "Git error: "@ + a,
        git::error_message(GitErrorView::Internal(a)) == "Internal error: "@ + a,
{
}

/// A stream that does not begin with a message that names a repository is refused, and
/// so is one about a repository that is not there.
pub proof fn law_streams_begin_with_a_repository(
    k: Seq<(HostCallView, ReplyView)>,
    config: StorageConfigView,
    binary: Seq<char>,
    first: Option<PackRequestView>,
)
    ensures
        ({
            let fetch = pack::upload_pack(k, config, first);
            let push = pack::receive_pack(k, config, binary, first);
            &&& first is None ==> refused(fetch, Code::InvalidArgument, "missing init message"@)
                && refused(push, Code::InvalidArgument, "missing init message"@)
            &&& first matches Some(PackRequestView::Data(data)) ==> refused(
                fetch,
                Code::InvalidArgument,
                "first message must be init"@,
            ) && refused(push, Code::InvalidArgument, "first message must be init"@)
            &&& first matches Some(PackRequestView::Init(init)) ==> {
                &&& init.repository is None ==> refused(
                    fetch,
                    Code::InvalidArgument,
                    "missing repository"@,
                ) && refused(push, Code::InvalidArgument, "missing repository"@)
                &&& init.repository is Some && there(
                    k,
                    git::repo_path(config, init.repository->0.owner, init.repository->0.name),
                    false,
                ) ==> refused(fetch, Code::NotFound, "repository not found"@) && refused(
                    push,
                    Code::NotFound,
                    "repository not found"@,
                )
            }
        }),
{
}

/// Whether something fails with a code and words.
pub open spec fn refused<T>(step: StepView<T, StatusView>, code: Code, words: Seq<char>) -> bool {
    step == StepView::<T, StatusView>::Failed(StatusView { code, message: words })
}

/// The value of a variable that a command is given.
pub open spec fn given_as(
    env: Seq<(Seq<char>, Seq<char>)>,
    name: Seq<char>,
    value: Option<Seq<char>>,
) -> bool {
    &&& value is Some ==> env.contains((name, value->0))
    &&& value is None ==> forall|i: int| 0 <= i < env.len() ==> (#[trigger] env[i]).0 != name
}

/// A fetch runs git on the path of the repository with nothing in its environment, and a
/// push does the same for the other direction unless it is bounded: then git also runs
/// the hook, which is told every list of patterns there is and no other.
pub proof fn law_commands_serve_the_repository(
    k: Seq<(HostCallView, ReplyView)>,
    config: StorageConfigView,
    binary: Seq<char>,
    init: PackInitView,
    r: RepositoryPathView,
)
    requires
        init.repository == Some(r),
        there(k, git::repo_path(config, r.owner, r.name), true),
    ensures
        ({
            let first = Some(PackRequestView::Init(init));
            let path = git::repo_path(config, r.owner, r.name);
            let fetch = pack::upload_pack(k, config, first);
            let push = pack::receive_pack(k, config, binary, first);
            let free = init.ref_patterns is None && init.path_patterns is None
                && init.protected_patterns is None;
            &&& fetch is Done && push is Done
            &&& fetch->Done_0.args == seq!["upload-pack"@, "--stateless-rpc"@, path]
            &&& fetch->Done_0.env.len() == 0
            &&& free ==> push->Done_0.args == seq!["receive-pack"@, "--stateless-rpc"@, path]
                && push->Done_0.env.len() == 0
            &&& !free ==> {
                let env = push->Done_0.env;
                &&& push->Done_0.args == seq![
                    "-c"@,
                    "core.hooksPath="@ + git::hooks_dir(config),
                    "receive-pack"@,
                    "--stateless-rpc"@,
                    path,
                ]
                &&& given_as(env, "ARBOR_GIT_BIN"@, Some(binary))
                &&& given_as(env, "ARBOR_REF_PATTERNS"@, listed(init.ref_patterns))
                &&& given_as(env, "ARBOR_PATH_PATTERNS"@, listed(init.path_patterns))
                &&& given_as(
                    env,
                    "ARBOR_PROTECTED_REF_PATTERNS"@,
                    listed(init.protected_patterns),
                )
            }
        }),
{
    reveal_strlit("ARBOR_GIT_BIN");
    reveal_strlit("ARBOR_REF_PATTERNS");
    reveal_strlit("ARBOR_PATH_PATTERNS");
    reveal_strlit("ARBOR_PROTECTED_REF_PATTERNS");
    let path = git::repo_path(config, r.owner, r.name);
    let command = pack::push_command(config, binary, path, init);
    assert(pack::receive_pack(k, config, binary, Some(PackRequestView::Init(init)))
        == StepView::<pack::PackCommandView, StatusView>::Done(command));
    if pack::bounded(init) {
        assert(command.args =~= seq![
            "-c"@,
            "core.hooksPath="@ + git::hooks_dir(config),
            "receive-pack"@,
            "--stateless-rpc"@,
            path,
        ]);
        let b = seq![("ARBOR_GIT_BIN"@, binary)];
        let c = pack::pattern_variable("ARBOR_REF_PATTERNS"@, init.ref_patterns);
        let d = pack::pattern_variable("ARBOR_PATH_PATTERNS"@, init.path_patterns);
        let e = pack::pattern_variable("ARBOR_PROTECTED_REF_PATTERNS"@, init.protected_patterns);
        let env = command.env;
        assert(env == b + c + d + e);
        assert(env[0] == b[0]);
        if c.len() > 0 {
            assert(env[1] == c[0]);
        }
        if d.len() > 0 {
            assert(env[1 + c.len() as int] == d[0]);
        }
        if e.len() > 0 {
            assert(env[1 + c.len() as int + d.len() as int] == e[0]);
        }
        assert("ARBOR_REF_PATTERNS"@.len() != "ARBOR_PATH_PATTERNS"@.len());
        assert("ARBOR_GIT_BIN"@.len() != "ARBOR_PATH_PATTERNS"@.len());
    }
}

/// A list of patterns as a variable holds it.
pub open spec fn listed(patterns: Option<Seq<Seq<char>>>) -> Option<Seq<char>> {
    if patterns is Some {
        Some(pack::json_of_list(patterns->0))
    } else {
        None
    }
}

/// After the first message, data is passed to git, and nothing else is.
pub proof fn law_only_data_is_forwarded(message: Option<PackRequestView>, data: Seq<u8>)
    ensures
        pack::forwarded(message) == Some(data) <==> message == Some(PackRequestView::Data(data)),
{
}

/// The two services of git over HTTP are not there yet, and all others are wrong.
pub proof fn law_http_services_are_named(service: Option<Seq<char>>)
    ensures
        ({
            let known = service == Some("git-upload-pack"@) || service == Some(
                "git-receive-pack"@,
            );
            &&& server::info_refs(service).status == 501 <==> known
            &&& server::info_refs(service).status == 400 <==> !known
        }),
{
}

/// A number that does not fit into 31 bits is shown by the one below zero that has the
/// same 32 bits.
pub proof fn law_large_numbers_are_negative(n: u32)
    ensures
        n <= i32::MAX ==> convert::signed(n) == n,
        n > i32::MAX ==> convert::signed(n) < 0 && convert::signed(n) + 0x1_0000_0000 == n,
{
}

/// A merge is made by the author that is given, and else by the daemon itself.
pub proof fn law_merges_have_an_author(author: Option<GitSignatureView>, now: i64)
    ensures
        author is Some ==> signature_shown(service::merge_actor(author, now), author),
        author is None ==> {
            let actor = service::merge_actor(author, now);
            &&& actor.name == "arbor-git"@
            &&& actor.email == "git@arbor.dev"@
            &&& actor.timestamp == now
            &&& actor.offset_minutes == 0
        },
{
}

/// Of a directory and of a file at a path no object is named in the answer, and of a file
/// no type.
pub proof fn law_objects_at_paths_stay_unnamed(
    k: Seq<(HostCallView, ReplyView)>,
    config: StorageConfigView,
    repository: Option<RepositoryPathView>,
    a: Seq<char>,
    path: Seq<char>,
    recursive: bool,
)
    ensures
        service::get_tree(k, config, repository, a, path, recursive) matches StepView::Done(shown)
            ==> shown.tree_oid.len() == 0,
        service::get_blob_info(k, config, repository, a, path) matches StepView::Done(shown)
            ==> shown.oid.len() == 0 && shown.mime_type is None,
{
}

/// What the daemon says of git over HTTP.
pub proof fn law_http_answers_say_why(service: Option<Seq<char>>)
    ensures
        server::info_refs(service).status == 501 ==> server::info_refs(service).body
            == "Git Smart HTTP not yet implemented"@,
        server::info_refs(service).status == 400 ==> server::info_refs(service).body
            == "Invalid service parameter"@,
{
}

} // verus!
