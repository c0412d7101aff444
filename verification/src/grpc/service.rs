//! The calls that the daemon serves.

use vstd::prelude::*;

use super::convert::{self, make_status, to_optional, to_optional_number, with_code};
use super::messages::{
    BlobChunk, BlobChunkView, BlobInfo, BlobInfoView, CherryPickResponse, CherryPickResponseView,
    Code, Commit, CommitView, ConflictInfo, ConflictInfoView, DiffEntry, DiffEntryView, FileDiff,
    FileDiffView, GetTreeResponse, GetTreeResponseView, GitSignature, GitSignatureView,
    MergeResponse, MergeResponseView, RebaseResponse, RebaseResponseView, Ref, RefView,
    RepositoryInfo, RepositoryInfoView, RepositoryPath, RepositoryPathView, Status, StatusView,
    TreeEntryView,
};
use super::pack::{self, PackCommand, PackRequest};
use crate::git::commits::{self, CommitInfoView, CommitService, GitActor, GitActorView};
use crate::git::diff::{self, DiffService};
use crate::git::objects;
use crate::git::operations::{
    self, CherryPickStatus, MergeStatus, OperationsService, RebaseStatus,
};
use crate::git::refs::{self, RefInfoView, RefService, RefType};
use crate::git::repository::{self, RepositoryService};
use crate::git::trees::{self, TreeService};
use crate::git::{StorageConfig, StorageConfigView};
use crate::host::{self, HostCallView, Replies, ReplyView, Step, StepView};
use crate::text;

verus! {

/// Serves the calls.
pub struct GitServiceImpl {
    repo_service: RepositoryService,
    ref_service: RefService,
    commit_service: CommitService,
    tree_service: TreeService,
    diff_service: DiffService,
    ops_service: OperationsService,
    config: StorageConfig,
}

/// What a call does with the repository that it names; one that names none is
/// refused.
pub open spec fn on_repository<T>(
    repository: Option<RepositoryPathView>,
    rest: spec_fn(RepositoryPathView) -> StepView<T, StatusView>,
) -> StepView<T, StatusView> {
    match repository {
        None => StepView::Failed(
            convert::status(Code::InvalidArgument, "repository required"@),
        ),
        Some(r) => rest(r),
    }
}

/// The references that a number selects: branches, tags, remote branches or all.
pub open spec fn filter_of(filter_type: i32) -> Option<RefType> {
    if filter_type == 1 {
        Some(RefType::Branch)
    } else if filter_type == 2 {
        Some(RefType::Tag)
    } else if filter_type == 3 {
        Some(RefType::Remote)
    } else {
        None
    }
}

/// Whether the commit that a call shows, if it is found, can be shown.
pub open spec fn commit_showable(
    k: Seq<(HostCallView, ReplyView)>,
    config: StorageConfigView,
    repository: Option<RepositoryPathView>,
    oid: Seq<char>,
) -> bool {
    match repository {
        None => true,
        Some(r) => commits::showable(commits::found_commit(k, config, r.owner, r.name, oid)),
    }
}

/// Whether the commits that a call lists behind a revision, if they are found, can
/// be shown.
pub open spec fn log_showable(
    k: Seq<(HostCallView, ReplyView)>,
    config: StorageConfigView,
    repository: Option<RepositoryPathView>,
    start_ref: Seq<char>,
    limit: u32,
    skip: u32,
    path: Option<Seq<char>>,
) -> bool {
    match repository {
        None => true,
        Some(r) => commits::all_showable(
            commits::found_log(
                k,
                config,
                r.owner,
                r.name,
                start_ref,
                convert::optional_number(limit),
                convert::optional_number(skip),
                path,
            ),
        ),
    }
}

/// Whether the commits that a call lists behind a commit, if they are found, can be
/// shown.
pub open spec fn ancestors_showable(
    k: Seq<(HostCallView, ReplyView)>,
    config: StorageConfigView,
    repository: Option<RepositoryPathView>,
    oid: Seq<char>,
    limit: u32,
) -> bool {
    match repository {
        None => true,
        Some(r) => commits::all_showable(
            commits::found_ancestors(
                k,
                config,
                r.owner,
                r.name,
                oid,
                convert::optional_number(limit),
            ),
        ),
    }
}

/// The first file of a difference at a path.
pub open spec fn file_at(files: Seq<diff::FileDiffView>, path: Seq<char>) -> Option<
    diff::FileDiffView,
>
    decreases files.len(),
{
    if files.len() == 0 {
        None
    } else if files[0].path == path {
        Some(files[0])
    } else {
        file_at(files.skip(1), path)
    }
}

/// Who makes a merge: whoever the call names, or the daemon itself, now.
pub open spec fn merge_actor(author: Option<GitSignatureView>, now: i64) -> GitActorView {
    match author {
        Some(a) => GitActorView {
            name: a.name,
            email: a.email,
            timestamp: a.timestamp,
            offset_minutes: a.offset_minutes,
        },
        None => GitActorView {
            name: "arbor-git"@,
            email: "git@arbor.dev"@,
            timestamp: now,
            offset_minutes: 0,
        },
    }
}

/// `chrono::Utc::now`: the seconds since the epoch, of which nothing is claimed.
#[verifier::external_body]
fn now() -> (r: i64) {
    chrono::Utc::now().timestamp()
}

/// Who makes a merge, [`merge_actor`].
pub fn merge_author(author: Option<GitSignature>, now: i64) -> (r: GitActor)
    ensures
        r.deep_view() == merge_actor(author.deep_view(), now),
{
    match author {
        Some(a) => GitActor {
            name: a.name,
            email: a.email,
            timestamp: a.timestamp,
            offset_minutes: a.offset_minutes,
        },
        None => GitActor {
            name: "arbor-git".to_owned(),
            email: "git@arbor.dev".to_owned(),
            timestamp: now,
            offset_minutes: 0,
        },
    }
}

/// What a merge came to, as the call tells it: only a conflict is no success.
pub open spec fn merge_message(result: operations::MergeResultView) -> MergeResponseView {
    MergeResponseView {
        success: result.status != MergeStatus::Conflict,
        merge_commit_oid: result.commit_oid,
        conflicts: convert::conflict_messages(result.conflicts),
    }
}

/// What a rebase came to, as the call tells it: only a conflict is no success.
pub open spec fn rebase_message(result: operations::RebaseResultView) -> RebaseResponseView {
    RebaseResponseView {
        success: result.status != RebaseStatus::Conflict,
        rewritten_commits: result.rebased_commits,
        conflicts: convert::conflict_messages(result.conflicts),
    }
}

/// Cherry-picks one after the other, until one has conflicts or fails.
pub open spec fn picks(
    k: Seq<(HostCallView, ReplyView)>,
    config: StorageConfigView,
    repository: RepositoryPathView,
    commits: Seq<Seq<char>>,
    onto: Seq<char>,
) -> StepView<CherryPickResponseView, StatusView>
    decreases commits.len(),
{
    if commits.len() == 0 {
        StepView::Done(
            CherryPickResponseView {
                success: true,
                new_commit_oids: Seq::empty(),
                conflicts: Seq::empty(),
            },
        )
    } else {
        match convert::as_status(
            operations::cherry_pick(
                k,
                config,
                repository.owner,
                repository.name,
                commits[0],
                onto,
            ),
            Code::Internal,
        ) {
            StepView::Ask(calls) => StepView::Ask(calls),
            StepView::Failed(status) => StepView::Failed(status),
            StepView::Done(result) => {
                let new = match result.commit_oid {
                    Some(oid) => seq![oid],
                    None => Seq::empty(),
                };
                if result.status == CherryPickStatus::Conflict {
                    StepView::Done(
                        CherryPickResponseView {
                            success: false,
                            new_commit_oids: new,
                            conflicts: convert::conflict_messages(result.conflicts),
                        },
                    )
                } else {
                    match picks(k, config, repository, commits.skip(1), onto) {
                        StepView::Done(rest) => StepView::Done(
                            CherryPickResponseView {
                                new_commit_oids: new + rest.new_commit_oids,
                                ..rest
                            },
                        ),
                        other => other,
                    }
                }
            },
        }
    }
}

/// Creates a repository and gives its path.
pub open spec fn init_repository(
    k: Seq<(HostCallView, ReplyView)>,
    config: StorageConfigView,
    repository: Option<RepositoryPathView>,
    default_branch: Seq<char>,
) -> StepView<Seq<char>, StatusView> {
    on_repository(
        repository,
        |r: RepositoryPathView|
            convert::as_status(
                repository::init(k, config, r.owner, r.name, convert::optional(default_branch)),
                Code::Internal,
            ),
    )
}

/// Deletes a repository, and tells whether there was one.
pub open spec fn delete_repository(
    k: Seq<(HostCallView, ReplyView)>,
    config: StorageConfigView,
    repository: Option<RepositoryPathView>,
) -> StepView<bool, StatusView> {
    on_repository(
        repository,
        |r: RepositoryPathView|
            convert::as_status(
                repository::delete(k, config, r.owner, r.name),
                Code::Internal,
            ),
    )
}

/// Tells whether there is a repository.
pub open spec fn repository_exists(
    k: Seq<(HostCallView, ReplyView)>,
    config: StorageConfigView,
    repository: Option<RepositoryPathView>,
) -> StepView<bool, StatusView> {
    on_repository(
        repository,
        |r: RepositoryPathView|
            convert::as_status(
                repository::repository_exists(k, config, r.owner, r.name),
                Code::Internal,
            ),
    )
}

/// Tells what there is to say of a repository.
pub open spec fn get_repository_info(
    k: Seq<(HostCallView, ReplyView)>,
    config: StorageConfigView,
    repository: Option<RepositoryPathView>,
) -> StepView<RepositoryInfoView, StatusView> {
    on_repository(
        repository,
        |r: RepositoryPathView|
            host::chain(
                convert::as_status(
                    repository::get_info(k, config, r.owner, r.name),
                    Code::NotFound,
                ),
                |info: repository::RepositoryInfoView| StepView::Done(convert::info_message(info)),
            ),
    )
}

/// Lists references.
pub open spec fn list_refs(
    k: Seq<(HostCallView, ReplyView)>,
    config: StorageConfigView,
    repository: Option<RepositoryPathView>,
    filter_type: i32,
    pattern: Seq<char>,
) -> StepView<Seq<RefView>, StatusView> {
    on_repository(
        repository,
        |r: RepositoryPathView|
            host::chain(
                convert::as_status(
                    refs::list_refs(
                        k,
                        config,
                        r.owner,
                        r.name,
                        filter_of(filter_type),
                        convert::optional(pattern),
                    ),
                    Code::Internal,
                ),
                |infos: Seq<RefInfoView>|
                    StepView::Done(infos.map_values(|i: RefInfoView| convert::ref_message(i))),
            ),
    )
}

/// Resolves a revision to an object and, where it is one, to the full name of a reference.
pub open spec fn resolve_ref(
    k: Seq<(HostCallView, ReplyView)>,
    config: StorageConfigView,
    repository: Option<RepositoryPathView>,
    reference: Seq<char>,
) -> StepView<(Seq<char>, Seq<char>), StatusView> {
    on_repository(
        repository,
        |r: RepositoryPathView|
            convert::as_status(
                refs::resolve_ref(k, config, r.owner, r.name, reference),
                Code::NotFound,
            ),
    )
}

/// Creates a branch.
pub open spec fn create_branch(
    k: Seq<(HostCallView, ReplyView)>,
    config: StorageConfigView,
    repository: Option<RepositoryPathView>,
    branch: Seq<char>,
    start_point: Seq<char>,
) -> StepView<RefView, StatusView> {
    on_repository(
        repository,
        |r: RepositoryPathView|
            host::chain(
                convert::as_status(
                    refs::create_branch(k, config, r.owner, r.name, branch, start_point),
                    Code::Internal,
                ),
                |info: RefInfoView| StepView::Done(convert::ref_message(info)),
            ),
    )
}

/// Deletes a branch.
pub open spec fn delete_branch(
    k: Seq<(HostCallView, ReplyView)>,
    config: StorageConfigView,
    repository: Option<RepositoryPathView>,
    branch: Seq<char>,
    force: bool,
) -> StepView<bool, StatusView> {
    on_repository(
        repository,
        |r: RepositoryPathView|
            convert::as_status(
                refs::delete_branch(k, config, r.owner, r.name, branch, force),
                Code::Internal,
            ),
    )
}

/// Makes a branch the default one.
pub open spec fn set_default_branch(
    k: Seq<(HostCallView, ReplyView)>,
    config: StorageConfigView,
    repository: Option<RepositoryPathView>,
    branch: Seq<char>,
) -> StepView<bool, StatusView> {
    on_repository(
        repository,
        |r: RepositoryPathView|
            host::chain(
                convert::as_status(
                    refs::set_default_branch(k, config, r.owner, r.name, branch),
                    Code::Internal,
                ),
                |done: ()| StepView::Done(true),
            ),
    )
}

/// Deletes a tag.
pub open spec fn delete_tag(
    k: Seq<(HostCallView, ReplyView)>,
    config: StorageConfigView,
    repository: Option<RepositoryPathView>,
    tag: Seq<char>,
) -> StepView<bool, StatusView> {
    on_repository(
        repository,
        |r: RepositoryPathView|
            convert::as_status(
                refs::delete_tag(k, config, r.owner, r.name, tag),
                Code::Internal,
            ),
    )
}

/// Reads a commit.
pub open spec fn get_commit(
    k: Seq<(HostCallView, ReplyView)>,
    config: StorageConfigView,
    repository: Option<RepositoryPathView>,
    oid: Seq<char>,
) -> StepView<CommitView, StatusView> {
    on_repository(
        repository,
        |r: RepositoryPathView|
            host::chain(
                convert::as_status(
                    commits::get_commit(k, config, r.owner, r.name, oid),
                    Code::NotFound,
                ),
                |commit: CommitInfoView| StepView::Done(convert::commit_message(commit)),
            ),
    )
}

/// Lists the history behind a revision.
pub open spec fn get_commit_log(
    k: Seq<(HostCallView, ReplyView)>,
    config: StorageConfigView,
    repository: Option<RepositoryPathView>,
    start_ref: Seq<char>,
    limit: u32,
    skip: u32,
    path: Option<Seq<char>>,
) -> StepView<Seq<CommitView>, StatusView> {
    on_repository(
        repository,
        |r: RepositoryPathView|
            host::chain(
                convert::as_status(
                    commits::get_log(
                        k,
                        config,
                        r.owner,
                        r.name,
                        start_ref,
                        convert::optional_number(limit),
                        convert::optional_number(skip),
                        path,
                    ),
                    Code::Internal,
                ),
                |infos: Seq<CommitInfoView>|
                    StepView::Done(
                        infos.map_values(|c: CommitInfoView| convert::commit_message(c)),
                    ),
            ),
    )
}

/// Lists the history behind a commit.
pub open spec fn get_commit_ancestors(
    k: Seq<(HostCallView, ReplyView)>,
    config: StorageConfigView,
    repository: Option<RepositoryPathView>,
    oid: Seq<char>,
    limit: u32,
) -> StepView<Seq<CommitView>, StatusView> {
    on_repository(
        repository,
        |r: RepositoryPathView|
            host::chain(
                convert::as_status(
                    commits::get_ancestors(
                        k,
                        config,
                        r.owner,
                        r.name,
                        oid,
                        convert::optional_number(limit),
                    ),
                    Code::Internal,
                ),
                |infos: Seq<CommitInfoView>|
                    StepView::Done(
                        infos.map_values(|c: CommitInfoView| convert::commit_message(c)),
                    ),
            ),
    )
}

/// Lists a directory, or what is below it too.
pub open spec fn get_tree(
    k: Seq<(HostCallView, ReplyView)>,
    config: StorageConfigView,
    repository: Option<RepositoryPathView>,
    revision: Seq<char>,
    path: Seq<char>,
    recursive: bool,
) -> StepView<GetTreeResponseView, StatusView> {
    on_repository(
        repository,
        |r: RepositoryPathView|
            host::chain(
                convert::as_status(
                    if recursive {
                        trees::get_tree_recursive(
                            k,
                            config,
                            r.owner,
                            r.name,
                            revision,
                            convert::optional(path),
                            Some(trees::DEFAULT_DEPTH),
                        )
                    } else {
                        trees::get_tree(
                            k,
                            config,
                            r.owner,
                            r.name,
                            revision,
                            convert::optional(path),
                        )
                    },
                    Code::Internal,
                ),
                |entries: Seq<trees::TreeEntryView>| StepView::Done(
                    GetTreeResponseView {
                        tree_oid: Seq::empty(),
                        entries: entries.map_values(
                            |e: trees::TreeEntryView| convert::entry_message(e),
                        ),
                    },
                ),
            ),
    )
}

/// Reads a file in parts.
pub open spec fn get_blob(
    k: Seq<(HostCallView, ReplyView)>,
    config: StorageConfigView,
    repository: Option<RepositoryPathView>,
    oid: Seq<char>,
) -> StepView<Seq<BlobChunkView>, StatusView> {
    on_repository(
        repository,
        |r: RepositoryPathView|
            host::chain(
                convert::as_status(
                    trees::get_blob(k, config, r.owner, r.name, oid),
                    Code::NotFound,
                ),
                |data: Seq<u8>| StepView::Done(convert::chunks(data)),
            ),
    )
}

/// Tells what there is to say of the file at a path.
pub open spec fn get_blob_info(
    k: Seq<(HostCallView, ReplyView)>,
    config: StorageConfigView,
    repository: Option<RepositoryPathView>,
    revision: Seq<char>,
    path: Seq<char>,
) -> StepView<BlobInfoView, StatusView> {
    on_repository(
        repository,
        |r: RepositoryPathView|
            host::chain(
                convert::as_status(
                    trees::get_blob_by_path(k, config, r.owner, r.name, revision, path),
                    Code::NotFound,
                ),
                |data: Seq<u8>| StepView::Done(
                    BlobInfoView {
                        oid: Seq::empty(),
                        size: data.len() as u64,
                        is_binary: objects::looks_binary(data),
                        mime_type: None,
                    },
                ),
            ),
    )
}

/// Tells which files differ between two revisions, and by how many lines.
pub open spec fn get_diff(
    k: Seq<(HostCallView, ReplyView)>,
    config: StorageConfigView,
    repository: Option<RepositoryPathView>,
    base_ref: Seq<char>,
    head_ref: Seq<char>,
    path: Option<Seq<char>>,
) -> StepView<Seq<DiffEntryView>, StatusView> {
    on_repository(
        repository,
        |r: RepositoryPathView|
            host::chain(
                convert::as_status(
                    diff::diff_commits(
                        k,
                        config,
                        r.owner,
                        r.name,
                        base_ref,
                        head_ref,
                        path,
                        Some(3u32),
                    ),
                    Code::Internal,
                ),
                |result: diff::DiffResultView|
                    StepView::Done(
                        result.files.map_values(|f: diff::FileDiffView| convert::diff_message(f)),
                    ),
            ),
    )
}

/// Tells how a file differs between two revisions.
pub open spec fn get_file_diff(
    k: Seq<(HostCallView, ReplyView)>,
    config: StorageConfigView,
    repository: Option<RepositoryPathView>,
    base_ref: Seq<char>,
    head_ref: Seq<char>,
    path: Seq<char>,
    context_lines: u32,
) -> StepView<FileDiffView, StatusView> {
    on_repository(
        repository,
        |r: RepositoryPathView|
            host::chain(
                convert::as_status(
                    diff::diff_commits(
                        k,
                        config,
                        r.owner,
                        r.name,
                        base_ref,
                        head_ref,
                        Some(path),
                        Some(if context_lines == 0 { 3 } else { context_lines }),
                    ),
                    Code::Internal,
                ),
                |result: diff::DiffResultView|
                    match file_at(result.files, path) {
                        Some(file) => StepView::Done(convert::file_message(file)),
                        None => StepView::Failed(
                            convert::status(Code::NotFound, "File not in diff"@),
                        ),
                    },
            ),
    )
}

/// Rebases one revision onto another.
pub open spec fn rebase(
    k: Seq<(HostCallView, ReplyView)>,
    config: StorageConfigView,
    repository: Option<RepositoryPathView>,
    branch: Seq<char>,
    onto: Seq<char>,
) -> StepView<RebaseResponseView, StatusView> {
    on_repository(
        repository,
        |r: RepositoryPathView|
            host::chain(
                convert::as_status(
                    operations::rebase(k, config, r.owner, r.name, branch, onto),
                    Code::Internal,
                ),
                |result: operations::RebaseResultView| StepView::Done(rebase_message(result)),
            ),
    )
}

/// Tells of each of the given objects whether it exists.
pub open spec fn check_objects_exist(
    k: Seq<(HostCallView, ReplyView)>,
    config: StorageConfigView,
    repository: Option<RepositoryPathView>,
    oids: Seq<Seq<char>>,
) -> StepView<Seq<(Seq<char>, bool)>, StatusView> {
    on_repository(
        repository,
        |r: RepositoryPathView|
            convert::as_status(
                operations::objects_exist(k, config, r.owner, r.name, oids),
                Code::Internal,
            ),
    )
}

/// Creates a tag.
pub open spec fn create_tag(
    k: Seq<(HostCallView, ReplyView)>,
    config: StorageConfigView,
    repository: Option<RepositoryPathView>,
    tag: Seq<char>,
    target: Seq<char>,
) -> StepView<RefView, StatusView> {
    on_repository(
        repository,
        |r: RepositoryPathView|
            host::chain(
                convert::as_status(
                    refs::create_tag(k, config, r.owner, r.name, tag, target),
                    Code::Internal,
                ),
                |info: RefInfoView| StepView::Done(convert::ref_message(info)),
            ),
    )
}

/// Merges one revision into another, by fast-forward where that can be.
pub open spec fn merge(
    k: Seq<(HostCallView, ReplyView)>,
    config: StorageConfigView,
    repository: Option<RepositoryPathView>,
    base_ref: Seq<char>,
    head_ref: Seq<char>,
) -> StepView<MergeResponseView, StatusView> {
    on_repository(
        repository,
        |r: RepositoryPathView|
            host::chain(
                convert::as_status(
                    operations::merge(k, config, r.owner, r.name, base_ref, head_ref, true),
                    Code::Internal,
                ),
                |result: operations::MergeResultView| StepView::Done(merge_message(result)),
            ),
    )
}

/// Cherry-picks commits onto a branch.
pub open spec fn cherry_pick(
    k: Seq<(HostCallView, ReplyView)>,
    config: StorageConfigView,
    repository: Option<RepositoryPathView>,
    commits: Seq<Seq<char>>,
    target_branch: Seq<char>,
) -> StepView<CherryPickResponseView, StatusView> {
    on_repository(
        repository,
        |r: RepositoryPathView| picks(k, config, r, commits, target_branch),
    )
}

/// The first file of a difference at a path, [`file_at`].
fn find_file(files: Vec<diff::FileDiff>, path: &str) -> (r: Option<diff::FileDiff>)
    ensures
        r.deep_view() == file_at(files.deep_view(), path@),
{
    let ghost all = files.deep_view();
    assert(all.skip(0) == all);
    for file in it: files
        invariant
            it.seq() == files@,
            all == files.deep_view(),
            file_at(all.skip(it.index() as int), path@) == file_at(all, path@),
    {
        let ghost i = it.index() as int;
        proof {
            assert(all.skip(i)[0] == file.deep_view());
            assert(all.skip(i).skip(1) == all.skip(i + 1));
        }
        if text::same(&file.path, path) {
            return Some(file);
        }
    }
    assert(all.skip(all.len() as int).len() == 0);
    None
}

/// Cherry-picks one after the other, [`picks`].
fn pick_all(
    service: &OperationsService,
    repository: &RepositoryPath,
    commits: &Vec<String>,
    from: usize,
    onto: &str,
    replies: &Replies,
) -> (r: Step<CherryPickResponse, Status>)
    requires
        from <= commits@.len(),
    ensures
        r.deep_view() == picks(
            replies.deep_view(),
            service.config(),
            repository.deep_view(),
            commits.deep_view().skip(from as int),
            onto@,
        ),
    decreases commits@.len() - from,
{
    let ghost rest = commits.deep_view().skip(from as int);
    let mut new: Vec<String> = Vec::new();
    let none: Vec<ConflictInfo> = Vec::new();
    assert(new.deep_view() =~= Seq::<Seq<char>>::empty());
    assert(none.deep_view() =~= Seq::<ConflictInfoView>::empty());
    if from == commits.len() {
        return Step::Done(
            CherryPickResponse { success: true, new_commit_oids: new, conflicts: none },
        );
    }
    assert(rest[0] == commits@[from as int]@);
    assert(rest.skip(1) == commits.deep_view().skip(from + 1));
    let result = match with_code(
        service.cherry_pick(
            &repository.owner,
            &repository.name,
            &commits[from],
            onto,
            None,
            replies,
        ),
        Code::Internal,
    ) {
        Step::Ask(calls) => return Step::Ask(calls),
        Step::Failed(status) => return Step::Failed(status),
        Step::Done(result) => result,
    };
    match result.commit_oid {
        Some(oid) => {
            new.push(oid);
            assert(new.deep_view() =~= seq![oid@]);
        },
        None => {},
    }
    if result.status == CherryPickStatus::Conflict {
        return Step::Done(
            CherryPickResponse {
                success: false,
                new_commit_oids: new,
                conflicts: convert::conflicts_to_proto(result.conflicts),
            },
        );
    }
    match pick_all(service, repository, commits, from + 1, onto, replies) {
        Step::Ask(calls) => Step::Ask(calls),
        Step::Failed(status) => Step::Failed(status),
        Step::Done(later) => {
            let ghost before = new.deep_view();
            let ghost after = later.new_commit_oids.deep_view();
            let mut others = later.new_commit_oids;
            new.append(&mut others);
            assert(new.deep_view() =~= before + after);
            Step::Done(
                CherryPickResponse {
                    success: later.success,
                    new_commit_oids: new,
                    conflicts: later.conflicts,
                },
            )
        },
    }
}

impl GitServiceImpl {
    /// The configuration that the calls are served with.
    pub closed spec fn config(&self) -> StorageConfigView {
        self.config.deep_view()
    }

    /// Every part works with the same configuration.
    #[verifier::type_invariant]
    spec fn consistent(self) -> bool {
        &&& self.repo_service.config() == self.config.deep_view()
        &&& self.ref_service.config() == self.config.deep_view()
        &&& self.commit_service.config() == self.config.deep_view()
        &&& self.tree_service.config() == self.config.deep_view()
        &&& self.diff_service.config() == self.config.deep_view()
        &&& self.ops_service.config() == self.config.deep_view()
    }

    /// The service for a configuration.
    pub fn new(config: StorageConfig) -> (r: Self)
        ensures
            r.config() == config.deep_view(),
    {
        GitServiceImpl {
            repo_service: RepositoryService::new(config.copy()),
            ref_service: RefService::new(config.copy()),
            commit_service: CommitService::new(config.copy()),
            tree_service: TreeService::new(config.copy()),
            diff_service: DiffService::new(config.copy()),
            ops_service: OperationsService::new(config.copy()),
            config,
        }
    }

    /// Creates a repository and gives its path, [`init_repository`].
    pub fn init_repository(
        &self,
        repository: Option<&RepositoryPath>,
        default_branch: &str,
        replies: &Replies,
    ) -> (r: Step<String, Status>)
        ensures
            r.deep_view() == init_repository(
                replies.deep_view(),
                self.config(),
                repository.deep_view(),
                default_branch@,
            ),
    {
        proof {
            use_type_invariant(self);
        }
        let r = match repository {
            None => return Step::Failed(
                make_status(Code::InvalidArgument, "repository required"),
            ),
            Some(r) => r,
        };
        with_code(
            self.repo_service.init(&r.owner, &r.name, to_optional(default_branch), replies),
            Code::Internal,
        )
    }

    /// Deletes a repository, and tells whether there was one, [`delete_repository`].
    pub fn delete_repository(
        &self,
        repository: Option<&RepositoryPath>,
        replies: &Replies,
    ) -> (r: Step<bool, Status>)
        ensures
            r.deep_view() == delete_repository(
                replies.deep_view(),
                self.config(),
                repository.deep_view(),
            ),
    {
        proof {
            use_type_invariant(self);
        }
        let r = match repository {
            None => return Step::Failed(
                make_status(Code::InvalidArgument, "repository required"),
            ),
            Some(r) => r,
        };
        with_code(
            self.repo_service.delete(&r.owner, &r.name, replies),
            Code::Internal,
        )
    }

    /// Tells whether there is a repository, [`repository_exists`].
    pub fn repository_exists(
        &self,
        repository: Option<&RepositoryPath>,
        replies: &Replies,
    ) -> (r: Step<bool, Status>)
        ensures
            r.deep_view() == repository_exists(
                replies.deep_view(),
                self.config(),
                repository.deep_view(),
            ),
    {
        proof {
            use_type_invariant(self);
        }
        let r = match repository {
            None => return Step::Failed(
                make_status(Code::InvalidArgument, "repository required"),
            ),
            Some(r) => r,
        };
        with_code(
            self.repo_service.repository_exists(&r.owner, &r.name, replies),
            Code::Internal,
        )
    }

    /// Tells what there is to say of a repository, [`get_repository_info`].
    pub fn get_repository_info(
        &self,
        repository: Option<&RepositoryPath>,
        replies: &Replies,
    ) -> (r: Step<RepositoryInfo, Status>)
        ensures
            r.deep_view() == get_repository_info(
                replies.deep_view(),
                self.config(),
                repository.deep_view(),
            ),
    {
        proof {
            use_type_invariant(self);
        }
        let r = match repository {
            None => return Step::Failed(
                make_status(Code::InvalidArgument, "repository required"),
            ),
            Some(r) => r,
        };
        match with_code(
            self.repo_service.get_info(&r.owner, &r.name, replies),
            Code::NotFound,
        ) {
            Step::Ask(calls) => Step::Ask(calls),
            Step::Failed(status) => Step::Failed(status),
            Step::Done(info) => Step::Done(convert::info_to_proto(info)),
        }
    }

    /// Lists references, [`list_refs`].
    pub fn list_refs(
        &self,
        repository: Option<&RepositoryPath>,
        filter_type: i32,
        pattern: &str,
        replies: &Replies,
    ) -> (r: Step<Vec<Ref>, Status>)
        ensures
            r.deep_view() == list_refs(
                replies.deep_view(),
                self.config(),
                repository.deep_view(),
                filter_type,
                pattern@,
            ),
    {
        proof {
            use_type_invariant(self);
        }
        let r = match repository {
            None => return Step::Failed(
                make_status(Code::InvalidArgument, "repository required"),
            ),
            Some(r) => r,
        };
        let filter = match filter_type {
            1 => Some(RefType::Branch),
            2 => Some(RefType::Tag),
            3 => Some(RefType::Remote),
            _ => None,
        };
        match with_code(
            self.ref_service.list_refs(&r.owner, &r.name, filter, to_optional(pattern), replies),
            Code::Internal,
        ) {
            Step::Ask(calls) => Step::Ask(calls),
            Step::Failed(status) => Step::Failed(status),
            Step::Done(infos) => Step::Done(convert::refs_to_proto(infos)),
        }
    }

    /// Resolves a revision to an object and, where it is one, to the full name of a
    /// reference, [`resolve_ref`].
    pub fn resolve_ref(
        &self,
        repository: Option<&RepositoryPath>,
        reference: &str,
        replies: &Replies,
    ) -> (r: Step<(String, String), Status>)
        ensures
            r.deep_view() == resolve_ref(
                replies.deep_view(),
                self.config(),
                repository.deep_view(),
                reference@,
            ),
    {
        proof {
            use_type_invariant(self);
        }
        let r = match repository {
            None => return Step::Failed(
                make_status(Code::InvalidArgument, "repository required"),
            ),
            Some(r) => r,
        };
        with_code(
            self.ref_service.resolve_ref(&r.owner, &r.name, reference, replies),
            Code::NotFound,
        )
    }

    /// Creates a branch, [`create_branch`].
    pub fn create_branch(
        &self,
        repository: Option<&RepositoryPath>,
        branch: &str,
        start_point: &str,
        replies: &Replies,
    ) -> (r: Step<Ref, Status>)
        ensures
            r.deep_view() == create_branch(
                replies.deep_view(),
                self.config(),
                repository.deep_view(),
                branch@,
                start_point@,
            ),
    {
        proof {
            use_type_invariant(self);
        }
        let r = match repository {
            None => return Step::Failed(
                make_status(Code::InvalidArgument, "repository required"),
            ),
            Some(r) => r,
        };
        match with_code(
            self.ref_service.create_branch(&r.owner, &r.name, branch, start_point, replies),
            Code::Internal,
        ) {
            Step::Ask(calls) => Step::Ask(calls),
            Step::Failed(status) => Step::Failed(status),
            Step::Done(info) => Step::Done(convert::ref_to_proto(info)),
        }
    }

    /// Deletes a branch, [`delete_branch`].
    pub fn delete_branch(
        &self,
        repository: Option<&RepositoryPath>,
        branch: &str,
        force: bool,
        replies: &Replies,
    ) -> (r: Step<bool, Status>)
        ensures
            r.deep_view() == delete_branch(
                replies.deep_view(),
                self.config(),
                repository.deep_view(),
                branch@,
                force,
            ),
    {
        proof {
            use_type_invariant(self);
        }
        let r = match repository {
            None => return Step::Failed(
                make_status(Code::InvalidArgument, "repository required"),
            ),
            Some(r) => r,
        };
        with_code(
            self.ref_service.delete_branch(&r.owner, &r.name, branch, force, replies),
            Code::Internal,
        )
    }

    /// Makes a branch the default one, [`set_default_branch`].
    pub fn set_default_branch(
        &self,
        repository: Option<&RepositoryPath>,
        branch: &str,
        replies: &Replies,
    ) -> (r: Step<bool, Status>)
        ensures
            r.deep_view() == set_default_branch(
                replies.deep_view(),
                self.config(),
                repository.deep_view(),
                branch@,
            ),
    {
        proof {
            use_type_invariant(self);
        }
        let r = match repository {
            None => return Step::Failed(
                make_status(Code::InvalidArgument, "repository required"),
            ),
            Some(r) => r,
        };
        match with_code(
            self.ref_service.set_default_branch(&r.owner, &r.name, branch, replies),
            Code::Internal,
        ) {
            Step::Ask(calls) => Step::Ask(calls),
            Step::Failed(status) => Step::Failed(status),
            Step::Done(_) => Step::Done(true),
        }
    }

    /// Deletes a tag, [`delete_tag`].
    pub fn delete_tag(
        &self,
        repository: Option<&RepositoryPath>,
        tag: &str,
        replies: &Replies,
    ) -> (r: Step<bool, Status>)
        ensures
            r.deep_view() == delete_tag(
                replies.deep_view(),
                self.config(),
                repository.deep_view(),
                tag@,
            ),
    {
        proof {
            use_type_invariant(self);
        }
        let r = match repository {
            None => return Step::Failed(
                make_status(Code::InvalidArgument, "repository required"),
            ),
            Some(r) => r,
        };
        with_code(
            self.ref_service.delete_tag(&r.owner, &r.name, tag, replies),
            Code::Internal,
        )
    }

    /// Whether the commit that [`Self::get_commit`] would show can be shown,
    /// [`commit_showable`].
    pub fn shows_commit(
        &self,
        repository: Option<&RepositoryPath>,
        oid: &str,
        replies: &Replies,
    ) -> (r: bool)
        ensures
            r == commit_showable(
                replies.deep_view(),
                self.config(),
                repository.deep_view(),
                oid@,
            ),
    {
        proof {
            use_type_invariant(self);
        }
        match repository {
            None => true,
            Some(r) => self.commit_service.shows_commit(&r.owner, &r.name, oid, replies),
        }
    }

    /// Whether the commits that [`Self::get_commit_log`] would list can be shown,
    /// [`log_showable`].
    pub fn shows_log(
        &self,
        repository: Option<&RepositoryPath>,
        start_ref: &str,
        limit: u32,
        skip: u32,
        path: Option<&str>,
        replies: &Replies,
    ) -> (r: bool)
        ensures
            r == log_showable(
                replies.deep_view(),
                self.config(),
                repository.deep_view(),
                start_ref@,
                limit,
                skip,
                path.deep_view(),
            ),
    {
        proof {
            use_type_invariant(self);
        }
        match repository {
            None => true,
            Some(r) => self.commit_service.shows_log(
                &r.owner,
                &r.name,
                start_ref,
                to_optional_number(limit),
                to_optional_number(skip),
                path,
                replies,
            ),
        }
    }

    /// Whether the commits that [`Self::get_commit_ancestors`] would list can be
    /// shown, [`ancestors_showable`].
    pub fn shows_ancestors(
        &self,
        repository: Option<&RepositoryPath>,
        oid: &str,
        limit: u32,
        replies: &Replies,
    ) -> (r: bool)
        ensures
            r == ancestors_showable(
                replies.deep_view(),
                self.config(),
                repository.deep_view(),
                oid@,
                limit,
            ),
    {
        proof {
            use_type_invariant(self);
        }
        match repository {
            None => true,
            Some(r) => self.commit_service.shows_ancestors(
                &r.owner,
                &r.name,
                oid,
                to_optional_number(limit),
                replies,
            ),
        }
    }

    /// Reads a commit, [`get_commit`].
    pub fn get_commit(
        &self,
        repository: Option<&RepositoryPath>,
        oid: &str,
        replies: &Replies,
    ) -> (r: Step<Commit, Status>)
        requires
            commit_showable(
                replies.deep_view(),
                self.config(),
                repository.deep_view(),
                oid@,
            ),
        ensures
            r.deep_view() == get_commit(
                replies.deep_view(),
                self.config(),
                repository.deep_view(),
                oid@,
            ),
    {
        proof {
            use_type_invariant(self);
        }
        let r = match repository {
            None => return Step::Failed(
                make_status(Code::InvalidArgument, "repository required"),
            ),
            Some(r) => r,
        };
        match with_code(
            self.commit_service.get_commit(&r.owner, &r.name, oid, replies),
            Code::NotFound,
        ) {
            Step::Ask(calls) => Step::Ask(calls),
            Step::Failed(status) => Step::Failed(status),
            Step::Done(commit) => Step::Done(convert::commit_to_proto(commit)),
        }
    }

    /// Lists the history behind a revision, [`get_commit_log`].
    pub fn get_commit_log(
        &self,
        repository: Option<&RepositoryPath>,
        start_ref: &str,
        limit: u32,
        skip: u32,
        path: Option<&str>,
        replies: &Replies,
    ) -> (r: Step<Vec<Commit>, Status>)
        requires
            log_showable(
                replies.deep_view(),
                self.config(),
                repository.deep_view(),
                start_ref@,
                limit,
                skip,
                path.deep_view(),
            ),
        ensures
            r.deep_view() == get_commit_log(
                replies.deep_view(),
                self.config(),
                repository.deep_view(),
                start_ref@,
                limit,
                skip,
                path.deep_view(),
            ),
    {
        proof {
            use_type_invariant(self);
        }
        let r = match repository {
            None => return Step::Failed(
                make_status(Code::InvalidArgument, "repository required"),
            ),
            Some(r) => r,
        };
        match with_code(
            self.commit_service.get_log(
                &r.owner,
                &r.name,
                start_ref,
                to_optional_number(limit),
                to_optional_number(skip),
                path,
                replies,
            ),
            Code::Internal,
        ) {
            Step::Ask(calls) => Step::Ask(calls),
            Step::Failed(status) => Step::Failed(status),
            Step::Done(infos) => Step::Done(convert::commits_to_proto(infos)),
        }
    }

    /// Lists the history behind a commit, [`get_commit_ancestors`].
    pub fn get_commit_ancestors(
        &self,
        repository: Option<&RepositoryPath>,
        oid: &str,
        limit: u32,
        replies: &Replies,
    ) -> (r: Step<Vec<Commit>, Status>)
        requires
            ancestors_showable(
                replies.deep_view(),
                self.config(),
                repository.deep_view(),
                oid@,
                limit,
            ),
        ensures
            r.deep_view() == get_commit_ancestors(
                replies.deep_view(),
                self.config(),
                repository.deep_view(),
                oid@,
                limit,
            ),
    {
        proof {
            use_type_invariant(self);
        }
        let r = match repository {
            None => return Step::Failed(
                make_status(Code::InvalidArgument, "repository required"),
            ),
            Some(r) => r,
        };
        match with_code(
            self.commit_service.get_ancestors(
                &r.owner,
                &r.name,
                oid,
                to_optional_number(limit),
                replies,
            ),
            Code::Internal,
        ) {
            Step::Ask(calls) => Step::Ask(calls),
            Step::Failed(status) => Step::Failed(status),
            Step::Done(infos) => Step::Done(convert::commits_to_proto(infos)),
        }
    }

    /// Lists a directory, or what is below it too, [`get_tree`].
    pub fn get_tree(
        &self,
        repository: Option<&RepositoryPath>,
        revision: &str,
        path: &str,
        recursive: bool,
        replies: &Replies,
    ) -> (r: Step<GetTreeResponse, Status>)
        ensures
            r.deep_view() == get_tree(
                replies.deep_view(),
                self.config(),
                repository.deep_view(),
                revision@,
                path@,
                recursive,
            ),
    {
        proof {
            use_type_invariant(self);
        }
        let r = match repository {
            None => return Step::Failed(
                make_status(Code::InvalidArgument, "repository required"),
            ),
            Some(r) => r,
        };
        let listed = if recursive {
            self.tree_service.get_tree_recursive(
                &r.owner,
                &r.name,
                revision,
                to_optional(path),
                Some(trees::DEFAULT_DEPTH),
                replies,
            )
        } else {
            self.tree_service.get_tree(&r.owner, &r.name, revision, to_optional(path), replies)
        };
        match with_code(
            listed,
            Code::Internal,
        ) {
            Step::Ask(calls) => Step::Ask(calls),
            Step::Failed(status) => Step::Failed(status),
            Step::Done(entries) => Step::Done(
                GetTreeResponse {
                    tree_oid: String::new(),
                    entries: convert::entries_to_proto(entries),
                },
            ),
        }
    }

    /// Reads a file in parts, [`get_blob`].
    pub fn get_blob(
        &self,
        repository: Option<&RepositoryPath>,
        oid: &str,
        replies: &Replies,
    ) -> (r: Step<Vec<BlobChunk>, Status>)
        ensures
            r.deep_view() == get_blob(
                replies.deep_view(),
                self.config(),
                repository.deep_view(),
                oid@,
            ),
    {
        proof {
            use_type_invariant(self);
        }
        let r = match repository {
            None => return Step::Failed(
                make_status(Code::InvalidArgument, "repository required"),
            ),
            Some(r) => r,
        };
        match with_code(
            self.tree_service.get_blob(&r.owner, &r.name, oid, replies),
            Code::NotFound,
        ) {
            Step::Ask(calls) => Step::Ask(calls),
            Step::Failed(status) => Step::Failed(status),
            Step::Done(data) => {
                assert(data.deep_view() =~= data@);
                Step::Done(convert::split_blob(&data))
            },
        }
    }

    /// Tells what there is to say of the file at a path, [`get_blob_info`].
    pub fn get_blob_info(
        &self,
        repository: Option<&RepositoryPath>,
        revision: &str,
        path: &str,
        replies: &Replies,
    ) -> (r: Step<BlobInfo, Status>)
        ensures
            r.deep_view() == get_blob_info(
                replies.deep_view(),
                self.config(),
                repository.deep_view(),
                revision@,
                path@,
            ),
    {
        proof {
            use_type_invariant(self);
        }
        let r = match repository {
            None => return Step::Failed(
                make_status(Code::InvalidArgument, "repository required"),
            ),
            Some(r) => r,
        };
        match with_code(
            self.tree_service.get_blob_by_path(&r.owner, &r.name, revision, path, replies),
            Code::NotFound,
        ) {
            Step::Ask(calls) => Step::Ask(calls),
            Step::Failed(status) => Step::Failed(status),
            Step::Done(data) => {
                assert(data.deep_view() =~= data@);
                let is_binary = objects::is_binary_content(&data);
                Step::Done(
                    BlobInfo {
                        oid: String::new(),
                        size: data.len() as u64,
                        is_binary,
                        mime_type: None,
                    },
                )
            },
        }
    }

    /// Tells which files differ between two revisions, and by how many lines, [`get_diff`].
    pub fn get_diff(
        &self,
        repository: Option<&RepositoryPath>,
        base_ref: &str,
        head_ref: &str,
        path: Option<&str>,
        replies: &Replies,
    ) -> (r: Step<Vec<DiffEntry>, Status>)
        ensures
            r.deep_view() == get_diff(
                replies.deep_view(),
                self.config(),
                repository.deep_view(),
                base_ref@,
                head_ref@,
                path.deep_view(),
            ),
    {
        proof {
            use_type_invariant(self);
        }
        let r = match repository {
            None => return Step::Failed(
                make_status(Code::InvalidArgument, "repository required"),
            ),
            Some(r) => r,
        };
        match with_code(
            self.diff_service.diff_commits(
                &r.owner,
                &r.name,
                base_ref,
                head_ref,
                path,
                Some(3),
                replies,
            ),
            Code::Internal,
        ) {
            Step::Ask(calls) => Step::Ask(calls),
            Step::Failed(status) => Step::Failed(status),
            Step::Done(result) => Step::Done(convert::diffs_to_proto(result.files)),
        }
    }

    /// Tells how a file differs between two revisions, [`get_file_diff`].
    pub fn get_file_diff(
        &self,
        repository: Option<&RepositoryPath>,
        base_ref: &str,
        head_ref: &str,
        path: &str,
        context_lines: u32,
        replies: &Replies,
    ) -> (r: Step<FileDiff, Status>)
        ensures
            r.deep_view() == get_file_diff(
                replies.deep_view(),
                self.config(),
                repository.deep_view(),
                base_ref@,
                head_ref@,
                path@,
                context_lines,
            ),
    {
        proof {
            use_type_invariant(self);
        }
        let r = match repository {
            None => return Step::Failed(
                make_status(Code::InvalidArgument, "repository required"),
            ),
            Some(r) => r,
        };
        let context = if context_lines == 0 {
            3
        } else {
            context_lines
        };
        match with_code(
            self.diff_service.diff_commits(
                &r.owner,
                &r.name,
                base_ref,
                head_ref,
                Some(path),
                Some(context),
                replies,
            ),
            Code::Internal,
        ) {
            Step::Ask(calls) => Step::Ask(calls),
            Step::Failed(status) => Step::Failed(status),
            Step::Done(result) => match find_file(result.files, path) {
                Some(file) => Step::Done(convert::file_to_proto(file)),
                None => Step::Failed(make_status(Code::NotFound, "File not in diff")),
            },
        }
    }

    /// Rebases one revision onto another, [`rebase`].
    pub fn rebase(
        &self,
        repository: Option<&RepositoryPath>,
        branch: &str,
        onto: &str,
        replies: &Replies,
    ) -> (r: Step<RebaseResponse, Status>)
        ensures
            r.deep_view() == rebase(
                replies.deep_view(),
                self.config(),
                repository.deep_view(),
                branch@,
                onto@,
            ),
    {
        proof {
            use_type_invariant(self);
        }
        let r = match repository {
            None => return Step::Failed(
                make_status(Code::InvalidArgument, "repository required"),
            ),
            Some(r) => r,
        };
        match with_code(
            self.ops_service.rebase(&r.owner, &r.name, branch, onto, None, replies),
            Code::Internal,
        ) {
            Step::Ask(calls) => Step::Ask(calls),
            Step::Failed(status) => Step::Failed(status),
            Step::Done(result) => Step::Done(
                RebaseResponse {
                    success: result.status == RebaseStatus::Success || result.status
                        == RebaseStatus::NothingToRebase,
                    rewritten_commits: result.rebased_commits,
                    conflicts: convert::conflicts_to_proto(result.conflicts),
                },
            ),
        }
    }

    /// Tells of each of the given objects whether it exists, [`check_objects_exist`].
    pub fn check_objects_exist(
        &self,
        repository: Option<&RepositoryPath>,
        oids: &Vec<String>,
        replies: &Replies,
    ) -> (r: Step<Vec<(String, bool)>, Status>)
        ensures
            r.deep_view() == check_objects_exist(
                replies.deep_view(),
                self.config(),
                repository.deep_view(),
                oids.deep_view(),
            ),
    {
        proof {
            use_type_invariant(self);
        }
        let r = match repository {
            None => return Step::Failed(
                make_status(Code::InvalidArgument, "repository required"),
            ),
            Some(r) => r,
        };
        with_code(
            self.ops_service.check_objects_exist(&r.owner, &r.name, oids, replies),
            Code::Internal,
        )
    }

    /// Creates a tag, [`create_tag`].
    pub fn create_tag(
        &self,
        repository: Option<&RepositoryPath>,
        tag: &str,
        target: &str,
        message: Option<&str>,
        tagger: Option<&GitSignature>,
        replies: &Replies,
    ) -> (r: Step<Ref, Status>)
        ensures
            r.deep_view() == create_tag(
                replies.deep_view(),
                self.config(),
                repository.deep_view(),
                tag@,
                target@,
            ),
    {
        proof {
            use_type_invariant(self);
        }
        let r = match repository {
            None => return Step::Failed(
                make_status(Code::InvalidArgument, "repository required"),
            ),
            Some(r) => r,
        };
        let who = match tagger {
            Some(t) => Some(
                refs::GitSignature {
                    name: t.name.clone(),
                    email: t.email.clone(),
                    timestamp: t.timestamp,
                    offset_minutes: t.offset_minutes,
                },
            ),
            None => None,
        };
        match with_code(
            self.ref_service.create_tag(
                &r.owner,
                &r.name,
                tag,
                target,
                message,
                who.as_ref(),
                replies,
            ),
            Code::Internal,
        ) {
            Step::Ask(calls) => Step::Ask(calls),
            Step::Failed(status) => Step::Failed(status),
            Step::Done(info) => Step::Done(convert::ref_to_proto(info)),
        }
    }

    /// Merges one revision into another, [`merge`].
    pub fn merge(
        &self,
        repository: Option<&RepositoryPath>,
        base_ref: &str,
        head_ref: &str,
        author: Option<GitSignature>,
        commit_message: Option<&str>,
        replies: &Replies,
    ) -> (r: Step<MergeResponse, Status>)
        ensures
            r.deep_view() == merge(
                replies.deep_view(),
                self.config(),
                repository.deep_view(),
                base_ref@,
                head_ref@,
            ),
    {
        proof {
            use_type_invariant(self);
        }
        let r = match repository {
            None => return Step::Failed(
                make_status(Code::InvalidArgument, "repository required"),
            ),
            Some(r) => r,
        };
        let actor = merge_author(author, now());
        match with_code(
            self.ops_service.merge(
                &r.owner,
                &r.name,
                base_ref,
                head_ref,
                &actor,
                commit_message,
                true,
                replies,
            ),
            Code::Internal,
        ) {
            Step::Ask(calls) => Step::Ask(calls),
            Step::Failed(status) => Step::Failed(status),
            Step::Done(result) => Step::Done(
                MergeResponse {
                    success: result.status == MergeStatus::Success || result.status
                        == MergeStatus::FastForward || result.status
                        == MergeStatus::AlreadyUpToDate,
                    merge_commit_oid: result.commit_oid,
                    conflicts: convert::conflicts_to_proto(result.conflicts),
                },
            ),
        }
    }

    /// Cherry-picks commits onto a branch, [`cherry_pick`].
    pub fn cherry_pick(
        &self,
        repository: Option<&RepositoryPath>,
        commit_oids: &Vec<String>,
        target_branch: &str,
        replies: &Replies,
    ) -> (r: Step<CherryPickResponse, Status>)
        ensures
            r.deep_view() == cherry_pick(
                replies.deep_view(),
                self.config(),
                repository.deep_view(),
                commit_oids.deep_view(),
                target_branch@,
            ),
    {
        proof {
            use_type_invariant(self);
        }
        let r = match repository {
            None => return Step::Failed(
                make_status(Code::InvalidArgument, "repository required"),
            ),
            Some(r) => r,
        };
        assert(commit_oids.deep_view().skip(0) == commit_oids.deep_view());
        pick_all(&self.ops_service, r, commit_oids, 0, target_branch, replies)
    }

    /// Tells how to run git for a fetch, [`pack::upload_pack`].
    pub fn upload_pack(&self, first: Option<PackRequest>, replies: &Replies) -> (r: Step<
        PackCommand,
        Status,
    >)
        ensures
            r.deep_view() == pack::upload_pack(
                replies.deep_view(),
                self.config(),
                first.deep_view(),
            ),
    {
        pack::prepare_upload(&self.config, first, replies)
    }

    /// Tells how to run git for a push, [`pack::receive_pack`], where `binary` is
    /// the program that the hook runs.
    pub fn receive_pack(&self, binary: &str, first: Option<PackRequest>, replies: &Replies) -> (r:
        Step<PackCommand, Status>)
        ensures
            r.deep_view() == pack::receive_pack(
                replies.deep_view(),
                self.config(),
                binary@,
                first.deep_view(),
            ),
    {
        pack::prepare_receive(&self.config, binary, first, replies)
    }
}

} // verus!
