//! What holds of every call that the daemon serves.

use vstd::prelude::*;

use super::diff::{law_diff_progresses, ranked};
use super::host::progresses;
use super::progress;
use crate::git::{self, StorageConfigView};
use crate::grpc::convert;
use crate::grpc::messages::{Code, RepositoryPathView, StatusView};
use crate::grpc::pack::{self, PackRequestView};
use crate::grpc::service;
use crate::host::{HostCallView, ReplyView, StepView};

verus! {

/// Whether a call is refused because it names no repository.
pub open spec fn nameless<T>(step: StepView<T, StatusView>) -> bool {
    step == StepView::<T, StatusView>::Failed(
        convert::status(Code::InvalidArgument, "repository required"@),
    )
}

/// A call that names no repository is refused before anything is looked up.
pub proof fn law_nameless_calls_are_refused(
    k: Seq<(HostCallView, ReplyView)>,
    config: StorageConfigView,
    one: Seq<char>,
    two: Seq<char>,
    many: Seq<Seq<char>>,
    option: Option<Seq<char>>,
    number: u32,
    other: u32,
    filter: i32,
    flag: bool,
)
    ensures
        nameless(service::init_repository(k, config, None, one)),
        nameless(service::delete_repository(k, config, None)),
        nameless(service::repository_exists(k, config, None)),
        nameless(service::get_repository_info(k, config, None)),
        nameless(service::list_refs(k, config, None, filter, one)),
        nameless(service::resolve_ref(k, config, None, one)),
        nameless(service::create_branch(k, config, None, one, two)),
        nameless(service::delete_branch(k, config, None, one, flag)),
        nameless(service::set_default_branch(k, config, None, one)),
        nameless(service::create_tag(k, config, None, one, two)),
        nameless(service::delete_tag(k, config, None, one)),
        nameless(service::get_commit(k, config, None, one)),
        nameless(service::get_commit_log(k, config, None, one, number, other, option)),
        nameless(service::get_commit_ancestors(k, config, None, one, number)),
        nameless(service::get_tree(k, config, None, one, two, flag)),
        nameless(service::get_blob(k, config, None, one)),
        nameless(service::get_blob_info(k, config, None, one, two)),
        nameless(service::get_diff(k, config, None, one, two, option)),
        nameless(service::get_file_diff(k, config, None, one, two, one, number)),
        nameless(service::merge(k, config, None, one, two)),
        nameless(service::rebase(k, config, None, one, two)),
        nameless(service::cherry_pick(k, config, None, many, one)),
        nameless(service::check_objects_exist(k, config, None, many)),
{
}

/// Calls about repositories and references ask only for what is not known.
pub proof fn law_reference_calls_progress(
    k: Seq<(HostCallView, ReplyView)>,
    config: StorageConfigView,
    repository: Option<RepositoryPathView>,
    reference: Seq<char>,
    target: Seq<char>,
    filter: i32,
    force: bool,
)
    ensures
        progresses(k, service::init_repository(k, config, repository, reference)),
        progresses(k, service::delete_repository(k, config, repository)),
        progresses(k, service::repository_exists(k, config, repository)),
        progresses(k, service::get_repository_info(k, config, repository)),
        progresses(k, service::list_refs(k, config, repository, filter, reference)),
        progresses(k, service::resolve_ref(k, config, repository, reference)),
        progresses(k, service::create_branch(k, config, repository, reference, target)),
        progresses(k, service::delete_branch(k, config, repository, reference, force)),
        progresses(k, service::set_default_branch(k, config, repository, reference)),
        progresses(k, service::create_tag(k, config, repository, reference, target)),
        progresses(k, service::delete_tag(k, config, repository, reference)),
{
    if let Some(r) = repository {
        progress::law_repository_progresses(
            k,
            config,
            r.owner,
            r.name,
            r.name,
            convert::optional(reference),
        );
        progress::law_refs_progress(k, config, r.owner, r.name, reference, target, force);
        progress::law_list_refs_progresses(
            k,
            config,
            r.owner,
            r.name,
            service::filter_of(filter),
            convert::optional(reference),
        );
    }
}

/// Calls about commits, trees and files ask only for what is not known.
pub proof fn law_object_calls_progress(
    k: Seq<(HostCallView, ReplyView)>,
    config: StorageConfigView,
    repository: Option<RepositoryPathView>,
    revision: Seq<char>,
    path: Seq<char>,
    filter: Option<Seq<char>>,
    limit: u32,
    skip: u32,
    recursive: bool,
    oids: Seq<Seq<char>>,
)
    ensures
        progresses(k, service::get_commit(k, config, repository, revision)),
        progresses(
            k,
            service::get_commit_log(k, config, repository, revision, limit, skip, filter),
        ),
        progresses(k, service::get_commit_ancestors(k, config, repository, revision, limit)),
        progresses(k, service::get_tree(k, config, repository, revision, path, recursive)),
        progresses(k, service::get_blob(k, config, repository, revision)),
        progresses(k, service::get_blob_info(k, config, repository, revision, path)),
        progresses(k, service::check_objects_exist(k, config, repository, oids)),
{
    if let Some(r) = repository {
        progress::law_commits_progress(
            k,
            config,
            r.owner,
            r.name,
            revision,
            path,
            convert::optional_number(limit),
            convert::optional_number(skip),
            filter,
        );
        progress::law_trees_progress(
            k,
            config,
            r.owner,
            r.name,
            revision,
            convert::optional(path),
            Some(10),
        );
        progress::law_blobs_progress(k, config, r.owner, r.name, revision, path);
        progress::law_blobs_progress(k, config, r.owner, r.name, revision, revision);
        progress::law_objects_exist_progresses(k, config, r.owner, r.name, oids);
    }
}

/// Picking one commit after the other asks only for what is not known.
proof fn lemma_picks_progress(
    k: Seq<(HostCallView, ReplyView)>,
    config: StorageConfigView,
    repository: RepositoryPathView,
    commits: Seq<Seq<char>>,
    onto: Seq<char>,
)
    ensures
        progresses(k, service::picks(k, config, repository, commits, onto)),
    decreases commits.len(),
{
    if commits.len() > 0 {
        progress::law_cherry_pick_progresses(
            k,
            config,
            repository.owner,
            repository.name,
            commits[0],
            onto,
        );
        lemma_picks_progress(k, config, repository, commits.skip(1), onto);
    }
}

/// Calls that compare and merge ask only for what is not known, as long as no
/// tree lies within itself.
pub proof fn law_merge_calls_progress(
    k: Seq<(HostCallView, ReplyView)>,
    config: StorageConfigView,
    repository: Option<RepositoryPathView>,
    base: Seq<char>,
    head: Seq<char>,
    path: Seq<char>,
    filter: Option<Seq<char>>,
    context: u32,
    commits: Seq<Seq<char>>,
    rank: spec_fn(Seq<char>) -> nat,
)
    requires
        ranked(k, rank),
    ensures
        progresses(k, service::get_diff(k, config, repository, base, head, filter)),
        progresses(k, service::get_file_diff(k, config, repository, base, head, path, context)),
        progresses(k, service::merge(k, config, repository, base, head)),
        progresses(k, service::rebase(k, config, repository, base, head)),
        progresses(k, service::cherry_pick(k, config, repository, commits, base)),
{
    if let Some(r) = repository {
        law_diff_progresses(k, config, r.owner, r.name, base, head, filter, Some(3), rank);
        let lines: u32 = if context == 0 {
            3
        } else {
            context
        };
        law_diff_progresses(
            k,
            config,
            r.owner,
            r.name,
            base,
            head,
            Some(path),
            Some(lines),
            rank,
        );
        progress::law_merge_progresses(k, config, r.owner, r.name, base, head, true);
        progress::law_rebase_progresses(k, config, r.owner, r.name, base, head);
        lemma_picks_progress(k, config, r, commits, base);
    }
}

/// A fetch or a push starts git only on a repository that is there, and asks for
/// nothing else.
pub proof fn law_pack_runs_on_what_is_there(
    k: Seq<(HostCallView, ReplyView)>,
    config: StorageConfigView,
    binary: Seq<char>,
    first: Option<PackRequestView>,
)
    ensures
        progresses(k, pack::upload_pack(k, config, first)),
        progresses(k, pack::receive_pack(k, config, binary, first)),
        pack::upload_pack(k, config, first) is Done ==> starts_on(k, config, first),
        pack::receive_pack(k, config, binary, first) is Done ==> starts_on(k, config, first),
{
}

/// Whether a first message names a repository that is there.
pub open spec fn starts_on(
    k: Seq<(HostCallView, ReplyView)>,
    config: StorageConfigView,
    first: Option<PackRequestView>,
) -> bool {
    match first {
        Some(PackRequestView::Init(init)) => match init.repository {
            Some(r) => crate::host::flag(
                k,
                HostCallView::PathExists { path: git::repo_path(config, r.owner, r.name) },
            ) == Some(true),
            None => false,
        },
        _ => false,
    }
}

/// A push that is bounded always runs the hook, and only such a push does.
pub proof fn law_bounded_pushes_run_the_hook(
    config: StorageConfigView,
    binary: Seq<char>,
    path: Seq<char>,
    init: pack::PackInitView,
)
    ensures
        ({
            let command = pack::push_command(config, binary, path, init);
            let hooks = "core.hooksPath="@ + git::hooks_dir(config);
            &&& pack::bounded(init) ==> command.args.len() == 5 && command.args[1] == hooks
                && command.env.len() > 0 && command.env[0] == ("ARBOR_GIT_BIN"@, binary)
            &&& !pack::bounded(init) ==> command.args == pack::serving("receive-pack"@, path)
                && command.env.len() == 0
        }),
{
}

} // verus!
